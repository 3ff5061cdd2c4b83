use crate::items::{
    has_item, is_next, item_after, item_selected, items_counted, new_item, with_item, with_items,
    ItemEventView, ItemSelectionView, ItemView,
};
use crate::numerals::decimal;
use crate::order::{law_sorting_keeps_the_texts, lemma_before_total, sorted_texts, text_before};
use crate::pages::{
    has_page, is_next_page, new_page, page_after, page_selected, pages_after, pages_counted,
    with_page, PageEventView, PageSelectionView, PageView,
};
use crate::state::{
    state_completed, state_item, state_page, state_reset, state_retried, state_saved, with_members,
    MemberView, RecordView, StateView,
};
use crate::summary::{has_record, lists_records, record_ids};
use crate::views::{law_count_where, lemma_count_split, lemma_count_zero};
use vstd::prelude::*;

verus! {

/// The five known states have different names.
pub proof fn lemma_statuses_differ()
    ensures
        "pending"@ != "in_progress"@,
        "pending"@ != "done"@,
        "pending"@ != "missing"@,
        "pending"@ != "failed"@,
        "in_progress"@ != "done"@,
        "in_progress"@ != "missing"@,
        "in_progress"@ != "failed"@,
        "done"@ != "missing"@,
        "done"@ != "failed"@,
        "missing"@ != "failed"@,
{
    reveal_strlit("pending");
    reveal_strlit("in_progress");
    reveal_strlit("done");
    reveal_strlit("missing");
    reveal_strlit("failed");
    assert("pending"@[0] == 'p');
    assert("in_progress"@[0] == 'i');
    assert("done"@[0] == 'd');
    assert("missing"@[0] == 'm');
    assert("failed"@[0] == 'f');
}

/// After a reset nothing is in progress, and every page and item that was not in progress is as it
/// was: a crawl resumes from the last state that was kept.
pub proof fn law_reset_resumes(state: StateView, now: i64)
    ensures
        pages_counted(
            state_reset(state, now).pages,
            PageSelectionView::Status { status: "in_progress"@ },
        ) == 0,
        items_counted(
            state_reset(state, now).items,
            ItemSelectionView::Status { status: "in_progress"@ },
        ) == 0,
        state_reset(state, now).pages.len() == state.pages.len(),
        state_reset(state, now).items.len() == state.items.len(),
        forall|i: int|
            0 <= i < state.pages.len() && state.pages[i].status != "in_progress"@
                ==> #[trigger] state_reset(state, now).pages[i] == state.pages[i],
        forall|i: int|
            0 <= i < state.items.len() && state.items[i].status != "in_progress"@
                ==> #[trigger] state_reset(state, now).items[i] == state.items[i],
        state_reset(state, now).records == state.records,
        state_reset(state, now).members == state.members,
{
    lemma_statuses_differ();
    let after = state_reset(state, now);
    let p = |r: PageView|
        page_selected(r, PageSelectionView::Status { status: "in_progress"@ });
    let q = |r: ItemView|
        item_selected(r, ItemSelectionView::Status { status: "in_progress"@ });
    assert forall|i: int| 0 <= i < after.pages.len() implies !p(#[trigger] after.pages[i]) by {
    }
    assert forall|i: int| 0 <= i < after.items.len() implies !q(#[trigger] after.items[i]) by {
    }
    lemma_count_zero(after.pages, p);
    lemma_count_zero(after.items, q);
}

/// Resetting twice is resetting once.
pub proof fn law_reset_is_idempotent(state: StateView, now: i64, later: i64)
    ensures
        state_reset(state_reset(state, now), later) == state_reset(state, now),
{
    lemma_statuses_differ();
    let once = state_reset(state, now);
    let twice = state_reset(once, later);
    assert(twice.pages =~= once.pages);
    assert(twice.items =~= once.items);
}

/// An attempt at an item that ends in a deferral is not counted.
pub proof fn law_deferred_item_keeps_attempts(
    row: ItemView,
    error: Seq<char>,
    http_status: Option<u16>,
    now: i64,
    later: i64,
)
    requires
        row.attempts < u32::MAX,
    ensures
        item_after(
            item_after(row, ItemEventView::Start, now),
            ItemEventView::Defer { error, http_status },
            later,
        ) == (ItemView {
            status: "pending"@,
            last_error: Some(error),
            last_http_status: http_status,
            updated_at: later,
            ..row
        }),
{
}

/// An attempt at a page that ends in a deferral is not counted.
pub proof fn law_deferred_page_keeps_attempts(
    row: PageView,
    error: Seq<char>,
    now: i64,
    later: i64,
)
    requires
        row.attempts < u32::MAX,
    ensures
        page_after(
            page_after(row, PageEventView::Start, now),
            PageEventView::Defer { error },
            later,
        ) == (PageView {
            status: "pending"@,
            last_error: Some(error),
            updated_at: later,
            ..row
        }),
{
}

/// An attempt at an item that ends in a failure is counted; after as many as are allowed the item
/// waits no more.
pub proof fn law_failed_item_spends_attempts(
    row: ItemView,
    error: Seq<char>,
    http_status: Option<u16>,
    now: i64,
    later: i64,
    max_attempts: u32,
)
    requires
        row.attempts < u32::MAX,
    ensures
        item_selected(
            item_after(
                item_after(row, ItemEventView::Start, now),
                ItemEventView::Fail { error, http_status },
                later,
            ),
            ItemSelectionView::Waiting { max_attempts },
        ) <==> row.attempts + 1 < max_attempts,
{
    lemma_statuses_differ();
}

/// An item that the site does not have is not fetched again, and no retry of failures brings it
/// back.
pub proof fn law_missing_is_terminal(
    row: ItemView,
    error: Seq<char>,
    http_status: Option<u16>,
    now: i64,
    max_attempts: u32,
    retried: Option<u16>,
)
    ensures
        !item_selected(
            item_after(row, ItemEventView::Miss { error, http_status }, now),
            ItemSelectionView::Waiting { max_attempts },
        ),
        !item_selected(
            item_after(row, ItemEventView::Miss { error, http_status }, now),
            ItemSelectionView::Failed { http_status: retried },
        ),
{
    lemma_statuses_differ();
}

/// An item that a worker has taken up is not handed out again while it is in progress.
pub proof fn law_claimed_item_is_taken(row: ItemView, now: i64, max_attempts: u32)
    ensures
        !item_selected(
            item_after(row, ItemEventView::Start, now),
            ItemSelectionView::Waiting { max_attempts },
        ),
{
    lemma_statuses_differ();
}

/// A saved record and its item's state change together: afterwards the record is in the table, the
/// item is done and waits no more, and every other row is as it was.
pub proof fn law_saved_record_and_item_agree(
    state: StateView,
    record: RecordView,
    now: i64,
    max_attempts: u32,
)
    ensures
        state_saved(state, record, now).records.contains(record),
        forall|i: int|
            0 <= i < state.items.len() && state.items[i].id == record.id ==> (
            #[trigger] state_saved(state, record, now).items[i]).status == "done"@
                && !item_selected(
                state_saved(state, record, now).items[i],
                ItemSelectionView::Waiting { max_attempts },
            ),
        forall|i: int|
            0 <= i < state.items.len() && state.items[i].id != record.id
                ==> #[trigger] state_saved(state, record, now).items[i] == state.items[i],
        forall|i: int|
            0 <= i < state.records.len() && state.records[i].id != record.id
                ==> #[trigger] state_saved(state, record, now).records[i] == state.records[i],
        state_saved(state, record, now).pages == state.pages,
        state_saved(state, record, now).members == state.members,
{
    lemma_statuses_differ();
    let after = state_saved(state, record, now);
    if exists|i: int| 0 <= i < state.records.len() && (#[trigger] state.records[i]).id == record.id {
        let i = choose|i: int|
            0 <= i < state.records.len() && (#[trigger] state.records[i]).id == record.id;
        assert(after.records[i] == record);
    } else {
        assert(after.records[state.records.len() as int] == record);
    }
}

/// A saved record is exported under its identifier, as it was last saved.
pub proof fn law_saved_record_is_exported(
    state: StateView,
    record: RecordView,
    now: i64,
    list: Seq<(String, String)>,
)
    requires
        lists_records(list, state_saved(state, record, now).records),
    ensures
        exists|i: int|
            0 <= i < list.len() && (#[trigger] list[i]).0@ == record.id && list[i].1@
                == record.json,
{
    law_saved_record_and_item_agree(state, record, now, 0);
    let rows = state_saved(state, record, now).records;
    let ids = record_ids(rows);
    let at = rows.index_of(record);
    assert(ids[at] == record.id);
    assert(ids.to_set().contains(record.id));
    law_sorting_keeps_the_texts(ids);
    assert(sorted_texts(ids).to_set().contains(record.id));
    let i = sorted_texts(ids).index_of(record.id);
    assert(list[i].0@ == record.id);
    assert(has_record(rows, list[i].0@, list[i].1@));
    let k = choose|k: int|
        0 <= k < rows.len() && (#[trigger] rows[k]).id == list[i].0@ && rows[k].json
            == list[i].1@;
    assert(rows[k] == record) by {
        if exists|j: int| 0 <= j < state.records.len() && (#[trigger] state.records[j]).id
            == record.id {
            assert(rows[k].id == record.id);
        } else {
            if k < state.records.len() {
                assert(rows[k] == state.records[k]);
            }
        }
    }
}

proof fn lemma_with_items_keeps(
    rows: Seq<ItemView>,
    ids: Seq<Seq<char>>,
    search_key: Option<Seq<char>>,
    page: Option<u64>,
    now: i64,
)
    ensures
        with_items(rows, ids, search_key, page, now).len() >= rows.len(),
        with_items(rows, ids, search_key, page, now).take(rows.len() as int) == rows,
        forall|k: int|
            0 <= k < ids.len() ==> has_item(
                with_items(rows, ids, search_key, page, now),
                #[trigger] ids[k],
            ),
    decreases ids.len(),
{
    let after = with_items(rows, ids, search_key, page, now);
    if ids.len() > 0 {
        lemma_with_items_keeps(rows, ids.drop_last(), search_key, page, now);
        let before = with_items(rows, ids.drop_last(), search_key, page, now);
        let item = new_item(ids.last(), search_key, page, now);
        assert(after == with_item(before, item));
        assert(after.take(rows.len() as int) =~= before.take(rows.len() as int));
        if !has_item(before, item.id) {
            assert(after[before.len() as int].id == ids.last());
        }
        assert forall|k: int| 0 <= k < ids.len() implies has_item(after, #[trigger] ids[k]) by {
            if k < ids.len() - 1 {
                assert(ids.drop_last()[k] == ids[k]);
                let i = choose|i: int| 0 <= i < before.len() && (#[trigger] before[i]).id == ids[k];
                assert(after[i].id == ids[k]);
            }
        }
    } else {
        assert(rows.take(rows.len() as int) =~= rows);
    }
}

/// Naming items again, from whatever page and however often, adds nothing and changes nothing: an
/// item that is known keeps its state, so one that is done is not fetched again.
pub proof fn law_known_items_are_skipped(
    rows: Seq<ItemView>,
    ids: Seq<Seq<char>>,
    search_key: Option<Seq<char>>,
    page: Option<u64>,
    now: i64,
)
    requires
        forall|k: int| 0 <= k < ids.len() ==> has_item(rows, #[trigger] ids[k]),
    ensures
        with_items(rows, ids, search_key, page, now) == rows,
    decreases ids.len(),
{
    if ids.len() > 0 {
        assert forall|k: int| 0 <= k < ids.len() - 1 implies has_item(
            rows,
            #[trigger] ids.drop_last()[k],
        ) by {
            assert(ids.drop_last()[k] == ids[k]);
        }
        law_known_items_are_skipped(rows, ids.drop_last(), search_key, page, now);
        assert(has_item(rows, ids[ids.len() - 1]));
    }
}

/// Adding the items of a page keeps all rows, makes every listed item known, and doing it again
/// adds nothing.
pub proof fn law_enqueue_is_idempotent(
    rows: Seq<ItemView>,
    ids: Seq<Seq<char>>,
    search_key: Option<Seq<char>>,
    page: Option<u64>,
    now: i64,
    later: i64,
)
    ensures
        with_items(rows, ids, search_key, page, now).take(rows.len() as int) == rows,
        forall|k: int|
            0 <= k < ids.len() ==> has_item(
                with_items(rows, ids, search_key, page, now),
                #[trigger] ids[k],
            ),
        with_items(with_items(rows, ids, search_key, page, now), ids, search_key, page, later)
            == with_items(rows, ids, search_key, page, now),
{
    lemma_with_items_keeps(rows, ids, search_key, page, now);
    law_known_items_are_skipped(
        with_items(rows, ids, search_key, page, now),
        ids,
        search_key,
        page,
        later,
    );
}

/// Adding a page of a stream again changes nothing.
pub proof fn law_seeding_is_idempotent(rows: Seq<PageView>, page: PageView, again: PageView)
    requires
        page.search_key == again.search_key,
        page.page == again.page,
    ensures
        has_page(with_page(rows, page), page.search_key, page.page),
        with_page(with_page(rows, page), again) == with_page(rows, page),
{
    let once = with_page(rows, page);
    if !has_page(rows, page.search_key, page.page) {
        assert(once[rows.len() as int] == page);
    }
}

/// A retry of all failures leaves nothing failed; what had failed waits again with all its
/// attempts, and the rest is as it was.
pub proof fn law_retry_resets_failures(state: StateView, now: i64)
    ensures
        items_counted(
            state_retried(state, None, now).items,
            ItemSelectionView::Failed { http_status: None },
        ) == 0,
        pages_counted(
            state_retried(state, None, now).pages,
            PageSelectionView::Failed { http_status: None },
        ) == 0,
        forall|i: int|
            0 <= i < state.items.len() && state.items[i].status == "failed"@ ==> (
            #[trigger] state_retried(state, None, now).items[i]).status == "pending"@
                && state_retried(state, None, now).items[i].attempts == 0,
        forall|i: int|
            0 <= i < state.items.len() && state.items[i].status != "failed"@
                ==> #[trigger] state_retried(state, None, now).items[i] == state.items[i],
        forall|i: int|
            0 <= i < state.pages.len() && state.pages[i].status == "failed"@ ==> (
            #[trigger] state_retried(state, None, now).pages[i]).status == "pending"@
                && state_retried(state, None, now).pages[i].attempts == 0,
        forall|i: int|
            0 <= i < state.pages.len() && state.pages[i].status != "failed"@
                ==> #[trigger] state_retried(state, None, now).pages[i] == state.pages[i],
{
    lemma_statuses_differ();
    let after = state_retried(state, None, now);
    let p = |r: ItemView| item_selected(r, ItemSelectionView::Failed { http_status: None });
    let q = |r: PageView| page_selected(r, PageSelectionView::Failed { http_status: None });
    assert forall|i: int| 0 <= i < after.items.len() implies !p(#[trigger] after.items[i]) by {
    }
    assert forall|i: int| 0 <= i < after.pages.len() implies !q(#[trigger] after.pages[i]) by {
    }
    lemma_count_zero(after.items, p);
    lemma_count_zero(after.pages, q);
}

/// A retry of the failures with one HTTP status leaves items that failed with another as they are.
pub proof fn law_retry_keeps_other_failures(state: StateView, status: u16, now: i64, i: int)
    requires
        0 <= i < state.items.len(),
        state.items[i].last_http_status != Some(status),
    ensures
        state_retried(state, Some(status), now).items[i] == state.items[i],
{
}

/// Every failed item, and every failed page, has attempts left or has none.
pub proof fn law_failures_are_retryable_or_exhausted(state: StateView, max_attempts: u32)
    ensures
        items_counted(state.items, ItemSelectionView::Failed { http_status: None })
            == items_counted(state.items, ItemSelectionView::Retryable { max_attempts })
            + items_counted(state.items, ItemSelectionView::Exhausted { max_attempts }),
        pages_counted(state.pages, PageSelectionView::Failed { http_status: None })
            == pages_counted(state.pages, PageSelectionView::Retryable { max_attempts })
            + pages_counted(state.pages, PageSelectionView::Exhausted { max_attempts }),
{
    lemma_count_split(
        state.items,
        |r: ItemView| item_selected(r, ItemSelectionView::Failed { http_status: None }),
        |r: ItemView| item_selected(r, ItemSelectionView::Retryable { max_attempts }),
        |r: ItemView| item_selected(r, ItemSelectionView::Exhausted { max_attempts }),
    );
    lemma_count_split(
        state.pages,
        |r: PageView| page_selected(r, PageSelectionView::Failed { http_status: None }),
        |r: PageView| page_selected(r, PageSelectionView::Retryable { max_attempts }),
        |r: PageView| page_selected(r, PageSelectionView::Exhausted { max_attempts }),
    );
}

/// Whatever happens to an item, it stays the same item, seen first where it was, and the time is
/// noted.
pub proof fn law_item_stays_itself(row: ItemView, event: ItemEventView, now: i64)
    ensures
        ({
            let after = item_after(row, event, now);
            &&& after.id == row.id
            &&& after.first_seen_search_key == row.first_seen_search_key
            &&& after.first_seen_page == row.first_seen_page
            &&& after.updated_at == now
        }),
{
}

/// An item is in progress once started, done once saved, failed or missing once that is said, and
/// waits again once deferred, reset or retried.
pub proof fn law_item_events(row: ItemView, error: Seq<char>, http_status: Option<u16>, now: i64)
    ensures
        item_after(row, ItemEventView::Start, now).status == "in_progress"@,
        row.attempts < u32::MAX ==> item_after(row, ItemEventView::Start, now).attempts
            == row.attempts + 1,
        item_after(row, ItemEventView::Save, now).status == "done"@,
        item_after(row, ItemEventView::Save, now).last_error is None,
        item_after(row, ItemEventView::Save, now).attempts == row.attempts,
        ({
            let failed = item_after(row, ItemEventView::Fail { error, http_status }, now);
            &&& failed.status == "failed"@
            &&& failed.attempts == row.attempts
            &&& failed.last_error == Some(error)
            &&& failed.last_http_status == http_status
        }),
        ({
            let gone = item_after(row, ItemEventView::Miss { error, http_status }, now);
            &&& gone.status == "missing"@
            &&& gone.attempts == row.attempts
            &&& gone.last_error == Some(error)
            &&& gone.last_http_status == http_status
        }),
        ({
            let deferred = item_after(row, ItemEventView::Defer { error, http_status }, now);
            &&& deferred.status == "pending"@
            &&& row.attempts > 0 ==> deferred.attempts == row.attempts - 1
            &&& row.attempts == 0 ==> deferred.attempts == 0
            &&& deferred.last_error == Some(error)
            &&& deferred.last_http_status == http_status
        }),
        item_after(row, ItemEventView::Reset, now) == (ItemView {
            status: "pending"@,
            updated_at: now,
            ..row
        }),
        ({
            let retried = item_after(row, ItemEventView::Retry, now);
            &&& retried.status == "pending"@
            &&& retried.attempts == 0
            &&& retried.last_error is None
            &&& retried.last_http_status is None
        }),
{
}

/// Whatever happens to a search page, it stays the same page of the same stream, and the time is
/// noted; only its completion changes what is known of its results.
pub proof fn law_page_stays_itself(row: PageView, event: PageEventView, now: i64)
    ensures
        ({
            let after = page_after(row, event, now);
            &&& after.search_key == row.search_key
            &&& after.page == row.page
            &&& after.params_json == row.params_json
            &&& after.updated_at == now
            &&& !(event is Complete) ==> after.result_count == row.result_count
                && after.total_results == row.total_results
            &&& event matches PageEventView::Complete { result_count, total_results }
                ==> after.status == "done"@ && after.result_count == Some(result_count)
                && after.total_results == total_results && after.attempts == row.attempts
                && after.last_error is None
            &&& event matches PageEventView::Fail { error } ==> after.status == "failed"@
                && after.last_error == Some(error) && after.attempts == row.attempts
            &&& event is Start ==> after.status == "in_progress"@ && (row.attempts < u32::MAX
                ==> after.attempts == row.attempts + 1)
            &&& event is Defer ==> after.status == "pending"@
            &&& event is Reset ==> after.status == "pending"@ && after.attempts == row.attempts
            &&& event is Retry ==> after.status == "pending"@ && after.attempts == 0
                && after.last_error is None
        }),
{
}

/// The next item to fetch waits, has attempts left, and no item that does so has waited longer; of
/// those that waited as long, its identifier comes first.
pub proof fn law_next_item(rows: Seq<ItemView>, i: int, k: int, max_attempts: u32)
    requires
        is_next(rows, i, max_attempts),
        0 <= k < rows.len(),
        rows[k].status == "pending"@ || rows[k].status == "failed"@,
        rows[k].attempts < max_attempts,
    ensures
        rows[i].status == "pending"@ || rows[i].status == "failed"@,
        rows[i].attempts < max_attempts,
        rows[i].updated_at <= rows[k].updated_at,
        rows[i].updated_at == rows[k].updated_at ==> rows[i].id == rows[k].id || text_before(
            rows[i].id,
            rows[k].id,
        ),
{
    assert(item_selected(rows[k], ItemSelectionView::Waiting { max_attempts }));
    lemma_before_total(rows[i].id, rows[k].id);
}

/// The next page of a stream to fetch is of that stream, waits, has attempts left, and is the first
/// that does so.
pub proof fn law_next_page(
    rows: Seq<PageView>,
    i: int,
    k: int,
    search_key: Seq<char>,
    max_attempts: u32,
)
    requires
        is_next_page(rows, i, search_key, max_attempts),
        0 <= k < rows.len(),
        rows[k].search_key == search_key,
        rows[k].status == "pending"@ || rows[k].status == "failed"@,
        rows[k].attempts < max_attempts,
    ensures
        rows[i].search_key == search_key,
        rows[i].status == "pending"@ || rows[i].status == "failed"@,
        rows[i].attempts < max_attempts,
        rows[i].page <= rows[k].page,
{
    assert(page_selected(
        rows[k],
        PageSelectionView::Waiting { search_key, max_attempts },
    ));
}

/// What is counted as the backlog is what waits with attempts left.
pub proof fn law_backlog(rows: Seq<ItemView>, row: ItemView, max_attempts: u32)
    ensures
        (row.status == "pending"@ || row.status == "failed"@) && row.attempts < max_attempts
            ==> items_counted(rows.push(row), ItemSelectionView::Waiting { max_attempts })
            == items_counted(rows, ItemSelectionView::Waiting { max_attempts }) + 1,
        (row.status != "pending"@ && row.status != "failed"@) || row.attempts >= max_attempts
            ==> items_counted(rows.push(row), ItemSelectionView::Waiting { max_attempts })
            == items_counted(rows, ItemSelectionView::Waiting { max_attempts }),
{
    law_count_where(
        rows,
        row,
        |r: ItemView| item_selected(r, ItemSelectionView::Waiting { max_attempts }),
    );
}

/// An item that is enqueued waits, untried, and is noted as first seen on its page.
pub proof fn law_enqueued_items(
    rows: Seq<ItemView>,
    ids: Seq<Seq<char>>,
    search_key: Option<Seq<char>>,
    page: Option<u64>,
    now: i64,
    i: int,
)
    requires
        rows.len() <= i < with_items(rows, ids, search_key, page, now).len(),
    ensures
        ({
            let row = with_items(rows, ids, search_key, page, now)[i];
            &&& ids.contains(row.id)
            &&& row.status == "pending"@
            &&& row.attempts == 0
            &&& row.first_seen_search_key == search_key
            &&& row.first_seen_page == page
            &&& row.last_error is None
            &&& row.last_http_status is None
            &&& row.updated_at == now
        }),
    decreases ids.len(),
{
    if ids.len() > 0 {
        let init = ids.drop_last();
        let before = with_items(rows, init, search_key, page, now);
        assert(ids[ids.len() - 1] == ids.last());
        if i < before.len() {
            law_enqueued_items(rows, init, search_key, page, now, i);
            let k = init.index_of(before[i].id);
            assert(ids[k] == before[i].id);
        }
    }
}

/// A page that is seeded waits, untried.
pub proof fn law_seeded_page(
    rows: Seq<PageView>,
    search_key: Seq<char>,
    page: u64,
    params_json: Seq<char>,
    now: i64,
)
    ensures
        ({
            let after = with_page(rows, new_page(search_key, page, params_json, now));
            &&& has_page(rows, search_key, page) ==> after == rows
            &&& !has_page(rows, search_key, page) ==> after.drop_last() == rows && ({
                let row = after.last();
                &&& row.search_key == search_key
                &&& row.page == page
                &&& row.params_json == params_json
                &&& row.status == "pending"@
                &&& row.attempts == 0
                &&& row.result_count is None
                &&& row.total_results is None
                &&& row.updated_at == now
            })
        }),
{
    assert(rows.push(new_page(search_key, page, params_json, now)).drop_last() =~= rows);
}

/// The members of a stream are those that it had and those that were listed on the page, each once.
pub proof fn law_members(
    rows: Seq<MemberView>,
    search_key: Seq<char>,
    page: u64,
    ids: Seq<Seq<char>>,
    member: MemberView,
)
    ensures
        with_members(rows, search_key, page, ids).contains(member) <==> rows.contains(member) || (
        member.search_key == search_key && member.page == page && ids.contains(member.id)),
        rows.is_prefix_of(with_members(rows, search_key, page, ids)),
    decreases ids.len(),
{
    if ids.len() > 0 {
        let init = ids.drop_last();
        let before = with_members(rows, search_key, page, init);
        let after = with_members(rows, search_key, page, ids);
        let last = MemberView { search_key, page, id: ids.last() };
        law_members(rows, search_key, page, init, member);
        assert(ids[ids.len() - 1] == ids.last());
        if init.contains(member.id) {
            let k = init.index_of(member.id);
            assert(ids[k] == member.id);
        }
        if ids.contains(member.id) && !init.contains(member.id) {
            let k = ids.index_of(member.id);
            assert(k < init.len() ==> init[k] == member.id);
        }
        if before.contains(member) {
            let k = before.index_of(member);
            assert(after[k] == member);
        }
        if after.contains(member) && !before.contains(member) {
            let k = after.index_of(member);
            assert(k < before.len() ==> before[k] == member);
        }
        if member == last && !before.contains(member) {
            assert(after[before.len() as int] == member);
        }
    }
}

/// A completed page is done, with as many results as it listed and the total it reported; no other
/// page changes, the following page waits where there is one, and what it listed belongs to its
/// stream. No item and no record changes.
pub proof fn law_completed_page(
    state: StateView,
    search_key: Seq<char>,
    page: u64,
    ids: Seq<Seq<char>>,
    total_results: Option<u64>,
    params_json: Seq<char>,
    next_page: Option<u64>,
    now: i64,
    i: int,
)
    requires
        ids.len() <= u64::MAX,
        0 <= i < state.pages.len(),
    ensures
        ({
            let after = state_completed(
                state,
                search_key,
                page,
                ids,
                total_results,
                params_json,
                next_page,
                now,
            );
            let mine = state.pages[i].search_key == search_key && state.pages[i].page == page;
            &&& mine ==> after.pages[i].status == "done"@ && after.pages[i].result_count == Some(
                ids.len() as u64,
            ) && after.pages[i].total_results == total_results
            &&& !mine ==> after.pages[i] == state.pages[i]
            &&& next_page is None ==> after.pages.len() == state.pages.len()
            &&& next_page matches Some(next) ==> has_page(after.pages, search_key, next)
            &&& after.items == state.items
            &&& after.records == state.records
            &&& forall|k: int|
                0 <= k < ids.len() ==> after.members.contains(
                    (MemberView { search_key, page, id: #[trigger] ids[k] }),
                )
        }),
{
    let after = state_completed(
        state,
        search_key,
        page,
        ids,
        total_results,
        params_json,
        next_page,
        now,
    );
    let pages = pages_after(
        state.pages,
        PageSelectionView::Key { search_key, page },
        PageEventView::Complete { result_count: ids.len() as u64, total_results },
        now,
    );
    match next_page {
        Some(next) => {
            law_seeding_is_idempotent(
                pages,
                new_page(search_key, next, params_json, now),
                new_page(search_key, next, params_json, now),
            );
            assert(after.pages[i] == pages[i]);
        },
        None => {},
    }
    assert forall|k: int| 0 <= k < ids.len() implies after.members.contains(
        (MemberView { search_key, page, id: #[trigger] ids[k] }),
    ) by {
        law_members(
            state.members,
            search_key,
            page,
            ids,
            MemberView { search_key, page, id: ids[k] },
        );
    }
}

/// What happens to one page or one item changes nothing else.
pub proof fn law_events_are_local(
    state: StateView,
    search_key: Seq<char>,
    page: u64,
    page_event: PageEventView,
    id: Seq<char>,
    item_event: ItemEventView,
    now: i64,
    i: int,
)
    ensures
        ({
            let after = state_page(state, search_key, page, page_event, now);
            &&& after.items == state.items
            &&& after.records == state.records
            &&& after.members == state.members
            &&& after.pages.len() == state.pages.len()
            &&& 0 <= i < state.pages.len() && (state.pages[i].search_key != search_key
                || state.pages[i].page != page) ==> after.pages[i] == state.pages[i]
            &&& 0 <= i < state.pages.len() && state.pages[i].search_key == search_key
                && state.pages[i].page == page ==> after.pages[i] == page_after(
                state.pages[i],
                page_event,
                now,
            )
        }),
        ({
            let after = state_item(state, id, item_event, now);
            &&& after.pages == state.pages
            &&& after.records == state.records
            &&& after.members == state.members
            &&& after.items.len() == state.items.len()
            &&& 0 <= i < state.items.len() && state.items[i].id != id ==> after.items[i]
                == state.items[i]
            &&& 0 <= i < state.items.len() && state.items[i].id == id ==> after.items[i]
                == item_after(state.items[i], item_event, now)
        }),
{
}

/// A retry for one status takes up the failures with that status and no others.
pub proof fn law_retry_by_status(state: StateView, status: u16, now: i64, i: int)
    ensures
        ({
            let after = state_retried(state, Some(status), now);
            &&& after.records == state.records
            &&& after.members == state.members
            &&& 0 <= i < state.items.len() && state.items[i].status == "failed"@
                && state.items[i].last_http_status == Some(status) ==> after.items[i].status
                == "pending"@ && after.items[i].attempts == 0
            &&& 0 <= i < state.items.len() && state.items[i].status != "failed"@ ==> after.items[i]
                == state.items[i]
            &&& 0 <= i < state.pages.len() && state.pages[i].status == "failed"@
                && state.pages[i].last_error == Some("search page HTTP "@ + decimal(status as nat))
                ==> after.pages[i].status == "pending"@ && after.pages[i].attempts == 0
            &&& 0 <= i < state.pages.len() && (state.pages[i].status != "failed"@
                || state.pages[i].last_error != Some("search page HTTP "@ + decimal(status as nat)))
                ==> after.pages[i] == state.pages[i]
        }),
{
}

} // verus!
