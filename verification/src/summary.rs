use crate::items::{
    count_items, item_selected, item_views, items_counted, ItemRow, ItemSelection,
    ItemSelectionView, ItemView,
};
use crate::numerals::decimal;
use crate::order::{law_sorting_keeps_the_texts, sort_unique, sorted_texts, text_before};
use crate::pages::{
    count_pages, page_selected, page_views, pages_counted, PageRow, PageSelection,
    PageSelectionView, PageView,
};
use crate::state::{record_views, CrawlState, RecordRow, RecordView, StateView};
use crate::text::{copy_option, same};
use crate::views::{
    count_where, group_texts, law_count_where, lemma_count_bound, lemma_count_next,
    lemma_count_zero, lemma_take_next, opt_text, texts,
};
use vstd::prelude::*;

verus! {

broadcast use group_texts;

/// How many rows of a table are in each state.
#[derive(Debug, Clone, Copy, PartialEq, Eq)]
pub struct WorkStatusSummary {
    pub pending: u64,
    pub in_progress: u64,
    pub done: u64,
    pub missing: u64,
    pub failed: u64,
    pub other: u64,
}

/// How far a crawl has got.
#[derive(Debug, Clone, Copy, PartialEq, Eq)]
pub struct CrawlCompletionSummary {
    pub records: u64,
    pub items: WorkStatusSummary,
    pub search_pages: WorkStatusSummary,
    pub retryable_failed_items: u64,
    pub exhausted_failed_items: u64,
    pub retryable_failed_search_pages: u64,
    pub exhausted_failed_search_pages: u64,
    pub failed_403_items: u64,
    pub failed_403_search_pages: u64,
}

/// How many items are in a state.
pub open spec fn items_in(rows: Seq<ItemView>, status: Seq<char>) -> u64 {
    items_counted(rows, ItemSelectionView::Status { status }) as u64
}

/// How many search pages are in a state.
pub open spec fn pages_in(rows: Seq<PageView>, status: Seq<char>) -> u64 {
    pages_counted(rows, PageSelectionView::Status { status }) as u64
}

/// How many items are in each state.
pub open spec fn item_summary(rows: Seq<ItemView>) -> WorkStatusSummary {
    WorkStatusSummary {
        pending: items_in(rows, "pending"@),
        in_progress: items_in(rows, "in_progress"@),
        done: items_in(rows, "done"@),
        missing: items_in(rows, "missing"@),
        failed: items_in(rows, "failed"@),
        other: items_counted(rows, ItemSelectionView::OtherStatus) as u64,
    }
}

/// How many search pages are in each state.
pub open spec fn page_summary(rows: Seq<PageView>) -> WorkStatusSummary {
    WorkStatusSummary {
        pending: pages_in(rows, "pending"@),
        in_progress: pages_in(rows, "in_progress"@),
        done: pages_in(rows, "done"@),
        missing: pages_in(rows, "missing"@),
        failed: pages_in(rows, "failed"@),
        other: pages_counted(rows, PageSelectionView::OtherStatus) as u64,
    }
}

/// How far a crawl has got, where rows may be tried so often.
pub open spec fn completion_of(state: StateView, max_attempts: u32) -> CrawlCompletionSummary {
    CrawlCompletionSummary {
        records: state.records.len() as u64,
        items: item_summary(state.items),
        search_pages: page_summary(state.pages),
        retryable_failed_items: items_counted(
            state.items,
            ItemSelectionView::Retryable { max_attempts },
        ) as u64,
        exhausted_failed_items: items_counted(
            state.items,
            ItemSelectionView::Exhausted { max_attempts },
        ) as u64,
        retryable_failed_search_pages: pages_counted(
            state.pages,
            PageSelectionView::Retryable { max_attempts },
        ) as u64,
        exhausted_failed_search_pages: pages_counted(
            state.pages,
            PageSelectionView::Exhausted { max_attempts },
        ) as u64,
        failed_403_items: items_counted(
            state.items,
            ItemSelectionView::Failed { http_status: Some(403) },
        ) as u64,
        failed_403_search_pages: pages_counted(
            state.pages,
            PageSelectionView::Failed { http_status: Some(403) },
        ) as u64,
    }
}

fn items_with(rows: &Vec<ItemRow>, status: &str) -> (result: u64)
    ensures
        result == items_in(item_views(rows@), status@),
{
    let which = ItemSelection::Status { status: status.to_owned() };
    count_items(rows, &which) as u64
}

fn pages_with(rows: &Vec<PageRow>, status: &str) -> (result: u64)
    ensures
        result == pages_in(page_views(rows@), status@),
{
    let which = PageSelection::Status { status: status.to_owned() };
    count_pages(rows, &which) as u64
}

/// How many rows failed with an HTTP status.
#[derive(Debug, Clone, Copy, PartialEq, Eq)]
pub struct FailedHttpStatusCount {
    pub http_status: Option<u16>,
    pub count: u64,
}

/// An item that failed.
#[derive(Debug)]
pub struct FailedItemSample {
    pub id: String,
    pub attempts: u32,
    pub last_http_status: Option<u16>,
    pub last_error: Option<String>,
    pub updated_at_unix: i64,
}

/// When the first and the last row of a crawl's state changed.
#[derive(Debug, Clone, Copy, PartialEq, Eq)]
pub struct StateTimeBounds {
    pub started_at_unix: Option<i64>,
    pub finished_at_unix: Option<i64>,
}

/// The place of an optional HTTP status in a list: none comes first.
pub open spec fn status_rank(status: Option<u16>) -> int {
    match status {
        Some(code) => code as int,
        None => -1,
    }
}

fn status_place(status: Option<u16>) -> (result: i32)
    ensures
        result == status_rank(status),
{
    match status {
        Some(code) => code as i32,
        None => -1,
    }
}

/// Whether a list of counts is in the order of the HTTP statuses, each once.
pub open spec fn statuses_in_order(list: Seq<FailedHttpStatusCount>) -> bool {
    forall|i: int, j: int|
        0 <= i < j < list.len() ==> status_rank((#[trigger] list[i]).http_status) < status_rank(
            (#[trigger] list[j]).http_status,
        )
}

/// Whether an item failed with just this HTTP status.
pub open spec fn failed_with(rows: Seq<ItemView>, http_status: Option<u16>) -> bool {
    exists|i: int|
        0 <= i < rows.len() && item_selected(
            #[trigger] rows[i],
            ItemSelectionView::FailedWith { http_status },
        )
}

/// Whether a list counts the failed items by HTTP status.
pub open spec fn counts_failures(list: Seq<FailedHttpStatusCount>, rows: Seq<ItemView>) -> bool {
    &&& statuses_in_order(list)
    &&& forall|i: int|
        0 <= i < list.len() ==> failed_with(rows, (#[trigger] list[i]).http_status)
            && list[i].count == items_counted(
            rows,
            ItemSelectionView::FailedWith { http_status: list[i].http_status },
        )
    &&& forall|i: int|
        0 <= i < rows.len() && (#[trigger] rows[i]).status == "failed"@ ==> exists|k: int|
            0 <= k < list.len() && (#[trigger] list[k]).http_status == rows[i].last_http_status
}

/// Puts a count in its place, unless its HTTP status is there.
fn insert_count(list: &mut Vec<FailedHttpStatusCount>, entry: FailedHttpStatusCount) -> (added: bool)
    requires
        statuses_in_order(old(list)@),
    ensures
        statuses_in_order(final(list)@),
        added ==> exists|at: int|
            0 <= at <= old(list)@.len() && final(list)@ == #[trigger] old(list)@.insert(at, entry),
        !added ==> final(list)@ == old(list)@ && exists|k: int|
            0 <= k < old(list)@.len() && (#[trigger] old(list)@[k]).http_status
                == entry.http_status,
{
    let ghost before = list@;
    let place: i32 = status_place(entry.http_status);
    let mut at: usize = 0;
    while at < list.len() && status_place(list[at].http_status) < place
        invariant
            list@ == before,
            at <= list@.len(),
            forall|k: int|
                0 <= k < at ==> status_rank((#[trigger] before[k]).http_status) < place,
        decreases list@.len() - at,
    {
        at = at + 1;
    }
    if at < list.len() && status_place(list[at].http_status) == place {
        assert(before[at as int].http_status == entry.http_status);
        return false;
    }
    list.insert(at, entry);
    proof {
        assert(list@ == before.insert(at as int, entry));
        assert forall|i: int, j: int| 0 <= i < j < list@.len() implies status_rank(
            (#[trigger] list@[i]).http_status,
        ) < status_rank((#[trigger] list@[j]).http_status) by {
            let a = if i < at {
                i
            } else {
                i - 1
            };
            let b = if j < at {
                j
            } else {
                j - 1
            };
            if i != at && j != at {
                assert(list@[i] == before[a] && list@[j] == before[b]);
            } else if j == at {
                assert(list@[i] == before[i]);
            } else {
                assert(list@[j] == before[b]);
                if at < b {
                    assert(status_rank(before[at as int].http_status) < status_rank(
                        before[b].http_status,
                    ));
                }
            }
        }
    }
    true
}

/// The identifiers of the items that failed.
pub open spec fn failed_ids(rows: Seq<ItemView>) -> Seq<Seq<char>>
    decreases rows.len(),
{
    if rows.len() == 0 {
        Seq::empty()
    } else if rows.last().status == "failed"@ {
        failed_ids(rows.drop_last()).push(rows.last().id)
    } else {
        failed_ids(rows.drop_last())
    }
}

/// Whether a sample tells of a failed item.
pub open spec fn tells_of(sample: FailedItemSample, row: ItemView) -> bool {
    &&& row.status == "failed"@
    &&& sample.id@ == row.id
    &&& sample.attempts == row.attempts
    &&& sample.last_http_status == row.last_http_status
    &&& opt_text(sample.last_error) == row.last_error
    &&& sample.updated_at_unix == row.updated_at
}

/// The smaller of two numbers.
pub open spec fn least(a: nat, b: nat) -> nat {
    if a < b {
        a
    } else {
        b
    }
}

/// Whether a list tells of the first failed items in the order of their identifiers.
pub open spec fn samples_failures(
    list: Seq<FailedItemSample>,
    rows: Seq<ItemView>,
    limit: u64,
) -> bool {
    &&& list.len() == least(sorted_texts(failed_ids(rows)).len(), limit as nat)
    &&& forall|i: int|
        0 <= i < list.len() ==> (#[trigger] list[i]).id@ == sorted_texts(failed_ids(rows))[i]
    &&& forall|i: int|
        0 <= i < list.len() ==> exists|k: int|
            0 <= k < rows.len() && tells_of(#[trigger] list[i], #[trigger] rows[k])
}

fn find_failed(rows: &Vec<ItemRow>, id: &str) -> (result: Option<usize>)
    ensures
        match result {
            Some(i) => i < rows@.len() && rows@[i as int]@.id == id@ && rows@[i as int]@.status
                == "failed"@,
            None => forall|k: int|
                0 <= k < rows@.len() ==> (#[trigger] rows@[k])@.id != id@ || rows@[k]@.status
                    != "failed"@,
        },
{
    for i in 0..rows.len()
        invariant
            forall|k: int|
                0 <= k < i ==> (#[trigger] rows@[k])@.id != id@ || rows@[k]@.status != "failed"@,
    {
        if same(&rows[i].id, id) && same(&rows[i].status, "failed") {
            return Some(i);
        }
    }
    None
}

proof fn lemma_failed_id(rows: Seq<ItemView>, id: Seq<char>)
    requires
        failed_ids(rows).contains(id),
    ensures
        exists|k: int|
            0 <= k < rows.len() && (#[trigger] rows[k]).id == id && rows[k].status == "failed"@,
    decreases rows.len(),
{
    let ids = failed_ids(rows);
    if rows.len() > 0 {
        let shorter = failed_ids(rows.drop_last());
        let at = ids.index_of(id);
        if at < shorter.len() {
            assert(shorter[at] == id);
            lemma_failed_id(rows.drop_last(), id);
            let k = choose|k: int|
                0 <= k < rows.drop_last().len() && (#[trigger] rows.drop_last()[k]).id == id
                    && rows.drop_last()[k].status == "failed"@;
            assert(rows[k].id == id);
        } else {
            assert(rows[rows.len() - 1].id == id);
        }
    }
}

/// The times at which the rows of a crawl's state changed.
pub open spec fn change_times(state: StateView) -> Seq<i64> {
    state.pages.map_values(|r: PageView| r.updated_at) + state.items.map_values(
        |r: ItemView| r.updated_at,
    ) + state.records.map_values(|r: RecordView| r.fetched_at)
}

/// Whether bounds are the first and the last of some times.
pub open spec fn bounds_times(bounds: StateTimeBounds, times: Seq<i64>) -> bool {
    match (bounds.started_at_unix, bounds.finished_at_unix) {
        (Some(first), Some(last)) => {
            &&& times.contains(first)
            &&& times.contains(last)
            &&& forall|i: int| 0 <= i < times.len() ==> first <= #[trigger] times[i] <= last
        },
        (None, None) => times.len() == 0,
        _ => false,
    }
}

fn extend_bounds(bounds: StateTimeBounds, time: i64, Ghost(times): Ghost<Seq<i64>>) -> (result:
    StateTimeBounds)
    requires
        bounds_times(bounds, times),
    ensures
        bounds_times(result, times.push(time)),
{
    let ghost after = times.push(time);
    proof {
        assert(after[times.len() as int] == time);
        assert forall|t: i64| times.contains(t) implies after.contains(t) by {
            assert(after[times.index_of(t)] == t);
        }
    }
    match (bounds.started_at_unix, bounds.finished_at_unix) {
        (Some(first), Some(last)) => {
            let start: i64 = if time < first {
                time
            } else {
                first
            };
            let end: i64 = if time > last {
                time
            } else {
                last
            };
            proof {
                assert forall|i: int| 0 <= i < after.len() implies start <= #[trigger] after[i]
                    <= end by {
                    if i < times.len() {
                        assert(after[i] == times[i]);
                    }
                }
            }
            StateTimeBounds { started_at_unix: Some(start), finished_at_unix: Some(end) }
        },
        _ => StateTimeBounds { started_at_unix: Some(time), finished_at_unix: Some(time) },
    }
}

/// Whether a list gives the number of rows in each state, in the order of the states' names.
pub open spec fn counts_statuses(list: Seq<(String, u64)>, statuses: Seq<Seq<char>>) -> bool {
    &&& list.len() == sorted_texts(statuses).len()
    &&& forall|i: int|
        0 <= i < list.len() ==> (#[trigger] list[i]).0@ == sorted_texts(statuses)[i] && list[i].1
            == count_where(statuses, |s: Seq<char>| s == list[i].0@)
}

fn count_names(names: &Vec<String>) -> (result: Vec<(String, u64)>)
    ensures
        counts_statuses(result@, texts(names@)),
{
    let ghost all = texts(names@);
    let sorted = sort_unique(names);
    let mut out: Vec<(String, u64)> = Vec::new();
    for i in 0..sorted.len()
        invariant
            all == texts(names@),
            texts(sorted@) == sorted_texts(all),
            out@.len() == i,
            forall|k: int|
                0 <= k < i ==> (#[trigger] out@[k]).0@ == texts(sorted@)[k] && out@[k].1
                    == count_where(all, |s: Seq<char>| s == out@[k].0@),
    {
        let ghost p = |s: Seq<char>| s == sorted@[i as int]@;
        let mut count: usize = 0;
        for j in 0..names.len()
            invariant
                all == texts(names@),
                i < sorted@.len(),
                p == (|s: Seq<char>| s == sorted@[i as int]@),
                count <= j,
                count == count_where(all.take(j as int), p),
        {
            proof {
                lemma_count_next(all, p, j as int);
            }
            if same(&names[j], &sorted[i]) {
                count = count + 1;
            }
        }
        assert(all.take(all.len() as int) == all);
        let name: String = sorted[i].clone();
        assert((|s: Seq<char>| s == name@) =~= p);
        out.push((name, count as u64));
    }
    out
}

/// The states of the rows of a table.
pub open spec fn table_statuses(state: StateView, table: Seq<char>) -> Seq<Seq<char>> {
    if table == "items"@ {
        state.items.map_values(|r: ItemView| r.status)
    } else {
        state.pages.map_values(|r: PageView| r.status)
    }
}

/// The identifiers of some records.
pub open spec fn record_ids(rows: Seq<RecordView>) -> Seq<Seq<char>> {
    rows.map_values(|r: RecordView| r.id)
}

/// Whether a table has a record with this text.
pub open spec fn has_record(rows: Seq<RecordView>, id: Seq<char>, json: Seq<char>) -> bool {
    exists|k: int| 0 <= k < rows.len() && (#[trigger] rows[k]).id == id && rows[k].json == json
}

/// Whether a list gives the records in the order of their identifiers.
pub open spec fn lists_records(list: Seq<(String, String)>, rows: Seq<RecordView>) -> bool {
    &&& list.len() == sorted_texts(record_ids(rows)).len()
    &&& forall|i: int|
        0 <= i < list.len() ==> (#[trigger] list[i]).0@ == sorted_texts(record_ids(rows))[i]
    &&& forall|i: int|
        0 <= i < list.len() ==> has_record(rows, (#[trigger] list[i]).0@, list[i].1@)
}

impl CrawlState {
    /// How far the crawl has got, where rows may be tried so often.
    pub fn crawl_completion_summary(&self, max_attempts: u32) -> (result: CrawlCompletionSummary)
        ensures
            result == completion_of(self@, max_attempts),
    {
        let retryable_items = ItemSelection::Retryable { max_attempts };
        let exhausted_items = ItemSelection::Exhausted { max_attempts };
        let refused_items = ItemSelection::Failed { http_status: Some(403) };
        let other_items = ItemSelection::OtherStatus;
        let retryable_pages = PageSelection::Retryable { max_attempts };
        let exhausted_pages = PageSelection::Exhausted { max_attempts };
        let refused_pages = PageSelection::Failed { http_status: Some(403) };
        let other_pages = PageSelection::OtherStatus;
        CrawlCompletionSummary {
            records: self.records.len() as u64,
            items: WorkStatusSummary {
                pending: items_with(&self.items, "pending"),
                in_progress: items_with(&self.items, "in_progress"),
                done: items_with(&self.items, "done"),
                missing: items_with(&self.items, "missing"),
                failed: items_with(&self.items, "failed"),
                other: count_items(&self.items, &other_items) as u64,
            },
            search_pages: WorkStatusSummary {
                pending: pages_with(&self.pages, "pending"),
                in_progress: pages_with(&self.pages, "in_progress"),
                done: pages_with(&self.pages, "done"),
                missing: pages_with(&self.pages, "missing"),
                failed: pages_with(&self.pages, "failed"),
                other: count_pages(&self.pages, &other_pages) as u64,
            },
            retryable_failed_items: count_items(&self.items, &retryable_items) as u64,
            exhausted_failed_items: count_items(&self.items, &exhausted_items) as u64,
            retryable_failed_search_pages: count_pages(&self.pages, &retryable_pages) as u64,
            exhausted_failed_search_pages: count_pages(&self.pages, &exhausted_pages) as u64,
            failed_403_items: count_items(&self.items, &refused_items) as u64,
            failed_403_search_pages: count_pages(&self.pages, &refused_pages) as u64,
        }
    }

    /// How many items failed with each HTTP status; those without an answer come first.
    pub fn failed_item_http_status_counts(&self) -> (result: Vec<FailedHttpStatusCount>)
        ensures
            counts_failures(result@, self@.items),
    {
        let ghost all = self@.items;
        let mut out: Vec<FailedHttpStatusCount> = Vec::new();
        for i in 0..self.items.len()
            invariant
                all == self@.items,
                statuses_in_order(out@),
                forall|k: int|
                    0 <= k < out@.len() ==> failed_with(all, (#[trigger] out@[k]).http_status)
                        && out@[k].count == items_counted(
                        all,
                        ItemSelectionView::FailedWith { http_status: out@[k].http_status },
                    ),
                forall|j: int|
                    0 <= j < i && (#[trigger] all[j]).status == "failed"@ ==> exists|k: int|
                        0 <= k < out@.len() && (#[trigger] out@[k]).http_status
                            == all[j].last_http_status,
        {
            if same(&self.items[i].status, "failed") {
                let http_status = self.items[i].last_http_status;
                let which = ItemSelection::FailedWith { http_status };
                let count: u64 = count_items(&self.items, &which) as u64;
                let entry = FailedHttpStatusCount { http_status, count };
                let ghost before = out@;
                let added = insert_count(&mut out, entry);
                proof {
                    assert(item_selected(
                        all[i as int],
                        ItemSelectionView::FailedWith { http_status },
                    ));
                    if added {
                        let at = choose|at: int|
                            0 <= at <= before.len() && out@ == #[trigger] before.insert(at, entry);
                        assert(out@[at] == entry);
                        assert forall|k: int| 0 <= k < out@.len() implies failed_with(
                            all,
                            (#[trigger] out@[k]).http_status,
                        ) && out@[k].count == items_counted(
                            all,
                            ItemSelectionView::FailedWith { http_status: out@[k].http_status },
                        ) by {
                            if k < at {
                                assert(out@[k] == before[k]);
                            } else if k > at {
                                assert(out@[k] == before[k - 1]);
                            }
                        }
                        assert forall|j: int|
                            0 <= j <= i && (#[trigger] all[j]).status
                                == "failed"@ implies exists|k: int|
                            0 <= k < out@.len() && (#[trigger] out@[k]).http_status
                                == all[j].last_http_status by {
                            if j < i {
                                let k = choose|k: int|
                                    0 <= k < before.len() && (#[trigger] before[k]).http_status
                                        == all[j].last_http_status;
                                if k < at {
                                    assert(out@[k] == before[k]);
                                } else {
                                    assert(out@[k + 1] == before[k]);
                                }
                            } else {
                                assert(out@[at].http_status == all[j].last_http_status);
                            }
                        }
                    }
                }
            }
        }
        out
    }

    /// The first failed items in the order of their identifiers.
    pub fn failed_item_sample(&self, limit: u64) -> (result: Vec<FailedItemSample>)
        ensures
            samples_failures(result@, self@.items, limit),
    {
        let ghost all = self@.items;
        let mut ids: Vec<String> = Vec::new();
        for i in 0..self.items.len()
            invariant
                all == self@.items,
                texts(ids@) == failed_ids(all.take(i as int)),
        {
            proof {
                lemma_take_next(all, i as int);
                assert(all.take(i + 1).drop_last() == all.take(i as int));
            }
            if same(&self.items[i].status, "failed") {
                ids.push(self.items[i].id.clone());
            }
        }
        assert(all.take(all.len() as int) == all);
        let sorted = sort_unique(&ids);
        let count: usize = if (sorted.len() as u64) < limit {
            sorted.len()
        } else {
            limit as usize
        };
        let mut out: Vec<FailedItemSample> = Vec::new();
        for i in 0..count
            invariant
                all == self@.items,
                count <= sorted@.len(),
                texts(ids@) == failed_ids(all),
                texts(sorted@) == sorted_texts(texts(ids@)),
                texts(sorted@).to_set() == texts(ids@).to_set(),
                out@.len() == i,
                forall|k: int| 0 <= k < i ==> (#[trigger] out@[k]).id@ == texts(sorted@)[k],
                forall|k: int|
                    0 <= k < i ==> exists|m: int|
                        0 <= m < all.len() && tells_of(#[trigger] out@[k], #[trigger] all[m]),
        {
            let ghost id = texts(sorted@)[i as int];
            proof {
                assert(texts(sorted@).to_set().contains(id));
                assert(texts(ids@).contains(id));
                lemma_failed_id(all, id);
            }
            match find_failed(&self.items, &sorted[i]) {
                Some(at) => {
                    let row = &self.items[at];
                    let sample = FailedItemSample {
                        id: row.id.clone(),
                        attempts: row.attempts,
                        last_http_status: row.last_http_status,
                        last_error: copy_option(&row.last_error),
                        updated_at_unix: row.updated_at,
                    };
                    assert(tells_of(sample, all[at as int]));
                    out.push(sample);
                },
                None => {
                    proof {
                        let k = choose|k: int|
                            0 <= k < all.len() && (#[trigger] all[k]).id == id && all[k].status
                                == "failed"@;
                        assert(self.items@[k]@ == all[k]);
                        assert(false);
                    }
                },
            }
        }
        out
    }

    /// When the first and the last row of the state changed.
    pub fn state_time_bounds(&self) -> (result: StateTimeBounds)
        ensures
            bounds_times(result, change_times(self@)),
    {
        let ghost pages = self@.pages.map_values(|r: PageView| r.updated_at);
        let ghost items = self@.items.map_values(|r: ItemView| r.updated_at);
        let ghost records = self@.records.map_values(|r: RecordView| r.fetched_at);
        let mut bounds = StateTimeBounds { started_at_unix: None, finished_at_unix: None };
        assert(pages.take(0) =~= Seq::empty());
        for i in 0..self.pages.len()
            invariant
                pages == self@.pages.map_values(|r: PageView| r.updated_at),
                bounds_times(bounds, pages.take(i as int)),
        {
            proof {
                lemma_take_next(pages, i as int);
            }
            bounds = extend_bounds(
                bounds,
                self.pages[i].updated_at,
                Ghost(pages.take(i as int)),
            );
        }
        assert(pages.take(pages.len() as int) =~= pages);
        assert(pages + items.take(0) =~= pages);
        for i in 0..self.items.len()
            invariant
                items == self@.items.map_values(|r: ItemView| r.updated_at),
                bounds_times(bounds, pages + items.take(i as int)),
        {
            proof {
                lemma_take_next(items, i as int);
                assert((pages + items.take(i as int)).push(items[i as int]) =~= pages + items.take(
                    i + 1,
                ));
            }
            bounds = extend_bounds(
                bounds,
                self.items[i].updated_at,
                Ghost(pages + items.take(i as int)),
            );
        }
        assert(items.take(items.len() as int) =~= items);
        assert(pages + items + records.take(0) =~= pages + items);
        for i in 0..self.records.len()
            invariant
                records == self@.records.map_values(|r: RecordView| r.fetched_at),
                bounds_times(bounds, pages + items + records.take(i as int)),
        {
            proof {
                lemma_take_next(records, i as int);
                assert((pages + items + records.take(i as int)).push(records[i as int]) =~= pages
                    + items + records.take(i + 1));
            }
            bounds = extend_bounds(
                bounds,
                self.records[i].fetched_at,
                Ghost(pages + items + records.take(i as int)),
            );
        }
        assert(records.take(records.len() as int) =~= records);
        bounds
    }

    /// How many rows of the items or of the search pages are in each state.
    pub fn status_counts(&self, table: &str) -> (result: Result<Vec<(String, u64)>, String>)
        ensures
            match result {
                Ok(list) => (table@ == "items"@ || table@ == "search_pages"@) && counts_statuses(
                    list@,
                    table_statuses(self@, table@),
                ),
                Err(message) => table@ != "items"@ && table@ != "search_pages"@ && message@
                    == "unsupported table for status counts: "@ + table@,
            },
    {
        let mut names: Vec<String> = Vec::new();
        if same(table, "items") {
            let ghost all = self@.items.map_values(|r: ItemView| r.status);
            for i in 0..self.items.len()
                invariant
                    all == self@.items.map_values(|r: ItemView| r.status),
                    texts(names@) == all.take(i as int),
            {
                names.push(self.items[i].status.clone());
                proof {
                    lemma_take_next(all, i as int);
                }
            }
            assert(all.take(all.len() as int) == all);
        } else if same(table, "search_pages") {
            let ghost all = self@.pages.map_values(|r: PageView| r.status);
            for i in 0..self.pages.len()
                invariant
                    all == self@.pages.map_values(|r: PageView| r.status),
                    texts(names@) == all.take(i as int),
            {
                names.push(self.pages[i].status.clone());
                proof {
                    lemma_take_next(all, i as int);
                }
            }
            assert(all.take(all.len() as int) == all);
        } else {
            let mut message: String = "unsupported table for status counts: ".to_owned();
            message.append(table);
            return Err(message);
        }
        Ok(count_names(&names))
    }

    /// The identifiers and texts of the records, in the order of the identifiers.
    pub fn records_in_order(&self) -> (result: Vec<(String, String)>)
        ensures
            lists_records(result@, self@.records),
    {
        let ghost all = self@.records;
        let ghost names = record_ids(all);
        let mut ids: Vec<String> = Vec::new();
        for i in 0..self.records.len()
            invariant
                all == self@.records,
                names == record_ids(all),
                texts(ids@) == names.take(i as int),
        {
            ids.push(self.records[i].id.clone());
            proof {
                lemma_take_next(names, i as int);
            }
        }
        assert(names.take(names.len() as int) == names);
        let sorted = sort_unique(&ids);
        let mut out: Vec<(String, String)> = Vec::new();
        for i in 0..sorted.len()
            invariant
                all == self@.records,
                names == record_ids(all),
                texts(ids@) == names,
                texts(sorted@) == sorted_texts(names),
                texts(sorted@).to_set() == names.to_set(),
                out@.len() == i,
                forall|k: int| 0 <= k < i ==> (#[trigger] out@[k]).0@ == texts(sorted@)[k],
                forall|k: int|
                    0 <= k < i ==> has_record(all, (#[trigger] out@[k]).0@, out@[k].1@),
        {
            let ghost id = texts(sorted@)[i as int];
            proof {
                assert(texts(sorted@).to_set().contains(id));
                assert(names.contains(id));
            }
            let at: usize = find_record(&self.records, &sorted[i]);
            let pair: (String, String) = (sorted[i].clone(), self.records[at].json.clone());
            assert(all[at as int].id == pair.0@ && all[at as int].json == pair.1@);
            out.push(pair);
        }
        out
    }
}

fn find_record(rows: &Vec<RecordRow>, id: &str) -> (result: usize)
    requires
        record_ids(record_views(rows@)).contains(id@),
    ensures
        result < rows@.len(),
        rows@[result as int]@.id == id@,
{
    let ghost names = record_ids(record_views(rows@));
    let mut at: usize = 0;
    while at < rows.len() && !same(&rows[at].id, id)
        invariant
            at <= rows@.len(),
            names == record_ids(record_views(rows@)),
            forall|k: int| 0 <= k < at ==> names[k] != id@,
        decreases rows@.len() - at,
    {
        at = at + 1;
    }
    proof {
        let i = names.index_of(id@);
        assert(names[i] == id@);
    }
    at
}

proof fn lemma_items_counted_next(rows: Seq<ItemView>, row: ItemView, which: ItemSelectionView)
    ensures
        items_counted(rows, which) <= rows.len(),
        item_selected(row, which) ==> items_counted(rows.push(row), which) == items_counted(
            rows,
            which,
        ) + 1,
        !item_selected(row, which) ==> items_counted(rows.push(row), which) == items_counted(
            rows,
            which,
        ),
{
    law_count_where(rows, row, |r: ItemView| item_selected(r, which));
    lemma_count_bound(rows, |r: ItemView| item_selected(r, which));
}

proof fn lemma_pages_counted_next(rows: Seq<PageView>, row: PageView, which: PageSelectionView)
    ensures
        pages_counted(rows, which) <= rows.len(),
        page_selected(row, which) ==> pages_counted(rows.push(row), which) == pages_counted(
            rows,
            which,
        ) + 1,
        !page_selected(row, which) ==> pages_counted(rows.push(row), which) == pages_counted(
            rows,
            which,
        ),
{
    law_count_where(rows, row, |r: PageView| page_selected(r, which));
    lemma_count_bound(rows, |r: PageView| page_selected(r, which));
}

/// One more item counts once under its state, and once among the failures that may be retried, that
/// may not and that were refused where it is one.
pub proof fn law_summary_counts_items(state: StateView, row: ItemView, max_attempts: u32)
    requires
        state.items.len() < u64::MAX,
    ensures
        ({
            let before = completion_of(state, max_attempts);
            let after = completion_of(
                StateView { items: state.items.push(row), ..state },
                max_attempts,
            );
            &&& after.records == before.records
            &&& after.search_pages == before.search_pages
            &&& after.retryable_failed_search_pages == before.retryable_failed_search_pages
            &&& after.exhausted_failed_search_pages == before.exhausted_failed_search_pages
            &&& after.failed_403_search_pages == before.failed_403_search_pages
            &&& after.items.pending == before.items.pending + (if row.status == "pending"@ {
                1int
            } else {
                0
            })
            &&& after.items.in_progress == before.items.in_progress + (if row.status == "in_progress"@ {
                1int
            } else {
                0
            })
            &&& after.items.done == before.items.done + (if row.status == "done"@ {
                1int
            } else {
                0
            })
            &&& after.items.missing == before.items.missing + (if row.status == "missing"@ {
                1int
            } else {
                0
            })
            &&& after.items.failed == before.items.failed + (if row.status == "failed"@ {
                1int
            } else {
                0
            })
            &&& after.items.other == before.items.other + (if row.status != "pending"@ && row.status != "in_progress"@ && row.status != "done"@ && row.status != "missing"@ && row.status != "failed"@ {
                1int
            } else {
                0
            })
            &&& after.retryable_failed_items == before.retryable_failed_items + (if row.status == "failed"@ && row.attempts < max_attempts {
                1int
            } else {
                0
            })
            &&& after.exhausted_failed_items == before.exhausted_failed_items + (if row.status == "failed"@ && row.attempts >= max_attempts {
                1int
            } else {
                0
            })
            &&& after.failed_403_items == before.failed_403_items + (if row.status == "failed"@ && row.last_http_status == Some(403u16) {
                1int
            } else {
                0
            })
        }),
{
    lemma_items_counted_next(state.items, row, ItemSelectionView::Status { status: "pending"@ });
    lemma_items_counted_next(state.items, row, ItemSelectionView::Status { status: "in_progress"@ });
    lemma_items_counted_next(state.items, row, ItemSelectionView::Status { status: "done"@ });
    lemma_items_counted_next(state.items, row, ItemSelectionView::Status { status: "missing"@ });
    lemma_items_counted_next(state.items, row, ItemSelectionView::Status { status: "failed"@ });
    lemma_items_counted_next(state.items, row, ItemSelectionView::OtherStatus);
    lemma_items_counted_next(state.items, row, ItemSelectionView::Retryable { max_attempts });
    lemma_items_counted_next(state.items, row, ItemSelectionView::Exhausted { max_attempts });
    lemma_items_counted_next(state.items, row, ItemSelectionView::Failed { http_status: Some(403) });
}

/// One more search page counts once under its state, and once among the failures that may be
/// retried, that may not and that were refused where it is one.
pub proof fn law_summary_counts_pages(state: StateView, row: PageView, max_attempts: u32)
    requires
        state.pages.len() < u64::MAX,
    ensures
        ({
            let before = completion_of(state, max_attempts);
            let after = completion_of(
                StateView { pages: state.pages.push(row), ..state },
                max_attempts,
            );
            &&& after.records == before.records
            &&& after.items == before.items
            &&& after.retryable_failed_items == before.retryable_failed_items
            &&& after.exhausted_failed_items == before.exhausted_failed_items
            &&& after.failed_403_items == before.failed_403_items
            &&& after.search_pages.pending == before.search_pages.pending + (if row.status == "pending"@ {
                1int
            } else {
                0
            })
            &&& after.search_pages.in_progress == before.search_pages.in_progress + (if row.status == "in_progress"@ {
                1int
            } else {
                0
            })
            &&& after.search_pages.done == before.search_pages.done + (if row.status == "done"@ {
                1int
            } else {
                0
            })
            &&& after.search_pages.missing == before.search_pages.missing + (if row.status == "missing"@ {
                1int
            } else {
                0
            })
            &&& after.search_pages.failed == before.search_pages.failed + (if row.status == "failed"@ {
                1int
            } else {
                0
            })
            &&& after.search_pages.other == before.search_pages.other + (if row.status != "pending"@ && row.status != "in_progress"@ && row.status != "done"@ && row.status != "missing"@ && row.status != "failed"@ {
                1int
            } else {
                0
            })
            &&& after.retryable_failed_search_pages == before.retryable_failed_search_pages + (if row.status == "failed"@ && row.attempts < max_attempts {
                1int
            } else {
                0
            })
            &&& after.exhausted_failed_search_pages == before.exhausted_failed_search_pages + (if row.status == "failed"@ && row.attempts >= max_attempts {
                1int
            } else {
                0
            })
            &&& after.failed_403_search_pages == before.failed_403_search_pages + (if row.status == "failed"@ && row.last_error == Some("search page HTTP "@ + decimal(403)) {
                1int
            } else {
                0
            })
        }),
{
    lemma_pages_counted_next(state.pages, row, PageSelectionView::Status { status: "pending"@ });
    lemma_pages_counted_next(state.pages, row, PageSelectionView::Status { status: "in_progress"@ });
    lemma_pages_counted_next(state.pages, row, PageSelectionView::Status { status: "done"@ });
    lemma_pages_counted_next(state.pages, row, PageSelectionView::Status { status: "missing"@ });
    lemma_pages_counted_next(state.pages, row, PageSelectionView::Status { status: "failed"@ });
    lemma_pages_counted_next(state.pages, row, PageSelectionView::OtherStatus);
    lemma_pages_counted_next(state.pages, row, PageSelectionView::Retryable { max_attempts });
    lemma_pages_counted_next(state.pages, row, PageSelectionView::Exhausted { max_attempts });
    lemma_pages_counted_next(state.pages, row, PageSelectionView::Failed { http_status: Some(403) });
}

/// A summary of nothing is all zeros, and each record counts once.
pub proof fn law_summary_counts_records(state: StateView, max_attempts: u32)
    requires
        state.records.len() <= u64::MAX,
    ensures
        completion_of(state, max_attempts).records == state.records.len(),
        state.items.len() == 0 ==> completion_of(state, max_attempts).items.pending == 0
            && completion_of(state, max_attempts).items.failed == 0 && completion_of(
            state,
            max_attempts,
        ).retryable_failed_items == 0,
{
}

proof fn lemma_failed_ids(rows: Seq<ItemView>, id: Seq<char>)
    ensures
        failed_ids(rows).contains(id) <==> exists|i: int|
            0 <= i < rows.len() && (#[trigger] rows[i]).id == id && rows[i].status == "failed"@,
    decreases rows.len(),
{
    let all = failed_ids(rows);
    if rows.len() > 0 {
        let rest = rows.drop_last();
        let n = rest.len() as int;
        let before = failed_ids(rest);
        lemma_failed_ids(rest, id);
        assert(rows[n] == rows.last());
        assert forall|i: int| 0 <= i < n implies #[trigger] rows[i] == rest[i] by {}
        if before.contains(id) {
            let k = before.index_of(id);
            assert(all[k] == id);
            let i = choose|i: int|
                0 <= i < rest.len() && (#[trigger] rest[i]).id == id && rest[i].status
                    == "failed"@;
            assert(rows[i].id == id);
        }
        if all.contains(id) && !before.contains(id) {
            let k = all.index_of(id);
            assert(k < before.len() ==> before[k] == id);
        }
        if rows.last().id == id && rows.last().status == "failed"@ {
            assert(all[before.len() as int] == id);
        }
    } else {
        assert(all =~= Seq::empty());
    }
}

/// A sample of failures holds failed items with what is known of them, in the order of their
/// identifiers.
pub proof fn law_failure_sample(
    list: Seq<FailedItemSample>,
    rows: Seq<ItemView>,
    limit: u64,
    i: int,
    j: int,
) -> (k: int)
    requires
        samples_failures(list, rows, limit),
        0 <= i < j < list.len(),
    ensures
        list.len() <= limit,
        text_before(list[i].id@, list[j].id@),
        0 <= k < rows.len(),
        rows[k].status == "failed"@,
        rows[k].id == list[i].id@,
        rows[k].attempts == list[i].attempts,
        rows[k].last_http_status == list[i].last_http_status,
        rows[k].last_error == opt_text(list[i].last_error),
        rows[k].updated_at == list[i].updated_at_unix,
{
    law_sorting_keeps_the_texts(failed_ids(rows));
    choose|k: int| 0 <= k < rows.len() && tells_of(list[i], #[trigger] rows[k])
}

/// Every failure is in the sample where it has room for more.
pub proof fn law_short_sample_has_every_failure(
    list: Seq<FailedItemSample>,
    rows: Seq<ItemView>,
    limit: u64,
    k: int,
) -> (i: int)
    requires
        samples_failures(list, rows, limit),
        list.len() < limit,
        0 <= k < rows.len(),
        rows[k].status == "failed"@,
    ensures
        0 <= i < list.len(),
        list[i].id@ == rows[k].id,
{
    let ids = failed_ids(rows);
    let id = rows[k].id;
    law_sorting_keeps_the_texts(ids);
    lemma_failed_ids(rows, id);
    assert(ids.to_set().contains(id));
    assert(sorted_texts(ids).to_set().contains(id));
    let i = sorted_texts(ids).index_of(id);
    assert(list[i].id@ == id);
    i
}

/// The failures are counted by their HTTP status: those without one first, then by rising status.
pub proof fn law_failure_counts(list: Seq<FailedHttpStatusCount>, rows: Seq<ItemView>)
    requires
        counts_failures(list, rows),
    ensures
        forall|i: int|
            0 <= i < list.len() ==> (#[trigger] list[i]).count > 0 && list[i].count == count_where(
                rows,
                |r: ItemView| r.status == "failed"@ && r.last_http_status == list[i].http_status,
            ),
        forall|i: int|
            0 < i < list.len() ==> (#[trigger] list[i]).http_status is Some,
        forall|i: int, j: int|
            0 <= i < j < list.len() ==> ((#[trigger] list[i]).http_status matches Some(a) ==> ((
            #[trigger] list[j]).http_status matches Some(b) && a < b)),
        forall|k: int|
            0 <= k < rows.len() && (#[trigger] rows[k]).status == "failed"@ ==> exists|i: int|
                0 <= i < list.len() && (#[trigger] list[i]).http_status
                    == rows[k].last_http_status,
{
    assert forall|i: int| 0 <= i < list.len() implies (#[trigger] list[i]).count > 0
        && list[i].count == count_where(
        rows,
        |r: ItemView| r.status == "failed"@ && r.last_http_status == list[i].http_status,
    ) by {
        let which = ItemSelectionView::FailedWith { http_status: list[i].http_status };
        let p = |r: ItemView| item_selected(r, which);
        let q = |r: ItemView|
            r.status == "failed"@ && r.last_http_status == list[i].http_status;
        assert(p =~= q);
        lemma_count_zero(rows, p);
        assert(failed_with(rows, list[i].http_status));
        let k = choose|k: int| 0 <= k < rows.len() && item_selected(#[trigger] rows[k], which);
        assert(p(rows[k]));
    }
    assert forall|i: int| 0 < i < list.len() implies (#[trigger] list[i]).http_status is Some by {
        assert(status_rank(list[0].http_status) < status_rank(list[i].http_status));
    }
    assert forall|i: int, j: int| 0 <= i < j < list.len() implies ((
    #[trigger] list[i]).http_status matches Some(a) ==> ((#[trigger] list[j]).http_status matches Some(
        b,
    ) && a < b)) by {
        assert(status_rank(list[i].http_status) < status_rank(list[j].http_status));
    }
}

/// The bounds in time hold every change of a page, an item and a record.
pub proof fn law_time_bounds(bounds: StateTimeBounds, state: StateView)
    requires
        bounds_times(bounds, change_times(state)),
    ensures
        bounds.started_at_unix is Some <==> bounds.finished_at_unix is Some,
        bounds.started_at_unix is None <==> state.pages.len() == 0 && state.items.len() == 0
            && state.records.len() == 0,
        forall|i: int|
            0 <= i < state.pages.len() ==> bounds.started_at_unix->Some_0 <= (
            #[trigger] state.pages[i]).updated_at <= bounds.finished_at_unix->Some_0,
        forall|i: int|
            0 <= i < state.items.len() ==> bounds.started_at_unix->Some_0 <= (
            #[trigger] state.items[i]).updated_at <= bounds.finished_at_unix->Some_0,
        forall|i: int|
            0 <= i < state.records.len() ==> bounds.started_at_unix->Some_0 <= (
            #[trigger] state.records[i]).fetched_at <= bounds.finished_at_unix->Some_0,
{
    let times = change_times(state);
    let a = state.pages.len() as int;
    let b = state.items.len() as int;
    assert forall|i: int| 0 <= i < a implies times[i] == (#[trigger] state.pages[i]).updated_at by {}
    assert forall|i: int| 0 <= i < b implies times[a + i] == (
    #[trigger] state.items[i]).updated_at by {}
    assert forall|i: int| 0 <= i < state.records.len() implies times[a + b + i] == (
    #[trigger] state.records[i]).fetched_at by {}
}

/// Every state that an item is in is counted, in the order of their names.
pub proof fn law_item_status_counts(list: Seq<(String, u64)>, state: StateView, k: int) -> (i: int)
    requires
        counts_statuses(list, table_statuses(state, "items"@)),
        0 <= k < state.items.len(),
    ensures
        0 <= i < list.len(),
        list[i].0@ == state.items[k].status,
        list[i].1 == count_where(
            state.items.map_values(|r: ItemView| r.status),
            |s: Seq<char>| s == list[i].0@,
        ),
        forall|j: int| 0 <= j < i ==> text_before((#[trigger] list[j]).0@, list[i].0@),
{
    let statuses = table_statuses(state, "items"@);
    law_sorting_keeps_the_texts(statuses);
    assert(statuses[k] == state.items[k].status);
    assert(statuses.to_set().contains(statuses[k]));
    assert(sorted_texts(statuses).to_set().contains(statuses[k]));
    let i = sorted_texts(statuses).index_of(statuses[k]);
    assert(list[i].0@ == statuses[k]);
    i
}

/// Every state that a search page is in is counted, in the order of their names.
pub proof fn law_page_status_counts(list: Seq<(String, u64)>, state: StateView, k: int) -> (i: int)
    requires
        counts_statuses(list, table_statuses(state, "search_pages"@)),
        0 <= k < state.pages.len(),
    ensures
        0 <= i < list.len(),
        list[i].0@ == state.pages[k].status,
        list[i].1 == count_where(
            state.pages.map_values(|r: PageView| r.status),
            |s: Seq<char>| s == list[i].0@,
        ),
        forall|j: int| 0 <= j < i ==> text_before((#[trigger] list[j]).0@, list[i].0@),
{
    reveal_strlit("items");
    reveal_strlit("search_pages");
    assert("items"@.len() != "search_pages"@.len());
    let statuses = table_statuses(state, "search_pages"@);
    law_sorting_keeps_the_texts(statuses);
    assert(statuses[k] == state.pages[k].status);
    assert(statuses.to_set().contains(statuses[k]));
    assert(sorted_texts(statuses).to_set().contains(statuses[k]));
    let i = sorted_texts(statuses).index_of(statuses[k]);
    assert(list[i].0@ == statuses[k]);
    i
}

/// Every record is listed once, in the order of their identifiers, and nothing else is.
pub proof fn law_records_in_order(list: Seq<(String, String)>, rows: Seq<RecordView>, k: int) -> (
    i: int)
    requires
        lists_records(list, rows),
        0 <= k < rows.len(),
    ensures
        0 <= i < list.len(),
        list[i].0@ == rows[k].id,
        has_record(rows, rows[k].id, list[i].1@),
        forall|j: int| 0 <= j < i ==> text_before((#[trigger] list[j]).0@, list[i].0@),
        forall|j: int| i < j < list.len() ==> text_before(list[i].0@, (#[trigger] list[j]).0@),
{
    let ids = record_ids(rows);
    law_sorting_keeps_the_texts(ids);
    assert(ids[k] == rows[k].id);
    assert(ids.to_set().contains(ids[k]));
    assert(sorted_texts(ids).to_set().contains(ids[k]));
    let i = sorted_texts(ids).index_of(ids[k]);
    assert(list[i].0@ == ids[k]);
    i
}

} // verus!
