use crate::items::{
    count_items, find_next_item, insert_item, is_next, item_views, items_after, items_counted,
    update_items, with_items, CrawlItem, ItemEvent, ItemEventView, ItemRow, ItemSelection,
    ItemSelectionView, ItemView,
};
use crate::pages::{
    find_next_page, has_page, insert_page, is_next_page, new_page, page_views, pages_after,
    pages_counted, update_pages, with_page, PageEvent, PageEventView, PageRow, PageSelection,
    PageSelectionView, PageView, SearchPage,
};
use crate::text::same;
use crate::views::{group_texts, lemma_take_next, opt_text, texts};
use vstd::prelude::*;

verus! {

broadcast use group_texts;

/// The record of an item as it was last fetched.
#[derive(Debug)]
pub struct RecordRow {
    pub id: String,
    pub json: String,
    pub fetched_at: i64,
}

/// The texts of a record row.
#[verifier::ext_equal]
pub ghost struct RecordView {
    pub id: Seq<char>,
    pub json: Seq<char>,
    pub fetched_at: i64,
}

impl View for RecordRow {
    type V = RecordView;

    open spec fn view(&self) -> RecordView {
        RecordView { id: self.id@, json: self.json@, fetched_at: self.fetched_at }
    }
}

/// That a page of a stream listed an item.
#[derive(Debug)]
pub struct MemberRow {
    pub search_key: String,
    pub page: u64,
    pub id: String,
}

/// The texts of a member row.
#[verifier::ext_equal]
pub ghost struct MemberView {
    pub search_key: Seq<char>,
    pub page: u64,
    pub id: Seq<char>,
}

impl View for MemberRow {
    type V = MemberView;

    open spec fn view(&self) -> MemberView {
        MemberView { search_key: self.search_key@, page: self.page, id: self.id@ }
    }
}

/// The texts of a record table.
pub open spec fn record_views(rows: Seq<RecordRow>) -> Seq<RecordView> {
    rows.map_values(|r: RecordRow| r@)
}

/// The texts of a member table.
pub open spec fn member_views(rows: Seq<MemberRow>) -> Seq<MemberView> {
    rows.map_values(|r: MemberRow| r@)
}

/// The state of a crawl: its search pages, its items, the records of the items that were fetched,
/// and which page listed which item.
#[derive(Debug)]
pub struct CrawlState {
    pub pages: Vec<PageRow>,
    pub items: Vec<ItemRow>,
    pub records: Vec<RecordRow>,
    pub members: Vec<MemberRow>,
}

/// The texts of a crawl's state.
#[verifier::ext_equal]
pub ghost struct StateView {
    pub pages: Seq<PageView>,
    pub items: Seq<ItemView>,
    pub records: Seq<RecordView>,
    pub members: Seq<MemberView>,
}

impl View for CrawlState {
    type V = StateView;

    open spec fn view(&self) -> StateView {
        StateView {
            pages: page_views(self.pages@),
            items: item_views(self.items@),
            records: record_views(self.records@),
            members: member_views(self.members@),
        }
    }
}

/// No two pages have the same stream and number.
pub open spec fn distinct_pages(rows: Seq<PageView>) -> bool {
    forall|i: int, j: int|
        0 <= i < j < rows.len() ==> (#[trigger] rows[i]).search_key != (
        #[trigger] rows[j]).search_key || rows[i].page != rows[j].page
}

/// No two items have the same identifier.
pub open spec fn distinct_items(rows: Seq<ItemView>) -> bool {
    forall|i: int, j: int|
        0 <= i < j < rows.len() ==> (#[trigger] rows[i]).id != (#[trigger] rows[j]).id
}

/// No two records have the same identifier.
pub open spec fn distinct_records(rows: Seq<RecordView>) -> bool {
    forall|i: int, j: int|
        0 <= i < j < rows.len() ==> (#[trigger] rows[i]).id != (#[trigger] rows[j]).id
}

/// Every row of every table can be told from the others by its key.
pub open spec fn distinct_keys(state: StateView) -> bool {
    &&& distinct_pages(state.pages)
    &&& distinct_items(state.items)
    &&& distinct_records(state.records)
    &&& state.members.no_duplicates()
}

proof fn lemma_pages_after_distinct(
    rows: Seq<PageView>,
    which: PageSelectionView,
    event: PageEventView,
    now: i64,
)
    requires
        distinct_pages(rows),
    ensures
        distinct_pages(pages_after(rows, which, event, now)),
{
    let after = pages_after(rows, which, event, now);
    assert forall|i: int, j: int| 0 <= i < j < after.len() implies (
    #[trigger] after[i]).search_key != (#[trigger] after[j]).search_key || after[i].page
        != after[j].page by {
        assert(after[i].search_key == rows[i].search_key && after[i].page == rows[i].page);
        assert(after[j].search_key == rows[j].search_key && after[j].page == rows[j].page);
    }
}

proof fn lemma_items_after_distinct(
    rows: Seq<ItemView>,
    which: ItemSelectionView,
    event: ItemEventView,
    now: i64,
)
    requires
        distinct_items(rows),
    ensures
        distinct_items(items_after(rows, which, event, now)),
{
    let after = items_after(rows, which, event, now);
    assert forall|i: int, j: int| 0 <= i < j < after.len() implies (#[trigger] after[i]).id != (
    #[trigger] after[j]).id by {
        assert(after[i].id == rows[i].id);
        assert(after[j].id == rows[j].id);
    }
}

proof fn lemma_with_items_distinct(
    rows: Seq<ItemView>,
    ids: Seq<Seq<char>>,
    search_key: Option<Seq<char>>,
    page: Option<u64>,
    now: i64,
)
    requires
        distinct_items(rows),
    ensures
        distinct_items(with_items(rows, ids, search_key, page, now)),
    decreases ids.len(),
{
    if ids.len() > 0 {
        lemma_with_items_distinct(rows, ids.drop_last(), search_key, page, now);
    }
}

/// The table with a record put in the place of that of the same item, or added.
pub open spec fn with_record(rows: Seq<RecordView>, record: RecordView) -> Seq<RecordView> {
    if exists|i: int| 0 <= i < rows.len() && (#[trigger] rows[i]).id == record.id {
        rows.map_values(
            |r: RecordView|
                if r.id == record.id {
                    record
                } else {
                    r
                },
        )
    } else {
        rows.push(record)
    }
}

proof fn lemma_with_record_distinct(rows: Seq<RecordView>, record: RecordView)
    requires
        distinct_records(rows),
    ensures
        distinct_records(with_record(rows, record)),
{
    let after = with_record(rows, record);
    if exists|i: int| 0 <= i < rows.len() && (#[trigger] rows[i]).id == record.id {
        assert forall|i: int, j: int| 0 <= i < j < after.len() implies (#[trigger] after[i]).id != (
        #[trigger] after[j]).id by {
            assert(after[i].id == rows[i].id);
            assert(after[j].id == rows[j].id);
        }
    }
}

fn put_record(rows: &mut Vec<RecordRow>, id: &str, json: &str, fetched_at: i64)
    ensures
        record_views(final(rows)@) == with_record(
            record_views(old(rows)@),
            (RecordView { id: id@, json: json@, fetched_at }),
        ),
{
    let ghost all = record_views(rows@);
    let ghost record = RecordView { id: id@, json: json@, fetched_at };
    let ghost target = all.map_values(
        |r: RecordView|
            if r.id == record.id {
                record
            } else {
                r
            },
    );
    let count: usize = rows.len();
    let mut found: bool = false;
    for i in 0..count
        invariant
            count == rows@.len() == all.len() == target.len(),
            all == record_views(old(rows)@),
            record == (RecordView { id: id@, json: json@, fetched_at }),
            target == all.map_values(
                |r: RecordView|
                    if r.id == record.id {
                        record
                    } else {
                        r
                    },
            ),
            forall|k: int| 0 <= k < i ==> (#[trigger] rows@[k])@ == target[k],
            forall|k: int| i <= k < count ==> (#[trigger] rows@[k])@ == all[k],
            found == exists|k: int| 0 <= k < i && (#[trigger] all[k]).id == id@,
    {
        if same(&rows[i].id, id) {
            assert(all[i as int].id == id@);
            rows.set(i, RecordRow { id: id.to_owned(), json: json.to_owned(), fetched_at });
            found = true;
        } else {
            assert(target[i as int] == all[i as int]);
        }
    }
    assert(record_views(rows@) == target);
    if !found {
        assert(target == all);
        rows.push(RecordRow { id: id.to_owned(), json: json.to_owned(), fetched_at });
    }
}

/// The table with the items of a page added, as far as it does not have them.
pub open spec fn with_members(
    rows: Seq<MemberView>,
    search_key: Seq<char>,
    page: u64,
    ids: Seq<Seq<char>>,
) -> Seq<MemberView>
    decreases ids.len(),
{
    if ids.len() == 0 {
        rows
    } else {
        let before = with_members(rows, search_key, page, ids.drop_last());
        let member = MemberView { search_key, page, id: ids.last() };
        if before.contains(member) {
            before
        } else {
            before.push(member)
        }
    }
}

proof fn lemma_with_members_distinct(
    rows: Seq<MemberView>,
    search_key: Seq<char>,
    page: u64,
    ids: Seq<Seq<char>>,
)
    requires
        rows.no_duplicates(),
    ensures
        with_members(rows, search_key, page, ids).no_duplicates(),
    decreases ids.len(),
{
    if ids.len() > 0 {
        lemma_with_members_distinct(rows, search_key, page, ids.drop_last());
    }
}

fn has_member(rows: &Vec<MemberRow>, search_key: &str, page: u64, id: &str) -> (result: bool)
    ensures
        result == member_views(rows@).contains(
            (MemberView { search_key: search_key@, page, id: id@ }),
        ),
{
    let ghost all = member_views(rows@);
    let ghost wanted = MemberView { search_key: search_key@, page, id: id@ };
    for i in 0..rows.len()
        invariant
            all == member_views(rows@),
            wanted == (MemberView { search_key: search_key@, page, id: id@ }),
            forall|k: int| 0 <= k < i ==> all[k] != wanted,
    {
        if rows[i].page == page && same(&rows[i].search_key, search_key) && same(&rows[i].id, id) {
            assert(all[i as int] == wanted);
            return true;
        }
    }
    false
}

fn insert_members(rows: &mut Vec<MemberRow>, search_key: &str, page: u64, ids: &Vec<String>)
    ensures
        member_views(final(rows)@) == with_members(
            member_views(old(rows)@),
            search_key@,
            page,
            texts(ids@),
        ),
{
    let ghost before = member_views(rows@);
    let ghost all = texts(ids@);
    for i in 0..ids.len()
        invariant
            all == texts(ids@),
            member_views(rows@) == with_members(before, search_key@, page, all.take(i as int)),
    {
        proof {
            lemma_take_next(all, i as int);
            assert(all.take(i + 1).drop_last() == all.take(i as int));
        }
        if !has_member(rows, search_key, page, &ids[i]) {
            rows.push(
                MemberRow { search_key: search_key.to_owned(), page, id: ids[i].clone() },
            );
        }
    }
    assert(all.take(all.len() as int) == all);
}

/// A search page that was read.
#[derive(Debug)]
pub struct CompletedSearchPage<'a> {
    pub search_key: &'a str,
    pub page: u64,
    pub ids: &'a Vec<String>,
    pub total_results: Option<u64>,
    pub params_json: &'a str,
    pub next_page: Option<u64>,
}

/// How many failed rows were given a new start.
#[derive(Debug, Clone, Copy)]
pub struct RetryCounts {
    pub items: u64,
    pub search_pages: u64,
}

/// A crawl's state after interrupted work was reset.
pub open spec fn state_reset(state: StateView, now: i64) -> StateView {
    StateView {
        pages: pages_after(
            state.pages,
            PageSelectionView::Status { status: "in_progress"@ },
            PageEventView::Reset,
            now,
        ),
        items: items_after(
            state.items,
            ItemSelectionView::Status { status: "in_progress"@ },
            ItemEventView::Reset,
            now,
        ),
        ..state
    }
}

/// A crawl's state after an event has happened to one page.
pub open spec fn state_page(
    state: StateView,
    search_key: Seq<char>,
    page: u64,
    event: PageEventView,
    now: i64,
) -> StateView {
    StateView {
        pages: pages_after(
            state.pages,
            PageSelectionView::Key { search_key, page },
            event,
            now,
        ),
        ..state
    }
}

/// A crawl's state after an event has happened to one item.
pub open spec fn state_item(
    state: StateView,
    id: Seq<char>,
    event: ItemEventView,
    now: i64,
) -> StateView {
    StateView {
        items: items_after(state.items, ItemSelectionView::Id { id }, event, now),
        ..state
    }
}

/// A crawl's state after a record was saved: the record and its item's state change together.
pub open spec fn state_saved(state: StateView, record: RecordView, now: i64) -> StateView {
    StateView {
        records: with_record(state.records, record),
        items: items_after(
            state.items,
            ItemSelectionView::Id { id: record.id },
            ItemEventView::Save,
            now,
        ),
        ..state
    }
}

/// A crawl's state after a page was read.
pub open spec fn state_completed(
    state: StateView,
    search_key: Seq<char>,
    page: u64,
    ids: Seq<Seq<char>>,
    total_results: Option<u64>,
    params_json: Seq<char>,
    next_page: Option<u64>,
    now: i64,
) -> StateView {
    let pages = pages_after(
        state.pages,
        PageSelectionView::Key { search_key, page },
        PageEventView::Complete { result_count: ids.len() as u64, total_results },
        now,
    );
    StateView {
        pages: match next_page {
            Some(next) => with_page(pages, new_page(search_key, next, params_json, now)),
            None => pages,
        },
        members: with_members(state.members, search_key, page, ids),
        ..state
    }
}

/// A crawl's state after failed rows were given a new start.
pub open spec fn state_retried(state: StateView, http_status: Option<u16>, now: i64) -> StateView {
    StateView {
        pages: pages_after(
            state.pages,
            PageSelectionView::Failed { http_status },
            PageEventView::Retry,
            now,
        ),
        items: items_after(
            state.items,
            ItemSelectionView::Failed { http_status },
            ItemEventView::Retry,
            now,
        ),
        ..state
    }
}

impl CrawlState {
    /// The state of a crawl that has not begun.
    pub fn new() -> (result: Self)
        ensures
            result@.pages.len() == 0,
            result@.items.len() == 0,
            result@.records.len() == 0,
            result@.members.len() == 0,
            distinct_keys(result@),
    {
        CrawlState {
            pages: Vec::new(),
            items: Vec::new(),
            records: Vec::new(),
            members: Vec::new(),
        }
    }

    /// Makes pages and items that an interrupted crawl had taken up wait again.
    pub fn reset_interrupted_work(&mut self, now: i64)
        ensures
            final(self)@ == state_reset(old(self)@, now),
            distinct_keys(old(self)@) ==> distinct_keys(final(self)@),
    {
        let ghost before = self@;
        let pages = PageSelection::Status { status: "in_progress".to_owned() };
        let items = ItemSelection::Status { status: "in_progress".to_owned() };
        update_pages(&mut self.pages, &pages, &PageEvent::Reset, now);
        update_items(&mut self.items, &items, &ItemEvent::Reset, now);
        proof {
            if distinct_keys(before) {
                lemma_pages_after_distinct(before.pages, pages@, PageEventView::Reset, now);
                lemma_items_after_distinct(before.items, items@, ItemEventView::Reset, now);
            }
        }
    }

    /// Adds the first page of a stream, unless it is there; says whether it was added.
    pub fn seed_search_page(
        &mut self,
        search_key: &str,
        params_json: &str,
        page: u64,
        now: i64,
    ) -> (added: bool)
        ensures
            final(self)@ == (StateView {
                pages: with_page(
                    old(self)@.pages,
                    new_page(search_key@, page, params_json@, now),
                ),
                ..old(self)@
            }),
            added == !has_page(old(self)@.pages, search_key@, page),
            distinct_keys(old(self)@) ==> distinct_keys(final(self)@),
    {
        insert_page(&mut self.pages, search_key, page, params_json, now)
    }

    /// The next page of a stream to read: the first that waits and has attempts left.
    pub fn next_search_page(&self, search_key: &str, max_attempts: u32) -> (result: Option<
        SearchPage,
    >)
        ensures
            match result {
                Some(found) => found.search_key@ == search_key@ && exists|i: int|
                    #[trigger] is_next_page(self@.pages, i, search_key@, max_attempts)
                        && self@.pages[i].page == found.page,
                None => pages_counted(
                    self@.pages,
                    PageSelectionView::Waiting { search_key: search_key@, max_attempts },
                ) == 0,
            },
    {
        match find_next_page(&self.pages, search_key, max_attempts) {
            Some(i) => {
                assert(is_next_page(self@.pages, i as int, search_key@, max_attempts));
                Some(SearchPage { search_key: search_key.to_owned(), page: self.pages[i].page })
            },
            None => None,
        }
    }

    fn change_page(&mut self, search_key: &str, page: u64, event: &PageEvent, now: i64)
        ensures
            final(self)@ == state_page(old(self)@, search_key@, page, event@, now),
            distinct_keys(old(self)@) ==> distinct_keys(final(self)@),
    {
        let ghost before = self@;
        let which = PageSelection::Key { search_key: search_key.to_owned(), page };
        update_pages(&mut self.pages, &which, event, now);
        proof {
            if distinct_keys(before) {
                lemma_pages_after_distinct(before.pages, which@, event@, now);
            }
        }
    }

    /// Discovery takes up a page.
    pub fn mark_search_page_started(&mut self, search_key: &str, page: u64, now: i64)
        ensures
            final(self)@ == state_page(
                old(self)@,
                search_key@,
                page,
                PageEventView::Start,
                now,
            ),
            distinct_keys(old(self)@) ==> distinct_keys(final(self)@),
    {
        self.change_page(search_key, page, &PageEvent::Start, now);
    }

    /// A page was read: its results and total are kept, and the page behind it is added.
    pub fn complete_search_page(&mut self, done: &CompletedSearchPage<'_>, now: i64)
        ensures
            final(self)@ == state_completed(
                old(self)@,
                done.search_key@,
                done.page,
                texts(done.ids@),
                done.total_results,
                done.params_json@,
                done.next_page,
                now,
            ),
            distinct_keys(old(self)@) ==> distinct_keys(final(self)@),
    {
        let ghost before = self@;
        let event = PageEvent::Complete {
            result_count: done.ids.len() as u64,
            total_results: done.total_results,
        };
        self.change_page(done.search_key, done.page, &event, now);
        insert_members(&mut self.members, done.search_key, done.page, done.ids);
        proof {
            if distinct_keys(before) {
                lemma_with_members_distinct(
                    before.members,
                    done.search_key@,
                    done.page,
                    texts(done.ids@),
                );
            }
        }
        match done.next_page {
            Some(next) => {
                insert_page(&mut self.pages, done.search_key, next, done.params_json, now);
            },
            None => {},
        }
    }

    /// A page cannot be read.
    pub fn fail_search_page(&mut self, search_key: &str, page: u64, error: &str, now: i64)
        ensures
            final(self)@ == state_page(
                old(self)@,
                search_key@,
                page,
                PageEventView::Fail { error: error@ },
                now,
            ),
            distinct_keys(old(self)@) ==> distinct_keys(final(self)@),
    {
        let event = PageEvent::Fail { error: error.to_owned() };
        self.change_page(search_key, page, &event, now);
    }

    /// A page could not be read this time; the attempt is given back.
    pub fn defer_search_page_after_transient_error(
        &mut self,
        search_key: &str,
        page: u64,
        error: &str,
        now: i64,
    )
        ensures
            final(self)@ == state_page(
                old(self)@,
                search_key@,
                page,
                PageEventView::Defer { error: error@ },
                now,
            ),
            distinct_keys(old(self)@) ==> distinct_keys(final(self)@),
    {
        let event = PageEvent::Defer { error: error.to_owned() };
        self.change_page(search_key, page, &event, now);
    }

    /// Adds items that are not there yet; says how many were added.
    pub fn enqueue_items(
        &mut self,
        search_key: &Option<String>,
        page: Option<u64>,
        ids: &Vec<String>,
        now: i64,
    ) -> (added: usize)
        ensures
            final(self)@ == (StateView {
                items: with_items(
                    old(self)@.items,
                    texts(ids@),
                    opt_text(*search_key),
                    page,
                    now,
                ),
                ..old(self)@
            }),
            added == final(self)@.items.len() - old(self)@.items.len(),
            distinct_keys(old(self)@) ==> distinct_keys(final(self)@),
    {
        let ghost before = self@;
        let ghost all = texts(ids@);
        let mut added: usize = 0;
        for i in 0..ids.len()
            invariant
                before == old(self)@,
                all == texts(ids@),
                added <= i,
                self@ == (StateView {
                    items: with_items(
                        before.items,
                        all.take(i as int),
                        opt_text(*search_key),
                        page,
                        now,
                    ),
                    ..before
                }),
                added == self@.items.len() - before.items.len(),
        {
            proof {
                lemma_take_next(all, i as int);
                assert(all.take(i + 1).drop_last() == all.take(i as int));
            }
            if insert_item(&mut self.items, &ids[i], search_key, page, now) {
                added = added + 1;
            }
        }
        proof {
            assert(all.take(all.len() as int) == all);
            if distinct_keys(before) {
                lemma_with_items_distinct(before.items, all, opt_text(*search_key), page, now);
            }
        }
        added
    }

    /// The next item to fetch: of those that wait and have attempts left, the one that changed
    /// first, then by identifier.
    pub fn next_item(&self, max_attempts: u32) -> (result: Option<CrawlItem>)
        ensures
            match result {
                Some(found) => exists|i: int|
                    #[trigger] is_next(self@.items, i, max_attempts) && self@.items[i].id
                        == found.id@,
                None => items_counted(self@.items, ItemSelectionView::Waiting { max_attempts })
                    == 0,
            },
    {
        match find_next_item(&self.items, max_attempts) {
            Some(i) => {
                assert(is_next(self@.items, i as int, max_attempts));
                Some(CrawlItem { id: self.items[i].id.clone() })
            },
            None => None,
        }
    }

    fn change_item(&mut self, id: &str, event: &ItemEvent, now: i64)
        ensures
            final(self)@ == state_item(old(self)@, id@, event@, now),
            distinct_keys(old(self)@) ==> distinct_keys(final(self)@),
    {
        let ghost before = self@;
        let which = ItemSelection::Id { id: id.to_owned() };
        update_items(&mut self.items, &which, event, now);
        proof {
            if distinct_keys(before) {
                lemma_items_after_distinct(before.items, which@, event@, now);
            }
        }
    }

    /// A worker takes up an item.
    pub fn mark_item_started(&mut self, id: &str, now: i64)
        ensures
            final(self)@ == state_item(old(self)@, id@, ItemEventView::Start, now),
            distinct_keys(old(self)@) ==> distinct_keys(final(self)@),
    {
        self.change_item(id, &ItemEvent::Start, now);
    }

    /// A worker takes up the next item to fetch.
    pub fn claim_next_item(&mut self, max_attempts: u32, now: i64) -> (result: Option<CrawlItem>)
        ensures
            match result {
                Some(found) => (exists|i: int|
                    #[trigger] is_next(old(self)@.items, i, max_attempts) && old(self)@.items[i].id
                        == found.id@) && final(self)@ == state_item(
                    old(self)@,
                    found.id@,
                    ItemEventView::Start,
                    now,
                ),
                None => items_counted(
                    old(self)@.items,
                    ItemSelectionView::Waiting { max_attempts },
                ) == 0 && final(self)@ == old(self)@,
            },
            distinct_keys(old(self)@) ==> distinct_keys(final(self)@),
    {
        match self.next_item(max_attempts) {
            Some(found) => {
                self.mark_item_started(&found.id, now);
                Some(found)
            },
            None => None,
        }
    }

    /// Saves the record of an item, in the place of an earlier one; the item is done.
    pub fn save_record(&mut self, id: &str, record_json: &str, fetched_at: i64, now: i64)
        ensures
            final(self)@ == state_saved(
                old(self)@,
                (RecordView { id: id@, json: record_json@, fetched_at }),
                now,
            ),
            distinct_keys(old(self)@) ==> distinct_keys(final(self)@),
    {
        let ghost before = self@;
        put_record(&mut self.records, id, record_json, fetched_at);
        proof {
            if distinct_keys(before) {
                lemma_with_record_distinct(
                    before.records,
                    RecordView { id: id@, json: record_json@, fetched_at },
                );
            }
        }
        self.change_item(id, &ItemEvent::Save, now);
    }

    /// An item cannot be fetched.
    pub fn fail_item(&mut self, id: &str, error: &str, http_status: Option<u16>, now: i64)
        ensures
            final(self)@ == state_item(
                old(self)@,
                id@,
                ItemEventView::Fail { error: error@, http_status },
                now,
            ),
            distinct_keys(old(self)@) ==> distinct_keys(final(self)@),
    {
        let event = ItemEvent::Fail { error: error.to_owned(), http_status };
        self.change_item(id, &event, now);
    }

    /// An item could not be fetched this time; the attempt is given back.
    pub fn defer_item_after_transient_error(
        &mut self,
        id: &str,
        error: &str,
        http_status: Option<u16>,
        now: i64,
    )
        ensures
            final(self)@ == state_item(
                old(self)@,
                id@,
                ItemEventView::Defer { error: error@, http_status },
                now,
            ),
            distinct_keys(old(self)@) ==> distinct_keys(final(self)@),
    {
        let event = ItemEvent::Defer { error: error.to_owned(), http_status };
        self.change_item(id, &event, now);
    }

    /// The site does not have an item; it is not fetched again.
    pub fn mark_item_missing(&mut self, id: &str, error: &str, http_status: Option<u16>, now: i64)
        ensures
            final(self)@ == state_item(
                old(self)@,
                id@,
                ItemEventView::Miss { error: error@, http_status },
                now,
            ),
            distinct_keys(old(self)@) ==> distinct_keys(final(self)@),
    {
        let event = ItemEvent::Miss { error: error.to_owned(), http_status };
        self.change_item(id, &event, now);
    }

    /// Gives failed rows a new start: all, or those that failed with an HTTP status.
    pub fn retry_failed(&mut self, http_status: Option<u16>, now: i64) -> (counts: RetryCounts)
        ensures
            final(self)@ == state_retried(old(self)@, http_status, now),
            counts.items == items_counted(
                old(self)@.items,
                ItemSelectionView::Failed { http_status },
            ),
            counts.search_pages == pages_counted(
                old(self)@.pages,
                PageSelectionView::Failed { http_status },
            ),
            distinct_keys(old(self)@) ==> distinct_keys(final(self)@),
    {
        let ghost before = self@;
        let items_meant = ItemSelection::Failed { http_status };
        let pages_meant = PageSelection::Failed { http_status };
        let items: usize = update_items(&mut self.items, &items_meant, &ItemEvent::Retry, now);
        let pages: usize = update_pages(&mut self.pages, &pages_meant, &PageEvent::Retry, now);
        proof {
            if distinct_keys(before) {
                lemma_pages_after_distinct(before.pages, pages_meant@, PageEventView::Retry, now);
                lemma_items_after_distinct(before.items, items_meant@, ItemEventView::Retry, now);
            }
        }
        RetryCounts { items: items as u64, search_pages: pages as u64 }
    }

    /// How many items wait to be fetched and have attempts left.
    pub fn count_item_backlog(&self, max_attempts: u32) -> (result: u64)
        ensures
            result == items_counted(self@.items, ItemSelectionView::Waiting { max_attempts }),
    {
        let which = ItemSelection::Waiting { max_attempts };
        count_items(&self.items, &which) as u64
    }

    /// How many records there are.
    pub fn count_records(&self) -> (result: u64)
        ensures
            result == self@.records.len(),
    {
        self.records.len() as u64
    }
}

} // verus!
