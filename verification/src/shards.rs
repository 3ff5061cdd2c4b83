use crate::order::{
    insert_sorted, law_sorting_keeps_the_texts, lemma_before_irreflexive, sort_unique, sorted_texts,
    strictly_sorted, text_before,
};
use crate::pages::{
    count_pages, page_selected, page_views, pages_counted, PageRow, PageSelection,
    PageSelectionView, PageView,
};
use crate::state::{member_views, CrawlState, MemberRow, MemberView, StateView};
use crate::text::{list_has, same};
use crate::views::{group_texts, law_count_where, lemma_count_bound, lemma_take_next, texts};
use vstd::prelude::*;

verus! {

broadcast use group_texts;

/// How far the pages of one search stream cover what the site reports for it.
#[derive(Debug)]
pub struct CoverageShard {
    pub search_key: String,
    pub params_json: String,
    pub pages: u64,
    pub done_pages: u64,
    pub pending_pages: u64,
    pub in_progress_pages: u64,
    pub failed_pages: u64,
    pub discovered_results: u64,
    pub unique_item_ids: u64,
    pub reported_total_results: Option<u64>,
    pub max_done_page: Option<u64>,
    pub last_done_results: Option<u64>,
}

/// The texts and numbers of one stream's coverage.
#[verifier::ext_equal]
pub ghost struct ShardView {
    pub search_key: Seq<char>,
    pub params_json: Seq<char>,
    pub pages: u64,
    pub done_pages: u64,
    pub pending_pages: u64,
    pub in_progress_pages: u64,
    pub failed_pages: u64,
    pub discovered_results: u64,
    pub unique_item_ids: u64,
    pub reported_total_results: Option<u64>,
    pub max_done_page: Option<u64>,
    pub last_done_results: Option<u64>,
}

impl View for CoverageShard {
    type V = ShardView;

    open spec fn view(&self) -> ShardView {
        ShardView {
            search_key: self.search_key@,
            params_json: self.params_json@,
            pages: self.pages,
            done_pages: self.done_pages,
            pending_pages: self.pending_pages,
            in_progress_pages: self.in_progress_pages,
            failed_pages: self.failed_pages,
            discovered_results: self.discovered_results,
            unique_item_ids: self.unique_item_ids,
            reported_total_results: self.reported_total_results,
            max_done_page: self.max_done_page,
            last_done_results: self.last_done_results,
        }
    }
}

impl Clone for CoverageShard {
    fn clone(&self) -> (result: Self)
        ensures
            result@ == self@,
    {
        CoverageShard {
            search_key: self.search_key.clone(),
            params_json: self.params_json.clone(),
            pages: self.pages,
            done_pages: self.done_pages,
            pending_pages: self.pending_pages,
            in_progress_pages: self.in_progress_pages,
            failed_pages: self.failed_pages,
            discovered_results: self.discovered_results,
            unique_item_ids: self.unique_item_ids,
            reported_total_results: self.reported_total_results,
            max_done_page: self.max_done_page,
            last_done_results: self.last_done_results,
        }
    }
}

/// The texts and numbers of a list of streams' coverage.
pub open spec fn shard_views(list: Seq<CoverageShard>) -> Seq<ShardView> {
    list.map_values(|s: CoverageShard| s@)
}

/// How many results are missing: what is reported less what was found, if anything is reported.
pub open spec fn missing(reported: Option<u64>, found: u64) -> Option<u64> {
    match reported {
        Some(total) => Some(
            if found < total {
                (total - found) as u64
            } else {
                0
            },
        ),
        None => None,
    }
}

/// Whether results are missing.
pub open spec fn gap(reported: Option<u64>, found: u64) -> bool {
    match reported {
        Some(total) => found < total,
        None => false,
    }
}

/// How many results are missing.
pub fn missing_between(reported: Option<u64>, found: u64) -> (result: Option<u64>)
    ensures
        result == missing(reported, found),
{
    match reported {
        Some(total) => {
            if found < total {
                Some(total - found)
            } else {
                Some(0)
            }
        },
        None => None,
    }
}

impl ShardView {
    /// Whether pages of the stream are still to be read, or failed.
    pub open spec fn unfinished(self) -> bool {
        self.pending_pages > 0 || self.in_progress_pages > 0 || self.failed_pages > 0
    }

    /// How many results of the stream are missing.
    pub open spec fn missing(self) -> Option<u64> {
        missing(self.reported_total_results, self.discovered_results)
    }

    /// Whether results of the stream are missing.
    pub open spec fn has_gap(self) -> bool {
        gap(self.reported_total_results, self.discovered_results)
    }

    /// Whether results are missing and as many were found as the site shows of any search.
    pub open spec fn window_limited(self, limit: u64) -> bool {
        self.has_gap() && self.discovered_results >= limit
    }
}

impl CoverageShard {
    /// Whether pages of the stream are still to be read, or failed.
    pub fn has_unfinished_pages(&self) -> (result: bool)
        ensures
            result == self@.unfinished(),
    {
        self.pending_pages > 0 || self.in_progress_pages > 0 || self.failed_pages > 0
    }

    /// How many results of the stream are missing, where the site reports a total.
    pub fn missing_results(&self) -> (result: Option<u64>)
        ensures
            result == self@.missing(),
    {
        missing_between(self.reported_total_results, self.discovered_results)
    }

    /// Whether results of the stream are missing.
    pub fn has_coverage_gap(&self) -> (result: bool)
        ensures
            result == self@.has_gap(),
    {
        match self.missing_results() {
            Some(count) => count > 0,
            None => false,
        }
    }

    /// Whether the last page that was read had no results, so that the stream is at its end.
    pub fn ended_on_empty_done_page(&self) -> (result: bool)
        ensures
            result == (self.last_done_results == Some(0u64)),
    {
        match self.last_done_results {
            Some(count) => count == 0,
            None => false,
        }
    }

    /// Whether results are missing and as many were found as the site shows of any search.
    pub fn looks_window_limited(&self, window_limit_results: u64) -> (result: bool)
        ensures
            result == self@.window_limited(window_limit_results),
    {
        self.has_coverage_gap() && self.discovered_results >= window_limit_results
    }
}

/// Whether a row is a page of a stream that was read.
pub open spec fn is_done(row: PageView, search_key: Seq<char>) -> bool {
    row.search_key == search_key && row.status == "done"@
}

/// Which pages of a stream are meant.
pub ghost enum DoneWith {
    /// All that were read.
    Any,
    /// Those that reported a total.
    Total,
    /// Those that reported a total and had results.
    TotalAndResults,
}

/// Whether a row is a page of a stream that was read and has what is asked for.
pub open spec fn done_with(row: PageView, search_key: Seq<char>, what: DoneWith) -> bool {
    is_done(row, search_key) && match what {
        DoneWith::Any => true,
        DoneWith::Total => row.total_results is Some,
        DoneWith::TotalAndResults => row.total_results is Some && row.result_count is Some
            && row.result_count.unwrap() > 0,
    }
}

/// The page of a stream with the greatest number among those that have what is asked for.
pub open spec fn latest(rows: Seq<PageView>, search_key: Seq<char>, what: DoneWith) -> Option<
    PageView,
>
    decreases rows.len(),
{
    if rows.len() == 0 {
        None
    } else {
        let before = latest(rows.drop_last(), search_key, what);
        if done_with(rows.last(), search_key, what) && (before is None || before.unwrap().page
            < rows.last().page) {
            Some(rows.last())
        } else {
            before
        }
    }
}

/// How many results the pages of a stream that were read had, up to the largest number that can be
/// held.
pub open spec fn discovered(rows: Seq<PageView>, search_key: Seq<char>) -> u64
    decreases rows.len(),
{
    if rows.len() == 0 {
        0
    } else {
        let before = discovered(rows.drop_last(), search_key);
        let row = rows.last();
        if is_done(row, search_key) && row.result_count is Some {
            if before + row.result_count.unwrap() <= u64::MAX {
                (before + row.result_count.unwrap()) as u64
            } else {
                u64::MAX
            }
        } else {
            before
        }
    }
}

/// The items that pages of some streams listed.
pub open spec fn listed_ids(members: Seq<MemberView>, keys: Seq<Seq<char>>) -> Set<Seq<char>> {
    Set::new(
        |id: Seq<char>|
            exists|i: int|
                0 <= i < members.len() && (#[trigger] members[i]).id == id && keys.contains(
                    members[i].search_key,
                ),
    )
}

/// The parameters of a stream, as its first row has them.
pub open spec fn stream_params(rows: Seq<PageView>, search_key: Seq<char>) -> Option<Seq<char>>
    decreases rows.len(),
{
    if rows.len() == 0 {
        None
    } else if rows[0].search_key == search_key {
        Some(rows[0].params_json)
    } else {
        stream_params(rows.drop_first(), search_key)
    }
}

/// How many pages of a stream are in a state.
pub open spec fn stream_pages(
    rows: Seq<PageView>,
    search_key: Seq<char>,
    status: Seq<char>,
) -> u64 {
    pages_counted(rows, PageSelectionView::StreamStatus { search_key, status }) as u64
}

/// The coverage of a stream that has pages.
pub open spec fn shard_of(state: StateView, search_key: Seq<char>) -> Option<ShardView> {
    match stream_params(state.pages, search_key) {
        None => None,
        Some(params_json) => Some(
            ShardView {
                search_key,
                params_json,
                pages: pages_counted(
                    state.pages,
                    PageSelectionView::Stream { search_key },
                ) as u64,
                done_pages: stream_pages(state.pages, search_key, "done"@),
                pending_pages: stream_pages(state.pages, search_key, "pending"@),
                in_progress_pages: stream_pages(state.pages, search_key, "in_progress"@),
                failed_pages: stream_pages(state.pages, search_key, "failed"@),
                discovered_results: discovered(state.pages, search_key),
                unique_item_ids: listed_ids(state.members, seq![search_key]).len() as u64,
                reported_total_results: match latest(
                    state.pages,
                    search_key,
                    DoneWith::TotalAndResults,
                ) {
                    Some(row) => row.total_results,
                    None => match latest(state.pages, search_key, DoneWith::Total) {
                        Some(row) => row.total_results,
                        None => None,
                    },
                },
                max_done_page: match latest(state.pages, search_key, DoneWith::Any) {
                    Some(row) => Some(row.page),
                    None => None,
                },
                last_done_results: match latest(state.pages, search_key, DoneWith::Any) {
                    Some(row) => row.result_count,
                    None => None,
                },
            },
        ),
    }
}

/// The keys of the streams that have pages, in order.
pub open spec fn stream_keys(rows: Seq<PageView>) -> Seq<Seq<char>> {
    sorted_texts(rows.map_values(|r: PageView| r.search_key))
}

/// The coverage of all streams that have pages, in the order of their keys.
pub open spec fn all_shards(state: StateView) -> Seq<ShardView> {
    stream_keys(state.pages).map_values(
        |key: Seq<char>| shard_of(state, key).unwrap(),
    )
}

/// A sorted list has as many texts as different ones.
pub proof fn lemma_sorted_len(list: Seq<Seq<char>>)
    requires
        strictly_sorted(list),
    ensures
        list.to_set().len() == list.len(),
{
    assert(list.no_duplicates()) by {
        assert forall|i: int, j: int| 0 <= i < list.len() && 0 <= j < list.len() && i
            != j implies list[i] != list[j] by {
            lemma_before_irreflexive(list[i]);
            if i < j {
                assert(text_before(list[i], list[j]));
            } else {
                assert(text_before(list[j], list[i]));
            }
        }
    }
    list.unique_seq_to_set();
}

fn find_latest(rows: &Vec<PageRow>, search_key: &str, total: bool, results: bool) -> (result: Option<
    usize,
>)
    requires
        results ==> total,
    ensures
        match result {
            Some(i) => i < rows@.len() && latest(
                page_views(rows@),
                search_key@,
                done_kind(total, results),
            ) == Some(rows@[i as int]@),
            None => latest(page_views(rows@), search_key@, done_kind(total, results)) is None,
        },
{
    let ghost all = page_views(rows@);
    let ghost what = done_kind(total, results);
    let mut best: Option<usize> = None;
    for i in 0..rows.len()
        invariant
            all == page_views(rows@),
            results ==> total,
            what == done_kind(total, results),
            match best {
                Some(b) => b < i && latest(all.take(i as int), search_key@, what) == Some(
                    all[b as int],
                ),
                None => latest(all.take(i as int), search_key@, what) is None,
            },
    {
        proof {
            lemma_take_next(all, i as int);
            assert(all.take(i + 1).drop_last() == all.take(i as int));
        }
        let row = &rows[i];
        let has_results = match row.result_count {
            Some(count) => count > 0,
            None => false,
        };
        if same(&row.status, "done") && same(&row.search_key, search_key) && (!total
            || row.total_results.is_some()) && (!results || has_results) {
            match best {
                Some(b) => {
                    if rows[b].page < row.page {
                        best = Some(i);
                    }
                },
                None => {
                    best = Some(i);
                },
            }
        }
    }
    assert(all.take(all.len() as int) == all);
    best
}

/// What is asked of a page that was read.
pub open spec fn done_kind(total: bool, results: bool) -> DoneWith {
    if results {
        DoneWith::TotalAndResults
    } else if total {
        DoneWith::Total
    } else {
        DoneWith::Any
    }
}

fn sum_discovered(rows: &Vec<PageRow>, search_key: &str) -> (result: u64)
    ensures
        result == discovered(page_views(rows@), search_key@),
{
    let ghost all = page_views(rows@);
    let mut sum: u64 = 0;
    for i in 0..rows.len()
        invariant
            all == page_views(rows@),
            sum == discovered(all.take(i as int), search_key@),
    {
        proof {
            lemma_take_next(all, i as int);
            assert(all.take(i + 1).drop_last() == all.take(i as int));
        }
        if same(&rows[i].status, "done") && same(&rows[i].search_key, search_key) {
            match rows[i].result_count {
                Some(count) => {
                    sum = sum.saturating_add(count);
                },
                None => {},
            }
        }
    }
    assert(all.take(all.len() as int) == all);
    sum
}

fn find_params(rows: &Vec<PageRow>, search_key: &str) -> (result: Option<String>)
    ensures
        match result {
            Some(text) => stream_params(page_views(rows@), search_key@) == Some(text@),
            None => stream_params(page_views(rows@), search_key@) is None,
        },
{
    let ghost all = page_views(rows@);
    assert(all.skip(0) == all);
    for i in 0..rows.len()
        invariant
            all == page_views(rows@),
            stream_params(all, search_key@) == stream_params(all.skip(i as int), search_key@),
    {
        assert(all.skip(i as int)[0] == all[i as int]);
        assert(all.skip(i as int).drop_first() == all.skip(i + 1));
        if same(&rows[i].search_key, search_key) {
            return Some(rows[i].params_json.clone());
        }
    }
    None
}

fn count_listed(members: &Vec<MemberRow>, keys: &Vec<String>) -> (result: usize)
    ensures
        result == listed_ids(member_views(members@), texts(keys@)).len(),
{
    let ghost all = member_views(members@);
    let mut ids: Vec<String> = Vec::new();
    assert(texts(ids@).to_set() =~= listed_ids(all.take(0), texts(keys@)));
    for i in 0..members.len()
        invariant
            all == member_views(members@),
            strictly_sorted(texts(ids@)),
            texts(ids@).to_set() == listed_ids(all.take(i as int), texts(keys@)),
    {
        let ghost next = listed_ids(all.take(i + 1), texts(keys@));
        proof {
            lemma_listed_next(all, i as int, texts(keys@));
        }
        if list_has(keys, &members[i].search_key) {
            insert_sorted(&mut ids, members[i].id.clone());
        }
    }
    proof {
        assert(all.take(all.len() as int) == all);
        lemma_sorted_len(texts(ids@));
    }
    ids.len()
}

proof fn lemma_listed_next(all: Seq<MemberView>, i: int, keys: Seq<Seq<char>>)
    requires
        0 <= i < all.len(),
    ensures
        listed_ids(all.take(i + 1), keys) == if keys.contains(all[i].search_key) {
            listed_ids(all.take(i), keys).insert(all[i].id)
        } else {
            listed_ids(all.take(i), keys)
        },
{
    let before = all.take(i);
    let after = all.take(i + 1);
    let target = if keys.contains(all[i].search_key) {
        listed_ids(before, keys).insert(all[i].id)
    } else {
        listed_ids(before, keys)
    };
    assert forall|id: Seq<char>|
        #[trigger] listed_ids(after, keys).contains(id) == target.contains(id) by {
        if listed_ids(before, keys).contains(id) {
            let k = choose|k: int|
                0 <= k < before.len() && (#[trigger] before[k]).id == id && keys.contains(
                    before[k].search_key,
                );
            assert(after[k] == before[k]);
        }
        if keys.contains(all[i].search_key) && id == all[i].id {
            assert(after[i].id == id);
        }
        if listed_ids(after, keys).contains(id) {
            let k = choose|k: int|
                0 <= k < after.len() && (#[trigger] after[k]).id == id && keys.contains(
                    after[k].search_key,
                );
            if k < i {
                assert(before[k] == after[k]);
            }
        }
    }
    assert(listed_ids(after, keys) =~= target);
}

impl CrawlState {
    fn count_stream(&self, search_key: &str, status: &str) -> (result: u64)
        ensures
            result == stream_pages(self@.pages, search_key@, status@),
    {
        let which = PageSelection::StreamStatus {
            search_key: search_key.to_owned(),
            status: status.to_owned(),
        };
        count_pages(&self.pages, &which) as u64
    }

    /// The coverage of a stream, where it has pages.
    pub fn coverage_shard(&self, search_key: &str) -> (result: Option<CoverageShard>)
        ensures
            match result {
                Some(shard) => shard_of(self@, search_key@) == Some(shard@),
                None => shard_of(self@, search_key@) is None,
            },
    {
        let params_json = match find_params(&self.pages, search_key) {
            Some(text) => text,
            None => return None,
        };
        let stream = PageSelection::Stream { search_key: search_key.to_owned() };
        let mut keys: Vec<String> = Vec::new();
        keys.push(search_key.to_owned());
        assert(texts(keys@) == seq![search_key@]);
        let last = find_latest(&self.pages, search_key, false, false);
        let reported: Option<u64> = match find_latest(&self.pages, search_key, true, true) {
            Some(i) => self.pages[i].total_results,
            None => match find_latest(&self.pages, search_key, true, false) {
                Some(i) => self.pages[i].total_results,
                None => None,
            },
        };
        Some(
            CoverageShard {
                search_key: search_key.to_owned(),
                params_json,
                pages: count_pages(&self.pages, &stream) as u64,
                done_pages: self.count_stream(search_key, "done"),
                pending_pages: self.count_stream(search_key, "pending"),
                in_progress_pages: self.count_stream(search_key, "in_progress"),
                failed_pages: self.count_stream(search_key, "failed"),
                discovered_results: sum_discovered(&self.pages, search_key),
                unique_item_ids: count_listed(&self.members, &keys) as u64,
                reported_total_results: reported,
                max_done_page: match last {
                    Some(i) => Some(self.pages[i].page),
                    None => None,
                },
                last_done_results: match last {
                    Some(i) => self.pages[i].result_count,
                    None => None,
                },
            },
        )
    }

    /// The coverage of all streams, in the order of their keys.
    pub fn coverage_report(&self) -> (result: Vec<CoverageShard>)
        ensures
            shard_views(result@) == all_shards(self@),
    {
        let ghost f = |r: PageView| r.search_key;
        let ghost all = self@.pages.map_values(f);
        let mut names: Vec<String> = Vec::new();
        for i in 0..self.pages.len()
            invariant
                f == (|r: PageView| r.search_key),
                all == self@.pages.map_values(f),
                texts(names@) == all.take(i as int),
        {
            names.push(self.pages[i].search_key.clone());
            proof {
                lemma_take_next(all, i as int);
            }
        }
        assert(all.take(all.len() as int) == all);
        let keys = sort_unique(&names);
        let ghost wanted = all_shards(self@);
        let mut out: Vec<CoverageShard> = Vec::new();
        for i in 0..keys.len()
            invariant
                f == (|r: PageView| r.search_key),
                all == self@.pages.map_values(f),
                texts(keys@) == stream_keys(self@.pages),
                texts(keys@).to_set() == all.to_set(),
                wanted == all_shards(self@),
                shard_views(out@) == wanted.take(i as int),
        {
            proof {
                let key = texts(keys@)[i as int];
                assert(texts(keys@).to_set().contains(key));
                assert(all.contains(key));
                lemma_stream_has_params(self@.pages, key);
                lemma_take_next(wanted, i as int);
            }
            match self.coverage_shard(&keys[i]) {
                Some(shard) => {
                    out.push(shard);
                },
                None => {},
            }
        }
        assert(wanted.take(wanted.len() as int) == wanted);
        out
    }

    /// How many different items pages of some streams listed.
    pub fn count_unique_search_items_for_keys(&self, keys: &Vec<String>) -> (result: u64)
        ensures
            result == listed_ids(self@.members, texts(keys@)).len(),
    {
        count_listed(&self.members, keys) as u64
    }
}

proof fn lemma_stream_has_params(rows: Seq<PageView>, key: Seq<char>)
    requires
        rows.map_values(|r: PageView| r.search_key).contains(key),
    ensures
        stream_params(rows, key) is Some,
    decreases rows.len(),
{
    let keys = rows.map_values(|r: PageView| r.search_key);
    let i = keys.index_of(key);
    assert(rows[i].search_key == key);
    if rows[0].search_key != key {
        let rest = rows.drop_first();
        assert(rest.map_values(|r: PageView| r.search_key)[i - 1] == key);
        lemma_stream_has_params(rest, key);
    }
}

/// What is missing makes up the reported total together with what was found, and is nothing where as
/// many were found; there is a gap just where something is missing.
pub proof fn law_missing(total: u64, found: u64)
    ensures
        missing(None, found) is None,
        !gap(None, found),
        missing(Some(total), found) matches Some(rest) && (found <= total ==> rest + found == total)
            && (found > total ==> rest == 0) && (gap(Some(total), found) <==> rest > 0),
{
}

/// A shard is unfinished while it has a page that is not done.
pub proof fn law_shard_state(shard: ShardView, limit: u64)
    ensures
        shard.unfinished() <==> shard.pending_pages + shard.in_progress_pages + shard.failed_pages
            > 0,
        shard.missing() is Some <==> shard.reported_total_results is Some,
        shard.has_gap() <==> (shard.reported_total_results matches Some(total)
            && shard.discovered_results < total),
        shard.window_limited(limit) <==> shard.has_gap() && limit <= shard.discovered_results,
{
}

/// The latest page that is done is the one with the greatest number.
pub proof fn law_latest(rows: Seq<PageView>, key: Seq<char>)
    ensures
        match latest(rows, key, DoneWith::Any) {
            Some(row) => rows.contains(row) && row.search_key == key && row.status == "done"@
                && forall|i: int|
                0 <= i < rows.len() && rows[i].search_key == key && rows[i].status == "done"@
                    ==> (#[trigger] rows[i]).page <= row.page,
            None => forall|i: int|
                0 <= i < rows.len() ==> (#[trigger] rows[i]).search_key != key || rows[i].status
                    != "done"@,
        },
        match latest(rows, key, DoneWith::Total) {
            Some(row) => rows.contains(row) && row.search_key == key && row.status == "done"@
                && row.total_results is Some && forall|i: int|
                0 <= i < rows.len() && rows[i].search_key == key && rows[i].status == "done"@
                    && rows[i].total_results is Some ==> (#[trigger] rows[i]).page <= row.page,
            None => forall|i: int|
                0 <= i < rows.len() ==> (#[trigger] rows[i]).search_key != key || rows[i].status
                    != "done"@ || rows[i].total_results is None,
        },
        match latest(rows, key, DoneWith::TotalAndResults) {
            Some(row) => rows.contains(row) && row.search_key == key && row.status == "done"@
                && row.total_results is Some && (row.result_count matches Some(n) && n > 0)
                && forall|i: int|
                0 <= i < rows.len() && rows[i].search_key == key && rows[i].status == "done"@
                    && rows[i].total_results is Some && (rows[i].result_count matches Some(n) && n
                    > 0) ==> (#[trigger] rows[i]).page <= row.page,
            None => forall|i: int|
                0 <= i < rows.len() ==> (#[trigger] rows[i]).search_key != key || rows[i].status
                    != "done"@ || rows[i].total_results is None || rows[i].result_count is None
                    || rows[i].result_count == Some(0u64),
        },
    decreases rows.len(),
{
    lemma_latest(rows, key, DoneWith::Any);
    lemma_latest(rows, key, DoneWith::Total);
    lemma_latest(rows, key, DoneWith::TotalAndResults);
}

proof fn lemma_latest(rows: Seq<PageView>, key: Seq<char>, what: DoneWith)
    ensures
        match latest(rows, key, what) {
            Some(row) => rows.contains(row) && done_with(row, key, what) && forall|i: int|
                0 <= i < rows.len() && done_with(#[trigger] rows[i], key, what) ==> rows[i].page
                    <= row.page,
            None => forall|i: int|
                0 <= i < rows.len() ==> !done_with(#[trigger] rows[i], key, what),
        },
    decreases rows.len(),
{
    if rows.len() > 0 {
        let rest = rows.drop_last();
        let n = rest.len() as int;
        lemma_latest(rest, key, what);
        assert(rows[n] == rows.last());
        assert forall|i: int| 0 <= i < n implies #[trigger] rows[i] == rest[i] by {}
        match latest(rest, key, what) {
            Some(row) => {
                let k = rest.index_of(row);
                assert(rows[k] == row);
            },
            None => {},
        }
    }
}

/// What a stream discovered is the sum of the results of its pages that are done.
pub proof fn law_discovered(rows: Seq<PageView>, row: PageView, key: Seq<char>)
    ensures
        discovered(Seq::empty(), key) == 0,
        row.search_key == key && row.status == "done"@ ==> (row.result_count matches Some(n) ==> (
        discovered(rows, key) + n <= u64::MAX ==> discovered(rows.push(row), key) == discovered(
            rows,
            key,
        ) + n) && (discovered(rows, key) + n > u64::MAX ==> discovered(rows.push(row), key)
            == u64::MAX)),
        row.search_key != key || row.status != "done"@ || row.result_count is None ==> discovered(
            rows.push(row),
            key,
        ) == discovered(rows, key),
{
    assert(rows.push(row).drop_last() =~= rows);
}

/// The parameters of a stream are those of its first page.
pub proof fn law_stream_params(rows: Seq<PageView>, key: Seq<char>)
    ensures
        match stream_params(rows, key) {
            Some(params) => exists|i: int|
                #![trigger rows[i]]
                0 <= i < rows.len() && rows[i].search_key == key && rows[i].params_json == params
                    && forall|j: int| 0 <= j < i ==> (#[trigger] rows[j]).search_key != key,
            None => forall|i: int| 0 <= i < rows.len() ==> (#[trigger] rows[i]).search_key != key,
        },
    decreases rows.len(),
{
    if rows.len() > 0 && rows[0].search_key != key {
        let rest = rows.drop_first();
        law_stream_params(rest, key);
        match stream_params(rest, key) {
            Some(params) => {
                let i = choose|i: int|
                    #![trigger rest[i]]
                    0 <= i < rest.len() && rest[i].search_key == key && rest[i].params_json
                        == params && forall|j: int|
                        0 <= j < i ==> (#[trigger] rest[j]).search_key != key;
                assert(rows[i + 1] == rest[i]);
                assert forall|j: int| 0 <= j < i + 1 implies (#[trigger] rows[j]).search_key
                    != key by {
                    if j > 0 {
                        assert(rest[j - 1] == rows[j]);
                    }
                }
            },
            None => {
                assert forall|i: int| 0 <= i < rows.len() implies (#[trigger] rows[i]).search_key
                    != key by {
                    if i > 0 {
                        assert(rest[i - 1] == rows[i]);
                    }
                }
            },
        }
    } else if rows.len() > 0 {
        assert(rows[0].search_key == key);
    }
}

/// One more page counts for its own stream alone, once among its pages and once under its status.
pub proof fn law_shard_counts_pages(state: StateView, page: PageView, key: Seq<char>)
    requires
        state.pages.len() < u64::MAX,
        shard_of(state, key) is Some,
    ensures
        ({
            let more = StateView { pages: state.pages.push(page), ..state };
            let before = shard_of(state, key)->Some_0;
            let mine = page.search_key == key;
            shard_of(more, key) matches Some(after) && {
                &&& after.search_key == key
                &&& after.params_json == before.params_json
                &&& after.unique_item_ids == before.unique_item_ids
                &&& after.pages == before.pages + (if mine {
                    1int
                } else {
                    0
                })
                &&& after.done_pages == before.done_pages + (if mine && page.status == "done"@ {
                    1int
                } else {
                    0
                })
                &&& after.pending_pages == before.pending_pages + (if mine && page.status
                    == "pending"@ {
                    1int
                } else {
                    0
                })
                &&& after.in_progress_pages == before.in_progress_pages + (if mine && page.status
                    == "in_progress"@ {
                    1int
                } else {
                    0
                })
                &&& after.failed_pages == before.failed_pages + (if mine && page.status
                    == "failed"@ {
                    1int
                } else {
                    0
                })
            }
        }),
{
    let rows = state.pages;
    let more = rows.push(page);
    lemma_params_stay(rows, page, key);
    lemma_pages_counted_next(rows, page, PageSelectionView::Stream { search_key: key });
    lemma_pages_counted_next(
        rows,
        page,
        PageSelectionView::StreamStatus { search_key: key, status: "done"@ },
    );
    lemma_pages_counted_next(
        rows,
        page,
        PageSelectionView::StreamStatus { search_key: key, status: "pending"@ },
    );
    lemma_pages_counted_next(
        rows,
        page,
        PageSelectionView::StreamStatus { search_key: key, status: "in_progress"@ },
    );
    lemma_pages_counted_next(
        rows,
        page,
        PageSelectionView::StreamStatus { search_key: key, status: "failed"@ },
    );
}

proof fn lemma_params_stay(rows: Seq<PageView>, page: PageView, key: Seq<char>)
    requires
        stream_params(rows, key) is Some,
    ensures
        stream_params(rows.push(page), key) == stream_params(rows, key),
    decreases rows.len(),
{
    assert(rows.push(page)[0] == rows[0]);
    if rows[0].search_key != key {
        lemma_params_stay(rows.drop_first(), page, key);
        assert(rows.push(page).drop_first() =~= rows.drop_first().push(page));
    }
}

proof fn lemma_pages_counted_next(rows: Seq<PageView>, page: PageView, which: PageSelectionView)
    ensures
        pages_counted(rows, which) <= rows.len(),
        page_selected(page, which) ==> pages_counted(rows.push(page), which) == pages_counted(
            rows,
            which,
        ) + 1,
        !page_selected(page, which) ==> pages_counted(rows.push(page), which) == pages_counted(
            rows,
            which,
        ),
{
    law_count_where(rows, page, |r: PageView| page_selected(r, which));
    lemma_count_bound(rows, |r: PageView| page_selected(r, which));
}

/// The total of a stream is the one reported by its latest page that had results, or else by its
/// latest page with a total; its last page and the results there are those of its latest page.
pub proof fn law_shard_totals(state: StateView, key: Seq<char>)
    requires
        shard_of(state, key) is Some,
    ensures
        ({
            let shard = shard_of(state, key)->Some_0;
            &&& latest(state.pages, key, DoneWith::TotalAndResults) matches Some(row)
                ==> shard.reported_total_results == row.total_results
            &&& latest(state.pages, key, DoneWith::TotalAndResults) is None ==> (latest(
                state.pages,
                key,
                DoneWith::Total,
            ) matches Some(row) ==> shard.reported_total_results == row.total_results)
            &&& shard.reported_total_results is None <==> latest(
                state.pages,
                key,
                DoneWith::Total,
            ) is None
            &&& latest(state.pages, key, DoneWith::Any) matches Some(row) ==> shard.max_done_page
                == Some(row.page) && shard.last_done_results == row.result_count
            &&& latest(state.pages, key, DoneWith::Any) is None ==> shard.max_done_page is None
                && shard.last_done_results is None
            &&& shard.discovered_results == discovered(state.pages, key)
        }),
{
    law_latest(state.pages, key);
    match latest(state.pages, key, DoneWith::TotalAndResults) {
        Some(row) => {
            let k = state.pages.index_of(row);
            assert(state.pages[k] == row);
        },
        None => {},
    }
}

/// An item is counted once among the given streams, however many of them list it.
pub proof fn law_listed_ids(members: Seq<MemberView>, member: MemberView, keys: Seq<Seq<char>>)
    ensures
        listed_ids(Seq::empty(), keys).len() == 0,
        listed_ids(members, keys).finite(),
        !keys.contains(member.search_key) || listed_ids(members, keys).contains(member.id)
            ==> listed_ids(members.push(member), keys).len() == listed_ids(members, keys).len(),
        keys.contains(member.search_key) && !listed_ids(members, keys).contains(member.id)
            ==> listed_ids(members.push(member), keys).len() == listed_ids(members, keys).len() + 1,
        keys.contains(member.search_key) ==> listed_ids(members.push(member), keys).contains(
            member.id,
        ),
    decreases members.len(),
{
    assert(listed_ids(Seq::empty(), keys) =~= Set::empty());
    if members.len() > 0 {
        law_listed_ids(members.drop_last(), members.last(), keys);
        assert(members.drop_last().push(members.last()) =~= members);
        lemma_one_more_listed(members.drop_last(), members.last(), keys);
    } else {
        assert(members =~= Seq::empty());
    }
    lemma_one_more_listed(members, member, keys);
    let before = listed_ids(members, keys);
    if before.contains(member.id) {
        assert(before.insert(member.id) =~= before);
    }
}

proof fn lemma_one_more_listed(
    members: Seq<MemberView>,
    member: MemberView,
    keys: Seq<Seq<char>>,
)
    ensures
        keys.contains(member.search_key) ==> listed_ids(members.push(member), keys) == listed_ids(
            members,
            keys,
        ).insert(member.id),
        !keys.contains(member.search_key) ==> listed_ids(members.push(member), keys) == listed_ids(
            members,
            keys,
        ),
{
    let all = members.push(member);
    assert(all.take(members.len() as int) =~= members);
    assert(all.take(members.len() as int + 1) =~= all);
    lemma_listed_next(all, members.len() as int, keys);
}

/// There is one shard for each stream that has a page, in the order of their keys.
pub proof fn law_every_stream_has_a_shard(state: StateView)
    ensures
        forall|i: int|
            0 <= i < all_shards(state).len() ==> shard_of(
                state,
                (#[trigger] all_shards(state)[i]).search_key,
            ) == Some(all_shards(state)[i]),
        forall|i: int|
            0 <= i < state.pages.len() ==> exists|k: int|
                0 <= k < all_shards(state).len() && (#[trigger] all_shards(state)[k]).search_key == (
                #[trigger] state.pages[i]).search_key,
        forall|i: int, j: int|
            0 <= i < j < all_shards(state).len() ==> text_before(
                (#[trigger] all_shards(state)[i]).search_key,
                (#[trigger] all_shards(state)[j]).search_key,
            ),
{
    let rows = state.pages;
    let all = rows.map_values(|r: PageView| r.search_key);
    let keys = stream_keys(rows);
    law_sorting_keeps_the_texts(all);
    assert forall|i: int| 0 <= i < keys.len() implies shard_of(state, #[trigger] keys[i])
        == Some(all_shards(state)[i]) && all_shards(state)[i].search_key == keys[i] by {
        assert(keys.to_set().contains(keys[i]));
        assert(all.contains(keys[i]));
        law_stream_params(rows, keys[i]);
        let k = all.index_of(keys[i]);
        assert(rows[k].search_key == keys[i]);
    }
    assert forall|i: int| 0 <= i < rows.len() implies exists|k: int|
        0 <= k < all_shards(state).len() && (#[trigger] all_shards(state)[k]).search_key == (
        #[trigger] rows[i]).search_key by {
        assert(all[i] == rows[i].search_key);
        assert(all.to_set().contains(all[i]));
        let k = keys.index_of(all[i]);
        assert(keys[k] == all[i]);
        assert(all_shards(state)[k].search_key == rows[i].search_key);
    }
    assert forall|i: int, j: int| 0 <= i < j < all_shards(state).len() implies text_before(
        (#[trigger] all_shards(state)[i]).search_key,
        (#[trigger] all_shards(state)[j]).search_key,
    ) by {
        assert(all_shards(state)[i].search_key == keys[i]);
        assert(all_shards(state)[j].search_key == keys[j]);
    }
}

} // verus!
