use crate::items::{is_known_status, known_status, one_less, one_more};
use crate::numerals::{decimal, decimal_text};
use crate::text::{copy_option, option_is, same};
use crate::views::{count_where, group_texts, lemma_count_next, opt_text};
use vstd::prelude::*;

verus! {

broadcast use group_texts;

/// A search page that waits to be read.
#[derive(Debug)]
pub struct SearchPage {
    pub search_key: String,
    pub page: u64,
}

/// A page of a search stream and how far the crawl has got with it.
#[derive(Debug)]
pub struct PageRow {
    pub search_key: String,
    pub page: u64,
    pub params_json: String,
    pub status: String,
    pub attempts: u32,
    pub result_count: Option<u64>,
    pub total_results: Option<u64>,
    pub last_error: Option<String>,
    pub updated_at: i64,
}

/// The texts of a page row.
#[verifier::ext_equal]
pub ghost struct PageView {
    pub search_key: Seq<char>,
    pub page: u64,
    pub params_json: Seq<char>,
    pub status: Seq<char>,
    pub attempts: u32,
    pub result_count: Option<u64>,
    pub total_results: Option<u64>,
    pub last_error: Option<Seq<char>>,
    pub updated_at: i64,
}

impl View for PageRow {
    type V = PageView;

    open spec fn view(&self) -> PageView {
        PageView {
            search_key: self.search_key@,
            page: self.page,
            params_json: self.params_json@,
            status: self.status@,
            attempts: self.attempts,
            result_count: self.result_count,
            total_results: self.total_results,
            last_error: opt_text(self.last_error),
            updated_at: self.updated_at,
        }
    }
}

impl Clone for PageRow {
    fn clone(&self) -> (result: Self)
        ensures
            result@ == self@,
    {
        PageRow {
            search_key: self.search_key.clone(),
            page: self.page,
            params_json: self.params_json.clone(),
            status: self.status.clone(),
            attempts: self.attempts,
            result_count: self.result_count,
            total_results: self.total_results,
            last_error: copy_option(&self.last_error),
            updated_at: self.updated_at,
        }
    }
}

/// The texts of a page table.
pub open spec fn page_views(rows: Seq<PageRow>) -> Seq<PageView> {
    rows.map_values(|r: PageRow| r@)
}

/// What can happen to a search page.
#[derive(Debug)]
pub enum PageEvent {
    /// Discovery takes it up.
    Start,
    /// It was read, with so many results and the total that it reports.
    Complete { result_count: u64, total_results: Option<u64> },
    /// It cannot be read.
    Fail { error: String },
    /// It could not be read this time, which is not held against it.
    Defer { error: String },
    /// The crawl that had taken it up was interrupted.
    Reset,
    /// It is given a new start after a failure.
    Retry,
}

/// What can happen to a search page, with its texts.
pub ghost enum PageEventView {
    Start,
    Complete { result_count: u64, total_results: Option<u64> },
    Fail { error: Seq<char> },
    Defer { error: Seq<char> },
    Reset,
    Retry,
}

impl View for PageEvent {
    type V = PageEventView;

    open spec fn view(&self) -> PageEventView {
        match self {
            PageEvent::Start => PageEventView::Start,
            PageEvent::Complete { result_count, total_results } => PageEventView::Complete {
                result_count: *result_count,
                total_results: *total_results,
            },
            PageEvent::Fail { error } => PageEventView::Fail { error: error@ },
            PageEvent::Defer { error } => PageEventView::Defer { error: error@ },
            PageEvent::Reset => PageEventView::Reset,
            PageEvent::Retry => PageEventView::Retry,
        }
    }
}

/// A page row after an event.
pub open spec fn page_after(row: PageView, event: PageEventView, now: i64) -> PageView {
    match event {
        PageEventView::Start => PageView {
            status: "in_progress"@,
            attempts: one_more(row.attempts),
            last_error: None,
            updated_at: now,
            ..row
        },
        PageEventView::Complete { result_count, total_results } => PageView {
            status: "done"@,
            result_count: Some(result_count),
            total_results,
            last_error: None,
            updated_at: now,
            ..row
        },
        PageEventView::Fail { error } => PageView {
            status: "failed"@,
            last_error: Some(error),
            updated_at: now,
            ..row
        },
        PageEventView::Defer { error } => PageView {
            status: "pending"@,
            attempts: one_less(row.attempts),
            last_error: Some(error),
            updated_at: now,
            ..row
        },
        PageEventView::Reset => PageView { status: "pending"@, updated_at: now, ..row },
        PageEventView::Retry => PageView {
            status: "pending"@,
            attempts: 0,
            last_error: None,
            updated_at: now,
            ..row
        },
    }
}

impl PageRow {
    /// Lets an event happen to the page.
    pub fn apply(&mut self, event: &PageEvent, now: i64)
        ensures
            final(self)@ == page_after(old(self)@, event@, now),
    {
        self.updated_at = now;
        match event {
            PageEvent::Start => {
                self.status = "in_progress".to_owned();
                if self.attempts < u32::MAX {
                    self.attempts = self.attempts + 1;
                }
                self.last_error = None;
            },
            PageEvent::Complete { result_count, total_results } => {
                self.status = "done".to_owned();
                self.result_count = Some(*result_count);
                self.total_results = *total_results;
                self.last_error = None;
            },
            PageEvent::Fail { error } => {
                self.status = "failed".to_owned();
                self.last_error = Some(error.clone());
            },
            PageEvent::Defer { error } => {
                self.status = "pending".to_owned();
                if self.attempts > 0 {
                    self.attempts = self.attempts - 1;
                }
                self.last_error = Some(error.clone());
            },
            PageEvent::Reset => {
                self.status = "pending".to_owned();
            },
            PageEvent::Retry => {
                self.status = "pending".to_owned();
                self.attempts = 0;
                self.last_error = None;
            },
        }
    }
}

/// The message on a search page that was answered with an HTTP status other than success.
pub open spec fn page_error(status: u16) -> Seq<char> {
    "search page HTTP "@ + decimal(status as nat)
}

/// The message on a search page that was answered with an HTTP status other than success.
pub fn search_page_error(status: u16) -> (result: String)
    ensures
        result@ == page_error(status),
{
    let mut out: String = "search page HTTP ".to_owned();
    let number = decimal_text(status as u64);
    out.append(&number);
    out
}

/// Which search pages are meant.
#[derive(Debug)]
pub enum PageSelection {
    /// This page of this stream.
    Key { search_key: String, page: u64 },
    /// Those in this state.
    Status { status: String },
    /// Those in none of the five known states.
    OtherStatus,
    /// The failed ones, or only those that failed with this HTTP status.
    Failed { http_status: Option<u16> },
    /// The failed ones with attempts left.
    Retryable { max_attempts: u32 },
    /// The failed ones without attempts left.
    Exhausted { max_attempts: u32 },
    /// The pending and failed ones of a stream with attempts left.
    Waiting { search_key: String, max_attempts: u32 },
    /// Those of a stream.
    Stream { search_key: String },
    /// Those of a stream in this state.
    StreamStatus { search_key: String, status: String },
}

/// Which search pages are meant, with the texts.
pub ghost enum PageSelectionView {
    Key { search_key: Seq<char>, page: u64 },
    Status { status: Seq<char> },
    OtherStatus,
    Failed { http_status: Option<u16> },
    Retryable { max_attempts: u32 },
    Exhausted { max_attempts: u32 },
    Waiting { search_key: Seq<char>, max_attempts: u32 },
    Stream { search_key: Seq<char> },
    StreamStatus { search_key: Seq<char>, status: Seq<char> },
}

impl View for PageSelection {
    type V = PageSelectionView;

    open spec fn view(&self) -> PageSelectionView {
        match self {
            PageSelection::Key { search_key, page } => PageSelectionView::Key {
                search_key: search_key@,
                page: *page,
            },
            PageSelection::Status { status } => PageSelectionView::Status { status: status@ },
            PageSelection::OtherStatus => PageSelectionView::OtherStatus,
            PageSelection::Failed { http_status } => PageSelectionView::Failed {
                http_status: *http_status,
            },
            PageSelection::Retryable { max_attempts } => PageSelectionView::Retryable {
                max_attempts: *max_attempts,
            },
            PageSelection::Exhausted { max_attempts } => PageSelectionView::Exhausted {
                max_attempts: *max_attempts,
            },
            PageSelection::Waiting { search_key, max_attempts } => PageSelectionView::Waiting {
                search_key: search_key@,
                max_attempts: *max_attempts,
            },
            PageSelection::Stream { search_key } => PageSelectionView::Stream {
                search_key: search_key@,
            },
            PageSelection::StreamStatus { search_key, status } => PageSelectionView::StreamStatus {
                search_key: search_key@,
                status: status@,
            },
        }
    }
}

/// Whether a row is among those meant.
pub open spec fn page_selected(row: PageView, which: PageSelectionView) -> bool {
    match which {
        PageSelectionView::Key { search_key, page } => row.search_key == search_key && row.page
            == page,
        PageSelectionView::Status { status } => row.status == status,
        PageSelectionView::OtherStatus => !known_status(row.status),
        PageSelectionView::Failed { http_status } => row.status == "failed"@ && match http_status {
            Some(status) => row.last_error == Some(page_error(status)),
            None => true,
        },
        PageSelectionView::Retryable { max_attempts } => row.status == "failed"@ && row.attempts
            < max_attempts,
        PageSelectionView::Exhausted { max_attempts } => row.status == "failed"@ && row.attempts
            >= max_attempts,
        PageSelectionView::Waiting { search_key, max_attempts } => row.search_key == search_key && (
        row.status == "pending"@ || row.status == "failed"@) && row.attempts < max_attempts,
        PageSelectionView::Stream { search_key } => row.search_key == search_key,
        PageSelectionView::StreamStatus { search_key, status } => row.search_key == search_key
            && row.status == status,
    }
}

impl PageSelection {
    /// Whether a row is among those meant.
    pub fn selects(&self, row: &PageRow) -> (result: bool)
        ensures
            result == page_selected(row@, self@),
    {
        match self {
            PageSelection::Key { search_key, page } => same(&row.search_key, search_key) && row.page
                == *page,
            PageSelection::Status { status } => same(&row.status, status),
            PageSelection::OtherStatus => !is_known_status(&row.status),
            PageSelection::Failed { http_status } => {
                if !same(&row.status, "failed") {
                    return false;
                }
                match http_status {
                    Some(status) => {
                        let message = search_page_error(*status);
                        option_is(&row.last_error, &message)
                    },
                    None => true,
                }
            },
            PageSelection::Retryable { max_attempts } => same(&row.status, "failed") && row.attempts
                < *max_attempts,
            PageSelection::Exhausted { max_attempts } => same(&row.status, "failed") && row.attempts
                >= *max_attempts,
            PageSelection::Waiting { search_key, max_attempts } => same(
                &row.search_key,
                search_key,
            ) && (same(&row.status, "pending") || same(&row.status, "failed")) && row.attempts
                < *max_attempts,
            PageSelection::Stream { search_key } => same(&row.search_key, search_key),
            PageSelection::StreamStatus { search_key, status } => same(
                &row.search_key,
                search_key,
            ) && same(&row.status, status),
        }
    }
}

/// How many search pages are meant.
pub open spec fn pages_counted(rows: Seq<PageView>, which: PageSelectionView) -> nat {
    count_where(rows, |r: PageView| page_selected(r, which))
}

/// The table after an event has happened to the pages that are meant.
pub open spec fn pages_after(
    rows: Seq<PageView>,
    which: PageSelectionView,
    event: PageEventView,
    now: i64,
) -> Seq<PageView> {
    rows.map_values(
        |r: PageView|
            if page_selected(r, which) {
                page_after(r, event, now)
            } else {
                r
            },
    )
}

/// How many search pages are meant.
pub fn count_pages(rows: &Vec<PageRow>, which: &PageSelection) -> (result: usize)
    ensures
        result == pages_counted(page_views(rows@), which@),
{
    let ghost all = page_views(rows@);
    let ghost p = |r: PageView| page_selected(r, which@);
    let mut count: usize = 0;
    for i in 0..rows.len()
        invariant
            all == page_views(rows@),
            p == (|r: PageView| page_selected(r, which@)),
            count <= i,
            count == count_where(all.take(i as int), p),
    {
        proof {
            lemma_count_next(all, p, i as int);
        }
        if which.selects(&rows[i]) {
            count = count + 1;
        }
    }
    assert(all.take(all.len() as int) == all);
    count
}

/// Lets an event happen to the pages that are meant; says how many they are.
pub fn update_pages(
    rows: &mut Vec<PageRow>,
    which: &PageSelection,
    event: &PageEvent,
    now: i64,
) -> (changed: usize)
    ensures
        page_views(final(rows)@) == pages_after(page_views(old(rows)@), which@, event@, now),
        changed == pages_counted(page_views(old(rows)@), which@),
{
    let ghost all = page_views(rows@);
    let ghost p = |r: PageView| page_selected(r, which@);
    let ghost target = pages_after(all, which@, event@, now);
    let count: usize = rows.len();
    let mut changed: usize = 0;
    for i in 0..count
        invariant
            count == rows@.len() == all.len(),
            all == page_views(old(rows)@),
            target == pages_after(all, which@, event@, now),
            p == (|r: PageView| page_selected(r, which@)),
            forall|k: int| 0 <= k < i ==> (#[trigger] rows@[k])@ == target[k],
            forall|k: int| i <= k < count ==> (#[trigger] rows@[k])@ == all[k],
            changed <= i,
            changed == count_where(all.take(i as int), p),
    {
        proof {
            lemma_count_next(all, p, i as int);
        }
        if which.selects(&rows[i]) {
            let mut row = rows[i].clone();
            row.apply(event, now);
            rows.set(i, row);
            changed = changed + 1;
        }
    }
    assert(page_views(rows@) == target);
    assert(all.take(all.len() as int) == all);
    changed
}

/// Whether a table has a page of a stream.
pub open spec fn has_page(rows: Seq<PageView>, search_key: Seq<char>, page: u64) -> bool {
    exists|i: int|
        0 <= i < rows.len() && (#[trigger] rows[i]).search_key == search_key && rows[i].page == page
}

/// A new page of a stream.
pub open spec fn new_page(
    search_key: Seq<char>,
    page: u64,
    params_json: Seq<char>,
    now: i64,
) -> PageView {
    PageView {
        search_key,
        page,
        params_json,
        status: "pending"@,
        attempts: 0,
        result_count: None,
        total_results: None,
        last_error: None,
        updated_at: now,
    }
}

/// The table with one page added, unless it has it.
pub open spec fn with_page(rows: Seq<PageView>, page: PageView) -> Seq<PageView> {
    if has_page(rows, page.search_key, page.page) {
        rows
    } else {
        rows.push(page)
    }
}

/// Adds a page of a stream, unless the table has it; says whether it was added.
pub fn insert_page(
    rows: &mut Vec<PageRow>,
    search_key: &str,
    page: u64,
    params_json: &str,
    now: i64,
) -> (added: bool)
    ensures
        page_views(final(rows)@) == with_page(
            page_views(old(rows)@),
            new_page(search_key@, page, params_json@, now),
        ),
        added == !has_page(page_views(old(rows)@), search_key@, page),
{
    let ghost all = page_views(rows@);
    let count: usize = rows.len();
    for i in 0..count
        invariant
            count == rows@.len(),
            *rows == *old(rows),
            all == page_views(rows@),
            forall|k: int|
                0 <= k < i ==> (#[trigger] all[k]).search_key != search_key@ || all[k].page != page,
    {
        if rows[i].page == page && same(&rows[i].search_key, search_key) {
            assert(all[i as int].search_key == search_key@);
            return false;
        }
    }
    rows.push(
        PageRow {
            search_key: search_key.to_owned(),
            page,
            params_json: params_json.to_owned(),
            status: "pending".to_owned(),
            attempts: 0,
            result_count: None,
            total_results: None,
            last_error: None,
            updated_at: now,
        },
    );
    true
}

/// Whether the row at `i` is the next page of a stream to read.
pub open spec fn is_next_page(
    rows: Seq<PageView>,
    i: int,
    search_key: Seq<char>,
    max_attempts: u32,
) -> bool {
    &&& 0 <= i < rows.len()
    &&& page_selected(rows[i], PageSelectionView::Waiting { search_key, max_attempts })
    &&& forall|k: int|
        0 <= k < rows.len() && page_selected(
            #[trigger] rows[k],
            PageSelectionView::Waiting { search_key, max_attempts },
        ) ==> rows[i].page <= rows[k].page
}

/// The position of the next page of a stream to read.
pub fn find_next_page(rows: &Vec<PageRow>, search_key: &str, max_attempts: u32) -> (result: Option<
    usize,
>)
    ensures
        match result {
            Some(i) => is_next_page(page_views(rows@), i as int, search_key@, max_attempts),
            None => pages_counted(
                page_views(rows@),
                PageSelectionView::Waiting { search_key: search_key@, max_attempts },
            ) == 0,
        },
{
    let ghost all = page_views(rows@);
    let which = PageSelection::Waiting { search_key: search_key.to_owned(), max_attempts };
    let ghost p = |r: PageView| page_selected(r, which@);
    let mut best: Option<usize> = None;
    for i in 0..rows.len()
        invariant
            all == page_views(rows@),
            which@ == (PageSelectionView::Waiting { search_key: search_key@, max_attempts }),
            p == (|r: PageView| page_selected(r, which@)),
            match best {
                Some(b) => b < i && page_selected(all[b as int], which@) && forall|k: int|
                    0 <= k < i && page_selected(#[trigger] all[k], which@) ==> all[b as int].page
                        <= all[k].page,
                None => count_where(all.take(i as int), p) == 0,
            },
            best is None ==> forall|k: int|
                0 <= k < i ==> !page_selected(#[trigger] all[k], which@),
    {
        proof {
            lemma_count_next(all, p, i as int);
        }
        if which.selects(&rows[i]) {
            match best {
                Some(b) => {
                    if rows[i].page < rows[b].page {
                        best = Some(i);
                    }
                },
                None => {
                    best = Some(i);
                },
            }
        }
    }
    assert(all.take(all.len() as int) == all);
    best
}

} // verus!
