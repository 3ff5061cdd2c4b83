use crate::order::{
    comes_before, lemma_before_irreflexive, lemma_before_transitive, text_before,
};
use crate::text::{copy_option, same};
use crate::views::{count_where, group_texts, lemma_count_next, opt_text};
use vstd::prelude::*;

verus! {

broadcast use group_texts;

/// An item that waits to be fetched.
#[derive(Debug)]
pub struct CrawlItem {
    pub id: String,
}

/// A catalogue item and how far the crawl has got with it.
#[derive(Debug)]
pub struct ItemRow {
    pub id: String,
    pub first_seen_search_key: Option<String>,
    pub first_seen_page: Option<u64>,
    pub status: String,
    pub attempts: u32,
    pub last_error: Option<String>,
    pub last_http_status: Option<u16>,
    pub updated_at: i64,
}

/// The texts of an item row.
#[verifier::ext_equal]
pub ghost struct ItemView {
    pub id: Seq<char>,
    pub first_seen_search_key: Option<Seq<char>>,
    pub first_seen_page: Option<u64>,
    pub status: Seq<char>,
    pub attempts: u32,
    pub last_error: Option<Seq<char>>,
    pub last_http_status: Option<u16>,
    pub updated_at: i64,
}

impl View for ItemRow {
    type V = ItemView;

    open spec fn view(&self) -> ItemView {
        ItemView {
            id: self.id@,
            first_seen_search_key: opt_text(self.first_seen_search_key),
            first_seen_page: self.first_seen_page,
            status: self.status@,
            attempts: self.attempts,
            last_error: opt_text(self.last_error),
            last_http_status: self.last_http_status,
            updated_at: self.updated_at,
        }
    }
}

impl Clone for ItemRow {
    fn clone(&self) -> (result: Self)
        ensures
            result@ == self@,
    {
        ItemRow {
            id: self.id.clone(),
            first_seen_search_key: copy_option(&self.first_seen_search_key),
            first_seen_page: self.first_seen_page,
            status: self.status.clone(),
            attempts: self.attempts,
            last_error: copy_option(&self.last_error),
            last_http_status: self.last_http_status,
            updated_at: self.updated_at,
        }
    }
}

/// The texts of an item table.
pub open spec fn item_views(rows: Seq<ItemRow>) -> Seq<ItemView> {
    rows.map_values(|r: ItemRow| r@)
}

/// What can happen to an item.
#[derive(Debug)]
pub enum ItemEvent {
    /// A worker takes it up.
    Start,
    /// Its record is saved.
    Save,
    /// It cannot be fetched.
    Fail { error: String, http_status: Option<u16> },
    /// It could not be fetched this time, which is not held against it.
    Defer { error: String, http_status: Option<u16> },
    /// The site does not have it.
    Miss { error: String, http_status: Option<u16> },
    /// The crawl that had taken it up was interrupted.
    Reset,
    /// It is given a new start after a failure.
    Retry,
}

/// What can happen to an item, with its texts.
pub ghost enum ItemEventView {
    Start,
    Save,
    Fail { error: Seq<char>, http_status: Option<u16> },
    Defer { error: Seq<char>, http_status: Option<u16> },
    Miss { error: Seq<char>, http_status: Option<u16> },
    Reset,
    Retry,
}

impl View for ItemEvent {
    type V = ItemEventView;

    open spec fn view(&self) -> ItemEventView {
        match self {
            ItemEvent::Start => ItemEventView::Start,
            ItemEvent::Save => ItemEventView::Save,
            ItemEvent::Fail { error, http_status } => ItemEventView::Fail {
                error: error@,
                http_status: *http_status,
            },
            ItemEvent::Defer { error, http_status } => ItemEventView::Defer {
                error: error@,
                http_status: *http_status,
            },
            ItemEvent::Miss { error, http_status } => ItemEventView::Miss {
                error: error@,
                http_status: *http_status,
            },
            ItemEvent::Reset => ItemEventView::Reset,
            ItemEvent::Retry => ItemEventView::Retry,
        }
    }
}

/// One attempt more, up to the largest number that a row can hold.
pub open spec fn one_more(attempts: u32) -> u32 {
    if attempts < u32::MAX {
        (attempts + 1) as u32
    } else {
        attempts
    }
}

/// One attempt less, down to none.
pub open spec fn one_less(attempts: u32) -> u32 {
    if attempts > 0 {
        (attempts - 1) as u32
    } else {
        attempts
    }
}

/// An item row after an event.
pub open spec fn item_after(row: ItemView, event: ItemEventView, now: i64) -> ItemView {
    match event {
        ItemEventView::Start => ItemView {
            status: "in_progress"@,
            attempts: one_more(row.attempts),
            last_error: None,
            last_http_status: None,
            updated_at: now,
            ..row
        },
        ItemEventView::Save => ItemView {
            status: "done"@,
            last_error: None,
            last_http_status: None,
            updated_at: now,
            ..row
        },
        ItemEventView::Fail { error, http_status } => ItemView {
            status: "failed"@,
            last_error: Some(error),
            last_http_status: http_status,
            updated_at: now,
            ..row
        },
        ItemEventView::Defer { error, http_status } => ItemView {
            status: "pending"@,
            attempts: one_less(row.attempts),
            last_error: Some(error),
            last_http_status: http_status,
            updated_at: now,
            ..row
        },
        ItemEventView::Miss { error, http_status } => ItemView {
            status: "missing"@,
            last_error: Some(error),
            last_http_status: http_status,
            updated_at: now,
            ..row
        },
        ItemEventView::Reset => ItemView { status: "pending"@, updated_at: now, ..row },
        ItemEventView::Retry => ItemView {
            status: "pending"@,
            attempts: 0,
            last_error: None,
            last_http_status: None,
            updated_at: now,
            ..row
        },
    }
}

impl ItemRow {
    /// Lets an event happen to the item.
    pub fn apply(&mut self, event: &ItemEvent, now: i64)
        ensures
            final(self)@ == item_after(old(self)@, event@, now),
    {
        self.updated_at = now;
        match event {
            ItemEvent::Start => {
                self.status = "in_progress".to_owned();
                if self.attempts < u32::MAX {
                    self.attempts = self.attempts + 1;
                }
                self.last_error = None;
                self.last_http_status = None;
            },
            ItemEvent::Save => {
                self.status = "done".to_owned();
                self.last_error = None;
                self.last_http_status = None;
            },
            ItemEvent::Fail { error, http_status } => {
                self.status = "failed".to_owned();
                self.last_error = Some(error.clone());
                self.last_http_status = *http_status;
            },
            ItemEvent::Defer { error, http_status } => {
                self.status = "pending".to_owned();
                if self.attempts > 0 {
                    self.attempts = self.attempts - 1;
                }
                self.last_error = Some(error.clone());
                self.last_http_status = *http_status;
            },
            ItemEvent::Miss { error, http_status } => {
                self.status = "missing".to_owned();
                self.last_error = Some(error.clone());
                self.last_http_status = *http_status;
            },
            ItemEvent::Reset => {
                self.status = "pending".to_owned();
            },
            ItemEvent::Retry => {
                self.status = "pending".to_owned();
                self.attempts = 0;
                self.last_error = None;
                self.last_http_status = None;
            },
        }
    }
}

/// Which items are meant.
#[derive(Debug)]
pub enum ItemSelection {
    /// The one with this identifier.
    Id { id: String },
    /// Those in this state.
    Status { status: String },
    /// Those in none of the five known states.
    OtherStatus,
    /// The failed ones, or only those that failed with this HTTP status.
    Failed { http_status: Option<u16> },
    /// The failed ones that failed with exactly this, be it an HTTP status or none.
    FailedWith { http_status: Option<u16> },
    /// The failed ones with attempts left.
    Retryable { max_attempts: u32 },
    /// The failed ones without attempts left.
    Exhausted { max_attempts: u32 },
    /// The pending and failed ones with attempts left.
    Waiting { max_attempts: u32 },
}

/// Which items are meant, with the texts.
pub ghost enum ItemSelectionView {
    Id { id: Seq<char> },
    Status { status: Seq<char> },
    OtherStatus,
    Failed { http_status: Option<u16> },
    FailedWith { http_status: Option<u16> },
    Retryable { max_attempts: u32 },
    Exhausted { max_attempts: u32 },
    Waiting { max_attempts: u32 },
}

impl View for ItemSelection {
    type V = ItemSelectionView;

    open spec fn view(&self) -> ItemSelectionView {
        match self {
            ItemSelection::Id { id } => ItemSelectionView::Id { id: id@ },
            ItemSelection::Status { status } => ItemSelectionView::Status { status: status@ },
            ItemSelection::OtherStatus => ItemSelectionView::OtherStatus,
            ItemSelection::Failed { http_status } => ItemSelectionView::Failed {
                http_status: *http_status,
            },
            ItemSelection::FailedWith { http_status } => ItemSelectionView::FailedWith {
                http_status: *http_status,
            },
            ItemSelection::Retryable { max_attempts } => ItemSelectionView::Retryable {
                max_attempts: *max_attempts,
            },
            ItemSelection::Exhausted { max_attempts } => ItemSelectionView::Exhausted {
                max_attempts: *max_attempts,
            },
            ItemSelection::Waiting { max_attempts } => ItemSelectionView::Waiting {
                max_attempts: *max_attempts,
            },
        }
    }
}

/// Whether a state is one of the five known ones.
pub open spec fn known_status(status: Seq<char>) -> bool {
    status == "pending"@ || status == "in_progress"@ || status == "done"@ || status == "missing"@
        || status == "failed"@
}

/// Whether a state is one of the five known ones.
pub fn is_known_status(status: &str) -> (result: bool)
    ensures
        result == known_status(status@),
{
    same(status, "pending") || same(status, "in_progress") || same(status, "done") || same(
        status,
        "missing",
    ) || same(status, "failed")
}

/// Whether a row is among those meant.
pub open spec fn item_selected(row: ItemView, which: ItemSelectionView) -> bool {
    match which {
        ItemSelectionView::Id { id } => row.id == id,
        ItemSelectionView::Status { status } => row.status == status,
        ItemSelectionView::OtherStatus => !known_status(row.status),
        ItemSelectionView::Failed { http_status } => row.status == "failed"@ && (http_status is None
            || row.last_http_status == http_status),
        ItemSelectionView::FailedWith { http_status } => row.status == "failed"@
            && row.last_http_status == http_status,
        ItemSelectionView::Retryable { max_attempts } => row.status == "failed"@ && row.attempts
            < max_attempts,
        ItemSelectionView::Exhausted { max_attempts } => row.status == "failed"@ && row.attempts
            >= max_attempts,
        ItemSelectionView::Waiting { max_attempts } => (row.status == "pending"@ || row.status
            == "failed"@) && row.attempts < max_attempts,
    }
}

/// Whether two optional HTTP statuses are the same.
pub fn same_status(a: Option<u16>, b: Option<u16>) -> (result: bool)
    ensures
        result == (a == b),
{
    match (a, b) {
        (Some(x), Some(y)) => x == y,
        (None, None) => true,
        _ => false,
    }
}

impl ItemSelection {
    /// Whether a row is among those meant.
    pub fn selects(&self, row: &ItemRow) -> (result: bool)
        ensures
            result == item_selected(row@, self@),
    {
        match self {
            ItemSelection::Id { id } => same(&row.id, id),
            ItemSelection::Status { status } => same(&row.status, status),
            ItemSelection::OtherStatus => !is_known_status(&row.status),
            ItemSelection::Failed { http_status } => same(&row.status, "failed") && (
            http_status.is_none() || same_status(row.last_http_status, *http_status)),
            ItemSelection::FailedWith { http_status } => same(&row.status, "failed") && same_status(
                row.last_http_status,
                *http_status,
            ),
            ItemSelection::Retryable { max_attempts } => same(&row.status, "failed") && row.attempts
                < *max_attempts,
            ItemSelection::Exhausted { max_attempts } => same(&row.status, "failed") && row.attempts
                >= *max_attempts,
            ItemSelection::Waiting { max_attempts } => (same(&row.status, "pending") || same(
                &row.status,
                "failed",
            )) && row.attempts < *max_attempts,
        }
    }
}

/// How many items are meant.
pub open spec fn items_counted(rows: Seq<ItemView>, which: ItemSelectionView) -> nat {
    count_where(rows, |r: ItemView| item_selected(r, which))
}

/// The table after an event has happened to the items that are meant.
pub open spec fn items_after(
    rows: Seq<ItemView>,
    which: ItemSelectionView,
    event: ItemEventView,
    now: i64,
) -> Seq<ItemView> {
    rows.map_values(
        |r: ItemView|
            if item_selected(r, which) {
                item_after(r, event, now)
            } else {
                r
            },
    )
}

/// How many items are meant.
pub fn count_items(rows: &Vec<ItemRow>, which: &ItemSelection) -> (result: usize)
    ensures
        result == items_counted(item_views(rows@), which@),
{
    let ghost all = item_views(rows@);
    let ghost p = |r: ItemView| item_selected(r, which@);
    let mut count: usize = 0;
    for i in 0..rows.len()
        invariant
            all == item_views(rows@),
            p == (|r: ItemView| item_selected(r, which@)),
            count <= i,
            count == count_where(all.take(i as int), p),
    {
        proof {
            lemma_count_next(all, p, i as int);
        }
        if which.selects(&rows[i]) {
            count = count + 1;
        }
    }
    assert(all.take(all.len() as int) == all);
    count
}

/// Lets an event happen to the items that are meant; says how many they are.
pub fn update_items(
    rows: &mut Vec<ItemRow>,
    which: &ItemSelection,
    event: &ItemEvent,
    now: i64,
) -> (changed: usize)
    ensures
        item_views(final(rows)@) == items_after(item_views(old(rows)@), which@, event@, now),
        changed == items_counted(item_views(old(rows)@), which@),
{
    let ghost all = item_views(rows@);
    let ghost p = |r: ItemView| item_selected(r, which@);
    let ghost target = items_after(all, which@, event@, now);
    let count: usize = rows.len();
    let mut changed: usize = 0;
    for i in 0..count
        invariant
            count == rows@.len() == all.len(),
            all == item_views(old(rows)@),
            target == items_after(all, which@, event@, now),
            p == (|r: ItemView| item_selected(r, which@)),
            forall|k: int| 0 <= k < i ==> (#[trigger] rows@[k])@ == target[k],
            forall|k: int| i <= k < count ==> (#[trigger] rows@[k])@ == all[k],
            changed <= i,
            changed == count_where(all.take(i as int), p),
    {
        proof {
            lemma_count_next(all, p, i as int);
        }
        if which.selects(&rows[i]) {
            let mut row = rows[i].clone();
            row.apply(event, now);
            rows.set(i, row);
            changed = changed + 1;
        }
    }
    assert(item_views(rows@) == target);
    assert(all.take(all.len() as int) == all);
    changed
}

/// Whether a table has an item.
pub open spec fn has_item(rows: Seq<ItemView>, id: Seq<char>) -> bool {
    exists|i: int| 0 <= i < rows.len() && (#[trigger] rows[i]).id == id
}

/// A new item, as a search page or the user names it.
pub open spec fn new_item(
    id: Seq<char>,
    search_key: Option<Seq<char>>,
    page: Option<u64>,
    now: i64,
) -> ItemView {
    ItemView {
        id,
        first_seen_search_key: search_key,
        first_seen_page: page,
        status: "pending"@,
        attempts: 0,
        last_error: None,
        last_http_status: None,
        updated_at: now,
    }
}

/// The table with one item added, unless it has it.
pub open spec fn with_item(rows: Seq<ItemView>, item: ItemView) -> Seq<ItemView> {
    if has_item(rows, item.id) {
        rows
    } else {
        rows.push(item)
    }
}

/// The table with the items of a list added, as far as it does not have them.
pub open spec fn with_items(
    rows: Seq<ItemView>,
    ids: Seq<Seq<char>>,
    search_key: Option<Seq<char>>,
    page: Option<u64>,
    now: i64,
) -> Seq<ItemView>
    decreases ids.len(),
{
    if ids.len() == 0 {
        rows
    } else {
        with_item(
            with_items(rows, ids.drop_last(), search_key, page, now),
            new_item(ids.last(), search_key, page, now),
        )
    }
}

/// Adds one item, unless the table has it; says whether it was added.
pub fn insert_item(
    rows: &mut Vec<ItemRow>,
    id: &str,
    search_key: &Option<String>,
    page: Option<u64>,
    now: i64,
) -> (added: bool)
    ensures
        item_views(final(rows)@) == with_item(
            item_views(old(rows)@),
            new_item(id@, opt_text(*search_key), page, now),
        ),
        added == !has_item(item_views(old(rows)@), id@),
{
    let ghost all = item_views(rows@);
    let count: usize = rows.len();
    for i in 0..count
        invariant
            count == rows@.len(),
            *rows == *old(rows),
            all == item_views(rows@),
            forall|k: int| 0 <= k < i ==> (#[trigger] all[k]).id != id@,
    {
        if same(&rows[i].id, id) {
            assert(all[i as int].id == id@);
            return false;
        }
    }
    rows.push(
        ItemRow {
            id: id.to_owned(),
            first_seen_search_key: copy_option(search_key),
            first_seen_page: page,
            status: "pending".to_owned(),
            attempts: 0,
            last_error: None,
            last_http_status: None,
            updated_at: now,
        },
    );
    true
}

/// Whether one item is to be fetched before another: the one that changed first, then by
/// identifier.
pub open spec fn fetched_before(a: ItemView, b: ItemView) -> bool {
    a.updated_at < b.updated_at || (a.updated_at == b.updated_at && text_before(a.id, b.id))
}

/// Whether the row at `i` is the next to fetch.
pub open spec fn is_next(rows: Seq<ItemView>, i: int, max_attempts: u32) -> bool {
    &&& 0 <= i < rows.len()
    &&& item_selected(rows[i], ItemSelectionView::Waiting { max_attempts })
    &&& forall|k: int|
        0 <= k < rows.len() && item_selected(
            #[trigger] rows[k],
            ItemSelectionView::Waiting { max_attempts },
        ) ==> !fetched_before(rows[k], rows[i])
}

/// The position of the next item to fetch.
pub fn find_next_item(rows: &Vec<ItemRow>, max_attempts: u32) -> (result: Option<usize>)
    ensures
        match result {
            Some(i) => is_next(item_views(rows@), i as int, max_attempts),
            None => items_counted(item_views(rows@), ItemSelectionView::Waiting { max_attempts })
                == 0,
        },
{
    let ghost all = item_views(rows@);
    let which = ItemSelection::Waiting { max_attempts };
    let ghost p = |r: ItemView| item_selected(r, which@);
    let mut best: Option<usize> = None;
    for i in 0..rows.len()
        invariant
            all == item_views(rows@),
            which@ == (ItemSelectionView::Waiting { max_attempts }),
            p == (|r: ItemView| item_selected(r, which@)),
            match best {
                Some(b) => b < i && item_selected(all[b as int], which@) && forall|k: int|
                    0 <= k < i && item_selected(#[trigger] all[k], which@) ==> !fetched_before(
                        all[k],
                        all[b as int],
                    ),
                None => count_where(all.take(i as int), p) == 0,
            },
            best is None ==> forall|k: int|
                0 <= k < i ==> !item_selected(#[trigger] all[k], which@),
    {
        proof {
            lemma_count_next(all, p, i as int);
        }
        if which.selects(&rows[i]) {
            match best {
                Some(b) => {
                    if rows[i].updated_at < rows[b].updated_at || (rows[i].updated_at
                        == rows[b].updated_at && comes_before(&rows[i].id, &rows[b].id)) {
                        proof {
                            lemma_fetched_first(all, b as int, i as int, max_attempts);
                        }
                        best = Some(i);
                    } else {
                        assert(!fetched_before(all[i as int], all[b as int]));
                    }
                },
                None => {
                    proof {
                        lemma_before_irreflexive(all[i as int].id);
                    }
                    best = Some(i);
                },
            }
        }
    }
    assert(all.take(all.len() as int) == all);
    best
}

/// An item that comes before the least so far comes before no other.
proof fn lemma_fetched_first(all: Seq<ItemView>, b: int, i: int, max_attempts: u32)
    requires
        0 <= b < i < all.len(),
        fetched_before(all[i], all[b]),
        forall|k: int|
            0 <= k < i && item_selected(
                #[trigger] all[k],
                ItemSelectionView::Waiting { max_attempts },
            ) ==> !fetched_before(all[k], all[b]),
    ensures
        forall|k: int|
            0 <= k <= i && item_selected(
                #[trigger] all[k],
                ItemSelectionView::Waiting { max_attempts },
            ) ==> !fetched_before(all[k], all[i]),
{
    lemma_before_irreflexive(all[i].id);
    assert forall|k: int|
        0 <= k <= i && item_selected(
            #[trigger] all[k],
            ItemSelectionView::Waiting { max_attempts },
        ) implies !fetched_before(all[k], all[i]) by {
        if k < i && fetched_before(all[k], all[i]) {
            if all[k].updated_at == all[i].updated_at && all[i].updated_at == all[b].updated_at {
                lemma_before_transitive(all[k].id, all[i].id, all[b].id);
            }
        }
    }
}

} // verus!
