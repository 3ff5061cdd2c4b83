use crate::items::{ItemSelectionView, ItemView, item_selected, items_counted};
use crate::numerals::{hex_bytes, hex_lower};
use crate::pages::{PageSelectionView, PageView, page_selected, pages_counted};
use crate::state::{CrawlState, StateView};
use crate::summary::{
    bounds_times, change_times, completion_of, counts_failures, samples_failures, tells_of,
    CrawlCompletionSummary, FailedHttpStatusCount, FailedItemSample, StateTimeBounds,
    WorkStatusSummary,
};
use crate::text::{copy_option, trim, trimmed};
use crate::views::{count_where, group_texts, lemma_count_bound, opt_text};
use chrono::{DateTime, SecondsFormat, Utc};
use sha2::{Digest, Sha256};
use vstd::prelude::*;

verus! {

broadcast use group_texts;

/// What a dataset was made of, and by what.
#[derive(Debug)]
pub struct DatasetManifest {
    pub schema_version: u32,
    pub dataset_name: String,
    pub manifest_started_at: String,
    pub manifest_finished_at: String,
    pub tool: ToolManifest,
    pub commands: CommandsManifest,
    pub sqlite: SqliteManifest,
    pub failed_items: FailedItemsManifest,
    pub outputs: Vec<OutputFileManifest>,
}

/// The program that made a dataset.
#[derive(Debug)]
pub struct ToolManifest {
    pub name: String,
    pub version: String,
    pub git_commit: Option<String>,
    pub git_describe: Option<String>,
    pub git_dirty: Option<bool>,
}

/// The commands that made a dataset.
#[derive(Debug)]
pub struct CommandsManifest {
    pub export_manifest: Vec<String>,
    pub crawl: Option<String>,
}

/// The state of the crawl that made a dataset.
#[derive(Debug)]
pub struct SqliteManifest {
    pub path: String,
    pub records: u64,
    pub items: WorkStatusManifest,
    pub search_pages: WorkStatusManifest,
    pub retryable_failed_items: u64,
    pub exhausted_failed_items: u64,
    pub retryable_failed_search_pages: u64,
    pub exhausted_failed_search_pages: u64,
    pub failed_403_items: u64,
    pub failed_403_search_pages: u64,
    pub time_range: StateTimeRangeManifest,
}

/// How many rows of a table are in each state.
#[derive(Debug, Clone, Copy, PartialEq, Eq)]
pub struct WorkStatusManifest {
    pub pending: u64,
    pub in_progress: u64,
    pub done: u64,
    pub missing: u64,
    pub failed: u64,
    pub other: u64,
}

/// When the rows of a crawl's state changed.
#[derive(Debug)]
pub struct StateTimeRangeManifest {
    pub started_at_unix: Option<i64>,
    pub started_at: Option<String>,
    pub finished_at_unix: Option<i64>,
    pub finished_at: Option<String>,
}

/// The items that failed.
#[derive(Debug)]
pub struct FailedItemsManifest {
    pub total: u64,
    pub by_http_status: Vec<FailedHttpStatusCountManifest>,
    pub sample: Vec<FailedItemSampleManifest>,
}

/// How many items failed with an HTTP status.
#[derive(Debug, Clone, Copy, PartialEq, Eq)]
pub struct FailedHttpStatusCountManifest {
    pub http_status: Option<u16>,
    pub count: u64,
}

/// An item that failed.
#[derive(Debug)]
pub struct FailedItemSampleManifest {
    pub id: String,
    pub attempts: u32,
    pub last_http_status: Option<u16>,
    pub last_error: Option<String>,
    pub updated_at_unix: i64,
    pub updated_at: Option<String>,
}

/// A file of a dataset.
#[derive(Debug)]
pub struct OutputFileManifest {
    pub path: String,
    pub bytes: u64,
    pub sha256: String,
}

/// A moment as an RFC 3339 text in whole seconds of UTC; none where it is too far away.
pub uninterp spec fn rfc3339(timestamp: i64) -> Option<Seq<char>>;

/// `chrono::DateTime::from_timestamp` in UTC, and `to_rfc3339_opts` in whole seconds with `Z`,
/// named by `rfc3339`.
#[verifier::external_body]
pub(crate) fn unix_to_rfc3339(timestamp: i64) -> (result: Option<String>)
    ensures
        opt_text(result) == rfc3339(timestamp),
{
    let time = DateTime::<Utc>::from_timestamp(timestamp, 0)?;
    Some(time.to_rfc3339_opts(SecondsFormat::Secs, true))
}

/// An optional moment as an RFC 3339 text.
pub open spec fn opt_rfc3339(timestamp: Option<i64>) -> Option<Seq<char>> {
    match timestamp {
        Some(seconds) => rfc3339(seconds),
        None => None,
    }
}

fn optional_rfc3339(timestamp: Option<i64>) -> (result: Option<String>)
    ensures
        opt_text(result) == opt_rfc3339(timestamp),
{
    match timestamp {
        Some(seconds) => unix_to_rfc3339(seconds),
        None => None,
    }
}

/// The SHA-256 digest of some bytes.
pub uninterp spec fn sha256_digest(bytes: Seq<u8>) -> Seq<u8>;

/// `sha2::Sha256::digest`, named by `sha256_digest`: thirty-two bytes.
#[verifier::external_body]
pub(crate) fn sha256(bytes: &[u8]) -> (result: Vec<u8>)
    ensures
        result@ == sha256_digest(bytes@),
        result@.len() == 32,
{
    Sha256::digest(bytes).to_vec()
}

/// What is said of this program, and of the work tree that it ran in.
pub fn tool_manifest(
    git_commit: Option<String>,
    git_describe: Option<String>,
    git_dirty: Option<bool>,
) -> (result: ToolManifest)
    ensures
        result.name@ == "rusneb-parser"@,
        result.version@ == "0.4.0"@,
        result.git_commit == git_commit,
        result.git_describe == git_describe,
        result.git_dirty == git_dirty,
{
    ToolManifest {
        name: "rusneb-parser".to_owned(),
        version: "0.4.0".to_owned(),
        git_commit,
        git_describe,
        git_dirty,
    }
}

/// What is said of a file of a dataset that is not a regular one.
pub open spec fn no_file(path: Seq<char>) -> Seq<char> {
    "manifest output file is not a regular file: "@ + path
}

/// A file of a dataset, from its path, what kind of file it is, its size and its bytes.
pub fn output_file_manifest(path: &str, is_file: bool, size: u64, content: &[u8]) -> (result:
    Result<OutputFileManifest, String>)
    ensures
        match result {
            Ok(file) => is_file && file.path@ == path@ && file.bytes == size && file.sha256@
                == hex_bytes(sha256_digest(content@)) && file.sha256@.len() == 64,
            Err(message) => !is_file && message@ == no_file(path@),
        },
{
    if !is_file {
        let mut message: String = "manifest output file is not a regular file: ".to_owned();
        message.append(path);
        return Err(message);
    }
    let digest = sha256(content);
    Ok(OutputFileManifest { path: path.to_owned(), bytes: size, sha256: hex_lower(&digest) })
}

/// Whether a work tree has changes, by the exit codes of the comparisons of the tree and of the
/// index: zero says no, one says yes, and any other that it is not known.
pub fn git_dirty(worktree: Option<i32>, index: Option<i32>) -> (result: Option<bool>)
    ensures
        result == match (worktree, index) {
            (Some(w), Some(i)) => if (w == 0 || w == 1) && (i == 0 || i == 1) {
                Some(w == 1 || i == 1)
            } else {
                None
            },
            _ => None,
        },
{
    match (worktree, index) {
        (Some(w), Some(i)) => {
            if (w == 0 || w == 1) && (i == 0 || i == 1) {
                Some(w != 0 || i != 0)
            } else {
                None
            }
        },
        _ => None,
    }
}

/// What a command printed, where it ended well and printed something.
pub fn command_output(success: bool, printed: &str) -> (result: Option<String>)
    ensures
        opt_text(result) == if success && trimmed(printed@).len() > 0 {
            Some(trimmed(printed@))
        } else {
            None
        },
{
    if !success {
        return None;
    }
    let text = trim(printed);
    if text.as_str().is_empty() {
        None
    } else {
        Some(text)
    }
}

/// How many rows are in each state, for the manifest.
pub fn work_status_manifest(summary: &WorkStatusSummary) -> (result: WorkStatusManifest)
    ensures
        result == retold_summary(*summary),
{
    WorkStatusManifest {
        pending: summary.pending,
        in_progress: summary.in_progress,
        done: summary.done,
        missing: summary.missing,
        failed: summary.failed,
        other: summary.other,
    }
}

/// How many rows are in each state, for the manifest.
pub open spec fn retold_summary(summary: WorkStatusSummary) -> WorkStatusManifest {
    WorkStatusManifest {
        pending: summary.pending,
        in_progress: summary.in_progress,
        done: summary.done,
        missing: summary.missing,
        failed: summary.failed,
        other: summary.other,
    }
}

/// When the rows of a crawl's state changed, for the manifest.
pub fn time_range_manifest(bounds: StateTimeBounds) -> (result: StateTimeRangeManifest)
    ensures
        tells_range(result, bounds),
{
    StateTimeRangeManifest {
        started_at_unix: bounds.started_at_unix,
        started_at: optional_rfc3339(bounds.started_at_unix),
        finished_at_unix: bounds.finished_at_unix,
        finished_at: optional_rfc3339(bounds.finished_at_unix),
    }
}

/// Whether a manifest tells when the rows of a crawl's state changed.
pub open spec fn tells_range(range: StateTimeRangeManifest, bounds: StateTimeBounds) -> bool {
    &&& range.started_at_unix == bounds.started_at_unix
    &&& range.finished_at_unix == bounds.finished_at_unix
    &&& opt_text(range.started_at) == opt_rfc3339(bounds.started_at_unix)
    &&& opt_text(range.finished_at) == opt_rfc3339(bounds.finished_at_unix)
}

/// Whether a manifest tells how far a crawl has got.
pub open spec fn tells_completion(sqlite: SqliteManifest, summary: CrawlCompletionSummary) -> bool {
    &&& sqlite.records == summary.records
    &&& sqlite.items == retold_summary(summary.items)
    &&& sqlite.search_pages == retold_summary(summary.search_pages)
    &&& sqlite.retryable_failed_items == summary.retryable_failed_items
    &&& sqlite.exhausted_failed_items == summary.exhausted_failed_items
    &&& sqlite.retryable_failed_search_pages == summary.retryable_failed_search_pages
    &&& sqlite.exhausted_failed_search_pages == summary.exhausted_failed_search_pages
    &&& sqlite.failed_403_items == summary.failed_403_items
    &&& sqlite.failed_403_search_pages == summary.failed_403_search_pages
}

/// The bounds that a manifest gives.
pub open spec fn bounds_told(range: StateTimeRangeManifest) -> StateTimeBounds {
    StateTimeBounds {
        started_at_unix: range.started_at_unix,
        finished_at_unix: range.finished_at_unix,
    }
}

/// The state of a crawl for the manifest, where rows may be tried so often.
pub fn sqlite_manifest(state: &CrawlState, path: &str, max_attempts: u32) -> (result:
    SqliteManifest)
    ensures
        result.path@ == path@,
        tells_completion(result, completion_of(state@, max_attempts)),
        bounds_times(bounds_told(result.time_range), change_times(state@)),
        tells_range(result.time_range, bounds_told(result.time_range)),
{
    let summary = state.crawl_completion_summary(max_attempts);
    let bounds = state.state_time_bounds();
    SqliteManifest {
        path: path.to_owned(),
        records: summary.records,
        items: work_status_manifest(&summary.items),
        search_pages: work_status_manifest(&summary.search_pages),
        retryable_failed_items: summary.retryable_failed_items,
        exhausted_failed_items: summary.exhausted_failed_items,
        retryable_failed_search_pages: summary.retryable_failed_search_pages,
        exhausted_failed_search_pages: summary.exhausted_failed_search_pages,
        failed_403_items: summary.failed_403_items,
        failed_403_search_pages: summary.failed_403_search_pages,
        time_range: time_range_manifest(bounds),
    }
}

/// The count that a manifest retells.
pub open spec fn retold_count(count: FailedHttpStatusCountManifest) -> FailedHttpStatusCount {
    FailedHttpStatusCount { http_status: count.http_status, count: count.count }
}

/// The counts that a manifest retells.
pub open spec fn retold_counts(list: Seq<FailedHttpStatusCountManifest>) -> Seq<
    FailedHttpStatusCount,
> {
    list.map_values(|c: FailedHttpStatusCountManifest| retold_count(c))
}

/// The failed item that a manifest retells.
pub open spec fn retold_sample(item: FailedItemSampleManifest) -> FailedItemSample {
    FailedItemSample {
        id: item.id,
        attempts: item.attempts,
        last_http_status: item.last_http_status,
        last_error: item.last_error,
        updated_at_unix: item.updated_at_unix,
    }
}

/// The failed items that a manifest retells.
pub open spec fn retold_samples(list: Seq<FailedItemSampleManifest>) -> Seq<FailedItemSample> {
    list.map_values(|s: FailedItemSampleManifest| retold_sample(s))
}

/// Whether a manifest retells a failed item.
pub open spec fn retells(item: FailedItemSampleManifest, sample: FailedItemSample) -> bool {
    &&& item.id@ == sample.id@
    &&& item.attempts == sample.attempts
    &&& item.last_http_status == sample.last_http_status
    &&& opt_text(item.last_error) == opt_text(sample.last_error)
    &&& item.updated_at_unix == sample.updated_at_unix
    &&& opt_text(item.updated_at) == rfc3339(sample.updated_at_unix)
}

/// A failed item for the manifest.
pub fn failed_item_manifest(sample: &FailedItemSample) -> (result: FailedItemSampleManifest)
    ensures
        retells(result, *sample),
{
    FailedItemSampleManifest {
        id: sample.id.clone(),
        attempts: sample.attempts,
        last_http_status: sample.last_http_status,
        last_error: copy_option(&sample.last_error),
        updated_at_unix: sample.updated_at_unix,
        updated_at: unix_to_rfc3339(sample.updated_at_unix),
    }
}

/// The failed items of a crawl for the manifest, with a sample of so many.
pub fn failed_items_manifest(state: &CrawlState, max_attempts: u32, limit: u64) -> (result:
    FailedItemsManifest)
    ensures
        result.total == completion_of(state@, max_attempts).items.failed,
        counts_failures(retold_counts(result.by_http_status@), state@.items),
        samples_failures(retold_samples(result.sample@), state@.items, limit),
        forall|i: int|
            0 <= i < result.sample@.len() ==> opt_text((#[trigger] result.sample@[i]).updated_at)
                == rfc3339(result.sample@[i].updated_at_unix),
{
    let summary = state.crawl_completion_summary(max_attempts);
    let counts = state.failed_item_http_status_counts();
    let mut by_http_status: Vec<FailedHttpStatusCountManifest> = Vec::new();
    for i in 0..counts.len()
        invariant
            retold_counts(by_http_status@) == counts@.take(i as int),
    {
        let entry = FailedHttpStatusCountManifest {
            http_status: counts[i].http_status,
            count: counts[i].count,
        };
        let ghost before = by_http_status@;
        by_http_status.push(entry);
        proof {
            assert(retold_counts(by_http_status@) =~= retold_counts(before).push(
                retold_count(entry),
            ));
            assert(retold_count(entry) == counts@[i as int]);
            assert(counts@.take(i + 1) =~= counts@.take(i as int).push(counts@[i as int]));
        }
    }
    assert(counts@.take(counts@.len() as int) =~= counts@);
    let samples = state.failed_item_sample(limit);
    let mut sample: Vec<FailedItemSampleManifest> = Vec::new();
    for i in 0..samples.len()
        invariant
            sample@.len() == i,
            forall|k: int| 0 <= k < i ==> retells(#[trigger] sample@[k], samples@[k]),
    {
        sample.push(failed_item_manifest(&samples[i]));
    }
    proof {
        let rows = state@.items;
        let told = retold_samples(sample@);
        assert forall|i: int| 0 <= i < told.len() implies exists|k: int|
            0 <= k < rows.len() && tells_of(#[trigger] told[i], #[trigger] rows[k]) by {
            assert(retells(sample@[i], samples@[i]));
            let k = choose|k: int|
                0 <= k < rows.len() && tells_of(samples@[i], #[trigger] rows[k]);
            assert(tells_of(told[i], rows[k]));
        }
        assert forall|i: int| 0 <= i < told.len() implies (#[trigger] told[i]).id@
            == samples@[i].id@ by {
            assert(retells(sample@[i], samples@[i]));
        }
        assert(samples_failures(told, rows, limit));
    }
    FailedItemsManifest { total: summary.items.failed, by_http_status, sample }
}

/// What a dataset is called, and when its manifest was begun and ended.
#[derive(Debug)]
pub struct ManifestHead {
    pub dataset_name: String,
    pub started_at: String,
    pub finished_at: String,
}

/// The manifest of a dataset, from its parts.
pub fn dataset_manifest(
    head: ManifestHead,
    tool: ToolManifest,
    commands: CommandsManifest,
    sqlite: SqliteManifest,
    failed_items: FailedItemsManifest,
    outputs: Vec<OutputFileManifest>,
) -> (result: DatasetManifest)
    ensures
        result.schema_version == 1,
        result.dataset_name == head.dataset_name,
        result.manifest_started_at == head.started_at,
        result.manifest_finished_at == head.finished_at,
        result.tool == tool,
        result.commands == commands,
        result.sqlite == sqlite,
        result.failed_items == failed_items,
        result.outputs == outputs,
{
    DatasetManifest {
        schema_version: 1,
        dataset_name: head.dataset_name,
        manifest_started_at: head.started_at,
        manifest_finished_at: head.finished_at,
        tool,
        commands,
        sqlite,
        failed_items,
        outputs,
    }
}

/// What a manifest tells of a crawl is what the crawl holds: each number stands under its own name.
pub proof fn law_manifest_tells_the_state(
    sqlite: SqliteManifest,
    state: StateView,
    max_attempts: u32,
)
    requires
        tells_completion(sqlite, completion_of(state, max_attempts)),
        state.records.len() <= u64::MAX,
        state.items.len() <= u64::MAX,
        state.pages.len() <= u64::MAX,
    ensures
        sqlite.records == state.records.len(),
        sqlite.items.pending == count_where(state.items, |r: ItemView| r.status == "pending"@),
        sqlite.items.in_progress == count_where(
            state.items,
            |r: ItemView| r.status == "in_progress"@,
        ),
        sqlite.items.done == count_where(state.items, |r: ItemView| r.status == "done"@),
        sqlite.items.missing == count_where(state.items, |r: ItemView| r.status == "missing"@),
        sqlite.items.failed == count_where(state.items, |r: ItemView| r.status == "failed"@),
        sqlite.search_pages.pending == count_where(
            state.pages,
            |r: PageView| r.status == "pending"@,
        ),
        sqlite.search_pages.in_progress == count_where(
            state.pages,
            |r: PageView| r.status == "in_progress"@,
        ),
        sqlite.search_pages.done == count_where(state.pages, |r: PageView| r.status == "done"@),
        sqlite.search_pages.failed == count_where(state.pages, |r: PageView| r.status == "failed"@),
        sqlite.retryable_failed_items == count_where(
            state.items,
            |r: ItemView| r.status == "failed"@ && r.attempts < max_attempts,
        ),
        sqlite.exhausted_failed_items == count_where(
            state.items,
            |r: ItemView| r.status == "failed"@ && r.attempts >= max_attempts,
        ),
        sqlite.retryable_failed_search_pages == count_where(
            state.pages,
            |r: PageView| r.status == "failed"@ && r.attempts < max_attempts,
        ),
        sqlite.exhausted_failed_search_pages == count_where(
            state.pages,
            |r: PageView| r.status == "failed"@ && r.attempts >= max_attempts,
        ),
{
    lemma_items_told(state.items, ItemSelectionView::Status { status: "pending"@ }, |r: ItemView|
        r.status == "pending"@);
    lemma_items_told(
        state.items,
        ItemSelectionView::Status { status: "in_progress"@ },
        |r: ItemView| r.status == "in_progress"@,
    );
    lemma_items_told(state.items, ItemSelectionView::Status { status: "done"@ }, |r: ItemView|
        r.status == "done"@);
    lemma_items_told(state.items, ItemSelectionView::Status { status: "missing"@ }, |r: ItemView|
        r.status == "missing"@);
    lemma_items_told(state.items, ItemSelectionView::Status { status: "failed"@ }, |r: ItemView|
        r.status == "failed"@);
    lemma_items_told(state.items, ItemSelectionView::Retryable { max_attempts }, |r: ItemView|
        r.status == "failed"@ && r.attempts < max_attempts);
    lemma_items_told(state.items, ItemSelectionView::Exhausted { max_attempts }, |r: ItemView|
        r.status == "failed"@ && r.attempts >= max_attempts);
    lemma_pages_told(state.pages, PageSelectionView::Status { status: "pending"@ }, |r: PageView|
        r.status == "pending"@);
    lemma_pages_told(
        state.pages,
        PageSelectionView::Status { status: "in_progress"@ },
        |r: PageView| r.status == "in_progress"@,
    );
    lemma_pages_told(state.pages, PageSelectionView::Status { status: "done"@ }, |r: PageView|
        r.status == "done"@);
    lemma_pages_told(state.pages, PageSelectionView::Status { status: "failed"@ }, |r: PageView|
        r.status == "failed"@);
    lemma_pages_told(state.pages, PageSelectionView::Retryable { max_attempts }, |r: PageView|
        r.status == "failed"@ && r.attempts < max_attempts);
    lemma_pages_told(state.pages, PageSelectionView::Exhausted { max_attempts }, |r: PageView|
        r.status == "failed"@ && r.attempts >= max_attempts);
}

proof fn lemma_items_told(
    rows: Seq<ItemView>,
    which: ItemSelectionView,
    p: spec_fn(ItemView) -> bool,
)
    requires
        forall|r: ItemView| #[trigger] item_selected(r, which) == p(r),
    ensures
        items_counted(rows, which) == count_where(rows, p),
        count_where(rows, p) <= rows.len(),
{
    assert((|r: ItemView| item_selected(r, which)) =~= p);
    lemma_count_bound(rows, p);
}

proof fn lemma_pages_told(
    rows: Seq<PageView>,
    which: PageSelectionView,
    p: spec_fn(PageView) -> bool,
)
    requires
        forall|r: PageView| #[trigger] page_selected(r, which) == p(r),
    ensures
        pages_counted(rows, which) == count_where(rows, p),
        count_where(rows, p) <= rows.len(),
{
    assert((|r: PageView| page_selected(r, which)) =~= p);
    lemma_count_bound(rows, p);
}

/// The times of a manifest are those of the crawl, in seconds and in words.
pub proof fn law_manifest_times(range: StateTimeRangeManifest, first: i64, last: i64)
    requires
        tells_range(
            range,
            (StateTimeBounds { started_at_unix: Some(first), finished_at_unix: Some(last) }),
        ),
    ensures
        range.started_at_unix == Some(first),
        range.finished_at_unix == Some(last),
        opt_text(range.started_at) == rfc3339(first),
        opt_text(range.finished_at) == rfc3339(last),
{
}

/// A failed item is told with all that is known of it.
pub proof fn law_manifest_samples(item: FailedItemSampleManifest, sample: FailedItemSample)
    requires
        retells(item, sample),
    ensures
        item.id@ == sample.id@,
        item.attempts == sample.attempts,
        item.last_http_status == sample.last_http_status,
        opt_text(item.last_error) == opt_text(sample.last_error),
        item.updated_at_unix == sample.updated_at_unix,
        opt_text(item.updated_at) == rfc3339(sample.updated_at_unix),
        retold_sample(item).attempts == sample.attempts,
        retold_sample(item).last_http_status == sample.last_http_status,
{
}

} // verus!
