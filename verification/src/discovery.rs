use crate::commands::{explicit_line, queued_text};
use crate::item_worker::{failure_lines, with_failure_line};
use crate::items::{has_item, items_counted, with_items, ItemSelectionView, ItemView};
use crate::json::{array_text, quoted_list, text_array};
use crate::jobs::{build_search_jobs, job_views, planned_jobs, CrawlArgs, JobView, SearchJob};
use crate::model::{FetchFailure, SearchPageResult};
use crate::numerals::{decimal, decimal_text, option_decimal, option_decimal_text};
use crate::overflow::seeded;
use crate::pages::{
    has_page, is_next_page, new_page, page_after, page_selected, pages_counted, with_page,
    PageEventView, PageSelectionView, PageView,
};
use crate::pauses::{
    after_failure, after_fetch, failure_messages, page_failure_action, pause_step, see_to_failure,
    workers_after_failure, FailureAction, PauseControl, PauseStep,
};
use crate::settings::{
    backlog_limit, backlog_target, last_page, last_search_page, plural, plural_ending,
};
use crate::state::{
    distinct_keys, state_completed, state_page, CompletedSearchPage, CrawlState, MemberView,
    StateView,
};
use crate::state_laws::{
    law_completed_page, law_enqueue_is_idempotent, law_enqueued_items, law_known_items_are_skipped,
    law_seeding_is_idempotent,
};
use crate::text::{has_text, lemma_stands_last, lemma_stays_inside};
use crate::views::{group_texts, lemma_count_zero, lemma_take_next, texts};
use crate::workers::{smaller_limit, WorkerControl};
use vstd::prelude::*;

verus! {

broadcast use group_texts;

/// What discovery does next in a search stream.
#[derive(Debug, Clone, Copy, PartialEq, Eq)]
pub enum DiscoveryStep {
    Stop,
    SleepSecs { secs: u64 },
    SleepMillis { millis: u64 },
    Fetch { page: u64 },
}

/// What is fixed for the discovery of a search stream.
#[derive(Debug, Clone, Copy)]
pub struct DiscoverySetup {
    pub max_attempts: u32,
    pub max_items: Option<u64>,
    pub backlog_target: u64,
    pub last_page: Option<u64>,
    pub stop_after_known_pages: Option<u64>,
}

/// What is fixed for the discovery of a stream of a crawl.
pub open spec fn setup_for(args: CrawlArgs, job: JobView) -> DiscoverySetup {
    DiscoverySetup {
        max_attempts: args.max_attempts,
        max_items: args.max_items,
        backlog_target: backlog_limit(args.workers as nat) as u64,
        last_page: last_page(args.start_page, smaller_limit(args.max_pages, job.max_pages)),
        stop_after_known_pages: job.stop_after_known_pages,
    }
}

/// What is fixed for the discovery of a stream of a crawl.
pub fn discovery_setup(args: &CrawlArgs, job: &SearchJob) -> (result: DiscoverySetup)
    ensures
        result == setup_for(*args, job@),
{
    DiscoverySetup {
        max_attempts: args.max_attempts,
        max_items: args.max_items,
        backlog_target: backlog_target(args),
        last_page: last_search_page(args, job.max_pages),
        stop_after_known_pages: job.stop_after_known_pages,
    }
}

/// Whether so many items wait that discovery waits too; where no items are fetched it never does.
pub open spec fn backlog_is_full(state: StateView, setup: DiscoverySetup) -> bool {
    &&& setup.max_items matches Some(max) ==> max > 0
    &&& items_counted(
        state.items,
        ItemSelectionView::Waiting { max_attempts: setup.max_attempts },
    ) >= setup.backlog_target
}

/// Whether a page is beyond the last that is read.
pub open spec fn beyond(page: int, last_page: Option<u64>) -> bool {
    last_page matches Some(last) && page > last
}

/// Whether discovery may do this next in a search stream, and what becomes of the state.
pub open spec fn discovers(
    before: StateView,
    after: StateView,
    pauses: PauseControl,
    search_key: Seq<char>,
    setup: DiscoverySetup,
    shutdown: bool,
    now: i64,
    step: DiscoveryStep,
) -> bool {
    match step {
        DiscoveryStep::Fetch { page } => {
            &&& pause_step(pauses.pause_until, shutdown, now) == PauseStep::Go
            &&& !backlog_is_full(before, setup)
            &&& !beyond(page as int, setup.last_page)
            &&& exists|i: int|
                #[trigger] is_next_page(before.pages, i, search_key, setup.max_attempts)
                    && before.pages[i].page == page
            &&& after == state_page(before, search_key, page, PageEventView::Start, now)
        },
        DiscoveryStep::SleepSecs { secs } => {
            &&& pause_step(pauses.pause_until, shutdown, now) == (PauseStep::Sleep { secs })
            &&& after == before
        },
        DiscoveryStep::SleepMillis { millis } => {
            &&& pause_step(pauses.pause_until, shutdown, now) == PauseStep::Go
            &&& backlog_is_full(before, setup)
            &&& millis == 250
            &&& after == before
        },
        DiscoveryStep::Stop => {
            &&& after == before
            &&& shutdown || {
                &&& pause_step(pauses.pause_until, shutdown, now) == PauseStep::Go
                &&& !backlog_is_full(before, setup)
                &&& pages_counted(
                    before.pages,
                    PageSelectionView::Waiting { search_key, max_attempts: setup.max_attempts },
                ) == 0 || exists|i: int|
                    #[trigger] is_next_page(before.pages, i, search_key, setup.max_attempts)
                        && beyond(before.pages[i].page as int, setup.last_page)
            }
        },
    }
}

/// Decides what discovery does next in a search stream, and takes up the page that it is to read.
pub fn discovery_step(
    state: &mut CrawlState,
    pauses: &PauseControl,
    search_key: &str,
    setup: &DiscoverySetup,
    shutdown: bool,
    now: i64,
) -> (result: DiscoveryStep)
    ensures
        distinct_keys(old(state)@) ==> distinct_keys(final(state)@),
        discovers(
            old(state)@,
            final(state)@,
            *pauses,
            search_key@,
            *setup,
            shutdown,
            now,
            result,
        ),
{
    match pauses.wait_for_transient_pause(shutdown, now) {
        PauseStep::Stop => return DiscoveryStep::Stop,
        PauseStep::Sleep { secs } => return DiscoveryStep::SleepSecs { secs },
        PauseStep::Go => {},
    }
    let fetches = match setup.max_items {
        Some(max) => max > 0,
        None => true,
    };
    if fetches && state.count_item_backlog(setup.max_attempts) >= setup.backlog_target {
        return DiscoveryStep::SleepMillis { millis: 250 };
    }
    let found = match state.next_search_page(search_key, setup.max_attempts) {
        Some(found) => found,
        None => return DiscoveryStep::Stop,
    };
    match setup.last_page {
        Some(last) => {
            if found.page > last {
                return DiscoveryStep::Stop;
            }
        },
        None => {},
    }
    state.mark_search_page_started(search_key, found.page, now);
    DiscoveryStep::Fetch { page: found.page }
}

/// How many of the items of a page were not known.
pub open spec fn new_items(
    state: StateView,
    search_key: Seq<char>,
    page: u64,
    ids: Seq<Seq<char>>,
    now: i64,
) -> int {
    with_items(state.items, ids, Some(search_key), Some(page), now).len() - state.items.len()
}

/// How many pages in a row had items, but none that was not known, after one more.
pub open spec fn streak_after(streak: u64, count: nat, fresh: int) -> u64 {
    if count == 0 {
        streak
    } else if fresh == 0 {
        (streak + 1) as u64
    } else {
        0
    }
}

/// Whether a stream ends because too many pages in a row had no new items.
pub open spec fn known_pages_end(
    streak: u64,
    count: nat,
    fresh: int,
    stop_after: Option<u64>,
) -> bool {
    count > 0 && fresh == 0 && (stop_after matches Some(limit) && streak + 1 >= limit)
}

/// The page that is read after one with so many items, if any.
pub open spec fn page_behind(page: u64, count: nat, known_end: bool, last_page: Option<u64>) -> Option<
    u64,
> {
    if count == 0 || known_end || beyond(page + 1, last_page) {
        None
    } else {
        Some((page + 1) as u64)
    }
}

/// A crawl's state after a page of a stream was read.
pub open spec fn state_read(
    state: StateView,
    search_key: Seq<char>,
    params_json: Seq<char>,
    page: u64,
    ids: Seq<Seq<char>>,
    total_results: Option<u64>,
    next_page: Option<u64>,
    now: i64,
) -> StateView {
    state_completed(
        StateView {
            items: with_items(state.items, ids, Some(search_key), Some(page), now),
            ..state
        },
        search_key,
        page,
        ids,
        total_results,
        params_json,
        next_page,
        now,
    )
}

/// The line on a page that was read.
pub open spec fn read_line(page: nat, count: nat, fresh: int, total: Option<u64>) -> Seq<char> {
    "search page "@ + decimal(page) + ": "@ + decimal(count) + " IDs ("@ + decimal(fresh as nat)
        + " new), total="@ + option_decimal(total)
}

/// The line on a stream that ends because too many pages in a row had no new items.
pub open spec fn known_line(page: nat, streak: nat) -> Seq<char> {
    "search page "@ + decimal(page) + ": stopping shard after "@ + decimal(streak)
        + " consecutive non-empty page(s) with no new IDs"@
}

fn page_line(page: u64, count: usize, fresh: usize, total: Option<u64>) -> (result: String)
    ensures
        result@ == read_line(page as nat, count as nat, fresh as int, total),
{
    let page_text = decimal_text(page);
    let count_text = decimal_text(count as u64);
    let fresh_text = decimal_text(fresh as u64);
    let total_text = option_decimal_text(total);
    let mut out: String = "search page ".to_owned();
    out.append(&page_text);
    out.append(": ");
    out.append(&count_text);
    out.append(" IDs (");
    out.append(&fresh_text);
    out.append(" new), total=");
    out.append(&total_text);
    out
}

fn known_end_line(page: u64, streak: u64) -> (result: String)
    ensures
        result@ == known_line(page as nat, streak as nat),
{
    let page_text = decimal_text(page);
    let streak_text = decimal_text(streak);
    let mut out: String = "search page ".to_owned();
    out.append(&page_text);
    out.append(": stopping shard after ");
    out.append(&streak_text);
    out.append(" consecutive non-empty page(s) with no new IDs");
    out
}

/// A page of a stream was read: its items are added, and the page behind it, unless the stream ends
/// here; gives the lines on this.
pub fn page_read(
    state: &mut CrawlState,
    pauses: &mut PauseControl,
    known_page_streak: &mut u64,
    search_key: &str,
    params_json: &str,
    page: u64,
    result: &SearchPageResult,
    setup: &DiscoverySetup,
    now: i64,
) -> (lines: Vec<String>)
    requires
        page < u64::MAX,
        *old(known_page_streak) < u64::MAX,
    ensures
        ({
            let ids = texts(result.ids@);
            let fresh = new_items(old(state)@, search_key@, page, ids, now);
            let known_end = known_pages_end(
                *old(known_page_streak),
                ids.len(),
                fresh,
                setup.stop_after_known_pages,
            );
            &&& final(state)@ == state_read(
                old(state)@,
                search_key@,
                params_json@,
                page,
                ids,
                result.total_results,
                page_behind(page, ids.len(), known_end, setup.last_page),
                now,
            )
            &&& *final(known_page_streak) == streak_after(
                *old(known_page_streak),
                ids.len(),
                fresh,
            )
            &&& texts(lines@) == if known_end {
                seq![
                    read_line(page as nat, ids.len(), fresh, result.total_results),
                    known_line(page as nat, *final(known_page_streak) as nat),
                ]
            } else {
                seq![read_line(page as nat, ids.len(), fresh, result.total_results)]
            }
        }),
        distinct_keys(old(state)@) ==> distinct_keys(final(state)@),
        *final(pauses) == after_fetch(*old(pauses)),
        final(pauses).well_formed(),
{
    pauses.on_fetch();
    let key: Option<String> = Some(search_key.to_owned());
    let count: usize = result.ids.len();
    let fresh: usize = state.enqueue_items(&key, Some(page), &result.ids, now);
    let mut known_end: bool = false;
    if count > 0 {
        if fresh == 0 {
            *known_page_streak = *known_page_streak + 1;
            known_end = match setup.stop_after_known_pages {
                Some(limit) => *known_page_streak >= limit,
                None => false,
            };
        } else {
            *known_page_streak = 0;
        }
    }
    let too_far = match setup.last_page {
        Some(last) => page + 1 > last,
        None => false,
    };
    let next_page: Option<u64> = if count == 0 || known_end || too_far {
        None
    } else {
        Some(page + 1)
    };
    state.complete_search_page(
        &CompletedSearchPage {
            search_key,
            page,
            ids: &result.ids,
            total_results: result.total_results,
            params_json,
            next_page,
        },
        now,
    );
    let mut lines: Vec<String> = Vec::new();
    lines.push(page_line(page, count, fresh, result.total_results));
    if known_end {
        lines.push(known_end_line(page, *known_page_streak));
    }
    assert(texts(lines@) =~= if known_end {
        seq![
            read_line(page as nat, count as nat, fresh as int, result.total_results),
            known_line(page as nat, *known_page_streak as nat),
        ]
    } else {
        seq![read_line(page as nat, count as nat, fresh as int, result.total_results)]
    });
    lines
}

/// The line on a search page that could not be read.
pub open spec fn page_failure_line(
    page: nat,
    action: FailureAction,
    message: Seq<char>,
) -> Seq<char> {
    match action {
        FailureAction::DeferTransient => "deferred search page "@ + decimal(page)
            + " after transient error: "@ + message,
        FailureAction::DeferBlocked => "deferred search page "@ + decimal(page)
            + " after likely HTTP 403 block: "@ + message,
        _ => "failed search page "@ + decimal(page) + ": "@ + message,
    }
}

fn failed_page_line(page: u64, action: FailureAction, message: &str) -> (result: String)
    ensures
        result@ == page_failure_line(page as nat, action, message@),
{
    let page_text = decimal_text(page);
    let (start, end) = match action {
        FailureAction::DeferTransient => ("deferred search page ", " after transient error: "),
        FailureAction::DeferBlocked => ("deferred search page ", " after likely HTTP 403 block: "),
        _ => ("failed search page ", ": "),
    };
    let mut out: String = start.to_owned();
    out.append(&page_text);
    out.append(end);
    out.append(message);
    out
}

/// What happens to a search page that could not be read.
pub open spec fn page_failure_event(action: FailureAction, error: Seq<char>) -> PageEventView {
    match action {
        FailureAction::DeferTransient => PageEventView::Defer { error },
        FailureAction::DeferBlocked => PageEventView::Defer { error },
        _ => PageEventView::Fail { error },
    }
}

/// A page of a stream could not be read: decides what becomes of it, and sees to the workers and
/// the pauses; gives the lines on this.
pub fn page_failed(
    state: &mut CrawlState,
    workers: &mut WorkerControl,
    pauses: &mut PauseControl,
    search_key: &str,
    page: u64,
    failure: &FetchFailure,
    now: i64,
) -> (lines: Vec<String>)
    requires
        old(workers).well_formed(),
        old(pauses).well_formed(),
        old(pauses).transient_errors < u64::MAX,
    ensures
        ({
            let action = page_failure_action(*old(pauses), failure.status);
            &&& final(state)@ == state_page(
                old(state)@,
                search_key@,
                page,
                page_failure_event(action, failure.message@),
                now,
            )
            &&& texts(lines@) == failure_lines(
                action,
                page_failure_line(page as nat, action, failure.message@),
                failure_messages(
                    *old(workers),
                    *old(pauses),
                    "search discovery"@,
                    failure.status,
                    now,
                ),
            )
        }),
        distinct_keys(old(state)@) ==> distinct_keys(final(state)@),
        *final(pauses) == after_failure(*old(pauses), failure.status, now),
        *final(workers) == workers_after_failure(
            *old(workers),
            *old(pauses),
            failure.status,
            false,
        ),
        final(workers).well_formed(),
        final(pauses).well_formed(),
{
    let (action, messages) = see_to_failure(
        workers,
        pauses,
        "search discovery",
        failure.status,
        false,
        now,
    );
    match action {
        FailureAction::DeferTransient => {
            state.defer_search_page_after_transient_error(search_key, page, &failure.message, now);
        },
        FailureAction::DeferBlocked => {
            state.defer_search_page_after_transient_error(search_key, page, &failure.message, now);
        },
        _ => {
            state.fail_search_page(search_key, page, &failure.message, now);
        },
    }
    let line = failed_page_line(page, action, &failure.message);
    with_failure_line(action, line, messages)
}

/// A page without items ends its stream, and no page beyond the limit is ever added.
pub proof fn law_streams_end(
    page: u64,
    count: nat,
    known_end: bool,
    last_page: Option<u64>,
)
    requires
        page < u64::MAX,
    ensures
        count == 0 ==> page_behind(page, count, known_end, last_page) is None,
        page_behind(page, count, known_end, last_page) matches Some(next) ==> next == page + 1
            && !beyond(next as int, last_page),
        count > 0 && !known_end && last_page is None ==> page_behind(
            page,
            count,
            known_end,
            last_page,
        ) == Some((page + 1) as u64),
{
}

/// The search streams of a crawl: all of them, those whose discovery is still to come, and the keys
/// of those that were ever queued.
#[derive(Debug)]
pub struct DiscoveryQueue {
    pub search_jobs: Vec<SearchJob>,
    pub pending: Vec<SearchJob>,
    pub queued_keys: Vec<String>,
}

/// What discovery does next in a crawl.
#[derive(Debug)]
pub enum CrawlStep {
    /// Discover a stream.
    Discover { job: SearchJob },
    /// Look for gaps in the coverage of all streams.
    Scan,
    Stop,
}

/// The keys of some search streams.
pub open spec fn job_keys(jobs: Seq<JobView>) -> Seq<Seq<char>> {
    jobs.map_values(|j: JobView| j.search_key)
}

/// The text under which the parameters of all streams are kept: those of the only stream, or a JSON
/// array of the parameters of all.
pub open spec fn jobs_meta(jobs: Seq<JobView>) -> Seq<char> {
    if jobs.len() == 1 {
        jobs[0].params_json
    } else {
        array_text(quoted_list(jobs.map_values(|j: JobView| j.params_json)))
    }
}

impl DiscoveryQueue {
    /// A queue with the streams that a crawl starts with.
    pub fn new(jobs: Vec<SearchJob>) -> (result: Self)
        ensures
            job_views(result.search_jobs@) == job_views(jobs@),
            job_views(result.pending@) == job_views(jobs@),
            texts(result.queued_keys@) == job_keys(job_views(jobs@)),
    {
        let ghost all = job_views(jobs@);
        let ghost keys = job_keys(all);
        let mut pending: Vec<SearchJob> = Vec::new();
        let mut queued_keys: Vec<String> = Vec::new();
        for i in 0..jobs.len()
            invariant
                all == job_views(jobs@),
                keys == job_keys(all),
                job_views(pending@) == all.take(i as int),
                texts(queued_keys@) == keys.take(i as int),
        {
            pending.push(jobs[i].clone());
            queued_keys.push(jobs[i].search_key.clone());
            proof {
                lemma_take_next(all, i as int);
                lemma_take_next(keys, i as int);
            }
        }
        assert(all.take(all.len() as int) == all);
        assert(keys.take(keys.len() as int) == keys);
        DiscoveryQueue { search_jobs: jobs, pending, queued_keys }
    }

    /// What discovery does next: it takes the stream that has waited longest, or looks for gaps
    /// where none waits.
    pub fn next_step(&mut self, shutdown: bool) -> (result: CrawlStep)
        ensures
            final(self).search_jobs == old(self).search_jobs,
            final(self).queued_keys == old(self).queued_keys,
            match result {
                CrawlStep::Stop => shutdown && final(self).pending == old(self).pending,
                CrawlStep::Scan => !shutdown && old(self).pending@.len() == 0
                    && final(self).pending == old(self).pending,
                CrawlStep::Discover { job } => !shutdown && old(self).pending@.len() > 0 && job
                    == old(self).pending@[0] && final(self).pending@
                    == old(self).pending@.drop_first(),
            },
    {
        if shutdown {
            return CrawlStep::Stop;
        }
        if self.pending.len() == 0 {
            return CrawlStep::Scan;
        }
        let job = self.pending.remove(0);
        assert(self.pending@ =~= old(self).pending@.drop_first());
        CrawlStep::Discover { job }
    }

    /// Adds streams to those of the crawl and to those whose discovery is still to come.
    pub fn queue_search_jobs(&mut self, new_jobs: Vec<SearchJob>)
        ensures
            job_views(final(self).search_jobs@) == job_views(old(self).search_jobs@) + job_views(
                new_jobs@,
            ),
            job_views(final(self).pending@) == job_views(old(self).pending@) + job_views(new_jobs@),
            final(self).queued_keys == old(self).queued_keys,
    {
        let ghost jobs = job_views(self.search_jobs@);
        let ghost waiting = job_views(self.pending@);
        let ghost all = job_views(new_jobs@);
        assert(jobs + all.take(0) =~= jobs);
        assert(waiting + all.take(0) =~= waiting);
        for i in 0..new_jobs.len()
            invariant
                all == job_views(new_jobs@),
                self.queued_keys == old(self).queued_keys,
                job_views(self.search_jobs@) == jobs + all.take(i as int),
                job_views(self.pending@) == waiting + all.take(i as int),
        {
            self.pending.push(new_jobs[i].clone());
            self.search_jobs.push(new_jobs[i].clone());
            proof {
                lemma_take_next(all, i as int);
                assert((jobs + all.take(i as int)).push(all[i as int]) =~= jobs + all.take(i + 1));
                assert((waiting + all.take(i as int)).push(all[i as int]) =~= waiting + all.take(
                    i + 1,
                ));
            }
        }
        assert(all.take(all.len() as int) == all);
    }

    /// Ends a look for gaps: the streams that it added are queued, and the line on them is given;
    /// without any, discovery has come to its end.
    pub fn end_scan(&mut self, new_jobs: Vec<SearchJob>) -> (line: Option<String>)
        ensures
            final(self).queued_keys == old(self).queued_keys,
            match line {
                Some(text) => new_jobs@.len() > 0 && text@ == healed_text(new_jobs@.len())
                    && job_views(final(self).search_jobs@) == job_views(old(self).search_jobs@)
                    + job_views(new_jobs@) && job_views(final(self).pending@) == job_views(
                    old(self).pending@,
                ) + job_views(new_jobs@),
                None => new_jobs@.len() == 0 && *final(self) == *old(self),
            },
    {
        if new_jobs.len() == 0 {
            return None;
        }
        let line = healed_line(new_jobs.len());
        self.queue_search_jobs(new_jobs);
        Some(line)
    }

    /// The text under which the parameters of all streams are kept.
    pub fn search_jobs_meta(&self) -> (result: String)
        ensures
            result@ == jobs_meta(job_views(self.search_jobs@)),
    {
        if self.search_jobs.len() == 1 {
            return self.search_jobs[0].params_json.clone();
        }
        let ghost all = job_views(self.search_jobs@).map_values(|j: JobView| j.params_json);
        let mut list: Vec<String> = Vec::new();
        for i in 0..self.search_jobs.len()
            invariant
                all == job_views(self.search_jobs@).map_values(|j: JobView| j.params_json),
                texts(list@) == all.take(i as int),
        {
            list.push(self.search_jobs[i].params_json.clone());
            proof {
                lemma_take_next(all, i as int);
            }
        }
        assert(all.take(all.len() as int) == all);
        text_array(&list)
    }
}

/// The line on a stream whose discovery begins.
pub open spec fn discovering_text(job: JobView) -> Seq<char> {
    "discovering search shard "@ + job.label + " ("@ + job.search_key + ")"@
}

/// The line on a stream whose discovery begins.
pub fn discovering_line(job: &SearchJob) -> (result: String)
    ensures
        result@ == discovering_text(job@),
{
    let mut out: String = "discovering search shard ".to_owned();
    out.append(&job.label);
    out.append(" (");
    out.append(&job.search_key);
    out.append(")");
    out
}

/// The line on the streams that a crawl starts with.
pub open spec fn seeded_text(count: nat) -> Seq<char> {
    "seeded "@ + decimal(count) + " search shard"@ + plural(count)
}

/// The line on the streams that a crawl starts with.
pub fn seeded_line(count: usize) -> (result: String)
    ensures
        result@ == seeded_text(count as nat),
{
    let number = decimal_text(count as u64);
    let mut out: String = "seeded ".to_owned();
    out.append(&number);
    out.append(" search shard");
    out.append(plural_ending(count));
    out
}

/// The line on the streams that a look for gaps added.
pub open spec fn healed_text(count: nat) -> Seq<char> {
    "self-healing coverage scan queued "@ + decimal(count) + " automatic overflow shard"@ + plural(
        count,
    )
}

/// The line on the streams that a look for gaps added.
pub fn healed_line(count: usize) -> (result: String)
    ensures
        result@ == healed_text(count as nat),
{
    let number = decimal_text(count as u64);
    let mut out: String = "self-healing coverage scan queued ".to_owned();
    out.append(&number);
    out.append(" automatic overflow shard");
    out.append(plural_ending(count));
    out
}

/// Adds the first pages of some streams, except those that are there.
pub fn seed_search_jobs(state: &mut CrawlState, jobs: &Vec<SearchJob>, start_page: u64, now: i64)
    ensures
        final(state)@ == seeded(old(state)@, job_views(jobs@), start_page, now),
        distinct_keys(old(state)@) ==> distinct_keys(final(state)@),
{
    let ghost before = state@;
    let ghost all = job_views(jobs@);
    for i in 0..jobs.len()
        invariant
            all == job_views(jobs@),
            state@ == seeded(before, all.take(i as int), start_page, now),
            distinct_keys(before) ==> distinct_keys(state@),
    {
        proof {
            lemma_take_next(all, i as int);
            assert(all.take(i + 1).drop_last() == all.take(i as int));
        }
        state.seed_search_page(&jobs[i].search_key, &jobs[i].params_json, start_page, now);
    }
    assert(all.take(all.len() as int) == all);
}

/// A crawl's state when its workers start: the items that were asked for are queued, and the first
/// pages of its streams are added, unless nothing is to be discovered.
pub open spec fn state_begun(
    state: StateView,
    args: CrawlArgs,
    ids: Seq<Seq<char>>,
    now: i64,
) -> StateView {
    let queued = StateView { items: with_items(state.items, ids, None, None, now), ..state };
    match planned_jobs(args) {
        Ok(jobs) => if args.no_discover {
            queued
        } else {
            seeded(queued, jobs, args.start_page, now)
        },
        Err(_) => queued,
    }
}

/// The lines on the start of a crawl.
pub open spec fn begin_lines(
    state: StateView,
    args: CrawlArgs,
    ids: Seq<Seq<char>>,
    now: i64,
) -> Seq<Seq<char>> {
    (if ids.len() == 0 {
        Seq::empty()
    } else {
        seq![
            queued_text(
                ids.len(),
                " explicit IDs ("@,
                (with_items(state.items, ids, None, None, now).len() - state.items.len()) as nat,
            ),
        ]
    }) + match planned_jobs(args) {
        Ok(jobs) => if args.no_discover {
            Seq::empty()
        } else {
            seq![seeded_text(jobs.len())]
        },
        Err(_) => Seq::empty(),
    }
}

/// Starts a crawl: queues the items that were asked for, plans the streams, and adds their first
/// pages unless nothing is to be discovered. Where the streams cannot be planned, the items stay
/// queued.
pub fn begin_crawl(state: &mut CrawlState, args: &CrawlArgs, ids: &Vec<String>, now: i64) -> (result: (
    Vec<String>,
    Result<DiscoveryQueue, String>,
))
    ensures
        final(state)@ == state_begun(old(state)@, *args, texts(ids@), now),
        distinct_keys(old(state)@) ==> distinct_keys(final(state)@),
        texts(result.0@) == begin_lines(old(state)@, *args, texts(ids@), now),
        match (result.1, planned_jobs(*args)) {
            (Ok(queue), Ok(jobs)) => job_views(queue.search_jobs@) == jobs && job_views(
                queue.pending@,
            ) == jobs && texts(queue.queued_keys@) == job_keys(jobs),
            (Err(message), Err(text)) => message@ == text,
            _ => false,
        },
{
    let mut lines: Vec<String> = Vec::new();
    let added = state.enqueue_items(&None, None, ids, now);
    if ids.len() > 0 {
        lines.push(explicit_line(ids.len(), added));
    }
    match build_search_jobs(args) {
        Err(message) => (lines, Err(message)),
        Ok(jobs) => {
            if !args.no_discover {
                seed_search_jobs(state, &jobs, args.start_page, now);
                lines.push(seeded_line(jobs.len()));
            }
            (lines, Ok(DiscoveryQueue::new(jobs)))
        },
    }
}

/// The pages that are added stay, and each of the streams has its first page afterwards.
proof fn lemma_seeded_pages(state: StateView, jobs: Seq<JobView>, start_page: u64, now: i64)
    ensures
        seeded(state, jobs, start_page, now).items == state.items,
        forall|key: Seq<char>, page: u64|
            has_page(state.pages, key, page) ==> #[trigger] has_page(
                seeded(state, jobs, start_page, now).pages,
                key,
                page,
            ),
        forall|k: int|
            0 <= k < jobs.len() ==> has_page(
                seeded(state, jobs, start_page, now).pages,
                (#[trigger] jobs[k]).search_key,
                start_page,
            ),
    decreases jobs.len(),
{
    if jobs.len() > 0 {
        let last = jobs.last();
        let before = seeded(state, jobs.drop_last(), start_page, now).pages;
        let page = new_page(last.search_key, start_page, last.params_json, now);
        let after = with_page(before, page);
        lemma_seeded_pages(state, jobs.drop_last(), start_page, now);
        law_seeding_is_idempotent(before, page, page);
        assert forall|key: Seq<char>, number: u64|
            has_page(before, key, number) implies #[trigger] has_page(after, key, number) by {
            let i = choose|i: int|
                0 <= i < before.len() && (#[trigger] before[i]).search_key == key && before[i].page
                    == number;
            assert(after[i] == before[i]);
        }
        assert forall|k: int| 0 <= k < jobs.len() implies has_page(
            after,
            (#[trigger] jobs[k]).search_key,
            start_page,
        ) by {
            if k < jobs.len() - 1 {
                assert(jobs.drop_last()[k] == jobs[k]);
            }
        }
    }
}

/// Streams that have their first page are not started anew.
pub proof fn lemma_seeded_again(state: StateView, jobs: Seq<JobView>, start_page: u64, now: i64)
    requires
        forall|k: int|
            0 <= k < jobs.len() ==> has_page(
                state.pages,
                (#[trigger] jobs[k]).search_key,
                start_page,
            ),
    ensures
        seeded(state, jobs, start_page, now) == state,
    decreases jobs.len(),
{
    if jobs.len() > 0 {
        assert forall|k: int| 0 <= k < jobs.len() - 1 implies has_page(
            state.pages,
            (#[trigger] jobs.drop_last()[k]).search_key,
            start_page,
        ) by {
            assert(jobs.drop_last()[k] == jobs[k]);
        }
        lemma_seeded_again(state, jobs.drop_last(), start_page, now);
        assert(has_page(state.pages, jobs[jobs.len() - 1].search_key, start_page));
    }
}

/// Starting a crawl a second time, with the same settings and items, changes nothing: what was
/// queued and read before goes on from where it stands.
pub proof fn law_starting_again_changes_nothing(
    state: StateView,
    args: CrawlArgs,
    ids: Seq<Seq<char>>,
    now: i64,
    later: i64,
)
    ensures
        state_begun(state_begun(state, args, ids, now), args, ids, later) == state_begun(
            state,
            args,
            ids,
            now,
        ),
{
    law_enqueue_is_idempotent(state.items, ids, None, None, now, later);
    let queued = StateView { items: with_items(state.items, ids, None, None, now), ..state };
    if let Ok(jobs) = planned_jobs(args) {
        lemma_seeded_pages(queued, jobs, args.start_page, now);
        lemma_seeded_again(
            seeded(queued, jobs, args.start_page, now),
            jobs,
            args.start_page,
            later,
        );
    }
}

/// A page with nothing new makes the streak of known pages longer, a page with something new ends it,
/// and an empty page leaves it.
pub proof fn law_streak(streak: u64, count: nat, fresh: int, limit: u64)
    requires
        streak < u64::MAX,
        count > 0,
    ensures
        streak_after(streak, 0, fresh) == streak,
        streak_after(streak, count, 0) == streak + 1,
        fresh > 0 ==> streak_after(streak, count, fresh) == 0,
        known_pages_end(streak, count, 0, Some(limit)) <==> streak_after(streak, count, 0)
            >= limit,
        fresh > 0 ==> !known_pages_end(streak, count, fresh, Some(limit)),
        !known_pages_end(streak, 0, fresh, Some(limit)),
        !known_pages_end(streak, count, fresh, None),
{
}

/// A stream goes on behind a page that listed something, unless it ran into known pages or its last
/// page is reached.
pub proof fn law_stream_goes_on(page: u64, count: nat, known_end: bool, last: u64)
    requires
        page < u64::MAX,
        count > 0,
    ensures
        page_behind(page, count, known_end, Some(last)) is Some <==> !known_end && page < last,
        page_behind(page, count, true, None) is None,
        page_behind(page, 0, known_end, None) is None,
{
}

/// Reading a page completes it, enqueues what it listed as first seen there, and has the following
/// page wait where the stream goes on.
pub proof fn law_page_is_read(
    state: StateView,
    search_key: Seq<char>,
    params_json: Seq<char>,
    page: u64,
    ids: Seq<Seq<char>>,
    total_results: Option<u64>,
    next_page: Option<u64>,
    now: i64,
    i: int,
    k: int,
)
    requires
        ids.len() <= u64::MAX,
        0 <= i < state.pages.len(),
        state.pages[i].search_key == search_key,
        state.pages[i].page == page,
        0 <= k < ids.len(),
    ensures
        ({
            let after = state_read(
                state,
                search_key,
                params_json,
                page,
                ids,
                total_results,
                next_page,
                now,
            );
            &&& after.pages[i].status == "done"@
            &&& after.pages[i].result_count == Some(ids.len() as u64)
            &&& after.pages[i].total_results == total_results
            &&& next_page matches Some(next) ==> has_page(after.pages, search_key, next)
            &&& has_item(after.items, ids[k])
            &&& !has_item(state.items, ids[k]) ==> exists|m: int|
                #![trigger after.items[m]]
                state.items.len() <= m < after.items.len() && after.items[m].id == ids[k]
                    && after.items[m].first_seen_search_key == Some(search_key)
                    && after.items[m].first_seen_page == Some(page) && after.items[m].status
                    == "pending"@
            &&& after.members.contains((MemberView { search_key, page, id: ids[k] }))
            &&& after.records == state.records
        }),
{
    let items = with_items(state.items, ids, Some(search_key), Some(page), now);
    let queued = StateView { items, ..state };
    law_completed_page(
        queued,
        search_key,
        page,
        ids,
        total_results,
        params_json,
        next_page,
        now,
        i,
    );
    law_enqueue_is_idempotent(state.items, ids, Some(search_key), Some(page), now, now);
    assert(has_item(items, ids[k]));
    if !has_item(state.items, ids[k]) {
        let m = choose|m: int| 0 <= m < items.len() && (#[trigger] items[m]).id == ids[k];
        lemma_items_only_grow(state.items, ids, Some(search_key), Some(page), now);
        if m < state.items.len() {
            assert(items.take(state.items.len() as int)[m] == items[m]);
            assert(state.items[m].id == ids[k]);
        }
        law_enqueued_items(state.items, ids, Some(search_key), Some(page), now, m);
        assert(state_read(
            state,
            search_key,
            params_json,
            page,
            ids,
            total_results,
            next_page,
            now,
        ).items[m] == items[m]);
    }
}

/// A page is fetched only while nothing pauses the crawl, the backlog has room and the last page is
/// not passed; it is then in progress. A stop without a shutdown means that no page is left to fetch.
pub proof fn law_discovery_steps(
    before: StateView,
    after: StateView,
    pauses: PauseControl,
    search_key: Seq<char>,
    setup: DiscoverySetup,
    shutdown: bool,
    now: i64,
    step: DiscoveryStep,
)
    requires
        discovers(before, after, pauses, search_key, setup, shutdown, now, step),
    ensures
        step matches DiscoveryStep::Fetch { page } ==> !shutdown && (setup.last_page matches Some(
            last,
        ) ==> page <= last) && exists|i: int|
            #![trigger before.pages[i]]
            0 <= i < before.pages.len() && before.pages[i].search_key == search_key
                && before.pages[i].page == page && before.pages[i].attempts < setup.max_attempts
                && after.pages[i].status == "in_progress"@,
        !(step is Fetch) ==> after == before,
        shutdown ==> step is Stop,
        step matches DiscoveryStep::SleepMillis { millis } ==> millis == 250 && items_counted(
            before.items,
            ItemSelectionView::Waiting { max_attempts: setup.max_attempts },
        ) >= setup.backlog_target,
        step is Stop && !shutdown && setup.last_page is None ==> forall|i: int|
            0 <= i < before.pages.len() && (#[trigger] before.pages[i]).search_key == search_key && (
            before.pages[i].status == "pending"@ || before.pages[i].status == "failed"@)
                ==> before.pages[i].attempts >= setup.max_attempts,
{
    let which = PageSelectionView::Waiting { search_key, max_attempts: setup.max_attempts };
    match step {
        DiscoveryStep::Fetch { page } => {
            let i = choose|i: int|
                #[trigger] is_next_page(before.pages, i, search_key, setup.max_attempts)
                    && before.pages[i].page == page;
            assert(before.pages[i].search_key == search_key);
            assert(after.pages[i].status == "in_progress"@);
        },
        DiscoveryStep::Stop => {
            if !shutdown && setup.last_page is None {
                lemma_count_zero(before.pages, |r: PageView| page_selected(r, which));
                assert forall|i: int|
                    0 <= i < before.pages.len() && (#[trigger] before.pages[i]).search_key
                        == search_key && (before.pages[i].status == "pending"@
                        || before.pages[i].status == "failed"@) implies before.pages[i].attempts
                    >= setup.max_attempts by {
                    assert(!page_selected(before.pages[i], which));
                }
            }
        },
        _ => {},
    }
}

/// What a crawl starts with: every identifier given is enqueued, every stream that is planned has its
/// first page, and nothing is searched where discovery is off.
pub proof fn law_crawl_begins(
    state: StateView,
    args: CrawlArgs,
    ids: Seq<Seq<char>>,
    now: i64,
    k: int,
)
    requires
        0 <= k < ids.len(),
    ensures
        has_item(state_begun(state, args, ids, now).items, ids[k]),
        args.no_discover ==> state_begun(state, args, ids, now).pages == state.pages,
        state_begun(state, args, ids, now).records == state.records,
        state_begun(state, args, ids, now).members == state.members,
{
    law_enqueue_is_idempotent(state.items, ids, None, None, now, now);
    match planned_jobs(args) {
        Ok(jobs) => {
            let queued = StateView { items: with_items(state.items, ids, None, None, now), ..state };
            lemma_seeding_is_of_pages(queued, jobs, args.start_page, now);
        },
        Err(_) => {},
    }
}

proof fn lemma_seeding_is_of_pages(
    state: StateView,
    jobs: Seq<JobView>,
    start_page: u64,
    now: i64,
)
    ensures
        seeded(state, jobs, start_page, now).items == state.items,
        seeded(state, jobs, start_page, now).records == state.records,
        seeded(state, jobs, start_page, now).members == state.members,
    decreases jobs.len(),
{
    if jobs.len() > 0 {
        lemma_seeding_is_of_pages(state, jobs.drop_last(), start_page, now);
    }
}

/// A failed page waits again where its failure is put down to the connection or to a block, and
/// otherwise has failed; either way its error is kept.
pub proof fn law_failed_page(row: PageView, error: Seq<char>, now: i64)
    ensures
        page_after(
            row,
            page_failure_event(FailureAction::DeferTransient, error),
            now,
        ).status == "pending"@,
        page_after(row, page_failure_event(FailureAction::DeferBlocked, error), now).status
            == "pending"@,
        page_after(row, page_failure_event(FailureAction::Missing, error), now).status
            == "failed"@,
        page_after(row, page_failure_event(FailureAction::Fail, error), now).status == "failed"@,
        forall|action: FailureAction|
            (#[trigger] page_after(row, page_failure_event(action, error), now)).last_error
                == Some(error),
{
}

/// One stream is noted by its parameters, several by the list of theirs.
pub proof fn law_jobs_meta(jobs: Seq<JobView>)
    ensures
        jobs.len() == 1 ==> jobs_meta(jobs) == jobs[0].params_json,
        jobs.len() != 1 ==> jobs_meta(jobs) == array_text(
            quoted_list(jobs.map_values(|j: JobView| j.params_json)),
        ),
{
}

/// The line on a page that was read tells each of its numbers under its name.
pub proof fn law_read_line(page: nat, count: nat, fresh: int, total: Option<u64>)
    ensures
        has_text(read_line(page, count, fresh, total), "search page "@ + decimal(page) + ": "@),
        has_text(read_line(page, count, fresh, total), ": "@ + decimal(count) + " IDs ("@),
        has_text(read_line(page, count, fresh, total), " IDs ("@ + decimal(fresh as nat) + " new), total="@),
        has_text(read_line(page, count, fresh, total), " new), total="@ + option_decimal(total) + Seq::empty()),
{
    broadcast use lemma_stays_inside;

    assert(read_line(page, count, fresh, total) + Seq::empty() =~= read_line(
        page,
        count,
        fresh,
        total,
    ));
    let s0 = Seq::<char>::empty();
    lemma_stands_last(s0, "search page "@, decimal(page), ": "@);
    let s2 = s0 + "search page "@ + decimal(page);
    lemma_stands_last(s2, ": "@, decimal(count), " IDs ("@);
    let s4 = s2 + ": "@ + decimal(count);
    lemma_stands_last(s4, " IDs ("@, decimal(fresh as nat), " new), total="@);
    let s6 = s4 + " IDs ("@ + decimal(fresh as nat);
    lemma_stands_last(s6, " new), total="@, option_decimal(total), Seq::empty());
}

proof fn lemma_items_only_grow(
    rows: Seq<ItemView>,
    ids: Seq<Seq<char>>,
    search_key: Option<Seq<char>>,
    page: Option<u64>,
    now: i64,
)
    ensures
        rows.len() <= with_items(rows, ids, search_key, page, now).len(),
    decreases ids.len(),
{
    if ids.len() > 0 {
        lemma_items_only_grow(rows, ids.drop_last(), search_key, page, now);
    }
}

/// The backlog is full where as many items wait as it holds, unless no item is to be fetched at all.
pub proof fn law_backlog_is_full(state: StateView, setup: DiscoverySetup)
    ensures
        backlog_is_full(state, setup) ==> items_counted(
            state.items,
            ItemSelectionView::Waiting { max_attempts: setup.max_attempts },
        ) >= setup.backlog_target,
        setup.max_items == Some(0u64) ==> !backlog_is_full(state, setup),
        setup.max_items is None && items_counted(
            state.items,
            ItemSelectionView::Waiting { max_attempts: setup.max_attempts },
        ) >= setup.backlog_target ==> backlog_is_full(state, setup),
{
}

/// The lines on streams and pages name them and tell what became of them.
pub proof fn law_discovery_lines(job: JobView, page: nat, streak: nat, message: Seq<char>)
    ensures
        discovering_text(job) == "discovering search shard "@ + job.label + " ("@ + job.search_key
            + ")"@,
        known_line(page, streak) == "search page "@ + decimal(page) + ": stopping shard after "@
            + decimal(streak) + " consecutive non-empty page(s) with no new IDs"@,
        page_failure_line(page, FailureAction::DeferTransient, message) == "deferred search page "@
            + decimal(page) + " after transient error: "@ + message,
        page_failure_line(page, FailureAction::DeferBlocked, message) == "deferred search page "@
            + decimal(page) + " after likely HTTP 403 block: "@ + message,
        page_failure_line(page, FailureAction::Fail, message) == "failed search page "@ + decimal(
            page,
        ) + ": "@ + message,
        seeded_text(1) == "seeded "@ + decimal(1) + " search shard"@ + ""@,
        page != 1 ==> seeded_text(page) == "seeded "@ + decimal(page) + " search shard"@ + "s"@,
        page != 1 ==> healed_text(page) == "self-healing coverage scan queued "@ + decimal(page)
            + " automatic overflow shard"@ + "s"@,
{
}

/// As many items are new as rows were added, which is at most as many as were listed.
pub proof fn law_new_items(
    state: StateView,
    search_key: Seq<char>,
    page: u64,
    ids: Seq<Seq<char>>,
    now: i64,
)
    ensures
        0 <= new_items(state, search_key, page, ids, now) <= ids.len(),
        (forall|k: int| 0 <= k < ids.len() ==> has_item(state.items, #[trigger] ids[k]))
            ==> new_items(state, search_key, page, ids, now) == 0,
    decreases ids.len(),
{
    lemma_items_only_grow(state.items, ids, Some(search_key), Some(page), now);
    if ids.len() > 0 {
        law_new_items(state, search_key, page, ids.drop_last(), now);
    }
    if forall|k: int| 0 <= k < ids.len() ==> has_item(state.items, #[trigger] ids[k]) {
        law_known_items_are_skipped(state.items, ids, Some(search_key), Some(page), now);
    }
}

/// A stream is discovered under the limits of the crawl and its own: it has as many pages as the
/// smaller of both allows, and as many attempts as the crawl has.
pub proof fn law_setup(args: CrawlArgs, job: JobView)
    ensures
        ({
            let setup = setup_for(args, job);
            &&& setup.max_attempts == args.max_attempts
            &&& setup.max_items == args.max_items
            &&& setup.stop_after_known_pages == job.stop_after_known_pages
            &&& args.max_pages is None && job.max_pages is None ==> setup.last_page is None
            &&& args.max_pages matches Some(n) ==> (args.start_page + n <= u64::MAX && n > 0 ==> (
            setup.last_page matches Some(last) && last < args.start_page + n))
            &&& job.max_pages matches Some(n) ==> (args.start_page + n <= u64::MAX && n > 0 ==> (
            setup.last_page matches Some(last) && last < args.start_page + n))
            &&& args.max_pages is None ==> (job.max_pages matches Some(n) ==> (args.start_page + n
                <= u64::MAX && n > 0 ==> (setup.last_page matches Some(last) && last + 1
                == args.start_page + n)))
        }),
{
}

} // verus!
