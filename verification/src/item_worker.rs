use crate::items::{is_next, item_after, items_counted, ItemEventView, ItemSelectionView, ItemView};
use crate::model::FetchFailure;
use crate::numerals::decimal;
use crate::pauses::{
    after_failure, after_fetch, as_list, failure_messages, item_failure_action, pause_step,
    see_to_failure, workers_after_failure, FailureAction, PauseControl, PauseStep,
};
use crate::state::{
    distinct_keys, state_item, state_saved, CrawlState, RecordView, StateView,
};
use crate::views::{group_texts, texts};
use crate::workers::{
    after_success, reserve_item_slot, success_message, worker_name, worker_source, WorkerControl,
};
use vstd::prelude::*;

verus! {

broadcast use group_texts;

/// What a worker has done.
#[derive(Debug, Clone, Copy, PartialEq, Eq)]
pub struct WorkerStats {
    pub saved: u64,
    pub missing: u64,
    pub failed: u64,
    pub deferred: u64,
}

impl Default for WorkerStats {
    fn default() -> (result: Self)
        ensures
            result == (WorkerStats { saved: 0, missing: 0, failed: 0, deferred: 0 }),
    {
        WorkerStats { saved: 0, missing: 0, failed: 0, deferred: 0 }
    }
}

/// A sum within the range of the numbers that can be held.
pub open spec fn plus(a: u64, b: u64) -> u64 {
    if a + b > u64::MAX {
        u64::MAX
    } else {
        (a + b) as u64
    }
}

impl WorkerStats {
    /// What two workers have done together.
    pub fn combine(&self, other: &WorkerStats) -> (result: WorkerStats)
        ensures
            result == (WorkerStats {
                saved: plus(self.saved, other.saved),
                missing: plus(self.missing, other.missing),
                failed: plus(self.failed, other.failed),
                deferred: plus(self.deferred, other.deferred),
            }),
    {
        WorkerStats {
            saved: self.saved.saturating_add(other.saved),
            missing: self.missing.saturating_add(other.missing),
            failed: self.failed.saturating_add(other.failed),
            deferred: self.deferred.saturating_add(other.deferred),
        }
    }
}

/// What a worker does next.
#[derive(Debug)]
pub enum WorkerStep {
    Stop,
    SleepSecs { secs: u64 },
    SleepMillis { millis: u64 },
    Fetch { id: String },
}

/// What is fixed for a worker.
#[derive(Debug, Clone, Copy)]
pub struct WorkerSetup {
    pub worker_id: usize,
    pub max_attempts: u32,
    pub max_items: Option<u64>,
}

/// Whether a worker may take up an item: there is no pause, it is active, and the run may start
/// another item.
pub open spec fn may_fetch(
    workers: WorkerControl,
    pauses: PauseControl,
    started: u64,
    setup: WorkerSetup,
    shutdown: bool,
    now: i64,
) -> bool {
    &&& pause_step(pauses.pause_until, shutdown, now) == PauseStep::Go
    &&& !workers.enabled || setup.worker_id <= workers.active_workers
    &&& setup.max_items matches Some(max) ==> started < max
}

/// How many items wait for a worker.
pub open spec fn waiting(state: StateView, setup: WorkerSetup) -> nat {
    items_counted(
        state.items,
        ItemSelectionView::Waiting { max_attempts: setup.max_attempts },
    )
}

/// What a worker does next where it takes up no item.
pub open spec fn idle_step(
    state: StateView,
    workers: WorkerControl,
    pauses: PauseControl,
    setup: WorkerSetup,
    started: u64,
    shutdown: bool,
    discovery_done: bool,
    now: i64,
) -> WorkerStep {
    match pause_step(pauses.pause_until, shutdown, now) {
        PauseStep::Stop => WorkerStep::Stop,
        PauseStep::Sleep { secs } => WorkerStep::SleepSecs { secs },
        PauseStep::Go => if workers.enabled && setup.worker_id > workers.active_workers {
            if discovery_done && waiting(state, setup) == 0 {
                WorkerStep::Stop
            } else {
                WorkerStep::SleepMillis { millis: 500 }
            }
        } else if setup.max_items matches Some(max) && started >= max {
            WorkerStep::Stop
        } else if discovery_done {
            WorkerStep::Stop
        } else {
            WorkerStep::SleepMillis { millis: 250 }
        },
    }
}

/// Whether a worker may do this next, and what becomes of the state and of the count of items that
/// were started.
pub open spec fn works(
    before: StateView,
    after: StateView,
    workers: WorkerControl,
    pauses: PauseControl,
    started: u64,
    started_after: u64,
    setup: WorkerSetup,
    shutdown: bool,
    discovery_done: bool,
    now: i64,
    step: WorkerStep,
) -> bool {
    match step {
        WorkerStep::Fetch { id } => {
            &&& may_fetch(workers, pauses, started, setup, shutdown, now)
            &&& exists|i: int|
                #[trigger] is_next(before.items, i, setup.max_attempts) && before.items[i].id == id@
            &&& after == state_item(before, id@, ItemEventView::Start, now)
            &&& started_after == if setup.max_items is Some {
                (started + 1) as u64
            } else {
                started
            }
        },
        _ => {
            &&& !may_fetch(workers, pauses, started, setup, shutdown, now) || waiting(
                before,
                setup,
            ) == 0
            &&& step == idle_step(
                before,
                workers,
                pauses,
                setup,
                started,
                shutdown,
                discovery_done,
                now,
            )
            &&& after == before
            &&& started_after == started
        },
    }
}

/// Decides what a worker does next, and takes up the item that it is to fetch.
pub fn worker_step(
    state: &mut CrawlState,
    workers: &WorkerControl,
    pauses: &PauseControl,
    started_items: &mut u64,
    setup: &WorkerSetup,
    shutdown: bool,
    discovery_done: bool,
    now: i64,
) -> (result: WorkerStep)
    ensures
        distinct_keys(old(state)@) ==> distinct_keys(final(state)@),
        works(
            old(state)@,
            final(state)@,
            *workers,
            *pauses,
            *old(started_items),
            *final(started_items),
            *setup,
            shutdown,
            discovery_done,
            now,
            result,
        ),
{
    match pauses.wait_for_transient_pause(shutdown, now) {
        PauseStep::Stop => return WorkerStep::Stop,
        PauseStep::Sleep { secs } => return WorkerStep::SleepSecs { secs },
        PauseStep::Go => {},
    }
    if !workers.should_worker_run(setup.worker_id) {
        if discovery_done && state.count_item_backlog(setup.max_attempts) == 0 {
            return WorkerStep::Stop;
        }
        return WorkerStep::SleepMillis { millis: 500 };
    }
    if !reserve_item_slot(setup.max_items, started_items) {
        return WorkerStep::Stop;
    }
    match state.claim_next_item(setup.max_attempts, now) {
        Some(item) => WorkerStep::Fetch { id: item.id },
        None => {
            if setup.max_items.is_some() {
                *started_items = *started_items - 1;
            }
            if discovery_done {
                WorkerStep::Stop
            } else {
                WorkerStep::SleepMillis { millis: 250 }
            }
        },
    }
}

/// The line on a record that was saved.
pub open spec fn saved_line(worker_id: nat, id: Seq<char>, title: Seq<char>) -> Seq<char> {
    worker_source(worker_id) + ": saved "@ + id + " | "@ + title
}

/// A record was fetched: it is saved, and errors are counted anew; gives the lines on this.
pub fn record_fetched(
    state: &mut CrawlState,
    workers: &mut WorkerControl,
    pauses: &mut PauseControl,
    stats: &mut WorkerStats,
    worker_id: usize,
    id: &str,
    title: &str,
    record_json: &str,
    fetched_at: i64,
    now: i64,
) -> (lines: Vec<String>)
    requires
        old(workers).well_formed(),
    ensures
        final(state)@ == state_saved(
            old(state)@,
            (RecordView { id: id@, json: record_json@, fetched_at }),
            now,
        ),
        distinct_keys(old(state)@) ==> distinct_keys(final(state)@),
        *final(workers) == after_success(*old(workers)),
        final(workers).well_formed(),
        *final(pauses) == after_fetch(*old(pauses)),
        final(pauses).well_formed(),
        *final(stats) == (WorkerStats { saved: plus(old(stats).saved, 1), ..*old(stats) }),
        texts(lines@) == seq![saved_line(worker_id as nat, id@, title@)] + as_list(
            success_message(*old(workers), worker_id as nat),
        ),
{
    pauses.on_fetch();
    state.save_record(id, record_json, fetched_at, now);
    stats.saved = stats.saved.saturating_add(1);
    let mut line = worker_name(worker_id);
    line.append(": saved ");
    line.append(id);
    line.append(" | ");
    line.append(title);
    let mut lines: Vec<String> = Vec::new();
    lines.push(line);
    let ghost message = success_message(*workers, worker_id as nat);
    match workers.on_success(worker_id) {
        Some(text) => {
            lines.push(text);
        },
        None => {},
    }
    assert(texts(lines@) =~= seq![saved_line(worker_id as nat, id@, title@)] + as_list(message));
    lines
}

/// The line on an item that could not be fetched.
pub open spec fn failure_line(
    worker_id: nat,
    id: Seq<char>,
    action: FailureAction,
    message: Seq<char>,
) -> Seq<char> {
    worker_source(worker_id) + match action {
        FailureAction::DeferTransient => ": deferred "@ + id + " after transient error: "@,
        FailureAction::DeferBlocked => ": deferred "@ + id + " after likely HTTP 403 block: "@,
        FailureAction::Missing => ": missing "@ + id + ": "@,
        FailureAction::Fail => ": failed "@ + id + ": "@,
    } + message
}

fn item_line(worker_id: usize, id: &str, action: FailureAction, message: &str) -> (result: String)
    ensures
        result@ == failure_line(worker_id as nat, id@, action, message@),
{
    let (start, end) = match action {
        FailureAction::DeferTransient => (": deferred ", " after transient error: "),
        FailureAction::DeferBlocked => (": deferred ", " after likely HTTP 403 block: "),
        FailureAction::Missing => (": missing ", ": "),
        FailureAction::Fail => (": failed ", ": "),
    };
    let mut what: String = start.to_owned();
    what.append(id);
    what.append(end);
    let mut out = worker_name(worker_id);
    out.append(&what);
    out.append(message);
    out
}

/// What happens to an item that could not be fetched.
pub open spec fn failure_event(
    action: FailureAction,
    error: Seq<char>,
    http_status: Option<u16>,
) -> ItemEventView {
    match action {
        FailureAction::DeferTransient => ItemEventView::Defer { error, http_status },
        FailureAction::DeferBlocked => ItemEventView::Defer { error, http_status },
        FailureAction::Missing => ItemEventView::Miss { error, http_status },
        FailureAction::Fail => ItemEventView::Fail { error, http_status },
    }
}

/// The counts after an item could not be fetched.
pub open spec fn stats_after(stats: WorkerStats, action: FailureAction) -> WorkerStats {
    match action {
        FailureAction::DeferTransient => WorkerStats { deferred: plus(stats.deferred, 1), ..stats },
        FailureAction::DeferBlocked => WorkerStats { deferred: plus(stats.deferred, 1), ..stats },
        FailureAction::Missing => WorkerStats { missing: plus(stats.missing, 1), ..stats },
        FailureAction::Fail => WorkerStats { failed: plus(stats.failed, 1), ..stats },
    }
}

/// The lines on an item that could not be fetched: what becomes of it comes first where the error
/// may pass by itself, and last otherwise.
pub open spec fn failure_lines(
    action: FailureAction,
    line: Seq<char>,
    messages: Seq<Seq<char>>,
) -> Seq<Seq<char>> {
    if action == FailureAction::DeferTransient {
        seq![line] + messages
    } else {
        messages.push(line)
    }
}

/// Puts the line on a failure among the messages that go with it.
pub fn with_failure_line(action: FailureAction, line: String, messages: Vec<String>) -> (lines: Vec<
    String,
>)
    ensures
        texts(lines@) == failure_lines(action, line@, texts(messages@)),
{
    let mut lines: Vec<String> = messages;
    match action {
        FailureAction::DeferTransient => {
            let ghost before = lines@;
            lines.insert(0, line);
            assert(texts(lines@) =~= seq![line@] + texts(before));
        },
        _ => {
            lines.push(line);
        },
    }
    lines
}

/// An item could not be fetched: decides what becomes of it, and sees to the workers and the
/// pauses; gives the lines on this.
pub fn item_failed(
    state: &mut CrawlState,
    workers: &mut WorkerControl,
    pauses: &mut PauseControl,
    stats: &mut WorkerStats,
    worker_id: usize,
    id: &str,
    failure: &FetchFailure,
    now: i64,
) -> (lines: Vec<String>)
    requires
        old(workers).well_formed(),
        old(pauses).well_formed(),
        old(pauses).transient_errors < u64::MAX,
    ensures
        ({
            let action = item_failure_action(*old(pauses), failure.status);
            &&& final(state)@ == state_item(
                old(state)@,
                id@,
                failure_event(action, failure.message@, failure.status),
                now,
            )
            &&& *final(stats) == stats_after(*old(stats), action)
            &&& texts(lines@) == failure_lines(
                action,
                failure_line(worker_id as nat, id@, action, failure.message@),
                failure_messages(
                    *old(workers),
                    *old(pauses),
                    worker_source(worker_id as nat),
                    failure.status,
                    now,
                ),
            )
        }),
        distinct_keys(old(state)@) ==> distinct_keys(final(state)@),
        *final(pauses) == after_failure(*old(pauses), failure.status, now),
        *final(workers) == workers_after_failure(*old(workers), *old(pauses), failure.status, true),
        final(workers).well_formed(),
        final(pauses).well_formed(),
{
    let source = worker_name(worker_id);
    let (action, messages) = see_to_failure(workers, pauses, &source, failure.status, true, now);
    match action {
        FailureAction::DeferTransient => {
            state.defer_item_after_transient_error(id, &failure.message, failure.status, now);
            stats.deferred = stats.deferred.saturating_add(1);
        },
        FailureAction::DeferBlocked => {
            state.defer_item_after_transient_error(id, &failure.message, failure.status, now);
            stats.deferred = stats.deferred.saturating_add(1);
        },
        FailureAction::Missing => {
            state.mark_item_missing(id, &failure.message, failure.status, now);
            stats.missing = stats.missing.saturating_add(1);
        },
        FailureAction::Fail => {
            state.fail_item(id, &failure.message, failure.status, now);
            stats.failed = stats.failed.saturating_add(1);
        },
    }
    let line = item_line(worker_id, id, action, &failure.message);
    with_failure_line(action, line, messages)
}

/// The statistics of two workers are added up, number by number.
pub proof fn law_plus(a: u64, b: u64)
    ensures
        a + b <= u64::MAX ==> plus(a, b) == a + b,
        a + b > u64::MAX ==> plus(a, b) == u64::MAX,
        plus(a, b) == plus(b, a),
        plus(a, 0) == a,
{
}

/// Each outcome counts once, under its own name.
pub proof fn law_outcomes_are_counted(stats: WorkerStats)
    requires
        stats.missing < u64::MAX,
        stats.failed < u64::MAX,
        stats.deferred < u64::MAX,
    ensures
        stats_after(stats, FailureAction::DeferTransient).deferred == stats.deferred + 1,
        stats_after(stats, FailureAction::DeferBlocked).deferred == stats.deferred + 1,
        stats_after(stats, FailureAction::Missing).missing == stats.missing + 1,
        stats_after(stats, FailureAction::Fail).failed == stats.failed + 1,
        forall|action: FailureAction|
            (#[trigger] stats_after(stats, action)).saved == stats.saved && stats_after(
                stats,
                action,
            ).missing + stats_after(stats, action).failed + stats_after(stats, action).deferred
                == stats.missing + stats.failed + stats.deferred + 1,
{
}

/// A failed item waits again where its failure is put down to the connection or to a block, is
/// missing where the site has no such item, and otherwise has failed; its error and status are kept.
pub proof fn law_failed_item(row: ItemView, error: Seq<char>, http_status: Option<u16>, now: i64)
    ensures
        item_after(
            row,
            failure_event(FailureAction::DeferTransient, error, http_status),
            now,
        ).status == "pending"@,
        item_after(
            row,
            failure_event(FailureAction::DeferBlocked, error, http_status),
            now,
        ).status == "pending"@,
        item_after(row, failure_event(FailureAction::Missing, error, http_status), now).status
            == "missing"@,
        item_after(row, failure_event(FailureAction::Fail, error, http_status), now).status
            == "failed"@,
        forall|action: FailureAction|
            (#[trigger] item_after(
                row,
                failure_event(action, error, http_status),
                now,
            )).last_error == Some(error) && item_after(
                row,
                failure_event(action, error, http_status),
                now,
            ).last_http_status == http_status,
{
}

/// A worker fetches only while nothing pauses the crawl, it is one of the active workers and the
/// limit on items is not reached; the item is then in progress. It stops where there is nothing left
/// to do, and otherwise sleeps and changes nothing.
pub proof fn law_worker_steps(
    before: StateView,
    after: StateView,
    workers: WorkerControl,
    pauses: PauseControl,
    started: u64,
    started_after: u64,
    setup: WorkerSetup,
    shutdown: bool,
    discovery_done: bool,
    now: i64,
    step: WorkerStep,
)
    requires
        works(
            before,
            after,
            workers,
            pauses,
            started,
            started_after,
            setup,
            shutdown,
            discovery_done,
            now,
            step,
        ),
    ensures
        shutdown ==> step is Stop,
        !(step is Fetch) ==> after == before && started_after == started,
        step matches WorkerStep::Fetch { id } ==> (workers.enabled ==> setup.worker_id
            <= workers.active_workers) && (setup.max_items matches Some(max) ==> started < max
            && started_after == started + 1) && (setup.max_items is None ==> started_after
            == started) && exists|i: int|
            #![trigger before.items[i]]
            0 <= i < before.items.len() && before.items[i].id == id@ && before.items[i].attempts
                < setup.max_attempts && after.items[i].status == "in_progress"@,
        step is Stop && !shutdown && !(setup.max_items matches Some(max) && started >= max)
            ==> discovery_done,
        step matches WorkerStep::SleepMillis { millis } ==> millis == if workers.enabled
            && setup.worker_id > workers.active_workers {
            500u64
        } else {
            250
        },
{
    match step {
        WorkerStep::Fetch { id } => {
            let i = choose|i: int|
                #[trigger] is_next(before.items, i, setup.max_attempts) && before.items[i].id
                    == id@;
            assert(before.items[i].id == id@);
            assert(after.items[i].status == "in_progress"@);
        },
        _ => {},
    }
}

/// The line on a failure stands before what it led to where the connection is at fault, and behind
/// it otherwise; nothing is left out.
pub proof fn law_failure_lines_are_ordered(
    action: FailureAction,
    line: Seq<char>,
    messages: Seq<Seq<char>>,
)
    ensures
        action is DeferTransient ==> failure_lines(action, line, messages)[0] == line
            && failure_lines(action, line, messages).drop_first() == messages,
        !(action is DeferTransient) ==> failure_lines(action, line, messages).last() == line
            && failure_lines(action, line, messages).drop_last() == messages,
{
    if action is DeferTransient {
        assert(failure_lines(action, line, messages).drop_first() =~= messages);
    } else {
        assert(failure_lines(action, line, messages).drop_last() =~= messages);
    }
}

/// The line on an item names the worker and the item, and tells what became of it.
pub proof fn law_item_lines(worker_id: nat, id: Seq<char>, title: Seq<char>, message: Seq<char>)
    ensures
        ({
            let worker = "worker "@ + decimal(worker_id);
            &&& saved_line(worker_id, id, title) == worker + ": saved "@ + id + " | "@ + title
            &&& failure_line(worker_id, id, FailureAction::DeferTransient, message) == worker + (
            ": deferred "@ + id + " after transient error: "@) + message
            &&& failure_line(worker_id, id, FailureAction::DeferBlocked, message) == worker + (
            ": deferred "@ + id + " after likely HTTP 403 block: "@) + message
            &&& failure_line(worker_id, id, FailureAction::Missing, message) == worker + (
            ": missing "@ + id + ": "@) + message
            &&& failure_line(worker_id, id, FailureAction::Fail, message) == worker + (": failed "@
                + id + ": "@) + message
        }),
{
}

} // verus!
