use crate::numerals::{decimal, decimal_text};
use crate::views::{group_texts, opt_text, texts};
use crate::workers::{
    after_item_failure, after_transient_error, error_message, is_http_403_failure,
    is_missing_item_failure, is_transient_failure, transient, WorkerControl,
};
use vstd::prelude::*;

verus! {

broadcast use group_texts;

/// Errors in a row, and until when nothing is to be fetched.
#[derive(Debug, Clone, Copy, PartialEq, Eq)]
pub struct PauseControl {
    /// Transient errors in a row.
    pub transient_errors: u64,
    /// Refusals in a row.
    pub http_403_errors: u64,
    /// The time until which nothing is fetched.
    pub pause_until: i64,
    /// After how many transient errors in a row there is a pause, if ever.
    pub transient_threshold: Option<u64>,
    pub transient_pause_secs: u64,
    /// After how many refusals in a row there is a pause, if ever.
    pub http_403_threshold: Option<u64>,
    pub http_403_pause_secs: u64,
}

/// The end of a pause that starts now, as far as the clock goes.
pub open spec fn pause_end(now: i64, secs: u64) -> i64 {
    if now + secs > i64::MAX {
        i64::MAX
    } else {
        (now + secs) as i64
    }
}

fn end_of_pause(now: i64, secs: u64) -> (result: i64)
    ensures
        result == pause_end(now, secs),
{
    let end: i128 = now as i128 + secs as i128;
    if end > i64::MAX as i128 {
        i64::MAX
    } else {
        end as i64
    }
}

/// The later of two times.
pub open spec fn later(a: i64, b: i64) -> i64 {
    if a < b {
        b
    } else {
        a
    }
}

/// The control after something was fetched.
pub open spec fn after_fetch(c: PauseControl) -> PauseControl {
    PauseControl { transient_errors: 0, http_403_errors: 0, ..c }
}

/// The control after the latest of some transient errors in a row was seen to.
pub open spec fn after_pause_check(c: PauseControl, consecutive: u64, now: i64) -> PauseControl {
    match c.transient_threshold {
        None => c,
        Some(threshold) => if consecutive < threshold {
            c
        } else if c.transient_pause_secs == 0 {
            PauseControl { transient_errors: 0, ..c }
        } else {
            PauseControl {
                transient_errors: 0,
                pause_until: later(c.pause_until, pause_end(now, c.transient_pause_secs)),
                ..c
            }
        },
    }
}

/// The control after a refusal.
pub open spec fn after_refusal(c: PauseControl, now: i64) -> PauseControl {
    match c.http_403_threshold {
        None => c,
        Some(threshold) => if c.http_403_errors + 1 < threshold {
            PauseControl { http_403_errors: (c.http_403_errors + 1) as u64, ..c }
        } else if c.http_403_pause_secs == 0 {
            PauseControl { http_403_errors: 0, ..c }
        } else {
            PauseControl {
                http_403_errors: 0,
                pause_until: later(c.pause_until, pause_end(now, c.http_403_pause_secs)),
                ..c
            }
        },
    }
}

/// Whether a refusal is one too many, so that the site is taken to block the crawl.
pub open spec fn looks_blocked(c: PauseControl) -> bool {
    match c.http_403_threshold {
        None => false,
        Some(threshold) => c.http_403_errors + 1 >= threshold,
    }
}

/// The message on a pause after transient errors.
pub open spec fn transient_pause_message(source: Seq<char>, secs: nat, count: nat) -> Seq<char> {
    source + ": pausing for "@ + decimal(secs) + "s after "@ + decimal(count)
        + " consecutive transient errors"@
}

/// The message on a pause after refusals.
pub open spec fn refusal_pause_message(source: Seq<char>, secs: nat, count: nat) -> Seq<char> {
    source + ": pausing for "@ + decimal(secs) + "s after "@ + decimal(count)
        + " consecutive HTTP 403 errors; retrying affected rows without spending attempts"@
}

/// The message on refusals after which there is no pause.
pub open spec fn refusal_message(source: Seq<char>, count: nat) -> Seq<char> {
    source + ": HTTP 403 block threshold reached after "@ + decimal(count)
        + " consecutive HTTP 403 errors; retrying affected rows without spending attempts"@
}

/// The message on a check for a pause after transient errors, where it makes the pause longer.
pub open spec fn pause_check_message(
    c: PauseControl,
    source: Seq<char>,
    consecutive: u64,
    now: i64,
) -> Option<Seq<char>> {
    if after_pause_check(c, consecutive, now).pause_until > c.pause_until {
        Some(
            transient_pause_message(source, c.transient_pause_secs as nat, consecutive as nat),
        )
    } else {
        None
    }
}

/// The message on a refusal that is one too many.
pub open spec fn block_message(c: PauseControl, source: Seq<char>, now: i64) -> Option<Seq<char>> {
    if !looks_blocked(c) {
        None
    } else if c.http_403_pause_secs == 0 {
        Some(refusal_message(source, (c.http_403_errors + 1) as nat))
    } else if after_refusal(c, now).pause_until > c.pause_until {
        Some(
            refusal_pause_message(
                source,
                c.http_403_pause_secs as nat,
                (c.http_403_errors + 1) as nat,
            ),
        )
    } else {
        None
    }
}

/// An optional message as a list.
pub open spec fn as_list(message: Option<Seq<char>>) -> Seq<Seq<char>> {
    match message {
        Some(text) => seq![text],
        None => Seq::empty(),
    }
}

/// The messages on the workers and the pauses after something could not be fetched.
pub open spec fn failure_messages(
    workers: WorkerControl,
    c: PauseControl,
    source: Seq<char>,
    status: Option<u16>,
    now: i64,
) -> Seq<Seq<char>> {
    if transient(status) {
        as_list(error_message(workers, source, (c.transient_errors + 1) as u64)) + as_list(
            pause_check_message(
                PauseControl {
                    http_403_errors: 0,
                    transient_errors: (c.transient_errors + 1) as u64,
                    ..c
                },
                source,
                (c.transient_errors + 1) as u64,
                now,
            ),
        )
    } else if status == Some(403u16) {
        as_list(block_message(c, source, now))
    } else {
        Seq::empty()
    }
}

fn push_message(messages: &mut Vec<String>, message: Option<String>)
    ensures
        texts(final(messages)@) == texts(old(messages)@) + as_list(opt_text(message)),
{
    match message {
        Some(text) => {
            messages.push(text);
        },
        None => {},
    }
    assert(texts(messages@) =~= texts(old(messages)@) + as_list(opt_text(message)));
}

fn pause_message(source: &str, secs: u64, count: u64, reason: &str) -> (result: String)
    ensures
        result@ == source@ + ": pausing for "@ + decimal(secs as nat) + "s after "@ + decimal(
            count as nat,
        ) + reason@,
{
    let secs_text = decimal_text(secs);
    let count_text = decimal_text(count);
    let mut out: String = source.to_owned();
    out.append(": pausing for ");
    out.append(&secs_text);
    out.append("s after ");
    out.append(&count_text);
    out.append(reason);
    out
}

/// What to do about a pause.
#[derive(Debug, Clone, Copy, PartialEq, Eq)]
pub enum PauseStep {
    /// The crawl is to end.
    Stop,
    /// There is no pause.
    Go,
    /// Wait so many seconds, then ask again.
    Sleep { secs: u64 },
}

/// What to do about a pause.
pub open spec fn pause_step(pause_until: i64, shutdown: bool, now: i64) -> PauseStep {
    if shutdown {
        PauseStep::Stop
    } else if pause_until <= now {
        PauseStep::Go
    } else if pause_until - now < 5 {
        PauseStep::Sleep { secs: (pause_until - now) as u64 }
    } else {
        PauseStep::Sleep { secs: 5 }
    }
}

impl PauseControl {
    /// Fewer refusals are counted than lead to a pause.
    pub open spec fn well_formed(self) -> bool {
        self.http_403_errors == 0 || (self.http_403_threshold matches Some(threshold)
            && self.http_403_errors < threshold)
    }

    /// A control without errors and without a pause.
    pub fn new(
        transient_threshold: Option<u64>,
        transient_pause_secs: u64,
        http_403_threshold: Option<u64>,
        http_403_pause_secs: u64,
    ) -> (result: Self)
        ensures
            result == (PauseControl {
                transient_errors: 0,
                http_403_errors: 0,
                pause_until: 0,
                transient_threshold,
                transient_pause_secs,
                http_403_threshold,
                http_403_pause_secs,
            }),
            result.well_formed(),
    {
        PauseControl {
            transient_errors: 0,
            http_403_errors: 0,
            pause_until: 0,
            transient_threshold,
            transient_pause_secs,
            http_403_threshold,
            http_403_pause_secs,
        }
    }

    /// Something was fetched: errors are counted anew.
    pub fn on_fetch(&mut self)
        ensures
            *final(self) == after_fetch(*old(self)),
            final(self).well_formed(),
    {
        self.transient_errors = 0;
        self.http_403_errors = 0;
    }

    /// Starts a pause where there were too many transient errors in a row; gives a message where it
    /// makes the pause longer.
    pub fn maybe_pause_after_transient_errors(
        &mut self,
        source: &str,
        consecutive_errors: u64,
        now: i64,
    ) -> (message: Option<String>)
        ensures
            *final(self) == after_pause_check(*old(self), consecutive_errors, now),
            old(self).well_formed() ==> final(self).well_formed(),
            opt_text(message) == pause_check_message(*old(self), source@, consecutive_errors, now),
    {
        let threshold: u64 = match self.transient_threshold {
            Some(threshold) => threshold,
            None => return None,
        };
        if consecutive_errors < threshold {
            return None;
        }
        self.transient_errors = 0;
        if self.transient_pause_secs == 0 {
            return None;
        }
        let until: i64 = end_of_pause(now, self.transient_pause_secs);
        if self.pause_until < until {
            self.pause_until = until;
            Some(
                pause_message(
                    source,
                    self.transient_pause_secs,
                    consecutive_errors,
                    " consecutive transient errors",
                ),
            )
        } else {
            None
        }
    }

    /// Counts a refusal; says whether it is one too many, with a message where that starts a pause
    /// or would have.
    pub fn should_defer_after_http_403_burst(&mut self, source: &str, now: i64) -> (result: (
        bool,
        Option<String>,
    ))
        requires
            old(self).well_formed(),
        ensures
            *final(self) == after_refusal(*old(self), now),
            final(self).well_formed(),
            result.0 == looks_blocked(*old(self)),
            opt_text(result.1) == block_message(*old(self), source@, now),
    {
        let threshold: u64 = match self.http_403_threshold {
            Some(threshold) => threshold,
            None => return (false, None),
        };
        let consecutive: u64 = self.http_403_errors + 1;
        if consecutive < threshold {
            self.http_403_errors = consecutive;
            return (false, None);
        }
        self.http_403_errors = 0;
        if self.http_403_pause_secs == 0 {
            let count_text = decimal_text(consecutive);
            let mut message: String = source.to_owned();
            message.append(": HTTP 403 block threshold reached after ");
            message.append(&count_text);
            message.append(
                " consecutive HTTP 403 errors; retrying affected rows without spending attempts",
            );
            return (true, Some(message));
        }
        let until: i64 = end_of_pause(now, self.http_403_pause_secs);
        if self.pause_until < until {
            self.pause_until = until;
            let message = pause_message(
                source,
                self.http_403_pause_secs,
                consecutive,
                " consecutive HTTP 403 errors; retrying affected rows without spending attempts",
            );
            (true, Some(message))
        } else {
            (true, None)
        }
    }

    /// What to do about a pause.
    pub fn wait_for_transient_pause(&self, shutdown: bool, now: i64) -> (result: PauseStep)
        ensures
            result == pause_step(self.pause_until, shutdown, now),
    {
        if shutdown {
            return PauseStep::Stop;
        }
        if self.pause_until <= now {
            return PauseStep::Go;
        }
        let remaining: i128 = self.pause_until as i128 - now as i128;
        if remaining < 5 {
            PauseStep::Sleep { secs: remaining as u64 }
        } else {
            PauseStep::Sleep { secs: 5 }
        }
    }
}

/// What becomes of something that could not be fetched.
#[derive(Debug, Clone, Copy, PartialEq, Eq)]
pub enum FailureAction {
    /// It waits again; the error may pass by itself.
    DeferTransient,
    /// It waits again; the site seems to block the crawl.
    DeferBlocked,
    /// The site does not have it.
    Missing,
    /// It failed.
    Fail,
}

/// What becomes of an item that could not be fetched.
pub open spec fn item_failure_action(c: PauseControl, status: Option<u16>) -> FailureAction {
    if transient(status) {
        FailureAction::DeferTransient
    } else if status == Some(403u16) && looks_blocked(c) {
        FailureAction::DeferBlocked
    } else if status == Some(404u16) {
        FailureAction::Missing
    } else {
        FailureAction::Fail
    }
}

/// What becomes of a search page that could not be read.
pub open spec fn page_failure_action(c: PauseControl, status: Option<u16>) -> FailureAction {
    if transient(status) {
        FailureAction::DeferTransient
    } else if status == Some(403u16) && looks_blocked(c) {
        FailureAction::DeferBlocked
    } else {
        FailureAction::Fail
    }
}

/// The control after something could not be fetched.
pub open spec fn after_failure(c: PauseControl, status: Option<u16>, now: i64) -> PauseControl {
    if transient(status) {
        after_pause_check(
            PauseControl {
                http_403_errors: 0,
                transient_errors: (c.transient_errors + 1) as u64,
                ..c
            },
            (c.transient_errors + 1) as u64,
            now,
        )
    } else if status == Some(403u16) {
        after_refusal(c, now)
    } else {
        PauseControl { http_403_errors: 0, ..c }
    }
}

/// The workers after something could not be fetched.
pub open spec fn workers_after_failure(
    workers: WorkerControl,
    c: PauseControl,
    status: Option<u16>,
    item: bool,
) -> WorkerControl {
    if transient(status) {
        after_transient_error(workers, (c.transient_errors + 1) as u64)
    } else if item && item_failure_action(c, status) == FailureAction::Fail {
        after_item_failure(workers)
    } else {
        workers
    }
}

/// Decides what becomes of something that could not be fetched, an item or a search page, and sees
/// to the workers and the pauses; gives the messages on these.
pub fn see_to_failure(
    workers: &mut WorkerControl,
    pauses: &mut PauseControl,
    source: &str,
    status: Option<u16>,
    item: bool,
    now: i64,
) -> (result: (FailureAction, Vec<String>))
    requires
        old(workers).well_formed(),
        old(pauses).well_formed(),
        old(pauses).transient_errors < u64::MAX,
    ensures
        result.0 == if item {
            item_failure_action(*old(pauses), status)
        } else {
            page_failure_action(*old(pauses), status)
        },
        texts(result.1@) == failure_messages(*old(workers), *old(pauses), source@, status, now),
        *final(pauses) == after_failure(*old(pauses), status, now),
        *final(workers) == workers_after_failure(*old(workers), *old(pauses), status, item),
        final(workers).well_formed(),
        final(pauses).well_formed(),
{
    let mut messages: Vec<String> = Vec::new();
    if is_transient_failure(status) {
        pauses.http_403_errors = 0;
        let consecutive: u64 = pauses.transient_errors + 1;
        pauses.transient_errors = consecutive;
        let changed = workers.on_transient_error(source, consecutive);
        push_message(&mut messages, changed);
        let paused = pauses.maybe_pause_after_transient_errors(source, consecutive, now);
        push_message(&mut messages, paused);
        return (FailureAction::DeferTransient, messages);
    }
    if is_http_403_failure(status) {
        let (blocked, message) = pauses.should_defer_after_http_403_burst(source, now);
        push_message(&mut messages, message);
        if blocked {
            return (FailureAction::DeferBlocked, messages);
        }
    } else {
        pauses.http_403_errors = 0;
        if item && is_missing_item_failure(status) {
            return (FailureAction::Missing, messages);
        }
    }
    if item {
        workers.on_item_failure();
    }
    (FailureAction::Fail, messages)
}

/// Refusals in a row, fewer than are allowed, are failures; the next is taken as a block, after
/// which they are counted anew and fetching pauses for as long as is set.
pub proof fn law_refusals_lead_to_a_pause(c: PauseControl, now: i64)
    requires
        c.well_formed(),
        c.http_403_threshold is Some,
    ensures
        after_refusal(c, now).well_formed(),
        looks_blocked(c) <==> c.http_403_errors + 1 >= c.http_403_threshold.unwrap(),
        looks_blocked(c) ==> after_refusal(c, now).http_403_errors == 0 && after_refusal(
            c,
            now,
        ).pause_until >= c.pause_until,
        looks_blocked(c) && c.http_403_pause_secs > 0 ==> after_refusal(c, now).pause_until
            >= pause_end(now, c.http_403_pause_secs) >= now,
        !looks_blocked(c) ==> after_refusal(c, now).http_403_errors == c.http_403_errors + 1
            && after_refusal(c, now).pause_until == c.pause_until,
{
}

/// What pauses go by after so many refusals in a row.
pub open spec fn after_refusals(c: PauseControl, n: nat, now: i64) -> PauseControl
    decreases n,
{
    if n == 0 {
        c
    } else {
        after_refusal(after_refusals(c, (n - 1) as nat, now), now)
    }
}

/// Where no refusal came before, as many in a row as are allowed lead to a block, and fewer do not.
pub proof fn law_allowed_refusals_lead_to_a_block(c: PauseControl, n: nat, now: i64)
    requires
        c.http_403_errors == 0,
        c.http_403_threshold matches Some(threshold) && n < threshold,
    ensures
        after_refusals(c, n, now) == (PauseControl { http_403_errors: n as u64, ..c }),
        looks_blocked(after_refusals(c, n, now)) <==> n + 1 == c.http_403_threshold.unwrap(),
    decreases n,
{
    if n > 0 {
        law_allowed_refusals_lead_to_a_block(c, (n - 1) as nat, now);
    }
}

/// Whatever fails, a pause is never shortened.
pub proof fn law_pauses_are_not_shortened(c: PauseControl, status: Option<u16>, now: i64)
    requires
        c.transient_errors < u64::MAX,
    ensures
        after_failure(c, status, now).pause_until >= c.pause_until,
        after_fetch(c).pause_until == c.pause_until,
{
}

/// How long a request waits, where so much time has passed since the last one and requests are at
/// least so far apart; all in nanoseconds.
pub fn throttle(elapsed: Option<u128>, delay: u128) -> (wait: u128)
    ensures
        wait == match elapsed {
            Some(passed) => if passed < delay {
                (delay - passed) as u128
            } else {
                0
            },
            None => 0,
        },
{
    match elapsed {
        Some(passed) => {
            if passed < delay {
                delay - passed
            } else {
                0
            }
        },
        None => 0,
    }
}

/// A fetch ends both streaks of errors and changes nothing else.
pub proof fn law_fetch_ends_streaks(c: PauseControl)
    ensures
        after_fetch(c).transient_errors == 0,
        after_fetch(c).http_403_errors == 0,
        after_fetch(c).transient_threshold == c.transient_threshold,
        after_fetch(c).http_403_threshold == c.http_403_threshold,
        after_fetch(c).transient_pause_secs == c.transient_pause_secs,
        after_fetch(c).http_403_pause_secs == c.http_403_pause_secs,
        looks_blocked(after_fetch(c)) <==> (c.http_403_threshold matches Some(threshold)
            && threshold <= 1),
{
}

/// Errors of the connection lead to a pause once there are as many in a row as allowed, and the
/// count then starts again; fewer only count.
pub proof fn law_transient_errors_lead_to_a_pause(c: PauseControl, status: Option<u16>, now: i64)
    requires
        transient(status),
        c.transient_errors < u64::MAX,
    ensures
        ({
            let after = after_failure(c, status, now);
            let count = c.transient_errors + 1;
            &&& after.http_403_errors == 0
            &&& c.transient_threshold is None ==> after.transient_errors == count
                && after.pause_until == c.pause_until
            &&& c.transient_threshold matches Some(threshold) ==> {
                &&& count < threshold ==> after.transient_errors == count && after.pause_until
                    == c.pause_until
                &&& count >= threshold ==> after.transient_errors == 0
                &&& count >= threshold && c.transient_pause_secs == 0 ==> after.pause_until
                    == c.pause_until
                &&& count >= threshold && c.transient_pause_secs > 0 && now
                    + c.transient_pause_secs <= i64::MAX ==> after.pause_until >= now
                    + c.transient_pause_secs && (after.pause_until == c.pause_until
                    || after.pause_until == now + c.transient_pause_secs)
            }
        }),
{
}

/// A refusal that is one too many pauses the crawl for as long as set for refusals, from now on.
pub proof fn law_block_pauses(c: PauseControl, now: i64)
    requires
        looks_blocked(c),
        now + c.http_403_pause_secs <= i64::MAX,
        c.http_403_pause_secs > 0,
        c.pause_until <= now,
    ensures
        after_failure(c, Some(403u16), now).pause_until == now + c.http_403_pause_secs,
        after_failure(c, Some(403u16), now).http_403_errors == 0,
        after_failure(c, Some(403u16), now).transient_errors == c.transient_errors,
{
}

/// Any other failure ends the streak of refusals and starts no pause.
pub proof fn law_other_failures(c: PauseControl, status: Option<u16>, now: i64)
    requires
        !transient(status),
        status != Some(403u16),
    ensures
        after_failure(c, status, now).http_403_errors == 0,
        after_failure(c, status, now).transient_errors == c.transient_errors,
        after_failure(c, status, now).pause_until == c.pause_until,
{
}

/// A paused crawl sleeps until the end of the pause, no more than five seconds at a time; a shutdown
/// stops it at once.
pub proof fn law_pause_step(pause_until: i64, now: i64)
    ensures
        pause_step(pause_until, true, now) is Stop,
        pause_step(pause_until, false, now) is Go <==> pause_until <= now,
        pause_step(pause_until, false, now) matches PauseStep::Sleep { secs } ==> 1 <= secs <= 5
            && now + secs <= pause_until && (secs < 5 ==> now + secs == pause_until),
        !(pause_step(pause_until, false, now) is Stop),
{
}

/// What is done about a failure: an error of the connection and a refusal that looks like a block are
/// tried again, an item that is not found is missing, and all else has failed.
pub proof fn law_failure_actions(c: PauseControl, status: Option<u16>)
    ensures
        transient(status) ==> item_failure_action(c, status) is DeferTransient
            && page_failure_action(c, status) is DeferTransient,
        !transient(Some(403u16)) && looks_blocked(c) ==> item_failure_action(c, Some(403u16))
            is DeferBlocked && page_failure_action(c, Some(403u16)) is DeferBlocked,
        !transient(Some(403u16)) && !looks_blocked(c) ==> item_failure_action(c, Some(403u16))
            is Fail && page_failure_action(c, Some(403u16)) is Fail,
        !transient(Some(404u16)) ==> item_failure_action(c, Some(404u16)) is Missing
            && page_failure_action(c, Some(404u16)) is Fail,
        !transient(status) && status != Some(403u16) && status != Some(404u16)
            ==> item_failure_action(c, status) is Fail && page_failure_action(c, status) is Fail,
{
}

/// The workers are lowered by errors of the connection alone; a failure of an item that is not put
/// down to a block ends their streak of successes, and a failure of a page changes nothing.
pub proof fn law_workers_after_failure(
    workers: WorkerControl,
    c: PauseControl,
    status: Option<u16>,
    item: bool,
)
    requires
        c.transient_errors < u64::MAX,
    ensures
        ({
            let after = workers_after_failure(workers, c, status, item);
            &&& !transient(status) ==> after.active_workers == workers.active_workers
            &&& transient(status) ==> after == after_transient_error(
                workers,
                (c.transient_errors + 1) as u64,
            )
            &&& !transient(status) && !item ==> after == workers
            &&& !transient(status) && item && (status == Some(404u16) || (status == Some(403u16)
                && looks_blocked(c))) ==> after == workers
            &&& !transient(status) && item && status != Some(404u16) && status != Some(403u16)
                && workers.enabled ==> after.stable_successes == 0
        }),
{
}

/// A pause that begins is told with how long it takes and after how many errors; so is a block, even
/// where it leads to no pause. Nothing else is told of a failure but a change of the workers.
pub proof fn law_failure_messages(
    workers: WorkerControl,
    c: PauseControl,
    source: Seq<char>,
    status: Option<u16>,
    now: i64,
)
    requires
        c.transient_errors < u64::MAX,
    ensures
        ({
            let messages = failure_messages(workers, c, source, status, now);
            let count = (c.transient_errors + 1) as nat;
            let refusals = (c.http_403_errors + 1) as nat;
            let paused = after_failure(c, status, now).pause_until > c.pause_until;
            &&& transient(status) && paused ==> messages.last() == source + ": pausing for "@
                + decimal(c.transient_pause_secs as nat) + "s after "@ + decimal(count)
                + " consecutive transient errors"@
            &&& status == Some(403u16) && !looks_blocked(c) ==> messages.len() == 0
            &&& status == Some(403u16) && looks_blocked(c) && c.http_403_pause_secs > 0 && paused
                ==> messages == seq![
                source + ": pausing for "@ + decimal(c.http_403_pause_secs as nat) + "s after "@
                    + decimal(refusals)
                    + " consecutive HTTP 403 errors; retrying affected rows without spending attempts"@,
            ]
            &&& status == Some(403u16) && looks_blocked(c) && c.http_403_pause_secs == 0
                ==> messages == seq![
                source + ": HTTP 403 block threshold reached after "@ + decimal(refusals)
                    + " consecutive HTTP 403 errors; retrying affected rows without spending attempts"@,
            ]
            &&& !transient(status) && status != Some(403u16) ==> messages.len() == 0
        }),
{
}

} // verus!
