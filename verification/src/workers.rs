use crate::numerals::{decimal, decimal_text};
use crate::views::opt_text;
use vstd::prelude::*;

verus! {

/// How many item workers may run, which adapts to how the site answers.
#[derive(Debug, Clone, Copy, PartialEq, Eq)]
pub struct WorkerControl {
    pub enabled: bool,
    pub min_workers: usize,
    pub max_workers: usize,
    pub decrease_after: u64,
    pub increase_after: u64,
    pub active_workers: usize,
    pub stable_successes: u64,
}

/// The control after an item was fetched.
pub open spec fn after_success(c: WorkerControl) -> WorkerControl {
    if !c.enabled {
        c
    } else if c.stable_successes + 1 < c.increase_after {
        WorkerControl { stable_successes: (c.stable_successes + 1) as u64, ..c }
    } else {
        WorkerControl {
            stable_successes: 0,
            active_workers: if c.active_workers < c.max_workers {
                (c.active_workers + 1) as usize
            } else {
                c.active_workers
            },
            ..c
        }
    }
}

/// The control after an item failed.
pub open spec fn after_item_failure(c: WorkerControl) -> WorkerControl {
    WorkerControl {
        stable_successes: if c.enabled {
            0
        } else {
            c.stable_successes
        },
        ..c
    }
}

/// The control after the latest of some transient errors in a row.
pub open spec fn after_transient_error(c: WorkerControl, consecutive_errors: u64) -> WorkerControl {
    let failed = after_item_failure(c);
    if c.enabled && consecutive_errors != 0 && c.decrease_after != 0 && consecutive_errors
        % c.decrease_after == 0 && c.active_workers > c.min_workers {
        WorkerControl { active_workers: (c.active_workers - 1) as usize, ..failed }
    } else {
        failed
    }
}

/// The message on a change of the number of active workers.
pub open spec fn workers_message(
    source: Seq<char>,
    verb: Seq<char>,
    active: nat,
    max: nat,
    count: nat,
    reason: Seq<char>,
) -> Seq<char> {
    source + ": adaptive workers "@ + verb + " to "@ + decimal(active) + "/"@ + decimal(max)
        + " after "@ + decimal(count) + reason
}

fn change_message(
    source: &str,
    verb: &str,
    active: usize,
    max: usize,
    count: u64,
    reason: &str,
) -> (result: String)
    ensures
        result@ == workers_message(
            source@,
            verb@,
            active as nat,
            max as nat,
            count as nat,
            reason@,
        ),
{
    let active_text = decimal_text(active as u64);
    let max_text = decimal_text(max as u64);
    let count_text = decimal_text(count);
    let mut out: String = source.to_owned();
    out.append(": adaptive workers ");
    out.append(verb);
    out.append(" to ");
    out.append(&active_text);
    out.append("/");
    out.append(&max_text);
    out.append(" after ");
    out.append(&count_text);
    out.append(reason);
    out
}

/// The name under which a worker reports.
pub open spec fn worker_source(worker_id: nat) -> Seq<char> {
    "worker "@ + decimal(worker_id)
}

/// The name under which a worker reports.
pub fn worker_name(worker_id: usize) -> (result: String)
    ensures
        result@ == worker_source(worker_id as nat),
{
    let mut out: String = "worker ".to_owned();
    let number = decimal_text(worker_id as u64);
    out.append(&number);
    out
}

/// The message on a success that raises the number of active workers.
pub open spec fn success_message(c: WorkerControl, worker_id: nat) -> Option<Seq<char>> {
    if after_success(c).active_workers > c.active_workers {
        Some(
            workers_message(
                worker_source(worker_id),
                "increased"@,
                after_success(c).active_workers as nat,
                c.max_workers as nat,
                (c.stable_successes + 1) as nat,
                " successful item fetches"@,
            ),
        )
    } else {
        None
    }
}

/// The message on a transient error that lowers the number of active workers.
pub open spec fn error_message(
    c: WorkerControl,
    source: Seq<char>,
    consecutive_errors: u64,
) -> Option<Seq<char>> {
    if after_transient_error(c, consecutive_errors).active_workers < c.active_workers {
        Some(
            workers_message(
                source,
                "decreased"@,
                after_transient_error(c, consecutive_errors).active_workers as nat,
                c.max_workers as nat,
                consecutive_errors as nat,
                " consecutive transient errors"@,
            ),
        )
    } else {
        None
    }
}

impl WorkerControl {
    /// The number of active workers is within its bounds, and fewer successes are counted than
    /// raise it.
    pub open spec fn well_formed(self) -> bool {
        &&& self.active_workers <= self.max_workers
        &&& self.min_workers <= self.max_workers ==> self.min_workers <= self.active_workers
        &&& self.stable_successes == 0 || self.stable_successes < self.increase_after
    }

    /// A control with all workers active.
    pub fn new(
        enabled: bool,
        min_workers: usize,
        max_workers: usize,
        decrease_after: u64,
        increase_after: u64,
    ) -> (result: Self)
        ensures
            result == (WorkerControl {
                enabled,
                min_workers,
                max_workers,
                decrease_after,
                increase_after,
                active_workers: max_workers,
                stable_successes: 0,
            }),
            result.well_formed(),
    {
        WorkerControl {
            enabled,
            min_workers,
            max_workers,
            decrease_after,
            increase_after,
            active_workers: max_workers,
            stable_successes: 0,
        }
    }

    /// Whether the worker with this number, counted from one, may run.
    pub fn should_worker_run(&self, worker_id: usize) -> (result: bool)
        ensures
            result == (!self.enabled || worker_id <= self.active_workers),
    {
        !self.enabled || worker_id <= self.active_workers
    }

    /// An item was fetched; gives a message where that raised the number of active workers.
    pub fn on_success(&mut self, worker_id: usize) -> (message: Option<String>)
        requires
            old(self).well_formed(),
        ensures
            *final(self) == after_success(*old(self)),
            final(self).well_formed(),
            opt_text(message) == success_message(*old(self), worker_id as nat),
    {
        if !self.enabled {
            return None;
        }
        if self.stable_successes < self.increase_after && self.stable_successes + 1
            < self.increase_after {
            self.stable_successes = self.stable_successes + 1;
            return None;
        }
        let successes: u64 = self.stable_successes + 1;
        self.stable_successes = 0;
        if self.active_workers >= self.max_workers {
            return None;
        }
        self.active_workers = self.active_workers + 1;
        let source = worker_name(worker_id);
        Some(
            change_message(
                &source,
                "increased",
                self.active_workers,
                self.max_workers,
                successes,
                " successful item fetches",
            ),
        )
    }

    /// A transient error came up, the latest of some in a row; gives a message where that lowered
    /// the number of active workers.
    pub fn on_transient_error(&mut self, source: &str, consecutive_errors: u64) -> (message: Option<
        String,
    >)
        requires
            old(self).well_formed(),
        ensures
            *final(self) == after_transient_error(*old(self), consecutive_errors),
            final(self).well_formed(),
            opt_text(message) == error_message(*old(self), source@, consecutive_errors),
    {
        if !self.enabled {
            return None;
        }
        self.on_item_failure();
        if consecutive_errors == 0 || self.decrease_after == 0 || consecutive_errors
            % self.decrease_after != 0 {
            return None;
        }
        if self.active_workers <= self.min_workers {
            return None;
        }
        self.active_workers = self.active_workers - 1;
        Some(
            change_message(
                source,
                "decreased",
                self.active_workers,
                self.max_workers,
                consecutive_errors,
                " consecutive transient errors",
            ),
        )
    }

    /// An item failed; successes are counted anew.
    pub fn on_item_failure(&mut self)
        ensures
            *final(self) == after_item_failure(*old(self)),
            old(self).well_formed() ==> final(self).well_formed(),
    {
        if self.enabled {
            self.stable_successes = 0;
        }
    }
}

/// The control after a number of successes in a row.
pub open spec fn after_successes(c: WorkerControl, n: nat) -> WorkerControl
    decreases n,
{
    if n == 0 {
        c
    } else {
        after_success(after_successes(c, (n - 1) as nat))
    }
}

proof fn lemma_successes_counted(c: WorkerControl, n: nat)
    requires
        c.enabled,
        c.stable_successes == 0,
        n < c.increase_after || n == 0,
    ensures
        after_successes(c, n) == (WorkerControl { stable_successes: n as u64, ..c }),
    decreases n,
{
    if n > 0 {
        lemma_successes_counted(c, (n - 1) as nat);
    }
}

/// Sustained successes raise the number of active workers again: as many in a row as are asked for
/// raise it by one, up to its bound.
pub proof fn law_successes_raise_workers(c: WorkerControl)
    requires
        c.enabled,
        c.stable_successes == 0,
        c.increase_after > 0,
        c.active_workers < c.max_workers,
    ensures
        after_successes(c, c.increase_after as nat) == (WorkerControl {
            active_workers: (c.active_workers + 1) as usize,
            ..c
        }),
{
    lemma_successes_counted(c, (c.increase_after - 1) as nat);
}

/// A burst of transient errors lowers the number of active workers by one each time that as many
/// came in a row as are asked for, down to its bound.
pub proof fn law_errors_lower_workers(c: WorkerControl, bursts: nat)
    requires
        c.enabled,
        c.decrease_after > 0,
        bursts > 0,
        bursts * c.decrease_after <= u64::MAX,
        c.active_workers > c.min_workers,
    ensures
        after_transient_error(c, (bursts * c.decrease_after) as u64).active_workers
            == c.active_workers - 1,
{
    let n = bursts * c.decrease_after;
    assert(n > 0) by (nonlinear_arith)
        requires
            n == bursts * c.decrease_after,
            bursts > 0,
            c.decrease_after > 0,
    ;
    vstd::arithmetic::div_mod::lemma_mod_multiples_basic(bursts as int, c.decrease_after as int);
}

/// No event takes the number of active workers out of its bounds, and without adaptive limiting
/// nothing changes it.
pub proof fn law_workers_stay_within_bounds(c: WorkerControl, consecutive_errors: u64)
    requires
        c.well_formed(),
    ensures
        after_success(c).well_formed(),
        after_item_failure(c).well_formed(),
        after_transient_error(c, consecutive_errors).well_formed(),
        !c.enabled ==> after_success(c) == c && after_item_failure(c) == c && after_transient_error(
            c,
            consecutive_errors,
        ) == c,
{
}

/// The smaller of two optional limits, where none is no limit.
pub open spec fn smaller_limit(left: Option<u64>, right: Option<u64>) -> Option<u64> {
    match (left, right) {
        (Some(a), Some(b)) => Some(
            if b < a {
                b
            } else {
                a
            },
        ),
        (Some(a), None) => Some(a),
        (None, b) => b,
    }
}

/// The smaller of two optional limits, where none is no limit.
pub fn min_optional_u64(left: Option<u64>, right: Option<u64>) -> (result: Option<u64>)
    ensures
        result == smaller_limit(left, right),
{
    match (left, right) {
        (Some(a), Some(b)) => {
            if b < a {
                Some(b)
            } else {
                Some(a)
            }
        },
        (Some(a), None) => Some(a),
        (None, b) => b,
    }
}

/// Takes one of the items that this run may start, where one is left; without a limit none is
/// counted.
pub fn reserve_item_slot(max_items: Option<u64>, started_items: &mut u64) -> (result: bool)
    ensures
        result == match max_items {
            Some(max) => *old(started_items) < max,
            None => true,
        },
        *final(started_items) == if result && max_items is Some {
            (*old(started_items) + 1) as u64
        } else {
            *old(started_items)
        },
{
    match max_items {
        Some(max) => {
            if *started_items >= max {
                return false;
            }
            *started_items = *started_items + 1;
            true
        },
        None => true,
    }
}

/// Whether the site answered that it does not have an item.
pub fn is_missing_item_failure(status: Option<u16>) -> (result: bool)
    ensures
        result == (status == Some(404u16)),
{
    match status {
        Some(code) => code == 404,
        None => false,
    }
}

/// Whether the site refused to answer.
pub fn is_http_403_failure(status: Option<u16>) -> (result: bool)
    ensures
        result == (status == Some(403u16)),
{
    match status {
        Some(code) => code == 403,
        None => false,
    }
}

/// Whether a failure may pass by itself: there was no answer, or a server error.
pub open spec fn transient(status: Option<u16>) -> bool {
    match status {
        None => true,
        Some(code) => 500 <= code < 600,
    }
}

/// Whether a failure may pass by itself: there was no answer, or a server error.
pub fn is_transient_failure(status: Option<u16>) -> (result: bool)
    ensures
        result == transient(status),
{
    match status {
        None => true,
        Some(code) => 500 <= code && code < 600,
    }
}

/// The number of active workers rises by one at most, and only while it is below the greatest; it
/// falls by one at most, and only while it is above the least. The settings never change.
pub proof fn law_workers_change_by_one(c: WorkerControl, consecutive_errors: u64)
    requires
        c.well_formed(),
    ensures
        ({
            let up = after_success(c);
            let down = after_transient_error(c, consecutive_errors);
            let failed = after_item_failure(c);
            &&& up.active_workers == c.active_workers || (up.active_workers == c.active_workers + 1
                && c.active_workers < c.max_workers)
            &&& down.active_workers == c.active_workers || (down.active_workers
                == c.active_workers - 1 && c.active_workers > c.min_workers)
            &&& failed.active_workers == c.active_workers
            &&& c.enabled ==> failed.stable_successes == 0 && down.stable_successes == 0
            &&& up.min_workers == c.min_workers && down.min_workers == c.min_workers
            &&& up.max_workers == c.max_workers && down.max_workers == c.max_workers
            &&& up.increase_after == c.increase_after && down.increase_after == c.increase_after
            &&& up.decrease_after == c.decrease_after && down.decrease_after == c.decrease_after
            &&& up.enabled == c.enabled && down.enabled == c.enabled && failed.enabled
                == c.enabled
        }),
{
}

/// Errors that are not a whole number of bursts lower nothing.
pub proof fn law_fewer_errors_lower_nothing(c: WorkerControl, consecutive_errors: u64)
    requires
        consecutive_errors < c.decrease_after,
    ensures
        after_transient_error(c, consecutive_errors).active_workers == c.active_workers,
{
    if consecutive_errors != 0 {
        assert(consecutive_errors % c.decrease_after == consecutive_errors) by (nonlinear_arith)
            requires
                0 < consecutive_errors < c.decrease_after,
        ;
    }
}

/// A change in the number of workers is told, and nothing else is.
pub proof fn law_changes_are_told(
    c: WorkerControl,
    worker_id: nat,
    source: Seq<char>,
    consecutive_errors: u64,
)
    ensures
        success_message(c, worker_id) is Some <==> after_success(c).active_workers
            > c.active_workers,
        error_message(c, source, consecutive_errors) is Some <==> after_transient_error(
            c,
            consecutive_errors,
        ).active_workers < c.active_workers,
        success_message(c, worker_id) matches Some(text) ==> text == "worker "@ + decimal(worker_id)
            + ": adaptive workers "@ + "increased"@ + " to "@ + decimal(
            (c.active_workers + 1) as nat,
        ) + "/"@ + decimal(c.max_workers as nat) + " after "@ + decimal(
            (c.stable_successes + 1) as nat,
        ) + " successful item fetches"@,
        error_message(c, source, consecutive_errors) matches Some(text) ==> text == source
            + ": adaptive workers "@ + "decreased"@ + " to "@ + decimal(
            (c.active_workers - 1) as nat,
        ) + "/"@ + decimal(c.max_workers as nat) + " after "@ + decimal(consecutive_errors as nat)
            + " consecutive transient errors"@,
{
}

/// The smaller of two limits is one of them and above neither; a limit that is not set limits
/// nothing.
pub proof fn law_smaller_limit(a: u64, b: u64)
    ensures
        smaller_limit(Some(a), Some(b)) matches Some(c) && c <= a && c <= b && (c == a || c == b),
        smaller_limit(Some(a), None) == Some(a),
        smaller_limit(None, Some(b)) == Some(b),
        smaller_limit(None, None) is None,
{
}

/// A failure may pass by itself where there was no answer or the server was at fault.
pub proof fn law_transient(code: u16)
    ensures
        transient(None),
        transient(Some(code)) <==> code / 100 == 5,
        !transient(Some(403u16)),
        !transient(Some(404u16)),
        transient(Some(503u16)),
{
}

} // verus!
