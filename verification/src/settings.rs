use crate::jobs::CrawlArgs;
use crate::numerals::{decimal, decimal_text};
use crate::pauses::PauseControl;
use crate::workers::{min_optional_u64, smaller_limit, WorkerControl};
use vstd::prelude::*;

verus! {

/// The greater of two numbers.
pub open spec fn at_least(a: nat, b: nat) -> nat {
    if a < b {
        b
    } else {
        a
    }
}

/// A product of a number of workers, within the range of the numbers that can be held.
pub open spec fn times_capped(workers: nat, factor: nat) -> nat {
    if workers * factor > u64::MAX {
        u64::MAX as nat
    } else {
        workers * factor
    }
}

fn multiply_capped(workers: usize, factor: u64) -> (result: u64)
    ensures
        result == times_capped(workers as nat, factor as nat),
{
    assert(workers * factor <= u64::MAX * u64::MAX) by (nonlinear_arith)
        requires
            0 <= workers <= u64::MAX,
            0 <= factor <= u64::MAX,
    ;
    let product: u128 = (workers as u128) * (factor as u128);
    if product > u64::MAX as u128 {
        u64::MAX
    } else {
        product as u64
    }
}

fn max_of(a: u64, b: u64) -> (result: u64)
    ensures
        result == at_least(a as nat, b as nat),
{
    if a < b {
        b
    } else {
        a
    }
}

/// A threshold that is asked for, or the usual one; zero is none.
pub open spec fn threshold(asked: Option<u64>, usual: nat) -> Option<u64> {
    let value = match asked {
        Some(n) => n as nat,
        None => usual,
    };
    if value > 0 {
        Some(value as u64)
    } else {
        None
    }
}

fn threshold_of(asked: Option<u64>, usual: u64) -> (result: Option<u64>)
    ensures
        result == threshold(asked, usual as nat),
{
    let value: u64 = match asked {
        Some(n) => n,
        None => usual,
    };
    if value > 0 {
        Some(value)
    } else {
        None
    }
}

/// The least number of active workers: no more than there are workers.
pub open spec fn least_workers(args: CrawlArgs) -> usize {
    if args.min_workers < args.workers {
        args.min_workers
    } else {
        args.workers
    }
}

/// Whether the number of active workers adapts.
pub open spec fn adaptive(args: CrawlArgs) -> bool {
    !args.fixed_workers && least_workers(args) < args.workers
}

/// The worker control of a crawl.
pub fn worker_control(args: &CrawlArgs) -> (result: WorkerControl)
    ensures
        result == (WorkerControl {
            enabled: adaptive(*args),
            min_workers: least_workers(*args),
            max_workers: args.workers,
            decrease_after: at_least(args.adaptive_decrease_after as nat, 1) as u64,
            increase_after: at_least(args.adaptive_increase_after as nat, 1) as u64,
            active_workers: args.workers,
            stable_successes: 0,
        }),
        result.well_formed(),
{
    let min_workers: usize = if args.min_workers < args.workers {
        args.min_workers
    } else {
        args.workers
    };
    WorkerControl::new(
        !args.fixed_workers && min_workers < args.workers,
        min_workers,
        args.workers,
        max_of(args.adaptive_decrease_after, 1),
        max_of(args.adaptive_increase_after, 1),
    )
}

/// The pause control of a crawl. Without a threshold of its own, a crawl pauses after four transient
/// errors in a row for each worker, at least twenty, and after one refusal in a row for each
/// worker, at least four.
pub fn pause_control(args: &CrawlArgs) -> (result: PauseControl)
    ensures
        result == (PauseControl {
            transient_errors: 0,
            http_403_errors: 0,
            pause_until: 0,
            transient_threshold: threshold(
                args.max_consecutive_transport_errors,
                at_least(times_capped(args.workers as nat, 4), 20),
            ),
            transient_pause_secs: args.transient_error_pause_secs,
            http_403_threshold: threshold(
                args.max_consecutive_403_errors,
                at_least(args.workers as nat, 4),
            ),
            http_403_pause_secs: args.http_403_pause_secs,
        }),
        result.well_formed(),
{
    let transport: u64 = max_of(multiply_capped(args.workers, 4), 20);
    let refusals: u64 = max_of(args.workers as u64, 4);
    PauseControl::new(
        threshold_of(args.max_consecutive_transport_errors, transport),
        args.transient_error_pause_secs,
        threshold_of(args.max_consecutive_403_errors, refusals),
        args.http_403_pause_secs,
    )
}

/// The ending of a word for so many things.
pub open spec fn plural(n: nat) -> Seq<char> {
    if n == 1 {
        ""@
    } else {
        "s"@
    }
}

/// The ending of a word for so many things.
pub fn plural_ending(n: usize) -> (result: &'static str)
    ensures
        result@ == plural(n as nat),
{
    if n == 1 {
        ""
    } else {
        "s"
    }
}

/// The line on the start of the workers.
pub open spec fn start_line_text(args: CrawlArgs) -> Seq<char> {
    "starting "@ + decimal(args.workers as nat) + " item worker"@ + plural(args.workers as nat) + (
    if adaptive(args) {
        " (adaptive active range "@ + decimal(least_workers(args) as nat) + "..="@ + decimal(
            args.workers as nat,
        ) + ")"@
    } else {
        " (fixed active count)"@
    })
}

/// The line on the start of the workers.
pub fn start_line(args: &CrawlArgs) -> (result: String)
    ensures
        result@ == start_line_text(*args),
{
    let control = worker_control(args);
    let count = decimal_text(args.workers as u64);
    let mut out: String = "starting ".to_owned();
    out.append(&count);
    out.append(" item worker");
    out.append(plural_ending(args.workers));
    let mut range: String = String::new();
    if control.enabled {
        let least = decimal_text(control.min_workers as u64);
        range = " (adaptive active range ".to_owned();
        range.append(&least);
        range.append("..=");
        range.append(&count);
        range.append(")");
    } else {
        range = " (fixed active count)".to_owned();
    }
    out.append(&range);
    out
}

/// Whether a run is limited to so many pages of a stream or so many items.
pub open spec fn limited(args: CrawlArgs) -> bool {
    args.max_pages is Some || args.max_items is Some
}

/// Whether a run is limited to so many pages of a stream or so many items.
pub fn is_limited(args: &CrawlArgs) -> (result: bool)
    ensures
        result == limited(*args),
{
    args.max_pages.is_some() || args.max_items.is_some()
}

/// The last page of a stream that a run reads, where it is limited.
pub open spec fn last_page(start_page: u64, max_pages: Option<u64>) -> Option<u64> {
    match max_pages {
        Some(n) => {
            let end = if start_page + n > u64::MAX {
                u64::MAX as int
            } else {
                start_page + n
            };
            Some(
                if end > 0 {
                    (end - 1) as u64
                } else {
                    0
                },
            )
        },
        None => None,
    }
}

/// The last page of a stream that a run reads: both the run and the stream may be limited.
pub fn last_search_page(args: &CrawlArgs, job_max_pages: Option<u64>) -> (result: Option<u64>)
    ensures
        result == last_page(args.start_page, smaller_limit(args.max_pages, job_max_pages)),
{
    match min_optional_u64(args.max_pages, job_max_pages) {
        Some(n) => Some(args.start_page.saturating_add(n).saturating_sub(1)),
        None => None,
    }
}

/// How many items may wait before discovery waits too.
pub open spec fn backlog_limit(workers: nat) -> nat {
    at_least(times_capped(workers, 3), 15)
}

/// How many items may wait before discovery waits too: three for each worker, at least fifteen.
pub fn backlog_target(args: &CrawlArgs) -> (result: u64)
    ensures
        result == backlog_limit(args.workers as nat),
{
    max_of(multiply_capped(args.workers, 3), 15)
}

/// The active workers are between one bound that is never above the number of workers and that
/// number; they are adapted only where there is something between, unless they are fixed.
pub proof fn law_worker_range(args: CrawlArgs)
    ensures
        least_workers(args) <= args.workers,
        least_workers(args) <= args.min_workers,
        least_workers(args) == args.workers || least_workers(args) == args.min_workers,
        adaptive(args) <==> !args.fixed_workers && args.min_workers < args.workers,
{
}

/// A limit on errors in a row is the one that was asked for, or the usual one; zero means none.
pub proof fn law_threshold(asked: u64, usual: nat)
    requires
        usual <= u64::MAX,
    ensures
        asked > 0 ==> threshold(Some(asked), usual) == Some(asked),
        threshold(Some(0), usual) is None,
        usual > 0 ==> threshold(None, usual) == Some(usual as u64),
        threshold(None, 0) is None,
{
}

/// The backlog holds three items for each worker, and fifteen at least.
pub proof fn law_backlog_limit(workers: nat)
    requires
        workers <= usize::MAX,
    ensures
        backlog_limit(workers) >= 15,
        backlog_limit(workers) <= u64::MAX,
        workers <= 5 ==> backlog_limit(workers) == 15,
        5 <= workers && workers + workers + workers <= u64::MAX ==> backlog_limit(workers)
            == workers + workers + workers,
{
}

/// As many pages are read as asked for, the first one counted; without a limit there is no last
/// page.
pub proof fn law_last_page(start_page: u64, pages: u64)
    requires
        start_page > 0,
    ensures
        last_page(start_page, None) is None,
        start_page + pages <= u64::MAX ==> (last_page(start_page, Some(pages)) matches Some(last)
            && last - start_page + 1 == pages),
        start_page + pages > u64::MAX ==> last_page(start_page, Some(pages)) == Some(
            (u64::MAX - 1) as u64,
        ),
        last_page(0, Some(0)) == Some(0u64),
{
}

/// One is told without an `s`, and any other number with one.
pub proof fn law_plural(n: nat)
    ensures
        plural(n).len() == if n == 1 {
            0nat
        } else {
            1
        },
        n != 1 ==> plural(n)[0] == 's',
{
    reveal_strlit("");
    reveal_strlit("s");
}

/// The crawl is limited where its pages or its items are.
pub proof fn law_limited(args: CrawlArgs)
    ensures
        !limited(args) <==> args.max_pages is None && args.max_items is None,
{
}

/// The line on the start tells the number of workers, and between which bounds they are adapted.
pub proof fn law_start_line(args: CrawlArgs)
    ensures
        adaptive(args) ==> start_line_text(args) == "starting "@ + decimal(args.workers as nat)
            + " item worker"@ + plural(args.workers as nat) + (" (adaptive active range "@
            + decimal(args.min_workers as nat) + "..="@ + decimal(args.workers as nat) + ")"@),
        !adaptive(args) ==> start_line_text(args) == "starting "@ + decimal(args.workers as nat)
            + " item worker"@ + plural(args.workers as nat) + " (fixed active count)"@,
{
}

} // verus!
