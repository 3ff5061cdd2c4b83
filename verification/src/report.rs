use crate::numerals::{decimal, decimal_text, signed_decimal, signed_decimal_text};
use crate::summary::{
    CrawlCompletionSummary, FailedHttpStatusCount, FailedItemSample, WorkStatusSummary,
};
use crate::text::{has_text, lemma_stands_last, lemma_stays_inside};
use crate::validation::{CoverageValidationSummary, SummaryView};
use crate::views::{group_texts, lemma_take_next, opt_text, texts};
use vstd::prelude::*;

verus! {

broadcast use group_texts;

/// How many rows are still to be worked on.
pub open spec fn unfinished(summary: CrawlCompletionSummary) -> nat {
    (summary.items.pending + summary.items.in_progress + summary.retryable_failed_items
        + summary.search_pages.pending + summary.search_pages.in_progress
        + summary.retryable_failed_search_pages) as nat
}

/// How many rows failed and have no attempts left.
pub open spec fn exhausted(summary: CrawlCompletionSummary) -> nat {
    (summary.exhausted_failed_items + summary.exhausted_failed_search_pages) as nat
}

/// The sums over a summary can be held.
pub open spec fn sums_fit(summary: CrawlCompletionSummary) -> bool {
    unfinished(summary) <= u64::MAX && exhausted(summary) <= u64::MAX
}

/// Whether the sums over a summary can be held.
pub fn check_sums(summary: &CrawlCompletionSummary) -> (result: bool)
    ensures
        result == sums_fit(*summary),
{
    let work: u128 = summary.items.pending as u128 + summary.items.in_progress as u128
        + summary.retryable_failed_items as u128 + summary.search_pages.pending as u128
        + summary.search_pages.in_progress as u128 + summary.retryable_failed_search_pages as u128;
    let failed: u128 = summary.exhausted_failed_items as u128
        + summary.exhausted_failed_search_pages as u128;
    work <= u64::MAX as u128 && failed <= u64::MAX as u128
}

/// How many rows are still to be worked on.
pub fn unfinished_work(summary: &CrawlCompletionSummary) -> (result: u64)
    requires
        unfinished(*summary) <= u64::MAX,
    ensures
        result == unfinished(*summary),
{
    summary.items.pending + summary.items.in_progress + summary.retryable_failed_items
        + summary.search_pages.pending + summary.search_pages.in_progress
        + summary.retryable_failed_search_pages
}

/// A name with a number behind it.
pub open spec fn numbered(name: Seq<char>, n: nat) -> Seq<char> {
    name + decimal(n)
}

fn add_number(out: &mut String, name: &str, n: u64)
    ensures
        final(out)@ == old(out)@ + name@ + decimal(n as nat),
{
    let number = decimal_text(n);
    out.append(name);
    out.append(&number);
}

fn push_numbered(lines: &mut Vec<String>, name: &str, n: u64)
    ensures
        texts(final(lines)@) == texts(old(lines)@).push(numbered(name@, n as nat)),
{
    let mut line: String = name.to_owned();
    let number = decimal_text(n);
    line.append(&number);
    lines.push(line);
}

/// The line on the state of a crawl.
pub open spec fn state_line(s: CrawlCompletionSummary) -> Seq<char> {
    "crawl state: records="@ + decimal(s.records as nat) + ", items(done="@ + decimal(
        s.items.done as nat,
    ) + ", missing="@ + decimal(s.items.missing as nat) + ", pending="@ + decimal(
        s.items.pending as nat,
    ) + ", in_progress="@ + decimal(s.items.in_progress as nat) + ", failed="@ + decimal(
        s.items.failed as nat,
    ) + ", retryable_failed="@ + decimal(s.retryable_failed_items as nat) + ", exhausted_failed="@
        + decimal(s.exhausted_failed_items as nat) + "), search_pages(done="@ + decimal(
        s.search_pages.done as nat,
    ) + ", pending="@ + decimal(s.search_pages.pending as nat) + ", in_progress="@ + decimal(
        s.search_pages.in_progress as nat,
    ) + ", failed="@ + decimal(s.search_pages.failed as nat) + ", retryable_failed="@ + decimal(
        s.retryable_failed_search_pages as nat,
    ) + ", exhausted_failed="@ + decimal(s.exhausted_failed_search_pages as nat) + ")"@
}

fn line_on_state(s: &CrawlCompletionSummary) -> (result: String)
    ensures
        result@ == state_line(*s),
{
    let mut out: String = "crawl state: records=".to_owned();
    let records = decimal_text(s.records);
    out.append(&records);
    add_number(&mut out, ", items(done=", s.items.done);
    add_number(&mut out, ", missing=", s.items.missing);
    add_number(&mut out, ", pending=", s.items.pending);
    add_number(&mut out, ", in_progress=", s.items.in_progress);
    add_number(&mut out, ", failed=", s.items.failed);
    add_number(&mut out, ", retryable_failed=", s.retryable_failed_items);
    add_number(&mut out, ", exhausted_failed=", s.exhausted_failed_items);
    add_number(&mut out, "), search_pages(done=", s.search_pages.done);
    add_number(&mut out, ", pending=", s.search_pages.pending);
    add_number(&mut out, ", in_progress=", s.search_pages.in_progress);
    add_number(&mut out, ", failed=", s.search_pages.failed);
    add_number(&mut out, ", retryable_failed=", s.retryable_failed_search_pages);
    add_number(&mut out, ", exhausted_failed=", s.exhausted_failed_search_pages);
    out.append(")");
    out
}

/// The line on the rows that the site refused, where there are any.
pub open spec fn refused_lines(s: CrawlCompletionSummary) -> Seq<Seq<char>> {
    if s.failed_403_items > 0 || s.failed_403_search_pages > 0 {
        seq![
            "failed HTTP 403 rows: items="@ + decimal(s.failed_403_items as nat)
                + ", search_pages="@ + decimal(s.failed_403_search_pages as nat),
        ]
    } else {
        Seq::empty()
    }
}

/// The message on rows that failed and have no attempts left.
pub open spec fn exhausted_message(s: CrawlCompletionSummary, max_attempts: nat) -> Seq<char> {
    "crawl incomplete: "@ + decimal(s.exhausted_failed_items as nat) + " failed item(s) and "@
        + decimal(s.exhausted_failed_search_pages as nat)
        + " failed search page(s) reached --max-attempts="@ + decimal(max_attempts)
}

/// The message on rows that are still to be worked on.
pub open spec fn incomplete_message(s: CrawlCompletionSummary) -> Seq<char> {
    "crawl incomplete: "@ + decimal(unfinished(s)) + " pending or retryable row(s) remain"@
}

/// The message with which a crawl ends in failure, if it does: rows are exhausted, or rows remain
/// though the crawl was neither interrupted nor limited.
pub open spec fn completion_error(
    s: CrawlCompletionSummary,
    max_attempts: nat,
    stopped_by_limit: bool,
    shutdown_requested: bool,
) -> Option<Seq<char>> {
    if exhausted(s) > 0 {
        Some(exhausted_message(s, max_attempts))
    } else if unfinished(s) == 0 || shutdown_requested || stopped_by_limit {
        None
    } else {
        Some(incomplete_message(s))
    }
}

/// The last lines on a crawl.
pub open spec fn closing_lines(
    s: CrawlCompletionSummary,
    max_attempts: nat,
    stopped_by_limit: bool,
    shutdown_requested: bool,
) -> Seq<Seq<char>> {
    if exhausted(s) > 0 {
        seq![
            exhausted_message(s, max_attempts),
            "retry exhausted failures with `rusneb-parser retry-failed --http-status 403` for HTTP 403 rows, or rerun crawl later with a higher --max-attempts"@,
        ]
    } else if unfinished(s) == 0 {
        seq!["crawl complete: no pending or failed work remains"@]
    } else if shutdown_requested {
        seq!["crawl interrupted: rerun the same crawl command to resume pending work"@]
    } else if stopped_by_limit {
        seq!["crawl stopped by configured --max-pages or --max-items limit"@]
    } else {
        seq![incomplete_message(s)]
    }
}

/// Says how a crawl ended: the lines on it, and the message with which it fails, if it does.
pub fn report_crawl_completion(
    summary: &CrawlCompletionSummary,
    max_attempts: u32,
    stopped_by_limit: bool,
    shutdown_requested: bool,
) -> (result: (Vec<String>, Option<String>))
    requires
        sums_fit(*summary),
    ensures
        texts(result.0@) == seq![state_line(*summary)] + refused_lines(*summary) + closing_lines(
            *summary,
            max_attempts as nat,
            stopped_by_limit,
            shutdown_requested,
        ),
        opt_text(result.1) == completion_error(
            *summary,
            max_attempts as nat,
            stopped_by_limit,
            shutdown_requested,
        ),
{
    let ghost close = closing_lines(
        *summary,
        max_attempts as nat,
        stopped_by_limit,
        shutdown_requested,
    );
    let mut lines: Vec<String> = Vec::new();
    lines.push(line_on_state(summary));
    if summary.failed_403_items > 0 || summary.failed_403_search_pages > 0 {
        let items = decimal_text(summary.failed_403_items);
        let pages = decimal_text(summary.failed_403_search_pages);
        let mut line: String = "failed HTTP 403 rows: items=".to_owned();
        line.append(&items);
        line.append(", search_pages=");
        line.append(&pages);
        lines.push(line);
    }
    let ghost start = texts(lines@);
    assert(start =~= seq![state_line(*summary)] + refused_lines(*summary));
    if summary.exhausted_failed_items + summary.exhausted_failed_search_pages > 0 {
        let items = decimal_text(summary.exhausted_failed_items);
        let pages = decimal_text(summary.exhausted_failed_search_pages);
        let limit = decimal_text(max_attempts as u64);
        let mut message: String = "crawl incomplete: ".to_owned();
        message.append(&items);
        message.append(" failed item(s) and ");
        message.append(&pages);
        message.append(" failed search page(s) reached --max-attempts=");
        message.append(&limit);
        lines.push(message.clone());
        lines.push(
            "retry exhausted failures with `rusneb-parser retry-failed --http-status 403` for HTTP 403 rows, or rerun crawl later with a higher --max-attempts".to_owned(),
        );
        assert(texts(lines@) =~= start + close);
        return (lines, Some(message));
    }
    let work: u64 = unfinished_work(summary);
    if work == 0 {
        lines.push("crawl complete: no pending or failed work remains".to_owned());
        assert(texts(lines@) =~= start + close);
        return (lines, None);
    }
    if shutdown_requested {
        lines.push(
            "crawl interrupted: rerun the same crawl command to resume pending work".to_owned(),
        );
        assert(texts(lines@) =~= start + close);
        return (lines, None);
    }
    if stopped_by_limit {
        lines.push("crawl stopped by configured --max-pages or --max-items limit".to_owned());
        assert(texts(lines@) =~= start + close);
        return (lines, None);
    }
    let count = decimal_text(work);
    let mut message: String = "crawl incomplete: ".to_owned();
    message.append(&count);
    message.append(" pending or retryable row(s) remain");
    lines.push(message.clone());
    assert(texts(lines@) =~= start + close);
    (lines, Some(message))
}

/// The lines on the states of a table.
pub open spec fn status_lines(label: Seq<char>, s: WorkStatusSummary) -> Seq<Seq<char>> {
    seq![
        label + ":"@,
        numbered("    done: "@, s.done as nat),
        numbered("    missing: "@, s.missing as nat),
        numbered("    pending: "@, s.pending as nat),
        numbered("    in_progress: "@, s.in_progress as nat),
        numbered("    failed: "@, s.failed as nat),
    ] + (if s.other > 0 {
        seq![numbered("    other: "@, s.other as nat)]
    } else {
        Seq::empty()
    })
}

fn push_status(lines: &mut Vec<String>, label: &str, s: &WorkStatusSummary)
    ensures
        texts(final(lines)@) == texts(old(lines)@) + status_lines(label@, *s),
{
    let mut head: String = label.to_owned();
    head.append(":");
    lines.push(head);
    push_numbered(lines, "    done: ", s.done);
    push_numbered(lines, "    missing: ", s.missing);
    push_numbered(lines, "    pending: ", s.pending);
    push_numbered(lines, "    in_progress: ", s.in_progress);
    push_numbered(lines, "    failed: ", s.failed);
    if s.other > 0 {
        push_numbered(lines, "    other: ", s.other);
    }
    assert(texts(lines@) =~= texts(old(lines)@) + status_lines(label@, *s));
}

/// A list under a head, with a note on what is left out.
pub open spec fn listed_lines(
    head: Seq<char>,
    list: Seq<Seq<char>>,
    total: nat,
    top: nat,
    what: Seq<char>,
) -> Seq<Seq<char>> {
    if list.len() == 0 {
        Seq::empty()
    } else {
        seq![head] + list + (if total > top {
            seq!["  ... "@ + decimal((total - top) as nat) + what]
        } else {
            Seq::empty()
        })
    }
}

/// The lines on a validation of coverage.
pub open spec fn coverage_lines(s: SummaryView, top: nat) -> Seq<Seq<char>> {
    seq![
        "search coverage:"@,
        numbered("  shards: "@, s.shards),
        numbered("  groups: "@, s.groups),
        numbered("  unfinished_shards: "@, s.unfinished_shards),
        numbered("  gap_shards: "@, s.gap_shards),
        numbered("  window_limited_shards: "@, s.window_limited_shards),
        numbered("  per_query_missing_results: "@, s.per_query_missing_results as nat),
        numbered("  unfinished_groups: "@, s.unfinished_groups),
        numbered("  gap_groups: "@, s.gap_groups),
        numbered("  grouped_missing_results: "@, s.grouped_missing_results as nat),
    ] + listed_lines(
        "shards:"@,
        s.display_shard_lines,
        s.display_shards_total,
        top,
        " more shard(s), raise --top to print them"@,
    ) + listed_lines(
        "groups:"@,
        s.display_group_lines,
        s.display_groups_total,
        top,
        " more group(s), raise --top to print them"@,
    )
}

fn push_listed(
    lines: &mut Vec<String>,
    head: &str,
    list: &Vec<String>,
    total: usize,
    top: usize,
    what: &str,
)
    ensures
        texts(final(lines)@) == texts(old(lines)@) + listed_lines(
            head@,
            texts(list@),
            total as nat,
            top as nat,
            what@,
        ),
{
    let ghost before = texts(lines@);
    let ghost all = texts(list@);
    let ghost wanted = listed_lines(head@, all, total as nat, top as nat, what@);
    if list.len() == 0 {
        assert(before + wanted =~= before);
        return;
    }
    lines.push(head.to_owned());
    assert(texts(lines@) =~= before + seq![head@] + all.take(0));
    for i in 0..list.len()
        invariant
            all == texts(list@),
            texts(lines@) == before + seq![head@] + all.take(i as int),
    {
        lines.push(list[i].clone());
        proof {
            lemma_take_next(all, i as int);
            assert((before + seq![head@] + all.take(i as int)).push(all[i as int]) =~= before
                + seq![head@] + all.take(i + 1));
        }
    }
    assert(all.take(all.len() as int) == all);
    if total > top {
        let more = decimal_text((total - top) as u64);
        let mut line: String = "  ... ".to_owned();
        line.append(&more);
        line.append(what);
        lines.push(line);
    }
    assert(texts(lines@) =~= before + wanted);
}

fn push_coverage(lines: &mut Vec<String>, summary: &CoverageValidationSummary, top: usize)
    ensures
        texts(final(lines)@) == texts(old(lines)@) + coverage_lines(summary@, top as nat),
{
    let ghost before = texts(lines@);
    lines.push("search coverage:".to_owned());
    push_numbered(lines, "  shards: ", summary.shards as u64);
    push_numbered(lines, "  groups: ", summary.groups as u64);
    push_numbered(lines, "  unfinished_shards: ", summary.unfinished_shards as u64);
    push_numbered(lines, "  gap_shards: ", summary.gap_shards as u64);
    push_numbered(lines, "  window_limited_shards: ", summary.window_limited_shards as u64);
    push_numbered(lines, "  per_query_missing_results: ", summary.per_query_missing_results);
    push_numbered(lines, "  unfinished_groups: ", summary.unfinished_groups as u64);
    push_numbered(lines, "  gap_groups: ", summary.gap_groups as u64);
    push_numbered(lines, "  grouped_missing_results: ", summary.grouped_missing_results);
    push_listed(
        lines,
        "shards:",
        &summary.display_shard_lines,
        summary.display_shards_total,
        top,
        " more shard(s), raise --top to print them",
    );
    push_listed(
        lines,
        "groups:",
        &summary.display_group_lines,
        summary.display_groups_total,
        top,
        " more group(s), raise --top to print them",
    );
    assert(texts(lines@) =~= before + coverage_lines(summary@, top as nat));
}

/// The lines on a validation of coverage.
pub fn coverage_validation_lines(summary: &CoverageValidationSummary, top: usize) -> (result: Vec<
    String,
>)
    ensures
        texts(result@) == coverage_lines(summary@, top as nat),
{
    let mut lines: Vec<String> = Vec::new();
    push_coverage(&mut lines, summary, top);
    assert(texts(lines@) =~= coverage_lines(summary@, top as nat));
    lines
}

/// How a validation of coverage ends: the line on its success, or the message on its failure.
pub fn coverage_verdict(summary: &CoverageValidationSummary) -> (result: Result<String, String>)
    ensures
        match result {
            Ok(line) => summary.unfinished_groups == 0 && summary.gap_groups == 0 && line@
                == "coverage ok: completed search groups cover all reported totals"@,
            Err(message) => (summary.unfinished_groups != 0 || summary.gap_groups != 0) && message@
                == "coverage validation failed: "@ + decimal(summary.unfinished_groups as nat)
                + " unfinished group(s), "@ + decimal(summary.gap_groups as nat)
                + " group(s) with coverage gaps"@,
        },
{
    if summary.is_ok() {
        return Ok("coverage ok: completed search groups cover all reported totals".to_owned());
    }
    let unfinished_text = decimal_text(summary.unfinished_groups as u64);
    let gap_text = decimal_text(summary.gap_groups as u64);
    let mut message: String = "coverage validation failed: ".to_owned();
    message.append(&unfinished_text);
    message.append(" unfinished group(s), ");
    message.append(&gap_text);
    message.append(" group(s) with coverage gaps");
    Err(message)
}

/// An HTTP status as a report shows it.
pub open spec fn shown_status(status: Option<u16>) -> Seq<char> {
    match status {
        Some(code) => decimal(code as nat),
        None => "<none>"@,
    }
}

fn status_text(status: Option<u16>) -> (result: String)
    ensures
        result@ == shown_status(status),
{
    match status {
        Some(code) => decimal_text(code as u64),
        None => "<none>".to_owned(),
    }
}

/// The line on the items that failed with an HTTP status.
pub open spec fn count_line(count: FailedHttpStatusCount) -> Seq<char> {
    "  HTTP "@ + shown_status(count.http_status) + ": "@ + decimal(count.count as nat)
}

/// The line on an item that failed.
pub open spec fn sample_line(sample: FailedItemSample) -> Seq<char> {
    "  "@ + sample.id@ + " | attempts="@ + decimal(sample.attempts as nat) + " HTTP="@
        + shown_status(sample.last_http_status) + " updated_at="@ + signed_decimal(
        sample.updated_at_unix as int,
    ) + " | "@ + match opt_text(sample.last_error) {
        Some(error) => error,
        None => "<no error>"@,
    }
}

/// The lines on the items that failed, by HTTP status.
pub open spec fn count_lines(counts: Seq<FailedHttpStatusCount>) -> Seq<Seq<char>> {
    if counts.len() == 0 {
        Seq::empty()
    } else {
        seq!["failed item HTTP statuses:"@] + counts.map_values(
            |c: FailedHttpStatusCount| count_line(c),
        )
    }
}

/// The lines on some items that failed.
pub open spec fn sample_lines(samples: Seq<FailedItemSample>) -> Seq<Seq<char>> {
    if samples.len() == 0 {
        Seq::empty()
    } else {
        seq!["failed item sample:"@] + samples.map_values(|s: FailedItemSample| sample_line(s))
    }
}

fn push_counts(lines: &mut Vec<String>, counts: &Vec<FailedHttpStatusCount>)
    ensures
        texts(final(lines)@) == texts(old(lines)@) + count_lines(counts@),
{
    let ghost before = texts(lines@);
    let ghost all = counts@.map_values(|c: FailedHttpStatusCount| count_line(c));
    if counts.len() == 0 {
        assert(before + count_lines(counts@) =~= before);
        return;
    }
    lines.push("failed item HTTP statuses:".to_owned());
    let ghost head = seq!["failed item HTTP statuses:"@];
    assert(texts(lines@) =~= before + head + all.take(0));
    for i in 0..counts.len()
        invariant
            all == counts@.map_values(|c: FailedHttpStatusCount| count_line(c)),
            texts(lines@) == before + head + all.take(i as int),
    {
        let status = status_text(counts[i].http_status);
        let number = decimal_text(counts[i].count);
        let mut line: String = "  HTTP ".to_owned();
        line.append(&status);
        line.append(": ");
        line.append(&number);
        assert(line@ == all[i as int]);
        lines.push(line);
        proof {
            lemma_take_next(all, i as int);
            assert((before + head + all.take(i as int)).push(all[i as int]) =~= before + head
                + all.take(i + 1));
        }
    }
    assert(all.take(all.len() as int) == all);
    assert(texts(lines@) =~= before + count_lines(counts@));
}

fn push_samples(lines: &mut Vec<String>, samples: &Vec<FailedItemSample>)
    ensures
        texts(final(lines)@) == texts(old(lines)@) + sample_lines(samples@),
{
    let ghost before = texts(lines@);
    let ghost all = samples@.map_values(|s: FailedItemSample| sample_line(s));
    if samples.len() == 0 {
        assert(before + sample_lines(samples@) =~= before);
        return;
    }
    lines.push("failed item sample:".to_owned());
    let ghost head = seq!["failed item sample:"@];
    assert(texts(lines@) =~= before + head + all.take(0));
    for i in 0..samples.len()
        invariant
            all == samples@.map_values(|s: FailedItemSample| sample_line(s)),
            texts(lines@) == before + head + all.take(i as int),
    {
        let sample = &samples[i];
        let attempts = decimal_text(sample.attempts as u64);
        let status = status_text(sample.last_http_status);
        let time = signed_decimal_text(sample.updated_at_unix);
        let mut line: String = "  ".to_owned();
        line.append(&sample.id);
        line.append(" | attempts=");
        line.append(&attempts);
        line.append(" HTTP=");
        line.append(&status);
        line.append(" updated_at=");
        line.append(&time);
        line.append(" | ");
        match &sample.last_error {
            Some(error) => line.append(error),
            None => line.append("<no error>"),
        }
        assert(line@ == all[i as int]);
        lines.push(line);
        proof {
            lemma_take_next(all, i as int);
            assert((before + head + all.take(i as int)).push(all[i as int]) =~= before + head
                + all.take(i + 1));
        }
    }
    assert(all.take(all.len() as int) == all);
    assert(texts(lines@) =~= before + sample_lines(samples@));
}

/// A line, where it is to be said.
pub open spec fn line_if(said: bool, line: Seq<char>) -> Seq<Seq<char>> {
    if said {
        seq![line]
    } else {
        Seq::empty()
    }
}

/// Whether a crawl is complete: nothing is left to work on, nothing is exhausted, and the coverage
/// is in order.
pub open spec fn is_complete(s: CrawlCompletionSummary, coverage: SummaryView) -> bool {
    unfinished(s) == 0 && exhausted(s) == 0 && coverage.unfinished_groups == 0
        && coverage.gap_groups == 0
}

/// The last lines of a report: that the crawl is complete, or what to do next.
pub open spec fn verdict_lines(
    db: Seq<char>,
    s: CrawlCompletionSummary,
    coverage: SummaryView,
) -> Seq<Seq<char>> {
    if is_complete(s, coverage) {
        seq!["completion ok: no pending, retryable, exhausted, or coverage-gap work found"@]
    } else {
        seq!["next steps:"@] + line_if(
            s.failed_403_items > 0 || s.failed_403_search_pages > 0,
            "  retry HTTP 403 rows: rusneb-parser retry-failed --db "@ + db
                + " --http-status 403"@,
        ) + line_if(
            exhausted(s) > 0,
            "  retry exhausted failures: rusneb-parser retry-failed --db "@ + db,
        ) + line_if(
            unfinished(s) > 0,
            "  rerun the crawl command to drain pending or retryable work"@,
        ) + line_if(
            coverage.unfinished_groups > 0 || coverage.gap_groups > 0,
            "  rerun the crawl command so automatic overflow sharding can close coverage gaps"@,
        )
    }
}

/// The lines of a report.
pub open spec fn report_lines(
    db: Seq<char>,
    s: CrawlCompletionSummary,
    coverage: SummaryView,
    top: nat,
    counts: Seq<FailedHttpStatusCount>,
    samples: Seq<FailedItemSample>,
) -> Seq<Seq<char>> {
    seq!["completion report:"@, "  db: "@ + db, numbered("  records: "@, s.records as nat)]
        + status_lines("items"@, s.items) + seq![
        numbered("    retryable_failed: "@, s.retryable_failed_items as nat),
        numbered("    exhausted_failed: "@, s.exhausted_failed_items as nat),
    ] + status_lines("search_pages"@, s.search_pages) + seq![
        numbered("    retryable_failed: "@, s.retryable_failed_search_pages as nat),
        numbered("    exhausted_failed: "@, s.exhausted_failed_search_pages as nat),
        "coverage:"@,
    ] + coverage_lines(coverage, top) + count_lines(counts) + sample_lines(samples)
        + verdict_lines(db, s, coverage)
}

fn push_verdict(
    lines: &mut Vec<String>,
    db: &str,
    s: &CrawlCompletionSummary,
    coverage: &CoverageValidationSummary,
) -> (complete: bool)
    requires
        sums_fit(*s),
    ensures
        texts(final(lines)@) == texts(old(lines)@) + verdict_lines(db@, *s, coverage@),
        complete == is_complete(*s, coverage@),
{
    let ghost before = texts(lines@);
    let work: u64 = unfinished_work(s);
    let failed: u64 = s.exhausted_failed_items + s.exhausted_failed_search_pages;
    if work == 0 && failed == 0 && coverage.is_ok() {
        lines.push(
            "completion ok: no pending, retryable, exhausted, or coverage-gap work found".to_owned(),
        );
        assert(texts(lines@) =~= before + verdict_lines(db@, *s, coverage@));
        return true;
    }
    lines.push("next steps:".to_owned());
    if s.failed_403_items > 0 || s.failed_403_search_pages > 0 {
        let mut line: String =
            "  retry HTTP 403 rows: rusneb-parser retry-failed --db ".to_owned();
        line.append(db);
        line.append(" --http-status 403");
        lines.push(line);
    }
    if failed > 0 {
        let mut line: String =
            "  retry exhausted failures: rusneb-parser retry-failed --db ".to_owned();
        line.append(db);
        lines.push(line);
    }
    if work > 0 {
        lines.push("  rerun the crawl command to drain pending or retryable work".to_owned());
    }
    if !coverage.is_ok() {
        lines.push(
            "  rerun the crawl command so automatic overflow sharding can close coverage gaps".to_owned(),
        );
    }
    assert(texts(lines@) =~= before + verdict_lines(db@, *s, coverage@));
    false
}

/// The lines of a report, with whether the crawl is complete.
pub fn report(
    db: &str,
    state: &CrawlCompletionSummary,
    coverage: &CoverageValidationSummary,
    top: usize,
    failed_statuses: &Vec<FailedHttpStatusCount>,
    failed_sample: &Vec<FailedItemSample>,
) -> (result: (Vec<String>, bool))
    requires
        sums_fit(*state),
    ensures
        texts(result.0@) == report_lines(
            db@,
            *state,
            coverage@,
            top as nat,
            failed_statuses@,
            failed_sample@,
        ),
        result.1 == is_complete(*state, coverage@),
{
    let mut lines: Vec<String> = Vec::new();
    lines.push("completion report:".to_owned());
    let mut path: String = "  db: ".to_owned();
    path.append(db);
    lines.push(path);
    push_numbered(&mut lines, "  records: ", state.records);
    assert(texts(lines@) =~= seq![
        "completion report:"@,
        "  db: "@ + db@,
        numbered("  records: "@, state.records as nat),
    ]);
    push_status(&mut lines, "items", &state.items);
    let ghost part = texts(lines@);
    push_numbered(&mut lines, "    retryable_failed: ", state.retryable_failed_items);
    push_numbered(&mut lines, "    exhausted_failed: ", state.exhausted_failed_items);
    assert(texts(lines@) =~= part + seq![
        numbered("    retryable_failed: "@, state.retryable_failed_items as nat),
        numbered("    exhausted_failed: "@, state.exhausted_failed_items as nat),
    ]);
    push_status(&mut lines, "search_pages", &state.search_pages);
    let ghost part = texts(lines@);
    push_numbered(&mut lines, "    retryable_failed: ", state.retryable_failed_search_pages);
    push_numbered(&mut lines, "    exhausted_failed: ", state.exhausted_failed_search_pages);
    lines.push("coverage:".to_owned());
    assert(texts(lines@) =~= part + seq![
        numbered("    retryable_failed: "@, state.retryable_failed_search_pages as nat),
        numbered("    exhausted_failed: "@, state.exhausted_failed_search_pages as nat),
        "coverage:"@,
    ]);
    push_coverage(&mut lines, coverage, top);
    push_counts(&mut lines, failed_statuses);
    push_samples(&mut lines, failed_sample);
    let complete = push_verdict(&mut lines, db, state, coverage);
    (lines, complete)
}

/// A crawl fails with a message just where rows are exhausted, or remain though it was neither
/// interrupted nor limited.
pub proof fn law_completion_error(
    s: CrawlCompletionSummary,
    max_attempts: nat,
    stopped_by_limit: bool,
    shutdown_requested: bool,
)
    ensures
        completion_error(s, max_attempts, stopped_by_limit, shutdown_requested) is Some <==> (
        exhausted(s) > 0 || (unfinished(s) > 0 && !stopped_by_limit && !shutdown_requested)),
{
}

/// The line on the state of a crawl tells each of its numbers under its name.
pub proof fn law_state_line(s: CrawlCompletionSummary)
    ensures
        has_text(state_line(s), ", items(done="@ + decimal(s.items.done as nat) + ", missing="@),
        has_text(state_line(s), ", missing="@ + decimal(s.items.missing as nat) + ", pending="@),
        has_text(state_line(s), ", pending="@ + decimal(s.items.pending as nat) + ", in_progress="@),
        has_text(state_line(s), ", in_progress="@ + decimal(s.items.in_progress as nat) + ", failed="@),
        has_text(state_line(s), ", failed="@ + decimal(s.items.failed as nat) + ", retryable_failed="@),
        has_text(state_line(s), ", retryable_failed="@ + decimal(s.retryable_failed_items as nat) + ", exhausted_failed="@),
        has_text(state_line(s), ", exhausted_failed="@ + decimal(s.exhausted_failed_items as nat) + "), search_pages(done="@),
        has_text(state_line(s), "), search_pages(done="@ + decimal(s.search_pages.done as nat) + ", pending="@),
        has_text(state_line(s), ", pending="@ + decimal(s.search_pages.pending as nat) + ", in_progress="@),
        has_text(state_line(s), ", in_progress="@ + decimal(s.search_pages.in_progress as nat) + ", failed="@),
        has_text(state_line(s), ", failed="@ + decimal(s.search_pages.failed as nat) + ", retryable_failed="@),
        has_text(state_line(s), ", retryable_failed="@ + decimal(s.retryable_failed_search_pages as nat) + ", exhausted_failed="@),
        has_text(state_line(s), ", exhausted_failed="@ + decimal(s.exhausted_failed_search_pages as nat) + ")"@),
{
    broadcast use lemma_stays_inside;

    let s2 = "crawl state: records="@ + decimal(s.records as nat);
    lemma_stands_last(s2, ", items(done="@, decimal(s.items.done as nat), ", missing="@);
    let s4 = s2 + ", items(done="@ + decimal(s.items.done as nat);
    lemma_stands_last(s4, ", missing="@, decimal(s.items.missing as nat), ", pending="@);
    let s6 = s4 + ", missing="@ + decimal(s.items.missing as nat);
    lemma_stands_last(s6, ", pending="@, decimal(s.items.pending as nat), ", in_progress="@);
    let s8 = s6 + ", pending="@ + decimal(s.items.pending as nat);
    lemma_stands_last(s8, ", in_progress="@, decimal(s.items.in_progress as nat), ", failed="@);
    let s10 = s8 + ", in_progress="@ + decimal(s.items.in_progress as nat);
    lemma_stands_last(s10, ", failed="@, decimal(s.items.failed as nat), ", retryable_failed="@);
    let s12 = s10 + ", failed="@ + decimal(s.items.failed as nat);
    lemma_stands_last(s12, ", retryable_failed="@, decimal(s.retryable_failed_items as nat), ", exhausted_failed="@);
    let s14 = s12 + ", retryable_failed="@ + decimal(s.retryable_failed_items as nat);
    lemma_stands_last(s14, ", exhausted_failed="@, decimal(s.exhausted_failed_items as nat), "), search_pages(done="@);
    let s16 = s14 + ", exhausted_failed="@ + decimal(s.exhausted_failed_items as nat);
    lemma_stands_last(s16, "), search_pages(done="@, decimal(s.search_pages.done as nat), ", pending="@);
    let s18 = s16 + "), search_pages(done="@ + decimal(s.search_pages.done as nat);
    lemma_stands_last(s18, ", pending="@, decimal(s.search_pages.pending as nat), ", in_progress="@);
    let s20 = s18 + ", pending="@ + decimal(s.search_pages.pending as nat);
    lemma_stands_last(s20, ", in_progress="@, decimal(s.search_pages.in_progress as nat), ", failed="@);
    let s22 = s20 + ", in_progress="@ + decimal(s.search_pages.in_progress as nat);
    lemma_stands_last(s22, ", failed="@, decimal(s.search_pages.failed as nat), ", retryable_failed="@);
    let s24 = s22 + ", failed="@ + decimal(s.search_pages.failed as nat);
    lemma_stands_last(s24, ", retryable_failed="@, decimal(s.retryable_failed_search_pages as nat), ", exhausted_failed="@);
    let s26 = s24 + ", retryable_failed="@ + decimal(s.retryable_failed_search_pages as nat);
    lemma_stands_last(s26, ", exhausted_failed="@, decimal(s.exhausted_failed_search_pages as nat), ")"@);
}

/// The line of a failed item tells who it is and how often, how and when it failed.
pub proof fn law_sample_line(sample: FailedItemSample)
    ensures
        has_text(sample_line(sample), "  "@ + sample.id@ + " | attempts="@),
        has_text(sample_line(sample), " | attempts="@ + decimal(sample.attempts as nat) + " HTTP="@),
        has_text(sample_line(sample), " HTTP="@ + shown_status(sample.last_http_status) + " updated_at="@),
        has_text(sample_line(sample), " updated_at="@ + signed_decimal(sample.updated_at_unix as int) + " | "@),
{
    broadcast use lemma_stays_inside;

    let s0 = Seq::<char>::empty();
    lemma_stands_last(s0, "  "@, sample.id@, " | attempts="@);
    let s2 = s0 + "  "@ + sample.id@;
    lemma_stands_last(s2, " | attempts="@, decimal(sample.attempts as nat), " HTTP="@);
    let s4 = s2 + " | attempts="@ + decimal(sample.attempts as nat);
    lemma_stands_last(s4, " HTTP="@, shown_status(sample.last_http_status), " updated_at="@);
    let s6 = s4 + " HTTP="@ + shown_status(sample.last_http_status);
    lemma_stands_last(s6, " updated_at="@, signed_decimal(sample.updated_at_unix as int), " | "@);
}

/// What is unfinished is what waits, what runs and what may be tried again; what is exhausted is what
/// failed too often.
pub proof fn law_unfinished(s: CrawlCompletionSummary)
    ensures
        unfinished(s) == 0 <==> s.items.pending == 0 && s.items.in_progress == 0
            && s.retryable_failed_items == 0 && s.search_pages.pending == 0
            && s.search_pages.in_progress == 0 && s.retryable_failed_search_pages == 0,
        exhausted(s) == 0 <==> s.exhausted_failed_items == 0 && s.exhausted_failed_search_pages
            == 0,
        unfinished(s) == s.items.pending + s.search_pages.pending + s.items.in_progress
            + s.search_pages.in_progress + s.retryable_failed_items
            + s.retryable_failed_search_pages,
        exhausted(s) == s.exhausted_failed_items + s.exhausted_failed_search_pages,
{
}

/// A crawl closes by saying that work is exhausted, that none is left, that it was interrupted, that
/// it reached a limit or that work remains, in this order of importance.
pub proof fn law_closing(
    s: CrawlCompletionSummary,
    max_attempts: nat,
    stopped_by_limit: bool,
    shutdown_requested: bool,
)
    ensures
        ({
            let lines = closing_lines(s, max_attempts, stopped_by_limit, shutdown_requested);
            let exhausted = s.exhausted_failed_items + s.exhausted_failed_search_pages > 0;
            let left = s.items.pending + s.items.in_progress + s.retryable_failed_items
                + s.search_pages.pending + s.search_pages.in_progress
                + s.retryable_failed_search_pages;
            &&& exhausted ==> lines.len() == 2 && completion_error(
                s,
                max_attempts,
                stopped_by_limit,
                shutdown_requested,
            ) == Some(lines[0])
            &&& !exhausted ==> lines.len() == 1
            &&& !exhausted && left == 0 ==> lines[0]
                == "crawl complete: no pending or failed work remains"@
            &&& !exhausted && left > 0 && shutdown_requested ==> lines[0]
                == "crawl interrupted: rerun the same crawl command to resume pending work"@
            &&& !exhausted && left > 0 && !shutdown_requested && stopped_by_limit ==> lines[0]
                == "crawl stopped by configured --max-pages or --max-items limit"@
            &&& !exhausted && left > 0 && !shutdown_requested && !stopped_by_limit ==> lines[0]
                == "crawl incomplete: "@ + decimal(left as nat)
                + " pending or retryable row(s) remain"@ && completion_error(
                s,
                max_attempts,
                stopped_by_limit,
                shutdown_requested,
            ) == Some(lines[0])
            &&& has_text(
                exhausted_message(s, max_attempts),
                decimal(s.exhausted_failed_items as nat) + " failed item(s) and "@ + decimal(
                    s.exhausted_failed_search_pages as nat,
                ),
            )
            &&& has_text(
                exhausted_message(s, max_attempts),
                " failed search page(s) reached --max-attempts="@ + decimal(max_attempts)
                    + Seq::empty(),
            )
        }),
{
    broadcast use lemma_stays_inside;

    let a = decimal(s.exhausted_failed_items as nat);
    let b = " failed item(s) and "@;
    let c = decimal(s.exhausted_failed_search_pages as nat);
    let d = " failed search page(s) reached --max-attempts="@;
    let e = decimal(max_attempts);
    lemma_stands_last("crawl incomplete: "@, a, b, c);
    lemma_stands_last("crawl incomplete: "@ + a + b + c, d, e, Seq::empty());
    let all = "crawl incomplete: "@ + a + b + c + d + e;
    assert(all + Seq::empty() =~= all);
}

/// Refused rows are told where there are any.
pub proof fn law_refused_lines(s: CrawlCompletionSummary)
    ensures
        s.failed_403_items == 0 && s.failed_403_search_pages == 0 <==> refused_lines(s).len() == 0,
        refused_lines(s).len() > 0 ==> refused_lines(s)[0] == "failed HTTP 403 rows: items="@
            + decimal(s.failed_403_items as nat) + ", search_pages="@ + decimal(
            s.failed_403_search_pages as nat,
        ),
{
}

/// The states are told line by line, each with its number; other states where there are any.
pub proof fn law_status_lines(label: Seq<char>, s: WorkStatusSummary)
    ensures
        status_lines(label, s)[0] == label + ":"@,
        status_lines(label, s).contains("    done: "@ + decimal(s.done as nat)),
        status_lines(label, s).contains("    missing: "@ + decimal(s.missing as nat)),
        status_lines(label, s).contains("    pending: "@ + decimal(s.pending as nat)),
        status_lines(label, s).contains("    in_progress: "@ + decimal(s.in_progress as nat)),
        status_lines(label, s).contains("    failed: "@ + decimal(s.failed as nat)),
        s.other > 0 ==> status_lines(label, s).last() == "    other: "@ + decimal(s.other as nat),
        status_lines(label, s).len() == if s.other > 0 {
            7nat
        } else {
            6
        },
{
    let lines = status_lines(label, s);
    assert(lines[1] == "    done: "@ + decimal(s.done as nat));
    assert(lines[2] == "    missing: "@ + decimal(s.missing as nat));
    assert(lines[3] == "    pending: "@ + decimal(s.pending as nat));
    assert(lines[4] == "    in_progress: "@ + decimal(s.in_progress as nat));
    assert(lines[5] == "    failed: "@ + decimal(s.failed as nat));
}

/// The results of a validation are told line by line, each with its number.
pub proof fn law_coverage_lines(s: SummaryView, top: nat)
    ensures
        ({
            let lines = coverage_lines(s, top);
            &&& lines[0] == "search coverage:"@
            &&& lines[1] == "  shards: "@ + decimal(s.shards)
            &&& lines[2] == "  groups: "@ + decimal(s.groups)
            &&& lines.contains("  unfinished_shards: "@ + decimal(s.unfinished_shards))
            &&& lines.contains("  gap_shards: "@ + decimal(s.gap_shards))
            &&& lines.contains("  window_limited_shards: "@ + decimal(s.window_limited_shards))
            &&& lines.contains(
                "  per_query_missing_results: "@ + decimal(s.per_query_missing_results as nat),
            )
            &&& lines.contains("  unfinished_groups: "@ + decimal(s.unfinished_groups))
            &&& lines.contains("  gap_groups: "@ + decimal(s.gap_groups))
            &&& lines.contains(
                "  grouped_missing_results: "@ + decimal(s.grouped_missing_results as nat),
            )
            &&& forall|i: int|
                0 <= i < s.display_shard_lines.len() ==> lines.contains(
                    #[trigger] s.display_shard_lines[i],
                )
            &&& forall|i: int|
                0 <= i < s.display_group_lines.len() ==> lines.contains(
                    #[trigger] s.display_group_lines[i],
                )
        }),
{
    let lines = coverage_lines(s, top);
    let shards = listed_lines(
        "shards:"@,
        s.display_shard_lines,
        s.display_shards_total,
        top,
        " more shard(s), raise --top to print them"@,
    );
    let groups = listed_lines(
        "groups:"@,
        s.display_group_lines,
        s.display_groups_total,
        top,
        " more group(s), raise --top to print them"@,
    );
    assert(lines[3] == "  unfinished_shards: "@ + decimal(s.unfinished_shards));
    assert(lines[4] == "  gap_shards: "@ + decimal(s.gap_shards));
    assert(lines[5] == "  window_limited_shards: "@ + decimal(s.window_limited_shards));
    assert(lines[6] == "  per_query_missing_results: "@ + decimal(
        s.per_query_missing_results as nat,
    ));
    assert(lines[7] == "  unfinished_groups: "@ + decimal(s.unfinished_groups));
    assert(lines[8] == "  gap_groups: "@ + decimal(s.gap_groups));
    assert(lines[9] == "  grouped_missing_results: "@ + decimal(s.grouped_missing_results as nat));
    assert forall|i: int| 0 <= i < s.display_shard_lines.len() implies lines.contains(
        #[trigger] s.display_shard_lines[i],
    ) by {
        assert(shards[1 + i] == s.display_shard_lines[i]);
        assert(lines[10 + 1 + i] == shards[1 + i]);
    }
    let n = 10 + shards.len();
    assert forall|i: int| 0 <= i < s.display_group_lines.len() implies lines.contains(
        #[trigger] s.display_group_lines[i],
    ) by {
        assert(groups[1 + i] == s.display_group_lines[i]);
        assert(lines[n + 1 + i] == groups[1 + i]);
    }
}

/// A list is printed below its head, followed by how many more there are where not all are printed.
pub proof fn law_listed_lines(
    head: Seq<char>,
    list: Seq<Seq<char>>,
    total: nat,
    top: nat,
    what: Seq<char>,
)
    ensures
        list.len() == 0 ==> listed_lines(head, list, total, top, what).len() == 0,
        list.len() > 0 ==> listed_lines(head, list, total, top, what)[0] == head && listed_lines(
            head,
            list,
            total,
            top,
            what,
        ).subrange(1, 1 + list.len() as int) == list,
        list.len() > 0 && total <= top ==> listed_lines(head, list, total, top, what).len()
            == list.len() + 1,
        list.len() > 0 && total > top ==> listed_lines(head, list, total, top, what).last()
            == "  ... "@ + decimal((total - top) as nat) + what,
{
    if list.len() > 0 {
        assert(listed_lines(head, list, total, top, what).subrange(1, 1 + list.len() as int)
            =~= list);
    }
}

/// A report says that nothing is left just where no work and no gap is left; otherwise it names a
/// next step for each kind of work that is.
pub proof fn law_verdict(db: Seq<char>, s: CrawlCompletionSummary, coverage: SummaryView)
    ensures
        ({
            let lines = verdict_lines(db, s, coverage);
            let complete = unfinished(s) == 0 && exhausted(s) == 0 && coverage.unfinished_groups
                == 0 && coverage.gap_groups == 0;
            &&& is_complete(s, coverage) <==> complete
            &&& complete ==> lines == seq![
                "completion ok: no pending, retryable, exhausted, or coverage-gap work found"@,
            ]
            &&& !complete ==> lines[0] == "next steps:"@
            &&& !complete && (s.failed_403_items > 0 || s.failed_403_search_pages > 0)
                ==> lines.contains(
                "  retry HTTP 403 rows: rusneb-parser retry-failed --db "@ + db
                    + " --http-status 403"@,
            )
            &&& exhausted(s) > 0 ==> lines.contains(
                "  retry exhausted failures: rusneb-parser retry-failed --db "@ + db,
            )
            &&& unfinished(s) > 0 ==> lines.contains(
                "  rerun the crawl command to drain pending or retryable work"@,
            )
            &&& coverage.unfinished_groups > 0 || coverage.gap_groups > 0 ==> lines.contains(
                "  rerun the crawl command so automatic overflow sharding can close coverage gaps"@,
            )
            &&& lines.len() <= 5
        }),
{
    let lines = verdict_lines(db, s, coverage);
    let a: int = if s.failed_403_items > 0 || s.failed_403_search_pages > 0 {
        1
    } else {
        0
    };
    let b: int = if exhausted(s) > 0 {
        1
    } else {
        0
    };
    let c: int = if unfinished(s) > 0 {
        1
    } else {
        0
    };
    if !is_complete(s, coverage) {
        if a == 1 {
            assert(lines[1] == "  retry HTTP 403 rows: rusneb-parser retry-failed --db "@ + db
                + " --http-status 403"@);
        }
        if b == 1 {
            assert(lines[1 + a] == "  retry exhausted failures: rusneb-parser retry-failed --db "@
                + db);
        }
        if c == 1 {
            assert(lines[1 + a + b]
                == "  rerun the crawl command to drain pending or retryable work"@);
        }
        if coverage.unfinished_groups > 0 || coverage.gap_groups > 0 {
            assert(lines[1 + a + b + c]
                == "  rerun the crawl command so automatic overflow sharding can close coverage gaps"@);
        }
    }
}

/// A report holds the states of the items and of the search pages, the results of the validation,
/// the failures and the verdict, in this order.
pub proof fn law_report(
    db: Seq<char>,
    s: CrawlCompletionSummary,
    coverage: SummaryView,
    top: nat,
    counts: Seq<FailedHttpStatusCount>,
    samples: Seq<FailedItemSample>,
)
    ensures
        ({
            let lines = report_lines(db, s, coverage, top, counts, samples);
            let a = 3 + status_lines("items"@, s.items).len() as int;
            let b = a + 2 + status_lines("search_pages"@, s.search_pages).len() as int;
            let c = b + 3 + coverage_lines(coverage, top).len() as int;
            &&& lines[0] == "completion report:"@
            &&& lines[1] == "  db: "@ + db
            &&& lines[2] == "  records: "@ + decimal(s.records as nat)
            &&& lines.subrange(3, a) == status_lines("items"@, s.items)
            &&& lines[a] == "    retryable_failed: "@ + decimal(s.retryable_failed_items as nat)
            &&& lines[a + 1] == "    exhausted_failed: "@ + decimal(
                s.exhausted_failed_items as nat,
            )
            &&& lines.subrange(a + 2, b) == status_lines("search_pages"@, s.search_pages)
            &&& lines[b] == "    retryable_failed: "@ + decimal(
                s.retryable_failed_search_pages as nat,
            )
            &&& lines[b + 1] == "    exhausted_failed: "@ + decimal(
                s.exhausted_failed_search_pages as nat,
            )
            &&& lines[b + 2] == "coverage:"@
            &&& lines.subrange(b + 3, c) == coverage_lines(coverage, top)
            &&& lines.skip(c) == count_lines(counts) + sample_lines(samples) + verdict_lines(
                db,
                s,
                coverage,
            )
        }),
{
    let lines = report_lines(db, s, coverage, top, counts, samples);
    let p = status_lines("items"@, s.items);
    let q = status_lines("search_pages"@, s.search_pages);
    let r = coverage_lines(coverage, top);
    let a = 3 + p.len() as int;
    let b = a + 2 + q.len() as int;
    let c = b + 3 + r.len() as int;
    assert(lines.subrange(3, a) =~= p);
    assert(lines.subrange(a + 2, b) =~= q);
    assert(lines.subrange(b + 3, c) =~= r);
    assert(lines.skip(c) =~= count_lines(counts) + sample_lines(samples) + verdict_lines(
        db,
        s,
        coverage,
    ));
}

/// Each count and each sample has its line below the head of its list.
pub proof fn law_failure_lines(
    counts: Seq<FailedHttpStatusCount>,
    samples: Seq<FailedItemSample>,
    i: int,
)
    ensures
        counts.len() == 0 ==> count_lines(counts).len() == 0,
        samples.len() == 0 ==> sample_lines(samples).len() == 0,
        0 <= i < counts.len() ==> count_lines(counts).len() == counts.len() + 1 && count_lines(
            counts,
        )[0] == "failed item HTTP statuses:"@ && (counts[i].http_status matches Some(code)
            ==> count_lines(counts)[i + 1] == "  HTTP "@ + decimal(code as nat) + ": "@ + decimal(
            counts[i].count as nat,
        )) && (counts[i].http_status is None ==> count_lines(counts)[i + 1] == "  HTTP "@
            + "<none>"@ + ": "@ + decimal(counts[i].count as nat)),
        0 <= i < samples.len() ==> sample_lines(samples).len() == samples.len() + 1 && sample_lines(
            samples,
        )[0] == "failed item sample:"@ && sample_lines(samples)[i + 1] == sample_line(samples[i]),
{
}

} // verus!
