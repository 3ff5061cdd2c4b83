use crate::coverage::{
    build_coverage_groups, coverage_shard_matches_filters, effective_coverage_overflow_facets,
    group_views, groups_of, matches_filters, validation_facets, CoverageGroup, GroupView,
    ValidateCoverageArgs,
};
use crate::labels::{coverage_shard_label, stream_label};
use crate::numerals::{decimal, decimal_text, option_decimal, option_decimal_text};
use crate::ranking::{heavier, law_ranking, positions, rank, ranked};
use crate::shards::{all_shards, shard_views, CoverageShard, ShardView};
use crate::state::{CrawlState, StateView};
use crate::text::{has_text, join, joined, lemma_stands_last, lemma_stays_inside};
use crate::views::{
    count_where, group_texts, law_count_where, lemma_count_bound, lemma_count_next,
    lemma_count_zero, lemma_take_next, texts,
};
use vstd::prelude::*;

verus! {

broadcast use group_texts;

/// What a validation of coverage found.
#[derive(Debug)]
pub struct CoverageValidationSummary {
    pub shards: usize,
    pub groups: usize,
    pub unfinished_shards: usize,
    pub gap_shards: usize,
    pub window_limited_shards: usize,
    pub per_query_missing_results: u64,
    pub unfinished_groups: usize,
    pub gap_groups: usize,
    pub grouped_missing_results: u64,
    pub display_shards_total: usize,
    pub display_groups_total: usize,
    pub display_shard_lines: Vec<String>,
    pub display_group_lines: Vec<String>,
}

/// The texts and numbers that a validation of coverage found.
#[verifier::ext_equal]
pub ghost struct SummaryView {
    pub shards: nat,
    pub groups: nat,
    pub unfinished_shards: nat,
    pub gap_shards: nat,
    pub window_limited_shards: nat,
    pub per_query_missing_results: u64,
    pub unfinished_groups: nat,
    pub gap_groups: nat,
    pub grouped_missing_results: u64,
    pub display_shards_total: nat,
    pub display_groups_total: nat,
    pub display_shard_lines: Seq<Seq<char>>,
    pub display_group_lines: Seq<Seq<char>>,
}

impl View for CoverageValidationSummary {
    type V = SummaryView;

    open spec fn view(&self) -> SummaryView {
        SummaryView {
            shards: self.shards as nat,
            groups: self.groups as nat,
            unfinished_shards: self.unfinished_shards as nat,
            gap_shards: self.gap_shards as nat,
            window_limited_shards: self.window_limited_shards as nat,
            per_query_missing_results: self.per_query_missing_results,
            unfinished_groups: self.unfinished_groups as nat,
            gap_groups: self.gap_groups as nat,
            grouped_missing_results: self.grouped_missing_results,
            display_shards_total: self.display_shards_total as nat,
            display_groups_total: self.display_groups_total as nat,
            display_shard_lines: texts(self.display_shard_lines@),
            display_group_lines: texts(self.display_group_lines@),
        }
    }
}

impl CoverageValidationSummary {
    /// Whether every group is read to its end and nothing of it is missing.
    pub fn is_ok(&self) -> (result: bool)
        ensures
            result == (self.unfinished_groups == 0 && self.gap_groups == 0),
    {
        self.unfinished_groups == 0 && self.gap_groups == 0
    }
}

/// The names of what is to be said of a stream.
pub open spec fn flag_names(shard: ShardView, window_limit_results: u64) -> Seq<Seq<char>> {
    (if shard.unfinished() {
        seq!["unfinished"@]
    } else {
        Seq::empty()
    }) + (if shard.has_gap() {
        seq!["gap"@]
    } else {
        Seq::empty()
    }) + (if shard.window_limited(window_limit_results) {
        seq!["window-limit"@]
    } else {
        Seq::empty()
    })
}

/// What is to be said of a stream.
pub open spec fn flags_text(shard: ShardView, window_limit_results: u64) -> Seq<char> {
    if flag_names(shard, window_limit_results).len() == 0 {
        Seq::empty()
    } else {
        " flags="@ + joined(flag_names(shard, window_limit_results), ","@)
    }
}

/// What is to be said of a stream.
pub fn coverage_flags(shard: &CoverageShard, window_limit_results: u64) -> (result: String)
    ensures
        result@ == flags_text(shard@, window_limit_results),
{
    let mut flags: Vec<String> = Vec::new();
    if shard.has_unfinished_pages() {
        flags.push("unfinished".to_owned());
    }
    if shard.has_coverage_gap() {
        flags.push("gap".to_owned());
    }
    if shard.looks_window_limited(window_limit_results) {
        flags.push("window-limit".to_owned());
    }
    assert(texts(flags@) =~= flag_names(shard@, window_limit_results));
    if flags.len() == 0 {
        return String::new();
    }
    let mut out: String = " flags=".to_owned();
    let names = join(&flags, ",");
    out.append(&names);
    out
}

/// The number in an option, or zero.
pub open spec fn or_zero(n: Option<u64>) -> u64 {
    match n {
        Some(n) => n,
        None => 0,
    }
}

fn number_or_zero(n: Option<u64>) -> (result: u64)
    ensures
        result == or_zero(n),
{
    match n {
        Some(n) => n,
        None => 0,
    }
}

/// A line on the coverage of a stream.
pub open spec fn shard_line(shard: ShardView, window_limit_results: u64) -> Seq<char> {
    "  "@ + shard.search_key + " | "@ + stream_label(shard.params_json) + " | pages="@ + decimal(
        shard.pages as nat,
    ) + " done="@ + decimal(shard.done_pages as nat) + " pending="@ + decimal(
        shard.pending_pages as nat,
    ) + " in_progress="@ + decimal(shard.in_progress_pages as nat) + " failed="@ + decimal(
        shard.failed_pages as nat,
    ) + " discovered="@ + decimal(shard.discovered_results as nat) + " unique="@ + decimal(
        shard.unique_item_ids as nat,
    ) + " total="@ + option_decimal(shard.reported_total_results) + " missing="@ + decimal(
        or_zero(shard.missing()) as nat,
    ) + " max_done_page="@ + option_decimal(shard.max_done_page) + flags_text(
        shard,
        window_limit_results,
    )
}

fn append_number(out: &mut String, name: &str, n: u64)
    ensures
        final(out)@ == old(out)@ + name@ + decimal(n as nat),
{
    let number = decimal_text(n);
    out.append(name);
    out.append(&number);
}

fn append_option(out: &mut String, name: &str, n: Option<u64>)
    ensures
        final(out)@ == old(out)@ + name@ + option_decimal(n),
{
    let number = option_decimal_text(n);
    out.append(name);
    out.append(&number);
}

/// A line on the coverage of a stream.
pub fn coverage_shard_line(shard: &CoverageShard, window_limit_results: u64) -> (result: String)
    ensures
        result@ == shard_line(shard@, window_limit_results),
{
    let label = coverage_shard_label(&shard.params_json);
    let flags = coverage_flags(shard, window_limit_results);
    let mut out: String = "  ".to_owned();
    out.append(&shard.search_key);
    out.append(" | ");
    out.append(&label);
    append_number(&mut out, " | pages=", shard.pages);
    append_number(&mut out, " done=", shard.done_pages);
    append_number(&mut out, " pending=", shard.pending_pages);
    append_number(&mut out, " in_progress=", shard.in_progress_pages);
    append_number(&mut out, " failed=", shard.failed_pages);
    append_number(&mut out, " discovered=", shard.discovered_results);
    append_number(&mut out, " unique=", shard.unique_item_ids);
    append_option(&mut out, " total=", shard.reported_total_results);
    append_number(&mut out, " missing=", number_or_zero(shard.missing_results()));
    append_option(&mut out, " max_done_page=", shard.max_done_page);
    out.append(&flags);
    out
}

/// A line on the coverage of a group.
pub open spec fn group_line(group: GroupView) -> Seq<char> {
    "  "@ + group.key + " | "@ + group.label + " | shards="@ + decimal(group.shard_count)
        + " unfinished="@ + decimal(group.unfinished_shards) + " unique="@ + decimal(
        group.unique_item_ids as nat,
    ) + " total="@ + option_decimal(group.reported_total_results) + " missing="@ + decimal(
        or_zero(group.missing()) as nat,
    ) + " keys="@ + joined(group.search_keys, ","@)
}

/// A line on the coverage of a group.
pub fn coverage_group_line(group: &CoverageGroup) -> (result: String)
    ensures
        result@ == group_line(group@),
{
    let keys = join(&group.search_keys, ",");
    let mut out: String = "  ".to_owned();
    out.append(&group.key);
    out.append(" | ");
    out.append(&group.label);
    append_number(&mut out, " | shards=", group.shard_count as u64);
    append_number(&mut out, " unfinished=", group.unfinished_shards as u64);
    append_number(&mut out, " unique=", group.unique_item_ids);
    append_option(&mut out, " total=", group.reported_total_results);
    append_number(&mut out, " missing=", number_or_zero(group.missing_results()));
    out.append(" keys=");
    out.append(&keys);
    out
}

/// The streams that are looked at.
pub open spec fn matching(shards: Seq<ShardView>, args: ValidateCoverageArgs) -> Seq<ShardView>
    decreases shards.len(),
{
    if shards.len() == 0 {
        Seq::empty()
    } else if matches_filters(shards.last().params_json, args) {
        matching(shards.drop_last(), args).push(shards.last())
    } else {
        matching(shards.drop_last(), args)
    }
}

/// A sum that stops at the largest number that can be held.
pub open spec fn capped_sum(a: u64, b: u64) -> u64 {
    if a + b <= u64::MAX {
        (a + b) as u64
    } else {
        u64::MAX
    }
}

/// How many results of some streams are missing in all.
pub open spec fn missing_of_shards(shards: Seq<ShardView>) -> u64
    decreases shards.len(),
{
    if shards.len() == 0 {
        0
    } else {
        capped_sum(missing_of_shards(shards.drop_last()), or_zero(shards.last().missing()))
    }
}

/// How many results of some groups are missing in all.
pub open spec fn missing_of_groups(groups: Seq<GroupView>) -> u64
    decreases groups.len(),
{
    if groups.len() == 0 {
        0
    } else {
        capped_sum(missing_of_groups(groups.drop_last()), or_zero(groups.last().missing()))
    }
}

/// Whether a stream is shown.
pub open spec fn shard_shown(shard: ShardView, show_all: bool) -> bool {
    show_all || shard.unfinished() || shard.has_gap()
}

/// Whether a group is shown.
pub open spec fn group_shown(group: GroupView, show_all: bool) -> bool {
    show_all || group.unfinished_shards > 0 || group.has_gap()
}

/// The streams that are shown.
pub open spec fn shown_shards(shards: Seq<ShardView>, show_all: bool) -> Seq<ShardView>
    decreases shards.len(),
{
    if shards.len() == 0 {
        Seq::empty()
    } else if shard_shown(shards.last(), show_all) {
        shown_shards(shards.drop_last(), show_all).push(shards.last())
    } else {
        shown_shards(shards.drop_last(), show_all)
    }
}

/// The groups that are shown.
pub open spec fn shown_groups(groups: Seq<GroupView>, show_all: bool) -> Seq<GroupView>
    decreases groups.len(),
{
    if groups.len() == 0 {
        Seq::empty()
    } else if group_shown(groups.last(), show_all) {
        shown_groups(groups.drop_last(), show_all).push(groups.last())
    } else {
        shown_groups(groups.drop_last(), show_all)
    }
}

/// What streams are ranked by: how much is missing, then how much was found.
pub open spec fn shard_weights(shards: Seq<ShardView>) -> Seq<(u64, u64)> {
    shards.map_values(|s: ShardView| (or_zero(s.missing()), s.discovered_results))
}

/// What groups are ranked by: how much is missing, then how much was found.
pub open spec fn group_weights(groups: Seq<GroupView>) -> Seq<(u64, u64)> {
    groups.map_values(|g: GroupView| (or_zero(g.missing()), g.unique_item_ids))
}

/// The first of some positions, at most `top`.
pub open spec fn first_of(order: Seq<int>, top: nat) -> Seq<int> {
    if top < order.len() {
        order.take(top as int)
    } else {
        order
    }
}

/// The lines on the streams that are shown, from the one that misses most on, at most `top`.
pub open spec fn shard_lines(
    shards: Seq<ShardView>,
    window_limit_results: u64,
    top: nat,
) -> Seq<Seq<char>> {
    first_of(ranked(shard_weights(shards), shards.len()), top).map_values(
        |i: int| shard_line(shards[i], window_limit_results),
    )
}

/// The lines on the groups that are shown, from the one that misses most on, at most `top`.
pub open spec fn group_lines(groups: Seq<GroupView>, top: nat) -> Seq<Seq<char>> {
    first_of(ranked(group_weights(groups), groups.len()), top).map_values(
        |i: int| group_line(groups[i]),
    )
}

/// What a validation finds of some streams and their groups.
pub open spec fn summary_of(
    shards: Seq<ShardView>,
    groups: Seq<GroupView>,
    args: ValidateCoverageArgs,
) -> SummaryView {
    SummaryView {
        shards: shards.len(),
        groups: groups.len(),
        unfinished_shards: count_where(shards, |s: ShardView| s.unfinished()),
        gap_shards: count_where(shards, |s: ShardView| s.has_gap()),
        window_limited_shards: count_where(
            shards,
            |s: ShardView| s.window_limited(args.window_limit_results),
        ),
        per_query_missing_results: missing_of_shards(shards),
        unfinished_groups: count_where(groups, |g: GroupView| g.unfinished_shards > 0),
        gap_groups: count_where(groups, |g: GroupView| g.has_gap()),
        grouped_missing_results: missing_of_groups(groups),
        display_shards_total: shown_shards(shards, args.show_all).len(),
        display_groups_total: shown_groups(groups, args.show_all).len(),
        display_shard_lines: shard_lines(
            shown_shards(shards, args.show_all),
            args.window_limit_results,
            args.top as nat,
        ),
        display_group_lines: group_lines(shown_groups(groups, args.show_all), args.top as nat),
    }
}

/// What a validation of coverage finds, or the message on why it finds nothing.
pub open spec fn validation_of(state: StateView, args: ValidateCoverageArgs) -> Result<
    SummaryView,
    Seq<char>,
> {
    let shards = matching(all_shards(state), args);
    if shards.len() == 0 {
        Err("coverage validation failed: no search pages found"@)
    } else {
        match groups_of(state, shards, validation_facets(args)) {
            Err(message) => Err(message),
            Ok(groups) => Ok(summary_of(shards, groups, args)),
        }
    }
}

fn keep_matching(shards: &Vec<CoverageShard>, args: &ValidateCoverageArgs) -> (result: Vec<
    CoverageShard,
>)
    ensures
        shard_views(result@) == matching(shard_views(shards@), *args),
{
    let ghost all = shard_views(shards@);
    let mut out: Vec<CoverageShard> = Vec::new();
    for i in 0..shards.len()
        invariant
            all == shard_views(shards@),
            shard_views(out@) == matching(all.take(i as int), *args),
    {
        proof {
            lemma_take_next(all, i as int);
            assert(all.take(i + 1).drop_last() == all.take(i as int));
        }
        if coverage_shard_matches_filters(&shards[i], args) {
            out.push(shards[i].clone());
        }
    }
    assert(all.take(all.len() as int) == all);
    out
}

/// The lines on the streams that are shown, with how many are shown.
fn show_shards(shards: &Vec<CoverageShard>, args: &ValidateCoverageArgs) -> (result: (
    usize,
    Vec<String>,
))
    ensures
        result.0 == shown_shards(shard_views(shards@), args.show_all).len(),
        texts(result.1@) == shard_lines(
            shown_shards(shard_views(shards@), args.show_all),
            args.window_limit_results,
            args.top as nat,
        ),
{
    let ghost all = shard_views(shards@);
    let mut shown: Vec<CoverageShard> = Vec::new();
    let mut weights: Vec<(u64, u64)> = Vec::new();
    assert(shard_weights(shard_views(shown@)) =~= weights@);
    for i in 0..shards.len()
        invariant
            all == shard_views(shards@),
            shard_views(shown@) == shown_shards(all.take(i as int), args.show_all),
            weights@ == shard_weights(shard_views(shown@)),
    {
        proof {
            lemma_take_next(all, i as int);
            assert(all.take(i + 1).drop_last() == all.take(i as int));
        }
        let shard = &shards[i];
        if args.show_all || shard.has_unfinished_pages() || shard.has_coverage_gap() {
            weights.push((number_or_zero(shard.missing_results()), shard.discovered_results));
            shown.push(shard.clone());
        }
    }
    assert(all.take(all.len() as int) == all);
    let ghost views = shard_views(shown@);
    let order = rank(&weights);
    let count: usize = if args.top < order.len() {
        args.top
    } else {
        order.len()
    };
    proof {
        law_ranking(weights@, weights@.len());
    }
    let ghost wanted = shard_lines(views, args.window_limit_results, args.top as nat);
    let mut lines: Vec<String> = Vec::new();
    for i in 0..count
        invariant
            count <= order@.len(),
            wanted.len() == count,
            weights@.len() == shown@.len(),
            views == shard_views(shown@),
            forall|k: int| 0 <= k < order@.len() ==> (#[trigger] order@[k]) < weights@.len(),
            forall|k: int|
                0 <= k < count ==> #[trigger] wanted[k] == shard_line(
                    views[order@[k] as int],
                    args.window_limit_results,
                ),
            texts(lines@) == wanted.take(i as int),
    {
        lines.push(coverage_shard_line(&shown[order[i]], args.window_limit_results));
        proof {
            lemma_take_next(wanted, i as int);
        }
    }
    assert(wanted.take(count as int) == wanted);
    (shown.len(), lines)
}

/// The positions of the groups that are shown.
fn show_groups(groups: &Vec<CoverageGroup>, args: &ValidateCoverageArgs) -> (result: (
    usize,
    Vec<String>,
))
    ensures
        result.0 == shown_groups(group_views(groups@), args.show_all).len(),
        texts(result.1@) == group_lines(
            shown_groups(group_views(groups@), args.show_all),
            args.top as nat,
        ),
{
    let ghost all = group_views(groups@);
    let mut at: Vec<usize> = Vec::new();
    let mut weights: Vec<(u64, u64)> = Vec::new();
    let ghost mut views: Seq<GroupView> = Seq::empty();
    assert(group_weights(views) =~= weights@);
    for i in 0..groups.len()
        invariant
            all == group_views(groups@),
            views == shown_groups(all.take(i as int), args.show_all),
            at@.len() == views.len(),
            forall|k: int|
                0 <= k < at@.len() ==> (#[trigger] at@[k]) < i && views[k] == all[at@[k] as int],
            weights@ == group_weights(views),
    {
        proof {
            lemma_take_next(all, i as int);
            assert(all.take(i + 1).drop_last() == all.take(i as int));
        }
        let group = &groups[i];
        if args.show_all || group.unfinished_shards > 0 || group.has_coverage_gap() {
            weights.push((number_or_zero(group.missing_results()), group.unique_item_ids));
            at.push(i);
            proof {
                views = views.push(all[i as int]);
            }
        }
    }
    assert(all.take(all.len() as int) == all);
    let order = rank(&weights);
    let count: usize = if args.top < order.len() {
        args.top
    } else {
        order.len()
    };
    proof {
        law_ranking(weights@, weights@.len());
    }
    let ghost wanted = group_lines(views, args.top as nat);
    let mut lines: Vec<String> = Vec::new();
    for i in 0..count
        invariant
            count <= order@.len(),
            wanted.len() == count,
            all == group_views(groups@),
            weights@.len() == at@.len() == views.len(),
            forall|k: int|
                0 <= k < at@.len() ==> (#[trigger] at@[k]) < groups@.len() && views[k]
                    == all[at@[k] as int],
            forall|k: int| 0 <= k < order@.len() ==> (#[trigger] order@[k]) < weights@.len(),
            forall|k: int|
                0 <= k < count ==> #[trigger] wanted[k] == group_line(views[order@[k] as int]),
            texts(lines@) == wanted.take(i as int),
    {
        lines.push(coverage_group_line(&groups[at[order[i]]]));
        proof {
            lemma_take_next(wanted, i as int);
        }
    }
    assert(wanted.take(count as int) == wanted);
    (at.len(), lines)
}

/// Whether a result is what the validation finds.
pub open spec fn validation_matches(
    result: Result<CoverageValidationSummary, String>,
    found: Result<SummaryView, Seq<char>>,
) -> bool {
    match (result, found) {
        (Ok(summary), Ok(view)) => summary@ == view,
        (Err(message), Err(text)) => message@ == text,
        _ => false,
    }
}

/// What there is to say of some streams and their groups.
fn summarize(
    shards: &Vec<CoverageShard>,
    groups: &Vec<CoverageGroup>,
    args: &ValidateCoverageArgs,
) -> (result: CoverageValidationSummary)
    ensures
        result@ == summary_of(shard_views(shards@), group_views(groups@), *args),
{
    let ghost all = shard_views(shards@);
    let ghost open_shard = |s: ShardView| s.unfinished();
    let ghost gap_shard = |s: ShardView| s.has_gap();
    let ghost window_shard = |s: ShardView| s.window_limited(args.window_limit_results);
    let mut unfinished_shards: usize = 0;
    let mut gap_shards: usize = 0;
    let mut window_limited_shards: usize = 0;
    let mut shard_missing: u64 = 0;
    for i in 0..shards.len()
        invariant
            all == shard_views(shards@),
            open_shard == (|s: ShardView| s.unfinished()),
            gap_shard == (|s: ShardView| s.has_gap()),
            window_shard == (|s: ShardView| s.window_limited(args.window_limit_results)),
            unfinished_shards == count_where(all.take(i as int), open_shard),
            gap_shards == count_where(all.take(i as int), gap_shard),
            window_limited_shards == count_where(all.take(i as int), window_shard),
            shard_missing == missing_of_shards(all.take(i as int)),
    {
        proof {
            lemma_take_next(all, i as int);
            assert(all.take(i + 1).drop_last() == all.take(i as int));
            lemma_count_next(all, open_shard, i as int);
            lemma_count_next(all, gap_shard, i as int);
            lemma_count_next(all, window_shard, i as int);
            lemma_count_bound(all.take(i as int), open_shard);
            lemma_count_bound(all.take(i as int), gap_shard);
            lemma_count_bound(all.take(i as int), window_shard);
        }
        let shard = &shards[i];
        if shard.has_unfinished_pages() {
            unfinished_shards = unfinished_shards + 1;
        }
        if shard.has_coverage_gap() {
            gap_shards = gap_shards + 1;
        }
        if shard.looks_window_limited(args.window_limit_results) {
            window_limited_shards = window_limited_shards + 1;
        }
        shard_missing = shard_missing.saturating_add(number_or_zero(shard.missing_results()));
    }
    assert(all.take(all.len() as int) == all);
    let ghost views = group_views(groups@);
    let ghost open_group = |g: GroupView| g.unfinished_shards > 0;
    let ghost gap_group = |g: GroupView| g.has_gap();
    let mut unfinished_groups: usize = 0;
    let mut gap_groups: usize = 0;
    let mut group_missing: u64 = 0;
    for i in 0..groups.len()
        invariant
            views == group_views(groups@),
            open_group == (|g: GroupView| g.unfinished_shards > 0),
            gap_group == (|g: GroupView| g.has_gap()),
            unfinished_groups == count_where(views.take(i as int), open_group),
            gap_groups == count_where(views.take(i as int), gap_group),
            group_missing == missing_of_groups(views.take(i as int)),
    {
        proof {
            lemma_take_next(views, i as int);
            assert(views.take(i + 1).drop_last() == views.take(i as int));
            lemma_count_next(views, open_group, i as int);
            lemma_count_next(views, gap_group, i as int);
            lemma_count_bound(views.take(i as int), open_group);
            lemma_count_bound(views.take(i as int), gap_group);
        }
        let group = &groups[i];
        if group.unfinished_shards > 0 {
            unfinished_groups = unfinished_groups + 1;
        }
        if group.has_coverage_gap() {
            gap_groups = gap_groups + 1;
        }
        group_missing = group_missing.saturating_add(number_or_zero(group.missing_results()));
    }
    assert(views.take(views.len() as int) == views);
    let (display_shards_total, display_shard_lines) = show_shards(shards, args);
    let (display_groups_total, display_group_lines) = show_groups(groups, args);
    CoverageValidationSummary {
        shards: shards.len(),
        groups: groups.len(),
        unfinished_shards,
        gap_shards,
        window_limited_shards,
        per_query_missing_results: shard_missing,
        unfinished_groups,
        gap_groups,
        grouped_missing_results: group_missing,
        display_shards_total,
        display_groups_total,
        display_shard_lines,
        display_group_lines,
    }
}

/// Validates that the pages that were read cover what the site reports.
pub fn coverage_validation_summary(state: &CrawlState, args: &ValidateCoverageArgs) -> (result:
    Result<CoverageValidationSummary, String>)
    ensures
        validation_matches(result, validation_of(state@, *args)),
{
    let facets = effective_coverage_overflow_facets(args);
    let all = state.coverage_report();
    let shards = keep_matching(&all, args);
    if shards.len() == 0 {
        return Err("coverage validation failed: no search pages found".to_owned());
    }
    let groups = match build_coverage_groups(state, &shards, &facets) {
        Ok(groups) => groups,
        Err(message) => return Err(message),
    };
    Ok(summarize(&shards, &groups, args))
}

/// A validation is passed just where every group of the streams that are looked at is read to its
/// end and has as many items as the site reports.
pub proof fn law_validation_is_passed(state: StateView, args: ValidateCoverageArgs)
    requires
        validation_of(state, args) is Ok,
    ensures
        ({
            let groups = groups_of(
                state,
                matching(all_shards(state), args),
                validation_facets(args),
            )->Ok_0;
            let summary = validation_of(state, args)->Ok_0;
            summary.unfinished_groups == 0 && summary.gap_groups == 0 <==> (forall|i: int|
                0 <= i < groups.len() ==> (#[trigger] groups[i]).unfinished_shards == 0 && (
                groups[i].reported_total_results matches Some(total) ==> total
                    <= groups[i].unique_item_ids))
        }),
{
    let groups = groups_of(
        state,
        matching(all_shards(state), args),
        validation_facets(args),
    )->Ok_0;
    let p = |g: GroupView| g.unfinished_shards > 0;
    let q = |g: GroupView| g.has_gap();
    lemma_count_zero(groups, p);
    lemma_count_zero(groups, q);
    let summary = validation_of(state, args)->Ok_0;
    if summary.unfinished_groups == 0 && summary.gap_groups == 0 {
        assert forall|i: int| 0 <= i < groups.len() implies (
        #[trigger] groups[i]).unfinished_shards == 0 && (
        groups[i].reported_total_results matches Some(total) ==> total
            <= groups[i].unique_item_ids) by {
            assert(!p(groups[i]));
            assert(!q(groups[i]));
        }
    }
}

/// The line of a shard tells each of its numbers under its name.
pub proof fn law_shard_line(shard: ShardView, window_limit_results: u64)
    ensures
        has_text(shard_line(shard, window_limit_results), " | pages="@ + decimal(shard.pages as nat) + " done="@),
        has_text(shard_line(shard, window_limit_results), " done="@ + decimal(shard.done_pages as nat) + " pending="@),
        has_text(shard_line(shard, window_limit_results), " pending="@ + decimal(shard.pending_pages as nat) + " in_progress="@),
        has_text(shard_line(shard, window_limit_results), " in_progress="@ + decimal(shard.in_progress_pages as nat) + " failed="@),
        has_text(shard_line(shard, window_limit_results), " failed="@ + decimal(shard.failed_pages as nat) + " discovered="@),
        has_text(shard_line(shard, window_limit_results), " discovered="@ + decimal(shard.discovered_results as nat) + " unique="@),
        has_text(shard_line(shard, window_limit_results), " unique="@ + decimal(shard.unique_item_ids as nat) + " total="@),
        has_text(shard_line(shard, window_limit_results), " total="@ + option_decimal(shard.reported_total_results) + " missing="@),
        has_text(shard_line(shard, window_limit_results), " missing="@ + decimal(or_zero(shard.missing()) as nat) + " max_done_page="@),
        has_text(shard_line(shard, window_limit_results), " max_done_page="@ + option_decimal(shard.max_done_page) + flags_text(shard, window_limit_results)),
{
    broadcast use lemma_stays_inside;

    let s4 = "  "@ + shard.search_key + " | "@ + stream_label(shard.params_json);
    lemma_stands_last(s4, " | pages="@, decimal(shard.pages as nat), " done="@);
    let s6 = s4 + " | pages="@ + decimal(shard.pages as nat);
    lemma_stands_last(s6, " done="@, decimal(shard.done_pages as nat), " pending="@);
    let s8 = s6 + " done="@ + decimal(shard.done_pages as nat);
    lemma_stands_last(s8, " pending="@, decimal(shard.pending_pages as nat), " in_progress="@);
    let s10 = s8 + " pending="@ + decimal(shard.pending_pages as nat);
    lemma_stands_last(s10, " in_progress="@, decimal(shard.in_progress_pages as nat), " failed="@);
    let s12 = s10 + " in_progress="@ + decimal(shard.in_progress_pages as nat);
    lemma_stands_last(s12, " failed="@, decimal(shard.failed_pages as nat), " discovered="@);
    let s14 = s12 + " failed="@ + decimal(shard.failed_pages as nat);
    lemma_stands_last(s14, " discovered="@, decimal(shard.discovered_results as nat), " unique="@);
    let s16 = s14 + " discovered="@ + decimal(shard.discovered_results as nat);
    lemma_stands_last(s16, " unique="@, decimal(shard.unique_item_ids as nat), " total="@);
    let s18 = s16 + " unique="@ + decimal(shard.unique_item_ids as nat);
    lemma_stands_last(s18, " total="@, option_decimal(shard.reported_total_results), " missing="@);
    let s20 = s18 + " total="@ + option_decimal(shard.reported_total_results);
    lemma_stands_last(s20, " missing="@, decimal(or_zero(shard.missing()) as nat), " max_done_page="@);
    let s22 = s20 + " missing="@ + decimal(or_zero(shard.missing()) as nat);
    lemma_stands_last(s22, " max_done_page="@, option_decimal(shard.max_done_page), flags_text(shard, window_limit_results));
}

/// The line of a group tells each of its numbers under its name.
pub proof fn law_group_line(group: GroupView)
    ensures
        has_text(group_line(group), "  "@ + group.key + " | "@),
        has_text(group_line(group), " | "@ + group.label + " | shards="@),
        has_text(group_line(group), " | shards="@ + decimal(group.shard_count) + " unfinished="@),
        has_text(group_line(group), " unfinished="@ + decimal(group.unfinished_shards) + " unique="@),
        has_text(group_line(group), " unique="@ + decimal(group.unique_item_ids as nat) + " total="@),
        has_text(group_line(group), " total="@ + option_decimal(group.reported_total_results) + " missing="@),
        has_text(group_line(group), " missing="@ + decimal(or_zero(group.missing()) as nat) + " keys="@),
{
    broadcast use lemma_stays_inside;

    let s0 = Seq::<char>::empty();
    lemma_stands_last(s0, "  "@, group.key, " | "@);
    let s2 = s0 + "  "@ + group.key;
    lemma_stands_last(s2, " | "@, group.label, " | shards="@);
    let s4 = s2 + " | "@ + group.label;
    lemma_stands_last(s4, " | shards="@, decimal(group.shard_count), " unfinished="@);
    let s6 = s4 + " | shards="@ + decimal(group.shard_count);
    lemma_stands_last(s6, " unfinished="@, decimal(group.unfinished_shards), " unique="@);
    let s8 = s6 + " unfinished="@ + decimal(group.unfinished_shards);
    lemma_stands_last(s8, " unique="@, decimal(group.unique_item_ids as nat), " total="@);
    let s10 = s8 + " unique="@ + decimal(group.unique_item_ids as nat);
    lemma_stands_last(s10, " total="@, option_decimal(group.reported_total_results), " missing="@);
    let s12 = s10 + " total="@ + option_decimal(group.reported_total_results);
    lemma_stands_last(s12, " missing="@, decimal(or_zero(group.missing()) as nat), " keys="@);
}

/// A shard is flagged as unfinished, as having a gap and as having reached the window of results,
/// each just where it is so.
pub proof fn law_flags(shard: ShardView, window_limit_results: u64)
    ensures
        ({
            let flags = flag_names(shard, window_limit_results);
            &&& flags.contains("unfinished"@) <==> shard.pending_pages > 0
                || shard.in_progress_pages > 0 || shard.failed_pages > 0
            &&& flags.contains("gap"@) <==> (shard.reported_total_results matches Some(total)
                && shard.discovered_results < total)
            &&& flags.contains("window-limit"@) <==> (shard.reported_total_results matches Some(
                total,
            ) && shard.discovered_results < total) && shard.discovered_results
                >= window_limit_results
            &&& flags_text(shard, window_limit_results).len() == 0 <==> flags.len() == 0
            &&& flags.len() > 0 ==> flags_text(shard, window_limit_results) == " flags="@ + joined(
                flags,
                ","@,
            )
        }),
{
    let flags = flag_names(shard, window_limit_results);
    reveal_strlit("unfinished");
    reveal_strlit("gap");
    reveal_strlit("window-limit");
    reveal_strlit(" flags=");
    let a: int = if shard.unfinished() {
        1
    } else {
        0
    };
    if shard.unfinished() {
        assert(flags[0] == "unfinished"@);
    }
    if shard.has_gap() {
        assert(flags[a] == "gap"@);
    }
    if shard.window_limited(window_limit_results) {
        assert(flags[a + 1] == "window-limit"@);
    }
    assert("unfinished"@.len() != "gap"@.len());
    assert("unfinished"@.len() != "window-limit"@.len());
    assert("gap"@.len() != "window-limit"@.len());
}

/// The shards that are validated are those that match the filters, in their order.
pub proof fn law_matching(shards: Seq<ShardView>, shard: ShardView, args: ValidateCoverageArgs)
    ensures
        matching(Seq::empty(), args).len() == 0,
        matches_filters(shard.params_json, args) ==> matching(shards.push(shard), args) == matching(
            shards,
            args,
        ).push(shard),
        !matches_filters(shard.params_json, args) ==> matching(shards.push(shard), args)
            == matching(shards, args),
{
    assert(shards.push(shard).drop_last() =~= shards);
}

/// What is shown is what is unfinished or has a gap, or everything where that is asked for, in its
/// order.
pub proof fn law_shown(
    shards: Seq<ShardView>,
    shard: ShardView,
    groups: Seq<GroupView>,
    group: GroupView,
)
    ensures
        shown_shards(shards, true) == shards,
        shown_groups(groups, true) == groups,
        shown_shards(Seq::empty(), false).len() == 0,
        shown_groups(Seq::empty(), false).len() == 0,
        shard.pending_pages > 0 || shard.in_progress_pages > 0 || shard.failed_pages > 0
            || shard.has_gap() ==> shown_shards(shards.push(shard), false) == shown_shards(
            shards,
            false,
        ).push(shard),
        shard.pending_pages == 0 && shard.in_progress_pages == 0 && shard.failed_pages == 0
            && !shard.has_gap() ==> shown_shards(shards.push(shard), false) == shown_shards(
            shards,
            false,
        ),
        group.unfinished_shards > 0 || group.has_gap() ==> shown_groups(groups.push(group), false)
            == shown_groups(groups, false).push(group),
        group.unfinished_shards == 0 && !group.has_gap() ==> shown_groups(groups.push(group), false)
            == shown_groups(groups, false),
    decreases shards.len() + groups.len(),
{
    assert(shards.push(shard).drop_last() =~= shards);
    assert(groups.push(group).drop_last() =~= groups);
    if shards.len() > 0 {
        law_shown(shards.drop_last(), shard, Seq::empty(), group);
        assert(shards.drop_last().push(shards.last()) =~= shards);
    } else {
        assert(shown_shards(shards, true) =~= shards);
    }
    if groups.len() > 0 {
        law_shown(Seq::empty(), shard, groups.drop_last(), group);
        assert(groups.drop_last().push(groups.last()) =~= groups);
    } else {
        assert(shown_groups(groups, true) =~= groups);
    }
}

/// One more shard counts once in a summary, and once as unfinished, with a gap or at the window of
/// results where it is so; what it misses is added.
pub proof fn law_summary_counts_shards(
    shards: Seq<ShardView>,
    shard: ShardView,
    groups: Seq<GroupView>,
    args: ValidateCoverageArgs,
)
    ensures
        ({
            let before = summary_of(shards, groups, args);
            let after = summary_of(shards.push(shard), groups, args);
            let unfinished = shard.pending_pages > 0 || shard.in_progress_pages > 0
                || shard.failed_pages > 0;
            let missed: int = match shard.reported_total_results {
                Some(total) => if shard.discovered_results < total {
                    total - shard.discovered_results
                } else {
                    0
                },
                None => 0,
            };
            &&& after.shards == before.shards + 1
            &&& after.groups == before.groups
            &&& after.unfinished_groups == before.unfinished_groups
            &&& after.gap_groups == before.gap_groups
            &&& after.grouped_missing_results == before.grouped_missing_results
            &&& after.unfinished_shards == before.unfinished_shards + (if unfinished {
                1int
            } else {
                0
            })
            &&& after.gap_shards == before.gap_shards + (if missed > 0 {
                1int
            } else {
                0
            })
            &&& after.window_limited_shards == before.window_limited_shards + (if missed > 0
                && shard.discovered_results >= args.window_limit_results {
                1int
            } else {
                0
            })
            &&& before.per_query_missing_results + missed <= u64::MAX
                ==> after.per_query_missing_results == before.per_query_missing_results + missed
            &&& before.per_query_missing_results + missed > u64::MAX
                ==> after.per_query_missing_results == u64::MAX
        }),
{
    law_count_where(shards, shard, |s: ShardView| s.unfinished());
    law_count_where(shards, shard, |s: ShardView| s.has_gap());
    law_count_where(shards, shard, |s: ShardView| s.window_limited(args.window_limit_results));
    assert(shards.push(shard).drop_last() =~= shards);
}

/// One more group counts once in a summary, and once as unfinished or with a gap where it is so;
/// what it misses is added.
pub proof fn law_summary_counts_groups(
    shards: Seq<ShardView>,
    groups: Seq<GroupView>,
    group: GroupView,
    args: ValidateCoverageArgs,
)
    ensures
        ({
            let before = summary_of(shards, groups, args);
            let after = summary_of(shards, groups.push(group), args);
            let missed: int = match group.reported_total_results {
                Some(total) => if group.unique_item_ids < total {
                    total - group.unique_item_ids
                } else {
                    0
                },
                None => 0,
            };
            &&& after.groups == before.groups + 1
            &&& after.shards == before.shards
            &&& after.unfinished_shards == before.unfinished_shards
            &&& after.gap_shards == before.gap_shards
            &&& after.window_limited_shards == before.window_limited_shards
            &&& after.per_query_missing_results == before.per_query_missing_results
            &&& after.unfinished_groups == before.unfinished_groups + (if group.unfinished_shards
                > 0 {
                1int
            } else {
                0
            })
            &&& after.gap_groups == before.gap_groups + (if missed > 0 {
                1int
            } else {
                0
            })
            &&& before.grouped_missing_results + missed <= u64::MAX
                ==> after.grouped_missing_results == before.grouped_missing_results + missed
            &&& before.grouped_missing_results + missed > u64::MAX
                ==> after.grouped_missing_results == u64::MAX
        }),
{
    law_count_where(groups, group, |g: GroupView| g.unfinished_shards > 0);
    law_count_where(groups, group, |g: GroupView| g.has_gap());
    assert(groups.push(group).drop_last() =~= groups);
}

/// No more lines are printed than asked for, those that miss most come first, and everything that is
/// shown has its line where there is room.
pub proof fn law_lines(shards: Seq<ShardView>, window_limit_results: u64, top: nat, i: int)
    requires
        0 <= i < shards.len(),
    ensures
        ({
            let lines = shard_lines(shards, window_limit_results, top);
            &&& lines.len() == if top < shards.len() {
                top
            } else {
                shards.len()
            }
            &&& shards.len() <= top ==> lines.contains(shard_line(shards[i], window_limit_results))
            &&& top > 0 ==> exists|k: int|
                0 <= k < shards.len() && lines[0] == shard_line(
                    #[trigger] shards[k],
                    window_limit_results,
                ) && or_zero(shards[i].missing()) <= or_zero(shards[k].missing())
        }),
{
    let weights = shard_weights(shards);
    let order = ranked(weights, shards.len());
    law_ranking(weights, shards.len());
    let lines = shard_lines(shards, window_limit_results, top);
    assert(order.contains(i));
    let at = order.index_of(i);
    if shards.len() <= top {
        assert(lines[at] == shard_line(shards[order[at]], window_limit_results));
    }
    if top > 0 {
        let k = order[0];
        assert(order.contains(k));
        assert(lines[0] == shard_line(shards[k], window_limit_results));
        if at > 0 {
            assert(!heavier(weights[order[at]], weights[order[0]]));
        }
        assert(weights[i].0 == or_zero(shards[i].missing()));
        assert(weights[k].0 == or_zero(shards[k].missing()));
    }
}

/// The same of the lines of groups.
pub proof fn law_lines_of_groups(groups: Seq<GroupView>, top: nat, i: int)
    requires
        0 <= i < groups.len(),
    ensures
        ({
            let lines = group_lines(groups, top);
            &&& lines.len() == if top < groups.len() {
                top
            } else {
                groups.len()
            }
            &&& groups.len() <= top ==> lines.contains(group_line(groups[i]))
            &&& top > 0 ==> exists|k: int|
                0 <= k < groups.len() && lines[0] == group_line(#[trigger] groups[k]) && or_zero(
                    groups[i].missing(),
                ) <= or_zero(groups[k].missing())
        }),
{
    let weights = group_weights(groups);
    let order = ranked(weights, groups.len());
    law_ranking(weights, groups.len());
    let lines = group_lines(groups, top);
    assert(order.contains(i));
    let at = order.index_of(i);
    if groups.len() <= top {
        assert(lines[at] == group_line(groups[order[at]]));
    }
    if top > 0 {
        let k = order[0];
        assert(order.contains(k));
        assert(lines[0] == group_line(groups[k]));
        if at > 0 {
            assert(!heavier(weights[order[at]], weights[order[0]]));
        }
        assert(weights[i].0 == or_zero(groups[i].missing()));
        assert(weights[k].0 == or_zero(groups[k].missing()));
    }
}

/// There is nothing to validate where no stream matches the filters; otherwise the summary counts
/// the streams that do.
pub proof fn law_validation(state: StateView, args: ValidateCoverageArgs)
    ensures
        (forall|i: int|
            0 <= i < all_shards(state).len() ==> !matches_filters(
                (#[trigger] all_shards(state)[i]).params_json,
                args,
            )) ==> validation_of(state, args) == Err::<SummaryView, _>(
            "coverage validation failed: no search pages found"@,
        ),
        validation_of(state, args) matches Ok(summary) ==> summary.shards == matching(
            all_shards(state),
            args,
        ).len() && summary.shards > 0,
{
    let shards = all_shards(state);
    if forall|i: int|
        0 <= i < shards.len() ==> !matches_filters((#[trigger] shards[i]).params_json, args) {
        lemma_none_match(shards, args);
    }
}

proof fn lemma_none_match(shards: Seq<ShardView>, args: ValidateCoverageArgs)
    requires
        forall|i: int|
            0 <= i < shards.len() ==> !matches_filters((#[trigger] shards[i]).params_json, args),
    ensures
        matching(shards, args).len() == 0,
    decreases shards.len(),
{
    if shards.len() > 0 {
        assert(!matches_filters(shards[shards.len() - 1].params_json, args));
        assert forall|i: int| 0 <= i < shards.drop_last().len() implies !matches_filters(
            (#[trigger] shards.drop_last()[i]).params_json,
            args,
        ) by {
            assert(shards.drop_last()[i] == shards[i]);
        }
        lemma_none_match(shards.drop_last(), args);
    }
}

} // verus!
