use crate::coverage::{coverage_group_for_params, group_for, GroupView};
use crate::groups::{group_text, law_overflow_streams_share_a_group};
use crate::jobs::{
    job_of, job_views, make_search_job, params_sorted, sort_views, CrawlArgs, JobView, SearchJob,
    SearchSort,
};
use crate::maps::TextMap;
use crate::model::list_map_view;
use crate::numerals::{decimal, decimal_text, option_decimal, option_decimal_text};
use crate::pages::{has_page, new_page, with_page};
use crate::params::{
    exact_year, extra_param_value, facet_depth, key_of, overflow_facet_depth, params_text,
    set_extra_param, value_of, with_value, year_of, ParamsView, SearchParams,
};
use crate::shards::{shard_of, ShardView};
use crate::state::{distinct_keys, CrawlState, StateView};
use crate::text::{from_chars, join, joined, list_has, option_is, same, to_chars};
use crate::views::{group_texts, lemma_take_next, texts};
use vstd::prelude::*;

verus! {

broadcast use group_texts;

/// How many characters of a value a label shows.
pub const MAX_LABEL_CHARS: usize = 80;

/// A value as a label shows it: cut short where it is long.
pub open spec fn abbreviated(value: Seq<char>) -> Seq<char> {
    if value.len() > MAX_LABEL_CHARS {
        value.take(MAX_LABEL_CHARS as int) + "..."@
    } else {
        value
    }
}

/// A value as a label shows it: cut short where it is long.
pub fn abbreviate_label_value(value: &str) -> (result: String)
    ensures
        result@ == abbreviated(value@),
{
    let chars = to_chars(value);
    if chars.len() > MAX_LABEL_CHARS {
        let mut out = from_chars(&chars, 0, MAX_LABEL_CHARS);
        assert(out@ =~= value@.take(MAX_LABEL_CHARS as int));
        out.append("...");
        out
    } else {
        value.to_owned()
    }
}

/// The extra parameters but for one, as a label shows them.
pub open spec fn other_extras(
    extra: Seq<(Seq<char>, Seq<char>)>,
    field: Seq<char>,
) -> Seq<Seq<char>>
    decreases extra.len(),
{
    if extra.len() == 0 {
        Seq::empty()
    } else {
        let before = other_extras(extra.drop_last(), field);
        if extra.last().0 == field {
            before
        } else {
            before.push(extra.last().0 + "="@ + abbreviated(extra.last().1))
        }
    }
}

/// The label of a stream that a facet narrows.
pub open spec fn facet_label(
    year: Seq<char>,
    params: ParamsView,
    field: Seq<char>,
    value: Seq<char>,
) -> Seq<char> {
    let others = other_extras(params.extra, field);
    if others.len() == 0 {
        "year "@ + year + " auto overflow facet "@ + field + "="@ + abbreviated(value)
    } else {
        "year "@ + year + " auto overflow facet "@ + joined(others, " "@) + " "@ + field + "="@
            + abbreviated(value)
    }
}

/// The label of a stream that a facet narrows.
pub fn facet_overflow_label(year: &str, params: &SearchParams, field: &str, value: &str) -> (result:
    String)
    ensures
        result@ == facet_label(year@, params@, field@, value@),
{
    let ghost all = params@.extra;
    let mut others: Vec<String> = Vec::new();
    for i in 0..params.extra.len()
        invariant
            all == params@.extra,
            texts(others@) == other_extras(all.take(i as int), field@),
    {
        proof {
            lemma_take_next(all, i as int);
            assert(all.take(i + 1).drop_last() == all.take(i as int));
        }
        if !same(&params.extra[i].0, field) {
            let shown = abbreviate_label_value(&params.extra[i].1);
            let mut other: String = params.extra[i].0.clone();
            other.append("=");
            other.append(&shown);
            others.push(other);
        }
    }
    assert(all.take(all.len() as int) == all);
    let shown = abbreviate_label_value(value);
    let mut out: String = "year ".to_owned();
    out.append(year);
    out.append(" auto overflow facet ");
    if others.len() > 0 {
        let list = join(&others, " ");
        out.append(&list);
        out.append(" ");
    }
    out.append(field);
    out.append("=");
    out.append(&shown);
    out
}

/// The streams of a list that were not queued before, with the keys that are queued then.
pub open spec fn fresh_jobs(candidates: Seq<JobView>, keys: Seq<Seq<char>>) -> (
    Seq<JobView>,
    Seq<Seq<char>>,
)
    decreases candidates.len(),
{
    if candidates.len() == 0 {
        (Seq::empty(), keys)
    } else {
        let (jobs, queued) = fresh_jobs(candidates.drop_last(), keys);
        let job = candidates.last();
        if queued.contains(job.search_key) {
            (jobs, queued)
        } else {
            (jobs.push(job), queued.push(job.search_key))
        }
    }
}

/// The stream that discovers a year in another sort.
pub open spec fn resorted_job(
    source: JobView,
    year: Seq<char>,
    sort: (Seq<char>, Seq<char>),
) -> JobView {
    job_of(
        "year "@ + year + " auto overflow sort "@ + sort.0 + ":"@ + sort.1,
        params_sorted(source.params, sort),
        None,
        None,
    )
}

/// The streams that discover a year in the other sorts.
pub open spec fn sort_candidates(
    source: JobView,
    year: Seq<char>,
    sorts: Seq<(Seq<char>, Seq<char>)>,
) -> Seq<JobView>
    decreases sorts.len(),
{
    if sorts.len() == 0 {
        Seq::empty()
    } else {
        let before = sort_candidates(source, year, sorts.drop_last());
        let sort = sorts.last();
        if source.params.sort_by == Some(sort.0) && source.params.order == Some(sort.1) {
            before
        } else {
            before.push(resorted_job(source, year, sort))
        }
    }
}

/// The parameters that facets narrow: those of a stream without its sort.
pub open spec fn unsorted(params: ParamsView) -> ParamsView {
    ParamsView { sort_by: None, order: None, ..params }
}

/// The stream that a facet narrows.
pub open spec fn facet_job(
    source: JobView,
    year: Seq<char>,
    field: Seq<char>,
    value: Seq<char>,
) -> JobView {
    let base = unsorted(source.params);
    let params = ParamsView { extra: with_value(base.extra, field, value), ..base };
    job_of(facet_label(year, params, field, value), params, None, None)
}

/// The streams that the values of one facet narrow.
pub open spec fn value_candidates(
    source: JobView,
    year: Seq<char>,
    field: Seq<char>,
    values: Seq<Seq<char>>,
) -> Seq<JobView> {
    values.map_values(|value: Seq<char>| facet_job(source, year, field, value))
}

/// The streams that the values of some facets narrow; a facet that already narrows the stream adds
/// none.
pub open spec fn facet_candidates(
    source: JobView,
    year: Seq<char>,
    fields: Seq<Seq<char>>,
    values: Map<Seq<char>, Seq<Seq<char>>>,
) -> Seq<JobView>
    decreases fields.len(),
{
    if fields.len() == 0 {
        Seq::empty()
    } else {
        let before = facet_candidates(source, year, fields.drop_last(), values);
        let field = fields.last();
        if value_of(source.params.extra, field) is Some || !values.contains_key(field) {
            before
        } else {
            before + value_candidates(source, year, field, values[field])
        }
    }
}

/// Whether a stream is read to its end and results of it and of its group are missing.
pub open spec fn needs_overflow(
    state: StateView,
    source: JobView,
    facets: Seq<Seq<char>>,
) -> Result<bool, Seq<char>> {
    match shard_of(state, source.search_key) {
        None => Ok(false),
        Some(shard) => if shard.unfinished() || shard.last_done_results != Some(0u64)
            || !shard.has_gap() {
            Ok(false)
        } else {
            match group_for(state, source.params_json, facets) {
                Err(message) => Err(message),
                Ok(None) => Ok(true),
                Ok(Some(group)) => Ok(group.unfinished_shards == 0 && group.has_gap()),
            }
        },
    }
}

/// What overflow adds to a stream.
pub ghost enum OverflowView {
    /// Nothing can be added.
    Nothing,
    /// The values of the facets are to be fetched first.
    NeedFacetValues,
    /// These streams.
    Jobs(Seq<JobView>),
    /// The parameters of a stream cannot be read.
    Failed(Seq<char>),
}

/// What a crawl's overflow goes by.
pub ghost struct OverflowRules {
    pub auto_overflow: bool,
    pub shard_years: bool,
    pub max_depth: nat,
    pub sorts: Seq<(Seq<char>, Seq<char>)>,
    pub facets: Seq<Seq<char>>,
    pub values: Option<Map<Seq<char>, Seq<Seq<char>>>>,
}

/// What overflow adds to a stream, where some streams were queued: first the other sorts, then,
/// where all of those were queued, the values of the facets.
pub open spec fn overflow_of(
    state: StateView,
    source: JobView,
    rules: OverflowRules,
    keys: Seq<Seq<char>>,
) -> OverflowView {
    if !rules.auto_overflow || !rules.shard_years || year_of(source.params) is None {
        OverflowView::Nothing
    } else {
        let year = year_of(source.params).unwrap();
        match needs_overflow(state, source, rules.facets) {
            Err(message) => OverflowView::Failed(message),
            Ok(false) => OverflowView::Nothing,
            Ok(true) => {
                let sorted = fresh_jobs(sort_candidates(source, year, rules.sorts), keys).0;
                if sorted.len() > 0 {
                    OverflowView::Jobs(sorted)
                } else if rules.facets.len() == 0 || facet_depth(
                    source.params.extra,
                    rules.facets,
                ) >= rules.max_depth {
                    OverflowView::Nothing
                } else {
                    match rules.values {
                        None => OverflowView::NeedFacetValues,
                        Some(values) => OverflowView::Jobs(
                            fresh_jobs(
                                facet_candidates(source, year, rules.facets, values),
                                keys,
                            ).0,
                        ),
                    }
                }
            },
        }
    }
}

/// The keys that are queued after overflow has added to a stream.
pub open spec fn keys_after(overflow: OverflowView, keys: Seq<Seq<char>>) -> Seq<Seq<char>> {
    match overflow {
        OverflowView::Jobs(jobs) => keys + jobs.map_values(|j: JobView| j.search_key),
        _ => keys,
    }
}

/// A page table with the first pages of some streams added.
pub open spec fn seeded(
    state: StateView,
    jobs: Seq<JobView>,
    start_page: u64,
    now: i64,
) -> StateView
    decreases jobs.len(),
{
    if jobs.len() == 0 {
        state
    } else {
        let before = seeded(state, jobs.drop_last(), start_page, now);
        let job = jobs.last();
        StateView {
            pages: with_page(
                before.pages,
                new_page(job.search_key, start_page, job.params_json, now),
            ),
            ..before
        }
    }
}

/// A crawl's state after overflow has added to a stream.
pub open spec fn state_overflowed(
    state: StateView,
    overflow: OverflowView,
    start_page: u64,
    now: i64,
) -> StateView {
    match overflow {
        OverflowView::Jobs(jobs) => seeded(state, jobs, start_page, now),
        _ => state,
    }
}

/// What overflow adds to a stream.
#[derive(Debug)]
pub enum OverflowPlan {
    Nothing,
    NeedFacetValues,
    Jobs { jobs: Vec<SearchJob>, lines: Vec<String> },
}

/// What a crawl's overflow goes by: its settings, sorts and facets, and the values of the facets
/// once they were fetched.
#[derive(Debug)]
pub struct OverflowContext<'a> {
    pub args: &'a CrawlArgs,
    pub overflow_sorts: &'a Vec<SearchSort>,
    pub overflow_facets: &'a Vec<String>,
    pub overflow_facet_values: &'a Option<TextMap<Vec<String>>>,
}

impl OverflowContext<'_> {
    /// What the overflow goes by.
    pub open spec fn rules(self) -> OverflowRules {
        OverflowRules {
            auto_overflow: self.args.auto_overflow,
            shard_years: self.args.shard_years,
            max_depth: self.args.max_overflow_facet_depth as nat,
            sorts: sort_views(self.overflow_sorts@),
            facets: texts(self.overflow_facets@),
            values: match *self.overflow_facet_values {
                Some(map) => Some(list_map_view(map)),
                None => None,
            },
        }
    }

    /// The values of the facets hold each facet once.
    pub open spec fn well_formed(self) -> bool {
        *self.overflow_facet_values matches Some(map) ==> map.well_formed()
    }
}

/// Queues the stream unless it was queued before; says whether it was queued.
fn add_job(
    jobs: &mut Vec<SearchJob>,
    keys: &mut Vec<String>,
    job: SearchJob,
    Ghost(candidates): Ghost<Seq<JobView>>,
    Ghost(start): Ghost<Seq<Seq<char>>>,
)
    requires
        fresh_jobs(candidates, start) == (job_views(old(jobs)@), texts(old(keys)@)),
    ensures
        fresh_jobs(candidates.push(job@), start) == (job_views(final(jobs)@), texts(final(keys)@)),
{
    assert(candidates.push(job@).drop_last() == candidates);
    if !list_has(keys, &job.search_key) {
        keys.push(job.search_key.clone());
        jobs.push(job);
    }
}

fn plan_sorts(
    source: &SearchJob,
    year: &str,
    sorts: &Vec<SearchSort>,
    keys: &mut Vec<String>,
) -> (jobs: Vec<SearchJob>)
    ensures
        fresh_jobs(sort_candidates(source@, year@, sort_views(sorts@)), texts(old(keys)@)) == (
            job_views(jobs@),
            texts(final(keys)@),
        ),
{
    let ghost start = texts(keys@);
    let ghost all = sort_views(sorts@);
    let mut jobs: Vec<SearchJob> = Vec::new();
    for i in 0..sorts.len()
        invariant
            all == sort_views(sorts@),
            fresh_jobs(sort_candidates(source@, year@, all.take(i as int)), start) == (
                job_views(jobs@),
                texts(keys@),
            ),
    {
        proof {
            lemma_take_next(all, i as int);
            assert(all.take(i + 1).drop_last() == all.take(i as int));
        }
        if option_is(&source.params.sort_by, &sorts[i].field) && option_is(
            &source.params.order,
            &sorts[i].order,
        ) {
        } else {
            let mut params = source.params.clone();
            params.sort_by = Some(sorts[i].field.clone());
            params.order = Some(sorts[i].order.clone());
            let mut label: String = "year ".to_owned();
            label.append(year);
            label.append(" auto overflow sort ");
            label.append(&sorts[i].field);
            label.append(":");
            label.append(&sorts[i].order);
            assert(params@ == params_sorted(source@.params, all[i as int]));
            let job = make_search_job(label, params);
            assert(job@ == resorted_job(source@, year@, all[i as int]));
            add_job(
                &mut jobs,
                keys,
                job,
                Ghost(sort_candidates(source@, year@, all.take(i as int))),
                Ghost(start),
            );
        }
    }
    assert(all.take(all.len() as int) == all);
    jobs
}

fn plan_values(
    source: &SearchJob,
    base: &SearchParams,
    year: &str,
    field: &str,
    values: &Vec<String>,
    jobs: &mut Vec<SearchJob>,
    keys: &mut Vec<String>,
    Ghost(candidates): Ghost<Seq<JobView>>,
    Ghost(start): Ghost<Seq<Seq<char>>>,
)
    requires
        base@ == unsorted(source@.params),
        fresh_jobs(candidates, start) == (job_views(old(jobs)@), texts(old(keys)@)),
    ensures
        fresh_jobs(
            candidates + value_candidates(source@, year@, field@, texts(values@)),
            start,
        ) == (job_views(final(jobs)@), texts(final(keys)@)),
{
    let ghost all = value_candidates(source@, year@, field@, texts(values@));
    assert(candidates + all.take(0) =~= candidates);
    for i in 0..values.len()
        invariant
            base@ == unsorted(source@.params),
            all == value_candidates(source@, year@, field@, texts(values@)),
            fresh_jobs(candidates + all.take(i as int), start) == (
                job_views(jobs@),
                texts(keys@),
            ),
    {
        let mut params = base.clone();
        set_extra_param(&mut params, field, &values[i]);
        let label = facet_overflow_label(year, &params, field, &values[i]);
        let job = make_search_job(label, params);
        assert(job@ == all[i as int]);
        proof {
            lemma_take_next(all, i as int);
            assert((candidates + all.take(i as int)).push(all[i as int]) =~= candidates + all.take(
                i + 1,
            ));
        }
        add_job(jobs, keys, job, Ghost(candidates + all.take(i as int)), Ghost(start));
    }
    assert(all.take(all.len() as int) == all);
}

fn plan_facets(
    source: &SearchJob,
    year: &str,
    fields: &Vec<String>,
    values: &TextMap<Vec<String>>,
    keys: &mut Vec<String>,
) -> (jobs: Vec<SearchJob>)
    requires
        values.well_formed(),
    ensures
        fresh_jobs(
            facet_candidates(source@, year@, texts(fields@), list_map_view(*values)),
            texts(old(keys)@),
        ) == (job_views(jobs@), texts(final(keys)@)),
{
    let ghost start = texts(keys@);
    let ghost all = texts(fields@);
    let ghost map = list_map_view(*values);
    let mut base = source.params.clone();
    base.sort_by = None;
    base.order = None;
    assert(base@ == unsorted(source@.params));
    let mut jobs: Vec<SearchJob> = Vec::new();
    for i in 0..fields.len()
        invariant
            values.well_formed(),
            all == texts(fields@),
            map == list_map_view(*values),
            base@ == unsorted(source@.params),
            fresh_jobs(facet_candidates(source@, year@, all.take(i as int), map), start) == (
                job_views(jobs@),
                texts(keys@),
            ),
    {
        proof {
            lemma_take_next(all, i as int);
            assert(all.take(i + 1).drop_last() == all.take(i as int));
        }
        let field = &fields[i];
        if extra_param_value(&base, field).is_none() {
            match values.get(field) {
                Some(list) => {
                    assert(map[field@] == texts(list@));
                    plan_values(
                        source,
                        &base,
                        year,
                        field,
                        list,
                        &mut jobs,
                        keys,
                        Ghost(facet_candidates(source@, year@, all.take(i as int), map)),
                        Ghost(start),
                    );
                },
                None => {},
            }
        }
    }
    assert(all.take(all.len() as int) == all);
    jobs
}

proof fn lemma_fresh_keys(candidates: Seq<JobView>, keys: Seq<Seq<char>>)
    ensures
        fresh_jobs(candidates, keys).1 == keys + fresh_jobs(candidates, keys).0.map_values(
            |j: JobView| j.search_key,
        ),
    decreases candidates.len(),
{
    if candidates.len() > 0 {
        lemma_fresh_keys(candidates.drop_last(), keys);
        let (jobs, queued) = fresh_jobs(candidates.drop_last(), keys);
        let f = |j: JobView| j.search_key;
        assert(keys + jobs.push(candidates.last()).map_values(f) =~= (keys + jobs.map_values(
            f,
        )).push(candidates.last().search_key));
    } else {
        assert(keys + Seq::<JobView>::empty().map_values(|j: JobView| j.search_key) =~= keys);
    }
}

/// The line on a stream that overflow added.
pub open spec fn overflow_line(
    job: JobView,
    inserted: bool,
    window_limited: bool,
    source_key: Seq<char>,
    shard: ShardView,
) -> Seq<char> {
    "auto overflow shard "@ + job.label + " ("@ + job.search_key + ") "@ + (if inserted {
        "seeded"@
    } else {
        "queued"@
    }) + " after "@ + (if window_limited {
        "window-limited"@
    } else {
        "coverage-gap"@
    }) + " shard "@ + source_key + " discovered "@ + decimal(shard.discovered_results as nat)
        + " of "@ + option_decimal(shard.reported_total_results) + " reported results"@
}

fn line_on_overflow(
    job: &SearchJob,
    inserted: bool,
    window_limited: bool,
    source_key: &str,
    discovered: u64,
    reported: Option<u64>,
    Ghost(shard): Ghost<ShardView>,
) -> (result: String)
    requires
        discovered == shard.discovered_results,
        reported == shard.reported_total_results,
    ensures
        result@ == overflow_line(job@, inserted, window_limited, source_key@, shard),
{
    let found = decimal_text(discovered);
    let total = option_decimal_text(reported);
    let mut out: String = "auto overflow shard ".to_owned();
    out.append(&job.label);
    out.append(" (");
    out.append(&job.search_key);
    out.append(") ");
    out.append(
        if inserted {
            "seeded"
        } else {
            "queued"
        },
    );
    out.append(" after ");
    out.append(
        if window_limited {
            "window-limited"
        } else {
            "coverage-gap"
        },
    );
    out.append(" shard ");
    out.append(source_key);
    out.append(" discovered ");
    out.append(&found);
    out.append(" of ");
    out.append(&total);
    out.append(" reported results");
    out
}

/// The lines on the streams that overflow added.
pub open spec fn overflow_lines(
    state: StateView,
    jobs: Seq<JobView>,
    start_page: u64,
    window_limit_results: u64,
    source_key: Seq<char>,
    now: i64,
) -> Seq<Seq<char>>
    decreases jobs.len(),
{
    if jobs.len() == 0 {
        Seq::empty()
    } else {
        let before = jobs.drop_last();
        let shard = shard_of(state, source_key).unwrap();
        overflow_lines(state, before, start_page, window_limit_results, source_key, now).push(
            overflow_line(
                jobs.last(),
                !has_page(
                    seeded(state, before, start_page, now).pages,
                    jobs.last().search_key,
                    start_page,
                ),
                shard.window_limited(window_limit_results),
                source_key,
                shard,
            ),
        )
    }
}

/// Whether a plan is what overflow adds to a stream.
pub open spec fn plan_matches(
    result: Result<OverflowPlan, String>,
    overflow: OverflowView,
    lines: Seq<Seq<char>>,
) -> bool {
    match (result, overflow) {
        (Ok(OverflowPlan::Nothing), OverflowView::Nothing) => true,
        (Ok(OverflowPlan::NeedFacetValues), OverflowView::NeedFacetValues) => true,
        (Ok(OverflowPlan::Jobs { jobs, lines: said }), OverflowView::Jobs(views)) => job_views(
            jobs@,
        ) == views && texts(said@) == lines,
        (Err(message), OverflowView::Failed(text)) => message@ == text,
        _ => false,
    }
}

/// The lines that go with what overflow adds to a stream.
pub open spec fn lines_of(
    state: StateView,
    overflow: OverflowView,
    start_page: u64,
    window_limit_results: u64,
    source_key: Seq<char>,
    now: i64,
) -> Seq<Seq<char>> {
    match overflow {
        OverflowView::Jobs(jobs) => overflow_lines(
            state,
            jobs,
            start_page,
            window_limit_results,
            source_key,
            now,
        ),
        _ => Seq::empty(),
    }
}

/// Adds streams to one that is read to its end and misses results: it is discovered in the other
/// sorts, and then narrowed by the values of facets. Streams that were queued before are not added
/// again.
pub fn seed_auto_overflow_jobs(
    ctx: &OverflowContext<'_>,
    state: &mut CrawlState,
    queued_search_keys: &mut Vec<String>,
    source_job: &SearchJob,
    now: i64,
) -> (result: Result<OverflowPlan, String>)
    requires
        ctx.well_formed(),
    ensures
        ({
            let overflow = overflow_of(
                old(state)@,
                source_job@,
                ctx.rules(),
                texts(old(queued_search_keys)@),
            );
            &&& plan_matches(
                result,
                overflow,
                lines_of(
                    old(state)@,
                    overflow,
                    ctx.args.start_page,
                    ctx.args.search_window_limit_results,
                    source_job@.search_key,
                    now,
                ),
            )
            &&& texts(final(queued_search_keys)@) == keys_after(
                overflow,
                texts(old(queued_search_keys)@),
            )
            &&& final(state)@ == state_overflowed(
                old(state)@,
                overflow,
                ctx.args.start_page,
                now,
            )
        }),
        distinct_keys(old(state)@) ==> distinct_keys(final(state)@),
{
    let args = ctx.args;
    if !args.auto_overflow || !args.shard_years {
        return Ok(OverflowPlan::Nothing);
    }
    let year = match exact_year(&source_job.params) {
        Some(year) => year,
        None => return Ok(OverflowPlan::Nothing),
    };
    let shard = match state.coverage_shard(&source_job.search_key) {
        Some(shard) => shard,
        None => return Ok(OverflowPlan::Nothing),
    };
    if shard.has_unfinished_pages() || !shard.ended_on_empty_done_page()
        || !shard.has_coverage_gap() {
        return Ok(OverflowPlan::Nothing);
    }
    match coverage_group_for_params(state, &source_job.params_json, ctx.overflow_facets) {
        Ok(Some(group)) => {
            if group.unfinished_shards > 0 || !group.has_coverage_gap() {
                return Ok(OverflowPlan::Nothing);
            }
        },
        Ok(None) => {},
        Err(message) => return Err(message),
    }
    let ghost start = texts(queued_search_keys@);
    let ghost rules = ctx.rules();
    let ghost sorted = sort_candidates(source_job@, year@, rules.sorts);
    let mut jobs = plan_sorts(source_job, year, ctx.overflow_sorts, queued_search_keys);
    proof {
        lemma_fresh_keys(sorted, start);
    }
    if jobs.len() == 0 {
        assert(texts(queued_search_keys@) =~= start);
        if ctx.overflow_facets.len() == 0 || overflow_facet_depth(
            &source_job.params,
            ctx.overflow_facets,
        ) >= args.max_overflow_facet_depth {
            return Ok(OverflowPlan::Nothing);
        }
        match ctx.overflow_facet_values {
            None => return Ok(OverflowPlan::NeedFacetValues),
            Some(values) => {
                jobs = plan_facets(
                    source_job,
                    year,
                    ctx.overflow_facets,
                    values,
                    queued_search_keys,
                );
                proof {
                    lemma_fresh_keys(
                        facet_candidates(source_job@, year@, rules.facets, list_map_view(*values)),
                        start,
                    );
                }
            },
        }
    }
    let ghost before = state@;
    let ghost views = job_views(jobs@);
    let window_limited = shard.looks_window_limited(args.search_window_limit_results);
    let mut lines: Vec<String> = Vec::new();
    for i in 0..jobs.len()
        invariant
            views == job_views(jobs@),
            before == old(state)@,
            shard_of(before, source_job@.search_key) == Some(shard@),
            window_limited == shard@.window_limited(args.search_window_limit_results),
            state@ == seeded(before, views.take(i as int), args.start_page, now),
            distinct_keys(before) ==> distinct_keys(state@),
            texts(lines@) == overflow_lines(
                before,
                views.take(i as int),
                args.start_page,
                args.search_window_limit_results,
                source_job@.search_key,
                now,
            ),
    {
        proof {
            lemma_take_next(views, i as int);
            assert(views.take(i + 1).drop_last() == views.take(i as int));
        }
        let inserted = state.seed_search_page(
            &jobs[i].search_key,
            &jobs[i].params_json,
            args.start_page,
            now,
        );
        lines.push(
            line_on_overflow(
                &jobs[i],
                inserted,
                window_limited,
                &source_job.search_key,
                shard.discovered_results,
                shard.reported_total_results,
                Ghost(shard@),
            ),
        );
    }
    assert(views.take(views.len() as int) == views);
    Ok(OverflowPlan::Jobs { jobs, lines })
}

/// A look for gaps in the coverage of some streams: what it has come to.
pub ghost struct ScanView {
    pub state: StateView,
    pub keys: Seq<Seq<char>>,
    pub jobs: Seq<JobView>,
    pub lines: Seq<Seq<char>>,
    pub end: ScanEndView,
}

/// How a look for gaps ends.
pub ghost enum ScanEndView {
    /// All streams were looked at.
    Done,
    /// The values of the facets are to be fetched before this stream is looked at.
    NeedFacetValues(int),
    /// The parameters of a stream cannot be read.
    Failed(Seq<char>),
}

/// A look for gaps after one more stream, at a position, was looked at.
pub open spec fn scanned_next(
    before: ScanView,
    job: JobView,
    rules: OverflowRules,
    start_page: u64,
    window_limit_results: u64,
    now: i64,
    at: int,
) -> ScanView {
    if !(before.end is Done) {
        before
    } else {
        match overflow_of(before.state, job, rules, before.keys) {
            OverflowView::Nothing => before,
            OverflowView::NeedFacetValues => ScanView {
                end: ScanEndView::NeedFacetValues(at),
                ..before
            },
            OverflowView::Failed(message) => ScanView {
                end: ScanEndView::Failed(message),
                ..before
            },
            OverflowView::Jobs(new_jobs) => ScanView {
                state: seeded(before.state, new_jobs, start_page, now),
                keys: keys_after(OverflowView::Jobs(new_jobs), before.keys),
                jobs: before.jobs + new_jobs,
                lines: before.lines + overflow_lines(
                    before.state,
                    new_jobs,
                    start_page,
                    window_limit_results,
                    job.search_key,
                    now,
                ),
                end: ScanEndView::Done,
            },
        }
    }
}

/// A look for gaps in the coverage of the first `n` streams of a list, one after the other.
pub open spec fn scanned(
    state: StateView,
    jobs: Seq<JobView>,
    rules: OverflowRules,
    keys: Seq<Seq<char>>,
    start_page: u64,
    window_limit_results: u64,
    now: i64,
    n: nat,
) -> ScanView
    decreases n,
{
    if n == 0 {
        ScanView {
            state,
            keys,
            jobs: Seq::empty(),
            lines: Seq::empty(),
            end: ScanEndView::Done,
        }
    } else {
        scanned_next(
            scanned(
                state,
                jobs,
                rules,
                keys,
                start_page,
                window_limit_results,
                now,
                (n - 1) as nat,
            ),
            jobs[n - 1],
            rules,
            start_page,
            window_limit_results,
            now,
            n - 1,
        )
    }
}

/// How a look for gaps ends.
#[derive(Debug)]
pub enum ScanEnd {
    Done,
    /// The values of the facets are to be fetched; the look then goes on from this stream.
    NeedFacetValues { at: usize },
    Failed { message: String },
}

/// What a look for gaps in the coverage of some streams has come to.
#[derive(Debug)]
pub struct GapScan {
    pub jobs: Vec<SearchJob>,
    pub lines: Vec<String>,
    pub end: ScanEnd,
}

/// Whether the end of a look for gaps is this one, where the list starts at a position.
pub open spec fn same_end(end: ScanEnd, view: ScanEndView, from: int) -> bool {
    match (end, view) {
        (ScanEnd::Done, ScanEndView::Done) => true,
        (ScanEnd::NeedFacetValues { at }, ScanEndView::NeedFacetValues(k)) => at == from + k,
        (ScanEnd::Failed { message }, ScanEndView::Failed(text)) => message@ == text,
        _ => false,
    }
}

proof fn lemma_scan_ended(
    state: StateView,
    jobs: Seq<JobView>,
    rules: OverflowRules,
    keys: Seq<Seq<char>>,
    start_page: u64,
    window_limit_results: u64,
    now: i64,
    m: nat,
    n: nat,
)
    requires
        m <= n,
        !(scanned(state, jobs, rules, keys, start_page, window_limit_results, now, m).end is Done),
    ensures
        scanned(state, jobs, rules, keys, start_page, window_limit_results, now, n) == scanned(
            state,
            jobs,
            rules,
            keys,
            start_page,
            window_limit_results,
            now,
            m,
        ),
    decreases n,
{
    if m < n {
        lemma_scan_ended(
            state,
            jobs,
            rules,
            keys,
            start_page,
            window_limit_results,
            now,
            m,
            (n - 1) as nat,
        );
    }
}

/// Whether a look for gaps has come to this, as far as it still goes on.
pub open spec fn scan_holds(
    state: StateView,
    keys: Seq<Seq<char>>,
    jobs: Seq<JobView>,
    lines: Seq<Seq<char>>,
    scan: ScanView,
) -> bool {
    &&& state == scan.state
    &&& keys == scan.keys
    &&& jobs == scan.jobs
    &&& lines == scan.lines
}

/// Looks for gaps in the coverage of one stream, at a position, and adds the streams that overflow
/// gives to those that were added before; says how the look ends, unless it goes on.
fn scan_stream(
    ctx: &OverflowContext<'_>,
    state: &mut CrawlState,
    queued_search_keys: &mut Vec<String>,
    job: &SearchJob,
    at: usize,
    all_jobs: &mut Vec<SearchJob>,
    all_lines: &mut Vec<String>,
    now: i64,
    Ghost(before): Ghost<ScanView>,
    Ghost(from): Ghost<int>,
) -> (end: ScanEnd)
    requires
        ctx.well_formed(),
        before.end is Done,
        scan_holds(
            old(state)@,
            texts(old(queued_search_keys)@),
            job_views(old(all_jobs)@),
            texts(old(all_lines)@),
            before,
        ),
    ensures
        ({
            let after = scanned_next(
                before,
                job@,
                ctx.rules(),
                ctx.args.start_page,
                ctx.args.search_window_limit_results,
                now,
                at - from,
            );
            &&& scan_holds(
                final(state)@,
                texts(final(queued_search_keys)@),
                job_views(final(all_jobs)@),
                texts(final(all_lines)@),
                after,
            )
            &&& same_end(end, after.end, from)
        }),
        distinct_keys(old(state)@) ==> distinct_keys(final(state)@),
{
    match seed_auto_overflow_jobs(ctx, state, queued_search_keys, job, now) {
        Ok(OverflowPlan::Nothing) => ScanEnd::Done,
        Ok(OverflowPlan::NeedFacetValues) => ScanEnd::NeedFacetValues { at },
        Ok(OverflowPlan::Jobs { jobs, lines }) => {
            let mut new_jobs: Vec<SearchJob> = jobs;
            let mut new_lines: Vec<String> = lines;
            let ghost added_jobs = job_views(new_jobs@);
            let ghost added_lines = texts(new_lines@);
            all_jobs.append(&mut new_jobs);
            all_lines.append(&mut new_lines);
            assert(job_views(all_jobs@) =~= before.jobs + added_jobs);
            assert(texts(all_lines@) =~= before.lines + added_lines);
            ScanEnd::Done
        },
        Err(message) => ScanEnd::Failed { message },
    }
}

/// Looks for gaps in the coverage of the streams of a list from a position on, and adds the streams
/// that overflow gives.
pub fn seed_auto_overflow_jobs_for_known_gaps(
    ctx: &OverflowContext<'_>,
    state: &mut CrawlState,
    queued_search_keys: &mut Vec<String>,
    search_jobs: &Vec<SearchJob>,
    from: usize,
    now: i64,
) -> (result: GapScan)
    requires
        ctx.well_formed(),
        from <= search_jobs@.len(),
    ensures
        ({
            let rest = job_views(search_jobs@).skip(from as int);
            let scan = scanned(
                old(state)@,
                rest,
                ctx.rules(),
                texts(old(queued_search_keys)@),
                ctx.args.start_page,
                ctx.args.search_window_limit_results,
                now,
                rest.len(),
            );
            &&& final(state)@ == scan.state
            &&& texts(final(queued_search_keys)@) == scan.keys
            &&& job_views(result.jobs@) == scan.jobs
            &&& texts(result.lines@) == scan.lines
            &&& same_end(result.end, scan.end, from as int)
        }),
        distinct_keys(old(state)@) ==> distinct_keys(final(state)@),
{
    let ghost rest = job_views(search_jobs@).skip(from as int);
    let ghost rules = ctx.rules();
    let ghost start = state@;
    let ghost keys = texts(queued_search_keys@);
    let ghost page = ctx.args.start_page;
    let ghost limit = ctx.args.search_window_limit_results;
    let mut all_jobs: Vec<SearchJob> = Vec::new();
    let mut all_lines: Vec<String> = Vec::new();
    assert(job_views(all_jobs@) =~= Seq::empty());
    assert(texts(all_lines@) =~= Seq::empty());
    for i in from..search_jobs.len()
        invariant
            ctx.well_formed(),
            from <= search_jobs@.len(),
            rest == job_views(search_jobs@).skip(from as int),
            rules == ctx.rules(),
            start == old(state)@,
            keys == texts(old(queued_search_keys)@),
            page == ctx.args.start_page,
            limit == ctx.args.search_window_limit_results,
            distinct_keys(start) ==> distinct_keys(state@),
            scan_holds(
                state@,
                texts(queued_search_keys@),
                job_views(all_jobs@),
                texts(all_lines@),
                scanned(start, rest, rules, keys, page, limit, now, (i - from) as nat),
            ),
            scanned(start, rest, rules, keys, page, limit, now, (i - from) as nat).end is Done,
    {
        let ghost n = (i - from + 1) as nat;
        assert(rest[n - 1] == search_jobs@[i as int]@);
        let end = scan_stream(
            ctx,
            state,
            queued_search_keys,
            &search_jobs[i],
            i,
            &mut all_jobs,
            &mut all_lines,
            now,
            Ghost(scanned(start, rest, rules, keys, page, limit, now, (n - 1) as nat)),
            Ghost(from as int),
        );
        match end {
            ScanEnd::Done => {},
            _ => {
                proof {
                    lemma_scan_ended(start, rest, rules, keys, page, limit, now, n, rest.len());
                }
                return GapScan { jobs: all_jobs, lines: all_lines, end };
            },
        }
    }
    GapScan { jobs: all_jobs, lines: all_lines, end: ScanEnd::Done }
}

/// A number of values, within the range of the numbers that can be held.
pub open spec fn value_count(entries: Seq<(String, Vec<String>)>) -> u64
    decreases entries.len(),
{
    if entries.len() == 0 {
        0
    } else {
        let sum = value_count(entries.drop_last()) + entries.last().1@.len();
        if sum > u64::MAX {
            u64::MAX
        } else {
            sum as u64
        }
    }
}

/// The line on the values of the facets, once they were fetched.
pub fn facet_values_line(values: &TextMap<Vec<String>>, facets: &Vec<String>) -> (result: String)
    ensures
        result@ == "loaded "@ + decimal(value_count(values.entries@) as nat)
            + " advanced-search overflow facet value(s) for "@ + joined(texts(facets@), ","@),
{
    let mut count: u64 = 0;
    for i in 0..values.entries.len()
        invariant
            count == value_count(values.entries@.take(i as int)),
    {
        proof {
            lemma_take_next(values.entries@, i as int);
            assert(values.entries@.take(i + 1).drop_last() == values.entries@.take(i as int));
        }
        count = count.saturating_add(values.entries[i].1.len() as u64);
    }
    assert(values.entries@.take(values.entries@.len() as int) == values.entries@);
    let number = decimal_text(count);
    let names = join(facets, ",");
    let mut out: String = "loaded ".to_owned();
    out.append(&number);
    out.append(" advanced-search overflow facet value(s) for ");
    out.append(&names);
    out
}

/// Overflow queues no stream twice: what it adds was not queued before, and is added once.
pub proof fn law_overflow_adds_only_new_streams(candidates: Seq<JobView>, keys: Seq<Seq<char>>)
    ensures
        fresh_jobs(candidates, keys).0.map_values(
            |j: JobView| j.search_key,
        ).no_duplicates(),
        forall|i: int|
            0 <= i < fresh_jobs(candidates, keys).0.len() ==> !keys.contains(
                (#[trigger] fresh_jobs(candidates, keys).0[i]).search_key,
            ),
    decreases candidates.len(),
{
    lemma_fresh_keys(candidates, keys);
    if candidates.len() > 0 {
        law_overflow_adds_only_new_streams(candidates.drop_last(), keys);
        let (jobs, queued) = fresh_jobs(candidates.drop_last(), keys);
        lemma_fresh_keys(candidates.drop_last(), keys);
        let job = candidates.last();
        if !queued.contains(job.search_key) {
            let f = |j: JobView| j.search_key;
            let added = jobs.map_values(f);
            assert(!keys.contains(job.search_key)) by {
                if keys.contains(job.search_key) {
                    assert(queued[keys.index_of(job.search_key)] == job.search_key);
                }
            }
            assert(!added.contains(job.search_key)) by {
                if added.contains(job.search_key) {
                    assert(queued[keys.len() + added.index_of(job.search_key)] == job.search_key);
                }
            }
            assert(jobs.push(job).map_values(f) =~= added.push(job.search_key));
            let all = fresh_jobs(candidates, keys).0;
            assert forall|i: int| 0 <= i < all.len() implies !keys.contains(
                (#[trigger] all[i]).search_key,
            ) by {
                if i < jobs.len() {
                    assert(all[i] == jobs[i]);
                }
            }
        }
    }
}

/// Every stream that overflow adds is in the group of the stream that it is added to, so that what
/// it finds counts for the same total.
pub proof fn law_overflow_stays_in_its_group(
    source: JobView,
    year: Seq<char>,
    sort: (Seq<char>, Seq<char>),
    field: Seq<char>,
    value: Seq<char>,
    facets: Seq<Seq<char>>,
)
    requires
        facets.contains(field),
    ensures
        group_text(resorted_job(source, year, sort).params, facets) == group_text(
            source.params,
            facets,
        ),
        group_text(facet_job(source, year, field, value).params, facets) == group_text(
            source.params,
            facets,
        ),
{
    law_overflow_streams_share_a_group(
        source.params,
        Some(sort.0),
        Some(sort.1),
        field,
        value,
        facets,
    );
    law_overflow_streams_share_a_group(source.params, None, None, field, value, facets);
}

/// Every stream of a list is queued afterwards, whether it was before or not, and what was queued
/// stays so.
pub proof fn law_candidates_are_queued(candidates: Seq<JobView>, keys: Seq<Seq<char>>)
    ensures
        forall|i: int|
            0 <= i < candidates.len() ==> fresh_jobs(candidates, keys).1.contains(
                (#[trigger] candidates[i]).search_key,
            ),
        forall|k: Seq<char>|
            keys.contains(k) ==> #[trigger] fresh_jobs(candidates, keys).1.contains(k),
        forall|i: int|
            0 <= i < fresh_jobs(candidates, keys).0.len() ==> candidates.contains(
                #[trigger] fresh_jobs(candidates, keys).0[i],
            ),
    decreases candidates.len(),
{
    if candidates.len() > 0 {
        let rest = candidates.drop_last();
        let (jobs, queued) = fresh_jobs(rest, keys);
        let (all, after) = fresh_jobs(candidates, keys);
        let job = candidates.last();
        law_candidates_are_queued(rest, keys);
        assert forall|k: Seq<char>| queued.contains(k) implies #[trigger] after.contains(k) by {
            let i = queued.index_of(k);
            assert(after[i] == k);
        }
        assert(after.contains(job.search_key)) by {
            if !queued.contains(job.search_key) {
                assert(after[queued.len() as int] == job.search_key);
            }
        }
        assert forall|i: int| 0 <= i < candidates.len() implies after.contains(
            (#[trigger] candidates[i]).search_key,
        ) by {
            if i < rest.len() {
                assert(rest[i] == candidates[i]);
                assert(queued.contains(candidates[i].search_key));
            }
        }
        assert forall|i: int| 0 <= i < all.len() implies candidates.contains(#[trigger] all[i]) by {
            if i < jobs.len() {
                assert(all[i] == jobs[i]);
                let k = rest.index_of(jobs[i]);
                assert(candidates[k] == all[i]);
            } else {
                assert(candidates[candidates.len() - 1] == all[i]);
            }
        }
    }
}

/// A candidate for every sort but the stream's own: its parameters with this sort.
pub proof fn law_every_sort_is_a_candidate(
    source: JobView,
    year: Seq<char>,
    sorts: Seq<(Seq<char>, Seq<char>)>,
    i: int,
)
    requires
        0 <= i < sorts.len(),
        source.params.sort_by != Some(sorts[i].0) || source.params.order != Some(sorts[i].1),
    ensures
        exists|k: int|
            0 <= k < sort_candidates(source, year, sorts).len() && (
            #[trigger] sort_candidates(source, year, sorts)[k]).params == (ParamsView {
                sort_by: Some(sorts[i].0),
                order: Some(sorts[i].1),
                ..source.params
            }) && sort_candidates(source, year, sorts)[k].search_key == key_of(
                params_text(
                    ParamsView {
                        sort_by: Some(sorts[i].0),
                        order: Some(sorts[i].1),
                        ..source.params
                    },
                ),
            ),
    decreases sorts.len(),
{
    let rest = sorts.drop_last();
    let all = sort_candidates(source, year, sorts);
    let before = sort_candidates(source, year, rest);
    if i < rest.len() {
        assert(rest[i] == sorts[i]);
        law_every_sort_is_a_candidate(source, year, rest, i);
        let k = choose|k: int|
            0 <= k < before.len() && (#[trigger] before[k]).params == (ParamsView {
                sort_by: Some(sorts[i].0),
                order: Some(sorts[i].1),
                ..source.params
            }) && before[k].search_key == key_of(
                params_text(
                    ParamsView {
                        sort_by: Some(sorts[i].0),
                        order: Some(sorts[i].1),
                        ..source.params
                    },
                ),
            );
        assert(all[k] == before[k]);
    } else {
        assert(all[before.len() as int] == resorted_job(source, year, sorts[i]));
    }
}

/// A candidate for every value of every facet that does not narrow the stream yet: its parameters
/// without a sort, with the facet set to the value.
pub proof fn law_every_facet_value_is_a_candidate(
    source: JobView,
    year: Seq<char>,
    facets: Seq<Seq<char>>,
    values: Map<Seq<char>, Seq<Seq<char>>>,
    facet: Seq<char>,
    value: Seq<char>,
)
    requires
        facets.contains(facet),
        values.contains_key(facet),
        values[facet].contains(value),
        forall|i: int|
            0 <= i < source.params.extra.len() ==> (#[trigger] source.params.extra[i]).0 != facet,
    ensures
        exists|k: int|
            0 <= k < facet_candidates(source, year, facets, values).len() && (
            #[trigger] facet_candidates(source, year, facets, values)[k]).params == (ParamsView {
                sort_by: None,
                order: None,
                extra: source.params.extra.push((facet, value)),
                ..source.params
            }) && facet_candidates(source, year, facets, values)[k].search_key == key_of(
                params_text(
                    ParamsView {
                        sort_by: None,
                        order: None,
                        extra: source.params.extra.push((facet, value)),
                        ..source.params
                    },
                ),
            ),
    decreases facets.len(),
{
    let all = facet_candidates(source, year, facets, values);
    let rest = facets.drop_last();
    let before = facet_candidates(source, year, rest, values);
    let wanted = ParamsView {
        sort_by: None,
        order: None,
        extra: source.params.extra.push((facet, value)),
        ..source.params
    };
    lemma_value_is_appended(source.params.extra, facet, value);
    if facets.last() == facet {
        let list = value_candidates(source, year, facet, values[facet]);
        let j = values[facet].index_of(value);
        assert(all[before.len() + j] == list[j]);
        assert(list[j] == facet_job(source, year, facet, value));
        assert(all[before.len() + j].params == wanted);
    } else {
        let at = facets.index_of(facet);
        assert(rest[at] == facet);
        law_every_facet_value_is_a_candidate(source, year, rest, values, facet, value);
        let k = choose|k: int|
            0 <= k < before.len() && (#[trigger] before[k]).params == wanted
                && before[k].search_key == key_of(params_text(wanted));
        assert(all[k] == before[k]);
    }
}

proof fn lemma_value_is_appended(
    pairs: Seq<(Seq<char>, Seq<char>)>,
    key: Seq<char>,
    value: Seq<char>,
)
    requires
        forall|i: int| 0 <= i < pairs.len() ==> (#[trigger] pairs[i]).0 != key,
    ensures
        value_of(pairs, key) is None,
        with_value(pairs, key, value) == pairs.push((key, value)),
    decreases pairs.len(),
{
    if pairs.len() > 0 {
        let rest = pairs.drop_first();
        assert forall|i: int| 0 <= i < rest.len() implies (#[trigger] rest[i]).0 != key by {
            assert(rest[i] == pairs[i + 1]);
        }
        assert(pairs[0].0 != key);
        lemma_value_is_appended(rest, key, value);
        assert(seq![pairs[0]] + rest.push((key, value)) =~= pairs.push((key, value)));
    } else {
        assert(with_value(pairs, key, value) =~= pairs.push((key, value)));
    }
}

/// A candidate narrows the stream by a value that is offered for a facet, and by nothing else.
pub proof fn law_facets_only_narrow(
    source: JobView,
    year: Seq<char>,
    facets: Seq<Seq<char>>,
    values: Map<Seq<char>, Seq<Seq<char>>>,
    k: int,
)
    requires
        0 <= k < facet_candidates(source, year, facets, values).len(),
    ensures
        ({
            let params = facet_candidates(source, year, facets, values)[k].params;
            &&& params.query == source.params.query
            &&& params.catalogs == source.params.catalogs
            &&& params.access == source.params.access
            &&& params.publishyear_prev == source.params.publishyear_prev
            &&& params.publishyear_next == source.params.publishyear_next
            &&& exists|facet: Seq<char>, value: Seq<char>|
                facets.contains(facet) && values.contains_key(facet) && values[facet].contains(value)
                    && value_of(source.params.extra, facet) is None && params.extra
                    == #[trigger] with_value(source.params.extra, facet, value)
        }),
    decreases facets.len(),
{
    let all = facet_candidates(source, year, facets, values);
    let rest = facets.drop_last();
    let before = facet_candidates(source, year, rest, values);
    let last = facets.last();
    if k < before.len() {
        law_facets_only_narrow(source, year, rest, values, k);
        assert(all[k] == before[k]);
        let (facet, value) = choose|facet: Seq<char>, value: Seq<char>|
            rest.contains(facet) && values.contains_key(facet) && values[facet].contains(value)
                && value_of(source.params.extra, facet) is None && before[k].params.extra
                == #[trigger] with_value(source.params.extra, facet, value);
        let at = rest.index_of(facet);
        assert(facets[at] == facet);
        assert(all[k].params.extra == with_value(source.params.extra, facet, value));
    } else {
        let j = k - before.len();
        let value = values[last][j];
        assert(all[k] == facet_job(source, year, last, value));
        assert(facets[facets.len() - 1] == last);
        assert(all[k].params.extra == with_value(source.params.extra, last, value));
    }
}

/// Whether the streams of a year that is read to its end are to be added to: automatic overflow is
/// on, the crawl is split by years, and results of the stream and of its group are missing.
pub open spec fn overflows(state: StateView, source: JobView, rules: OverflowRules) -> bool {
    &&& rules.auto_overflow
    &&& rules.shard_years
    &&& source.params.publishyear_prev is Some
    &&& source.params.publishyear_prev == source.params.publishyear_next
    &&& needs_overflow(state, source, rules.facets) == Ok::<bool, Seq<char>>(true)
}

/// Where a year misses results, it is queued in every other sort.
pub proof fn law_overflow_queues_every_sort(
    state: StateView,
    source: JobView,
    rules: OverflowRules,
    keys: Seq<Seq<char>>,
    i: int,
)
    requires
        overflows(state, source, rules),
        0 <= i < rules.sorts.len(),
        source.params.sort_by != Some(rules.sorts[i].0) || source.params.order != Some(
            rules.sorts[i].1,
        ),
    ensures
        keys_after(overflow_of(state, source, rules, keys), keys).contains(
            key_of(
                params_text(
                    ParamsView {
                        sort_by: Some(rules.sorts[i].0),
                        order: Some(rules.sorts[i].1),
                        ..source.params
                    },
                ),
            ),
        ),
{
    let year = source.params.publishyear_prev.unwrap();
    let candidates = sort_candidates(source, year, rules.sorts);
    law_every_sort_is_a_candidate(source, year, rules.sorts, i);
    law_candidates_are_queued(candidates, keys);
    lemma_fresh_keys(candidates, keys);
    let wanted = ParamsView {
        sort_by: Some(rules.sorts[i].0),
        order: Some(rules.sorts[i].1),
        ..source.params
    };
    let k = choose|k: int|
        0 <= k < candidates.len() && (#[trigger] candidates[k]).params == wanted
            && candidates[k].search_key == key_of(params_text(wanted));
    let queued = fresh_jobs(candidates, keys).1;
    assert(queued.contains(candidates[k].search_key));
    if fresh_jobs(candidates, keys).0.len() == 0 {
        assert(queued =~= keys);
        let at = keys.index_of(key_of(params_text(wanted)));
        let after = keys_after(overflow_of(state, source, rules, keys), keys);
        assert(after[at] == keys[at]);
    }
}

/// Where a year misses results and every other sort was queued before, it is queued with every value
/// of every facet that does not narrow it yet, as long as facets may be added.
pub proof fn law_overflow_queues_every_facet_value(
    state: StateView,
    source: JobView,
    rules: OverflowRules,
    keys: Seq<Seq<char>>,
    facet: Seq<char>,
    value: Seq<char>,
)
    requires
        overflows(state, source, rules),
        forall|i: int|
            0 <= i < rules.sorts.len() && (source.params.sort_by != Some(
                (#[trigger] rules.sorts[i]).0,
            ) || source.params.order != Some(rules.sorts[i].1)) ==> keys.contains(
                key_of(
                    params_text(
                        ParamsView {
                            sort_by: Some(rules.sorts[i].0),
                            order: Some(rules.sorts[i].1),
                            ..source.params
                        },
                    ),
                ),
            ),
        facet_depth(source.params.extra, rules.facets) < rules.max_depth,
        rules.facets.contains(facet),
        forall|i: int|
            0 <= i < source.params.extra.len() ==> (#[trigger] source.params.extra[i]).0 != facet,
        rules.values matches Some(values) && values.contains_key(facet) && values[facet].contains(
            value,
        ),
    ensures
        keys_after(overflow_of(state, source, rules, keys), keys).contains(
            key_of(
                params_text(
                    ParamsView {
                        sort_by: None,
                        order: None,
                        extra: source.params.extra.push((facet, value)),
                        ..source.params
                    },
                ),
            ),
        ),
{
    let year = source.params.publishyear_prev.unwrap();
    let values = rules.values.unwrap();
    lemma_no_fresh_sorts(source, year, rules.sorts, keys);
    let candidates = facet_candidates(source, year, rules.facets, values);
    law_every_facet_value_is_a_candidate(source, year, rules.facets, values, facet, value);
    law_candidates_are_queued(candidates, keys);
    lemma_fresh_keys(candidates, keys);
    let wanted = ParamsView {
        sort_by: None,
        order: None,
        extra: source.params.extra.push((facet, value)),
        ..source.params
    };
    let k = choose|k: int|
        0 <= k < candidates.len() && (#[trigger] candidates[k]).params == wanted
            && candidates[k].search_key == key_of(params_text(wanted));
    assert(fresh_jobs(candidates, keys).1.contains(candidates[k].search_key));
    assert(overflow_of(state, source, rules, keys) == OverflowView::Jobs(
        fresh_jobs(candidates, keys).0,
    ));
}

proof fn lemma_no_fresh_sorts(
    source: JobView,
    year: Seq<char>,
    sorts: Seq<(Seq<char>, Seq<char>)>,
    keys: Seq<Seq<char>>,
)
    requires
        forall|i: int|
            0 <= i < sorts.len() && (source.params.sort_by != Some((#[trigger] sorts[i]).0)
                || source.params.order != Some(sorts[i].1)) ==> keys.contains(
                key_of(
                    params_text(
                        ParamsView {
                            sort_by: Some(sorts[i].0),
                            order: Some(sorts[i].1),
                            ..source.params
                        },
                    ),
                ),
            ),
    ensures
        fresh_jobs(sort_candidates(source, year, sorts), keys).0.len() == 0,
        fresh_jobs(sort_candidates(source, year, sorts), keys).1 == keys,
    decreases sorts.len(),
{
    if sorts.len() > 0 {
        let rest = sorts.drop_last();
        let last = sorts.last();
        assert forall|i: int|
            0 <= i < rest.len() && (source.params.sort_by != Some((#[trigger] rest[i]).0)
                || source.params.order != Some(rest[i].1)) implies keys.contains(
            key_of(
                params_text(
                    ParamsView {
                        sort_by: Some(rest[i].0),
                        order: Some(rest[i].1),
                        ..source.params
                    },
                ),
            ),
        ) by {
            assert(rest[i] == sorts[i]);
        }
        lemma_no_fresh_sorts(source, year, rest, keys);
        let all = sort_candidates(source, year, sorts);
        if source.params.sort_by != Some(last.0) || source.params.order != Some(last.1) {
            assert(sorts[sorts.len() - 1] == last);
            assert(all.drop_last() =~= sort_candidates(source, year, rest));
            assert(all.last() == resorted_job(source, year, last));
        }
    }
}

/// Overflow adds nothing to a crawl without it, to a stream that is not that of one year, to one
/// that is not read to its end, and to one that misses nothing.
pub proof fn law_overflow_is_for_gaps(
    state: StateView,
    source: JobView,
    rules: OverflowRules,
    keys: Seq<Seq<char>>,
)
    requires
        !rules.auto_overflow || !rules.shard_years || source.params.publishyear_prev is None
            || source.params.publishyear_prev != source.params.publishyear_next || (shard_of(
            state,
            source.search_key,
        ) matches Some(shard) ==> shard.pending_pages > 0 || shard.in_progress_pages > 0
            || shard.failed_pages > 0 || shard.last_done_results != Some(0u64) || (
        shard.reported_total_results matches Some(total) ==> shard.discovered_results >= total)),
    ensures
        overflow_of(state, source, rules, keys) is Nothing,
{
}

/// A label shows a value of up to eighty characters as it is, and the first eighty of a longer one.
pub proof fn law_abbreviated(value: Seq<char>)
    ensures
        value.len() <= 80 ==> abbreviated(value) == value,
        value.len() > 80 ==> abbreviated(value).take(80) == value.take(80) && abbreviated(
            value,
        ).skip(80) == "..."@,
{
    if value.len() > 80 {
        assert(abbreviated(value).take(80) =~= value.take(80));
        assert(abbreviated(value).skip(80) =~= "..."@);
    }
}

/// The streams that are added each get their first page, waiting, unless they have it; and no other
/// page is added.
pub proof fn law_seeded_pages(
    state: StateView,
    jobs: Seq<JobView>,
    start_page: u64,
    now: i64,
    key: Seq<char>,
    page: u64,
)
    ensures
        has_page(seeded(state, jobs, start_page, now).pages, key, page) <==> has_page(
            state.pages,
            key,
            page,
        ) || (page == start_page && exists|i: int|
            0 <= i < jobs.len() && (#[trigger] jobs[i]).search_key == key),
        seeded(state, jobs, start_page, now).pages.len() >= state.pages.len(),
        seeded(state, jobs, start_page, now).pages.take(state.pages.len() as int) == state.pages,
        seeded(state, jobs, start_page, now).items == state.items,
        seeded(state, jobs, start_page, now).records == state.records,
        seeded(state, jobs, start_page, now).members == state.members,
    decreases jobs.len(),
{
    if jobs.len() > 0 {
        let rest = jobs.drop_last();
        let last = jobs.last();
        let before = seeded(state, rest, start_page, now).pages;
        let after = seeded(state, jobs, start_page, now).pages;
        law_seeded_pages(state, rest, start_page, now, key, page);
        assert(after.take(state.pages.len() as int) =~= before.take(state.pages.len() as int));
        if has_page(after, key, page) {
            let i = choose|i: int|
                0 <= i < after.len() && (#[trigger] after[i]).search_key == key && after[i].page
                    == page;
            if i < before.len() {
                assert(before[i] == after[i]);
            } else {
                assert(jobs[jobs.len() - 1].search_key == key);
            }
            if exists|k: int| 0 <= k < rest.len() && (#[trigger] rest[k]).search_key == key {
                let k = choose|k: int|
                    0 <= k < rest.len() && (#[trigger] rest[k]).search_key == key;
                assert(jobs[k].search_key == key);
            }
        }
        if has_page(before, key, page) {
            let i = choose|i: int|
                0 <= i < before.len() && (#[trigger] before[i]).search_key == key && before[i].page
                    == page;
            assert(after[i] == before[i]);
        }
        if page == start_page && last.search_key == key && !has_page(before, key, page) {
            assert(after[before.len() as int].search_key == key);
        }
        if exists|k: int| 0 <= k < jobs.len() && (#[trigger] jobs[k]).search_key == key {
            let k = choose|k: int| 0 <= k < jobs.len() && (#[trigger] jobs[k]).search_key == key;
            if k < rest.len() {
                assert(rest[k].search_key == key);
            }
        }
    } else {
        assert(state.pages.take(state.pages.len() as int) =~= state.pages);
    }
}

/// A stream of one year that is read to its end and misses results is added to, unless its group is
/// not finished or misses nothing.
pub proof fn law_gaps_overflow(
    state: StateView,
    source: JobView,
    rules: OverflowRules,
    shard: ShardView,
    group: GroupView,
)
    requires
        rules.auto_overflow,
        rules.shard_years,
        source.params.publishyear_prev is Some,
        source.params.publishyear_prev == source.params.publishyear_next,
        shard_of(state, source.search_key) == Some(shard),
        shard.pending_pages == 0,
        shard.in_progress_pages == 0,
        shard.failed_pages == 0,
        shard.last_done_results == Some(0u64),
        shard.reported_total_results matches Some(total) && shard.discovered_results < total,
        group_for(state, source.params_json, rules.facets) == Ok::<Option<GroupView>, Seq<char>>(
            Some(group),
        ),
    ensures
        overflows(state, source, rules) <==> group.unfinished_shards == 0 && (
        group.reported_total_results matches Some(total) && group.unique_item_ids < total),
{
}

/// The label of a narrowed stream names its year, the facets that narrow it and the new value.
pub proof fn law_facet_label(
    year: Seq<char>,
    params: ParamsView,
    field: Seq<char>,
    value: Seq<char>,
    pair: (Seq<char>, Seq<char>),
)
    ensures
        other_extras(Seq::empty(), field).len() == 0,
        pair.0 == field ==> other_extras(params.extra.push(pair), field) == other_extras(
            params.extra,
            field,
        ),
        pair.0 != field ==> other_extras(params.extra.push(pair), field) == other_extras(
            params.extra,
            field,
        ).push(pair.0 + "="@ + abbreviated(pair.1)),
        other_extras(params.extra, field).len() == 0 ==> facet_label(year, params, field, value)
            == "year "@ + year + " auto overflow facet "@ + field + "="@ + abbreviated(value),
        other_extras(params.extra, field).len() > 0 ==> facet_label(year, params, field, value)
            == "year "@ + year + " auto overflow facet "@ + joined(
            other_extras(params.extra, field),
            " "@,
        ) + " "@ + field + "="@ + abbreviated(value),
{
    assert(params.extra.push(pair).drop_last() =~= params.extra);
}

/// Every stream that overflow adds has its line, which tells whether it is new, why it is added and
/// what its source misses.
pub proof fn law_overflow_lines(
    state: StateView,
    jobs: Seq<JobView>,
    job: JobView,
    start_page: u64,
    window_limit_results: u64,
    source_key: Seq<char>,
    now: i64,
)
    requires
        shard_of(state, source_key) is Some,
    ensures
        ({
            let shard = shard_of(state, source_key)->Some_0;
            let before = overflow_lines(
                state,
                jobs,
                start_page,
                window_limit_results,
                source_key,
                now,
            );
            let fresh = !has_page(
                seeded(state, jobs, start_page, now).pages,
                job.search_key,
                start_page,
            );
            let limited = shard.discovered_results >= window_limit_results;
            &&& overflow_lines(
                state,
                Seq::empty(),
                start_page,
                window_limit_results,
                source_key,
                now,
            ).len() == 0
            &&& shard.has_gap() ==> overflow_lines(
                state,
                jobs.push(job),
                start_page,
                window_limit_results,
                source_key,
                now,
            ) == before.push(
                "auto overflow shard "@ + job.label + " ("@ + job.search_key + ") "@ + (if fresh {
                    "seeded"@
                } else {
                    "queued"@
                }) + " after "@ + (if limited {
                    "window-limited"@
                } else {
                    "coverage-gap"@
                }) + " shard "@ + source_key + " discovered "@ + decimal(
                    shard.discovered_results as nat,
                ) + " of "@ + option_decimal(shard.reported_total_results) + " reported results"@,
            )
        }),
{
    assert(jobs.push(job).drop_last() =~= jobs);
}

/// The values of the facets are counted one by one.
pub proof fn law_value_count(entries: Seq<(String, Vec<String>)>, entry: (String, Vec<String>))
    ensures
        value_count(Seq::empty()) == 0,
        value_count(entries) + entry.1@.len() <= u64::MAX ==> value_count(entries.push(entry))
            == value_count(entries) + entry.1@.len(),
{
    assert(entries.push(entry).drop_last() =~= entries);
}

/// A stream that is found in a scan adds what it overflows into, and is not passed over while the
/// scan goes on; one that needs the values of the facets ends the scan there.
pub proof fn law_scan_looks_at_every_stream(
    state: StateView,
    jobs: Seq<JobView>,
    rules: OverflowRules,
    keys: Seq<Seq<char>>,
    start_page: u64,
    window_limit_results: u64,
    now: i64,
    n: nat,
)
    requires
        n < jobs.len(),
    ensures
        ({
            let before = scanned(
                state,
                jobs,
                rules,
                keys,
                start_page,
                window_limit_results,
                now,
                n,
            );
            let after = scanned(
                state,
                jobs,
                rules,
                keys,
                start_page,
                window_limit_results,
                now,
                n + 1,
            );
            let overflow = overflow_of(before.state, jobs[n as int], rules, before.keys);
            &&& !(before.end is Done) ==> after == before
            &&& before.end is Done && overflow is Nothing ==> after == before
            &&& before.end is Done ==> (overflow matches OverflowView::Jobs(new_jobs)
                ==> after.jobs == before.jobs + new_jobs && after.end is Done && after.state
                == seeded(before.state, new_jobs, start_page, now))
            &&& before.end is Done && overflow is NeedFacetValues ==> after.end
                == ScanEndView::NeedFacetValues(n as int) && after.jobs == before.jobs
                && after.state == before.state
            &&& before.end is Done ==> (overflow matches OverflowView::Failed(message) ==> after.end
                == ScanEndView::Failed(message))
        }),
        scanned(state, jobs, rules, keys, start_page, window_limit_results, now, 0).jobs.len() == 0,
        scanned(state, jobs, rules, keys, start_page, window_limit_results, now, 0).state == state,
        scanned(
            state,
            jobs,
            rules,
            keys,
            start_page,
            window_limit_results,
            now,
            0,
        ).end is Done,
{
}

} // verus!
