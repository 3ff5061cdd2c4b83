use crate::numerals::{
    decimal, decimal_text, law_decimal_is_injective, law_decimal_reads_back, parse_number,
    spelled_number,
};
use crate::order::{first_occurrences, law_first_occurrences, push_new};
use crate::params::{
    key_of, law_params_text_is_injective, params_text, stable_search_key, ParamsView, SearchParams,
};
use crate::text::{
    ascii_lower, ascii_lowered, copy_list, copy_option, law_split_at_first, same, split_at_first,
    split_once, trim, trimmed,
};
use crate::views::{group_texts, lemma_take_next, opt_text, pair_texts, texts};
use vstd::prelude::*;

verus! {

broadcast use group_texts;

/// What a crawl is asked to do.
#[derive(Debug)]
pub struct CrawlArgs {
    pub base_url: String,
    pub query: String,
    pub catalogs: Vec<String>,
    pub access: Vec<String>,
    pub publishyear_prev: Option<String>,
    pub publishyear_next: Option<String>,
    pub shard_years: bool,
    pub no_year_shard: bool,
    pub no_year_max_pages: u64,
    pub no_year_stop_after_known_pages: u64,
    pub overflow_years: Vec<u32>,
    pub overflow_sorts: Vec<String>,
    pub auto_overflow: bool,
    pub auto_overflow_facets: bool,
    pub overflow_facets: Vec<String>,
    pub max_overflow_facet_depth: usize,
    pub search_window_limit_results: u64,
    pub sort_by: Option<String>,
    pub order: Option<String>,
    pub extra_params: Vec<String>,
    pub start_page: u64,
    pub max_pages: Option<u64>,
    pub max_items: Option<u64>,
    pub workers: usize,
    pub min_workers: usize,
    pub fixed_workers: bool,
    pub adaptive_decrease_after: u64,
    pub adaptive_increase_after: u64,
    pub no_discover: bool,
    pub max_attempts: u32,
    pub max_consecutive_transport_errors: Option<u64>,
    pub transient_error_pause_secs: u64,
    pub max_consecutive_403_errors: Option<u64>,
    pub http_403_pause_secs: u64,
}

impl Default for CrawlArgs {
    /// The settings of a crawl that is given no options.
    fn default() -> (result: Self)
        ensures
            result.base_url@ == "https://rusneb.ru"@,
            result.query@ == Seq::<char>::empty(),
            result.catalogs@.len() == 0,
            result.access@.len() == 0,
            result.publishyear_prev is None,
            result.publishyear_next is None,
            !result.shard_years,
            result.no_year_shard,
            result.no_year_max_pages == 666,
            result.no_year_stop_after_known_pages == 5,
            result.overflow_years@.len() == 0,
            result.overflow_sorts@.len() == 0,
            result.auto_overflow,
            result.auto_overflow_facets,
            result.overflow_facets@.len() == 0,
            result.max_overflow_facet_depth == 2,
            result.search_window_limit_results == 9990,
            result.sort_by is None,
            result.order is None,
            result.extra_params@.len() == 0,
            result.start_page == 1,
            result.max_pages is None,
            result.max_items is None,
            result.workers == 1,
            result.min_workers == 1,
            !result.fixed_workers,
            result.adaptive_decrease_after == 3,
            result.adaptive_increase_after == 50,
            !result.no_discover,
            result.max_attempts == 5,
            result.max_consecutive_transport_errors is None,
            result.transient_error_pause_secs == 60,
            result.max_consecutive_403_errors is None,
            result.http_403_pause_secs == 600,
    {
        CrawlArgs {
            base_url: "https://rusneb.ru".to_owned(),
            query: String::new(),
            catalogs: Vec::new(),
            access: Vec::new(),
            publishyear_prev: None,
            publishyear_next: None,
            shard_years: false,
            no_year_shard: true,
            no_year_max_pages: 666,
            no_year_stop_after_known_pages: 5,
            overflow_years: Vec::new(),
            overflow_sorts: Vec::new(),
            auto_overflow: true,
            auto_overflow_facets: true,
            overflow_facets: Vec::new(),
            max_overflow_facet_depth: 2,
            search_window_limit_results: 9990,
            sort_by: None,
            order: None,
            extra_params: Vec::new(),
            start_page: 1,
            max_pages: None,
            max_items: None,
            workers: 1,
            min_workers: 1,
            fixed_workers: false,
            adaptive_decrease_after: 3,
            adaptive_increase_after: 50,
            no_discover: false,
            max_attempts: 5,
            max_consecutive_transport_errors: None,
            transient_error_pause_secs: 60,
            max_consecutive_403_errors: None,
            http_403_pause_secs: 600,
        }
    }
}

/// A sort field with its order.
#[derive(Debug, PartialEq, Eq)]
pub struct SearchSort {
    pub field: String,
    pub order: String,
}

impl View for SearchSort {
    type V = (Seq<char>, Seq<char>);

    open spec fn view(&self) -> (Seq<char>, Seq<char>) {
        (self.field@, self.order@)
    }
}

impl Clone for SearchSort {
    fn clone(&self) -> (result: Self)
        ensures
            result@ == self@,
    {
        SearchSort { field: self.field.clone(), order: self.order.clone() }
    }
}

/// The texts of a list of sorts.
pub open spec fn sort_views(list: Seq<SearchSort>) -> Seq<(Seq<char>, Seq<char>)> {
    list.map_values(|s: SearchSort| s@)
}

/// One search stream to discover.
#[derive(Debug)]
pub struct SearchJob {
    pub label: String,
    pub params: SearchParams,
    pub search_key: String,
    pub params_json: String,
    pub max_pages: Option<u64>,
    pub stop_after_known_pages: Option<u64>,
}

/// The texts of one search stream.
#[verifier::ext_equal]
pub ghost struct JobView {
    pub label: Seq<char>,
    pub params: ParamsView,
    pub search_key: Seq<char>,
    pub params_json: Seq<char>,
    pub max_pages: Option<u64>,
    pub stop_after_known_pages: Option<u64>,
}

impl View for SearchJob {
    type V = JobView;

    open spec fn view(&self) -> JobView {
        JobView {
            label: self.label@,
            params: self.params@,
            search_key: self.search_key@,
            params_json: self.params_json@,
            max_pages: self.max_pages,
            stop_after_known_pages: self.stop_after_known_pages,
        }
    }
}

impl Clone for SearchJob {
    fn clone(&self) -> (result: Self)
        ensures
            result@ == self@,
    {
        SearchJob {
            label: self.label.clone(),
            params: self.params.clone(),
            search_key: self.search_key.clone(),
            params_json: self.params_json.clone(),
            max_pages: self.max_pages,
            stop_after_known_pages: self.stop_after_known_pages,
        }
    }
}

/// The texts of a list of search streams.
pub open spec fn job_views(list: Seq<SearchJob>) -> Seq<JobView> {
    list.map_values(|j: SearchJob| j@)
}

/// The search stream of some parameters.
pub open spec fn job_of(
    label: Seq<char>,
    params: ParamsView,
    max_pages: Option<u64>,
    stop_after_known_pages: Option<u64>,
) -> JobView {
    JobView {
        label,
        params,
        search_key: key_of(params_text(params)),
        params_json: params_text(params),
        max_pages,
        stop_after_known_pages,
    }
}

/// A search stream without limits of its own.
pub fn make_search_job(label: String, params: SearchParams) -> (result: SearchJob)
    ensures
        result@ == job_of(label@, params@, None, None),
{
    make_limited_search_job(label, params, None, None)
}

/// A search stream that ends after a number of pages, or of pages in a row without new items.
pub fn make_limited_search_job(
    label: String,
    params: SearchParams,
    max_pages: Option<u64>,
    stop_after_known_pages: Option<u64>,
) -> (result: SearchJob)
    ensures
        result@ == job_of(label@, params@, max_pages, stop_after_known_pages),
{
    let params_json = params.key_json();
    let search_key = stable_search_key(&params_json);
    SearchJob { label, params, search_key, params_json, max_pages, stop_after_known_pages }
}

/// The pairs that a list of `key=value` texts spells, or the message on the first that is none.
pub open spec fn spelled_pairs(values: Seq<Seq<char>>) -> Result<
    Seq<(Seq<char>, Seq<char>)>,
    Seq<char>,
>
    decreases values.len(),
{
    if values.len() == 0 {
        Ok(Seq::empty())
    } else {
        match spelled_pairs(values.drop_last()) {
            Err(message) => Err(message),
            Ok(pairs) => match split_at_first(values.last(), '=') {
                Some(pair) => Ok(pairs.push(pair)),
                None => Err("extra parameter must be key=value: "@ + values.last()),
            },
        }
    }
}

/// An error in a list is an error in every longer list.
proof fn lemma_pairs_error(values: Seq<Seq<char>>, n: int)
    requires
        0 <= n <= values.len(),
        spelled_pairs(values.take(n)) is Err,
    ensures
        spelled_pairs(values) == spelled_pairs(values.take(n)),
    decreases values.len(),
{
    if n < values.len() {
        assert(values.drop_last().take(n) == values.take(n));
        lemma_pairs_error(values.drop_last(), n);
    } else {
        assert(values.take(n) == values);
    }
}

/// Reads extra search parameters of the form `key=value`.
pub fn parse_extra_params(values: &Vec<String>) -> (result: Result<Vec<(String, String)>, String>)
    ensures
        match result {
            Ok(pairs) => spelled_pairs(texts(values@)) == Ok::<_, Seq<char>>(pair_texts(pairs@)),
            Err(message) => spelled_pairs(texts(values@)) == Err::<
                Seq<(Seq<char>, Seq<char>)>,
                _,
            >(message@),
        },
{
    let ghost all = texts(values@);
    let mut out: Vec<(String, String)> = Vec::new();
    assert(pair_texts(out@) == Seq::<(Seq<char>, Seq<char>)>::empty());
    for i in 0..values.len()
        invariant
            all == texts(values@),
            spelled_pairs(all.take(i as int)) == Ok::<_, Seq<char>>(pair_texts(out@)),
    {
        proof {
            lemma_take_next(all, i as int);
            assert(all.take(i + 1).drop_last() == all.take(i as int));
        }
        match split_once(&values[i], '=') {
            Some(pair) => {
                out.push(pair);
            },
            None => {
                let mut message: String = "extra parameter must be key=value: ".to_owned();
                message.append(&values[i]);
                proof {
                    lemma_pairs_error(all, i + 1);
                }
                return Err(message);
            },
        }
    }
    assert(all.take(all.len() as int) == all);
    Ok(out)
}

/// The sort that a `field:order` text spells, or the message on what is wrong with it.
pub open spec fn spelled_sort(value: Seq<char>) -> Result<(Seq<char>, Seq<char>), Seq<char>> {
    match split_at_first(value, ':') {
        None => Err("overflow sort must be field:asc or field:desc: "@ + value),
        Some(parts) => {
            let field = trimmed(parts.0);
            let order = ascii_lowered(trimmed(parts.1));
            if field.len() == 0 {
                Err("overflow sort field must not be empty: "@ + value)
            } else if order != "asc"@ && order != "desc"@ {
                Err("overflow sort order must be asc or desc: "@ + value)
            } else {
                Ok((field, order))
            }
        },
    }
}

/// The sorts that a list of texts spells, each once, or the message on the first that is none.
pub open spec fn spelled_sorts(values: Seq<Seq<char>>) -> Result<
    Seq<(Seq<char>, Seq<char>)>,
    Seq<char>,
>
    decreases values.len(),
{
    if values.len() == 0 {
        Ok(Seq::empty())
    } else {
        match spelled_sorts(values.drop_last()) {
            Err(message) => Err(message),
            Ok(sorts) => match spelled_sort(values.last()) {
                Err(message) => Err(message),
                Ok(sort) => Ok(
                    if sorts.contains(sort) {
                        sorts
                    } else {
                        sorts.push(sort)
                    },
                ),
            },
        }
    }
}

/// An error in a list is an error in every longer list.
proof fn lemma_sorts_error(values: Seq<Seq<char>>, n: int)
    requires
        0 <= n <= values.len(),
        spelled_sorts(values.take(n)) is Err,
    ensures
        spelled_sorts(values) == spelled_sorts(values.take(n)),
    decreases values.len(),
{
    if n < values.len() {
        assert(values.drop_last().take(n) == values.take(n));
        lemma_sorts_error(values.drop_last(), n);
    } else {
        assert(values.take(n) == values);
    }
}

fn with_value_behind(text: &str, value: &str) -> (result: String)
    ensures
        result@ == text@ + value@,
{
    let mut out: String = text.to_owned();
    out.append(value);
    out
}

/// Reads one sort of the form `field:asc` or `field:desc`.
fn parse_sort(value: &str) -> (result: Result<SearchSort, String>)
    ensures
        match result {
            Ok(sort) => spelled_sort(value@) == Ok::<_, Seq<char>>(sort@),
            Err(message) => spelled_sort(value@) == Err::<(Seq<char>, Seq<char>), _>(message@),
        },
{
    match split_once(value, ':') {
        None => Err(with_value_behind("overflow sort must be field:asc or field:desc: ", value)),
        Some((left, right)) => {
            let field = trim(&left);
            let spaced = trim(&right);
            let order = ascii_lower(&spaced);
            if field.as_str().is_empty() {
                Err(with_value_behind("overflow sort field must not be empty: ", value))
            } else if !same(&order, "asc") && !same(&order, "desc") {
                Err(with_value_behind("overflow sort order must be asc or desc: ", value))
            } else {
                Ok(SearchSort { field, order })
            }
        },
    }
}

fn has_sort(list: &Vec<SearchSort>, sort: &SearchSort) -> (result: bool)
    ensures
        result == sort_views(list@).contains(sort@),
{
    for i in 0..list.len()
        invariant
            forall|k: int| 0 <= k < i ==> sort_views(list@)[k] != sort@,
    {
        if same(&list[i].field, &sort.field) && same(&list[i].order, &sort.order) {
            assert(sort_views(list@)[i as int] == sort@);
            return true;
        }
    }
    false
}

/// Reads sorts of the form `field:asc` or `field:desc`, keeping the first of equal ones.
pub fn parse_overflow_sorts(values: &Vec<String>) -> (result: Result<Vec<SearchSort>, String>)
    ensures
        match result {
            Ok(sorts) => spelled_sorts(texts(values@)) == Ok::<_, Seq<char>>(sort_views(sorts@)),
            Err(message) => spelled_sorts(texts(values@)) == Err::<
                Seq<(Seq<char>, Seq<char>)>,
                _,
            >(message@),
        },
{
    let ghost all = texts(values@);
    let mut sorts: Vec<SearchSort> = Vec::new();
    for i in 0..values.len()
        invariant
            all == texts(values@),
            spelled_sorts(all.take(i as int)) == Ok::<_, Seq<char>>(sort_views(sorts@)),
    {
        proof {
            lemma_take_next(all, i as int);
            assert(all.take(i + 1).drop_last() == all.take(i as int));
        }
        match parse_sort(&values[i]) {
            Ok(sort) => {
                if !has_sort(&sorts, &sort) {
                    sorts.push(sort);
                }
            },
            Err(message) => {
                proof {
                    lemma_sorts_error(all, i + 1);
                }
                return Err(message);
            },
        }
    }
    assert(all.take(all.len() as int) == all);
    Ok(sorts)
}

/// The sorts that overflow streams use where none is asked for.
pub open spec fn standard_sorts() -> Seq<(Seq<char>, Seq<char>)> {
    seq![
        ("document_titlesort"@, "asc"@),
        ("document_titlesort"@, "desc"@),
        ("document_authorsort"@, "asc"@),
        ("document_authorsort"@, "desc"@),
        ("document_publishyearsort"@, "asc"@),
        ("document_publishyearsort"@, "desc"@),
    ]
}

fn sort_by(field: &str, order: &str) -> (result: SearchSort)
    ensures
        result@ == (field@, order@),
{
    SearchSort { field: field.to_owned(), order: order.to_owned() }
}

/// The sorts that overflow streams use where none is asked for.
pub fn default_overflow_sorts() -> (result: Vec<SearchSort>)
    ensures
        sort_views(result@) == standard_sorts(),
{
    let mut out: Vec<SearchSort> = Vec::new();
    out.push(sort_by("document_titlesort", "asc"));
    out.push(sort_by("document_titlesort", "desc"));
    out.push(sort_by("document_authorsort", "asc"));
    out.push(sort_by("document_authorsort", "desc"));
    out.push(sort_by("document_publishyearsort", "asc"));
    out.push(sort_by("document_publishyearsort", "desc"));
    assert(sort_views(out@) == standard_sorts());
    out
}

/// The sorts of a crawl's overflow streams: those asked for, or the standard ones where overflow
/// streams can come up.
pub open spec fn chosen_sorts(args: CrawlArgs) -> Result<Seq<(Seq<char>, Seq<char>)>, Seq<char>> {
    match spelled_sorts(texts(args.overflow_sorts@)) {
        Err(message) => Err(message),
        Ok(sorts) => if sorts.len() == 0 && args.shard_years && (args.auto_overflow
            || args.overflow_years@.len() > 0) {
            Ok(standard_sorts())
        } else {
            Ok(sorts)
        },
    }
}

/// The sorts of a crawl's overflow streams.
pub fn effective_overflow_sorts(args: &CrawlArgs) -> (result: Result<Vec<SearchSort>, String>)
    ensures
        match result {
            Ok(sorts) => chosen_sorts(*args) == Ok::<_, Seq<char>>(sort_views(sorts@)),
            Err(message) => chosen_sorts(*args) == Err::<Seq<(Seq<char>, Seq<char>)>, _>(message@),
        },
{
    match parse_overflow_sorts(&args.overflow_sorts) {
        Err(message) => Err(message),
        Ok(sorts) => {
            if sorts.len() > 0 || !args.shard_years || (!args.auto_overflow
                && args.overflow_years.len() == 0) {
                Ok(sorts)
            } else {
                Ok(default_overflow_sorts())
            }
        },
    }
}

/// The trimmed texts of a list.
pub open spec fn trimmed_list(list: Seq<Seq<char>>) -> Seq<Seq<char>> {
    list.map_values(|s: Seq<char>| trimmed(s))
}

/// The trimmed texts of a list, without the empty ones and each once.
pub fn dedup_nonempty_strings(values: Vec<String>) -> (result: Vec<String>)
    ensures
        texts(result@) == first_occurrences(trimmed_list(texts(values@))),
{
    let ghost all = trimmed_list(texts(values@));
    let mut out: Vec<String> = Vec::new();
    for i in 0..values.len()
        invariant
            all == trimmed_list(texts(values@)),
            texts(out@) == first_occurrences(all.take(i as int)),
    {
        let value = trim(&values[i]);
        push_new(&mut out, value);
        proof {
            lemma_take_next(all, i as int);
            assert(all.take(i + 1).drop_last() == all.take(i as int));
        }
    }
    assert(all.take(all.len() as int) == all);
    out
}

/// The facet fields that overflow streams use where none is asked for.
pub open spec fn standard_facets() -> Seq<Seq<char>> {
    seq!["lang"@, "idlibrary"@]
}

/// The facet fields that overflow streams use where none is asked for.
pub fn default_overflow_facets() -> (result: Vec<String>)
    ensures
        texts(result@) == standard_facets(),
{
    let mut out: Vec<String> = Vec::new();
    out.push("lang".to_owned());
    out.push("idlibrary".to_owned());
    assert(texts(out@) == standard_facets());
    out
}

/// The facet fields that are asked for, or the standard ones.
pub open spec fn facets_or_standard(asked: Seq<Seq<char>>) -> Seq<Seq<char>> {
    if asked.len() == 0 {
        standard_facets()
    } else {
        asked
    }
}

/// The facet fields of a crawl's automatic overflow streams.
pub open spec fn chosen_facets(args: CrawlArgs) -> Seq<Seq<char>> {
    if args.auto_overflow && args.auto_overflow_facets && args.shard_years
        && args.max_overflow_facet_depth > 0 {
        first_occurrences(trimmed_list(facets_or_standard(texts(args.overflow_facets@))))
    } else {
        Seq::empty()
    }
}

/// The facet fields of a crawl's automatic overflow streams.
pub fn effective_overflow_facets(args: &CrawlArgs) -> (result: Vec<String>)
    ensures
        texts(result@) == chosen_facets(*args),
{
    if !args.auto_overflow || !args.auto_overflow_facets || !args.shard_years
        || args.max_overflow_facet_depth == 0 {
        return Vec::new();
    }
    let fields = if args.overflow_facets.len() == 0 {
        default_overflow_facets()
    } else {
        copy_list(&args.overflow_facets)
    };
    dedup_nonempty_strings(fields)
}

/// The year that a bound of the year range names, or the message on why it names none.
pub open spec fn spelled_year(name: Seq<char>, value: Option<Seq<char>>) -> Result<nat, Seq<char>> {
    match value {
        None => Err(name + " is required when --shard-years is used"@),
        Some(text) => match spelled_number(text, u32::MAX as nat) {
            Some(year) => Ok(year),
            None => Err(name + " must be an unsigned year: "@ + text),
        },
    }
}

/// Reads a bound of the year range.
pub fn parse_year_bound(name: &str, value: &Option<String>) -> (result: Result<u32, String>)
    ensures
        match result {
            Ok(year) => spelled_year(name@, opt_text(*value)) == Ok::<_, Seq<char>>(year as nat),
            Err(message) => spelled_year(name@, opt_text(*value)) == Err::<nat, _>(message@),
        },
{
    match value {
        None => Err(with_value_behind(name, " is required when --shard-years is used")),
        Some(text) => match parse_number(text, u32::MAX as u64) {
            Some(year) => Ok(year as u32),
            None => {
                let mut message = with_value_behind(name, " must be an unsigned year: ");
                message.append(text);
                Err(message)
            },
        },
    }
}

/// The smaller of two optional years.
pub open spec fn smaller_year(a: Option<u32>, b: Option<u32>) -> Option<u32> {
    match (a, b) {
        (Some(x), Some(y)) => Some(
            if y < x {
                y
            } else {
                x
            },
        ),
        (Some(x), None) => Some(x),
        (None, _) => b,
    }
}

/// The smallest year of a list outside an inclusive range.
pub open spec fn smallest_outside(years: Seq<u32>, from: nat, to: nat) -> Option<u32>
    decreases years.len(),
{
    if years.len() == 0 {
        None
    } else {
        let year = years.last();
        smaller_year(
            smallest_outside(years.drop_last(), from, to),
            if year < from || year > to {
                Some(year)
            } else {
                None
            },
        )
    }
}

fn year_outside(years: &Vec<u32>, from: u32, to: u32) -> (result: Option<u32>)
    ensures
        result == smallest_outside(years@, from as nat, to as nat),
{
    let mut found: Option<u32> = None;
    for i in 0..years.len()
        invariant
            found == smallest_outside(years@.take(i as int), from as nat, to as nat),
    {
        proof {
            assert(years@.take(i + 1).drop_last() == years@.take(i as int));
        }
        let year: u32 = years[i];
        if year < from || year > to {
            match found {
                Some(least) => {
                    if year < least {
                        found = Some(year);
                    }
                },
                None => {
                    found = Some(year);
                },
            }
        }
    }
    assert(years@.take(years@.len() as int) == years@);
    found
}

/// The parameters with both year bounds set to one year.
pub open spec fn params_of_year(base: ParamsView, year: nat) -> ParamsView {
    ParamsView {
        publishyear_prev: Some(decimal(year)),
        publishyear_next: Some(decimal(year)),
        ..base
    }
}

/// The parameters with a sort set.
pub open spec fn params_sorted(base: ParamsView, sort: (Seq<char>, Seq<char>)) -> ParamsView {
    ParamsView { sort_by: Some(sort.0), order: Some(sort.1), ..base }
}

/// The stream of one year in one sort.
pub open spec fn sorted_year_job(
    base: ParamsView,
    year: nat,
    sort: (Seq<char>, Seq<char>),
) -> JobView {
    job_of(
        "year "@ + decimal(year) + " sort "@ + sort.0 + ":"@ + sort.1,
        params_sorted(params_of_year(base, year), sort),
        None,
        None,
    )
}

/// The streams of one year: the plain one, then one in each sort.
pub open spec fn jobs_of_year(
    base: ParamsView,
    year: nat,
    sorts: Seq<(Seq<char>, Seq<char>)>,
) -> Seq<JobView> {
    seq![job_of("year "@ + decimal(year), params_of_year(base, year), None, None)]
        + sorts.map_values(|s: (Seq<char>, Seq<char>)| sorted_year_job(base, year, s))
}

/// The streams of `count` years from `from` on, with sorted streams for the years in `years`.
pub open spec fn jobs_of_years(
    base: ParamsView,
    from: nat,
    count: nat,
    years: Seq<u32>,
    sorts: Seq<(Seq<char>, Seq<char>)>,
) -> Seq<JobView>
    decreases count,
{
    if count == 0 {
        Seq::empty()
    } else {
        let year = (from + count - 1) as nat;
        jobs_of_years(base, from, (count - 1) as nat, years, sorts) + jobs_of_year(
            base,
            year,
            if years.contains(year as u32) {
                sorts
            } else {
                Seq::empty()
            },
        )
    }
}

/// The stream that finds the items without a year: all items in ascending order of the year.
pub open spec fn no_year_job(base: ParamsView, max_pages: u64, known_pages: u64) -> JobView {
    job_of(
        "no-year prefix sort document_publishyearsort:asc"@,
        ParamsView {
            publishyear_prev: None,
            publishyear_next: None,
            sort_by: Some("document_publishyearsort"@),
            order: Some("asc"@),
            ..base
        },
        Some(max_pages),
        if known_pages > 0 {
            Some(known_pages)
        } else {
            None
        },
    )
}

/// The parameters that a crawl's streams start from.
pub open spec fn base_params(
    args: CrawlArgs,
    extra: Seq<(Seq<char>, Seq<char>)>,
) -> ParamsView {
    ParamsView {
        base_url: args.base_url@,
        query: args.query@,
        catalogs: texts(args.catalogs@),
        access: texts(args.access@),
        publishyear_prev: opt_text(args.publishyear_prev),
        publishyear_next: opt_text(args.publishyear_next),
        sort_by: opt_text(args.sort_by),
        order: opt_text(args.order),
        extra,
    }
}

/// The streams of a crawl that is split by years, or the message on why it cannot be.
pub open spec fn sharded_jobs(
    args: CrawlArgs,
    base: ParamsView,
    sorts: Seq<(Seq<char>, Seq<char>)>,
) -> Result<Seq<JobView>, Seq<char>> {
    if args.overflow_years@.len() == 0 && !args.auto_overflow && args.overflow_sorts@.len() > 0 {
        Err("--overflow-sort without --overflow-year requires automatic overflow"@)
    } else if args.no_year_shard && args.no_year_max_pages == 0 {
        Err("--no-year-max-pages must be greater than zero"@)
    } else {
        match (
            spelled_year("--publishyear-prev"@, base.publishyear_prev),
            spelled_year("--publishyear-next"@, base.publishyear_next),
        ) {
            (Err(message), _) => Err(message),
            (_, Err(message)) => Err(message),
            (Ok(from), Ok(to)) => if from > to {
                Err(
                    "--publishyear-prev must be less than or equal to --publishyear-next when --shard-years is used"@,
                )
            } else {
                match smallest_outside(args.overflow_years@, from, to) {
                    Some(year) => Err(
                        "--overflow-year "@ + decimal(year as nat)
                            + " is outside --publishyear-prev..--publishyear-next"@,
                    ),
                    None => Ok(
                        jobs_of_years(
                            base,
                            from,
                            (to - from + 1) as nat,
                            args.overflow_years@,
                            sorts,
                        ) + if args.no_year_shard {
                            seq![
                                no_year_job(
                                    base,
                                    args.no_year_max_pages,
                                    args.no_year_stop_after_known_pages,
                                ),
                            ]
                        } else {
                            Seq::empty()
                        },
                    ),
                }
            },
        }
    }
}

/// The streams that a crawl starts with, or the message on why its settings give none.
pub open spec fn planned_jobs(args: CrawlArgs) -> Result<Seq<JobView>, Seq<char>> {
    match (spelled_pairs(texts(args.extra_params@)), chosen_sorts(args)) {
        (Err(message), _) => Err(message),
        (_, Err(message)) => Err(message),
        (Ok(extra), Ok(sorts)) => if args.shard_years {
            sharded_jobs(args, base_params(args, extra), sorts)
        } else if args.overflow_years@.len() > 0 || args.overflow_sorts@.len() > 0 {
            Err("--overflow-year and --overflow-sort require --shard-years"@)
        } else {
            Ok(seq![job_of("default"@, base_params(args, extra), None, None)])
        },
    }
}

/// Whether a result is what was planned.
pub open spec fn jobs_match(
    result: Result<Vec<SearchJob>, String>,
    planned: Result<Seq<JobView>, Seq<char>>,
) -> bool {
    match (result, planned) {
        (Ok(jobs), Ok(views)) => job_views(jobs@) == views,
        (Err(message), Err(text)) => message@ == text,
        _ => false,
    }
}

fn has_year(years: &Vec<u32>, year: u32) -> (result: bool)
    ensures
        result == years@.contains(year),
{
    for i in 0..years.len()
        invariant
            forall|k: int| 0 <= k < i ==> years@[k] != year,
    {
        if years[i] == year {
            return true;
        }
    }
    false
}

/// Appends the streams of one year.
fn push_year_jobs(
    jobs: &mut Vec<SearchJob>,
    base: &SearchParams,
    year: u32,
    sorts: &Vec<SearchSort>,
    sorted: bool,
)
    ensures
        job_views(final(jobs)@) == job_views(old(jobs)@) + jobs_of_year(
            base@,
            year as nat,
            if sorted {
                sort_views(sorts@)
            } else {
                Seq::empty()
            },
        ),
{
    let ghost before = job_views(jobs@);
    let year_text = decimal_text(year as u64);
    let mut params = base.clone();
    params.publishyear_prev = Some(year_text.clone());
    params.publishyear_next = Some(year_text.clone());
    let ghost year_params = params_of_year(base@, year as nat);
    assert(params@ == year_params);
    jobs.push(make_search_job(with_value_behind("year ", &year_text), params.clone()));
    let ghost plain = jobs_of_year(base@, year as nat, Seq::empty());
    assert(job_views(jobs@) == before + plain);
    if !sorted {
        return;
    }
    let ghost all = sort_views(sorts@);
    let ghost f = |s: (Seq<char>, Seq<char>)| sorted_year_job(base@, year as nat, s);
    assert(all.take(0).map_values(f) == Seq::<JobView>::empty());
    for i in 0..sorts.len()
        invariant
            all == sort_views(sorts@),
            f == (|s: (Seq<char>, Seq<char>)| sorted_year_job(base@, year as nat, s)),
            params@ == params_of_year(base@, year as nat),
            year_text@ == decimal(year as nat),
            job_views(jobs@) == before + plain + all.take(i as int).map_values(f),
    {
        let mut sorted_params = params.clone();
        sorted_params.sort_by = Some(sorts[i].field.clone());
        sorted_params.order = Some(sorts[i].order.clone());
        let mut label = with_value_behind("year ", &year_text);
        label.append(" sort ");
        label.append(&sorts[i].field);
        label.append(":");
        label.append(&sorts[i].order);
        assert(sorted_params@ == params_sorted(params@, all[i as int]));
        jobs.push(make_search_job(label, sorted_params));
        proof {
            lemma_take_next(all, i as int);
            assert(before + plain + all.take(i + 1).map_values(f) == (before + plain + all.take(
                i as int,
            ).map_values(f)).push(f(all[i as int])));
        }
    }
    assert(all.take(all.len() as int) == all);
    assert(before + plain + all.map_values(f) == before + jobs_of_year(base@, year as nat, all));
}

/// The streams of a crawl that is split by years.
fn build_sharded_jobs(
    args: &CrawlArgs,
    base: &SearchParams,
    sorts: &Vec<SearchSort>,
) -> (result: Result<Vec<SearchJob>, String>)
    requires
        base@.publishyear_prev == opt_text(args.publishyear_prev),
        base@.publishyear_next == opt_text(args.publishyear_next),
    ensures
        jobs_match(result, sharded_jobs(*args, base@, sort_views(sorts@))),
{
    if args.overflow_years.len() == 0 && !args.auto_overflow && args.overflow_sorts.len() > 0 {
        return Err(
            "--overflow-sort without --overflow-year requires automatic overflow".to_owned(),
        );
    }
    if args.no_year_shard && args.no_year_max_pages == 0 {
        return Err("--no-year-max-pages must be greater than zero".to_owned());
    }
    let from: u32 = match parse_year_bound("--publishyear-prev", &args.publishyear_prev) {
        Ok(year) => year,
        Err(message) => return Err(message),
    };
    let to: u32 = match parse_year_bound("--publishyear-next", &args.publishyear_next) {
        Ok(year) => year,
        Err(message) => return Err(message),
    };
    if from > to {
        return Err(
            "--publishyear-prev must be less than or equal to --publishyear-next when --shard-years is used".to_owned(),
        );
    }
    match year_outside(&args.overflow_years, from, to) {
        Some(year) => {
            let year_text = decimal_text(year as u64);
            let mut message = with_value_behind("--overflow-year ", &year_text);
            message.append(" is outside --publishyear-prev..--publishyear-next");
            return Err(message);
        },
        None => {},
    }
    let mut jobs: Vec<SearchJob> = Vec::new();
    let count: u64 = to as u64 - from as u64 + 1;
    for i in 0..count
        invariant
            from <= to,
            count == to - from + 1,
            job_views(jobs@) == jobs_of_years(
                base@,
                from as nat,
                i as nat,
                args.overflow_years@,
                sort_views(sorts@),
            ),
    {
        let year: u32 = (from as u64 + i) as u32;
        let sorted = has_year(&args.overflow_years, year);
        push_year_jobs(&mut jobs, base, year, sorts, sorted);
    }
    if args.no_year_shard {
        let mut params = base.clone();
        params.publishyear_prev = None;
        params.publishyear_next = None;
        params.sort_by = Some("document_publishyearsort".to_owned());
        params.order = Some("asc".to_owned());
        let stop: Option<u64> = if args.no_year_stop_after_known_pages > 0 {
            Some(args.no_year_stop_after_known_pages)
        } else {
            None
        };
        jobs.push(
            make_limited_search_job(
                "no-year prefix sort document_publishyearsort:asc".to_owned(),
                params,
                Some(args.no_year_max_pages),
                stop,
            ),
        );
    }
    assert(job_views(jobs@) == sharded_jobs(*args, base@, sort_views(sorts@))->Ok_0);
    Ok(jobs)
}

/// The streams that a crawl starts with: one in all, or one for each year of the range, with
/// sorted ones for the overflow years and one for the items without a year.
pub fn build_search_jobs(args: &CrawlArgs) -> (result: Result<Vec<SearchJob>, String>)
    ensures
        jobs_match(result, planned_jobs(*args)),
{
    let extra = match parse_extra_params(&args.extra_params) {
        Ok(extra) => extra,
        Err(message) => return Err(message),
    };
    let sorts = match effective_overflow_sorts(args) {
        Ok(sorts) => sorts,
        Err(message) => return Err(message),
    };
    let base = SearchParams {
        base_url: args.base_url.clone(),
        query: args.query.clone(),
        catalogs: copy_list(&args.catalogs),
        access: copy_list(&args.access),
        publishyear_prev: copy_option(&args.publishyear_prev),
        publishyear_next: copy_option(&args.publishyear_next),
        sort_by: copy_option(&args.sort_by),
        order: copy_option(&args.order),
        extra,
    };
    if args.shard_years {
        return build_sharded_jobs(args, &base, &sorts);
    }
    if args.overflow_years.len() > 0 || args.overflow_sorts.len() > 0 {
        return Err("--overflow-year and --overflow-sort require --shard-years".to_owned());
    }
    let mut jobs: Vec<SearchJob> = Vec::new();
    jobs.push(make_search_job("default".to_owned(), base));
    assert(job_views(jobs@) == planned_jobs(*args)->Ok_0);
    Ok(jobs)
}

/// Whether a stream searches with the filters of `base` and is stored under its own parameters.
pub open spec fn keeps_filters(job: JobView, base: ParamsView) -> bool {
    &&& job.params.base_url == base.base_url
    &&& job.params.query == base.query
    &&& job.params.catalogs == base.catalogs
    &&& job.params.access == base.access
    &&& job.params.extra == base.extra
    &&& job.params_json == params_text(job.params)
    &&& job.search_key == key_of(job.params_json)
}

proof fn lemma_year_jobs_keep_filters(
    base: ParamsView,
    from: nat,
    count: nat,
    years: Seq<u32>,
    sorts: Seq<(Seq<char>, Seq<char>)>,
)
    ensures
        forall|i: int|
            0 <= i < jobs_of_years(base, from, count, years, sorts).len() ==> keeps_filters(
                #[trigger] jobs_of_years(base, from, count, years, sorts)[i],
                base,
            ),
    decreases count,
{
    if count > 0 {
        lemma_year_jobs_keep_filters(base, from, (count - 1) as nat, years, sorts);
        let all = jobs_of_years(base, from, count, years, sorts);
        let shorter = jobs_of_years(base, from, (count - 1) as nat, years, sorts);
        assert forall|i: int| 0 <= i < all.len() implies keeps_filters(#[trigger] all[i], base) by {
            if i < shorter.len() {
                assert(all[i] == shorter[i]);
            }
        }
    }
}

/// Every stream of a crawl searches with the crawl's query, filters and extra parameters, and is
/// stored under its own parameters.
pub proof fn law_jobs_keep_filters(args: CrawlArgs, i: int)
    requires
        planned_jobs(args) is Ok,
        0 <= i < planned_jobs(args)->Ok_0.len(),
    ensures
        spelled_pairs(texts(args.extra_params@)) is Ok,
        keeps_filters(
            planned_jobs(args)->Ok_0[i],
            base_params(args, spelled_pairs(texts(args.extra_params@))->Ok_0),
        ),
{
    let base = base_params(args, spelled_pairs(texts(args.extra_params@))->Ok_0);
    let sorts = chosen_sorts(args)->Ok_0;
    if args.shard_years {
        let from = spelled_year("--publishyear-prev"@, base.publishyear_prev)->Ok_0;
        let to = spelled_year("--publishyear-next"@, base.publishyear_next)->Ok_0;
        lemma_year_jobs_keep_filters(
            base,
            from,
            (to - from + 1) as nat,
            args.overflow_years@,
            sorts,
        );
    }
}

proof fn lemma_year_has_stream(
    base: ParamsView,
    from: nat,
    count: nat,
    years: Seq<u32>,
    sorts: Seq<(Seq<char>, Seq<char>)>,
    year: nat,
) -> (at: int)
    requires
        from <= year < from + count,
    ensures
        0 <= at < jobs_of_years(base, from, count, years, sorts).len(),
        jobs_of_years(base, from, count, years, sorts)[at] == job_of(
            "year "@ + decimal(year),
            params_of_year(base, year),
            None,
            None,
        ),
    decreases count,
{
    let shorter = jobs_of_years(base, from, (count - 1) as nat, years, sorts);
    if year == from + count - 1 {
        shorter.len() as int
    } else {
        lemma_year_has_stream(base, from, (count - 1) as nat, years, sorts, year)
    }
}

/// A crawl that is split by years has a stream for every year of its range.
pub proof fn law_every_year_has_a_stream(args: CrawlArgs, year: nat)
    requires
        args.shard_years,
        planned_jobs(args) is Ok,
        spelled_year("--publishyear-prev"@, opt_text(args.publishyear_prev))->Ok_0 <= year,
        year <= spelled_year("--publishyear-next"@, opt_text(args.publishyear_next))->Ok_0,
    ensures
        planned_jobs(args)->Ok_0.contains(
            job_of(
                "year "@ + decimal(year),
                params_of_year(
                    base_params(args, spelled_pairs(texts(args.extra_params@))->Ok_0),
                    year,
                ),
                None,
                None,
            ),
        ),
{
    let base = base_params(args, spelled_pairs(texts(args.extra_params@))->Ok_0);
    let sorts = chosen_sorts(args)->Ok_0;
    let from = spelled_year("--publishyear-prev"@, base.publishyear_prev)->Ok_0;
    let to = spelled_year("--publishyear-next"@, base.publishyear_next)->Ok_0;
    let count = (to - from + 1) as nat;
    let years = args.overflow_years@;
    let at = lemma_year_has_stream(base, from, count, years, sorts, year);
    assert(planned_jobs(args)->Ok_0[at] == jobs_of_years(base, from, count, years, sorts)[at]);
}

/// The streams of different years are stored under different parameters.
pub proof fn law_years_are_separate(base: ParamsView, a: nat, b: nat)
    requires
        a != b,
    ensures
        params_text(params_of_year(base, a)) != params_text(params_of_year(base, b)),
{
    if params_text(params_of_year(base, a)) == params_text(params_of_year(base, b)) {
        law_params_text_is_injective(params_of_year(base, a), params_of_year(base, b));
        law_decimal_is_injective(a, b);
    }
}

/// An extra parameter is spelled as its key, the first `=` and its value; the first one spelled
/// otherwise is refused.
pub proof fn law_extra_params(values: Seq<Seq<char>>)
    ensures
        (forall|i: int| 0 <= i < values.len() ==> (#[trigger] values[i]).contains('=')) <==> (
        spelled_pairs(values) is Ok),
        spelled_pairs(values) matches Ok(pairs) ==> pairs.len() == values.len() && forall|i: int|
            0 <= i < values.len() ==> (#[trigger] values[i] == pairs[i].0 + seq!['='] + pairs[i].1
                && !pairs[i].0.contains('=')),
        spelled_pairs(values) matches Err(message) ==> exists|i: int|
            0 <= i < values.len() && !(#[trigger] values[i]).contains('=') && message
                == "extra parameter must be key=value: "@ + values[i] && forall|j: int|
                0 <= j < i ==> (#[trigger] values[j]).contains('='),
    decreases values.len(),
{
    if values.len() > 0 {
        let rest = values.drop_last();
        let n = rest.len() as int;
        law_extra_params(rest);
        assert forall|i: int| 0 <= i < n implies #[trigger] rest[i] == values[i] by {}
        law_split_at_first(values.last(), '=');
        assert(values[n] == values.last());
        match spelled_pairs(rest) {
            Err(message) => {
                let i = choose|i: int|
                    0 <= i < rest.len() && !(#[trigger] rest[i]).contains('=') && message
                        == "extra parameter must be key=value: "@ + rest[i] && forall|j: int|
                        0 <= j < i ==> (#[trigger] rest[j]).contains('=');
                assert(!values[i].contains('='));
                assert forall|j: int| 0 <= j < i implies (#[trigger] values[j]).contains('=') by {
                    assert(rest[j] == values[j]);
                }
            },
            Ok(pairs) => {
                assert forall|j: int| 0 <= j < n implies (#[trigger] values[j]).contains('=') by {
                    assert(rest[j] == values[j]);
                    assert(pairs[j].0 + seq!['='] + pairs[j].1 == rest[j]);
                    assert(rest[j][pairs[j].0.len() as int] == '=');
                }
                if split_at_first(values.last(), '=') is Some {
                    let pair = split_at_first(values.last(), '=')->Some_0;
                    assert(values.last()[pair.0.len() as int] == '=');
                    assert forall|i: int| 0 <= i < values.len() implies (#[trigger] values[i]
                        == pairs.push(pair)[i].0 + seq!['='] + pairs.push(pair)[i].1
                        && !pairs.push(pair)[i].0.contains('=')) by {
                        if i < n {
                            assert(rest[i] == values[i]);
                        }
                    }
                }
            },
        }
    }
}

/// A sort is spelled as a field, a colon and `asc` or `desc` in any case, with white space allowed
/// around both; anything else is refused.
pub proof fn law_spelled_sort(value: Seq<char>)
    ensures
        spelled_sort(value) matches Ok(sort) ==> (sort.1 == "asc"@ || sort.1 == "desc"@)
            && sort.0.len() > 0 && exists|field: Seq<char>, order: Seq<char>|
            value == #[trigger] (field + seq![':'] + order) && !field.contains(':') && trimmed(field)
                == sort.0 && ascii_lowered(trimmed(order)) == sort.1,
        !value.contains(':') <==> spelled_sort(value) == Err::<(Seq<char>, Seq<char>), _>(
            "overflow sort must be field:asc or field:desc: "@ + value,
        ),
{
    law_split_at_first(value, ':');
    reveal_strlit("overflow sort must be field:asc or field:desc: ");
    reveal_strlit("overflow sort field must not be empty: ");
    reveal_strlit("overflow sort order must be asc or desc: ");
    match split_at_first(value, ':') {
        Some(parts) => {
            assert(value[parts.0.len() as int] == ':');
            assert(value == parts.0 + seq![':'] + parts.1);
            let a = "overflow sort must be field:asc or field:desc: "@ + value;
            let b = "overflow sort field must not be empty: "@ + value;
            let c = "overflow sort order must be asc or desc: "@ + value;
            assert(a[14] != b[14]);
            assert(a[14] != c[14]);
        },
        None => {},
    }
}

/// A field and an order that are spelled plainly make a sort.
pub proof fn law_plain_sort(field: Seq<char>, order: Seq<char>, value: Seq<char>)
    requires
        order == "asc"@ || order == "desc"@,
        split_at_first(value, ':') == Some((field, order)),
        trimmed(field) == field,
        trimmed(order) == order,
        ascii_lowered(order) == order,
        field.len() > 0,
    ensures
        spelled_sort(value) == Ok::<_, Seq<char>>((field, order)),
{
}

/// Every sort that is spelled is taken once, and no other; one that is refused refuses them all.
pub proof fn law_spelled_sorts(values: Seq<Seq<char>>, sort: (Seq<char>, Seq<char>))
    ensures
        (forall|i: int| 0 <= i < values.len() ==> spelled_sort(#[trigger] values[i]) is Ok) <==> (
        spelled_sorts(values) is Ok),
        spelled_sorts(values) matches Ok(sorts) ==> sorts.no_duplicates() && (sorts.contains(sort)
            <==> exists|i: int|
            0 <= i < values.len() && spelled_sort(#[trigger] values[i]) == Ok::<_, Seq<char>>(sort)),
    decreases values.len(),
{
    if values.len() > 0 {
        let rest = values.drop_last();
        let n = rest.len() as int;
        law_spelled_sorts(rest, sort);
        assert forall|i: int| 0 <= i < n implies #[trigger] rest[i] == values[i] by {}
        assert(values[n] == values.last());
        if spelled_sorts(rest) is Err {
            let i = choose|i: int|
                0 <= i < rest.len() && !(spelled_sort(#[trigger] rest[i]) is Ok);
            assert(values[i] == rest[i]);
        } else {
            let sorts = spelled_sorts(rest)->Ok_0;
            assert forall|i: int| 0 <= i < n implies spelled_sort(#[trigger] values[i]) is Ok by {
                assert(rest[i] == values[i]);
            }
            if spelled_sort(values.last()) is Ok {
                let all = spelled_sorts(values)->Ok_0;
                let last = spelled_sort(values.last())->Ok_0;
                if sorts.contains(sort) {
                    let i = choose|i: int|
                        0 <= i < rest.len() && spelled_sort(#[trigger] rest[i]) == Ok::<
                            _,
                            Seq<char>,
                        >(sort);
                    assert(spelled_sort(values[i]) == Ok::<_, Seq<char>>(sort));
                    let k = sorts.index_of(sort);
                    assert(all[k] == sort);
                }
                if all.contains(sort) {
                    let k = all.index_of(sort);
                    if k < sorts.len() {
                        assert(sorts[k] == sort);
                    } else {
                        assert(sort == last);
                    }
                }
                if exists|i: int|
                    0 <= i < values.len() && spelled_sort(#[trigger] values[i]) == Ok::<
                        _,
                        Seq<char>,
                    >(sort) {
                    let i = choose|i: int|
                        0 <= i < values.len() && spelled_sort(#[trigger] values[i]) == Ok::<
                            _,
                            Seq<char>,
                        >(sort);
                    if i < n {
                        assert(spelled_sort(rest[i]) == Ok::<_, Seq<char>>(sort));
                    } else if !sorts.contains(sort) {
                        assert(all[sorts.len() as int] == sort);
                    }
                }
            }
        }
    }
}

/// Where no sort is named and the years of a sharded crawl may overflow, the results are sorted by
/// title, by author and by year, each in both orders.
pub proof fn law_standard_sorts(args: CrawlArgs, field: Seq<char>, order: Seq<char>)
    requires
        args.overflow_sorts@.len() == 0,
    ensures
        args.shard_years && (args.auto_overflow || args.overflow_years@.len() > 0) ==> (chosen_sorts(
            args,
        ) matches Ok(sorts) && (sorts.contains((field, order)) <==> (field
            == "document_titlesort"@ || field == "document_authorsort"@ || field
            == "document_publishyearsort"@) && (order == "asc"@ || order == "desc"@))),
        !(args.shard_years && (args.auto_overflow || args.overflow_years@.len() > 0)) ==> (
        chosen_sorts(args) matches Ok(sorts) && sorts.len() == 0),
{
    assert(texts(args.overflow_sorts@) =~= Seq::empty());
    let sorts = standard_sorts();
    assert(sorts[0] == ("document_titlesort"@, "asc"@));
    assert(sorts[1] == ("document_titlesort"@, "desc"@));
    assert(sorts[2] == ("document_authorsort"@, "asc"@));
    assert(sorts[3] == ("document_authorsort"@, "desc"@));
    assert(sorts[4] == ("document_publishyearsort"@, "asc"@));
    assert(sorts[5] == ("document_publishyearsort"@, "desc"@));
}

/// The facets that narrow an overflowing year are those that are named, trimmed and each once, or
/// the language and the library where none is named; there are none where years do not overflow.
pub proof fn law_chosen_facets(args: CrawlArgs, facet: Seq<char>)
    ensures
        ({
            let named = texts(args.overflow_facets@);
            let on = args.shard_years && args.auto_overflow && args.auto_overflow_facets
                && args.max_overflow_facet_depth > 0;
            &&& !on ==> chosen_facets(args).len() == 0
            &&& chosen_facets(args).no_duplicates()
            &&& on && named.len() > 0 ==> (chosen_facets(args).contains(facet) <==> facet.len() > 0
                && exists|i: int| 0 <= i < named.len() && trimmed(#[trigger] named[i]) == facet)
            &&& on && named.len() == 0 ==> (chosen_facets(args).contains(facet) <==> facet.len() > 0
                && (facet == trimmed("lang"@) || facet == trimmed("idlibrary"@)))
        }),
{
    let named = facets_or_standard(texts(args.overflow_facets@));
    let list = trimmed_list(named);
    law_first_occurrences(list);
    assert(Seq::<Seq<char>>::empty().no_duplicates());
    if list.contains(facet) {
        let k = list.index_of(facet);
        assert(trimmed(named[k]) == facet);
    }
    assert forall|i: int| 0 <= i < named.len() implies list.contains(
        trimmed(#[trigger] named[i]),
    ) by {
        assert(list[i] == trimmed(named[i]));
    }
    if texts(args.overflow_facets@).len() == 0 {
        assert(named[0] == "lang"@ && named[1] == "idlibrary"@);
    }
}

/// The year that is refused is the smallest of those outside the bounds.
pub proof fn law_smallest_outside(years: Seq<u32>, from: nat, to: nat)
    ensures
        match smallest_outside(years, from, to) {
            Some(year) => years.contains(year) && (year < from || year > to) && forall|i: int|
                0 <= i < years.len() && (years[i] < from || years[i] > to) ==> year
                    <= #[trigger] years[i],
            None => forall|i: int| 0 <= i < years.len() ==> from <= #[trigger] years[i] <= to,
        },
    decreases years.len(),
{
    if years.len() > 0 {
        let rest = years.drop_last();
        let n = rest.len() as int;
        law_smallest_outside(rest, from, to);
        assert forall|i: int| 0 <= i < n implies #[trigger] rest[i] == years[i] by {}
        match smallest_outside(rest, from, to) {
            Some(year) => {
                let k = rest.index_of(year);
                assert(years[k] == year);
            },
            None => {},
        }
        assert(years[n] == years.last());
        match smallest_outside(years, from, to) {
            Some(year) => {
                assert forall|i: int|
                    0 <= i < years.len() && (years[i] < from || years[i] > to) implies year
                    <= #[trigger] years[i] by {
                    if i < n {
                        assert(rest[i] == years[i]);
                    }
                }
            },
            None => {
                assert forall|i: int| 0 <= i < years.len() implies from <= #[trigger] years[i]
                    <= to by {
                    if i < n {
                        assert(rest[i] == years[i]);
                    }
                }
            },
        }
    }
}

/// A bound of the years is read where it is a number; it must be given.
pub proof fn law_year_bound(name: Seq<char>, year: nat)
    ensures
        year <= u32::MAX ==> spelled_year(name, Some(decimal(year))) == Ok::<_, Seq<char>>(year),
        year > u32::MAX ==> spelled_year(name, Some(decimal(year))) == Err::<nat, _>(
            name + " must be an unsigned year: "@ + decimal(year),
        ),
        spelled_year(name, None) == Err::<nat, _>(
            name + " is required when --shard-years is used"@,
        ),
{
    law_decimal_reads_back(year, year);
}

/// A stream of one year that may be sorted.
pub open spec fn is_year_stream(job: JobView, year: nat) -> bool {
    &&& job.params.publishyear_prev == Some(decimal(year))
    &&& job.params.publishyear_next == Some(decimal(year))
    &&& job.max_pages is None
    &&& job.stop_after_known_pages is None
}

proof fn lemma_year_of_job(
    base: ParamsView,
    from: nat,
    count: nat,
    years: Seq<u32>,
    sorts: Seq<(Seq<char>, Seq<char>)>,
    i: int,
) -> (year: nat)
    requires
        0 <= i < jobs_of_years(base, from, count, years, sorts).len(),
    ensures
        from <= year < from + count,
        is_year_stream(jobs_of_years(base, from, count, years, sorts)[i], year),
    decreases count,
{
    let prev = (count - 1) as nat;
    let last = (from + count - 1) as nat;
    let head = jobs_of_years(base, from, prev, years, sorts);
    let all = jobs_of_years(base, from, count, years, sorts);
    if i < head.len() {
        assert(all[i] == head[i]);
        lemma_year_of_job(base, from, prev, years, sorts, i)
    } else {
        last
    }
}

proof fn lemma_sorted_job_at(
    base: ParamsView,
    from: nat,
    count: nat,
    years: Seq<u32>,
    sorts: Seq<(Seq<char>, Seq<char>)>,
    year: u32,
    k: int,
) -> (i: int)
    requires
        from <= year < from + count,
        years.contains(year),
        0 <= k < sorts.len(),
    ensures
        0 <= i < jobs_of_years(base, from, count, years, sorts).len(),
        jobs_of_years(base, from, count, years, sorts)[i] == sorted_year_job(
            base,
            year as nat,
            sorts[k],
        ),
    decreases count,
{
    let prev = (count - 1) as nat;
    let last = (from + count - 1) as nat;
    let head = jobs_of_years(base, from, prev, years, sorts);
    let all = jobs_of_years(base, from, count, years, sorts);
    if year == last {
        let tail = jobs_of_year(base, last, sorts);
        assert(tail[1 + k] == sorted_year_job(base, last, sorts[k]));
        assert(all[head.len() + 1 + k] == tail[1 + k]);
        head.len() + 1 + k
    } else {
        let i = lemma_sorted_job_at(base, from, prev, years, sorts, year, k);
        assert(all[i] == head[i]);
        i
    }
}

/// Every year that may overflow has a stream for every sort, which is of that year alone.
pub proof fn law_overflow_years_are_sorted(args: CrawlArgs, year: u32, k: int)
    requires
        args.shard_years,
        planned_jobs(args) is Ok,
        args.overflow_years@.contains(year),
        chosen_sorts(args) is Ok,
        0 <= k < chosen_sorts(args)->Ok_0.len(),
    ensures
        exists|i: int|
            #![trigger planned_jobs(args)->Ok_0[i]]
            0 <= i < planned_jobs(args)->Ok_0.len() && ({
                let job = planned_jobs(args)->Ok_0[i];
                &&& job.params.publishyear_prev == Some(decimal(year as nat))
                &&& job.params.publishyear_next == Some(decimal(year as nat))
                &&& job.params.sort_by == Some(chosen_sorts(args)->Ok_0[k].0)
                &&& job.params.order == Some(chosen_sorts(args)->Ok_0[k].1)
                &&& job.max_pages is None
            }),
{
    let base = base_params(args, spelled_pairs(texts(args.extra_params@))->Ok_0);
    let sorts = chosen_sorts(args)->Ok_0;
    let from = spelled_year("--publishyear-prev"@, base.publishyear_prev)->Ok_0;
    let to = spelled_year("--publishyear-next"@, base.publishyear_next)->Ok_0;
    let count = (to - from + 1) as nat;
    let years = args.overflow_years@;
    law_smallest_outside(years, from, to);
    let at = years.index_of(year);
    assert(from <= years[at] <= to);
    let jobs = jobs_of_years(base, from, count, years, sorts);
    let i = lemma_sorted_job_at(base, from, count, years, sorts, year, k);
    assert(planned_jobs(args)->Ok_0[i] == jobs[i]);
}

/// Every stream of a sharded crawl is of one year within the bounds, but for the stream of what has
/// no year: where that is asked for it comes last, sorted by year from the first, with no bounds and
/// no more pages than allowed.
pub proof fn law_sharded_streams(args: CrawlArgs, i: int)
    requires
        args.shard_years,
        planned_jobs(args) is Ok,
        0 <= i < planned_jobs(args)->Ok_0.len(),
    ensures
        ({
            let jobs = planned_jobs(args)->Ok_0;
            let job = jobs[i];
            let last = i == jobs.len() - 1 && args.no_year_shard;
            &&& !last ==> exists|year: nat|
                spelled_year("--publishyear-prev"@, opt_text(args.publishyear_prev))->Ok_0 <= year
                    <= spelled_year("--publishyear-next"@, opt_text(args.publishyear_next))->Ok_0
                    && job.params.publishyear_prev == Some(#[trigger] decimal(year))
                    && job.params.publishyear_next == Some(decimal(year)) && job.max_pages is None
                    && job.stop_after_known_pages is None
            &&& last ==> job.params.publishyear_prev is None && job.params.publishyear_next is None
                && job.params.sort_by == Some("document_publishyearsort"@) && job.params.order
                == Some("asc"@) && job.max_pages == Some(args.no_year_max_pages) && (
            args.no_year_stop_after_known_pages > 0 ==> job.stop_after_known_pages == Some(
                args.no_year_stop_after_known_pages,
            )) && (args.no_year_stop_after_known_pages == 0 ==> job.stop_after_known_pages is None)
        }),
{
    let base = base_params(args, spelled_pairs(texts(args.extra_params@))->Ok_0);
    let sorts = chosen_sorts(args)->Ok_0;
    let from = spelled_year("--publishyear-prev"@, base.publishyear_prev)->Ok_0;
    let to = spelled_year("--publishyear-next"@, base.publishyear_next)->Ok_0;
    let count = (to - from + 1) as nat;
    let years = args.overflow_years@;
    let jobs = jobs_of_years(base, from, count, years, sorts);
    if i < jobs.len() {
        assert(planned_jobs(args)->Ok_0[i] == jobs[i]);
        let year = lemma_year_of_job(base, from, count, years, sorts, i);
        assert(jobs[i].params.publishyear_prev == Some(decimal(year)));
    }
}

/// A crawl that is not sharded has one stream, whose filters are those that were given.
pub proof fn law_unsharded_crawl(args: CrawlArgs)
    requires
        !args.shard_years,
        args.overflow_years@.len() == 0,
        args.overflow_sorts@.len() == 0,
        spelled_pairs(texts(args.extra_params@)) is Ok,
    ensures
        planned_jobs(args) matches Ok(jobs) && jobs.len() == 1 && ({
            let p = jobs[0].params;
            &&& jobs[0].label == "default"@
            &&& jobs[0].max_pages is None
            &&& p.base_url == args.base_url@
            &&& p.query == args.query@
            &&& p.catalogs == texts(args.catalogs@)
            &&& p.access == texts(args.access@)
            &&& p.publishyear_prev == opt_text(args.publishyear_prev)
            &&& p.publishyear_next == opt_text(args.publishyear_next)
            &&& p.sort_by == opt_text(args.sort_by)
            &&& p.order == opt_text(args.order)
            &&& p.extra == spelled_pairs(texts(args.extra_params@))->Ok_0
        }),
{
    assert(texts(args.overflow_sorts@) =~= Seq::empty());
}

/// A crawl is planned where its options go together, and refused where they do not.
pub proof fn law_planned_or_refused(args: CrawlArgs)
    requires
        spelled_pairs(texts(args.extra_params@)) is Ok,
        spelled_sorts(texts(args.overflow_sorts@)) is Ok,
    ensures
        ({
            let from = spelled_year("--publishyear-prev"@, opt_text(args.publishyear_prev));
            let to = spelled_year("--publishyear-next"@, opt_text(args.publishyear_next));
            let years = args.overflow_years@;
            &&& !args.shard_years ==> (planned_jobs(args) is Ok <==> years.len() == 0
                && args.overflow_sorts@.len() == 0)
            &&& args.shard_years ==> (planned_jobs(args) is Ok <==> from is Ok && to is Ok
                && from->Ok_0 <= to->Ok_0 && (forall|i: int|
                0 <= i < years.len() ==> from->Ok_0 <= #[trigger] years[i] <= to->Ok_0) && (
            args.overflow_sorts@.len() == 0 || years.len() > 0 || args.auto_overflow) && (
            args.no_year_shard ==> args.no_year_max_pages > 0))
        }),
{
    let from = spelled_year("--publishyear-prev"@, opt_text(args.publishyear_prev));
    let to = spelled_year("--publishyear-next"@, opt_text(args.publishyear_next));
    if from is Ok && to is Ok {
        law_smallest_outside(args.overflow_years@, from->Ok_0, to->Ok_0);
        match smallest_outside(args.overflow_years@, from->Ok_0, to->Ok_0) {
            Some(year) => {
                let k = args.overflow_years@.index_of(year);
                assert(args.overflow_years@[k] == year);
            },
            None => {},
        }
    }
}

} // verus!
