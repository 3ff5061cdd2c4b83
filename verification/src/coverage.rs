use crate::groups::{
    common_members, common_params, coverage_group_key, group_key_of, json_compact,
    lemma_param_values, normalize_coverage_group_params, read_params, sorted_param_members,
};
use crate::jobs::{
    dedup_nonempty_strings, default_overflow_facets, standard_facets, trimmed_list,
};
use crate::json::{
    array_text, json_node, node_text, object_text, optional_text, parsed_json, quoted_list,
    JsonView,
};
use crate::labels::{
    coverage_shard_label, has_all, json_array_contains_all, json_string, member_string,
    member_strings, stream_label,
};
use crate::order::{
    first_occurrences, law_sorting_keeps_the_texts, sort_unique, sorted_texts, text_before,
};
use crate::params::{params_text, value_of, ParamsView};
use crate::shards::{
    all_shards, gap, listed_ids, missing, missing_between, shard_views, CoverageShard, ShardView,
};
use crate::state::{CrawlState, StateView};
use crate::text::{copy_list, same};
use crate::views::{count_where, group_texts, lemma_count_zero, lemma_take_next, texts};
use vstd::prelude::*;

verus! {

broadcast use group_texts;

/// How far a group of search streams covers what the site reports for them.
#[derive(Debug)]
pub struct CoverageGroup {
    pub key: String,
    pub label: String,
    pub search_keys: Vec<String>,
    pub shard_count: usize,
    pub unfinished_shards: usize,
    pub unique_item_ids: u64,
    pub reported_total_results: Option<u64>,
}

/// The texts and numbers of a group's coverage.
#[verifier::ext_equal]
pub ghost struct GroupView {
    pub key: Seq<char>,
    pub label: Seq<char>,
    pub search_keys: Seq<Seq<char>>,
    pub shard_count: nat,
    pub unfinished_shards: nat,
    pub unique_item_ids: u64,
    pub reported_total_results: Option<u64>,
}

impl View for CoverageGroup {
    type V = GroupView;

    open spec fn view(&self) -> GroupView {
        GroupView {
            key: self.key@,
            label: self.label@,
            search_keys: texts(self.search_keys@),
            shard_count: self.shard_count as nat,
            unfinished_shards: self.unfinished_shards as nat,
            unique_item_ids: self.unique_item_ids,
            reported_total_results: self.reported_total_results,
        }
    }
}

/// The texts and numbers of a list of groups' coverage.
pub open spec fn group_views(list: Seq<CoverageGroup>) -> Seq<GroupView> {
    list.map_values(|g: CoverageGroup| g@)
}

impl GroupView {
    /// How many results of the group are missing.
    pub open spec fn missing(self) -> Option<u64> {
        missing(self.reported_total_results, self.unique_item_ids)
    }

    /// Whether results of the group are missing.
    pub open spec fn has_gap(self) -> bool {
        gap(self.reported_total_results, self.unique_item_ids)
    }
}

impl CoverageGroup {
    /// How many results of the group are missing, where the site reports a total.
    pub fn missing_results(&self) -> (result: Option<u64>)
        ensures
            result == self@.missing(),
    {
        missing_between(self.reported_total_results, self.unique_item_ids)
    }

    /// Whether results of the group are missing.
    pub fn has_coverage_gap(&self) -> (result: bool)
        ensures
            result == self@.has_gap(),
    {
        match self.missing_results() {
            Some(count) => count > 0,
            None => false,
        }
    }
}

/// The label of the group that a stream with these parameters is in, or the message on why the
/// parameters cannot be read.
pub open spec fn group_label_of(params_json: Seq<char>, facets: Seq<Seq<char>>) -> Result<
    Seq<char>,
    Seq<char>,
> {
    match parsed_json(params_json) {
        Ok(view) => Ok(stream_label(node_text(common_params(view, facets)))),
        Err(message) => Err("parsing search params for coverage group label: "@ + message),
    }
}

/// The label of the group that a stream with these parameters is in.
pub fn coverage_group_label(params_json: &str, overflow_facets: &Vec<String>) -> (result: Result<
    String,
    String,
>)
    ensures
        match result {
            Ok(label) => group_label_of(params_json@, texts(overflow_facets@)) == Ok::<
                _,
                Seq<char>,
            >(label@),
            Err(message) => group_label_of(params_json@, texts(overflow_facets@)) == Err::<
                Seq<char>,
                _,
            >(message@),
        },
{
    match json_node(params_json) {
        Ok(value) => {
            let common = normalize_coverage_group_params(value, overflow_facets);
            let text = json_compact(&common);
            Ok(coverage_shard_label(&text))
        },
        Err(error) => {
            let mut message: String = "parsing search params for coverage group label: ".to_owned();
            message.append(&error);
            Err(message)
        },
    }
}

/// The keys of the groups that some streams are in, or the message on the first whose parameters
/// cannot be read.
pub open spec fn keys_of(shards: Seq<ShardView>, facets: Seq<Seq<char>>) -> Result<
    Seq<Seq<char>>,
    Seq<char>,
>
    decreases shards.len(),
{
    if shards.len() == 0 {
        Ok(Seq::empty())
    } else {
        match keys_of(shards.drop_last(), facets) {
            Err(message) => Err(message),
            Ok(keys) => match group_key_of(shards.last().params_json, facets) {
                Ok(key) => Ok(keys.push(key)),
                Err(message) => Err(message),
            },
        }
    }
}

proof fn lemma_keys_error(shards: Seq<ShardView>, facets: Seq<Seq<char>>, n: int)
    requires
        0 <= n <= shards.len(),
        keys_of(shards.take(n), facets) is Err,
    ensures
        keys_of(shards, facets) == keys_of(shards.take(n), facets),
    decreases shards.len(),
{
    if n < shards.len() {
        assert(shards.drop_last().take(n) == shards.take(n));
        lemma_keys_error(shards.drop_last(), facets, n);
    } else {
        assert(shards.take(n) == shards);
    }
}

proof fn lemma_keys(shards: Seq<ShardView>, facets: Seq<Seq<char>>)
    requires
        keys_of(shards, facets) is Ok,
    ensures
        keys_of(shards, facets)->Ok_0.len() == shards.len(),
        forall|i: int|
            0 <= i < shards.len() ==> group_key_of((#[trigger] shards[i]).params_json, facets)
                == Ok::<_, Seq<char>>(keys_of(shards, facets)->Ok_0[i]),
    decreases shards.len(),
{
    if shards.len() > 0 {
        lemma_keys(shards.drop_last(), facets);
        let keys = keys_of(shards, facets)->Ok_0;
        assert forall|i: int| 0 <= i < shards.len() implies group_key_of(
            (#[trigger] shards[i]).params_json,
            facets,
        ) == Ok::<_, Seq<char>>(keys[i]) by {
            if i < shards.len() - 1 {
                assert(shards.drop_last()[i] == shards[i]);
            }
        }
    }
}

/// The streams among some whose group has a key.
pub open spec fn in_group(
    shards: Seq<ShardView>,
    keys: Seq<Seq<char>>,
    key: Seq<char>,
) -> Seq<ShardView>
    decreases shards.len(),
{
    if shards.len() == 0 {
        Seq::empty()
    } else {
        let before = in_group(shards.drop_last(), keys, key);
        if keys[shards.len() - 1] == key {
            before.push(shards.last())
        } else {
            before
        }
    }
}

/// The greatest number of results that one of some streams found.
pub open spec fn most_discovered(shards: Seq<ShardView>) -> u64
    decreases shards.len(),
{
    if shards.len() == 0 {
        0
    } else {
        let before = most_discovered(shards.drop_last());
        if before < shards.last().discovered_results {
            shards.last().discovered_results
        } else {
            before
        }
    }
}

/// The greatest total that is reported for one of some streams.
pub open spec fn greatest_total(shards: Seq<ShardView>) -> Option<u64>
    decreases shards.len(),
{
    if shards.len() == 0 {
        None
    } else {
        let before = greatest_total(shards.drop_last());
        match shards.last().reported_total_results {
            Some(total) => if before is Some && total <= before.unwrap() {
                before
            } else {
                Some(total)
            },
            None => before,
        }
    }
}

/// The keys of some streams.
pub open spec fn shard_keys(shards: Seq<ShardView>) -> Seq<Seq<char>> {
    shards.map_values(|s: ShardView| s.search_key)
}

/// The greater of two numbers.
pub open spec fn greater(a: u64, b: u64) -> u64 {
    if a < b {
        b
    } else {
        a
    }
}

/// The coverage of a group of streams, which are not none.
pub open spec fn group_of(
    state: StateView,
    key: Seq<char>,
    shards: Seq<ShardView>,
    facets: Seq<Seq<char>>,
) -> GroupView {
    GroupView {
        key,
        label: group_label_of(shards[0].params_json, facets)->Ok_0,
        search_keys: shard_keys(shards),
        shard_count: shards.len(),
        unfinished_shards: count_where(shards, |s: ShardView| s.unfinished()),
        unique_item_ids: greater(
            listed_ids(state.members, shard_keys(shards)).len() as u64,
            most_discovered(shards),
        ),
        reported_total_results: greatest_total(shards),
    }
}

/// The coverage of the groups that some streams are in, in the order of the groups' keys, or the
/// message on the first stream whose parameters cannot be read.
pub open spec fn groups_of(
    state: StateView,
    shards: Seq<ShardView>,
    facets: Seq<Seq<char>>,
) -> Result<Seq<GroupView>, Seq<char>> {
    match keys_of(shards, facets) {
        Err(message) => Err(message),
        Ok(keys) => Ok(
            sorted_texts(keys).map_values(
                |key: Seq<char>| group_of(state, key, in_group(shards, keys, key), facets),
            ),
        ),
    }
}

fn collect_keys(shards: &Vec<CoverageShard>, facets: &Vec<String>) -> (result: Result<
    Vec<String>,
    String,
>)
    ensures
        match result {
            Ok(keys) => keys_of(shard_views(shards@), texts(facets@)) == Ok::<_, Seq<char>>(
                texts(keys@),
            ),
            Err(message) => keys_of(shard_views(shards@), texts(facets@)) == Err::<
                Seq<Seq<char>>,
                _,
            >(message@),
        },
{
    let ghost all = shard_views(shards@);
    let ghost fields = texts(facets@);
    let mut keys: Vec<String> = Vec::new();
    for i in 0..shards.len()
        invariant
            all == shard_views(shards@),
            fields == texts(facets@),
            keys_of(all.take(i as int), fields) == Ok::<_, Seq<char>>(texts(keys@)),
    {
        proof {
            lemma_take_next(all, i as int);
            assert(all.take(i + 1).drop_last() == all.take(i as int));
        }
        match coverage_group_key(&shards[i].params_json, facets) {
            Ok(key) => {
                keys.push(key);
            },
            Err(message) => {
                proof {
                    lemma_keys_error(all, fields, i + 1);
                }
                return Err(message);
            },
        }
    }
    assert(all.take(all.len() as int) == all);
    Ok(keys)
}

proof fn lemma_in_group_next(
    shards: Seq<ShardView>,
    keys: Seq<Seq<char>>,
    key: Seq<char>,
    i: int,
)
    requires
        0 <= i < shards.len(),
    ensures
        in_group(shards.take(i + 1), keys, key) == if keys[i] == key {
            in_group(shards.take(i), keys, key).push(shards[i])
        } else {
            in_group(shards.take(i), keys, key)
        },
{
    lemma_take_next(shards, i);
    assert(shards.take(i + 1).drop_last() == shards.take(i));
}

/// The coverage of the group with a key, where one of the streams is in it.
fn build_group(
    state: &CrawlState,
    key: &str,
    shards: &Vec<CoverageShard>,
    keys: &Vec<String>,
    facets: &Vec<String>,
) -> (result: Option<CoverageGroup>)
    requires
        keys_of(shard_views(shards@), texts(facets@)) == Ok::<_, Seq<char>>(texts(keys@)),
    ensures
        match result {
            Some(group) => in_group(shard_views(shards@), texts(keys@), key@).len() > 0 && group@
                == group_of(
                state@,
                key@,
                in_group(shard_views(shards@), texts(keys@), key@),
                texts(facets@),
            ),
            None => in_group(shard_views(shards@), texts(keys@), key@).len() == 0,
        },
{
    let ghost all = shard_views(shards@);
    let ghost names = texts(keys@);
    let ghost fields = texts(facets@);
    let ghost unfinished = |s: ShardView| s.unfinished();
    proof {
        lemma_keys(all, fields);
    }
    let mut search_keys: Vec<String> = Vec::new();
    let mut discovered: u64 = 0;
    let mut total: Option<u64> = None;
    let mut count: usize = 0;
    let mut open_shards: usize = 0;
    let mut label: Option<String> = None;
    assert(shard_keys(in_group(all.take(0), names, key@)) =~= Seq::empty());
    for i in 0..shards.len()
        invariant
            all == shard_views(shards@),
            names == texts(keys@),
            fields == texts(facets@),
            unfinished == (|s: ShardView| s.unfinished()),
            names.len() == all.len(),
            forall|k: int|
                0 <= k < all.len() ==> group_key_of((#[trigger] all[k]).params_json, fields)
                    == Ok::<_, Seq<char>>(names[k]),
            ({
                let mine = in_group(all.take(i as int), names, key@);
                &&& texts(search_keys@) == shard_keys(mine)
                &&& discovered == most_discovered(mine)
                &&& total == greatest_total(mine)
                &&& count == mine.len()
                &&& count <= i
                &&& open_shards == count_where(mine, unfinished)
                &&& open_shards <= count
                &&& match label {
                    Some(text) => mine.len() > 0 && group_label_of(mine[0].params_json, fields)
                        == Ok::<_, Seq<char>>(text@),
                    None => mine.len() == 0,
                }
            }),
    {
        let ghost mine = in_group(all.take(i as int), names, key@);
        proof {
            lemma_in_group_next(all, names, key@, i as int);
        }
        if same(&keys[i], key) {
            let shard = &shards[i];
            proof {
                assert(mine.push(all[i as int]).drop_last() == mine);
                assert(shard_keys(mine.push(all[i as int])) == shard_keys(mine).push(
                    all[i as int].search_key,
                ));
            }
            search_keys.push(shard.search_key.clone());
            if discovered < shard.discovered_results {
                discovered = shard.discovered_results;
            }
            match shard.reported_total_results {
                Some(value) => {
                    let keep = match total {
                        Some(most) => value <= most,
                        None => false,
                    };
                    if !keep {
                        total = Some(value);
                    }
                },
                None => {},
            }
            count = count + 1;
            if shard.has_unfinished_pages() {
                open_shards = open_shards + 1;
            }
            if label.is_none() {
                match coverage_group_label(&shard.params_json, facets) {
                    Ok(text) => {
                        label = Some(text);
                    },
                    Err(_) => {
                        assert(false);
                    },
                }
            }
        }
    }
    assert(all.take(all.len() as int) == all);
    match label {
        Some(text) => {
            let stored: u64 = state.count_unique_search_items_for_keys(&search_keys);
            let unique: u64 = if stored < discovered {
                discovered
            } else {
                stored
            };
            Some(
                CoverageGroup {
                    key: key.to_owned(),
                    label: text,
                    search_keys,
                    shard_count: count,
                    unfinished_shards: open_shards,
                    unique_item_ids: unique,
                    reported_total_results: total,
                },
            )
        },
        None => None,
    }
}

/// Whether a result is what the groups are.
pub open spec fn groups_match(
    result: Result<Vec<CoverageGroup>, String>,
    groups: Result<Seq<GroupView>, Seq<char>>,
) -> bool {
    match (result, groups) {
        (Ok(list), Ok(views)) => group_views(list@) == views,
        (Err(message), Err(text)) => message@ == text,
        _ => false,
    }
}

proof fn lemma_group_not_empty(
    shards: Seq<ShardView>,
    keys: Seq<Seq<char>>,
    key: Seq<char>,
    i: int,
)
    requires
        0 <= i < shards.len(),
        keys[i] == key,
    ensures
        in_group(shards, keys, key).len() > 0,
    decreases shards.len(),
{
    if i < shards.len() - 1 {
        lemma_group_not_empty(shards.drop_last(), keys, key, i);
    }
}

/// The coverage of the groups that some streams are in, in the order of the groups' keys.
pub fn build_coverage_groups(
    state: &CrawlState,
    shards: &Vec<CoverageShard>,
    overflow_facets: &Vec<String>,
) -> (result: Result<Vec<CoverageGroup>, String>)
    ensures
        groups_match(
            result,
            groups_of(state@, shard_views(shards@), texts(overflow_facets@)),
        ),
{
    let keys = match collect_keys(shards, overflow_facets) {
        Ok(keys) => keys,
        Err(message) => return Err(message),
    };
    let ghost all = shard_views(shards@);
    let ghost names = texts(keys@);
    let ghost fields = texts(overflow_facets@);
    let sorted = sort_unique(&keys);
    let ghost wanted = groups_of(state@, all, fields)->Ok_0;
    let mut out: Vec<CoverageGroup> = Vec::new();
    for i in 0..sorted.len()
        invariant
            all == shard_views(shards@),
            names == texts(keys@),
            fields == texts(overflow_facets@),
            keys_of(all, fields) == Ok::<_, Seq<char>>(names),
            texts(sorted@) == sorted_texts(names),
            texts(sorted@).to_set() == names.to_set(),
            wanted == groups_of(state@, all, fields)->Ok_0,
            group_views(out@) == wanted.take(i as int),
    {
        proof {
            let key = texts(sorted@)[i as int];
            assert(texts(sorted@).to_set().contains(key));
            let at = names.index_of(key);
            lemma_keys(all, fields);
            lemma_group_not_empty(all, names, key, at);
            lemma_take_next(wanted, i as int);
        }
        match build_group(state, &sorted[i], shards, &keys, overflow_facets) {
            Some(group) => {
                out.push(group);
            },
            None => {},
        }
    }
    assert(wanted.take(wanted.len() as int) == wanted);
    Ok(out)
}

/// The coverage of the group that a stream with these parameters is in, where the group has
/// streams, or the message on the first parameters that cannot be read.
pub open spec fn group_for(
    state: StateView,
    params_json: Seq<char>,
    facets: Seq<Seq<char>>,
) -> Result<Option<GroupView>, Seq<char>> {
    match (group_key_of(params_json, facets), keys_of(all_shards(state), facets)) {
        (Err(message), _) => Err(message),
        (_, Err(message)) => Err(message),
        (Ok(key), Ok(keys)) => {
            let mine = in_group(all_shards(state), keys, key);
            if mine.len() == 0 {
                Ok(None)
            } else {
                Ok(Some(group_of(state, key, mine, facets)))
            }
        },
    }
}

/// The coverage of the group that a stream with these parameters is in.
pub fn coverage_group_for_params(
    state: &CrawlState,
    params_json: &str,
    overflow_facets: &Vec<String>,
) -> (result: Result<Option<CoverageGroup>, String>)
    ensures
        match (result, group_for(state@, params_json@, texts(overflow_facets@))) {
            (Ok(Some(group)), Ok(Some(view))) => group@ == view,
            (Ok(None), Ok(None)) => true,
            (Err(message), Err(text)) => message@ == text,
            _ => false,
        },
{
    let key = match coverage_group_key(params_json, overflow_facets) {
        Ok(key) => key,
        Err(message) => return Err(message),
    };
    let shards = state.coverage_report();
    let keys = match collect_keys(&shards, overflow_facets) {
        Ok(keys) => keys,
        Err(message) => return Err(message),
    };
    Ok(build_group(state, &key, &shards, &keys, overflow_facets))
}

/// What a validation of coverage is asked to look at.
#[derive(Debug)]
pub struct ValidateCoverageArgs {
    pub catalogs: Vec<String>,
    pub access: Vec<String>,
    pub require_year: bool,
    pub window_limit_results: u64,
    pub top: usize,
    pub show_all: bool,
    pub overflow_facets: Vec<String>,
}

/// The facet fields that a validation of coverage looks through.
pub open spec fn validation_facets(args: ValidateCoverageArgs) -> Seq<Seq<char>> {
    if args.overflow_facets@.len() == 0 {
        standard_facets()
    } else {
        first_occurrences(trimmed_list(texts(args.overflow_facets@)))
    }
}

/// The facet fields that a validation of coverage looks through.
pub fn effective_coverage_overflow_facets(args: &ValidateCoverageArgs) -> (result: Vec<String>)
    ensures
        texts(result@) == validation_facets(*args),
{
    if args.overflow_facets.len() == 0 {
        default_overflow_facets()
    } else {
        dedup_nonempty_strings(copy_list(&args.overflow_facets))
    }
}

/// Whether a stream with these parameters is looked at.
pub open spec fn matches_filters(params_json: Seq<char>, args: ValidateCoverageArgs) -> bool {
    match parsed_json(params_json) {
        Err(_) => false,
        Ok(view) => {
            &&& args.catalogs@.len() == 0 || has_all(view, "catalogs"@, texts(args.catalogs@))
            &&& args.access@.len() == 0 || has_all(view, "access"@, texts(args.access@))
            &&& !args.require_year || member_string(view, "publishyear_prev"@) is Some
                || member_string(view, "publishyear_next"@) is Some
        },
    }
}

/// Whether a stream is looked at. Of parameters that were written by `SearchParams::key_json` it is
/// known when: it has every catalogue and every access that is asked for, and a year where one is
/// required.
pub fn coverage_shard_matches_filters(shard: &CoverageShard, args: &ValidateCoverageArgs) -> (result:
    bool)
    ensures
        result == matches_filters(shard@.params_json, *args),
        forall|p: ParamsView|
            shard@.params_json == #[trigger] params_text(p) ==> result == ((forall|i: int|
                0 <= i < args.catalogs@.len() ==> p.catalogs.contains(
                    (#[trigger] args.catalogs@[i])@,
                )) && (forall|i: int|
                0 <= i < args.access@.len() ==> p.access.contains((#[trigger] args.access@[i])@))
                && (args.require_year ==> p.publishyear_prev is Some
                || p.publishyear_next is Some)),
{
    proof {
        assert forall|p: ParamsView| #![trigger params_text(p)] true implies value_of(
            sorted_param_members(p),
            "catalogs"@,
        ) == Some(array_text(quoted_list(p.catalogs))) && value_of(
            sorted_param_members(p),
            "access"@,
        ) == Some(array_text(quoted_list(p.access))) && value_of(
            sorted_param_members(p),
            "publishyear_prev"@,
        ) == Some(optional_text(p.publishyear_prev)) && value_of(
            sorted_param_members(p),
            "publishyear_next"@,
        ) == Some(optional_text(p.publishyear_next)) by {
            lemma_param_values(p);
        }
    }
    let value = match read_params(&shard.params_json) {
        Ok(value) => value,
        Err(_) => return false,
    };
    if args.catalogs.len() > 0 && !json_array_contains_all(&value, "catalogs", &args.catalogs) {
        return false;
    }
    if args.access.len() > 0 && !json_array_contains_all(&value, "access", &args.access) {
        return false;
    }
    if args.require_year && json_string(&value, "publishyear_prev").is_none() && json_string(
        &value,
        "publishyear_next",
    ).is_none() {
        return false;
    }
    true
}

/// A stream that is looked at has every catalogue and every access that is asked for, and where a
/// year is required its parameters have a string under one of the two bounds; parameters that cannot
/// be read are those of no stream that is looked at; and whatever has all of this is looked at.
pub proof fn law_filters_pick_streams(params_json: Seq<char>, args: ValidateCoverageArgs, view: JsonView)
    requires
        parsed_json(params_json) == Ok::<JsonView, Seq<char>>(view),
    ensures
        matches_filters(params_json, args) && args.require_year ==> member_string(
            view,
            "publishyear_prev"@,
        ) is Some || member_string(view, "publishyear_next"@) is Some,
        forall|i: int|
            matches_filters(params_json, args) && 0 <= i < args.catalogs@.len() ==> (
            member_strings(view, "catalogs"@) matches Some(list) && list.contains(
                (#[trigger] args.catalogs@[i])@,
            )),
        forall|i: int|
            matches_filters(params_json, args) && 0 <= i < args.access@.len() ==> (
            member_strings(view, "access"@) matches Some(list) && list.contains(
                (#[trigger] args.access@[i])@,
            )),
        args.catalogs@.len() == 0 && args.access@.len() == 0 && !args.require_year
            ==> matches_filters(params_json, args),
        args.catalogs@.len() == 0 && args.access@.len() == 0 && (member_string(
            view,
            "publishyear_prev"@,
        ) is Some || member_string(view, "publishyear_next"@) is Some) ==> matches_filters(
            params_json,
            args,
        ),
        args.catalogs@.len() == 1 && args.access@.len() == 1 && !args.require_year && (
        member_strings(view, "catalogs"@) matches Some(list) && list.contains(args.catalogs@[0]@))
            && (member_strings(view, "access"@) matches Some(list) && list.contains(
            args.access@[0]@,
        )) ==> matches_filters(params_json, args),
{
    assert forall|i: int|
        matches_filters(params_json, args) && 0 <= i < args.catalogs@.len() implies (
    member_strings(view, "catalogs"@) matches Some(list) && list.contains(
        (#[trigger] args.catalogs@[i])@,
    )) by {
        assert(texts(args.catalogs@)[i] == args.catalogs@[i]@);
    }
    assert forall|i: int|
        matches_filters(params_json, args) && 0 <= i < args.access@.len() implies (member_strings(
        view,
        "access"@,
    ) matches Some(list) && list.contains((#[trigger] args.access@[i])@)) by {
        assert(texts(args.access@)[i] == args.access@[i]@);
    }
}

/// Streams whose parameters cannot be read are not looked at.
pub proof fn law_unreadable_streams_are_left_out(params_json: Seq<char>, args: ValidateCoverageArgs)
    ensures
        parsed_json(params_json) is Err ==> !matches_filters(params_json, args),
{
}

/// The streams of a group are those whose group has its key, in their order.
pub proof fn law_in_group(
    shards: Seq<ShardView>,
    keys: Seq<Seq<char>>,
    key: Seq<char>,
    shard: ShardView,
)
    requires
        keys.len() == shards.len(),
    ensures
        in_group(shards, keys, key).contains(shard) <==> exists|i: int|
            0 <= i < shards.len() && #[trigger] shards[i] == shard && keys[i] == key,
        in_group(shards, keys, key).len() == count_where(keys, |k: Seq<char>| k == key),
    decreases shards.len(),
{
    let all = in_group(shards, keys, key);
    if shards.len() > 0 {
        let rest = shards.drop_last();
        let before = in_group(rest, keys, key);
        lemma_in_group_keys(rest, keys, key);
        law_in_group(rest, keys.drop_last(), key, shard);
        if all.contains(shard) {
            let k = all.index_of(shard);
            if k < before.len() {
                assert(before[k] == shard);
                let i = choose|i: int|
                    0 <= i < rest.len() && #[trigger] rest[i] == shard && keys.drop_last()[i] == key;
                assert(shards[i] == shard);
            } else {
                assert(shards[shards.len() - 1] == shard);
            }
        }
        if exists|i: int| 0 <= i < shards.len() && #[trigger] shards[i] == shard && keys[i] == key {
            let i = choose|i: int|
                0 <= i < shards.len() && #[trigger] shards[i] == shard && keys[i] == key;
            if i < rest.len() {
                assert(rest[i] == shard);
                assert(keys.drop_last()[i] == key);
                let k = before.index_of(shard);
                assert(all[k] == shard);
            } else {
                assert(all[before.len() as int] == shard);
            }
        }
    } else {
        assert(all =~= Seq::empty());
    }
}

proof fn lemma_in_group_keys(shards: Seq<ShardView>, keys: Seq<Seq<char>>, key: Seq<char>)
    requires
        shards.len() + 1 == keys.len(),
    ensures
        in_group(shards, keys, key) == in_group(shards, keys.drop_last(), key),
{
    lemma_in_group_prefix(shards, keys, keys.drop_last(), key);
}

proof fn lemma_in_group_prefix(
    shards: Seq<ShardView>,
    keys: Seq<Seq<char>>,
    others: Seq<Seq<char>>,
    key: Seq<char>,
)
    requires
        shards.len() <= keys.len(),
        shards.len() <= others.len(),
        forall|i: int| 0 <= i < shards.len() ==> keys[i] == #[trigger] others[i],
    ensures
        in_group(shards, keys, key) == in_group(shards, others, key),
    decreases shards.len(),
{
    if shards.len() > 0 {
        lemma_in_group_prefix(shards.drop_last(), keys, others, key);
        assert(keys[shards.len() - 1] == others[shards.len() - 1]);
    }
}

/// No stream of a group has discovered more than the most, and where there is one, some stream has
/// discovered as much.
pub proof fn law_most_discovered(shards: Seq<ShardView>)
    ensures
        forall|i: int|
            0 <= i < shards.len() ==> (#[trigger] shards[i]).discovered_results
                <= most_discovered(shards),
        most_discovered(shards) > 0 ==> exists|i: int|
            0 <= i < shards.len() && (#[trigger] shards[i]).discovered_results == most_discovered(
                shards,
            ),
    decreases shards.len(),
{
    if shards.len() > 0 {
        let rest = shards.drop_last();
        law_most_discovered(rest);
        assert forall|i: int| 0 <= i < shards.len() implies (
        #[trigger] shards[i]).discovered_results <= most_discovered(shards) by {
            if i < rest.len() {
                assert(rest[i] == shards[i]);
            }
        }
        if most_discovered(shards) == shards.last().discovered_results {
            assert(shards[shards.len() - 1].discovered_results == most_discovered(shards));
        } else if most_discovered(shards) > 0 {
            let i = choose|i: int|
                0 <= i < rest.len() && (#[trigger] rest[i]).discovered_results == most_discovered(
                    rest,
                );
            assert(shards[i].discovered_results == most_discovered(shards));
        }
    }
}

/// A group's total is the greatest that one of its streams reports, and there is none where no
/// stream reports one.
pub proof fn law_greatest_total(shards: Seq<ShardView>)
    ensures
        greatest_total(shards) is None <==> forall|i: int|
            0 <= i < shards.len() ==> (#[trigger] shards[i]).reported_total_results is None,
        greatest_total(shards) matches Some(total) ==> (exists|i: int|
            0 <= i < shards.len() && (#[trigger] shards[i]).reported_total_results == Some(total))
            && forall|i: int|
            0 <= i < shards.len() ==> ((#[trigger] shards[i]).reported_total_results matches Some(
                other,
            ) ==> other <= total),
    decreases shards.len(),
{
    if shards.len() > 0 {
        let rest = shards.drop_last();
        let last = shards.last();
        law_greatest_total(rest);
        assert forall|i: int| 0 <= i < rest.len() implies #[trigger] rest[i] == shards[i] by {}
        match greatest_total(shards) {
            Some(total) => {
                if last.reported_total_results == Some(total) {
                    assert(shards[shards.len() - 1].reported_total_results == Some(total));
                } else {
                    let i = choose|i: int|
                        0 <= i < rest.len() && (#[trigger] rest[i]).reported_total_results == Some(
                            total,
                        );
                    assert(shards[i].reported_total_results == Some(total));
                }
                assert forall|i: int| 0 <= i < shards.len() implies ((
                #[trigger] shards[i]).reported_total_results matches Some(other) ==> other
                    <= total) by {
                    if i < rest.len() {
                        assert(rest[i] == shards[i]);
                    }
                }
            },
            None => {
                assert forall|i: int| 0 <= i < shards.len() implies (
                #[trigger] shards[i]).reported_total_results is None by {
                    if i < rest.len() {
                        assert(rest[i] == shards[i]);
                    }
                }
            },
        }
    }
}

/// A group is covered by what its streams list together: items that more than one stream lists count
/// once, and it counts at least as many as any of its streams has discovered.
pub proof fn law_group_counts_items_once(
    state: StateView,
    key: Seq<char>,
    shards: Seq<ShardView>,
    facets: Seq<Seq<char>>,
)
    requires
        shards.len() > 0,
    ensures
        ({
            let group = group_of(state, key, shards, facets);
            let keys = Seq::new(shards.len(), |i: int| shards[i].search_key);
            &&& group.key == key
            &&& group.shard_count == shards.len()
            &&& group.search_keys == keys
            &&& group.unique_item_ids >= listed_ids(state.members, keys).len() as u64
            &&& forall|i: int|
                0 <= i < shards.len() ==> group.unique_item_ids >= (
                #[trigger] shards[i]).discovered_results
            &&& group.unique_item_ids == listed_ids(state.members, keys).len() as u64 || exists|
                i: int,
            |
                0 <= i < shards.len() && group.unique_item_ids == (
                #[trigger] shards[i]).discovered_results
            &&& group.reported_total_results == greatest_total(shards)
            &&& group.unfinished_shards == 0 <==> forall|i: int|
                0 <= i < shards.len() ==> !(#[trigger] shards[i]).unfinished()
            &&& group.has_gap() <==> (group.reported_total_results matches Some(total)
                && group.unique_item_ids < total)
        }),
{
    let keys = Seq::new(shards.len(), |i: int| shards[i].search_key);
    assert(shard_keys(shards) =~= keys);
    law_most_discovered(shards);
    lemma_count_zero(shards, |s: ShardView| s.unfinished());
}

/// Each stream has the key of the group that its parameters give.
pub proof fn law_keys_of(shards: Seq<ShardView>, facets: Seq<Seq<char>>, i: int)
    requires
        keys_of(shards, facets) is Ok,
        0 <= i < shards.len(),
    ensures
        keys_of(shards, facets)->Ok_0.len() == shards.len(),
        group_key_of(shards[i].params_json, facets) == Ok::<Seq<char>, Seq<char>>(
            keys_of(shards, facets)->Ok_0[i],
        ),
{
    lemma_keys(shards, facets);
}

/// A group is labelled as a stream with what its streams have in common would be.
pub proof fn law_group_label(params_json: Seq<char>, facets: Seq<Seq<char>>)
    ensures
        group_label_of(params_json, facets) is Ok <==> parsed_json(params_json) is Ok,
        parsed_json(params_json) matches Ok(JsonView::Object(members)) ==> group_label_of(
            params_json,
            facets,
        ) == Ok::<_, Seq<char>>(stream_label(object_text(common_members(members, facets)))),
        parsed_json(params_json) matches Err(message) ==> group_label_of(params_json, facets)
            == Err::<Seq<char>, _>("parsing search params for coverage group label: "@ + message),
{
}

/// Every stream is in the group of its own key: the group counts it and names its key, and no stream
/// of another key is named there. The groups stand in the order of their keys.
pub proof fn law_every_stream_is_in_its_group(
    state: StateView,
    shards: Seq<ShardView>,
    facets: Seq<Seq<char>>,
    i: int,
) -> (g: int)
    requires
        groups_of(state, shards, facets) is Ok,
        0 <= i < shards.len(),
    ensures
        ({
            let groups = groups_of(state, shards, facets)->Ok_0;
            &&& 0 <= g < groups.len()
            &&& group_key_of(shards[i].params_json, facets) == Ok::<Seq<char>, Seq<char>>(
                groups[g].key,
            )
            &&& groups[g].search_keys.contains(shards[i].search_key)
            &&& groups[g].search_keys.len() == groups[g].shard_count
            &&& groups[g].shard_count == count_where(
                keys_of(shards, facets)->Ok_0,
                |k: Seq<char>| k == groups[g].key,
            )
            &&& forall|j: int| 0 <= j < g ==> text_before((#[trigger] groups[j]).key, groups[g].key)
            &&& (forall|k: int|
                0 <= k < i ==> group_key_of((#[trigger] shards[k]).params_json, facets)
                    != group_key_of(shards[i].params_json, facets)) ==> groups[g].label
                == group_label_of(shards[i].params_json, facets)->Ok_0
        }),
{
    let keys = keys_of(shards, facets)->Ok_0;
    let sorted = sorted_texts(keys);
    law_keys_of(shards, facets, i);
    law_sorting_keeps_the_texts(keys);
    let key = keys[i];
    assert(keys.to_set().contains(key));
    assert(sorted.to_set().contains(key));
    let g = sorted.index_of(key);
    assert(sorted[g] == key);
    let mine = in_group(shards, keys, key);
    law_in_group(shards, keys, key, shards[i]);
    assert(mine.contains(shards[i]));
    let at = mine.index_of(shards[i]);
    assert(shard_keys(mine)[at] == shards[i].search_key);
    if forall|k: int|
        0 <= k < i ==> group_key_of((#[trigger] shards[k]).params_json, facets) != group_key_of(
            shards[i].params_json,
            facets,
        ) {
        assert forall|k: int| 0 <= k < i implies #[trigger] keys[k] != key by {
            law_keys_of(shards, facets, k);
            assert(group_key_of(shards[k].params_json, facets) != group_key_of(
                shards[i].params_json,
                facets,
            ));
        }
        lemma_first_in_group(shards, keys, key, i);
    }
    g
}

proof fn lemma_first_in_group(
    shards: Seq<ShardView>,
    keys: Seq<Seq<char>>,
    key: Seq<char>,
    i: int,
)
    requires
        0 <= i < shards.len(),
        keys.len() >= shards.len(),
        keys[i] == key,
        forall|k: int| 0 <= k < i ==> #[trigger] keys[k] != key,
    ensures
        in_group(shards, keys, key).len() > 0,
        in_group(shards, keys, key)[0] == shards[i],
    decreases shards.len(),
{
    let rest = shards.drop_last();
    if i < rest.len() {
        lemma_first_in_group(rest, keys, key, i);
        assert(in_group(shards, keys, key)[0] == in_group(rest, keys, key)[0]);
    } else {
        lemma_none_in_group(rest, keys, key);
    }
}

proof fn lemma_none_in_group(shards: Seq<ShardView>, keys: Seq<Seq<char>>, key: Seq<char>)
    requires
        keys.len() >= shards.len(),
        forall|k: int| 0 <= k < shards.len() ==> #[trigger] keys[k] != key,
    ensures
        in_group(shards, keys, key).len() == 0,
    decreases shards.len(),
{
    if shards.len() > 0 {
        lemma_none_in_group(shards.drop_last(), keys, key);
    }
}

} // verus!
