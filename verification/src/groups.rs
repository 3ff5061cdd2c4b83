use crate::json::{
    array, array_text, json_node, lemma_optional_prefix, node_view, lemma_pair_array_prefix,
    lemma_quoted_prefix, lemma_text_array_prefix, member_keys, member_text, member_texts, node_text,
    object, object_text, optional_text, pair_list, pair_text, parsed_json, plain_json,
    plain_members, quote, quoted, quoted_list, reads_as, reads_as_object, JsonNode, JsonView,
};
use crate::labels::{items_in, string_in};
use crate::order::{
    law_sorted_list_is_unique, lemma_before_irreflexive, strictly_sorted, text_before,
};
use crate::params::{
    lemma_behind_comma, lemma_behind_key, lemma_same_members, param_members, params_text, value_of,
    with_value, ParamsView,
};
use crate::text::{joined, list_has, same};
use crate::views::{group_texts, lemma_take_next, pair_texts, texts};
use vstd::prelude::*;

verus! {

broadcast use group_texts;

/// The first element of an extra parameter, where it is a string.
pub open spec fn extra_key(item: Seq<char>) -> Option<Seq<char>> {
    match items_in(item) {
        Some(pair) => if pair.len() > 0 {
            string_in(pair[0])
        } else {
            None
        },
        None => None,
    }
}

/// Whether an extra parameter is one of the facets.
pub open spec fn is_facet(item: Seq<char>, facets: Seq<Seq<char>>) -> bool {
    extra_key(item) is Some && facets.contains(extra_key(item).unwrap())
}

/// The extra parameters that are not facets.
pub open spec fn without_facets(items: Seq<Seq<char>>, facets: Seq<Seq<char>>) -> Seq<Seq<char>>
    decreases items.len(),
{
    if items.len() == 0 {
        Seq::empty()
    } else if is_facet(items.last(), facets) {
        without_facets(items.drop_last(), facets)
    } else {
        without_facets(items.drop_last(), facets).push(items.last())
    }
}

/// The pairs whose key is not a facet.
pub open spec fn plain_pairs(
    pairs: Seq<(Seq<char>, Seq<char>)>,
    facets: Seq<Seq<char>>,
) -> Seq<(Seq<char>, Seq<char>)>
    decreases pairs.len(),
{
    if pairs.len() == 0 {
        Seq::empty()
    } else if facets.contains(pairs.last().0) {
        plain_pairs(pairs.drop_last(), facets)
    } else {
        plain_pairs(pairs.drop_last(), facets).push(pairs.last())
    }
}

/// The JSON text of the extra parameters without the facets.
pub open spec fn extra_without_facets(text: Seq<char>, facets: Seq<Seq<char>>) -> Seq<char> {
    match items_in(text) {
        Some(items) => array_text(without_facets(items, facets)),
        None => text,
    }
}

/// The members that a group of streams has in common: without the sort, and without the facets
/// among the extra parameters.
pub open spec fn common_members(
    members: Seq<(Seq<char>, Seq<char>)>,
    facets: Seq<Seq<char>>,
) -> Seq<(Seq<char>, Seq<char>)>
    decreases members.len(),
{
    if members.len() == 0 {
        Seq::empty()
    } else {
        let before = common_members(members.drop_last(), facets);
        let member = members.last();
        if member.0 == "sort_by"@ || member.0 == "order"@ {
            before
        } else if member.0 == "extra"@ {
            before.push((member.0, extra_without_facets(member.1, facets)))
        } else {
            before.push(member)
        }
    }
}

/// The parameters that a group of streams has in common.
pub open spec fn common_params(view: JsonView, facets: Seq<Seq<char>>) -> JsonView {
    match view {
        JsonView::Object(members) => JsonView::Object(common_members(members, facets)),
        _ => view,
    }
}

/// The key of the group that a stream with these parameters is in, or the message on why the
/// parameters cannot be read.
pub open spec fn group_key_of(params_json: Seq<char>, facets: Seq<Seq<char>>) -> Result<
    Seq<char>,
    Seq<char>,
> {
    match parsed_json(params_json) {
        Ok(view) => Ok(node_text(common_params(view, facets))),
        Err(message) => Err("parsing search params for coverage group: "@ + message),
    }
}

/// The members of the parameters of a stream, in the order of their keys.
pub open spec fn sorted_param_members(p: ParamsView) -> Seq<(Seq<char>, Seq<char>)> {
    seq![
        ("access"@, array_text(quoted_list(p.access))),
        ("base_url"@, quoted(p.base_url)),
        ("catalogs"@, array_text(quoted_list(p.catalogs))),
        ("extra"@, array_text(pair_list(p.extra))),
        ("order"@, optional_text(p.order)),
        ("publishyear_next"@, optional_text(p.publishyear_next)),
        ("publishyear_prev"@, optional_text(p.publishyear_prev)),
        ("query"@, quoted(p.query)),
        ("sort_by"@, optional_text(p.sort_by)),
    ]
}

/// The members of the key of the group that a stream with these parameters is in.
pub open spec fn group_members(p: ParamsView, facets: Seq<Seq<char>>) -> Seq<
    (Seq<char>, Seq<char>),
> {
    seq![
        ("access"@, array_text(quoted_list(p.access))),
        ("base_url"@, quoted(p.base_url)),
        ("catalogs"@, array_text(quoted_list(p.catalogs))),
        ("extra"@, array_text(pair_list(plain_pairs(p.extra, facets)))),
        ("publishyear_next"@, optional_text(p.publishyear_next)),
        ("publishyear_prev"@, optional_text(p.publishyear_prev)),
        ("query"@, quoted(p.query)),
    ]
}

/// The key of the group that a stream with these parameters is in.
pub open spec fn group_text(p: ParamsView, facets: Seq<Seq<char>>) -> Seq<char> {
    object_text(group_members(p, facets))
}

/// The keys of the parameters are different, and this is their order.
proof fn lemma_param_keys()
    ensures
        strictly_sorted(
            seq![
                "access"@,
                "base_url"@,
                "catalogs"@,
                "extra"@,
                "order"@,
                "publishyear_next"@,
                "publishyear_prev"@,
                "query"@,
                "sort_by"@,
            ],
        ),
{
    reveal_strlit("access");
    reveal_strlit("base_url");
    reveal_strlit("catalogs");
    reveal_strlit("extra");
    reveal_strlit("order");
    reveal_strlit("publishyear_next");
    reveal_strlit("publishyear_prev");
    reveal_strlit("query");
    reveal_strlit("sort_by");
    assert("access"@[0] == 'a');
    assert("base_url"@[0] == 'b');
    assert("catalogs"@[0] == 'c');
    assert("extra"@[0] == 'e');
    assert("order"@[0] == 'o');
    assert("publishyear_next"@[0] == 'p');
    assert("publishyear_prev"@[0] == 'p');
    assert("query"@[0] == 'q');
    assert("sort_by"@[0] == 's');
    assert(text_before("publishyear_next"@, "publishyear_prev"@)) by {
        lemma_before_at("publishyear_next"@, "publishyear_prev"@, 12);
    }
}

/// A text comes before another where they first differ in a smaller character.
proof fn lemma_before_at(a: Seq<char>, b: Seq<char>, n: int)
    requires
        0 <= n < a.len(),
        n < b.len(),
        forall|i: int| 0 <= i < n ==> a[i] == b[i],
        a[n] < b[n],
    ensures
        text_before(a, b),
    decreases n,
{
    if n > 0 {
        assert(a[0] == b[0]);
        lemma_before_at(a.drop_first(), b.drop_first(), n - 1);
    }
}

/// Two lists of members with the same members, both in the order of their keys, are the same.
proof fn lemma_key_order_is_unique(
    a: Seq<(Seq<char>, Seq<char>)>,
    b: Seq<(Seq<char>, Seq<char>)>,
)
    requires
        strictly_sorted(member_keys(a)),
        strictly_sorted(member_keys(b)),
        a.to_set() == b.to_set(),
    ensures
        a == b,
{
    assert(member_keys(a).to_set() =~= member_keys(b).to_set()) by {
        assert forall|k: Seq<char>|
            member_keys(a).to_set().contains(k) == member_keys(b).to_set().contains(k) by {
            if member_keys(a).contains(k) {
                let i = member_keys(a).index_of(k);
                assert(a.to_set().contains(a[i]));
                let j = b.index_of(a[i]);
                assert(member_keys(b)[j] == k);
            }
            if member_keys(b).contains(k) {
                let i = member_keys(b).index_of(k);
                assert(b.to_set().contains(b[i]));
                let j = a.index_of(b[i]);
                assert(member_keys(a)[j] == k);
            }
        }
    }
    law_sorted_list_is_unique(member_keys(a), member_keys(b));
    assert(a.len() == member_keys(a).len() && b.len() == member_keys(b).len());
    assert forall|i: int| 0 <= i < a.len() implies a[i] == b[i] by {
        assert(a.to_set().contains(a[i]));
        let j = b.index_of(a[i]);
        assert(member_keys(b)[j] == member_keys(a)[i]);
        assert(member_keys(b)[i] == member_keys(a)[i]);
        lemma_before_irreflexive(member_keys(b)[i]);
        if i < j {
            assert(text_before(member_keys(b)[i], member_keys(b)[j]));
        }
        if j < i {
            assert(text_before(member_keys(b)[j], member_keys(b)[i]));
        }
    }
    assert(a =~= b);
}

/// The parameters of a stream are written in a form whose reading is known.
proof fn lemma_params_are_plain(p: ParamsView)
    ensures
        plain_members(param_members(p)),
        param_members(p).to_set() == sorted_param_members(p).to_set(),
        strictly_sorted(member_keys(sorted_param_members(p))),
{
    let a = param_members(p);
    let b = sorted_param_members(p);
    lemma_param_keys();
    let keys = seq![
        "access"@,
        "base_url"@,
        "catalogs"@,
        "extra"@,
        "order"@,
        "publishyear_next"@,
        "publishyear_prev"@,
        "query"@,
        "sort_by"@,
    ];
    assert(member_keys(b) =~= keys);
    assert forall|x: (Seq<char>, Seq<char>)| a.to_set().contains(x) == b.to_set().contains(x) by {
        assert(a[0] == b[1]);
        assert(a[1] == b[7]);
        assert(a[2] == b[2]);
        assert(a[3] == b[0]);
        assert(a[4] == b[6]);
        assert(a[5] == b[5]);
        assert(a[6] == b[8]);
        assert(a[7] == b[4]);
        assert(a[8] == b[3]);
        if a.contains(x) {
            let i = a.index_of(x);
            assert(b.contains(a[i]));
        }
        if b.contains(x) {
            let i = b.index_of(x);
            assert(a.contains(b[i]));
        }
    }
    assert(a.to_set() =~= b.to_set());
    let positions = seq![1int, 7, 2, 0, 6, 5, 8, 4, 3];
    assert(member_keys(a).no_duplicates()) by {
        assert forall|i: int, j: int|
            0 <= i < member_keys(a).len() && 0 <= j < member_keys(a).len() && i
                != j implies member_keys(a)[i] != member_keys(a)[j] by {
            let m = positions[i];
            let n = positions[j];
            assert(member_keys(a)[i] == keys[m]);
            assert(member_keys(a)[j] == keys[n]);
            assert(m != n);
            lemma_before_irreflexive(keys[m]);
            if m < n {
                assert(text_before(keys[m], keys[n]));
            } else {
                assert(text_before(keys[n], keys[m]));
            }
        }
    }
    assert forall|i: int| 0 <= i < a.len() implies plain_json(#[trigger] a[i].1) by {
        assert(a[0].1 == quoted(p.base_url));
        assert(a[1].1 == quoted(p.query));
        assert(a[2].1 == array_text(quoted_list(p.catalogs)));
        assert(a[3].1 == array_text(quoted_list(p.access)));
        assert(a[8].1 == array_text(pair_list(p.extra)));
    }
}

/// What the members of a stream's parameters have in common with its group, once it is known what
/// the extra parameters are read as.
proof fn lemma_common_members(p: ParamsView, facets: Seq<Seq<char>>)
    requires
        extra_without_facets(array_text(pair_list(p.extra)), facets) == array_text(
            pair_list(plain_pairs(p.extra, facets)),
        ),
    ensures
        common_members(sorted_param_members(p), facets) == group_members(p, facets),
{
    lemma_param_keys();
    let keys = seq![
        "access"@,
        "base_url"@,
        "catalogs"@,
        "extra"@,
        "order"@,
        "publishyear_next"@,
        "publishyear_prev"@,
        "query"@,
        "sort_by"@,
    ];
    assert forall|i: int, j: int| 0 <= i < j < 9 implies keys[i] != keys[j] by {
        assert(text_before(keys[i], keys[j]));
        lemma_before_irreflexive(keys[i]);
    }
    assert(keys[3] == "extra"@ && keys[4] == "order"@ && keys[8] == "sort_by"@);
    assert(keys[0] == "access"@ && keys[1] == "base_url"@ && keys[2] == "catalogs"@);
    assert(keys[5] == "publishyear_next"@ && keys[6] == "publishyear_prev"@ && keys[7] == "query"@);
    let m = sorted_param_members(p);
    let g = group_members(p, facets);
    lemma_common_next(m, facets, 0);
    lemma_common_next(m, facets, 1);
    lemma_common_next(m, facets, 2);
    lemma_common_next(m, facets, 3);
    lemma_common_next(m, facets, 4);
    lemma_common_next(m, facets, 5);
    lemma_common_next(m, facets, 6);
    lemma_common_next(m, facets, 7);
    lemma_common_next(m, facets, 8);
    assert(m.take(0) =~= Seq::empty());
    assert(m.take(9) =~= m);
    assert(common_members(m, facets) =~= g);
}

proof fn lemma_common_next(m: Seq<(Seq<char>, Seq<char>)>, facets: Seq<Seq<char>>, i: int)
    requires
        0 <= i < m.len(),
    ensures
        common_members(m.take(i + 1), facets) == if m[i].0 == "sort_by"@ || m[i].0 == "order"@ {
            common_members(m.take(i), facets)
        } else if m[i].0 == "extra"@ {
            common_members(m.take(i), facets).push((m[i].0, extra_without_facets(m[i].1, facets)))
        } else {
            common_members(m.take(i), facets).push(m[i])
        },
{
    lemma_take_next(m, i);
    assert(m.take(i + 1).drop_last() == m.take(i));
}

/// The compact JSON text of a value that was read.
pub fn json_compact(value: &JsonNode) -> (result: String)
    ensures
        result@ == node_text(value@),
{
    match value {
        JsonNode::Null => "null".to_owned(),
        JsonNode::Bool(value) => {
            if *value {
                "true".to_owned()
            } else {
                "false".to_owned()
            }
        },
        JsonNode::Number(text) => text.clone(),
        JsonNode::Text(text) => quote(text),
        JsonNode::Array(items) => array(items),
        JsonNode::Object(members) => object(members),
    }
}

/// Whether an extra parameter is one of the facets. Of a pair of strings it is known that its first
/// decides.
fn item_is_facet(item: &str, facets: &Vec<String>) -> (result: bool)
    ensures
        result == is_facet(item@, texts(facets@)),
        forall|pair: (Seq<char>, Seq<char>)|
            item@ == #[trigger] pair_text(pair) ==> result == texts(facets@).contains(pair.0),
{
    let node = json_node(item);
    proof {
        assert forall|pair: (Seq<char>, Seq<char>)|
            item@ == #[trigger] pair_text(pair) implies reads_as(
            node,
            JsonView::Array(seq![quoted(pair.0), quoted(pair.1)]),
        ) by {
            assert(quoted_list(seq![pair.0, pair.1]) =~= seq![quoted(pair.0), quoted(pair.1)]);
        }
    }
    let pair = match node {
        Ok(JsonNode::Array(pair)) => pair,
        _ => return false,
    };
    if pair.len() == 0 {
        return false;
    }
    let first = json_node(&pair[0]);
    proof {
        assert forall|wanted: (Seq<char>, Seq<char>)|
            item@ == #[trigger] pair_text(wanted) implies reads_as(
            first,
            JsonView::Text(wanted.0),
        ) by {
            assert(texts(pair@)[0] == seq![quoted(wanted.0), quoted(wanted.1)][0]);
            assert(pair@[0]@ == quoted(wanted.0));
        }
    }
    match first {
        Ok(JsonNode::Text(key)) => list_has(facets, &key),
        _ => false,
    }
}

/// The extra parameters that are not facets.
fn retain_plain(items: &Vec<String>, facets: &Vec<String>) -> (result: Vec<String>)
    ensures
        texts(result@) == without_facets(texts(items@), texts(facets@)),
        forall|pairs: Seq<(Seq<char>, Seq<char>)>|
            texts(items@) == #[trigger] pair_list(pairs) ==> texts(result@) == pair_list(
                plain_pairs(pairs, texts(facets@)),
            ),
{
    let ghost all = texts(items@);
    let ghost fields = texts(facets@);
    let mut out: Vec<String> = Vec::new();
    proof {
        assert forall|pairs: Seq<(Seq<char>, Seq<char>)>|
            all == #[trigger] pair_list(pairs) implies texts(out@) == pair_list(
            plain_pairs(pairs.take(0), fields),
        ) by {
            assert(pairs.take(0) =~= Seq::empty());
            assert(pair_list(Seq::<(Seq<char>, Seq<char>)>::empty()) =~= Seq::empty());
        }
    }
    for i in 0..items.len()
        invariant
            all == texts(items@),
            fields == texts(facets@),
            texts(out@) == without_facets(all.take(i as int), fields),
            forall|pairs: Seq<(Seq<char>, Seq<char>)>|
                all == #[trigger] pair_list(pairs) ==> texts(out@) == pair_list(
                    plain_pairs(pairs.take(i as int), fields),
                ),
    {
        proof {
            lemma_take_next(all, i as int);
            assert(all.take(i + 1).drop_last() == all.take(i as int));
        }
        let ghost kept = texts(out@);
        let facet = item_is_facet(&items[i], facets);
        if !facet {
            out.push(items[i].clone());
        }
        proof {
            assert forall|pairs: Seq<(Seq<char>, Seq<char>)>|
                all == #[trigger] pair_list(pairs) implies texts(out@) == pair_list(
                plain_pairs(pairs.take(i + 1), fields),
            ) by {
                assert(pairs.len() == all.len());
                assert(all[i as int] == pair_text(pairs[i as int]));
                lemma_take_next(pairs, i as int);
                assert(pairs.take(i + 1).drop_last() == pairs.take(i as int));
                assert(pairs.take(i + 1).last() == pairs[i as int]);
                if !facet {
                    let before = plain_pairs(pairs.take(i as int), fields);
                    assert(pair_list(before.push(pairs[i as int])) == pair_list(before).push(
                        pair_text(pairs[i as int]),
                    ));
                }
            }
        }
    }
    proof {
        assert(all.take(all.len() as int) == all);
        assert forall|pairs: Seq<(Seq<char>, Seq<char>)>|
            all == #[trigger] pair_list(pairs) implies texts(out@) == pair_list(
            plain_pairs(pairs, fields),
        ) by {
            assert(pairs.len() == all.len());
            assert(pairs.take(all.len() as int) =~= pairs);
        }
    }
    out
}

/// The JSON text of the extra parameters without the facets.
fn plain_extra(text: &str, facets: &Vec<String>) -> (result: String)
    ensures
        result@ == extra_without_facets(text@, texts(facets@)),
        forall|pairs: Seq<(Seq<char>, Seq<char>)>|
            text@ == array_text(#[trigger] pair_list(pairs)) ==> result@ == array_text(
                pair_list(plain_pairs(pairs, texts(facets@))),
            ),
{
    match json_node(text) {
        Ok(JsonNode::Array(items)) => {
            let kept = retain_plain(&items, facets);
            array(&kept)
        },
        _ => text.to_owned(),
    }
}

/// Takes out of the parameters of a stream what differs between the streams of its group: the sort,
/// and the facets among the extra parameters.
pub fn normalize_coverage_group_params(value: JsonNode, overflow_facets: &Vec<String>) -> (result:
    JsonNode)
    ensures
        result@ == common_params(value@, texts(overflow_facets@)),
        forall|p: ParamsView|
            value@ == JsonView::Object(#[trigger] sorted_param_members(p)) ==> result@
                == JsonView::Object(group_members(p, texts(overflow_facets@))),
{
    match value {
        JsonNode::Object(members) => {
            let ghost all = pair_texts(members@);
            let ghost fields = texts(overflow_facets@);
            let mut out: Vec<(String, String)> = Vec::new();
            assert(pair_texts(out@) =~= Seq::empty());
            for i in 0..members.len()
                invariant
                    all == pair_texts(members@),
                    fields == texts(overflow_facets@),
                    pair_texts(out@) == common_members(all.take(i as int), fields),
                    forall|k: int, pairs: Seq<(Seq<char>, Seq<char>)>|
                        0 <= k < i && all[k].0 == "extra"@ && all[k].1 == array_text(
                            #[trigger] pair_list(pairs),
                        ) ==> extra_without_facets(#[trigger] all[k].1, fields) == array_text(
                            pair_list(plain_pairs(pairs, fields)),
                        ),
            {
                proof {
                    lemma_common_next(all, fields, i as int);
                    reveal_strlit("extra");
                    reveal_strlit("sort_by");
                    reveal_strlit("order");
                    assert("extra"@[0] == 'e');
                    assert("sort_by"@[0] == 's');
                    assert("order"@[0] == 'o');
                }
                let name = &members[i].0;
                if same(name, "sort_by") || same(name, "order") {
                } else if same(name, "extra") {
                    let kept = plain_extra(&members[i].1, overflow_facets);
                    out.push((name.clone(), kept));
                } else {
                    out.push((name.clone(), members[i].1.clone()));
                }
            }
            proof {
                assert(all.take(all.len() as int) == all);
                assert forall|p: ParamsView|
                    all == #[trigger] sorted_param_members(p) implies common_members(all, fields)
                    == group_members(p, fields) by {
                    assert(all[3].0 == "extra"@);
                    assert(all[3].1 == array_text(pair_list(p.extra)));
                    lemma_common_members(p, fields);
                }
            }
            JsonNode::Object(out)
        },
        other => other,
    }
}

/// What the parameters of a stream hold. Of parameters that were written by
/// `SearchParams::key_json` it is known what that is.
pub(crate) fn read_params(params_json: &str) -> (result: Result<JsonNode, String>)
    ensures
        node_view(result) == parsed_json(params_json@),
        forall|p: ParamsView|
            params_json@ == #[trigger] params_text(p) ==> (result matches Ok(node) && node@
                == JsonView::Object(sorted_param_members(p))),
{
    let read = json_node(params_json);
    proof {
        assert forall|p: ParamsView| params_json@ == #[trigger] params_text(p) implies (
        read matches Ok(node) && node@ == JsonView::Object(sorted_param_members(p))) by {
            lemma_params_are_plain(p);
            assert(reads_as_object(read, param_members(p)));
            let sorted = read->Ok_0@->Object_0;
            lemma_key_order_is_unique(sorted, sorted_param_members(p));
        }
    }
    read
}

/// The members of the parameters of a stream lead to its catalogues, its access and its years.
pub proof fn lemma_param_values(p: ParamsView)
    ensures
        value_of(sorted_param_members(p), "catalogs"@) == Some(
            array_text(quoted_list(p.catalogs)),
        ),
        value_of(sorted_param_members(p), "access"@) == Some(array_text(quoted_list(p.access))),
        value_of(sorted_param_members(p), "publishyear_prev"@) == Some(
            optional_text(p.publishyear_prev),
        ),
        value_of(sorted_param_members(p), "publishyear_next"@) == Some(
            optional_text(p.publishyear_next),
        ),
{
    let m = sorted_param_members(p);
    lemma_params_are_plain(p);
    lemma_value_at(m, 0);
    lemma_value_at(m, 2);
    lemma_value_at(m, 5);
    lemma_value_at(m, 6);
}

/// A member of an object whose keys are in order is found under its key.
proof fn lemma_value_at(members: Seq<(Seq<char>, Seq<char>)>, i: int)
    requires
        0 <= i < members.len(),
        strictly_sorted(member_keys(members)),
    ensures
        value_of(members, members[i].0) == Some(members[i].1),
    decreases members.len(),
{
    let keys = member_keys(members);
    if i > 0 {
        let rest = members.drop_first();
        assert(text_before(keys[0], keys[i]));
        lemma_before_irreflexive(keys[0]);
        assert(keys[0] == members[0].0 && keys[i] == members[i].0);
        assert(member_keys(rest) =~= keys.drop_first());
        assert forall|a: int, b: int| 0 <= a < b < member_keys(rest).len() implies text_before(
            #[trigger] member_keys(rest)[a],
            #[trigger] member_keys(rest)[b],
        ) by {
            assert(text_before(keys[a + 1], keys[b + 1]));
        }
        lemma_value_at(rest, i - 1);
        assert(rest[i - 1] == members[i]);
    }
}

/// The key of the group that a stream with these parameters is in. Of parameters that were written
/// by `SearchParams::key_json` it is known which key that is.
pub fn coverage_group_key(params_json: &str, overflow_facets: &Vec<String>) -> (result: Result<
    String,
    String,
>)
    ensures
        match result {
            Ok(key) => group_key_of(params_json@, texts(overflow_facets@)) == Ok::<_, Seq<char>>(
                key@,
            ),
            Err(message) => group_key_of(params_json@, texts(overflow_facets@)) == Err::<
                Seq<char>,
                _,
            >(message@),
        },
        forall|p: ParamsView|
            params_json@ == #[trigger] params_text(p) ==> (result matches Ok(key) && key@
                == group_text(p, texts(overflow_facets@))),
{
    match read_params(params_json) {
        Ok(value) => {
            let common = normalize_coverage_group_params(value, overflow_facets);
            Ok(json_compact(&common))
        },
        Err(error) => {
            let mut message: String = "parsing search params for coverage group: ".to_owned();
            message.append(&error);
            Err(message)
        },
    }
}

proof fn lemma_plain_first(
    first: (Seq<char>, Seq<char>),
    rest: Seq<(Seq<char>, Seq<char>)>,
    facets: Seq<Seq<char>>,
)
    ensures
        plain_pairs(seq![first] + rest, facets) == (if facets.contains(first.0) {
            Seq::empty()
        } else {
            seq![first]
        }) + plain_pairs(rest, facets),
    decreases rest.len(),
{
    let all = seq![first] + rest;
    let none = Seq::<(Seq<char>, Seq<char>)>::empty();
    if rest.len() == 0 {
        assert(all =~= seq![first]);
        assert(all.drop_last() =~= none);
        assert(all.last() == first);
        assert(plain_pairs(none, facets) == none);
        assert(plain_pairs(rest, facets) == none);
        assert(none.push(first) =~= seq![first]);
        assert(seq![first] + none =~= seq![first]);
        assert(none + none =~= none);
    } else {
        lemma_plain_first(first, rest.drop_last(), facets);
        assert(all.drop_last() =~= seq![first] + rest.drop_last());
        assert(all.last() == rest.last());
    }
}

proof fn lemma_facet_is_not_plain(
    pairs: Seq<(Seq<char>, Seq<char>)>,
    field: Seq<char>,
    value: Seq<char>,
    facets: Seq<Seq<char>>,
)
    requires
        facets.contains(field),
    ensures
        plain_pairs(with_value(pairs, field, value), facets) == plain_pairs(pairs, facets),
    decreases pairs.len(),
{
    let none = Seq::<(Seq<char>, Seq<char>)>::empty();
    if pairs.len() == 0 {
        assert(seq![(field, value)] =~= seq![(field, value)] + none);
        lemma_plain_first((field, value), none, facets);
    } else {
        let rest = pairs.drop_first();
        assert(pairs =~= seq![pairs[0]] + rest);
        lemma_plain_first(pairs[0], rest, facets);
        if pairs[0].0 == field {
            assert(pairs.update(0, (field, value)) =~= seq![(field, value)] + rest);
            lemma_plain_first((field, value), rest, facets);
        } else {
            lemma_facet_is_not_plain(rest, field, value, facets);
            lemma_plain_first(pairs[0], with_value(rest, field, value), facets);
        }
    }
}

/// The streams that overflow adds to a stream, by another sort or by a facet, are in its group.
pub proof fn law_overflow_streams_share_a_group(
    p: ParamsView,
    sort_by: Option<Seq<char>>,
    order: Option<Seq<char>>,
    field: Seq<char>,
    value: Seq<char>,
    facets: Seq<Seq<char>>,
)
    requires
        facets.contains(field),
    ensures
        group_text(ParamsView { sort_by, order, ..p }, facets) == group_text(p, facets),
        group_text(
            ParamsView { sort_by, order, extra: with_value(p.extra, field, value), ..p },
            facets,
        ) == group_text(p, facets),
{
    lemma_facet_is_not_plain(p.extra, field, value, facets);
    let q = ParamsView { sort_by, order, extra: with_value(p.extra, field, value), ..p };
    assert(group_members(q, facets) =~= group_members(p, facets));
    let r = ParamsView { sort_by, order, ..p };
    assert(group_members(r, facets) =~= group_members(p, facets));
}

/// Streams in one group search with the same query, filters, years and plain extra parameters.
pub proof fn law_groups_are_separate(p: ParamsView, q: ParamsView, facets: Seq<Seq<char>>)
    requires
        group_text(p, facets) == group_text(q, facets),
    ensures
        p.base_url == q.base_url,
        p.query == q.query,
        p.catalogs == q.catalogs,
        p.access == q.access,
        p.publishyear_prev == q.publishyear_prev,
        p.publishyear_next == q.publishyear_next,
        plain_pairs(p.extra, facets) == plain_pairs(q.extra, facets),
{
    let a = group_members(p, facets);
    let b = group_members(q, facets);
    let ta = group_text(p, facets);
    let tb = group_text(q, facets);
    assert(ta.subrange(1, ta.len() - 1) == joined(member_texts(a), seq![',']));
    assert(tb.subrange(1, tb.len() - 1) == joined(member_texts(b), seq![',']));
    let a1 = a.drop_first();
    let b1 = b.drop_first();
    let a2 = a1.drop_first();
    let b2 = b1.drop_first();
    let a3 = a2.drop_first();
    let b3 = b2.drop_first();
    let a4 = a3.drop_first();
    let b4 = b3.drop_first();
    let a5 = a4.drop_first();
    let b5 = b4.drop_first();
    let a6 = a5.drop_first();
    let b6 = b5.drop_first();
    let t = |m: Seq<(Seq<char>, Seq<char>)>| seq![','] + joined(member_texts(m), seq![',']);
    lemma_same_members(a, b);
    lemma_text_array_prefix(p.access, q.access, t(a1), t(b1));
    lemma_behind_comma(joined(member_texts(a1), seq![',']), joined(member_texts(b1), seq![',']));
    lemma_same_members(a1, b1);
    lemma_quoted_prefix(p.base_url, q.base_url, t(a2), t(b2));
    lemma_behind_comma(joined(member_texts(a2), seq![',']), joined(member_texts(b2), seq![',']));
    lemma_same_members(a2, b2);
    lemma_text_array_prefix(p.catalogs, q.catalogs, t(a3), t(b3));
    lemma_behind_comma(joined(member_texts(a3), seq![',']), joined(member_texts(b3), seq![',']));
    lemma_same_members(a3, b3);
    lemma_pair_array_prefix(
        plain_pairs(p.extra, facets),
        plain_pairs(q.extra, facets),
        t(a4),
        t(b4),
    );
    lemma_behind_comma(joined(member_texts(a4), seq![',']), joined(member_texts(b4), seq![',']));
    lemma_same_members(a4, b4);
    lemma_optional_prefix(p.publishyear_next, q.publishyear_next, t(a5), t(b5));
    lemma_behind_comma(joined(member_texts(a5), seq![',']), joined(member_texts(b5), seq![',']));
    lemma_same_members(a5, b5);
    lemma_optional_prefix(p.publishyear_prev, q.publishyear_prev, t(a6), t(b6));
    lemma_behind_comma(joined(member_texts(a6), seq![',']), joined(member_texts(b6), seq![',']));
    assert(a6.len() == 1 && b6.len() == 1);
    assert(joined(member_texts(a6), seq![',']) == member_text(a6[0]));
    assert(joined(member_texts(b6), seq![',']) == member_text(b6[0]));
    let none = Seq::<char>::empty();
    assert(member_text(a6[0]) == quoted("query"@) + seq![':'] + a6[0].1 + none);
    assert(member_text(b6[0]) == quoted("query"@) + seq![':'] + b6[0].1 + none);
    lemma_behind_key("query"@, a6[0].1, none, b6[0].1, none);
    lemma_quoted_prefix(p.query, q.query, none, none);
}

/// The parameters that stay are those that are no facet, in their order.
pub proof fn law_plain_pairs(
    a: Seq<(Seq<char>, Seq<char>)>,
    b: Seq<(Seq<char>, Seq<char>)>,
    facets: Seq<Seq<char>>,
)
    ensures
        plain_pairs(a + b, facets) == plain_pairs(a, facets) + plain_pairs(b, facets),
        b.len() == 1 && facets.contains(b[0].0) ==> plain_pairs(b, facets).len() == 0,
        b.len() == 1 && !facets.contains(b[0].0) ==> plain_pairs(b, facets) == b,
    decreases b.len(),
{
    if b.len() == 0 {
        assert(a + b =~= a);
        assert(plain_pairs(a, facets) + plain_pairs(b, facets) =~= plain_pairs(a, facets));
    } else {
        law_plain_pairs(a, b.drop_last(), facets);
        assert((a + b).drop_last() =~= a + b.drop_last());
        assert(plain_pairs(a + b, facets) =~= plain_pairs(a, facets) + plain_pairs(b, facets));
        if b.len() == 1 {
            assert(b.drop_last() =~= Seq::empty());
            if !facets.contains(b[0].0) {
                assert(plain_pairs(b, facets) =~= b);
            }
        }
    }
}

/// The items that stay of a list of extra parameters are those whose name is no facet, in their
/// order.
pub proof fn law_without_facets(a: Seq<Seq<char>>, b: Seq<Seq<char>>, facets: Seq<Seq<char>>)
    ensures
        without_facets(a + b, facets) == without_facets(a, facets) + without_facets(b, facets),
        b.len() == 1 ==> (extra_key(b[0]) matches Some(key) ==> (facets.contains(key)
            ==> without_facets(b, facets).len() == 0) && (!facets.contains(key) ==> without_facets(
            b,
            facets,
        ) == b)) && (extra_key(b[0]) is None ==> without_facets(b, facets) == b),
    decreases b.len(),
{
    if b.len() == 0 {
        assert(a + b =~= a);
        assert(without_facets(a, facets) + without_facets(b, facets) =~= without_facets(a, facets));
    } else {
        law_without_facets(a, b.drop_last(), facets);
        assert((a + b).drop_last() =~= a + b.drop_last());
        assert(without_facets(a + b, facets) =~= without_facets(a, facets) + without_facets(
            b,
            facets,
        ));
        if b.len() == 1 {
            assert(b.drop_last() =~= Seq::empty());
            if !is_facet(b[0], facets) {
                assert(without_facets(b, facets) =~= b);
            }
        }
    }
}

/// The parameters that a group has in common are all but the sort and its order, in their order, with
/// the facets taken out of the extra ones.
pub proof fn law_common_members(
    members: Seq<(Seq<char>, Seq<char>)>,
    member: (Seq<char>, Seq<char>),
    facets: Seq<Seq<char>>,
)
    ensures
        common_members(Seq::empty(), facets).len() == 0,
        member.0 == "sort_by"@ || member.0 == "order"@ ==> common_members(
            members.push(member),
            facets,
        ) == common_members(members, facets),
        member.0 != "sort_by"@ && member.0 != "order"@ && member.0 != "extra"@ ==> common_members(
            members.push(member),
            facets,
        ) == common_members(members, facets).push(member),
        member.0 == "extra"@ ==> common_members(members.push(member), facets) == common_members(
            members,
            facets,
        ).push(("extra"@, extra_without_facets(member.1, facets))),
        items_in(member.1) is None ==> extra_without_facets(member.1, facets) == member.1,
        items_in(member.1) matches Some(items) ==> extra_without_facets(member.1, facets)
            == array_text(without_facets(items, facets)),
{
    reveal_strlit("sort_by");
    reveal_strlit("order");
    reveal_strlit("extra");
    assert(members.push(member).drop_last() =~= members);
    assert("extra"@[0] != "sort_by"@[0]);
    assert("extra"@[0] != "order"@[0]);
}

/// Parameters that cannot be read have no group, and it is told why.
pub proof fn law_group_key(params_json: Seq<char>, facets: Seq<Seq<char>>)
    ensures
        group_key_of(params_json, facets) is Ok <==> parsed_json(params_json) is Ok,
        parsed_json(params_json) matches Err(message) ==> group_key_of(params_json, facets)
            == Err::<Seq<char>, _>("parsing search params for coverage group: "@ + message),
        parsed_json(params_json) matches Ok(JsonView::Object(members)) ==> group_key_of(
            params_json,
            facets,
        ) == Ok::<_, Seq<char>>(object_text(common_members(members, facets))),
{
}

} // verus!
