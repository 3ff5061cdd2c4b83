use crate::json::{
    array_text, lemma_joined_first, lemma_optional_prefix, lemma_pair_array_prefix,
    lemma_quoted_prefix, lemma_text_array_prefix, member_text, member_texts, object, object_text,
    optional, optional_text, pair_array, pair_list, quote, quoted, quoted_list, text_array,
};
use crate::numerals::{fnv1a64, fnv1a64_of, hex16, hex_fixed, law_hex_has_its_width};
use crate::text::{copy_list, copy_option, copy_pairs, joined, list_has, same};
use crate::views::{group_texts, lemma_take_next, opt_text, pair_texts, texts};
use vstd::prelude::*;
use vstd::utf8::encode_utf8;

verus! {

broadcast use group_texts;

/// The parameters of one search stream.
#[derive(Debug)]
pub struct SearchParams {
    pub base_url: String,
    pub query: String,
    pub catalogs: Vec<String>,
    pub access: Vec<String>,
    pub publishyear_prev: Option<String>,
    pub publishyear_next: Option<String>,
    pub sort_by: Option<String>,
    pub order: Option<String>,
    pub extra: Vec<(String, String)>,
}

/// The texts of the parameters of one search stream.
#[verifier::ext_equal]
pub ghost struct ParamsView {
    pub base_url: Seq<char>,
    pub query: Seq<char>,
    pub catalogs: Seq<Seq<char>>,
    pub access: Seq<Seq<char>>,
    pub publishyear_prev: Option<Seq<char>>,
    pub publishyear_next: Option<Seq<char>>,
    pub sort_by: Option<Seq<char>>,
    pub order: Option<Seq<char>>,
    pub extra: Seq<(Seq<char>, Seq<char>)>,
}

impl View for SearchParams {
    type V = ParamsView;

    open spec fn view(&self) -> ParamsView {
        ParamsView {
            base_url: self.base_url@,
            query: self.query@,
            catalogs: texts(self.catalogs@),
            access: texts(self.access@),
            publishyear_prev: opt_text(self.publishyear_prev),
            publishyear_next: opt_text(self.publishyear_next),
            sort_by: opt_text(self.sort_by),
            order: opt_text(self.order),
            extra: pair_texts(self.extra@),
        }
    }
}

impl Clone for SearchParams {
    fn clone(&self) -> (result: Self)
        ensures
            result@ == self@,
    {
        SearchParams {
            base_url: self.base_url.clone(),
            query: self.query.clone(),
            catalogs: copy_list(&self.catalogs),
            access: copy_list(&self.access),
            publishyear_prev: copy_option(&self.publishyear_prev),
            publishyear_next: copy_option(&self.publishyear_next),
            sort_by: copy_option(&self.sort_by),
            order: copy_option(&self.order),
            extra: copy_pairs(&self.extra),
        }
    }
}

/// The members of the JSON object that identifies a search stream.
pub open spec fn param_members(p: ParamsView) -> Seq<(Seq<char>, Seq<char>)> {
    seq![
        ("base_url"@, quoted(p.base_url)),
        ("query"@, quoted(p.query)),
        ("catalogs"@, array_text(quoted_list(p.catalogs))),
        ("access"@, array_text(quoted_list(p.access))),
        ("publishyear_prev"@, optional_text(p.publishyear_prev)),
        ("publishyear_next"@, optional_text(p.publishyear_next)),
        ("sort_by"@, optional_text(p.sort_by)),
        ("order"@, optional_text(p.order)),
        ("extra"@, array_text(pair_list(p.extra))),
    ]
}

/// The JSON text that identifies a search stream.
pub open spec fn params_text(p: ParamsView) -> Seq<char> {
    object_text(param_members(p))
}

impl SearchParams {
    /// The JSON text that identifies the search stream.
    pub fn key_json(&self) -> (result: String)
        ensures
            result@ == params_text(self@),
    {
        let mut members: Vec<(String, String)> = Vec::new();
        members.push(("base_url".to_owned(), quote(&self.base_url)));
        members.push(("query".to_owned(), quote(&self.query)));
        members.push(("catalogs".to_owned(), text_array(&self.catalogs)));
        members.push(("access".to_owned(), text_array(&self.access)));
        members.push(("publishyear_prev".to_owned(), optional(&self.publishyear_prev)));
        members.push(("publishyear_next".to_owned(), optional(&self.publishyear_next)));
        members.push(("sort_by".to_owned(), optional(&self.sort_by)));
        members.push(("order".to_owned(), optional(&self.order)));
        members.push(("extra".to_owned(), pair_array(&self.extra)));
        assert(pair_texts(members@) == param_members(self@));
        object(&members)
    }
}

/// The short key of a search stream: the hash of its JSON text in hexadecimal.
pub open spec fn key_of(params_json: Seq<char>) -> Seq<char> {
    hex_fixed(fnv1a64_of(encode_utf8(params_json)) as nat, 16)
}

/// The short key of a search stream: the hash of its JSON text in hexadecimal.
pub fn stable_search_key(params_json: &str) -> (result: String)
    ensures
        result@ == key_of(params_json@),
{
    hex16(fnv1a64(params_json.as_bytes()))
}

/// The value of the first pair whose key is `key`.
pub open spec fn value_of(pairs: Seq<(Seq<char>, Seq<char>)>, key: Seq<char>) -> Option<Seq<char>>
    decreases pairs.len(),
{
    if pairs.len() == 0 {
        None
    } else if pairs[0].0 == key {
        Some(pairs[0].1)
    } else {
        value_of(pairs.drop_first(), key)
    }
}

/// The pairs with the first value of `key` replaced, or with the pair appended.
pub open spec fn with_value(
    pairs: Seq<(Seq<char>, Seq<char>)>,
    key: Seq<char>,
    value: Seq<char>,
) -> Seq<(Seq<char>, Seq<char>)>
    decreases pairs.len(),
{
    if pairs.len() == 0 {
        seq![(key, value)]
    } else if pairs[0].0 == key {
        pairs.update(0, (key, value))
    } else {
        seq![pairs[0]] + with_value(pairs.drop_first(), key, value)
    }
}

/// The first value of an extra search parameter.
pub fn extra_param_value<'a>(params: &'a SearchParams, key: &str) -> (result: Option<&'a str>)
    ensures
        match result {
            Some(value) => value_of(params@.extra, key@) == Some(value@),
            None => value_of(params@.extra, key@) is None,
        },
{
    let ghost pairs = params@.extra;
    assert(pairs.skip(0) == pairs);
    for i in 0..params.extra.len()
        invariant
            pairs == params@.extra,
            value_of(pairs, key@) == value_of(pairs.skip(i as int), key@),
    {
        assert(pairs.skip(i as int)[0] == pairs[i as int]);
        assert(pairs.skip(i as int).drop_first() == pairs.skip(i + 1));
        if same(&params.extra[i].0, key) {
            return Some(params.extra[i].1.as_str());
        }
    }
    None
}

/// Sets an extra search parameter: replaces its first value, or appends it.
pub fn set_extra_param(params: &mut SearchParams, key: &str, value: &str)
    ensures
        final(params)@ == (ParamsView {
            extra: with_value(old(params)@.extra, key@, value@),
            ..old(params)@
        }),
{
    let ghost pairs = params@.extra;
    assert(pairs.skip(0) == pairs);
    assert(pairs.take(0) + with_value(pairs, key@, value@) == with_value(pairs, key@, value@));
    let count: usize = params.extra.len();
    for i in 0..count
        invariant
            *params == *old(params),
            count == params.extra@.len(),
            pairs == params@.extra,
            with_value(pairs, key@, value@) == pairs.take(i as int) + with_value(
                pairs.skip(i as int),
                key@,
                value@,
            ),
    {
        assert(pairs.skip(i as int)[0] == pairs[i as int]);
        assert(pairs.skip(i as int).drop_first() == pairs.skip(i + 1));
        if same(&params.extra[i].0, key) {
            assert(with_value(pairs.skip(i as int), key@, value@) == pairs.skip(i as int).update(
                0,
                (key@, value@),
            ));
            params.extra.set(i, (key.to_owned(), value.to_owned()));
            assert(pair_texts(params.extra@) == pairs.take(i as int) + pairs.skip(i as int).update(
                0,
                (key@, value@),
            ));
            return;
        }
        assert(pairs.take(i as int) + (seq![pairs[i as int]] + with_value(
            pairs.skip(i + 1),
            key@,
            value@,
        )) == pairs.take(i + 1) + with_value(pairs.skip(i + 1), key@, value@));
    }
    params.extra.push((key.to_owned(), value.to_owned()));
    assert(pair_texts(params.extra@) == pairs + seq![(key@, value@)]);
    assert(pairs.take(pairs.len() as int) == pairs);
    assert(pairs.skip(pairs.len() as int).len() == 0);
}

/// How many extra parameters are among `fields`.
pub open spec fn facet_depth(pairs: Seq<(Seq<char>, Seq<char>)>, fields: Seq<Seq<char>>) -> nat {
    pairs.filter(|p: (Seq<char>, Seq<char>)| fields.contains(p.0)).len()
}

/// How many extra parameters are overflow facets.
pub fn overflow_facet_depth(params: &SearchParams, overflow_facets: &Vec<String>) -> (result: usize)
    ensures
        result == facet_depth(params@.extra, texts(overflow_facets@)),
{
    let ghost pairs = params@.extra;
    let ghost wanted = |p: (Seq<char>, Seq<char>)| texts(overflow_facets@).contains(p.0);
    let mut depth: usize = 0;
    proof {
        reveal(Seq::filter);
        assert(pairs.take(0).filter(wanted).len() == 0);
    }
    for i in 0..params.extra.len()
        invariant
            pairs == params@.extra,
            wanted == (|p: (Seq<char>, Seq<char>)| texts(overflow_facets@).contains(p.0)),
            depth <= i,
            depth == pairs.take(i as int).filter(wanted).len(),
    {
        proof {
            reveal(Seq::filter);
            lemma_take_next(pairs, i as int);
            assert(pairs.take(i + 1).drop_last() == pairs.take(i as int));
        }
        if list_has(overflow_facets, &params.extra[i].0) {
            depth = depth + 1;
        }
    }
    assert(pairs.take(pairs.len() as int) == pairs);
    depth
}

/// The year that both bounds name, where they name the same.
pub open spec fn year_of(p: ParamsView) -> Option<Seq<char>> {
    if p.publishyear_prev is Some && p.publishyear_prev == p.publishyear_next {
        p.publishyear_prev
    } else {
        None
    }
}

/// The year that both bounds name, where they name the same.
pub fn exact_year(params: &SearchParams) -> (result: Option<&str>)
    ensures
        match result {
            Some(year) => year_of(params@) == Some(year@),
            None => year_of(params@) is None,
        },
{
    match (&params.publishyear_prev, &params.publishyear_next) {
        (Some(from), Some(to)) => {
            if same(from, to) {
                Some(from.as_str())
            } else {
                None
            }
        },
        _ => None,
    }
}

/// A member at the start of a list of members that are joined by commas.
proof fn lemma_first_member(members: Seq<(Seq<char>, Seq<char>)>)
    requires
        members.len() > 1,
    ensures
        joined(member_texts(members), seq![',']) == quoted(members[0].0) + seq![':'] + members[0].1
            + seq![','] + joined(member_texts(members.drop_first()), seq![',']),
{
    lemma_joined_first(member_texts(members), seq![',']);
    assert(member_texts(members).drop_first() == member_texts(members.drop_first()));
    assert(member_texts(members)[0] == member_text(members[0]));
}

/// The text behind a key and its colon, of two texts that start with the same key.
pub proof fn lemma_behind_key(key: Seq<char>, v: Seq<char>, x: Seq<char>, w: Seq<char>, y: Seq<char>)
    requires
        quoted(key) + seq![':'] + v + x == quoted(key) + seq![':'] + w + y,
    ensures
        v + x == w + y,
{
    let n = quoted(key).len() + 1;
    assert((quoted(key) + seq![':'] + v + x).skip(n as int) == v + x);
    assert((quoted(key) + seq![':'] + w + y).skip(n as int) == w + y);
}

/// What stands behind a comma.
pub proof fn lemma_behind_comma(x: Seq<char>, y: Seq<char>)
    requires
        seq![','] + x == seq![','] + y,
    ensures
        x == y,
{
    assert((seq![','] + x).skip(1) == x);
    assert((seq![','] + y).skip(1) == y);
}

/// Where two lists of members are joined to the same text and have the same first key, the texts
/// behind that key are the same.
pub proof fn lemma_same_members(a: Seq<(Seq<char>, Seq<char>)>, b: Seq<(Seq<char>, Seq<char>)>)
    requires
        a.len() > 1,
        b.len() > 1,
        a[0].0 == b[0].0,
        joined(member_texts(a), seq![',']) == joined(member_texts(b), seq![',']),
    ensures
        a[0].1 + (seq![','] + joined(member_texts(a.drop_first()), seq![','])) == b[0].1 + (seq![',']
            + joined(member_texts(b.drop_first()), seq![','])),
{
    lemma_first_member(a);
    lemma_first_member(b);
    let x = seq![','] + joined(member_texts(a.drop_first()), seq![',']);
    let y = seq![','] + joined(member_texts(b.drop_first()), seq![',']);
    assert(quoted(a[0].0) + seq![':'] + a[0].1 + x == joined(member_texts(a), seq![',']));
    assert(quoted(b[0].0) + seq![':'] + b[0].1 + y == joined(member_texts(b), seq![',']));
    lemma_behind_key(a[0].0, a[0].1, x, b[0].1, y);
}

/// Different search parameters have different JSON texts, so that no two search streams share a
/// checkpoint by their parameters.
pub proof fn law_params_text_is_injective(p: ParamsView, q: ParamsView)
    requires
        params_text(p) == params_text(q),
    ensures
        p == q,
{
    let a = param_members(p);
    let b = param_members(q);
    let ja = joined(member_texts(a), seq![',']);
    let jb = joined(member_texts(b), seq![',']);
    assert(params_text(p).subrange(1, params_text(p).len() - 1) == ja);
    assert(params_text(q).subrange(1, params_text(q).len() - 1) == jb);
    let a1 = a.drop_first();
    let b1 = b.drop_first();
    let a2 = a1.drop_first();
    let b2 = b1.drop_first();
    let a3 = a2.drop_first();
    let b3 = b2.drop_first();
    let a4 = a3.drop_first();
    let b4 = b3.drop_first();
    let a5 = a4.drop_first();
    let b5 = b4.drop_first();
    let a6 = a5.drop_first();
    let b6 = b5.drop_first();
    let a7 = a6.drop_first();
    let b7 = b6.drop_first();
    let a8 = a7.drop_first();
    let b8 = b7.drop_first();
    let t = |m: Seq<(Seq<char>, Seq<char>)>| seq![','] + joined(member_texts(m), seq![',']);
    lemma_same_members(a, b);
    lemma_quoted_prefix(p.base_url, q.base_url, t(a1), t(b1));
    lemma_behind_comma(joined(member_texts(a1), seq![',']), joined(member_texts(b1), seq![',']));
    lemma_same_members(a1, b1);
    lemma_quoted_prefix(p.query, q.query, t(a2), t(b2));
    lemma_behind_comma(joined(member_texts(a2), seq![',']), joined(member_texts(b2), seq![',']));
    lemma_same_members(a2, b2);
    lemma_text_array_prefix(p.catalogs, q.catalogs, t(a3), t(b3));
    lemma_behind_comma(joined(member_texts(a3), seq![',']), joined(member_texts(b3), seq![',']));
    lemma_same_members(a3, b3);
    lemma_text_array_prefix(p.access, q.access, t(a4), t(b4));
    lemma_behind_comma(joined(member_texts(a4), seq![',']), joined(member_texts(b4), seq![',']));
    lemma_same_members(a4, b4);
    lemma_optional_prefix(p.publishyear_prev, q.publishyear_prev, t(a5), t(b5));
    lemma_behind_comma(joined(member_texts(a5), seq![',']), joined(member_texts(b5), seq![',']));
    lemma_same_members(a5, b5);
    lemma_optional_prefix(p.publishyear_next, q.publishyear_next, t(a6), t(b6));
    lemma_behind_comma(joined(member_texts(a6), seq![',']), joined(member_texts(b6), seq![',']));
    lemma_same_members(a6, b6);
    lemma_optional_prefix(p.sort_by, q.sort_by, t(a7), t(b7));
    lemma_behind_comma(joined(member_texts(a7), seq![',']), joined(member_texts(b7), seq![',']));
    lemma_same_members(a7, b7);
    lemma_optional_prefix(p.order, q.order, t(a8), t(b8));
    lemma_behind_comma(joined(member_texts(a8), seq![',']), joined(member_texts(b8), seq![',']));
    assert(a8.len() == 1 && b8.len() == 1);
    assert(joined(member_texts(a8), seq![',']) == member_text(a8[0]));
    assert(joined(member_texts(b8), seq![',']) == member_text(b8[0]));
    let none = Seq::<char>::empty();
    assert(member_text(a8[0]) == quoted("extra"@) + seq![':'] + a8[0].1 + none);
    assert(member_text(b8[0]) == quoted("extra"@) + seq![':'] + b8[0].1 + none);
    lemma_behind_key("extra"@, a8[0].1, none, b8[0].1, none);
    lemma_pair_array_prefix(p.extra, q.extra, none, none);
}

/// An extra search parameter that was set is read back, and no other parameter changes.
pub proof fn law_extra_param_reads_back(
    pairs: Seq<(Seq<char>, Seq<char>)>,
    key: Seq<char>,
    value: Seq<char>,
    other: Seq<char>,
)
    ensures
        value_of(with_value(pairs, key, value), key) == Some(value),
        other != key ==> value_of(with_value(pairs, key, value), other) == value_of(pairs, other),
    decreases pairs.len(),
{
    reveal_with_fuel(value_of, 2);
    let set = with_value(pairs, key, value);
    if pairs.len() == 0 {
        assert(set.drop_first() =~= Seq::empty());
    } else if pairs[0].0 == key {
        assert(set.drop_first() =~= pairs.drop_first());
    } else {
        law_extra_param_reads_back(pairs.drop_first(), key, value, other);
        assert(set.drop_first() =~= with_value(pairs.drop_first(), key, value));
    }
}

/// Setting a value changes the first pair with its key, or adds one at the end; no other pair
/// changes.
pub proof fn law_value_is_set_once(
    pairs: Seq<(Seq<char>, Seq<char>)>,
    key: Seq<char>,
    value: Seq<char>,
)
    ensures
        value_of(pairs, key) is None ==> with_value(pairs, key, value) == pairs.push((key, value)),
        value_of(pairs, key) is None <==> forall|i: int|
            0 <= i < pairs.len() ==> (#[trigger] pairs[i]).0 != key,
        value_of(pairs, key) matches Some(before) ==> exists|i: int|
            #![trigger pairs[i]]
            0 <= i < pairs.len() && pairs[i] == (key, before) && with_value(pairs, key, value)
                == pairs.update(i, (key, value)) && forall|j: int|
                0 <= j < i ==> (#[trigger] pairs[j]).0 != key,
    decreases pairs.len(),
{
    if pairs.len() > 0 {
        let rest = pairs.drop_first();
        law_value_is_set_once(rest, key, value);
        if pairs[0].0 == key {
            assert(pairs[0] == (key, pairs[0].1));
        } else {
            assert(pairs =~= seq![pairs[0]] + rest);
            assert forall|i: int| 0 <= i < rest.len() implies #[trigger] rest[i] == pairs[i + 1] by {}
            if value_of(rest, key) is None {
                assert(with_value(pairs, key, value) =~= pairs.push((key, value)));
                assert forall|i: int| 0 <= i < pairs.len() implies (#[trigger] pairs[i]).0 != key by {
                    if i > 0 {
                        assert(rest[i - 1] == pairs[i]);
                    }
                }
            } else {
                let before = value_of(rest, key)->Some_0;
                let i = choose|i: int|
                    #![trigger rest[i]]
                    0 <= i < rest.len() && rest[i] == (key, before) && with_value(rest, key, value)
                        == rest.update(i, (key, value)) && forall|j: int|
                        0 <= j < i ==> (#[trigger] rest[j]).0 != key;
                assert(pairs[i + 1] == rest[i]);
                assert(with_value(pairs, key, value) =~= pairs.update(i + 1, (key, value)));
                assert forall|j: int| 0 <= j < i + 1 implies (#[trigger] pairs[j]).0 != key by {
                    if j > 0 {
                        assert(rest[j - 1] == pairs[j]);
                    }
                }
            }
        }
    } else {
        assert(with_value(pairs, key, value) =~= pairs.push((key, value)));
    }
}

/// The facets that narrow a stream are counted one by one: a parameter counts where its name is one
/// of the facets.
pub proof fn law_facet_depth(
    pairs: Seq<(Seq<char>, Seq<char>)>,
    pair: (Seq<char>, Seq<char>),
    fields: Seq<Seq<char>>,
)
    ensures
        facet_depth(Seq::empty(), fields) == 0,
        fields.contains(pair.0) ==> facet_depth(pairs.push(pair), fields) == facet_depth(
            pairs,
            fields,
        ) + 1,
        !fields.contains(pair.0) ==> facet_depth(pairs.push(pair), fields) == facet_depth(
            pairs,
            fields,
        ),
{
    let all = pairs.push(pair);
    assert(all.drop_last() =~= pairs);
    reveal(Seq::filter);
}

/// A stream is of one year where both of its bounds are that year.
pub proof fn law_exact_year(p: ParamsView, year: Seq<char>)
    ensures
        year_of(p) == Some(year) <==> p.publishyear_prev == Some(year) && p.publishyear_next
            == Some(year),
{
}

/// The short key of a stream has sixteen hexadecimal numerals.
pub proof fn law_key_is_short(params_json: Seq<char>)
    ensures
        key_of(params_json).len() == 16,
        forall|i: int|
            0 <= i < 16 ==> '0' <= #[trigger] key_of(params_json)[i] <= '9' || 'a' <= key_of(
                params_json,
            )[i] <= 'f',
{
    law_hex_has_its_width(fnv1a64_of(encode_utf8(params_json)) as nat, 16);
}

} // verus!
