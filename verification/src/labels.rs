use crate::json::{
    array_text, json_node, optional_text, parsed_json, quoted, quoted_list, JsonNode, JsonView,
};
use crate::params::value_of;
use crate::text::{join, joined, law_joined, list_has, same};
use crate::views::{group_texts, lemma_take_next, opt_text, pair_texts, texts};
use vstd::prelude::*;

verus! {

broadcast use group_texts;

/// The text that a JSON text holds, where it is a string.
pub open spec fn string_in(text: Seq<char>) -> Option<Seq<char>> {
    match parsed_json(text) {
        Ok(JsonView::Text(s)) => Some(s),
        _ => None,
    }
}

/// The elements of the array that a JSON text holds, where it is one.
pub open spec fn items_in(text: Seq<char>) -> Option<Seq<Seq<char>>> {
    match parsed_json(text) {
        Ok(JsonView::Array(items)) => Some(items),
        _ => None,
    }
}

/// The JSON text of an object's member.
pub open spec fn member_in(view: JsonView, key: Seq<char>) -> Option<Seq<char>> {
    match view {
        JsonView::Object(members) => value_of(members, key),
        _ => None,
    }
}

/// The text of an object's member, where it is a string.
pub open spec fn member_string(view: JsonView, key: Seq<char>) -> Option<Seq<char>> {
    match member_in(view, key) {
        Some(text) => string_in(text),
        None => None,
    }
}

/// The strings among some JSON texts.
pub open spec fn strings_among(items: Seq<Seq<char>>) -> Seq<Seq<char>>
    decreases items.len(),
{
    if items.len() == 0 {
        Seq::empty()
    } else {
        match string_in(items.last()) {
            Some(s) => strings_among(items.drop_last()).push(s),
            None => strings_among(items.drop_last()),
        }
    }
}

/// The strings of an object's member, where it is an array.
pub open spec fn member_strings(view: JsonView, key: Seq<char>) -> Option<Seq<Seq<char>>> {
    match member_in(view, key) {
        Some(text) => match items_in(text) {
            Some(items) => Some(strings_among(items)),
            None => None,
        },
        None => None,
    }
}

/// The `key=value` text of an extra parameter, where a JSON text is an array that starts with two
/// strings.
pub open spec fn extra_text(item: Seq<char>) -> Option<Seq<char>> {
    match items_in(item) {
        Some(pair) => if pair.len() >= 2 {
            match (string_in(pair[0]), string_in(pair[1])) {
                (Some(key), Some(value)) => Some(key + "="@ + value),
                _ => None,
            }
        } else {
            None
        },
        None => None,
    }
}

/// The texts of the extra parameters among some JSON texts.
pub open spec fn extra_texts(items: Seq<Seq<char>>) -> Seq<Seq<char>>
    decreases items.len(),
{
    if items.len() == 0 {
        Seq::empty()
    } else {
        match extra_text(items.last()) {
            Some(s) => extra_texts(items.drop_last()).push(s),
            None => extra_texts(items.drop_last()),
        }
    }
}

/// The texts of an object's extra parameters.
pub open spec fn member_extra(view: JsonView) -> Option<Seq<Seq<char>>> {
    match member_in(view, "extra"@) {
        Some(text) => match items_in(text) {
            Some(items) => Some(extra_texts(items)),
            None => None,
        },
        None => None,
    }
}

/// The text that a JSON text holds, where it is a string.
pub fn json_text(text: &str) -> (result: Option<String>)
    ensures
        opt_text(result) == string_in(text@),
        forall|value: Option<Seq<char>>|
            text@ == #[trigger] optional_text(value) ==> opt_text(result) == value,
{
    match json_node(text) {
        Ok(JsonNode::Text(s)) => Some(s),
        _ => None,
    }
}

/// The elements of the array that a JSON text holds, where it is one.
pub fn json_items(text: &str) -> (result: Option<Vec<String>>)
    ensures
        match result {
            Some(items) => items_in(text@) == Some(texts(items@)),
            None => items_in(text@) is None,
        },
        forall|list: Seq<Seq<char>>|
            text@ == array_text(#[trigger] quoted_list(list)) ==> (result matches Some(items)
                && texts(items@) == quoted_list(list)),
{
    match json_node(text) {
        Ok(JsonNode::Array(items)) => Some(items),
        _ => None,
    }
}

/// The JSON text of an object's member.
pub fn json_member<'a>(value: &'a JsonNode, key: &str) -> (result: Option<&'a String>)
    ensures
        match result {
            Some(text) => member_in(value@, key@) == Some(text@),
            None => member_in(value@, key@) is None,
        },
{
    match value {
        JsonNode::Object(members) => {
            let ghost all = pair_texts(members@);
            assert(all.skip(0) == all);
            for i in 0..members.len()
                invariant
                    all == pair_texts(members@),
                    value@ == JsonView::Object(all),
                    value_of(all, key@) == value_of(all.skip(i as int), key@),
            {
                assert(all.skip(i as int)[0] == all[i as int]);
                assert(all.skip(i as int).drop_first() == all.skip(i + 1));
                if same(&members[i].0, key) {
                    return Some(&members[i].1);
                }
            }
            None
        },
        _ => None,
    }
}

/// The text of an object's member, where it is a string.
pub fn json_string(value: &JsonNode, key: &str) -> (result: Option<String>)
    ensures
        opt_text(result) == member_string(value@, key@),
        forall|said: Option<Seq<char>>|
            member_in(value@, key@) == Some(#[trigger] optional_text(said)) ==> opt_text(result)
                == said,
{
    match json_member(value, key) {
        Some(text) => json_text(text),
        None => None,
    }
}

/// The strings of an object's member, where it is an array.
pub fn json_string_array(value: &JsonNode, key: &str) -> (result: Option<Vec<String>>)
    ensures
        match result {
            Some(list) => member_strings(value@, key@) == Some(texts(list@)),
            None => member_strings(value@, key@) is None,
        },
        forall|said: Seq<Seq<char>>|
            member_in(value@, key@) == Some(array_text(#[trigger] quoted_list(said))) ==> (
            result matches Some(list) && texts(list@) == said),
{
    let text = match json_member(value, key) {
        Some(text) => text,
        None => return None,
    };
    let items = match json_items(text) {
        Some(items) => items,
        None => return None,
    };
    let ghost all = texts(items@);
    let mut out: Vec<String> = Vec::new();
    for i in 0..items.len()
        invariant
            all == texts(items@),
            texts(out@) == strings_among(all.take(i as int)),
            forall|said: Seq<Seq<char>>|
                all == #[trigger] quoted_list(said) ==> texts(out@) == said.take(i as int),
    {
        proof {
            lemma_take_next(all, i as int);
            assert(all.take(i + 1).drop_last() == all.take(i as int));
            assert forall|said: Seq<Seq<char>>| all == #[trigger] quoted_list(said) implies
                items@[i as int]@ == optional_text(Some(said[i as int])) && said.take(i + 1)
                == said.take(i as int).push(said[i as int]) by {
                assert(quoted_list(said).len() == said.len());
                assert(all.len() == items@.len());
                assert(quoted_list(said)[i as int] == quoted(said[i as int]));
                assert(items@[i as int]@ == all[i as int]);
                assert(said.take(i + 1) =~= said.take(i as int).push(said[i as int]));
            }
        }
        match json_text(&items[i]) {
            Some(s) => {
                out.push(s);
            },
            None => {},
        }
    }
    assert(all.take(all.len() as int) == all);
    assert forall|said: Seq<Seq<char>>| all == #[trigger] quoted_list(said) implies texts(out@)
        == said by {
        assert(said.take(all.len() as int) =~= said);
    }
    Some(out)
}

/// Whether an object's member is an array with all the texts that are expected.
pub open spec fn has_all(view: JsonView, key: Seq<char>, expected: Seq<Seq<char>>) -> bool {
    match member_strings(view, key) {
        Some(actual) => forall|i: int|
            0 <= i < expected.len() ==> actual.contains(#[trigger] expected[i]),
        None => false,
    }
}

/// Whether an object's member is an array with all the texts that are expected.
pub fn json_array_contains_all(value: &JsonNode, key: &str, expected: &Vec<String>) -> (result:
    bool)
    ensures
        result == has_all(value@, key@, texts(expected@)),
        forall|said: Seq<Seq<char>>|
            member_in(value@, key@) == Some(array_text(#[trigger] quoted_list(said))) ==> result
                == (forall|i: int|
                0 <= i < expected@.len() ==> said.contains((#[trigger] expected@[i])@)),
{
    let actual = match json_string_array(value, key) {
        Some(list) => list,
        None => return false,
    };
    for i in 0..expected.len()
        invariant
            member_strings(value@, key@) == Some(texts(actual@)),
            forall|said: Seq<Seq<char>>|
                member_in(value@, key@) == Some(array_text(#[trigger] quoted_list(said)))
                    ==> texts(actual@) == said,
            forall|k: int| 0 <= k < i ==> texts(actual@).contains(#[trigger] texts(expected@)[k]),
    {
        if !list_has(&actual, &expected[i]) {
            assert(!texts(actual@).contains(texts(expected@)[i as int]));
            assert(texts(expected@)[i as int] == expected@[i as int]@);
            return false;
        }
    }
    assert forall|i: int| 0 <= i < expected@.len() implies texts(actual@).contains(
        (#[trigger] expected@[i])@,
    ) by {
        assert(texts(expected@)[i] == expected@[i]@);
    }
    true
}

fn extra_of(item: &str) -> (result: Option<String>)
    ensures
        opt_text(result) == extra_text(item@),
{
    let pair = match json_items(item) {
        Some(pair) => pair,
        None => return None,
    };
    if pair.len() < 2 {
        return None;
    }
    match (json_text(&pair[0]), json_text(&pair[1])) {
        (Some(key), Some(value)) => {
            let mut out: String = key.clone();
            out.append("=");
            out.append(&value);
            Some(out)
        },
        _ => None,
    }
}

/// The texts of an object's extra parameters.
pub fn json_extra_params(value: &JsonNode) -> (result: Option<Vec<String>>)
    ensures
        match result {
            Some(list) => member_extra(value@) == Some(texts(list@)),
            None => member_extra(value@) is None,
        },
{
    let text = match json_member(value, "extra") {
        Some(text) => text,
        None => return None,
    };
    let items = match json_items(text) {
        Some(items) => items,
        None => return None,
    };
    let ghost all = texts(items@);
    let mut out: Vec<String> = Vec::new();
    for i in 0..items.len()
        invariant
            all == texts(items@),
            texts(out@) == extra_texts(all.take(i as int)),
    {
        proof {
            lemma_take_next(all, i as int);
            assert(all.take(i + 1).drop_last() == all.take(i as int));
        }
        match extra_of(&items[i]) {
            Some(s) => {
                out.push(s);
            },
            None => {},
        }
    }
    assert(all.take(all.len() as int) == all);
    Some(out)
}

/// A text as std's `Debug` writes it: in quotes, with what cannot be printed escaped.
pub uninterp spec fn debug_text(text: Seq<char>) -> Seq<char>;

/// The `Debug` of std's `str`, named by `debug_text`.
#[verifier::external_body]
fn debug_of(text: &str) -> (result: String)
    ensures
        result@ == debug_text(text@),
{
    format!("{text:?}")
}

/// A part of a label, or nothing.
pub open spec fn part(present: bool, text: Seq<char>) -> Seq<Seq<char>> {
    if present {
        seq![text]
    } else {
        Seq::empty()
    }
}

/// The part of a label that names the years.
pub open spec fn year_part(from: Option<Seq<char>>, to: Option<Seq<char>>) -> Seq<Seq<char>> {
    match (from, to) {
        (Some(a), Some(b)) => if a == b {
            seq!["year="@ + a]
        } else {
            seq!["year="@ + a + ".."@ + b]
        },
        (Some(a), None) => seq!["year>="@ + a],
        (None, Some(b)) => seq!["year<="@ + b],
        (None, None) => Seq::empty(),
    }
}

/// The part of a label that names the sort.
pub open spec fn sort_part(field: Option<Seq<char>>, order: Option<Seq<char>>) -> Seq<Seq<char>> {
    match field {
        Some(field) => seq![
            "sort="@ + field + ":"@ + match order {
                Some(order) => order,
                None => "?"@,
            },
        ],
        None => Seq::empty(),
    }
}

/// The part of a label that lists something, where the list is there and not empty.
pub open spec fn list_part(name: Seq<char>, list: Option<Seq<Seq<char>>>) -> Seq<Seq<char>> {
    match list {
        Some(list) => part(list.len() > 0, name + joined(list, ","@)),
        None => Seq::empty(),
    }
}

fn labelled(name: &str, value: &str) -> (result: String)
    ensures
        result@ == name@ + value@,
{
    let mut out: String = name.to_owned();
    out.append(value);
    out
}

fn push_list(parts: &mut Vec<String>, name: &str, list: &Option<Vec<String>>)
    ensures
        texts(final(parts)@) == texts(old(parts)@) + list_part(name@, opt_list(*list)),
{
    match list {
        Some(values) => {
            if values.len() > 0 {
                let all = join(values, ",");
                parts.push(labelled(name, &all));
            }
        },
        None => {},
    }
    assert(texts(parts@) =~= texts(old(parts)@) + list_part(name@, opt_list(*list)));
}

fn push_years(parts: &mut Vec<String>, from: &Option<String>, to: &Option<String>)
    ensures
        texts(final(parts)@) == texts(old(parts)@) + year_part(opt_text(*from), opt_text(*to)),
{
    match (from, to) {
        (Some(a), Some(b)) => {
            if same(a, b) {
                parts.push(labelled("year=", a));
            } else {
                let mut years = labelled("year=", a);
                years.append("..");
                years.append(b);
                parts.push(years);
            }
        },
        (Some(a), None) => {
            parts.push(labelled("year>=", a));
        },
        (None, Some(b)) => {
            parts.push(labelled("year<=", b));
        },
        (None, None) => {},
    }
    assert(texts(parts@) =~= texts(old(parts)@) + year_part(opt_text(*from), opt_text(*to)));
}

fn push_sort(parts: &mut Vec<String>, field: &Option<String>, order: &Option<String>)
    ensures
        texts(final(parts)@) == texts(old(parts)@) + sort_part(opt_text(*field), opt_text(*order)),
{
    match field {
        Some(field) => {
            let mut sort = labelled("sort=", field);
            sort.append(":");
            match order {
                Some(order) => sort.append(order),
                None => sort.append("?"),
            }
            parts.push(sort);
        },
        None => {},
    }
    assert(texts(parts@) =~= texts(old(parts)@) + sort_part(opt_text(*field), opt_text(*order)));
}

/// Whether a text is there and not empty.
pub open spec fn is_said(text: Option<Seq<char>>) -> bool {
    text is Some && text.unwrap().len() > 0
}

/// The label of a search stream from its parts: the query as it is shown, where there is one, and
/// the texts of the other parameters.
pub open spec fn label_from(
    shown_query: Option<Seq<char>>,
    catalogs: Option<Seq<Seq<char>>>,
    access: Option<Seq<Seq<char>>>,
    years: (Option<Seq<char>>, Option<Seq<char>>),
    sort: (Option<Seq<char>>, Option<Seq<char>>),
    extra: Option<Seq<Seq<char>>>,
) -> Seq<char> {
    let parts = part(shown_query is Some, "q="@ + shown_query.unwrap()) + list_part(
        "catalog="@,
        catalogs,
    ) + list_part("access="@, access) + year_part(years.0, years.1) + sort_part(sort.0, sort.1)
        + list_part("extra="@, extra);
    if parts.len() == 0 {
        "default"@
    } else {
        joined(parts, " "@)
    }
}

/// The texts of an optional list.
pub open spec fn opt_list(list: Option<Vec<String>>) -> Option<Seq<Seq<char>>> {
    match list {
        Some(values) => Some(texts(values@)),
        None => None,
    }
}

/// The label of a search stream from its parts.
pub fn compose_label(
    shown_query: &Option<String>,
    catalogs: &Option<Vec<String>>,
    access: &Option<Vec<String>>,
    years: (&Option<String>, &Option<String>),
    sort: (&Option<String>, &Option<String>),
    extra: &Option<Vec<String>>,
) -> (result: String)
    ensures
        result@ == label_from(
            opt_text(*shown_query),
            opt_list(*catalogs),
            opt_list(*access),
            (opt_text(*years.0), opt_text(*years.1)),
            (opt_text(*sort.0), opt_text(*sort.1)),
            opt_list(*extra),
        ),
{
    let mut parts: Vec<String> = Vec::new();
    match shown_query {
        Some(shown) => {
            parts.push(labelled("q=", shown));
        },
        None => {},
    }
    let ghost q = opt_text(*shown_query);
    assert(texts(parts@) =~= part(q is Some, "q="@ + q.unwrap()));
    push_list(&mut parts, "catalog=", catalogs);
    push_list(&mut parts, "access=", access);
    push_years(&mut parts, years.0, years.1);
    push_sort(&mut parts, sort.0, sort.1);
    push_list(&mut parts, "extra=", extra);
    if parts.len() == 0 {
        "default".to_owned()
    } else {
        join(&parts, " ")
    }
}

/// The query of a search stream as it is shown, where there is one.
pub open spec fn query_shown(view: JsonView) -> Option<Seq<char>> {
    let query = member_string(view, "query"@);
    if is_said(query) {
        Some(debug_text(query.unwrap()))
    } else {
        None
    }
}

/// The label of a search stream whose parameters were read.
pub open spec fn label_of(view: JsonView) -> Seq<char> {
    label_from(
        query_shown(view),
        member_strings(view, "catalogs"@),
        member_strings(view, "access"@),
        (member_string(view, "publishyear_prev"@), member_string(view, "publishyear_next"@)),
        (member_string(view, "sort_by"@), member_string(view, "order"@)),
        member_extra(view),
    )
}

/// The label of a search stream with these parameters.
pub open spec fn stream_label(params_json: Seq<char>) -> Seq<char> {
    match parsed_json(params_json) {
        Err(_) => "<invalid params>"@,
        Ok(view) => label_of(view),
    }
}

/// The label of a search stream whose parameters were read.
pub fn shard_label_of(value: &JsonNode) -> (result: String)
    ensures
        result@ == label_of(value@),
{
    let shown = match json_string(value, "query") {
        Some(text) => {
            if text.as_str().is_empty() {
                None
            } else {
                Some(debug_of(&text))
            }
        },
        None => None,
    };
    compose_label(
        &shown,
        &json_string_array(value, "catalogs"),
        &json_string_array(value, "access"),
        (&json_string(value, "publishyear_prev"), &json_string(value, "publishyear_next")),
        (&json_string(value, "sort_by"), &json_string(value, "order")),
        &json_extra_params(value),
    )
}

/// The label of a search stream with these parameters.
pub fn coverage_shard_label(params_json: &str) -> (result: String)
    ensures
        result@ == stream_label(params_json@),
{
    match json_node(params_json) {
        Ok(value) => shard_label_of(&value),
        Err(_) => "<invalid params>".to_owned(),
    }
}

/// The strings of a list are kept in their order, and nothing else is kept.
pub proof fn law_strings_among(a: Seq<Seq<char>>, b: Seq<Seq<char>>)
    ensures
        strings_among(a + b) == strings_among(a) + strings_among(b),
        b.len() == 1 ==> (string_in(b[0]) matches Some(s) ==> strings_among(b) == seq![s]) && (
        string_in(b[0]) is None ==> strings_among(b).len() == 0),
        extra_texts(a + b) == extra_texts(a) + extra_texts(b),
        b.len() == 1 ==> (extra_text(b[0]) matches Some(s) ==> extra_texts(b) == seq![s]) && (
        extra_text(b[0]) is None ==> extra_texts(b).len() == 0),
    decreases b.len(),
{
    if b.len() == 0 {
        assert(a + b =~= a);
        assert(strings_among(a) + strings_among(b) =~= strings_among(a));
        assert(extra_texts(a) + extra_texts(b) =~= extra_texts(a));
    } else {
        law_strings_among(a, b.drop_last());
        assert((a + b).drop_last() =~= a + b.drop_last());
        assert((a + b).last() == b.last());
        assert(strings_among(a + b) =~= strings_among(a) + strings_among(b));
        assert(extra_texts(a + b) =~= extra_texts(a) + extra_texts(b));
        if b.len() == 1 {
            assert(b.drop_last() =~= Seq::empty());
            assert(b.last() == b[0]);
            assert(string_in(b[0]) matches Some(s) ==> strings_among(b) =~= seq![s]);
            assert(extra_text(b[0]) matches Some(s) ==> extra_texts(b) =~= seq![s]);
        }
    }
}

/// An extra parameter is shown as its key, an equals sign and its value.
pub proof fn law_extra_text(item: Seq<char>, pair: Seq<Seq<char>>)
    requires
        items_in(item) == Some(pair),
    ensures
        pair.len() < 2 ==> extra_text(item) is None,
        pair.len() >= 2 ==> (string_in(pair[0]) matches Some(key) ==> (string_in(
            pair[1],
        ) matches Some(value) ==> extra_text(item) == Some(key + "="@ + value))),
{
}

/// The years are shown as one year, as a range, or as a bound.
pub proof fn law_year_part(a: Seq<char>, b: Seq<char>)
    ensures
        year_part(Some(a), Some(a)) == seq!["year="@ + a],
        a != b ==> year_part(Some(a), Some(b)) == seq!["year="@ + a + ".."@ + b],
        year_part(Some(a), None) == seq!["year>="@ + a],
        year_part(None, Some(b)) == seq!["year<="@ + b],
        year_part(None, None).len() == 0,
{
}

/// A sort is shown with its order, or with a question mark where it has none; an order alone is not
/// shown.
pub proof fn law_sort_part(field: Seq<char>, order: Seq<char>)
    ensures
        sort_part(Some(field), Some(order)) == seq!["sort="@ + field + ":"@ + order],
        sort_part(Some(field), None) == seq!["sort="@ + field + ":"@ + "?"@],
        sort_part(None, Some(order)).len() == 0,
        sort_part(None, None).len() == 0,
{
}

/// The values of a list are shown behind its name, unless there are none.
pub proof fn law_list_part(name: Seq<char>, list: Seq<Seq<char>>)
    ensures
        list.len() > 0 ==> list_part(name, Some(list)) == seq![name + joined(list, ","@)],
        list_part(name, Some(Seq::empty())).len() == 0,
        list_part(name, None).len() == 0,
{
}

/// A label shows the query, the catalogues, the access, the years, the sort and the extra
/// parameters, each where it is set; a stream for which nothing is set is the default one.
pub proof fn law_label(
    query: Seq<char>,
    catalogs: Seq<Seq<char>>,
    access: Seq<Seq<char>>,
    year: Seq<char>,
    field: Seq<char>,
    order: Seq<char>,
    extra: Seq<Seq<char>>,
)
    requires
        catalogs.len() > 0,
        access.len() > 0,
        extra.len() > 0,
    ensures
        label_from(None, None, None, (None, None), (None, None), None) == "default"@,
        label_from(
            Some(query),
            Some(catalogs),
            Some(access),
            (Some(year), Some(year)),
            (Some(field), Some(order)),
            Some(extra),
        ) == joined(
            seq![
                "q="@ + query,
                "catalog="@ + joined(catalogs, ","@),
                "access="@ + joined(access, ","@),
                "year="@ + year,
                "sort="@ + field + ":"@ + order,
                "extra="@ + joined(extra, ","@),
            ],
            " "@,
        ),
        label_from(Some(query), None, None, (None, None), (None, None), None) == "q="@ + query,
        label_from(None, None, None, (Some(year), Some(year)), (None, None), None) == "year="@
            + year,
        label_from(None, Some(catalogs), None, (None, None), (None, None), None) == "catalog="@
            + joined(catalogs, ","@),
        label_from(None, None, Some(access), (None, None), (None, None), None) == "access="@
            + joined(access, ","@),
        label_from(None, None, None, (None, None), (None, None), Some(extra)) == "extra="@ + joined(
            extra,
            ","@,
        ),
{
    let q = part(true, "q="@ + query);
    let c = list_part("catalog="@, Some(catalogs));
    let a = list_part("access="@, Some(access));
    let y = year_part(Some(year), Some(year));
    let s = sort_part(Some(field), Some(order));
    let e = list_part("extra="@, Some(extra));
    let none = Seq::<Seq<char>>::empty();
    assert(q + c + a + y + s + e =~= seq![
        "q="@ + query,
        "catalog="@ + joined(catalogs, ","@),
        "access="@ + joined(access, ","@),
        "year="@ + year,
        "sort="@ + field + ":"@ + order,
        "extra="@ + joined(extra, ","@),
    ]);
    assert(q + none + none + none + none + none =~= q);
    assert(none + c + none + none + none + none =~= c);
    assert(none + none + a + none + none + none =~= a);
    assert(none + none + none + y + none + none =~= y);
    assert(none + none + none + none + none + e =~= e);
    law_joined(q, q, " "@);
    law_joined(c, c, " "@);
    law_joined(a, a, " "@);
    law_joined(y, y, " "@);
    law_joined(e, e, " "@);
}

/// A label is made of what the parameters of the stream say under their names; parameters that cannot
/// be read are said to be so.
pub proof fn law_label_reads_params(params_json: Seq<char>, view: JsonView)
    ensures
        parsed_json(params_json) is Err ==> stream_label(params_json) == "<invalid params>"@,
        parsed_json(params_json) == Ok::<_, Seq<char>>(view) && !(view is Object) ==> stream_label(
            params_json,
        ) == "default"@,
        parsed_json(params_json) == Ok::<_, Seq<char>>(view) ==> stream_label(params_json)
            == label_from(
            query_shown(view),
            member_strings(view, "catalogs"@),
            member_strings(view, "access"@),
            (member_string(view, "publishyear_prev"@), member_string(view, "publishyear_next"@)),
            (member_string(view, "sort_by"@), member_string(view, "order"@)),
            member_extra(view),
        ),
        member_string(view, "query"@) is None ==> query_shown(view) is None,
        member_string(view, "query"@) matches Some(query) ==> (query.len() > 0 ==> query_shown(view)
            == Some(debug_text(query))) && (query.len() == 0 ==> query_shown(view) is None),
{
}

} // verus!
