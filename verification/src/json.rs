use crate::numerals::{digit_char, numeral};
use crate::order::strictly_sorted;
use crate::text::{join, joined, law_joined, to_chars};
use crate::views::{group_texts, lemma_take_next, opt_text, pair_texts, texts};
use serde_json::Value;
use vstd::prelude::*;

verus! {

broadcast use group_texts;

/// What a JSON text holds at its top: a scalar, the compact texts of an array's elements, or an
/// object's keys with the compact texts of their values, in the order of the keys.
pub enum JsonNode {
    Null,
    Bool(bool),
    Number(String),
    Text(String),
    Array(Vec<String>),
    Object(Vec<(String, String)>),
}

/// The mathematical counterpart of `JsonNode`.
pub ghost enum JsonView {
    Null,
    Bool(bool),
    Number(Seq<char>),
    Text(Seq<char>),
    Array(Seq<Seq<char>>),
    Object(Seq<(Seq<char>, Seq<char>)>),
}

impl View for JsonNode {
    type V = JsonView;

    open spec fn view(&self) -> JsonView {
        match self {
            JsonNode::Null => JsonView::Null,
            JsonNode::Bool(value) => JsonView::Bool(*value),
            JsonNode::Number(text) => JsonView::Number(text@),
            JsonNode::Text(text) => JsonView::Text(text@),
            JsonNode::Array(items) => JsonView::Array(texts(items@)),
            JsonNode::Object(members) => JsonView::Object(pair_texts(members@)),
        }
    }
}

/// The view of what parsing a JSON text gave.
pub open spec fn node_view(result: Result<JsonNode, String>) -> Result<JsonView, Seq<char>> {
    match result {
        Ok(node) => Ok(node@),
        Err(message) => Err(message@),
    }
}

/// How one character stands inside a JSON string.
pub open spec fn escaped_char(c: char) -> Seq<char> {
    if c == '"' {
        seq!['\\', '"']
    } else if c == '\\' {
        seq!['\\', '\\']
    } else if c == '\u{8}' {
        seq!['\\', 'b']
    } else if c == '\t' {
        seq!['\\', 't']
    } else if c == '\n' {
        seq!['\\', 'n']
    } else if c == '\u{c}' {
        seq!['\\', 'f']
    } else if c == '\r' {
        seq!['\\', 'r']
    } else if (c as int) < 32 {
        seq!['\\', 'u', '0', '0', digit_char(c as int / 16), digit_char(c as int % 16)]
    } else {
        seq![c]
    }
}

/// How the characters of a text stand inside a JSON string.
pub open spec fn escaped(s: Seq<char>) -> Seq<char>
    decreases s.len(),
{
    if s.len() == 0 {
        Seq::empty()
    } else {
        escaped_char(s[0]) + escaped(s.drop_first())
    }
}

/// A text as a JSON string.
pub open spec fn quoted(s: Seq<char>) -> Seq<char> {
    seq!['"'] + escaped(s) + seq!['"']
}

/// A list of JSON texts as a compact JSON array.
pub open spec fn array_text(items: Seq<Seq<char>>) -> Seq<char> {
    seq!['['] + joined(items, seq![',']) + seq![']']
}

/// A member of a compact JSON object.
pub open spec fn member_text(member: (Seq<char>, Seq<char>)) -> Seq<char> {
    quoted(member.0) + seq![':'] + member.1
}

/// The members of a compact JSON object.
pub open spec fn member_texts(members: Seq<(Seq<char>, Seq<char>)>) -> Seq<Seq<char>> {
    members.map_values(|m: (Seq<char>, Seq<char>)| member_text(m))
}

/// A list of keys and JSON texts as a compact JSON object.
pub open spec fn object_text(members: Seq<(Seq<char>, Seq<char>)>) -> Seq<char> {
    seq!['{'] + joined(member_texts(members), seq![',']) + seq!['}']
}

/// An optional text as a JSON string, or `null`.
pub open spec fn optional_text(value: Option<Seq<char>>) -> Seq<char> {
    match value {
        Some(s) => quoted(s),
        None => "null"@,
    }
}

/// The texts of a list as JSON strings.
pub open spec fn quoted_list(list: Seq<Seq<char>>) -> Seq<Seq<char>> {
    list.map_values(|s: Seq<char>| quoted(s))
}

/// A pair of texts as a compact JSON array.
pub open spec fn pair_text(pair: (Seq<char>, Seq<char>)) -> Seq<char> {
    array_text(seq![quoted(pair.0), quoted(pair.1)])
}

/// The pairs of a list as compact JSON arrays.
pub open spec fn pair_list(list: Seq<(Seq<char>, Seq<char>)>) -> Seq<Seq<char>> {
    list.map_values(|p: (Seq<char>, Seq<char>)| pair_text(p))
}

/// A JSON text of one of the forms that search parameters are written with: `null`, a string, an
/// array of strings, or an array of pairs of strings.
pub open spec fn plain_json(text: Seq<char>) -> bool {
    ||| text == "null"@
    ||| exists|s: Seq<char>| text == #[trigger] quoted(s)
    ||| exists|list: Seq<Seq<char>>| text == array_text(#[trigger] quoted_list(list))
    ||| exists|list: Seq<(Seq<char>, Seq<char>)>| text == array_text(#[trigger] pair_list(list))
}

/// The keys of an object's members.
pub open spec fn member_keys(members: Seq<(Seq<char>, Seq<char>)>) -> Seq<Seq<char>> {
    members.map_values(|m: (Seq<char>, Seq<char>)| m.0)
}

/// Members with distinct keys and values in plain forms.
pub open spec fn plain_members(members: Seq<(Seq<char>, Seq<char>)>) -> bool {
    &&& member_keys(members).no_duplicates()
    &&& forall|i: int| 0 <= i < members.len() ==> plain_json(#[trigger] members[i].1)
}

/// The members of an object in the order of their keys.
pub open spec fn in_key_order(
    sorted: Seq<(Seq<char>, Seq<char>)>,
    members: Seq<(Seq<char>, Seq<char>)>,
) -> bool {
    &&& sorted.to_set() == members.to_set()
    &&& strictly_sorted(member_keys(sorted))
}

/// Whether a text was read as `view`.
pub open spec fn reads_as(result: Result<JsonNode, String>, view: JsonView) -> bool {
    result matches Ok(node) && node@ == view
}

/// Whether a text was read as an object with these members.
pub open spec fn reads_as_object(
    result: Result<JsonNode, String>,
    members: Seq<(Seq<char>, Seq<char>)>,
) -> bool {
    result matches Ok(node) && node@ matches JsonView::Object(sorted) && in_key_order(
        sorted,
        members,
    )
}

/// What `serde_json::from_str` makes of a text, or the message of its error.
pub uninterp spec fn parsed_json(text: Seq<char>) -> Result<JsonView, Seq<char>>;

/// The compact JSON text of a value that was read.
pub open spec fn node_text(view: JsonView) -> Seq<char> {
    match view {
        JsonView::Null => "null"@,
        JsonView::Bool(value) => if value {
            "true"@
        } else {
            "false"@
        },
        JsonView::Number(text) => text,
        JsonView::Text(text) => quoted(text),
        JsonView::Array(items) => array_text(items),
        JsonView::Object(members) => object_text(members),
    }
}

/// Whether every member of one object is a member of another.
pub open spec fn members_of(
    kept: Seq<(Seq<char>, Seq<char>)>,
    members: Seq<(Seq<char>, Seq<char>)>,
) -> bool {
    forall|i: int| 0 <= i < kept.len() ==> members.contains(#[trigger] kept[i])
}

/// Whether the compact text of a value, and that of an object of some of its members, can be read.
#[verifier::opaque]
pub open spec fn writes_again(view: JsonView) -> bool {
    &&& parsed_json(node_text(view)) is Ok
    &&& view matches JsonView::Object(members) ==> forall|kept: Seq<(Seq<char>, Seq<char>)>| #[trigger]
        members_of(kept, members) ==> parsed_json(object_text(kept)) is Ok
}

/// `serde_json::from_str` into a `serde_json::Value`, taken apart at its top, with the elements and
/// member values written back by `Value`'s compact `Display`. The result is named by
/// `parsed_json`. Of texts in the forms that search parameters are written with it is also stated
/// what they are read as: a quoted text as that text, an array of strings or of pairs of strings
/// as its elements, and an object with distinct keys and such values as its members in the order
/// of their keys. And what was read can be read again from its compact text, also where members
/// of an object are left out.
#[verifier::external_body]
pub(crate) fn json_node(text: &str) -> (result: Result<JsonNode, String>)
    ensures
        node_view(result) == parsed_json(text@),
        text@ == "null"@ ==> reads_as(result, JsonView::Null),
        forall|s: Seq<char>| text@ == #[trigger] quoted(s) ==> reads_as(result, JsonView::Text(s)),
        forall|list: Seq<Seq<char>>|
            text@ == array_text(#[trigger] quoted_list(list)) ==> reads_as(
                result,
                JsonView::Array(quoted_list(list)),
            ),
        forall|list: Seq<(Seq<char>, Seq<char>)>|
            text@ == array_text(#[trigger] pair_list(list)) ==> reads_as(
                result,
                JsonView::Array(pair_list(list)),
            ),
        forall|members: Seq<(Seq<char>, Seq<char>)>|
            text@ == #[trigger] object_text(members) && plain_members(members) ==> reads_as_object(
                result,
                members,
            ),
        result matches Ok(node) ==> writes_again(node@),
{
    match serde_json::from_str::<Value>(text) {
        Ok(Value::Null) => Ok(JsonNode::Null),
        Ok(Value::Bool(value)) => Ok(JsonNode::Bool(value)),
        Ok(Value::Number(value)) => Ok(JsonNode::Number(value.to_string())),
        Ok(Value::String(value)) => Ok(JsonNode::Text(value)),
        Ok(Value::Array(items)) => Ok(
            JsonNode::Array(items.iter().map(|item| item.to_string()).collect()),
        ),
        Ok(Value::Object(map)) => Ok(
            JsonNode::Object(map.iter().map(|(k, v)| (k.clone(), v.to_string())).collect()),
        ),
        Err(error) => Err(error.to_string()),
    }
}

/// Appends a character as it stands inside a JSON string.
fn push_escaped(out: &mut String, c: char)
    ensures
        final(out)@ == old(out)@ + escaped_char(c),
{
    let short: Option<char> = match c {
        '"' => Some('"'),
        '\\' => Some('\\'),
        '\u{8}' => Some('b'),
        '\t' => Some('t'),
        '\n' => Some('n'),
        '\u{c}' => Some('f'),
        '\r' => Some('r'),
        _ => None,
    };
    match short {
        Some(letter) => {
            out.push('\\');
            out.push(letter);
        },
        None => {
            let code: u32 = c as u32;
            if code < 32 {
                out.push('\\');
                out.push('u');
                out.push('0');
                out.push('0');
                out.push(numeral((code / 16) as u64));
                out.push(numeral((code % 16) as u64));
            } else {
                out.push(c);
            }
        },
    }
    assert(out@ =~= old(out)@ + escaped_char(c));
}

/// A text as a JSON string, with the quote, the backslash and the control characters escaped.
pub(crate) fn quote(text: &str) -> (result: String)
    ensures
        result@ == quoted(text@),
{
    let chars = to_chars(text);
    let mut out: String = String::new();
    out.push('"');
    assert(chars@.skip(0) =~= chars@);
    for i in 0..chars.len()
        invariant
            chars@ == text@,
            out@ + escaped(chars@.skip(i as int)) == seq!['"'] + escaped(text@),
    {
        let ghost before = out@;
        push_escaped(&mut out, chars[i]);
        proof {
            let rest = chars@.skip(i as int);
            assert(rest.drop_first() =~= chars@.skip(i + 1));
            assert(out@ + escaped(rest.drop_first()) =~= before + escaped(rest));
        }
    }
    assert(out@ =~= out@ + escaped(chars@.skip(chars@.len() as int)));
    out.push('"');
    out
}

/// An optional text as a JSON string, or `null`.
pub fn optional(value: &Option<String>) -> (result: String)
    ensures
        result@ == optional_text(opt_text(*value)),
{
    match value {
        Some(text) => quote(text),
        None => "null".to_owned(),
    }
}

/// A compact JSON array of JSON texts.
pub fn array(items: &Vec<String>) -> (result: String)
    ensures
        result@ == array_text(texts(items@)),
{
    proof {
        reveal_strlit("[");
        reveal_strlit(",");
        reveal_strlit("]");
        assert(","@ == seq![',']);
    }
    let mut out: String = "[".to_owned();
    let body = join(items, ",");
    out.append(&body);
    out.append("]");
    assert(out@ == array_text(texts(items@)));
    out
}

/// A compact JSON object of keys and JSON texts.
pub fn object(members: &Vec<(String, String)>) -> (result: String)
    ensures
        result@ == object_text(pair_texts(members@)),
{
    proof {
        reveal_strlit("{");
        reveal_strlit(",");
        reveal_strlit("}");
        reveal_strlit(":");
        assert(","@ == seq![',']);
        assert(":"@ == seq![':']);
    }
    let ghost all = member_texts(pair_texts(members@));
    let mut parts: Vec<String> = Vec::new();
    for i in 0..members.len()
        invariant
            all == member_texts(pair_texts(members@)),
            texts(parts@) == all.take(i as int),
            ":"@ == seq![':'],
    {
        let mut part: String = quote(&members[i].0);
        part.append(":");
        part.append(&members[i].1);
        assert(part@ == all[i as int]);
        parts.push(part);
        proof {
            lemma_take_next(all, i as int);
        }
    }
    assert(all.take(members@.len() as int) == all);
    let mut out: String = "{".to_owned();
    let body = join(&parts, ",");
    out.append(&body);
    out.append("}");
    assert(out@ == object_text(pair_texts(members@)));
    out
}

/// A compact JSON array of the texts of a list.
pub fn text_array(list: &Vec<String>) -> (result: String)
    ensures
        result@ == array_text(quoted_list(texts(list@))),
{
    let ghost all = quoted_list(texts(list@));
    let mut items: Vec<String> = Vec::new();
    for i in 0..list.len()
        invariant
            all == quoted_list(texts(list@)),
            texts(items@) == all.take(i as int),
    {
        items.push(quote(&list[i]));
        proof {
            lemma_take_next(all, i as int);
        }
    }
    assert(all.take(list@.len() as int) == all);
    array(&items)
}

/// A compact JSON array of the pairs of a list.
pub fn pair_array(list: &Vec<(String, String)>) -> (result: String)
    ensures
        result@ == array_text(pair_list(pair_texts(list@))),
{
    let ghost all = pair_list(pair_texts(list@));
    let mut items: Vec<String> = Vec::new();
    for i in 0..list.len()
        invariant
            all == pair_list(pair_texts(list@)),
            texts(items@) == all.take(i as int),
    {
        let mut pair: Vec<String> = Vec::new();
        pair.push(quote(&list[i].0));
        pair.push(quote(&list[i].1));
        assert(texts(pair@) == seq![quoted(list@[i as int].0@), quoted(list@[i as int].1@)]);
        items.push(array(&pair));
        proof {
            lemma_take_next(all, i as int);
        }
    }
    assert(all.take(list@.len() as int) == all);
    array(&items)
}

/// Two escaped characters at the start of the same text are the same character.
proof fn lemma_escaped_char(c: char, d: char, x: Seq<char>, y: Seq<char>)
    requires
        escaped_char(c) + x == escaped_char(d) + y,
    ensures
        c == d,
        x == y,
{
    let l = escaped_char(c) + x;
    let r = escaped_char(d) + y;
    assert(l[0] == escaped_char(c)[0]);
    assert(r[0] == escaped_char(d)[0]);
    if escaped_char(c).len() > 1 {
        assert(l[1] == escaped_char(c)[1]);
    }
    if escaped_char(d).len() > 1 {
        assert(r[1] == escaped_char(d)[1]);
    }
    if escaped_char(c).len() == 6 && escaped_char(d).len() == 6 {
        assert(l[4] == escaped_char(c)[4]);
        assert(r[4] == escaped_char(d)[4]);
        assert(l[5] == escaped_char(c)[5]);
        assert(r[5] == escaped_char(d)[5]);
    }
    assert(c == d);
    assert(x == l.skip(escaped_char(c).len() as int));
    assert(y == r.skip(escaped_char(d).len() as int));
}

/// Two escaped texts, each closed by a quote, at the start of the same text are the same text.
proof fn lemma_escaped(a: Seq<char>, b: Seq<char>, x: Seq<char>, y: Seq<char>)
    requires
        escaped(a) + seq!['"'] + x == escaped(b) + seq!['"'] + y,
    ensures
        a == b,
        x == y,
    decreases a.len(),
{
    let l = escaped(a) + seq!['"'] + x;
    let r = escaped(b) + seq!['"'] + y;
    if a.len() == 0 {
        assert(l[0] == '"');
        if b.len() > 0 {
            assert(r[0] == escaped_char(b[0])[0]);
            assert(false);
        }
        assert(a == b);
        assert(x == l.skip(1));
        assert(y == r.skip(1));
    } else if b.len() == 0 {
        assert(r[0] == '"');
        assert(l[0] == escaped_char(a[0])[0]);
        assert(false);
    } else {
        let x2 = escaped(a.drop_first()) + seq!['"'] + x;
        let y2 = escaped(b.drop_first()) + seq!['"'] + y;
        assert(l == escaped_char(a[0]) + x2);
        assert(r == escaped_char(b[0]) + y2);
        lemma_escaped_char(a[0], b[0], x2, y2);
        lemma_escaped(a.drop_first(), b.drop_first(), x, y);
        assert(a == seq![a[0]] + a.drop_first());
        assert(b == seq![b[0]] + b.drop_first());
    }
}

/// Two JSON strings at the start of the same text are the same string.
pub proof fn lemma_quoted_prefix(a: Seq<char>, b: Seq<char>, x: Seq<char>, y: Seq<char>)
    requires
        quoted(a) + x == quoted(b) + y,
    ensures
        a == b,
        x == y,
{
    let l = quoted(a) + x;
    let r = quoted(b) + y;
    assert(l.skip(1) == escaped(a) + seq!['"'] + x);
    assert(r.skip(1) == escaped(b) + seq!['"'] + y);
    lemma_escaped(a, b, x, y);
}

/// Different texts are different JSON strings.
pub proof fn law_quoted_is_injective(a: Seq<char>, b: Seq<char>)
    requires
        quoted(a) == quoted(b),
    ensures
        a == b,
{
    assert(quoted(a) + Seq::<char>::empty() == quoted(a));
    assert(quoted(b) + Seq::<char>::empty() == quoted(b));
    lemma_quoted_prefix(a, b, Seq::empty(), Seq::empty());
}

/// Two encodings at the start of the same text encode the same value.
pub open spec fn prefix_free<T>(f: spec_fn(T) -> Seq<char>) -> bool {
    &&& forall|p: T, q: T, x: Seq<char>, y: Seq<char>|
        #![trigger f(p) + x, f(q) + y]
        f(p) + x == f(q) + y ==> p == q && x == y
    &&& forall|p: T| (#[trigger] f(p)).len() > 0 && f(p)[0] != ']'
}

/// A list of texts that are joined starts with its first text.
pub proof fn lemma_joined_first(list: Seq<Seq<char>>, separator: Seq<char>)
    requires
        list.len() > 1,
    ensures
        joined(list, separator) == list[0] + separator + joined(list.drop_first(), separator),
    decreases list.len(),
{
    let rest = list.drop_first();
    if list.len() == 2 {
        assert(list.drop_last().len() == 1);
        assert(joined(list.drop_last(), separator) == list[0]);
        assert(joined(rest, separator) == rest[0]);
    } else {
        lemma_joined_first(list.drop_last(), separator);
        assert(list.drop_last().drop_first() == rest.drop_last());
        assert(joined(rest, separator) == joined(rest.drop_last(), separator) + separator
            + rest.last());
        assert(joined(list, separator) == list[0] + separator + joined(rest, separator));
    }
}

/// Two lists of prefix-free encodings, joined by commas and closed by a bracket, at the start of
/// the same text are the same list.
proof fn lemma_list_prefix<T>(
    f: spec_fn(T) -> Seq<char>,
    a: Seq<T>,
    b: Seq<T>,
    x: Seq<char>,
    y: Seq<char>,
)
    requires
        prefix_free(f),
        joined(a.map_values(f), seq![',']) + seq![']'] + x == joined(b.map_values(f), seq![','])
            + seq![']'] + y,
    ensures
        a == b,
        x == y,
    decreases a.len(),
{
    let l = joined(a.map_values(f), seq![',']) + seq![']'] + x;
    let r = joined(b.map_values(f), seq![',']) + seq![']'] + y;
    let a2 = a.drop_first();
    let b2 = b.drop_first();
    let x2 = if a.len() == 1 {
        seq![']'] + x
    } else {
        seq![','] + (joined(a2.map_values(f), seq![',']) + seq![']'] + x)
    };
    let y2 = if b.len() == 1 {
        seq![']'] + y
    } else {
        seq![','] + (joined(b2.map_values(f), seq![',']) + seq![']'] + y)
    };
    if a.len() > 0 {
        assert(a.map_values(f)[0] == f(a[0]));
        assert(a.map_values(f).drop_first() == a2.map_values(f));
        if a.len() > 1 {
            lemma_joined_first(a.map_values(f), seq![',']);
        }
        assert(l == f(a[0]) + x2);
        assert(l[0] == f(a[0])[0]);
    }
    if b.len() > 0 {
        assert(b.map_values(f)[0] == f(b[0]));
        assert(b.map_values(f).drop_first() == b2.map_values(f));
        if b.len() > 1 {
            lemma_joined_first(b.map_values(f), seq![',']);
        }
        assert(r == f(b[0]) + y2);
        assert(r[0] == f(b[0])[0]);
    }
    if a.len() == 0 {
        assert(l[0] == ']');
        assert(b.len() == 0);
        assert(x == l.skip(1));
        assert(y == r.skip(1));
        assert(a == b);
    } else if b.len() == 0 {
        assert(r[0] == ']');
        assert(false);
    } else {
        assert(f(a[0]) + x2 == f(b[0]) + y2);
        assert(a[0] == b[0] && x2 == y2);
        if a.len() == 1 {
            assert(x2[0] == ']');
            assert(b.len() == 1);
            assert(x == x2.skip(1));
            assert(y == y2.skip(1));
            assert(a == b);
        } else {
            assert(x2[0] == ',');
            assert(b.len() > 1);
            assert(x2.skip(1) == joined(a2.map_values(f), seq![',']) + seq![']'] + x);
            assert(y2.skip(1) == joined(b2.map_values(f), seq![',']) + seq![']'] + y);
            lemma_list_prefix(f, a2, b2, x, y);
            assert(a == seq![a[0]] + a2);
            assert(b == seq![b[0]] + b2);
        }
    }
}

/// Two arrays of strings at the start of the same text are the same array.
pub proof fn lemma_text_array_prefix(
    a: Seq<Seq<char>>,
    b: Seq<Seq<char>>,
    x: Seq<char>,
    y: Seq<char>,
)
    requires
        array_text(quoted_list(a)) + x == array_text(quoted_list(b)) + y,
    ensures
        a == b,
        x == y,
{
    let f = |s: Seq<char>| quoted(s);
    assert forall|p: Seq<char>, q: Seq<char>, u: Seq<char>, v: Seq<char>|
        #![trigger f(p) + u, f(q) + v]
        f(p) + u == f(q) + v implies p == q && u == v by {
        lemma_quoted_prefix(p, q, u, v);
    }
    assert(quoted_list(a) == a.map_values(f));
    assert(quoted_list(b) == b.map_values(f));
    let l = array_text(quoted_list(a)) + x;
    let r = array_text(quoted_list(b)) + y;
    assert(l.skip(1) == joined(quoted_list(a), seq![',']) + seq![']'] + x);
    assert(r.skip(1) == joined(quoted_list(b), seq![',']) + seq![']'] + y);
    lemma_list_prefix(f, a, b, x, y);
}

/// Two arrays of pairs of strings at the start of the same text are the same array.
pub proof fn lemma_pair_array_prefix(
    a: Seq<(Seq<char>, Seq<char>)>,
    b: Seq<(Seq<char>, Seq<char>)>,
    x: Seq<char>,
    y: Seq<char>,
)
    requires
        array_text(pair_list(a)) + x == array_text(pair_list(b)) + y,
    ensures
        a == b,
        x == y,
{
    let f = |p: (Seq<char>, Seq<char>)| pair_text(p);
    assert forall|p: (Seq<char>, Seq<char>), q: (Seq<char>, Seq<char>), u: Seq<char>, v: Seq<char>|
        #![trigger f(p) + u, f(q) + v]
        f(p) + u == f(q) + v implies p == q && u == v by {
        assert(pair_text(p) == array_text(quoted_list(seq![p.0, p.1]))) by {
            assert(quoted_list(seq![p.0, p.1]) == seq![quoted(p.0), quoted(p.1)]);
        }
        assert(pair_text(q) == array_text(quoted_list(seq![q.0, q.1]))) by {
            assert(quoted_list(seq![q.0, q.1]) == seq![quoted(q.0), quoted(q.1)]);
        }
        lemma_text_array_prefix(seq![p.0, p.1], seq![q.0, q.1], u, v);
        assert(seq![p.0, p.1][0] == seq![q.0, q.1][0]);
        assert(seq![p.0, p.1][1] == seq![q.0, q.1][1]);
    }
    assert(pair_list(a) == a.map_values(f));
    assert(pair_list(b) == b.map_values(f));
    let l = array_text(pair_list(a)) + x;
    let r = array_text(pair_list(b)) + y;
    assert(l.skip(1) == joined(pair_list(a), seq![',']) + seq![']'] + x);
    assert(r.skip(1) == joined(pair_list(b), seq![',']) + seq![']'] + y);
    lemma_list_prefix(f, a, b, x, y);
}

/// Two optional strings at the start of the same text are the same.
pub proof fn lemma_optional_prefix(
    a: Option<Seq<char>>,
    b: Option<Seq<char>>,
    x: Seq<char>,
    y: Seq<char>,
)
    requires
        optional_text(a) + x == optional_text(b) + y,
    ensures
        a == b,
        x == y,
{
    reveal_strlit("null");
    let l = optional_text(a) + x;
    let r = optional_text(b) + y;
    assert(l[0] == optional_text(a)[0]);
    assert(r[0] == optional_text(b)[0]);
    if a is Some && b is Some {
        lemma_quoted_prefix(a.unwrap(), b.unwrap(), x, y);
    } else {
        assert(a is None && b is None);
        assert(x == l.skip(4));
        assert(y == r.skip(4));
    }
}

/// A text is escaped character by character; a quote, a backslash and a control character are
/// escaped, and every other character stands for itself.
pub proof fn law_escaped(a: Seq<char>, b: Seq<char>)
    ensures
        escaped(a + b) == escaped(a) + escaped(b),
        b.len() == 1 && b[0] != '"' && b[0] != '\\' && b[0] as int >= 32 ==> escaped(b) == b,
        b.len() == 1 && (b[0] == '"' || b[0] == '\\' || (b[0] as int) < 32) ==> escaped(b).len() >= 2
            && escaped(b)[0] == '\\',
        b == seq!['"'] ==> escaped(b) == seq!['\\', '"'],
        b == seq!['\\'] ==> escaped(b) == seq!['\\', '\\'],
        b == seq!['\n'] ==> escaped(b) == seq!['\\', 'n'],
        b == seq!['\r'] ==> escaped(b) == seq!['\\', 'r'],
        b == seq!['\t'] ==> escaped(b) == seq!['\\', 't'],
    decreases a.len(),
{
    if a.len() == 0 {
        assert(a + b =~= b);
        assert(escaped(a) + escaped(b) =~= escaped(b));
    } else {
        law_escaped(a.drop_first(), b);
        assert((a + b).drop_first() =~= a.drop_first() + b);
        assert(escaped(a + b) =~= escaped(a) + escaped(b));
    }
    if b.len() == 1 {
        assert(b.drop_first() =~= Seq::empty());
        assert(escaped(b.drop_first()) =~= Seq::empty());
        assert(escaped(b) =~= escaped_char(b[0]));
        assert(escaped_char(b[0]).len() == 1 ==> seq![b[0]] =~= b);
    }
}

/// A quoted text stands between quotes; what is not there is `null`.
pub proof fn law_quoted(s: Seq<char>)
    ensures
        quoted(s)[0] == '"',
        quoted(s).last() == '"',
        quoted(s).drop_first().drop_last() == escaped(s),
        optional_text(Some(s)) == quoted(s),
        optional_text(None) == "null"@,
{
    assert(quoted(s).drop_first().drop_last() =~= escaped(s));
}

/// An array and an object hold each of their values, with a comma between any two.
pub proof fn law_written_lists(
    items: Seq<Seq<char>>,
    item: Seq<char>,
    members: Seq<(Seq<char>, Seq<char>)>,
    member: (Seq<char>, Seq<char>),
)
    ensures
        array_text(Seq::empty()) == seq!['[', ']'],
        object_text(Seq::empty()) == seq!['{', '}'],
        array_text(seq![item]) == seq!['['] + item + seq![']'],
        items.len() > 0 ==> array_text(items.push(item)) == array_text(items).drop_last() + seq![
            ',',
        ] + item + seq![']'],
        object_text(seq![member]) == seq!['{'] + quoted(member.0) + seq![':'] + member.1 + seq!['}'],
        members.len() > 0 ==> object_text(members.push(member)) == object_text(members).drop_last()
            + seq![','] + (quoted(member.0) + seq![':'] + member.1) + seq!['}'],
{
    let comma = seq![','];
    assert(joined(Seq::<Seq<char>>::empty(), comma) =~= Seq::empty());
    assert(array_text(Seq::empty()) =~= seq!['[', ']']);
    assert(member_texts(Seq::empty()) =~= Seq::empty());
    assert(object_text(Seq::empty()) =~= seq!['{', '}']);
    law_joined(seq![item], seq![item], comma);
    let text = member_text(member);
    law_joined(seq![text], seq![text], comma);
    assert(member_texts(seq![member]) =~= seq![text]);
    assert(object_text(seq![member]) =~= seq!['{'] + quoted(member.0) + seq![':'] + member.1
        + seq!['}']);
    if items.len() > 0 {
        law_joined(items, seq![item], comma);
        assert(items + seq![item] =~= items.push(item));
        assert(array_text(items.push(item)) =~= array_text(items).drop_last() + seq![','] + item
            + seq![']']);
    }
    if members.len() > 0 {
        let texts = member_texts(members);
        law_joined(texts, seq![text], comma);
        assert(member_texts(members.push(member)) =~= texts + seq![text]);
        assert(object_text(members.push(member)) =~= object_text(members).drop_last() + seq![',']
            + (quoted(member.0) + seq![':'] + member.1) + seq!['}']);
    }
}

} // verus!
