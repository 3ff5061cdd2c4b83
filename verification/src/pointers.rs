use crate::json::{
    array_text, member_keys, object_text, parsed_json, plain_json, quoted,
};
use crate::numerals::signed_decimal;
use crate::order::strictly_sorted;
use crate::views::opt_text;
use serde_json::Value;
use vstd::prelude::*;

verus! {

/// A JSON text that is put together, to some depth, of `null`, strings, whole numbers, arrays and
/// objects.
pub open spec fn is_written(text: Seq<char>, depth: nat) -> bool
    decreases depth,
{
    ||| text == "null"@
    ||| exists|s: Seq<char>| text == #[trigger] quoted(s)
    ||| exists|n: int| text == #[trigger] signed_decimal(n)
    ||| depth > 0 && exists|items: Seq<Seq<char>>| #[trigger]
        array_text(items) == text && forall|i: int|
            0 <= i < items.len() ==> is_written(#[trigger] items[i], (depth - 1) as nat)
    ||| depth > 0 && exists|members: Seq<(Seq<char>, Seq<char>)>| #[trigger]
        object_text(members) == text && forall|i: int|
            0 <= i < members.len() ==> is_written((#[trigger] members[i]).1, (depth - 1) as nat)
}

/// Members with distinct keys, each of whose values is written or can be read.
pub open spec fn readable_members(members: Seq<(Seq<char>, Seq<char>)>) -> bool {
    &&& member_keys(members).no_duplicates()
    &&& forall|i: int|
        0 <= i < members.len() ==> is_written((#[trigger] members[i]).1, 6) || parsed_json(
            members[i].1,
        ) is Ok
}

/// A key that stands in a pointer as it is.
pub open spec fn is_step(key: Seq<char>) -> bool {
    forall|i: int| 0 <= i < key.len() ==> #[trigger] key[i] != '/' && key[i] != '~'
}

/// A JSON text that is written just as it was read: in a plain form, or an object with its keys in
/// order and values in plain forms.
pub open spec fn keeps_its_form(text: Seq<char>) -> bool {
    ||| plain_json(text)
    ||| exists|members: Seq<(Seq<char>, Seq<char>)>| #[trigger]
        object_text(members) == text && strictly_sorted(member_keys(members)) && forall|i: int|
            0 <= i < members.len() ==> plain_json((#[trigger] members[i]).1)
}

/// Whether a pointer leads to the member of a member of an object.
pub open spec fn leads_along(
    json: Seq<char>,
    pointer: Seq<char>,
    value: Seq<char>,
    outer: Seq<(Seq<char>, Seq<char>)>,
    inner: Seq<(Seq<char>, Seq<char>)>,
    i: int,
    j: int,
) -> bool {
    &&& json == object_text(outer)
    &&& readable_members(outer)
    &&& 0 <= i < outer.len()
    &&& is_step(outer[i].0)
    &&& outer[i].1 == object_text(inner)
    &&& readable_members(inner)
    &&& 0 <= j < inner.len()
    &&& is_step(inner[j].0)
    &&& pointer == seq!['/'] + outer[i].0 + seq!['/'] + inner[j].0
    &&& inner[j].1 == value
    &&& keeps_its_form(value)
}

/// Whether a pointer leads to a value that keeps its form, as the member of a member of an object.
pub open spec fn leads_to_value(json: Seq<char>, pointer: Seq<char>, value: Seq<char>) -> bool {
    exists|
        outer: Seq<(Seq<char>, Seq<char>)>,
        inner: Seq<(Seq<char>, Seq<char>)>,
        i: int,
        j: int,
    | #[trigger]
        leads_along(json, pointer, value, outer, inner, i, j)
}

/// Whether a pointer leads beyond a member of an object that is `null`.
pub open spec fn leads_beyond(
    json: Seq<char>,
    pointer: Seq<char>,
    outer: Seq<(Seq<char>, Seq<char>)>,
    i: int,
    rest: Seq<char>,
) -> bool {
    &&& json == object_text(outer)
    &&& readable_members(outer)
    &&& 0 <= i < outer.len()
    &&& is_step(outer[i].0)
    &&& outer[i].1 == "null"@
    &&& pointer == seq!['/'] + outer[i].0 + seq!['/'] + rest
}

/// Whether a pointer leads nowhere, since it leads beyond `null`.
pub open spec fn leads_nowhere(json: Seq<char>, pointer: Seq<char>) -> bool {
    exists|outer: Seq<(Seq<char>, Seq<char>)>, i: int, rest: Seq<char>| #[trigger]
        leads_beyond(json, pointer, outer, i, rest)
}

/// The compact text of what a pointer leads to in a JSON text; none where the text is not JSON or
/// the pointer leads nowhere.
pub uninterp spec fn pointed(json: Seq<char>, pointer: Seq<char>) -> Option<Seq<char>>;

/// `serde_json::from_str` into a `serde_json::Value`, `Value::pointer`, and the `Display` of what
/// was found, named by `pointed`. Of a text that can be read, and is an object put together of
/// members, it is also stated that a pointer with two steps leads to the member of a member, and
/// beyond `null` nowhere.
#[verifier::external_body]
pub(crate) fn json_pointer(json: &str, pointer: &str) -> (result: Option<String>)
    ensures
        opt_text(result) == pointed(json@, pointer@),
        parsed_json(json@) is Ok ==> forall|value: Seq<char>| #[trigger]
            leads_to_value(json@, pointer@, value) ==> opt_text(result) == Some(value),
        parsed_json(json@) is Ok && leads_nowhere(json@, pointer@) ==> result is None,
{
    serde_json::from_str::<Value>(json).ok()?.pointer(pointer).map(|value| value.to_string())
}

/// A string is written.
pub proof fn lemma_string_is_written(s: Seq<char>, depth: nat)
    ensures
        is_written(quoted(s), depth),
{
}

/// A whole number is written.
pub proof fn lemma_number_is_written(n: int, depth: nat)
    ensures
        is_written(signed_decimal(n), depth),
{
}

/// An array of texts that are written is written.
pub proof fn lemma_array_is_written(items: Seq<Seq<char>>, depth: nat)
    requires
        depth > 0,
        forall|i: int|
            0 <= i < items.len() ==> is_written(#[trigger] items[i], (depth - 1) as nat),
    ensures
        is_written(array_text(items), depth),
{
}

/// An object of texts that are written is written.
pub proof fn lemma_object_is_written(members: Seq<(Seq<char>, Seq<char>)>, depth: nat)
    requires
        depth > 0,
        forall|i: int|
            0 <= i < members.len() ==> is_written((#[trigger] members[i]).1, (depth - 1) as nat),
    ensures
        is_written(object_text(members), depth),
{
}

} // verus!
