use crate::views::{group_texts, lemma_take_next, opt_text, pair_texts, texts};
use vstd::prelude::*;

verus! {

broadcast use group_texts;

/// `String::push` of std: the character is appended to the string.
pub assume_specification[ String::push ](s: &mut String, ch: char)
    ensures
        final(s)@ == old(s)@.push(ch),
;

/// An owned copy of a text.
pub fn copy(s: &str) -> (result: String)
    ensures
        result@ == s@,
{
    s.to_owned()
}

/// Whether two texts are the same.
pub fn same(a: &str, b: &str) -> (result: bool)
    ensures
        result == (a@ == b@),
{
    let left: String = a.to_owned();
    let right: String = b.to_owned();
    left == right
}

/// Whether an optional text is present and equal to `b`.
pub fn option_is(a: &Option<String>, b: &str) -> (result: bool)
    ensures
        result == (opt_text(*a) == Some(b@)),
{
    match a {
        Some(text) => same(text, b),
        None => false,
    }
}

/// A copy of an optional text.
pub fn copy_option(value: &Option<String>) -> (result: Option<String>)
    ensures
        opt_text(result) == opt_text(*value),
{
    match value {
        Some(text) => Some(text.clone()),
        None => None,
    }
}

/// A copy of a list of texts.
pub fn copy_list(list: &Vec<String>) -> (result: Vec<String>)
    ensures
        texts(result@) == texts(list@),
{
    let mut out: Vec<String> = Vec::new();
    for i in 0..list.len()
        invariant
            texts(out@) == texts(list@).take(i as int),
    {
        out.push(list[i].clone());
        proof {
            lemma_take_next(texts(list@), i as int);
        }
    }
    assert(texts(list@).take(list@.len() as int) == texts(list@));
    out
}

/// A copy of a list of text pairs.
pub fn copy_pairs(list: &Vec<(String, String)>) -> (result: Vec<(String, String)>)
    ensures
        pair_texts(result@) == pair_texts(list@),
{
    let mut out: Vec<(String, String)> = Vec::new();
    for i in 0..list.len()
        invariant
            pair_texts(out@) == pair_texts(list@).take(i as int),
    {
        out.push((list[i].0.clone(), list[i].1.clone()));
        proof {
            lemma_take_next(pair_texts(list@), i as int);
        }
    }
    assert(pair_texts(list@).take(list@.len() as int) == pair_texts(list@));
    out
}

/// Whether a list of texts holds `value`.
pub fn list_has(list: &Vec<String>, value: &str) -> (result: bool)
    ensures
        result == texts(list@).contains(value@),
{
    for i in 0..list.len()
        invariant
            forall|k: int| 0 <= k < i ==> texts(list@)[k] != value@,
    {
        if same(&list[i], value) {
            assert(texts(list@)[i as int] == value@);
            return true;
        }
    }
    false
}

/// The characters of a text.
pub fn to_chars(s: &str) -> (result: Vec<char>)
    ensures
        result@ == s@,
{
    let mut out: Vec<char> = Vec::new();
    for c in it: s.chars()
        invariant
            out@ == it.seq().take(it.index()),
            it.seq() == s@,
    {
        out.push(c);
        assert(out@ == it.seq().take(it.index() + 1));
    }
    assert(s@.take(s@.len() as int) == s@);
    out
}

/// The text made of the characters `from..to`.
pub fn from_chars(chars: &Vec<char>, from: usize, to: usize) -> (result: String)
    requires
        from <= to <= chars@.len(),
    ensures
        result@ == chars@.subrange(from as int, to as int),
{
    let mut out: String = String::new();
    for i in from..to
        invariant
            from <= to <= chars@.len(),
            out@ == chars@.subrange(from as int, i as int),
    {
        out.push(chars[i]);
        assert(out@ == chars@.subrange(from as int, i + 1));
    }
    out
}

/// Whether a character is white space in Unicode: tab to carriage return, the space and the spaces
/// of other widths, the separators of lines and paragraphs, and the next-line control.
pub open spec fn white_space(c: char) -> bool {
    ||| 0x9 <= c as u32 <= 0xD
    ||| c as u32 == 0x20
    ||| c as u32 == 0x85
    ||| c as u32 == 0xA0
    ||| c as u32 == 0x1680
    ||| 0x2000 <= c as u32 <= 0x200A
    ||| c as u32 == 0x2028
    ||| c as u32 == 0x2029
    ||| c as u32 == 0x202F
    ||| c as u32 == 0x205F
    ||| c as u32 == 0x3000
}

/// `char::is_whitespace` of std: whether the character has the Unicode property `White_Space`,
/// which is spelled out in `white_space`.
pub assume_specification[ char::is_whitespace ](c: char) -> (result: bool)
    ensures
        result == white_space(c),
;

/// A text without its leading white space.
pub open spec fn without_leading_space(s: Seq<char>) -> Seq<char>
    decreases s.len(),
{
    if s.len() > 0 && white_space(s[0]) {
        without_leading_space(s.drop_first())
    } else {
        s
    }
}

/// A text without its trailing white space.
pub open spec fn without_trailing_space(s: Seq<char>) -> Seq<char>
    decreases s.len(),
{
    if s.len() > 0 && white_space(s.last()) {
        without_trailing_space(s.drop_last())
    } else {
        s
    }
}

/// A text without its leading white space.
pub fn trim_start(s: &str) -> (result: String)
    ensures
        result@ == without_leading_space(s@),
{
    let chars = to_chars(s);
    let count: usize = chars.len();
    let mut from: usize = 0;
    assert(chars@.skip(0) == chars@);
    while from < count && chars[from].is_whitespace()
        invariant
            count == chars@.len(),
            from <= count,
            without_leading_space(chars@) == without_leading_space(chars@.skip(from as int)),
        decreases count - from,
    {
        assert(chars@.skip(from as int).drop_first() == chars@.skip(from + 1));
        from = from + 1;
    }
    assert(chars@.subrange(from as int, count as int) == chars@.skip(from as int));
    from_chars(&chars, from, count)
}

/// A text without white space at either end.
pub open spec fn trimmed(s: Seq<char>) -> Seq<char> {
    without_trailing_space(without_leading_space(s))
}

/// A text without white space at either end.
pub fn trim(s: &str) -> (result: String)
    ensures
        result@ == trimmed(s@),
{
    let chars = to_chars(s);
    let mut from: usize = 0;
    assert(chars@.skip(0) == chars@);
    while from < chars.len() && chars[from].is_whitespace()
        invariant
            from <= chars@.len(),
            without_leading_space(chars@) == without_leading_space(chars@.skip(from as int)),
        decreases chars@.len() - from,
    {
        assert(chars@.skip(from as int).drop_first() == chars@.skip(from + 1));
        from = from + 1;
    }
    let ghost rest = chars@.skip(from as int);
    assert(without_leading_space(chars@) == rest);
    let mut to: usize = chars.len();
    assert(rest == chars@.subrange(from as int, to as int));
    while to > from && chars[to - 1].is_whitespace()
        invariant
            from <= to <= chars@.len(),
            without_trailing_space(rest) == without_trailing_space(
                chars@.subrange(from as int, to as int),
            ),
        decreases to,
    {
        assert(chars@.subrange(from as int, to as int).drop_last() == chars@.subrange(
            from as int,
            to - 1,
        ));
        to = to - 1;
    }
    from_chars(&chars, from, to)
}

/// The number of characters before the first white space.
pub open spec fn word_length(s: Seq<char>) -> nat
    decreases s.len(),
{
    if s.len() > 0 && !white_space(s[0]) {
        1 + word_length(s.drop_first())
    } else {
        0
    }
}

/// A word is no longer than the text it starts.
pub proof fn lemma_word_length(s: Seq<char>)
    ensures
        word_length(s) <= s.len(),
    decreases s.len(),
{
    if s.len() > 0 && !white_space(s[0]) {
        lemma_word_length(s.drop_first());
    }
}

/// The words of a text: its longest runs without white space, in order.
pub open spec fn words(s: Seq<char>) -> Seq<Seq<char>>
    decreases s.len(),
{
    if s.len() == 0 {
        Seq::empty()
    } else if white_space(s[0]) {
        words(s.drop_first())
    } else {
        proof {
            lemma_word_length(s);
        }
        seq![s.take(word_length(s) as int)] + words(s.skip(word_length(s) as int))
    }
}

/// The words of a text.
pub fn split_words(s: &str) -> (result: Vec<String>)
    ensures
        texts(result@) == words(s@),
{
    let chars = to_chars(s);
    let mut out: Vec<String> = Vec::new();
    let mut at: usize = 0;
    assert(chars@.skip(0) == chars@);
    while at < chars.len()
        invariant
            at <= chars@.len(),
            words(chars@) == texts(out@) + words(chars@.skip(at as int)),
        decreases chars@.len() - at,
    {
        let ghost rest = chars@.skip(at as int);
        if chars[at].is_whitespace() {
            assert(rest.drop_first() == chars@.skip(at + 1));
            at = at + 1;
        } else {
            let start: usize = at;
            while at < chars.len() && !chars[at].is_whitespace()
                invariant
                    start <= at <= chars@.len(),
                    rest == chars@.skip(start as int),
                    word_length(rest) == (at - start) + word_length(chars@.skip(at as int)),
                decreases chars@.len() - at,
            {
                assert(chars@.skip(at as int).drop_first() == chars@.skip(at + 1));
                at = at + 1;
            }
            let ghost before = texts(out@);
            out.push(from_chars(&chars, start, at));
            proof {
                assert(word_length(rest) == at - start);
                assert(rest.take(at - start) == chars@.subrange(start as int, at as int));
                assert(rest.skip(at - start) == chars@.skip(at as int));
                assert(before + (seq![chars@.subrange(start as int, at as int)] + words(
                    chars@.skip(at as int),
                )) == texts(out@) + words(chars@.skip(at as int)));
            }
        }
    }
    assert(texts(out@) + Seq::<Seq<char>>::empty() == texts(out@));
    out
}

/// The texts of a list, with `separator` between neighbours.
pub open spec fn joined(list: Seq<Seq<char>>, separator: Seq<char>) -> Seq<char>
    decreases list.len(),
{
    if list.len() == 0 {
        Seq::empty()
    } else if list.len() == 1 {
        list[0]
    } else {
        joined(list.drop_last(), separator) + separator + list.last()
    }
}

/// Joins the texts of a list with `separator` between neighbours.
pub fn join(list: &Vec<String>, separator: &str) -> (result: String)
    ensures
        result@ == joined(texts(list@), separator@),
{
    let mut out: String = String::new();
    for i in 0..list.len()
        invariant
            out@ == joined(texts(list@).take(i as int), separator@),
    {
        if i > 0 {
            out.append(separator);
        }
        out.append(&list[i]);
        proof {
            lemma_take_next(texts(list@), i as int);
            assert(texts(list@).take(i + 1).drop_last() == texts(list@).take(i as int));
        }
    }
    assert(texts(list@).take(list@.len() as int) == texts(list@));
    out
}

/// Whether `needle` stands in `s` at position `at`.
pub open spec fn stands_at(s: Seq<char>, needle: Seq<char>, at: int) -> bool {
    0 <= at && at + needle.len() <= s.len() && s.subrange(at, at + needle.len()) == needle
}

/// Whether `needle` stands somewhere in `s`.
pub open spec fn has_text(s: Seq<char>, needle: Seq<char>) -> bool {
    exists|at: int| stands_at(s, needle, at)
}

fn chars_stand_at(s: &Vec<char>, needle: &Vec<char>, at: usize) -> (result: bool)
    requires
        at <= s@.len(),
    ensures
        result == stands_at(s@, needle@, at as int),
{
    if s.len() - at < needle.len() {
        return false;
    }
    for i in 0..needle.len()
        invariant
            at + needle@.len() <= s.len(),
            forall|k: int| 0 <= k < i ==> s@[at + k] == needle@[k],
    {
        if s[at + i] != needle[i] {
            assert(s@.subrange(at as int, at + needle@.len())[i as int] != needle@[i as int]);
            return false;
        }
    }
    assert(s@.subrange(at as int, at + needle@.len()) =~= needle@);
    true
}

/// Whether `needle` stands somewhere in `s`.
pub fn contains(s: &str, needle: &str) -> (result: bool)
    ensures
        result == has_text(s@, needle@),
{
    let chars = to_chars(s);
    let wanted = to_chars(needle);
    let mut at: usize = 0;
    loop
        invariant
            chars@ == s@,
            wanted@ == needle@,
            at <= chars@.len(),
            forall|k: int| 0 <= k < at ==> !stands_at(s@, needle@, k),
        decreases chars@.len() - at,
    {
        if chars_stand_at(&chars, &wanted, at) {
            return true;
        }
        if at == chars.len() {
            return false;
        }
        at = at + 1;
    }
}

/// Whether `s` begins with `prefix`.
pub open spec fn begins_with(s: Seq<char>, prefix: Seq<char>) -> bool {
    stands_at(s, prefix, 0)
}

/// Whether `s` ends with `suffix`.
pub open spec fn finishes_with(s: Seq<char>, suffix: Seq<char>) -> bool {
    stands_at(s, suffix, s.len() - suffix.len())
}

/// Whether `s` begins with `prefix`.
pub fn starts_with(s: &str, prefix: &str) -> (result: bool)
    ensures
        result == begins_with(s@, prefix@),
{
    let chars = to_chars(s);
    let wanted = to_chars(prefix);
    chars_stand_at(&chars, &wanted, 0)
}

/// Whether `s` ends with `suffix`.
pub fn ends_with(s: &str, suffix: &str) -> (result: bool)
    ensures
        result == finishes_with(s@, suffix@),
{
    let chars = to_chars(s);
    let wanted = to_chars(suffix);
    if chars.len() < wanted.len() {
        return false;
    }
    chars_stand_at(&chars, &wanted, chars.len() - wanted.len())
}

/// The text behind `prefix`, where `s` begins with it.
pub open spec fn behind_prefix(s: Seq<char>, prefix: Seq<char>) -> Option<Seq<char>> {
    if begins_with(s, prefix) {
        Some(s.skip(prefix.len() as int))
    } else {
        None
    }
}

/// The text behind `prefix`, where `s` begins with it.
pub fn strip_prefix(s: &str, prefix: &str) -> (result: Option<String>)
    ensures
        opt_text(result) == behind_prefix(s@, prefix@),
{
    let chars = to_chars(s);
    let wanted = to_chars(prefix);
    if chars_stand_at(&chars, &wanted, 0) {
        assert(chars@.subrange(wanted@.len() as int, chars@.len() as int) == s@.skip(
            prefix@.len() as int,
        ));
        Some(from_chars(&chars, wanted.len(), chars.len()))
    } else {
        None
    }
}

/// The text with every occurrence of `part` taken out, found from left to right.
pub open spec fn without_part(s: Seq<char>, part: Seq<char>) -> Seq<char>
    decreases s.len(),
{
    if part.len() == 0 || s.len() < part.len() {
        s
    } else if begins_with(s, part) {
        without_part(s.skip(part.len() as int), part)
    } else {
        seq![s[0]] + without_part(s.drop_first(), part)
    }
}

/// Takes every occurrence of the non-empty `part` out of a text, from left to right.
pub fn remove_part(s: &str, part: &str) -> (result: String)
    requires
        part@.len() > 0,
    ensures
        result@ == without_part(s@, part@),
{
    let chars = to_chars(s);
    let wanted = to_chars(part);
    let mut out: String = String::new();
    let mut at: usize = 0;
    assert(chars@.skip(0) == chars@);
    assert(out@ + without_part(chars@, part@) == without_part(chars@, part@));
    while at < chars.len()
        invariant
            at <= chars@.len(),
            wanted@ == part@,
            part@.len() > 0,
            without_part(chars@, part@) == out@ + without_part(chars@.skip(at as int), part@),
        decreases chars@.len() - at,
    {
        let ghost rest = chars@.skip(at as int);
        let found = chars_stand_at(&chars, &wanted, at);
        proof {
            if at + part@.len() <= chars@.len() {
                assert(rest.subrange(0, part@.len() as int) == chars@.subrange(
                    at as int,
                    at + part@.len(),
                ));
            }
            assert(found == begins_with(rest, part@));
        }
        if found {
            assert(rest.skip(part@.len() as int) == chars@.skip(at + part@.len()));
            at = at + wanted.len();
        } else {
            assert(rest.drop_first() == chars@.skip(at + 1));
            let ghost before = out@;
            out.push(chars[at]);
            proof {
                if rest.len() < part@.len() {
                    assert(chars@.skip(at + 1).len() < part@.len());
                    assert(before + rest == out@ + chars@.skip(at + 1));
                } else {
                    assert(before + (seq![rest[0]] + without_part(rest.drop_first(), part@)) == out@
                        + without_part(chars@.skip(at + 1), part@));
                }
            }
            at = at + 1;
        }
    }
    assert(chars@.skip(at as int) == Seq::<char>::empty());
    assert(out@ + Seq::<char>::empty() == out@);
    out
}

/// The position of the first `c`, or the length where there is none.
pub open spec fn first_position(s: Seq<char>, c: char) -> nat
    decreases s.len(),
{
    if s.len() == 0 || s[0] == c {
        0
    } else {
        1 + first_position(s.drop_first(), c)
    }
}

/// The texts before and behind the first `c`.
pub open spec fn split_at_first(s: Seq<char>, c: char) -> Option<(Seq<char>, Seq<char>)> {
    let at = first_position(s, c) as int;
    if at < s.len() {
        Some((s.take(at), s.skip(at + 1)))
    } else {
        None
    }
}

/// The texts before and behind the first `c`.
pub fn split_once(s: &str, c: char) -> (result: Option<(String, String)>)
    ensures
        match result {
            Some(parts) => split_at_first(s@, c) == Some((parts.0@, parts.1@)),
            None => split_at_first(s@, c) is None,
        },
{
    let chars = to_chars(s);
    let mut at: usize = 0;
    assert(chars@.skip(0) == chars@);
    while at < chars.len() && chars[at] != c
        invariant
            at <= chars@.len(),
            first_position(chars@, c) == at + first_position(chars@.skip(at as int), c),
        decreases chars@.len() - at,
    {
        assert(chars@.skip(at as int).drop_first() == chars@.skip(at + 1));
        at = at + 1;
    }
    if at == chars.len() {
        return None;
    }
    let head = from_chars(&chars, 0, at);
    let tail = from_chars(&chars, at + 1, chars.len());
    assert(head@ == s@.take(at as int));
    assert(tail@ == s@.skip(at + 1));
    Some((head, tail))
}

/// An ASCII capital in lower case; any other character unchanged.
pub open spec fn ascii_lower_char(c: char) -> char {
    if 'A' <= c && c <= 'Z' {
        (c as u32 + 32) as char
    } else {
        c
    }
}

/// A text with its ASCII capitals in lower case.
pub open spec fn ascii_lowered(s: Seq<char>) -> Seq<char> {
    s.map_values(|c: char| ascii_lower_char(c))
}

/// A text with its ASCII capitals in lower case.
pub fn ascii_lower(s: &str) -> (result: String)
    ensures
        result@ == ascii_lowered(s@),
{
    let chars = to_chars(s);
    let mut out: String = String::new();
    for i in 0..chars.len()
        invariant
            out@ == ascii_lowered(chars@).take(i as int),
    {
        let c = chars[i];
        let lower: char = if 'A' <= c && c <= 'Z' {
            (c as u8 + 32) as char
        } else {
            c
        };
        out.push(lower);
        proof {
            lemma_take_next(ascii_lowered(chars@), i as int);
        }
    }
    assert(ascii_lowered(chars@).take(chars@.len() as int) == ascii_lowered(chars@));
    out
}

/// What stands behind a prefix is what follows the prefix in the text.
pub proof fn law_prefix_is_taken_off(s: Seq<char>, prefix: Seq<char>, rest: Seq<char>)
    ensures
        behind_prefix(s, prefix) == Some(rest) <==> s == prefix + rest,
{
    if s == prefix + rest {
        assert(s.subrange(0, prefix.len() as int) =~= prefix);
        assert(s.skip(prefix.len() as int) =~= rest);
    }
    if begins_with(s, prefix) {
        assert(prefix + s.skip(prefix.len() as int) =~= s) by {
            assert(s =~= s.subrange(0, prefix.len() as int) + s.skip(prefix.len() as int));
        }
    }
}

/// The parts on either side of the first separator make up the text, and the first part has no
/// separator.
pub proof fn law_split_at_first(s: Seq<char>, c: char)
    ensures
        match split_at_first(s, c) {
            Some(parts) => s == parts.0 + seq![c] + parts.1 && !parts.0.contains(c),
            None => !s.contains(c),
        },
    decreases s.len(),
{
    if s.len() > 0 {
        let rest = s.drop_first();
        law_split_at_first(rest, c);
        if s[0] == c {
            assert(s =~= s.take(0) + seq![c] + s.skip(1));
        } else {
            match split_at_first(rest, c) {
                Some(parts) => {
                    let at = first_position(rest, c) as int;
                    assert(s.take(at + 1) =~= seq![s[0]] + parts.0);
                    assert(s.skip(at + 2) =~= parts.1);
                    assert(s =~= seq![s[0]] + rest);
                    assert(s =~= s.take(at + 1) + seq![c] + s.skip(at + 2));
                    let head = s.take(at + 1);
                    assert forall|k: int| 0 <= k < head.len() implies #[trigger] head[k] != c by {
                        if k > 0 {
                            assert(head[k] == parts.0[k - 1]);
                        }
                    }
                },
                None => {
                    assert forall|k: int| 0 <= k < s.len() implies s[k] != c by {
                        if k > 0 {
                            assert(s[k] == rest[k - 1]);
                        }
                    }
                },
            }
        }
    }
}

/// Whether a text is white space throughout.
pub open spec fn all_space(s: Seq<char>) -> bool {
    forall|i: int| 0 <= i < s.len() ==> white_space(#[trigger] s[i])
}

/// Whether no character of a text is white space.
pub open spec fn no_space(s: Seq<char>) -> bool {
    forall|i: int| 0 <= i < s.len() ==> !white_space(#[trigger] s[i])
}

/// Trimming takes away white space alone, at either end, and leaves none there.
pub proof fn law_trimmed(s: Seq<char>) -> (ends: (Seq<char>, Seq<char>))
    ensures
        s == ends.0 + trimmed(s) + ends.1,
        all_space(ends.0),
        all_space(ends.1),
        trimmed(s).len() > 0 ==> !white_space(trimmed(s)[0]) && !white_space(trimmed(s).last()),
{
    let head = lemma_leading_space(s);
    let rest = without_leading_space(s);
    let tail = lemma_trailing_space(rest);
    assert(s =~= head + trimmed(s) + tail);
    if trimmed(s).len() > 0 {
        assert(trimmed(s)[0] == rest[0]);
    }
    (head, tail)
}

proof fn lemma_leading_space(s: Seq<char>) -> (head: Seq<char>)
    ensures
        s == head + without_leading_space(s),
        all_space(head),
        without_leading_space(s).len() > 0 ==> !white_space(without_leading_space(s)[0]),
    decreases s.len(),
{
    if s.len() > 0 && white_space(s[0]) {
        let head = lemma_leading_space(s.drop_first());
        assert(s =~= seq![s[0]] + s.drop_first());
        assert(s =~= seq![s[0]] + head + without_leading_space(s));
        seq![s[0]] + head
    } else {
        assert(s =~= Seq::<char>::empty() + s);
        Seq::empty()
    }
}

proof fn lemma_trailing_space(s: Seq<char>) -> (tail: Seq<char>)
    ensures
        s == without_trailing_space(s) + tail,
        all_space(tail),
        without_trailing_space(s).len() > 0 ==> !white_space(without_trailing_space(s).last()),
    decreases s.len(),
{
    if s.len() > 0 && white_space(s.last()) {
        let tail = lemma_trailing_space(s.drop_last());
        assert(s =~= s.drop_last().push(s.last()));
        assert(s =~= without_trailing_space(s) + tail.push(s.last()));
        tail.push(s.last())
    } else {
        assert(s =~= s + Seq::<char>::empty());
        Seq::empty()
    }
}

/// A text that is not empty and has no white space is one word; and white space parts the words
/// before it from those behind.
pub proof fn law_words(a: Seq<char>, c: char, b: Seq<char>)
    requires
        white_space(c),
    ensures
        words(a + seq![c] + b) == words(a) + words(b),
        a.len() > 0 && no_space(a) ==> words(a) == seq![a],
        words(Seq::<char>::empty()).len() == 0,
    decreases a.len(),
{
    let s = a + seq![c] + b;
    if a.len() == 0 {
        assert(s.drop_first() =~= b);
        assert(words(a) + words(b) =~= words(b));
    } else if white_space(a[0]) {
        law_words(a.drop_first(), c, b);
        assert(s.drop_first() =~= a.drop_first() + seq![c] + b);
    } else {
        let n = word_length(a) as int;
        lemma_word_length(a);
        lemma_word_before_space(a, c, b);
        assert(s.take(n) =~= a.take(n));
        assert(s.skip(n) =~= a.skip(n) + seq![c] + b);
        assert(n > 0);
        law_words(a.skip(n), c, b);
        assert(seq![a.take(n)] + words(a.skip(n)) + words(b) =~= seq![a.take(n)] + (words(a.skip(n))
            + words(b)));
        if no_space(a) {
            lemma_long_word(a);
            assert(a.take(n) =~= a);
            assert(words(a.skip(n)) =~= Seq::empty());
        }
    }
}

proof fn lemma_word_before_space(a: Seq<char>, c: char, b: Seq<char>)
    requires
        white_space(c),
    ensures
        word_length(a + seq![c] + b) == word_length(a),
    decreases a.len(),
{
    let s = a + seq![c] + b;
    if a.len() > 0 && !white_space(a[0]) {
        lemma_word_before_space(a.drop_first(), c, b);
        assert(s.drop_first() =~= a.drop_first() + seq![c] + b);
    }
}

proof fn lemma_long_word(a: Seq<char>)
    requires
        no_space(a),
    ensures
        word_length(a) == a.len(),
    decreases a.len(),
{
    if a.len() > 0 {
        let rest = a.drop_first();
        assert forall|i: int| 0 <= i < rest.len() implies !white_space(#[trigger] rest[i]) by {
            assert(rest[i] == a[i + 1]);
        }
        assert(!white_space(a[0]));
        lemma_long_word(rest);
    }
}

/// A list of one text joins to that text, and two lists join to what each joins to, with the
/// separator between.
pub proof fn law_joined(a: Seq<Seq<char>>, b: Seq<Seq<char>>, separator: Seq<char>)
    requires
        a.len() > 0,
        b.len() > 0,
    ensures
        joined(a + b, separator) == joined(a, separator) + separator + joined(b, separator),
        a.len() == 1 ==> joined(a, separator) == a[0],
        joined(Seq::<Seq<char>>::empty(), separator).len() == 0,
    decreases b.len(),
{
    assert((a + b).drop_last() =~= a + b.drop_last());
    if b.len() == 1 {
        assert(b.drop_last() =~= Seq::empty());
        assert(a + b.drop_last() =~= a);
        assert(joined(b, separator) =~= b[0]);
    } else {
        law_joined(a, b.drop_last(), separator);
        assert(joined(a, separator) + separator + (joined(b.drop_last(), separator) + separator
            + b.last()) =~= joined(a, separator) + separator + joined(b.drop_last(), separator)
            + separator + b.last());
    }
    if a.len() == 1 {
        assert(a.drop_last() =~= Seq::empty());
        assert(joined(a, separator) =~= a[0]);
    }
}

/// Capitals of ASCII become their small letters, and all else stays.
pub proof fn law_ascii_lowered(s: Seq<char>, i: int)
    requires
        0 <= i < s.len(),
    ensures
        ascii_lowered(s).len() == s.len(),
        'A' <= s[i] <= 'Z' ==> ascii_lowered(s)[i] as int == s[i] as int + 32,
        !('A' <= s[i] <= 'Z') ==> ascii_lowered(s)[i] == s[i],
{
}

/// The first occurrence of a part is taken out, together with those behind it; a text without the
/// part stays as it is.
pub proof fn law_part_is_taken_out(s: Seq<char>, part: Seq<char>, at: int)
    requires
        part.len() > 0,
    ensures
        !has_text(s, part) ==> without_part(s, part) == s,
        stands_at(s, part, at) && (forall|k: int| 0 <= k < at ==> !stands_at(s, part, k))
            ==> without_part(s, part) == s.take(at) + without_part(
            s.skip(at + part.len()),
            part,
        ),
    decreases s.len(),
{
    if s.len() >= part.len() {
        let rest = s.drop_first();
        law_part_is_taken_out(rest, part, at - 1);
        if !has_text(s, part) {
            assert(!stands_at(s, part, 0));
            assert forall|k: int| !stands_at(rest, part, k) by {
                if stands_at(rest, part, k) {
                    assert(s.subrange(k + 1, k + 1 + part.len()) =~= rest.subrange(
                        k,
                        k + part.len(),
                    ));
                    assert(stands_at(s, part, k + 1));
                }
            }
            assert(s =~= seq![s[0]] + rest);
        }
        if stands_at(s, part, at) && (forall|k: int| 0 <= k < at ==> !stands_at(s, part, k)) {
            if at == 0 {
                assert(s.take(0) + without_part(s.skip(part.len() as int), part)
                    =~= without_part(s.skip(part.len() as int), part));
            } else {
                assert(!stands_at(s, part, 0));
                assert(rest.subrange(at - 1, at - 1 + part.len()) =~= s.subrange(
                    at,
                    at + part.len(),
                ));
                assert forall|k: int| 0 <= k < at - 1 implies !stands_at(rest, part, k) by {
                    if stands_at(rest, part, k) {
                        assert(s.subrange(k + 1, k + 1 + part.len()) =~= rest.subrange(
                            k,
                            k + part.len(),
                        ));
                        assert(stands_at(s, part, k + 1));
                    }
                }
                assert(rest.skip(at - 1 + part.len()) =~= s.skip(at + part.len()));
                assert(s.take(at) =~= seq![s[0]] + rest.take(at - 1));
                assert(seq![s[0]] + (rest.take(at - 1) + without_part(
                    s.skip(at + part.len()),
                    part,
                )) =~= s.take(at) + without_part(s.skip(at + part.len()), part));
            }
        }
    }
}

/// What stands in a text stands in a longer one.
pub broadcast proof fn lemma_stays_inside(s: Seq<char>, tail: Seq<char>, needle: Seq<char>)
    requires
        has_text(s, needle),
    ensures
        #[trigger] has_text(s + tail, needle),
{
    let at = choose|at: int| stands_at(s, needle, at);
    assert((s + tail).subrange(at, at + needle.len()) =~= needle);
    assert(stands_at(s + tail, needle, at));
}

/// Three texts that follow each other stand together at the end of a text.
pub proof fn lemma_stands_last(s: Seq<char>, a: Seq<char>, b: Seq<char>, c: Seq<char>)
    ensures
        has_text(s + a + b + c, a + b + c),
{
    let all = s + a + b + c;
    let needle = a + b + c;
    let at = s.len() as int;
    assert(all.subrange(at, at + needle.len()) =~= needle);
    assert(stands_at(all, needle, at));
}

} // verus!
