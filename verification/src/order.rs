use crate::text::{list_has, same};
use crate::views::{group_texts, lemma_take_next, texts};
use vstd::prelude::*;
use vstd::std_specs::iter::IteratorSpec;

verus! {

broadcast use group_texts;

/// Whether `a` comes before `b` in the order of code points, shorter texts before longer ones
/// that they begin.
pub open spec fn text_before(a: Seq<char>, b: Seq<char>) -> bool
    decreases a.len(),
{
    if b.len() == 0 {
        false
    } else if a.len() == 0 {
        true
    } else if a[0] != b[0] {
        a[0] < b[0]
    } else {
        text_before(a.drop_first(), b.drop_first())
    }
}

/// No text comes before itself.
pub proof fn lemma_before_irreflexive(a: Seq<char>)
    ensures
        !text_before(a, a),
    decreases a.len(),
{
    if a.len() > 0 {
        lemma_before_irreflexive(a.drop_first());
    }
}

/// The order of texts is transitive.
pub proof fn lemma_before_transitive(a: Seq<char>, b: Seq<char>, c: Seq<char>)
    requires
        text_before(a, b),
        text_before(b, c),
    ensures
        text_before(a, c),
    decreases a.len(),
{
    if a.len() > 0 && a[0] == b[0] && b[0] == c[0] {
        lemma_before_transitive(a.drop_first(), b.drop_first(), c.drop_first());
    }
}

/// Of two different texts one comes before the other.
pub proof fn lemma_before_total(a: Seq<char>, b: Seq<char>)
    ensures
        a == b || text_before(a, b) || text_before(b, a),
    decreases a.len(),
{
    if a.len() > 0 && b.len() > 0 && a[0] == b[0] {
        lemma_before_total(a.drop_first(), b.drop_first());
        if a.drop_first() == b.drop_first() {
            assert(a == seq![a[0]] + a.drop_first());
            assert(b == seq![b[0]] + b.drop_first());
        }
    } else if a.len() == 0 && b.len() == 0 {
        assert(a == b);
    }
}

/// Whether `a` comes before `b`.
pub fn comes_before(a: &str, b: &str) -> (result: bool)
    ensures
        result == text_before(a@, b@),
{
    let mut right = b.chars();
    assert(a@.skip(0) == a@);
    assert(b@.skip(0) == b@);
    for c in it: a.chars()
        invariant
            it.seq() == a@,
            it.index() <= b@.len(),
            IteratorSpec::obeys_prophetic_iter_laws(&right),
            IteratorSpec::remaining(&right) == b@.skip(it.index()),
            text_before(a@, b@) == text_before(a@.skip(it.index()), b@.skip(it.index())),
    {
        let ghost at = it.index();
        assert(a@.skip(at).drop_first() == a@.skip(at + 1));
        match right.next() {
            None => {
                return false;
            },
            Some(d) => {
                assert(b@.skip(at).drop_first() == b@.skip(at + 1));
                if c != d {
                    return c < d;
                }
            },
        }
    }
    right.next().is_some()
}

/// Whether a list of texts is in order, without repetition.
pub open spec fn strictly_sorted(list: Seq<Seq<char>>) -> bool {
    forall|i: int, j: int|
        0 <= i < j < list.len() ==> text_before(#[trigger] list[i], #[trigger] list[j])
}

/// In a sorted list, the position from which on no text comes before `value`.
fn sorted_position(list: &Vec<String>, value: &str) -> (result: usize)
    requires
        strictly_sorted(texts(list@)),
    ensures
        result <= list@.len(),
        forall|i: int| 0 <= i < result ==> text_before(#[trigger] texts(list@)[i], value@),
        forall|i: int|
            result <= i < list@.len() ==> !text_before(#[trigger] texts(list@)[i], value@),
{
    let mut low: usize = 0;
    let mut high: usize = list.len();
    while low < high
        invariant
            low <= high <= list@.len(),
            strictly_sorted(texts(list@)),
            forall|i: int| 0 <= i < low ==> text_before(#[trigger] texts(list@)[i], value@),
            forall|i: int|
                high <= i < list@.len() ==> !text_before(#[trigger] texts(list@)[i], value@),
        decreases high - low,
    {
        let middle: usize = low + (high - low) / 2;
        let ghost at = texts(list@)[middle as int];
        if comes_before(&list[middle], value) {
            proof {
                assert forall|i: int| 0 <= i <= middle implies text_before(
                    #[trigger] texts(list@)[i],
                    value@,
                ) by {
                    if i < middle {
                        lemma_before_transitive(texts(list@)[i], at, value@);
                    }
                }
            }
            low = middle + 1;
        } else {
            proof {
                assert forall|i: int| middle <= i < list@.len() implies !text_before(
                    #[trigger] texts(list@)[i],
                    value@,
                ) by {
                    if i > middle && text_before(texts(list@)[i], value@) {
                        lemma_before_transitive(at, texts(list@)[i], value@);
                    }
                }
            }
            high = middle;
        }
    }
    low
}

/// Adds a text to a sorted list, unless it is there.
pub fn insert_sorted(list: &mut Vec<String>, value: String)
    requires
        strictly_sorted(texts(old(list)@)),
    ensures
        strictly_sorted(texts(final(list)@)),
        texts(final(list)@).to_set() == texts(old(list)@).to_set().insert(value@),
{
    let at: usize = sorted_position(list, &value);
    let ghost before = texts(list@);
    let ghost v = value@;
    if at < list.len() && same(&list[at], &value) {
        assert(before[at as int] == v);
        assert(before.to_set().insert(v) =~= before.to_set());
        return;
    }
    list.insert(at, value);
    proof {
        assert(texts(list@) =~= before.insert(at as int, v));
        let after = texts(list@);
        assert forall|i: int, j: int| 0 <= i < j < after.len() implies text_before(
            #[trigger] after[i],
            #[trigger] after[j],
        ) by {
            if j == at {
                assert(after[i] == before[i]);
            } else if i == at {
                assert(after[j] == before[j - 1]);
                lemma_before_total(before[j - 1], v);
                if at < j - 1 {
                    lemma_before_total(before[at as int], v);
                    assert(text_before(v, before[at as int]));
                    lemma_before_transitive(v, before[at as int], before[j - 1]);
                }
            } else {
                let a = if i < at {
                    i
                } else {
                    i - 1
                };
                let b = if j < at {
                    j
                } else {
                    j - 1
                };
                assert(after[i] == before[a]);
                assert(after[j] == before[b]);
            }
        }
        assert(after.to_set() =~= before.to_set().insert(v)) by {
            assert forall|t: Seq<char>| after.to_set().contains(t) == before.to_set().insert(
                v,
            ).contains(t) by {
                if before.contains(t) {
                    let i = before.index_of(t);
                    let k = if i < at {
                        i
                    } else {
                        i + 1
                    };
                    assert(after[k] == t);
                }
                if t == v {
                    assert(after[at as int] == t);
                }
                if after.contains(t) && t != v {
                    let i = after.index_of(t);
                    let k = if i < at {
                        i
                    } else {
                        i - 1
                    };
                    assert(before[k] == t);
                }
            }
        }
    }
}

/// A sorted list is fixed by the texts that it holds.
pub proof fn law_sorted_list_is_unique(a: Seq<Seq<char>>, b: Seq<Seq<char>>)
    requires
        strictly_sorted(a),
        strictly_sorted(b),
        a.to_set() == b.to_set(),
    ensures
        a == b,
    decreases a.len(),
{
    if a.len() == 0 {
        if b.len() > 0 {
            assert(b.to_set().contains(b[0]));
            assert(a.contains(b[0]));
        }
        assert(a =~= b);
    } else {
        let last = a.last();
        assert(a.to_set().contains(last));
        assert(b.contains(last));
        let k = b.index_of(last);
        assert(a.contains(b.last())) by {
            assert(b.to_set().contains(b.last()));
        }
        let m = a.index_of(b.last());
        lemma_before_irreflexive(last);
        if k < b.len() - 1 {
            assert(text_before(b[k], b[b.len() - 1]));
            if m < a.len() - 1 {
                assert(text_before(a[m], a[a.len() - 1]));
                lemma_before_transitive(last, b.last(), last);
            }
        }
        assert(b.last() == last);
        let x = a.drop_last();
        let y = b.drop_last();
        assert(strictly_sorted(x)) by {
            assert forall|i: int, j: int| 0 <= i < j < x.len() implies text_before(
                #[trigger] x[i],
                #[trigger] x[j],
            ) by {
                assert(text_before(a[i], a[j]));
            }
        }
        assert(strictly_sorted(y)) by {
            assert forall|i: int, j: int| 0 <= i < j < y.len() implies text_before(
                #[trigger] y[i],
                #[trigger] y[j],
            ) by {
                assert(text_before(b[i], b[j]));
            }
        }
        assert(x.to_set() =~= y.to_set()) by {
            assert forall|t: Seq<char>| x.to_set().contains(t) == y.to_set().contains(t) by {
                if x.contains(t) {
                    let i = x.index_of(t);
                    assert(a[i] == t);
                    assert(text_before(a[i], a[a.len() - 1]));
                    assert(a.to_set().contains(t));
                    let j = b.index_of(t);
                    assert(y[j] == t);
                }
                if y.contains(t) {
                    let i = y.index_of(t);
                    assert(b[i] == t);
                    assert(text_before(b[i], b[b.len() - 1]));
                    assert(b.to_set().contains(t));
                    let j = a.index_of(t);
                    assert(x[j] == t);
                }
            }
        }
        law_sorted_list_is_unique(x, y);
        assert(a == x.push(last));
        assert(b == y.push(last));
    }
}

/// The texts of a list, sorted, each once.
pub open spec fn sorted_texts(list: Seq<Seq<char>>) -> Seq<Seq<char>> {
    choose|sorted: Seq<Seq<char>>|
        #[trigger] strictly_sorted(sorted) && sorted.to_set() == list.to_set()
}

/// A sorted list with one more text.
proof fn lemma_sorted_with(list: Seq<Seq<char>>, value: Seq<char>) -> (sorted: Seq<Seq<char>>)
    requires
        strictly_sorted(list),
    ensures
        strictly_sorted(sorted),
        forall|t: Seq<char>| #[trigger]
            sorted.contains(t) <==> list.contains(t) || t == value,
    decreases list.len(),
{
    if list.len() == 0 {
        let one = seq![value];
        assert(one[0] == value);
        one
    } else {
        let last = list.last();
        let rest = list.drop_last();
        assert(list == rest.push(last));
        assert(list[list.len() - 1] == last);
        assert forall|i: int| 0 <= i < rest.len() implies text_before(#[trigger] rest[i], last) by {
            assert(text_before(list[i], list[list.len() - 1]));
        }
        assert forall|i: int, j: int| 0 <= i < j < rest.len() implies text_before(
            #[trigger] rest[i],
            #[trigger] rest[j],
        ) by {
            assert(text_before(list[i], list[j]));
        }
        assert forall|t: Seq<char>| list.contains(t) <==> rest.contains(t) || t == last by {
            if rest.contains(t) {
                assert(list[rest.index_of(t)] == t);
            }
        }
        if last == value {
            list
        } else if text_before(last, value) {
            let grown = list.push(value);
            assert forall|i: int, j: int| 0 <= i < j < grown.len() implies text_before(
                #[trigger] grown[i],
                #[trigger] grown[j],
            ) by {
                if j == list.len() {
                    assert(grown[i] == list[i]);
                    if i < rest.len() {
                        assert(rest[i] == list[i]);
                        lemma_before_transitive(list[i], last, value);
                    }
                } else {
                    assert(text_before(list[i], list[j]));
                }
            }
            assert forall|t: Seq<char>| #[trigger]
                grown.contains(t) <==> list.contains(t) || t == value by {
                if list.contains(t) {
                    assert(grown[list.index_of(t)] == t);
                }
                assert(grown[list.len() as int] == value);
            }
            grown
        } else {
            lemma_before_total(last, value);
            let below = lemma_sorted_with(rest, value);
            let grown = below.push(last);
            assert forall|i: int, j: int| 0 <= i < j < grown.len() implies text_before(
                #[trigger] grown[i],
                #[trigger] grown[j],
            ) by {
                if j == below.len() {
                    assert(below.contains(below[i]));
                    if rest.contains(below[i]) {
                        assert(rest[rest.index_of(below[i])] == below[i]);
                    }
                } else {
                    assert(text_before(below[i], below[j]));
                }
            }
            assert forall|t: Seq<char>| #[trigger]
                grown.contains(t) <==> list.contains(t) || t == value by {
                if below.contains(t) {
                    assert(grown[below.index_of(t)] == t);
                }
                assert(grown[below.len() as int] == last);
            }
            grown
        }
    }
}

/// Every list can be sorted.
proof fn lemma_sortable(list: Seq<Seq<char>>) -> (sorted: Seq<Seq<char>>)
    ensures
        strictly_sorted(sorted),
        sorted.to_set() == list.to_set(),
    decreases list.len(),
{
    if list.len() == 0 {
        list
    } else {
        let rest = list.drop_last();
        let below = lemma_sortable(rest);
        let sorted = lemma_sorted_with(below, list.last());
        assert(list == rest.push(list.last()));
        assert forall|t: Seq<char>| sorted.to_set().contains(t) == list.to_set().contains(t) by {
            assert(below.to_set().contains(t) == rest.to_set().contains(t));
            assert(sorted.contains(t) <==> below.contains(t) || t == list.last());
            if rest.contains(t) {
                assert(list[rest.index_of(t)] == t);
            }
            if t == list.last() {
                assert(list[list.len() - 1] == t);
            }
        }
        assert(sorted.to_set() =~= list.to_set());
        sorted
    }
}

/// A sorted list is in order, and has the texts of the list and no others.
pub proof fn law_sorting_keeps_the_texts(list: Seq<Seq<char>>)
    ensures
        strictly_sorted(sorted_texts(list)),
        sorted_texts(list).to_set() == list.to_set(),
{
    let sorted = lemma_sortable(list);
    assert(strictly_sorted(sorted) && sorted.to_set() == list.to_set());
}

/// A sorted list with the texts of another is that list sorted.
pub proof fn lemma_sorted_texts(sorted: Seq<Seq<char>>, list: Seq<Seq<char>>)
    requires
        strictly_sorted(sorted),
        sorted.to_set() == list.to_set(),
    ensures
        sorted == sorted_texts(list),
{
    law_sorted_list_is_unique(sorted, sorted_texts(list));
}

/// The texts of a list, sorted, each once.
pub fn sort_unique(list: &Vec<String>) -> (result: Vec<String>)
    ensures
        strictly_sorted(texts(result@)),
        texts(result@).to_set() == texts(list@).to_set(),
        texts(result@) == sorted_texts(texts(list@)),
{
    let mut out: Vec<String> = Vec::new();
    assert(texts(list@).take(0).to_set() =~= texts(out@).to_set());
    for i in 0..list.len()
        invariant
            strictly_sorted(texts(out@)),
            texts(out@).to_set() == texts(list@).take(i as int).to_set(),
    {
        insert_sorted(&mut out, list[i].clone());
        proof {
            lemma_take_next(texts(list@), i as int);
            lemma_push_to_set(texts(list@).take(i as int), texts(list@)[i as int]);
        }
    }
    proof {
        assert(texts(list@).take(list@.len() as int) == texts(list@));
        lemma_sorted_texts(texts(out@), texts(list@));
    }
    out
}

/// Appending an element adds it to the elements.
pub proof fn lemma_push_to_set<T>(s: Seq<T>, x: T)
    ensures
        s.push(x).to_set() == s.to_set().insert(x),
{
    assert forall|t: T| s.push(x).to_set().contains(t) == s.to_set().insert(x).contains(t) by {
        if s.contains(t) {
            assert(s.push(x)[s.index_of(t)] == t);
        }
        if t == x {
            assert(s.push(x)[s.len() as int] == t);
        }
        if s.push(x).contains(t) && t != x {
            assert(s[s.push(x).index_of(t)] == t);
        }
    }
    assert(s.push(x).to_set() =~= s.to_set().insert(x));
}

/// The non-empty texts of a list, each where it stands first.
pub open spec fn first_occurrences(list: Seq<Seq<char>>) -> Seq<Seq<char>>
    decreases list.len(),
{
    if list.len() == 0 {
        Seq::empty()
    } else {
        with_new(first_occurrences(list.drop_last()), list.last())
    }
}

/// A list with a text appended, unless the text is empty or in the list.
pub open spec fn with_new(list: Seq<Seq<char>>, value: Seq<char>) -> Seq<Seq<char>> {
    if value.len() == 0 || list.contains(value) {
        list
    } else {
        list.push(value)
    }
}

/// A list with the new texts of `values` appended, one by one.
pub open spec fn with_all_new(list: Seq<Seq<char>>, values: Seq<Seq<char>>) -> Seq<Seq<char>>
    decreases values.len(),
{
    if values.len() == 0 {
        list
    } else {
        with_new(with_all_new(list, values.drop_last()), values.last())
    }
}

/// Appends a text to a list, unless it is empty or in the list; says whether it was appended.
pub fn push_new(list: &mut Vec<String>, value: String) -> (added: bool)
    ensures
        texts(final(list)@) == with_new(texts(old(list)@), value@),
        added == (value@.len() > 0 && !texts(old(list)@).contains(value@)),
{
    if value.as_str().is_empty() || list_has(list, &value) {
        return false;
    }
    list.push(value);
    true
}

/// Appends the new texts of `values` to a list.
pub fn merge_unique(target: &mut Vec<String>, values: Vec<String>)
    ensures
        texts(final(target)@) == with_all_new(texts(old(target)@), texts(values@)),
{
    let ghost before = texts(target@);
    for i in 0..values.len()
        invariant
            texts(target@) == with_all_new(before, texts(values@).take(i as int)),
    {
        push_new(target, values[i].clone());
        proof {
            lemma_take_next(texts(values@), i as int);
            assert(texts(values@).take(i + 1).drop_last() == texts(values@).take(i as int));
        }
    }
    assert(texts(values@).take(values@.len() as int) == texts(values@));
}

/// The non-empty texts of a list, each once, in the order of their first occurrence.
pub fn dedup(values: Vec<String>) -> (result: Vec<String>)
    ensures
        texts(result@) == first_occurrences(texts(values@)),
{
    let mut out: Vec<String> = Vec::new();
    for i in 0..values.len()
        invariant
            texts(out@) == first_occurrences(texts(values@).take(i as int)),
    {
        push_new(&mut out, values[i].clone());
        proof {
            lemma_take_next(texts(values@), i as int);
            assert(texts(values@).take(i + 1).drop_last() == texts(values@).take(i as int));
        }
    }
    assert(texts(values@).take(values@.len() as int) == texts(values@));
    out
}

/// Deduplication keeps every non-empty text, invents none, and leaves no repetition.
pub proof fn law_first_occurrences(list: Seq<Seq<char>>)
    ensures
        first_occurrences(list).no_duplicates(),
        forall|t: Seq<char>|
            first_occurrences(list).contains(t) <==> #[trigger] list.contains(t) && t.len() > 0,
    decreases list.len(),
{
    if list.len() > 0 {
        let init = list.drop_last();
        let kept = first_occurrences(init);
        law_first_occurrences(init);
        assert forall|t: Seq<char>|
            first_occurrences(list).contains(t) <==> #[trigger] list.contains(t) && t.len() > 0 by {
            assert(list == init.push(list.last()));
            assert(list.contains(t) <==> init.contains(t) || t == list.last()) by {
                lemma_push_to_set(init, list.last());
                assert(list.to_set().contains(t) <==> init.to_set().insert(list.last()).contains(
                    t,
                ));
            }
            if first_occurrences(list) != kept {
                lemma_push_to_set(kept, list.last());
                assert(first_occurrences(list).to_set().contains(t) <==> kept.to_set().insert(
                    list.last(),
                ).contains(t));
            }
        }
    }
}

/// A list without empty texts and repetitions is left as it is.
pub proof fn law_dedup_is_idempotent(list: Seq<Seq<char>>)
    ensures
        first_occurrences(first_occurrences(list)) == first_occurrences(list),
{
    law_first_occurrences(list);
    let kept = first_occurrences(list);
    assert(forall|i: int| 0 <= i < kept.len() ==> kept.contains(kept[i]));
    assert forall|i: int| 0 <= i < kept.len() implies #[trigger] kept[i].len() > 0 by {
        assert(kept.contains(kept[i]));
        assert(list.contains(kept[i]));
    }
    lemma_distinct_kept(kept);
}

proof fn lemma_distinct_kept(list: Seq<Seq<char>>)
    requires
        list.no_duplicates(),
        forall|i: int| 0 <= i < list.len() ==> #[trigger] list[i].len() > 0,
    ensures
        first_occurrences(list) == list,
    decreases list.len(),
{
    if list.len() > 0 {
        let init = list.drop_last();
        assert forall|i: int| 0 <= i < init.len() implies #[trigger] init[i].len() > 0 by {
            assert(list[i].len() > 0);
        }
        lemma_distinct_kept(init);
        assert(!init.contains(list.last())) by {
            if init.contains(list.last()) {
                let i = init.index_of(list.last());
                assert(list[i] == list[list.len() - 1]);
            }
        }
        assert(list[list.len() - 1].len() > 0);
        assert(list == init.push(list.last()));
    } else {
        assert(list =~= Seq::empty());
    }
}

proof fn lemma_merge_of_known(list: Seq<Seq<char>>, values: Seq<Seq<char>>)
    requires
        forall|i: int|
            0 <= i < values.len() ==> (#[trigger] values[i]).len() == 0 || list.contains(values[i]),
    ensures
        with_all_new(list, values) == list,
    decreases values.len(),
{
    if values.len() > 0 {
        let init = values.drop_last();
        assert forall|i: int| 0 <= i < init.len() implies (#[trigger] init[i]).len() == 0
            || list.contains(init[i]) by {
            assert(values[i].len() == 0 || list.contains(values[i]));
        }
        lemma_merge_of_known(list, init);
        let last = values[values.len() - 1];
        assert(last.len() == 0 || list.contains(last));
    }
}

/// A second merge of the same values changes nothing.
pub proof fn law_merge_is_idempotent(list: Seq<Seq<char>>, values: Seq<Seq<char>>)
    ensures
        with_all_new(with_all_new(list, values), values) == with_all_new(list, values),
{
    law_merge_unique(list, values);
    lemma_merge_of_known(with_all_new(list, values), values);
}

/// Merging appends behind what is there, and leaves out no non-empty value.
pub proof fn law_merge_unique(list: Seq<Seq<char>>, values: Seq<Seq<char>>)
    ensures
        list.is_prefix_of(with_all_new(list, values)),
        forall|i: int|
            0 <= i < values.len() && values[i].len() > 0 ==> with_all_new(list, values).contains(
                #[trigger] values[i],
            ),
    decreases values.len(),
{
    if values.len() > 0 {
        let init = values.drop_last();
        law_merge_unique(list, init);
        let mid = with_all_new(list, init);
        assert forall|i: int| 0 <= i < values.len() && values[i].len() > 0 implies with_all_new(
            list,
            values,
        ).contains(#[trigger] values[i]) by {
            let all = with_all_new(list, values);
            assert(all == with_new(mid, values.last()));
            lemma_push_to_set(mid, values.last());
            if i < init.len() {
                assert(init[i] == values[i]);
                assert(mid.to_set().contains(values[i]));
            } else {
                assert(values[i] == values.last());
            }
            assert(all.to_set().contains(values[i]));
        }
    }
}

/// A merged list holds what was in it and what was added to it but for empty texts, and nothing
/// else.
pub proof fn law_merged(list: Seq<Seq<char>>, values: Seq<Seq<char>>, text: Seq<char>)
    ensures
        with_all_new(list, values).contains(text) <==> list.contains(text) || (values.contains(text)
            && text.len() > 0),
    decreases values.len(),
{
    if values.len() > 0 {
        let init = values.drop_last();
        let mid = with_all_new(list, init);
        let all = with_all_new(list, values);
        law_merged(list, init, text);
        assert(values =~= init.push(values.last()));
        if values.contains(text) {
            let k = values.index_of(text);
            assert(k < init.len() ==> init[k] == text);
        }
        if init.contains(text) {
            let k = init.index_of(text);
            assert(values[k] == text);
        }
        assert(values[values.len() - 1] == values.last());
        if mid.contains(text) {
            let k = mid.index_of(text);
            assert(all[k] == text);
        }
        if all.contains(text) {
            let k = all.index_of(text);
            assert(k < mid.len() ==> mid[k] == text);
        }
        if values.last() == text && text.len() > 0 && !mid.contains(text) {
            assert(all[mid.len() as int] == text);
        }
    }
}

/// What is merged into a list stands behind it, in its own order.
pub proof fn law_merging_goes_on(list: Seq<Seq<char>>, a: Seq<Seq<char>>, b: Seq<Seq<char>>)
    ensures
        with_all_new(list, a + b) == with_all_new(with_all_new(list, a), b),
    decreases b.len(),
{
    if b.len() == 0 {
        assert(a + b =~= a);
    } else {
        law_merging_goes_on(list, a, b.drop_last());
        assert((a + b).drop_last() =~= a + b.drop_last());
    }
}

/// The first occurrences of a list stand in its order.
pub proof fn law_occurrences_keep_their_order(a: Seq<Seq<char>>, b: Seq<Seq<char>>)
    ensures
        first_occurrences(a).is_prefix_of(first_occurrences(a + b)),
    decreases b.len(),
{
    if b.len() == 0 {
        assert(a + b =~= a);
    } else {
        law_occurrences_keep_their_order(a, b.drop_last());
        assert((a + b).drop_last() =~= a + b.drop_last());
        let before = first_occurrences(a + b.drop_last());
        assert(before.is_prefix_of(first_occurrences(a + b)));
    }
}

} // verus!
