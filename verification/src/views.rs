use vstd::prelude::*;

verus! {

/// The text of a list of strings.
pub open spec fn texts(list: Seq<String>) -> Seq<Seq<char>> {
    list.map_values(|s: String| s@)
}

/// The text of an optional string.
pub open spec fn opt_text(value: Option<String>) -> Option<Seq<char>> {
    match value {
        Some(s) => Some(s@),
        None => None,
    }
}

/// The text of a list of string pairs.
pub open spec fn pair_texts(list: Seq<(String, String)>) -> Seq<(Seq<char>, Seq<char>)> {
    list.map_values(|p: (String, String)| (p.0@, p.1@))
}

/// Appending a string appends its text.
pub broadcast proof fn lemma_texts_push(list: Seq<String>, s: String)
    ensures
        #[trigger] texts(list.push(s)) == texts(list).push(s@),
{
    assert(texts(list.push(s)) =~= texts(list).push(s@));
}

/// Appending a pair appends its texts.
pub broadcast proof fn lemma_pair_texts_push(list: Seq<(String, String)>, p: (String, String))
    ensures
        #[trigger] pair_texts(list.push(p)) == pair_texts(list).push((p.0@, p.1@)),
{
    assert(pair_texts(list.push(p)) =~= pair_texts(list).push((p.0@, p.1@)));
}

/// The empty list has no texts.
pub broadcast proof fn lemma_texts_empty()
    ensures
        #[trigger] texts(Seq::<String>::empty()) == Seq::<Seq<char>>::empty(),
{
    assert(texts(Seq::<String>::empty()) =~= Seq::<Seq<char>>::empty());
}

/// Mapping a sequence with one more element maps that element behind the others.
pub broadcast proof fn lemma_map_push<A, B>(list: Seq<A>, value: A, f: spec_fn(A) -> B)
    ensures
        #[trigger] list.push(value).map_values(f) == list.map_values(f).push(f(value)),
{
    assert(list.push(value).map_values(f) =~= list.map_values(f).push(f(value)));
}

/// Mapping the empty sequence gives the empty sequence.
pub broadcast proof fn lemma_map_empty<A, B>(f: spec_fn(A) -> B)
    ensures
        #[trigger] Seq::<A>::empty().map_values(f) == Seq::<B>::empty(),
{
    assert(Seq::<A>::empty().map_values(f) =~= Seq::<B>::empty());
}

/// Taking one more element of a sequence appends that element.
pub proof fn lemma_take_next<T>(s: Seq<T>, i: int)
    requires
        0 <= i < s.len(),
    ensures
        s.take(i + 1) == s.take(i).push(s[i]),
{
    assert(s.take(i + 1) =~= s.take(i).push(s[i]));
}

/// How many elements of a sequence satisfy a predicate.
pub open spec fn count_where<T>(s: Seq<T>, p: spec_fn(T) -> bool) -> nat
    decreases s.len(),
{
    if s.len() == 0 {
        0
    } else {
        count_where(s.drop_last(), p) + if p(s.last()) {
            1nat
        } else {
            0nat
        }
    }
}

/// Counting one more element adds one where it satisfies the predicate.
pub proof fn lemma_count_next<T>(s: Seq<T>, p: spec_fn(T) -> bool, i: int)
    requires
        0 <= i < s.len(),
    ensures
        count_where(s.take(i + 1), p) == count_where(s.take(i), p) + if p(s[i]) {
            1nat
        } else {
            0nat
        },
{
    lemma_take_next(s, i);
    assert(s.take(i + 1).drop_last() == s.take(i));
}

/// One more element counts where it satisfies the predicate, and changes nothing else.
pub proof fn law_count_where<T>(s: Seq<T>, x: T, p: spec_fn(T) -> bool)
    ensures
        count_where(Seq::<T>::empty(), p) == 0,
        p(x) ==> count_where(s.push(x), p) == count_where(s, p) + 1,
        !p(x) ==> count_where(s.push(x), p) == count_where(s, p),
{
    assert(s.push(x).drop_last() =~= s);
}

/// A count is no greater than the length.
pub proof fn lemma_count_bound<T>(s: Seq<T>, p: spec_fn(T) -> bool)
    ensures
        count_where(s, p) <= s.len(),
    decreases s.len(),
{
    if s.len() > 0 {
        lemma_count_bound(s.drop_last(), p);
    }
}

/// Nothing is counted just where no element satisfies the predicate.
pub proof fn lemma_count_zero<T>(s: Seq<T>, p: spec_fn(T) -> bool)
    ensures
        count_where(s, p) == 0 <==> (forall|i: int| 0 <= i < s.len() ==> !p(#[trigger] s[i])),
    decreases s.len(),
{
    if s.len() > 0 {
        lemma_count_zero(s.drop_last(), p);
        assert(s.last() == s[s.len() - 1]);
        assert forall|i: int| 0 <= i < s.len() - 1 implies s.drop_last()[i] == #[trigger] s[i] by {
        }
        if count_where(s, p) == 0 {
            assert forall|i: int| 0 <= i < s.len() implies !p(#[trigger] s[i]) by {
                if i < s.len() - 1 {
                    assert(!p(s.drop_last()[i]));
                }
            }
        }
    }
}

/// Where a predicate holds of just the elements of which one of two others holds, but never both,
/// its count is the sum of theirs.
pub proof fn lemma_count_split<T>(
    s: Seq<T>,
    p: spec_fn(T) -> bool,
    q: spec_fn(T) -> bool,
    r: spec_fn(T) -> bool,
)
    requires
        forall|x: T| #[trigger] p(x) == (q(x) || r(x)),
        forall|x: T| !(#[trigger] q(x) && r(x)),
    ensures
        count_where(s, p) == count_where(s, q) + count_where(s, r),
    decreases s.len(),
{
    if s.len() > 0 {
        lemma_count_split(s.drop_last(), p, q, r);
        assert(p(s.last()) == (q(s.last()) || r(s.last())));
        assert(!(q(s.last()) && r(s.last())));
    }
}

pub broadcast group group_texts {
    lemma_texts_push,
    lemma_pair_texts_push,
    lemma_texts_empty,
    lemma_map_push,
    lemma_map_empty,
}



} // verus!
