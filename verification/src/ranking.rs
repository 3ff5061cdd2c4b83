use vstd::prelude::*;

verus! {

/// Whether one pair of weights is greater than another, the first deciding before the second.
pub open spec fn heavier(a: (u64, u64), b: (u64, u64)) -> bool {
    a.0 > b.0 || (a.0 == b.0 && a.1 > b.1)
}

/// A row of positions with one more put in behind all that are not lighter.
pub open spec fn placed(order: Seq<int>, weights: Seq<(u64, u64)>, x: int) -> Seq<int>
    decreases order.len(),
{
    if order.len() > 0 && heavier(weights[x], weights[order.last()]) {
        placed(order.drop_last(), weights, x).push(order.last())
    } else {
        order.push(x)
    }
}

/// The positions of the first `n` weights, from the heaviest to the lightest; equal ones stay in
/// their order.
pub open spec fn ranked(weights: Seq<(u64, u64)>, n: nat) -> Seq<int>
    decreases n,
{
    if n == 0 {
        Seq::empty()
    } else {
        placed(ranked(weights, (n - 1) as nat), weights, n - 1)
    }
}

/// The positions as numbers.
pub open spec fn positions(order: Seq<usize>) -> Seq<int> {
    order.map_values(|i: usize| i as int)
}

/// Putting a position in keeps the row a row of all positions, each once.
proof fn lemma_placed_elements(order: Seq<int>, weights: Seq<(u64, u64)>, x: int)
    ensures
        placed(order, weights, x).len() == order.len() + 1,
        forall|k: int|
            #![trigger placed(order, weights, x).contains(k)]
            #![trigger order.contains(k)]
            placed(order, weights, x).contains(k) <==> (order.contains(k) || k == x),
    decreases order.len(),
{
    let after = placed(order, weights, x);
    if order.len() > 0 && heavier(weights[x], weights[order.last()]) {
        let shorter = placed(order.drop_last(), weights, x);
        lemma_placed_elements(order.drop_last(), weights, x);
        assert forall|k: int| after.contains(k) <==> (#[trigger] order.contains(k) || k == x) by {
            if after.contains(k) {
                let i = after.index_of(k);
                if i < shorter.len() {
                    assert(shorter[i] == k);
                    assert(shorter.contains(k));
                    assert(order.drop_last().contains(k) || k == x);
                    if order.drop_last().contains(k) {
                        assert(order[order.drop_last().index_of(k)] == k);
                    }
                } else {
                    assert(k == order[order.len() - 1]);
                }
            }
            if order.contains(k) {
                let i = order.index_of(k);
                if i < order.len() - 1 {
                    assert(order.drop_last()[i] == k);
                    assert(order.drop_last().contains(k));
                    assert(shorter.contains(k));
                    assert(after[shorter.index_of(k)] == k);
                } else {
                    assert(after[shorter.len() as int] == k);
                }
            }
            if k == x {
                assert(order.drop_last().contains(k) || k == x);
                assert(shorter.contains(k));
                assert(after[shorter.index_of(k)] == k);
            }
        }
    } else {
        assert forall|k: int| after.contains(k) <==> (#[trigger] order.contains(k) || k == x) by {
            if after.contains(k) {
                let i = after.index_of(k);
                if i < order.len() {
                    assert(order[i] == k);
                }
            }
            if order.contains(k) {
                assert(after[order.index_of(k)] == k);
            }
            if k == x {
                assert(after[order.len() as int] == k);
            }
        }
    }
}

/// Whether a row of positions goes from the heaviest to the lightest.
pub open spec fn descending(order: Seq<int>, weights: Seq<(u64, u64)>) -> bool {
    forall|i: int, j: int|
        0 <= i < j < order.len() ==> !heavier(
            weights[#[trigger] order[j]],
            weights[#[trigger] order[i]],
        )
}

proof fn lemma_placed_descending(order: Seq<int>, weights: Seq<(u64, u64)>, x: int)
    requires
        descending(order, weights),
    ensures
        descending(placed(order, weights, x), weights),
    decreases order.len(),
{
    let after = placed(order, weights, x);
    if order.len() > 0 && heavier(weights[x], weights[order.last()]) {
        let rest = order.drop_last();
        let shorter = placed(rest, weights, x);
        assert(descending(rest, weights)) by {
            assert forall|i: int, j: int| 0 <= i < j < rest.len() implies !heavier(
                weights[#[trigger] rest[j]],
                weights[#[trigger] rest[i]],
            ) by {
                assert(rest[i] == order[i] && rest[j] == order[j]);
            }
        }
        lemma_placed_descending(rest, weights, x);
        lemma_placed_elements(rest, weights, x);
        assert forall|i: int, j: int| 0 <= i < j < after.len() implies !heavier(
            weights[#[trigger] after[j]],
            weights[#[trigger] after[i]],
        ) by {
            if j < shorter.len() {
                assert(after[i] == shorter[i] && after[j] == shorter[j]);
            } else {
                assert(after[j] == order.last());
                assert(after[i] == shorter[i]);
                assert(shorter.contains(shorter[i]));
                assert(rest.contains(shorter[i]) || shorter[i] == x);
                if rest.contains(shorter[i]) {
                    let k = rest.index_of(shorter[i]);
                    assert(order[k] == shorter[i]);
                    assert(order[order.len() - 1] == order.last());
                }
            }
        }
    } else {
        assert forall|i: int, j: int| 0 <= i < j < after.len() implies !heavier(
            weights[#[trigger] after[j]],
            weights[#[trigger] after[i]],
        ) by {
            if j < order.len() {
                assert(after[i] == order[i] && after[j] == order[j]);
            } else {
                assert(after[j] == x);
                assert(after[i] == order[i]);
                if i < order.len() - 1 {
                    assert(!heavier(weights[order[order.len() - 1]], weights[order[i]]));
                }
            }
        }
    }
}

/// The ranking of some weights holds every position once and goes from the heaviest to the
/// lightest.
pub proof fn law_ranking(weights: Seq<(u64, u64)>, n: nat)
    ensures
        ranked(weights, n).len() == n,
        forall|k: int| #[trigger] ranked(weights, n).contains(k) <==> 0 <= k < n,
        descending(ranked(weights, n), weights),
    decreases n,
{
    if n > 0 {
        let before = ranked(weights, (n - 1) as nat);
        law_ranking(weights, (n - 1) as nat);
        lemma_placed_elements(before, weights, n - 1);
        lemma_placed_descending(before, weights, n - 1);
        assert forall|k: int| #[trigger] ranked(weights, n).contains(k) <==> 0 <= k < n by {
            assert(before.contains(k) <==> 0 <= k < n - 1);
        }
    }
}

/// The positions of some weights, from the heaviest to the lightest; equal ones stay in their
/// order.
pub fn rank(weights: &Vec<(u64, u64)>) -> (order: Vec<usize>)
    ensures
        positions(order@) == ranked(weights@, weights@.len()),
        forall|k: int| 0 <= k < order@.len() ==> (#[trigger] order@[k]) < weights@.len(),
{
    let mut order: Vec<usize> = Vec::new();
    assert(positions(order@) =~= ranked(weights@, 0));
    for x in 0..weights.len()
        invariant
            positions(order@) == ranked(weights@, x as nat),
            order@.len() == x,
            forall|k: int| 0 <= k < order@.len() ==> (#[trigger] order@[k]) < weights@.len(),
    {
        let ghost whole = positions(order@);
        let mut at: usize = order.len();
        assert(whole.take(at as int) =~= whole);
        assert(whole.skip(at as int) =~= Seq::empty());
        assert(placed(whole, weights@, x as int) =~= placed(whole, weights@, x as int)
            + whole.skip(at as int));
        while at > 0 && (weights[x].0 > weights[order[at - 1]].0 || (weights[x].0
            == weights[order[at - 1]].0 && weights[x].1 > weights[order[at - 1]].1))
            invariant
                x < weights@.len(),
                at <= order@.len(),
                whole == positions(order@),
                forall|k: int| 0 <= k < order@.len() ==> (#[trigger] order@[k]) < weights@.len(),
                placed(whole, weights@, x as int) == placed(
                    whole.take(at as int),
                    weights@,
                    x as int,
                ) + whole.skip(at as int),
            decreases at,
        {
            proof {
                let part = whole.take(at as int);
                assert(part.last() == order@[at - 1] as int);
                assert(part.drop_last() =~= whole.take(at - 1));
                assert(placed(part, weights@, x as int) == placed(
                    whole.take(at - 1),
                    weights@,
                    x as int,
                ).push(part.last()));
                assert(placed(whole.take(at - 1), weights@, x as int).push(part.last())
                    + whole.skip(at as int) =~= placed(whole.take(at - 1), weights@, x as int)
                    + whole.skip(at - 1));
            }
            at = at - 1;
        }
        proof {
            let part = whole.take(at as int);
            if at > 0 {
                assert(part.last() == order@[at - 1] as int);
            }
            assert(placed(part, weights@, x as int) == part.push(x as int));
            assert(part.push(x as int) + whole.skip(at as int) =~= whole.insert(
                at as int,
                x as int,
            ));
        }
        order.insert(at, x);
        assert(positions(order@) =~= whole.insert(at as int, x as int));
    }
    order
}

/// Of two that weigh the same, the earlier one is placed first.
pub proof fn law_ranking_is_stable(weights: Seq<(u64, u64)>, n: nat)
    requires
        n <= weights.len(),
    ensures
        forall|i: int, j: int|
            0 <= i < j < ranked(weights, n).len() && weights[#[trigger] ranked(weights, n)[i]]
                == weights[#[trigger] ranked(weights, n)[j]] ==> ranked(weights, n)[i] < ranked(
                weights,
                n,
            )[j],
    decreases n,
{
    if n > 0 {
        let before = ranked(weights, (n - 1) as nat);
        law_ranking_is_stable(weights, (n - 1) as nat);
        law_ranking(weights, (n - 1) as nat);
        assert forall|k: int| 0 <= k < before.len() implies 0 <= #[trigger] before[k] < n - 1 by {
            assert(before.contains(before[k]));
        }
        lemma_placed_is_stable(before, weights, n - 1);
    }
}

proof fn lemma_placed_is_stable(order: Seq<int>, weights: Seq<(u64, u64)>, x: int)
    requires
        descending(order, weights),
        forall|k: int| 0 <= k < order.len() ==> (#[trigger] order[k]) < x,
        forall|i: int, j: int|
            0 <= i < j < order.len() && weights[#[trigger] order[i]] == weights[#[trigger] order[j]]
                ==> order[i] < order[j],
    ensures
        placed(order, weights, x).len() == order.len() + 1,
        forall|k: int| 0 <= k < placed(order, weights, x).len() ==> (#[trigger] placed(
            order,
            weights,
            x,
        )[k]) == x || order.contains(placed(order, weights, x)[k]),
        forall|i: int, j: int|
            0 <= i < j < placed(order, weights, x).len() && weights[#[trigger] placed(
                order,
                weights,
                x,
            )[i]] == weights[#[trigger] placed(order, weights, x)[j]] ==> placed(
                order,
                weights,
                x,
            )[i] < placed(order, weights, x)[j],
    decreases order.len(),
{
    let out = placed(order, weights, x);
    if order.len() > 0 && heavier(weights[x], weights[order.last()]) {
        let rest = order.drop_last();
        let last = order.last();
        assert forall|k: int| 0 <= k < rest.len() implies (#[trigger] rest[k]) < x by {
            assert(rest[k] == order[k]);
        }
        assert(descending(rest, weights)) by {
            assert forall|i: int, j: int| 0 <= i < j < rest.len() implies !heavier(
                weights[#[trigger] rest[j]],
                weights[#[trigger] rest[i]],
            ) by {
                assert(rest[i] == order[i] && rest[j] == order[j]);
            }
        }
        assert forall|i: int, j: int|
            0 <= i < j < rest.len() && weights[#[trigger] rest[i]] == weights[#[trigger] rest[j]]
                implies rest[i] < rest[j] by {
            assert(rest[i] == order[i] && rest[j] == order[j]);
        }
        lemma_placed_is_stable(rest, weights, x);
        let head = placed(rest, weights, x);
        assert(order[order.len() - 1] == last);
        assert forall|k: int| 0 <= k < out.len() implies (#[trigger] out[k]) == x || order.contains(
            out[k],
        ) by {
            if k < head.len() {
                assert(out[k] == head[k]);
                if head[k] != x {
                    let m = rest.index_of(head[k]);
                    assert(order[m] == head[k]);
                }
            }
        }
        assert forall|i: int, j: int|
            0 <= i < j < out.len() && weights[#[trigger] out[i]] == weights[#[trigger] out[j]]
                implies out[i] < out[j] by {
            assert(out[i] == head[i]);
            if j < head.len() {
                assert(out[j] == head[j]);
            } else if head[i] != x {
                let m = rest.index_of(head[i]);
                assert(order[m] == head[i]);
                assert(order[m] < order[order.len() - 1]);
            }
        }
    } else {
        assert forall|k: int| 0 <= k < out.len() implies (#[trigger] out[k]) == x || order.contains(
            out[k],
        ) by {
            if k < order.len() {
                assert(out[k] == order[k]);
            }
        }
        assert forall|i: int, j: int|
            0 <= i < j < out.len() && weights[#[trigger] out[i]] == weights[#[trigger] out[j]]
                implies out[i] < out[j] by {
            assert(out[i] == order[i]);
            if j < order.len() {
                assert(out[j] == order[j]);
            }
        }
    }
}

} // verus!
