//! The order in which opportunities are reported.

use crate::opportunity::{Opportunity, OpportunityView};
use vstd::prelude::*;

verus! {

/// The models of `found`, in the same order.
pub open spec fn models(found: Seq<Opportunity>) -> Seq<OpportunityView> {
    Seq::new(found.len(), |k: int| found[k]@)
}

/// Whether the opportunity at `i` comes before the one at `j`: it promises more,
/// or as much and was found earlier.
pub open spec fn goes_before(found: Seq<OpportunityView>, i: int, j: int) -> bool {
    ||| found[i].estimated_net_profit_wei > found[j].estimated_net_profit_wei
    ||| found[i].estimated_net_profit_wei == found[j].estimated_net_profit_wei && i < j
}

/// Whether `ranked` lists `found` by the positions `order`, each going before the
/// next ones.
pub open spec fn is_ranking(
    found: Seq<OpportunityView>,
    order: Seq<int>,
    ranked: Seq<OpportunityView>,
) -> bool {
    &&& order.len() == found.len()
    &&& ranked.len() == found.len()
    &&& forall|k: int|
        #![trigger order[k]]
        #![trigger ranked[k]]
        0 <= k < order.len() ==> 0 <= order[k] < found.len() && ranked[k] == found[order[k]]
    &&& forall|a: int, b: int|
        0 <= a < b < order.len() ==> goes_before(found, #[trigger] order[a], #[trigger] order[b])
}

/// Whether `ranked` is `found`, most promising first, with ties in the order in
/// which they were found.
pub open spec fn ranked_from(found: Seq<OpportunityView>, ranked: Seq<OpportunityView>) -> bool {
    exists|order: Seq<int>| is_ranking(found, order, ranked)
}

/// Puts a newly found opportunity behind all that promise as much.
proof fn lemma_insert_ranked(
    found: Seq<OpportunityView>,
    order: Seq<int>,
    ranked: Seq<OpportunityView>,
    at: int,
    next: OpportunityView,
)
    requires
        is_ranking(found, order, ranked),
        0 <= at <= ranked.len(),
        forall|k: int|
            0 <= k < at ==> (#[trigger] ranked[k]).estimated_net_profit_wei
                >= next.estimated_net_profit_wei,
        at < ranked.len() ==> ranked[at].estimated_net_profit_wei < next.estimated_net_profit_wei,
    ensures
        is_ranking(
            found.push(next),
            order.insert(at, found.len() as int),
            ranked.insert(at, next),
        ),
{
    let found2 = found.push(next);
    let order2 = order.insert(at, found.len() as int);
    let ranked2 = ranked.insert(at, next);
    assert forall|k: int| 0 <= k < order2.len() implies 0 <= #[trigger] order2[k] < found2.len()
        && ranked2[k] == found2[order2[k]] by {
        if k < at {
            assert(order2[k] == order[k] && ranked2[k] == ranked[k]);
        } else if k > at {
            assert(order2[k] == order[k - 1] && ranked2[k] == ranked[k - 1]);
        }
    }
    assert forall|a: int, b: int| 0 <= a < b < order2.len() implies goes_before(
        found2,
        #[trigger] order2[a],
        #[trigger] order2[b],
    ) by {
        if b < at {
            assert(goes_before(found, order[a], order[b]));
        } else if a > at {
            assert(goes_before(found, order[a - 1], order[b - 1]));
        } else if a == at {
            assert(ranked[b - 1] == found[order[b - 1]]);
            if b - 1 > at {
                assert(goes_before(found, order[at], order[b - 1]));
            }
        } else if b == at {
            assert(ranked[a] == found[order[a]]);
        } else {
            assert(goes_before(found, order[a], order[b - 1]));
        }
    }
}

/// The opportunities, most promising first; those that promise the same stay in
/// the order in which they were found.
pub fn rank(found: Vec<Opportunity>) -> (r: Vec<Opportunity>)
    ensures
        ranked_from(models(found@), models(r@)),
{
    let ghost all = models(found@);
    let mut out: Vec<Opportunity> = Vec::new();
    let ghost mut order: Seq<int> = Seq::empty();
    for next in it: found
        invariant
            all == models(it.seq()),
            is_ranking(all.take(it.index() as int), order, models(out@)),
    {
        let ghost before = models(out@);
        let mut at: usize = 0;
        while at < out.len() && out[at].estimated_net_profit_wei >= next.estimated_net_profit_wei
            invariant
                at <= out.len(),
                before == models(out@),
                forall|k: int|
                    0 <= k < at ==> (#[trigger] before[k]).estimated_net_profit_wei
                        >= next.estimated_net_profit_wei,
            decreases out.len() - at,
        {
            assert(before[at as int] == out@[at as int]@);
            at += 1;
        }
        proof {
            lemma_insert_ranked(all.take(it.index() as int), order, before, at as int, next@);
            assert(all.take(it.index() + 1) =~= all.take(it.index() as int).push(next@));
            order = order.insert(at as int, it.index() as int);
        }
        out.insert(at, next);
        proof {
            assert(models(out@) =~= before.insert(at as int, next@));
        }
    }
    proof {
        assert(all.take(all.len() as int) =~= all);
        assert(is_ranking(all, order, models(out@)));
    }
    out
}

/// A ranking mentions every position.
proof fn lemma_ranking_is_onto(
    found: Seq<OpportunityView>,
    order: Seq<int>,
    ranked: Seq<OpportunityView>,
    i: int,
)
    requires
        is_ranking(found, order, ranked),
        0 <= i < found.len(),
    ensures
        order.contains(i),
{
    let n = found.len() as int;
    assert forall|a: int, b: int| 0 <= a < order.len() && 0 <= b < order.len() && a != b implies
        order[a] != order[b] by {
        if a < b {
            assert(goes_before(found, order[a], order[b]));
        } else {
            assert(goes_before(found, order[b], order[a]));
        }
    }
    assert(order.no_duplicates());
    order.unique_seq_to_set();
    let positions = vstd::set_lib::set_int_range(0, n);
    vstd::set_lib::lemma_int_range(0, n);
    assert(order.to_set().subset_of(positions)) by {
        assert forall|x: int| order.to_set().contains(x) implies positions.contains(x) by {
            let k = choose|k: int| 0 <= k < order.len() && order[k] == x;
            assert(0 <= order[k] < found.len());
        }
    }
    vstd::set_lib::lemma_subset_equality(order.to_set(), positions);
    assert(positions.contains(i));
    assert(order.to_set().contains(i));
}

/// There is only one ranking: what was found decides the order completely.
pub proof fn law_ranking_is_unique(
    found: Seq<OpportunityView>,
    a: Seq<OpportunityView>,
    b: Seq<OpportunityView>,
)
    requires
        ranked_from(found, a),
        ranked_from(found, b),
    ensures
        a == b,
{
    let p = choose|order: Seq<int>| is_ranking(found, order, a);
    let q = choose|order: Seq<int>| is_ranking(found, order, b);
    assert forall|k: int| 0 <= k < a.len() implies p[k] == q[k] by {
        lemma_same_position(found, p, a, q, b, k);
    }
    assert forall|k: int| 0 <= k < a.len() implies a[k] == b[k] by {
        assert(a[k] == found[p[k]] && b[k] == found[q[k]]);
    }
    assert(a =~= b);
}

/// Two rankings of the same findings agree on what stands at position `k`.
proof fn lemma_same_position(
    found: Seq<OpportunityView>,
    p: Seq<int>,
    a: Seq<OpportunityView>,
    q: Seq<int>,
    b: Seq<OpportunityView>,
    k: int,
)
    requires
        is_ranking(found, p, a),
        is_ranking(found, q, b),
        0 <= k < found.len(),
    ensures
        p[k] == q[k],
    decreases k,
{
    assert forall|l: int| 0 <= l < k implies p[l] == q[l] by {
        lemma_same_position(found, p, a, q, b, l);
    }
    if p[k] != q[k] {
        lemma_ranking_is_onto(found, q, b, p[k]);
        lemma_ranking_is_onto(found, p, a, q[k]);
        let m = choose|m: int| 0 <= m < q.len() && q[m] == p[k];
        let l = choose|l: int| 0 <= l < p.len() && p[l] == q[k];
        // Each of the two would have to go before the other.
        if m < k {
            assert(goes_before(found, p[m], p[k]));
        }
        if l < k {
            assert(goes_before(found, q[l], q[k]));
        }
        assert(goes_before(found, q[k], q[m]));
        assert(goes_before(found, p[k], p[l]));
    }
}

/// A ranking lists exactly what was found, and no opportunity promises more than
/// one before it.
pub proof fn law_ranking_orders_findings(found: Seq<OpportunityView>, ranked: Seq<OpportunityView>)
    requires
        ranked_from(found, ranked),
    ensures
        ranked.len() == found.len(),
        forall|o: OpportunityView| #[trigger] ranked.contains(o) <==> found.contains(o),
        forall|a: int, b: int|
            0 <= a <= b < ranked.len() ==> (#[trigger] ranked[a]).estimated_net_profit_wei >= (
            #[trigger] ranked[b]).estimated_net_profit_wei,
{
    let order = choose|order: Seq<int>| is_ranking(found, order, ranked);
    assert forall|o: OpportunityView| #[trigger] ranked.contains(o) <==> found.contains(o) by {
        if ranked.contains(o) {
            let k = choose|k: int| 0 <= k < ranked.len() && ranked[k] == o;
            assert(found[order[k]] == o);
        }
        if found.contains(o) {
            let i = choose|i: int| 0 <= i < found.len() && found[i] == o;
            lemma_ranking_is_onto(found, order, ranked, i);
            let k = choose|k: int| 0 <= k < order.len() && order[k] == i;
            assert(ranked[k] == o);
        }
    }
    assert forall|a: int, b: int| 0 <= a <= b < ranked.len() implies (
    #[trigger] ranked[a]).estimated_net_profit_wei >= (
    #[trigger] ranked[b]).estimated_net_profit_wei by {
        if a < b {
            assert(goes_before(found, order[a], order[b]));
        }
    }
}

/// A ranking is a rearrangement of what was found: every finding stands at exactly
/// one place. Of two places, the earlier one holds the larger estimated profit, or the
/// same one that was found earlier.
pub proof fn law_ranking_rearranges(found: Seq<OpportunityView>, ranked: Seq<OpportunityView>)
    requires
        ranked_from(found, ranked),
    ensures
        exists|order: Seq<int>|
            {
                &&& #[trigger] order.len() == found.len()
                &&& ranked.len() == found.len()
                &&& forall|i: int| 0 <= i < found.len() ==> order.contains(i)
                &&& forall|k: int|
                    0 <= k < order.len() ==> 0 <= #[trigger] order[k] < found.len() && ranked[k]
                        == found[order[k]]
                &&& forall|a: int, b: int|
                    0 <= a < b < order.len() ==> {
                        let x = found[#[trigger] order[a]].estimated_net_profit_wei;
                        let y = found[#[trigger] order[b]].estimated_net_profit_wei;
                        x > y || (x == y && order[a] < order[b])
                    }
            },
{
    let order = choose|order: Seq<int>| is_ranking(found, order, ranked);
    assert forall|i: int| 0 <= i < found.len() implies order.contains(i) by {
        lemma_ranking_is_onto(found, order, ranked, i);
    }
    assert forall|a: int, b: int| 0 <= a < b < order.len() implies {
        let x = found[#[trigger] order[a]].estimated_net_profit_wei;
        let y = found[#[trigger] order[b]].estimated_net_profit_wei;
        x > y || (x == y && order[a] < order[b])
    } by {
        assert(goes_before(found, order[a], order[b]));
    }
    assert(order.len() == found.len());
}

/// A list of opportunities stands for the list of what they stand for.
pub proof fn law_lists_stand_for_their_entries(found: Seq<Opportunity>)
    ensures
        models(found).len() == found.len(),
        forall|k: int| 0 <= k < found.len() ==> #[trigger] models(found)[k] == found[k]@,
{
}

} // verus!
