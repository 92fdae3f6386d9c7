//! What holds of every ranking: nothing is lost or invented, scores ascend,
//! ties keep their order, and ranking again changes nothing.

use vstd::prelude::*;
use vstd::seq_lib::{to_multiset_build, to_multiset_insert};
use crate::ranker::{
    arrange, ascending, edit_distance, first_greater, lemma_edit_distance_self,
    lemma_first_greater, lemma_first_greater_is, rank_order, ranked, score, scores_of,
};

verus! {

/// The positions in ranked order are a rearrangement of all the positions:
/// as many as there are scores, each a position of `scores`, none twice,
/// none left out.
pub proof fn lemma_rank_order_permutes(scores: Seq<nat>)
    ensures
        rank_order(scores).len() == scores.len(),
        forall|k: int|
            0 <= k < scores.len() ==> 0 <= #[trigger] rank_order(scores)[k] < scores.len(),
        forall|a: int, b: int|
            #![trigger rank_order(scores)[a], rank_order(scores)[b]]
            0 <= a < b < scores.len() ==> rank_order(scores)[a] != rank_order(scores)[b],
        forall|i: int| 0 <= i < scores.len() ==> #[trigger] rank_order(scores).contains(i),
    decreases scores.len(),
{
    if scores.len() > 0 {
        let n = scores.len() as int;
        let earlier = rank_order(scores.drop_last());
        lemma_rank_order_permutes(scores.drop_last());
        let placed = earlier.map_values(|i: int| scores[i]);
        let k = first_greater(placed, scores.last());
        lemma_first_greater(placed, scores.last());
        let p = rank_order(scores);
        assert(p == earlier.insert(k, n - 1));
        assert forall|t: int| 0 <= t < n implies #[trigger] p[t] == (if t < k {
            earlier[t]
        } else if t == k {
            n - 1
        } else {
            earlier[t - 1]
        }) by {}
        assert forall|i: int| 0 <= i < n implies #[trigger] p.contains(i) by {
            if i == n - 1 {
                assert(p[k] == i);
            } else {
                assert(earlier.contains(i));
                let e = choose|e: int| 0 <= e < n - 1 && earlier[e] == i;
                if e < k {
                    assert(p[e] == i);
                } else {
                    assert(p[e + 1] == i);
                }
            }
        }
    }
}

/// Laying items out in ranked order, one candidate more: the new candidate
/// goes before the first one already laid out whose score is greater.
pub proof fn lemma_arrange_unfold<T>(scores: Seq<nat>, items: Seq<T>)
    requires
        scores.len() == items.len(),
        scores.len() > 0,
    ensures
        arrange(rank_order(scores), items) == arrange(
            rank_order(scores.drop_last()),
            items.drop_last(),
        ).insert(
            first_greater(
                arrange(rank_order(scores.drop_last()), scores.drop_last()),
                scores.last(),
            ),
            items.last(),
        ),
{
    let n = scores.len() as int;
    let earlier = rank_order(scores.drop_last());
    lemma_rank_order_permutes(scores.drop_last());
    let placed = earlier.map_values(|i: int| scores[i]);
    assert(placed =~= arrange(earlier, scores.drop_last()));
    let k = first_greater(placed, scores.last());
    lemma_first_greater(placed, scores.last());
    let before = arrange(earlier, items.drop_last());
    assert(arrange(earlier.insert(k, n - 1), items) =~= before.insert(k, items.last())) by {
        let lhs = arrange(earlier.insert(k, n - 1), items);
        let rhs = before.insert(k, items.last());
        assert(lhs.len() == rhs.len());
        assert forall|t: int| 0 <= t < lhs.len() implies lhs[t] == rhs[t] by {
            if t < k {
                assert(earlier.insert(k, n - 1)[t] == earlier[t]);
            } else if t > k {
                assert(earlier.insert(k, n - 1)[t] == earlier[t - 1]);
            }
        }
    }
}

/// The scores in ranked order ascend, and of two positions with the same
/// score the one that was given first comes first.
pub proof fn lemma_rank_order_stable(scores: Seq<nat>)
    ensures
        forall|a: int, b: int|
            #![trigger rank_order(scores)[a], rank_order(scores)[b]]
            0 <= a < b < scores.len() ==> {
                ||| scores[rank_order(scores)[a]] < scores[rank_order(scores)[b]]
                ||| (scores[rank_order(scores)[a]] == scores[rank_order(scores)[b]]
                    && rank_order(scores)[a] < rank_order(scores)[b])
            },
        ascending(arrange(rank_order(scores), scores)),
    decreases scores.len(),
{
    lemma_rank_order_permutes(scores);
    if scores.len() > 0 {
        let n = scores.len() as int;
        let shorter = scores.drop_last();
        let earlier = rank_order(shorter);
        lemma_rank_order_permutes(shorter);
        lemma_rank_order_stable(shorter);
        let placed = earlier.map_values(|i: int| scores[i]);
        let lev = scores.last();
        let k = first_greater(placed, lev);
        lemma_first_greater(placed, lev);
        let p = rank_order(scores);
        assert(p == earlier.insert(k, n - 1));
        assert forall|a: int, b: int| 0 <= a < b < n implies ({
            ||| scores[#[trigger] p[a]] < scores[#[trigger] p[b]]
            ||| (scores[p[a]] == scores[p[b]] && p[a] < p[b])
        }) by {
            let ea = if a < k { a } else { a - 1 };
            let eb = if b < k { b } else { b - 1 };
            if a != k && b != k {
                assert(p[a] == earlier[ea] && p[b] == earlier[eb]);
                assert(shorter[earlier[ea]] == scores[earlier[ea]]);
                assert(shorter[earlier[eb]] == scores[earlier[eb]]);
            } else if a == k {
                assert(p[b] == earlier[eb]);
                assert(placed[k] > lev);
                assert(placed[eb] == scores[earlier[eb]]);
                if eb > k {
                    assert(shorter[earlier[k]] == scores[earlier[k]]);
                    assert(shorter[earlier[eb]] == scores[earlier[eb]]);
                }
            } else {
                assert(p[a] == earlier[ea]);
                assert(placed[ea] <= lev);
            }
        }
    }
    let laid = arrange(rank_order(scores), scores);
    assert forall|a: int, b: int| 0 <= a < b < laid.len() implies laid[a] <= laid[b] by {
        let p = rank_order(scores);
        assert(scores[p[a]] <= scores[p[b]]);
    }
}

/// Scores that already ascend are ranked in the order in which they stand.
pub proof fn lemma_rank_order_of_ascending(scores: Seq<nat>)
    requires
        ascending(scores),
    ensures
        rank_order(scores) == Seq::new(scores.len(), |i: int| i),
    decreases scores.len(),
{
    if scores.len() > 0 {
        let n = scores.len() as int;
        let shorter = scores.drop_last();
        assert(ascending(shorter)) by {
            assert forall|i: int, j: int| 0 <= i < j < shorter.len() implies shorter[i]
                <= shorter[j] by {
                assert(scores[i] <= scores[j]);
            }
        }
        lemma_rank_order_of_ascending(shorter);
        let earlier = rank_order(shorter);
        let placed = earlier.map_values(|i: int| scores[i]);
        assert forall|t: int| 0 <= t < n - 1 implies placed[t] <= scores.last() by {
            assert(scores[t] <= scores[n - 1]);
        }
        lemma_first_greater_is(placed, scores.last(), n - 1);
        assert(earlier.insert(n - 1, n - 1) =~= Seq::new(scores.len(), |i: int| i));
    }
}

/// A ranking holds exactly the candidates it was given: as many of each,
/// none added, none removed.
pub proof fn lemma_ranking_is_permutation(query: Seq<char>, items: Seq<Seq<char>>)
    ensures
        ranked(query, items).len() == items.len(),
        ranked(query, items).to_multiset() == items.to_multiset(),
    decreases items.len(),
{
    let scores = scores_of(query, items);
    lemma_rank_order_permutes(scores);
    if items.len() == 0 {
        assert(ranked(query, items) =~= items);
    } else {
        let fewer = items.drop_last();
        assert(scores.drop_last() =~= scores_of(query, fewer));
        lemma_ranking_is_permutation(query, fewer);
        lemma_arrange_unfold(scores, items);
        lemma_rank_order_permutes(scores.drop_last());
        let k = first_greater(
            arrange(rank_order(scores.drop_last()), scores.drop_last()),
            scores.last(),
        );
        lemma_first_greater(
            arrange(rank_order(scores.drop_last()), scores.drop_last()),
            scores.last(),
        );
        to_multiset_insert(ranked(query, fewer), k, items.last());
        to_multiset_build(fewer, items.last());
        assert(fewer.push(items.last()) =~= items);
    }
}

/// Two candidates with the same score leave the ranking in the order in
/// which they entered it: the one given at `i` stands at some position `a`,
/// the one given at `j` at some later position `b`.
pub proof fn lemma_ranking_is_stable(query: Seq<char>, items: Seq<Seq<char>>, i: int, j: int)
    requires
        0 <= i < j < items.len(),
        score(query, items[i]) == score(query, items[j]),
    ensures
        exists|a: int, b: int|
            #![trigger rank_order(scores_of(query, items))[a], rank_order(scores_of(query, items))[b]]
            {
                &&& 0 <= a < b < items.len()
                &&& rank_order(scores_of(query, items))[a] == i
                &&& rank_order(scores_of(query, items))[b] == j
                &&& ranked(query, items)[a] == items[i]
                &&& ranked(query, items)[b] == items[j]
            },
{
    let scores = scores_of(query, items);
    let p = rank_order(scores);
    lemma_rank_order_permutes(scores);
    lemma_rank_order_stable(scores);
    assert(p.contains(i) && p.contains(j));
    let a = choose|a: int| 0 <= a < p.len() && p[a] == i;
    let b = choose|b: int| 0 <= b < p.len() && p[b] == j;
    if b < a {
        assert(scores[p[b]] < scores[p[a]] || (scores[p[b]] == scores[p[a]] && p[b] < p[a]));
    }
    assert(a < b);
    assert(p[a] == i && p[b] == j);
}

/// In a ranking no candidate is followed by one with a smaller score, and
/// each position of the ranking holds the candidate that `rank_order` names.
pub proof fn lemma_ranking_ascends(query: Seq<char>, items: Seq<Seq<char>>)
    ensures
        ascending(scores_of(query, ranked(query, items))),
        forall|a: int|
            0 <= a < items.len() ==> #[trigger] ranked(query, items)[a]
                == items[rank_order(scores_of(query, items))[a]],
{
    let scores = scores_of(query, items);
    lemma_rank_order_permutes(scores);
    lemma_rank_order_stable(scores);
    assert(scores_of(query, ranked(query, items)) =~= arrange(rank_order(scores), scores));
}

/// Ranking what is already ranked, under the same query, changes nothing.
pub proof fn lemma_ranking_is_idempotent(query: Seq<char>, items: Seq<Seq<char>>)
    ensures
        ranked(query, ranked(query, items)) == ranked(query, items),
{
    let once = ranked(query, items);
    lemma_ranking_ascends(query, items);
    lemma_rank_order_permutes(scores_of(query, items));
    lemma_rank_order_of_ascending(scores_of(query, once));
    assert(ranked(query, once) =~= once);
}

/// The ranking depends on the query and the candidates alone: two rankings
/// of the same candidates under the same query are the same.
pub proof fn lemma_ranking_is_deterministic(
    query: Seq<char>,
    items: Seq<Seq<char>>,
    first: Seq<Seq<char>>,
    second: Seq<Seq<char>>,
)
    requires
        first == ranked(query, items),
        second == ranked(query, items),
    ensures
        first == second,
{
}

/// A single candidate is its own ranking, whatever the query, and every
/// text is at distance 0 from itself.
pub proof fn lemma_ranking_of_one(query: Seq<char>, a: Seq<char>)
    ensures
        ranked(query, seq![a]) == seq![a],
        ranked(Seq::empty(), seq![a]) == seq![a],
        edit_distance(a, a) == 0,
        score(a, a) == 0,
{
    lemma_edit_distance_self(a);
    lemma_edit_distance_self(crate::text::lowercase(a));
    lemma_single(query, a);
    lemma_single(Seq::empty(), a);
}

proof fn lemma_single(query: Seq<char>, a: Seq<char>)
    ensures
        ranked(query, seq![a]) == seq![a],
{
    let items = seq![a];
    let scores = scores_of(query, items);
    assert(scores.drop_last() =~= Seq::<nat>::empty());
    assert(rank_order(scores.drop_last()) =~= Seq::<int>::empty());
    let placed = rank_order(scores.drop_last()).map_values(|i: int| scores[i]);
    assert(placed.len() == 0);
    assert(rank_order(scores) =~= seq![0int]);
    assert(ranked(query, items) =~= items);
}

} // verus!
