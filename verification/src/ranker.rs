//! Ranking of candidate labels by edit distance to what has been typed.

use vstd::prelude::*;
use crate::text::{chars_of, lowercase, to_lower};

verus! {

/// The smallest of three numbers.
pub open spec fn min3(x: nat, y: nat, z: nat) -> nat {
    if x <= y && x <= z {
        x
    } else if y <= z {
        y
    } else {
        z
    }
}

/// The price of putting `x` where `y` stands: nothing when they agree.
pub open spec fn substitution_cost(x: char, y: char) -> nat {
    if x == y {
        0
    } else {
        1
    }
}

/// The edit distance between two texts, where inserting, deleting and
/// substituting a character cost 1 each. From the empty text a text is as
/// far as it is long. Otherwise the last step is the cheapest of three:
/// delete the last character of `a`, insert the last character of `b`, or
/// put the one in place of the other, which costs nothing where they agree.
pub open spec fn edit_distance(a: Seq<char>, b: Seq<char>) -> nat
    decreases a.len() + b.len(),
{
    if a.len() == 0 {
        b.len()
    } else if b.len() == 0 {
        a.len()
    } else {
        min3(
            edit_distance(a.drop_last(), b) + 1,
            edit_distance(a, b.drop_last()) + 1,
            edit_distance(a.drop_last(), b.drop_last()) + substitution_cost(a.last(), b.last()),
        )
    }
}

/// The distance never exceeds the length of the longer text.
pub proof fn lemma_edit_distance_bound(a: Seq<char>, b: Seq<char>)
    ensures
        edit_distance(a, b) <= a.len() || edit_distance(a, b) <= b.len(),
    decreases a.len() + b.len(),
{
    if a.len() > 0 && b.len() > 0 {
        lemma_edit_distance_bound(a.drop_last(), b.drop_last());
    }
}

/// A text is at distance 0 from itself.
pub proof fn lemma_edit_distance_self(a: Seq<char>)
    ensures
        edit_distance(a, a) == 0,
    decreases a.len(),
{
    if a.len() > 0 {
        lemma_edit_distance_self(a.drop_last());
    }
}

/// Two texts are at distance 0 from each other only if they are the same.
pub proof fn lemma_edit_distance_zero(a: Seq<char>, b: Seq<char>)
    ensures
        edit_distance(a, b) == 0 <==> a == b,
    decreases a.len() + b.len(),
{
    if a == b {
        lemma_edit_distance_self(a);
    } else if a.len() == 0 || b.len() == 0 {
        if a.len() == b.len() {
            assert(a =~= b);
        }
    } else {
        lemma_edit_distance_zero(a.drop_last(), b.drop_last());
        if edit_distance(a, b) == 0 {
            assert(a.drop_last() == b.drop_last() && a.last() == b.last());
            assert(a =~= a.drop_last().push(a.last()));
            assert(b =~= b.drop_last().push(b.last()));
        }
    }
}

/// The distance from `a` to `b` is the distance from `b` to `a`.
pub proof fn lemma_edit_distance_symmetric(a: Seq<char>, b: Seq<char>)
    ensures
        edit_distance(a, b) == edit_distance(b, a),
    decreases a.len() + b.len(),
{
    if a.len() > 0 && b.len() > 0 {
        lemma_edit_distance_symmetric(a.drop_last(), b);
        lemma_edit_distance_symmetric(a, b.drop_last());
        lemma_edit_distance_symmetric(a.drop_last(), b.drop_last());
    }
}

/// The empty text is at distance 0 from the empty text only: from any other
/// text it is as far as that text is long.
pub proof fn lemma_edit_distance_from_empty(b: Seq<char>)
    ensures
        edit_distance(Seq::empty(), b) == b.len(),
        edit_distance(b, Seq::empty()) == b.len(),
        edit_distance(Seq::empty(), b) == 0 <==> b == Seq::<char>::empty(),
{
    if b.len() == 0 {
        assert(b =~= Seq::<char>::empty());
    }
}

/// How the distance between two prefixes follows from the distances between
/// shorter ones.
proof fn lemma_edit_distance_step(a: Seq<char>, b: Seq<char>, i: int, j: int)
    requires
        0 <= i < a.len(),
        0 <= j < b.len(),
    ensures
        edit_distance(a.take(i + 1), b.take(j + 1)) == min3(
            edit_distance(a.take(i), b.take(j + 1)) + 1,
            edit_distance(a.take(i + 1), b.take(j)) + 1,
            edit_distance(a.take(i), b.take(j)) + substitution_cost(a[i], b[j]),
        ),
{
    assert(a.take(i + 1).drop_last() == a.take(i));
    assert(b.take(j + 1).drop_last() == b.take(j));
}

/// The edit distance between the two slices of characters.
pub fn distance_of_chars(a: &[char], b: &[char]) -> (d: usize)
    ensures
        d == edit_distance(a@, b@),
{
    let n = a.len();
    let m = b.len();
    if m == 0 {
        return n;
    }
    // `row[j]` holds the distance between the first `i` characters of `a`
    // and the first `j + 1` characters of `b`. The distance to the empty
    // prefix of `b` is `i` and needs no cell.
    let mut row: Vec<usize> = Vec::new();
    let mut j: usize = 0;
    while j < m
        invariant
            j <= m,
            m == b@.len(),
            row@.len() == j,
            forall|k: int|
                0 <= k < j ==> row@[k] == edit_distance(a@.take(0), #[trigger] b@.take(k + 1)),
        decreases m - j,
    {
        row.push(j + 1);
        j = j + 1;
    }
    let mut i: usize = 0;
    while i < n
        invariant
            i <= n,
            n == a@.len(),
            m == b@.len(),
            m > 0,
            row@.len() == m,
            forall|k: int|
                0 <= k < m ==> row@[k] == edit_distance(
                    a@.take(i as int),
                    #[trigger] b@.take(k + 1),
                ),
        decreases n - i,
    {
        let mut diag: usize = i;
        let mut left: usize = i + 1;
        let mut j: usize = 0;
        while j < m
            invariant
                j <= m,
                i < n,
                n == a@.len(),
                m == b@.len(),
                row@.len() == m,
                diag == edit_distance(a@.take(i as int), b@.take(j as int)),
                left == edit_distance(a@.take(i + 1), b@.take(j as int)),
                forall|k: int|
                    0 <= k < j ==> row@[k] == edit_distance(
                        a@.take(i + 1),
                        #[trigger] b@.take(k + 1),
                    ),
                forall|k: int|
                    j <= k < m ==> row@[k] == edit_distance(
                        a@.take(i as int),
                        #[trigger] b@.take(k + 1),
                    ),
            decreases m - j,
        {
            let up: usize = row[j];
            let gap: usize = if up < left { up } else { left };
            // Where `gap + 1` does not fit, the diagonal is the smaller.
            let via_gap: usize = if gap < usize::MAX { gap + 1 } else { usize::MAX };
            proof {
                lemma_edit_distance_bound(a@.take(i as int), b@.take(j as int));
                lemma_edit_distance_bound(a@.take(i + 1), b@.take(j + 1));
                lemma_edit_distance_step(a@, b@, i as int, j as int);
            }
            let via_diag: usize = if a[i] == b[j] { diag } else { diag + 1 };
            let best: usize = if via_gap < via_diag { via_gap } else { via_diag };
            diag = up;
            left = best;
            row.set(j, best);
            j = j + 1;
        }
        i = i + 1;
    }
    assert(a@.take(n as int) == a@);
    assert(b@.take((m - 1) + 1) == b@);
    row[m - 1]
}

/// The edit distance between `s1` and `s2`, counted in Unicode scalar values.
pub fn levenshtein_distancia(s1: &str, s2: &str) -> (d: usize)
    ensures
        d == edit_distance(s1@, s2@),
{
    let a = chars_of(s1);
    let b = chars_of(s2);
    distance_of_chars(a.as_slice(), b.as_slice())
}

/// The first position of `scores` that holds a score greater than `lev`, or
/// the length of `scores` when no position does.
pub open spec fn first_greater(scores: Seq<nat>, lev: nat) -> int
    decreases scores.len(),
{
    if scores.len() == 0 || scores[0] > lev {
        0
    } else {
        1 + first_greater(scores.drop_first(), lev)
    }
}

/// No score is followed by a smaller one.
pub open spec fn ascending(scores: Seq<nat>) -> bool {
    forall|i: int, j: int| 0 <= i < j < scores.len() ==> scores[i] <= scores[j]
}

/// `first_greater` names a position of `scores` or its end; no score before
/// it exceeds `lev`, and the score at it, if there is one, does.
pub proof fn lemma_first_greater(scores: Seq<nat>, lev: nat)
    ensures
        0 <= first_greater(scores, lev) <= scores.len(),
        forall|t: int| 0 <= t < first_greater(scores, lev) ==> scores[t] <= lev,
        first_greater(scores, lev) < scores.len() ==> scores[first_greater(scores, lev)] > lev,
    decreases scores.len(),
{
    if !(scores.len() == 0 || scores[0] > lev) {
        let rest = scores.drop_first();
        lemma_first_greater(rest, lev);
        let k = first_greater(scores, lev);
        assert forall|t: int| 0 <= t < k implies scores[t] <= lev by {
            if t > 0 {
                assert(scores[t] == rest[t - 1]);
            }
        }
        if k < scores.len() {
            assert(scores[k] == rest[k - 1]);
        }
    }
}

/// A position `k` up to which no score exceeds `lev`, and which is the end
/// of `scores` or holds a greater score, is the one `first_greater` names.
pub proof fn lemma_first_greater_is(scores: Seq<nat>, lev: nat, k: int)
    requires
        0 <= k <= scores.len(),
        forall|t: int| 0 <= t < k ==> scores[t] <= lev,
        k < scores.len() ==> scores[k] > lev,
    ensures
        first_greater(scores, lev) == k,
    decreases scores.len(),
{
    if k > 0 {
        let rest = scores.drop_first();
        assert forall|t: int| 0 <= t < k - 1 implies rest[t] <= lev by {
            assert(rest[t] == scores[t + 1]);
        }
        lemma_first_greater_is(rest, lev, k - 1);
    }
}

/// The labels of a ranked selection, in ranked order.
pub open spec fn labels_in(entries: Seq<(Seq<char>, nat)>) -> Seq<Seq<char>> {
    entries.map_values(|e: (Seq<char>, nat)| e.0)
}

/// The scores of a ranked selection, in ranked order.
pub open spec fn scores_in(entries: Seq<(Seq<char>, nat)>) -> Seq<nat> {
    entries.map_values(|e: (Seq<char>, nat)| e.1)
}

/// Candidates with their scores, held in ascending order of score. Among
/// equal scores the candidate that was inserted first stands first.
#[derive(Debug)]
pub struct RankedSelection {
    entries: Vec<(String, usize)>,
}

impl View for RankedSelection {
    type V = Seq<(Seq<char>, nat)>;

    closed spec fn view(&self) -> Seq<(Seq<char>, nat)> {
        self.entries@.map_values(|e: (String, usize)| (e.0@, e.1 as nat))
    }
}

impl RankedSelection {
    #[verifier::type_invariant]
    spec fn sorted(self) -> bool {
        ascending(scores_in(self@))
    }

    /// A selection without candidates.
    pub fn new() -> (r: Self)
        ensures
            r@ == Seq::<(Seq<char>, nat)>::empty(),
    {
        let r = RankedSelection { entries: Vec::new() };
        assert(r@ =~= Seq::<(Seq<char>, nat)>::empty());
        r
    }

    /// The number of candidates held.
    pub fn len(&self) -> (n: usize)
        ensures
            n == self@.len(),
    {
        self.entries.len()
    }

    /// Places `label` before the first candidate whose score is greater than
    /// `score`, or at the end when no candidate has a greater score.
    pub fn insert(&mut self, label: String, score: usize)
        ensures
            final(self)@ == old(self)@.insert(
                first_greater(scores_in(old(self)@), score as nat),
                (label@, score as nat),
            ),
            ascending(scores_in(final(self)@)),
    {
        proof {
            use_type_invariant(&*self);
        }
        let ghost before = self@;
        let mut entries: Vec<(String, usize)> = Vec::new();
        std::mem::swap(&mut entries, &mut self.entries);
        let mut k: usize = 0;
        while k < entries.len() && entries[k].1 <= score
            invariant
                k <= entries@.len(),
                forall|t: int| 0 <= t < k ==> entries@[t].1 <= score,
            decreases entries@.len() - k,
        {
            k = k + 1;
        }
        let ghost label_view = label@;
        entries.insert(k, (label, score));
        proof {
            let old_scores = scores_in(before);
            lemma_first_greater_is(old_scores, score as nat, k as int);
            let after = entries@.map_values(|e: (String, usize)| (e.0@, e.1 as nat));
            assert(after =~= before.insert(k as int, (label_view, score as nat)));
            let new_scores = scores_in(after);
            assert forall|i: int, j: int| 0 <= i < j < new_scores.len() implies new_scores[i]
                <= new_scores[j] by {
                let oi = if i < k { i } else { i - 1 };
                let oj = if j < k { j } else { j - 1 };
                if i != k && j != k {
                    assert(old_scores[oi] <= old_scores[oj]);
                } else if i == k {
                    assert(old_scores[k as int] <= old_scores[oj]);
                }
            }
        }
        self.entries = entries;
    }

    /// The label at ranked position `i`, if the selection reaches that far.
    pub fn label(&self, i: usize) -> (r: Option<&String>)
        ensures
            r is Some <==> i < self@.len(),
            r matches Some(s) ==> s@ == self@[i as int].0,
    {
        if i < self.entries.len() {
            Some(&self.entries[i].0)
        } else {
            None
        }
    }

    /// The score at ranked position `i`, if the selection reaches that far.
    pub fn score(&self, i: usize) -> (r: Option<usize>)
        ensures
            r is Some <==> i < self@.len(),
            r matches Some(d) ==> d == self@[i as int].1,
    {
        if i < self.entries.len() {
            Some(self.entries[i].1)
        } else {
            None
        }
    }

    /// The labels in ranked order.
    pub fn labels(&self) -> (r: Vec<String>)
        ensures
            r.deep_view() == labels_in(self@),
    {
        let mut r: Vec<String> = Vec::new();
        let mut i: usize = 0;
        while i < self.entries.len()
            invariant
                i <= self.entries@.len(),
                r@.len() == i,
                forall|k: int| 0 <= k < i ==> (#[trigger] r@[k])@ == self.entries@[k].0@,
            decreases self.entries@.len() - i,
        {
            r.push(self.entries[i].0.clone());
            i = i + 1;
        }
        assert(r.deep_view() =~= labels_in(self@));
        r
    }
}

/// The order in which the positions of `scores` come out of the ranking:
/// each position in turn is placed before the first one already placed whose
/// score is greater than its own.
pub open spec fn rank_order(scores: Seq<nat>) -> Seq<int>
    decreases scores.len(),
{
    if scores.len() == 0 {
        Seq::empty()
    } else {
        let earlier = rank_order(scores.drop_last());
        let placed = earlier.map_values(|i: int| scores[i]);
        earlier.insert(first_greater(placed, scores.last()), scores.len() - 1)
    }
}

/// The items that `order` points at, position by position.
pub open spec fn arrange<T>(order: Seq<int>, items: Seq<T>) -> Seq<T> {
    order.map_values(|i: int| items[i])
}

/// The score of a candidate under a query: the edit distance between their
/// lower-case forms.
pub open spec fn score(query: Seq<char>, item: Seq<char>) -> nat {
    edit_distance(lowercase(query), lowercase(item))
}

/// The scores of all the candidates, in the order of the candidates.
pub open spec fn scores_of(query: Seq<char>, items: Seq<Seq<char>>) -> Seq<nat> {
    items.map_values(|item: Seq<char>| score(query, item))
}

/// The candidates in ranked order: ascending by score, equal scores in the
/// order in which the candidates were given.
pub open spec fn ranked(query: Seq<char>, items: Seq<Seq<char>>) -> Seq<Seq<char>> {
    arrange(rank_order(scores_of(query, items)), items)
}

/// The candidates of `v` with their scores under `s`, in ranked order.
pub fn rank_candidates(s: &str, v: &Vec<String>) -> (r: RankedSelection)
    ensures
        labels_in(r@) == ranked(s@, v.deep_view()),
        scores_in(r@) == arrange(
            rank_order(scores_of(s@, v.deep_view())),
            scores_of(s@, v.deep_view()),
        ),
        ascending(scores_in(r@)),
{
    let query = to_lower(s);
    let mut selection = RankedSelection::new();
    let ghost items = v.deep_view();
    let ghost scores = scores_of(s@, items);
    let ghost mut order: Seq<int> = Seq::empty();
    let mut n: usize = 0;
    while n < v.len()
        invariant
            n <= v.len(),
            query@ == lowercase(s@),
            items == v.deep_view(),
            scores == scores_of(s@, items),
            order == rank_order(scores.take(n as int)),
            order.len() == n,
            selection@.len() == n,
            forall|k: int| 0 <= k < n ==> 0 <= #[trigger] order[k] < n,
            forall|k: int|
                0 <= k < n ==> #[trigger] selection@[k] == (items[order[k]], scores[order[k]]),
        decreases v.len() - n,
    {
        let val = &v[n];
        let folded = to_lower(val.as_str());
        let lev = levenshtein_distancia(query.as_str(), folded.as_str());
        assert(lev == scores[n as int]);
        assert(val@ == items[n as int]);
        proof {
            let upto = scores.take(n + 1);
            assert(upto.drop_last() == scores.take(n as int));
            let placed = order.map_values(|i: int| upto[i]);
            assert(placed =~= scores_in(selection@)) by {
                assert forall|t: int| 0 <= t < n implies placed[t] == scores_in(selection@)[t] by {
                    assert(0 <= order[t] < n);
                }
            }
            lemma_first_greater(placed, lev as nat);
            order = order.insert(first_greater(placed, lev as nat), n as int);
            assert(order == rank_order(upto));
        }
        selection.insert(val.clone(), lev);
        n = n + 1;
    }
    proof {
        assert(scores.take(n as int) == scores);
        assert(labels_in(selection@) =~= arrange(order, items));
        assert(scores_in(selection@) =~= arrange(order, scores));
        use_type_invariant(&selection);
    }
    selection
}

/// The candidates of `v`, reordered by ascending edit distance to `s`, both
/// sides compared in lower case. Candidates at the same distance keep the
/// order they have in `v`.
pub fn order_vector(s: &str, v: &Vec<String>) -> (r: Vec<String>)
    ensures
        r.deep_view() == ranked(s@, v.deep_view()),
{
    rank_candidates(s, v).labels()
}

} // verus!
