//! What the edit distance measures: the price of the cheapest script of
//! single-character edits that turns one text into the other.

use vstd::prelude::*;
use crate::ranker::{edit_distance, lemma_edit_distance_bound};

verus! {

/// One step of a script that turns a text `a` into a text `b`. A script is
/// read along both texts from their beginnings to their ends.
pub enum Edit {
    /// The next character of `a` is the next character of `b`: keep it.
    Keep,
    /// Put the next character of `b` in place of the next character of `a`.
    Substitute,
    /// Insert the next character of `b`.
    Insert,
    /// Delete the next character of `a`.
    Delete,
}

/// Whether `script` turns `a` into `b`: its steps use up the characters of
/// both texts, and it keeps a character only where the two texts agree.
pub open spec fn turns(script: Seq<Edit>, a: Seq<char>, b: Seq<char>) -> bool
    decreases script.len(),
{
    if script.len() == 0 {
        a.len() == 0 && b.len() == 0
    } else {
        let before = script.drop_last();
        match script.last() {
            Edit::Keep => a.len() > 0 && b.len() > 0 && a.last() == b.last() && turns(
                before,
                a.drop_last(),
                b.drop_last(),
            ),
            Edit::Substitute => a.len() > 0 && b.len() > 0 && turns(
                before,
                a.drop_last(),
                b.drop_last(),
            ),
            Edit::Insert => b.len() > 0 && turns(before, a, b.drop_last()),
            Edit::Delete => a.len() > 0 && turns(before, a.drop_last(), b),
        }
    }
}

/// The price of one step: keeping is free, every change costs 1.
pub open spec fn price(step: Edit) -> nat {
    match step {
        Edit::Keep => 0,
        _ => 1,
    }
}

/// The price of a script: the sum of the prices of its steps.
pub open spec fn cost(script: Seq<Edit>) -> nat
    decreases script.len(),
{
    if script.len() == 0 {
        0
    } else {
        cost(script.drop_last()) + price(script.last())
    }
}

/// A script that turns `a` into `b` at the price of their distance.
pub open spec fn cheapest_script(a: Seq<char>, b: Seq<char>) -> Seq<Edit>
    decreases a.len() + b.len(),
{
    if a.len() == 0 && b.len() == 0 {
        Seq::empty()
    } else if a.len() == 0 {
        cheapest_script(a, b.drop_last()).push(Edit::Insert)
    } else if b.len() == 0 {
        cheapest_script(a.drop_last(), b).push(Edit::Delete)
    } else if a.last() == b.last() && edit_distance(a, b) == edit_distance(
        a.drop_last(),
        b.drop_last(),
    ) {
        cheapest_script(a.drop_last(), b.drop_last()).push(Edit::Keep)
    } else if edit_distance(a, b) == edit_distance(a.drop_last(), b.drop_last()) + 1 {
        cheapest_script(a.drop_last(), b.drop_last()).push(Edit::Substitute)
    } else if edit_distance(a, b) == edit_distance(a.drop_last(), b) + 1 {
        cheapest_script(a.drop_last(), b).push(Edit::Delete)
    } else {
        cheapest_script(a, b.drop_last()).push(Edit::Insert)
    }
}

/// No script that turns `a` into `b` costs less than their distance.
pub proof fn lemma_no_script_is_cheaper(script: Seq<Edit>, a: Seq<char>, b: Seq<char>)
    requires
        turns(script, a, b),
    ensures
        edit_distance(a, b) <= cost(script),
    decreases script.len(),
{
    if script.len() > 0 {
        let before = script.drop_last();
        match script.last() {
            Edit::Keep => {
                lemma_no_script_is_cheaper(before, a.drop_last(), b.drop_last());
            },
            Edit::Substitute => {
                lemma_no_script_is_cheaper(before, a.drop_last(), b.drop_last());
            },
            Edit::Insert => {
                lemma_no_script_is_cheaper(before, a, b.drop_last());
            },
            Edit::Delete => {
                lemma_no_script_is_cheaper(before, a.drop_last(), b);
            },
        }
    }
}

/// Some script turns `a` into `b` at the price of their distance.
pub proof fn lemma_cheapest_script(a: Seq<char>, b: Seq<char>)
    ensures
        turns(cheapest_script(a, b), a, b),
        cost(cheapest_script(a, b)) == edit_distance(a, b),
    decreases a.len() + b.len(),
{
    let script = cheapest_script(a, b);
    if a.len() == 0 && b.len() == 0 {
    } else if a.len() == 0 {
        lemma_cheapest_script(a, b.drop_last());
        assert(script.drop_last() =~= cheapest_script(a, b.drop_last()));
    } else if b.len() == 0 {
        lemma_cheapest_script(a.drop_last(), b);
        assert(script.drop_last() =~= cheapest_script(a.drop_last(), b));
    } else if a.last() == b.last() && edit_distance(a, b) == edit_distance(
        a.drop_last(),
        b.drop_last(),
    ) {
        lemma_cheapest_script(a.drop_last(), b.drop_last());
        assert(script.drop_last() =~= cheapest_script(a.drop_last(), b.drop_last()));
    } else if edit_distance(a, b) == edit_distance(a.drop_last(), b.drop_last()) + 1 {
        lemma_cheapest_script(a.drop_last(), b.drop_last());
        assert(script.drop_last() =~= cheapest_script(a.drop_last(), b.drop_last()));
    } else if edit_distance(a, b) == edit_distance(a.drop_last(), b) + 1 {
        lemma_cheapest_script(a.drop_last(), b);
        assert(script.drop_last() =~= cheapest_script(a.drop_last(), b));
    } else {
        lemma_cheapest_script(a, b.drop_last());
        assert(script.drop_last() =~= cheapest_script(a, b.drop_last()));
    }
}

/// The edit distance is the price of the cheapest script: a script reaches
/// it, and none goes below it.
pub proof fn lemma_edit_distance_is_least_cost(a: Seq<char>, b: Seq<char>)
    ensures
        exists|script: Seq<Edit>| #[trigger] turns(script, a, b) && cost(script) == edit_distance(a, b),
        forall|script: Seq<Edit>| #[trigger] turns(script, a, b) ==> edit_distance(a, b) <= cost(script),
{
    lemma_cheapest_script(a, b);
    assert forall|script: Seq<Edit>| #[trigger] turns(script, a, b) implies edit_distance(a, b)
        <= cost(script) by {
        lemma_no_script_is_cheaper(script, a, b);
    }
}

/// Two texts are at least as far from each other as their lengths differ.
pub proof fn lemma_edit_distance_length_gap(a: Seq<char>, b: Seq<char>)
    ensures
        a.len() - b.len() <= edit_distance(a, b),
        b.len() - a.len() <= edit_distance(a, b),
    decreases a.len() + b.len(),
{
    if a.len() > 0 && b.len() > 0 {
        lemma_edit_distance_length_gap(a.drop_last(), b);
        lemma_edit_distance_length_gap(a, b.drop_last());
        lemma_edit_distance_length_gap(a.drop_last(), b.drop_last());
    }
}

/// The way from `a` to `c` is no longer than the way from `a` to `b` and on
/// from `b` to `c`.
pub proof fn lemma_edit_distance_triangle(a: Seq<char>, b: Seq<char>, c: Seq<char>)
    ensures
        edit_distance(a, c) <= edit_distance(a, b) + edit_distance(b, c),
    decreases a.len() + b.len() + c.len(),
{
    if a.len() == 0 {
        lemma_edit_distance_length_gap(b, c);
    } else if c.len() == 0 {
        lemma_edit_distance_length_gap(a, b);
    } else if b.len() == 0 {
        lemma_edit_distance_bound(a, c);
    } else if edit_distance(a, b) == edit_distance(a.drop_last(), b) + 1 {
        lemma_edit_distance_triangle(a.drop_last(), b, c);
    } else if edit_distance(b, c) == edit_distance(b, c.drop_last()) + 1 {
        lemma_edit_distance_triangle(a, b, c.drop_last());
    } else if edit_distance(a, b) == edit_distance(a, b.drop_last()) + 1 {
        if edit_distance(b, c) == edit_distance(b.drop_last(), c) + 1 {
            lemma_edit_distance_triangle(a, b.drop_last(), c);
        } else {
            lemma_edit_distance_triangle(a, b.drop_last(), c.drop_last());
        }
    } else {
        if edit_distance(b, c) == edit_distance(b.drop_last(), c) + 1 {
            lemma_edit_distance_triangle(a.drop_last(), b.drop_last(), c);
        } else {
            lemma_edit_distance_triangle(a.drop_last(), b.drop_last(), c.drop_last());
        }
    }
}

} // verus!
