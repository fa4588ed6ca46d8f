//! A single tube: a bounded stack of colored portions, top at the end.

use vstd::prelude::*;
use vstd::seq_lib::{group_to_multiset_ensures, lemma_multiset_commutative};

verus! {

/// Number of portions a tube can hold.
pub const MAX_PORTION: usize = 4;

/// Marker for an absent portion. Tubes never store it; a tube with free
/// slots simply holds fewer entries.
pub const EMPTY: i32 = 0;

/// The portion on top of the tube, if there is one.
pub open spec fn top(tube: Seq<i32>) -> Option<i32> {
    if tube.len() == 0 {
        None
    } else {
        Some(tube.last())
    }
}

/// A sequence of `n` portions that all have the same color.
pub open spec fn repeat(color: i32, n: nat) -> Seq<i32> {
    Seq::new(n, |i: int| color)
}

/// How many portions of `color` the tube holds.
pub open spec fn occurrences(tube: Seq<i32>, color: i32) -> nat {
    tube.to_multiset().count(color)
}

/// Length of the unbroken run of `color` at the top of the tube.
pub open spec fn top_run(tube: Seq<i32>, color: i32) -> nat
    decreases tube.len(),
{
    if tube.len() == 0 || tube.last() != color {
        0
    } else {
        1 + top_run(tube.drop_last(), color)
    }
}

/// Every portion in the tube is absent; in particular, the tube may hold
/// nothing at all.
pub open spec fn vacant(tube: Seq<i32>) -> bool {
    forall|i: int| 0 <= i < tube.len() ==> tube[i] == EMPTY
}

/// The tube is filled to capacity with portions of one color.
pub open spec fn complete(tube: Seq<i32>) -> bool {
    tube.len() == MAX_PORTION && forall|i: int|
        0 <= i < tube.len() ==> #[trigger] tube[i] == tube.first()
}

/// A tube needs no further pouring when it is vacant or complete.
pub open spec fn settled(tube: Seq<i32>) -> bool {
    vacant(tube) || complete(tube)
}

/// Tells whether a tube is settled.
pub fn is_settled(tube: &Vec<i32>) -> (done: bool)
    ensures
        done == settled(tube@),
{
    let mut all_absent = true;
    let mut one_color = true;
    let mut i: usize = 0;
    while i < tube.len()
        invariant
            i <= tube.len(),
            all_absent == forall|j: int| 0 <= j < i ==> tube@[j] == EMPTY,
            one_color == forall|j: int| 0 <= j < i ==> #[trigger] tube@[j] == tube@.first(),
        decreases tube.len() - i,
    {
        if tube[i] != EMPTY {
            all_absent = false;
        }
        if tube[i] != tube[0] {
            one_color = false;
        }
        i += 1;
    }
    all_absent || (tube.len() == MAX_PORTION && one_color)
}

/// Counts the portions of `color` in a tube.
pub fn count_color(tube: &Vec<i32>, color: i32) -> (n: usize)
    ensures
        n == occurrences(tube@, color),
{
    let mut n: usize = 0;
    let mut i: usize = 0;
    proof {
        lemma_occurrences_absent(tube@.take(0), color);
    }
    while i < tube.len()
        invariant
            i <= tube.len(),
            n <= i,
            n == occurrences(tube@.take(i as int), color),
        decreases tube.len() - i,
    {
        proof {
            assert(tube@.take(i + 1) =~= tube@.take(i as int).push(tube@[i as int]));
            lemma_occurrences_push(tube@.take(i as int), tube@[i as int], color);
        }
        if tube[i] == color {
            n += 1;
        }
        i += 1;
    }
    assert(tube@.take(tube.len() as int) =~= tube@);
    n
}

/// The run at the top is never longer than the tube, and every portion in
/// it has the color asked for.
pub proof fn lemma_top_run_bounds(tube: Seq<i32>, color: i32)
    ensures
        top_run(tube, color) <= tube.len(),
        forall|i: int| tube.len() - top_run(tube, color) <= i < tube.len() ==> tube[i] == color,
        top_run(tube, color) < tube.len() ==> tube[tube.len() - top_run(tube, color) - 1] != color,
    decreases tube.len(),
{
    if tube.len() != 0 && tube.last() == color {
        let rest = tube.drop_last();
        lemma_top_run_bounds(rest, color);
        assert forall|i: int| tube.len() - top_run(tube, color) <= i < tube.len() implies tube[i]
            == color by {
            if i < rest.len() {
                assert(rest[i] == color);
            }
        }
        if top_run(tube, color) < tube.len() {
            assert(rest[rest.len() - top_run(rest, color) - 1] != color);
        }
    }
}

/// The run at the top is pinned down by its two ends: `n` portions of the
/// color at the top, and either nothing or another color below them.
pub proof fn lemma_top_run_unique(tube: Seq<i32>, color: i32, n: nat)
    requires
        n <= tube.len(),
        forall|i: int| tube.len() - n <= i < tube.len() ==> tube[i] == color,
        n < tube.len() ==> tube[tube.len() - n - 1] != color,
    ensures
        top_run(tube, color) == n,
    decreases n,
{
    if n > 0 {
        lemma_top_run_unique(tube.drop_last(), color, (n - 1) as nat);
    }
}

/// When the top `n` portions all have the color, the run there is at
/// least `n` long.
pub proof fn lemma_top_run_at_least(tube: Seq<i32>, color: i32, n: nat)
    requires
        n <= tube.len(),
        forall|i: int| tube.len() - n <= i < tube.len() ==> tube[i] == color,
    ensures
        top_run(tube, color) >= n,
    decreases n,
{
    if n > 0 {
        lemma_top_run_at_least(tube.drop_last(), color, (n - 1) as nat);
    }
}

/// The top `n` portions of a tube, when `n` does not exceed the run of
/// `color` there, are `n` copies of `color`.
pub proof fn lemma_top_run_is_repeat(tube: Seq<i32>, color: i32, n: nat)
    requires
        n <= top_run(tube, color),
    ensures
        n <= tube.len(),
        tube.skip(tube.len() - n) == repeat(color, n),
        tube == tube.take(tube.len() - n) + repeat(color, n),
{
    lemma_top_run_bounds(tube, color);
    assert(tube.skip(tube.len() - n) =~= repeat(color, n));
    assert(tube =~= tube.take(tube.len() - n) + repeat(color, n));
}

/// Pushing a portion adds one occurrence of its color and none of any other.
pub proof fn lemma_occurrences_push(tube: Seq<i32>, portion: i32, color: i32)
    ensures
        occurrences(tube.push(portion), color) == occurrences(tube, color) + if portion
            == color {
            1nat
        } else {
            0nat
        },
{
    broadcast use group_to_multiset_ensures;

}

/// Occurrences add up over concatenation.
pub proof fn lemma_occurrences_concat(lower: Seq<i32>, upper: Seq<i32>, color: i32)
    ensures
        occurrences(lower + upper, color) == occurrences(lower, color) + occurrences(
            upper,
            color,
        ),
{
    lemma_multiset_commutative(lower, upper);
}

/// A color that no portion has does not occur.
pub proof fn lemma_occurrences_absent(tube: Seq<i32>, color: i32)
    requires
        forall|i: int| 0 <= i < tube.len() ==> tube[i] != color,
    ensures
        occurrences(tube, color) == 0,
{
    broadcast use group_to_multiset_ensures;

    if occurrences(tube, color) > 0 {
        assert(tube.contains(color));
    }
}

/// `n` copies of one color hold that color `n` times and no other.
pub proof fn lemma_occurrences_repeat(portion: i32, n: nat, color: i32)
    ensures
        occurrences(repeat(portion, n), color) == if portion == color {
            n
        } else {
            0
        },
    decreases n,
{
    if n == 0 {
        lemma_occurrences_absent(repeat(portion, n), color);
    } else {
        lemma_occurrences_repeat(portion, (n - 1) as nat, color);
        assert(repeat(portion, n) =~= repeat(portion, (n - 1) as nat).push(portion));
        lemma_occurrences_push(repeat(portion, (n - 1) as nat), portion, color);
    }
}

/// No color occurs more often than the tube is long.
pub proof fn lemma_occurrences_bounded(tube: Seq<i32>, color: i32)
    ensures
        occurrences(tube, color) <= tube.len(),
    decreases tube.len(),
{
    if tube.len() == 0 {
        lemma_occurrences_absent(tube, color);
    } else {
        lemma_occurrences_bounded(tube.drop_last(), color);
        assert(tube =~= tube.drop_last().push(tube.last()));
        lemma_occurrences_push(tube.drop_last(), tube.last(), color);
    }
}

} // verus!
