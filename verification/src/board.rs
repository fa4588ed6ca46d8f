//! The board: a row of tubes, and what a pour does to it.

use crate::tube::{
    count_color, is_settled, lemma_occurrences_absent, lemma_occurrences_bounded,
    lemma_occurrences_concat, lemma_occurrences_repeat, lemma_top_run_at_least,
    lemma_top_run_bounds, lemma_top_run_is_repeat, lemma_top_run_unique, occurrences, repeat,
    settled, top, top_run, MAX_PORTION,
};
use vstd::prelude::*;
use vstd::seq_lib::to_multiset_contains;

verus! {

/// Number of tubes on the board.
pub const TUBE_COUNT: usize = 10;

/// Number of distinct colors in play; two tubes start out empty.
pub const COLOR_COUNT: usize = TUBE_COUNT - 2;

/// Colors are numbered from 1 to `COLOR_COUNT`.
pub open spec fn is_color(color: i32) -> bool {
    1 <= color <= COLOR_COUNT
}

/// The contents of every tube, as sequences.
pub open spec fn board_of(tubes: Vec<Vec<i32>>) -> Seq<Seq<i32>> {
    tubes@.map_values(|tube: Vec<i32>| tube@)
}

/// How many portions of `color` the tubes hold between them.
pub open spec fn color_total(tubes: Seq<Seq<i32>>, color: i32) -> nat
    decreases tubes.len(),
{
    if tubes.len() == 0 {
        0
    } else {
        color_total(tubes.drop_last(), color) + occurrences(tubes.last(), color)
    }
}

/// Every color is present exactly `MAX_PORTION` times, and nothing else is.
pub open spec fn conserved(tubes: Seq<Seq<i32>>) -> bool {
    forall|color: i32| #[trigger]
        color_total(tubes, color) == if is_color(color) {
            MAX_PORTION as nat
        } else {
            0
        }
}

/// No tube holds more than `MAX_PORTION` portions.
pub open spec fn within_capacity(tubes: Seq<Seq<i32>>) -> bool {
    forall|i: int| 0 <= i < tubes.len() ==> (#[trigger] tubes[i]).len() <= MAX_PORTION
}

/// The board is solved: every tube is settled.
pub open spec fn cleared(tubes: Seq<Seq<i32>>) -> bool {
    forall|i: int| 0 <= i < tubes.len() ==> settled(#[trigger] tubes[i])
}

/// Whether tube `to` accepts a pour from tube `from`: it is empty, or it
/// has room and shows the same color on top as the source.
pub open spec fn can_pour(tubes: Seq<Seq<i32>>, from: int, to: int) -> bool {
    tubes[to].len() == 0 || (tubes[to].len() != MAX_PORTION && top(tubes[to]) == top(
        tubes[from],
    ))
}

/// How many portions a pour moves: the whole run of the top color of
/// `source`, or as much of it as `target` has room for.
pub open spec fn pour_amount(source: Seq<i32>, target: Seq<i32>) -> nat {
    let run = top_run(source, source.last());
    let room = MAX_PORTION - target.len();
    if room <= 0 {
        0
    } else if run <= room {
        run
    } else {
        room as nat
    }
}

/// The board after pouring from tube `from` into tube `to`.
pub open spec fn poured(tubes: Seq<Seq<i32>>, from: int, to: int) -> Seq<Seq<i32>> {
    let source = tubes[from];
    let target = tubes[to];
    let n = pour_amount(source, target);
    tubes.update(from, source.take(source.len() - n)).update(
        to,
        target + repeat(source.last(), n),
    )
}

/// The portions of a new game before shuffling: each color `MAX_PORTION`
/// times, in ascending order.
pub open spec fn sorted_portions() -> Seq<i32> {
    Seq::new((MAX_PORTION * COLOR_COUNT) as nat, |i: int| (i / MAX_PORTION as int + 1) as i32)
}

/// The opening board for a given order of portions: the first
/// `COLOR_COUNT` tubes are filled in order, the others stay empty.
pub open spec fn dealt(portions: Seq<i32>) -> Seq<Seq<i32>> {
    Seq::new(
        TUBE_COUNT as nat,
        |i: int|
            if i < COLOR_COUNT {
                portions.subrange(i * MAX_PORTION, (i + 1) * MAX_PORTION)
            } else {
                Seq::empty()
            },
    )
}

/// Builds the portions of a new game in sorted order.
pub fn make_portions() -> (portions: Vec<i32>)
    ensures
        portions@ == sorted_portions(),
{
    let mut portions: Vec<i32> = Vec::new();
    let mut color: usize = 0;
    while color < COLOR_COUNT
        invariant
            color <= COLOR_COUNT,
            portions@ == sorted_portions().take(color * MAX_PORTION),
        decreases COLOR_COUNT - color,
    {
        let mut slot: usize = 0;
        while slot < MAX_PORTION
            invariant
                color < COLOR_COUNT,
                slot <= MAX_PORTION,
                portions@ == sorted_portions().take(color * MAX_PORTION + slot),
            decreases MAX_PORTION - slot,
        {
            portions.push(color as i32 + 1);
            slot += 1;
        }
        color += 1;
    }
    portions
}

/// Deals the portions onto a fresh board: tube `i` of the first
/// `COLOR_COUNT` receives portions `4 * i` to `4 * i + 3`, bottom first,
/// and the remaining tubes are left empty.
pub fn deal(portions: &Vec<i32>) -> (tubes: Vec<Vec<i32>>)
    requires
        portions.len() == MAX_PORTION * COLOR_COUNT,
    ensures
        board_of(tubes) == dealt(portions@),
{
    let mut tubes: Vec<Vec<i32>> = Vec::new();
    let mut i: usize = 0;
    while i < COLOR_COUNT
        invariant
            i <= COLOR_COUNT,
            portions.len() == MAX_PORTION * COLOR_COUNT,
            tubes.len() == i,
            board_of(tubes) == dealt(portions@).take(i as int),
        decreases COLOR_COUNT - i,
    {
        let mut tube: Vec<i32> = Vec::new();
        let mut slot: usize = 0;
        while slot < MAX_PORTION
            invariant
                i < COLOR_COUNT,
                slot <= MAX_PORTION,
                portions.len() == MAX_PORTION * COLOR_COUNT,
                tube@ == portions@.subrange(i * MAX_PORTION, i * MAX_PORTION + slot),
            decreases MAX_PORTION - slot,
        {
            tube.push(portions[i * MAX_PORTION + slot]);
            slot += 1;
        }
        let ghost filled = board_of(tubes);
        tubes.push(tube);
        i += 1;
        proof {
            lemma_board_push(filled, tubes, dealt(portions@), i as int);
        }
    }
    while i < TUBE_COUNT
        invariant
            COLOR_COUNT <= i <= TUBE_COUNT,
            tubes.len() == i,
            board_of(tubes) == dealt(portions@).take(i as int),
        decreases TUBE_COUNT - i,
    {
        let ghost filled = board_of(tubes);
        tubes.push(Vec::new());
        i += 1;
        proof {
            lemma_board_push(filled, tubes, dealt(portions@), i as int);
        }
    }
    tubes
}

/// Tells whether every tube on the board is settled.
pub fn is_cleared(tubes: &Vec<Vec<i32>>) -> (done: bool)
    ensures
        done == cleared(board_of(*tubes)),
{
    let mut i: usize = 0;
    while i < tubes.len()
        invariant
            i <= tubes.len(),
            forall|j: int| 0 <= j < i ==> settled(#[trigger] board_of(*tubes)[j]),
        decreases tubes.len() - i,
    {
        if !is_settled(&tubes[i]) {
            assert(!settled(board_of(*tubes)[i as int]));
            return false;
        }
        i += 1;
    }
    true
}

/// Tells whether no tube holds more than `MAX_PORTION` portions.
pub fn is_within_capacity(tubes: &Vec<Vec<i32>>) -> (ok: bool)
    ensures
        ok == within_capacity(board_of(*tubes)),
{
    let mut i: usize = 0;
    while i < tubes.len()
        invariant
            i <= tubes.len(),
            forall|j: int| 0 <= j < i ==> (#[trigger] board_of(*tubes)[j]).len() <= MAX_PORTION,
        decreases tubes.len() - i,
    {
        if tubes[i].len() > MAX_PORTION {
            assert(board_of(*tubes)[i as int].len() > MAX_PORTION);
            return false;
        }
        i += 1;
    }
    true
}

/// Counts the portions of `color` on the board.
pub fn total_of(tubes: &Vec<Vec<i32>>, color: i32) -> (n: usize)
    requires
        tubes.len() == TUBE_COUNT,
        within_capacity(board_of(*tubes)),
    ensures
        n == color_total(board_of(*tubes), color),
{
    let ghost board = board_of(*tubes);
    let mut n: usize = 0;
    let mut i: usize = 0;
    while i < tubes.len()
        invariant
            i <= tubes.len(),
            tubes.len() == TUBE_COUNT,
            board == board_of(*tubes),
            within_capacity(board),
            n <= i * MAX_PORTION,
            n == color_total(board.take(i as int), color),
        decreases tubes.len() - i,
    {
        proof {
            assert(board.take(i + 1).drop_last() =~= board.take(i as int));
            assert(board.take(i + 1).last() == board[i as int]);
            assert(board[i as int].len() <= MAX_PORTION);
            lemma_occurrences_bounded(board[i as int], color);
        }
        n += count_color(&tubes[i], color);
        i += 1;
    }
    assert(board.take(tubes.len() as int) =~= board);
    n
}

/// Tells whether the board holds every color exactly `MAX_PORTION` times
/// and nothing else.
pub fn is_conserved(tubes: &Vec<Vec<i32>>) -> (ok: bool)
    requires
        tubes.len() == TUBE_COUNT,
        within_capacity(board_of(*tubes)),
    ensures
        ok == conserved(board_of(*tubes)),
{
    let ghost board = board_of(*tubes);
    let mut i: usize = 0;
    while i < tubes.len()
        invariant
            i <= tubes.len(),
            board == board_of(*tubes),
            forall|a: int, b: int|
                0 <= a < i && 0 <= b < board[a].len() ==> is_color(#[trigger] board[a][b]),
        decreases tubes.len() - i,
    {
        let mut j: usize = 0;
        while j < tubes[i as usize].len()
            invariant
                i < tubes.len(),
                j <= tubes[i as int].len(),
                board == board_of(*tubes),
                forall|b: int| 0 <= b < j ==> is_color(#[trigger] board[i as int][b]),
            decreases tubes[i as int].len() - j,
        {
            let portion = tubes[i][j];
            if portion < 1 || portion > COLOR_COUNT as i32 {
                proof {
                    if conserved(board) {
                        lemma_conserved_holds_colors(board, i as int, j as int);
                    }
                }
                return false;
            }
            j += 1;
        }
        i += 1;
    }
    let mut color: i32 = 1;
    while color <= COLOR_COUNT as i32
        invariant
            1 <= color <= COLOR_COUNT + 1,
            tubes.len() == TUBE_COUNT,
            board == board_of(*tubes),
            within_capacity(board),
            forall|c: i32| 1 <= c < color ==> #[trigger] color_total(board, c) == MAX_PORTION,
        decreases COLOR_COUNT + 1 - color,
    {
        if total_of(tubes, color) != MAX_PORTION {
            assert(is_color(color));
            return false;
        }
        color += 1;
    }
    proof {
        assert forall|c: i32| #[trigger]
            color_total(board, c) == if is_color(c) {
                MAX_PORTION as nat
            } else {
                0
            } by {
            if !is_color(c) {
                lemma_total_absent(board, c);
            }
        }
    }
    true
}

/// Pushing onto the tubes the next tube of a board extends the prefix
/// of the board that the tubes agree with.
proof fn lemma_board_push(before: Seq<Seq<i32>>, tubes: Vec<Vec<i32>>, board: Seq<Seq<i32>>, n: int)
    requires
        0 < n <= board.len(),
        tubes.len() == n,
        before == board.take(n - 1),
        forall|i: int| 0 <= i < n - 1 ==> (#[trigger] tubes@[i])@ == before[i],
        tubes@[n - 1]@ =~= board[n - 1],
    ensures
        board_of(tubes) == board.take(n),
{
    assert(board_of(tubes) =~= board.take(n));
}

/// Pours from tube `from` into tube `to`: portions move one at a time
/// from the top of the source while it still shows the color it showed at
/// the start and the target has room. Returns how many portions moved.
pub fn pour(tubes: &mut Vec<Vec<i32>>, from: usize, to: usize) -> (moved: usize)
    requires
        from < old(tubes).len(),
        to < old(tubes).len(),
        from != to,
        old(tubes)[from as int].len() > 0,
        old(tubes)[to as int].len() <= MAX_PORTION,
    ensures
        board_of(*final(tubes)) == poured(board_of(*old(tubes)), from as int, to as int),
        moved == pour_amount(old(tubes)[from as int]@, old(tubes)[to as int]@),
{
    let ghost before = board_of(*tubes);
    let ghost source = before[from as int];
    let ghost target = before[to as int];
    let color = tubes[from][tubes[from].len() - 1];
    let mut moved: usize = 0;
    proof {
        assert(source.take(source.len() - 0) =~= source);
        assert(target + repeat(color, 0) =~= target);
        assert(before =~= before.update(from as int, source).update(to as int, target));
    }
    while tubes[from].len() > 0 && tubes[from][tubes[from].len() - 1] == color && tubes[to].len()
        < MAX_PORTION
        invariant
            from < tubes.len(),
            to < tubes.len(),
            from != to,
            before.len() == tubes.len(),
            source == before[from as int],
            target == before[to as int],
            0 < source.len(),
            color == source.last(),
            moved <= source.len(),
            target.len() + moved <= MAX_PORTION,
            forall|i: int| source.len() - moved <= i < source.len() ==> source[i] == color,
            board_of(*tubes) == before.update(
                from as int,
                source.take(source.len() - moved),
            ).update(to as int, target + repeat(color, moved as nat)),
        decreases tubes[from as int].len(),
    {
        let ghost current = board_of(*tubes);
        let portion = tubes[from].pop().unwrap();
        tubes[to].push(portion);
        moved += 1;
        proof {
            let drained = source.take(source.len() - moved);
            let filled = target + repeat(color, moved as nat);
            let goal = before.update(from as int, drained).update(to as int, filled);
            assert(current[from as int] == source.take(source.len() - (moved - 1)));
            assert(current[to as int] == target + repeat(color, (moved - 1) as nat));
            assert(portion == source[source.len() - moved]);
            assert forall|i: int| 0 <= i < goal.len() implies board_of(*tubes)[i] == goal[i] by {
                if i == from {
                    assert(current[i].drop_last() =~= drained);
                } else if i == to {
                    assert(current[i].push(color) =~= filled);
                } else {
                    assert(current[i] == before[i]);
                }
            }
            assert(board_of(*tubes) =~= goal);
        }
    }
    proof {
        let rest = board_of(*tubes)[from as int];
        let filled = board_of(*tubes)[to as int];
        assert(rest.len() == 0 || rest.last() != color || filled.len() >= MAX_PORTION);
        lemma_top_run_bounds(source, color);
        if moved < source.len() && rest.last() != color {
            lemma_top_run_unique(source, color, moved as nat);
        } else {
            lemma_top_run_at_least(source, color, moved as nat);
        }
    }
    moved
}

/// A color's total is at least what any one tube holds of it.
pub proof fn lemma_total_covers_tube(tubes: Seq<Seq<i32>>, i: int, color: i32)
    requires
        0 <= i < tubes.len(),
    ensures
        occurrences(tubes[i], color) <= color_total(tubes, color),
    decreases tubes.len(),
{
    if i < tubes.len() - 1 {
        lemma_total_covers_tube(tubes.drop_last(), i, color);
    }
}

/// A color that no portion on the board has adds up to nothing.
pub proof fn lemma_total_absent(tubes: Seq<Seq<i32>>, color: i32)
    requires
        forall|i: int, j: int|
            0 <= i < tubes.len() && 0 <= j < tubes[i].len() ==> #[trigger] tubes[i][j] != color,
    ensures
        color_total(tubes, color) == 0,
    decreases tubes.len(),
{
    if tubes.len() > 0 {
        let rest = tubes.drop_last();
        assert forall|i: int, j: int|
            0 <= i < rest.len() && 0 <= j < rest[i].len() implies #[trigger] rest[i][j]
            != color by {
            assert(rest[i] == tubes[i]);
        }
        lemma_total_absent(rest, color);
        lemma_occurrences_absent(tubes.last(), color);
    }
}

/// On a conserved board every portion is one of the colors in play.
pub proof fn lemma_conserved_holds_colors(tubes: Seq<Seq<i32>>, i: int, j: int)
    requires
        conserved(tubes),
        0 <= i < tubes.len(),
        0 <= j < tubes[i].len(),
    ensures
        is_color(tubes[i][j]),
{
    let color = tubes[i][j];
    lemma_total_covers_tube(tubes, i, color);
    to_multiset_contains(tubes[i], color);
    assert(tubes[i].contains(color));
    assert(color_total(tubes, color) > 0);
}

/// Replacing one tube changes a color's total by the difference between
/// the new tube and the old one.
pub proof fn lemma_total_update(tubes: Seq<Seq<i32>>, i: int, tube: Seq<i32>, color: i32)
    requires
        0 <= i < tubes.len(),
    ensures
        color_total(tubes.update(i, tube), color) + occurrences(tubes[i], color) == color_total(
            tubes,
            color,
        ) + occurrences(tube, color),
    decreases tubes.len(),
{
    let updated = tubes.update(i, tube);
    if i == tubes.len() - 1 {
        assert(updated.drop_last() =~= tubes.drop_last());
    } else {
        lemma_total_update(tubes.drop_last(), i, tube, color);
        assert(updated.drop_last() =~= tubes.drop_last().update(i, tube));
    }
}

/// A pour neither creates nor destroys portions of any color.
pub proof fn lemma_pour_conserves(tubes: Seq<Seq<i32>>, from: int, to: int, color: i32)
    requires
        0 <= from < tubes.len(),
        0 <= to < tubes.len(),
        from != to,
    ensures
        color_total(poured(tubes, from, to), color) == color_total(tubes, color),
{
    let source = tubes[from];
    let target = tubes[to];
    let n = pour_amount(source, target);
    let moved = repeat(source.last(), n);
    let rest = source.take(source.len() - n);
    lemma_top_run_is_repeat(source, source.last(), n);
    lemma_occurrences_concat(rest, moved, color);
    lemma_occurrences_concat(target, moved, color);
    let drained = tubes.update(from, rest);
    lemma_total_update(tubes, from, rest, color);
    lemma_total_update(drained, to, target + moved, color);
}

/// A pour never overfills a tube.
pub proof fn lemma_pour_within_capacity(tubes: Seq<Seq<i32>>, from: int, to: int)
    requires
        0 <= from < tubes.len(),
        0 <= to < tubes.len(),
        from != to,
        within_capacity(tubes),
    ensures
        within_capacity(poured(tubes, from, to)),
        poured(tubes, from, to).len() == tubes.len(),
{
    let source = tubes[from];
    lemma_top_run_bounds(source, source.last());
    let after = poured(tubes, from, to);
    assert forall|i: int| 0 <= i < after.len() implies (#[trigger] after[i]).len()
        <= MAX_PORTION by {
        assert(tubes[i].len() <= MAX_PORTION);
    }
}

/// A pour is maximal and touches two tubes only: afterwards the source
/// is empty, or shows another color than it did, or the target is full.
/// What leaves the source arrives in the target, and every other tube is
/// as it was.
pub proof fn lemma_pour_is_maximal(tubes: Seq<Seq<i32>>, from: int, to: int)
    requires
        0 <= from < tubes.len(),
        0 <= to < tubes.len(),
        from != to,
        tubes[from].len() > 0,
        tubes[to].len() <= MAX_PORTION,
    ensures
        poured(tubes, from, to).len() == tubes.len(),
        pour_amount(tubes[from], tubes[to]) <= tubes[from].len(),
        poured(tubes, from, to)[from].len() == tubes[from].len() - pour_amount(
            tubes[from],
            tubes[to],
        ),
        poured(tubes, from, to)[to].len() == tubes[to].len() + pour_amount(
            tubes[from],
            tubes[to],
        ),
        forall|i: int|
            0 <= i < tubes.len() && i != from && i != to ==> #[trigger] poured(tubes, from, to)[i]
                == tubes[i],
        poured(tubes, from, to)[from].len() == 0 || top(poured(tubes, from, to)[from]) != top(
            tubes[from],
        ) || poured(tubes, from, to)[to].len() == MAX_PORTION,
{
    let source = tubes[from];
    let n = pour_amount(source, tubes[to]);
    lemma_top_run_bounds(source, source.last());
    let after = poured(tubes, from, to);
    assert(after[from] == source.take(source.len() - n));
    assert(after[to] == tubes[to] + repeat(source.last(), n));
    if after[from].len() != 0 && after[to].len() != MAX_PORTION {
        assert(n == top_run(source, source.last()));
        assert(after[from].last() == source[source.len() - n - 1]);
    }
}

/// Pouring out of a non-empty tube into one that accepts it moves at
/// least one portion, and the target then shows the poured color on top.
pub proof fn lemma_pour_drains_run(tubes: Seq<Seq<i32>>, from: int, to: int)
    requires
        0 <= from < tubes.len(),
        0 <= to < tubes.len(),
        from != to,
        tubes[from].len() > 0,
        within_capacity(tubes),
        can_pour(tubes, from, to),
    ensures
        pour_amount(tubes[from], tubes[to]) >= 1,
        top(poured(tubes, from, to)[to]) == top(tubes[from]),
        poured(tubes, from, to) != tubes,
{
    let source = tubes[from];
    let n = pour_amount(source, tubes[to]);
    lemma_pour_is_maximal(tubes, from, to);
    assert(top_run(source, source.last()) >= 1);
    assert(n >= 1);
    let after = poured(tubes, from, to);
    assert(after[to] == tubes[to] + repeat(source.last(), n));
    assert(after[to].last() == source.last());
    assert(after[from].len() != tubes[from].len());
}

/// In sorted order, the first `4 * k` portions hold each of the first
/// `k` colors `MAX_PORTION` times.
proof fn lemma_sorted_prefix(k: nat, color: i32)
    requires
        k <= COLOR_COUNT,
    ensures
        occurrences(sorted_portions().take(k * MAX_PORTION), color) == if 1 <= color <= k {
            MAX_PORTION as nat
        } else {
            0
        },
    decreases k,
{
    let all = sorted_portions();
    if k == 0 {
        lemma_occurrences_absent(all.take(0), color);
    } else {
        let j = (k - 1) as nat;
        lemma_sorted_prefix(j, color);
        assert(all.take(k * MAX_PORTION) =~= all.take(j * MAX_PORTION) + repeat(
            k as i32,
            MAX_PORTION as nat,
        ));
        lemma_occurrences_concat(
            all.take(j * MAX_PORTION),
            repeat(k as i32, MAX_PORTION as nat),
            color,
        );
        lemma_occurrences_repeat(k as i32, MAX_PORTION as nat, color);
    }
}

/// The sorted portions hold every color exactly `MAX_PORTION` times.
pub proof fn lemma_sorted_portions_balanced(color: i32)
    ensures
        occurrences(sorted_portions(), color) == if is_color(color) {
            MAX_PORTION as nat
        } else {
            0
        },
{
    lemma_sorted_prefix(COLOR_COUNT as nat, color);
    assert(sorted_portions().take((COLOR_COUNT * MAX_PORTION) as int) =~= sorted_portions());
}

/// The first `k` tubes of a deal hold what the first `4 * k` portions
/// held (and nothing more once the portions run out).
proof fn lemma_dealt_prefix(portions: Seq<i32>, k: nat, color: i32)
    requires
        portions.len() == MAX_PORTION * COLOR_COUNT,
        k <= TUBE_COUNT,
    ensures
        color_total(dealt(portions).take(k as int), color) == occurrences(
            portions.take(
                if k <= COLOR_COUNT {
                    k * MAX_PORTION
                } else {
                    COLOR_COUNT * MAX_PORTION
                },
            ),
            color,
        ),
    decreases k,
{
    let board = dealt(portions);
    if k == 0 {
        lemma_occurrences_absent(portions.take(0), color);
    } else {
        let j = (k - 1) as nat;
        lemma_dealt_prefix(portions, j, color);
        assert(board.take(k as int).drop_last() =~= board.take(j as int));
        assert(board.take(k as int).last() == board[j as int]);
        if k <= COLOR_COUNT {
            assert(portions.take(k * MAX_PORTION) =~= portions.take(j * MAX_PORTION)
                + board[j as int]);
            lemma_occurrences_concat(portions.take(j * MAX_PORTION), board[j as int], color);
        } else {
            lemma_occurrences_absent(board[j as int], color);
        }
    }
}

/// Dealing moves every portion into some tube: the totals on the board
/// are the occurrences among the portions dealt.
pub proof fn lemma_dealt_total(portions: Seq<i32>, color: i32)
    requires
        portions.len() == MAX_PORTION * COLOR_COUNT,
    ensures
        color_total(dealt(portions), color) == occurrences(portions, color),
{
    lemma_dealt_prefix(portions, TUBE_COUNT as nat, color);
    assert(dealt(portions).take(TUBE_COUNT as int) =~= dealt(portions));
    assert(portions.take((COLOR_COUNT * MAX_PORTION) as int) =~= portions);
}

} // verus!
