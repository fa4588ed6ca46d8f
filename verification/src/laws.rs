//! What holds of the engine over whole games: conservation, capacity,
//! selection, pouring, winning and the freeze that follows a win.

use crate::board::{
    cleared, color_total, dealt, is_color, lemma_pour_drains_run, lemma_pour_is_maximal, poured,
    TUBE_COUNT,
};
use crate::model::{
    is_shuffle, lemma_opening_wf, lemma_step_effects, Command, GameView, TRANSFERING_WAIT,
};
use crate::tube::{complete, settled, top, vacant, MAX_PORTION};
use vstd::prelude::*;
use vstd::seq_lib::to_multiset_contains;

verus! {

/// A tick takes a well-formed state to a well-formed state.
pub proof fn lemma_step_preserves_wf(game: GameView, command: Command)
    requires
        game.wf(),
        command.valid(),
    ensures
        game.step(command).wf(),
{
    lemma_step_effects(game, command);
}

/// Any number of ticks takes a well-formed state to a well-formed state.
pub proof fn lemma_run_preserves_wf(game: GameView, commands: Seq<Command>)
    requires
        game.wf(),
        forall|i: int| 0 <= i < commands.len() ==> (#[trigger] commands[i]).valid(),
    ensures
        game.run(commands).wf(),
    decreases commands.len(),
{
    if commands.len() > 0 {
        lemma_run_preserves_wf(game, commands.drop_last());
        lemma_step_preserves_wf(game.run(commands.drop_last()), commands.last());
    }
}

/// Conservation: at every tick of a game, from the deal on, the tubes
/// hold each color exactly `MAX_PORTION` times between them.
pub proof fn lemma_conservation(portions: Seq<i32>, commands: Seq<Command>, color: i32)
    requires
        is_shuffle(portions),
        forall|i: int| 0 <= i < commands.len() ==> (#[trigger] commands[i]).valid(),
        is_color(color),
    ensures
        color_total(GameView::opening(dealt(portions)).run(commands).tubes, color) == MAX_PORTION,
{
    lemma_opening_wf(portions);
    lemma_run_preserves_wf(GameView::opening(dealt(portions)), commands);
}

/// Capacity: at every tick of a game, from the deal on, no tube holds
/// more than `MAX_PORTION` portions.
pub proof fn lemma_capacity(portions: Seq<i32>, commands: Seq<Command>, tube: int)
    requires
        is_shuffle(portions),
        forall|i: int| 0 <= i < commands.len() ==> (#[trigger] commands[i]).valid(),
        0 <= tube < TUBE_COUNT,
    ensures
        0 <= GameView::opening(dealt(portions)).run(commands).tubes[tube].len() <= MAX_PORTION,
{
    lemma_opening_wf(portions);
    lemma_run_preserves_wf(GameView::opening(dealt(portions)), commands);
}

/// Selection toggling: with nothing selected, picking the same tube on
/// two ticks in a row ends with nothing selected; the board, the state
/// and the sound queue are as before, and only the frame count moved on.
pub proof fn lemma_select_twice_deselects(game: GameView, index: usize)
    requires
        game.wf(),
        game.from_tube is None,
        index < TUBE_COUNT,
    ensures
        game.step(Command::Select(index)).step(Command::Select(index)) == (GameView {
            frame: game.frame + 2,
            ..game
        }),
{
}

/// Pour validity, before: the board changes during a tick exactly when
/// the tick starts a pour, which takes a target that accepts it; and the
/// engine leaves the playing state exactly when it does.
pub proof fn lemma_pour_only_when_accepted(game: GameView, command: Command)
    requires
        game.wf(),
        command.valid(),
    ensures
        (game.step(command).tubes != game.tubes) == game.pours(command),
        game.state is Playing ==> (game.step(command).state is Transfering <==> game.pours(
            command,
        )),
        game.pours(command) ==> game.step(command).tubes == poured(
            game.tubes,
            game.from_tube.unwrap() as int,
            command->Select_0 as int,
        ),
{
}

/// Pour validity, after: a pour moves at least one portion, the target
/// then shows the poured color on top, and the source has lost its whole
/// top run of that color unless the target filled up first. For the
/// length of the animation the engine remembers the color and the count.
pub proof fn lemma_pour_outcome(game: GameView, command: Command)
    requires
        game.wf(),
        command.valid(),
        game.pours(command),
    ensures
        ({
            let from = game.from_tube.unwrap() as int;
            let to = command->Select_0 as int;
            let after = game.step(command);
            &&& after.transferred_count >= 1
            &&& after.transfering_wait == TRANSFERING_WAIT
            &&& top(game.tubes[from]) == Some(after.transfering_color)
            &&& top(after.tubes[to]) == Some(after.transfering_color)
            &&& after.tubes[from].len() + after.transferred_count == game.tubes[from].len()
            &&& after.tubes[to].len() == game.tubes[to].len() + after.transferred_count
            &&& {
                ||| after.tubes[from].len() == 0
                ||| top(after.tubes[from]) != Some(after.transfering_color)
                ||| after.tubes[to].len() == MAX_PORTION
            }
        }),
{
    let from = game.from_tube.unwrap() as int;
    let to = command->Select_0 as int;
    lemma_pour_drains_run(game.tubes, from, to);
    lemma_pour_is_maximal(game.tubes, from, to);
}

/// Win correctness: on a board that holds real colors only, being
/// cleared means that every tube is empty or full of one color.
pub proof fn lemma_cleared_means_sorted(tubes: Seq<Seq<i32>>)
    requires
        forall|i: int, j: int|
            0 <= i < tubes.len() && 0 <= j < tubes[i].len() ==> is_color(#[trigger] tubes[i][j]),
    ensures
        cleared(tubes) <==> forall|i: int|
            0 <= i < tubes.len() ==> (#[trigger] tubes[i]).len() == 0 || complete(tubes[i]),
{
    assert forall|i: int| 0 <= i < tubes.len() implies (vacant(#[trigger] tubes[i])
        <==> tubes[i].len() == 0) by {
        if tubes[i].len() > 0 {
            assert(is_color(tubes[i][0]));
        }
    }
    if cleared(tubes) {
        assert forall|i: int| 0 <= i < tubes.len() implies (#[trigger] tubes[i]).len() == 0
            || complete(tubes[i]) by {
            assert(settled(tubes[i]));
        }
    }
}

/// Win correctness does not depend on the order of the tubes: two boards
/// that hold the same tubes are both cleared or both not.
pub proof fn lemma_cleared_ignores_order(left: Seq<Seq<i32>>, right: Seq<Seq<i32>>)
    requires
        left.to_multiset() == right.to_multiset(),
    ensures
        cleared(left) == cleared(right),
{
    assert forall|tube: Seq<i32>| left.contains(tube) <==> right.contains(tube) by {
        to_multiset_contains(left, tube);
        to_multiset_contains(right, tube);
    }
    if cleared(left) {
        assert forall|i: int| 0 <= i < right.len() implies settled(#[trigger] right[i]) by {
            assert(right.contains(right[i]));
            assert(left.contains(right[i]));
        }
    }
    if cleared(right) {
        assert forall|i: int| 0 <= i < left.len() implies settled(#[trigger] left[i]) by {
            assert(left.contains(left[i]));
            assert(right.contains(left[i]));
        }
    }
}

/// Freeze after win: once the win flag is up it stays up, and no command
/// on any later tick changes what a tube holds.
pub proof fn lemma_frozen_after_win(game: GameView, commands: Seq<Command>)
    requires
        game.is_clear,
    ensures
        game.run(commands).is_clear,
        game.run(commands).tubes == game.tubes,
    decreases commands.len(),
{
    if commands.len() > 0 {
        lemma_frozen_after_win(game, commands.drop_last());
    }
}

/// An animation cannot be interrupted: while it runs, ticks only count
/// down, whatever the commands; the board and the selection stay as they
/// are. On the tick where the count reaches zero the engine is playing
/// again with nothing selected.
pub proof fn lemma_animation_runs_its_course(game: GameView, commands: Seq<Command>)
    requires
        game.state is Transfering,
        1 <= commands.len() <= game.transfering_wait,
    ensures
        game.run(commands).tubes == game.tubes,
        game.run(commands).frame == game.frame + commands.len(),
        commands.len() < game.transfering_wait ==> {
            &&& game.run(commands).state is Transfering
            &&& game.run(commands).transfering_wait == game.transfering_wait - commands.len()
            &&& game.run(commands).from_tube == game.from_tube
            &&& game.run(commands).transferred_count == game.transferred_count
            &&& game.run(commands).requested_sounds == game.requested_sounds
            &&& game.run(commands).is_clear == game.is_clear
        },
        commands.len() == game.transfering_wait ==> {
            &&& game.run(commands).state is Playing
            &&& game.run(commands).from_tube is None
            &&& game.run(commands).transferred_count == 0
            &&& game.run(commands).is_clear == (game.is_clear || cleared(game.tubes))
        },
    decreases commands.len(),
{
    if commands.len() > 1 {
        lemma_animation_runs_its_course(game, commands.drop_last());
    } else {
        assert(game.run(commands.drop_last()) == game);
    }
}

} // verus!
