//! The puzzle engine: the game state, its abstract model, and the tick
//! function that drives it.

use crate::board::{
    board_of, can_pour, cleared, color_total, conserved, deal, dealt, is_cleared, is_color,
    is_conserved, is_within_capacity, lemma_dealt_total, lemma_pour_conserves,
    lemma_pour_drains_run, lemma_pour_is_maximal, lemma_pour_within_capacity,
    lemma_sorted_portions_balanced,
    make_portions, pour, pour_amount, poured, sorted_portions, within_capacity, COLOR_COUNT,
    TUBE_COUNT,
};
use crate::random::{shuffle_seeded, shuffled_order};
use crate::tube::{lemma_top_run_bounds, top, MAX_PORTION};
use rand::rngs::StdRng;
use vstd::prelude::*;
use vstd::seq_lib::to_multiset_len;

verus! {

/// Ticks per second that the host loop aims for.
pub const FPS: i32 = 30;

/// Number of ticks a pour animation lasts.
pub const TRANSFERING_WAIT: i32 = 15;

/// What the player asked for during one tick.
#[derive(Debug, Clone, Copy, PartialEq, Eq, Structural)]
pub enum Command {
    /// Nothing was asked for.
    Idle,
    /// The player picked the tube with this index.
    Select(usize),
}

impl Command {
    /// A command is valid when the tube it names, if any, is on the board.
    pub open spec fn valid(self) -> bool {
        self matches Command::Select(index) ==> index < TUBE_COUNT
    }
}

/// Whether the engine accepts selections or is busy animating a pour.
#[derive(Debug, Clone, Copy, PartialEq, Eq, Structural)]
pub enum GameState {
    Playing,
    Transfering,
}

/// The puzzle engine.
pub struct Game {
    pub rng: StdRng,
    pub frame: i32,
    pub is_clear: bool,
    pub requested_sounds: Vec<&'static str>,
    pub tubes: Vec<Vec<i32>>,
    pub from_tube: Option<usize>,
    pub to_tube: Option<usize>,
    pub state: GameState,
    pub transfering_wait: i32,
    pub transferred_count: i32,
    pub transfering_color: i32,
}

/// The engine as a mathematical value: everything but the random
/// generator, which plays no part once the board is dealt.
pub struct GameView {
    pub frame: int,
    pub is_clear: bool,
    pub requested_sounds: Seq<Seq<char>>,
    pub tubes: Seq<Seq<i32>>,
    pub from_tube: Option<usize>,
    pub to_tube: Option<usize>,
    pub state: GameState,
    pub transfering_wait: int,
    pub transferred_count: int,
    pub transfering_color: i32,
}

/// Name of the sound requested when a pour starts.
pub open spec fn pour_sound() -> Seq<char> {
    "pour"@
}

/// Name of the sound requested when the board is cleared.
pub open spec fn bravo_sound() -> Seq<char> {
    "bravo"@
}

/// A sequence of portions is a shuffle when it holds exactly the portions
/// of a new game, in any order.
pub open spec fn is_shuffle(portions: Seq<i32>) -> bool {
    &&& portions.len() == MAX_PORTION * COLOR_COUNT
    &&& portions.to_multiset() == sorted_portions().to_multiset()
}

/// The board that a game seeded with `seed` opens on: the sorted portions,
/// in the order the seeded shuffle leaves them, dealt onto the tubes.
pub open spec fn opening_board(seed: u64) -> Seq<Seq<i32>> {
    dealt(shuffled_order(seed, sorted_portions()))
}

impl GameView {
    /// The state of a game that has just been dealt.
    pub open spec fn opening(tubes: Seq<Seq<i32>>) -> GameView {
        GameView {
            frame: -1,
            is_clear: false,
            requested_sounds: Seq::empty(),
            tubes,
            from_tube: None,
            to_tube: None,
            state: GameState::Playing,
            transfering_wait: 0,
            transferred_count: 0,
            transfering_color: 0,
        }
    }

    /// What holds of every state the engine can be in.
    pub open spec fn wf(self) -> bool {
        &&& self.frame >= -1
        &&& self.tubes.len() == TUBE_COUNT
        &&& within_capacity(self.tubes)
        &&& conserved(self.tubes)
        &&& self.from_tube matches Some(from) ==> from < TUBE_COUNT
        &&& self.state is Playing ==> (self.from_tube matches Some(from) ==> self.tubes[from as int]
            .len() > 0)
        &&& self.state is Transfering ==> {
            &&& self.from_tube matches Some(from)
            &&& 1 <= self.transfering_wait <= TRANSFERING_WAIT
            &&& 0 <= self.transferred_count
            &&& 1 <= self.tubes[from as int].len() + self.transferred_count <= MAX_PORTION
        }
        &&& self.is_clear ==> self.state is Playing && cleared(self.tubes)
    }

    /// The win check: on a cleared board the win flag is raised and the
    /// bravo sound requested; otherwise nothing changes.
    pub open spec fn check_clear(self) -> GameView {
        if cleared(self.tubes) {
            GameView {
                is_clear: true,
                requested_sounds: self.requested_sounds.push(bravo_sound()),
                ..self
            }
        } else {
            self
        }
    }

    /// The start of a pour from the selected tube into tube `index`.
    pub open spec fn transfer(self, index: usize) -> GameView
        recommends
            self.from_tube is Some,
    {
        let from = self.from_tube.unwrap();
        let source = self.tubes[from as int];
        GameView {
            tubes: poured(self.tubes, from as int, index as int),
            transfering_color: source.last(),
            transferred_count: pour_amount(source, self.tubes[index as int]) as int,
            requested_sounds: self.requested_sounds.push(pour_sound()),
            state: GameState::Transfering,
            transfering_wait: TRANSFERING_WAIT as int,
            ..self
        }
    }

    /// The effect of selecting tube `index` while playing.
    pub open spec fn select(self, index: usize) -> GameView {
        match self.from_tube {
            None => if self.tubes[index as int].len() != 0 {
                GameView { from_tube: Some(index), ..self }
            } else {
                self
            },
            Some(from) => if from == index {
                GameView { from_tube: None, ..self }
            } else if can_pour(self.tubes, from as int, index as int) {
                self.transfer(index)
            } else {
                self
            },
        }
    }

    /// One tick of the engine.
    pub open spec fn step(self, command: Command) -> GameView {
        let ticked = GameView { frame: self.frame + 1, ..self };
        if self.state is Transfering {
            if self.transfering_wait - 1 == 0 {
                GameView {
                    state: GameState::Playing,
                    from_tube: None,
                    transferred_count: 0,
                    transfering_wait: 0,
                    ..ticked
                }.check_clear()
            } else {
                GameView { transfering_wait: self.transfering_wait - 1, ..ticked }
            }
        } else if self.is_clear {
            ticked
        } else {
            match command {
                Command::Idle => ticked,
                Command::Select(index) => ticked.select(index),
            }
        }
    }
}

impl GameView {
    /// The state after a series of ticks, one command per tick.
    pub open spec fn run(self, commands: Seq<Command>) -> GameView
        decreases commands.len(),
    {
        if commands.len() == 0 {
            self
        } else {
            self.run(commands.drop_last()).step(commands.last())
        }
    }

    /// Whether a tick with this command starts a pour: the engine is
    /// playing an unfinished game, a source is selected, and the command
    /// picks another tube that accepts the pour.
    pub open spec fn pours(self, command: Command) -> bool {
        &&& self.state is Playing
        &&& !self.is_clear
        &&& command matches Command::Select(to)
        &&& self.from_tube matches Some(from)
        &&& from != to
        &&& can_pour(self.tubes, from as int, to as int)
    }
}

impl View for Game {
    type V = GameView;

    open spec fn view(&self) -> GameView {
        GameView {
            frame: self.frame as int,
            is_clear: self.is_clear,
            requested_sounds: self.requested_sounds@.map_values(|name: &'static str| name@),
            tubes: board_of(self.tubes),
            from_tube: self.from_tube,
            to_tube: self.to_tube,
            state: self.state,
            transfering_wait: self.transfering_wait as int,
            transferred_count: self.transferred_count as int,
            transfering_color: self.transfering_color,
        }
    }
}

/// Any shuffle of the portions deals a well-formed opening.
pub proof fn lemma_opening_wf(portions: Seq<i32>)
    requires
        is_shuffle(portions),
    ensures
        GameView::opening(dealt(portions)).wf(),
{
    let board = dealt(portions);
    assert forall|color: i32| #[trigger]
        color_total(board, color) == if is_color(color) {
            MAX_PORTION as nat
        } else {
            0
        } by {
        lemma_dealt_total(portions, color);
        lemma_sorted_portions_balanced(color);
    }
}

/// Starting a pour out of the selected tube keeps the state well formed.
pub proof fn lemma_transfer_wf(game: GameView, index: usize)
    requires
        game.wf(),
        game.state is Playing,
        !game.is_clear,
        index < TUBE_COUNT,
        game.from_tube matches Some(from) && from != index,
    ensures
        game.transfer(index).wf(),
{
    let from = game.from_tube.unwrap() as int;
    let source = game.tubes[from];
    lemma_top_run_bounds(source, source.last());
    lemma_pour_within_capacity(game.tubes, from, index as int);
    assert forall|color: i32| #[trigger]
        color_total(poured(game.tubes, from, index as int), color) == if is_color(color) {
            MAX_PORTION as nat
        } else {
            0
        } by {
        lemma_pour_conserves(game.tubes, from, index as int, color);
    }
}

/// What one tick does and does not do: it keeps the state well formed
/// and every color's total as it was; it changes the board exactly when
/// it starts a pour, which is also exactly when a playing engine turns
/// to the animation; and on a cleared game it only counts the frame.
pub proof fn lemma_step_effects(game: GameView, command: Command)
    requires
        game.wf(),
        command.valid(),
    ensures
        game.step(command).wf(),
        game.step(command).frame == game.frame + 1,
        forall|color: i32| #[trigger]
            color_total(game.step(command).tubes, color) == color_total(game.tubes, color),
        (game.step(command).tubes != game.tubes) == game.pours(command),
        game.state is Playing ==> (game.step(command).state is Transfering) == game.pours(command),
        game.is_clear ==> game.step(command) == (GameView { frame: game.frame + 1, ..game }),
{
    if game.pours(command) {
        let ticked = GameView { frame: game.frame + 1, ..game };
        let from = game.from_tube.unwrap() as int;
        let to = command->Select_0;
        lemma_transfer_wf(ticked, to);
        lemma_pour_drains_run(game.tubes, from, to as int);
        assert forall|color: i32| #[trigger]
            color_total(game.step(command).tubes, color) == color_total(game.tubes, color) by {
            lemma_pour_conserves(game.tubes, from, to as int, color);
        }
    }
}

impl Game {
    /// Starts a new game. The portions are shuffled by a generator seeded
    /// with `seed` and dealt onto the board, so the board is a function of
    /// the seed alone. The order it deals is a shuffle of the sorted
    /// portions, and the game opens in a well-formed state with nothing
    /// selected, nothing in motion and no sound requested.
    pub fn new(seed: u64) -> (game: Game)
        ensures
            game@ == GameView::opening(opening_board(seed)),
            is_shuffle(shuffled_order(seed, sorted_portions())),
            game@.wf(),
    {
        let mut portions = make_portions();
        let rng = shuffle_seeded(&mut portions, seed);
        proof {
            to_multiset_len(portions@);
            to_multiset_len(sorted_portions());
            lemma_opening_wf(portions@);
        }
        let tubes = deal(&portions);
        let game = Game {
            rng,
            frame: -1,
            is_clear: false,
            requested_sounds: Vec::new(),
            tubes,
            from_tube: None,
            to_tube: None,
            state: GameState::Playing,
            transfering_wait: 0,
            transferred_count: 0,
            transfering_color: 0,
        };
        assert(game@.requested_sounds =~= Seq::empty());
        game
    }

    /// Tells whether the state is well formed. A game made by `new` and
    /// driven by `update` always is; this is the check for a state that
    /// was put together by hand.
    pub fn is_well_formed(&self) -> (ok: bool)
        ensures
            ok == self@.wf(),
    {
        if self.frame < -1 || self.tubes.len() != TUBE_COUNT || !is_within_capacity(&self.tubes) {
            return false;
        }
        if !is_conserved(&self.tubes) {
            return false;
        }
        let source_len: usize = match self.from_tube {
            None => 0,
            Some(from) => {
                if from >= TUBE_COUNT {
                    return false;
                }
                assert(self@.tubes[from as int].len() <= MAX_PORTION);
                self.tubes[from].len()
            },
        };
        match self.state {
            GameState::Playing => {
                if self.from_tube.is_some() && source_len == 0 {
                    return false;
                }
            },
            GameState::Transfering => {
                if self.from_tube.is_none() || self.transfering_wait < 1 || self.transfering_wait
                    > TRANSFERING_WAIT || self.transferred_count < 0 {
                    return false;
                }
                if self.transferred_count > MAX_PORTION as i32 {
                    return false;
                }
                let before = source_len + self.transferred_count as usize;
                if before < 1 || before > MAX_PORTION {
                    return false;
                }
                if self.is_clear {
                    return false;
                }
            },
        }
        !self.is_clear || is_cleared(&self.tubes)
    }

    /// Advances the game by one tick.
    ///
    /// A running animation counts down and, when it ends, hands control
    /// back to the player after the win check. A cleared game ignores
    /// every command. Otherwise a selection picks a source, drops it
    /// again, or starts a pour into a tube that accepts it.
    pub fn update(&mut self, command: Command)
        requires
            old(self)@.wf(),
            old(self).frame < i32::MAX,
            command.valid(),
        ensures
            final(self)@ == old(self)@.step(command),
            final(self)@.wf(),
            final(self).rng == old(self).rng,
            final(self).frame == old(self).frame + 1,
            forall|color: i32| #[trigger]
                color_total(final(self)@.tubes, color) == color_total(old(self)@.tubes, color),
            (final(self)@.tubes != old(self)@.tubes) == old(self)@.pours(command),
            old(self).state is Playing ==> (final(self).state is Transfering) == old(self)@.pours(
                command,
            ),
            old(self).is_clear ==> {
                &&& final(self).is_clear
                &&& final(self)@.tubes == old(self)@.tubes
                &&& final(self).from_tube == old(self).from_tube
                &&& final(self).state == old(self).state
                &&& final(self)@.requested_sounds == old(self)@.requested_sounds
            },
    {
        proof {
            lemma_step_effects(old(self)@, command);
        }
        self.frame += 1;

        if self.state == GameState::Transfering {
            self.transfering_wait -= 1;
            if self.transfering_wait == 0 {
                self.state = GameState::Playing;
                self.from_tube = None;
                self.transferred_count = 0;
                self.check_clear();
            }
            return ;
        }
        if self.is_clear {
            return ;
        }
        match command {
            Command::Idle => {},
            Command::Select(index) => {
                match self.from_tube {
                    None => {
                        if self.transferrable_from(index) {
                            self.from_tube = Some(index);
                        }
                    },
                    Some(from) => {
                        if from == index {
                            self.from_tube = None;
                        } else if self.transferrable_to(index) {
                            self.transfer(index);
                        }
                    },
                }
            },
        }
    }

    /// Whether tube `index` can be picked as the source of a pour: it
    /// must hold something.
    pub fn transferrable_from(&self, index: usize) -> (yes: bool)
        requires
            index < self.tubes.len(),
        ensures
            yes == (self@.tubes[index as int].len() != 0),
    {
        self.tubes[index].len() != 0
    }

    /// Whether tube `index` accepts a pour from the selected tube.
    pub fn transferrable_to(&self, index: usize) -> (yes: bool)
        requires
            index < self.tubes.len(),
            self.from_tube matches Some(from) && from < self.tubes.len(),
        ensures
            yes == can_pour(self@.tubes, self.from_tube.unwrap() as int, index as int),
    {
        self.tubes[index].len() == 0 || (self.tubes[index].len() != MAX_PORTION
            && self.tubes[index].last() == self.tubes[self.from_tube.unwrap()].last())
    }

    /// Pours from the selected tube into tube `index` and starts the
    /// animation: the run of the source's top color moves over as far as
    /// the target has room, the pour sound is requested, and the engine
    /// is busy for `TRANSFERING_WAIT` ticks.
    pub fn transfer(&mut self, index: usize)
        requires
            old(self)@.wf(),
            old(self).state is Playing,
            !old(self).is_clear,
            index < TUBE_COUNT,
            old(self).from_tube matches Some(from) && from != index,
        ensures
            final(self)@ == old(self)@.transfer(index),
            final(self)@.wf(),
            final(self).rng == old(self).rng,
            final(self)@.requested_sounds == old(self)@.requested_sounds.push(pour_sound()),
            top(old(self)@.tubes[old(self).from_tube.unwrap() as int]) == Some(
                final(self).transfering_color,
            ),
            forall|color: i32| #[trigger]
                color_total(final(self)@.tubes, color) == color_total(old(self)@.tubes, color),
            ({
                let from = old(self).from_tube.unwrap() as int;
                let to = index as int;
                let before = old(self)@.tubes;
                let after = final(self)@.tubes;
                let poured_color = Some(final(self).transfering_color);
                &&& after.len() == before.len()
                &&& forall|i: int|
                    0 <= i < after.len() && i != from && i != to ==> #[trigger] after[i]
                        == before[i]
                &&& after[from].len() == before[from].len() - final(self).transferred_count
                &&& after[to].len() == before[to].len() + final(self).transferred_count
                &&& 0 <= final(self).transferred_count <= before[from].len()
                &&& {
                    ||| after[from].len() == 0
                    ||| top(after[from]) != poured_color
                    ||| after[to].len() == MAX_PORTION
                }
                &&& can_pour(before, from, to) ==> final(self).transferred_count >= 1 && top(
                    after[to],
                ) == poured_color
            }),
    {
        let from_tube = self.from_tube.unwrap();
        self.transfering_color = *self.tubes[from_tube].last().unwrap();
        let moved = pour(&mut self.tubes, from_tube, index);
        self.transferred_count = moved as i32;
        self.requested_sounds.push("pour");
        self.state = GameState::Transfering;
        self.transfering_wait = TRANSFERING_WAIT;
        proof {
            let before = old(self)@;
            assert(self@.requested_sounds =~= before.requested_sounds.push(pour_sound()));
            lemma_transfer_wf(before, index);
            lemma_pour_is_maximal(before.tubes, from_tube as int, index as int);
            if can_pour(before.tubes, from_tube as int, index as int) {
                lemma_pour_drains_run(before.tubes, from_tube as int, index as int);
            }
            assert forall|color: i32| #[trigger]
                color_total(self@.tubes, color) == color_total(before.tubes, color) by {
                lemma_pour_conserves(before.tubes, from_tube as int, index as int, color);
            }
        }
    }

    /// Runs the win check and reports its outcome: the board is cleared
    /// when every tube is settled. On a cleared board the win flag is
    /// raised and the bravo sound requested.
    pub fn check_clear(&mut self) -> (won: bool)
        ensures
            won == cleared(old(self)@.tubes),
            final(self)@ == old(self)@.check_clear(),
            final(self).rng == old(self).rng,
    {
        if is_cleared(&self.tubes) {
            self.is_clear = true;
            self.requested_sounds.push("bravo");
            assert(self@.requested_sounds =~= old(self)@.requested_sounds.push(bravo_sound()));
            true
        } else {
            false
        }
    }
}

} // verus!
