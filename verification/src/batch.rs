//! A batch of games that can be paused and resumed.
//!
//! The batch keeps the game in progress, the number of games finished and
//! the total of their metrics, so that a later call goes on exactly where
//! the last one stopped. An unfinished batch has no result.

use vstd::prelude::*;
use crate::card::Card;
use crate::game::{phase_index, Phase, StepCommand, MAX_TURNS};
use crate::history::{sum, Config, BATCH_SIZE};
use crate::play::{is_game, phase_step, GameState};
use crate::sim::{
    is_batch, is_library, is_scenario_game, picks_for, shuffled_deck, GamePicks,
};

verus! {

/// A batch in progress.
pub struct Batch {
    pub config: Config,
    /// The numbers that shuffle the decks: game `g` uses `picks[g]`.
    pub picks: Vec<GamePicks>,
    /// Games finished.
    pub completed: u32,
    /// Total of the finished games' metrics.
    pub total: u32,
    /// The game in progress, if one has begun.
    pub game: Option<GameState>,
    /// The finished games' metrics, in order.
    pub metrics: Ghost<Seq<u32>>,
    /// The states that the game in progress has gone through, the current
    /// one last.
    pub trace: Ghost<Seq<GameState>>,
}

/// `trace` is the course so far of an unfinished game between two decks of
/// `config`, shuffled by the two lists of picks, and `game` is its current
/// state.
#[verifier::opaque]
pub open spec fn in_progress(
    config: Config,
    picks: (Seq<usize>, Seq<usize>),
    trace: Seq<GameState>,
    game: GameState,
) -> bool {
    &&& trace.len() >= 1
    &&& trace[trace.len() - 1] == game
    &&& forall|i: int|
        0 <= i < trace.len() - 1 ==> phase_step(#[trigger] trace[i], trace[i + 1], None)
    &&& exists|first: Vec<Card>, second: Vec<Card>|
        is_library(config, picks.0, first@) && is_library(config, picks.1, second@)
            && trace[0].is_initial(first, second)
}

/// How a call that advances a batch ended.
#[derive(Clone, Copy, Debug, PartialEq, Eq, Structural)]
pub enum Progress {
    /// Paused at a phase or turn boundary; the batch can be resumed.
    Paused,
    /// All games are played; the value is the batch total.
    Finished(u32),
    /// Cancelled; the batch has no result.
    Aborted,
}

/// `after` is what `before` becomes when it goes on as far as `mode` asks,
/// and `r` is how that ends. Finished games keep their metrics and an
/// unfinished game is continued, never begun again. `Quit` changes nothing,
/// and neither does any mode on a batch that is done. Otherwise
/// `StepPhase` plays exactly one phase; `StepTurn` plays to the first phase
/// of the next turn, or to the end of the game if that comes first;
/// `RunGame` plays to the end of the game; `RunDeck` and `RunAll` play to
/// the end of the batch.
pub open spec fn advanced(before: Batch, after: Batch, mode: StepCommand, r: Progress) -> bool {
    &&& after.config == before.config
    &&& after.picks == before.picks
    &&& before.completed <= after.completed
    &&& after.metrics@.take(before.completed as int) == before.metrics@
    &&& before.game.is_some() && after.completed == before.completed ==> after.game.is_some()
        && after.trace@.take(before.trace@.len() as int) == before.trace@
    &&& if mode == StepCommand::Quit {
        r == Progress::Aborted && after == before
    } else if before.done() {
        r == after.progress() && after == before
    } else {
        &&& r == after.progress()
        &&& match mode {
            StepCommand::StepPhase => match after.game {
                Some(game) => after.completed == before.completed && after.trace@.len()
                    == before.course_len() + 1,
                None => after.completed == before.completed + 1,
            },
            StepCommand::StepTurn => match after.game {
                Some(game) => after.completed == before.completed && game.phase == Phase::Untap
                    && game.turn == before.current_turn() + 1,
                None => after.completed == before.completed + 1,
            },
            StepCommand::RunGame => after.completed == before.completed + 1
                && after.game.is_none(),
            _ => after.done(),
        }
    }
}

/// `after` is `before` one phase later, and `ended` is the metric of the
/// game if it ended in that phase. A game that ended is counted once; one
/// that goes on has one state more in its course, in the same turn or in
/// the first phase of the next.
pub open spec fn stepped(before: Batch, after: Batch, ended: Option<u32>) -> bool {
    &&& after.config == before.config
    &&& after.picks == before.picks
    &&& after.remaining() < before.remaining()
    &&& match ended {
        Some(turns) => {
            &&& after.game.is_none()
            &&& after.completed == before.completed + 1
            &&& after.total == before.total + turns
            &&& after.metrics@ == before.metrics@.push(turns)
        },
        None => {
            &&& after.game.is_some()
            &&& after.completed == before.completed
            &&& after.total == before.total
            &&& after.metrics == before.metrics
            &&& after.trace@.len() == before.course_len() + 1
            &&& before.game.is_some() ==> after.trace@ == before.trace@.push(after.game.unwrap())
            &&& after.game.unwrap().turn == before.current_turn() || (after.game.unwrap().turn
                == before.current_turn() + 1 && after.game.unwrap().phase == Phase::Untap)
        },
    }
}

impl Batch {
    /// Validity: the metrics recorded are those of the batch's first games,
    /// each played from its own picks; the counters agree with them; and a
    /// game is in progress only while games are left to play.
    pub open spec fn wf(&self) -> bool {
        &&& self.completed <= BATCH_SIZE
        &&& self.metrics@.len() == self.completed
        &&& is_batch(self.config, self.picks@, self.metrics@)
        &&& self.total == sum(self.metrics@)
        &&& self.completed <= self.total <= self.completed * MAX_TURNS
        &&& match self.game {
            Some(game) => {
                &&& game.wf()
                &&& self.completed < BATCH_SIZE
                &&& in_progress(
                    self.config,
                    picks_for(self.picks@, self.completed as int),
                    self.trace@,
                    game,
                )
            },
            None => true,
        }
    }

    /// All games of the batch are played.
    pub open spec fn done(&self) -> bool {
        self.completed == BATCH_SIZE
    }

    /// What is left to do, as a number that every step lowers.
    pub open spec fn remaining(&self) -> int {
        (BATCH_SIZE - self.completed) * 3000 + match self.game {
            Some(game) => (MAX_TURNS - game.turn) * 10 + (9 - phase_index(game.phase)),
            None => 2500,
        }
    }

    /// The turn of the game in progress, or of the game about to begin.
    pub open spec fn current_turn(&self) -> int {
        match self.game {
            Some(game) => game.turn as int,
            None => 1,
        }
    }

    /// Number of states that the game in progress, or about to begin, has
    /// gone through.
    pub open spec fn course_len(&self) -> int {
        match self.game {
            Some(game) => self.trace@.len() as int,
            None => 1,
        }
    }

    /// How a call that went on with the batch ends: with the total once
    /// every game is played, else paused.
    pub open spec fn progress(&self) -> Progress {
        if self.done() {
            Progress::Finished(self.total)
        } else {
            Progress::Paused
        }
    }

    /// A batch for `config` with no game played, game `g` to be shuffled by
    /// `picks[g]`.
    pub fn new(config: Config, picks: Vec<GamePicks>) -> (b: Batch)
        ensures
            b.wf(),
            b.config == config,
            b.picks == picks,
            b.completed == 0,
            b.total == 0,
            b.game.is_none(),
            b.metrics@ == Seq::<u32>::empty(),
    {
        Batch {
            config,
            picks,
            completed: 0,
            total: 0,
            game: None,
            metrics: Ghost(Seq::empty()),
            trace: Ghost(Seq::empty()),
        }
    }

    /// The batch total, once all games are played; nothing before that.
    pub fn result(&self) -> (r: Option<u32>)
        ensures
            r == if self.done() {
                Some(self.total)
            } else {
                None
            },
    {
        if self.completed == BATCH_SIZE {
            Some(self.total)
        } else {
            None
        }
    }

    /// Begins the next game: both players get the deck of the batch's
    /// configuration, each shuffled by its picks for this game.
    pub fn begin_game(&mut self)
        requires
            old(self).wf(),
            old(self).game.is_none(),
            !old(self).done(),
        ensures
            final(self).wf(),
            final(self).game.is_some(),
            final(self).trace@ == Seq::<GameState>::empty().push(final(self).game.unwrap()),
            final(self).game.unwrap().turn == 1,
            final(self).game.unwrap().phase == Phase::Untap,
            final(self).config == old(self).config,
            final(self).picks == old(self).picks,
            final(self).completed == old(self).completed,
            final(self).total == old(self).total,
            final(self).metrics == old(self).metrics,
    {
        let g = self.completed as usize;
        let none: Vec<usize> = Vec::new();
        let (first, second) = if g < self.picks.len() {
            (
                shuffled_deck(self.config, &self.picks[g].first),
                shuffled_deck(self.config, &self.picks[g].second),
            )
        } else {
            (shuffled_deck(self.config, &none), shuffled_deck(self.config, &none))
        };
        let game = GameState::new(first, second);
        self.trace = Ghost(Seq::empty().push(game));
        self.game = Some(game);
        proof {
            reveal(in_progress);
            assert(self.trace@[0].is_initial(first, second));
        }
    }

    /// Plays one phase of the game in progress. Where the game ends, its
    /// metric is returned and added to the batch, once, and no game is in
    /// progress any more.
    pub fn tick(&mut self) -> (ended: Option<u32>)
        requires
            old(self).wf(),
            old(self).game.is_some(),
        ensures
            final(self).wf(),
            final(self).config == old(self).config,
            final(self).picks == old(self).picks,
            final(self).remaining() < old(self).remaining(),
            match ended {
                Some(turns) => {
                    &&& exists|last: GameState|
                        phase_step(old(self).game.unwrap(), last, Some(turns))
                    &&& final(self).game.is_none()
                    &&& final(self).completed == old(self).completed + 1
                    &&& final(self).total == old(self).total + turns
                    &&& final(self).metrics@ == old(self).metrics@.push(turns)
                },
                None => {
                    &&& final(self).game.is_some()
                    &&& final(self).trace@ == old(self).trace@.push(final(self).game.unwrap())
                    &&& phase_step(old(self).game.unwrap(), final(self).game.unwrap(), None)
                    &&& final(self).completed == old(self).completed
                    &&& final(self).total == old(self).total
                    &&& final(self).metrics == old(self).metrics
                },
            },
    {
        let mut game = self.game.take().unwrap();
        let ghost before = game;
        let ghost course = self.trace@;
        let ghost picks = picks_for(self.picks@, self.completed as int);
        let ended = game.tick();
        let ghost longer = course.push(game);
        proof {
            reveal(in_progress);
            assert(in_progress(self.config, picks, course, before));
            assert forall|i: int| 0 <= i < longer.len() - 2 implies phase_step(
                #[trigger] longer[i],
                longer[i + 1],
                None,
            ) by {
                assert(longer[i] == course[i]);
                assert(longer[i + 1] == course[i + 1]);
            }
            assert(longer[0] == course[0]);
            assert(longer[longer.len() - 2] == before);
        }
        match ended {
            Some(turns) => {
                proof {
                    crate::history::lemma_sum_push(self.metrics@, turns);
                    let (first, second) = choose|first: Vec<Card>, second: Vec<Card>|
                        is_library(self.config, picks.0, first@) && is_library(
                            self.config,
                            picks.1,
                            second@,
                        ) && course[0].is_initial(first, second);
                    assert(is_game(longer, first, second, turns));
                    assert(is_scenario_game(self.config, picks.0, picks.1, turns));
                }
                self.completed = self.completed + 1;
                self.total = self.total + turns;
                self.metrics = Ghost(self.metrics@.push(turns));
            },
            None => {
                self.trace = Ghost(longer);
                self.game = Some(game);
            },
        }
        ended
    }

    /// Plays one phase, beginning the next game first if none is in
    /// progress.
    pub fn step_once(&mut self) -> (ended: Option<u32>)
        requires
            old(self).wf(),
            !old(self).done(),
        ensures
            final(self).wf(),
            stepped(*old(self), *final(self), ended),
    {
        if self.game.is_none() {
            self.begin_game();
        }
        self.tick()
    }

    /// Plays the game in progress, or the next one, to its end, and returns
    /// its metric.
    pub fn finish_game(&mut self) -> (turns: u32)
        requires
            old(self).wf(),
            !old(self).done(),
        ensures
            final(self).wf(),
            final(self).config == old(self).config,
            final(self).picks == old(self).picks,
            final(self).game.is_none(),
            final(self).completed == old(self).completed + 1,
            final(self).total == old(self).total + turns,
            final(self).metrics@ == old(self).metrics@.push(turns),
    {
        loop
            invariant
                self.wf(),
                !self.done(),
                self.config == old(self).config,
                self.picks == old(self).picks,
                self.completed == old(self).completed,
                self.total == old(self).total,
                self.metrics == old(self).metrics,
            decreases self.remaining(),
        {
            match self.step_once() {
                Some(turns) => {
                    return turns;
                },
                None => {},
            }
        }
    }

    /// Plays to the first phase of the next turn, or to the end of the game
    /// if that comes first. Returns whether the game ended.
    pub fn finish_turn(&mut self) -> (ended: bool)
        requires
            old(self).wf(),
            !old(self).done(),
        ensures
            final(self).wf(),
            final(self).config == old(self).config,
            final(self).picks == old(self).picks,
            ended == final(self).game.is_none(),
            match final(self).game {
                Some(game) => {
                    &&& final(self).completed == old(self).completed
                    &&& final(self).metrics == old(self).metrics
                    &&& game.phase == Phase::Untap
                    &&& game.turn == old(self).current_turn() + 1
                    &&& old(self).game.is_some() ==> final(self).trace@.take(
                        old(self).trace@.len() as int,
                    ) == old(self).trace@
                },
                None => {
                    &&& final(self).completed == old(self).completed + 1
                    &&& final(self).metrics@.take(old(self).completed as int) == old(
                        self,
                    ).metrics@
                },
            },
    {
        let turn_before: u32 = match &self.game {
            Some(game) => game.turn,
            None => 1,
        };
        proof {
            assert(self.trace@.take(self.trace@.len() as int) =~= self.trace@);
        }
        loop
            invariant
                self.wf(),
                !self.done(),
                self.config == old(self).config,
                self.picks == old(self).picks,
                self.completed == old(self).completed,
                self.metrics == old(self).metrics,
                turn_before == old(self).current_turn(),
                self.current_turn() == turn_before,
                old(self).game.is_some() ==> self.game.is_some() && old(self).trace@.len()
                    <= self.trace@.len() && self.trace@.take(old(self).trace@.len() as int) == old(
                    self,
                ).trace@,
            decreases self.remaining(),
        {
            let ghost course = self.trace@;
            let ghost had_game = self.game.is_some();
            let ended = self.step_once();
            if ended.is_some() {
                proof {
                    assert(self.metrics@.take(old(self).completed as int) =~= old(self).metrics@);
                }
                return true;
            }
            proof {
                if old(self).game.is_some() {
                    assert(had_game);
                    assert(self.trace@ == course.push(self.game.unwrap()));
                    assert(self.trace@.take(old(self).trace@.len() as int) =~= course.take(
                        old(self).trace@.len() as int,
                    ));
                }
            }
            let passed = match &self.game {
                Some(game) => game.turn != turn_before,
                None => true,
            };
            if passed {
                return false;
            }
        }
    }

    /// Plays every game that is left.
    pub fn finish_batch(&mut self)
        requires
            old(self).wf(),
        ensures
            final(self).wf(),
            final(self).config == old(self).config,
            final(self).picks == old(self).picks,
            final(self).done(),
            final(self).game.is_none() || *final(self) == *old(self),
            old(self).done() ==> *final(self) == *old(self),
            final(self).metrics@.take(old(self).completed as int) == old(self).metrics@,
    {
        let start: u32 = self.completed;
        proof {
            assert(self.metrics@.take(start as int) =~= self.metrics@);
        }
        while self.completed < BATCH_SIZE
            invariant
                self.wf(),
                self.config == old(self).config,
                self.picks == old(self).picks,
                start == old(self).completed,
                start <= self.completed,
                self.game.is_none() || *self == *old(self),
                old(self).done() ==> *self == *old(self),
                self.metrics@.take(start as int) == old(self).metrics@,
            decreases BATCH_SIZE - self.completed,
        {
            let ghost before = self.metrics@;
            let turns = self.finish_game();
            proof {
                assert(self.metrics@.take(start as int) =~= before.take(start as int));
            }
        }
    }

    /// Goes on with the batch as far as `mode` asks: one phase, to the end
    /// of the turn, to the end of the game, or to the end of the batch.
    /// `Quit` cancels at once and leaves the batch untouched. Games already
    /// finished are never played or counted again.
    pub fn advance(&mut self, mode: StepCommand) -> (r: Progress)
        requires
            old(self).wf(),
        ensures
            final(self).wf(),
            advanced(*old(self), *final(self), mode, r),
    {
        proof {
            assert(self.metrics@.take(self.completed as int) =~= self.metrics@);
            if self.game.is_some() {
                assert(self.trace@.take(self.trace@.len() as int) =~= self.trace@);
            }
        }
        if mode == StepCommand::Quit {
            return Progress::Aborted;
        }
        if self.completed < BATCH_SIZE {
            match mode {
                StepCommand::StepPhase => {
                    let ended = self.step_once();
                    proof {
                        assert(self.metrics@.take(old(self).completed as int) =~= old(
                            self,
                        ).metrics@);
                        if old(self).game.is_some() && ended.is_none() {
                            assert(self.trace@.take(old(self).trace@.len() as int) =~= old(
                                self,
                            ).trace@);
                        }
                    }
                },
                StepCommand::StepTurn => {
                    self.finish_turn();
                },
                StepCommand::RunGame => {
                    let turns = self.finish_game();
                    proof {
                        assert(self.metrics@.take(old(self).completed as int) =~= old(
                            self,
                        ).metrics@);
                    }
                },
                _ => {
                    self.finish_batch();
                },
            }
        }
        if self.completed == BATCH_SIZE {
            Progress::Finished(self.total)
        } else {
            Progress::Paused
        }
    }
}

} // verus!
