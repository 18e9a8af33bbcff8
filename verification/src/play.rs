//! The game as a state machine: one call advances it by one phase.
//!
//! The turn counter counts player-turns: it starts at 1 and goes up by one
//! each time the turn passes to the other player. A game ends when the
//! active player must draw from an empty library, when combat damage brings
//! the defending player's life to zero, or at the end of turn `MAX_TURNS`;
//! its metric is the turn in which it ended.

use vstd::prelude::*;
use crate::card::Card;
use crate::game::{
    after_attack, after_draw, after_main, after_untap, attack_power_spec, next_phase,
    next_phase_spec, phase_index, Phase, Player, MAX_TURNS, STARTING_LIFE,
};

verus! {

/// A game in progress.
#[derive(Debug)]
pub struct GameState {
    pub phase: Phase,
    /// Whether the first player is the active one.
    pub first_active: bool,
    pub first: Player,
    pub second: Player,
    pub turn: u32,
}

impl GameState {
    /// The player whose turn it is.
    pub open spec fn active(&self) -> Player {
        if self.first_active {
            self.first
        } else {
            self.second
        }
    }

    /// The other player.
    pub open spec fn inactive(&self) -> Player {
        if self.first_active {
            self.second
        } else {
            self.first
        }
    }

    /// Validity: the turn is within its range, and no player has more lands
    /// in play than turns it has had.
    pub open spec fn wf(&self) -> bool {
        &&& 1 <= self.turn <= MAX_TURNS
        &&& self.active().lands <= self.turn
        &&& self.inactive().lands < self.turn
        &&& (self.phase == Phase::Untap || !self.active().land_played) ==> self.active().lands
            < self.turn
    }

    /// The state at the start of a game between the two libraries.
    pub open spec fn is_initial(&self, first_library: Vec<Card>, second_library: Vec<Card>) -> bool {
        &&& self.phase == Phase::Untap
        &&& self.first_active
        &&& self.turn == 1
        &&& is_fresh(self.first, first_library)
        &&& is_fresh(self.second, second_library)
    }
}

/// The player has the given library, nothing in hand or in play, and full
/// life.
pub open spec fn is_fresh(p: Player, library: Vec<Card>) -> bool {
    &&& p.library == library
    &&& p.hand@.len() == 0
    &&& p.battlefield@.len() == 0
    &&& p.life == STARTING_LIFE
    &&& p.lands == 0
    &&& p.mana_spent == 0
    &&& !p.land_played
}

/// The game went on to the next phase of the same turn.
pub open spec fn advanced(before: GameState, after: GameState) -> bool {
    &&& after.phase == next_phase_spec(before.phase)
    &&& after.turn == before.turn
    &&& after.first_active == before.first_active
}

/// The game stopped where it was.
pub open spec fn halted(before: GameState, after: GameState) -> bool {
    &&& after.phase == before.phase
    &&& after.turn == before.turn
    &&& after.first_active == before.first_active
}

/// One phase of the game: `after` is the state that follows `before`, and
/// `ended` is the game's metric if it ended in this phase.
pub open spec fn phase_step(before: GameState, after: GameState, ended: Option<u32>) -> bool {
    match before.phase {
        Phase::Untap => {
            &&& after_untap(before.active(), after.active(), before.turn)
            &&& after.inactive() == before.inactive()
            &&& advanced(before, after)
            &&& ended.is_none()
        },
        Phase::Draw => {
            &&& after_draw(before.active(), after.active())
            &&& after.inactive() == before.inactive()
            &&& if before.active().library@.len() == 0 {
                halted(before, after) && ended == Some(before.turn)
            } else {
                advanced(before, after) && ended.is_none()
            }
        },
        Phase::MainPhase1 | Phase::MainPhase2 => {
            &&& after_main(before.active(), after.active(), before.turn)
            &&& after.inactive() == before.inactive()
            &&& advanced(before, after)
            &&& ended.is_none()
        },
        Phase::CombatDamage => {
            &&& after.active() == before.active()
            &&& after_attack(
                before.inactive(),
                after.inactive(),
                attack_power_spec(before.active().battlefield@),
            )
            &&& if after.inactive().life == 0 {
                halted(before, after) && ended == Some(before.turn)
            } else {
                advanced(before, after) && ended.is_none()
            }
        },
        Phase::Cleanup => {
            &&& after.first == before.first
            &&& after.second == before.second
            &&& if before.turn == MAX_TURNS {
                halted(before, after) && ended == Some(before.turn)
            } else {
                &&& after.phase == Phase::Untap
                &&& after.turn == before.turn + 1
                &&& after.first_active == !before.first_active
                &&& ended.is_none()
            }
        },
        _ => {
            &&& after.first == before.first
            &&& after.second == before.second
            &&& advanced(before, after)
            &&& ended.is_none()
        },
    }
}

/// `trace` is a whole game from the given libraries that ended with metric
/// `turns`: it starts in the initial state, each state follows the one
/// before by one phase, and only the last phase ends the game.
pub open spec fn is_game(
    trace: Seq<GameState>,
    first_library: Vec<Card>,
    second_library: Vec<Card>,
    turns: u32,
) -> bool {
    &&& trace.len() >= 2
    &&& trace[0].is_initial(first_library, second_library)
    &&& forall|i: int|
        0 <= i < trace.len() - 2 ==> phase_step(#[trigger] trace[i], trace[i + 1], None)
    &&& phase_step(trace[trace.len() - 2], trace[trace.len() - 1], Some(turns))
}

impl GameState {
    /// The start of a game: the first player is active, in the untap step of
    /// turn 1.
    pub fn new(first_library: Vec<Card>, second_library: Vec<Card>) -> (s: GameState)
        ensures
            s.is_initial(first_library, second_library),
            s.wf(),
    {
        GameState {
            phase: Phase::Untap,
            first_active: true,
            first: Player::new(first_library),
            second: Player::new(second_library),
            turn: 1,
        }
    }

    /// Plays one phase. Returns the game's metric, the current turn, if the
    /// game ended in this phase.
    pub fn tick(&mut self) -> (ended: Option<u32>)
        requires
            old(self).wf(),
        ensures
            final(self).wf(),
            phase_step(*old(self), *final(self), ended),
            ended.is_some() ==> ended == Some(old(self).turn),
            ended.is_none() ==> (MAX_TURNS - final(self).turn) * 10 + (9 - phase_index(
                final(self).phase,
            )) < (MAX_TURNS - old(self).turn) * 10 + (9 - phase_index(old(self).phase)),
    {
        let turn = self.turn;
        match self.phase {
            Phase::Untap => {
                if self.first_active {
                    self.first.untap(turn);
                } else {
                    self.second.untap(turn);
                }
            },
            Phase::Draw => {
                let drawn = if self.first_active {
                    self.first.draw()
                } else {
                    self.second.draw()
                };
                if !drawn {
                    return Some(turn);
                }
            },
            Phase::MainPhase1 | Phase::MainPhase2 => {
                if self.first_active {
                    self.first.main_phase(turn);
                } else {
                    self.second.main_phase(turn);
                }
            },
            Phase::CombatDamage => {
                let dead = if self.first_active {
                    let attack = self.first.attack_power();
                    self.second.take_attack(attack)
                } else {
                    let attack = self.second.attack_power();
                    self.first.take_attack(attack)
                };
                if dead {
                    return Some(turn);
                }
            },
            Phase::Cleanup => {
                if turn == MAX_TURNS {
                    return Some(turn);
                }
                self.turn = turn + 1;
                self.first_active = !self.first_active;
            },
            _ => {},
        }
        self.phase = next_phase(self.phase);
        None
    }
}

/// Plays a whole game between two libraries, the top of each being its last
/// card, and returns its metric: the turn in which it ended.
pub fn play_game(first_library: Vec<Card>, second_library: Vec<Card>) -> (turns: u32)
    ensures
        1 <= turns <= MAX_TURNS,
        exists|trace: Seq<GameState>| is_game(trace, first_library, second_library, turns),
{
    let mut state = GameState::new(first_library, second_library);
    let ghost mut trace: Seq<GameState> = seq![state];
    loop
        invariant
            state.wf(),
            trace.len() >= 1,
            trace[0].is_initial(first_library, second_library),
            trace[trace.len() - 1] == state,
            forall|i: int|
                0 <= i < trace.len() - 1 ==> phase_step(#[trigger] trace[i], trace[i + 1], None),
        decreases (MAX_TURNS - state.turn) * 10 + (9 - phase_index(state.phase)),
    {
        let ended = state.tick();
        proof {
            trace = trace.push(state);
        }
        match ended {
            Some(turns) => {
                assert(is_game(trace, first_library, second_library, turns));
                return turns;
            },
            None => {},
        }
    }
}

} // verus!
