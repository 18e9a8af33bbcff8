//! One player's side of a game: zones, and what each phase does to them;
//! and the state that the top-level loop carries between calls.
//!
//! A turn is one player's pass through the phases. Life never goes below
//! zero: damage beyond the remaining life leaves it at zero.

use vstd::prelude::*;
use crate::batch::Batch;
use crate::card::{Card, CardType};
use crate::creature::{creature_stats, has_summoning_sickness, is_creature, set_summoning_sickness};

verus! {

/// Life total each player starts with.
pub const STARTING_LIFE: u32 = 20;

/// The turn at whose end a game is stopped if nobody has lost.
pub const MAX_TURNS: u32 = 200;

/// How far to run before pausing.
#[derive(Clone, Copy, Debug, PartialEq, Eq, Structural)]
pub enum StepCommand {
    /// One phase.
    StepPhase,
    /// One whole turn.
    StepTurn,
    /// The current game, to its end.
    RunGame,
    /// The search for the current deck, to its end.
    RunDeck,
    /// Everything, to the end.
    RunAll,
    /// Stop.
    Quit,
}

/// What the top-level loop carries from one call to the next: how far to
/// run before pausing, and the batch that a pause left unfinished.
pub struct ProgramState {
    pub step_mode: StepCommand,
    pub batch: Option<Batch>,
}

impl ProgramState {
    /// Validity: a batch kept for later is valid.
    pub open spec fn wf(&self) -> bool {
        match self.batch {
            Some(batch) => batch.wf(),
            None => true,
        }
    }

    /// A state that steps phase by phase and has no batch in progress.
    pub fn new() -> (s: ProgramState)
        ensures
            s.wf(),
            s.step_mode == StepCommand::StepPhase,
            s.batch.is_none(),
    {
        ProgramState { step_mode: StepCommand::StepPhase, batch: None }
    }
}

/// The phases of a turn, in the order in which they follow each other.
#[derive(Clone, Copy, Debug, PartialEq, Eq, Structural)]
pub enum Phase {
    Untap,
    Upkeep,
    Draw,
    MainPhase1,
    DeclareAttackers,
    DeclareBlockers,
    CombatDamage,
    MainPhase2,
    EndStep,
    Cleanup,
}

/// A card in play, with the turn in which it entered.
#[derive(Debug)]
pub struct Permanent {
    pub card: Card,
    pub entered_turn: u32,
}

/// A player's zones and counters.
#[derive(Debug)]
pub struct Player {
    /// Undrawn cards; the top of the library is the last element.
    pub library: Vec<Card>,
    pub hand: Vec<Card>,
    pub battlefield: Vec<Permanent>,
    pub life: u32,
    /// Lands in play.
    pub lands: u32,
    /// Mana already spent this turn.
    pub mana_spent: u32,
    pub land_played: bool,
}

/// The phase that follows `p`; after `Cleanup` the cycle starts again.
pub open spec fn next_phase_spec(p: Phase) -> Phase {
    match p {
        Phase::Untap => Phase::Upkeep,
        Phase::Upkeep => Phase::Draw,
        Phase::Draw => Phase::MainPhase1,
        Phase::MainPhase1 => Phase::DeclareAttackers,
        Phase::DeclareAttackers => Phase::DeclareBlockers,
        Phase::DeclareBlockers => Phase::CombatDamage,
        Phase::CombatDamage => Phase::MainPhase2,
        Phase::MainPhase2 => Phase::EndStep,
        Phase::EndStep => Phase::Cleanup,
        Phase::Cleanup => Phase::Untap,
    }
}

/// Position of a phase within the turn, from 0 for `Untap` to 9 for `Cleanup`.
pub open spec fn phase_index(p: Phase) -> int {
    match p {
        Phase::Untap => 0,
        Phase::Upkeep => 1,
        Phase::Draw => 2,
        Phase::MainPhase1 => 3,
        Phase::DeclareAttackers => 4,
        Phase::DeclareBlockers => 5,
        Phase::CombatDamage => 6,
        Phase::MainPhase2 => 7,
        Phase::EndStep => 8,
        Phase::Cleanup => 9,
    }
}

/// The card is a land: it carries the `Land` tag.
pub open spec fn is_land_spec(card: Card) -> bool {
    card.has_type(CardType::Land)
}

/// The permanent is a creature that may attack: it holds the creature
/// capability and is not summoning-sick.
pub open spec fn can_attack(p: Permanent) -> bool {
    p.card.creature.is_some() && !p.card.sickness_spec()
}

/// The power a permanent adds to an attack.
pub open spec fn attack_of(p: Permanent) -> int {
    if can_attack(p) {
        p.card.creature.unwrap().stats.power as int
    } else {
        0
    }
}

/// The toughness a permanent adds to the defence.
pub open spec fn block_of(p: Permanent) -> int {
    match p.card.creature {
        Some(fragment) => fragment.stats.toughness as int,
        None => 0,
    }
}

/// Total power of the creatures that may attack.
pub open spec fn attack_power_spec(bf: Seq<Permanent>) -> int
    decreases bf.len(),
{
    if bf.len() == 0 {
        0
    } else {
        attack_power_spec(bf.drop_last()) + attack_of(bf.last())
    }
}

/// Total toughness of the creatures in play.
pub open spec fn block_toughness_spec(bf: Seq<Permanent>) -> int
    decreases bf.len(),
{
    if bf.len() == 0 {
        0
    } else {
        block_toughness_spec(bf.drop_last()) + block_of(bf.last())
    }
}

/// Damage that gets through: the attack beyond what the defence absorbs.
pub open spec fn damage_spec(attack: int, block: int) -> int {
    if attack > block {
        attack - block
    } else {
        0
    }
}

/// A permanent after its controller's untap step in turn `turn`: a card that
/// entered in an earlier turn loses its summoning sickness.
pub open spec fn untapped(p: Permanent, turn: u32) -> Permanent {
    if p.entered_turn < turn {
        Permanent { card: p.card.with_sickness(false), entered_turn: p.entered_turn }
    } else {
        p
    }
}

/// `after` is `before` past its untap step of turn `turn`: every permanent
/// that entered in an earlier turn has lost its summoning sickness, the
/// turn's counters start afresh, and nothing else has changed.
pub open spec fn after_untap(before: Player, after: Player, turn: u32) -> bool {
    &&& after.battlefield@.len() == before.battlefield@.len()
    &&& forall|i: int|
        0 <= i < before.battlefield@.len() ==> (#[trigger] after.battlefield@[i]) == untapped(
            before.battlefield@[i],
            turn,
        )
    &&& after.mana_spent == 0
    &&& !after.land_played
    &&& after.library == before.library
    &&& after.hand == before.hand
    &&& after.life == before.life
    &&& after.lands == before.lands
}

/// `after` is `before` past a draw: the top card of the library has moved to
/// the hand, or, with an empty library, nothing has changed.
pub open spec fn after_draw(before: Player, after: Player) -> bool {
    &&& before.library@.len() > 0 ==> after.library@ == before.library@.drop_last()
        && after.hand@ == before.hand@.push(before.library@.last())
    &&& before.library@.len() == 0 ==> after.library@ == before.library@ && after.hand@
        == before.hand@
    &&& after.battlefield == before.battlefield
    &&& after.life == before.life
    &&& after.lands == before.lands
    &&& after.mana_spent == before.mana_spent
    &&& after.land_played == before.land_played
}

/// `after` is `before` past an attack of total power `attack`: the damage
/// that its creatures did not absorb is gone from its life, which stops at
/// zero, and nothing else has changed.
pub open spec fn after_attack(before: Player, after: Player, attack: int) -> bool {
    &&& after.life == if damage_spec(attack, block_toughness_spec(before.battlefield@))
        >= before.life {
        0
    } else {
        before.life - damage_spec(attack, block_toughness_spec(before.battlefield@))
    }
    &&& after.library == before.library
    &&& after.hand == before.hand
    &&& after.battlefield == before.battlefield
    &&& after.lands == before.lands
    &&& after.mana_spent == before.mana_spent
    &&& after.land_played == before.land_played
}

/// Mana the player can still spend this turn: one per land in play, less
/// what was spent.
pub open spec fn available_mana(p: Player) -> int {
    if p.lands >= p.mana_spent {
        p.lands - p.mana_spent
    } else {
        0
    }
}

/// The card is no land and the player can pay for it.
pub open spec fn playable(card: Card, mana: int) -> bool {
    !is_land_spec(card) && card.cost <= mana
}

/// Some card in the hand is a land.
pub open spec fn has_land(hand: Seq<Card>) -> bool {
    exists|i: int| 0 <= i < hand.len() && is_land_spec(#[trigger] hand[i])
}

/// `i` is the position of the first land in the hand.
pub open spec fn is_first_land(hand: Seq<Card>, i: int) -> bool {
    &&& 0 <= i < hand.len()
    &&& is_land_spec(hand[i])
    &&& forall|j: int| 0 <= j < i ==> !is_land_spec(#[trigger] hand[j])
}

/// `i` is the position of the cheapest playable card in the hand, the first
/// one among those of equal cost.
pub open spec fn is_cheapest_playable(hand: Seq<Card>, mana: int, i: int) -> bool {
    &&& 0 <= i < hand.len()
    &&& playable(hand[i], mana)
    &&& forall|j: int|
        0 <= j < hand.len() && playable(#[trigger] hand[j], mana) ==> hand[i].cost <= hand[j].cost
    &&& forall|j: int| 0 <= j < i && playable(#[trigger] hand[j], mana) ==> hand[i].cost < hand[j].cost
}

/// What the greedy policy plays from the hand of `p`: the first land if a
/// land is in hand and none was played this turn; else the cheapest
/// playable card that is no land; else nothing.
pub open spec fn chosen(p: Player, choice: Option<int>) -> bool {
    match choice {
        Some(i) => if !p.land_played && has_land(p.hand@) {
            is_first_land(p.hand@, i)
        } else {
            is_cheapest_playable(p.hand@, available_mana(p), i)
        },
        None => {
            &&& p.land_played || !has_land(p.hand@)
            &&& forall|j: int|
                0 <= j < p.hand@.len() ==> !playable(#[trigger] p.hand@[j], available_mana(p))
        },
    }
}

/// `after` is `before` past playing the card at position `i` of its hand in
/// turn `turn`. The card leaves the hand. A land enters play and counts as
/// the turn's land; any other card is paid for, and enters play, summoning-
/// sick, if it is a creature.
pub open spec fn after_play(before: Player, after: Player, i: int, turn: u32) -> bool {
    let card = before.hand@[i];
    &&& after.hand@ == before.hand@.remove(i)
    &&& after.library == before.library
    &&& after.life == before.life
    &&& if is_land_spec(card) {
        &&& after.battlefield@ == before.battlefield@.push(Permanent { card, entered_turn: turn })
        &&& after.lands == before.lands + 1
        &&& after.land_played
        &&& after.mana_spent == before.mana_spent
    } else {
        &&& after.battlefield@ == if card.creature_spec() {
            before.battlefield@.push(
                Permanent { card: card.with_sickness(true), entered_turn: turn },
            )
        } else {
            before.battlefield@
        }
        &&& after.lands == before.lands
        &&& after.land_played == before.land_played
        &&& after.mana_spent == before.mana_spent + card.cost
    }
}

/// `after` is `before` past one main phase of turn `turn`: the card that
/// the greedy policy chooses has been played, or nothing has changed where
/// it chooses none. The policy's choice is unique.
pub open spec fn after_main(before: Player, after: Player, turn: u32) -> bool {
    exists|choice: Option<int>| #[trigger]
        chosen(before, choice) && match choice {
            Some(i) => after_play(before, after, i, turn),
            None => after == before,
        }
}

/// The greedy policy never has two choices.
pub proof fn lemma_choice_is_unique(p: Player, a: Option<int>, b: Option<int>)
    requires
        chosen(p, a),
        chosen(p, b),
    ensures
        a == b,
{
    let hand = p.hand@;
    let mana = available_mana(p);
    match (a, b) {
        (Some(i), Some(j)) => {
            if !p.land_played && has_land(hand) {
                if i < j {
                    assert(!is_land_spec(hand[i]));
                } else if j < i {
                    assert(!is_land_spec(hand[j]));
                }
            } else {
                assert(playable(hand[i], mana));
                assert(playable(hand[j], mana));
                if i < j {
                    assert(hand[j].cost < hand[i].cost);
                } else if j < i {
                    assert(hand[i].cost < hand[j].cost);
                }
            }
        },
        (Some(i), None) => {
            if !p.land_played && has_land(hand) {
            } else {
                assert(playable(hand[i], mana));
            }
        },
        (None, Some(j)) => {
            if !p.land_played && has_land(hand) {
            } else {
                assert(playable(hand[j], mana));
            }
        },
        (None, None) => {},
    }
}

/// The phase that follows `p`.
pub fn next_phase(p: Phase) -> (r: Phase)
    ensures
        r == next_phase_spec(p),
        phase_index(r) == (phase_index(p) + 1) % 10,
{
    match p {
        Phase::Untap => Phase::Upkeep,
        Phase::Upkeep => Phase::Draw,
        Phase::Draw => Phase::MainPhase1,
        Phase::MainPhase1 => Phase::DeclareAttackers,
        Phase::DeclareAttackers => Phase::DeclareBlockers,
        Phase::DeclareBlockers => Phase::CombatDamage,
        Phase::CombatDamage => Phase::MainPhase2,
        Phase::MainPhase2 => Phase::EndStep,
        Phase::EndStep => Phase::Cleanup,
        Phase::Cleanup => Phase::Untap,
    }
}

/// Whether the card carries the `Land` tag.
pub fn is_land(card: &Card) -> (r: bool)
    ensures
        r == is_land_spec(*card),
{
    let mut i: usize = 0;
    while i < card.card_types.len()
        invariant
            i <= card.card_types.len(),
            forall|j: int| 0 <= j < i ==> card.card_types@[j] != CardType::Land,
        decreases card.card_types.len() - i,
    {
        if card.card_types[i] == CardType::Land {
            return true;
        }
        i += 1;
    }
    false
}

impl Player {
    /// A player at the start of a game: the given library, nothing in hand
    /// or in play, full life.
    pub fn new(library: Vec<Card>) -> (p: Player)
        ensures
            p.library == library,
            p.hand@.len() == 0,
            p.battlefield@.len() == 0,
            p.life == STARTING_LIFE,
            p.lands == 0,
            p.mana_spent == 0,
            !p.land_played,
    {
        Player {
            library,
            hand: Vec::new(),
            battlefield: Vec::new(),
            life: STARTING_LIFE,
            lands: 0,
            mana_spent: 0,
            land_played: false,
        }
    }

    /// Untap step of turn `turn`: every permanent that entered in an earlier
    /// turn loses its summoning sickness, and the turn's counters start
    /// afresh. Nothing else changes.
    pub fn untap(&mut self, turn: u32)
        ensures
            after_untap(*old(self), *final(self), turn),
    {
        let ghost before = self.battlefield@;
        let mut i: usize = 0;
        while i < self.battlefield.len()
            invariant
                i <= self.battlefield@.len(),
                self.battlefield@.len() == before.len(),
                forall|j: int| 0 <= j < i ==> (#[trigger] self.battlefield@[j]) == untapped(before[j], turn),
                forall|j: int| i <= j < before.len() ==> (#[trigger] self.battlefield@[j]) == before[j],
                self.library == old(self).library,
                self.hand == old(self).hand,
                self.life == old(self).life,
                self.lands == old(self).lands,
            decreases self.battlefield.len() - i,
        {
            if self.battlefield[i].entered_turn < turn {
                set_summoning_sickness(&mut self.battlefield[i].card, false);
            }
            i += 1;
        }
        self.mana_spent = 0;
        self.land_played = false;
    }

    /// Draw step: moves the top card of the library to the hand and returns
    /// `true`; with an empty library nothing changes and the result is
    /// `false`.
    pub fn draw(&mut self) -> (drawn: bool)
        ensures
            drawn == (old(self).library@.len() > 0),
            after_draw(*old(self), *final(self)),
    {
        match self.library.pop() {
            Some(card) => {
                self.hand.push(card);
                true
            },
            None => false,
        }
    }

    /// Total power of this player's creatures that may attack.
    pub fn attack_power(&self) -> (total: u128)
        ensures
            total == attack_power_spec(self.battlefield@),
    {
        let mut total: u128 = 0;
        let mut i: usize = 0;
        while i < self.battlefield.len()
            invariant
                i <= self.battlefield@.len(),
                total == attack_power_spec(self.battlefield@.take(i as int)),
                total <= 255 * i,
            decreases self.battlefield.len() - i,
        {
            assert(self.battlefield@.take(i + 1).drop_last() =~= self.battlefield@.take(i as int));
            let card = &self.battlefield[i].card;
            if !has_summoning_sickness(card) {
                match creature_stats(card) {
                    Some(stats) => {
                        total = total + stats.power as u128;
                    },
                    None => {},
                }
            }
            i += 1;
        }
        assert(self.battlefield@.take(i as int) =~= self.battlefield@);
        total
    }

    /// Total toughness of this player's creatures.
    pub fn block_toughness(&self) -> (total: u128)
        ensures
            total == block_toughness_spec(self.battlefield@),
    {
        let mut total: u128 = 0;
        let mut i: usize = 0;
        while i < self.battlefield.len()
            invariant
                i <= self.battlefield@.len(),
                total == block_toughness_spec(self.battlefield@.take(i as int)),
                total <= 255 * i,
            decreases self.battlefield.len() - i,
        {
            assert(self.battlefield@.take(i + 1).drop_last() =~= self.battlefield@.take(i as int));
            match creature_stats(&self.battlefield[i].card) {
                Some(stats) => {
                    total = total + stats.toughness as u128;
                },
                None => {},
            }
            i += 1;
        }
        assert(self.battlefield@.take(i as int) =~= self.battlefield@);
        total
    }

    /// Combat damage against this player: an attack of total power `attack`
    /// meets this player's total toughness, and what gets through is taken
    /// from the life total, which stops at zero. Returns whether the player
    /// is dead.
    pub fn take_attack(&mut self, attack: u128) -> (dead: bool)
        ensures
            after_attack(*old(self), *final(self), attack as int),
            dead == (final(self).life == 0),
    {
        let block = self.block_toughness();
        if attack > block {
            let damage: u128 = attack - block;
            if damage >= self.life as u128 {
                self.life = 0;
            } else {
                self.life = self.life - damage as u32;
            }
        }
        self.life == 0
    }

    /// The greedy policy's choice: the position in the hand of the card to
    /// play, if any.
    pub fn choose_play(&self) -> (r: Option<usize>)
        ensures
            chosen(
                *self,
                match r {
                    Some(i) => Some(i as int),
                    None => None,
                },
            ),
            forall|choice: Option<int>| #[trigger]
                chosen(*self, choice) ==> choice == match r {
                    Some(i) => Some(i as int),
                    None => None::<int>,
                },
    {
        let mana: u32 = if self.lands >= self.mana_spent {
            self.lands - self.mana_spent
        } else {
            0
        };
        let mut first_land: Option<usize> = None;
        let mut cheapest: Option<usize> = None;
        let mut i: usize = 0;
        while i < self.hand.len()
            invariant
                i <= self.hand@.len(),
                mana == available_mana(*self),
                match first_land {
                    Some(k) => k < i && is_first_land(self.hand@, k as int),
                    None => forall|j: int| 0 <= j < i ==> !is_land_spec(#[trigger] self.hand@[j]),
                },
                match cheapest {
                    Some(k) => k < i && is_cheapest_playable(
                        self.hand@.take(i as int),
                        mana as int,
                        k as int,
                    ),
                    None => forall|j: int|
                        0 <= j < i ==> !playable(#[trigger] self.hand@[j], mana as int),
                },
            decreases self.hand.len() - i,
        {
            let card = &self.hand[i];
            let land = is_land(card);
            if land {
                if first_land.is_none() {
                    first_land = Some(i);
                }
            } else if card.cost as u32 <= mana {
                match cheapest {
                    Some(k) => {
                        if card.cost < self.hand[k].cost {
                            cheapest = Some(i);
                        }
                    },
                    None => {
                        cheapest = Some(i);
                    },
                }
            }
            i += 1;
        }
        assert(self.hand@.take(i as int) =~= self.hand@);
        let r = if !self.land_played && first_land.is_some() {
            first_land
        } else {
            cheapest
        };
        proof {
            let mine: Option<int> = match r {
                Some(i) => Some(i as int),
                None => None,
            };
            assert(first_land.is_some() == has_land(self.hand@));
            assert forall|choice: Option<int>| #[trigger] chosen(*self, choice) implies choice
                == mine by {
                match choice {
                    Some(c) => {
                        if !self.land_played && has_land(self.hand@) {
                            let k = first_land.unwrap() as int;
                            if c < k {
                                assert(!is_land_spec(self.hand@[c]));
                            } else if k < c {
                                assert(!is_land_spec(self.hand@[k]));
                            }
                        } else {
                            assert(playable(self.hand@[c], mana as int));
                            let k = cheapest.unwrap() as int;
                            if c < k {
                                assert(self.hand@[k].cost < self.hand@[c].cost);
                            } else if k < c {
                                assert(self.hand@[c].cost < self.hand@[k].cost);
                            }
                        }
                    },
                    None => {
                        if cheapest.is_some() {
                            assert(playable(self.hand@[cheapest.unwrap() as int], mana as int));
                        }
                    },
                }
            }
        }
        r
    }

    /// Plays the card at position `i` of the hand in turn `turn`.
    pub fn play_card(&mut self, i: usize, turn: u32)
        requires
            i < old(self).hand@.len(),
            is_land_spec(old(self).hand@[i as int]) ==> old(self).lands < u32::MAX,
            !is_land_spec(old(self).hand@[i as int]) ==> old(self).mana_spent + old(
                self,
            ).hand@[i as int].cost <= u32::MAX,
        ensures
            after_play(*old(self), *final(self), i as int, turn),
    {
        let mut card = self.hand.remove(i);
        if is_land(&card) {
            self.battlefield.push(Permanent { card, entered_turn: turn });
            self.lands = self.lands + 1;
            self.land_played = true;
        } else {
            self.mana_spent = self.mana_spent + card.cost as u32;
            if is_creature(&card) {
                set_summoning_sickness(&mut card, true);
                self.battlefield.push(Permanent { card, entered_turn: turn });
            }
        }
    }

    /// One main phase of turn `turn`: plays what the greedy policy chooses,
    /// if anything.
    pub fn main_phase(&mut self, turn: u32)
        requires
            old(self).lands < u32::MAX,
        ensures
            after_main(*old(self), *final(self), turn),
            final(self).library == old(self).library,
            final(self).life == old(self).life,
            final(self).lands == old(self).lands && final(self).land_played == old(
                self,
            ).land_played || !old(self).land_played && final(self).lands == old(self).lands + 1
                && final(self).land_played,
    {
        match self.choose_play() {
            Some(i) => {
                self.play_card(i, turn);
                assert(chosen(*old(self), Some(i as int)));
            },
            None => {
                assert(chosen(*old(self), None));
            },
        }
    }
}

} // verus!
