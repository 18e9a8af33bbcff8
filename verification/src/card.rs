//! Cards and their optional capabilities.
//!
//! A card carries coarse category tags and, per capability kind, at most one
//! payload. The set of kinds is closed; each kind has a slot of its own.

use vstd::prelude::*;

verus! {

/// Coarse category of a card.
#[derive(Clone, Copy, Debug, PartialEq, Eq, Structural)]
pub enum CardType {
    Creature,
    Land,
    Spell,
}

/// The kinds of capability a card can hold.
#[derive(Clone, Copy, Debug, PartialEq, Eq, Structural)]
pub enum CardFragmentKind {
    Creature,
}

/// Combat statistics of a creature. They never change once installed.
#[derive(Clone, Copy, Debug, PartialEq, Eq, Structural)]
pub struct CreatureStats {
    pub power: u8,
    pub toughness: u8,
}

/// The creature capability: fixed stats and the summoning-sickness bit.
#[derive(Clone, Copy, Debug, PartialEq, Eq, Structural)]
pub struct CreatureFragment {
    pub stats: CreatureStats,
    pub summoning_sickness: bool,
}

/// A card: identity, mana cost, category tags and capability slots.
#[derive(Debug)]
pub struct Card {
    pub id: u64,
    pub cost: u8,
    pub card_types: Vec<CardType>,
    pub creature: Option<CreatureFragment>,
}

impl Card {
    /// The card carries the given category tag.
    pub open spec fn has_type(&self, t: CardType) -> bool {
        self.card_types@.contains(t)
    }

    /// The card holds a payload of the given capability kind.
    pub open spec fn has_fragment(&self, kind: CardFragmentKind) -> bool {
        match kind {
            CardFragmentKind::Creature => self.creature.is_some(),
        }
    }

    /// The two creature signals agree: the tag is set exactly when the
    /// capability is present.
    pub open spec fn consistent(&self) -> bool {
        self.has_type(CardType::Creature) <==> self.has_fragment(CardFragmentKind::Creature)
    }

    /// The card counts as a creature: by its tag or by its capability.
    pub open spec fn creature_spec(&self) -> bool {
        self.has_type(CardType::Creature) || self.has_fragment(CardFragmentKind::Creature)
    }

    /// The combat stats, where the creature capability is present.
    pub open spec fn stats_spec(&self) -> Option<CreatureStats> {
        match self.creature {
            Some(fragment) => Some(fragment.stats),
            None => None,
        }
    }

    /// The summoning-sickness bit; `false` without the creature capability.
    pub open spec fn sickness_spec(&self) -> bool {
        match self.creature {
            Some(fragment) => fragment.summoning_sickness,
            None => false,
        }
    }

    /// This card with a fresh creature capability installed.
    pub open spec fn with_creature(self, power: u8, toughness: u8) -> Card {
        Card {
            creature: Some(
                CreatureFragment {
                    stats: CreatureStats { power, toughness },
                    summoning_sickness: false,
                },
            ),
            ..self
        }
    }

    /// This card without the creature capability.
    pub open spec fn without_creature(self) -> Card {
        Card { creature: None, ..self }
    }

    /// This card with the summoning-sickness bit set to `value`, or unchanged
    /// where it lacks the creature capability.
    pub open spec fn with_sickness(self, value: bool) -> Card {
        match self.creature {
            Some(fragment) => Card {
                creature: Some(
                    CreatureFragment { stats: fragment.stats, summoning_sickness: value },
                ),
                ..self
            },
            None => self,
        }
    }

    /// A land: tagged `Land`, free to play, no capability.
    pub fn land(id: u64) -> (card: Card)
        ensures
            card.id == id,
            card.cost == 0,
            card.card_types@ == seq![CardType::Land],
            card.creature.is_none(),
            card.consistent(),
            !card.creature_spec(),
    {
        let mut card_types: Vec<CardType> = Vec::new();
        card_types.push(CardType::Land);
        let card = Card { id, cost: 0, card_types, creature: None };
        assert(card.card_types@ =~= seq![CardType::Land]);
        assert(card.card_types@[0] == CardType::Land);
        card
    }

    /// A spell: tagged `Spell`, no capability.
    pub fn spell(id: u64, cost: u8) -> (card: Card)
        ensures
            card.id == id,
            card.cost == cost,
            card.card_types@ == seq![CardType::Spell],
            card.creature.is_none(),
            card.consistent(),
            !card.creature_spec(),
    {
        let mut card_types: Vec<CardType> = Vec::new();
        card_types.push(CardType::Spell);
        let card = Card { id, cost, card_types, creature: None };
        assert(card.card_types@ =~= seq![CardType::Spell]);
        assert(card.card_types@[0] == CardType::Spell);
        card
    }

    /// A creature: tagged `Creature` and holding the creature capability with
    /// the given stats, not summoning-sick.
    pub fn creature(id: u64, cost: u8, power: u8, toughness: u8) -> (card: Card)
        ensures
            card.id == id,
            card.cost == cost,
            card.card_types@ == seq![CardType::Creature],
            card.creature == Some(
                (CreatureFragment {
                    stats: CreatureStats { power, toughness },
                    summoning_sickness: false,
                }),
            ),
            card.consistent(),
            card.creature_spec(),
    {
        let mut card_types: Vec<CardType> = Vec::new();
        card_types.push(CardType::Creature);
        let fragment = CreatureFragment {
            stats: CreatureStats { power, toughness },
            summoning_sickness: false,
        };
        let card = Card { id, cost, card_types, creature: Some(fragment) };
        assert(card.card_types@ =~= seq![CardType::Creature]);
        assert(card.card_types@[0] == CardType::Creature);
        card
    }
}

} // verus!
