//! Queries and updates of a card's creature capability.

use vstd::prelude::*;
use crate::card::{Card, CardType, CardFragmentKind, CreatureFragment, CreatureStats};

verus! {

/// Whether the card is a creature: it carries the `Creature` tag or holds the
/// creature capability.
pub fn is_creature(card: &Card) -> (r: bool)
    ensures
        r == card.creature_spec(),
        r == (card.has_type(CardType::Creature) || card.has_fragment(CardFragmentKind::Creature)),
{
    if card.creature.is_some() {
        return true;
    }
    let mut i: usize = 0;
    while i < card.card_types.len()
        invariant
            i <= card.card_types.len(),
            forall|j: int| 0 <= j < i ==> card.card_types@[j] != CardType::Creature,
        decreases card.card_types.len() - i,
    {
        if card.card_types[i] == CardType::Creature {
            return true;
        }
        i += 1;
    }
    false
}

/// The combat stats of the card, where it holds the creature capability.
pub fn creature_stats(card: &Card) -> (r: Option<CreatureStats>)
    ensures
        r == card.stats_spec(),
        r.is_some() == card.has_fragment(CardFragmentKind::Creature),
{
    match card.creature {
        Some(fragment) => Some(fragment.stats),
        None => None,
    }
}

/// Installs the creature capability with the given stats and without
/// summoning sickness, replacing any earlier payload. Nothing else changes.
pub fn add_creature_fragment(card: &mut Card, power: u8, toughness: u8)
    ensures
        *final(card) == old(card).with_creature(power, toughness),
{
    card.creature = Some(
        CreatureFragment { stats: CreatureStats { power, toughness }, summoning_sickness: false },
    );
}

/// Removes the creature capability if present. Nothing else changes.
pub fn remove_creature_fragment(card: &mut Card)
    ensures
        *final(card) == old(card).without_creature(),
{
    card.creature = None;
}

/// Sets the summoning-sickness bit of a card that holds the creature
/// capability, keeping its stats; leaves any other card untouched.
pub fn set_summoning_sickness(card: &mut Card, value: bool)
    ensures
        *final(card) == old(card).with_sickness(value),
{
    match card.creature {
        Some(fragment) => {
            card.creature = Some(
                CreatureFragment { stats: fragment.stats, summoning_sickness: value },
            );
        },
        None => {},
    }
}

/// The summoning-sickness bit; `false` for a card without the creature
/// capability.
pub fn has_summoning_sickness(card: &Card) -> (r: bool)
    ensures
        r == card.sickness_spec(),
{
    match card.creature {
        Some(fragment) => fragment.summoning_sickness,
        None => false,
    }
}

/// A card whose two creature signals agree is a creature exactly when it
/// holds the capability, and exactly when it carries the tag.
pub proof fn lemma_consistent_creature(card: Card)
    requires
        card.consistent(),
    ensures
        card.creature_spec() == card.has_fragment(CardFragmentKind::Creature),
        card.creature_spec() == card.has_type(CardType::Creature),
{
}

/// Right after the creature capability is installed, the card is a creature,
/// its stats are the ones given and it is not summoning-sick, whatever it
/// held before; installing twice is the same as installing the last one.
pub proof fn lemma_add_then_query(card: Card, power: u8, toughness: u8, earlier_power: u8, earlier_toughness: u8)
    ensures
        card.with_creature(power, toughness).creature_spec(),
        card.with_creature(power, toughness).stats_spec() == Some(
            (CreatureStats { power, toughness }),
        ),
        !card.with_creature(power, toughness).sickness_spec(),
        card.with_creature(earlier_power, earlier_toughness).with_creature(power, toughness) == card.with_creature(
            power,
            toughness,
        ),
{
}

/// After the capability is removed the card has no stats and is not
/// summoning-sick, and it is a creature only by its tag; removing from a card
/// without the capability changes nothing.
pub proof fn lemma_remove_then_query(card: Card)
    ensures
        card.without_creature().stats_spec().is_none(),
        !card.without_creature().sickness_spec(),
        card.without_creature().creature_spec() == card.has_type(CardType::Creature),
        card.creature.is_none() ==> card.without_creature() == card,
{
}

/// After the summoning-sickness bit is set to `value`, a card with the
/// creature capability reports `value` and keeps its stats; a card without
/// it is unchanged and reports `false`. Whether the card is a creature, and
/// whether its two signals agree, never changes.
pub proof fn lemma_set_then_query(card: Card, value: bool)
    ensures
        card.creature.is_some() ==> card.with_sickness(value).sickness_spec() == value,
        card.creature.is_none() ==> card.with_sickness(value) == card,
        card.creature.is_none() ==> !card.with_sickness(value).sickness_spec(),
        card.with_sickness(value).stats_spec() == card.stats_spec(),
        card.with_sickness(value).creature_spec() == card.creature_spec(),
        card.with_sickness(value).consistent() == card.consistent(),
{
}

} // verus!
