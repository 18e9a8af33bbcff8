//! Building and shuffling decks.
//!
//! A deck of a configuration holds its lands first, then its other cards,
//! which are creatures whose cost, power and toughness run from 1 to 5 in
//! turn. Shuffling is driven by numbers that the caller supplies, so that a
//! game can be replayed from the same numbers.

use vstd::prelude::*;
use crate::card::{Card, CardType, CreatureFragment, CreatureStats};
use crate::history::Config;

verus! {

/// Cost, and power and toughness, of the `k`-th card of a deck that is no
/// land.
pub open spec fn nonland_cost(k: int) -> int {
    k % 5 + 1
}

/// The card at position `i` of the unshuffled deck of `config`.
pub open spec fn is_deck_card(config: Config, i: int, card: Card) -> bool {
    &&& card.id == i
    &&& card.consistent()
    &&& if i < config.lands {
        &&& card.card_types@ == seq![CardType::Land]
        &&& card.cost == 0
        &&& card.creature.is_none()
    } else {
        &&& card.card_types@ == seq![CardType::Creature]
        &&& card.cost == nonland_cost(i - config.lands)
        &&& card.creature == Some(
            CreatureFragment {
                stats: CreatureStats {
                    power: nonland_cost(i - config.lands) as u8,
                    toughness: nonland_cost(i - config.lands) as u8,
                },
                summoning_sickness: false,
            },
        )
    }
}

/// What is left of `deck` and what has been dealt to `out` after the picks
/// from position `k` on have been used: each pick, taken modulo the number
/// of cards left, names the card that goes next.
pub open spec fn shuffle_from(deck: Seq<Card>, out: Seq<Card>, picks: Seq<usize>, k: int) -> Seq<
    Card,
>
    decreases deck.len(),
{
    if deck.len() == 0 {
        out
    } else {
        let pick = if 0 <= k < picks.len() {
            picks[k] as int
        } else {
            0
        };
        let j = pick % (deck.len() as int);
        shuffle_from(deck.remove(j), out.push(deck[j]), picks, k + 1)
    }
}

/// The deck in the order that the picks give it.
pub open spec fn shuffle_spec(deck: Seq<Card>, picks: Seq<usize>) -> Seq<Card> {
    shuffle_from(deck, Seq::empty(), picks, 0)
}

/// The unshuffled deck of a configuration: exactly `lands + nonlands`
/// cards, the lands first.
pub fn build_deck(config: Config) -> (deck: Vec<Card>)
    ensures
        deck@.len() == config.deck_size(),
        deck@.len() == config.lands + config.nonlands,
        forall|i: int| 0 <= i < deck@.len() ==> is_deck_card(config, i, #[trigger] deck@[i]),
{
    let mut deck: Vec<Card> = Vec::new();
    let mut i: u64 = 0;
    while i < config.lands as u64
        invariant
            i <= config.lands,
            deck@.len() == i,
            forall|j: int| 0 <= j < deck@.len() ==> is_deck_card(config, j, #[trigger] deck@[j]),
        decreases config.lands - i,
    {
        deck.push(Card::land(i));
        i += 1;
    }
    let mut k: u64 = 0;
    while k < config.nonlands as u64
        invariant
            k <= config.nonlands,
            deck@.len() == config.lands + k,
            forall|j: int| 0 <= j < deck@.len() ==> is_deck_card(config, j, #[trigger] deck@[j]),
        decreases config.nonlands - k,
    {
        let value: u8 = (k % 5) as u8 + 1;
        deck.push(Card::creature(config.lands as u64 + k, value, value, value));
        k += 1;
    }
    deck
}

/// Shuffles a deck by the picks given: as long as cards are left, the next
/// pick, taken modulo their number, names the card that goes next. A
/// missing pick counts as 0. The result holds the same cards as the deck.
pub fn shuffle(deck: Vec<Card>, picks: &Vec<usize>) -> (out: Vec<Card>)
    ensures
        out@ == shuffle_spec(deck@, picks@),
        out@.len() == deck@.len(),
        out@.to_multiset() == deck@.to_multiset(),
{
    let mut rest = deck;
    let total = rest.len();
    let mut out: Vec<Card> = Vec::new();
    let mut k: usize = 0;
    proof {
        broadcast use vstd::seq_lib::group_to_multiset_ensures;
        assert(out@ =~= Seq::<Card>::empty());
        assert(out@.to_multiset().add(rest@.to_multiset()) =~= deck@.to_multiset());
    }
    while rest.len() > 0
        invariant
            shuffle_from(rest@, out@, picks@, k as int) == shuffle_spec(deck@, picks@),
            out@.len() + rest@.len() == deck@.len(),
            k == out@.len(),
            deck@.len() == total,
            out@.to_multiset().add(rest@.to_multiset()) == deck@.to_multiset(),
        decreases rest.len(),
    {
        let pick: usize = if k < picks.len() {
            picks[k]
        } else {
            0
        };
        let j = pick % rest.len();
        proof {
            broadcast use vstd::seq_lib::group_to_multiset_ensures;
            assert(out@.push(rest@[j as int]).to_multiset().add(
                rest@.remove(j as int).to_multiset(),
            ) =~= out@.to_multiset().add(rest@.to_multiset()));
        }
        let card = rest.remove(j);
        out.push(card);
        k += 1;
    }
    out
}

} // verus!
