use engine::card::{Card, CardType, CreatureFragment, CreatureStats};
use engine::creature::{
    add_creature_fragment, creature_stats, has_summoning_sickness, is_creature,
    remove_creature_fragment, set_summoning_sickness,
};
use engine::deck::{build_deck, shuffle};
use engine::history::Config;
use engine::sim::shuffled_deck;

fn has_tag(card: &Card, tag: CardType) -> bool {
    card.card_types.iter().any(|t| *t == tag)
}

#[test]
fn constructors_keep_tag_and_capability_in_step() {
    let land = Card::land(1);
    let spell = Card::spell(2, 3);
    let creature = Card::creature(3, 2, 2, 2);
    for card in [&land, &spell, &creature] {
        assert_eq!(has_tag(card, CardType::Creature), card.creature.is_some());
        assert_eq!(is_creature(card), card.creature.is_some());
    }
    assert!(!is_creature(&land));
    assert!(!is_creature(&spell));
    assert!(is_creature(&creature));
}

#[test]
fn is_creature_by_tag_alone() {
    let card = Card { id: 9, cost: 1, card_types: vec![CardType::Spell, CardType::Creature], creature: None };
    assert!(is_creature(&card));
    assert_eq!(creature_stats(&card), None);
    assert!(!has_summoning_sickness(&card));
}

#[test]
fn is_creature_by_capability_alone() {
    let mut card = Card::land(4);
    assert!(!is_creature(&card));
    add_creature_fragment(&mut card, 1, 1);
    assert!(is_creature(&card));
    assert_eq!(card.card_types, vec![CardType::Land]);
}

#[test]
fn add_creature_fragment_gives_stats_without_sickness() {
    let mut card = Card::spell(7, 2);
    add_creature_fragment(&mut card, 3, 4);
    assert_eq!(creature_stats(&card), Some(CreatureStats { power: 3, toughness: 4 }));
    assert!(!has_summoning_sickness(&card));
    assert_eq!(card.id, 7);
    assert_eq!(card.cost, 2);
}

#[test]
fn add_creature_fragment_replaces_earlier_payload() {
    let mut card = Card::creature(1, 1, 9, 9);
    set_summoning_sickness(&mut card, true);
    add_creature_fragment(&mut card, 3, 4);
    assert_eq!(
        card.creature,
        Some(CreatureFragment { stats: CreatureStats { power: 3, toughness: 4 }, summoning_sickness: false })
    );
}

#[test]
fn remove_creature_fragment_removes_or_does_nothing() {
    let mut card = Card::creature(1, 1, 2, 3);
    remove_creature_fragment(&mut card);
    assert_eq!(creature_stats(&card), None);
    assert!(is_creature(&card));
    let mut land = Card::land(2);
    remove_creature_fragment(&mut land);
    assert_eq!(land.creature, None);
    assert!(!is_creature(&land));
}

#[test]
fn set_summoning_sickness_then_query() {
    let mut card = Card::creature(1, 1, 2, 3);
    set_summoning_sickness(&mut card, true);
    assert!(has_summoning_sickness(&card));
    assert_eq!(creature_stats(&card), Some(CreatureStats { power: 2, toughness: 3 }));
    set_summoning_sickness(&mut card, false);
    assert!(!has_summoning_sickness(&card));
}

#[test]
fn sickness_on_a_card_without_capability_is_a_no_op() {
    let mut land = Card::land(5);
    set_summoning_sickness(&mut land, true);
    assert!(!has_summoning_sickness(&land));
    assert_eq!(land.creature, None);
    assert!(!is_creature(&land));
}

#[test]
fn deck_has_lands_plus_nonlands_cards() {
    for (lands, nonlands) in [(29u32, 31u32), (30, 30), (28, 32), (0, 0), (0, 5), (5, 0), (1, 1)] {
        let deck = build_deck(Config { lands, nonlands });
        assert_eq!(deck.len(), (lands + nonlands) as usize);
        let land_cards = deck.iter().filter(|c| has_tag(c, CardType::Land)).count();
        assert_eq!(land_cards, lands as usize);
        let creatures = deck.iter().filter(|c| is_creature(c)).count();
        assert_eq!(creatures, nonlands as usize);
    }
}

#[test]
fn deck_cards_follow_the_template() {
    let deck = build_deck(Config { lands: 2, nonlands: 7 });
    let ids: Vec<u64> = deck.iter().map(|c| c.id).collect();
    assert_eq!(ids, vec![0, 1, 2, 3, 4, 5, 6, 7, 8]);
    let costs: Vec<u8> = deck.iter().map(|c| c.cost).collect();
    assert_eq!(costs, vec![0, 0, 1, 2, 3, 4, 5, 1, 2]);
    assert_eq!(creature_stats(&deck[4]), Some(CreatureStats { power: 3, toughness: 3 }));
    assert_eq!(creature_stats(&deck[0]), None);
}

#[test]
fn shuffle_follows_the_picks() {
    let ids = |deck: Vec<Card>| -> Vec<u64> { deck.iter().map(|c| c.id).collect() };
    let config = Config { lands: 2, nonlands: 2 };
    assert_eq!(ids(shuffle(build_deck(config), &vec![0, 0, 0, 0])), vec![0, 1, 2, 3]);
    assert_eq!(ids(shuffle(build_deck(config), &vec![3, 0, 1, 0])), vec![3, 0, 2, 1]);
    assert_eq!(ids(shuffle(build_deck(config), &vec![7, 5, 3, 9])), vec![3, 2, 1, 0]);
    assert_eq!(ids(shuffle(build_deck(config), &vec![1])), vec![1, 0, 2, 3]);
    assert_eq!(ids(shuffle(build_deck(config), &vec![])), vec![0, 1, 2, 3]);
}

#[test]
fn shuffled_deck_keeps_every_card() {
    let picks: Vec<usize> = (0..60).map(|i| i * 7919 + 13).collect();
    let deck = shuffled_deck(Config { lands: 29, nonlands: 31 }, &picks);
    assert_eq!(deck.len(), 60);
    let mut ids: Vec<u64> = deck.iter().map(|c| c.id).collect();
    ids.sort();
    assert_eq!(ids, (0..60).collect::<Vec<u64>>());
}
