use engine::batch::{Batch, Progress};
use engine::card::{Card, CardType};
use engine::creature::{has_summoning_sickness, set_summoning_sickness};
use engine::deck::build_deck;
use engine::game::{
    is_land, next_phase, Permanent, Phase, Player, ProgramState, StepCommand, MAX_TURNS,
    STARTING_LIFE,
};
use engine::history::{Config, BATCH_SIZE};
use engine::play::{play_game, GameState};
use engine::sim::{parse_command, play_scenario_game, run_batch, try_scenario, GamePicks};

fn picks_for_batch(seed: usize) -> Vec<GamePicks> {
    (0..BATCH_SIZE as usize)
        .map(|g| GamePicks {
            first: (0..60).map(|i| seed + g * 31 + i * 17).collect(),
            second: (0..60).map(|i| seed + g * 13 + i * 29 + 5).collect(),
        })
        .collect()
}

#[test]
fn parse_command_reads_the_six_letters() {
    assert_eq!(parse_command("s"), StepCommand::StepPhase);
    assert_eq!(parse_command("t"), StepCommand::StepTurn);
    assert_eq!(parse_command("g"), StepCommand::RunGame);
    assert_eq!(parse_command("d"), StepCommand::RunDeck);
    assert_eq!(parse_command("r"), StepCommand::RunAll);
    assert_eq!(parse_command("q"), StepCommand::Quit);
}

#[test]
fn parse_command_falls_back_on_anything_else() {
    assert_eq!(parse_command(""), StepCommand::StepPhase);
    assert_eq!(parse_command("x"), StepCommand::StepPhase);
    assert_eq!(parse_command("Q"), StepCommand::StepPhase);
    assert_eq!(parse_command("qq"), StepCommand::StepPhase);
    assert_eq!(parse_command("quit"), StepCommand::StepPhase);
    assert_eq!(parse_command("é"), StepCommand::StepPhase);
}

#[test]
fn phases_follow_each_other_in_a_cycle() {
    let order = [
        Phase::Untap,
        Phase::Upkeep,
        Phase::Draw,
        Phase::MainPhase1,
        Phase::DeclareAttackers,
        Phase::DeclareBlockers,
        Phase::CombatDamage,
        Phase::MainPhase2,
        Phase::EndStep,
        Phase::Cleanup,
    ];
    for i in 0..order.len() {
        assert_eq!(next_phase(order[i]), order[(i + 1) % order.len()]);
    }
}

#[test]
fn is_land_goes_by_the_tag() {
    assert!(is_land(&Card::land(0)));
    assert!(!is_land(&Card::spell(0, 1)));
    assert!(!is_land(&Card::creature(0, 1, 1, 1)));
}

#[test]
fn draw_moves_the_top_card_or_reports_an_empty_library() {
    let mut p = Player::new(vec![Card::land(1), Card::land(2)]);
    assert_eq!(p.life, STARTING_LIFE);
    assert!(p.draw());
    assert_eq!(p.hand.len(), 1);
    assert_eq!(p.hand[0].id, 2);
    assert_eq!(p.library.len(), 1);
    assert!(p.draw());
    assert!(!p.draw());
    assert_eq!(p.hand.len(), 2);
    assert_eq!(p.library.len(), 0);
}

#[test]
fn untap_clears_sickness_of_earlier_turns_only() {
    let mut old_one = Card::creature(1, 1, 2, 2);
    set_summoning_sickness(&mut old_one, true);
    let mut new_one = Card::creature(2, 1, 3, 3);
    set_summoning_sickness(&mut new_one, true);
    let mut p = Player::new(vec![]);
    p.battlefield.push(Permanent { card: old_one, entered_turn: 3 });
    p.battlefield.push(Permanent { card: new_one, entered_turn: 5 });
    p.battlefield.push(Permanent { card: Card::land(3), entered_turn: 1 });
    p.mana_spent = 2;
    p.land_played = true;
    p.untap(5);
    assert!(!has_summoning_sickness(&p.battlefield[0].card));
    assert!(has_summoning_sickness(&p.battlefield[1].card));
    assert_eq!(p.battlefield[2].card.creature, None);
    assert_eq!(p.mana_spent, 0);
    assert!(!p.land_played);
}

#[test]
fn policy_plays_a_land_first() {
    let mut p = Player::new(vec![]);
    p.hand = vec![Card::creature(1, 0, 1, 1), Card::land(2), Card::land(3)];
    assert_eq!(p.choose_play(), Some(1));
    p.land_played = true;
    assert_eq!(p.choose_play(), Some(0));
}

#[test]
fn policy_plays_the_cheapest_card_it_can_pay() {
    let mut p = Player::new(vec![]);
    p.hand = vec![
        Card::creature(1, 4, 4, 4),
        Card::creature(2, 2, 2, 2),
        Card::spell(3, 2),
        Card::creature(4, 3, 3, 3),
    ];
    assert_eq!(p.choose_play(), None);
    p.lands = 3;
    assert_eq!(p.choose_play(), Some(1));
    p.mana_spent = 2;
    assert_eq!(p.choose_play(), None);
    p.lands = 6;
    p.mana_spent = 2;
    assert_eq!(p.choose_play(), Some(1));
}

#[test]
fn playing_a_creature_pays_and_makes_it_sick() {
    let mut p = Player::new(vec![]);
    p.lands = 3;
    p.hand = vec![Card::land(1), Card::creature(2, 2, 5, 6), Card::spell(3, 1)];
    p.play_card(1, 4);
    assert_eq!(p.hand.len(), 2);
    assert_eq!(p.mana_spent, 2);
    assert_eq!(p.battlefield.len(), 1);
    assert_eq!(p.battlefield[0].entered_turn, 4);
    assert!(has_summoning_sickness(&p.battlefield[0].card));
    assert_eq!(p.attack_power(), 0);
    assert_eq!(p.block_toughness(), 6);
    p.play_card(1, 4);
    assert_eq!(p.mana_spent, 3);
    assert_eq!(p.battlefield.len(), 1);
    p.play_card(0, 4);
    assert_eq!(p.lands, 4);
    assert!(p.land_played);
    assert_eq!(p.battlefield.len(), 2);
    assert_eq!(p.battlefield[1].card.card_types, vec![CardType::Land]);
    p.untap(5);
    assert_eq!(p.attack_power(), 5);
}

#[test]
fn damage_is_attack_beyond_toughness_and_life_stops_at_zero() {
    let mut p = Player::new(vec![]);
    p.battlefield.push(Permanent { card: Card::creature(1, 1, 1, 4), entered_turn: 1 });
    assert!(!p.take_attack(3));
    assert_eq!(p.life, 20);
    assert!(!p.take_attack(4));
    assert_eq!(p.life, 20);
    assert!(!p.take_attack(11));
    assert_eq!(p.life, 13);
    assert!(p.take_attack(1000));
    assert_eq!(p.life, 0);
}

#[test]
fn empty_library_ends_the_game_in_the_turn_of_the_draw() {
    assert_eq!(play_game(vec![], vec![]), 1);
    let lands = |n: u32| build_deck(Config { lands: n, nonlands: 0 });
    assert_eq!(play_game(lands(5), lands(5)), 11);
    assert_eq!(play_game(lands(5), lands(2)), 6);
}

#[test]
fn game_stops_at_the_turn_ceiling() {
    let lands = |n: u32| build_deck(Config { lands: n, nonlands: 0 });
    assert_eq!(MAX_TURNS, 200);
    assert_eq!(play_game(lands(100), lands(100)), 200);
    assert_eq!(play_game(lands(150), lands(150)), 200);
}

#[test]
fn game_ends_when_life_reaches_zero() {
    let attackers: Vec<Card> = (0..10).map(|i| Card::creature(i, 0, 5, 5)).collect();
    let lands = build_deck(Config { lands: 30, nonlands: 0 });
    assert_eq!(play_game(attackers, lands), 7);
}

#[test]
fn tick_plays_one_phase() {
    let mut s = GameState::new(vec![Card::land(1)], vec![]);
    assert_eq!(s.phase, Phase::Untap);
    assert_eq!(s.turn, 1);
    assert_eq!(s.tick(), None);
    assert_eq!(s.phase, Phase::Upkeep);
    assert_eq!(s.tick(), None);
    assert_eq!(s.tick(), None);
    assert_eq!(s.phase, Phase::MainPhase1);
    assert_eq!(s.first.hand.len(), 1);
    assert_eq!(s.tick(), None);
    assert_eq!(s.first.lands, 1);
    for _ in 0..6 {
        assert_eq!(s.tick(), None);
    }
    assert_eq!(s.phase, Phase::Untap);
    assert_eq!(s.turn, 2);
    assert!(!s.first_active);
    assert_eq!(s.tick(), None);
    assert_eq!(s.tick(), None);
    assert_eq!(s.tick(), Some(2));
}

#[test]
fn scenario_game_is_replayed_from_the_same_picks() {
    let config = Config { lands: 29, nonlands: 31 };
    let a: Vec<usize> = (0..60).map(|i| i * 7 + 3).collect();
    let b: Vec<usize> = (0..60).map(|i| i * 11 + 1).collect();
    let first = play_scenario_game(config, &a, &b);
    assert!(1 <= first && first <= MAX_TURNS);
    assert_eq!(play_scenario_game(config, &a, &b), first);
}

#[test]
fn batch_total_is_within_its_bounds() {
    let picks = picks_for_batch(1);
    let total = run_batch(Config { lands: 29, nonlands: 31 }, &picks);
    assert!(BATCH_SIZE <= total && total <= BATCH_SIZE * MAX_TURNS);
    assert_eq!(run_batch(Config { lands: 0, nonlands: 0 }, &picks), BATCH_SIZE);
    assert_eq!(run_batch(Config { lands: 5, nonlands: 0 }, &vec![]), 11 * BATCH_SIZE);
}

#[test]
fn try_scenario_runs_a_whole_batch() {
    let mut state = ProgramState::new();
    state.step_mode = StepCommand::RunAll;
    let total = try_scenario(29, 31, &mut state, picks_for_batch(2));
    assert_eq!(total, Some(run_batch(Config { lands: 29, nonlands: 31 }, &picks_for_batch(2))));
    assert!(state.batch.is_none());
}

#[test]
fn try_scenario_resumes_without_counting_twice() {
    let expected = run_batch(Config { lands: 30, nonlands: 30 }, &picks_for_batch(3));
    let mut state = ProgramState::new();
    state.step_mode = StepCommand::StepPhase;
    assert_eq!(try_scenario(30, 30, &mut state, picks_for_batch(3)), None);
    assert!(state.batch.is_some());
    assert_eq!(state.batch.as_ref().map(|b| b.game.as_ref().map(|g| g.phase)), Some(Some(Phase::Upkeep)));
    state.step_mode = StepCommand::StepTurn;
    assert_eq!(try_scenario(30, 30, &mut state, vec![]), None);
    assert_eq!(state.batch.as_ref().map(|b| b.game.as_ref().map(|g| (g.turn, g.phase))), Some(Some((2, Phase::Untap))));
    state.step_mode = StepCommand::RunGame;
    assert_eq!(try_scenario(30, 30, &mut state, vec![]), None);
    assert_eq!(state.batch.as_ref().map(|b| b.completed), Some(1));
    state.step_mode = StepCommand::RunGame;
    assert_eq!(try_scenario(30, 30, &mut state, picks_for_batch(99)), None);
    assert_eq!(state.batch.as_ref().map(|b| b.completed), Some(2));
    state.step_mode = StepCommand::RunDeck;
    assert_eq!(try_scenario(30, 30, &mut state, vec![]), Some(expected));
    assert!(state.batch.is_none());
}

#[test]
fn try_scenario_starts_afresh_for_another_configuration() {
    let mut state = ProgramState::new();
    state.step_mode = StepCommand::RunGame;
    assert_eq!(try_scenario(30, 30, &mut state, picks_for_batch(5)), None);
    state.step_mode = StepCommand::RunDeck;
    let total = try_scenario(5, 0, &mut state, vec![]);
    assert_eq!(total, Some(11 * BATCH_SIZE));
}

#[test]
fn quit_gives_no_result_and_drops_the_batch() {
    let mut state = ProgramState::new();
    state.step_mode = StepCommand::RunGame;
    assert_eq!(try_scenario(29, 31, &mut state, picks_for_batch(4)), None);
    assert!(state.batch.is_some());
    state.step_mode = StepCommand::Quit;
    assert_eq!(try_scenario(29, 31, &mut state, picks_for_batch(4)), None);
    assert!(state.batch.is_none());
}

#[test]
fn batch_has_no_result_before_its_last_game() {
    let mut batch = Batch::new(Config { lands: 0, nonlands: 0 }, vec![]);
    assert_eq!(batch.result(), None);
    assert_eq!(batch.advance(StepCommand::RunGame), Progress::Paused);
    assert_eq!(batch.completed, 1);
    assert_eq!(batch.total, 1);
    assert_eq!(batch.result(), None);
    assert_eq!(batch.advance(StepCommand::Quit), Progress::Aborted);
    assert_eq!(batch.completed, 1);
    assert_eq!(batch.advance(StepCommand::RunDeck), Progress::Finished(BATCH_SIZE));
    assert_eq!(batch.result(), Some(BATCH_SIZE));
    assert_eq!(batch.advance(StepCommand::StepPhase), Progress::Finished(BATCH_SIZE));
}

#[test]
fn batch_steps_game_by_game_to_the_same_total() {
    let config = Config { lands: 29, nonlands: 31 };
    let expected = run_batch(config, &picks_for_batch(6));
    let mut batch = Batch::new(config, picks_for_batch(6));
    let mut calls = 0;
    let total = loop {
        calls += 1;
        match batch.advance(StepCommand::RunGame) {
            Progress::Finished(total) => break total,
            Progress::Paused => {}
            Progress::Aborted => panic!("nobody quit"),
        }
    };
    assert_eq!(calls, BATCH_SIZE);
    assert_eq!(total, expected);
}
