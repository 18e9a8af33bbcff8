use engine::history::{Config, ResultHistory, BATCH_SIZE};
use engine::optimizer::{
    collect_tied, decide, first_min_index, has_qualified, is_tied, mean_exceeds, neighbors,
    pick_best_of_three, step, tiebreak_winner, Decision, Neighbors,
};

fn cfg(lands: u32, nonlands: u32) -> Config {
    Config { lands, nonlands }
}

fn around(lands: u32, nonlands: u32) -> Neighbors {
    neighbors(cfg(lands, nonlands)).unwrap()
}

#[test]
fn neighbors_keep_the_deck_size() {
    let n = around(29, 31);
    assert_eq!(n.current, cfg(29, 31));
    assert_eq!(n.more_lands, cfg(30, 30));
    assert_eq!(n.more_nonlands, cfg(28, 32));
}

#[test]
fn neighbors_need_room_on_both_sides() {
    assert_eq!(neighbors(cfg(0, 60)), None);
    assert_eq!(neighbors(cfg(60, 0)), None);
    assert_eq!(neighbors(cfg(u32::MAX, 5)), None);
    assert_eq!(neighbors(cfg(5, u32::MAX)), None);
    assert!(neighbors(cfg(1, 1)).is_some());
}

#[test]
fn history_appends_and_sums_every_sample() {
    let mut h = ResultHistory::new();
    assert_eq!(h.sample_count(cfg(29, 31)), 0);
    assert_eq!(h.total(cfg(29, 31)), 0);
    h.record(cfg(29, 31), 700);
    h.record(cfg(30, 30), 100);
    h.record(cfg(29, 31), 650);
    h.record(cfg(29, 31), 800);
    assert_eq!(h.sample_count(cfg(29, 31)), 3);
    assert_eq!(h.total(cfg(29, 31)), 2150);
    assert_eq!(h.sample_count(cfg(30, 30)), 1);
    assert_eq!(h.total(cfg(30, 30)), 100);
    assert_eq!(h.num_configs(), 2);
    assert_eq!(h.config_at(0), cfg(29, 31));
    assert_eq!(h.config_at(1), cfg(30, 30));
}

#[test]
fn history_sum_does_not_wrap_at_u32() {
    let mut h = ResultHistory::new();
    h.record(cfg(1, 1), u32::MAX);
    h.record(cfg(1, 1), u32::MAX);
    assert_eq!(h.total(cfg(1, 1)), 2 * (u32::MAX as u64));
}

#[test]
fn mean_exceeds_at_one_hundredth_of_a_turn() {
    assert_eq!(BATCH_SIZE, 100);
    // Means of 10.00 and 9.99 turns: exactly the tolerance apart.
    assert!(mean_exceeds(3000, 3, 2997, 3));
    // 10.00 and 9.9933...: closer than the tolerance.
    assert!(!mean_exceeds(3000, 3, 2998, 3));
    assert!(!mean_exceeds(2997, 3, 3000, 3));
    assert!(!mean_exceeds(3000, 3, 3000, 3));
    // Different numbers of samples: 10.00 over three against 9.99 over four.
    assert!(mean_exceeds(3000, 3, 3996, 4));
    assert!(!mean_exceeds(3000, 3, 3997, 4));
    assert!(mean_exceeds(u64::MAX, 1, 0, u32::MAX));
}

#[test]
fn best_of_three_prefers_the_earlier_among_equals() {
    let n = around(29, 31);
    assert_eq!(pick_best_of_three(&n, 5, 6, 7), cfg(29, 31));
    assert_eq!(pick_best_of_three(&n, 6, 5, 7), cfg(30, 30));
    assert_eq!(pick_best_of_three(&n, 7, 6, 5), cfg(28, 32));
    assert_eq!(pick_best_of_three(&n, 5, 5, 5), cfg(29, 31));
    assert_eq!(pick_best_of_three(&n, 6, 5, 5), cfg(30, 30));
}

#[test]
fn first_iteration_records_one_sample_each_and_moves() {
    let mut h = ResultHistory::new();
    let d = step(&mut h, cfg(29, 31), 900, 850, 870);
    assert_eq!(h.sample_count(cfg(29, 31)), 1);
    assert_eq!(h.sample_count(cfg(30, 30)), 1);
    assert_eq!(h.sample_count(cfg(28, 32)), 1);
    assert_eq!(h.total(cfg(29, 31)), 900);
    assert_eq!(h.total(cfg(30, 30)), 850);
    assert_eq!(h.total(cfg(28, 32)), 870);
    assert_eq!(h.num_configs(), 3);
    assert!(!has_qualified(&h));
    assert!(matches!(d, Decision::Move(c) if c == cfg(30, 30)));
}

#[test]
fn a_single_qualified_configuration_is_optimal() {
    let mut h = ResultHistory::new();
    assert!(matches!(step(&mut h, cfg(29, 31), 900, 950, 960), Decision::Move(c) if c == cfg(29, 31)));
    assert!(matches!(step(&mut h, cfg(29, 31), 900, 950, 960), Decision::Move(c) if c == cfg(29, 31)));
    let d = step(&mut h, cfg(29, 31), 900, 950, 960);
    assert!(has_qualified(&h));
    assert!(is_tied(&h, cfg(29, 31)));
    assert!(!is_tied(&h, cfg(30, 30)));
    assert!(!is_tied(&h, cfg(28, 32)));
    assert!(!is_tied(&h, cfg(10, 50)));
    assert!(matches!(d, Decision::Optimal(c) if c == cfg(29, 31)));
}

#[test]
fn mean_counts_every_sample_not_the_latest() {
    let mut h = ResultHistory::new();
    // (29,31): 1000, 1000, 400 -> mean 8.00; (30,30): three times 790 -> 7.90.
    for v in [1000u32, 1000, 400] {
        h.record(cfg(29, 31), v);
    }
    for v in [790u32, 790, 790] {
        h.record(cfg(30, 30), v);
    }
    assert!(!is_tied(&h, cfg(29, 31)));
    assert!(is_tied(&h, cfg(30, 30)));
    assert_eq!(collect_tied(&h), vec![cfg(30, 30)]);
}

#[test]
fn close_means_call_for_a_tie_break() {
    let mut h = ResultHistory::new();
    for v in [900u32, 900, 900] {
        h.record(cfg(29, 31), v);
    }
    for v in [900u32, 900, 902] {
        h.record(cfg(30, 30), v);
    }
    for v in [950u32, 950, 950] {
        h.record(cfg(28, 32), v);
    }
    h.record(cfg(27, 33), 100);
    let n = around(29, 31);
    let d = decide(&h, &n, 900, 902, 950);
    match d {
        Decision::TieBreak(tied) => {
            assert_eq!(tied, vec![cfg(29, 31), cfg(30, 30)]);
            assert_eq!(tiebreak_winner(&tied, &vec![910, 905]), cfg(30, 30));
            assert_eq!(tiebreak_winner(&tied, &vec![905, 910]), cfg(29, 31));
            assert_eq!(tiebreak_winner(&tied, &vec![905, 905]), cfg(29, 31));
        }
        other => panic!("expected a tie-break, got {:?}", other),
    }
}

#[test]
fn means_a_full_hundredth_apart_do_not_tie() {
    let mut h = ResultHistory::new();
    for v in [900u32, 900, 900] {
        h.record(cfg(29, 31), v);
    }
    for v in [901u32, 901, 901] {
        h.record(cfg(30, 30), v);
    }
    let n = around(29, 31);
    assert!(matches!(decide(&h, &n, 1, 2, 3), Decision::Optimal(c) if c == cfg(29, 31)));
}

#[test]
fn decide_moves_while_nothing_is_qualified() {
    let mut h = ResultHistory::new();
    h.record(cfg(29, 31), 5);
    h.record(cfg(29, 31), 5);
    let n = around(29, 31);
    assert!(matches!(decide(&h, &n, 9, 8, 7), Decision::Move(c) if c == cfg(28, 32)));
}

#[test]
fn first_min_index_takes_the_first_of_the_lowest() {
    assert_eq!(first_min_index(&vec![5]), 0);
    assert_eq!(first_min_index(&vec![5, 3, 4, 3]), 1);
    assert_eq!(first_min_index(&vec![9, 8, 7]), 2);
}
