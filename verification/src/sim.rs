//! Running a batch of games for one deck configuration, at one go or step
//! by step under the commands of a console.
//!
//! Both players of a game play the deck of the configuration, each in an
//! order of its own. A batch's result is the total of its games' metrics.

use vstd::prelude::*;
use vstd::string::*;
use crate::batch::{advanced, Batch, Progress};
use crate::card::Card;
use crate::deck::{build_deck, is_deck_card, shuffle, shuffle_spec};
use crate::game::{ProgramState, StepCommand, MAX_TURNS};
use crate::history::{sum, Config, BATCH_SIZE};
use crate::play::{is_game, play_game, GameState};

verus! {

/// The numbers that shuffle the two decks of one game.
#[derive(Debug)]
pub struct GamePicks {
    pub first: Vec<usize>,
    pub second: Vec<usize>,
}

/// `deck` is the unshuffled deck of `config`.
pub open spec fn is_deck(config: Config, deck: Seq<Card>) -> bool {
    &&& deck.len() == config.deck_size()
    &&& forall|i: int| 0 <= i < deck.len() ==> is_deck_card(config, i, #[trigger] deck[i])
}

/// `library` is the deck of `config`, shuffled by `picks`.
pub open spec fn is_library(config: Config, picks: Seq<usize>, library: Seq<Card>) -> bool {
    &&& library.len() == config.deck_size()
    &&& exists|deck: Seq<Card>| is_deck(config, deck) && library == shuffle_spec(deck, picks)
}

/// A game between two decks of `config`, shuffled by the two lists of picks,
/// ends with metric `turns`.
pub open spec fn is_scenario_game(
    config: Config,
    first_picks: Seq<usize>,
    second_picks: Seq<usize>,
    turns: u32,
) -> bool {
    exists|first: Vec<Card>, second: Vec<Card>, trace: Seq<GameState>|
        is_library(config, first_picks, first@) && is_library(config, second_picks, second@)
            && is_game(trace, first, second, turns)
}

/// The picks for game `g` of a batch: those given for it, or none where the
/// list is too short.
pub open spec fn picks_for(picks: Seq<GamePicks>, g: int) -> (Seq<usize>, Seq<usize>) {
    if 0 <= g < picks.len() {
        (picks[g].first@, picks[g].second@)
    } else {
        (Seq::empty(), Seq::empty())
    }
}

/// `metrics` are the metrics of the first games of a batch for `config`, in
/// order.
pub open spec fn is_batch(config: Config, picks: Seq<GamePicks>, metrics: Seq<u32>) -> bool {
    forall|g: int|
        0 <= g < metrics.len() ==> is_scenario_game(
            config,
            picks_for(picks, g).0,
            picks_for(picks, g).1,
            #[trigger] metrics[g],
        )
}

/// Every game of a batch is played between two libraries of exactly
/// `lands + nonlands` cards each.
pub proof fn lemma_batch_deck_size(config: Config, picks: Seq<GamePicks>, metrics: Seq<u32>, g: int)
    requires
        is_batch(config, picks, metrics),
        0 <= g < metrics.len(),
    ensures
        exists|first: Vec<Card>, second: Vec<Card>, trace: Seq<GameState>|
            first@.len() == config.lands + config.nonlands && second@.len() == config.lands
                + config.nonlands && is_game(trace, first, second, metrics[g]),
{
    let turns = metrics[g];
    let first_picks = picks_for(picks, g).0;
    let second_picks = picks_for(picks, g).1;
    assert(is_scenario_game(config, first_picks, second_picks, turns));
    let (first, second, trace) = choose|first: Vec<Card>, second: Vec<Card>, trace: Seq<GameState>|
        is_library(config, first_picks, first@) && is_library(config, second_picks, second@)
            && is_game(trace, first, second, turns);
    assert(first@.len() == config.lands + config.nonlands && second@.len() == config.lands
        + config.nonlands && is_game(trace, first, second, metrics[g]));
}

/// The deck of `config`, shuffled by `picks`: always exactly
/// `lands + nonlands` cards.
pub fn shuffled_deck(config: Config, picks: &Vec<usize>) -> (library: Vec<Card>)
    ensures
        is_library(config, picks@, library@),
        library@.len() == config.lands + config.nonlands,
{
    let deck = build_deck(config);
    assert(is_deck(config, deck@));
    shuffle(deck, picks)
}

/// Plays one game between two decks of `config` and returns its metric.
pub fn play_scenario_game(config: Config, first_picks: &Vec<usize>, second_picks: &Vec<usize>) -> (turns: u32)
    ensures
        1 <= turns <= MAX_TURNS,
        is_scenario_game(config, first_picks@, second_picks@, turns),
{
    let first = shuffled_deck(config, first_picks);
    let second = shuffled_deck(config, second_picks);
    play_game(first, second)
}

/// Runs the `BATCH_SIZE` games of a batch for `config`, game `g` shuffled by
/// `picks[g]`, and returns the total of their metrics; the batch average is
/// this total divided by `BATCH_SIZE`.
pub fn run_batch(config: Config, picks: &Vec<GamePicks>) -> (total: u32)
    ensures
        BATCH_SIZE <= total <= BATCH_SIZE * MAX_TURNS,
        exists|metrics: Seq<u32>|
            metrics.len() == BATCH_SIZE && is_batch(config, picks@, metrics) && total == sum(
                metrics,
            ),
{
    let none: Vec<usize> = Vec::new();
    let mut total: u32 = 0;
    let mut g: u32 = 0;
    let ghost mut metrics: Seq<u32> = Seq::empty();
    while g < BATCH_SIZE
        invariant
            g <= BATCH_SIZE,
            none@ == Seq::<usize>::empty(),
            metrics.len() == g,
            is_batch(config, picks@, metrics),
            total == sum(metrics),
            g <= total <= g * MAX_TURNS,
        decreases BATCH_SIZE - g,
    {
        let turns = if (g as usize) < picks.len() {
            play_scenario_game(config, &picks[g as usize].first, &picks[g as usize].second)
        } else {
            play_scenario_game(config, &none, &none)
        };
        proof {
            crate::history::lemma_sum_push(metrics, turns);
            metrics = metrics.push(turns);
        }
        total = total + turns;
        g += 1;
    }
    total
}

/// The state keeps a paused batch for `config`.
pub open spec fn resumes(state: ProgramState, config: Config) -> bool {
    match state.batch {
        Some(batch) => batch.config == config,
        None => false,
    }
}

/// The picks that a call for `config` plays from: those of the paused batch
/// that it resumes, or else the ones handed in.
pub open spec fn picks_in_use(state: ProgramState, config: Config, picks: Vec<GamePicks>) -> Vec<
    GamePicks,
> {
    if resumes(state, config) {
        state.batch.unwrap().picks
    } else {
        picks
    }
}

/// `start` is the batch that a call for `config` goes on with: the paused
/// batch that the state keeps for `config`, or else a new batch with the
/// picks handed in.
pub open spec fn starts_from(state: ProgramState, config: Config, picks: Vec<GamePicks>, start: Batch) -> bool {
    if resumes(state, config) {
        start == state.batch.unwrap()
    } else {
        &&& start.wf()
        &&& start.config == config
        &&& start.picks == picks
        &&& start.completed == 0
        &&& start.total == 0
        &&& start.game.is_none()
        &&& start.metrics@ == Seq::<u32>::empty()
    }
}

/// Runs the batch for the configuration as far as the state's step mode
/// asks. A batch that an earlier call for the same configuration left paused
/// is resumed where it stopped, with the picks it began with; otherwise a
/// new batch begins, game `g` of it shuffled by `picks[g]`. The result is
/// the batch total once all `BATCH_SIZE` games are played, each exactly
/// once, and the batch is then dropped. A paused batch is kept for the next
/// call; `Quit` drops the batch. In both cases there is no result.
pub fn try_scenario(lands: u32, nonlands: u32, program_state: &mut ProgramState, picks: Vec<GamePicks>) -> (r: Option<u32>)
    requires
        old(program_state).wf(),
    ensures
        final(program_state).wf(),
        final(program_state).step_mode == old(program_state).step_mode,
        exists|start: Batch, end: Batch, progress: Progress|
            {
                &&& starts_from(*old(program_state), (Config { lands, nonlands }), picks, start)
                &&& end.wf()
                &&& advanced(start, end, old(program_state).step_mode, progress)
                &&& r == match progress {
                    Progress::Finished(total) => Some(total),
                    _ => None,
                }
                &&& final(program_state).batch == match progress {
                    Progress::Paused => Some(end),
                    _ => None,
                }
            },
        match r {
            Some(total) => {
                &&& BATCH_SIZE <= total <= BATCH_SIZE * MAX_TURNS
                &&& exists|metrics: Seq<u32>|
                    {
                        &&& metrics.len() == BATCH_SIZE
                        &&& total == sum(metrics)
                        &&& is_batch(
                            (Config { lands, nonlands }),
                            picks_in_use(*old(program_state), (Config { lands, nonlands }), picks)@,
                            metrics,
                        )
                        &&& resumes(*old(program_state), (Config { lands, nonlands }))
                            ==> metrics.take(old(program_state).batch.unwrap().completed as int)
                            == old(program_state).batch.unwrap().metrics@
                    }
            },
            None => old(program_state).step_mode == StepCommand::Quit
                || !final(program_state).batch.unwrap().done(),
        },
{
    let config = Config { lands, nonlands };
    let kept = program_state.batch.take();
    let mut batch = match kept {
        Some(batch) => {
            if batch.config == config {
                batch
            } else {
                Batch::new(config, picks)
            }
        },
        None => Batch::new(config, picks),
    };
    let ghost start = batch;
    let progress = batch.advance(program_state.step_mode);
    proof {
        assert(starts_from(*old(program_state), config, picks, start));
        assert(advanced(start, batch, old(program_state).step_mode, progress));
    }
    match progress {
        Progress::Finished(total) => Some(total),
        Progress::Paused => {
            program_state.batch = Some(batch);
            None
        },
        Progress::Aborted => None,
    }
}

/// The command that a trimmed input line stands for. Anything that is not
/// one of the six command letters steps one phase.
pub open spec fn command_spec(input: Seq<char>) -> StepCommand {
    if input.len() != 1 {
        StepCommand::StepPhase
    } else if input[0] == 's' {
        StepCommand::StepPhase
    } else if input[0] == 't' {
        StepCommand::StepTurn
    } else if input[0] == 'g' {
        StepCommand::RunGame
    } else if input[0] == 'd' {
        StepCommand::RunDeck
    } else if input[0] == 'r' {
        StepCommand::RunAll
    } else if input[0] == 'q' {
        StepCommand::Quit
    } else {
        StepCommand::StepPhase
    }
}

/// Reads a command from a trimmed input line.
pub fn parse_command(input: &str) -> (r: StepCommand)
    ensures
        r == command_spec(input@),
{
    if input.unicode_len() != 1 {
        return StepCommand::StepPhase;
    }
    let c = input.get_char(0);
    if c == 's' {
        StepCommand::StepPhase
    } else if c == 't' {
        StepCommand::StepTurn
    } else if c == 'g' {
        StepCommand::RunGame
    } else if c == 'd' {
        StepCommand::RunDeck
    } else if c == 'r' {
        StepCommand::RunAll
    } else if c == 'q' {
        StepCommand::Quit
    } else {
        StepCommand::StepPhase
    }
}


} // verus!
