//! A simplified turn-based card game and the search for the split of a deck
//! into lands and other cards that ends a game in the fewest turns.
//!
//! - `card`, `creature`: cards with optional capabilities.
//! - `deck`: building and shuffling decks.
//! - `game`, `play`: the phases of a turn and a game as a state machine.
//! - `sim`, `batch`: batches of games for one deck configuration, which can
//!   be paused and resumed.
//! - `history`, `optimizer`, `search_laws`: the record of batch results and
//!   the decisions of the hill-climbing search over the land / non-land
//!   split of a deck.

pub mod batch;
pub mod card;
pub mod creature;
pub mod deck;
pub mod game;
pub mod history;
pub mod optimizer;
pub mod play;
pub mod search_laws;
pub mod sim;
