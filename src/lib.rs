//! Turn-resolution and economy engine of a looping board game: players move
//! around a closed track of tiles, buy property, collect suits and cash out
//! at the bank for a leveled salary.

pub mod board;
pub mod player;
pub mod game;
pub mod dice;
pub mod laws;

pub use board::{District, Suit, SuitSet, Tile, TileKind, generate_board};
pub use player::{PlayerKind, PlayerState};
pub use game::Game;
pub use dice::{chance_delta, roll_die};
pub use laws::{law_bank, law_fee_transfer, law_purchase, law_bot_rotation_cycle, law_rotation_cycle, law_suit_idempotent};
