//! A turn-based connect-N game core: a rectangular board of cells, gravity
//! drops into columns, strict turn alternation, and detection of a winning
//! run of configurable length in any of four directions.
//!
//! The crate is the game's logic only: it takes validated column indices and
//! board configurations and answers state queries. Reading input and drawing
//! the board belong to a driver outside the crate.

mod board;
mod game;
mod model;

pub use board::Board;
pub use board::Cell;
pub use board::GameError;
pub use game::Game;
pub use game::Player;
pub use game::lemma_fresh_game;
pub use game::lemma_turn_alternation;
pub use game::player_of_turn;
pub use game::token_of;
pub use model::column_full;
pub use model::east_win;
pub use model::grid_dims;
pub use model::grid_full;
pub use model::grid_tokens;
pub use model::has_winner;
pub use model::is_token;
pub use model::landing_row;
pub use model::lemma_flush_east_win;
pub use model::lemma_flush_south_win;
pub use model::lemma_gravity_lands_lowest;
pub use model::lemma_no_diagonal_on_small_board;
pub use model::lowest_empty_from;
pub use model::northeast_win;
pub use model::run_in_dir;
pub use model::south_win;
pub use model::southeast_win;
