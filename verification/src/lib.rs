//! A chess rules engine: move generation, check detection, castling,
//! en passant and promotion, driven by a small click state machine.

pub mod chess;
pub mod error;
pub mod field;
pub mod figure;
pub mod laws;
pub mod model;
pub mod rules;
pub mod selection;
pub mod special_moves;
pub mod valid_moves;

pub use chess::{spawn_figure, Chess, Move, Position, State};
pub use error::ChessError;
pub use field::Field;
pub use figure::{Figure, FigureType, Team};
pub use model::GameView;
pub use selection::Selection;
pub use special_moves::en_passant::EnPassantRegistry;
pub use special_moves::promoting::promotion_choice;
