//! Castling, en passant and promotion.

pub mod en_passant;
pub mod promoting;
pub mod rochade;
