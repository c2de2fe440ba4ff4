pub mod nibbles;
pub mod position;
pub mod cdb_fen;
pub mod cdb_moves;
pub mod chess;
pub mod error;
pub mod legacy_key;
pub mod pv;
