//! A private bulletin board: wire format, sealing, board state, command
//! language and connection policy.

pub mod args;
pub mod big_endian;
pub mod board;
pub mod cipher;
pub mod clock;
pub mod feed;
pub mod net;
pub mod numeral;
pub mod proto;
pub mod repl;
pub mod text;
