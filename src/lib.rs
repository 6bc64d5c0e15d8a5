//! Driver logic for a multi-row split-character display on a serial link:
//! the wire frame encoding, per-row rate limiting and change suppression,
//! the board with its power-up sequence, and the race console whose
//! stopwatches and ranking produce the text shown on it.

pub mod frame;
pub mod row;
pub mod board;
pub mod team;
pub mod selection;
pub mod race;
