//! Core logic of a light-curve dump pipeline: which row of which block a
//! query yields next, how per-source records are buffered and flushed per
//! output file, what the feature columns are called and what the name and
//! metadata files hold.

pub mod columns;
pub mod cursor;
pub mod dispatch;
pub mod dumper;
pub mod dumps;
pub mod encoding;
pub mod passband;
