//! Sortable 128-bit identifiers that pack a microsecond-resolution timestamp,
//! a 32-bit shard tag and a 36-bit random field into a fixed bit layout with
//! UUID-style version and variant markers.
//!
//! The crate is self-contained: calendar arithmetic, ISO-8601 parsing and
//! formatting, and the pseudo-random generator are all implemented and
//! verified here. Only the wall-clock and seed-entropy reads are trusted.

mod calendar;
mod clock;
mod errors;
mod id;
mod iso;
mod rng;

pub use errors::MicroShardError;
pub use id::MicroShardUUID;
pub use rng::SimpleRng;
