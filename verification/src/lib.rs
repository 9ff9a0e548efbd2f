//! Core of a touch-driven on-screen piano: a resolver that turns raw
//! touch contacts on a fixed key layout into a strictly alternating
//! stream of PRESS/RELEASE key events, a line protocol that carries
//! those events as text, and a translator that maps key events plus a
//! transposition mode to concrete instrument note numbers.

pub mod emitter;
pub mod geometry;
pub mod midi_out;
pub mod notes;
pub mod piano;
pub mod protocol;
pub mod resolver;
pub mod tracker;
