//! Adapters between ordered in-memory containers (sequence, set, map, shared
//! reference) and a compact binary wire encoding built on the `flatbuffers`
//! engine.  Each adapter states exactly what it writes and what it reads back.

pub mod text;
pub mod order;
pub mod containers;
pub mod wire;
pub mod convert;
pub mod adapters;
pub mod laws;
