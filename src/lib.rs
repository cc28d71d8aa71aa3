//! Engine-driven move accuracy: the protocol logic that talks to a UCI
//! evaluation engine, the parsing of its output, and the bookkeeping that
//! turns a game's evaluation sequence into per-side move transitions.
pub mod perspective;
pub mod pgn;
pub mod protocol;
pub mod session;
pub mod text;
pub mod transitions;
