//! In-memory deterministic finite automata over character ranges.
//!
//! An [`automata::Automata`] holds a sequence of states, each optionally
//! tagged with an action, and an ordered index of transitions labelled by
//! inclusive character ranges. On top of the storage it answers the
//! queries a matcher or a code generator needs: stepping on a character,
//! finding the terminal state, and classifying every state by its place in
//! the graph.
//!
//! - [`range`]: inclusive character ranges, their order and their merging.
//! - [`edges`]: transitions as a mathematical map, and what a list of them
//!   is.
//! - [`index`]: the ordered store of transitions.
//! - [`automata`]: states and transitions together, stepping, and the
//!   terminal state.
//! - [`classify`]: the kind of each state.

pub mod automata;
pub mod classify;
pub mod edges;
pub mod index;
pub mod range;
