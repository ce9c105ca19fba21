//! A single-pass translator for the eight-command cell-tape language.
//!
//! The translator consumes a raw byte stream, run-length compresses runs of
//! the four directional commands (`>`, `<`, `+`, `-`) into single tokens, and
//! wires nested loops (`[`, `]`) into a basic-block graph with a stack of loop
//! frames. The finished [`graph::Program`] is the sole artifact handed to a
//! native code-generation backend; the backend itself, linking, and execution
//! are outside this crate.

pub mod graph;
pub mod props;
pub mod token;
pub mod translate;
