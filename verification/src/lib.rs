//! A compiler, interpreter and debugger for a two-dimensional, stack-oriented
//! esoteric language in the Befunge family.
//!
//! Programs are rectangular toroidal grids of characters, executed by an
//! instruction pointer that moves in the four cardinal directions, pushes and
//! pops a stack of signed integers, and terminates on a sentinel instruction.
//! The heart of the crate is a symbolic interpreter core whose stack elements
//! are either concrete integers or symbolic expression trees; a pluggable
//! callback lets the same loop drive direct execution, a debugger, and a
//! compiler that lowers the program to a block-structured intermediate
//! representation.

pub mod compiler;
pub mod error;
pub mod host;
pub mod interpreter;
pub mod ip;
pub mod optimizer;
pub mod translator;

pub use crate::error::Error;
