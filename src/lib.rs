//! Decoding and evaluation of a hierarchical bit-level packet format, with
//! the laws it obeys (`laws`); and smaller routines: nested pair arithmetic,
//! a register machine, bingo boards, paper folding, image enhancement, an
//! amphipod burrow, scanner alignment and probe flights.

pub mod alu;
pub mod bingo;
pub mod bits;
pub mod burrow;
pub mod dice;
pub mod error;
pub mod eval;
pub mod hex;
pub mod image;
pub mod laws;
pub mod packet;
pub mod paper;
pub mod probe;
pub mod scanner;
pub mod snailfish;
