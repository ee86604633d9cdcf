//! # A crossword, defined as a boolean satisfiability problem
//!
//! This library transforms a crossword problem - defined by a grid and a list
//! of words - into a boolean satisfiability problem, hands the clauses to a
//! SAT solver and decodes the solver's models back into filled grids.
//!
//! The encoding, the decoding and the clause bookkeeping are verified; the SAT
//! engines themselves are reached through a small trusted surface.

// API
pub mod crossword;

// SPI
pub mod solver;

// Backends
pub mod solver_cadical;
pub mod solver_logicng;
pub mod solver_splr;

// Implementation
pub mod alphabet;
pub mod constraints;
pub mod grid;
pub mod pos;
pub mod semantics;
pub mod slot;
pub mod text;
pub mod variables;
