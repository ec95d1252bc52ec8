//! A verification harness for deterministic, perfect-information, turn-based
//! board games.
//!
//! The heart of the crate is the [`board::Board`] contract: the interface a
//! concrete game must provide so that generic algorithms (searchers, bots,
//! game-tree enumerators) can drive it.  Around the contract stand checkers
//! that cross-validate a concrete implementation at run time: move-list
//! consistency, terminal-state behaviour, statistical uniformity of random
//! move drawing, the symmetry-group laws, and perft node counting against
//! reference tables.  One concrete game, nine-board tic-tac-toe, is included
//! so the harness can be exercised end to end.

pub mod board;
pub mod checks;
pub mod kernels;
pub mod nine;
pub mod perft;
pub mod rng;
