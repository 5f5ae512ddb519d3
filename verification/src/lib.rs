//! A cellular-automaton engine.
//!
//! A universe is a grid of cells that a local rule carries from one
//! generation to the next. The modules, leaves first:
//!
//! - [`automaton`]: what a cell type owes the engine;
//! - [`grid`]: the grid, its boundary policy and the reader that a rule
//!   looks through;
//! - [`diff`]: the cells that change between two grids, and how such
//!   diffs are applied and stacked;
//! - [`universe`]: the step from one generation to the next;
//! - [`universe_history`]: the log of all generations, kept as diffs and
//!   periodic checkpoints;
//! - [`history_service`]: the decisions of the service that owns a
//!   history and answers queries about it, message by message;
//! - [`game_of_life`]: Conway's Game of Life, as one cell type;
//! - [`error`]: what can go wrong.
//!
//! Every function is verified against a contract over mathematical
//! values: a grid is a map from positions to cells, a diff a map from
//! positions to transitions, a history the sequence of its generations.

pub mod automaton;
pub mod diff;
pub mod error;
pub mod game_of_life;
pub mod grid;
pub mod history_service;
pub mod universe;
pub mod universe_history;
