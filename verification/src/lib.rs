//! A parser for the SGF game-record text format: a document holds a
//! collection of game trees, each tree a sequence of nodes with typed,
//! validated properties.

pub mod chars;
pub mod collection;
pub mod errors;
pub mod game_tree;
pub mod grammar;
pub mod node;
pub mod property;
pub mod text;
