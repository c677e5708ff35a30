//! A knowledge-based agent for a hazard-grid treasure hunt.
//!
//! The crate is built around a small propositional inference engine: a
//! [`logic::Statement`] formula tree, a [`kb::KnowledgeBase`] that stores
//! normalized facts and answers queries by memoized, cycle-safe backward
//! chaining, and an explorer agent that synthesizes the domain axioms for a
//! grid and only ever moves onto cells the knowledge base proves safe.

pub mod agent;
pub mod agents;
pub mod env;
pub mod grid;
pub mod kb;
pub mod logic;
pub mod room;
pub mod tui;
