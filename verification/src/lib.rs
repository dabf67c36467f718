//! Cronch core: schedules, rules, the scheduling engine's decisions, what a
//! run executes, the store's rule codec, the editor's logic, and the text
//! handling around them.

pub mod text;
pub mod model;
pub mod scheduler;
pub mod shell;
pub mod executor;
pub mod envres;
pub mod controller;
pub mod storage;
