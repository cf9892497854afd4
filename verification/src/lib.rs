//! Compiles partial updates of one record into placeholder-based update
//! statements, and decides what an update request owes its caller.

pub mod compiler;
pub mod decimal;
pub mod failure;
pub mod field_map;
pub mod handler;
pub mod laws;
pub mod placeholder;
pub mod statement;
pub mod store;
