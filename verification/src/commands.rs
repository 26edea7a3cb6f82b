//! What each command does, step by step.
pub mod accept;
pub mod reject;
pub mod list;
pub mod shell;
pub mod start;
