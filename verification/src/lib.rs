//! Shadow sandboxes: the rules by which a working directory is copied, tracked, merged back or
//! thrown away, with the reading and writing left to the caller.
pub mod sequences;
pub mod text;
pub mod path;
pub mod moment;
pub mod tool;
pub mod config;
pub mod store;
pub mod fs_lookup;
pub mod devcontainer;
pub mod shadow;
pub mod step;
pub mod create;
pub mod walk;
pub mod root_search;
pub mod name;
pub mod removal;
pub mod commands;
pub mod cli;
