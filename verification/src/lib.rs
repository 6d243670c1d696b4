//! A small to-do list: tasks, folders that group tasks, and the rules by
//! which command-line arguments pick tasks and folders out of a task file.
pub mod args;
pub mod commands;
pub mod listing;
pub mod refs;
pub mod removal;
pub mod dir;
pub mod argid;
pub mod task;
pub mod taskfile;
pub mod text;
