//! An interactive key/value shell: a small store of identifier keys and values,
//! a fixed table of commands, and a dispatcher that runs one input line against
//! them and returns the lines to print.

pub mod commands;
pub mod laws;
pub mod repl;
pub mod store;
pub mod text;

pub use commands::{init_commands, init_repl, ArgPattern, Command, CommandName, ReplCommands};
pub use repl::{cmd_del, cmd_get, cmd_set, cmd_vars, process_command};
pub use store::State;
