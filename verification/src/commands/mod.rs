//! The operations behind the command-line subcommands.
pub mod add;
pub mod list;
pub mod reveal_cmd;
pub mod run;
