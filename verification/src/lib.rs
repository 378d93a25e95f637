//! Core of `syncz`: rsync over ssh with smart pathing.

pub mod args;
pub mod args_laws;
pub mod command;
pub mod command_laws;
pub mod duration;
pub mod error;
pub mod home_laws;
pub mod hosts;
pub mod hosts_laws;
pub mod lossy;
pub mod number;
pub mod number_laws;
pub mod order;
pub mod path;
pub mod path_laws;
pub mod progress;
pub mod progress_laws;
pub mod session;
pub mod session_laws;
pub mod shell;
pub mod text;
pub mod text_laws;
pub mod tree;
pub mod tree_laws;
pub mod watch;
