//! Launches commands inside a dedicated tmux session without disturbing clients.


pub mod text;
pub mod error;
pub mod model;
pub mod quote;
pub mod target;
pub mod process;
pub mod reuse;
pub mod sticky;
pub mod launch;
pub mod protocol;
