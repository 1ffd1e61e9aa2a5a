//! The commands: what each prints, and the decisions each takes between the
//! container and file operations that the application performs.

pub mod compact;
pub mod create;
pub mod delete;
pub mod fork;
pub mod list;
pub mod psql;
pub mod schedule;
pub mod show;
pub mod start;
pub mod stop;
pub mod outputs;
