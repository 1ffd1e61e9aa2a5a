//! Verified core of a tool that runs PostgreSQL instances in containers:
//! WAL segment arithmetic, archive clean-up rules, base backup retention,
//! instance bookkeeping and the text the commands print.

pub mod text;
pub mod paths;
pub mod wal;
pub mod segments;
pub mod time;
pub mod backups;
pub mod config;
pub mod sorting;
pub mod commands;
pub mod docker;
pub mod archive;
pub mod manifest;
