//! Devlog is a library for tracking day-to-day software development work.
//!
//! Devlog entries are stored as numbered files in a directory called a
//! repository.  Each entry may contain tasks, which each are assigned a
//! status.  This library provides the naming, ordering, discovery, and
//! rollover rules for those entries; reading and writing the files
//! themselves is left to the caller.

pub mod args;
pub mod config;
pub mod error;
pub mod file;
pub mod header;
pub mod hook;
pub mod path;
pub mod repository;
pub mod rollover;
pub mod status;
pub mod task;

pub use config::Config;
pub use error::Error;
pub use file::LogFile;
pub use path::LogPath;
pub use repository::LogRepository;
pub use task::Task;
pub use task::TaskStatus;
