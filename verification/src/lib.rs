pub mod allocate;
pub mod commands;
pub mod daemon;
pub mod format;
pub mod maintain;
pub mod mirror;
pub mod paths;
pub mod platform;
pub mod remotes;
pub mod sync;
pub mod text;
pub mod time;
pub mod types;
