//! Everything behind a terminal tool that pushes files to SSH hosts.
pub mod app;
pub mod clipboard;
pub mod config;
pub mod environment;
pub mod glob;
pub mod history;
pub mod lock;
pub mod outside;
pub mod path_input;
pub mod paths;
pub mod remote;
pub mod ssh_config;
pub mod target;
pub mod text;
pub mod transfer;
pub mod tunnel;
pub mod ui;
pub mod update;
pub mod watch;
