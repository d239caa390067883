//! The decisions of a desk server: accounts, sandboxes, grants, desk files and
//! terminals. Everything here works on plain values; sockets, the disk, the
//! database file and pseudo terminals belong to the program around it.

pub mod accounts;
pub mod api;
pub mod config;
pub mod db;
pub mod files;
pub mod fsops;
pub mod laws;
pub mod order;
pub mod paths;
pub mod pty;
pub mod reply;
pub mod requests;
pub mod sandboxes;
pub mod secrets;
pub mod tables;
pub mod term;
pub mod text;
pub mod ui;
