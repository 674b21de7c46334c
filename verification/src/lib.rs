//! Pith — the engine of a zero-byte operating system, as a verified library.
pub mod alphabet;
pub mod api;
pub mod auth;
pub mod boot;
pub mod clock;
pub mod config;
pub mod dispatcher;
pub mod effector;
pub mod error;
pub mod identity;
pub mod normalize;
pub mod parser;
pub mod permissions;
pub mod session;
pub mod strings;
pub mod subsystems;
pub mod sync;
pub mod trie;
pub mod watcher;
