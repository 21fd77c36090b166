//! AetherLink: architectural guardrails for a code base.
//!
//! A project writes its rules down in `AetherLink.toml`: how long a file may
//! be, which folders must not import which others, and that imports form no
//! circle. This library decides whether a project obeys its rules and whether a
//! proposed edit may be written. [`scanner`] and [`graph`] find out what depends
//! on what, [`rules`] holds the rules, their editing and their enforcement,
//! [`change`] judges an edit, [`security`] keeps edits inside the project root,
//! and [`mcp`] and [`hook`] are the two ways in which an agent meets all that.
//!
//! The library does no input or output. Where a decision depends on the file
//! system, a function lists the paths that matter, and the decision takes what
//! is known of them, a [`disk::DiskSnapshot`]. Paths are texts with `/` between
//! the components.
//!
//! The modules whose names end in `_laws` say what holds of all this for every
//! input: what a result must satisfy, and how the results of two calls relate.
#![allow(unused_imports)]

pub mod change;
pub mod change_laws;
pub mod cli_add;
pub mod client;
pub mod disk;
pub mod graph;
pub mod hook;
pub mod hook_laws;
pub mod install_hook;
pub mod json;
pub mod mcp;
pub mod notify;
pub mod path_laws;
pub mod paths;
pub mod register;
pub mod report;
pub mod rules;
pub mod scanner;
pub mod security;
pub mod security_laws;
pub mod status;
pub mod text;
pub mod text_laws;
pub mod tray;
pub mod view_laws;
