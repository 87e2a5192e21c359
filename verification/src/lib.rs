//! Finds the `target` directories of Cargo projects below a root directory and
//! keeps the list of them, with a cursor, in step with their deletion.
//!
//! The library holds the decisions; reading directories, moving paths to the
//! trash and drawing the list are left to the caller.
//!
//! - `filter` classifies directory entries, `path` joins paths and `text`
//!   compares strings.
//! - `tree` says what a scan of a directory tree finds. `scan` holds the
//!   scanner, which is fed one directory listing at a time. `walk` shows that
//!   the scanner, fed the listings of a tree, finds what a scan of the tree
//!   finds, and runs it on a tree in memory, which `node` holds. `tree_laws`
//!   and `match_laws` state what holds of every scan.
//! - `state` holds the list and its cursor, `input` the keys and their
//!   commands, `interact` what an event does to the list, `session` how a run
//!   starts and ends, and `layout` how the screen is shared out.

pub mod filter;
pub mod input;
pub mod interact;
pub mod layout;
pub mod match_laws;
pub mod node;
pub mod path;
pub mod scan;
pub mod session;
pub mod state;
pub mod text;
pub mod tree;
pub mod tree_laws;
pub mod walk;
