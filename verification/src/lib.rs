//! Keeps local directory trees mirrored onto a remote store of folders and
//! files, leaving out what exclusion rules found on the way name.
//!
//! What was found on disk is turned into a tree of nodes with the rules
//! applied ([`tree`], [`exclusion`], [`path`]). The reconciler walks that
//! tree against the records of the previous run ([`store`]) and says, one
//! step at a time, what has to be read, sent to the remote store or written
//! down ([`reconcile`], [`sync`]); when the tree is done with, it has the
//! remote entities of vanished paths deleted. Reading the disk, talking to
//! the remote store and keeping the records durable is left to whoever
//! drives the run.

pub mod api;
pub mod codec;
pub mod config;
pub mod env;
pub mod error;
pub mod exclusion;
pub mod login;
pub mod path;
pub mod reconcile;
pub mod store;
pub mod sync;
pub mod text;
pub mod tree;
