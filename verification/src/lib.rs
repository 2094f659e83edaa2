//! A hierarchical log-routing library.
//!
//! Loggers are registered under `::`-separated module paths in a trie.
//! Resolving a path walks the trie from the root towards the most specific
//! matching node and returns, in order: the root loggers, the loggers of the
//! deepest node reached, and the always-execute loggers of the nodes passed
//! on the way down.

pub mod config;
pub mod file;
pub mod logger;
pub mod strutil;
pub mod tree;

pub use logger::Logger;
pub use logger::Target;
pub use strutil::eq_ignore_case;
pub use strutil::split_delim;
pub use tree::LoggerTree;
pub use tree::TreeNode;

use vstd::prelude::*;

verus! {

/// A severity accepted by a logger.
#[derive(Clone, Copy, PartialEq, Eq, Structural, Debug)]
pub enum Level {
    Trace,
    Debug,
    Info,
    Warn,
    Error,
}

/// What can go wrong while assembling loggers from configuration.
#[derive(Debug)]
pub enum Error {
    /// A configured target type no builder in the registry serves; the
    /// whole configuration load fails on it.
    UnknownTargetType(String),
    /// A builder failed to construct its target; the builder's message is
    /// carried.
    TargetBuild(String),
}

impl Error {
    /// A short description of the error.
    pub fn message(&self) -> (r: String)
        ensures
            self matches Error::UnknownTargetType(n) ==> r@ == n@,
            self matches Error::TargetBuild(m) ==> r@ == m@,
    {
        match self {
            Error::UnknownTargetType(n) => n.clone(),
            Error::TargetBuild(m) => m.clone(),
        }
    }
}

} // verus!
