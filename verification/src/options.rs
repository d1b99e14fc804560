//! The configuration surface: general switches, where the project
//! lives, and what the graph pipeline includes.

use vstd::prelude::*;

verus! {

/// Switches that apply to every command.
#[derive(Clone, Debug, PartialEq, Eq)]
pub struct GeneralOptions {
    pub verbose: bool,
}

/// Where the program unit under analysis lives.
#[derive(Clone, Debug, PartialEq, Eq)]
pub struct ProjectOptions {
    pub manifest_dir: String,
}

/// What the builder includes and where the shrinker focuses.
#[derive(Clone, Debug, PartialEq, Eq)]
pub struct GraphOptions {
    /// The qualified path to focus on, as segments; the root unit's own
    /// name when absent.
    pub focus_on: Option<Vec<String>>,
    /// How many hops of the graph to keep around the focus node;
    /// unbounded when absent.
    pub max_depth: Option<usize>,
    pub with_types: bool,
    pub with_tests: bool,
    pub with_orphans: bool,
}

} // verus!
