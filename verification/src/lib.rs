//! A structural graph engine for visualizing the module hierarchy of a
//! program unit: a builder that turns semantic facts into a directed graph
//! of modules, types and orphans, a path resolver, a depth-bounding
//! shrinker, and tree/graph renderers.

pub mod builder;
pub mod diagram;
pub mod error;
pub mod generate;
pub mod facts;
pub mod graph;
pub mod options;
pub mod runner;
pub mod tree;
pub mod util;
