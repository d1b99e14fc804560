//! A one-call runner: build the module graph of a unit and print it as
//! a tree from its root, with no focus, no depth bound, and no type or
//! use relations.

use vstd::prelude::*;

use crate::builder::{build_spec, lemma_builder_invariants, Builder};
use crate::error::Error;
use crate::facts::UnitFacts;
use crate::tree::subtree_lines;

verus! {

/// Runs the module-tree pipeline with fixed options.
#[derive(Default)]
pub struct Runner;

impl Runner {
    /// The switches the runner builds with: the module hierarchy
    /// alone, test modules included.
    pub open spec fn spec_options() -> crate::builder::Options {
        crate::builder::Options {
            focus_on: None,
            max_depth: None,
            with_types: false,
            with_tests: true,
            with_orphans: false,
            with_uses: false,
            with_externs: false,
        }
    }

    /// Build the unit's module graph and print it from the root.
    pub fn run(&mut self, facts: &UnitFacts) -> (r: Result<Vec<String>, Error>)
        ensures
            match r {
                Ok(lines) => facts.root_ok() && lines.deep_view() == subtree_lines(
                    build_spec(*facts, Self::spec_options()),
                    0,
                    Seq::<char>::empty(),
                    Seq::<char>::empty(),
                ),
                Err(e) => !facts.root_ok() && e == Error::RootUnresolved(facts.name),
            },
    {
        let opts = crate::builder::Options {
            focus_on: None,
            max_depth: None,
            with_types: false,
            with_tests: true,
            with_orphans: false,
            with_uses: false,
            with_externs: false,
        };
        proof {
            assert(opts == Self::spec_options());
        }
        let builder = Builder::new(opts);
        let graph = match builder.build(facts) {
            Ok(g) => g,
            Err(e) => {
                return Err(e);
            },
        };
        proof {
            assert(graph.nodes.len() == graph@.nodes.len());
            lemma_builder_invariants(*facts, opts);
        }
        // The builder puts the unit's root module first.
        Ok(crate::tree::print(&graph, 0))
    }
}

} // verus!
