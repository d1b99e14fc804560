//! Resolved semantic facts about a program unit, as plain values: the
//! input of the graph builder.  A semantic-fact provider (an analysis
//! engine, or a hand-built table in tests) enumerates the module
//! hierarchy, the declared type items and the use targets; the builder
//! consumes nothing but this table.

use vstd::prelude::*;

use crate::graph::{TypeKind, Visibility};

verus! {

/// A type item declared inside a module.
#[derive(Clone, Debug, PartialEq, Eq)]
pub struct ItemFact {
    pub name: String,
    pub kind: TypeKind,
    pub visibility: Visibility,
    pub is_test: bool,
}

/// A use/import target of a module: either a qualified path inside the
/// program unit, or a reference crossing the unit's boundary.
#[derive(Clone, Debug, PartialEq, Eq)]
pub struct UseFact {
    /// The qualified path of the target, as the provider resolved it.
    pub target: Vec<String>,
    /// True when the target lies outside the program unit.
    pub is_external: bool,
    /// A display label for the target, used when it resolves to no node.
    pub label: String,
}

/// One module of the semantic hierarchy.
///
/// Facts are listed in pre-order: a module's parent stands earlier in the
/// list than the module itself.  A fact whose `parent` breaks that order
/// is malformed and is skipped by the builder.
#[derive(Clone, Debug, PartialEq, Eq)]
pub struct ModuleFact {
    /// Index of the owning module, `None` only for the root fact.
    pub parent: Option<usize>,
    pub name: String,
    pub visibility: Visibility,
    /// True when the module originates from test-only code.
    pub is_test: bool,
    pub items: Vec<ItemFact>,
    pub uses: Vec<UseFact>,
}

/// Everything the builder reads about one program unit.
#[derive(Clone, Debug, PartialEq, Eq)]
pub struct UnitFacts {
    /// The program unit's own name; the root module's path is the
    /// single-segment sequence holding exactly this name.
    pub name: String,
    pub modules: Vec<ModuleFact>,
}

impl UnitFacts {
    /// The root module resolves: there is a first fact, it has no parent,
    /// and it bears the program unit's own name.
    pub open spec fn root_ok(self) -> bool {
        self.modules@.len() > 0 && self.modules@[0].parent is None && self.modules@[0].name@
            == self.name@
    }
}

} // verus!
