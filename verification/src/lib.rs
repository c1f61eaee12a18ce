//! Verified analyses behind the Papyrus language server.
use vstd::prelude::*;

pub mod text;
pub mod structure;
pub mod line_index;
pub mod semantic;
pub mod type_system;
pub mod names;
pub mod paths;
pub mod config;
pub mod cache;
pub mod discovery;
pub mod rename_rules;
pub mod inference;
pub mod syntax;
pub mod expression;
pub mod declarations;
pub mod diagnostics;
pub mod workspace;
pub mod compatibility;
pub mod resolution;
pub mod validation;
pub mod navigation;
pub mod issue_sort;
pub mod index_cache;
pub mod session;
pub mod cache_paths;
pub mod type_checks;
pub mod occurrences;
pub mod call_sites;
pub mod extraction;
pub mod content_hash;
pub mod documents;
pub mod queries;
pub mod member_accesses;
pub mod completion;
pub mod renamed;
pub mod rename;
pub mod symbols;
pub mod scanning;

verus! {

/// Papyrus language variant selected for a workspace.
#[derive(Clone, Copy, Debug, PartialEq, Eq, Structural)]
pub enum PapyrusDialect {
    Auto,
    Skyrim,
    Fallout4,
    Starfield,
}

} // verus!

