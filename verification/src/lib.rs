//! Semantic highlighting of a syntax tree as a sorted sequence of disjoint
//! highlighted ranges, and the description of a project workspace.
//!
//! The highlighter is fed the walk of a tree: one event for entering and one
//! for leaving each token and node, with what the semantic model knows of the
//! element ([`walk`], [`element`]). The classifier gives each element its
//! highlight ([`classify`], [`tags`]); the highlighters for format strings
//! and macro definitions add to it or take from it ([`format`],
//! [`macro_rules`]); and the stack of frames makes the ranges of nested
//! elements disjoint ([`range_stack`]). The driver puts these together
//! ([`highlight`]), and [`tree_walk`] shows that the walk of a tree whose
//! ranges are nested can always be highlighted. What is true of each range
//! that is added stays true of each range of the result ([`provenance`]):
//! the parts of string literals lie in string literals, and no range is
//! cut but where another one starts or ends.
//!
//! The workspace of a project is described in [`workspace`], the flags of a
//! target in [`rustc_cfg`], and the crates of a workspace with their
//! dependencies are laid out in [`crate_graph`].

pub mod bindings;
pub mod classify;
pub mod crate_graph;
pub mod element;
pub mod format;
pub mod highlight;
pub mod macro_rules;
pub mod provenance;
pub mod range_stack;
pub mod rustc_cfg;
pub mod syntax_kind;
pub mod tags;
pub mod text_range;
pub mod tree_walk;
pub mod walk;
pub mod workspace;
