//! A namespace tree with per-symbol visibility and re-exports.
//!
//! Namespaces form a tree rooted at namespace `0`. Each namespace binds
//! names to symbols, either by defining a symbol there or by re-exporting
//! a symbol that is reachable from it. Resolution walks a path of namespace
//! names and applies the visibility rule at the symbol's defining namespace.

pub mod laws;
pub mod model;
pub mod resolver;

pub use model::{BindingKind, ResolveError, Visibility};
pub use resolver::{Path, Resolver};
