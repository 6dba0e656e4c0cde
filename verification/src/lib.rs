//! Structural code search for PHP sources.
//!
//! The library locates matches of a query inside a directory of PHP files,
//! not merely by raw line content but by their relation to the enclosing
//! function and method declarations.  Three mutually exclusive retrieval
//! modes are offered: a scoped line search over declaration bodies, a flat
//! grep-style line search, and a declaration-name search that returns whole
//! bodies.
//!
//! Concrete syntax trees are produced by an external parser and modelled
//! here as plain recursive values; regular-expression matching is delegated
//! to an external matcher used as a boolean line predicate.  Directory
//! walking, command-line handling and terminal colouring live outside the
//! library, which works on plain values throughout.
//!
//! Two deliberate behaviours are kept and pinned by the contracts rather
//! than smoothed over: a function definition nested inside a class member
//! is reported both as part of the member's body and on its own, and the
//! whole-body modifier of the scoped mode emits the body once per matching
//! line.  Both are documented where they arise, in [`decl`] and
//! [`engine`].

pub mod decl;
pub mod engine;
pub mod query;
pub mod render;
pub mod select;
pub mod text;
pub mod tree;
