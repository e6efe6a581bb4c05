//! Editor-tooling backend for GDScript: a store of open files whose text
//! and syntax trees are edited in lock-step, a scope-tree builder that
//! attaches ordered, position-sensitive declarations to lexical scopes,
//! and a type-inference engine that resolves expression types against a
//! builtin class catalog, with inheritance-chain and global-scope
//! fallback. Every public operation carries a contract that pins its
//! result; the only trusted code is the thin boundary around the parser
//! and the text rope.

pub mod filedb;
pub mod inlay_hints;
pub mod strings;
pub mod symbol_table;
pub mod tree;
pub mod typedb;
pub mod utils;
