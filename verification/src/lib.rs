//! Reconciliation of a freshly introspected relational-database schema with a
//! previously authored, human-edited schema description.
//!
//! The engine pairs catalog objects (tables, columns, enum types, enum
//! members) with previously declared entities (models, fields, enums,
//! values), merges attributes under a strict source-of-truth policy
//! (structure from the catalog, virtual annotations from the previous
//! description), resolves relation names from foreign-key column sets,
//! orders the output, and records every enrichment it performed as a coded
//! warning.  Everything is a pure function over already-loaded inputs: no
//! I/O happens here.

pub mod ast;
pub mod catalog;
pub mod ident;
pub mod laws;
pub mod matching;
pub mod merge;
pub mod order;
pub mod query_args;
pub mod reconcile;
pub mod relations;
pub mod warnings;
