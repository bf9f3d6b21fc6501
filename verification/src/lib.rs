//! The core of a semi-automatic OSINT framework: the entity store with its
//! scope rules, the host functions that scripts call, and the module registry.
//!
//! - [`store`] holds the entities: one table of rows for each family, with
//!   insert, upsert, update, delete and the filters that select rows;
//!   [`models`] gives a family a type of its own.
//! - [`runtime`] holds what a module sees of the host: the JSON codec, the
//!   keyring, the database functions with the transaction of a seed, and
//!   the run over the seeds.
//! - [`registry`] holds the authors, modules, releases and sessions of the
//!   registry, and what its endpoints answer; [`metadata`], [`ident`] and
//!   [`version`] read what a module declares of itself.
//!
//! Every function states what it returns and changes over the mathematical
//! value of its arguments, and the `laws` modules state what holds over
//! several calls.

pub mod error;
pub mod find;
pub mod ident;
pub mod metadata;
pub mod models;
pub mod registry;
pub mod runtime;
pub mod store;
pub mod text;
pub mod version;
