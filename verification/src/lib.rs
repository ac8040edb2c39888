//! A small hierarchical configuration store.
//!
//! Settings are typed values addressed by dotted paths such as `"a.b.c"`.
//! They live in a tree-shaped document that is kept as JSON text.
//!
//! - [`value`]: the values that callers read and write.
//! - [`document`]: the document tree, and reading, writing and erasing at a
//!   path in it.
//! - [`path`]: dotted paths.
//! - [`binary`]: how bytes are kept in a document that has no leaf for them.
//! - [`text`]: documents as JSON text.
//! - [`config`]: the store.
//! - [`laws`]: what holds of reading, writing and erasing in any document.
//! - [`objectstore`], [`onedrive`]: stores of named objects, and what a
//!   client for one of them decides and computes.
//!
//! The library does no input or output. The store is not synchronized: who
//! shares one between threads holds a lock around it for the whole of each
//! call.

pub mod binary;
pub mod config;
pub mod document;
pub mod laws;
pub mod objectstore;
pub mod onedrive;
pub mod path;
pub mod text;
pub mod value;
