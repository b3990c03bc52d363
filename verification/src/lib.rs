//! A streaming parser for the UDON structured-text format.
//!
//! UDON is a hierarchical, indentation-sensitive markup format: elements
//! with ids, classes and attributes, directives, embedded and freeform
//! blocks, id references and scalar values.  The parser consumes raw bytes
//! pushed in arbitrary chunks (`feed`), turns them into a flat, ordered
//! stream of typed events (`read`), and locates every piece of content by
//! a non-owning slice into an append-only byte arena, so that fully
//! contained tokens are never copied.
//!
//! The semantics module defines, at the specification level, exactly
//! which event sequence any input denotes; the driver is proved to emit
//! exactly that sequence, and the laws, spans and balance modules prove
//! chunking invariance, span monotonicity and bracket well-formedness on
//! top of it.

pub mod arena;
pub mod balance;
pub mod driver;
pub mod event;
pub mod laws;
pub mod parser;
pub mod scan;
pub mod semantics;
pub mod spans;
