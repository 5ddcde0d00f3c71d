//! A typed node graph for C++ introspection dumps and its reduction to a
//! resolved declaration tree.
//!
//! The node table of a dump is a flat list of declarations that name one
//! another by identifier. This crate ingests the table from the raw form of
//! a dump, indexes it, and lowers the records and functions in it to a tree
//! in which every reference has been followed. What cannot be resolved is
//! left out of the tree and reported.
//!
//! - [`raw`], [`text`], [`ingest`], [`document`]: from elements with
//!   attributes as text to the typed node table of [`schema`].
//! - [`graph`]: the identifier index.
//! - [`reach`]: selection of declarations from root namespaces.
//! - [`lower`], [`decl`], [`bases`], [`members`], [`record`]: lowering of
//!   types, declarations and records to the tree of [`ast`].
//! - [`transform`], [`pipeline`]: the run over a node table, and over a raw
//!   document, with the diagnostics of [`diag`].
//! - [`closure`], [`shadow`], [`cycles`]: what holds of every tree.

pub mod ast;
pub mod bases;
pub mod closure;
pub mod cycles;
pub mod decl;
pub mod diag;
pub mod document;
pub mod graph;
pub mod ingest;
pub mod lower;
pub mod members;
pub mod model;
pub mod pipeline;
pub mod raw;
pub mod reach;
pub mod record;
pub mod schema;
pub mod shadow;
pub mod text;
pub mod transform;
