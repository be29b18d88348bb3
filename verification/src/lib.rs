//! Mining of fine-grained co-change information from a version-control
//! history: for every selected commit, which semantic entities (files,
//! classes, methods, ...) were added, modified or deleted, and by how many
//! lines; and for every selected reference tip, which entities are present.
//!
//! This crate holds the verified core of the pipeline: the interval algebra,
//! the entity model, the commit-walk filter, the hunk-to-entity change
//! attribution, the presence sweep, the blob-parse cache and the virtual
//! tables that assign dense row identifiers. Repository access, parsing of
//! source blobs and the relational store live outside and hand plain values
//! in and out.

pub mod attrib;
pub mod cache;
pub mod db;
pub mod deps;
pub mod diff;
pub mod entity;
pub mod vtable;
pub mod walk;
pub mod interval;
pub mod ir;
pub mod keys;
pub mod parser;
pub mod presence;
pub mod time_adapter;
pub mod timeparse;
