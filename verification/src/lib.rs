//! Core of a microblog "status" service: short text posts are created,
//! read, updated, soft-deleted and listed. The store keeps every record
//! ever created (deletion only tombstones), arbitrates concurrent updates
//! with an optimistic guard on the modification stamp, and lists live
//! records in a stable total order with resumable cursors.

pub mod clock;
pub mod idgen;
pub mod laws;
pub mod order;
pub mod service;
pub mod status;
pub mod store;
