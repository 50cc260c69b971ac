//! Periodic replication of directories, grouped by copy interval.
//!
//! The library decides: how profiles are grouped by interval, which profile a
//! group's worker copies next and when it sleeps, whether a copy may start, and
//! where the data files live. Reading the disk, copying and sleeping are left
//! to the caller.

pub mod error;
pub mod models;
pub mod schedule;
pub mod utils;
