//! Creates one or many directories, with optional recursive creation of
//! missing ancestors and an optional one-worker-per-directory concurrent
//! schedule.
//!
//! The crate is organised around an explicit model of the filesystem
//! namespace: a path is a sequence of byte-string components
//! ([`dir_path::DirPath`]), and the visible part of the filesystem is a
//! collection of such paths ([`model::FsModel`]). Validation and the
//! creation pipeline are verified against this model; an embedding program
//! performs the real system calls and mirrors their outcomes.

pub mod dir_path;
pub mod model;
pub mod validate;
pub mod runner;
pub mod laws;

pub use runner::{run, sync_create};
