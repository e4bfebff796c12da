//! Deterministic inspection of Ignition project exports and gateway backups.
//!
//! The archive is given as bytes. Its entry names are listed in a fixed
//! order (`zipread`), its shape and project roots are detected (`archive`),
//! the `resource.json` manifests under each root are validated into resource
//! records (`json`, `resource`, `discover`), and the records are counted
//! (`analytics`) and written out as text (`report`).
use vstd::prelude::*;

pub mod analytics;
pub mod archive;
pub mod cli;
pub mod discover;
pub mod error;
pub mod json;
pub mod report;
pub mod resource;
pub mod sorted;
pub mod text;
pub mod zipread;

verus! {
}
