//! Verified core of the Mononoke blob importer, the Git protocol request
//! types and the Git-backed tree store checks.

pub mod ids;
pub mod text;
pub mod protocol;
pub mod generation;
pub mod manifold;
pub mod import_options;
pub mod gitstore;
pub mod parent_order;
