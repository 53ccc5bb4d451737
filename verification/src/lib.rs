//! Content-addressed overlay runtime engine.
//!
//! A profile's modifications live in a workspace directory overlaid on a
//! read-only base installation.  Workspace files are normalized into a
//! content-addressed blob store keyed by BLAKE3 digest, a virtual overlay
//! view merges base and workspace, and a runtime planner and builder
//! realize a profile as a directory of hardlinks with an atomic publish.

pub mod builder;
pub mod digest;
pub mod index;
pub mod logs;
pub mod normalizer;
pub mod overlay;
pub mod pathnorm;
pub mod planner;
pub mod profiles;
pub mod settings;
pub mod sizefmt;
pub mod store;
pub mod vfs;
pub mod volume;
