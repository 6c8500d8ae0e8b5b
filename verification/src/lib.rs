//! Checks the dependency versions that a package manifest declares against the
//! newest versions a registry reports, plans upgrades, and rewrites the manifest
//! text in place without touching anything but the version literals.

pub mod check;
pub mod error;
pub mod manifest;
pub mod number;
pub mod pattern;
pub mod planner;
pub mod registry;
pub mod rewrite;
pub mod semantic;
pub mod source;
pub mod text;
pub mod version;
pub mod writer;
