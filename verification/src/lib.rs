//! Tools for reconciling and migrating rows between two independent
//! Mixxx-style SQLite music libraries: merging directory, location and
//! track rows across the identity-space discontinuity, and rebuilding
//! crate memberships from playlist files and directory listings.
//!
//! Row identities are locally assigned integers that mean nothing in
//! another database, so every operation here works over explicit remap
//! tables and operation-scoped id maps. The database is modelled as a
//! plain in-memory value; the binary drives a real SQLite connection
//! through the same decision functions.

pub mod cli;
pub mod crates;
pub mod cuepoint;
pub mod database;
pub mod directories;
pub mod error;
pub mod import;
pub mod locations;
pub mod merge;
pub mod paths;
pub mod playlists;
pub mod remap;
pub mod schema;
pub mod text;
pub mod tracks;
pub mod util;
pub mod validators;
