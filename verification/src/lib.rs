//! Core engine of a mod manager: a registry snapshot of available mods, an
//! on-disk cache of downloaded mod versions, per-mod user options, transitive
//! dependency resolution, and synchronisation of cached payloads into the
//! game's install directories.
//!
//! All decisions and state transformations are verified; the surrounding
//! binary performs the actual network and filesystem work and mirrors it in
//! the models defined here.

pub mod commands;
pub mod config;
pub mod errors;
pub mod fs_model;
pub mod mod_cache;
pub mod options;
pub mod paths;
pub mod registry;
pub mod resolver;
pub mod sync;
pub mod text;
