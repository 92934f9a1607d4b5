//! Bundling of a macOS executable or dynamic library with the dynamic
//! libraries it depends on: discovery of the dependency tree, resolution of
//! run-path references, layout of the bundle and the list of operations that
//! relocate and sign it.
//!
//! The library never touches the machine. What is known of the file system and
//! of the inspection tools is handed to it as a [`snapshot::Snapshot`]; what has
//! to be done to the bundle comes back as a list of [`action::Action`]s.

pub mod action;
pub mod bundle;
pub mod error;
pub mod graph;
pub mod helpers;
pub mod laws;
pub mod model;
pub mod paths;
pub mod plan;
pub mod progress;
pub mod scenario;
pub mod snapshot;
pub mod text;
