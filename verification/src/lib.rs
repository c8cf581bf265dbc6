//! Plans Bazel builds of Cargo workspaces.

pub mod context;
pub mod error;
pub mod manifest;
pub mod metadata;
pub mod paths;
pub mod planning;
pub mod platform;
pub mod printing;
pub mod settings;
pub mod sorting;
pub mod source;
pub mod table;
pub mod text;
pub mod universe;
pub mod version;
