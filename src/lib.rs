//! Release tooling for a meta-workspace: a set of independently versioned
//! packages, each with its own manifest and possibly its own repository.

pub mod manifest;
pub mod version;
pub mod editor;
pub mod repo;
pub mod order;
pub mod git;
pub mod workspace;
pub mod config;
