//! Dependency resolution and build-graph generation for Android projects.

pub mod text;
pub mod artifact;
pub mod version;
pub mod xml;
pub mod pom;
pub mod error;
pub mod metadata;
pub mod resolver;
pub mod fetch;
pub mod config;
pub mod fingerprint;
pub mod unpack;
pub mod manifest;
pub mod ninja;
pub mod build_system;
pub mod cache;
