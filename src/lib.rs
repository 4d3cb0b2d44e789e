//! Resolves nanoservice dependencies that live inside container images: finds the
//! manifests of a workspace, decides which images to fetch and where to unpack them,
//! and rewrites each manifest so that its nanoservices become local path dependencies.
pub mod text;
pub mod error;
pub mod paths;
pub mod cache;
pub mod manifest;
pub mod wipe;
pub mod configure;
pub mod scan;
pub mod collect;
pub mod processes;
pub mod layers;
pub mod graph;
