//! A knowledge base of content files kept as a graph of nodes joined by links,
//! with the resolution of logical paths and link targets, and the incremental
//! build steps that keep the graph consistent.

pub mod path_parts;
pub mod config;
pub mod omni_path;
pub mod node;
pub mod link;
pub mod shallow;
pub mod partial;
pub mod links;
pub mod track;
pub mod document;
