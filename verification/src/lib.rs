//! A hierarchical project-workflow orchestrator library.
//!
//! Projects are registered as nodes of a persistent graph and addressed by
//! path-like context strings. The library owns the graph store, the context
//! resolver and the configuration-resolution engine; all file handling and
//! terminal interaction stay with the surrounding application.

pub mod cli;
pub mod config_resolver;
pub mod context_resolver;
pub mod executor;
pub mod graph;
pub mod index_manager;
pub mod interpolator;
pub mod models;
pub mod paths;
pub mod registry;
pub mod shell;
pub mod smap;
pub mod strutil;
pub mod templates;
