//! Resolution of a project's package tree: the dependency graph, the source
//! folders that each package declares, the namespace and module names of its
//! files, and the build directories that mirror its layout.

pub mod assets;
pub mod config;
pub mod lexical;
pub mod namespace;
pub mod paths;
pub mod scan;
pub mod tree;
