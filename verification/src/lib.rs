//! Static analysis of a JavaScript/TypeScript source tree: the import graph of
//! its files, the files nothing refers to, the imports that resolve to
//! nothing, and how often each declared package is used.

pub mod dead_files;
pub mod exports;
pub mod extract;
pub mod graph_build;
pub mod graph_laws;
pub mod languages;
pub mod package_json;
pub mod path_laws;
pub mod path_utils;
pub mod patterns;
pub mod resolve;
pub mod scan;
pub mod text;
pub mod ts_config;
