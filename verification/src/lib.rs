//! Verified core of the fence checker and import resolver: package-name
//! parsing, fence evaluation, package.json export rewriting, segment-graph
//! tag propagation and the supporting error and symbol types.
pub mod text;
pub mod pkgname;
pub mod js_err;
pub mod multi_err;
pub mod segment_graph;
pub mod paths;
pub mod abspath;
pub mod glob_match;
pub mod fences;
pub mod manual_resolver;
pub mod evaluate_fences;
pub mod tsconfig;
pub mod exported_path;
pub mod pkgjson_exports;
pub mod package;
pub mod resolve;
pub mod node_resolution;
pub mod filename_resolution;
pub mod probe_walk;
pub mod node_modules_search;
pub mod tsconfig_resolution;
pub mod walk_dirs;
pub mod good_fences_runner;
pub mod comments;
pub mod symbols;
pub mod repo_root;
pub mod logger;
pub mod source_logger;
pub mod segmenter;
pub mod import_calls;
pub mod patch_format;
pub mod patch_laws;
