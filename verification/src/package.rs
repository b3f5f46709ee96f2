//! The subset of a package.json that file resolution reads.
use vstd::prelude::*;
use crate::pkgjson_exports::PackageJsonExports;

verus! {

/// A JSON value that is either a string or a boolean.
#[derive(Debug, Clone, PartialEq, Eq)]
pub enum StringOrBool {
    Str(String),
    Bool(bool),
}

/// The `browser` field: a replacement entry point, or a map of
/// replacements (key to target path, or `false` to ignore the key), in file
/// order.
#[derive(Debug)]
pub enum Browser {
    Str(String),
    Obj(Vec<(String, StringOrBool)>),
}

/// The fields of a package.json that file resolution reads.
#[derive(Debug)]
pub struct PackageJson {
    pub main: Option<String>,
    pub module: Option<String>,
    pub browser: Option<Browser>,
    pub exports: Option<PackageJsonExports>,
}

/// A target of an `exports` map as read by the untagged reader: a path,
/// a path that is not exported, or a value of an unsupported form.
#[derive(Debug, Clone, PartialEq, Eq)]
pub enum ExportedPath {
    Exported(String),
    NotExported,
    Unrecognized,
}

} // verus!
