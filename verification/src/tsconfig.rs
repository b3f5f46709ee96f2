//! The `compilerOptions` of a `tsconfig.json` that import resolution uses.
use vstd::prelude::*;

verus! {

/// `compilerOptions.baseUrl` and `compilerOptions.paths` (path pattern to
/// replacement list, in file order).
#[derive(Debug, PartialEq, Eq)]
pub struct TsconfigPathsCompilerOptions {
    pub base_url: Option<String>,
    pub paths: Option<Vec<(String, Vec<String>)>>,
}

/// The parts of a `tsconfig.json` that import resolution uses.
#[derive(Debug, PartialEq, Eq)]
pub struct TsconfigPathsJson {
    pub compiler_options: TsconfigPathsCompilerOptions,
}

/// A key of `compilerOptions.paths`.
#[derive(Debug, PartialEq, Eq)]
pub enum TsconfigPattern {
    /// A key with one `*`: the text before it.
    Wildcard { prefix: String },
    /// A key without wildcard.
    Exact(String),
}

/// The `paths` entries, none when the field is absent.
pub open spec fn path_entries(ts: TsconfigPathsJson) -> Seq<(String, Vec<String>)> {
    match ts.compiler_options.paths {
        Some(p) => p@,
        None => Seq::empty(),
    }
}

} // verus!
