//! Joining a path onto an absolute base path.
use vstd::prelude::*;
use crate::js_err::AnyError;
use crate::paths::{absolute_join, spec_absolute_join, spec_is_absolute};
use crate::text::str_chars;

verus! {

/// Errors of `join_abspath`.
#[derive(Debug, PartialEq, Eq, Structural)]
pub enum AbsPathError {
    BasePathNotAbsolute,
}

impl AbsPathError {
    /// The display text of the error.
    pub fn message(&self) -> (r: &'static str)
        ensures
            r@ == "Base path is not absolute"@,
    {
        "Base path is not absolute"
    }
}

/// `path` resolved against the absolute `base` and lexically cleaned; an
/// error when `base` is not absolute.
pub fn join_abspath(base: &str, path: &str) -> (r: Result<String, AbsPathError>)
    ensures
        spec_is_absolute(base@) <==> r is Ok,
        r matches Ok(p) ==> p@ == spec_absolute_join(base@, path@) && spec_is_absolute(p@),
        r matches Err(e) ==> e == AbsPathError::BasePathNotAbsolute,
{
    let b = str_chars(base);
    if !(b.len() > 0 && b[0] == '/') {
        return Err(AbsPathError::BasePathNotAbsolute);
    }
    Ok(absolute_join(base, path))
}

/// `path` resolved against the absolute `base` and lexically cleaned; the
/// error "Base path must be absolute" when `base` is not absolute.
pub fn to_absolute_path(base: &str, path: &str) -> (r: Result<String, AnyError>)
    ensures
        spec_is_absolute(base@) <==> r is Ok,
        r matches Ok(p) ==> p@ == spec_absolute_join(base@, path@) && spec_is_absolute(p@),
        r matches Err(e) ==> e matches AnyError::Message(m) && m@ == "Base path must be absolute"@,
{
    let b = str_chars(base);
    if !(b.len() > 0 && b[0] == '/') {
        return Err(AnyError::msg(String::from_str("Base path must be absolute")));
    }
    Ok(absolute_join(base, path))
}

} // verus!
