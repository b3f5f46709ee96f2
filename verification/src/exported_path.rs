//! The target of an entry of a package.json `exports` field.
use vstd::prelude::*;
use crate::text::str_eq;

verus! {

/// An exported path: a string target, a path marked private (`null` or
/// `false`), or a value of a form that is not supported.
#[derive(Debug, Clone)]
pub enum ExportedPath {
    Exported(String),
    Private,
    Unrecognized,
}

/// An exported path, with its target as a character sequence.
pub enum ExportedPathView {
    Exported(Seq<char>),
    Private,
    Unrecognized,
}

impl View for ExportedPath {
    type V = ExportedPathView;

    open spec fn view(&self) -> ExportedPathView {
        match self {
            ExportedPath::Exported(s) => ExportedPathView::Exported(s@),
            ExportedPath::Private => ExportedPathView::Private,
            ExportedPath::Unrecognized => ExportedPathView::Unrecognized,
        }
    }
}

/// A borrowed exported path.
#[derive(Debug, Clone)]
pub enum ExportedPathRef<'a> {
    Exported(&'a str),
    Private,
    Unrecognized,
}

impl<'a> View for ExportedPathRef<'a> {
    type V = ExportedPathView;

    open spec fn view(&self) -> ExportedPathView {
        match self {
            ExportedPathRef::Exported(s) => ExportedPathView::Exported(s@),
            ExportedPathRef::Private => ExportedPathView::Private,
            ExportedPathRef::Unrecognized => ExportedPathView::Unrecognized,
        }
    }
}

/// The raw JSON value found at an export target, as far as the
/// classification below reads it.
pub enum ExportJsonValue {
    Null,
    Bool(bool),
    Str(String),
    /// A number, array, object or any other value.
    Other,
}

/// How a JSON value is read as an export target: a string is exported,
/// `null` and `false` are private, anything else is unrecognized.
pub open spec fn spec_exported_path_from_json(v: ExportJsonValue) -> ExportedPathView {
    match v {
        ExportJsonValue::Null => ExportedPathView::Private,
        ExportJsonValue::Bool(b) => if b { ExportedPathView::Unrecognized } else { ExportedPathView::Private },
        ExportJsonValue::Str(s) => ExportedPathView::Exported(s@),
        ExportJsonValue::Other => ExportedPathView::Unrecognized,
    }
}

impl ExportedPath {
    /// Reads a JSON value as an export target.
    pub fn from_json_value(v: ExportJsonValue) -> (r: ExportedPath)
        ensures
            r@ == spec_exported_path_from_json(v),
    {
        match v {
            ExportJsonValue::Null => ExportedPath::Private,
            ExportJsonValue::Bool(b) => if b { ExportedPath::Unrecognized } else { ExportedPath::Private },
            ExportJsonValue::Str(s) => ExportedPath::Exported(s),
            ExportJsonValue::Other => ExportedPath::Unrecognized,
        }
    }

    /// A borrowed view of the same export.
    pub fn as_ref(&self) -> (r: ExportedPathRef<'_>)
        ensures
            r@ == self@,
    {
        match self {
            ExportedPath::Exported(s) => ExportedPathRef::Exported(s.as_str()),
            ExportedPath::Private => ExportedPathRef::Private,
            ExportedPath::Unrecognized => ExportedPathRef::Unrecognized,
        }
    }

    /// Applies `f` to the target of an exported path, which `f` receives as
    /// a borrow; the result is exported with what `f` returns. Other forms
    /// are kept and `f` is not called.
    pub fn map_export<'s, F: FnOnce(&'s str) -> String>(&'s self, f: F) -> (r: Self)
        requires
            self@ matches ExportedPathView::Exported(v) ==> forall|x: &'s str| x@ == v ==> #[trigger] f.requires((x,)),
        ensures
            self is Private ==> r is Private,
            self is Unrecognized ==> r is Unrecognized,
            self is Exported ==> r is Exported,
            self@ matches ExportedPathView::Exported(v) ==> exists|x: &'s str|
                x@ == v && #[trigger] f.ensures((x,), r->Exported_0),
    {
        match self {
            ExportedPath::Exported(s) => {
                let x = s.as_str();
                let t = f(x);
                let r = ExportedPath::Exported(t);
                assert(x@ == s@ && f.ensures((x,), r->Exported_0));
                assert(self@ matches ExportedPathView::Exported(v) && x@ == v);
                r
            },
            ExportedPath::Private => ExportedPath::Private,
            ExportedPath::Unrecognized => ExportedPath::Unrecognized,
        }
    }

    /// A copy with the same view.
    pub fn duplicate(&self) -> (r: Self)
        ensures
            r@ == self@,
    {
        match self {
            ExportedPath::Exported(s) => ExportedPath::Exported(s.clone()),
            ExportedPath::Private => ExportedPath::Private,
            ExportedPath::Unrecognized => ExportedPath::Unrecognized,
        }
    }

    /// `Some(path)` is exported, `None` is private.
    pub fn from_option(value: Option<String>) -> (r: Self)
        ensures
            match value {
                Some(v) => r@ == ExportedPathView::Exported(v@),
                None => r@ == ExportedPathView::Private,
            },
    {
        match value {
            Some(v) => ExportedPath::Exported(v),
            None => ExportedPath::Private,
        }
    }
}

impl Default for ExportedPath {
    fn default() -> (r: Self)
        ensures
            r@ == ExportedPathView::Unrecognized,
    {
        ExportedPath::Unrecognized
    }
}

impl From<Option<String>> for ExportedPath {
    fn from(value: Option<String>) -> (r: Self) {
        match value {
            Some(v) => ExportedPath::Exported(v),
            None => ExportedPath::Private,
        }
    }
}

impl vstd::std_specs::convert::FromSpecImpl<Option<String>> for ExportedPath {
    open spec fn obeys_from_spec() -> bool {
        true
    }

    open spec fn from_spec(v: Option<String>) -> ExportedPath {
        match v {
            Some(s) => ExportedPath::Exported(s),
            None => ExportedPath::Private,
        }
    }
}

/// Equality of exported paths: same form and, for exports, same target.
pub open spec fn exported_path_eq(a: ExportedPathView, b: ExportedPathView) -> bool {
    match (a, b) {
        (ExportedPathView::Exported(x), ExportedPathView::Exported(y)) => x == y,
        (ExportedPathView::Private, ExportedPathView::Private) => true,
        (ExportedPathView::Unrecognized, ExportedPathView::Unrecognized) => true,
        _ => false,
    }
}

impl PartialEq for ExportedPath {
    fn eq(&self, other: &Self) -> (r: bool) {
        match (self, other) {
            (ExportedPath::Exported(a), ExportedPath::Exported(b)) => str_eq(a.as_str(), b.as_str()),
            (ExportedPath::Private, ExportedPath::Private) => true,
            (ExportedPath::Unrecognized, ExportedPath::Unrecognized) => true,
            _ => false,
        }
    }
}

impl vstd::std_specs::cmp::PartialEqSpecImpl for ExportedPath {
    open spec fn obeys_eq_spec() -> bool {
        true
    }

    open spec fn eq_spec(&self, other: &ExportedPath) -> bool {
        exported_path_eq(self@, other@)
    }
}

impl<'a> ExportedPathRef<'a> {
    /// Applies `f` to the target of an exported path; other forms are kept.
    pub fn map_export<'b, F: FnOnce(&'a str) -> &'b str>(self, f: F) -> (r: ExportedPathRef<'b>)
        requires
            self matches ExportedPathRef::Exported(s) ==> f.requires((s,)),
        ensures
            match (self, r) {
                (ExportedPathRef::Exported(s), ExportedPathRef::Exported(t)) => f.ensures((s,), t),
                (ExportedPathRef::Private, ExportedPathRef::Private) => true,
                (ExportedPathRef::Unrecognized, ExportedPathRef::Unrecognized) => true,
                _ => false,
            },
    {
        match self {
            ExportedPathRef::Exported(s) => ExportedPathRef::Exported(f(s)),
            ExportedPathRef::Private => ExportedPathRef::Private,
            ExportedPathRef::Unrecognized => ExportedPathRef::Unrecognized,
        }
    }

    /// `Some(path)` is exported, `None` is private.
    pub fn from_option(value: Option<&'a str>) -> (r: Self)
        ensures
            match value {
                Some(v) => r@ == ExportedPathView::Exported(v@),
                None => r@ == ExportedPathView::Private,
            },
    {
        match value {
            Some(v) => ExportedPathRef::Exported(v),
            None => ExportedPathRef::Private,
        }
    }
}

impl<'a> Default for ExportedPathRef<'a> {
    fn default() -> (r: Self)
        ensures
            r@ == ExportedPathView::Unrecognized,
    {
        ExportedPathRef::Unrecognized
    }
}

/// Equality of borrowed exported paths: an unrecognized path equals
/// nothing, not even another unrecognized path.
pub open spec fn exported_path_ref_eq(a: ExportedPathView, b: ExportedPathView) -> bool {
    match (a, b) {
        (ExportedPathView::Exported(x), ExportedPathView::Exported(y)) => x == y,
        (ExportedPathView::Private, ExportedPathView::Private) => true,
        _ => false,
    }
}

impl<'a> PartialEq for ExportedPathRef<'a> {
    fn eq(&self, other: &Self) -> (r: bool) {
        match (self, other) {
            (ExportedPathRef::Exported(a), ExportedPathRef::Exported(b)) => str_eq(a, b),
            (ExportedPathRef::Private, ExportedPathRef::Private) => true,
            _ => false,
        }
    }
}

impl<'a> vstd::std_specs::cmp::PartialEqSpecImpl for ExportedPathRef<'a> {
    open spec fn obeys_eq_spec() -> bool {
        true
    }

    open spec fn eq_spec(&self, other: &ExportedPathRef<'a>) -> bool {
        exported_path_ref_eq(self@, other@)
    }
}

} // verus!
