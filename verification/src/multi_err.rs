//! Accumulation of several errors alongside a result value.
use vstd::prelude::*;
use crate::js_err::AnyError;
use crate::text::{decimal, push_all, push_decimal, str_chars, string_from_chars};

verus! {

/// A list of errors collected while a computation goes on.
pub struct MultiErr<TErr> {
    errs: Vec<TErr>,
}

impl<TErr> View for MultiErr<TErr> {
    type V = Seq<TErr>;

    closed spec fn view(&self) -> Seq<TErr> {
        self.errs@
    }
}

/// A value together with the errors collected while computing it.
pub struct MultiResult<TRes, TErr>(TRes, MultiErr<TErr>);

impl<TRes, TErr> MultiResult<TRes, TErr> {
    /// The carried value.
    pub closed spec fn value(self) -> TRes {
        self.0
    }

    /// The carried errors.
    pub closed spec fn errors(self) -> Seq<TErr> {
        self.1@
    }
}

impl<TErr> MultiErr<TErr> {
    /// An empty error list.
    pub fn new() -> (r: Self)
        ensures
            r@ == Seq::<TErr>::empty(),
    {
        MultiErr { errs: Vec::new() }
    }

    /// Appends all errors of `other`, keeping their order.
    pub fn add_multi(&mut self, other: MultiErr<TErr>)
        ensures
            final(self)@ == old(self)@ + other@,
    {
        let mut o = other.errs;
        self.errs.append(&mut o);
    }

    /// Appends every error of `other`, in order.
    pub fn add_iter(&mut self, other: Vec<TErr>)
        ensures
            final(self)@ == old(self)@ + other@,
    {
        let mut o = other;
        self.errs.append(&mut o);
    }

    /// Appends a single error.
    pub fn add_single(&mut self, other: TErr)
        ensures
            final(self)@ == old(self)@.push(other),
    {
        self.errs.push(other);
    }

    /// Takes the errors of a `MultiResult` into `self` and returns its value.
    pub fn extract<T>(&mut self, other: MultiResult<T, TErr>) -> (r: T)
        ensures
            r == other.value(),
            final(self)@ == old(self)@ + other.errors(),
    {
        self.add_multi(other.1);
        other.0
    }

    /// Takes the errors of a `(value, errors)` pair and returns the value.
    pub fn extract_multi<T>(&mut self, other: (T, MultiErr<TErr>)) -> (r: T)
        ensures
            r == other.0,
            final(self)@ == old(self)@ + other.1@,
    {
        self.add_multi(other.1);
        other.0
    }

    /// Takes the errors of a `(value, error list)` pair and returns the value.
    pub fn extract_iter<T>(&mut self, other: (T, Vec<TErr>)) -> (r: T)
        ensures
            r == other.0,
            final(self)@ == old(self)@ + other.1@,
    {
        self.add_iter(other.1);
        other.0
    }

    /// Takes the error of a `(value, error)` pair and returns the value.
    pub fn extract_single<T>(&mut self, other: (T, TErr)) -> (r: T)
        ensures
            r == other.0,
            final(self)@ == old(self)@.push(other.1),
    {
        self.add_single(other.1);
        other.0
    }

    /// Pairs these errors with a value.
    pub fn with_value<T>(self, val: T) -> (r: MultiResult<T, TErr>)
        ensures
            r.value() == val,
            r.errors() == self@,
    {
        MultiResult::with_errs(val, self)
    }

    /// `Ok(())` when no error was collected, otherwise the errors themselves.
    pub fn into_result(self) -> (r: Result<(), Self>)
        ensures
            self@.len() == 0 <==> r is Ok,
            r matches Err(e) ==> e@ == self@,
    {
        if self.errs.len() == 0 {
            Ok(())
        } else {
            Err(self)
        }
    }

    /// The collected errors, in order.
    pub fn into_vec(self) -> (r: Vec<TErr>)
        ensures
            r@ == self@,
    {
        self.errs
    }

    /// The number of collected errors.
    pub fn len(&self) -> (r: usize)
        ensures
            r == self@.len(),
    {
        self.errs.len()
    }
}

impl<TErr> Default for MultiErr<TErr> {
    fn default() -> (r: Self)
        ensures
            r@ == Seq::<TErr>::empty(),
    {
        Self::new()
    }
}

/// The `i`-th line of a multi-error report: `<i+1>: <message>`.
pub open spec fn numbered_line(i: nat, m: Seq<char>) -> Seq<char> {
    decimal(i + 1) + ": "@ + m
}

/// The numbered lines of `msgs[0..n]` joined with `"\n  "`.
pub open spec fn numbered_lines(msgs: Seq<Seq<char>>, n: nat) -> Seq<char>
    decreases n,
{
    if n == 0 {
        Seq::empty()
    } else if n == 1 {
        numbered_line(0, msgs[0])
    } else {
        numbered_lines(msgs, (n - 1) as nat) + "\n  "@ + numbered_line((n - 1) as nat, msgs[n - 1])
    }
}

/// The report for a list of error messages: the single message itself, or
/// `<n> errors:` followed by one numbered, indented line per message.
pub open spec fn multi_err_text(msgs: Seq<Seq<char>>) -> Seq<char> {
    if msgs.len() == 1 {
        msgs[0]
    } else {
        decimal(msgs.len()) + " errors:\n  "@ + numbered_lines(msgs, msgs.len())
    }
}

/// The messages of a list of strings.
pub open spec fn string_views(v: Seq<String>) -> Seq<Seq<char>> {
    v.map_values(|s: String| s@)
}

impl MultiErr<String> {
    /// The text of the combined error (see `multi_err_text`).
    pub fn report(&self) -> (r: String)
        ensures
            r@ == multi_err_text(string_views(self@)),
    {
        let n = self.errs.len();
        let ghost msgs = string_views(self@);
        if n == 1 {
            return self.errs[0].clone();
        }
        let mut out: Vec<char> = Vec::new();
        push_decimal(&mut out, n);
        let head = str_chars(" errors:\n  ");
        push_all(&mut out, head.as_slice());
        let ghost prefix = out@;
        let sep = str_chars("\n  ");
        let colon = str_chars(": ");
        let mut i: usize = 0;
        while i < n
            invariant
                n == self.errs@.len(),
                msgs == string_views(self.errs@),
                0 <= i <= n,
                sep@ == "\n  "@,
                colon@ == ": "@,
                out@ == prefix + numbered_lines(msgs, i as nat),
            decreases n - i,
        {
            if i > 0 {
                push_all(&mut out, sep.as_slice());
            }
            push_decimal(&mut out, i + 1);
            push_all(&mut out, colon.as_slice());
            let m = str_chars(self.errs[i].as_str());
            push_all(&mut out, m.as_slice());
            assert(msgs[i as int] == self.errs@[i as int]@);
            i = i + 1;
            assert(out@ =~= prefix + numbered_lines(msgs, i as nat));
        }
        string_from_chars(out.as_slice())
    }

    /// Converts the collected messages into one error whose text is the
    /// report of all of them (see `multi_err_text`).
    pub fn into_anyhow(self) -> (r: AnyError)
        ensures
            r matches AnyError::Message(t) && t@ == multi_err_text(string_views(self@)),
    {
        let text = self.report();
        AnyError::msg(text)
    }
}

impl<TRes, TErr> MultiResult<TRes, TErr> {
    /// A value with no errors.
    pub fn from(val: TRes) -> (r: Self)
        ensures
            r.value() == val,
            r.errors() == Seq::<TErr>::empty(),
    {
        MultiResult(val, MultiErr::new())
    }

    /// A value with the given errors.
    pub fn with_errs(val: TRes, errs: MultiErr<TErr>) -> (r: Self)
        ensures
            r.value() == val,
            r.errors() == errs@,
    {
        MultiResult(val, errs)
    }

    /// `Ok(value)` when no error was collected, otherwise the errors.
    pub fn into_result(self) -> (r: Result<TRes, MultiErr<TErr>>)
        ensures
            self.errors().len() == 0 <==> r is Ok,
            r matches Ok(v) ==> v == self.value(),
            r matches Err(e) ==> e@ == self.errors(),
    {
        let (val, errs) = (self.0, self.1);
        match errs.into_result() {
            Ok(()) => Ok(val),
            Err(e) => Err(e),
        }
    }
}

impl<TRes> MultiResult<TRes, String> {
    /// `Ok(value)` when no error was collected, otherwise one combined error.
    pub fn into_anyhow(self) -> (r: Result<TRes, AnyError>)
        ensures
            self.errors().len() == 0 <==> r is Ok,
            r matches Ok(v) ==> v == self.value(),
            r matches Err(e) ==> e matches AnyError::Message(t) && t@ == multi_err_text(string_views(self.errors())),
    {
        if self.1.errs.len() == 0 {
            Ok(self.0)
        } else {
            Err(self.1.into_anyhow())
        }
    }
}

} // verus!
