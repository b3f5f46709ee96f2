//! The logging interface that the checkers report through.
//!
//! A logger only has to accept whole lines; warnings and errors are lines
//! with a fixed prefix.
use vstd::prelude::*;
use crate::text::{push_all, str_chars, string_from_chars};

verus! {

/// The line logged for a warning.
pub open spec fn warn_line(message: Seq<char>) -> Seq<char> {
    seq!['W', 'A', 'R', 'N', ':', ' '] + message
}

/// The line logged for an error.
pub open spec fn error_line(message: Seq<char>) -> Seq<char> {
    seq!['E', 'R', 'R', 'O', 'R', ':', ' '] + message
}

/// The line logged for a warning: `WARN: ` before the message.
pub fn warn_message(message: &str) -> (r: String)
    ensures
        r@ == warn_line(message@),
{
    let mut v: Vec<char> = Vec::new();
    v.push('W');
    v.push('A');
    v.push('R');
    v.push('N');
    v.push(':');
    v.push(' ');
    let m = str_chars(message);
    push_all(&mut v, m.as_slice());
    assert(v@ =~= warn_line(message@));
    string_from_chars(v.as_slice())
}

/// The line logged for an error: `ERROR: ` before the message.
pub fn error_message(message: &str) -> (r: String)
    ensures
        r@ == error_line(message@),
{
    let mut v: Vec<char> = Vec::new();
    v.push('E');
    v.push('R');
    v.push('R');
    v.push('O');
    v.push('R');
    v.push(':');
    v.push(' ');
    let m = str_chars(message);
    push_all(&mut v, m.as_slice());
    assert(v@ =~= error_line(message@));
    string_from_chars(v.as_slice())
}

/// A sink for log lines. Implementors decide where a line goes; warnings and
/// errors are logged as lines with their prefix.
pub trait Logger: Clone {
    fn log(&self, message: String);

    fn warn(&self, message: String) {
        self.log(warn_message(message.as_str()));
    }

    fn error(&self, message: String) {
        self.log(error_message(message.as_str()));
    }
}

} // verus!
