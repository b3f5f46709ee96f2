//! Loggers that report against a location in a source file.
//!
//! `WrapFileLogger` knows the text of the file and reports a byte offset as
//! a line and column; `SimpleSourceFileLogger` knows only the file's path
//! and reports the byte offset itself.
use vstd::prelude::*;
use vstd::utf8::encode_utf8;
use crate::comments::{is_line_col, starts_wf, LineIndex, Span};
use crate::logger::Logger;
use crate::text::{decimal, push_all, push_decimal, str_chars, string_from_chars};

verus! {

/// A logger that can also report at a location of the file it was made for.
pub trait SrcFileLogger: Logger {
    fn src_warn(&self, location: Span, message: String);

    fn src_error(&self, location: Span, message: String);
}

/// `name:line:col :: message`.
pub open spec fn line_col_message(name: Seq<char>, line: nat, col: nat, message: Seq<char>) -> Seq<char> {
    name + seq![':'] + decimal(line) + seq![':'] + decimal(col) + seq![' ', ':', ':', ' '] + message
}

/// `path:byte=offset:: message`.
pub open spec fn byte_offset_message(path: Seq<char>, offset: nat, message: Seq<char>) -> Seq<char> {
    path + seq![':', 'b', 'y', 't', 'e', '='] + decimal(offset) + seq![':', ':', ' '] + message
}

/// The text of a report at a line and column of a named file.
pub fn format_line_col_message(name: &str, line: usize, col: usize, message: &str) -> (r: String)
    ensures
        r@ == line_col_message(name@, line as nat, col as nat, message@),
{
    let mut v: Vec<char> = Vec::new();
    push_all(&mut v, str_chars(name).as_slice());
    v.push(':');
    push_decimal(&mut v, line);
    v.push(':');
    push_decimal(&mut v, col);
    v.push(' ');
    v.push(':');
    v.push(':');
    v.push(' ');
    push_all(&mut v, str_chars(message).as_slice());
    assert(v@ =~= line_col_message(name@, line as nat, col as nat, message@));
    string_from_chars(v.as_slice())
}

/// The text of a report at a byte offset of a file.
pub fn format_byte_offset_message(path: &str, offset: u32, message: &str) -> (r: String)
    ensures
        r@ == byte_offset_message(path@, offset as nat, message@),
{
    let mut v: Vec<char> = Vec::new();
    push_all(&mut v, str_chars(path).as_slice());
    v.push(':');
    v.push('b');
    v.push('y');
    v.push('t');
    v.push('e');
    v.push('=');
    push_decimal(&mut v, offset as usize);
    v.push(':');
    v.push(':');
    v.push(' ');
    push_all(&mut v, str_chars(message).as_slice());
    assert(v@ =~= byte_offset_message(path@, offset as nat, message@));
    string_from_chars(v.as_slice())
}

/// A logger for one source file, which it holds, that reports locations as
/// lines and columns.
pub struct WrapFileLogger<TLogger> {
    name: String,
    source: String,
    line_index: LineIndex,
    inner_logger: TLogger,
}

impl<TLogger> WrapFileLogger<TLogger> {
    #[verifier::type_invariant]
    spec fn wf(&self) -> bool {
        starts_wf(self.line_index.starts())
    }
}

impl<TLogger: Logger> WrapFileLogger<TLogger> {
    /// The name of the file.
    pub closed spec fn name(&self) -> Seq<char> {
        self.name@
    }

    /// The text of the file.
    pub closed spec fn source(&self) -> Seq<char> {
        self.source@
    }

    /// The offsets at which the lines of the file start.
    pub closed spec fn line_starts(&self) -> Seq<u32> {
        self.line_index.starts()
    }

    /// A logger for the file `filename` with text `source`, passing its
    /// lines on to `inner_logger`.
    pub fn new(filename: &str, source: String, inner_logger: TLogger) -> (r: Self)
        requires
            encode_utf8(source@).len() < u32::MAX,
        ensures
            r.name() == filename@,
            r.source() == source@,
            r.line_starts() == crate::comments::line_starts_upto(encode_utf8(source@), encode_utf8(source@).len() as int),
    {
        let line_index = LineIndex::new(source.as_str());
        WrapFileLogger { name: string_from_chars(str_chars(filename).as_slice()), source, line_index, inner_logger }
    }

    /// The 1-based line and 0-based column of a byte offset of the file.
    pub fn line_col(&self, byte_offset: u32) -> (r: (usize, usize))
        ensures
            is_line_col(self.line_starts(), byte_offset, r.0 as int, r.1 as int),
    {
        proof { use_type_invariant(self); }
        self.line_index.line_col(byte_offset)
    }
}

impl<TLogger: Clone> Clone for WrapFileLogger<TLogger> {
    fn clone(&self) -> (r: Self) {
        proof { use_type_invariant(self); }
        WrapFileLogger {
            name: self.name.clone(),
            source: self.source.clone(),
            line_index: self.line_index.duplicate(),
            inner_logger: self.inner_logger.clone(),
        }
    }
}

impl<TLogger: Logger> Logger for WrapFileLogger<TLogger> {
    fn log(&self, message: String) {
        self.inner_logger.log(message);
    }

    fn warn(&self, message: String) {
        self.inner_logger.warn(message);
    }

    fn error(&self, message: String) {
        self.inner_logger.error(message);
    }
}

impl<TLogger: Logger> SrcFileLogger for WrapFileLogger<TLogger> {
    fn src_warn(&self, location: Span, message: String) {
        let (line, col) = self.line_col(location.start);
        self.warn(format_line_col_message(self.name.as_str(), line, col, message.as_str()));
    }

    fn src_error(&self, location: Span, message: String) {
        let (line, col) = self.line_col(location.start);
        self.error(format_line_col_message(self.name.as_str(), line, col, message.as_str()));
    }
}

/// A logger for one source file, known by its path, that reports locations
/// as byte offsets.
#[derive(Clone)]
pub struct SimpleSourceFileLogger<TLogger> {
    pub source_file_path: String,
    pub inner_logger: TLogger,
}

impl<TLogger: Logger> SimpleSourceFileLogger<TLogger> {
    pub fn new(source_file_path: String, inner_logger: TLogger) -> (r: Self)
        ensures
            r.source_file_path == source_file_path,
            r.inner_logger == inner_logger,
    {
        SimpleSourceFileLogger { source_file_path, inner_logger }
    }
}

impl<TLogger: Logger> Logger for SimpleSourceFileLogger<TLogger> {
    fn log(&self, message: String) {
        self.inner_logger.log(message);
    }

    fn warn(&self, message: String) {
        self.inner_logger.warn(message);
    }

    fn error(&self, message: String) {
        self.inner_logger.error(message);
    }
}

impl<TLogger: Logger> SrcFileLogger for SimpleSourceFileLogger<TLogger> {
    fn src_warn(&self, location: Span, message: String) {
        self.warn(format_byte_offset_message(self.source_file_path.as_str(), location.start, message.as_str()));
    }

    fn src_error(&self, location: Span, message: String) {
        self.error(format_byte_offset_message(self.source_file_path.as_str(), location.start, message.as_str()));
    }
}

} // verus!
