//! Error values carrying a JavaScript-engine status code.
use vstd::prelude::*;
use crate::text::{str_chars, push_all, string_from_chars};

verus! {

/// Status codes reported to the JavaScript host.
#[derive(Debug, Copy, Clone, PartialEq, Eq, Structural)]
pub enum Status {
    OkStatus,
    InvalidArg,
    ObjectExpected,
    StringExpected,
    NameExpected,
    FunctionExpected,
    NumberExpected,
    BooleanExpected,
    ArrayExpected,
    GenericFailure,
    PendingException,
    Cancelled,
    EscapeCalledTwice,
    HandleScopeMismatch,
    CallbackScopeMismatch,
    QueueFull,
    Closing,
    BigintExpected,
    DateExpected,
    ArrayBufferExpected,
    DetachableArraybufferExpected,
    WouldDeadlock,
    NoExternalBuffersAllowed,
    Unknown,
}

/// The text under which a status is displayed.
pub open spec fn status_text(s: Status) -> Seq<char> {
    match s {
        Status::OkStatus => "ok"@,
        Status::InvalidArg => "invalid_arg"@,
        Status::ObjectExpected => "object_expected"@,
        Status::StringExpected => "string_expected"@,
        Status::NameExpected => "name_expected"@,
        Status::FunctionExpected => "function_expected"@,
        Status::NumberExpected => "number_expected"@,
        Status::BooleanExpected => "boolean_expected"@,
        Status::ArrayExpected => "array_expected"@,
        Status::GenericFailure => "generic_failure"@,
        Status::PendingException => "pending_exception"@,
        Status::Cancelled => "cancelled"@,
        Status::EscapeCalledTwice => "escape_called_twice"@,
        Status::HandleScopeMismatch => "handle_scope_mismatch"@,
        Status::CallbackScopeMismatch => "callback_scope_mismatch"@,
        Status::QueueFull => "queue_full"@,
        Status::Closing => "closing"@,
        Status::BigintExpected => "bigint_expected"@,
        Status::DateExpected => "date_expected"@,
        Status::ArrayBufferExpected => "array_buffer_expected"@,
        Status::DetachableArraybufferExpected => "detachable_arraybuffer_expected"@,
        Status::WouldDeadlock => "would_deadlock"@,
        Status::NoExternalBuffersAllowed => "no_external_buffers_allowed"@,
        Status::Unknown => "unknown"@,
    }
}

impl Status {
    /// The display text of this status (`ok`, `invalid_arg`, ...).
    pub fn as_str(&self) -> (r: &'static str)
        ensures
            r@ == status_text(*self),
    {
        match self {
            Status::OkStatus => "ok",
            Status::InvalidArg => "invalid_arg",
            Status::ObjectExpected => "object_expected",
            Status::StringExpected => "string_expected",
            Status::NameExpected => "name_expected",
            Status::FunctionExpected => "function_expected",
            Status::NumberExpected => "number_expected",
            Status::BooleanExpected => "boolean_expected",
            Status::ArrayExpected => "array_expected",
            Status::GenericFailure => "generic_failure",
            Status::PendingException => "pending_exception",
            Status::Cancelled => "cancelled",
            Status::EscapeCalledTwice => "escape_called_twice",
            Status::HandleScopeMismatch => "handle_scope_mismatch",
            Status::CallbackScopeMismatch => "callback_scope_mismatch",
            Status::QueueFull => "queue_full",
            Status::Closing => "closing",
            Status::BigintExpected => "bigint_expected",
            Status::DateExpected => "date_expected",
            Status::ArrayBufferExpected => "array_buffer_expected",
            Status::DetachableArraybufferExpected => "detachable_arraybuffer_expected",
            Status::WouldDeadlock => "would_deadlock",
            Status::NoExternalBuffersAllowed => "no_external_buffers_allowed",
            Status::Unknown => "unknown",
        }
    }
}

/// An error value: either a plain message or a `JsErr` carried as an error.
#[derive(Debug)]
pub enum AnyError {
    /// An error whose display text is the message.
    Message(String),
    /// A `JsErr` wrapped as a generic error.
    Js(Box<JsErr>),
}

/// An error together with the status it is reported under.
#[derive(Debug)]
pub struct JsErr {
    pub status: Status,
    pub err: AnyError,
}

/// Display text of an error value.
pub open spec fn any_error_text(e: AnyError) -> Seq<char>
    decreases e,
{
    match e {
        AnyError::Message(m) => m@,
        AnyError::Js(j) => js_err_text(*j),
    }
}

/// Display text of a `JsErr`: `Status: <status>. <error>`.
pub open spec fn js_err_text(j: JsErr) -> Seq<char>
    decreases j,
{
    "Status: "@ + status_text(j.status) + ". "@ + any_error_text(j.err)
}

/// The `JsErr` that `JsErr::new(status, err)` builds: an error that is
/// itself a `JsErr` is unwrapped and keeps its own status.
pub open spec fn spec_js_err_new(status: Status, err: AnyError) -> JsErr {
    match err {
        AnyError::Js(inner) => JsErr { status: inner.status, err: inner.err },
        other => JsErr { status: status, err: other },
    }
}

impl AnyError {
    /// An error with the given message.
    pub fn msg(message: String) -> (r: AnyError)
        ensures
            r == AnyError::Message(message),
    {
        AnyError::Message(message)
    }

    /// Wraps a `JsErr` as an error value.
    pub fn from_js_err(e: JsErr) -> (r: AnyError)
        ensures
            r == AnyError::Js(Box::new(e)),
    {
        AnyError::Js(Box::new(e))
    }

    /// The display text of this error.
    pub fn to_display_string(&self) -> (r: String)
        ensures
            r@ == any_error_text(*self),
        decreases self,
    {
        match self {
            AnyError::Message(m) => m.clone(),
            AnyError::Js(j) => j.to_display_string(),
        }
    }
}

fn concat3(a: &str, b: &str, c: &str, d: &str) -> (r: String)
    ensures
        r@ == a@ + b@ + c@ + d@,
{
    let mut v = str_chars(a);
    let bv = str_chars(b);
    let cv = str_chars(c);
    let dv = str_chars(d);
    push_all(&mut v, bv.as_slice());
    push_all(&mut v, cv.as_slice());
    push_all(&mut v, dv.as_slice());
    string_from_chars(v.as_slice())
}

impl JsErr {
    /// Builds a `JsErr`; when `err` is itself a `JsErr`, its status and
    /// inner error are kept and `status` is ignored.
    pub fn new(status: Status, err: AnyError) -> (r: JsErr)
        ensures
            r == spec_js_err_new(status, err),
    {
        match err {
            AnyError::Js(inner) => {
                let inner = *inner;
                JsErr { status: inner.status, err: inner.err }
            },
            other => JsErr { status, err: other },
        }
    }

    /// `JsErr::new` with status `OkStatus`.
    pub fn ok(err: AnyError) -> (r: JsErr)
        ensures
            r == spec_js_err_new(Status::OkStatus, err),
    {
        Self::new(Status::OkStatus, err)
    }

    /// `JsErr::new` with status `InvalidArg`.
    pub fn invalid_arg(err: AnyError) -> (r: JsErr)
        ensures
            r == spec_js_err_new(Status::InvalidArg, err),
    {
        Self::new(Status::InvalidArg, err)
    }

    /// `JsErr::new` with status `ObjectExpected`.
    pub fn object_expected(err: AnyError) -> (r: JsErr)
        ensures
            r == spec_js_err_new(Status::ObjectExpected, err),
    {
        Self::new(Status::ObjectExpected, err)
    }

    /// `JsErr::new` with status `StringExpected`.
    pub fn string_expected(err: AnyError) -> (r: JsErr)
        ensures
            r == spec_js_err_new(Status::StringExpected, err),
    {
        Self::new(Status::StringExpected, err)
    }

    /// `JsErr::new` with status `NameExpected`.
    pub fn name_expected(err: AnyError) -> (r: JsErr)
        ensures
            r == spec_js_err_new(Status::NameExpected, err),
    {
        Self::new(Status::NameExpected, err)
    }

    /// `JsErr::new` with status `FunctionExpected`.
    pub fn function_expected(err: AnyError) -> (r: JsErr)
        ensures
            r == spec_js_err_new(Status::FunctionExpected, err),
    {
        Self::new(Status::FunctionExpected, err)
    }

    /// `JsErr::new` with status `NumberExpected`.
    pub fn number_expected(err: AnyError) -> (r: JsErr)
        ensures
            r == spec_js_err_new(Status::NumberExpected, err),
    {
        Self::new(Status::NumberExpected, err)
    }

    /// `JsErr::new` with status `BooleanExpected`.
    pub fn boolean_expected(err: AnyError) -> (r: JsErr)
        ensures
            r == spec_js_err_new(Status::BooleanExpected, err),
    {
        Self::new(Status::BooleanExpected, err)
    }

    /// `JsErr::new` with status `ArrayExpected`.
    pub fn array_expected(err: AnyError) -> (r: JsErr)
        ensures
            r == spec_js_err_new(Status::ArrayExpected, err),
    {
        Self::new(Status::ArrayExpected, err)
    }

    /// `JsErr::new` with status `GenericFailure`.
    pub fn generic_failure(err: AnyError) -> (r: JsErr)
        ensures
            r == spec_js_err_new(Status::GenericFailure, err),
    {
        Self::new(Status::GenericFailure, err)
    }

    /// `JsErr::new` with status `PendingException`.
    pub fn pending_exception(err: AnyError) -> (r: JsErr)
        ensures
            r == spec_js_err_new(Status::PendingException, err),
    {
        Self::new(Status::PendingException, err)
    }

    /// `JsErr::new` with status `Cancelled`.
    pub fn cancelled(err: AnyError) -> (r: JsErr)
        ensures
            r == spec_js_err_new(Status::Cancelled, err),
    {
        Self::new(Status::Cancelled, err)
    }

    /// `JsErr::new` with status `EscapeCalledTwice`.
    pub fn escape_called_twice(err: AnyError) -> (r: JsErr)
        ensures
            r == spec_js_err_new(Status::EscapeCalledTwice, err),
    {
        Self::new(Status::EscapeCalledTwice, err)
    }

    /// `JsErr::new` with status `HandleScopeMismatch`.
    pub fn handle_scope_mismatch(err: AnyError) -> (r: JsErr)
        ensures
            r == spec_js_err_new(Status::HandleScopeMismatch, err),
    {
        Self::new(Status::HandleScopeMismatch, err)
    }

    /// `JsErr::new` with status `CallbackScopeMismatch`.
    pub fn callback_scope_mismatch(err: AnyError) -> (r: JsErr)
        ensures
            r == spec_js_err_new(Status::CallbackScopeMismatch, err),
    {
        Self::new(Status::CallbackScopeMismatch, err)
    }

    /// `JsErr::new` with status `QueueFull`.
    pub fn queue_full(err: AnyError) -> (r: JsErr)
        ensures
            r == spec_js_err_new(Status::QueueFull, err),
    {
        Self::new(Status::QueueFull, err)
    }

    /// `JsErr::new` with status `Closing`.
    pub fn closing(err: AnyError) -> (r: JsErr)
        ensures
            r == spec_js_err_new(Status::Closing, err),
    {
        Self::new(Status::Closing, err)
    }

    /// `JsErr::new` with status `BigintExpected`.
    pub fn bigint_expected(err: AnyError) -> (r: JsErr)
        ensures
            r == spec_js_err_new(Status::BigintExpected, err),
    {
        Self::new(Status::BigintExpected, err)
    }

    /// `JsErr::new` with status `DateExpected`.
    pub fn date_expected(err: AnyError) -> (r: JsErr)
        ensures
            r == spec_js_err_new(Status::DateExpected, err),
    {
        Self::new(Status::DateExpected, err)
    }

    /// `JsErr::new` with status `ArrayBufferExpected`.
    pub fn array_buffer_expected(err: AnyError) -> (r: JsErr)
        ensures
            r == spec_js_err_new(Status::ArrayBufferExpected, err),
    {
        Self::new(Status::ArrayBufferExpected, err)
    }

    /// `JsErr::new` with status `DetachableArraybufferExpected`.
    pub fn detachable_arraybuffer_expected(err: AnyError) -> (r: JsErr)
        ensures
            r == spec_js_err_new(Status::DetachableArraybufferExpected, err),
    {
        Self::new(Status::DetachableArraybufferExpected, err)
    }

    /// `JsErr::new` with status `WouldDeadlock`.
    pub fn would_deadlock(err: AnyError) -> (r: JsErr)
        ensures
            r == spec_js_err_new(Status::WouldDeadlock, err),
    {
        Self::new(Status::WouldDeadlock, err)
    }

    /// `JsErr::new` with status `NoExternalBuffersAllowed`.
    pub fn no_external_buffers_allowed(err: AnyError) -> (r: JsErr)
        ensures
            r == spec_js_err_new(Status::NoExternalBuffersAllowed, err),
    {
        Self::new(Status::NoExternalBuffersAllowed, err)
    }

    /// `JsErr::new` with status `Unknown`.
    pub fn unknown(err: AnyError) -> (r: JsErr)
        ensures
            r == spec_js_err_new(Status::Unknown, err),
    {
        Self::new(Status::Unknown, err)
    }

    /// The message of the inner error.
    pub fn message(&self) -> (r: String)
        ensures
            r@ == any_error_text(self.err),
    {
        self.err.to_display_string()
    }

    /// The status this error is reported under.
    pub fn status(&self) -> (r: Status)
        ensures
            r == self.status,
    {
        self.status
    }

    /// `Status: <status>. <error>`.
    pub fn to_display_string(&self) -> (r: String)
        ensures
            r@ == js_err_text(*self),
        decreases self,
    {
        let inner = self.err.to_display_string();
        concat3("Status: ", self.status.as_str(), ". ", inner.as_str())
    }
}

} // verus!
