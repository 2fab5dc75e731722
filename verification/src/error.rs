//! The errors with which a request is rejected.

use crate::decimal::{decimal, decimal_string};
use vstd::prelude::*;
use vstd::string::StringExecFns;

verus! {

/// The reasons for rejecting a request. None of them is worth a retry with
/// the same arguments.
#[derive(Clone, Copy, Debug, PartialEq, Eq, Structural)]
pub enum ErrorKind {
    /// The buffer is larger than the practical ceiling.
    BufferTooLarge,
    /// The buffer is shorter than the frame that was asked for.
    BufferTooSmall,
    /// The format tag names no known format.
    InvalidFormat,
    /// A parameter is malformed in some other way.
    InvalidParameter,
}

/// An error: its kind, a message for people, and an optional note that the
/// caller has added.
#[derive(Clone, Debug)]
pub struct Error {
    kind: ErrorKind,
    message: String,
    context: Option<String>,
}

/// What an [`Error`] holds, with its strings as sequences of characters.
pub struct ErrorView {
    pub kind: ErrorKind,
    pub message: Seq<char>,
    pub context: Option<Seq<char>>,
}

impl View for Error {
    type V = ErrorView;

    closed spec fn view(&self) -> ErrorView {
        ErrorView {
            kind: self.kind,
            message: self.message@,
            context: match self.context {
                Some(c) => Some(c@),
                None => None,
            },
        }
    }
}

/// The name of a kind, as it is spelled in the source.
pub open spec fn kind_name(kind: ErrorKind) -> Seq<char> {
    match kind {
        ErrorKind::BufferTooLarge => "BufferTooLarge"@,
        ErrorKind::BufferTooSmall => "BufferTooSmall"@,
        ErrorKind::InvalidFormat => "InvalidFormat"@,
        ErrorKind::InvalidParameter => "InvalidParameter"@,
    }
}

/// The message of a buffer that is too large; both sizes are in mebibytes.
pub open spec fn too_large_message(size_mb: nat, limit_mb: nat) -> Seq<char> {
    "Buffer size "@ + decimal(size_mb) + "MB exceeds practical limit of "@ + decimal(limit_mb)
        + "MB"@
}

/// The message of a buffer that is too small; both sizes are in bytes.
pub open spec fn too_small_message(required: nat, provided: nat) -> Seq<char> {
    "Buffer too small: "@ + decimal(required) + " bytes required, "@ + decimal(provided)
        + " provided"@
}

/// The message of an unknown format tag.
pub open spec fn invalid_format_message(format: u8) -> Seq<char> {
    "Unknown format: "@ + decimal(format as nat)
}

/// The message of a malformed parameter.
pub open spec fn invalid_parameter_message(param: Seq<char>, value: Seq<char>) -> Seq<char> {
    "Invalid "@ + param + ": "@ + value
}

/// An error of the given kind and message, without context.
pub open spec fn plain_error(kind: ErrorKind, message: Seq<char>) -> ErrorView {
    ErrorView { kind, message, context: None }
}

/// The error of a buffer of `size_mb` mebibytes against a ceiling of
/// `limit_mb`.
pub open spec fn too_large_error(size_mb: nat, limit_mb: nat) -> ErrorView {
    plain_error(ErrorKind::BufferTooLarge, too_large_message(size_mb, limit_mb))
}

/// The error of a buffer of `provided` bytes where `required` are needed.
pub open spec fn too_small_error(required: nat, provided: nat) -> ErrorView {
    plain_error(ErrorKind::BufferTooSmall, too_small_message(required, provided))
}

/// The error of the unknown format tag `format`.
pub open spec fn invalid_format_error(format: u8) -> ErrorView {
    plain_error(ErrorKind::InvalidFormat, invalid_format_message(format))
}

/// The error of the parameter `param` with the malformed `value`.
pub open spec fn invalid_parameter_error(param: Seq<char>, value: Seq<char>) -> ErrorView {
    plain_error(ErrorKind::InvalidParameter, invalid_parameter_message(param, value))
}

/// How an error reads as one line: kind, message, and the context if there
/// is one.
pub open spec fn error_line(e: ErrorView) -> Seq<char> {
    match e.context {
        Some(ctx) => kind_name(e.kind) + ": "@ + e.message + " (context: "@ + ctx + ")"@,
        None => kind_name(e.kind) + ": "@ + e.message,
    }
}

impl ErrorKind {
    /// The name of the kind.
    pub fn to_string(&self) -> (s: String)
        ensures
            s@ == kind_name(*self),
    {
        match self {
            ErrorKind::BufferTooLarge => String::from_str("BufferTooLarge"),
            ErrorKind::BufferTooSmall => String::from_str("BufferTooSmall"),
            ErrorKind::InvalidFormat => String::from_str("InvalidFormat"),
            ErrorKind::InvalidParameter => String::from_str("InvalidParameter"),
        }
    }
}

impl Error {
    /// An error of the given kind and message, without context.
    pub fn new(kind: ErrorKind, message: String) -> (e: Error)
        ensures
            e@ == plain_error(kind, message@),
    {
        Error { kind, message, context: None }
    }

    /// The same error with `context` as its note; an earlier note is
    /// replaced.
    pub fn with_context(self, context: String) -> (e: Error)
        ensures
            e@ == (ErrorView { context: Some(context@), ..self@ }),
    {
        let mut e = self;
        e.context = Some(context);
        e
    }

    /// The kind.
    pub fn kind(&self) -> (kind: ErrorKind)
        ensures
            kind == self@.kind,
    {
        self.kind
    }

    /// A copy of the message.
    pub fn message(&self) -> (message: String)
        ensures
            message@ == self@.message,
    {
        self.message.clone()
    }

    /// A copy of the context, if there is one.
    pub fn context(&self) -> (context: Option<String>)
        ensures
            context is Some <==> self@.context is Some,
            context matches Some(c) ==> Some(c@) == self@.context,
    {
        match &self.context {
            Some(c) => Some(c.clone()),
            None => None,
        }
    }

    /// The error as one line: `kind: message`, followed by
    /// ` (context: ..)` if a context was added.
    pub fn to_string(&self) -> (s: String)
        ensures
            s@ == error_line(self@),
    {
        let mut s: String = self.kind.to_string();
        s.append(": ");
        s.append(self.message.as_str());
        match &self.context {
            Some(ctx) => {
                s.append(" (context: ");
                s.append(ctx.as_str());
                s.append(")");
            },
            None => {},
        }
        s
    }

    /// The error of a buffer of `size_mb` mebibytes against a ceiling of
    /// `limit_mb`.
    pub fn buffer_too_large(size_mb: u64, limit_mb: u64) -> (e: Error)
        ensures
            e@ == too_large_error(size_mb as nat, limit_mb as nat),
    {
        let mut m: String = String::from_str("Buffer size ");
        m.append(decimal_string(size_mb as u128).as_str());
        m.append("MB exceeds practical limit of ");
        m.append(decimal_string(limit_mb as u128).as_str());
        m.append("MB");
        Error::new(ErrorKind::BufferTooLarge, m)
    }

    /// The error of a buffer of `provided` bytes where `required` are
    /// needed.
    pub fn buffer_too_small(required: u64, provided: usize) -> (e: Error)
        ensures
            e@ == too_small_error(required as nat, provided as nat),
    {
        Error::frame_too_long(required as u128, provided)
    }

    /// As [`Error::buffer_too_small`], for a frame whose length may be
    /// beyond 64 bits.
    pub fn frame_too_long(required: u128, provided: usize) -> (e: Error)
        ensures
            e@ == too_small_error(required as nat, provided as nat),
    {
        let mut m: String = String::from_str("Buffer too small: ");
        m.append(decimal_string(required).as_str());
        m.append(" bytes required, ");
        m.append(decimal_string(provided as u128).as_str());
        m.append(" provided");
        Error::new(ErrorKind::BufferTooSmall, m)
    }

    /// The error of the unknown format tag `format`.
    pub fn invalid_format(format: u8) -> (e: Error)
        ensures
            e@ == invalid_format_error(format),
    {
        let mut m: String = String::from_str("Unknown format: ");
        m.append(decimal_string(format as u128).as_str());
        Error::new(ErrorKind::InvalidFormat, m)
    }

    /// The error of the parameter `param` with the malformed `value`.
    pub fn invalid_parameter(param: &str, value: &str) -> (e: Error)
        ensures
            e@ == invalid_parameter_error(param@, value@),
    {
        let mut m: String = String::from_str("Invalid ");
        m.append(param);
        m.append(": ");
        m.append(value);
        Error::new(ErrorKind::InvalidParameter, m)
    }
}

} // verus!
