//! The failures that reading and rendering a file can end in.

use vstd::prelude::*;

verus! {

#[verifier::external_type_specification]
#[verifier::external_body]
pub struct ExArrowError(arrow_schema::ArrowError);

#[verifier::external_type_specification]
#[verifier::external_body]
pub struct ExIoError(std::io::Error);

#[verifier::external_type_specification]
#[verifier::external_body]
pub struct ExJsonError(serde_json::Error);

#[verifier::external_type_specification]
#[verifier::external_body]
pub struct ExParquetError(parquet::errors::ParquetError);

/// An I/O failure, with whether it is of kind `BrokenPipe`, which is read
/// once, when the failure is made.
#[derive(Debug)]
pub struct IoFailure {
    error: std::io::Error,
    broken_pipe: bool,
}

/// A JSON failure, with whether it wraps an I/O failure of kind
/// `BrokenPipe`, which is read once, when the failure is made.
#[derive(Debug)]
pub struct JsonFailure {
    error: serde_json::Error,
    broken_pipe: bool,
}

/// Why a command failed after its arguments were accepted.
#[derive(Debug)]
pub enum RunError {
    Arrow(arrow_schema::ArrowError),
    Io(IoFailure),
    Json(JsonFailure),
    Parquet(parquet::errors::ParquetError),
    Unsupported(String),
}

/// Whether an I/O error is of kind `BrokenPipe` (std's `io::Error::kind`).
/// Nothing is claimed of the result: the error is opaque here.
#[verifier::external_body]
fn io_error_is_broken_pipe(err: &std::io::Error) -> bool {
    match err.kind() {
        std::io::ErrorKind::BrokenPipe => true,
        _ => false,
    }
}

/// Whether a JSON error wraps an I/O error of kind `BrokenPipe`
/// (serde_json's `Error::io_error_kind`). Nothing is claimed of the result:
/// the error is opaque here.
#[verifier::external_body]
fn json_error_is_broken_pipe(err: &serde_json::Error) -> bool {
    match err.io_error_kind() {
        Some(std::io::ErrorKind::BrokenPipe) => true,
        _ => false,
    }
}

impl IoFailure {
    /// The failing I/O error.
    pub closed spec fn error(&self) -> std::io::Error {
        self.error
    }

    /// Whether the error is of kind `BrokenPipe`.
    pub closed spec fn broken_pipe(&self) -> bool {
        self.broken_pipe
    }

    /// The failure of `error`, with its kind read from it.
    pub fn new(error: std::io::Error) -> (f: IoFailure)
        ensures
            f.error() == error,
    {
        let broken_pipe = io_error_is_broken_pipe(&error);
        IoFailure { error, broken_pipe }
    }
}

impl JsonFailure {
    /// The failing JSON error.
    pub closed spec fn error(&self) -> serde_json::Error {
        self.error
    }

    /// Whether the error wraps an I/O error of kind `BrokenPipe`.
    pub closed spec fn broken_pipe(&self) -> bool {
        self.broken_pipe
    }

    /// The failure of `error`, with the kind of the I/O error it wraps read
    /// from it.
    pub fn new(error: serde_json::Error) -> (f: JsonFailure)
        ensures
            f.error() == error,
    {
        let broken_pipe = json_error_is_broken_pipe(&error);
        JsonFailure { error, broken_pipe }
    }
}

/// Whether the failure is the reader of the output going away.
pub open spec fn pipe_closed(e: RunError) -> bool {
    match e {
        RunError::Io(f) => f.broken_pipe(),
        RunError::Json(f) => f.broken_pipe(),
        _ => false,
    }
}

impl RunError {
    /// Whether the failure is the reader of the output going away: an I/O
    /// failure of kind `BrokenPipe`, or a JSON failure that wraps one.
    pub fn is_broken_pipe(&self) -> (b: bool)
        ensures
            b == pipe_closed(*self),
    {
        match self {
            RunError::Io(f) => f.broken_pipe,
            RunError::Json(f) => f.broken_pipe,
            _ => false,
        }
    }
}

/// arrow's `Display` of an `ArrowError`. Nothing is claimed of the text.
#[verifier::external_body]
fn arrow_error_text(err: &arrow_schema::ArrowError) -> String {
    err.to_string()
}

/// std's `Display` of an `io::Error` (it may hold the system's own message).
/// Nothing is claimed of the text.
#[verifier::external_body]
fn io_error_text(err: &std::io::Error) -> String {
    err.to_string()
}

/// serde_json's `Display` of its `Error`. Nothing is claimed of the text.
#[verifier::external_body]
fn json_error_text(err: &serde_json::Error) -> String {
    err.to_string()
}

/// parquet's `Display` of a `ParquetError`. Nothing is claimed of the text.
#[verifier::external_body]
fn parquet_error_text(err: &parquet::errors::ParquetError) -> String {
    err.to_string()
}

impl RunError {
    /// The text shown after `error: `: the refusal's own message, or the
    /// outside error's text.
    pub fn message(&self) -> (m: String)
        ensures
            self matches RunError::Unsupported(t) ==> m@ == t@,
    {
        match self {
            RunError::Arrow(err) => arrow_error_text(err),
            RunError::Io(f) => io_error_text(&f.error),
            RunError::Json(f) => json_error_text(&f.error),
            RunError::Parquet(err) => parquet_error_text(err),
            RunError::Unsupported(text) => text.clone(),
        }
    }
}

} // verus!
