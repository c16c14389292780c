//! Server-side error categories and log levels.
use vstd::prelude::*;
use crate::text::str_eq;

verus! {

/// Categories of errors the server reports.
#[derive(Debug, Clone, Copy, PartialEq, Eq, Structural)]
pub enum ErrorCode {
    InvalidSchemaFile,
    InvalidSchema,
    BadQuery,
}

/// The printed name of an error category.
pub open spec fn error_code_name(c: ErrorCode) -> Seq<char> {
    match c {
        ErrorCode::InvalidSchemaFile => "InvalidSchemaFile"@,
        ErrorCode::InvalidSchema => "InvalidSchema"@,
        ErrorCode::BadQuery => "BadQuery"@,
    }
}

/// The numeric value of an error category.
pub open spec fn error_code_number(c: ErrorCode) -> u32 {
    match c {
        ErrorCode::InvalidSchemaFile => 1,
        ErrorCode::InvalidSchema => 2,
        ErrorCode::BadQuery => 3,
    }
}

impl ErrorCode {
    /// The printed name (see `error_code_name`).
    pub fn name(&self) -> (r: &'static str)
        ensures
            r@ == error_code_name(*self),
    {
        match self {
            ErrorCode::InvalidSchemaFile => "InvalidSchemaFile",
            ErrorCode::InvalidSchema => "InvalidSchema",
            ErrorCode::BadQuery => "BadQuery",
        }
    }

    /// The numeric value (see `error_code_number`).
    pub fn number(&self) -> (r: u32)
        ensures
            r == error_code_number(*self),
    {
        match self {
            ErrorCode::InvalidSchemaFile => 1,
            ErrorCode::InvalidSchema => 2,
            ErrorCode::BadQuery => 3,
        }
    }
}

/// Log levels, from most to least severe.
#[derive(Debug, Clone, Copy, PartialEq, Eq, Structural)]
pub enum LogLevel {
    Error,
    Warn,
    Info,
    Debug,
    Trace,
}

/// The position of a level: `Error` first, `Trace` last.
pub open spec fn level_rank(l: LogLevel) -> nat {
    match l {
        LogLevel::Error => 0,
        LogLevel::Warn => 1,
        LogLevel::Info => 2,
        LogLevel::Debug => 3,
        LogLevel::Trace => 4,
    }
}

/// The level a name selects: exactly `Error`, `Warn`, `Info`, `Debug` or
/// `Trace`.
pub open spec fn level_of_name(s: Seq<char>) -> Option<LogLevel> {
    if s == "Error"@ {
        Some(LogLevel::Error)
    } else if s == "Warn"@ {
        Some(LogLevel::Warn)
    } else if s == "Info"@ {
        Some(LogLevel::Info)
    } else if s == "Debug"@ {
        Some(LogLevel::Debug)
    } else if s == "Trace"@ {
        Some(LogLevel::Trace)
    } else {
        None
    }
}

impl LogLevel {
    /// The level a name selects (see `level_of_name`).
    pub fn from_name(s: &str) -> (r: Result<LogLevel, ()>)
        ensures
            match r {
                Ok(l) => level_of_name(s@) == Some(l),
                Err(()) => level_of_name(s@) is None,
            },
    {
        if str_eq(s, "Error") {
            Ok(LogLevel::Error)
        } else if str_eq(s, "Warn") {
            Ok(LogLevel::Warn)
        } else if str_eq(s, "Info") {
            Ok(LogLevel::Info)
        } else if str_eq(s, "Debug") {
            Ok(LogLevel::Debug)
        } else if str_eq(s, "Trace") {
            Ok(LogLevel::Trace)
        } else {
            Err(())
        }
    }

    /// The position of the level (see `level_rank`).
    pub fn rank(&self) -> (r: u8)
        ensures
            r == level_rank(*self),
    {
        match self {
            LogLevel::Error => 0,
            LogLevel::Warn => 1,
            LogLevel::Info => 2,
            LogLevel::Debug => 3,
            LogLevel::Trace => 4,
        }
    }

    /// Whether debug output is shown at this configured level: at `Debug`
    /// and `Trace`.
    pub fn shows_debug(&self) -> (r: bool)
        ensures
            r == (level_rank(*self) >= level_rank(LogLevel::Debug)),
    {
        self.rank() >= 3
    }
}

} // verus!
