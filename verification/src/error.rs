//! What can go wrong in the engine.
use vstd::prelude::*;

use crate::text;

verus! {

/// The kinds of I/O failure that the engine tells apart.
#[derive(Clone, Copy, Debug, PartialEq, Eq, Structural)]
pub enum IoErrorKind {
    NotFound,
    PermissionDenied,
    InvalidData,
    Other,
}

/// Engine-level error.
#[derive(Debug, PartialEq, Eq)]
pub enum EngineError {
    /// A low-level Core primitive failed: the raw OS error code and the name of
    /// the operation.
    Core { code: i32, op: &'static str },
    /// Local filesystem or OS I/O failed outside a Core primitive.
    Io { kind: IoErrorKind, message: String },
    /// Runtime was started more than once.
    AlreadyStarted,
    /// Runtime has not been started.
    NotStarted,
    /// Engine configuration failed validation before runtime start.
    InvalidConfig { field: &'static str, reason: &'static str },
}

/// What the text of a Core failure is.
pub open spec fn core_text(code: int, op: Seq<char>) -> Seq<char> {
    op + " failed (code="@ + text::signed_decimal(code) + ")"@
}

/// The model of an error: the same with texts as character sequences.
pub enum ErrorModel {
    Core { code: i32, op: Seq<char> },
    Io { kind: IoErrorKind, message: Seq<char> },
    AlreadyStarted,
    NotStarted,
    InvalidConfig { field: Seq<char>, reason: Seq<char> },
}

impl ErrorModel {
    /// The text that tells the error.
    pub open spec fn text(self) -> Seq<char> {
        match self {
            ErrorModel::Core { code, op } => core_text(code as int, op),
            ErrorModel::Io { kind, message } => message,
            ErrorModel::AlreadyStarted => "runtime already started"@,
            ErrorModel::NotStarted => "runtime not started"@,
            ErrorModel::InvalidConfig { field, reason } => "invalid config ("@ + field + ": "@
                + reason + ")"@,
        }
    }
}

/// `CoreError::sys` and the `Display` of the error that it makes: the name of
/// the operation, then ` failed (code=`, the code in decimal and `)`.
#[verifier::external_body]
fn core_error_text(code: i32, op: &'static str) -> (r: String)
    ensures
        r@ == core_text(code as int, op@),
{
    coreshift_core::CoreError::sys(code, op).to_string()
}

impl View for EngineError {
    type V = ErrorModel;

    open spec fn view(&self) -> ErrorModel {
        match *self {
            EngineError::Core { code, op } => ErrorModel::Core { code, op: op@ },
            EngineError::Io { kind, message } => ErrorModel::Io { kind, message: message@ },
            EngineError::AlreadyStarted => ErrorModel::AlreadyStarted,
            EngineError::NotStarted => ErrorModel::NotStarted,
            EngineError::InvalidConfig { field, reason } => ErrorModel::InvalidConfig {
                field: field@,
                reason: reason@,
            },
        }
    }
}

impl Clone for EngineError {
    fn clone(&self) -> (r: Self)
        ensures
            r@ == self@,
    {
        match self {
            EngineError::Core { code, op } => EngineError::Core { code: *code, op: *op },
            EngineError::Io { kind, message } => EngineError::Io {
                kind: *kind,
                message: message.clone(),
            },
            EngineError::AlreadyStarted => EngineError::AlreadyStarted,
            EngineError::NotStarted => EngineError::NotStarted,
            EngineError::InvalidConfig { field, reason } => EngineError::InvalidConfig {
                field: *field,
                reason: *reason,
            },
        }
    }
}

impl EngineError {
    /// A configuration error.
    pub fn invalid_config(field: &'static str, reason: &'static str) -> (r: EngineError)
        ensures
            r == (EngineError::InvalidConfig { field, reason }),
    {
        EngineError::InvalidConfig { field, reason }
    }

    /// An I/O error.
    pub fn io(kind: IoErrorKind, message: &str) -> (r: EngineError)
        ensures
            r@ == (ErrorModel::Io { kind, message: message@ }),
    {
        EngineError::Io { kind, message: message.to_owned() }
    }

    /// Whether the error says that a file was not found.
    pub fn is_not_found(&self) -> (r: bool)
        ensures
            r == (self@ matches ErrorModel::Io { kind, .. } && kind == IoErrorKind::NotFound),
    {
        match self {
            EngineError::Io { kind, .. } => *kind == IoErrorKind::NotFound,
            _ => false,
        }
    }

    /// The raw OS error code of a Core failure.
    pub fn raw_os_error(&self) -> (r: Option<i32>)
        ensures
            r == match self@ {
                ErrorModel::Core { code, .. } => Some(code),
                _ => None,
            },
    {
        match self {
            EngineError::Core { code, .. } => Some(*code),
            _ => None,
        }
    }

    /// The text that tells the error.
    pub fn text(&self) -> (r: String)
        ensures
            r@ == self@.text(),
    {
        match self {
            EngineError::Core { code, op } => core_error_text(*code, *op),
            EngineError::Io { kind: _, message } => message.clone(),
            EngineError::AlreadyStarted => "runtime already started".to_owned(),
            EngineError::NotStarted => "runtime not started".to_owned(),
            EngineError::InvalidConfig { field, reason } => {
                let mut r = "invalid config (".to_owned();
                text::push_str(&mut r, *field);
                text::push_str(&mut r, ": ");
                text::push_str(&mut r, *reason);
                text::push_str(&mut r, ")");
                r
            },
        }
    }
}

/// The words of an error: those of an I/O failure are its message; a Core failure is
/// told by its operation and its code, a refused configuration by its field and what
/// is wrong with it.
pub proof fn law_error_is_told(
    code: i32,
    op: Seq<char>,
    kind: IoErrorKind,
    message: Seq<char>,
    field: Seq<char>,
    reason: Seq<char>,
)
    ensures
        (ErrorModel::Io { kind, message }).text() == message,
        (ErrorModel::Core { code, op }).text() == op + " failed (code="@ + text::signed_decimal(
            code as int,
        ) + ")"@,
        (ErrorModel::InvalidConfig { field, reason }).text() == "invalid config ("@ + field + ": "@
            + reason + ")"@,
        ErrorModel::AlreadyStarted.text() == "runtime already started"@,
        ErrorModel::NotStarted.text() == "runtime not started"@,
{
}

} // verus!
