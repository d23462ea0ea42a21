//! The library's error type and what a client is told about each error.

use vstd::prelude::*;

verus! {

/// The body of every response to an internal error.
pub const INTERNAL_MESSAGE: &'static str = "Odium's influence has blocked your request";

/// HTTP status of a response to a request the client got wrong.
pub const STATUS_BAD_REQUEST: u16 = 400;

/// HTTP status of a response to a request that collided with stored data.
pub const STATUS_CONFLICT: u16 = 409;

/// HTTP status of a response to an internal failure.
pub const STATUS_INTERNAL: u16 = 500;

/// Everything that can go wrong. Each variant that wraps a failure of an
/// outside component holds that failure's message.
pub enum Error {
    Bcrypt(String),
    CborDe(String),
    CborSer(String),
    Format(String),
    Io(String),
    Join(String),
    MediaWiki(String),
    Sched(String),
    SessionStore(String),
    /// A database failure; `unique_violation` is set when it broke a
    /// uniqueness constraint.
    Sql { message: String, unique_violation: bool },
    Utf8,
    /// An internal failure described in words.
    String(String),
    /// A request the client got wrong, with the message it is shown.
    User(String),
}

impl Error {
    /// The message of the error, as it is logged.
    pub open spec fn message_spec(&self) -> Seq<char> {
        match self {
            Error::Bcrypt(m) => "Password encryption/decryption error: "@ + m@,
            Error::CborDe(m) => "Deserialization error: "@ + m@,
            Error::CborSer(m) => "Serialization error: "@ + m@,
            Error::Format(m) => "Formatting error: "@ + m@,
            Error::Io(m) => "I/O error: "@ + m@,
            Error::Join(m) => "Tokio join error: "@ + m@,
            Error::MediaWiki(m) => "Coppermind error: "@ + m@,
            Error::Sched(m) => "Scheduler error: "@ + m@,
            Error::SessionStore(m) => "Error storing sessions: "@ + m@,
            Error::Sql { message, .. } => "Database error: "@ + message@,
            Error::Utf8 => "Invalid UTF-8 encountered"@,
            Error::String(m) => m@,
            Error::User(m) => m@,
        }
    }

    /// The HTTP status a client receives for the error.
    pub open spec fn status_spec(&self) -> u16 {
        match self {
            Error::Sql { unique_violation, .. } if *unique_violation => STATUS_CONFLICT,
            Error::User(_) => STATUS_BAD_REQUEST,
            _ => STATUS_INTERNAL,
        }
    }

    /// The body a client receives for the error.
    pub open spec fn body_spec(&self) -> Seq<char> {
        match self {
            Error::Sql { unique_violation, .. } if *unique_violation => Seq::empty(),
            Error::User(m) => m@,
            _ => INTERNAL_MESSAGE@,
        }
    }

    /// The message of the error, as it is logged.
    pub fn message(&self) -> (r: String)
        ensures
            r@ == self.message_spec(),
    {
        match self {
            Error::Bcrypt(m) => String::from_str("Password encryption/decryption error: ").concat(
                m.as_str(),
            ),
            Error::CborDe(m) => String::from_str("Deserialization error: ").concat(m.as_str()),
            Error::CborSer(m) => String::from_str("Serialization error: ").concat(m.as_str()),
            Error::Format(m) => String::from_str("Formatting error: ").concat(m.as_str()),
            Error::Io(m) => String::from_str("I/O error: ").concat(m.as_str()),
            Error::Join(m) => String::from_str("Tokio join error: ").concat(m.as_str()),
            Error::MediaWiki(m) => String::from_str("Coppermind error: ").concat(m.as_str()),
            Error::Sched(m) => String::from_str("Scheduler error: ").concat(m.as_str()),
            Error::SessionStore(m) => String::from_str("Error storing sessions: ").concat(
                m.as_str(),
            ),
            Error::Sql { message, .. } => String::from_str("Database error: ").concat(
                message.as_str(),
            ),
            Error::Utf8 => String::from_str("Invalid UTF-8 encountered"),
            Error::String(m) => m.clone(),
            Error::User(m) => m.clone(),
        }
    }

    /// The HTTP status a client receives for the error: 409 for a broken
    /// uniqueness constraint, 400 for a request the client got wrong, 500
    /// for everything else.
    pub fn status(&self) -> (r: u16)
        ensures
            r == self.status_spec(),
    {
        match self {
            Error::Sql { unique_violation, .. } if *unique_violation => STATUS_CONFLICT,
            Error::User(_) => STATUS_BAD_REQUEST,
            _ => STATUS_INTERNAL,
        }
    }

    /// The body a client receives for the error: nothing for a conflict, the
    /// message itself for a request the client got wrong, and one fixed
    /// sentence for every internal failure, so that no detail of it leaks.
    pub fn body(&self) -> (r: String)
        ensures
            r@ == self.body_spec(),
    {
        match self {
            Error::Sql { unique_violation, .. } if *unique_violation => String::new(),
            Error::User(m) => m.clone(),
            _ => String::from_str(INTERNAL_MESSAGE),
        }
    }
}

} // verus!

verus! {

/// Every response to an internal failure is a 500 with the same fixed body,
/// so nothing of the failure reaches the client; a request the client got
/// wrong is a 400 that echoes its message.
pub proof fn lemma_internal_errors_hide_detail(e: Error)
    ensures
        e.status_spec() == STATUS_INTERNAL ==> e.body_spec() == INTERNAL_MESSAGE@,
        e.status_spec() == STATUS_BAD_REQUEST <==> e is User,
        e matches Error::User(m) ==> e.body_spec() == m@,
        e.status_spec() == STATUS_CONFLICT ==> e.body_spec().len() == 0,
{
}

} // verus!
