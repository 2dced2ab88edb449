//! The error type of the HTTP handlers: a status, a short machine code and a
//! message for people.
use crate::text::copy_text;
use vstd::prelude::*;

verus! {

/// An error response.
#[derive(Debug)]
pub struct ApiError {
    pub status: u16,
    pub code: &'static str,
    pub message: String,
}

/// Whether an error has this status, code and message.
pub open spec fn is_error(e: ApiError, status: int, code: Seq<char>, message: Seq<char>) -> bool {
    e.status == status && e.code@ == code && e.message@ == message
}

impl ApiError {
    pub fn bad_request(code: &'static str, msg: &str) -> (r: ApiError)
        ensures
            is_error(r, 400, code@, msg@),
    {
        ApiError { status: 400, code, message: copy_text(msg) }
    }

    pub fn not_found(code: &'static str, msg: &str) -> (r: ApiError)
        ensures
            is_error(r, 404, code@, msg@),
    {
        ApiError { status: 404, code, message: copy_text(msg) }
    }

    pub fn unauthorized(code: &'static str, msg: &str) -> (r: ApiError)
        ensures
            is_error(r, 401, code@, msg@),
    {
        ApiError { status: 401, code, message: copy_text(msg) }
    }

    pub fn forbidden(code: &'static str, msg: &str) -> (r: ApiError)
        ensures
            is_error(r, 403, code@, msg@),
    {
        ApiError { status: 403, code, message: copy_text(msg) }
    }

    pub fn conflict(code: &'static str, msg: &str) -> (r: ApiError)
        ensures
            is_error(r, 409, code@, msg@),
    {
        ApiError { status: 409, code, message: copy_text(msg) }
    }

    pub fn internal(msg: &str) -> (r: ApiError)
        ensures
            is_error(r, 500, "internal"@, msg@),
    {
        ApiError { status: 500, code: "internal", message: copy_text(msg) }
    }

    /// An internal error with the part that failed in front of its cause.
    pub fn internal_from(part: &str, cause: &str) -> (r: ApiError)
        ensures
            is_error(r, 500, "internal"@, part@ + ": "@ + cause@),
    {
        let mut m: String = copy_text(part);
        m.push_str(": ");
        m.push_str(cause);
        ApiError { status: 500, code: "internal", message: m }
    }

    /// Whether the fault is the server's own.
    pub open spec fn is_server_fault(self) -> bool {
        500 <= self.status < 600
    }

    /// What the client is told: a server fault is not described to it.
    pub open spec fn told(self) -> Seq<char> {
        if self.is_server_fault() {
            "internal server error"@
        } else {
            self.message@
        }
    }

    /// The message that goes out. The detail of a server fault stays behind.
    pub fn public_message(&self) -> (r: String)
        ensures
            r@ == self.told(),
    {
        if 500 <= self.status && self.status < 600 {
            "internal server error".to_owned()
        } else {
            copy_text(self.message.as_str())
        }
    }

    /// The code and the message on one line.
    pub fn to_line(&self) -> (r: String)
        ensures
            r@ == self.code@ + ": "@ + self.message@,
    {
        let mut out: String = copy_text(self.code);
        out.push_str(": ");
        out.push_str(self.message.as_str());
        out
    }
}

/// What a server fault tells the client does not depend on its cause.
pub proof fn law_server_faults_tell_nothing(a: ApiError, b: ApiError)
    requires
        a.is_server_fault(),
        b.is_server_fault(),
    ensures
        a.told() == b.told(),
{
}

} // verus!
