//! One error type for the whole surface: what a caller is told, and under which status.

use vstd::prelude::*;
use vstd::string::*;

verus! {

/// Why a request was not served.
#[derive(Clone, Debug)]
pub enum ApiError {
    /// The addressed row does not exist.
    NotFound(String),
    /// The caller's payload is wrong: an answer key that does not match its item's
    /// kind, a prerequisite edge that would close a cycle.
    BadRequest(String),
    /// The row exists but is not in a state that admits this: deciding a candidate that
    /// was already decided, answering an item in a finished session.
    Conflict(String),
    /// A route that is not built yet.
    NotImplemented(String),
    /// A dependency outside this process failed.
    Upstream(String),
    /// A dependency this route needs is not connected.
    Unavailable(String),
    /// Anything else. The cause is for the log alone.
    Internal(String),
}

impl ApiError {
    /// The addressed row does not exist.
    pub fn not_found(what: &str) -> (error: Self)
        ensures
            error matches ApiError::NotFound(m) && m@ == what@,
    {
        ApiError::NotFound(what.to_owned())
    }

    /// The caller's payload is wrong.
    pub fn bad_request(why: &str) -> (error: Self)
        ensures
            error matches ApiError::BadRequest(m) && m@ == why@,
    {
        ApiError::BadRequest(why.to_owned())
    }

    /// The row is not in a state that admits this.
    pub fn conflict(why: &str) -> (error: Self)
        ensures
            error matches ApiError::Conflict(m) && m@ == why@,
    {
        ApiError::Conflict(why.to_owned())
    }

    /// The route is not built yet.
    pub fn not_implemented(what: &str) -> (error: Self)
        ensures
            error matches ApiError::NotImplemented(m) && m@ == what@,
    {
        ApiError::NotImplemented(what.to_owned())
    }

    /// A dependency outside this process failed.
    pub fn upstream(what: &str) -> (error: Self)
        ensures
            error matches ApiError::Upstream(m) && m@ == what@,
    {
        ApiError::Upstream(what.to_owned())
    }

    /// The word that clients branch on.
    pub open spec fn code_word(&self) -> Seq<char> {
        match self {
            ApiError::NotFound(_) => "not_found"@,
            ApiError::BadRequest(_) => "bad_request"@,
            ApiError::Conflict(_) => "conflict"@,
            ApiError::NotImplemented(_) => "not_implemented"@,
            ApiError::Upstream(_) => "upstream_error"@,
            ApiError::Unavailable(_) => "unavailable"@,
            ApiError::Internal(_) => "internal_error"@,
        }
    }

    /// The HTTP status.
    pub open spec fn status_number(&self) -> u16 {
        match self {
            ApiError::NotFound(_) => 404,
            ApiError::BadRequest(_) => 400,
            ApiError::Conflict(_) => 409,
            ApiError::NotImplemented(_) => 501,
            ApiError::Upstream(_) => 502,
            ApiError::Unavailable(_) => 503,
            ApiError::Internal(_) => 500,
        }
    }

    /// The whole message, for the log.
    pub open spec fn text(&self) -> Seq<char> {
        match self {
            ApiError::NotFound(m) => m@ + " not found"@,
            ApiError::BadRequest(m) => m@,
            ApiError::Conflict(m) => m@,
            ApiError::Upstream(m) => m@,
            ApiError::Unavailable(m) => m@,
            ApiError::NotImplemented(m) => m@ + " is not implemented yet"@,
            ApiError::Internal(m) => m@,
        }
    }

    /// What the client is told. The cause of an internal error is not part of it.
    pub open spec fn shown(&self) -> Seq<char> {
        match self {
            ApiError::Internal(_) => "internal error"@,
            _ => self.text(),
        }
    }

    /// The stable word that clients branch on, whatever the message says.
    pub fn code(&self) -> (word: &'static str)
        ensures
            word@ == self.code_word(),
    {
        match self {
            ApiError::NotFound(_) => "not_found",
            ApiError::BadRequest(_) => "bad_request",
            ApiError::Conflict(_) => "conflict",
            ApiError::NotImplemented(_) => "not_implemented",
            ApiError::Upstream(_) => "upstream_error",
            ApiError::Unavailable(_) => "unavailable",
            ApiError::Internal(_) => "internal_error",
        }
    }

    /// The HTTP status.
    pub fn status(&self) -> (status: u16)
        ensures
            status == self.status_number(),
            status == 404 <==> self is NotFound,
            status == 400 <==> self is BadRequest,
            status == 409 <==> self is Conflict,
            status == 501 <==> self is NotImplemented,
            status == 502 <==> self is Upstream,
            status == 503 <==> self is Unavailable,
            status == 500 <==> self is Internal,
    {
        match self {
            ApiError::NotFound(_) => 404,
            ApiError::BadRequest(_) => 400,
            ApiError::Conflict(_) => 409,
            ApiError::NotImplemented(_) => 501,
            ApiError::Upstream(_) => 502,
            ApiError::Unavailable(_) => 503,
            ApiError::Internal(_) => 500,
        }
    }

    /// The whole message, for the log.
    pub fn to_string(&self) -> (message: String)
        ensures
            message@ == self.text(),
    {
        match self {
            ApiError::NotFound(m) => {
                let mut message: String = m.clone();
                message.append(" not found");
                message
            },
            ApiError::NotImplemented(m) => {
                let mut message: String = m.clone();
                message.append(" is not implemented yet");
                message
            },
            ApiError::BadRequest(m) => m.clone(),
            ApiError::Conflict(m) => m.clone(),
            ApiError::Upstream(m) => m.clone(),
            ApiError::Unavailable(m) => m.clone(),
            ApiError::Internal(m) => m.clone(),
        }
    }

    /// What the client is told.
    pub fn client_message(&self) -> (message: String)
        ensures
            message@ == self.shown(),
            self is Internal ==> message@ == "internal error"@,
            self matches ApiError::NotFound(m) ==> message@ == m@ + " not found"@,
            self matches ApiError::BadRequest(m) ==> message@ == m@,
            self matches ApiError::Conflict(m) ==> message@ == m@,
            self matches ApiError::Upstream(m) ==> message@ == m@,
            self matches ApiError::Unavailable(m) ==> message@ == m@,
            self matches ApiError::NotImplemented(m) ==> message@ == m@
                + " is not implemented yet"@,
    {
        match self {
            ApiError::Internal(_) => "internal error".to_owned(),
            _ => self.to_string(),
        }
    }
}

/// Two internal errors look the same to a client, whatever caused them.
pub proof fn internal_causes_do_not_show(a: ApiError, b: ApiError)
    requires
        a is Internal,
        b is Internal,
    ensures
        a.shown() == b.shown(),
        a.code_word() == b.code_word(),
        a.status_number() == b.status_number(),
{
}

/// Each kind of error has a word, a status and a text of its own, by which a client can branch.
pub proof fn each_error_has_its_word(error: ApiError)
    ensures
        error is NotFound ==> error.code_word() == "not_found"@ && error.status_number() == 404,
        error is BadRequest ==> error.code_word() == "bad_request"@ && error.status_number() == 400,
        error is Conflict ==> error.code_word() == "conflict"@ && error.status_number() == 409,
        error is NotImplemented ==> error.code_word() == "not_implemented"@
            && error.status_number() == 501,
        error is Upstream ==> error.code_word() == "upstream_error"@ && error.status_number() == 502,
        error is Unavailable ==> error.code_word() == "unavailable"@ && error.status_number() == 503,
        error is Internal ==> error.code_word() == "internal_error"@ && error.status_number() == 500,
        error is Internal ==> error.shown() == "internal error"@,
        !(error is Internal) ==> error.shown() == error.text(),
{
}

} // verus!
