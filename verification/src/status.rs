//! The HTTP statuses that the server answers with.
use vstd::prelude::*;

verus! {

#[derive(Clone, Copy, Debug, PartialEq, Eq, Structural)]
pub enum StatusCode {
    Success,
    BadRequest,
    Forbidden,
    NotFound,
    MethodNotAllowed,
    PayloadTooLarge,
    InternalServerError,
}

/// The number of a status.
pub open spec fn status_number(s: StatusCode) -> u16 {
    match s {
        StatusCode::Success => 200,
        StatusCode::BadRequest => 400,
        StatusCode::Forbidden => 403,
        StatusCode::NotFound => 404,
        StatusCode::MethodNotAllowed => 405,
        StatusCode::PayloadTooLarge => 413,
        StatusCode::InternalServerError => 500,
    }
}

/// The reason phrase of a status.
pub open spec fn reason(s: StatusCode) -> Seq<char> {
    match s {
        StatusCode::Success => "OK"@,
        StatusCode::BadRequest => "Bad Request"@,
        StatusCode::Forbidden => "Forbidden"@,
        StatusCode::NotFound => "Not Found"@,
        StatusCode::MethodNotAllowed => "Method Not Allowed"@,
        StatusCode::PayloadTooLarge => "Payload Too Large"@,
        StatusCode::InternalServerError => "Internal Server Error"@,
    }
}

impl StatusCode {
    /// The number of this status.
    pub fn code(self) -> (r: u16)
        ensures
            r == status_number(self),
    {
        match self {
            StatusCode::Success => 200,
            StatusCode::BadRequest => 400,
            StatusCode::Forbidden => 403,
            StatusCode::NotFound => 404,
            StatusCode::MethodNotAllowed => 405,
            StatusCode::PayloadTooLarge => 413,
            StatusCode::InternalServerError => 500,
        }
    }

    /// The reason phrase of this status.
    pub fn phrase(self) -> (r: &'static str)
        ensures
            r@ == reason(self),
    {
        match self {
            StatusCode::Success => "OK",
            StatusCode::BadRequest => "Bad Request",
            StatusCode::Forbidden => "Forbidden",
            StatusCode::NotFound => "Not Found",
            StatusCode::MethodNotAllowed => "Method Not Allowed",
            StatusCode::PayloadTooLarge => "Payload Too Large",
            StatusCode::InternalServerError => "Internal Server Error",
        }
    }
}

/// No two statuses share a number.
pub proof fn numbers_tell_statuses_apart(a: StatusCode, b: StatusCode)
    ensures
        status_number(a) == status_number(b) ==> a == b,
{
}

/// Each status has the number and the phrase that HTTP gives it.
pub proof fn statuses_are_those_of_http(s: StatusCode)
    ensures
        (status_number(s), reason(s)) == (match s {
            StatusCode::Success => (200u16, "OK"@),
            StatusCode::BadRequest => (400u16, "Bad Request"@),
            StatusCode::Forbidden => (403u16, "Forbidden"@),
            StatusCode::NotFound => (404u16, "Not Found"@),
            StatusCode::MethodNotAllowed => (405u16, "Method Not Allowed"@),
            StatusCode::PayloadTooLarge => (413u16, "Payload Too Large"@),
            StatusCode::InternalServerError => (500u16, "Internal Server Error"@),
        }),
{
}

} // verus!
