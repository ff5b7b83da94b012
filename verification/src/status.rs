//! HTTP status codes.

use vstd::prelude::*;

verus! {

/// A status code: a number from 100 to 999.
#[derive(Debug, Clone, Copy, PartialEq, Eq)]
pub struct StatusCode {
    code: u16,
}

/// The numbers that are status codes.
pub open spec fn is_status(code: u16) -> bool {
    100 <= code <= 999
}

/// The codes that say that a request succeeded.
pub open spec fn is_success(code: u16) -> bool {
    200 <= code <= 299
}

/// The codes that blame the server.
pub open spec fn is_server_error(code: u16) -> bool {
    500 <= code <= 599
}

impl View for StatusCode {
    type V = u16;

    closed spec fn view(&self) -> u16 {
        self.code
    }
}

/// A status code as it is written in messages: its number and its reason phrase.
pub uninterp spec fn status_line(code: u16) -> Seq<char>;

/// The `Display` of `http::StatusCode` writes the number and the reason phrase that belongs to
/// it; [`status_line`] names the text, which depends on the number alone. `from_u16` accepts the
/// numbers from 100 to 999.
#[verifier::external_body]
fn print_status(code: u16) -> (res: String)
    requires
        is_status(code),
    ensures
        res@ == status_line(code),
{
    http::StatusCode::from_u16(code).unwrap().to_string()
}

impl StatusCode {
    #[verifier::type_invariant]
    spec fn in_range(self) -> bool {
        is_status(self.code)
    }

    /// The status code with the given number, where there is one.
    pub fn from_u16(code: u16) -> (res: Option<StatusCode>)
        ensures
            res is Some <==> is_status(code),
            res is Some ==> res->0@ == code,
    {
        if 100 <= code && code <= 999 {
            Some(StatusCode { code })
        } else {
            None
        }
    }

    /// The status code with the given number.
    pub(crate) fn of(code: u16) -> (res: StatusCode)
        requires
            is_status(code),
        ensures
            res@ == code,
    {
        StatusCode { code }
    }

    pub fn as_u16(&self) -> (res: u16)
        ensures
            res == self@,
            is_status(res),
    {
        proof {
            use_type_invariant(self);
        }
        self.code
    }

    pub fn is_success(&self) -> (res: bool)
        ensures
            res == is_success(self@),
    {
        200 <= self.code && self.code <= 299
    }

    pub fn is_server_error(&self) -> (res: bool)
        ensures
            res == is_server_error(self@),
    {
        500 <= self.code && self.code <= 599
    }

    /// The number and the reason phrase.
    pub fn to_text(&self) -> (res: String)
        ensures
            res@ == status_line(self@),
    {
        proof {
            use_type_invariant(self);
        }
        print_status(self.code)
    }
}

/// Success is told by the codes that start with 2, the blame of the server by those that start with
/// 5, and every number of three digits is a code.
pub proof fn law_first_digit_decides(code: u16)
    ensures
        is_success(code) <==> code / 100 == 2,
        is_server_error(code) <==> code / 100 == 5,
        is_status(code) <==> 1 <= code / 100 <= 9,
{
}

} // verus!
