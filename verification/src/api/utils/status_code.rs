//! The status codes of responses.
use vstd::prelude::*;
use crate::codec::{decimal, to_decimal};
use crate::text::string_from_chars;

verus! {

/// An enum that holds the status code of a response.
///
/// # Supported status codes
///
/// - 200 Ok
/// - 201 Created
/// - 400 Bad Request
/// - 404 Not Found
/// - 409 Conflict
/// - 500 Internal Server Error
#[derive(Debug, PartialEq, Eq, Structural, Clone, Copy)]
pub enum StatusCode {
    OK,
    Created,
    BadRequest,
    NotFound,
    Conflict,
    InternalServerError,
}

/// An enum that holds the errors of a status code.
#[derive(Debug, PartialEq, Eq, Structural, Clone, Copy)]
pub enum Error {
    InvalidRequest,
    InvalidEncoding,
    InvalidProtocol,
    InvalidMethod,
}

/// The number of a status code.
pub open spec fn status_number(s: StatusCode) -> u16 {
    match s {
        StatusCode::OK => 200,
        StatusCode::Created => 201,
        StatusCode::BadRequest => 400,
        StatusCode::NotFound => 404,
        StatusCode::Conflict => 409,
        StatusCode::InternalServerError => 500,
    }
}

/// The reason phrase of a status code.
pub open spec fn reason(s: StatusCode) -> Seq<char> {
    match s {
        StatusCode::OK => seq!['O', 'k'],
        StatusCode::Created => seq!['C', 'r', 'e', 'a', 't', 'e', 'd'],
        StatusCode::BadRequest => seq!['B', 'a', 'd', ' ', 'R', 'e', 'q', 'u', 'e', 's', 't'],
        StatusCode::NotFound => seq!['N', 'o', 't', ' ', 'F', 'o', 'u', 'n', 'd'],
        StatusCode::Conflict => seq!['C', 'o', 'n', 'f', 'l', 'i', 'c', 't'],
        StatusCode::InternalServerError => seq![
            'I', 'n', 't', 'e', 'r', 'n', 'a', 'l', ' ', 'S', 'e', 'r', 'v', 'e', 'r', ' ', 'E', 'r', 'r', 'o', 'r',
        ],
    }
}

/// The status code of a number; 409 is not read back.
pub open spec fn status_of(code: u16) -> Option<StatusCode> {
    if code == 200 {
        Some(StatusCode::OK)
    } else if code == 201 {
        Some(StatusCode::Created)
    } else if code == 400 {
        Some(StatusCode::BadRequest)
    } else if code == 404 {
        Some(StatusCode::NotFound)
    } else if code == 500 {
        Some(StatusCode::InternalServerError)
    } else {
        None
    }
}

/// The status line text of a status code: its number and its reason.
pub open spec fn status_text(s: StatusCode) -> Seq<char> {
    decimal(status_number(s) as nat) + seq![' '] + reason(s)
}

impl StatusCode {
    /// Get the reason phrase of a status code.
    pub fn reason_phrase(&self) -> (phrase: String)
        ensures
            phrase@ == reason(*self),
    {
        let chars = match self {
            StatusCode::OK => vec!['O', 'k'],
            StatusCode::Created => vec!['C', 'r', 'e', 'a', 't', 'e', 'd'],
            StatusCode::BadRequest => vec!['B', 'a', 'd', ' ', 'R', 'e', 'q', 'u', 'e', 's', 't'],
            StatusCode::NotFound => vec!['N', 'o', 't', ' ', 'F', 'o', 'u', 'n', 'd'],
            StatusCode::Conflict => vec!['C', 'o', 'n', 'f', 'l', 'i', 'c', 't'],
            StatusCode::InternalServerError => vec![
                'I', 'n', 't', 'e', 'r', 'n', 'a', 'l', ' ', 'S', 'e', 'r', 'v', 'e', 'r', ' ', 'E', 'r', 'r', 'o', 'r',
            ],
        };
        assert(chars@ == reason(*self));
        string_from_chars(chars.as_slice())
    }

    /// Create a status code from a u16.
    pub fn from_u16(code: u16) -> (s: Result<StatusCode, Error>)
        ensures
            match s {
                Ok(c) => status_of(code) == Some(c),
                Err(e) => status_of(code) is None && e == Error::InvalidRequest,
            },
    {
        match code {
            200 => Ok(StatusCode::OK),
            201 => Ok(StatusCode::Created),
            400 => Ok(StatusCode::BadRequest),
            404 => Ok(StatusCode::NotFound),
            500 => Ok(StatusCode::InternalServerError),
            _ => Err(Error::InvalidRequest),
        }
    }

    /// Get the u16 value of a status code.
    pub fn to_u16(&self) -> (code: u16)
        ensures
            code == status_number(*self),
    {
        match self {
            StatusCode::OK => 200,
            StatusCode::Created => 201,
            StatusCode::BadRequest => 400,
            StatusCode::NotFound => 404,
            StatusCode::Conflict => 409,
            StatusCode::InternalServerError => 500,
        }
    }

    /// The number and the reason phrase, as a status line shows them.
    pub fn to_string(&self) -> (text: String)
        ensures
            text@ == status_text(*self),
    {
        let mut digits = to_decimal(self.to_u16() as usize);
        digits.push(' ');
        let phrase = self.reason_phrase();
        let mut text = string_from_chars(digits.as_slice());
        text.append(phrase.as_str());
        text
    }
}

/// A status code that is read back from its number is the same code;
/// only 409 is not read back.
pub proof fn law_status_code_roundtrip(s: StatusCode)
    ensures
        s != StatusCode::Conflict ==> status_of(status_number(s)) == Some(s),
        s == StatusCode::Conflict ==> status_of(status_number(s)) is None,
{
}

} // verus!
