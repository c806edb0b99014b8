//! The two requests that the server answers: one for a fresh room code, one
//! that opens a signaling connection into a room.

use vstd::prelude::*;
use vstd::string::*;

use crate::code::{generate, is_valid, is_valid_code};

verus! {

/// Why a request for a signaling connection is turned down.
#[derive(Clone, Copy, Debug, PartialEq, Eq, Structural)]
pub enum Rejection {
    /// The request names no room code.
    MissingCode,
    /// The room code of the request is not well formed.
    InvalidCode,
}

/// The status with which a request is turned down.
pub const BAD_REQUEST: u16 = 400;

/// The text that tells a client why its request was turned down.
pub open spec fn rejection_text(rejection: Rejection) -> Seq<char> {
    match rejection {
        Rejection::MissingCode => "missing query parameter 'code'"@,
        Rejection::InvalidCode => "invalid query parameter 'code'"@,
    }
}

impl Rejection {
    /// The status of the response.
    pub fn status(&self) -> (status: u16)
        ensures
            status == 400,
    {
        BAD_REQUEST
    }

    /// The diagnostic that the response carries.
    pub fn message(&self) -> (text: String)
        ensures
            text@ == rejection_text(*self),
    {
        match self {
            Rejection::MissingCode => String::from_str("missing query parameter 'code'"),
            Rejection::InvalidCode => String::from_str("invalid query parameter 'code'"),
        }
    }
}

/// Answers a request for a room code with a freshly generated one.
pub fn code_handler() -> (code: String)
    ensures
        is_valid_code(code@),
{
    generate()
}

/// Decides on a request for a signaling connection from the room code that
/// it names, if it names one: the connection is opened for a well-formed
/// code and turned down otherwise.
pub fn signal_handler(code: Option<String>) -> (admitted: Result<String, Rejection>)
    ensures
        admitted == (match code {
            None => Err::<String, Rejection>(Rejection::MissingCode),
            Some(code) => if is_valid_code(code@) {
                Ok::<String, Rejection>(code)
            } else {
                Err::<String, Rejection>(Rejection::InvalidCode)
            },
        }),
{
    match code {
        None => Err(Rejection::MissingCode),
        Some(code) => {
            if is_valid(code.as_str()) {
                Ok(code)
            } else {
                Err(Rejection::InvalidCode)
            }
        },
    }
}

} // verus!
