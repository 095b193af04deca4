//! The getter's errors and the decisions around its one request.
use vstd::prelude::*;

use crate::text::{
    after_blank_line, body_after_blank_line, chars_of, decimal, parse_u16_at, parsed_u16,
    push_decimal, second_word, second_word_bounds,
};
use vstd::std_specs::cmp::PartialEqSpecImpl;
use vstd::string::StringExecFns;

verus! {

/// Why a get failed.
#[derive(Debug)]
pub enum GetterError {
    /// The server could not be reached, or its answer could not be read.
    Fetch { url: String },
    /// The server answered with a status other than 200.
    BadStatus { url: String, status: u16 },
}

impl PartialEq for GetterError {
    fn eq(&self, other: &Self) -> (r: bool) {
        match (self, other) {
            (GetterError::Fetch { url: a }, GetterError::Fetch { url: b }) => *a == *b,
            (
                GetterError::BadStatus { url: a, status: s },
                GetterError::BadStatus { url: b, status: t },
            ) => *a == *b && *s == *t,
            _ => false,
        }
    }
}

impl PartialEqSpecImpl for GetterError {
    open spec fn obeys_eq_spec() -> bool {
        true
    }

    open spec fn eq_spec(&self, other: &Self) -> bool {
        match (self, other) {
            (GetterError::Fetch { url: a }, GetterError::Fetch { url: b }) => a@ == b@,
            (
                GetterError::BadStatus { url: a, status: s },
                GetterError::BadStatus { url: b, status: t },
            ) => a@ == b@ && s == t,
            _ => false,
        }
    }
}

impl GetterError {
    /// What went wrong, in words.
    pub fn to_string(&self) -> (r: String)
        ensures
            r@ == match self {
                GetterError::Fetch { url } => "problem fetching from "@ + url@,
                GetterError::BadStatus { url, status } => "did not get 200 from "@ + url@
                    + ", got "@ + decimal(*status as nat),
            },
    {
        match self {
            GetterError::Fetch { url } => {
                let mut out = "problem fetching from ".to_string();
                out.append(url.as_str());
                out
            },
            GetterError::BadStatus { url, status } => {
                let mut out = "did not get 200 from ".to_string();
                out.append(url.as_str());
                out.append(", got ");
                push_decimal(&mut out, *status as u64);
                out
            },
        }
    }
}

/// The status and body of a raw HTTP response: the status is its second
/// word read as a number, the body whatever follows the first blank line.
pub open spec fn response_parts(response: Seq<char>) -> Option<(u16, Seq<char>)> {
    match second_word(response) {
        Some(word) => match parsed_u16(word) {
            Some(status) => Some((status, after_blank_line(response))),
            None => None,
        },
        None => None,
    }
}

/// The status and body of a raw HTTP response, or `None` where it has no
/// status line.
pub fn read_response(response: &str) -> (r: Option<(u16, String)>)
    ensures
        r matches Some((status, body)) ==> response_parts(response@) == Some((status, body@)),
        r is None ==> response_parts(response@) is None,
{
    let cs = chars_of(response);
    match second_word_bounds(&cs) {
        Some((a, b)) => match parse_u16_at(&cs, a, b) {
            Some(status) => Some((status, body_after_blank_line(response))),
            None => None,
        },
        None => None,
    }
}

/// What a get of `addr` gives once the request is over: an unreadable
/// exchange is a `Fetch` error, a status other than 200 a `BadStatus`
/// error, and a 200 its body.
pub fn outcome(addr: &str, fetched: Option<(u16, String)>) -> (r: Result<String, GetterError>)
    ensures
        fetched is None ==> (r matches Err(GetterError::Fetch { url }) && url@ == addr@),
        fetched matches Some((status, body)) ==> if status == 200 {
            (r matches Ok(b) && b@ == body@)
        } else {
            (r matches Err(GetterError::BadStatus { url, status: s }) && url@ == addr@ && s
                == status)
        },
{
    match fetched {
        None => Err(GetterError::Fetch { url: addr.to_string() }),
        Some((status, body)) => {
            if status != 200 {
                Err(GetterError::BadStatus { url: addr.to_string(), status })
            } else {
                Ok(body)
            }
        },
    }
}

} // verus!
