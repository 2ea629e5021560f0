//! The closed set of HTTP methods that an event records, and its small-integer
//! encoding.

use vstd::prelude::*;

verus! {

#[derive(Debug, Clone, Copy, PartialEq, Eq, Structural)]
pub enum Method {
    GET,
    HEAD,
    POST,
    PUT,
    DELETE,
    CONNECT,
    OPTIONS,
    TRACE,
    PATCH,
    /// Stands for any method text that names none of the others.
    INVALID,
}

/// The method that the text names, or `INVALID` when it names none.
pub open spec fn method_of_text(t: Seq<char>) -> Method {
    if t == "GET"@ {
        Method::GET
    } else if t == "HEAD"@ {
        Method::HEAD
    } else if t == "POST"@ {
        Method::POST
    } else if t == "PUT"@ {
        Method::PUT
    } else if t == "DELETE"@ {
        Method::DELETE
    } else if t == "CONNECT"@ {
        Method::CONNECT
    } else if t == "OPTIONS"@ {
        Method::OPTIONS
    } else if t == "TRACE"@ {
        Method::TRACE
    } else if t == "PATCH"@ {
        Method::PATCH
    } else {
        Method::INVALID
    }
}

/// The method that a stored code stands for; codes outside 1..=9 read as `INVALID`.
pub open spec fn method_of_code(c: u8) -> Method {
    if c == 1 {
        Method::GET
    } else if c == 2 {
        Method::HEAD
    } else if c == 3 {
        Method::POST
    } else if c == 4 {
        Method::PUT
    } else if c == 5 {
        Method::DELETE
    } else if c == 6 {
        Method::CONNECT
    } else if c == 7 {
        Method::OPTIONS
    } else if c == 8 {
        Method::TRACE
    } else if c == 9 {
        Method::PATCH
    } else {
        Method::INVALID
    }
}

impl Method {
    /// The code under which the method is stored.
    pub open spec fn code(self) -> u8 {
        match self {
            Method::GET => 1,
            Method::HEAD => 2,
            Method::POST => 3,
            Method::PUT => 4,
            Method::DELETE => 5,
            Method::CONNECT => 6,
            Method::OPTIONS => 7,
            Method::TRACE => 8,
            Method::PATCH => 9,
            Method::INVALID => 10,
        }
    }

    pub fn to_int(&self) -> (r: u8)
        ensures
            r == self.code(),
            1 <= r <= 10,
            method_of_code(r) == *self,
    {
        match self {
            Method::GET => 1,
            Method::HEAD => 2,
            Method::POST => 3,
            Method::PUT => 4,
            Method::DELETE => 5,
            Method::CONNECT => 6,
            Method::OPTIONS => 7,
            Method::TRACE => 8,
            Method::PATCH => 9,
            Method::INVALID => 10,
        }
    }

    pub fn from_int(code: u8) -> (r: Method)
        ensures
            r == method_of_code(code),
    {
        match code {
            1 => Method::GET,
            2 => Method::HEAD,
            3 => Method::POST,
            4 => Method::PUT,
            5 => Method::DELETE,
            6 => Method::CONNECT,
            7 => Method::OPTIONS,
            8 => Method::TRACE,
            9 => Method::PATCH,
            _ => Method::INVALID,
        }
    }

    /// Normalises free method text; text that names no method gives `INVALID`
    /// rather than an error, so that an odd method never blocks recording.
    pub fn from_text(text: &str) -> (r: Method)
        ensures
            r == method_of_text(text@),
    {
        if text_eq(text, "GET") {
            Method::GET
        } else if text_eq(text, "HEAD") {
            Method::HEAD
        } else if text_eq(text, "POST") {
            Method::POST
        } else if text_eq(text, "PUT") {
            Method::PUT
        } else if text_eq(text, "DELETE") {
            Method::DELETE
        } else if text_eq(text, "CONNECT") {
            Method::CONNECT
        } else if text_eq(text, "OPTIONS") {
            Method::OPTIONS
        } else if text_eq(text, "TRACE") {
            Method::TRACE
        } else if text_eq(text, "PATCH") {
            Method::PATCH
        } else {
            Method::INVALID
        }
    }
}

fn text_eq(a: &str, b: &str) -> (r: bool)
    ensures
        r == (a@ == b@),
{
    a.to_owned() == b.to_owned()
}

} // verus!
