//! The HTTP methods a document may name, matched case-insensitively.

use vstd::prelude::*;

use crate::text::seq_eq_ci;
use crate::text::str_eq_ci;

verus! {

/// An HTTP method supported by the request schema.
#[allow(clippy::upper_case_acronyms)]
#[derive(Debug, Clone, Copy, PartialEq, Eq, Structural)]
pub enum Method {
    GET,
    POST,
    PUT,
    PATCH,
    DELETE,
    HEAD,
    OPTIONS,
    CONNECT,
    TRACE,
    QUERY,
}

/// The method a text names, matched without regard to ASCII case; nothing
/// when the text names none.
pub open spec fn spec_method_of(s: Seq<char>) -> Option<Method> {
    if seq_eq_ci(s, "GET"@) {
        Some(Method::GET)
    } else if seq_eq_ci(s, "POST"@) {
        Some(Method::POST)
    } else if seq_eq_ci(s, "PUT"@) {
        Some(Method::PUT)
    } else if seq_eq_ci(s, "PATCH"@) {
        Some(Method::PATCH)
    } else if seq_eq_ci(s, "DELETE"@) {
        Some(Method::DELETE)
    } else if seq_eq_ci(s, "HEAD"@) {
        Some(Method::HEAD)
    } else if seq_eq_ci(s, "OPTIONS"@) {
        Some(Method::OPTIONS)
    } else if seq_eq_ci(s, "CONNECT"@) {
        Some(Method::CONNECT)
    } else if seq_eq_ci(s, "TRACE"@) {
        Some(Method::TRACE)
    } else if seq_eq_ci(s, "QUERY"@) {
        Some(Method::QUERY)
    } else {
        None
    }
}

/// The upper-case name of a method.
pub open spec fn spec_method_name(m: Method) -> Seq<char> {
    match m {
        Method::GET => "GET"@,
        Method::POST => "POST"@,
        Method::PUT => "PUT"@,
        Method::PATCH => "PATCH"@,
        Method::DELETE => "DELETE"@,
        Method::HEAD => "HEAD"@,
        Method::OPTIONS => "OPTIONS"@,
        Method::CONNECT => "CONNECT"@,
        Method::TRACE => "TRACE"@,
        Method::QUERY => "QUERY"@,
    }
}

impl Method {
    /// The method the text names, matched without regard to ASCII case.
    pub fn from_text(s: &str) -> (r: Option<Method>)
        ensures
            r == spec_method_of(s@),
    {
        if str_eq_ci(s, "GET") {
            Some(Method::GET)
        } else if str_eq_ci(s, "POST") {
            Some(Method::POST)
        } else if str_eq_ci(s, "PUT") {
            Some(Method::PUT)
        } else if str_eq_ci(s, "PATCH") {
            Some(Method::PATCH)
        } else if str_eq_ci(s, "DELETE") {
            Some(Method::DELETE)
        } else if str_eq_ci(s, "HEAD") {
            Some(Method::HEAD)
        } else if str_eq_ci(s, "OPTIONS") {
            Some(Method::OPTIONS)
        } else if str_eq_ci(s, "CONNECT") {
            Some(Method::CONNECT)
        } else if str_eq_ci(s, "TRACE") {
            Some(Method::TRACE)
        } else if str_eq_ci(s, "QUERY") {
            Some(Method::QUERY)
        } else {
            None
        }
    }

    /// The upper-case name of this method.
    pub fn name(&self) -> (r: String)
        ensures
            r@ == spec_method_name(*self),
    {
        match self {
            Method::GET => "GET".to_owned(),
            Method::POST => "POST".to_owned(),
            Method::PUT => "PUT".to_owned(),
            Method::PATCH => "PATCH".to_owned(),
            Method::DELETE => "DELETE".to_owned(),
            Method::HEAD => "HEAD".to_owned(),
            Method::OPTIONS => "OPTIONS".to_owned(),
            Method::CONNECT => "CONNECT".to_owned(),
            Method::TRACE => "TRACE".to_owned(),
            Method::QUERY => "QUERY".to_owned(),
        }
    }
}

} // verus!
