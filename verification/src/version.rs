//! The HTTP protocol versions a document may name.

use vstd::prelude::*;

use crate::text::str_eq;

verus! {

/// An HTTP protocol version.
#[derive(Debug, Clone, Copy, PartialEq, Eq, Structural)]
pub enum HttpVersion {
    Http09,
    Http10,
    Http11,
    Http2,
    Http3,
}

/// The version a text names, or nothing when it names none.
pub open spec fn spec_version_of(s: Seq<char>) -> Option<HttpVersion> {
    if s == "HTTP/0.9"@ {
        Some(HttpVersion::Http09)
    } else if s == "HTTP/1.0"@ {
        Some(HttpVersion::Http10)
    } else if s == "HTTP/1.1"@ {
        Some(HttpVersion::Http11)
    } else if s == "HTTP/2.0"@ {
        Some(HttpVersion::Http2)
    } else if s == "HTTP/3.0"@ {
        Some(HttpVersion::Http3)
    } else {
        None
    }
}

/// The canonical name of a version.
pub open spec fn spec_version_name(v: HttpVersion) -> Seq<char> {
    match v {
        HttpVersion::Http09 => "HTTP/0.9"@,
        HttpVersion::Http10 => "HTTP/1.0"@,
        HttpVersion::Http11 => "HTTP/1.1"@,
        HttpVersion::Http2 => "HTTP/2.0"@,
        HttpVersion::Http3 => "HTTP/3.0"@,
    }
}

impl HttpVersion {
    /// The version the text names, if any.
    pub fn from_text(s: &str) -> (r: Option<HttpVersion>)
        ensures
            r == spec_version_of(s@),
    {
        if str_eq(s, "HTTP/0.9") {
            Some(HttpVersion::Http09)
        } else if str_eq(s, "HTTP/1.0") {
            Some(HttpVersion::Http10)
        } else if str_eq(s, "HTTP/1.1") {
            Some(HttpVersion::Http11)
        } else if str_eq(s, "HTTP/2.0") {
            Some(HttpVersion::Http2)
        } else if str_eq(s, "HTTP/3.0") {
            Some(HttpVersion::Http3)
        } else {
            None
        }
    }

    /// The canonical name of this version.
    pub fn name(&self) -> (r: String)
        ensures
            r@ == spec_version_name(*self),
    {
        match self {
            HttpVersion::Http09 => "HTTP/0.9".to_owned(),
            HttpVersion::Http10 => "HTTP/1.0".to_owned(),
            HttpVersion::Http11 => "HTTP/1.1".to_owned(),
            HttpVersion::Http2 => "HTTP/2.0".to_owned(),
            HttpVersion::Http3 => "HTTP/3.0".to_owned(),
        }
    }
}

} // verus!
