//! The errors a document can be rejected with while it is parsed,
//! validated, and turned into a request.

use vstd::prelude::*;

verus! {

/// Why a document was rejected before a request could be built from it.
#[derive(Debug, Clone, PartialEq, Eq)]
pub enum Error {
    /// The text is not a well-formed document: bad syntax, a duplicate key,
    /// a gross type mismatch. Carries the reason and, when one is known,
    /// the byte range of the offending text.
    Deserialization { message: String, span: Option<(usize, usize)> },
    /// A required field is absent.
    MissingField(String),
    /// A free-form table holds a value of a forbidden kind; names the
    /// offending collection and the kind.
    InvalidType { field: String, kind: String },
}

/// The mathematical model of an [`Error`].
pub enum ErrorModel {
    Deserialization { message: Seq<char>, span: Option<(usize, usize)> },
    MissingField(Seq<char>),
    InvalidType { field: Seq<char>, kind: Seq<char> },
}

impl View for Error {
    type V = ErrorModel;

    open spec fn view(&self) -> ErrorModel {
        match self {
            Error::Deserialization { message, span } => ErrorModel::Deserialization {
                message: message@,
                span: *span,
            },
            Error::MissingField(m) => ErrorModel::MissingField(m@),
            Error::InvalidType { field, kind } => ErrorModel::InvalidType {
                field: field@,
                kind: kind@,
            },
        }
    }
}

/// The one-line description of an error.
pub open spec fn spec_message(e: ErrorModel) -> Seq<char> {
    match e {
        ErrorModel::Deserialization { message, .. } => message,
        ErrorModel::MissingField(m) => m,
        ErrorModel::InvalidType { field, kind } => "values of ["@ + field + "] can't be of type "@
            + kind,
    }
}

impl Error {
    /// The one-line description of this error.
    pub fn message(&self) -> (r: String)
        ensures
            r@ == spec_message(self@),
    {
        match self {
            Error::Deserialization { message, .. } => message.clone(),
            Error::MissingField(m) => m.clone(),
            Error::InvalidType { field, kind } => {
                let mut out = "values of [".to_owned();
                out.append(field.as_str());
                out.append("] can't be of type ");
                out.append(kind.as_str());
                out
            },
        }
    }
}

} // verus!
