//! The body of a canonical request, with the default MIME type each kind
//! carries.

use vstd::prelude::*;

use crate::table::Table;

verus! {

/// The body of a request: absent, raw text, a file to attach, a multipart
/// form, or a URL-encoded form.
#[derive(Debug)]
pub enum Body {
    /// The request has no body.
    Empty,
    /// Text content, bundled with a MIME type.
    Raw { content: String, mime: String },
    /// The path of a file whose contents form the body.
    Binary { path: String, mime: String },
    /// A multipart form.
    FormData(Table<FormDataValue>),
    /// A form encoded in the URL style.
    XFormUrlEncoded(Table<String>),
}

/// One value of a multipart form: text to submit or the path of a file.
#[derive(Debug, Clone, PartialEq, Eq)]
pub enum FormDataValue {
    Text(String),
    File(String),
}

/// The mathematical model of a [`FormDataValue`].
pub enum FormDataModel {
    Text(Seq<char>),
    File(Seq<char>),
}

/// The mathematical model of a [`Body`].
pub enum BodyModel {
    Empty,
    Raw { content: Seq<char>, mime: Seq<char> },
    Binary { path: Seq<char>, mime: Seq<char> },
    FormData(Seq<(Seq<char>, FormDataModel)>),
    XFormUrlEncoded(Seq<(Seq<char>, Seq<char>)>),
}

impl View for FormDataValue {
    type V = FormDataModel;

    open spec fn view(&self) -> FormDataModel {
        match self {
            FormDataValue::Text(t) => FormDataModel::Text(t@),
            FormDataValue::File(p) => FormDataModel::File(p@),
        }
    }
}

impl DeepView for FormDataValue {
    type V = FormDataModel;

    open spec fn deep_view(&self) -> FormDataModel {
        self.view()
    }
}

impl View for Body {
    type V = BodyModel;

    open spec fn view(&self) -> BodyModel {
        match self {
            Body::Empty => BodyModel::Empty,
            Body::Raw { content, mime } => BodyModel::Raw { content: content@, mime: mime@ },
            Body::Binary { path, mime } => BodyModel::Binary { path: path@, mime: mime@ },
            Body::FormData(t) => BodyModel::FormData(t@),
            Body::XFormUrlEncoded(t) => BodyModel::XFormUrlEncoded(t@),
        }
    }
}

/// The MIME type a body carries: the bundled one for raw and binary
/// bodies, the fixed form types for forms, none for an absent body.
pub open spec fn spec_body_mime(b: BodyModel) -> Option<Seq<char>> {
    match b {
        BodyModel::Empty => None,
        BodyModel::Raw { mime, .. } => Some(mime),
        BodyModel::Binary { mime, .. } => Some(mime),
        BodyModel::FormData(_) => Some("multipart/form-data"@),
        BodyModel::XFormUrlEncoded(_) => Some("application/x-www-form-urlencoded"@),
    }
}

impl Body {
    /// The MIME type associated with this body, if it has one.
    pub fn mime(&self) -> (r: Option<&str>)
        ensures
            match r {
                Some(m) => spec_body_mime(self@) == Some(m@),
                None => spec_body_mime(self@) is None,
            },
    {
        match self {
            Body::Empty => None,
            Body::Raw { mime, .. } => Some(mime.as_str()),
            Body::Binary { mime, .. } => Some(mime.as_str()),
            Body::FormData(_) => Some("multipart/form-data"),
            Body::XFormUrlEncoded(_) => Some("application/x-www-form-urlencoded"),
        }
    }
}

} // verus!
