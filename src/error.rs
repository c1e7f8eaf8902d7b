//! The errors of document construction and enrichment.

use vstd::prelude::*;

verus! {

/// Why a JSON value is not a valid (or exportable) WOF document.
#[derive(Debug, PartialEq)]
pub enum WofError {
    /// The document is not an object; holds the kind of value found.
    NotAnObject(String),
    /// A required key is absent.
    Missing(String),
    /// A required key holds a value of the wrong kind: the key, the kind found.
    Mistyped(String, String),
    /// The geometry has a `type` outside the six supported ones.
    UnsupportedGeometry(String),
    /// The coordinates do not have the shape that the geometry type asks for.
    MalformedCoordinates(String),
    /// No numeric id was found.
    NoId,
    /// The text is not JSON.
    Parse(String),
}

/// The view of a `WofError`.
pub enum ErrorView {
    NotAnObject(Seq<char>),
    Missing(Seq<char>),
    Mistyped(Seq<char>, Seq<char>),
    UnsupportedGeometry(Seq<char>),
    MalformedCoordinates(Seq<char>),
    NoId,
    Parse(Seq<char>),
}

impl View for WofError {
    type V = ErrorView;

    open spec fn view(&self) -> ErrorView {
        match self {
            WofError::NotAnObject(t) => ErrorView::NotAnObject(t@),
            WofError::Missing(k) => ErrorView::Missing(k@),
            WofError::Mistyped(k, t) => ErrorView::Mistyped(k@, t@),
            WofError::UnsupportedGeometry(t) => ErrorView::UnsupportedGeometry(t@),
            WofError::MalformedCoordinates(t) => ErrorView::MalformedCoordinates(t@),
            WofError::NoId => ErrorView::NoId,
            WofError::Parse(m) => ErrorView::Parse(m@),
        }
    }
}

/// The text of an error.
pub open spec fn error_text(e: ErrorView) -> Seq<char> {
    match e {
        ErrorView::NotAnObject(t) => "This is not an object but a "@ + t,
        ErrorView::Missing(k) => k + " not found in this geojson"@,
        ErrorView::Mistyped(k, t) => k + ": unexpected "@ + t,
        ErrorView::UnsupportedGeometry(t) => "type "@ + t + " is not supported."@,
        ErrorView::MalformedCoordinates(t) => "`coordinates` malformed for `type` "@ + t,
        ErrorView::NoId => "No id found for this feature."@,
        ErrorView::Parse(m) => m,
    }
}

impl WofError {
    /// A message that names the key or the type at fault.
    pub fn message(&self) -> (r: String)
        ensures
            r@ == error_text(self@),
    {
        match self {
            WofError::NotAnObject(t) => {
                let mut m = "This is not an object but a ".to_string();
                m.append(t.as_str());
                m
            },
            WofError::Missing(k) => {
                let mut m = k.clone();
                m.append(" not found in this geojson");
                m
            },
            WofError::Mistyped(k, t) => {
                let mut m = k.clone();
                m.append(": unexpected ");
                m.append(t.as_str());
                m
            },
            WofError::UnsupportedGeometry(t) => {
                let mut m = "type ".to_string();
                m.append(t.as_str());
                m.append(" is not supported.");
                m
            },
            WofError::MalformedCoordinates(t) => {
                let mut m = "`coordinates` malformed for `type` ".to_string();
                m.append(t.as_str());
                m
            },
            WofError::NoId => "No id found for this feature.".to_string(),
            WofError::Parse(m) => m.clone(),
        }
    }
}

} // verus!
