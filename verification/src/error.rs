//! The errors of the library.

use vstd::prelude::*;
use vstd::string::*;

use crate::text::{
    concat2, concat3, contains, decimal, decimal_text, law_contains_part, occurs_at,
};

verus! {

/// Everything that can go wrong in loading, storing, capturing and matching.
#[derive(Debug)]
pub enum FaceAuthError {
    /// The camera could not be opened or read, or the daemon reported a failure.
    Camera(String),
    /// A file or a socket could not be read or written.
    Storage(String),
    /// A text that should be JSON is not, or does not have the expected shape.
    Json(String),
    /// The named user has no enrolled model.
    ModelNotFound(String),
    /// No match within this many seconds.
    Timeout(u64),
    /// The face encoder failed, or an encoding is malformed.
    Dlib(String),
}

/// A [`FaceAuthError`] as a mathematical value.
pub enum ErrorView {
    Camera(Seq<char>),
    Storage(Seq<char>),
    Json(Seq<char>),
    ModelNotFound(Seq<char>),
    Timeout(u64),
    Dlib(Seq<char>),
}

impl ErrorView {
    /// The error as it is shown to a user.
    pub open spec fn text(self) -> Seq<char> {
        match self {
            ErrorView::Camera(m) => "Camera error: "@ + m,
            ErrorView::Storage(m) => "Model storage error: "@ + m,
            ErrorView::Json(m) => "JSON error: "@ + m,
            ErrorView::ModelNotFound(u) => "No face model found for user '"@ + u + "'"@,
            ErrorView::Timeout(s) => "Authentication timed out after "@ + decimal(s as nat)
                + " seconds"@,
            ErrorView::Dlib(m) => "dlib error: "@ + m,
        }
    }
}

impl View for FaceAuthError {
    type V = ErrorView;

    open spec fn view(&self) -> ErrorView {
        match self {
            FaceAuthError::Camera(m) => ErrorView::Camera(m@),
            FaceAuthError::Storage(m) => ErrorView::Storage(m@),
            FaceAuthError::Json(m) => ErrorView::Json(m@),
            FaceAuthError::ModelNotFound(u) => ErrorView::ModelNotFound(u@),
            FaceAuthError::Timeout(s) => ErrorView::Timeout(*s),
            FaceAuthError::Dlib(m) => ErrorView::Dlib(m@),
        }
    }
}

impl FaceAuthError {
    /// The error as it is shown to a user.
    pub fn message(&self) -> (r: String)
        ensures
            r@ == self@.text(),
    {
        match self {
            FaceAuthError::Camera(m) => concat2("Camera error: ", m.as_str()),
            FaceAuthError::Storage(m) => concat2("Model storage error: ", m.as_str()),
            FaceAuthError::Json(m) => concat2("JSON error: ", m.as_str()),
            FaceAuthError::ModelNotFound(u) => concat3(
                "No face model found for user '",
                u.as_str(),
                "'",
            ),
            FaceAuthError::Timeout(s) => concat3(
                "Authentication timed out after ",
                decimal_text(*s).as_str(),
                " seconds",
            ),
            FaceAuthError::Dlib(m) => concat2("dlib error: ", m.as_str()),
        }
    }
}

/// An error is told by its kind and by what it holds.
pub proof fn law_errors_by_contents(a: FaceAuthError, b: FaceAuthError)
    ensures
        a@ == b@ ==> match (a, b) {
            (FaceAuthError::Camera(x), FaceAuthError::Camera(y)) => x@ == y@,
            (FaceAuthError::Storage(x), FaceAuthError::Storage(y)) => x@ == y@,
            (FaceAuthError::Json(x), FaceAuthError::Json(y)) => x@ == y@,
            (FaceAuthError::ModelNotFound(x), FaceAuthError::ModelNotFound(y)) => x@ == y@,
            (FaceAuthError::Timeout(x), FaceAuthError::Timeout(y)) => x == y,
            (FaceAuthError::Dlib(x), FaceAuthError::Dlib(y)) => x@ == y@,
            _ => false,
        },
{
}

/// The text of an error holds what the error is about: the reason, the user, or the
/// seconds.
pub proof fn law_error_text_tells(e: ErrorView)
    ensures
        match e {
            ErrorView::Camera(m) => contains(e.text(), m),
            ErrorView::Storage(m) => contains(e.text(), m),
            ErrorView::Json(m) => contains(e.text(), m),
            ErrorView::ModelNotFound(u) => contains(e.text(), u),
            ErrorView::Timeout(s) => contains(e.text(), decimal(s as nat)),
            ErrorView::Dlib(m) => contains(e.text(), m),
        },
{
    let t = e.text();
    match e {
        ErrorView::Camera(m) => {
            lemma_contains_end("Camera error: "@, m);
        },
        ErrorView::Storage(m) => {
            lemma_contains_end("Model storage error: "@, m);
        },
        ErrorView::Json(m) => {
            lemma_contains_end("JSON error: "@, m);
        },
        ErrorView::ModelNotFound(u) => {
            law_contains_part("No face model found for user '"@, u, "'"@, u);
        },
        ErrorView::Timeout(s) => {
            let d = decimal(s as nat);
            law_contains_part("Authentication timed out after "@, d, " seconds"@, d);
        },
        ErrorView::Dlib(m) => {
            lemma_contains_end("dlib error: "@, m);
        },
    }
}

proof fn lemma_contains_end(front: Seq<char>, end: Seq<char>)
    ensures
        contains(front + end, end),
{
    let s = front + end;
    assert(s.subrange(front.len() as int, s.len() as int) =~= end);
    assert(occurs_at(s, end, front.len() as int));
}

}
