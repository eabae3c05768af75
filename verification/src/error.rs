//! What a request is refused with.
use vstd::prelude::*;

verus! {

/// One field of a request that does not meet its constraint.
#[derive(Debug, PartialEq, Eq)]
pub struct Violation {
    pub field_name: String,
    pub message: String,
}

/// A [`Violation`] by its texts.
#[verifier::ext_equal]
pub struct ViolationView {
    pub field_name: Seq<char>,
    pub message: Seq<char>,
}

impl DeepView for Violation {
    type V = ViolationView;

    open spec fn deep_view(&self) -> ViolationView {
        ViolationView { field_name: self.field_name@, message: self.message@ }
    }
}

/// Builds a violation.
pub fn violation(field_name: &str, message: &str) -> (r: Violation)
    ensures
        r.deep_view() == (ViolationView { field_name: field_name@, message: message@ }),
{
    Violation { field_name: field_name.to_owned(), message: message.to_owned() }
}

/// Why a request is not answered as asked.
#[derive(Debug, PartialEq, Eq)]
pub enum ApiError {
    /// An HTTP status with a message for the body.
    Status { status: u16, message: String },
    /// Not found, with an empty body.
    NotFoundEmpty,
    /// The request's fields that do not meet their constraints.
    Violations(Vec<Violation>),
    /// A fault on the server's side.
    Internal(String),
}

/// An [`ApiError`] by its texts.
#[verifier::ext_equal]
pub enum ErrorView {
    Status { status: u16, message: Seq<char> },
    NotFoundEmpty,
    Violations(Seq<ViolationView>),
    Internal(Seq<char>),
}

impl DeepView for ApiError {
    type V = ErrorView;

    open spec fn deep_view(&self) -> ErrorView {
        match self {
            ApiError::Status { status, message } => ErrorView::Status {
                status: *status,
                message: message@,
            },
            ApiError::NotFoundEmpty => ErrorView::NotFoundEmpty,
            ApiError::Violations(v) => ErrorView::Violations(v.deep_view()),
            ApiError::Internal(message) => ErrorView::Internal(message@),
        }
    }
}

/// An HTTP status with a message.
pub open spec fn status_error(status: u16, message: Seq<char>) -> ErrorView {
    ErrorView::Status { status, message }
}

/// A single violation.
pub open spec fn one_violation(field_name: Seq<char>, message: Seq<char>) -> ErrorView {
    ErrorView::Violations(seq![ViolationView { field_name, message }])
}

impl ApiError {
    /// A refusal with this status.
    pub fn status(status: u16, message: &str) -> (r: ApiError)
        ensures
            r.deep_view() == status_error(status, message@),
    {
        ApiError::Status { status, message: message.to_owned() }
    }

    /// What is asked for is not there.
    pub fn not_found(message: &str) -> (r: ApiError)
        ensures
            r.deep_view() == status_error(404, message@),
    {
        ApiError::status(404, message)
    }

    /// The request is not a valid one.
    pub fn bad_request(message: &str) -> (r: ApiError)
        ensures
            r.deep_view() == status_error(400, message@),
    {
        ApiError::status(400, message)
    }

    /// The user may not do this.
    pub fn forbidden(message: &str) -> (r: ApiError)
        ensures
            r.deep_view() == status_error(403, message@),
    {
        ApiError::status(403, message)
    }

    /// The request does not fit what is stored.
    pub fn conflict(message: &str) -> (r: ApiError)
        ensures
            r.deep_view() == status_error(409, message@),
    {
        ApiError::status(409, message)
    }

    /// Nobody is signed in.
    pub fn unauthorized() -> (r: ApiError)
        ensures
            r.deep_view() == status_error(401, ""@),
    {
        ApiError::status(401, "")
    }

    /// A fault on the server's side.
    pub fn internal(message: &str) -> (r: ApiError)
        ensures
            r.deep_view() == ErrorView::Internal(message@),
    {
        ApiError::Internal(message.to_owned())
    }

    /// Refuses a request for one field.
    pub fn one_violation(field_name: &str, message: &str) -> (r: ApiError)
        ensures
            r.deep_view() == one_violation(field_name@, message@),
    {
        let mut v: Vec<Violation> = Vec::new();
        v.push(violation(field_name, message));
        assert(v.deep_view() =~= seq![
            ViolationView { field_name: field_name@, message: message@ },
        ]);
        ApiError::Violations(v)
    }
}

} // verus!
