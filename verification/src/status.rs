//! How a request is answered that fails.
use vstd::prelude::*;

verus! {

/// The status of an answer that is no success.
#[derive(Clone, Copy, Debug, PartialEq, Eq, Structural)]
pub enum Status {
    Forbidden,
    NotFound,
    UnprocessableEntity,
    InternalServerError,
    BadGateway,
    GatewayTimeout,
}

/// The number of a status in HTTP.
pub open spec fn code_of(status: Status) -> u16 {
    match status {
        Status::Forbidden => 403,
        Status::NotFound => 404,
        Status::UnprocessableEntity => 422,
        Status::InternalServerError => 500,
        Status::BadGateway => 502,
        Status::GatewayTimeout => 504,
    }
}

impl Status {
    /// The number of the status in HTTP.
    pub fn code(self) -> (r: u16)
        ensures
            r == code_of(self),
    {
        match self {
            Status::Forbidden => 403,
            Status::NotFound => 404,
            Status::UnprocessableEntity => 422,
            Status::InternalServerError => 500,
            Status::BadGateway => 502,
            Status::GatewayTimeout => 504,
        }
    }
}

/// A failure: its status, and what is said of it.
pub struct Failure {
    pub status: Status,
    pub error: String,
}

/// What a [`Failure`] says.
pub struct FailureView {
    pub status: Status,
    pub error: Seq<char>,
}

impl View for Failure {
    type V = FailureView;

    open spec fn view(&self) -> FailureView {
        FailureView { status: self.status, error: self.error@ }
    }
}

impl Failure {
    /// A failure with the given text.
    pub fn new(status: Status, error: &str) -> (r: Self)
        ensures
            r@ == (FailureView { status, error: error@ }),
    {
        Failure { status, error: error.to_owned() }
    }
}

/// What is wrong with the request is told by the hundreds from four to five, what is wrong with the
/// site by those behind; no two statuses have one number.
pub proof fn law_statuses_have_their_numbers(a: Status, b: Status)
    ensures
        code_of(a) == code_of(b) ==> a == b,
        400 <= code_of(a) < 500 <==> a is Forbidden || a is NotFound || a is UnprocessableEntity,
        code_of(a) == 403 <==> a is Forbidden,
        code_of(a) == 404 <==> a is NotFound,
        code_of(a) == 422 <==> a is UnprocessableEntity,
        code_of(a) == 500 <==> a is InternalServerError,
        code_of(a) == 502 <==> a is BadGateway,
        code_of(a) == 504 <==> a is GatewayTimeout,
        500 <= code_of(a) < 600 <==> a is InternalServerError || a is BadGateway || a
            is GatewayTimeout,
{
}

} // verus!
