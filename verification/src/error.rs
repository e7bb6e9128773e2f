//! Refusals: an HTTP status and a message.
use vstd::prelude::*;

verus! {

/// The HTTP status of a refusal.
#[derive(Clone, Copy, Debug, PartialEq, Eq, Structural)]
pub enum Status {
    BadRequest,
    NotFound,
    UnprocessableEntity,
    InternalServerError,
}

impl Status {
    /// The status code that the status stands for.
    pub open spec fn number(self) -> u16 {
        match self {
            Status::BadRequest => 400,
            Status::NotFound => 404,
            Status::UnprocessableEntity => 422,
            Status::InternalServerError => 500,
        }
    }

    /// The status code.
    pub fn code(self) -> (code: u16)
        ensures
            code == self.number(),
            code == 400 <==> self is BadRequest,
            code == 404 <==> self is NotFound,
            code == 422 <==> self is UnprocessableEntity,
            code == 500 <==> self is InternalServerError,
    {
        match self {
            Status::BadRequest => 400,
            Status::NotFound => 404,
            Status::UnprocessableEntity => 422,
            Status::InternalServerError => 500,
        }
    }
}

/// Why a request is not answered.
#[derive(Clone, Debug)]
pub struct ApiError {
    pub status: Status,
    pub message: String,
}

/// A refusal with its message as a sequence of characters.
pub struct Refusal {
    pub status: Status,
    pub message: Seq<char>,
}

impl View for ApiError {
    type V = Refusal;

    open spec fn view(&self) -> Refusal {
        Refusal { status: self.status, message: self.message@ }
    }
}

/// The refusal of a request that is malformed.
pub open spec fn malformed(message: Seq<char>) -> Refusal {
    Refusal { status: Status::BadRequest, message }
}

/// The refusal of a request that is well formed and does not fit the position.
pub open spec fn unfit(message: Seq<char>) -> Refusal {
    Refusal { status: Status::UnprocessableEntity, message }
}

/// The refusal of a request to an engine that is not there.
pub open spec fn absent(message: Seq<char>) -> Refusal {
    Refusal { status: Status::NotFound, message }
}

/// The refusal that reports a fault of the service itself.
pub open spec fn faulty(message: Seq<char>) -> Refusal {
    Refusal { status: Status::InternalServerError, message }
}

impl ApiError {
    /// A refusal with status 400.
    pub fn bad_request(message: String) -> (error: ApiError)
        ensures
            error@ == malformed(message@),
            error.status == Status::BadRequest,
            error.message@ == message@,
    {
        Self::new(Status::BadRequest, message)
    }

    /// A refusal with status 422.
    pub fn unprocessable(message: String) -> (error: ApiError)
        ensures
            error@ == unfit(message@),
            error.status == Status::UnprocessableEntity,
            error.message@ == message@,
    {
        Self::new(Status::UnprocessableEntity, message)
    }

    /// A refusal with status 404.
    pub fn not_found(message: String) -> (error: ApiError)
        ensures
            error@ == absent(message@),
            error.status == Status::NotFound,
            error.message@ == message@,
    {
        Self::new(Status::NotFound, message)
    }

    /// A refusal with status 500.
    pub fn internal(message: String) -> (error: ApiError)
        ensures
            error@ == faulty(message@),
            error.status == Status::InternalServerError,
            error.message@ == message@,
    {
        Self::new(Status::InternalServerError, message)
    }

    /// A refusal with the given status and message.
    pub fn new(status: Status, message: String) -> (error: ApiError)
        ensures
            error.status == status,
            error.message@ == message@,
    {
        ApiError { status, message }
    }
}

/// Each kind of refusal has its own status and the message that it is given.
pub proof fn refusals_carry_their_message(message: Seq<char>)
    ensures
        malformed(message).status == Status::BadRequest,
        unfit(message).status == Status::UnprocessableEntity,
        absent(message).status == Status::NotFound,
        faulty(message).status == Status::InternalServerError,
        malformed(message).message == message,
        unfit(message).message == message,
        absent(message).message == message,
        faulty(message).message == message,
{
}

/// A refusal is looked at with its status and its message.
pub proof fn a_refusal_is_looked_at_whole(error: ApiError)
    ensures
        error@.status == error.status,
        error@.message == error.message@,
{
}

} // verus!
