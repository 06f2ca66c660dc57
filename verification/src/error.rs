//! Why a request is refused.
use vstd::prelude::*;

verus! {

/// Why a request is refused.
#[derive(Clone, Copy, Debug)]
pub enum ApiError {
    NotFound(&'static str),
    BadRequest(&'static str),
    Unauthorized(&'static str),
    Conflict(&'static str),
    Internal,
}

/// A result, seen through what its value holds.
pub open spec fn outcome<T: DeepView>(r: Result<T, ApiError>) -> Result<T::V, ApiError> {
    match r {
        Ok(value) => Ok(value.deep_view()),
        Err(error) => Err(error),
    }
}

impl ApiError {
    /// The HTTP status that goes with the error.
    pub open spec fn status_code(self) -> u16 {
        match self {
            ApiError::NotFound(_) => 404,
            ApiError::BadRequest(_) => 400,
            ApiError::Unauthorized(_) => 401,
            ApiError::Conflict(_) => 409,
            ApiError::Internal => 500,
        }
    }

    /// What the error tells the client.
    pub open spec fn told(self) -> Seq<char> {
        match self {
            ApiError::NotFound(what) => what@,
            ApiError::BadRequest(what) => what@,
            ApiError::Unauthorized(what) => what@,
            ApiError::Conflict(what) => what@,
            ApiError::Internal => "internal error"@,
        }
    }

    /// The error in words.
    pub open spec fn in_words(self) -> Seq<char> {
        match self {
            ApiError::NotFound(what) => "not found: "@ + what@,
            ApiError::BadRequest(what) => "invalid request: "@ + what@,
            ApiError::Unauthorized(what) => "unauthorized: "@ + what@,
            ApiError::Conflict(what) => "conflict: "@ + what@,
            ApiError::Internal => "internal error"@,
        }
    }

    /// The HTTP status that goes with the error.
    pub fn status(&self) -> (r: u16)
        ensures
            r == self.status_code(),
    {
        match self {
            ApiError::NotFound(_) => 404,
            ApiError::BadRequest(_) => 400,
            ApiError::Unauthorized(_) => 401,
            ApiError::Conflict(_) => 409,
            ApiError::Internal => 500,
        }
    }

    /// What the error tells the client.
    pub fn message(&self) -> (r: &'static str)
        ensures
            r@ == self.told(),
    {
        match self {
            ApiError::NotFound(what) => what,
            ApiError::BadRequest(what) => what,
            ApiError::Unauthorized(what) => what,
            ApiError::Conflict(what) => what,
            ApiError::Internal => "internal error",
        }
    }

    /// The error in words.
    pub fn text(&self) -> (r: String)
        ensures
            r@ == self.in_words(),
    {
        let (kind, what): (&'static str, &'static str) = match self {
            ApiError::NotFound(what) => ("not found: ", *what),
            ApiError::BadRequest(what) => ("invalid request: ", *what),
            ApiError::Unauthorized(what) => ("unauthorized: ", *what),
            ApiError::Conflict(what) => ("conflict: ", *what),
            ApiError::Internal => {
                return "internal error".to_owned();
            },
        };
        let mut out: String = kind.to_owned();
        out.append(what);
        out
    }
}

/// What a failed access to the store is answered: the refusal that caused it, where one did, and
/// an internal error otherwise.
pub fn map_store_err(err: Option<ApiError>) -> (r: ApiError)
    ensures
        r == (match err {
            Some(refusal) => refusal,
            None => ApiError::Internal,
        }),
{
    match err {
        Some(refusal) => refusal,
        None => ApiError::Internal,
    }
}

/// Each kind of refusal has its HTTP status, and tells the client what it is about.
pub proof fn law_status(what: &'static str)
    ensures
        ApiError::NotFound(what).status_code() == 404,
        ApiError::BadRequest(what).status_code() == 400,
        ApiError::Unauthorized(what).status_code() == 401,
        ApiError::Conflict(what).status_code() == 409,
        ApiError::Internal.status_code() == 500,
        ApiError::NotFound(what).told() == what@,
        ApiError::BadRequest(what).told() == what@,
        ApiError::Unauthorized(what).told() == what@,
        ApiError::Conflict(what).told() == what@,
{
}

} // verus!
