use vstd::prelude::*;

verus! {

/// The error taxonomy of the service.
///
/// `InvalidInput` covers bad pagination limits, unknown registries and
/// malformed identifiers; `NotFound` a missing job or package; `Internal`
/// any infrastructure failure whose detail must not leak to a caller.
#[derive(Debug)]
pub enum Error {
    InvalidInput(String),
    NotFound(String),
    Internal(String),
}

/// The HTTP status that each error kind surfaces as.
pub open spec fn spec_status_code(e: &Error) -> u16 {
    match e {
        Error::InvalidInput(_) => 400,
        Error::NotFound(_) => 404,
        Error::Internal(_) => 500,
    }
}

/// The body of the structured `{message}` response for each error kind.
/// Internal failures are masked; the caller sees a fixed message.
pub open spec fn spec_public_message(e: &Error) -> Seq<char> {
    match e {
        Error::InvalidInput(m) => m@,
        Error::NotFound(m) => m@,
        Error::Internal(_) => "Internal Server Error"@,
    }
}

impl Error {
    /// The HTTP status code this error maps to: 400, 404 or 500.
    pub fn status_code(&self) -> (r: u16)
        ensures
            r == spec_status_code(self),
    {
        match self {
            Error::InvalidInput(_) => 400,
            Error::NotFound(_) => 404,
            Error::Internal(_) => 500,
        }
    }

    /// The message placed in the `{message}` response body.
    pub fn public_message(&self) -> (r: String)
        ensures
            r@ == spec_public_message(self),
    {
        match self {
            Error::InvalidInput(m) => m.clone(),
            Error::NotFound(m) => m.clone(),
            Error::Internal(_) => String::from_str("Internal Server Error"),
        }
    }
}

} // verus!
