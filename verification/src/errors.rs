use vstd::prelude::*;

verus! {

/// The two-kind error taxonomy of the credential subsystem.
///
/// `Authentication` is the caller-facing failure: bad credentials, a
/// malformed, expired or forged token, or a malformed bearer header. It
/// carries no detail, so a caller can never distinguish *why* validation
/// failed. `Internal` is the operator-facing failure: a corrupted stored
/// hash or a failing primitive; it is a configuration or data-integrity
/// problem, never a normal runtime condition.
#[derive(Clone, Copy, Debug, PartialEq, Eq, Structural)]
pub enum AuthError {
    Authentication,
    Internal,
}

impl AuthError {
    /// A short generic description, safe to surface to a caller.
    pub fn message(&self) -> (r: &'static str)
        ensures
            *self is Authentication ==> r@ == "authentication failed"@,
            *self is Internal ==> r@ == "internal error"@,
    {
        match self {
            AuthError::Authentication => "authentication failed",
            AuthError::Internal => "internal error",
        }
    }
}

/// Error body shape used by the surrounding request layer.
pub struct ErrorResponse {
    pub error: String,
    pub message: String,
    pub details: Option<Vec<String>>,
    pub request_id: String,
}

} // verus!
