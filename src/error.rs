use vstd::prelude::*;

verus! {

/// The failures that the governance operations report to their callers.
#[derive(Debug, Clone, PartialEq, Eq)]
pub enum UpgraderError {
    /// The caller lacks a required permission.
    NotAuthorized,
    /// The anonymous identity was used where a real principal is required.
    AnonymousPrincipalNotAllowed,
    /// The request is malformed or not valid in the current state.
    BadRequest(String),
    /// A project with the given key already exists.
    NotUniqueKey(String),
}

/// Result of the governance operations.
pub type Result<T> = core::result::Result<T, UpgraderError>;

impl UpgraderError {
    /// Human-readable description of the error.
    pub fn message(&self) -> (r: String) {
        match self {
            UpgraderError::NotAuthorized => "the user has no permission to call this method".to_owned(),
            UpgraderError::AnonymousPrincipalNotAllowed => "Anonymous principal is not allowed".to_owned(),
            UpgraderError::BadRequest(detail) => describe("The request is not valid: ", detail),
            UpgraderError::NotUniqueKey(key) => describe("The key provided already exists: ", key),
        }
    }
}

/// Relies on std's `format!`: the prefix followed by the detail.
#[verifier::external_body]
fn describe(prefix: &str, detail: &String) -> (r: String)
    ensures
        r@ == prefix@ + detail@,
{
    format!("{prefix}{detail}")
}

} // verus!
