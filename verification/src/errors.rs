//! The error taxonomy of the store: malformed upload parts, unknown
//! identifiers, backend failures, and a missing result-page template.

use vstd::prelude::*;
use vstd::string::StringExecFns;

verus! {

/// Why a store operation failed.
#[derive(Clone, Debug, PartialEq, Eq)]
pub enum StoreError {
    /// An upload part lacked its filename or its content type.
    BadRequest,
    /// No object is stored under the requested identifier.
    NotFound,
    /// The storage backend failed; carries the underlying cause.
    Repository(String),
    /// The upload-result page asset is missing or unreadable.
    TemplateUnavailable,
}

/// The user-visible message for each failure; backend causes are never
/// leaked to the client.
pub open spec fn spec_message(e: StoreError) -> Seq<char> {
    match e {
        StoreError::BadRequest => "malformed upload part"@,
        StoreError::NotFound => "object not found"@,
        StoreError::Repository(_) => "storage backend error"@,
        StoreError::TemplateUnavailable => "result page unavailable"@,
    }
}

impl StoreError {
    /// Render the generic, user-visible message for this failure.
    pub fn message(&self) -> (m: String)
        ensures
            m@ == spec_message(*self),
    {
        match self {
            StoreError::BadRequest => String::from_str("malformed upload part"),
            StoreError::NotFound => String::from_str("object not found"),
            StoreError::Repository(_) => String::from_str("storage backend error"),
            StoreError::TemplateUnavailable => String::from_str("result page unavailable"),
        }
    }
}

} // verus!
