//! The closed set of failures that the store and the service report.
use vstd::prelude::*;

verus! {

/// The field of a creation request that a validation failure is about.
#[derive(Clone, Copy, Debug, PartialEq, Eq, Structural)]
pub enum Field {
    Title,
    Content,
    UnlockAt,
}

/// Why a field of a creation request was refused.
#[derive(Clone, Copy, Debug, PartialEq, Eq, Structural)]
pub enum Reason {
    /// The text holds no character.
    Empty,
    /// The text holds more characters than the field admits.
    TooLong,
    /// The text is not a timestamp.
    Unparseable,
    /// The instant is not strictly later than the instant of creation.
    NotInFuture,
}

/// A failure of the capsule store.
#[derive(Clone, Copy, Debug, PartialEq, Eq, Structural)]
pub enum StoreError {
    /// No stored capsule has the public identifier that was asked for.
    NotFound,
    /// A stored capsule already has the public identifier that was offered.
    Conflict,
    /// The store cannot take the request.
    Unavailable,
}

/// A failure of the capsule service.
#[derive(Clone, Copy, Debug, PartialEq, Eq, Structural)]
pub enum ServiceError {
    /// The request was refused before the store was touched.
    ValidationFailed(Field, Reason),
    /// No capsule has the public identifier that was asked for.
    NotFound,
    /// Both public identifiers offered for a new capsule were taken.
    Conflict,
    /// The store could not take the request.
    Unavailable,
}

/// The name under which a field is reported to a caller.
pub open spec fn field_name(field: Field) -> Seq<char> {
    match field {
        Field::Title => "title"@,
        Field::Content => "content"@,
        Field::UnlockAt => "unlock_at"@,
    }
}

/// The one service failure that stands for a store failure.
pub open spec fn service_error_of(error: StoreError) -> ServiceError {
    match error {
        StoreError::NotFound => ServiceError::NotFound,
        StoreError::Conflict => ServiceError::Conflict,
        StoreError::Unavailable => ServiceError::Unavailable,
    }
}

impl Field {
    /// The name under which this field is reported to a caller.
    pub fn name(&self) -> (r: &'static str)
        ensures
            r@ == field_name(*self),
    {
        match self {
            Field::Title => "title",
            Field::Content => "content",
            Field::UnlockAt => "unlock_at",
        }
    }
}

impl ServiceError {
    /// Turns a store failure into the service failure of the same kind.
    pub fn from_store(error: StoreError) -> (r: ServiceError)
        ensures
            r == service_error_of(error),
    {
        match error {
            StoreError::NotFound => ServiceError::NotFound,
            StoreError::Conflict => ServiceError::Conflict,
            StoreError::Unavailable => ServiceError::Unavailable,
        }
    }

    /// Whether this failure refuses the request's own data.
    pub fn is_validation_failure(&self) -> (r: bool)
        ensures
            r == (*self is ValidationFailed),
    {
        match self {
            ServiceError::ValidationFailed(_, _) => true,
            _ => false,
        }
    }
}

/// Store failures of different kinds never become the same service failure,
/// and none of them becomes a validation failure.
pub proof fn lemma_store_errors_stay_apart(a: StoreError, b: StoreError)
    ensures
        service_error_of(a) == service_error_of(b) <==> a == b,
        !(service_error_of(a) is ValidationFailed),
{
}

} // verus!
