use time_capsule::error::{Field, Reason, ServiceError, StoreError};

#[test]
fn fields_are_named_as_in_a_request() {
    assert_eq!(Field::Title.name(), "title");
    assert_eq!(Field::Content.name(), "content");
    assert_eq!(Field::UnlockAt.name(), "unlock_at");
}

#[test]
fn each_store_failure_has_one_service_failure() {
    assert_eq!(ServiceError::from_store(StoreError::NotFound), ServiceError::NotFound);
    assert_eq!(ServiceError::from_store(StoreError::Conflict), ServiceError::Conflict);
    assert_eq!(ServiceError::from_store(StoreError::Unavailable), ServiceError::Unavailable);
}

#[test]
fn only_validation_failures_refuse_the_request_itself() {
    assert!(ServiceError::ValidationFailed(Field::Title, Reason::Empty).is_validation_failure());
    assert!(ServiceError::ValidationFailed(Field::UnlockAt, Reason::NotInFuture)
        .is_validation_failure());
    assert!(!ServiceError::NotFound.is_validation_failure());
    assert!(!ServiceError::Conflict.is_validation_failure());
    assert!(!ServiceError::Unavailable.is_validation_failure());
}
