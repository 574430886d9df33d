use time_capsule::capsule::{Capsule, MAX_CONTENT_CHARS, MAX_TITLE_CHARS};
use time_capsule::error::{Field, Reason, ServiceError, StoreError};
use time_capsule::service::{
    clamp_limit, clamp_offset, read_answer, settle, should_retry, validate_creation,
    CapsuleService,
    MAX_PAGE_SIZE,
};

// 2030-01-01T00:00:00Z
const UNLOCK: i64 = 1893456000000000;
const UNLOCK_TEXT: &str = "2030-01-01T00:00:00Z";

fn create(
    service: &mut CapsuleService,
    title: &str,
    public_id: &str,
    now: i64,
) -> Result<Capsule, ServiceError> {
    service.create_capsule(
        title,
        "what was sealed",
        UNLOCK_TEXT,
        now,
        String::from(public_id),
        format!("{}-retry", public_id),
    )
}

fn titles(capsules: &[Capsule]) -> Vec<String> {
    capsules.iter().map(|capsule| capsule.title.clone()).collect()
}

#[test]
fn created_capsule_is_handed_back_with_its_content() {
    let mut service = CapsuleService::new();
    let created = create(&mut service, "A", "id-a", 1000).unwrap();
    assert_eq!(
        created,
        Capsule {
            internal_id: 1,
            public_id: String::from("id-a"),
            title: String::from("A"),
            content: String::from("what was sealed"),
            unlock_at: UNLOCK,
            created_at: 1000,
        }
    );
}

#[test]
fn read_right_after_creation_shows_marker_while_locked() {
    let mut service = CapsuleService::new();
    let created = create(&mut service, "A", "id-a", 1000).unwrap();
    let read = service.get_capsule(&created.public_id, 1000).unwrap();
    assert_eq!(read.content, "");
    assert_eq!(read.unlock_at, UNLOCK);
    assert_eq!(read.title, "A");
    assert_eq!(read.public_id, "id-a");
    assert_eq!(read.created_at, 1000);
    assert_eq!(read.internal_id, created.internal_id);
}

#[test]
fn read_after_unlock_instant_shows_the_content() {
    let mut service = CapsuleService::new();
    let created = create(&mut service, "A", "id-a", UNLOCK - 1).unwrap();
    assert_eq!(service.get_capsule("id-a", UNLOCK - 1).unwrap().content, "");
    assert_eq!(service.get_capsule("id-a", UNLOCK).unwrap(), created);
    assert_eq!(service.get_capsule("id-a", UNLOCK + 1).unwrap(), created);
    assert_eq!(service.get_capsule("id-a", i64::MAX).unwrap().content, "what was sealed");
}

#[test]
fn public_ids_of_created_capsules_are_pairwise_distinct() {
    let mut service = CapsuleService::new();
    let mut seen: Vec<String> = Vec::new();
    for round in 0..20 {
        // Every other request offers an identifier that is taken already.
        let offered = format!("id-{}", round / 2);
        let created = create(&mut service, "T", &offered, round).unwrap();
        assert!(!seen.contains(&created.public_id));
        seen.push(created.public_id);
    }
    assert_eq!(service.store().len(), 20);
}

#[test]
fn unlock_at_the_instant_of_creation_is_refused_and_nothing_is_stored() {
    let mut service = CapsuleService::new();
    create(&mut service, "kept", "id-kept", 5).unwrap();
    let refused = create(&mut service, "late", "id-late", UNLOCK);
    assert_eq!(refused, Err(ServiceError::ValidationFailed(Field::UnlockAt, Reason::NotInFuture)));
    assert_eq!(titles(&service.list_capsules(100, 0, UNLOCK)), vec!["kept"]);
    assert_eq!(service.get_capsule("id-late", UNLOCK), Err(ServiceError::NotFound));
    assert_eq!(service.store().len(), 1);
}

#[test]
fn unlock_before_the_instant_of_creation_is_refused_and_nothing_is_stored() {
    let mut service = CapsuleService::new();
    let refused = create(&mut service, "late", "id-late", UNLOCK + 1);
    assert_eq!(refused, Err(ServiceError::ValidationFailed(Field::UnlockAt, Reason::NotInFuture)));
    assert!(service.list_capsules(100, 0, 0).is_empty());
    assert_eq!(service.store().len(), 0);
}

#[test]
fn unlock_one_microsecond_after_creation_is_accepted() {
    let mut service = CapsuleService::new();
    assert_eq!(create(&mut service, "soon", "id", UNLOCK - 1).unwrap().unlock_at, UNLOCK);
}

#[test]
fn list_of_two_after_three_creations_is_the_last_two_newest_first() {
    let mut service = CapsuleService::new();
    let a = create(&mut service, "A", "id-a", 10).unwrap();
    let b = create(&mut service, "B", "id-b", 20).unwrap();
    let c = create(&mut service, "C", "id-c", 30).unwrap();
    let listed = service.list_capsules(2, 0, UNLOCK);
    assert_eq!(listed, vec![c, b]);
    assert_eq!(service.list_capsules(2, 2, UNLOCK), vec![a]);
}

#[test]
fn list_of_two_after_three_creations_at_one_instant() {
    let mut service = CapsuleService::new();
    create(&mut service, "A", "id-a", 10).unwrap();
    create(&mut service, "B", "id-b", 10).unwrap();
    create(&mut service, "C", "id-c", 10).unwrap();
    assert_eq!(titles(&service.list_capsules(2, 0, 10)), vec!["C", "B"]);
}

#[test]
fn listing_shows_marker_before_unlock_and_content_after() {
    let mut service = CapsuleService::new();
    service
        .create_capsule(
            "early",
            "first secret",
            "2030-01-01T00:00:00Z",
            10,
            String::from("id-1"),
            String::from("id-1b"),
        )
        .unwrap();
    service
        .create_capsule(
            "late",
            "second secret",
            "2031-01-01T00:00:00Z",
            20,
            String::from("id-2"),
            String::from("id-2b"),
        )
        .unwrap();
    let before = service.list_capsules(10, 0, UNLOCK - 1);
    let between = service.list_capsules(10, 0, UNLOCK);
    let after = service.list_capsules(10, 0, 1924992000000000);
    assert_eq!(titles(&before), vec!["late", "early"]);
    assert_eq!(before[0].content, "");
    assert_eq!(before[1].content, "");
    assert_eq!(between[0].content, "");
    assert_eq!(between[1].content, "first secret");
    assert_eq!(after[0].content, "second secret");
    assert_eq!(after[1].content, "first secret");
    for index in 0..2 {
        for listed in [&before[index], &between[index]] {
            assert_eq!(listed.internal_id, after[index].internal_id);
            assert_eq!(listed.public_id, after[index].public_id);
            assert_eq!(listed.title, after[index].title);
            assert_eq!(listed.unlock_at, after[index].unlock_at);
            assert_eq!(listed.created_at, after[index].created_at);
        }
    }
}

#[test]
fn read_of_an_identifier_never_created_is_not_found() {
    let mut service = CapsuleService::new();
    assert_eq!(service.get_capsule("nobody", 0), Err(ServiceError::NotFound));
    create(&mut service, "A", "id-a", 10).unwrap();
    assert_eq!(service.get_capsule("nobody", 0), Err(ServiceError::NotFound));
    assert_eq!(service.get_capsule("id-a-retry", 0), Err(ServiceError::NotFound));
    assert_eq!(service.get_capsule("id-", 0), Err(ServiceError::NotFound));
    assert_eq!(service.get_capsule("", UNLOCK), Err(ServiceError::NotFound));
}

#[test]
fn taken_public_id_is_retried_once_with_the_second() {
    let mut service = CapsuleService::new();
    create(&mut service, "A", "same", 10).unwrap();
    let second = create(&mut service, "B", "same", 20).unwrap();
    assert_eq!(second.public_id, "same-retry");
    assert_eq!(second.internal_id, 2);
    assert_eq!(service.get_capsule("same", UNLOCK).unwrap().title, "A");
    assert_eq!(service.get_capsule("same-retry", UNLOCK).unwrap().title, "B");
}

#[test]
fn two_taken_public_ids_are_a_conflict_and_nothing_is_stored() {
    let mut service = CapsuleService::new();
    create(&mut service, "A", "same", 10).unwrap();
    create(&mut service, "B", "same", 20).unwrap();
    assert_eq!(create(&mut service, "C", "same", 30), Err(ServiceError::Conflict));
    assert_eq!(titles(&service.list_capsules(10, 0, 0)), vec!["B", "A"]);
    assert_eq!(create(&mut service, "D", "other", 40).unwrap().internal_id, 3);
}

#[test]
fn empty_title_is_refused() {
    assert_eq!(
        validate_creation("", "c", UNLOCK_TEXT, 0),
        Err(ServiceError::ValidationFailed(Field::Title, Reason::Empty))
    );
}

#[test]
fn title_of_more_than_200_characters_is_refused() {
    let longest = "t".repeat(MAX_TITLE_CHARS);
    assert_eq!(validate_creation(&longest, "c", UNLOCK_TEXT, 0), Ok(UNLOCK));
    let too_long = "t".repeat(MAX_TITLE_CHARS + 1);
    assert_eq!(
        validate_creation(&too_long, "c", UNLOCK_TEXT, 0),
        Err(ServiceError::ValidationFailed(Field::Title, Reason::TooLong))
    );
}

#[test]
fn length_of_a_text_counts_characters_not_bytes() {
    let longest = "\u{e9}".repeat(MAX_TITLE_CHARS);
    assert_eq!(longest.len(), 2 * MAX_TITLE_CHARS);
    assert_eq!(validate_creation(&longest, "c", UNLOCK_TEXT, 0), Ok(UNLOCK));
}

#[test]
fn empty_content_is_refused() {
    assert_eq!(
        validate_creation("t", "", UNLOCK_TEXT, 0),
        Err(ServiceError::ValidationFailed(Field::Content, Reason::Empty))
    );
}

#[test]
fn content_of_more_than_10000_characters_is_refused() {
    let longest = "c".repeat(MAX_CONTENT_CHARS);
    assert_eq!(validate_creation("t", &longest, UNLOCK_TEXT, 0), Ok(UNLOCK));
    let too_long = "c".repeat(MAX_CONTENT_CHARS + 1);
    assert_eq!(
        validate_creation("t", &too_long, UNLOCK_TEXT, 0),
        Err(ServiceError::ValidationFailed(Field::Content, Reason::TooLong))
    );
}

#[test]
fn unlock_at_that_is_no_timestamp_is_refused() {
    assert_eq!(
        validate_creation("t", "c", "next year", 0),
        Err(ServiceError::ValidationFailed(Field::UnlockAt, Reason::Unparseable))
    );
    assert_eq!(
        validate_creation("t", "c", "", 0),
        Err(ServiceError::ValidationFailed(Field::UnlockAt, Reason::Unparseable))
    );
    assert_eq!(
        validate_creation("t", "c", "2030-02-30T00:00:00Z", 0),
        Err(ServiceError::ValidationFailed(Field::UnlockAt, Reason::Unparseable))
    );
}

#[test]
fn unlock_at_not_in_the_future_is_refused() {
    assert_eq!(
        validate_creation("t", "c", UNLOCK_TEXT, UNLOCK),
        Err(ServiceError::ValidationFailed(Field::UnlockAt, Reason::NotInFuture))
    );
    assert_eq!(
        validate_creation("t", "c", UNLOCK_TEXT, i64::MAX),
        Err(ServiceError::ValidationFailed(Field::UnlockAt, Reason::NotInFuture))
    );
    assert_eq!(validate_creation("t", "c", UNLOCK_TEXT, UNLOCK - 1), Ok(UNLOCK));
}

#[test]
fn unlock_at_is_compared_as_an_instant_whatever_its_zone() {
    assert_eq!(
        validate_creation("t", "c", "2030-01-01T02:00:00+02:00", UNLOCK),
        Err(ServiceError::ValidationFailed(Field::UnlockAt, Reason::NotInFuture))
    );
    assert_eq!(validate_creation("t", "c", "2030-01-01T00:00:00-02:00", UNLOCK), Ok(UNLOCK + 7200000000));
}

#[test]
fn first_field_at_fault_is_reported() {
    assert_eq!(
        validate_creation("", "", "never", 0),
        Err(ServiceError::ValidationFailed(Field::Title, Reason::Empty))
    );
    assert_eq!(
        validate_creation("t", "", "never", 0),
        Err(ServiceError::ValidationFailed(Field::Content, Reason::Empty))
    );
}

#[test]
fn refused_creation_does_not_use_up_an_internal_id() {
    let mut service = CapsuleService::new();
    assert!(service
        .create_capsule("", "c", UNLOCK_TEXT, 0, String::from("a"), String::from("b"))
        .is_err());
    assert_eq!(create(&mut service, "A", "a", 0).unwrap().internal_id, 1);
}

#[test]
fn retry_only_after_a_conflict_on_the_first_attempt() {
    assert!(should_retry(true, &Err(StoreError::Conflict)));
    assert!(!should_retry(false, &Err(StoreError::Conflict)));
    assert!(!should_retry(true, &Err(StoreError::Unavailable)));
    assert!(!should_retry(true, &Err(StoreError::NotFound)));
    assert!(!should_retry(false, &Err(StoreError::Unavailable)));
    let mut service = CapsuleService::new();
    let stored = create(&mut service, "A", "a", 0).unwrap();
    assert!(!should_retry(true, &Ok(stored.clone())));
    assert!(!should_retry(false, &Ok(stored)));
}

#[test]
fn store_failures_are_handed_on_as_they_are() {
    assert_eq!(settle(Err(StoreError::Unavailable)), Err(ServiceError::Unavailable));
    assert_eq!(settle(Err(StoreError::Conflict)), Err(ServiceError::Conflict));
    assert_eq!(settle(Err(StoreError::NotFound)), Err(ServiceError::NotFound));
    let mut service = CapsuleService::new();
    let stored = create(&mut service, "A", "a", 0).unwrap();
    assert_eq!(settle(Ok(stored.clone())), Ok(stored));
}

#[test]
fn limit_is_clamped_between_one_and_the_page_size() {
    assert_eq!(MAX_PAGE_SIZE, 100);
    assert_eq!(clamp_limit(i64::MIN), 1);
    assert_eq!(clamp_limit(-1), 1);
    assert_eq!(clamp_limit(0), 1);
    assert_eq!(clamp_limit(1), 1);
    assert_eq!(clamp_limit(2), 2);
    assert_eq!(clamp_limit(99), 99);
    assert_eq!(clamp_limit(100), 100);
    assert_eq!(clamp_limit(101), 100);
    assert_eq!(clamp_limit(i64::MAX), 100);
}

#[test]
fn negative_offset_counts_as_zero() {
    assert_eq!(clamp_offset(i64::MIN), 0);
    assert_eq!(clamp_offset(-1), 0);
    assert_eq!(clamp_offset(0), 0);
    assert_eq!(clamp_offset(7), 7);
}

#[test]
fn listing_clamps_limit_and_offset() {
    let mut service = CapsuleService::new();
    for round in 0..150 {
        create(&mut service, &format!("t{}", round), &format!("id{}", round), round).unwrap();
    }
    assert_eq!(service.list_capsules(1000, 0, 0).len(), 100);
    assert_eq!(service.list_capsules(1000, 100, 0).len(), 50);
    assert_eq!(titles(&service.list_capsules(0, 0, 0)), vec!["t149"]);
    assert_eq!(titles(&service.list_capsules(-5, -5, 0)), vec!["t149"]);
    assert_eq!(titles(&service.list_capsules(2, 148, 0)), vec!["t1", "t0"]);
    assert!(service.list_capsules(10, 150, 0).is_empty());
    assert!(service.list_capsules(10, i64::MAX, 0).is_empty());
}

#[test]
fn listing_of_an_empty_store_is_empty() {
    assert!(CapsuleService::new().list_capsules(10, 0, 0).is_empty());
}

#[test]
fn listing_never_shows_locked_content() {
    let mut service = CapsuleService::new();
    for round in 0..10 {
        create(&mut service, "T", &format!("id{}", round), round).unwrap();
    }
    for listed in service.list_capsules(100, 0, UNLOCK - 1) {
        assert_eq!(listed.content, "");
        assert_eq!(listed.unlock_at, UNLOCK);
    }
    for listed in service.list_capsules(100, 0, UNLOCK) {
        assert_eq!(listed.content, "what was sealed");
    }
}

#[test]
fn capsules_list_by_created_at_even_when_the_clock_ran_backwards() {
    let mut service = CapsuleService::new();
    create(&mut service, "at 30", "a", 30).unwrap();
    create(&mut service, "at 10", "b", 10).unwrap();
    create(&mut service, "at 20", "c", 20).unwrap();
    assert_eq!(titles(&service.list_capsules(10, 0, 0)), vec!["at 30", "at 20", "at 10"]);
}

#[test]
fn lookup_answer_is_put_under_the_time_lock() {
    let stored = Capsule {
        internal_id: 3,
        public_id: String::from("p"),
        title: String::from("t"),
        content: String::from("c"),
        unlock_at: 50,
        created_at: 10,
    };
    assert_eq!(read_answer(Ok(stored.clone()), 49).unwrap().content, "");
    assert_eq!(read_answer(Ok(stored.clone()), 50), Ok(stored));
    assert_eq!(read_answer(Err(StoreError::NotFound), 50), Err(ServiceError::NotFound));
    assert_eq!(read_answer(Err(StoreError::Unavailable), 50), Err(ServiceError::Unavailable));
}
