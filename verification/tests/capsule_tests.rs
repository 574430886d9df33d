use time_capsule::capsule::{apply_time_lock, Capsule, MAX_CONTENT_CHARS, MAX_TITLE_CHARS};

fn sample(unlock_at: i64) -> Capsule {
    Capsule {
        internal_id: 7,
        public_id: String::from("c0ffee"),
        title: String::from("To my later self"),
        content: String::from("Buy the tickets early."),
        unlock_at,
        created_at: 1000,
    }
}

#[test]
fn locked_before_unlock_instant() {
    let capsule = sample(5000);
    assert!(capsule.is_locked_at(4999));
    assert!(capsule.is_locked_at(i64::MIN));
}

#[test]
fn unlocked_from_unlock_instant_on() {
    let capsule = sample(5000);
    assert!(!capsule.is_locked_at(5000));
    assert!(!capsule.is_locked_at(5001));
    assert!(!capsule.is_locked_at(i64::MAX));
}

#[test]
fn locked_capsule_shows_marker_and_keeps_other_fields() {
    let seen = sample(5000).seen_at(4999);
    assert_eq!(seen.content, "");
    assert_eq!(seen.internal_id, 7);
    assert_eq!(seen.public_id, "c0ffee");
    assert_eq!(seen.title, "To my later self");
    assert_eq!(seen.unlock_at, 5000);
    assert_eq!(seen.created_at, 1000);
}

#[test]
fn unlocked_capsule_is_unchanged() {
    assert_eq!(sample(5000).seen_at(5000), sample(5000));
    assert_eq!(sample(5000).seen_at(9000), sample(5000));
}

#[test]
fn clone_keeps_every_field() {
    let capsule = sample(5000);
    assert_eq!(capsule.clone(), capsule);
}

#[test]
fn time_lock_applies_to_each_capsule_on_its_own() {
    let capsules = vec![sample(100), sample(200), sample(300)];
    let seen = apply_time_lock(capsules, 200);
    assert_eq!(seen.len(), 3);
    assert_eq!(seen[0], sample(100));
    assert_eq!(seen[1], sample(200));
    assert_eq!(seen[2].content, "");
    assert_eq!(seen[2].unlock_at, 300);
    assert_eq!(seen[2].title, "To my later self");
}

#[test]
fn time_lock_on_no_capsules_gives_none() {
    assert!(apply_time_lock(Vec::new(), 0).is_empty());
}

#[test]
fn bounds_of_the_texts() {
    assert_eq!(MAX_TITLE_CHARS, 200);
    assert_eq!(MAX_CONTENT_CHARS, 10000);
}
