use time_capsule::capsule::Capsule;
use time_capsule::error::StoreError;
use time_capsule::store::{CapsuleStore, ListOrder};

fn put(store: &mut CapsuleStore, public_id: &str, now: i64) -> Result<Capsule, StoreError> {
    store.insert(
        String::from(public_id),
        format!("title of {}", public_id),
        format!("content of {}", public_id),
        now + 1000,
        now,
    )
}

fn ids(capsules: &[Capsule]) -> Vec<String> {
    capsules.iter().map(|capsule| capsule.public_id.clone()).collect()
}

#[test]
fn new_store_is_empty() {
    let store = CapsuleStore::new();
    assert_eq!(store.len(), 0);
    assert!(store.list(ListOrder::NewestFirst, 10, 0).is_empty());
    assert!(!store.contains("a"));
}

#[test]
fn insert_hands_back_the_stored_capsule() {
    let mut store = CapsuleStore::new();
    let stored = store
        .insert(String::from("id-1"), String::from("t"), String::from("c"), 900, 100)
        .unwrap();
    assert_eq!(
        stored,
        Capsule {
            internal_id: 1,
            public_id: String::from("id-1"),
            title: String::from("t"),
            content: String::from("c"),
            unlock_at: 900,
            created_at: 100,
        }
    );
    assert_eq!(store.len(), 1);
    assert!(store.contains("id-1"));
}

#[test]
fn internal_ids_count_up_from_one() {
    let mut store = CapsuleStore::new();
    assert_eq!(put(&mut store, "a", 10).unwrap().internal_id, 1);
    assert_eq!(put(&mut store, "b", 5).unwrap().internal_id, 2);
    assert_eq!(put(&mut store, "c", 20).unwrap().internal_id, 3);
}

#[test]
fn insert_of_a_taken_public_id_is_a_conflict() {
    let mut store = CapsuleStore::new();
    put(&mut store, "a", 10).unwrap();
    assert_eq!(put(&mut store, "a", 20), Err(StoreError::Conflict));
    assert_eq!(store.len(), 1);
    assert_eq!(store.get_by_public_id("a").unwrap().created_at, 10);
    assert_eq!(put(&mut store, "b", 20).unwrap().internal_id, 2);
}

#[test]
fn store_does_not_judge_what_it_stores() {
    let mut store = CapsuleStore::new();
    let stored = store.insert(String::from("x"), String::new(), String::new(), 5, 10).unwrap();
    assert_eq!(stored.unlock_at, 5);
    assert_eq!(stored.created_at, 10);
    assert_eq!(stored.title, "");
}

#[test]
fn get_by_public_id_finds_the_exact_match_only() {
    let mut store = CapsuleStore::new();
    put(&mut store, "abc", 10).unwrap();
    put(&mut store, "abd", 11).unwrap();
    assert_eq!(store.get_by_public_id("abc").unwrap().title, "title of abc");
    assert_eq!(store.get_by_public_id("abd").unwrap().title, "title of abd");
    assert_eq!(store.get_by_public_id("ab"), Err(StoreError::NotFound));
    assert_eq!(store.get_by_public_id("abcd"), Err(StoreError::NotFound));
    assert_eq!(store.get_by_public_id("ABC"), Err(StoreError::NotFound));
    assert_eq!(store.get_by_public_id(""), Err(StoreError::NotFound));
}

#[test]
fn get_by_public_id_on_empty_store_is_not_found() {
    assert_eq!(CapsuleStore::new().get_by_public_id("a"), Err(StoreError::NotFound));
}

#[test]
fn store_never_withholds_content() {
    let mut store = CapsuleStore::new();
    put(&mut store, "a", 10).unwrap();
    assert_eq!(store.get_by_public_id("a").unwrap().content, "content of a");
    assert_eq!(store.list(ListOrder::NewestFirst, 1, 0)[0].content, "content of a");
}

#[test]
fn list_is_newest_first_by_created_at() {
    let mut store = CapsuleStore::new();
    put(&mut store, "middle", 20).unwrap();
    put(&mut store, "oldest", 10).unwrap();
    put(&mut store, "newest", 30).unwrap();
    let listed = store.list(ListOrder::NewestFirst, 10, 0);
    assert_eq!(ids(&listed), vec!["newest", "middle", "oldest"]);
}

#[test]
fn list_oldest_first_is_the_reverse() {
    let mut store = CapsuleStore::new();
    put(&mut store, "middle", 20).unwrap();
    put(&mut store, "oldest", 10).unwrap();
    put(&mut store, "newest", 30).unwrap();
    let listed = store.list(ListOrder::OldestFirst, 10, 0);
    assert_eq!(ids(&listed), vec!["oldest", "middle", "newest"]);
    assert_eq!(ids(&store.list(ListOrder::OldestFirst, 2, 1)), vec!["middle", "newest"]);
    assert_eq!(ids(&store.list(ListOrder::OldestFirst, 1, 0)), vec!["oldest"]);
}

#[test]
fn capsules_of_one_instant_list_latest_stored_first() {
    let mut store = CapsuleStore::new();
    put(&mut store, "a", 10).unwrap();
    put(&mut store, "b", 10).unwrap();
    put(&mut store, "c", 10).unwrap();
    assert_eq!(ids(&store.list(ListOrder::NewestFirst, 10, 0)), vec!["c", "b", "a"]);
}

#[test]
fn list_pages_by_limit_and_offset() {
    let mut store = CapsuleStore::new();
    for (index, name) in ["a", "b", "c", "d", "e"].iter().enumerate() {
        put(&mut store, name, index as i64).unwrap();
    }
    assert_eq!(ids(&store.list(ListOrder::NewestFirst, 2, 0)), vec!["e", "d"]);
    assert_eq!(ids(&store.list(ListOrder::NewestFirst, 2, 2)), vec!["c", "b"]);
    assert_eq!(ids(&store.list(ListOrder::NewestFirst, 2, 4)), vec!["a"]);
    assert_eq!(ids(&store.list(ListOrder::NewestFirst, 5, 0)), vec!["e", "d", "c", "b", "a"]);
    assert_eq!(ids(&store.list(ListOrder::NewestFirst, usize::MAX, 1)), vec!["d", "c", "b", "a"]);
}

#[test]
fn list_beyond_the_last_capsule_is_empty() {
    let mut store = CapsuleStore::new();
    put(&mut store, "a", 1).unwrap();
    put(&mut store, "b", 2).unwrap();
    assert!(store.list(ListOrder::NewestFirst, 10, 2).is_empty());
    assert!(store.list(ListOrder::NewestFirst, 10, 3).is_empty());
    assert!(store.list(ListOrder::NewestFirst, 10, usize::MAX).is_empty());
    assert!(store.list(ListOrder::OldestFirst, usize::MAX, usize::MAX).is_empty());
}

#[test]
fn list_with_limit_zero_is_empty() {
    let mut store = CapsuleStore::new();
    put(&mut store, "a", 1).unwrap();
    assert!(store.list(ListOrder::NewestFirst, 0, 0).is_empty());
}

#[test]
fn list_does_not_change_the_store() {
    let mut store = CapsuleStore::new();
    put(&mut store, "a", 1).unwrap();
    put(&mut store, "b", 2).unwrap();
    let first = store.list(ListOrder::NewestFirst, 10, 0);
    let second = store.list(ListOrder::NewestFirst, 10, 0);
    assert_eq!(first, second);
    assert_eq!(store.len(), 2);
}
