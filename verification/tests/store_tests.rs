use ccp::entry::{Date, Entry, Id};
use ccp::store::{alloc_step, duplicate_decision, store_db_path, DocStore, EntryPatch, Filter};
use ccp::StoreError;

fn entry(id: i64, title: &str) -> Entry {
    Entry {
        id: Id(id),
        title: String::from(title),
        timestamp: Date { year: 2023, month: 5, day: 6 },
        tags: vec![String::from("t")],
        text: String::from("body"),
        size_bits: 1.5f64.to_bits(),
        duration_bits: 0,
    }
}

fn no_patch() -> EntryPatch {
    EntryPatch { title: None, text: None, tags: None, size_bits: None, duration_bits: None }
}

#[test]
fn allocate_without_config_is_config_missing() {
    let store = DocStore::new_in_memory().unwrap();
    assert_eq!(store.allocate(), Err(StoreError::ConfigMissing));
}

#[test]
fn allocate_returns_strictly_increasing_identifiers() {
    let store = DocStore::new_in_memory().unwrap();
    store.init_config().unwrap();
    let a = store.allocate().unwrap();
    let b = store.allocate().unwrap();
    let c = store.allocate().unwrap();
    assert_eq!(a, Id(1));
    assert_eq!(b, Id(2));
    assert_eq!(c, Id(3));
    assert!(a.0 < b.0 && b.0 < c.0);
}

#[test]
fn insert_then_get_one_by_id() {
    let store = DocStore::new_in_memory().unwrap();
    let e = entry(1, "first");
    store.insert(&e).unwrap();
    let got = store.get_one(&Filter::ById(1)).unwrap();
    assert_eq!(got, e);
}

#[test]
fn insert_same_identity_is_duplicate_key() {
    let store = DocStore::new_in_memory().unwrap();
    store.insert(&entry(1, "first")).unwrap();
    assert_eq!(store.insert(&entry(1, "again")), Err(StoreError::DuplicateKey));
}

#[test]
fn get_one_without_match_is_not_found() {
    let store = DocStore::new_in_memory().unwrap();
    store.insert(&entry(1, "first")).unwrap();
    assert_eq!(store.get_one(&Filter::ById(2)), Err(StoreError::NotFound));
}

#[test]
fn get_many_filters_and_get_all_returns_everything() {
    let store = DocStore::new_in_memory().unwrap();
    store.insert(&entry(1, "same")).unwrap();
    store.insert(&entry(2, "same")).unwrap();
    store.insert(&entry(3, "other")).unwrap();
    let same = store.get_many(&Filter::ByTitle(String::from("same"))).unwrap();
    assert_eq!(same.len(), 2);
    let none = store.get_many(&Filter::ByTitle(String::from("missing"))).unwrap();
    assert!(none.is_empty());
    let all = store.get_all().unwrap();
    assert_eq!(all.len(), 3);
}

#[test]
fn update_one_patches_first_match() {
    let store = DocStore::new_in_memory().unwrap();
    store.insert(&entry(1, "old")).unwrap();
    let patch = EntryPatch { title: Some(String::from("new")), ..no_patch() };
    store.update_one(&Filter::ById(1), &patch).unwrap();
    let got = store.get_one(&Filter::ById(1)).unwrap();
    assert_eq!(got.title, "new");
    assert_eq!(got.text, "body");
}

#[test]
fn update_one_without_match_is_not_found() {
    let store = DocStore::new_in_memory().unwrap();
    let r = store.update_one(&Filter::ById(9), &no_patch());
    assert_eq!(r, Err(StoreError::NotFound));
}

#[test]
fn update_one_no_op_patch_is_not_an_error() {
    let store = DocStore::new_in_memory().unwrap();
    store.insert(&entry(1, "same")).unwrap();
    assert_eq!(store.update_one(&Filter::ById(1), &no_patch()), Ok(()));
}

#[test]
fn alloc_step_is_the_counter_successor() {
    assert_eq!(alloc_step(0), Ok(1));
    assert_eq!(alloc_step(41), Ok(42));
    assert_eq!(alloc_step(-1), Err(StoreError::SerializationError));
    assert_eq!(alloc_step(i64::MAX), Err(StoreError::SerializationError));
}

#[test]
fn duplicate_decision_on_each_lookup_outcome() {
    assert_eq!(
        duplicate_decision(Ok(entry(1, "x"))),
        Some(StoreError::DuplicateKey)
    );
    assert_eq!(duplicate_decision(Err(StoreError::NotFound)), None);
    assert_eq!(
        duplicate_decision(Err(StoreError::StorageUnavailable)),
        Some(StoreError::StorageUnavailable)
    );
}

#[test]
fn database_path_under_root() {
    assert_eq!(store_db_path("/r"), "/r/store/CCP.db");
}

#[test]
fn get_many_by_exact_text() {
    let store = DocStore::new_in_memory().unwrap();
    store.insert(&entry(1, "a")).unwrap();
    store.insert(&entry(2, "b")).unwrap();
    let hits = store.get_many(&Filter::ByText(String::from("body"))).unwrap();
    assert_eq!(hits.len(), 2);
    let none = store.get_many(&Filter::ByText(String::from("other"))).unwrap();
    assert!(none.is_empty());
}

#[test]
fn open_under_missing_directory_is_storage_unavailable() {
    let r = DocStore::new("no_such_directory_for_ccp_tests");
    assert!(matches!(r, Err(StoreError::StorageUnavailable)));
}
