use ccp::root::{load, parse_root, Root, Tag};
use ccp::StoreError;

fn tag(count: usize, name: &str) -> Tag {
    Tag { count, tag: String::from(name) }
}

#[test]
fn tags_by_ascending_count_with_stable_ties() {
    let root = Root {
        counter: 0,
        tags: vec![tag(5, "b"), tag(2, "a"), tag(2, "c")],
        size_bits: 0,
        entries: 0,
    };
    assert_eq!(
        root.get_tags(),
        vec![String::from("a"), String::from("c"), String::from("b")]
    );
}

#[test]
fn tags_of_empty_histogram() {
    let root = Root { counter: 0, tags: vec![], size_bits: 0, entries: 0 };
    assert!(root.get_tags().is_empty());
}

#[test]
fn tags_all_equal_counts_keep_order() {
    let root = Root {
        counter: 0,
        tags: vec![tag(1, "z"), tag(1, "y"), tag(1, "x")],
        size_bits: 0,
        entries: 0,
    };
    assert_eq!(
        root.get_tags(),
        vec![String::from("z"), String::from("y"), String::from("x")]
    );
}

#[test]
fn bootstrap_on_missing_file() {
    let (root, to_write) = load(None).unwrap();
    assert_eq!(root.counter, 0);
    assert_eq!(root.entries, 0);
    assert_eq!(root.size_bits, 0);
    assert!(root.tags.is_empty());
    let text = to_write.expect("the bootstrap value must be persisted");
    let (again, nothing) = load(Some(&text)).unwrap();
    assert_eq!(again, root);
    assert!(nothing.is_none());
}

#[test]
fn bootstrap_file_text_shape() {
    let (_, to_write) = load(None).unwrap();
    let text = to_write.unwrap();
    assert_eq!(
        text,
        "{\n  \"counter\": 0,\n  \"tags\": [],\n  \"size\": 0,\n  \"entries\": 0\n}"
    );
}

#[test]
fn aggregate_round_trips_with_tags_and_escapes() {
    let root = Root {
        counter: 3,
        tags: vec![tag(1, "a\"b\\c"), tag(7, "plain")],
        size_bits: 2.5f64.to_bits(),
        entries: 9,
    };
    let text = root.to_json();
    let parsed = parse_root(&text).unwrap();
    assert_eq!(parsed, root);
}

#[test]
fn corrupt_aggregate_is_an_error_not_an_abort() {
    assert_eq!(load(Some("garbage")), Err(StoreError::CorruptAggregate));
    assert!(parse_root("{}").is_none());
    assert!(parse_root("").is_none());
}

#[test]
fn default_root_is_the_documented_value() {
    let root = Root::default();
    assert_eq!(root.counter, 0);
    assert_eq!(root.entries, 0);
    assert_eq!(root.size_bits, 0);
    assert!(root.tags.is_empty());
}
