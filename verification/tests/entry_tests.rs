use ccp::entry::{Date, Entry, Id, Multiplied};
use ccp::search::project;
use ccp::store::{decode_entries, decode_entry, encode_entry};
use ccp::StoreError;

fn sample_entry() -> Entry {
    Entry {
        id: Id(42),
        title: String::from("a title"),
        timestamp: Date { year: 2023, month: 5, day: 6 },
        tags: vec![String::from("a"), String::from("b"), String::from("a")],
        text: String::from("some text"),
        size_bits: 2.5f64.to_bits(),
        duration_bits: 1.25f64.to_bits(),
    }
}

#[test]
fn test_entry_id_json() {
    let id = Id(7);
    let s = id.to_json();
    let e = Id::from_json(&s).unwrap();
    assert_eq!(e, id);
}

#[test]
fn id_json_text_is_bare_integer() {
    assert_eq!(Id(0).to_json(), "0");
    assert_eq!(Id(250).to_json(), "250");
    assert_eq!(Id::from_json("251"), Some(Id(251)));
    assert_eq!(Id::from_json(""), None);
    assert_eq!(Id::from_json("01"), None);
    assert_eq!(Id::from_json("12a"), None);
    assert_eq!(Id::from_json("99999999999999999999999"), None);
}

#[test]
fn path_bucket_for_250() {
    let id = Id(250);
    assert_eq!(id.out_path("/r"), "/r/store/2/250.mp4");
}

#[test]
fn path_bucket_for_99() {
    let id = Id(99);
    assert_eq!(id.out_path("/r"), "/r/store/0/99.mp4");
}

#[test]
fn temp_paths_follow_layout() {
    let id = Id(12);
    assert_eq!(id.temp_dir("/r/"), "/r/temp/12/");
    assert_eq!(id.temp_path("/r/"), "/r/temp/12/pass_1.mp4");
    assert_eq!(id.transcript("/r/"), "/r/temp/12/pass_1.txt");
}

#[test]
fn import_takes_first_elements() {
    let m = Multiplied {
        id: vec![7, 8],
        title: vec![String::from("A"), String::from("B")],
        timestamp: vec![],
        text: vec![String::from("x"), String::from("y")],
        tags: Some(vec![String::from("t1")]),
        size: vec![1.0f64.to_bits(), 2.0f64.to_bits()],
        duration: vec![3.5f64.to_bits()],
    };
    let today = Date { year: 2024, month: 1, day: 2 };
    let e = m.to_entry(today).unwrap();
    assert_eq!(e.id, Id(7));
    assert_eq!(e.title, "A");
    assert_eq!(e.text, "x");
    assert_eq!(e.timestamp, today);
    assert_eq!(e.tags, vec![String::from("t1")]);
    assert_eq!(e.size_bits, 1.0f64.to_bits());
    assert_eq!(e.duration_bits, 3.5f64.to_bits());
}

#[test]
fn import_defaults_when_arrays_absent() {
    let m = Multiplied {
        id: vec![],
        title: vec![],
        timestamp: vec![],
        text: vec![],
        tags: None,
        size: vec![],
        duration: vec![],
    };
    let today = Date { year: 2024, month: 2, day: 29 };
    let e = m.to_entry(today).unwrap();
    assert_eq!(e.id, Id(0));
    assert_eq!(e.title, "");
    assert_eq!(e.text, "");
    assert_eq!(e.timestamp, today);
    assert!(e.tags.is_empty());
    assert_eq!(e.size_bits, 0);
    assert_eq!(e.duration_bits, 0);
}

#[test]
fn import_parses_first_timestamp() {
    let m = Multiplied {
        id: vec![],
        title: vec![],
        timestamp: vec![String::from("2023-05-06T10:11:12Z"), String::from("bogus")],
        text: vec![],
        tags: None,
        size: vec![],
        duration: vec![],
    };
    let today = Date { year: 2024, month: 1, day: 1 };
    let e = m.to_entry(today).unwrap();
    assert_eq!(e.timestamp, Date { year: 2023, month: 5, day: 6 });
}

#[test]
fn import_rejects_bad_timestamp() {
    let m = Multiplied {
        id: vec![],
        title: vec![],
        timestamp: vec![String::from("not a date")],
        text: vec![],
        tags: None,
        size: vec![],
        duration: vec![],
    };
    let today = Date { year: 2024, month: 1, day: 1 };
    assert_eq!(m.to_entry(today), Err(StoreError::SerializationError));
}

#[test]
fn projection_sets_all_seven_fields() {
    let e = sample_entry();
    let d = project(&e);
    assert_eq!(d.id, 42);
    assert_eq!(d.title, "a title");
    assert_eq!(d.text, "some text");
    assert_eq!(d.tags, vec![String::from("a"), String::from("b"), String::from("a")]);
    assert_eq!(d.size_bits, 2.5f64.to_bits());
    assert_eq!(d.duration_bits, 1.25f64.to_bits());
    // midnight UTC of 2023-05-06
    assert_eq!(d.timestamp_secs, 1683331200);
}

#[test]
fn projection_truncates_to_midnight() {
    let e = Entry {
        timestamp: Date { year: 2000, month: 1, day: 1 },
        ..sample_entry()
    };
    assert_eq!(project(&e).timestamp_secs, 946684800);
    let epoch = Entry {
        timestamp: Date { year: 1970, month: 1, day: 1 },
        ..sample_entry()
    };
    assert_eq!(project(&epoch).timestamp_secs, 0);
}

#[test]
fn entry_round_trips_through_document() {
    let e = sample_entry();
    let d = encode_entry(&e);
    let back = decode_entry(&d).unwrap();
    assert_eq!(back, e);
}

#[test]
fn empty_document_does_not_decode() {
    let d = polodb_core::bson::Document::new();
    assert!(decode_entry(&d).is_none());
    let r = decode_entries(&vec![d]);
    assert_eq!(r, Err(StoreError::SerializationError));
}

#[test]
fn dates_outside_calendar_are_rejected() {
    assert!(Date::checked(2023, 2, 29).is_none());
    assert!(Date::checked(2024, 2, 29).is_some());
    assert!(Date::checked(0, 1, 1).is_some());
    assert!(Date::checked(-262144, 1, 1).is_none());
    assert!(Date::checked(262143, 1, 1).is_none());
    assert!(Date::checked(2023, 13, 1).is_none());
    assert!(Date::checked(2023, 4, 31).is_none());
}

#[test]
fn import_accepts_year_zero_timestamp() {
    let m = Multiplied {
        id: vec![],
        title: vec![],
        timestamp: vec![String::from("0000-01-01T00:00:00Z")],
        text: vec![],
        tags: None,
        size: vec![],
        duration: vec![],
    };
    let today = Date { year: 2024, month: 1, day: 1 };
    let e = m.to_entry(today).unwrap();
    assert_eq!(e.timestamp, Date { year: 0, month: 1, day: 1 });
    assert_eq!(project(&e).timestamp_secs, -62167219200);
}

#[test]
fn out_dir_is_the_bucket_directory() {
    assert_eq!(Id(250).out_dir("/r"), "/r/store/2/");
    assert_eq!(Id(99).out_dir("/r"), "/r/store/0/");
}
