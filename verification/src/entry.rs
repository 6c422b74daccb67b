//! Entries, identifiers, and the filesystem layout derived from them.
//!
//! An identifier is an opaque 64-bit integer that serializes as a bare
//! integer and determines, bit for bit, where an entry's artifacts live
//! under the store's root: working files under `temp/{id}/`, the final
//! artifact under `store/{id / 100}/{id}.mp4`, sharded into buckets of a
//! hundred consecutive identifiers.

use vstd::prelude::*;
use vstd::string::*;
use vstd::pervasive::unreached;
use chrono::Datelike;
use crate::numtext::{
    dec_rep,
    push_dec,
    parse_u64_spec,
    lemma_dec_round_trip,
    parse_u64,
    u64_dec,
};
use crate::StoreError;

verus! {

/// Whether a year is a leap year of the proleptic Gregorian calendar.
pub open spec fn spec_is_leap_year(y: int) -> bool {
    (y % 4 == 0 && y % 100 != 0) || y % 400 == 0
}

/// How many days the given month of the given year has.
pub open spec fn spec_days_in_month(y: int, m: int) -> int {
    if m == 2 {
        if spec_is_leap_year(y) {
            29
        } else {
            28
        }
    } else if m == 4 || m == 6 || m == 9 || m == 11 {
        30
    } else {
        31
    }
}

/// A valid civil date: month and day lie inside the calendar.
pub open spec fn valid_ymd(y: int, m: int, d: int) -> bool {
    1 <= m <= 12 && 1 <= d <= spec_days_in_month(y, m)
}

/// A calendar date with day precision; no time of day is kept.
#[derive(Debug, Clone, Copy, PartialEq, Eq, Structural)]
pub struct Date {
    pub year: i32,
    pub month: u8,
    pub day: u8,
}

impl Date {
    /// A well-formed date: valid in the calendar, with the year in the
    /// range that dates of the import format can carry.
    pub open spec fn wf(self) -> bool {
        -262143 <= self.year <= 262142 && valid_ymd(
            self.year as int,
            self.month as int,
            self.day as int,
        )
    }

    /// Builds a date after checking it is well formed.
    pub fn checked(year: i32, month: u8, day: u8) -> (r: Option<Date>)
        ensures
            r matches Some(d) ==> d == (Date { year, month, day }) && d.wf(),
            r is None ==> !(Date { year, month, day }).wf(),
    {
        if year < -262143 || year > 262142 || month < 1 || month > 12 {
            return None;
        }
        let dim: u8 = days_in_month(year, month);
        if day < 1 || day > dim {
            return None;
        }
        Some(Date { year, month, day })
    }
}

/// How many days the given month has; executable twin of
/// [`spec_days_in_month`].
pub fn days_in_month(year: i32, month: u8) -> (r: u8)
    requires
        1 <= month <= 12,
    ensures
        r == spec_days_in_month(year as int, month as int),
{
    if month == 2 {
        let leap: bool = (year % 4 == 0 && year % 100 != 0) || year % 400 == 0;
        proof {
            vstd::arithmetic::div_mod::lemma_mod_bound(year as int, 4);
        }
        if leap {
            29
        } else {
            28
        }
    } else if month == 4 || month == 6 || month == 9 || month == 11 {
        30
    } else {
        31
    }
}

/// What parsing a timestamp string of the bulk-import format yields: the
/// civil date of the instant, as year, month and day.
pub uninterp spec fn chrono_datetime_date(s: Seq<char>) -> Option<(int, int, int)>;

/// Relies on chrono::NaiveDateTime::parse_from_str with the fixed format
/// `%Y-%m-%dT%H:%M:%SZ` and chrono::NaiveDateTime::date: the result
/// depends on the text alone, and a parsed date is a valid calendar date
/// whose year lies in the range the date type can represent.
#[verifier::external_body]
fn parse_datetime_date(s: &str) -> (r: Option<(i32, u8, u8)>)
    ensures
        r is Some <==> chrono_datetime_date(s@) is Some,
        r matches Some(d) ==> chrono_datetime_date(s@) == Some(
            (d.0 as int, d.1 as int, d.2 as int),
        ) && valid_ymd(d.0 as int, d.1 as int, d.2 as int) && -262143 <= d.0 <= 262142,
{
    match chrono::NaiveDateTime::parse_from_str(s, "%Y-%m-%dT%H:%M:%SZ") {
        Ok(dt) => {
            let d = dt.date();
            Some((d.year(), d.month() as u8, d.day() as u8))
        },
        Err(_) => None,
    }
}

/// Relies on chrono::Local::now and chrono::DateTime::date_naive: the
/// machine's current civil date.  Only its being a valid calendar date in
/// the representable year range is assumed; nothing relates two calls.
#[verifier::external_body]
fn local_today() -> (r: (i32, u8, u8))
    ensures
        valid_ymd(r.0 as int, r.1 as int, r.2 as int),
        -262143 <= r.0 <= 262142,
{
    let d = chrono::Local::now().date_naive();
    (d.year(), d.month() as u8, d.day() as u8)
}

/// Today's date from the system clock.
pub fn current_date() -> (r: Date)
    ensures
        r.wf(),
{
    let (y, m, d) = local_today();
    match Date::checked(y, m, d) {
        Some(date) => date,
        None => unreached(),
    }
}

/// An entry's identifier: a store-wide-unique 64-bit integer.
#[derive(Debug, Clone, Copy, PartialEq, Eq, Structural)]
pub struct Id(pub i64);

/// The directory bucket an identifier falls in: one directory per hundred
/// consecutive identifiers.
pub open spec fn bucket_of(id: int) -> int {
    id / 100
}

/// The working directory for an identifier: `{root}temp/{id}/`.
pub open spec fn temp_dir_spec(root: Seq<char>, id: int) -> Seq<char> {
    root + "temp/"@ + dec_rep(id as nat) + "/"@
}

/// The working video path: `{root}temp/{id}/pass_1.mp4`.
pub open spec fn temp_path_spec(root: Seq<char>, id: int) -> Seq<char> {
    root + "temp/"@ + dec_rep(id as nat) + "/pass_1.mp4"@
}

/// The transcript path: `{root}temp/{id}/pass_1.txt`.
pub open spec fn transcript_spec(root: Seq<char>, id: int) -> Seq<char> {
    root + "temp/"@ + dec_rep(id as nat) + "/pass_1.txt"@
}

/// The final artifact path: `{root}/store/{id / 100}/{id}.mp4`.
pub open spec fn out_path_spec(root: Seq<char>, id: int) -> Seq<char> {
    root + "/store/"@ + dec_rep(bucket_of(id) as nat) + "/"@ + dec_rep(id as nat) + ".mp4"@
}

/// The bucket directory the artifact lives in: `{root}/store/{id / 100}/`.
pub open spec fn out_dir_spec(root: Seq<char>, id: int) -> Seq<char> {
    root + "/store/"@ + dec_rep(bucket_of(id) as nat) + "/"@
}

/// What reading an identifier back from its serialized text yields.
pub open spec fn id_from_text(s: Seq<char>) -> Option<Id> {
    match parse_u64_spec(s) {
        Some(n) => if n <= i64::MAX {
            Some(Id(n as i64))
        } else {
            None
        },
        None => None,
    }
}

impl Id {
    /// An identifier the allocator can have produced.
    pub open spec fn wf(self) -> bool {
        0 <= self.0
    }

    /// The working directory for this identifier.
    pub fn temp_dir(&self, root: &str) -> (r: String)
        requires
            self.wf(),
        ensures
            r@ == temp_dir_spec(root@, self.0 as int),
    {
        let mut out = String::from_str(root);
        out.append("temp/");
        push_dec(self.0 as u64, &mut out);
        out.append("/");
        out
    }

    /// The working video path for this identifier.
    pub fn temp_path(&self, root: &str) -> (r: String)
        requires
            self.wf(),
        ensures
            r@ == temp_path_spec(root@, self.0 as int),
    {
        let mut out = String::from_str(root);
        out.append("temp/");
        push_dec(self.0 as u64, &mut out);
        out.append("/pass_1.mp4");
        out
    }

    /// The transcript path for this identifier.
    pub fn transcript(&self, root: &str) -> (r: String)
        requires
            self.wf(),
        ensures
            r@ == transcript_spec(root@, self.0 as int),
    {
        let mut out = String::from_str(root);
        out.append("temp/");
        push_dec(self.0 as u64, &mut out);
        out.append("/pass_1.txt");
        out
    }

    /// The final artifact path for this identifier, inside its bucket.
    pub fn out_path(&self, root: &str) -> (r: String)
        requires
            self.wf(),
        ensures
            r@ == out_path_spec(root@, self.0 as int),
    {
        let n: u64 = self.0 as u64;
        let mut out = String::from_str(root);
        out.append("/store/");
        push_dec(n / 100, &mut out);
        out.append("/");
        push_dec(n, &mut out);
        out.append(".mp4");
        out
    }

    /// The bucket directory for this identifier, created on demand by
    /// callers before the artifact is written.
    pub fn out_dir(&self, root: &str) -> (r: String)
        requires
            self.wf(),
        ensures
            r@ == out_dir_spec(root@, self.0 as int),
    {
        let n: u64 = self.0 as u64;
        let mut out = String::from_str(root);
        out.append("/store/");
        push_dec(n / 100, &mut out);
        out.append("/");
        out
    }

    /// The identifier as it is serialized: a bare decimal integer.
    pub fn to_json(&self) -> (r: String)
        requires
            self.wf(),
        ensures
            r@ == dec_rep(self.0 as nat),
    {
        u64_dec(self.0 as u64)
    }

    /// Reads an identifier back from its serialized text.
    pub fn from_json(s: &str) -> (r: Option<Id>)
        ensures
            r == id_from_text(s@),
    {
        match parse_u64(s) {
            Some(n) => if n <= 0x7FFFFFFFFFFFFFFF {
                Some(Id(n as i64))
            } else {
                None
            },
            None => None,
        }
    }
}

/// Round trip: an identifier's serialized text reads back as the same
/// identifier.
pub proof fn lemma_id_round_trip(id: Id)
    requires
        id.wf(),
    ensures
        id_from_text(dec_rep(id.0 as nat)) == Some(id),
{
    lemma_dec_round_trip(id.0 as u64);
}

/// A dated record: title, free text, ordered tags, and numeric measures.
/// The two measures are 64-bit floats carried by their bit patterns.
#[derive(Debug, Clone, PartialEq)]
pub struct Entry {
    pub id: Id,
    pub title: String,
    pub timestamp: Date,
    pub tags: Vec<String>,
    pub text: String,
    pub size_bits: u64,
    pub duration_bits: u64,
}

/// The mathematical shape of an entry: plain values and sequences.
pub struct EntryView {
    pub id: i64,
    pub title: Seq<char>,
    pub date: Date,
    pub tags: Seq<Seq<char>>,
    pub text: Seq<char>,
    pub size_bits: u64,
    pub duration_bits: u64,
}

impl View for Entry {
    type V = EntryView;

    open spec fn view(&self) -> EntryView {
        EntryView {
            id: self.id.0,
            title: self.title@,
            date: self.timestamp,
            tags: self.tags.deep_view(),
            text: self.text@,
            size_bits: self.size_bits,
            duration_bits: self.duration_bits,
        }
    }
}

impl Entry {
    /// A well-formed entry: its identifier was allocated and its date is
    /// a calendar date.
    pub open spec fn wf(self) -> bool {
        self.id.wf() && self.timestamp.wf()
    }

    /// A fresh entry with the given title, identifier and date; every
    /// other field empty or zero.
    pub fn new(title: &str, id: Id, timestamp: Date) -> (r: Entry)
        ensures
            r.id == id,
            r.title@ == title@,
            r.timestamp == timestamp,
            r.tags@ == Seq::<String>::empty(),
            r.text@ == Seq::<char>::empty(),
            r.size_bits == 0,
            r.duration_bits == 0,
    {
        Entry {
            id,
            title: String::from_str(title),
            timestamp,
            tags: Vec::new(),
            text: String::new(),
            size_bits: 0,
            duration_bits: 0,
        }
    }
}

/// A bulk-import staging record: one array per entry field, the arrays
/// not necessarily of one length.  Conversion takes only the first
/// element of each array; absent arrays default to empty or zero.
#[derive(Debug, Clone, PartialEq)]
pub struct Multiplied {
    pub id: Vec<i64>,
    pub title: Vec<String>,
    pub timestamp: Vec<String>,
    pub text: Vec<String>,
    pub tags: Option<Vec<String>>,
    pub size: Vec<u64>,
    pub duration: Vec<u64>,
}

/// Whether the record's timestamp array is empty or its first element
/// parses.
pub open spec fn import_date_ok(ts: Seq<String>) -> bool {
    ts.len() == 0 || chrono_datetime_date(ts[0]@) is Some
}

impl Multiplied {
    /// Converts the staging record to an entry, first element of each
    /// array winning and the rest discarded; an absent timestamp falls
    /// back to the given current date.
    pub fn to_entry(self, today: Date) -> (r: Result<Entry, StoreError>)
        requires
            today.wf(),
        ensures
            r is Ok <==> import_date_ok(self.timestamp@),
            r matches Err(e) ==> e == StoreError::SerializationError,
            r matches Ok(e) ==> {
                &&& e.id.0 == if self.id@.len() > 0 {
                    self.id@[0]
                } else {
                    0
                }
                &&& e.title@ == if self.title@.len() > 0 {
                    self.title@[0]@
                } else {
                    Seq::<char>::empty()
                }
                &&& e.text@ == if self.text@.len() > 0 {
                    self.text@[0]@
                } else {
                    Seq::<char>::empty()
                }
                &&& (self.timestamp@.len() == 0 ==> e.timestamp == today)
                &&& (self.timestamp@.len() > 0 ==> chrono_datetime_date(self.timestamp@[0]@)
                    == Some(
                    (e.timestamp.year as int, e.timestamp.month as int, e.timestamp.day as int),
                ))
                &&& e.timestamp.wf()
                &&& e.tags@ == (match self.tags {
                    Some(v) => v@,
                    None => Seq::<String>::empty(),
                })
                &&& e.size_bits == if self.size@.len() > 0 {
                    self.size@[0]
                } else {
                    0
                }
                &&& e.duration_bits == if self.duration@.len() > 0 {
                    self.duration@[0]
                } else {
                    0
                }
            },
    {
        let id: i64 = if self.id.len() > 0 {
            self.id[0]
        } else {
            0
        };
        let title: String = if self.title.len() > 0 {
            self.title[0].clone()
        } else {
            String::new()
        };
        let text: String = if self.text.len() > 0 {
            self.text[0].clone()
        } else {
            String::new()
        };
        let timestamp: Date = if self.timestamp.len() > 0 {
            match parse_datetime_date(self.timestamp[0].as_str()) {
                Some((y, m, d)) => match Date::checked(y, m, d) {
                    Some(date) => date,
                    None => unreached(),
                },
                None => {
                    return Err(StoreError::SerializationError);
                },
            }
        } else {
            today
        };
        let size: u64 = if self.size.len() > 0 {
            self.size[0]
        } else {
            0
        };
        let duration: u64 = if self.duration.len() > 0 {
            self.duration[0]
        } else {
            0
        };
        let tags: Vec<String> = match self.tags {
            Some(v) => v,
            None => Vec::new(),
        };
        Ok(
            Entry {
                id: Id(id),
                title,
                timestamp,
                text,
                tags,
                size_bits: size,
                duration_bits: duration,
            },
        )
    }
}

} // verus!
