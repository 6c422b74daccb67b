//! The persistent entity store and the identity allocator.
//!
//! Entries live as structured records in named collections of an
//! embedded document database.  The record encoding is the library's
//! own: an entry becomes a flat document of typed fields, and reading a
//! document back yields exactly the entry it came from.  The database's
//! own calls stand behind trusted wrappers whose contracts speak of the
//! document's contents as maps from field name to plain value.

use vstd::prelude::*;
use vstd::string::*;
use crate::entry::{Entry, EntryView, Date, Id, valid_ymd};
use crate::StoreError;

verus! {

#[verifier::external_type_specification]
#[verifier::external_body]
pub struct ExDocument(polodb_core::bson::Document);

#[verifier::external_type_specification]
#[verifier::external_body]
pub struct ExDatabase(polodb_core::Database);

#[verifier::external_type_specification]
#[verifier::external_body]
#[verifier::reject_recursive_types(T)]
pub struct ExCollection<T>(polodb_core::Collection<T>);

#[verifier::external_type_specification]
#[verifier::external_body]
pub struct ExPoloError(polodb_core::Error);

/// The string-valued fields a document holds, by field name.
pub uninterp spec fn doc_strs(d: polodb_core::bson::Document) -> Map<Seq<char>, Seq<char>>;

/// The 64-bit-integer-valued fields a document holds, by field name.
pub uninterp spec fn doc_i64s(d: polodb_core::bson::Document) -> Map<Seq<char>, i64>;

/// The string-array-valued fields a document holds, by field name.
pub uninterp spec fn doc_arrs(d: polodb_core::bson::Document) -> Map<Seq<char>, Seq<Seq<char>>>;

/// The empty map of string fields.
pub open spec fn empty_strs() -> Map<Seq<char>, Seq<char>> {
    Map::empty()
}

/// The empty map of integer fields.
pub open spec fn empty_i64s() -> Map<Seq<char>, i64> {
    Map::empty()
}

/// The empty map of array fields.
pub open spec fn empty_arrs() -> Map<Seq<char>, Seq<Seq<char>>> {
    Map::empty()
}

/// Relies on bson::Document::new: a fresh document holds no fields.
#[verifier::external_body]
fn doc_new() -> (d: polodb_core::bson::Document)
    ensures
        doc_strs(d) == empty_strs(),
        doc_i64s(d) == empty_i64s(),
        doc_arrs(d) == empty_arrs(),
{
    polodb_core::bson::Document::new()
}

/// Relies on bson::Document::insert: sets the field to a string value,
/// replacing any previous value of any type under that name.
#[verifier::external_body]
fn doc_insert_str(d: &mut polodb_core::bson::Document, k: &str, v: &str)
    ensures
        doc_strs(*final(d)) == doc_strs(*old(d)).insert(k@, v@),
        doc_i64s(*final(d)) == doc_i64s(*old(d)).remove(k@),
        doc_arrs(*final(d)) == doc_arrs(*old(d)).remove(k@),
{
    d.insert(k, v);
}

/// Relies on bson::Document::insert: sets the field to a 64-bit integer
/// value, replacing any previous value of any type under that name.
#[verifier::external_body]
fn doc_insert_i64(d: &mut polodb_core::bson::Document, k: &str, v: i64)
    ensures
        doc_i64s(*final(d)) == doc_i64s(*old(d)).insert(k@, v),
        doc_strs(*final(d)) == doc_strs(*old(d)).remove(k@),
        doc_arrs(*final(d)) == doc_arrs(*old(d)).remove(k@),
{
    d.insert(k, v);
}

/// Relies on bson::Document::insert and Bson's conversion from
/// Vec<String>: sets the field to an array of strings, replacing any
/// previous value of any type under that name.
#[verifier::external_body]
fn doc_insert_str_array(d: &mut polodb_core::bson::Document, k: &str, v: &Vec<String>)
    ensures
        doc_arrs(*final(d)) == doc_arrs(*old(d)).insert(k@, v.deep_view()),
        doc_strs(*final(d)) == doc_strs(*old(d)).remove(k@),
        doc_i64s(*final(d)) == doc_i64s(*old(d)).remove(k@),
{
    d.insert(k, v.clone());
}

/// Relies on bson::Document::get_str: yields the field's value exactly
/// when the field holds a string.
#[verifier::external_body]
fn doc_get_str(d: &polodb_core::bson::Document, k: &str) -> (r: Option<String>)
    ensures
        r is Some <==> doc_strs(*d).dom().contains(k@),
        r matches Some(v) ==> v@ == doc_strs(*d)[k@],
{
    d.get_str(k).ok().map(|s| s.to_owned())
}

/// Relies on bson::Document::get_i64: yields the field's value exactly
/// when the field holds a 64-bit integer.
#[verifier::external_body]
fn doc_get_i64(d: &polodb_core::bson::Document, k: &str) -> (r: Option<i64>)
    ensures
        r is Some <==> doc_i64s(*d).dom().contains(k@),
        r matches Some(v) ==> v == doc_i64s(*d)[k@],
{
    d.get_i64(k).ok()
}

/// Relies on bson::Document::get and bson::from_bson for Vec<String>:
/// yields the field's value exactly when the field holds an array of
/// strings.
#[verifier::external_body]
fn doc_get_str_array(d: &polodb_core::bson::Document, k: &str) -> (r: Option<Vec<String>>)
    ensures
        r is Some <==> doc_arrs(*d).dom().contains(k@),
        r matches Some(v) ==> v.deep_view() == doc_arrs(*d)[k@],
{
    match d.get(k) {
        Some(b) => polodb_core::bson::from_bson::<Vec<String>>(b.clone()).ok(),
        None => None,
    }
}

/// Relies on polodb_core::Database::open_file: opens or creates the
/// embedded database file at the given path.
#[verifier::external_body]
fn db_open(path: &str) -> (r: Result<polodb_core::Database, polodb_core::Error>)
{
    polodb_core::Database::open_file(path)
}

/// Relies on polodb_core::Database::open_memory: a database kept in
/// memory, for callers that need no file.
#[verifier::external_body]
fn db_open_memory() -> (r: Result<polodb_core::Database, polodb_core::Error>)
{
    polodb_core::Database::open_memory()
}

/// Relies on polodb_core::Database::collection: a handle onto the named
/// collection, viewed as raw documents.
#[verifier::external_body]
fn db_collection(db: &polodb_core::Database, name: &str) -> (r: polodb_core::Collection<
    polodb_core::bson::Document,
>)
{
    db.collection::<polodb_core::bson::Document>(name)
}

/// Relies on polodb_core::Collection::insert_one: appends the document
/// to the collection.
#[verifier::external_body]
fn col_insert_one(
    c: &polodb_core::Collection<polodb_core::bson::Document>,
    d: &polodb_core::bson::Document,
) -> (r: Result<(), polodb_core::Error>)
{
    c.insert_one(d).map(|_| ())
}

/// Relies on polodb_core::Collection::find_one: the first stored
/// document whose fields equal the filter's, if one exists.
#[verifier::external_body]
fn col_find_one(
    c: &polodb_core::Collection<polodb_core::bson::Document>,
    filter: &polodb_core::bson::Document,
) -> (r: Result<Option<polodb_core::bson::Document>, polodb_core::Error>)
{
    c.find_one(filter.clone())
}

/// A cursor over stored documents; the database's own cursor type, held
/// opaquely.
#[verifier::external_body]
struct DocCursor {
    inner: polodb_core::ClientCursor<polodb_core::bson::Document>,
}

/// Relies on polodb_core::Collection::find: a cursor over every stored
/// document.
#[verifier::external_body]
fn col_find_all(c: &polodb_core::Collection<polodb_core::bson::Document>) -> (r: Result<
    DocCursor,
    polodb_core::Error,
>)
{
    c.find(None).map(|inner| DocCursor { inner })
}

/// Relies on the Iterator impl of polodb_core::ClientCursor: the next
/// stored document, if the cursor has one.
#[verifier::external_body]
fn cursor_next(c: &mut DocCursor) -> (r: Option<
    Result<polodb_core::bson::Document, polodb_core::Error>,
>)
{
    c.inner.next()
}

/// Relies on polodb_core::Collection::update_one: applies `$set` of the
/// given fields to the first document matching the filter; at most one
/// document is modified.
#[verifier::external_body]
fn col_update_set(
    c: &polodb_core::Collection<polodb_core::bson::Document>,
    filter: &polodb_core::bson::Document,
    set_fields: &polodb_core::bson::Document,
) -> (r: Result<u64, polodb_core::Error>)
    ensures
        r matches Ok(n) ==> n <= 1,
{
    let mut update = polodb_core::bson::Document::new();
    update.insert("$set", set_fields.clone());
    c.update_one(filter.clone(), update).map(|res| res.modified_count)
}

/// The nine field names of the entry encoding are pairwise distinct.
proof fn lemma_entry_keys_distinct()
    ensures
        "title"@.len() == 5,
        "text"@.len() == 4,
        "id"@.len() == 2,
        "year"@.len() == 4,
        "month"@.len() == 5,
        "day"@.len() == 3,
        "size"@.len() == 4,
        "duration"@.len() == 8,
        "tags"@.len() == 4,
        "title"@[0] == 't',
        "text"@[0] == 't',
        "text"@[1] == 'e',
        "year"@[0] == 'y',
        "month"@[0] == 'm',
        "size"@[0] == 's',
        "tags"@[0] == 't',
        "tags"@[1] == 'a',
        "title"@ != "text"@,
        "title"@ != "id"@,
        "title"@ != "year"@,
        "title"@ != "month"@,
        "title"@ != "day"@,
        "title"@ != "size"@,
        "title"@ != "duration"@,
        "title"@ != "tags"@,
        "text"@ != "id"@,
        "text"@ != "year"@,
        "text"@ != "month"@,
        "text"@ != "day"@,
        "text"@ != "size"@,
        "text"@ != "duration"@,
        "text"@ != "tags"@,
        "id"@ != "year"@,
        "id"@ != "month"@,
        "id"@ != "day"@,
        "id"@ != "size"@,
        "id"@ != "duration"@,
        "id"@ != "tags"@,
        "year"@ != "month"@,
        "year"@ != "day"@,
        "year"@ != "size"@,
        "year"@ != "duration"@,
        "year"@ != "tags"@,
        "month"@ != "day"@,
        "month"@ != "size"@,
        "month"@ != "duration"@,
        "month"@ != "tags"@,
        "day"@ != "size"@,
        "day"@ != "duration"@,
        "day"@ != "tags"@,
        "size"@ != "duration"@,
        "size"@ != "tags"@,
        "duration"@ != "tags"@,
{
    reveal_strlit("title");
    reveal_strlit("text");
    reveal_strlit("id");
    reveal_strlit("year");
    reveal_strlit("month");
    reveal_strlit("day");
    reveal_strlit("size");
    reveal_strlit("duration");
    reveal_strlit("tags");
}

/// The string fields of an entry's document encoding.
pub open spec fn entry_doc_strs(v: EntryView) -> Map<Seq<char>, Seq<char>> {
    empty_strs().insert("title"@, v.title).insert("text"@, v.text)
}

/// The integer fields of an entry's document encoding.  The two float
/// measures travel as their 64-bit patterns.
pub open spec fn entry_doc_i64s(v: EntryView) -> Map<Seq<char>, i64> {
    empty_i64s().insert("id"@, v.id).insert("year"@, v.date.year as i64).insert(
        "month"@,
        v.date.month as i64,
    ).insert("day"@, v.date.day as i64).insert("size"@, v.size_bits as i64).insert(
        "duration"@,
        v.duration_bits as i64,
    )
}

/// The array fields of an entry's document encoding.
pub open spec fn entry_doc_arrs(v: EntryView) -> Map<Seq<char>, Seq<Seq<char>>> {
    empty_arrs().insert("tags"@, v.tags)
}

/// What decoding a document's field maps yields: the entry they encode,
/// or nothing if a field is missing, of the wrong type, or outside the
/// calendar.
pub open spec fn decode_entry_view(
    strs: Map<Seq<char>, Seq<char>>,
    ints: Map<Seq<char>, i64>,
    arrs: Map<Seq<char>, Seq<Seq<char>>>,
) -> Option<EntryView> {
    if strs.dom().contains("title"@) && strs.dom().contains("text"@) && ints.dom().contains("id"@)
        && ints.dom().contains("year"@) && ints.dom().contains("month"@) && ints.dom().contains(
        "day"@,
    ) && ints.dom().contains("size"@) && ints.dom().contains("duration"@) && arrs.dom().contains(
        "tags"@,
    ) && -262143 <= ints["year"@] <= 262142 && valid_ymd(
        ints["year"@] as int,
        ints["month"@] as int,
        ints["day"@] as int,
    ) {
        Some(
            EntryView {
                id: ints["id"@],
                title: strs["title"@],
                date: Date {
                    year: ints["year"@] as i32,
                    month: ints["month"@] as u8,
                    day: ints["day"@] as u8,
                },
                tags: arrs["tags"@],
                text: strs["text"@],
                size_bits: ints["size"@] as u64,
                duration_bits: ints["duration"@] as u64,
            },
        )
    } else {
        None
    }
}

/// Encodes an entry as a flat document of typed fields.
pub fn encode_entry(e: &Entry) -> (d: polodb_core::bson::Document)
    ensures
        doc_strs(d) == entry_doc_strs(e@),
        doc_i64s(d) == entry_doc_i64s(e@),
        doc_arrs(d) == entry_doc_arrs(e@),
{
    let mut d = doc_new();
    doc_insert_str(&mut d, "title", e.title.as_str());
    doc_insert_str(&mut d, "text", e.text.as_str());
    doc_insert_i64(&mut d, "id", e.id.0);
    doc_insert_i64(&mut d, "year", e.timestamp.year as i64);
    doc_insert_i64(&mut d, "month", e.timestamp.month as i64);
    doc_insert_i64(&mut d, "day", e.timestamp.day as i64);
    doc_insert_i64(&mut d, "size", #[verifier::truncate] (e.size_bits as i64));
    doc_insert_i64(&mut d, "duration", #[verifier::truncate] (e.duration_bits as i64));
    doc_insert_str_array(&mut d, "tags", &e.tags);
    proof {
        lemma_entry_keys_distinct();
        assert(doc_strs(d) =~= entry_doc_strs(e@));
        assert(doc_i64s(d) =~= entry_doc_i64s(e@));
        assert(doc_arrs(d) =~= entry_doc_arrs(e@));
    }
    d
}

/// Decodes a document back into an entry; agrees exactly with
/// [`decode_entry_view`] on the document's field maps.
pub fn decode_entry(d: &polodb_core::bson::Document) -> (r: Option<Entry>)
    ensures
        r is Some <==> decode_entry_view(doc_strs(*d), doc_i64s(*d), doc_arrs(*d)) is Some,
        r matches Some(e) ==> Some(e@) == decode_entry_view(doc_strs(*d), doc_i64s(*d), doc_arrs(*d)),
{
    let title = match doc_get_str(d, "title") {
        Some(v) => v,
        None => {
            return None;
        },
    };
    let text = match doc_get_str(d, "text") {
        Some(v) => v,
        None => {
            return None;
        },
    };
    let id = match doc_get_i64(d, "id") {
        Some(v) => v,
        None => {
            return None;
        },
    };
    let year = match doc_get_i64(d, "year") {
        Some(v) => v,
        None => {
            return None;
        },
    };
    let month = match doc_get_i64(d, "month") {
        Some(v) => v,
        None => {
            return None;
        },
    };
    let day = match doc_get_i64(d, "day") {
        Some(v) => v,
        None => {
            return None;
        },
    };
    let size = match doc_get_i64(d, "size") {
        Some(v) => v,
        None => {
            return None;
        },
    };
    let duration = match doc_get_i64(d, "duration") {
        Some(v) => v,
        None => {
            return None;
        },
    };
    let tags = match doc_get_str_array(d, "tags") {
        Some(v) => v,
        None => {
            return None;
        },
    };
    if year < -262143 || year > 262142 || month < 1 || month > 12 || day < 1 || day > 31 {
        return None;
    }
    let date = match Date::checked(year as i32, month as u8, day as u8) {
        Some(dt) => dt,
        None => {
            return None;
        },
    };
    Some(
        Entry {
            id: Id(id),
            title,
            timestamp: date,
            tags,
            text,
            size_bits: #[verifier::truncate] (size as u64),
            duration_bits: #[verifier::truncate] (duration as u64),
        },
    )
}

/// Round trip: decoding the document encoding of any well-formed entry
/// yields that entry back.
pub proof fn lemma_entry_round_trip(e: Entry)
    requires
        e.wf(),
    ensures
        decode_entry_view(entry_doc_strs(e@), entry_doc_i64s(e@), entry_doc_arrs(e@)) == Some(e@),
{
    lemma_entry_keys_distinct();
    let sb = e@.size_bits;
    assert(((sb as i64) as u64) == sb) by (bit_vector);
    let db = e@.duration_bits;
    assert(((db as i64) as u64) == db) by (bit_vector);
}

/// A field-equality filter over entries.
pub enum Filter {
    /// Matches every entry.
    All,
    /// Matches the entry with this identifier.
    ById(i64),
    /// Matches entries with this exact title.
    ByTitle(String),
    /// Matches entries with this exact text.
    ByText(String),
}

/// Whether an entry satisfies a filter.
pub open spec fn filter_matches(f: Filter, v: EntryView) -> bool {
    match f {
        Filter::All => true,
        Filter::ById(i) => v.id == i,
        Filter::ByTitle(t) => v.title == t@,
        Filter::ByText(t) => v.text == t@,
    }
}

/// Executable twin of [`filter_matches`].
pub fn entry_matches(f: &Filter, e: &Entry) -> (r: bool)
    ensures
        r == filter_matches(*f, e@),
{
    match f {
        Filter::All => true,
        Filter::ById(i) => e.id.0 == *i,
        Filter::ByTitle(t) => e.title == *t,
        Filter::ByText(t) => e.text == *t,
    }
}

/// A partial-field patch: only the fields that are present change.
pub struct EntryPatch {
    pub title: Option<String>,
    pub text: Option<String>,
    pub tags: Option<Vec<String>>,
    pub size_bits: Option<u64>,
    pub duration_bits: Option<u64>,
}

/// The string fields a patch sets.
pub open spec fn patch_doc_strs(p: EntryPatch) -> Map<Seq<char>, Seq<char>> {
    let m = match p.title {
        Some(t) => empty_strs().insert("title"@, t@),
        None => empty_strs(),
    };
    match p.text {
        Some(t) => m.insert("text"@, t@),
        None => m,
    }
}

/// The integer fields a patch sets.
pub open spec fn patch_doc_i64s(p: EntryPatch) -> Map<Seq<char>, i64> {
    let m = match p.size_bits {
        Some(b) => empty_i64s().insert("size"@, b as i64),
        None => empty_i64s(),
    };
    match p.duration_bits {
        Some(b) => m.insert("duration"@, b as i64),
        None => m,
    }
}

/// The array fields a patch sets.
pub open spec fn patch_doc_arrs(p: EntryPatch) -> Map<Seq<char>, Seq<Seq<char>>> {
    match p.tags {
        Some(t) => empty_arrs().insert("tags"@, t.deep_view()),
        None => empty_arrs(),
    }
}

/// Builds the set-fields document of a patch: exactly the present
/// fields, encoded as in [`encode_entry`].
pub fn patch_doc(p: &EntryPatch) -> (d: polodb_core::bson::Document)
    ensures
        doc_strs(d) == patch_doc_strs(*p),
        doc_i64s(d) == patch_doc_i64s(*p),
        doc_arrs(d) == patch_doc_arrs(*p),
{
    let mut d = doc_new();
    match &p.title {
        Some(t) => doc_insert_str(&mut d, "title", t.as_str()),
        None => {},
    }
    match &p.text {
        Some(t) => doc_insert_str(&mut d, "text", t.as_str()),
        None => {},
    }
    match &p.size_bits {
        Some(b) => doc_insert_i64(&mut d, "size", #[verifier::truncate] (*b as i64)),
        None => {},
    }
    match &p.duration_bits {
        Some(b) => doc_insert_i64(&mut d, "duration", #[verifier::truncate] (*b as i64)),
        None => {},
    }
    match &p.tags {
        Some(t) => doc_insert_str_array(&mut d, "tags", t),
        None => {},
    }
    proof {
        lemma_entry_keys_distinct();
        assert(doc_strs(d) =~= patch_doc_strs(*p));
        assert(doc_i64s(d) =~= patch_doc_i64s(*p));
        assert(doc_arrs(d) =~= patch_doc_arrs(*p));
    }
    d
}

/// The database-side filter document for a filter.
pub fn filter_doc(f: &Filter) -> (d: polodb_core::bson::Document)
    ensures
        match *f {
            Filter::All => doc_strs(d) == empty_strs() && doc_i64s(d)
                == empty_i64s(),
            Filter::ById(i) => doc_i64s(d) == empty_i64s().insert("id"@, i)
                && doc_strs(d) == empty_strs(),
            Filter::ByTitle(t) => doc_strs(d) == empty_strs().insert(
                "title"@,
                t@,
            ) && doc_i64s(d) == empty_i64s(),
            Filter::ByText(t) => doc_strs(d) == empty_strs().insert(
                "text"@,
                t@,
            ) && doc_i64s(d) == empty_i64s(),
        },
        doc_arrs(d) == empty_arrs(),
{
    let mut d = doc_new();
    match f {
        Filter::All => {},
        Filter::ById(i) => doc_insert_i64(&mut d, "id", *i),
        Filter::ByTitle(t) => doc_insert_str(&mut d, "title", t.as_str()),
        Filter::ByText(t) => doc_insert_str(&mut d, "text", t.as_str()),
    }
    proof {
        lemma_entry_keys_distinct();
        match f {
            Filter::All => {},
            Filter::ById(i) => {
                assert(doc_i64s(d) =~= empty_i64s().insert("id"@, *i));
                assert(doc_strs(d) =~= empty_strs());
                assert(doc_arrs(d) =~= empty_arrs());
            },
            Filter::ByTitle(t) => {
                assert(doc_strs(d) =~= empty_strs().insert("title"@, t@));
                assert(doc_i64s(d) =~= empty_i64s());
                assert(doc_arrs(d) =~= empty_arrs());
            },
            Filter::ByText(t) => {
                assert(doc_strs(d) =~= empty_strs().insert("text"@, t@));
                assert(doc_i64s(d) =~= empty_i64s());
                assert(doc_arrs(d) =~= empty_arrs());
            },
        }
    }
    d
}

/// The views of a sequence of entries.
pub open spec fn entry_views(s: Seq<Entry>) -> Seq<EntryView> {
    s.map_values(|e: Entry| e@)
}

/// The subsequence of entries satisfying a filter, in order.
pub open spec fn filter_views(s: Seq<EntryView>, f: Filter) -> Seq<EntryView>
    decreases s.len(),
{
    if s.len() == 0 {
        Seq::empty()
    } else if filter_matches(f, s.last()) {
        filter_views(s.drop_last(), f).push(s.last())
    } else {
        filter_views(s.drop_last(), f)
    }
}

/// Keeps exactly the entries satisfying the filter, in their order: the
/// matching part of a fetched batch.
pub fn filter_entries(all: Vec<Entry>, f: &Filter) -> (r: Vec<Entry>)
    ensures
        entry_views(r@) == filter_views(entry_views(all@), *f),
{
    let ghost orig: Seq<Entry> = all@;
    let mut rest = all;
    let mut out: Vec<Entry> = Vec::new();
    let ghost mut k: int = 0;
    proof {
        assert(rest@ =~= orig.skip(0));
        assert(entry_views(orig).take(0) =~= Seq::<EntryView>::empty());
        assert(entry_views(out@) =~= filter_views(entry_views(orig).take(0), *f));
    }
    while rest.len() > 0
        invariant
            0 <= k <= orig.len(),
            rest@ == orig.skip(k),
            entry_views(out@) == filter_views(entry_views(orig).take(k), *f),
        decreases rest@.len(),
    {
        let e = rest.remove(0);
        proof {
            assert(e == orig[k]);
            assert(rest@ =~= orig.skip(k + 1));
        }
        let keep = entry_matches(f, &e);
        let ghost prefix: Seq<EntryView> = entry_views(orig).take(k + 1);
        proof {
            assert(prefix.drop_last() =~= entry_views(orig).take(k));
            assert(prefix.last() == orig[k]@);
        }
        if keep {
            out.push(e);
            proof {
                assert(entry_views(out@) =~= filter_views(entry_views(orig).take(k), *f).push(
                    orig[k]@,
                ));
                assert(entry_views(out@) =~= filter_views(prefix, *f));
            }
        } else {
            proof {
                assert(entry_views(out@) =~= filter_views(prefix, *f));
            }
        }
        proof {
            k = k + 1;
        }
    }
    proof {
        assert(entry_views(orig).take(orig.len() as int) =~= entry_views(orig));
    }
    out
}

/// The first entry of a sequence satisfying a filter, if any does.
pub open spec fn first_match(s: Seq<EntryView>, f: Filter) -> Option<EntryView>
    decreases s.len(),
{
    if s.len() == 0 {
        None
    } else if filter_matches(f, s[0]) {
        Some(s[0])
    } else {
        first_match(s.skip(1), f)
    }
}

/// Picks the first entry satisfying the filter out of a fetched batch.
pub fn select_first(all: Vec<Entry>, f: &Filter) -> (r: Option<Entry>)
    ensures
        r matches Some(e) ==> first_match(entry_views(all@), *f) == Some(e@),
        r is Some <==> first_match(entry_views(all@), *f) is Some,
{
    let ghost orig: Seq<Entry> = all@;
    let mut rest = all;
    let ghost mut k: int = 0;
    proof {
        assert(rest@ =~= orig.skip(0));
        assert(entry_views(rest@) =~= entry_views(orig).skip(0));
    }
    let mut found: Option<Entry> = None;
    while rest.len() > 0 && found.is_none()
        invariant
            0 <= k <= orig.len(),
            rest@ == orig.skip(k),
            found is None ==> first_match(entry_views(orig), *f) == first_match(
                entry_views(rest@),
                *f,
            ),
            found matches Some(e) ==> first_match(entry_views(orig), *f) == Some(e@),
        decreases rest@.len(),
    {
        let ghost prev: Seq<Entry> = rest@;
        let e = rest.remove(0);
        proof {
            assert(e == orig[k]);
            assert(rest@ =~= orig.skip(k + 1));
            assert(entry_views(prev)[0] == orig[k]@);
            assert(entry_views(prev).len() > 0);
        }
        if entry_matches(f, &e) {
            proof {
                assert(first_match(entry_views(prev), *f) == Some(orig[k]@));
            }
            found = Some(e);
        } else {
            proof {
                assert(entry_views(prev).skip(1) =~= entry_views(rest@));
                assert(first_match(entry_views(prev), *f) == first_match(
                    entry_views(rest@),
                    *f,
                ));
            }
        }
        proof {
            k = k + 1;
        }
    }
    proof {
        if found is None {
            assert(entry_views(rest@).len() == 0);
        }
    }
    found
}

/// Every element of a filtered sequence satisfies the filter.
proof fn lemma_filter_views_all(s: Seq<EntryView>, f: Filter)
    ensures
        forall|i: int|
            0 <= i < filter_views(s, f).len() ==> filter_matches(
                f,
                #[trigger] filter_views(s, f)[i],
            ),
    decreases s.len(),
{
    if s.len() > 0 {
        lemma_filter_views_all(s.drop_last(), f);
        assert forall|i: int| 0 <= i < filter_views(s, f).len() implies filter_matches(
            f,
            #[trigger] filter_views(s, f)[i],
        ) by {
            if filter_matches(f, s.last()) {
                if i < filter_views(s.drop_last(), f).len() {
                    assert(filter_views(s, f)[i] == filter_views(s.drop_last(), f)[i]);
                } else {
                    assert(filter_views(s, f)[i] == s.last());
                }
            } else {
                assert(filter_views(s, f)[i] == filter_views(s.drop_last(), f)[i]);
            }
        }
    }
}

/// What the first match satisfies: the filter itself.
proof fn lemma_first_match_matches(s: Seq<EntryView>, f: Filter)
    ensures
        first_match(s, f) matches Some(v) ==> filter_matches(f, v),
    decreases s.len(),
{
    if s.len() > 0 && !filter_matches(f, s[0]) {
        lemma_first_match_matches(s.skip(1), f);
    }
}

/// A sequence whose members all satisfy the filter is its own filtered
/// subsequence: filtering keeps it unchanged, members and order.
proof fn lemma_filter_views_fixpoint(s: Seq<EntryView>, f: Filter)
    requires
        forall|i: int| 0 <= i < s.len() ==> filter_matches(f, #[trigger] s[i]),
    ensures
        filter_views(s, f) == s,
    decreases s.len(),
{
    if s.len() > 0 {
        assert(s.last() == s[s.len() - 1]);
        assert forall|i: int| 0 <= i < s.drop_last().len() implies filter_matches(
            f,
            #[trigger] s.drop_last()[i],
        ) by {
            assert(s.drop_last()[i] == s[i]);
        }
        lemma_filter_views_fixpoint(s.drop_last(), f);
        assert(filter_views(s, f) =~= s);
    }
}

/// The path of the embedded database under a root: `{root}/store/CCP.db`.
pub fn store_db_path(root: &str) -> (r: String)
    ensures
        r@ == root@ + "/store/CCP.db"@,
{
    let mut path = String::from_str(root);
    path.append("/store/CCP.db");
    path
}

/// The store over the embedded document database.
pub struct DocStore {
    pub database: polodb_core::Database,
}

/// Decodes every fetched document; a single malformed record poisons the
/// batch.
pub fn decode_entries(docs: &Vec<polodb_core::bson::Document>) -> (r: Result<
    Vec<Entry>,
    StoreError,
>)
    ensures
        r matches Ok(v) ==> {
            &&& v@.len() == docs@.len()
            &&& forall|i: int|
                0 <= i < docs@.len() ==> decode_entry_view(
                    doc_strs(#[trigger] docs@[i]),
                    doc_i64s(docs@[i]),
                    doc_arrs(docs@[i]),
                ) == Some(v@[i]@)
        },
        r is Err <==> exists|i: int|
            0 <= i < docs@.len() && decode_entry_view(
                doc_strs(#[trigger] docs@[i]),
                doc_i64s(docs@[i]),
                doc_arrs(docs@[i]),
            ) is None,
        r matches Err(e) ==> e == StoreError::SerializationError,
{
    let mut out: Vec<Entry> = Vec::new();
    let mut i: usize = 0;
    while i < docs.len()
        invariant
            i <= docs@.len(),
            out@.len() == i,
            forall|j: int|
                0 <= j < i ==> decode_entry_view(
                    doc_strs(#[trigger] docs@[j]),
                    doc_i64s(docs@[j]),
                    doc_arrs(docs@[j]),
                ) == Some(out@[j]@),
        decreases docs@.len() - i,
    {
        match decode_entry(&docs[i]) {
            Some(e) => out.push(e),
            None => {
                proof {
                    assert((i as int) < docs@.len());
                    assert(decode_entry_view(
                        doc_strs(docs@[i as int]),
                        doc_i64s(docs@[i as int]),
                        doc_arrs(docs@[i as int]),
                    ) is None);
                }
                return Err(StoreError::SerializationError);
            },
        }
        i = i + 1;
    }
    Ok(out)
}

impl DocStore {
    /// Opens the embedded database under `{root}/store/CCP.db`.
    pub fn new(root: &str) -> (r: Result<DocStore, StoreError>)
        ensures
            r matches Err(e) ==> e == StoreError::StorageUnavailable,
    {
        let path = store_db_path(root);
        match db_open(path.as_str()) {
            Ok(db) => Ok(DocStore { database: db }),
            Err(_) => Err(StoreError::StorageUnavailable),
        }
    }

    /// Every stored document of the entry collection, raw.
    fn fetch_all(&self) -> (r: Result<Vec<polodb_core::bson::Document>, StoreError>)
        ensures
            r matches Err(e) ==> e == StoreError::StorageUnavailable,
    {
        let col = db_collection(&self.database, "entries");
        let mut cur = match col_find_all(&col) {
            Ok(c) => c,
            Err(_) => {
                return Err(StoreError::StorageUnavailable);
            },
        };
        let mut out: Vec<polodb_core::bson::Document> = Vec::new();
        let mut steps: u64 = 0;
        // The step bound only keeps the drain provably finite; no real
        // collection comes near it, and exhausting it is reported, never
        // returned as a truncated batch.
        while steps < 0xFFFFFFFFFFFFFFFF
            invariant
                true,
            decreases 0xFFFFFFFFFFFFFFFFu64 - steps,
        {
            match cursor_next(&mut cur) {
                Some(Ok(d)) => out.push(d),
                Some(Err(_)) => {
                    return Err(StoreError::StorageUnavailable);
                },
                None => {
                    return Ok(out);
                },
            }
            steps = steps + 1;
        }
        Err(StoreError::StorageUnavailable)
    }

    /// Every entry of the store, decoded.
    pub fn get_all(&self) -> (r: Result<Vec<Entry>, StoreError>)
        ensures
            r matches Err(e) ==> e == StoreError::StorageUnavailable || e
                == StoreError::SerializationError,
    {
        let docs = match self.fetch_all() {
            Ok(v) => v,
            Err(e) => {
                return Err(e);
            },
        };
        decode_entries(&docs)
    }

    /// Every entry matching the filter; an empty list is not an error.
    pub fn get_many(&self, f: &Filter) -> (r: Result<Vec<Entry>, StoreError>)
        ensures
            r matches Ok(v) ==> forall|i: int|
                0 <= i < v@.len() ==> filter_matches(*f, #[trigger] v@[i]@),
            r matches Ok(v) ==> filter_views(entry_views(v@), *f) == entry_views(v@),
            r matches Err(e) ==> e == StoreError::StorageUnavailable || e
                == StoreError::SerializationError,
    {
        let all = match self.get_all() {
            Ok(v) => v,
            Err(e) => {
                return Err(e);
            },
        };
        let ghost allv: Seq<EntryView> = entry_views(all@);
        let out = filter_entries(all, f);
        proof {
            lemma_filter_views_all(allv, *f);
            assert forall|i: int| 0 <= i < out@.len() implies filter_matches(
                *f,
                #[trigger] out@[i]@,
            ) by {
                assert(entry_views(out@)[i] == out@[i]@);
            }
            assert forall|i: int| 0 <= i < entry_views(out@).len() implies filter_matches(
                *f,
                #[trigger] entry_views(out@)[i],
            ) by {
                assert(entry_views(out@)[i] == out@[i]@);
            }
            lemma_filter_views_fixpoint(entry_views(out@), *f);
        }
        Ok(out)
    }

    /// The first entry matching the filter; absence is `NotFound`.
    pub fn get_one(&self, f: &Filter) -> (r: Result<Entry, StoreError>)
        ensures
            r matches Ok(e) ==> filter_matches(*f, e@),
            r matches Err(e) ==> e == StoreError::NotFound || e == StoreError::StorageUnavailable
                || e == StoreError::SerializationError,
    {
        let all = match self.get_all() {
            Ok(v) => v,
            Err(e) => {
                return Err(e);
            },
        };
        let ghost allv: Seq<EntryView> = entry_views(all@);
        match select_first(all, f) {
            Some(e) => {
                proof {
                    lemma_first_match_matches(allv, *f);
                }
                Ok(e)
            },
            None => Err(StoreError::NotFound),
        }
    }

    /// Applies a partial-field patch to the first entry matching the
    /// filter; no match is `NotFound`, and a patch that changes nothing
    /// is not an error.
    pub fn update_one(&self, f: &Filter, patch: &EntryPatch) -> (r: Result<(), StoreError>)
        ensures
            r matches Err(e) ==> e == StoreError::NotFound || e == StoreError::StorageUnavailable
                || e == StoreError::SerializationError,
    {
        match self.get_one(f) {
            Ok(_) => {},
            Err(e) => {
                return Err(e);
            },
        }
        let col = db_collection(&self.database, "entries");
        let filter = filter_doc(f);
        let set_fields = patch_doc(patch);
        match col_update_set(&col, &filter, &set_fields) {
            Ok(_) => Ok(()),
            Err(_) => Err(StoreError::StorageUnavailable),
        }
    }

    /// Appends a new entry; an entry of the same identity already stored
    /// is `DuplicateKey`.
    pub fn insert(&self, e: &Entry) -> (r: Result<(), StoreError>)
        ensures
            r matches Err(err) ==> err == StoreError::DuplicateKey || err
                == StoreError::StorageUnavailable || err == StoreError::SerializationError,
    {
        match duplicate_decision(self.get_one(&Filter::ById(e.id.0))) {
            Some(err) => {
                return Err(err);
            },
            None => {},
        }
        let col = db_collection(&self.database, "entries");
        let d = encode_entry(e);
        match col_insert_one(&col, &d) {
            Ok(()) => Ok(()),
            Err(_) => Err(StoreError::StorageUnavailable),
        }
    }

    /// A store over a database held in memory: nothing persists.
    pub fn new_in_memory() -> (r: Result<DocStore, StoreError>)
        ensures
            r matches Err(e) ==> e == StoreError::StorageUnavailable,
    {
        match db_open_memory() {
            Ok(db) => Ok(DocStore { database: db }),
            Err(_) => Err(StoreError::StorageUnavailable),
        }
    }

    /// Creates the allocator's configuration record if it is absent,
    /// with the counter at zero.
    pub fn init_config(&self) -> (r: Result<(), StoreError>)
        ensures
            r matches Err(e) ==> e == StoreError::StorageUnavailable,
    {
        let col = db_collection(&self.database, "config");
        let filter = config_filter();
        match col_find_one(&col, &filter) {
            Ok(Some(_)) => Ok(()),
            Ok(None) => {
                let d = config_record_doc();
                match col_insert_one(&col, &d) {
                    Ok(()) => Ok(()),
                    Err(_) => Err(StoreError::StorageUnavailable),
                }
            },
            Err(_) => Err(StoreError::StorageUnavailable),
        }
    }

    /// Allocates the next identifier: reads the configuration record's
    /// counter, persists its successor with a conditional update keyed
    /// on the observed value, and retries on conflict, so that no two
    /// successful allocations can return one identifier.
    pub fn allocate(&self) -> (r: Result<Id, StoreError>)
        ensures
            r matches Ok(id) ==> id.wf() && id.0 >= 1,
            r matches Err(e) ==> e == StoreError::ConfigMissing || e
                == StoreError::StorageUnavailable || e == StoreError::SerializationError,
    {
        let col = db_collection(&self.database, "config");
        let mut attempts: u64 = 0;
        while attempts < 16
            invariant
                true,
            decreases 16 - attempts,
        {
            let filter = config_filter();
            let found = match col_find_one(&col, &filter) {
                Ok(v) => v,
                Err(_) => {
                    return Err(StoreError::StorageUnavailable);
                },
            };
            let record = match found {
                Some(d) => d,
                None => {
                    return Err(StoreError::ConfigMissing);
                },
            };
            let counter = match doc_get_i64(&record, "counter") {
                Some(c) => c,
                None => {
                    return Err(StoreError::SerializationError);
                },
            };
            let next: i64 = match alloc_step(counter) {
                Ok(n) => n,
                Err(err) => {
                    return Err(err);
                },
            };
            let cas_filter = cas_filter_doc(counter);
            let set_fields = counter_set_doc(next);
            match col_update_set(&col, &cas_filter, &set_fields) {
                Ok(n) => {
                    if n >= 1 {
                        return Ok(Id(next));
                    }
                    // Another allocator advanced the counter first; read
                    // it again.
                },
                Err(_) => {
                    return Err(StoreError::StorageUnavailable);
                },
            }
            attempts = attempts + 1;
        }
        Err(StoreError::StorageUnavailable)
    }
}

/// The insert decision on the identity lookup's outcome: an entry found
/// means a duplicate, absence clears the insert, and any other failure
/// of the lookup passes through.
pub fn duplicate_decision(lookup: Result<Entry, StoreError>) -> (r: Option<StoreError>)
    ensures
        lookup is Ok ==> r == Some(StoreError::DuplicateKey),
        r is None <==> (lookup matches Err(e) && e == StoreError::NotFound),
        lookup matches Err(e) ==> ((e == StoreError::NotFound ==> r is None) && (e
            != StoreError::NotFound ==> r == Some(e))),
{
    match lookup {
        Ok(_) => Some(StoreError::DuplicateKey),
        Err(StoreError::NotFound) => None,
        Err(other) => Some(other),
    }
}

/// What one allocation step hands out: the successor of the counter it
/// started from.
pub open spec fn spec_alloc_step(c: int) -> int {
    c + 1
}

/// One allocation step on the counter read back from the configuration
/// record: the identifier handed out is exactly the observed counter
/// plus one, and a counter outside the persistable range is malformed
/// state, never a wrapped or regressed identifier.
pub fn alloc_step(counter: i64) -> (r: Result<i64, StoreError>)
    ensures
        r matches Ok(n) ==> n == spec_alloc_step(counter as int),
        r is Err <==> counter < 0 || counter == i64::MAX,
        r matches Err(e) ==> e == StoreError::SerializationError,
{
    if counter < 0 || counter == 0x7FFFFFFFFFFFFFFF {
        Err(StoreError::SerializationError)
    } else {
        Ok(counter + 1)
    }
}

/// The filter that finds the configuration record.
fn config_filter() -> (d: polodb_core::bson::Document)
    ensures
        doc_strs(d) == empty_strs().insert("_id"@, "CONFIG"@),
        doc_i64s(d) == empty_i64s(),
        doc_arrs(d) == empty_arrs(),
{
    let mut d = doc_new();
    doc_insert_str(&mut d, "_id", "CONFIG");
    proof {
        assert(doc_i64s(d) =~= empty_i64s());
        assert(doc_arrs(d) =~= empty_arrs());
    }
    d
}

/// The nine-character split: the two configuration field names differ.
proof fn lemma_config_keys_distinct()
    ensures
        "_id"@.len() == 3,
        "counter"@.len() == 7,
        "_id"@ != "counter"@,
{
    reveal_strlit("_id");
    reveal_strlit("counter");
}

/// The allocator's bootstrap record: the configuration identity with the
/// counter at zero.
fn config_record_doc() -> (d: polodb_core::bson::Document)
    ensures
        doc_strs(d) == empty_strs().insert("_id"@, "CONFIG"@),
        doc_i64s(d) == empty_i64s().insert("counter"@, 0i64),
        doc_arrs(d) == empty_arrs(),
{
    let mut d = config_filter();
    doc_insert_i64(&mut d, "counter", 0);
    proof {
        lemma_config_keys_distinct();
        assert(doc_strs(d) =~= empty_strs().insert("_id"@, "CONFIG"@));
        assert(doc_arrs(d) =~= empty_arrs());
    }
    d
}

/// The conditional-update filter: the configuration identity together
/// with the counter value the step observed.
fn cas_filter_doc(counter: i64) -> (d: polodb_core::bson::Document)
    ensures
        doc_strs(d) == empty_strs().insert("_id"@, "CONFIG"@),
        doc_i64s(d) == empty_i64s().insert("counter"@, counter),
        doc_arrs(d) == empty_arrs(),
{
    let mut d = config_filter();
    doc_insert_i64(&mut d, "counter", counter);
    proof {
        lemma_config_keys_distinct();
        assert(doc_strs(d) =~= empty_strs().insert("_id"@, "CONFIG"@));
        assert(doc_arrs(d) =~= empty_arrs());
    }
    d
}

/// The fields the conditional update persists: the new counter alone.
fn counter_set_doc(next: i64) -> (d: polodb_core::bson::Document)
    ensures
        doc_i64s(d) == empty_i64s().insert("counter"@, next),
        doc_strs(d) == empty_strs(),
        doc_arrs(d) == empty_arrs(),
{
    let mut d = doc_new();
    doc_insert_i64(&mut d, "counter", next);
    proof {
        assert(doc_strs(d) =~= empty_strs());
        assert(doc_arrs(d) =~= empty_arrs());
    }
    d
}

/// The identifiers a run of sequential allocations hands out when it
/// starts from the given persisted counter: each one is
/// [`spec_alloc_step`] — what [`DocStore::alloc_step`] returns and the
/// conditional update persists — of the identifier before it.
pub open spec fn alloc_ids(counter: int, n: nat) -> Seq<int>
    decreases n,
{
    if n == 0 {
        Seq::empty()
    } else {
        let prev = alloc_ids(counter, (n - 1) as nat);
        let last_counter = if n == 1 {
            counter
        } else {
            prev.last()
        };
        prev.push(spec_alloc_step(last_counter))
    }
}

/// Each allocated identifier is the start counter plus its position
/// plus one.
pub proof fn lemma_alloc_ids_values(counter: int, n: nat)
    ensures
        alloc_ids(counter, n).len() == n,
        forall|i: int| 0 <= i < n ==> #[trigger] alloc_ids(counter, n)[i] == counter + i + 1,
    decreases n,
{
    if n > 0 {
        lemma_alloc_ids_values(counter, (n - 1) as nat);
        let prev = alloc_ids(counter, (n - 1) as nat);
        if n > 1 {
            assert(prev.last() == prev[n - 2]);
        }
        assert forall|i: int| 0 <= i < n implies #[trigger] alloc_ids(counter, n)[i] == counter
            + i + 1 by {
            if i < n - 1 {
                assert(alloc_ids(counter, n)[i] == prev[i]);
            }
        }
    }
}

/// Uniqueness and monotonicity of allocation: across any number of
/// sequential allocations, each stepping the counter the one before it
/// persisted, the identifiers strictly increase, so no identifier is
/// ever handed out twice.
pub proof fn lemma_alloc_ids_strictly_increasing(counter: int, n: nat)
    ensures
        forall|i: int, j: int|
            0 <= i < j < n ==> alloc_ids(counter, n)[i] < alloc_ids(counter, n)[j],
{
    lemma_alloc_ids_values(counter, n);
}

} // verus!
