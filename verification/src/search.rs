//! The search projector: from a persisted entry to a fixed-schema
//! search document.
//!
//! The mapping is fixed and exhaustive: identifier, title, text, one
//! value per tag, the date truncated to midnight UTC of its calendar
//! day, and the two float measures as 64-bit patterns.  Handing the
//! document to an index lives with the application; the projection
//! itself is pure.

use vstd::prelude::*;
use crate::entry::{Entry, Date};

verus! {

/// The fixed-schema search document: exactly the seven indexed fields.
#[derive(Debug, PartialEq)]
pub struct SearchDocument {
    pub id: i64,
    pub title: String,
    pub text: String,
    pub tags: Vec<String>,
    pub timestamp_secs: i64,
    pub size_bits: u64,
    pub duration_bits: u64,
}

/// Days between a civil date and 1970-01-01, counting the shifted year
/// that starts in March so that the leap day falls last.
pub open spec fn spec_epoch_days(y: int, m: int, d: int) -> int {
    let yy = if m <= 2 {
        y - 1
    } else {
        y
    };
    let era = yy / 400;
    let yoe = yy % 400;
    let mp = if m > 2 {
        m - 3
    } else {
        m + 9
    };
    let doy = (153 * mp + 2) / 5 + d - 1;
    let doe = yoe * 365 + yoe / 4 - yoe / 100 + doy;
    era * 146097 + doe - 719468
}

/// Seconds since the epoch of midnight UTC of the date's calendar day.
pub open spec fn spec_midnight_secs(dt: Date) -> int {
    spec_epoch_days(dt.year as int, dt.month as int, dt.day as int) * 86400
}

/// Midnight UTC of the date's calendar day, in seconds since the epoch.
/// The shifted year keeps the division arithmetic unsigned; the shift is
/// eight hundred four-century eras and is taken out again afterwards.
pub fn midnight_secs(dt: &Date) -> (r: i64)
    requires
        dt.wf(),
    ensures
        r == spec_midnight_secs(*dt),
{
    let y: i64 = dt.year as i64;
    let m: i64 = dt.month as i64;
    let d: u64 = dt.day as u64;
    let yy: i64 = if m <= 2 {
        y - 1
    } else {
        y
    };
    let shifted: u64 = (yy + 320000) as u64;
    let era_sh: u64 = shifted / 400;
    let yoe: u64 = shifted % 400;
    proof {
        vstd::arithmetic::div_mod::lemma_hoist_over_denominator(yy as int, 800, 400);
        vstd::arithmetic::div_mod::lemma_mod_multiples_vanish(800, yy as int, 400);
        vstd::arithmetic::div_mod::lemma_fundamental_div_mod(shifted as int, 400);
    }
    let mp: u64 = if m > 2 {
        (m - 3) as u64
    } else {
        (m + 9) as u64
    };
    let doy: u64 = (153 * mp + 2) / 5 + d - 1;
    let doe: u64 = yoe * 365 + yoe / 4 - yoe / 100 + doy;
    let days: i64 = (era_sh as i64 - 800) * 146097 + (doe as i64) - 719468;
    days * 86400
}

/// Clones a list of strings, value for value.
fn clone_strings(v: &Vec<String>) -> (r: Vec<String>)
    ensures
        r@ == v@,
{
    let mut out: Vec<String> = Vec::new();
    let mut i: usize = 0;
    while i < v.len()
        invariant
            i <= v@.len(),
            out@ =~= v@.take(i as int),
        decreases v@.len() - i,
    {
        out.push(v[i].clone());
        proof {
            assert(out@ =~= v@.take(i as int + 1));
        }
        i = i + 1;
    }
    proof {
        assert(v@.take(v@.len() as int) =~= v@);
    }
    out
}

/// Projects an entry into its search document.  Pure and total for any
/// well-formed entry; every one of the seven fields is set, the tags
/// one value per input tag, in order.
pub fn project(e: &Entry) -> (r: SearchDocument)
    requires
        e.wf(),
    ensures
        r.id == e.id.0,
        r.title@ == e.title@,
        r.text@ == e.text@,
        r.tags@ == e.tags@,
        r.timestamp_secs == spec_midnight_secs(e.timestamp),
        r.size_bits == e.size_bits,
        r.duration_bits == e.duration_bits,
{
    SearchDocument {
        id: e.id.0,
        title: e.title.clone(),
        text: e.text.clone(),
        tags: clone_strings(&e.tags),
        timestamp_secs: midnight_secs(&e.timestamp),
        size_bits: e.size_bits,
        duration_bits: e.duration_bits,
    }
}

} // verus!
