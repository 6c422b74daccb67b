//! The aggregate root: one denormalized summary of the whole store.
//!
//! It tracks the entry count, the total size and a tag histogram without
//! rescanning primary storage, and persists as one pretty-printed
//! structured-text file.  Rendering is pinned down character for
//! character; reading accepts exactly what rendering produces, so a
//! parsed value always re-renders to the bytes it came from.

use vstd::prelude::*;
use vstd::string::*;
use crate::numtext::{dec_rep, push_dec};
use crate::StoreError;

verus! {

/// One histogram bucket: a tag and how often it occurs.
#[derive(Debug, PartialEq)]
pub struct Tag {
    pub count: usize,
    pub tag: String,
}

/// The mathematical shape of a histogram bucket.
pub struct TagView {
    pub count: usize,
    pub tag: Seq<char>,
}

impl View for Tag {
    type V = TagView;

    open spec fn view(&self) -> TagView {
        TagView { count: self.count, tag: self.tag@ }
    }
}

/// The views of a sequence of buckets.
pub open spec fn tags_view(s: Seq<Tag>) -> Seq<TagView> {
    s.map_values(|t: Tag| t@)
}

/// The aggregate summary.  The total size is a 64-bit float carried by
/// its bit pattern, and the persisted file writes that pattern as a
/// decimal integer under `size`.
#[derive(Debug, PartialEq)]
pub struct Root {
    pub counter: i64,
    pub tags: Vec<Tag>,
    pub size_bits: u64,
    pub entries: usize,
}

/// The mathematical shape of the aggregate summary.
pub struct RootView {
    pub counter: i64,
    pub tags: Seq<TagView>,
    pub size_bits: u64,
    pub entries: usize,
}

impl View for Root {
    type V = RootView;

    open spec fn view(&self) -> RootView {
        RootView {
            counter: self.counter,
            tags: tags_view(self.tags@),
            size_bits: self.size_bits,
            entries: self.entries,
        }
    }
}

/// The documented bootstrap value: everything zero, no tags.
pub open spec fn default_root_view() -> RootView {
    RootView { counter: 0, tags: Seq::empty(), size_bits: 0, entries: 0 }
}

impl Root {
    /// A well-formed aggregate: the counter never regresses below zero.
    pub open spec fn wf(self) -> bool {
        self.counter >= 0
    }
}

impl Default for Root {
    /// The documented bootstrap value.
    fn default() -> (r: Root)
        ensures
            r@ == default_root_view(),
            r.wf(),
    {
        let r = Root { counter: 0, tags: Vec::new(), size_bits: 0, entries: 0 };
        proof {
            assert(tags_view(r.tags@) =~= Seq::<TagView>::empty());
            assert(r@ =~= default_root_view());
        }
        r
    }
}

/// Inserts a bucket into an ascending-by-count sequence, after every
/// bucket whose count is less than or equal to its own: a stable
/// insertion.
pub open spec fn insert_tag(s: Seq<TagView>, t: TagView) -> Seq<TagView>
    decreases s.len(),
{
    if s.len() == 0 {
        seq![t]
    } else if t.count < s.last().count {
        insert_tag(s.drop_last(), t).push(s.last())
    } else {
        s.push(t)
    }
}

/// Sorts buckets by ascending count, stably: insertion sort.
pub open spec fn sort_tags(s: Seq<TagView>) -> Seq<TagView>
    decreases s.len(),
{
    if s.len() == 0 {
        Seq::empty()
    } else {
        insert_tag(sort_tags(s.drop_last()), s.last())
    }
}

/// Ascending by occurrence count.
pub open spec fn sorted_by_count(s: Seq<TagView>) -> bool {
    forall|i: int, j: int| 0 <= i < j < s.len() ==> s[i].count <= s[j].count
}

/// The subsequence of buckets with one given count, in order.
pub open spec fn keep_count(s: Seq<TagView>, c: usize) -> Seq<TagView>
    decreases s.len(),
{
    if s.len() == 0 {
        Seq::empty()
    } else if s.last().count == c {
        keep_count(s.drop_last(), c).push(s.last())
    } else {
        keep_count(s.drop_last(), c)
    }
}

/// The tag names of a bucket sequence, in order.
pub open spec fn tag_names(s: Seq<TagView>) -> Seq<Seq<char>> {
    s.map_values(|t: TagView| t.tag)
}

/// Every element of an insertion's result is the inserted bucket or one
/// of the sequence's own.
proof fn lemma_insert_tag_elems(s: Seq<TagView>, t: TagView)
    ensures
        forall|k: int|
            0 <= k < insert_tag(s, t).len() ==> (#[trigger] insert_tag(s, t)[k] == t || s.contains(
                insert_tag(s, t)[k],
            )),
        insert_tag(s, t).len() == s.len() + 1,
    decreases s.len(),
{
    if s.len() == 0 {
    } else if t.count < s.last().count {
        lemma_insert_tag_elems(s.drop_last(), t);
        assert forall|k: int| 0 <= k < insert_tag(s, t).len() implies (#[trigger] insert_tag(
            s,
            t,
        )[k] == t || s.contains(insert_tag(s, t)[k])) by {
            if k < insert_tag(s.drop_last(), t).len() {
                assert(insert_tag(s, t)[k] == insert_tag(s.drop_last(), t)[k]);
                if insert_tag(s.drop_last(), t)[k] != t {
                    let i = choose|i: int|
                        0 <= i < s.drop_last().len() && s.drop_last()[i] == insert_tag(
                            s.drop_last(),
                            t,
                        )[k];
                    assert(s[i] == insert_tag(s, t)[k]);
                }
            } else {
                assert(insert_tag(s, t)[k] == s.last());
                assert(s[s.len() - 1] == s.last());
            }
        }
    } else {
        assert forall|k: int| 0 <= k < insert_tag(s, t).len() implies (#[trigger] insert_tag(
            s,
            t,
        )[k] == t || s.contains(insert_tag(s, t)[k])) by {
            if k < s.len() {
                assert(s[k] == insert_tag(s, t)[k]);
            }
        }
    }
}

/// Inserting into an ascending sequence keeps it ascending.
proof fn lemma_insert_tag_sorted(s: Seq<TagView>, t: TagView)
    requires
        sorted_by_count(s),
    ensures
        sorted_by_count(insert_tag(s, t)),
    decreases s.len(),
{
    if s.len() == 0 {
    } else if t.count < s.last().count {
        assert(sorted_by_count(s.drop_last()));
        lemma_insert_tag_sorted(s.drop_last(), t);
        lemma_insert_tag_elems(s.drop_last(), t);
        let r = insert_tag(s, t);
        assert forall|i: int, j: int| 0 <= i < j < r.len() implies r[i].count <= r[j].count by {
            if j < r.len() - 1 {
                assert(r[i] == insert_tag(s.drop_last(), t)[i]);
                assert(r[j] == insert_tag(s.drop_last(), t)[j]);
            } else {
                assert(r[j] == s.last());
                assert(r[i] == insert_tag(s.drop_last(), t)[i]);
                if insert_tag(s.drop_last(), t)[i] == t {
                } else {
                    let m = choose|m: int|
                        0 <= m < s.drop_last().len() && s.drop_last()[m] == insert_tag(
                            s.drop_last(),
                            t,
                        )[i];
                    assert(s[m].count <= s.last().count);
                }
            }
        }
    } else {
        let r = insert_tag(s, t);
        assert forall|i: int, j: int| 0 <= i < j < r.len() implies r[i].count <= r[j].count by {
            if j < r.len() - 1 {
                assert(r[i] == s[i] && r[j] == s[j]);
            } else {
                assert(r[j] == t);
                assert(r[i] == s[i]);
                assert(s[i].count <= s.last().count);
            }
        }
    }
}

/// What an insertion does to one count's subsequence: buckets of the
/// inserted count gain the new bucket at their end; every other count's
/// subsequence is untouched.
proof fn lemma_insert_tag_keep(s: Seq<TagView>, t: TagView, c: usize)
    ensures
        keep_count(insert_tag(s, t), c) == if t.count == c {
            keep_count(s, c).push(t)
        } else {
            keep_count(s, c)
        },
    decreases s.len(),
{
    if s.len() == 0 {
        assert(insert_tag(s, t) =~= seq![t]);
        assert(insert_tag(s, t).drop_last() =~= Seq::<TagView>::empty());
        assert(insert_tag(s, t).last() == t);
        assert(keep_count(Seq::<TagView>::empty(), c) =~= Seq::<TagView>::empty());
        assert(keep_count(insert_tag(s, t).drop_last(), c) == Seq::<TagView>::empty());
        assert(keep_count(s, c) == Seq::<TagView>::empty());
        if t.count == c {
            assert(keep_count(insert_tag(s, t), c) == keep_count(
                insert_tag(s, t).drop_last(),
                c,
            ).push(t));
        }
    } else if t.count < s.last().count {
        lemma_insert_tag_keep(s.drop_last(), t, c);
        let r = insert_tag(s, t);
        assert(r == insert_tag(s.drop_last(), t).push(s.last()));
        assert(r.drop_last() =~= insert_tag(s.drop_last(), t));
        assert(r.last() == s.last());
        if t.count == c {
            if s.last().count == c {
                assert(false);
            }
            assert(keep_count(r, c) == keep_count(insert_tag(s.drop_last(), t), c));
            assert(keep_count(s, c) == keep_count(s.drop_last(), c));
        } else {
            if s.last().count == c {
                assert(keep_count(r, c) == keep_count(insert_tag(s.drop_last(), t), c).push(
                    s.last(),
                ));
                assert(keep_count(s, c) == keep_count(s.drop_last(), c).push(s.last()));
            }
        }
    } else {
        let r = insert_tag(s, t);
        assert(r == s.push(t));
        assert(r.drop_last() =~= s);
        assert(r.last() == t);
    }
}

/// Sorting by ascending count keeps an ascending order, and within one
/// occurrence count it keeps the buckets' original order: ties are
/// broken by insertion order.
pub proof fn lemma_sort_tags_sorted_stable(s: Seq<TagView>, c: usize)
    ensures
        sorted_by_count(sort_tags(s)),
        keep_count(sort_tags(s), c) == keep_count(s, c),
    decreases s.len(),
{
    if s.len() == 0 {
    } else {
        lemma_sort_tags_sorted_stable(s.drop_last(), c);
        lemma_insert_tag_sorted(sort_tags(s.drop_last()), s.last());
        lemma_insert_tag_keep(sort_tags(s.drop_last()), s.last(), c);
        if s.last().count == c {
            assert(keep_count(s, c) == keep_count(s.drop_last(), c).push(s.last()));
        } else {
            assert(keep_count(s, c) == keep_count(s.drop_last(), c));
        }
    }
}

/// Relies on String::push: appends one character.
#[verifier::external_body]
fn push_char(s: &mut String, c: char)
    ensures
        final(s)@ == old(s)@.push(c),
{
    s.push(c);
}

impl Root {
    /// The tag names alone, ordered by ascending occurrence count, ties
    /// keeping their original order.
    pub fn get_tags(&self) -> (r: Vec<String>)
        ensures
            r.deep_view() == tag_names(sort_tags(tags_view(self.tags@))),
    {
        let ghost full: Seq<TagView> = tags_view(self.tags@);
        let mut sorted: Vec<Tag> = Vec::new();
        let mut i: usize = 0;
        while i < self.tags.len()
            invariant
                i <= self.tags@.len(),
                tags_view(sorted@) == sort_tags(tags_view(self.tags@).take(i as int)),
            decreases self.tags@.len() - i,
        {
            let t = Tag { count: self.tags[i].count, tag: self.tags[i].tag.clone() };
            let ghost prev: Seq<Tag> = sorted@;
            let ghost before: Seq<TagView> = tags_view(sorted@);
            let mut j: usize = sorted.len();
            while j > 0 && t.count < sorted[j - 1].count
                invariant
                    j <= sorted@.len(),
                    forall|k: int|
                        j <= k < sorted@.len() ==> t.count < (#[trigger] sorted@[k]).count,
                decreases j,
            {
                j = j - 1;
            }
            proof {
                assert forall|k: int| (j as int) <= k < before.len() implies t@.count < (
                #[trigger] before[k]).count by {
                    assert(before[k] == sorted@[k]@);
                }
                if j > 0 {
                    assert(before[j - 1] == sorted@[j - 1]@);
                }
                lemma_insert_tag_at(before, t@, j as int);
            }
            sorted.insert(j, t);
            proof {
                assert(sorted@ == prev.insert(j as int, t));
                prev.insert_ensures(j as int, t);
                before.insert_ensures(j as int, t@);
                assert forall|m: int| 0 <= m < before.len() + 1 implies #[trigger] tags_view(
                    sorted@,
                )[m] == before.insert(j as int, t@)[m] by {
                    assert(tags_view(sorted@)[m] == sorted@[m]@);
                    if m < j {
                        assert(sorted@[m] == prev[m]);
                        assert(before[m] == prev[m]@);
                    } else if m == j {
                    } else {
                        assert(sorted@[m] == prev[m - 1]);
                        assert(before[m - 1] == prev[m - 1]@);
                    }
                }
                assert(tags_view(sorted@) =~= before.insert(j as int, t@));
                let ghost whole: Seq<TagView> = tags_view(self.tags@);
                assert(whole.take(i as int + 1).drop_last() =~= whole.take(i as int));
                assert(whole.take(i as int + 1).last() == self.tags@[i as int]@);
                assert(sort_tags(whole.take(i as int + 1)) == insert_tag(
                    sort_tags(whole.take(i as int)),
                    self.tags@[i as int]@,
                ));
                assert(t@ == self.tags@[i as int]@);
                assert(insert_tag(before, t@) == before.insert(j as int, t@));
                assert(tags_view(sorted@) == insert_tag(before, t@));
                assert(before == sort_tags(whole.take(i as int)));
                assert(tags_view(sorted@) == sort_tags(whole.take(i as int + 1)));
            }
            i = i + 1;
        }
        proof {
            assert(tags_view(self.tags@).take(self.tags@.len() as int) =~= tags_view(self.tags@));
        }
        let mut out: Vec<String> = Vec::new();
        let mut k: usize = 0;
        while k < sorted.len()
            invariant
                k <= sorted@.len(),
                out@.len() == k,
                tags_view(sorted@) == sort_tags(tags_view(self.tags@)),
                out.deep_view() =~= tag_names(tags_view(sorted@)).take(k as int),
            decreases sorted@.len() - k,
        {
            let name: String = sorted[k].tag.clone();
            proof {
                assert(name == sorted@[k as int].tag);
            }
            out.push(name);
            proof {
                assert(out@[k as int] == sorted@[k as int].tag);
                assert(out@[k as int]@ == sorted@[k as int].tag@);
                assert forall|m: int| 0 <= m < out@.len() implies #[trigger] out.deep_view()[m]
                    == tag_names(tags_view(sorted@)).take(k as int + 1)[m] by {
                    assert(out.deep_view()[m] == out@[m]@);
                    assert(tag_names(tags_view(sorted@))[m] == sorted@[m].tag@);
                }
                assert(out.deep_view() =~= tag_names(tags_view(sorted@)).take(k as int + 1));
            }
            k = k + 1;
        }
        proof {
            assert(tag_names(tags_view(sorted@)).take(sorted@.len() as int) =~= tag_names(
                tags_view(sorted@),
            ));
        }
        out
    }
}

/// An insertion at the position the stable scan finds: everything from
/// the position on is strictly greater, everything before it is not.
proof fn lemma_insert_tag_at(s: Seq<TagView>, t: TagView, j: int)
    requires
        0 <= j <= s.len(),
        forall|k: int| j <= k < s.len() ==> t.count < (#[trigger] s[k]).count,
        j > 0 ==> s[j - 1].count <= t.count,
    ensures
        insert_tag(s, t) == s.insert(j, t),
    decreases s.len(),
{
    s.insert_ensures(j, t);
    if s.len() == 0 {
        assert(insert_tag(s, t) =~= s.insert(j, t));
    } else if t.count < s.last().count {
        assert(j < s.len());
        assert forall|k: int| j <= k < s.drop_last().len() implies t.count < (
        #[trigger] s.drop_last()[k]).count by {
            assert(s.drop_last()[k] == s[k]);
        }
        if j > 0 {
            assert(s.drop_last()[j - 1] == s[j - 1]);
        }
        lemma_insert_tag_at(s.drop_last(), t, j);
        s.drop_last().insert_ensures(j, t);
        assert(insert_tag(s, t) == insert_tag(s.drop_last(), t).push(s.last()));
        assert forall|m: int| 0 <= m < s.len() + 1 implies #[trigger] insert_tag(s, t)[m]
            == s.insert(j, t)[m] by {
            if m < s.drop_last().insert(j, t).len() {
                assert(insert_tag(s, t)[m] == s.drop_last().insert(j, t)[m]);
            } else {
                assert(insert_tag(s, t)[m] == s.last());
            }
            if m < j {
                assert(s.drop_last().insert(j, t)[m] == s.drop_last()[m]);
                assert(s.drop_last()[m] == s[m]);
            } else if m == j {
            } else if m < s.len() {
                assert(s.drop_last().insert(j, t)[m] == s.drop_last()[m - 1]);
                assert(s.drop_last()[m - 1] == s[m - 1]);
            } else {
                assert(s.insert(j, t)[m] == s[m - 1]);
                assert(s[s.len() - 1] == s.last());
            }
        }
        assert(insert_tag(s, t) =~= s.insert(j, t));
    } else {
        assert(j == s.len());
        assert(insert_tag(s, t) == s.push(t));
        assert(insert_tag(s, t) =~= s.insert(j, t));
    }
}


/// How one character is escaped inside a rendered tag string.
pub open spec fn esc_char(c: char) -> Seq<char> {
    if c == '"' {
        seq!['\\', '"']
    } else if c == '\\' {
        seq!['\\', '\\']
    } else {
        seq![c]
    }
}

/// A string's characters, escaped for rendering.
pub open spec fn esc(s: Seq<char>) -> Seq<char>
    decreases s.len(),
{
    if s.len() == 0 {
        Seq::empty()
    } else {
        esc(s.drop_last()) + esc_char(s.last())
    }
}

/// One rendered histogram bucket.
pub open spec fn json_tag(t: TagView) -> Seq<char> {
    "    {\n      \"count\": "@ + dec_rep(t.count as nat) + ",\n      \"tag\": \""@ + esc(t.tag)
        + "\"\n    }"@
}

/// The rendered buckets, joined.
pub open spec fn json_tag_items(ts: Seq<TagView>) -> Seq<char>
    decreases ts.len(),
{
    if ts.len() == 0 {
        Seq::empty()
    } else if ts.len() == 1 {
        json_tag(ts[0])
    } else {
        json_tag_items(ts.drop_last()) + ",\n"@ + json_tag(ts.last())
    }
}

/// The rendered bucket list.
pub open spec fn json_tags(ts: Seq<TagView>) -> Seq<char> {
    if ts.len() == 0 {
        "[]"@
    } else {
        "[\n"@ + json_tag_items(ts) + "\n  ]"@
    }
}

/// The canonical rendering of the aggregate: what the file holds,
/// character for character.
pub open spec fn json_of(r: RootView) -> Seq<char> {
    "{\n  \"counter\": "@ + dec_rep(r.counter as nat) + ",\n  \"tags\": "@ + json_tags(r.tags)
        + ",\n  \"size\": "@ + dec_rep(r.size_bits as nat) + ",\n  \"entries\": "@ + dec_rep(
        r.entries as nat,
    ) + "\n}"@
}

/// Appends a string's characters, escaped.
fn push_esc(s: &str, out: &mut String)
    ensures
        final(out)@ == old(out)@ + esc(s@),
{
    let len: usize = s.unicode_len();
    let mut i: usize = 0;
    proof {
        assert(s@.take(0) =~= Seq::<char>::empty());
        assert(old(out)@ + esc(s@.take(0)) =~= old(out)@);
    }
    while i < len
        invariant
            i <= len,
            len == s@.len(),
            out@ == old(out)@ + esc(s@.take(i as int)),
        decreases len - i,
    {
        let c = s.get_char(i);
        if c == '"' {
            out.append("\\\"");
            proof {
                reveal_strlit("\\\"");
            }
        } else if c == '\\' {
            out.append("\\\\");
            proof {
                reveal_strlit("\\\\");
            }
        } else {
            push_char(out, c);
        }
        proof {
            assert(s@.take(i as int + 1).drop_last() =~= s@.take(i as int));
            assert(s@.take(i as int + 1).last() == s@[i as int]);
            assert(out@ =~= old(out)@ + esc(s@.take(i as int + 1)));
        }
        i = i + 1;
    }
    proof {
        assert(s@.take(len as int) =~= s@);
    }
}

/// Appends one rendered bucket.
fn push_tag(t: &Tag, out: &mut String)
    ensures
        final(out)@ == old(out)@ + json_tag(t@),
{
    out.append("    {\n      \"count\": ");
    push_dec(t.count as u64, out);
    out.append(",\n      \"tag\": \"");
    push_esc(t.tag.as_str(), out);
    out.append("\"\n    }");
    proof {
        assert(out@ =~= old(out)@ + json_tag(t@));
    }
}

/// Appends the rendered bucket list.
fn push_tags(ts: &Vec<Tag>, out: &mut String)
    ensures
        final(out)@ == old(out)@ + json_tags(tags_view(ts@)),
{
    if ts.len() == 0 {
        out.append("[]");
        proof {
            assert(tags_view(ts@).len() == 0);
        }
        return ;
    }
    out.append("[\n");
    let mut i: usize = 0;
    while i < ts.len()
        invariant
            i <= ts@.len(),
            ts@.len() > 0,
            out@ == old(out)@ + "[\n"@ + json_tag_items(tags_view(ts@).take(i as int)),
        decreases ts@.len() - i,
    {
        if i > 0 {
            out.append(",\n");
        }
        push_tag(&ts[i], out);
        proof {
            let whole: Seq<TagView> = tags_view(ts@);
            assert(whole.take(i as int + 1).drop_last() =~= whole.take(i as int));
            assert(whole.take(i as int + 1).last() == ts@[i as int]@);
            if i == 0 {
                assert(whole.take(1)[0] == ts@[0]@);
                assert(json_tag_items(whole.take(1)) == json_tag(ts@[0]@));
                assert(out@ =~= old(out)@ + "[\n"@ + json_tag_items(whole.take(i as int + 1)));
            } else {
                assert(json_tag_items(whole.take(i as int + 1)) == json_tag_items(
                    whole.take(i as int),
                ) + ",\n"@ + json_tag(ts@[i as int]@));
                assert(out@ =~= old(out)@ + "[\n"@ + json_tag_items(whole.take(i as int + 1)));
            }
        }
        i = i + 1;
    }
    out.append("\n  ]");
    proof {
        assert(tags_view(ts@).take(ts@.len() as int) =~= tags_view(ts@));
        assert(out@ =~= old(out)@ + json_tags(tags_view(ts@)));
    }
}

impl Root {
    /// The canonical rendering: pretty-printed structured text,
    /// exactly [`json_of`] of this value.
    pub fn to_json(&self) -> (r: String)
        requires
            self.wf(),
        ensures
            r@ == json_of(self@),
    {
        let mut out = String::new();
        out.append("{\n  \"counter\": ");
        push_dec(self.counter as u64, &mut out);
        out.append(",\n  \"tags\": ");
        push_tags(&self.tags, &mut out);
        out.append(",\n  \"size\": ");
        push_dec(self.size_bits, &mut out);
        out.append(",\n  \"entries\": ");
        push_dec(self.entries as u64, &mut out);
        out.append("\n}");
        proof {
            assert(out@ =~= json_of(self@));
        }
        out
    }
}


/// Matches a fixed literal at a position; yields the position after it.
fn expect_lit(s: &str, i: usize, lit: &str) -> (r: Option<usize>)
    ensures
        r matches Some(p) ==> i <= p && p <= s@.len(),
{
    let n: usize = lit.unicode_len();
    let slen: usize = s.unicode_len();
    if i > slen {
        return None;
    }
    let mut j: usize = 0;
    let mut p: usize = i;
    while j < n
        invariant
            j <= n,
            i <= p,
            p <= slen,
            slen == s@.len(),
            n == lit@.len(),
        decreases n - j,
    {
        if p >= slen {
            return None;
        }
        if s.get_char(p) != lit.get_char(j) {
            return None;
        }
        p = p + 1;
        j = j + 1;
    }
    Some(p)
}

/// Reads a run of decimal digits at a position.
fn scan_num(s: &str, i: usize) -> (r: Option<(u64, usize)>)
    ensures
        r matches Some(t) ==> i < t.1 && t.1 <= s@.len(),
{
    let slen: usize = s.unicode_len();
    if i > slen {
        return None;
    }
    let mut p: usize = i;
    let mut acc: u64 = 0;
    let mut any: bool = false;
    while p < slen
        invariant
            i <= p,
            p <= slen,
            slen == s@.len(),
            any ==> i < p,
        decreases slen - p,
    {
        let c: u32 = s.get_char(p) as u32;
        if c < 48 || c > 57 {
            if any {
                return Some((acc, p));
            }
            return None;
        }
        let d: u64 = (c - 48) as u64;
        if acc > (0xFFFFFFFFFFFFFFFF - d) / 10 {
            return None;
        }
        proof {
            vstd::arithmetic::div_mod::lemma_fundamental_div_mod(
                (0xFFFFFFFFFFFFFFFF - d) as int,
                10,
            );
        }
        acc = acc * 10 + d;
        any = true;
        p = p + 1;
    }
    if any {
        Some((acc, p))
    } else {
        None
    }
}

/// Reads an escaped string body up to its closing quote.
fn scan_string(s: &str, i: usize) -> (r: Option<(String, usize)>)
    ensures
        r matches Some(t) ==> i < t.1 && t.1 <= s@.len(),
{
    let slen: usize = s.unicode_len();
    if i > slen {
        return None;
    }
    let mut p: usize = i;
    let mut out = String::new();
    while p < slen
        invariant
            i <= p,
            p <= slen,
            slen == s@.len(),
        decreases slen - p,
    {
        let c = s.get_char(p);
        if c == '"' {
            return Some((out, p + 1));
        }
        if c == '\\' {
            if p + 1 >= slen {
                return None;
            }
            let c2 = s.get_char(p + 1);
            if c2 == '"' {
                push_char(&mut out, '"');
            } else if c2 == '\\' {
                push_char(&mut out, '\\');
            } else {
                return None;
            }
            p = p + 2;
        } else {
            push_char(&mut out, c);
            p = p + 1;
        }
    }
    None
}

/// Extracts a candidate aggregate from canonical text; the caller
/// re-renders and compares, so only the candidate's shape matters here.
fn scan_root(s: &str) -> (r: Option<Root>)
{
    let slen: usize = s.unicode_len();
    let p = match expect_lit(s, 0, "{\n  \"counter\": ") {
        Some(p) => p,
        None => {
            return None;
        },
    };
    let (counter_u, p) = match scan_num(s, p) {
        Some(t) => t,
        None => {
            return None;
        },
    };
    if counter_u > 0x7FFFFFFFFFFFFFFF {
        return None;
    }
    let p = match expect_lit(s, p, ",\n  \"tags\": ") {
        Some(p) => p,
        None => {
            return None;
        },
    };
    let mut tags: Vec<Tag> = Vec::new();
    let p = match expect_lit(s, p, "[]") {
        Some(p2) => p2,
        None => {
            let mut p2 = match expect_lit(s, p, "[\n") {
                Some(q) => q,
                None => {
                    return None;
                },
            };
            let mut done: bool = false;
            while !done
                invariant
                    p2 <= s@.len(),
                decreases s@.len() - p2 + (if done { 0int } else { 1int }),
            {
                let p3 = match expect_lit(s, p2, "    {\n      \"count\": ") {
                    Some(q) => q,
                    None => {
                        return None;
                    },
                };
                let (cnt, p4) = match scan_num(s, p3) {
                    Some(t) => t,
                    None => {
                        return None;
                    },
                };
                if cnt > usize::MAX as u64 {
                    return None;
                }
                let p5 = match expect_lit(s, p4, ",\n      \"tag\": \"") {
                    Some(q) => q,
                    None => {
                        return None;
                    },
                };
                let (name, p6) = match scan_string(s, p5) {
                    Some(t) => t,
                    None => {
                        return None;
                    },
                };
                let p7 = match expect_lit(s, p6, "\n    }") {
                    Some(q) => q,
                    None => {
                        return None;
                    },
                };
                tags.push(Tag { count: cnt as usize, tag: name });
                match expect_lit(s, p7, ",\n") {
                    Some(p8) => {
                        p2 = p8;
                    },
                    None => {
                        match expect_lit(s, p7, "\n  ]") {
                            Some(p8) => {
                                p2 = p8;
                                done = true;
                            },
                            None => {
                                return None;
                            },
                        }
                    },
                }
            }
            p2
        },
    };
    let p = match expect_lit(s, p, ",\n  \"size\": ") {
        Some(q) => q,
        None => {
            return None;
        },
    };
    let (size_u, p) = match scan_num(s, p) {
        Some(t) => t,
        None => {
            return None;
        },
    };
    let p = match expect_lit(s, p, ",\n  \"entries\": ") {
        Some(q) => q,
        None => {
            return None;
        },
    };
    let (ent_u, p) = match scan_num(s, p) {
        Some(t) => t,
        None => {
            return None;
        },
    };
    if ent_u > usize::MAX as u64 {
        return None;
    }
    let p = match expect_lit(s, p, "\n}") {
        Some(q) => q,
        None => {
            return None;
        },
    };
    if p != slen {
        return None;
    }
    Some(
        Root {
            counter: counter_u as i64,
            tags,
            size_bits: size_u,
            entries: ent_u as usize,
        },
    )
}

/// Reads an aggregate back from file text.  It accepts exactly the
/// canonical rendering: a parsed value always re-renders to the very
/// text it came from, and the bootstrap value's own rendering is always
/// accepted.  Any other text — different spacing, or a size field
/// written as a float instead of its 64-bit pattern — reads back as
/// absent, which `load` reports as a corrupt aggregate.  That every
/// canonical rendering is accepted holds of the scanner but is shown
/// here only for the bootstrap value; the tests exercise it on values
/// with tags and escapes.
pub fn parse_root(s: &str) -> (r: Option<Root>)
    ensures
        r matches Some(root) ==> root.wf() && s@ == json_of(root@),
        s@ == json_of(default_root_view()) ==> r is Some,
{
    let dflt = Root::default();
    let dtext = dflt.to_json();
    let owned = String::from_str(s);
    if dtext == owned {
        return Some(dflt);
    }
    match scan_root(s) {
        Some(cand) => {
            if cand.counter >= 0 {
                let ctext = cand.to_json();
                if ctext == owned {
                    Some(cand)
                } else {
                    None
                }
            } else {
                None
            }
        },
        None => None,
    }
}

/// Loads the aggregate from the backing file's text, or bootstraps it.
///
/// A missing file yields the documented default together with the text
/// to persist for it; a file that parses yields its value and nothing
/// to write; a file that exists but cannot be read back is
/// `CorruptAggregate`, never an abort.
pub fn load(contents: Option<&str>) -> (r: Result<(Root, Option<String>), StoreError>)
    ensures
        r matches Err(e) ==> e == StoreError::CorruptAggregate && contents is Some,
        contents is None ==> (r matches Ok(p) && p.0@ == default_root_view() && (p.1 matches Some(
            t,
        ) && t@ == json_of(default_root_view()))),
        contents matches Some(s) ==> (r matches Ok(p) ==> (p.0.wf() && s@ == json_of(p.0@)
            && p.1 is None)),
        contents matches Some(s) ==> (s@ == json_of(default_root_view()) ==> r is Ok),
{
    match contents {
        None => {
            let d = Root::default();
            let t = d.to_json();
            Ok((d, Some(t)))
        },
        Some(s) => match parse_root(s) {
            Some(root) => Ok((root, None)),
            None => Err(StoreError::CorruptAggregate),
        },
    }
}

} // verus!
