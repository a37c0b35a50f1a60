//! Records of the upstream change feed, and the reconciliation that picks
//! what to republish.
//!
//! Each feed record carries a sequence number and a list of changes, every
//! change an insert or a delete whose payload is one JSON object.  The feed
//! serves several upstream views, so the payload is kept as raw text here
//! and decoded by whoever consumes the republished line.  Upstream upsert
//! semantics make a delete immediately before an insert in the same record
//! a replacement, not a removal, so the record's effective outcome is its
//! most recent insert: the list is scanned from the end and the first
//! insert found is republished; deletes and earlier inserts are ignored.

use vstd::prelude::*;
use crate::json::{spec_parse_int, spec_parse_lit, parse_int, parse_lit, push_char};

verus! {

/// Mathematical value of a [`FeedChange`].
pub enum FeedChangeView {
    Insert(Seq<char>),
    Delete(Seq<char>),
}

/// One change within a feed record; the payload is the raw text of one
/// JSON object.
#[derive(Debug)]
pub enum FeedChange {
    Insert(String),
    Delete(String),
}

impl View for FeedChange {
    type V = FeedChangeView;

    open spec fn view(&self) -> FeedChangeView {
        match self {
            FeedChange::Insert(p) => FeedChangeView::Insert(p@),
            FeedChange::Delete(p) => FeedChangeView::Delete(p@),
        }
    }
}

/// Mathematical value of a [`FeedRecord`].
pub struct FeedRecordView {
    pub sequence_number: int,
    pub changes: Seq<FeedChangeView>,
}

/// One line of the upstream change feed.
#[derive(Debug)]
pub struct FeedRecord {
    pub sequence_number: i64,
    pub changes: Vec<FeedChange>,
}

impl View for FeedRecord {
    type V = FeedRecordView;

    open spec fn view(&self) -> FeedRecordView {
        FeedRecordView {
            sequence_number: self.sequence_number as int,
            changes: self.changes@.map_values(|c: FeedChange| c@),
        }
    }
}

// ---------------------------------------------------------------------------
// Balanced-object scanning
// ---------------------------------------------------------------------------

/// Position just after the object that starts at the `{` which took the
/// scan from depth `depth - 1` to `depth`; the scan is at `i`, inside a
/// string when `in_str`, right after a backslash when `esc`.
pub open spec fn scan_object_end(s: Seq<char>, i: int, depth: int, in_str: bool, esc: bool) -> Option<int>
    decreases s.len() - i,
{
    if i < 0 || i >= s.len() {
        None
    } else {
        let c = s[i];
        if in_str {
            if esc { scan_object_end(s, i + 1, depth, true, false) }
            else if c == '\\' { scan_object_end(s, i + 1, depth, true, true) }
            else if c == '"' { scan_object_end(s, i + 1, depth, false, false) }
            else { scan_object_end(s, i + 1, depth, true, false) }
        } else if c == '"' { scan_object_end(s, i + 1, depth, true, false) }
        else if c == '{' { scan_object_end(s, i + 1, depth + 1, false, false) }
        else if c == '}' {
            if depth == 1 { Some(i + 1) } else { scan_object_end(s, i + 1, depth - 1, false, false) }
        } else { scan_object_end(s, i + 1, depth, false, false) }
    }
}

/// The raw text of the JSON object standing at `i`, and the position after
/// it: `s[i]` must be `{` and the braces must balance.
pub open spec fn spec_parse_payload(s: Seq<char>, i: int) -> Option<(Seq<char>, int)> {
    if 0 <= i < s.len() && s[i] == '{' {
        match scan_object_end(s, i + 1, 1, false, false) {
            Some(j) => Some((s.subrange(i, j), j)),
            None => None,
        }
    } else {
        None
    }
}

proof fn lemma_scan_object_end_bounds(s: Seq<char>, i: int, depth: int, in_str: bool, esc: bool)
    requires
        0 <= i <= s.len(),
    ensures
        scan_object_end(s, i, depth, in_str, esc) matches Some(j) ==> i < j <= s.len(),
    decreases s.len() - i,
{
    if i < s.len() {
        lemma_scan_object_end_bounds(s, i + 1, depth, in_str, false);
        lemma_scan_object_end_bounds(s, i + 1, depth, in_str, true);
        lemma_scan_object_end_bounds(s, i + 1, depth, !in_str, false);
        lemma_scan_object_end_bounds(s, i + 1, depth + 1, false, false);
        lemma_scan_object_end_bounds(s, i + 1, depth - 1, false, false);
    }
}

/// Extracts the JSON object standing at `i` as raw text.
fn parse_payload(s: &str, i: usize) -> (r: Option<(String, usize)>)
    requires
        i <= s@.len(),
    ensures
        match r {
            Some((p, j)) => spec_parse_payload(s@, i as int) == Some((p@, j as int))
                && i < j <= s@.len(),
            None => spec_parse_payload(s@, i as int) is None,
        },
{
    let len = s.unicode_len();
    if !(i < len && s.get_char(i) == '{') {
        return None;
    }
    let mut k = i + 1;
    let mut depth: usize = 1;
    let mut in_str = false;
    let mut esc = false;
    loop
        invariant
            i + 1 <= k <= len,
            len == s@.len(),
            1 <= depth <= k,
            !in_str ==> !esc,
            s@[i as int] == '{',
            scan_object_end(s@, i as int + 1, 1, false, false)
                == scan_object_end(s@, k as int, depth as int, in_str, esc),
        decreases len - k,
    {
        if k >= len {
            return None;
        }
        let c = s.get_char(k);
        if in_str {
            if esc { esc = false; }
            else if c == '\\' { esc = true; }
            else if c == '"' { in_str = false; }
        } else if c == '"' {
            in_str = true;
        } else if c == '{' {
            depth = depth + 1;
        } else if c == '}' {
            if depth == 1 {
                proof {
                    assert(scan_object_end(s@, k as int, depth as int, in_str, esc)
                        == Some(k as int + 1));
                }
                let p = s.substring_char(i, k + 1).to_owned();
                return Some((p, k + 1));
            } else {
                depth = depth - 1;
            }
        }
        k = k + 1;
    }
}

// ---------------------------------------------------------------------------
// Record decoding
// ---------------------------------------------------------------------------

/// The change whose text stands at `i`, and the position after it.
pub open spec fn spec_parse_change(s: Seq<char>, i: int) -> Option<(FeedChangeView, int)> {
    match spec_parse_lit(s, i, "{\"insert\":"@) {
        Some(i1) => match spec_parse_payload(s, i1) {
            Some((p, i2)) => match spec_parse_lit(s, i2, "}"@) {
                Some(i3) => Some((FeedChangeView::Insert(p), i3)),
                None => None,
            },
            None => None,
        },
        None => match spec_parse_lit(s, i, "{\"delete\":"@) {
            Some(i1) => match spec_parse_payload(s, i1) {
                Some((p, i2)) => match spec_parse_lit(s, i2, "}"@) {
                    Some(i3) => Some((FeedChangeView::Delete(p), i3)),
                    None => None,
                },
                None => None,
            },
            None => None,
        },
    }
}

/// The change list standing at `i`, closing bracket included: either `]` at
/// once, or changes separated by commas up to `]`.
pub open spec fn spec_parse_changes(s: Seq<char>, i: int) -> Option<(Seq<FeedChangeView>, int)>
    decreases s.len() - i,
{
    if 0 <= i < s.len() && s[i] == ']' {
        Some((Seq::empty(), i + 1))
    } else {
        match spec_parse_change(s, i) {
            Some((c, j)) => {
                if i <= j && j < s.len() && s[j] == ',' {
                    match spec_parse_changes(s, j + 1) {
                        Some((cs, k)) => if cs.len() > 0 {
                            Some((seq![c] + cs, k))
                        } else {
                            None
                        },
                        None => None,
                    }
                } else if j < s.len() && s[j] == ']' {
                    Some((seq![c], j + 1))
                } else {
                    None
                }
            }
            None => None,
        }
    }
}

/// The record whose text the whole of `s` is, if any.
pub open spec fn spec_parse_record(s: Seq<char>) -> Option<FeedRecordView> {
    match spec_parse_lit(s, 0, "{\"sequence_number\":"@) {
        Some(i1) => match spec_parse_int(s, i1) {
            Some((n, i2)) => match spec_parse_lit(s, i2, ",\"json_data\":["@) {
                Some(i3) => match spec_parse_changes(s, i3) {
                    Some((cs, i4)) => match spec_parse_lit(s, i4, "}"@) {
                        Some(i5) => if i5 == s.len() {
                            Some(FeedRecordView { sequence_number: n, changes: cs })
                        } else {
                            None
                        },
                        None => None,
                    },
                    None => None,
                },
                None => None,
            },
            None => None,
        },
        None => None,
    }
}

pub open spec fn changepos_view(r: Option<(FeedChange, usize)>) -> Option<(FeedChangeView, int)> {
    match r {
        Some((c, j)) => Some((c@, j as int)),
        None => None,
    }
}

/// Decodes the change standing at `i`.
fn parse_change(s: &str, i: usize) -> (r: Option<(FeedChange, usize)>)
    requires
        i <= s@.len(),
    ensures
        changepos_view(r) == spec_parse_change(s@, i as int),
        r matches Some((c, j)) ==> i < j <= s@.len(),
{
    match parse_lit(s, i, "{\"insert\":") {
        Some(i1) => {
            let (p, i2) = match parse_payload(s, i1) {
                Some(q) => q,
                None => { return None; },
            };
            match parse_lit(s, i2, "}") {
                Some(i3) => Some((FeedChange::Insert(p), i3)),
                None => None,
            }
        }
        None => {
            let i1 = match parse_lit(s, i, "{\"delete\":") {
                Some(p) => p,
                None => { return None; },
            };
            let (p, i2) = match parse_payload(s, i1) {
                Some(q) => q,
                None => { return None; },
            };
            match parse_lit(s, i2, "}") {
                Some(i3) => Some((FeedChange::Delete(p), i3)),
                None => None,
            }
        }
    }
}

pub open spec fn changespos_view(r: Option<(Vec<FeedChange>, usize)>) -> Option<(Seq<FeedChangeView>, int)> {
    match r {
        Some((cs, j)) => Some((cs@.map_values(|c: FeedChange| c@), j as int)),
        None => None,
    }
}

/// Decodes the change list standing at `i`, closing bracket included.
fn parse_changes(s: &str, i: usize) -> (r: Option<(Vec<FeedChange>, usize)>)
    requires
        i <= s@.len(),
    ensures
        changespos_view(r) == spec_parse_changes(s@, i as int),
        r matches Some((cs, j)) ==> i < j <= s@.len(),
    decreases s@.len() - i@,
{
    let len = s.unicode_len();
    if i < len && s.get_char(i) == ']' {
        let empty: Vec<FeedChange> = Vec::new();
        proof {
            assert(empty@.map_values(|c: FeedChange| c@) =~= Seq::<FeedChangeView>::empty());
        }
        return Some((empty, i + 1));
    }
    let (c, j) = match parse_change(s, i) {
        Some(p) => p,
        None => { return None; },
    };
    if j < len && s.get_char(j) == ',' {
        match parse_changes(s, j + 1) {
            Some((mut cs, k)) => {
                if cs.len() > 0 {
                    let ghost prev = cs@;
                    cs.insert(0, c);
                    proof {
                        assert(cs@.map_values(|x: FeedChange| x@)
                            =~= seq![c@] + prev.map_values(|x: FeedChange| x@));
                    }
                    Some((cs, k))
                } else {
                    None
                }
            }
            None => None,
        }
    } else if j < len && s.get_char(j) == ']' {
        let mut cs: Vec<FeedChange> = Vec::new();
        cs.push(c);
        proof {
            assert(cs@.map_values(|x: FeedChange| x@) =~= seq![c@]);
        }
        Some((cs, j + 1))
    } else {
        None
    }
}

/// Decodes one whole feed record line.
pub fn parse_record(s: &str) -> (r: Option<FeedRecord>)
    ensures
        match r {
            Some(rec) => spec_parse_record(s@) == Some(rec@),
            None => spec_parse_record(s@) is None,
        },
{
    let i1 = match parse_lit(s, 0, "{\"sequence_number\":") {
        Some(p) => p,
        None => { return None; },
    };
    let (n, i2) = match parse_int(s, i1) {
        Some(p) => p,
        None => { return None; },
    };
    let i3 = match parse_lit(s, i2, ",\"json_data\":[") {
        Some(p) => p,
        None => { return None; },
    };
    let (cs, i4) = match parse_changes(s, i3) {
        Some(p) => p,
        None => { return None; },
    };
    let i5 = match parse_lit(s, i4, "}") {
        Some(p) => p,
        None => { return None; },
    };
    if i5 == s.unicode_len() {
        Some(FeedRecord { sequence_number: n, changes: cs })
    } else {
        None
    }
}

// ---------------------------------------------------------------------------
// Reconciliation
// ---------------------------------------------------------------------------

/// The most recent insert of a change list: the record's effective outcome.
pub open spec fn latest_insert(cs: Seq<FeedChangeView>) -> Option<Seq<char>>
    decreases cs.len(),
{
    if cs.len() == 0 {
        None
    } else {
        match cs.last() {
            FeedChangeView::Insert(p) => Some(p),
            FeedChangeView::Delete(_) => latest_insert(cs.drop_last()),
        }
    }
}

/// The line to republish for one decoded feed record: the payload of its
/// most recent insert, newline-terminated; nothing when the record holds no
/// insert.
pub fn published_line(rec: &FeedRecord) -> (r: Option<String>)
    ensures
        match r {
            Some(t) => latest_insert(rec@.changes) matches Some(p) && t@ == p + seq!['\n'],
            None => latest_insert(rec@.changes) is None,
        },
{
    let ghost all = rec@.changes;
    let mut k = rec.changes.len();
    proof {
        assert(all.take(k as int) =~= all);
    }
    while k > 0
        invariant
            0 <= k <= rec.changes.len(),
            all == rec@.changes,
            latest_insert(all) == latest_insert(all.take(k as int)),
        decreases k,
    {
        k = k - 1;
        proof {
            assert(all[k as int] == rec.changes@[k as int]@);
        }
        match &rec.changes[k] {
            FeedChange::Insert(p) => {
                proof {
                    assert(all.take(k as int + 1).last() == all[k as int]);
                }
                let mut line = p.clone();
                push_char(&mut line, '\n');
                return Some(line);
            }
            FeedChange::Delete(_) => {
                proof {
                    assert(all.take(k as int + 1).last() == all[k as int]);
                    assert(all.take(k as int + 1).drop_last() =~= all.take(k as int));
                }
            }
        }
    }
    proof {
        assert(all.take(0) =~= Seq::<FeedChangeView>::empty());
    }
    None
}

} // verus!
