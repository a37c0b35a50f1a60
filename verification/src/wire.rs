//! Canonical texts of the wire messages, their encoders and their decoders.
//!
//! Three message families share the grammar of [`crate::json`]: the region
//! request a client sends to subscribe, the cell line the server sends back
//! (one per cell, the same shape for a snapshot row and for a live update),
//! and the change record the upstream engine pushes on its feed.

use vstd::prelude::*;
use crate::cell::{CellRecord, CellView, cell_wf};
use crate::json::{
    int_text, int_wf, is_digit, string_text, text_wf, spec_parse_int, spec_parse_lit,
    spec_parse_string, parse_int, parse_lit, parse_string, push_i64, push_string_text,
    lemma_parse_int_of_text, lemma_parse_lit_of_text, lemma_parse_string_of_text,
};
use crate::region::Region;

verus! {

/// The middle of a three-part concatenation is its own subrange.
proof fn lemma_mid_subrange(x: Seq<char>, y: Seq<char>, z: Seq<char>)
    ensures
        (x + y + z).len() == x.len() + y.len() + z.len(),
        (x + y + z).subrange(x.len() as int, (x.len() + y.len()) as int) == y,
{
    assert((x + y + z).subrange(x.len() as int, (x.len() + y.len()) as int) =~= y);
}

// ---------------------------------------------------------------------------
// Region requests
// ---------------------------------------------------------------------------

/// `{"from":F,"to":T}`
pub open spec fn region_text(r: Region) -> Seq<char> {
    "{\"from\":"@ + int_text(r.from as int) + ",\"to\":"@ + int_text(r.to as int) + "}"@
}

pub open spec fn region_int_wf(r: Region) -> bool {
    int_wf(r.from as int) && int_wf(r.to as int)
}

/// Encodes a region request.
pub fn encode_region(r: Region) -> (out: String)
    requires
        region_int_wf(r),
    ensures
        out@ == region_text(r),
{
    let mut out = String::new();
    out.append("{\"from\":");
    push_i64(&mut out, r.from);
    out.append(",\"to\":");
    push_i64(&mut out, r.to);
    out.append("}");
    proof {
        assert(out@ =~= region_text(r));
    }
    out
}

/// The region whose canonical text the whole of `s` is, if any.
pub open spec fn spec_parse_region(s: Seq<char>) -> Option<Region> {
    match spec_parse_lit(s, 0, "{\"from\":"@) {
        Some(i1) => match spec_parse_int(s, i1) {
            Some((f, i2)) => match spec_parse_lit(s, i2, ",\"to\":"@) {
                Some(i3) => match spec_parse_int(s, i3) {
                    Some((t, i4)) => match spec_parse_lit(s, i4, "}"@) {
                        Some(i5) => if i5 == s.len() {
                            Some(Region { from: f as i64, to: t as i64 })
                        } else {
                            None
                        },
                        None => None,
                    },
                    None => None,
                },
                None => None,
            },
            None => None,
        },
        None => None,
    }
}

/// Decodes a region request.
pub fn parse_region(s: &str) -> (r: Option<Region>)
    ensures
        r == spec_parse_region(s@),
{
    let i1 = match parse_lit(s, 0, "{\"from\":") {
        Some(i) => i,
        None => { return None; },
    };
    let (f, i2) = match parse_int(s, i1) {
        Some(p) => p,
        None => { return None; },
    };
    let i3 = match parse_lit(s, i2, ",\"to\":") {
        Some(i) => i,
        None => { return None; },
    };
    let (t, i4) = match parse_int(s, i3) {
        Some(p) => p,
        None => { return None; },
    };
    let i5 = match parse_lit(s, i4, "}") {
        Some(i) => i,
        None => { return None; },
    };
    if i5 == s.unicode_len() {
        Some(Region { from: f, to: t })
    } else {
        None
    }
}

/// Encoding a region and decoding the text yields the region back.
#[verifier::rlimit(100)]
pub proof fn lemma_region_roundtrip(r: Region)
    requires
        region_int_wf(r),
    ensures
        spec_parse_region(region_text(r)) == Some(r),
{
    let a = "{\"from\":"@;
    let f = int_text(r.from as int);
    let b = ",\"to\":"@;
    let t = int_text(r.to as int);
    let z = "}"@;
    let s = region_text(r);
    reveal_strlit("{\"from\":");
    reveal_strlit(",\"to\":");
    reveal_strlit("}");
    assert(s =~= Seq::<char>::empty() + a + (f + b + t + z));
    lemma_mid_subrange(Seq::<char>::empty(), a, f + b + t + z);
    assert(s.subrange(0, a.len() as int) == a);
    lemma_parse_lit_of_text(s, 0, a);
    let i1 = a.len() as int;
    assert(s =~= a + f + (b + t + z));
    lemma_mid_subrange(a, f, b + t + z);
    let i2 = i1 + f.len();
    assert(s[i2] == (b + t + z)[0]);
    assert(s[i2] == ',');
    assert(!is_digit(','));
    lemma_parse_int_of_text(s, i1, r.from as int);
    assert(s =~= (a + f) + b + (t + z));
    lemma_mid_subrange(a + f, b, t + z);
    assert(s.subrange(i2, i2 + b.len()) == b);
    lemma_parse_lit_of_text(s, i2, b);
    let i3 = i2 + b.len();
    assert(s =~= (a + f + b) + t + z);
    lemma_mid_subrange(a + f + b, t, z);
    let i4 = i3 + t.len();
    assert(s[i4] == z[0]);
    assert(s[i4] == '}');
    assert(!is_digit('}'));
    lemma_parse_int_of_text(s, i3, r.to as int);
    assert(s =~= (a + f + b + t) + z + Seq::<char>::empty());
    lemma_mid_subrange(a + f + b + t, z, Seq::<char>::empty());
    assert(s.subrange(i4, i4 + z.len()) == z);
    lemma_parse_lit_of_text(s, i4, z);
    assert(i4 + z.len() == s.len());
}

// ---------------------------------------------------------------------------
// Cell lines
// ---------------------------------------------------------------------------

/// `{"id":I,"raw_value":R,"computed_value":C,"background":B}`
pub open spec fn cell_text(v: CellView) -> Seq<char> {
    "{\"id\":"@ + int_text(v.id) + ",\"raw_value\":"@ + string_text(v.raw_value)
        + ",\"computed_value\":"@ + string_text(v.computed_value) + ",\"background\":"@
        + int_text(v.background) + "}"@
}

/// Encodes one cell line (without the trailing newline).
pub fn encode_cell(c: &CellRecord) -> (out: String)
    requires
        cell_wf(c@),
    ensures
        out@ == cell_text(c@),
{
    let mut out = String::new();
    out.append("{\"id\":");
    push_i64(&mut out, c.id);
    out.append(",\"raw_value\":");
    push_string_text(&mut out, c.raw_value.as_str());
    out.append(",\"computed_value\":");
    push_string_text(&mut out, c.computed_value.as_str());
    out.append(",\"background\":");
    push_i64(&mut out, c.background as i64);
    out.append("}");
    proof {
        assert(out@ =~= cell_text(c@));
    }
    out
}

/// The cell whose canonical text stands at `i`, and the position after it.
pub open spec fn spec_parse_cell_at(s: Seq<char>, i: int) -> Option<(CellView, int)> {
    match spec_parse_lit(s, i, "{\"id\":"@) {
        Some(i1) => match spec_parse_int(s, i1) {
            Some((id, i2)) => match spec_parse_lit(s, i2, ",\"raw_value\":"@) {
                Some(i3) => match spec_parse_string(s, i3) {
                    Some((raw, i4)) => match spec_parse_lit(s, i4, ",\"computed_value\":"@) {
                        Some(i5) => match spec_parse_string(s, i5) {
                            Some((comp, i6)) => match spec_parse_lit(s, i6, ",\"background\":"@) {
                                Some(i7) => match spec_parse_int(s, i7) {
                                    Some((bg, i8)) => match spec_parse_lit(s, i8, "}"@) {
                                        Some(i9) => if -0x8000_0000 <= bg < 0x8000_0000 {
                                            Some((
                                                CellView {
                                                    id: id,
                                                    raw_value: raw,
                                                    computed_value: comp,
                                                    background: bg,
                                                },
                                                i9,
                                            ))
                                        } else {
                                            None
                                        },
                                        None => None,
                                    },
                                    None => None,
                                },
                                None => None,
                            },
                            None => None,
                        },
                        None => None,
                    },
                    None => None,
                },
                None => None,
            },
            None => None,
        },
        None => None,
    }
}

/// The cell whose canonical text the whole of `s` is, if any.
pub open spec fn spec_parse_cell(s: Seq<char>) -> Option<CellView> {
    match spec_parse_cell_at(s, 0) {
        Some((v, j)) => if j == s.len() { Some(v) } else { None },
        None => None,
    }
}

/// Encoding a cell and decoding the text yields the cell back, for texts
/// free of control characters.
#[verifier::rlimit(100)]
pub proof fn lemma_cell_roundtrip(v: CellView)
    requires
        cell_wf(v),
        text_wf(v.raw_value),
        text_wf(v.computed_value),
    ensures
        spec_parse_cell(cell_text(v)) == Some(v),
{
    let a1 = "{\"id\":"@;
    let p1 = int_text(v.id);
    let a2 = ",\"raw_value\":"@;
    let p2 = string_text(v.raw_value);
    let a3 = ",\"computed_value\":"@;
    let p3 = string_text(v.computed_value);
    let a4 = ",\"background\":"@;
    let p4 = int_text(v.background);
    let a5 = "}"@;
    let s = cell_text(v);
    reveal_strlit("{\"id\":");
    reveal_strlit(",\"raw_value\":");
    reveal_strlit(",\"computed_value\":");
    reveal_strlit(",\"background\":");
    reveal_strlit("}");
    assert(s =~= Seq::<char>::empty() + a1 + (p1 + a2 + p2 + a3 + p3 + a4 + p4 + a5));
    lemma_mid_subrange(Seq::<char>::empty(), a1, p1 + a2 + p2 + a3 + p3 + a4 + p4 + a5);
    assert(s.subrange(0, a1.len() as int) == a1);
    lemma_parse_lit_of_text(s, 0, a1);
    let i1 = a1.len() as int;
    assert(s =~= a1 + p1 + (a2 + p2 + a3 + p3 + a4 + p4 + a5));
    lemma_mid_subrange(a1, p1, a2 + p2 + a3 + p3 + a4 + p4 + a5);
    let i2 = i1 + p1.len();
    assert(s[i2] == (a2 + p2 + a3 + p3 + a4 + p4 + a5)[0]);
    assert(s[i2] == ',');
    assert(!is_digit(','));
    lemma_parse_int_of_text(s, i1, v.id);
    assert(s =~= (a1 + p1) + a2 + (p2 + a3 + p3 + a4 + p4 + a5));
    lemma_mid_subrange(a1 + p1, a2, p2 + a3 + p3 + a4 + p4 + a5);
    assert(s.subrange(i2, i2 + a2.len()) == a2);
    lemma_parse_lit_of_text(s, i2, a2);
    let i3 = i2 + a2.len();
    assert(s =~= (a1 + p1 + a2) + p2 + (a3 + p3 + a4 + p4 + a5));
    lemma_mid_subrange(a1 + p1 + a2, p2, a3 + p3 + a4 + p4 + a5);
    assert(s.subrange(i3, i3 + p2.len()) == p2);
    lemma_parse_string_of_text(s, i3, v.raw_value);
    let i4 = i3 + p2.len();
    assert(s =~= (a1 + p1 + a2 + p2) + a3 + (p3 + a4 + p4 + a5));
    lemma_mid_subrange(a1 + p1 + a2 + p2, a3, p3 + a4 + p4 + a5);
    assert(s.subrange(i4, i4 + a3.len()) == a3);
    lemma_parse_lit_of_text(s, i4, a3);
    let i5 = i4 + a3.len();
    assert(s =~= (a1 + p1 + a2 + p2 + a3) + p3 + (a4 + p4 + a5));
    lemma_mid_subrange(a1 + p1 + a2 + p2 + a3, p3, a4 + p4 + a5);
    assert(s.subrange(i5, i5 + p3.len()) == p3);
    lemma_parse_string_of_text(s, i5, v.computed_value);
    let i6 = i5 + p3.len();
    assert(s =~= (a1 + p1 + a2 + p2 + a3 + p3) + a4 + (p4 + a5));
    lemma_mid_subrange(a1 + p1 + a2 + p2 + a3 + p3, a4, p4 + a5);
    assert(s.subrange(i6, i6 + a4.len()) == a4);
    lemma_parse_lit_of_text(s, i6, a4);
    let i7 = i6 + a4.len();
    assert(s =~= (a1 + p1 + a2 + p2 + a3 + p3 + a4) + p4 + (a5));
    lemma_mid_subrange(a1 + p1 + a2 + p2 + a3 + p3 + a4, p4, a5);
    let i8 = i7 + p4.len();
    assert(s[i8] == a5[0]);
    assert(s[i8] == '}');
    assert(!is_digit('}'));
    lemma_parse_int_of_text(s, i7, v.background);
    assert(s =~= (a1 + p1 + a2 + p2 + a3 + p3 + a4 + p4) + a5 + Seq::<char>::empty());
    lemma_mid_subrange(a1 + p1 + a2 + p2 + a3 + p3 + a4 + p4, a5, Seq::<char>::empty());
    assert(s.subrange(i8, i8 + a5.len()) == a5);
    lemma_parse_lit_of_text(s, i8, a5);
    assert(i8 + a5.len() == s.len());
    assert(spec_parse_cell_at(s, 0) matches Some((w, e)) && w == v && e == s.len());
}

pub open spec fn cellpos_view(r: Option<(CellRecord, usize)>) -> Option<(CellView, int)> {
    match r {
        Some((c, j)) => Some((c@, j as int)),
        None => None,
    }
}

/// Decodes the cell line standing at `i`.
pub fn parse_cell_at(s: &str, i: usize) -> (r: Option<(CellRecord, usize)>)
    requires
        i <= s@.len(),
    ensures
        cellpos_view(r) == spec_parse_cell_at(s@, i as int),
        r matches Some((c, j)) ==> i < j <= s@.len() && cell_wf(c@),
{
    let i1 = match parse_lit(s, i, "{\"id\":") {
        Some(p) => p,
        None => { return None; },
    };
    let (id, i2) = match parse_int(s, i1) {
        Some(p) => p,
        None => { return None; },
    };
    let i3 = match parse_lit(s, i2, ",\"raw_value\":") {
        Some(p) => p,
        None => { return None; },
    };
    let (raw, i4) = match parse_string(s, i3) {
        Some(p) => p,
        None => { return None; },
    };
    let i5 = match parse_lit(s, i4, ",\"computed_value\":") {
        Some(p) => p,
        None => { return None; },
    };
    let (comp, i6) = match parse_string(s, i5) {
        Some(p) => p,
        None => { return None; },
    };
    let i7 = match parse_lit(s, i6, ",\"background\":") {
        Some(p) => p,
        None => { return None; },
    };
    let (bg, i8) = match parse_int(s, i7) {
        Some(p) => p,
        None => { return None; },
    };
    let i9 = match parse_lit(s, i8, "}") {
        Some(p) => p,
        None => { return None; },
    };
    if -0x8000_0000 <= bg && bg < 0x8000_0000 {
        Some((
            CellRecord { id, raw_value: raw, computed_value: comp, background: bg as i32 },
            i9,
        ))
    } else {
        None
    }
}

/// Decodes one whole cell line.
pub fn parse_cell(s: &str) -> (r: Option<CellRecord>)
    ensures
        match r {
            Some(c) => spec_parse_cell(s@) == Some(c@) && cell_wf(c@),
            None => spec_parse_cell(s@) is None,
        },
{
    match parse_cell_at(s, 0) {
        Some((c, j)) => {
            if j == s.unicode_len() {
                Some(c)
            } else {
                None
            }
        }
        None => None,
    }
}

} // verus!
