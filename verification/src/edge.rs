//! The server-side edge cache: an in-memory ordered mirror of two fixed
//! sub-ranges of the address space.
//!
//! The cache is seeded once from the upstream engine and kept live by the
//! change feed; a region query fully inside one seeded sub-range is served
//! from memory as a line-per-cell snapshot, anything else is delegated to
//! an ad hoc query upstream.  Entries are never evicted, only overwritten.

use vstd::prelude::*;
use crate::cell::{CellRecord, CellView, cell_wf};
use crate::region::Region;
use crate::wire::{cell_text, region_int_wf, spec_parse_cell, parse_cell, encode_cell};
use crate::json::{int_text, push_char, push_i64};

verus! {

/// First seeded sub-range: the front of the address space.
pub const FRONT_FROM: i64 = 0;

pub const FRONT_TO: i64 = 100_000;

/// Second seeded sub-range: the back of the address space.
pub const BACK_FROM: i64 = 1_039_900_000;

pub const BACK_TO: i64 = 1_040_000_000;

/// Whether one id lies in a seeded sub-range.
pub open spec fn spec_id_is_cached(id: i64) -> bool {
    (FRONT_FROM <= id && id < FRONT_TO) || (BACK_FROM <= id && id < BACK_TO)
}

#[verifier::when_used_as_spec(spec_id_is_cached)]
pub fn id_is_cached(id: i64) -> (r: bool)
    ensures
        r == spec_id_is_cached(id),
{
    (FRONT_FROM <= id && id < FRONT_TO) || (BACK_FROM <= id && id < BACK_TO)
}

/// Whether a whole region can be served from the seeded sub-ranges: it
/// must lie inside one of them (the two are far apart, so a contiguous
/// region inside their union lies inside one).
pub open spec fn spec_region_served(r: Region) -> bool {
    r.from <= r.to && ((FRONT_FROM <= r.from && r.to <= FRONT_TO) || (BACK_FROM <= r.from
        && r.to <= BACK_TO))
}

#[verifier::when_used_as_spec(spec_region_served)]
pub fn region_served(r: Region) -> (b: bool)
    ensures
        b == spec_region_served(r),
{
    r.from <= r.to && ((FRONT_FROM <= r.from && r.to <= FRONT_TO) || (BACK_FROM <= r.from
        && r.to <= BACK_TO))
}

/// The upstream query that answers a region not served locally.
pub open spec fn region_sql_text(r: Region) -> Seq<char> {
    "SELECT * FROM spreadsheet_view WHERE id >= "@ + int_text(r.from as int) + " and id < "@
        + int_text(r.to as int)
}

/// Builds the upstream query for a region, both for seeding and for
/// delegated region queries.
pub fn region_sql(r: Region) -> (out: String)
    requires
        region_int_wf(r),
    ensures
        out@ == region_sql_text(r),
{
    let mut out = String::new();
    out.append("SELECT * FROM spreadsheet_view WHERE id >= ");
    push_i64(&mut out, r.from);
    out.append(" and id < ");
    push_i64(&mut out, r.to);
    proof {
        assert(out@ =~= region_sql_text(r));
    }
    out
}

// ---------------------------------------------------------------------------
// Snapshot texts
// ---------------------------------------------------------------------------

/// The pairs of `s` whose id lies in `[from, to)`, in order.
pub open spec fn restrict(s: Seq<(i64, CellRecord)>, from: int, to: int) -> Seq<(i64, CellRecord)>
    decreases s.len(),
{
    if s.len() == 0 {
        Seq::empty()
    } else {
        restrict(s.drop_last(), from, to) + (
            if from <= s.last().0 < to { seq![s.last()] } else { Seq::empty() }
        )
    }
}

/// One line per pair: the canonical cell text, newline-terminated.
pub open spec fn lines_text(s: Seq<(i64, CellRecord)>) -> Seq<char>
    decreases s.len(),
{
    if s.len() == 0 {
        Seq::empty()
    } else {
        lines_text(s.drop_last()) + cell_text(s.last().1@) + seq!['\n']
    }
}

/// What a region query answers: one line per held cell with id in the
/// region, ascending.
pub open spec fn snapshot_text(s: Seq<(i64, CellRecord)>, from: int, to: int) -> Seq<char> {
    lines_text(restrict(s, from, to))
}

/// The snapshot of a region depends only on the cells inside the region:
/// where the cache holds exactly the upstream rows of a seeded sub-range,
/// a query inside that sub-range answers character for character what the
/// upstream engine would answer from its own rows.
pub proof fn lemma_snapshot_matches_upstream(
    cache: Seq<(i64, CellRecord)>,
    upstream: Seq<(i64, CellRecord)>,
    from: int,
    to: int,
)
    requires
        restrict(cache, from, to) == restrict(upstream, from, to),
    ensures
        snapshot_text(cache, from, to) == snapshot_text(upstream, from, to),
{
}

// ---------------------------------------------------------------------------
// The cache itself
// ---------------------------------------------------------------------------

/// Strictly ascending ids.
pub open spec fn sorted_by_id(s: Seq<(i64, CellRecord)>) -> bool {
    forall|a: int, b: int| 0 <= a < b < s.len() ==> (#[trigger] s[a]).0 < (#[trigger] s[b]).0
}

/// Each pair keyed by its record's own id, each record fit for the wire.
pub open spec fn entries_ok(s: Seq<(i64, CellRecord)>) -> bool {
    forall|j: int| 0 <= j < s.len() ==> (#[trigger] s[j]).1.id == s[j].0 && cell_wf(s[j].1@)
}

/// The mirror's pairs with each record read as its mathematical value.
pub open spec fn entry_views(s: Seq<(i64, CellRecord)>) -> Seq<(int, CellView)> {
    s.map_values(|p: (i64, CellRecord)| (p.0 as int, p.1@))
}

/// Upserting one cell value into an ascending order, peeled from the top:
/// a larger id goes on the end, an equal id overwrites the last pair, a
/// smaller one lands further in.
pub open spec fn upsert_view(s: Seq<(int, CellView)>, v: CellView) -> Seq<(int, CellView)>
    decreases s.len(),
{
    if s.len() == 0 {
        seq![(v.id, v)]
    } else if v.id > s.last().0 {
        s.push((v.id, v))
    } else if v.id == s.last().0 {
        s.drop_last().push((v.id, v))
    } else {
        upsert_view(s.drop_last(), v).push(s.last())
    }
}

/// First line break at or after `i`, or the end of the text.
pub open spec fn line_end(s: Seq<char>, i: int) -> int
    decreases s.len() - i,
{
    if 0 <= i < s.len() {
        if s[i] == '\n' { i } else { line_end(s, i + 1) }
    } else {
        s.len() as int
    }
}

/// What seeding from `text` leaves of the mirror, line by line from `i`:
/// every line that is a canonical cell line is upserted under its id, the
/// rest are skipped.
pub open spec fn seed_view(s: Seq<(int, CellView)>, text: Seq<char>, i: int) -> Seq<(int, CellView)>
    decreases text.len() - i,
{
    if !(0 <= i <= text.len()) {
        s
    } else {
        let j = line_end(text, i);
        let s1 = match spec_parse_cell(text.subrange(i, j)) {
            Some(v) => upsert_view(s, v),
            None => s,
        };
        if j >= text.len() || !(i <= j) {
            s1
        } else {
            seed_view(s1, text, j + 1)
        }
    }
}

/// Ascending ids, at the view level.
pub open spec fn views_sorted(s: Seq<(int, CellView)>) -> bool {
    forall|a: int, b: int| 0 <= a < b < s.len() ==> (#[trigger] s[a]).0 < (#[trigger] s[b]).0
}

proof fn lemma_upsert_view_insert(s: Seq<(int, CellView)>, j: int, v: CellView)
    requires
        views_sorted(s),
        0 <= j <= s.len(),
        forall|m: int| 0 <= m < j ==> (#[trigger] s[m]).0 < v.id,
        j < s.len() ==> s[j].0 > v.id,
    ensures
        upsert_view(s, v) == s.insert(j, (v.id, v)),
    decreases s.len(),
{
    if s.len() == 0 {
        assert(s.insert(0, (v.id, v)) =~= seq![(v.id, v)]);
    } else if v.id > s.last().0 {
        if j < s.len() {
            if j < s.len() - 1 {
                assert(s[j].0 < s[s.len() - 1].0);
            }
            assert(false);
        }
        assert(s.insert(j, (v.id, v)) =~= s.push((v.id, v)));
    } else if v.id == s.last().0 {
        if j < s.len() - 1 {
            assert(s[j].0 < s[s.len() - 1].0);
        }
        assert(false);
    } else {
        if j == s.len() {
            assert(s[s.len() - 1].0 < v.id);
            assert(false);
        }
        let dl = s.drop_last();
        assert(forall|m: int| 0 <= m < j ==> (#[trigger] dl[m]).0 == s[m].0);
        lemma_upsert_view_insert(dl, j, v);
        assert(upsert_view(s, v) == dl.insert(j, (v.id, v)).push(s.last()));
        assert(dl.insert(j, (v.id, v)).push(s.last()) =~= s.insert(j, (v.id, v)));
    }
}

proof fn lemma_upsert_view_update(s: Seq<(int, CellView)>, j: int, v: CellView)
    requires
        views_sorted(s),
        0 <= j < s.len(),
        s[j].0 == v.id,
    ensures
        upsert_view(s, v) == s.update(j, (v.id, v)),
    decreases s.len(),
{
    if j == s.len() - 1 {
        assert(upsert_view(s, v) == s.drop_last().push((v.id, v)));
        assert(s.drop_last().push((v.id, v)) =~= s.update(j, (v.id, v)));
    } else {
        assert(s[j].0 < s[s.len() - 1].0);
        let dl = s.drop_last();
        lemma_upsert_view_update(dl, j, v);
        assert(upsert_view(s, v) == dl.update(j, (v.id, v)).push(s.last()));
        assert(dl.update(j, (v.id, v)).push(s.last()) =~= s.update(j, (v.id, v)));
    }
}

/// The mirror: cells sorted by id, strictly ascending.
pub struct EdgeCache {
    pub cells: Vec<(i64, CellRecord)>,
}

impl EdgeCache {
    pub open spec fn contents(&self) -> Seq<(i64, CellRecord)> {
        self.cells@
    }

    pub open spec fn wf(&self) -> bool {
        sorted_by_id(self.cells@) && entries_ok(self.cells@)
    }

    /// An empty mirror, to be seeded before it serves.
    pub fn new() -> (c: EdgeCache)
        ensures
            c.wf(),
            c.contents() == Seq::<(i64, CellRecord)>::empty(),
    {
        EdgeCache { cells: Vec::new() }
    }

    /// The pair for `c.id` is afterwards held exactly once, every other
    /// pair stays.
    pub open spec fn upserted(pre: Seq<(i64, CellRecord)>, post: Seq<(i64, CellRecord)>, c: CellRecord) -> bool {
        &&& exists|j: int| 0 <= j < post.len() && #[trigger] post[j] == (c.id, c)
        &&& forall|j: int| 0 <= j < post.len() && (#[trigger] post[j]).0 != c.id
            ==> exists|m: int| 0 <= m < pre.len() && pre[m] == post[j]
        &&& forall|m: int| 0 <= m < pre.len() && (#[trigger] pre[m]).0 != c.id
            ==> exists|j: int| 0 <= j < post.len() && post[j] == pre[m]
        &&& pre.len() <= post.len() <= pre.len() + 1
    }

    /// Overwrites the pair at `j`, whose key `c` already carries.
    fn replace_at(&mut self, j: usize, c: CellRecord)
        requires
            old(self).wf(),
            cell_wf(c@),
            j < old(self).contents().len(),
            old(self).contents()[j as int].0 == c.id,
        ensures
            final(self).wf(),
            Self::upserted(old(self).contents(), final(self).contents(), c),
            entry_views(final(self).contents()) == upsert_view(entry_views(old(self).contents()), c@),
    {
        let ghost s0 = self.cells@;
        let id = c.id;
        self.cells.remove(j);
        self.cells.insert(j, (id, c));
        proof {
            assert(self.cells@ =~= s0.update(j as int, (id, c)));
            Self::lemma_update_at(s0, j as int, c);
            Self::lemma_update_views(s0, j as int, c);
        }
    }

    #[verifier::rlimit(100)]
    proof fn lemma_update_at(s0: Seq<(i64, CellRecord)>, j: int, c: CellRecord)
        requires
            sorted_by_id(s0),
            entries_ok(s0),
            cell_wf(c@),
            0 <= j < s0.len(),
            s0[j].0 == c.id,
        ensures
            sorted_by_id(s0.update(j, (c.id, c))),
            entries_ok(s0.update(j, (c.id, c))),
            Self::upserted(s0, s0.update(j, (c.id, c)), c),
    {
        let t = s0.update(j, (c.id, c));
        assert(t[j] == (c.id, c));
        assert forall|x: int| 0 <= x < t.len() && (#[trigger] t[x]).0 != c.id
            implies exists|m: int| 0 <= m < s0.len() && s0[m] == t[x] by {
            assert(s0[x] == t[x]);
        }
        assert forall|m: int| 0 <= m < s0.len() && (#[trigger] s0[m]).0 != c.id
            implies exists|x: int| 0 <= x < t.len() && t[x] == s0[m] by {
            assert(t[m] == s0[m]);
        }
    }

    proof fn lemma_update_views(s0: Seq<(i64, CellRecord)>, j: int, c: CellRecord)
        requires
            sorted_by_id(s0),
            0 <= j < s0.len(),
            s0[j].0 == c.id,
        ensures
            entry_views(s0.update(j, (c.id, c))) == upsert_view(entry_views(s0), c@),
    {
        let t = s0.update(j, (c.id, c));
        let sv = entry_views(s0);
        assert forall|a: int, b: int| 0 <= a < b < sv.len()
            implies (#[trigger] sv[a]).0 < (#[trigger] sv[b]).0 by {
            assert(sv[a] == (s0[a].0 as int, s0[a].1@));
            assert(sv[b] == (s0[b].0 as int, s0[b].1@));
        }
        assert(sv[j] == (s0[j].0 as int, s0[j].1@));
        lemma_upsert_view_update(sv, j, c@);
        assert(entry_views(t) =~= sv.update(j, (c@.id, c@)));
    }

    /// Inserts a fresh pair at `j`, between the smaller and the larger
    /// keys.
    fn insert_at(&mut self, j: usize, c: CellRecord)
        requires
            old(self).wf(),
            cell_wf(c@),
            j <= old(self).contents().len(),
            forall|m: int| 0 <= m < j ==> (#[trigger] old(self).contents()[m]).0 < c.id,
            j < old(self).contents().len() ==> old(self).contents()[j as int].0 > c.id,
        ensures
            final(self).wf(),
            Self::upserted(old(self).contents(), final(self).contents(), c),
            entry_views(final(self).contents()) == upsert_view(entry_views(old(self).contents()), c@),
    {
        let ghost s0 = self.cells@;
        let id = c.id;
        self.cells.insert(j, (id, c));
        proof {
            Self::lemma_insert_at(s0, j as int, c);
            Self::lemma_insert_views(s0, j as int, c);
        }
    }

    proof fn lemma_insert_views(s0: Seq<(i64, CellRecord)>, j: int, c: CellRecord)
        requires
            sorted_by_id(s0),
            0 <= j <= s0.len(),
            forall|m: int| 0 <= m < j ==> (#[trigger] s0[m]).0 < c.id,
            j < s0.len() ==> s0[j].0 > c.id,
        ensures
            entry_views(s0.insert(j, (c.id, c))) == upsert_view(entry_views(s0), c@),
    {
        let t = s0.insert(j, (c.id, c));
        let sv = entry_views(s0);
        s0.insert_ensures(j, (c.id, c));
        assert forall|a: int, b: int| 0 <= a < b < sv.len()
            implies (#[trigger] sv[a]).0 < (#[trigger] sv[b]).0 by {
            assert(sv[a] == (s0[a].0 as int, s0[a].1@));
            assert(sv[b] == (s0[b].0 as int, s0[b].1@));
        }
        assert forall|m: int| 0 <= m < j implies (#[trigger] sv[m]).0 < c@.id by {
            assert(sv[m] == (s0[m].0 as int, s0[m].1@));
        }
        if j < s0.len() {
            assert(sv[j] == (s0[j].0 as int, s0[j].1@));
        }
        lemma_upsert_view_insert(sv, j, c@);
        sv.insert_ensures(j, (c@.id, c@));
        assert forall|x: int| 0 <= x < t.len()
            implies entry_views(t)[x] == sv.insert(j, (c@.id, c@))[x] by {
            assert(entry_views(t)[x] == (t[x].0 as int, t[x].1@));
            if x < j {
                assert(t[x] == s0[x]);
                assert(sv[x] == (s0[x].0 as int, s0[x].1@));
            } else if x > j {
                assert(t[x] == s0[x - 1]);
                assert(sv[x - 1] == (s0[x - 1].0 as int, s0[x - 1].1@));
            }
        }
        assert(entry_views(t) =~= sv.insert(j, (c@.id, c@)));
    }

    proof fn lemma_insert_at(s0: Seq<(i64, CellRecord)>, j: int, c: CellRecord)
        requires
            sorted_by_id(s0),
            entries_ok(s0),
            cell_wf(c@),
            0 <= j <= s0.len(),
            forall|m: int| 0 <= m < j ==> (#[trigger] s0[m]).0 < c.id,
            j < s0.len() ==> s0[j].0 > c.id,
        ensures
            sorted_by_id(s0.insert(j, (c.id, c))),
            entries_ok(s0.insert(j, (c.id, c))),
            Self::upserted(s0, s0.insert(j, (c.id, c)), c),
    {
        let t = s0.insert(j, (c.id, c));
        s0.insert_ensures(j, (c.id, c));
        assert forall|a: int, b: int| 0 <= a < b < t.len()
            implies (#[trigger] t[a]).0 < (#[trigger] t[b]).0 by {
            if a < j && b == j {
                assert(t[a] == s0[a]);
            } else if a == j && b > j {
                assert(t[b] == s0[b - 1]);
            } else if a < j && b > j {
                assert(t[a] == s0[a] && t[b] == s0[b - 1]);
            } else if b < j {
                assert(t[a] == s0[a] && t[b] == s0[b]);
            } else if a > j {
                assert(t[a] == s0[a - 1] && t[b] == s0[b - 1]);
            }
        }
        assert forall|x: int| 0 <= x < t.len() implies (#[trigger] t[x]).1.id == t[x].0
            && cell_wf(t[x].1@) by {
            if x < j {
                assert(t[x] == s0[x]);
            } else if x > j {
                assert(t[x] == s0[x - 1]);
            }
        }
        assert forall|x: int| 0 <= x < t.len() && (#[trigger] t[x]).0 != c.id
            implies exists|m: int| 0 <= m < s0.len() && s0[m] == t[x] by {
            if x < j {
                assert(s0[x] == t[x]);
            } else {
                assert(s0[x - 1] == t[x]);
            }
        }
        assert forall|m: int| 0 <= m < s0.len() && (#[trigger] s0[m]).0 != c.id
            implies exists|x: int| 0 <= x < t.len() && t[x] == s0[m] by {
            if m < j {
                assert(t[m] == s0[m]);
            } else {
                assert(t[m + 1] == s0[m]);
            }
        }
    }

    /// Inserts or overwrites the cell under its id, keeping the order.
    pub fn insert_cell(&mut self, c: CellRecord)
        requires
            old(self).wf(),
            cell_wf(c@),
        ensures
            final(self).wf(),
            Self::upserted(old(self).contents(), final(self).contents(), c),
            entry_views(final(self).contents()) == upsert_view(entry_views(old(self).contents()), c@),
    {
        let id = c.id;
        let mut j: usize = 0;
        while j < self.cells.len() && self.cells[j].0 < id
            invariant
                0 <= j <= self.cells@.len(),
                self.cells@ == old(self).cells@,
                forall|m: int| 0 <= m < j ==> (#[trigger] self.cells@[m]).0 < id,
            decreases self.cells@.len() - j,
        {
            j = j + 1;
        }
        if j < self.cells.len() && self.cells[j].0 == id {
            self.replace_at(j, c);
        } else {
            self.insert_at(j, c);
        }
    }

    /// Applies one line of the republished change feed: a canonical cell
    /// line whose id lies in a seeded sub-range overwrites that cell,
    /// anything else is skipped.
    pub fn apply_change(&mut self, line: &str)
        requires
            old(self).wf(),
        ensures
            final(self).wf(),
            match spec_parse_cell(line@) {
                Some(v) => if spec_id_is_cached(v.id as i64) {
                    entry_views(final(self).contents())
                        == upsert_view(entry_views(old(self).contents()), v)
                } else {
                    final(self).contents() == old(self).contents()
                },
                None => final(self).contents() == old(self).contents(),
            },
    {
        match parse_cell(line) {
            Some(c) => {
                if id_is_cached(c.id) {
                    self.insert_cell(c);
                }
            }
            None => {}
        }
    }

    /// Seeds or refreshes the mirror from a snapshot: every line that is a
    /// canonical cell line is taken in under its id, in order; the rest
    /// are skipped.
    pub fn seed(&mut self, snapshot: &str)
        requires
            old(self).wf(),
        ensures
            final(self).wf(),
            entry_views(final(self).contents()) == seed_view(
                entry_views(old(self).contents()),
                snapshot@,
                0,
            ),
    {
        let ghost text = snapshot@;
        let ghost v0 = entry_views(old(self).contents());
        let len = snapshot.unicode_len();
        let mut i: usize = 0;
        loop
            invariant_except_break
                0 <= i <= len,
                len == text.len(),
                text == snapshot@,
                self.wf(),
                seed_view(v0, text, 0) == seed_view(entry_views(self.contents()), text, i as int),
            ensures
                self.wf(),
                seed_view(v0, text, 0) == entry_views(self.contents()),
            decreases len - i,
        {
            let ghost pre = entry_views(self.contents());
            let mut j = i;
            while j < len && snapshot.get_char(j) != '\n'
                invariant
                    i <= j <= len,
                    len == text.len(),
                    text == snapshot@,
                    line_end(text, i as int) == line_end(text, j as int),
                decreases len - j,
            {
                j = j + 1;
            }
            proof {
                assert(line_end(text, j as int) == j);
                assert(line_end(text, i as int) == j);
            }
            let line = snapshot.substring_char(i, j);
            match parse_cell(line) {
                Some(c) => {
                    self.insert_cell(c);
                }
                None => {}
            }
            proof {
                assert(seed_view(pre, text, i as int) == (
                    if j == len {
                        entry_views(self.contents())
                    } else {
                        seed_view(entry_views(self.contents()), text, j as int + 1)
                    }
                ));
            }
            if j == len {
                break;
            }
            i = j + 1;
        }
    }

    /// Serves a region query from the mirror when the region lies inside a
    /// seeded sub-range, answering the line-per-cell snapshot of the held
    /// cells in the region; a region outside hands back nothing and is the
    /// caller's cue to delegate the query upstream.
    pub fn query(&self, region: Region) -> (r: Option<String>)
        requires
            self.wf(),
        ensures
            match r {
                Some(t) => spec_region_served(region)
                    && t@ == snapshot_text(self.contents(), region.from as int, region.to as int),
                None => !spec_region_served(region),
            },
    {
        if !region_served(region) {
            return None;
        }
        let ghost s = self.cells@;
        let mut out = String::new();
        let mut j: usize = 0;
        proof {
            assert(s.take(0) =~= Seq::<(i64, CellRecord)>::empty());
        }
        while j < self.cells.len()
            invariant
                0 <= j <= s.len(),
                s == self.cells@,
                self.wf(),
                out@ == snapshot_text(s.take(j as int), region.from as int, region.to as int),
            decreases s.len() - j,
        {
            let ghost pre = s.take(j as int);
            let (id, c) = &self.cells[j];
            proof {
                assert(s.take(j as int + 1).drop_last() =~= pre);
                assert(s.take(j as int + 1).last() == s[j as int]);
            }
            if region.from <= *id && *id < region.to {
                let line = encode_cell(c);
                out.append(line.as_str());
                push_char(&mut out, '\n');
                proof {
                    let rs = restrict(s.take(j as int + 1), region.from as int, region.to as int);
                    assert(rs.drop_last() =~= restrict(pre, region.from as int, region.to as int));
                    assert(rs.last() == s[j as int]);
                }
            } else {
                proof {
                    assert(restrict(s.take(j as int + 1), region.from as int, region.to as int)
                        =~= restrict(pre, region.from as int, region.to as int));
                }
            }
            j = j + 1;
        }
        proof {
            assert(s.take(s.len() as int) =~= s);
        }
        Some(out)
    }
}

} // verus!
