//! The windowed cell cache: a bounded, recency-ordered store over the
//! client's current neighbourhood of the address space.
//!
//! The store keeps at most a fixed number of cells, keyed by id and ordered
//! by recency of touch; inserting beyond the bound evicts exactly the least
//! recently touched entry.  A miss creates a placeholder and — unless the
//! missed id already lies in the one remembered prefetch window — records a
//! window around the miss and debounces a fetch of it.  The remembered
//! window is a single slot, replaced wholesale by the next scheduled fetch
//! and never cleared when a fetch completes, so a later miss inside an
//! already-covered window does not re-trigger a fetch even if the entry
//! was evicted meanwhile: a deliberate staleness window.
//!
//! The store itself is the `lru` crate's cache, seen through the named
//! recency order `lru_view` (most recently used first) and the named bound
//! `lru_cap`, which the trusted wrappers below relate to the crate's
//! operations.

use vstd::prelude::*;
use lru::LruCache;
use crate::cell::{CellContent, CellRecord, CellView};
use crate::color::packed_unsigned;
use crate::debounce::Debouncer;
use crate::loader::Loader;
use crate::region::Region;
use crate::wire::{region_text, spec_parse_cell, parse_cell};

verus! {

/// How long scroll-driven fetches are coalesced before one goes out, in
/// milliseconds.
pub const FETCH_DEBOUNCE_MS: u64 = 100;

/// A loose bound on the address space, enough for the grid and small
/// enough that every prefetch window fits the integer grammar.
pub const ADDRESS_SPACE_BOUND: u64 = 1_000_000_000_000_000;

/// How far the fetch issued right after the channel opens reaches: one
/// hundred rows of the default grid.
pub const INITIAL_FETCH_TO: i64 = 2600;

// ---------------------------------------------------------------------------
// The recency model
// ---------------------------------------------------------------------------

/// Index of `k` in the recency order, `-1` when absent.
pub open spec fn find_key(s: Seq<(u64, CellContent)>, k: u64) -> int
    decreases s.len(),
{
    if s.len() == 0 {
        -1
    } else if s[0].0 == k {
        0
    } else {
        let r = find_key(s.skip(1), k);
        if r < 0 { -1 } else { r + 1 }
    }
}

/// The order with position `i` taken out.
pub open spec fn erase(s: Seq<(u64, CellContent)>, i: int) -> Seq<(u64, CellContent)> {
    s.subrange(0, i) + s.subrange(i + 1, s.len() as int)
}

/// No key twice.
pub open spec fn distinct_keys(s: Seq<(u64, CellContent)>) -> bool {
    forall|a: int, b: int| 0 <= a < b < s.len() ==> (#[trigger] s[a]).0 != (#[trigger] s[b]).0
}

/// What a push leaves of the recency order: the pair at the front; a
/// replaced key taken out of the middle; the least recently used pair gone
/// when a fresh key arrives at capacity.
pub open spec fn push_model(s: Seq<(u64, CellContent)>, cap: nat, k: u64, v: CellContent) -> Seq<(u64, CellContent)> {
    let i = find_key(s, k);
    if i >= 0 {
        seq![(k, v)] + erase(s, i)
    } else if s.len() < cap {
        seq![(k, v)] + s
    } else {
        seq![(k, v)] + s.drop_last()
    }
}

/// What a push hands back: the replaced pair, or the evicted one.
pub open spec fn push_out(s: Seq<(u64, CellContent)>, cap: nat, k: u64) -> Option<(u64, CellContent)> {
    let i = find_key(s, k);
    if i >= 0 {
        Some((k, s[i].1))
    } else if s.len() < cap {
        None
    } else {
        Some(s.last())
    }
}

/// What a lookup leaves of the recency order: the found pair moved to the
/// front, or everything as it was.
pub open spec fn touch_model(s: Seq<(u64, CellContent)>, k: u64) -> Seq<(u64, CellContent)> {
    let i = find_key(s, k);
    if i >= 0 {
        seq![s[i]] + erase(s, i)
    } else {
        s
    }
}

pub proof fn lemma_find_key(s: Seq<(u64, CellContent)>, k: u64)
    ensures
        -1 <= find_key(s, k) < s.len(),
        find_key(s, k) >= 0 ==> s[find_key(s, k)].0 == k,
        find_key(s, k) == -1 ==> forall|j: int| 0 <= j < s.len() ==> (#[trigger] s[j]).0 != k,
    decreases s.len(),
{
    if s.len() > 0 && s[0].0 != k {
        lemma_find_key(s.skip(1), k);
        assert forall|j: int| 1 <= j < s.len() implies (#[trigger] s[j]).0 == s.skip(1)[j - 1].0 by {}
    }
}

/// In a distinct order the key stands nowhere but at its found position.
pub proof fn lemma_find_key_unique(s: Seq<(u64, CellContent)>, k: u64, j: int)
    requires
        distinct_keys(s),
        0 <= j < s.len(),
        s[j].0 == k,
    ensures
        find_key(s, k) == j,
{
    lemma_find_key(s, k);
    let i = find_key(s, k);
    if i != j {
        if i >= 0 {
            if i < j {
                assert(s[i].0 != s[j].0);
            } else {
                assert(s[j].0 != s[i].0);
            }
        }
    }
}

pub proof fn lemma_touch_model_wf(s: Seq<(u64, CellContent)>, k: u64)
    requires
        distinct_keys(s),
    ensures
        touch_model(s, k).len() == s.len(),
        distinct_keys(touch_model(s, k)),
    decreases s.len(),
{
    lemma_find_key(s, k);
    let i = find_key(s, k);
    if i >= 0 {
        let t = touch_model(s, k);
        assert forall|a: int, b: int| 0 <= a < b < t.len() implies (#[trigger] t[a]).0 != (#[trigger] t[b]).0 by {
            lemma_erase_points(s, i);
            if a == 0 {
                let m = b - 1;
                if m < i {
                    assert(t[b] == s[m]);
                } else {
                    assert(t[b] == s[m + 1]);
                }
            } else {
                let ma = a - 1;
                let mb = b - 1;
                if ma < i { assert(t[a] == s[ma]); } else { assert(t[a] == s[ma + 1]); }
                if mb < i { assert(t[b] == s[mb]); } else { assert(t[b] == s[mb + 1]); }
            }
        }
    }
}

/// Where each remaining pair of an erased order comes from.
pub proof fn lemma_erase_points(s: Seq<(u64, CellContent)>, i: int)
    requires
        0 <= i < s.len(),
    ensures
        erase(s, i).len() == s.len() - 1,
        forall|m: int| 0 <= m < i ==> erase(s, i)[m] == s[m],
        forall|m: int| i <= m < s.len() - 1 ==> erase(s, i)[m] == s[m + 1],
{
}

pub proof fn lemma_push_model_wf(s: Seq<(u64, CellContent)>, cap: nat, k: u64, v: CellContent)
    requires
        distinct_keys(s),
        s.len() <= cap,
        cap >= 1,
    ensures
        push_model(s, cap, k, v).len() <= cap,
        push_model(s, cap, k, v).len() >= 1,
        distinct_keys(push_model(s, cap, k, v)),
        push_model(s, cap, k, v)[0] == (k, v),
{
    lemma_find_key(s, k);
    let i = find_key(s, k);
    let t = push_model(s, cap, k, v);
    if i >= 0 {
        lemma_erase_points(s, i);
        assert forall|a: int, b: int| 0 <= a < b < t.len() implies (#[trigger] t[a]).0 != (#[trigger] t[b]).0 by {
            if a == 0 {
                let m = b - 1;
                if m < i {
                    assert(t[b] == s[m]);
                    lemma_find_key_unique(s, k, i);
                    if s[m].0 == k {
                        lemma_find_key_unique(s, k, m);
                    }
                } else {
                    assert(t[b] == s[m + 1]);
                    if s[m + 1].0 == k {
                        lemma_find_key_unique(s, k, m + 1);
                        lemma_find_key_unique(s, k, i);
                    }
                }
            } else {
                let ma = a - 1;
                let mb = b - 1;
                if ma < i { assert(t[a] == s[ma]); } else { assert(t[a] == s[ma + 1]); }
                if mb < i { assert(t[b] == s[mb]); } else { assert(t[b] == s[mb + 1]); }
            }
        }
    } else if s.len() < cap {
        assert forall|a: int, b: int| 0 <= a < b < t.len() implies (#[trigger] t[a]).0 != (#[trigger] t[b]).0 by {
            if a == 0 {
                assert(t[b] == s[b - 1]);
            } else {
                assert(t[a] == s[a - 1]);
                assert(t[b] == s[b - 1]);
            }
        }
    } else {
        assert forall|a: int, b: int| 0 <= a < b < t.len() implies (#[trigger] t[a]).0 != (#[trigger] t[b]).0 by {
            if a == 0 {
                assert(t[b] == s.drop_last()[b - 1]);
                assert(s.drop_last()[b - 1] == s[b - 1]);
            } else {
                assert(t[a] == s[a - 1]);
                assert(t[b] == s[b - 1]);
            }
        }
    }
}

// ---------------------------------------------------------------------------
// Trusted view of the lru crate
// ---------------------------------------------------------------------------

#[verifier::external_type_specification]
#[verifier::external_body]
#[verifier::reject_recursive_types(K)]
#[verifier::reject_recursive_types(V)]
#[verifier::reject_recursive_types(S)]
pub struct ExLruCache<K, V, S>(LruCache<K, V, S>);

/// Names the contents of the bounded store: its key-value pairs, most
/// recently used first.
pub uninterp spec fn lru_view(c: &LruCache<u64, CellContent>) -> Seq<(u64, CellContent)>;

/// Names the bound the store was created with.
pub uninterp spec fn lru_cap(c: &LruCache<u64, CellContent>) -> nat;

/// Relies on `lru::LruCache::new`: a cache created empty that holds at
/// most `cap` items.
#[verifier::external_body]
fn lru_new(cap: usize) -> (c: LruCache<u64, CellContent>)
    requires
        1 <= cap,
    ensures
        lru_view(&c) == Seq::<(u64, CellContent)>::empty(),
        lru_cap(&c) == cap as nat,
{
    LruCache::new(std::num::NonZeroUsize::new(cap).unwrap())
}

/// Relies on `lru::LruCache::len`.
#[verifier::external_body]
fn lru_len(c: &LruCache<u64, CellContent>) -> (n: usize)
    ensures
        n == lru_view(c).len(),
{
    c.len()
}

/// Relies on `lru::LruCache::get`, which moves the found key to the front
/// of the recency order, and on the field-wise clone of the entry.
#[verifier::external_body]
fn lru_get(c: &mut LruCache<u64, CellContent>, k: u64) -> (r: Option<CellContent>)
    ensures
        lru_cap(final(c)) == lru_cap(old(c)),
        lru_view(final(c)) == touch_model(lru_view(old(c)), k),
        r == (if find_key(lru_view(old(c)), k) >= 0 {
            Some(lru_view(old(c))[find_key(lru_view(old(c)), k)].1)
        } else {
            None::<CellContent>
        }),
{
    match c.get(&k) {
        Some(v) => Some(v.clone()),
        None => None,
    }
}

/// Relies on `lru::LruCache::push`: inserts or replaces the pair for `k`
/// at the front of the recency order; a replaced value comes back under
/// its key, and when a fresh key arrives with the cache full the least
/// recently used pair leaves and comes back.
#[verifier::external_body]
fn lru_push(c: &mut LruCache<u64, CellContent>, k: u64, v: CellContent) -> (r: Option<(u64, CellContent)>)
    ensures
        lru_cap(final(c)) == lru_cap(old(c)),
        lru_view(final(c)) == push_model(lru_view(old(c)), lru_cap(old(c)), k, v),
        r == push_out(lru_view(old(c)), lru_cap(old(c)), k),
{
    c.push(k, v)
}

// ---------------------------------------------------------------------------
// The windowed cache
// ---------------------------------------------------------------------------

/// An entry as a miss first creates it: empty texts, transparent
/// background, not editing, nothing pending.
pub open spec fn is_placeholder(c: CellContent, id: u64) -> bool {
    &&& c.id == id
    &&& c.content@ == Seq::<char>::empty()
    &&& c.write_buffer@ == Seq::<char>::empty()
    &&& c.old_write_buffer@ == Seq::<char>::empty()
    &&& packed_unsigned(c.background as int) == 0
    &&& !c.is_editing
    &&& c.bg_debounce.pending is None
}

/// The client-side bounded cell store with prefetch-on-miss and debounced
/// range fetching.
pub struct CellCache {
    pub cells: LruCache<u64, CellContent>,
    pub loader: Loader,
    pub fetch_debounce: Debouncer<Region>,
    pub current_range: Option<Region>,
    pub prefetch_half: u64,
    pub max_cells: u64,
    pub capacity: usize,
}

impl CellCache {
    /// The recency order of the store, most recently used first.
    pub open spec fn contents(&self) -> Seq<(u64, CellContent)> {
        lru_view(&self.cells)
    }

    pub open spec fn wf(&self) -> bool {
        &&& 1 <= self.capacity
        &&& lru_cap(&self.cells) == self.capacity as nat
        &&& self.contents().len() <= self.capacity as nat
        &&& distinct_keys(self.contents())
        &&& self.max_cells <= ADDRESS_SPACE_BOUND
        &&& self.prefetch_half <= ADDRESS_SPACE_BOUND
        &&& match self.current_range {
            Some(r) => 0 <= r.from <= r.to <= self.max_cells,
            None => true,
        }
        &&& match self.fetch_debounce.pending {
            Some((_, r)) => 0 <= r.from <= r.to <= self.max_cells,
            None => true,
        }
    }

    /// Whether the one remembered prefetch window already covers `id`.
    pub open spec fn covered(&self, id: u64) -> bool {
        match self.current_range {
            Some(r) => r.from <= id && id < r.to,
            None => false,
        }
    }

    /// The window a miss on `id` asks for: symmetric around the miss,
    /// clipped to the address space.
    pub open spec fn prefetch_window(&self, id: u64) -> Region {
        Region {
            from: if id >= self.prefetch_half { (id - self.prefetch_half) as i64 } else { 0 },
            to: if id + self.prefetch_half <= self.max_cells {
                (id + self.prefetch_half) as i64
            } else {
                self.max_cells as i64
            },
        }
    }

    /// A cache for a viewport `width` columns wide over a grid of
    /// `width * height` cells: it holds two hundred rows of cells and
    /// prefetches one hundred rows around a miss.
    pub fn new(width: usize, height: usize) -> (c: CellCache)
        requires
            1 <= width <= 100_000,
            height <= 10_000_000_000,
        ensures
            c.wf(),
            c.contents() == Seq::<(u64, CellContent)>::empty(),
            c.capacity == 200 * width,
            c.prefetch_half == 100 * width,
            c.max_cells == width * height,
            !c.loader.is_open,
            c.fetch_debounce.pending is None,
            c.current_range is None,
    {
        let w64: u64 = width as u64;
        let h64: u64 = height as u64;
        proof {
            assert(w64 as int * h64 as int <= 1_000_000_000_000_000) by (nonlinear_arith)
                requires
                    w64 <= 100_000,
                    h64 <= 10_000_000_000,
            ;
        }
        CellCache {
            cells: lru_new(200 * width),
            loader: Loader::new(),
            fetch_debounce: Debouncer::new(),
            current_range: None,
            prefetch_half: 100 * w64,
            max_cells: w64 * h64,
            capacity: 200 * width,
        }
    }

    /// Ingests one cell, from a fetch response and from a live update
    /// alike: the entry for `id` is inserted or overwritten at the front
    /// of the recency order, evicting exactly the least recently touched
    /// entry if a fresh id arrives with the store full.
    pub fn set(&mut self, id: u64, c: CellContent)
        requires
            old(self).wf(),
        ensures
            final(self).wf(),
            final(self).contents() == push_model(
                old(self).contents(),
                old(self).capacity as nat,
                id,
                c,
            ),
            final(self).loader == old(self).loader,
            final(self).fetch_debounce == old(self).fetch_debounce,
            final(self).current_range == old(self).current_range,
            final(self).prefetch_half == old(self).prefetch_half,
            final(self).max_cells == old(self).max_cells,
            final(self).capacity == old(self).capacity,
    {
        proof {
            lemma_push_model_wf(self.contents(), self.capacity as nat, id, c);
        }
        let _evicted = lru_push(&mut self.cells, id, c);
    }

    /// Reads the cell for `id`, creating it if need be.
    ///
    /// A hit returns the stored entry and marks it most recently used,
    /// touching nothing else.  A miss stores and returns a placeholder;
    /// if the remembered window already covers `id` nothing further
    /// happens — even if the covering fetch long finished, the guard is
    /// never cleared — otherwise the window around `id` replaces the
    /// remembered one and a fetch of it is debounced.  Reading the same id
    /// again therefore returns the same content and schedules nothing.
    pub fn get(&mut self, id: u64, now_ms: u64) -> (r: CellContent)
        requires
            old(self).wf(),
            id < old(self).max_cells,
            now_ms + FETCH_DEBOUNCE_MS <= u64::MAX,
        ensures
            final(self).wf(),
            final(self).loader == old(self).loader,
            final(self).prefetch_half == old(self).prefetch_half,
            final(self).max_cells == old(self).max_cells,
            final(self).capacity == old(self).capacity,
            ({
                let s = old(self).contents();
                let i = find_key(s, id);
                if i >= 0 {
                    r == s[i].1
                        && final(self).contents() == touch_model(s, id)
                        && final(self).current_range == old(self).current_range
                        && final(self).fetch_debounce == old(self).fetch_debounce
                } else {
                    is_placeholder(r, id)
                        && final(self).contents() == seq![(id, r)] + (
                            if s.len() < old(self).capacity as nat { s } else { s.drop_last() }
                        )
                        && (if old(self).covered(id) {
                            final(self).current_range == old(self).current_range
                                && final(self).fetch_debounce == old(self).fetch_debounce
                        } else {
                            final(self).current_range == Some(old(self).prefetch_window(id))
                                && final(self).fetch_debounce.pending == Some((
                                    (now_ms + FETCH_DEBOUNCE_MS) as u64,
                                    old(self).prefetch_window(id),
                                ))
                        })
                }
            }),
    {
        let ghost s = self.contents();
        proof {
            lemma_find_key(s, id);
            lemma_touch_model_wf(s, id);
        }
        match lru_get(&mut self.cells, id) {
            Some(c) => c,
            None => {
                let placeholder = CellContent::empty(id);
                proof {
                    lemma_push_model_wf(s, self.capacity as nat, id, placeholder);
                }
                let _ = lru_push(&mut self.cells, id, placeholder);
                let ghost s1 = self.contents();
                proof {
                    lemma_find_key(s1, id);
                    lemma_touch_model_wf(s1, id);
                    lemma_find_key_unique(s1, id, 0);
                    assert(touch_model(s1, id) =~= s1) by {
                        assert(erase(s1, 0) =~= s1.skip(1));
                        assert(seq![s1[0]] + s1.skip(1) =~= s1);
                    }
                }
                let stored = match lru_get(&mut self.cells, id) {
                    Some(c) => c,
                    None => {
                        proof {
                            assert(false);
                        }
                        CellContent::empty(id)
                    }
                };
                if let Some(range) = &self.current_range {
                    if range.from <= id as i64 && (id as i64) < range.to {
                        return stored;
                    }
                }
                let from: u64 = if id >= self.prefetch_half { id - self.prefetch_half } else { 0 };
                let to: u64 = if id + self.prefetch_half <= self.max_cells {
                    id + self.prefetch_half
                } else {
                    self.max_cells
                };
                let window = Region { from: from as i64, to: to as i64 };
                self.current_range = Some(window);
                self.fetch_debounce.debounce(now_ms, FETCH_DEBOUNCE_MS, window);
                stored
            }
        }
    }

    /// Hands out the debounced fetch once it falls due, encoded for the
    /// wire, provided the channel is open; a fetch due while the channel
    /// is closed is dropped.
    pub fn poll_fetch(&mut self, now_ms: u64) -> (r: Option<String>)
        requires
            old(self).wf(),
        ensures
            final(self).wf(),
            final(self).loader == old(self).loader,
            final(self).current_range == old(self).current_range,
            final(self).contents() == old(self).contents(),
            final(self).prefetch_half == old(self).prefetch_half,
            final(self).max_cells == old(self).max_cells,
            final(self).capacity == old(self).capacity,
            lru_cap(&final(self).cells) == lru_cap(&old(self).cells),
            match old(self).fetch_debounce.pending {
                Some((due, w)) => if now_ms >= due {
                    final(self).fetch_debounce.pending is None && (
                        match r {
                            Some(t) => old(self).loader.is_open && t@ == region_text(w),
                            None => !old(self).loader.is_open,
                        }
                    )
                } else {
                    r is None && final(self).fetch_debounce == old(self).fetch_debounce
                },
                None => r is None && final(self).fetch_debounce.pending is None,
            },
    {
        match self.fetch_debounce.poll(now_ms) {
            Some(w) => self.loader.fetch(w),
            None => None,
        }
    }

    /// How many cells the store holds now.
    pub fn len(&self) -> (n: usize)
        ensures
            n == self.contents().len(),
    {
        lru_len(&self.cells)
    }

    /// Ingests one pushed line — a fetch-response row and a live update
    /// look the same on the wire: a canonical cell line with a
    /// non-negative id lands in the store under its id; anything else is
    /// skipped.
    pub fn ingest_line(&mut self, line: &str)
        requires
            old(self).wf(),
        ensures
            final(self).wf(),
            final(self).loader == old(self).loader,
            final(self).fetch_debounce == old(self).fetch_debounce,
            final(self).current_range == old(self).current_range,
            final(self).prefetch_half == old(self).prefetch_half,
            final(self).max_cells == old(self).max_cells,
            final(self).capacity == old(self).capacity,
            match spec_parse_cell(line@) {
                Some(v) => if 0 <= v.id {
                    exists|c: CellContent| tracks_record(c, v) && final(self).contents()
                        == push_model(old(self).contents(), old(self).capacity as nat, v.id as u64, c)
                } else {
                    final(self).contents() == old(self).contents()
                },
                None => final(self).contents() == old(self).contents(),
            },
    {
        match parse_cell(line) {
            Some(rec) => {
                if rec.id >= 0 {
                    let ghost v = rec@;
                    let id_u: u64 = rec.id as u64;
                    let c = CellContent::from(rec);
                    let ghost gc = c;
                    self.set(id_u, c);
                    proof {
                        assert(tracks_record(gc, v));
                    }
                }
            }
            None => {}
        }
    }

    /// Records a lifecycle event of the range channel; on open, the
    /// initial viewport fetch goes out at once, undebounced.
    pub fn on_channel_event(&mut self, open: bool) -> (m: Option<String>)
        requires
            old(self).wf(),
        ensures
            final(self).wf(),
            final(self).loader.is_open == open,
            final(self).contents() == old(self).contents(),
            final(self).fetch_debounce == old(self).fetch_debounce,
            final(self).current_range == old(self).current_range,
            final(self).prefetch_half == old(self).prefetch_half,
            final(self).max_cells == old(self).max_cells,
            final(self).capacity == old(self).capacity,
            match m {
                Some(t) => open && t@ == region_text(
                    Region { from: 0, to: INITIAL_FETCH_TO },
                ),
                None => !open,
            },
    {
        self.loader.set_open(open);
        if open {
            self.loader.fetch(Region { from: 0, to: INITIAL_FETCH_TO })
        } else {
            None
        }
    }
}

/// Whether a tracked cell is the fresh ingestion of a wire cell.
pub open spec fn tracks_record(c: CellContent, v: CellView) -> bool {
    &&& c.id == v.id
    &&& c.content@ == v.computed_value
    &&& c.write_buffer@ == v.raw_value
    &&& c.old_write_buffer@ == v.raw_value
    &&& c.background == v.background
    &&& !c.is_editing
    &&& c.bg_debounce.pending is None
}

/// Reads repeat without effect: every path through a read leaves the read
/// id at the front of the recency order, so an immediately repeated read
/// of the same id finds it there — it returns that same entry and, by the
/// hit case of the read's contract, touches neither the remembered window
/// nor the pending fetch.
pub proof fn lemma_repeated_get_hits(s: Seq<(u64, CellContent)>, id: u64)
    requires
        s.len() > 0,
        s[0].0 == id,
    ensures
        find_key(s, id) == 0,
        touch_model(s, id)[0] == s[0],
{
    assert(erase(s, 0) =~= s.skip(1));
}

// ---------------------------------------------------------------------------
// The eviction law
// ---------------------------------------------------------------------------

/// The recency order after inserting `items`, oldest first.
pub open spec fn fill_model(s: Seq<(u64, CellContent)>, cap: nat, items: Seq<(u64, CellContent)>) -> Seq<(u64, CellContent)>
    decreases items.len(),
{
    if items.len() == 0 {
        s
    } else {
        fill_model(push_model(s, cap, items[0].0, items[0].1), cap, items.skip(1))
    }
}

pub open spec fn rev(s: Seq<(u64, CellContent)>) -> Seq<(u64, CellContent)>
    decreases s.len(),
{
    if s.len() == 0 { Seq::empty() } else { rev(s.skip(1)).push(s[0]) }
}

/// The front `cap` of an order, or all of it if it is no longer.
pub open spec fn clip(s: Seq<(u64, CellContent)>, cap: nat) -> Seq<(u64, CellContent)> {
    if s.len() <= cap { s } else { s.take(cap as int) }
}

/// No key of `items` occurs in `s`.
pub open spec fn keys_absent(s: Seq<(u64, CellContent)>, items: Seq<(u64, CellContent)>) -> bool {
    forall|j: int, m: int| 0 <= j < s.len() && 0 <= m < items.len()
        ==> (#[trigger] s[j]).0 != (#[trigger] items[m]).0
}

proof fn lemma_clip_absorb(a: Seq<(u64, CellContent)>, b: Seq<(u64, CellContent)>, cap: nat)
    ensures
        clip(a + clip(b, cap), cap) == clip(a + b, cap),
{
    if b.len() <= cap {
        assert(clip(b, cap) == b);
    } else {
        let l = clip(a + clip(b, cap), cap);
        let r = clip(a + b, cap);
        assert(l.len() == cap && r.len() == cap);
        assert forall|m: int| 0 <= m < cap implies l[m] == r[m] by {
            if m < a.len() {
                assert(l[m] == a[m] && r[m] == a[m]);
            } else {
                assert(l[m] == b.take(cap as int)[m - a.len()]);
                assert(r[m] == b[m - a.len()]);
            }
        }
        assert(l =~= r);
    }
}

/// Inserting a run of fresh, distinct ids keeps exactly the most recently
/// inserted `cap` of them, newest first, with whatever older entries still
/// fit behind them; everything past the bound — always the least recently
/// touched entries — is gone, and the store never outgrows the bound.
pub proof fn lemma_fill_evicts_lru(s: Seq<(u64, CellContent)>, cap: nat, items: Seq<(u64, CellContent)>)
    requires
        cap >= 1,
        s.len() <= cap,
        distinct_keys(s),
        distinct_keys(items),
        keys_absent(s, items),
    ensures
        fill_model(s, cap, items) == clip(rev(items) + s, cap),
        fill_model(s, cap, items).len() <= cap,
    decreases items.len(),
{
    if items.len() == 0 {
        assert(rev(items) + s =~= s);
    } else {
        let k = items[0].0;
        let v = items[0].1;
        lemma_find_key(s, k);
        if find_key(s, k) >= 0 {
            assert(s[find_key(s, k)].0 == items[0].0);
            assert(false);
        }
        let s1 = push_model(s, cap, k, v);
        lemma_push_model_wf(s, cap, k, v);
        assert(s1 == clip(seq![(k, v)] + s, cap)) by {
            if s.len() < cap {
                assert(s1 == seq![(k, v)] + s);
            } else {
                assert(s1 =~= (seq![(k, v)] + s).take(cap as int));
            }
        }
        let rest = items.skip(1);
        assert(distinct_keys(rest)) by {
            assert forall|a: int, b: int| 0 <= a < b < rest.len()
                implies (#[trigger] rest[a]).0 != (#[trigger] rest[b]).0 by {
                assert(rest[a] == items[a + 1] && rest[b] == items[b + 1]);
            }
        }
        assert(keys_absent(s1, rest)) by {
            assert forall|j: int, m: int| 0 <= j < s1.len() && 0 <= m < rest.len()
                implies (#[trigger] s1[j]).0 != (#[trigger] rest[m]).0 by {
                assert(rest[m] == items[m + 1]);
                assert(s1[j] == (seq![(k, v)] + s)[j]);
                if j == 0 {
                    assert(items[0].0 != items[m + 1].0);
                } else {
                    assert(s1[j] == s[j - 1]);
                }
            }
        }
        lemma_fill_evicts_lru(s1, cap, rest);
        assert(fill_model(s, cap, items) == fill_model(s1, cap, rest));
        lemma_clip_absorb(rev(rest), seq![(k, v)] + s, cap);
        assert(rev(rest) + (seq![(k, v)] + s) =~= (rev(rest).push((k, v))) + s);
        assert(rev(items) == rev(rest).push(items[0]));
    }
}

} // verus!
