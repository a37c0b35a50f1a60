//! The cell as it travels on the wire, and the cell as the client tracks
//! and edits it.

use vstd::prelude::*;
use crate::color::{Rgba, rgba_unsigned, packed_unsigned, pack_rgba, unpack_rgba};
use crate::debounce::Debouncer;
use crate::json::int_wf;

verus! {

/// How long a burst of background-color changes is coalesced before one
/// update is sent upstream, in milliseconds.
pub const BACKGROUND_DEBOUNCE_MS: u64 = 350;

/// Mathematical value of a [`CellRecord`].
pub struct CellView {
    pub id: int,
    pub raw_value: Seq<char>,
    pub computed_value: Seq<char>,
    pub background: int,
}

/// One cell as both the fetch-response path and the live-update path carry
/// it: the id, the text the user typed, the text the engine computed from
/// it, and a packed RGBA background.
#[derive(Debug, Clone)]
pub struct CellRecord {
    pub id: i64,
    pub raw_value: String,
    pub computed_value: String,
    pub background: i32,
}

impl View for CellRecord {
    type V = CellView;

    open spec fn view(&self) -> CellView {
        CellView {
            id: self.id as int,
            raw_value: self.raw_value@,
            computed_value: self.computed_value@,
            background: self.background as int,
        }
    }
}

/// Whether a cell value can stand on the wire at all: the id within the
/// magnitude the integer grammar covers, the background within `i32`.
pub open spec fn cell_wf(v: CellView) -> bool {
    &&& int_wf(v.id)
    &&& -0x8000_0000 <= v.background < 0x8000_0000
}

// ---------------------------------------------------------------------------
// The cell under the user's hands
// ---------------------------------------------------------------------------

/// A request to update one cell, as the edit submission path carries it.
#[derive(Debug, Clone)]
pub struct UpdateCellRequest {
    pub id: u64,
    pub raw_value: String,
    pub background: i32,
}

/// A cell the client currently tracks: the computed text it displays, the
/// draft the user types, the draft as it stood when editing began (for
/// reverts), the packed background, and the per-cell debouncer that
/// coalesces background changes before one update goes upstream.
#[derive(Debug, Clone)]
pub struct CellContent {
    pub id: u64,
    pub content: String,
    pub write_buffer: String,
    pub old_write_buffer: String,
    pub background: i32,
    pub is_editing: bool,
    pub bg_debounce: Debouncer<UpdateCellRequest>,
}

impl UpdateCellRequest {
    /// The update a cell's current draft and background call for.
    pub fn from(cell: &CellContent) -> (r: UpdateCellRequest)
        ensures
            r.id == cell.id,
            r.raw_value@ == cell.write_buffer@,
            r.background == cell.background,
    {
        UpdateCellRequest {
            id: cell.id,
            raw_value: cell.write_buffer.clone(),
            background: cell.background,
        }
    }
}

impl CellContent {
    /// The tracked form of a cell that arrived on the wire.
    pub fn from(cell: CellRecord) -> (r: CellContent)
        requires
            cell.id >= 0,
        ensures
            r.id == cell.id,
            r.content@ == cell.computed_value@,
            r.write_buffer@ == cell.raw_value@,
            r.old_write_buffer@ == cell.raw_value@,
            r.background == cell.background,
            !r.is_editing,
            r.bg_debounce.pending is None,
    {
        CellContent {
            id: cell.id as u64,
            content: cell.computed_value,
            write_buffer: cell.raw_value.clone(),
            old_write_buffer: cell.raw_value,
            background: cell.background,
            is_editing: false,
            bg_debounce: Debouncer::new(),
        }
    }

    /// A new empty cell: the placeholder a miss creates.
    pub fn empty(id: u64) -> (r: CellContent)
        ensures
            r.id == id,
            r.content@ == Seq::<char>::empty(),
            r.write_buffer@ == Seq::<char>::empty(),
            r.old_write_buffer@ == Seq::<char>::empty(),
            packed_unsigned(r.background as int) == rgba_unsigned(Rgba { r: 0, g: 0, b: 0, a: 0 }),
            !r.is_editing,
            r.bg_debounce.pending is None,
    {
        CellContent {
            id,
            content: String::new(),
            write_buffer: String::new(),
            old_write_buffer: String::new(),
            background: pack_rgba(Rgba::transparent()),
            is_editing: false,
            bg_debounce: Debouncer::new(),
        }
    }

    /// The background as four channels.
    pub fn background_color(&self) -> (c: Rgba)
        ensures
            rgba_unsigned(c) == packed_unsigned(self.background as int),
    {
        unpack_rgba(self.background)
    }

    pub fn is_editing(&self) -> (r: bool)
        ensures
            r == self.is_editing,
    {
        self.is_editing
    }

    /// Enters edit mode, remembering the draft as it stands so a revert
    /// can restore it.
    pub fn edit(&mut self)
        ensures
            final(self).id == old(self).id,
            final(self).content == old(self).content,
            final(self).write_buffer == old(self).write_buffer,
            final(self).old_write_buffer@ == old(self).write_buffer@,
            final(self).background == old(self).background,
            final(self).is_editing,
            final(self).bg_debounce == old(self).bg_debounce,
    {
        self.old_write_buffer = self.write_buffer.clone();
        self.is_editing = true;
    }

    /// Leaves edit mode; with `revert` the draft falls back to what it was
    /// when editing began.
    pub fn disable_edit(&mut self, revert: bool)
        ensures
            final(self).id == old(self).id,
            final(self).content == old(self).content,
            final(self).write_buffer@ == if revert {
                old(self).old_write_buffer@
            } else {
                old(self).write_buffer@
            },
            final(self).old_write_buffer == old(self).old_write_buffer,
            final(self).background == old(self).background,
            !final(self).is_editing,
            final(self).bg_debounce == old(self).bg_debounce,
    {
        if revert {
            self.write_buffer = self.old_write_buffer.clone();
        }
        self.is_editing = false;
    }

    /// Stores the picked color and debounces the upstream update carrying
    /// it, cancelling any update still pending for this cell.
    pub fn set_background(&mut self, color: Rgba, now_ms: u64)
        requires
            now_ms + BACKGROUND_DEBOUNCE_MS <= u64::MAX,
        ensures
            final(self).id == old(self).id,
            final(self).content == old(self).content,
            final(self).write_buffer == old(self).write_buffer,
            final(self).old_write_buffer == old(self).old_write_buffer,
            packed_unsigned(final(self).background as int) == rgba_unsigned(color),
            final(self).is_editing == old(self).is_editing,
            final(self).bg_debounce.pending matches Some((due, req))
                && due == now_ms + BACKGROUND_DEBOUNCE_MS
                && req.id == old(self).id
                && req.raw_value@ == old(self).write_buffer@
                && req.background == final(self).background,
    {
        self.background = pack_rgba(color);
        let req = UpdateCellRequest::from(&*self);
        self.bg_debounce.debounce(now_ms, BACKGROUND_DEBOUNCE_MS, req);
    }

    /// The update to send when editing ends: one is owed exactly when the
    /// draft changed since editing began, and sending it brings the
    /// remembered draft up to date.
    pub fn save(&mut self) -> (r: Option<UpdateCellRequest>)
        ensures
            final(self).id == old(self).id,
            final(self).content == old(self).content,
            final(self).write_buffer == old(self).write_buffer,
            final(self).background == old(self).background,
            final(self).is_editing == old(self).is_editing,
            final(self).bg_debounce == old(self).bg_debounce,
            if old(self).old_write_buffer@ == old(self).write_buffer@ {
                r is None && final(self).old_write_buffer == old(self).old_write_buffer
            } else {
                (r matches Some(req)
                    && req.id == old(self).id
                    && req.raw_value@ == old(self).write_buffer@
                    && req.background == old(self).background)
                && final(self).old_write_buffer@ == old(self).write_buffer@
            },
    {
        if !self.old_write_buffer.eq(&self.write_buffer) {
            let req = UpdateCellRequest::from(&*self);
            self.old_write_buffer = self.write_buffer.clone();
            Some(req)
        } else {
            None
        }
    }
}

} // verus!
