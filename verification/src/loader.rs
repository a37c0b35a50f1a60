//! The transport gate in front of the range channel.
//!
//! The loader owns the observed "channel open" flag that connection
//! lifecycle events maintain.  A fetch is a gated send: while the channel
//! is closed nothing is produced, otherwise the region request is encoded
//! for the caller to put on the wire.  Callers needing reliability wrap the
//! send in a bounded busy-retry with a fixed small attempt count — the
//! channel may reopen between attempts — which stays with the transport,
//! outside this crate.

use vstd::prelude::*;
use crate::region::Region;
use crate::wire::{encode_region, region_text, region_int_wf};

verus! {

/// Gated access to the range channel.
pub struct Loader {
    pub is_open: bool,
}

impl Loader {
    /// A loader over a channel not yet observed open.
    pub fn new() -> (l: Loader)
        ensures
            !l.is_open,
    {
        Loader { is_open: false }
    }

    /// Records a connection lifecycle event.
    pub fn set_open(&mut self, open: bool)
        ensures
            final(self).is_open == open,
    {
        self.is_open = open;
    }

    /// The encoded range request to send for `r`, when the channel is open;
    /// nothing — a refused fetch — when it is not.
    pub fn fetch(&self, r: Region) -> (m: Option<String>)
        requires
            region_int_wf(r),
        ensures
            match m {
                Some(t) => self.is_open && t@ == region_text(r),
                None => !self.is_open,
            },
    {
        if self.is_open {
            Some(encode_region(r))
        } else {
            None
        }
    }
}

} // verus!
