//! The per-connection live-update pipeline: viewport subscriptions and the
//! region filter over the change broadcast.
//!
//! A connection starts in the default region and replaces it wholesale on
//! every decoded region request — a single slot, no history and no merge.
//! Independently, every line of the global change broadcast is held
//! against the connection's active region and forwarded only when the
//! change's id lies inside it.  The snapshot that answers a subscription
//! and the transport around it stay with the caller.

use vstd::prelude::*;
use crate::region::Region;
use crate::wire::{spec_parse_region, spec_parse_cell, parse_region, parse_cell};

verus! {

/// What the transport handed us from the client.
pub enum ClientMessage {
    /// A text frame, possibly a region request.
    Text(String),
    /// The client closed the connection.
    Close,
    /// Anything else on the socket.
    Other,
}

/// What one inbound message asks the connection to do.
#[derive(Debug, PartialEq, Eq, Structural)]
pub enum InboundAction {
    /// Serve a snapshot of this region and filter changes against it from
    /// now on.
    Subscribe(Region),
    /// Nothing; a malformed request is logged and skipped.
    Ignore,
    /// Tear the connection down.
    Disconnect,
}

/// Decodes one client message: a text frame holding a region request asks
/// for a subscription, close frames disconnect, everything else is
/// ignored.
pub fn process_message(msg: &ClientMessage) -> (r: InboundAction)
    ensures
        match msg {
            ClientMessage::Text(t) => match spec_parse_region(t@) {
                Some(reg) => r == InboundAction::Subscribe(reg),
                None => r == InboundAction::Ignore,
            },
            ClientMessage::Close => r == InboundAction::Disconnect,
            ClientMessage::Other => r == InboundAction::Ignore,
        },
{
    match msg {
        ClientMessage::Text(t) => match parse_region(t.as_str()) {
            Some(reg) => InboundAction::Subscribe(reg),
            None => InboundAction::Ignore,
        },
        ClientMessage::Close => InboundAction::Disconnect,
        ClientMessage::Other => InboundAction::Ignore,
    }
}

/// The state a connection carries: its active region, the most recently
/// subscribed viewport.
pub struct Connection {
    pub active: Region,
}

impl Connection {
    /// A fresh connection watches the default region.
    pub fn start() -> (c: Connection)
        ensures
            c.active.from == 0,
            c.active.to == crate::region::DEFAULT_REGION_TO,
    {
        Connection { active: Region::start_region() }
    }

    /// One inbound step: a decoded region request replaces the active
    /// region immediately, superseding any prior subscription; everything
    /// else leaves it alone.
    pub fn on_client_message(&mut self, msg: &ClientMessage) -> (r: InboundAction)
        ensures
            match msg {
                ClientMessage::Text(t) => match spec_parse_region(t@) {
                    Some(reg) => r == InboundAction::Subscribe(reg)
                        && final(self).active == reg,
                    None => r == InboundAction::Ignore && *final(self) == *old(self),
                },
                ClientMessage::Close => r == InboundAction::Disconnect
                    && *final(self) == *old(self),
                ClientMessage::Other => r == InboundAction::Ignore && *final(self) == *old(self),
            },
    {
        let action = process_message(msg);
        match action {
            InboundAction::Subscribe(reg) => {
                self.active = reg;
            }
            InboundAction::Ignore => {}
            InboundAction::Disconnect => {}
        }
        action
    }

    /// One filter step: a broadcast line is forwarded, unchanged, exactly
    /// when it decodes to a cell whose id lies in the active region; a
    /// change outside the region, or a line that is no cell, is never
    /// forwarded.
    pub fn filter_change(&self, line: &str) -> (r: Option<String>)
        ensures
            match spec_parse_cell(line@) {
                Some(v) => if self.active.from <= v.id && v.id < self.active.to {
                    r matches Some(t) && t@ == line@
                } else {
                    r is None
                },
                None => r is None,
            },
    {
        match parse_cell(line) {
            Some(c) => {
                if self.active.contains(c.id) {
                    Some(line.to_owned())
                } else {
                    None
                }
            }
            None => None,
        }
    }
}

} // verus!
