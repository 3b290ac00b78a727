//! An established session with one remote.

use vstd::prelude::*;
use std::collections::HashMap;
use crate::envelope::{package_spec, EnvelopeView, InternetPacket, NodeEncryption};
use crate::packet::{NodePacket, PacketView};
use crate::tracker::{PingTracker, PingTrackerView};
use crate::types::{InternetID, SessionID, SessionType, RATE_LIMIT_TICKS};

verus! {

/// Mathematical content of a [`RemoteSession`].
pub struct SessionView {
    pub session_id: SessionID,
    pub return_net_id: InternetID,
    pub tracker: PingTrackerView,
    pub session_type: SessionType,
    /// Tick of the last arrival of each kind of packet, by [`PacketView::kind`].
    pub last_packet_time: Map<u8, usize>,
    pub is_testing: bool,
}

/// Whether a packet that arrives `elapsed` ticks after the previous one of
/// its kind is dropped by the rate limit: only when there was a previous
/// one, fewer than [`RATE_LIMIT_TICKS`] ticks ago.
pub open spec fn rate_limited(elapsed: Option<usize>) -> bool {
    elapsed matches Some(d) && d < RATE_LIMIT_TICKS
}

impl SessionView {
    /// A session that has just been agreed on: nothing measured, nothing received.
    pub open spec fn fresh(session_id: SessionID, return_net_id: InternetID) -> SessionView {
        SessionView {
            session_id,
            return_net_id,
            tracker: PingTrackerView::fresh(),
            session_type: SessionType::Normal,
            last_packet_time: Map::empty(),
            is_testing: false,
        }
    }

    /// Ticks between the last arrival of a packet of `kind` and `now`, if
    /// one arrived before.
    pub open spec fn elapsed(self, kind: u8, now: usize) -> Option<usize> {
        if self.last_packet_time.contains_key(kind) {
            let last = self.last_packet_time[kind];
            Some(
                if now >= last {
                    (now - last) as usize
                } else {
                    0
                },
            )
        } else {
            None
        }
    }

    /// The session after a packet of `kind` arrived at `now`.
    pub open spec fn stamp(self, kind: u8, now: usize) -> SessionView {
        SessionView { last_packet_time: self.last_packet_time.insert(kind, now), ..self }
    }

    /// The envelope that carries `packet` through this session.
    pub open spec fn envelope(self, packet: PacketView) -> EnvelopeView {
        EnvelopeView::Session { session_id: self.session_id, packet }
    }
}

/// An established session: where to send, what was measured, and when each
/// kind of packet last arrived.
#[derive(Debug)]
pub struct RemoteSession {
    /// Identifier both sides agreed on.
    pub session_id: SessionID,
    /// Substrate address that reaches the remote.
    pub return_net_id: InternetID,
    /// Ping bookkeeping of this session.
    pub tracker: PingTracker,
    /// How the session reaches the remote.
    pub session_type: SessionType,
    /// Tick of the last arrival of each kind of packet, by [`NodePacket::kind`].
    pub last_packet_time: HashMap<u8, usize>,
    /// Whether the remote is being probed as a candidate peer.
    pub is_testing: bool,
}

impl View for RemoteSession {
    type V = SessionView;

    open spec fn view(&self) -> SessionView {
        SessionView {
            session_id: self.session_id,
            return_net_id: self.return_net_id,
            tracker: self.tracker@,
            session_type: self.session_type,
            last_packet_time: self.last_packet_time@,
            is_testing: self.is_testing,
        }
    }
}

impl RemoteSession {
    /// Creates the session agreed on under `session_id` with the remote at `return_net_id`.
    pub fn from_id(session_id: SessionID, return_net_id: InternetID) -> (s: RemoteSession)
        ensures
            s@ == SessionView::fresh(session_id, return_net_id),
    {
        RemoteSession {
            session_id,
            return_net_id,
            tracker: PingTracker::new(),
            session_type: SessionType::Normal,
            last_packet_time: HashMap::new(),
            is_testing: false,
        }
    }

    /// Records that `packet` arrived at `now`, and returns the ticks since
    /// the previous arrival of a packet of the same kind, if there was one.
    pub fn check_packet_time(&mut self, packet: &NodePacket, now: usize) -> (elapsed: Option<usize>)
        ensures
            elapsed == old(self)@.elapsed(packet@.kind(), now),
            final(self)@ == old(self)@.stamp(packet@.kind(), now),
    {
        let kind = packet.kind();
        let elapsed = match self.last_packet_time.get(&kind) {
            Some(last) => Some(
                if now >= *last {
                    now - *last
                } else {
                    0
                },
            ),
            None => None,
        };
        self.last_packet_time.insert(kind, now);
        elapsed
    }

    /// Wraps `packet` into the datagram that carries it to the remote.
    pub fn gen_packet(&self, packet: NodePacket, src_addr: InternetID) -> (p: InternetPacket)
        ensures
            p@ == package_spec(self@.envelope(packet@), src_addr, self.return_net_id),
    {
        NodeEncryption::Session { session_id: self.session_id, packet }.package(
            src_addr,
            self.return_net_id,
        )
    }

    /// Whether a packet that arrived `elapsed` ticks after the previous one
    /// of its kind is dropped by the rate limit.
    pub fn is_rate_limited(elapsed: Option<usize>) -> (b: bool)
        ensures
            b == rate_limited(elapsed),
    {
        match elapsed {
            Some(d) => d < RATE_LIMIT_TICKS,
            None => false,
        }
    }
}

} // verus!
