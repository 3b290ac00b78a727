//! Identifiers, protocol constants and error types shared by every module.

use vstd::prelude::*;

verus! {

/// Stable identity of a participant.
pub type NodeID = u32;

/// Address of a node on the datagram substrate.
pub type InternetID = u32;

/// Random token that binds two nodes into one session.
pub type SessionID = u64;

/// Identifier of one ping inside a session.
pub type PingID = u32;

/// Non-negative latency, measured in ticks.
pub type RouteScalar = u64;

/// Position in the shared two-dimensional routing space.
pub type RouteCoord = (i64, i64);

/// Upper bound on the size of the peer list.
pub const TARGET_PEER_COUNT: usize = 5;

/// Largest number of neighbours asked to ping a requester at once.
pub const MAX_REQUEST_PINGS: usize = 10;

/// Number of ticks within which a repeated packet of a rate-limited kind is dropped.
pub const RATE_LIMIT_TICKS: usize = 300;

/// How a session reaches its remote.
#[derive(Clone, Copy, Debug, PartialEq, Eq, Structural)]
pub enum SessionType {
    /// Datagrams go straight to the remote's address.
    Normal,
    /// Datagrams are relayed through peers.
    Routed,
}

/// Failures of the per-session ping bookkeeping.
#[derive(Clone, Copy, Debug, PartialEq, Eq, Structural)]
pub enum SessionError {
    /// A response named a ping that is not outstanding.
    UnknownPingID { ping_id: PingID },
}

/// Failures that concern one remote.
#[derive(Clone, Copy, Debug, PartialEq, Eq, Structural)]
pub enum RemoteNodeError {
    /// The remote has no active session.
    NoSessionError { node_id: NodeID },
    /// A handshake named another node as its recipient.
    UnknownAckRecipient { recipient: NodeID },
    /// An acknowledgement carried a session identifier other than the pending one.
    UnknownAck { passed: SessionID },
    /// An acknowledgement arrived while no handshake was pending.
    NoPendingHandshake,
}

/// Failures of a node's operations. None is fatal: the offending datagram
/// or action is dropped.
#[derive(Clone, Copy, Debug, PartialEq, Eq, Structural)]
#[allow(inconsistent_fields)]
pub enum NodeError {
    /// No remote is known under this identifier.
    NoRemoteError { node_id: NodeID },
    /// No session is known under this identifier.
    UnknownSession { session_id: SessionID },
    /// A datagram was addressed to another substrate address.
    InvalidNetworkRecipient { from: InternetID, intended_dest: InternetID },
    /// A handshake was addressed to another node. For hosts that check
    /// recipients themselves; the node reports this case as
    /// [`RemoteNodeError::UnknownAckRecipient`].
    InvalidHandshakeRecipient { node_id: NodeID },
    /// An acknowledgement came from a node that was sent no handshake.
    /// For hosts that track handshakes themselves; the node reports this
    /// case as [`NodeError::NoRemoteError`] or
    /// [`RemoteNodeError::NoPendingHandshake`].
    UnknownAcknowledgement { from: NodeID },
    /// The node has no routing coordinate and could not compute one.
    NoCalculatedRouteCoord,
    /// A failure that concerns one remote.
    RemoteNodeError(RemoteNodeError),
    /// A failure of a session's ping bookkeeping.
    SessionError(SessionError),
    /// The bytes of a datagram stand for no envelope.
    SerdeDecodeError,
}

} // verus!
