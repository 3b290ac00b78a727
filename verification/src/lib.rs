//! Core of a self-organising overlay-network node: session handshakes,
//! latency tracking, a conditional action queue, and the packet protocol
//! that places every node in a shared two-dimensional routing space.

pub mod types;
pub mod tracker;
pub mod packet;
pub mod pairing;
pub mod route_map;
pub mod entropy;
pub mod json;
pub mod wire;
pub mod envelope;
pub mod session;
pub mod remote;
pub mod action;
pub mod node_list;
pub mod model;
pub mod laws;
pub mod node;
pub mod dispatch;
pub mod handshake;
pub mod scheduler;

pub use crate::action::{NodeAction, NodeActionCondition};
pub use crate::envelope::{InternetPacket, NodeEncryption, PacketVec};
pub use crate::node::Node;
pub use crate::packet::NodePacket;
pub use crate::remote::RemoteNode;
pub use crate::session::RemoteSession;
pub use crate::tracker::PingTracker;
pub use crate::types::{
    InternetID, NodeError, NodeID, PingID, RemoteNodeError, RouteCoord, RouteScalar, SessionError,
    SessionID,
};
