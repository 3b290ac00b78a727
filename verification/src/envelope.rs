//! Datagrams and the envelopes they carry: a handshake, its
//! acknowledgement, or a packet inside a session.

use vstd::prelude::*;
use crate::json::{json_text, json_to_words, json_words, words_to_json};
use crate::packet::{NodePacket, PacketView};
use crate::types::{InternetID, NodeError, NodeID, PingID, SessionID};
use crate::wire::{
    decode_packet, encodable, encode_packet, lemma_packet_at_words, packet_words, packet_at,
    MAX_PACKET_DEPTH,
};

verus! {

/// What a datagram carries.
#[derive(Debug)]
pub enum NodeEncryption {
    /// Opens a session: `signer` asks `recipient` to accept `session_id`.
    Handshake { recipient: NodeID, session_id: SessionID, signer: NodeID },
    /// Accepts a session, and issues a ping for the initiator to answer.
    Acknowledge { session_id: SessionID, acknowledger: NodeID, return_ping_id: PingID },
    /// A packet inside an established session.
    Session { session_id: SessionID, packet: NodePacket },
}

/// Mathematical content of a [`NodeEncryption`].
pub enum EnvelopeView {
    Handshake { recipient: NodeID, session_id: SessionID, signer: NodeID },
    Acknowledge { session_id: SessionID, acknowledger: NodeID, return_ping_id: PingID },
    Session { session_id: SessionID, packet: PacketView },
}

impl View for NodeEncryption {
    type V = EnvelopeView;

    open spec fn view(&self) -> EnvelopeView {
        match *self {
            NodeEncryption::Handshake { recipient, session_id, signer } => EnvelopeView::Handshake {
                recipient,
                session_id,
                signer,
            },
            NodeEncryption::Acknowledge {
                session_id,
                acknowledger,
                return_ping_id,
            } => EnvelopeView::Acknowledge { session_id, acknowledger, return_ping_id },
            NodeEncryption::Session { session_id, packet } => EnvelopeView::Session {
                session_id,
                packet: packet@,
            },
        }
    }
}

/// A datagram of the substrate.
#[derive(Debug)]
pub struct InternetPacket {
    /// Address of the sender.
    pub src_addr: InternetID,
    /// Address of the recipient.
    pub dest_addr: InternetID,
    /// The envelope, as bytes.
    pub data: Vec<u8>,
}

/// Many datagrams, in order.
pub type PacketVec = Vec<InternetPacket>;

/// Mathematical content of an [`InternetPacket`].
pub struct Datagram {
    pub src_addr: InternetID,
    pub dest_addr: InternetID,
    pub data: Seq<u8>,
}

impl View for InternetPacket {
    type V = Datagram;

    open spec fn view(&self) -> Datagram {
        Datagram { src_addr: self.src_addr, dest_addr: self.dest_addr, data: self.data@ }
    }
}

/// Views of a sequence of datagrams, in order.
pub open spec fn datagrams(s: Seq<InternetPacket>) -> Seq<Datagram> {
    Seq::new(s.len(), |i: int| s[i]@)
}

/// The integers that stand for an envelope.
pub open spec fn envelope_words(e: EnvelopeView) -> Seq<u64> {
    match e {
        EnvelopeView::Handshake { recipient, session_id, signer } => seq![
            0u64,
            recipient as u64,
            session_id,
            signer as u64,
        ],
        EnvelopeView::Acknowledge { session_id, acknowledger, return_ping_id } => seq![
            1u64,
            session_id,
            acknowledger as u64,
            return_ping_id as u64,
        ],
        EnvelopeView::Session { session_id, packet } => seq![2u64, session_id] + packet_words(packet),
    }
}

/// The envelope that a sequence of integers stands for, if it stands for
/// one: its kind, its fields, and nothing behind them.
pub open spec fn parse_envelope(w: Seq<u64>) -> Option<EnvelopeView> {
    if w.len() < 2 {
        None
    } else if w[0] == 0 {
        if w.len() == 4 && w[1] <= u32::MAX && w[3] <= u32::MAX {
            Some(
                EnvelopeView::Handshake {
                    recipient: w[1] as u32,
                    session_id: w[2],
                    signer: w[3] as u32,
                },
            )
        } else {
            None
        }
    } else if w[0] == 1 {
        if w.len() == 4 && w[2] <= u32::MAX && w[3] <= u32::MAX {
            Some(
                EnvelopeView::Acknowledge {
                    session_id: w[1],
                    acknowledger: w[2] as u32,
                    return_ping_id: w[3] as u32,
                },
            )
        } else {
            None
        }
    } else if w[0] == 2 {
        match packet_at(w, 2, MAX_PACKET_DEPTH as nat) {
            Some((packet, end)) => if end == w.len() {
                Some(EnvelopeView::Session { session_id: w[1], packet })
            } else {
                None
            },
            None => None,
        }
    } else {
        None
    }
}

/// Whether the reader accepts the packet of an envelope: see [`encodable`].
pub open spec fn envelope_encodable(e: EnvelopeView) -> bool {
    match e {
        EnvelopeView::Session { packet, .. } => encodable(packet, MAX_PACKET_DEPTH as nat),
        _ => true,
    }
}

/// Reading back the integers written for an envelope gives that envelope.
pub proof fn lemma_parse_envelope_words(e: EnvelopeView)
    requires
        envelope_encodable(e),
    ensures
        parse_envelope(envelope_words(e)) == Some(e),
{
    match e {
        EnvelopeView::Session { session_id, packet } => {
            let head = seq![2u64, session_id];
            lemma_packet_at_words(head, packet, Seq::empty(), MAX_PACKET_DEPTH as nat);
            assert(head + packet_words(packet) + Seq::<u64>::empty() =~= envelope_words(e));
        },
        _ => {},
    }
}

/// The datagram that carries `e` from `src_addr` to `dest_addr`.
pub open spec fn package_spec(e: EnvelopeView, src_addr: InternetID, dest_addr: InternetID) -> Datagram {
    Datagram { src_addr, dest_addr, data: json_text(envelope_words(e)) }
}

/// The envelope that the bytes of a datagram stand for, if they stand for one.
pub open spec fn unpackage_spec(data: Seq<u8>) -> Option<EnvelopeView> {
    match json_words(data) {
        Some(w) => parse_envelope(w),
        None => None,
    }
}

/// Whether the datagrams that carry `e` are read back as `e`.
pub open spec fn reads_back(e: EnvelopeView) -> bool {
    unpackage_spec(json_text(envelope_words(e))) == Some(e)
}

/// A datagram gives back the envelope it was made of, provided the
/// envelope is one that the reader accepts and the JSON text of its
/// integers is read back as those integers.
pub proof fn lemma_unpackage_package(e: EnvelopeView, src_addr: InternetID, dest_addr: InternetID)
    requires
        envelope_encodable(e),
    ensures
        json_words(json_text(envelope_words(e))) == Some(envelope_words(e)) ==> unpackage_spec(
            package_spec(e, src_addr, dest_addr).data,
        ) == Some(e),
{
    lemma_parse_envelope_words(e);
}

impl Clone for InternetPacket {
    /// A copy with the same content.
    fn clone(&self) -> (copy: InternetPacket)
        ensures
            copy@ == self@,
    {
        let data = self.data.clone();
        assert(data@ =~= self.data@);
        InternetPacket { src_addr: self.src_addr, dest_addr: self.dest_addr, data }
    }
}

impl Clone for NodeEncryption {
    /// A copy with the same content.
    fn clone(&self) -> (copy: NodeEncryption)
        ensures
            copy@ == self@,
    {
        match self {
            NodeEncryption::Handshake { recipient, session_id, signer } => NodeEncryption::Handshake {
                recipient: *recipient,
                session_id: *session_id,
                signer: *signer,
            },
            NodeEncryption::Acknowledge {
                session_id,
                acknowledger,
                return_ping_id,
            } => NodeEncryption::Acknowledge {
                session_id: *session_id,
                acknowledger: *acknowledger,
                return_ping_id: *return_ping_id,
            },
            NodeEncryption::Session { session_id, packet } => NodeEncryption::Session {
                session_id: *session_id,
                packet: packet.clone(),
            },
        }
    }
}

impl NodeEncryption {
    /// The integers that stand for this envelope. They are read back as
    /// this envelope, provided its packet is not nested deeper than the
    /// reader follows.
    pub fn to_words(&self) -> (w: Vec<u64>)
        ensures
            w@ == envelope_words(self@),
            envelope_encodable(self@) ==> parse_envelope(w@) == Some(self@),
    {
        proof {
            if envelope_encodable(self@) {
                lemma_parse_envelope_words(self@);
            }
        }
        let mut w: Vec<u64> = Vec::new();
        match self {
            NodeEncryption::Handshake { recipient, session_id, signer } => {
                w.push(0);
                w.push(*recipient as u64);
                w.push(*session_id);
                w.push(*signer as u64);
                assert(w@ =~= envelope_words(self@));
            },
            NodeEncryption::Acknowledge { session_id, acknowledger, return_ping_id } => {
                w.push(1);
                w.push(*session_id);
                w.push(*acknowledger as u64);
                w.push(*return_ping_id as u64);
                assert(w@ =~= envelope_words(self@));
            },
            NodeEncryption::Session { session_id, packet } => {
                w.push(2);
                w.push(*session_id);
                assert(w@ =~= seq![2u64, *session_id]);
                encode_packet(packet, &mut w);
            },
        }
        w
    }

    /// Reads an envelope from the integers that stand for it.
    pub fn from_words(w: &Vec<u64>) -> (r: Option<NodeEncryption>)
        ensures
            match parse_envelope(w@) {
                Some(e) => r matches Some(x) && x@ == e,
                None => r is None,
            },
    {
        if w.len() < 2 {
            None
        } else if w[0] == 0 {
            if w.len() == 4 && w[1] <= u32::MAX as u64 && w[3] <= u32::MAX as u64 {
                Some(
                    NodeEncryption::Handshake {
                        recipient: w[1] as u32,
                        session_id: w[2],
                        signer: w[3] as u32,
                    },
                )
            } else {
                None
            }
        } else if w[0] == 1 {
            if w.len() == 4 && w[2] <= u32::MAX as u64 && w[3] <= u32::MAX as u64 {
                Some(
                    NodeEncryption::Acknowledge {
                        session_id: w[1],
                        acknowledger: w[2] as u32,
                        return_ping_id: w[3] as u32,
                    },
                )
            } else {
                None
            }
        } else if w[0] == 2 {
            match decode_packet(w, 2, MAX_PACKET_DEPTH) {
                Some((packet, end)) => if end == w.len() {
                    Some(NodeEncryption::Session { session_id: w[1], packet })
                } else {
                    None
                },
                None => None,
            }
        } else {
            None
        }
    }

    /// Wraps this envelope into the datagram that carries it from
    /// `src_addr` to `dest_addr`.
    pub fn package(&self, src_addr: InternetID, dest_addr: InternetID) -> (p: InternetPacket)
        ensures
            p@ == package_spec(self@, src_addr, dest_addr),
    {
        let words = self.to_words();
        let data = words_to_json(&words).unwrap();
        InternetPacket { src_addr, dest_addr, data }
    }

    /// Reads the envelope that a datagram carries. Bytes that stand for no
    /// envelope give [`NodeError::SerdeDecodeError`].
    pub fn unpackage(packet: &InternetPacket) -> (r: Result<NodeEncryption, NodeError>)
        ensures
            match unpackage_spec(packet@.data) {
                Some(e) => r matches Ok(x) && x@ == e,
                None => r == Err::<NodeEncryption, NodeError>(NodeError::SerdeDecodeError),
            },
    {
        match json_to_words(packet.data.as_slice()) {
            Ok(words) => match NodeEncryption::from_words(&words) {
                Some(e) => Ok(e),
                None => Err(NodeError::SerdeDecodeError),
            },
            Err(_) => Err(NodeError::SerdeDecodeError),
        }
    }
}

} // verus!
