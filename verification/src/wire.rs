//! Packets as sequences of unsigned integers, and back.
//!
//! Every packet starts with the number of its kind, followed by its fields,
//! one integer each; a coordinate is two integers, an optional coordinate
//! three. A packet that carries packets gives their count and then the
//! packets themselves, so nesting costs depth: the reader follows it down to
//! [`MAX_PACKET_DEPTH`] levels and rejects what lies deeper.

use vstd::prelude::*;
use crate::packet::{NodePacket, PacketView, packets_view};
use crate::types::{RouteCoord};

verus! {

/// Deepest nesting of packets inside packets that the reader accepts.
pub const MAX_PACKET_DEPTH: usize = 32;

/// The integer that stands for one component of a coordinate.
pub open spec fn coord_word(x: i64) -> u64 {
    (x + 0x8000_0000_0000_0000) as u64
}

/// The coordinate component that an integer stands for.
pub open spec fn word_coord(w: u64) -> i64 {
    (w - 0x8000_0000_0000_0000) as i64
}

/// The three integers that stand for an optional coordinate.
pub open spec fn opt_coord_words(c: Option<RouteCoord>) -> Seq<u64> {
    match c {
        None => seq![0u64, 0u64, 0u64],
        Some(c) => seq![1u64, coord_word(c.0), coord_word(c.1)],
    }
}

/// The integers that stand for a packet.
pub open spec fn packet_words(p: PacketView) -> Seq<u64>
    decreases p,
{
    match p {
        PacketView::ConnectionInit(id, packets) => seq![0u64, id as u64, packets.len() as u64]
            + packets_words(packets),
        PacketView::Ping(id) => seq![1u64, id as u64],
        PacketView::PingResponse(id) => seq![2u64, id as u64],
        PacketView::ExchangeInfo(c, n, d) => seq![3u64] + opt_coord_words(c) + seq![n as u64, d],
        PacketView::ExchangeInfoResponse(c, n, d) => seq![4u64] + opt_coord_words(c) + seq![
            n as u64,
            d,
        ],
        PacketView::ProposeRouteCoords(a, b) => seq![
            5u64,
            coord_word(a.0),
            coord_word(a.1),
            coord_word(b.0),
            coord_word(b.1),
        ],
        PacketView::ProposeRouteCoordsResponse(a, b, ok) => seq![
            6u64,
            coord_word(a.0),
            coord_word(a.1),
            coord_word(b.0),
            coord_word(b.1),
            if ok { 1u64 } else { 0u64 },
        ],
        PacketView::RequestPings(n) => seq![7u64, n as u64],
        PacketView::WantPing(n, a) => seq![8u64, n as u64, a as u64],
        PacketView::AcceptWantPing(n, d) => seq![9u64, n as u64, d],
        PacketView::PeerNotify(r) => seq![10u64, r as u64],
        PacketView::Traverse(n, inner) => seq![11u64, n as u64] + packet_words(*inner),
    }
}

/// The integers that stand for a sequence of packets, one after the other.
pub open spec fn packets_words(s: Seq<PacketView>) -> Seq<u64>
    decreases s,
{
    if s.len() == 0 {
        Seq::empty()
    } else {
        packet_words(s[0]) + packets_words(s.subrange(1, s.len() as int))
    }
}

/// Whether `w` holds `k` integers from position `pos` on.
pub open spec fn holds(w: Seq<u64>, pos: int, k: int) -> bool {
    0 <= pos && pos + k <= w.len()
}

/// The optional coordinate that stands at `pos`, if the three integers there
/// stand for one.
pub open spec fn opt_coord_at(w: Seq<u64>, pos: int) -> Option<Option<RouteCoord>> {
    if !holds(w, pos, 3) {
        None
    } else if w[pos] == 0 {
        Some(None)
    } else if w[pos] == 1 {
        Some(Some((word_coord(w[pos + 1]), word_coord(w[pos + 2]))))
    } else {
        None
    }
}

/// The packet that starts at `pos` and the position behind it, if the
/// integers there stand for a packet nested no deeper than `depth`.
pub open spec fn packet_at(w: Seq<u64>, pos: int, depth: nat) -> Option<(PacketView, int)>
    decreases depth, 0nat,
{
    if !holds(w, pos, 2) {
        None
    } else {
        let tag = w[pos];
        let a = w[pos + 1];
        if tag == 0 {
            if depth > 0 && holds(w, pos, 3) && a <= u32::MAX && w[pos + 2] <= usize::MAX {
                match packets_at(w, pos + 3, w[pos + 2] as nat, (depth - 1) as nat) {
                    Some((packets, end)) => Some((PacketView::ConnectionInit(a as u32, packets), end)),
                    None => None,
                }
            } else {
                None
            }
        } else if tag == 1 {
            if a <= u32::MAX {
                Some((PacketView::Ping(a as u32), pos + 2))
            } else {
                None
            }
        } else if tag == 2 {
            if a <= u32::MAX {
                Some((PacketView::PingResponse(a as u32), pos + 2))
            } else {
                None
            }
        } else if tag == 3 || tag == 4 {
            if holds(w, pos, 6) && w[pos + 4] <= usize::MAX {
                match opt_coord_at(w, pos + 1) {
                    Some(c) => if tag == 3 {
                        Some((PacketView::ExchangeInfo(c, w[pos + 4] as usize, w[pos + 5]), pos + 6))
                    } else {
                        Some(
                            (
                                PacketView::ExchangeInfoResponse(c, w[pos + 4] as usize, w[pos + 5]),
                                pos + 6,
                            ),
                        )
                    },
                    None => None,
                }
            } else {
                None
            }
        } else if tag == 5 {
            if holds(w, pos, 5) {
                Some(
                    (
                        PacketView::ProposeRouteCoords(
                            (word_coord(a), word_coord(w[pos + 2])),
                            (word_coord(w[pos + 3]), word_coord(w[pos + 4])),
                        ),
                        pos + 5,
                    ),
                )
            } else {
                None
            }
        } else if tag == 6 {
            if holds(w, pos, 6) && w[pos + 5] <= 1 {
                Some(
                    (
                        PacketView::ProposeRouteCoordsResponse(
                            (word_coord(a), word_coord(w[pos + 2])),
                            (word_coord(w[pos + 3]), word_coord(w[pos + 4])),
                            w[pos + 5] == 1,
                        ),
                        pos + 6,
                    ),
                )
            } else {
                None
            }
        } else if tag == 7 {
            if a <= usize::MAX {
                Some((PacketView::RequestPings(a as usize), pos + 2))
            } else {
                None
            }
        } else if tag == 8 {
            if holds(w, pos, 3) && a <= u32::MAX && w[pos + 2] <= u32::MAX {
                Some((PacketView::WantPing(a as u32, w[pos + 2] as u32), pos + 3))
            } else {
                None
            }
        } else if tag == 9 {
            if holds(w, pos, 3) && a <= u32::MAX {
                Some((PacketView::AcceptWantPing(a as u32, w[pos + 2]), pos + 3))
            } else {
                None
            }
        } else if tag == 10 {
            if a <= u8::MAX {
                Some((PacketView::PeerNotify(a as u8), pos + 2))
            } else {
                None
            }
        } else if tag == 11 {
            if depth > 0 && a <= u32::MAX {
                match packet_at(w, pos + 2, (depth - 1) as nat) {
                    Some((inner, end)) => Some((PacketView::Traverse(a as u32, Box::new(inner)), end)),
                    None => None,
                }
            } else {
                None
            }
        } else {
            None
        }
    }
}

/// The `count` packets that start at `pos`, one after the other, and the
/// position behind the last.
pub open spec fn packets_at(w: Seq<u64>, pos: int, count: nat, depth: nat) -> Option<
    (Seq<PacketView>, int),
>
    decreases depth, count + 1,
{
    if count == 0 {
        Some((Seq::empty(), pos))
    } else {
        match packet_at(w, pos, depth) {
            Some((first, next)) => match packets_at(w, next, (count - 1) as nat, depth) {
                Some((rest, end)) => Some((seq![first] + rest, end)),
                None => None,
            },
            None => None,
        }
    }
}

/// Whether a packet is nested no deeper than `depth`, and carries no more
/// packets than a machine can count.
pub open spec fn encodable(p: PacketView, depth: nat) -> bool
    decreases p,
{
    match p {
        PacketView::ConnectionInit(_, packets) => {
            &&& depth > 0
            &&& packets.len() <= usize::MAX
            &&& forall|i: int| 0 <= i < packets.len() ==> encodable(#[trigger] packets[i], (depth - 1) as nat)
        },
        PacketView::Traverse(_, inner) => depth > 0 && encodable(*inner, (depth - 1) as nat),
        _ => true,
    }
}

/// Reading back what was written gives the packet that was written: in any
/// sequence of integers, where the integers of an encodable packet start,
/// the reader finds that packet and stops right behind it.
pub proof fn lemma_packet_at_words(pre: Seq<u64>, p: PacketView, post: Seq<u64>, depth: nat)
    requires
        encodable(p, depth),
    ensures
        packet_at(pre + packet_words(p) + post, pre.len() as int, depth) == Some(
            (p, (pre.len() + packet_words(p).len()) as int),
        ),
    decreases p, 0nat,
{
    let ws = packet_words(p);
    let w = pre + ws + post;
    let pos = pre.len() as int;
    assert(ws.len() >= 2);
    assert forall|i: int| 0 <= i < ws.len() implies w[pos + i] == ws[i] by {}
    match p {
        PacketView::ConnectionInit(id, packets) => {
            let head = seq![0u64, id as u64, packets.len() as u64];
            assert(ws[0] == head[0] && ws[1] == head[1] && ws[2] == head[2]);
            assert(w[pos] == 0 && w[pos + 1] == id as u64 && w[pos + 2] == packets.len() as u64);
            lemma_packets_at_words(pre + head, packets, post, (depth - 1) as nat);
            assert(pre + head + packets_words(packets) + post =~= w);
        },
        PacketView::Ping(id) => {
            assert(w[pos] == ws[0] && w[pos + 1] == ws[1]);
        },
        PacketView::PingResponse(id) => {
            assert(w[pos] == ws[0] && w[pos + 1] == ws[1]);
        },
        PacketView::ExchangeInfo(c, n, d) => {
            assert(ws.len() == 6);
            assert(w[pos] == ws[0] && w[pos + 1] == ws[1] && w[pos + 2] == ws[2] && w[pos + 3]
                == ws[3] && w[pos + 4] == ws[4] && w[pos + 5] == ws[5]);
        },
        PacketView::ExchangeInfoResponse(c, n, d) => {
            assert(ws.len() == 6);
            assert(w[pos] == ws[0] && w[pos + 1] == ws[1] && w[pos + 2] == ws[2] && w[pos + 3]
                == ws[3] && w[pos + 4] == ws[4] && w[pos + 5] == ws[5]);
        },
        PacketView::ProposeRouteCoords(a, b) => {
            assert(w[pos] == ws[0] && w[pos + 1] == ws[1] && w[pos + 2] == ws[2] && w[pos + 3]
                == ws[3] && w[pos + 4] == ws[4]);
        },
        PacketView::ProposeRouteCoordsResponse(a, b, ok) => {
            assert(w[pos] == ws[0] && w[pos + 1] == ws[1] && w[pos + 2] == ws[2] && w[pos + 3]
                == ws[3] && w[pos + 4] == ws[4] && w[pos + 5] == ws[5]);
        },
        PacketView::RequestPings(n) => {
            assert(w[pos] == ws[0] && w[pos + 1] == ws[1]);
        },
        PacketView::WantPing(n, a) => {
            assert(w[pos] == ws[0] && w[pos + 1] == ws[1] && w[pos + 2] == ws[2]);
        },
        PacketView::AcceptWantPing(n, d) => {
            assert(w[pos] == ws[0] && w[pos + 1] == ws[1] && w[pos + 2] == ws[2]);
        },
        PacketView::PeerNotify(r) => {
            assert(w[pos] == ws[0] && w[pos + 1] == ws[1]);
        },
        PacketView::Traverse(n, inner) => {
            let head = seq![11u64, n as u64];
            assert(ws[0] == head[0] && ws[1] == head[1]);
            assert(w[pos] == 11 && w[pos + 1] == n as u64);
            lemma_packet_at_words(pre + head, *inner, post, (depth - 1) as nat);
            assert(pre + head + packet_words(*inner) + post =~= w);
        },
    }
}

/// Reading back a written sequence of packets gives that sequence.
pub proof fn lemma_packets_at_words(pre: Seq<u64>, s: Seq<PacketView>, post: Seq<u64>, depth: nat)
    requires
        forall|i: int| 0 <= i < s.len() ==> encodable(#[trigger] s[i], depth),
    ensures
        packets_at(pre + packets_words(s) + post, pre.len() as int, s.len(), depth) == Some(
            (s, (pre.len() + packets_words(s).len()) as int),
        ),
    decreases s, 1nat,
{
    if s.len() == 0 {
        assert(s =~= Seq::empty());
    } else {
        let first = packet_words(s[0]);
        let tail = s.subrange(1, s.len() as int);
        let w = pre + packets_words(s) + post;
        lemma_packet_at_words(pre, s[0], packets_words(tail) + post, depth);
        assert(pre + first + (packets_words(tail) + post) =~= w);
        assert forall|i: int| 0 <= i < tail.len() implies encodable(#[trigger] tail[i], depth) by {
            assert(tail[i] == s[i + 1]);
        }
        lemma_packets_at_words(pre + first, tail, post, depth);
        assert(pre + first + packets_words(tail) + post =~= w);
        assert(seq![s[0]] + tail =~= s);
    }
}

/// Writes one coordinate component as an integer.
pub fn coord_to_word(x: i64) -> (w: u64)
    ensures
        w == coord_word(x),
{
    if x >= 0 {
        x as u64 + 0x8000_0000_0000_0000u64
    } else {
        (x + i64::MAX + 1) as u64
    }
}

/// Reads one coordinate component from an integer.
pub fn word_to_coord(w: u64) -> (x: i64)
    ensures
        x == word_coord(w),
        coord_word(x) == w,
{
    if w >= 0x8000_0000_0000_0000u64 {
        (w - 0x8000_0000_0000_0000u64) as i64
    } else {
        w as i64 - i64::MAX - 1
    }
}

/// A coordinate component survives being written and read.
pub proof fn lemma_coord_word(x: i64)
    ensures
        word_coord(coord_word(x)) == x,
{
}

fn push_coord(c: &RouteCoord, out: &mut Vec<u64>)
    ensures
        final(out)@ == old(out)@ + seq![coord_word(c.0), coord_word(c.1)],
{
    out.push(coord_to_word(c.0));
    out.push(coord_to_word(c.1));
    assert(out@ =~= old(out)@ + seq![coord_word(c.0), coord_word(c.1)]);
}

fn push_opt_coord(c: &Option<RouteCoord>, out: &mut Vec<u64>)
    ensures
        final(out)@ == old(out)@ + opt_coord_words(*c),
{
    match c {
        None => {
            out.push(0);
            out.push(0);
            out.push(0);
        },
        Some(c) => {
            out.push(1);
            out.push(coord_to_word(c.0));
            out.push(coord_to_word(c.1));
        },
    }
    assert(out@ =~= old(out)@ + opt_coord_words(*c));
}

/// Appends the integers that stand for `p` to `out`.
pub fn encode_packet(p: &NodePacket, out: &mut Vec<u64>)
    ensures
        final(out)@ == old(out)@ + packet_words(p@),
    decreases p,
{
    match p {
        NodePacket::ConnectionInit(id, packets) => {
            out.push(0);
            out.push(*id as u64);
            out.push(packets.len() as u64);
            assert(out@ =~= old(out)@ + seq![0u64, *id as u64, packets.len() as u64]);
            encode_packets(packets, out);
            assert(out@ =~= old(out)@ + packet_words(p@));
        },
        NodePacket::Ping(id) => {
            out.push(1);
            out.push(*id as u64);
            assert(out@ =~= old(out)@ + packet_words(p@));
        },
        NodePacket::PingResponse(id) => {
            out.push(2);
            out.push(*id as u64);
            assert(out@ =~= old(out)@ + packet_words(p@));
        },
        NodePacket::ExchangeInfo(c, n, d) => {
            out.push(3);
            push_opt_coord(c, out);
            out.push(*n as u64);
            out.push(*d);
            assert(out@ =~= old(out)@ + packet_words(p@));
        },
        NodePacket::ExchangeInfoResponse(c, n, d) => {
            out.push(4);
            push_opt_coord(c, out);
            out.push(*n as u64);
            out.push(*d);
            assert(out@ =~= old(out)@ + packet_words(p@));
        },
        NodePacket::ProposeRouteCoords(a, b) => {
            out.push(5);
            push_coord(a, out);
            push_coord(b, out);
            assert(out@ =~= old(out)@ + packet_words(p@));
        },
        NodePacket::ProposeRouteCoordsResponse(a, b, ok) => {
            out.push(6);
            push_coord(a, out);
            push_coord(b, out);
            out.push(if *ok { 1 } else { 0 });
            assert(out@ =~= old(out)@ + packet_words(p@));
        },
        NodePacket::RequestPings(n) => {
            out.push(7);
            out.push(*n as u64);
            assert(out@ =~= old(out)@ + packet_words(p@));
        },
        NodePacket::WantPing(n, a) => {
            out.push(8);
            out.push(*n as u64);
            out.push(*a as u64);
            assert(out@ =~= old(out)@ + packet_words(p@));
        },
        NodePacket::AcceptWantPing(n, d) => {
            out.push(9);
            out.push(*n as u64);
            out.push(*d);
            assert(out@ =~= old(out)@ + packet_words(p@));
        },
        NodePacket::PeerNotify(r) => {
            out.push(10);
            out.push(*r as u64);
            assert(out@ =~= old(out)@ + packet_words(p@));
        },
        NodePacket::Traverse(n, inner) => {
            out.push(11);
            out.push(*n as u64);
            let ghost start = out@;
            assert(start =~= old(out)@ + seq![11u64, *n as u64]);
            encode_packet(inner, out);
            assert(out@ =~= old(out)@ + packet_words(p@));
        },
    }
}

/// Appends the integers that stand for each of `packets`, in order, to `out`.
pub fn encode_packets(packets: &Vec<NodePacket>, out: &mut Vec<u64>)
    ensures
        final(out)@ == old(out)@ + packets_words(packets_view(packets@)),
    decreases packets,
{
    let ghost views = packets_view(packets@);
    assert(views.subrange(0, views.len() as int) =~= views);
    let mut i: usize = 0;
    while i < packets.len()
        invariant
            i <= packets.len(),
            views == packets_view(packets@),
            old(out)@ + packets_words(views) == out@ + packets_words(
                views.subrange(i as int, views.len() as int),
            ),
        decreases packets.len() - i,
    {
        let ghost rest = views.subrange(i as int, views.len() as int);
        assert(rest.subrange(1, rest.len() as int) =~= views.subrange(i + 1, views.len() as int));
        assert(rest[0] == packets[i as int]@);
        let ghost before = out@;
        proof {
            vstd::std_specs::vec::axiom_vec_index_decreases(*packets, i as int);
        }
        encode_packet(&packets[i], out);
        assert(before + (packet_words(rest[0]) + packets_words(rest.subrange(1, rest.len() as int)))
            =~= out@ + packets_words(rest.subrange(1, rest.len() as int)));
        i = i + 1;
    }
    assert(packets_words(views.subrange(i as int, views.len() as int)) =~= Seq::<u64>::empty());
}

fn decode_opt_coord(w: &Vec<u64>, pos: usize) -> (r: Option<Option<RouteCoord>>)
    requires
        pos + 3 <= w.len(),
    ensures
        r == opt_coord_at(w@, pos as int),
{
    if w[pos] == 0 {
        Some(None)
    } else if w[pos] == 1 {
        Some(Some((word_to_coord(w[pos + 1]), word_to_coord(w[pos + 2]))))
    } else {
        None
    }
}

/// What [`decode_packet`] owes for a given reading of the integers.
pub open spec fn decoded(found: Option<(PacketView, int)>, r: Option<(NodePacket, usize)>, len: int) -> bool {
    match found {
        Some((view, end)) => r matches Some((p, e)) && p@ == view && e == end && end <= len,
        None => r is None,
    }
}

/// Reads the packet that starts at `pos`, nested no deeper than `depth`,
/// and returns it with the position behind it.
pub fn decode_packet(w: &Vec<u64>, pos: usize, depth: usize) -> (r: Option<(NodePacket, usize)>)
    requires
        pos <= w.len(),
    ensures
        decoded(packet_at(w@, pos as int, depth as nat), r, w.len() as int),
    decreases depth, 0nat,
{
    let len = w.len();
    if len - pos < 2 {
        return None;
    }
    let tag = w[pos];
    let a = w[pos + 1];
    if tag == 0 {
        if depth == 0 || len - pos < 3 || a > u32::MAX as u64 || w[pos + 2] > usize::MAX as u64 {
            return None;
        }
        let count = w[pos + 2] as usize;
        let mut packets: Vec<NodePacket> = Vec::new();
        let mut at = pos + 3;
        let mut i: usize = 0;
        while i < count
            invariant_except_break
                i <= count,
                at <= w.len(),
                packets@.len() == i,
                match packets_at(w@, at as int, (count - i) as nat, (depth - 1) as nat) {
                    Some((rest, end)) => packets_at(w@, pos + 3, count as nat, (depth - 1) as nat)
                        == Some((packets_view(packets@) + rest, end)),
                    None => packets_at(w@, pos + 3, count as nat, (depth - 1) as nat) is None,
                },
            invariant
                depth > 0,
                len == w.len(),
            ensures
                i < count ==> packets_at(w@, pos + 3, count as nat, (depth - 1) as nat) is None,
                i >= count ==> packets_at(w@, pos + 3, count as nat, (depth - 1) as nat) == Some(
                    (packets_view(packets@), at as int),
                ) && at <= w.len(),
            decreases count - i,
        {
            let ghost before = packets_view(packets@);
            match decode_packet(w, at, depth - 1) {
                Some((packet, next)) => {
                    proof {
                        let found = packet_at(w@, at as int, (depth - 1) as nat);
                        let later = packets_at(w@, next as int, (count - i - 1) as nat, (depth - 1) as nat);
                        if later is Some {
                            assert(packets_view(packets@.push(packet)) + later.unwrap().0 =~= before + (
                            seq![packet@] + later.unwrap().0));
                        }
                    }
                    packets.push(packet);
                    at = next;
                    i = i + 1;
                },
                None => {
                    break;
                },
            }
        }
        if i < count {
            return None;
        }
        proof {
            assert(packets_view(packets@) + Seq::<PacketView>::empty() =~= packets_view(packets@));
        }
        Some((NodePacket::ConnectionInit(a as u32, packets), at))
    } else if tag == 1 {
        if a > u32::MAX as u64 {
            return None;
        }
        Some((NodePacket::Ping(a as u32), pos + 2))
    } else if tag == 2 {
        if a > u32::MAX as u64 {
            return None;
        }
        Some((NodePacket::PingResponse(a as u32), pos + 2))
    } else if tag == 3 || tag == 4 {
        if len - pos < 6 || w[pos + 4] > usize::MAX as u64 {
            return None;
        }
        match decode_opt_coord(w, pos + 1) {
            Some(c) => if tag == 3 {
                Some((NodePacket::ExchangeInfo(c, w[pos + 4] as usize, w[pos + 5]), pos + 6))
            } else {
                Some((NodePacket::ExchangeInfoResponse(c, w[pos + 4] as usize, w[pos + 5]), pos + 6))
            },
            None => None,
        }
    } else if tag == 5 {
        if len - pos < 5 {
            return None;
        }
        let first = (word_to_coord(a), word_to_coord(w[pos + 2]));
        let second = (word_to_coord(w[pos + 3]), word_to_coord(w[pos + 4]));
        Some((NodePacket::ProposeRouteCoords(first, second), pos + 5))
    } else if tag == 6 {
        if len - pos < 6 || w[pos + 5] > 1 {
            return None;
        }
        let first = (word_to_coord(a), word_to_coord(w[pos + 2]));
        let second = (word_to_coord(w[pos + 3]), word_to_coord(w[pos + 4]));
        Some((NodePacket::ProposeRouteCoordsResponse(first, second, w[pos + 5] == 1), pos + 6))
    } else if tag == 7 {
        if a > usize::MAX as u64 {
            return None;
        }
        Some((NodePacket::RequestPings(a as usize), pos + 2))
    } else if tag == 8 {
        if len - pos < 3 || a > u32::MAX as u64 || w[pos + 2] > u32::MAX as u64 {
            return None;
        }
        Some((NodePacket::WantPing(a as u32, w[pos + 2] as u32), pos + 3))
    } else if tag == 9 {
        if len - pos < 3 || a > u32::MAX as u64 {
            return None;
        }
        Some((NodePacket::AcceptWantPing(a as u32, w[pos + 2]), pos + 3))
    } else if tag == 10 {
        if a > u8::MAX as u64 {
            return None;
        }
        Some((NodePacket::PeerNotify(a as u8), pos + 2))
    } else if tag == 11 {
        if depth == 0 || a > u32::MAX as u64 {
            return None;
        }
        match decode_packet(w, pos + 2, depth - 1) {
            Some((inner, end)) => Some((NodePacket::Traverse(a as u32, Box::new(inner)), end)),
            None => None,
        }
    } else {
        None
    }
}

} // verus!
