//! A host's IPv4 stack: ARP resolution, ICMP echo, UDP ports and a small TCP, driven frame
//! by frame. Frames the host emits wait in its outbox until they are put on a medium.
use std::collections::VecDeque;
use vstd::prelude::*;

use crate::internet::addr::{Ipv4Addr, SocketAddrV4};
use crate::internet::icmp::{echo_decoding, echo_encoding, IcmpKind, IcmpPacket};
use crate::internet::ip::{ipv4_decoding, ipv4_encoding, IpProtocol, Ipv4Packet, PacketView};
use crate::link::arp::{arp_decoding, arp_encoding, ArpOperation, ArpPacket};
use crate::link::ethernet::{EtherType, EthernetFrame, FrameView, MacAddr};
use crate::link::{frame_views, transmit_all_spec, transmit_spec, SharedMedium};
use crate::transport::tcp::{tcp_decoding, tcp_encoding, TcpPacket, FLAG_ACK, FLAG_FIN, FLAG_SYN};
use crate::transport::udp::{udp_decoding, udp_encoding, UdpPacket};
use crate::vec_map::{KeyEq, VecMap};

verus! {

/// A datagram delivered to a UDP port, with the address it came from.
#[derive(Clone, Debug, PartialEq, Eq)]
pub struct UdpDatagram {
    pub peer: SocketAddrV4,
    pub payload: Vec<u8>,
}

/// The value of a delivered datagram.
pub struct DatagramView {
    pub peer: SocketAddrV4,
    pub payload: Seq<u8>,
}

impl View for UdpDatagram {
    type V = DatagramView;

    open spec fn view(&self) -> DatagramView {
        DatagramView { peer: self.peer, payload: self.payload@ }
    }
}

/// An echo reply received for one of this host's pings.
#[derive(Clone, Debug, PartialEq, Eq)]
pub struct IcmpEchoReply {
    pub source: Ipv4Addr,
    pub identifier: u16,
    pub sequence: u16,
    pub payload: Vec<u8>,
}

/// The value of a received echo reply.
pub struct EchoReplyView {
    pub source: Ipv4Addr,
    pub identifier: u16,
    pub sequence: u16,
    pub payload: Seq<u8>,
}

impl View for IcmpEchoReply {
    type V = EchoReplyView;

    open spec fn view(&self) -> EchoReplyView {
        EchoReplyView { source: self.source, identifier: self.identifier, sequence: self.sequence, payload: self.payload@ }
    }
}

/// The four addresses that name a TCP connection, seen from this host.
#[derive(Clone, Copy, Debug, PartialEq, Eq, Hash, Structural)]
pub struct TcpConnectionKey {
    pub local_ip: Ipv4Addr,
    pub local_port: u16,
    pub remote_ip: Ipv4Addr,
    pub remote_port: u16,
}

impl KeyEq for TcpConnectionKey {
    fn key_eq(&self, other: &Self) -> (r: bool) {
        *self == *other
    }
}

/// The states a connection passes through here.
#[derive(Clone, Copy, Debug, PartialEq, Eq, Structural)]
pub enum TcpState {
    SynSent,
    SynReceived,
    Established,
    Closed,
}

struct TcpConnection {
    state: TcpState,
    send_next: u32,
    recv_next: u32,
    receive_queue: VecDeque<Vec<u8>>,
    accepted: bool,
}

/// The value of a connection: its state, the next sequence numbers to send and to
/// expect, the received data not yet read, and whether it was handed to its listener.
pub struct TcpConnectionView {
    pub state: TcpState,
    pub send_next: u32,
    pub recv_next: u32,
    pub receive_queue: Seq<Seq<u8>>,
    pub accepted: bool,
}

/// The chunks of a receive queue, as byte sequences.
pub open spec fn chunk_views(q: Seq<Vec<u8>>) -> Seq<Seq<u8>> {
    q.map_values(|c: Vec<u8>| c@)
}

impl View for TcpConnection {
    type V = TcpConnectionView;

    closed spec fn view(&self) -> TcpConnectionView {
        TcpConnectionView {
            state: self.state,
            send_next: self.send_next,
            recv_next: self.recv_next,
            receive_queue: chunk_views(self.receive_queue@),
            accepted: self.accepted,
        }
    }
}

impl TcpConnection {
    /// A closed connection with nothing queued; it holds a slot while the connection there is
    /// taken out and changed.
    fn vacant() -> (r: TcpConnection)
        ensures
            r@ == (TcpConnectionView {
                state: TcpState::Closed,
                send_next: 0,
                recv_next: 0,
                receive_queue: Seq::empty(),
                accepted: false,
            }),
    {
        let r = TcpConnection { state: TcpState::Closed, send_next: 0, recv_next: 0, receive_queue: VecDeque::new(), accepted: false };
        assert(chunk_views(r.receive_queue@) =~= Seq::<Seq<u8>>::empty());
        r
    }
}

/// The value of a host's whole state.
pub struct HostView {
    pub ip: Ipv4Addr,
    pub mac: MacAddr,
    pub subnet_mask: Ipv4Addr,
    pub default_gateway: Option<Ipv4Addr>,
    pub ip_forwarding: bool,
    pub trace_enabled: bool,
    /// Resolved hardware addresses.
    pub arp_cache: Map<Ipv4Addr, MacAddr>,
    /// Packets waiting for the hardware address of their next hop.
    pub pending_ip: Map<Ipv4Addr, Seq<PacketView>>,
    /// Next hops for which an ARP request is outstanding.
    pub pending_arp: Set<Ipv4Addr>,
    /// Open UDP ports and the datagrams waiting on each.
    pub udp_ports: Map<u16, Seq<DatagramView>>,
    /// Listening TCP ports and the established connections not yet accepted.
    pub tcp_listeners: Map<u16, Seq<TcpConnectionKey>>,
    pub tcp_connections: Map<TcpConnectionKey, TcpConnectionView>,
    pub icmp_replies: Seq<EchoReplyView>,
    /// Packets for other hosts, kept for a router when forwarding is on.
    pub forwarded: Seq<PacketView>,
    /// Frames emitted and not yet put on a link.
    pub outbox: Seq<FrameView>,
    pub next_ephemeral_port: u16,
    pub next_tcp_seq: u32,
    pub next_ping_id: u16,
    pub next_ping_seq: u16,
}

pub open spec fn packet_views(s: Seq<Ipv4Packet>) -> Seq<PacketView> {
    s.map_values(|p: Ipv4Packet| p@)
}

pub open spec fn datagram_views(s: Seq<UdpDatagram>) -> Seq<DatagramView> {
    s.map_values(|d: UdpDatagram| d@)
}

pub open spec fn echo_reply_views(s: Seq<IcmpEchoReply>) -> Seq<EchoReplyView> {
    s.map_values(|d: IcmpEchoReply| d@)
}

/// The frame that carries packet `p` from `src` to `dst`.
pub open spec fn ipv4_frame(dst: MacAddr, src: MacAddr, p: PacketView) -> FrameView {
    FrameView { dst, src, ethertype: EtherType::Ipv4, payload: ipv4_encoding(p.src, p.dst, p.protocol, p.ttl, p.payload) }
}

/// The frame that carries ARP packet `p` from `src` to `dst`.
pub open spec fn arp_frame(dst: MacAddr, src: MacAddr, p: ArpPacket) -> FrameView {
    FrameView { dst, src, ethertype: EtherType::Arp, payload: arp_encoding(p) }
}

pub open spec fn is_limited_broadcast(ip: Ipv4Addr) -> bool {
    ip == Ipv4Addr::broadcast_spec()
}

/// `ip` lies in this host's subnet.
pub open spec fn on_link(h: HostView, ip: Ipv4Addr) -> bool {
    h.ip.masked_by(h.subnet_mask) == ip.masked_by(h.subnet_mask)
}

/// The next hop for `dst`: itself when on the subnet, else the default gateway if any,
/// else itself.
pub open spec fn next_hop_for(h: HostView, dst: Ipv4Addr) -> Ipv4Addr {
    if on_link(h, dst) {
        dst
    } else {
        match h.default_gateway {
            Some(g) => g,
            None => dst,
        }
    }
}

/// Sending packet `p`, to `via` when given, else to the next hop the routing gives.
/// A limited-broadcast packet goes out in a broadcast frame. A next hop with a known
/// hardware address gets the frame at once; otherwise the packet waits for it, and an ARP
/// request is broadcast unless one is already outstanding.
pub open spec fn send_ip_spec(h: HostView, p: PacketView, via: Option<Ipv4Addr>) -> HostView {
    if is_limited_broadcast(p.dst) {
        HostView { outbox: h.outbox.push(ipv4_frame(MacAddr::broadcast_spec(), h.mac, p)), ..h }
    } else {
        let nh = match via {
            Some(v) => v,
            None => next_hop_for(h, p.dst),
        };
        if h.arp_cache.dom().contains(nh) {
            HostView { outbox: h.outbox.push(ipv4_frame(h.arp_cache[nh], h.mac, p)), ..h }
        } else {
            let queued = if h.pending_ip.dom().contains(nh) { h.pending_ip[nh] } else { Seq::empty() };
            let h1 = HostView { pending_ip: h.pending_ip.insert(nh, queued.push(p)), ..h };
            if h.pending_arp.contains(nh) {
                h1
            } else {
                let request = ArpPacket {
                    operation: ArpOperation::Request,
                    sender_mac: h.mac,
                    sender_ip: h.ip,
                    target_mac: MacAddr(0, 0, 0, 0, 0, 0),
                    target_ip: nh,
                };
                HostView {
                    pending_arp: h.pending_arp.insert(nh),
                    outbox: h.outbox.push(arp_frame(MacAddr::broadcast_spec(), h.mac, request)),
                    ..h1
                }
            }
        }
    }
}

/// Sending a TCP segment of connection `key` with the given fields and a 4096-byte window.
pub open spec fn send_segment_spec(h: HostView, key: TcpConnectionKey, seq: u32, ack: u32, flags: u8, payload: Seq<u8>) -> HostView {
    send_ip_spec(
        h,
        PacketView {
            src: key.local_ip,
            dst: key.remote_ip,
            protocol: IpProtocol::Tcp,
            ttl: 64,
            payload: tcp_encoding(key.local_port, key.remote_port, seq, ack, flags, 4096, payload),
        },
        None,
    )
}

/// Once the hardware address of `ip` is known, the packets waiting for it go out, in order.
pub open spec fn flush_pending_spec(h: HostView, ip: Ipv4Addr) -> HostView {
    if h.arp_cache.dom().contains(ip) && h.pending_ip.dom().contains(ip) {
        HostView {
            pending_ip: h.pending_ip.remove(ip),
            outbox: h.outbox + h.pending_ip[ip].map_values(|p: PacketView| ipv4_frame(h.arp_cache[ip], h.mac, p)),
            ..h
        }
    } else {
        h
    }
}

/// Receiving ARP packet `p`: the sender's address is learned, its waiting packets go out,
/// and a request for this host's address is answered.
pub open spec fn handle_arp_spec(h: HostView, p: ArpPacket) -> HostView {
    let h1 = HostView {
        arp_cache: h.arp_cache.insert(p.sender_ip, p.sender_mac),
        pending_arp: h.pending_arp.remove(p.sender_ip),
        ..h
    };
    let h2 = flush_pending_spec(h1, p.sender_ip);
    if p.operation == ArpOperation::Request && p.target_ip == h.ip {
        let reply = ArpPacket {
            operation: ArpOperation::Reply,
            sender_mac: h.mac,
            sender_ip: h.ip,
            target_mac: p.sender_mac,
            target_ip: p.sender_ip,
        };
        HostView { outbox: h2.outbox.push(arp_frame(p.sender_mac, h.mac, reply)), ..h2 }
    } else {
        h2
    }
}

/// Two packets sent to a next hop whose hardware address is not known yet wait for it; when
/// an ARP packet from that next hop arrives, its address is learned, nothing waits for it any
/// longer, and the two packets go out to it next, in the order they were sent.
pub proof fn lemma_waiting_packets_leave_in_order(h: HostView, first: PacketView, second: PacketView, a: ArpPacket)
    requires
        !is_limited_broadcast(first.dst),
        !is_limited_broadcast(second.dst),
        next_hop_for(h, first.dst) == a.sender_ip,
        next_hop_for(h, second.dst) == a.sender_ip,
        !h.arp_cache.dom().contains(a.sender_ip),
        !h.pending_ip.dom().contains(a.sender_ip),
    ensures
        ({
            let h2 = send_ip_spec(send_ip_spec(h, first, None), second, None);
            let h3 = handle_arp_spec(h2, a);
            &&& h3.arp_cache.dom().contains(a.sender_ip)
            &&& h3.arp_cache[a.sender_ip] == a.sender_mac
            &&& !h3.pending_ip.dom().contains(a.sender_ip)
            &&& h3.outbox.len() >= h2.outbox.len() + 2
            &&& h3.outbox.subrange(h2.outbox.len() as int, h2.outbox.len() + 2int) == seq![
                ipv4_frame(a.sender_mac, h.mac, first),
                ipv4_frame(a.sender_mac, h.mac, second),
            ]
        }),
{
    let nh = a.sender_ip;
    let h1 = send_ip_spec(h, first, None);
    let h2 = send_ip_spec(h1, second, None);
    assert(h1.pending_ip[nh] =~= seq![first]);
    assert(next_hop_for(h1, second.dst) == nh);
    assert(h2.pending_ip[nh] =~= seq![first, second]);
    let g1 = HostView { arp_cache: h2.arp_cache.insert(nh, a.sender_mac), pending_arp: h2.pending_arp.remove(nh), ..h2 };
    let g2 = flush_pending_spec(g1, nh);
    let frames = h2.pending_ip[nh].map_values(|p: PacketView| ipv4_frame(g1.arp_cache[nh], g1.mac, p));
    assert(g2.outbox == h2.outbox + frames);
    assert(frames =~= seq![ipv4_frame(a.sender_mac, h.mac, first), ipv4_frame(a.sender_mac, h.mac, second)]);
    let h3 = handle_arp_spec(h2, a);
    assert(h3.outbox.subrange(h2.outbox.len() as int, h2.outbox.len() + 2int) =~= frames);
}

/// Receiving an echo message from `src_ip`: a request is answered with a reply carrying
/// the same identifier, sequence number and payload; a reply is kept for the application.
pub open spec fn handle_echo_spec(h: HostView, src_ip: Ipv4Addr, kind: IcmpKind, identifier: u16, sequence: u16, payload: Seq<u8>) -> HostView {
    match kind {
        IcmpKind::EchoRequest => send_ip_spec(
            h,
            PacketView {
                src: h.ip,
                dst: src_ip,
                protocol: IpProtocol::Icmp,
                ttl: 64,
                payload: echo_encoding(IcmpKind::EchoReply, identifier, sequence, payload),
            },
            None,
        ),
        IcmpKind::EchoReply => HostView {
            icmp_replies: h.icmp_replies.push(EchoReplyView { source: src_ip, identifier, sequence, payload }),
            ..h
        },
    }
}

/// Receiving a UDP datagram: it is queued on its destination port if that port is open,
/// and dropped otherwise.
pub open spec fn handle_udp_spec(h: HostView, src_ip: Ipv4Addr, src_port: u16, dst_port: u16, payload: Seq<u8>) -> HostView {
    if h.udp_ports.dom().contains(dst_port) {
        HostView {
            udp_ports: h.udp_ports.insert(
                dst_port,
                h.udp_ports[dst_port].push(DatagramView { peer: SocketAddrV4 { ip: src_ip, port: src_port }, payload }),
            ),
            ..h
        }
    } else {
        h
    }
}

/// Receiving a TCP segment from `src_ip`.
/// - FIN: the connection, if any, is closed.
/// - SYN without ACK on a listening port: unless a connection that is not closed already
///   exists, a new connection is opened in SynReceived and a SYN-ACK is sent.
/// - SYN-ACK acknowledging our SYN: the connection is established and ACKed.
/// - A bare ACK of our SYN-ACK: the connection is established and queued for `accept_tcp`
///   the first time.
/// - Data on an established connection: in order, it is queued and ACKed; out of order,
///   only the current ACK is repeated.
/// Everything else is ignored.
pub open spec fn handle_tcp_spec(h: HostView, src_ip: Ipv4Addr, src_port: u16, dst_port: u16, seq: u32, ack: u32, flags: u8, payload: Seq<u8>) -> HostView {
    let key = TcpConnectionKey { local_ip: h.ip, local_port: dst_port, remote_ip: src_ip, remote_port: src_port };
    if flags & FLAG_FIN != 0 {
        if h.tcp_connections.dom().contains(key) {
            HostView {
                tcp_connections: h.tcp_connections.insert(key, TcpConnectionView { state: TcpState::Closed, ..h.tcp_connections[key] }),
                ..h
            }
        } else {
            h
        }
    } else if flags & FLAG_SYN != 0 && flags & FLAG_ACK == 0 {
        if !h.tcp_listeners.dom().contains(dst_port) {
            h
        } else if h.tcp_connections.dom().contains(key) && h.tcp_connections[key].state != TcpState::Closed {
            h
        } else {
            let iss = h.next_tcp_seq;
            let h1 = HostView {
                next_tcp_seq: iss.wrapping_add(1000),
                tcp_connections: h.tcp_connections.insert(
                    key,
                    TcpConnectionView {
                        state: TcpState::SynReceived,
                        send_next: iss.wrapping_add(1),
                        recv_next: seq.wrapping_add(1),
                        receive_queue: Seq::empty(),
                        accepted: false,
                    },
                ),
                ..h
            };
            send_segment_spec(h1, key, iss, seq.wrapping_add(1), FLAG_SYN | FLAG_ACK, Seq::empty())
        }
    } else if !h.tcp_connections.dom().contains(key) {
        h
    } else {
        let c = h.tcp_connections[key];
        if flags & FLAG_SYN != 0 && flags & FLAG_ACK != 0 && c.state == TcpState::SynSent {
            if ack != c.send_next {
                h
            } else {
                let c1 = TcpConnectionView { recv_next: seq.wrapping_add(1), state: TcpState::Established, ..c };
                let h1 = HostView { tcp_connections: h.tcp_connections.insert(key, c1), ..h };
                send_segment_spec(h1, key, c.send_next, seq.wrapping_add(1), FLAG_ACK, Seq::empty())
            }
        } else if flags & FLAG_ACK != 0 && c.state == TcpState::SynReceived && payload.len() == 0 {
            if ack == c.send_next {
                let c1 = TcpConnectionView { state: TcpState::Established, accepted: true, ..c };
                let h1 = HostView { tcp_connections: h.tcp_connections.insert(key, c1), ..h };
                if !c.accepted && h.tcp_listeners.dom().contains(dst_port) {
                    HostView { tcp_listeners: h.tcp_listeners.insert(dst_port, h.tcp_listeners[dst_port].push(key)), ..h1 }
                } else {
                    h1
                }
            } else {
                h
            }
        } else if c.state == TcpState::Established && flags & FLAG_ACK != 0 && payload.len() != 0 {
            if seq != c.recv_next {
                send_segment_spec(h, key, c.send_next, c.recv_next, FLAG_ACK, Seq::empty())
            } else {
                let next = c.recv_next.wrapping_add(payload.len() as u32);
                let c1 = TcpConnectionView { recv_next: next, receive_queue: c.receive_queue.push(payload), ..c };
                let h1 = HostView { tcp_connections: h.tcp_connections.insert(key, c1), ..h };
                send_segment_spec(h1, key, c.send_next, next, FLAG_ACK, Seq::empty())
            }
        } else {
            h
        }
    }
}

/// The connection a segment from `src_ip:src_port` to port `dst_port` of this host belongs to.
pub open spec fn segment_key(h: HostView, src_ip: Ipv4Addr, src_port: u16, dst_port: u16) -> TcpConnectionKey {
    TcpConnectionKey { local_ip: h.ip, local_port: dst_port, remote_ip: src_ip, remote_port: src_port }
}

/// On an established connection, a data segment that starts at the next expected sequence
/// number is queued after the data already received, and the expected number moves on by
/// its length (modulo 2^32); a data segment that starts anywhere else is not queued and
/// moves nothing on.
pub proof fn lemma_data_queued_only_in_order(h: HostView, src_ip: Ipv4Addr, src_port: u16, dst_port: u16, seq: u32, ack: u32, flags: u8, payload: Seq<u8>)
    requires
        established(h, segment_key(h, src_ip, src_port, dst_port)),
        flags & FLAG_FIN == 0,
        flags & FLAG_SYN == 0,
        flags & FLAG_ACK != 0,
        payload.len() > 0,
    ensures
        ({
            let key = segment_key(h, src_ip, src_port, dst_port);
            let c = h.tcp_connections[key];
            let h2 = handle_tcp_spec(h, src_ip, src_port, dst_port, seq, ack, flags, payload);
            &&& h2.tcp_connections.dom().contains(key)
            &&& h2.tcp_connections[key].state == TcpState::Established
            &&& seq == c.recv_next ==> h2.tcp_connections[key].receive_queue == c.receive_queue.push(payload)
                && h2.tcp_connections[key].recv_next as int == (c.recv_next as int + (payload.len() as u32) as int) % 0x1_0000_0000
            &&& seq != c.recv_next ==> h2.tcp_connections[key].receive_queue == c.receive_queue
                && h2.tcp_connections[key].recv_next == c.recv_next
        }),
{
    let key = segment_key(h, src_ip, src_port, dst_port);
    let c = h.tcp_connections[key];
    let n = payload.len() as u32;
    if c.recv_next as int + n as int > u32::MAX {
        assert((c.recv_next as int + n as int) % 0x1_0000_0000 == c.recv_next as int + n as int - 0x1_0000_0000);
    } else {
        assert((c.recv_next as int + n as int) % 0x1_0000_0000 == c.recv_next as int + n as int);
    }
}

/// Two data segments sent back to back, the second starting where the first ends, are both
/// received, in the order they were sent, when the first starts at the next expected
/// sequence number.
pub proof fn lemma_consecutive_segments_received_in_order(
    h: HostView,
    src_ip: Ipv4Addr,
    src_port: u16,
    dst_port: u16,
    seq: u32,
    ack: u32,
    flags: u8,
    first: Seq<u8>,
    second: Seq<u8>,
)
    requires
        established(h, segment_key(h, src_ip, src_port, dst_port)),
        flags & FLAG_FIN == 0,
        flags & FLAG_SYN == 0,
        flags & FLAG_ACK != 0,
        first.len() > 0,
        second.len() > 0,
        seq == h.tcp_connections[segment_key(h, src_ip, src_port, dst_port)].recv_next,
    ensures
        ({
            let key = segment_key(h, src_ip, src_port, dst_port);
            let seq2 = ((seq as int + (first.len() as u32) as int) % 0x1_0000_0000) as u32;
            let h1 = handle_tcp_spec(h, src_ip, src_port, dst_port, seq, ack, flags, first);
            let h2 = handle_tcp_spec(h1, src_ip, src_port, dst_port, seq2, ack, flags, second);
            h2.tcp_connections[key].receive_queue == h.tcp_connections[key].receive_queue.push(first).push(second)
        }),
{
    let key = segment_key(h, src_ip, src_port, dst_port);
    let seq2 = ((seq as int + (first.len() as u32) as int) % 0x1_0000_0000) as u32;
    let h1 = handle_tcp_spec(h, src_ip, src_port, dst_port, seq, ack, flags, first);
    lemma_data_queued_only_in_order(h, src_ip, src_port, dst_port, seq, ack, flags, first);
    assert(h1.ip == h.ip);
    assert(segment_key(h1, src_ip, src_port, dst_port) == key);
    assert(h1.tcp_connections[key].recv_next == seq2);
    lemma_data_queued_only_in_order(h1, src_ip, src_port, dst_port, seq2, ack, flags, second);
}

/// Packet `p` with its TTL one lower.
pub open spec fn with_lower_ttl(p: PacketView) -> PacketView {
    PacketView { ttl: (p.ttl - 1) as u8, ..p }
}

/// Receiving IPv4 packet `p`. A packet for another address is kept, with its TTL lowered,
/// when forwarding is on and its TTL is above 1, and dropped otherwise; a packet for this
/// host or for the limited broadcast address goes to its protocol. Undecodable transport
/// payloads are dropped.
pub open spec fn handle_ipv4_spec(h: HostView, p: PacketView) -> HostView {
    if p.dst != h.ip && !is_limited_broadcast(p.dst) {
        if h.ip_forwarding && p.ttl > 1 {
            HostView { forwarded: h.forwarded.push(with_lower_ttl(p)), ..h }
        } else {
            h
        }
    } else {
        match p.protocol {
            IpProtocol::Icmp => match echo_decoding(p.payload) {
                Some((kind, id, sq, data)) => handle_echo_spec(h, p.src, kind, id, sq, data),
                None => h,
            },
            IpProtocol::Udp => match udp_decoding(p.payload) {
                Some((sp, dp, data)) => handle_udp_spec(h, p.src, sp, dp, data),
                None => h,
            },
            IpProtocol::Tcp => match tcp_decoding(p.payload) {
                Some((sp, dp, sq, ak, fl, _win, data)) => handle_tcp_spec(h, p.src, sp, dp, sq, ak, fl, data),
                None => h,
            },
        }
    }
}

/// Receiving frame `f`: its payload is decoded by EtherType and handled; undecodable
/// payloads are dropped.
pub open spec fn handle_frame_spec(h: HostView, f: FrameView) -> HostView {
    match f.ethertype {
        EtherType::Arp => match arp_decoding(f.payload) {
            Some(p) => handle_arp_spec(h, p),
            None => h,
        },
        EtherType::Ipv4 => match ipv4_decoding(f.payload) {
            Some((src, dst, protocol, ttl, payload)) => handle_ipv4_spec(h, PacketView { src, dst, protocol, ttl, payload }),
            None => h,
        },
    }
}

/// Opening a connection from `local_port` to `remote_ip:remote_port`: a new connection in
/// SynSent with the next initial sequence number, and a SYN.
pub open spec fn connect_spec(h: HostView, local_port: u16, remote_ip: Ipv4Addr, remote_port: u16) -> HostView {
    let iss = h.next_tcp_seq;
    let key = TcpConnectionKey { local_ip: h.ip, local_port, remote_ip, remote_port };
    let h1 = HostView {
        next_tcp_seq: iss.wrapping_add(1000),
        tcp_connections: h.tcp_connections.insert(
            key,
            TcpConnectionView {
                state: TcpState::SynSent,
                send_next: iss.wrapping_add(1),
                recv_next: 0,
                receive_queue: Seq::empty(),
                accepted: true,
            },
        ),
        ..h
    };
    send_segment_spec(h1, key, iss, 0, FLAG_SYN, Seq::empty())
}

/// Sending `payload` on an established connection `key`: the data goes out with the
/// connection's next sequence number and current acknowledgement, and the next sequence
/// number advances by its length (modulo 2^32).
pub open spec fn send_tcp_spec(h: HostView, key: TcpConnectionKey, payload: Seq<u8>) -> HostView {
    let c = h.tcp_connections[key];
    let c1 = TcpConnectionView { send_next: c.send_next.wrapping_add(payload.len() as u32), ..c };
    let h1 = HostView { tcp_connections: h.tcp_connections.insert(key, c1), ..h };
    send_segment_spec(h1, key, c.send_next, c.recv_next, FLAG_ACK, payload)
}

/// Whether connection `key` is established.
pub open spec fn established(h: HostView, key: TcpConnectionKey) -> bool {
    h.tcp_connections.dom().contains(key) && h.tcp_connections[key].state == TcpState::Established
}

/// Sending data on an established connection moves its next sequence number on by the
/// length of the data, modulo 2^32, so that the next send starts where this one ends; the
/// rest of the connection, and every other connection, stays as it was.
pub proof fn lemma_send_tcp_advances_sequence(h: HostView, key: TcpConnectionKey, payload: Seq<u8>)
    requires
        established(h, key),
    ensures
        send_tcp_spec(h, key, payload).tcp_connections.dom() == h.tcp_connections.dom(),
        send_tcp_spec(h, key, payload).tcp_connections[key].send_next as int == (h.tcp_connections[key].send_next as int
            + (payload.len() as u32) as int) % 0x1_0000_0000,
        (TcpConnectionView { send_next: h.tcp_connections[key].send_next, ..send_tcp_spec(h, key, payload).tcp_connections[key] })
            == h.tcp_connections[key],
        forall|k: TcpConnectionKey| k != key && #[trigger] h.tcp_connections.dom().contains(k)
            ==> send_tcp_spec(h, key, payload).tcp_connections[k] == h.tcp_connections[k],
{
    let c = h.tcp_connections[key];
    let n = payload.len() as u32;
    assert(h.tcp_connections.insert(key, TcpConnectionView { send_next: c.send_next.wrapping_add(n), ..c }).dom()
        =~= h.tcp_connections.dom());
    if c.send_next as int + n as int > u32::MAX {
        assert((c.send_next as int + n as int) % 0x1_0000_0000 == c.send_next as int + n as int - 0x1_0000_0000);
    } else {
        assert((c.send_next as int + n as int) % 0x1_0000_0000 == c.send_next as int + n as int);
    }
}

/// The echo request a ping sends.
pub open spec fn ping_spec(h: HostView, dst_ip: Ipv4Addr, payload: Seq<u8>) -> HostView {
    let h1 = HostView { next_ping_id: h.next_ping_id.wrapping_add(1), next_ping_seq: h.next_ping_seq.wrapping_add(1), ..h };
    send_ip_spec(
        h1,
        PacketView {
            src: h.ip,
            dst: dst_ip,
            protocol: IpProtocol::Icmp,
            ttl: 64,
            payload: echo_encoding(IcmpKind::EchoRequest, h.next_ping_id, h.next_ping_seq, payload),
        },
        None,
    )
}

/// The medium as a map from attached address to queued frames.
pub type MediumView = Map<MacAddr, Seq<FrameView>>;

/// A frame is queued on `m` for the host.
pub open spec fn has_frame(h: HostView, m: MediumView) -> bool {
    m.dom().contains(h.mac) && m[h.mac].len() > 0
}

/// The host's outbox put on the medium, in order.
pub open spec fn flush_spec(h: HostView, m: MediumView) -> (HostView, MediumView) {
    (HostView { outbox: Seq::empty(), ..h }, transmit_all_spec(m, h.outbox))
}

/// One step of a host on a medium: the oldest frame queued for it is taken off the medium
/// and handled, and what the host emits is put on the medium. Nothing changes when no
/// frame is queued for it.
pub open spec fn tick_step(h: HostView, m: MediumView) -> (HostView, MediumView) {
    if has_frame(h, m) {
        let f = m[h.mac][0];
        let m1 = m.insert(h.mac, m[h.mac].drop_first());
        flush_spec(handle_frame_spec(h, f), m1)
    } else {
        (h, m)
    }
}

/// `n` steps of a host on a medium.
pub open spec fn tick_steps(h: HostView, m: MediumView, n: nat) -> (HostView, MediumView)
    decreases n,
{
    if n == 0 {
        (h, m)
    } else {
        let (h1, m1) = tick_steps(h, m, (n - 1) as nat);
        tick_step(h1, m1)
    }
}

/// Every host is idle on `m`: nothing waits in its outbox or on the medium for it.
pub open spec fn all_idle(hosts: Seq<Host>, m: MediumView) -> bool {
    forall|i: int| 0 <= i < hosts.len() ==> (#[trigger] hosts[i].view()).outbox.len() == 0 && !has_frame(hosts[i].view(), m)
}

/// The views of a sequence of hosts.
pub open spec fn host_views(hosts: Seq<Host>) -> Seq<HostView> {
    hosts.map_values(|h: Host| h.view())
}

/// The names of a sequence of hosts.
pub open spec fn host_names(hosts: Seq<Host>) -> Seq<Seq<char>> {
    hosts.map_values(|h: Host| h.name_view())
}

/// Hosts on a medium.
pub type Configuration = (Seq<HostView>, MediumView);

/// From `a` to `b` host `i` took its turn as `tick` takes it: it put its outbox on the
/// medium and then handled, in order, the frames queued for it until none was left (or
/// `usize::MAX` of them were handled); the other hosts did nothing.
pub open spec fn tick_of(a: Configuration, b: Configuration, i: int) -> bool {
    &&& a.0.len() == b.0.len()
    &&& 0 <= i < a.0.len()
    &&& b.0 == a.0.update(i, b.0[i])
    &&& exists|n: nat|
        (b.0[i], b.1) == #[trigger] tick_steps(flush_spec(a.0[i], a.1).0, flush_spec(a.0[i], a.1).1, n)
            && (n < usize::MAX ==> !has_frame(b.0[i], b.1))
}

/// Host `i` has work at `a`: frames to send, or a frame queued for it once those are sent.
pub open spec fn busy_at(a: Configuration, i: int) -> bool {
    a.0[i].outbox.len() > 0 || has_frame(flush_spec(a.0[i], a.1).0, flush_spec(a.0[i], a.1).1)
}

/// How many turns of a run of `hosts` hosts found their host with work.
pub open spec fn busy_count(run: Seq<Configuration>, hosts: nat) -> nat
    decreases run.len(),
{
    if run.len() < 2 || hosts == 0 {
        0
    } else {
        busy_count(run.drop_last(), hosts) + if busy_at(run[run.len() - 2], (run.len() - 2) % (hosts as int)) {
            1nat
        } else {
            0nat
        }
    }
}

/// A run of `hosts` hosts in rounds: turn `j` is the tick of host `j % hosts`, so each
/// round ticks every host once, in order.
pub open spec fn is_run(run: Seq<Configuration>, hosts: nat) -> bool {
    &&& run.len() > 0
    &&& hosts == 0 ==> run.len() == 1
    &&& forall|j: int| 0 <= j < run.len() - 1 ==> #[trigger] tick_of(run[j], run[j + 1], j % (hosts as int))
}

/// Lets every host handle what the medium holds for it, round after round, until a round
/// in which no host handled a frame or had frames to send. Returns whether that point was
/// reached; the rounds are bounded by `usize::MAX`. The hosts and the medium end as a run
/// of whole rounds leaves them, each round ticking every host in order. When the point was
/// not reached, `usize::MAX` rounds ran and each found a host with work.
pub fn run_until_idle(hosts: &mut [Host], medium: &mut SharedMedium) -> (r: bool)
    requires
        forall|i: int| 0 <= i < old(hosts)@.len() ==> (#[trigger] old(hosts)@[i]).wf(),
        old(medium).wf(),
    ensures
        final(hosts)@.len() == old(hosts)@.len(),
        forall|i: int| 0 <= i < final(hosts)@.len() ==> (#[trigger] final(hosts)@[i]).wf(),
        final(medium).wf(),
        host_names(final(hosts)@) == host_names(old(hosts)@),
        exists|run: Seq<Configuration>| #[trigger] is_run(run, old(hosts)@.len())
            && run[0] == (host_views(old(hosts)@), old(medium).view())
            && run.last() == (host_views(final(hosts)@), final(medium).view())
            && (old(hosts)@.len() > 0 ==> (run.len() - 1) % (old(hosts)@.len() as int) == 0)
            && (!r ==> busy_count(run, old(hosts)@.len()) >= usize::MAX),
        r ==> all_idle(final(hosts)@, final(medium).view()),
{
    let n = hosts.len();
    let mut rounds: usize = 0;
    let ghost start: Configuration = (host_views(hosts@), medium.view());
    let ghost mut run: Seq<Configuration> = seq![start];
    loop
        invariant
            hosts@.len() == n,
            n == old(hosts)@.len(),
            forall|i: int| 0 <= i < n ==> (#[trigger] hosts@[i]).wf(),
            medium.wf(),
            host_names(hosts@) == host_names(old(hosts)@),
            start == (host_views(old(hosts)@), old(medium).view()),
            is_run(run, n as nat),
            run[0] == start,
            run.last() == (host_views(hosts@), medium.view()),
            run.len() - 1 == rounds * n,
            busy_count(run, n as nat) >= rounds,
        decreases usize::MAX - rounds,
    {
        if rounds == usize::MAX {
            assert(n > 0 ==> (run.len() - 1) % (n as int) == 0) by (nonlinear_arith)
                requires
                    run.len() - 1 == rounds * n,
            ;
            return false;
        }
        rounds = rounds + 1;
        let ghost busy_before = busy_count(run, n as nat);
        let ghost done: nat = (rounds - 1) as nat;
        let mut progressed = false;
        let mut i: usize = 0;
        while i < n
            invariant
                hosts@.len() == n,
                i <= n,
                forall|j: int| 0 <= j < n ==> (#[trigger] hosts@[j]).wf(),
                medium.wf(),
                !progressed ==> all_idle(hosts@.subrange(0, i as int), medium.view()),
                host_names(hosts@) == host_names(old(hosts)@),
                is_run(run, n as nat),
                run[0] == start,
                run.last() == (host_views(hosts@), medium.view()),
                run.len() - 1 == done * n + i,
                busy_count(run, n as nat) >= busy_before,
                progressed ==> busy_count(run, n as nat) >= busy_before + 1,
            decreases n - i,
        {
            let ghost before = hosts@;
            let ghost m_before = medium.view();
            let sending = hosts[i].has_outgoing();
            if sending {
                progressed = true;
            }
            let handled = hosts[i].tick(medium);
            if handled > 0 {
                progressed = true;
            }
            proof {
                let a: Configuration = (host_views(before), m_before);
                let b: Configuration = (host_views(hosts@), medium.view());
                assert(hosts@ == before.update(i as int, hosts@[i as int]));
                assert(b.0 =~= a.0.update(i as int, b.0[i as int]));
                assert(a.0[i as int] == before[i as int].view());
                assert((b.0[i as int], b.1) == tick_steps(flush_spec(a.0[i as int], a.1).0, flush_spec(a.0[i as int], a.1).1, handled as nat));
                assert(tick_of(a, b, i as int));
                assert(host_names(hosts@) =~= host_names(before));
                let j0 = run.len() - 1;
                assert(j0 % (n as int) == i) by (nonlinear_arith)
                    requires
                        j0 == done * n + i,
                        0 <= i < n,
                ;
                if sending || handled > 0 {
                    assert(busy_at(a, i as int));
                }
                let run2 = run.push(b);
                assert(run2.drop_last() =~= run);
                assert(run2[run2.len() - 2] == a);
                assert(busy_count(run2, n as nat) == busy_count(run, n as nat) + if busy_at(a, i as int) { 1nat } else { 0nat });
                assert forall|j: int| 0 <= j < run2.len() - 1 implies #[trigger] tick_of(run2[j], run2[j + 1], j % (n as int)) by {
                    if j < run.len() - 1 {
                        assert(run2[j] == run[j] && run2[j + 1] == run[j + 1]);
                    } else {
                        assert(run2[j] == a && run2[j + 1] == b);
                    }
                }
                run = run2;
                if !progressed {
                    assert(m_before.len() >= 0);
                    assert(medium.view() == m_before) by {
                        assert(before[i as int].view().outbox =~= Seq::<FrameView>::empty());
                    }
                    assert forall|j: int| 0 <= j < i + 1 implies (#[trigger] hosts@.subrange(0, i + 1)[j]).view().outbox.len() == 0
                        && !has_frame(hosts@.subrange(0, i + 1)[j].view(), medium.view()) by {
                        if j < i {
                            assert(hosts@.subrange(0, i + 1)[j] == before.subrange(0, i as int)[j]);
                        }
                    }
                }
            }
            i = i + 1;
        }
        assert(run.len() - 1 == rounds * n) by (nonlinear_arith)
            requires
                run.len() - 1 == done * n + n,
                done == rounds - 1,
        ;
        assert(n > 0 ==> (run.len() - 1) % (n as int) == 0) by (nonlinear_arith)
            requires
                run.len() - 1 == rounds * n,
        ;
        if !progressed {
            assert(hosts@.subrange(0, n as int) =~= hosts@);
            return true;
        }
    }
}

/// The state of a new host.
pub open spec fn initial_host(ip: Ipv4Addr, mac: MacAddr) -> HostView {
    HostView {
        ip,
        mac,
        subnet_mask: Ipv4Addr(255, 255, 255, 0),
        default_gateway: None,
        ip_forwarding: false,
        trace_enabled: false,
        arp_cache: Map::empty(),
        pending_ip: Map::empty(),
        pending_arp: Set::empty(),
        udp_ports: Map::empty(),
        tcp_listeners: Map::empty(),
        tcp_connections: Map::empty(),
        icmp_replies: Seq::empty(),
        forwarded: Seq::empty(),
        outbox: Seq::empty(),
        next_ephemeral_port: 40000,
        next_tcp_seq: 1000,
        next_ping_id: 1,
        next_ping_seq: 1,
    }
}

/// An IPv4 host attached to one link.
pub struct Host {
    name: String,
    ip: Ipv4Addr,
    mac: MacAddr,
    subnet_mask: Ipv4Addr,
    default_gateway: Option<Ipv4Addr>,
    ip_forwarding: bool,
    trace_enabled: bool,
    arp_cache: VecMap<Ipv4Addr, MacAddr>,
    pending_ip: VecMap<Ipv4Addr, Vec<Ipv4Packet>>,
    pending_arp: VecMap<Ipv4Addr, ()>,
    udp_ports: VecMap<u16, VecDeque<UdpDatagram>>,
    tcp_listeners: VecMap<u16, VecDeque<TcpConnectionKey>>,
    tcp_connections: VecMap<TcpConnectionKey, TcpConnection>,
    icmp_replies: VecDeque<IcmpEchoReply>,
    forwarded_ipv4: VecDeque<Ipv4Packet>,
    outbox: VecDeque<EthernetFrame>,
    next_ephemeral_port: u16,
    next_tcp_seq: u32,
    next_ping_id: u16,
    next_ping_seq: u16,
}

impl Host {
    pub closed spec fn wf(&self) -> bool {
        &&& self.arp_cache.wf()
        &&& self.pending_ip.wf()
        &&& self.pending_arp.wf()
        &&& self.udp_ports.wf()
        &&& self.tcp_listeners.wf()
        &&& self.tcp_connections.wf()
        &&& self.next_tcp_seq % 2 == 0
    }

    pub closed spec fn name_view(&self) -> Seq<char> {
        self.name@
    }

    pub closed spec fn view(&self) -> HostView {
        HostView {
            ip: self.ip,
            mac: self.mac,
            subnet_mask: self.subnet_mask,
            default_gateway: self.default_gateway,
            ip_forwarding: self.ip_forwarding,
            trace_enabled: self.trace_enabled,
            arp_cache: self.arp_cache.view(),
            pending_ip: self.pending_ip.view().map_values(|v: Vec<Ipv4Packet>| packet_views(v@)),
            pending_arp: self.pending_arp.view().dom(),
            udp_ports: self.udp_ports.view().map_values(|q: VecDeque<UdpDatagram>| datagram_views(q@)),
            tcp_listeners: self.tcp_listeners.view().map_values(|q: VecDeque<TcpConnectionKey>| q@),
            tcp_connections: self.tcp_connections.view().map_values(|c: TcpConnection| c@),
            icmp_replies: echo_reply_views(self.icmp_replies@),
            forwarded: packet_views(self.forwarded_ipv4@),
            outbox: frame_views(self.outbox@),
            next_ephemeral_port: self.next_ephemeral_port,
            next_tcp_seq: self.next_tcp_seq,
            next_ping_id: self.next_ping_id,
            next_ping_seq: self.next_ping_seq,
        }
    }

    /// A host whose frames are collected in its outbox for the caller to carry.
    pub fn new_with_link(name: &str, ip: Ipv4Addr, mac: MacAddr) -> (r: Host)
        ensures
            r.wf(),
            r.view() == initial_host(ip, mac),
            r.name_view() == name@,
    {
        let r = Host {
            name: name.to_owned(),
            ip,
            mac,
            subnet_mask: Ipv4Addr(255, 255, 255, 0),
            default_gateway: None,
            ip_forwarding: false,
            trace_enabled: false,
            arp_cache: VecMap::new(),
            pending_ip: VecMap::new(),
            pending_arp: VecMap::new(),
            udp_ports: VecMap::new(),
            tcp_listeners: VecMap::new(),
            tcp_connections: VecMap::new(),
            icmp_replies: VecDeque::new(),
            forwarded_ipv4: VecDeque::new(),
            outbox: VecDeque::new(),
            next_ephemeral_port: 40000,
            next_tcp_seq: 1000,
            next_ping_id: 1,
            next_ping_seq: 1,
        };
        assert(r.view().pending_ip =~= Map::empty());
        assert(r.view().pending_arp =~= Set::empty());
        assert(r.view().udp_ports =~= Map::empty());
        assert(r.view().tcp_listeners =~= Map::empty());
        assert(r.view().tcp_connections =~= Map::empty());
        assert(r.view().icmp_replies =~= Seq::empty());
        assert(r.view().forwarded =~= Seq::empty());
        assert(r.view().outbox =~= Seq::empty());
        r
    }

    /// A host attached to `medium` under its hardware address.
    pub fn new(name: &str, ip: Ipv4Addr, mac: MacAddr, medium: &mut SharedMedium) -> (r: Host)
        requires
            old(medium).wf(),
        ensures
            r.wf(),
            r.view() == initial_host(ip, mac),
            r.name_view() == name@,
            final(medium).wf(),
            final(medium).view() == if old(medium).view().dom().contains(mac) {
                old(medium).view()
            } else {
                old(medium).view().insert(mac, Seq::<FrameView>::empty())
            },
    {
        medium.connect(mac);
        Host::new_with_link(name, ip, mac)
    }

    pub fn name(&self) -> (r: &str)
        ensures
            r@ == self.name_view(),
    {
        self.name.as_str()
    }

    pub fn ip(&self) -> (r: Ipv4Addr)
        ensures
            r == self.view().ip,
    {
        self.ip
    }

    pub fn set_ip(&mut self, ip: Ipv4Addr)
        requires
            old(self).wf(),
        ensures
            final(self).wf(),
            final(self).view() == (HostView { ip, ..old(self).view() }),
            final(self).name_view() == old(self).name_view(),
    {
        self.ip = ip;
    }

    pub fn set_subnet_mask(&mut self, subnet_mask: Ipv4Addr)
        requires
            old(self).wf(),
        ensures
            final(self).wf(),
            final(self).view() == (HostView { subnet_mask, ..old(self).view() }),
            final(self).name_view() == old(self).name_view(),
    {
        self.subnet_mask = subnet_mask;
    }

    pub fn set_default_gateway(&mut self, default_gateway: Option<Ipv4Addr>)
        requires
            old(self).wf(),
        ensures
            final(self).wf(),
            final(self).view() == (HostView { default_gateway, ..old(self).view() }),
            final(self).name_view() == old(self).name_view(),
    {
        self.default_gateway = default_gateway;
    }

    pub fn enable_ip_forwarding(&mut self)
        requires
            old(self).wf(),
        ensures
            final(self).wf(),
            final(self).view() == (HostView { ip_forwarding: true, ..old(self).view() }),
            final(self).name_view() == old(self).name_view(),
    {
        self.ip_forwarding = true;
    }

    pub fn mac(&self) -> (r: MacAddr)
        ensures
            r == self.view().mac,
    {
        self.mac
    }

    pub fn enable_trace(&mut self)
        requires
            old(self).wf(),
        ensures
            final(self).wf(),
            final(self).view() == (HostView { trace_enabled: true, ..old(self).view() }),
            final(self).name_view() == old(self).name_view(),
    {
        self.trace_enabled = true;
    }

    pub fn is_trace_enabled(&self) -> (r: bool)
        ensures
            r == self.view().trace_enabled,
    {
        self.trace_enabled
    }

    /// Opens UDP port `port`; an open port keeps its queue.
    pub fn open_udp(&mut self, port: u16)
        requires
            old(self).wf(),
        ensures
            final(self).wf(),
            final(self).view() == (HostView {
                udp_ports: if old(self).view().udp_ports.dom().contains(port) {
                    old(self).view().udp_ports
                } else {
                    old(self).view().udp_ports.insert(port, Seq::empty())
                },
                ..old(self).view()
            }),
            final(self).name_view() == old(self).name_view(),
    {
        if !self.udp_ports.contains_key(&port) {
            let q: VecDeque<UdpDatagram> = VecDeque::new();
            assert(datagram_views(q@) =~= Seq::empty());
            self.udp_ports.insert(port, q);
            assert(self.view().udp_ports =~= old(self).view().udp_ports.insert(port, Seq::empty()));
        }
    }

    /// Sends a UDP datagram from `src_port` to `dst_ip:dst_port`.
    pub fn send_udp(&mut self, src_port: u16, dst_ip: Ipv4Addr, dst_port: u16, payload: Vec<u8>)
        requires
            old(self).wf(),
        ensures
            final(self).wf(),
            final(self).view() == send_ip_spec(
                old(self).view(),
                PacketView {
                    src: old(self).view().ip,
                    dst: dst_ip,
                    protocol: IpProtocol::Udp,
                    ttl: 64,
                    payload: udp_encoding(src_port, dst_port, payload@),
                },
                None,
            ),
            final(self).name_view() == old(self).name_view(),
    {
        let udp = UdpPacket { src_port, dst_port, payload };
        let bytes = udp.encode();
        self.send_ip_packet(Ipv4Packet { src: self.ip, dst: dst_ip, protocol: IpProtocol::Udp, ttl: 64, payload: bytes });
    }

    /// Takes the oldest datagram waiting on `port`.
    pub fn recv_udp(&mut self, port: u16) -> (r: Option<UdpDatagram>)
        requires
            old(self).wf(),
        ensures
            final(self).wf(),
            final(self).name_view() == old(self).name_view(),
            match r {
                Some(d) => old(self).view().udp_ports.dom().contains(port)
                    && old(self).view().udp_ports[port].len() > 0
                    && d@ == old(self).view().udp_ports[port][0]
                    && final(self).view() == (HostView {
                        udp_ports: old(self).view().udp_ports.insert(port, old(self).view().udp_ports[port].drop_first()),
                        ..old(self).view()
                    }),
                None => (!old(self).view().udp_ports.dom().contains(port) || old(self).view().udp_ports[port].len() == 0)
                    && final(self).view() == old(self).view(),
            },
    {
        match self.udp_ports.find(&port) {
            Some(i) => {
                let mut q = self.udp_ports.replace_value_at(i, VecDeque::new());
                let ghost before = q@;
                let r = q.pop_front();
                let ghost after = q@;
                self.udp_ports.replace_value_at(i, q);
                match &r {
                    Some(_) => {
                        assert(datagram_views(after) =~= datagram_views(before).drop_first());
                        assert(self.view().udp_ports =~= old(self).view().udp_ports.insert(port, old(self).view().udp_ports[port].drop_first()));
                    },
                    None => {
                        assert(self.view().udp_ports =~= old(self).view().udp_ports);
                    },
                }
                r
            },
            None => None,
        }
    }

    /// Starts listening on TCP port `port`; a listening port keeps its backlog.
    pub fn listen_tcp(&mut self, port: u16)
        requires
            old(self).wf(),
        ensures
            final(self).wf(),
            final(self).view() == (HostView {
                tcp_listeners: if old(self).view().tcp_listeners.dom().contains(port) {
                    old(self).view().tcp_listeners
                } else {
                    old(self).view().tcp_listeners.insert(port, Seq::empty())
                },
                ..old(self).view()
            }),
            final(self).name_view() == old(self).name_view(),
    {
        if !self.tcp_listeners.contains_key(&port) {
            self.tcp_listeners.insert(port, VecDeque::new());
            assert(self.view().tcp_listeners =~= old(self).view().tcp_listeners.insert(port, Seq::empty()));
        }
    }

    /// Opens a connection from the next ephemeral port to `remote_ip:remote_port`.
    pub fn connect_tcp(&mut self, remote_ip: Ipv4Addr, remote_port: u16) -> (r: TcpConnectionKey)
        requires
            old(self).wf(),
        ensures
            final(self).wf(),
            final(self).name_view() == old(self).name_view(),
            r == (TcpConnectionKey { local_ip: old(self).view().ip, local_port: old(self).view().next_ephemeral_port, remote_ip, remote_port }),
            final(self).view() == connect_spec(
                HostView { next_ephemeral_port: old(self).view().next_ephemeral_port.saturating_add(1), ..old(self).view() },
                old(self).view().next_ephemeral_port,
                remote_ip,
                remote_port,
            ),
    {
        let local_port = self.alloc_ephemeral_port();
        self.connect_tcp_from(local_port, remote_ip, remote_port)
    }

    /// Opens a connection from `local_port` to `remote_ip:remote_port` with a SYN.
    pub fn connect_tcp_from(&mut self, local_port: u16, remote_ip: Ipv4Addr, remote_port: u16) -> (r: TcpConnectionKey)
        requires
            old(self).wf(),
        ensures
            final(self).wf(),
            final(self).name_view() == old(self).name_view(),
            r == (TcpConnectionKey { local_ip: old(self).view().ip, local_port, remote_ip, remote_port }),
            final(self).view() == connect_spec(old(self).view(), local_port, remote_ip, remote_port),
    {
        let initial_seq = self.alloc_tcp_seq();
        let key = TcpConnectionKey { local_ip: self.ip, local_port, remote_ip, remote_port };
        let ghost h1 = self.view();
        let conn = TcpConnection {
            state: TcpState::SynSent,
            send_next: initial_seq + 1,
            recv_next: 0,
            receive_queue: VecDeque::new(),
            accepted: true,
        };
        assert(conn@.receive_queue =~= Seq::<Seq<u8>>::empty());
        self.tcp_connections.insert(key, conn);
        assert(self.view().tcp_connections =~= h1.tcp_connections.insert(key, conn@));
        self.send_tcp_packet(key, initial_seq, 0, FLAG_SYN, Vec::new());
        key
    }

    /// Takes the oldest established connection waiting on listening port `port`.
    pub fn accept_tcp(&mut self, port: u16) -> (r: Option<TcpConnectionKey>)
        requires
            old(self).wf(),
        ensures
            final(self).wf(),
            final(self).name_view() == old(self).name_view(),
            match r {
                Some(k) => old(self).view().tcp_listeners.dom().contains(port)
                    && old(self).view().tcp_listeners[port].len() > 0
                    && k == old(self).view().tcp_listeners[port][0]
                    && final(self).view() == (HostView {
                        tcp_listeners: old(self).view().tcp_listeners.insert(port, old(self).view().tcp_listeners[port].drop_first()),
                        ..old(self).view()
                    }),
                None => (!old(self).view().tcp_listeners.dom().contains(port) || old(self).view().tcp_listeners[port].len() == 0)
                    && final(self).view() == old(self).view(),
            },
    {
        match self.tcp_listeners.find(&port) {
            Some(i) => {
                let mut q = self.tcp_listeners.replace_value_at(i, VecDeque::new());
                let r = q.pop_front();
                self.tcp_listeners.replace_value_at(i, q);
                match r {
                    Some(_) => {
                        assert(self.view().tcp_listeners =~= old(self).view().tcp_listeners.insert(port, old(self).view().tcp_listeners[port].drop_first()));
                    },
                    None => {
                        assert(self.view().tcp_listeners =~= old(self).view().tcp_listeners);
                    },
                }
                r
            },
            None => None,
        }
    }

    /// Sends `payload` on connection `key`; returns false, changing nothing, unless the
    /// connection exists and is established.
    pub fn send_tcp(&mut self, key: TcpConnectionKey, payload: Vec<u8>) -> (r: bool)
        requires
            old(self).wf(),
        ensures
            final(self).wf(),
            final(self).name_view() == old(self).name_view(),
            r == established(old(self).view(), key),
            r ==> final(self).view() == send_tcp_spec(old(self).view(), key, payload@),
            !r ==> final(self).view() == old(self).view(),
    {
        let i = match self.tcp_connections.find(&key) {
            Some(i) => i,
            None => return false,
        };
        if !(self.tcp_connections.entry_at(i).1.state == TcpState::Established) {
            return false;
        }
        let ghost h0 = self.view();
        let mut c = self.tcp_connections.replace_value_at(i, TcpConnection::vacant());
        let seq = c.send_next;
        let ack = c.recv_next;
        let ghost c0 = c@;
        c.send_next = c.send_next.wrapping_add(payload.len() as u32);
        self.tcp_connections.replace_value_at(i, c);
        assert(self.view().tcp_connections =~= h0.tcp_connections.insert(key, TcpConnectionView { send_next: c0.send_next.wrapping_add(payload@.len() as u32), ..c0 }));
        self.send_tcp_packet(key, seq, ack, FLAG_ACK, payload);
        true
    }

    /// Takes the oldest chunk of data received on connection `key`.
    pub fn recv_tcp(&mut self, key: TcpConnectionKey) -> (r: Option<Vec<u8>>)
        requires
            old(self).wf(),
        ensures
            final(self).wf(),
            final(self).name_view() == old(self).name_view(),
            match r {
                Some(d) => old(self).view().tcp_connections.dom().contains(key)
                    && old(self).view().tcp_connections[key].receive_queue.len() > 0
                    && d@ == old(self).view().tcp_connections[key].receive_queue[0]
                    && final(self).view() == (HostView {
                        tcp_connections: old(self).view().tcp_connections.insert(key, TcpConnectionView {
                            receive_queue: old(self).view().tcp_connections[key].receive_queue.drop_first(),
                            ..old(self).view().tcp_connections[key]
                        }),
                        ..old(self).view()
                    }),
                None => (!old(self).view().tcp_connections.dom().contains(key) || old(self).view().tcp_connections[key].receive_queue.len() == 0)
                    && final(self).view() == old(self).view(),
            },
    {
        let i = match self.tcp_connections.find(&key) {
            Some(i) => i,
            None => return None,
        };
        let ghost h0 = self.view();
        let mut c = self.tcp_connections.replace_value_at(i, TcpConnection::vacant());
        let ghost before = c.receive_queue@;
        let r = c.receive_queue.pop_front();
        let ghost after = c.receive_queue@;
        let ghost c1 = c@;
        self.tcp_connections.replace_value_at(i, c);
        match &r {
            Some(_) => {
                assert(chunk_views(after) =~= chunk_views(before).drop_first());
                assert(self.view().tcp_connections =~= h0.tcp_connections.insert(key, TcpConnectionView {
                    receive_queue: h0.tcp_connections[key].receive_queue.drop_first(),
                    ..h0.tcp_connections[key]
                }));
            },
            None => {
                assert(self.view().tcp_connections =~= h0.tcp_connections);
            },
        }
        r
    }

    /// Forgets connection `key`; returns whether it existed.
    pub fn drop_tcp(&mut self, key: TcpConnectionKey) -> (r: bool)
        requires
            old(self).wf(),
        ensures
            final(self).wf(),
            final(self).name_view() == old(self).name_view(),
            r == old(self).view().tcp_connections.dom().contains(key),
            final(self).view() == (HostView { tcp_connections: old(self).view().tcp_connections.remove(key), ..old(self).view() }),
    {
        let r = self.tcp_connections.remove(&key);
        assert(self.view().tcp_connections =~= old(self).view().tcp_connections.remove(key));
        r.is_some()
    }

    pub fn is_tcp_established(&self, key: TcpConnectionKey) -> (r: bool)
        requires
            self.wf(),
        ensures
            r == established(self.view(), key),
    {
        match self.tcp_connections.get(&key) {
            Some(c) => c.state == TcpState::Established,
            None => false,
        }
    }

    /// Sends an echo request to `dst_ip` with the next identifier and sequence number,
    /// returning them.
    pub fn ping(&mut self, dst_ip: Ipv4Addr, payload: Vec<u8>) -> (r: (u16, u16))
        requires
            old(self).wf(),
        ensures
            final(self).wf(),
            final(self).name_view() == old(self).name_view(),
            r == (old(self).view().next_ping_id, old(self).view().next_ping_seq),
            final(self).view() == ping_spec(old(self).view(), dst_ip, payload@),
    {
        let identifier = self.next_ping_id;
        let sequence = self.next_ping_seq;
        self.next_ping_id = self.next_ping_id.wrapping_add(1);
        self.next_ping_seq = self.next_ping_seq.wrapping_add(1);
        let echo = IcmpPacket { kind: IcmpKind::EchoRequest, identifier, sequence, payload };
        let bytes = echo.encode();
        self.send_ip_packet(Ipv4Packet { src: self.ip, dst: dst_ip, protocol: IpProtocol::Icmp, ttl: 64, payload: bytes });
        (identifier, sequence)
    }

    /// Takes the oldest echo reply received.
    pub fn recv_ping_reply(&mut self) -> (r: Option<IcmpEchoReply>)
        requires
            old(self).wf(),
        ensures
            final(self).wf(),
            final(self).name_view() == old(self).name_view(),
            match r {
                Some(e) => old(self).view().icmp_replies.len() > 0 && e@ == old(self).view().icmp_replies[0]
                    && final(self).view() == (HostView { icmp_replies: old(self).view().icmp_replies.drop_first(), ..old(self).view() }),
                None => old(self).view().icmp_replies.len() == 0 && final(self).view() == old(self).view(),
            },
    {
        let ghost before = self.icmp_replies@;
        let r = self.icmp_replies.pop_front();
        proof {
            if r.is_some() {
                assert(echo_reply_views(self.icmp_replies@) =~= echo_reply_views(before).drop_first());
            }
        }
        r
    }

    /// Takes the oldest packet kept for forwarding.
    pub fn recv_forwarded_ipv4(&mut self) -> (r: Option<Ipv4Packet>)
        requires
            old(self).wf(),
        ensures
            final(self).wf(),
            final(self).name_view() == old(self).name_view(),
            match r {
                Some(p) => old(self).view().forwarded.len() > 0 && p@ == old(self).view().forwarded[0]
                    && final(self).view() == (HostView { forwarded: old(self).view().forwarded.drop_first(), ..old(self).view() }),
                None => old(self).view().forwarded.len() == 0 && final(self).view() == old(self).view(),
            },
    {
        let ghost before = self.forwarded_ipv4@;
        let r = self.forwarded_ipv4.pop_front();
        proof {
            if r.is_some() {
                assert(packet_views(self.forwarded_ipv4@) =~= packet_views(before).drop_first());
            }
        }
        r
    }

    /// Sends `packet` as is, to `next_hop` when given; a packet whose TTL is 0 is refused.
    pub fn send_ipv4_via(&mut self, packet: Ipv4Packet, next_hop: Option<Ipv4Addr>) -> (r: bool)
        requires
            old(self).wf(),
        ensures
            final(self).wf(),
            final(self).name_view() == old(self).name_view(),
            r == (packet.ttl != 0),
            r ==> final(self).view() == send_ip_spec(old(self).view(), packet@, next_hop),
            !r ==> final(self).view() == old(self).view(),
    {
        if packet.ttl == 0 {
            return false;
        }
        self.send_ip_packet_via(packet, next_hop);
        true
    }

    /// Whether frames wait in the outbox.
    pub fn has_outgoing(&self) -> (r: bool)
        ensures
            r == (self.view().outbox.len() > 0),
    {
        self.outbox.len() > 0
    }

    /// Takes the oldest frame waiting to be put on the link.
    pub fn pop_outgoing(&mut self) -> (r: Option<EthernetFrame>)
        requires
            old(self).wf(),
        ensures
            final(self).wf(),
            final(self).name_view() == old(self).name_view(),
            match r {
                Some(f) => old(self).view().outbox.len() > 0 && f@ == old(self).view().outbox[0]
                    && final(self).view() == (HostView { outbox: old(self).view().outbox.drop_first(), ..old(self).view() }),
                None => old(self).view().outbox.len() == 0 && final(self).view() == old(self).view(),
            },
    {
        let ghost before = self.outbox@;
        let r = self.outbox.pop_front();
        proof {
            if r.is_some() {
                assert(frame_views(self.outbox@) =~= frame_views(before).drop_first());
            }
        }
        r
    }

    /// Handles one received frame.
    pub fn handle_frame(&mut self, frame: EthernetFrame)
        requires
            old(self).wf(),
        ensures
            final(self).wf(),
            final(self).name_view() == old(self).name_view(),
            final(self).view() == handle_frame_spec(old(self).view(), frame@),
    {
        match frame.ethertype {
            EtherType::Arp => {
                match ArpPacket::decode(frame.payload.as_slice()) {
                    Some(packet) => self.handle_arp(packet),
                    None => {},
                }
            },
            EtherType::Ipv4 => {
                match Ipv4Packet::decode(frame.payload.as_slice()) {
                    Some(packet) => self.handle_ipv4(packet),
                    None => {},
                }
            },
        }
    }

    fn handle_arp(&mut self, packet: ArpPacket)
        requires
            old(self).wf(),
        ensures
            final(self).wf(),
            final(self).name_view() == old(self).name_view(),
            final(self).view() == handle_arp_spec(old(self).view(), packet),
    {
        let ghost h0 = self.view();
        self.arp_cache.insert(packet.sender_ip, packet.sender_mac);
        self.pending_arp.remove(&packet.sender_ip);
        assert(self.view().pending_arp =~= h0.pending_arp.remove(packet.sender_ip));
        self.flush_pending_ip(packet.sender_ip);
        if packet.operation == ArpOperation::Request && packet.target_ip == self.ip {
            let reply = ArpPacket {
                operation: ArpOperation::Reply,
                sender_mac: self.mac,
                sender_ip: self.ip,
                target_mac: packet.sender_mac,
                target_ip: packet.sender_ip,
            };
            let frame = EthernetFrame { dst: packet.sender_mac, src: self.mac, ethertype: EtherType::Arp, payload: reply.encode() };
            self.emit(frame);
        }
    }

    fn flush_pending_ip(&mut self, dst_ip: Ipv4Addr)
        requires
            old(self).wf(),
        ensures
            final(self).wf(),
            final(self).name_view() == old(self).name_view(),
            final(self).view() == flush_pending_spec(old(self).view(), dst_ip),
    {
        let dst_mac = match self.arp_cache.get(&dst_ip) {
            Some(m) => *m,
            None => return,
        };
        let ghost h0 = self.view();
        let packets = match self.pending_ip.remove(&dst_ip) {
            Some(p) => p,
            None => return,
        };
        assert(self.view().pending_ip =~= h0.pending_ip.remove(dst_ip));
        let ghost h1 = self.view();
        let ghost frames = h0.pending_ip[dst_ip].map_values(|p: PacketView| ipv4_frame(h0.arp_cache[dst_ip], h0.mac, p));
        let mut i: usize = 0;
        while i < packets.len()
            invariant
                self.wf(),
                i <= packets@.len(),
                self.name_view() == old(self).name_view(),
                packet_views(packets@) == h0.pending_ip[dst_ip],
                dst_mac == h0.arp_cache[dst_ip],
                self.mac == h0.mac,
                frames == h0.pending_ip[dst_ip].map_values(|p: PacketView| ipv4_frame(h0.arp_cache[dst_ip], h0.mac, p)),
                self.view() == (HostView { outbox: h1.outbox + frames.subrange(0, i as int), ..h1 }),
            decreases packets@.len() - i,
        {
            let frame = EthernetFrame { dst: dst_mac, src: self.mac, ethertype: EtherType::Ipv4, payload: packets[i].encode() };
            assert(frame@ == frames[i as int]);
            self.emit(frame);
            i = i + 1;
            assert(h1.outbox + frames.subrange(0, i as int) =~= (h1.outbox + frames.subrange(0, i - 1 as int)).push(frames[i - 1]));
        }
        assert(frames.subrange(0, i as int) =~= frames);
    }

    fn handle_ipv4(&mut self, packet: Ipv4Packet)
        requires
            old(self).wf(),
        ensures
            final(self).wf(),
            final(self).name_view() == old(self).name_view(),
            final(self).view() == handle_ipv4_spec(old(self).view(), packet@),
    {
        let is_broadcast = packet.dst == Ipv4Addr::broadcast();
        if !(packet.dst == self.ip) && !is_broadcast {
            if self.ip_forwarding && packet.ttl > 1 {
                let mut forwarded = packet;
                forwarded.ttl = forwarded.ttl - 1;
                let ghost before = self.forwarded_ipv4@;
                let ghost fv = forwarded@;
                self.forwarded_ipv4.push_back(forwarded);
                assert(packet_views(self.forwarded_ipv4@) =~= packet_views(before).push(fv));
            }
            return;
        }
        match packet.protocol {
            IpProtocol::Icmp => {
                match IcmpPacket::decode(packet.payload.as_slice()) {
                    Some(echo) => self.handle_echo(packet.src, echo),
                    None => {},
                }
            },
            IpProtocol::Udp => {
                match UdpPacket::decode(packet.payload.as_slice()) {
                    Some(udp) => self.handle_udp(packet.src, udp),
                    None => {},
                }
            },
            IpProtocol::Tcp => {
                match TcpPacket::decode(packet.payload.as_slice()) {
                    Some(tcp) => self.handle_tcp(packet.src, tcp),
                    None => {},
                }
            },
        }
    }

    fn handle_echo(&mut self, src_ip: Ipv4Addr, packet: IcmpPacket)
        requires
            old(self).wf(),
        ensures
            final(self).wf(),
            final(self).name_view() == old(self).name_view(),
            final(self).view() == handle_echo_spec(old(self).view(), src_ip, packet.kind, packet.identifier, packet.sequence, packet.payload@),
    {
        match packet.kind {
            IcmpKind::EchoRequest => {
                let reply = IcmpPacket {
                    kind: IcmpKind::EchoReply,
                    identifier: packet.identifier,
                    sequence: packet.sequence,
                    payload: packet.payload,
                };
                let bytes = reply.encode();
                self.send_ip_packet(Ipv4Packet { src: self.ip, dst: src_ip, protocol: IpProtocol::Icmp, ttl: 64, payload: bytes });
            },
            IcmpKind::EchoReply => {
                let r = IcmpEchoReply {
                    source: src_ip,
                    identifier: packet.identifier,
                    sequence: packet.sequence,
                    payload: packet.payload,
                };
                let ghost before = self.icmp_replies@;
                let ghost rv = r@;
                self.icmp_replies.push_back(r);
                assert(echo_reply_views(self.icmp_replies@) =~= echo_reply_views(before).push(rv));
            },
        }
    }

    fn handle_udp(&mut self, src_ip: Ipv4Addr, packet: UdpPacket)
        requires
            old(self).wf(),
        ensures
            final(self).wf(),
            final(self).name_view() == old(self).name_view(),
            final(self).view() == handle_udp_spec(old(self).view(), src_ip, packet.src_port, packet.dst_port, packet.payload@),
    {
        match self.udp_ports.find(&packet.dst_port) {
            Some(i) => {
                let ghost h0 = self.view();
                let mut q = self.udp_ports.replace_value_at(i, VecDeque::new());
                let ghost before = q@;
                let d = UdpDatagram { peer: SocketAddrV4::new(src_ip, packet.src_port), payload: packet.payload };
                let ghost dv = d@;
                q.push_back(d);
                assert(datagram_views(q@) =~= datagram_views(before).push(dv));
                self.udp_ports.replace_value_at(i, q);
                assert(self.view().udp_ports =~= h0.udp_ports.insert(packet.dst_port, h0.udp_ports[packet.dst_port].push(dv)));
            },
            None => {},
        }
    }

    fn handle_tcp(&mut self, src_ip: Ipv4Addr, packet: TcpPacket)
        requires
            old(self).wf(),
        ensures
            final(self).wf(),
            final(self).name_view() == old(self).name_view(),
            final(self).view() == handle_tcp_spec(old(self).view(), src_ip, packet.src_port, packet.dst_port, packet.seq, packet.ack, packet.flags, packet.payload@),
    {
        let ghost h0 = self.view();
        let key = TcpConnectionKey { local_ip: self.ip, local_port: packet.dst_port, remote_ip: src_ip, remote_port: packet.src_port };
        if packet.flags & FLAG_FIN != 0 {
            match self.tcp_connections.find(&key) {
                Some(i) => {
                    let mut c = self.tcp_connections.replace_value_at(i, TcpConnection::vacant());
                    c.state = TcpState::Closed;
                    let ghost cv = c@;
                    self.tcp_connections.replace_value_at(i, c);
                    assert(self.view().tcp_connections =~= h0.tcp_connections.insert(key, cv));
                },
                None => {},
            }
            return;
        }
        if packet.flags & FLAG_SYN != 0 && packet.flags & FLAG_ACK == 0 {
            if !self.tcp_listeners.contains_key(&packet.dst_port) {
                return;
            }
            match self.tcp_connections.get(&key) {
                Some(c) => {
                    if !(c.state == TcpState::Closed) {
                        return;
                    }
                },
                None => {},
            }
            let initial_seq = self.alloc_tcp_seq();
            let ghost h1 = self.view();
            let ack = packet.seq.wrapping_add(1);
            let conn = TcpConnection {
                state: TcpState::SynReceived,
                send_next: initial_seq + 1,
                recv_next: ack,
                receive_queue: VecDeque::new(),
                accepted: false,
            };
            assert(conn@.receive_queue =~= Seq::<Seq<u8>>::empty());
            self.tcp_connections.insert(key, conn);
            assert(self.view().tcp_connections =~= h1.tcp_connections.insert(key, conn@));
            self.send_tcp_packet(key, initial_seq, ack, FLAG_SYN | FLAG_ACK, Vec::new());
            return;
        }
        let i = match self.tcp_connections.find(&key) {
            Some(i) => i,
            None => return,
        };
        let mut c = self.tcp_connections.replace_value_at(i, TcpConnection::vacant());
        let ghost c0 = c@;
        let mut response: Option<(u32, u32)> = None;
        let mut queue_accept = false;
        if packet.flags & FLAG_SYN != 0 && packet.flags & FLAG_ACK != 0 && c.state == TcpState::SynSent {
            if packet.ack == c.send_next {
                c.recv_next = packet.seq.wrapping_add(1);
                c.state = TcpState::Established;
                response = Some((c.send_next, c.recv_next));
            }
        } else if packet.flags & FLAG_ACK != 0 && c.state == TcpState::SynReceived && packet.payload.len() == 0 {
            if packet.ack == c.send_next {
                c.state = TcpState::Established;
                if !c.accepted {
                    c.accepted = true;
                    queue_accept = true;
                }
            }
        } else if c.state == TcpState::Established && packet.flags & FLAG_ACK != 0 && packet.payload.len() != 0 {
            if packet.seq != c.recv_next {
                response = Some((c.send_next, c.recv_next));
            } else {
                c.recv_next = c.recv_next.wrapping_add(packet.payload.len() as u32);
                let ghost q0 = c.receive_queue@;
                let ghost pv = packet.payload@;
                c.receive_queue.push_back(packet.payload);
                assert(chunk_views(c.receive_queue@) =~= chunk_views(q0).push(pv));
                response = Some((c.send_next, c.recv_next));
            }
        }
        let ghost c1 = c@;
        self.tcp_connections.replace_value_at(i, c);
        assert(self.view().tcp_connections =~= h0.tcp_connections.insert(key, c1));
        assert(c0 == h0.tcp_connections[key]);
        proof {
            if c1 == c0 {
                assert(h0.tcp_connections.insert(key, c0) =~= h0.tcp_connections);
            }
        }
        if queue_accept {
            match self.tcp_listeners.find(&key.local_port) {
                Some(j) => {
                    let ghost h2 = self.view();
                    let mut backlog = self.tcp_listeners.replace_value_at(j, VecDeque::new());
                    backlog.push_back(key);
                    self.tcp_listeners.replace_value_at(j, backlog);
                    assert(self.view().tcp_listeners =~= h2.tcp_listeners.insert(key.local_port, h2.tcp_listeners[key.local_port].push(key)));
                },
                None => {},
            }
        }
        match response {
            Some((seq, ack)) => self.send_tcp_packet(key, seq, ack, FLAG_ACK, Vec::new()),
            None => {},
        }
    }

    /// Puts every frame of the outbox on `medium`, in order.
    pub fn flush_outbox(&mut self, medium: &mut SharedMedium)
        requires
            old(self).wf(),
            old(medium).wf(),
        ensures
            final(self).wf(),
            final(medium).wf(),
            final(self).name_view() == old(self).name_view(),
            (final(self).view(), final(medium).view()) == flush_spec(old(self).view(), old(medium).view()),
    {
        let ghost h0 = self.view();
        let ghost m0 = medium.view();
        let ghost f0 = h0.outbox;
        let total = self.outbox.len();
        let mut k: usize = 0;
        assert(f0.skip(0) =~= f0);
        assert(f0.subrange(0, 0) =~= Seq::<FrameView>::empty());
        loop
            invariant
                f0.len() == total,
                self.wf(),
                medium.wf(),
                self.name_view() == old(self).name_view(),
                k <= f0.len(),
                self.view() == (HostView { outbox: f0.skip(k as int), ..h0 }),
                medium.view() == transmit_all_spec(m0, f0.subrange(0, k as int)),
            ensures
                self.view() == (HostView { outbox: Seq::empty(), ..h0 }),
                medium.view() == transmit_all_spec(m0, f0),
            decreases f0.len() - k,
        {
            match self.pop_outgoing() {
                Some(frame) => {
                    let ghost fv = frame@;
                    medium.transmit(frame);
                    assert(f0.subrange(0, k + 1 as int).drop_last() =~= f0.subrange(0, k as int));
                    k = k + 1;
                    assert(f0.skip(k - 1 as int).drop_first() =~= f0.skip(k as int));
                },
                None => {
                    assert(f0.subrange(0, k as int) =~= f0);
                    assert(f0.skip(k as int) =~= Seq::<FrameView>::empty());
                    break;
                },
            }
        }
    }

    /// Handles the frames queued for this host on `medium`, putting what it emits on the
    /// medium as it goes, until none is left; returns how many it handled. Frames emitted
    /// earlier go on the medium first.
    pub fn tick(&mut self, medium: &mut SharedMedium) -> (r: usize)
        requires
            old(self).wf(),
            old(medium).wf(),
        ensures
            final(self).wf(),
            final(medium).wf(),
            final(self).name_view() == old(self).name_view(),
            ({
                let (h0, m0) = flush_spec(old(self).view(), old(medium).view());
                (final(self).view(), final(medium).view()) == tick_steps(h0, m0, r as nat)
            }),
            r < usize::MAX ==> !has_frame(final(self).view(), final(medium).view()),
            r > 0 ==> ({
                let (h0, m0) = flush_spec(old(self).view(), old(medium).view());
                has_frame(h0, m0)
            }),
            final(self).view().outbox.len() == 0,
    {
        self.flush_outbox(medium);
        let ghost h0 = self.view();
        let ghost m0 = medium.view();
        let mut processed: usize = 0;
        loop
            invariant
                self.wf(),
                medium.wf(),
                self.name_view() == old(self).name_view(),
                (self.view(), medium.view()) == tick_steps(h0, m0, processed as nat),
                self.view().outbox.len() == 0,
                (h0, m0) == flush_spec(old(self).view(), old(medium).view()),
                processed > 0 ==> has_frame(h0, m0),
            ensures
                processed < usize::MAX ==> !has_frame(self.view(), medium.view()),
            decreases usize::MAX - processed,
        {
            if processed == usize::MAX {
                break;
            }
            let ghost hb = self.view();
            let ghost mb = medium.view();
            match medium.recv(self.mac) {
                Some(frame) => {
                    self.handle_frame(frame);
                    self.flush_outbox(medium);
                    processed = processed + 1;
                    assert(has_frame(hb, mb));
                },
                None => {
                    break;
                },
            }
        }
        processed
    }

    /// Queues `frame` for transmission.
    fn emit(&mut self, frame: EthernetFrame)
        requires
            old(self).wf(),
        ensures
            final(self).wf(),
            final(self).view() == (HostView { outbox: old(self).view().outbox.push(frame@), ..old(self).view() }),
            final(self).name_view() == old(self).name_view(),
    {
        let ghost fv = frame@;
        self.outbox.push_back(frame);
        assert(self.view().outbox =~= old(self).view().outbox.push(fv));
    }

    fn is_on_link(&self, ip: Ipv4Addr) -> (r: bool)
        ensures
            r == on_link(self.view(), ip),
    {
        self.ip.masked(self.subnet_mask) == ip.masked(self.subnet_mask)
    }

    fn resolve_next_hop(&self, dst_ip: Ipv4Addr) -> (r: Ipv4Addr)
        ensures
            r == next_hop_for(self.view(), dst_ip),
    {
        if self.is_on_link(dst_ip) {
            dst_ip
        } else {
            match self.default_gateway {
                Some(g) => g,
                None => dst_ip,
            }
        }
    }

    fn send_ip_packet_via(&mut self, packet: Ipv4Packet, next_hop: Option<Ipv4Addr>)
        requires
            old(self).wf(),
        ensures
            final(self).wf(),
            final(self).view() == send_ip_spec(old(self).view(), packet@, next_hop),
            final(self).name_view() == old(self).name_view(),
    {
        let ghost pv = packet@;
        if packet.dst == Ipv4Addr::broadcast() {
            let frame = EthernetFrame { dst: MacAddr::broadcast(), src: self.mac, ethertype: EtherType::Ipv4, payload: packet.encode() };
            self.emit(frame);
            return;
        }
        let next_hop_ip = match next_hop {
            Some(v) => v,
            None => self.resolve_next_hop(packet.dst),
        };
        match self.arp_cache.get(&next_hop_ip) {
            Some(mac) => {
                let dst_mac = *mac;
                let frame = EthernetFrame { dst: dst_mac, src: self.mac, ethertype: EtherType::Ipv4, payload: packet.encode() };
                self.emit(frame);
                return;
            },
            None => {},
        }
        let ghost h0 = self.view();
        let mut queue = match self.pending_ip.remove(&next_hop_ip) {
            Some(q) => q,
            None => Vec::new(),
        };
        let ghost before = queue@;
        queue.push(packet);
        assert(packet_views(queue@) =~= packet_views(before).push(pv));
        self.pending_ip.insert(next_hop_ip, queue);
        let ghost queued = if h0.pending_ip.dom().contains(next_hop_ip) { h0.pending_ip[next_hop_ip] } else { Seq::empty() };
        assert(packet_views(before) =~= queued);
        assert(self.view().pending_ip =~= h0.pending_ip.insert(next_hop_ip, queued.push(pv)));
        assert(self.view() == (HostView { pending_ip: h0.pending_ip.insert(next_hop_ip, queued.push(pv)), ..h0 }));
        if !self.pending_arp.contains_key(&next_hop_ip) {
            self.pending_arp.insert(next_hop_ip, ());
            assert(self.view().pending_arp =~= h0.pending_arp.insert(next_hop_ip));
            let request = ArpPacket {
                operation: ArpOperation::Request,
                sender_mac: self.mac,
                sender_ip: self.ip,
                target_mac: MacAddr(0, 0, 0, 0, 0, 0),
                target_ip: next_hop_ip,
            };
            let frame = EthernetFrame { dst: MacAddr::broadcast(), src: self.mac, ethertype: EtherType::Arp, payload: request.encode() };
            self.emit(frame);
        }
    }

    fn send_ip_packet(&mut self, packet: Ipv4Packet)
        requires
            old(self).wf(),
        ensures
            final(self).wf(),
            final(self).view() == send_ip_spec(old(self).view(), packet@, None),
            final(self).name_view() == old(self).name_view(),
    {
        self.send_ip_packet_via(packet, None);
    }

    /// Sends a segment of connection `key` with a 4096-byte window.
    fn send_tcp_packet(&mut self, key: TcpConnectionKey, seq: u32, ack: u32, flags: u8, payload: Vec<u8>)
        requires
            old(self).wf(),
        ensures
            final(self).wf(),
            final(self).view() == send_segment_spec(old(self).view(), key, seq, ack, flags, payload@),
            final(self).name_view() == old(self).name_view(),
    {
        let segment = TcpPacket {
            src_port: key.local_port,
            dst_port: key.remote_port,
            seq,
            ack,
            flags,
            window: 4096,
            payload,
        };
        let bytes = segment.encode();
        self.send_ip_packet(Ipv4Packet { src: key.local_ip, dst: key.remote_ip, protocol: IpProtocol::Tcp, ttl: 64, payload: bytes });
    }

    fn alloc_ephemeral_port(&mut self) -> (r: u16)
        requires
            old(self).wf(),
        ensures
            final(self).wf(),
            r == old(self).view().next_ephemeral_port,
            final(self).view() == (HostView { next_ephemeral_port: r.saturating_add(1), ..old(self).view() }),
            final(self).name_view() == old(self).name_view(),
    {
        let port = self.next_ephemeral_port;
        self.next_ephemeral_port = self.next_ephemeral_port.saturating_add(1);
        port
    }

    fn alloc_tcp_seq(&mut self) -> (r: u32)
        requires
            old(self).wf(),
        ensures
            final(self).wf(),
            r == old(self).view().next_tcp_seq,
            r % 2 == 0,
            final(self).view() == (HostView { next_tcp_seq: r.wrapping_add(1000), ..old(self).view() }),
            final(self).name_view() == old(self).name_view(),
    {
        let seq = self.next_tcp_seq;
        self.next_tcp_seq = self.next_tcp_seq.wrapping_add(1000);
        seq
    }
}

} // verus!
