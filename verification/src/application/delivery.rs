//! What a host makes of the frames another host sends it: the encodings one host writes
//! are the ones the other reads.
use vstd::prelude::*;

use crate::application::stack::{
    arp_frame, handle_arp_spec, handle_frame_spec, handle_ipv4_spec, ipv4_frame, send_ip_spec, send_segment_spec, DatagramView,
    EchoReplyView, HostView, TcpConnectionKey, TcpConnectionView, TcpState,
};
use crate::internet::addr::{Ipv4Addr, SocketAddrV4};
use crate::internet::icmp::{echo_encoding, lemma_echo_decode_encode, IcmpKind};
use crate::internet::ip::{lemma_ipv4_decode_encode, IpProtocol, PacketView};
use crate::link::arp::{lemma_arp_decode_encode, ArpOperation, ArpPacket};
use crate::link::ethernet::MacAddr;
use crate::transport::tcp::{lemma_tcp_decode_encode, tcp_encoding, FLAG_ACK, FLAG_FIN, FLAG_SYN};
use crate::transport::udp::{lemma_udp_decode_encode, udp_encoding};

verus! {

/// A frame that carries an IPv4 packet is handled as that packet.
pub proof fn lemma_ipv4_frame_handled(h: HostView, dst_mac: MacAddr, src_mac: MacAddr, p: PacketView)
    requires
        p.payload.len() + 20 <= 65535,
    ensures
        handle_frame_spec(h, ipv4_frame(dst_mac, src_mac, p)) == handle_ipv4_spec(h, p),
{
    lemma_ipv4_decode_encode(p.src, p.dst, p.protocol, p.ttl, p.payload);
}

/// A UDP datagram sent to an open port of a host is queued there, with its sender and its
/// payload as sent; to a closed port it changes nothing.
pub proof fn lemma_udp_delivered(h: HostView, src_mac: MacAddr, src_ip: Ipv4Addr, src_port: u16, dst_port: u16, ttl: u8, payload: Seq<u8>)
    requires
        payload.len() + 28 <= 65535,
    ensures
        ({
            let p = PacketView { src: src_ip, dst: h.ip, protocol: IpProtocol::Udp, ttl, payload: udp_encoding(src_port, dst_port, payload) };
            let after = handle_frame_spec(h, ipv4_frame(h.mac, src_mac, p));
            if h.udp_ports.dom().contains(dst_port) {
                after == (HostView {
                    udp_ports: h.udp_ports.insert(
                        dst_port,
                        h.udp_ports[dst_port].push(DatagramView { peer: SocketAddrV4 { ip: src_ip, port: src_port }, payload }),
                    ),
                    ..h
                })
            } else {
                after == h
            }
        }),
{
    let p = PacketView { src: src_ip, dst: h.ip, protocol: IpProtocol::Udp, ttl, payload: udp_encoding(src_port, dst_port, payload) };
    lemma_ipv4_frame_handled(h, h.mac, src_mac, p);
    lemma_udp_decode_encode(src_port, dst_port, payload);
}

/// An echo request to a host is answered with an echo reply to its sender that carries
/// the same identifier, sequence number and payload.
pub proof fn lemma_echo_answered(h: HostView, src_mac: MacAddr, src_ip: Ipv4Addr, ttl: u8, identifier: u16, sequence: u16, payload: Seq<u8>)
    requires
        payload.len() + 28 <= 65535,
    ensures
        ({
            let p = PacketView {
                src: src_ip,
                dst: h.ip,
                protocol: IpProtocol::Icmp,
                ttl,
                payload: echo_encoding(IcmpKind::EchoRequest, identifier, sequence, payload),
            };
            handle_frame_spec(h, ipv4_frame(h.mac, src_mac, p)) == send_ip_spec(
                h,
                PacketView {
                    src: h.ip,
                    dst: src_ip,
                    protocol: IpProtocol::Icmp,
                    ttl: 64,
                    payload: echo_encoding(IcmpKind::EchoReply, identifier, sequence, payload),
                },
                None,
            )
        }),
{
    let p = PacketView {
        src: src_ip,
        dst: h.ip,
        protocol: IpProtocol::Icmp,
        ttl,
        payload: echo_encoding(IcmpKind::EchoRequest, identifier, sequence, payload),
    };
    lemma_ipv4_frame_handled(h, h.mac, src_mac, p);
    lemma_echo_decode_encode(IcmpKind::EchoRequest, identifier, sequence, payload);
}

/// An echo reply to a host is kept for it with its sender, identifier, sequence number and
/// payload.
pub proof fn lemma_echo_reply_kept(h: HostView, src_mac: MacAddr, src_ip: Ipv4Addr, ttl: u8, identifier: u16, sequence: u16, payload: Seq<u8>)
    requires
        payload.len() + 28 <= 65535,
    ensures
        ({
            let p = PacketView {
                src: src_ip,
                dst: h.ip,
                protocol: IpProtocol::Icmp,
                ttl,
                payload: echo_encoding(IcmpKind::EchoReply, identifier, sequence, payload),
            };
            handle_frame_spec(h, ipv4_frame(h.mac, src_mac, p)) == (HostView {
                icmp_replies: h.icmp_replies.push(EchoReplyView { source: src_ip, identifier, sequence, payload }),
                ..h
            })
        }),
{
    let p = PacketView {
        src: src_ip,
        dst: h.ip,
        protocol: IpProtocol::Icmp,
        ttl,
        payload: echo_encoding(IcmpKind::EchoReply, identifier, sequence, payload),
    };
    lemma_ipv4_frame_handled(h, h.mac, src_mac, p);
    lemma_echo_decode_encode(IcmpKind::EchoReply, identifier, sequence, payload);
}

/// An ARP request for a host's address teaches it the sender's hardware address and is
/// answered with a reply to the sender that gives the host's own.
pub proof fn lemma_arp_request_answered(h: HostView, p: ArpPacket)
    requires
        p.operation == ArpOperation::Request,
        p.target_ip == h.ip,
    ensures
        ({
            let after = handle_frame_spec(h, arp_frame(MacAddr::broadcast_spec(), p.sender_mac, p));
            let reply = ArpPacket {
                operation: ArpOperation::Reply,
                sender_mac: h.mac,
                sender_ip: h.ip,
                target_mac: p.sender_mac,
                target_ip: p.sender_ip,
            };
            &&& after.arp_cache == h.arp_cache.insert(p.sender_ip, p.sender_mac)
            &&& after.outbox.last() == arp_frame(p.sender_mac, h.mac, reply)
            &&& after == handle_arp_spec(h, p)
        }),
{
    lemma_arp_decode_encode(p);
}

/// A SYN to a listening port of a host, with no open connection from that peer, opens a
/// connection in SynReceived and is answered with a SYN-ACK that acknowledges it.
pub proof fn lemma_syn_answered(h: HostView, src_mac: MacAddr, src_ip: Ipv4Addr, src_port: u16, dst_port: u16, ttl: u8, seq: u32, window: u16)
    requires
        h.tcp_listeners.dom().contains(dst_port),
        ({
            let key = TcpConnectionKey { local_ip: h.ip, local_port: dst_port, remote_ip: src_ip, remote_port: src_port };
            !h.tcp_connections.dom().contains(key) || h.tcp_connections[key].state == TcpState::Closed
        }),
    ensures
        ({
            let key = TcpConnectionKey { local_ip: h.ip, local_port: dst_port, remote_ip: src_ip, remote_port: src_port };
            let p = PacketView {
                src: src_ip,
                dst: h.ip,
                protocol: IpProtocol::Tcp,
                ttl,
                payload: tcp_encoding(src_port, dst_port, seq, 0, FLAG_SYN, window, Seq::empty()),
            };
            let iss = h.next_tcp_seq;
            let h1 = HostView {
                next_tcp_seq: iss.wrapping_add(1000),
                tcp_connections: h.tcp_connections.insert(
                    key,
                    TcpConnectionView {
                        state: TcpState::SynReceived,
                        send_next: iss.wrapping_add(1),
                        recv_next: seq.wrapping_add(1),
                        receive_queue: Seq::empty(),
                        accepted: false,
                    },
                ),
                ..h
            };
            handle_frame_spec(h, ipv4_frame(h.mac, src_mac, p)) == send_segment_spec(
                h1,
                key,
                iss,
                seq.wrapping_add(1),
                FLAG_SYN | FLAG_ACK,
                Seq::empty(),
            )
        }),
{
    let p = PacketView {
        src: src_ip,
        dst: h.ip,
        protocol: IpProtocol::Tcp,
        ttl,
        payload: tcp_encoding(src_port, dst_port, seq, 0, FLAG_SYN, window, Seq::empty()),
    };
    lemma_tcp_decode_encode(src_port, dst_port, seq, 0, FLAG_SYN, window, Seq::empty());
    assert(tcp_encoding(src_port, dst_port, seq, 0, FLAG_SYN, window, Seq::empty()).len() == 20);
    lemma_ipv4_frame_handled(h, h.mac, src_mac, p);
    assert(FLAG_SYN & FLAG_FIN == 0) by (bit_vector)
        requires FLAG_SYN == 2u8, FLAG_FIN == 1u8;
    assert(FLAG_SYN & FLAG_SYN != 0) by (bit_vector)
        requires FLAG_SYN == 2u8;
    assert(FLAG_SYN & FLAG_ACK == 0) by (bit_vector)
        requires FLAG_SYN == 2u8, FLAG_ACK == 16u8;
}

} // verus!
