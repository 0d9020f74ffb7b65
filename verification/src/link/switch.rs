//! A learning switch: it learns on which port each hardware address sits and forwards
//! frames there, flooding those whose destination it does not know.
use vstd::prelude::*;

use crate::internet::addr::{socket_text, SocketAddrV4};
use crate::link::ethernet::{EthernetFrame, MacAddr};
use crate::link::wire::{link_datagram_of, parse_link_datagram, LinkDatagram, LinkDatagramView};
use crate::order::{lex_lt, ordered_by, sorted_positions};
use crate::vec_map::VecMap;

verus! {

/// The state of a switch: where each address was last seen, and the ports in the order
/// they were first seen.
pub struct SwitchView {
    pub table: Map<MacAddr, SocketAddrV4>,
    pub ports: Seq<SocketAddrV4>,
}

/// `ports` with `port` added at the end unless it is there already.
pub open spec fn add_port(ports: Seq<SocketAddrV4>, port: SocketAddrV4) -> Seq<SocketAddrV4> {
    if ports.contains(port) {
        ports
    } else {
        ports.push(port)
    }
}

/// Whether a port is not `ingress`.
pub open spec fn other_than(ingress: SocketAddrV4) -> spec_fn(SocketAddrV4) -> bool {
    |p: SocketAddrV4| p != ingress
}

/// Every port but `ingress`, in order.
pub open spec fn flood(ports: Seq<SocketAddrV4>, ingress: SocketAddrV4) -> Seq<SocketAddrV4> {
    ports.filter(other_than(ingress))
}

/// Forwarding a frame from `src` to `dst` that came in on `ingress`: the switch learns
/// `src` on `ingress`; a broadcast goes to every other port; a known destination goes to
/// its port unless that is the ingress port, in which case nowhere; an unknown destination
/// goes to every other port.
pub open spec fn forward_spec(s: SwitchView, ingress: SocketAddrV4, src: MacAddr, dst: MacAddr) -> (SwitchView, Seq<SocketAddrV4>) {
    let t = SwitchView { table: s.table.insert(src, ingress), ports: add_port(s.ports, ingress) };
    let out = if dst == MacAddr::broadcast_spec() {
        flood(t.ports, ingress)
    } else if t.table.dom().contains(dst) {
        if t.table[dst] != ingress {
            seq![t.table[dst]]
        } else {
            Seq::empty()
        }
    } else {
        flood(t.ports, ingress)
    };
    (t, out)
}

/// A switch never sends a frame back out of the port it came in on.
pub proof fn lemma_never_back_to_ingress(s: SwitchView, ingress: SocketAddrV4, src: MacAddr, dst: MacAddr)
    ensures
        !forward_spec(s, ingress, src, dst).1.contains(ingress),
{
    let t = add_port(s.ports, ingress);
    let out = forward_spec(s, ingress, src, dst).1;
    broadcast use vstd::seq_lib::group_filter_ensures;
    if out.contains(ingress) {
        let i = choose|i: int| 0 <= i < out.len() && out[i] == ingress;
        if out == flood(t, ingress) {
            assert(other_than(ingress)(out[i]));
        }
    }
}

/// A unicast frame to an address learned on another port goes to that port alone; to an
/// address not learned yet, it goes to every port but the ingress port.
pub proof fn lemma_unicast_forwarding(s: SwitchView, ingress: SocketAddrV4, src: MacAddr, dst: MacAddr)
    requires
        dst != MacAddr::broadcast_spec(),
        dst != src,
    ensures
        s.table.dom().contains(dst) && s.table[dst] != ingress ==> forward_spec(s, ingress, src, dst).1 == seq![s.table[dst]],
        !s.table.dom().contains(dst) ==> forward_spec(s, ingress, src, dst).1 == flood(add_port(s.ports, ingress), ingress),
{
}

/// The flood of a frame reaches exactly the known ports other than the ingress port, once each.
pub proof fn lemma_flood_reaches_others(ports: Seq<SocketAddrV4>, ingress: SocketAddrV4, q: SocketAddrV4)
    ensures
        flood(ports, ingress).contains(q) <==> (ports.contains(q) && q != ingress),
{
    broadcast use vstd::seq_lib::group_filter_ensures;
    if ports.contains(q) && q != ingress {
        let i = choose|i: int| 0 <= i < ports.len() && ports[i] == q;
        assert(other_than(ingress)(ports[i]));
    }
    if flood(ports, ingress).contains(q) {
        let j = choose|j: int| 0 <= j < flood(ports, ingress).len() && flood(ports, ingress)[j] == q;
        assert(other_than(ingress)(flood(ports, ingress)[j]));
        ports.lemma_filter_contains_rev(other_than(ingress), q);
    }
}

/// A broadcast frame goes out on every known port but the one it came in on, and on no
/// other: a port is in the output exactly when it was known before, or is the ingress port,
/// and is not the ingress port.
pub proof fn lemma_broadcast_reaches_every_other_port(s: SwitchView, ingress: SocketAddrV4, src: MacAddr, q: SocketAddrV4)
    ensures
        forward_spec(s, ingress, src, MacAddr::broadcast_spec()).1.contains(q) <==> (s.ports.contains(q) && q != ingress),
        forward_spec(s, ingress, src, MacAddr::broadcast_spec()).0.ports.contains(ingress),
{
    let ports = add_port(s.ports, ingress);
    lemma_flood_reaches_others(ports, ingress, q);
    if !s.ports.contains(ingress) {
        assert(ports[s.ports.len() as int] == ingress);
        if s.ports.contains(q) {
            let i = choose|i: int| 0 <= i < s.ports.len() && s.ports[i] == q;
            assert(ports[i] == q);
        }
        if ports.contains(q) && q != ingress {
            let i = choose|i: int| 0 <= i < ports.len() && ports[i] == q;
            assert(s.ports[i] == q);
        }
    }
}

/// Forwarding a frame teaches the switch that its source sits on the ingress port, and
/// nothing else about addresses; the ingress port joins the known ports, which stay in the
/// order they were first seen.
pub proof fn lemma_forward_learns_source(s: SwitchView, ingress: SocketAddrV4, src: MacAddr, dst: MacAddr, m: MacAddr, q: SocketAddrV4)
    ensures
        forward_spec(s, ingress, src, dst).0.table.dom().contains(src),
        forward_spec(s, ingress, src, dst).0.table[src] == ingress,
        m != src ==> (forward_spec(s, ingress, src, dst).0.table.dom().contains(m) <==> s.table.dom().contains(m)),
        m != src && s.table.dom().contains(m) ==> forward_spec(s, ingress, src, dst).0.table[m] == s.table[m],
        forward_spec(s, ingress, src, dst).0.ports.contains(q) <==> (s.ports.contains(q) || q == ingress),
        s.ports.is_prefix_of(forward_spec(s, ingress, src, dst).0.ports),
{
    let ports = add_port(s.ports, ingress);
    if !s.ports.contains(ingress) {
        assert(ports[s.ports.len() as int] == ingress);
        if s.ports.contains(q) {
            let i = choose|i: int| 0 <= i < s.ports.len() && s.ports[i] == q;
            assert(ports[i] == q);
        }
        if ports.contains(q) && q != ingress {
            let i = choose|i: int| 0 <= i < ports.len() && ports[i] == q;
            assert(s.ports[i] == q);
        }
    }
}

/// What the switch does with a link datagram that arrived from `ingress`.
pub struct SwitchOutcome {
    /// The address newly learned on the ingress port by a registration.
    pub learned: Option<MacAddr>,
    /// The ports the datagram is to be sent on, unchanged.
    pub egress: Vec<SocketAddrV4>,
}

pub struct LearningSwitch {
    forwarding_table: VecMap<MacAddr, SocketAddrV4>,
    ports: Vec<SocketAddrV4>,
}

impl LearningSwitch {
    pub closed spec fn wf(&self) -> bool {
        self.forwarding_table.wf() && self.ports@.no_duplicates()
    }

    pub closed spec fn view(&self) -> SwitchView {
        SwitchView { table: self.forwarding_table.view(), ports: self.ports@ }
    }

    /// A switch that knows no address and no port.
    pub fn new() -> (r: LearningSwitch)
        ensures
            r.wf(),
            r.view().table == Map::<MacAddr, SocketAddrV4>::empty(),
            r.view().ports == Seq::<SocketAddrV4>::empty(),
    {
        LearningSwitch { forwarding_table: VecMap::new(), ports: Vec::new() }
    }

    fn note_port(&mut self, port: SocketAddrV4)
        requires
            old(self).wf(),
        ensures
            final(self).wf(),
            final(self).view() == (SwitchView { ports: add_port(old(self).view().ports, port), ..old(self).view() }),
    {
        let mut i: usize = 0;
        while i < self.ports.len()
            invariant
                self.wf(),
                self.view() == old(self).view(),
                i <= self.ports@.len(),
                forall|j: int| 0 <= j < i ==> self.ports@[j] != port,
            decreases self.ports@.len() - i,
        {
            if self.ports[i] == port {
                assert(self.ports@.contains(port));
                return;
            }
            i = i + 1;
        }
        assert(!self.ports@.contains(port));
        self.ports.push(port);
        assert(self.ports@.no_duplicates());
    }

    /// Learns `mac` on `port`; true when that is news (the address was unknown or sat
    /// on another port).
    pub fn register_port(&mut self, mac: MacAddr, port: SocketAddrV4) -> (r: bool)
        requires
            old(self).wf(),
        ensures
            final(self).wf(),
            final(self).view() == (SwitchView {
                table: old(self).view().table.insert(mac, port),
                ports: add_port(old(self).view().ports, port),
            }),
            r == !(old(self).view().table.dom().contains(mac) && old(self).view().table[mac] == port),
    {
        self.note_port(port);
        match self.forwarding_table.insert(mac, port) {
            Some(previous) => previous != port,
            None => true,
        }
    }

    /// The ports a frame that came in on `ingress` goes out on; the switch learns the
    /// frame's source address on `ingress` first.
    pub fn forward(&mut self, ingress: SocketAddrV4, frame: &EthernetFrame) -> (r: Vec<SocketAddrV4>)
        requires
            old(self).wf(),
        ensures
            final(self).wf(),
            (final(self).view(), r@) == forward_spec(old(self).view(), ingress, frame.src, frame.dst),
            r@.no_duplicates(),
    {
        self.note_port(ingress);
        self.forwarding_table.insert(frame.src, ingress);
        if frame.dst == MacAddr::broadcast() {
            return self.others(ingress);
        }
        match self.forwarding_table.get(&frame.dst) {
            Some(port) => {
                if *port != ingress {
                    let mut out: Vec<SocketAddrV4> = Vec::new();
                    out.push(*port);
                    assert(out@ =~= seq![*port]);
                    out
                } else {
                    Vec::new()
                }
            },
            None => self.others(ingress),
        }
    }

    /// Every port but `ingress`, in order.
    fn others(&self, ingress: SocketAddrV4) -> (r: Vec<SocketAddrV4>)
        ensures
            r@ == flood(self.ports@, ingress),
            self.ports@.no_duplicates() ==> r@.no_duplicates(),
    {
        let mut out: Vec<SocketAddrV4> = Vec::new();
        let mut i: usize = 0;
        assert(self.ports@.take(0) =~= Seq::<SocketAddrV4>::empty());
        while i < self.ports.len()
            invariant
                i <= self.ports@.len(),
                out@ == flood(self.ports@.take(i as int), ingress),
                self.ports@.no_duplicates() ==> out@.no_duplicates(),
            decreases self.ports@.len() - i,
        {
            let p = self.ports[i];
            assert(self.ports@.take(i + 1) =~= self.ports@.take(i as int).push(p));
            proof {
                self.ports@.take(i as int).lemma_filter_push(p, other_than(ingress));
                if self.ports@.no_duplicates() && out@.contains(p) {
                    self.ports@.take(i as int).lemma_filter_contains_rev(other_than(ingress), p);
                    let k = choose|k: int| 0 <= k < i && self.ports@.take(i as int)[k] == p;
                    assert(self.ports@[k] == self.ports@[i as int]);
                }
            }
            if p != ingress {
                out.push(p);
            }
            i = i + 1;
        }
        assert(self.ports@.take(i as int) =~= self.ports@);
        out
    }

    /// What to do with a link datagram from `ingress`: a registration is learned, and
    /// `learned` names the address when that is news; a frame is forwarded, and `egress`
    /// lists the ports to send the datagram on; anything else is ignored.
    pub fn handle_datagram(&mut self, ingress: SocketAddrV4, bytes: &[u8]) -> (r: SwitchOutcome)
        requires
            old(self).wf(),
        ensures
            final(self).wf(),
            match link_datagram_of(bytes@) {
                LinkDatagramView::Register(mac) => final(self).view() == (SwitchView {
                    table: old(self).view().table.insert(mac, ingress),
                    ports: add_port(old(self).view().ports, ingress),
                }) && r.egress@ == Seq::<SocketAddrV4>::empty()
                    && r.learned == if old(self).view().table.dom().contains(mac) && old(self).view().table[mac] == ingress {
                    None::<MacAddr>
                } else {
                    Some(mac)
                },
                LinkDatagramView::Frame(f) => (final(self).view(), r.egress@) == forward_spec(old(self).view(), ingress, f.src, f.dst)
                    && r.learned is None,
                LinkDatagramView::Other => final(self).view() == old(self).view() && r.egress@ == Seq::<SocketAddrV4>::empty()
                    && r.learned is None,
            },
            r.egress@.no_duplicates(),
    {
        match parse_link_datagram(bytes) {
            LinkDatagram::Register(mac) => {
                let news = self.register_port(mac, ingress);
                SwitchOutcome { learned: if news { Some(mac) } else { None }, egress: Vec::new() }
            },
            LinkDatagram::Frame(frame) => {
                let egress = self.forward(ingress, &frame);
                SwitchOutcome { learned: None, egress }
            },
            LinkDatagram::Other => SwitchOutcome { learned: None, egress: Vec::new() },
        }
    }

    /// The learned addresses with their ports, in increasing order of address.
    pub fn mac_table(&self) -> (r: Vec<(MacAddr, SocketAddrV4)>)
        requires
            self.wf(),
        ensures
            r@.len() == self.view().table.dom().len(),
            forall|i: int| 0 <= i < r@.len() ==> self.view().table.dom().contains(#[trigger] r@[i].0) && self.view().table[r@[i].0] == r@[i].1,
            forall|m: MacAddr| #[trigger] self.view().table.dom().contains(m) ==> exists|i: int| 0 <= i < r@.len() && r@[i].0 == m,
            forall|i: int, j: int| 0 <= i < j < r@.len() ==> r@[i].0 != r@[j].0,
            forall|i: int| 0 <= i && i + 1 < r@.len() ==> !lex_lt(#[trigger] r@[i + 1].0.bytes(), r@[i].0.bytes()),
    {
        let n = self.forwarding_table.len();
        let ghost es = self.forwarding_table.entries_spec();
        proof {
            self.forwarding_table.lemma_wf();
        }
        let mut keys: Vec<Vec<u8>> = Vec::new();
        let mut i: usize = 0;
        while i < n
            invariant
                i <= n,
                n == es.len(),
                es == self.forwarding_table.entries_spec(),
                keys@.len() == i,
                forall|j: int| 0 <= j < i ==> (#[trigger] keys@[j])@ == es[j].0.bytes(),
            decreases n - i,
        {
            let e = self.forwarding_table.entry_at(i);
            let o = e.0.octets();
            let mut k: Vec<u8> = Vec::new();
            k.push(o[0]);
            k.push(o[1]);
            k.push(o[2]);
            k.push(o[3]);
            k.push(o[4]);
            k.push(o[5]);
            assert(k@ =~= es[i as int].0.bytes());
            keys.push(k);
            i = i + 1;
        }
        let p = sorted_positions(&keys);
        let ghost ks = keys@.map_values(|k: Vec<u8>| k@);
        let mut out: Vec<(MacAddr, SocketAddrV4)> = Vec::new();
        let mut j: usize = 0;
        while j < n
            invariant
                j <= n,
                n == es.len(),
                es == self.forwarding_table.entries_spec(),
                p@.len() == n,
                forall|x: int| 0 <= x < n ==> #[trigger] p@[x] < n,
                out@.len() == j,
                forall|x: int| 0 <= x < j ==> #[trigger] out@[x] == es[p@[x] as int],
            decreases n - j,
        {
            out.push(*self.forwarding_table.entry_at(p[j]));
            j = j + 1;
        }
        proof {
            let t = self.view().table;
            assert forall|x: int| 0 <= x < out@.len() implies t.dom().contains(#[trigger] out@[x].0) && t[out@[x].0] == out@[x].1 by {
                crate::vec_map::lemma_seq_to_map_index(es, p@[x] as int);
            }
            assert forall|x: int, y: int| 0 <= x < y < out@.len() implies out@[x].0 != out@[y].0 by {
                assert(p@[x] != p@[y]);
            }
            assert forall|m: MacAddr| #[trigger] t.dom().contains(m) implies exists|x: int| 0 <= x < out@.len() && out@[x].0 == m by {
                let e = choose|e: int| 0 <= e < es.len() && es[e].0 == m;
                assert(p@.contains(e as usize));
                let x = choose|x: int| 0 <= x < p@.len() && p@[x] == e as usize;
                assert(out@[x].0 == m);
            }
            let ks2 = out@.map_values(|e: (MacAddr, SocketAddrV4)| e.0);
            assert(t.dom() =~= ks2.to_set()) by {
                assert forall|m: MacAddr| t.dom().contains(m) implies ks2.to_set().contains(m) by {
                    let x = choose|x: int| 0 <= x < out@.len() && out@[x].0 == m;
                    assert(ks2[x] == m);
                }
                assert forall|m: MacAddr| ks2.to_set().contains(m) implies t.dom().contains(m) by {
                    let x = choose|x: int| 0 <= x < ks2.len() && ks2[x] == m;
                    assert(out@[x].0 == m);
                }
            }
            assert(ks2.no_duplicates()) by {
                assert forall|x: int, y: int| 0 <= x < ks2.len() && 0 <= y < ks2.len() && x != y implies ks2[x] != ks2[y] by {
                    if x < y {
                        assert(out@[x].0 != out@[y].0);
                    } else {
                        assert(out@[y].0 != out@[x].0);
                    }
                }
            }
            ks2.unique_seq_to_set();
            assert forall|x: int| 0 <= x && x + 1 < out@.len() implies !lex_lt(#[trigger] out@[x + 1].0.bytes(), out@[x].0.bytes()) by {
                assert(ks[p@[x + 1] as int] == es[p@[x + 1] as int].0.bytes());
                assert(ks[p@[x] as int] == es[p@[x] as int].0.bytes());
            }
        }
        out
    }

    /// The known ports, in increasing order of their text `a.b.c.d:port`.
    pub fn ports(&self) -> (r: Vec<SocketAddrV4>)
        requires
            self.wf(),
        ensures
            r@.len() == self.view().ports.len(),
            r@.no_duplicates(),
            forall|q: SocketAddrV4| r@.contains(q) <==> self.view().ports.contains(q),
            forall|i: int| 0 <= i && i + 1 < r@.len() ==> !lex_lt(#[trigger] socket_text(r@[i + 1]), socket_text(r@[i])),
    {
        let n = self.ports.len();
        let mut keys: Vec<Vec<u8>> = Vec::new();
        let mut i: usize = 0;
        while i < n
            invariant
                i <= n,
                n == self.ports@.len(),
                keys@.len() == i,
                forall|j: int| 0 <= j < i ==> (#[trigger] keys@[j])@ == socket_text(self.ports@[j]),
            decreases n - i,
        {
            keys.push(self.ports[i].text_bytes());
            i = i + 1;
        }
        let p = sorted_positions(&keys);
        let ghost ks = keys@.map_values(|k: Vec<u8>| k@);
        let mut out: Vec<SocketAddrV4> = Vec::new();
        let mut j: usize = 0;
        while j < n
            invariant
                j <= n,
                n == self.ports@.len(),
                p@.len() == n,
                forall|x: int| 0 <= x < n ==> #[trigger] p@[x] < n,
                out@.len() == j,
                forall|x: int| 0 <= x < j ==> #[trigger] out@[x] == self.ports@[p@[x] as int],
            decreases n - j,
        {
            out.push(self.ports[p[j]]);
            j = j + 1;
        }
        proof {
            let ps = self.ports@;
            assert forall|x: int, y: int| 0 <= x < out@.len() && 0 <= y < out@.len() && x != y implies out@[x] != out@[y] by {
                assert(p@[x] != p@[y]);
            }
            assert forall|q: SocketAddrV4| out@.contains(q) <==> ps.contains(q) by {
                if ps.contains(q) {
                    let e = choose|e: int| 0 <= e < ps.len() && ps[e] == q;
                    assert(p@.contains(e as usize));
                    let x = choose|x: int| 0 <= x < p@.len() && p@[x] == e as usize;
                    assert(out@[x] == q);
                }
                if out@.contains(q) {
                    let x = choose|x: int| 0 <= x < out@.len() && out@[x] == q;
                    assert(ps[p@[x] as int] == q);
                }
            }
            assert forall|x: int| 0 <= x && x + 1 < out@.len() implies !lex_lt(#[trigger] socket_text(out@[x + 1]), socket_text(out@[x])) by {
                assert(ks[p@[x + 1] as int] == socket_text(ps[p@[x + 1] as int]));
                assert(ks[p@[x] as int] == socket_text(ps[p@[x] as int]));
            }
        }
        out
    }
}

impl Default for LearningSwitch {
    fn default() -> (r: LearningSwitch)
        ensures
            r.wf(),
            r.view().table == Map::<MacAddr, SocketAddrV4>::empty(),
            r.view().ports == Seq::<SocketAddrV4>::empty(),
    {
        LearningSwitch::new()
    }
}

} // verus!
