//! The link layer: Ethernet, ARP, a learning switch, and an in-memory shared medium.
pub mod arp;
pub mod ethernet;
pub mod switch;
pub mod wire;

use std::collections::VecDeque;
use vstd::prelude::*;

use crate::vec_map::{KeyEq, VecMap};
use ethernet::{EthernetFrame, FrameView, MacAddr};

verus! {

impl KeyEq for MacAddr {
    fn key_eq(&self, other: &Self) -> (r: bool) {
        *self == *other
    }
}

/// An in-memory broadcast medium: one receive queue per attached hardware address.
pub struct SharedMedium {
    queues: VecMap<MacAddr, VecDeque<EthernetFrame>>,
}

/// The frames of a queue, as values.
pub open spec fn frame_views(q: Seq<EthernetFrame>) -> Seq<FrameView> {
    q.map_values(|f: EthernetFrame| f@)
}

/// The queue of every attached address after `frame` is put on the medium: a broadcast
/// frame reaches every queue but the sender's, a unicast frame reaches the queue of its
/// destination if that address is attached, and is lost otherwise.
pub open spec fn transmit_spec(m: Map<MacAddr, Seq<FrameView>>, frame: FrameView) -> Map<MacAddr, Seq<FrameView>> {
    if frame.dst == MacAddr::broadcast_spec() {
        Map::new(|k: MacAddr| m.dom().contains(k), |k: MacAddr| if k != frame.src { m[k].push(frame) } else { m[k] })
    } else if m.dom().contains(frame.dst) {
        m.insert(frame.dst, m[frame.dst].push(frame))
    } else {
        m
    }
}

/// The medium after each of `frames` is put on it in order.
pub open spec fn transmit_all_spec(m: Map<MacAddr, Seq<FrameView>>, frames: Seq<FrameView>) -> Map<MacAddr, Seq<FrameView>>
    decreases frames.len(),
{
    if frames.len() == 0 {
        m
    } else {
        transmit_spec(transmit_all_spec(m, frames.drop_last()), frames.last())
    }
}

impl SharedMedium {
    pub closed spec fn wf(&self) -> bool {
        self.queues.wf()
    }

    /// The receive queue of each attached address.
    pub closed spec fn view(&self) -> Map<MacAddr, Seq<FrameView>> {
        self.queues.view().map_values(|q: VecDeque<EthernetFrame>| frame_views(q@))
    }

    pub fn new() -> (r: SharedMedium)
        ensures
            r.wf(),
            r.view() == Map::<MacAddr, Seq<FrameView>>::empty(),
    {
        let r = SharedMedium { queues: VecMap::new() };
        assert(r.view() =~= Map::<MacAddr, Seq<FrameView>>::empty());
        r
    }

    /// Attaches `mac` with an empty queue; an address already attached keeps its queue.
    pub fn connect(&mut self, mac: MacAddr)
        requires
            old(self).wf(),
        ensures
            final(self).wf(),
            final(self).view() == if old(self).view().dom().contains(mac) {
                old(self).view()
            } else {
                old(self).view().insert(mac, Seq::<FrameView>::empty())
            },
    {
        if !self.queues.contains_key(&mac) {
            let q: VecDeque<EthernetFrame> = VecDeque::new();
            assert(frame_views(q@) =~= Seq::<FrameView>::empty());
            self.queues.insert(mac, q);
            assert(self.view() =~= old(self).view().insert(mac, Seq::<FrameView>::empty()));
        }
    }

    /// Puts `frame` on the medium.
    pub fn transmit(&mut self, frame: EthernetFrame)
        requires
            old(self).wf(),
        ensures
            final(self).wf(),
            final(self).view() == transmit_spec(old(self).view(), frame@),
    {
        proof {
            old(self).queues.lemma_wf();
        }
        if frame.dst == MacAddr::broadcast() {
            let n = self.queues.len();
            let ghost old_entries = self.queues.entries_spec();
            let mut i: usize = 0;
            while i < n
                invariant
                    self.wf(),
                    n == self.queues.entries_spec().len(),
                    n == old_entries.len(),
                    i <= n,
                    frame.dst == MacAddr::broadcast_spec(),
                    forall|j: int| 0 <= j < n ==> (#[trigger] self.queues.entries_spec()[j]).0 == old_entries[j].0,
                    forall|j: int| i <= j < n ==> (#[trigger] self.queues.entries_spec()[j]).1 == old_entries[j].1,
                    forall|j: int| 0 <= j < i ==> frame_views((#[trigger] self.queues.entries_spec()[j]).1@) == (
                        if old_entries[j].0 != frame.src { frame_views(old_entries[j].1@).push(frame@) } else { frame_views(old_entries[j].1@) }),
                decreases n - i,
            {
                let (mac, _) = *self.queues.entry_at(i);
                if !(mac == frame.src) {
                    let mut q = self.queues.replace_value_at(i, VecDeque::new());
                    let ghost before = q@;
                    q.push_back(frame.duplicate());
                    assert(frame_views(q@) =~= frame_views(before).push(frame@));
                    self.queues.replace_value_at(i, q);
                }
                i = i + 1;
            }
            proof {
                let m = old(self).view();
                let t = transmit_spec(m, frame@);
                self.queues.lemma_wf();
                assert forall|k: MacAddr| #[trigger] self.view().dom().contains(k) <==> t.dom().contains(k) by {
                    if self.view().dom().contains(k) {
                        let j = choose|j: int| 0 <= j < n && self.queues.entries_spec()[j].0 == k;
                        crate::vec_map::lemma_seq_to_map_index(old_entries, j);
                    }
                    if t.dom().contains(k) {
                        let j = choose|j: int| 0 <= j < n && old_entries[j].0 == k;
                        crate::vec_map::lemma_seq_to_map_index(self.queues.entries_spec(), j);
                    }
                }
                assert forall|k: MacAddr| #[trigger] self.view().dom().contains(k) implies self.view()[k] == t[k] by {
                    let j = choose|j: int| 0 <= j < n && self.queues.entries_spec()[j].0 == k;
                    crate::vec_map::lemma_seq_to_map_index(old_entries, j);
                    crate::vec_map::lemma_seq_to_map_index(self.queues.entries_spec(), j);
                }
                assert(self.view() =~= t);
            }
            return;
        }
        match self.queues.find(&frame.dst) {
            Some(i) => {
                let ghost fv = frame@;
                let mut q = self.queues.replace_value_at(i, VecDeque::new());
                let ghost before = q@;
                q.push_back(frame);
                assert(frame_views(q@) =~= frame_views(before).push(fv));
                self.queues.replace_value_at(i, q);
                assert(self.view() =~= transmit_spec(old(self).view(), fv));
            },
            None => {},
        }
    }

    /// Takes the oldest frame queued for `mac`.
    pub fn recv(&mut self, mac: MacAddr) -> (r: Option<EthernetFrame>)
        requires
            old(self).wf(),
        ensures
            final(self).wf(),
            match r {
                Some(f) => old(self).view().dom().contains(mac) && old(self).view()[mac].len() > 0
                    && f@ == old(self).view()[mac][0]
                    && final(self).view() == old(self).view().insert(mac, old(self).view()[mac].drop_first()),
                None => (!old(self).view().dom().contains(mac) || old(self).view()[mac].len() == 0)
                    && final(self).view() == old(self).view(),
            },
    {
        match self.queues.find(&mac) {
            Some(i) => {
                let mut q = self.queues.replace_value_at(i, VecDeque::new());
                let ghost before = q@;
                let r = q.pop_front();
                let ghost after = q@;
                self.queues.replace_value_at(i, q);
                match &r {
                    Some(f) => {
                        assert(frame_views(after) =~= frame_views(before).drop_first());
                        assert(self.view() =~= old(self).view().insert(mac, old(self).view()[mac].drop_first()));
                    },
                    None => {
                        assert(self.view() =~= old(self).view());
                    },
                }
                r
            },
            None => None,
        }
    }
}

} // verus!
