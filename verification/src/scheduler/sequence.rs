//! Restoring the order of packets that were worked on in parallel.

use crate::packet::Packet;
use crate::scheduler::output::{advanced, bump};
use std::collections::{BTreeMap, VecDeque};
use vstd::prelude::*;

verus! {

/// Which packets of one class may leave.
///
/// Each packet gets a number when work on it starts. Packets are released in the order of their
/// numbers, whatever the order in which the work on them ends: one that is done too early waits
/// until all before it are done.
pub struct SequenceTracker {
    next_sequence: u64,
    next_emit: u64,
    pending: BTreeMap<u64, Packet>,
}

/// The packets in `pending` with the numbers `from`, `from + 1` and so on, up to the first gap.
pub open spec fn run(pending: Map<u64, Packet>, from: u64) -> Seq<Packet>
    decreases pending.dom().len(),
    when pending.dom().finite()
{
    if pending.contains_key(from) {
        seq![pending[from]] + run(pending.remove(from), advanced(from, 1))
    } else {
        Seq::empty()
    }
}

/// `pending` without the packets numbered `from`, `from + 1` and so on, up to the first gap.
pub open spec fn after_run(pending: Map<u64, Packet>, from: u64) -> Map<u64, Packet>
    decreases pending.dom().len(),
    when pending.dom().finite()
{
    if pending.contains_key(from) {
        after_run(pending.remove(from), advanced(from, 1))
    } else {
        pending
    }
}

/// The number and the waiting packets of a tracker.
pub struct Progress {
    /// Number of the packet that is released next.
    pub next_emit: u64,
    /// Packets that are done but wait for one before them.
    pub pending: Map<u64, Packet>,
}

/// The packets that are released when the one numbered `sequence` is done.
pub open spec fn released(p: Progress, sequence: u64, packet: Packet) -> Seq<Packet> {
    if sequence == p.next_emit {
        seq![packet] + run(p.pending, advanced(p.next_emit, 1))
    } else {
        Seq::empty()
    }
}

/// The tracker's progress after the packet numbered `sequence` is done.
pub open spec fn progressed(p: Progress, sequence: u64, packet: Packet) -> Progress {
    if sequence == p.next_emit {
        Progress {
            next_emit: advanced(p.next_emit, released(p, sequence, packet).len()),
            pending: after_run(p.pending, advanced(p.next_emit, 1)),
        }
    } else {
        Progress { next_emit: p.next_emit, pending: p.pending.insert(sequence, packet) }
    }
}

impl SequenceTracker {
    /// The number that the next packet gets.
    pub closed spec fn upcoming(&self) -> u64 {
        self.next_sequence
    }

    pub closed spec fn progress(&self) -> Progress {
        Progress { next_emit: self.next_emit, pending: self.pending@ }
    }

    /// A tracker that starts with number 0.
    pub fn new() -> (tracker: SequenceTracker)
        ensures
            tracker.upcoming() == 0,
            tracker.progress() == (Progress { next_emit: 0, pending: Map::empty() }),
    {
        SequenceTracker { next_sequence: 0, next_emit: 0, pending: BTreeMap::new() }
    }

    /// Hands out the next number.
    pub fn assign_sequence(&mut self) -> (sequence: u64)
        ensures
            sequence == old(self).upcoming(),
            final(self).upcoming() == advanced(sequence, 1),
            final(self).progress() == old(self).progress(),
    {
        let sequence: u64 = self.next_sequence;
        self.next_sequence = bump(sequence);
        sequence
    }

    /// Notes that the packet numbered `sequence` is done, and gives the packets that may leave now,
    /// in order.
    pub fn complete(&mut self, sequence: u64, packet: Packet) -> (emitted: VecDeque<Packet>)
        ensures
            final(self).upcoming() == old(self).upcoming(),
            emitted@ == released(old(self).progress(), sequence, packet),
            final(self).progress() == progressed(old(self).progress(), sequence, packet),
    {
        broadcast use vstd::std_specs::btree::group_btree_axioms;
        broadcast use vstd::laws_cmp::group_laws_cmp;

        let mut emitted: VecDeque<Packet> = VecDeque::new();
        if sequence != self.next_emit {
            self.pending.insert(sequence, packet);
            return emitted;
        }
        emitted.push_back(packet);
        let mut next: u64 = bump(self.next_emit);
        let ghost start = next;
        let ghost waiting = self.pending@;
        let mut more: bool = true;
        while more
            invariant
                waiting == old(self).pending@,
                start == advanced(old(self).next_emit, 1),
                self.next_emit == old(self).next_emit,
                self.next_sequence == old(self).next_sequence,
                self.pending@.dom().finite(),
                emitted@.len() >= 1,
                emitted@[0] == packet,
                emitted@ + run(self.pending@, next) == seq![packet] + run(waiting, start),
                after_run(self.pending@, next) == after_run(waiting, start),
                next == advanced(self.next_emit, emitted@.len()),
                !more ==> !self.pending@.contains_key(next),
            decreases self.pending@.dom().len() + (if more { 1int } else { 0 }),
        {
            let ghost before = self.pending@;
            let ghost at = next;
            let ghost out = emitted@;
            match self.pending.remove(&next) {
                Some(found) => {
                    emitted.push_back(found);
                    next = bump(next);
                    assert(emitted@ + run(self.pending@, next) =~= out + run(before, at));
                },
                None => {
                    more = false;
                    assert(self.pending@ =~= before);
                },
            }
        }
        assert(emitted@ + run(self.pending@, next) =~= emitted@);
        self.next_emit = next;
        emitted
    }
}

/// Progress and released packets of a new tracker once the packets in `completions`, numbered as
/// given there, are done in that order.
pub open spec fn outcome(completions: Seq<(u64, Packet)>) -> (Progress, Seq<Packet>)
    decreases completions.len(),
{
    if completions.len() == 0 {
        (Progress { next_emit: 0, pending: Map::empty() }, Seq::empty())
    } else {
        let (before, out) = outcome(completions.drop_last());
        let (sequence, packet) = completions.last();
        (progressed(before, sequence, packet), out + released(before, sequence, packet))
    }
}

/// Whether no number is given twice.
pub open spec fn distinct(completions: Seq<(u64, Packet)>) -> bool {
    forall|i: int, j: int|
        0 <= i < j < completions.len() ==> (#[trigger] completions[i]).0 != (
        #[trigger] completions[j]).0
}

proof fn lemma_run(pending: Map<u64, Packet>, from: u64)
    requires
        pending.dom().finite(),
        from + pending.dom().len() <= u64::MAX,
        forall|s: u64| #[trigger] pending.contains_key(s) ==> s >= from,
    ensures
        run(pending, from).len() + after_run(pending, from).dom().len() == pending.dom().len(),
        after_run(pending, from).dom().finite(),
        forall|k: int|
            0 <= k < run(pending, from).len() ==> #[trigger] run(pending, from)[k] == pending[(from
                + k) as u64],
        forall|s: u64|
            from <= s < from + run(pending, from).len() ==> #[trigger] pending.contains_key(s),
        forall|s: u64| #[trigger]
            after_run(pending, from).contains_key(s) <==> pending.contains_key(s) && s > from + run(
                pending,
                from,
            ).len(),
        forall|s: u64| #[trigger]
            after_run(pending, from).contains_key(s) ==> after_run(pending, from)[s] == pending[s],
        forall|s: u64| #[trigger]
            pending.contains_key(s) ==> s != from + run(pending, from).len(),
    decreases pending.dom().len(),
{
    if pending.contains_key(from) {
        let rest = pending.remove(from);
        assert(rest.dom() =~= pending.dom().remove(from));
        assert(advanced(from, 1) == from + 1);
        lemma_run(rest, advanced(from, 1));
        let tail = run(rest, advanced(from, 1));
        let r = run(pending, from);
        assert(r == seq![pending[from]] + tail);
        assert forall|k: int| 0 <= k < r.len() implies #[trigger] r[k] == pending[(from
            + k) as u64] by {
            if k > 0 {
                assert(r[k] == tail[k - 1]);
                assert(rest.contains_key((from + k) as u64));
                assert(advanced(from, 1) + (k - 1) == from + k);
            }
        }
        assert forall|s: u64| from <= s < from + r.len() implies #[trigger] pending.contains_key(
            s,
        ) by {
            assert(s == from || rest.contains_key(s));
        }
        assert forall|s: u64| #[trigger] pending.contains_key(s) implies s != from + r.len() by {
            if s != from {
                assert(rest.contains_key(s));
            }
        }
        assert forall|s: u64| #[trigger]
            after_run(pending, from).contains_key(s) <==> pending.contains_key(s) && s > from
                + r.len() by {
            assert(after_run(pending, from) == after_run(rest, advanced(from, 1)));
        }
    } else {
        assert(run(pending, from).len() == 0);
    }
}

proof fn lemma_outcome(completions: Seq<(u64, Packet)>)
    requires
        distinct(completions),
        completions.len() <= u64::MAX,
    ensures
        ({
            let (p, out) = outcome(completions);
            &&& p.pending.dom().finite()
            &&& p.next_emit == out.len()
            &&& out.len() + p.pending.dom().len() == completions.len()
            &&& forall|k: int|
                0 <= k < out.len() ==> completions.contains((k as u64, #[trigger] out[k]))
            &&& forall|s: u64| #[trigger]
                p.pending.contains_key(s) ==> s > p.next_emit && completions.contains(
                    (s, p.pending[s]),
                )
            &&& forall|j: int|
                0 <= j < completions.len() ==> (#[trigger] completions[j]).0 < p.next_emit
                    || p.pending.contains_key(completions[j].0)
        }),
    decreases completions.len(),
{
    if completions.len() > 0 {
        let earlier = completions.drop_last();
        let n = completions.len() - 1;
        lemma_outcome(earlier);
        let (p, out) = outcome(earlier);
        let (s0, packet) = completions[n];
        let (q, all) = outcome(completions);
        assert forall|c: (u64, Packet)| #[trigger] earlier.contains(c) implies completions.contains(c)
            && c.0 != s0 by {
            let j = choose|j: int| 0 <= j < earlier.len() && earlier[j] == c;
            assert(completions[j] == c);
            assert(completions[n].0 == s0);
        }
        assert(completions.contains((s0, packet)));
        assert(!p.pending.contains_key(s0)) by {
            if p.pending.contains_key(s0) {
                assert(earlier.contains((s0, p.pending[s0])));
            }
        }
        assert(s0 >= p.next_emit) by {
            if s0 < p.next_emit {
                assert(earlier.contains((s0, out[s0 as int])));
            }
        }
        if s0 == p.next_emit {
            let from = advanced(s0, 1);
            assert(from == s0 + 1);
            lemma_run(p.pending, from);
            let r = run(p.pending, from);
            let rel = released(p, s0, packet);
            assert(rel == seq![packet] + r);
            assert(all == out + rel);
            assert(q.next_emit == all.len());
            assert forall|k: int| 0 <= k < all.len() implies completions.contains(
                (k as u64, #[trigger] all[k]),
            ) by {
                if k < out.len() {
                    assert(earlier.contains((k as u64, out[k])));
                } else if k == out.len() {
                } else {
                    let m = k - out.len() - 1;
                    assert(r[m] == p.pending[(from + m) as u64]);
                    assert((from + m) as u64 == k as u64);
                    assert(p.pending.contains_key(k as u64));
                    assert(earlier.contains((k as u64, p.pending[k as u64])));
                }
            }
            assert forall|s: u64| #[trigger] q.pending.contains_key(s) implies s > q.next_emit
                && completions.contains((s, q.pending[s])) by {
                assert(p.pending.contains_key(s));
                assert(earlier.contains((s, p.pending[s])));
            }
            assert forall|j: int| 0 <= j < completions.len() implies (
            #[trigger] completions[j]).0 < q.next_emit || q.pending.contains_key(
                completions[j].0,
            ) by {
                if j < n {
                    assert(earlier[j] == completions[j]);
                    let s = completions[j].0;
                    if p.pending.contains_key(s) {
                        assert(s != from + r.len());
                    }
                }
            }
        } else {
            assert(all =~= out);
            assert(q.pending.dom() =~= p.pending.dom().insert(s0));
            assert forall|k: int| 0 <= k < all.len() implies completions.contains(
                (k as u64, #[trigger] all[k]),
            ) by {
                assert(earlier.contains((k as u64, out[k])));
            }
            assert forall|s: u64| #[trigger] q.pending.contains_key(s) implies s > q.next_emit
                && completions.contains((s, q.pending[s])) by {
                if s != s0 {
                    assert(p.pending.contains_key(s));
                    assert(earlier.contains((s, p.pending[s])));
                }
            }
            assert forall|j: int| 0 <= j < completions.len() implies (
            #[trigger] completions[j]).0 < q.next_emit || q.pending.contains_key(
                completions[j].0,
            ) by {
                if j < n {
                    assert(earlier[j] == completions[j]);
                }
            }
        }
    }
}

/// Law: packets leave in the order of their numbers, whatever the order in which they are done,
/// and none waits longer than for those before it. The packet that leaves as the `k`-th is the one
/// numbered `k`, and the packets that have left are those whose predecessors are all done.
pub proof fn law_packets_leave_in_order(completions: Seq<(u64, Packet)>)
    requires
        distinct(completions),
        completions.len() <= u64::MAX,
    ensures
        forall|k: int|
            0 <= k < outcome(completions).1.len() ==> completions.contains(
                (k as u64, #[trigger] outcome(completions).1[k]),
            ),
        forall|packet: Packet|
            !(#[trigger] completions.contains((outcome(completions).1.len() as u64, packet))),
{
    lemma_outcome(completions);
    let (p, out) = outcome(completions);
    assert forall|packet: Packet| !(#[trigger] completions.contains((out.len() as u64, packet))) by {
        if completions.contains((out.len() as u64, packet)) {
            let j = choose|j: int|
                0 <= j < completions.len() && completions[j] == (out.len() as u64, packet);
            assert(completions[j].0 == p.next_emit);
        }
    }
}

/// Law: no packet is lost or doubled on the way: what was released and what still waits make up
/// what was done.
pub proof fn law_no_packet_is_lost(completions: Seq<(u64, Packet)>)
    requires
        distinct(completions),
        completions.len() <= u64::MAX,
    ensures
        outcome(completions).1.len() + outcome(completions).0.pending.dom().len()
            == completions.len(),
{
    lemma_outcome(completions);
}

/// Law: a packet whose turn it is leaves at once, ahead of those that it lets go; one whose turn it is
/// not waits under its number, and none leaves.
pub proof fn law_only_its_turn_lets_a_packet_go(p: Progress, sequence: u64, packet: Packet)
    ensures
        sequence == p.next_emit ==> released(p, sequence, packet).len() >= 1 && released(
            p,
            sequence,
            packet,
        )[0] == packet,
        sequence != p.next_emit ==> {
            &&& released(p, sequence, packet).len() == 0
            &&& progressed(p, sequence, packet).next_emit == p.next_emit
            &&& progressed(p, sequence, packet).pending == p.pending.insert(sequence, packet)
        },
{
}

/// Law: a packet that lets others go lets go of all those that wait behind it without a gap, in the order
/// of their numbers; the turn is then that of the first number that is missing, which does not wait.
pub proof fn law_packets_go_up_to_the_first_gap(p: Progress, packet: Packet, k: int)
    requires
        p.pending.dom().finite(),
        p.next_emit + 1 + p.pending.dom().len() <= u64::MAX,
        forall|s: u64| #[trigger] p.pending.contains_key(s) ==> s > p.next_emit,
        0 < k < released(p, p.next_emit, packet).len(),
    ensures
        p.pending.contains_key((p.next_emit + k) as u64),
        released(p, p.next_emit, packet)[k] == p.pending[(p.next_emit + k) as u64],
        progressed(p, p.next_emit, packet).next_emit == p.next_emit + released(
            p,
            p.next_emit,
            packet,
        ).len(),
        !p.pending.contains_key(progressed(p, p.next_emit, packet).next_emit),
        !progressed(p, p.next_emit, packet).pending.contains_key((p.next_emit + k) as u64),
{
    let from = advanced(p.next_emit, 1);
    assert(from == p.next_emit + 1);
    lemma_run(p.pending, from);
    let r = run(p.pending, from);
    assert(released(p, p.next_emit, packet)[k] == r[k - 1]);
    assert(p.pending.contains_key((p.next_emit + k) as u64));
    if p.pending.contains_key(progressed(p, p.next_emit, packet).next_emit) {
        assert(progressed(p, p.next_emit, packet).next_emit != from + r.len());
    }
}

} // verus!
