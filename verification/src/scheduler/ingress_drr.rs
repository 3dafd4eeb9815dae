//! Deficit round robin over the input sockets.
//!
//! Every class with a socket has a turn in each round. The turns go by class, the most critical
//! first, and each round starts one class further on. At the start of its turn a class gets its
//! quantum as credit, and every packet read costs one. What is left at the end of the turn counts in
//! the next round. A turn also ends when no socket of the class has a packet, or when the scheduler
//! behind takes no more.

use crate::packet::{Packet, MAX_PACKET_SIZE};
use crate::priority::{Priority, PriorityTable};
use crate::scheduler::edf::copy_counts;
use crate::scheduler::output::{offered, send_packet};
use crate::time::Duration;
use crossbeam_channel::Sender;
use vstd::prelude::*;

verus! {

/// What is known of a class with at least one socket.
#[derive(Clone, Copy, Debug, PartialEq, Eq, Structural)]
pub struct FlowState {
    /// Packets that the class may read in a round.
    pub quantum: usize,
    /// Credit left from earlier rounds.
    pub deficit: usize,
    /// Latency budget of the packets of the class.
    pub latency_budget: Duration,
    /// Number of sockets of the class.
    pub sockets: usize,
}

/// A class's turn in a round.
#[derive(Clone, Copy, Debug, PartialEq, Eq, Structural)]
pub struct FlowTurn {
    pub priority: Priority,
    /// Latency budget of the packets of the class.
    pub latency_budget: Duration,
    /// Number of sockets of the class.
    pub sockets: usize,
    /// Credit left.
    pub deficit: usize,
    /// The socket to try next in this pass over the sockets.
    pub socket: usize,
    /// Whether a socket gave a packet in this pass.
    pub read_any: bool,
    /// Whether the scheduler behind took no more.
    pub blocked: bool,
}

/// What came of trying a socket.
#[derive(Clone, Copy, Debug, PartialEq, Eq, Structural)]
pub enum Reading {
    /// A packet, which the scheduler behind took.
    Forwarded,
    /// A packet, which the scheduler behind did not take.
    Rejected,
    /// No packet.
    Nothing,
}

impl FlowTurn {
    pub open spec fn wf(&self) -> bool {
        self.socket <= self.sockets
    }

    /// Whether the turn is over: the class is blocked or out of credit, it has no socket, or a whole
    /// pass over its sockets gave nothing.
    pub open spec fn over(&self) -> bool {
        ||| self.blocked
        ||| self.deficit == 0
        ||| self.sockets == 0
        ||| self.socket == self.sockets && !self.read_any
    }

    /// The socket that is tried next.
    pub open spec fn next_socket(&self) -> int {
        if self.socket == self.sockets {
            0
        } else {
            self.socket as int
        }
    }

    /// The turn once the next socket has been picked. A new pass starts where the last one is
    /// through.
    pub open spec fn picked(self) -> FlowTurn {
        if self.socket == self.sockets {
            FlowTurn { socket: 1, read_any: false, ..self }
        } else {
            FlowTurn { socket: (self.socket + 1) as usize, ..self }
        }
    }

    /// The turn once the socket that was picked has been tried.
    pub open spec fn tried(self, reading: Reading) -> FlowTurn {
        match reading {
            Reading::Forwarded => FlowTurn {
                deficit: (self.deficit - 1) as usize,
                read_any: true,
                ..self
            },
            Reading::Rejected => FlowTurn {
                deficit: (self.deficit - 1) as usize,
                read_any: true,
                blocked: true,
                ..self
            },
            Reading::Nothing => self,
        }
    }

    /// Upper bound on the number of sockets that are still tried in this turn.
    pub open spec fn steps_left(&self) -> int {
        (2 * self.deficit + (if self.read_any {
            1int
        } else {
            0
        })) * (self.sockets + 1) + (self.sockets - self.socket)
    }

    /// Picks the socket to try next, or tells that the turn is over.
    pub fn pick(&mut self) -> (socket: Option<usize>)
        requires
            old(self).wf(),
        ensures
            final(self).wf(),
            match socket {
                Some(s) => {
                    &&& !old(self).over()
                    &&& s == old(self).next_socket()
                    &&& s < old(self).sockets
                    &&& *final(self) == old(self).picked()
                },
                None => old(self).over() && *final(self) == *old(self),
            },
    {
        if self.blocked || self.deficit == 0 || self.sockets == 0 {
            return None;
        }
        if self.socket == self.sockets {
            if !self.read_any {
                return None;
            }
            self.socket = 0;
            self.read_any = false;
        }
        let s: usize = self.socket;
        self.socket = s + 1;
        Some(s)
    }

    /// Notes what came of trying the socket that was picked.
    pub fn note(&mut self, reading: Reading)
        requires
            old(self).wf(),
            old(self).deficit > 0,
        ensures
            final(self).wf(),
            *final(self) == old(self).tried(reading),
    {
        match reading {
            Reading::Forwarded => {
                self.deficit = self.deficit - 1;
                self.read_any = true;
            },
            Reading::Rejected => {
                self.deficit = self.deficit - 1;
                self.read_any = true;
                self.blocked = true;
            },
            Reading::Nothing => {},
        }
    }
}

/// Number of packets among the outcomes.
pub open spec fn packets_in(readings: Seq<Reading>) -> nat
    decreases readings.len(),
{
    if readings.len() == 0 {
        0
    } else {
        packets_in(readings.drop_last()) + (if readings.last() == Reading::Nothing {
            0nat
        } else {
            1
        })
    }
}

/// The turn after sockets were tried with the given outcomes, as long as it was not over.
pub open spec fn played(turn: FlowTurn, readings: Seq<Reading>) -> FlowTurn
    decreases readings.len(),
{
    if readings.len() == 0 {
        turn
    } else {
        let before = played(turn, readings.drop_last());
        if before.over() {
            before
        } else {
            before.picked().tried(readings.last())
        }
    }
}

/// Whether a socket is really tried for each of the outcomes, none coming after the end of the
/// turn.
pub open spec fn playable(turn: FlowTurn, readings: Seq<Reading>) -> bool
    decreases readings.len(),
{
    readings.len() == 0 || playable(turn, readings.drop_last()) && !played(
        turn,
        readings.drop_last(),
    ).over()
}

/// Law: credit is neither lost nor made up: what a turn started with is what its packets cost and
/// what is left. So a class never reads more than its credit.
pub proof fn law_credit_is_conserved(turn: FlowTurn, readings: Seq<Reading>)
    requires
        turn.wf(),
        playable(turn, readings),
    ensures
        played(turn, readings).deficit + packets_in(readings) == turn.deficit,
        played(turn, readings).sockets == turn.sockets,
        played(turn, readings).wf(),
    decreases readings.len(),
{
    if readings.len() > 0 {
        law_credit_is_conserved(turn, readings.drop_last());
    }
}

/// Law: every turn ends: each socket that is tried uses up some of a bound that is fixed when the
/// turn starts.
pub proof fn law_every_turn_ends(turn: FlowTurn, reading: Reading)
    requires
        turn.wf(),
        !turn.over(),
    ensures
        0 <= turn.picked().tried(reading).steps_left() < turn.steps_left(),
        turn.picked().tried(reading).wf(),
{
    let after = turn.picked().tried(reading);
    let n = turn.sockets + 1;
    let before_weight = 2 * turn.deficit + (if turn.read_any {
        1int
    } else {
        0
    });
    let after_weight = 2 * after.deficit + (if after.read_any {
        1int
    } else {
        0
    });
    assert(after_weight <= before_weight);
    if after_weight < before_weight {
        assert(after_weight * n + n <= before_weight * n) by (nonlinear_arith)
            requires
                after_weight + 1 <= before_weight,
                n >= 0,
        ;
    }
    assert(after_weight * n >= 0) by (nonlinear_arith)
        requires
            after_weight >= 0,
            n >= 0,
    ;
}

/// Law: a class that always has packets, and whose packets are taken, uses up all its credit: it
/// reads exactly its quantum and what was left over.
pub proof fn law_backlogged_class_uses_its_credit(turn: FlowTurn, readings: Seq<Reading>)
    requires
        turn.wf(),
        turn.sockets > 0,
        !turn.blocked,
        turn.socket == 0 || turn.read_any,
        readings.len() <= turn.deficit,
        forall|i: int| 0 <= i < readings.len() ==> #[trigger] readings[i] == Reading::Forwarded,
    ensures
        playable(turn, readings),
        packets_in(readings) == readings.len(),
        played(turn, readings).deficit == turn.deficit - readings.len(),
        readings.len() == turn.deficit ==> played(turn, readings).over(),
        !played(turn, readings).blocked,
        played(turn, readings).sockets == turn.sockets,
        played(turn, readings).wf(),
        played(turn, readings).socket == 0 || played(turn, readings).read_any,
    decreases readings.len(),
{
    if readings.len() > 0 {
        let earlier = readings.drop_last();
        law_backlogged_class_uses_its_credit(turn, earlier);
        assert(readings.last() == Reading::Forwarded);
    }
}

/// The class, if it has a socket.
pub open spec fn if_active(
    flows: PriorityTable<Option<FlowState>>,
    priority: Priority,
) -> Seq<Priority> {
    if flows.at(priority) is Some {
        seq![priority]
    } else {
        Seq::empty()
    }
}

/// The classes that have sockets, most critical first.
pub open spec fn active(flows: PriorityTable<Option<FlowState>>) -> Seq<Priority> {
    if_active(flows, Priority::High) + if_active(flows, Priority::Medium) + if_active(
        flows,
        Priority::Low,
    ) + if_active(flows, Priority::BestEffort)
}

/// Law: the classes that are served are those that have sockets, each once, and the more critical
/// before the less critical.
pub proof fn law_classes_are_served_in_order(flows: PriorityTable<Option<FlowState>>)
    ensures
        forall|i: int, j: int|
            0 <= i < j < active(flows).len() ==> (#[trigger] active(flows)[i]).rank() < (
            #[trigger] active(flows)[j]).rank(),
        forall|p: Priority| #[trigger] active(flows).contains(p) <==> flows.at(p) is Some,
{
    let high = if_active(flows, Priority::High);
    let medium = high + if_active(flows, Priority::Medium);
    let low = medium + if_active(flows, Priority::Low);
    let all = active(flows);
    assert(all == low + if_active(flows, Priority::BestEffort));
    assert forall|p: Priority| #[trigger] all.contains(p) <==> flows.at(p) is Some by {
        if flows.at(p) is Some {
            let at = match p {
                Priority::High => 0int,
                Priority::Medium => high.len() as int,
                Priority::Low => medium.len() as int,
                Priority::BestEffort => low.len() as int,
            };
            assert(all[at] == p);
        }
        if all.contains(p) {
            let i = choose|i: int| 0 <= i < all.len() && all[i] == p;
            assert(flows.at(all[i]) is Some);
        }
    }
}

/// The class whose turn is the `i`-th in a round that starts at position `start`.
pub open spec fn turn_of(classes: Seq<Priority>, start: int, i: int) -> Priority {
    classes[(start + i) % (classes.len() as int)]
}

/// Law: in a round every class that has a socket has exactly one turn, wherever the round starts.
pub proof fn law_each_class_has_one_turn(
    flows: PriorityTable<Option<FlowState>>,
    start: int,
    priority: Priority,
)
    requires
        start >= 0,
        flows.at(priority) is Some,
    ensures
        exists|i: int|
            0 <= i < active(flows).len() && #[trigger] turn_of(active(flows), start, i) == priority,
        forall|i: int, j: int|
            0 <= i < j < active(flows).len() ==> #[trigger] turn_of(active(flows), start, i)
                != #[trigger] turn_of(active(flows), start, j),
{
    law_classes_are_served_in_order(flows);
    let s = active(flows);
    let n = s.len() as int;
    assert(s.contains(priority));
    let k = choose|k: int| 0 <= k < n && s[k] == priority;
    let r = start % n;
    let i = if k >= r {
        k - r
    } else {
        k + n - r
    };
    let q = start / n;
    assert(start == q * n + r) by {
        vstd::arithmetic::div_mod::lemma_fundamental_div_mod(start, n);
        assert(n * q == q * n) by (nonlinear_arith);
    }
    assert((start + i) % n == k) by {
        if k >= r {
            assert(start + i == q * n + k);
            vstd::arithmetic::div_mod::lemma_fundamental_div_mod_converse(start + i, n, q, k);
        } else {
            assert(start + i == (q + 1) * n + k) by (nonlinear_arith)
                requires
                    start == q * n + r,
                    i == k + n - r,
            ;
            vstd::arithmetic::div_mod::lemma_fundamental_div_mod_converse(start + i, n, q + 1, k);
        }
    }
    assert(turn_of(s, start, i) == priority);
    assert forall|a: int, b: int| 0 <= a < b < n implies #[trigger] turn_of(s, start, a)
        != #[trigger] turn_of(s, start, b) by {
        let x = (start + a) % n;
        let y = (start + b) % n;
        assert(x != y) by {
            if x == y {
                vstd::arithmetic::div_mod::lemma_fundamental_div_mod(start + a, n);
                vstd::arithmetic::div_mod::lemma_fundamental_div_mod(start + b, n);
                let qa = (start + a) / n;
                let qb = (start + b) / n;
                assert(b - a == n * (qb - qa)) by (nonlinear_arith)
                    requires
                        start + a == n * qa + x,
                        start + b == n * qb + x,
                ;
                assert(false) by (nonlinear_arith)
                    requires
                        0 < b - a < n,
                        b - a == n * (qb - qa),
                ;
            }
        }
        assert(0 <= x < n && 0 <= y < n) by {
            vstd::arithmetic::div_mod::lemma_mod_bound(start + a, n);
            vstd::arithmetic::div_mod::lemma_mod_bound(start + b, n);
        }
        assert(x < y ==> s[x].rank() < s[y].rank());
        assert(y < x ==> s[y].rank() < s[x].rank());
    }
}

/// The turn of a class once it starts: its quantum is added to its credit, and no socket has been
/// tried yet.
pub open spec fn started(priority: Priority, flow: FlowState) -> FlowTurn {
    FlowTurn {
        priority,
        latency_budget: flow.latency_budget,
        sockets: flow.sockets,
        deficit: (if flow.deficit + flow.quantum > usize::MAX {
            usize::MAX
        } else {
            (flow.deficit + flow.quantum) as usize
        }),
        socket: 0,
        read_any: false,
        blocked: false,
    }
}

/// What is known of a class once its turn is over: what is left of its credit counts on.
pub open spec fn ended(flow: FlowState, turn: FlowTurn) -> FlowState {
    FlowState { deficit: turn.deficit, ..flow }
}

/// What is known of a class once it has one socket more.
pub open spec fn with_socket(
    flow: Option<FlowState>,
    latency_budget: Duration,
    quantum: usize,
) -> FlowState {
    match flow {
        None => FlowState { quantum, deficit: 0, latency_budget, sockets: 1 },
        Some(flow) => FlowState { sockets: (flow.sockets + 1) as usize, ..flow },
    }
}

/// Position at which the round after one that started at `index` starts, among `count` classes.
pub open spec fn next_start(index: int, count: int) -> int {
    if count == 0 {
        index
    } else {
        (index + 1) % count
    }
}

/// Bytes that are leased for a datagram.
pub open spec fn size_hint(available: Option<usize>) -> usize {
    match available {
        Some(n) => if n > 0 {
            n
        } else {
            MAX_PACKET_SIZE
        },
        None => MAX_PACKET_SIZE,
    }
}

/// Law: a turn starts with what was left of the credit and the quantum, as much as a `usize` counts,
/// with the first socket, and open. What is left when it ends is what the next one adds the quantum
/// to; quantum, budget and sockets of the class stay.
pub proof fn law_credit_is_carried_over(priority: Priority, flow: FlowState, turn: FlowTurn)
    requires
        turn.deficit + flow.quantum <= usize::MAX,
        flow.deficit + flow.quantum <= usize::MAX,
    ensures
        started(priority, flow).deficit == flow.deficit + flow.quantum,
        started(priority, ended(flow, turn)).deficit == turn.deficit + flow.quantum,
        started(priority, flow).priority == priority,
        started(priority, flow).sockets == flow.sockets,
        started(priority, flow).latency_budget == flow.latency_budget,
        started(priority, flow).next_socket() == 0,
        started(priority, flow).over() <==> flow.deficit + flow.quantum == 0 || flow.sockets == 0,
        ended(flow, turn).quantum == flow.quantum,
        ended(flow, turn).sockets == flow.sockets,
        ended(flow, turn).latency_budget == flow.latency_budget,
{
}

/// Law: a packet that the scheduler behind does not take ends the turn at once, and costs credit as
/// any other; a socket that gives nothing costs none. Neither ends a turn by itself that still has
/// credit and sockets to try.
pub proof fn law_only_a_full_queue_ends_a_turn_at_once(turn: FlowTurn)
    requires
        turn.wf(),
        !turn.over(),
    ensures
        turn.picked().tried(Reading::Rejected).over(),
        turn.picked().tried(Reading::Rejected).deficit == turn.deficit - 1,
        turn.picked().tried(Reading::Forwarded).deficit == turn.deficit - 1,
        turn.picked().tried(Reading::Nothing).deficit == turn.deficit,
        turn.picked().tried(Reading::Forwarded).over() <==> turn.deficit == 1,
        turn.picked().socket < turn.sockets ==> !turn.picked().tried(Reading::Nothing).over(),
        turn.picked().tried(Reading::Nothing).priority == turn.priority,
        turn.picked().tried(Reading::Forwarded).latency_budget == turn.latency_budget,
{
}

/// Law: the sockets of a class are tried in turn: after each the next one, and after the last the
/// first again, as long as one of them gave a packet in the pass that is through.
pub proof fn law_sockets_are_tried_in_turn(turn: FlowTurn, reading: Reading)
    requires
        turn.wf(),
        !turn.over(),
    ensures
        0 <= turn.next_socket() < turn.sockets,
        turn.picked().tried(reading).next_socket() == (if turn.next_socket() + 1 == turn.sockets {
            0
        } else {
            turn.next_socket() + 1
        }),
        turn.socket == turn.sockets ==> turn.read_any,
{
}

/// Law: a pass over all sockets of a class that gives nothing ends its turn, and not before the last
/// of them was tried.
pub proof fn law_an_empty_pass_ends_the_turn(turn: FlowTurn, readings: Seq<Reading>)
    requires
        turn.socket == 0,
        !turn.read_any,
        !turn.over(),
        readings.len() <= turn.sockets,
        forall|i: int| 0 <= i < readings.len() ==> #[trigger] readings[i] == Reading::Nothing,
    ensures
        playable(turn, readings),
        played(turn, readings) == (FlowTurn { socket: readings.len() as usize, ..turn }),
        played(turn, readings).over() <==> readings.len() == turn.sockets,
    decreases readings.len(),
{
    if readings.len() > 0 {
        law_an_empty_pass_ends_the_turn(turn, readings.drop_last());
        assert(readings.last() == Reading::Nothing);
    }
}

/// Law: rounds take turns in starting: the class that has the second turn of a round starts the next
/// one. In each round the turns go by class from the one that starts it.
pub proof fn law_rounds_start_one_class_further(classes: Seq<Priority>, start: int, i: int)
    requires
        classes.len() > 0,
        start >= 0,
        i >= 0,
    ensures
        start < classes.len() ==> turn_of(classes, start, 0) == classes[start],
        0 <= next_start(start, classes.len() as int) < classes.len(),
        turn_of(classes, next_start(start, classes.len() as int), i) == turn_of(
            classes,
            start,
            i + 1,
        ),
        next_start(start, 0) == start,
{
    let n = classes.len() as int;
    if start < n {
        vstd::arithmetic::div_mod::lemma_small_mod(start as nat, n as nat);
    }
    vstd::arithmetic::div_mod::lemma_mod_bound(start + 1, n);
    vstd::arithmetic::div_mod::lemma_add_mod_noop_right(i, start + 1, n);
    assert(((start + 1) % n + i) % n == (start + 1 + i) % n) by {
        assert((i + (start + 1) % n) % n == (i + (start + 1)) % n);
    }
}

/// Law: a class starts without credit, with the quantum and budget of its first socket, and keeps
/// them with every further socket.
pub proof fn law_the_first_socket_sets_the_class(
    flow: Option<FlowState>,
    latency_budget: Duration,
    quantum: usize,
)
    requires
        flow matches Some(flow) ==> flow.sockets < usize::MAX,
    ensures
        flow is None ==> {
            &&& with_socket(flow, latency_budget, quantum).quantum == quantum
            &&& with_socket(flow, latency_budget, quantum).latency_budget == latency_budget
            &&& with_socket(flow, latency_budget, quantum).deficit == 0
            &&& with_socket(flow, latency_budget, quantum).sockets == 1
        },
        flow matches Some(known) ==> {
            &&& with_socket(flow, latency_budget, quantum).quantum == known.quantum
            &&& with_socket(flow, latency_budget, quantum).latency_budget == known.latency_budget
            &&& with_socket(flow, latency_budget, quantum).deficit == known.deficit
            &&& with_socket(flow, latency_budget, quantum).sockets == known.sockets + 1
        },
{
}

/// Law: a buffer is leased for what the socket says is there, and for 1500 bytes where it says nothing
/// or that nothing is.
pub proof fn law_a_lease_fits_what_is_there(available: Option<usize>)
    ensures
        size_hint(available) > 0,
        available matches Some(n) ==> n > 0 ==> size_hint(available) == n,
        available is None || available == Some(0usize) ==> size_hint(available) == 1500,
{
}

/// Deficit round robin over the classes that have sockets.
pub struct IngressDRRScheduler {
    pub priority_queues: PriorityTable<Sender<Packet>>,
    /// What is known of each class that has a socket.
    pub flows: PriorityTable<Option<FlowState>>,
    /// Position, among the classes that have sockets, of the one that starts the next round.
    pub current_flow_index: usize,
    pub drop_counters: PriorityTable<u64>,
}

impl IngressDRRScheduler {
    /// A scheduler in front of the given queues, without sockets.
    pub fn new(priority_queues: PriorityTable<Sender<Packet>>) -> (scheduler: IngressDRRScheduler)
        ensures
            scheduler.priority_queues == priority_queues,
            forall|p: Priority| (#[trigger] scheduler.flows.at(p)) is None,
            scheduler.current_flow_index == 0,
            forall|p: Priority| #[trigger] scheduler.drop_counters.at(p) == 0,
    {
        IngressDRRScheduler {
            priority_queues,
            flows: PriorityTable::of(None, None, None, None),
            current_flow_index: 0,
            drop_counters: PriorityTable::of(0, 0, 0, 0),
        }
    }

    /// Packets of each class that the scheduler behind did not take.
    pub fn get_drop_counts(&self) -> (counts: PriorityTable<u64>)
        ensures
            counts == self.drop_counters,
    {
        copy_counts(&self.drop_counters)
    }

    /// Registers one more socket for a class and gives its number within the class. The quantum and
    /// the latency budget of a class are those given with its first socket.
    pub fn add_socket(
        &mut self,
        priority: Priority,
        latency_budget: Duration,
        quantum: usize,
    ) -> (socket: usize)
        requires
            old(self).flows.at(priority) matches Some(flow) ==> flow.sockets < usize::MAX,
        ensures
            final(self).flows.at(priority) == Some(
                match old(self).flows.at(priority) {
                    None => FlowState { quantum, deficit: 0, latency_budget, sockets: 1 },
                    Some(flow) => FlowState { sockets: (flow.sockets + 1) as usize, ..flow },
                },
            ),
            final(self).flows.at(priority) == Some(
                with_socket(old(self).flows.at(priority), latency_budget, quantum),
            ),
            socket + 1 == final(self).flows.at(priority).unwrap().sockets,
            forall|p: Priority|
                p != priority ==> #[trigger] final(self).flows.at(p) == old(self).flows.at(p),
            final(self).priority_queues == old(self).priority_queues,
            final(self).current_flow_index == old(self).current_flow_index,
            final(self).drop_counters == old(self).drop_counters,
    {
        let known: Option<FlowState> = *self.flows.get(priority);
        match known {
            None => {
                *self.flows.get_mut(priority) = Some(
                    FlowState { quantum, deficit: 0, latency_budget, sockets: 1 },
                );
                0
            },
            Some(flow) => {
                *self.flows.get_mut(priority) = Some(
                    FlowState { sockets: flow.sockets + 1, ..flow },
                );
                flow.sockets
            },
        }
    }

    /// The classes that have sockets, most critical first.
    pub fn active_flows(&self) -> (classes: Vec<Priority>)
        ensures
            classes@ == active(self.flows),
    {
        let mut classes: Vec<Priority> = Vec::new();
        if self.flows.get(Priority::High).is_some() {
            classes.push(Priority::High);
        }
        if self.flows.get(Priority::Medium).is_some() {
            classes.push(Priority::Medium);
        }
        if self.flows.get(Priority::Low).is_some() {
            classes.push(Priority::Low);
        }
        if self.flows.get(Priority::BestEffort).is_some() {
            classes.push(Priority::BestEffort);
        }
        assert(classes@ =~= active(self.flows));
        classes
    }

    /// The order of turns in this round: all classes that have sockets, starting with the one whose
    /// round it is.
    pub fn round_order(&self) -> (order: Vec<Priority>)
        ensures
            order@.len() == active(self.flows).len(),
            forall|i: int|
                0 <= i < order@.len() ==> #[trigger] order@[i] == turn_of(
                    active(self.flows),
                    self.current_flow_index as int,
                    i,
                ),
    {
        let flows = self.active_flows();
        let n: usize = flows.len();
        let mut order: Vec<Priority> = Vec::new();
        if n == 0 {
            return order;
        }
        let mut at: usize = self.current_flow_index % n;
        let mut i: usize = 0;
        while i < n
            invariant
                i <= n,
                n == flows@.len(),
                n > 0,
                flows@ == active(self.flows),
                at == (self.current_flow_index + i) % (n as int),
                order@.len() == i,
                forall|j: int|
                    0 <= j < i ==> #[trigger] order@[j] == flows@[(self.current_flow_index + j) % (
                    n as int)],
            decreases n - i,
        {
            order.push(flows[at]);
            proof {
                let x = self.current_flow_index + i;
                assert((x + 1) % (n as int) == (if x % (n as int) + 1 == n {
                    0
                } else {
                    x % (n as int) + 1
                })) by (nonlinear_arith)
                    requires
                        n > 0,
                        x >= 0,
                ;
            }
            at = if at + 1 == n {
                0
            } else {
                at + 1
            };
            i = i + 1;
        }
        order
    }

    /// Starts the turn of a class: its quantum is added to its credit.
    pub fn begin_turn(&self, priority: Priority) -> (turn: Option<FlowTurn>)
        ensures
            match self.flows.at(priority) {
                None => turn is None,
                Some(flow) => turn == Some(
                    FlowTurn {
                        priority,
                        latency_budget: flow.latency_budget,
                        sockets: flow.sockets,
                        deficit: (if flow.deficit + flow.quantum > usize::MAX {
                            usize::MAX
                        } else {
                            (flow.deficit + flow.quantum) as usize
                        }),
                        socket: 0,
                        read_any: false,
                        blocked: false,
                    },
                ),
            },
            turn == (match self.flows.at(priority) {
                None => None,
                Some(flow) => Some(started(priority, flow)),
            }),
            turn matches Some(t) ==> t.wf(),
    {
        match self.flows.get(priority) {
            None => None,
            Some(flow) => Some(
                FlowTurn {
                    priority,
                    latency_budget: flow.latency_budget,
                    sockets: flow.sockets,
                    deficit: flow.deficit.saturating_add(flow.quantum),
                    socket: 0,
                    read_any: false,
                    blocked: false,
                },
            ),
        }
    }

    /// Forwards a packet that a socket gave. One that the scheduler behind does not take is counted
    /// and handed back, and the turn is over then.
    pub fn forward(&mut self, turn: &mut FlowTurn, packet: Packet) -> (rejected: Option<Packet>)
        requires
            old(turn).wf(),
            old(turn).deficit > 0,
        ensures
            final(turn).wf(),
            *final(turn) == old(turn).tried(
                if rejected is Some {
                    Reading::Rejected
                } else {
                    Reading::Forwarded
                },
            ),
            offered(
                packet,
                rejected,
                old(self).priority_queues.at(old(turn).priority),
                final(self).priority_queues.at(old(turn).priority),
                old(self).drop_counters.at(old(turn).priority),
                final(self).drop_counters.at(old(turn).priority),
            ),
            forall|p: Priority|
                p != old(turn).priority ==> #[trigger] final(self).priority_queues.at(p) == old(
                    self).priority_queues.at(p),
            forall|p: Priority|
                p != old(turn).priority ==> #[trigger] final(self).drop_counters.at(p) == old(
                    self).drop_counters.at(p),
            final(self).flows == old(self).flows,
            final(self).current_flow_index == old(self).current_flow_index,
    {
        let priority = turn.priority;
        let rejected = send_packet(
            self.priority_queues.get_mut(priority),
            self.drop_counters.get_mut(priority),
            packet,
        );
        if rejected.is_some() {
            turn.note(Reading::Rejected);
        } else {
            turn.note(Reading::Forwarded);
        }
        rejected
    }

    /// Ends the turn of a class: what is left of its credit counts in the next round.
    pub fn end_turn(&mut self, turn: FlowTurn)
        ensures
            final(self).flows.at(turn.priority) == (match old(self).flows.at(turn.priority) {
                None => None::<FlowState>,
                Some(flow) => Some(FlowState { deficit: turn.deficit, ..flow }),
            }),
            old(self).flows.at(turn.priority) matches Some(flow) ==> final(self).flows.at(
                turn.priority,
            ) == Some(ended(flow, turn)),
            forall|p: Priority|
                p != turn.priority ==> #[trigger] final(self).flows.at(p) == old(self).flows.at(p),
            final(self).priority_queues == old(self).priority_queues,
            final(self).current_flow_index == old(self).current_flow_index,
            final(self).drop_counters == old(self).drop_counters,
    {
        let known: Option<FlowState> = *self.flows.get(turn.priority);
        match known {
            None => {},
            Some(flow) => {
                *self.flows.get_mut(turn.priority) = Some(
                    FlowState { deficit: turn.deficit, ..flow },
                );
            },
        }
    }

    /// Ends the round: the next one starts with the class after the one that started this.
    pub fn end_round(&mut self)
        ensures
            final(self).current_flow_index == (if active(old(self).flows).len() == 0 {
                old(self).current_flow_index as int
            } else {
                (old(self).current_flow_index + 1) % (active(old(self).flows).len() as int)
            }),
            final(self).current_flow_index == next_start(
                old(self).current_flow_index as int,
                active(old(self).flows).len() as int,
            ),
            final(self).priority_queues == old(self).priority_queues,
            final(self).flows == old(self).flows,
            final(self).drop_counters == old(self).drop_counters,
    {
        let n: usize = self.active_flows().len();
        if n > 0 {
            let at: usize = self.current_flow_index % n;
            proof {
                let x = self.current_flow_index as int;
                assert((x + 1) % (n as int) == (x % (n as int) + 1) % (n as int))
                    by (nonlinear_arith)
                    requires
                        n > 0,
                        x >= 0,
                ;
            }
            self.current_flow_index = (at + 1) % n;
        }
    }
}

/// Bytes to lease for the next datagram of a socket: what the socket says is there, or the largest
/// packet where it says nothing.
pub fn datagram_size_hint(available: Option<usize>) -> (size: usize)
    ensures
        size == (match available {
            Some(n) => if n > 0 {
                n
            } else {
                MAX_PACKET_SIZE
            },
            None => MAX_PACKET_SIZE,
        }),
        size == size_hint(available),
{
    match available {
        Some(n) => {
            if n > 0 {
                n
            } else {
                MAX_PACKET_SIZE
            }
        },
        None => MAX_PACKET_SIZE,
    }
}

} // verus!
