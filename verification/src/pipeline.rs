//! The stages of the pipeline and how they are put together.
//!
//! Packets come in through sockets, go through the deficit round robin of the way in, one of the
//! schedulers, and the round robin of the way out. Channels of bounded size lie between the stages.

use crate::channel;
use crate::channel::MAX_CHANNEL_CAPACITY;
use crate::event_channel::{event_limit, report_channel, report_ends};
use crate::metrics::{MetricsCollector, MetricsEvent, MetricsSnapshot, EVENT_CAPACITY};
use crate::packet::Packet;
use crate::priority::{Priority, PriorityTable};
use crate::scheduler::adaptive::WORKER_COUNT;
use crate::scheduler::cedf::CEDFScheduler;
use crate::scheduler::edf::EDFScheduler;
use crate::scheduler::egress_drr::EgressDRRScheduler;
use crate::scheduler::gedf::GEDFScheduler;
use crate::scheduler::gedf_vd::GEDFVDScheduler;
use crate::scheduler::ingress_drr::{FlowState, IngressDRRScheduler};
use crate::scheduler::mc_edf_elastic::MCEDFElasticScheduler;
use crate::scheduler::multi_worker_edf::MultiWorkerScheduler;
use crate::scheduler::sequence::Progress;
use crate::scheduler::single_cpu_edf::SingleCPUEDFScheduler;
use crate::time::{Duration, Instant, NANOS_PER_MILLI};
use crossbeam_channel::{Receiver, Sender};
use std::collections::HashMap;
use vstd::prelude::*;

verus! {

/// Latency budget of a class without sockets, in milliseconds.
pub const DEFAULT_BUDGET_MS: u64 = 200;

/// Time between two reports, in milliseconds.
pub const REPORT_INTERVAL_MS: u64 = 100;

/// How packets are scheduled between the way in and the way out.
#[derive(Debug, Clone, Copy, PartialEq, Eq, Structural)]
pub enum SchedulerKind {
    /// One thread, one packet of each class at a time.
    Single,
    /// Three workers with quotas that follow the load.
    MultiWorker,
    /// Workers that share one queue, ordered by deadline.
    Global,
    /// Workers that share one queue, ordered by virtual deadline.
    GlobalVD,
    /// Workers with queues of their own, ordered by slack.
    Clairvoyant,
    /// Three channels, over which packets of the high class are spread.
    MCEDFElastic,
    /// One thread that reads the sockets itself.
    SingleCPUEDF,
}

impl Default for SchedulerKind {
    fn default() -> (kind: SchedulerKind)
        ensures
            kind == SchedulerKind::Single,
    {
        SchedulerKind::Single
    }
}

/// A socket of the pipeline.
#[derive(Debug, Clone)]
pub struct SocketConfig {
    pub address: String,
    pub port: u16,
    /// Time from arrival to deadline of the packets.
    pub latency_budget: Duration,
    pub priority: Priority,
}

/// Cores that the stages run on.
#[derive(Debug, Clone)]
pub struct CoreAssignment {
    /// Core of the way in.
    pub ingress: usize,
    /// Core of a scheduler's dispatcher, or of a scheduler with one thread.
    pub edf_dispatcher: usize,
    /// Cores of a scheduler's workers; without any, they run on the dispatcher's core.
    pub edf_workers: Vec<usize>,
    /// Core of the way out and of the statistics.
    pub egress: usize,
}

impl Default for CoreAssignment {
    fn default() -> (cores: CoreAssignment)
        ensures
            cores.ingress == 0,
            cores.edf_dispatcher == 1,
            cores.edf_workers@ == seq![1usize, 2],
            cores.egress == 2,
    {
        CoreAssignment { ingress: 0, edf_dispatcher: 1, edf_workers: vec![1, 2], egress: 2 }
    }
}

impl CoreAssignment {
    /// The cores of the workers, at least one.
    pub open spec fn spec_worker_cores(&self) -> Seq<usize> {
        if self.edf_workers@.len() == 0 {
            seq![self.edf_dispatcher]
        } else {
            self.edf_workers@
        }
    }

    /// The cores of the workers, at least one.
    pub fn worker_cores(&self) -> (cores: Vec<usize>)
        ensures
            cores@ == self.spec_worker_cores(),
            cores@.len() > 0,
    {
        if self.edf_workers.len() == 0 {
            vec![self.edf_dispatcher]
        } else {
            let mut cores: Vec<usize> = Vec::new();
            let mut i: usize = 0;
            while i < self.edf_workers.len()
                invariant
                    i <= self.edf_workers@.len(),
                    cores@ == self.edf_workers@.take(i as int),
                decreases self.edf_workers@.len() - i,
            {
                cores.push(self.edf_workers[i]);
                i = i + 1;
                assert(cores@ =~= self.edf_workers@.take(i as int));
            }
            assert(self.edf_workers@.take(i as int) =~= self.edf_workers@);
            cores
        }
    }

    /// The core of worker number `worker`.
    pub open spec fn core_at(&self, worker: int) -> usize {
        self.spec_worker_cores()[worker % (self.spec_worker_cores().len() as int)]
    }

    /// The cores of a scheduler with three channels, for the high class and for the others.
    pub open spec fn spec_channel_cores(&self) -> (usize, usize) {
        (
            self.spec_worker_cores()[0],
            if self.spec_worker_cores().len() > 1 {
                self.spec_worker_cores()[1]
            } else {
                self.spec_worker_cores()[0]
            },
        )
    }

    /// The core of worker number `worker`: the workers' cores are taken in turn.
    pub fn core_of_worker(&self, worker: usize) -> (core: usize)
        ensures
            core == self.spec_worker_cores()[(worker as int) % (self.spec_worker_cores().len()
                as int)],
            core == self.core_at(worker as int),
    {
        let cores = self.worker_cores();
        cores[worker % cores.len()]
    }

    /// The cores of a scheduler with three channels: the first for the high class, the second, where
    /// there is one, for the others.
    pub fn channel_cores(&self) -> (cores: (usize, usize))
        ensures
            cores.0 == self.spec_worker_cores()[0],
            cores.1 == if self.spec_worker_cores().len() > 1 {
                self.spec_worker_cores()[1]
            } else {
                self.spec_worker_cores()[0]
            },
            cores == self.spec_channel_cores(),
    {
        let cores = self.worker_cores();
        (
            cores[0],
            if cores.len() > 1 {
                cores[1]
            } else {
                cores[0]
            },
        )
    }
}

/// Capacities of the channels between the stages.
#[derive(Debug, Clone)]
pub struct QueueConfig {
    /// Between the way in and the scheduler.
    pub ingress_to_edf: PriorityTable<usize>,
    /// Between the scheduler and the way out.
    pub edf_to_egress: PriorityTable<usize>,
}

/// Default capacity of the channels of a class.
pub open spec fn default_capacity(priority: Priority) -> usize {
    match priority {
        Priority::High => 16,
        _ => 128,
    }
}

impl Default for QueueConfig {
    fn default() -> (queues: QueueConfig)
        ensures
            forall|p: Priority| #[trigger] queues.ingress_to_edf.at(p) == default_capacity(p),
            forall|p: Priority| #[trigger] queues.edf_to_egress.at(p) == default_capacity(p),
    {
        QueueConfig {
            ingress_to_edf: PriorityTable::of(16, 128, 128, 128),
            edf_to_egress: PriorityTable::of(16, 128, 128, 128),
        }
    }
}

/// Settings of the way in.
#[derive(Debug, Clone)]
pub struct IngressSchedulerConfig {
    /// Packets that each class may read in a round.
    pub quantums: PriorityTable<usize>,
}

/// Default quantum of a class.
pub open spec fn default_quantum(priority: Priority) -> usize {
    match priority {
        Priority::High => 64,
        Priority::Medium => 8,
        _ => 1,
    }
}

impl Default for IngressSchedulerConfig {
    fn default() -> (ingress: IngressSchedulerConfig)
        ensures
            forall|p: Priority| #[trigger] ingress.quantums.at(p) == default_quantum(p),
    {
        IngressSchedulerConfig { quantums: PriorityTable::of(64, 8, 1, 1) }
    }
}

/// Settings of the scheduler with one thread.
#[derive(Debug, Clone)]
pub struct EdfSchedulerConfig {
    /// Kept for configurations that set it; one packet of each class is held whatever it says.
    pub max_heap_size: usize,
}

impl Default for EdfSchedulerConfig {
    fn default() -> (edf: EdfSchedulerConfig)
        ensures
            edf.max_heap_size == 1,
    {
        EdfSchedulerConfig { max_heap_size: 1 }
    }
}

/// Settings of the pipeline.
#[derive(Debug, Clone)]
pub struct PipelineConfig {
    pub cores: CoreAssignment,
    pub queues: QueueConfig,
    pub ingress: IngressSchedulerConfig,
    pub edf: EdfSchedulerConfig,
    pub scheduler: SchedulerKind,
}

impl PipelineConfig {
    /// Whether channels of the capacities can be made.
    pub open spec fn buildable(&self) -> bool {
        &&& forall|p: Priority| #[trigger] self.queues.ingress_to_edf.at(p) <= MAX_CHANNEL_CAPACITY
        &&& forall|p: Priority| #[trigger] self.queues.edf_to_egress.at(p) <= MAX_CHANNEL_CAPACITY
    }

    /// Computes [`PipelineConfig::buildable`].
    pub fn is_buildable(&self) -> (yes: bool)
        ensures
            yes == self.buildable(),
    {
        within_capacity(&self.queues.ingress_to_edf) && within_capacity(&self.queues.edf_to_egress)
    }
}

fn within_capacity(capacities: &PriorityTable<usize>) -> (yes: bool)
    ensures
        yes == forall|p: Priority| #[trigger] capacities.at(p) <= MAX_CHANNEL_CAPACITY,
{
    *capacities.get(Priority::High) <= MAX_CHANNEL_CAPACITY && *capacities.get(Priority::Medium)
        <= MAX_CHANNEL_CAPACITY && *capacities.get(Priority::Low) <= MAX_CHANNEL_CAPACITY
        && *capacities.get(Priority::BestEffort) <= MAX_CHANNEL_CAPACITY
}

impl Default for PipelineConfig {
    fn default() -> (config: PipelineConfig)
        ensures
            config.buildable(),
            config.cores.ingress == 0,
            config.cores.edf_dispatcher == 1,
            config.cores.edf_workers@ == seq![1usize, 2],
            config.cores.egress == 2,
            forall|p: Priority| #[trigger]
                config.queues.ingress_to_edf.at(p) == default_capacity(p),
            forall|p: Priority| #[trigger] config.queues.edf_to_egress.at(p) == default_capacity(p),
            forall|p: Priority| #[trigger] config.ingress.quantums.at(p) == default_quantum(p),
            config.edf.max_heap_size == 1,
            config.scheduler == SchedulerKind::Single,
    {
        PipelineConfig {
            cores: CoreAssignment::default(),
            queues: QueueConfig::default(),
            ingress: IngressSchedulerConfig::default(),
            edf: EdfSchedulerConfig::default(),
            scheduler: SchedulerKind::default(),
        }
    }
}

/// Whether `socket` is the local socket on `port` for a class with the given budget.
pub open spec fn is_local(
    socket: SocketConfig,
    port: int,
    budget_ms: int,
    priority: Priority,
) -> bool {
    &&& socket.address@ == "127.0.0.1"@
    &&& socket.port == port
    &&& socket.latency_budget.nanos == budget_ms * NANOS_PER_MILLI
    &&& socket.priority == priority
}

fn local_socket(port: u16, budget_ms: u64, priority: Priority) -> (socket: SocketConfig)
    requires
        budget_ms <= 1000,
    ensures
        is_local(socket, port as int, budget_ms as int, priority),
{
    SocketConfig {
        address: "127.0.0.1".to_string(),
        port,
        latency_budget: Duration::from_millis(budget_ms),
        priority,
    }
}

/// Whether these are local sockets on three ports from `first` on: the high class with a budget of
/// 1 ms, the medium class with 50 ms and the low class with 100 ms.
pub open spec fn are_local(sockets: Seq<SocketConfig>, first: int) -> bool {
    &&& sockets.len() == 3
    &&& is_local(sockets[0], first, 1, Priority::High)
    &&& is_local(sockets[1], first + 1, 50, Priority::Medium)
    &&& is_local(sockets[2], first + 2, 100, Priority::Low)
}

/// The sockets that packets come in through.
pub fn input_sockets() -> (sockets: Vec<SocketConfig>)
    ensures
        are_local(sockets@, 8080),
{
    vec![
        local_socket(8080, 1, Priority::High),
        local_socket(8081, 50, Priority::Medium),
        local_socket(8082, 100, Priority::Low),
    ]
}

/// The sockets that packets go out to.
pub fn output_sockets() -> (sockets: Vec<SocketConfig>)
    ensures
        are_local(sockets@, 9080),
{
    vec![
        local_socket(9080, 1, Priority::High),
        local_socket(9081, 50, Priority::Medium),
        local_socket(9082, 100, Priority::Low),
    ]
}

/// The budget of the last of the sockets that is of class `priority`, or `otherwise`.
pub open spec fn last_budget(
    sockets: Seq<SocketConfig>,
    priority: Priority,
    otherwise: Duration,
) -> Duration
    decreases sockets.len(),
{
    if sockets.len() == 0 {
        otherwise
    } else if sockets.last().priority == priority {
        sockets.last().latency_budget
    } else {
        last_budget(sockets.drop_last(), priority, otherwise)
    }
}

/// The least of the budgets of the sockets of class `priority` and of `otherwise`.
pub open spec fn least_budget(
    sockets: Seq<SocketConfig>,
    priority: Priority,
    otherwise: Duration,
) -> Duration
    decreases sockets.len(),
{
    if sockets.len() == 0 {
        otherwise
    } else {
        let rest = least_budget(sockets.drop_last(), priority, otherwise);
        if sockets.last().priority == priority && sockets.last().latency_budget.nanos < rest.nanos {
            sockets.last().latency_budget
        } else {
            rest
        }
    }
}

/// Budget of a class without sockets.
pub open spec fn default_budget() -> Duration {
    Duration { nanos: (DEFAULT_BUDGET_MS * NANOS_PER_MILLI) as u64 }
}

fn find_last_budget(sockets: &Vec<SocketConfig>, priority: Priority, otherwise: Duration) -> (budget:
    Duration)
    ensures
        budget == last_budget(sockets@, priority, otherwise),
{
    let mut budget = otherwise;
    let mut i: usize = 0;
    while i < sockets.len()
        invariant
            i <= sockets@.len(),
            budget == last_budget(sockets@.take(i as int), priority, otherwise),
        decreases sockets@.len() - i,
    {
        assert(sockets@.take(i + 1).drop_last() =~= sockets@.take(i as int));
        if sockets[i].priority == priority {
            budget = sockets[i].latency_budget;
        }
        i = i + 1;
    }
    assert(sockets@.take(i as int) =~= sockets@);
    budget
}

fn find_least_budget(
    sockets: &Vec<SocketConfig>,
    priority: Priority,
    otherwise: Duration,
) -> (budget: Duration)
    ensures
        budget == least_budget(sockets@, priority, otherwise),
{
    let mut budget = otherwise;
    let mut i: usize = 0;
    while i < sockets.len()
        invariant
            i <= sockets@.len(),
            budget == least_budget(sockets@.take(i as int), priority, otherwise),
        decreases sockets@.len() - i,
    {
        assert(sockets@.take(i + 1).drop_last() =~= sockets@.take(i as int));
        if sockets[i].priority == priority && sockets[i].latency_budget.nanos < budget.nanos {
            budget = sockets[i].latency_budget;
        }
        i = i + 1;
    }
    assert(sockets@.take(i as int) =~= sockets@);
    budget
}

/// The latency budget of a class: that of its last output socket, or of its last input socket where
/// it has none, or the default.
pub open spec fn budget_of(
    inputs: Seq<SocketConfig>,
    outputs: Seq<SocketConfig>,
    priority: Priority,
) -> Duration {
    last_budget(outputs, priority, last_budget(inputs, priority, default_budget()))
}

/// The latency that is expected of a class at most: the budget of its last input socket, or less where
/// an output socket has less.
pub open spec fn expected_of(
    inputs: Seq<SocketConfig>,
    outputs: Seq<SocketConfig>,
    priority: Priority,
) -> Duration {
    least_budget(outputs, priority, last_budget(inputs, priority, default_budget()))
}

/// The latency budget of each class: that of its last output socket, or of its last input socket
/// where it has none, or 200 ms.
pub fn latency_table(inputs: &Vec<SocketConfig>, outputs: &Vec<SocketConfig>) -> (table:
    PriorityTable<Duration>)
    ensures
        forall|p: Priority| #[trigger]
            table.at(p) == last_budget(outputs@, p, last_budget(inputs@, p, default_budget())),
        forall|p: Priority| #[trigger] table.at(p) == budget_of(inputs@, outputs@, p),
{
    let none = Duration::from_millis(DEFAULT_BUDGET_MS);
    PriorityTable::of(
        find_last_budget(
            outputs,
            Priority::High,
            find_last_budget(inputs, Priority::High, none),
        ),
        find_last_budget(
            outputs,
            Priority::Medium,
            find_last_budget(inputs, Priority::Medium, none),
        ),
        find_last_budget(outputs, Priority::Low, find_last_budget(inputs, Priority::Low, none)),
        find_last_budget(
            outputs,
            Priority::BestEffort,
            find_last_budget(inputs, Priority::BestEffort, none),
        ),
    )
}

/// The latency that is expected of each class at most: the budget of its last input socket, or less
/// where an output socket has less.
pub fn expected_latencies(inputs: &Vec<SocketConfig>, outputs: &Vec<SocketConfig>) -> (table:
    PriorityTable<Duration>)
    ensures
        forall|p: Priority| #[trigger]
            table.at(p) == least_budget(outputs@, p, last_budget(inputs@, p, default_budget())),
        forall|p: Priority| #[trigger] table.at(p) == expected_of(inputs@, outputs@, p),
{
    let none = Duration::from_millis(DEFAULT_BUDGET_MS);
    PriorityTable::of(
        find_least_budget(
            outputs,
            Priority::High,
            find_last_budget(inputs, Priority::High, none),
        ),
        find_least_budget(
            outputs,
            Priority::Medium,
            find_last_budget(inputs, Priority::Medium, none),
        ),
        find_least_budget(outputs, Priority::Low, find_last_budget(inputs, Priority::Low, none)),
        find_least_budget(
            outputs,
            Priority::BestEffort,
            find_last_budget(inputs, Priority::BestEffort, none),
        ),
    )
}

/// Whether it is time for the next report.
pub open spec fn is_time_to_report(last: Instant, now: Instant) -> bool {
    now.nanos >= last.nanos + REPORT_INTERVAL_MS * NANOS_PER_MILLI
}

/// Whether the next report is due.
pub fn report_is_due(last: Instant, now: Instant) -> (due: bool)
    ensures
        due == (now.nanos >= last.nanos + REPORT_INTERVAL_MS * NANOS_PER_MILLI),
        due == is_time_to_report(last, now),
{
    now.nanos >= last.nanos && now.nanos - last.nanos >= REPORT_INTERVAL_MS * NANOS_PER_MILLI
}

/// Makes a channel of the given capacity for each class.
pub fn build_priority_channels(capacities: &PriorityTable<usize>) -> (ends: (
    PriorityTable<Sender<Packet>>,
    PriorityTable<Receiver<Packet>>,
))
    requires
        forall|p: Priority| #[trigger] capacities.at(p) <= MAX_CHANNEL_CAPACITY,
    ensures
        forall|p: Priority|
            channel::sole_ends(#[trigger] ends.0.at(p), ends.1.at(p)) && channel::channel_of(
                ends.0.at(p),
            ) == channel::source_of(ends.1.at(p)),
        forall|p: Priority| channel::sent(#[trigger] ends.0.at(p)) == Seq::<Packet>::empty(),
        forall|p: Priority| channel::taken(#[trigger] ends.1.at(p)) == Seq::<Packet>::empty(),
        forall|p: Priority|
            channel::limit(#[trigger] ends.0.at(p)) == Some(capacities.at(p) as nat),
{
    let (high_tx, high_rx) = channel::bounded(*capacities.get(Priority::High));
    let (medium_tx, medium_rx) = channel::bounded(*capacities.get(Priority::Medium));
    let (low_tx, low_rx) = channel::bounded(*capacities.get(Priority::Low));
    let (best_effort_tx, best_effort_rx) = channel::bounded(*capacities.get(Priority::BestEffort));
    (
        PriorityTable::of(high_tx, medium_tx, low_tx, best_effort_tx),
        PriorityTable::of(high_rx, medium_rx, low_rx, best_effort_rx),
    )
}

/// The scheduler of a pipeline.
pub enum Scheduler {
    Single(EDFScheduler),
    MultiWorker(MultiWorkerScheduler),
    Global(GEDFScheduler),
    GlobalVD(GEDFVDScheduler),
    Clairvoyant(CEDFScheduler),
    MCEDFElastic(MCEDFElasticScheduler),
    SingleCPUEDF(SingleCPUEDFScheduler),
}

impl Scheduler {
    pub open spec fn spec_kind(&self) -> SchedulerKind {
        match self {
            Scheduler::Single(_) => SchedulerKind::Single,
            Scheduler::MultiWorker(_) => SchedulerKind::MultiWorker,
            Scheduler::Global(_) => SchedulerKind::Global,
            Scheduler::GlobalVD(_) => SchedulerKind::GlobalVD,
            Scheduler::Clairvoyant(_) => SchedulerKind::Clairvoyant,
            Scheduler::MCEDFElastic(_) => SchedulerKind::MCEDFElastic,
            Scheduler::SingleCPUEDF(_) => SchedulerKind::SingleCPUEDF,
        }
    }

    pub open spec fn wf(&self) -> bool {
        match self {
            Scheduler::Single(_) => true,
            Scheduler::MultiWorker(scheduler) => scheduler.wf(),
            Scheduler::Global(scheduler) => scheduler.wf(),
            Scheduler::GlobalVD(scheduler) => scheduler.wf(),
            Scheduler::Clairvoyant(scheduler) => scheduler.wf(),
            Scheduler::MCEDFElastic(scheduler) => scheduler.medium.wf() && scheduler.low.wf(),
            Scheduler::SingleCPUEDF(_) => true,
        }
    }

    /// Where packets come in. The workers of one kind each have handles of their own, and one kind
    /// reads sockets instead.
    pub open spec fn inputs(&self) -> Option<PriorityTable<Receiver<Packet>>> {
        match self {
            Scheduler::Single(scheduler) => Some(scheduler.input_queues),
            Scheduler::MultiWorker(_) => None,
            Scheduler::Global(scheduler) => Some(scheduler.shared_queue.input_queues),
            Scheduler::GlobalVD(scheduler) => Some(scheduler.shared_queue.input_queues),
            Scheduler::Clairvoyant(scheduler) => Some(scheduler.input_queues),
            Scheduler::MCEDFElastic(scheduler) => Some(scheduler.dispatcher.input_queues),
            Scheduler::SingleCPUEDF(_) => None,
        }
    }

    /// Where packets go out.
    pub open spec fn outputs(&self) -> PriorityTable<Sender<Packet>> {
        match self {
            Scheduler::Single(scheduler) => scheduler.output_queues,
            Scheduler::MultiWorker(scheduler) => scheduler.completion.output_queues,
            Scheduler::Global(scheduler) => scheduler.shared_queue.output_queues,
            Scheduler::GlobalVD(scheduler) => scheduler.shared_queue.output_queues,
            Scheduler::Clairvoyant(scheduler) => scheduler.output_queues,
            Scheduler::MCEDFElastic(scheduler) => scheduler.reorder.merge.output_queues,
            Scheduler::SingleCPUEDF(scheduler) => scheduler.output_queues,
        }
    }

    /// Whether all that the scheduler takes in of class `priority` comes out of `channel`. The
    /// scheduler that reads the sockets itself takes nothing out of channels.
    pub open spec fn reads(&self, priority: Priority, channel: int) -> bool {
        match self {
            Scheduler::Single(scheduler) => channel::source_of(scheduler.input_queues.at(priority))
                == channel,
            Scheduler::MultiWorker(scheduler) => forall|w: int|
                0 <= w < WORKER_COUNT ==> channel::source_of(
                    (#[trigger] scheduler.workers@[w]).inputs.at(priority),
                ) == channel,
            Scheduler::Global(scheduler) => channel::source_of(
                scheduler.shared_queue.input_queues.at(priority),
            ) == channel,
            Scheduler::GlobalVD(scheduler) => channel::source_of(
                scheduler.shared_queue.input_queues.at(priority),
            ) == channel,
            Scheduler::Clairvoyant(scheduler) => channel::source_of(
                scheduler.input_queues.at(priority),
            ) == channel,
            Scheduler::MCEDFElastic(scheduler) => channel::source_of(
                scheduler.dispatcher.input_queues.at(priority),
            ) == channel,
            Scheduler::SingleCPUEDF(_) => true,
        }
    }

    /// Whether the scheduler is as it was made: it holds no packet, has dropped none, and has learnt
    /// nothing from any.
    pub open spec fn at_rest(&self) -> bool {
        match self {
            Scheduler::Single(scheduler) => {
                &&& forall|p: Priority| (#[trigger] scheduler.pending.at(p)) is None
                &&& forall|p: Priority| #[trigger] scheduler.output_drop_counters.at(p) == 0
            },
            Scheduler::MultiWorker(scheduler) => {
                &&& forall|w: int|
                    0 <= w < WORKER_COUNT ==> (#[trigger] scheduler.workers@[w]).queue@.len() == 0
                        && scheduler.workers@[w].backlog == 0
                &&& forall|p: Priority| #[trigger] scheduler.completion.drop_counters.at(p) == 0
                &&& forall|p: Priority|
                    (#[trigger] scheduler.completion.trackers.at(p)).upcoming() == 0
                &&& forall|p: Priority|
                    (#[trigger] scheduler.completion.trackers.at(p)).progress() == (Progress {
                        next_emit: 0,
                        pending: Map::empty(),
                    })
                &&& scheduler.adaptive.is_initial()
            },
            Scheduler::Global(scheduler) => {
                &&& scheduler.shared_queue.heap@.len() == 0
                &&& forall|p: Priority| #[trigger] scheduler.shared_queue.drop_counters.at(p) == 0
            },
            Scheduler::GlobalVD(scheduler) => {
                &&& scheduler.shared_queue.heap@.len() == 0
                &&& forall|p: Priority| #[trigger] scheduler.shared_queue.drop_counters.at(p) == 0
            },
            Scheduler::Clairvoyant(scheduler) => {
                &&& scheduler.workers@.len() == 0
                &&& forall|p: Priority| #[trigger] scheduler.drop_counters.at(p) == 0
                &&& scheduler.medium_latency_tracker.window() == Seq::<u64>::empty()
                &&& scheduler.low_latency_tracker.window() == Seq::<u64>::empty()
            },
            Scheduler::MCEDFElastic(scheduler) => {
                &&& scheduler.linked()
                &&& scheduler.is_fresh()
                &&& scheduler.high.fifo@.len() == 0
                &&& scheduler.medium.heap@.len() == 0
                &&& scheduler.low.heap@.len() == 0
                &&& forall|p: Priority| (#[trigger] scheduler.reorder.merge.pending.at(p)) is None
                &&& scheduler.high.drops == 0
                &&& scheduler.medium.drops == 0
                &&& scheduler.low.drops == 0
                &&& forall|p: Priority|
                    #[trigger] scheduler.reorder.merge.output_drop_counters.at(p) == 0
            },
            Scheduler::SingleCPUEDF(scheduler) => {
                &&& forall|p: Priority| (#[trigger] scheduler.edf_queues.at(p))@.len() == 0
                &&& forall|p: Priority| (#[trigger] scheduler.socket_budgets.at(p))@.len() == 0
                &&& forall|p: Priority| #[trigger] scheduler.output_drop_counters.at(p) == 0
            },
        }
    }

    /// Whether no packet has been taken from the inputs yet.
    pub open spec fn has_taken_nothing(&self) -> bool {
        match self {
            Scheduler::MultiWorker(scheduler) => forall|w: int, p: Priority|
                0 <= w < WORKER_COUNT ==> channel::taken(
                    #[trigger] scheduler.workers@[w].inputs.at(p),
                ) == Seq::<Packet>::empty(),
            _ => self.inputs() matches Some(inputs) ==> forall|p: Priority|
                channel::taken(#[trigger] inputs.at(p)) == Seq::<Packet>::empty(),
        }
    }

    /// Makes a scheduler of the given kind between the given channels. The workers of the kind with
    /// several handles take from the same channels as the handle that is given.
    pub fn build(
        kind: SchedulerKind,
        inputs: PriorityTable<Receiver<Packet>>,
        outputs: PriorityTable<Sender<Packet>>,
        latencies: PriorityTable<Duration>,
        max_heap_size: usize,
    ) -> (scheduler: Scheduler)
        ensures
            scheduler.spec_kind() == kind,
            scheduler.wf(),
            scheduler.outputs() == outputs,
            scheduler.inputs() matches Some(table) ==> table == inputs,
            forall|p: Priority|
                scheduler.reads(p, channel::source_of(#[trigger] inputs.at(p))),
            scheduler.at_rest(),
            (forall|p: Priority|
                channel::taken(#[trigger] inputs.at(p)) == Seq::<Packet>::empty())
                ==> scheduler.has_taken_nothing(),
            scheduler matches Scheduler::Single(edf) ==> edf.max_heap_size == max_heap_size,
            scheduler matches Scheduler::MultiWorker(edf) ==> edf.expected_latencies == latencies,
    {
        broadcast use vstd::multiset::group_multiset_axioms;

        match kind {
            SchedulerKind::Single => Scheduler::Single(
                EDFScheduler::new(inputs, outputs, max_heap_size),
            ),
            SchedulerKind::MultiWorker => Scheduler::MultiWorker(
                MultiWorkerScheduler::new(inputs, outputs, latencies),
            ),
            SchedulerKind::Global => Scheduler::Global(GEDFScheduler::new(inputs, outputs)),
            SchedulerKind::GlobalVD => Scheduler::GlobalVD(GEDFVDScheduler::new(inputs, outputs)),
            SchedulerKind::Clairvoyant => Scheduler::Clairvoyant(
                CEDFScheduler::new(inputs, outputs),
            ),
            SchedulerKind::MCEDFElastic => Scheduler::MCEDFElastic(
                MCEDFElasticScheduler::new(inputs, outputs),
            ),
            SchedulerKind::SingleCPUEDF => Scheduler::SingleCPUEDF(
                SingleCPUEDFScheduler::new(outputs),
            ),
        }
    }
}

/// The stages of a pipeline, linked and at rest.
pub struct Pipeline {
    pub config: PipelineConfig,
    pub input_sockets: Vec<SocketConfig>,
    pub output_sockets: Vec<SocketConfig>,
    pub ingress_drr: IngressDRRScheduler,
    pub scheduler: Scheduler,
    pub egress_drr: EgressDRRScheduler,
    pub metrics_collector: MetricsCollector,
    /// Where reports come out.
    pub metrics_receiver: Receiver<HashMap<u64, MetricsSnapshot>>,
}

impl Pipeline {
    /// Whether the stages are linked by channels of their own: what the way in sends, the scheduler
    /// takes, and what that sends, the way out takes.
    pub open spec fn linked(&self) -> bool {
        &&& self.scheduler.inputs() matches Some(inputs) ==> forall|p: Priority|
            channel::sole_ends(#[trigger] self.ingress_drr.priority_queues.at(p), inputs.at(p))
        &&& forall|p: Priority|
            self.scheduler.reads(
                p,
                channel::channel_of(#[trigger] self.ingress_drr.priority_queues.at(p)),
            )
        &&& forall|p: Priority|
            channel::sole_ends(
                #[trigger] self.scheduler.outputs().at(p),
                self.egress_drr.priority_receivers.at(p),
            )
        &&& forall|p: Priority|
            channel::channel_of(#[trigger] self.scheduler.outputs().at(p)) == channel::source_of(
                self.egress_drr.priority_receivers.at(p),
            )
        &&& report_ends(self.metrics_collector.aggregator.metrics_tx, self.metrics_receiver)
    }

    /// Builds the pipeline that a configuration describes. No socket is registered yet.
    pub fn new(config: PipelineConfig) -> (pipeline: Pipeline)
        requires
            config.buildable(),
        ensures
            pipeline.config == config,
            are_local(pipeline.input_sockets@, 8080),
            are_local(pipeline.output_sockets@, 9080),
            pipeline.linked(),
            pipeline.scheduler.wf(),
            pipeline.scheduler.at_rest(),
            pipeline.scheduler.has_taken_nothing(),
            forall|p: Priority|
                channel::sent(#[trigger] pipeline.ingress_drr.priority_queues.at(p)) == Seq::<
                    Packet,
                >::empty(),
            forall|p: Priority|
                channel::sent(#[trigger] pipeline.scheduler.outputs().at(p)) == Seq::<
                    Packet,
                >::empty(),
            forall|p: Priority|
                channel::taken(#[trigger] pipeline.egress_drr.priority_receivers.at(p)) == Seq::<
                    Packet,
                >::empty(),
            pipeline.scheduler.spec_kind() == config.scheduler,
            pipeline.scheduler matches Scheduler::Single(edf) ==> edf.max_heap_size
                == config.edf.max_heap_size,
            pipeline.scheduler matches Scheduler::MultiWorker(edf) ==> forall|p: Priority|
                #[trigger] edf.expected_latencies.at(p) == last_budget(
                    pipeline.output_sockets@,
                    p,
                    last_budget(pipeline.input_sockets@, p, default_budget()),
                ),
            forall|p: Priority|
                channel::limit(#[trigger] pipeline.ingress_drr.priority_queues.at(p)) == Some(
                    config.queues.ingress_to_edf.at(p) as nat,
                ),
            forall|p: Priority|
                channel::limit(#[trigger] pipeline.scheduler.outputs().at(p)) == Some(
                    config.queues.edf_to_egress.at(p) as nat,
                ),
            forall|p: Priority| (#[trigger] pipeline.ingress_drr.flows.at(p)) is None,
            pipeline.ingress_drr.current_flow_index == 0,
            forall|p: Priority| #[trigger] pipeline.ingress_drr.drop_counters.at(p) == 0,
            forall|p: Priority| #[trigger] pipeline.egress_drr.output_sockets.at(p) == 0,
            forall|p: Priority| #[trigger] pipeline.egress_drr.socket_indices.at(p) == 0,
            forall|p: Priority| (#[trigger] pipeline.egress_drr.last_packet_ids.at(p)) is None,
            pipeline.metrics_collector.linked(),
            pipeline.metrics_collector.waiting() == Seq::<MetricsEvent>::empty(),
            event_limit(pipeline.metrics_collector.recorder.events_tx) == EVENT_CAPACITY,
            forall|p: Priority| (#[trigger] pipeline.metrics_collector.aggregator.metrics.at(
                p,
            )) is None,
            pipeline.metrics_collector.aggregator.worker_stats is None,
    {
        let inputs = input_sockets();
        let outputs = output_sockets();
        let latencies = latency_table(&inputs, &outputs);
        let (ingress_txs, ingress_rxs) = build_priority_channels(&config.queues.ingress_to_edf);
        let (output_txs, output_rxs) = build_priority_channels(&config.queues.edf_to_egress);
        let (metrics_tx, metrics_receiver) = report_channel();
        let scheduler = Scheduler::build(
            config.scheduler,
            ingress_rxs,
            output_txs,
            latencies,
            config.edf.max_heap_size,
        );
        Pipeline {
            config,
            input_sockets: inputs,
            output_sockets: outputs,
            ingress_drr: IngressDRRScheduler::new(ingress_txs),
            scheduler,
            egress_drr: EgressDRRScheduler::new(output_rxs),
            metrics_collector: MetricsCollector::new(metrics_tx),
            metrics_receiver,
        }
    }

    /// Registers the socket that was bound for input socket number `index`, with the scheduler where
    /// it reads sockets itself and with the way in otherwise. Gives its number within its class.
    pub fn register_input(&mut self, index: usize) -> (socket: usize)
        requires
            index < old(self).input_sockets@.len(),
            old(self).ingress_drr.flows.at(
                old(self).input_sockets@[index as int].priority,
            ) matches Some(flow) ==> flow.sockets < usize::MAX,
        ensures
            ({
                let config = old(self).input_sockets@[index as int];
                let class = config.priority;
                match (old(self).scheduler, final(self).scheduler) {
                    (Scheduler::SingleCPUEDF(before), Scheduler::SingleCPUEDF(after)) => {
                        &&& after.socket_budgets.at(class)@ == before.socket_budgets.at(
                            class,
                        )@.push(config.latency_budget)
                        &&& socket == before.socket_budgets.at(class)@.len()
                        &&& forall|p: Priority|
                            p != class ==> #[trigger] after.socket_budgets.at(p)
                                == before.socket_budgets.at(p)
                        &&& after.edf_queues == before.edf_queues
                        &&& after.output_queues == before.output_queues
                        &&& after.output_drop_counters == before.output_drop_counters
                        &&& final(self).ingress_drr == old(self).ingress_drr
                    },
                    _ => {
                        &&& final(self).scheduler == old(self).scheduler
                        &&& final(self).ingress_drr.flows.at(class) == Some(
                            match old(self).ingress_drr.flows.at(class) {
                                None => FlowState {
                                    quantum: old(self).config.ingress.quantums.at(class),
                                    deficit: 0,
                                    latency_budget: config.latency_budget,
                                    sockets: 1,
                                },
                                Some(flow) => FlowState {
                                    sockets: (flow.sockets + 1) as usize,
                                    ..flow
                                },
                            },
                        )
                        &&& final(self).ingress_drr.flows.at(class).unwrap().sockets == socket + 1
                        &&& forall|p: Priority|
                            p != class ==> #[trigger] final(self).ingress_drr.flows.at(p) == old(
                                self).ingress_drr.flows.at(p)
                        &&& final(self).ingress_drr.priority_queues == old(
                            self).ingress_drr.priority_queues
                        &&& final(self).ingress_drr.current_flow_index == old(
                            self).ingress_drr.current_flow_index
                        &&& final(self).ingress_drr.drop_counters == old(
                            self).ingress_drr.drop_counters
                    },
                }
            }),
            final(self).scheduler.spec_kind() == old(self).scheduler.spec_kind(),
            final(self).config == old(self).config,
            final(self).input_sockets == old(self).input_sockets,
            final(self).output_sockets == old(self).output_sockets,
            final(self).egress_drr == old(self).egress_drr,
            final(self).metrics_collector == old(self).metrics_collector,
            final(self).metrics_receiver == old(self).metrics_receiver,
    {
        let priority = self.input_sockets[index].priority;
        let latency_budget = self.input_sockets[index].latency_budget;
        match &mut self.scheduler {
            Scheduler::SingleCPUEDF(scheduler) => scheduler.add_socket(priority, latency_budget),
            _ => {
                let quantum: usize = *self.config.ingress.quantums.get(priority);
                self.ingress_drr.add_socket(priority, latency_budget, quantum)
            },
        }
    }
}

/// Law: reports come every tenth of a second.
pub proof fn law_reports_come_every_tenth_of_a_second(last: Instant, now: Instant)
    ensures
        is_time_to_report(last, now) <==> now.nanos - last.nanos >= 100_000_000,
{
}

/// Law: the budget of a class is that of the last socket that is registered for it: a further socket of
/// the class replaces it, one of another class does not, and a class without sockets has what is
/// given otherwise, 200 ms by default.
pub proof fn law_the_last_socket_sets_the_budget(
    sockets: Seq<SocketConfig>,
    socket: SocketConfig,
    priority: Priority,
    otherwise: Duration,
)
    ensures
        last_budget(Seq::empty(), priority, otherwise) == otherwise,
        socket.priority == priority ==> last_budget(sockets.push(socket), priority, otherwise)
            == socket.latency_budget,
        socket.priority != priority ==> last_budget(sockets.push(socket), priority, otherwise)
            == last_budget(sockets, priority, otherwise),
        default_budget().nanos == 200_000_000,
{
    assert(sockets.push(socket).drop_last() =~= sockets);
}

/// Law: the latency expected of a class is no more than any budget of its sockets or than what is given
/// otherwise, and is one of these; sockets of other classes do not count.
pub proof fn law_the_least_budget_is_expected(
    sockets: Seq<SocketConfig>,
    priority: Priority,
    otherwise: Duration,
)
    ensures
        least_budget(sockets, priority, otherwise).nanos <= otherwise.nanos,
        forall|i: int|
            0 <= i < sockets.len() && (#[trigger] sockets[i]).priority == priority ==> least_budget(
                sockets,
                priority,
                otherwise,
            ).nanos <= sockets[i].latency_budget.nanos,
        least_budget(sockets, priority, otherwise) == otherwise || exists|i: int|
            0 <= i < sockets.len() && (#[trigger] sockets[i]).priority == priority && least_budget(
                sockets,
                priority,
                otherwise,
            ) == sockets[i].latency_budget,
    decreases sockets.len(),
{
    if sockets.len() > 0 {
        let rest = sockets.drop_last();
        let n = sockets.len() - 1;
        law_the_least_budget_is_expected(rest, priority, otherwise);
        assert forall|i: int|
            0 <= i < sockets.len() && (#[trigger] sockets[i]).priority == priority implies least_budget(
            sockets,
            priority,
            otherwise,
        ).nanos <= sockets[i].latency_budget.nanos by {
            if i < n {
                assert(rest[i] == sockets[i]);
            }
        }
        assert(sockets[n] == sockets.last());
        let least = least_budget(rest, priority, otherwise);
        if least != otherwise {
            let i = choose|i: int|
                0 <= i < rest.len() && (#[trigger] rest[i]).priority == priority && least
                    == rest[i].latency_budget;
            assert(sockets[i] == rest[i]);
        }
    }
}

/// Law: workers without cores of their own run on the dispatcher's core, and otherwise on theirs.
pub proof fn law_workers_have_a_core(cores: CoreAssignment)
    ensures
        cores.spec_worker_cores().len() > 0,
        cores.edf_workers@.len() > 0 ==> cores.spec_worker_cores() == cores.edf_workers@,
        cores.edf_workers@.len() == 0 ==> cores.spec_worker_cores().len() == 1
            && cores.spec_worker_cores()[0] == cores.edf_dispatcher,
{
}

/// Law: by default the channels of the high class hold 16 packets and those of the others 128; in a
/// round the high class may read 64 packets, eight times as many as the medium class, and the others
/// one each.
pub proof fn law_defaults_favour_the_high_class(priority: Priority)
    ensures
        default_capacity(Priority::High) == 16,
        priority != Priority::High ==> default_capacity(priority) == 128,
        default_quantum(Priority::High) == 64,
        default_quantum(Priority::High) == 8 * default_quantum(Priority::Medium),
        priority == Priority::Low || priority == Priority::BestEffort ==> default_quantum(priority)
            == 1,
{
}

/// Law: the local sockets are one for each class but the best-effort one, on three ports in a row of the
/// local host, with budgets of 1 ms, 50 ms and 100 ms, the more critical class with the smaller.
pub proof fn law_local_sockets_are_three_in_a_row(sockets: Seq<SocketConfig>, first: int)
    requires
        are_local(sockets, first),
    ensures
        sockets.len() == 3,
        forall|i: int|
            0 <= i < 3 ==> (#[trigger] sockets[i]).port == first + i && sockets[i].priority.rank()
                == i && sockets[i].address@ == "127.0.0.1"@,
        sockets[0].latency_budget.nanos == 1_000_000,
        sockets[1].latency_budget.nanos == 50 * sockets[0].latency_budget.nanos,
        sockets[2].latency_budget.nanos == 2 * sockets[1].latency_budget.nanos,
        last_budget(sockets, Priority::High, default_budget()).nanos == 1_000_000,
        last_budget(sockets, Priority::Medium, default_budget()).nanos == 50_000_000,
        last_budget(sockets, Priority::Low, default_budget()).nanos == 100_000_000,
        last_budget(sockets, Priority::BestEffort, default_budget()).nanos == 200_000_000,
{
    reveal_with_fuel(last_budget, 4);
    let two = sockets.drop_last();
    let one = two.drop_last();
    assert(two.last() == sockets[1]);
    assert(one.last() == sockets[0]);
    assert(one.drop_last().len() == 0);
}

/// Law: workers take their cores in turn: each of the first ones has a core of the list to itself, and
/// those beyond begin again with the first. The high class has the first core, the other channels the
/// second where there is one.
pub proof fn law_workers_take_cores_in_turn(cores: CoreAssignment, worker: int)
    requires
        worker >= 0,
    ensures
        worker < cores.spec_worker_cores().len() ==> cores.core_at(worker)
            == cores.spec_worker_cores()[worker],
        cores.core_at(worker + cores.spec_worker_cores().len()) == cores.core_at(worker),
        cores.spec_channel_cores().0 == cores.core_at(0),
        cores.spec_channel_cores().1 == cores.core_at(1),
{
    let n = cores.spec_worker_cores().len() as int;
    vstd::arithmetic::div_mod::lemma_mod_add_multiples_vanish(worker, n);
    assert((worker + n) % n == worker % n) by {
        assert((n + worker) % n == worker % n);
    }
    if worker < n {
        vstd::arithmetic::div_mod::lemma_small_mod(worker as nat, n as nat);
    }
    vstd::arithmetic::div_mod::lemma_small_mod(0, n as nat);
    if n > 1 {
        vstd::arithmetic::div_mod::lemma_small_mod(1, n as nat);
    } else {
        assert(1int % 1 == 0);
    }
}

/// Law: a scheduler is of the kind that its name says.
pub proof fn law_schedulers_are_of_their_kind(scheduler: Scheduler)
    ensures
        scheduler is Single <==> scheduler.spec_kind() == SchedulerKind::Single,
        scheduler is MultiWorker <==> scheduler.spec_kind() == SchedulerKind::MultiWorker,
        scheduler is Global <==> scheduler.spec_kind() == SchedulerKind::Global,
        scheduler is GlobalVD <==> scheduler.spec_kind() == SchedulerKind::GlobalVD,
        scheduler is Clairvoyant <==> scheduler.spec_kind() == SchedulerKind::Clairvoyant,
        scheduler is MCEDFElastic <==> scheduler.spec_kind() == SchedulerKind::MCEDFElastic,
        scheduler is SingleCPUEDF <==> scheduler.spec_kind() == SchedulerKind::SingleCPUEDF,
{
}

/// Law: the stages of a linked pipeline hand packets on class by class: what the way in sends of a class
/// is what the scheduler takes in of it, and what that sends is what the way out takes.
pub proof fn law_stages_hand_on_class_by_class(pipeline: Pipeline, priority: Priority)
    requires
        pipeline.linked(),
    ensures
        channel::channel_of(pipeline.scheduler.outputs().at(priority)) == channel::source_of(
            pipeline.egress_drr.priority_receivers.at(priority),
        ),
        pipeline.scheduler matches Scheduler::Global(scheduler) ==> channel::source_of(
            scheduler.shared_queue.input_queues.at(priority),
        ) == channel::channel_of(pipeline.ingress_drr.priority_queues.at(priority)),
        pipeline.scheduler matches Scheduler::Single(scheduler) ==> channel::source_of(
            scheduler.input_queues.at(priority),
        ) == channel::channel_of(pipeline.ingress_drr.priority_queues.at(priority)),
        pipeline.scheduler matches Scheduler::GlobalVD(scheduler) ==> channel::source_of(
            scheduler.shared_queue.input_queues.at(priority),
        ) == channel::channel_of(pipeline.ingress_drr.priority_queues.at(priority)),
        pipeline.scheduler matches Scheduler::Clairvoyant(scheduler) ==> channel::source_of(
            scheduler.input_queues.at(priority),
        ) == channel::channel_of(pipeline.ingress_drr.priority_queues.at(priority)),
        pipeline.scheduler matches Scheduler::MCEDFElastic(scheduler) ==> channel::source_of(
            scheduler.dispatcher.input_queues.at(priority),
        ) == channel::channel_of(pipeline.ingress_drr.priority_queues.at(priority)),
        pipeline.scheduler matches Scheduler::MultiWorker(scheduler) ==> forall|w: int|
            0 <= w < 3 ==> channel::source_of(
                (#[trigger] scheduler.workers@[w]).inputs.at(priority),
            ) == channel::channel_of(pipeline.ingress_drr.priority_queues.at(priority)),
{
    assert(pipeline.scheduler.reads(
        priority,
        channel::channel_of(pipeline.ingress_drr.priority_queues.at(priority)),
    ));
    assert(channel::channel_of(pipeline.scheduler.outputs().at(priority)) == channel::source_of(
        pipeline.egress_drr.priority_receivers.at(priority),
    ));
}

/// Law: the sockets on the way out tell more of the budget of a class than those on the way in: the last
/// of them sets it, and only where the class has none does the last input socket, and only where it has
/// none either the default of 200 ms.
pub proof fn law_output_sockets_set_the_budget_first(
    inputs: Seq<SocketConfig>,
    outputs: Seq<SocketConfig>,
    socket: SocketConfig,
    priority: Priority,
)
    ensures
        socket.priority == priority ==> budget_of(inputs, outputs.push(socket), priority)
            == socket.latency_budget,
        socket.priority == priority ==> budget_of(inputs.push(socket), Seq::empty(), priority)
            == socket.latency_budget,
        socket.priority != priority ==> budget_of(inputs, outputs.push(socket), priority)
            == budget_of(inputs, outputs, priority),
        budget_of(Seq::empty(), Seq::empty(), priority).nanos == 200_000_000,
{
    assert(outputs.push(socket).drop_last() =~= outputs);
    assert(inputs.push(socket).drop_last() =~= inputs);
}

/// Law: the latency expected of a class is no more than the budget of its last input socket, nor than that
/// of any of its output sockets, and is one of these.
pub proof fn law_expectation_is_the_tightest_budget(
    inputs: Seq<SocketConfig>,
    outputs: Seq<SocketConfig>,
    socket: SocketConfig,
    priority: Priority,
    i: int,
)
    requires
        socket.priority == priority,
    ensures
        expected_of(inputs.push(socket), outputs, priority).nanos <= socket.latency_budget.nanos,
        0 <= i < outputs.len() && outputs[i].priority == priority ==> expected_of(
            inputs.push(socket),
            outputs,
            priority,
        ).nanos <= outputs[i].latency_budget.nanos,
        expected_of(inputs.push(socket), Seq::empty(), priority) == socket.latency_budget,
        expected_of(inputs.push(socket), outputs, priority) == socket.latency_budget || exists|j: int|
            0 <= j < outputs.len() && (#[trigger] outputs[j]).priority == priority && expected_of(
                inputs.push(socket),
                outputs,
                priority,
            ) == outputs[j].latency_budget,
{
    assert(inputs.push(socket).drop_last() =~= inputs);
    law_the_least_budget_is_expected(outputs, priority, socket.latency_budget);
}

} // verus!
