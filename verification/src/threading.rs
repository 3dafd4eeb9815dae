//! How the importance of a thread is told to the operating system.

use vstd::prelude::*;

verus! {

/// Number of cores, from the first, that the process runs on.
pub const PROCESS_CORES: usize = 3;

/// How the operating system chooses between threads.
#[derive(Debug, Clone, Copy, PartialEq, Eq, Structural)]
pub enum SchedulingPolicy {
    /// First in, first out, ahead of all ordinary threads.
    Fifo,
    /// Turn by turn, ahead of all ordinary threads.
    RoundRobin,
    /// As ordinary threads.
    Other,
}

/// Policy and real-time priority of a thread.
#[derive(Debug, Clone, Copy, PartialEq, Eq, Structural)]
pub struct ThreadClass {
    pub policy: SchedulingPolicy,
    pub sched_priority: i32,
}

/// Policy and real-time priority for a thread of the given importance: from 3 up for workers, 2 for
/// the stages of the pipeline, 1 for what may be late, and less for the rest.
pub open spec fn spec_thread_class(priority: i32) -> ThreadClass {
    if priority >= 3 {
        ThreadClass { policy: SchedulingPolicy::Fifo, sched_priority: 90 }
    } else if priority == 2 {
        ThreadClass { policy: SchedulingPolicy::Fifo, sched_priority: 70 }
    } else if priority == 1 {
        ThreadClass { policy: SchedulingPolicy::RoundRobin, sched_priority: 30 }
    } else {
        ThreadClass { policy: SchedulingPolicy::Other, sched_priority: 0 }
    }
}

/// Computes [`spec_thread_class`].
pub fn thread_class(priority: i32) -> (class: ThreadClass)
    ensures
        class == spec_thread_class(priority),
{
    if priority >= 3 {
        ThreadClass { policy: SchedulingPolicy::Fifo, sched_priority: 90 }
    } else if priority == 2 {
        ThreadClass { policy: SchedulingPolicy::Fifo, sched_priority: 70 }
    } else if priority == 1 {
        ThreadClass { policy: SchedulingPolicy::RoundRobin, sched_priority: 30 }
    } else {
        ThreadClass { policy: SchedulingPolicy::Other, sched_priority: 0 }
    }
}

/// Quality-of-service class for a thread of the given importance, where the system knows such
/// classes: user-initiated, utility or background.
pub open spec fn spec_service_class(priority: i32) -> u32 {
    if priority >= 2 {
        0x19
    } else if priority == 1 {
        0x15
    } else {
        0x09
    }
}

/// Computes [`spec_service_class`].
pub fn service_class(priority: i32) -> (class: u32)
    ensures
        class == spec_service_class(priority),
{
    if priority >= 2 {
        0x19
    } else if priority == 1 {
        0x15
    } else {
        0x09
    }
}

/// Law: a more important thread never gets a lower real-time priority or a lower class of service.
pub proof fn law_importance_is_kept(less: i32, more: i32)
    requires
        less <= more,
    ensures
        spec_thread_class(less).sched_priority <= spec_thread_class(more).sched_priority,
        spec_service_class(less) <= spec_service_class(more),
{
}

/// Law: threads of importance 1 and above go ahead of ordinary ones, turn by turn at 1 and first in first
/// out from 2 on, with real-time priorities 30, 70 and, from 3 on, 90; the others have none. Their
/// service is background below 1, utility at 1 and user-initiated from 2 on.
pub proof fn law_importance_sets_policy_and_priority(priority: i32)
    ensures
        spec_thread_class(priority).policy == SchedulingPolicy::Fifo <==> priority >= 2,
        spec_thread_class(priority).policy == SchedulingPolicy::RoundRobin <==> priority == 1,
        spec_thread_class(priority).policy == SchedulingPolicy::Other <==> priority <= 0,
        spec_thread_class(priority).sched_priority == 90 <==> priority >= 3,
        spec_thread_class(priority).sched_priority == 70 <==> priority == 2,
        spec_thread_class(priority).sched_priority == 30 <==> priority == 1,
        spec_thread_class(priority).sched_priority == 0 <==> priority <= 0,
        spec_service_class(priority) == 25 <==> priority >= 2,
        spec_service_class(priority) == 21 <==> priority == 1,
        spec_service_class(priority) == 9 <==> priority <= 0,
{
}

} // verus!
