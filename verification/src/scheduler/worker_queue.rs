//! Work waiting for one worker, earliest deadline first.

use crate::heap::{Entry, MinHeap};
use crate::priority::{Priority, PriorityTable};
use crate::scheduler::completion::WorkItem;
use vstd::multiset::Multiset;
use vstd::prelude::*;

verus! {

/// A piece of work as it is queued: ordered by its deadline.
pub open spec fn queued(item: WorkItem) -> Entry<WorkItem> {
    Entry { key: item.spec_deadline().nanos as i128, item }
}

/// How many pieces of work in `work` belong to class `priority`.
pub open spec fn count_of(work: Multiset<Entry<WorkItem>>, priority: Priority) -> nat {
    work.filter(|e: Entry<WorkItem>| e.item.priority == priority).len()
}

pub proof fn lemma_count_insert(work: Multiset<Entry<WorkItem>>, e: Entry<WorkItem>, p: Priority)
    ensures
        count_of(work.insert(e), p) == count_of(work, p) + (if e.item.priority == p {
            1nat
        } else {
            0
        }),
{
    broadcast use vstd::multiset::group_multiset_axioms;

    let f = |e: Entry<WorkItem>| e.item.priority == p;
    if e.item.priority == p {
        assert(work.insert(e).filter(f) =~= work.filter(f).insert(e));
    } else {
        assert(work.insert(e).filter(f) =~= work.filter(f));
    }
}

pub proof fn lemma_count_add(
    work: Multiset<Entry<WorkItem>>,
    extra: Multiset<Entry<WorkItem>>,
    p: Priority,
)
    ensures
        count_of(work.add(extra), p) == count_of(work, p) + count_of(extra, p),
{
    broadcast use vstd::multiset::group_multiset_axioms;

    let f = |e: Entry<WorkItem>| e.item.priority == p;
    assert(work.add(extra).filter(f) =~= work.filter(f).add(extra.filter(f)));
}

pub proof fn lemma_count_bound(work: Multiset<Entry<WorkItem>>, p: Priority)
    ensures
        count_of(work, p) <= work.len(),
{
    broadcast use vstd::multiset::group_multiset_axioms;

    let f = |e: Entry<WorkItem>| e.item.priority == p;
    let g = |e: Entry<WorkItem>| e.item.priority != p;
    assert(work.filter(f).add(work.filter(g)) =~= work);
}

/// Work waiting for one worker.
pub struct WorkerQueue {
    heap: MinHeap<WorkItem>,
    counts: PriorityTable<usize>,
}

impl View for WorkerQueue {
    type V = Multiset<Entry<WorkItem>>;

    closed spec fn view(&self) -> Multiset<Entry<WorkItem>> {
        self.heap@
    }
}

impl WorkerQueue {
    pub closed spec fn wf(&self) -> bool {
        &&& self.heap.wf()
        &&& forall|p: Priority| #[trigger] self.counts.at(p) == count_of(self.heap@, p)
        &&& forall|e: Entry<WorkItem>| #[trigger] self.heap@.count(e) > 0 ==> e == queued(e.item)
    }

    pub fn new() -> (queue: WorkerQueue)
        ensures
            queue.wf(),
            queue@ == Multiset::<Entry<WorkItem>>::empty(),
    {
        broadcast use vstd::multiset::group_multiset_axioms;

        let queue = WorkerQueue {
            heap: MinHeap::new(),
            counts: PriorityTable::of(0, 0, 0, 0),
        };
        assert forall|p: Priority| #[trigger] queue.counts.at(p) == count_of(queue.heap@, p) by {
            lemma_count_bound(queue.heap@, p);
        }
        queue
    }

    /// Number of pieces of work in the queue.
    pub fn len(&self) -> (n: usize)
        ensures
            n == self@.len(),
    {
        self.heap.len()
    }

    /// Number of pieces of work of class `priority` in the queue.
    pub fn count(&self, priority: Priority) -> (n: usize)
        requires
            self.wf(),
        ensures
            n == count_of(self@, priority),
    {
        *self.counts.get(priority)
    }

    /// Queues a piece of work.
    pub fn push(&mut self, item: WorkItem)
        requires
            old(self).wf(),
        ensures
            final(self).wf(),
            final(self)@ == old(self)@.insert(queued(item)),
    {
        broadcast use vstd::multiset::group_multiset_axioms;

        let priority = item.priority;
        let ghost entry = queued(item);
        self.heap.push(item.deadline().nanos as i128, item);
        let total: usize = self.heap.len();
        proof {
            lemma_count_insert(old(self).heap@, entry, priority);
            lemma_count_bound(self.heap@, priority);
        }
        let count: usize = *self.counts.get(priority) + 1;
        *self.counts.get_mut(priority) = count;
        proof {
            assert forall|p: Priority| #[trigger] self.counts.at(p) == count_of(self.heap@, p) by {
                lemma_count_insert(old(self).heap@, entry, p);
            }
        }
    }

    /// Queues a piece of work where the quotas allow it, and hands it back where they do not: the
    /// quota of the class must not be zero, and neither it nor the total may be used up.
    pub fn push_with_capacity(
        &mut self,
        item: WorkItem,
        limits: &PriorityTable<usize>,
        total_limit: usize,
    ) -> (outcome: Result<(), WorkItem>)
        requires
            old(self).wf(),
        ensures
            final(self).wf(),
            if limits.at(item.priority) > 0 && old(self)@.len() < total_limit && count_of(
                old(self)@,
                item.priority,
            ) < limits.at(item.priority) {
                outcome is Ok && final(self)@ == old(self)@.insert(queued(item))
            } else {
                outcome == Err::<(), WorkItem>(item) && final(self)@ == old(self)@
            },
    {
        let limit: usize = *limits.get(item.priority);
        if limit == 0 {
            return Err(item);
        }
        if self.len() >= total_limit || self.count(item.priority) >= limit {
            return Err(item);
        }
        self.push(item);
        Ok(())
    }

    /// Takes out a piece of work that is due first.
    pub fn pop(&mut self) -> (taken: Option<WorkItem>)
        requires
            old(self).wf(),
        ensures
            final(self).wf(),
            match taken {
                Some(item) => {
                    &&& old(self)@.count(queued(item)) > 0
                    &&& final(self)@ == old(self)@.remove(queued(item))
                    &&& forall|e: Entry<WorkItem>|
                        #[trigger] old(self)@.count(e) > 0 ==> item.spec_deadline().nanos <= e.key
                },
                None => old(self)@.len() == 0 && final(self)@ == old(self)@,
            },
    {
        broadcast use vstd::multiset::group_multiset_axioms;

        match self.heap.pop() {
            Some(entry) => {
                let priority = entry.item.priority;
                proof {
                    assert(entry == queued(entry.item));
                    assert(self.heap@.insert(entry) =~= old(self).heap@);
                    lemma_count_insert(self.heap@, entry, priority);
                }
                let count: usize = *self.counts.get(priority) - 1;
                *self.counts.get_mut(priority) = count;
                proof {
                    assert forall|p: Priority| #[trigger] self.counts.at(p) == count_of(
                        self.heap@,
                        p,
                    ) by {
                        lemma_count_insert(self.heap@, entry, p);
                    }
                    assert forall|e: Entry<WorkItem>| #[trigger] self.heap@.count(e) > 0 implies e
                        == queued(e.item) by {
                        assert(old(self).heap@.count(e) > 0);
                    }
                }
                Some(entry.item)
            },
            None => None,
        }
    }
}

/// Law: work is queued by when its packet is due, that is its arrival plus its budget. So of two
/// pieces of work the one whose packet is due earlier has the smaller key.
pub proof fn law_work_is_queued_by_deadline(item: WorkItem, other: WorkItem)
    requires
        item.packet.timestamp.nanos + item.packet.latency_budget.nanos <= u64::MAX,
        other.packet.timestamp.nanos + other.packet.latency_budget.nanos <= u64::MAX,
    ensures
        queued(item).item == item,
        queued(item).key == item.packet.timestamp.nanos + item.packet.latency_budget.nanos,
        queued(item).key < queued(other).key <==> item.packet.timestamp.nanos
            + item.packet.latency_budget.nanos < other.packet.timestamp.nanos
            + other.packet.latency_budget.nanos,
{
}

/// Law: each piece of work counts once, for its own class and for no other.
pub proof fn law_work_counts_for_its_class(
    work: Multiset<Entry<WorkItem>>,
    item: WorkItem,
    priority: Priority,
)
    ensures
        count_of(Multiset::empty(), priority) == 0,
        count_of(work.insert(queued(item)), priority) == count_of(work, priority)
            + (if item.priority == priority {
            1nat
        } else {
            0
        }),
        count_of(work, Priority::High) + count_of(work, Priority::Medium) + count_of(
            work,
            Priority::Low,
        ) + count_of(work, Priority::BestEffort) == work.len(),
{
    broadcast use vstd::multiset::group_multiset_axioms;

    lemma_count_insert(work, queued(item), priority);
    lemma_count_bound(Multiset::empty(), priority);
    let high = work.filter(|e: Entry<WorkItem>| e.item.priority == Priority::High);
    let medium = work.filter(|e: Entry<WorkItem>| e.item.priority == Priority::Medium);
    let low = work.filter(|e: Entry<WorkItem>| e.item.priority == Priority::Low);
    let rest = work.filter(|e: Entry<WorkItem>| e.item.priority == Priority::BestEffort);
    assert(high.add(medium).add(low).add(rest) =~= work);
}

} // verus!
