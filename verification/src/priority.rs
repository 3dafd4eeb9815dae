//! Priority classes and per-class tables.

use std::cmp::Ordering;
use vstd::prelude::*;
use vstd::std_specs::cmp::{PartialOrdSpec, PartialOrdSpecImpl};

verus! {

/// Latency classes, ordered from most to least critical.
#[derive(Debug, Clone, Copy, PartialEq, Eq, Ord, Hash, Structural)]
pub enum Priority {
    High,
    Medium,
    Low,
    BestEffort,
}

impl Priority {
    /// All classes, most critical first.
    pub const ALL: [Priority; 4] = [
        Priority::High,
        Priority::Medium,
        Priority::Low,
        Priority::BestEffort,
    ];

    /// Position of the class in the order from most to least critical.
    pub open spec fn rank(self) -> int {
        match self {
            Priority::High => 0,
            Priority::Medium => 1,
            Priority::Low => 2,
            Priority::BestEffort => 3,
        }
    }

    /// The class at a position in the order from most to least critical.
    pub open spec fn of_rank(rank: int) -> Priority {
        if rank <= 0 {
            Priority::High
        } else if rank == 1 {
            Priority::Medium
        } else if rank == 2 {
            Priority::Low
        } else {
            Priority::BestEffort
        }
    }

    /// Stable index of the class, from 0 for the most critical one.
    pub fn index(self) -> (i: usize)
        ensures
            i == self.rank(),
    {
        match self {
            Priority::High => 0,
            Priority::Medium => 1,
            Priority::Low => 2,
            Priority::BestEffort => 3,
        }
    }

    /// The class with the given index.
    pub fn from_index(index: usize) -> (p: Priority)
        requires
            index < 4,
        ensures
            p == Priority::of_rank(index as int),
            p.rank() == index,
    {
        if index == 0 {
            Priority::High
        } else if index == 1 {
            Priority::Medium
        } else if index == 2 {
            Priority::Low
        } else {
            Priority::BestEffort
        }
    }

    /// Numeric identifier of the class in metrics and on the wire, from 1 for the most critical
    /// one.
    pub fn flow_id(self) -> (id: u64)
        ensures
            id == self.rank() + 1,
    {
        match self {
            Priority::High => 1,
            Priority::Medium => 2,
            Priority::Low => 3,
            Priority::BestEffort => 4,
        }
    }

    /// Lower-case name of the class.
    pub open spec fn spec_label(self) -> Seq<char> {
        match self {
            Priority::High => "high"@,
            Priority::Medium => "medium"@,
            Priority::Low => "low"@,
            Priority::BestEffort => "best_effort"@,
        }
    }

    pub fn label(self) -> (s: &'static str)
        ensures
            s@ == self.spec_label(),
    {
        match self {
            Priority::High => "high",
            Priority::Medium => "medium",
            Priority::Low => "low",
            Priority::BestEffort => "best_effort",
        }
    }
}

impl PartialOrd for Priority {
    fn partial_cmp(&self, other: &Self) -> (order: Option<Ordering>) {
        let mine: usize = self.index();
        let theirs: usize = other.index();
        if mine < theirs {
            Some(Ordering::Less)
        } else if mine == theirs {
            Some(Ordering::Equal)
        } else {
            Some(Ordering::Greater)
        }
    }
}

impl PartialOrdSpecImpl for Priority {
    open spec fn obeys_partial_cmp_spec() -> bool {
        true
    }

    open spec fn partial_cmp_spec(&self, other: &Self) -> Option<Ordering> {
        if self.rank() < other.rank() {
            Some(Ordering::Less)
        } else if self.rank() == other.rank() {
            Some(Ordering::Equal)
        } else {
            Some(Ordering::Greater)
        }
    }
}

/// Law: the classes are ordered strictly, and index and class determine each other: the index of a
/// class is its place in the list of all classes, and the more critical class is the lesser one.
pub proof fn law_classes_are_ranked(a: Priority, b: Priority, rank: int)
    ensures
        Priority::ALL@.len() == 4,
        0 <= a.rank() < Priority::ALL@.len(),
        Priority::ALL@[a.rank()] == a,
        Priority::of_rank(a.rank()) == a,
        0 <= rank < 4 ==> Priority::of_rank(rank).rank() == rank && Priority::ALL@[rank].rank()
            == rank,
        a.rank() == b.rank() ==> a == b,
        a.rank() < b.rank() <==> PartialOrdSpec::partial_cmp_spec(&a, &b) == Some(
            Ordering::Less,
        ),
{
}

/// One value per [`Priority`].
#[derive(Debug, PartialEq, Eq)]
pub struct PriorityTable<T> {
    high: T,
    medium: T,
    low: T,
    best_effort: T,
}

impl<T> PriorityTable<T> {
    /// The value held for `priority`.
    pub closed spec fn at(&self, priority: Priority) -> T {
        match priority {
            Priority::High => self.high,
            Priority::Medium => self.medium,
            Priority::Low => self.low,
            Priority::BestEffort => self.best_effort,
        }
    }

    /// Two tables that agree on every class are the same table.
    pub broadcast proof fn lemma_ext(a: Self, b: Self)
        requires
            #[trigger] a.agrees(b),
        ensures
            a == b,
    {
        assert(a.at(Priority::High) == b.at(Priority::High));
        assert(a.at(Priority::Medium) == b.at(Priority::Medium));
        assert(a.at(Priority::Low) == b.at(Priority::Low));
        assert(a.at(Priority::BestEffort) == b.at(Priority::BestEffort));
    }

    pub open spec fn agrees(self, other: Self) -> bool {
        forall|p: Priority| #[trigger] self.at(p) == other.at(p)
    }

    /// Builds a table by calling `f` once for each class, most critical first.
    pub fn from_fn<F: Fn(Priority) -> T>(f: F) -> (table: Self)
        requires
            forall|p: Priority| #[trigger] call_requires(f, (p,)),
        ensures
            forall|p: Priority| call_ensures(f, (p,), #[trigger] table.at(p)),
    {
        let high = f(Priority::High);
        let medium = f(Priority::Medium);
        let low = f(Priority::Low);
        let best_effort = f(Priority::BestEffort);
        PriorityTable { high, medium, low, best_effort }
    }

    /// Builds a table from its values, most critical class first.
    pub fn of(high: T, medium: T, low: T, best_effort: T) -> (table: Self)
        ensures
            table.at(Priority::High) == high,
            table.at(Priority::Medium) == medium,
            table.at(Priority::Low) == low,
            table.at(Priority::BestEffort) == best_effort,
    {
        PriorityTable { high, medium, low, best_effort }
    }

    /// Borrows the value held for `priority`.
    pub fn get(&self, priority: Priority) -> (value: &T)
        ensures
            *value == self.at(priority),
    {
        match priority {
            Priority::High => &self.high,
            Priority::Medium => &self.medium,
            Priority::Low => &self.low,
            Priority::BestEffort => &self.best_effort,
        }
    }

    /// Borrows the value held for `priority` for a change.
    pub fn get_mut(&mut self, priority: Priority) -> (value: &mut T)
        ensures
            *value == old(self).at(priority),
            final(self).at(priority) == *final(value),
            forall|p: Priority|
                p != priority ==> #[trigger] final(self).at(p) == old(self).at(p),
    {
        match priority {
            Priority::High => &mut self.high,
            Priority::Medium => &mut self.medium,
            Priority::Low => &mut self.low,
            Priority::BestEffort => &mut self.best_effort,
        }
    }

    /// Builds a table from one value per class, most critical first.
    pub fn from_vec(values: Vec<T>) -> (table: Self)
        requires
            values.len() == 4,
        ensures
            forall|p: Priority| #[trigger] table.at(p) == values@[p.rank()],
    {
        let mut values = values;
        let best_effort = values.pop().unwrap();
        let low = values.pop().unwrap();
        let medium = values.pop().unwrap();
        let high = values.pop().unwrap();
        PriorityTable { high, medium, low, best_effort }
    }
}

impl<T: Clone> Clone for PriorityTable<T> {
    fn clone(&self) -> (table: Self)
        ensures
            forall|p: Priority| cloned::<T>(self.at(p), #[trigger] table.at(p)),
    {
        PriorityTable {
            high: self.high.clone(),
            medium: self.medium.clone(),
            low: self.low.clone(),
            best_effort: self.best_effort.clone(),
        }
    }
}

impl<T> vstd::std_specs::core::IndexSpecImpl<Priority> for PriorityTable<T> {
    open spec fn index_req(&self, index: &Priority) -> bool {
        true
    }
}

impl<T> std::ops::Index<Priority> for PriorityTable<T> {
    type Output = T;

    fn index(&self, index: Priority) -> (value: &T)
        ensures
            *value == self.at(index),
    {
        self.get(index)
    }
}

/// Law: each class has a name of its own, in small letters.
pub proof fn law_classes_have_names(a: Priority, b: Priority)
    ensures
        Priority::High.spec_label() == seq!['h', 'i', 'g', 'h'],
        Priority::Medium.spec_label() == seq!['m', 'e', 'd', 'i', 'u', 'm'],
        Priority::Low.spec_label() == seq!['l', 'o', 'w'],
        Priority::BestEffort.spec_label() == seq![
            'b',
            'e',
            's',
            't',
            '_',
            'e',
            'f',
            'f',
            'o',
            'r',
            't',
        ],
        a.spec_label() == b.spec_label() ==> a == b,
{
    reveal_strlit("high");
    reveal_strlit("medium");
    reveal_strlit("low");
    reveal_strlit("best_effort");
    assert(Priority::High.spec_label() =~= seq!['h', 'i', 'g', 'h']);
    assert(Priority::Medium.spec_label() =~= seq!['m', 'e', 'd', 'i', 'u', 'm']);
    assert(Priority::Low.spec_label() =~= seq!['l', 'o', 'w']);
    assert(Priority::BestEffort.spec_label() =~= seq![
        'b',
        'e',
        's',
        't',
        '_',
        'e',
        'f',
        'f',
        'o',
        'r',
        't',
    ]);
    assert(Priority::High.spec_label().len() == 4);
    assert(Priority::Medium.spec_label().len() == 6);
    assert(Priority::Low.spec_label().len() == 3);
    assert(Priority::BestEffort.spec_label().len() == 11);
}

} // verus!
