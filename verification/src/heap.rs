//! Binary heap that gives out the entry with the smallest key first.

use vstd::multiset::Multiset;
use vstd::prelude::*;

verus! {

/// An item with the key that it is ordered by.
pub struct Entry<T> {
    pub key: i128,
    pub item: T,
}

/// Entries in a binary tree laid out in a vector: the children of position `i` stand at `2i + 1`
/// and `2i + 2`, and no child has a smaller key than its parent.
pub struct MinHeap<T> {
    entries: Vec<Entry<T>>,
}

spec fn parent(i: int) -> int {
    (i - 1) / 2
}

/// Whether the key at `upper` is no larger than the one at `lower`.
spec fn keeps<T>(s: Seq<Entry<T>>, upper: int, lower: int) -> bool {
    s[upper].key <= s[lower].key
}

/// Whether the entry at `i` is no less than its parent.
spec fn in_order<T>(s: Seq<Entry<T>>, i: int) -> bool {
    keeps(s, parent(i), i)
}

spec fn ordered<T>(s: Seq<Entry<T>>) -> bool {
    forall|i: int| 0 < i < s.len() ==> #[trigger] in_order(s, i)
}

/// The children of `at` keep to the key above `at`.
spec fn bridged<T>(s: Seq<Entry<T>>, at: int) -> bool {
    at > 0 ==> forall|i: int|
        0 < i < s.len() && #[trigger] parent(i) == at ==> keeps(s, parent(at), i)
}

/// The tree is ordered but for position `at`, whose key may be below those above it.
spec fn ordered_but_up<T>(s: Seq<Entry<T>>, at: int) -> bool {
    &&& forall|i: int| 0 < i < s.len() && i != at ==> #[trigger] in_order(s, i)
    &&& bridged(s, at)
}

/// The tree is ordered but for position `at`, whose key may be above those below it.
spec fn ordered_but_down<T>(s: Seq<Entry<T>>, at: int) -> bool {
    &&& forall|i: int| 0 < i < s.len() && parent(i) != at ==> #[trigger] in_order(s, i)
    &&& bridged(s, at)
}

proof fn lemma_root_is_least<T>(s: Seq<Entry<T>>, i: int)
    requires
        ordered(s),
        0 <= i < s.len(),
    ensures
        s[0].key <= s[i].key,
    decreases i,
{
    if i > 0 {
        assert(in_order(s, i));
        lemma_root_is_least(s, parent(i));
    }
}

proof fn lemma_swap_keeps_multiset<A>(s: Seq<A>, i: int, j: int)
    requires
        0 <= i < s.len(),
        0 <= j < s.len(),
    ensures
        s.update(i, s[j]).update(j, s[i]).to_multiset() == s.to_multiset(),
{
    broadcast use vstd::multiset::group_multiset_axioms;

    vstd::seq_lib::to_multiset_update(s, i, s[j]);
    vstd::seq_lib::to_multiset_update(s.update(i, s[j]), j, s[i]);
    vstd::seq_lib::to_multiset_contains(s, s[i]);
    vstd::seq_lib::to_multiset_contains(s, s[j]);
    vstd::seq_lib::to_multiset_contains(s.update(i, s[j]), s[j]);
    assert(s.contains(s[i]));
    assert(s.contains(s[j]));
    assert(s.update(i, s[j]).update(j, s[i]).to_multiset() =~= s.to_multiset());
}

/// Swapping a position with its parent moves the one place that may be out of order up.
proof fn lemma_moved_up<T>(s: Seq<Entry<T>>, t: Seq<Entry<T>>, at: int)
    requires
        0 < at < s.len(),
        ordered_but_up(s, at),
        s[at].key < s[parent(at)].key,
        t == s.update(parent(at), s[at]).update(at, s[parent(at)]),
    ensures
        ordered_but_up(t, parent(at)),
{
    let up = parent(at);
    assert forall|i: int| 0 < i < t.len() && i != up implies #[trigger] in_order(t, i) by {
        if i == at {
        } else if parent(i) == at {
            assert(keeps(s, parent(at), i));
        } else {
            assert(in_order(s, i));
        }
    }
    assert forall|i: int| up > 0 && 0 < i < t.len() && #[trigger] parent(i) == up implies keeps(
        t,
        parent(up),
        i,
    ) by {
        assert(in_order(s, up));
        if i != at {
            assert(in_order(s, i));
        }
    }
}

/// Swapping a position with its lesser child moves the one place that may be out of order down.
proof fn lemma_moved_down<T>(s: Seq<Entry<T>>, t: Seq<Entry<T>>, at: int, least: int)
    requires
        0 <= at < least < s.len(),
        parent(least) == at,
        ordered_but_down(s, at),
        s[least].key < s[at].key,
        forall|i: int| 0 < i < s.len() && #[trigger] parent(i) == at ==> keeps(s, least, i),
        t == s.update(at, s[least]).update(least, s[at]),
    ensures
        ordered_but_down(t, least),
{
    assert forall|i: int| 0 < i < t.len() && parent(i) != least implies #[trigger] in_order(t, i) by {
        if parent(i) == at {
            assert(keeps(s, least, i));
        } else if i == at {
            assert(keeps(s, parent(at), least));
        } else {
            assert(in_order(s, i));
        }
    }
    assert forall|i: int| 0 < i < t.len() && #[trigger] parent(i) == least implies keeps(
        t,
        parent(least),
        i,
    ) by {
        assert(in_order(s, i));
    }
}

fn swap_entries<T>(entries: &mut Vec<Entry<T>>, i: usize, j: usize)
    requires
        i < j < old(entries)@.len(),
    ensures
        final(entries)@ == old(entries)@.update(i as int, old(entries)@[j as int]).update(
            j as int,
            old(entries)@[i as int],
        ),
{
    let ghost before = entries@;
    let (left, right) = entries.as_mut_slice().split_at_mut(j);
    let upper = &mut left[i];
    let lower = &mut right[0];
    core::mem::swap(upper, lower);
    assert(entries@ =~= before.update(i as int, before[j as int]).update(
        j as int,
        before[i as int],
    ));
}

impl<T> View for MinHeap<T> {
    type V = Multiset<Entry<T>>;

    closed spec fn view(&self) -> Multiset<Entry<T>> {
        self.entries@.to_multiset()
    }
}

impl<T> MinHeap<T> {
    pub closed spec fn wf(&self) -> bool {
        ordered(self.entries@)
    }

    pub fn new() -> (heap: Self)
        ensures
            heap.wf(),
            heap@ == Multiset::<Entry<T>>::empty(),
    {
        broadcast use vstd::multiset::group_multiset_axioms;

        let heap = MinHeap { entries: Vec::new() };
        proof {
            vstd::seq_lib::to_multiset_len(heap.entries@);
            assert(heap@.len() == 0);
            assert(heap@ =~= Multiset::<Entry<T>>::empty());
        }
        heap
    }

    /// Number of entries.
    pub fn len(&self) -> (n: usize)
        ensures
            n == self@.len(),
    {
        proof {
            vstd::seq_lib::to_multiset_len(self.entries@);
        }
        self.entries.len()
    }

    pub fn is_empty(&self) -> (empty: bool)
        ensures
            empty == (self@.len() == 0),
    {
        self.len() == 0
    }

    fn sift_up(&mut self, start: usize)
        requires
            start < old(self).entries@.len(),
            ordered_but_up(old(self).entries@, start as int),
        ensures
            final(self).wf(),
            final(self)@ == old(self)@,
    {
        let mut at: usize = start;
        while at > 0 && self.entries[at].key < self.entries[(at - 1) / 2].key
            invariant
                at < self.entries@.len(),
                ordered_but_up(self.entries@, at as int),
                self.entries@.to_multiset() == old(self).entries@.to_multiset(),
            decreases at,
        {
            let up: usize = (at - 1) / 2;
            let ghost s = self.entries@;
            swap_entries(&mut self.entries, up, at);
            proof {
                lemma_swap_keeps_multiset(s, up as int, at as int);
                lemma_moved_up(s, self.entries@, at as int);
            }
            at = up;
        }
    }

    fn sift_down(&mut self)
        requires
            ordered_but_down(old(self).entries@, 0),
        ensures
            final(self).wf(),
            final(self)@ == old(self)@,
    {
        let mut at: usize = 0;
        while at < self.entries.len() / 2
            invariant_except_break
                at <= self.entries@.len(),
                ordered_but_down(self.entries@, at as int),
                self.entries@.to_multiset() == old(self).entries@.to_multiset(),
            ensures
                ordered(self.entries@),
                self.entries@.to_multiset() == old(self).entries@.to_multiset(),
            decreases self.entries@.len() - at,
        {
            let left: usize = 2 * at + 1;
            let mut least: usize = left;
            if left + 1 < self.entries.len() {
                if self.entries[left + 1].key < self.entries[left].key {
                    least = left + 1;
                }
            }
            let ghost s = self.entries@;
            assert forall|i: int| 0 < i < s.len() && #[trigger] parent(i) == at implies keeps(
                s,
                least as int,
                i,
            ) by {
                assert(i == left || i == left + 1);
            }
            if self.entries[at].key <= self.entries[least].key {
                assert forall|i: int| 0 < i < s.len() implies #[trigger] in_order(s, i) by {
                    if parent(i) == at {
                        assert(keeps(s, least as int, i));
                    }
                }
                break;
            }
            swap_entries(&mut self.entries, at, least);
            proof {
                lemma_swap_keeps_multiset(s, at as int, least as int);
                lemma_moved_down(s, self.entries@, at as int, least as int);
            }
            at = least;
        }
    }

    /// Adds `item` with the given key.
    pub fn push(&mut self, key: i128, item: T)
        requires
            old(self).wf(),
        ensures
            final(self).wf(),
            final(self)@ == old(self)@.insert(Entry { key, item }),
    {
        let at: usize = self.entries.len();
        let ghost s = self.entries@;
        self.entries.push(Entry { key, item });
        proof {
            vstd::seq_lib::to_multiset_build(s, Entry { key, item });
            let t = self.entries@;
            assert forall|i: int| 0 < i < t.len() && i != at implies #[trigger] in_order(t, i) by {
                assert(in_order(s, i));
            }
        }
        self.sift_up(at);
    }

    /// Takes out an entry whose key is the smallest.
    pub fn pop(&mut self) -> (taken: Option<Entry<T>>)
        requires
            old(self).wf(),
        ensures
            final(self).wf(),
            match taken {
                Some(entry) => {
                    &&& old(self)@.count(entry) > 0
                    &&& final(self)@ == old(self)@.remove(entry)
                    &&& forall|other: Entry<T>|
                        #[trigger] old(self)@.count(other) > 0 ==> entry.key <= other.key
                },
                None => old(self)@.len() == 0 && final(self)@ == old(self)@,
            },
    {
        proof {
            vstd::seq_lib::to_multiset_len(self.entries@);
        }
        if self.entries.len() == 0 {
            return None;
        }
        let ghost s = self.entries@;
        let entry = self.entries.swap_remove(0);
        proof {
            assert(s.contains(s[0]));
            vstd::seq_lib::to_multiset_contains(s, s[0]);
            assert forall|other: Entry<T>| #[trigger] s.to_multiset().count(other) > 0 implies entry.key
                <= other.key by {
                vstd::seq_lib::to_multiset_contains(s, other);
                let i = choose|i: int| 0 <= i < s.len() && s[i] == other;
                lemma_root_is_least(s, i);
            }
            let t = self.entries@;
            let n = s.len() - 1;
            let u = s.update(0, s[n]).update(n, s[0]);
            lemma_swap_keeps_multiset(s, 0, n);
            vstd::seq_lib::to_multiset_remove(u, n);
            assert(u.remove(n) =~= t);
            assert(u[n] == s[0]);
            assert forall|i: int| 0 < i < t.len() && parent(i) != 0 implies #[trigger] in_order(
                t,
                i,
            ) by {
                assert(in_order(s, i));
            }
        }
        self.sift_down();
        Some(entry)
    }
}

} // verus!
