//! What a scheduler makes of the packets that it takes from its inputs.

use crate::channel;
use crate::channel::got;
use crate::packet::Packet;
use crate::priority::{Priority, PriorityTable};
use crossbeam_channel::Receiver;
use vstd::multiset::Multiset;
use vstd::prelude::*;

verus! {

/// What the packets taken from one input between two moments are made into by `make`.
pub open spec fn intake_of<T>(
    make: spec_fn(Priority, Packet) -> T,
    priority: Priority,
    before: Receiver<Packet>,
    after: Receiver<Packet>,
) -> Multiset<T> {
    got(before, after).map_values(|packet: Packet| make(priority, packet)).to_multiset()
}

/// What the packets taken from all inputs between two moments are made into by `make`.
pub open spec fn intake<T>(
    make: spec_fn(Priority, Packet) -> T,
    before: PriorityTable<Receiver<Packet>>,
    after: PriorityTable<Receiver<Packet>>,
) -> Multiset<T> {
    intake_of(make, Priority::High, before.at(Priority::High), after.at(Priority::High)).add(
        intake_of(make, Priority::Medium, before.at(Priority::Medium), after.at(Priority::Medium)),
    ).add(
        intake_of(make, Priority::Low, before.at(Priority::Low), after.at(Priority::Low)),
    ).add(
        intake_of(
            make,
            Priority::BestEffort,
            before.at(Priority::BestEffort),
            after.at(Priority::BestEffort),
        ),
    )
}

/// Whether the record of every input only grew.
pub open spec fn grown(
    before: PriorityTable<Receiver<Packet>>,
    after: PriorityTable<Receiver<Packet>>,
) -> bool {
    forall|p: Priority|
        channel::taken(before.at(p)).is_prefix_of(channel::taken(#[trigger] after.at(p)))
}

pub proof fn lemma_no_intake_of<T>(
    make: spec_fn(Priority, Packet) -> T,
    priority: Priority,
    before: Receiver<Packet>,
    after: Receiver<Packet>,
)
    requires
        channel::taken(after) == channel::taken(before),
    ensures
        got(before, after) == Seq::<Packet>::empty(),
        intake_of(make, priority, before, after) == Multiset::<T>::empty(),
{
    broadcast use vstd::multiset::group_multiset_axioms;

    assert(got(before, after) =~= Seq::<Packet>::empty());
    let s = got(before, after).map_values(|packet: Packet| make(priority, packet));
    vstd::seq_lib::to_multiset_len(s);
    assert(s.to_multiset() =~= Multiset::<T>::empty());
}

pub proof fn lemma_intake_starts_empty<T>(
    make: spec_fn(Priority, Packet) -> T,
    inputs: PriorityTable<Receiver<Packet>>,
)
    ensures
        intake(make, inputs, inputs) == Multiset::<T>::empty(),
        grown(inputs, inputs),
        forall|p: Priority| #[trigger] got(inputs.at(p), inputs.at(p)) == Seq::<Packet>::empty(),
{
    broadcast use vstd::multiset::group_multiset_axioms;

    assert forall|p: Priority| #[trigger] got(inputs.at(p), inputs.at(p)) == Seq::<
        Packet,
    >::empty() by {
        lemma_no_intake_of(make, p, inputs.at(p), inputs.at(p));
    }
    lemma_no_intake_of(make, Priority::High, inputs.at(Priority::High), inputs.at(Priority::High));
    lemma_no_intake_of(
        make,
        Priority::Medium,
        inputs.at(Priority::Medium),
        inputs.at(Priority::Medium),
    );
    lemma_no_intake_of(make, Priority::Low, inputs.at(Priority::Low), inputs.at(Priority::Low));
    lemma_no_intake_of(
        make,
        Priority::BestEffort,
        inputs.at(Priority::BestEffort),
        inputs.at(Priority::BestEffort),
    );
    assert(intake(make, inputs, inputs) =~= Multiset::<T>::empty());
}

pub proof fn lemma_one_more_of<T>(
    make: spec_fn(Priority, Packet) -> T,
    priority: Priority,
    first: Receiver<Packet>,
    before: Receiver<Packet>,
    after: Receiver<Packet>,
    packet: Packet,
)
    requires
        channel::taken(first).is_prefix_of(channel::taken(before)),
        channel::taken(after) == channel::taken(before).push(packet),
    ensures
        channel::taken(first).is_prefix_of(channel::taken(after)),
        got(first, after) == got(first, before).push(packet),
        intake_of(make, priority, first, after) == intake_of(make, priority, first, before).insert(
            make(priority, packet),
        ),
{
    assert(got(first, after) =~= got(first, before).push(packet));
    let f = |packet: Packet| make(priority, packet);
    assert(got(first, after).map_values(f) =~= got(first, before).map_values(f).push(f(packet)));
    vstd::seq_lib::to_multiset_build(got(first, before).map_values(f), f(packet));
}

/// One packet more from the input of `priority`.
pub proof fn lemma_one_more<T>(
    make: spec_fn(Priority, Packet) -> T,
    first: PriorityTable<Receiver<Packet>>,
    before: PriorityTable<Receiver<Packet>>,
    after: PriorityTable<Receiver<Packet>>,
    priority: Priority,
    packet: Packet,
)
    requires
        grown(first, before),
        channel::taken(after.at(priority)) == channel::taken(before.at(priority)).push(packet),
        forall|p: Priority| p != priority ==> #[trigger] after.at(p) == before.at(p),
    ensures
        grown(first, after),
        intake(make, first, after) == intake(make, first, before).insert(make(priority, packet)),
        got(first.at(priority), after.at(priority)) == got(
            first.at(priority),
            before.at(priority),
        ).push(packet),
{
    broadcast use vstd::multiset::group_multiset_axioms;

    assert(channel::taken(first.at(priority)).is_prefix_of(channel::taken(before.at(priority))));
    lemma_one_more_of(
        make,
        priority,
        first.at(priority),
        before.at(priority),
        after.at(priority),
        packet,
    );
    assert(Priority::High != priority ==> after.at(Priority::High) == before.at(Priority::High));
    assert(Priority::Medium != priority ==> after.at(Priority::Medium) == before.at(
        Priority::Medium,
    ));
    assert(Priority::Low != priority ==> after.at(Priority::Low) == before.at(Priority::Low));
    assert(Priority::BestEffort != priority ==> after.at(Priority::BestEffort) == before.at(
        Priority::BestEffort,
    ));
    assert(intake(make, first, after) =~= intake(make, first, before).insert(
        make(priority, packet),
    ));
    assert forall|p: Priority| channel::taken(first.at(p)).is_prefix_of(
        channel::taken(#[trigger] after.at(p)),
    ) by {
        if p != priority {
            assert(channel::taken(first.at(p)).is_prefix_of(channel::taken(before.at(p))));
        }
    }
}

/// No packet more.
pub proof fn lemma_no_more<T>(
    make: spec_fn(Priority, Packet) -> T,
    first: PriorityTable<Receiver<Packet>>,
    before: PriorityTable<Receiver<Packet>>,
    after: PriorityTable<Receiver<Packet>>,
)
    requires
        grown(first, before),
        forall|p: Priority|
            channel::taken(#[trigger] after.at(p)) == channel::taken(before.at(p)),
    ensures
        grown(first, after),
        intake(make, first, after) == intake(make, first, before),
        forall|p: Priority| #[trigger]
            got(first.at(p), after.at(p)) == got(first.at(p), before.at(p)),
{
    assert forall|p: Priority| #[trigger] got(first.at(p), after.at(p)) == got(
        first.at(p),
        before.at(p),
    ) by {
        assert(channel::taken(after.at(p)) == channel::taken(before.at(p)));
    }
    assert(got(first.at(Priority::High), after.at(Priority::High)) == got(
        first.at(Priority::High),
        before.at(Priority::High),
    ));
    assert(got(first.at(Priority::Medium), after.at(Priority::Medium)) == got(
        first.at(Priority::Medium),
        before.at(Priority::Medium),
    ));
    assert(got(first.at(Priority::Low), after.at(Priority::Low)) == got(
        first.at(Priority::Low),
        before.at(Priority::Low),
    ));
    assert(got(first.at(Priority::BestEffort), after.at(Priority::BestEffort)) == got(
        first.at(Priority::BestEffort),
        before.at(Priority::BestEffort),
    ));
    assert forall|p: Priority| channel::taken(first.at(p)).is_prefix_of(
        channel::taken(#[trigger] after.at(p)),
    ) by {
        assert(channel::taken(first.at(p)).is_prefix_of(channel::taken(before.at(p))));
    }
}

pub proof fn lemma_intake_of_chains<T>(
    make: spec_fn(Priority, Packet) -> T,
    priority: Priority,
    first: Receiver<Packet>,
    middle: Receiver<Packet>,
    last: Receiver<Packet>,
)
    requires
        channel::taken(first).is_prefix_of(channel::taken(middle)),
        channel::taken(middle).is_prefix_of(channel::taken(last)),
    ensures
        channel::taken(first).is_prefix_of(channel::taken(last)),
        got(first, last) == got(first, middle) + got(middle, last),
        intake_of(make, priority, first, last) == intake_of(make, priority, first, middle).add(
            intake_of(make, priority, middle, last),
        ),
{
    assert(got(first, last) =~= got(first, middle) + got(middle, last));
    let f = |packet: Packet| make(priority, packet);
    let a = got(first, middle).map_values(f);
    let b = got(middle, last).map_values(f);
    assert(got(first, last).map_values(f) =~= a + b);
    vstd::seq_lib::lemma_multiset_commutative(a, b);
}

/// What is taken in over two spans is what is taken in over both together.
pub proof fn lemma_intake_chains<T>(
    make: spec_fn(Priority, Packet) -> T,
    first: PriorityTable<Receiver<Packet>>,
    middle: PriorityTable<Receiver<Packet>>,
    last: PriorityTable<Receiver<Packet>>,
)
    requires
        grown(first, middle),
        grown(middle, last),
    ensures
        grown(first, last),
        intake(make, first, last) == intake(make, first, middle).add(intake(make, middle, last)),
{
    broadcast use vstd::multiset::group_multiset_axioms;

    assert forall|p: Priority|
        {
            &&& channel::taken(first.at(p)).is_prefix_of(channel::taken(#[trigger] last.at(p)))
            &&& intake_of(make, p, first.at(p), last.at(p)) == intake_of(
                make,
                p,
                first.at(p),
                middle.at(p),
            ).add(intake_of(make, p, middle.at(p), last.at(p)))
        } by {
        assert(channel::taken(first.at(p)).is_prefix_of(channel::taken(middle.at(p))));
        assert(channel::taken(middle.at(p)).is_prefix_of(channel::taken(last.at(p))));
        lemma_intake_of_chains(make, p, first.at(p), middle.at(p), last.at(p));
    }
    assert(last.at(Priority::High) == last.at(Priority::High));
    assert(last.at(Priority::Medium) == last.at(Priority::Medium));
    assert(last.at(Priority::Low) == last.at(Priority::Low));
    assert(last.at(Priority::BestEffort) == last.at(Priority::BestEffort));
    assert(intake(make, first, last) =~= intake(make, first, middle).add(
        intake(make, middle, last),
    ));
}

/// Law: what is taken in is one item for each packet that came, made of the packet and of the class of
/// the input that it came by.
pub proof fn law_every_packet_is_taken_in_once<T>(
    make: spec_fn(Priority, Packet) -> T,
    before: PriorityTable<Receiver<Packet>>,
    after: PriorityTable<Receiver<Packet>>,
    priority: Priority,
    i: int,
)
    requires
        0 <= i < got(before.at(priority), after.at(priority)).len(),
    ensures
        intake(make, before, after).len() == got(
            before.at(Priority::High),
            after.at(Priority::High),
        ).len() + got(before.at(Priority::Medium), after.at(Priority::Medium)).len() + got(
            before.at(Priority::Low),
            after.at(Priority::Low),
        ).len() + got(before.at(Priority::BestEffort), after.at(Priority::BestEffort)).len(),
        intake(make, before, after).count(
            make(priority, got(before.at(priority), after.at(priority))[i]),
        ) > 0,
{
    broadcast use vstd::multiset::group_multiset_axioms;

    assert forall|p: Priority| (#[trigger] intake_of(make, p, before.at(p), after.at(p))).len()
        == got(before.at(p), after.at(p)).len() by {
        vstd::seq_lib::to_multiset_len(
            got(before.at(p), after.at(p)).map_values(|packet: Packet| make(p, packet)),
        );
    }
    assert(intake_of(make, Priority::High, before.at(Priority::High), after.at(Priority::High)).len()
        == got(before.at(Priority::High), after.at(Priority::High)).len());
    assert(intake_of(
        make,
        Priority::Medium,
        before.at(Priority::Medium),
        after.at(Priority::Medium),
    ).len() == got(before.at(Priority::Medium), after.at(Priority::Medium)).len());
    assert(intake_of(make, Priority::Low, before.at(Priority::Low), after.at(Priority::Low)).len()
        == got(before.at(Priority::Low), after.at(Priority::Low)).len());
    assert(intake_of(
        make,
        Priority::BestEffort,
        before.at(Priority::BestEffort),
        after.at(Priority::BestEffort),
    ).len() == got(before.at(Priority::BestEffort), after.at(Priority::BestEffort)).len());
    let made = got(before.at(priority), after.at(priority)).map_values(
        |packet: Packet| make(priority, packet),
    );
    assert(made[i] == make(priority, got(before.at(priority), after.at(priority))[i]));
    assert(made.contains(made[i]));
    vstd::seq_lib::to_multiset_contains(made, made[i]);
    assert(intake_of(make, priority, before.at(priority), after.at(priority)).count(made[i]) > 0);
}

} // verus!
