//! Pool of fixed-size byte buffers.
//!
//! Buffers come in power-of-two size classes from 64 bytes to 64 KiB. A caller leases a buffer
//! sized for the coming datagram, fills it, and freezes it into a [`BufferHandle`] that packets
//! share without copying the bytes. A buffer that is given back is blanked before it is handed out
//! again.

use std::sync::Arc;
use vstd::prelude::*;

verus! {

pub const MIN_BUFFER_SIZE: usize = 64;

pub const MAX_BUFFER_SIZE: usize = 65_536;

/// Number of size classes.
pub const CLASS_COUNT: usize = 11;

/// Buffers that each class holds at the start.
pub const BUFFERS_PER_SIZE: usize = 32;

/// Bytes in a buffer of class `index`: 64, 128, 256 and so on.
pub open spec fn class_size(index: nat) -> nat
    decreases index,
{
    if index == 0 {
        64
    } else {
        2 * class_size((index - 1) as nat)
    }
}

/// The class that serves `len` bytes: the first one large enough, or else the largest.
pub open spec fn class_for(len: nat, from: nat) -> nat
    decreases CLASS_COUNT - from,
{
    if from + 1 >= CLASS_COUNT || len <= class_size(from) {
        from
    } else {
        class_for(len, from + 1)
    }
}

/// `len` zero bytes.
pub open spec fn blank(len: nat) -> Seq<u8> {
    Seq::new(len, |i: int| 0u8)
}

proof fn lemma_class_sizes()
    ensures
        class_size(0) == 64,
        class_size(1) == 128,
        class_size(2) == 256,
        class_size(3) == 512,
        class_size(4) == 1024,
        class_size(5) == 2048,
        class_size(6) == 4096,
        class_size(7) == 8192,
        class_size(8) == 16_384,
        class_size(9) == 32_768,
        class_size(10) == 65_536,
{
    reveal_with_fuel(class_size, 11);
}

proof fn lemma_class_for(len: nat, from: nat)
    requires
        from < CLASS_COUNT,
    ensures
        from <= class_for(len, from) < CLASS_COUNT,
        len <= class_size(10) ==> len <= class_size(class_for(len, from)),
        len > class_size(10) ==> class_for(len, from) == 10,
        forall|i: nat| from <= i < class_for(len, from) ==> #[trigger] class_size(i) < len,
    decreases CLASS_COUNT - from,
{
    if !(from + 1 >= CLASS_COUNT || len <= class_size(from)) {
        lemma_class_for(len, from + 1);
        assert forall|i: nat| from <= i < class_for(len, from) implies #[trigger] class_size(i)
            < len by {
            if i > from {
                assert(from + 1 <= i);
            }
        }
    } else {
        lemma_class_sizes();
    }
}

/// Law: a request of at most 64 KiB is served from the smallest class that holds it, and a larger
/// one from the 64 KiB class.
pub proof fn law_class_is_the_smallest_that_fits(len: nat)
    ensures
        class_for(len, 0) < CLASS_COUNT,
        len <= MAX_BUFFER_SIZE ==> len <= class_size(class_for(len, 0)),
        len > MAX_BUFFER_SIZE ==> class_size(class_for(len, 0)) == MAX_BUFFER_SIZE,
        forall|i: nat| i < CLASS_COUNT && len <= #[trigger] class_size(i) ==> class_for(len, 0) <= i,
{
    lemma_class_sizes();
    lemma_class_for(len, 0);
}

/// Index of the class that serves `len` bytes.
pub fn class_index_for(len: usize) -> (index: usize)
    ensures
        index == class_for(len as nat, 0),
        index < CLASS_COUNT,
{
    let mut index: usize = 0;
    let mut size: usize = MIN_BUFFER_SIZE;
    while index + 1 < CLASS_COUNT && size < len
        invariant
            index < CLASS_COUNT,
            size == class_size(index as nat),
            size <= MAX_BUFFER_SIZE,
            class_for(len as nat, 0) == class_for(len as nat, index as nat),
        decreases CLASS_COUNT - index,
    {
        proof {
            lemma_class_sizes();
        }
        index = index + 1;
        size = size * 2;
    }
    index
}

/// Bytes in a buffer of class `index`.
pub fn size_of_class(index: usize) -> (size: usize)
    requires
        index < CLASS_COUNT,
    ensures
        size == class_size(index as nat),
{
    let mut size: usize = MIN_BUFFER_SIZE;
    let mut at: usize = 0;
    while at < index
        invariant
            at <= index < CLASS_COUNT,
            size == class_size(at as nat),
        decreases index - at,
    {
        proof {
            lemma_class_sizes();
        }
        size = size * 2;
        at = at + 1;
    }
    size
}

/// Bytes in the buffer that serves `len` bytes.
pub fn size_class_for(len: usize) -> (size: usize)
    ensures
        size == class_size(class_for(len as nat, 0)),
{
    size_of_class(class_index_for(len))
}

/// Free buffers by class. Every buffer in the pool is blank and as long as its class says.
pub struct BufferPool {
    pools: Vec<Vec<Vec<u8>>>,
}

fn blank_buffer(size: usize) -> (buffer: Vec<u8>)
    ensures
        buffer@ == blank(size as nat),
{
    let mut buffer: Vec<u8> = Vec::with_capacity(size);
    buffer.resize(size, 0);
    assert(buffer@ =~= blank(size as nat));
    buffer
}

impl BufferPool {
    pub closed spec fn wf(&self) -> bool {
        &&& self.pools@.len() == CLASS_COUNT
        &&& forall|c: int, i: int|
            0 <= c < CLASS_COUNT && 0 <= i < self.pools@[c]@.len() ==> (
            #[trigger] self.pools@[c]@[i])@ == blank(class_size(c as nat))
    }

    /// The free buffers of class `class`, the one that is handed out next at the end.
    pub closed spec fn buffers(&self, class: int) -> Seq<Seq<u8>> {
        self.pools@[class]@.map_values(|buffer: Vec<u8>| buffer@)
    }

    /// Number of free buffers of class `class`.
    pub open spec fn free(&self, class: int) -> nat {
        self.buffers(class).len()
    }

    /// A pool with [`BUFFERS_PER_SIZE`] blank buffers in each class.
    pub fn new() -> (pool: BufferPool)
        ensures
            pool.wf(),
            forall|c: int| 0 <= c < CLASS_COUNT ==> #[trigger] pool.free(c) == BUFFERS_PER_SIZE,
    {
        let mut pools: Vec<Vec<Vec<u8>>> = Vec::with_capacity(CLASS_COUNT);
        let mut class: usize = 0;
        while class < CLASS_COUNT
            invariant
                class <= CLASS_COUNT,
                pools@.len() == class,
                forall|c: int| 0 <= c < class ==> (#[trigger] pools@[c])@.len() == BUFFERS_PER_SIZE,
                forall|c: int, i: int|
                    0 <= c < class && 0 <= i < pools@[c]@.len() ==> (#[trigger] pools@[c]@[i])@
                        == blank(class_size(c as nat)),
            decreases CLASS_COUNT - class,
        {
            let size: usize = size_of_class(class);
            let mut buffers: Vec<Vec<u8>> = Vec::with_capacity(BUFFERS_PER_SIZE);
            let mut made: usize = 0;
            while made < BUFFERS_PER_SIZE
                invariant
                    made <= BUFFERS_PER_SIZE,
                    buffers@.len() == made,
                    forall|i: int|
                        0 <= i < made ==> (#[trigger] buffers@[i])@ == blank(size as nat),
                decreases BUFFERS_PER_SIZE - made,
            {
                buffers.push(blank_buffer(size));
                made = made + 1;
            }
            pools.push(buffers);
            class = class + 1;
        }
        let pool = BufferPool { pools };
        assert forall|c: int| 0 <= c < CLASS_COUNT implies #[trigger] pool.free(c)
            == BUFFERS_PER_SIZE by {
            assert(pool.pools@[c]@.len() == BUFFERS_PER_SIZE);
        }
        pool
    }

    /// Takes a free buffer of class `class`, or makes one where none is free.
    fn acquire(&mut self, class: usize) -> (buffer: Vec<u8>)
        requires
            old(self).wf(),
            class < CLASS_COUNT,
        ensures
            final(self).wf(),
            buffer@ == blank(class_size(class as nat)),
            final(self).free(class as int) == (if old(self).free(class as int) == 0 {
                0
            } else {
                (old(self).free(class as int) - 1) as nat
            }),
            forall|c: int|
                0 <= c < CLASS_COUNT && c != class ==> #[trigger] final(self).free(c) == old(
                    self,
                ).free(c),
    {
        let taken = self.pools[class].pop();
        assert forall|c: int, i: int|
            0 <= c < CLASS_COUNT && 0 <= i < self.pools@[c]@.len() implies (
        #[trigger] self.pools@[c]@[i])@ == blank(class_size(c as nat)) by {
            assert(self.pools@[c]@[i] == old(self).pools@[c]@[i]);
        }
        match taken {
            Some(buffer) => {
                assert(buffer == old(self).pools@[class as int]@[old(
                    self,
                ).pools@[class as int]@.len() - 1]);
                buffer
            },
            None => blank_buffer(size_of_class(class)),
        }
    }

    /// Blanks `buffer` and makes it free for class `class`.
    fn release(&mut self, class: usize, buffer: Vec<u8>)
        requires
            old(self).wf(),
            class < CLASS_COUNT,
        ensures
            final(self).wf(),
            taken_back(*old(self), *final(self), class as int),
    {
        let size: usize = size_of_class(class);
        let mut buffer = buffer;
        buffer.clear();
        buffer.resize(size, 0);
        assert(buffer@ =~= blank(size as nat));
        self.pools[class].push(buffer);
        assert forall|c: int, i: int|
            0 <= c < CLASS_COUNT && 0 <= i < self.pools@[c]@.len() implies (
        #[trigger] self.pools@[c]@[i])@ == blank(class_size(c as nat)) by {
            if c == class && i == old(self).pools@[c]@.len() {
            } else {
                assert(self.pools@[c]@[i] == old(self).pools@[c]@[i]);
            }
        }
        assert forall|c: int| 0 <= c < CLASS_COUNT implies #[trigger] self.buffers(c) == (if c
            == class {
            old(self).buffers(c).push(blank(class_size(c as nat)))
        } else {
            old(self).buffers(c)
        }) by {
            if c == class {
                assert(self.buffers(c) =~= old(self).buffers(c).push(blank(class_size(c as nat))));
            } else {
                assert(self.pools@[c] == old(self).pools@[c]);
            }
        }
    }
}

/// Index of a size class.
#[derive(Clone, Copy, Debug)]
struct ClassIndex {
    value: usize,
}

impl ClassIndex {
    #[verifier::type_invariant]
    spec fn names_a_class(self) -> bool {
        self.value < CLASS_COUNT
    }
}

/// Exclusive write access to a buffer, before a packet is made of it.
pub struct BufferLease {
    class: ClassIndex,
    data: Vec<u8>,
}

impl BufferLease {
    /// Size class that the buffer belongs to.
    pub closed spec fn class(&self) -> int {
        self.class.value as int
    }

    /// Bytes in the buffer.
    pub closed spec fn bytes(&self) -> Seq<u8> {
        self.data@
    }

    /// Borrows the bytes of the buffer for filling.
    pub fn as_mut_slice(&mut self) -> (slice: &mut [u8])
        ensures
            slice@ == old(self).bytes(),
            final(self).bytes() == final(slice)@,
            final(self).class() == old(self).class(),
    {
        self.data.as_mut_slice()
    }

    /// Copies `bytes` to the front of the buffer, as far as they fit.
    pub fn fill(&mut self, bytes: &[u8])
        ensures
            final(self).class() == old(self).class(),
            final(self).bytes() == Seq::new(
                old(self).bytes().len(),
                |i: int|
                    if i < bytes@.len() {
                        bytes@[i]
                    } else {
                        old(self).bytes()[i]
                    },
            ),
    {
        let mut at: usize = 0;
        while at < bytes.len() && at < self.data.len()
            invariant
                at <= bytes@.len(),
                at <= self.data@.len(),
                self.class == old(self).class,
                self.data@.len() == old(self).data@.len(),
                forall|i: int| 0 <= i < at ==> self.data@[i] == bytes@[i],
                forall|i: int| at <= i < self.data@.len() ==> self.data@[i] == old(self).data@[i],
            decreases bytes@.len() - at,
        {
            self.data[at] = bytes[at];
            at = at + 1;
        }
        assert(self.bytes() =~= Seq::new(
            old(self).bytes().len(),
            |i: int|
                if i < bytes@.len() {
                    bytes@[i]
                } else {
                    old(self).bytes()[i]
                },
        ));
    }

    /// Turns the lease into a shared handle on its first `len` bytes, or on all of them where
    /// there are fewer.
    pub fn freeze(self, len: usize) -> (handle: BufferHandle)
        ensures
            handle.class() == self.class(),
            handle.bytes() == (if len <= self.bytes().len() {
                self.bytes().subrange(0, len as int)
            } else {
                self.bytes()
            }),
    {
        let mut data = self.data;
        data.truncate(len);
        BufferHandle { inner: Arc::new(BufferInner { class: self.class, data }) }
    }

    /// Gives the buffer back to the pool without making a packet of it.
    pub fn discard(self, pool: &mut BufferPool)
        requires
            old(pool).wf(),
        ensures
            final(pool).wf(),
            0 <= self.class() < CLASS_COUNT,
            taken_back(*old(pool), *final(pool), self.class()),
    {
        proof {
            use_type_invariant(self.class);
        }
        pool.release(self.class.value, self.data);
    }
}

/// The frozen bytes that handles share.
#[derive(Debug)]
struct BufferInner {
    class: ClassIndex,
    data: Vec<u8>,
}

/// Calls `Arc::clone`: another owner of the same allocation, so of the same value.
#[verifier::external_body]
fn share(inner: &Arc<BufferInner>) -> (shared: Arc<BufferInner>)
    ensures
        shared == *inner,
{
    Arc::clone(inner)
}

/// Calls `Arc::into_inner`: where a value comes back, it is the one that was shared. One comes back
/// exactly to the last owner; how many there are is not part of the value of a handle, since cloning
/// leaves the handle that is cloned as it is, so nothing is claimed of that.
#[verifier::external_body]
fn last_owner(inner: Arc<BufferInner>) -> (value: Option<BufferInner>)
    ensures
        value matches Some(v) ==> v == *inner,
{
    Arc::into_inner(inner)
}

/// Puts a buffer that nobody owns any more back into the pool. Returns whether there was one.
fn give_back(last: Option<BufferInner>, pool: &mut BufferPool) -> (returned: bool)
    requires
        old(pool).wf(),
    ensures
        final(pool).wf(),
        returned == (last is Some),
        match last {
            Some(inner) => inner.class.value < CLASS_COUNT && taken_back(
                *old(pool),
                *final(pool),
                inner.class.value as int,
            ),
            None => *final(pool) == *old(pool),
        },
{
    match last {
        Some(inner) => {
            proof {
                use_type_invariant(inner.class);
            }
            pool.release(inner.class.value, inner.data);
            true
        },
        None => false,
    }
}

/// Whether a pool has got a buffer of class `class` back: there is one more blank buffer in that
/// class, and nothing changes in the others.
pub open spec fn taken_back(before: BufferPool, after: BufferPool, class: int) -> bool {
    forall|c: int|
        0 <= c < CLASS_COUNT ==> #[trigger] after.buffers(c) == (if c == class {
            before.buffers(c).push(blank(class_size(c as nat)))
        } else {
            before.buffers(c)
        })
}

/// What dropping a handle does to the pool: where it was the last one on its buffer, the pool gets
/// the buffer back; otherwise nothing changes.
pub open spec fn recycled(
    before: BufferPool,
    after: BufferPool,
    handle: BufferHandle,
    last: bool,
) -> bool {
    if last {
        &&& 0 <= handle.class() < CLASS_COUNT
        &&& taken_back(before, after, handle.class())
    } else {
        after == before
    }
}

/// Whether `pools` are what a pool is before the first of the handles on a buffer is dropped and
/// after each, as far as the drop number `i` goes. Only the last drop meets no other handle.
pub open spec fn dropped_at(pools: Seq<BufferPool>, handle: BufferHandle, i: int) -> bool {
    recycled(pools[i], pools[i + 1], handle, i == pools.len() - 2)
}

/// Law: however many handles there are on a buffer, dropping them one after the other gives the
/// buffer back once, and not before the last is dropped: until then the pool stays as it is, and then
/// there is one more blank buffer in the class of the buffer, and nothing changes in the others.
pub proof fn law_buffer_returns_with_its_last_handle(pools: Seq<BufferPool>, handle: BufferHandle)
    requires
        pools.len() > 1,
        forall|i: int| 0 <= i < pools.len() - 1 ==> #[trigger] dropped_at(pools, handle, i),
    ensures
        forall|i: int| 0 <= i < pools.len() - 1 ==> #[trigger] pools[i] == pools[0],
        taken_back(pools[0], pools.last(), handle.class()),
{
    assert forall|i: int| 0 <= i < pools.len() - 1 implies #[trigger] pools[i] == pools[0] by {
        lemma_pool_waits(pools, handle, i);
    }
    let n = pools.len() - 2;
    assert(dropped_at(pools, handle, n));
    assert(pools[n] == pools[0]);
}

proof fn lemma_pool_waits(pools: Seq<BufferPool>, handle: BufferHandle, i: int)
    requires
        0 <= i < pools.len() - 1,
        forall|j: int| 0 <= j < pools.len() - 1 ==> #[trigger] dropped_at(pools, handle, j),
    ensures
        pools[i] == pools[0],
    decreases i,
{
    if i > 0 {
        lemma_pool_waits(pools, handle, i - 1);
        assert(dropped_at(pools, handle, i - 1));
    }
}

/// Shared, cloneable handle to the bytes of a pooled buffer.
#[derive(Debug)]
pub struct BufferHandle {
    inner: Arc<BufferInner>,
}

impl BufferHandle {
    /// Size class that the buffer belongs to.
    pub closed spec fn class(&self) -> int {
        self.inner.class.value as int
    }

    /// The bytes that the handle gives access to.
    pub closed spec fn bytes(&self) -> Seq<u8> {
        self.inner.data@
    }

    /// The bytes that the handle gives access to.
    pub fn as_slice(&self) -> (slice: &[u8])
        ensures
            slice@ == self.bytes(),
    {
        self.inner.data.as_slice()
    }

    /// Number of bytes that the handle gives access to.
    pub fn len(&self) -> (n: usize)
        ensures
            n == self.bytes().len(),
    {
        self.inner.data.len()
    }

    /// Drops this handle. Where it was the last one on its buffer, the buffer goes back to the
    /// pool and `true` is returned.
    pub fn recycle(self, pool: &mut BufferPool) -> (returned: bool)
        requires
            old(pool).wf(),
        ensures
            final(pool).wf(),
            recycled(*old(pool), *final(pool), self, returned),
    {
        give_back(last_owner(self.inner), pool)
    }
}

impl Clone for BufferHandle {
    fn clone(&self) -> (handle: Self)
        ensures
            handle == *self,
    {
        BufferHandle { inner: share(&self.inner) }
    }
}

/// Free buffers of a class after one more was leased: a free one is used where there is one, and a
/// new one is made where there is none.
pub open spec fn after_lease(free: nat) -> nat {
    if free > 0 {
        (free - 1) as nat
    } else {
        0
    }
}

/// Free buffers of a class after one has come back.
pub open spec fn after_return(free: nat) -> nat {
    free + 1
}

/// Law: a buffer that comes back is one free buffer more of its class, and of no other.
pub proof fn law_a_return_frees_one_buffer(before: BufferPool, after: BufferPool, class: int)
    requires
        0 <= class < CLASS_COUNT,
        taken_back(before, after, class),
    ensures
        forall|c: int|
            0 <= c < CLASS_COUNT ==> #[trigger] after.free(c) == (if c == class {
                after_return(before.free(c))
            } else {
                before.free(c)
            }),
{
    assert forall|c: int| 0 <= c < CLASS_COUNT implies #[trigger] after.free(c) == (if c == class {
        after_return(before.free(c))
    } else {
        before.free(c)
    }) by {
        assert(after.buffers(c).len() == after.free(c));
    }
}

/// Law: buffers are used again: one that was leased and has come back leaves a pool with free
/// buffers as it was, and one that was made because there was none stays with the pool.
pub proof fn law_buffers_are_used_again(free: nat)
    ensures
        free > 0 ==> after_return(after_lease(free)) == free,
        free == 0 ==> after_return(after_lease(free)) == 1,
        after_lease(after_return(free)) == free,
{
}

/// Leases a blank buffer for `size_hint` bytes.
pub fn lease(pool: &mut BufferPool, size_hint: usize) -> (lease: BufferLease)
    requires
        old(pool).wf(),
    ensures
        final(pool).wf(),
        lease.class() == class_for(size_hint as nat, 0),
        lease.bytes() == blank(class_size(class_for(size_hint as nat, 0))),
        size_hint <= MAX_BUFFER_SIZE ==> size_hint <= lease.bytes().len(),
        forall|c: int|
            0 <= c < CLASS_COUNT ==> #[trigger] final(pool).free(c) == (if c == lease.class() {
                after_lease(old(pool).free(c))
            } else {
                old(pool).free(c)
            }),
{
    let class: usize = class_index_for(size_hint);
    proof {
        law_class_is_the_smallest_that_fits(size_hint as nat);
    }
    BufferLease { class: ClassIndex { value: class }, data: pool.acquire(class) }
}

/// Law: there are eleven classes of buffers; each is twice as large as the one before it, from 64 bytes
/// to 64 KiB, and has 32 buffers at the start.
pub proof fn law_classes_double_in_size(index: nat)
    ensures
        class_size(0) == 64,
        class_size(index + 1) == 2 * class_size(index),
        class_size(10) == 65_536,
        CLASS_COUNT == 11,
        BUFFERS_PER_SIZE == 32,
        MIN_BUFFER_SIZE == class_size(0),
        MAX_BUFFER_SIZE == class_size((CLASS_COUNT - 1) as nat),
{
    lemma_class_sizes();
}

/// Law: a blank buffer holds nothing but zeros.
pub proof fn law_blank_buffers_are_zero(len: nat, i: int)
    requires
        0 <= i < len,
    ensures
        blank(len).len() == len,
        blank(len)[i] == 0,
{
}

/// Law: a buffer that comes back is blanked: the pool gets a buffer of zeros, as long as its class says,
/// whatever it held, and keeps all others.
pub proof fn law_returned_buffers_are_blanked(
    before: BufferPool,
    after: BufferPool,
    class: int,
    i: int,
)
    requires
        0 <= class < CLASS_COUNT,
        taken_back(before, after, class),
        0 <= i < class_size(class as nat),
    ensures
        after.buffers(class).last().len() == class_size(class as nat),
        after.buffers(class).last()[i] == 0,
        after.buffers(class).drop_last() == before.buffers(class),
{
    assert(after.buffers(class) == before.buffers(class).push(blank(class_size(class as nat))));
    assert(after.buffers(class).drop_last() =~= before.buffers(class));
}

} // verus!
