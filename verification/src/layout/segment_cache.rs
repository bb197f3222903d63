//! What a cache of segments keeps, and what it charges for that.

use std::sync::Arc;
use vstd::prelude::*;

verus! {

/// A run of bytes in an allocation that may be shared. The whole allocation is kept as long as any
/// run of it is.
#[derive(Debug)]
pub struct ByteBuffer {
    window: Arc<Vec<u8>>,
    start: usize,
    end: usize,
    alignment: usize,
}

impl ByteBuffer {
    /// Whether the run lies inside the allocation.
    #[verifier::type_invariant]
    closed spec fn inv(self) -> bool {
        self.start <= self.end <= self.window@.len()
    }

    /// The bytes.
    pub closed spec fn view(&self) -> Seq<u8> {
        self.window@.subrange(self.start as int, self.end as int)
    }

    /// What the bytes are aligned to.
    pub closed spec fn alignment_spec(&self) -> usize {
        self.alignment
    }

    /// The size of the allocation that is kept for the bytes.
    pub closed spec fn retained_spec(&self) -> nat {
        self.window@.len()
    }

    /// Makes a buffer of all bytes of an allocation.
    pub fn new(window: Vec<u8>, alignment: usize) -> (r: ByteBuffer)
        ensures
            r@ == window@,
            r.alignment_spec() == alignment,
            r.retained_spec() == window@.len(),
    {
        let end: usize = window.len();
        let r = ByteBuffer { window: Arc::new(window), start: 0, end, alignment };
        assert(r@ =~= window@);
        r
    }

    /// Returns a run of the bytes, in the same allocation.
    pub fn slice(&self, start: usize, end: usize) -> (r: ByteBuffer)
        requires
            start <= end <= self@.len(),
        ensures
            r@ == self@.subrange(start as int, end as int),
            r.alignment_spec() == self.alignment_spec(),
            r.retained_spec() == self.retained_spec(),
    {
        proof {
            use_type_invariant(self);
        }
        let r = ByteBuffer {
            window: Arc::clone(&self.window),
            start: self.start + start,
            end: self.start + end,
            alignment: self.alignment,
        };
        assert(r@ =~= self@.subrange(start as int, end as int));
        r
    }

    /// Returns the number of bytes.
    pub fn len(&self) -> (r: usize)
        ensures
            r == self@.len(),
    {
        proof {
            use_type_invariant(self);
        }
        self.end - self.start
    }

    /// Returns what the bytes are aligned to.
    pub fn alignment(&self) -> (r: usize)
        ensures
            r == self.alignment_spec(),
    {
        self.alignment
    }

    /// Returns the byte at `i`.
    pub fn at(&self, i: usize) -> (r: u8)
        requires
            i < self@.len(),
        ensures
            r == self@[i as int],
    {
        proof {
            use_type_invariant(self);
        }
        self.window[self.start + i]
    }

    /// Returns the size of the allocation that is kept for the bytes.
    pub fn retained(&self) -> (r: usize)
        ensures
            r == self.retained_spec(),
            self@.len() <= r,
    {
        proof {
            use_type_invariant(self);
        }
        self.window.len()
    }

    /// Returns the same bytes in the same allocation.
    pub fn share(&self) -> (r: ByteBuffer)
        ensures
            r@ == self@,
            r.alignment_spec() == self.alignment_spec(),
            r.retained_spec() == self.retained_spec(),
    {
        let r = self.slice(0, self.len());
        assert(r@ =~= self@);
        r
    }
}

/// The bytes that are charged per entry on top of its allocation, for what the cache itself keeps
/// of an entry.
pub const ENTRY_OVERHEAD: usize = 512;

/// What an entry costs that has an allocation of its own: the bytes, what it takes to align them,
/// and what the cache itself keeps of it.
pub open spec fn charge(buffer: ByteBuffer) -> nat {
    buffer@.len() + buffer.alignment_spec() as nat + ENTRY_OVERHEAD as nat
}

/// Returns what an entry costs.
pub fn charged_bytes(buffer: &ByteBuffer) -> (r: usize)
    requires
        charge(*buffer) <= usize::MAX,
    ensures
        r == charge(*buffer),
{
    buffer.len() + buffer.alignment() + ENTRY_OVERHEAD
}

/// Returns the weight of an entry: what it costs, as far as that fits in 32 bits.
pub fn weigh(buffer: &ByteBuffer) -> (r: u32)
    requires
        charge(*buffer) <= usize::MAX,
    ensures
        r == (if charge(*buffer) <= u32::MAX {
            charge(*buffer)
        } else {
            u32::MAX as nat
        }),
{
    let charged: usize = charged_bytes(buffer);
    if charged as u64 <= u32::MAX as u64 {
        charged as u32
    } else {
        u32::MAX
    }
}

/// Returns a copy of the bytes in an allocation of their own, aligned as they were.
///
/// A segment is a run of what was read at once, and keeps all of that as long as it lives. How much
/// that is cannot be seen from the run, so the cost of an entry is true only of a copy.
pub fn compact(buffer: &ByteBuffer) -> (r: ByteBuffer)
    requires
        charge(*buffer) <= usize::MAX,
    ensures
        r@ == buffer@,
        r.alignment_spec() == buffer.alignment_spec(),
        r.retained_spec() == buffer@.len() + buffer.alignment_spec(),
{
    let len: usize = buffer.len();
    let capacity: usize = len + buffer.alignment();
    let mut window: Vec<u8> = Vec::with_capacity(capacity);
    let mut i: usize = 0;
    while i < len
        invariant
            0 <= i <= len,
            len == buffer@.len(),
            window@ =~= buffer@.take(i as int),
        decreases len - i,
    {
        window.push(buffer.at(i));
        i += 1;
    }
    while i < capacity
        invariant
            len <= i <= capacity,
            len == buffer@.len(),
            window@.len() == i,
            window@.take(len as int) =~= buffer@,
        decreases capacity - i,
    {
        window.push(0);
        i += 1;
    }
    let whole = ByteBuffer::new(window, buffer.alignment());
    let r = whole.slice(0, len);
    assert(r@ =~= buffer@);
    r
}

/// How a cache takes in segments: copied into allocations of their own, or as they are.
#[derive(Clone, Copy, Debug, PartialEq, Eq, Structural)]
pub struct Admission {
    pub compact_on_put: bool,
}

impl Admission {
    /// Each segment is copied, so that the cache keeps what it charges for.
    pub fn new() -> (r: Admission)
        ensures
            r.compact_on_put,
    {
        Admission { compact_on_put: true }
    }

    /// Each segment is kept as it is, and with it all that was read with it.
    pub fn new_sharing_windows() -> (r: Admission)
        ensures
            !r.compact_on_put,
    {
        Admission { compact_on_put: false }
    }

    /// Returns what the cache keeps of a segment.
    pub fn take_in(&self, buffer: ByteBuffer) -> (r: ByteBuffer)
        requires
            charge(buffer) <= usize::MAX,
        ensures
            r@ == buffer@,
            r.alignment_spec() == buffer.alignment_spec(),
            r.retained_spec() == (if self.compact_on_put {
                (buffer@.len() + buffer.alignment_spec()) as nat
            } else {
                buffer.retained_spec()
            }),
    {
        if self.compact_on_put {
            compact(&buffer)
        } else {
            buffer
        }
    }
}

/// What all entries keep.
pub open spec fn total_retained(entries: Seq<ByteBuffer>) -> nat
    decreases entries.len(),
{
    if entries.len() == 0 {
        0
    } else {
        total_retained(entries.drop_last()) + entries.last().retained_spec()
    }
}

/// What all entries cost.
pub open spec fn total_charge(entries: Seq<ByteBuffer>) -> nat
    decreases entries.len(),
{
    if entries.len() == 0 {
        0
    } else {
        total_charge(entries.drop_last()) + charge(entries.last())
    }
}

/// The charge is true: entries that have an allocation of their own each keep together what they
/// cost together, but for the fixed part per entry. So a bound on the cost bounds what is kept.
pub proof fn law_the_charge_is_true(entries: Seq<ByteBuffer>)
    requires
        forall|i: int|
            0 <= i < entries.len() ==> (#[trigger] entries[i]).retained_spec() == entries[i]@.len()
                + entries[i].alignment_spec(),
    ensures
        total_charge(entries) == total_retained(entries) + entries.len() * ENTRY_OVERHEAD,
    decreases entries.len(),
{
    if entries.len() > 0 {
        let before = entries.drop_last();
        assert(forall|i: int| 0 <= i < before.len() ==> #[trigger] before[i] == entries[i]);
        law_the_charge_is_true(before);
        assert(entries.last() == entries[entries.len() - 1]);
        assert(entries.len() * ENTRY_OVERHEAD == before.len() * ENTRY_OVERHEAD + ENTRY_OVERHEAD)
            by (nonlinear_arith)
            requires
                entries.len() == before.len() + 1,
        ;
    }
}

/// A cache that keeps nothing.
#[derive(Clone, Copy, Debug)]
pub struct NoOpSegmentCache;

impl NoOpSegmentCache {
    /// Returns the segment that is kept under an id: none is.
    pub fn get(&self, id: u32) -> (r: Option<ByteBuffer>)
        ensures
            r is None,
    {
        None
    }

    /// Passes over a segment.
    pub fn put(&self, id: u32, buffer: ByteBuffer) {
    }
}

/// How often a cache was asked and given something.
#[derive(Clone, Copy, Debug, PartialEq, Eq, Structural)]
pub struct CacheCounters {
    pub hits: u64,
    pub misses: u64,
    pub stores: u64,
}

/// One more, or from the greatest number back to zero.
pub open spec fn counted_on(n: u64) -> u64 {
    if n == u64::MAX {
        0
    } else {
        (n + 1) as u64
    }
}

impl CacheCounters {
    /// The counters after an answer of the cache.
    pub open spec fn after_answer<E>(self, reply: Result<Option<ByteBuffer>, E>) -> CacheCounters {
        match reply {
            Ok(Some(_)) => CacheCounters { hits: counted_on(self.hits), ..self },
            Ok(None) => CacheCounters { misses: counted_on(self.misses), ..self },
            Err(_) => self,
        }
    }

    /// The counters after the cache was given a segment.
    pub open spec fn after_store<E>(self, reply: Result<(), E>) -> CacheCounters {
        match reply {
            Ok(_) => CacheCounters { stores: counted_on(self.stores), ..self },
            Err(_) => self,
        }
    }

    /// Makes counters that stand at zero.
    pub fn new() -> (r: CacheCounters)
        ensures
            r == (CacheCounters { hits: 0, misses: 0, stores: 0 }),
    {
        CacheCounters { hits: 0, misses: 0, stores: 0 }
    }

    /// Counts an answer of the cache: a hit where it had the segment, else a miss. A failure counts
    /// as neither.
    pub fn looked_up<E>(&mut self, reply: &Result<Option<ByteBuffer>, E>)
        ensures
            *final(self) == (match *reply {
                Ok(Some(_)) => CacheCounters { hits: counted_on(old(self).hits), ..*old(self) },
                Ok(None) => CacheCounters { misses: counted_on(old(self).misses), ..*old(self) },
                Err(_) => *old(self),
            }),
            *final(self) == old(self).after_answer(*reply),
    {
        match reply {
            Ok(Some(_)) => {
                self.hits = self.hits.wrapping_add(1);
            },
            Ok(None) => {
                self.misses = self.misses.wrapping_add(1);
            },
            Err(_) => {},
        }
    }

    /// Counts a segment that the cache has taken. A failure is not counted.
    pub fn stored<E>(&mut self, reply: &Result<(), E>)
        ensures
            *final(self) == (match *reply {
                Ok(_) => CacheCounters { stores: counted_on(old(self).stores), ..*old(self) },
                Err(_) => *old(self),
            }),
            *final(self) == old(self).after_store(*reply),
    {
        match reply {
            Ok(_) => {
                self.stores = self.stores.wrapping_add(1);
            },
            Err(_) => {},
        }
    }
}

/// A segment where it was read to: into memory, or onto a device.
#[derive(Debug)]
pub enum BufferHandle {
    Host(ByteBuffer),
    /// The number by which the device knows it.
    Device(u64),
}

/// What is to be done for a segment that is asked for, after the cache has answered.
#[derive(Debug)]
pub enum AfterLookup {
    /// The cache had it.
    Return(BufferHandle),
    /// It has to be read.
    Read,
}

/// Returns what is to be done after the cache has answered. A cache that fails counts as one that
/// does not have the segment.
pub fn after_lookup<E>(reply: Result<Option<ByteBuffer>, E>) -> (r: AfterLookup)
    ensures
        match reply {
            Ok(Some(segment)) => r == AfterLookup::Return(BufferHandle::Host(segment)),
            _ => r is Read,
        },
{
    match reply {
        Ok(Some(segment)) => AfterLookup::Return(BufferHandle::Host(segment)),
        _ => AfterLookup::Read,
    }
}

/// Returns what the cache is given of a segment that has been read: the segment, if it is in memory.
pub fn to_store(read: &BufferHandle) -> (r: Option<ByteBuffer>)
    ensures
        match *read {
            BufferHandle::Host(buffer) => r is Some && r->Some_0@ == buffer@
                && r->Some_0.alignment_spec() == buffer.alignment_spec()
                && r->Some_0.retained_spec() == buffer.retained_spec(),
            BufferHandle::Device(_) => r is None,
        },
{
    match read {
        BufferHandle::Host(buffer) => Some(buffer.share()),
        BufferHandle::Device(_) => None,
    }
}

/// Counting goes on by one, and from the greatest number back to zero.
pub proof fn law_counting_wraps_around(n: u64)
    ensures
        counted_on(n) as int == (n + 1) % 0x1_0000_0000_0000_0000,
{
}

/// A copy in an allocation of its own keeps no more than it is charged for, and the charge has a
/// fixed part for each entry.
pub proof fn law_a_copy_keeps_what_it_costs(buffer: ByteBuffer)
    requires
        buffer.retained_spec() == buffer@.len() + buffer.alignment_spec(),
    ensures
        buffer.retained_spec() + 512 == charge(buffer),
{
}

/// A cache takes in a segment with its bytes and its alignment. Where it copies, what it keeps then
/// is covered by what it charges; where it does not, the segment keeps what it kept.
pub proof fn law_a_segment_is_taken_in_as_it_is(
    admission: Admission,
    segment: ByteBuffer,
    kept: ByteBuffer,
)
    requires
        call_ensures(Admission::take_in, (&admission, segment), kept),
    ensures
        kept@ == segment@,
        kept.alignment_spec() == segment.alignment_spec(),
        charge(kept) == charge(segment),
        admission.compact_on_put ==> kept.retained_spec() + ENTRY_OVERHEAD == charge(kept),
        !admission.compact_on_put ==> kept.retained_spec() == segment.retained_spec(),
{
}

/// A weight is what an entry costs, or the greatest weight where it costs more; an entry that costs
/// more never weighs less.
pub proof fn law_weights_follow_the_costs(a: ByteBuffer, b: ByteBuffer, v: u32, w: u32)
    requires
        call_ensures(weigh, (&a,), v),
        call_ensures(weigh, (&b,), w),
    ensures
        v <= charge(a),
        v == charge(a) || v == u32::MAX,
        charge(a) <= charge(b) ==> v <= w,
{
}

/// A segment that was read is given to the cache if it is in memory, and what the cache has of it
/// is then returned in place of a read. Whatever else the cache answers, the segment is read.
pub proof fn law_a_stored_segment_is_not_read_again<E>(
    read: ByteBuffer,
    device: BufferHandle,
    stored: Option<ByteBuffer>,
    unstored: Option<ByteBuffer>,
    failure: E,
    hit: AfterLookup,
    miss: AfterLookup,
    failed: AfterLookup,
)
    requires
        device is Device,
        call_ensures(to_store, (&BufferHandle::Host(read),), stored),
        call_ensures(to_store, (&device,), unstored),
        call_ensures(after_lookup::<E>, (Ok(stored),), hit),
        call_ensures(after_lookup::<E>, (Ok(None),), miss),
        call_ensures(after_lookup::<E>, (Err(failure),), failed),
    ensures
        hit matches AfterLookup::Return(BufferHandle::Host(segment)) && segment@ == read@
            && segment.alignment_spec() == read.alignment_spec(),
        unstored is None,
        miss is Read,
        failed is Read,
{
}

/// Each answer of the cache is counted once, as a hit or as a miss, and each segment that it took
/// once; a failure is not counted, and no other counter moves.
pub proof fn law_each_answer_is_counted_once<E>(
    counters: CacheCounters,
    segment: ByteBuffer,
    failure: E,
)
    requires
        counters.hits < u64::MAX,
        counters.misses < u64::MAX,
        counters.stores < u64::MAX,
    ensures
        ({
            let hit = counters.after_answer(Ok::<Option<ByteBuffer>, E>(Some(segment)));
            let miss = counters.after_answer(Ok::<Option<ByteBuffer>, E>(None));
            let taken = counters.after_store(Ok::<(), E>(()));
            &&& hit.hits == counters.hits + 1 && hit.misses == counters.misses && hit.stores
                == counters.stores
            &&& miss.hits == counters.hits && miss.misses == counters.misses + 1 && miss.stores
                == counters.stores
            &&& taken.hits == counters.hits && taken.misses == counters.misses && taken.stores
                == counters.stores + 1
            &&& counters.after_answer(Err::<Option<ByteBuffer>, E>(failure)) == counters
            &&& counters.after_store(Err::<(), E>(failure)) == counters
        }),
{
}

} // verus!
