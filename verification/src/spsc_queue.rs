//! The single-producer/single-consumer bounded ring buffer.
//!
//! The ring keeps `capacity` slots (a power of two) and two cursors: the
//! producer's write cursor and the consumer's read cursor.  Each side also
//! keeps a private cache of the other side's cursor so that, in the intended
//! two-thread deployment, the shared cursor need not be reloaded on every
//! operation.  One slot is always left empty, so `capacity - 1` items can be
//! resident at once: `write_idx == read_idx` means empty, and a write cursor
//! one step behind the read cursor means full.

use vstd::prelude::*;

verus! {

use vstd::arithmetic::power2::is_pow2;

/// Capacity used when the caller requests a non-positive capacity.
const DEFAULT_CAPACITY: i64 = 1024;

/// The largest capacity `new` accepts: the slot vector must stay well inside
/// `usize` range on every target.
pub const MAX_CAPACITY: i64 = 0x4000_0000;

/// `c` is the least power of two that is at least `n`.
pub open spec fn smallest_pow2_ge(c: int, n: int) -> bool {
    &&& is_pow2(c)
    &&& c >= n
    &&& forall|p: int| #[trigger] is_pow2(p) && p >= n ==> c <= p
}

/// The least power of two that is at least `max(n, 1)`, written as a
/// recurrence: halving (rounded up) and doubling keeps the bound.
pub open spec fn least_pow2_ge(n: int) -> int
    decreases n,
{
    if n <= 1 {
        1
    } else {
        2 * least_pow2_ge((n + 1) / 2)
    }
}

/// The capacity a ring realises for a requested capacity `req`:
/// non-positive requests fall back to the default, all others round up to
/// the next power of two.
pub open spec fn realised_capacity(req: int) -> int {
    if req <= 0 {
        1024
    } else {
        least_pow2_ge(req)
    }
}

/// A positive value with no bit in common with its predecessor is a power of
/// two, and conversely.
proof fn lemma_low_bits_iff_pow2(n: i64)
    requires
        1 <= n,
    ensures
        (n & ((n - 1) as i64)) == 0 <==> is_pow2(n as int),
    decreases n,
{
    reveal(vstd::arithmetic::power2::is_pow2);
    if n == 1 {
        assert((1i64 & 0i64) == 0) by (bit_vector);
    } else {
        let h = (n / 2) as i64;
        assert(((n & ((n - 1) as i64)) == 0) <==> ((n & 1) == 0 && ((n >> 1) & (((n >> 1)
            - 1) as i64)) == 0)) by (bit_vector)
            requires
                2 <= n,
        ;
        assert(n >> 1 == n / 2 && ((n & 1) == 0 <==> n % 2 == 0)) by (bit_vector)
            requires
                2 <= n,
        ;
        lemma_low_bits_iff_pow2(h);
    }
}

/// Distinct powers of two are at least a factor of two apart.
proof fn lemma_pow2_double_le(a: int, b: int)
    requires
        is_pow2(a),
        is_pow2(b),
        a < b,
    ensures
        2 * a <= b,
    decreases b,
{
    reveal(vstd::arithmetic::power2::is_pow2);
    if a == 1 {
        assert(b >= 2);
        assert(b % 2 == 0);
    } else {
        lemma_pow2_double_le(a / 2, b / 2);
    }
}

/// A power of two is positive.
proof fn lemma_pow2_pos(a: int)
    requires
        is_pow2(a),
    ensures
        a >= 1,
{
    reveal(vstd::arithmetic::power2::is_pow2);
}

/// `least_pow2_ge` deserves its name: it is the smallest power of two at or
/// above its argument.
proof fn lemma_least_pow2_ge(n: int)
    requires
        1 <= n,
    ensures
        smallest_pow2_ge(least_pow2_ge(n), n),
    decreases n,
{
    reveal(vstd::arithmetic::power2::is_pow2);
    if n == 1 {
        assert forall|p: int| #[trigger] is_pow2(p) && p >= n implies least_pow2_ge(n) <= p by {
            lemma_pow2_pos(p);
        }
    } else {
        let m = (n + 1) / 2;
        lemma_least_pow2_ge(m);
        let c = least_pow2_ge(m);
        lemma_pow2_pos(c);
        assert(is_pow2(2 * c));
        assert(2 * c >= n);
        assert forall|p: int| #[trigger] is_pow2(p) && p >= n implies 2 * c <= p by {
            assert(p % 2 == 0);
            assert(is_pow2(p / 2));
            assert(p / 2 >= m);
            assert(c <= p / 2);
        }
    }
}

/// Two least powers of two over the same bound coincide.
proof fn lemma_smallest_pow2_unique(c1: int, c2: int, n: int)
    requires
        smallest_pow2_ge(c1, n),
        smallest_pow2_ge(c2, n),
    ensures
        c1 == c2,
{
}

/// Check is power of two
pub fn is_power_of_two(num: i64) -> (r: bool)
    requires
        num > i64::MIN,
    ensures
        num >= 1 ==> (r <==> is_pow2(num as int)),
        num == 0 ==> r,
        num < 0 ==> !r,
{
    proof {
        if num >= 1 {
            lemma_low_bits_iff_pow2(num);
        }
        if num == 0 {
            assert((0i64 & (-1i64)) == 0) by (bit_vector);
        }
        if num < 0 {
            assert(!((num & ((num - 1) as i64)) == 0)) by (bit_vector)
                requires
                    i64::MIN < num < 0,
            ;
        }
    }
    return (num & (num - 1)) == 0;
}

/// Find next power of two
pub fn next_power_of_two(num: i64) -> (r: i64)
    requires
        1 <= num <= MAX_CAPACITY,
    ensures
        r == realised_capacity(num as int),
        smallest_pow2_ge(r as int, num as int),
        1 <= r <= MAX_CAPACITY,
{
    let mut v: i64 = num;
    v -= 1;
    let ghost v0 = v;
    v |= v >> 1;
    let ghost v1 = v;
    v |= v >> 2;
    let ghost v2 = v;
    v |= v >> 4;
    let ghost v3 = v;
    v |= v >> 8;
    let ghost v4 = v;
    v |= v >> 16;
    let ghost v5 = v;
    v |= v >> 32;
    assert(0 <= v < 0x7fff_ffff_ffff_ffffi64 && ((v + 1) as i64) & v == 0 && v + 1 >= num && v + 1
        <= 2 * num - 1) by (bit_vector)
        requires
            1 <= num <= 0x4000_0000i64,
            v0 == ((num - 1) as i64),
            v1 == v0 | (v0 >> 1),
            v2 == v1 | (v1 >> 2),
            v3 == v2 | (v2 >> 4),
            v4 == v3 | (v3 >> 8),
            v5 == v4 | (v4 >> 16),
            v == v5 | (v5 >> 32),
    ;
    v += 1;
    proof {
        lemma_low_bits_iff_pow2(v);
        assert forall|p: int| #[trigger] is_pow2(p) && p >= num implies v as int <= p by {
            if p < v as int {
                lemma_pow2_double_le(p, v as int);
            }
        }
        lemma_least_pow2_ge(num as int);
        lemma_smallest_pow2_unique(v as int, least_pow2_ge(num as int), num as int);
        lemma_pow2_pos(v as int);
        reveal_with_fuel(vstd::arithmetic::power2::is_pow2, 32);
        assert(is_pow2(0x4000_0000));
    }
    return v;
}

/// Position `i` steps after `start` on a ring of `cap` slots, for
/// `0 <= start < cap` and `0 <= i <= cap`.
pub open spec fn wrap_at(start: int, i: int, cap: int) -> int {
    if start + i < cap {
        start + i
    } else {
        start + i - cap
    }
}

/// Whether slot `j` lies in the ring window that starts at `start` and is
/// `len` slots long, wrapping at `cap`.
pub open spec fn in_window(start: int, len: int, cap: int, j: int) -> bool {
    if start + len <= cap {
        start <= j < start + len
    } else {
        start <= j < cap || 0 <= j < start + len - cap
    }
}

/// Steps from cursor `from` forward to cursor `to` on a ring of `cap` slots.
pub open spec fn ring_dist(from: int, to: int, cap: int) -> int {
    if to >= from {
        to - from
    } else {
        to - from + cap
    }
}

/// Growing a window by one slot adds exactly the position one past its end.
proof fn lemma_window_extend(start: int, len: int, cap: int, j: int)
    requires
        0 <= start < cap,
        0 <= len < cap,
        0 <= j < cap,
    ensures
        in_window(start, len + 1, cap, j) <==> (in_window(start, len, cap, j) || j == wrap_at(
            start,
            len,
            cap,
        )),
{
}

/// A bounded FIFO of `capacity` slots, at most `capacity - 1` of them
/// occupied at once.
///
/// `write_idx` and `read_idx` are the shared cursors: in the intended
/// deployment they are the values the producer publishes after a push and
/// the consumer publishes after a drain.  The three cache fields are the
/// private working copies each side keeps so it can avoid re-reading the
/// shared cursor: the producer's cached read cursor may lag the true one,
/// which only makes the producer believe the ring fuller than it is.
///
/// The contracts here cover the cursor and slot discipline.  A two-thread
/// deployment owes each cursor two further properties that plain fields
/// cannot carry: the shared cursors must be published atomically with
/// release/acquire ordering, and every cursor field must sit on a cache
/// line of its own, or producer and consumer thrash each other's caches.
pub struct RingBuffer<T> {
    slots: Vec<Option<T>>,
    capacity: i64,
    consumer_read_idx_cache: i64,
    producer_write_idx_cache: i64,
    producer_read_idx_cache: i64,
    write_idx: i64,
    read_idx: i64,
}

impl<T> RingBuffer<T> {
    /// The number of slots, one of which always stays empty.
    pub closed spec fn spec_capacity(self) -> int {
        self.capacity as int
    }

    /// The number of items resident in the ring.
    pub closed spec fn spec_len(self) -> int {
        ring_dist(self.read_idx as int, self.write_idx as int, self.capacity as int)
    }

    /// How full the producer believes the ring to be, judging by its cached
    /// read cursor; never less than the true occupancy.
    spec fn believed_len(self) -> int {
        ring_dist(
            self.producer_read_idx_cache as int,
            self.write_idx as int,
            self.capacity as int,
        )
    }

    /// The ring's invariant: cursors in range, caches consistent (the
    /// producer's read cache may lag, but only towards over-estimating the
    /// occupancy), and exactly the slots of the occupied window hold items.
    pub closed spec fn wf(self) -> bool {
        &&& 1 <= self.capacity <= MAX_CAPACITY
        &&& self.slots@.len() == self.capacity
        &&& 0 <= self.read_idx < self.capacity
        &&& 0 <= self.write_idx < self.capacity
        &&& 0 <= self.producer_read_idx_cache < self.capacity
        &&& self.consumer_read_idx_cache == self.read_idx
        &&& self.producer_write_idx_cache == self.write_idx
        &&& self.spec_len() <= self.believed_len()
        &&& forall|j: int|
            0 <= j < self.capacity ==> ((#[trigger] self.slots@[j]) is Some <==> in_window(
                self.read_idx as int,
                self.spec_len(),
                self.capacity as int,
                j,
            ))
    }

    /// The ring is full: the write cursor sits one step behind the read
    /// cursor, so the reserved slot is the only empty one.
    pub closed spec fn spec_is_full(self) -> bool {
        wrap_at(self.write_idx as int, 1, self.capacity as int) == self.read_idx as int
    }

    /// Bounded residency: a well-formed ring holds at most `capacity - 1`
    /// items, whatever was pushed and drained before.
    pub proof fn lemma_bounded_residency(&self)
        requires
            self.wf(),
        ensures
            0 <= self@.len() <= self.spec_capacity() - 1,
    {
    }

    /// Back-pressure: the ring is full exactly when `capacity - 1` items
    /// are resident.  `push` demands a ring that is not full; on a full
    /// ring the producer's busy-wait would spin until the consumer drains,
    /// which in a single thread of control never happens.
    pub proof fn lemma_backpressure(&self)
        requires
            self.wf(),
        ensures
            self.spec_is_full() <==> self@.len() == self.spec_capacity() - 1,
    {
    }
}

impl<T> View for RingBuffer<T> {
    type V = Seq<T>;

    /// The resident items, oldest first.
    closed spec fn view(&self) -> Seq<T> {
        Seq::new(
            self.spec_len() as nat,
            |i: int|
                self.slots@[wrap_at(self.read_idx as int, i, self.capacity as int)]->Some_0,
        )
    }
}

impl<T> RingBuffer<T> {
    pub fn new(cap: i64) -> (r: RingBuffer<T>)
        requires
            cap <= MAX_CAPACITY,
        ensures
            r.wf(),
            r@ == Seq::<T>::empty(),
            r.spec_capacity() == realised_capacity(cap as int),
    {
        let mut capacity = cap;
        if capacity <= 0 {
            capacity = DEFAULT_CAPACITY;
            proof {
                reveal_with_fuel(vstd::arithmetic::power2::is_pow2, 12);
                assert(is_pow2(1024));
                lemma_least_pow2_ge(1024);
                lemma_smallest_pow2_unique(least_pow2_ge(1024), 1024, 1024);
            }
        }
        let capacity = next_power_of_two(capacity);

        let mut vec = Vec::<Option<T>>::new();
        let mut i: i64 = 0;
        while i < capacity
            invariant
                0 <= i <= capacity,
                vec@.len() == i,
                forall|j: int| 0 <= j < i ==> (#[trigger] vec@[j]) is None,
            decreases capacity - i,
        {
            vec.push(None);
            i += 1;
        }

        let r = RingBuffer {
            slots: vec,
            capacity: capacity,
            consumer_read_idx_cache: 0,
            producer_write_idx_cache: 0,
            producer_read_idx_cache: 0,
            write_idx: 0,
            read_idx: 0,
        };
        proof {
            assert(r@ =~= Seq::<T>::empty());
        }
        return r;
    }

    /// The realised capacity of the ring; `capacity - 1` slots are usable.
    pub fn capacity(&self) -> (r: i64)
        requires
            self.wf(),
        ensures
            r == self.spec_capacity(),
    {
        return self.capacity;
    }

    /// Enqueue one item at the write cursor.
    ///
    /// The producer works on its cached cursors: only when the cached read
    /// cursor makes the ring look full does it reload the shared read
    /// cursor.  The reload loop is the producer's busy-wait; it demands a
    /// ring that is not full, since here nothing can drain concurrently
    /// and the wait would otherwise never end.
    pub fn push(&mut self, val: T)
        requires
            old(self).wf(),
            old(self)@.len() < old(self).spec_capacity() - 1,
        ensures
            final(self).wf(),
            final(self)@ == old(self)@.push(val),
            final(self).spec_capacity() == old(self).spec_capacity(),
    {
        let tmp_write_idx = self.producer_write_idx_cache;
        let mut next_write_idx = tmp_write_idx + 1;
        if next_write_idx == self.capacity {
            next_write_idx = 0;
        }

        while next_write_idx == self.producer_read_idx_cache
            invariant
                self.wf(),
                self.capacity == old(self).capacity,
                self.slots == old(self).slots,
                self.read_idx == old(self).read_idx,
                self.write_idx == old(self).write_idx,
                self.consumer_read_idx_cache == old(self).consumer_read_idx_cache,
                self.producer_write_idx_cache == old(self).producer_write_idx_cache,
                self.spec_len() < self.spec_capacity() - 1,
                next_write_idx as int == wrap_at(self.write_idx as int, 1, self.capacity as int),
            decreases (if self.producer_read_idx_cache == self.read_idx {
                0int
            } else {
                1int
            }),
        {
            self.producer_read_idx_cache = self.read_idx;
        }

        self.slots[tmp_write_idx as usize] = Some(val);
        self.producer_write_idx_cache = next_write_idx;
        self.write_idx = next_write_idx;

        proof {
            let cap = self.capacity as int;
            let read = self.read_idx as int;
            let len = old(self).spec_len();
            assert forall|j: int| 0 <= j < cap implies ((#[trigger] self.slots@[j]) is Some
                <==> in_window(read, self.spec_len(), cap, j)) by {
                lemma_window_extend(read, len, cap, j);
            }
            assert(self@ =~= old(self)@.push(val)) by {
                assert forall|i: int| 0 <= i < len implies self@[i] == old(self)@[i] by {
                    assert(in_window(read, len, cap, wrap_at(read, i, cap)));
                }
            }
        }
    }

    /// Drain every item that is resident, oldest first.
    ///
    /// The consumer reads the shared write cursor once, takes that many
    /// items out of their slots, then publishes the advanced read cursor.
    /// Non-blocking: an empty ring yields an empty batch.  A slot found
    /// empty mid-batch is skipped without advancing the read position; the
    /// invariant rules the case out, the branch is purely defensive.
    pub fn batch_recv(&mut self) -> (r: Vec<T>)
        requires
            old(self).wf(),
        ensures
            final(self).wf(),
            r@ == old(self)@,
            final(self)@ == Seq::<T>::empty(),
            final(self).spec_capacity() == old(self).spec_capacity(),
    {
        let available_read = self.get_available_read();
        let mut out: Vec<T> = Vec::new();
        if available_read == 0 {
            proof {
                assert(out@ =~= old(self)@);
                assert(self@ =~= Seq::<T>::empty());
            }
            return out;
        }

        let ghost cap = self.capacity as int;
        let ghost read = self.read_idx as int;
        let mut tmp_idx = self.consumer_read_idx_cache;
        let mut k: i64 = 0;
        while k < available_read
            invariant
                0 <= k <= available_read,
                available_read == old(self)@.len(),
                cap == self.capacity as int,
                read == self.read_idx as int,
                old(self).wf(),
                self.capacity == old(self).capacity,
                self.read_idx == old(self).read_idx,
                self.write_idx == old(self).write_idx,
                self.consumer_read_idx_cache == old(self).consumer_read_idx_cache,
                self.producer_write_idx_cache == old(self).producer_write_idx_cache,
                self.producer_read_idx_cache == old(self).producer_read_idx_cache,
                self.slots@.len() == self.capacity,
                tmp_idx as int == wrap_at(read, k as int, cap),
                out@ == old(self)@.take(k as int),
                forall|j: int|
                    0 <= j < cap ==> (#[trigger] self.slots@[j]) == (if in_window(
                        read,
                        k as int,
                        cap,
                        j,
                    ) {
                        None::<T>
                    } else {
                        old(self).slots@[j]
                    }),
            decreases available_read - k,
        {
            let ghost prior_k = k as int;
            proof {
                assert(in_window(read, old(self).spec_len(), cap, tmp_idx as int));
                lemma_window_extend(read, prior_k, cap, tmp_idx as int);
            }
            match self.get_at(tmp_idx) {
                Some(msg) => {
                    out.push(msg);
                },
                None => {
                    // unreachable for a well-formed ring: the slot at the
                    // read position of an unconsumed offset holds an item
                    continue ;
                },
            }
            tmp_idx += 1;
            if tmp_idx == self.capacity {
                tmp_idx = 0;
            }
            k += 1;
            proof {
                assert(out@ =~= old(self)@.take(k as int)) by {
                    assert(old(self)@.take(k as int) =~= old(self)@.take(prior_k).push(
                        old(self)@[prior_k],
                    ));
                }
                assert forall|j: int|
                    0 <= j < cap implies (#[trigger] self.slots@[j]) == (if in_window(
                    read,
                    k as int,
                    cap,
                    j,
                ) {
                    None::<T>
                } else {
                    old(self).slots@[j]
                }) by {
                    lemma_window_extend(read, prior_k, cap, j);
                }
            }
        }

        proof {
            assert(tmp_idx as int == self.write_idx as int);
        }
        self.set_read_idx(tmp_idx);
        proof {
            assert(out@ =~= old(self)@);
            assert(self@ =~= Seq::<T>::empty());
        }
        return out;
    }

    /// Take the item out of slot `idx`, leaving the slot empty.  An index
    /// outside the slot vector yields nothing and changes nothing.
    fn get_at(&mut self, idx: i64) -> (r: Option<T>)
        requires
            old(self).slots@.len() <= MAX_CAPACITY,
        ensures
            final(self).capacity == old(self).capacity,
            final(self).read_idx == old(self).read_idx,
            final(self).write_idx == old(self).write_idx,
            final(self).consumer_read_idx_cache == old(self).consumer_read_idx_cache,
            final(self).producer_write_idx_cache == old(self).producer_write_idx_cache,
            final(self).producer_read_idx_cache == old(self).producer_read_idx_cache,
            0 <= idx < old(self).slots@.len() ==> r == old(self).slots@[idx as int]
                && final(self).slots@ == old(self).slots@.update(idx as int, None::<T>),
            !(0 <= idx < old(self).slots@.len()) ==> r is None && final(self).slots@ == old(
                self,
            ).slots@,
    {
        if idx < 0 || idx >= self.slots.len() as i64 {
            return None;
        }
        let slot = &mut self.slots[idx as usize];
        return slot.take();
    }

    /// Publish an advanced read cursor, updating the consumer's cache and
    /// the shared cursor together.
    fn set_read_idx(&mut self, read_idx: i64)
        ensures
            final(self).capacity == old(self).capacity,
            final(self).slots@ == old(self).slots@,
            final(self).write_idx == old(self).write_idx,
            final(self).producer_write_idx_cache == old(self).producer_write_idx_cache,
            final(self).producer_read_idx_cache == old(self).producer_read_idx_cache,
            final(self).read_idx == read_idx,
            final(self).consumer_read_idx_cache == read_idx,
    {
        self.consumer_read_idx_cache = read_idx;
        self.read_idx = read_idx;
    }

    /// How many items a drain would deliver right now.
    pub fn get_available_read(&self) -> (r: i64)
        requires
            self.wf(),
        ensures
            r == self@.len(),
    {
        let tmp_write_idx = self.write_idx;
        let mut diff = tmp_write_idx - self.consumer_read_idx_cache;
        if diff < 0 {
            diff += self.capacity;
        }
        return diff;
    }
}

/// Build a fresh ring for the requested capacity; the producer side pushes
/// into it and the consumer side drains it.
pub fn new<T>(cap: i64) -> (r: RingBuffer<T>)
    requires
        cap <= MAX_CAPACITY,
    ensures
        r.wf(),
        r@ == Seq::<T>::empty(),
        r.spec_capacity() == realised_capacity(cap as int),
{
    let rb = RingBuffer::<T>::new(cap);
    return rb;
}

/// One step of a producer/consumer run: the producer pushes an item, or the
/// consumer drains the whole ring in one batch.
pub enum RingEvent<T> {
    Push(T),
    Drain,
}

/// Every item the producer pushed during `events`, in push order.
pub open spec fn pushed_items<T>(events: Seq<RingEvent<T>>) -> Seq<T>
    decreases events.len(),
{
    if events.len() == 0 {
        Seq::empty()
    } else {
        let rest = pushed_items(events.drop_last());
        match events.last() {
            RingEvent::Push(v) => rest.push(v),
            RingEvent::Drain => rest,
        }
    }
}

/// The items resident in the ring after `events`, oldest first: what `push`
/// appends to and what `batch_recv` empties, by their contracts.
pub open spec fn resident_after<T>(events: Seq<RingEvent<T>>) -> Seq<T>
    decreases events.len(),
{
    if events.len() == 0 {
        Seq::empty()
    } else {
        match events.last() {
            RingEvent::Push(v) => resident_after(events.drop_last()).push(v),
            RingEvent::Drain => Seq::empty(),
        }
    }
}

/// Every item the consumer received during `events`, in delivery order:
/// each drain delivers what was resident, by `batch_recv`'s contract.
pub open spec fn delivered_after<T>(events: Seq<RingEvent<T>>) -> Seq<T>
    decreases events.len(),
{
    if events.len() == 0 {
        Seq::empty()
    } else {
        let rest = delivered_after(events.drop_last());
        match events.last() {
            RingEvent::Push(_) => rest,
            RingEvent::Drain => rest + resident_after(events.drop_last()),
        }
    }
}

/// Conservation: over any run, what was delivered followed by what is still
/// resident is exactly what was pushed — no item is lost, duplicated or
/// invented, and the order is kept.
pub proof fn lemma_run_conservation<T>(events: Seq<RingEvent<T>>)
    ensures
        delivered_after(events) + resident_after(events) == pushed_items(events),
    decreases events.len(),
{
    if events.len() == 0 {
        assert(delivered_after(events) + resident_after(events) =~= pushed_items(events));
    } else {
        let prior = events.drop_last();
        lemma_run_conservation(prior);
        match events.last() {
            RingEvent::Push(v) => {
                assert(delivered_after(events) + resident_after(events) =~= (delivered_after(
                    prior,
                ) + resident_after(prior)).push(v));
                assert(pushed_items(events) =~= (delivered_after(prior) + resident_after(
                    prior,
                )).push(v));
            },
            RingEvent::Drain => {
                assert(delivered_after(events) + resident_after(events) =~= delivered_after(
                    prior,
                ) + resident_after(prior));
            },
        }
    }
}

/// FIFO: over any run, the consumer has received exactly a prefix of the
/// pushed items, in push order.
pub proof fn lemma_run_fifo<T>(events: Seq<RingEvent<T>>)
    ensures
        delivered_after(events) == pushed_items(events).take(
            delivered_after(events).len() as int,
        ),
{
    lemma_run_conservation(events);
    assert(delivered_after(events) =~= pushed_items(events).take(
        delivered_after(events).len() as int,
    ));
}

/// Conservation, as multisets: over any run, the items delivered and the
/// items still resident together are exactly the items pushed.
pub proof fn lemma_run_multiset_conservation<T>(events: Seq<RingEvent<T>>)
    ensures
        delivered_after(events).to_multiset().add(resident_after(events).to_multiset())
            == pushed_items(events).to_multiset(),
{
    lemma_run_conservation(events);
    vstd::seq_lib::lemma_multiset_commutative(delivered_after(events), resident_after(events));
}

} // verus!
