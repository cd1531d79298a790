//! The multi-producer/single-consumer fan-in: one SPSC ring per publisher,
//! a single consumer draining all of them round-robin.
//!
//! The fan-in owns the consumer side of every ring it vends.  A publisher is
//! named by the index it was handed out under; pushes address the ring of
//! that publisher alone, so the per-ring FIFO order is kept per publisher,
//! while items of different publishers are only ordered by the scan order of
//! the drain pass that delivers them.

use vstd::prelude::*;

verus! {

use vstd::multiset::Multiset;
use crate::spsc_queue::{realised_capacity, RingBuffer, MAX_CAPACITY};

/// A fan-in of independent rings, one per vended publisher, all created
/// with the same requested capacity.
pub struct MPSC<T> {
    capacity: i64,
    subs: Subscriber<T>,
}

/// The consumer side of a fan-in: the rings of every vended publisher, in
/// the order the publishers were requested.
pub struct Subscriber<T> {
    subscribers: Vec<RingBuffer<T>>,
}

impl<T> Subscriber<T> {
    /// The rings themselves, for contracts that need more than the items.
    pub closed spec fn spec_rings(self) -> Seq<RingBuffer<T>> {
        self.subscribers@
    }

    /// Every ring is well-formed.
    pub open spec fn wf(self) -> bool {
        forall|i: int|
            0 <= i < self.spec_rings().len() ==> (#[trigger] self.spec_rings()[i]).wf()
    }
}

impl<T> View for Subscriber<T> {
    type V = Seq<Seq<T>>;

    /// The resident items of each ring, in publisher order.
    closed spec fn view(&self) -> Seq<Seq<T>> {
        Seq::new(self.subscribers@.len(), |i: int| self.subscribers@[i]@)
    }
}

impl<T> Subscriber<T> {
    /// Drain every ring, in publisher order, into one batch.
    ///
    /// Within a single pass the items of one publisher keep their push
    /// order and stay contiguous; across publishers the order is the scan
    /// order, nothing more.
    pub fn batch_recv(&mut self) -> (r: Vec<T>)
        requires
            old(self).wf(),
        ensures
            final(self).wf(),
            r@ == old(self)@.flatten(),
            final(self)@ == Seq::new(old(self)@.len(), |i: int| Seq::<T>::empty()),
            final(self).spec_rings().len() == old(self).spec_rings().len(),
            forall|i: int|
                0 <= i < old(self).spec_rings().len() ==> (#[trigger] final(self).spec_rings()[i]).spec_capacity()
                    == old(self).spec_rings()[i].spec_capacity(),
    {
        let ghost n = old(self)@.len();
        let mut out: Vec<T> = Vec::new();
        let mut i: usize = 0;
        proof {
            assert(old(self)@.take(0) =~= Seq::<Seq<T>>::empty());
            assert(out@ =~= old(self)@.take(0).flatten());
        }
        while i < self.subscribers.len()
            invariant
                0 <= i <= n,
                old(self).wf(),
                n == old(self)@.len(),
                self.subscribers@.len() == n,
                forall|j: int| 0 <= j < n ==> (#[trigger] self.subscribers@[j]).wf(),
                forall|j: int|
                    0 <= j < n ==> (#[trigger] self.subscribers@[j]).spec_capacity() == old(
                        self,
                    ).spec_rings()[j].spec_capacity(),
                forall|j: int| i <= j < n ==> (#[trigger] self.subscribers@[j])@ == old(self)@[j],
                forall|j: int| 0 <= j < i ==> (#[trigger] self.subscribers@[j])@ == Seq::<T>::empty(),
                out@ == old(self)@.take(i as int).flatten(),
            decreases n - i,
        {
            let ghost prior_i = i as int;
            let ring = &mut self.subscribers[i];
            let mut part = ring.batch_recv();
            out.append(&mut part);
            i += 1;
            proof {
                assert(old(self)@.take(i as int) =~= old(self)@.take(prior_i).push(
                    old(self)@[prior_i],
                ));
                old(self)@.take(prior_i).lemma_flatten_push(old(self)@[prior_i]);
            }
        }
        proof {
            assert(old(self)@.take(n as int) =~= old(self)@);
            assert(self@ =~= Seq::new(old(self)@.len(), |i: int| Seq::<T>::empty()));
        }
        return out;
    }
}

impl<T> MPSC<T> {
    /// The per-publisher capacity this fan-in was configured with.
    pub closed spec fn spec_capacity(self) -> int {
        self.capacity as int
    }

    /// The fan-in's rings, for contracts that need more than the items.
    pub closed spec fn spec_rings(self) -> Seq<RingBuffer<T>> {
        self.subs.spec_rings()
    }

    /// Every ring is well-formed and realises the configured capacity.
    pub open spec fn wf(self) -> bool {
        &&& self.spec_capacity() <= MAX_CAPACITY
        &&& forall|i: int|
            0 <= i < self.spec_rings().len() ==> (#[trigger] self.spec_rings()[i]).wf()
                && self.spec_rings()[i].spec_capacity() == realised_capacity(self.spec_capacity())
    }

    pub fn new(cap: i64) -> (r: MPSC<T>)
        requires
            cap <= MAX_CAPACITY,
        ensures
            r.wf(),
            r@ == Seq::<Seq<T>>::empty(),
            r.spec_capacity() == cap as int,
    {
        let sub = Subscriber { subscribers: Vec::<RingBuffer<T>>::new() };
        let r = MPSC { capacity: cap, subs: sub };
        proof {
            assert(r@ =~= Seq::<Seq<T>>::empty());
        }
        return r;
    }

    /// Get a new publisher
    /// This will create a new ring and add its consumer side to the
    /// subscriber; the returned index names the ring that `push` feeds.
    pub fn get_publisher(&mut self) -> (publisher: usize)
        requires
            old(self).wf(),
        ensures
            final(self).wf(),
            final(self).spec_capacity() == old(self).spec_capacity(),
            publisher == old(self)@.len(),
            final(self)@ == old(self)@.push(Seq::<T>::empty()),
    {
        let rx = crate::spsc_queue::new::<T>(self.capacity);
        let publisher = self.subs.subscribers.len();
        self.subs.subscribers.push(rx);
        proof {
            assert(self@ =~= old(self)@.push(Seq::<T>::empty()));
            assert forall|i: int| 0 <= i < self.spec_rings().len() implies (
            #[trigger] self.spec_rings()[i]).wf() && self.spec_rings()[i].spec_capacity()
                == realised_capacity(self.spec_capacity()) by {
                if i < old(self).spec_rings().len() {
                    assert(old(self).spec_rings()[i].wf());
                    assert(old(self).spec_rings()[i].spec_capacity() == realised_capacity(
                        old(self).spec_capacity(),
                    ));
                }
            }
        }
        return publisher;
    }

    /// Enqueue one item on the ring of the given publisher.  The ring must
    /// not be full: see `RingBuffer::push`.
    pub fn push(&mut self, publisher: usize, val: T)
        requires
            old(self).wf(),
            publisher < old(self)@.len(),
            old(self)@[publisher as int].len() < realised_capacity(old(self).spec_capacity()) - 1,
        ensures
            final(self).wf(),
            final(self).spec_capacity() == old(self).spec_capacity(),
            final(self)@ == old(self)@.update(
                publisher as int,
                old(self)@[publisher as int].push(val),
            ),
    {
        proof {
            assert(old(self).spec_rings()[publisher as int].wf());
            assert(old(self)@[publisher as int] == old(self).spec_rings()[publisher as int]@);
        }
        let ring = &mut self.subs.subscribers[publisher];
        ring.push(val);
        proof {
            assert(self@ =~= old(self)@.update(
                publisher as int,
                old(self)@[publisher as int].push(val),
            ));
        }
    }

    /// Drain every publisher's ring, in publisher order, into one batch.
    pub fn batch_recv(&mut self) -> (r: Vec<T>)
        requires
            old(self).wf(),
        ensures
            final(self).wf(),
            final(self).spec_capacity() == old(self).spec_capacity(),
            r@ == old(self)@.flatten(),
            final(self)@ == Seq::new(old(self)@.len(), |i: int| Seq::<T>::empty()),
    {
        proof {
            assert forall|i: int| 0 <= i < self.subs.spec_rings().len() implies (
            #[trigger] self.subs.spec_rings()[i]).wf() by {
                assert(self.spec_rings()[i].wf());
            }
        }
        let r = self.subs.batch_recv();
        proof {
            assert forall|i: int| 0 <= i < self.spec_rings().len() implies (
            #[trigger] self.spec_rings()[i]).wf() && self.spec_rings()[i].spec_capacity()
                == realised_capacity(self.spec_capacity()) by {
                assert(self.subs.spec_rings()[i].wf());
                assert(self.subs.spec_rings()[i].spec_capacity() == old(
                    self,
                ).subs.spec_rings()[i].spec_capacity());
                assert(old(self).spec_rings()[i].spec_capacity() == realised_capacity(
                    old(self).spec_capacity(),
                ));
            }
        }
        return r;
    }

    /// Borrow the subscriber
    pub fn get_borrowed_subscriber(&mut self) -> (r: &mut Subscriber<T>)
        ensures
            r@ == old(self)@,
            r.spec_rings() == old(self).spec_rings(),
            final(self)@ == final(r)@,
            final(self).spec_rings() == final(r).spec_rings(),
            final(self).spec_capacity() == old(self).spec_capacity(),
    {
        return &mut self.subs;
    }
}

impl<T> View for MPSC<T> {
    type V = Seq<Seq<T>>;

    /// The resident items of each publisher's ring, in publisher order.
    closed spec fn view(&self) -> Seq<Seq<T>> {
        self.subs@
    }
}

/// The items of all the rings taken together, with no order.
pub open spec fn multiset_union<T>(qs: Seq<Seq<T>>) -> Multiset<T>
    decreases qs.len(),
{
    if qs.len() == 0 {
        Multiset::empty()
    } else {
        qs.first().to_multiset().add(multiset_union(qs.drop_first()))
    }
}

/// Fan-in conservation: one drain pass delivers exactly the multiset union
/// of what the publishers' rings held — nothing lost, nothing duplicated.
pub proof fn lemma_fanin_conservation<T>(qs: Seq<Seq<T>>)
    ensures
        qs.flatten().to_multiset() == multiset_union(qs),
    decreases qs.len(),
{
    broadcast use vstd::seq_lib::group_to_multiset_ensures;

    if qs.len() == 0 {
        assert(qs.flatten().to_multiset() =~= Multiset::<T>::empty());
    } else {
        lemma_fanin_conservation(qs.drop_first());
        vstd::seq_lib::lemma_multiset_commutative(qs.first(), qs.drop_first().flatten());
        assert(qs.flatten().to_multiset() =~= multiset_union(qs));
    }
}

/// Fan-in order: in one drain pass the items of publisher `i` stay
/// contiguous and in their push order, between the items of the publishers
/// before and after it in scan order.
pub proof fn lemma_fanin_order<T>(qs: Seq<Seq<T>>, i: int)
    requires
        0 <= i < qs.len(),
    ensures
        qs.flatten() == qs.take(i).flatten() + qs[i] + qs.skip(i + 1).flatten(),
{
    let mid = seq![qs[i]];
    assert(qs =~= qs.take(i) + mid + qs.skip(i + 1));
    vstd::seq_lib::lemma_flatten_concat(qs.take(i) + mid, qs.skip(i + 1));
    vstd::seq_lib::lemma_flatten_concat(qs.take(i), mid);
    mid.lemma_flatten_one_element();
    assert(qs.flatten() =~= qs.take(i).flatten() + qs[i] + qs.skip(i + 1).flatten());
}

} // verus!
