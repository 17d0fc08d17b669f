//! The pipeline that drives both passes: a source, a pool of workers and an
//! aggregate, joined by two bounded queues.
//!
//! `run` is the pipeline on one thread: the three roles take turns, and a
//! role yields its turn where its queue is full or empty. It is one schedule
//! of the roles, the one in which the outputs arrive in the order of their
//! items; of other schedules nothing is stated here.

use crate::error::{Error, ErrorKind};
use vstd::prelude::*;

verus! {

/// A queue that holds at most `capacity` items and hands them out in the
/// order in which they came.
pub struct BoundedQueue<T> {
    items: Vec<T>,
    capacity: usize,
}

/// What a `BoundedQueue` stands for.
pub struct BoundedQueueView<T> {
    /// The items in the queue, the oldest first.
    pub items: Seq<T>,
    /// The number of items that the queue can hold.
    pub capacity: nat,
}

impl<T> View for BoundedQueue<T> {
    type V = BoundedQueueView<T>;

    closed spec fn view(&self) -> BoundedQueueView<T> {
        BoundedQueueView { items: self.items@, capacity: self.capacity as nat }
    }
}

impl<T> BoundedQueue<T> {
    /// The queue holds no more than its capacity.
    pub open spec fn wf(&self) -> bool {
        self@.items.len() <= self@.capacity
    }

    /// An empty queue for at most `capacity` items.
    pub fn bounded(capacity: usize) -> (queue: Self)
        ensures
            queue@ == (BoundedQueueView { items: Seq::<T>::empty(), capacity: capacity as nat }),
            queue.wf(),
    {
        BoundedQueue { items: Vec::new(), capacity }
    }

    /// Whether the queue holds no item.
    pub fn is_empty(&self) -> (r: bool)
        ensures
            r == (self@.items.len() == 0),
    {
        self.items.len() == 0
    }

    /// Whether the queue holds as many items as it can.
    pub fn is_full(&self) -> (r: bool)
        ensures
            r == (self@.items.len() >= self@.capacity),
    {
        self.items.len() >= self.capacity
    }

    /// Puts `item` at the end of the queue. A full queue hands it back.
    pub fn send(&mut self, item: T) -> (r: Result<(), T>)
        ensures
            final(self)@.capacity == old(self)@.capacity,
            old(self)@.items.len() < old(self)@.capacity ==> r is Ok && final(self)@.items
                == old(self)@.items.push(item),
            old(self)@.items.len() >= old(self)@.capacity ==> r == Err::<(), T>(item)
                && final(self)@.items == old(self)@.items,
            old(self).wf() ==> final(self).wf(),
    {
        if self.items.len() >= self.capacity {
            Err(item)
        } else {
            self.items.push(item);
            Ok(())
        }
    }

    /// Takes the oldest item out of the queue.
    pub fn recv(&mut self) -> (r: Option<T>)
        ensures
            final(self)@.capacity == old(self)@.capacity,
            old(self)@.items.len() > 0 ==> r == Some(old(self)@.items[0]) && final(self)@.items
                == old(self)@.items.drop_first(),
            old(self)@.items.len() == 0 ==> r is None && final(self)@.items == old(self)@.items,
            old(self).wf() ==> final(self).wf(),
    {
        if self.items.len() == 0 {
            None
        } else {
            let item = self.items.remove(0);
            assert(self.items@ =~= old(self).items@.drop_first());
            Some(item)
        }
    }
}

/// The work of one pass: what a worker makes of an item.
pub trait ConcurrentRunner {
    /// What the source hands to the workers.
    type ProducerItem;

    /// What a worker hands to the aggregate.
    type ConsumerItem;

    /// Whether a worker can take `item`.
    spec fn accepts(&self, item: &Self::ProducerItem) -> bool;

    /// Whether `out` is what a worker makes of `item`; `None` stands for an
    /// item that yields nothing.
    spec fn yields(&self, item: &Self::ProducerItem, out: Option<Self::ConsumerItem>) -> bool;

    /// Works on one item. An item may yield nothing: that is no error.
    fn consumer(&self, item: &Self::ProducerItem) -> (out: Option<Self::ConsumerItem>)
        requires
            self.accepts(item),
        ensures
            self.yields(item, out),
    ;
}

/// Whether `outputs` is what the workers make of `items`: each item has
/// yielded nothing or one output, and the outputs stand in the order of
/// their items.
pub open spec fn collected<R: ConcurrentRunner>(
    runner: &R,
    items: Seq<R::ProducerItem>,
    outputs: Seq<R::ConsumerItem>,
) -> bool
    decreases items.len(),
{
    if items.len() == 0 {
        outputs.len() == 0
    } else {
        ||| runner.yields(&items.last(), None) && collected(runner, items.drop_last(), outputs)
        ||| outputs.len() > 0 && runner.yields(&items.last(), Some(outputs.last())) && collected(
            runner,
            items.drop_last(),
            outputs.drop_last(),
        )
    }
}

/// The positions from `from` up to `to`, in order.
pub open spec fn positions(from: int, to: int) -> Seq<usize> {
    Seq::new((to - from) as nat, |k: int| (from + k) as usize)
}

/// Runs the pipeline over `items` with queues of capacity `n_threads`. The
/// source pushes items while the first queue has room; the workers take them
/// one by one and push what they make into the second queue; the aggregate
/// drains the second queue into the result. No queue ever refuses an item, so
/// the run cannot fail.
pub fn run<R: ConcurrentRunner>(runner: &R, items: &Vec<R::ProducerItem>, n_threads: usize) -> (result:
    Result<Vec<R::ConsumerItem>, Error>)
    requires
        n_threads >= 1,
        forall|i: int| 0 <= i < items@.len() ==> runner.accepts(&#[trigger] items@[i]),
    ensures
        result is Ok,
        collected(runner, items@, result.unwrap()@),
{
    let mut producer_queue: BoundedQueue<usize> = BoundedQueue::bounded(n_threads);
    let mut consumer_queue: BoundedQueue<R::ConsumerItem> = BoundedQueue::bounded(n_threads);
    let mut output: Vec<R::ConsumerItem> = Vec::new();
    let mut sent: usize = 0;
    let ghost mut done: int = 0;
    assert(items@.take(0) =~= Seq::<R::ProducerItem>::empty());
    assert(producer_queue@.items =~= positions(0, 0));
    assert(output@ + consumer_queue@.items =~= Seq::<R::ConsumerItem>::empty());
    while sent < items.len()
        invariant
            n_threads >= 1,
            forall|i: int| 0 <= i < items@.len() ==> runner.accepts(&#[trigger] items@[i]),
            sent <= items.len(),
            done == sent,
            producer_queue@.capacity == n_threads,
            consumer_queue@.capacity == n_threads,
            producer_queue@.items.len() == 0,
            consumer_queue@.items.len() == 0,
            collected(runner, items@.take(done), output@),
        decreases items.len() - sent,
    {
        // The source pushes until the queue is full or the items are out.
        while sent < items.len() && !producer_queue.is_full()
            invariant
                sent <= items.len(),
                0 <= done <= sent,
                producer_queue@.capacity == n_threads,
                producer_queue.wf(),
                producer_queue@.items == positions(done, sent as int),
            decreases items.len() - sent,
        {
            let ghost before = producer_queue@.items;
            match producer_queue.send(sent) {
                Ok(()) => {},
                Err(_) => {
                    return Err(Error::new(ErrorKind::Concurrent, "Sender error"));
                },
            }
            assert(producer_queue@.items =~= positions(done, sent + 1));
            sent += 1;
        }
        // The workers take what the source pushed.
        while !producer_queue.is_empty()
            invariant
                forall|i: int| 0 <= i < items@.len() ==> runner.accepts(&#[trigger] items@[i]),
                sent <= items.len(),
                0 <= done <= sent,
                producer_queue@.capacity == n_threads,
                consumer_queue@.capacity == n_threads,
                producer_queue@.items == positions(done, sent as int),
                producer_queue@.items.len() + consumer_queue@.items.len() <= n_threads,
                collected(runner, items@.take(done), output@ + consumer_queue@.items),
            decreases producer_queue@.items.len(),
        {
            let ghost waiting = producer_queue@.items;
            let ghost made = output@ + consumer_queue@.items;
            let at = match producer_queue.recv() {
                Some(at) => at,
                None => {
                    return Err(Error::new(ErrorKind::Concurrent, "Receiver error"));
                },
            };
            assert(at == done);
            assert(producer_queue@.items =~= positions(done + 1, sent as int));
            proof {
                assert(items@.take(done + 1).drop_last() =~= items@.take(done));
                assert(items@.take(done + 1).last() == items@[done]);
            }
            match runner.consumer(&items[at]) {
                Some(out) => {
                    match consumer_queue.send(out) {
                        Ok(()) => {},
                        Err(_) => {
                            return Err(Error::new(ErrorKind::Concurrent, "Sender error"));
                        },
                    }
                    proof {
                        let grown = output@ + consumer_queue@.items;
                        assert(grown =~= made.push(out));
                        assert(grown.drop_last() =~= made);
                        assert(grown.last() == out);
                    }
                },
                None => {},
            }
            proof {
                done = done + 1;
            }
        }
        // The aggregate drains what the workers pushed.
        while !consumer_queue.is_empty()
            invariant
                consumer_queue@.capacity == n_threads,
                collected(runner, items@.take(done), output@ + consumer_queue@.items),
            decreases consumer_queue@.items.len(),
        {
            let ghost made = output@ + consumer_queue@.items;
            match consumer_queue.recv() {
                Some(out) => {
                    output.push(out);
                },
                None => {},
            }
            assert(output@ + consumer_queue@.items =~= made);
        }
        assert(output@ + consumer_queue@.items =~= output@);
        assert(producer_queue@.items.len() == 0);
    }
    assert(items@.take(items@.len() as int) =~= items@);
    Ok(output)
}

/// Where no item yields nothing, the aggregate receives exactly one output
/// for each item: none is lost and none comes twice.
pub proof fn lemma_every_item_arrives<R: ConcurrentRunner>(
    runner: &R,
    items: Seq<R::ProducerItem>,
    outputs: Seq<R::ConsumerItem>,
)
    requires
        collected(runner, items, outputs),
        forall|i: int| 0 <= i < items.len() ==> !runner.yields(&#[trigger] items[i], None),
    ensures
        outputs.len() == items.len(),
    decreases items.len(),
{
    if items.len() > 0 {
        assert(!runner.yields(&items[items.len() - 1], None));
        lemma_every_item_arrives(runner, items.drop_last(), outputs.drop_last());
    }
}

} // verus!
