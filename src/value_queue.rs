use crate::packet::SensorValue;
use vstd::prelude::*;

verus! {

#[verifier::external_type_specification]
#[verifier::external_body]
#[verifier::reject_recursive_types(T)]
pub struct ExSpscQueue<T, const N: usize>(heapless::spsc::Queue<T, N>);

/// The values a queue holds, oldest first.
pub uninterp spec fn queued_values(q: heapless::spsc::Queue<SensorValue, 5>) -> Seq<SensorValue>;

/// How many values the queue between sampling and uplink holds.
pub const VALUES_QUEUE_SIZE: usize = 4;

/// Relies on heapless::spsc::Queue::new: the queue starts empty.
#[verifier::external_body]
fn spsc_new() -> (r: heapless::spsc::Queue<SensorValue, 5>)
    ensures
        queued_values(r) == Seq::<SensorValue>::empty(),
{
    heapless::spsc::Queue::new()
}

/// Relies on heapless::spsc::Queue::enqueue: with `N = 5` the queue holds
/// four values; a value that finds it full is handed back and the queue is
/// left as it was.
#[verifier::external_body]
fn spsc_enqueue(q: &mut heapless::spsc::Queue<SensorValue, 5>, v: SensorValue) -> (r: bool)
    ensures
        r == (queued_values(*old(q)).len() < 4),
        r ==> queued_values(*final(q)) == queued_values(*old(q)).push(v),
        !r ==> queued_values(*final(q)) == queued_values(*old(q)),
{
    q.enqueue(v).is_ok()
}

/// Relies on heapless::spsc::Queue::dequeue: takes the oldest value, or
/// `None` from an empty queue.
#[verifier::external_body]
fn spsc_dequeue(q: &mut heapless::spsc::Queue<SensorValue, 5>) -> (r: Option<SensorValue>)
    ensures
        queued_values(*old(q)).len() == 0 ==> r is None && queued_values(*final(q))
            == queued_values(*old(q)),
        queued_values(*old(q)).len() > 0 ==> r == Some(queued_values(*old(q))[0]) && queued_values(
            *final(q),
        ) == queued_values(*old(q)).skip(1),
{
    q.dequeue()
}

/// The bounded FIFO of sampled values waiting for the uplink. When it is
/// full the newest value is dropped.
pub struct ValueQueue {
    q: heapless::spsc::Queue<SensorValue, 5>,
}

impl ValueQueue {
    /// The queued values, oldest first.
    pub closed spec fn values(&self) -> Seq<SensorValue> {
        queued_values(self.q)
    }

    pub closed spec fn wf(&self) -> bool {
        queued_values(self.q).len() <= VALUES_QUEUE_SIZE
    }

    pub fn new() -> (r: ValueQueue)
        ensures
            r.wf(),
            r.values() == Seq::<SensorValue>::empty(),
    {
        ValueQueue { q: spsc_new() }
    }

    /// Adds `v` at the back; `false` when the queue is full, and `v` is
    /// dropped.
    pub fn enqueue(&mut self, v: SensorValue) -> (r: bool)
        requires
            old(self).wf(),
        ensures
            final(self).wf(),
            r == (old(self).values().len() < VALUES_QUEUE_SIZE),
            r ==> final(self).values() == old(self).values().push(v),
            !r ==> final(self).values() == old(self).values(),
    {
        spsc_enqueue(&mut self.q, v)
    }

    /// Takes the oldest value.
    pub fn dequeue(&mut self) -> (r: Option<SensorValue>)
        requires
            old(self).wf(),
        ensures
            final(self).wf(),
            old(self).values().len() == 0 ==> r is None && final(self).values() == old(self).values(),
            old(self).values().len() > 0 ==> r == Some(old(self).values()[0]) && final(self).values() == old(self).values().skip(1),
    {
        spsc_dequeue(&mut self.q)
    }

    /// Takes every queued value, oldest first, into one batch.
    pub fn drain(&mut self) -> (r: Vec<SensorValue>)
        requires
            old(self).wf(),
        ensures
            final(self).wf(),
            r@ == old(self).values(),
            r@.len() <= VALUES_QUEUE_SIZE,
            final(self).values() == Seq::<SensorValue>::empty(),
    {
        let mut out: Vec<SensorValue> = Vec::new();
        loop
            invariant
                self.wf(),
                old(self).wf(),
                out@ + self.values() == old(self).values(),
            decreases self.values().len(),
        {
            let ghost before = self.values();
            match self.dequeue() {
                Some(v) => {
                    out.push(v);
                    assert(out@ + self.values() =~= old(self).values()) by {
                        assert(before =~= seq![v] + before.skip(1));
                    }
                },
                None => {
                    assert(out@ =~= old(self).values());
                    return out;
                },
            }
        }
    }
}

} // verus!
