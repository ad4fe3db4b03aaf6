//! Write batching of the ingestion pipeline and of the symbol archives:
//! records queue up until a batch is full, and a flush hands every queued
//! record, in arrival order, to the writer.
use vstd::prelude::*;

verus! {

/// Abstract state of a [`BatchQueue`]: the queued records, oldest first,
/// and the batch size that triggers a flush.
pub struct BatchQueueView<T> {
    pub pending: Seq<T>,
    pub batch_size: usize,
}

/// Records waiting to be written, flushed as one batch once `batch_size`
/// of them are queued.
#[derive(Debug)]
pub struct BatchQueue<T> {
    pending: Vec<T>,
    batch_size: usize,
}

impl<T> View for BatchQueue<T> {
    type V = BatchQueueView<T>;

    closed spec fn view(&self) -> BatchQueueView<T> {
        BatchQueueView { pending: self.pending@, batch_size: self.batch_size }
    }
}

/// What queuing `item` does: the queue with the item appended, flushed whole
/// when that reaches the batch size. Returns the batch to write (if any)
/// and the records left queued.
pub open spec fn push_outcome<T>(pending: Seq<T>, item: T, batch_size: usize) -> (Option<Seq<T>>, Seq<T>) {
    let all = pending.push(item);
    if all.len() >= batch_size { (Some(all), Seq::empty()) } else { (None, all) }
}

impl<T> BatchQueue<T> {
    /// An empty queue flushing every `batch_size` records.
    pub fn new(batch_size: usize) -> (q: Self)
        ensures
            q@.pending == Seq::<T>::empty(),
            q@.batch_size == batch_size,
    {
        BatchQueue { pending: Vec::new(), batch_size }
    }

    /// Queues `item`; when the queue then holds `batch_size` records or
    /// more, all of them are taken out and returned as the batch to write.
    pub fn push(&mut self, item: T) -> (batch: Option<Vec<T>>)
        ensures
            final(self)@.batch_size == old(self)@.batch_size,
            final(self)@.pending == push_outcome(old(self)@.pending, item, old(self)@.batch_size).1,
            match push_outcome(old(self)@.pending, item, old(self)@.batch_size).0 {
                Some(b) => batch matches Some(v) && v@ == b,
                None => batch is None,
            },
    {
        self.pending.push(item);
        if self.pending.len() >= self.batch_size {
            let mut taken: Vec<T> = Vec::new();
            std::mem::swap(&mut taken, &mut self.pending);
            Some(taken)
        } else {
            None
        }
    }

    /// Takes out every queued record, or nothing when none is queued.
    pub fn take_all(&mut self) -> (batch: Option<Vec<T>>)
        ensures
            final(self)@.batch_size == old(self)@.batch_size,
            final(self)@.pending == Seq::<T>::empty(),
            old(self)@.pending.len() == 0 ==> batch is None,
            old(self)@.pending.len() > 0 ==> (batch matches Some(v) && v@ == old(self)@.pending),
    {
        if self.pending.len() == 0 {
            return None;
        }
        let mut taken: Vec<T> = Vec::new();
        std::mem::swap(&mut taken, &mut self.pending);
        Some(taken)
    }

    /// Takes out every queued record when a full batch is queued (the
    /// periodic flush); otherwise leaves the queue as it is.
    pub fn take_if_full(&mut self) -> (batch: Option<Vec<T>>)
        ensures
            final(self)@.batch_size == old(self)@.batch_size,
            old(self)@.pending.len() >= old(self)@.batch_size ==>
                (batch matches Some(v) && v@ == old(self)@.pending) && final(self)@.pending == Seq::<T>::empty(),
            old(self)@.pending.len() < old(self)@.batch_size ==>
                batch is None && final(self)@.pending == old(self)@.pending,
    {
        if self.pending.len() >= self.batch_size {
            let mut taken: Vec<T> = Vec::new();
            std::mem::swap(&mut taken, &mut self.pending);
            Some(taken)
        } else {
            None
        }
    }

    /// The number of queued records.
    pub fn len(&self) -> (n: usize)
        ensures
            n == self@.pending.len(),
    {
        self.pending.len()
    }

    /// The queued records, oldest first.
    pub fn pending(&self) -> (p: &[T])
        ensures
            p@ == self@.pending,
    {
        self.pending.as_slice()
    }
}

/// No record is lost or written twice: the batch written (if any) followed
/// by what stays queued is exactly the queue with the new record appended.
pub proof fn lemma_push_conserves<T>(pending: Seq<T>, item: T, batch_size: usize)
    ensures
        match push_outcome(pending, item, batch_size).0 {
            Some(b) => b + push_outcome(pending, item, batch_size).1 == pending.push(item),
            None => push_outcome(pending, item, batch_size).1 == pending.push(item),
        },
{
    let all = pending.push(item);
    if all.len() >= batch_size {
        assert(all + Seq::<T>::empty() =~= all);
    }
}

/// A queue below its batch size stays below it after a push: a full batch
/// is never left waiting.
pub proof fn lemma_push_keeps_queue_short<T>(pending: Seq<T>, item: T, batch_size: usize)
    requires
        pending.len() < batch_size,
    ensures
        push_outcome(pending, item, batch_size).1.len() < batch_size,
{
}

/// The window of recent records after adding `item`: appended, and the
/// oldest dropped once more than `cap` are kept.
pub open spec fn bounded_push<T>(recent: Seq<T>, item: T, cap: nat) -> Seq<T> {
    let r = recent.push(item);
    if r.len() > cap { r.drop_first() } else { r }
}

/// Adds `item` to the window of recent records, which keeps at most `cap`
/// of them (the validation context of the ingestion pipeline).
pub fn push_recent<T>(recent: &mut Vec<T>, item: T, cap: usize)
    ensures
        final(recent)@ == bounded_push(old(recent)@, item, cap as nat),
{
    recent.push(item);
    if recent.len() > cap {
        let _ = recent.remove(0);
    }
}

/// The window never holds more than its capacity, and the newest record is
/// the one just added (where it keeps anything).
pub proof fn lemma_recent_bounded<T>(recent: Seq<T>, item: T, cap: nat)
    requires
        recent.len() <= cap,
    ensures
        bounded_push(recent, item, cap).len() <= cap,
        cap > 0 ==> bounded_push(recent, item, cap).last() == item,
{
}

} // verus!
