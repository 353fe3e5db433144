//! Named FIFO queues and the registry that owns them.
//!
//! A `QueueTable` is a plain owned value. Every operation that changes a queue
//! goes through `&mut QueueTable`, so the mutations of one table come one
//! after the other by Rust's rules of borrowing; a server shares a table
//! between its connections by putting it behind a lock of its own.

use std::collections::VecDeque;
use vstd::hash_map::StringHashMap;
use vstd::prelude::*;

verus! {

pub type QueueName = String;

/// The contents of a table: for each queue that exists, its payloads from
/// head to tail.
pub type TableModel = Map<Seq<char>, Seq<Seq<char>>>;

/// What a queue of the table holds, an absent queue holding nothing.
pub open spec fn contents(table: TableModel, name: Seq<char>) -> Seq<Seq<char>> {
    if table.contains_key(name) {
        table[name]
    } else {
        Seq::empty()
    }
}

/// The table after `name` was looked up with creation: unchanged where the
/// queue exists, with a new empty queue where it does not.
pub open spec fn created(table: TableModel, name: Seq<char>) -> TableModel {
    table.insert(name, contents(table, name))
}

/// The table after `value` was appended to the tail of `name`, the queue being
/// created first where it is missing.
pub open spec fn pushed(table: TableModel, name: Seq<char>, value: Seq<char>) -> TableModel {
    table.insert(name, contents(table, name).push(value))
}

/// The table after the head of `name` was removed. Only meaningful where the
/// queue exists and holds something.
pub open spec fn popped(table: TableModel, name: Seq<char>) -> TableModel {
    table.insert(name, contents(table, name).drop_first())
}

/// A FIFO of payload strings. Its view lists the payloads from head to tail.
pub struct Queue {
    inner: VecDeque<String>,
}

impl View for Queue {
    type V = Seq<Seq<char>>;

    closed spec fn view(&self) -> Seq<Seq<char>> {
        self.inner@.map_values(|payload: String| payload@)
    }
}

impl Queue {
    /// An empty queue.
    pub fn new() -> (queue: Queue)
        ensures
            queue@ == Seq::<Seq<char>>::empty(),
    {
        let queue = Queue { inner: VecDeque::new() };
        queue
    }

    /// Appends `value` to the tail.
    pub fn push_back(&mut self, value: String)
        ensures
            final(self)@ == old(self)@.push(value@),
    {
        self.inner.push_back(value);
    }

    /// Removes and returns the head, or returns `None` and changes nothing
    /// where the queue is empty.
    pub fn pop_front(&mut self) -> (front: Option<String>)
        ensures
            front is Some <==> old(self)@.len() > 0,
            front is Some ==> front->0@ == old(self)@[0] && final(self)@ == old(self)@.drop_first(),
            front is None ==> final(self)@ == old(self)@,
    {
        let front = self.inner.pop_front();
        front
    }
}

/// The registry of queues by name. Queues are created on first use and never
/// removed. Its view maps each existing queue's name to its contents.
pub struct QueueTable {
    slots: StringHashMap<usize>,
    queues: Vec<Queue>,
}

impl View for QueueTable {
    type V = TableModel;

    closed spec fn view(&self) -> TableModel {
        Map::new(
            |name: Seq<char>| self.slots@.contains_key(name),
            |name: Seq<char>| self.queues@[self.slots@[name] as int]@,
        )
    }
}

/// The slot that `queue_name` was given, if the queue exists.
fn find_slot(slots: &StringHashMap<usize>, queue_name: &QueueName) -> (slot: Option<usize>)
    ensures
        slot is Some <==> slots@.contains_key(queue_name@),
        slot is Some ==> slot->0 == slots@[queue_name@],
{
    match slots.get(queue_name.as_str()) {
        Some(slot) => Some(*slot),
        None => None,
    }
}

/// Adds an empty queue in a new slot and gives the name that slot.
fn create_queue(
    slots: &mut StringHashMap<usize>,
    queues: &mut Vec<Queue>,
    queue_name: QueueName,
) -> (slot: usize)
    ensures
        slot == old(queues)@.len(),
        final(queues)@ == old(queues)@.push(final(queues)@[slot as int]),
        final(queues)@[slot as int]@ == Seq::<Seq<char>>::empty(),
        final(slots)@ == old(slots)@.insert(queue_name@, slot),
{
    let slot: usize = queues.len();
    queues.push(Queue::new());
    slots.insert(queue_name, slot);
    slot
}

impl QueueTable {
    /// Every name has a slot that holds a queue, and no two names share one.
    pub closed spec fn wf(&self) -> bool {
        &&& forall|name: Seq<char>| #[trigger]
            self.slots@.contains_key(name) ==> self.slots@[name] < self.queues@.len()
        &&& forall|a: Seq<char>, b: Seq<char>|
            self.slots@.contains_key(a) && self.slots@.contains_key(b) && self.slots@[a]
                == self.slots@[b] ==> a == b
    }

    /// A table without queues.
    pub fn new() -> (table: QueueTable)
        ensures
            table.wf(),
            table@ == Map::<Seq<char>, Seq<Seq<char>>>::empty(),
    {
        let table = QueueTable { slots: StringHashMap::new(), queues: Vec::new() };
        table
    }

    /// The queue of that name, created empty where it does not exist yet.
    /// What the caller does to the queue through the returned handle is what
    /// the table holds under that name afterwards; no other queue changes.
    pub fn get_or_create_queue(&mut self, queue_name: QueueName) -> (queue: &mut Queue)
        requires
            old(self).wf(),
        ensures
            final(self).wf(),
            queue@ == contents(old(self)@, queue_name@),
            final(self)@ == old(self)@.insert(queue_name@, final(queue)@),
    {
        let slot: usize = match find_slot(&self.slots, &queue_name) {
            Some(slot) => slot,
            None => create_queue(&mut self.slots, &mut self.queues, queue_name),
        };
        &mut self.queues[slot]
    }

    /// The queue of that name, or `None` where it was never created. The
    /// table changes only through the returned handle.
    pub fn get_queue(&mut self, queue_name: &QueueName) -> (found: Option<&mut Queue>)
        requires
            old(self).wf(),
        ensures
            final(self).wf(),
            found is Some <==> old(self)@.contains_key(queue_name@),
            match found {
                Some(queue) => queue@ == old(self)@[queue_name@]
                    && final(self)@ == old(self)@.insert(queue_name@, final(queue)@),
                None => final(self)@ == old(self)@,
            },
    {
        match find_slot(&self.slots, queue_name) {
            Some(slot) => Some(&mut self.queues[slot]),
            None => None,
        }
    }
}

} // verus!
