//! Cooperative FIFO scheduler: a run-to-completion queue of task control
//! blocks.
//!
//! Tasks enter the queue `Ready`, leave it in registration order, and are
//! marked `Running` as they are handed out. The entry payload is a type
//! parameter: the kernel instantiates it with its own task programs, so the
//! queue itself never calls anything.

use vstd::prelude::*;
use vstd::arithmetic::div_mod::{lemma_mod_add_multiples_vanish, lemma_small_mod};

verus! {

/// Capacity of the ready queue's ring; one slot stays unused to tell a
/// full ring from an empty one, so at most `MAX_TASKS - 1` tasks queue.
pub const MAX_TASKS: usize = 16;

/// Identifier assigned to a task at registration; wraps at 16 bits.
#[derive(Debug, Clone, Copy, PartialEq, Eq, Structural)]
pub struct TaskId {
    num: u16,
}

impl TaskId {
    /// The identifier's numeric value.
    pub closed spec fn spec_num(&self) -> u16 {
        self.num
    }

    /// Returns the identifier's numeric value.
    #[verifier::when_used_as_spec(spec_num)]
    pub fn num(&self) -> (r: u16)
        ensures
            r == self.spec_num(),
    {
        self.num
    }
}

/// Lifecycle of a task: `Ready` while queued, `Running` once handed out,
/// `Completed` when its entry returned. `Blocked` is defined for future
/// policies; nothing here produces it.
#[derive(Debug, Clone, Copy, PartialEq, Eq, Structural)]
pub enum TaskState {
    Ready,
    Running,
    Blocked,
    Completed,
}

/// One queued task: its id, its entry payload, and its state.
#[derive(Clone, Copy)]
pub struct TaskControlBlock<E> {
    pub id: TaskId,
    pub entry: E,
    pub state: TaskState,
}

proof fn lemma_ring_wrap(x: int)
    requires
        0 <= x < 2 * MAX_TASKS,
    ensures
        x % (MAX_TASKS as int) == (if x < MAX_TASKS {
            x
        } else {
            x - MAX_TASKS
        }),
{
    let m = MAX_TASKS as int;
    if x < m {
        lemma_small_mod(x as nat, m as nat);
    } else {
        lemma_mod_add_multiples_vanish(x - m, m);
        lemma_small_mod((x - m) as nat, m as nat);
    }
}

/// FIFO ring of task control blocks.
pub struct ReadyQueue<E> {
    slots: Vec<Option<TaskControlBlock<E>>>,
    head: usize,
    tail: usize,
    next_id: u16,
}

impl<E: Copy> ReadyQueue<E> {
    /// Number of queued tasks.
    pub closed spec fn spec_len(&self) -> int {
        if self.tail >= self.head {
            self.tail - self.head
        } else {
            self.tail + MAX_TASKS - self.head
        }
    }

    spec fn ring_idx(&self, k: int) -> int {
        (self.head + k) % (MAX_TASKS as int)
    }

    /// The queued tasks in FIFO order, oldest first.
    pub closed spec fn tasks(&self) -> Seq<TaskControlBlock<E>> {
        Seq::new(self.spec_len() as nat, |k: int| self.slots@[self.ring_idx(k)].unwrap())
    }

    /// The id the next registration will receive.
    pub closed spec fn spec_next_id(&self) -> u16 {
        self.next_id
    }

    /// Structural invariant: the ring covers `MAX_TASKS` slots, the cursors
    /// stay inside it, and every queued slot holds a `Ready` task.
    pub closed spec fn wf(&self) -> bool {
        &&& self.slots@.len() == MAX_TASKS
        &&& self.head < MAX_TASKS
        &&& self.tail < MAX_TASKS
        &&& forall|k: int|
            0 <= k < self.spec_len() ==> (#[trigger] self.slots@[self.ring_idx(k)]) is Some
                && self.slots@[self.ring_idx(k)].unwrap().state == TaskState::Ready
    }

    /// A well-formed queue holds fewer than `MAX_TASKS` tasks, and its
    /// task view has exactly that length.
    pub broadcast proof fn lemma_len_bound(&self)
        requires
            #[trigger] self.wf(),
        ensures
            0 <= self.spec_len() < MAX_TASKS,
            self.tasks().len() == self.spec_len(),
    {
    }

    /// Creates an empty queue; ids start at zero.
    pub fn new() -> (r: ReadyQueue<E>)
        ensures
            r.wf(),
            r.tasks() == Seq::<TaskControlBlock<E>>::empty(),
            r.spec_next_id() == 0,
    {
        let mut slots: Vec<Option<TaskControlBlock<E>>> = Vec::new();
        let mut i: usize = 0;
        while i < MAX_TASKS
            invariant
                i <= MAX_TASKS,
                slots@.len() == i,
            decreases MAX_TASKS - i,
        {
            slots.push(None);
            i += 1;
        }
        let r = ReadyQueue { slots, head: 0, tail: 0, next_id: 0 };
        proof {
            assert(r.tasks() =~= Seq::<TaskControlBlock<E>>::empty());
        }
        r
    }

    /// Enqueues a `Ready` task at the tail and hands back its id, or
    /// returns `None`, changing nothing, when the ring is full.
    pub fn push(&mut self, entry: E) -> (r: Option<TaskId>)
        requires
            old(self).wf(),
        ensures
            final(self).wf(),
            match r {
                Some(id) => {
                    &&& old(self).spec_len() < MAX_TASKS - 1
                    &&& id.spec_num() == old(self).spec_next_id()
                    &&& final(self).tasks() == old(self).tasks().push(
                        TaskControlBlock { id, entry, state: TaskState::Ready },
                    )
                    &&& final(self).spec_next_id() == (old(self).spec_next_id() + 1) % 0x10000
                },
                None => {
                    &&& old(self).spec_len() == MAX_TASKS - 1
                    &&& *final(self) == *old(self)
                },
            },
    {
        let next_tail = (self.tail + 1) % MAX_TASKS;
        proof {
            lemma_ring_wrap(self.tail + 1);
        }
        if next_tail == self.head {
            proof {
                lemma_ring_wrap(self.head + (MAX_TASKS - 1));
            }
            return None;
        }
        let ghost prior = *self;
        let id = TaskId { num: self.next_id };
        self.next_id = self.next_id.wrapping_add(1);
        let tcb = TaskControlBlock { id, entry, state: TaskState::Ready };
        let tail = self.tail;
        self.slots.set(tail, Some(tcb));
        self.tail = next_tail;
        proof {
            lemma_ring_wrap(prior.head + prior.spec_len());
            assert(prior.ring_idx(prior.spec_len()) == prior.tail);
            assert forall|k: int| 0 <= k < prior.spec_len() implies prior.ring_idx(k)
                != prior.tail by {
                lemma_ring_wrap(prior.head + k);
            }
            assert(self.spec_len() == prior.spec_len() + 1);
            assert forall|k: int| 0 <= k < self.spec_len() implies (
            #[trigger] self.slots@[self.ring_idx(k)]) is Some && self.slots@[self.ring_idx(
                k,
            )].unwrap().state == TaskState::Ready by {
                lemma_ring_wrap(self.head + k);
                lemma_ring_wrap(prior.head + k);
                if k < prior.spec_len() {
                    assert(prior.slots@[prior.ring_idx(k)] is Some);
                    assert(self.ring_idx(k) == prior.ring_idx(k));
                    assert(self.slots@[self.ring_idx(k)] == prior.slots@[prior.ring_idx(k)]);
                } else {
                    assert(self.ring_idx(k) == prior.tail);
                    assert(self.slots@[prior.tail as int] == Some(tcb));
                }
            }
            assert forall|k: int| 0 <= k < self.spec_len() implies #[trigger] self.tasks()[k]
                == prior.tasks().push(tcb)[k] by {
                if k < prior.spec_len() {
                    assert(prior.slots@[prior.ring_idx(k)] is Some);
                    assert(self.ring_idx(k) == prior.ring_idx(k));
                }
            }
            assert(self.tasks() =~= prior.tasks().push(tcb));
        }
        Some(id)
    }

    /// Dequeues the oldest task, marked `Running`, or returns `None` when
    /// the queue is empty.
    pub fn pop(&mut self) -> (r: Option<TaskControlBlock<E>>)
        requires
            old(self).wf(),
        ensures
            final(self).wf(),
            final(self).spec_next_id() == old(self).spec_next_id(),
            match r {
                Some(tcb) => {
                    &&& old(self).spec_len() > 0
                    &&& tcb.id == old(self).tasks().first().id
                    &&& tcb.entry == old(self).tasks().first().entry
                    &&& tcb.state == TaskState::Running
                    &&& final(self).tasks() == old(self).tasks().drop_first()
                },
                None => {
                    &&& old(self).spec_len() == 0
                    &&& *final(self) == *old(self)
                },
            },
    {
        if self.head == self.tail {
            return None;
        }
        let ghost prior = *self;
        let head = self.head;
        let slot = self.slots[head];
        self.slots.set(head, None);
        self.head = (head + 1) % MAX_TASKS;
        proof {
            lemma_ring_wrap(prior.head + 0);
            lemma_ring_wrap(prior.head + 1);
            assert(prior.spec_len() > 0);
            assert(prior.ring_idx(0) == prior.head);
            assert(self.spec_len() == prior.spec_len() - 1);
            assert forall|k: int| 0 <= k < self.spec_len() implies self.ring_idx(k)
                == prior.ring_idx(k + 1) && prior.ring_idx(k + 1) != prior.head by {
                lemma_ring_wrap(prior.head + k + 1);
                lemma_ring_wrap(self.head + k);
            }
            assert forall|k: int| 0 <= k < self.spec_len() implies (
            #[trigger] self.slots@[self.ring_idx(k)]) is Some && self.slots@[self.ring_idx(
                k,
            )].unwrap().state == TaskState::Ready by {
                assert(self.slots@[self.ring_idx(k)] == prior.slots@[prior.ring_idx(k + 1)]);
            }
            assert(self.tasks() =~= prior.tasks().drop_first());
        }
        match slot {
            Some(task) => Some(
                TaskControlBlock { id: task.id, entry: task.entry, state: TaskState::Running },
            ),
            None => None,
        }
    }

    /// Empties the queue. Ids keep counting from where they were.
    pub fn reset(&mut self)
        ensures
            final(self).wf(),
            final(self).tasks() == Seq::<TaskControlBlock<E>>::empty(),
            final(self).spec_next_id() == old(self).spec_next_id(),
    {
        let mut slots: Vec<Option<TaskControlBlock<E>>> = Vec::new();
        let mut i: usize = 0;
        while i < MAX_TASKS
            invariant
                i <= MAX_TASKS,
                slots@.len() == i,
            decreases MAX_TASKS - i,
        {
            slots.push(None);
            i += 1;
        }
        self.slots = slots;
        self.head = 0;
        self.tail = 0;
        proof {
            assert(self.tasks() =~= Seq::<TaskControlBlock<E>>::empty());
        }
    }
}

/// The queue contents after registering the entries of `es` in order, all
/// accepted.
pub open spec fn registered_tasks<E>(
    base: Seq<TaskControlBlock<E>>,
    es: Seq<TaskControlBlock<E>>,
) -> Seq<TaskControlBlock<E>>
    decreases es.len(),
{
    if es.len() == 0 {
        base
    } else {
        registered_tasks(base, es.drop_last()).push(es.last())
    }
}

/// The tasks a draining run hands out, in hand-out order: repeatedly the
/// queue's first task, as [`ReadyQueue::pop`] returns it.
pub open spec fn drained_tasks<E>(tasks: Seq<TaskControlBlock<E>>) -> Seq<TaskControlBlock<E>>
    decreases tasks.len(),
{
    if tasks.len() == 0 {
        Seq::empty()
    } else {
        seq![tasks.first()] + drained_tasks(tasks.drop_first())
    }
}

/// Scheduler FIFO: tasks run in the order they were successfully
/// registered, each exactly once per draining run. Registration appends at
/// the tail and a run repeatedly takes the first task, so draining a queue
/// that accepted the registrations of `es` hands out exactly `es`, in
/// order.
pub proof fn lemma_scheduler_fifo<E>(es: Seq<TaskControlBlock<E>>)
    ensures
        registered_tasks(Seq::<TaskControlBlock<E>>::empty(), es) == es,
        drained_tasks(registered_tasks(Seq::<TaskControlBlock<E>>::empty(), es)) == es,
    decreases es.len(),
{
    if es.len() == 0 {
        assert(registered_tasks(Seq::<TaskControlBlock<E>>::empty(), es) =~= es);
        assert(drained_tasks(es) =~= es);
    } else {
        lemma_scheduler_fifo(es.drop_last());
        assert(registered_tasks(Seq::<TaskControlBlock<E>>::empty(), es) =~= es);
        lemma_drained_tasks_identity(es);
    }
}

proof fn lemma_drained_tasks_identity<E>(tasks: Seq<TaskControlBlock<E>>)
    ensures
        drained_tasks(tasks) == tasks,
    decreases tasks.len(),
{
    if tasks.len() == 0 {
        assert(drained_tasks(tasks) =~= tasks);
    } else {
        lemma_drained_tasks_identity(tasks.drop_first());
        assert(drained_tasks(tasks) =~= tasks);
    }
}

} // verus!
