//! Simple run-to-completion executor: tasks drain in spawn order. The task
//! payload is a type parameter; a run hands the payloads back in the order
//! they would execute.

use vstd::prelude::*;

verus! {

/// Executor interface.
pub trait Executor<E> {
    fn spawn(&mut self, task: Task<E>);

    fn run(&mut self) -> Vec<E>;
}

/// One spawned task.
pub struct Task<E> {
    pub func: E,
}

/// FIFO executor over a queue of tasks.
pub struct SimpleExecutor<E> {
    queue: Vec<Task<E>>,
}

impl<E> SimpleExecutor<E> {
    /// The queued task payloads, oldest first.
    pub closed spec fn spec_queue(&self) -> Seq<E> {
        Seq::new(self.queue@.len(), |i: int| self.queue@[i].func)
    }

    /// Creates an empty executor.
    pub fn new() -> (r: SimpleExecutor<E>)
        ensures
            r.spec_queue() == Seq::<E>::empty(),
    {
        let r = SimpleExecutor { queue: Vec::new() };
        proof {
            assert(r.spec_queue() =~= Seq::<E>::empty());
        }
        r
    }

    /// Appends a task at the tail.
    pub fn spawn(&mut self, task: Task<E>)
        ensures
            final(self).spec_queue() == old(self).spec_queue().push(task.func),
    {
        self.queue.push(task);
        proof {
            assert(self.spec_queue() =~= old(self).spec_queue().push(
                self.queue@.last().func,
            ));
        }
    }

    /// Drains the queue: hands back every task payload in spawn order —
    /// the order a run executes them — leaving the queue empty.
    pub fn run(&mut self) -> (ran: Vec<E>)
        ensures
            final(self).spec_queue() == Seq::<E>::empty(),
            ran@ == old(self).spec_queue(),
    {
        let mut ran: Vec<E> = Vec::new();
        let mut queue: Vec<Task<E>> = Vec::new();
        core::mem::swap(&mut self.queue, &mut queue);
        let ghost whole = Seq::new(queue@.len(), |i: int| queue@[i].func);
        proof {
            assert(whole == old(self).spec_queue());
            assert(self.spec_queue() =~= Seq::<E>::empty());
        }
        let n = queue.len();
        let mut i: usize = 0;
        while i < n
            invariant
                i + queue@.len() == n == whole.len(),
                i <= n,
                forall|k: int| 0 <= k < queue@.len() ==> (#[trigger] queue@[k]).func == whole[i + k],
                ran@.len() == i,
                forall|j: int| 0 <= j < i ==> ran@[j] == whole[j],
            decreases n - i,
        {
            let ghost pre = queue@;
            let task = queue.remove(0);
            ran.push(task.func);
            proof {
                assert(pre[0].func == whole[i as int]);
                assert(queue@ =~= pre.drop_first());
            }
            i += 1;
        }
        proof {
            assert(ran@ =~= whole);
        }
        ran
    }
}

} // verus!
