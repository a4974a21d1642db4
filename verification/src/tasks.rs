//! Background tasks: which tasks wait, which instances a worker has to drain, and
//! that none is forgotten.
//!
//! A task is a number that its instance gave it. Each instance has a first-in
//! first-out queue, and a slot that keeps only the newest of the tasks posted to
//! it. An instance with work is queued once for the workers, however many tasks
//! it has. A worker takes its tasks out one at a time, and runs each before it takes
//! the next: those that still wait keep their places in the queue.
use crate::queue::{
    queue_capacity, queue_force_push, queue_new, queue_pop, queue_push, queued, Item,
};
use crossbeam_queue::ArrayQueue;
use vstd::prelude::*;

verus! {

/// Tasks that wait in one instance's queue at most.
pub const TASK_QUEUE_PREALLOC: usize = 256;

/// Instances that wait for a worker at most.
pub const INJECTOR_CAP: usize = 4096;

/// How many workers stand at each point of draining one instance.
pub struct Drains {
    /// Those that have not read the slot yet.
    pub at_slot: nat,
    /// Those that read the slot, and have not found the queue empty yet.
    pub at_queue: nat,
}

/// The tasks of one instance.
pub struct Sink {
    pub queue: ArrayQueue<(u8, u32, u64)>,
    pub coalesced: ArrayQueue<(u8, u32, u64)>,
    /// The instance is queued for the workers.
    pub scheduled: bool,
    /// The workers that drain it now.
    pub drains: Ghost<Drains>,
}

/// A worker's place in draining an instance. Each drain reads the slot once, before
/// it reads the queue.
#[derive(Debug, PartialEq, Eq)]
pub struct Drain {
    pub sink: usize,
    pub slot_read: bool,
}

/// The numbers in some items.
pub open spec fn tickets(items: Seq<Item>) -> Seq<u64> {
    items.map_values(|item: Item| item.2)
}

impl Sink {
    /// The tasks in the queue, the oldest first.
    pub open spec fn tasks(&self) -> Seq<u64> {
        tickets(queued(self.queue))
    }

    /// The task in the slot, if there is one.
    pub open spec fn newest(&self) -> Seq<u64> {
        tickets(queued(self.coalesced))
    }

    pub open spec fn wf(&self) -> bool {
        &&& queue_capacity(self.queue) == TASK_QUEUE_PREALLOC
        &&& queue_capacity(self.coalesced) == 1
        &&& self.newest().len() <= 1
    }

    pub open spec fn idle(&self) -> bool {
        self.tasks().len() == 0 && self.newest().len() == 0
    }

    /// No worker drains the instance.
    pub open spec fn unattended(&self) -> bool {
        self.drains@.at_slot == 0 && self.drains@.at_queue == 0
    }

    /// Somebody is going to read every task that waits: the instance is queued for
    /// the workers, or a worker has yet to come past.
    pub open spec fn tended(&self) -> bool {
        &&& self.newest().len() > 0 ==> self.scheduled || self.drains@.at_slot > 0
        &&& self.tasks().len() > 0 ==> self.scheduled || !self.unattended()
    }

    fn new() -> (r: Self)
        ensures
            r.wf(),
            r.idle(),
            r.unattended(),
            !r.scheduled,
    {
        Sink {
            queue: queue_new(TASK_QUEUE_PREALLOC),
            coalesced: queue_new(1),
            scheduled: false,
            drains: Ghost(Drains { at_slot: 0, at_queue: 0 }),
        }
    }

    /// Takes the slot's task out, if there is one.
    fn pop_newest(&mut self) -> (r: Option<u64>)
        requires
            old(self).wf(),
        ensures
            final(self).wf(),
            final(self).newest().len() == 0,
            final(self).tasks() == old(self).tasks(),
            final(self).scheduled == old(self).scheduled,
            final(self).drains == old(self).drains,
            match r {
                Some(task) => old(self).newest().len() > 0 && task == old(self).newest()[0],
                None => old(self).newest().len() == 0,
            },
    {
        match queue_pop(&mut self.coalesced) {
            Some(item) => Some(item.2),
            None => None,
        }
    }

    /// Takes the oldest task of the queue out, if there is one.
    fn pop_task(&mut self) -> (r: Option<u64>)
        requires
            old(self).wf(),
        ensures
            final(self).wf(),
            final(self).newest() == old(self).newest(),
            final(self).scheduled == old(self).scheduled,
            final(self).drains == old(self).drains,
            match r {
                Some(task) => old(self).tasks().len() > 0 && task == old(self).tasks()[0]
                    && final(self).tasks() == old(self).tasks().skip(1),
                None => old(self).tasks().len() == 0 && final(self).tasks().len() == 0,
            },
    {
        let ghost was = self.tasks();
        match queue_pop(&mut self.queue) {
            Some(item) => {
                proof {
                    assert(self.tasks() =~= was.skip(1));
                }
                Some(item.2)
            },
            None => None,
        }
    }
}

/// A handle with which tasks are scheduled for one instance.
#[derive(Clone, Copy, Debug, PartialEq, Eq)]
pub struct TaskSpawner {
    pub sink: usize,
}

/// A handle that does not say which type of task its instance has, but a number
/// that stands for the type.
#[derive(Clone, Copy, Debug, PartialEq, Eq)]
pub struct AnyTaskSpawner {
    pub spawner: TaskSpawner,
    pub task_type: u64,
}

impl AnyTaskSpawner {
    #[must_use]
    pub fn new(spawner: &TaskSpawner, task_type: u64) -> (r: Self)
        ensures
            r.spawner == *spawner,
            r.task_type == task_type,
    {
        AnyTaskSpawner { spawner: *spawner, task_type }
    }

    /// The handle for tasks of one type; none where it is another's.
    #[must_use]
    pub fn downcast(&self, task_type: u64) -> (r: Option<TaskSpawner>)
        ensures
            r == if self.task_type == task_type {
                Some(self.spawner)
            } else {
                None
            },
    {
        if self.task_type == task_type {
            Some(self.spawner)
        } else {
            None
        }
    }
}

/// What a plugin is handed to schedule work with before its first block.
pub struct InitContext {
    pub tasks: Option<AnyTaskSpawner>,
}

impl InitContext {
    #[must_use]
    pub fn new(tasks: Option<AnyTaskSpawner>) -> (r: Self)
        ensures
            r.tasks == tasks,
    {
        InitContext { tasks }
    }

    /// The handle for tasks of one type, where the plugin has such tasks.
    #[must_use]
    pub fn tasks(&self, task_type: u64) -> (r: Option<TaskSpawner>)
        ensures
            r == match self.tasks {
                Some(any) => if any.task_type == task_type {
                    Some(any.spawner)
                } else {
                    None
                },
                None => None,
            },
    {
        match &self.tasks {
            Some(any) => any.downcast(task_type),
            None => None,
        }
    }
}

/// The pool: every instance's tasks, and the instances that wait for a worker.
pub struct TaskPool {
    pub sinks: Vec<Sink>,
    pub injector: ArrayQueue<(u8, u32, u64)>,
    /// Turns of the workers to be woken.
    pub next: usize,
    pub workers: usize,
}

/// Every number of `ids` lies below `n`, and none occurs twice.
pub open spec fn distinct_below(ids: Seq<u64>, n: nat) -> bool {
    &&& forall|i: int| 0 <= i < ids.len() ==> (#[trigger] ids[i]) < n
    &&& forall|i: int, j: int| 0 <= i < j < ids.len() ==> ids[i] != ids[j]
}

proof fn lemma_distinct_below_len(ids: Seq<u64>, n: nat)
    requires
        distinct_below(ids, n),
    ensures
        ids.len() <= n,
    decreases n,
{
    if ids.len() > 0 {
        if n == 0 {
            assert(ids[0] < n);
        } else if exists|i: int| 0 <= i < ids.len() && ids[i] == n - 1 {
            let i = choose|i: int| 0 <= i < ids.len() && ids[i] == n - 1;
            let rest = ids.remove(i);
            assert forall|k: int| 0 <= k < rest.len() implies (#[trigger] rest[k]) < n - 1 by {
                if k < i {
                    assert(rest[k] == ids[k]);
                } else {
                    assert(rest[k] == ids[k + 1]);
                }
            }
            assert forall|a: int, b: int| 0 <= a < b < rest.len() implies rest[a] != rest[b] by {
                let a1 = if a < i {
                    a
                } else {
                    a + 1
                };
                let b1 = if b < i {
                    b
                } else {
                    b + 1
                };
                assert(rest[a] == ids[a1] && rest[b] == ids[b1]);
            }
            lemma_distinct_below_len(rest, (n - 1) as nat);
        } else {
            assert forall|k: int| 0 <= k < ids.len() implies (#[trigger] ids[k]) < n - 1 by {}
            lemma_distinct_below_len(ids, (n - 1) as nat);
        }
    }
}

/// The number of workers for a machine with so many cores: one core stays free for
/// the audio and main threads, and there is always a worker.
pub fn worker_count(cores: Option<usize>) -> (r: usize)
    ensures
        r == workers_for(cores),
{
    match cores {
        Some(n) if n > 1 => n - 1,
        _ => 1,
    }
}

impl TaskPool {
    /// The instances that wait for a worker, the longest waiting first.
    pub open spec fn waiting(&self) -> Seq<u64> {
        tickets(queued(self.injector))
    }

    /// An instance that gets a task joins those that wait: it does not wait
    /// already, and there is room.
    pub open spec fn joins(&self, sink: usize) -> bool {
        !self.sinks@[sink as int].scheduled && self.waiting().len() < INJECTOR_CAP
    }

    /// The instances that wait once this one got a task.
    pub open spec fn waiting_with(&self, sink: usize) -> Seq<u64> {
        if self.joins(sink) {
            self.waiting().push(sink as u64)
        } else {
            self.waiting()
        }
    }

    /// The worker to wake once this instance got a task: they take turns.
    pub open spec fn woken(&self, sink: usize) -> Option<usize> {
        if self.joins(sink) && self.workers > 0 {
            Some((self.next % self.workers) as usize)
        } else {
            None
        }
    }

    /// The count of turns once this instance got a task.
    pub open spec fn next_with(&self, sink: usize) -> usize {
        if self.woken(sink) is None {
            self.next
        } else if self.next == usize::MAX {
            0
        } else {
            (self.next + 1) as usize
        }
    }

    /// An instance waits once exactly where it is scheduled. As long as every
    /// instance has a place to wait, one with tasks is scheduled or being drained.
    pub open spec fn wf(&self) -> bool {
        &&& queue_capacity(self.injector) == INJECTOR_CAP
        &&& distinct_below(self.waiting(), self.sinks@.len())
        &&& forall|i: int| 0 <= i < self.sinks@.len() ==> (#[trigger] self.sinks@[i]).wf()
        &&& forall|i: int|
            0 <= i < self.sinks@.len() ==> (#[trigger] self.sinks@[i]).scheduled
                == self.waiting().contains(i as u64)
        &&& self.sinks@.len() <= INJECTOR_CAP ==> forall|i: int|
            0 <= i < self.sinks@.len() ==> (#[trigger] self.sinks@[i]).tended()
        &&& self.sinks@.len() <= u64::MAX
    }

    /// A pool with some workers and no instances.
    pub fn new(workers: usize) -> (r: Self)
        ensures
            r.wf(),
            r.sinks@.len() == 0,
            r.waiting().len() == 0,
            r.workers == workers,
            r.next == 0,
    {
        let r = TaskPool {
            sinks: Vec::new(),
            injector: queue_new(INJECTOR_CAP),
            next: 0,
            workers,
        };
        proof {
            assert(r.waiting() =~= Seq::empty());
        }
        r
    }

    /// Adds an instance.
    pub fn register(&mut self) -> (r: TaskSpawner)
        requires
            old(self).wf(),
            old(self).sinks@.len() < u64::MAX,
        ensures
            final(self).wf(),
            r.sink == old(self).sinks@.len(),
            final(self).sinks@.len() == old(self).sinks@.len() + 1,
            final(self).sinks@.take(r.sink as int) == old(self).sinks@,
            final(self).sinks@[r.sink as int].idle(),
            final(self).sinks@[r.sink as int].unattended(),
            final(self).waiting() == old(self).waiting(),
            final(self).workers == old(self).workers,
            final(self).next == old(self).next,
    {
        let sink: usize = self.sinks.len();
        let ghost before = self.sinks@;
        self.sinks.push(Sink::new());
        proof {
            assert(self.sinks@.take(sink as int) =~= before);
            assert(!self.waiting().contains(sink as u64)) by {
                if self.waiting().contains(sink as u64) {
                    let k = choose|k: int|
                        0 <= k < self.waiting().len() && self.waiting()[k] == sink as u64;
                    assert(self.waiting()[k] < before.len());
                }
            }
            assert forall|i: int| 0 <= i < self.sinks@.len() implies (
            #[trigger] self.sinks@[i]).scheduled == self.waiting().contains(i as u64) by {
                if i < before.len() {
                    assert(self.sinks@[i] == before[i]);
                }
            }
        }
        TaskSpawner { sink }
    }

    /// Queues an instance for the workers, unless it is queued already. Which
    /// worker to wake comes back; none where the instance was queued already, the
    /// injector is full, or there are no workers.
    fn arm(&mut self, sink: usize) -> (wake: Option<usize>)
        requires
            sink < old(self).sinks@.len(),
            old(self).sinks@.len() <= u64::MAX,
            queue_capacity(old(self).injector) == INJECTOR_CAP,
            distinct_below(old(self).waiting(), old(self).sinks@.len()),
            forall|i: int| 0 <= i < old(self).sinks@.len() ==> (#[trigger] old(self).sinks@[i]).wf(),
            forall|i: int|
                0 <= i < old(self).sinks@.len() ==> (#[trigger] old(self).sinks@[i]).scheduled
                    == old(self).waiting().contains(i as u64),
            old(self).sinks@.len() <= INJECTOR_CAP ==> forall|i: int|
                0 <= i < old(self).sinks@.len() && i != sink ==> (
                #[trigger] old(self).sinks@[i]).tended(),
        ensures
            final(self).wf(),
            final(self).sinks@.len() == old(self).sinks@.len(),
            final(self).workers == old(self).workers,
            forall|i: int|
                0 <= i < old(self).sinks@.len() ==> {
                    let was = old(self).sinks@[i];
                    let now = #[trigger] final(self).sinks@[i];
                    now == (Sink { scheduled: now.scheduled, ..was })
                },
            final(self).waiting() == old(self).waiting_with(sink),
            final(self).next == old(self).next_with(sink),
            wake == old(self).woken(sink),
    {
        let ghost before = *self;
        proof {
            lemma_distinct_below_len(self.waiting(), self.sinks@.len());
        }
        if self.sinks[sink].scheduled {
            return None;
        }
        let queued_up: bool = queue_push(&mut self.injector, (0, 0, sink as u64)).is_ok();
        if !queued_up {
            proof {
                assert(self.waiting() == before.waiting());
                assert(queued(before.injector).len() >= INJECTOR_CAP);
                if self.sinks@.len() <= INJECTOR_CAP {
                    // Every instance waits already, this one too.
                    lemma_all_wait(self.waiting(), self.sinks@.len(), sink as u64);
                }
            }
            return None;
        }
        proof {
            assert(self.waiting() =~= before.waiting().push(sink as u64));
        }
        let mut mine: Sink = self.sinks.remove(sink);
        mine.scheduled = true;
        self.sinks.insert(sink, mine);
        proof {
            let after = self.waiting();
            assert(self.sinks@.len() == before.sinks@.len());
            assert forall|i: int| 0 <= i < self.sinks@.len() implies (
            #[trigger] self.sinks@[i]).queue == before.sinks@[i].queue
                && self.sinks@[i].coalesced == before.sinks@[i].coalesced
                && self.sinks@[i].drains == before.sinks@[i].drains && (i != sink
                ==> self.sinks@[i] == before.sinks@[i]) by {}
            assert(after.last() == sink as u64);
            assert(after.contains(sink as u64));
            assert forall|i: int| 0 <= i < self.sinks@.len() implies (
            #[trigger] self.sinks@[i]).scheduled == after.contains(i as u64) by {
                if i != sink {
                    assert(self.sinks@[i] == before.sinks@[i]);
                    if before.waiting().contains(i as u64) {
                        let k = choose|k: int|
                            0 <= k < before.waiting().len() && before.waiting()[k] == i as u64;
                        assert(after[k] == i as u64);
                    }
                    if after.contains(i as u64) {
                        let k = choose|k: int| 0 <= k < after.len() && after[k] == i as u64;
                        assert(k < before.waiting().len());
                        assert(before.waiting()[k] == i as u64);
                    }
                }
            }
            assert forall|i: int| 0 <= i < after.len() implies (#[trigger] after[i])
                < self.sinks@.len() by {
                if i < before.waiting().len() {
                    assert(after[i] == before.waiting()[i]);
                }
            }
            assert forall|i: int, j: int| 0 <= i < j < after.len() implies after[i] != after[j] by {
                assert(after[i] == before.waiting()[i]);
                if j < before.waiting().len() {
                    assert(after[j] == before.waiting()[j]);
                } else {
                    if after[i] == sink as u64 {
                        assert(before.waiting().contains(sink as u64));
                    }
                }
            }
        }
        if self.workers == 0 {
            return None;
        }
        let turn: usize = self.next % self.workers;
        self.next = if self.next == usize::MAX {
            0
        } else {
            self.next + 1
        };
        Some(turn)
    }

    /// Queues a task, to run as soon as a worker is free. It comes back where the
    /// instance's queue is full.
    pub fn try_spawn(&mut self, spawner: &TaskSpawner, task: u64) -> (r: Result<Option<usize>, u64>)
        requires
            old(self).wf(),
            spawner.sink < old(self).sinks@.len(),
        ensures
            final(self).wf(),
            final(self).sinks@.len() == old(self).sinks@.len(),
            final(self).workers == old(self).workers,
            match r {
                Ok(wake) => {
                    &&& final(self).waiting() == old(self).waiting_with(spawner.sink)
                    &&& final(self).next == old(self).next_with(spawner.sink)
                    &&& wake == old(self).woken(spawner.sink)
                },
                Err(_) => final(self).waiting() == old(self).waiting() && final(self).next == old(
                    self,
                ).next,
            },
            ({
                let id = spawner.sink as int;
                let was = old(self).sinks@[id];
                let now = final(self).sinks@[id];
                &&& now.newest() == was.newest()
                &&& match r {
                    Ok(_) => was.tasks().len() < TASK_QUEUE_PREALLOC && now.tasks()
                        == was.tasks().push(task),
                    Err(back) => back == task && was.tasks().len() >= TASK_QUEUE_PREALLOC
                        && now.tasks() == was.tasks(),
                }
            }),
            forall|i: int|
                0 <= i < old(self).sinks@.len() && i != spawner.sink ==> (
                #[trigger] final(self).sinks@[i]).tasks() == old(self).sinks@[i].tasks()
                    && final(self).sinks@[i].newest() == old(self).sinks@[i].newest(),
            forall|i: int|
                0 <= i < old(self).sinks@.len() ==> (#[trigger] final(self).sinks@[i]).drains
                    == old(self).sinks@[i].drains,
    {
        let ghost before = *self;
        let sink: usize = spawner.sink;
        let mut mine: Sink = self.sinks.remove(sink);
        let ghost was = mine.tasks();
        let pushed: bool = queue_push(&mut mine.queue, (0, 0, task)).is_ok();
        proof {
            if pushed {
                assert(mine.tasks() =~= was.push(task));
            }
        }
        self.sinks.insert(sink, mine);
        proof {
            assert forall|i: int| 0 <= i < self.sinks@.len() && i != sink implies (
            #[trigger] self.sinks@[i]) == before.sinks@[i] by {}
            assert(self.sinks@[sink as int] == mine);
        }
        if !pushed {
            return Err(task);
        }
        Ok(self.arm(sink))
    }

    /// Posts a task into the instance's slot; one that still waits there is
    /// replaced. Never refused.
    pub fn spawn_coalescing(&mut self, spawner: &TaskSpawner, task: u64) -> (wake: Option<usize>)
        requires
            old(self).wf(),
            spawner.sink < old(self).sinks@.len(),
        ensures
            final(self).wf(),
            final(self).sinks@.len() == old(self).sinks@.len(),
            final(self).workers == old(self).workers,
            final(self).waiting() == old(self).waiting_with(spawner.sink),
            final(self).next == old(self).next_with(spawner.sink),
            wake == old(self).woken(spawner.sink),
            final(self).sinks@[spawner.sink as int].newest() == seq![task],
            final(self).sinks@[spawner.sink as int].tasks() == old(
                self,
            ).sinks@[spawner.sink as int].tasks(),
            forall|i: int|
                0 <= i < old(self).sinks@.len() && i != spawner.sink ==> (
                #[trigger] final(self).sinks@[i]).tasks() == old(self).sinks@[i].tasks()
                    && final(self).sinks@[i].newest() == old(self).sinks@[i].newest(),
            forall|i: int|
                0 <= i < old(self).sinks@.len() ==> (#[trigger] final(self).sinks@[i]).drains
                    == old(self).sinks@[i].drains,
    {
        let ghost before = *self;
        let sink: usize = spawner.sink;
        let mut mine: Sink = self.sinks.remove(sink);
        let ghost was = mine.newest();
        let _ = queue_force_push(&mut mine.coalesced, (0, 0, task));
        proof {
            assert(mine.newest() =~= seq![task]);
        }
        self.sinks.insert(sink, mine);
        proof {
            assert forall|i: int| 0 <= i < self.sinks@.len() && i != sink implies (
            #[trigger] self.sinks@[i]) == before.sinks@[i] by {}
            assert(self.sinks@[sink as int] == mine);
        }
        self.arm(sink)
    }

    /// A worker is at this place of draining an instance.
    pub open spec fn holds(&self, drain: Drain) -> bool {
        &&& drain.sink < self.sinks@.len()
        &&& if drain.slot_read {
            self.sinks@[drain.sink as int].drains@.at_queue > 0
        } else {
            self.sinks@[drain.sink as int].drains@.at_slot > 0
        }
    }

    /// A worker takes the instance that waited longest, to drain it. The instance
    /// counts as no longer scheduled from here on, so that a task that comes in
    /// meanwhile schedules it again.
    pub fn begin_drain(&mut self) -> (r: Option<Drain>)
        requires
            old(self).wf(),
        ensures
            final(self).wf(),
            final(self).sinks@.len() == old(self).sinks@.len(),
            final(self).workers == old(self).workers,
            final(self).next == old(self).next,
            match r {
                None => old(self).waiting().len() == 0 && final(self).waiting() == old(
                    self,
                ).waiting() && final(self).sinks == old(self).sinks,
                Some(drain) => {
                    let id = old(self).waiting()[0] as int;
                    let was = old(self).sinks@[id];
                    &&& old(self).waiting().len() > 0
                    &&& drain == (Drain { sink: id as usize, slot_read: false })
                    &&& final(self).holds(drain)
                    &&& final(self).waiting() == old(self).waiting().skip(1)
                    &&& final(self).sinks@ == old(self).sinks@.update(
                        id,
                        Sink {
                            scheduled: false,
                            drains: Ghost(
                                Drains { at_slot: was.drains@.at_slot + 1, ..was.drains@ },
                            ),
                            ..was
                        },
                    )
                },
            },
    {
        let ghost before = *self;
        let ghost waiting = self.waiting();
        match queue_pop(&mut self.injector) {
            None => {
                proof {
                    assert(self.waiting() =~= waiting);
                }
                None
            },
            Some(item) => {
                proof {
                    assert(waiting[0] == item.2);
                    assert(waiting[0] < before.sinks@.len());
                }
                let sinks: usize = self.sinks.len();
                assert(item.2 < sinks);
                let sink: usize = item.2 as usize;
                let mut mine: Sink = self.sinks.remove(sink);
                mine.scheduled = false;
                mine.drains = Ghost(
                    Drains { at_slot: mine.drains@.at_slot + 1, ..mine.drains@ },
                );
                self.sinks.insert(sink, mine);
                proof {
                    let after = self.waiting();
                    assert(self.sinks@ =~= before.sinks@.update(sink as int, mine));
                    assert(after =~= waiting.skip(1));
                    assert forall|i: int| 0 <= i < self.sinks@.len() && i != sink implies (
                    #[trigger] self.sinks@[i]) == before.sinks@[i] by {}
                    assert(self.sinks@[sink as int] == mine);
                    assert(!after.contains(sink as u64)) by {
                        if after.contains(sink as u64) {
                            let k = choose|k: int| 0 <= k < after.len() && after[k] == sink as u64;
                            assert(waiting[k + 1] == waiting[0]);
                        }
                    }
                    assert forall|i: int| 0 <= i < self.sinks@.len() implies (
                    #[trigger] self.sinks@[i]).scheduled == after.contains(i as u64) by {
                        if i != sink {
                            assert(self.sinks@[i] == before.sinks@[i]);
                            if waiting.contains(i as u64) {
                                let k = choose|k: int|
                                    0 <= k < waiting.len() && waiting[k] == i as u64;
                                assert(after[k - 1] == i as u64);
                            }
                            if after.contains(i as u64) {
                                let k = choose|k: int| 0 <= k < after.len() && after[k] == i as u64;
                                assert(waiting[k + 1] == i as u64);
                            }
                        }
                    }
                    assert forall|i: int| 0 <= i < after.len() implies (#[trigger] after[i])
                        < self.sinks@.len() by {
                        assert(after[i] == waiting[i + 1]);
                    }
                    assert forall|i: int, j: int| 0 <= i < j < after.len() implies after[i]
                        != after[j] by {
                        assert(after[i] == waiting[i + 1] && after[j] == waiting[j + 1]);
                    }
                }
                Some(Drain { sink, slot_read: false })
            },
        }
    }

    /// Takes out the task that a draining worker runs next, with the worker's place
    /// after it: at first the slot's, and then, one by one, the oldest of the queue.
    /// There is none, and the drain is over, once the queue is found empty. A task
    /// that comes into the slot behind its reading waits for another drain.
    pub fn next_task(&mut self, drain: Drain) -> (r: Option<(u64, Drain)>)
        requires
            old(self).wf(),
            old(self).holds(drain),
        ensures
            final(self).wf(),
            final(self).sinks@.len() == old(self).sinks@.len(),
            final(self).injector == old(self).injector,
            final(self).workers == old(self).workers,
            final(self).next == old(self).next,
            forall|i: int|
                0 <= i < old(self).sinks@.len() && i != drain.sink ==> (
                #[trigger] final(self).sinks@[i]) == old(self).sinks@[i],
            ({
                let was = old(self).sinks@[drain.sink as int];
                let now = final(self).sinks@[drain.sink as int];
                let from_slot = !drain.slot_read && was.newest().len() > 0;
                &&& now.scheduled == was.scheduled
                &&& match r {
                    Some((task, rest)) => {
                        &&& rest == (Drain { sink: drain.sink, slot_read: true })
                        &&& final(self).holds(rest)
                        &&& from_slot ==> {
                            &&& task == was.newest()[0]
                            &&& now.newest().len() == 0
                            &&& now.tasks() == was.tasks()
                        }
                        &&& !from_slot ==> {
                            &&& was.tasks().len() > 0
                            &&& task == was.tasks()[0]
                            &&& now.tasks() == was.tasks().skip(1)
                            &&& now.newest() == was.newest()
                        }
                        &&& now.drains@ == if drain.slot_read {
                            was.drains@
                        } else {
                            Drains {
                                at_slot: (was.drains@.at_slot - 1) as nat,
                                at_queue: was.drains@.at_queue + 1,
                            }
                        }
                    },
                    None => {
                        &&& !from_slot
                        &&& was.tasks().len() == 0
                        &&& now.tasks() == was.tasks()
                        &&& now.newest() == was.newest()
                        &&& now.drains@ == if drain.slot_read {
                            Drains {
                                at_queue: (was.drains@.at_queue - 1) as nat,
                                ..was.drains@
                            }
                        } else {
                            Drains { at_slot: (was.drains@.at_slot - 1) as nat, ..was.drains@ }
                        }
                    },
                }
            }),
    {
        let ghost before = *self;
        let sink: usize = drain.sink;
        let mut mine: Sink = self.sinks.remove(sink);
        let ghost was = mine;
        if !drain.slot_read {
            mine.drains = Ghost(
                Drains {
                    at_slot: (mine.drains@.at_slot - 1) as nat,
                    at_queue: mine.drains@.at_queue + 1,
                },
            );
        }
        let mut next: Option<u64> = None;
        if !drain.slot_read {
            next = mine.pop_newest();
        }
        if next.is_none() {
            next = mine.pop_task();
        }
        if next.is_none() {
            mine.drains = Ghost(
                Drains { at_queue: (mine.drains@.at_queue - 1) as nat, ..mine.drains@ },
            );
        }
        self.sinks.insert(sink, mine);
        proof {
            assert(was == before.sinks@[sink as int]);
            assert(self.sinks@ =~= before.sinks@.update(sink as int, mine));
            assert(self.waiting() == before.waiting());
        }
        match next {
            Some(task) => Some((task, Drain { sink, slot_read: true })),
            None => None,
        }
    }
}

/// As many distinct numbers below `n` as there are include each of them.
proof fn lemma_all_wait(ids: Seq<u64>, n: nat, id: u64)
    requires
        distinct_below(ids, n),
        ids.len() >= n,
        id < n,
    ensures
        ids.contains(id),
    decreases n,
{
    if !ids.contains(id) {
        let more = ids.push(id);
        assert forall|i: int, j: int| 0 <= i < j < more.len() implies more[i] != more[j] by {
            if j == ids.len() {
                if more[i] == id {
                    assert(ids[i] == id);
                }
            }
        }
        assert forall|i: int| 0 <= i < more.len() implies (#[trigger] more[i]) < n by {
            if i < ids.len() {
                assert(more[i] == ids[i]);
            }
        }
        lemma_distinct_below_len(more, n);
    }
}

/// Where no instance waits, one that no worker drains has no task left: what was
/// accepted has been taken out.
pub proof fn law_no_task_left_behind(pool: TaskPool, sink: int)
    requires
        pool.wf(),
        pool.sinks@.len() <= INJECTOR_CAP,
        pool.waiting().len() == 0,
        0 <= sink < pool.sinks@.len(),
        pool.sinks@[sink].unattended(),
    ensures
        pool.sinks@[sink].idle(),
{
    assert(pool.sinks@[sink].scheduled == pool.waiting().contains(sink as u64));
}

/// One instance's tasks while threads work on them side by side: what waits, and
/// how many threads stand at each point between two of their atomic steps.
pub struct Interleaving {
    /// Tasks in the queue, and whether the slot holds one.
    pub queue: nat,
    pub slot: bool,
    /// The mark that the instance is queued for the workers.
    pub flag: bool,
    /// Threads that put a task in and have not set the mark yet.
    pub arming: nat,
    /// Threads that set the mark and have not queued the instance yet.
    pub injecting: nat,
    /// How often the instance is queued.
    pub injected: nat,
    /// Workers that took the instance and have not cleared the mark yet.
    pub taken: nat,
    /// Workers that cleared the mark and have not read the slot yet.
    pub at_slot: nat,
    /// Workers that read the slot and still read the queue.
    pub at_queue: nat,
}

/// The atomic steps of the threads.
pub enum Step {
    PutInQueue,
    PutInSlot,
    Mark,
    Inject,
    Take,
    Clear,
    ReadSlot,
    ReadTask,
    FindQueueEmpty,
}

pub open spec fn steps(s: Interleaving, step: Step, t: Interleaving) -> bool {
    match step {
        Step::PutInQueue => t == (Interleaving {
            queue: s.queue + 1,
            arming: s.arming + 1,
            ..s
        }),
        Step::PutInSlot => t == (Interleaving { slot: true, arming: s.arming + 1, ..s }),
        Step::Mark => s.arming > 0 && t == if s.flag {
            Interleaving { arming: (s.arming - 1) as nat, ..s }
        } else {
            Interleaving {
                arming: (s.arming - 1) as nat,
                flag: true,
                injecting: s.injecting + 1,
                ..s
            }
        },
        Step::Inject => s.injecting > 0 && t == (Interleaving {
            injecting: (s.injecting - 1) as nat,
            injected: s.injected + 1,
            ..s
        }),
        Step::Take => s.injected > 0 && t == (Interleaving {
            injected: (s.injected - 1) as nat,
            taken: s.taken + 1,
            ..s
        }),
        Step::Clear => s.taken > 0 && t == (Interleaving {
            taken: (s.taken - 1) as nat,
            flag: false,
            at_slot: s.at_slot + 1,
            ..s
        }),
        Step::ReadSlot => s.at_slot > 0 && t == (Interleaving {
            at_slot: (s.at_slot - 1) as nat,
            slot: false,
            at_queue: s.at_queue + 1,
            ..s
        }),
        Step::ReadTask => s.at_queue > 0 && s.queue > 0 && t == (Interleaving {
            queue: (s.queue - 1) as nat,
            ..s
        }),
        Step::FindQueueEmpty => s.at_queue > 0 && s.queue == 0 && t == (Interleaving {
            at_queue: (s.at_queue - 1) as nat,
            ..s
        }),
    }
}

/// A mark means that somebody is on the way to drain; a waiting task that
/// somebody will set the mark, is on the way, or still reads.
pub open spec fn nothing_stranded(s: Interleaving) -> bool {
    let on_the_way = s.injecting > 0 || s.injected > 0 || s.taken > 0;
    &&& s.flag ==> on_the_way
    &&& s.slot ==> s.arming > 0 || on_the_way || s.at_slot > 0
    &&& s.queue > 0 ==> s.arming > 0 || on_the_way || s.at_slot > 0 || s.at_queue > 0
}

/// No order of the threads' steps strands a task: what holds before a step holds
/// after it. It holds of an instance without tasks, and says that once every
/// thread is through and the instance is no longer queued, no task is left.
pub proof fn law_no_interleaving_strands_a_task(s: Interleaving, step: Step, t: Interleaving)
    requires
        nothing_stranded(s),
        steps(s, step, t),
    ensures
        nothing_stranded(t),
        t.arming == 0 && t.injecting == 0 && t.injected == 0 && t.taken == 0 && t.at_slot == 0
            && t.at_queue == 0 ==> t.queue == 0 && !t.slot,
{
}

/// An instance that gets a task goes behind those that wait, unless it waits already or
/// 4096 do; a worker is then woken, each in its turn.
pub proof fn law_instances_queue_once_and_workers_take_turns(pool: TaskPool, sink: usize)
    ensures
        ({
            let joins = !pool.sinks@[sink as int].scheduled && pool.waiting().len() < 4096;
            let after = pool.waiting_with(sink);
            &&& joins ==> after.len() == pool.waiting().len() + 1 && after.last() == sink as u64
                && after.take(pool.waiting().len() as int) == pool.waiting()
            &&& !joins ==> after == pool.waiting()
            &&& pool.woken(sink) is Some <==> joins && pool.workers > 0
            &&& joins && pool.workers > 0 ==> pool.woken(sink) == Some(
                (pool.next as int % pool.workers as int) as usize,
            ) && pool.next_with(sink) == if pool.next < usize::MAX {
                pool.next + 1
            } else {
                0
            }
            &&& !(joins && pool.workers > 0) ==> pool.next_with(sink) == pool.next
        }),
{
    if pool.joins(sink) {
        assert(pool.waiting_with(sink).take(pool.waiting().len() as int) =~= pool.waiting());
    }
}

/// Tasks are known by their own numbers, in the order of the queue that holds them.
pub proof fn law_tasks_keep_their_numbers(items: Seq<Item>, i: int)
    requires
        0 <= i < items.len(),
    ensures
        tickets(items).len() == items.len(),
        tickets(items)[i] == items[i].2,
{
}

/// An instance's tasks are those in its queue, and the newest is the one in its slot.
pub proof fn law_tasks_are_those_in_the_queue(sink: Sink)
    ensures
        sink.tasks() == tickets(queued(sink.queue)),
        sink.newest() == tickets(queued(sink.coalesced)),
        sink.idle() <==> queued(sink.queue).len() == 0 && queued(sink.coalesced).len() == 0,
        sink.wf() ==> queue_capacity(sink.queue) == 256 && queue_capacity(sink.coalesced) == 1,
{
}

/// How many workers there are for a number of cores.
pub open spec fn workers_for(cores: Option<usize>) -> usize {
    match cores {
        Some(n) if n > 1 => (n - 1) as usize,
        _ => 1usize,
    }
}

/// There is always a worker, and of two cores or more exactly one is left free.
pub proof fn law_one_core_is_left_free(cores: Option<usize>)
    ensures
        workers_for(cores) >= 1,
        cores matches Some(n) ==> n >= 2 ==> n - workers_for(cores) == 1,
        cores is None ==> workers_for(cores) == 1,
        cores matches Some(n) ==> n <= 1 ==> workers_for(cores) == 1,
{
}

} // verus!
