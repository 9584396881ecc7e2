//! Worker registry, pending task queue and in-flight task map, with the
//! dispatch rules that connect them.
//!
//! The three containers are owned by one `Manager` value and every change
//! goes through an event function: a registration frame, a response frame,
//! a heartbeat timeout or a stream error. The surrounding connection
//! handlers perform the socket work and call these functions with plain
//! values; a worker's outbound channel is represented here by an opaque
//! `router` handle that the caller maps back to the real channel.

use vstd::prelude::*;

use crate::codec::{DRequest, RegisterWorker};

verus! {

/// Whether a worker may be handed a task.
#[derive(Clone, Copy, PartialEq, Eq, Structural, Debug)]
pub enum WorkerStatus {
    Idle,
    Busy,
}

/// A registered worker: the handle of its outbound channel and its status.
#[derive(Clone, Copy, PartialEq, Eq, Structural, Debug)]
pub struct ServerWorker {
    pub router: u64,
    pub status: WorkerStatus,
}

impl ServerWorker {
    /// A freshly registered worker starts idle.
    pub fn new(router: u64) -> (w: ServerWorker)
        ensures
            w == (ServerWorker { router, status: WorkerStatus::Idle }),
    {
        ServerWorker { router, status: WorkerStatus::Idle }
    }
}

/// One dispatch order for the outbound loop: the task to write, and, when
/// the dispatch follows a fresh registration, the worker to mark busy first.
pub struct ServerMessage {
    pub name: Option<String>,
    pub request: DRequest,
}

/// Scheduling tier of the account a task belongs to. Only a primary task's
/// empty result also advances the downstream node's head pointer.
#[derive(Clone, Copy, PartialEq, Eq, Structural, Debug)]
pub enum Tier {
    Primary,
    Secondary,
}

/// Scheduling metadata of one in-flight task, keyed by task id in the task
/// map: when it was sent, which block it covers, and its tier.
pub struct TaskInfo {
    pub timestamp: i64,
    pub hash: String,
    pub sequence: u64,
    pub status: Tier,
}

impl Clone for TaskInfo {
    fn clone(&self) -> (r: Self)
        ensures
            r == *self,
    {
        let r = TaskInfo {
            timestamp: self.timestamp,
            hash: self.hash.clone(),
            sequence: self.sequence,
            status: self.status,
        };
        r
    }
}

/// The coordinator's shared state: registered workers, pending tasks, and
/// the map from in-flight task id to its scheduling metadata.
///
/// Both keyed containers are association lists with pairwise distinct keys;
/// their contracts speak of the `Map` views `registry()` and `tasks()`.
pub struct Manager {
    pub workers: Vec<(String, ServerWorker)>,
    pub task_queue: Vec<DRequest>,
    pub task_mapping: Vec<(String, TaskInfo)>,
}

impl Manager {
    /// There is an entry for worker `name`.
    pub open spec fn registry_has(self, name: Seq<char>) -> bool {
        exists|i: int| 0 <= i < self.workers.len() && self.workers[i].0@ == name
    }

    /// The index of worker `name`'s entry.
    pub open spec fn registry_index(self, name: Seq<char>) -> int {
        choose|i: int| 0 <= i < self.workers.len() && self.workers[i].0@ == name
    }

    /// The entry registered for worker `name`.
    pub open spec fn worker_at(self, name: Seq<char>) -> ServerWorker {
        self.workers[self.registry_index(name)].1
    }

    /// No two registry entries share a name.
    pub open spec fn registry_unique(self) -> bool {
        forall|i: int, j: int|
            0 <= i < j < self.workers.len() ==> self.workers[i].0@ != self.workers[j].0@
    }

    /// There is a record for task `id`.
    pub open spec fn task_has(self, id: Seq<char>) -> bool {
        exists|i: int| 0 <= i < self.task_mapping.len() && self.task_mapping[i].0@ == id
    }

    /// The index of task `id`'s record.
    pub open spec fn task_index(self, id: Seq<char>) -> int {
        choose|i: int| 0 <= i < self.task_mapping.len() && self.task_mapping[i].0@ == id
    }

    /// The record held for task `id`.
    pub open spec fn task_at(self, id: Seq<char>) -> TaskInfo {
        self.task_mapping[self.task_index(id)].1
    }

    /// No two task records share an id.
    pub open spec fn tasks_unique(self) -> bool {
        forall|i: int, j: int|
            0 <= i < j < self.task_mapping.len() ==> self.task_mapping[i].0@
                != self.task_mapping[j].0@
    }

    /// Well-formedness: both keyed containers have distinct keys.
    pub open spec fn wf(self) -> bool {
        self.registry_unique() && self.tasks_unique()
    }

    /// The registry as a map from worker name to entry.
    pub open spec fn registry(self) -> Map<Seq<char>, ServerWorker> {
        Map::new(|n: Seq<char>| self.registry_has(n), |n: Seq<char>| self.worker_at(n))
    }

    /// The task map as a map from task id to record.
    pub open spec fn tasks(self) -> Map<Seq<char>, TaskInfo> {
        Map::new(|n: Seq<char>| self.task_has(n), |n: Seq<char>| self.task_at(n))
    }

    /// With distinct keys, the entry looked up under the name at index `i`
    /// is the entry at index `i`.
    proof fn lemma_worker_entry(self, i: int)
        requires
            self.registry_unique(),
            0 <= i < self.workers.len(),
        ensures
            self.registry_has(self.workers[i].0@),
            self.registry_index(self.workers[i].0@) == i,
            self.worker_at(self.workers[i].0@) == self.workers[i].1,
    {
        let n = self.workers[i].0@;
        assert(self.registry_has(n));
        let j = self.registry_index(n);
        if i != j {
            assert(self.workers[i].0@ != self.workers[j].0@);
        }
    }

    /// With distinct ids, the record looked up under the id at index `i`
    /// is the record at index `i`.
    proof fn lemma_task_record(self, i: int)
        requires
            self.tasks_unique(),
            0 <= i < self.task_mapping.len(),
        ensures
            self.task_has(self.task_mapping[i].0@),
            self.task_index(self.task_mapping[i].0@) == i,
            self.task_at(self.task_mapping[i].0@) == self.task_mapping[i].1,
    {
        let n = self.task_mapping[i].0@;
        assert(self.task_has(n));
        let j = self.task_index(n);
        if i != j {
            assert(self.task_mapping[i].0@ != self.task_mapping[j].0@);
        }
    }

    /// An empty manager: no workers, no pending tasks, no in-flight records.
    pub fn new() -> (m: Manager)
        ensures
            m.wf(),
            m.workers@.len() == 0,
            m.task_queue@.len() == 0,
            m.task_mapping@.len() == 0,
            m.registry() == Map::<Seq<char>, ServerWorker>::empty(),
            m.tasks() == Map::<Seq<char>, TaskInfo>::empty(),
    {
        let m = Manager { workers: Vec::new(), task_queue: Vec::new(), task_mapping: Vec::new() };
        proof {
            assert(m.registry() =~= Map::<Seq<char>, ServerWorker>::empty());
            assert(m.tasks() =~= Map::<Seq<char>, TaskInfo>::empty());
        }
        m
    }

    /// Index of the registry entry for `name`, if one exists.
    fn find_worker(&self, name: &String) -> (r: Option<usize>)
        ensures
            match r {
                Some(i) => i < self.workers@.len() && self.workers@[i as int].0@ == name@,
                None => !self.registry_has(name@),
            },
    {
        let mut i: usize = 0;
        while i < self.workers.len()
            invariant
                i <= self.workers@.len(),
                forall|k: int| 0 <= k < i ==> self.workers@[k].0@ != name@,
            decreases self.workers@.len() - i,
        {
            if self.workers[i].0 == *name {
                return Some(i);
            }
            i = i + 1;
        }
        None
    }

    /// Index of the task record for `id`, if one exists.
    fn find_task(&self, id: &String) -> (r: Option<usize>)
        ensures
            match r {
                Some(i) => i < self.task_mapping@.len() && self.task_mapping@[i as int].0@ == id@,
                None => !self.task_has(id@),
            },
    {
        let mut i: usize = 0;
        while i < self.task_mapping.len()
            invariant
                i <= self.task_mapping@.len(),
                forall|k: int| 0 <= k < i ==> self.task_mapping@[k].0@ != id@,
            decreases self.task_mapping@.len() - i,
        {
            if self.task_mapping[i].0 == *id {
                return Some(i);
            }
            i = i + 1;
        }
        None
    }

    /// Appends a pending task; called by the task-production side.
    pub fn enqueue(&mut self, task: DRequest)
        requires
            old(self).wf(),
        ensures
            final(self).wf(),
            final(self).task_queue@ == old(self).task_queue@.push(task),
            final(self).workers == old(self).workers,
            final(self).task_mapping == old(self).task_mapping,
    {
        self.task_queue.push(task);
    }

    /// Inserts or replaces the registry entry for `name`.
    pub fn insert_worker(&mut self, name: String, worker: ServerWorker)
        requires
            old(self).wf(),
        ensures
            final(self).wf(),
            final(self).registry() == old(self).registry().insert(name@, worker),
            final(self).task_queue == old(self).task_queue,
            final(self).task_mapping == old(self).task_mapping,
    {
        let found = self.find_worker(&name);
        let ghost pre = *self;
        match found {
            Some(i) => {
                self.workers.set(i, (name, worker));
                proof {
                    assert forall|n: Seq<char>| true implies #[trigger] self.registry_has(n)
                        == pre.registry_has(n) by {
                        if pre.registry_has(n) {
                            let k = pre.registry_index(n);
                            assert(self.workers@[k].0@ == n);
                        }
                        if self.registry_has(n) {
                            let k = choose|k: int|
                                0 <= k < self.workers.len() && self.workers@[k].0@ == n;
                            assert(pre.workers@[k].0@ == n || k == i);
                        }
                    }
                    assert(self.registry_unique()) by {
                        assert forall|a: int, b: int|
                            0 <= a < b < self.workers.len() implies self.workers@[a].0@
                            != self.workers@[b].0@ by {
                            if a != i as int && b != i as int {
                                assert(pre.workers@[a].0@ != pre.workers@[b].0@);
                            } else if a == i as int {
                                if pre.workers@[b].0@ == self.workers@[a].0@ {
                                    assert(pre.workers@[i as int].0@ == pre.workers@[b].0@);
                                }
                            } else {
                                if pre.workers@[a].0@ == self.workers@[b].0@ {
                                    assert(pre.workers@[a].0@ == pre.workers@[i as int].0@);
                                }
                            }
                        }
                    }
                    assert(self.registry() =~= pre.registry().insert(name@, worker)) by {
                        assert forall|n: Seq<char>| #[trigger]
                            self.registry().dom().contains(n) implies self.registry()[n]
                            == pre.registry().insert(name@, worker)[n] by {
                            if n == name@ {
                                self.lemma_worker_entry(i as int);
                            } else {
                                let k = self.registry_index(n);
                                assert(self.workers@[k].0@ == n);
                                assert(k != i as int);
                                self.lemma_worker_entry(k);
                                pre.lemma_worker_entry(k);
                            }
                        }
                    }
                }
            },
            None => {
                let ghost oldlen = self.workers@.len() as int;
                self.workers.push((name, worker));
                proof {
                    assert(self.registry_unique()) by {
                        assert forall|a: int, b: int|
                            0 <= a < b < self.workers.len() implies self.workers@[a].0@
                            != self.workers@[b].0@ by {
                            if b == oldlen {
                                assert(!pre.registry_has(self.workers@[b].0@));
                                assert(pre.workers@[a].0@ != self.workers@[b].0@);
                            } else {
                                assert(pre.workers@[a].0@ != pre.workers@[b].0@);
                            }
                        }
                    }
                    assert(self.registry() =~= pre.registry().insert(name@, worker)) by {
                        assert forall|n: Seq<char>| true implies (#[trigger] self.registry_has(n)
                            == (pre.registry_has(n) || n == name@)) by {
                            if self.registry_has(n) {
                                let k = choose|k: int|
                                    0 <= k < self.workers.len() && self.workers@[k].0@ == n;
                                if k < oldlen {
                                    assert(pre.workers@[k].0@ == n);
                                }
                            }
                            if pre.registry_has(n) {
                                let k = pre.registry_index(n);
                                assert(self.workers@[k].0@ == n);
                            }
                            assert(self.workers@[oldlen].0@ == name@);
                        }
                        assert forall|n: Seq<char>| #[trigger]
                            self.registry().dom().contains(n) implies self.registry()[n]
                            == pre.registry().insert(name@, worker)[n] by {
                            if n == name@ {
                                self.lemma_worker_entry(oldlen);
                            } else {
                                let k = self.registry_index(n);
                                assert(self.workers@[k].0@ == n);
                                assert(k != oldlen);
                                self.lemma_worker_entry(k);
                                pre.lemma_worker_entry(k);
                            }
                        }
                    }
                }
            },
        }
    }
    /// Removes the registry entry for `name`; no change when none exists.
    pub fn remove_worker(&mut self, name: &String)
        requires
            old(self).wf(),
        ensures
            final(self).wf(),
            final(self).registry() == old(self).registry().remove(name@),
            final(self).task_queue == old(self).task_queue,
            final(self).task_mapping == old(self).task_mapping,
    {
        let found = self.find_worker(name);
        let ghost pre = *self;
        match found {
            Some(i) => {
                self.workers.remove(i);
                proof {
                    assert forall|a: int, b: int|
                        0 <= a < b < self.workers.len() implies self.workers@[a].0@
                        != self.workers@[b].0@ by {
                        let pa = if a < i as int { a } else { a + 1 };
                        let pb = if b < i as int { b } else { b + 1 };
                        assert(self.workers@[a] == pre.workers@[pa]);
                        assert(self.workers@[b] == pre.workers@[pb]);
                        assert(pre.workers@[pa].0@ != pre.workers@[pb].0@);
                    }
                    assert(self.registry() =~= pre.registry().remove(name@)) by {
                        assert forall|n: Seq<char>| true implies (#[trigger] self.registry_has(n)
                            == (pre.registry_has(n) && n != name@)) by {
                            if self.registry_has(n) {
                                let k = choose|k: int|
                                    0 <= k < self.workers.len() && self.workers@[k].0@ == n;
                                let pk = if k < i as int {
                                    k
                                } else {
                                    k + 1
                                };
                                assert(self.workers@[k] == pre.workers@[pk]);
                                assert(pre.workers@[pk].0@ == n);
                                if n == name@ {
                                    assert(pre.workers@[i as int].0@ == pre.workers@[pk].0@);
                                }
                            }
                            if pre.registry_has(n) && n != name@ {
                                let pk = pre.registry_index(n);
                                assert(pre.workers@[pk].0@ == n);
                                assert(pk != i as int);
                                let k = if pk < i as int {
                                    pk
                                } else {
                                    pk - 1
                                };
                                assert(self.workers@[k] == pre.workers@[pk]);
                            }
                        }
                        assert forall|n: Seq<char>| #[trigger]
                            self.registry().dom().contains(n) implies self.registry()[n]
                            == pre.registry().remove(name@)[n] by {
                            let k = self.registry_index(n);
                            assert(self.workers@[k].0@ == n);
                            self.lemma_worker_entry(k);
                            let pk = if k < i as int {
                                k
                            } else {
                                k + 1
                            };
                            assert(self.workers@[k] == pre.workers@[pk]);
                            pre.lemma_worker_entry(pk);
                        }
                    }
                }
            },
            None => {
                proof {
                    assert(self.registry() =~= pre.registry().remove(name@));
                }
            },
        }
    }

    /// Sets the status of worker `name`'s entry; no change when none exists.
    fn set_worker_status(&mut self, name: &String, status: WorkerStatus)
        requires
            old(self).wf(),
        ensures
            final(self).wf(),
            final(self).task_queue == old(self).task_queue,
            final(self).task_mapping == old(self).task_mapping,
            old(self).registry_has(name@) ==> final(self).registry() == old(
                self,
            ).registry().insert(
                name@,
                ServerWorker { router: old(self).worker_at(name@).router, status },
            ),
            !old(self).registry_has(name@) ==> *final(self) == *old(self),
    {
        let found = self.find_worker(name);
        let ghost pre = *self;
        match found {
            Some(i) => {
                proof {
                    pre.lemma_worker_entry(i as int);
                }
                let router = self.workers[i].1.router;
                let key = self.workers[i].0.clone();
                self.insert_worker(key, ServerWorker { router, status });
                proof {
                    assert(self.registry() =~= pre.registry().insert(
                        name@,
                        ServerWorker { router: pre.worker_at(name@).router, status },
                    ));
                }
            },
            None => {},
        }
    }

    /// Inserts or replaces the record for task `id`. A record is created
    /// when a task is dequeued and sent to a worker.
    pub fn insert_task(&mut self, id: String, info: TaskInfo)
        requires
            old(self).wf(),
        ensures
            final(self).wf(),
            final(self).tasks() == old(self).tasks().insert(id@, info),
            final(self).workers == old(self).workers,
            final(self).task_queue == old(self).task_queue,
    {
        let found = self.find_task(&id);
        let ghost pre = *self;
        match found {
            Some(i) => {
                self.task_mapping.set(i, (id, info));
                proof {
                    assert forall|a: int, b: int|
                        0 <= a < b < self.task_mapping.len() implies self.task_mapping@[a].0@
                        != self.task_mapping@[b].0@ by {
                        if a != i as int && b != i as int {
                            assert(pre.task_mapping@[a].0@ != pre.task_mapping@[b].0@);
                        } else if a == i as int {
                            if pre.task_mapping@[b].0@ == self.task_mapping@[a].0@ {
                                assert(pre.task_mapping@[i as int].0@ == pre.task_mapping@[b].0@);
                            }
                        } else {
                            if pre.task_mapping@[a].0@ == self.task_mapping@[b].0@ {
                                assert(pre.task_mapping@[a].0@ == pre.task_mapping@[i as int].0@);
                            }
                        }
                    }
                    assert(self.tasks() =~= pre.tasks().insert(id@, info)) by {
                        assert forall|n: Seq<char>| true implies #[trigger] self.task_has(n)
                            == (pre.task_has(n) || n == id@) by {
                            if self.task_has(n) {
                                let k = choose|k: int|
                                    0 <= k < self.task_mapping.len() && self.task_mapping@[k].0@
                                        == n;
                                assert(pre.task_mapping@[k].0@ == n || k == i);
                            }
                            if pre.task_has(n) {
                                let k = pre.task_index(n);
                                assert(self.task_mapping@[k].0@ == n || k == i);
                            }
                            assert(self.task_mapping@[i as int].0@ == id@);
                        }
                        assert forall|n: Seq<char>| #[trigger]
                            self.tasks().dom().contains(n) implies self.tasks()[n]
                            == pre.tasks().insert(id@, info)[n] by {
                            if n == id@ {
                                self.lemma_task_record(i as int);
                            } else {
                                let k = self.task_index(n);
                                assert(self.task_mapping@[k].0@ == n);
                                assert(k != i as int);
                                self.lemma_task_record(k);
                                pre.lemma_task_record(k);
                            }
                        }
                    }
                }
            },
            None => {
                let ghost oldlen = self.task_mapping@.len() as int;
                self.task_mapping.push((id, info));
                proof {
                    assert forall|a: int, b: int|
                        0 <= a < b < self.task_mapping.len() implies self.task_mapping@[a].0@
                        != self.task_mapping@[b].0@ by {
                        if b == oldlen {
                            assert(!pre.task_has(self.task_mapping@[b].0@));
                            assert(pre.task_mapping@[a].0@ != self.task_mapping@[b].0@);
                        } else {
                            assert(pre.task_mapping@[a].0@ != pre.task_mapping@[b].0@);
                        }
                    }
                    assert(self.tasks() =~= pre.tasks().insert(id@, info)) by {
                        assert forall|n: Seq<char>| true implies (#[trigger] self.task_has(n) == (
                        pre.task_has(n) || n == id@)) by {
                            if self.task_has(n) {
                                let k = choose|k: int|
                                    0 <= k < self.task_mapping.len() && self.task_mapping@[k].0@
                                        == n;
                                if k < oldlen {
                                    assert(pre.task_mapping@[k].0@ == n);
                                }
                            }
                            if pre.task_has(n) {
                                let k = pre.task_index(n);
                                assert(self.task_mapping@[k].0@ == n);
                            }
                            assert(self.task_mapping@[oldlen].0@ == id@);
                        }
                        assert forall|n: Seq<char>| #[trigger]
                            self.tasks().dom().contains(n) implies self.tasks()[n]
                            == pre.tasks().insert(id@, info)[n] by {
                            if n == id@ {
                                self.lemma_task_record(oldlen);
                            } else {
                                let k = self.task_index(n);
                                assert(self.task_mapping@[k].0@ == n);
                                assert(k != oldlen);
                                self.lemma_task_record(k);
                                pre.lemma_task_record(k);
                            }
                        }
                    }
                }
            },
        }
    }

    /// Removes the record for task `id` and reports whether one existed.
    ///
    /// Removal is idempotent by contract: when no record exists the map is
    /// unchanged, never an error — a response may try to clear the same id
    /// once per imported transaction.
    pub fn remove_task(&mut self, id: &String) -> (removed: bool)
        requires
            old(self).wf(),
        ensures
            final(self).wf(),
            final(self).tasks() == old(self).tasks().remove(id@),
            removed == old(self).task_has(id@),
            final(self).workers == old(self).workers,
            final(self).task_queue == old(self).task_queue,
    {
        let found = self.find_task(id);
        let ghost pre = *self;
        match found {
            Some(i) => {
                self.task_mapping.remove(i);
                proof {
                    assert(pre.task_has(id@)) by {
                        assert(pre.task_mapping@[i as int].0@ == id@);
                    }
                    assert forall|a: int, b: int|
                        0 <= a < b < self.task_mapping.len() implies self.task_mapping@[a].0@
                        != self.task_mapping@[b].0@ by {
                        let pa = if a < i as int { a } else { a + 1 };
                        let pb = if b < i as int { b } else { b + 1 };
                        assert(self.task_mapping@[a] == pre.task_mapping@[pa]);
                        assert(self.task_mapping@[b] == pre.task_mapping@[pb]);
                        assert(pre.task_mapping@[pa].0@ != pre.task_mapping@[pb].0@);
                    }
                    assert(self.tasks() =~= pre.tasks().remove(id@)) by {
                        assert forall|n: Seq<char>| true implies (#[trigger] self.task_has(n) == (
                        pre.task_has(n) && n != id@)) by {
                            if self.task_has(n) {
                                let k = choose|k: int|
                                    0 <= k < self.task_mapping.len() && self.task_mapping@[k].0@
                                        == n;
                                let pk = if k < i as int {
                                    k
                                } else {
                                    k + 1
                                };
                                assert(self.task_mapping@[k] == pre.task_mapping@[pk]);
                                assert(pre.task_mapping@[pk].0@ == n);
                                if n == id@ {
                                    assert(pre.task_mapping@[i as int].0@
                                        == pre.task_mapping@[pk].0@);
                                }
                            }
                            if pre.task_has(n) && n != id@ {
                                let pk = pre.task_index(n);
                                assert(pre.task_mapping@[pk].0@ == n);
                                assert(pk != i as int);
                                let k = if pk < i as int {
                                    pk
                                } else {
                                    pk - 1
                                };
                                assert(self.task_mapping@[k] == pre.task_mapping@[pk]);
                            }
                        }
                        assert forall|n: Seq<char>| #[trigger]
                            self.tasks().dom().contains(n) implies self.tasks()[n]
                            == pre.tasks().remove(id@)[n] by {
                            let k = self.task_index(n);
                            assert(self.task_mapping@[k].0@ == n);
                            self.lemma_task_record(k);
                            let pk = if k < i as int {
                                k
                            } else {
                                k + 1
                            };
                            assert(self.task_mapping@[k] == pre.task_mapping@[pk]);
                            pre.lemma_task_record(pk);
                        }
                    }
                }
                true
            },
            None => {
                proof {
                    assert(self.tasks() =~= pre.tasks().remove(id@));
                }
                false
            },
        }
    }

    /// The record held for task `id`, if any.
    pub fn lookup_task(&self, id: &String) -> (r: Option<TaskInfo>)
        requires
            self.wf(),
        ensures
            match r {
                Some(info) => self.task_has(id@) && info == self.task_at(id@),
                None => !self.task_has(id@),
            },
    {
        let found = self.find_task(id);
        match found {
            Some(i) => {
                proof {
                    self.lemma_task_record(i as int);
                }
                Some(self.task_mapping[i].1.clone())
            },
            None => None,
        }
    }

    /// Handles a `RegisterWorker` frame on a connection whose confirmed
    /// identity is `current_name`.
    ///
    /// The same name is a keep-alive: nothing changes and nothing is
    /// dispatched (the caller resets its heartbeat timer). A different name
    /// registers a fresh idle entry under that name — the old key, if it was
    /// ever registered, is left to age out by its own timeout — and, when
    /// tasks are pending, dispatches exactly the most recently enqueued one
    /// to this worker, naming it so the outbound loop marks it busy.
    /// Returns the connection's new confirmed identity and the dispatch.
    pub fn handle_register(
        &mut self,
        current_name: &String,
        register: RegisterWorker,
        router: u64,
    ) -> (r: (String, Option<ServerMessage>))
        requires
            old(self).wf(),
        ensures
            final(self).wf(),
            final(self).task_mapping == old(self).task_mapping,
            register.name@ == current_name@ ==> *final(self) == *old(self) && r.0@ == current_name@
                && r.1 is None,
            register.name@ != current_name@ ==> r.0@ == register.name@ && final(self).registry()
                == old(self).registry().insert(
                register.name@,
                ServerWorker { router, status: WorkerStatus::Idle },
            ) && (old(self).task_queue@.len() > 0 ==> final(self).task_queue@ == old(
                self,
            ).task_queue@.drop_last() && (r.1 matches Some(msg) && msg.name matches Some(n) && n@
                == register.name@ && msg.request == old(self).task_queue@.last())) && (old(
                self,
            ).task_queue@.len() == 0 ==> final(self).task_queue@ == old(self).task_queue@
                && r.1 is None),
    {
        if register.name == *current_name {
            (current_name.clone(), None)
        } else {
            let name = register.name;
            self.insert_worker(name.clone(), ServerWorker::new(router));
            let ghost mid = *self;
            let popped = self.task_queue.pop();
            proof {
                assert(self.workers == mid.workers);
                assert(self.registry() =~~= mid.registry());
            }
            match popped {
                Some(task) => {
                    let msg = ServerMessage { name: Some(name.clone()), request: task };
                    (name, Some(msg))
                },
                None => (name, None),
            }
        }
    }

    /// Picks this worker's next turn after one of its responses was handed
    /// to reconciliation: dispatch the most recently enqueued pending task,
    /// or, with an empty queue, return the worker to idle.
    ///
    /// The dispatch carries no name: the worker is already busy with the
    /// task it just answered, so the outbound loop has nothing to mark.
    pub fn handle_response_dispatch(&mut self, worker_name: &String) -> (r: Option<ServerMessage>)
        requires
            old(self).wf(),
        ensures
            final(self).wf(),
            final(self).task_mapping == old(self).task_mapping,
            old(self).task_queue@.len() > 0 ==> final(self).task_queue@ == old(
                self,
            ).task_queue@.drop_last() && final(self).workers == old(self).workers && (
            r matches Some(msg) && msg.name is None && msg.request == old(
                self,
            ).task_queue@.last()),
            old(self).task_queue@.len() == 0 ==> r is None && final(self).task_queue@ == old(
                self,
            ).task_queue@ && (old(self).registry_has(worker_name@) ==> final(self).registry()
                == old(self).registry().insert(
                worker_name@,
                ServerWorker {
                    router: old(self).worker_at(worker_name@).router,
                    status: WorkerStatus::Idle,
                },
            )) && (!old(self).registry_has(worker_name@) ==> final(self).workers == old(
                self,
            ).workers),
    {
        match self.task_queue.pop() {
            Some(task) => Some(ServerMessage { name: None, request: task }),
            None => {
                self.set_worker_status(worker_name, WorkerStatus::Idle);
                None
            },
        }
    }

    /// Marks a worker busy; the outbound loop does this for a dispatch that
    /// names its worker, before the frame is written, so a concurrent
    /// dispatch decision already sees the worker as occupied. No change
    /// when the name is not registered.
    pub fn mark_busy(&mut self, worker_name: &String)
        requires
            old(self).wf(),
        ensures
            final(self).wf(),
            final(self).task_queue == old(self).task_queue,
            final(self).task_mapping == old(self).task_mapping,
            old(self).registry_has(worker_name@) ==> final(self).registry() == old(
                self,
            ).registry().insert(
                worker_name@,
                ServerWorker {
                    router: old(self).worker_at(worker_name@).router,
                    status: WorkerStatus::Busy,
                },
            ),
            !old(self).registry_has(worker_name@) ==> *final(self) == *old(self),
    {
        self.set_worker_status(worker_name, WorkerStatus::Busy);
    }

    /// The status of worker `name`'s entry, if one exists.
    pub fn worker_status(&self, name: &String) -> (r: Option<WorkerStatus>)
        requires
            self.wf(),
        ensures
            match r {
                Some(st) => self.registry_has(name@) && st == self.worker_at(name@).status,
                None => !self.registry_has(name@),
            },
    {
        let found = self.find_worker(name);
        match found {
            Some(i) => {
                proof {
                    self.lemma_worker_entry(i as int);
                }
                Some(self.workers[i].1.status)
            },
            None => None,
        }
    }
}

/// Law: however often a name registers, a well-formed registry holds at
/// most one entry for it — any two indices carrying the same name are the
/// same index. Together with `handle_register`'s contract (well-formedness
/// is preserved and a fresh registration's entry exists) this pins the
/// registry to exactly one entry per registered name.
pub proof fn lemma_registry_entry_unique(m: Manager, name: Seq<char>, i: int, j: int)
    requires
        m.wf(),
        0 <= i < m.workers@.len(),
        0 <= j < m.workers@.len(),
        m.workers@[i].0@ == name,
        m.workers@[j].0@ == name,
    ensures
        i == j,
{
    if i < j {
        assert(m.workers@[i].0@ != m.workers@[j].0@);
    } else if j < i {
        assert(m.workers@[j].0@ != m.workers@[i].0@);
    }
}

/// One frame of a connection's inbound loop, at the level the dispatch
/// rules see it: a registration carrying a name, or a task response.
/// Heartbeat timeouts and stream errors end the loop and dispatch nothing,
/// so a trace of these two events covers every dispatch the loop can make.
pub enum ConnEvent {
    Register(Seq<char>),
    Response,
}

/// The connection's confirmed identity after processing `events`, starting
/// from the provisional name `start`: each registration frame's name
/// becomes the identity, responses leave it unchanged.
pub open spec fn identity_after(start: Seq<char>, events: Seq<ConnEvent>) -> Seq<char>
    decreases events.len(),
{
    if events.len() == 0 {
        start
    } else {
        match events.last() {
            ConnEvent::Register(name) => name,
            ConnEvent::Response => identity_after(start, events.drop_last()),
        }
    }
}

/// Whether processing event `i` can dispatch a task on this connection.
/// `handle_register` dispatches only on a fresh name (a keep-alive
/// returns no message), `handle_response_dispatch` may always dispatch,
/// and each returns at most one message.
pub open spec fn may_dispatch_at(start: Seq<char>, events: Seq<ConnEvent>, i: int) -> bool
    recommends
        0 <= i < events.len(),
{
    match events[i] {
        ConnEvent::Register(name) => name != identity_after(start, events.take(i)),
        ConnEvent::Response => true,
    }
}

/// Law: while a connection keeps serving one worker, that worker receives
/// at most one task between a dispatch and its next response. If event `i`
/// dispatched, the identity right after each of the events `i` through
/// `j` is `w`, and no event after `i` up to `j` is a response from the
/// worker, then no event in that stretch can dispatch again: every one of
/// them is a keep-alive registration.
pub proof fn lemma_one_dispatch_per_turn(
    start: Seq<char>,
    events: Seq<ConnEvent>,
    w: Seq<char>,
    i: int,
    j: int,
)
    requires
        0 <= i < j < events.len(),
        may_dispatch_at(start, events, i),
        forall|k: int| i < k <= j + 1 ==> #[trigger] identity_after(start, events.take(k)) == w,
        forall|k: int| i < k <= j ==> !(#[trigger] events[k] is Response),
    ensures
        forall|k: int| i < k <= j ==> !#[trigger] may_dispatch_at(start, events, k),
{
    assert forall|k: int| i < k <= j implies !may_dispatch_at(start, events, k) by {
        assert(events[k] is Register);
        let name = events[k]->Register_0;
        assert(events.take(k + 1).last() == events[k]);
        assert(events.take(k + 1).drop_last() =~= events.take(k));
        assert(identity_after(start, events.take(k + 1)) == name);
        assert(identity_after(start, events.take(k)) == w);
        assert(identity_after(start, events.take(k + 1)) == w);
        assert(name == w);
    }
}

} // verus!
