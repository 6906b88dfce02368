//! The task handler: which task to start next, and how the table of live
//! processes and the queue change as processes start, are signalled and exit.
//! The processes themselves are run by the caller, which reports back here.
use vstd::prelude::*;

use crate::queue::{
    finished, has_id, pos_of, schedulable_id, started, task_of, with_status, Queue,
    QueueError,
};
use crate::task::{Task, TaskStatus};

verus! {

/// Exit code recorded for a task whose process could not be spawned.
pub const SPAWN_FAILURE_CODE: i32 = 1;

/// Exit code recorded for a process that was ended by a signal.
pub const SIGNALED_EXIT_CODE: i32 = -1;

/// A signal to send to the process of a task.
#[derive(Clone, Copy, Debug, PartialEq, Eq, Structural)]
pub enum Signal {
    Suspend,
    Continue,
    Terminate,
}

/// One live process, by the id of its task.
#[derive(Clone, Copy, Debug, PartialEq, Eq, Structural)]
pub struct TrackedProcess {
    pub task_id: usize,
    /// A kill was requested, so the exit counts as `Killed`.
    pub kill_requested: bool,
}

/// Some tracked process belongs to task `id`.
pub open spec fn tracks(h: Seq<TrackedProcess>, id: usize) -> bool {
    exists|k: int| 0 <= k < h.len() && h[k].task_id == id
}

/// The tracked processes belong to distinct tasks.
pub open spec fn ids_distinct(h: Seq<TrackedProcess>) -> bool {
    forall|a: int, b: int| 0 <= a < h.len() && 0 <= b < h.len() && a != b ==> h[a].task_id != h[b].task_id
}

/// Some `Running` or `Paused` task of `q` has id `id`.
pub open spec fn active_in(q: Seq<Task>, id: usize) -> bool {
    exists|i: int| 0 <= i < q.len() && q[i].id == id && q[i].status.is_active()
}

/// Every tracked process belongs to a `Running` or `Paused` task of `q`, and
/// every such task has a tracked process.
pub open spec fn consistent(h: Seq<TrackedProcess>, q: Seq<Task>) -> bool {
    &&& forall|k: int| 0 <= k < h.len() ==> #[trigger] active_in(q, h[k].task_id)
    &&& forall|i: int| 0 <= i < q.len() && (#[trigger] q[i]).status.is_active() ==> tracks(h, q[i].id)
}

/// The position in `h` of the process of task `id`.
pub open spec fn proc_pos(h: Seq<TrackedProcess>, id: usize) -> int {
    choose|k: int| 0 <= k < h.len() && h[k].task_id == id
}

/// The terminal status of a process that exited with `code` (`None`: ended
/// by a signal).
pub open spec fn exit_status(kill_requested: bool, code: Option<i32>) -> TaskStatus {
    if kill_requested {
        TaskStatus::Killed
    } else if code == Some(0i32) {
        TaskStatus::Done
    } else {
        TaskStatus::Failed
    }
}

/// The exit code recorded for a process that exited with `code`.
pub open spec fn recorded_code(code: Option<i32>) -> i32 {
    match code {
        Some(c) => c,
        None => SIGNALED_EXIT_CODE,
    }
}

pub struct TaskHandler {
    processes: Vec<TrackedProcess>,
    max_running: usize,
}

impl View for TaskHandler {
    type V = Seq<TrackedProcess>;

    closed spec fn view(&self) -> Seq<TrackedProcess> {
        self.processes@
    }
}

impl TaskHandler {
    /// How many processes may run at once.
    pub closed spec fn max_running_spec(&self) -> nat {
        self.max_running as nat
    }

    pub open spec fn wf(&self) -> bool {
        ids_distinct(self@)
    }

    /// A handler with no processes that runs up to `max_running` at once.
    pub fn new(max_running: usize) -> (r: TaskHandler)
        ensures
            r.wf(),
            r@.len() == 0,
            r.max_running_spec() == max_running,
    {
        TaskHandler { processes: Vec::new(), max_running }
    }

    /// Number of live processes.
    pub fn running_count(&self) -> (r: usize)
        ensures
            r == self@.len(),
    {
        self.processes.len()
    }

    /// Position of the process of task `id`, if one is tracked.
    pub fn find(&self, id: usize) -> (r: Option<usize>)
        ensures
            r.is_none() <==> !tracks(self@, id),
            r.is_some() ==> r.unwrap() < self@.len() && self@[r.unwrap() as int].task_id == id,
    {
        let mut k: usize = 0;
        while k < self.processes.len()
            invariant
                0 <= k <= self@.len(),
                forall|m: int| 0 <= m < k ==> self@[m].task_id != id,
            decreases self@.len() - k,
        {
            if self.processes[k].task_id == id {
                return Some(k);
            }
            k = k + 1;
        }
        None
    }

    /// The task to start now: the lowest schedulable id, provided fewer than
    /// the allowed number of processes are live.
    pub fn next_to_start(&self, queue: &Queue, now: i64) -> (r: Option<usize>)
        requires
            queue.wf(),
        ensures
            r.is_some() <==> self@.len() < self.max_running_spec() && exists|id: usize|
                schedulable_id(queue@, id, now),
            r.is_some() ==> schedulable_id(queue@, r.unwrap(), now) && forall|id: usize|
                schedulable_id(queue@, id, now) ==> r.unwrap() <= id,
    {
        if self.processes.len() >= self.max_running {
            return None;
        }
        let ids = queue.iter_schedulable(now);
        if ids.len() == 0 {
            proof {
                assert forall|id: usize| !schedulable_id(queue@, id, now) by {
                    assert(!ids@.contains(id));
                }
            }
            None
        } else {
            proof {
                assert(ids@.contains(ids@[0]));
                assert forall|id: usize| schedulable_id(queue@, id, now) implies ids@[0] <= id by {
                    assert(ids@.contains(id));
                    let k = choose|k: int| 0 <= k < ids@.len() && ids@[k] == id;
                    if k > 0 {
                        assert(ids@[0] < ids@[k]);
                    }
                }
            }
            Some(ids[0])
        }
    }
    /// Replacing a task of `q` by one of the same id and the same activity
    /// keeps the table consistent with the queue.
    proof fn lemma_same_activity(h: Seq<TrackedProcess>, q: Seq<Task>, i: int, t: Task)
        requires
            consistent(h, q),
            0 <= i < q.len(),
            t.id == q[i].id,
            t.status.is_active() == q[i].status.is_active(),
        ensures
            consistent(h, q.update(i, t)),
    {
        let q2 = q.update(i, t);
        assert forall|k: int| 0 <= k < h.len() implies #[trigger] active_in(q2, h[k].task_id) by {
            assert(active_in(q, h[k].task_id));
                let j = choose|j: int| 0 <= j < q.len() && q[j].id == h[k].task_id && q[j].status.is_active();
            assert(q2[j].id == h[k].task_id && q2[j].status.is_active());
        }
        assert forall|j: int| 0 <= j < q2.len() && (#[trigger] q2[j]).status.is_active() implies tracks(h, q2[j].id) by {
            assert(q[j].status.is_active());
        }
    }

    /// The process of `Queued` task `id` has been spawned at time `now`: the
    /// task becomes `Running` and its process is tracked. A task that is not
    /// `Queued` (one already running among them) is refused, so no task ever
    /// has two processes.
    pub fn start_process(&mut self, queue: &mut Queue, id: usize, now: i64) -> (r: Result<(), QueueError>)
        requires
            old(queue).wf(),
            old(self).wf(),
            consistent(old(self)@, old(queue)@),
        ensures
            final(queue).wf(),
            final(self).wf(),
            consistent(final(self)@, final(queue)@),
            final(queue).next_id_spec() == old(queue).next_id_spec(),
            final(self).max_running_spec() == old(self).max_running_spec(),
            !has_id(old(queue)@, id) ==> r == Err::<(), QueueError>(QueueError::NotFound),
            r.is_ok() <==> has_id(old(queue)@, id) && task_of(old(queue)@, id).status
                == TaskStatus::Queued,
            has_id(old(queue)@, id) && r.is_err() ==> r == Err::<(), QueueError>(QueueError::InvalidState),
            r.is_err() ==> final(queue)@ == old(queue)@ && final(self)@ == old(self)@,
            r.is_ok() ==> final(queue)@ == old(queue)@.update(
                pos_of(old(queue)@, id),
                started(task_of(old(queue)@, id), now),
            ) && final(self)@ == old(self)@.push(TrackedProcess { task_id: id, kill_requested: false }),
    {
        let ghost q = queue@;
        let ghost h = self@;
        let res = queue.mark_started(id, now);
        if res.is_err() {
            return res;
        }
        proof {
            let i = pos_of(q, id);
            assert(q[i].id == id && q[i].status == TaskStatus::Queued);
            assert forall|k: int| 0 <= k < h.len() implies h[k].task_id != id by {
                assert(active_in(q, h[k].task_id));
                let j = choose|j: int| 0 <= j < q.len() && q[j].id == h[k].task_id && q[j].status.is_active();
                if j < i {
                    assert(q[j].id < q[i].id);
                } else if i < j {
                    assert(q[i].id < q[j].id);
                }
            }
        }
        self.processes.push(TrackedProcess { task_id: id, kill_requested: false });
        proof {
            let i = pos_of(q, id);
            let q2 = queue@;
            let h2 = self@;
            assert forall|k: int| 0 <= k < h2.len() implies #[trigger] active_in(q2, h2[k].task_id) by {
                if k == h2.len() - 1 {
                    assert(q2[i].id == h2[k].task_id);
                } else {
                    assert(h2[k] == h[k]);
                    assert(active_in(q, h[k].task_id));
                let j = choose|j: int| 0 <= j < q.len() && q[j].id == h[k].task_id && q[j].status.is_active();
                    assert(j != i);
                    assert(q2[j] == q[j]);
                }
            }
            assert forall|j: int| 0 <= j < q2.len() && (#[trigger] q2[j]).status.is_active() implies tracks(h2, q2[j].id) by {
                if j == i {
                    assert(h2[h2.len() - 1].task_id == q2[j].id);
                } else {
                    assert(q[j] == q2[j]);
                    assert(tracks(h, q[j].id));
                    let k = choose|k: int| 0 <= k < h.len() && h[k].task_id == q[j].id;
                    assert(h2[k] == h[k]);
                }
            }
        }
        Ok(())
    }

    /// The process of `Queued` task `id` could not be spawned: the task goes
    /// straight to `Failed`, with a synthetic exit code, no output and the
    /// error text as its error output.
    pub fn spawn_failed(&self, queue: &mut Queue, id: usize, error: String, now: i64) -> (r: Result<(), QueueError>)
        requires
            old(queue).wf(),
            self.wf(),
            consistent(self@, old(queue)@),
        ensures
            final(queue).wf(),
            consistent(self@, final(queue)@),
            final(queue).next_id_spec() == old(queue).next_id_spec(),
            !has_id(old(queue)@, id) ==> r == Err::<(), QueueError>(QueueError::NotFound),
            r.is_ok() <==> has_id(old(queue)@, id) && task_of(old(queue)@, id).status
                == TaskStatus::Queued,
            has_id(old(queue)@, id) && r.is_err() ==> r == Err::<(), QueueError>(QueueError::InvalidState),
            r.is_err() ==> final(queue)@ == old(queue)@,
            r.is_ok() ==> exists|out: String|
                out@.len() == 0 && final(queue)@ == old(queue)@.update(
                    pos_of(old(queue)@, id),
                    finished(task_of(old(queue)@, id), TaskStatus::Failed, SPAWN_FAILURE_CODE, out, error, now),
                ),
    {
        let ghost q = queue@;
        let queued = match queue.get(id) {
            None => return Err(QueueError::NotFound),
            Some(t) => t.status == TaskStatus::Queued,
        };
        if !queued {
            return Err(QueueError::InvalidState);
        }
        let out = String::new();
        let ghost out_g = out;
        let res = queue.set_result(id, TaskStatus::Failed, SPAWN_FAILURE_CODE, out, error, now);
        proof {
            assert(out_g@.len() == 0);
            let i = pos_of(q, id);
            let q2 = queue@;
            assert forall|k: int| 0 <= k < self@.len() implies #[trigger] active_in(q2, self@[k].task_id) by {
                assert(active_in(q, self@[k].task_id));
                let j = choose|j: int| 0 <= j < q.len() && q[j].id == self@[k].task_id && q[j].status.is_active();
                assert(j != i);
                assert(q2[j] == q[j]);
            }
            assert forall|j: int| 0 <= j < q2.len() && (#[trigger] q2[j]).status.is_active() implies tracks(self@, q2[j].id) by {
                assert(j != i);
                assert(q[j] == q2[j]);
            }
        }
        res
    }
    /// The process of task `id` has exited with `code` (`None`: ended by a
    /// signal) after writing `stdout` and `stderr`. The task takes its
    /// terminal status, exit code, output and end time at once, and its
    /// process is no longer tracked.
    pub fn process_exited(
        &mut self,
        queue: &mut Queue,
        id: usize,
        code: Option<i32>,
        stdout: String,
        stderr: String,
        now: i64,
    ) -> (r: Result<TaskStatus, QueueError>)
        requires
            old(queue).wf(),
            old(self).wf(),
            consistent(old(self)@, old(queue)@),
        ensures
            final(queue).wf(),
            final(self).wf(),
            consistent(final(self)@, final(queue)@),
            final(queue).next_id_spec() == old(queue).next_id_spec(),
            final(self).max_running_spec() == old(self).max_running_spec(),
            !tracks(old(self)@, id) ==> r == Err::<TaskStatus, QueueError>(QueueError::NotFound)
                && final(queue)@ == old(queue)@ && final(self)@ == old(self)@,
            tracks(old(self)@, id) ==> ({
                let k = proc_pos(old(self)@, id);
                let status = exit_status(old(self)@[k].kill_requested, code);
                &&& r == Ok::<TaskStatus, QueueError>(status)
                &&& final(self)@ == old(self)@.remove(k)
                &&& final(queue)@ == old(queue)@.update(
                    pos_of(old(queue)@, id),
                    finished(task_of(old(queue)@, id), status, recorded_code(code), stdout, stderr, now),
                )
            }),
    {
        let ghost q = queue@;
        let ghost h = self@;
        let k = match self.find(id) {
            Some(k) => k,
            None => return Err(QueueError::NotFound),
        };
        let status = if self.processes[k].kill_requested {
            TaskStatus::Killed
        } else if code == Some(0i32) {
            TaskStatus::Done
        } else {
            TaskStatus::Failed
        };
        let exit_code = match code {
            Some(c) => c,
            None => SIGNALED_EXIT_CODE,
        };
        proof {
            assert(k == proc_pos(h, id)) by {
                let k2 = proc_pos(h, id);
                assert(h[k2].task_id == id);
            }
            assert(active_in(q, h[k as int].task_id));
            let j = choose|j: int| 0 <= j < q.len() && q[j].id == id && q[j].status.is_active();
            crate::queue::lemma_pos_unique(q, id, j);
        }
        let res = queue.set_result(id, status, exit_code, stdout, stderr, now);
        self.processes.remove(k);
        proof {
            let i = pos_of(q, id);
            let q2 = queue@;
            let h2 = self@;
            assert(res.is_ok());
            assert forall|a: int, b: int| 0 <= a < h2.len() && 0 <= b < h2.len() && a != b implies h2[a].task_id != h2[b].task_id by {
                let a2 = if a < k { a } else { a + 1 };
                let b2 = if b < k { b } else { b + 1 };
                assert(h2[a] == h[a2] && h2[b] == h[b2]);
            }
            assert forall|m: int| 0 <= m < h2.len() implies #[trigger] active_in(q2, h2[m].task_id) by {
                let m2 = if m < k { m } else { m + 1 };
                assert(h2[m] == h[m2]);
                assert(h[m2].task_id != id);
                assert(active_in(q, h[m2].task_id));
                let j = choose|j: int| 0 <= j < q.len() && q[j].id == h[m2].task_id && q[j].status.is_active();
                assert(j != i);
                assert(q2[j] == q[j]);
            }
            assert forall|j: int| 0 <= j < q2.len() && (#[trigger] q2[j]).status.is_active() implies tracks(h2, q2[j].id) by {
                assert(j != i);
                assert(q[j] == q2[j]);
                assert(tracks(h, q[j].id));
                let m = choose|m: int| 0 <= m < h.len() && h[m].task_id == q[j].id;
                if j < i {
                    assert(q[j].id < q[i].id);
                } else {
                    assert(q[i].id < q[j].id);
                }
                assert(m != k);
                if m < k {
                    assert(h2[m] == h[m]);
                } else {
                    assert(h2[m - 1] == h[m]);
                }
            }
        }
        Ok(status)
    }

    /// Suspends the process of `Running` task `id`: the task becomes `Paused`.
    pub fn pause(&self, queue: &mut Queue, id: usize) -> (r: Result<Signal, QueueError>)
        requires
            old(queue).wf(),
            self.wf(),
            consistent(self@, old(queue)@),
        ensures
            final(queue).wf(),
            consistent(self@, final(queue)@),
            final(queue).next_id_spec() == old(queue).next_id_spec(),
            !has_id(old(queue)@, id) ==> r == Err::<Signal, QueueError>(QueueError::NotFound),
            has_id(old(queue)@, id) && task_of(old(queue)@, id).status != TaskStatus::Running ==> r
                == Err::<Signal, QueueError>(QueueError::InvalidState),
            has_id(old(queue)@, id) && task_of(old(queue)@, id).status == TaskStatus::Running ==> r
                == Ok::<Signal, QueueError>(Signal::Suspend) && final(queue)@ == old(queue)@.update(
                pos_of(old(queue)@, id),
                with_status(task_of(old(queue)@, id), TaskStatus::Paused),
            ),
            r.is_err() ==> final(queue)@ == old(queue)@,
    {
        let ghost q = queue@;
        let running = match queue.get(id) {
            None => return Err(QueueError::NotFound),
            Some(t) => t.status == TaskStatus::Running,
        };
        if !running {
            return Err(QueueError::InvalidState);
        }
        proof {
            assert(task_of(q, id).wf());
        }
        let _ = queue.set_status(id, TaskStatus::Paused);
        proof {
            Self::lemma_same_activity(self@, q, pos_of(q, id), with_status(task_of(q, id), TaskStatus::Paused));
        }
        Ok(Signal::Suspend)
    }

    /// Starts task `id` again: a `Paused` task is resumed (its process
    /// continues and its start time stays), a `Stashed` task becomes
    /// `Queued`. Any other task is refused, a `Running` one among them.
    pub fn start_task(&self, queue: &mut Queue, id: usize) -> (r: Result<Option<Signal>, QueueError>)
        requires
            old(queue).wf(),
            self.wf(),
            consistent(self@, old(queue)@),
        ensures
            final(queue).wf(),
            consistent(self@, final(queue)@),
            final(queue).next_id_spec() == old(queue).next_id_spec(),
            !has_id(old(queue)@, id) ==> r == Err::<Option<Signal>, QueueError>(QueueError::NotFound),
            has_id(old(queue)@, id) ==> ({
                let t = task_of(old(queue)@, id);
                let i = pos_of(old(queue)@, id);
                if t.status == TaskStatus::Paused {
                    r == Ok::<Option<Signal>, QueueError>(Some(Signal::Continue))
                        && final(queue)@ == old(queue)@.update(i, with_status(t, TaskStatus::Running))
                } else if t.status == TaskStatus::Stashed {
                    r == Ok::<Option<Signal>, QueueError>(None)
                        && final(queue)@ == old(queue)@.update(i, with_status(t, TaskStatus::Queued))
                } else {
                    r == Err::<Option<Signal>, QueueError>(QueueError::InvalidState)
                }
            }),
            r.is_err() ==> final(queue)@ == old(queue)@,
    {
        let ghost q = queue@;
        let status = match queue.get(id) {
            None => return Err(QueueError::NotFound),
            Some(t) => t.status,
        };
        proof {
            assert(task_of(q, id).wf());
        }
        if status == TaskStatus::Paused {
            let _ = queue.set_status(id, TaskStatus::Running);
            proof {
                Self::lemma_same_activity(self@, q, pos_of(q, id), with_status(task_of(q, id), TaskStatus::Running));
            }
            Ok(Some(Signal::Continue))
        } else if status == TaskStatus::Stashed {
            let _ = queue.set_status(id, TaskStatus::Queued);
            proof {
                Self::lemma_same_activity(self@, q, pos_of(q, id), with_status(task_of(q, id), TaskStatus::Queued));
            }
            Ok(None)
        } else {
            Err(QueueError::InvalidState)
        }
    }

    /// Asks the process of task `id` to terminate. The task keeps its status
    /// until the process exits, which then counts as `Killed`.
    pub fn kill(&mut self, queue: &Queue, id: usize) -> (r: Result<Signal, QueueError>)
        requires
            queue.wf(),
            old(self).wf(),
            consistent(old(self)@, queue@),
        ensures
            final(self).wf(),
            consistent(final(self)@, queue@),
            final(self).max_running_spec() == old(self).max_running_spec(),
            !has_id(queue@, id) ==> r == Err::<Signal, QueueError>(QueueError::NotFound),
            has_id(queue@, id) && !tracks(old(self)@, id) ==> r == Err::<Signal, QueueError>(
                QueueError::InvalidState,
            ),
            tracks(old(self)@, id) ==> r == Ok::<Signal, QueueError>(Signal::Terminate)
                && final(self)@ == old(self)@.update(
                proc_pos(old(self)@, id),
                TrackedProcess { task_id: id, kill_requested: true },
            ),
            r.is_err() ==> final(self)@ == old(self)@,
    {
        let ghost h = self@;
        let k = match self.find(id) {
            Some(k) => k,
            None => {
                if queue.position(id).is_none() {
                    return Err(QueueError::NotFound);
                }
                return Err(QueueError::InvalidState);
            },
        };
        proof {
            assert(active_in(queue@, id));
            let j = choose|j: int| 0 <= j < queue@.len() && queue@[j].id == id && queue@[j].status.is_active();
            assert(has_id(queue@, id));
            let k2 = proc_pos(h, id);
            assert(h[k2].task_id == id);
        }
        self.processes.set(k, TrackedProcess { task_id: id, kill_requested: true });
        proof {
            let h2 = self@;
            assert forall|m: int| 0 <= m < h2.len() implies #[trigger] active_in(queue@, h2[m].task_id) by {
                assert(h2[m].task_id == h[m].task_id);
                assert(active_in(queue@, h[m].task_id));
            }
            assert forall|j: int| 0 <= j < queue@.len() && (#[trigger] queue@[j]).status.is_active() implies tracks(h2, queue@[j].id) by {
                assert(tracks(h, queue@[j].id));
                let m = choose|m: int| 0 <= m < h.len() && h[m].task_id == queue@[j].id;
                assert(h2[m].task_id == h[m].task_id);
            }
        }
        Ok(Signal::Terminate)
    }
    /// Asks every live process to terminate; returns their task ids in table order.
    pub fn kill_all(&mut self) -> (r: Vec<usize>)
        requires
            old(self).wf(),
        ensures
            final(self).wf(),
            final(self).max_running_spec() == old(self).max_running_spec(),
            final(self)@.len() == old(self)@.len(),
            forall|k: int| 0 <= k < old(self)@.len() ==> (#[trigger] final(self)@[k]).task_id == old(self)@[k].task_id,
            forall|k: int| 0 <= k < old(self)@.len() ==> (#[trigger] final(self)@[k]).kill_requested,
            r@ == old(self)@.map_values(|p: TrackedProcess| (p.task_id)),
    {
        let mut r: Vec<usize> = Vec::new();
        let mut k: usize = 0;
        while k < self.processes.len()
            invariant
                0 <= k <= self@.len(),
                self@.len() == old(self)@.len(),
                self.max_running == old(self).max_running,
                forall|m: int| 0 <= m < self@.len() ==> #[trigger] self@[m].task_id == old(self)@[m].task_id,
                forall|m: int| 0 <= m < k ==> #[trigger] self@[m].kill_requested,
                forall|m: int| k <= m < self@.len() ==> #[trigger] self@[m] == old(self)@[m],
                r@ == old(self)@.subrange(0, k as int).map_values(|p: TrackedProcess| (p.task_id)),
            decreases self@.len() - k,
        {
            let id = self.processes[k].task_id;
            self.processes.set(k, TrackedProcess { task_id: id, kill_requested: true });
            r.push(id);
            k = k + 1;
            assert(r@ =~= old(self)@.subrange(0, k as int).map_values(|p: TrackedProcess| p.task_id));
        }
        assert(old(self)@.subrange(0, k as int) =~= old(self)@);
        r
    }
    /// Stops tracking the process of task `id`; returns whether one was tracked.
    pub fn forget(&mut self, id: usize) -> (r: bool)
        requires
            old(self).wf(),
        ensures
            final(self).wf(),
            final(self).max_running_spec() == old(self).max_running_spec(),
            r == tracks(old(self)@, id),
            r ==> final(self)@ == old(self)@.remove(proc_pos(old(self)@, id)),
            !r ==> final(self)@ == old(self)@,
    {
        match self.find(id) {
            None => false,
            Some(k) => {
                proof {
                    let k2 = proc_pos(self@, id);
                    assert(self@[k2].task_id == id);
                }
                self.processes.remove(k);
                proof {
                    let h = old(self)@;
                    let h2 = self@;
                    assert forall|a: int, b: int| 0 <= a < h2.len() && 0 <= b < h2.len() && a != b implies h2[a].task_id != h2[b].task_id by {
                        let a2 = if a < k { a } else { a + 1 };
                        let b2 = if b < k { b } else { b + 1 };
                        assert(h2[a] == h[a2] && h2[b] == h[b2]);
                    }
                }
                true
            },
        }
    }
}

} // verus!
