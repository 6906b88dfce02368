//! The daemon's state and the effect of each request on it. The event loop
//! that reads requests from sockets and runs processes drives this state.
use vstd::prelude::*;

use crate::handler::{
    active_in, consistent, exit_status, ids_distinct, proc_pos, recorded_code, tracks, Signal,
    TaskHandler, TrackedProcess, SPAWN_FAILURE_CODE,
};
use crate::message::{
    create_failure_message, create_success_message, AddMessage, Message,
};
use crate::queue::{
    finished, has_id, ids_increasing, keeps, lemma_retained, pos_of, retained, schedulable_id,
    started, task_of, with_status, Queue, QueueError,
};
use crate::task::{Task, TaskStatus};
use crate::text::{append, decimal, join_words, joined, push_decimal};

verus! {

/// A request that acts on a list of task ids, one id at a time.
#[derive(Clone, Copy, Debug, PartialEq, Eq, Structural)]
pub enum Control {
    Remove,
    Start,
    Pause,
    Kill,
}

/// Tasks, tracked processes and the outcome after one control request on `id`.
pub open spec fn control_step(c: Control, q: Seq<Task>, h: Seq<TrackedProcess>, id: usize) -> (
    Seq<Task>,
    Seq<TrackedProcess>,
    Result<Option<Signal>, QueueError>,
) {
    if !has_id(q, id) {
        (q, h, Err(QueueError::NotFound))
    } else {
        let i = pos_of(q, id);
        let t = q[i];
        match c {
            Control::Remove => if tracks(h, id) {
                (q.remove(i), h.remove(proc_pos(h, id)), Ok(Some(Signal::Terminate)))
            } else {
                (q.remove(i), h, Ok(None))
            },
            Control::Start => if t.status == TaskStatus::Paused {
                (q.update(i, with_status(t, TaskStatus::Running)), h, Ok(Some(Signal::Continue)))
            } else if t.status == TaskStatus::Stashed {
                (q.update(i, with_status(t, TaskStatus::Queued)), h, Ok(None))
            } else {
                (q, h, Err(QueueError::InvalidState))
            },
            Control::Pause => if t.status == TaskStatus::Running {
                (q.update(i, with_status(t, TaskStatus::Paused)), h, Ok(Some(Signal::Suspend)))
            } else {
                (q, h, Err(QueueError::InvalidState))
            },
            Control::Kill => if tracks(h, id) {
                (
                    q,
                    h.update(proc_pos(h, id), TrackedProcess { task_id: id, kill_requested: true }),
                    Ok(Some(Signal::Terminate)),
                )
            } else {
                (q, h, Err(QueueError::InvalidState))
            },
        }
    }
}

/// Tasks, tracked processes, signals to send and number of refused ids after
/// a control request on each of `ids` in turn.
pub open spec fn control_all(c: Control, q: Seq<Task>, h: Seq<TrackedProcess>, ids: Seq<usize>) -> (
    Seq<Task>,
    Seq<TrackedProcess>,
    Seq<(usize, Signal)>,
    nat,
)
    decreases ids.len(),
{
    if ids.len() == 0 {
        (q, h, Seq::empty(), 0)
    } else {
        let prev = control_all(c, q, h, ids.drop_last());
        let step = control_step(c, prev.0, prev.1, ids.last());
        match step.2 {
            Ok(Some(sig)) => (step.0, step.1, prev.2.push((ids.last(), sig)), prev.3),
            Ok(None) => (step.0, step.1, prev.2, prev.3),
            Err(_) => (step.0, step.1, prev.2, prev.3 + 1),
        }
    }
}


/// `r` is a success (or a failure) response with text `text`.
pub open spec fn replies(r: Message, success: bool, text: Seq<char>) -> bool {
    match r {
        Message::Success(m) => success && m.text@ == text,
        Message::Failure(m) => !success && m.text@ == text,
        _ => false,
    }
}

/// The task that an `Add` request creates under id `id`.
pub open spec fn added_task(t: Task, id: usize, m: AddMessage) -> bool {
    &&& t.id == id
    &&& t.command@ == joined(m.command@.map_values(|w: String| w@))
    &&& t.path == m.path
    &&& t.enqueue_at.is_none()
    &&& t.status == TaskStatus::Queued
    &&& t.prev_status == TaskStatus::Queued
    &&& t.is_fresh()
}

pub open spec fn status_name(s: TaskStatus) -> Seq<char> {
    match s {
        TaskStatus::Queued => "Queued"@,
        TaskStatus::Stashed => "Stashed"@,
        TaskStatus::Running => "Running"@,
        TaskStatus::Paused => "Paused"@,
        TaskStatus::Done => "Done"@,
        TaskStatus::Failed => "Failed"@,
        TaskStatus::Killed => "Killed"@,
        TaskStatus::Locked => "Locked"@,
    }
}

/// One line of the status report: id, status and command.
pub open spec fn task_line(t: Task) -> Seq<char> {
    decimal(t.id as nat) + " "@ + status_name(t.status) + " "@ + t.command@ + "\n"@
}

/// The status report: one line per task, in queue order.
pub open spec fn snapshot(q: Seq<Task>) -> Seq<char>
    decreases q.len(),
{
    if q.len() == 0 {
        Seq::empty()
    } else {
        snapshot(q.drop_last()) + task_line(q.last())
    }
}

pub open spec fn add_reply(id: usize) -> Seq<char> {
    "New task added (id "@ + decimal(id as nat) + ")."@
}

pub open spec fn control_reply(failures: nat) -> Seq<char> {
    if failures == 0 {
        "Request applied to every task."@
    } else {
        decimal(failures) + " task(s) could not be updated."@
    }
}

pub open spec fn switch_reply(r: Result<(), QueueError>) -> Seq<char> {
    match r {
        Ok(_) => "Tasks switched."@,
        Err(QueueError::NotFound) => "No task with the given id."@,
        Err(QueueError::InvalidState) => "Only queued or stashed tasks can be switched."@,
    }
}

/// `after` is `before` with a control request applied to each of `ids` in
/// turn, and `r` reports whether every id was accepted.
pub open spec fn controls_done(before: Daemon, after: Daemon, c: Control, ids: Seq<usize>, r: Message) -> bool {
    let res = control_all(c, before.tasks(), before.processes(), ids);
    &&& after.tasks() == res.0
    &&& after.processes() == res.1
    &&& after.pending() == before.pending() + res.2
    &&& after.next_id() == before.next_id()
    &&& replies(r, res.3 == 0, control_reply(res.3))
}

/// Over any run of requests, the ids that `Add` requests create strictly
/// increase and are never reused: `states[k]` is the daemon before the k-th
/// add, whose task gets the next id `ids[k]`; that add moves the next id past
/// `ids[k]`, and no request lowers it. Every created id is also above every id
/// in the queue the run started from.
pub proof fn lemma_add_ids_never_repeat(states: Seq<Daemon>, ids: Seq<usize>)
    requires
        states.len() == ids.len() + 1,
        states[0].wf(),
        forall|k: int| 0 <= k < ids.len() ==> #[trigger] ids[k] == states[k].next_id()
            && states[k + 1].next_id() >= ids[k] + 1,
    ensures
        forall|a: int, b: int| 0 <= a < b < ids.len() ==> ids[a] < ids[b],
        forall|a: int, b: int| 0 <= a < ids.len() && 0 <= b < ids.len() && a != b ==> ids[a] != ids[b],
        forall|a: int, i: int| 0 <= a < ids.len() && 0 <= i < states[0].tasks().len() ==> states[0].tasks()[i].id < ids[a],
{
    assert forall|a: int, b: int| 0 <= a < b < ids.len() implies ids[a] < ids[b] by {
        lemma_next_id_grows(states, ids, a, b);
    }
    assert forall|a: int, b: int| 0 <= a < ids.len() && 0 <= b < ids.len() && a != b implies ids[a] != ids[b] by {
        if a < b {
            lemma_next_id_grows(states, ids, a, b);
        } else {
            lemma_next_id_grows(states, ids, b, a);
        }
    }
    assert forall|a: int, i: int| 0 <= a < ids.len() && 0 <= i < states[0].tasks().len() implies states[0].tasks()[i].id < ids[a] by {
        states[0].lemma_wf();
        assert(states[0].tasks()[i].id < states[0].next_id());
        assert(ids[0] == states[0].next_id());
        if a > 0 {
            lemma_next_id_grows(states, ids, 0, a);
        }
    }
}

proof fn lemma_next_id_grows(states: Seq<Daemon>, ids: Seq<usize>, a: int, b: int)
    requires
        states.len() == ids.len() + 1,
        forall|k: int| 0 <= k < ids.len() ==> #[trigger] ids[k] == states[k].next_id()
            && states[k + 1].next_id() >= ids[k] + 1,
        0 <= a < b < ids.len(),
    ensures
        ids[a] + (b - a) <= ids[b],
    decreases b - a,
{
    if b == a + 1 {
        assert(ids[a] == states[a].next_id());
        assert(ids[b] == states[b].next_id());
    } else {
        lemma_next_id_grows(states, ids, a, b - 1);
        assert(ids[b - 1] == states[b - 1].next_id());
        assert(ids[b] == states[b].next_id());
    }
}

/// The daemon's tasks, processes and signals waiting to be sent.
pub struct Daemon {
    queue: Queue,
    handler: TaskHandler,
    signals: Vec<(usize, Signal)>,
}

impl Daemon {
    pub closed spec fn tasks(&self) -> Seq<Task> {
        self.queue@
    }

    pub closed spec fn processes(&self) -> Seq<TrackedProcess> {
        self.handler@
    }

    /// Signals that the event loop still has to send, oldest first.
    pub closed spec fn pending(&self) -> Seq<(usize, Signal)> {
        self.signals@
    }

    pub closed spec fn next_id(&self) -> nat {
        self.queue.next_id_spec()
    }

    pub closed spec fn max_running(&self) -> nat {
        self.handler.max_running_spec()
    }

    /// Ids increase along the queue and stay below the next id, tasks are
    /// well formed, and the processes belong exactly to the `Running` and
    /// `Paused` tasks, one each.
    pub closed spec fn wf(&self) -> bool {
        &&& self.queue.wf()
        &&& self.handler.wf()
        &&& consistent(self.handler@, self.queue@)
    }

    /// What a well-formed daemon state guarantees.
    pub proof fn lemma_wf(&self)
        requires
            self.wf(),
        ensures
            ids_increasing(self.tasks()),
            forall|i: int| 0 <= i < self.tasks().len() ==> (#[trigger] self.tasks()[i]).id < self.next_id(),
            forall|i: int| 0 <= i < self.tasks().len() ==> (#[trigger] self.tasks()[i]).wf(),
            ids_distinct(self.processes()),
            consistent(self.processes(), self.tasks()),
    {
    }

    /// In every state the daemon reaches, each task's exit code, output and
    /// end time are all unset or all set, and set exactly when it has finished.
    pub proof fn lemma_results_all_or_nothing(&self)
        requires
            self.wf(),
        ensures
            forall|i: int| 0 <= i < self.tasks().len() ==> (#[trigger] self.tasks()[i]).result_all_or_nothing()
                && (self.tasks()[i].end.is_some() <==> self.tasks()[i].status.is_terminal()),
    {
        assert forall|i: int| 0 <= i < self.tasks().len() implies (#[trigger] self.tasks()[i]).result_all_or_nothing()
            && (self.tasks()[i].end.is_some() <==> self.tasks()[i].status.is_terminal()) by {
            assert(self.queue@[i].wf());
        }
    }

    /// A task that is waiting (`Queued`, `Stashed` or `Locked`) has never
    /// run: it has no start time. So a task whose spawn failed, which goes
    /// from `Queued` straight to `Failed`, keeps no start time either.
    pub proof fn lemma_waiting_never_started(&self, id: usize)
        requires
            self.wf(),
            has_id(self.tasks(), id),
            !task_of(self.tasks(), id).status.is_active(),
            !task_of(self.tasks(), id).status.is_terminal(),
        ensures
            task_of(self.tasks(), id).start.is_none(),
            forall|code: i32, out: String, err: String, end: i64|
                #[trigger] finished(task_of(self.tasks(), id), TaskStatus::Failed, code, out, err, end).start.is_none(),
    {
        let i = pos_of(self.tasks(), id);
        assert(self.queue@[i].wf());
    }

    /// In every state the daemon reaches, at most one process is tracked per
    /// task, and a tracked task is `Running` or `Paused`, so it is not
    /// `Queued` and `start_process` refuses it.
    pub proof fn lemma_one_process_per_task(&self, id: usize)
        requires
            self.wf(),
        ensures
            forall|a: int, b: int| 0 <= a < self.processes().len() && 0 <= b < self.processes().len()
                && a != b ==> self.processes()[a].task_id != self.processes()[b].task_id,
            tracks(self.processes(), id) ==> has_id(self.tasks(), id) && task_of(self.tasks(), id).status.is_active(),
            tracks(self.processes(), id) ==> task_of(self.tasks(), id).status != TaskStatus::Queued,
    {
        if tracks(self.processes(), id) {
            let k = choose|k: int| 0 <= k < self.processes().len() && self.processes()[k].task_id == id;
            assert(active_in(self.tasks(), self.processes()[k].task_id));
            let j = choose|j: int| 0 <= j < self.tasks().len() && self.tasks()[j].id == id && self.tasks()[j].status.is_active();
            crate::queue::lemma_pos_unique(self.tasks(), id, j);
        }
    }

    /// A daemon with an empty queue that runs up to `max_running` processes at once.
    pub fn new(max_running: usize) -> (r: Daemon)
        ensures
            r.wf(),
            r.tasks().len() == 0,
            r.processes().len() == 0,
            r.pending().len() == 0,
            r.next_id() == 0,
            r.max_running() == max_running,
    {
        Daemon { queue: Queue::new(), handler: TaskHandler::new(max_running), signals: Vec::new() }
    }
    /// Removing a task, together with its process if one is tracked, keeps
    /// the table consistent.
    proof fn lemma_remove_consistent(h: Seq<TrackedProcess>, q: Seq<Task>, i: int, had_process: bool)
        requires
            consistent(h, q),
            ids_distinct(h),
            ids_increasing(q),
            0 <= i < q.len(),
            had_process == tracks(h, q[i].id),
        ensures
            consistent(
                if had_process {
                    h.remove(proc_pos(h, q[i].id))
                } else {
                    h
                },
                q.remove(i),
            ),
    {
        let id = q[i].id;
        let q2 = q.remove(i);
        let k = proc_pos(h, id);
        let h2 = if had_process { h.remove(k) } else { h };
        if had_process {
            assert(h[k].task_id == id);
        }
        assert forall|m: int| 0 <= m < h2.len() implies #[trigger] active_in(q2, h2[m].task_id) by {
            let m2 = if had_process && m >= k { m + 1 } else { m };
            assert(h2[m] == h[m2]);
            assert(h[m2].task_id != id);
            assert(active_in(q, h[m2].task_id));
            let j = choose|j: int| 0 <= j < q.len() && q[j].id == h[m2].task_id && q[j].status.is_active();
            assert(j != i);
            if j < i {
                assert(q2[j] == q[j]);
            } else {
                assert(q2[j - 1] == q[j]);
            }
        }
        assert forall|j: int| 0 <= j < q2.len() && (#[trigger] q2[j]).status.is_active() implies tracks(h2, q2[j].id) by {
            let j2 = if j < i { j } else { j + 1 };
            assert(q2[j] == q[j2]);
            assert(j2 != i);
            if j2 < i {
                assert(q[j2].id < q[i].id);
            } else {
                assert(q[i].id < q[j2].id);
            }
            assert(tracks(h, q[j2].id));
            let m = choose|m: int| 0 <= m < h.len() && h[m].task_id == q[j2].id;
            if had_process {
                assert(m != k);
                if m < k {
                    assert(h2[m] == h[m]);
                } else {
                    assert(h2[m - 1] == h[m]);
                }
            }
        }
    }

    /// Applies one control request to task `id`.
    fn apply_control(&mut self, c: Control, id: usize) -> (r: Result<Option<Signal>, QueueError>)
        requires
            old(self).wf(),
        ensures
            final(self).wf(),
            final(self).next_id() == old(self).next_id(),
            final(self).max_running() == old(self).max_running(),
            final(self).pending() == old(self).pending(),
            (final(self).tasks(), final(self).processes(), r) == control_step(
                c,
                old(self).tasks(),
                old(self).processes(),
                id,
            ),
    {
        match c {
            Control::Remove => {
                let ghost q = self.queue@;
                let ghost h = self.handler@;
                proof {
                    if tracks(h, id) {
                        let k = choose|k: int| 0 <= k < h.len() && h[k].task_id == id;
                        assert(active_in(q, h[k].task_id));
                    }
                }
                let had_process = self.handler.forget(id);
                let r = self.queue.remove(id);
                proof {
                    if has_id(q, id) {
                        Self::lemma_remove_consistent(h, q, pos_of(q, id), had_process);
                    }
                }
                match r {
                    Ok(_) => if had_process {
                        Ok(Some(Signal::Terminate))
                    } else {
                        Ok(None)
                    },
                    Err(e) => Err(e),
                }
            },
            Control::Start => self.handler.start_task(&mut self.queue, id),
            Control::Pause => match self.handler.pause(&mut self.queue, id) {
                Ok(sig) => Ok(Some(sig)),
                Err(e) => Err(e),
            },
            Control::Kill => {
                let ghost q = self.queue@;
                let ghost h = self.handler@;
                proof {
                    if tracks(h, id) {
                        let k = choose|k: int| 0 <= k < h.len() && h[k].task_id == id;
                        assert(active_in(q, h[k].task_id));
                        let j = choose|j: int| 0 <= j < q.len() && q[j].id == id && q[j].status.is_active();
                        assert(has_id(q, id));
                    }
                }
                match self.handler.kill(&self.queue, id) {
                    Ok(sig) => Ok(Some(sig)),
                    Err(e) => Err(e),
                }
            },
        }
    }

    /// Applies a control request to each of `ids` in turn, queues the signals
    /// to send, and returns how many ids were refused.
    fn apply_controls(&mut self, c: Control, ids: &Vec<usize>) -> (r: usize)
        requires
            old(self).wf(),
        ensures
            final(self).wf(),
            final(self).next_id() == old(self).next_id(),
            final(self).max_running() == old(self).max_running(),
            ({
                let res = control_all(c, old(self).tasks(), old(self).processes(), ids@);
                &&& final(self).tasks() == res.0
                &&& final(self).processes() == res.1
                &&& final(self).pending() == old(self).pending() + res.2
                &&& r == res.3
            }),
    {
        let ghost q0 = self.queue@;
        let ghost h0 = self.handler@;
        let ghost s0 = self.signals@;
        let mut failures: usize = 0;
        let mut i: usize = 0;
        while i < ids.len()
            invariant
                self.wf(),
                0 <= i <= ids@.len(),
                self.next_id() == old(self).next_id(),
                self.max_running() == old(self).max_running(),
                ({
                    let res = control_all(c, q0, h0, ids@.subrange(0, i as int));
                    &&& self.tasks() == res.0
                    &&& self.processes() == res.1
                    &&& self.pending() == s0 + res.2
                    &&& failures == res.3
                }),
                failures <= i,
            decreases ids@.len() - i,
        {
            let id = ids[i];
            let r = self.apply_control(c, id);
            match r {
                Ok(Some(sig)) => {
                    self.signals.push((id, sig));
                },
                Ok(None) => {},
                Err(_) => {
                    failures = failures + 1;
                },
            }
            proof {
                let pre = ids@.subrange(0, i + 1);
                assert(pre.drop_last() =~= ids@.subrange(0, i as int));
                assert(pre.last() == id);
                let res = control_all(c, q0, h0, ids@.subrange(0, i as int));
                match r {
                    Ok(Some(sig)) => {
                        assert(self.signals@ =~= s0 + res.2.push((id, sig)));
                    },
                    _ => {},
                }
            }
            i = i + 1;
        }
        assert(ids@.subrange(0, i as int) =~= ids@);
        failures
    }
    /// Tasks that keep their ids and activity, position by position, keep
    /// the table consistent.
    proof fn lemma_same_shape(h: Seq<TrackedProcess>, q: Seq<Task>, q2: Seq<Task>)
        requires
            consistent(h, q),
            q2.len() == q.len(),
            forall|i: int| 0 <= i < q.len() ==> (#[trigger] q2[i]).id == q[i].id && q2[i].status.is_active() == q[i].status.is_active(),
        ensures
            consistent(h, q2),
    {
        assert forall|k: int| 0 <= k < h.len() implies #[trigger] active_in(q2, h[k].task_id) by {
            assert(active_in(q, h[k].task_id));
            let j = choose|j: int| 0 <= j < q.len() && q[j].id == h[k].task_id && q[j].status.is_active();
            assert(q2[j].id == h[k].task_id);
        }
        assert forall|j: int| 0 <= j < q2.len() && (#[trigger] q2[j]).status.is_active() implies tracks(h, q2[j].id) by {
            assert(q[j].status.is_active());
        }
    }

    /// A sweep keeps every task with a process, so the table stays consistent.
    proof fn lemma_sweep_consistent(h: Seq<TrackedProcess>, q: Seq<Task>, only_active: bool)
        requires
            consistent(h, q),
            ids_increasing(q),
        ensures
            consistent(h, retained(q, only_active)),
    {
        let q2 = retained(q, only_active);
        lemma_retained(q, only_active);
        assert forall|k: int| 0 <= k < h.len() implies #[trigger] active_in(q2, h[k].task_id) by {
            assert(active_in(q, h[k].task_id));
            let j = choose|j: int| 0 <= j < q.len() && q[j].id == h[k].task_id && q[j].status.is_active();
            assert(keeps(q[j], only_active));
            assert(q2.contains(q[j]));
        }
        assert forall|j: int| 0 <= j < q2.len() && (#[trigger] q2[j]).status.is_active() implies tracks(h, q2[j].id) by {
            let m = choose|m: int| 0 <= m < q.len() && q[m] == q2[j];
            assert(tracks(h, q[m].id));
        }
    }

    fn reply(success: bool, text: String) -> (r: Message)
        ensures
            replies(r, success, text@),
    {
        if success {
            create_success_message(text)
        } else {
            create_failure_message(text)
        }
    }

    fn literal(t: &str) -> (r: String)
        ensures
            r@ == t@,
    {
        let mut r = String::new();
        append(&mut r, t);
        assert(r@ =~= t@);
        r
    }

    /// The status report of the current queue.
    pub fn status_text(&self) -> (r: String)
        ensures
            r@ == snapshot(self.tasks()),
    {
        let mut r = String::new();
        let mut i: usize = 0;
        while i < self.queue.len()
            invariant
                0 <= i <= self.tasks().len(),
                r@ == snapshot(self.tasks().subrange(0, i as int)),
            decreases self.tasks().len() - i,
        {
            let t = self.queue.at(i);
            push_decimal(&mut r, t.id);
            append(&mut r, " ");
            let name = match t.status {
                TaskStatus::Queued => "Queued",
                TaskStatus::Stashed => "Stashed",
                TaskStatus::Running => "Running",
                TaskStatus::Paused => "Paused",
                TaskStatus::Done => "Done",
                TaskStatus::Failed => "Failed",
                TaskStatus::Killed => "Killed",
                TaskStatus::Locked => "Locked",
            };
            append(&mut r, name);
            append(&mut r, " ");
            append(&mut r, t.command.as_str());
            append(&mut r, "\n");
            proof {
                let pre = self.tasks().subrange(0, i + 1);
                assert(pre.drop_last() =~= self.tasks().subrange(0, i as int));
                assert(r@ =~= snapshot(pre.drop_last()) + task_line(pre.last()));
            }
            i = i + 1;
        }
        assert(self.tasks().subrange(0, i as int) =~= self.tasks());
        r
    }

    /// Applies one request to the daemon's state and returns the response.
    pub fn handle_instructions(&mut self, message: Message) -> (r: Message)
        requires
            old(self).wf(),
        ensures
            final(self).wf(),
            final(self).max_running() == old(self).max_running(),
            match message {
                Message::Add(m) => if old(self).next_id() >= usize::MAX {
                    &&& final(self).tasks() == old(self).tasks()
                    &&& final(self).next_id() == old(self).next_id()
                    &&& final(self).processes() == old(self).processes()
                    &&& final(self).pending() == old(self).pending()
                    &&& replies(r, false, "No task id is left."@)
                } else {
                    &&& final(self).tasks().len() == old(self).tasks().len() + 1
                    &&& final(self).tasks().drop_last() == old(self).tasks()
                    &&& added_task(final(self).tasks().last(), old(self).next_id() as usize, m)
                    &&& final(self).next_id() == old(self).next_id() + 1
                    &&& final(self).processes() == old(self).processes()
                    &&& final(self).pending() == old(self).pending()
                    &&& replies(r, true, add_reply(old(self).next_id() as usize))
                },
                Message::Switch(m) => {
                    let res = crate::queue::switch_outcome(old(self).tasks(), m.id_a, m.id_b);
                    &&& final(self).tasks() == if res.is_ok() {
                        crate::queue::switched(old(self).tasks(), m.id_a, m.id_b)
                    } else {
                        old(self).tasks()
                    }
                    &&& final(self).next_id() == old(self).next_id()
                    &&& final(self).processes() == old(self).processes()
                    &&& final(self).pending() == old(self).pending()
                    &&& replies(r, res.is_ok(), switch_reply(res))
                },
                Message::Remove(m) => controls_done(*old(self), *final(self), Control::Remove, m.indices@, r),
                Message::Start(m) => controls_done(*old(self), *final(self), Control::Start, m.indices@, r),
                Message::Pause(m) => controls_done(*old(self), *final(self), Control::Pause, m.indices@, r),
                Message::Kill(m) => controls_done(*old(self), *final(self), Control::Kill, m.indices@, r),
                Message::Reset => {
                    &&& final(self).tasks() == retained(old(self).tasks(), true)
                    &&& final(self).next_id() == old(self).next_id()
                    &&& final(self).processes().len() == old(self).processes().len()
                    &&& forall|k: int| 0 <= k < old(self).processes().len() ==> (#[trigger] final(self).processes()[k]).task_id == old(self).processes()[k].task_id
                        && final(self).processes()[k].kill_requested
                    &&& final(self).pending() == old(self).pending() + old(self).processes().map_values(
                        |p: TrackedProcess| (p.task_id, Signal::Terminate),
                    )
                    &&& replies(r, true, "Reset: live processes are terminating, other tasks removed."@)
                },
                Message::Clear => {
                    &&& final(self).tasks() == retained(old(self).tasks(), false)
                    &&& final(self).next_id() == old(self).next_id()
                    &&& final(self).processes() == old(self).processes()
                    &&& final(self).pending() == old(self).pending()
                    &&& replies(r, true, "Finished tasks removed."@)
                },
                Message::Status => {
                    &&& final(self).tasks() == old(self).tasks()
                    &&& final(self).next_id() == old(self).next_id()
                    &&& final(self).processes() == old(self).processes()
                    &&& final(self).pending() == old(self).pending()
                    &&& replies(r, true, snapshot(old(self).tasks()))
                },
                _ => {
                    &&& final(self).tasks() == old(self).tasks()
                    &&& final(self).next_id() == old(self).next_id()
                    &&& final(self).processes() == old(self).processes()
                    &&& final(self).pending() == old(self).pending()
                    &&& replies(r, false, "The daemon does not accept this message."@)
                },
            },
    {
        match message {
            Message::Add(m) => {
                if self.queue.next_id() == usize::MAX {
                    return Self::reply(false, Self::literal("No task id is left."));
                }
                let ghost q = self.queue@;
                let ghost mg = m;
                let command = join_words(&m.command);
                let id = self.queue.add(command, m.path, None, false);
                proof {
                    assert(self.queue@.drop_last() =~= q);
                    let q2 = self.queue@;
                    let h = self.handler@;
                    assert forall|k: int| 0 <= k < h.len() implies #[trigger] active_in(q2, h[k].task_id) by {
                        assert(active_in(q, h[k].task_id));
                        let j = choose|j: int| 0 <= j < q.len() && q[j].id == h[k].task_id && q[j].status.is_active();
                        assert(q2[j] == q[j]);
                    }
                    assert forall|j: int| 0 <= j < q2.len() && (#[trigger] q2[j]).status.is_active() implies tracks(h, q2[j].id) by {
                        assert(q2[j] == q[j]);
                    }
                }
                let mut text = Self::literal("New task added (id ");
                push_decimal(&mut text, id);
                append(&mut text, ").");
                Self::reply(true, text)
            },
            Message::Switch(m) => {
                let ghost q = self.queue@;
                let res = self.queue.switch(m.id_a, m.id_b);
                proof {
                    if res.is_ok() {
                        assert(self.queue@.len() == q.len());
                        Self::lemma_same_shape(self.handler@, q, self.queue@);
                    }
                }
                match res {
                    Ok(()) => Self::reply(true, Self::literal("Tasks switched.")),
                    Err(QueueError::NotFound) => Self::reply(false, Self::literal("No task with the given id.")),
                    Err(QueueError::InvalidState) => Self::reply(
                        false,
                        Self::literal("Only queued or stashed tasks can be switched."),
                    ),
                }
            },
            Message::Remove(m) => self.control_request(Control::Remove, &m.indices),
            Message::Start(m) => self.control_request(Control::Start, &m.indices),
            Message::Pause(m) => self.control_request(Control::Pause, &m.indices),
            Message::Kill(m) => self.control_request(Control::Kill, &m.indices),
            Message::Reset => {
                let ghost q = self.queue@;
                let ghost h = self.handler@;
                let ghost s0 = self.signals@;
                let ids = self.handler.kill_all();
                let ghost h_after = self.handler@;
                let mut k: usize = 0;
                while k < ids.len()
                    invariant
                        0 <= k <= ids@.len(),
                        self.queue@ == q,
                        self.queue.wf(),
                        self.queue.next_id_spec() == old(self).next_id(),
                        self.handler@ == h_after,
                        self.handler.wf(),
                        self.handler.max_running_spec() == old(self).max_running(),
                        h_after.len() == h.len(),
                        forall|m: int| 0 <= m < h.len() ==> (#[trigger] h_after[m]).task_id == h[m].task_id && h_after[m].kill_requested,
                        ids@ == h.map_values(|p: TrackedProcess| (p.task_id)),
                        self.signals@ == s0 + h.subrange(0, k as int).map_values(
                            |p: TrackedProcess| (p.task_id, Signal::Terminate),
                        ),
                    decreases ids@.len() - k,
                {
                    self.signals.push((ids[k], Signal::Terminate));
                    k = k + 1;
                    assert(self.signals@ =~= s0 + h.subrange(0, k as int).map_values(
                        |p: TrackedProcess| (p.task_id, Signal::Terminate),
                    ));
                }
                assert(h.subrange(0, k as int) =~= h);
                proof {
                    let h2 = self.handler@;
                    assert forall|m: int| 0 <= m < h2.len() implies #[trigger] active_in(q, h2[m].task_id) by {
                        assert(h2[m].task_id == h[m].task_id);
                        assert(active_in(q, h[m].task_id));
                    }
                    assert forall|j: int| 0 <= j < q.len() && (#[trigger] q[j]).status.is_active() implies tracks(h2, q[j].id) by {
                        assert(tracks(h, q[j].id));
                        let m = choose|m: int| 0 <= m < h.len() && h[m].task_id == q[j].id;
                        assert(h2[m].task_id == h[m].task_id);
                    }
                    Self::lemma_sweep_consistent(h2, q, true);
                }
                self.queue.remove_inactive();
                Self::reply(true, Self::literal("Reset: live processes are terminating, other tasks removed."))
            },
            Message::Clear => {
                proof {
                    Self::lemma_sweep_consistent(self.handler@, self.queue@, false);
                }
                self.queue.clear();
                Self::reply(true, Self::literal("Finished tasks removed."))
            },
            Message::Status => {
                let text = self.status_text();
                Self::reply(true, text)
            },
            _ => Self::reply(false, Self::literal("The daemon does not accept this message.")),
        }
    }

    fn control_request(&mut self, c: Control, ids: &Vec<usize>) -> (r: Message)
        requires
            old(self).wf(),
        ensures
            final(self).wf(),
            final(self).max_running() == old(self).max_running(),
            controls_done(*old(self), *final(self), c, ids@, r),
    {
        let failures = self.apply_controls(c, ids);
        if failures == 0 {
            Self::reply(true, Self::literal("Request applied to every task."))
        } else {
            let mut text = String::new();
            push_decimal(&mut text, failures);
            append(&mut text, " task(s) could not be updated.");
            Self::reply(false, text)
        }
    }
    /// The task with id `id`, if there is one.
    pub fn task(&self, id: usize) -> (r: Option<&Task>)
        requires
            self.wf(),
        ensures
            r.is_none() <==> !has_id(self.tasks(), id),
            r.is_some() ==> *r.unwrap() == task_of(self.tasks(), id),
    {
        self.queue.get(id)
    }

    /// The task to spawn at time `now`, if the running limit allows one:
    /// the lowest schedulable id.
    pub fn next_to_start(&self, now: i64) -> (r: Option<usize>)
        requires
            self.wf(),
        ensures
            r.is_some() <==> self.processes().len() < self.max_running() && exists|id: usize|
                schedulable_id(self.tasks(), id, now),
            r.is_some() ==> schedulable_id(self.tasks(), r.unwrap(), now) && forall|id: usize|
                schedulable_id(self.tasks(), id, now) ==> r.unwrap() <= id,
    {
        let r = self.handler.next_to_start(&self.queue, now);
        proof {
            assert(self.tasks() == self.queue@);
            if r.is_none() && self.processes().len() < self.max_running() {
                assert forall|id: usize| !schedulable_id(self.tasks(), id, now) by {
                    assert(!schedulable_id(self.queue@, id, now));
                }
            }
        }
        r
    }

    /// The process of `Queued` task `id` was spawned at time `now`.
    pub fn start_process(&mut self, id: usize, now: i64) -> (r: Result<(), QueueError>)
        requires
            old(self).wf(),
        ensures
            final(self).wf(),
            final(self).next_id() == old(self).next_id(),
            final(self).max_running() == old(self).max_running(),
            final(self).pending() == old(self).pending(),
            !has_id(old(self).tasks(), id) ==> r == Err::<(), QueueError>(QueueError::NotFound),
            r.is_ok() <==> has_id(old(self).tasks(), id) && task_of(old(self).tasks(), id).status
                == TaskStatus::Queued,
            has_id(old(self).tasks(), id) && r.is_err() ==> r == Err::<(), QueueError>(QueueError::InvalidState),
            r.is_err() ==> final(self).tasks() == old(self).tasks() && final(self).processes() == old(self).processes(),
            r.is_ok() ==> final(self).tasks() == old(self).tasks().update(
                pos_of(old(self).tasks(), id),
                started(task_of(old(self).tasks(), id), now),
            ) && final(self).processes() == old(self).processes().push(
                TrackedProcess { task_id: id, kill_requested: false },
            ),
    {
        self.handler.start_process(&mut self.queue, id, now)
    }

    /// The process of `Queued` task `id` could not be spawned: the task is
    /// `Failed` at once, with the error text as its error output.
    pub fn spawn_failed(&mut self, id: usize, error: String, now: i64) -> (r: Result<(), QueueError>)
        requires
            old(self).wf(),
        ensures
            final(self).wf(),
            final(self).next_id() == old(self).next_id(),
            final(self).max_running() == old(self).max_running(),
            final(self).pending() == old(self).pending(),
            final(self).processes() == old(self).processes(),
            !has_id(old(self).tasks(), id) ==> r == Err::<(), QueueError>(QueueError::NotFound),
            r.is_ok() <==> has_id(old(self).tasks(), id) && task_of(old(self).tasks(), id).status
                == TaskStatus::Queued,
            has_id(old(self).tasks(), id) && r.is_err() ==> r == Err::<(), QueueError>(QueueError::InvalidState),
            r.is_err() ==> final(self).tasks() == old(self).tasks(),
            r.is_ok() ==> exists|out: String|
                out@.len() == 0 && final(self).tasks() == old(self).tasks().update(
                    pos_of(old(self).tasks(), id),
                    finished(task_of(old(self).tasks(), id), TaskStatus::Failed, SPAWN_FAILURE_CODE, out, error, now),
                ),
    {
        self.handler.spawn_failed(&mut self.queue, id, error, now)
    }

    /// The process of task `id` exited with `code` (`None`: ended by a
    /// signal) after writing `stdout` and `stderr`, at time `now`.
    pub fn process_exited(
        &mut self,
        id: usize,
        code: Option<i32>,
        stdout: String,
        stderr: String,
        now: i64,
    ) -> (r: Result<TaskStatus, QueueError>)
        requires
            old(self).wf(),
        ensures
            final(self).wf(),
            final(self).next_id() == old(self).next_id(),
            final(self).max_running() == old(self).max_running(),
            final(self).pending() == old(self).pending(),
            !tracks(old(self).processes(), id) ==> r == Err::<TaskStatus, QueueError>(QueueError::NotFound)
                && final(self).tasks() == old(self).tasks() && final(self).processes() == old(self).processes(),
            tracks(old(self).processes(), id) ==> ({
                let k = proc_pos(old(self).processes(), id);
                let status = exit_status(old(self).processes()[k].kill_requested, code);
                &&& r == Ok::<TaskStatus, QueueError>(status)
                &&& final(self).processes() == old(self).processes().remove(k)
                &&& final(self).tasks() == old(self).tasks().update(
                    pos_of(old(self).tasks(), id),
                    finished(task_of(old(self).tasks(), id), status, recorded_code(code), stdout, stderr, now),
                )
            }),
    {
        self.handler.process_exited(&mut self.queue, id, code, stdout, stderr, now)
    }

    /// Hands over the signals waiting to be sent, oldest first.
    pub fn take_signals(&mut self) -> (r: Vec<(usize, Signal)>)
        requires
            old(self).wf(),
        ensures
            final(self).wf(),
            r@ == old(self).pending(),
            final(self).pending().len() == 0,
            final(self).tasks() == old(self).tasks(),
            final(self).processes() == old(self).processes(),
            final(self).next_id() == old(self).next_id(),
            final(self).max_running() == old(self).max_running(),
    {
        let mut r: Vec<(usize, Signal)> = Vec::new();
        std::mem::swap(&mut r, &mut self.signals);
        r
    }
}

} // verus!
