//! The ordered, id-indexed store of tasks.
use vstd::prelude::*;

use crate::task::{Task, TaskStatus};

verus! {

/// Why a queue operation was refused.
#[derive(Clone, Copy, Debug, PartialEq, Eq, Structural)]
pub enum QueueError {
    /// No task has the given id.
    NotFound,
    /// The task is in a state that does not allow the operation.
    InvalidState,
}

/// The tasks of `s` have strictly increasing ids.
pub open spec fn ids_increasing(s: Seq<Task>) -> bool {
    forall|i: int, j: int| 0 <= i < j < s.len() ==> s[i].id < s[j].id
}

/// Some task of `s` has id `id`.
pub open spec fn has_id(s: Seq<Task>, id: usize) -> bool {
    exists|i: int| 0 <= i < s.len() && s[i].id == id
}

/// The position of the task with id `id` in `s`.
pub open spec fn pos_of(s: Seq<Task>, id: usize) -> int {
    choose|i: int| 0 <= i < s.len() && s[i].id == id
}

/// The task with id `id` in `s`.
pub open spec fn task_of(s: Seq<Task>, id: usize) -> Task {
    s[pos_of(s, id)]
}

/// A task that the task handler may start at time `now`.
pub open spec fn schedulable(t: Task, now: i64) -> bool {
    &&& t.status == TaskStatus::Queued
    &&& match t.enqueue_at {
        Some(at) => at <= now,
        None => true,
    }
}

/// `t` with its status set to `status`, recording the previous one.
pub open spec fn with_status(t: Task, status: TaskStatus) -> Task {
    Task { status: status, prev_status: t.status, ..t }
}

/// What a switch of `id_a` and `id_b` on `s` reports.
pub open spec fn switch_outcome(s: Seq<Task>, id_a: usize, id_b: usize) -> Result<(), QueueError> {
    if !has_id(s, id_a) || !has_id(s, id_b) {
        Err(QueueError::NotFound)
    } else if !task_of(s, id_a).status.is_waiting() || !task_of(s, id_b).status.is_waiting() {
        Err(QueueError::InvalidState)
    } else {
        Ok(())
    }
}

/// `s` with the commands and paths of tasks `id_a` and `id_b` exchanged.
pub open spec fn switched(s: Seq<Task>, id_a: usize, id_b: usize) -> Seq<Task> {
    let i = pos_of(s, id_a);
    let j = pos_of(s, id_b);
    s.update(i, Task { command: s[j].command, path: s[j].path, ..s[i] }).update(
        j,
        Task { command: s[i].command, path: s[i].path, ..s[j] },
    )
}

/// Some task of `s` with id `id` may start at time `now`.
pub open spec fn schedulable_id(s: Seq<Task>, id: usize, now: i64) -> bool {
    exists|i: int| 0 <= i < s.len() && s[i].id == id && schedulable(s[i], now)
}

/// `t` once its process has been spawned at time `now`.
pub open spec fn started(t: Task, now: i64) -> Task {
    Task { status: TaskStatus::Running, prev_status: t.status, start: Some(now), ..t }
}

/// `t` once it has ended in `status`.
pub open spec fn finished(
    t: Task,
    status: TaskStatus,
    exit_code: i32,
    stdout: String,
    stderr: String,
    end: i64,
) -> Task {
    Task {
        status: status,
        prev_status: t.status,
        exit_code: Some(exit_code),
        stdout: Some(stdout),
        stderr: Some(stderr),
        end: Some(end),
        ..t
    }
}

/// Whether a sweep keeps `t`: with `only_active`, the tasks with a process;
/// otherwise every task that has not finished.
pub open spec fn keeps(t: Task, only_active: bool) -> bool {
    if only_active {
        t.status.is_active()
    } else {
        !t.status.is_terminal()
    }
}

/// The tasks of `s` that a sweep keeps, in order.
pub open spec fn retained(s: Seq<Task>, only_active: bool) -> Seq<Task>
    decreases s.len(),
{
    if s.len() == 0 {
        s
    } else {
        let r = retained(s.drop_last(), only_active);
        if !keeps(s.last(), only_active) {
            r
        } else {
            r.push(s.last())
        }
    }
}

/// Every task kept by `retained` comes from `s` and is one that the sweep keeps, and the
/// ids still increase.
pub proof fn lemma_retained(s: Seq<Task>, only_active: bool)
    requires
        ids_increasing(s),
    ensures
        ids_increasing(retained(s, only_active)),
        forall|k: int| 0 <= k < retained(s, only_active).len() ==> exists|m: int| 0 <= m < s.len() && s[m] == #[trigger] retained(s, only_active)[k],
        forall|k: int| 0 <= k < retained(s, only_active).len() ==> keeps(#[trigger] retained(s, only_active)[k], only_active),
        forall|m: int| 0 <= m < s.len() && keeps(s[m], only_active) ==> retained(s, only_active).contains(#[trigger] s[m]),
    decreases s.len(),
{
    if s.len() > 0 {
        let p = s.drop_last();
        lemma_retained(p, only_active);
        let r = retained(p, only_active);
        let l = retained(s, only_active);
        assert forall|k: int| 0 <= k < r.len() implies exists|m: int| 0 <= m < s.len() && s[m] == #[trigger] r[k] by {
            let m = choose|m: int| 0 <= m < p.len() && p[m] == r[k];
            assert(s[m] == p[m]);
        }
        if keeps(s.last(), only_active) {
            assert forall|k: int| 0 <= k < r.len() implies (#[trigger] r[k]).id < s.last().id by {
                let m = choose|m: int| 0 <= m < p.len() && p[m] == r[k];
                assert(s[m] == r[k]);
            }
            assert forall|k: int| 0 <= k < l.len() implies exists|m: int| 0 <= m < s.len() && s[m] == #[trigger] l[k] by {
                if k == l.len() - 1 {
                    assert(s[s.len() - 1] == l[k]);
                } else {
                    assert(l[k] == r[k]);
                }
            }
            assert forall|a: int, b: int| 0 <= a < b < l.len() implies l[a].id < l[b].id by {
                assert(l[a] == r[a]);
                if b < l.len() - 1 {
                    assert(l[b] == r[b]);
                }
            }
            assert forall|k: int| 0 <= k < l.len() implies keeps(#[trigger] l[k], only_active) by {
                if k < l.len() - 1 {
                    assert(l[k] == r[k]);
                }
            }
            assert forall|m: int| 0 <= m < s.len() && keeps(s[m], only_active) implies l.contains(#[trigger] s[m]) by {
                if m == s.len() - 1 {
                    assert(l[l.len() - 1] == s[m]);
                } else {
                    assert(s[m] == p[m]);
                    assert(r.contains(p[m]));
                    let k = choose|k: int| 0 <= k < r.len() && r[k] == p[m];
                    assert(l[k] == r[k]);
                }
            }
        } else {
            assert forall|m: int| 0 <= m < s.len() && keeps(s[m], only_active) implies l.contains(#[trigger] s[m]) by {
                assert(s[m] == p[m]);
                assert(r.contains(p[m]));
            }
        }
    }
}

/// Ids handed out by a run of adds strictly increase, so no two are equal:
/// each add returns the queue's next id and moves it one past that id.
pub proof fn lemma_add_ids_increase(qs: Seq<Queue>, ids: Seq<usize>)
    requires
        qs.len() == ids.len() + 1,
        forall|k: int| 0 <= k < ids.len() ==> #[trigger] ids[k] == qs[k].next_id_spec()
            && qs[k + 1].next_id_spec() == ids[k] + 1,
    ensures
        forall|a: int, b: int| 0 <= a < b < ids.len() ==> ids[a] < ids[b],
        forall|a: int, b: int| 0 <= a < ids.len() && 0 <= b < ids.len() && a != b ==> ids[a] != ids[b],
{
    assert forall|a: int, b: int| 0 <= a < b < ids.len() implies ids[a] < ids[b] by {
        lemma_add_ids_step(qs, ids, a, b);
    }
    assert forall|a: int, b: int| 0 <= a < ids.len() && 0 <= b < ids.len() && a != b implies ids[a] != ids[b] by {
        if a < b {
            lemma_add_ids_step(qs, ids, a, b);
        } else {
            lemma_add_ids_step(qs, ids, b, a);
        }
    }
}

proof fn lemma_add_ids_step(qs: Seq<Queue>, ids: Seq<usize>, a: int, b: int)
    requires
        qs.len() == ids.len() + 1,
        forall|k: int| 0 <= k < ids.len() ==> #[trigger] ids[k] == qs[k].next_id_spec()
            && qs[k + 1].next_id_spec() == ids[k] + 1,
        0 <= a < b < ids.len(),
    ensures
        ids[a] + (b - a) <= ids[b],
    decreases b - a,
{
    if b == a + 1 {
        assert(ids[a] == qs[a].next_id_spec());
        assert(ids[b] == qs[b].next_id_spec());
    } else {
        lemma_add_ids_step(qs, ids, a, b - 1);
        assert(ids[b - 1] == qs[b - 1].next_id_spec());
        assert(ids[b] == qs[b].next_id_spec());
    }
}

/// A schedulable id belongs to a `Queued` task (never a `Stashed` one) whose
/// start time, if any, is not in the future.
pub proof fn lemma_schedulable_is_due(s: Seq<Task>, id: usize, now: i64)
    requires
        ids_increasing(s),
        schedulable_id(s, id, now),
    ensures
        has_id(s, id),
        task_of(s, id).status == TaskStatus::Queued,
        task_of(s, id).status != TaskStatus::Stashed,
        match task_of(s, id).enqueue_at {
            Some(at) => at <= now,
            None => true,
        },
{
    let i = choose|i: int| 0 <= i < s.len() && s[i].id == id && schedulable(s[i], now);
    lemma_pos_unique(s, id, i);
}

/// A switch of two waiting tasks exchanges their commands and paths and
/// keeps their ids, statuses and every other field; every other task stays
/// as it was. A switch that involves a `Running` task is refused with
/// `InvalidState` (and then changes nothing).
pub proof fn lemma_switch_swaps(s: Seq<Task>, id_a: usize, id_b: usize)
    requires
        ids_increasing(s),
        has_id(s, id_a),
        has_id(s, id_b),
    ensures
        task_of(s, id_a).status == TaskStatus::Running || task_of(s, id_b).status == TaskStatus::Running
            ==> switch_outcome(s, id_a, id_b) == Err::<(), QueueError>(QueueError::InvalidState),
        switch_outcome(s, id_a, id_b).is_ok() ==> ({
            let r = switched(s, id_a, id_b);
            let a = task_of(s, id_a);
            let b = task_of(s, id_b);
            &&& r.len() == s.len()
            &&& has_id(r, id_a) && has_id(r, id_b)
            &&& task_of(r, id_a) == Task { command: b.command, path: b.path, ..a }
            &&& task_of(r, id_b) == Task { command: a.command, path: a.path, ..b }
            &&& forall|k: int| 0 <= k < s.len() && s[k].id != id_a && s[k].id != id_b ==> r[k] == s[k]
        }),
{
    let i = pos_of(s, id_a);
    let j = pos_of(s, id_b);
    let a = s[i];
    let b = s[j];
    if switch_outcome(s, id_a, id_b).is_ok() {
        let r = switched(s, id_a, id_b);
        assert(ids_increasing(r)) by {
            assert forall|x: int, y: int| 0 <= x < y < r.len() implies r[x].id < r[y].id by {
                assert(s[x].id < s[y].id);
            }
        }
        if i == j {
            assert(r[i] == Task { command: a.command, path: a.path, ..a });
            lemma_pos_unique(r, id_a, i);
        } else {
            lemma_pos_unique(r, id_a, i);
            lemma_pos_unique(r, id_b, j);
        }
        assert forall|k: int| 0 <= k < s.len() && s[k].id != id_a && s[k].id != id_b implies r[k] == s[k] by {
            assert(k != i && k != j);
        }
    }
}

pub struct Queue {
    tasks: Vec<Task>,
    next_id: usize,
}

impl View for Queue {
    type V = Seq<Task>;

    closed spec fn view(&self) -> Seq<Task> {
        self.tasks@
    }
}

/// In a sequence with increasing ids, the task with a given id is unique.
pub proof fn lemma_pos_unique(s: Seq<Task>, id: usize, i: int)
    requires
        ids_increasing(s),
        0 <= i < s.len(),
        s[i].id == id,
    ensures
        has_id(s, id),
        pos_of(s, id) == i,
{
    let j = pos_of(s, id);
    if j < i {
    } else if i < j {
    }
}

impl Queue {
    /// The id that the next added task receives.
    pub closed spec fn next_id_spec(&self) -> nat {
        self.next_id as nat
    }

    /// Ids increase along the queue, all lie below the next id, and every
    /// task is well formed.
    pub open spec fn wf(&self) -> bool {
        &&& ids_increasing(self@)
        &&& forall|i: int| 0 <= i < self@.len() ==> (#[trigger] self@[i]).id < self.next_id_spec()
        &&& forall|i: int| 0 <= i < self@.len() ==> (#[trigger] self@[i]).wf()
    }

    pub fn new() -> (r: Queue)
        ensures
            r.wf(),
            r@.len() == 0,
            r.next_id_spec() == 0,
    {
        Queue { tasks: Vec::new(), next_id: 0 }
    }

    /// The id that the next added task receives.
    pub fn next_id(&self) -> (r: usize)
        ensures
            r == self.next_id_spec(),
    {
        self.next_id
    }

    pub fn len(&self) -> (r: usize)
        ensures
            r == self@.len(),
    {
        self.tasks.len()
    }

    /// The task at position `i`.
    pub fn at(&self, i: usize) -> (r: &Task)
        requires
            i < self@.len(),
        ensures
            *r == self@[i as int],
    {
        &self.tasks[i]
    }

    /// Appends a new `Queued` (or `Stashed`) task under the next id and returns that id.
    pub fn add(&mut self, command: String, path: String, enqueue_at: Option<i64>, stashed: bool) -> (r: usize)
        requires
            old(self).wf(),
            old(self).next_id_spec() < usize::MAX,
        ensures
            final(self).wf(),
            r == old(self).next_id_spec(),
            final(self).next_id_spec() == r + 1,
            forall|i: int| 0 <= i < old(self)@.len() ==> old(self)@[i].id < r,
            final(self)@ == old(self)@.push(
                Task {
                    id: r,
                    command: command,
                    path: path,
                    enqueue_at: enqueue_at,
                    status: if stashed { TaskStatus::Stashed } else { TaskStatus::Queued },
                    prev_status: if stashed { TaskStatus::Stashed } else { TaskStatus::Queued },
                    exit_code: None,
                    stdout: None,
                    stderr: None,
                    start: None,
                    end: None,
                },
            ),
    {
        let status = if stashed { TaskStatus::Stashed } else { TaskStatus::Queued };
        let mut task = Task::new(command, path, status, enqueue_at);
        let id = self.next_id;
        task.id = id;
        self.tasks.push(task);
        self.next_id = id + 1;
        proof {
            assert forall|i: int, j: int| 0 <= i < j < self@.len() implies self@[i].id < self@[j].id by {
                if j == self@.len() - 1 {
                    assert(old(self)@[i].id < old(self).next_id_spec());
                }
            }
            assert forall|i: int| 0 <= i < self@.len() implies (#[trigger] self@[i]).id < self.next_id_spec() by {
                if i < self@.len() - 1 {
                    assert(old(self)@[i].id < old(self).next_id_spec());
                }
            }
            assert forall|i: int| 0 <= i < self@.len() implies (#[trigger] self@[i]).wf() by {
                if i < self@.len() - 1 {
                    assert(old(self)@[i].wf());
                }
            }
        }
        id
    }

    /// The position of the task with id `id`, if there is one.
    pub fn position(&self, id: usize) -> (r: Option<usize>)
        requires
            self.wf(),
        ensures
            r.is_none() <==> !has_id(self@, id),
            r.is_some() ==> r.unwrap() < self@.len() && self@[r.unwrap() as int].id == id
                && pos_of(self@, id) == r.unwrap(),
    {
        let mut i: usize = 0;
        while i < self.tasks.len()
            invariant
                self.wf(),
                0 <= i <= self@.len(),
                forall|k: int| 0 <= k < i ==> self@[k].id != id,
            decreases self@.len() - i,
        {
            if self.tasks[i].id == id {
                proof {
                    lemma_pos_unique(self@, id, i as int);
                }
                return Some(i);
            }
            i = i + 1;
        }
        None
    }

    /// The task with id `id`, if there is one.
    pub fn get(&self, id: usize) -> (r: Option<&Task>)
        requires
            self.wf(),
        ensures
            r.is_none() <==> !has_id(self@, id),
            r.is_some() ==> *r.unwrap() == task_of(self@, id) && r.unwrap().id == id,
    {
        match self.position(id) {
            Some(i) => Some(&self.tasks[i]),
            None => None,
        }
    }
    /// Replacing the task at position `i` by a well-formed task of the same
    /// id keeps the queue well formed.
    proof fn lemma_update_wf(old_q: Seq<Task>, next_id: nat, i: int, t: Task)
        requires
            ids_increasing(old_q),
            forall|k: int| 0 <= k < old_q.len() ==> (#[trigger] old_q[k]).id < next_id,
            forall|k: int| 0 <= k < old_q.len() ==> (#[trigger] old_q[k]).wf(),
            0 <= i < old_q.len(),
            t.id == old_q[i].id,
            t.wf(),
        ensures
            ids_increasing(old_q.update(i, t)),
            forall|k: int| 0 <= k < old_q.len() ==> (#[trigger] old_q.update(i, t)[k]).id < next_id,
            forall|k: int| 0 <= k < old_q.len() ==> (#[trigger] old_q.update(i, t)[k]).wf(),
    {
        let s = old_q.update(i, t);
        assert forall|a: int, b: int| 0 <= a < b < s.len() implies s[a].id < s[b].id by {
            assert(old_q[a].id < old_q[b].id);
        }
        assert forall|k: int| 0 <= k < old_q.len() implies (#[trigger] s[k]).id < next_id by {
            assert(old_q[k].id < next_id);
        }
        assert forall|k: int| 0 <= k < old_q.len() implies (#[trigger] s[k]).wf() by {
            if k != i {
                assert(old_q[k].wf());
            }
        }
    }

    /// Removes the task with id `id`, whatever its status.
    pub fn remove(&mut self, id: usize) -> (r: Result<Task, QueueError>)
        requires
            old(self).wf(),
        ensures
            final(self).wf(),
            final(self).next_id_spec() == old(self).next_id_spec(),
            !has_id(old(self)@, id) ==> r == Err::<Task, QueueError>(QueueError::NotFound),
            has_id(old(self)@, id) ==> r == Ok::<
                Task,
                QueueError,
            >(task_of(old(self)@, id)) && final(self)@ == old(self)@.remove(pos_of(old(self)@, id)),
            r.is_err() ==> final(self)@ == old(self)@,
    {
        match self.position(id) {
            None => Err(QueueError::NotFound),
            Some(i) => {
                let t = self.tasks.remove(i);
                proof {
                    let o = old(self)@;
                    assert forall|a: int, b: int| 0 <= a < b < self@.len() implies self@[a].id
                        < self@[b].id by {
                        if a >= i {
                            assert(o[a + 1].id < o[b + 1].id);
                        } else if b >= i {
                            assert(o[a].id < o[b + 1].id);
                        } else {
                            assert(o[a].id < o[b].id);
                        }
                    }
                    assert forall|k: int| 0 <= k < self@.len() implies (#[trigger] self@[k]).id
                        < self.next_id_spec() && self@[k].wf() by {
                        if k >= i {
                            assert(o[k + 1].id < self.next_id_spec() && o[k + 1].wf());
                        } else {
                            assert(o[k].id < self.next_id_spec() && o[k].wf());
                        }
                    }
                }
                Ok(t)
            },
        }
    }

    /// Exchanges the command and path of two waiting (`Queued` or `Stashed`)
    /// tasks; nothing else of either task changes.
    pub fn switch(&mut self, id_a: usize, id_b: usize) -> (r: Result<(), QueueError>)
        requires
            old(self).wf(),
        ensures
            final(self).wf(),
            final(self).next_id_spec() == old(self).next_id_spec(),
            r == switch_outcome(old(self)@, id_a, id_b),
            r.is_err() ==> final(self)@ == old(self)@,
            r.is_ok() ==> final(self)@ == switched(old(self)@, id_a, id_b),
    {
        let i = match self.position(id_a) {
            Some(i) => i,
            None => return Err(QueueError::NotFound),
        };
        let j = match self.position(id_b) {
            Some(j) => j,
            None => return Err(QueueError::NotFound),
        };
        if !self.tasks[i].is_queued() || !self.tasks[j].is_queued() {
            return Err(QueueError::InvalidState);
        }
        if i == j {
            proof {
                assert(switched(old(self)@, id_a, id_b) =~= old(self)@);
            }
            return Ok(());
        }
        let mut command = String::new();
        let mut path = String::new();
        std::mem::swap(&mut self.tasks[i].command, &mut command);
        std::mem::swap(&mut self.tasks[i].path, &mut path);
        std::mem::swap(&mut self.tasks[j].command, &mut command);
        std::mem::swap(&mut self.tasks[j].path, &mut path);
        std::mem::swap(&mut self.tasks[i].command, &mut command);
        std::mem::swap(&mut self.tasks[i].path, &mut path);
        proof {
            let o = old(self)@;
            let i = i as int;
            let j = j as int;
            let ta = Task { command: o[j].command, path: o[j].path, ..o[i] };
            let tb = Task { command: o[i].command, path: o[i].path, ..o[j] };
            assert(self@ =~= o.update(i, ta).update(j, tb));
            Self::lemma_update_wf(o, self.next_id_spec(), i, ta);
            Self::lemma_update_wf(o.update(i, ta), self.next_id_spec(), j, tb);
        }
        Ok(())
    }
    /// Moves a task between `Running` and `Paused`, or among the waiting
    /// states (`Queued`, `Stashed`, `Locked`). Starting a process goes through
    /// `mark_started`, ending one through `set_result`.
    pub fn set_status(&mut self, id: usize, status: TaskStatus) -> (r: Result<(), QueueError>)
        requires
            old(self).wf(),
        ensures
            final(self).wf(),
            final(self).next_id_spec() == old(self).next_id_spec(),
            !has_id(old(self)@, id) ==> r == Err::<(), QueueError>(QueueError::NotFound),
            has_id(old(self)@, id) ==> (r.is_ok() <==> ({
                let t = task_of(old(self)@, id);
                !t.status.is_terminal() && !status.is_terminal() && t.status.is_active()
                    == status.is_active()
            })),
            r.is_err() ==> final(self)@ == old(self)@,
            r.is_ok() ==> final(self)@ == old(self)@.update(
                pos_of(old(self)@, id),
                with_status(task_of(old(self)@, id), status),
            ),
            has_id(old(self)@, id) && r.is_err() ==> r == Err::<(), QueueError>(
                QueueError::InvalidState,
            ),
    {
        let i = match self.position(id) {
            Some(i) => i,
            None => return Err(QueueError::NotFound),
        };
        let cur = self.tasks[i].status;
        let terminal = status == TaskStatus::Done || status == TaskStatus::Failed || status
            == TaskStatus::Killed;
        let active = status == TaskStatus::Running || status == TaskStatus::Paused;
        if self.tasks[i].is_done() || terminal || active != self.tasks[i].is_running() {
            return Err(QueueError::InvalidState);
        }
        self.tasks[i].prev_status = cur;
        self.tasks[i].status = status;
        proof {
            let o = old(self)@;
            assert(self@ =~= o.update(i as int, with_status(o[i as int], status)));
            Self::lemma_update_wf(o, self.next_id_spec(), i as int, with_status(o[i as int], status));
        }
        Ok(())
    }

    /// The process of a `Queued` task has been spawned: it becomes `Running`
    /// with start time `now`.
    pub fn mark_started(&mut self, id: usize, now: i64) -> (r: Result<(), QueueError>)
        requires
            old(self).wf(),
        ensures
            final(self).wf(),
            final(self).next_id_spec() == old(self).next_id_spec(),
            !has_id(old(self)@, id) ==> r == Err::<(), QueueError>(QueueError::NotFound),
            has_id(old(self)@, id) && task_of(old(self)@, id).status != TaskStatus::Queued ==> r
                == Err::<(), QueueError>(QueueError::InvalidState),
            r.is_ok() <==> has_id(old(self)@, id) && task_of(old(self)@, id).status
                == TaskStatus::Queued,
            r.is_err() ==> final(self)@ == old(self)@,
            r.is_ok() ==> final(self)@ == old(self)@.update(
                pos_of(old(self)@, id),
                started(task_of(old(self)@, id), now),
            ),
    {
        let i = match self.position(id) {
            Some(i) => i,
            None => return Err(QueueError::NotFound),
        };
        if self.tasks[i].status != TaskStatus::Queued {
            return Err(QueueError::InvalidState);
        }
        self.tasks[i].prev_status = TaskStatus::Queued;
        self.tasks[i].status = TaskStatus::Running;
        self.tasks[i].start = Some(now);
        proof {
            let o = old(self)@;
            assert(self@ =~= o.update(i as int, started(o[i as int], now)));
            Self::lemma_update_wf(o, self.next_id_spec(), i as int, started(o[i as int], now));
        }
        Ok(())
    }

    /// Records the end of a task: its terminal status, exit code, captured
    /// output and end time, all at once.
    pub fn set_result(
        &mut self,
        id: usize,
        status: TaskStatus,
        exit_code: i32,
        stdout: String,
        stderr: String,
        end: i64,
    ) -> (r: Result<(), QueueError>)
        requires
            old(self).wf(),
            status.is_terminal(),
        ensures
            final(self).wf(),
            final(self).next_id_spec() == old(self).next_id_spec(),
            !has_id(old(self)@, id) ==> r == Err::<(), QueueError>(QueueError::NotFound),
            has_id(old(self)@, id) && task_of(old(self)@, id).status.is_terminal() ==> r == Err::<
                (),
                QueueError,
            >(QueueError::InvalidState),
            r.is_ok() <==> has_id(old(self)@, id) && !task_of(old(self)@, id).status.is_terminal(),
            r.is_err() ==> final(self)@ == old(self)@,
            r.is_ok() ==> final(self)@ == old(self)@.update(
                pos_of(old(self)@, id),
                finished(task_of(old(self)@, id), status, exit_code, stdout, stderr, end),
            ),
    {
        let i = match self.position(id) {
            Some(i) => i,
            None => return Err(QueueError::NotFound),
        };
        if self.tasks[i].is_done() {
            return Err(QueueError::InvalidState);
        }
        let cur = self.tasks[i].status;
        self.tasks[i].prev_status = cur;
        self.tasks[i].status = status;
        self.tasks[i].exit_code = Some(exit_code);
        self.tasks[i].stdout = Some(stdout);
        self.tasks[i].stderr = Some(stderr);
        self.tasks[i].end = Some(end);
        proof {
            let o = old(self)@;
            let t = finished(o[i as int], status, exit_code, stdout, stderr, end);
            assert(self@ =~= o.update(i as int, t));
            Self::lemma_update_wf(o, self.next_id_spec(), i as int, t);
        }
        Ok(())
    }

    /// The ids of the tasks that may start at time `now`, in ascending order.
    pub fn iter_schedulable(&self, now: i64) -> (r: Vec<usize>)
        requires
            self.wf(),
        ensures
            forall|a: int, b: int| 0 <= a < b < r@.len() ==> r@[a] < r@[b],
            forall|id: usize| r@.contains(id) <==> schedulable_id(self@, id, now),
    {
        let mut r: Vec<usize> = Vec::new();
        let mut i: usize = 0;
        while i < self.tasks.len()
            invariant
                self.wf(),
                0 <= i <= self@.len(),
                forall|a: int, b: int| 0 <= a < b < r@.len() ==> r@[a] < r@[b],
                forall|k: int|
                    0 <= k < r@.len() ==> exists|m: int|
                        0 <= m < i && self@[m].id == #[trigger] r@[k] && schedulable(self@[m], now),
                forall|m: int|
                    0 <= m < i && schedulable(self@[m], now) ==> r@.contains(#[trigger] self@[m].id),
            decreases self@.len() - i,
        {
            let t = &self.tasks[i];
            let ready = match t.enqueue_at {
                Some(at) => at <= now,
                None => true,
            };
            if t.status == TaskStatus::Queued && ready {
                proof {
                    if r@.len() > 0 {
                        let k = r@.len() - 1;
                        let m = choose|m: int|
                            0 <= m < i && self@[m].id == #[trigger] r@[k] && schedulable(self@[m], now);
                        assert(self@[m].id < self@[i as int].id);
                    }
                }
                let ghost r_old = r@;
                r.push(t.id);
                proof {
                    assert(r@[r@.len() - 1] == self@[i as int].id);
                    assert forall|k: int| 0 <= k < r@.len() implies exists|m: int|
                        0 <= m < i + 1 && self@[m].id == #[trigger] r@[k] && schedulable(self@[m], now) by {
                        if k == r@.len() - 1 {
                            assert(self@[i as int].id == r@[k]);
                        } else {
                            assert(r@[k] == r@.drop_last()[k]);
                        }
                    }
                    assert forall|m: int| 0 <= m < i + 1 && schedulable(self@[m], now) implies r@.contains(#[trigger] self@[m].id) by {
                        if m == i {
                            assert(r@[r@.len() - 1] == self@[m].id);
                        } else {
                            assert(r_old.contains(self@[m].id));
                            let k = choose|k: int| 0 <= k < r_old.len() && r_old[k] == self@[m].id;
                            assert(r@[k] == self@[m].id);
                        }
                    }
                }
            }
            i = i + 1;
        }
        proof {
            assert forall|id: usize| r@.contains(id) implies schedulable_id(self@, id, now) by {
                let k = choose|k: int| 0 <= k < r@.len() && r@[k] == id;
                let m = choose|m: int|
                    0 <= m < i && self@[m].id == #[trigger] r@[k] && schedulable(self@[m], now);
            }
            assert forall|id: usize| schedulable_id(self@, id, now) implies r@.contains(id) by {
                let m = choose|m: int| 0 <= m < self@.len() && self@[m].id == id && schedulable(self@[m], now);
                assert(r@.contains(self@[m].id));
            }
        }
        r
    }
    /// Removes every finished (`Done`, `Failed` or `Killed`) task and keeps
    /// the others in order.
    pub fn clear(&mut self)
        requires
            old(self).wf(),
        ensures
            final(self).wf(),
            final(self).next_id_spec() == old(self).next_id_spec(),
            final(self)@ == retained(old(self)@, false),
    {
        self.sweep(false);
    }

    /// Removes every task without a process (`Running` and `Paused` tasks
    /// stay), keeping the others in order.
    pub fn remove_inactive(&mut self)
        requires
            old(self).wf(),
        ensures
            final(self).wf(),
            final(self).next_id_spec() == old(self).next_id_spec(),
            final(self)@ == retained(old(self)@, true),
    {
        self.sweep(true);
    }

    fn sweep(&mut self, only_active: bool)
        requires
            old(self).wf(),
        ensures
            final(self).wf(),
            final(self).next_id_spec() == old(self).next_id_spec(),
            final(self)@ == retained(old(self)@, only_active),
    {
        let ghost o = self@;
        let ghost mut j: int = 0;
        let mut i: usize = 0;
        while i < self.tasks.len()
            invariant
                0 <= i <= self@.len(),
                0 <= j <= o.len(),
                self@.len() - i == o.len() - j,
                self@.subrange(0, i as int) == retained(o.subrange(0, j), only_active),
                self@.subrange(i as int, self@.len() as int) == o.subrange(j, o.len() as int),
                self.next_id == old(self).next_id,
            decreases self@.len() - i,
        {
            assert(self@[i as int] == o[j]) by {
                assert(self@.subrange(i as int, self@.len() as int)[0] == o.subrange(j, o.len() as int)[0]);
            }
            assert(o.subrange(0, j + 1).drop_last() =~= o.subrange(0, j));
            let drop = if only_active {
                !self.tasks[i].is_running()
            } else {
                self.tasks[i].is_done()
            };
            if drop {
                let ghost before = self@;
                self.tasks.remove(i);
                proof {
                    assert(self@.subrange(0, i as int) =~= before.subrange(0, i as int));
                    assert(self@.subrange(i as int, self@.len() as int) =~= before.subrange(i + 1, before.len() as int));
                    assert(o.subrange(j + 1, o.len() as int) =~= o.subrange(j, o.len() as int).subrange(1, o.len() - j));
                    assert(before.subrange(i + 1, before.len() as int) =~= before.subrange(i as int, before.len() as int).subrange(1, before.len() - i));
                }
            } else {
                proof {
                    assert(self@.subrange(0, i + 1) =~= self@.subrange(0, i as int).push(self@[i as int]));
                    assert(o.subrange(j + 1, o.len() as int) =~= o.subrange(j, o.len() as int).subrange(1, o.len() - j));
                    assert(self@.subrange(i + 1, self@.len() as int) =~= self@.subrange(i as int, self@.len() as int).subrange(1, self@.len() - i));
                }
                i = i + 1;
            }
            proof {
                j = j + 1;
            }
        }
        proof {
            assert(self@ =~= self@.subrange(0, i as int));
            assert(o =~= o.subrange(0, j));
            lemma_retained(o, only_active);
            assert forall|a: int, b: int| 0 <= a < b < self@.len() implies self@[a].id < self@[b].id by {}
            assert forall|k: int| 0 <= k < self@.len() implies (#[trigger] self@[k]).id < self.next_id_spec() && self@[k].wf() by {
                let m = choose|m: int| 0 <= m < o.len() && o[m] == self@[k];
                assert(o[m].id < self.next_id_spec() && o[m].wf());
            }
        }
    }
}

} // verus!
