//! A queued, running or finished command and its status.
use vstd::prelude::*;

verus! {

/// The lifecycle state of a task.
#[derive(Clone, Copy, Debug, PartialEq, Eq, Structural)]
pub enum TaskStatus {
    Queued,
    Stashed,
    Running,
    Paused,
    Done,
    Failed,
    Killed,
    /// Used while the command of a task is edited (to prevent starting the task)
    Locked,
}

impl TaskStatus {
    /// `Running` or `Paused`: an OS process is attached.
    pub open spec fn is_active(self) -> bool {
        self == TaskStatus::Running || self == TaskStatus::Paused
    }

    /// `Done`, `Failed` or `Killed`: the process has exited.
    pub open spec fn is_terminal(self) -> bool {
        self == TaskStatus::Done || self == TaskStatus::Failed || self == TaskStatus::Killed
    }

    /// `Queued` or `Stashed`: no process has been started yet.
    pub open spec fn is_waiting(self) -> bool {
        self == TaskStatus::Queued || self == TaskStatus::Stashed
    }
}

/// Representation of a task.
/// `start` is set the moment the task starts processing.
/// `exit_code`, `stdout`, `stderr` and `end` stay unset until the task has finished.
/// Timestamps are milliseconds since the Unix epoch.
#[derive(Clone, Debug)]
pub struct Task {
    pub id: usize,
    pub command: String,
    pub path: String,
    pub enqueue_at: Option<i64>,
    pub status: TaskStatus,
    pub prev_status: TaskStatus,
    pub exit_code: Option<i32>,
    pub stdout: Option<String>,
    pub stderr: Option<String>,
    pub start: Option<i64>,
    pub end: Option<i64>,
}

impl Task {
    /// The result fields are all unset, or all set.
    pub open spec fn result_all_or_nothing(&self) -> bool {
        &&& self.exit_code.is_some() == self.end.is_some()
        &&& self.stdout.is_some() == self.end.is_some()
        &&& self.stderr.is_some() == self.end.is_some()
    }

    /// A task whose result fields are set exactly when its status is terminal,
    /// which has a start time whenever a process is attached, and none while
    /// it waits (it has never run).
    pub open spec fn wf(&self) -> bool {
        &&& self.result_all_or_nothing()
        &&& self.end.is_some() == self.status.is_terminal()
        &&& self.status.is_active() ==> self.start.is_some()
        &&& !self.status.is_active() && !self.status.is_terminal() ==> self.start.is_none()
    }

    /// A fresh task with no result and no start time.
    pub open spec fn is_fresh(&self) -> bool {
        &&& self.exit_code.is_none()
        &&& self.stdout.is_none()
        &&& self.stderr.is_none()
        &&& self.start.is_none()
        &&& self.end.is_none()
    }

    pub fn new(
        command: String,
        path: String,
        starting_status: TaskStatus,
        enqueue_at: Option<i64>,
    ) -> (r: Task)
        ensures
            r.id == 0,
            r.command == command,
            r.path == path,
            r.enqueue_at == enqueue_at,
            r.status == starting_status,
            r.prev_status == starting_status,
            r.is_fresh(),
    {
        Task {
            id: 0,
            command: command,
            path: path,
            enqueue_at: enqueue_at,
            status: starting_status,
            prev_status: starting_status,
            exit_code: None,
            stdout: None,
            stderr: None,
            start: None,
            end: None,
        }
    }

    /// A fresh `Queued` copy of `task`'s command and path, without delay.
    pub fn from_task(task: &Task) -> (r: Task)
        ensures
            r.id == 0,
            r.command@ == task.command@,
            r.path@ == task.path@,
            r.enqueue_at.is_none(),
            r.status == TaskStatus::Queued,
            r.prev_status == TaskStatus::Queued,
            r.is_fresh(),
    {
        Task {
            id: 0,
            command: task.command.clone(),
            path: task.path.clone(),
            enqueue_at: None,
            status: TaskStatus::Queued,
            prev_status: TaskStatus::Queued,
            exit_code: None,
            stdout: None,
            stderr: None,
            start: None,
            end: None,
        }
    }

    pub fn is_running(&self) -> (r: bool)
        ensures
            r == self.status.is_active(),
    {
        self.status == TaskStatus::Running || self.status == TaskStatus::Paused
    }

    pub fn is_done(&self) -> (r: bool)
        ensures
            r == self.status.is_terminal(),
    {
        self.status == TaskStatus::Done || self.status == TaskStatus::Failed
            || self.status == TaskStatus::Killed
    }

    pub fn is_queued(&self) -> (r: bool)
        ensures
            r == self.status.is_waiting(),
    {
        self.status == TaskStatus::Queued || self.status == TaskStatus::Stashed
    }
}

} // verus!
