use pueue::queue::{Queue, QueueError};
use pueue::task::{Task, TaskStatus};

fn s(t: &str) -> String {
    t.to_string()
}

#[test]
fn add_ids_strictly_increase() {
    let mut q = Queue::new();
    let mut last = None;
    for i in 0..5 {
        let id = q.add(s("true"), s("/tmp"), None, i % 2 == 0);
        if let Some(prev) = last {
            assert!(id > prev);
        }
        last = Some(id);
    }
    assert_eq!(q.len(), 5);
    let first = q.get(0).unwrap();
    assert_eq!(first.status, TaskStatus::Stashed);
    assert_eq!(q.get(1).unwrap().status, TaskStatus::Queued);
}

#[test]
fn removed_ids_are_not_reused() {
    let mut q = Queue::new();
    let a = q.add(s("a"), s("/"), None, false);
    assert!(q.remove(a).is_ok());
    let b = q.add(s("b"), s("/"), None, false);
    assert_eq!(a, 0);
    assert_eq!(b, 1);
    assert_eq!(q.remove(a).err(), Some(QueueError::NotFound));
}

#[test]
fn schedulable_skips_stashed_and_future() {
    let mut q = Queue::new();
    let a = q.add(s("a"), s("/"), None, false);
    let _b = q.add(s("b"), s("/"), None, true);
    let c = q.add(s("c"), s("/"), Some(2_000), false);
    let d = q.add(s("d"), s("/"), Some(500), false);
    assert_eq!(q.iter_schedulable(1_000), vec![a, d]);
    assert_eq!(q.iter_schedulable(2_000), vec![a, c, d]);
    assert_eq!(Queue::new().iter_schedulable(0), Vec::<usize>::new());
}

#[test]
fn switch_swaps_command_and_path() {
    let mut q = Queue::new();
    let a = q.add(s("ls"), s("/a"), None, false);
    let b = q.add(s("pwd"), s("/b"), Some(9), true);
    assert_eq!(q.switch(a, b), Ok(()));
    let ta = q.get(a).unwrap();
    assert_eq!((ta.id, ta.command.as_str(), ta.path.as_str()), (a, "pwd", "/b"));
    assert_eq!((ta.status, ta.enqueue_at), (TaskStatus::Queued, None));
    let tb = q.get(b).unwrap();
    assert_eq!((tb.id, tb.command.as_str(), tb.path.as_str()), (b, "ls", "/a"));
    assert_eq!((tb.status, tb.enqueue_at), (TaskStatus::Stashed, Some(9)));
}

#[test]
fn switch_with_running_task_changes_nothing() {
    let mut q = Queue::new();
    let a = q.add(s("ls"), s("/a"), None, false);
    let b = q.add(s("pwd"), s("/b"), None, false);
    assert_eq!(q.mark_started(a, 10), Ok(()));
    assert_eq!(q.switch(a, b), Err(QueueError::InvalidState));
    assert_eq!(q.switch(b, a), Err(QueueError::InvalidState));
    assert_eq!(q.get(a).unwrap().command, "ls");
    assert_eq!(q.get(b).unwrap().command, "pwd");
    assert_eq!(q.switch(b, 42), Err(QueueError::NotFound));
}

#[test]
fn result_fields_set_together() {
    let mut q = Queue::new();
    let a = q.add(s("x"), s("/"), None, false);
    let t = q.get(a).unwrap();
    assert!(t.exit_code.is_none() && t.stdout.is_none() && t.stderr.is_none() && t.end.is_none());
    assert_eq!(q.set_result(a, TaskStatus::Done, 0, s("out"), s(""), 77), Ok(()));
    let t = q.get(a).unwrap();
    assert_eq!(t.exit_code, Some(0));
    assert_eq!(t.stdout.as_deref(), Some("out"));
    assert_eq!(t.stderr.as_deref(), Some(""));
    assert_eq!(t.end, Some(77));
    assert_eq!(t.prev_status, TaskStatus::Queued);
    assert_eq!(q.set_result(a, TaskStatus::Failed, 1, s(""), s(""), 78), Err(QueueError::InvalidState));
}

#[test]
fn set_status_rules() {
    let mut q = Queue::new();
    let a = q.add(s("x"), s("/"), None, false);
    assert_eq!(q.set_status(a, TaskStatus::Running), Err(QueueError::InvalidState));
    assert_eq!(q.set_status(a, TaskStatus::Done), Err(QueueError::InvalidState));
    assert_eq!(q.set_status(a, TaskStatus::Locked), Ok(()));
    assert_eq!(q.get(a).unwrap().prev_status, TaskStatus::Queued);
    assert_eq!(q.set_status(a, TaskStatus::Queued), Ok(()));
    assert_eq!(q.set_status(9, TaskStatus::Queued), Err(QueueError::NotFound));
}

#[test]
fn clear_and_sweep() {
    let mut q = Queue::new();
    let a = q.add(s("a"), s("/"), None, false);
    let b = q.add(s("b"), s("/"), None, false);
    let c = q.add(s("c"), s("/"), None, false);
    q.set_result(a, TaskStatus::Failed, 2, s(""), s("e"), 1).unwrap();
    q.mark_started(c, 5).unwrap();
    q.clear();
    assert_eq!(q.len(), 2);
    assert_eq!(q.at(0).id, b);
    assert_eq!(q.at(1).id, c);
    q.remove_inactive();
    assert_eq!(q.len(), 1);
    assert_eq!(q.at(0).id, c);
    let removed = q.remove(c).unwrap();
    assert_eq!((removed.id, removed.status), (c, TaskStatus::Running));
    assert_eq!(q.len(), 0);
}

#[test]
fn task_helpers() {
    let t = Task::new(s("sleep 1"), s("/"), TaskStatus::Paused, None);
    assert!(t.is_running() && !t.is_done() && !t.is_queued());
    let u = Task::from_task(&t);
    assert_eq!(u.command, "sleep 1");
    assert_eq!(u.status, TaskStatus::Queued);
    assert!(u.is_queued());
    let mut d = Task::new(s("x"), s("/"), TaskStatus::Killed, None);
    assert!(d.is_done());
    d.status = TaskStatus::Locked;
    assert!(!d.is_done() && !d.is_running() && !d.is_queued());
}
