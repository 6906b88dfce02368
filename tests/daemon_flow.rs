use pueue::daemon::Daemon;
use pueue::handler::{Signal, SPAWN_FAILURE_CODE};
use pueue::message::{
    create_failure_message, create_success_message, AddMessage, KillMessage, Message,
    PauseMessage, RemoveMessage, StartMessage, SwitchMessage,
};
use pueue::queue::QueueError;
use pueue::task::TaskStatus;
use pueue::text::{join_words, push_decimal};

fn add(d: &mut Daemon, words: &[&str], path: &str) -> Message {
    d.handle_instructions(Message::Add(AddMessage {
        command: words.iter().map(|w| w.to_string()).collect(),
        path: path.to_string(),
    }))
}

fn success_text(m: &Message) -> Option<String> {
    match m {
        Message::Success(s) => Some(s.text.clone()),
        _ => None,
    }
}

fn failure_text(m: &Message) -> Option<String> {
    match m {
        Message::Failure(f) => Some(f.text.clone()),
        _ => None,
    }
}

#[test]
fn echo_hi_finishes_done() {
    let mut d = Daemon::new(1);
    let r = add(&mut d, &["echo", "hi"], "/tmp");
    assert_eq!(success_text(&r).as_deref(), Some("New task added (id 0)."));
    assert_eq!(d.task(0).unwrap().command, "echo hi");
    assert_eq!(d.next_to_start(100), Some(0));
    assert_eq!(d.start_process(0, 100), Ok(()));
    assert_eq!(d.task(0).unwrap().status, TaskStatus::Running);
    assert_eq!(d.task(0).unwrap().start, Some(100));
    let st = d.process_exited(0, Some(0), "hi\n".to_string(), String::new(), 150);
    assert_eq!(st, Ok(TaskStatus::Done));
    let t = d.task(0).unwrap();
    assert_eq!(t.status, TaskStatus::Done);
    assert_eq!(t.exit_code, Some(0));
    assert!(t.stdout.as_deref().unwrap().contains("hi\n"));
    assert_eq!(t.end, Some(150));
}

#[test]
fn missing_executable_fails_without_running() {
    let mut d = Daemon::new(1);
    add(&mut d, &["/nonexistent/binary"], "/tmp");
    assert_eq!(d.next_to_start(0), Some(0));
    assert_eq!(d.spawn_failed(0, "No such file or directory".to_string(), 5), Ok(()));
    let t = d.task(0).unwrap();
    assert_eq!(t.status, TaskStatus::Failed);
    assert_eq!(t.prev_status, TaskStatus::Queued);
    assert_eq!(t.exit_code, Some(SPAWN_FAILURE_CODE));
    assert_ne!(SPAWN_FAILURE_CODE, 0);
    assert!(t.start.is_none());
    assert_eq!(t.stdout.as_deref(), Some(""));
    assert_eq!(t.stderr.as_deref(), Some("No such file or directory"));
    assert_eq!(t.end, Some(5));
    assert_eq!(d.next_to_start(6), None);
}

#[test]
fn pause_then_start_restores_running() {
    let mut d = Daemon::new(1);
    add(&mut d, &["sleep", "60"], "/");
    d.start_process(0, 42).unwrap();
    let r = d.handle_instructions(Message::Pause(PauseMessage { indices: vec![0] }));
    assert!(success_text(&r).is_some());
    assert_eq!(d.task(0).unwrap().status, TaskStatus::Paused);
    let r = d.handle_instructions(Message::Start(StartMessage { indices: vec![0] }));
    assert!(success_text(&r).is_some());
    let t = d.task(0).unwrap();
    assert_eq!(t.status, TaskStatus::Running);
    assert_eq!(t.start, Some(42));
    assert_eq!(d.take_signals(), vec![(0, Signal::Suspend), (0, Signal::Continue)]);
    assert!(d.take_signals().is_empty());
}

#[test]
fn starting_running_task_is_rejected() {
    let mut d = Daemon::new(2);
    add(&mut d, &["sleep", "60"], "/");
    assert_eq!(d.start_process(0, 1), Ok(()));
    assert_eq!(d.start_process(0, 2), Err(QueueError::InvalidState));
    let r = d.handle_instructions(Message::Start(StartMessage { indices: vec![0] }));
    assert_eq!(failure_text(&r).as_deref(), Some("1 task(s) could not be updated."));
    assert_eq!(d.task(0).unwrap().start, Some(1));
    assert!(d.take_signals().is_empty());
}

#[test]
fn concurrency_limit_and_fifo() {
    let mut d = Daemon::new(1);
    add(&mut d, &["a"], "/");
    add(&mut d, &["b"], "/");
    assert_eq!(d.next_to_start(0), Some(0));
    d.start_process(0, 0).unwrap();
    assert_eq!(d.next_to_start(0), None);
    d.process_exited(0, Some(3), String::new(), "bad".to_string(), 1).unwrap();
    assert_eq!(d.task(0).unwrap().status, TaskStatus::Failed);
    assert_eq!(d.task(0).unwrap().exit_code, Some(3));
    assert_eq!(d.next_to_start(2), Some(1));
}

#[test]
fn kill_marks_exit_as_killed() {
    let mut d = Daemon::new(1);
    add(&mut d, &["sleep", "60"], "/");
    d.start_process(0, 0).unwrap();
    let r = d.handle_instructions(Message::Kill(KillMessage { indices: vec![0, 5] }));
    assert_eq!(failure_text(&r).as_deref(), Some("1 task(s) could not be updated."));
    assert_eq!(d.task(0).unwrap().status, TaskStatus::Running);
    assert_eq!(d.take_signals(), vec![(0, Signal::Terminate)]);
    assert_eq!(d.process_exited(0, None, String::new(), String::new(), 9), Ok(TaskStatus::Killed));
    assert_eq!(d.task(0).unwrap().exit_code, Some(-1));
    assert_eq!(d.process_exited(0, None, String::new(), String::new(), 9), Err(QueueError::NotFound));
}

#[test]
fn switch_message() {
    let mut d = Daemon::new(1);
    add(&mut d, &["first"], "/1");
    add(&mut d, &["second"], "/2");
    let r = d.handle_instructions(Message::Switch(SwitchMessage { id_a: 0, id_b: 1 }));
    assert_eq!(success_text(&r).as_deref(), Some("Tasks switched."));
    assert_eq!(d.task(0).unwrap().command, "second");
    assert_eq!(d.task(1).unwrap().path, "/1");
    let r = d.handle_instructions(Message::Switch(SwitchMessage { id_a: 0, id_b: 7 }));
    assert_eq!(failure_text(&r).as_deref(), Some("No task with the given id."));
    d.start_process(0, 0).unwrap();
    let r = d.handle_instructions(Message::Switch(SwitchMessage { id_a: 0, id_b: 1 }));
    assert_eq!(failure_text(&r).as_deref(), Some("Only queued or stashed tasks can be switched."));
    assert_eq!(d.task(0).unwrap().command, "second");
}

#[test]
fn remove_clear_reset_status() {
    let mut d = Daemon::new(1);
    add(&mut d, &["a"], "/");
    add(&mut d, &["b"], "/");
    add(&mut d, &["c"], "/");
    d.start_process(0, 0).unwrap();
    let r = d.handle_instructions(Message::Remove(RemoveMessage { indices: vec![0, 1] }));
    assert_eq!(success_text(&r).as_deref(), Some("Request applied to every task."));
    assert!(d.task(0).is_none());
    assert!(d.task(1).is_none());
    assert_eq!(d.take_signals(), vec![(0, Signal::Terminate)]);
    assert_eq!(d.process_exited(0, None, String::new(), String::new(), 1), Err(QueueError::NotFound));
    let r = d.handle_instructions(Message::Remove(RemoveMessage { indices: vec![1] }));
    assert_eq!(failure_text(&r).as_deref(), Some("1 task(s) could not be updated."));
    let r = d.handle_instructions(Message::Status);
    assert_eq!(success_text(&r).as_deref(), Some("2 Queued c\n"));
    let r = d.handle_instructions(Message::Remove(RemoveMessage { indices: vec![] }));
    assert_eq!(success_text(&r).as_deref(), Some("Request applied to every task."));
    add(&mut d, &["d"], "/");
    d.start_process(2, 2).unwrap();
    let r = d.handle_instructions(Message::Status);
    assert_eq!(success_text(&r).as_deref(), Some("2 Running c\n3 Queued d\n"));
    d.handle_instructions(Message::Clear);
    assert!(d.task(3).is_some());
    let r = d.handle_instructions(Message::Reset);
    assert!(success_text(&r).is_some());
    assert!(d.task(3).is_none());
    assert!(d.task(2).is_some());
    assert_eq!(d.take_signals(), vec![(2, Signal::Terminate)]);
    assert_eq!(d.process_exited(2, Some(0), String::new(), String::new(), 3), Ok(TaskStatus::Killed));
    d.handle_instructions(Message::Clear);
    assert!(d.task(2).is_none());
    let r = d.handle_instructions(Message::Status);
    assert_eq!(success_text(&r).as_deref(), Some(""));
}

#[test]
fn responses_are_not_requests() {
    let mut d = Daemon::new(1);
    let r = d.handle_instructions(create_success_message("x".to_string()));
    assert_eq!(failure_text(&r).as_deref(), Some("The daemon does not accept this message."));
    let r = d.handle_instructions(create_failure_message("y".to_string()));
    assert!(failure_text(&r).is_some());
    match create_failure_message("z".to_string()) {
        Message::Failure(f) => assert_eq!(f.text, "z"),
        _ => panic!("expected a failure"),
    }
}

#[test]
fn pause_and_start_need_a_fitting_state() {
    let mut d = Daemon::new(1);
    add(&mut d, &["a"], "/");
    d.handle_instructions(Message::Pause(PauseMessage { indices: vec![0] }));
    assert_eq!(d.task(0).unwrap().status, TaskStatus::Queued);
    let r = d.handle_instructions(Message::Start(StartMessage { indices: vec![0] }));
    assert!(failure_text(&r).is_some());
}

#[test]
fn text_helpers() {
    let mut s = String::from("n=");
    push_decimal(&mut s, 0);
    s.push(',');
    push_decimal(&mut s, 1207);
    assert_eq!(s, "n=0,1207");
    let words = vec!["echo".to_string(), "a b".to_string(), "".to_string()];
    assert_eq!(join_words(&words), "echo a b ");
    assert_eq!(join_words(&vec![]), "");
    assert_eq!(join_words(&vec!["x".to_string()]), "x");
}
