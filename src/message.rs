//! The request and response values exchanged between client and daemon.
use vstd::prelude::*;

verus! {

/// A request sent by a client, or the daemon's response to it.
#[derive(Debug)]
pub enum Message {
    Add(AddMessage),
    Remove(RemoveMessage),
    Switch(SwitchMessage),
    Start(StartMessage),
    Pause(PauseMessage),
    Kill(KillMessage),
    Reset,
    Clear,
    Status,
    Success(SuccessMessage),
    Failure(FailureMessage),
}

/// Queue a new command; its words are joined by single spaces.
#[derive(Debug)]
pub struct AddMessage {
    pub command: Vec<String>,
    pub path: String,
}

#[derive(Debug)]
pub struct RemoveMessage {
    pub indices: Vec<usize>,
}

/// Exchange the command and path of two waiting tasks.
#[derive(Debug)]
pub struct SwitchMessage {
    pub id_a: usize,
    pub id_b: usize,
}

#[derive(Debug)]
pub struct StartMessage {
    pub indices: Vec<usize>,
}

#[derive(Debug)]
pub struct PauseMessage {
    pub indices: Vec<usize>,
}

#[derive(Debug)]
pub struct KillMessage {
    pub indices: Vec<usize>,
}

#[derive(Debug)]
pub struct SuccessMessage {
    pub text: String,
}

#[derive(Debug)]
pub struct FailureMessage {
    pub text: String,
}

pub fn create_success_message(text: String) -> (r: Message)
    ensures
        r == Message::Success(SuccessMessage { text: text }),
{
    Message::Success(SuccessMessage { text: text })
}

pub fn create_failure_message(text: String) -> (r: Message)
    ensures
        r == Message::Failure(FailureMessage { text: text }),
{
    Message::Failure(FailureMessage { text: text })
}

} // verus!
