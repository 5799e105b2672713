//! The decisions of the stdio plugin broker: it attaches each request to the
//! task with the identifier the coordinator would derive, resets a failed
//! one, creates a missing one, and polls until the task ends.
use vstd::prelude::*;
use crate::address::{leb128, MinerAddress};
use crate::ids::{gen_task_id, task_id_of};
use crate::model::{RepoError, Task, TaskState, TaskType};

verus! {

/// The line a broker prints once, before any response.
pub fn ready_msg(name: &str) -> (r: String)
    ensures
        r@ == name@ + " processor ready\n"@,
{
    let mut r = String::from_str(name);
    r.append(" processor ready\n");
    r
}

/// The miner address and the task identifier of a request from actor
/// `miner_id` whose input serialises to `params`.
pub fn plugin_task(miner_id: u64, params: &[u8]) -> (r: (MinerAddress, String))
    ensures
        r.0.payload@ == leb128(miner_id as nat),
        r.1@ == task_id_of(leb128(miner_id as nat), TaskType::C2, params@),
{
    let addr = MinerAddress::from_actor_id(miner_id);
    let id = gen_task_id(addr.payload.as_slice(), TaskType::C2, params);
    (addr, id)
}

/// What the broker does after its first lookup of the task.
pub enum LookupAction {
    /// The task exists: poll it.
    Track,
    /// The task failed before: set it back to `Init`, then poll it.
    ResetThenTrack,
    /// The task does not exist: submit it, then poll it.
    Create,
    /// The lookup failed: answer the request with this error.
    Fail(String),
}

pub fn on_lookup(answer: &Result<Task, RepoError>) -> (r: LookupAction)
    ensures
        answer matches Ok(t) ==> if t.state == TaskState::Error {
            r is ResetThenTrack
        } else {
            r is Track
        },
        answer matches Err(e) ==> if e is NotFound {
            r is Create
        } else {
            r is Fail
        },
{
    match answer {
        Ok(t) => {
            if t.state == TaskState::Error {
                LookupAction::ResetThenTrack
            } else {
                LookupAction::Track
            }
        },
        Err(RepoError::NotFound(_)) => LookupAction::Create,
        Err(RepoError::AlreadyExists(m)) => LookupAction::Fail(m.clone()),
        Err(RepoError::InvalidParams(m)) => LookupAction::Fail(m.clone()),
        Err(RepoError::NoWork) => LookupAction::Fail(String::new()),
    }
}

/// What one poll of the task tells the broker.
pub enum PollOutcome {
    /// Not finished, or the poll failed: poll again later.
    Wait,
    /// Completed with this proof.
    Done(Vec<u8>),
    /// Failed with this message.
    Failed(String),
}

pub fn on_poll(answer: Result<Task, RepoError>) -> (r: PollOutcome)
    ensures
        answer is Err ==> r is Wait,
        answer matches Ok(t) ==> match t.state {
            TaskState::Completed => (r matches PollOutcome::Done(p) && p@ == t.proof@),
            TaskState::Error => (r matches PollOutcome::Failed(m) && m@ == t.error_msg@),
            _ => r is Wait,
        },
{
    match answer {
        Ok(t) => match t.state {
            TaskState::Completed => PollOutcome::Done(t.proof),
            TaskState::Error => PollOutcome::Failed(t.error_msg),
            _ => PollOutcome::Wait,
        },
        Err(_) => PollOutcome::Wait,
    }
}

/// One response line's content: exactly one of the error and the proof.
pub struct PluginResponse {
    pub id: u64,
    pub err_msg: Option<String>,
    pub output: Option<Vec<u8>>,
}

/// The response to request `id` once its task ended; `None` while it runs.
pub fn response_for(id: u64, outcome: PollOutcome) -> (r: Option<PluginResponse>)
    ensures
        outcome is Wait <==> r is None,
        r matches Some(resp) ==> resp.id == id && (resp.err_msg is Some <==> resp.output is None),
        outcome matches PollOutcome::Done(p) ==> (r matches Some(resp) && resp.output matches Some(o) && o@ == p@),
        outcome matches PollOutcome::Failed(m) ==> (r matches Some(resp) && resp.err_msg matches Some(e) && e@ == m@),
{
    match outcome {
        PollOutcome::Wait => None,
        PollOutcome::Done(p) => Some(PluginResponse { id, err_msg: None, output: Some(p) }),
        PollOutcome::Failed(m) => Some(PluginResponse { id, err_msg: Some(m), output: None }),
    }
}

/// The response to request `id` when handling it failed before polling.
pub fn error_response(id: u64, msg: String) -> (r: PluginResponse)
    ensures
        r.id == id,
        r.err_msg matches Some(e) && e@ == msg@,
        r.output is None,
{
    PluginResponse { id, err_msg: Some(msg), output: None }
}

} // verus!
