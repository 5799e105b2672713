use vstd::prelude::*;

verus! {

/// Lifecycle state of a task. The numeric codes are stable on the wire and on disk.
#[derive(Debug, Clone, Copy, PartialEq, Eq, Structural)]
pub enum TaskState {
    Undefined,
    Init,
    Running,
    Error,
    Completed,
}

/// Numeric code of a task state.
pub open spec fn state_code(s: TaskState) -> i32 {
    match s {
        TaskState::Undefined => 0,
        TaskState::Init => 1,
        TaskState::Running => 2,
        TaskState::Error => 3,
        TaskState::Completed => 4,
    }
}

impl TaskState {
    pub fn code(&self) -> (r: i32)
        ensures
            r == state_code(*self),
    {
        match self {
            TaskState::Undefined => 0,
            TaskState::Init => 1,
            TaskState::Running => 2,
            TaskState::Error => 3,
            TaskState::Completed => 4,
        }
    }

    /// The state with the given code; `None` for a code outside `0..=4`.
    pub fn from_code(c: i32) -> (r: Option<TaskState>)
        ensures
            r matches Some(s) ==> state_code(s) == c,
            r is None <==> !(0 <= c <= 4),
    {
        if c == 0 {
            Some(TaskState::Undefined)
        } else if c == 1 {
            Some(TaskState::Init)
        } else if c == 2 {
            Some(TaskState::Running)
        } else if c == 3 {
            Some(TaskState::Error)
        } else if c == 4 {
            Some(TaskState::Completed)
        } else {
            None
        }
    }
}

/// The primitive family a task runs. Only the commit-phase-2 proof exists.
#[derive(Debug, Clone, Copy, PartialEq, Eq, Structural)]
pub enum TaskType {
    C2,
}

pub open spec fn type_code(t: TaskType) -> i32 {
    match t {
        TaskType::C2 => 0,
    }
}

pub open spec fn kind_label(t: TaskType) -> Seq<char> {
    match t {
        TaskType::C2 => seq!['C', '2'],
    }
}

impl TaskType {
    pub fn code(&self) -> (r: i32)
        ensures
            r == type_code(*self),
    {
        match self {
            TaskType::C2 => 0,
        }
    }

    /// The task type with the given code; `None` for an unknown code.
    pub fn from_code(c: i32) -> (r: Option<TaskType>)
        ensures
            r matches Some(t) ==> type_code(t) == c,
            r is None <==> c != 0,
    {
        if c == 0 {
            Some(TaskType::C2)
        } else {
            None
        }
    }
}

/// Textual name of a task type, as used in worker registrations.
pub fn task_type_to_string(t: TaskType) -> (r: String)
    ensures
        r@ == kind_label(t),
{
    let r = String::from_str("C2");
    proof {
        reveal_strlit("C2");
    }
    r
}

/// A unit of work: one proof computation requested on behalf of a miner.
#[derive(Debug, Clone)]
pub struct Task {
    pub id: String,
    pub miner: String,
    pub resource_id: String,
    pub proof: Vec<u8>,
    pub worker_id: String,
    pub task_type: TaskType,
    pub error_msg: String,
    pub comment: String,
    pub state: TaskState,
    pub create_at: i64,
    pub start_at: i64,
    pub complete_at: i64,
}

/// The mathematical value of a [`Task`].
pub struct TaskView {
    pub id: Seq<char>,
    pub miner: Seq<char>,
    pub resource_id: Seq<char>,
    pub proof: Seq<u8>,
    pub worker_id: Seq<char>,
    pub task_type: TaskType,
    pub error_msg: Seq<char>,
    pub comment: Seq<char>,
    pub state: TaskState,
    pub create_at: i64,
    pub start_at: i64,
    pub complete_at: i64,
}

impl View for Task {
    type V = TaskView;

    open spec fn view(&self) -> TaskView {
        TaskView {
            id: self.id@,
            miner: self.miner@,
            resource_id: self.resource_id@,
            proof: self.proof@,
            worker_id: self.worker_id@,
            task_type: self.task_type,
            error_msg: self.error_msg@,
            comment: self.comment@,
            state: self.state,
            create_at: self.create_at,
            start_at: self.start_at,
            complete_at: self.complete_at,
        }
    }
}

/// A new byte vector with the same contents.
pub fn copy_bytes(v: &Vec<u8>) -> (r: Vec<u8>)
    ensures
        r@ == v@,
{
    let mut r: Vec<u8> = Vec::with_capacity(v.len());
    let mut i: usize = 0;
    while i < v.len()
        invariant
            i <= v@.len(),
            r@ == v@.subrange(0, i as int),
        decreases v@.len() - i,
    {
        r.push(v[i]);
        i = i + 1;
        assert(r@ =~= v@.subrange(0, i as int));
    }
    assert(r@ =~= v@);
    r
}

impl Task {
    /// A new task value equal to this one.
    pub fn duplicate(&self) -> (r: Task)
        ensures
            r@ == self@,
    {
        Task {
            id: self.id.clone(),
            miner: self.miner.clone(),
            resource_id: self.resource_id.clone(),
            proof: copy_bytes(&self.proof),
            worker_id: self.worker_id.clone(),
            task_type: self.task_type,
            error_msg: self.error_msg.clone(),
            comment: self.comment.clone(),
            state: self.state,
            create_at: self.create_at,
            start_at: self.start_at,
            complete_at: self.complete_at,
        }
    }
}

/// Liveness record of a worker, refreshed on every report.
#[derive(Debug, Clone)]
pub struct WorkerState {
    pub id: String,
    pub worker_id: String,
    pub ips: String,
    pub support_types: String,
    pub update_at: i64,
    pub create_at: i64,
}

/// The mathematical value of a [`WorkerState`].
pub struct WorkerStateView {
    pub id: Seq<char>,
    pub worker_id: Seq<char>,
    pub ips: Seq<char>,
    pub support_types: Seq<char>,
    pub update_at: i64,
    pub create_at: i64,
}

impl View for WorkerState {
    type V = WorkerStateView;

    open spec fn view(&self) -> WorkerStateView {
        WorkerStateView {
            id: self.id@,
            worker_id: self.worker_id@,
            ips: self.ips@,
            support_types: self.support_types@,
            update_at: self.update_at,
            create_at: self.create_at,
        }
    }
}

impl WorkerState {
    /// A new record equal to this one.
    pub fn duplicate(&self) -> (r: WorkerState)
        ensures
            r@ == self@,
    {
        WorkerState {
            id: self.id.clone(),
            worker_id: self.worker_id.clone(),
            ips: self.ips.clone(),
            support_types: self.support_types.clone(),
            update_at: self.update_at,
            create_at: self.create_at,
        }
    }
}

/// A stored input blob, addressed by an identifier derived from its bytes.
#[derive(Debug, Clone)]
pub struct ResourceInfo {
    pub id: String,
    pub data: Vec<u8>,
    pub create_at: i64,
}

/// The mathematical value of a [`ResourceInfo`].
pub struct ResourceInfoView {
    pub id: Seq<char>,
    pub data: Seq<u8>,
    pub create_at: i64,
}

impl View for ResourceInfo {
    type V = ResourceInfoView;

    open spec fn view(&self) -> ResourceInfoView {
        ResourceInfoView { id: self.id@, data: self.data@, create_at: self.create_at }
    }
}

/// Failures of the task store and of the coordinator.
#[derive(Debug, Clone)]
pub enum RepoError {
    /// No row with the given identifier.
    NotFound(String),
    /// A row with the given identifier exists already.
    AlreadyExists(String),
    /// No task is waiting for the asking worker.
    NoWork,
    /// A malformed argument.
    InvalidParams(String),
}

/// Turns an absent lookup result into a `NotFound` error naming what was looked for.
pub trait IfNotFound<T>: Sized {
    /// The value looked up, if it was found.
    spec fn found(&self) -> Option<T>;

    fn if_not_found(self, what: String) -> (r: Result<T, RepoError>)
        ensures
            match self.found() {
                Some(t) => r == Ok::<T, RepoError>(t),
                None => (r matches Err(e) && e is NotFound),
            },
    ;
}

impl<T> IfNotFound<T> for Option<T> {
    open spec fn found(&self) -> Option<T> {
        *self
    }

    fn if_not_found(self, what: String) -> (r: Result<T, RepoError>)
    {
        match self {
            Some(t) => Ok(t),
            None => Err(RepoError::NotFound(what)),
        }
    }
}

} // verus!
