//! The task store: tasks, input resources and worker registrations, with the
//! transitions that the coordinator applies to them.
use vstd::prelude::*;
use crate::model::{copy_bytes, RepoError, ResourceInfo, ResourceInfoView, Task, TaskState, TaskType, TaskView, WorkerState, WorkerStateView};
use crate::seqs::{lemma_newest_first_positions, count_where, lemma_count_positive, lemma_count_update, lemma_newest_first_push, any, first_where, is_first, lemma_first_where_is, lemma_first_where_none, lemma_first_where_some, newest_first, oldest_first};

verus! {

/// The mathematical value of a [`Store`].
pub struct StoreView {
    pub tasks: Seq<TaskView>,
    pub resources: Seq<ResourceInfoView>,
    pub workers: Seq<WorkerStateView>,
    pub worker_info: Option<Seq<char>>,
}

/// Tasks ordered by creation time (oldest first), input blobs, and worker
/// registrations ordered by creation time.
pub struct Store {
    tasks: Vec<Task>,
    resources: Vec<ResourceInfo>,
    workers: Vec<WorkerState>,
    worker_info: Option<String>,
}

impl View for Store {
    type V = StoreView;

    closed spec fn view(&self) -> StoreView {
        StoreView {
            tasks: task_views(self.tasks@),
            resources: self.resources@.map_values(|r: ResourceInfo| r@),
            workers: self.workers@.map_values(|w: WorkerState| w@),
            worker_info: match self.worker_info {
                Some(s) => Some(s@),
                None => None,
            },
        }
    }
}

/// The values of a sequence of tasks.
pub open spec fn task_views(v: Seq<Task>) -> Seq<TaskView> {
    v.map_values(|t: Task| t@)
}

/// The values of a sequence of worker records.
pub open spec fn worker_views(v: Seq<WorkerState>) -> Seq<WorkerStateView> {
    v.map_values(|w: WorkerState| w@)
}

/// The values of a sequence of strings.
pub open spec fn string_views(v: Seq<String>) -> Seq<Seq<char>> {
    v.map_values(|s: String| s@)
}

/// The value of an optional list of task types; `None` stands for every type.
pub open spec fn kinds_view(kinds: Option<Vec<TaskType>>) -> Option<Seq<TaskType>> {
    match kinds {
        Some(v) => Some(v@),
        None => None,
    }
}

pub open spec fn kinds_allow(kinds: Option<Seq<TaskType>>, k: TaskType) -> bool {
    match kinds {
        Some(ks) => ks.contains(k),
        None => true,
    }
}

/// A task waiting in `Init` whose type the asking worker accepts.
pub open spec fn todo_for(kinds: Option<Seq<TaskType>>) -> spec_fn(TaskView) -> bool {
    |t: TaskView| t.state == TaskState::Init && kinds_allow(kinds, t.task_type)
}

/// A task that worker `w` runs.
pub open spec fn running_for(w: Seq<char>) -> spec_fn(TaskView) -> bool {
    |t: TaskView| t.state == TaskState::Running && t.worker_id == w
}

/// A task selected by a listing filter: by worker, and by a set of states.
pub open spec fn listed_by(w: Option<Seq<char>>, states: Option<Seq<TaskState>>) -> spec_fn(
    TaskView,
) -> bool {
    |t: TaskView|
        (match w {
            Some(w) => t.worker_id == w,
            None => true,
        }) && (match states {
            Some(ss) => ss.contains(t.state),
            None => true,
        })
}

/// A task as a claim leaves it: running under worker `w` since `now`.
pub open spec fn claimed_view(t: TaskView, w: Seq<char>, now: i64) -> TaskView {
    TaskView { state: TaskState::Running, worker_id: w, start_at: now, ..t }
}

/// The outcome of a claim by worker `w`: the oldest waiting task of an accepted
/// type turns `Running`; `None` when there is none.
pub open spec fn claim_spec(
    s: StoreView,
    w: Seq<char>,
    kinds: Option<Seq<TaskType>>,
    now: i64,
) -> Option<(StoreView, TaskView)> {
    match first_where(s.tasks, todo_for(kinds)) {
        Some(i) => {
            let t = claimed_view(s.tasks[i], w, now);
            Some((StoreView { tasks: s.tasks.update(i, t), ..s }, t))
        },
        None => None,
    }
}

/// A task after `RecordProof(w, id, proof)` at `now`: only a running task changes.
pub open spec fn proof_recorded(
    t: TaskView,
    w: Seq<char>,
    id: Seq<char>,
    proof: Seq<u8>,
    now: i64,
) -> TaskView {
    if t.id == id && t.state == TaskState::Running {
        TaskView {
            state: TaskState::Completed,
            worker_id: w,
            proof,
            error_msg: Seq::empty(),
            complete_at: now,
            ..t
        }
    } else {
        t
    }
}

/// A task after `RecordError(w, id, msg)`: every task but a completed one
/// takes the error.
pub open spec fn error_recorded(t: TaskView, w: Seq<char>, id: Seq<char>, msg: Seq<char>) -> TaskView {
    if t.id == id && t.state != TaskState::Completed {
        TaskView { state: TaskState::Error, worker_id: w, error_msg: msg, ..t }
    } else {
        t
    }
}

/// A task after the operator sets the state of the tasks `ids` to `st`.
pub open spec fn status_forced(t: TaskView, ids: Seq<Seq<char>>, st: TaskState) -> TaskView {
    if ids.contains(t.id) {
        TaskView { state: st, ..t }
    } else {
        t
    }
}

pub open spec fn record_proof_spec(
    s: StoreView,
    w: Seq<char>,
    id: Seq<char>,
    proof: Seq<u8>,
    now: i64,
) -> StoreView {
    StoreView { tasks: s.tasks.map_values(|t: TaskView| proof_recorded(t, w, id, proof, now)), ..s }
}

pub open spec fn record_error_spec(s: StoreView, w: Seq<char>, id: Seq<char>, msg: Seq<char>) -> StoreView {
    StoreView { tasks: s.tasks.map_values(|t: TaskView| error_recorded(t, w, id, msg)), ..s }
}

pub open spec fn update_status_spec(s: StoreView, ids: Seq<Seq<char>>, st: TaskState) -> StoreView {
    StoreView { tasks: s.tasks.map_values(|t: TaskView| status_forced(t, ids, st)), ..s }
}

/// A worker whose last report is older than `dur` seconds before `now`.
pub open spec fn offline_since(dur: i64, now: i64) -> spec_fn(WorkerStateView) -> bool {
    |w: WorkerStateView| w.update_at < now - dur
}

pub open spec fn every_worker() -> spec_fn(WorkerStateView) -> bool {
    |w: WorkerStateView| true
}

/// Where a worker row created at `now` goes: after every row created at or before `now`.
pub open spec fn worker_insert_pos(ws: Seq<WorkerStateView>, now: i64) -> int {
    match first_where(ws, worker_created_after(now)) {
        Some(i) => i,
        None => ws.len() as int,
    }
}

/// The registry after worker `worker_id` reports at `now`; `row_id` names a row
/// that this report creates.
pub open spec fn report_worker_spec(
    s: StoreView,
    worker_id: Seq<char>,
    ips: Seq<char>,
    support_types: Seq<char>,
    now: i64,
    row_id: Seq<char>,
) -> StoreView {
    match first_where(s.workers, worker_id_is(worker_id)) {
        Some(i) => StoreView {
            workers: s.workers.update(
                i,
                WorkerStateView { ips, support_types, update_at: now, ..s.workers[i] },
            ),
            ..s
        },
        None => StoreView {
            workers: s.workers.insert(
                worker_insert_pos(s.workers, now),
                WorkerStateView { id: row_id, worker_id, ips, support_types, update_at: now, create_at: now },
            ),
            ..s
        },
    }
}

pub open spec fn opt_string_view(o: Option<String>) -> Option<Seq<char>> {
    match o {
        Some(s) => Some(s@),
        None => None,
    }
}

pub open spec fn opt_states_view(o: Option<Vec<TaskState>>) -> Option<Seq<TaskState>> {
    match o {
        Some(v) => Some(v@),
        None => None,
    }
}

pub open spec fn task_id_is(id: Seq<char>) -> spec_fn(TaskView) -> bool {
    |t: TaskView| t.id == id
}

pub open spec fn resource_id_is(id: Seq<char>) -> spec_fn(ResourceInfoView) -> bool {
    |r: ResourceInfoView| r.id == id
}

pub open spec fn worker_id_is(worker_id: Seq<char>) -> spec_fn(WorkerStateView) -> bool {
    |w: WorkerStateView| w.worker_id == worker_id
}

pub open spec fn row_id_is(id: Seq<char>) -> spec_fn(WorkerStateView) -> bool {
    |w: WorkerStateView| w.id == id
}

pub open spec fn task_created_after(now: i64) -> spec_fn(TaskView) -> bool {
    |t: TaskView| t.create_at > now
}

pub open spec fn worker_created_after(now: i64) -> spec_fn(WorkerStateView) -> bool {
    |w: WorkerStateView| w.create_at > now
}

/// Well-formedness: identifiers are unique and rows are kept in creation order.
pub open spec fn store_wf(s: StoreView) -> bool {
    &&& forall|i: int, j: int|
        0 <= i < s.tasks.len() && 0 <= j < s.tasks.len() && i != j ==> #[trigger] s.tasks[i].id
            != #[trigger] s.tasks[j].id
    &&& forall|i: int, j: int|
        0 <= i <= j < s.tasks.len() ==> #[trigger] s.tasks[i].create_at
            <= #[trigger] s.tasks[j].create_at
    &&& forall|i: int, j: int|
        0 <= i < s.resources.len() && 0 <= j < s.resources.len() && i != j
            ==> #[trigger] s.resources[i].id != #[trigger] s.resources[j].id
    &&& forall|i: int, j: int|
        0 <= i < s.workers.len() && 0 <= j < s.workers.len() && i != j
            ==> #[trigger] s.workers[i].worker_id != #[trigger] s.workers[j].worker_id
    &&& forall|i: int, j: int|
        0 <= i < s.workers.len() && 0 <= j < s.workers.len() && i != j
            ==> #[trigger] s.workers[i].id != #[trigger] s.workers[j].id
    &&& forall|i: int, j: int|
        0 <= i <= j < s.workers.len() ==> #[trigger] s.workers[i].create_at
            <= #[trigger] s.workers[j].create_at
}

/// The store holds a task with this identifier.
pub open spec fn has_task_spec(s: StoreView, id: Seq<char>) -> bool {
    any(s.tasks, task_id_is(id))
}

/// The row of a fresh task, as `AddTask` creates it.
pub open spec fn new_task_view(
    id: Seq<char>,
    miner: Seq<char>,
    task_type: TaskType,
    resource_id: Seq<char>,
    comment: Seq<char>,
    now: i64,
) -> TaskView {
    TaskView {
        id,
        miner,
        resource_id,
        proof: Seq::empty(),
        worker_id: Seq::empty(),
        task_type,
        error_msg: Seq::empty(),
        comment,
        state: TaskState::Init,
        create_at: now,
        start_at: 0,
        complete_at: 0,
    }
}

/// Where a row created at `now` goes: after every row created at or before `now`.
pub open spec fn task_insert_pos(ts: Seq<TaskView>, now: i64) -> int {
    match first_where(ts, task_created_after(now)) {
        Some(i) => i,
        None => ts.len() as int,
    }
}

/// The store after inserting the fresh task `t`.
pub open spec fn add_task_spec(s: StoreView, t: TaskView) -> StoreView {
    StoreView { tasks: s.tasks.insert(task_insert_pos(s.tasks, t.create_at), t), ..s }
}

impl Store {
    pub open spec fn wf(&self) -> bool {
        store_wf(self@)
    }

    /// An empty store.
    pub fn new() -> (r: Store)
        ensures
            r.wf(),
            r@.tasks.len() == 0,
            r@.resources.len() == 0,
            r@.workers.len() == 0,
            r@.worker_info is None,
    {
        Store { tasks: Vec::new(), resources: Vec::new(), workers: Vec::new(), worker_info: None }
    }

    /// Position of the task with identifier `id`.
    fn find_task(&self, id: &String) -> (r: Option<usize>)
        ensures
            r matches Some(i) ==> is_first(self@.tasks, task_id_is(id@), i as int),
            r is None ==> !any(self@.tasks, task_id_is(id@)),
    {
        let mut i: usize = 0;
        while i < self.tasks.len()
            invariant
                i <= self.tasks@.len(),
                forall|j: int| 0 <= j < i ==> !task_id_is(id@)(#[trigger] self@.tasks[j]),
            decreases self.tasks@.len() - i,
        {
            if self.tasks[i].id == *id {
                return Some(i);
            }
            i = i + 1;
        }
        proof {
            lemma_first_where_none(self@.tasks, task_id_is(id@));
        }
        None
    }

    /// Whether a task with identifier `id` exists.
    pub fn has_task(&self, id: &String) -> (r: bool)
        ensures
            r == has_task_spec(self@, id@),
    {
        match self.find_task(id) {
            Some(_) => true,
            None => false,
        }
    }

    /// The task with identifier `id`.
    pub fn fetch(&self, id: &String) -> (r: Result<Task, RepoError>)
        requires
            self.wf(),
        ensures
            r is Ok <==> has_task_spec(self@, id@),
            r matches Ok(t) ==> t@.id == id@ && self@.tasks.contains(t@),
            r matches Err(e) ==> e is NotFound,
    {
        match self.find_task(id) {
            Some(i) => {
                let t = self.tasks[i].duplicate();
                assert(self@.tasks[i as int] == t@);
                Ok(t)
            },
            None => Err(RepoError::NotFound(id.clone())),
        }
    }

    /// The state of the task with identifier `id`.
    pub fn get_status(&self, id: &String) -> (r: Result<TaskState, RepoError>)
        requires
            self.wf(),
        ensures
            r is Ok <==> has_task_spec(self@, id@),
            r matches Ok(st) ==> exists|i: int|
                0 <= i < self@.tasks.len() && self@.tasks[i].id == id@ && #[trigger] self@.tasks[i].state == st,
            r matches Err(e) ==> e is NotFound,
    {
        match self.find_task(id) {
            Some(i) => {
                assert(self@.tasks[i as int].state == self.tasks[i as int].state);
                Ok(self.tasks[i].state)
            },
            None => Err(RepoError::NotFound(id.clone())),
        }
    }

    /// Inserts a fresh task in state `Init`, created at `now`. Fails with
    /// `AlreadyExists` when the identifier is taken.
    pub fn add_task_at(
        &mut self,
        id: String,
        miner: String,
        task_type: TaskType,
        resource_id: String,
        comment: String,
        now: i64,
    ) -> (r: Result<String, RepoError>)
        requires
            old(self).wf(),
        ensures
            final(self).wf(),
            r is Err <==> has_task_spec(old(self)@, id@),
            r matches Err(e) ==> e is AlreadyExists && final(self)@ == old(self)@,
            r matches Ok(rid) ==> rid@ == id@ && final(self)@ == add_task_spec(
                old(self)@,
                new_task_view(id@, miner@, task_type, resource_id@, comment@, now),
            ),
    {
        if self.has_task(&id) {
            return Err(RepoError::AlreadyExists(id));
        }
        let ghost s0 = self@;
        let mut p: usize = 0;
        while p < self.tasks.len() && self.tasks[p].create_at <= now
            invariant
                p <= self.tasks@.len(),
                forall|j: int| 0 <= j < p ==> !task_created_after(now)(#[trigger] self@.tasks[j]),
            decreases self.tasks@.len() - p,
        {
            p = p + 1;
        }
        proof {
            if p < self.tasks@.len() {
                lemma_first_where_is(s0.tasks, task_created_after(now), p as int);
            } else {
                lemma_first_where_none(s0.tasks, task_created_after(now));
            }
        }
        let t = Task {
            id: id.clone(),
            miner,
            resource_id,
            proof: Vec::new(),
            worker_id: String::new(),
            task_type,
            error_msg: String::new(),
            comment,
            state: TaskState::Init,
            create_at: now,
            start_at: 0,
            complete_at: 0,
        };
        self.tasks.insert(p, t);
        proof {
            let nt = t@;
            assert(self@.tasks =~= s0.tasks.insert(p as int, nt));
            assert(nt.proof =~= Seq::<u8>::empty());
            assert(nt.worker_id =~= Seq::<char>::empty());
            assert(nt.error_msg =~= Seq::<char>::empty());
            let ts = self@.tasks;
            assert forall|i: int, j: int|
                0 <= i < ts.len() && 0 <= j < ts.len() && i != j implies #[trigger] ts[i].id
                    != #[trigger] ts[j].id by {
                if i == p {
                    let jj = if j < p { j } else { j - 1 };
                    assert(ts[j] == s0.tasks[jj]);
                    assert(!task_id_is(id@)(s0.tasks[jj]));
                } else if j == p {
                    let ii = if i < p { i } else { i - 1 };
                    assert(ts[i] == s0.tasks[ii]);
                    assert(!task_id_is(id@)(s0.tasks[ii]));
                }
            }
            assert forall|i: int, j: int|
                0 <= i <= j < ts.len() implies #[trigger] ts[i].create_at
                    <= #[trigger] ts[j].create_at by {
                if i < p && j > p {
                    assert(!task_created_after(now)(s0.tasks[i]));
                    assert(ts[j] == s0.tasks[j - 1]);
                    assert(task_created_after(now)(s0.tasks[p as int]));
                } else if i == p && j > p {
                    assert(task_created_after(now)(s0.tasks[p as int]));
                } else if j == p && i < p {
                    assert(!task_created_after(now)(s0.tasks[i]));
                }
            }
        }
        Ok(id)
    }

    /// Whether `k` is among the accepted types; every type when `kinds` is `None`.
    fn accepts(kinds: &Option<Vec<TaskType>>, k: TaskType) -> (r: bool)
        ensures
            r == kinds_allow(kinds_view(*kinds), k),
    {
        match kinds {
            None => true,
            Some(ks) => {
                assert(kinds_view(*kinds) == Some(ks@));
                let mut i: usize = 0;
                while i < ks.len()
                    invariant
                        kinds_view(*kinds) == Some(ks@),
                        i <= ks@.len(),
                        forall|j: int| 0 <= j < i ==> ks@[j] != k,
                    decreases ks@.len() - i,
                {
                    if ks[i] == k {
                        assert(ks@[i as int] == k);
                        assert(ks@.contains(k));
                        return true;
                    }
                    i = i + 1;
                }
                false
            },
        }
    }

    /// Claims the oldest task in `Init` of a type in `kinds` for worker
    /// `worker_id` at `now`: it turns `Running` under that worker. Fails with
    /// `NoWork` when no such task waits, and with `InvalidParams` for an empty
    /// worker identifier.
    pub fn fetch_one_todo_at(
        &mut self,
        worker_id: String,
        kinds: Option<Vec<TaskType>>,
        now: i64,
    ) -> (r: Result<Task, RepoError>)
        requires
            old(self).wf(),
        ensures
            final(self).wf(),
            worker_id@.len() == 0 ==> (r matches Err(e) && e is InvalidParams),
            worker_id@.len() > 0 ==> match claim_spec(old(self)@, worker_id@, kinds_view(kinds), now) {
                Some((s2, t)) => (r matches Ok(task) && task@ == t && final(self)@ == s2),
                None => (r matches Err(e) && e is NoWork),
            },
            r is Err ==> final(self)@ == old(self)@,
    {
        if worker_id.as_str().unicode_len() == 0 {
            return Err(RepoError::InvalidParams(worker_id));
        }
        assert(worker_id@.len() > 0);
        let ghost s0 = self@;
        let ghost p = todo_for(kinds_view(kinds));
        let mut i: usize = 0;
        while i < self.tasks.len()
            invariant
                self@ == s0,
                old(self)@ == s0,
                store_wf(s0),
                worker_id@.len() > 0,
                p == todo_for(kinds_view(kinds)),
                i <= self.tasks@.len(),
                forall|j: int| 0 <= j < i ==> !p(#[trigger] s0.tasks[j]),
            decreases self.tasks@.len() - i,
        {
            if self.tasks[i].state == TaskState::Init && Self::accepts(&kinds, self.tasks[i].task_type) {
                proof {
                    assert(self@.tasks[i as int] == self.tasks@[i as int]@);
                    lemma_first_where_is(s0.tasks, p, i as int);
                }
                let old_t = self.tasks[i].duplicate();
                let t = Task {
                    state: TaskState::Running,
                    worker_id: worker_id,
                    start_at: now,
                    ..old_t
                };
                assert(t@ == claimed_view(s0.tasks[i as int], worker_id@, now));
                let out = t.duplicate();
                self.tasks.set(i, t);
                proof {
                    assert(self@.resources == s0.resources);
                    assert(self@.workers == s0.workers);
                    assert(self@.worker_info == s0.worker_info);
                    let ts = self@.tasks;
                    assert(ts =~= s0.tasks.update(i as int, claimed_view(s0.tasks[i as int], worker_id@, now)));
                    assert forall|a: int, b: int|
                        0 <= a < ts.len() && 0 <= b < ts.len() && a != b implies #[trigger] ts[a].id
                            != #[trigger] ts[b].id by {
                        assert(s0.tasks[a].id == ts[a].id);
                        assert(s0.tasks[b].id == ts[b].id);
                    }
                    assert forall|a: int, b: int|
                        0 <= a <= b < ts.len() implies #[trigger] ts[a].create_at
                            <= #[trigger] ts[b].create_at by {
                        assert(s0.tasks[a].create_at == ts[a].create_at);
                        assert(s0.tasks[b].create_at == ts[b].create_at);
                    }
                }
                return Ok(out);
            }
            proof {
                assert(self@.tasks[i as int] == self.tasks@[i as int]@);
            }
            i = i + 1;
        }
        proof {
            lemma_first_where_none(s0.tasks, p);
        }
        Err(RepoError::NoWork)
    }

    /// The tasks that worker `worker_id` runs, oldest first: what it resumes after a restart.
    pub fn fetch_uncompleted(&self, worker_id: &String) -> (r: Vec<Task>)
        ensures
            task_views(r@) == oldest_first(self@.tasks, running_for(worker_id@)),
    {
        let ghost ts = self@.tasks;
        let ghost p = running_for(worker_id@);
        let mut out: Vec<Task> = Vec::new();
        let mut i: usize = 0;
        while i < self.tasks.len()
            invariant
                ts == self@.tasks,
                p == running_for(worker_id@),
                i <= self.tasks@.len(),
                task_views(out@) == oldest_first(ts.subrange(0, i as int), p),
            decreases self.tasks@.len() - i,
        {
            proof {
                assert(ts[i as int] == self.tasks@[i as int]@);
                assert(ts.subrange(0, i + 1).drop_last() =~= ts.subrange(0, i as int));
            }
            if self.tasks[i].state == TaskState::Running && self.tasks[i].worker_id == *worker_id {
                out.push(self.tasks[i].duplicate());
                proof {
                    assert(task_views(out@) =~= oldest_first(ts.subrange(0, i as int), p).push(ts[i as int]));
                }
            }
            i = i + 1;
        }
        assert(ts.subrange(0, ts.len() as int) =~= ts);
        out
    }

    /// Records a proof for task `id` at `now`: a running task becomes
    /// `Completed` under `worker_id` with the proof and an empty error message.
    /// A task in another state, or a missing one, is left as it is.
    pub fn record_proof_at(&mut self, worker_id: String, id: &String, proof: Vec<u8>, now: i64)
        requires
            old(self).wf(),
        ensures
            final(self).wf(),
            final(self)@ == record_proof_spec(old(self)@, worker_id@, id@, proof@, now),
    {
        let ghost s0 = self@;
        match self.find_task(id) {
            Some(i) => {
                proof {
                    assert(s0.tasks[i as int] == self.tasks@[i as int]@);
                }
                if self.tasks[i].state == TaskState::Running {
                    let old_t = self.tasks[i].duplicate();
                    let t = Task {
                        state: TaskState::Completed,
                        worker_id: worker_id,
                        proof: proof,
                        error_msg: String::new(),
                        complete_at: now,
                        ..old_t
                    };
                    self.tasks.set(i, t);
                    proof {
                        assert(t@.error_msg =~= Seq::<char>::empty());
                    }
                }
                proof {
                    let ts = self@.tasks;
                    let want = record_proof_spec(s0, worker_id@, id@, proof@, now).tasks;
                    assert forall|k: int| 0 <= k < ts.len() implies ts[k] == want[k] by {
                        if k != i {
                            assert(s0.tasks[k].id != s0.tasks[i as int].id);
                        }
                    }
                    assert(ts =~= want);
                    assert forall|a: int, b: int|
                        0 <= a < ts.len() && 0 <= b < ts.len() && a != b implies #[trigger] ts[a].id
                            != #[trigger] ts[b].id by {
                        assert(s0.tasks[a].id == ts[a].id);
                        assert(s0.tasks[b].id == ts[b].id);
                    }
                    assert forall|a: int, b: int|
                        0 <= a <= b < ts.len() implies #[trigger] ts[a].create_at
                            <= #[trigger] ts[b].create_at by {
                        assert(s0.tasks[a].create_at == ts[a].create_at);
                        assert(s0.tasks[b].create_at == ts[b].create_at);
                    }
                }
            },
            None => {
                proof {
                    let want = record_proof_spec(s0, worker_id@, id@, proof@, now).tasks;
                    assert forall|k: int| 0 <= k < s0.tasks.len() implies s0.tasks[k] == want[k] by {
                        assert(!task_id_is(id@)(s0.tasks[k]));
                    }
                    assert(s0.tasks =~= want);
                }
            },
        }
    }

    /// Records a failure for task `id`: unless it is completed, the task
    /// becomes `Error` under `worker_id` with message `msg`. A completed or a
    /// missing task is left as it is; a repeated report leaves the same row.
    pub fn record_error(&mut self, worker_id: String, id: &String, msg: String)
        requires
            old(self).wf(),
        ensures
            final(self).wf(),
            final(self)@ == record_error_spec(old(self)@, worker_id@, id@, msg@),
    {
        let ghost s0 = self@;
        match self.find_task(id) {
            Some(i) => {
                proof {
                    assert(s0.tasks[i as int] == self.tasks@[i as int]@);
                }
                if self.tasks[i].state != TaskState::Completed {
                    let old_t = self.tasks[i].duplicate();
                    let t = Task {
                        state: TaskState::Error,
                        worker_id: worker_id,
                        error_msg: msg,
                        ..old_t
                    };
                    self.tasks.set(i, t);
                }
                proof {
                    let ts = self@.tasks;
                    let want = record_error_spec(s0, worker_id@, id@, msg@).tasks;
                    assert forall|k: int| 0 <= k < ts.len() implies ts[k] == want[k] by {
                        if k != i {
                            assert(s0.tasks[k].id != s0.tasks[i as int].id);
                        }
                    }
                    assert(ts =~= want);
                    assert forall|a: int, b: int|
                        0 <= a < ts.len() && 0 <= b < ts.len() && a != b implies #[trigger] ts[a].id
                            != #[trigger] ts[b].id by {
                        assert(s0.tasks[a].id == ts[a].id);
                        assert(s0.tasks[b].id == ts[b].id);
                    }
                    assert forall|a: int, b: int|
                        0 <= a <= b < ts.len() implies #[trigger] ts[a].create_at
                            <= #[trigger] ts[b].create_at by {
                        assert(s0.tasks[a].create_at == ts[a].create_at);
                        assert(s0.tasks[b].create_at == ts[b].create_at);
                    }
                }
            },
            None => {
                proof {
                    let want = record_error_spec(s0, worker_id@, id@, msg@).tasks;
                    assert forall|k: int| 0 <= k < s0.tasks.len() implies s0.tasks[k] == want[k] by {
                        assert(!task_id_is(id@)(s0.tasks[k]));
                    }
                    assert(s0.tasks =~= want);
                }
            },
        }
    }

    /// Whether `id` is one of `ids`.
    fn contains_id(ids: &Vec<String>, id: &String) -> (r: bool)
        ensures
            r == string_views(ids@).contains(id@),
    {
        let mut i: usize = 0;
        while i < ids.len()
            invariant
                i <= ids@.len(),
                forall|j: int| 0 <= j < i ==> string_views(ids@)[j] != id@,
            decreases ids@.len() - i,
        {
            if ids[i] == *id {
                assert(string_views(ids@)[i as int] == id@);
                return true;
            }
            i = i + 1;
        }
        false
    }

    /// Operator override: sets the state of every task in `ids` to `state`,
    /// whatever it was, and changes nothing else.
    pub fn update_status_by_id(&mut self, ids: &Vec<String>, state: TaskState)
        requires
            old(self).wf(),
        ensures
            final(self).wf(),
            final(self)@ == update_status_spec(old(self)@, string_views(ids@), state),
    {
        let ghost s0 = self@;
        let ghost want = update_status_spec(s0, string_views(ids@), state).tasks;
        let mut k: usize = 0;
        while k < self.tasks.len()
            invariant
                store_wf(s0),
                want == update_status_spec(s0, string_views(ids@), state).tasks,
                self.tasks@.len() == s0.tasks.len(),
                self@.resources == s0.resources,
                self@.workers == s0.workers,
                self@.worker_info == s0.worker_info,
                k <= self.tasks@.len(),
                forall|j: int| 0 <= j < k ==> #[trigger] self@.tasks[j] == want[j],
                forall|j: int| k <= j < s0.tasks.len() ==> #[trigger] self@.tasks[j] == s0.tasks[j],
            decreases self.tasks@.len() - k,
        {
            let ghost before = self@.tasks;
            proof {
                assert(before[k as int] == s0.tasks[k as int]);
                assert(self.tasks@[k as int]@ == before[k as int]);
            }
            if Self::contains_id(ids, &self.tasks[k].id) {
                let old_t = self.tasks[k].duplicate();
                let t = Task { state, ..old_t };
                self.tasks.set(k, t);
                proof {
                    assert(self@.tasks =~= before.update(k as int, t@));
                }
            }
            proof {
                assert(self@.tasks[k as int] == want[k as int]);
                assert forall|j: int| k < j < s0.tasks.len() implies #[trigger] self@.tasks[j] == s0.tasks[j] by {
                    assert(self@.tasks[j] == before[j]);
                }
                assert forall|j: int| 0 <= j < k implies #[trigger] self@.tasks[j] == want[j] by {
                    assert(self@.tasks[j] == before[j]);
                }
            }
            k = k + 1;
        }
        proof {
            let ts = self@.tasks;
            assert(ts =~= want);
            assert forall|a: int, b: int|
                0 <= a < ts.len() && 0 <= b < ts.len() && a != b implies #[trigger] ts[a].id
                    != #[trigger] ts[b].id by {
                assert(s0.tasks[a].id == ts[a].id);
                assert(s0.tasks[b].id == ts[b].id);
            }
            assert forall|a: int, b: int|
                0 <= a <= b < ts.len() implies #[trigger] ts[a].create_at
                    <= #[trigger] ts[b].create_at by {
                assert(s0.tasks[a].create_at == ts[a].create_at);
                assert(s0.tasks[b].create_at == ts[b].create_at);
            }
        }
    }

    /// Whether task `t` passes a listing filter.
    fn listed(t: &Task, worker_id: &Option<String>, states: &Option<Vec<TaskState>>) -> (r: bool)
        ensures
            r == listed_by(opt_string_view(*worker_id), opt_states_view(*states))(t@),
    {
        let by_worker = match worker_id {
            Some(w) => t.worker_id == *w,
            None => true,
        };
        if !by_worker {
            return false;
        }
        match states {
            None => true,
            Some(ss) => {
                let mut i: usize = 0;
                while i < ss.len()
                    invariant
                        opt_states_view(*states) == Some(ss@),
                        match *worker_id {
                            Some(w) => t.worker_id@ == w@,
                            None => true,
                        },
                        i <= ss@.len(),
                        forall|j: int| 0 <= j < i ==> ss@[j] != t.state,
                    decreases ss@.len() - i,
                {
                    if ss[i] == t.state {
                        assert(ss@[i as int] == t.state);
                        assert(ss@.contains(t.state));
                        return true;
                    }
                    i = i + 1;
                }
                false
            },
        }
    }

    /// The tasks that pass the filters, newest first: those of worker
    /// `worker_id` if given, and in one of `states` if given.
    pub fn list_task(&self, worker_id: &Option<String>, states: &Option<Vec<TaskState>>) -> (r: Vec<Task>)
        ensures
            task_views(r@) == newest_first(
                self@.tasks,
                listed_by(opt_string_view(*worker_id), opt_states_view(*states)),
            ),
    {
        let ghost ts = self@.tasks;
        let ghost p = listed_by(opt_string_view(*worker_id), opt_states_view(*states));
        let mut out: Vec<Task> = Vec::new();
        let mut i: usize = self.tasks.len();
        assert(ts.subrange(i as int, ts.len() as int) =~= Seq::<TaskView>::empty());
        while i > 0
            invariant
                ts == self@.tasks,
                p == listed_by(opt_string_view(*worker_id), opt_states_view(*states)),
                i <= self.tasks@.len(),
                task_views(out@) == newest_first(ts.subrange(i as int, ts.len() as int), p),
            decreases i,
        {
            i = i - 1;
            proof {
                assert(ts[i as int] == self.tasks@[i as int]@);
                let sub = ts.subrange(i as int, ts.len() as int);
                assert(sub.subrange(1, sub.len() as int) =~= ts.subrange(i + 1, ts.len() as int));
                assert(sub[0] == ts[i as int]);
            }
            if Self::listed(&self.tasks[i], worker_id, states) {
                out.push(self.tasks[i].duplicate());
                proof {
                    assert(task_views(out@) =~= newest_first(ts.subrange(i + 1, ts.len() as int), p).push(ts[i as int]));
                }
            }
        }
        assert(ts.subrange(0, ts.len() as int) =~= ts);
        out
    }

    /// Position of the resource with identifier `id`.
    fn find_resource(&self, id: &String) -> (r: Option<usize>)
        ensures
            r matches Some(i) ==> is_first(self@.resources, resource_id_is(id@), i as int),
            r is None ==> !any(self@.resources, resource_id_is(id@)),
    {
        let mut i: usize = 0;
        while i < self.resources.len()
            invariant
                i <= self.resources@.len(),
                forall|j: int| 0 <= j < i ==> !resource_id_is(id@)(#[trigger] self@.resources[j]),
            decreases self.resources@.len() - i,
        {
            if self.resources[i].id == *id {
                return Some(i);
            }
            i = i + 1;
        }
        proof {
            lemma_first_where_none(self@.resources, resource_id_is(id@));
        }
        None
    }

    /// Whether a resource with identifier `id` is stored.
    pub fn has_resource(&self, id: &String) -> (r: bool)
        ensures
            r == any(self@.resources, resource_id_is(id@)),
    {
        match self.find_resource(id) {
            Some(_) => true,
            None => false,
        }
    }

    /// The bytes of resource `id`.
    pub fn get_resource_info(&self, id: &String) -> (r: Result<Vec<u8>, RepoError>)
        ensures
            r is Ok <==> any(self@.resources, resource_id_is(id@)),
            r matches Ok(data) ==> exists|i: int|
                is_first(self@.resources, resource_id_is(id@), i) && #[trigger] self@.resources[i].data == data@,
            r matches Err(e) ==> e is NotFound,
    {
        match self.find_resource(id) {
            Some(i) => {
                assert(self@.resources[i as int] == self.resources@[i as int]@);
                let data = copy_bytes(&self.resources[i].data);
                assert(self@.resources[i as int].data == data@);
                Ok(data)
            },
            None => Err(RepoError::NotFound(id.clone())),
        }
    }

    /// Stores `data` under `id`, created at `now`. Storing under an identifier
    /// that is already present changes nothing: identifiers are derived from
    /// the bytes.
    pub fn store_resource_info_at(&mut self, id: String, data: Vec<u8>, now: i64) -> (r: String)
        requires
            old(self).wf(),
        ensures
            final(self).wf(),
            r@ == id@,
            any(old(self)@.resources, resource_id_is(id@)) ==> final(self)@ == old(self)@,
            !any(old(self)@.resources, resource_id_is(id@)) ==> final(self)@ == (StoreView {
                resources: old(self)@.resources.push(ResourceInfoView { id: id@, data: data@, create_at: now }),
                ..old(self)@
            }),
    {
        if self.has_resource(&id) {
            return id;
        }
        let ghost s0 = self@;
        let r = ResourceInfo { id: id.clone(), data, create_at: now };
        self.resources.push(r);
        proof {
            let rs = self@.resources;
            assert(rs =~= s0.resources.push(r@));
            assert forall|a: int, b: int|
                0 <= a < rs.len() && 0 <= b < rs.len() && a != b implies #[trigger] rs[a].id
                    != #[trigger] rs[b].id by {
                if a == s0.resources.len() {
                    assert(!resource_id_is(id@)(s0.resources[b]));
                } else if b == s0.resources.len() {
                    assert(!resource_id_is(id@)(s0.resources[a]));
                }
            }
        }
        id
    }

    /// Removes resource `id`, if present.
    pub fn delete_resource(&mut self, id: &String)
        requires
            old(self).wf(),
        ensures
            final(self).wf(),
            !any(final(self)@.resources, resource_id_is(id@)),
            final(self)@ == (StoreView {
                resources: match first_where(old(self)@.resources, resource_id_is(id@)) {
                    Some(i) => old(self)@.resources.remove(i),
                    None => old(self)@.resources,
                },
                ..old(self)@
            }),
    {
        let ghost s0 = self@;
        match self.find_resource(id) {
            Some(i) => {
                proof {
                    lemma_first_where_is(s0.resources, resource_id_is(id@), i as int);
                }
                self.resources.remove(i);
                proof {
                    let rs = self@.resources;
                    assert(rs =~= s0.resources.remove(i as int));
                    assert forall|a: int, b: int|
                        0 <= a < rs.len() && 0 <= b < rs.len() && a != b implies #[trigger] rs[a].id
                            != #[trigger] rs[b].id by {
                        let aa = if a < i { a } else { a + 1 };
                        let bb = if b < i { b } else { b + 1 };
                        assert(rs[a] == s0.resources[aa]);
                        assert(rs[b] == s0.resources[bb]);
                    }
                    assert forall|j: int| 0 <= j < rs.len() implies !resource_id_is(id@)(#[trigger] rs[j]) by {
                        let jj = if j < i { j } else { j + 1 };
                        assert(rs[j] == s0.resources[jj]);
                        assert(s0.resources[jj].id != s0.resources[i as int].id);
                    }
                }
            },
            None => {
                proof {
                    lemma_first_where_some(s0.resources, resource_id_is(id@));
                }
            },
        }
    }

    /// Position of the registration of worker `worker_id`.
    fn find_worker(&self, worker_id: &String) -> (r: Option<usize>)
        ensures
            r matches Some(i) ==> is_first(self@.workers, worker_id_is(worker_id@), i as int),
            r is None ==> !any(self@.workers, worker_id_is(worker_id@)),
    {
        let mut i: usize = 0;
        while i < self.workers.len()
            invariant
                i <= self.workers@.len(),
                forall|j: int| 0 <= j < i ==> !worker_id_is(worker_id@)(#[trigger] self@.workers[j]),
            decreases self.workers@.len() - i,
        {
            if self.workers[i].worker_id == *worker_id {
                return Some(i);
            }
            i = i + 1;
        }
        proof {
            lemma_first_where_none(self@.workers, worker_id_is(worker_id@));
        }
        None
    }

    /// Position of the registration row `id`.
    fn find_worker_row(&self, id: &String) -> (r: Option<usize>)
        ensures
            r matches Some(i) ==> is_first(self@.workers, row_id_is(id@), i as int),
            r is None ==> !any(self@.workers, row_id_is(id@)),
    {
        let mut i: usize = 0;
        while i < self.workers.len()
            invariant
                i <= self.workers@.len(),
                forall|j: int| 0 <= j < i ==> !row_id_is(id@)(#[trigger] self@.workers[j]),
            decreases self.workers@.len() - i,
        {
            if self.workers[i].id == *id {
                return Some(i);
            }
            i = i + 1;
        }
        proof {
            lemma_first_where_none(self@.workers, row_id_is(id@));
        }
        None
    }

    /// Records a report of worker `worker_id` at `now`: its row gets the new
    /// addresses and types and `update_at = now`; a worker seen for the first
    /// time gets a new row `row_id` with both timestamps at `now`. Fails with
    /// `AlreadyExists`, changing nothing, when that new row identifier is taken.
    pub fn report_worker_info_at(
        &mut self,
        worker_id: String,
        ips: String,
        support_types: String,
        now: i64,
        row_id: String,
    ) -> (r: Result<(), RepoError>)
        requires
            old(self).wf(),
        ensures
            final(self).wf(),
            r is Err <==> !any(old(self)@.workers, worker_id_is(worker_id@)) && any(
                old(self)@.workers,
                row_id_is(row_id@),
            ),
            r matches Err(e) ==> e is AlreadyExists && final(self)@ == old(self)@,
            r is Ok ==> final(self)@ == report_worker_spec(
                old(self)@,
                worker_id@,
                ips@,
                support_types@,
                now,
                row_id@,
            ),
    {
        let ghost s0 = self@;
        match self.find_worker(&worker_id) {
            Some(i) => {
                proof {
                    lemma_first_where_is(s0.workers, worker_id_is(worker_id@), i as int);
                    assert(s0.workers[i as int] == self.workers@[i as int]@);
                }
                let old_w = self.workers[i].duplicate();
                let w = WorkerState { ips, support_types, update_at: now, ..old_w };
                self.workers.set(i, w);
                proof {
                    let ws = self@.workers;
                    assert(ws =~= s0.workers.update(i as int, w@));
                    assert forall|a: int, b: int|
                        0 <= a < ws.len() && 0 <= b < ws.len() && a != b implies #[trigger] ws[a].worker_id
                            != #[trigger] ws[b].worker_id by {
                        assert(s0.workers[a].worker_id == ws[a].worker_id);
                        assert(s0.workers[b].worker_id == ws[b].worker_id);
                    }
                    assert forall|a: int, b: int|
                        0 <= a < ws.len() && 0 <= b < ws.len() && a != b implies #[trigger] ws[a].id
                            != #[trigger] ws[b].id by {
                        assert(s0.workers[a].id == ws[a].id);
                        assert(s0.workers[b].id == ws[b].id);
                    }
                    assert forall|a: int, b: int|
                        0 <= a <= b < ws.len() implies #[trigger] ws[a].create_at
                            <= #[trigger] ws[b].create_at by {
                        assert(s0.workers[a].create_at == ws[a].create_at);
                        assert(s0.workers[b].create_at == ws[b].create_at);
                    }
                }
                Ok(())
            },
            None => {
                proof {
                    lemma_first_where_none(s0.workers, worker_id_is(worker_id@));
                }
                if self.find_worker_row(&row_id).is_some() {
                    return Err(RepoError::AlreadyExists(row_id));
                }
                let mut p: usize = 0;
                while p < self.workers.len() && self.workers[p].create_at <= now
                    invariant
                        self@ == s0,
                        p <= self.workers@.len(),
                        forall|j: int| 0 <= j < p ==> !worker_created_after(now)(#[trigger] self@.workers[j]),
                    decreases self.workers@.len() - p,
                {
                    proof {
                        assert(self@.workers[p as int] == self.workers@[p as int]@);
                    }
                    p = p + 1;
                }
                proof {
                    if p < self.workers@.len() {
                        assert(self@.workers[p as int] == self.workers@[p as int]@);
                        lemma_first_where_is(s0.workers, worker_created_after(now), p as int);
                    } else {
                        lemma_first_where_none(s0.workers, worker_created_after(now));
                    }
                }
                let w = WorkerState {
                    id: row_id,
                    worker_id,
                    ips,
                    support_types,
                    update_at: now,
                    create_at: now,
                };
                self.workers.insert(p, w);
                proof {
                    let ws = self@.workers;
                    assert(ws =~= s0.workers.insert(p as int, w@));
                    assert forall|a: int, b: int|
                        0 <= a < ws.len() && 0 <= b < ws.len() && a != b implies #[trigger] ws[a].worker_id
                            != #[trigger] ws[b].worker_id by {
                        if a == p {
                            let bb = if b < p { b } else { b - 1 };
                            assert(ws[b] == s0.workers[bb]);
                            assert(!worker_id_is(w@.worker_id)(s0.workers[bb]));
                        } else if b == p {
                            let aa = if a < p { a } else { a - 1 };
                            assert(ws[a] == s0.workers[aa]);
                            assert(!worker_id_is(w@.worker_id)(s0.workers[aa]));
                        } else {
                            let aa = if a < p { a } else { a - 1 };
                            let bb = if b < p { b } else { b - 1 };
                            assert(ws[a] == s0.workers[aa]);
                            assert(ws[b] == s0.workers[bb]);
                        }
                    }
                    assert forall|a: int, b: int|
                        0 <= a < ws.len() && 0 <= b < ws.len() && a != b implies #[trigger] ws[a].id
                            != #[trigger] ws[b].id by {
                        if a == p {
                            let bb = if b < p { b } else { b - 1 };
                            assert(ws[b] == s0.workers[bb]);
                            assert(!row_id_is(w@.id)(s0.workers[bb]));
                        } else if b == p {
                            let aa = if a < p { a } else { a - 1 };
                            assert(ws[a] == s0.workers[aa]);
                            assert(!row_id_is(w@.id)(s0.workers[aa]));
                        } else {
                            let aa = if a < p { a } else { a - 1 };
                            let bb = if b < p { b } else { b - 1 };
                            assert(ws[a] == s0.workers[aa]);
                            assert(ws[b] == s0.workers[bb]);
                        }
                    }
                    assert forall|a: int, b: int|
                        0 <= a <= b < ws.len() implies #[trigger] ws[a].create_at
                            <= #[trigger] ws[b].create_at by {
                        if a < p && b > p {
                            assert(!worker_created_after(now)(s0.workers[a]));
                            assert(ws[b] == s0.workers[b - 1]);
                            assert(worker_created_after(now)(s0.workers[p as int]));
                        } else if a == p && b > p {
                            assert(ws[b] == s0.workers[b - 1]);
                            assert(worker_created_after(now)(s0.workers[p as int]));
                        } else if b == p && a < p {
                            assert(!worker_created_after(now)(s0.workers[a]));
                        } else if a > p {
                            assert(ws[a] == s0.workers[a - 1]);
                            assert(ws[b] == s0.workers[b - 1]);
                        }
                    }
                }
                Ok(())
            },
        }
    }

    /// Worker registrations, newest first: all of them, or those silent for
    /// more than `dur` seconds before `now`.
    fn select_workers(&self, dur: i64, now: i64, all: bool) -> (r: Vec<WorkerState>)
        ensures
            worker_views(r@) == newest_first(
                self@.workers,
                if all { every_worker() } else { offline_since(dur, now) },
            ),
    {
        let ghost ws = self@.workers;
        let ghost p = if all { every_worker() } else { offline_since(dur, now) };
        let mut out: Vec<WorkerState> = Vec::new();
        let mut i: usize = self.workers.len();
        assert(ws.subrange(i as int, ws.len() as int) =~= Seq::<WorkerStateView>::empty());
        while i > 0
            invariant
                ws == self@.workers,
                p == (if all { every_worker() } else { offline_since(dur, now) }),
                i <= self.workers@.len(),
                worker_views(out@) == newest_first(ws.subrange(i as int, ws.len() as int), p),
            decreases i,
        {
            i = i - 1;
            proof {
                assert(ws[i as int] == self.workers@[i as int]@);
                let sub = ws.subrange(i as int, ws.len() as int);
                assert(sub.subrange(1, sub.len() as int) =~= ws.subrange(i + 1, ws.len() as int));
                assert(sub[0] == ws[i as int]);
            }
            let keep = all || (self.workers[i].update_at as i128) < (now as i128) - (dur as i128);
            if keep {
                out.push(self.workers[i].duplicate());
                proof {
                    assert(worker_views(out@) =~= newest_first(ws.subrange(i + 1, ws.len() as int), p).push(ws[i as int]));
                }
            }
        }
        assert(ws.subrange(0, ws.len() as int) =~= ws);
        out
    }

    /// Every worker registration, newest first.
    pub fn list_worker(&self) -> (r: Vec<WorkerState>)
        ensures
            worker_views(r@) == newest_first(self@.workers, every_worker()),
    {
        self.select_workers(0, 0, true)
    }

    /// The workers whose last report is older than `dur` seconds before `now`,
    /// newest registration first.
    pub fn get_offline_worker_at(&self, dur: i64, now: i64) -> (r: Vec<WorkerState>)
        ensures
            worker_views(r@) == newest_first(self@.workers, offline_since(dur, now)),
    {
        self.select_workers(dur, now, false)
    }

    /// The registration of worker `worker_id`.
    pub fn get_worker_by_worker_id(&self, worker_id: &String) -> (r: Result<WorkerState, RepoError>)
        ensures
            r is Ok <==> any(self@.workers, worker_id_is(worker_id@)),
            r matches Ok(w) ==> w@.worker_id == worker_id@ && self@.workers.contains(w@),
            r matches Err(e) ==> e is NotFound,
    {
        match self.find_worker(worker_id) {
            Some(i) => {
                let w = self.workers[i].duplicate();
                assert(self@.workers[i as int] == w@);
                Ok(w)
            },
            None => Err(RepoError::NotFound(worker_id.clone())),
        }
    }

    /// The registration row `id`.
    pub fn get_worker_by_id(&self, id: &String) -> (r: Result<WorkerState, RepoError>)
        ensures
            r is Ok <==> any(self@.workers, row_id_is(id@)),
            r matches Ok(w) ==> w@.id == id@ && self@.workers.contains(w@),
            r matches Err(e) ==> e is NotFound,
    {
        match self.find_worker_row(id) {
            Some(i) => {
                let w = self.workers[i].duplicate();
                assert(self@.workers[i as int] == w@);
                Ok(w)
            },
            None => Err(RepoError::NotFound(id.clone())),
        }
    }

    /// Removes the registration at position `i`.
    fn remove_worker(&mut self, i: usize)
        requires
            old(self).wf(),
            i < old(self)@.workers.len(),
        ensures
            final(self).wf(),
            final(self)@ == (StoreView { workers: old(self)@.workers.remove(i as int), ..old(self)@ }),
    {
        let ghost s0 = self@;
        self.workers.remove(i);
        proof {
            let ws = self@.workers;
            assert(ws =~= s0.workers.remove(i as int));
            assert forall|a: int, b: int|
                0 <= a < ws.len() && 0 <= b < ws.len() && a != b implies #[trigger] ws[a].worker_id
                    != #[trigger] ws[b].worker_id by {
                let aa = if a < i { a } else { a + 1 };
                let bb = if b < i { b } else { b + 1 };
                assert(ws[a] == s0.workers[aa]);
                assert(ws[b] == s0.workers[bb]);
            }
            assert forall|a: int, b: int|
                0 <= a < ws.len() && 0 <= b < ws.len() && a != b implies #[trigger] ws[a].id
                    != #[trigger] ws[b].id by {
                let aa = if a < i { a } else { a + 1 };
                let bb = if b < i { b } else { b + 1 };
                assert(ws[a] == s0.workers[aa]);
                assert(ws[b] == s0.workers[bb]);
            }
            assert forall|a: int, b: int|
                0 <= a <= b < ws.len() implies #[trigger] ws[a].create_at
                    <= #[trigger] ws[b].create_at by {
                let aa = if a < i { a } else { a + 1 };
                let bb = if b < i { b } else { b + 1 };
                assert(ws[a] == s0.workers[aa]);
                assert(ws[b] == s0.workers[bb]);
            }
        }
    }

    /// Removes the registration of worker `worker_id`, if present.
    pub fn delete_worker_by_worker_id(&mut self, worker_id: &String)
        requires
            old(self).wf(),
        ensures
            final(self).wf(),
            final(self)@ == (StoreView {
                workers: match first_where(old(self)@.workers, worker_id_is(worker_id@)) {
                    Some(i) => old(self)@.workers.remove(i),
                    None => old(self)@.workers,
                },
                ..old(self)@
            }),
    {
        let ghost s0 = self@;
        match self.find_worker(worker_id) {
            Some(i) => {
                proof {
                    lemma_first_where_is(s0.workers, worker_id_is(worker_id@), i as int);
                }
                self.remove_worker(i);
            },
            None => {
                proof {
                    lemma_first_where_some(s0.workers, worker_id_is(worker_id@));
                }
            },
        }
    }

    /// Removes the registration row `id`, if present.
    pub fn delete_worker_by_id(&mut self, id: &String)
        requires
            old(self).wf(),
        ensures
            final(self).wf(),
            final(self)@ == (StoreView {
                workers: match first_where(old(self)@.workers, row_id_is(id@)) {
                    Some(i) => old(self)@.workers.remove(i),
                    None => old(self)@.workers,
                },
                ..old(self)@
            }),
    {
        let ghost s0 = self@;
        match self.find_worker_row(id) {
            Some(i) => {
                proof {
                    lemma_first_where_is(s0.workers, row_id_is(id@), i as int);
                }
                self.remove_worker(i);
            },
            None => {
                proof {
                    lemma_first_where_some(s0.workers, row_id_is(id@));
                }
            },
        }
    }

    /// The identifier of this installation: the stored one, or `fresh`, which
    /// is stored for every later call.
    pub fn get_worker_id_or(&mut self, fresh: String) -> (r: String)
        requires
            old(self).wf(),
        ensures
            final(self).wf(),
            match old(self)@.worker_info {
                Some(w) => r@ == w && final(self)@ == old(self)@,
                None => r@ == fresh@ && final(self)@ == (StoreView {
                    worker_info: Some(fresh@),
                    ..old(self)@
                }),
            },
    {
        match &self.worker_info {
            Some(w) => w.clone(),
            None => {
                self.worker_info = Some(fresh.clone());
                fresh
            },
        }
    }
}

/// A store of input resources, addressed by identifier.
pub trait ResourceOp {
    /// The stored resources.
    spec fn resource_view(&self) -> Seq<ResourceInfoView>;

    /// Whether resource `id` is stored.
    fn has_resource(&self, id: &String) -> (r: bool)
        ensures
            r == any(self.resource_view(), resource_id_is(id@)),
    ;

    /// The bytes of resource `id`; `NotFound` when it is not stored.
    fn get_resource_info(&self, id: &String) -> (r: Result<Vec<u8>, RepoError>)
        ensures
            r is Ok <==> any(self.resource_view(), resource_id_is(id@)),
            r matches Ok(data) ==> exists|i: int|
                is_first(self.resource_view(), resource_id_is(id@), i) && #[trigger] self.resource_view()[i].data
                    == data@,
            r matches Err(e) ==> e is NotFound,
    ;
}

impl ResourceOp for Store {
    open spec fn resource_view(&self) -> Seq<ResourceInfoView> {
        self@.resources
    }

    fn has_resource(&self, id: &String) -> (r: bool) {
        Store::has_resource(self, id)
    }

    fn get_resource_info(&self, id: &String) -> (r: Result<Vec<u8>, RepoError>) {
        Store::get_resource_info(self, id)
    }
}

/// The state moves that the store makes by itself (every move but the
/// operator override): stay, `Init → Running`, `Running → Completed`, and
/// from any state but `Completed` to `Error`.
pub open spec fn state_step_ok(a: TaskState, b: TaskState) -> bool {
    ||| a == b
    ||| (a == TaskState::Init && b == TaskState::Running)
    ||| (a == TaskState::Running && b == TaskState::Completed)
    ||| (a != TaskState::Completed && b == TaskState::Error)
}

/// Every task of `s` is still at its place in `s2`, with the same identifier
/// and a state reached by a legal move.
pub open spec fn steps_ok(s: StoreView, s2: StoreView) -> bool {
    &&& s2.tasks.len() == s.tasks.len()
    &&& forall|i: int|
        0 <= i < s.tasks.len() ==> #[trigger] s2.tasks[i].id == s.tasks[i].id && state_step_ok(
            s.tasks[i].state,
            s2.tasks[i].state,
        )
}

/// A task's states run along `Init, Running, Completed | Error`: a claim,
/// a recorded proof and a recorded error move each task only forward on that
/// path, a completed task never changes state again, and a new task starts in `Init`.
pub proof fn lemma_state_progress(
    s: StoreView,
    w: Seq<char>,
    kinds: Option<Seq<TaskType>>,
    id: Seq<char>,
    proof: Seq<u8>,
    msg: Seq<char>,
    now: i64,
    t: TaskView,
)
    requires
        store_wf(s),
    ensures
        claim_spec(s, w, kinds, now) matches Some((s2, _)) ==> steps_ok(s, s2),
        steps_ok(s, record_proof_spec(s, w, id, proof, now)),
        steps_ok(s, record_error_spec(s, w, id, msg)),
        forall|i: int|
            0 <= i < s.tasks.len() && s.tasks[i].state == TaskState::Completed ==> #[trigger] record_error_spec(
                s,
                w,
                id,
                msg,
            ).tasks[i].state == TaskState::Completed,
        t.state == TaskState::Init ==> forall|u: TaskView|
            #[trigger] add_task_spec(s, t).tasks.contains(u) ==> u == t || s.tasks.contains(u),
{
    lemma_first_where_some(s.tasks, todo_for(kinds));
    let ts = add_task_spec(s, t).tasks;
    let p = task_insert_pos(s.tasks, t.create_at);
    lemma_first_where_some(s.tasks, task_created_after(t.create_at));
    assert forall|u: TaskView| #[trigger] ts.contains(u) implies u == t || s.tasks.contains(u) by {
        let k = choose|k: int| 0 <= k < ts.len() && ts[k] == u;
        if k < p {
            assert(ts[k] == s.tasks[k]);
        } else if k > p {
            assert(ts[k] == s.tasks[k - 1]);
        }
    }
}

/// No task runs without a worker and no waiting task has one.
pub open spec fn idle_iff_init(s: StoreView) -> bool {
    forall|i: int|
        0 <= i < s.tasks.len() ==> (#[trigger] s.tasks[i].worker_id.len() == 0 <==> s.tasks[i].state
            == TaskState::Init)
}

/// A task has no worker exactly when it waits in `Init`, on every row, as long
/// as the operator does not override states and workers name themselves.
pub proof fn lemma_idle_iff_init(
    s: StoreView,
    w: Seq<char>,
    kinds: Option<Seq<TaskType>>,
    id: Seq<char>,
    proof: Seq<u8>,
    msg: Seq<char>,
    now: i64,
    miner: Seq<char>,
    task_type: TaskType,
    resource_id: Seq<char>,
    comment: Seq<char>,
)
    requires
        store_wf(s),
        idle_iff_init(s),
        w.len() > 0,
    ensures
        claim_spec(s, w, kinds, now) matches Some((s2, _)) ==> idle_iff_init(s2),
        idle_iff_init(record_proof_spec(s, w, id, proof, now)),
        idle_iff_init(record_error_spec(s, w, id, msg)),
        idle_iff_init(add_task_spec(s, new_task_view(id, miner, task_type, resource_id, comment, now))),
{
    lemma_first_where_some(s.tasks, todo_for(kinds));
    let t = new_task_view(id, miner, task_type, resource_id, comment, now);
    let ts = add_task_spec(s, t).tasks;
    let p = task_insert_pos(s.tasks, now);
    lemma_first_where_some(s.tasks, task_created_after(now));
    assert forall|k: int| 0 <= k < ts.len() implies (#[trigger] ts[k].worker_id.len() == 0 <==> ts[k].state
        == TaskState::Init) by {
        if k < p {
            assert(ts[k] == s.tasks[k]);
        } else if k > p {
            assert(ts[k] == s.tasks[k - 1]);
        }
    }
    let rp = record_proof_spec(s, w, id, proof, now).tasks;
    assert forall|k: int| 0 <= k < rp.len() implies (#[trigger] rp[k].worker_id.len() == 0 <==> rp[k].state
        == TaskState::Init) by {
        assert(rp[k] == proof_recorded(s.tasks[k], w, id, proof, now));
    }
    let re = record_error_spec(s, w, id, msg).tasks;
    assert forall|k: int| 0 <= k < re.len() implies (#[trigger] re[k].worker_id.len() == 0 <==> re[k].state
        == TaskState::Init) by {
        assert(re[k] == error_recorded(s.tasks[k], w, id, msg));
    }
}

/// A claim succeeds exactly when some task of an accepted type waits, and
/// it takes exactly one of them.
pub proof fn lemma_claim_takes_one(s: StoreView, w: Seq<char>, kinds: Option<Seq<TaskType>>, now: i64)
    requires
        store_wf(s),
    ensures
        claim_spec(s, w, kinds, now) is Some <==> count_where(s.tasks, todo_for(kinds)) > 0,
        claim_spec(s, w, kinds, now) matches Some((s2, _)) ==> count_where(s2.tasks, todo_for(kinds)) + 1
            == count_where(s.tasks, todo_for(kinds)),
{
    lemma_first_where_some(s.tasks, todo_for(kinds));
    lemma_count_positive(s.tasks, todo_for(kinds));
    if let Some(i) = first_where(s.tasks, todo_for(kinds)) {
        lemma_count_update(s.tasks, todo_for(kinds), i, claimed_view(s.tasks[i], w, now));
    }
}

/// The store after a claim; unchanged when nothing was claimed.
pub open spec fn store_after_claim(s: StoreView, w: Seq<char>, kinds: Option<Seq<TaskType>>, now: i64) -> StoreView {
    match claim_spec(s, w, kinds, now) {
        Some((s2, _)) => s2,
        None => s,
    }
}

/// The identifier of the task a claim hands out, if any.
pub open spec fn claimed_id(s: StoreView, w: Seq<char>, kinds: Option<Seq<TaskType>>, now: i64) -> Option<Seq<char>> {
    match claim_spec(s, w, kinds, now) {
        Some((_, t)) => Some(t.id),
        None => None,
    }
}

/// Two claims in a row, by any workers, never hand out the same task.
pub proof fn lemma_claims_distinct(
    s: StoreView,
    w1: Seq<char>,
    kinds1: Option<Seq<TaskType>>,
    now1: i64,
    w2: Seq<char>,
    kinds2: Option<Seq<TaskType>>,
    now2: i64,
)
    requires
        store_wf(s),
        claimed_id(s, w1, kinds1, now1) is Some,
        claimed_id(store_after_claim(s, w1, kinds1, now1), w2, kinds2, now2) is Some,
    ensures
        claimed_id(s, w1, kinds1, now1) != claimed_id(store_after_claim(s, w1, kinds1, now1), w2, kinds2, now2),
{
    lemma_first_where_some(s.tasks, todo_for(kinds1));
    let i = first_where(s.tasks, todo_for(kinds1))->0;
    let s1 = store_after_claim(s, w1, kinds1, now1);
    lemma_first_where_some(s1.tasks, todo_for(kinds2));
    let j = first_where(s1.tasks, todo_for(kinds2))->0;
    assert(s1.tasks[i].state == TaskState::Running);
    assert(j != i);
    assert(s1.tasks[j].id == s.tasks[j].id);
}

/// A claim keeps the store well formed, and changes only the claimed task,
/// which stops waiting.
pub proof fn lemma_claim_wf(s: StoreView, w: Seq<char>, kinds: Option<Seq<TaskType>>, now: i64)
    requires
        store_wf(s),
    ensures
        claim_spec(s, w, kinds, now) matches Some((s2, t)) ==> {
            &&& store_wf(s2)
            &&& s2.tasks.len() == s.tasks.len()
            &&& forall|i: int| 0 <= i < s.tasks.len() ==> #[trigger] s2.tasks[i].id == s.tasks[i].id
            &&& forall|i: int|
                0 <= i < s.tasks.len() && !todo_for(kinds)(s.tasks[i]) ==> !todo_for(kinds)(#[trigger] s2.tasks[i])
            &&& exists|i: int|
                0 <= i < s.tasks.len() && todo_for(kinds)(#[trigger] s.tasks[i]) && s.tasks[i].id == t.id
                    && !todo_for(kinds)(s2.tasks[i])
        },
{
    lemma_first_where_some(s.tasks, todo_for(kinds));
    if let Some(i) = first_where(s.tasks, todo_for(kinds)) {
        let s2 = store_after_claim(s, w, kinds, now);
        let ts = s2.tasks;
        assert forall|a: int, b: int|
            0 <= a < ts.len() && 0 <= b < ts.len() && a != b implies #[trigger] ts[a].id != #[trigger] ts[b].id by {
            assert(s.tasks[a].id == ts[a].id);
            assert(s.tasks[b].id == ts[b].id);
        }
        assert forall|a: int, b: int| 0 <= a <= b < ts.len() implies #[trigger] ts[a].create_at
            <= #[trigger] ts[b].create_at by {
            assert(s.tasks[a].create_at == ts[a].create_at);
            assert(s.tasks[b].create_at == ts[b].create_at);
        }
        assert(!todo_for(kinds)(ts[i]));
    }
}

/// Workers `ws` claim in turn, all accepting `kinds`, at `now`: the store
/// afterwards and the identifiers handed out, in order.
pub open spec fn claim_round(
    s: StoreView,
    ws: Seq<Seq<char>>,
    kinds: Option<Seq<TaskType>>,
    now: i64,
) -> (StoreView, Seq<Seq<char>>)
    decreases ws.len(),
{
    if ws.len() == 0 {
        (s, Seq::empty())
    } else {
        let prev = claim_round(s, ws.drop_last(), kinds, now);
        match claim_spec(prev.0, ws.last(), kinds, now) {
            Some((s2, t)) => (s2, prev.1.push(t.id)),
            None => prev,
        }
    }
}

proof fn lemma_claim_round_inv(s: StoreView, ws: Seq<Seq<char>>, kinds: Option<Seq<TaskType>>, now: i64)
    requires
        store_wf(s),
    ensures
        ({
            let (s2, ids) = claim_round(s, ws, kinds, now);
            let q = count_where(s.tasks, todo_for(kinds));
            &&& store_wf(s2)
            &&& s2.tasks.len() == s.tasks.len()
            &&& forall|i: int| 0 <= i < s.tasks.len() ==> #[trigger] s2.tasks[i].id == s.tasks[i].id
            &&& count_where(s2.tasks, todo_for(kinds)) + ids.len() == q
            &&& ids.len() == if ws.len() < q { ws.len() } else { q }
            &&& forall|k: int|
                0 <= k < ids.len() ==> exists|i: int|
                    0 <= i < s2.tasks.len() && s2.tasks[i].id == #[trigger] ids[k] && !todo_for(kinds)(
                        s2.tasks[i],
                    )
            &&& forall|a: int, b: int| 0 <= a < b < ids.len() ==> #[trigger] ids[a] != #[trigger] ids[b]
        }),
    decreases ws.len(),
{
    if ws.len() > 0 {
        let prev = claim_round(s, ws.drop_last(), kinds, now);
        lemma_claim_round_inv(s, ws.drop_last(), kinds, now);
        let s1 = prev.0;
        let ids = prev.1;
        lemma_claim_wf(s1, ws.last(), kinds, now);
        lemma_claim_takes_one(s1, ws.last(), kinds, now);
        if let Some((s3, t)) = claim_spec(s1, ws.last(), kinds, now) {
            let i = choose|i: int|
                0 <= i < s1.tasks.len() && todo_for(kinds)(#[trigger] s1.tasks[i]) && s1.tasks[i].id == t.id
                    && !todo_for(kinds)(s3.tasks[i]);
            let nids = ids.push(t.id);
            assert forall|k: int| 0 <= k < nids.len() implies exists|j: int|
                0 <= j < s3.tasks.len() && s3.tasks[j].id == #[trigger] nids[k] && !todo_for(kinds)(s3.tasks[j]) by {
                if k < ids.len() {
                    let j = choose|j: int|
                        0 <= j < s1.tasks.len() && s1.tasks[j].id == #[trigger] ids[k] && !todo_for(kinds)(s1.tasks[j]);
                    assert(s3.tasks[j].id == s1.tasks[j].id);
                    assert(nids[k] == ids[k]);
                } else {
                    assert(s3.tasks[i].id == s1.tasks[i].id);
                }
            }
            assert forall|a: int, b: int| 0 <= a < b < nids.len() implies #[trigger] nids[a] != #[trigger] nids[b] by {
                if b == ids.len() {
                    let j = choose|j: int|
                        0 <= j < s1.tasks.len() && s1.tasks[j].id == #[trigger] ids[a] && !todo_for(kinds)(s1.tasks[j]);
                    assert(j != i);
                    assert(nids[a] == ids[a]);
                } else {
                    assert(nids[a] == ids[a]);
                    assert(nids[b] == ids[b]);
                }
            }
            assert forall|k: int| 0 <= k < s.tasks.len() implies #[trigger] s3.tasks[k].id == s.tasks[k].id by {
                assert(s3.tasks[k].id == s1.tasks[k].id);
            }
        }
    }
}

/// Workers claiming in turn from a store with `Q` waiting tasks of the types
/// they accept get exactly `min(K, Q)` tasks for `K` claims, each a different one.
pub proof fn lemma_claim_round(s: StoreView, ws: Seq<Seq<char>>, kinds: Option<Seq<TaskType>>, now: i64)
    requires
        store_wf(s),
    ensures
        ({
            let ids = claim_round(s, ws, kinds, now).1;
            let q = count_where(s.tasks, todo_for(kinds));
            &&& ids.len() == if ws.len() < q { ws.len() } else { q }
            &&& forall|a: int, b: int| 0 <= a < b < ids.len() ==> #[trigger] ids[a] != #[trigger] ids[b]
        }),
{
    lemma_claim_round_inv(s, ws, kinds, now);
}

/// A task added no earlier than every stored one heads the full listing:
/// after adds at non-decreasing times the listing gives them newest first.
pub proof fn lemma_newest_listed_first(s: StoreView, t: TaskView)
    requires
        store_wf(s),
        forall|i: int| 0 <= i < s.tasks.len() ==> #[trigger] s.tasks[i].create_at <= t.create_at,
    ensures
        newest_first(add_task_spec(s, t).tasks, listed_by(None, None)) == seq![t] + newest_first(
            s.tasks,
            listed_by(None, None),
        ),
{
    assert forall|j: int| 0 <= j < s.tasks.len() implies !task_created_after(t.create_at)(
        #[trigger] s.tasks[j],
    ) by {
        assert(s.tasks[j].create_at <= t.create_at);
    }
    lemma_first_where_none(s.tasks, task_created_after(t.create_at));
    assert(add_task_spec(s, t).tasks =~= s.tasks.push(t));
    lemma_newest_first_push(s.tasks, t, listed_by(None, None));
}

/// Every listing comes newest first: along it, creation times never increase.
pub proof fn lemma_listing_newest_first(s: StoreView, w: Option<Seq<char>>, states: Option<Seq<TaskState>>)
    requires
        store_wf(s),
    ensures
        ({
            let l = newest_first(s.tasks, listed_by(w, states));
            forall|a: int, b: int| 0 <= a <= b < l.len() ==> #[trigger] l[a].create_at >= #[trigger] l[b].create_at
        }),
{
    let p = listed_by(w, states);
    let l = newest_first(s.tasks, p);
    lemma_newest_first_positions(s.tasks, p);
    let pos = choose|pos: Seq<int>|
        #![trigger pos.len()]
        pos.len() == newest_first(s.tasks, p).len() && (forall|k: int|
            0 <= k < pos.len() ==> 0 <= #[trigger] pos[k] < s.tasks.len() && s.tasks[pos[k]] == newest_first(s.tasks, p)[k])
            && (forall|a: int, b: int| 0 <= a < b < pos.len() ==> #[trigger] pos[a] > #[trigger] pos[b]);
    assert forall|a: int, b: int| 0 <= a <= b < l.len() implies #[trigger] l[a].create_at >= #[trigger] l[b].create_at by {
        assert(s.tasks[pos[a]] == l[a]);
        assert(s.tasks[pos[b]] == l[b]);
        if a < b {
            assert(pos[a] > pos[b]);
            assert(s.tasks[pos[b]].create_at <= s.tasks[pos[a]].create_at);
        }
    }
}

/// The store after the tasks `ts` are added, in order, to an empty store.
pub open spec fn added_in_order(ts: Seq<TaskView>) -> StoreView
    decreases ts.len(),
{
    if ts.len() == 0 {
        StoreView { tasks: Seq::empty(), resources: Seq::empty(), workers: Seq::empty(), worker_info: None }
    } else {
        add_task_spec(added_in_order(ts.drop_last()), ts.last())
    }
}

/// Tasks added to an empty store at non-decreasing times are listed in the
/// reverse order of their adds: the listing's creation times are the add
/// times reversed.
pub proof fn lemma_listing_reverses_adds(ts: Seq<TaskView>)
    requires
        forall|i: int, j: int| 0 <= i <= j < ts.len() ==> #[trigger] ts[i].create_at <= #[trigger] ts[j].create_at,
    ensures
        added_in_order(ts).tasks == ts,
        newest_first(added_in_order(ts).tasks, listed_by(None, None)) == ts.reverse(),
    decreases ts.len(),
{
    if ts.len() == 0 {
        assert(ts.reverse() =~= Seq::<TaskView>::empty());
    } else {
        let d = ts.drop_last();
        let t = ts.last();
        assert forall|i: int, j: int| 0 <= i <= j < d.len() implies #[trigger] d[i].create_at
            <= #[trigger] d[j].create_at by {
            assert(d[i] == ts[i] && d[j] == ts[j]);
        }
        lemma_listing_reverses_adds(d);
        assert forall|j: int| 0 <= j < d.len() implies !task_created_after(t.create_at)(#[trigger] d[j]) by {
            assert(d[j] == ts[j]);
        }
        lemma_first_where_none(d, task_created_after(t.create_at));
        assert(added_in_order(ts).tasks =~= d.push(t));
        assert(d.push(t) =~= ts);
        lemma_newest_first_push(d, t, listed_by(None, None));
        assert(seq![t] + d.reverse() =~= ts.reverse());
    }
}

} // verus!
