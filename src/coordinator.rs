//! The coordinator: request intake that deduplicates identical submissions,
//! task lookup, dispatch hand-off to workers, result recording and the worker
//! registry, over a store that embeds the input resources.
use vstd::prelude::*;
use crate::address::MinerAddress;
use crate::base64bytes::Base64Byte;
use crate::ids::{gen_resource_id, gen_task_id, random_uuid_text, resource_id_of, task_id_of};
use crate::model::{RepoError, ResourceInfoView, Task, TaskState, TaskType, WorkerState};
use crate::seqs::{any, first_where, lemma_first_where_some};
use crate::store::{
    add_task_spec, claim_spec, has_task_spec, kinds_view, new_task_view, record_error_spec,
    record_proof_spec, report_worker_spec, resource_id_is, store_wf, task_created_after, task_id_is,
    task_insert_pos, Store, StoreView,
};

verus! {

/// Relies on `chrono::Utc::now().timestamp()`: the wall clock in whole Unix
/// seconds. Nothing is promised of the value.
#[verifier::external_body]
fn unix_now() -> (r: i64)
{
    chrono::Utc::now().timestamp()
}

/// The store after resource `rid` is stored with `data` at `now`, unless present.
pub open spec fn put_resource_spec(s: StoreView, rid: Seq<char>, data: Seq<u8>, now: i64) -> StoreView {
    if any(s.resources, resource_id_is(rid)) {
        s
    } else {
        StoreView {
            resources: s.resources.push(ResourceInfoView { id: rid, data, create_at: now }),
            ..s
        }
    }
}

/// The store after resource `rid` is removed, if present.
pub open spec fn delete_resource_spec(s: StoreView, rid: Seq<char>) -> StoreView {
    StoreView {
        resources: match first_where(s.resources, resource_id_is(rid)) {
            Some(i) => s.resources.remove(i),
            None => s.resources,
        },
        ..s
    }
}

/// The store after a submission of `data` as a task of type `task_type` for
/// the miner with address payload `payload` and canonical text `miner`: the
/// resource is stored unless present, and the task is created unless present.
pub open spec fn submit_spec(
    s: StoreView,
    payload: Seq<u8>,
    miner: Seq<char>,
    task_type: TaskType,
    data: Seq<u8>,
    comment: Seq<char>,
    now: i64,
) -> StoreView {
    let rid = resource_id_of(data);
    let s1 = put_resource_spec(s, rid, data, now);
    let tid = task_id_of(payload, task_type, data);
    if has_task_spec(s1, tid) {
        s1
    } else {
        add_task_spec(s1, new_task_view(tid, miner, task_type, rid, comment, now))
    }
}

/// The store after `RecordProof` on the task at position `i`: a running task
/// is recorded and its input resource released; any other task is left as it
/// is, with its input.
pub open spec fn proof_done_spec(
    s: StoreView,
    w: Seq<char>,
    i: int,
    proof: Seq<u8>,
    now: i64,
) -> StoreView {
    let s1 = record_proof_spec(s, w, s.tasks[i].id, proof, now);
    if s.tasks[i].state == TaskState::Running {
        delete_resource_spec(s1, s.tasks[i].resource_id)
    } else {
        s1
    }
}

/// Every stored resource is named by the identifier of its bytes.
pub open spec fn resources_addressed(s: StoreView) -> bool {
    forall|i: int| 0 <= i < s.resources.len() ==> #[trigger] s.resources[i].id == resource_id_of(s.resources[i].data)
}

/// Removing a resource keeps the others named by their bytes.
proof fn lemma_addressed_delete(s: StoreView, rid: Seq<char>)
    requires
        resources_addressed(s),
    ensures
        resources_addressed(delete_resource_spec(s, rid)),
{
    if let Some(k) = first_where(s.resources, resource_id_is(rid)) {
        let after = s.resources.remove(k);
        assert forall|j: int| 0 <= j < after.len() implies #[trigger] after[j].id == resource_id_of(after[j].data) by {
            let jj = if j < k { j } else { j + 1 };
            assert(after[j] == s.resources[jj]);
        }
    }
}

/// Request handling over a task store whose input resources live in the store.
pub struct ProxyImpl {
    pub store: Store,
}

impl ProxyImpl {
    pub open spec fn wf(&self) -> bool {
        self.store.wf() && resources_addressed(self.store@)
    }

    pub fn new() -> (r: ProxyImpl)
        ensures
            r.wf(),
            r.store@.tasks.len() == 0,
            r.store@.resources.len() == 0,
            r.store@.workers.len() == 0,
    {
        ProxyImpl { store: Store::new() }
    }

    /// The identifier of this installation: the stored one, or a fresh random
    /// one that is stored for every later call.
    pub fn get_worker_id(&mut self) -> (r: String)
        requires
            old(self).wf(),
        ensures
            final(self).wf(),
            match old(self).store@.worker_info {
                Some(w) => r@ == w && final(self).store@ == old(self).store@,
                None => r@.len() == 36 && final(self).store@ == (StoreView { worker_info: Some(r@), ..old(self).store@ }),
            },
    {
        let fresh = random_uuid_text();
        self.store.get_worker_id_or(fresh)
    }

    /// Stores the resource unless present and creates the task unless present,
    /// at `now`; returns the task identifier. Submitting the same thing again
    /// returns the same identifier and changes nothing.
    pub fn add_task_inner_at(
        &mut self,
        addr: &MinerAddress,
        comment: String,
        task_type: TaskType,
        resource_bytes: Vec<u8>,
        now: i64,
    ) -> (r: String)
        requires
            old(self).wf(),
        ensures
            final(self).wf(),
            r@ == task_id_of(addr.payload@, task_type, resource_bytes@),
            final(self).store@ == submit_spec(
                old(self).store@,
                addr.payload@,
                crate::address::without_network(addr.text@),
                task_type,
                resource_bytes@,
                comment@,
                now,
            ),
    {
        let resource_id = gen_resource_id(resource_bytes.as_slice());
        let task_id = gen_task_id(addr.payload.as_slice(), task_type, resource_bytes.as_slice());
        if !self.store.has_resource(&resource_id) {
            self.store.store_resource_info_at(resource_id.clone(), resource_bytes, now);
        }
        if !self.store.has_task(&task_id) {
            let _ = self.store.add_task_at(task_id.clone(), addr.miner_text(), task_type, resource_id, comment, now);
        }
        task_id
    }

    /// `add_task_inner_at` at the current time.
    pub fn add_task_inner(
        &mut self,
        addr: &MinerAddress,
        comment: String,
        task_type: TaskType,
        resource_bytes: Vec<u8>,
    ) -> (r: String)
        requires
            old(self).wf(),
        ensures
            final(self).wf(),
            r@ == task_id_of(addr.payload@, task_type, resource_bytes@),
            exists|now: i64|
                final(self).store@ == #[trigger] submit_spec(
                    old(self).store@,
                    addr.payload@,
                    crate::address::without_network(addr.text@),
                    task_type,
                    resource_bytes@,
                    comment@,
                    now,
                ),
    {
        let now = unix_now();
        self.add_task_inner_at(addr, comment, task_type, resource_bytes, now)
    }

    /// Submits the payload `param` as a task of type `task_type` for miner
    /// `miner` at `now`. `param_parses` tells whether `param` parses as the
    /// input of `task_type`. Fails with `InvalidParams` on a malformed address
    /// or payload.
    pub fn add_task_at(
        &mut self,
        miner: &str,
        comment: String,
        task_type: TaskType,
        param: Base64Byte,
        param_parses: bool,
        now: i64,
    ) -> (r: Result<String, RepoError>)
        requires
            old(self).wf(),
        ensures
            final(self).wf(),
            r is Err ==> final(self).store@ == old(self).store@,
            r matches Err(e) ==> e is InvalidParams,
            (crate::address::parse_safe(miner@) && crate::address::parsed_address(miner@) is Some
                && param_parses) <==> r is Ok,
            r matches Ok(id) ==> ({
                let (p, t) = crate::address::parsed_address(miner@)->0;
                &&& id@ == task_id_of(p, task_type, param.0@)
                &&& final(self).store@ == submit_spec(
                    old(self).store@,
                    p,
                    crate::address::without_network(t),
                    task_type,
                    param.0@,
                    comment@,
                    now,
                )
            }),
    {
        let addr = MinerAddress::parse(miner)?;
        if !param_parses {
            return Err(RepoError::InvalidParams(String::from_str("payload does not parse as the task type's input")));
        }
        Ok(self.add_task_inner_at(&addr, comment, task_type, param.0, now))
    }

    /// The task with identifier `id`.
    pub fn get_task(&self, id: &String) -> (r: Result<Task, RepoError>)
        requires
            self.wf(),
        ensures
            r is Ok <==> has_task_spec(self.store@, id@),
            r matches Ok(t) ==> t@.id == id@ && self.store@.tasks.contains(t@),
            r matches Err(e) ==> e is NotFound,
    {
        self.store.fetch(id)
    }

    /// Hands the oldest waiting task of an accepted type to worker `worker_id` at `now`.
    pub fn fetch_todo_at(
        &mut self,
        worker_id: String,
        kinds: Option<Vec<TaskType>>,
        now: i64,
    ) -> (r: Result<Task, RepoError>)
        requires
            old(self).wf(),
        ensures
            final(self).wf(),
            worker_id@.len() == 0 ==> (r matches Err(e) && e is InvalidParams),
            worker_id@.len() > 0 ==> match claim_spec(old(self).store@, worker_id@, kinds_view(kinds), now) {
                Some((s2, t)) => (r matches Ok(task) && task@ == t && final(self).store@ == s2),
                None => (r matches Err(e) && e is NoWork),
            },
            r is Err ==> final(self).store@ == old(self).store@,
    {
        self.store.fetch_one_todo_at(worker_id, kinds, now)
    }

    /// `fetch_todo_at` at the current time.
    pub fn fetch_todo(&mut self, worker_id: String, kinds: Option<Vec<TaskType>>) -> (r: Result<Task, RepoError>)
        requires
            old(self).wf(),
        ensures
            final(self).wf(),
            worker_id@.len() == 0 ==> (r matches Err(e) && e is InvalidParams),
            worker_id@.len() > 0 ==> exists|now: i64| match #[trigger] claim_spec(old(self).store@, worker_id@, kinds_view(kinds), now) {
                Some((s2, t)) => (r matches Ok(task) && task@ == t && final(self).store@ == s2),
                None => (r matches Err(e) && e is NoWork),
            },
            r is Err ==> final(self).store@ == old(self).store@,
    {
        let now = unix_now();
        self.fetch_todo_at(worker_id, kinds, now)
    }

    /// The input bytes of resource `id`; `NotFound` once released.
    pub fn get_resource_info(&self, id: &String) -> (r: Result<Base64Byte, RepoError>)
        ensures
            r is Ok <==> any(self.store@.resources, resource_id_is(id@)),
            r matches Ok(data) ==> exists|i: int|
                0 <= i < self.store@.resources.len() && self.store@.resources[i].id == id@
                    && #[trigger] self.store@.resources[i].data == data.0@,
            r matches Err(e) ==> e is NotFound,
    {
        match self.store.get_resource_info(id) {
            Ok(data) => Ok(Base64Byte(data)),
            Err(e) => Err(e),
        }
    }

    /// Records the proof of task `id` computed by `worker_id`, at `now`, and,
    /// when the task was running, releases its input resource. A task in
    /// another state is left as it is. Fails with `NotFound` for an unknown task.
    pub fn record_proof_at(&mut self, worker_id: String, id: &String, proof: Base64Byte, now: i64) -> (r: Result<(), RepoError>)
        requires
            old(self).wf(),
        ensures
            final(self).wf(),
            r is Ok <==> has_task_spec(old(self).store@, id@),
            r matches Err(e) ==> e is NotFound && final(self).store@ == old(self).store@,
            r is Ok ==> exists|i: int|
                0 <= i < old(self).store@.tasks.len() && old(self).store@.tasks[i].id == id@
                    && final(self).store@ == #[trigger] proof_done_spec(old(self).store@, worker_id@, i, proof.0@, now),
    {
        let ghost s0 = self.store@;
        let task = self.store.fetch(id)?;
        let ghost i = choose|i: int| 0 <= i < s0.tasks.len() && s0.tasks[i] == task@;
        assert(s0.tasks[i].id == id@);
        let was_running = task.state == TaskState::Running;
        self.store.record_proof_at(worker_id, id, proof.0, now);
        if was_running {
            proof {
                lemma_addressed_delete(self.store@, task.resource_id@);
            }
            self.store.delete_resource(&task.resource_id);
        }
        assert(self.store@ == proof_done_spec(s0, worker_id@, i, proof.0@, now));
        Ok(())
    }

    /// `record_proof_at` at the current time.
    pub fn record_proof(&mut self, worker_id: String, id: &String, proof: Base64Byte) -> (r: Result<(), RepoError>)
        requires
            old(self).wf(),
        ensures
            final(self).wf(),
            r is Ok <==> has_task_spec(old(self).store@, id@),
            r matches Err(e) ==> e is NotFound && final(self).store@ == old(self).store@,
            r is Ok ==> exists|i: int, now: i64|
                0 <= i < old(self).store@.tasks.len() && old(self).store@.tasks[i].id == id@
                    && final(self).store@ == #[trigger] proof_done_spec(old(self).store@, worker_id@, i, proof.0@, now),
    {
        let now = unix_now();
        self.record_proof_at(worker_id, id, proof, now)
    }

    /// Records the failure of task `id` reported by `worker_id`; the input
    /// resource stays for a retry.
    pub fn record_error(&mut self, worker_id: String, id: &String, msg: String)
        requires
            old(self).wf(),
        ensures
            final(self).wf(),
            final(self).store@ == record_error_spec(old(self).store@, worker_id@, id@, msg@),
    {
        self.store.record_error(worker_id, id, msg)
    }

    /// The tasks that worker `worker_id` runs, oldest first.
    pub fn fetch_uncompleted(&self, worker_id: &String) -> (r: Vec<Task>)
        ensures
            crate::store::task_views(r@) == crate::seqs::oldest_first(
                self.store@.tasks,
                crate::store::running_for(worker_id@),
            ),
    {
        self.store.fetch_uncompleted(worker_id)
    }

    /// The tasks that pass the filters, newest first.
    pub fn list_task(&self, worker_id: &Option<String>, states: &Option<Vec<TaskState>>) -> (r: Vec<Task>)
        ensures
            crate::store::task_views(r@) == crate::seqs::newest_first(
                self.store@.tasks,
                crate::store::listed_by(
                    crate::store::opt_string_view(*worker_id),
                    crate::store::opt_states_view(*states),
                ),
            ),
    {
        self.store.list_task(worker_id, states)
    }

    /// Operator override of the state of the tasks `ids`.
    pub fn update_status_by_id(&mut self, ids: &Vec<String>, state: TaskState)
        requires
            old(self).wf(),
        ensures
            final(self).wf(),
            final(self).store@ == crate::store::update_status_spec(
                old(self).store@,
                crate::store::string_views(ids@),
                state,
            ),
    {
        self.store.update_status_by_id(ids, state)
    }

    /// Records a report of worker `worker_id` at `now`; a first report creates
    /// its row under a fresh random identifier.
    pub fn report_worker_info_at(
        &mut self,
        worker_id: String,
        ips: String,
        support_types: String,
        now: i64,
    ) -> (r: Result<(), RepoError>)
        requires
            old(self).wf(),
        ensures
            final(self).wf(),
            any(old(self).store@.workers, crate::store::worker_id_is(worker_id@)) ==> r is Ok,
            r matches Err(e) ==> e is AlreadyExists && final(self).store@ == old(self).store@,
            r is Ok ==> exists|row_id: Seq<char>|
                final(self).store@ == #[trigger] report_worker_spec(
                    old(self).store@,
                    worker_id@,
                    ips@,
                    support_types@,
                    now,
                    row_id,
                ),
    {
        let row_id = random_uuid_text();
        self.store.report_worker_info_at(worker_id, ips, support_types, now, row_id)
    }

    /// `report_worker_info_at` at the current time.
    pub fn report_worker_info(&mut self, worker_id: String, ips: String, support_types: String) -> (r: Result<(), RepoError>)
        requires
            old(self).wf(),
        ensures
            final(self).wf(),
            any(old(self).store@.workers, crate::store::worker_id_is(worker_id@)) ==> r is Ok,
            r matches Err(e) ==> e is AlreadyExists && final(self).store@ == old(self).store@,
            r is Ok ==> exists|row_id: Seq<char>, now: i64|
                final(self).store@ == #[trigger] report_worker_spec(
                    old(self).store@,
                    worker_id@,
                    ips@,
                    support_types@,
                    now,
                    row_id,
                ),
    {
        let now = unix_now();
        self.report_worker_info_at(worker_id, ips, support_types, now)
    }

    /// Every worker registration, newest first.
    pub fn list_worker(&self) -> (r: Vec<WorkerState>)
        ensures
            crate::store::worker_views(r@) == crate::seqs::newest_first(
                self.store@.workers,
                crate::store::every_worker(),
            ),
    {
        self.store.list_worker()
    }

    /// The registration of worker `worker_id`.
    pub fn get_worker_by_worker_id(&self, worker_id: &String) -> (r: Result<WorkerState, RepoError>)
        ensures
            r is Ok <==> any(self.store@.workers, crate::store::worker_id_is(worker_id@)),
            r matches Ok(w) ==> w@.worker_id == worker_id@ && self.store@.workers.contains(w@),
            r matches Err(e) ==> e is NotFound,
    {
        self.store.get_worker_by_worker_id(worker_id)
    }

    /// The registration row `id`.
    pub fn get_worker_by_id(&self, id: &String) -> (r: Result<WorkerState, RepoError>)
        ensures
            r is Ok <==> any(self.store@.workers, crate::store::row_id_is(id@)),
            r matches Ok(w) ==> w@.id == id@ && self.store@.workers.contains(w@),
            r matches Err(e) ==> e is NotFound,
    {
        self.store.get_worker_by_id(id)
    }

    /// Removes the registration of worker `worker_id`, if present.
    pub fn delete_worker_by_worker_id(&mut self, worker_id: &String)
        requires
            old(self).wf(),
        ensures
            final(self).wf(),
            final(self).store@ == (StoreView {
                workers: match first_where(old(self).store@.workers, crate::store::worker_id_is(worker_id@)) {
                    Some(i) => old(self).store@.workers.remove(i),
                    None => old(self).store@.workers,
                },
                ..old(self).store@
            }),
    {
        self.store.delete_worker_by_worker_id(worker_id)
    }

    /// Removes the registration row `id`, if present.
    pub fn delete_worker_by_id(&mut self, id: &String)
        requires
            old(self).wf(),
        ensures
            final(self).wf(),
            final(self).store@ == (StoreView {
                workers: match first_where(old(self).store@.workers, crate::store::row_id_is(id@)) {
                    Some(i) => old(self).store@.workers.remove(i),
                    None => old(self).store@.workers,
                },
                ..old(self).store@
            }),
    {
        self.store.delete_worker_by_id(id)
    }

    /// The workers silent for more than `dur` seconds, measured from now.
    pub fn get_offline_worker(&self, dur: i64) -> (r: Vec<WorkerState>)
        ensures
            exists|now: i64|
                crate::store::worker_views(r@) == crate::seqs::newest_first(
                    self.store@.workers,
                    #[trigger] crate::store::offline_since(dur, now),
                ),
    {
        let now = unix_now();
        self.store.get_offline_worker_at(dur, now)
    }
}

/// Submitting the same miner, type and payload again returns the same
/// identifier and changes nothing, whatever the comment and the time: N
/// submissions leave exactly one task row and one resource row for it, and
/// a resource the first submission stored holds the payload.
pub proof fn lemma_submit_idempotent(
    s: StoreView,
    payload: Seq<u8>,
    miner: Seq<char>,
    task_type: TaskType,
    data: Seq<u8>,
    comment1: Seq<char>,
    now1: i64,
    comment2: Seq<char>,
    now2: i64,
)
    requires
        store_wf(s),
        resources_addressed(s),
    ensures
        ({
            let s1 = submit_spec(s, payload, miner, task_type, data, comment1, now1);
            let tid = task_id_of(payload, task_type, data);
            let rid = resource_id_of(data);
            &&& submit_spec(s1, payload, miner, task_type, data, comment2, now2) == s1
            &&& resources_addressed(s1)
            &&& !any(s.resources, resource_id_is(rid)) ==> forall|i: int|
                0 <= i < s1.resources.len() && #[trigger] s1.resources[i].id == rid ==> s1.resources[i].data == data
            &&& has_task_spec(s1, tid)
            &&& any(s1.resources, resource_id_is(rid))
            &&& forall|i: int, j: int|
                0 <= i < s1.tasks.len() && 0 <= j < s1.tasks.len() && #[trigger] s1.tasks[i].id == tid
                    && #[trigger] s1.tasks[j].id == tid ==> i == j
            &&& forall|i: int, j: int|
                0 <= i < s1.resources.len() && 0 <= j < s1.resources.len() && #[trigger] s1.resources[i].id
                    == rid && #[trigger] s1.resources[j].id == rid ==> i == j
        }),
{
    let tid = task_id_of(payload, task_type, data);
    let rid = resource_id_of(data);
    let s0 = put_resource_spec(s, rid, data, now1);
    let s1 = submit_spec(s, payload, miner, task_type, data, comment1, now1);
    if !any(s.resources, resource_id_is(rid)) {
        let n = s.resources.len() as int;
        assert(resource_id_is(rid)(s0.resources[n]));
        assert forall|i: int| 0 <= i < s0.resources.len() implies #[trigger] s0.resources[i].id == resource_id_of(
            s0.resources[i].data,
        ) by {
            if i < n {
                assert(s0.resources[i] == s.resources[i]);
            }
        }
        assert forall|i: int| 0 <= i < s0.resources.len() && #[trigger] s0.resources[i].id == rid implies s0.resources[i].data
            == data by {
            if i < n {
                assert(resource_id_is(rid)(s.resources[i]));
            }
        }
        assert forall|i: int, j: int|
            0 <= i < s0.resources.len() && 0 <= j < s0.resources.len() && #[trigger] s0.resources[i].id == rid
                && #[trigger] s0.resources[j].id == rid implies i == j by {
            if i < n {
                assert(resource_id_is(rid)(s.resources[i]));
            }
            if j < n {
                assert(resource_id_is(rid)(s.resources[j]));
            }
        }
    } else {
        let k = choose|k: int| 0 <= k < s.resources.len() && resource_id_is(rid)(#[trigger] s.resources[k]);
        assert(resource_id_is(rid)(s0.resources[k]));
    }
    assert(s1.resources == s0.resources);
    assert(any(s1.resources, resource_id_is(rid)));
    if has_task_spec(s0, tid) {
        assert forall|i: int, j: int|
            0 <= i < s1.tasks.len() && 0 <= j < s1.tasks.len() && #[trigger] s1.tasks[i].id == tid
                && #[trigger] s1.tasks[j].id == tid implies i == j by {
            assert(s1.tasks == s.tasks);
        }
    } else {
        let t = new_task_view(tid, miner, task_type, rid, comment1, now1);
        let p = task_insert_pos(s0.tasks, now1);
        lemma_first_where_some(s0.tasks, task_created_after(now1));
        assert(s1.tasks[p] == t);
        assert(task_id_is(tid)(s1.tasks[p]));
        assert forall|i: int, j: int|
            0 <= i < s1.tasks.len() && 0 <= j < s1.tasks.len() && #[trigger] s1.tasks[i].id == tid
                && #[trigger] s1.tasks[j].id == tid implies i == j by {
            if i < p {
                assert(s1.tasks[i] == s0.tasks[i]);
                assert(task_id_is(tid)(s0.tasks[i]));
            } else if i > p {
                assert(s1.tasks[i] == s0.tasks[i - 1]);
                assert(task_id_is(tid)(s0.tasks[i - 1]));
            }
            if j < p {
                assert(s1.tasks[j] == s0.tasks[j]);
                assert(task_id_is(tid)(s0.tasks[j]));
            } else if j > p {
                assert(s1.tasks[j] == s0.tasks[j - 1]);
                assert(task_id_is(tid)(s0.tasks[j - 1]));
            }
        }
    }
}

/// Once a proof is recorded for a running task its input resource is gone,
/// so a lookup of it fails with `NotFound`; a recorded error leaves the
/// resources as they were, so the lookup still succeeds.
pub proof fn lemma_resource_released(
    s: StoreView,
    w: Seq<char>,
    i: int,
    proof: Seq<u8>,
    now: i64,
    msg: Seq<char>,
)
    requires
        store_wf(s),
        0 <= i < s.tasks.len(),
    ensures
        s.tasks[i].state == TaskState::Running ==> !any(proof_done_spec(s, w, i, proof, now).resources, resource_id_is(s.tasks[i].resource_id)),
        record_error_spec(s, w, s.tasks[i].id, msg).resources == s.resources,
{
    let rid = s.tasks[i].resource_id;
    let rs = s.resources;
    let after = proof_done_spec(s, w, i, proof, now).resources;
    lemma_first_where_some(rs, resource_id_is(rid));
    if s.tasks[i].state != TaskState::Running {
    } else if let Some(k) = first_where(rs, resource_id_is(rid)) {
        assert(after == rs.remove(k));
        assert forall|j: int| 0 <= j < after.len() implies !resource_id_is(rid)(#[trigger] after[j]) by {
            let jj = if j < k { j } else { j + 1 };
            assert(after[j] == rs[jj]);
            assert(rs[jj].id != rs[k].id);
        }
    } else {
        assert(after == rs);
    }
}

} // verus!
