use gpuproxy::address::MinerAddress;
use gpuproxy::base64bytes::Base64Byte;
use gpuproxy::coordinator::ProxyImpl;
use gpuproxy::ids::gen_resource_id;
use gpuproxy::model::{RepoError, TaskState, TaskType};
use gpuproxy::store::{ResourceOp, Store};

fn s(x: &str) -> String {
    x.to_string()
}

fn payload() -> Vec<u8> {
    b"{\"prover_id\":[1],\"sector_id\":7}".to_vec()
}

#[test]
fn db_ops_test_status() {
    let mut store = Store::new();
    store.add_task_at(s("a"), s("01001"), TaskType::C2, s("r"), s(""), 10).unwrap();
    assert_eq!(store.get_status(&s("a")).unwrap(), TaskState::Init);
    assert!(matches!(store.get_status(&s("b")), Err(RepoError::NotFound(_))));
}

#[test]
fn task_pool_test_status() {
    let mut store = Store::new();
    store.add_task_at(s("a"), s("01001"), TaskType::C2, s("r"), s(""), 10).unwrap();
    store.fetch_one_todo_at(s("w1"), None, 11).unwrap();
    assert_eq!(store.get_status(&s("a")).unwrap(), TaskState::Running);
}

#[test]
fn add_task_row_and_duplicate() {
    let mut store = Store::new();
    let id = store.add_task_at(s("t1"), s("01001"), TaskType::C2, s("r1"), s("note"), 100).unwrap();
    assert_eq!(id, "t1");
    let t = store.fetch(&s("t1")).unwrap();
    assert_eq!(t.state, TaskState::Init);
    assert_eq!(t.worker_id, "");
    assert_eq!(t.create_at, 100);
    assert_eq!(t.start_at, 0);
    assert_eq!(t.complete_at, 0);
    assert_eq!(t.comment, "note");
    assert!(t.proof.is_empty());
    assert!(matches!(
        store.add_task_at(s("t1"), s("x"), TaskType::C2, s("r2"), s(""), 200),
        Err(RepoError::AlreadyExists(_))
    ));
    assert!(store.has_task(&s("t1")));
    assert!(!store.has_task(&s("t2")));
    assert!(matches!(store.fetch(&s("t2")), Err(RepoError::NotFound(_))));
}

#[test]
fn submit_twice_keeps_one_task_and_one_resource() {
    let mut proxy = ProxyImpl::new();
    let a = proxy.add_task_at("t01001", s(""), TaskType::C2, Base64Byte::new(payload()), true, 100).unwrap();
    let b = proxy.add_task_at("t01001", s(""), TaskType::C2, Base64Byte::new(payload()), true, 200).unwrap();
    let c = proxy.add_task_at("t01001", s("again"), TaskType::C2, Base64Byte::new(payload()), true, 300).unwrap();
    assert_eq!(a, b);
    assert_eq!(a, c);
    let all = proxy.list_task(&None, &None);
    assert_eq!(all.len(), 1);
    assert_eq!(all[0].id, a);
    assert_eq!(all[0].miner, "01001");
    assert_eq!(all[0].create_at, 100);
    let rid = gen_resource_id(&payload());
    assert_eq!(all[0].resource_id, rid);
    assert_eq!(proxy.get_resource_info(&rid).unwrap().0, payload());
}

#[test]
fn submit_rejects_payload_of_wrong_shape() {
    let mut proxy = ProxyImpl::new();
    assert!(matches!(
        proxy.add_task_at("t01001", s(""), TaskType::C2, Base64Byte::new(payload()), false, 1),
        Err(RepoError::InvalidParams(_))
    ));
    assert!(proxy.list_task(&None, &None).is_empty());
    assert!(matches!(
        proxy.get_resource_info(&gen_resource_id(&payload())),
        Err(RepoError::NotFound(_))
    ));
}

#[test]
fn record_error_marks_any_unfinished_task() {
    let mut store = Store::new();
    store.add_task_at(s("a"), s("m"), TaskType::C2, s("r"), s(""), 10).unwrap();
    store.record_error(s("w1"), &s("a"), s("first"));
    let t = store.fetch(&s("a")).unwrap();
    assert_eq!(t.state, TaskState::Error);
    assert_eq!(t.worker_id, "w1");
    assert_eq!(t.error_msg, "first");
    store.record_error(s("w2"), &s("a"), s("second"));
    let t = store.fetch(&s("a")).unwrap();
    assert_eq!(t.state, TaskState::Error);
    assert_eq!(t.worker_id, "w2");
    assert_eq!(t.error_msg, "second");
}

#[test]
fn late_proof_keeps_input_of_reset_task() {
    let mut proxy = ProxyImpl::new();
    let id = proxy.add_task_at("t01001", s(""), TaskType::C2, Base64Byte::new(payload()), true, 100).unwrap();
    proxy.fetch_todo_at(s("w1"), None, 110).unwrap();
    proxy.update_status_by_id(&vec![id.clone()], TaskState::Init);
    proxy.record_proof_at(s("w1"), &id, Base64Byte::new(vec![1]), 120).unwrap();
    let t = proxy.get_task(&id).unwrap();
    assert_eq!(t.state, TaskState::Init);
    assert!(proxy.get_resource_info(&t.resource_id).is_ok());
}

#[test]
fn submit_rejects_bad_miner() {
    let mut proxy = ProxyImpl::new();
    assert!(matches!(
        proxy.add_task_at("nonsense", s(""), TaskType::C2, Base64Byte::new(payload()), true, 1),
        Err(RepoError::InvalidParams(_))
    ));
    assert!(proxy.list_task(&None, &None).is_empty());
}

#[test]
fn two_workers_race_for_one_task() {
    let mut proxy = ProxyImpl::new();
    let id = proxy.add_task_at("t01001", s(""), TaskType::C2, Base64Byte::new(payload()), true, 100).unwrap();
    let first = proxy.fetch_todo_at(s("w1"), None, 110).unwrap();
    assert_eq!(first.id, id);
    assert_eq!(first.state, TaskState::Running);
    assert_eq!(first.worker_id, "w1");
    assert_eq!(first.start_at, 110);
    assert!(matches!(proxy.fetch_todo_at(s("w2"), None, 111), Err(RepoError::NoWork)));
}

#[test]
fn claims_go_oldest_first_and_never_twice() {
    let mut store = Store::new();
    store.add_task_at(s("b"), s("m"), TaskType::C2, s("r"), s(""), 20).unwrap();
    store.add_task_at(s("a"), s("m"), TaskType::C2, s("r"), s(""), 10).unwrap();
    store.add_task_at(s("c"), s("m"), TaskType::C2, s("r"), s(""), 30).unwrap();
    let workers = ["w1", "w2", "w3", "w4", "w5"];
    let mut got = Vec::new();
    for w in workers.iter() {
        match store.fetch_one_todo_at(s(w), Some(vec![TaskType::C2]), 40) {
            Ok(t) => got.push((t.id, t.worker_id)),
            Err(e) => assert!(matches!(e, RepoError::NoWork)),
        }
    }
    assert_eq!(got, vec![(s("a"), s("w1")), (s("b"), s("w2")), (s("c"), s("w3"))]);
}

#[test]
fn claim_with_empty_worker_or_no_kinds() {
    let mut store = Store::new();
    store.add_task_at(s("a"), s("m"), TaskType::C2, s("r"), s(""), 10).unwrap();
    assert!(matches!(store.fetch_one_todo_at(s(""), None, 11), Err(RepoError::InvalidParams(_))));
    assert!(matches!(store.fetch_one_todo_at(s("w"), Some(vec![]), 11), Err(RepoError::NoWork)));
    assert_eq!(store.get_status(&s("a")).unwrap(), TaskState::Init);
}

#[test]
fn restart_recovery_then_proof_releases_resource() {
    let mut proxy = ProxyImpl::new();
    let id = proxy.add_task_at("t01001", s(""), TaskType::C2, Base64Byte::new(payload()), true, 100).unwrap();
    proxy.fetch_todo_at(s("w1"), None, 110).unwrap();
    let resumed = proxy.fetch_uncompleted(&s("w1"));
    assert_eq!(resumed.len(), 1);
    assert_eq!(resumed[0].id, id);
    assert!(proxy.fetch_uncompleted(&s("w2")).is_empty());
    let rid = resumed[0].resource_id.clone();
    assert!(proxy.get_resource_info(&rid).is_ok());
    proxy.record_proof_at(s("w1"), &id, Base64Byte::new(vec![9, 9, 9]), 150).unwrap();
    let t = proxy.get_task(&id).unwrap();
    assert_eq!(t.state, TaskState::Completed);
    assert_eq!(t.proof, vec![9, 9, 9]);
    assert_eq!(t.error_msg, "");
    assert_eq!(t.complete_at, 150);
    assert!(matches!(proxy.get_resource_info(&rid), Err(RepoError::NotFound(_))));
    assert!(proxy.fetch_uncompleted(&s("w1")).is_empty());
}

#[test]
fn recorded_error_keeps_resource() {
    let mut proxy = ProxyImpl::new();
    let id = proxy.add_task_at("t01001", s(""), TaskType::C2, Base64Byte::new(payload()), true, 100).unwrap();
    proxy.fetch_todo_at(s("w1"), None, 110).unwrap();
    proxy.record_error(s("w1"), &id, s("gpu failed"));
    assert_eq!(proxy.get_task(&id).unwrap().worker_id, "w1");
    let t = proxy.get_task(&id).unwrap();
    assert_eq!(t.state, TaskState::Error);
    assert_eq!(t.error_msg, "gpu failed");
    assert!(proxy.get_resource_info(&t.resource_id).is_ok());
}

#[test]
fn record_proof_on_unknown_task_fails() {
    let mut proxy = ProxyImpl::new();
    assert!(matches!(
        proxy.record_proof_at(s("w1"), &s("missing"), Base64Byte::new(vec![1]), 1),
        Err(RepoError::NotFound(_))
    ));
}

#[test]
fn record_proof_outside_running_changes_nothing() {
    let mut store = Store::new();
    store.add_task_at(s("a"), s("m"), TaskType::C2, s("r"), s(""), 10).unwrap();
    store.record_proof_at(s("w1"), &s("a"), vec![1], 20);
    let t = store.fetch(&s("a")).unwrap();
    assert_eq!(t.state, TaskState::Init);
    assert_eq!(t.worker_id, "");
    store.fetch_one_todo_at(s("w1"), None, 30).unwrap();
    store.record_proof_at(s("w1"), &s("a"), vec![1], 40);
    store.record_error(s("w1"), &s("a"), s("late"));
    let t = store.fetch(&s("a")).unwrap();
    assert_eq!(t.state, TaskState::Completed);
    assert_eq!(t.error_msg, "");
}

#[test]
fn failed_task_reset_runs_again() {
    let mut proxy = ProxyImpl::new();
    let id = proxy.add_task_at("t01001", s(""), TaskType::C2, Base64Byte::new(payload()), true, 100).unwrap();
    proxy.fetch_todo_at(s("w1"), None, 110).unwrap();
    proxy.record_error(s("w1"), &id, s("boom"));
    assert_eq!(proxy.get_task(&id).unwrap().state, TaskState::Error);
    proxy.update_status_by_id(&vec![id.clone()], TaskState::Init);
    assert_eq!(proxy.get_task(&id).unwrap().state, TaskState::Init);
    let t = proxy.fetch_todo_at(s("w2"), None, 120).unwrap();
    assert_eq!(t.state, TaskState::Running);
    assert_eq!(t.worker_id, "w2");
    proxy.record_proof_at(s("w2"), &id, Base64Byte::new(vec![7]), 130).unwrap();
    assert_eq!(proxy.get_task(&id).unwrap().state, TaskState::Completed);
}

#[test]
fn operator_override_leaves_other_fields() {
    let mut store = Store::new();
    store.add_task_at(s("a"), s("m"), TaskType::C2, s("r"), s(""), 10).unwrap();
    store.add_task_at(s("b"), s("m"), TaskType::C2, s("r"), s(""), 11).unwrap();
    store.fetch_one_todo_at(s("w1"), None, 12).unwrap();
    store.update_status_by_id(&vec![s("a"), s("zz")], TaskState::Init);
    let a = store.fetch(&s("a")).unwrap();
    assert_eq!(a.state, TaskState::Init);
    assert_eq!(a.worker_id, "w1");
    assert_eq!(store.fetch(&s("b")).unwrap().state, TaskState::Init);
}

#[test]
fn listing_is_newest_first_and_filtered() {
    let mut store = Store::new();
    store.add_task_at(s("a"), s("m"), TaskType::C2, s("r"), s(""), 10).unwrap();
    store.add_task_at(s("b"), s("m"), TaskType::C2, s("r"), s(""), 20).unwrap();
    store.add_task_at(s("c"), s("m"), TaskType::C2, s("r"), s(""), 30).unwrap();
    store.add_task_at(s("d"), s("m"), TaskType::C2, s("r"), s(""), 15).unwrap();
    let all = store.list_task(&None, &None);
    let times: Vec<i64> = all.iter().map(|t| t.create_at).collect();
    assert_eq!(times, vec![30, 20, 15, 10]);
    store.fetch_one_todo_at(s("w1"), None, 40).unwrap();
    let running = store.list_task(&Some(s("w1")), &Some(vec![TaskState::Running]));
    assert_eq!(running.len(), 1);
    assert_eq!(running[0].id, "a");
    let waiting = store.list_task(&None, &Some(vec![TaskState::Init]));
    let ids: Vec<String> = waiting.iter().map(|t| t.id.clone()).collect();
    assert_eq!(ids, vec![s("c"), s("b"), s("d")]);
    assert!(store.list_task(&Some(s("w9")), &None).is_empty());
}

#[test]
fn listing_reverses_add_times() {
    let mut store = Store::new();
    for (i, t) in [5i64, 7, 7, 9, 12].iter().enumerate() {
        store.add_task_at(format!("t{}", i), s("m"), TaskType::C2, s("r"), s(""), *t).unwrap();
    }
    let got: Vec<(String, i64)> = store.list_task(&None, &None).iter().map(|t| (t.id.clone(), t.create_at)).collect();
    assert_eq!(
        got,
        vec![(s("t4"), 12), (s("t3"), 9), (s("t2"), 7), (s("t1"), 7), (s("t0"), 5)]
    );
}

#[test]
fn idle_exactly_when_init() {
    let mut store = Store::new();
    store.add_task_at(s("a"), s("m"), TaskType::C2, s("r"), s(""), 1).unwrap();
    store.add_task_at(s("b"), s("m"), TaskType::C2, s("r"), s(""), 2).unwrap();
    store.add_task_at(s("c"), s("m"), TaskType::C2, s("r"), s(""), 3).unwrap();
    store.fetch_one_todo_at(s("w1"), None, 4).unwrap();
    store.fetch_one_todo_at(s("w2"), None, 5).unwrap();
    store.record_proof_at(s("w1"), &s("a"), vec![1], 6);
    store.record_error(s("w2"), &s("b"), s("x"));
    for t in store.list_task(&None, &None) {
        assert_eq!(t.worker_id.is_empty(), t.state == TaskState::Init);
    }
}

#[test]
fn resources_put_get_delete() {
    let mut store = Store::new();
    assert!(!store.has_resource(&s("r")));
    assert_eq!(store.store_resource_info_at(s("r"), vec![1, 2], 5), "r");
    assert_eq!(store.store_resource_info_at(s("r"), vec![1, 2], 6), "r");
    assert!(store.has_resource(&s("r")));
    assert_eq!(store.get_resource_info(&s("r")).unwrap(), vec![1, 2]);
    store.delete_resource(&s("r"));
    assert!(!store.has_resource(&s("r")));
    assert!(matches!(store.get_resource_info(&s("r")), Err(RepoError::NotFound(_))));
    store.delete_resource(&s("r"));
}

#[test]
fn worker_registry() {
    let mut store = Store::new();
    store.report_worker_info_at(s("w1"), s("10.0.0.1"), s("C2"), 0, s("row1")).unwrap();
    store.report_worker_info_at(s("w2"), s("10.0.0.2"), s(""), 10, s("row2")).unwrap();
    store.report_worker_info_at(s("w1"), s("10.0.0.9"), s("C2"), 60, s("ignored")).unwrap();
    assert!(matches!(
        store.report_worker_info_at(s("w3"), s(""), s(""), 70, s("row1")),
        Err(RepoError::AlreadyExists(_))
    ));
    let all = store.list_worker();
    let ids: Vec<String> = all.iter().map(|w| w.worker_id.clone()).collect();
    assert_eq!(ids, vec![s("w2"), s("w1")]);
    let w1 = store.get_worker_by_worker_id(&s("w1")).unwrap();
    assert_eq!(w1.id, "row1");
    assert_eq!(w1.ips, "10.0.0.9");
    assert_eq!(w1.create_at, 0);
    assert_eq!(w1.update_at, 60);
    assert_eq!(store.get_worker_by_id(&s("row2")).unwrap().worker_id, "w2");
    assert!(matches!(store.get_worker_by_id(&s("nope")), Err(RepoError::NotFound(_))));
    store.delete_worker_by_id(&s("row2"));
    assert!(store.get_worker_by_worker_id(&s("w2")).is_err());
    store.delete_worker_by_worker_id(&s("w1"));
    assert!(store.list_worker().is_empty());
}

#[test]
fn offline_workers_boundary() {
    let mut store = Store::new();
    store.report_worker_info_at(s("w1"), s(""), s(""), 0, s("row1")).unwrap();
    store.report_worker_info_at(s("w1"), s(""), s(""), 60, s("row1b")).unwrap();
    store.report_worker_info_at(s("w2"), s(""), s(""), 85, s("row2")).unwrap();
    let at_91: Vec<String> = store.get_offline_worker_at(30, 91).iter().map(|w| w.worker_id.clone()).collect();
    assert_eq!(at_91, vec![s("w1")]);
    assert!(store.get_offline_worker_at(30, 90).is_empty());
    assert_eq!(store.get_offline_worker_at(0, 100).len(), 2);
    assert!(store.get_offline_worker_at(i64::MAX, i64::MIN).is_empty());
}

#[test]
fn installation_id_is_kept() {
    let mut store = Store::new();
    let a = store.get_worker_id_or(s("first"));
    let b = store.get_worker_id_or(s("second"));
    assert_eq!(a, "first");
    assert_eq!(b, "first");
}

#[test]
fn clock_based_calls_work() {
    let mut proxy = ProxyImpl::new();
    let addr = MinerAddress::parse("t01001").unwrap();
    let id = proxy.add_task_inner(&addr, s(""), TaskType::C2, payload());
    let t = proxy.fetch_todo(s("w1"), None).unwrap();
    assert_eq!(t.id, id);
    assert!(t.start_at > 0);
    proxy.record_proof(s("w1"), &id, Base64Byte::new(vec![1])).unwrap();
    proxy.report_worker_info(s("w1"), s("1.2.3.4"), s("C2")).unwrap();
    assert!(proxy.get_offline_worker(3600).is_empty());
    assert_eq!(proxy.get_offline_worker(-3600).len(), 1);
    let row = proxy.store.get_worker_by_worker_id(&s("w1")).unwrap();
    assert_eq!(row.id.len(), 36);
    assert_ne!(row.id, "w1");
    let wid = proxy.get_worker_id();
    assert_eq!(wid.len(), 36);
    assert_eq!(proxy.get_worker_id(), wid);
}

#[test]
fn coordinator_registry() {
    let mut proxy = ProxyImpl::new();
    proxy.report_worker_info_at(s("w1"), s("10.0.0.1"), s("C2"), 5).unwrap();
    proxy.report_worker_info_at(s("w2"), s("10.0.0.2"), s("C2"), 6).unwrap();
    let ids: Vec<String> = proxy.list_worker().iter().map(|w| w.worker_id.clone()).collect();
    assert_eq!(ids, vec![s("w2"), s("w1")]);
    let row = proxy.get_worker_by_worker_id(&s("w1")).unwrap();
    assert_eq!(proxy.get_worker_by_id(&row.id).unwrap().worker_id, "w1");
    proxy.delete_worker_by_id(&row.id);
    assert!(proxy.get_worker_by_worker_id(&s("w1")).is_err());
    proxy.delete_worker_by_worker_id(&s("w2"));
    assert!(proxy.list_worker().is_empty());
}

#[test]
fn resource_store_interface() {
    let mut store = Store::new();
    store.store_resource_info_at(s("r"), vec![3], 1);
    assert!(ResourceOp::has_resource(&store, &s("r")));
    assert_eq!(ResourceOp::get_resource_info(&store, &s("r")).unwrap(), vec![3]);
    assert!(ResourceOp::get_resource_info(&store, &s("q")).is_err());
}
