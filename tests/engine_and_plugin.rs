use gpuproxy::config::{sqlite_db_file, ClientConfig, FileResource, Resource, ServiceConfig, WorkerConfig};
use gpuproxy::model::{RepoError, Task, TaskState, TaskType};
use gpuproxy::plugin::{error_response, on_lookup, on_poll, plugin_task, ready_msg, response_for, LookupAction, PollOutcome};
use gpuproxy::ids::gen_task_id;
use gpuproxy::util::short_msg;
use gpuproxy::worker::{ips_text, join_parts, support_types_text, FetchAction, LocalWorker, Report};

fn task(id: &str, state: TaskState) -> Task {
    Task {
        id: id.to_string(),
        miner: "01001".to_string(),
        resource_id: "r".to_string(),
        proof: vec![],
        worker_id: String::new(),
        task_type: TaskType::C2,
        error_msg: String::new(),
        comment: String::new(),
        state,
        create_at: 1,
        start_at: 0,
        complete_at: 0,
    }
}

#[test]
fn fetcher_respects_cap_and_resumes_first() {
    let mut w = LocalWorker::new(2, "w1".to_string(), None);
    w.resume(vec![task("old1", TaskState::Running), task("old2", TaskState::Running)]);
    match w.on_tick() {
        FetchAction::Run(t) => assert_eq!(t.id, "old2"),
        _ => panic!("expected a resumed task"),
    }
    match w.on_tick() {
        FetchAction::Run(t) => assert_eq!(t.id, "old1"),
        _ => panic!("expected a resumed task"),
    }
    assert_eq!(w.in_flight(), 2);
    assert!(matches!(w.on_tick(), FetchAction::Idle));
    w.on_dropped();
    assert_eq!(w.in_flight(), 1);
    assert!(matches!(w.on_tick(), FetchAction::AskTodo));
    let got = w.on_todo(Ok(task("new", TaskState::Running)));
    assert_eq!(got.unwrap().id, "new");
    assert_eq!(w.in_flight(), 2);
    assert!(w.on_todo(Err(RepoError::NoWork)).is_none());
    assert!(w.on_todo(Ok(task("extra", TaskState::Running))).is_none());
    assert_eq!(w.in_flight(), 2);
    w.on_dropped();
    match w.on_tick() {
        FetchAction::Run(t) => assert_eq!(t.id, "extra"),
        _ => panic!("expected the held task"),
    }
}

#[test]
fn executor_reports() {
    let mut w = LocalWorker::new(1, "w1".to_string(), Some(vec![TaskType::C2]));
    assert!(matches!(w.on_tick(), FetchAction::AskTodo));
    w.on_todo(Ok(task("a", TaskState::Running)));
    assert_eq!(w.in_flight(), 1);
    match w.on_finished("a".to_string(), Ok(vec![1, 2])) {
        Report::Proof { worker_id, task_id, proof } => {
            assert_eq!(worker_id, "w1");
            assert_eq!(task_id, "a");
            assert_eq!(proof, vec![1, 2]);
        }
        _ => panic!("expected a proof"),
    }
    assert_eq!(w.in_flight(), 0);
    match w.on_finished("b".to_string(), Err("Panic: oom".to_string())) {
        Report::Error { worker_id, task_id, msg } => {
            assert_eq!(worker_id, "w1");
            assert_eq!(task_id, "b");
            assert_eq!(msg, "Panic: oom");
        }
        _ => panic!("expected an error"),
    }
    assert_eq!(w.in_flight(), 0);
}

#[test]
fn reported_texts() {
    assert_eq!(support_types_text(&None), "");
    assert_eq!(support_types_text(&Some(vec![TaskType::C2])), "C2");
    assert_eq!(support_types_text(&Some(vec![TaskType::C2, TaskType::C2])), "C2|C2");
    assert_eq!(join_parts(&vec![]), "");
    assert_eq!(join_parts(&vec!["a".to_string(), "b".to_string(), "c".to_string()]), "a|b|c");
    let ips = vec![
        (false, "fe80::1".to_string()),
        (true, "127.0.0.1".to_string()),
        (true, "192.168.1.2".to_string()),
        (false, "::1".to_string()),
        (true, "10.0.0.3".to_string()),
    ];
    assert_eq!(ips_text(None, &ips), "192.168.1.2|10.0.0.3|fe80::1");
    assert_eq!(ips_text(Some("1.1.1.1".to_string()), &ips), "1.1.1.1");
    assert_eq!(ips_text(None, &vec![(true, "127.0.0.1".to_string())]), "");
}

#[test]
fn plugin_ready_line() {
    assert_eq!(ready_msg("c2"), "c2 processor ready\n");
}

#[test]
fn plugin_task_id_matches_coordinator() {
    let (addr, id) = plugin_task(1001, b"input");
    assert_eq!(addr.payload, vec![0xe9, 0x07]);
    assert_eq!(id, gen_task_id(&[0xe9, 0x07], TaskType::C2, b"input"));
}

#[test]
fn plugin_lookup_decisions() {
    assert!(matches!(on_lookup(&Ok(task("a", TaskState::Error))), LookupAction::ResetThenTrack));
    assert!(matches!(on_lookup(&Ok(task("a", TaskState::Running))), LookupAction::Track));
    assert!(matches!(on_lookup(&Ok(task("a", TaskState::Completed))), LookupAction::Track));
    assert!(matches!(on_lookup(&Err(RepoError::NotFound("a".to_string()))), LookupAction::Create));
    assert!(matches!(on_lookup(&Err(RepoError::InvalidParams("x".to_string()))), LookupAction::Fail(_)));
}

#[test]
fn plugin_poll_and_respond() {
    let mut done = task("a", TaskState::Completed);
    done.proof = vec![4, 5];
    let out = on_poll(Ok(done));
    let resp = response_for(7, out).unwrap();
    assert_eq!(resp.id, 7);
    assert_eq!(resp.output, Some(vec![4, 5]));
    assert_eq!(resp.err_msg, None);

    let mut failed = task("a", TaskState::Error);
    failed.error_msg = "bad".to_string();
    let resp = response_for(8, on_poll(Ok(failed))).unwrap();
    assert_eq!(resp.err_msg, Some("bad".to_string()));
    assert_eq!(resp.output, None);

    assert!(matches!(on_poll(Ok(task("a", TaskState::Running))), PollOutcome::Wait));
    assert!(matches!(on_poll(Ok(task("a", TaskState::Init))), PollOutcome::Wait));
    assert!(matches!(on_poll(Err(RepoError::NoWork)), PollOutcome::Wait));
    assert!(response_for(9, PollOutcome::Wait).is_none());
    let e = error_response(3, "oops".to_string());
    assert_eq!(e.err_msg, Some("oops".to_string()));
    assert!(e.output.is_none());
}

#[test]
fn configs() {
    let c = ServiceConfig::new(
        "127.0.0.1:18888".to_string(),
        "sqlite://gpuproxy.db".to_string(),
        1,
        false,
        "db".to_string(),
        "/data".to_string(),
        "info".to_string(),
        None,
        false,
    );
    assert!(matches!(c.resource, Resource::Db));
    assert_eq!(c.max_tasks, 1);
    let w = WorkerConfig::new(
        "u".to_string(),
        "d".to_string(),
        3,
        "fs".to_string(),
        "/data".to_string(),
        "info".to_string(),
        Some(vec![TaskType::C2]),
        true,
        Some("10.1.1.1".to_string()),
    );
    match w.resource.clone() {
        Resource::FS(p) => assert_eq!(p, "/data"),
        _ => panic!("expected a file-system store"),
    }
    assert_eq!(w.manual_ip, Some("10.1.1.1".to_string()));
    let cc = ClientConfig::new("u".to_string(), "d".to_string(), 2);
    assert_eq!(cc.url, "u");
    assert_eq!(cc.max_c2, 2);
}

#[test]
fn file_resource_paths() {
    let f = FileResource::new("/var/res".to_string());
    assert_eq!(f.path_for("abc").unwrap(), "/var/res/abc");
    assert!(f.path_for("../etc").is_none());
    assert!(f.path_for("..").is_none());
    assert!(f.path_for(".").is_none());
    assert!(f.path_for("").is_none());
    assert!(f.path_for("a\\b").is_none());
    assert_eq!(f.path_for("..x").unwrap(), "/var/res/..x");
    assert_eq!(FileResource::new("/r/".to_string()).path_for("id").unwrap(), "/r/id");
    assert_eq!(FileResource::new(String::new()).path_for("id").unwrap(), "id");
}

#[test]
fn short_messages() {
    assert_eq!(short_msg("hello world".to_string(), 5), "hello...");
    assert_eq!(short_msg("hello".to_string(), 5), "hello");
    assert_eq!(short_msg("".to_string(), 0), "");
    assert_eq!(short_msg("ab".to_string(), 0), "...");
    assert_eq!(short_msg("éé".to_string(), 2), "é...");
    assert_eq!(short_msg("éé".to_string(), 4), "éé");
    assert_eq!(short_msg("aé".to_string(), 1), "a...");
}

#[test]
fn sqlite_file_of_dsn() {
    assert_eq!(sqlite_db_file("sqlite://gpuproxy.db"), Some("gpuproxy.db".to_string()));
    assert_eq!(sqlite_db_file("sqlite://data.db?mode=rwc"), Some("data.db".to_string()));
    assert_eq!(sqlite_db_file("sqlite:other.db"), Some("other.db".to_string()));
    assert_eq!(sqlite_db_file("sqlite::memory:"), None);
    assert_eq!(sqlite_db_file("sqlite://:memory:?cache=shared"), None);
    assert_eq!(sqlite_db_file("mysql://root@localhost/db"), None);
}
