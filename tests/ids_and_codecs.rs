use gpuproxy::address::MinerAddress;
use gpuproxy::base64bytes::Base64Byte;
use gpuproxy::ids::{gen_resource_id, gen_task_id, task_id_input};
use gpuproxy::model::{task_type_to_string, IfNotFound, RepoError, TaskState, TaskType};

#[test]
fn state_codes_are_stable() {
    let all = [
        (TaskState::Undefined, 0),
        (TaskState::Init, 1),
        (TaskState::Running, 2),
        (TaskState::Error, 3),
        (TaskState::Completed, 4),
    ];
    for (s, c) in all.iter() {
        assert_eq!(s.code(), *c);
        assert_eq!(TaskState::from_code(*c), Some(*s));
    }
    assert_eq!(TaskState::from_code(5), None);
    assert_eq!(TaskState::from_code(-1), None);
    assert_eq!(TaskType::C2.code(), 0);
    assert_eq!(TaskType::from_code(0), Some(TaskType::C2));
    assert_eq!(TaskType::from_code(1), None);
    assert_eq!(task_type_to_string(TaskType::C2), "C2");
}

#[test]
fn resource_id_is_uuid_v5_of_bytes() {
    let id = gen_resource_id(b"payload-bytes");
    assert_eq!(id, "1c35df0b-ce17-5a23-a5be-367a65cf41f1");
    assert_eq!(gen_resource_id(b"payload-bytes"), id);
    assert_ne!(gen_resource_id(b"other-bytes"), id);
}

#[test]
fn task_id_input_layout() {
    let buf = task_id_input(&[0xe9, 0x07], TaskType::C2, b"payload-bytes");
    let mut want = vec![0xe9u8, 0x07, 0, 0, 0, 0];
    want.extend_from_slice(b"1c35df0b-ce17-5a23-a5be-367a65cf41f1");
    assert_eq!(buf, want);
}

#[test]
fn task_id_is_deterministic() {
    let a = gen_task_id(&[0xe9, 0x07], TaskType::C2, b"payload-bytes");
    let b = gen_task_id(&[0xe9, 0x07], TaskType::C2, b"payload-bytes");
    assert_eq!(a, b);
    assert_eq!(a, "b447bf10-8f49-5b49-a3e3-d502412f19e0");
    assert_ne!(gen_task_id(&[0x01], TaskType::C2, b"payload-bytes"), a);
}

#[test]
fn parse_id_address() {
    let a = MinerAddress::parse("t01001").unwrap();
    assert_eq!(a.payload, vec![0xe9, 0x07]);
    assert_eq!(a.text, "t01001");
    assert_eq!(a.miner_text(), "01001");
    let f = MinerAddress::parse("f01001").unwrap();
    assert_eq!(f.payload, vec![0xe9, 0x07]);
    assert_eq!(f.miner_text(), "01001");
}

#[test]
fn parse_rejects_malformed_addresses() {
    assert!(matches!(MinerAddress::parse(""), Err(RepoError::InvalidParams(_))));
    assert!(matches!(MinerAddress::parse("x01001"), Err(RepoError::InvalidParams(_))));
    assert!(matches!(MinerAddress::parse("t0abc"), Err(RepoError::InvalidParams(_))));
    assert!(matches!(MinerAddress::parse("f1aa"), Err(RepoError::InvalidParams(_))));
    assert!(matches!(MinerAddress::parse("t9123"), Err(RepoError::InvalidParams(_))));
}

#[test]
fn actor_id_address_payload_is_leb128() {
    assert_eq!(MinerAddress::from_actor_id(1001).payload, vec![0xe9, 0x07]);
    assert_eq!(MinerAddress::from_actor_id(5).payload, vec![5]);
    assert_eq!(MinerAddress::from_actor_id(128).payload, vec![0x80, 0x01]);
}

#[test]
fn base64_encodes_standard_padded() {
    assert_eq!(Base64Byte::new(b"hello".to_vec()).to_base64(), "aGVsbG8=");
    assert_eq!(Base64Byte::new(vec![]).to_base64(), "");
}

#[test]
fn base64_round_trip() {
    let cases: Vec<Vec<u8>> = vec![vec![], vec![0], vec![255, 254, 253], (0u8..=255).collect()];
    for bytes in cases {
        let text = Base64Byte::new(bytes.clone()).to_base64();
        let back = Base64Byte::from_base64(&text).unwrap();
        assert_eq!(back.0, bytes);
        let v: Vec<u8> = back.into();
        assert_eq!(v, bytes);
    }
}

#[test]
fn base64_rejects_malformed_text() {
    assert!(matches!(Base64Byte::from_base64("!!!!"), Err(RepoError::InvalidParams(_))));
    assert_eq!(Base64Byte::from_base64("aGVsbG8=").unwrap().0, b"hello".to_vec());
}

#[test]
fn lookup_absence_becomes_not_found() {
    use_if_not_found();
}

fn use_if_not_found() {
    assert!(matches!(Some(3u8).if_not_found("x".to_string()), Ok(3)));
    assert!(matches!(None::<u8>.if_not_found("x".to_string()), Err(RepoError::NotFound(_))));
}
