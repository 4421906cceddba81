use registry_core::checkpoint::{LogLeaf, MapCheckpoint, SignedCheckpoint};
use registry_core::envelope::{package_log_id, Envelope};
use registry_core::hash::{AnyHash, HashAlg};
use registry_core::log::Log;
use registry_core::record::{Entry, LogKind, Permission, Record, Timestamp, Version};
use registry_core::service::{
    fetch_operator_records, fetch_package_records, get_operator_record_index,
    get_package_record_index, record_index, ContentSource, CoreService, CoreServiceError, Message,
    PackageRecordInfo, RecordState, Reply, State,
};
use registry_core::state::Violation;
use registry_core::validator::ValidationError;

const OPERATOR: &str = "ecdsa-p256:I+UlDo0HxyBBFeelhPPWmD+LnklOpqZDkrFP5VduASk=";

fn new_private() -> String {
    let (_, private) = warg_crypto::signing::generate_p256_pair();
    private.encode().to_string()
}

fn public_key(private: &str) -> Vec<u8> {
    warg_crypto::signing::PrivateKey::decode(private.to_string())
        .unwrap()
        .public_key()
        .to_string()
        .into_bytes()
}

fn content(byte: u8) -> AnyHash {
    AnyHash { alg: HashAlg::Sha256, bytes: vec![byte; 32] }
}

fn source(byte: u8) -> ContentSource {
    ContentSource { digest: content(byte), url: format!("https://example.com/{}", byte) }
}

fn signed(kind: LogKind, prev: Option<AnyHash>, secs: u64, entries: Vec<Entry>, key: &str) -> Envelope {
    let record = Record { prev, version: 0, timestamp: Timestamp { secs, nanos: 0 }, entries };
    Envelope::signed(kind, &record, key.as_bytes()).unwrap()
}

fn init_entry(key: &str) -> Entry {
    Entry::Init { hash_alg: HashAlg::Sha256, key: public_key(key) }
}

fn release_entry(major: u64, byte: u8) -> Entry {
    Entry::Release { version: Version::new(major, 0, 0), content: content(byte) }
}

fn rid(envelope: &Envelope) -> AnyHash {
    envelope.record_id(HashAlg::Sha256)
}

fn map_checkpoint(n: u64) -> SignedCheckpoint {
    SignedCheckpoint {
        checkpoint: MapCheckpoint { log_root: content(n as u8), map_root: content(0xee), log_length: n },
        key_id: content(0x11),
        signature: b"signature".to_vec(),
    }
}

fn started() -> (CoreService, Envelope, SignedCheckpoint) {
    let init = signed(LogKind::Operator, None, 1, vec![init_entry(OPERATOR)], OPERATOR);
    let first = map_checkpoint(1);
    let state = State::new(first.clone(), init.clone()).ok().unwrap();
    (CoreService::start(state), init, first)
}

/// Submits the genesis record and `n` releases of package `foo:bar`.
fn submit_releases(service: &mut CoreService, key: &str, n: u64) -> (Vec<Envelope>, Vec<LogLeaf>) {
    let mut envelopes = vec![signed(LogKind::Package, None, 1, vec![init_entry(key)], key)];
    for i in 0..n {
        let prev = rid(envelopes.last().unwrap());
        envelopes.push(signed(
            LogKind::Package,
            Some(prev),
            2 + i,
            vec![release_entry(i + 1, i as u8)],
            key,
        ));
    }
    let mut leaves = vec![];
    for (i, e) in envelopes.iter().enumerate() {
        let sources = if i == 0 { vec![] } else { vec![source(i as u8 - 1)] };
        let (state, leaf) = service.submit_package_record("foo:bar".to_string(), e.clone(), sources);
        assert_eq!(state, RecordState::Processing);
        leaves.push(leaf.unwrap());
    }
    (envelopes, leaves)
}

#[test]
fn new_state_publishes_the_operator_record_under_the_first_checkpoint() {
    let (service, init, first) = started();
    assert_eq!(service.get_latest_checkpoint(), first);
    let root = first.id(HashAlg::Sha256);
    assert_eq!(service.fetch_operator_records(root.clone(), None), Ok(vec![init.clone()]));
    assert_eq!(service.fetch_operator_records(root, Some(rid(&init))), Ok(vec![]));
}

#[test]
fn new_state_refuses_a_record_the_operator_validator_refuses() {
    let key = new_private();
    let not_first =
        signed(LogKind::Operator, Some(content(1)), 1, vec![init_entry(&key)], &key);
    assert_eq!(
        State::new(map_checkpoint(1), not_first).err(),
        Some(ValidationError::ProtocolViolation(Violation::PrevMismatch))
    );
    let package = signed(LogKind::Package, None, 1, vec![init_entry(&key)], &key);
    assert_eq!(
        State::new(map_checkpoint(1), package).err(),
        Some(ValidationError::ProtocolViolation(Violation::WrongLogKind))
    );
}

#[test]
fn submitted_record_is_processing_until_a_checkpoint_covers_it() {
    let (mut service, _, _) = started();
    let key = new_private();
    let (envelopes, leaves) = submit_releases(&mut service, &key, 1);
    let package = package_log_id(HashAlg::Sha256, "foo:bar");
    assert_eq!(
        leaves,
        vec![
            LogLeaf { log_id: package.clone(), record_id: rid(&envelopes[0]) },
            LogLeaf { log_id: package.clone(), record_id: rid(&envelopes[1]) },
        ]
    );
    assert_eq!(
        service.get_package_record_status(package.clone(), rid(&envelopes[1])),
        Ok(RecordState::Processing)
    );
    assert_eq!(
        service.get_package_record_info(package.clone(), rid(&envelopes[1])),
        Ok(PackageRecordInfo {
            record: envelopes[1].clone(),
            content_sources: vec![source(0)],
            state: RecordState::Processing,
        })
    );
    let second = map_checkpoint(2);
    service.new_checkpoint(second.clone(), leaves);
    for e in &envelopes {
        assert_eq!(
            service.get_package_record_status(package.clone(), rid(e)),
            Ok(RecordState::Published { checkpoint: second.clone() })
        );
    }
    assert_eq!(service.get_latest_checkpoint(), second);
    assert_eq!(
        service.fetch_package_records(second.id(HashAlg::Sha256), "foo:bar".to_string(), None),
        Ok(envelopes)
    );
}

#[test]
fn record_that_needs_content_nobody_provides_is_rejected_and_forgotten() {
    let (mut service, _, _) = started();
    let key = new_private();
    let (envelopes, _) = submit_releases(&mut service, &key, 0);
    let package = package_log_id(HashAlg::Sha256, "foo:bar");
    let release =
        signed(LogKind::Package, Some(rid(&envelopes[0])), 2, vec![release_entry(1, 0xbb)], &key);
    let (state, leaf) =
        service.submit_package_record("foo:bar".to_string(), release.clone(), vec![source(0xaa)]);
    assert_eq!(
        state,
        RecordState::Rejected {
            reason: format!("Needed content sha256:{} but not provided", "bb".repeat(32))
        }
    );
    assert_eq!(leaf, None);
    assert_eq!(
        service.get_package_record_status(package.clone(), rid(&release)),
        Err(CoreServiceError::PackageRecordNotFound(rid(&release)))
    );
    let (state, leaf) = service.submit_package_record(
        "foo:bar".to_string(),
        release.clone(),
        vec![source(0xaa), source(0xbb)],
    );
    assert_eq!(state, RecordState::Processing);
    assert_eq!(leaf, Some(LogLeaf { log_id: package, record_id: rid(&release) }));
}

#[test]
fn record_the_validator_refuses_is_rejected_for_good() {
    let (mut service, _, _) = started();
    let key = new_private();
    let (envelopes, _) = submit_releases(&mut service, &key, 1);
    let package = package_log_id(HashAlg::Sha256, "foo:bar");
    let reused =
        signed(LogKind::Package, Some(rid(&envelopes[1])), 9, vec![release_entry(1, 0xcc)], &key);
    let rejected = RecordState::Rejected { reason: "release version reused: 1.0.0".to_string() };
    assert_eq!(
        service.submit_package_record("foo:bar".to_string(), reused.clone(), vec![source(0xcc)]),
        (rejected.clone(), None)
    );
    assert_eq!(
        service.get_package_record_status(package.clone(), rid(&reused)),
        Ok(rejected.clone())
    );
    let seen = RecordState::Rejected { reason: "record was submitted before".to_string() };
    assert_eq!(
        service.submit_package_record("foo:bar".to_string(), reused.clone(), vec![source(0xcc)]),
        (seen.clone(), None)
    );
    assert_eq!(
        service.get_package_record_status(package.clone(), rid(&reused)),
        Ok(rejected.clone())
    );
    let early = signed(LogKind::Package, Some(rid(&reused)), 9, vec![release_entry(7, 7)], &key);
    let (state, _) = service.submit_package_record("foo:bar".to_string(), early.clone(), vec![source(7)]);
    assert_eq!(
        state,
        RecordState::Rejected {
            reason: "protocol violation: previous record is not the head of the log".to_string()
        }
    );
    assert_eq!(
        service.submit_package_record("foo:bar".to_string(), envelopes[1].clone(), vec![source(0)]),
        (seen, None)
    );
    assert_eq!(
        service.get_package_record_status(package.clone(), rid(&envelopes[1])),
        Ok(RecordState::Processing)
    );
    let next = signed(LogKind::Package, Some(rid(&envelopes[1])), 9, vec![release_entry(2, 2)], &key);
    assert_eq!(
        service.submit_package_record("foo:bar".to_string(), next, vec![source(2)]).0,
        RecordState::Processing
    );
}

#[test]
fn unauthorized_signer_is_rejected_by_the_service() {
    let (mut service, _, _) = started();
    let key = new_private();
    let other = new_private();
    let (envelopes, _) = submit_releases(&mut service, &key, 0);
    let grant = signed(
        LogKind::Package,
        Some(rid(&envelopes[0])),
        2,
        vec![Entry::GrantFlat { key: public_key(&other), permissions: vec![Permission::KeyManagement] }],
        &key,
    );
    assert_eq!(
        service.submit_package_record("foo:bar".to_string(), grant.clone(), vec![]).0,
        RecordState::Processing
    );
    let attempt = signed(LogKind::Package, Some(rid(&grant)), 3, vec![release_entry(1, 1)], &other);
    assert_eq!(
        service.submit_package_record("foo:bar".to_string(), attempt, vec![source(1)]),
        (
            RecordState::Rejected {
                reason: "unauthorized: key lacks permission commit".to_string()
            },
            None
        )
    );
}

#[test]
fn fetch_returns_the_records_sealed_up_to_the_checkpoint() {
    let (mut service, _, first) = started();
    let key = new_private();
    let (r, leaves) = submit_releases(&mut service, &key, 7);
    let c1 = map_checkpoint(5);
    let c2 = map_checkpoint(8);
    service.new_checkpoint(c1.clone(), leaves[..5].to_vec());
    service.new_checkpoint(c2.clone(), leaves[5..].to_vec());
    let name = || "foo:bar".to_string();
    assert_eq!(
        service.fetch_package_records(c1.id(HashAlg::Sha256), name(), Some(rid(&r[1]))),
        Ok(r[2..5].to_vec())
    );
    assert_eq!(service.fetch_package_records(c1.id(HashAlg::Sha256), name(), None), Ok(r[..5].to_vec()));
    assert_eq!(service.fetch_package_records(c2.id(HashAlg::Sha256), name(), None), Ok(r.clone()));
    assert_eq!(service.fetch_package_records(first.id(HashAlg::Sha256), name(), None), Ok(vec![]));
    assert_eq!(
        service.fetch_package_records(c1.id(HashAlg::Sha256), name(), Some(rid(&r[6]))),
        Ok(vec![])
    );
    assert_eq!(
        service.fetch_package_records(c2.id(HashAlg::Sha256), name(), Some(content(3))),
        Err(CoreServiceError::PackageRecordNotFound(content(3)))
    );
    assert_eq!(
        service.fetch_package_records(content(3), name(), None),
        Err(CoreServiceError::CheckpointNotFound(content(3)))
    );
    assert_eq!(
        service.fetch_package_records(c2.id(HashAlg::Sha256), "other".to_string(), None),
        Err(CoreServiceError::PackageNameNotFound("other".to_string()))
    );
    let short = AnyHash { alg: HashAlg::Sha256, bytes: vec![1; 31] };
    assert_eq!(
        service.fetch_package_records(short.clone(), name(), None),
        Err(CoreServiceError::InvalidCheckpoint(short.clone()))
    );
    let other = c2.id(HashAlg::Sha512);
    assert_eq!(
        service.fetch_operator_records(other.clone(), None),
        Err(CoreServiceError::InvalidCheckpoint(other))
    );
    assert_eq!(
        service.fetch_operator_records(content(3), None),
        Err(CoreServiceError::CheckpointNotFound(content(3)))
    );
    assert_eq!(
        service.fetch_operator_records(c2.id(HashAlg::Sha256), Some(content(3))),
        Err(CoreServiceError::OperatorRecordNotFound(content(3)))
    );
}

#[test]
fn every_processing_leaf_is_published_whatever_the_order() {
    let (mut service, _, _) = started();
    let key = new_private();
    let (r, leaves) = submit_releases(&mut service, &key, 2);
    let package = package_log_id(HashAlg::Sha256, "foo:bar");
    let c1 = map_checkpoint(2);
    service.new_checkpoint(
        c1.clone(),
        vec![
            leaves[2].clone(),
            LogLeaf { log_id: content(9), record_id: rid(&r[0]) },
            LogLeaf { log_id: package.clone(), record_id: content(9) },
            leaves[0].clone(),
            leaves[0].clone(),
        ],
    );
    let published = RecordState::Published { checkpoint: c1.clone() };
    assert_eq!(
        service.get_package_record_status(package.clone(), rid(&r[0])),
        Ok(published.clone())
    );
    assert_eq!(
        service.get_package_record_status(package.clone(), rid(&r[1])),
        Ok(RecordState::Processing)
    );
    assert_eq!(
        service.get_package_record_status(package.clone(), rid(&r[2])),
        Ok(published.clone())
    );
    assert_eq!(service.get_latest_checkpoint(), c1);
    service.new_checkpoint(c1.clone(), vec![leaves[1].clone()]);
    assert_eq!(
        service.get_package_record_status(package.clone(), rid(&r[1])),
        Ok(RecordState::Processing)
    );
    let c2 = map_checkpoint(3);
    service.new_checkpoint(c2.clone(), vec![leaves[1].clone(), leaves[0].clone()]);
    assert_eq!(
        service.get_package_record_status(package.clone(), rid(&r[1])),
        Ok(RecordState::Published { checkpoint: c2.clone() })
    );
    assert_eq!(service.get_package_record_status(package.clone(), rid(&r[0])), Ok(published));
    assert_eq!(
        service.fetch_package_records(c2.id(HashAlg::Sha256), "foo:bar".to_string(), None),
        Ok(r.clone())
    );
    assert_eq!(
        service.fetch_package_records(c1.id(HashAlg::Sha256), "foo:bar".to_string(), None),
        Ok(r[..2].to_vec())
    );
    assert_eq!(
        service.get_package_record_status(content(9), rid(&r[0])),
        Err(CoreServiceError::PackageNotFound(content(9)))
    );
    assert_eq!(
        service.get_package_record_info(content(9), rid(&r[0])).err(),
        Some(CoreServiceError::PackageNotFound(content(9)))
    );
    assert_eq!(
        service.get_package_record_info(package, content(9)).err(),
        Some(CoreServiceError::PackageRecordNotFound(content(9)))
    );
}

#[test]
fn process_answers_each_request_by_its_operation() {
    let (mut service, init, first) = started();
    let key = new_private();
    let package = package_log_id(HashAlg::Sha256, "foo:bar");
    let genesis = signed(LogKind::Package, None, 1, vec![init_entry(&key)], &key);
    let leaf = match service.process(Message::SubmitPackageRecord {
        package_name: "foo:bar".to_string(),
        record: genesis.clone(),
        content_sources: vec![],
    }) {
        Reply::Submitted { state: RecordState::Processing, leaf: Some(leaf) } => leaf,
        _ => panic!("the record should be processing"),
    };
    assert_eq!(leaf, LogLeaf { log_id: package.clone(), record_id: rid(&genesis) });
    assert!(matches!(
        service.process(Message::GetPackageRecordStatus {
            package_id: package.clone(),
            record_id: rid(&genesis)
        }),
        Reply::RecordStatus(Ok(RecordState::Processing))
    ));
    let second = map_checkpoint(2);
    assert!(matches!(
        service.process(Message::NewCheckpoint { checkpoint: second.clone(), leaves: vec![leaf] }),
        Reply::CheckpointInstalled
    ));
    match service.process(Message::GetPackageRecordInfo {
        package_id: package.clone(),
        record_id: rid(&genesis),
    }) {
        Reply::RecordInfo(Ok(info)) => {
            assert_eq!(info.record, genesis);
            assert_eq!(info.state, RecordState::Published { checkpoint: second.clone() });
        }
        _ => panic!("the record should be known"),
    }
    match service.process(Message::GetLatestCheckpoint) {
        Reply::LatestCheckpoint(c) => assert_eq!(c, second),
        _ => panic!("there should be a checkpoint"),
    }
    match service.process(Message::FetchOperatorRecords {
        root: first.id(HashAlg::Sha256),
        since: None,
    }) {
        Reply::OperatorRecords(r) => assert_eq!(r, Ok(vec![init])),
        _ => panic!("operator records should be fetched"),
    }
    match service.process(Message::FetchPackageRecords {
        root: second.id(HashAlg::Sha256),
        package_name: "foo:bar".to_string(),
        since: None,
    }) {
        Reply::PackageRecords(r) => assert_eq!(r, Ok(vec![genesis])),
        _ => panic!("package records should be fetched"),
    }
}

#[test]
fn record_index_finds_the_first_record_with_the_identifier() {
    let key = new_private();
    let mut log = Log::new(LogKind::Package);
    let a = signed(LogKind::Package, None, 1, vec![init_entry(&key)], &key);
    let b = signed(LogKind::Package, Some(rid(&a)), 2, vec![release_entry(1, 1)], &key);
    assert_eq!(log.append(&a).ok(), Some((0, vec![])));
    assert_eq!(log.append(&b).ok(), Some((1, vec![content(1)])));
    assert_eq!(record_index(&log, &rid(&a)), Some(0));
    assert_eq!(record_index(&log, &rid(&b)), Some(1));
    assert_eq!(record_index(&log, &content(1)), None);
    assert_eq!(get_package_record_index(&log, rid(&b)), Ok(1));
    assert_eq!(
        get_package_record_index(&log, content(1)),
        Err(CoreServiceError::PackageRecordNotFound(content(1)))
    );
    assert_eq!(get_operator_record_index(&log, rid(&a)), Ok(0));
    assert_eq!(
        get_operator_record_index(&log, content(1)),
        Err(CoreServiceError::OperatorRecordNotFound(content(1)))
    );
    assert!(log.seal(0));
    assert_eq!(fetch_package_records(&log, None, 0), Ok(vec![a.clone()]));
    assert_eq!(fetch_package_records(&log, Some(rid(&a)), 0), Ok(vec![]));
    assert_eq!(fetch_operator_records(&log, None, 0), Ok(vec![a]));
    assert_eq!(
        fetch_operator_records(&log, Some(content(1)), 0),
        Err(CoreServiceError::OperatorRecordNotFound(content(1)))
    );
    assert_eq!(
        fetch_package_records(&log, Some(content(1)), 0),
        Err(CoreServiceError::PackageRecordNotFound(content(1)))
    );
}
