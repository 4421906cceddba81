use registry_core::checkpoint::{LogLeaf, MapCheckpoint, SignedCheckpoint};
use registry_core::envelope::{operator_log_id, package_log_id, Envelope};
use registry_core::hash::{AnyHash, HashAlg};
use registry_core::record::{Entry, LogKind, Permission, Record, Timestamp, Version};
use registry_core::store::{DataStoreError, MemoryDataStore, PublicStatus};
use registry_core::validator::ValidationError;

const OPERATOR: &str = "ecdsa-p256:I+UlDo0HxyBBFeelhPPWmD+LnklOpqZDkrFP5VduASk=";

fn fresh_private() -> String {
    let (_, private) = warg_crypto::signing::generate_p256_pair();
    private.encode().to_string()
}

fn public_of(private: &str) -> Vec<u8> {
    warg_crypto::signing::PrivateKey::decode(private.to_string())
        .unwrap()
        .public_key()
        .to_string()
        .into_bytes()
}

fn digest(byte: u8) -> AnyHash {
    AnyHash { alg: HashAlg::Sha256, bytes: vec![byte; 32] }
}

fn sign(kind: LogKind, prev: Option<AnyHash>, secs: u64, entries: Vec<Entry>, key: &str) -> Envelope {
    let record = Record { prev, version: 0, timestamp: Timestamp { secs, nanos: 0 }, entries };
    Envelope::signed(kind, &record, key.as_bytes()).unwrap()
}

fn init(key: &str) -> Entry {
    Entry::Init { hash_alg: HashAlg::Sha256, key: public_of(key) }
}

fn release(major: u64, byte: u8) -> Entry {
    Entry::Release { version: Version::new(major, 0, 0), content: digest(byte) }
}

fn id_of(envelope: &Envelope) -> AnyHash {
    envelope.record_id(HashAlg::Sha256)
}

fn checkpoint(n: u64) -> SignedCheckpoint {
    SignedCheckpoint {
        checkpoint: MapCheckpoint { log_root: digest(n as u8), map_root: digest(0xee), log_length: n },
        key_id: digest(0x11),
        signature: b"signature".to_vec(),
    }
}

fn leaf(log_id: &AnyHash, envelope: &Envelope) -> LogLeaf {
    LogLeaf { log_id: log_id.clone(), record_id: id_of(envelope) }
}

/// A store with a package log of `n` validated releases after the genesis record.
fn package_log(key: &str, n: u64) -> (MemoryDataStore, AnyHash, Vec<Envelope>) {
    let mut store = MemoryDataStore::new();
    let log = package_log_id(HashAlg::Sha256, "foo:bar");
    let mut envelopes = vec![sign(LogKind::Package, None, 1, vec![init(key)], key)];
    for i in 0..n {
        let prev = id_of(envelopes.last().unwrap());
        envelopes.push(sign(LogKind::Package, Some(prev), 2 + i, vec![release(i + 1, i as u8)], key));
    }
    for e in &envelopes {
        store.store_package_record(&log, "foo:bar", &id_of(e), e, &vec![]).unwrap();
        store.validate_package_record(&log, &id_of(e)).unwrap();
    }
    (store, log, envelopes)
}

#[test]
fn init_then_release() {
    let mut store = MemoryDataStore::new();
    let operator_log = operator_log_id(HashAlg::Sha256);
    let package = fresh_private();
    let package_log = package_log_id(HashAlg::Sha256, "foo:bar");

    let operator_init = sign(LogKind::Operator, None, 1, vec![init(OPERATOR)], OPERATOR);
    store.store_operator_record(&operator_log, &id_of(&operator_init), &operator_init).unwrap();
    store.validate_operator_record(&operator_log, &id_of(&operator_init)).unwrap();

    let package_init = sign(LogKind::Package, None, 1, vec![init(&package)], &package);
    store
        .store_package_record(&package_log, "foo:bar", &id_of(&package_init), &package_init, &vec![])
        .unwrap();
    store.validate_package_record(&package_log, &id_of(&package_init)).unwrap();

    let released =
        sign(LogKind::Package, Some(id_of(&package_init)), 2, vec![release(1, 0xaa)], &package);
    store
        .store_package_record(
            &package_log,
            "foo:bar",
            &id_of(&released),
            &released,
            &vec![digest(0xaa)],
        )
        .unwrap();
    assert_eq!(store.set_content_present(&package_log, &id_of(&released), &digest(0xaa)), Ok(true));
    store.validate_package_record(&package_log, &id_of(&released)).unwrap();

    for e in [&package_init, &released] {
        let record = store.get_package_record(&package_log, &id_of(e)).unwrap();
        assert_eq!(record.status, PublicStatus::Validated);
        assert_eq!(&record.envelope, e);
        assert_eq!(record.checkpoint, None);
    }
    let record = store.get_operator_record(&operator_log, &id_of(&operator_init)).unwrap();
    assert_eq!(record.status, PublicStatus::Validated);

    let c = checkpoint(3);
    store
        .store_checkpoint(
            &digest(0xc1),
            c.clone(),
            &vec![
                leaf(&operator_log, &operator_init),
                leaf(&package_log, &package_init),
                leaf(&package_log, &released),
            ],
        )
        .unwrap();
    for e in [&package_init, &released] {
        let record = store.get_package_record(&package_log, &id_of(e)).unwrap();
        assert_eq!(record.status, PublicStatus::Published);
        assert_eq!(record.checkpoint, Some(c.clone()));
    }
    let record = store.get_operator_record(&operator_log, &id_of(&operator_init)).unwrap();
    assert_eq!(record.status, PublicStatus::Published);
    assert_eq!(record.envelope, operator_init);
    assert_eq!(store.get_latest_checkpoint(), Ok(c));
}

#[test]
fn missing_content_gate() {
    let key = fresh_private();
    let (mut store, log, envelopes) = package_log(&key, 0);
    let released =
        sign(LogKind::Package, Some(id_of(&envelopes[0])), 2, vec![release(1, 0xbb)], &key);
    let id = id_of(&released);
    store.store_package_record(&log, "foo:bar", &id, &released, &vec![digest(0xbb)]).unwrap();
    assert_eq!(
        store.get_package_record(&log, &id).unwrap().status,
        PublicStatus::Pending
    );
    assert_eq!(store.is_content_missing(&log, &id, &digest(0xbb)), Ok(true));
    assert_eq!(store.is_content_missing(&log, &id, &digest(0xcc)), Ok(false));
    assert_eq!(store.get_package_record(&log, &id).unwrap().status, PublicStatus::Pending);
    assert_eq!(store.set_content_present(&log, &id, &digest(0xbb)), Ok(true));
    assert_eq!(store.is_content_missing(&log, &id, &digest(0xbb)), Ok(false));
    assert_eq!(store.set_content_present(&log, &id, &digest(0xbb)), Ok(false));
    assert_eq!(store.validate_package_record(&log, &id), Ok(()));
    assert_eq!(store.get_package_record(&log, &id).unwrap().status, PublicStatus::Validated);
}

#[test]
fn content_arrives_piece_by_piece() {
    let key = fresh_private();
    let (mut store, log, envelopes) = package_log(&key, 0);
    let released = sign(
        LogKind::Package,
        Some(id_of(&envelopes[0])),
        2,
        vec![release(1, 0xbb), release(2, 0xcc)],
        &key,
    );
    let id = id_of(&released);
    store
        .store_package_record(
            &log,
            "foo:bar",
            &id,
            &released,
            &vec![digest(0xbb), digest(0xcc), digest(0xbb)],
        )
        .unwrap();
    assert_eq!(store.set_content_present(&log, &id, &digest(0xdd)), Ok(false));
    assert_eq!(store.set_content_present(&log, &id, &digest(0xbb)), Ok(false));
    assert_eq!(store.is_content_missing(&log, &id, &digest(0xbb)), Ok(false));
    assert_eq!(store.is_content_missing(&log, &id, &digest(0xcc)), Ok(true));
    assert_eq!(store.set_content_present(&log, &id, &digest(0xcc)), Ok(true));
    assert_eq!(store.set_content_present(&log, &id, &digest(0xcc)), Ok(false));
}

#[test]
fn version_reuse() {
    let key = fresh_private();
    let (mut store, log, envelopes) = package_log(&key, 1);
    let root = digest(0xc1);
    store.store_checkpoint(&root, checkpoint(2), &vec![leaf(&log, &envelopes[0]), leaf(&log, &envelopes[1])]).unwrap();
    let again = Entry::Release { version: Version::new(1, 0, 0), content: digest(0xcc) };
    let reused = sign(LogKind::Package, Some(id_of(&envelopes[1])), 9, vec![again], &key);
    let id = id_of(&reused);
    store.store_package_record(&log, "foo:bar", &id, &reused, &vec![digest(0xcc)]).unwrap();
    assert_eq!(store.is_content_missing(&log, &id, &digest(0xcc)), Ok(true));
    assert_eq!(
        store.validate_package_record(&log, &id),
        Err(DataStoreError::Validation(ValidationError::ReleaseVersionReused(Version::new(
            1, 0, 0
        ))))
    );
    let record = store.get_package_record(&log, &id).unwrap();
    assert_eq!(
        record.status,
        PublicStatus::Rejected("release version reused: 1.0.0".to_string())
    );
    assert_eq!(record.envelope, reused);
    assert_eq!(store.get_package_records(&log, &root, None, 10), Ok(envelopes.clone()));
    let next = sign(LogKind::Package, Some(id_of(&envelopes[1])), 9, vec![release(2, 1)], &key);
    store.store_package_record(&log, "foo:bar", &id_of(&next), &next, &vec![]).unwrap();
    assert_eq!(store.validate_package_record(&log, &id_of(&next)), Ok(()));
}

#[test]
fn unauthorized_signer() {
    let key = fresh_private();
    let other = fresh_private();
    let (mut store, log, envelopes) = package_log(&key, 0);
    let grant = sign(
        LogKind::Package,
        Some(id_of(&envelopes[0])),
        2,
        vec![Entry::GrantFlat { key: public_of(&other), permissions: vec![Permission::KeyManagement] }],
        &key,
    );
    store.store_package_record(&log, "foo:bar", &id_of(&grant), &grant, &vec![]).unwrap();
    store.validate_package_record(&log, &id_of(&grant)).unwrap();
    let attempt = sign(LogKind::Package, Some(id_of(&grant)), 3, vec![release(1, 1)], &other);
    let id = id_of(&attempt);
    store.store_package_record(&log, "foo:bar", &id, &attempt, &vec![]).unwrap();
    assert_eq!(
        store.validate_package_record(&log, &id),
        Err(DataStoreError::Validation(ValidationError::Unauthorized(Permission::Commit)))
    );
    assert_eq!(
        store.get_package_record(&log, &id).unwrap().status,
        PublicStatus::Rejected("unauthorized: key lacks permission commit".to_string())
    );
}

#[test]
fn fetch_window() {
    let key = fresh_private();
    let (mut store, log, r) = package_log(&key, 7);
    let c1 = digest(0xc1);
    let c2 = digest(0xc2);
    let first: Vec<LogLeaf> = r[..5].iter().map(|e| leaf(&log, e)).collect();
    let second: Vec<LogLeaf> = r[5..].iter().map(|e| leaf(&log, e)).collect();
    store.store_checkpoint(&c1, checkpoint(5), &first).unwrap();
    store.store_checkpoint(&c2, checkpoint(8), &second).unwrap();
    assert_eq!(
        store.get_package_records(&log, &c1, Some(&id_of(&r[1])), 10),
        Ok(r[2..5].to_vec())
    );
    assert_eq!(store.get_package_records(&log, &c1, None, 10), Ok(r[..5].to_vec()));
    assert_eq!(store.get_package_records(&log, &c2, None, 10), Ok(r.clone()));
    assert_eq!(store.get_package_records(&log, &c2, None, 3), Ok(r[..3].to_vec()));
    assert_eq!(
        store.get_package_records(&log, &c2, Some(&id_of(&r[3])), 2),
        Ok(r[4..6].to_vec())
    );
    assert_eq!(store.get_package_records(&log, &c2, Some(&id_of(&r[7])), 10), Ok(vec![]));
    assert_eq!(store.get_package_records(&log, &c1, Some(&id_of(&r[6])), 10), Ok(vec![]));
    assert_eq!(store.get_package_records(&log, &c2, None, 0), Ok(vec![]));
    assert_eq!(store.get_package_records(&log, &c2, None, u16::MAX), Ok(r.clone()));
    for (i, e) in r.iter().enumerate() {
        let root = if i < 5 { &c1 } else { &c2 };
        let fetched = store.get_package_records(&log, root, None, u16::MAX).unwrap();
        assert_eq!(&fetched[i], e);
    }
}

#[test]
fn fetch_with_unknown_root_is_checkpoint_not_found() {
    let key = fresh_private();
    let (mut store, log, r) = package_log(&key, 1);
    store.store_checkpoint(&digest(0xc1), checkpoint(1), &vec![leaf(&log, &r[0])]).unwrap();
    assert_eq!(
        store.get_package_records(&log, &digest(0xc9), None, 10),
        Err(DataStoreError::CheckpointNotFound(digest(0xc9)))
    );
    assert_eq!(
        store.get_operator_records(&log, &digest(0xc1), None, 10),
        Err(DataStoreError::LogNotFound(log.clone()))
    );
    assert_eq!(
        store.get_package_records(&digest(1), &digest(0xc1), None, 10),
        Err(DataStoreError::LogNotFound(digest(1)))
    );
}

#[test]
fn fetch_since_a_rejected_record_is_record_not_found() {
    let key = fresh_private();
    let (mut store, log, r) = package_log(&key, 1);
    let root = digest(0xc1);
    store.store_checkpoint(&root, checkpoint(1), &vec![leaf(&log, &r[0])]).unwrap();
    let bad = sign(LogKind::Package, None, 9, vec![release(5, 5)], &key);
    store.store_package_record(&log, "foo:bar", &id_of(&bad), &bad, &vec![]).unwrap();
    assert!(store.validate_package_record(&log, &id_of(&bad)).is_err());
    assert_eq!(
        store.get_package_records(&log, &root, Some(&id_of(&bad)), 10),
        Err(DataStoreError::RecordNotFound(id_of(&bad)))
    );
    let pending = sign(LogKind::Package, Some(id_of(&r[1])), 9, vec![release(6, 6)], &key);
    store.store_package_record(&log, "foo:bar", &id_of(&pending), &pending, &vec![]).unwrap();
    assert_eq!(
        store.get_package_records(&log, &root, Some(&id_of(&pending)), 10),
        Err(DataStoreError::RecordNotFound(id_of(&pending)))
    );
    assert_eq!(
        store.get_package_records(&log, &root, Some(&digest(3)), 10),
        Err(DataStoreError::RecordNotFound(digest(3)))
    );
}

#[test]
fn a_record_is_stored_once_and_under_its_own_identifier() {
    let key = fresh_private();
    let mut store = MemoryDataStore::new();
    let log = package_log_id(HashAlg::Sha256, "foo:bar");
    let e = sign(LogKind::Package, None, 1, vec![init(&key)], &key);
    assert_eq!(
        store.store_package_record(&log, "foo:bar", &digest(1), &e, &vec![]),
        Err(DataStoreError::Validation(ValidationError::RecordHashDoesNotMatch))
    );
    assert_eq!(
        store.get_package_record(&log, &digest(1)),
        Err(DataStoreError::LogNotFound(log.clone()))
    );
    assert_eq!(store.store_package_record(&log, "foo:bar", &id_of(&e), &e, &vec![]), Ok(()));
    assert_eq!(
        store.store_package_record(&log, "foo:bar", &id_of(&e), &e, &vec![]),
        Err(DataStoreError::Rejected("record is already stored".to_string()))
    );
    assert_eq!(
        store.store_operator_record(&log, &id_of(&e), &e),
        Err(DataStoreError::Rejected("record is already stored".to_string()))
    );
    let by_sha512 = e.record_id(HashAlg::Sha512);
    assert_eq!(store.store_package_record(&log, "foo:bar", &by_sha512, &e, &vec![]), Ok(()));
}

#[test]
fn a_record_leaves_pending_once() {
    let key = fresh_private();
    let mut store = MemoryDataStore::new();
    let log = package_log_id(HashAlg::Sha256, "foo:bar");
    let e = sign(LogKind::Package, None, 1, vec![init(&key)], &key);
    let id = id_of(&e);
    assert_eq!(
        store.reject_package_record(&log, &id, "no"),
        Err(DataStoreError::LogNotFound(log.clone()))
    );
    assert_eq!(
        store.validate_package_record(&log, &id),
        Err(DataStoreError::LogNotFound(log.clone()))
    );
    assert_eq!(
        store.is_content_missing(&log, &id, &digest(1)),
        Err(DataStoreError::LogNotFound(log.clone()))
    );
    assert_eq!(
        store.set_content_present(&log, &id, &digest(1)),
        Err(DataStoreError::LogNotFound(log.clone()))
    );
    store.store_package_record(&log, "foo:bar", &id, &e, &vec![]).unwrap();
    assert_eq!(
        store.reject_package_record(&log, &digest(2), "no"),
        Err(DataStoreError::RecordNotFound(digest(2)))
    );
    assert_eq!(
        store.reject_operator_record(&log, &id, "no"),
        Err(DataStoreError::RecordNotPending(id.clone()))
    );
    assert_eq!(
        store.validate_operator_record(&log, &id),
        Err(DataStoreError::RecordNotPending(id.clone()))
    );
    assert_eq!(store.reject_package_record(&log, &id, "not wanted"), Ok(()));
    assert_eq!(
        store.get_package_record(&log, &id).unwrap().status,
        PublicStatus::Rejected("not wanted".to_string())
    );
    assert_eq!(
        store.reject_package_record(&log, &id, "again"),
        Err(DataStoreError::RecordNotPending(id.clone()))
    );
    assert_eq!(
        store.validate_package_record(&log, &id),
        Err(DataStoreError::RecordNotPending(id.clone()))
    );
    assert_eq!(
        store.is_content_missing(&log, &id, &digest(1)),
        Err(DataStoreError::RecordNotPending(id.clone()))
    );
    assert_eq!(
        store.set_content_present(&log, &id, &digest(1)),
        Err(DataStoreError::RecordNotPending(id.clone()))
    );
    assert_eq!(
        store.get_package_record(&log, &id).unwrap().status,
        PublicStatus::Rejected("not wanted".to_string())
    );
    assert_eq!(
        store.get_operator_record(&log, &id),
        Err(DataStoreError::RecordNotFound(id.clone()))
    );
    assert_eq!(
        store.get_package_record(&log, &digest(2)),
        Err(DataStoreError::RecordNotFound(digest(2)))
    );
}

#[test]
fn operator_records_wait_for_no_content() {
    let mut store = MemoryDataStore::new();
    let log = operator_log_id(HashAlg::Sha256);
    let e = sign(LogKind::Operator, None, 1, vec![init(OPERATOR)], OPERATOR);
    let id = id_of(&e);
    store.store_operator_record(&log, &id, &e).unwrap();
    assert_eq!(store.is_content_missing(&log, &id, &digest(1)), Ok(false));
    assert_eq!(store.set_content_present(&log, &id, &digest(1)), Ok(false));
    assert_eq!(store.get_operator_record(&log, &id).unwrap().status, PublicStatus::Pending);
    assert_eq!(store.validate_operator_record(&log, &id), Ok(()));
    let root = digest(0xc1);
    store.store_checkpoint(&root, checkpoint(1), &vec![leaf(&log, &e)]).unwrap();
    assert_eq!(store.get_operator_records(&log, &root, None, 10), Ok(vec![e]));
}

#[test]
fn checkpoint_publishes_every_participant_or_nothing() {
    let key = fresh_private();
    let (mut store, log, r) = package_log(&key, 2);
    let published = DataStoreError::Rejected("record is already published".to_string());
    assert_eq!(
        store.get_latest_checkpoint(),
        Err(DataStoreError::Rejected("no checkpoint is stored".to_string()))
    );
    assert_eq!(store.store_checkpoint(&digest(0xc1), checkpoint(1), &vec![]), Ok(()));
    assert_eq!(
        store.store_checkpoint(&digest(0xc1), checkpoint(9), &vec![leaf(&log, &r[0])]),
        Err(DataStoreError::Rejected("checkpoint is already stored".to_string()))
    );
    assert_eq!(store.get_latest_checkpoint(), Ok(checkpoint(1)));
    assert_eq!(
        store.store_checkpoint(
            &digest(0xc2),
            checkpoint(2),
            &vec![leaf(&log, &r[0]), LogLeaf { log_id: digest(9), record_id: id_of(&r[1]) }]
        ),
        Err(DataStoreError::LogNotFound(digest(9)))
    );
    assert_eq!(
        store.store_checkpoint(
            &digest(0xc3),
            checkpoint(3),
            &vec![leaf(&log, &r[0]), LogLeaf { log_id: log.clone(), record_id: digest(9) }]
        ),
        Err(DataStoreError::RecordNotFound(digest(9)))
    );
    assert_eq!(
        store.store_checkpoint(
            &digest(0xc4),
            checkpoint(4),
            &vec![leaf(&log, &r[0]), leaf(&log, &r[1]), leaf(&log, &r[1])]
        ),
        Err(published.clone())
    );
    for e in &r {
        let record = store.get_package_record(&log, &id_of(e)).unwrap();
        assert_eq!(record.status, PublicStatus::Validated);
        assert_eq!(record.checkpoint, None);
    }
    assert_eq!(store.get_latest_checkpoint(), Ok(checkpoint(1)));
    assert_eq!(
        store.get_package_records(&log, &digest(0xc4), None, 10),
        Err(DataStoreError::CheckpointNotFound(digest(0xc4)))
    );
    assert_eq!(store.get_package_records(&log, &digest(0xc1), None, 10), Ok(vec![]));
    assert_eq!(
        store.store_checkpoint(
            &digest(0xc4),
            checkpoint(4),
            &vec![leaf(&log, &r[2]), leaf(&log, &r[0])]
        ),
        Ok(())
    );
    for e in [&r[0], &r[2]] {
        let record = store.get_package_record(&log, &id_of(e)).unwrap();
        assert_eq!(record.status, PublicStatus::Published);
        assert_eq!(&record.envelope, e);
        assert_eq!(record.checkpoint, Some(checkpoint(4)));
    }
    assert_eq!(
        store.get_package_record(&log, &id_of(&r[1])).unwrap().status,
        PublicStatus::Validated
    );
    assert_eq!(
        store.store_checkpoint(&digest(0xc5), checkpoint(5), &vec![leaf(&log, &r[0])]),
        Err(published)
    );
    assert_eq!(
        store.store_checkpoint(&digest(0xc5), checkpoint(5), &vec![leaf(&log, &r[1])]),
        Ok(())
    );
    assert_eq!(store.get_latest_checkpoint(), Ok(checkpoint(5)));
    assert_eq!(
        store.get_package_record(&log, &id_of(&r[1])).unwrap().checkpoint,
        Some(checkpoint(5))
    );
    assert_eq!(
        store.get_package_record(&log, &id_of(&r[0])).unwrap().checkpoint,
        Some(checkpoint(4))
    );
    assert_eq!(store.get_package_records(&log, &digest(0xc4), None, 10), Ok(r[..2].to_vec()));
    assert_eq!(store.get_package_records(&log, &digest(0xc1), None, 10), Ok(vec![]));
    assert_eq!(store.get_package_records(&log, &digest(0xc5), None, 10), Ok(r.clone()));
    assert!(store.get_initial_leaves().is_empty());
    assert!(MemoryDataStore::default().get_latest_checkpoint().is_err());
}

#[test]
fn validator_runs_whatever_content_is_missing() {
    let key = fresh_private();
    let (mut store, log, r) = package_log(&key, 1);
    let waiting = sign(LogKind::Package, Some(id_of(&r[1])), 9, vec![release(2, 0xbb)], &key);
    let id = id_of(&waiting);
    store.store_package_record(&log, "foo:bar", &id, &waiting, &vec![digest(0xbb)]).unwrap();
    assert_eq!(store.validate_package_record(&log, &id), Ok(()));
    let record = store.get_package_record(&log, &id).unwrap();
    assert_eq!(record.status, PublicStatus::Validated);
    assert_eq!(record.envelope, waiting);
    assert_eq!(
        store.is_content_missing(&log, &id, &digest(0xbb)),
        Err(DataStoreError::RecordNotPending(id.clone()))
    );
    assert_eq!(
        store.set_content_present(&log, &id, &digest(0xbb)),
        Err(DataStoreError::RecordNotPending(id.clone()))
    );
    assert_eq!(
        store.store_checkpoint(
            &digest(0xc1),
            checkpoint(1),
            &vec![leaf(&log, &r[0]), leaf(&log, &waiting)]
        ),
        Err(DataStoreError::Rejected("content is missing".to_string()))
    );
    assert_eq!(
        store.get_package_record(&log, &id_of(&r[0])).unwrap().status,
        PublicStatus::Validated
    );
    let stale = sign(LogKind::Package, Some(id_of(&r[0])), 9, vec![release(3, 0xcc)], &key);
    store
        .store_package_record(&log, "foo:bar", &id_of(&stale), &stale, &vec![digest(0xcc)])
        .unwrap();
    assert_eq!(
        store.validate_package_record(&log, &id_of(&stale)),
        Err(DataStoreError::Validation(ValidationError::ProtocolViolation(
            registry_core::state::Violation::PrevMismatch
        )))
    );
    let again = sign(LogKind::Package, Some(id), 9, vec![init(&key)], &key);
    store.store_package_record(&log, "foo:bar", &id_of(&again), &again, &vec![]).unwrap();
    assert_eq!(
        store.validate_package_record(&log, &id_of(&again)),
        Err(DataStoreError::Validation(ValidationError::ProtocolViolation(
            registry_core::state::Violation::InitAfterGenesis
        )))
    );
}

#[test]
fn a_record_waits_only_for_content_it_releases() {
    let key = fresh_private();
    let (mut store, log, r) = package_log(&key, 0);
    let released = sign(LogKind::Package, Some(id_of(&r[0])), 2, vec![release(1, 0xbb)], &key);
    let id = id_of(&released);
    assert_eq!(
        store.store_package_record(&log, "foo:bar", &id, &released, &vec![digest(0xcc)]),
        Err(DataStoreError::Rejected("missing content is not content of the record".to_string()))
    );
    assert_eq!(
        store.store_package_record(
            &log,
            "foo:bar",
            &id,
            &released,
            &vec![digest(0xbb), digest(0xcc)]
        ),
        Err(DataStoreError::Rejected("missing content is not content of the record".to_string()))
    );
    assert_eq!(
        store.get_package_record(&log, &id),
        Err(DataStoreError::RecordNotFound(id.clone()))
    );
    let junk = Envelope::new(vec![1, 2, 3], digest(1), vec![]);
    assert_eq!(
        store.store_package_record(&log, "foo:bar", &id_of(&junk), &junk, &vec![digest(0xbb)]),
        Err(DataStoreError::Rejected("missing content is not content of the record".to_string()))
    );
    assert_eq!(store.store_package_record(&log, "foo:bar", &id_of(&junk), &junk, &vec![]), Ok(()));
    assert_eq!(
        store.store_package_record(&log, "foo:bar", &id, &released, &vec![digest(0xbb)]),
        Ok(())
    );
}

#[test]
fn reuse_and_later_init_come_before_the_algorithm_of_a_digest() {
    let key = fresh_private();
    let (mut store, log, r) = package_log(&key, 1);
    let other = AnyHash { alg: HashAlg::Sha512, bytes: vec![1; 64] };
    let reused = sign(
        LogKind::Package,
        Some(id_of(&r[1])),
        9,
        vec![Entry::Release { version: Version::new(1, 0, 0), content: other.clone() }],
        &key,
    );
    store.store_package_record(&log, "foo:bar", &id_of(&reused), &reused, &vec![]).unwrap();
    assert_eq!(
        store.validate_package_record(&log, &id_of(&reused)),
        Err(DataStoreError::Validation(ValidationError::ReleaseVersionReused(Version::new(
            1, 0, 0
        ))))
    );
    assert_eq!(
        store.get_package_record(&log, &id_of(&reused)).unwrap().status,
        PublicStatus::Rejected("release version reused: 1.0.0".to_string())
    );
    let with_init = sign(
        LogKind::Package,
        Some(id_of(&r[1])),
        9,
        vec![Entry::Release { version: Version::new(5, 0, 0), content: other }, init(&key)],
        &key,
    );
    store.store_package_record(&log, "foo:bar", &id_of(&with_init), &with_init, &vec![]).unwrap();
    assert_eq!(
        store.validate_package_record(&log, &id_of(&with_init)),
        Err(DataStoreError::Validation(ValidationError::ProtocolViolation(
            registry_core::state::Violation::InitAfterGenesis
        )))
    );
    assert_eq!(
        store.get_package_record(&log, &id_of(&with_init)).unwrap().status,
        PublicStatus::Rejected(
            "protocol violation: init entry after the beginning of the log".to_string()
        )
    );
    let next = sign(LogKind::Package, Some(id_of(&r[1])), 9, vec![release(2, 2)], &key);
    store.store_package_record(&log, "foo:bar", &id_of(&next), &next, &vec![]).unwrap();
    assert_eq!(store.validate_package_record(&log, &id_of(&next)), Ok(()));
    let record = store.get_package_record(&log, &id_of(&next)).unwrap();
    assert_eq!(record.status, PublicStatus::Validated);
    assert_eq!(record.envelope, next);
    assert_eq!(id_of(&record.envelope), id_of(&next));
}
