use registry_core::envelope::{key_id, Envelope};
use registry_core::hash::{AnyHash, HashAlg};
use registry_core::record::{Entry, LogKind, Permission, Record, Timestamp, Version};
use registry_core::state::{EnvelopeError, Violation};
use registry_core::validator::{ReleaseState, ValidationError, Validator};

const ALICE: &str = "ecdsa-p256:I+UlDo0HxyBBFeelhPPWmD+LnklOpqZDkrFP5VduASk=";

fn public_of(private: &str) -> Vec<u8> {
    warg_crypto::signing::PrivateKey::decode(private.to_string())
        .unwrap()
        .public_key()
        .to_string()
        .into_bytes()
}

fn fresh_private() -> String {
    let (_, private) = warg_crypto::signing::generate_p256_pair();
    private.encode().to_string()
}

fn digest(byte: u8) -> AnyHash {
    AnyHash { alg: HashAlg::Sha256, bytes: vec![byte; 32] }
}

fn record(prev: Option<AnyHash>, secs: u64, entries: Vec<Entry>) -> Record {
    Record { prev, version: 0, timestamp: Timestamp { secs, nanos: 0 }, entries }
}

fn sign(kind: LogKind, record: &Record, private: &str) -> Envelope {
    Envelope::signed(kind, record, private.as_bytes()).unwrap()
}

fn init(private: &str) -> Entry {
    Entry::Init { hash_alg: HashAlg::Sha256, key: public_of(private) }
}

fn release(major: u64, byte: u8) -> Entry {
    Entry::Release { version: Version::new(major, 0, 0), content: digest(byte) }
}

/// A package validator after its genesis record, with the identifier of that record.
fn initialised() -> (Validator, AnyHash) {
    let mut v = Validator::new(LogKind::Package);
    let genesis = sign(LogKind::Package, &record(None, 10, vec![init(ALICE)]), ALICE);
    assert_eq!(v.validate(&genesis), Ok(vec![]));
    (v, genesis.record_id(HashAlg::Sha256))
}

#[test]
fn genesis_installs_the_init_key_with_every_permission() {
    let (v, head) = initialised();
    let id = key_id(&public_of(ALICE));
    assert_eq!(v.key(&id), Some(&public_of(ALICE)));
    assert!(v.permissions(&id).commit);
    assert!(v.permissions(&id).key_management);
    assert_eq!(v.head().as_ref().unwrap().record_id, head);
    assert_eq!(v.algorithm(), HashAlg::Sha256);
}

#[test]
fn genesis_signed_by_another_key_is_refused() {
    let mut v = Validator::new(LogKind::Package);
    let other = fresh_private();
    let genesis = sign(LogKind::Package, &record(None, 10, vec![init(ALICE)]), &other);
    assert_eq!(v.validate(&genesis), Err(ValidationError::GenesisWrongSigner));
    assert!(v.head().is_none());
}

#[test]
fn genesis_without_init_is_refused() {
    let mut v = Validator::new(LogKind::Package);
    let first = sign(LogKind::Package, &record(None, 10, vec![release(1, 0xaa)]), ALICE);
    assert_eq!(v.validate(&first), Err(ValidationError::GenesisMissing));
    let empty = sign(LogKind::Package, &record(None, 10, vec![]), ALICE);
    assert_eq!(v.validate(&empty), Err(ValidationError::GenesisMissing));
}

#[test]
fn second_init_is_a_protocol_violation() {
    let (mut v, head) = initialised();
    let again = sign(LogKind::Package, &record(Some(head), 11, vec![init(ALICE)]), ALICE);
    assert_eq!(
        v.validate(&again),
        Err(ValidationError::ProtocolViolation(Violation::InitAfterGenesis))
    );
    let mut w = Validator::new(LogKind::Package);
    let twice = sign(LogKind::Package, &record(None, 10, vec![init(ALICE), init(ALICE)]), ALICE);
    assert_eq!(
        w.validate(&twice),
        Err(ValidationError::ProtocolViolation(Violation::InitAfterGenesis))
    );
    assert!(w.head().is_none());
}

#[test]
fn release_version_reused_is_refused() {
    let (mut v, head) = initialised();
    let first = sign(LogKind::Package, &record(Some(head), 11, vec![release(1, 0xaa)]), ALICE);
    assert_eq!(v.validate(&first), Ok(vec![digest(0xaa)]));
    let head = first.record_id(HashAlg::Sha256);
    let second = sign(LogKind::Package, &record(Some(head.clone()), 12, vec![release(1, 0xbb)]), ALICE);
    assert_eq!(
        v.validate(&second),
        Err(ValidationError::ReleaseVersionReused(Version::new(1, 0, 0)))
    );
    assert_eq!(v.head().as_ref().unwrap().record_id, head);
    assert_eq!(
        v.release(&Version::new(1, 0, 0)),
        Some(&ReleaseState::Released(digest(0xaa)))
    );
}

#[test]
fn yank_of_unreleased_is_refused() {
    let (mut v, head) = initialised();
    let yank = sign(
        LogKind::Package,
        &record(Some(head), 11, vec![Entry::Yank { version: Version::new(2, 0, 0) }]),
        ALICE,
    );
    assert_eq!(
        v.validate(&yank),
        Err(ValidationError::YankOfUnreleased(Version::new(2, 0, 0)))
    );
}

#[test]
fn yank_preserves_digest() {
    let (mut v, head) = initialised();
    let first = sign(LogKind::Package, &record(Some(head), 11, vec![release(1, 0xdd)]), ALICE);
    v.validate(&first).unwrap();
    let yank = sign(
        LogKind::Package,
        &record(
            Some(first.record_id(HashAlg::Sha256)),
            12,
            vec![Entry::Yank { version: Version::new(1, 0, 0) }],
        ),
        ALICE,
    );
    assert_eq!(v.validate(&yank), Ok(vec![]));
    assert_eq!(
        v.release(&Version::new(1, 0, 0)),
        Some(&ReleaseState::Yanked(digest(0xdd)))
    );
    let again = sign(
        LogKind::Package,
        &record(
            Some(yank.record_id(HashAlg::Sha256)),
            13,
            vec![Entry::Yank { version: Version::new(1, 0, 0) }],
        ),
        ALICE,
    );
    assert_eq!(
        v.validate(&again),
        Err(ValidationError::YankOfUnreleased(Version::new(1, 0, 0)))
    );
}

#[test]
fn prev_pointing_to_a_non_head_is_a_protocol_violation() {
    let (mut v, head) = initialised();
    let first = sign(LogKind::Package, &record(Some(head.clone()), 11, vec![release(1, 0xaa)]), ALICE);
    v.validate(&first).unwrap();
    let stale = sign(LogKind::Package, &record(Some(head), 12, vec![release(2, 0xbb)]), ALICE);
    assert_eq!(
        v.validate(&stale),
        Err(ValidationError::ProtocolViolation(Violation::PrevMismatch))
    );
    let unchained = sign(LogKind::Package, &record(None, 12, vec![release(2, 0xbb)]), ALICE);
    assert_eq!(
        v.validate(&unchained),
        Err(ValidationError::ProtocolViolation(Violation::PrevMismatch))
    );
}

#[test]
fn unauthorized_signer_is_refused() {
    let (mut v, head) = initialised();
    let other = fresh_private();
    let grant = sign(
        LogKind::Package,
        &record(
            Some(head),
            11,
            vec![Entry::GrantFlat {
                key: public_of(&other),
                permissions: vec![Permission::KeyManagement],
            }],
        ),
        ALICE,
    );
    assert_eq!(v.validate(&grant), Ok(vec![]));
    let head = grant.record_id(HashAlg::Sha256);
    let attempt = sign(LogKind::Package, &record(Some(head.clone()), 12, vec![release(1, 0xaa)]), &other);
    assert_eq!(
        v.validate(&attempt),
        Err(ValidationError::Unauthorized(Permission::Commit))
    );
    let allow = sign(
        LogKind::Package,
        &record(
            Some(head),
            12,
            vec![Entry::GrantFlat { key: public_of(&other), permissions: vec![Permission::Commit] }],
        ),
        ALICE,
    );
    assert_eq!(v.validate(&allow), Ok(vec![]));
    let retry = sign(
        LogKind::Package,
        &record(Some(allow.record_id(HashAlg::Sha256)), 13, vec![release(1, 0xaa)]),
        &other,
    );
    assert_eq!(v.validate(&retry), Ok(vec![digest(0xaa)]));
}

#[test]
fn unknown_signer_is_refused() {
    let (mut v, head) = initialised();
    let stranger = fresh_private();
    let attempt = sign(LogKind::Package, &record(Some(head), 11, vec![release(1, 0xaa)]), &stranger);
    assert_eq!(v.validate(&attempt), Err(ValidationError::UnknownKey));
}

#[test]
fn tampered_content_has_an_invalid_signature() {
    let (mut v, head) = initialised();
    let honest = sign(LogKind::Package, &record(Some(head.clone()), 11, vec![release(1, 0xaa)]), ALICE);
    let other = sign(LogKind::Package, &record(Some(head), 11, vec![release(1, 0xbb)]), ALICE);
    let forged = Envelope::new(
        other.content().clone(),
        honest.key_id().clone(),
        honest.signature().clone(),
    );
    assert_eq!(v.validate(&forged), Err(ValidationError::InvalidSignature));
    assert_eq!(v.validate(&honest), Ok(vec![digest(0xaa)]));
}

#[test]
fn timestamp_regression_is_refused() {
    let (mut v, head) = initialised();
    let early = sign(LogKind::Package, &record(Some(head.clone()), 9, vec![release(1, 0xaa)]), ALICE);
    assert_eq!(v.validate(&early), Err(ValidationError::TimestampRegression));
    let same = sign(LogKind::Package, &record(Some(head), 10, vec![release(1, 0xaa)]), ALICE);
    assert_eq!(v.validate(&same), Ok(vec![digest(0xaa)]));
}

#[test]
fn content_digest_of_another_algorithm_is_refused() {
    let (mut v, head) = initialised();
    let wrong = Entry::Release {
        version: Version::new(1, 0, 0),
        content: AnyHash { alg: HashAlg::Sha512, bytes: vec![1; 64] },
    };
    let attempt = sign(LogKind::Package, &record(Some(head), 11, vec![wrong]), ALICE);
    assert_eq!(v.validate(&attempt), Err(ValidationError::IncorrectHashAlgorithm));
}

#[test]
fn revoke_of_unknown_key_is_refused() {
    let (mut v, head) = initialised();
    let unknown = key_id(&public_of(&fresh_private()));
    let attempt = sign(
        LogKind::Package,
        &record(
            Some(head),
            11,
            vec![Entry::RevokeFlat { key_id: unknown.clone(), permissions: vec![Permission::Commit] }],
        ),
        ALICE,
    );
    assert_eq!(v.validate(&attempt), Err(ValidationError::RevokeUnknownKey(unknown)));
}

#[test]
fn revoke_takes_the_permission_away() {
    let (mut v, head) = initialised();
    let own = key_id(&public_of(ALICE));
    let revoke = sign(
        LogKind::Package,
        &record(
            Some(head),
            11,
            vec![Entry::RevokeFlat { key_id: own.clone(), permissions: vec![Permission::Commit] }],
        ),
        ALICE,
    );
    assert_eq!(v.validate(&revoke), Ok(vec![]));
    assert!(!v.permissions(&own).commit);
    assert!(v.permissions(&own).key_management);
    let attempt = sign(
        LogKind::Package,
        &record(Some(revoke.record_id(HashAlg::Sha256)), 12, vec![release(1, 0xaa)]),
        ALICE,
    );
    assert_eq!(v.validate(&attempt), Err(ValidationError::Unauthorized(Permission::Commit)));
}

#[test]
fn a_failing_entry_undoes_the_entries_before_it() {
    let (mut v, head) = initialised();
    let mixed = sign(
        LogKind::Package,
        &record(Some(head.clone()), 11, vec![release(1, 0xaa), release(1, 0xbb)]),
        ALICE,
    );
    assert_eq!(
        v.validate(&mixed),
        Err(ValidationError::ReleaseVersionReused(Version::new(1, 0, 0)))
    );
    assert_eq!(v.release(&Version::new(1, 0, 0)), None);
    assert_eq!(v.head().as_ref().unwrap().record_id, head);
}

#[test]
fn wrong_log_kind_and_malformed_content_are_protocol_violations() {
    let mut operator = Validator::new(LogKind::Operator);
    let package = sign(LogKind::Package, &record(None, 10, vec![init(ALICE)]), ALICE);
    assert_eq!(
        operator.validate(&package),
        Err(ValidationError::ProtocolViolation(Violation::WrongLogKind))
    );
    let junk = Envelope::new(vec![9, 9, 9], key_id(&public_of(ALICE)), vec![]);
    assert_eq!(
        operator.validate(&junk),
        Err(ValidationError::ProtocolViolation(Violation::Malformed))
    );
    assert!(Envelope::signed(LogKind::Operator, &record(None, 10, vec![release(1, 1)]), ALICE.as_bytes()).is_none());
}

#[test]
fn snapshot_and_rollback_restore_the_state() {
    let (mut v, head) = initialised();
    let snapshot = v.snapshot();
    let first = sign(LogKind::Package, &record(Some(head.clone()), 11, vec![release(1, 0xaa)]), ALICE);
    assert_eq!(v.validate(&first), Ok(vec![digest(0xaa)]));
    assert!(v.release(&Version::new(1, 0, 0)).is_some());
    v.rollback(snapshot);
    assert_eq!(v.release(&Version::new(1, 0, 0)), None);
    assert_eq!(v.head().as_ref().unwrap().record_id, head);
    assert_eq!(v.dry_run(&first), Ok(vec![digest(0xaa)]));
    assert_eq!(v.release(&Version::new(1, 0, 0)), None);
    assert_eq!(v.validate(&first), Ok(vec![digest(0xaa)]));
}

#[test]
fn envelope_is_verified_against_the_keys_of_the_log() {
    let (v, head) = initialised();
    let good = sign(LogKind::Package, &record(Some(head.clone()), 11, vec![release(1, 0xaa)]), ALICE);
    assert_eq!(v.verify(&good), Ok(public_of(ALICE)));
    let stranger = fresh_private();
    let unknown = sign(LogKind::Package, &record(Some(head.clone()), 11, vec![]), &stranger);
    assert_eq!(v.verify(&unknown), Err(EnvelopeError::UnknownKey));
    let other = sign(LogKind::Package, &record(Some(head.clone()), 12, vec![]), ALICE);
    let forged =
        Envelope::new(other.content().clone(), good.key_id().clone(), good.signature().clone());
    assert_eq!(v.verify(&forged), Err(EnvelopeError::BadSignature));
    let operator = sign(LogKind::Operator, &record(Some(head), 11, vec![]), ALICE);
    assert_eq!(v.verify(&operator), Err(EnvelopeError::WrongLogKind));
    let junk = Envelope::new(vec![1, 2], good.key_id().clone(), good.signature().clone());
    assert_eq!(v.verify(&junk), Err(EnvelopeError::Malformed));
}

fn other_algorithm(byte: u8) -> AnyHash {
    AnyHash { alg: HashAlg::Sha512, bytes: vec![byte; 64] }
}

#[test]
fn reused_version_is_refused_as_reuse_whatever_the_digest() {
    let (mut v, head) = initialised();
    let first = sign(LogKind::Package, &record(Some(head), 11, vec![release(1, 0xaa)]), ALICE);
    v.validate(&first).unwrap();
    let again = Entry::Release { version: Version::new(1, 0, 0), content: other_algorithm(1) };
    let second =
        sign(LogKind::Package, &record(Some(first.record_id(HashAlg::Sha256)), 12, vec![again]), ALICE);
    assert_eq!(
        v.validate(&second),
        Err(ValidationError::ReleaseVersionReused(Version::new(1, 0, 0)))
    );
    assert_eq!(
        v.release(&Version::new(1, 0, 0)),
        Some(&ReleaseState::Released(digest(0xaa)))
    );
}

#[test]
fn later_init_is_a_protocol_violation_whatever_stands_before_it() {
    let (mut v, head) = initialised();
    let fresh = Entry::Release { version: Version::new(3, 0, 0), content: other_algorithm(1) };
    let mixed =
        sign(LogKind::Package, &record(Some(head.clone()), 11, vec![fresh, init(ALICE)]), ALICE);
    assert_eq!(
        v.validate(&mixed),
        Err(ValidationError::ProtocolViolation(Violation::InitAfterGenesis))
    );
    assert_eq!(v.release(&Version::new(3, 0, 0)), None);
    assert_eq!(v.head().as_ref().unwrap().record_id, head);
}

#[test]
fn algorithms_are_checked_once_the_entries_apply() {
    let (mut v, head) = initialised();
    let wrong = Entry::Release { version: Version::new(2, 0, 0), content: other_algorithm(1) };
    let mixed = sign(
        LogKind::Package,
        &record(Some(head.clone()), 11, vec![release(1, 0xaa), wrong.clone()]),
        ALICE,
    );
    assert_eq!(v.validate(&mixed), Err(ValidationError::IncorrectHashAlgorithm));
    assert_eq!(v.release(&Version::new(1, 0, 0)), None);
    assert_eq!(v.release(&Version::new(2, 0, 0)), None);
    assert_eq!(v.head().as_ref().unwrap().record_id, head);
    let unauthorized_first = sign(
        LogKind::Package,
        &record(
            Some(head),
            11,
            vec![wrong, Entry::Yank { version: Version::new(9, 0, 0) }],
        ),
        ALICE,
    );
    assert_eq!(
        v.validate(&unauthorized_first),
        Err(ValidationError::YankOfUnreleased(Version::new(9, 0, 0)))
    );
    let mut sha512_log = Validator::new(LogKind::Package);
    let genesis = sign(
        LogKind::Package,
        &record(
            None,
            1,
            vec![
                Entry::Init { hash_alg: HashAlg::Sha512, key: public_of(ALICE) },
                Entry::Release { version: Version::new(1, 0, 0), content: other_algorithm(2) },
            ],
        ),
        ALICE,
    );
    assert_eq!(sha512_log.validate(&genesis), Ok(vec![other_algorithm(2)]));
    assert_eq!(sha512_log.algorithm(), HashAlg::Sha512);
    assert_eq!(sha512_log.head().as_ref().unwrap().record_id, genesis.record_id(HashAlg::Sha512));
    let next = sign(
        LogKind::Package,
        &record(Some(genesis.record_id(HashAlg::Sha512)), 2, vec![release(2, 0xaa)]),
        ALICE,
    );
    assert_eq!(sha512_log.validate(&next), Err(ValidationError::IncorrectHashAlgorithm));
}
