use registry_core::checkpoint::{Checkpoints, MapCheckpoint, SignedCheckpoint};
use registry_core::envelope::Envelope;
use registry_core::hash::{AnyHash, HashAlg};
use registry_core::log::{get_records_before_checkpoint, Log};
use registry_core::record::{Entry, LogKind, Record, Timestamp, Version};
use registry_core::state::PermissionSet;
use registry_core::table::Table;
use registry_core::record::Permission;

fn hash(byte: u8) -> AnyHash {
    AnyHash { alg: HashAlg::Sha256, bytes: vec![byte; 32] }
}

fn stamped(n: u64) -> SignedCheckpoint {
    SignedCheckpoint {
        checkpoint: MapCheckpoint { log_root: hash(n as u8), map_root: hash(0xee), log_length: n },
        key_id: hash(0x11),
        signature: vec![n as u8],
    }
}

#[test]
fn records_before_checkpoint_counts_indices_at_most_the_checkpoint() {
    assert_eq!(get_records_before_checkpoint(&[], 5), 0);
    assert_eq!(get_records_before_checkpoint(&[0, 0, 1, 1, 1, 3], 0), 2);
    assert_eq!(get_records_before_checkpoint(&[0, 0, 1, 1, 1, 3], 1), 5);
    assert_eq!(get_records_before_checkpoint(&[0, 0, 1, 1, 1, 3], 2), 5);
    assert_eq!(get_records_before_checkpoint(&[0, 0, 1, 1, 1, 3], 3), 6);
    assert_eq!(get_records_before_checkpoint(&[4, 1, 7, 1], 1), 2);
    assert_eq!(get_records_before_checkpoint(&[usize::MAX], usize::MAX), 1);
}

#[test]
fn log_notes_the_checkpoints_of_its_sealed_records() {
    let (_, private) = warg_crypto::signing::generate_p256_pair();
    let key = private.encode().to_string();
    let public = private.public_key().to_string().into_bytes();
    let mut log = Log::new(LogKind::Package);
    assert_eq!(log.len(), 0);
    assert_eq!(log.published(), 0);
    let mut prev = None;
    let mut envelopes = vec![];
    for i in 0..4u64 {
        let entries = if i == 0 {
            vec![Entry::Init { hash_alg: HashAlg::Sha256, key: public.clone() }]
        } else {
            vec![Entry::Release { version: Version::new(i, 0, 0), content: hash(i as u8) }]
        };
        let record = Record { prev, version: 0, timestamp: Timestamp { secs: i, nanos: 0 }, entries };
        let envelope = Envelope::signed(LogKind::Package, &record, key.as_bytes()).unwrap();
        assert_eq!(log.check(&envelope).is_ok(), true);
        assert_eq!(log.len(), i as usize);
        assert_eq!(log.append(&envelope).unwrap().0, i as usize);
        prev = Some(envelope.record_id(HashAlg::Sha256));
        envelopes.push(envelope);
    }
    assert!(log.append(&envelopes[0]).is_err());
    assert_eq!(log.len(), 4);
    assert_eq!(log.entry(3), Some(&envelopes[3]));
    assert_eq!(log.entry(4), None);
    assert_eq!(log.validator().algorithm(), HashAlg::Sha256);
    assert!(log.seal(2));
    assert!(log.seal(2));
    assert!(!log.seal(1));
    assert!(log.seal(5));
    assert_eq!(log.published(), 3);
    assert_eq!(log.checkpoint_of(0), Some(2));
    assert_eq!(log.checkpoint_of(2), Some(5));
    assert_eq!(log.checkpoint_of(3), None);
    assert_eq!(log.fetch(0, 1, 10), vec![]);
    assert_eq!(log.fetch(0, 2, 10), envelopes[..2].to_vec());
    assert_eq!(log.fetch(1, 4, 10), envelopes[1..2].to_vec());
    assert_eq!(log.fetch(1, 5, 2), envelopes[1..3].to_vec());
    assert!(log.seal(5));
    assert_eq!(log.fetch(0, 5, usize::MAX), envelopes);
    assert_eq!(log.fetch(4, 5, usize::MAX), vec![]);
    assert_eq!(log.fetch(9, 5, usize::MAX), vec![]);
    log.unseal_last();
    assert_eq!(log.published(), 3);
    assert_eq!(log.fetch(0, 5, usize::MAX), envelopes[..3].to_vec());
    assert!(log.seal(6));
    assert!(log.seal(7));
    assert_eq!(log.published(), 5);
    assert_eq!(log.fetch(0, 7, usize::MAX), vec![]);
}

#[test]
fn checkpoints_keep_their_order_and_refuse_a_second_filing() {
    let mut checkpoints = Checkpoints::new();
    assert_eq!(checkpoints.len(), 0);
    assert_eq!(checkpoints.position(&hash(1)), None);
    assert_eq!(checkpoints.get(0), None);
    assert_eq!(checkpoints.add(&hash(1), stamped(1)), Some(0));
    assert_eq!(checkpoints.add(&hash(2), stamped(2)), Some(1));
    assert_eq!(checkpoints.add(&hash(1), stamped(3)), None);
    let other = AnyHash { alg: HashAlg::Sha512, bytes: vec![1; 32] };
    assert_eq!(checkpoints.add(&other, stamped(4)), Some(2));
    assert_eq!(checkpoints.len(), 3);
    assert_eq!(checkpoints.position(&hash(1)), Some(0));
    assert_eq!(checkpoints.position(&hash(2)), Some(1));
    assert_eq!(checkpoints.position(&other), Some(2));
    assert_eq!(checkpoints.position(&hash(3)), None);
    assert_eq!(checkpoints.get(0), Some(&stamped(1)));
    assert_eq!(checkpoints.get(1), Some(&stamped(2)));
    assert_eq!(checkpoints.get(2), Some(&stamped(4)));
    assert_eq!(checkpoints.get(3), None);
}

#[test]
fn checkpoint_id_is_the_digest_of_roots_and_length() {
    let c = SignedCheckpoint {
        checkpoint: MapCheckpoint {
            log_root: AnyHash { alg: HashAlg::Sha256, bytes: vec![1] },
            map_root: AnyHash { alg: HashAlg::Sha512, bytes: vec![2, 3] },
            log_length: 258,
        },
        key_id: hash(1),
        signature: vec![],
    };
    let material = [
        &[0u8][..],
        &[1, 0, 0, 0, 0, 0, 0, 0, 1],
        &[1],
        &[2, 0, 0, 0, 0, 0, 0, 0, 2, 3],
        &[2, 1, 0, 0, 0, 0, 0, 0],
    ]
    .concat();
    assert_eq!(c.id(HashAlg::Sha256), AnyHash::digest(HashAlg::Sha256, &material));
    let mut signed_otherwise = c.clone();
    signed_otherwise.signature = vec![7];
    assert_eq!(signed_otherwise.id(HashAlg::Sha256), c.id(HashAlg::Sha256));
}

#[test]
fn table_keeps_the_newest_value_of_each_key() {
    let mut table: Table<AnyHash, PermissionSet> = Table::new();
    let none = PermissionSet { commit: false, key_management: false };
    let commit = PermissionSet { commit: true, key_management: false };
    assert!(table.is_empty());
    assert!(!table.contains(&hash(1)));
    assert_eq!(table.get(&hash(1)), None);
    assert_eq!(table.remove(&hash(1)), None);
    table.insert(hash(1), none);
    table.insert(hash(2), commit);
    table.insert(hash(1), commit);
    assert!(!table.is_empty());
    assert_eq!(table.get(&hash(1)), Some(&commit));
    assert_eq!(table.get(&hash(2)), Some(&commit));
    let copy = table.copy();
    assert_eq!(table.remove(&hash(1)), Some(commit));
    assert_eq!(table.get(&hash(1)), None);
    assert!(table.contains(&hash(2)));
    assert_eq!(table.remove(&hash(2)), Some(commit));
    assert!(table.is_empty());
    assert_eq!(copy.get(&hash(1)), Some(&commit));
    assert_eq!(
        PermissionSet::from_list(&vec![Permission::Commit, Permission::Commit]),
        commit
    );
    assert_eq!(PermissionSet::from_list(&vec![]), none);
    assert!(commit.holds(Permission::Commit));
    assert!(!commit.holds(Permission::KeyManagement));
}
