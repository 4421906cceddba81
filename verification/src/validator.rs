//! The per-log validator: applies one signed record at a time, all of it or
//! none of it, and can be put back to an earlier snapshot.

use vstd::prelude::*;
use crate::envelope::{key_id, Envelope};
use crate::hash::{bytes_clone, AnyHash, HashAlg, HashValue};
use crate::record::{entry_values, Entry, EntryValue, LogKind, Permission, Timestamp, Version};
use crate::state::{
    apply_entries, apply_entry, digests_uniform, empty_state, permissions_of, release_contents,
    validate_spec,
    verify_spec, EnvelopeError, ErrorValue, HeadValue, LogStateValue, PermissionSet, ReleaseValue,
    Violation,
};
use crate::table::{Id, Plain, Table};

verus! {

impl View for PermissionSet {
    type V = PermissionSet;

    open spec fn view(&self) -> PermissionSet {
        *self
    }
}

impl Plain for PermissionSet {
    fn copy(&self) -> (r: PermissionSet) {
        *self
    }
}

impl Plain for Vec<u8> {
    fn copy(&self) -> (r: Vec<u8>) {
        bytes_clone(self)
    }
}

impl PermissionSet {
    /// Whether the set holds the permission.
    pub fn holds(&self, p: Permission) -> (r: bool)
        ensures
            r == self.has(p),
    {
        match p {
            Permission::Commit => self.commit,
            Permission::KeyManagement => self.key_management,
        }
    }

    /// The permissions that occur in the list.
    pub fn from_list(list: &Vec<Permission>) -> (r: PermissionSet)
        ensures
            r == PermissionSet::of(list@),
    {
        let mut commit = false;
        let mut key_management = false;
        let mut i: usize = 0;
        while i < list.len()
            invariant
                i <= list.len(),
                commit == list@.subrange(0, i as int).contains(Permission::Commit),
                key_management == list@.subrange(0, i as int).contains(Permission::KeyManagement),
            decreases list.len() - i,
        {
            let ghost before = list@.subrange(0, i as int);
            let ghost after = list@.subrange(0, i + 1);
            assert(after =~= before.push(list@[i as int]));
            assert forall|p: Permission| after.contains(p) == (before.contains(p) || p == list@[i as int]) by {
                if before.contains(p) {
                    let j = choose|j: int| 0 <= j < before.len() && before[j] == p;
                    assert(after[j] == p);
                }
                if p == list@[i as int] {
                    assert(after[i as int] == p);
                }
            }
            match list[i] {
                Permission::Commit => {
                    commit = true;
                },
                Permission::KeyManagement => {
                    key_management = true;
                },
            }
            i += 1;
        }
        assert(list@.subrange(0, list.len() as int) =~= list@);
        PermissionSet { commit, key_management }
    }
}

/// What became of a released version. The digest is that of the release; a
/// yank keeps it.
#[derive(Clone, Debug, PartialEq, Eq)]
pub enum ReleaseState {
    Released(AnyHash),
    Yanked(AnyHash),
}

impl View for ReleaseState {
    type V = ReleaseValue;

    open spec fn view(&self) -> ReleaseValue {
        match self {
            ReleaseState::Released(d) => ReleaseValue::Released(d@),
            ReleaseState::Yanked(d) => ReleaseValue::Yanked(d@),
        }
    }
}

impl Plain for ReleaseState {
    fn copy(&self) -> (r: ReleaseState) {
        match self {
            ReleaseState::Released(d) => ReleaseState::Released(d.copy()),
            ReleaseState::Yanked(d) => ReleaseState::Yanked(d.copy()),
        }
    }
}

/// The last validated record of a log.
#[derive(Clone, Debug, PartialEq, Eq)]
pub struct Head {
    pub record_id: AnyHash,
    pub timestamp: Timestamp,
}

impl View for Head {
    type V = HeadValue;

    open spec fn view(&self) -> HeadValue {
        HeadValue { record_id: self.record_id@, timestamp: self.timestamp }
    }
}

/// The value of an optional head.
pub open spec fn optional_head_value(h: Option<Head>) -> Option<HeadValue> {
    match h {
        Some(h) => Some(h@),
        None => None,
    }
}

/// Why the validator refuses a record.
#[derive(Clone, Debug, PartialEq, Eq)]
pub enum ValidationError {
    /// The signer's key is not known to the log.
    UnknownKey,
    /// The signer does not hold the permission an entry needs.
    Unauthorized(Permission),
    /// The signature does not verify over the content bytes.
    InvalidSignature,
    /// A content digest uses another algorithm than the log's.
    IncorrectHashAlgorithm,
    /// The record breaks the protocol in the way given.
    ProtocolViolation(Violation),
    /// A record's bytes do not hash to the identifier it was stored under.
    RecordHashDoesNotMatch,
    /// The record is older than the head of the log.
    TimestampRegression,
    /// The version was released before.
    ReleaseVersionReused(Version),
    /// The version is not in the released state.
    YankOfUnreleased(Version),
    /// The key to revoke from was never introduced.
    RevokeUnknownKey(AnyHash),
    /// The first record does not begin with `Init`.
    GenesisMissing,
    /// The first record is not signed by the key its `Init` installs.
    GenesisWrongSigner,
}

impl View for ValidationError {
    type V = ErrorValue;

    open spec fn view(&self) -> ErrorValue {
        match self {
            ValidationError::UnknownKey => ErrorValue::UnknownKey,
            ValidationError::Unauthorized(p) => ErrorValue::Unauthorized(*p),
            ValidationError::InvalidSignature => ErrorValue::InvalidSignature,
            ValidationError::IncorrectHashAlgorithm => ErrorValue::IncorrectHashAlgorithm,
            ValidationError::ProtocolViolation(v) => ErrorValue::ProtocolViolation(*v),
            ValidationError::RecordHashDoesNotMatch => ErrorValue::RecordHashDoesNotMatch,
            ValidationError::TimestampRegression => ErrorValue::TimestampRegression,
            ValidationError::ReleaseVersionReused(v) => ErrorValue::ReleaseVersionReused(v@),
            ValidationError::YankOfUnreleased(v) => ErrorValue::YankOfUnreleased(v@),
            ValidationError::RevokeUnknownKey(k) => ErrorValue::RevokeUnknownKey(k@),
            ValidationError::GenesisMissing => ErrorValue::GenesisMissing,
            ValidationError::GenesisWrongSigner => ErrorValue::GenesisWrongSigner,
        }
    }
}

/// The values of a sequence of hashes, in order.
pub open spec fn hash_values(hashes: Seq<AnyHash>) -> Seq<HashValue> {
    Seq::new(hashes.len(), |i: int| hashes[i]@)
}

/// The validator of one log.
pub struct Validator {
    kind: LogKind,
    algorithm: HashAlg,
    head: Option<Head>,
    keys: Table<AnyHash, Vec<u8>>,
    permissions: Table<AnyHash, PermissionSet>,
    releases: Table<Version, ReleaseState>,
}

/// A validator state kept aside to return to.
pub struct Snapshot {
    state: Validator,
}

impl View for Validator {
    type V = LogStateValue;

    closed spec fn view(&self) -> LogStateValue {
        LogStateValue {
            kind: self.kind,
            algorithm: self.algorithm,
            head: optional_head_value(self.head),
            keys: self.keys@,
            permissions: self.permissions@,
            releases: self.releases@,
        }
    }
}

impl View for Snapshot {
    type V = LogStateValue;

    closed spec fn view(&self) -> LogStateValue {
        self.state@
    }
}

impl Validator {
    /// The validator of an empty log of the given kind.
    pub fn new(kind: LogKind) -> (v: Validator)
        ensures
            v@ == empty_state(kind),
    {
        Validator {
            kind,
            algorithm: HashAlg::Sha256,
            head: None,
            keys: Table::new(),
            permissions: Table::new(),
            releases: Table::new(),
        }
    }

    /// The kind of log the validator is for.
    pub fn kind(&self) -> (k: LogKind)
        ensures
            k == self@.kind,
    {
        self.kind
    }

    /// The hash algorithm of the log.
    pub fn algorithm(&self) -> (a: HashAlg)
        ensures
            a == self@.algorithm,
    {
        self.algorithm
    }

    /// The last validated record, if there is one.
    pub fn head(&self) -> (h: &Option<Head>)
        ensures
            optional_head_value(*h) == self@.head,
    {
        &self.head
    }

    /// The key with the given identifier, if it was introduced.
    pub fn key(&self, id: &AnyHash) -> (k: Option<&Vec<u8>>)
        ensures
            k is Some <==> self@.keys.contains_key(id@),
            k matches Some(bytes) ==> bytes@ == self@.keys[id@],
    {
        self.keys.get(id)
    }

    /// The permissions the key holds now.
    pub fn permissions(&self, id: &AnyHash) -> (p: PermissionSet)
        ensures
            p == permissions_of(self@, id@),
    {
        match self.permissions.get(id) {
            Some(p) => *p,
            None => PermissionSet { commit: false, key_management: false },
        }
    }

    /// What became of the version, if it was released.
    pub fn release(&self, version: &Version) -> (r: Option<&ReleaseState>)
        ensures
            r is Some <==> self@.releases.contains_key(version@),
            r matches Some(state) ==> state@ == self@.releases[version@],
    {
        self.releases.get(version)
    }

    fn duplicate(&self) -> (v: Validator)
        ensures
            v@ == self@,
    {
        Validator {
            kind: self.kind,
            algorithm: self.algorithm,
            head: match &self.head {
                Some(h) => Some(Head { record_id: h.record_id.copy(), timestamp: h.timestamp }),
                None => None,
            },
            keys: self.keys.copy(),
            permissions: self.permissions.copy(),
            releases: self.releases.copy(),
        }
    }

    /// The present state, kept aside.
    pub fn snapshot(&self) -> (s: Snapshot)
        ensures
            s@ == self@,
    {
        Snapshot { state: self.duplicate() }
    }

    /// Puts the validator back to the state of the snapshot: head, keys,
    /// permissions and releases are those of the instant it was taken.
    pub fn rollback(&mut self, snapshot: Snapshot)
        ensures
            final(self)@ == snapshot@,
    {
        *self = snapshot.state;
    }

    /// Verifies the envelope against the keys of the log and returns the
    /// public key of its signer.
    pub fn verify(&self, envelope: &Envelope) -> (r: Result<Vec<u8>, EnvelopeError>)
        ensures
            match verify_spec(self@, envelope@) {
                Ok(key) => r matches Ok(k) && k@ == key,
                Err(e) => r == Err::<Vec<u8>, EnvelopeError>(e),
            },
    {
        let (kind, record) = match envelope.record() {
            None => {
                return Err(EnvelopeError::Malformed);
            },
            Some(x) => x,
        };
        if kind != self.kind {
            return Err(EnvelopeError::WrongLogKind);
        }
        match self.keys.get(envelope.key_id()) {
            None => Err(EnvelopeError::UnknownKey),
            Some(key) => {
                if envelope.has_valid_signature(key.as_slice()) {
                    Ok(bytes_clone(key))
                } else {
                    Err(EnvelopeError::BadSignature)
                }
            },
        }
    }

    /// What `validate` would answer for the record, with the state left as it
    /// is: takes a snapshot, validates, and rolls back.
    pub fn dry_run(&mut self, envelope: &Envelope) -> (r: Result<Vec<AnyHash>, ValidationError>)
        ensures
            final(self)@ == old(self)@,
            match validate_spec(old(self)@, envelope@) {
                Ok((st, contents)) => r matches Ok(c) && hash_values(c@) == contents,
                Err(x) => r matches Err(v) && v@ == x,
            },
    {
        let snapshot = self.snapshot();
        let r = self.validate(envelope);
        self.rollback(snapshot);
        r
    }

    fn apply_entry(&mut self, signer: &AnyHash, e: &Entry) -> (r: Result<
        Option<AnyHash>,
        ValidationError,
    >)
        ensures
            match apply_entry(old(self)@, signer@, e@) {
                Ok(st) => r is Ok && final(self)@ == st,
                Err(x) => r matches Err(v) && v@ == x,
            },
            r matches Ok(c) ==> match e@ {
                EntryValue::Release { version, content } => c matches Some(d) && d@ == content,
                _ => c is None,
            },
    {
        let held = self.permissions(signer);
        match e {
            Entry::Init { .. } => Err(ValidationError::ProtocolViolation(Violation::InitAfterGenesis)),
            Entry::GrantFlat { key, permissions } => {
                if !held.key_management {
                    return Err(ValidationError::Unauthorized(Permission::KeyManagement));
                }
                let id = key_id(key.as_slice());
                let current = self.permissions(&id);
                let added = PermissionSet::from_list(permissions);
                if !self.keys.contains(&id) {
                    self.keys.insert(id.copy(), bytes_clone(key));
                }
                self.permissions.insert(
                    id,
                    PermissionSet {
                        commit: current.commit || added.commit,
                        key_management: current.key_management || added.key_management,
                    },
                );
                Ok(None)
            },
            Entry::RevokeFlat { key_id, permissions } => {
                if !held.key_management {
                    return Err(ValidationError::Unauthorized(Permission::KeyManagement));
                }
                if !self.keys.contains(key_id) {
                    return Err(ValidationError::RevokeUnknownKey(key_id.copy()));
                }
                let current = self.permissions(key_id);
                let taken = PermissionSet::from_list(permissions);
                self.permissions.insert(
                    key_id.copy(),
                    PermissionSet {
                        commit: current.commit && !taken.commit,
                        key_management: current.key_management && !taken.key_management,
                    },
                );
                Ok(None)
            },
            Entry::Release { version, content } => {
                if !held.commit {
                    return Err(ValidationError::Unauthorized(Permission::Commit));
                }
                if self.releases.contains(version) {
                    return Err(ValidationError::ReleaseVersionReused(version.copy()));
                }
                self.releases.insert(version.copy(), ReleaseState::Released(content.copy()));
                Ok(Some(content.copy()))
            },
            Entry::Yank { version } => {
                if !held.commit {
                    return Err(ValidationError::Unauthorized(Permission::Commit));
                }
                let digest: Option<AnyHash> = match self.releases.get(version) {
                    Some(ReleaseState::Released(d)) => Some(d.copy()),
                    _ => None,
                };
                match digest {
                    None => Err(ValidationError::YankOfUnreleased(version.copy())),
                    Some(d) => {
                        self.releases.insert(version.copy(), ReleaseState::Yanked(d));
                        Ok(None)
                    },
                }
            },
        }
    }

    fn apply_entries(&mut self, signer: &AnyHash, entries: &Vec<Entry>, start: usize) -> (r: Result<
        Vec<AnyHash>,
        ValidationError,
    >)
        requires
            start <= entries.len(),
        ensures
            match apply_entries(old(self)@, signer@, entry_values(entries@).skip(start as int)) {
                Ok(st) => r matches Ok(c) && final(self)@ == st && hash_values(c@)
                    == release_contents(entry_values(entries@).skip(start as int)),
                Err(x) => r matches Err(v) && v@ == x,
            },
    {
        let ghost es = entry_values(entries@);
        let ghost goal = apply_entries(self@, signer@, es.skip(start as int));
        let ghost all = release_contents(es.skip(start as int));
        let mut contents: Vec<AnyHash> = Vec::new();
        let mut i: usize = start;
        assert(hash_values(contents@) + all =~= all);
        while i < entries.len()
            invariant
                start <= i <= entries.len(),
                es == entry_values(entries@),
                goal == apply_entries(old(self)@, signer@, es.skip(start as int)),
                goal == apply_entries(self@, signer@, es.skip(i as int)),
                all == hash_values(contents@) + release_contents(es.skip(i as int)),
            decreases entries.len() - i,
        {
            let ghost rest = es.skip(i as int);
            let ghost before = hash_values(contents@);
            assert(rest[0] == entries@[i as int]@);
            assert(rest.skip(1) =~= es.skip(i + 1));
            match self.apply_entry(signer, &entries[i]) {
                Err(e) => {
                    return Err(e);
                },
                Ok(c) => {
                    match c {
                        Some(d) => {
                            contents.push(d);
                            assert(hash_values(contents@) =~= before.push(d@));
                            assert(before.push(d@) + release_contents(es.skip(i + 1)) =~= before
                                + (seq![d@] + release_contents(es.skip(i + 1))));
                        },
                        None => {},
                    }
                },
            }
            i += 1;
        }
        assert(es.skip(entries.len() as int) =~= Seq::<EntryValue>::empty());
        assert(hash_values(contents@) + Seq::<HashValue>::empty() =~= hash_values(contents@));
        Ok(contents)
    }

    /// Applies the record in `envelope`, all of it or none of it. On success
    /// the state has advanced and the content digests of the record's releases
    /// are returned in order; on refusal nothing has changed.
    pub fn validate(&mut self, envelope: &Envelope) -> (r: Result<Vec<AnyHash>, ValidationError>)
        ensures
            match validate_spec(old(self)@, envelope@) {
                Ok((st, contents)) => r matches Ok(c) && hash_values(c@) == contents
                    && final(self)@ == st,
                Err(x) => r matches Err(v) && v@ == x && final(self)@ == old(self)@,
            },
    {
        let (kind, record) = match envelope.record() {
            None => {
                return Err(ValidationError::ProtocolViolation(Violation::Malformed));
            },
            Some(x) => x,
        };
        if kind != self.kind {
            return Err(ValidationError::ProtocolViolation(Violation::WrongLogKind));
        }
        let mut next = self.duplicate();
        let start: usize;
        match &self.head {
            None => {
                if record.prev.is_some() {
                    return Err(ValidationError::ProtocolViolation(Violation::PrevMismatch));
                }
                if record.entries.len() == 0 {
                    return Err(ValidationError::GenesisMissing);
                }
                match &record.entries[0] {
                    Entry::Init { hash_alg, key } => {
                        if !envelope.signed_by(key.as_slice()) {
                            let id = key_id(key.as_slice());
                            if !id.same(envelope.key_id()) {
                                return Err(ValidationError::GenesisWrongSigner);
                            }
                            return Err(ValidationError::InvalidSignature);
                        }
                        let id = key_id(key.as_slice());
                        next.algorithm = *hash_alg;
                        next.keys.insert(id.copy(), bytes_clone(key));
                        next.permissions.insert(
                            id,
                            PermissionSet { commit: true, key_management: true },
                        );
                        start = 1;
                    },
                    _ => {
                        return Err(ValidationError::GenesisMissing);
                    },
                }
            },
            Some(head) => {
                match self.keys.get(envelope.key_id()) {
                    None => {
                        return Err(ValidationError::UnknownKey);
                    },
                    Some(key) => {
                        if !envelope.has_valid_signature(key.as_slice()) {
                            return Err(ValidationError::InvalidSignature);
                        }
                    },
                }
                match &record.prev {
                    None => {
                        return Err(ValidationError::ProtocolViolation(Violation::PrevMismatch));
                    },
                    Some(prev) => {
                        if !prev.same(&head.record_id) {
                            return Err(ValidationError::ProtocolViolation(Violation::PrevMismatch));
                        }
                    },
                }
                if record.timestamp.is_before(&head.timestamp) {
                    return Err(ValidationError::TimestampRegression);
                }
                assert(entry_values(record.entries@).skip(0) =~= entry_values(record.entries@));
                start = 0;
            },
        }
        let contents = match next.apply_entries(envelope.key_id(), &record.entries, start) {
            Err(e) => {
                return Err(e);
            },
            Ok(c) => c,
        };
        if !uniform(next.algorithm, &contents) {
            return Err(ValidationError::IncorrectHashAlgorithm);
        }
        next.head = Some(
            Head { record_id: envelope.record_id(next.algorithm), timestamp: record.timestamp },
        );
        *self = next;
        Ok(contents)
    }
}

/// Whether every digest uses the algorithm.
pub fn uniform(alg: HashAlg, digests: &Vec<AnyHash>) -> (r: bool)
    ensures
        r == digests_uniform(alg, hash_values(digests@)),
{
    let mut i: usize = 0;
    while i < digests.len()
        invariant
            i <= digests.len(),
            forall|j: int| 0 <= j < i ==> (#[trigger] hash_values(digests@)[j]).alg == alg,
        decreases digests.len() - i,
    {
        if digests[i].alg != alg {
            assert(hash_values(digests@)[i as int].alg != alg);
            return false;
        }
        i += 1;
    }
    true
}

/// The content digests of the `Release` entries, in order.
pub fn release_digests(entries: &Vec<Entry>) -> (out: Vec<AnyHash>)
    ensures
        hash_values(out@) == release_contents(entry_values(entries@)),
{
    let ghost es = entry_values(entries@);
    let mut out: Vec<AnyHash> = Vec::new();
    let mut i: usize = 0;
    assert(es.skip(0) =~= es);
    assert(hash_values(out@) + release_contents(es) =~= release_contents(es));
    while i < entries.len()
        invariant
            i <= entries.len(),
            es == entry_values(entries@),
            release_contents(es) == hash_values(out@) + release_contents(es.skip(i as int)),
        decreases entries.len() - i,
    {
        let ghost before = hash_values(out@);
        assert(es.skip(i as int)[0] == entries@[i as int]@);
        assert(es.skip(i as int).skip(1) =~= es.skip(i + 1));
        match &entries[i] {
            Entry::Release { version, content } => {
                out.push(content.copy());
                assert(hash_values(out@) =~= before.push(content@));
                assert(before.push(content@) + release_contents(es.skip(i + 1)) =~= before + (
                seq![content@] + release_contents(es.skip(i + 1))));
            },
            _ => {},
        }
        i += 1;
    }
    assert(es.skip(entries.len() as int) =~= Seq::<EntryValue>::empty());
    assert(hash_values(out@) + Seq::<HashValue>::empty() =~= hash_values(out@));
    out
}

/// Whether the hash is among the hashes.
pub fn contains_hash(hashes: &Vec<AnyHash>, h: &AnyHash) -> (r: bool)
    ensures
        r == hash_values(hashes@).contains(h@),
{
    let mut i: usize = 0;
    while i < hashes.len()
        invariant
            i <= hashes.len(),
            forall|j: int| 0 <= j < i ==> hash_values(hashes@)[j] != h@,
        decreases hashes.len() - i,
    {
        if hashes[i].same(h) {
            assert(hash_values(hashes@)[i as int] == h@);
            return true;
        }
        i += 1;
    }
    false
}

} // verus!
