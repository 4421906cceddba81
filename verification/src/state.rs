//! What a log's validator knows, and the rule by which one record changes it.
//!
//! The rule is a function from a state and an envelope to the next state and
//! the content digests the record introduces, or to the reason the record is
//! refused. The executable validator is proved to compute exactly this function.

use vstd::prelude::*;
use crate::codec::decode_record_spec;
use crate::envelope::{key_id_spec, record_id_spec, signature_valid, EnvelopeValue};
use crate::hash::{HashAlg, HashValue};
use crate::record::{EntryValue, LogKind, Permission, RecordValue, Timestamp, VersionValue};

verus! {

/// The permissions a key holds.
#[derive(Clone, Copy, Debug, PartialEq, Eq, Structural)]
pub struct PermissionSet {
    pub commit: bool,
    pub key_management: bool,
}

impl PermissionSet {
    /// No permission.
    pub open spec fn none() -> PermissionSet {
        PermissionSet { commit: false, key_management: false }
    }

    /// Every permission.
    pub open spec fn all() -> PermissionSet {
        PermissionSet { commit: true, key_management: true }
    }

    /// Whether the set holds the permission.
    pub open spec fn has(self, p: Permission) -> bool {
        match p {
            Permission::Commit => self.commit,
            Permission::KeyManagement => self.key_management,
        }
    }

    /// The permissions that occur in the list.
    pub open spec fn of(list: Seq<Permission>) -> PermissionSet {
        PermissionSet {
            commit: list.contains(Permission::Commit),
            key_management: list.contains(Permission::KeyManagement),
        }
    }

    /// The permissions of either set.
    pub open spec fn with(self, other: PermissionSet) -> PermissionSet {
        PermissionSet {
            commit: self.commit || other.commit,
            key_management: self.key_management || other.key_management,
        }
    }

    /// The permissions of `self` that are not in `other`.
    pub open spec fn without(self, other: PermissionSet) -> PermissionSet {
        PermissionSet {
            commit: self.commit && !other.commit,
            key_management: self.key_management && !other.key_management,
        }
    }

    /// The set of permissions held.
    pub open spec fn as_set(self) -> Set<Permission> {
        Set::new(|p: Permission| self.has(p))
    }
}

/// What became of a released version.
pub ghost enum ReleaseValue {
    Released(HashValue),
    Yanked(HashValue),
}

impl ReleaseValue {
    /// The digest of the released content, which a yank keeps.
    pub open spec fn content(self) -> HashValue {
        match self {
            ReleaseValue::Released(d) => d,
            ReleaseValue::Yanked(d) => d,
        }
    }
}

/// The last validated record of a log.
pub ghost struct HeadValue {
    pub record_id: HashValue,
    pub timestamp: Timestamp,
}

/// The validator state of one log.
pub ghost struct LogStateValue {
    pub kind: LogKind,
    /// The algorithm fixed by `Init`; SHA-256 until then.
    pub algorithm: HashAlg,
    pub head: Option<HeadValue>,
    /// Every key ever introduced, by its identifier.
    pub keys: Map<HashValue, Seq<u8>>,
    /// The permissions each key currently holds.
    pub permissions: Map<HashValue, PermissionSet>,
    pub releases: Map<VersionValue, ReleaseValue>,
}

/// Why a record breaks the protocol.
#[derive(Clone, Copy, Debug, PartialEq, Eq, Structural)]
pub enum Violation {
    /// The content is not the canonical encoding of a record.
    Malformed,
    /// The content encodes a record of the other kind of log.
    WrongLogKind,
    /// `prev` does not name the head of the log.
    PrevMismatch,
    /// An `Init` entry that is not the first entry of the first record.
    InitAfterGenesis,
}

/// The mathematical value of a validation error.
pub ghost enum ErrorValue {
    UnknownKey,
    Unauthorized(Permission),
    InvalidSignature,
    IncorrectHashAlgorithm,
    ProtocolViolation(Violation),
    RecordHashDoesNotMatch,
    TimestampRegression,
    ReleaseVersionReused(VersionValue),
    YankOfUnreleased(VersionValue),
    RevokeUnknownKey(HashValue),
    GenesisMissing,
    GenesisWrongSigner,
}

/// The state of a log of the given kind before its first record.
pub open spec fn empty_state(kind: LogKind) -> LogStateValue {
    LogStateValue {
        kind,
        algorithm: HashAlg::Sha256,
        head: None,
        keys: Map::empty(),
        permissions: Map::empty(),
        releases: Map::empty(),
    }
}

/// The permissions the key holds; none if it was never granted any.
pub open spec fn permissions_of(st: LogStateValue, id: HashValue) -> PermissionSet {
    if st.permissions.contains_key(id) {
        st.permissions[id]
    } else {
        PermissionSet::none()
    }
}

/// The state after `key` was granted the listed permissions.
pub open spec fn grant(st: LogStateValue, key: Seq<u8>, list: Seq<Permission>) -> LogStateValue {
    let id = key_id_spec(key);
    LogStateValue {
        keys: if st.keys.contains_key(id) {
            st.keys
        } else {
            st.keys.insert(id, key)
        },
        permissions: st.permissions.insert(id, permissions_of(st, id).with(PermissionSet::of(list))),
        ..st
    }
}

/// The state after the listed permissions were taken from the key.
pub open spec fn revoke(st: LogStateValue, id: HashValue, list: Seq<Permission>) -> LogStateValue {
    LogStateValue {
        permissions: st.permissions.insert(
            id,
            permissions_of(st, id).without(PermissionSet::of(list)),
        ),
        ..st
    }
}

/// The effect of one entry that `signer` emitted, or why it is refused.
pub open spec fn apply_entry(st: LogStateValue, signer: HashValue, e: EntryValue) -> Result<
    LogStateValue,
    ErrorValue,
> {
    match e {
        EntryValue::Init { .. } => Err(ErrorValue::ProtocolViolation(Violation::InitAfterGenesis)),
        EntryValue::GrantFlat { key, permissions } => {
            if !permissions_of(st, signer).has(Permission::KeyManagement) {
                Err(ErrorValue::Unauthorized(Permission::KeyManagement))
            } else {
                Ok(grant(st, key, permissions))
            }
        },
        EntryValue::RevokeFlat { key_id, permissions } => {
            if !permissions_of(st, signer).has(Permission::KeyManagement) {
                Err(ErrorValue::Unauthorized(Permission::KeyManagement))
            } else if !st.keys.contains_key(key_id) {
                Err(ErrorValue::RevokeUnknownKey(key_id))
            } else {
                Ok(revoke(st, key_id, permissions))
            }
        },
        EntryValue::Release { version, content } => {
            if !permissions_of(st, signer).has(Permission::Commit) {
                Err(ErrorValue::Unauthorized(Permission::Commit))
            } else if st.releases.contains_key(version) {
                Err(ErrorValue::ReleaseVersionReused(version))
            } else {
                Ok(
                    LogStateValue {
                        releases: st.releases.insert(version, ReleaseValue::Released(content)),
                        ..st
                    },
                )
            }
        },
        EntryValue::Yank { version } => {
            if !permissions_of(st, signer).has(Permission::Commit) {
                Err(ErrorValue::Unauthorized(Permission::Commit))
            } else if !(st.releases.contains_key(version) && st.releases[version] is Released) {
                Err(ErrorValue::YankOfUnreleased(version))
            } else {
                Ok(
                    LogStateValue {
                        releases: st.releases.insert(
                            version,
                            ReleaseValue::Yanked(st.releases[version].content()),
                        ),
                        ..st
                    },
                )
            }
        },
    }
}

/// The effect of the entries in order; the first refusal refuses them all.
pub open spec fn apply_entries(st: LogStateValue, signer: HashValue, es: Seq<EntryValue>) -> Result<
    LogStateValue,
    ErrorValue,
>
    decreases es.len(),
{
    if es.len() == 0 {
        Ok(st)
    } else {
        match apply_entry(st, signer, es[0]) {
            Ok(next) => apply_entries(next, signer, es.skip(1)),
            Err(e) => Err(e),
        }
    }
}

/// The content digests of the `Release` entries, in order.
pub open spec fn release_contents(es: Seq<EntryValue>) -> Seq<HashValue>
    decreases es.len(),
{
    if es.len() == 0 {
        Seq::empty()
    } else {
        match es[0] {
            EntryValue::Release { version, content } => seq![content] + release_contents(
                es.skip(1),
            ),
            _ => release_contents(es.skip(1)),
        }
    }
}

/// Whether every digest uses the algorithm.
pub open spec fn digests_uniform(alg: HashAlg, digests: Seq<HashValue>) -> bool {
    forall|i: int| 0 <= i < digests.len() ==> (#[trigger] digests[i]).alg == alg
}

/// Applies `es` for the signer of `env`, then checks that every content digest
/// the entries introduce uses the algorithm of the log, and then moves the
/// head to the record.
pub open spec fn finish(st: LogStateValue, env: EnvelopeValue, r: RecordValue, es: Seq<EntryValue>)
    -> Result<(LogStateValue, Seq<HashValue>), ErrorValue> {
    match apply_entries(st, env.key_id, es) {
        Err(e) => Err(e),
        Ok(next) => if !digests_uniform(next.algorithm, release_contents(es)) {
            Err(ErrorValue::IncorrectHashAlgorithm)
        } else {
            Ok(
                (
                    LogStateValue {
                        head: Some(
                            HeadValue {
                                record_id: record_id_spec(next.algorithm, env),
                                timestamp: r.timestamp,
                            },
                        ),
                        ..next
                    },
                    release_contents(es),
                ),
            )
        },
    }
}

/// The rule for the first record of a log.
pub open spec fn validate_genesis(st: LogStateValue, env: EnvelopeValue, r: RecordValue) -> Result<
    (LogStateValue, Seq<HashValue>),
    ErrorValue,
> {
    if r.prev is Some {
        Err(ErrorValue::ProtocolViolation(Violation::PrevMismatch))
    } else if r.entries.len() == 0 {
        Err(ErrorValue::GenesisMissing)
    } else {
        match r.entries[0] {
            EntryValue::Init { hash_alg, key } => {
                let id = key_id_spec(key);
                if env.key_id != id {
                    Err(ErrorValue::GenesisWrongSigner)
                } else if !signature_valid(key, env.content, env.signature) {
                    Err(ErrorValue::InvalidSignature)
                } else {
                    finish(
                        LogStateValue {
                            algorithm: hash_alg,
                            keys: st.keys.insert(id, key),
                            permissions: st.permissions.insert(id, PermissionSet::all()),
                            ..st
                        },
                        env,
                        r,
                        r.entries.skip(1),
                    )
                }
            },
            _ => Err(ErrorValue::GenesisMissing),
        }
    }
}

/// The rule for a record that follows `head`.
pub open spec fn validate_successor(
    st: LogStateValue,
    head: HeadValue,
    env: EnvelopeValue,
    r: RecordValue,
) -> Result<(LogStateValue, Seq<HashValue>), ErrorValue> {
    if !st.keys.contains_key(env.key_id) {
        Err(ErrorValue::UnknownKey)
    } else if !signature_valid(st.keys[env.key_id], env.content, env.signature) {
        Err(ErrorValue::InvalidSignature)
    } else if r.prev != Some(head.record_id) {
        Err(ErrorValue::ProtocolViolation(Violation::PrevMismatch))
    } else if r.timestamp.before(head.timestamp) {
        Err(ErrorValue::TimestampRegression)
    } else {
        finish(st, env, r, r.entries)
    }
}

/// The state after the record in `env` and the content digests it introduces,
/// or the reason the record is refused.
pub open spec fn validate_spec(st: LogStateValue, env: EnvelopeValue) -> Result<
    (LogStateValue, Seq<HashValue>),
    ErrorValue,
> {
    match decode_record_spec(env.content) {
        None => Err(ErrorValue::ProtocolViolation(Violation::Malformed)),
        Some((kind, r)) => {
            if kind != st.kind {
                Err(ErrorValue::ProtocolViolation(Violation::WrongLogKind))
            } else {
                match st.head {
                    None => validate_genesis(st, env, r),
                    Some(head) => validate_successor(st, head, env, r),
                }
            }
        },
    }
}

/// Why an envelope is not verified.
#[derive(Clone, Copy, Debug, PartialEq, Eq, Structural)]
pub enum EnvelopeError {
    /// The content is not the canonical encoding of a record.
    Malformed,
    /// The content encodes a record of the other kind of log.
    WrongLogKind,
    /// The key that signed the envelope is not known to the log.
    UnknownKey,
    /// The signature is not valid under the signer's key over the content.
    BadSignature,
}

/// The public key under which the envelope is verified against the keys of
/// the log: the content decodes to a record of the log's kind, the signer's
/// key is known, and the signature is valid under it over exactly the content.
pub open spec fn verify_spec(st: LogStateValue, env: EnvelopeValue) -> Result<
    Seq<u8>,
    EnvelopeError,
> {
    match decode_record_spec(env.content) {
        None => Err(EnvelopeError::Malformed),
        Some((kind, r)) => if kind != st.kind {
            Err(EnvelopeError::WrongLogKind)
        } else if !st.keys.contains_key(env.key_id) {
            Err(EnvelopeError::UnknownKey)
        } else if !signature_valid(st.keys[env.key_id], env.content, env.signature) {
            Err(EnvelopeError::BadSignature)
        } else {
            Ok(st.keys[env.key_id])
        },
    }
}

/// The state after the envelopes were validated in order from the empty state,
/// or the first refusal.
pub open spec fn replay(kind: LogKind, envs: Seq<EnvelopeValue>) -> Result<
    LogStateValue,
    ErrorValue,
>
    decreases envs.len(),
{
    if envs.len() == 0 {
        Ok(empty_state(kind))
    } else {
        match replay(kind, envs.drop_last()) {
            Err(e) => Err(e),
            Ok(st) => match validate_spec(st, envs.last()) {
                Err(e) => Err(e),
                Ok((next, contents)) => Ok(next),
            },
        }
    }
}

/// The value of a result that is known to be `Ok`.
pub open spec fn done<T, E>(r: Result<T, E>) -> T {
    match r {
        Ok(t) => t,
        Err(_) => arbitrary(),
    }
}

// ------------------------------------------------------ what the rule implies

/// Validating one more envelope extends the replay by one step.
pub proof fn lemma_replay_push(kind: LogKind, envs: Seq<EnvelopeValue>, env: EnvelopeValue)
    requires
        replay(kind, envs) is Ok,
    ensures
        replay(kind, envs.push(env)) == match validate_spec(done(replay(kind, envs)), env) {
            Ok((next, contents)) => Ok::<LogStateValue, ErrorValue>(next),
            Err(e) => Err(e),
        },
{
    assert(envs.push(env).drop_last() =~= envs);
}

/// A log that replays also replays up to any earlier point.
pub proof fn lemma_replay_prefix(kind: LogKind, envs: Seq<EnvelopeValue>, n: int)
    requires
        replay(kind, envs) is Ok,
        0 <= n <= envs.len(),
    ensures
        replay(kind, envs.take(n)) is Ok,
    decreases envs.len(),
{
    if n == envs.len() {
        assert(envs.take(n) =~= envs);
    } else {
        assert(envs.drop_last().take(n) =~= envs.take(n));
        lemma_replay_prefix(kind, envs.drop_last(), n);
    }
}

/// The versions of the `Release` entries, in order.
pub open spec fn released_versions(es: Seq<EntryValue>) -> Seq<VersionValue>
    decreases es.len(),
{
    if es.len() == 0 {
        Seq::empty()
    } else {
        match es[0] {
            EntryValue::Release { version, content } => seq![version] + released_versions(
                es.skip(1),
            ),
            _ => released_versions(es.skip(1)),
        }
    }
}

/// The entries of the record an envelope carries; none if it carries no record.
pub open spec fn entries_of(env: EnvelopeValue) -> Seq<EntryValue> {
    match decode_record_spec(env.content) {
        Some((kind, r)) => r.entries,
        None => Seq::empty(),
    }
}

/// The `prev` field of the record an envelope carries.
pub open spec fn prev_of(env: EnvelopeValue) -> Option<HashValue> {
    match decode_record_spec(env.content) {
        Some((kind, r)) => r.prev,
        None => None,
    }
}

/// The versions of the `Release` entries across a log, in order.
pub open spec fn log_released_versions(envs: Seq<EnvelopeValue>) -> Seq<VersionValue>
    decreases envs.len(),
{
    if envs.len() == 0 {
        Seq::empty()
    } else {
        log_released_versions(envs.drop_last()) + released_versions(entries_of(envs.last()))
    }
}

proof fn lemma_cons_contains<A>(a: A, t: Seq<A>, x: A)
    ensures
        (seq![a] + t).contains(x) <==> (x == a || t.contains(x)),
{
    let s = seq![a] + t;
    if s.contains(x) {
        let i = choose|i: int| 0 <= i < s.len() && s[i] == x;
        if i > 0 {
            assert(t[i - 1] == x);
        }
    }
    if x == a {
        assert(s[0] == x);
    }
    if t.contains(x) {
        let i = choose|i: int| 0 <= i < t.len() && t[i] == x;
        assert(s[i + 1] == x);
    }
}

proof fn lemma_concat_contains<A>(a: Seq<A>, b: Seq<A>, x: A)
    ensures
        (a + b).contains(x) <==> (a.contains(x) || b.contains(x)),
{
    let s = a + b;
    if s.contains(x) {
        let i = choose|i: int| 0 <= i < s.len() && s[i] == x;
        if i < a.len() {
            assert(a[i] == x);
        } else {
            assert(b[i - a.len()] == x);
        }
    }
    if a.contains(x) {
        let i = choose|i: int| 0 <= i < a.len() && a[i] == x;
        assert(s[i] == x);
    }
    if b.contains(x) {
        let i = choose|i: int| 0 <= i < b.len() && b[i] == x;
        assert(s[i + a.len()] == x);
    }
}

/// One entry changes neither kind, algorithm nor head, and adds at most the
/// version it releases.
proof fn lemma_apply_entry_frame(st: LogStateValue, signer: HashValue, e: EntryValue)
    requires
        apply_entry(st, signer, e) is Ok,
    ensures
        ({
            let next = done(apply_entry(st, signer, e));
            &&& next.kind == st.kind
            &&& next.algorithm == st.algorithm
            &&& next.head == st.head
            &&& e matches EntryValue::Release { version, content } ==> !st.releases.dom().contains(
                version,
            ) && next.releases.dom() == st.releases.dom().insert(version)
            &&& !(e is Release) ==> next.releases.dom() == st.releases.dom()
        }),
{
    let next = done(apply_entry(st, signer, e));
    match e {
        EntryValue::Release { version, content } => {
            assert(next.releases.dom() =~= st.releases.dom().insert(version));
        },
        _ => {
            assert(next.releases.dom() =~= st.releases.dom());
        },
    }
}

/// A list of entries changes neither kind, algorithm nor head; the versions it
/// releases are new, distinct, and exactly what `releases` gains.
pub proof fn lemma_apply_entries_frame(st: LogStateValue, signer: HashValue, es: Seq<EntryValue>)
    requires
        apply_entries(st, signer, es) is Ok,
    ensures
        ({
            let next = done(apply_entries(st, signer, es));
            &&& next.kind == st.kind
            &&& next.algorithm == st.algorithm
            &&& next.head == st.head
            &&& next.releases.dom() == st.releases.dom() + released_versions(es).to_set()
            &&& st.releases.dom().disjoint(released_versions(es).to_set())
            &&& released_versions(es).no_duplicates()
        }),
    decreases es.len(),
{
    let next = done(apply_entries(st, signer, es));
    let rv = released_versions(es);
    if es.len() == 0 {
        assert(rv =~= Seq::<VersionValue>::empty());
        assert(next.releases.dom() =~= st.releases.dom() + rv.to_set());
    } else {
        let mid = done(apply_entry(st, signer, es[0]));
        let tail = es.skip(1);
        lemma_apply_entry_frame(st, signer, es[0]);
        lemma_apply_entries_frame(mid, signer, tail);
        let rt = released_versions(tail);
        match es[0] {
            EntryValue::Release { version, content } => {
                assert(rv == seq![version] + rt);
                assert forall|v: VersionValue| rv.contains(v) <==> (v == version || rt.contains(v)) by {
                    lemma_cons_contains(version, rt, v);
                }
                assert(mid.releases.dom().contains(version));
                assert(!rt.to_set().contains(version));
                assert(!rt.contains(version));
                assert forall|i: int, j: int|
                    0 <= i < rv.len() && 0 <= j < rv.len() && i != j implies rv[i] != rv[j] by {
                    if i == 0 {
                        assert(rt[j - 1] == rv[j]);
                    } else if j == 0 {
                        assert(rt[i - 1] == rv[i]);
                    } else {
                        assert(rt[i - 1] != rt[j - 1]);
                    }
                }
                assert(mid.releases.dom() =~= st.releases.dom().insert(version));
                assert(rv.to_set() =~= rt.to_set().insert(version));
            },
            _ => {
                assert(rv == rt);
                assert(mid.releases.dom() =~= st.releases.dom());
            },
        }
        assert(next.releases.dom() =~= st.releases.dom() + rv.to_set());
        assert(st.releases.dom().disjoint(rv.to_set()));
    }
}

/// After a record is accepted the head names it, and kind and algorithm are
/// those of the log.
pub proof fn lemma_validate_shape(st: LogStateValue, env: EnvelopeValue)
    requires
        validate_spec(st, env) is Ok,
    ensures
        ({
            let next = done(validate_spec(st, env)).0;
            let r = decode_record_spec(env.content).unwrap().1;
            &&& decode_record_spec(env.content) is Some
            &&& next.kind == st.kind
            &&& st.head is Some ==> next.algorithm == st.algorithm
            &&& next.head == Some(
                HeadValue { record_id: record_id_spec(next.algorithm, env), timestamp: r.timestamp },
            )
            &&& st.head is None ==> r.prev is None
            &&& st.head matches Some(h) ==> r.prev == Some(h.record_id) && !r.timestamp.before(
                h.timestamp,
            )
            &&& next.releases.dom() == st.releases.dom() + released_versions(r.entries).to_set()
            &&& st.releases.dom().disjoint(released_versions(r.entries).to_set())
            &&& released_versions(r.entries).no_duplicates()
        }),
{
    let r = decode_record_spec(env.content).unwrap().1;
    match st.head {
        None => {
            let key = r.entries[0]->Init_key;
            let hash_alg = r.entries[0]->Init_hash_alg;
            let id = key_id_spec(key);
            let st1 = LogStateValue {
                algorithm: hash_alg,
                keys: st.keys.insert(id, key),
                permissions: st.permissions.insert(id, PermissionSet::all()),
                ..st
            };
            lemma_apply_entries_frame(st1, env.key_id, r.entries.skip(1));
            assert(released_versions(r.entries) == released_versions(r.entries.skip(1)));
        },
        Some(h) => {
            lemma_apply_entries_frame(st, env.key_id, r.entries);
        },
    }
}

/// The state a log replays to has the log's kind; its head is absent for the
/// empty log and names the last record otherwise.
pub proof fn lemma_replay_head(kind: LogKind, envs: Seq<EnvelopeValue>)
    requires
        replay(kind, envs) is Ok,
    ensures
        done(replay(kind, envs)).kind == kind,
        envs.len() == 0 ==> done(replay(kind, envs)) == empty_state(kind),
        envs.len() > 0 ==> done(replay(kind, envs)).head is Some && done(replay(
            kind,
            envs,
        )).head.unwrap().record_id == record_id_spec(
            done(replay(kind, envs)).algorithm,
            envs.last(),
        ),
        envs.len() > 1 ==> done(replay(kind, envs.drop_last())).algorithm == done(replay(
            kind,
            envs,
        )).algorithm,
        envs.len() > 0 ==> decode_record_spec(envs.last().content) is Some && done(
            replay(kind, envs),
        ).head.unwrap().timestamp == decode_record_spec(envs.last().content).unwrap().1.timestamp,
    decreases envs.len(),
{
    if envs.len() > 0 {
        lemma_replay_head(kind, envs.drop_last());
        lemma_validate_shape(done(replay(kind, envs.drop_last())), envs.last());
    }
}

/// The hash algorithm of a log is fixed by its first record.
pub proof fn lemma_replay_algorithm(kind: LogKind, envs: Seq<EnvelopeValue>, n: int)
    requires
        replay(kind, envs) is Ok,
        1 <= n <= envs.len(),
    ensures
        replay(kind, envs.take(n)) is Ok,
        done(replay(kind, envs.take(n))).algorithm == done(replay(kind, envs)).algorithm,
    decreases envs.len(),
{
    if n == envs.len() {
        assert(envs.take(n) =~= envs);
    } else {
        assert(envs.drop_last().take(n) =~= envs.take(n));
        lemma_replay_algorithm(kind, envs.drop_last(), n);
        lemma_replay_head(kind, envs);
    }
}

/// In a log that replays, the `prev` fields form one chain: the first record
/// has none, and every later record names the record just before it.
pub proof fn lemma_prev_chain(kind: LogKind, envs: Seq<EnvelopeValue>, i: int)
    requires
        replay(kind, envs) is Ok,
        0 <= i < envs.len(),
    ensures
        decode_record_spec(envs[i].content) is Some,
        i == 0 ==> prev_of(envs[i]) is None,
        i > 0 ==> prev_of(envs[i]) == Some(
            record_id_spec(done(replay(kind, envs)).algorithm, envs[i - 1]),
        ),
    decreases envs.len(),
{
    let before = envs.drop_last();
    if i == envs.len() - 1 {
        let st = done(replay(kind, before));
        lemma_replay_head(kind, before);
        lemma_replay_head(kind, envs);
        lemma_validate_shape(st, envs.last());
        if i > 0 {
            assert(before.last() == envs[i - 1]);
        }
    } else {
        lemma_prev_chain(kind, before, i);
        lemma_replay_head(kind, envs);
    }
}

/// In a log that replays, timestamps never go back.
pub proof fn lemma_timestamps_monotone(kind: LogKind, envs: Seq<EnvelopeValue>, i: int)
    requires
        replay(kind, envs) is Ok,
        0 < i < envs.len(),
    ensures
        decode_record_spec(envs[i - 1].content) is Some,
        decode_record_spec(envs[i].content) is Some,
        !decode_record_spec(envs[i].content).unwrap().1.timestamp.before(
            decode_record_spec(envs[i - 1].content).unwrap().1.timestamp,
        ),
    decreases envs.len(),
{
    let before = envs.drop_last();
    if i == envs.len() - 1 {
        let st = done(replay(kind, before));
        lemma_replay_head(kind, before);
        lemma_validate_shape(st, envs.last());
        assert(before.last() == envs[i - 1]);
    } else {
        lemma_timestamps_monotone(kind, before, i);
    }
}

/// In a log that replays, the versions in `releases` are exactly the versions
/// of the `Release` entries across the log, each of them once: no version is
/// released twice.
pub proof fn lemma_releases_match_log(kind: LogKind, envs: Seq<EnvelopeValue>)
    requires
        replay(kind, envs) is Ok,
    ensures
        log_released_versions(envs).no_duplicates(),
        done(replay(kind, envs)).releases.dom() == log_released_versions(envs).to_set(),
        forall|v: VersionValue| #[trigger]
            log_released_versions(envs).to_multiset().count(v) == if done(
                replay(kind, envs),
            ).releases.contains_key(v) {
                1nat
            } else {
                0nat
            },
    decreases envs.len(),
{
    let all = log_released_versions(envs);
    let st2 = done(replay(kind, envs));
    if envs.len() == 0 {
        assert(st2.releases.dom() =~= all.to_set());
    } else {
        let before = envs.drop_last();
        let st = done(replay(kind, before));
        lemma_releases_match_log(kind, before);
        lemma_validate_shape(st, envs.last());
        let a = log_released_versions(before);
        let b = released_versions(entries_of(envs.last()));
        assert forall|v: VersionValue| all.contains(v) <==> (a.contains(v) || b.contains(v)) by {
            lemma_concat_contains(a, b, v);
        }
        assert forall|i: int, j: int| 0 <= i < a.len() && 0 <= j < b.len() implies a[i] != b[j] by {
            assert(a.to_set().contains(a[i]));
            assert(b.to_set().contains(b[j]));
        }
        vstd::seq_lib::lemma_no_dup_in_concat(a, b);
        assert(all.to_set() =~= a.to_set() + b.to_set());
        assert(st2.releases.dom() =~= all.to_set());
    }
    all.lemma_multiset_has_no_duplicates();
    assert forall|v: VersionValue| #[trigger]
        all.to_multiset().count(v) == if st2.releases.contains_key(v) {
            1nat
        } else {
            0nat
        } by {
        vstd::seq_lib::to_multiset_contains(all, v);
        assert(all.to_set().contains(v) == all.contains(v));
    }
}

/// A record that follows the head of its log is accepted only in an envelope
/// that is verified against the keys of the log.
pub proof fn lemma_accepted_is_verified(st: LogStateValue, env: EnvelopeValue)
    requires
        st.head is Some,
        validate_spec(st, env) is Ok,
    ensures
        verify_spec(st, env) is Ok,
{
}

/// Whether every release of the state carries a digest of the log's algorithm.
pub open spec fn releases_uniform(st: LogStateValue) -> bool {
    forall|v: VersionValue| #[trigger]
        st.releases.contains_key(v) ==> st.releases[v].content().alg == st.algorithm
}

proof fn lemma_contents_cons(d: HashValue, t: Seq<HashValue>, alg: HashAlg)
    requires
        digests_uniform(alg, seq![d] + t),
    ensures
        d.alg == alg,
        digests_uniform(alg, t),
{
    let all = seq![d] + t;
    assert(all[0] == d);
    assert forall|i: int| 0 <= i < t.len() implies (#[trigger] t[i]).alg == alg by {
        assert(all[i + 1] == t[i]);
    }
}

proof fn lemma_apply_entries_uniform(st: LogStateValue, signer: HashValue, es: Seq<EntryValue>)
    requires
        releases_uniform(st),
        apply_entries(st, signer, es) is Ok,
        digests_uniform(st.algorithm, release_contents(es)),
    ensures
        releases_uniform(done(apply_entries(st, signer, es))),
    decreases es.len(),
{
    if es.len() > 0 {
        let mid = done(apply_entry(st, signer, es[0]));
        if let EntryValue::Release { version, content } = es[0] {
            lemma_contents_cons(content, release_contents(es.skip(1)), st.algorithm);
        }
        assert forall|v: VersionValue| #[trigger] mid.releases.contains_key(v) implies mid.releases[v].content().alg
            == mid.algorithm by {
            if st.releases.contains_key(v) {
                assert(st.releases[v].content().alg == st.algorithm);
            }
        }
        lemma_apply_entries_uniform(mid, signer, es.skip(1));
    }
}

/// In a log that replays, every content digest uses the algorithm of the log.
pub proof fn lemma_release_algorithms(kind: LogKind, envs: Seq<EnvelopeValue>)
    requires
        replay(kind, envs) is Ok,
    ensures
        releases_uniform(done(replay(kind, envs))),
    decreases envs.len(),
{
    if envs.len() > 0 {
        let st = done(replay(kind, envs.drop_last()));
        let env = envs.last();
        lemma_release_algorithms(kind, envs.drop_last());
        lemma_replay_head(kind, envs.drop_last());
        let r = decode_record_spec(env.content).unwrap().1;
        match st.head {
            None => {
                let key = r.entries[0]->Init_key;
                let hash_alg = r.entries[0]->Init_hash_alg;
                let id = key_id_spec(key);
                let st1 = LogStateValue {
                    algorithm: hash_alg,
                    keys: st.keys.insert(id, key),
                    permissions: st.permissions.insert(id, PermissionSet::all()),
                    ..st
                };
                assert(envs.drop_last().len() == 0);
                assert(releases_uniform(st1));
                lemma_apply_entries_frame(st1, env.key_id, r.entries.skip(1));
                lemma_apply_entries_uniform(st1, env.key_id, r.entries.skip(1));
            },
            Some(h) => {
                lemma_apply_entries_frame(st, env.key_id, r.entries);
                lemma_apply_entries_uniform(st, env.key_id, r.entries);
            },
        }
    }
}

/// The first entry that is refused refuses the whole list, with its error.
pub proof fn lemma_first_refusal(st: LogStateValue, signer: HashValue, es: Seq<EntryValue>, i: int)
    requires
        0 <= i < es.len(),
        apply_entries(st, signer, es.take(i)) is Ok,
        apply_entry(done(apply_entries(st, signer, es.take(i))), signer, es[i]) is Err,
    ensures
        apply_entries(st, signer, es) == Err::<LogStateValue, ErrorValue>(
            apply_entry(done(apply_entries(st, signer, es.take(i))), signer, es[i])->Err_0,
        ),
    decreases i,
{
    if i == 0 {
        assert(es.take(0) =~= Seq::<EntryValue>::empty());
    } else {
        let rest = es.skip(1);
        assert(es.take(i)[0] == es[0]);
        assert(es.take(i).skip(1) =~= rest.take(i - 1));
        assert(rest[i - 1] == es[i]);
        let mid = done(apply_entry(st, signer, es[0]));
        lemma_first_refusal(mid, signer, rest, i - 1);
    }
}

/// An `Init` entry after entries that apply is a protocol violation, whatever
/// else the record holds.
pub proof fn lemma_later_init_is_refused(
    st: LogStateValue,
    signer: HashValue,
    es: Seq<EntryValue>,
    i: int,
)
    requires
        0 <= i < es.len(),
        apply_entries(st, signer, es.take(i)) is Ok,
        es[i] is Init,
    ensures
        apply_entries(st, signer, es) == Err::<LogStateValue, ErrorValue>(
            ErrorValue::ProtocolViolation(Violation::InitAfterGenesis),
        ),
{
    lemma_first_refusal(st, signer, es, i);
}

/// A release of a version that is released already, by a signer who may
/// release, is refused as a reuse of the version, whatever digest it carries.
pub proof fn lemma_reused_version_is_refused(
    st: LogStateValue,
    signer: HashValue,
    es: Seq<EntryValue>,
    i: int,
)
    requires
        0 <= i < es.len(),
        apply_entries(st, signer, es.take(i)) is Ok,
        es[i] is Release,
        permissions_of(done(apply_entries(st, signer, es.take(i))), signer).has(Permission::Commit),
        done(apply_entries(st, signer, es.take(i))).releases.contains_key(es[i]->Release_version),
    ensures
        apply_entries(st, signer, es) == Err::<LogStateValue, ErrorValue>(
            ErrorValue::ReleaseVersionReused(es[i]->Release_version),
        ),
{
    lemma_first_refusal(st, signer, es, i);
}

/// A record that follows the head of its log, in an envelope that is
/// verified, chained to the head and no older than it, is refused exactly
/// when its entries are refused or a content digest uses another algorithm;
/// the refusal of the entries comes first.
pub proof fn lemma_successor_outcome(st: LogStateValue, env: EnvelopeValue)
    requires
        st.head is Some,
        verify_spec(st, env) is Ok,
        prev_of(env) == Some(st.head.unwrap().record_id),
        !decode_record_spec(env.content).unwrap().1.timestamp.before(st.head.unwrap().timestamp),
    ensures
        ({
            let es = entries_of(env);
            match apply_entries(st, env.key_id, es) {
                Err(e) => validate_spec(st, env) == Err::<(LogStateValue, Seq<HashValue>), ErrorValue>(
                    e,
                ),
                Ok(next) => if digests_uniform(next.algorithm, release_contents(es)) {
                    validate_spec(st, env) is Ok
                } else {
                    validate_spec(st, env) == Err::<(LogStateValue, Seq<HashValue>), ErrorValue>(
                        ErrorValue::IncorrectHashAlgorithm,
                    )
                },
            }
        }),
{
}

} // verus!
