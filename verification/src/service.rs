//! The core service: the one owner of the registry's logs and checkpoints.
//!
//! Every request is one call on the service; whoever drives it hands the
//! requests over one at a time and forwards the leaves it returns to the
//! transparency builder.

use vstd::prelude::*;
use vstd::string::StringSliceAdditionalSpecFns;
use crate::checkpoint::{
    checkpoint_id_spec, distinct_entries, entry_position, has_entry, lemma_distinct_push,
    lemma_entry_position, CheckpointValue, Checkpoints, LeafValue, LogLeaf, SignedCheckpoint,
};
use crate::codec::enc_hash;
use crate::envelope::{log_id_spec, package_log_id, record_id_spec, Envelope, EnvelopeValue};
use crate::hash::{AnyHash, HashAlg, HashValue};
use crate::log::{envelope_values, Log, LogValue};
use crate::record::LogKind;
use crate::state::{empty_state, validate_spec, ErrorValue};
use crate::store::leaf_values;
use crate::table::{Id, Plain, Table};
use crate::text::{error_text, hash_text};
use crate::validator::{hash_values, ValidationError};

verus! {

/// Where the content with a digest can be had.
#[derive(Clone, Debug, PartialEq, Eq)]
pub struct ContentSource {
    pub digest: AnyHash,
    pub url: String,
}

/// The mathematical value of a [`ContentSource`].
pub ghost struct ContentSourceValue {
    pub digest: HashValue,
    pub url: Seq<char>,
}

impl View for ContentSource {
    type V = ContentSourceValue;

    open spec fn view(&self) -> ContentSourceValue {
        ContentSourceValue { digest: self.digest@, url: self.url@ }
    }
}

impl Plain for ContentSource {
    fn copy(&self) -> (r: ContentSource) {
        ContentSource { digest: self.digest.copy(), url: self.url.clone() }
    }
}

/// The values of a sequence of content sources, in order.
pub open spec fn source_values(sources: Seq<ContentSource>) -> Seq<ContentSourceValue> {
    Seq::new(sources.len(), |i: int| sources[i]@)
}

/// Where a submitted record stands.
#[derive(Clone, Debug, PartialEq, Eq)]
pub enum RecordState {
    /// Validated and handed to the transparency builder.
    Processing,
    /// Covered by the checkpoint.
    Published { checkpoint: SignedCheckpoint },
    /// Refused, for the reason given.
    Rejected { reason: String },
}

/// The mathematical value of a [`RecordState`].
pub ghost enum RecordStateValue {
    Processing,
    Published { checkpoint: CheckpointValue },
    Rejected { reason: Seq<char> },
}

impl View for RecordState {
    type V = RecordStateValue;

    open spec fn view(&self) -> RecordStateValue {
        match self {
            RecordState::Processing => RecordStateValue::Processing,
            RecordState::Published { checkpoint } => RecordStateValue::Published {
                checkpoint: checkpoint@,
            },
            RecordState::Rejected { reason } => RecordStateValue::Rejected { reason: reason@ },
        }
    }
}

impl Plain for RecordState {
    fn copy(&self) -> (r: RecordState) {
        match self {
            RecordState::Processing => RecordState::Processing,
            RecordState::Published { checkpoint } => RecordState::Published {
                checkpoint: checkpoint.copy(),
            },
            RecordState::Rejected { reason } => RecordState::Rejected { reason: reason.clone() },
        }
    }
}

/// What the service keeps of a submitted package record.
#[derive(Clone, Debug, PartialEq, Eq)]
pub struct PackageRecordInfo {
    pub record: Envelope,
    pub content_sources: Vec<ContentSource>,
    pub state: RecordState,
}

/// The mathematical value of a [`PackageRecordInfo`].
pub ghost struct RecordInfoValue {
    pub record: EnvelopeValue,
    pub content_sources: Seq<ContentSourceValue>,
    pub state: RecordStateValue,
}

impl View for PackageRecordInfo {
    type V = RecordInfoValue;

    open spec fn view(&self) -> RecordInfoValue {
        RecordInfoValue {
            record: self.record@,
            content_sources: source_values(self.content_sources@),
            state: self.state@,
        }
    }
}

fn copy_sources(sources: &Vec<ContentSource>) -> (out: Vec<ContentSource>)
    ensures
        source_values(out@) == source_values(sources@),
{
    let mut out: Vec<ContentSource> = Vec::new();
    let mut i: usize = 0;
    while i < sources.len()
        invariant
            i <= sources.len(),
            out.len() == i,
            forall|j: int| 0 <= j < i ==> out@[j]@ == sources@[j]@,
        decreases sources.len() - i,
    {
        out.push(sources[i].copy());
        i += 1;
    }
    assert(source_values(out@) =~= source_values(sources@));
    out
}

impl Plain for PackageRecordInfo {
    fn copy(&self) -> (r: PackageRecordInfo) {
        PackageRecordInfo {
            record: self.record.copy(),
            content_sources: copy_sources(&self.content_sources),
            state: self.state.copy(),
        }
    }
}

/// Why the service refuses a request.
#[derive(Clone, Debug, PartialEq, Eq)]
pub enum CoreServiceError {
    CheckpointNotFound(AnyHash),
    PackageNameNotFound(String),
    PackageNotFound(AnyHash),
    PackageRecordNotFound(AnyHash),
    OperatorRecordNotFound(AnyHash),
    /// The root is no SHA-256 digest.
    InvalidCheckpoint(AnyHash),
}

/// The mathematical value of a [`CoreServiceError`].
pub ghost enum CoreErrorValue {
    CheckpointNotFound(HashValue),
    PackageNameNotFound(Seq<char>),
    PackageNotFound(HashValue),
    PackageRecordNotFound(HashValue),
    OperatorRecordNotFound(HashValue),
    InvalidCheckpoint(HashValue),
}

impl View for CoreServiceError {
    type V = CoreErrorValue;

    open spec fn view(&self) -> CoreErrorValue {
        match self {
            CoreServiceError::CheckpointNotFound(h) => CoreErrorValue::CheckpointNotFound(h@),
            CoreServiceError::PackageNameNotFound(n) => CoreErrorValue::PackageNameNotFound(n@),
            CoreServiceError::PackageNotFound(h) => CoreErrorValue::PackageNotFound(h@),
            CoreServiceError::PackageRecordNotFound(h) => CoreErrorValue::PackageRecordNotFound(h@),
            CoreServiceError::OperatorRecordNotFound(h) => CoreErrorValue::OperatorRecordNotFound(
                h@,
            ),
            CoreServiceError::InvalidCheckpoint(h) => CoreErrorValue::InvalidCheckpoint(h@),
        }
    }
}

/// The mathematical value of what the service keeps of one package.
pub ghost struct PackageValue {
    pub name: Seq<char>,
    pub log: LogValue,
    pub records: Map<HashValue, RecordInfoValue>,
}

/// What the service keeps of one package.
pub struct PackageLog {
    name: String,
    log: Log,
    records: Table<AnyHash, PackageRecordInfo>,
}

impl View for PackageLog {
    type V = PackageValue;

    closed spec fn view(&self) -> PackageValue {
        PackageValue { name: self.name@, log: self.log@, records: self.records@ }
    }
}

/// The mathematical value of the service's state.
pub ghost struct CoreValue {
    /// The checkpoints in the order they were installed, each with the
    /// encoding of its identifier.
    pub checkpoints: Seq<(Seq<u8>, CheckpointValue)>,
    pub operator: LogValue,
    pub packages: Map<HashValue, PackageValue>,
}

impl CoreValue {
    /// What the service keeps of the package; an empty log under the name if
    /// it keeps nothing yet.
    pub open spec fn package(self, id: HashValue, name: Seq<char>) -> PackageValue {
        if self.packages.contains_key(id) {
            self.packages[id]
        } else {
            PackageValue { name, log: LogValue::empty(LogKind::Package), records: Map::empty() }
        }
    }

    /// What holds of the state after every request: there is a checkpoint,
    /// no two checkpoints have one identifier, every log keeps the invariant
    /// of a log and is sealed only under checkpoints the service has, and
    /// what is kept of every package keeps its own invariant.
    pub open spec fn inv(self) -> bool {
        &&& self.checkpoints.len() > 0
        &&& distinct_entries(self.checkpoints)
        &&& self.operator.inv(LogKind::Operator)
        &&& sealed_within(self.operator, self.checkpoints.len())
        &&& forall|id: HashValue| #[trigger]
            self.packages.contains_key(id) ==> self.packages[id].inv(self.checkpoints.len())
    }
}

/// Whether every record of the log is sealed under one of the first `n`
/// checkpoints.
pub open spec fn sealed_within(log: LogValue, n: nat) -> bool {
    forall|i: int|
        0 <= i < log.checkpoint_indices.len() ==> (#[trigger] log.checkpoint_indices[i]) < n
}

impl PackageValue {
    /// Whether what is kept under the identifier, if anything, is the record
    /// with that identifier, and stands in the log unless it was rejected.
    pub open spec fn kept(self, r: HashValue) -> bool {
        self.records.contains_key(r) ==> r == record_id_spec(
            HashAlg::Sha256,
            self.records[r].record,
        ) && (!(self.records[r].state is Rejected) ==> record_position(self.log.entries, r)
            is Some)
    }

    /// What holds of what is kept of a package when the service has `n`
    /// checkpoints: the log keeps the invariant of a log and is sealed only
    /// under checkpoints the service has, and every record that is kept is
    /// kept under its identifier and, unless rejected, stands in the log.
    pub open spec fn inv(self, n: nat) -> bool {
        &&& self.log.inv(LogKind::Package)
        &&& sealed_within(self.log, n)
        &&& forall|r: HashValue| #[trigger] self.kept(r)
    }
}

/// The position of the first envelope whose record has the identifier.
pub open spec fn record_position(entries: Seq<EnvelopeValue>, id: HashValue) -> Option<int>
    decreases entries.len(),
{
    if entries.len() == 0 {
        None
    } else {
        match record_position(entries.drop_last(), id) {
            Some(i) => Some(i),
            None => if record_id_spec(HashAlg::Sha256, entries.last()) == id {
                Some(entries.len() - 1)
            } else {
                None
            },
        }
    }
}

/// The first of the digests that no source provides.
pub open spec fn first_missing(contents: Seq<HashValue>, sources: Seq<ContentSourceValue>) -> Option<
    HashValue,
>
    decreases contents.len(),
{
    if contents.len() == 0 {
        None
    } else if !provided(sources, contents[0]) {
        Some(contents[0])
    } else {
        first_missing(contents.skip(1), sources)
    }
}

/// Whether some source provides the content with the digest.
pub open spec fn provided(sources: Seq<ContentSourceValue>, digest: HashValue) -> bool {
    exists|i: int| 0 <= i < sources.len() && (#[trigger] sources[i]).digest == digest
}

/// The reason given when a record needs content that was not provided.
pub open spec fn missing_content_text(digest: HashValue) -> Seq<char> {
    "Needed content "@ + hash_text(digest) + " but not provided"@
}

/// The state after a package record was submitted, the answer to the
/// submitter, and the leaf to hand to the transparency builder. A record that
/// the package keeps already, whatever its state, is answered with a
/// rejection and stays as it is kept: a record leaves each state once.
pub open spec fn submit_spec(
    s: CoreValue,
    name: Seq<char>,
    id: HashValue,
    record: EnvelopeValue,
    sources: Seq<ContentSourceValue>,
) -> (CoreValue, RecordStateValue, Option<LeafValue>) {
    let package = s.package(id, name);
    let record_id = record_id_spec(HashAlg::Sha256, record);
    if package.records.contains_key(record_id) {
        (
            CoreValue { packages: s.packages.insert(id, package), ..s },
            RecordStateValue::Rejected { reason: "record was submitted before"@ },
            None,
        )
    } else {
        match validate_spec(package.log.state, record) {
            Err(e) => {
                let state = RecordStateValue::Rejected { reason: error_text(e) };
                let info = RecordInfoValue { record, content_sources: sources, state };
                (
                    CoreValue {
                        packages: s.packages.insert(
                            id,
                            PackageValue {
                                records: package.records.insert(record_id, info),
                                ..package
                            },
                        ),
                        ..s
                    },
                    state,
                    None,
                )
            },
            Ok((st, contents)) => match first_missing(contents, sources) {
                Some(digest) => (
                    CoreValue { packages: s.packages.insert(id, package), ..s },
                    RecordStateValue::Rejected { reason: missing_content_text(digest) },
                    None,
                ),
                None => {
                    let info = RecordInfoValue {
                        record,
                        content_sources: sources,
                        state: RecordStateValue::Processing,
                    };
                    (
                        CoreValue {
                            packages: s.packages.insert(
                                id,
                                PackageValue {
                                    log: LogValue {
                                        state: st,
                                        entries: package.log.entries.push(record),
                                        ..package.log
                                    },
                                    records: package.records.insert(record_id, info),
                                    ..package
                                },
                            ),
                            ..s
                        },
                        RecordStateValue::Processing,
                        Some(LeafValue { log_id: id, record_id }),
                    )
                },
            },
        }
    }
}

/// Whether the leaf names a record of a package the service keeps that is
/// processing.
pub open spec fn publishable(s: CoreValue, leaf: LeafValue) -> bool {
    &&& s.packages.contains_key(leaf.log_id)
    &&& s.packages[leaf.log_id].records.contains_key(leaf.record_id)
    &&& s.packages[leaf.log_id].records[leaf.record_id].state is Processing
}

/// The state after the record of the leaf was published under the checkpoint
/// at position `p`: every record that is processing is published. A leaf that
/// names no record the service keeps, or one that is published or rejected,
/// changes nothing.
pub open spec fn publish_leaf_spec(s: CoreValue, p: usize, checkpoint: CheckpointValue, leaf: LeafValue)
    -> CoreValue {
    if publishable(s, leaf) {
        let package = s.packages[leaf.log_id];
        let info = package.records[leaf.record_id];
        CoreValue {
            packages: s.packages.insert(
                leaf.log_id,
                PackageValue {
                    log: LogValue {
                        checkpoint_indices: package.log.checkpoint_indices.push(p),
                        ..package.log
                    },
                    records: package.records.insert(
                        leaf.record_id,
                        RecordInfoValue { state: RecordStateValue::Published { checkpoint }, ..info },
                    ),
                    ..package
                },
            ),
            ..s
        }
    } else {
        s
    }
}

/// The state after the leaves were published one after another.
pub open spec fn publish_leaves_spec(
    s: CoreValue,
    p: usize,
    checkpoint: CheckpointValue,
    leaves: Seq<LeafValue>,
) -> CoreValue
    decreases leaves.len(),
{
    if leaves.len() == 0 {
        s
    } else {
        publish_leaves_spec(publish_leaf_spec(s, p, checkpoint, leaves[0]), p, checkpoint, leaves.skip(1))
    }
}

/// The state after a checkpoint arrived with its leaves. A checkpoint that is
/// installed already changes nothing.
pub open spec fn new_checkpoint_spec(s: CoreValue, checkpoint: CheckpointValue, leaves: Seq<LeafValue>)
    -> CoreValue {
    let key = enc_hash(checkpoint_id_spec(HashAlg::Sha256, checkpoint));
    if has_entry(s.checkpoints, key) {
        s
    } else {
        publish_leaves_spec(
            CoreValue { checkpoints: s.checkpoints.push((key, checkpoint)), ..s },
            s.checkpoints.len() as usize,
            checkpoint,
            leaves,
        )
    }
}

/// The records of a log that a reader gets for the checkpoint at position `p`.
pub open spec fn fetch_spec(log: LogValue, since: Option<HashValue>, p: usize) -> Option<
    Seq<EnvelopeValue>,
> {
    match since {
        None => Some(log.window(0, p, usize::MAX as int)),
        Some(id) => match record_position(log.entries, id) {
            Some(i) => Some(log.window(i + 1, p, usize::MAX as int)),
            None => None,
        },
    }
}

/// Whether the hash is a SHA-256 digest.
pub open spec fn is_sha256(h: HashValue) -> bool {
    h.alg == HashAlg::Sha256 && h.bytes.len() == 32
}

/// The operator records a reader gets for the checkpoint `root`.
pub open spec fn fetch_operator_records_spec(s: CoreValue, root: HashValue, since: Option<HashValue>)
    -> Result<Seq<EnvelopeValue>, CoreErrorValue> {
    if !is_sha256(root) {
        Err(CoreErrorValue::InvalidCheckpoint(root))
    } else {
        match entry_position(s.checkpoints, enc_hash(root)) {
            None => Err(CoreErrorValue::CheckpointNotFound(root)),
            Some(p) => match fetch_spec(s.operator, since, p as usize) {
                Some(window) => Ok(window),
                None => Err(CoreErrorValue::OperatorRecordNotFound(since->0)),
            },
        }
    }
}

/// The records of the package that a reader gets for the checkpoint `root`.
pub open spec fn fetch_package_records_spec(
    s: CoreValue,
    root: HashValue,
    name: Seq<char>,
    id: HashValue,
    since: Option<HashValue>,
) -> Result<Seq<EnvelopeValue>, CoreErrorValue> {
    if !is_sha256(root) {
        Err(CoreErrorValue::InvalidCheckpoint(root))
    } else {
        match entry_position(s.checkpoints, enc_hash(root)) {
            None => Err(CoreErrorValue::CheckpointNotFound(root)),
            Some(p) => if !s.packages.contains_key(id) {
                Err(CoreErrorValue::PackageNameNotFound(name))
            } else {
                match fetch_spec(s.packages[id].log, since, p as usize) {
                    Some(window) => Ok(window),
                    None => Err(CoreErrorValue::PackageRecordNotFound(since->0)),
                }
            },
        }
    }
}

/// What the service keeps of the record, or why it keeps nothing.
pub open spec fn record_info_spec(s: CoreValue, package_id: HashValue, record_id: HashValue)
    -> Result<RecordInfoValue, CoreErrorValue> {
    if !s.packages.contains_key(package_id) {
        Err(CoreErrorValue::PackageNotFound(package_id))
    } else if !s.packages[package_id].records.contains_key(record_id) {
        Err(CoreErrorValue::PackageRecordNotFound(record_id))
    } else {
        Ok(s.packages[package_id].records[record_id])
    }
}

proof fn lemma_position_prefix(entries: Seq<EnvelopeValue>, n: int, id: HashValue)
    requires
        0 <= n <= entries.len(),
        record_position(entries.take(n), id) is Some,
    ensures
        record_position(entries, id) == record_position(entries.take(n), id),
    decreases entries.len() - n,
{
    if n == entries.len() {
        assert(entries.take(n) =~= entries);
    } else {
        assert(entries.drop_last().take(n) =~= entries.take(n));
        lemma_position_prefix(entries.drop_last(), n, id);
    }
}

/// The position of the first record of the log that has the identifier.
pub fn record_index(log: &Log, id: &AnyHash) -> (r: Option<usize>)
    ensures
        match record_position(log@.entries, id@) {
            Some(i) => r matches Some(x) && x == i && x < log@.entries.len(),
            None => r is None,
        },
{
    let n = log.len();
    let mut i: usize = 0;
    assert(log@.entries.take(0) =~= Seq::<EnvelopeValue>::empty());
    while i < n
        invariant
            i <= n,
            n == log@.entries.len(),
            record_position(log@.entries.take(i as int), id@) is None,
        decreases n - i,
    {
        let ghost next = log@.entries.take(i + 1);
        assert(next.drop_last() =~= log@.entries.take(i as int));
        assert(next.last() == log@.entries[i as int]);
        match log.entry(i) {
            None => {},
            Some(envelope) => {
                if envelope.record_id(HashAlg::Sha256).same(id) {
                    proof {
                        assert(record_position(next, id@) == Some(i as int));
                        lemma_position_prefix(log@.entries, i + 1, id@);
                    }
                    return Some(i);
                }
            },
        }
        i += 1;
    }
    assert(log@.entries.take(n as int) =~= log@.entries);
    None
}

/// The position of the package record with the identifier.
pub fn get_package_record_index(log: &Log, hash: AnyHash) -> (r: Result<usize, CoreServiceError>)
    ensures
        match record_position(log@.entries, hash@) {
            Some(i) => r matches Ok(x) && x == i,
            None => r matches Err(e) && e@ == CoreErrorValue::PackageRecordNotFound(hash@),
        },
{
    match record_index(log, &hash) {
        Some(i) => Ok(i),
        None => Err(CoreServiceError::PackageRecordNotFound(hash)),
    }
}

/// The position of the operator record with the identifier.
pub fn get_operator_record_index(log: &Log, hash: AnyHash) -> (r: Result<usize, CoreServiceError>)
    ensures
        match record_position(log@.entries, hash@) {
            Some(i) => r matches Ok(x) && x == i,
            None => r matches Err(e) && e@ == CoreErrorValue::OperatorRecordNotFound(hash@),
        },
{
    match record_index(log, &hash) {
        Some(i) => Ok(i),
        None => Err(CoreServiceError::OperatorRecordNotFound(hash)),
    }
}

fn fetch(log: &Log, since: &Option<AnyHash>, checkpoint_index: usize) -> (r: Option<Vec<Envelope>>)
    ensures
        match fetch_spec(log@, crate::record::optional_hash_value(*since), checkpoint_index) {
            Some(window) => r matches Some(out) && envelope_values(out@) == window,
            None => r is None,
        },
{
    let start: usize = match since {
        None => 0,
        Some(id) => match record_index(log, id) {
            None => {
                return None;
            },
            Some(i) => {
                let n = log.len();
                i + 1
            },
        },
    };
    Some(log.fetch(start, checkpoint_index, usize::MAX))
}

/// The operator records that were published at or before the checkpoint at
/// the given position, after the record `since` if one is given.
pub fn fetch_operator_records(log: &Log, since: Option<AnyHash>, checkpoint_index: usize) -> (r:
    Result<Vec<Envelope>, CoreServiceError>)
    ensures
        match fetch_spec(log@, crate::record::optional_hash_value(since), checkpoint_index) {
            Some(window) => r matches Ok(out) && envelope_values(out@) == window,
            None => r matches Err(e) && e@ == CoreErrorValue::OperatorRecordNotFound(since->0@),
        },
{
    match fetch(log, &since, checkpoint_index) {
        Some(out) => Ok(out),
        None => match since {
            Some(id) => Err(CoreServiceError::OperatorRecordNotFound(id)),
            None => Ok(Vec::new()),
        },
    }
}

/// The package records that were published at or before the checkpoint at
/// the given position, after the record `since` if one is given.
pub fn fetch_package_records(log: &Log, since: Option<AnyHash>, checkpoint_index: usize) -> (r:
    Result<Vec<Envelope>, CoreServiceError>)
    ensures
        match fetch_spec(log@, crate::record::optional_hash_value(since), checkpoint_index) {
            Some(window) => r matches Ok(out) && envelope_values(out@) == window,
            None => r matches Err(e) && e@ == CoreErrorValue::PackageRecordNotFound(since->0@),
        },
{
    match fetch(log, &since, checkpoint_index) {
        Some(out) => Ok(out),
        None => match since {
            Some(id) => Err(CoreServiceError::PackageRecordNotFound(id)),
            None => Ok(Vec::new()),
        },
    }
}

fn find_missing(contents: &Vec<AnyHash>, sources: &Vec<ContentSource>) -> (r: Option<AnyHash>)
    ensures
        match first_missing(hash_values(contents@), source_values(sources@)) {
            Some(d) => r matches Some(x) && x@ == d,
            None => r is None,
        },
{
    let ghost all = hash_values(contents@);
    let ghost given = source_values(sources@);
    let mut i: usize = 0;
    assert(all.skip(0) =~= all);
    while i < contents.len()
        invariant
            i <= contents.len(),
            all == hash_values(contents@),
            given == source_values(sources@),
            first_missing(all, given) == first_missing(all.skip(i as int), given),
        decreases contents.len() - i,
    {
        assert(all.skip(i as int)[0] == contents@[i as int]@);
        assert(all.skip(i as int).skip(1) =~= all.skip(i + 1));
        let mut found = false;
        let mut j: usize = 0;
        while j < sources.len()
            invariant
                j <= sources.len(),
                i < contents.len(),
                given == source_values(sources@),
                found ==> provided(given, contents@[i as int]@),
                !found ==> forall|k: int| 0 <= k < j ==> (#[trigger] given[k]).digest
                    != contents@[i as int]@,
            decreases sources.len() - j,
        {
            if sources[j].digest.same(&contents[i]) {
                assert(given[j as int].digest == contents@[i as int]@);
                found = true;
            }
            j += 1;
        }
        if !found {
            return Some(contents[i].copy());
        }
        i += 1;
    }
    None
}

fn missing_content_reason(digest: &AnyHash) -> (reason: String)
    ensures
        reason@ == missing_content_text(digest@),
{
    let mut reason = String::new();
    vstd::string::StringExecFns::append(&mut reason, "Needed content ");
    let text = digest.to_text();
    vstd::string::StringExecFns::append(&mut reason, text.as_str());
    vstd::string::StringExecFns::append(&mut reason, " but not provided");
    assert(reason@ =~= missing_content_text(digest@));
    reason
}

/// Takes a submitted record into the package: validates it against a
/// snapshot, refuses it when content it needs was not provided, and otherwise
/// appends it to the log. A record the package keeps already is refused, and
/// what is kept of it stays as it is.
fn new_record(
    package: &mut PackageLog,
    log_id: &AnyHash,
    record: Envelope,
    content_sources: Vec<ContentSource>,
) -> (r: (RecordState, Option<LogLeaf>))
    ensures
        ({
            let s = (CoreValue {
                checkpoints: Seq::empty(),
                operator: LogValue::empty(LogKind::Operator),
                packages: Map::empty().insert(log_id@, old(package)@),
            });
            let outcome = submit_spec(
                s,
                old(package)@.name,
                log_id@,
                record@,
                source_values(content_sources@),
            );
            &&& outcome.0.packages[log_id@] == final(package)@
            &&& r.0@ == outcome.1
            &&& crate::service::optional_leaf_value(r.1) == outcome.2
        }),
        forall|n: nat| old(package)@.inv(n) ==> final(package)@.inv(n),
{
    let record_id = record.record_id(HashAlg::Sha256);
    let ghost before = package@;
    if package.records.contains(&record_id) {
        return (RecordState::Rejected { reason: "record was submitted before".to_string() }, None);
    }
    match package.log.check(&record) {
        Err(e) => {
            let state = RecordState::Rejected { reason: e.message() };
            let info = PackageRecordInfo { record, content_sources, state: state.copy() };
            package.records.insert(record_id, info);
            proof {
                assert forall|n: nat| before.inv(n) implies package@.inv(n) by {
                    assert forall|r: HashValue| #[trigger] package@.kept(r) by {
                        assert(before.kept(r));
                    }
                }
            }
            (state, None)
        },
        Ok(contents) => match find_missing(&contents, &content_sources) {
            Some(digest) => (
                RecordState::Rejected { reason: missing_content_reason(&digest) },
                None,
            ),
            None => {
                match package.log.append(&record) {
                    Err(e) => (RecordState::Rejected { reason: e.message() }, None),
                    Ok(_) => {
                        let leaf = LogLeaf { log_id: log_id.copy(), record_id: record_id.copy() };
                        let info = PackageRecordInfo {
                            record,
                            content_sources,
                            state: RecordState::Processing,
                        };
                        package.records.insert(record_id, info);
                        proof {
                            assert forall|n: nat| before.inv(n) implies package@.inv(n) by {
                                assert forall|r: HashValue| #[trigger] package@.kept(r) by {
                                    assert(before.kept(r));
                                    lemma_position_push(before.log.entries, record@, r);
                                }
                            }
                        }
                        (RecordState::Processing, Some(leaf))
                    },
                }
            },
        },
    }
}

/// The value of an optional leaf.
pub open spec fn optional_leaf_value(leaf: Option<LogLeaf>) -> Option<LeafValue> {
    match leaf {
        Some(leaf) => Some(leaf@),
        None => None,
    }
}

/// The state the service owns: the checkpoints, the operator log and what
/// it keeps of each package.
pub struct State {
    checkpoints: Checkpoints,
    operator: Log,
    packages: Table<AnyHash, PackageLog>,
}

impl View for State {
    type V = CoreValue;

    closed spec fn view(&self) -> CoreValue {
        CoreValue {
            checkpoints: self.checkpoints@,
            operator: self.operator@,
            packages: self.packages@,
        }
    }
}

/// The state of a registry whose operator log holds the one record and whose
/// one checkpoint covers it.
pub open spec fn initial_state_spec(checkpoint: CheckpointValue, record: EnvelopeValue) -> Result<
    CoreValue,
    ErrorValue,
> {
    match validate_spec(empty_state(LogKind::Operator), record) {
        Err(e) => Err(e),
        Ok((st, contents)) => Ok(
            CoreValue {
                checkpoints: seq![
                    (enc_hash(checkpoint_id_spec(HashAlg::Sha256, checkpoint)), checkpoint),
                ],
                operator: LogValue {
                    state: st,
                    entries: seq![record],
                    checkpoint_indices: seq![0usize],
                },
                packages: Map::empty(),
            },
        ),
    }
}

impl State {
    /// The state of a registry that starts with the operator's first record,
    /// published under the first checkpoint. The record must be one the
    /// operator validator accepts as the first of its log.
    pub fn new(init_checkpoint: SignedCheckpoint, init_record: Envelope) -> (r: Result<
        State,
        ValidationError,
    >)
        ensures
            match initial_state_spec(init_checkpoint@, init_record@) {
                Ok(v) => r matches Ok(s) && s@ == v && s@.inv(),
                Err(e) => r matches Err(x) && x@ == e,
            },
    {
        let mut operator = Log::new(LogKind::Operator);
        match operator.append(&init_record) {
            Err(e) => {
                return Err(e);
            },
            Ok(_) => {},
        }
        let sealed = operator.seal(0);
        let mut checkpoints = Checkpoints::new();
        let id = init_checkpoint.id(HashAlg::Sha256);
        let added = checkpoints.add(&id, init_checkpoint);
        let state = State { checkpoints, operator, packages: Table::new() };
        proof {
            let v = initial_state_spec(init_checkpoint@, init_record@)->Ok_0;
            assert(state@.checkpoints =~= v.checkpoints);
            assert(state@.operator.entries =~= v.operator.entries);
            assert(state@.operator.checkpoint_indices =~= v.operator.checkpoint_indices);
            assert(state@.packages =~= v.packages);
        }
        Ok(state)
    }
}

/// The core service.
pub struct CoreService {
    state: State,
}

impl View for CoreService {
    type V = CoreValue;

    closed spec fn view(&self) -> CoreValue {
        self.state@
    }
}

/// A request to the service.
pub enum Message {
    SubmitPackageRecord { package_name: String, record: Envelope, content_sources: Vec<ContentSource> },
    GetPackageRecordStatus { package_id: AnyHash, record_id: AnyHash },
    GetPackageRecordInfo { package_id: AnyHash, record_id: AnyHash },
    NewCheckpoint { checkpoint: SignedCheckpoint, leaves: Vec<LogLeaf> },
    FetchOperatorRecords { root: AnyHash, since: Option<AnyHash> },
    FetchPackageRecords { root: AnyHash, package_name: String, since: Option<AnyHash> },
    GetLatestCheckpoint,
}

/// The service's answer to a request.
pub enum Reply {
    /// The state of the submitted record and, if it was accepted, the leaf to
    /// hand to the transparency builder.
    Submitted { state: RecordState, leaf: Option<LogLeaf> },
    RecordStatus(Result<RecordState, CoreServiceError>),
    RecordInfo(Result<PackageRecordInfo, CoreServiceError>),
    /// A checkpoint was taken in; nobody waits for an answer.
    CheckpointInstalled,
    OperatorRecords(Result<Vec<Envelope>, CoreServiceError>),
    PackageRecords(Result<Vec<Envelope>, CoreServiceError>),
    LatestCheckpoint(SignedCheckpoint),
}

impl CoreService {
    /// What holds of the service after every request.
    pub open spec fn wf(&self) -> bool {
        self@.inv()
    }

    /// The service that starts from the given state.
    pub fn start(initial_state: State) -> (service: CoreService)
        ensures
            service@ == initial_state@,
    {
        CoreService { state: initial_state }
    }

    /// Takes a package record in. The record is validated against a snapshot
    /// of the package's validator; it is refused when the package keeps it
    /// already, when the validator refuses it, or when content it needs is
    /// not among the sources. An accepted record is appended to the package's
    /// log and its leaf is returned for the transparency builder.
    pub fn submit_package_record(
        &mut self,
        package_name: String,
        record: Envelope,
        content_sources: Vec<ContentSource>,
    ) -> (r: (RecordState, Option<LogLeaf>))
        requires
            old(self).wf(),
        ensures
            final(self).wf(),
            (final(self)@, r.0@, optional_leaf_value(r.1)) == submit_spec(
                old(self)@,
                package_name@,
                log_id_spec(HashAlg::Sha256, LogKind::Package, vstd::utf8::encode_utf8(package_name@)),
                record@,
                source_values(content_sources@),
            ),
    {
        let id = package_log_id(HashAlg::Sha256, package_name.as_str());
        let ghost s0 = self@;
        let mut package = match self.state.packages.remove(&id) {
            Some(package) => package,
            None => PackageLog {
                name: package_name,
                log: Log::new(LogKind::Package),
                records: Table::new(),
            },
        };
        let ghost before = package@;
        assert(before == s0.package(id@, package_name@));
        let r = new_record(&mut package, &id, record, content_sources);
        let ghost after = package@;
        self.state.packages.insert(id, package);
        proof {
            let isolated = CoreValue {
                checkpoints: Seq::empty(),
                operator: LogValue::empty(LogKind::Operator),
                packages: Map::empty().insert(id@, before),
            };
            let a = submit_spec(
                isolated,
                before.name,
                id@,
                record@,
                source_values(content_sources@),
            );
            let b = submit_spec(s0, package_name@, id@, record@, source_values(content_sources@));
            assert(isolated.package(id@, before.name) == before);
            assert(a.0.packages[id@] == b.0.packages[id@]);
            assert(self@.packages =~= b.0.packages);
            assert(self@ == b.0);
            assert forall|x: HashValue| #[trigger]
                self@.packages.contains_key(x) implies self@.packages[x].inv(
                self@.checkpoints.len(),
            ) by {
                if x != id@ {
                    assert(s0.packages.contains_key(x));
                } else if s0.packages.contains_key(id@) {
                    assert(before.inv(s0.checkpoints.len()));
                } else {
                    assert forall|r: HashValue| #[trigger] before.kept(r) by {}
                    assert(before.inv(s0.checkpoints.len()));
                }
            }
        }
        r
    }

    /// The state of a package record.
    pub fn get_package_record_status(&self, package_id: AnyHash, record_id: AnyHash) -> (r: Result<
        RecordState,
        CoreServiceError,
    >)
        ensures
            match record_info_spec(self@, package_id@, record_id@) {
                Ok(info) => r matches Ok(state) && state@ == info.state,
                Err(e) => r matches Err(x) && x@ == e,
            },
    {
        match self.state.packages.get(&package_id) {
            None => Err(CoreServiceError::PackageNotFound(package_id)),
            Some(package) => match package.records.get(&record_id) {
                None => Err(CoreServiceError::PackageRecordNotFound(record_id)),
                Some(info) => Ok(info.state.copy()),
            },
        }
    }

    /// What the service keeps of a package record.
    pub fn get_package_record_info(&self, package_id: AnyHash, record_id: AnyHash) -> (r: Result<
        PackageRecordInfo,
        CoreServiceError,
    >)
        ensures
            match record_info_spec(self@, package_id@, record_id@) {
                Ok(info) => r matches Ok(x) && x@ == info,
                Err(e) => r matches Err(x) && x@ == e,
            },
    {
        match self.state.packages.get(&package_id) {
            None => Err(CoreServiceError::PackageNotFound(package_id)),
            Some(package) => match package.records.get(&record_id) {
                None => Err(CoreServiceError::PackageRecordNotFound(record_id)),
                Some(info) => Ok(info.copy()),
            },
        }
    }

    /// Publishes the record of the leaf under the checkpoint at position
    /// `checkpoint_index`, the last the service has, if the record is
    /// processing.
    fn mark_published(&mut self, leaf: &LogLeaf, checkpoint: &SignedCheckpoint, checkpoint_index: usize)
        requires
            old(self).wf(),
            checkpoint_index + 1 == old(self)@.checkpoints.len(),
        ensures
            final(self).wf(),
            final(self)@.checkpoints == old(self)@.checkpoints,
            final(self)@ == publish_leaf_spec(old(self)@, checkpoint_index, checkpoint@, leaf@),
    {
        let ghost s0 = self@;
        let mut package = match self.state.packages.remove(&leaf.log_id) {
            None => {
                assert(self@.packages =~= s0.packages);
                return ;
            },
            Some(package) => package,
        };
        let ghost before = package@;
        assert(s0.packages.contains_key(leaf.log_id@));
        assert(before.inv(s0.checkpoints.len()));
        let info = match package.records.get(&leaf.record_id) {
            Some(info) => match info.state {
                RecordState::Processing => Some(info.copy()),
                _ => None,
            },
            None => None,
        };
        match info {
            None => {},
            Some(info) => {
                proof {
                    if before.log.checkpoint_indices.len() > 0 {
                        assert(before.log.checkpoint_indices[before.log.checkpoint_indices.len()
                            - 1] < s0.checkpoints.len());
                    }
                }
                let sealed = package.log.seal(checkpoint_index);
                package.records.insert(
                    leaf.record_id.copy(),
                    PackageRecordInfo {
                        record: info.record,
                        content_sources: info.content_sources,
                        state: RecordState::Published { checkpoint: checkpoint.copy() },
                    },
                );
                proof {
                    assert forall|i: int|
                        0 <= i < package@.log.checkpoint_indices.len() implies (
                    #[trigger] package@.log.checkpoint_indices[i]) < s0.checkpoints.len() by {
                        if i < before.log.checkpoint_indices.len() {
                            assert(before.log.checkpoint_indices[i] < s0.checkpoints.len());
                        }
                    }
                    assert forall|r: HashValue| #[trigger] package@.kept(r) by {
                        assert(before.kept(r));
                    }
                }
            },
        }
        let ghost after = package@;
        self.state.packages.insert(leaf.log_id.copy(), package);
        proof {
            let t = publish_leaf_spec(s0, checkpoint_index, checkpoint@, leaf@);
            if publishable(s0, leaf@) {
                assert(self@.packages =~= t.packages);
            } else {
                assert(after == before);
                assert(self@.packages =~= s0.packages);
            }
            assert forall|x: HashValue| #[trigger]
                self@.packages.contains_key(x) implies self@.packages[x].inv(
                self@.checkpoints.len(),
            ) by {
                if x != leaf.log_id@ {
                    assert(s0.packages.contains_key(x));
                }
            }
        }
    }

    /// Installs a checkpoint and publishes under it the record of every leaf
    /// that is processing, in the order of the leaves. A leaf that names no
    /// record the service keeps, or one that is published or rejected, and a
    /// checkpoint that is installed already change nothing.
    pub fn new_checkpoint(&mut self, checkpoint: SignedCheckpoint, leaves: Vec<LogLeaf>)
        requires
            old(self).wf(),
        ensures
            final(self).wf(),
            final(self)@ == new_checkpoint_spec(old(self)@, checkpoint@, leaf_values(leaves@)),
    {
        let ghost s0 = self@;
        let id = checkpoint.id(HashAlg::Sha256);
        let p = match self.state.checkpoints.add(&id, checkpoint.copy()) {
            None => {
                return ;
            },
            Some(p) => p,
        };
        let ghost s1 = self@;
        let ghost all = leaf_values(leaves@);
        proof {
            lemma_distinct_push(s0.checkpoints, enc_hash(id@), checkpoint@);
            assert(all.skip(0) =~= all);
            assert forall|x: HashValue| #[trigger] s1.packages.contains_key(x) implies s1.packages[x].inv(
                s1.checkpoints.len(),
            ) by {
                assert(s0.packages.contains_key(x));
                assert(s0.packages[x].inv(s0.checkpoints.len()));
            }
        }
        let mut i: usize = 0;
        while i < leaves.len()
            invariant
                i <= leaves.len(),
                self.wf(),
                p + 1 == self@.checkpoints.len(),
                all == leaf_values(leaves@),
                publish_leaves_spec(s1, p, checkpoint@, all) == publish_leaves_spec(
                    self@,
                    p,
                    checkpoint@,
                    all.skip(i as int),
                ),
            decreases leaves.len() - i,
        {
            assert(all.skip(i as int)[0] == leaves@[i as int]@);
            assert(all.skip(i as int).skip(1) =~= all.skip(i + 1));
            self.mark_published(&leaves[i], &checkpoint, p);
            i += 1;
        }
    }

    fn checkpoint_position(&self, root: &AnyHash) -> (r: Result<usize, CoreServiceError>)
        requires
            self.wf(),
        ensures
            if !is_sha256(root@) {
                r matches Err(e) && e@ == CoreErrorValue::InvalidCheckpoint(root@)
            } else {
                match entry_position(self@.checkpoints, enc_hash(root@)) {
                    None => r matches Err(e) && e@ == CoreErrorValue::CheckpointNotFound(root@),
                    Some(p) => r matches Ok(x) && x == p,
                }
            },
    {
        let sha256 = match root.alg {
            HashAlg::Sha256 => root.bytes.len() == 32,
            HashAlg::Sha512 => false,
        };
        if !sha256 {
            return Err(CoreServiceError::InvalidCheckpoint(root.copy()));
        }
        match self.state.checkpoints.position(root) {
            None => Err(CoreServiceError::CheckpointNotFound(root.copy())),
            Some(p) => {
                proof {
                    lemma_entry_position(self@.checkpoints, enc_hash(root@), p as int);
                }
                Ok(p)
            },
        }
    }

    /// The operator records that were published at or before the checkpoint
    /// `root`, after the record `since` if one is given, in the order of the
    /// log.
    pub fn fetch_operator_records(&self, root: AnyHash, since: Option<AnyHash>) -> (r: Result<
        Vec<Envelope>,
        CoreServiceError,
    >)
        requires
            self.wf(),
        ensures
            match fetch_operator_records_spec(
                self@,
                root@,
                crate::record::optional_hash_value(since),
            ) {
                Ok(window) => r matches Ok(out) && envelope_values(out@) == window,
                Err(e) => r matches Err(x) && x@ == e,
            },
    {
        let p = match self.checkpoint_position(&root) {
            Err(e) => {
                return Err(e);
            },
            Ok(p) => p,
        };
        fetch_operator_records(&self.state.operator, since, p)
    }

    /// The records of the package that were published at or before the
    /// checkpoint `root`, after the record `since` if one is given, in the
    /// order of the log.
    pub fn fetch_package_records(&self, root: AnyHash, package_name: String, since: Option<AnyHash>)
        -> (r: Result<Vec<Envelope>, CoreServiceError>)
        requires
            self.wf(),
        ensures
            match fetch_package_records_spec(
                self@,
                root@,
                package_name@,
                log_id_spec(HashAlg::Sha256, LogKind::Package, vstd::utf8::encode_utf8(package_name@)),
                crate::record::optional_hash_value(since),
            ) {
                Ok(window) => r matches Ok(out) && envelope_values(out@) == window,
                Err(e) => r matches Err(x) && x@ == e,
            },
    {
        let p = match self.checkpoint_position(&root) {
            Err(e) => {
                return Err(e);
            },
            Ok(p) => p,
        };
        let id = package_log_id(HashAlg::Sha256, package_name.as_str());
        match self.state.packages.get(&id) {
            None => Err(CoreServiceError::PackageNameNotFound(package_name)),
            Some(package) => fetch_package_records(&package.log, since, p),
        }
    }

    /// The checkpoint installed last.
    pub fn get_latest_checkpoint(&self) -> (c: SignedCheckpoint)
        requires
            self.wf(),
        ensures
            c@ == self@.checkpoints.last().1,
    {
        let n = self.state.checkpoints.len();
        match self.state.checkpoints.get(n - 1) {
            Some(c) => c.copy(),
            None => vstd::pervasive::unreached(),
        }
    }

    /// Answers one request. This is the whole of the service: each request
    /// is answered by the operation of its name.
    pub fn process(&mut self, message: Message) -> (reply: Reply)
        requires
            old(self).wf(),
        ensures
            final(self).wf(),
            match message {
                Message::SubmitPackageRecord { package_name, record, content_sources } => reply matches Reply::Submitted {
                    state,
                    leaf,
                } && (final(self)@, state@, optional_leaf_value(leaf)) == submit_spec(
                    old(self)@,
                    package_name@,
                    log_id_spec(
                        HashAlg::Sha256,
                        LogKind::Package,
                        vstd::utf8::encode_utf8(package_name@),
                    ),
                    record@,
                    source_values(content_sources@),
                ),
                Message::GetPackageRecordStatus { package_id, record_id } => reply matches Reply::RecordStatus(r) && final(self)@ == old(self)@ && match record_info_spec(
                    old(self)@,
                    package_id@,
                    record_id@,
                ) {
                    Ok(info) => r matches Ok(state) && state@ == info.state,
                    Err(e) => r matches Err(x) && x@ == e,
                },
                Message::GetPackageRecordInfo { package_id, record_id } => reply matches Reply::RecordInfo(r) && final(self)@ == old(self)@ && match record_info_spec(
                    old(self)@,
                    package_id@,
                    record_id@,
                ) {
                    Ok(info) => r matches Ok(x) && x@ == info,
                    Err(e) => r matches Err(x) && x@ == e,
                },
                Message::NewCheckpoint { checkpoint, leaves } => reply is CheckpointInstalled
                    && final(self)@ == new_checkpoint_spec(
                    old(self)@,
                    checkpoint@,
                    leaf_values(leaves@),
                ),
                Message::FetchOperatorRecords { root, since } => reply matches Reply::OperatorRecords(r) && final(self)@ == old(self)@ && match fetch_operator_records_spec(
                    old(self)@,
                    root@,
                    crate::record::optional_hash_value(since),
                ) {
                    Ok(window) => r matches Ok(out) && envelope_values(out@) == window,
                    Err(e) => r matches Err(x) && x@ == e,
                },
                Message::FetchPackageRecords { root, package_name, since } => reply matches Reply::PackageRecords(r) && final(self)@ == old(self)@ && match fetch_package_records_spec(
                    old(self)@,
                    root@,
                    package_name@,
                    log_id_spec(
                        HashAlg::Sha256,
                        LogKind::Package,
                        vstd::utf8::encode_utf8(package_name@),
                    ),
                    crate::record::optional_hash_value(since),
                ) {
                    Ok(window) => r matches Ok(out) && envelope_values(out@) == window,
                    Err(e) => r matches Err(x) && x@ == e,
                },
                Message::GetLatestCheckpoint => reply matches Reply::LatestCheckpoint(c) && final(self)@ == old(self)@ && c@ == old(
                    self,
                )@.checkpoints.last().1,
            },
    {
        match message {
            Message::SubmitPackageRecord { package_name, record, content_sources } => {
                let (state, leaf) = self.submit_package_record(package_name, record, content_sources);
                Reply::Submitted { state, leaf }
            },
            Message::GetPackageRecordStatus { package_id, record_id } => Reply::RecordStatus(
                self.get_package_record_status(package_id, record_id),
            ),
            Message::GetPackageRecordInfo { package_id, record_id } => Reply::RecordInfo(
                self.get_package_record_info(package_id, record_id),
            ),
            Message::NewCheckpoint { checkpoint, leaves } => {
                self.new_checkpoint(checkpoint, leaves);
                Reply::CheckpointInstalled
            },
            Message::FetchOperatorRecords { root, since } => Reply::OperatorRecords(
                self.fetch_operator_records(root, since),
            ),
            Message::FetchPackageRecords { root, package_name, since } => Reply::PackageRecords(
                self.fetch_package_records(root, package_name, since),
            ),
            Message::GetLatestCheckpoint => Reply::LatestCheckpoint(self.get_latest_checkpoint()),
        }
    }
}

/// A record that the validator accepts but that needs content no source
/// provides is rejected with no leaf, and what the service keeps of the
/// package, its validator's state and its log with it, is as before.
pub proof fn lemma_missing_content_changes_nothing(
    s: CoreValue,
    name: Seq<char>,
    id: HashValue,
    record: EnvelopeValue,
    sources: Seq<ContentSourceValue>,
)
    requires
        !s.package(id, name).records.contains_key(record_id_spec(HashAlg::Sha256, record)),
        validate_spec(s.package(id, name).log.state, record) is Ok,
        first_missing(validate_spec(s.package(id, name).log.state, record)->Ok_0.1, sources)
            is Some,
    ensures
        submit_spec(s, name, id, record, sources).0.package(id, name) == s.package(id, name),
        submit_spec(s, name, id, record, sources).1 is Rejected,
        submit_spec(s, name, id, record, sources).2 is None,
        forall|other: HashValue|
            other != id ==> submit_spec(s, name, id, record, sources).0.packages.contains_key(other)
                == s.packages.contains_key(other) && (s.packages.contains_key(other)
                ==> #[trigger] submit_spec(s, name, id, record, sources).0.packages[other]
                == s.packages[other]),
{
}

/// What the service keeps of a record is never taken back: a submission
/// leaves every record it keeps in the state it has.
pub proof fn lemma_kept_record_stays(
    s: CoreValue,
    name: Seq<char>,
    id: HashValue,
    record: EnvelopeValue,
    sources: Seq<ContentSourceValue>,
    package: HashValue,
    kept: HashValue,
)
    requires
        s.packages.contains_key(package),
        s.packages[package].records.contains_key(kept),
    ensures
        submit_spec(s, name, id, record, sources).0.packages.contains_key(package),
        submit_spec(s, name, id, record, sources).0.packages[package].records.contains_key(kept),
        submit_spec(s, name, id, record, sources).0.packages[package].records[kept]
            == s.packages[package].records[kept],
{
}

/// A record that stands in a log still stands in it when an envelope is
/// appended, and the record of the appended envelope stands in it.
pub proof fn lemma_position_push(entries: Seq<EnvelopeValue>, last: EnvelopeValue, id: HashValue)
    ensures
        record_position(entries, id) is Some ==> record_position(entries.push(last), id)
            == record_position(entries, id),
        record_position(entries.push(last), record_id_spec(HashAlg::Sha256, last)) is Some,
{
    assert(entries.push(last).drop_last() =~= entries);
}

/// A checkpoint never takes a publication back: a record that is published
/// stays published under its checkpoint whatever leaves arrive.
pub proof fn lemma_published_stays(
    s: CoreValue,
    p: usize,
    checkpoint: CheckpointValue,
    leaves: Seq<LeafValue>,
    package: HashValue,
    kept: HashValue,
)
    requires
        s.packages.contains_key(package),
        s.packages[package].records.contains_key(kept),
        !(s.packages[package].records[kept].state is Processing),
    ensures
        publish_leaves_spec(s, p, checkpoint, leaves).packages.contains_key(package),
        publish_leaves_spec(s, p, checkpoint, leaves).packages[package].records.contains_key(kept),
        publish_leaves_spec(s, p, checkpoint, leaves).packages[package].records[kept]
            == s.packages[package].records[kept],
    decreases leaves.len(),
{
    if leaves.len() > 0 {
        lemma_published_stays(
            publish_leaf_spec(s, p, checkpoint, leaves[0]),
            p,
            checkpoint,
            leaves.skip(1),
            package,
            kept,
        );
    }
}

/// A checkpoint publishes every leaf whose record is processing, whatever the
/// order of the leaves: the record is then published under the checkpoint.
pub proof fn lemma_processing_leaf_is_published(
    s: CoreValue,
    p: usize,
    checkpoint: CheckpointValue,
    leaves: Seq<LeafValue>,
    k: int,
)
    requires
        0 <= k < leaves.len(),
        publishable(s, leaves[k]),
    ensures
        publish_leaves_spec(s, p, checkpoint, leaves).packages.contains_key(leaves[k].log_id),
        publish_leaves_spec(s, p, checkpoint, leaves).packages[leaves[k].log_id].records.contains_key(
            leaves[k].record_id,
        ),
        publish_leaves_spec(
            s,
            p,
            checkpoint,
            leaves,
        ).packages[leaves[k].log_id].records[leaves[k].record_id].state
            == (RecordStateValue::Published { checkpoint }),
    decreases leaves.len(),
{
    let mid = publish_leaf_spec(s, p, checkpoint, leaves[0]);
    let rest = leaves.skip(1);
    if k == 0 || (leaves[0].log_id == leaves[k].log_id && leaves[0].record_id
        == leaves[k].record_id) {
        lemma_published_stays(mid, p, checkpoint, rest, leaves[k].log_id, leaves[k].record_id);
    } else {
        assert(rest[k - 1] == leaves[k]);
        assert(publishable(mid, leaves[k]));
        lemma_processing_leaf_is_published(mid, p, checkpoint, rest, k - 1);
    }
}

} // verus!
