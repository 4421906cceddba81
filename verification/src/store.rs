//! The in-memory data store: pending, rejected and validated records, the logs
//! they are validated into, and the checkpoints that publish them.

use vstd::prelude::*;
use crate::checkpoint::{
    has_entry, optional_checkpoint_value, CheckpointValue, Checkpoints, LeafValue, LogLeaf,
    SignedCheckpoint,
};
use crate::codec::enc_hash;
use crate::envelope::{record_id_spec, Envelope, EnvelopeValue};
use crate::hash::{AnyHash, HashValue};
use crate::log::{envelope_values, Log, LogValue};
use crate::record::LogKind;
use crate::state::{validate_spec, ErrorValue};
use crate::table::{Id, Plain, Table};
use crate::text::error_text;
use crate::validator::{contains_hash, hash_values, release_digests, ValidationError};

verus! {

/// Where a record stands in the store.
pub enum RecordStatus {
    /// Stored, not yet validated; `missing` holds the content digests that
    /// have not arrived.
    Pending { kind: LogKind, envelope: Envelope, missing: Table<AnyHash, ()> },
    /// Refused, for the reason given. A rejected record is in no log.
    Rejected { kind: LogKind, envelope: Envelope, reason: String },
    /// Accepted at the given position of its log. `checkpoint_index` is the
    /// position of the checkpoint that published it, once one has; `missing`
    /// holds the content digests that had not arrived when it was validated.
    Validated {
        kind: LogKind,
        index: usize,
        checkpoint_index: Option<usize>,
        missing: Table<AnyHash, ()>,
    },
}

/// The mathematical value of a [`RecordStatus`].
pub ghost enum StatusValue {
    Pending { kind: LogKind, envelope: EnvelopeValue, missing: Set<HashValue> },
    Rejected { kind: LogKind, envelope: EnvelopeValue, reason: Seq<char> },
    Validated {
        kind: LogKind,
        index: usize,
        checkpoint_index: Option<usize>,
        missing: Set<HashValue>,
    },
}

impl View for RecordStatus {
    type V = StatusValue;

    open spec fn view(&self) -> StatusValue {
        match self {
            RecordStatus::Pending { kind, envelope, missing } => StatusValue::Pending {
                kind: *kind,
                envelope: envelope@,
                missing: missing@.dom(),
            },
            RecordStatus::Rejected { kind, envelope, reason } => StatusValue::Rejected {
                kind: *kind,
                envelope: envelope@,
                reason: reason@,
            },
            RecordStatus::Validated { kind, index, checkpoint_index, missing } => StatusValue::Validated {
                kind: *kind,
                index: *index,
                checkpoint_index: *checkpoint_index,
                missing: missing@.dom(),
            },
        }
    }
}

/// The digests of the content that the record of an envelope releases.
pub open spec fn record_contents(envelope: EnvelopeValue) -> Set<HashValue> {
    crate::state::release_contents(crate::state::entries_of(envelope)).to_set()
}

/// Whether a record of the given kind may wait for the content: only content
/// that the record releases, and none at all for an operator record.
pub open spec fn may_wait_for(kind: LogKind, envelope: EnvelopeValue, missing: Set<HashValue>)
    -> bool {
    missing.subset_of(record_contents(envelope)) && (kind == LogKind::Operator ==> missing
        == Set::<HashValue>::empty())
}

/// Why the store refuses an operation.
#[derive(Clone, Debug, PartialEq, Eq)]
pub enum DataStoreError {
    /// No record was ever stored for the log.
    LogNotFound(AnyHash),
    /// The log has no such record, or none that can be read this way.
    RecordNotFound(AnyHash),
    /// The record has left the pending state.
    RecordNotPending(AnyHash),
    /// No checkpoint is stored under the identifier.
    CheckpointNotFound(AnyHash),
    /// The operation is refused for the reason given.
    Rejected(String),
    /// The validator refused the record.
    Validation(ValidationError),
}

/// The mathematical value of a [`DataStoreError`].
pub ghost enum StoreErrorValue {
    LogNotFound(HashValue),
    RecordNotFound(HashValue),
    RecordNotPending(HashValue),
    CheckpointNotFound(HashValue),
    Rejected(Seq<char>),
    Validation(ErrorValue),
}

impl View for DataStoreError {
    type V = StoreErrorValue;

    open spec fn view(&self) -> StoreErrorValue {
        match self {
            DataStoreError::LogNotFound(l) => StoreErrorValue::LogNotFound(l@),
            DataStoreError::RecordNotFound(r) => StoreErrorValue::RecordNotFound(r@),
            DataStoreError::RecordNotPending(r) => StoreErrorValue::RecordNotPending(r@),
            DataStoreError::CheckpointNotFound(c) => StoreErrorValue::CheckpointNotFound(c@),
            DataStoreError::Rejected(reason) => StoreErrorValue::Rejected(reason@),
            DataStoreError::Validation(e) => StoreErrorValue::Validation(e@),
        }
    }
}

/// The mathematical value of the store.
pub ghost struct StoreValue {
    pub operators: Map<HashValue, LogValue>,
    pub packages: Map<HashValue, LogValue>,
    /// The checkpoints in the order they were stored, each with the encoding of
    /// its identifier.
    pub checkpoints: Seq<(Seq<u8>, CheckpointValue)>,
    pub records: Map<HashValue, Map<HashValue, StatusValue>>,
}

impl StoreValue {
    /// The store that holds nothing.
    pub open spec fn empty() -> StoreValue {
        StoreValue {
            operators: Map::empty(),
            packages: Map::empty(),
            checkpoints: Seq::empty(),
            records: Map::empty(),
        }
    }

    /// The logs of the given kind.
    pub open spec fn logs(self, kind: LogKind) -> Map<HashValue, LogValue> {
        match kind {
            LogKind::Operator => self.operators,
            LogKind::Package => self.packages,
        }
    }

    /// The log of the given kind and identifier; the empty log if the store
    /// has none.
    pub open spec fn log(self, kind: LogKind, log_id: HashValue) -> LogValue {
        if self.logs(kind).contains_key(log_id) {
            self.logs(kind)[log_id]
        } else {
            LogValue::empty(kind)
        }
    }

    /// The store with the log put in place.
    pub open spec fn with_log(self, kind: LogKind, log_id: HashValue, log: LogValue) -> StoreValue {
        match kind {
            LogKind::Operator => StoreValue { operators: self.operators.insert(log_id, log), ..self },
            LogKind::Package => StoreValue { packages: self.packages.insert(log_id, log), ..self },
        }
    }

    /// The records stored for the log; none if the store has none.
    pub open spec fn records_of(self, log_id: HashValue) -> Map<HashValue, StatusValue> {
        if self.records.contains_key(log_id) {
            self.records[log_id]
        } else {
            Map::empty()
        }
    }

    /// Where the record stands, if the store has it.
    pub open spec fn status(self, log_id: HashValue, record_id: HashValue) -> Option<StatusValue> {
        if self.records_of(log_id).contains_key(record_id) {
            Some(self.records_of(log_id)[record_id])
        } else {
            None
        }
    }

    /// The store with the record's status set.
    pub open spec fn with_status(self, log_id: HashValue, record_id: HashValue, status: StatusValue)
        -> StoreValue {
        StoreValue {
            records: self.records.insert(log_id, self.records_of(log_id).insert(record_id, status)),
            ..self
        }
    }

    /// The position of the checkpoint stored under the identifier.
    pub open spec fn checkpoint_position(self, id: HashValue) -> Option<int> {
        if has_entry(self.checkpoints, enc_hash(id)) {
            Some(choose|i: int| 0 <= i < self.checkpoints.len() && self.checkpoints[i].0 == enc_hash(id))
        } else {
            None
        }
    }

    /// Whether the status fits the record: the identifier of the record is
    /// the hash of its envelope, it waits only for content it releases, a
    /// validated record has its envelope at its position in a log the store
    /// has, and a published record names a checkpoint the store has.
    pub open spec fn fits(self, log_id: HashValue, record_id: HashValue, status: StatusValue)
        -> bool {
        match status {
            StatusValue::Pending { kind, envelope, missing } => record_id == record_id_spec(
                record_id.alg,
                envelope,
            ) && may_wait_for(kind, envelope, missing),
            StatusValue::Rejected { kind, envelope, reason } => record_id == record_id_spec(
                record_id.alg,
                envelope,
            ),
            StatusValue::Validated { kind, index, checkpoint_index, missing } => {
                &&& self.logs(kind).contains_key(log_id)
                &&& index < self.logs(kind)[log_id].entries.len()
                &&& record_id == record_id_spec(
                    record_id.alg,
                    self.logs(kind)[log_id].entries[index as int],
                )
                &&& may_wait_for(kind, self.logs(kind)[log_id].entries[index as int], missing)
                &&& checkpoint_index matches Some(c) ==> c < self.checkpoints.len()
            },
        }
    }

    /// Whether no record of any log is sealed under a checkpoint after
    /// position `p`.
    pub open spec fn sealed_at_most(self, p: usize) -> bool {
        forall|kind: LogKind, l: HashValue, i: int|
            #![trigger self.logs(kind)[l].checkpoint_indices[i]]
            self.logs(kind).contains_key(l) && 0 <= i < self.logs(kind)[l].checkpoint_indices.len()
                ==> self.logs(kind)[l].checkpoint_indices[i] <= p
    }

    /// Whether the record, if it is validated, stands in a log the store has.
    pub open spec fn anchored_at(self, l: HashValue, r: HashValue) -> bool {
        self.status(l, r) matches Some(
            StatusValue::Validated { kind, index, checkpoint_index, missing },
        ) ==> self.logs(kind).contains_key(l)
    }

    /// Whether every validated record stands in a log the store has.
    pub open spec fn anchored(self) -> bool {
        forall|l: HashValue, r: HashValue| #[trigger] self.anchored_at(l, r)
    }

    /// The status of the record, if it has one, fits the record.
    pub open spec fn placed(self, log_id: HashValue, record_id: HashValue) -> bool {
        self.status(log_id, record_id) matches Some(status) ==> self.fits(
            log_id,
            record_id,
            status,
        )
    }

    /// What holds of the logs of one kind: each keeps the invariant of a log
    /// and is sealed only under checkpoints the store holds.
    pub open spec fn logs_inv(self, kind: LogKind) -> bool {
        forall|l: HashValue| #[trigger]
            self.logs(kind).contains_key(l) ==> self.logs(kind)[l].inv(kind) && forall|i: int|
                0 <= i < self.logs(kind)[l].checkpoint_indices.len() ==> (
                #[trigger] self.logs(kind)[l].checkpoint_indices[i]) < self.checkpoints.len()
    }

    /// What holds of the store after every operation.
    pub open spec fn inv(self) -> bool {
        &&& self.logs_inv(LogKind::Operator)
        &&& self.logs_inv(LogKind::Package)
        &&& forall|l: HashValue, r: HashValue| #[trigger] self.placed(l, r)
        &&& forall|i: int, j: int|
            0 <= i < j < self.checkpoints.len() ==> (#[trigger] self.checkpoints[i]).0 != (
            #[trigger] self.checkpoints[j]).0
    }
}

/// The store after a record was handed in, and whether it was taken. It is
/// not taken when its identifier is not the hash of its envelope, when it is
/// said to wait for content that it does not release, or when it is stored
/// already.
pub open spec fn store_record_spec(
    s: StoreValue,
    kind: LogKind,
    log_id: HashValue,
    record_id: HashValue,
    envelope: EnvelopeValue,
    missing: Set<HashValue>,
) -> (StoreValue, Result<(), StoreErrorValue>) {
    if record_id != record_id_spec(record_id.alg, envelope) {
        (s, Err(StoreErrorValue::Validation(ErrorValue::RecordHashDoesNotMatch)))
    } else if !missing.subset_of(record_contents(envelope)) {
        (s, Err(StoreErrorValue::Rejected("missing content is not content of the record"@)))
    } else if s.status(log_id, record_id) is Some {
        (s, Err(StoreErrorValue::Rejected("record is already stored"@)))
    } else {
        (s.with_status(log_id, record_id, StatusValue::Pending { kind, envelope, missing }), Ok(()))
    }
}

/// The pending record of the given kind, or why there is none.
pub open spec fn pending_spec(s: StoreValue, kind: LogKind, log_id: HashValue, record_id: HashValue)
    -> Result<(EnvelopeValue, Set<HashValue>), StoreErrorValue> {
    if !s.records.contains_key(log_id) {
        Err(StoreErrorValue::LogNotFound(log_id))
    } else {
        match s.status(log_id, record_id) {
            None => Err(StoreErrorValue::RecordNotFound(record_id)),
            Some(StatusValue::Pending { kind: k, envelope, missing }) => if k == kind {
                Ok((envelope, missing))
            } else {
                Err(StoreErrorValue::RecordNotPending(record_id))
            },
            Some(_) => Err(StoreErrorValue::RecordNotPending(record_id)),
        }
    }
}

/// The store after a pending record was rejected.
pub open spec fn reject_record_spec(
    s: StoreValue,
    kind: LogKind,
    log_id: HashValue,
    record_id: HashValue,
    reason: Seq<char>,
) -> (StoreValue, Result<(), StoreErrorValue>) {
    match pending_spec(s, kind, log_id, record_id) {
        Err(e) => (s, Err(e)),
        Ok((envelope, missing)) => (
            s.with_status(log_id, record_id, StatusValue::Rejected { kind, envelope, reason }),
            Ok(()),
        ),
    }
}

/// The store after a pending record was run through the validator of its
/// log, whatever content it still waits for. An accepted record is appended
/// to the log and becomes validated, not yet published, and keeps what it
/// waits for; a refused record becomes rejected with the validator's message.
pub open spec fn validate_record_spec(
    s: StoreValue,
    kind: LogKind,
    log_id: HashValue,
    record_id: HashValue,
) -> (StoreValue, Result<(), StoreErrorValue>) {
    match pending_spec(s, kind, log_id, record_id) {
        Err(e) => (s, Err(e)),
        Ok((envelope, missing)) => {
            let log = s.log(kind, log_id);
            match validate_spec(log.state, envelope) {
                Ok((st, contents)) => (
                    s.with_log(
                        kind,
                        log_id,
                        LogValue { state: st, entries: log.entries.push(envelope), ..log },
                    ).with_status(
                        log_id,
                        record_id,
                        StatusValue::Validated {
                            kind,
                            index: log.entries.len() as usize,
                            checkpoint_index: None,
                            missing,
                        },
                    ),
                    Ok(()),
                ),
                Err(e) => (
                    s.with_log(kind, log_id, log).with_status(
                        log_id,
                        record_id,
                        StatusValue::Rejected { kind, envelope, reason: error_text(e) },
                    ),
                    Err(StoreErrorValue::Validation(e)),
                ),
            }
        },
    }
}

/// Whether the pending record still waits for the content.
pub open spec fn is_content_missing_spec(
    s: StoreValue,
    log_id: HashValue,
    record_id: HashValue,
    digest: HashValue,
) -> Result<bool, StoreErrorValue> {
    if !s.records.contains_key(log_id) {
        Err(StoreErrorValue::LogNotFound(log_id))
    } else {
        match s.status(log_id, record_id) {
            None => Err(StoreErrorValue::RecordNotFound(record_id)),
            Some(StatusValue::Pending { kind, envelope, missing }) => Ok(missing.contains(digest)),
            Some(_) => Err(StoreErrorValue::RecordNotPending(record_id)),
        }
    }
}

/// The store after the content arrived, and whether it was the last content
/// the record waited for.
pub open spec fn set_content_present_spec(
    s: StoreValue,
    log_id: HashValue,
    record_id: HashValue,
    digest: HashValue,
) -> (StoreValue, Result<bool, StoreErrorValue>) {
    if !s.records.contains_key(log_id) {
        (s, Err(StoreErrorValue::LogNotFound(log_id)))
    } else {
        match s.status(log_id, record_id) {
            None => (s, Err(StoreErrorValue::RecordNotFound(record_id))),
            Some(StatusValue::Pending { kind, envelope, missing }) => if missing == Set::<
                HashValue,
            >::empty() {
                (s, Ok(false))
            } else {
                (
                    s.with_status(
                        log_id,
                        record_id,
                        StatusValue::Pending { kind, envelope, missing: missing.remove(digest) },
                    ),
                    Ok(missing.remove(digest) == Set::<HashValue>::empty()),
                )
            },
            Some(_) => (s, Err(StoreErrorValue::RecordNotPending(record_id))),
        }
    }
}

/// The value of a result that carries no value on success.
pub open spec fn unit_result_value(r: Result<(), DataStoreError>) -> Result<(), StoreErrorValue> {
    match r {
        Ok(()) => Ok(()),
        Err(e) => Err(e@),
    }
}

/// The value of a result that carries a truth value on success.
pub open spec fn bool_result_value(r: Result<bool, DataStoreError>) -> Result<
    bool,
    StoreErrorValue,
> {
    match r {
        Ok(b) => Ok(b),
        Err(e) => Err(e@),
    }
}

/// The in-memory data store. Nothing in it outlives the process.
pub struct MemoryDataStore {
    operators: Table<AnyHash, Log>,
    packages: Table<AnyHash, Log>,
    checkpoints: Checkpoints,
    records: Table<AnyHash, Table<AnyHash, RecordStatus>>,
}

impl View for MemoryDataStore {
    type V = StoreValue;

    closed spec fn view(&self) -> StoreValue {
        StoreValue {
            operators: self.operators@,
            packages: self.packages@,
            checkpoints: self.checkpoints@,
            records: self.records@,
        }
    }
}

impl Default for MemoryDataStore {
    fn default() -> (store: MemoryDataStore)
        ensures
            store@ == StoreValue::empty(),
            store.wf(),
    {
        MemoryDataStore::new()
    }
}

impl MemoryDataStore {
    /// The invariant of the store holds. It holds of the new store, and every
    /// operation keeps it.
    pub open spec fn wf(&self) -> bool {
        self@.inv()
    }

    /// The store that holds nothing.
    pub fn new() -> (store: MemoryDataStore)
        ensures
            store@ == StoreValue::empty(),
            store.wf(),
    {
        MemoryDataStore {
            operators: Table::new(),
            packages: Table::new(),
            checkpoints: Checkpoints::new(),
            records: Table::new(),
        }
    }

    fn lookup(&self, log_id: &AnyHash, record_id: &AnyHash) -> (r: Result<
        &RecordStatus,
        DataStoreError,
    >)
        ensures
            match r {
                Ok(status) => self@.records.contains_key(log_id@) && self@.status(
                    log_id@,
                    record_id@,
                ) == Some(status@),
                Err(e) => if self@.records.contains_key(log_id@) {
                    self@.status(log_id@, record_id@) is None && e@
                        == StoreErrorValue::RecordNotFound(record_id@)
                } else {
                    e@ == StoreErrorValue::LogNotFound(log_id@)
                },
            },
    {
        match self.records.get(log_id) {
            None => Err(DataStoreError::LogNotFound(log_id.copy())),
            Some(records) => match records.get(record_id) {
                None => Err(DataStoreError::RecordNotFound(record_id.copy())),
                Some(status) => Ok(status),
            },
        }
    }

    fn set_status(&mut self, log_id: &AnyHash, record_id: &AnyHash, status: RecordStatus)
        ensures
            final(self)@ == old(self)@.with_status(log_id@, record_id@, status@),
    {
        let mut records = match self.records.remove(log_id) {
            Some(records) => records,
            None => Table::new(),
        };
        records.insert(record_id.copy(), status);
        self.records.insert(log_id.copy(), records);
        assert(self@.records =~= old(self)@.with_status(log_id@, record_id@, status@).records);
    }

    fn store_record(
        &mut self,
        kind: LogKind,
        log_id: &AnyHash,
        record_id: &AnyHash,
        record: &Envelope,
        missing: &Vec<AnyHash>,
    ) -> (r: Result<(), DataStoreError>)
        requires
            old(self).wf(),
            kind == LogKind::Operator ==> missing@.len() == 0,
        ensures
            final(self).wf(),
            (final(self)@, unit_result_value(r)) == store_record_spec(
                old(self)@,
                kind,
                log_id@,
                record_id@,
                record@,
                hash_values(missing@).to_set(),
            ),
    {
        if !record.record_id(record_id.alg).same(record_id) {
            return Err(DataStoreError::Validation(ValidationError::RecordHashDoesNotMatch));
        }
        let contents = match record.record() {
            Some((_, decoded)) => release_digests(&decoded.entries),
            None => Vec::new(),
        };
        assert(hash_values(contents@).to_set() =~= record_contents(record@));
        let mut waiting: Table<AnyHash, ()> = Table::new();
        let mut i: usize = 0;
        assert(waiting@.dom() =~= hash_values(missing@.subrange(0, 0)).to_set());
        while i < missing.len()
            invariant
                i <= missing.len(),
                waiting@.dom() == hash_values(missing@.subrange(0, i as int)).to_set(),
                hash_values(contents@).to_set() == record_contents(record@),
                waiting@.dom().subset_of(record_contents(record@)),
                self@ == old(self)@,
                self@.inv(),
                record_id@ == record_id_spec(record_id@.alg, record@),
            decreases missing.len() - i,
        {
            let ghost before = hash_values(missing@.subrange(0, i as int));
            if !contains_hash(&contents, &missing[i]) {
                proof {
                    assert(hash_values(missing@)[i as int] == missing@[i as int]@);
                    assert(hash_values(missing@).to_set().contains(missing@[i as int]@));
                }
                return Err(
                    DataStoreError::Rejected(
                        "missing content is not content of the record".to_string(),
                    ),
                );
            }
            waiting.insert(missing[i].copy(), ());
            proof {
                let after = hash_values(missing@.subrange(0, i + 1));
                assert(after =~= before.push(missing@[i as int]@));
                assert forall|h: HashValue| after.contains(h) <==> (before.contains(h) || h
                    == missing@[i as int]@) by {
                    if before.contains(h) {
                        let j = choose|j: int| 0 <= j < before.len() && before[j] == h;
                        assert(after[j] == h);
                    }
                    if h == missing@[i as int]@ {
                        assert(after[i as int] == h);
                    }
                }
                assert(waiting@.dom() =~= after.to_set());
            }
            i += 1;
        }
        assert(missing@.subrange(0, missing.len() as int) =~= missing@);
        if self.lookup(log_id, record_id).is_ok() {
            return Err(DataStoreError::Rejected("record is already stored".to_string()));
        }
        let status = RecordStatus::Pending { kind, envelope: record.copy(), missing: waiting };
        proof {
            if kind == LogKind::Operator {
                assert(hash_values(missing@).to_set() =~= Set::<HashValue>::empty());
            }
            lemma_with_status_inv(self@, log_id@, record_id@, status@);
        }
        self.set_status(log_id, record_id, status);
        Ok(())
    }

    /// Stores an operator record as pending. A record whose identifier is not
    /// the hash of its envelope is refused, and so is one that is stored
    /// already.
    pub fn store_operator_record(&mut self, log_id: &AnyHash, record_id: &AnyHash, record: &Envelope)
        -> (r: Result<(), DataStoreError>)
        requires
            old(self).wf(),
        ensures
            final(self).wf(),
            (final(self)@, unit_result_value(r)) == store_record_spec(
                old(self)@,
                LogKind::Operator,
                log_id@,
                record_id@,
                record@,
                Set::empty(),
            ),
    {
        let missing: Vec<AnyHash> = Vec::new();
        assert(hash_values(missing@).to_set() =~= Set::<HashValue>::empty());
        self.store_record(LogKind::Operator, log_id, record_id, record, &missing)
    }

    /// Stores a package record as pending, waiting for the content whose
    /// digests are `missing`. A record whose identifier is not the hash of its
    /// envelope is refused, and so is one that is stored already.
    pub fn store_package_record(
        &mut self,
        log_id: &AnyHash,
        name: &str,
        record_id: &AnyHash,
        record: &Envelope,
        missing: &Vec<AnyHash>,
    ) -> (r: Result<(), DataStoreError>)
        requires
            old(self).wf(),
        ensures
            final(self).wf(),
            (final(self)@, unit_result_value(r)) == store_record_spec(
                old(self)@,
                LogKind::Package,
                log_id@,
                record_id@,
                record@,
                hash_values(missing@).to_set(),
            ),
    {
        self.store_record(LogKind::Package, log_id, record_id, record, missing)
    }

    fn pending(&self, kind: LogKind, log_id: &AnyHash, record_id: &AnyHash) -> (r: Result<
        (Envelope, Table<AnyHash, ()>),
        DataStoreError,
    >)
        ensures
            match pending_spec(self@, kind, log_id@, record_id@) {
                Ok((envelope, missing)) => r matches Ok((e, waits)) && e@ == envelope
                    && waits@.dom() == missing,
                Err(x) => r matches Err(e) && e@ == x,
            },
    {
        match self.lookup(log_id, record_id) {
            Err(e) => Err(e),
            Ok(status) => match status {
                RecordStatus::Pending { kind: k, envelope, missing } => {
                    if *k == kind {
                        Ok((envelope.copy(), missing.copy()))
                    } else {
                        Err(DataStoreError::RecordNotPending(record_id.copy()))
                    }
                },
                _ => Err(DataStoreError::RecordNotPending(record_id.copy())),
            },
        }
    }

    fn reject_record(&mut self, kind: LogKind, log_id: &AnyHash, record_id: &AnyHash, reason: &str)
        -> (r: Result<(), DataStoreError>)
        requires
            old(self).wf(),
        ensures
            final(self).wf(),
            (final(self)@, unit_result_value(r)) == reject_record_spec(
                old(self)@,
                kind,
                log_id@,
                record_id@,
                reason@,
            ),
    {
        let (envelope, _waits) = match self.pending(kind, log_id, record_id) {
            Err(e) => {
                return Err(e);
            },
            Ok(x) => x,
        };
        let status = RecordStatus::Rejected { kind, envelope, reason: reason.to_string() };
        proof {
            assert(self@.placed(log_id@, record_id@));
            lemma_with_status_inv(self@, log_id@, record_id@, status@);
        }
        self.set_status(log_id, record_id, status);
        Ok(())
    }

    /// Rejects a pending operator record for the reason given.
    pub fn reject_operator_record(&mut self, log_id: &AnyHash, record_id: &AnyHash, reason: &str)
        -> (r: Result<(), DataStoreError>)
        requires
            old(self).wf(),
        ensures
            final(self).wf(),
            (final(self)@, unit_result_value(r)) == reject_record_spec(
                old(self)@,
                LogKind::Operator,
                log_id@,
                record_id@,
                reason@,
            ),
    {
        self.reject_record(LogKind::Operator, log_id, record_id, reason)
    }

    /// Rejects a pending package record for the reason given.
    pub fn reject_package_record(&mut self, log_id: &AnyHash, record_id: &AnyHash, reason: &str)
        -> (r: Result<(), DataStoreError>)
        requires
            old(self).wf(),
        ensures
            final(self).wf(),
            (final(self)@, unit_result_value(r)) == reject_record_spec(
                old(self)@,
                LogKind::Package,
                log_id@,
                record_id@,
                reason@,
            ),
    {
        self.reject_record(LogKind::Package, log_id, record_id, reason)
    }

    fn take_log(&mut self, kind: LogKind, log_id: &AnyHash) -> (log: Log)
        ensures
            log@ == old(self)@.log(kind, log_id@),
            forall|x: LogValue| #[trigger]
                final(self)@.with_log(kind, log_id@, x) == old(self)@.with_log(kind, log_id@, x),
            final(self)@.records == old(self)@.records,
            final(self)@.checkpoints == old(self)@.checkpoints,
    {
        let found = match kind {
            LogKind::Operator => self.operators.remove(log_id),
            LogKind::Package => self.packages.remove(log_id),
        };
        let log = match found {
            Some(log) => log,
            None => Log::new(kind),
        };
        proof {
            assert forall|x: LogValue| #[trigger]
                self@.with_log(kind, log_id@, x) == old(self)@.with_log(kind, log_id@, x) by {
                let a = self@.with_log(kind, log_id@, x);
                let b = old(self)@.with_log(kind, log_id@, x);
                assert(a.operators =~= b.operators);
                assert(a.packages =~= b.packages);
            }
        }
        log
    }

    fn put_log(&mut self, kind: LogKind, log_id: &AnyHash, log: Log)
        ensures
            final(self)@ == old(self)@.with_log(kind, log_id@, log@),
    {
        match kind {
            LogKind::Operator => self.operators.insert(log_id.copy(), log),
            LogKind::Package => self.packages.insert(log_id.copy(), log),
        }
    }

    fn validate_record(&mut self, kind: LogKind, log_id: &AnyHash, record_id: &AnyHash) -> (r: Result<
        (),
        DataStoreError,
    >)
        requires
            old(self).wf(),
        ensures
            final(self).wf(),
            (final(self)@, unit_result_value(r)) == validate_record_spec(
                old(self)@,
                kind,
                log_id@,
                record_id@,
            ),
    {
        let (envelope, missing) = match self.pending(kind, log_id, record_id) {
            Err(e) => {
                return Err(e);
            },
            Ok(x) => x,
        };
        let ghost s0 = self@;
        let mut log = self.take_log(kind, log_id);
        let outcome = log.append(&envelope);
        let ghost appended = log@;
        self.put_log(kind, log_id, log);
        let status = match &outcome {
            Ok((index, _)) => RecordStatus::Validated {
                kind,
                index: *index,
                checkpoint_index: None,
                missing,
            },
            Err(e) => RecordStatus::Rejected { kind, envelope, reason: e.message() },
        };
        proof {
            lemma_validate_record_inv(s0, kind, log_id@, record_id@, appended, status@);
        }
        self.set_status(log_id, record_id, status);
        match outcome {
            Ok(_) => Ok(()),
            Err(e) => Err(DataStoreError::Validation(e)),
        }
    }

    /// Runs a pending operator record through the validator of its log. An
    /// accepted record is appended to the log and becomes validated; a refused
    /// record becomes rejected with the validator's message as the reason.
    pub fn validate_operator_record(&mut self, log_id: &AnyHash, record_id: &AnyHash) -> (r: Result<
        (),
        DataStoreError,
    >)
        requires
            old(self).wf(),
        ensures
            final(self).wf(),
            (final(self)@, unit_result_value(r)) == validate_record_spec(
                old(self)@,
                LogKind::Operator,
                log_id@,
                record_id@,
            ),
    {
        self.validate_record(LogKind::Operator, log_id, record_id)
    }

    /// Runs a pending package record through the validator of its log,
    /// whatever content it still waits for; a validated record that waits for
    /// content cannot be published.
    pub fn validate_package_record(&mut self, log_id: &AnyHash, record_id: &AnyHash) -> (r: Result<
        (),
        DataStoreError,
    >)
        requires
            old(self).wf(),
        ensures
            final(self).wf(),
            (final(self)@, unit_result_value(r)) == validate_record_spec(
                old(self)@,
                LogKind::Package,
                log_id@,
                record_id@,
            ),
    {
        self.validate_record(LogKind::Package, log_id, record_id)
    }

    /// Whether the pending record still waits for the content with the digest.
    pub fn is_content_missing(&self, log_id: &AnyHash, record_id: &AnyHash, digest: &AnyHash) -> (r:
        Result<bool, DataStoreError>)
        ensures
            bool_result_value(r) == is_content_missing_spec(self@, log_id@, record_id@, digest@),
    {
        match self.lookup(log_id, record_id) {
            Err(e) => Err(e),
            Ok(status) => match status {
                RecordStatus::Pending { kind, envelope, missing } => Ok(missing.contains(digest)),
                _ => Err(DataStoreError::RecordNotPending(record_id.copy())),
            },
        }
    }

    /// Notes that the content with the digest has arrived. Returns `true`
    /// exactly when it was the last content the record waited for.
    pub fn set_content_present(&mut self, log_id: &AnyHash, record_id: &AnyHash, digest: &AnyHash)
        -> (r: Result<bool, DataStoreError>)
        requires
            old(self).wf(),
        ensures
            final(self).wf(),
            (final(self)@, bool_result_value(r)) == set_content_present_spec(
                old(self)@,
                log_id@,
                record_id@,
                digest@,
            ),
    {
        let (kind, envelope, mut missing) = match self.lookup(log_id, record_id) {
            Err(e) => {
                return Err(e);
            },
            Ok(status) => match status {
                RecordStatus::Pending { kind, envelope, missing } => {
                    if missing.is_empty() {
                        return Ok(false);
                    }
                    (*kind, envelope.copy(), missing.copy())
                },
                _ => {
                    return Err(DataStoreError::RecordNotPending(record_id.copy()));
                },
            },
        };
        missing.remove(digest);
        let last = missing.is_empty();
        let status = RecordStatus::Pending { kind, envelope, missing };
        proof {
            assert(self@.placed(log_id@, record_id@));
            lemma_with_status_inv(self@, log_id@, record_id@, status@);
        }
        self.set_status(log_id, record_id, status);
        Ok(last)
    }

    fn log_ref(&self, kind: LogKind, log_id: &AnyHash) -> (r: Option<&Log>)
        ensures
            r is Some <==> self@.logs(kind).contains_key(log_id@),
            r matches Some(log) ==> log@ == self@.logs(kind)[log_id@],
    {
        match kind {
            LogKind::Operator => self.operators.get(log_id),
            LogKind::Package => self.packages.get(log_id),
        }
    }

    fn seal_leaf(&mut self, p: usize, leaf: &LogLeaf) -> (r: Result<(), DataStoreError>)
        requires
            old(self)@.sealed_at_most(p),
        ensures
            final(self)@.sealed_at_most(p),
            match seal_leaf_spec(old(self)@, p, leaf@) {
                Ok(t) => r is Ok && final(self)@ == t,
                Err(e) => r matches Err(x) && x@ == e && final(self)@ == old(self)@,
            },
    {
        let (kind, index, missing) = match self.lookup(&leaf.log_id, &leaf.record_id) {
            Err(e) => {
                return Err(e);
            },
            Ok(status) => match status {
                RecordStatus::Validated { kind, index, checkpoint_index, missing } => {
                    if checkpoint_index.is_some() {
                        return Err(
                            DataStoreError::Rejected("record is already published".to_string()),
                        );
                    }
                    if !missing.is_empty() {
                        return Err(DataStoreError::Rejected("content is missing".to_string()));
                    }
                    (*kind, *index, missing.copy())
                },
                _ => {
                    return Err(DataStoreError::RecordNotFound(leaf.record_id.copy()));
                },
            },
        };
        let ghost s0 = self@;
        let mut log = self.take_log(kind, &leaf.log_id);
        let ghost was = log@;
        proof {
            if was.checkpoint_indices.len() > 0 {
                assert(s0.logs(kind).contains_key(leaf.log_id@));
                assert(s0.logs(kind)[leaf.log_id@].checkpoint_indices[was.checkpoint_indices.len()
                    - 1] <= p);
            }
        }
        let sealed = log.seal(p);
        let ghost now = log@;
        self.put_log(kind, &leaf.log_id, log);
        proof {
            let t = s0.with_log(kind, leaf.log_id@, now);
            assert forall|k: LogKind, l: HashValue, i: int|
                #![trigger t.logs(k)[l].checkpoint_indices[i]]
                t.logs(k).contains_key(l) && 0 <= i < t.logs(k)[l].checkpoint_indices.len() implies t.logs(
                k,
            )[l].checkpoint_indices[i] <= p by {
                if k == kind && l == leaf.log_id@ {
                    if i < was.checkpoint_indices.len() {
                        assert(s0.logs(kind).contains_key(leaf.log_id@));
                        assert(s0.logs(kind)[leaf.log_id@].checkpoint_indices[i] <= p);
                    }
                } else {
                    assert(s0.logs(k).contains_key(l));
                    assert(s0.logs(k)[l].checkpoint_indices[i] <= p);
                }
            }
        }
        let ghost t = self@;
        self.set_status(
            &leaf.log_id,
            &leaf.record_id,
            RecordStatus::Validated { kind, index, checkpoint_index: Some(p), missing },
        );
        proof {
            assert forall|k: LogKind, l: HashValue, i: int|
                #![trigger self@.logs(k)[l].checkpoint_indices[i]]
                self@.logs(k).contains_key(l) && 0 <= i < self@.logs(k)[l].checkpoint_indices.len() implies self@.logs(
                k,
            )[l].checkpoint_indices[i] <= p by {
                assert(self@.logs(k) == t.logs(k));
                assert(t.logs(k)[l].checkpoint_indices[i] <= p);
            }
        }
        Ok(())
    }

    fn unseal_leaf(&mut self, leaf: &LogLeaf, Ghost(before): Ghost<StoreValue>, Ghost(p): Ghost<usize>)
        requires
            before.anchored(),
            seal_leaf_spec(before, p, leaf@) == Ok::<StoreValue, StoreErrorValue>(old(self)@),
        ensures
            final(self)@ == before,
    {
        let (kind, index, missing) = match self.lookup(&leaf.log_id, &leaf.record_id) {
            Ok(RecordStatus::Validated { kind, index, checkpoint_index, missing }) => (
                *kind,
                *index,
                missing.copy(),
            ),
            _ => {
                return ;
            },
        };
        let mut log = self.take_log(kind, &leaf.log_id);
        log.unseal_last();
        self.put_log(kind, &leaf.log_id, log);
        self.set_status(
            &leaf.log_id,
            &leaf.record_id,
            RecordStatus::Validated { kind, index, checkpoint_index: None, missing },
        );
        proof {
            assert(before.anchored_at(leaf.log_id@, leaf.record_id@));
            let was = before.log(kind, leaf.log_id@);
            assert(was.checkpoint_indices.push(p).drop_last() =~= was.checkpoint_indices);
            lemma_unsealed(before, p, leaf@);
        }
    }

    /// Publishes the participants under the checkpoint, in the order given,
    /// and stores the checkpoint under its identifier. Each participant must
    /// be a validated record that is not published yet and waits for no
    /// content. It is all or nothing: when a participant cannot be published,
    /// or a checkpoint is stored under the identifier already, the store stays
    /// as it was.
    pub fn store_checkpoint(
        &mut self,
        checkpoint_id: &AnyHash,
        checkpoint: SignedCheckpoint,
        participants: &Vec<LogLeaf>,
    ) -> (r: Result<(), DataStoreError>)
        requires
            old(self).wf(),
        ensures
            final(self).wf(),
            (final(self)@, unit_result_value(r)) == store_checkpoint_spec(
                old(self)@,
                checkpoint_id@,
                checkpoint@,
                leaf_values(participants@),
            ),
    {
        if self.checkpoints.position(checkpoint_id).is_some() {
            return Err(DataStoreError::Rejected("checkpoint is already stored".to_string()));
        }
        let p = self.checkpoints.len();
        let ghost s0 = self@;
        let ghost key = enc_hash(checkpoint_id@);
        let ghost s1 = StoreValue { checkpoints: s0.checkpoints.push((key, checkpoint@)), ..s0 };
        let ghost leaves = leaf_values(participants@);
        proof {
            assert(leaves.take(0) =~= Seq::<LeafValue>::empty());
        }
        let mut i: usize = 0;
        proof {
            assert(s0.logs_inv(LogKind::Operator));
            assert(s0.logs_inv(LogKind::Package));
            assert forall|kind: LogKind, l: HashValue, j: int|
                #![trigger s0.logs(kind)[l].checkpoint_indices[j]]
                s0.logs(kind).contains_key(l) && 0 <= j < s0.logs(kind)[l].checkpoint_indices.len() implies s0.logs(
                kind,
            )[l].checkpoint_indices[j] <= p by {
                assert(s0.logs_inv(kind));
            }
        }
        while i < participants.len()
            invariant
                i <= participants.len(),
                leaves == leaf_values(participants@),
                old(self)@ == s0,
                !has_entry(s0.checkpoints, key),
                key == enc_hash(checkpoint_id@),
                p == s0.checkpoints.len(),
                s1 == (StoreValue { checkpoints: s0.checkpoints.push((key, checkpoint@)), ..s0 }),
                seal_leaves_spec(s0, p, leaves.take(i as int)).0 == self@,
                seal_leaves_spec(s0, p, leaves.take(i as int)).1 is Ok,
                s0.inv(),
                self@.checkpoints == s0.checkpoints,
                self@.sealed_at_most(p),
            decreases participants.len() - i,
        {
            proof {
                lemma_seal_leaves_step(s0, p, leaves, i as int);
                assert(leaves[i as int] == participants@[i as int]@);
            }
            match self.seal_leaf(p, &participants[i]) {
                Err(e) => {
                    proof {
                        lemma_seal_leaves_fail(s0, p, leaves, i as int + 1);
                        lemma_seal_leaves_pending(s0, s1.checkpoints, p, leaves);
                        lemma_inv_is_anchored(s0);
                    }
                    while i > 0
                        invariant
                            i <= participants.len(),
                            leaves == leaf_values(participants@),
                            seal_leaves_spec(s0, p, leaves.take(i as int)).0 == self@,
                            seal_leaves_spec(s0, p, leaves.take(i as int)).1 is Ok,
                            s0.anchored(),
                        decreases i,
                    {
                        i -= 1;
                        proof {
                            lemma_seal_leaves_step(s0, p, leaves, i as int);
                            lemma_seal_leaves_anchored(s0, p, leaves.take(i as int));
                            assert(leaves[i as int] == participants@[i as int]@);
                        }
                        let ghost earlier = seal_leaves_spec(s0, p, leaves.take(i as int));
                        assert(earlier.1 is Ok);
                        self.unseal_leaf(&participants[i], Ghost(earlier.0), Ghost(p));
                    }
                    assert(leaves.take(0) =~= Seq::<LeafValue>::empty());
                    return Err(e);
                },
                Ok(()) => {
                    i += 1;
                },
            }
        }
        proof {
            assert(leaves.take(participants.len() as int) =~= leaves);
            lemma_seal_leaves_pending(s0, s1.checkpoints, p, leaves);
            lemma_with_checkpoint_inv(s0, key, checkpoint@);
            lemma_seal_leaves(s1, p, leaves);
        }
        let added = self.checkpoints.add(checkpoint_id, checkpoint);
        Ok(())
    }

    /// The checkpoint stored last.
    pub fn get_latest_checkpoint(&self) -> (r: Result<SignedCheckpoint, DataStoreError>)
        ensures
            match r {
                Ok(c) => self@.checkpoints.len() > 0 && c@ == self@.checkpoints.last().1,
                Err(e) => self@.checkpoints.len() == 0 && e@ == StoreErrorValue::Rejected(
                    "no checkpoint is stored"@,
                ),
            },
    {
        let n = self.checkpoints.len();
        if n == 0 {
            return Err(DataStoreError::Rejected("no checkpoint is stored".to_string()));
        }
        match self.checkpoints.get(n - 1) {
            Some(c) => Ok(c.copy()),
            None => Err(DataStoreError::Rejected("no checkpoint is stored".to_string())),
        }
    }

    /// The leaves to rebuild the transparency state from. Nothing in this
    /// store outlives the process, so there are none.
    pub fn get_initial_leaves(&self) -> (leaves: Vec<LogLeaf>)
        ensures
            leaves@.len() == 0,
    {
        Vec::new()
    }

    fn get_records(
        &self,
        kind: LogKind,
        log_id: &AnyHash,
        root: &AnyHash,
        since: Option<&AnyHash>,
        limit: u16,
    ) -> (r: Result<Vec<Envelope>, DataStoreError>)
        requires
            self.wf(),
        ensures
            match get_records_spec(self@, kind, log_id@, root@, optional_id_value(since), limit) {
                Ok(window) => r matches Ok(out) && envelope_values(out@) == window,
                Err(e) => r matches Err(x) && x@ == e,
            },
    {
        let log = match self.log_ref(kind, log_id) {
            None => {
                return Err(DataStoreError::LogNotFound(log_id.copy()));
            },
            Some(log) => log,
        };
        let p = match self.checkpoints.position(root) {
            None => {
                return Err(DataStoreError::CheckpointNotFound(root.copy()));
            },
            Some(p) => p,
        };
        proof {
            lemma_checkpoint_position(self@, root@, p as int);
        }
        let start: usize = match since {
            None => 0,
            Some(record_id) => match self.lookup(log_id, record_id) {
                Err(_) => {
                    return Err(DataStoreError::RecordNotFound(record_id.copy()));
                },
                Ok(status) => match status {
                    RecordStatus::Validated { kind: k, index, .. } => {
                        if *k != kind {
                            return Err(DataStoreError::RecordNotFound(record_id.copy()));
                        }
                        assert(self@.placed(log_id@, record_id@));
                        let n = log.len();
                        *index + 1
                    },
                    _ => {
                        return Err(DataStoreError::RecordNotFound(record_id.copy()));
                    },
                },
            },
        };
        Ok(log.fetch(start, p, limit as usize))
    }

    /// The records of the operator log that were published at or before the
    /// checkpoint `root`, after the record `since` if one is given, `limit` of
    /// them at most, in the order of the log.
    pub fn get_operator_records(
        &self,
        log_id: &AnyHash,
        root: &AnyHash,
        since: Option<&AnyHash>,
        limit: u16,
    ) -> (r: Result<Vec<Envelope>, DataStoreError>)
        requires
            self.wf(),
        ensures
            match get_records_spec(
                self@,
                LogKind::Operator,
                log_id@,
                root@,
                optional_id_value(since),
                limit,
            ) {
                Ok(window) => r matches Ok(out) && envelope_values(out@) == window,
                Err(e) => r matches Err(x) && x@ == e,
            },
    {
        self.get_records(LogKind::Operator, log_id, root, since, limit)
    }

    /// The records of a package log that were published at or before the
    /// checkpoint `root`, after the record `since` if one is given, `limit` of
    /// them at most, in the order of the log.
    pub fn get_package_records(
        &self,
        log_id: &AnyHash,
        root: &AnyHash,
        since: Option<&AnyHash>,
        limit: u16,
    ) -> (r: Result<Vec<Envelope>, DataStoreError>)
        requires
            self.wf(),
        ensures
            match get_records_spec(
                self@,
                LogKind::Package,
                log_id@,
                root@,
                optional_id_value(since),
                limit,
            ) {
                Ok(window) => r matches Ok(out) && envelope_values(out@) == window,
                Err(e) => r matches Err(x) && x@ == e,
            },
    {
        self.get_records(LogKind::Package, log_id, root, since, limit)
    }

    fn get_record(&self, kind: LogKind, log_id: &AnyHash, record_id: &AnyHash) -> (r: Result<
        StoredRecord,
        DataStoreError,
    >)
        requires
            self.wf(),
        ensures
            match get_record_spec(self@, kind, log_id@, record_id@) {
                Ok(v) => r matches Ok(x) && x@ == v,
                Err(e) => r matches Err(x) && x@ == e,
            },
    {
        let status = match self.lookup(log_id, record_id) {
            Err(e) => {
                return Err(e);
            },
            Ok(status) => status,
        };
        match status {
            RecordStatus::Pending { kind: k, envelope, missing } => {
                if *k != kind {
                    return Err(DataStoreError::RecordNotFound(record_id.copy()));
                }
                Ok(
                    StoredRecord {
                        status: PublicStatus::Pending,
                        envelope: envelope.copy(),
                        checkpoint: None,
                    },
                )
            },
            RecordStatus::Rejected { kind: k, envelope, reason } => {
                if *k != kind {
                    return Err(DataStoreError::RecordNotFound(record_id.copy()));
                }
                Ok(
                    StoredRecord {
                        status: PublicStatus::Rejected(reason.clone()),
                        envelope: envelope.copy(),
                        checkpoint: None,
                    },
                )
            },
            RecordStatus::Validated { kind: k, index, checkpoint_index, missing } => {
                if *k != kind {
                    return Err(DataStoreError::RecordNotFound(record_id.copy()));
                }
                assert(self@.placed(log_id@, record_id@));
                let log = match self.log_ref(kind, log_id) {
                    None => {
                        return Err(DataStoreError::LogNotFound(log_id.copy()));
                    },
                    Some(log) => log,
                };
                let envelope = match log.entry(*index) {
                    None => {
                        return Err(DataStoreError::RecordNotFound(record_id.copy()));
                    },
                    Some(e) => e.copy(),
                };
                match checkpoint_index {
                    None => Ok(
                        StoredRecord { status: PublicStatus::Validated, envelope, checkpoint: None },
                    ),
                    Some(c) => match self.checkpoints.get(*c) {
                        None => Err(DataStoreError::RecordNotFound(record_id.copy())),
                        Some(checkpoint) => Ok(
                            StoredRecord {
                                status: PublicStatus::Published,
                                envelope,
                                checkpoint: Some(checkpoint.copy()),
                            },
                        ),
                    },
                }
            },
        }
    }

    /// The operator record with its status and, once it is published, the
    /// checkpoint that published it.
    pub fn get_operator_record(&self, log_id: &AnyHash, record_id: &AnyHash) -> (r: Result<
        StoredRecord,
        DataStoreError,
    >)
        requires
            self.wf(),
        ensures
            match get_record_spec(self@, LogKind::Operator, log_id@, record_id@) {
                Ok(v) => r matches Ok(x) && x@ == v,
                Err(e) => r matches Err(x) && x@ == e,
            },
    {
        self.get_record(LogKind::Operator, log_id, record_id)
    }

    /// The package record with its status and, once it is published, the
    /// checkpoint that published it.
    pub fn get_package_record(&self, log_id: &AnyHash, record_id: &AnyHash) -> (r: Result<
        StoredRecord,
        DataStoreError,
    >)
        requires
            self.wf(),
        ensures
            match get_record_spec(self@, LogKind::Package, log_id@, record_id@) {
                Ok(v) => r matches Ok(x) && x@ == v,
                Err(e) => r matches Err(x) && x@ == e,
            },
    {
        self.get_record(LogKind::Package, log_id, record_id)
    }
}

/// The status of a record as readers see it.
#[derive(Clone, Debug, PartialEq, Eq)]
pub enum PublicStatus {
    Pending,
    Rejected(String),
    Validated,
    Published,
}

/// The mathematical value of a [`PublicStatus`].
pub ghost enum PublicStatusValue {
    Pending,
    Rejected(Seq<char>),
    Validated,
    Published,
}

impl View for PublicStatus {
    type V = PublicStatusValue;

    open spec fn view(&self) -> PublicStatusValue {
        match self {
            PublicStatus::Pending => PublicStatusValue::Pending,
            PublicStatus::Rejected(reason) => PublicStatusValue::Rejected(reason@),
            PublicStatus::Validated => PublicStatusValue::Validated,
            PublicStatus::Published => PublicStatusValue::Published,
        }
    }
}

/// A record as the store hands it out.
#[derive(Clone, Debug, PartialEq, Eq)]
pub struct StoredRecord {
    pub status: PublicStatus,
    pub envelope: Envelope,
    /// The checkpoint that published the record, once it is published.
    pub checkpoint: Option<SignedCheckpoint>,
}

/// The mathematical value of a [`StoredRecord`].
pub ghost struct StoredRecordValue {
    pub status: PublicStatusValue,
    pub envelope: EnvelopeValue,
    pub checkpoint: Option<CheckpointValue>,
}

impl View for StoredRecord {
    type V = StoredRecordValue;

    open spec fn view(&self) -> StoredRecordValue {
        StoredRecordValue {
            status: self.status@,
            envelope: self.envelope@,
            checkpoint: optional_checkpoint_value(self.checkpoint),
        }
    }
}

/// The values of a sequence of leaves, in order.
pub open spec fn leaf_values(leaves: Seq<LogLeaf>) -> Seq<LeafValue> {
    Seq::new(leaves.len(), |i: int| leaves[i]@)
}

/// The value of an optional identifier.
pub open spec fn optional_id_value(id: Option<&AnyHash>) -> Option<HashValue> {
    match id {
        Some(id) => Some(id@),
        None => None,
    }
}

/// The store after one record was published under the checkpoint at
/// position `p`, or why the record cannot be published: it is not validated,
/// it is published already, or content it waits for has not arrived.
pub open spec fn seal_leaf_spec(s: StoreValue, p: usize, leaf: LeafValue) -> Result<
    StoreValue,
    StoreErrorValue,
> {
    if !s.records.contains_key(leaf.log_id) {
        Err(StoreErrorValue::LogNotFound(leaf.log_id))
    } else {
        match s.status(leaf.log_id, leaf.record_id) {
            Some(StatusValue::Validated { kind, index, checkpoint_index, missing }) => {
                let log = s.log(kind, leaf.log_id);
                if checkpoint_index is Some {
                    Err(StoreErrorValue::Rejected("record is already published"@))
                } else if missing != Set::<HashValue>::empty() {
                    Err(StoreErrorValue::Rejected("content is missing"@))
                } else {
                    Ok(
                        s.with_log(
                            kind,
                            leaf.log_id,
                            LogValue { checkpoint_indices: log.checkpoint_indices.push(p), ..log },
                        ).with_status(
                            leaf.log_id,
                            leaf.record_id,
                            StatusValue::Validated { kind, index, checkpoint_index: Some(p), missing },
                        ),
                    )
                }
            },
            _ => Err(StoreErrorValue::RecordNotFound(leaf.record_id)),
        }
    }
}

/// The store after the records were published one after another; the first
/// that cannot be published ends it.
pub open spec fn seal_leaves_spec(s: StoreValue, p: usize, leaves: Seq<LeafValue>) -> (
    StoreValue,
    Result<(), StoreErrorValue>,
)
    decreases leaves.len(),
{
    if leaves.len() == 0 {
        (s, Ok(()))
    } else {
        match seal_leaf_spec(s, p, leaves[0]) {
            Err(e) => (s, Err(e)),
            Ok(t) => seal_leaves_spec(t, p, leaves.skip(1)),
        }
    }
}

/// The store after a checkpoint was handed in with its participants.
pub open spec fn store_checkpoint_spec(
    s: StoreValue,
    id: HashValue,
    checkpoint: CheckpointValue,
    leaves: Seq<LeafValue>,
) -> (StoreValue, Result<(), StoreErrorValue>) {
    if has_entry(s.checkpoints, enc_hash(id)) {
        (s, Err(StoreErrorValue::Rejected("checkpoint is already stored"@)))
    } else {
        match seal_leaves_spec(
            StoreValue { checkpoints: s.checkpoints.push((enc_hash(id), checkpoint)), ..s },
            s.checkpoints.len() as usize,
            leaves,
        ) {
            (t, Ok(())) => (t, Ok(())),
            (t, Err(e)) => (s, Err(e)),
        }
    }
}

/// Publishing the first `i + 1` records is publishing the first `i` and then
/// the next one.
pub proof fn lemma_seal_leaves_step(s: StoreValue, p: usize, leaves: Seq<LeafValue>, i: int)
    requires
        0 <= i < leaves.len(),
    ensures
        seal_leaves_spec(s, p, leaves.take(i + 1)) == match seal_leaves_spec(s, p, leaves.take(i)) {
            (t, Ok(())) => match seal_leaf_spec(t, p, leaves[i]) {
                Ok(u) => (u, Ok::<(), StoreErrorValue>(())),
                Err(e) => (t, Err(e)),
            },
            (t, Err(e)) => (t, Err(e)),
        },
    decreases i,
{
    if i == 0 {
        reveal_with_fuel(seal_leaves_spec, 2);
        assert(leaves.take(1).skip(1) =~= Seq::<LeafValue>::empty());
        assert(leaves.take(0) =~= Seq::<LeafValue>::empty());
        assert(leaves.take(1)[0] == leaves[0]);
    } else {
        let rest = leaves.skip(1);
        assert(leaves.take(i + 1).skip(1) =~= rest.take(i));
        assert(leaves.take(i).skip(1) =~= rest.take(i - 1));
        assert(leaves.take(i + 1)[0] == leaves[0]);
        assert(leaves.take(i)[0] == leaves[0]);
        assert(rest[i - 1] == leaves[i]);
        match seal_leaf_spec(s, p, leaves[0]) {
            Err(e) => {},
            Ok(t) => {
                lemma_seal_leaves_step(t, p, rest, i - 1);
            },
        }
    }
}

/// A record that cannot be published ends the publishing of every longer
/// list with the same error.
pub proof fn lemma_seal_leaves_fail(s: StoreValue, p: usize, leaves: Seq<LeafValue>, n: int)
    requires
        0 <= n <= leaves.len(),
        seal_leaves_spec(s, p, leaves.take(n)).1 is Err,
    ensures
        seal_leaves_spec(s, p, leaves).1 == seal_leaves_spec(s, p, leaves.take(n)).1,
    decreases n,
{
    if n == 0 {
        assert(leaves.take(0) =~= Seq::<LeafValue>::empty());
    } else {
        let rest = leaves.skip(1);
        assert(leaves.take(n).skip(1) =~= rest.take(n - 1));
        assert(leaves.take(n)[0] == leaves[0]);
        match seal_leaf_spec(s, p, leaves[0]) {
            Err(e) => {},
            Ok(t) => {
                lemma_seal_leaves_fail(t, p, rest, n - 1);
            },
        }
    }
}

/// Publishing records does not look at the checkpoints: with other
/// checkpoints in the store it goes the same way.
pub proof fn lemma_seal_leaves_pending(
    s: StoreValue,
    checkpoints: Seq<(Seq<u8>, CheckpointValue)>,
    p: usize,
    leaves: Seq<LeafValue>,
)
    ensures
        seal_leaves_spec(StoreValue { checkpoints, ..s }, p, leaves).1 == seal_leaves_spec(
            s,
            p,
            leaves,
        ).1,
        seal_leaves_spec(StoreValue { checkpoints, ..s }, p, leaves).0 == (StoreValue {
            checkpoints,
            ..seal_leaves_spec(s, p, leaves).0
        }),
    decreases leaves.len(),
{
    if leaves.len() > 0 {
        let with = StoreValue { checkpoints, ..s };
        assert(with.status(leaves[0].log_id, leaves[0].record_id) == s.status(
            leaves[0].log_id,
            leaves[0].record_id,
        ));
        match seal_leaf_spec(s, p, leaves[0]) {
            Err(e) => {},
            Ok(t) => {
                assert(seal_leaf_spec(with, p, leaves[0]) == Ok::<StoreValue, StoreErrorValue>(
                    StoreValue { checkpoints, ..t },
                ));
                lemma_seal_leaves_pending(t, checkpoints, p, leaves.skip(1));
            },
        }
    }
}

/// The records of a log that a reader gets for a checkpoint.
pub open spec fn get_records_spec(
    s: StoreValue,
    kind: LogKind,
    log_id: HashValue,
    root: HashValue,
    since: Option<HashValue>,
    limit: u16,
) -> Result<Seq<EnvelopeValue>, StoreErrorValue> {
    if !s.logs(kind).contains_key(log_id) {
        Err(StoreErrorValue::LogNotFound(log_id))
    } else {
        match s.checkpoint_position(root) {
            None => Err(StoreErrorValue::CheckpointNotFound(root)),
            Some(p) => match since {
                None => Ok(s.logs(kind)[log_id].window(0, p as usize, limit as int)),
                Some(r) => match s.status(log_id, r) {
                    Some(StatusValue::Validated { kind: k, index, checkpoint_index, missing }) => if k
                        == kind {
                        Ok(s.logs(kind)[log_id].window(index + 1, p as usize, limit as int))
                    } else {
                        Err(StoreErrorValue::RecordNotFound(r))
                    },
                    _ => Err(StoreErrorValue::RecordNotFound(r)),
                },
            },
        }
    }
}

/// The record as a reader gets it.
pub open spec fn get_record_spec(s: StoreValue, kind: LogKind, log_id: HashValue, record_id: HashValue)
    -> Result<StoredRecordValue, StoreErrorValue> {
    if !s.records.contains_key(log_id) {
        Err(StoreErrorValue::LogNotFound(log_id))
    } else {
        match s.status(log_id, record_id) {
            None => Err(StoreErrorValue::RecordNotFound(record_id)),
            Some(StatusValue::Pending { kind: k, envelope, missing }) => if k == kind {
                Ok(
                    StoredRecordValue {
                        status: PublicStatusValue::Pending,
                        envelope,
                        checkpoint: None,
                    },
                )
            } else {
                Err(StoreErrorValue::RecordNotFound(record_id))
            },
            Some(StatusValue::Rejected { kind: k, envelope, reason }) => if k == kind {
                Ok(
                    StoredRecordValue {
                        status: PublicStatusValue::Rejected(reason),
                        envelope,
                        checkpoint: None,
                    },
                )
            } else {
                Err(StoreErrorValue::RecordNotFound(record_id))
            },
            Some(StatusValue::Validated { kind: k, index, checkpoint_index, missing }) => if k
                == kind {
                let log = s.log(kind, log_id);
                match checkpoint_index {
                    Some(c) => Ok(
                        StoredRecordValue {
                            status: PublicStatusValue::Published,
                            envelope: log.entries[index as int],
                            checkpoint: Some(s.checkpoints[c as int].1),
                        },
                    ),
                    None => Ok(
                        StoredRecordValue {
                            status: PublicStatusValue::Validated,
                            envelope: log.entries[index as int],
                            checkpoint: None,
                        },
                    ),
                }
            } else {
                Err(StoreErrorValue::RecordNotFound(record_id))
            },
        }
    }
}

/// Among distinct keys, the position found for an identifier is its position.
pub proof fn lemma_checkpoint_position(s: StoreValue, id: HashValue, p: int)
    requires
        s.inv(),
        0 <= p < s.checkpoints.len(),
        s.checkpoints[p].0 == enc_hash(id),
    ensures
        s.checkpoint_position(id) == Some(p),
{
    let q = choose|i: int| 0 <= i < s.checkpoints.len() && s.checkpoints[i].0 == enc_hash(id);
    if q < p {
        assert(s.checkpoints[q].0 != s.checkpoints[p].0);
    } else if p < q {
        assert(s.checkpoints[p].0 != s.checkpoints[q].0);
    }
}

/// Appending a checkpoint under a key the store does not hold keeps the
/// invariant.
pub proof fn lemma_with_checkpoint_inv(s: StoreValue, key: Seq<u8>, checkpoint: CheckpointValue)
    requires
        s.inv(),
        !has_entry(s.checkpoints, key),
    ensures
        (StoreValue { checkpoints: s.checkpoints.push((key, checkpoint)), ..s }).inv(),
{
    let t = StoreValue { checkpoints: s.checkpoints.push((key, checkpoint)), ..s };
    assert forall|k: LogKind, l: HashValue| #[trigger]
        t.logs(k).contains_key(l) implies t.logs(k)[l].inv(k) && forall|i: int|
        0 <= i < t.logs(k)[l].checkpoint_indices.len() ==> (#[trigger] t.logs(
            k,
        )[l].checkpoint_indices[i]) < t.checkpoints.len() by {
        assert(s.logs(k).contains_key(l));
        assert(t.logs(k)[l] == s.logs(k)[l]);
    }
    assert(t.logs_inv(LogKind::Operator));
    assert(t.logs_inv(LogKind::Package));
    assert forall|l: HashValue, r: HashValue| #[trigger] t.placed(l, r) by {
        assert(t.status(l, r) == s.status(l, r));
        assert(s.placed(l, r));
    }
    assert forall|i: int, j: int| 0 <= i < j < t.checkpoints.len() implies (
    #[trigger] t.checkpoints[i]).0 != (#[trigger] t.checkpoints[j]).0 by {
        if j == s.checkpoints.len() {
            assert(s.checkpoints[i].0 != key);
        } else {
            assert(s.checkpoints[i].0 != s.checkpoints[j].0);
        }
    }
}

/// Setting the status of a record keeps the invariant, provided the status
/// fits the record.
pub proof fn lemma_with_status_inv(
    s: StoreValue,
    log_id: HashValue,
    record_id: HashValue,
    status: StatusValue,
)
    requires
        s.inv(),
        s.fits(log_id, record_id, status),
    ensures
        s.with_status(log_id, record_id, status).inv(),
{
    let t = s.with_status(log_id, record_id, status);
    assert(t.logs(LogKind::Operator) == s.logs(LogKind::Operator));
    assert(t.logs(LogKind::Package) == s.logs(LogKind::Package));
    assert forall|l: HashValue, r: HashValue| #[trigger] t.placed(l, r) by {
        if l == log_id && r == record_id {
        } else {
            assert(t.status(l, r) == s.status(l, r));
            assert(s.placed(l, r));
        }
    }
}

/// Validating a pending record keeps the invariant: the log with the record
/// appended, or the log as it was, is put in place, and the record becomes
/// validated at the position it got, or rejected.
pub proof fn lemma_validate_record_inv(
    s: StoreValue,
    kind: LogKind,
    log_id: HashValue,
    record_id: HashValue,
    log: LogValue,
    status: StatusValue,
)
    requires
        s.inv(),
        s.status(log_id, record_id) matches Some(StatusValue::Pending { kind: k, envelope, missing })
            && k == kind && match status {
            StatusValue::Validated { kind: k2, index, checkpoint_index, missing: m2 } => k2 == kind
                && checkpoint_index is None && m2 == missing && index == s.log(
                kind,
                log_id,
            ).entries.len() && log == (LogValue {
                entries: s.log(kind, log_id).entries.push(envelope),
                state: log.state,
                ..s.log(kind, log_id)
            }),
            StatusValue::Rejected { kind: k2, envelope: e2, reason } => e2 == envelope && log
                == s.log(kind, log_id),
            _ => false,
        },
        log.inv(kind),
    ensures
        s.with_log(kind, log_id, log).inv(),
        s.with_log(kind, log_id, log).with_status(log_id, record_id, status).inv(),
{
    assert(s.placed(log_id, record_id));
    assert(s.logs_inv(kind));
    let old_log = s.log(kind, log_id);
    assert forall|i: int| 0 <= i < log.checkpoint_indices.len() implies (
    #[trigger] log.checkpoint_indices[i]) < s.checkpoints.len() by {
        if s.logs(kind).contains_key(log_id) {
            assert(log.checkpoint_indices[i] == s.logs(kind)[log_id].checkpoint_indices[i]);
        }
    }
    lemma_with_log_inv(s, kind, log_id, log);
    let t = s.with_log(kind, log_id, log);
    assert(t.status(log_id, record_id) == s.status(log_id, record_id));
    lemma_with_status_inv(t, log_id, record_id, status);
}

/// Putting a log in place keeps the invariant, provided the log keeps its own
/// invariant, is sealed only under checkpoints the store holds, and begins
/// with the entries of the log it replaces.
pub proof fn lemma_with_log_inv(s: StoreValue, kind: LogKind, log_id: HashValue, log: LogValue)
    requires
        s.inv(),
        log.inv(kind),
        s.log(kind, log_id).entries.is_prefix_of(log.entries),
        forall|i: int|
            0 <= i < log.checkpoint_indices.len() ==> (#[trigger] log.checkpoint_indices[i])
                < s.checkpoints.len(),
    ensures
        s.with_log(kind, log_id, log).inv(),
{
    let t = s.with_log(kind, log_id, log);
    assert forall|k: LogKind, l: HashValue| #[trigger]
        t.logs(k).contains_key(l) implies t.logs(k)[l].inv(k) && forall|i: int|
        0 <= i < t.logs(k)[l].checkpoint_indices.len() ==> (#[trigger] t.logs(
            k,
        )[l].checkpoint_indices[i]) < t.checkpoints.len() by {
        if k == kind && l == log_id {
        } else {
            assert(s.logs(k).contains_key(l));
            assert(t.logs(k)[l] == s.logs(k)[l]);
        }
    }
    assert(t.logs_inv(LogKind::Operator));
    assert(t.logs_inv(LogKind::Package));
    assert forall|l: HashValue, r: HashValue| #[trigger] t.placed(l, r) by {
        assert(t.status(l, r) == s.status(l, r));
        assert(s.placed(l, r));
    }
}

/// Whether the record of the leaf is validated and published under the
/// checkpoint at position `p`.
pub open spec fn sealed_under(t: StoreValue, leaf: LeafValue, p: usize) -> bool {
    t.status(leaf.log_id, leaf.record_id) matches Some(
        StatusValue::Validated { kind, index, checkpoint_index, missing },
    ) && checkpoint_index == Some(p)
}

/// A store that keeps its invariant has every validated record in a log.
pub proof fn lemma_inv_is_anchored(s: StoreValue)
    requires
        s.inv(),
    ensures
        s.anchored(),
{
    assert forall|l: HashValue, r: HashValue| #[trigger] s.anchored_at(l, r) by {
        assert(s.placed(l, r));
    }
}

/// Publishing one record touches no other record, keeps the checkpoints, the
/// entries and the state of every log, and keeps every validated record in a
/// log.
pub proof fn lemma_seal_leaf_frame(s: StoreValue, p: usize, leaf: LeafValue)
    requires
        seal_leaf_spec(s, p, leaf) is Ok,
    ensures
        ({
            let t = seal_leaf_spec(s, p, leaf)->Ok_0;
            &&& t.checkpoints == s.checkpoints
            &&& sealed_under(t, leaf, p)
            &&& forall|l: HashValue, r: HashValue|
                (l != leaf.log_id || r != leaf.record_id) ==> #[trigger] t.status(l, r) == s.status(
                    l,
                    r,
                )
            &&& forall|k: LogKind, l: HashValue| #[trigger]
                s.logs(k).contains_key(l) ==> t.logs(k).contains_key(l) && t.logs(k)[l].entries
                    == s.logs(k)[l].entries && t.logs(k)[l].state == s.logs(k)[l].state
            &&& s.anchored() ==> t.anchored()
        }),
{
    let t = seal_leaf_spec(s, p, leaf)->Ok_0;
    let kind = s.status(leaf.log_id, leaf.record_id)->0->Validated_kind;
    assert forall|l: HashValue, r: HashValue|
        (l != leaf.log_id || r != leaf.record_id) implies #[trigger] t.status(l, r) == s.status(
        l,
        r,
    ) by {}
    if s.anchored() {
        assert forall|l: HashValue, r: HashValue| #[trigger] t.anchored_at(l, r) by {
            if l == leaf.log_id && r == leaf.record_id {
            } else {
                assert(t.status(l, r) == s.status(l, r));
                assert(s.anchored_at(l, r));
            }
        }
    }
}

/// Taking the seal off a record that was just published gives the store as
/// it was.
pub proof fn lemma_unsealed(s: StoreValue, p: usize, leaf: LeafValue)
    requires
        seal_leaf_spec(s, p, leaf) is Ok,
        s.logs(s.status(leaf.log_id, leaf.record_id)->0->Validated_kind).contains_key(leaf.log_id),
    ensures
        ({
            let t = seal_leaf_spec(s, p, leaf)->Ok_0;
            let kind = s.status(leaf.log_id, leaf.record_id)->0->Validated_kind;
            t.with_log(kind, leaf.log_id, s.logs(kind)[leaf.log_id]).with_status(
                leaf.log_id,
                leaf.record_id,
                s.status(leaf.log_id, leaf.record_id)->0,
            ) == s
        }),
{
    let t = seal_leaf_spec(s, p, leaf)->Ok_0;
    let kind = s.status(leaf.log_id, leaf.record_id)->0->Validated_kind;
    let u = t.with_log(kind, leaf.log_id, s.logs(kind)[leaf.log_id]).with_status(
        leaf.log_id,
        leaf.record_id,
        s.status(leaf.log_id, leaf.record_id)->0,
    );
    assert(u.operators =~= s.operators);
    assert(u.packages =~= s.packages);
    assert(u.records[leaf.log_id] =~= s.records[leaf.log_id]);
    assert(u.records =~= s.records);
}

/// Publishing one record under the last checkpoint of the store keeps the
/// invariant.
pub proof fn lemma_seal_leaf(s: StoreValue, p: usize, leaf: LeafValue)
    requires
        s.inv(),
        p + 1 == s.checkpoints.len(),
        seal_leaf_spec(s, p, leaf) is Ok,
    ensures
        seal_leaf_spec(s, p, leaf)->Ok_0.inv(),
{
    let kind = s.status(leaf.log_id, leaf.record_id)->0->Validated_kind;
    let index = s.status(leaf.log_id, leaf.record_id)->0->Validated_index;
    let missing = s.status(leaf.log_id, leaf.record_id)->0->Validated_missing;
    assert(s.placed(leaf.log_id, leaf.record_id));
    assert(s.logs_inv(kind));
    let log = s.logs(kind)[leaf.log_id];
    let sealed = LogValue { checkpoint_indices: log.checkpoint_indices.push(p), ..log };
    if log.checkpoint_indices.len() > 0 {
        assert(log.checkpoint_indices[log.checkpoint_indices.len() - 1] < s.checkpoints.len());
    }
    crate::log::lemma_push_non_decreasing(log.checkpoint_indices, p);
    assert forall|i: int| 0 <= i < sealed.checkpoint_indices.len() implies (
    #[trigger] sealed.checkpoint_indices[i]) < s.checkpoints.len() by {
        if i < log.checkpoint_indices.len() {
            assert(sealed.checkpoint_indices[i] == log.checkpoint_indices[i]);
        }
    }
    lemma_with_log_inv(s, kind, leaf.log_id, sealed);
    let t1 = s.with_log(kind, leaf.log_id, sealed);
    lemma_with_status_inv(
        t1,
        leaf.log_id,
        leaf.record_id,
        StatusValue::Validated { kind, index, checkpoint_index: Some(p), missing },
    );
}

/// Publishing records one after another under the last checkpoint of the
/// store keeps the invariant and publishes each of them under it.
pub proof fn lemma_seal_leaves(s: StoreValue, p: usize, leaves: Seq<LeafValue>)
    requires
        s.inv(),
        p + 1 == s.checkpoints.len(),
        seal_leaves_spec(s, p, leaves).1 is Ok,
    ensures
        seal_leaves_spec(s, p, leaves).0.inv(),
        seal_leaves_spec(s, p, leaves).0.checkpoints == s.checkpoints,
        forall|k: int|
            0 <= k < leaves.len() ==> sealed_under(
                seal_leaves_spec(s, p, leaves).0,
                #[trigger] leaves[k],
                p,
            ),
    decreases leaves.len(),
{
    if leaves.len() > 0 {
        let mid = seal_leaf_spec(s, p, leaves[0])->Ok_0;
        let rest = leaves.skip(1);
        let t = seal_leaves_spec(s, p, leaves).0;
        lemma_seal_leaf(s, p, leaves[0]);
        lemma_seal_leaf_frame(s, p, leaves[0]);
        lemma_seal_leaves(mid, p, rest);
        lemma_seal_leaves_keep_sealed(mid, p, rest, leaves[0]);
        assert forall|k: int| 0 <= k < leaves.len() implies sealed_under(
            t,
            #[trigger] leaves[k],
            p,
        ) by {
            if k > 0 {
                assert(rest[k - 1] == leaves[k]);
            }
        }
    }
}

/// A record that is published under a checkpoint stays so while further
/// records are published.
pub proof fn lemma_seal_leaves_keep_sealed(
    s: StoreValue,
    p: usize,
    leaves: Seq<LeafValue>,
    leaf: LeafValue,
)
    requires
        sealed_under(s, leaf, p),
        seal_leaves_spec(s, p, leaves).1 is Ok,
    ensures
        sealed_under(seal_leaves_spec(s, p, leaves).0, leaf, p),
    decreases leaves.len(),
{
    if leaves.len() > 0 {
        let mid = seal_leaf_spec(s, p, leaves[0])->Ok_0;
        lemma_seal_leaf_frame(s, p, leaves[0]);
        if leaves[0].log_id == leaf.log_id && leaves[0].record_id == leaf.record_id {
        } else {
            assert(mid.status(leaf.log_id, leaf.record_id) == s.status(
                leaf.log_id,
                leaf.record_id,
            ));
        }
        lemma_seal_leaves_keep_sealed(mid, p, leaves.skip(1), leaf);
    }
}

/// Publishing records keeps every validated record in a log.
pub proof fn lemma_seal_leaves_anchored(s: StoreValue, p: usize, leaves: Seq<LeafValue>)
    requires
        s.anchored(),
    ensures
        seal_leaves_spec(s, p, leaves).0.anchored(),
    decreases leaves.len(),
{
    if leaves.len() > 0 {
        match seal_leaf_spec(s, p, leaves[0]) {
            Err(e) => {},
            Ok(t) => {
                lemma_seal_leaf_frame(s, p, leaves[0]);
                lemma_seal_leaves_anchored(t, p, leaves.skip(1));
            },
        }
    }
}

/// Publishing records touches no record that is not among them.
pub proof fn lemma_seal_leaves_frame(
    s: StoreValue,
    p: usize,
    leaves: Seq<LeafValue>,
    l: HashValue,
    r: HashValue,
)
    requires
        forall|k: int|
            0 <= k < leaves.len() ==> (#[trigger] leaves[k]) != (LeafValue {
                log_id: l,
                record_id: r,
            }),
    ensures
        seal_leaves_spec(s, p, leaves).0.status(l, r) == s.status(l, r),
    decreases leaves.len(),
{
    if leaves.len() > 0 {
        assert(leaves[0] != (LeafValue { log_id: l, record_id: r }));
        match seal_leaf_spec(s, p, leaves[0]) {
            Err(e) => {},
            Ok(t) => {
                lemma_seal_leaf_frame(s, p, leaves[0]);
                assert forall|k: int| 0 <= k < leaves.skip(1).len() implies (
                #[trigger] leaves.skip(1)[k]) != (LeafValue { log_id: l, record_id: r }) by {
                    assert(leaves.skip(1)[k] == leaves[k + 1]);
                }
                lemma_seal_leaves_frame(t, p, leaves.skip(1), l, r);
            },
        }
    }
}

/// After a checkpoint is stored, every participant reads as published, with
/// its envelope and the checkpoint, and a record that is no participant
/// keeps its status.
pub proof fn lemma_participants_are_published(
    s: StoreValue,
    id: HashValue,
    checkpoint: CheckpointValue,
    leaves: Seq<LeafValue>,
    k: int,
)
    requires
        s.inv(),
        s.checkpoints.len() < usize::MAX,
        store_checkpoint_spec(s, id, checkpoint, leaves).1 is Ok,
        0 <= k < leaves.len(),
    ensures
        ({
            let t = store_checkpoint_spec(s, id, checkpoint, leaves).0;
            &&& t.inv()
            &&& t.checkpoints == s.checkpoints.push((enc_hash(id), checkpoint))
            &&& t.status(leaves[k].log_id, leaves[k].record_id) matches Some(
                StatusValue::Validated { kind, index, checkpoint_index, missing },
            ) && get_record_spec(t, kind, leaves[k].log_id, leaves[k].record_id) == Ok::<
                StoredRecordValue,
                StoreErrorValue,
            >(
                StoredRecordValue {
                    status: PublicStatusValue::Published,
                    envelope: t.logs(kind)[leaves[k].log_id].entries[index as int],
                    checkpoint: Some(checkpoint),
                },
            )
            &&& forall|l: HashValue, r: HashValue|
                (forall|j: int|
                    0 <= j < leaves.len() ==> (#[trigger] leaves[j]) != (LeafValue {
                        log_id: l,
                        record_id: r,
                    })) ==> #[trigger] t.status(l, r) == s.status(l, r)
        }),
{
    let p = s.checkpoints.len() as usize;
    let s1 = StoreValue { checkpoints: s.checkpoints.push((enc_hash(id), checkpoint)), ..s };
    lemma_with_checkpoint_inv(s, enc_hash(id), checkpoint);
    lemma_seal_leaves(s1, p, leaves);
    let t = seal_leaves_spec(s1, p, leaves).0;
    assert(sealed_under(t, leaves[k], p));
    assert(t.placed(leaves[k].log_id, leaves[k].record_id));
    assert forall|l: HashValue, r: HashValue|
        (forall|j: int|
            0 <= j < leaves.len() ==> (#[trigger] leaves[j]) != (LeafValue {
                log_id: l,
                record_id: r,
            })) implies #[trigger] t.status(l, r) == s.status(l, r) by {
        lemma_seal_leaves_frame(s1, p, leaves, l, r);
    }
}

/// Whether a published record has its checkpoint at its own position among
/// the checkpoints of its log.
pub open spec fn in_place(s: StoreValue, l: HashValue, r: HashValue) -> bool {
    s.status(l, r) matches Some(StatusValue::Validated { kind, index, checkpoint_index, missing })
        ==> (checkpoint_index matches Some(c) ==> s.logs(kind).contains_key(l) && index < s.logs(
        kind,
    )[l].checkpoint_indices.len() && s.logs(kind)[l].checkpoint_indices[index as int] == c)
}

/// Whether the records of every log were published in the order of the log:
/// the published records of a log are its first records, each with its
/// checkpoint at its own position.
pub open spec fn in_log_order(s: StoreValue) -> bool {
    &&& forall|kind: LogKind, l: HashValue| #[trigger]
        s.logs(kind).contains_key(l) ==> s.logs(kind)[l].published() <= s.logs(
            kind,
        )[l].entries.len()
    &&& forall|l: HashValue, r: HashValue| #[trigger] in_place(s, l, r)
}

/// Whether the record of the leaf is the first record of its log that is not
/// published.
pub open spec fn next_in_log(s: StoreValue, leaf: LeafValue) -> bool {
    s.status(leaf.log_id, leaf.record_id) matches Some(
        StatusValue::Validated { kind, index, checkpoint_index, missing },
    ) && index == s.log(kind, leaf.log_id).published()
}

/// Whether the leaves name the records of each log in the order of the log:
/// each is, when its turn comes, the first unpublished record of its log.
pub open spec fn leaves_in_log_order(s: StoreValue, p: usize, leaves: Seq<LeafValue>) -> bool
    decreases leaves.len(),
{
    if leaves.len() == 0 {
        true
    } else {
        next_in_log(s, leaves[0]) && match seal_leaf_spec(s, p, leaves[0]) {
            Ok(t) => leaves_in_log_order(t, p, leaves.skip(1)),
            Err(e) => true,
        }
    }
}

/// Publishing the first unpublished record of a log keeps the order of the
/// log.
pub proof fn lemma_seal_leaf_in_order(s: StoreValue, p: usize, leaf: LeafValue)
    requires
        s.inv(),
        in_log_order(s),
        next_in_log(s, leaf),
        seal_leaf_spec(s, p, leaf) is Ok,
    ensures
        in_log_order(seal_leaf_spec(s, p, leaf)->Ok_0),
{
    let t = seal_leaf_spec(s, p, leaf)->Ok_0;
    let kind = s.status(leaf.log_id, leaf.record_id)->0->Validated_kind;
    let index = s.status(leaf.log_id, leaf.record_id)->0->Validated_index;
    assert(s.placed(leaf.log_id, leaf.record_id));
    let log = s.logs(kind)[leaf.log_id];
    assert forall|k: LogKind, l: HashValue| #[trigger] t.logs(k).contains_key(l) implies t.logs(
        k,
    )[l].published() <= t.logs(k)[l].entries.len() by {
        if k == kind && l == leaf.log_id {
        } else {
            assert(s.logs(k).contains_key(l));
        }
    }
    assert forall|l: HashValue, r: HashValue| #[trigger] in_place(t, l, r) by {
        if l == leaf.log_id && r == leaf.record_id {
        } else {
            assert(t.status(l, r) == s.status(l, r));
            assert(in_place(s, l, r));
        }
    }
}

/// Publishing records in the order of their logs keeps the order of the logs.
pub proof fn lemma_seal_leaves_in_order(s: StoreValue, p: usize, leaves: Seq<LeafValue>)
    requires
        s.inv(),
        p + 1 == s.checkpoints.len(),
        in_log_order(s),
        leaves_in_log_order(s, p, leaves),
        seal_leaves_spec(s, p, leaves).1 is Ok,
    ensures
        in_log_order(seal_leaves_spec(s, p, leaves).0),
    decreases leaves.len(),
{
    if leaves.len() > 0 {
        let mid = seal_leaf_spec(s, p, leaves[0])->Ok_0;
        lemma_seal_leaf(s, p, leaves[0]);
        lemma_seal_leaf_frame(s, p, leaves[0]);
        lemma_seal_leaf_in_order(s, p, leaves[0]);
        lemma_seal_leaves_in_order(mid, p, leaves.skip(1));
    }
}

/// Where records are published in the order of their logs, every participant
/// of a checkpoint is among the records fetched for that checkpoint from the
/// start of its log, whenever the limit reaches the participant's position.
pub proof fn lemma_participant_is_fetched(
    s: StoreValue,
    id: HashValue,
    checkpoint: CheckpointValue,
    leaves: Seq<LeafValue>,
    k: int,
    limit: u16,
)
    requires
        s.inv(),
        s.checkpoints.len() < usize::MAX,
        in_log_order(s),
        leaves_in_log_order(s, s.checkpoints.len() as usize, leaves),
        store_checkpoint_spec(s, id, checkpoint, leaves).1 is Ok,
        0 <= k < leaves.len(),
    ensures
        ({
            let t = store_checkpoint_spec(s, id, checkpoint, leaves).0;
            &&& t.inv()
            &&& in_log_order(t)
            &&& t.status(leaves[k].log_id, leaves[k].record_id) matches Some(
                StatusValue::Validated { kind, index, checkpoint_index, missing },
            ) && get_records_spec(t, kind, leaves[k].log_id, id, None, limit) matches Ok(window)
                && (index < limit ==> window.len() > index && window[index as int] == t.logs(
                kind,
            )[leaves[k].log_id].entries[index as int])
        }),
{
    let p = s.checkpoints.len() as usize;
    let s1 = StoreValue { checkpoints: s.checkpoints.push((enc_hash(id), checkpoint)), ..s };
    lemma_with_checkpoint_inv(s, enc_hash(id), checkpoint);
    lemma_seal_leaves_pending(s, s1.checkpoints, p, leaves);
    lemma_in_order_pending(s, s1.checkpoints, p, leaves);
    assert forall|l: HashValue, r: HashValue| #[trigger] in_place(s1, l, r) by {
        assert(s1.status(l, r) == s.status(l, r));
        assert(in_place(s, l, r));
    }
    assert forall|kind: LogKind, l: HashValue| #[trigger] s1.logs(kind).contains_key(l) implies s1.logs(
        kind,
    )[l].published() <= s1.logs(kind)[l].entries.len() by {
        assert(s.logs(kind).contains_key(l));
    }
    lemma_seal_leaves(s1, p, leaves);
    lemma_seal_leaves_in_order(s1, p, leaves);
    let t = seal_leaves_spec(s1, p, leaves).0;
    assert(sealed_under(t, leaves[k], p));
    assert(in_place(t, leaves[k].log_id, leaves[k].record_id));
    let kind = t.status(leaves[k].log_id, leaves[k].record_id)->0->Validated_kind;
    let index = t.status(leaves[k].log_id, leaves[k].record_id)->0->Validated_index;
    assert(t.checkpoints[p as int].0 == enc_hash(id));
    lemma_checkpoint_position(t, id, p as int);
    assert(t.logs_inv(kind));
    if index < limit {
        crate::log::lemma_sealed_record_is_fetched(
            t.logs(kind)[leaves[k].log_id],
            kind,
            index as int,
            limit as int,
        );
    }
}

/// Whether the leaves are in the order of their logs does not depend on the
/// checkpoints.
pub proof fn lemma_in_order_pending(
    s: StoreValue,
    checkpoints: Seq<(Seq<u8>, CheckpointValue)>,
    p: usize,
    leaves: Seq<LeafValue>,
)
    ensures
        leaves_in_log_order(StoreValue { checkpoints, ..s }, p, leaves) == leaves_in_log_order(
            s,
            p,
            leaves,
        ),
    decreases leaves.len(),
{
    if leaves.len() > 0 {
        let with = StoreValue { checkpoints, ..s };
        assert(with.status(leaves[0].log_id, leaves[0].record_id) == s.status(
            leaves[0].log_id,
            leaves[0].record_id,
        ));
        match seal_leaf_spec(s, p, leaves[0]) {
            Err(e) => {},
            Ok(t) => {
                assert(seal_leaf_spec(with, p, leaves[0]) == Ok::<StoreValue, StoreErrorValue>(
                    StoreValue { checkpoints, ..t },
                ));
                lemma_in_order_pending(t, checkpoints, p, leaves.skip(1));
            },
        }
    }
}

/// Every log of the store replays: validating its entries in order from the
/// empty state succeeds and gives the state of its validator.
pub proof fn lemma_stored_log_replays(s: StoreValue, kind: LogKind, log_id: HashValue)
    requires
        s.inv(),
        s.logs(kind).contains_key(log_id),
    ensures
        crate::state::replay(kind, s.logs(kind)[log_id].entries) == Ok::<
            crate::state::LogStateValue,
            ErrorValue,
        >(s.logs(kind)[log_id].state),
{
    assert(s.logs_inv(kind));
}

/// In every log of the store the `prev` fields form one chain: the first
/// record has none, and every later record names the record just before it.
pub proof fn lemma_stored_log_is_chained(s: StoreValue, kind: LogKind, log_id: HashValue, i: int)
    requires
        s.inv(),
        s.logs(kind).contains_key(log_id),
        0 <= i < s.logs(kind)[log_id].entries.len(),
    ensures
        i == 0 ==> crate::state::prev_of(s.logs(kind)[log_id].entries[i]) is None,
        i > 0 ==> crate::state::prev_of(s.logs(kind)[log_id].entries[i]) == Some(
            record_id_spec(s.logs(kind)[log_id].state.algorithm, s.logs(kind)[log_id].entries[i - 1]),
        ),
{
    lemma_stored_log_replays(s, kind, log_id);
    crate::state::lemma_prev_chain(kind, s.logs(kind)[log_id].entries, i);
}

/// In every package log of the store the released versions are exactly the
/// versions of the `Release` entries across the log, each of them once.
pub proof fn lemma_stored_releases_match(s: StoreValue, log_id: HashValue)
    requires
        s.inv(),
        s.packages.contains_key(log_id),
    ensures
        crate::state::log_released_versions(s.packages[log_id].entries).no_duplicates(),
        s.packages[log_id].state.releases.dom() == crate::state::log_released_versions(
            s.packages[log_id].entries,
        ).to_set(),
        forall|v: crate::record::VersionValue| #[trigger]
            crate::state::log_released_versions(s.packages[log_id].entries).to_multiset().count(v)
                == if s.packages[log_id].state.releases.contains_key(v) {
                1nat
            } else {
                0nat
            },
{
    lemma_stored_log_replays(s, LogKind::Package, log_id);
    crate::state::lemma_releases_match_log(LogKind::Package, s.packages[log_id].entries);
}

/// Whether a status is what became of an earlier status of a record that had
/// left the pending state: a rejection stays as it is, a validated record
/// stays validated at its position, and once it is published it stays
/// published under its checkpoint.
pub open spec fn settled(before: StatusValue, after: StatusValue) -> bool {
    match before {
        StatusValue::Pending { kind, envelope, missing } => true,
        StatusValue::Rejected { kind, envelope, reason } => after == before,
        StatusValue::Validated { kind, index, checkpoint_index, missing } => after matches StatusValue::Validated {
            kind: k2,
            index: i2,
            checkpoint_index: c2,
            missing: m2,
        } && k2 == kind && i2 == index && m2 == missing && (checkpoint_index is Some ==> c2
            == checkpoint_index),
    }
}

/// A record that has left the pending state never becomes pending again:
/// storing, rejecting and validating a record and the arrival of content
/// leave its status as it is, and storing a checkpoint can only publish a
/// validated record that was not published; a rejection is never undone.
pub proof fn lemma_status_is_final(
    s: StoreValue,
    l: HashValue,
    r: HashValue,
    kind: LogKind,
    log_id: HashValue,
    record_id: HashValue,
    envelope: EnvelopeValue,
    missing: Set<HashValue>,
    reason: Seq<char>,
    digest: HashValue,
    checkpoint: CheckpointValue,
    leaves: Seq<LeafValue>,
)
    requires
        s.status(l, r) is Some,
        !(s.status(l, r)->0 is Pending),
    ensures
        store_record_spec(s, kind, log_id, record_id, envelope, missing).0.status(l, r)
            == s.status(l, r),
        reject_record_spec(s, kind, log_id, record_id, reason).0.status(l, r) == s.status(l, r),
        validate_record_spec(s, kind, log_id, record_id).0.status(l, r) == s.status(l, r),
        set_content_present_spec(s, log_id, record_id, digest).0.status(l, r) == s.status(l, r),
        store_checkpoint_spec(s, log_id, checkpoint, leaves).0.status(l, r) is Some,
        settled(
            s.status(l, r)->0,
            store_checkpoint_spec(s, log_id, checkpoint, leaves).0.status(l, r)->0,
        ),
{
    let s1 = StoreValue { checkpoints: s.checkpoints.push((enc_hash(log_id), checkpoint)), ..s };
    assert(s1.status(l, r) == s.status(l, r));
    lemma_seal_leaves_settle(s1, s.checkpoints.len() as usize, leaves, l, r);
}

/// Publishing records can only publish a validated record that was not
/// published; every other record that has left the pending state stays as
/// it is.
pub proof fn lemma_seal_leaves_settle(
    s: StoreValue,
    p: usize,
    leaves: Seq<LeafValue>,
    l: HashValue,
    r: HashValue,
)
    requires
        s.status(l, r) is Some,
        !(s.status(l, r)->0 is Pending),
    ensures
        seal_leaves_spec(s, p, leaves).0.status(l, r) is Some,
        settled(s.status(l, r)->0, seal_leaves_spec(s, p, leaves).0.status(l, r)->0),
    decreases leaves.len(),
{
    if leaves.len() > 0 {
        match seal_leaf_spec(s, p, leaves[0]) {
            Err(e) => {},
            Ok(t) => {
                lemma_seal_leaf_frame(s, p, leaves[0]);
                if l == leaves[0].log_id && r == leaves[0].record_id {
                } else {
                    assert(t.status(l, r) == s.status(l, r));
                }
                lemma_seal_leaves_settle(t, p, leaves.skip(1), l, r);
            },
        }
    }
}

/// Only validation writes the state of a validator: storing or rejecting a
/// record, the arrival of content and the storing of a checkpoint leave the
/// state and the entries of every log as they are.
pub proof fn lemma_only_validation_writes(
    s: StoreValue,
    k: LogKind,
    l: HashValue,
    kind: LogKind,
    log_id: HashValue,
    record_id: HashValue,
    envelope: EnvelopeValue,
    missing: Set<HashValue>,
    reason: Seq<char>,
    digest: HashValue,
    checkpoint: CheckpointValue,
    leaves: Seq<LeafValue>,
)
    requires
        s.logs(k).contains_key(l),
    ensures
        store_record_spec(s, kind, log_id, record_id, envelope, missing).0.logs(k)[l] == s.logs(
            k,
        )[l],
        reject_record_spec(s, kind, log_id, record_id, reason).0.logs(k)[l] == s.logs(k)[l],
        set_content_present_spec(s, log_id, record_id, digest).0.logs(k)[l] == s.logs(k)[l],
        store_checkpoint_spec(s, log_id, checkpoint, leaves).0.logs(k)[l].state == s.logs(
            k,
        )[l].state,
        store_checkpoint_spec(s, log_id, checkpoint, leaves).0.logs(k)[l].entries == s.logs(
            k,
        )[l].entries,
{
    let s1 = StoreValue { checkpoints: s.checkpoints.push((enc_hash(log_id), checkpoint)), ..s };
    assert(s1.logs(k) == s.logs(k));
    lemma_seal_leaves_keep_logs(s1, s.checkpoints.len() as usize, leaves, k, l);
}

/// Publishing records leaves the state and the entries of every log as they
/// are.
pub proof fn lemma_seal_leaves_keep_logs(
    s: StoreValue,
    p: usize,
    leaves: Seq<LeafValue>,
    k: LogKind,
    l: HashValue,
)
    requires
        s.logs(k).contains_key(l),
    ensures
        seal_leaves_spec(s, p, leaves).0.logs(k).contains_key(l),
        seal_leaves_spec(s, p, leaves).0.logs(k)[l].state == s.logs(k)[l].state,
        seal_leaves_spec(s, p, leaves).0.logs(k)[l].entries == s.logs(k)[l].entries,
    decreases leaves.len(),
{
    if leaves.len() > 0 {
        match seal_leaf_spec(s, p, leaves[0]) {
            Err(e) => {},
            Ok(t) => {
                lemma_seal_leaves_keep_logs(t, p, leaves.skip(1), k, l);
            },
        }
    }
}

/// The envelope a reader gets for a record is the one whose hash is the
/// identifier of the record.
pub proof fn lemma_record_is_its_envelope(
    s: StoreValue,
    kind: LogKind,
    log_id: HashValue,
    record_id: HashValue,
)
    requires
        s.inv(),
        get_record_spec(s, kind, log_id, record_id) is Ok,
    ensures
        record_id_spec(record_id.alg, get_record_spec(s, kind, log_id, record_id)->Ok_0.envelope)
            == record_id,
{
    assert(s.placed(log_id, record_id));
}

/// A record that was just validated reads as validated, with the envelope it
/// was stored with and no checkpoint.
pub proof fn lemma_validated_record_reads_back(
    s: StoreValue,
    kind: LogKind,
    log_id: HashValue,
    record_id: HashValue,
)
    requires
        s.inv(),
        validate_record_spec(s, kind, log_id, record_id).1 is Ok,
    ensures
        get_record_spec(validate_record_spec(s, kind, log_id, record_id).0, kind, log_id, record_id)
            == Ok::<StoredRecordValue, StoreErrorValue>(
            StoredRecordValue {
                status: PublicStatusValue::Validated,
                envelope: pending_spec(s, kind, log_id, record_id)->Ok_0.0,
                checkpoint: None,
            },
        ),
{
    let t = validate_record_spec(s, kind, log_id, record_id).0;
    let log = s.log(kind, log_id);
    if s.logs(kind).contains_key(log_id) {
        assert(s.logs_inv(kind));
    }
    assert(log.entries.len() <= usize::MAX);
    assert(t.logs(kind).contains_key(log_id));
}

} // verus!
