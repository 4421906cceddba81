//! The client's side of publishing: the pending publish, a batch of entries
//! that is submitted as one record, and what each publish command decides.

use vstd::prelude::*;
use crate::envelope::{public_key_for, public_key_of, signed_spec, Envelope, EnvelopeValue};
use crate::hash::{bytes_clone, AnyHash, HashAlg, HashValue};
use crate::record::{
    entry_values, optional_hash_value, Entry, EntryValue, LogKind, Record, RecordValue, Timestamp,
    Version, VersionValue,
};
use crate::service::{RecordState, RecordStateValue};
use crate::table::{Id, Plain};
use crate::validator::hash_values;

verus! {

/// One entry of a pending publish.
#[derive(Clone, Debug, PartialEq, Eq)]
pub enum PublishEntry {
    /// Initialise the package.
    Init,
    /// Release a version with the content of the digest.
    Release { version: Version, content: AnyHash },
    /// Yank a released version.
    Yank { version: Version },
}

/// The mathematical value of a [`PublishEntry`].
pub ghost enum PublishEntryValue {
    Init,
    Release { version: VersionValue, content: HashValue },
    Yank { version: VersionValue },
}

impl View for PublishEntry {
    type V = PublishEntryValue;

    open spec fn view(&self) -> PublishEntryValue {
        match self {
            PublishEntry::Init => PublishEntryValue::Init,
            PublishEntry::Release { version, content } => PublishEntryValue::Release {
                version: version@,
                content: content@,
            },
            PublishEntry::Yank { version } => PublishEntryValue::Yank { version: version@ },
        }
    }
}

impl Plain for PublishEntry {
    fn copy(&self) -> (r: PublishEntry) {
        match self {
            PublishEntry::Init => PublishEntry::Init,
            PublishEntry::Release { version, content } => PublishEntry::Release {
                version: version.copy(),
                content: content.copy(),
            },
            PublishEntry::Yank { version } => PublishEntry::Yank { version: version.copy() },
        }
    }
}

/// The values of a sequence of publish entries, in order.
pub open spec fn publish_entry_values(entries: Seq<PublishEntry>) -> Seq<PublishEntryValue> {
    Seq::new(entries.len(), |i: int| entries[i]@)
}

/// A pending publish: the entries to submit as one record of the package's
/// log, after the record `head`.
#[derive(Clone, Debug, PartialEq, Eq)]
pub struct PublishInfo {
    pub package: String,
    pub head: Option<AnyHash>,
    pub entries: Vec<PublishEntry>,
}

/// The mathematical value of a [`PublishInfo`].
pub ghost struct PublishValue {
    pub package: Seq<char>,
    pub head: Option<HashValue>,
    pub entries: Seq<PublishEntryValue>,
}

impl View for PublishInfo {
    type V = PublishValue;

    open spec fn view(&self) -> PublishValue {
        PublishValue {
            package: self.package@,
            head: optional_hash_value(self.head),
            entries: publish_entry_values(self.entries@),
        }
    }
}

impl PublishValue {
    /// Whether the batch initialises the package.
    pub open spec fn initializing(self) -> bool {
        exists|i: int| 0 <= i < self.entries.len() && #[trigger] self.entries[i] is Init
    }

    /// The record the batch is submitted as, signed by the holder of `key`.
    pub open spec fn record(self, alg: HashAlg, key: Seq<u8>, timestamp: Timestamp) -> RecordValue {
        RecordValue {
            prev: self.head,
            version: 0,
            timestamp,
            entries: Seq::new(
                self.entries.len(),
                |i: int|
                    match self.entries[i] {
                        PublishEntryValue::Init => EntryValue::Init { hash_alg: alg, key },
                        PublishEntryValue::Release { version, content } => EntryValue::Release {
                            version,
                            content,
                        },
                        PublishEntryValue::Yank { version } => EntryValue::Yank { version },
                    },
            ),
        }
    }
}

/// The content digests of the `Release` entries, in order.
pub open spec fn publish_contents(entries: Seq<PublishEntryValue>) -> Seq<HashValue>
    decreases entries.len(),
{
    if entries.len() == 0 {
        Seq::empty()
    } else {
        match entries.last() {
            PublishEntryValue::Release { version, content } => publish_contents(
                entries.drop_last(),
            ).push(content),
            _ => publish_contents(entries.drop_last()),
        }
    }
}

/// What to do about a submitted record in the state given.
#[derive(Clone, Debug, PartialEq, Eq)]
pub enum WaitStep {
    /// The record is published: stop waiting.
    Done,
    /// The record was rejected for the reason given: give up.
    Failed(String),
    /// The record is still processing: ask again after the interval.
    Again,
}

/// What to do about a submitted record in the state given.
pub fn wait_step(state: &RecordState) -> (step: WaitStep)
    ensures
        match state@ {
            RecordStateValue::Published { checkpoint } => step is Done,
            RecordStateValue::Rejected { reason } => step matches WaitStep::Failed(r) && r@
                == reason,
            RecordStateValue::Processing => step is Again,
        },
{
    match state {
        RecordState::Published { .. } => WaitStep::Done,
        RecordState::Rejected { reason } => WaitStep::Failed(reason.clone()),
        RecordState::Processing => WaitStep::Again,
    }
}

/// The value of an optional pending publish.
pub open spec fn optional_publish_value(info: Option<PublishInfo>) -> Option<PublishValue> {
    match info {
        Some(info) => Some(info@),
        None => None,
    }
}

/// Why a publish command cannot go on.
#[derive(Clone, Debug, PartialEq, Eq)]
pub enum PublishError {
    /// A publish is pending for another package, the one named.
    PublishInProgress(String),
    /// The pending publish initialises the package already.
    AlreadyInitializing(String),
    /// There is no pending publish.
    NoPendingPublish,
}

/// The mathematical value of a [`PublishError`].
pub ghost enum PublishErrorValue {
    PublishInProgress(Seq<char>),
    AlreadyInitializing(Seq<char>),
    NoPendingPublish,
}

impl View for PublishError {
    type V = PublishErrorValue;

    open spec fn view(&self) -> PublishErrorValue {
        match self {
            PublishError::PublishInProgress(p) => PublishErrorValue::PublishInProgress(p@),
            PublishError::AlreadyInitializing(p) => PublishErrorValue::AlreadyInitializing(p@),
            PublishError::NoPendingPublish => PublishErrorValue::NoPendingPublish,
        }
    }
}

/// What becomes of an entry.
pub enum Enqueued {
    /// The entry joined the pending publish, which is to be stored as given.
    Stored(PublishInfo),
    /// There is no pending publish: the entry is to be submitted alone.
    Alone(PublishEntry),
}

/// The mathematical value of an [`Enqueued`].
pub ghost enum EnqueuedValue {
    Stored(PublishValue),
    Alone(PublishEntryValue),
}

impl View for Enqueued {
    type V = EnqueuedValue;

    open spec fn view(&self) -> EnqueuedValue {
        match self {
            Enqueued::Stored(info) => EnqueuedValue::Stored(info@),
            Enqueued::Alone(entry) => EnqueuedValue::Alone(entry@),
        }
    }
}

/// What becomes of an entry for the package `name` when `pending` is the
/// pending publish.
pub open spec fn enqueue_spec(pending: Option<PublishValue>, name: Seq<char>, entry: PublishEntryValue)
    -> Result<EnqueuedValue, PublishErrorValue> {
    match pending {
        None => Ok(EnqueuedValue::Alone(entry)),
        Some(info) => if info.package != name {
            Err(PublishErrorValue::PublishInProgress(info.package))
        } else if entry is Init && info.initializing() {
            Err(PublishErrorValue::AlreadyInitializing(name))
        } else {
            Ok(EnqueuedValue::Stored(PublishValue { entries: info.entries.push(entry), ..info }))
        },
    }
}

/// The value of the outcome of `enqueue`.
pub open spec fn enqueue_result_value(r: Result<Enqueued, PublishError>) -> Result<
    EnqueuedValue,
    PublishErrorValue,
> {
    match r {
        Ok(x) => Ok(x@),
        Err(e) => Err(e@),
    }
}

fn text_eq(a: &str, b: &str) -> (r: bool)
    ensures
        r == (a@ == b@),
{
    let x = a.to_string();
    let y = b.to_string();
    proof {
        vstd::string::to_string_from_display_ensures_for_str(a, x);
        vstd::string::to_string_from_display_ensures_for_str(b, y);
    }
    x == y
}

impl PublishInfo {
    /// A pending publish for the package with no entry yet.
    pub fn start(package: &str) -> (info: PublishInfo)
        ensures
            info@ == (PublishValue { package: package@, head: None, entries: Seq::empty() }),
    {
        let info = PublishInfo { package: package.to_string(), head: None, entries: Vec::new() };
        proof {
            vstd::string::to_string_from_display_ensures_for_str(package, info.package);
            assert(info@.entries =~= Seq::<PublishEntryValue>::empty());
        }
        info
    }

    /// Whether the batch initialises the package.
    pub fn initializing(&self) -> (r: bool)
        ensures
            r == self@.initializing(),
    {
        let mut i: usize = 0;
        while i < self.entries.len()
            invariant
                i <= self.entries.len(),
                forall|j: int| 0 <= j < i ==> !(#[trigger] self@.entries[j] is Init),
            decreases self.entries.len() - i,
        {
            match self.entries[i] {
                PublishEntry::Init => {
                    assert(self@.entries[i as int] is Init);
                    return true;
                },
                _ => {},
            }
            i += 1;
        }
        false
    }

    /// The digests of the content the batch releases, in order: the content
    /// the registry will need.
    pub fn contents(&self) -> (out: Vec<AnyHash>)
        ensures
            hash_values(out@) == publish_contents(self@.entries),
    {
        let mut out: Vec<AnyHash> = Vec::new();
        let mut i: usize = 0;
        assert(self@.entries.take(0) =~= Seq::<PublishEntryValue>::empty());
        assert(hash_values(out@) =~= Seq::<HashValue>::empty());
        while i < self.entries.len()
            invariant
                i <= self.entries.len(),
                hash_values(out@) == publish_contents(self@.entries.take(i as int)),
            decreases self.entries.len() - i,
        {
            let ghost before = hash_values(out@);
            let ghost next = self@.entries.take(i + 1);
            assert(next.drop_last() =~= self@.entries.take(i as int));
            assert(next.last() == self.entries@[i as int]@);
            match &self.entries[i] {
                PublishEntry::Release { version, content } => {
                    out.push(content.copy());
                    assert(hash_values(out@) =~= before.push(content@));
                },
                _ => {},
            }
            i += 1;
        }
        assert(self@.entries.take(self.entries.len() as int) =~= self@.entries);
        out
    }

    /// The record the batch is submitted as. `key` is the public key of the
    /// submitter, which an `Init` entry installs.
    pub fn to_record(&self, alg: HashAlg, key: &Vec<u8>, timestamp: Timestamp) -> (r: Record)
        ensures
            r@ == self@.record(alg, key@, timestamp),
    {
        let mut entries: Vec<Entry> = Vec::new();
        let mut i: usize = 0;
        while i < self.entries.len()
            invariant
                i <= self.entries.len(),
                entries.len() == i,
                forall|j: int|
                    0 <= j < i ==> (#[trigger] entries@[j])@ == self@.record(
                        alg,
                        key@,
                        timestamp,
                    ).entries[j],
            decreases self.entries.len() - i,
        {
            let entry = match &self.entries[i] {
                PublishEntry::Init => Entry::Init { hash_alg: alg, key: bytes_clone(key) },
                PublishEntry::Release { version, content } => Entry::Release {
                    version: version.copy(),
                    content: content.copy(),
                },
                PublishEntry::Yank { version } => Entry::Yank { version: version.copy() },
            };
            entries.push(entry);
            i += 1;
        }
        let prev = match &self.head {
            Some(h) => Some(h.copy()),
            None => None,
        };
        let r = Record { prev, version: 0, timestamp, entries };
        assert(r@.entries =~= self@.record(alg, key@, timestamp).entries);
        r
    }

    /// The batch as one signed record of the package's log. `None` when the
    /// private key does not decode or signing fails.
    pub fn sign(&self, alg: HashAlg, private_key: &[u8], timestamp: Timestamp) -> (r: Option<
        Envelope,
    >)
        ensures
            match sign_spec(self@, alg, private_key@, timestamp) {
                Some(v) => r matches Some(e) && e@ == v,
                None => r is None,
            },
    {
        let key = match public_key_for(private_key) {
            None => {
                return None;
            },
            Some(key) => key,
        };
        let record = self.to_record(alg, &key, timestamp);
        Envelope::signed(LogKind::Package, &record, private_key)
    }
}

/// The envelope that signing the batch with the private key gives: the batch
/// as one record of the package's log, in which an `Init` entry installs the
/// public key that belongs to the private key, signed with the private key.
/// There is none where the private key does not decode or signing fails.
pub open spec fn sign_spec(
    info: PublishValue,
    alg: HashAlg,
    private_key: Seq<u8>,
    timestamp: Timestamp,
) -> Option<EnvelopeValue> {
    match public_key_of(private_key) {
        None => None,
        Some(key) => signed_spec(LogKind::Package, info.record(alg, key, timestamp), private_key),
    }
}

/// Adds an entry for the package `name` to the pending publish, or hands it
/// back to be submitted alone when nothing is pending. An entry for another
/// package than the pending one is refused, and so is a second `Init`.
pub fn enqueue(pending: Option<PublishInfo>, name: &str, entry: PublishEntry) -> (r: Result<
    Enqueued,
    PublishError,
>)
    ensures
        enqueue_result_value(r) == enqueue_spec(optional_publish_value(pending), name@, entry@),
{
    match pending {
        None => Ok(Enqueued::Alone(entry)),
        Some(info) => {
            if !text_eq(info.package.as_str(), name) {
                return Err(PublishError::PublishInProgress(info.package));
            }
            let is_init = match entry {
                PublishEntry::Init => true,
                _ => false,
            };
            if is_init && info.initializing() {
                let package = name.to_string();
                proof {
                    vstd::string::to_string_from_display_ensures_for_str(name, package);
                }
                return Err(PublishError::AlreadyInitializing(package));
            }
            let ghost before = info@;
            let mut info = info;
            info.entries.push(entry);
            assert(info@.entries =~= before.entries.push(entry@));
            Ok(Enqueued::Stored(info))
        },
    }
}

/// The options every command takes.
#[derive(Clone, Debug, PartialEq, Eq)]
pub struct CommonOptions {
    /// The URL of the registry, if it is not the configured one.
    pub registry: Option<String>,
    /// The name of the signing key.
    pub key_name: String,
}

/// Initialize a new package.
#[derive(Clone, Debug, PartialEq, Eq)]
pub struct PublishInitCommand {
    pub common: CommonOptions,
    /// The name of the package being initialized.
    pub name: String,
    /// Whether to return without waiting for the publish to complete.
    pub no_wait: bool,
}

/// Release a version of a package.
#[derive(Clone, Debug, PartialEq, Eq)]
pub struct PublishReleaseCommand {
    pub common: CommonOptions,
    /// The name of the package being published.
    pub name: String,
    /// The version being published.
    pub version: Version,
    /// The path to the content being published.
    pub path: String,
    /// Whether to return without waiting for the publish to complete.
    pub no_wait: bool,
}

/// Start a new pending publish.
#[derive(Clone, Debug, PartialEq, Eq)]
pub struct PublishStartCommand {
    pub common: CommonOptions,
    /// The name of the package being published.
    pub name: String,
}

/// List the entries of the pending publish.
#[derive(Clone, Debug, PartialEq, Eq)]
pub struct PublishListCommand {
    pub common: CommonOptions,
}

/// Abort the pending publish.
#[derive(Clone, Debug, PartialEq, Eq)]
pub struct PublishAbortCommand {
    pub common: CommonOptions,
}

/// Submit the pending publish.
#[derive(Clone, Debug, PartialEq, Eq)]
pub struct PublishSubmitCommand {
    pub common: CommonOptions,
    /// Whether to return without waiting for the publish to complete.
    pub no_wait: bool,
}

/// Wait for a submitted record to be published.
#[derive(Clone, Debug, PartialEq, Eq)]
pub struct PublishWaitCommand {
    pub common: CommonOptions,
    /// The name of the package being published.
    pub package: String,
    /// The identifier of the record to wait for.
    pub record_id: AnyHash,
}

/// Publish a package to a registry.
#[derive(Clone, Debug, PartialEq, Eq)]
pub enum PublishCommand {
    Init(PublishInitCommand),
    Release(PublishReleaseCommand),
    Start(PublishStartCommand),
    List(PublishListCommand),
    Abort(PublishAbortCommand),
    Submit(PublishSubmitCommand),
    Wait(PublishWaitCommand),
}

/// What a command asks of whoever runs it.
#[derive(Clone, Debug, PartialEq, Eq)]
pub enum PublishPlan {
    /// Store the pending publish as given.
    Store { pending: PublishInfo },
    /// Sign the batch with the key of the given name and submit it; then
    /// clear the pending publish if `clear_pending`, and wait for the record
    /// to be published if `wait`.
    Submit { info: PublishInfo, key_name: String, clear_pending: bool, wait: bool },
    /// Show the entries of the pending publish.
    List { info: PublishInfo },
    /// Clear the pending publish, which was for the package named.
    Clear { package: String },
    /// Wait for the record to be published.
    Wait { package: String, record_id: AnyHash },
}

/// The mathematical value of a [`PublishPlan`].
pub ghost enum PlanValue {
    Store { pending: PublishValue },
    Submit { info: PublishValue, key_name: Seq<char>, clear_pending: bool, wait: bool },
    List { info: PublishValue },
    Clear { package: Seq<char> },
    Wait { package: Seq<char>, record_id: HashValue },
}

impl View for PublishPlan {
    type V = PlanValue;

    open spec fn view(&self) -> PlanValue {
        match self {
            PublishPlan::Store { pending } => PlanValue::Store { pending: pending@ },
            PublishPlan::Submit { info, key_name, clear_pending, wait } => PlanValue::Submit {
                info: info@,
                key_name: key_name@,
                clear_pending: *clear_pending,
                wait: *wait,
            },
            PublishPlan::List { info } => PlanValue::List { info: info@ },
            PublishPlan::Clear { package } => PlanValue::Clear { package: package@ },
            PublishPlan::Wait { package, record_id } => PlanValue::Wait {
                package: package@,
                record_id: record_id@,
            },
        }
    }
}

/// What is left to do once a batch was submitted and the registry took it.
#[derive(Clone, Debug, PartialEq, Eq)]
pub enum FollowUp {
    /// Clear the pending publish.
    ClearPending,
    /// Wait for the record to be published.
    Wait { package: String, record_id: AnyHash },
    /// Tell that the record was submitted, without waiting for it.
    Report { record_id: AnyHash },
}

/// The mathematical value of a [`FollowUp`].
pub ghost enum FollowUpValue {
    ClearPending,
    Wait { package: Seq<char>, record_id: HashValue },
    Report { record_id: HashValue },
}

impl View for FollowUp {
    type V = FollowUpValue;

    open spec fn view(&self) -> FollowUpValue {
        match self {
            FollowUp::ClearPending => FollowUpValue::ClearPending,
            FollowUp::Wait { package, record_id } => FollowUpValue::Wait {
                package: package@,
                record_id: record_id@,
            },
            FollowUp::Report { record_id } => FollowUpValue::Report { record_id: record_id@ },
        }
    }
}

/// The values of a sequence of follow-ups, in order.
pub open spec fn follow_up_values(steps: Seq<FollowUp>) -> Seq<FollowUpValue> {
    Seq::new(steps.len(), |i: int| steps[i]@)
}

/// What is left to do, in this order, once the batch of the plan was
/// submitted as the record `record_id`: first the pending publish is cleared,
/// if the plan says so, and only then the record is waited for or reported.
/// A plan that submits nothing leaves nothing to do.
pub open spec fn follow_up_spec(plan: PlanValue, record_id: HashValue) -> Seq<FollowUpValue> {
    match plan {
        PlanValue::Submit { info, key_name, clear_pending, wait } => {
            let first = if clear_pending {
                seq![FollowUpValue::ClearPending]
            } else {
                Seq::empty()
            };
            if wait {
                first.push(FollowUpValue::Wait { package: info.package, record_id })
            } else {
                first.push(FollowUpValue::Report { record_id })
            }
        },
        _ => Seq::empty(),
    }
}

impl PublishPlan {
    /// What is left to do, in this order, once the batch of the plan was
    /// submitted as the record `record_id`.
    pub fn follow_up(&self, record_id: &AnyHash) -> (steps: Vec<FollowUp>)
        ensures
            follow_up_values(steps@) == follow_up_spec(self@, record_id@),
    {
        let mut steps: Vec<FollowUp> = Vec::new();
        match self {
            PublishPlan::Submit { info, key_name, clear_pending, wait } => {
                if *clear_pending {
                    steps.push(FollowUp::ClearPending);
                }
                if *wait {
                    steps.push(
                        FollowUp::Wait { package: info.package.clone(), record_id: record_id.copy() },
                    );
                } else {
                    steps.push(FollowUp::Report { record_id: record_id.copy() });
                }
            },
            _ => {},
        }
        assert(follow_up_values(steps@) =~= follow_up_spec(self@, record_id@));
        steps
    }
}

/// The value of the outcome of a command.
pub open spec fn plan_result_value(r: Result<PublishPlan, PublishError>) -> Result<
    PlanValue,
    PublishErrorValue,
> {
    match r {
        Ok(x) => Ok(x@),
        Err(e) => Err(e@),
    }
}

/// What a command that adds one entry for the package `name` decides: the
/// entry joins the pending publish, or is submitted alone when nothing is
/// pending.
pub open spec fn add_entry_spec(
    pending: Option<PublishValue>,
    name: Seq<char>,
    entry: PublishEntryValue,
    key_name: Seq<char>,
    no_wait: bool,
) -> Result<PlanValue, PublishErrorValue> {
    match enqueue_spec(pending, name, entry) {
        Err(e) => Err(e),
        Ok(EnqueuedValue::Stored(info)) => Ok(PlanValue::Store { pending: info }),
        Ok(EnqueuedValue::Alone(entry)) => Ok(
            PlanValue::Submit {
                info: PublishValue { package: name, head: None, entries: seq![entry] },
                key_name,
                clear_pending: false,
                wait: !no_wait,
            },
        ),
    }
}

/// What `publish start` decides.
pub open spec fn start_spec(pending: Option<PublishValue>, name: Seq<char>) -> Result<
    PlanValue,
    PublishErrorValue,
> {
    match pending {
        Some(info) => Err(PublishErrorValue::PublishInProgress(info.package)),
        None => Ok(
            PlanValue::Store {
                pending: PublishValue { package: name, head: None, entries: Seq::empty() },
            },
        ),
    }
}

/// What `publish list` decides.
pub open spec fn list_spec(pending: Option<PublishValue>) -> Result<PlanValue, PublishErrorValue> {
    match pending {
        Some(info) => Ok(PlanValue::List { info }),
        None => Err(PublishErrorValue::NoPendingPublish),
    }
}

/// What `publish abort` decides.
pub open spec fn abort_spec(pending: Option<PublishValue>) -> Result<PlanValue, PublishErrorValue> {
    match pending {
        Some(info) => Ok(PlanValue::Clear { package: info.package }),
        None => Err(PublishErrorValue::NoPendingPublish),
    }
}

/// What `publish submit` decides.
pub open spec fn submit_plan_spec(pending: Option<PublishValue>, key_name: Seq<char>, no_wait: bool)
    -> Result<PlanValue, PublishErrorValue> {
    match pending {
        Some(info) => Ok(
            PlanValue::Submit { info, key_name, clear_pending: true, wait: !no_wait },
        ),
        None => Err(PublishErrorValue::NoPendingPublish),
    }
}

fn add_entry(
    pending: Option<PublishInfo>,
    name: &String,
    entry: PublishEntry,
    key_name: &String,
    no_wait: bool,
) -> (r: Result<PublishPlan, PublishError>)
    ensures
        plan_result_value(r) == add_entry_spec(
            optional_publish_value(pending),
            name@,
            entry@,
            key_name@,
            no_wait,
        ),
{
    match enqueue(pending, name.as_str(), entry) {
        Err(e) => Err(e),
        Ok(Enqueued::Stored(info)) => Ok(PublishPlan::Store { pending: info }),
        Ok(Enqueued::Alone(entry)) => {
            let mut entries: Vec<PublishEntry> = Vec::new();
            let ghost value = entry@;
            entries.push(entry);
            let info = PublishInfo { package: name.clone(), head: None, entries };
            assert(info@.entries =~= seq![value]);
            Ok(
                PublishPlan::Submit {
                    info,
                    key_name: key_name.clone(),
                    clear_pending: false,
                    wait: !no_wait,
                },
            )
        },
    }
}

impl PublishInitCommand {
    /// Decides what to do given the pending publish: add the initialisation
    /// to it, or submit it alone when nothing is pending.
    pub fn exec(&self, pending: Option<PublishInfo>) -> (r: Result<PublishPlan, PublishError>)
        ensures
            plan_result_value(r) == add_entry_spec(
                optional_publish_value(pending),
                self.name@,
                PublishEntryValue::Init,
                self.common.key_name@,
                self.no_wait,
            ),
    {
        add_entry(pending, &self.name, PublishEntry::Init, &self.common.key_name, self.no_wait)
    }
}

impl PublishReleaseCommand {
    /// Whether the release can go on to store its content: it cannot when a
    /// publish is pending for another package.
    pub fn check(&self, pending: &Option<PublishInfo>) -> (r: Result<(), PublishError>)
        ensures
            match *pending {
                Some(info) => if info@.package != self.name@ {
                    r matches Err(e) && e@ == PublishErrorValue::PublishInProgress(info@.package)
                } else {
                    r is Ok
                },
                None => r is Ok,
            },
    {
        match pending {
            None => Ok(()),
            Some(info) => {
                if text_eq(info.package.as_str(), self.name.as_str()) {
                    Ok(())
                } else {
                    Err(PublishError::PublishInProgress(info.package.clone()))
                }
            },
        }
    }

    /// Decides what to do given the pending publish and the digest of the
    /// stored content: add the release to the pending publish, or submit it
    /// alone when nothing is pending.
    pub fn exec(&self, pending: Option<PublishInfo>, content: AnyHash) -> (r: Result<
        PublishPlan,
        PublishError,
    >)
        ensures
            plan_result_value(r) == add_entry_spec(
                optional_publish_value(pending),
                self.name@,
                PublishEntryValue::Release { version: self.version@, content: content@ },
                self.common.key_name@,
                self.no_wait,
            ),
    {
        add_entry(
            pending,
            &self.name,
            PublishEntry::Release { version: self.version.copy(), content },
            &self.common.key_name,
            self.no_wait,
        )
    }
}

impl PublishStartCommand {
    /// Decides what to do given the pending publish: start one for the
    /// package, unless one is in progress.
    pub fn exec(&self, pending: Option<PublishInfo>) -> (r: Result<PublishPlan, PublishError>)
        ensures
            plan_result_value(r) == start_spec(optional_publish_value(pending), self.name@),
    {
        match pending {
            Some(info) => Err(PublishError::PublishInProgress(info.package)),
            None => Ok(PublishPlan::Store { pending: PublishInfo::start(self.name.as_str()) }),
        }
    }
}

impl PublishListCommand {
    /// Decides what to do given the pending publish: list it, if there is one.
    pub fn exec(&self, pending: Option<PublishInfo>) -> (r: Result<PublishPlan, PublishError>)
        ensures
            plan_result_value(r) == list_spec(optional_publish_value(pending)),
    {
        match pending {
            Some(info) => Ok(PublishPlan::List { info }),
            None => Err(PublishError::NoPendingPublish),
        }
    }
}

impl PublishAbortCommand {
    /// Decides what to do given the pending publish: clear it, if there is one.
    pub fn exec(&self, pending: Option<PublishInfo>) -> (r: Result<PublishPlan, PublishError>)
        ensures
            plan_result_value(r) == abort_spec(optional_publish_value(pending)),
    {
        match pending {
            Some(info) => Ok(PublishPlan::Clear { package: info.package }),
            None => Err(PublishError::NoPendingPublish),
        }
    }
}

impl PublishSubmitCommand {
    /// Decides what to do given the pending publish: submit it, if there is
    /// one.
    pub fn exec(&self, pending: Option<PublishInfo>) -> (r: Result<PublishPlan, PublishError>)
        ensures
            plan_result_value(r) == submit_plan_spec(
                optional_publish_value(pending),
                self.common.key_name@,
                self.no_wait,
            ),
    {
        match pending {
            Some(info) => Ok(
                PublishPlan::Submit {
                    info,
                    key_name: self.common.key_name.clone(),
                    clear_pending: true,
                    wait: !self.no_wait,
                },
            ),
            None => Err(PublishError::NoPendingPublish),
        }
    }
}

impl PublishWaitCommand {
    /// Waits for the record of the package.
    pub fn exec(&self) -> (plan: PublishPlan)
        ensures
            plan@ == (PlanValue::Wait { package: self.package@, record_id: self.record_id@ }),
    {
        PublishPlan::Wait { package: self.package.clone(), record_id: self.record_id.copy() }
    }
}

/// What the command decides given the pending publish and, for a release,
/// the digest of the stored content.
pub open spec fn command_spec(
    command: PublishCommand,
    pending: Option<PublishValue>,
    content: HashValue,
) -> Result<PlanValue, PublishErrorValue> {
    match command {
        PublishCommand::Init(c) => add_entry_spec(
            pending,
            c.name@,
            PublishEntryValue::Init,
            c.common.key_name@,
            c.no_wait,
        ),
        PublishCommand::Release(c) => add_entry_spec(
            pending,
            c.name@,
            PublishEntryValue::Release { version: c.version@, content },
            c.common.key_name@,
            c.no_wait,
        ),
        PublishCommand::Start(c) => start_spec(pending, c.name@),
        PublishCommand::List(c) => list_spec(pending),
        PublishCommand::Abort(c) => abort_spec(pending),
        PublishCommand::Submit(c) => submit_plan_spec(pending, c.common.key_name@, c.no_wait),
        PublishCommand::Wait(c) => Ok(
            PlanValue::Wait { package: c.package@, record_id: c.record_id@ },
        ),
    }
}

impl PublishCommand {
    /// Runs the command it holds. `content` is the digest of the content a
    /// release has stored; the other commands do not look at it.
    pub fn exec(&self, pending: Option<PublishInfo>, content: AnyHash) -> (r: Result<
        PublishPlan,
        PublishError,
    >)
        ensures
            plan_result_value(r) == command_spec(*self, optional_publish_value(pending), content@),
    {
        match self {
            PublishCommand::Init(c) => c.exec(pending),
            PublishCommand::Release(c) => c.exec(pending, content),
            PublishCommand::Start(c) => c.exec(pending),
            PublishCommand::List(c) => c.exec(pending),
            PublishCommand::Abort(c) => c.exec(pending),
            PublishCommand::Submit(c) => c.exec(pending),
            PublishCommand::Wait(c) => Ok(c.exec()),
        }
    }
}

} // verus!
