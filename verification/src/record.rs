//! Records, their entries and the mathematical values they stand for.

use vstd::prelude::*;
use crate::table::{Id, Plain};
use crate::hash::{bytes_clone, bytes_eq, AnyHash, HashAlg, HashValue};

verus! {

/// The two kinds of log a registry keeps.
#[derive(Clone, Copy, Debug, PartialEq, Eq, Structural)]
pub enum LogKind {
    Operator,
    Package,
}

/// What a key may be authorised to do in a log.
#[derive(Clone, Copy, Debug, PartialEq, Eq, Structural)]
pub enum Permission {
    /// Emit `Release` and `Yank` entries.
    Commit,
    /// Emit `GrantFlat` and `RevokeFlat` entries.
    KeyManagement,
}

/// A point in time: seconds since the epoch and nanoseconds within the second.
#[derive(Clone, Copy, Debug, PartialEq, Eq, Structural)]
pub struct Timestamp {
    pub secs: u64,
    pub nanos: u32,
}

impl Timestamp {
    /// Whether `self` lies strictly before `other`.
    pub open spec fn before(self, other: Timestamp) -> bool {
        self.secs < other.secs || (self.secs == other.secs && self.nanos < other.nanos)
    }

    /// Whether `self` lies strictly before `other`.
    pub fn is_before(&self, other: &Timestamp) -> (r: bool)
        ensures
            r == self.before(*other),
    {
        self.secs < other.secs || (self.secs == other.secs && self.nanos < other.nanos)
    }
}

/// A semantic version: three numbers, a pre-release tag and build metadata.
#[derive(Clone, Debug, PartialEq, Eq)]
pub struct Version {
    pub major: u64,
    pub minor: u64,
    pub patch: u64,
    pub pre: Vec<u8>,
    pub build: Vec<u8>,
}

/// The mathematical value of a [`Version`].
pub ghost struct VersionValue {
    pub major: u64,
    pub minor: u64,
    pub patch: u64,
    pub pre: Seq<u8>,
    pub build: Seq<u8>,
}

impl View for Version {
    type V = VersionValue;

    open spec fn view(&self) -> VersionValue {
        VersionValue {
            major: self.major,
            minor: self.minor,
            patch: self.patch,
            pre: self.pre@,
            build: self.build@,
        }
    }
}

impl Version {
    /// The release version `major.minor.patch` with no tags.
    pub fn new(major: u64, minor: u64, patch: u64) -> (v: Version)
        ensures
            v@ == (VersionValue { major, minor, patch, pre: Seq::empty(), build: Seq::empty() }),
    {
        Version { major, minor, patch, pre: Vec::new(), build: Vec::new() }
    }
}

impl Plain for Version {
    fn copy(&self) -> (v: Version) {
        Version {
            major: self.major,
            minor: self.minor,
            patch: self.patch,
            pre: bytes_clone(&self.pre),
            build: bytes_clone(&self.build),
        }
    }
}

impl Id for Version {
    fn same(&self, other: &Version) -> (r: bool) {
        self.major == other.major && self.minor == other.minor && self.patch == other.patch
            && bytes_eq(&self.pre, &other.pre) && bytes_eq(&self.build, &other.build)
    }
}

/// One state-changing operation within a record. Keys are carried in their
/// canonical encoding.
#[derive(Clone, Debug, PartialEq, Eq)]
pub enum Entry {
    /// Genesis: fixes the hash algorithm and installs `key` with every permission.
    Init { hash_alg: HashAlg, key: Vec<u8> },
    /// Authorises `key` for the listed permissions.
    GrantFlat { key: Vec<u8>, permissions: Vec<Permission> },
    /// Removes the listed permissions from the key named by `key_id`.
    RevokeFlat { key_id: AnyHash, permissions: Vec<Permission> },
    /// Publishes `version` with the content addressed by `content`.
    Release { version: Version, content: AnyHash },
    /// Marks a released `version` as yanked.
    Yank { version: Version },
}

/// The mathematical value of an [`Entry`].
pub ghost enum EntryValue {
    Init { hash_alg: HashAlg, key: Seq<u8> },
    GrantFlat { key: Seq<u8>, permissions: Seq<Permission> },
    RevokeFlat { key_id: HashValue, permissions: Seq<Permission> },
    Release { version: VersionValue, content: HashValue },
    Yank { version: VersionValue },
}

impl View for Entry {
    type V = EntryValue;

    open spec fn view(&self) -> EntryValue {
        match self {
            Entry::Init { hash_alg, key } => EntryValue::Init { hash_alg: *hash_alg, key: key@ },
            Entry::GrantFlat { key, permissions } => EntryValue::GrantFlat {
                key: key@,
                permissions: permissions@,
            },
            Entry::RevokeFlat { key_id, permissions } => EntryValue::RevokeFlat {
                key_id: key_id@,
                permissions: permissions@,
            },
            Entry::Release { version, content } => EntryValue::Release {
                version: version@,
                content: content@,
            },
            Entry::Yank { version } => EntryValue::Yank { version: version@ },
        }
    }
}

/// The values of a sequence of entries, in order.
pub open spec fn entry_values(entries: Seq<Entry>) -> Seq<EntryValue> {
    Seq::new(entries.len(), |i: int| entries[i]@)
}

/// A copy of a list of permissions.
pub fn permissions_clone(p: &Vec<Permission>) -> (out: Vec<Permission>)
    ensures
        out@ == p@,
{
    let mut out: Vec<Permission> = Vec::new();
    let mut i: usize = 0;
    while i < p.len()
        invariant
            i <= p.len(),
            out@ == p@.subrange(0, i as int),
        decreases p.len() - i,
    {
        out.push(p[i]);
        assert(out@ =~= p@.subrange(0, i + 1));
        i += 1;
    }
    assert(p@.subrange(0, p.len() as int) =~= p@);
    out
}

impl Plain for Entry {
    fn copy(&self) -> (e: Entry) {
        match self {
            Entry::Init { hash_alg, key } => Entry::Init {
                hash_alg: *hash_alg,
                key: bytes_clone(key),
            },
            Entry::GrantFlat { key, permissions } => Entry::GrantFlat {
                key: bytes_clone(key),
                permissions: permissions_clone(permissions),
            },
            Entry::RevokeFlat { key_id, permissions } => Entry::RevokeFlat {
                key_id: key_id.copy(),
                permissions: permissions_clone(permissions),
            },
            Entry::Release { version, content } => Entry::Release {
                version: version.copy(),
                content: content.copy(),
            },
            Entry::Yank { version } => Entry::Yank { version: version.copy() },
        }
    }
}

/// An ordered list of entries signed as a unit and chained to its predecessor.
#[derive(Clone, Debug, PartialEq, Eq)]
pub struct Record {
    /// The hash of the previous record; absent only in the genesis record.
    pub prev: Option<AnyHash>,
    /// The protocol version the record was written for.
    pub version: u32,
    pub timestamp: Timestamp,
    pub entries: Vec<Entry>,
}

/// The mathematical value of a [`Record`].
pub ghost struct RecordValue {
    pub prev: Option<HashValue>,
    pub version: u32,
    pub timestamp: Timestamp,
    pub entries: Seq<EntryValue>,
}

/// The value of an optional hash.
pub open spec fn optional_hash_value(h: Option<AnyHash>) -> Option<HashValue> {
    match h {
        Some(h) => Some(h@),
        None => None,
    }
}

impl View for Record {
    type V = RecordValue;

    open spec fn view(&self) -> RecordValue {
        RecordValue {
            prev: optional_hash_value(self.prev),
            version: self.version,
            timestamp: self.timestamp,
            entries: entry_values(self.entries@),
        }
    }
}

impl Plain for Record {
    fn copy(&self) -> (r: Record) {
        let prev = match &self.prev {
            Some(h) => Some(h.copy()),
            None => None,
        };
        let mut entries: Vec<Entry> = Vec::new();
        let mut i: usize = 0;
        while i < self.entries.len()
            invariant
                i <= self.entries.len(),
                entries.len() == i,
                forall|j: int| 0 <= j < i ==> entries@[j]@ == self.entries@[j]@,
            decreases self.entries.len() - i,
        {
            entries.push(self.entries[i].copy());
            i += 1;
        }
        assert(entry_values(entries@) =~= entry_values(self.entries@));
        Record { prev, version: self.version, timestamp: self.timestamp, entries }
    }
}

} // verus!
