//! The canonical encoding of records.
//!
//! Every field has exactly one encoding: integers are fixed-width
//! little-endian, byte strings and lists carry their length in front, and every
//! choice is a one-byte tag. Decoding accepts exactly the encodings.

use vstd::prelude::*;
use vstd::bytes::{
    lemma_auto_spec_u32_to_from_le_bytes, lemma_auto_spec_u64_to_from_le_bytes,
    spec_u32_from_le_bytes, spec_u32_to_le_bytes, spec_u64_from_le_bytes, spec_u64_to_le_bytes,
};
use crate::hash::{HashAlg, HashValue};
use crate::record::{EntryValue, LogKind, Permission, RecordValue, Timestamp, VersionValue};

verus! {

// ---------------------------------------------------------------- integers

pub open spec fn enc_u64(x: u64) -> Seq<u8> {
    spec_u64_to_le_bytes(x)
}

pub open spec fn dec_u64(s: Seq<u8>) -> Option<(u64, Seq<u8>)> {
    if s.len() >= 8 {
        Some((spec_u64_from_le_bytes(s.subrange(0, 8)), s.skip(8)))
    } else {
        None
    }
}

pub open spec fn enc_u32(x: u32) -> Seq<u8> {
    spec_u32_to_le_bytes(x)
}

pub open spec fn dec_u32(s: Seq<u8>) -> Option<(u32, Seq<u8>)> {
    if s.len() >= 4 {
        Some((spec_u32_from_le_bytes(s.subrange(0, 4)), s.skip(4)))
    } else {
        None
    }
}

pub proof fn lemma_u64_roundtrip(x: u64, rest: Seq<u8>)
    ensures
        enc_u64(x).len() == 8,
        dec_u64(enc_u64(x) + rest) == Some((x, rest)),
{
    lemma_auto_spec_u64_to_from_le_bytes();
    let s = enc_u64(x) + rest;
    assert(s.subrange(0, 8) =~= enc_u64(x));
    assert(s.skip(8) =~= rest);
}

pub proof fn lemma_u64_canonical(s: Seq<u8>)
    requires
        dec_u64(s) is Some,
    ensures
        s == enc_u64(dec_u64(s).unwrap().0) + dec_u64(s).unwrap().1,
{
    lemma_auto_spec_u64_to_from_le_bytes();
    assert(s =~= s.subrange(0, 8) + s.skip(8));
}

pub proof fn lemma_u32_roundtrip(x: u32, rest: Seq<u8>)
    ensures
        enc_u32(x).len() == 4,
        dec_u32(enc_u32(x) + rest) == Some((x, rest)),
{
    lemma_auto_spec_u32_to_from_le_bytes();
    let s = enc_u32(x) + rest;
    assert(s.subrange(0, 4) =~= enc_u32(x));
    assert(s.skip(4) =~= rest);
}

pub proof fn lemma_u32_canonical(s: Seq<u8>)
    requires
        dec_u32(s) is Some,
    ensures
        s == enc_u32(dec_u32(s).unwrap().0) + dec_u32(s).unwrap().1,
{
    lemma_auto_spec_u32_to_from_le_bytes();
    assert(s =~= s.subrange(0, 4) + s.skip(4));
}

// ------------------------------------------------------------ byte strings

/// A byte string whose length fits the length prefix.
pub open spec fn bytes_encodable(b: Seq<u8>) -> bool {
    b.len() <= u64::MAX
}

pub open spec fn enc_bytes(b: Seq<u8>) -> Seq<u8> {
    enc_u64(b.len() as u64) + b
}

pub open spec fn dec_bytes(s: Seq<u8>) -> Option<(Seq<u8>, Seq<u8>)> {
    match dec_u64(s) {
        Some((n, rest)) => if n <= rest.len() {
            Some((rest.subrange(0, n as int), rest.skip(n as int)))
        } else {
            None
        },
        None => None,
    }
}

pub proof fn lemma_bytes_roundtrip(b: Seq<u8>, rest: Seq<u8>)
    requires
        bytes_encodable(b),
    ensures
        dec_bytes(enc_bytes(b) + rest) == Some((b, rest)),
{
    lemma_u64_roundtrip(b.len() as u64, b + rest);
    assert(enc_bytes(b) + rest =~= enc_u64(b.len() as u64) + (b + rest));
    assert((b + rest).subrange(0, b.len() as int) =~= b);
    assert((b + rest).skip(b.len() as int) =~= rest);
}

pub proof fn lemma_bytes_canonical(s: Seq<u8>)
    requires
        dec_bytes(s) is Some,
    ensures
        s == enc_bytes(dec_bytes(s).unwrap().0) + dec_bytes(s).unwrap().1,
        bytes_encodable(dec_bytes(s).unwrap().0),
{
    lemma_u64_canonical(s);
    let (n, rest) = dec_u64(s).unwrap();
    let b = rest.subrange(0, n as int);
    assert(rest =~= b + rest.skip(n as int));
    assert(s =~= enc_bytes(b) + rest.skip(n as int));
}

// -------------------------------------------------------------------- tags

pub open spec fn kind_tag(k: LogKind) -> u8 {
    match k {
        LogKind::Operator => 0,
        LogKind::Package => 1,
    }
}

pub open spec fn alg_tag(a: HashAlg) -> u8 {
    match a {
        HashAlg::Sha256 => 0,
        HashAlg::Sha512 => 1,
    }
}

pub open spec fn permission_tag(p: Permission) -> u8 {
    match p {
        Permission::Commit => 0,
        Permission::KeyManagement => 1,
    }
}

pub open spec fn dec_kind(s: Seq<u8>) -> Option<(LogKind, Seq<u8>)> {
    if s.len() >= 1 && s[0] == 0 {
        Some((LogKind::Operator, s.skip(1)))
    } else if s.len() >= 1 && s[0] == 1 {
        Some((LogKind::Package, s.skip(1)))
    } else {
        None
    }
}

pub open spec fn dec_alg(s: Seq<u8>) -> Option<(HashAlg, Seq<u8>)> {
    if s.len() >= 1 && s[0] == 0 {
        Some((HashAlg::Sha256, s.skip(1)))
    } else if s.len() >= 1 && s[0] == 1 {
        Some((HashAlg::Sha512, s.skip(1)))
    } else {
        None
    }
}

pub open spec fn dec_permission(s: Seq<u8>) -> Option<(Permission, Seq<u8>)> {
    if s.len() >= 1 && s[0] == 0 {
        Some((Permission::Commit, s.skip(1)))
    } else if s.len() >= 1 && s[0] == 1 {
        Some((Permission::KeyManagement, s.skip(1)))
    } else {
        None
    }
}

// ------------------------------------------------------------------ hashes

pub open spec fn hash_encodable(h: HashValue) -> bool {
    bytes_encodable(h.bytes)
}

pub open spec fn enc_hash(h: HashValue) -> Seq<u8> {
    seq![alg_tag(h.alg)] + enc_bytes(h.bytes)
}

pub open spec fn dec_hash(s: Seq<u8>) -> Option<(HashValue, Seq<u8>)> {
    match dec_alg(s) {
        Some((alg, rest)) => match dec_bytes(rest) {
            Some((bytes, rest)) => Some((HashValue { alg, bytes }, rest)),
            None => None,
        },
        None => None,
    }
}

pub proof fn lemma_hash_roundtrip(h: HashValue, rest: Seq<u8>)
    requires
        hash_encodable(h),
    ensures
        dec_hash(enc_hash(h) + rest) == Some((h, rest)),
{
    let s = enc_hash(h) + rest;
    assert(s.skip(1) =~= enc_bytes(h.bytes) + rest);
    lemma_bytes_roundtrip(h.bytes, rest);
}

pub proof fn lemma_hash_canonical(s: Seq<u8>)
    requires
        dec_hash(s) is Some,
    ensures
        s == enc_hash(dec_hash(s).unwrap().0) + dec_hash(s).unwrap().1,
        hash_encodable(dec_hash(s).unwrap().0),
{
    lemma_bytes_canonical(s.skip(1));
    assert(s =~= seq![s[0]] + s.skip(1));
    let (h, rest) = dec_hash(s).unwrap();
    assert(s =~= enc_hash(h) + rest);
}

pub open spec fn optional_hash_encodable(h: Option<HashValue>) -> bool {
    h matches Some(h) ==> hash_encodable(h)
}

pub open spec fn enc_optional_hash(h: Option<HashValue>) -> Seq<u8> {
    match h {
        None => seq![0u8],
        Some(h) => seq![1u8] + enc_hash(h),
    }
}

pub open spec fn dec_optional_hash(s: Seq<u8>) -> Option<(Option<HashValue>, Seq<u8>)> {
    if s.len() >= 1 && s[0] == 0 {
        Some((None, s.skip(1)))
    } else if s.len() >= 1 && s[0] == 1 {
        match dec_hash(s.skip(1)) {
            Some((h, rest)) => Some((Some(h), rest)),
            None => None,
        }
    } else {
        None
    }
}

pub proof fn lemma_optional_hash_roundtrip(h: Option<HashValue>, rest: Seq<u8>)
    requires
        optional_hash_encodable(h),
    ensures
        dec_optional_hash(enc_optional_hash(h) + rest) == Some((h, rest)),
{
    let s = enc_optional_hash(h) + rest;
    match h {
        None => {
            assert(s.skip(1) =~= rest);
        },
        Some(v) => {
            assert(s.skip(1) =~= enc_hash(v) + rest);
            lemma_hash_roundtrip(v, rest);
        },
    }
}

pub proof fn lemma_optional_hash_canonical(s: Seq<u8>)
    requires
        dec_optional_hash(s) is Some,
    ensures
        s == enc_optional_hash(dec_optional_hash(s).unwrap().0) + dec_optional_hash(s).unwrap().1,
        optional_hash_encodable(dec_optional_hash(s).unwrap().0),
{
    assert(s =~= seq![s[0]] + s.skip(1));
    if s[0] == 1 {
        lemma_hash_canonical(s.skip(1));
        let (h, rest) = dec_hash(s.skip(1)).unwrap();
        assert(s =~= (seq![1u8] + enc_hash(h)) + rest);
    }
}

// ---------------------------------------------------------------- versions

pub open spec fn version_encodable(v: VersionValue) -> bool {
    bytes_encodable(v.pre) && bytes_encodable(v.build)
}

pub open spec fn enc_version(v: VersionValue) -> Seq<u8> {
    enc_u64(v.major) + enc_u64(v.minor) + enc_u64(v.patch) + enc_bytes(v.pre) + enc_bytes(
        v.build,
    )
}

pub open spec fn dec_version(s: Seq<u8>) -> Option<(VersionValue, Seq<u8>)> {
    match dec_u64(s) {
        Some((major, s1)) => match dec_u64(s1) {
            Some((minor, s2)) => match dec_u64(s2) {
                Some((patch, s3)) => match dec_bytes(s3) {
                    Some((pre, s4)) => match dec_bytes(s4) {
                        Some((build, s5)) => Some(
                            (VersionValue { major, minor, patch, pre, build }, s5),
                        ),
                        None => None,
                    },
                    None => None,
                },
                None => None,
            },
            None => None,
        },
        None => None,
    }
}

pub proof fn lemma_version_roundtrip(v: VersionValue, rest: Seq<u8>)
    requires
        version_encodable(v),
    ensures
        dec_version(enc_version(v) + rest) == Some((v, rest)),
{
    let s5 = rest;
    let s4 = enc_bytes(v.build) + s5;
    let s3 = enc_bytes(v.pre) + s4;
    let s2 = enc_u64(v.patch) + s3;
    let s1 = enc_u64(v.minor) + s2;
    assert(enc_version(v) + rest =~= enc_u64(v.major) + s1);
    lemma_u64_roundtrip(v.major, s1);
    lemma_u64_roundtrip(v.minor, s2);
    lemma_u64_roundtrip(v.patch, s3);
    lemma_bytes_roundtrip(v.pre, s4);
    lemma_bytes_roundtrip(v.build, s5);
}

pub proof fn lemma_version_canonical(s: Seq<u8>)
    requires
        dec_version(s) is Some,
    ensures
        s == enc_version(dec_version(s).unwrap().0) + dec_version(s).unwrap().1,
        version_encodable(dec_version(s).unwrap().0),
{
    lemma_u64_canonical(s);
    let s1 = dec_u64(s).unwrap().1;
    lemma_u64_canonical(s1);
    let s2 = dec_u64(s1).unwrap().1;
    lemma_u64_canonical(s2);
    let s3 = dec_u64(s2).unwrap().1;
    lemma_bytes_canonical(s3);
    let s4 = dec_bytes(s3).unwrap().1;
    lemma_bytes_canonical(s4);
    let (v, rest) = dec_version(s).unwrap();
    assert(s =~= enc_version(v) + rest);
}

// ------------------------------------------------------------- permissions

/// One tag byte for each permission, in order.
pub open spec fn enc_permission_tags(p: Seq<Permission>) -> Seq<u8> {
    Seq::new(p.len(), |i: int| permission_tag(p[i]))
}

pub open spec fn permissions_encodable(p: Seq<Permission>) -> bool {
    p.len() <= u64::MAX
}

pub open spec fn enc_permissions(p: Seq<Permission>) -> Seq<u8> {
    enc_u64(p.len() as u64) + enc_permission_tags(p)
}

/// Reads `n` permission tags from the front of `s`.
pub open spec fn dec_permission_tags(s: Seq<u8>, n: nat) -> Option<(Seq<Permission>, Seq<u8>)>
    decreases n,
{
    if n == 0 {
        Some((Seq::empty(), s))
    } else {
        match dec_permission(s) {
            Some((p, rest)) => match dec_permission_tags(rest, (n - 1) as nat) {
                Some((tail, rest)) => Some((seq![p] + tail, rest)),
                None => None,
            },
            None => None,
        }
    }
}

pub open spec fn dec_permissions(s: Seq<u8>) -> Option<(Seq<Permission>, Seq<u8>)> {
    match dec_u64(s) {
        Some((n, rest)) => dec_permission_tags(rest, n as nat),
        None => None,
    }
}

pub proof fn lemma_permission_tags_roundtrip(p: Seq<Permission>, rest: Seq<u8>)
    ensures
        dec_permission_tags(enc_permission_tags(p) + rest, p.len()) == Some((p, rest)),
    decreases p.len(),
{
    let s = enc_permission_tags(p) + rest;
    if p.len() == 0 {
        assert(s =~= rest);
        assert(p =~= Seq::empty());
    } else {
        let tail = p.skip(1);
        assert(s.skip(1) =~= enc_permission_tags(tail) + rest);
        assert(s[0] == permission_tag(p[0]));
        lemma_permission_tags_roundtrip(tail, rest);
        assert(seq![p[0]] + tail =~= p);
    }
}

pub proof fn lemma_permission_tags_canonical(s: Seq<u8>, n: nat)
    requires
        dec_permission_tags(s, n) is Some,
    ensures
        dec_permission_tags(s, n).unwrap().0.len() == n,
        s == enc_permission_tags(dec_permission_tags(s, n).unwrap().0) + dec_permission_tags(s, n).unwrap().1,
    decreases n,
{
    if n == 0 {
        assert(s =~= enc_permission_tags(Seq::empty()) + s);
    } else {
        let (p, r1) = dec_permission(s).unwrap();
        lemma_permission_tags_canonical(r1, (n - 1) as nat);
        let (tail, rest) = dec_permission_tags(r1, (n - 1) as nat).unwrap();
        let all = seq![p] + tail;
        assert(s =~= seq![s[0]] + s.skip(1));
        assert(enc_permission_tags(all) =~= seq![permission_tag(p)] + enc_permission_tags(tail));
        assert(s =~= enc_permission_tags(all) + rest);
    }
}

pub proof fn lemma_permissions_roundtrip(p: Seq<Permission>, rest: Seq<u8>)
    requires
        permissions_encodable(p),
    ensures
        dec_permissions(enc_permissions(p) + rest) == Some((p, rest)),
{
    assert(enc_permissions(p) + rest =~= enc_u64(p.len() as u64) + (enc_permission_tags(p) + rest));
    lemma_u64_roundtrip(p.len() as u64, enc_permission_tags(p) + rest);
    lemma_permission_tags_roundtrip(p, rest);
}

pub proof fn lemma_permissions_canonical(s: Seq<u8>)
    requires
        dec_permissions(s) is Some,
    ensures
        s == enc_permissions(dec_permissions(s).unwrap().0) + dec_permissions(s).unwrap().1,
        permissions_encodable(dec_permissions(s).unwrap().0),
{
    lemma_u64_canonical(s);
    let (n, r1) = dec_u64(s).unwrap();
    lemma_permission_tags_canonical(r1, n as nat);
    let (p, rest) = dec_permissions(s).unwrap();
    assert(s =~= enc_permissions(p) + rest);
}

// ----------------------------------------------------------------- entries

pub open spec fn entry_encodable(e: EntryValue) -> bool {
    match e {
        EntryValue::Init { hash_alg, key } => bytes_encodable(key),
        EntryValue::GrantFlat { key, permissions } => bytes_encodable(key)
            && permissions_encodable(permissions),
        EntryValue::RevokeFlat { key_id, permissions } => hash_encodable(key_id)
            && permissions_encodable(permissions),
        EntryValue::Release { version, content } => version_encodable(version) && hash_encodable(
            content,
        ),
        EntryValue::Yank { version } => version_encodable(version),
    }
}

pub open spec fn enc_entry(e: EntryValue) -> Seq<u8> {
    seq![entry_tag(e)] + enc_entry_body(e)
}

pub open spec fn dec_init(s: Seq<u8>) -> Option<(EntryValue, Seq<u8>)> {
    match dec_alg(s) {
        Some((hash_alg, s1)) => match dec_bytes(s1) {
            Some((key, rest)) => Some((EntryValue::Init { hash_alg, key }, rest)),
            None => None,
        },
        None => None,
    }
}

pub open spec fn dec_grant(s: Seq<u8>) -> Option<(EntryValue, Seq<u8>)> {
    match dec_bytes(s) {
        Some((key, s1)) => match dec_permissions(s1) {
            Some((permissions, rest)) => Some((EntryValue::GrantFlat { key, permissions }, rest)),
            None => None,
        },
        None => None,
    }
}

pub open spec fn dec_revoke(s: Seq<u8>) -> Option<(EntryValue, Seq<u8>)> {
    match dec_hash(s) {
        Some((key_id, s1)) => match dec_permissions(s1) {
            Some((permissions, rest)) => Some(
                (EntryValue::RevokeFlat { key_id, permissions }, rest),
            ),
            None => None,
        },
        None => None,
    }
}

pub open spec fn dec_release(s: Seq<u8>) -> Option<(EntryValue, Seq<u8>)> {
    match dec_version(s) {
        Some((version, s1)) => match dec_hash(s1) {
            Some((content, rest)) => Some((EntryValue::Release { version, content }, rest)),
            None => None,
        },
        None => None,
    }
}

pub open spec fn dec_yank(s: Seq<u8>) -> Option<(EntryValue, Seq<u8>)> {
    match dec_version(s) {
        Some((version, rest)) => Some((EntryValue::Yank { version }, rest)),
        None => None,
    }
}

pub open spec fn dec_entry(s: Seq<u8>) -> Option<(EntryValue, Seq<u8>)> {
    if s.len() == 0 {
        None
    } else if s[0] == 0 {
        dec_init(s.skip(1))
    } else if s[0] == 1 {
        dec_grant(s.skip(1))
    } else if s[0] == 2 {
        dec_revoke(s.skip(1))
    } else if s[0] == 3 {
        dec_release(s.skip(1))
    } else if s[0] == 4 {
        dec_yank(s.skip(1))
    } else {
        None
    }
}

proof fn lemma_init_roundtrip(hash_alg: HashAlg, key: Seq<u8>, rest: Seq<u8>)
    requires
        bytes_encodable(key),
    ensures
        dec_init((seq![alg_tag(hash_alg)] + enc_bytes(key)) + rest) == Some(
            (EntryValue::Init { hash_alg, key }, rest),
        ),
{
    let body = (seq![alg_tag(hash_alg)] + enc_bytes(key)) + rest;
    assert(body[0] == alg_tag(hash_alg));
    assert(body.skip(1) =~= enc_bytes(key) + rest);
    lemma_bytes_roundtrip(key, rest);
}

proof fn lemma_grant_roundtrip(key: Seq<u8>, permissions: Seq<Permission>, rest: Seq<u8>)
    requires
        bytes_encodable(key),
        permissions_encodable(permissions),
    ensures
        dec_grant((enc_bytes(key) + enc_permissions(permissions)) + rest) == Some(
            (EntryValue::GrantFlat { key, permissions }, rest),
        ),
{
    let body = (enc_bytes(key) + enc_permissions(permissions)) + rest;
    assert(body =~= enc_bytes(key) + (enc_permissions(permissions) + rest));
    lemma_bytes_roundtrip(key, enc_permissions(permissions) + rest);
    lemma_permissions_roundtrip(permissions, rest);
}

proof fn lemma_revoke_roundtrip(key_id: HashValue, permissions: Seq<Permission>, rest: Seq<u8>)
    requires
        hash_encodable(key_id),
        permissions_encodable(permissions),
    ensures
        dec_revoke((enc_hash(key_id) + enc_permissions(permissions)) + rest) == Some(
            (EntryValue::RevokeFlat { key_id, permissions }, rest),
        ),
{
    let body = (enc_hash(key_id) + enc_permissions(permissions)) + rest;
    assert(body =~= enc_hash(key_id) + (enc_permissions(permissions) + rest));
    lemma_hash_roundtrip(key_id, enc_permissions(permissions) + rest);
    lemma_permissions_roundtrip(permissions, rest);
}

proof fn lemma_release_roundtrip(version: VersionValue, content: HashValue, rest: Seq<u8>)
    requires
        version_encodable(version),
        hash_encodable(content),
    ensures
        dec_release((enc_version(version) + enc_hash(content)) + rest) == Some(
            (EntryValue::Release { version, content }, rest),
        ),
{
    let body = (enc_version(version) + enc_hash(content)) + rest;
    assert(body =~= enc_version(version) + (enc_hash(content) + rest));
    lemma_version_roundtrip(version, enc_hash(content) + rest);
    lemma_hash_roundtrip(content, rest);
}

proof fn lemma_yank_roundtrip(version: VersionValue, rest: Seq<u8>)
    requires
        version_encodable(version),
    ensures
        dec_yank(enc_version(version) + rest) == Some((EntryValue::Yank { version }, rest)),
{
    lemma_version_roundtrip(version, rest);
}

/// What follows the tag byte of an entry's encoding.
pub open spec fn enc_entry_body(e: EntryValue) -> Seq<u8> {
    match e {
        EntryValue::Init { hash_alg, key } => seq![alg_tag(hash_alg)] + enc_bytes(key),
        EntryValue::GrantFlat { key, permissions } => enc_bytes(key) + enc_permissions(
            permissions,
        ),
        EntryValue::RevokeFlat { key_id, permissions } => enc_hash(key_id) + enc_permissions(
            permissions,
        ),
        EntryValue::Release { version, content } => enc_version(version) + enc_hash(content),
        EntryValue::Yank { version } => enc_version(version),
    }
}

/// The tag byte of an entry's encoding.
pub open spec fn entry_tag(e: EntryValue) -> u8 {
    match e {
        EntryValue::Init { .. } => 0,
        EntryValue::GrantFlat { .. } => 1,
        EntryValue::RevokeFlat { .. } => 2,
        EntryValue::Release { .. } => 3,
        EntryValue::Yank { .. } => 4,
    }
}

pub proof fn lemma_entry_roundtrip(e: EntryValue, rest: Seq<u8>)
    requires
        entry_encodable(e),
    ensures
        dec_entry(enc_entry(e) + rest) == Some((e, rest)),
{
    let s = enc_entry(e) + rest;
    assert(enc_entry(e) == seq![entry_tag(e)] + enc_entry_body(e));
    assert(s[0] == entry_tag(e));
    assert(s.skip(1) =~= enc_entry_body(e) + rest);
    match e {
        EntryValue::Init { hash_alg, key } => {
            lemma_init_roundtrip(hash_alg, key, rest);
        },
        EntryValue::GrantFlat { key, permissions } => {
            lemma_grant_roundtrip(key, permissions, rest);
        },
        EntryValue::RevokeFlat { key_id, permissions } => {
            lemma_revoke_roundtrip(key_id, permissions, rest);
        },
        EntryValue::Release { version, content } => {
            lemma_release_roundtrip(version, content, rest);
        },
        EntryValue::Yank { version } => {
            lemma_yank_roundtrip(version, rest);
        },
    }
}

proof fn lemma_init_canonical(s: Seq<u8>)
    requires
        dec_init(s) is Some,
    ensures
        s == enc_entry_body(dec_init(s).unwrap().0) + dec_init(s).unwrap().1,
        entry_encodable(dec_init(s).unwrap().0),
        dec_init(s).unwrap().0 is Init,
{
    let s1 = dec_alg(s).unwrap().1;
    assert(s =~= seq![s[0]] + s1);
    lemma_bytes_canonical(s1);
    let (e, rest) = dec_init(s).unwrap();
    assert(s =~= enc_entry_body(e) + rest);
}

proof fn lemma_grant_canonical(s: Seq<u8>)
    requires
        dec_grant(s) is Some,
    ensures
        s == enc_entry_body(dec_grant(s).unwrap().0) + dec_grant(s).unwrap().1,
        entry_encodable(dec_grant(s).unwrap().0),
        dec_grant(s).unwrap().0 is GrantFlat,
{
    lemma_bytes_canonical(s);
    lemma_permissions_canonical(dec_bytes(s).unwrap().1);
    let (e, rest) = dec_grant(s).unwrap();
    assert(s =~= enc_entry_body(e) + rest);
}

proof fn lemma_revoke_canonical(s: Seq<u8>)
    requires
        dec_revoke(s) is Some,
    ensures
        s == enc_entry_body(dec_revoke(s).unwrap().0) + dec_revoke(s).unwrap().1,
        entry_encodable(dec_revoke(s).unwrap().0),
        dec_revoke(s).unwrap().0 is RevokeFlat,
{
    lemma_hash_canonical(s);
    lemma_permissions_canonical(dec_hash(s).unwrap().1);
    let (e, rest) = dec_revoke(s).unwrap();
    assert(s =~= enc_entry_body(e) + rest);
}

proof fn lemma_release_canonical(s: Seq<u8>)
    requires
        dec_release(s) is Some,
    ensures
        s == enc_entry_body(dec_release(s).unwrap().0) + dec_release(s).unwrap().1,
        entry_encodable(dec_release(s).unwrap().0),
        dec_release(s).unwrap().0 is Release,
{
    lemma_version_canonical(s);
    lemma_hash_canonical(dec_version(s).unwrap().1);
    let (e, rest) = dec_release(s).unwrap();
    assert(s =~= enc_entry_body(e) + rest);
}

proof fn lemma_yank_canonical(s: Seq<u8>)
    requires
        dec_yank(s) is Some,
    ensures
        s == enc_entry_body(dec_yank(s).unwrap().0) + dec_yank(s).unwrap().1,
        entry_encodable(dec_yank(s).unwrap().0),
        dec_yank(s).unwrap().0 is Yank,
{
    lemma_version_canonical(s);
}

pub proof fn lemma_entry_canonical(s: Seq<u8>)
    requires
        dec_entry(s) is Some,
    ensures
        s == enc_entry(dec_entry(s).unwrap().0) + dec_entry(s).unwrap().1,
        entry_encodable(dec_entry(s).unwrap().0),
{
    let body = s.skip(1);
    assert(s =~= seq![s[0]] + body);
    let (e, rest) = dec_entry(s).unwrap();
    if s[0] == 0 {
        lemma_init_canonical(body);
    } else if s[0] == 1 {
        lemma_grant_canonical(body);
    } else if s[0] == 2 {
        lemma_revoke_canonical(body);
    } else if s[0] == 3 {
        lemma_release_canonical(body);
    } else {
        lemma_yank_canonical(body);
    }
    assert(entry_tag(e) == s[0]);
    assert(body == enc_entry_body(e) + rest);
    assert(s =~= (seq![entry_tag(e)] + enc_entry_body(e)) + rest);
}

// ------------------------------------------------------------ entry lists

pub open spec fn entries_encodable(es: Seq<EntryValue>) -> bool {
    es.len() <= u64::MAX && forall|i: int| 0 <= i < es.len() ==> entry_encodable(#[trigger] es[i])
}

/// The encodings of the entries one after another.
pub open spec fn enc_entries(es: Seq<EntryValue>) -> Seq<u8>
    decreases es.len(),
{
    if es.len() == 0 {
        Seq::empty()
    } else {
        enc_entry(es[0]) + enc_entries(es.skip(1))
    }
}

/// Reads `n` entries from the front of `s`.
pub open spec fn dec_entries(s: Seq<u8>, n: nat) -> Option<(Seq<EntryValue>, Seq<u8>)>
    decreases n,
{
    if n == 0 {
        Some((Seq::empty(), s))
    } else {
        match dec_entry(s) {
            Some((e, rest)) => match dec_entries(rest, (n - 1) as nat) {
                Some((tail, rest)) => Some((seq![e] + tail, rest)),
                None => None,
            },
            None => None,
        }
    }
}

pub proof fn lemma_entries_roundtrip(es: Seq<EntryValue>, rest: Seq<u8>)
    requires
        forall|i: int| 0 <= i < es.len() ==> entry_encodable(#[trigger] es[i]),
    ensures
        dec_entries(enc_entries(es) + rest, es.len()) == Some((es, rest)),
    decreases es.len(),
{
    if es.len() == 0 {
        assert(enc_entries(es) + rest =~= rest);
        assert(es =~= Seq::empty());
    } else {
        let tail = es.skip(1);
        assert(enc_entries(es) + rest =~= enc_entry(es[0]) + (enc_entries(tail) + rest));
        lemma_entry_roundtrip(es[0], enc_entries(tail) + rest);
        assert forall|i: int| 0 <= i < tail.len() implies entry_encodable(#[trigger] tail[i]) by {
            assert(tail[i] == es[i + 1]);
        }
        lemma_entries_roundtrip(tail, rest);
        assert(seq![es[0]] + tail =~= es);
    }
}

pub proof fn lemma_entries_canonical(s: Seq<u8>, n: nat)
    requires
        dec_entries(s, n) is Some,
    ensures
        dec_entries(s, n).unwrap().0.len() == n,
        s == enc_entries(dec_entries(s, n).unwrap().0) + dec_entries(s, n).unwrap().1,
        forall|i: int|
            0 <= i < n ==> entry_encodable(#[trigger] dec_entries(s, n).unwrap().0[i]),
    decreases n,
{
    if n == 0 {
        assert(s =~= enc_entries(Seq::empty()) + s);
    } else {
        lemma_entry_canonical(s);
        let (e, r1) = dec_entry(s).unwrap();
        lemma_entries_canonical(r1, (n - 1) as nat);
        let (tail, rest) = dec_entries(r1, (n - 1) as nat).unwrap();
        let all = seq![e] + tail;
        assert(all.skip(1) =~= tail);
        assert(s =~= enc_entries(all) + rest);
        assert forall|i: int| 0 <= i < n implies entry_encodable(#[trigger] all[i]) by {
            if i > 0 {
                assert(all[i] == tail[i - 1]);
            }
        }
    }
}

/// Appending one entry appends its encoding.
pub proof fn lemma_enc_entries_push(es: Seq<EntryValue>, e: EntryValue)
    ensures
        enc_entries(es.push(e)) == enc_entries(es) + enc_entry(e),
    decreases es.len(),
{
    if es.len() == 0 {
        let one = es.push(e);
        assert(one.skip(1) =~= Seq::<EntryValue>::empty());
        assert(one[0] == e);
        assert(enc_entries(one.skip(1)) =~= Seq::<u8>::empty());
        assert(enc_entries(one) == enc_entry(e) + enc_entries(one.skip(1)));
        assert(enc_entries(es) =~= Seq::<u8>::empty());
        assert(enc_entries(one) =~= enc_entries(es) + enc_entry(e));
    } else {
        assert(es.push(e)[0] == es[0]);
        assert(es.push(e).skip(1) =~= es.skip(1).push(e));
        lemma_enc_entries_push(es.skip(1), e);
        assert(enc_entries(es.push(e)) =~= enc_entries(es) + enc_entry(e));
    }
}

// ----------------------------------------------------------------- records

/// Whether a log of the given kind may hold the entry.
pub open spec fn entry_allowed(kind: LogKind, e: EntryValue) -> bool {
    kind == LogKind::Package || !(e is Release || e is Yank)
}

/// Whether every entry of the list may stand in a log of the given kind.
pub open spec fn entries_allowed(kind: LogKind, es: Seq<EntryValue>) -> bool {
    forall|i: int| 0 <= i < es.len() ==> entry_allowed(kind, #[trigger] es[i])
}

/// A record that has an encoding as a record of the given kind.
pub open spec fn record_encodable(kind: LogKind, r: RecordValue) -> bool {
    &&& optional_hash_encodable(r.prev)
    &&& entries_encodable(r.entries)
    &&& entries_allowed(kind, r.entries)
}

/// The canonical bytes of a record of the given kind.
pub open spec fn encode_record_spec(kind: LogKind, r: RecordValue) -> Seq<u8> {
    seq![kind_tag(kind)] + (enc_u32(r.version) + (enc_u64(r.timestamp.secs) + (enc_u32(
        r.timestamp.nanos,
    ) + (enc_optional_hash(r.prev) + (enc_u64(r.entries.len() as u64) + enc_entries(
        r.entries,
    ))))))
}

/// The kind and record that `s` is the canonical encoding of, if it is one.
pub open spec fn decode_record_spec(s: Seq<u8>) -> Option<(LogKind, RecordValue)> {
    match dec_kind(s) {
        Some((kind, s1)) => match dec_u32(s1) {
            Some((version, s2)) => match dec_u64(s2) {
                Some((secs, s3)) => match dec_u32(s3) {
                    Some((nanos, s4)) => match dec_optional_hash(s4) {
                        Some((prev, s5)) => match dec_u64(s5) {
                            Some((n, s6)) => match dec_entries(s6, n as nat) {
                                Some((entries, rest)) => if rest.len() == 0 && entries_allowed(
                                    kind,
                                    entries,
                                ) {
                                    Some(
                                        (
                                            kind,
                                            RecordValue {
                                                prev,
                                                version,
                                                timestamp: Timestamp { secs, nanos },
                                                entries,
                                            },
                                        ),
                                    )
                                } else {
                                    None
                                },
                                None => None,
                            },
                            None => None,
                        },
                        None => None,
                    },
                    None => None,
                },
                None => None,
            },
            None => None,
        },
        None => None,
    }
}

/// Decoding the canonical bytes of a record gives the record back.
pub proof fn lemma_record_roundtrip(kind: LogKind, r: RecordValue)
    requires
        record_encodable(kind, r),
    ensures
        decode_record_spec(encode_record_spec(kind, r)) == Some((kind, r)),
{
    let s = encode_record_spec(kind, r);
    let s6 = enc_entries(r.entries);
    let s5 = enc_u64(r.entries.len() as u64) + s6;
    let s4 = enc_optional_hash(r.prev) + s5;
    let s3 = enc_u32(r.timestamp.nanos) + s4;
    let s2 = enc_u64(r.timestamp.secs) + s3;
    let s1 = enc_u32(r.version) + s2;
    assert(s.skip(1) =~= s1);
    assert(s[0] == kind_tag(kind));
    lemma_u32_roundtrip(r.version, s2);
    lemma_u64_roundtrip(r.timestamp.secs, s3);
    lemma_u32_roundtrip(r.timestamp.nanos, s4);
    lemma_optional_hash_roundtrip(r.prev, s5);
    lemma_u64_roundtrip(r.entries.len() as u64, s6);
    assert(s6 =~= enc_entries(r.entries) + Seq::<u8>::empty());
    lemma_entries_roundtrip(r.entries, Seq::empty());
}

/// Only the canonical bytes of a record decode to it.
pub proof fn lemma_record_canonical(s: Seq<u8>)
    requires
        decode_record_spec(s) is Some,
    ensures
        encode_record_spec(decode_record_spec(s).unwrap().0, decode_record_spec(s).unwrap().1)
            == s,
        record_encodable(decode_record_spec(s).unwrap().0, decode_record_spec(s).unwrap().1),
{
    let (kind, r) = decode_record_spec(s).unwrap();
    let s1 = s.skip(1);
    assert(s =~= seq![s[0]] + s1);
    lemma_u32_canonical(s1);
    let s2 = dec_u32(s1).unwrap().1;
    lemma_u64_canonical(s2);
    let s3 = dec_u64(s2).unwrap().1;
    lemma_u32_canonical(s3);
    let s4 = dec_u32(s3).unwrap().1;
    lemma_optional_hash_canonical(s4);
    let s5 = dec_optional_hash(s4).unwrap().1;
    lemma_u64_canonical(s5);
    let (n, s6) = dec_u64(s5).unwrap();
    lemma_entries_canonical(s6, n as nat);
    let rest = dec_entries(s6, n as nat).unwrap().1;
    assert(rest =~= Seq::<u8>::empty());
    assert(s6 =~= enc_entries(r.entries));
    assert(encode_record_spec(kind, r) =~= s);
}

} // verus!
