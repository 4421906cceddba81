//! Executable encoder and decoder for the canonical record encoding.

use vstd::prelude::*;
use vstd::bytes::{u32_from_le_bytes, u32_to_le_bytes, u64_from_le_bytes, u64_to_le_bytes};
use vstd::slice::{slice_subrange, slice_to_vec};
use crate::codec::{
    alg_tag, bytes_encodable, dec_alg, dec_bytes, dec_entries, dec_entry, dec_grant, dec_hash,
    dec_init, dec_kind, dec_optional_hash, dec_permission, dec_permission_tags, dec_permissions,
    dec_release, dec_revoke, dec_u32, dec_u64, dec_version, dec_yank, decode_record_spec,
    enc_bytes, enc_entries, enc_entry, enc_hash, enc_optional_hash, enc_permission_tags,
    enc_permissions, enc_u32, enc_u64, enc_version, encode_record_spec, entries_allowed,
    entry_allowed, entry_encodable, hash_encodable, kind_tag, lemma_enc_entries_push,
    permissions_encodable, record_encodable, version_encodable,
};
use crate::hash::{AnyHash, HashAlg, HashValue};
use crate::record::{
    entry_values, Entry, EntryValue, LogKind, Permission, Record, RecordValue, Timestamp, Version,
    VersionValue,
};

verus! {

// ---------------------------------------------------------------- writing

/// Appends `b` to `out`.
pub fn append_bytes(out: &mut Vec<u8>, b: &[u8])
    ensures
        final(out)@ == old(out)@ + b@,
{
    let mut i: usize = 0;
    while i < b.len()
        invariant
            i <= b.len(),
            out@ == old(out)@ + b@.subrange(0, i as int),
        decreases b.len() - i,
    {
        out.push(b[i]);
        assert(out@ =~= old(out)@ + b@.subrange(0, i + 1));
        i += 1;
    }
    assert(b@.subrange(0, b.len() as int) =~= b@);
}

pub fn put_u64(out: &mut Vec<u8>, x: u64)
    ensures
        final(out)@ == old(out)@ + enc_u64(x),
{
    let b = u64_to_le_bytes(x);
    append_bytes(out, b.as_slice());
}

fn put_u32(out: &mut Vec<u8>, x: u32)
    ensures
        final(out)@ == old(out)@ + enc_u32(x),
{
    let b = u32_to_le_bytes(x);
    append_bytes(out, b.as_slice());
}

pub fn put_bytes(out: &mut Vec<u8>, b: &Vec<u8>)
    ensures
        final(out)@ == old(out)@ + enc_bytes(b@),
        bytes_encodable(b@),
{
    put_u64(out, b.len() as u64);
    append_bytes(out, b.as_slice());
    assert(out@ =~= old(out)@ + enc_bytes(b@));
}

fn alg_byte(a: HashAlg) -> (t: u8)
    ensures
        t == alg_tag(a),
{
    match a {
        HashAlg::Sha256 => 0,
        HashAlg::Sha512 => 1,
    }
}

pub fn put_hash(out: &mut Vec<u8>, h: &AnyHash)
    ensures
        final(out)@ == old(out)@ + enc_hash(h@),
        hash_encodable(h@),
{
    out.push(alg_byte(h.alg));
    put_bytes(out, &h.bytes);
    assert(out@ =~= old(out)@ + enc_hash(h@));
}

fn put_version(out: &mut Vec<u8>, v: &Version)
    ensures
        final(out)@ == old(out)@ + enc_version(v@),
        version_encodable(v@),
{
    put_u64(out, v.major);
    put_u64(out, v.minor);
    put_u64(out, v.patch);
    put_bytes(out, &v.pre);
    put_bytes(out, &v.build);
    assert(out@ =~= old(out)@ + enc_version(v@));
}

fn put_permissions(out: &mut Vec<u8>, p: &Vec<Permission>)
    ensures
        final(out)@ == old(out)@ + enc_permissions(p@),
        permissions_encodable(p@),
{
    put_u64(out, p.len() as u64);
    let ghost base = out@;
    let mut i: usize = 0;
    while i < p.len()
        invariant
            i <= p.len(),
            out@ == base + enc_permission_tags(p@.subrange(0, i as int)),
        decreases p.len() - i,
    {
        let t: u8 = match p[i] {
            Permission::Commit => 0,
            Permission::KeyManagement => 1,
        };
        out.push(t);
        assert(out@ =~= base + enc_permission_tags(p@.subrange(0, i + 1)));
        i += 1;
    }
    assert(p@.subrange(0, p.len() as int) =~= p@);
    assert(out@ =~= old(out)@ + enc_permissions(p@));
}

fn put_entry(out: &mut Vec<u8>, e: &Entry)
    ensures
        final(out)@ == old(out)@ + enc_entry(e@),
        entry_encodable(e@),
{
    match e {
        Entry::Init { hash_alg, key } => {
            out.push(0);
            out.push(alg_byte(*hash_alg));
            put_bytes(out, key);
        },
        Entry::GrantFlat { key, permissions } => {
            out.push(1);
            put_bytes(out, key);
            put_permissions(out, permissions);
        },
        Entry::RevokeFlat { key_id, permissions } => {
            out.push(2);
            put_hash(out, key_id);
            put_permissions(out, permissions);
        },
        Entry::Release { version, content } => {
            out.push(3);
            put_version(out, version);
            put_hash(out, content);
        },
        Entry::Yank { version } => {
            out.push(4);
            put_version(out, version);
        },
    }
    assert(out@ =~= old(out)@ + enc_entry(e@));
}

/// Whether a log of the given kind may hold the entry.
pub fn is_entry_allowed(kind: LogKind, e: &Entry) -> (r: bool)
    ensures
        r == entry_allowed(kind, e@),
{
    match kind {
        LogKind::Package => true,
        LogKind::Operator => match e {
            Entry::Release { .. } => false,
            Entry::Yank { .. } => false,
            _ => true,
        },
    }
}

/// Whether a log of the given kind may hold every entry of the list.
pub fn are_entries_allowed(kind: LogKind, entries: &Vec<Entry>) -> (r: bool)
    ensures
        r == entries_allowed(kind, entry_values(entries@)),
{
    let mut i: usize = 0;
    while i < entries.len()
        invariant
            i <= entries.len(),
            forall|j: int| 0 <= j < i ==> entry_allowed(kind, #[trigger] entry_values(entries@)[j]),
        decreases entries.len() - i,
    {
        if !is_entry_allowed(kind, &entries[i]) {
            assert(!entry_allowed(kind, entry_values(entries@)[i as int]));
            return false;
        }
        i += 1;
    }
    true
}

/// The canonical bytes of `record` as a record of the given kind, or `None`
/// when the record holds an entry that a log of that kind cannot hold.
pub fn encode_record(kind: LogKind, record: &Record) -> (out: Option<Vec<u8>>)
    ensures
        out is Some <==> entries_allowed(kind, record@.entries),
        out matches Some(bytes) ==> bytes@ == encode_record_spec(kind, record@)
            && record_encodable(kind, record@),
{
    if !are_entries_allowed(kind, &record.entries) {
        return None;
    }
    let mut out: Vec<u8> = Vec::new();
    out.push(
        match kind {
            LogKind::Operator => 0,
            LogKind::Package => 1,
        },
    );
    put_u32(&mut out, record.version);
    put_u64(&mut out, record.timestamp.secs);
    put_u32(&mut out, record.timestamp.nanos);
    match &record.prev {
        None => {
            out.push(0);
        },
        Some(h) => {
            out.push(1);
            put_hash(&mut out, h);
        },
    }
    put_u64(&mut out, record.entries.len() as u64);
    let ghost head = out@;
    assert(head =~= seq![kind_tag(kind)] + (enc_u32(record@.version) + (enc_u64(
        record@.timestamp.secs,
    ) + (enc_u32(record@.timestamp.nanos) + (enc_optional_hash(record@.prev) + enc_u64(
        record@.entries.len() as u64,
    ))))));
    let ghost values = entry_values(record.entries@);
    let mut i: usize = 0;
    while i < record.entries.len()
        invariant
            i <= record.entries.len(),
            values == entry_values(record.entries@),
            out@ == head + enc_entries(values.subrange(0, i as int)),
            forall|j: int| 0 <= j < i ==> entry_encodable(#[trigger] values[j]),
        decreases record.entries.len() - i,
    {
        put_entry(&mut out, &record.entries[i]);
        proof {
            lemma_enc_entries_push(values.subrange(0, i as int), values[i as int]);
            assert(values.subrange(0, i as int).push(values[i as int]) =~= values.subrange(
                0,
                i + 1,
            ));
        }
        i += 1;
    }
    assert(values.subrange(0, values.len() as int) =~= values);
    assert(out@ =~= encode_record_spec(kind, record@));
    Some(out)
}

// ---------------------------------------------------------------- reading

/// The reader stands at `p`, at or after `pos`, with `rest` still to read.
pub open spec fn cursor_at(data: Seq<u8>, pos: usize, p: usize, rest: Seq<u8>) -> bool {
    pos <= p <= data.len() && rest == data.skip(p as int)
}

fn take_byte(data: &[u8], pos: usize) -> (r: Option<(u8, usize)>)
    requires
        pos <= data.len(),
    ensures
        r is Some <==> pos < data.len(),
        r matches Some((b, p)) ==> b == data@.skip(pos as int)[0] && p == pos + 1
            && data@.skip(pos as int).skip(1) == data@.skip(p as int),
        r is None ==> data@.skip(pos as int).len() == 0,
{
    if pos < data.len() {
        assert(data@.skip(pos as int).skip(1) =~= data@.skip(pos + 1));
        Some((data[pos], pos + 1))
    } else {
        None
    }
}

fn take_u64(data: &[u8], pos: usize) -> (r: Option<(u64, usize)>)
    requires
        pos <= data.len(),
    ensures
        match dec_u64(data@.skip(pos as int)) {
            Some((v, rest)) => r matches Some((x, p)) && x == v && cursor_at(data@, pos, p, rest),
            None => r is None,
        },
{
    if data.len() - pos < 8 {
        return None;
    }
    let piece = slice_subrange(data, pos, pos + 8);
    assert(data@.skip(pos as int).subrange(0, 8) =~= data@.subrange(pos as int, pos + 8));
    assert(data@.skip(pos as int).skip(8) =~= data@.skip(pos + 8));
    Some((u64_from_le_bytes(piece), pos + 8))
}

fn take_u32(data: &[u8], pos: usize) -> (r: Option<(u32, usize)>)
    requires
        pos <= data.len(),
    ensures
        match dec_u32(data@.skip(pos as int)) {
            Some((v, rest)) => r matches Some((x, p)) && x == v && cursor_at(data@, pos, p, rest),
            None => r is None,
        },
{
    if data.len() - pos < 4 {
        return None;
    }
    let piece = slice_subrange(data, pos, pos + 4);
    assert(data@.skip(pos as int).subrange(0, 4) =~= data@.subrange(pos as int, pos + 4));
    assert(data@.skip(pos as int).skip(4) =~= data@.skip(pos + 4));
    Some((u32_from_le_bytes(piece), pos + 4))
}

pub fn take_bytes(data: &[u8], pos: usize) -> (r: Option<(Vec<u8>, usize)>)
    requires
        pos <= data.len(),
    ensures
        match dec_bytes(data@.skip(pos as int)) {
            Some((v, rest)) => r matches Some((x, p)) && x@ == v && cursor_at(data@, pos, p, rest),
            None => r is None,
        },
{
    match take_u64(data, pos) {
        None => None,
        Some((n, p)) => {
            if n > (data.len() - p) as u64 {
                return None;
            }
            let end: usize = p + n as usize;
            let piece = slice_subrange(data, p, end);
            assert(data@.skip(p as int).subrange(0, n as int) =~= data@.subrange(
                p as int,
                end as int,
            ));
            assert(data@.skip(p as int).skip(n as int) =~= data@.skip(end as int));
            Some((slice_to_vec(piece), end))
        },
    }
}

fn take_alg(data: &[u8], pos: usize) -> (r: Option<(HashAlg, usize)>)
    requires
        pos <= data.len(),
    ensures
        match dec_alg(data@.skip(pos as int)) {
            Some((v, rest)) => r matches Some((x, p)) && x == v && cursor_at(data@, pos, p, rest),
            None => r is None,
        },
{
    match take_byte(data, pos) {
        None => None,
        Some((b, p)) => {
            if b == 0 {
                Some((HashAlg::Sha256, p))
            } else if b == 1 {
                Some((HashAlg::Sha512, p))
            } else {
                None
            }
        },
    }
}

fn take_permission(data: &[u8], pos: usize) -> (r: Option<(Permission, usize)>)
    requires
        pos <= data.len(),
    ensures
        match dec_permission(data@.skip(pos as int)) {
            Some((v, rest)) => r matches Some((x, p)) && x == v && cursor_at(data@, pos, p, rest),
            None => r is None,
        },
{
    match take_byte(data, pos) {
        None => None,
        Some((b, p)) => {
            if b == 0 {
                Some((Permission::Commit, p))
            } else if b == 1 {
                Some((Permission::KeyManagement, p))
            } else {
                None
            }
        },
    }
}

pub fn take_hash(data: &[u8], pos: usize) -> (r: Option<(AnyHash, usize)>)
    requires
        pos <= data.len(),
    ensures
        match dec_hash(data@.skip(pos as int)) {
            Some((v, rest)) => r matches Some((x, p)) && x@ == v && cursor_at(data@, pos, p, rest),
            None => r is None,
        },
{
    match take_alg(data, pos) {
        None => None,
        Some((alg, p)) => match take_bytes(data, p) {
            None => None,
            Some((bytes, p)) => Some((AnyHash { alg, bytes }, p)),
        },
    }
}

fn take_optional_hash(data: &[u8], pos: usize) -> (r: Option<(Option<AnyHash>, usize)>)
    requires
        pos <= data.len(),
    ensures
        match dec_optional_hash(data@.skip(pos as int)) {
            Some((v, rest)) => r matches Some((x, p)) && crate::record::optional_hash_value(x) == v
                && cursor_at(data@, pos, p, rest),
            None => r is None,
        },
{
    match take_byte(data, pos) {
        None => None,
        Some((b, p)) => {
            if b == 0 {
                Some((None, p))
            } else if b == 1 {
                match take_hash(data, p) {
                    None => None,
                    Some((h, p)) => Some((Some(h), p)),
                }
            } else {
                None
            }
        },
    }
}

fn take_version(data: &[u8], pos: usize) -> (r: Option<(Version, usize)>)
    requires
        pos <= data.len(),
    ensures
        match dec_version(data@.skip(pos as int)) {
            Some((v, rest)) => r matches Some((x, p)) && x@ == v && cursor_at(data@, pos, p, rest),
            None => r is None,
        },
{
    let (major, p1) = match take_u64(data, pos) {
        None => { return None; },
        Some(x) => x,
    };
    let (minor, p2) = match take_u64(data, p1) {
        None => { return None; },
        Some(x) => x,
    };
    let (patch, p3) = match take_u64(data, p2) {
        None => { return None; },
        Some(x) => x,
    };
    let (pre, p4) = match take_bytes(data, p3) {
        None => { return None; },
        Some(x) => x,
    };
    let (build, p5) = match take_bytes(data, p4) {
        None => { return None; },
        Some(x) => x,
    };
    Some((Version { major, minor, patch, pre, build }, p5))
}

/// Joins a value read first with what was read after it.
pub open spec fn prepend<T>(acc: Seq<T>, tail: Option<(Seq<T>, Seq<u8>)>) -> Option<
    (Seq<T>, Seq<u8>),
> {
    match tail {
        Some((t, rest)) => Some((acc + t, rest)),
        None => None,
    }
}

fn take_permissions(data: &[u8], pos: usize) -> (r: Option<(Vec<Permission>, usize)>)
    requires
        pos <= data.len(),
    ensures
        match dec_permissions(data@.skip(pos as int)) {
            Some((v, rest)) => r matches Some((x, p)) && x@ == v && cursor_at(data@, pos, p, rest),
            None => r is None,
        },
{
    let (n, start) = match take_u64(data, pos) {
        None => { return None; },
        Some(x) => x,
    };
    let ghost whole = dec_permission_tags(data@.skip(start as int), n as nat);
    let mut acc: Vec<Permission> = Vec::new();
    let mut p: usize = start;
    let mut i: u64 = 0;
    assert(prepend(acc@, dec_permission_tags(data@.skip(p as int), n as nat)) =~= whole) by {
        if whole is Some {
            assert(acc@ + whole.unwrap().0 =~= whole.unwrap().0);
        }
    }
    while i < n
        invariant
            i <= n,
            start <= p <= data.len(),
            whole == dec_permission_tags(data@.skip(start as int), n as nat),
            whole == dec_permissions(data@.skip(pos as int)),
            pos <= start,
            prepend(acc@, dec_permission_tags(data@.skip(p as int), (n - i) as nat)) == whole,
        decreases n - i,
    {
        let ghost here = data@.skip(p as int);
        match take_permission(data, p) {
            None => {
                assert(dec_permission_tags(here, (n - i) as nat) is None);
                return None;
            },
            Some((x, q)) => {
                proof {
                    let after = dec_permission_tags(data@.skip(q as int), (n - i - 1) as nat);
                    if after is Some {
                        assert((acc@.push(x)) + after.unwrap().0 =~= acc@ + (seq![x]
                            + after.unwrap().0));
                    }
                }
                acc.push(x);
                p = q;
                i += 1;
            },
        }
    }
    assert(acc@ + Seq::<Permission>::empty() =~= acc@);
    Some((acc, p))
}

fn take_entry(data: &[u8], pos: usize) -> (r: Option<(Entry, usize)>)
    requires
        pos <= data.len(),
    ensures
        match dec_entry(data@.skip(pos as int)) {
            Some((v, rest)) => r matches Some((x, p)) && x@ == v && cursor_at(data@, pos, p, rest),
            None => r is None,
        },
{
    let (tag, p) = match take_byte(data, pos) {
        None => { return None; },
        Some(x) => x,
    };
    if tag == 0 {
        let (hash_alg, p1) = match take_alg(data, p) {
            None => { return None; },
            Some(x) => x,
        };
        let (key, p2) = match take_bytes(data, p1) {
            None => { return None; },
            Some(x) => x,
        };
        Some((Entry::Init { hash_alg, key }, p2))
    } else if tag == 1 {
        let (key, p1) = match take_bytes(data, p) {
            None => { return None; },
            Some(x) => x,
        };
        let (permissions, p2) = match take_permissions(data, p1) {
            None => { return None; },
            Some(x) => x,
        };
        Some((Entry::GrantFlat { key, permissions }, p2))
    } else if tag == 2 {
        let (key_id, p1) = match take_hash(data, p) {
            None => { return None; },
            Some(x) => x,
        };
        let (permissions, p2) = match take_permissions(data, p1) {
            None => { return None; },
            Some(x) => x,
        };
        Some((Entry::RevokeFlat { key_id, permissions }, p2))
    } else if tag == 3 {
        let (version, p1) = match take_version(data, p) {
            None => { return None; },
            Some(x) => x,
        };
        let (content, p2) = match take_hash(data, p1) {
            None => { return None; },
            Some(x) => x,
        };
        Some((Entry::Release { version, content }, p2))
    } else if tag == 4 {
        let (version, p1) = match take_version(data, p) {
            None => { return None; },
            Some(x) => x,
        };
        Some((Entry::Yank { version }, p1))
    } else {
        None
    }
}

fn take_entries(data: &[u8], pos: usize, n: u64) -> (r: Option<(Vec<Entry>, usize)>)
    requires
        pos <= data.len(),
    ensures
        match dec_entries(data@.skip(pos as int), n as nat) {
            Some((v, rest)) => r matches Some((x, p)) && entry_values(x@) == v && cursor_at(
                data@,
                pos,
                p,
                rest,
            ),
            None => r is None,
        },
{
    let ghost whole = dec_entries(data@.skip(pos as int), n as nat);
    let mut acc: Vec<Entry> = Vec::new();
    let mut p: usize = pos;
    let mut i: u64 = 0;
    assert(prepend(entry_values(acc@), dec_entries(data@.skip(p as int), n as nat)) =~= whole) by {
        if whole is Some {
            assert(entry_values(acc@) + whole.unwrap().0 =~= whole.unwrap().0);
        }
    }
    while i < n
        invariant
            i <= n,
            pos <= p <= data.len(),
            whole == dec_entries(data@.skip(pos as int), n as nat),
            prepend(entry_values(acc@), dec_entries(data@.skip(p as int), (n - i) as nat))
                == whole,
        decreases n - i,
    {
        let ghost here = data@.skip(p as int);
        let ghost before = entry_values(acc@);
        match take_entry(data, p) {
            None => {
                assert(dec_entries(here, (n - i) as nat) is None);
                return None;
            },
            Some((x, q)) => {
                acc.push(x);
                proof {
                    assert(entry_values(acc@) =~= before.push(x@));
                    let after = dec_entries(data@.skip(q as int), (n - i - 1) as nat);
                    if after is Some {
                        assert((before.push(x@)) + after.unwrap().0 =~= before + (seq![x@]
                            + after.unwrap().0));
                    }
                }
                p = q;
                i += 1;
            },
        }
    }
    assert(entry_values(acc@) + Seq::<EntryValue>::empty() =~= entry_values(acc@));
    Some((acc, p))
}

/// The kind and record that `data` is the canonical encoding of, or `None`
/// when it is the encoding of none.
pub fn decode_record(data: &[u8]) -> (r: Option<(LogKind, Record)>)
    ensures
        match decode_record_spec(data@) {
            Some((kind, v)) => r matches Some((k, x)) && k == kind && x@ == v,
            None => r is None,
        },
{
    assert(data@.skip(0) =~= data@);
    let (tag, p0) = match take_byte(data, 0) {
        None => { return None; },
        Some(x) => x,
    };
    let kind = if tag == 0 {
        LogKind::Operator
    } else if tag == 1 {
        LogKind::Package
    } else {
        return None;
    };
    assert(dec_kind(data@) == Some((kind, data@.skip(p0 as int))));
    let (version, p1) = match take_u32(data, p0) {
        None => { return None; },
        Some(x) => x,
    };
    let (secs, p2) = match take_u64(data, p1) {
        None => { return None; },
        Some(x) => x,
    };
    let (nanos, p3) = match take_u32(data, p2) {
        None => { return None; },
        Some(x) => x,
    };
    let (prev, p4) = match take_optional_hash(data, p3) {
        None => { return None; },
        Some(x) => x,
    };
    let (n, p5) = match take_u64(data, p4) {
        None => { return None; },
        Some(x) => x,
    };
    let (entries, p6) = match take_entries(data, p5, n) {
        None => { return None; },
        Some(x) => x,
    };
    if p6 != data.len() {
        return None;
    }
    if !are_entries_allowed(kind, &entries) {
        return None;
    }
    Some((kind, Record { prev, version, timestamp: Timestamp { secs, nanos }, entries }))
}

} // verus!
