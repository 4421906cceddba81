//! The textual forms of numbers, hashes and versions, and the messages of
//! validation errors.

use vstd::prelude::*;
use vstd::string::{StrSliceExecFns, StringExecFns};
use crate::hash::{AnyHash, HashAlg, HashValue};
use crate::record::{Permission, Version, VersionValue};
use crate::state::{ErrorValue, Violation};
use crate::validator::ValidationError;

verus! {

/// Calls `String::push`, which appends one character.
#[verifier::external_body]
fn push_char(s: &mut String, c: char)
    ensures
        final(s)@ == old(s)@.push(c),
{
    s.push(c)
}

/// The character of a digit below sixteen: `0` to `9`, then `a` to `f`.
pub open spec fn digit_char(d: u8) -> char {
    if d < 10 {
        (48 + d) as char
    } else {
        (87 + d) as char
    }
}

fn digit(d: u8) -> (c: char)
    requires
        d < 16,
    ensures
        c == digit_char(d),
{
    if d < 10 {
        (48 + d) as char
    } else {
        (87 + d) as char
    }
}

/// The decimal digits of a number, most significant first, without leading
/// zeros; `0` for zero.
pub open spec fn decimal_text(n: nat) -> Seq<char>
    decreases n,
{
    if n < 10 {
        seq![digit_char(n as u8)]
    } else {
        decimal_text(n / 10).push(digit_char((n % 10) as u8))
    }
}

/// Two lowercase hexadecimal digits for each byte.
pub open spec fn hex_text(bytes: Seq<u8>) -> Seq<char>
    decreases bytes.len(),
{
    if bytes.len() == 0 {
        Seq::empty()
    } else {
        hex_text(bytes.drop_last()).push(digit_char(bytes.last() / 16)).push(
            digit_char(bytes.last() % 16),
        )
    }
}

/// Each byte as the character with that code.
pub open spec fn latin_text(bytes: Seq<u8>) -> Seq<char> {
    Seq::new(bytes.len(), |i: int| bytes[i] as char)
}

/// The name of a hash algorithm.
pub open spec fn alg_text(alg: HashAlg) -> Seq<char> {
    match alg {
        HashAlg::Sha256 => "sha256"@,
        HashAlg::Sha512 => "sha512"@,
    }
}

/// The textual form of a hash: `<algorithm>:<lowercase hex>`.
pub open spec fn hash_text(h: HashValue) -> Seq<char> {
    alg_text(h.alg) + ":"@ + hex_text(h.bytes)
}

/// The textual form of a version: `major.minor.patch`, then `-` and the
/// pre-release tag if there is one, then `+` and the build metadata if there is
/// any.
pub open spec fn version_text(v: VersionValue) -> Seq<char> {
    decimal_text(v.major as nat) + "."@ + decimal_text(v.minor as nat) + "."@ + decimal_text(
        v.patch as nat,
    ) + (if v.pre.len() > 0 {
        "-"@ + latin_text(v.pre)
    } else {
        Seq::empty()
    }) + (if v.build.len() > 0 {
        "+"@ + latin_text(v.build)
    } else {
        Seq::empty()
    })
}

/// The name of a permission.
pub open spec fn permission_text(p: Permission) -> Seq<char> {
    match p {
        Permission::Commit => "commit"@,
        Permission::KeyManagement => "key-management"@,
    }
}

/// What a protocol violation is called.
pub open spec fn violation_text(v: Violation) -> Seq<char> {
    match v {
        Violation::Malformed => "malformed record"@,
        Violation::WrongLogKind => "record of the wrong log kind"@,
        Violation::PrevMismatch => "previous record is not the head of the log"@,
        Violation::InitAfterGenesis => "init entry after the beginning of the log"@,
    }
}

/// The message of a validation error.
pub open spec fn error_text(e: ErrorValue) -> Seq<char> {
    match e {
        ErrorValue::UnknownKey => "unknown key"@,
        ErrorValue::Unauthorized(p) => "unauthorized: key lacks permission "@ + permission_text(p),
        ErrorValue::InvalidSignature => "invalid signature"@,
        ErrorValue::IncorrectHashAlgorithm => "incorrect hash algorithm"@,
        ErrorValue::ProtocolViolation(v) => "protocol violation: "@ + violation_text(v),
        ErrorValue::RecordHashDoesNotMatch => "record hash does not match"@,
        ErrorValue::TimestampRegression => "timestamp regression"@,
        ErrorValue::ReleaseVersionReused(v) => "release version reused: "@ + version_text(v),
        ErrorValue::YankOfUnreleased(v) => "yank of unreleased version: "@ + version_text(v),
        ErrorValue::RevokeUnknownKey(k) => "revoke of unknown key: "@ + hash_text(k),
        ErrorValue::GenesisMissing => "genesis missing"@,
        ErrorValue::GenesisWrongSigner => "genesis signed by the wrong key"@,
    }
}

fn append_decimal(s: &mut String, n: u64)
    ensures
        final(s)@ == old(s)@ + decimal_text(n as nat),
    decreases n,
{
    if n < 10 {
        push_char(s, digit(n as u8));
        assert(s@ =~= old(s)@ + decimal_text(n as nat));
    } else {
        append_decimal(s, n / 10);
        push_char(s, digit((n % 10) as u8));
        assert(s@ =~= old(s)@ + decimal_text(n as nat));
    }
}

fn append_hex(s: &mut String, bytes: &Vec<u8>)
    ensures
        final(s)@ == old(s)@ + hex_text(bytes@),
{
    let mut i: usize = 0;
    assert(bytes@.subrange(0, 0) =~= Seq::<u8>::empty());
    assert(s@ =~= old(s)@ + hex_text(bytes@.subrange(0, 0)));
    while i < bytes.len()
        invariant
            i <= bytes.len(),
            s@ == old(s)@ + hex_text(bytes@.subrange(0, i as int)),
        decreases bytes.len() - i,
    {
        let b = bytes[i];
        let ghost before = bytes@.subrange(0, i as int);
        let ghost after = bytes@.subrange(0, i + 1);
        assert(after.drop_last() =~= before);
        assert(after.last() == b);
        push_char(s, digit(b / 16));
        push_char(s, digit(b % 16));
        assert(s@ =~= old(s)@ + hex_text(after));
        i += 1;
    }
    assert(bytes@.subrange(0, bytes.len() as int) =~= bytes@);
}

fn append_latin(s: &mut String, bytes: &Vec<u8>)
    ensures
        final(s)@ == old(s)@ + latin_text(bytes@),
{
    let mut i: usize = 0;
    assert(s@ =~= old(s)@ + latin_text(bytes@.subrange(0, 0)));
    while i < bytes.len()
        invariant
            i <= bytes.len(),
            s@ == old(s)@ + latin_text(bytes@.subrange(0, i as int)),
        decreases bytes.len() - i,
    {
        push_char(s, bytes[i] as char);
        assert(s@ =~= old(s)@ + latin_text(bytes@.subrange(0, i + 1)));
        i += 1;
    }
    assert(bytes@.subrange(0, bytes.len() as int) =~= bytes@);
}

fn append_hash(s: &mut String, h: &AnyHash)
    ensures
        final(s)@ == old(s)@ + hash_text(h@),
{
    match h.alg {
        HashAlg::Sha256 => s.append("sha256"),
        HashAlg::Sha512 => s.append("sha512"),
    }
    s.append(":");
    append_hex(s, &h.bytes);
    assert(s@ =~= old(s)@ + hash_text(h@));
}

fn append_version(s: &mut String, v: &Version)
    ensures
        final(s)@ == old(s)@ + version_text(v@),
{
    append_decimal(s, v.major);
    s.append(".");
    append_decimal(s, v.minor);
    s.append(".");
    append_decimal(s, v.patch);
    if v.pre.len() > 0 {
        s.append("-");
        append_latin(s, &v.pre);
    }
    if v.build.len() > 0 {
        s.append("+");
        append_latin(s, &v.build);
    }
    assert(s@ =~= old(s)@ + version_text(v@));
}

impl AnyHash {
    /// The textual form of the hash.
    pub fn to_text(&self) -> (t: String)
        ensures
            t@ == hash_text(self@),
    {
        let mut t = String::new();
        append_hash(&mut t, self);
        assert(t@ =~= hash_text(self@));
        t
    }
}

impl Version {
    /// The textual form of the version.
    pub fn to_text(&self) -> (t: String)
        ensures
            t@ == version_text(self@),
    {
        let mut t = String::new();
        append_version(&mut t, self);
        assert(t@ =~= version_text(self@));
        t
    }
}

impl ValidationError {
    /// The message of the error.
    pub fn message(&self) -> (t: String)
        ensures
            t@ == error_text(self@),
    {
        let mut t = String::new();
        match self {
            ValidationError::UnknownKey => t.append("unknown key"),
            ValidationError::Unauthorized(p) => {
                t.append("unauthorized: key lacks permission ");
                match p {
                    Permission::Commit => t.append("commit"),
                    Permission::KeyManagement => t.append("key-management"),
                }
            },
            ValidationError::InvalidSignature => t.append("invalid signature"),
            ValidationError::IncorrectHashAlgorithm => t.append("incorrect hash algorithm"),
            ValidationError::ProtocolViolation(v) => {
                t.append("protocol violation: ");
                match v {
                    Violation::Malformed => t.append("malformed record"),
                    Violation::WrongLogKind => t.append("record of the wrong log kind"),
                    Violation::PrevMismatch => t.append(
                        "previous record is not the head of the log",
                    ),
                    Violation::InitAfterGenesis => t.append(
                        "init entry after the beginning of the log",
                    ),
                }
            },
            ValidationError::RecordHashDoesNotMatch => t.append("record hash does not match"),
            ValidationError::TimestampRegression => t.append("timestamp regression"),
            ValidationError::ReleaseVersionReused(v) => {
                t.append("release version reused: ");
                append_version(&mut t, v);
            },
            ValidationError::YankOfUnreleased(v) => {
                t.append("yank of unreleased version: ");
                append_version(&mut t, v);
            },
            ValidationError::RevokeUnknownKey(k) => {
                t.append("revoke of unknown key: ");
                append_hash(&mut t, k);
            },
            ValidationError::GenesisMissing => t.append("genesis missing"),
            ValidationError::GenesisWrongSigner => t.append("genesis signed by the wrong key"),
        }
        assert(t@ =~= error_text(self@));
        t
    }
}

// ---------------------------------------------------------------- reading

/// The value of a lowercase hexadecimal digit.
pub open spec fn hex_value(c: char) -> Option<u8> {
    if '0' <= c <= '9' {
        Some((c as u8 - 48) as u8)
    } else if 'a' <= c <= 'f' {
        Some((c as u8 - 87) as u8)
    } else {
        None
    }
}

/// The bytes that the text gives two lowercase hexadecimal digits each.
pub open spec fn parse_hex(s: Seq<char>) -> Option<Seq<u8>>
    decreases s.len(),
{
    if s.len() == 0 {
        Some(Seq::empty())
    } else if s.len() < 2 {
        None
    } else {
        match (hex_value(s[s.len() - 2]), hex_value(s[s.len() - 1]), parse_hex(
            s.subrange(0, s.len() - 2),
        )) {
            (Some(high), Some(low), Some(bytes)) => Some(bytes.push((high * 16 + low) as u8)),
            _ => None,
        }
    }
}

/// The hash that the text is the textual form of.
pub open spec fn parse_hash_text(s: Seq<char>) -> Option<HashValue> {
    if s.len() >= 7 && s.subrange(0, 7) == "sha256:"@ {
        match parse_hex(s.skip(7)) {
            Some(bytes) => Some(HashValue { alg: HashAlg::Sha256, bytes }),
            None => None,
        }
    } else if s.len() >= 7 && s.subrange(0, 7) == "sha512:"@ {
        match parse_hex(s.skip(7)) {
            Some(bytes) => Some(HashValue { alg: HashAlg::Sha512, bytes }),
            None => None,
        }
    } else {
        None
    }
}

proof fn lemma_digit_value(d: u8)
    requires
        d < 16,
    ensures
        hex_value(digit_char(d)) == Some(d),
{
}

/// Reading the hexadecimal text of bytes gives the bytes back.
pub proof fn lemma_hex_roundtrip(bytes: Seq<u8>)
    ensures
        hex_text(bytes).len() == 2 * bytes.len(),
        parse_hex(hex_text(bytes)) == Some(bytes),
    decreases bytes.len(),
{
    if bytes.len() > 0 {
        let head = bytes.drop_last();
        let b = bytes.last();
        lemma_hex_roundtrip(head);
        let t = hex_text(bytes);
        assert(t.subrange(0, t.len() - 2) =~= hex_text(head));
        lemma_digit_value(b / 16);
        lemma_digit_value(b % 16);
        assert(head.push(((b / 16) * 16 + b % 16) as u8) =~= bytes);
    }
}

/// Reading the textual form of a hash gives the hash back.
pub proof fn lemma_hash_text_roundtrip(h: HashValue)
    ensures
        parse_hash_text(hash_text(h)) == Some(h),
{
    reveal_strlit("sha256");
    reveal_strlit("sha512");
    reveal_strlit(":");
    reveal_strlit("sha256:");
    reveal_strlit("sha512:");
    let t = hash_text(h);
    lemma_hex_roundtrip(h.bytes);
    assert(t.skip(7) =~= hex_text(h.bytes));
    match h.alg {
        HashAlg::Sha256 => {
            assert(t.subrange(0, 7) =~= "sha256:"@);
        },
        HashAlg::Sha512 => {
            assert(t.subrange(0, 7) =~= "sha512:"@);
            assert(t.subrange(0, 7)[5] != "sha256:"@[5]);
        },
    }
}

fn hex_digit(c: char) -> (r: Option<u8>)
    ensures
        r == hex_value(c),
{
    if '0' <= c && c <= '9' {
        Some(c as u8 - 48)
    } else if 'a' <= c && c <= 'f' {
        Some(c as u8 - 87)
    } else {
        None
    }
}

fn starts_with(text: &str, n: usize, prefix: &str) -> (r: bool)
    requires
        n == text@.len(),
    ensures
        r == (text@.len() >= prefix@.len() && text@.subrange(0, prefix@.len() as int)
            == prefix@),
{
    let m = prefix.unicode_len();
    if n < m {
        return false;
    }
    let mut i: usize = 0;
    while i < m
        invariant
            i <= m <= n,
            n == text@.len(),
            m == prefix@.len(),
            forall|j: int| 0 <= j < i ==> text@[j] == prefix@[j],
        decreases m - i,
    {
        if text.get_char(i) != prefix.get_char(i) {
            assert(text@.subrange(0, m as int)[i as int] != prefix@[i as int]);
            return false;
        }
        i += 1;
    }
    assert(text@.subrange(0, m as int) =~= prefix@);
    true
}

impl AnyHash {
    /// The hash that `text` is the textual form of, or `None` when it is the
    /// textual form of none.
    pub fn parse(text: &str) -> (r: Option<AnyHash>)
        ensures
            match parse_hash_text(text@) {
                Some(h) => r matches Some(x) && x@ == h,
                None => r is None,
            },
    {
        proof {
            reveal_strlit("sha256:");
            reveal_strlit("sha512:");
        }
        let n = text.unicode_len();
        let alg = if starts_with(text, n, "sha256:") {
            HashAlg::Sha256
        } else if starts_with(text, n, "sha512:") {
            HashAlg::Sha512
        } else {
            return None;
        };
        let ghost digits = text@.skip(7);
        if (n - 7) % 2 != 0 {
            proof {
                lemma_odd_is_no_hex(digits);
            }
            return None;
        }
        let mut bytes: Vec<u8> = Vec::new();
        let mut i: usize = 7;
        assert(digits.subrange(0, 0) =~= Seq::<char>::empty());
        while i < n
            invariant
                7 <= i <= n,
                n == text@.len(),
                (n - i) % 2 == 0,
                digits == text@.skip(7),
                parse_hex(digits.subrange(0, i - 7)) == Some(bytes@),
            decreases n - i,
        {
            let ghost next = digits.subrange(0, i - 7 + 2);
            assert(next.subrange(0, next.len() - 2) =~= digits.subrange(0, i - 7));
            assert(next[next.len() - 2] == text@[i as int]);
            assert(next[next.len() - 1] == text@[i + 1]);
            let high = hex_digit(text.get_char(i));
            let low = hex_digit(text.get_char(i + 1));
            match (high, low) {
                (Some(h), Some(l)) => {
                    bytes.push(h * 16 + l);
                },
                _ => {
                    proof {
                        assert(parse_hex(next) is None);
                        lemma_bad_prefix_is_no_hex(digits, i - 7 + 2);
                    }
                    return None;
                },
            }
            i += 2;
        }
        assert(digits.subrange(0, n - 7) =~= digits);
        Some(AnyHash { alg, bytes })
    }
}

proof fn lemma_odd_is_no_hex(s: Seq<char>)
    requires
        s.len() % 2 != 0,
    ensures
        parse_hex(s) is None,
    decreases s.len(),
{
    if s.len() >= 2 {
        lemma_odd_is_no_hex(s.subrange(0, s.len() - 2));
    }
}

proof fn lemma_bad_prefix_is_no_hex(s: Seq<char>, n: int)
    requires
        0 <= n <= s.len(),
        (s.len() - n) % 2 == 0,
        parse_hex(s.subrange(0, n)) is None,
    ensures
        parse_hex(s) is None,
    decreases s.len() - n,
{
    if n == s.len() {
        assert(s.subrange(0, n) =~= s);
    } else {
        let head = s.subrange(0, s.len() - 2);
        assert(head.subrange(0, n) =~= s.subrange(0, n));
        lemma_bad_prefix_is_no_hex(head, n);
    }
}

} // verus!
