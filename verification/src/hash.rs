//! Tagged hashes and the identifiers derived from them.

use vstd::prelude::*;
use crate::table::{Id, Plain};

verus! {

/// The hash algorithms a log may be initialised with. A log fixes its
/// algorithm with its first record, and every digest it takes in afterwards
/// must use it; SHA-512 stands beside SHA-256 so that this is a choice, and a
/// digest of another algorithm than the log's can be told apart and refused.
#[derive(Clone, Copy, Debug, PartialEq, Eq, Structural)]
pub enum HashAlg {
    Sha256,
    Sha512,
}

/// The SHA-256 digest of a byte string, as `warg_crypto` computes it.
pub uninterp spec fn sha256(data: Seq<u8>) -> Seq<u8>;

/// The SHA-512 digest of a byte string, as `sha2` computes it.
pub uninterp spec fn sha512(data: Seq<u8>) -> Seq<u8>;

/// Calls `warg_crypto::hash::HashAlgorithm::digest` for SHA-256 and copies the
/// digest out. The digest is a function of the input alone and is 32 bytes long.
#[verifier::external_body]
fn sha256_digest(data: &[u8]) -> (out: Vec<u8>)
    ensures
        out@ == sha256(data@),
        out@.len() == 32,
{
    warg_crypto::hash::HashAlgorithm::Sha256.digest(data).bytes().to_vec()
}

/// Calls `sha2::Sha512::digest` and copies the digest out. The digest is a
/// function of the input alone and is 64 bytes long.
#[verifier::external_body]
fn sha512_digest(data: &[u8]) -> (out: Vec<u8>)
    ensures
        out@ == sha512(data@),
        out@.len() == 64,
{
    <sha2::Sha512 as sha2::Digest>::digest(data).to_vec()
}

/// The digest of `data` under `alg`.
pub open spec fn digest_of(alg: HashAlg, data: Seq<u8>) -> Seq<u8> {
    match alg {
        HashAlg::Sha256 => sha256(data),
        HashAlg::Sha512 => sha512(data),
    }
}

/// A digest together with the algorithm that produced it.
#[derive(Clone, Debug, PartialEq, Eq)]
pub struct AnyHash {
    pub alg: HashAlg,
    pub bytes: Vec<u8>,
}

/// The mathematical value of an [`AnyHash`].
pub ghost struct HashValue {
    pub alg: HashAlg,
    pub bytes: Seq<u8>,
}

impl View for AnyHash {
    type V = HashValue;

    open spec fn view(&self) -> HashValue {
        HashValue { alg: self.alg, bytes: self.bytes@ }
    }
}

/// Whether two byte vectors hold the same bytes.
pub fn bytes_eq(a: &Vec<u8>, b: &Vec<u8>) -> (same: bool)
    ensures
        same == (a@ == b@),
{
    if a.len() != b.len() {
        return false;
    }
    let mut i: usize = 0;
    while i < a.len()
        invariant
            a.len() == b.len(),
            i <= a.len(),
            forall|j: int| 0 <= j < i ==> a@[j] == b@[j],
        decreases a.len() - i,
    {
        if a[i] != b[i] {
            return false;
        }
        i += 1;
    }
    assert(a@ =~= b@);
    true
}

/// A copy of a byte vector.
pub fn bytes_clone(a: &Vec<u8>) -> (out: Vec<u8>)
    ensures
        out@ == a@,
{
    let mut out: Vec<u8> = Vec::new();
    let mut i: usize = 0;
    while i < a.len()
        invariant
            i <= a.len(),
            out@ == a@.subrange(0, i as int),
        decreases a.len() - i,
    {
        out.push(a[i]);
        assert(out@ =~= a@.subrange(0, i + 1));
        i += 1;
    }
    assert(a@.subrange(0, a.len() as int) =~= a@);
    out
}

impl AnyHash {
    /// The digest of `data` under `alg`.
    pub fn digest(alg: HashAlg, data: &[u8]) -> (h: AnyHash)
        ensures
            h@ == (HashValue { alg, bytes: digest_of(alg, data@) }),
    {
        let bytes = match alg {
            HashAlg::Sha256 => sha256_digest(data),
            HashAlg::Sha512 => sha512_digest(data),
        };
        AnyHash { alg, bytes }
    }
}

impl Plain for AnyHash {
    fn copy(&self) -> (h: AnyHash) {
        AnyHash { alg: self.alg, bytes: bytes_clone(&self.bytes) }
    }
}

impl Id for AnyHash {
    fn same(&self, other: &AnyHash) -> (r: bool) {
        self.alg == other.alg && bytes_eq(&self.bytes, &other.bytes)
    }
}

} // verus!
