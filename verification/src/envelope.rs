//! Signed envelopes, the keys that sign them and the identifiers of logs,
//! records and keys.

use vstd::prelude::*;
use vstd::string::StringSliceAdditionalSpecFns;
use crate::codec::{
    bytes_encodable, dec_bytes, dec_hash, decode_record_spec, enc_bytes, enc_hash,
    encode_record_spec, entries_allowed, hash_encodable, kind_tag, lemma_bytes_canonical,
    lemma_bytes_roundtrip, lemma_hash_canonical, lemma_hash_roundtrip,
};
use crate::hash::{bytes_clone, digest_of, AnyHash, HashAlg, HashValue};
use crate::record::{LogKind, Record, RecordValue};
use crate::table::Plain;
use crate::wire::{append_bytes, decode_record, encode_record};

verus! {

// -------------------------------------------------------------------- keys

/// Whether `signature` is a valid signature of `message` under the public key
/// `key`, as `warg_crypto` decides it. Keys and signatures are the bytes of
/// their textual form, `<algorithm>:<base64>`.
pub uninterp spec fn signature_valid(key: Seq<u8>, message: Seq<u8>, signature: Seq<u8>) -> bool;

/// The public key that belongs to a private key, in textual form, where the
/// private key can be decoded.
pub uninterp spec fn public_key_of(private_key: Seq<u8>) -> Option<Seq<u8>>;

/// Parses the key and the signature with `warg_crypto` and calls
/// `warg_crypto::signing::PublicKey::verify`. The answer depends on the three
/// byte strings alone; text that is no key or no signature verifies nothing.
#[verifier::external_body]
fn verify_signature(key: &[u8], message: &[u8], signature: &[u8]) -> (ok: bool)
    ensures
        ok == signature_valid(key@, message@, signature@),
{
    let key = match std::str::from_utf8(key) {
        Ok(text) => text.parse::<warg_crypto::signing::PublicKey>(),
        Err(_) => return false,
    };
    let signature = match std::str::from_utf8(signature) {
        Ok(text) => text.parse::<warg_crypto::signing::Signature>(),
        Err(_) => return false,
    };
    match (key, signature) {
        (Ok(key), Ok(signature)) => key.verify(message, &signature).is_ok(),
        _ => false,
    }
}

/// Decodes the private key with `warg_crypto::signing::PrivateKey::decode` and
/// returns the text of `PrivateKey::public_key`, or `None` where the private
/// key does not decode. The answer depends on the bytes alone.
#[verifier::external_body]
fn derive_public_key(private_key: &[u8]) -> (key: Option<Vec<u8>>)
    ensures
        match key {
            Some(k) => public_key_of(private_key@) == Some(k@),
            None => public_key_of(private_key@) is None,
        },
{
    let text = String::from_utf8(private_key.to_vec()).ok()?;
    let private_key = warg_crypto::signing::PrivateKey::decode(text).ok()?;
    Some(private_key.public_key().to_string().into_bytes())
}

/// The public key that belongs to the private key, or `None` when the private
/// key cannot be decoded.
pub fn public_key_for(private_key: &[u8]) -> (key: Option<Vec<u8>>)
    ensures
        match key {
            Some(k) => public_key_of(private_key@) == Some(k@),
            None => public_key_of(private_key@) is None,
        },
{
    derive_public_key(private_key)
}

/// The identifier of a public key: the SHA-256 digest of its encoding.
pub open spec fn key_id_spec(key: Seq<u8>) -> HashValue {
    HashValue { alg: HashAlg::Sha256, bytes: digest_of(HashAlg::Sha256, key) }
}

/// The identifier of a public key.
pub fn key_id(key: &[u8]) -> (id: AnyHash)
    ensures
        id@ == key_id_spec(key@),
{
    AnyHash::digest(HashAlg::Sha256, key)
}

// --------------------------------------------------------------- log names

/// The identifier of the log of the given kind and name: the digest of the
/// kind's prefix byte followed by the name.
pub open spec fn log_id_spec(alg: HashAlg, kind: LogKind, name: Seq<u8>) -> HashValue {
    HashValue { alg, bytes: digest_of(alg, seq![kind_tag(kind)] + name) }
}

/// The identifier of the log of the given kind and name.
pub fn log_id(alg: HashAlg, kind: LogKind, name: &[u8]) -> (id: AnyHash)
    ensures
        id@ == log_id_spec(alg, kind, name@),
{
    let mut material: Vec<u8> = Vec::new();
    material.push(
        match kind {
            LogKind::Operator => 0,
            LogKind::Package => 1,
        },
    );
    append_bytes(&mut material, name);
    AnyHash::digest(alg, material.as_slice())
}

/// The identifier of the log of the package with the given name.
pub fn package_log_id(alg: HashAlg, name: &str) -> (id: AnyHash)
    ensures
        id@ == log_id_spec(alg, LogKind::Package, name.spec_bytes()),
{
    log_id(alg, LogKind::Package, name.as_bytes())
}

/// The identifier of the operator log, whose name is empty.
pub fn operator_log_id(alg: HashAlg) -> (id: AnyHash)
    ensures
        id@ == log_id_spec(alg, LogKind::Operator, Seq::empty()),
{
    let name: Vec<u8> = Vec::new();
    log_id(alg, LogKind::Operator, name.as_slice())
}

// --------------------------------------------------------------- envelopes

/// A record's canonical bytes with the identifier of the key that signed them
/// and the signature. An envelope cannot be changed once it is made.
#[derive(Clone, Debug, PartialEq, Eq)]
pub struct Envelope {
    content: Vec<u8>,
    key_id: AnyHash,
    signature: Vec<u8>,
}

/// The mathematical value of an [`Envelope`].
pub ghost struct EnvelopeValue {
    pub content: Seq<u8>,
    pub key_id: HashValue,
    pub signature: Seq<u8>,
}

impl View for Envelope {
    type V = EnvelopeValue;

    closed spec fn view(&self) -> EnvelopeValue {
        EnvelopeValue { content: self.content@, key_id: self.key_id@, signature: self.signature@ }
    }
}

/// The bytes of an envelope on the wire.
pub open spec fn encode_envelope_spec(e: EnvelopeValue) -> Seq<u8> {
    enc_bytes(e.content) + (enc_hash(e.key_id) + enc_bytes(e.signature))
}

/// The envelope that `s` is the wire form of, if it is one.
pub open spec fn decode_envelope_spec(s: Seq<u8>) -> Option<EnvelopeValue> {
    match dec_bytes(s) {
        Some((content, s1)) => match dec_hash(s1) {
            Some((key_id, s2)) => match dec_bytes(s2) {
                Some((signature, rest)) => if rest.len() == 0 {
                    Some(EnvelopeValue { content, key_id, signature })
                } else {
                    None
                },
                None => None,
            },
            None => None,
        },
        None => None,
    }
}

/// An envelope whose parts are short enough to carry a length in front.
pub open spec fn envelope_encodable(e: EnvelopeValue) -> bool {
    bytes_encodable(e.content) && hash_encodable(e.key_id) && bytes_encodable(e.signature)
}

/// The identifier of the record an envelope carries: the digest of the
/// envelope's wire form, which covers the record's bytes, the signer and the
/// signature.
pub open spec fn record_id_spec(alg: HashAlg, e: EnvelopeValue) -> HashValue {
    HashValue { alg, bytes: digest_of(alg, encode_envelope_spec(e)) }
}

/// Reading the wire form of an envelope gives the envelope back.
pub proof fn lemma_envelope_roundtrip(e: EnvelopeValue)
    requires
        envelope_encodable(e),
    ensures
        decode_envelope_spec(encode_envelope_spec(e)) == Some(e),
{
    let s2 = enc_bytes(e.signature);
    let s1 = enc_hash(e.key_id) + s2;
    lemma_bytes_roundtrip(e.content, s1);
    lemma_hash_roundtrip(e.key_id, s2);
    assert(s2 =~= enc_bytes(e.signature) + Seq::<u8>::empty());
    lemma_bytes_roundtrip(e.signature, Seq::empty());
}

/// Only the wire form of an envelope reads as that envelope.
pub proof fn lemma_envelope_canonical(s: Seq<u8>)
    requires
        decode_envelope_spec(s) is Some,
    ensures
        encode_envelope_spec(decode_envelope_spec(s).unwrap()) == s,
        envelope_encodable(decode_envelope_spec(s).unwrap()),
{
    lemma_bytes_canonical(s);
    let s1 = dec_bytes(s).unwrap().1;
    lemma_hash_canonical(s1);
    let s2 = dec_hash(s1).unwrap().1;
    lemma_bytes_canonical(s2);
    let rest = dec_bytes(s2).unwrap().1;
    assert(rest =~= Seq::<u8>::empty());
    assert(s2 =~= enc_bytes(dec_bytes(s2).unwrap().0));
}

/// The identifier of a record does not change when its envelope is written to
/// the wire and read back.
pub proof fn lemma_record_id_stable(alg: HashAlg, e: EnvelopeValue)
    requires
        envelope_encodable(e),
    ensures
        decode_envelope_spec(encode_envelope_spec(e)) matches Some(back) && record_id_spec(
            alg,
            back,
        ) == record_id_spec(alg, e),
{
    lemma_envelope_roundtrip(e);
}

impl Plain for Envelope {
    fn copy(&self) -> (e: Envelope) {
        Envelope {
            content: bytes_clone(&self.content),
            key_id: self.key_id.copy(),
            signature: bytes_clone(&self.signature),
        }
    }
}

impl Envelope {
    /// The envelope made of the three parts.
    pub fn new(content: Vec<u8>, key_id: AnyHash, signature: Vec<u8>) -> (e: Envelope)
        ensures
            e@ == (EnvelopeValue { content: content@, key_id: key_id@, signature: signature@ }),
    {
        Envelope { content, key_id, signature }
    }

    /// The record's canonical bytes.
    pub fn content(&self) -> (b: &Vec<u8>)
        ensures
            b@ == self@.content,
    {
        &self.content
    }

    /// The identifier of the key that signed the envelope.
    pub fn key_id(&self) -> (id: &AnyHash)
        ensures
            id@ == self@.key_id,
    {
        &self.key_id
    }

    /// The signature over the record's canonical bytes.
    pub fn signature(&self) -> (b: &Vec<u8>)
        ensures
            b@ == self@.signature,
    {
        &self.signature
    }

    /// The kind and record that the content encodes, if it encodes one.
    pub fn record(&self) -> (r: Option<(LogKind, Record)>)
        ensures
            match decode_record_spec(self@.content) {
                Some((kind, v)) => r matches Some((k, x)) && k == kind && x@ == v,
                None => r is None,
            },
    {
        decode_record(self.content.as_slice())
    }

    /// Whether `key` is the key the envelope names and the signature is valid
    /// under it over exactly the content bytes.
    pub fn signed_by(&self, key: &[u8]) -> (ok: bool)
        ensures
            ok == (self@.key_id == key_id_spec(key@) && signature_valid(
                key@,
                self@.content,
                self@.signature,
            )),
    {
        let id = key_id(key);
        crate::table::Id::same(&id, &self.key_id) && verify_signature(
            key,
            self.content.as_slice(),
            self.signature.as_slice(),
        )
    }

    /// Whether the signature is valid under `key` over exactly the content bytes.
    pub fn has_valid_signature(&self, key: &[u8]) -> (ok: bool)
        ensures
            ok == signature_valid(key@, self@.content, self@.signature),
    {
        verify_signature(key, self.content.as_slice(), self.signature.as_slice())
    }

    /// The identifier of the record under the given algorithm.
    pub fn record_id(&self, alg: HashAlg) -> (id: AnyHash)
        ensures
            id@ == record_id_spec(alg, self@),
            envelope_encodable(self@),
    {
        let bytes = self.to_bytes();
        AnyHash::digest(alg, bytes.as_slice())
    }

    /// The wire form of the envelope.
    pub fn to_bytes(&self) -> (out: Vec<u8>)
        ensures
            out@ == encode_envelope_spec(self@),
            envelope_encodable(self@),
    {
        let mut out: Vec<u8> = Vec::new();
        crate::wire::put_bytes(&mut out, &self.content);
        crate::wire::put_hash(&mut out, &self.key_id);
        crate::wire::put_bytes(&mut out, &self.signature);
        assert(out@ =~= encode_envelope_spec(self@));
        out
    }

    /// The envelope that `data` is the wire form of, or `None` when it is the
    /// wire form of none.
    pub fn from_bytes(data: &[u8]) -> (r: Option<Envelope>)
        ensures
            match decode_envelope_spec(data@) {
                Some(v) => r matches Some(e) && e@ == v,
                None => r is None,
            },
    {
        assert(data@.skip(0) =~= data@);
        let (content, p1) = match crate::wire::take_bytes(data, 0) {
            None => { return None; },
            Some(x) => x,
        };
        let (key_id, p2) = match crate::wire::take_hash(data, p1) {
            None => { return None; },
            Some(x) => x,
        };
        let (signature, p3) = match crate::wire::take_bytes(data, p2) {
            None => { return None; },
            Some(x) => x,
        };
        if p3 != data.len() {
            return None;
        }
        Some(Envelope { content, key_id, signature })
    }

    /// Encodes `record` as a record of the given kind and signs the bytes with
    /// the private key. `None` when the record cannot stand in a log of that
    /// kind, the private key does not decode, or signing fails.
    pub fn signed(kind: LogKind, record: &Record, private_key: &[u8]) -> (r: Option<Envelope>)
        ensures
            match signed_spec(kind, record@, private_key@) {
                Some(v) => r matches Some(e) && e@ == v,
                None => r is None,
            },
    {
        let content = match encode_record(kind, record) {
            None => {
                return None;
            },
            Some(c) => c,
        };
        let public = derive_public_key(private_key);
        let signature = match &public {
            Some(_) => sign_message(private_key, content.as_slice()),
            None => None,
        };
        Envelope::sealed(content, public, signature)
    }

    /// The envelope around `content` that the holder of `public_key` signed
    /// with `signature`; `None` when the key or the signature is missing.
    pub fn sealed(content: Vec<u8>, public_key: Option<Vec<u8>>, signature: Option<Vec<u8>>) -> (r:
        Option<Envelope>)
        ensures
            match sealed_spec(
                content@,
                optional_bytes_value(public_key),
                optional_bytes_value(signature),
            ) {
                Some(v) => r matches Some(e) && e@ == v,
                None => r is None,
            },
    {
        match (public_key, signature) {
            (Some(key), Some(signature)) => {
                let id = key_id(key.as_slice());
                Some(Envelope { content, key_id: id, signature })
            },
            _ => None,
        }
    }
}

/// The signature that the private key gives the message, in textual form;
/// `None` where the private key cannot be decoded or the message cannot be
/// signed. `warg_crypto` signs with ECDSA over P-256 and derives the nonce from
/// the key and the message alone, so the signature depends on nothing else.
pub uninterp spec fn signature_of(private_key: Seq<u8>, message: Seq<u8>) -> Option<Seq<u8>>;

/// Decodes the private key with `warg_crypto::signing::PrivateKey::decode` and
/// calls `PrivateKey::sign`, returning the signature's text, or `None` when
/// the key does not decode or signing fails. The answer depends on the two
/// byte strings alone.
#[verifier::external_body]
fn sign_message(private_key: &[u8], message: &[u8]) -> (signature: Option<Vec<u8>>)
    ensures
        match signature {
            Some(s) => signature_of(private_key@, message@) == Some(s@),
            None => signature_of(private_key@, message@) is None,
        },
{
    let text = String::from_utf8(private_key.to_vec()).ok()?;
    let private_key = warg_crypto::signing::PrivateKey::decode(text).ok()?;
    Some(private_key.sign(message).ok()?.to_string().into_bytes())
}

/// The value of optional bytes.
pub open spec fn optional_bytes_value(bytes: Option<Vec<u8>>) -> Option<Seq<u8>> {
    match bytes {
        Some(b) => Some(b@),
        None => None,
    }
}

/// The envelope around `content` that the holder of `public_key` signed with
/// `signature`, where there is a key and a signature.
pub open spec fn sealed_spec(
    content: Seq<u8>,
    public_key: Option<Seq<u8>>,
    signature: Option<Seq<u8>>,
) -> Option<EnvelopeValue> {
    match (public_key, signature) {
        (Some(key), Some(signature)) => Some(
            EnvelopeValue { content, key_id: key_id_spec(key), signature },
        ),
        _ => None,
    }
}

/// The envelope that signing `record` as a record of the given kind with the
/// private key gives: the record's canonical bytes, the identifier of the
/// public key that belongs to the private key, and the signature the private
/// key gives those bytes. There is none where a log of that kind cannot hold
/// the record, the private key does not decode, or signing fails.
pub open spec fn signed_spec(kind: LogKind, record: RecordValue, private_key: Seq<u8>) -> Option<
    EnvelopeValue,
> {
    if !entries_allowed(kind, record.entries) {
        None
    } else {
        let content = encode_record_spec(kind, record);
        sealed_spec(content, public_key_of(private_key), signature_of(private_key, content))
    }
}

} // verus!
