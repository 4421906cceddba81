//! Validation of a package's records as they arrive from outside: each with
//! its content in base64, its key identifier and its signature as text.

use vstd::prelude::*;
use vstd::string::StringSliceAdditionalSpecFns;
use crate::envelope::{Envelope, EnvelopeValue};
use crate::hash::AnyHash;
use crate::log::envelope_values;
use crate::record::LogKind;
use crate::state::{empty_state, replay, validate_spec, ErrorValue, LogStateValue};
use crate::text::parse_hash_text;
use crate::validator::Validator;

verus! {

/// The bytes that a text is the standard base64 form of, as the `base64`
/// crate decodes it; `None` where it is no base64.
pub uninterp spec fn base64_decoded(text: Seq<char>) -> Option<Seq<u8>>;

/// Calls `base64::decode`, which decodes with the standard alphabet and
/// padding. The answer depends on the text alone.
#[verifier::external_body]
fn decode_base64(text: &str) -> (r: Option<Vec<u8>>)
    ensures
        match r {
            Some(bytes) => base64_decoded(text@) == Some(bytes@),
            None => base64_decoded(text@) is None,
        },
{
    #[allow(deprecated)]
    base64::decode(text).ok()
}

/// What is known of a package: its name, the last checkpoint seen, and the
/// state of its validator.
pub struct PackageInfo {
    /// The name of the package.
    pub name: String,
    /// The last known checkpoint of the package.
    pub checkpoint: Option<String>,
    /// The current validation state of the package.
    pub state: Validator,
}

impl PackageInfo {
    /// What is known of a package of which nothing is known but its name.
    pub fn new(name: &str) -> (info: PackageInfo)
        ensures
            info.name@ == name@,
            info.checkpoint is None,
            info.state@ == empty_state(LogKind::Package),
    {
        let info = PackageInfo {
            name: name.to_string(),
            checkpoint: None,
            state: Validator::new(LogKind::Package),
        };
        proof {
            vstd::string::to_string_from_display_ensures_for_str(name, info.name);
        }
        info
    }
}

/// An envelope as it arrives: the content in base64, the identifier of the
/// signing key in its textual form, and the signature as text.
#[derive(Clone, Debug, PartialEq, Eq)]
pub struct ProtoEnvelopeBody {
    pub content_bytes: String,
    pub key_id: String,
    pub signature: String,
}

/// The envelope that a body stands for, where its content is base64 and its
/// key identifier is the textual form of a hash.
pub open spec fn body_envelope(body: ProtoEnvelopeBody) -> Option<EnvelopeValue> {
    match (base64_decoded(body.content_bytes@), parse_hash_text(body.key_id@)) {
        (Some(content), Some(key_id)) => Some(
            EnvelopeValue { content, key_id, signature: vstd::utf8::encode_utf8(body.signature@) },
        ),
        _ => None,
    }
}

/// For each envelope in order, whether the validator accepts it after the
/// envelopes before it that it accepted.
pub open spec fn accepted(st: LogStateValue, envelopes: Seq<EnvelopeValue>) -> Seq<bool>
    decreases envelopes.len(),
{
    if envelopes.len() == 0 {
        Seq::empty()
    } else {
        match validate_spec(st, envelopes[0]) {
            Ok((next, contents)) => seq![true] + accepted(next, envelopes.skip(1)),
            Err(e) => seq![false] + accepted(st, envelopes.skip(1)),
        }
    }
}

/// The envelope that a body stands for.
pub fn decode_body(body: &ProtoEnvelopeBody) -> (r: Option<Envelope>)
    ensures
        match body_envelope(*body) {
            Some(v) => r matches Some(e) && e@ == v,
            None => r is None,
        },
{
    let content = match decode_base64(body.content_bytes.as_str()) {
        None => {
            return None;
        },
        Some(c) => c,
    };
    let key_id = match AnyHash::parse(body.key_id.as_str()) {
        None => {
            return None;
        },
        Some(k) => k,
    };
    let signature = vstd::slice::slice_to_vec(body.signature.as_str().as_bytes());
    Some(Envelope::new(content, key_id, signature))
}

/// Runs the envelopes through a fresh package validator, one after another.
/// An envelope that is refused leaves the validator as it was, and the
/// envelopes after it are still tried.
pub fn validate_envelopes(records: &Vec<Envelope>) -> (r: Vec<bool>)
    ensures
        r@ == accepted(empty_state(LogKind::Package), envelope_values(records@)),
{
    let mut package = PackageInfo::new("foo:bar");
    let ghost all = envelope_values(records@);
    let ghost goal = accepted(empty_state(LogKind::Package), all);
    let mut res: Vec<bool> = Vec::new();
    let mut i: usize = 0;
    assert(all.skip(0) =~= all);
    assert(res@ + goal =~= goal);
    while i < records.len()
        invariant
            i <= records.len(),
            all == envelope_values(records@),
            goal == res@ + accepted(package.state@, all.skip(i as int)),
        decreases records.len() - i,
    {
        let ghost before = res@;
        assert(all.skip(i as int)[0] == records@[i as int]@);
        assert(all.skip(i as int).skip(1) =~= all.skip(i + 1));
        let validated = package.state.validate(&records[i]);
        match validated {
            Ok(_) => {
                res.push(true);
            },
            _ => {
                res.push(false);
            },
        }
        assert(res@ + accepted(package.state@, all.skip(i + 1)) =~= before + (seq![res@.last()]
            + accepted(package.state@, all.skip(i + 1))));
        i += 1;
    }
    assert(all.skip(records.len() as int) =~= Seq::<EnvelopeValue>::empty());
    assert(res@ + Seq::<bool>::empty() =~= res@);
    res
}

/// Whether the content of every body is base64.
pub open spec fn contents_decodable(bodies: Seq<ProtoEnvelopeBody>) -> bool {
    forall|i: int|
        0 <= i < bodies.len() ==> base64_decoded((#[trigger] bodies[i]).content_bytes@) is Some
}

/// For each body in order, whether the validator accepts the envelope it
/// stands for after the envelopes before it that it accepted. A body that
/// stands for no envelope is not accepted.
pub open spec fn accepted_bodies(st: LogStateValue, bodies: Seq<ProtoEnvelopeBody>) -> Seq<bool>
    decreases bodies.len(),
{
    if bodies.len() == 0 {
        Seq::empty()
    } else {
        match body_envelope(bodies[0]) {
            None => seq![false] + accepted_bodies(st, bodies.skip(1)),
            Some(envelope) => match validate_spec(st, envelope) {
                Ok((next, contents)) => seq![true] + accepted_bodies(next, bodies.skip(1)),
                Err(e) => seq![false] + accepted_bodies(st, bodies.skip(1)),
            },
        }
    }
}

/// Decodes the records of a package and validates them in order with a fresh
/// package validator. Fails when the content of a record is no base64;
/// otherwise tells for each record whether the validator accepted it. A
/// record whose key identifier is no hash is signed by no key the log could
/// know: it is not accepted, and the records after it are still tried.
pub fn validate(package_records: Vec<ProtoEnvelopeBody>) -> (r: Result<Vec<bool>, ()>)
    ensures
        if contents_decodable(package_records@) {
            r matches Ok(flags) && flags@ == accepted_bodies(
                empty_state(LogKind::Package),
                package_records@,
            )
        } else {
            r is Err
        },
{
    let mut i: usize = 0;
    while i < package_records.len()
        invariant
            i <= package_records.len(),
            forall|j: int|
                0 <= j < i ==> base64_decoded((#[trigger] package_records@[j]).content_bytes@)
                    is Some,
        decreases package_records.len() - i,
    {
        if decode_base64(package_records[i].content_bytes.as_str()).is_none() {
            return Err(());
        }
        i += 1;
    }
    let mut package = PackageInfo::new("foo:bar");
    let ghost all = package_records@;
    let ghost goal = accepted_bodies(empty_state(LogKind::Package), all);
    let mut res: Vec<bool> = Vec::new();
    let mut i: usize = 0;
    assert(all.skip(0) =~= all);
    assert(res@ + goal =~= goal);
    while i < package_records.len()
        invariant
            i <= package_records.len(),
            all == package_records@,
            goal == res@ + accepted_bodies(package.state@, all.skip(i as int)),
        decreases package_records.len() - i,
    {
        let ghost before = res@;
        assert(all.skip(i as int)[0] == package_records@[i as int]);
        assert(all.skip(i as int).skip(1) =~= all.skip(i + 1));
        let flag = match decode_body(&package_records[i]) {
            None => false,
            Some(envelope) => package.state.validate(&envelope).is_ok(),
        };
        res.push(flag);
        assert(res@ + accepted_bodies(package.state@, all.skip(i + 1)) =~= before + (seq![flag]
            + accepted_bodies(package.state@, all.skip(i + 1))));
        i += 1;
    }
    assert(all.skip(package_records.len() as int) =~= Seq::<ProtoEnvelopeBody>::empty());
    assert(res@ + Seq::<bool>::empty() =~= res@);
    Ok(res)
}

/// The state after the envelopes were validated in order from `st`, or the
/// first refusal.
pub open spec fn replay_from(st: LogStateValue, envelopes: Seq<EnvelopeValue>) -> Result<
    LogStateValue,
    ErrorValue,
>
    decreases envelopes.len(),
{
    if envelopes.len() == 0 {
        Ok(st)
    } else {
        match validate_spec(st, envelopes[0]) {
            Ok((next, contents)) => replay_from(next, envelopes.skip(1)),
            Err(e) => Err(e),
        }
    }
}

proof fn lemma_replay_from_push(st: LogStateValue, envelopes: Seq<EnvelopeValue>, last: EnvelopeValue)
    ensures
        replay_from(st, envelopes.push(last)) == match replay_from(st, envelopes) {
            Ok(mid) => match validate_spec(mid, last) {
                Ok((next, contents)) => Ok::<LogStateValue, ErrorValue>(next),
                Err(e) => Err(e),
            },
            Err(e) => Err(e),
        },
    decreases envelopes.len(),
{
    let all = envelopes.push(last);
    if envelopes.len() == 0 {
        reveal_with_fuel(replay_from, 2);
        assert(all.skip(1) =~= Seq::<EnvelopeValue>::empty());
        assert(all[0] == last);
    } else {
        assert(all[0] == envelopes[0]);
        assert(all.skip(1) =~= envelopes.skip(1).push(last));
        match validate_spec(st, envelopes[0]) {
            Ok((next, contents)) => {
                lemma_replay_from_push(next, envelopes.skip(1), last);
            },
            Err(e) => {},
        }
    }
}

/// Replaying a log is validating its envelopes in order from the empty state.
pub proof fn lemma_replay_is_replay_from(kind: LogKind, envelopes: Seq<EnvelopeValue>)
    ensures
        replay(kind, envelopes) == replay_from(empty_state(kind), envelopes),
    decreases envelopes.len(),
{
    if envelopes.len() > 0 {
        lemma_replay_is_replay_from(kind, envelopes.drop_last());
        lemma_replay_from_push(empty_state(kind), envelopes.drop_last(), envelopes.last());
        assert(envelopes.drop_last().push(envelopes.last()) =~= envelopes);
    }
}

proof fn lemma_replay_from_accepted(st: LogStateValue, envelopes: Seq<EnvelopeValue>)
    requires
        replay_from(st, envelopes) is Ok,
    ensures
        accepted(st, envelopes) == Seq::new(envelopes.len(), |i: int| true),
    decreases envelopes.len(),
{
    if envelopes.len() == 0 {
        assert(accepted(st, envelopes) =~= Seq::new(envelopes.len(), |i: int| true));
    } else {
        let next = validate_spec(st, envelopes[0])->Ok_0.0;
        lemma_replay_from_accepted(next, envelopes.skip(1));
        assert(accepted(st, envelopes) =~= Seq::new(envelopes.len(), |i: int| true));
    }
}

/// Every record of a log that replays is accepted when the log is validated
/// from the start.
pub proof fn lemma_replayed_log_is_accepted(kind: LogKind, envelopes: Seq<EnvelopeValue>)
    requires
        replay(kind, envelopes) is Ok,
    ensures
        accepted(empty_state(kind), envelopes) == Seq::new(envelopes.len(), |i: int| true),
{
    lemma_replay_is_replay_from(kind, envelopes);
    lemma_replay_from_accepted(empty_state(kind), envelopes);
}

} // verus!
