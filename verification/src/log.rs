//! One validated log: its validator, the envelopes it accepted in order, and
//! the checkpoint under which each of its published records was sealed.

use vstd::prelude::*;
use crate::envelope::{Envelope, EnvelopeValue};
use crate::hash::AnyHash;
use crate::record::LogKind;
use crate::state::{
    done, empty_state, lemma_replay_push, replay, validate_spec, ErrorValue, LogStateValue,
};
use crate::table::Plain;
use crate::validator::{hash_values, ValidationError, Validator};

verus! {

/// How many of the indices are at most `checkpoint_index`.
pub open spec fn count_at_most(indices: Seq<usize>, checkpoint_index: usize) -> nat
    decreases indices.len(),
{
    if indices.len() == 0 {
        0
    } else {
        count_at_most(indices.drop_last(), checkpoint_index) + if indices.last()
            <= checkpoint_index {
            1nat
        } else {
            0nat
        }
    }
}

/// Whether the indices never go down.
pub open spec fn non_decreasing(indices: Seq<usize>) -> bool {
    forall|i: int, j: int| 0 <= i <= j < indices.len() ==> indices[i] <= indices[j]
}

pub proof fn lemma_count_bound(indices: Seq<usize>, c: usize)
    ensures
        count_at_most(indices, c) <= indices.len(),
    decreases indices.len(),
{
    if indices.len() > 0 {
        lemma_count_bound(indices.drop_last(), c);
    }
}

/// Among indices that never go down, those at most `c` are the first
/// `count_at_most` of them.
pub proof fn lemma_count_is_prefix(indices: Seq<usize>, c: usize, i: int)
    requires
        non_decreasing(indices),
        0 <= i < indices.len(),
    ensures
        indices[i] <= c <==> i < count_at_most(indices, c),
    decreases indices.len(),
{
    let n = indices.len() - 1;
    let head = indices.drop_last();
    lemma_count_bound(head, c);
    assert forall|a: int, b: int| 0 <= a <= b < head.len() implies head[a] <= head[b] by {
        assert(head[a] == indices[a] && head[b] == indices[b]);
    }
    if i < n {
        lemma_count_is_prefix(head, c, i);
        assert(head[i] == indices[i]);
        if indices[i] > c {
            assert(indices[n] >= indices[i]);
        }
    } else {
        if n > 0 {
            lemma_count_is_prefix(head, c, n - 1);
            assert(head[n - 1] == indices[n - 1]);
            assert(indices[n - 1] <= indices[n]);
        }
    }
}

/// How many of the indices are at most `checkpoint_index`: the number of
/// records of a log that were published at or before that checkpoint.
pub fn get_records_before_checkpoint(indices: &[usize], checkpoint_index: usize) -> (n: usize)
    ensures
        n == count_at_most(indices@, checkpoint_index),
{
    let mut n: usize = 0;
    let mut i: usize = 0;
    assert(indices@.subrange(0, 0) =~= Seq::<usize>::empty());
    while i < indices.len()
        invariant
            i <= indices.len(),
            n <= i,
            n == count_at_most(indices@.subrange(0, i as int), checkpoint_index),
        decreases indices.len() - i,
    {
        assert(indices@.subrange(0, i + 1).drop_last() =~= indices@.subrange(0, i as int));
        if indices[i] <= checkpoint_index {
            n += 1;
        }
        i += 1;
    }
    assert(indices@.subrange(0, indices.len() as int) =~= indices@);
    n
}

/// The mathematical value of a [`Log`].
pub ghost struct LogValue {
    pub state: LogStateValue,
    pub entries: Seq<EnvelopeValue>,
    pub checkpoint_indices: Seq<usize>,
}

impl LogValue {
    /// The empty log of the given kind.
    pub open spec fn empty(kind: LogKind) -> LogValue {
        LogValue { state: empty_state(kind), entries: Seq::empty(), checkpoint_indices: Seq::empty() }
    }

    /// What holds of every log: the validator's state is the one the entries
    /// replay to, the positions of the entries fit a machine word, and the
    /// checkpoints under which its records were sealed never go back.
    pub open spec fn inv(self, kind: LogKind) -> bool {
        &&& replay(kind, self.entries) == Ok::<LogStateValue, ErrorValue>(self.state)
        &&& self.entries.len() <= usize::MAX
        &&& non_decreasing(self.checkpoint_indices)
    }

    /// The number of published records.
    pub open spec fn published(self) -> nat {
        self.checkpoint_indices.len()
    }

    /// The records from position `start` on that were published at or before
    /// the checkpoint, `limit` of them at most.
    pub open spec fn window(self, start: int, checkpoint_index: usize, limit: int) -> Seq<
        EnvelopeValue,
    > {
        let sealed = count_at_most(self.checkpoint_indices, checkpoint_index) as int;
        let end = if sealed <= start + limit {
            sealed
        } else {
            start + limit
        };
        if 0 <= start <= end <= self.entries.len() {
            self.entries.subrange(start, end)
        } else {
            Seq::empty()
        }
    }
}

/// The values of a sequence of envelopes, in order.
pub open spec fn envelope_values(envelopes: Seq<Envelope>) -> Seq<EnvelopeValue> {
    Seq::new(envelopes.len(), |i: int| envelopes[i]@)
}

/// One validated log.
pub struct Log {
    validator: Validator,
    entries: Vec<Envelope>,
    checkpoint_indices: Vec<usize>,
}

impl View for Log {
    type V = LogValue;

    closed spec fn view(&self) -> LogValue {
        LogValue {
            state: self.validator@,
            entries: envelope_values(self.entries@),
            checkpoint_indices: self.checkpoint_indices@,
        }
    }
}

impl Log {
    /// The empty log of the given kind.
    pub fn new(kind: LogKind) -> (log: Log)
        ensures
            log@ == LogValue::empty(kind),
            log@.inv(kind),
    {
        let log = Log {
            validator: Validator::new(kind),
            entries: Vec::new(),
            checkpoint_indices: Vec::new(),
        };
        assert(log@.entries =~= Seq::<EnvelopeValue>::empty());
        log
    }

    /// The validator of the log.
    pub fn validator(&self) -> (v: &Validator)
        ensures
            v@ == self@.state,
    {
        &self.validator
    }

    /// The number of records in the log.
    pub fn len(&self) -> (n: usize)
        ensures
            n == self@.entries.len(),
    {
        self.entries.len()
    }

    /// The number of published records.
    pub fn published(&self) -> (n: usize)
        ensures
            n == self@.published(),
    {
        self.checkpoint_indices.len()
    }

    /// The envelope at the position.
    pub fn entry(&self, i: usize) -> (e: Option<&Envelope>)
        ensures
            e is Some <==> i < self@.entries.len(),
            e matches Some(x) ==> x@ == self@.entries[i as int],
    {
        if i < self.entries.len() {
            Some(&self.entries[i])
        } else {
            None
        }
    }

    /// The checkpoint under which the record at the position was sealed, if
    /// it was published.
    pub fn checkpoint_of(&self, i: usize) -> (c: Option<usize>)
        ensures
            c is Some <==> i < self@.published(),
            c matches Some(x) ==> x == self@.checkpoint_indices[i as int],
    {
        if i < self.checkpoint_indices.len() {
            Some(self.checkpoint_indices[i])
        } else {
            None
        }
    }

    /// Validates the record and, if it is accepted, appends it. Returns the
    /// position it got and the content digests it introduces; a refused record
    /// leaves the log as it was.
    pub fn append(&mut self, envelope: &Envelope) -> (r: Result<
        (usize, Vec<AnyHash>),
        ValidationError,
    >)
        ensures
            match validate_spec(old(self)@.state, envelope@) {
                Ok((st, contents)) => r matches Ok((i, c)) && i == old(self)@.entries.len()
                    && hash_values(c@) == contents && final(self)@ == (LogValue {
                    state: st,
                    entries: old(self)@.entries.push(envelope@),
                    checkpoint_indices: old(self)@.checkpoint_indices,
                }),
                Err(x) => r matches Err(v) && v@ == x && final(self)@ == old(self)@,
            },
            forall|kind: LogKind| old(self)@.inv(kind) ==> final(self)@.inv(kind),
    {
        let ghost before = self@;
        match self.validator.validate(envelope) {
            Err(e) => Err(e),
            Ok(contents) => {
                let index = self.entries.len();
                self.entries.push(envelope.copy());
                let n = self.entries.len();
                proof {
                    assert(self@.entries =~= before.entries.push(envelope@));
                    assert forall|kind: LogKind| before.inv(kind) implies self@.inv(kind) by {
                        lemma_replay_push(kind, before.entries, envelope@);
                    }
                }
                Ok((index, contents))
            },
        }
    }

    /// What `append` would answer, with the log left as it is.
    pub fn check(&mut self, envelope: &Envelope) -> (r: Result<Vec<AnyHash>, ValidationError>)
        ensures
            final(self)@ == old(self)@,
            match validate_spec(old(self)@.state, envelope@) {
                Ok((st, contents)) => r matches Ok(c) && hash_values(c@) == contents,
                Err(x) => r matches Err(v) && v@ == x,
            },
    {
        self.validator.dry_run(envelope)
    }

    /// Notes that one more record of the log was sealed under the checkpoint.
    /// Returns whether it did: it does not when the checkpoint lies before
    /// that of the record sealed last.
    pub fn seal(&mut self, checkpoint_index: usize) -> (sealed: bool)
        ensures
            sealed <==> (old(self)@.published() > 0 ==> old(self)@.checkpoint_indices.last()
                <= checkpoint_index),
            sealed ==> final(self)@ == (LogValue {
                checkpoint_indices: old(self)@.checkpoint_indices.push(checkpoint_index),
                ..old(self)@
            }),
            !sealed ==> final(self)@ == old(self)@,
            forall|kind: LogKind| old(self)@.inv(kind) ==> final(self)@.inv(kind),
    {
        let n = self.checkpoint_indices.len();
        if n > 0 && self.checkpoint_indices[n - 1] > checkpoint_index {
            return false;
        }
        self.checkpoint_indices.push(checkpoint_index);
        proof {
            lemma_push_non_decreasing(old(self)@.checkpoint_indices, checkpoint_index);
        }
        true
    }

    /// Takes the seal off the record that was sealed last, if any is sealed.
    pub fn unseal_last(&mut self)
        ensures
            old(self)@.published() > 0 ==> final(self)@ == (LogValue {
                checkpoint_indices: old(self)@.checkpoint_indices.drop_last(),
                ..old(self)@
            }),
            old(self)@.published() == 0 ==> final(self)@ == old(self)@,
    {
        let _ = self.checkpoint_indices.pop();
    }

    /// The records from position `start` on that were published at or before
    /// the checkpoint, `limit` of them at most.
    pub fn fetch(&self, start: usize, checkpoint_index: usize, limit: usize) -> (out: Vec<Envelope>)
        ensures
            envelope_values(out@) == self@.window(
                start as int,
                checkpoint_index,
                limit as int,
            ),
    {
        let sealed = get_records_before_checkpoint(
            self.checkpoint_indices.as_slice(),
            checkpoint_index,
        );
        let end = if limit <= sealed && start <= sealed - limit {
            start + limit
        } else {
            sealed
        };
        let mut out: Vec<Envelope> = Vec::new();
        if start > end || end > self.entries.len() {
            assert(envelope_values(out@) =~= Seq::<EnvelopeValue>::empty());
            return out;
        }
        let mut i: usize = start;
        while i < end
            invariant
                start <= i <= end <= self.entries.len(),
                out.len() == i - start,
                forall|j: int| 0 <= j < out.len() ==> out@[j]@ == self.entries@[start + j]@,
            decreases end - i,
        {
            out.push(self.entries[i].copy());
            i += 1;
        }
        assert(envelope_values(out@) =~= envelope_values(self.entries@).subrange(
            start as int,
            end as int,
        ));
        out
    }
}

/// Appending an index that is no smaller than the last keeps the indices from
/// going down.
pub proof fn lemma_push_non_decreasing(indices: Seq<usize>, next: usize)
    requires
        indices.len() > 0 ==> indices.last() <= next,
    ensures
        non_decreasing(indices) ==> non_decreasing(indices.push(next)),
{
    let b = indices.push(next);
    if non_decreasing(indices) {
        assert forall|i: int, j: int| 0 <= i <= j < b.len() implies b[i] <= b[j] by {
            if j < indices.len() {
                assert(indices[i] <= indices[j]);
            } else if i < indices.len() {
                assert(indices[i] <= indices[indices.len() - 1]);
            }
        }
    }
}

/// Where the records of a log were sealed in the order of the log, a record
/// that was sealed under a checkpoint is among the records fetched for that
/// checkpoint from the start of the log, whenever the limit reaches its
/// position.
pub proof fn lemma_sealed_record_is_fetched(log: LogValue, kind: LogKind, i: int, limit: int)
    requires
        log.inv(kind),
        log.published() <= log.entries.len(),
        0 <= i < log.published(),
        i < limit,
    ensures
        log.window(0, log.checkpoint_indices[i], limit).len() > i,
        log.window(0, log.checkpoint_indices[i], limit)[i] == log.entries[i],
{
    let c = log.checkpoint_indices[i];
    lemma_count_is_prefix(log.checkpoint_indices, c, i);
    lemma_count_bound(log.checkpoint_indices, c);
}

} // verus!
