//! The compute server's side of a comparison: the corpus cut into batches
//! that an instance can hold, and the session with one client, which sends a
//! public key per batch and keeps the best score that the batch's secret
//! keys find in the client's ciphertext.
use vstd::prelude::*;

use crate::comparator::Comparator;
use crate::fe::{copy_encodings, DdhFeCiphertext, DdhFePublicKey, DdhFeSecretKey};
use crate::fuzzy_hashes::{FHVector, NILSIMSA_VECTOR_SIZE_BITS};
use crate::messages::{EncryptionRequest, EncryptionResponse};

verus! {

/// The most vectors sent to the authority in one request: one fewer than the
/// entries of an instance.
pub const BATCH_SIZE: usize = NILSIMSA_VECTOR_SIZE_BITS - 1;

/// Batch `i` of a corpus: entries `i * BATCH_SIZE` up to the next batch or the end.
pub open spec fn batch(hashes: Seq<FHVector>, i: int) -> Seq<FHVector> {
    let end = if (i + 1) * (BATCH_SIZE as int) < hashes.len() {
        (i + 1) * (BATCH_SIZE as int)
    } else {
        hashes.len() as int
    };
    hashes.subrange(i * (BATCH_SIZE as int), end)
}

/// The number of batches of a corpus of `n` entries.
pub open spec fn batch_count(n: nat) -> nat {
    (n + BATCH_SIZE - 1) as nat / (BATCH_SIZE as nat)
}

/// The corpus cut into batches of `BATCH_SIZE` entries, the last one possibly shorter.
pub fn split_batches(hashes: &Vec<FHVector>) -> (r: Vec<Vec<FHVector>>)
    ensures
        r.len() == batch_count(hashes.len() as nat),
        forall|i: int| 0 <= i < r.len() ==> (#[trigger] r[i])@ == batch(hashes@, i),
{
    let mut batches: Vec<Vec<FHVector>> = Vec::new();
    let mut start: usize = 0;
    while start < hashes.len()
        invariant
            0 <= start <= hashes.len(),
            start < hashes.len() ==> start == batches.len() * BATCH_SIZE,
            start < hashes.len() ==> batches.len() < batch_count(hashes.len() as nat),
            start >= hashes.len() ==> batches.len() == batch_count(hashes.len() as nat),
            forall|i: int| 0 <= i < batches.len() ==> (#[trigger] batches[i])@ == batch(hashes@, i),
        decreases hashes.len() - start,
    {
        let end: usize = if hashes.len() - start > BATCH_SIZE {
            start + BATCH_SIZE
        } else {
            hashes.len()
        };
        let mut current: Vec<FHVector> = Vec::new();
        let mut j: usize = start;
        while j < end
            invariant
                start <= j <= end,
                end <= hashes.len(),
                current@ == hashes@.subrange(start as int, j as int),
            decreases end - j,
        {
            current.push(hashes[j]);
            j = j + 1;
            assert(current@ =~= hashes@.subrange(start as int, j as int));
        }
        let ghost k = batches.len() as int;
        assert(BATCH_SIZE == 511);
        assert(start == k * 511);
        assert(end == if (k + 1) * 511 < hashes.len() {
            (k + 1) * 511
        } else {
            hashes.len() as int
        });
        assert(current@ == batch(hashes@, k));
        batches.push(current);
        start = end;
        proof {
            let n = hashes.len() as int;
            let b = BATCH_SIZE as int;
            assert((n + b - 1) / b == batch_count(n as nat));
            if start < n {
                assert(start == (k + 1) * b);
                assert((k + 2) * b <= n + b - 1);
                vstd::arithmetic::div_mod::lemma_div_is_ordered((k + 2) * b, n + b - 1, b);
                vstd::arithmetic::div_mod::lemma_div_multiples_vanish(k + 2, b);
            } else {
                assert(n <= (k + 1) * b);
                assert(k * b < n);
                vstd::arithmetic::div_mod::lemma_fundamental_div_mod(n + b - 1, b);
                assert((n + b - 1) / b == k + 1) by (nonlinear_arith)
                    requires
                        k * b < n,
                        n <= (k + 1) * b,
                        b > 0,
                        n + b - 1 == b * ((n + b - 1) / b) + (n + b - 1) % b,
                        0 <= (n + b - 1) % b < b,
                ;
            }
        }
    }
    batches
}

/// The best of `score` and the scores that the keys `sks` find in `ct`; keys
/// that find none leave the score as it is.
pub open spec fn batch_max(score: int, sks: Seq<DdhFeSecretKey<512>>, ct: DdhFeCiphertext<512>) -> int
    decreases sks.len(),
{
    if sks.len() == 0 {
        score
    } else {
        let prev = batch_max(score, sks.drop_last(), ct);
        match sks.last().comparison(ct) {
            Some(s) => if s > prev {
                s as int
            } else {
                prev
            },
            None => prev,
        }
    }
}

/// The compute server's session with one client.
pub struct ComputeSession {
    /// For each batch of the corpus, the public key and the secret keys of its instance.
    pub keys: Vec<(DdhFePublicKey<512>, Vec<DdhFeSecretKey<512>>)>,
    /// The batch whose public key goes out next.
    pub next_batch: usize,
    /// The best score so far.
    pub score: i16,
    /// Whether the client ended the comparison.
    pub finished: bool,
}

impl ComputeSession {
    /// Every key of every batch is well formed.
    pub open spec fn wf(&self) -> bool {
        forall|b: int|
            0 <= b < self.keys.len() ==> (#[trigger] self.keys[b]).0.wf() && forall|k: int|
                0 <= k < self.keys[b].1.len() ==> (#[trigger] self.keys[b].1[k]).wf()
    }

    /// Whether every batch has been scored, or the client ended the comparison.
    pub open spec fn done(&self) -> bool {
        self.finished || self.next_batch >= self.keys.len()
    }

    /// A session over the batches `keys`, with no batch sent yet and the lowest score.
    pub fn new(keys: Vec<(DdhFePublicKey<512>, Vec<DdhFeSecretKey<512>>)>) -> (r: Self)
        ensures
            r.keys == keys,
            r.next_batch == 0,
            r.score == i16::MIN,
            !r.finished,
    {
        ComputeSession { keys, next_batch: 0, score: i16::MIN, finished: false }
    }

    /// The next message to the client: the public key of the next batch, or
    /// none once the session is done, with the best score so far.
    pub fn next_request(&self) -> (r: EncryptionRequest<512>)
        requires
            self.wf(),
        ensures
            r.similarity_score == Some(self.score),
            self.done() <==> r.pk is None,
            r.pk matches Some(pk) ==> {
                let batch_pk = self.keys[self.next_batch as int].0;
                &&& pk.g == batch_pk.g
                &&& pk.h == batch_pk.h
                &&& pk.mpk@ == batch_pk.mpk@
                &&& pk.wf()
            },
    {
        if self.finished || self.next_batch >= self.keys.len() {
            EncryptionRequest { pk: None, similarity_score: Some(self.score) }
        } else {
            let batch_pk = &self.keys[self.next_batch].0;
            let pk = DdhFePublicKey { g: batch_pk.g, h: batch_pk.h, mpk: copy_encodings(&batch_pk.mpk) };
            EncryptionRequest { pk: Some(pk), similarity_score: Some(self.score) }
        }
    }

    /// Takes the client's reply to the public key of the current batch: a
    /// ciphertext raises the score to the best that the batch's keys find in
    /// it and moves on to the next batch; the end of the comparison finishes
    /// the session.
    pub fn on_response(&mut self, resp: EncryptionResponse<512>)
        requires
            old(self).wf(),
            !old(self).done(),
            resp matches EncryptionResponse::EncryptedVector(ct) ==> ct.wf(),
        ensures
            final(self).keys == old(self).keys,
            final(self).wf(),
            match resp {
                EncryptionResponse::EncryptedVector(ct) => {
                    &&& final(self).score as int == batch_max(
                        old(self).score as int,
                        old(self).keys[old(self).next_batch as int].1@,
                        ct,
                    )
                    &&& final(self).next_batch == old(self).next_batch + 1
                    &&& !final(self).finished
                },
                EncryptionResponse::EndOfComparison => {
                    &&& final(self).score == old(self).score
                    &&& final(self).next_batch == old(self).next_batch
                    &&& final(self).finished
                },
            },
    {
        match resp {
            EncryptionResponse::EncryptedVector(ct) => {
                let b = self.next_batch;
                let mut score = self.score;
                let sks = &self.keys[b].1;
                let mut k: usize = 0;
                while k < sks.len()
                    invariant
                        0 <= k <= sks.len(),
                        ct.wf(),
                        forall|j: int| 0 <= j < sks.len() ==> (#[trigger] sks[j]).wf(),
                        score as int == batch_max(self.score as int, sks@.subrange(0, k as int), ct),
                    decreases sks.len() - k,
                {
                    let found = sks[k].compare(&ct);
                    proof {
                        assert(sks@.subrange(0, k + 1).drop_last() =~= sks@.subrange(0, k as int));
                        assert(sks@.subrange(0, k + 1).last() == sks[k as int]);
                    }
                    match found {
                        Some(s) => {
                            if s > score {
                                score = s;
                            }
                        },
                        None => {},
                    }
                    k = k + 1;
                }
                proof {
                    assert(sks@.subrange(0, sks.len() as int) =~= sks@);
                }
                self.score = score;
                self.next_batch = b + 1;
            },
            EncryptionResponse::EndOfComparison => {
                self.finished = true;
            },
        }
    }
}

} // verus!
