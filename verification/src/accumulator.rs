use vstd::prelude::*;

use crate::constants::{DELAY_ROUNDS, EPOCHS_PER_HISTORICAL_VECTOR, MIN_SEED_LOOKAHEAD};
use crate::encoding::{epoch_to_le_bytes, lemma_xor_fold_commutes, u64_le_bytes, xor32, xor_bytes};
use crate::hash::{sha256, sha256_iter, sha256_of, sha2_chain, zero_mix};
use vstd::slice::slice_to_vec;

verus! {

/// Why an entropy contribution was rejected.
#[derive(Debug, Clone, Copy, PartialEq, Eq, Structural)]
pub enum IngestError {
    /// The write targets an epoch so far in the past that its ring slot
    /// already belongs to a newer epoch.
    StaleEpoch,
}

/// The ring slot that holds state for `epoch`.
pub open spec fn slot_of(epoch: u64) -> int {
    epoch as int % (EPOCHS_PER_HISTORICAL_VECTOR as int)
}

/// The epoch whose entropy feeds duties of `target_epoch`:
/// `MIN_SEED_LOOKAHEAD + 1` epochs back, clamped at epoch zero.
pub open spec fn mix_epoch_of(target_epoch: u64) -> u64 {
    if target_epoch >= MIN_SEED_LOOKAHEAD + 1 {
        (target_epoch - (MIN_SEED_LOOKAHEAD + 1)) as u64
    } else {
        0
    }
}

/// The bytes handed to the hash when a seed is derived: the 4-byte domain
/// tag first, then the little-endian target epoch, then the raw entropy
/// source.
pub open spec fn seed_preimage(domain: Seq<u8>, target_epoch: u64, source: Seq<u8>) -> Seq<u8> {
    domain + u64_le_bytes(target_epoch) + source
}

/// One XOR accumulation: the mix in the slot of `epoch` is replaced by its
/// old value XORed with the digest of the contribution.
pub open spec fn ingest_mixes(mixes: Seq<Seq<u8>>, epoch: u64, entropy: Seq<u8>) -> Seq<Seq<u8>> {
    let s = slot_of(epoch);
    mixes.update(s, xor_bytes(mixes[s], sha256_of(entropy)))
}

/// The randomness accumulator: a bounded ring of XOR-accumulated entropy
/// mixes, a parallel ring of stored aggregated threshold signatures, and the
/// highest epoch ever written (the reference point for staleness).
///
/// The accumulator stores only contributions that the caller has already
/// verified against the epoch- and domain-separated message; signature
/// verification itself is outside this crate.
pub struct BeaconState {
    /// XOR-accumulated mixes, indexed by `epoch % EPOCHS_PER_HISTORICAL_VECTOR`.
    pub randao_mixes: Vec<[u8; 32]>,
    /// Verified aggregated threshold signature per ring slot, if any was
    /// stored; a later valid submission replaces an earlier one (last write
    /// wins).
    pub threshold_sigs: Vec<Option<Vec<u8>>>,
    /// Highest epoch successfully written so far (zero when nothing was).
    pub highest_epoch: u64,
}

impl BeaconState {
    /// The mixes as mathematical byte strings.
    pub open spec fn mixes(self) -> Seq<Seq<u8>> {
        self.randao_mixes@.map_values(|m: [u8; 32]| m@)
    }

    /// The stored threshold signatures as mathematical byte strings.
    pub open spec fn sigs(self) -> Seq<Option<Seq<u8>>> {
        self.threshold_sigs.deep_view()
    }

    /// Structural invariant: both rings span the full history length.
    pub open spec fn wf(self) -> bool {
        &&& self.randao_mixes@.len() == EPOCHS_PER_HISTORICAL_VECTOR
        &&& self.threshold_sigs@.len() == EPOCHS_PER_HISTORICAL_VECTOR
    }

    /// A write to `epoch` is stale when its ring slot already belongs to a
    /// newer epoch: `epoch` lies a full history length or more behind the
    /// highest epoch written.
    pub open spec fn is_stale(self, epoch: u64) -> bool {
        epoch + EPOCHS_PER_HISTORICAL_VECTOR <= self.highest_epoch
    }

    /// The raw entropy source feeding seeds for `target_epoch`: the delayed
    /// hash of the threshold signature stored for the mix epoch if one is
    /// present, otherwise the XOR mix of the mix epoch.
    pub open spec fn seed_source(self, target_epoch: u64) -> Seq<u8> {
        let s = slot_of(mix_epoch_of(target_epoch));
        match self.sigs()[s] {
            Some(sig) => sha256_iter(sig, DELAY_ROUNDS as nat),
            None => self.mixes()[s],
        }
    }

    /// A fresh accumulator: all mixes zero, no threshold signature stored.
    pub fn new() -> (r: BeaconState)
        ensures
            r.wf(),
            r.mixes() =~= Seq::new(EPOCHS_PER_HISTORICAL_VECTOR as nat, |i: int| zero_mix()),
            r.sigs() =~= Seq::new(EPOCHS_PER_HISTORICAL_VECTOR as nat, |i: int| None::<Seq<u8>>),
            r.highest_epoch == 0,
    {
        let mut mixes: Vec<[u8; 32]> = Vec::new();
        let mut sigs: Vec<Option<Vec<u8>>> = Vec::new();
        let mut i: usize = 0;
        while i < EPOCHS_PER_HISTORICAL_VECTOR
            invariant
                i <= EPOCHS_PER_HISTORICAL_VECTOR,
                mixes@.len() == i,
                sigs@.len() == i,
                forall|k: int| 0 <= k < i ==> mixes@[k]@ == zero_mix(),
                forall|k: int| 0 <= k < i ==> sigs@[k] is None,
            decreases EPOCHS_PER_HISTORICAL_VECTOR - i,
        {
            let z: [u8; 32] = [0u8; 32];
            proof {
                assert(z@ =~= zero_mix());
            }
            mixes.push(z);
            sigs.push(None);
            i = i + 1;
        }
        let r = BeaconState { randao_mixes: mixes, threshold_sigs: sigs, highest_epoch: 0 };
        proof {
            assert(r.mixes() =~= Seq::new(EPOCHS_PER_HISTORICAL_VECTOR as nat, |k: int| zero_mix()));
            assert(r.sigs() =~= Seq::new(
                EPOCHS_PER_HISTORICAL_VECTOR as nat,
                |k: int| None::<Seq<u8>>,
            ));
        }
        r
    }

    /// Fold an already-verified entropy contribution for `epoch` into the
    /// ring: the mix in the slot of `epoch` becomes its old value XORed with
    /// the SHA-256 digest of the contribution. XOR needs no agreed order of
    /// contributions; rejects only writes to epochs stale beyond the ring.
    pub fn ingest(&mut self, epoch: u64, entropy: &[u8]) -> (r: Result<(), IngestError>)
        requires
            old(self).wf(),
        ensures
            final(self).wf(),
            r is Ok <==> !old(self).is_stale(epoch),
            r is Err ==> r == Err::<(), IngestError>(IngestError::StaleEpoch) && *final(self)
                == *old(self),
            r is Ok ==> final(self).mixes() == ingest_mixes(old(self).mixes(), epoch, entropy@)
                && final(self).sigs() == old(self).sigs() && final(self).highest_epoch == (
            if epoch > old(self).highest_epoch {
                epoch
            } else {
                old(self).highest_epoch
            }),
    {
        let hl: u64 = EPOCHS_PER_HISTORICAL_VECTOR as u64;
        if self.highest_epoch >= hl && epoch <= self.highest_epoch - hl {
            return Err(IngestError::StaleEpoch);
        }
        let digest: [u8; 32] = sha256(entropy);
        let idx: usize = (epoch % hl) as usize;
        let newmix: [u8; 32] = xor32(&self.randao_mixes[idx], &digest);
        self.randao_mixes[idx] = newmix;
        if epoch > self.highest_epoch {
            self.highest_epoch = epoch;
        }
        proof {
            assert(self.mixes() =~= ingest_mixes(old(self).mixes(), epoch, entropy@));
            assert(self.sigs() =~= old(self).sigs());
        }
        Ok(())
    }

    /// Store an already-verified aggregated threshold signature for `epoch`,
    /// replacing any earlier one (last write wins). The XOR mixes are not
    /// touched; rejects only writes to epochs stale beyond the ring.
    pub fn ingest_threshold(&mut self, epoch: u64, signature: &[u8]) -> (r: Result<
        (),
        IngestError,
    >)
        requires
            old(self).wf(),
        ensures
            final(self).wf(),
            r is Ok <==> !old(self).is_stale(epoch),
            r is Err ==> r == Err::<(), IngestError>(IngestError::StaleEpoch) && *final(self)
                == *old(self),
            r is Ok ==> final(self).sigs() == old(self).sigs().update(
                slot_of(epoch),
                Some(signature@),
            ) && final(self).mixes() == old(self).mixes() && final(self).highest_epoch == (
            if epoch > old(self).highest_epoch {
                epoch
            } else {
                old(self).highest_epoch
            }),
    {
        let hl: u64 = EPOCHS_PER_HISTORICAL_VECTOR as u64;
        if self.highest_epoch >= hl && epoch <= self.highest_epoch - hl {
            return Err(IngestError::StaleEpoch);
        }
        let idx: usize = (epoch % hl) as usize;
        let stored: Vec<u8> = slice_to_vec(signature);
        proof {
            assert(stored.deep_view() =~= signature@);
        }
        self.threshold_sigs[idx] = Some(stored);
        if epoch > self.highest_epoch {
            self.highest_epoch = epoch;
        }
        proof {
            assert(self.sigs() =~= old(self).sigs().update(slot_of(epoch), Some(signature@)));
            assert(self.mixes() =~= old(self).mixes());
        }
        Ok(())
    }

    /// The current mix in the ring slot of `epoch` (all zeros if untouched).
    pub fn read_mix(&self, epoch: u64) -> (r: [u8; 32])
        requires
            self.wf(),
        ensures
            r@ == self.mixes()[slot_of(epoch)],
    {
        let idx: usize = (epoch % (EPOCHS_PER_HISTORICAL_VECTOR as u64)) as usize;
        self.randao_mixes[idx]
    }

    /// The threshold signature stored in the ring slot of `epoch`, if any.
    pub fn read_threshold(&self, epoch: u64) -> (r: Option<Vec<u8>>)
        requires
            self.wf(),
        ensures
            match r {
                Some(sig) => self.sigs()[slot_of(epoch)] == Some(sig@),
                None => self.sigs()[slot_of(epoch)] is None,
            },
    {
        let idx: usize = (epoch % (EPOCHS_PER_HISTORICAL_VECTOR as u64)) as usize;
        match &self.threshold_sigs[idx] {
            Some(sig) => Some(slice_to_vec(sig.as_slice())),
            None => None,
        }
    }

    /// Derive the 32-byte seed for duties of `target_epoch` under the 4-byte
    /// domain tag `domain`. The seed is the hash of the domain tag, the
    /// little-endian target epoch and the raw entropy source finalized
    /// `MIN_SEED_LOOKAHEAD + 1` epochs before the target (clamped at epoch
    /// zero): pure, total, and never stored.
    pub fn get_seed(&self, target_epoch: u64, domain: [u8; 4]) -> (seed: [u8; 32])
        requires
            self.wf(),
        ensures
            seed@ == sha256_of(
                seed_preimage(domain@, target_epoch, self.seed_source(target_epoch)),
            ),
    {
        let mix_epoch: u64 = if target_epoch >= MIN_SEED_LOOKAHEAD + 1 {
            target_epoch - (MIN_SEED_LOOKAHEAD + 1)
        } else {
            0
        };
        let idx: usize = (mix_epoch % (EPOCHS_PER_HISTORICAL_VECTOR as u64)) as usize;
        let mut msg: Vec<u8> = Vec::new();
        let mut j: usize = 0;
        while j < 4
            invariant
                j <= 4,
                msg@.len() == j,
                forall|k: int| 0 <= k < j ==> msg@[k] == domain@[k],
            decreases 4 - j,
        {
            msg.push(domain[j]);
            j = j + 1;
        }
        let mut epoch_bytes: Vec<u8> = epoch_to_le_bytes(target_epoch);
        msg.append(&mut epoch_bytes);
        let raw: [u8; 32] = match &self.threshold_sigs[idx] {
            Some(sig) => {
                proof {
                    assert(sig.deep_view() =~= sig@);
                    assert(self.sigs()[idx as int] == Some(sig@));
                }
                sha2_chain(sig.as_slice(), DELAY_ROUNDS)
            },
            None => {
                proof {
                    assert(self.sigs()[idx as int] is None);
                }
                self.randao_mixes[idx]
            },
        };
        let mut k: usize = 0;
        let ghost msg_prefix: Seq<u8> = msg@;
        while k < 32
            invariant
                k <= 32,
                msg@ == msg_prefix + raw@.take(k as int),
            decreases 32 - k,
        {
            msg.push(raw[k]);
            proof {
                assert(msg@ =~= msg_prefix + raw@.take(k + 1));
            }
            k = k + 1;
        }
        proof {
            assert(raw@.take(32) =~= raw@);
            assert(raw@ == self.seed_source(target_epoch));
            assert(msg@ =~= seed_preimage(domain@, target_epoch, self.seed_source(target_epoch)));
        }
        sha256(msg.as_slice())
    }
}

/// XOR commutativity of ingestion: folding contributions `a` and then `b`
/// into the same ring slot leaves the same mixes as folding `b` and then
/// `a`, whatever the two contributions are.
pub proof fn lemma_ingest_commutes(mixes: Seq<Seq<u8>>, e1: u64, e2: u64, a: Seq<u8>, b: Seq<u8>)
    requires
        slot_of(e1) == slot_of(e2),
        mixes.len() == EPOCHS_PER_HISTORICAL_VECTOR,
    ensures
        ingest_mixes(ingest_mixes(mixes, e1, a), e2, b) == ingest_mixes(
            ingest_mixes(mixes, e2, b),
            e1,
            a,
        ),
{
    let s = slot_of(e1);
    lemma_xor_fold_commutes(mixes[s], sha256_of(a), sha256_of(b));
    assert(ingest_mixes(ingest_mixes(mixes, e1, a), e2, b) =~= ingest_mixes(
        ingest_mixes(mixes, e2, b),
        e1,
        a,
    ));
}

/// Lookahead correctness: the seed for `target_epoch` reads exactly the ring
/// slot of the epoch `MIN_SEED_LOOKAHEAD + 1` before it (clamped at zero).
/// Two states that agree on that one slot — its mix and its stored threshold
/// signature — yield the same entropy source, and so the same seed, whatever
/// else they differ in.
pub proof fn lemma_seed_reads_only_the_lookahead_slot(
    s1: BeaconState,
    s2: BeaconState,
    target_epoch: u64,
)
    requires
        s1.mixes()[slot_of(mix_epoch_of(target_epoch))] == s2.mixes()[slot_of(
            mix_epoch_of(target_epoch),
        )],
        s1.sigs()[slot_of(mix_epoch_of(target_epoch))] == s2.sigs()[slot_of(
            mix_epoch_of(target_epoch),
        )],
    ensures
        s1.seed_source(target_epoch) == s2.seed_source(target_epoch),
{
}

/// Domain separation by construction: two different 4-byte domain tags give
/// different seed preimages, whatever the target epochs and entropy sources
/// are, because the domain bytes stand first in the hashed message.
pub proof fn lemma_seed_preimage_domain_separated(
    d1: Seq<u8>,
    d2: Seq<u8>,
    e1: u64,
    e2: u64,
    s1: Seq<u8>,
    s2: Seq<u8>,
)
    requires
        d1.len() == 4,
        d2.len() == 4,
        d1 != d2,
    ensures
        seed_preimage(d1, e1, s1) != seed_preimage(d2, e2, s2),
{
    if seed_preimage(d1, e1, s1) == seed_preimage(d2, e2, s2) {
        assert forall|i: int| 0 <= i < 4 implies d1[i] == d2[i] by {
            assert(seed_preimage(d1, e1, s1)[i] == d1[i]);
            assert(seed_preimage(d2, e2, s2)[i] == d2[i]);
        }
        assert(d1 =~= d2);
    }
}

/// Domain separation at the accumulator: for one state and one target epoch,
/// two different domain tags hand the hash different preimages.
pub proof fn lemma_get_seed_domain_separated(
    state: BeaconState,
    target_epoch: u64,
    d1: [u8; 4],
    d2: [u8; 4],
)
    requires
        d1@ != d2@,
    ensures
        seed_preimage(d1@, target_epoch, state.seed_source(target_epoch)) != seed_preimage(
            d2@,
            target_epoch,
            state.seed_source(target_epoch),
        ),
{
    lemma_seed_preimage_domain_separated(
        d1@,
        d2@,
        target_epoch,
        target_epoch,
        state.seed_source(target_epoch),
        state.seed_source(target_epoch),
    );
}

} // verus!
