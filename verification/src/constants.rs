use vstd::prelude::*;

verus! {

/// Number of epochs of entropy history kept in the ring (a power of two;
/// entries for epochs further back than this are overwritten).
pub const EPOCHS_PER_HISTORICAL_VECTOR: usize = 65536;

/// Minimum number of epochs between the finalization of an entropy mix and
/// the epoch whose duties are derived from it (the derivation looks back one
/// epoch further still, for a total lookahead of `MIN_SEED_LOOKAHEAD + 1`).
pub const MIN_SEED_LOOKAHEAD: u64 = 1;

/// Rounds of repeated hashing applied to a stored threshold signature before
/// it is used as an entropy source.
pub const DELAY_ROUNDS: usize = 1;

/// Domain discriminator for proposer selection.
pub const DOMAIN_BEACON_PROPOSER: [u8; 4] = [0x00, 0x00, 0x00, 0x00];

/// Domain discriminator for attestation committee selection.
pub const DOMAIN_BEACON_ATTESTER: [u8; 4] = [0x01, 0x00, 0x00, 0x00];

/// Domain discriminator for deriving the next randomness itself.
pub const DOMAIN_RANDAO: [u8; 4] = [0x02, 0x00, 0x00, 0x00];

/// Alias used by the threshold variant for the randomness domain.
pub const DOMAIN_RANDOMNESS: [u8; 4] = [0x02, 0x00, 0x00, 0x00];

} // verus!
