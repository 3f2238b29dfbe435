use beacon_randofix::accumulator::{BeaconState, IngestError};
use beacon_randofix::constants::{
    DOMAIN_BEACON_ATTESTER, DOMAIN_BEACON_PROPOSER, DOMAIN_RANDAO, EPOCHS_PER_HISTORICAL_VECTOR,
};
use beacon_randofix::hash::sha2_chain;
use beacon_randofix::shuffle::{
    partition_attestation_committees, select_proposer, select_sync_committee, shuffle_indices,
    CommitteeError,
};
use sha2::{Digest, Sha256};

fn sha256_ref(data: &[u8]) -> [u8; 32] {
    let out = Sha256::digest(data);
    let mut r = [0u8; 32];
    r.copy_from_slice(&out);
    r
}

#[test]
fn shuffle_is_deterministic() {
    let seed: [u8; 32] = [0xab; 32];
    let a = shuffle_indices(100, &seed);
    let b = shuffle_indices(100, &seed);
    assert_eq!(a, b);
}

#[test]
fn shuffle_is_a_bijection() {
    let mut seed: [u8; 32] = [0u8; 32];
    for i in 0..32 {
        seed[i] = (i as u8).wrapping_mul(37).wrapping_add(11);
    }
    let mut p = shuffle_indices(50, &seed);
    p.sort();
    let identity: Vec<usize> = (0..50).collect();
    assert_eq!(p, identity);
}

#[test]
fn zero_seed_golden_permutation() {
    // With an all-zero seed every drawn swap target is zero, so the
    // Fisher-Yates pass rotates the identity left by one position.
    let seed: [u8; 32] = [0u8; 32];
    let n: usize = 16384;
    let p = shuffle_indices(n, &seed);
    assert_eq!(p.len(), n);
    assert_eq!(p[0], 1);
    assert_eq!(p[1], 2);
    assert_eq!(p[8191], 8192);
    assert_eq!(p[n - 2], n - 1);
    assert_eq!(p[n - 1], 0);
    for k in 0..n - 1 {
        assert_eq!(p[k], k + 1);
    }
    assert_eq!(select_proposer(n, &seed), p[0]);
    let sync = select_sync_committee(&p, 512).unwrap();
    assert_eq!(sync.as_slice(), &p[0..512]);
    let expected: Vec<usize> = (1..=512).collect();
    assert_eq!(sync, expected);
}

#[test]
fn nonzero_seed_golden_permutations() {
    // pinned values of the byte-rotating Fisher-Yates stream
    let mut seed: [u8; 32] = [0u8; 32];
    for i in 0..32 {
        seed[i] = (i + 1) as u8;
    }
    assert_eq!(shuffle_indices(10, &seed), vec![6, 4, 8, 7, 9, 5, 0, 3, 2, 1]);

    let seed2: [u8; 32] = [0xab; 32];
    assert_eq!(
        shuffle_indices(12, &seed2),
        vec![2, 6, 8, 4, 5, 7, 10, 9, 0, 11, 1, 3]
    );
}

#[test]
fn oversized_sync_committee_is_rejected() {
    let seed: [u8; 32] = [7u8; 32];
    let p = shuffle_indices(100, &seed);
    let r = select_sync_committee(&p, 512);
    assert_eq!(r, Err(CommitteeError::Oversized));
}

#[test]
fn sync_committee_is_permutation_prefix() {
    let seed: [u8; 32] = [3u8; 32];
    let p = shuffle_indices(600, &seed);
    let sync = select_sync_committee(&p, 512).unwrap();
    assert_eq!(sync.len(), 512);
    assert_eq!(sync.as_slice(), &p[0..512]);
}

#[test]
fn ingest_order_does_not_matter() {
    let a = [0x11u8; 48];
    let b = [0x77u8; 48];
    let epoch = 1000u64;

    let mut s1 = BeaconState::new();
    s1.ingest(epoch, &a).unwrap();
    s1.ingest(epoch, &b).unwrap();

    let mut s2 = BeaconState::new();
    s2.ingest(epoch, &b).unwrap();
    s2.ingest(epoch, &a).unwrap();

    assert_eq!(s1.read_mix(epoch), s2.read_mix(epoch));
    assert_ne!(s1.read_mix(epoch), [0u8; 32]);
}

#[test]
fn mix_accumulates_by_xor_of_digests() {
    let contribution = b"reveal for epoch 42";
    let epoch = 42u64;
    let mut state = BeaconState::new();
    assert_eq!(state.read_mix(epoch), [0u8; 32]);
    state.ingest(epoch, contribution).unwrap();
    // XOR into an all-zero mix leaves exactly the digest of the contribution
    assert_eq!(state.read_mix(epoch), sha256_ref(contribution));
}

#[test]
fn stale_epoch_is_rejected_exactly_at_the_ring_boundary() {
    let hl = EPOCHS_PER_HISTORICAL_VECTOR as u64;
    let mut state = BeaconState::new();
    state.ingest(70000, b"newest").unwrap();
    assert_eq!(state.ingest(70000 - hl, b"too old"), Err(IngestError::StaleEpoch));
    assert!(state.ingest(70000 - hl + 1, b"oldest acceptable").is_ok());
    assert_eq!(state.ingest_threshold(70000 - hl, b"too old too"), Err(IngestError::StaleEpoch));
}

#[test]
fn seed_derivation_matches_the_hash_of_its_parts() {
    let contribution = b"entropy for epoch 1000";
    let mut state = BeaconState::new();
    state.ingest(1000, contribution).unwrap();

    let target = 1002u64;
    let seed = state.get_seed(target, DOMAIN_BEACON_PROPOSER);

    let mut msg: Vec<u8> = Vec::new();
    msg.extend_from_slice(&DOMAIN_BEACON_PROPOSER);
    msg.extend_from_slice(&target.to_le_bytes());
    msg.extend_from_slice(&sha256_ref(contribution));
    assert_eq!(seed, sha256_ref(&msg));
}

#[test]
fn seed_reads_the_mix_of_the_lookahead_epoch() {
    let mut state = BeaconState::new();
    let before_1002 = state.get_seed(1002, DOMAIN_RANDAO);
    let before_1003 = state.get_seed(1003, DOMAIN_RANDAO);

    // The write to epoch 1000 feeds targets 1002 (mix epoch 1000) but not
    // 1003 (mix epoch 1001).
    state.ingest(1000, b"epoch 1000 entropy").unwrap();
    let after_1002 = state.get_seed(1002, DOMAIN_RANDAO);
    let after_1003 = state.get_seed(1003, DOMAIN_RANDAO);

    assert_ne!(before_1002, after_1002);
    assert_eq!(before_1003, after_1003);
}

#[test]
fn different_domains_give_different_seeds() {
    let mut state = BeaconState::new();
    state.ingest(1000, b"shared entropy").unwrap();
    let proposer = state.get_seed(1002, DOMAIN_BEACON_PROPOSER);
    let attester = state.get_seed(1002, DOMAIN_BEACON_ATTESTER);
    let randao = state.get_seed(1002, DOMAIN_RANDAO);
    assert_ne!(proposer, attester);
    assert_ne!(proposer, randao);
    assert_ne!(attester, randao);
}

#[test]
fn threshold_signature_replaces_the_mix_as_entropy_source() {
    let sig = [0x5au8; 96];
    let mut state = BeaconState::new();
    state.ingest(1000, b"randao fallback").unwrap();
    state.ingest_threshold(1000, &sig).unwrap();
    assert_eq!(state.read_threshold(1000).as_deref(), Some(&sig[..]));
    assert!(state.read_threshold(1001).is_none());

    let target = 1002u64;
    let seed = state.get_seed(target, DOMAIN_RANDAO);
    let mut msg: Vec<u8> = Vec::new();
    msg.extend_from_slice(&DOMAIN_RANDAO);
    msg.extend_from_slice(&target.to_le_bytes());
    msg.extend_from_slice(&sha256_ref(&sig));
    assert_eq!(seed, sha256_ref(&msg));
}

#[test]
fn later_threshold_submission_wins() {
    let first = [0x01u8; 96];
    let second = [0x02u8; 96];
    let mut state = BeaconState::new();
    state.ingest_threshold(500, &first).unwrap();
    state.ingest_threshold(500, &second).unwrap();
    assert_eq!(state.read_threshold(500).as_deref(), Some(&second[..]));
}

#[test]
fn sha2_chain_matches_known_vectors() {
    // one round of the chain is plain SHA-256; the empty-input digest is the
    // well-known constant
    let empty_digest: [u8; 32] = [
        0xe3, 0xb0, 0xc4, 0x42, 0x98, 0xfc, 0x1c, 0x14, 0x9a, 0xfb, 0xf4, 0xc8, 0x99, 0x6f, 0xb9,
        0x24, 0x27, 0xae, 0x41, 0xe4, 0x64, 0x9b, 0x93, 0x4c, 0xa4, 0x95, 0x99, 0x1b, 0x78, 0x52,
        0xb8, 0x55,
    ];
    assert_eq!(sha2_chain(b"", 1), empty_digest);
    assert_eq!(sha2_chain(b"abc", 1), sha256_ref(b"abc"));
    assert_eq!(sha2_chain(b"abc", 3), sha256_ref(&sha256_ref(&sha256_ref(b"abc"))));
    assert_eq!(sha2_chain(b"abc", 0), [0u8; 32]);
}

#[test]
fn committees_tile_the_permutation_without_overlap() {
    let seed: [u8; 32] = [0x42u8; 32];
    let p = shuffle_indices(100, &seed);
    let committees = partition_attestation_committees(&p, 4, 5);
    assert_eq!(committees.len(), 20);
    let mut seen: Vec<usize> = Vec::new();
    for (k, c) in committees.iter().enumerate() {
        assert_eq!(c.len(), 5);
        assert_eq!(c.as_slice(), &p[k * 5..(k + 1) * 5]);
        seen.extend_from_slice(c);
    }
    assert_eq!(seen.as_slice(), &p[0..100]);
    seen.sort();
    seen.dedup();
    assert_eq!(seen.len(), 100);
}

#[test]
fn committee_partition_drops_the_remainder() {
    let seed: [u8; 32] = [0x99u8; 32];
    let p = shuffle_indices(103, &seed);
    let committees = partition_attestation_committees(&p, 4, 5);
    assert_eq!(committees.len(), 20);
    // 103 / 20 = 5, so 100 validators serve and 3 are left out
    for (k, c) in committees.iter().enumerate() {
        assert_eq!(c.as_slice(), &p[k * 5..(k + 1) * 5]);
    }
    let used: usize = committees.iter().map(|c| c.len()).sum();
    assert_eq!(used, 100);
}

#[test]
fn committee_indexing_follows_slot_then_committee_order() {
    let seed: [u8; 32] = [0x10u8; 32];
    let p = shuffle_indices(64, &seed);
    let committees_per_slot = 2;
    let slots_per_epoch = 4;
    let committees = partition_attestation_committees(&p, committees_per_slot, slots_per_epoch);
    let size = 64 / (committees_per_slot * slots_per_epoch);
    for slot in 0..slots_per_epoch {
        for c in 0..committees_per_slot {
            let k = slot * committees_per_slot + c;
            assert_eq!(committees[k].as_slice(), &p[k * size..(k + 1) * size]);
        }
    }
}
