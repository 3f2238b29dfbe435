use vstd::prelude::*;

use vstd::arithmetic::div_mod::{lemma_add_mod_noop, lemma_fundamental_div_mod, lemma_small_mod};
use vstd::arithmetic::mul::{lemma_mul_inequality, lemma_mul_is_distributive_add_other_way};
use vstd::multiset::group_multiset_axioms;
use vstd::seq_lib::group_to_multiset_ensures;
use vstd::seq_lib::to_multiset_update;

verus! {

/// Why a committee could not be sliced from a permutation.
#[derive(Debug, Clone, Copy, PartialEq, Eq, Structural)]
pub enum CommitteeError {
    /// The requested committee size exceeds the population.
    Oversized,
}

/// A byte string read as a little-endian integer.
pub open spec fn le_bytes_val(b: Seq<u8>) -> nat
    decreases b.len(),
{
    if b.len() == 0 {
        0
    } else {
        b[0] as nat + 256 * le_bytes_val(b.drop_first())
    }
}

/// Powers of 256, the strict bound of `le_bytes_val` by length.
pub open spec fn pow256(k: nat) -> nat
    decreases k,
{
    if k == 0 {
        1
    } else {
        256 * pow256((k - 1) as nat)
    }
}

/// Powers of 256 grow with the exponent.
proof fn lemma_pow256_mono(a: nat, b: nat)
    requires
        a <= b,
    ensures
        pow256(a) <= pow256(b),
    decreases b,
{
    if a < b {
        lemma_pow256_mono(a, (b - 1) as nat);
    }
}

/// The powers of 256 up to the size of a u64, by value.
proof fn lemma_pow256_u64()
    ensures
        pow256(7) == 0x100_0000_0000_0000,
        pow256(8) == 0x1_0000_0000_0000_0000,
{
    assert(pow256(0) == 1);
    assert(pow256(1) == 256);
    assert(pow256(2) == 0x1_0000);
    assert(pow256(3) == 0x100_0000);
    assert(pow256(4) == 0x1_0000_0000);
    assert(pow256(5) == 0x100_0000_0000);
    assert(pow256(6) == 0x1_0000_0000_0000);
    assert(pow256(7) == 0x100_0000_0000_0000);
}

/// The running 32-byte buffer after `t` one-byte left rotations of `seed`.
pub open spec fn rotated(seed: Seq<u8>, t: int) -> Seq<u8> {
    Seq::new(32, |j: int| seed[(j + t) % 32])
}

/// The swap target drawn at shuffle position `i` (counting down from n-1):
/// the first 8 bytes of the rotated running buffer, read little-endian,
/// reduced modulo `i + 1`.
pub open spec fn swap_target(n: int, seed: Seq<u8>, i: int) -> int {
    le_bytes_val(rotated(seed, n - 1 - i).take(8)) as int % (i + 1)
}

/// The identity sequence 0, 1, ..., n-1.
pub open spec fn identity_perm(n: nat) -> Seq<usize> {
    Seq::new(n, |i: int| i as usize)
}

/// Two positions of a sequence exchanged.
pub open spec fn swapped(s: Seq<usize>, i: int, r: int) -> Seq<usize> {
    s.update(i, s[r]).update(r, s[i])
}

/// The shuffle state after the first `steps` swaps of the Fisher-Yates pass:
/// the swap numbered `t` (t = 1, 2, ...) exchanges position `n - t` with the
/// target drawn for it.
pub open spec fn shuffle_after(n: nat, seed: Seq<u8>, steps: nat) -> Seq<usize>
    decreases steps,
{
    if steps == 0 {
        identity_perm(n)
    } else {
        let prev = shuffle_after(n, seed, (steps - 1) as nat);
        let i = n as int - steps as int;
        swapped(prev, i, swap_target(n as int, seed, i))
    }
}

/// The permutation produced for population `n` and a 32-byte seed.
pub open spec fn shuffle_spec(n: nat, seed: Seq<u8>) -> Seq<usize> {
    if n == 0 {
        identity_perm(0)
    } else {
        shuffle_after(n, seed, (n - 1) as nat)
    }
}

/// Each value below `n` occurs exactly once in the identity sequence, and
/// nothing else occurs at all.
pub proof fn lemma_identity_perm_count(n: nat, v: usize)
    requires
        n <= usize::MAX,
    ensures
        identity_perm(n).to_multiset().count(v) == if (v as nat) < n {
            1nat
        } else {
            0nat
        },
    decreases n,
{
    broadcast use group_to_multiset_ensures;
    broadcast use group_multiset_axioms;

    if n == 0 {
        assert(!identity_perm(0).contains(v));
    } else {
        let m = (n - 1) as nat;
        lemma_identity_perm_count(m, v);
        assert(identity_perm(n) =~= identity_perm(m).push(m as usize));
        assert(identity_perm(n).to_multiset() =~= identity_perm(m).to_multiset().insert(
            m as usize,
        ));
    }
}

/// A swap of two in-range positions leaves a sequence's multiset unchanged.
pub proof fn lemma_swap_preserves_multiset(s: Seq<usize>, i: int, r: int)
    requires
        0 <= i < s.len(),
        0 <= r < s.len(),
    ensures
        swapped(s, i, r).to_multiset() == s.to_multiset(),
{
    broadcast use group_to_multiset_ensures;
    broadcast use group_multiset_axioms;

    if i == r {
        assert(swapped(s, i, r) =~= s);
    } else {
        let s1 = s.update(i, s[r]);
        to_multiset_update(s, i, s[r]);
        to_multiset_update(s1, r, s[i]);
        assert(s.contains(s[i]));
        assert(s.contains(s[r]));
        assert(s1[r] == s[r]);
        assert(swapped(s, i, r).to_multiset() =~= s.to_multiset());
    }
}

/// Every prefix of the shuffle keeps the multiset of the identity sequence.
pub proof fn lemma_shuffle_after_multiset(n: nat, seed: Seq<u8>, steps: nat)
    requires
        steps < n,
    ensures
        shuffle_after(n, seed, steps).len() == n,
        shuffle_after(n, seed, steps).to_multiset() == identity_perm(n).to_multiset(),
    decreases steps,
{
    if steps > 0 {
        lemma_shuffle_after_multiset(n, seed, (steps - 1) as nat);
        let prev = shuffle_after(n, seed, (steps - 1) as nat);
        let i = n as int - steps as int;
        let r = swap_target(n as int, seed, i);
        assert(0 <= r < i + 1);
        lemma_swap_preserves_multiset(prev, i, r);
    }
}

/// The shuffle returns a permutation of 0, ..., n-1: every index in range
/// occurs exactly once.
pub proof fn lemma_shuffle_spec_is_permutation(n: nat, seed: Seq<u8>)
    requires
        n <= usize::MAX,
    ensures
        shuffle_spec(n, seed).len() == n,
        forall|v: usize| #[trigger] shuffle_spec(n, seed).to_multiset().count(v) == if (v as nat)
            < n {
            1nat
        } else {
            0nat
        },
        shuffle_spec(n, seed).no_duplicates(),
        forall|k: int|
            0 <= k < n ==> (#[trigger] shuffle_spec(n, seed)[k] as nat) < n,
{
    broadcast use group_to_multiset_ensures;
    broadcast use group_multiset_axioms;

    let p = shuffle_spec(n, seed);
    if n == 0 {
        assert(p.len() == 0);
        assert forall|v: usize| #[trigger] p.to_multiset().count(v) == 0nat by {
            assert(!p.contains(v));
        }
    } else {
        lemma_shuffle_after_multiset(n, seed, (n - 1) as nat);
        assert forall|v: usize| #[trigger] p.to_multiset().count(v) == if (v as nat) < n {
            1nat
        } else {
            0nat
        } by {
            lemma_identity_perm_count(n, v);
        }
    }
    assert forall|x: usize| p.to_multiset().contains(x) implies p.to_multiset().count(x) == 1 by {
        assert(p.to_multiset().count(x) > 0);
    }
    p.lemma_multiset_has_no_duplicates_conv();
    assert forall|k: int| 0 <= k < n implies (#[trigger] p[k] as nat) < n by {
        assert(p.contains(p[k]));
        assert(p.to_multiset().count(p[k]) > 0);
    }
}

/// Deterministic shuffle of the indices 0, ..., n-1 driven by a 32-byte
/// seed: a Fisher-Yates pass whose swap target at position `i` is read from
/// a window of the seed rotated one byte per step. The same population size
/// and seed yield the same permutation for every caller, and the result is a
/// bijection on [0, n).
pub fn shuffle_indices(n: usize, seed: &[u8; 32]) -> (idx: Vec<usize>)
    ensures
        idx@ == shuffle_spec(n as nat, seed@),
        idx@.len() == n,
        forall|v: usize| #[trigger] idx@.to_multiset().count(v) == if (v as nat) < (n as nat) {
            1nat
        } else {
            0nat
        },
        idx@.no_duplicates(),
        forall|k: int| 0 <= k < n ==> (#[trigger] idx@[k] as nat) < n as nat,
{
    let mut idx: Vec<usize> = Vec::new();
    let mut c: usize = 0;
    while c < n
        invariant
            c <= n,
            idx@.len() == c,
            forall|k: int| 0 <= k < c ==> idx@[k] == k as usize,
        decreases n - c,
    {
        idx.push(c);
        c = c + 1;
    }
    proof {
        assert(idx@ =~= identity_perm(n as nat));
        lemma_shuffle_spec_is_permutation(n as nat, seed@);
    }
    if n == 0 {
        return idx;
    }
    let mut i: usize = n - 1;
    while i >= 1
        invariant
            n >= 1,
            i <= n - 1,
            idx@.len() == n,
            idx@ == shuffle_after(n as nat, seed@, (n - 1 - i) as nat),
        decreases i,
    {
        let t: usize = n - 1 - i;
        let tm: usize = t % 32;
        let ghost window: Seq<u8> = rotated(seed@, t as int).take(8);
        // read the first 8 bytes of the rotated buffer as a little-endian u64
        let mut acc: u64 = 0;
        let mut j: usize = 8;
        while j >= 1
            invariant
                j <= 8,
                tm == t as int % 32,
                window == rotated(seed@, t as int).take(8),
                acc == le_bytes_val(window.skip(j as int)),
                acc < pow256((8 - j) as nat),
            decreases j,
        {
            j = j - 1;
            let b: u8 = seed[(tm + j) % 32];
            proof {
                lemma_small_mod(j as nat, 32);
                lemma_small_mod(tm as nat, 32);
                lemma_add_mod_noop(j as int, t as int, 32);
                lemma_add_mod_noop(j as int, tm as int, 32);
                assert((j + tm) % 32 == (j + t as int) % 32);
                assert(window[j as int] == seed@[(j + t as int) % 32]);
                assert(window.skip(j as int).drop_first() =~= window.skip(j as int + 1));
                assert(window.skip(j as int)[0] == window[j as int]);
                assert(pow256((8 - j) as nat) == 256 * pow256((7 - j) as nat));
                lemma_pow256_mono((7 - j) as nat, 7);
                lemma_pow256_u64();
                assert(acc < pow256((7 - j) as nat));
            }
            acc = acc * 256 + (b as u64);
            proof {
                assert(acc == le_bytes_val(window.skip(j as int)));
            }
        }
        proof {
            assert(window.skip(0) =~= window);
            assert(pow256(8) == 0x1_0000_0000_0000_0000) by {
                assert(pow256(0) == 1);
                assert(pow256(1) == 256);
                assert(pow256(2) == 0x1_0000);
                assert(pow256(3) == 0x100_0000);
                assert(pow256(4) == 0x1_0000_0000);
                assert(pow256(5) == 0x100_0000_0000);
                assert(pow256(6) == 0x1_0000_0000_0000);
                assert(pow256(7) == 0x100_0000_0000_0000);
            }
        }
        let r: usize = (acc % ((i as u64) + 1)) as usize;
        proof {
            assert(r == swap_target(n as int, seed@, i as int));
            assert(0 <= r <= i);
        }
        let a: usize = idx[i];
        let b2: usize = idx[r];
        idx[i] = b2;
        idx[r] = a;
        proof {
            assert(idx@ == swapped(
                shuffle_after(n as nat, seed@, (n - 1 - i) as nat),
                i as int,
                r as int,
            ));
            assert(idx@ == shuffle_after(n as nat, seed@, (n - i) as nat));
        }
        i = i - 1;
    }
    proof {
        assert(i == 0);
        assert(idx@ == shuffle_spec(n as nat, seed@));
    }
    idx
}

/// The proposer drawn for a slot: the first element of the shuffled
/// validator indices.
pub fn select_proposer(validator_count: usize, seed: &[u8; 32]) -> (r: usize)
    requires
        validator_count >= 1,
    ensures
        r == shuffle_spec(validator_count as nat, seed@)[0],
        r < validator_count,
{
    let shuffled = shuffle_indices(validator_count, seed);
    shuffled[0]
}

/// The sync committee: the first `size` elements of the permutation, in
/// order. Oversized exactly when `size` exceeds the population.
pub fn select_sync_committee(permutation: &Vec<usize>, size: usize) -> (r: Result<
    Vec<usize>,
    CommitteeError,
>)
    ensures
        match r {
            Ok(c) => size <= permutation@.len() && c@ == permutation@.subrange(0, size as int),
            Err(e) => size > permutation@.len() && e == CommitteeError::Oversized,
        },
{
    if size > permutation.len() {
        return Err(CommitteeError::Oversized);
    }
    let mut c: Vec<usize> = Vec::new();
    let mut k: usize = 0;
    while k < size
        invariant
            k <= size,
            size <= permutation@.len(),
            c@.len() == k,
            forall|j: int| 0 <= j < k ==> c@[j] == permutation@[j],
        decreases size - k,
    {
        c.push(permutation[k]);
        k = k + 1;
    }
    proof {
        assert(c@ =~= permutation@.subrange(0, size as int));
    }
    Ok(c)
}

/// Split a permutation into `committees_per_slot * slots_per_epoch`
/// contiguous committees of `population / total` validators each (any
/// remainder validators are deliberately left out of every committee).
/// Committee `c` of slot `s` is the block numbered `s * committees_per_slot
/// + c`.
pub fn partition_attestation_committees(
    permutation: &Vec<usize>,
    committees_per_slot: usize,
    slots_per_epoch: usize,
) -> (r: Vec<Vec<usize>>)
    requires
        committees_per_slot >= 1,
        slots_per_epoch >= 1,
        committees_per_slot * slots_per_epoch <= usize::MAX,
    ensures
        r@.len() == committees_per_slot * slots_per_epoch,
        forall|k: int|
            0 <= k < r@.len() ==> #[trigger] r@[k]@ == permutation@.subrange(
                k * (permutation@.len() as int / (committees_per_slot * slots_per_epoch) as int),
                (k + 1) * (permutation@.len() as int / (committees_per_slot * slots_per_epoch)
                    as int),
            ),
        (committees_per_slot * slots_per_epoch) * (permutation@.len() as int / (committees_per_slot
            * slots_per_epoch) as int) <= permutation@.len(),
{
    proof {
        lemma_mul_inequality(1, committees_per_slot as int, slots_per_epoch as int);
    }
    let total: usize = committees_per_slot * slots_per_epoch;
    let size: usize = permutation.len() / total;
    proof {
        lemma_fundamental_div_mod(permutation@.len() as int, total as int);
    }
    let ghost gsize: int = permutation@.len() as int / total as int;
    let mut r: Vec<Vec<usize>> = Vec::new();
    let mut k: usize = 0;
    while k < total
        invariant
            k <= total,
            size == gsize,
            total == committees_per_slot * slots_per_epoch,
            total * size <= permutation@.len(),
            permutation@.len() <= usize::MAX,
            r@.len() == k,
            forall|q: int|
                0 <= q < k ==> #[trigger] r@[q]@ == permutation@.subrange(
                    q * gsize,
                    (q + 1) * gsize,
                ),
        decreases total - k,
    {
        proof {
            lemma_mul_inequality(k as int, k as int + 1, size as int);
            lemma_mul_inequality(k as int + 1, total as int, size as int);
            lemma_mul_is_distributive_add_other_way(size as int, k as int, 1);
        }
        let start: usize = k * size;
        let mut block: Vec<usize> = Vec::new();
        let mut j: usize = 0;
        while j < size
            invariant
                j <= size,
                start == k * gsize,
                start + size <= permutation@.len(),
                permutation@.len() <= usize::MAX,
                block@.len() == j,
                forall|q: int| 0 <= q < j ==> block@[q] == permutation@[start + q],
            decreases size - j,
        {
            block.push(permutation[start + j]);
            j = j + 1;
        }
        proof {
            assert(block@ =~= permutation@.subrange(k as int * gsize, (k as int + 1) * gsize));
        }
        r.push(block);
        k = k + 1;
    }
    r
}

/// Committee slices are pairwise disjoint: no validator index sits in two
/// different committees, because the committees are disjoint contiguous
/// ranges of a duplicate-free permutation.
pub proof fn lemma_partition_disjoint(perm: Seq<usize>, size: nat, k1: int, k2: int)
    requires
        perm.no_duplicates(),
        0 <= k1,
        0 <= k2,
        k1 != k2,
        (k1 + 1) * size <= perm.len(),
        (k2 + 1) * size <= perm.len(),
    ensures
        forall|x: usize|
            !(#[trigger] perm.subrange(k1 * size, (k1 + 1) * size).contains(x) && perm.subrange(
                k2 * size,
                (k2 + 1) * size,
            ).contains(x)),
{
    let b1 = perm.subrange(k1 * size, (k1 + 1) * size);
    let b2 = perm.subrange(k2 * size, (k2 + 1) * size);
    assert forall|x: usize| !(#[trigger] b1.contains(x) && b2.contains(x)) by {
        if b1.contains(x) && b2.contains(x) {
            let j1 = choose|j: int| 0 <= j < b1.len() && b1[j] == x;
            let j2 = choose|j: int| 0 <= j < b2.len() && b2[j] == x;
            let p1 = k1 * size + j1;
            let p2 = k2 * size + j2;
            lemma_mul_is_distributive_add_other_way(size as int, k1, 1);
            lemma_mul_is_distributive_add_other_way(size as int, k2, 1);
            if k1 < k2 {
                lemma_mul_inequality(k1 + 1, k2, size as int);
            } else {
                lemma_mul_inequality(k2 + 1, k1, size as int);
            }
            assert(p1 != p2);
            assert(perm[p1] == x && perm[p2] == x);
        }
    }
}

/// The committees laid end to end in block order.
pub open spec fn committees_concat(perm: Seq<usize>, size: nat, count: nat) -> Seq<usize>
    decreases count,
{
    if count == 0 {
        Seq::empty()
    } else {
        committees_concat(perm, size, (count - 1) as nat) + perm.subrange(
            (count - 1) * size,
            count as int * size,
        )
    }
}

/// Partition completeness: the committee slices, laid end to end in (slot,
/// committee) order, are exactly the first `count * size` elements of the
/// permutation — together they cover `count * size` validators and nothing
/// twice.
pub proof fn lemma_partition_tiles(perm: Seq<usize>, size: nat, count: nat)
    requires
        count * size <= perm.len(),
    ensures
        committees_concat(perm, size, count) == perm.take((count * size) as int),
        committees_concat(perm, size, count).len() == count * size,
    decreases count,
{
    broadcast use vstd::arithmetic::mul::group_mul_basics;

    if count == 0 {
        assert(count * size == 0);
        assert(committees_concat(perm, size, count) =~= perm.take((count * size) as int));
    } else {
        let prev = (count - 1) as nat;
        lemma_mul_inequality(prev as int, count as int, size as int);
        lemma_mul_is_distributive_add_other_way(size as int, prev as int, 1);
        assert(count as int * size as int == prev as int * size as int + size as int);
        lemma_partition_tiles(perm, size, prev);
        assert(committees_concat(perm, size, count) =~= perm.take((count * size) as int));
    }
    assert(perm.take((count * size) as int).len() == count * size);
}

} // verus!
