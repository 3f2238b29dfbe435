use vstd::prelude::*;

verus! {

/// Byte `j` of the little-endian encoding of `v`.
pub open spec fn u64_le_byte(v: u64, j: int) -> u8 {
    ((v >> (8 * j) as u64) & 0xff) as u8
}

/// The 8-byte little-endian encoding of `v`.
pub open spec fn u64_le_bytes(v: u64) -> Seq<u8> {
    Seq::new(8, |j: int| u64_le_byte(v, j))
}

/// Pointwise XOR of two equal-length byte strings (the length of the first
/// operand prevails).
pub open spec fn xor_bytes(a: Seq<u8>, b: Seq<u8>) -> Seq<u8> {
    Seq::new(a.len(), |i: int| a[i] ^ b[i])
}

/// Little-endian encoding of a 64-bit epoch number, as the executable code
/// serializes it before hashing.
pub fn epoch_to_le_bytes(v: u64) -> (r: Vec<u8>)
    ensures
        r@ == u64_le_bytes(v),
{
    let mut r: Vec<u8> = Vec::new();
    let mut j: usize = 0;
    while j < 8
        invariant
            j <= 8,
            r@.len() == j,
            forall|k: int| 0 <= k < j ==> r@[k] == u64_le_byte(v, k),
        decreases 8 - j,
    {
        let byte: u8 = ((v >> (8 * (j as u64))) & 0xff) as u8;
        r.push(byte);
        j = j + 1;
    }
    proof {
        assert(r@ =~= u64_le_bytes(v));
    }
    r
}

/// XOR of two 32-byte values, used to fold a fresh entropy digest into a mix.
pub fn xor32(a: &[u8; 32], b: &[u8; 32]) -> (r: [u8; 32])
    ensures
        r@ == xor_bytes(a@, b@),
{
    let mut r: [u8; 32] = [0u8; 32];
    let mut i: usize = 0;
    while i < 32
        invariant
            i <= 32,
            forall|k: int| 0 <= k < i ==> r@[k] == (a@[k] ^ b@[k]),
        decreases 32 - i,
    {
        r[i] = a[i] ^ b[i];
        i = i + 1;
    }
    proof {
        assert(r@ =~= xor_bytes(a@, b@));
    }
    r
}

/// XOR on bytes is commutative under an existing accumulation: folding `a`
/// and then `b` into a mix gives the same bytes as folding `b` and then `a`.
pub proof fn lemma_xor_fold_commutes(m: Seq<u8>, a: Seq<u8>, b: Seq<u8>)
    ensures
        xor_bytes(xor_bytes(m, a), b) == xor_bytes(xor_bytes(m, b), a),
{
    assert(forall|x: u8, y: u8, z: u8| (x ^ y) ^ z == (x ^ z) ^ y) by (bit_vector);
    assert(xor_bytes(xor_bytes(m, a), b) =~= xor_bytes(xor_bytes(m, b), a));
}

} // verus!
