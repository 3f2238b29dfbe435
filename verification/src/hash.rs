use vstd::prelude::*;

verus! {

/// The SHA-256 digest of a byte string. The digest is left unspecified here:
/// it is a pure function of the input bytes alone, computed by the outside
/// hash implementation.
pub uninterp spec fn sha256_of(data: Seq<u8>) -> Seq<u8>;

/// `data` hashed `rounds` times in a row with SHA-256.
pub open spec fn sha256_iter(data: Seq<u8>, rounds: nat) -> Seq<u8>
    decreases rounds,
{
    if rounds == 0 {
        data
    } else {
        sha256_of(sha256_iter(data, (rounds - 1) as nat))
    }
}

/// The all-zero 32-byte string: the value of an untouched mix.
pub open spec fn zero_mix() -> Seq<u8> {
    Seq::new(32, |i: int| 0u8)
}

/// Relies on sha2::Sha256 (through its Digest trait): the digest is 32 bytes
/// and a pure function of the input bytes.
#[verifier::external_body]
pub(crate) fn sha256(data: &[u8]) -> (r: [u8; 32])
    ensures
        r@ == sha256_of(data@),
{
    let out = <sha2::Sha256 as sha2::Digest>::digest(data);
    out.into()
}

/// Repeated SHA-256, the tunable "slow" step applied to a stored threshold
/// signature before it serves as an entropy source. With `rounds == 0` no
/// hashing happens and the all-zero value is returned.
pub fn sha2_chain(data: &[u8], rounds: usize) -> (r: [u8; 32])
    ensures
        rounds == 0 ==> r@ == zero_mix(),
        rounds > 0 ==> r@ == sha256_iter(data@, rounds as nat),
{
    if rounds == 0 {
        let z: [u8; 32] = [0u8; 32];
        proof {
            assert(z@ =~= zero_mix());
        }
        return z;
    }
    let mut h: [u8; 32] = sha256(data);
    proof {
        assert(sha256_iter(data@, 0) == data@);
        assert(sha256_iter(data@, 1) == sha256_of(data@));
    }
    let mut k: usize = 1;
    while k < rounds
        invariant
            1 <= k <= rounds,
            h@ == sha256_iter(data@, k as nat),
        decreases rounds - k,
    {
        h = sha256(h.as_slice());
        k = k + 1;
    }
    h
}

} // verus!
