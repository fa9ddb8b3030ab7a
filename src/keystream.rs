use vstd::prelude::*;
use mersenne_twister::MT19937;
use rand::{Rng, SeedableRng};

verus! {

/// The low byte of each of the first `len` words drawn from an MT19937
/// generator seeded with `seed`.
pub uninterp spec fn mt19937_low_bytes(seed: u32, len: nat) -> Seq<u8>;

/// Seed of the keystream for a content version.
pub open spec fn keystream_seed(version: u32) -> u32 {
    (version << 7u32) ^ 0xA9C36DE1u32
}

/// Byte-wise exclusive or of `d` with the key bytes `k`.
pub open spec fn xor_bytes(d: Seq<u8>, k: Seq<u8>) -> Seq<u8> {
    Seq::new(d.len(), |i: int| d[i] ^ k[i])
}

/// `d` xored with the keystream of `version`; the same map undoes it.
pub open spec fn obfuscated(d: Seq<u8>, version: u32) -> Seq<u8> {
    xor_bytes(d, mt19937_low_bytes(keystream_seed(version), d.len()))
}

/// Relies on mersenne_twister's MT19937, seeded through rand's
/// `SeedableRng<u32>::from_seed`, and `Rng::next_u32`: one word drawn per
/// byte, of which the low byte is kept. The words depend on the seed alone.
#[verifier::external_body]
fn mt_keystream(seed: u32, len: usize) -> (r: Vec<u8>)
    ensures
        r@ == mt19937_low_bytes(seed, len as nat),
        r@.len() == len,
{
    let mut rng: MT19937 = SeedableRng::from_seed(seed);
    (0..len).map(|_| rng.next_u32() as u8).collect()
}

/// Seed of the keystream for a content version.
pub fn seed_of(version: u32) -> (r: u32)
    ensures
        r == keystream_seed(version),
{
    (version << 7u32) ^ 0xA9C36DE1u32
}

/// Xors `data` with the keystream of `version`. Applied twice, it gives
/// the data back.
pub fn obfuscate(data: &[u8], version: u32) -> (r: Vec<u8>)
    ensures
        r@ == obfuscated(data@, version),
{
    let ks = mt_keystream(seed_of(version), data.len());
    let mut out: Vec<u8> = Vec::new();
    let mut i: usize = 0;
    while i < data.len()
        invariant
            i <= data@.len(),
            ks@.len() == data@.len(),
            ks@ == mt19937_low_bytes(keystream_seed(version), data@.len()),
            out@ == xor_bytes(data@.take(i as int), ks@),
        decreases data.len() - i,
    {
        out.push(data[i] ^ ks[i]);
        i = i + 1;
        assert(out@ =~= xor_bytes(data@.take(i as int), ks@));
    }
    assert(data@.take(data.len() as int) =~= data@);
    out
}

/// Obfuscating twice with the same version gives the data back.
pub proof fn lemma_obfuscate_involutive(d: Seq<u8>, version: u32)
    ensures
        obfuscated(obfuscated(d, version), version) == d,
{
    let k = mt19937_low_bytes(keystream_seed(version), d.len());
    let once = obfuscated(d, version);
    assert(once.len() == d.len());
    let twice = obfuscated(once, version);
    assert forall|i: int| 0 <= i < d.len() implies twice[i] == d[i] by {
        let a = d[i];
        let b = k[i];
        assert((a ^ b) ^ b == a) by (bit_vector);
    }
    assert(twice =~= d);
}

} // verus!
