//! XTEA decryption, and the law that it undoes the payload stream's encryption.
use vstd::prelude::*;
use crate::rsa_encryption::{xtea_encipher, xtea_rounds, XTEA_DELTA, XTEA_ROUNDS};

verus! {

/// The XTEA mixing function of one half-round.
pub open spec fn xtea_mix(z: u32) -> u32 {
    ((z << 4u32) ^ (z >> 5u32)).wrapping_add(z)
}

/// `n` XTEA decryption rounds from state `(v0, v1, sum)`, each undoing the
/// last encryption round that ended at `sum`.
pub open spec fn xtea_unrounds(v0: u32, v1: u32, sum: u32, key: Seq<u32>, n: nat) -> (u32, u32)
    decreases n,
{
    if n == 0 {
        (v0, v1)
    } else {
        let pv1 = v1.wrapping_sub(xtea_mix(v0) ^ sum.wrapping_add(key[((sum >> 11u32) & 3) as int]));
        let psum = sum.wrapping_sub(XTEA_DELTA);
        let pv0 = v0.wrapping_sub(xtea_mix(pv1) ^ psum.wrapping_add(key[(psum & 3) as int]));
        xtea_unrounds(pv0, pv1, psum, key, (n - 1) as nat)
    }
}

/// The round sum after `n` rounds from `sum`.
pub open spec fn xtea_sum_after(sum: u32, n: nat) -> u32
    decreases n,
{
    if n == 0 {
        sum
    } else {
        xtea_sum_after(sum, (n - 1) as nat).wrapping_add(XTEA_DELTA)
    }
}

/// XTEA decryption of the block `(v0, v1)`: 32 rounds back from the final sum.
pub open spec fn xtea_decipher(key: Seq<u32>, v0: u32, v1: u32) -> (u32, u32) {
    xtea_unrounds(v0, v1, 0xC6EF3720u32, key, XTEA_ROUNDS as nat)
}

/// One encryption round.
pub open spec fn xtea_step(v: (u32, u32), sum: u32, key: Seq<u32>) -> (u32, u32) {
    let nv0 = v.0.wrapping_add(xtea_mix(v.1) ^ sum.wrapping_add(key[(sum & 3) as int]));
    let nsum = sum.wrapping_add(XTEA_DELTA);
    (nv0, v.1.wrapping_add(xtea_mix(nv0) ^ nsum.wrapping_add(key[((nsum >> 11u32) & 3) as int])))
}

proof fn lemma_rounds_first(v0: u32, v1: u32, sum: u32, key: Seq<u32>, n: nat)
    requires
        n > 0,
    ensures
        xtea_rounds(v0, v1, sum, key, n) == ({
            let s = xtea_step((v0, v1), sum, key);
            xtea_rounds(s.0, s.1, sum.wrapping_add(XTEA_DELTA), key, (n - 1) as nat)
        }),
{
}

/// The rounds, peeled from the last one.
proof fn lemma_rounds_last(v0: u32, v1: u32, sum: u32, key: Seq<u32>, n: nat)
    requires
        n > 0,
    ensures
        xtea_rounds(v0, v1, sum, key, n) == ({
            let p = xtea_rounds(v0, v1, sum, key, (n - 1) as nat);
            xtea_step(p, xtea_sum_after(sum, (n - 1) as nat), key)
        }),
    decreases n,
{
    lemma_rounds_first(v0, v1, sum, key, n);
    let s = xtea_step((v0, v1), sum, key);
    let nsum = sum.wrapping_add(XTEA_DELTA);
    if n > 1 {
        lemma_rounds_last(s.0, s.1, nsum, key, (n - 1) as nat);
        lemma_rounds_first(v0, v1, sum, key, (n - 1) as nat);
        lemma_sum_after_shift(sum, (n - 2) as nat);
    }
}

/// Starting one round later shifts the sums by one round.
proof fn lemma_sum_after_shift(sum: u32, n: nat)
    ensures
        xtea_sum_after(sum.wrapping_add(XTEA_DELTA), n) == xtea_sum_after(sum, n + 1),
    decreases n,
{
    if n > 0 {
        lemma_sum_after_shift(sum, (n - 1) as nat);
        assert(xtea_sum_after(sum.wrapping_add(XTEA_DELTA), n) == xtea_sum_after(sum.wrapping_add(XTEA_DELTA), (n - 1) as nat).wrapping_add(XTEA_DELTA));
        assert(xtea_sum_after(sum, n + 1) == xtea_sum_after(sum, n).wrapping_add(XTEA_DELTA));
    } else {
        assert(xtea_sum_after(sum, 1) == xtea_sum_after(sum, 0).wrapping_add(XTEA_DELTA));
    }
}

/// A decryption round undoes the encryption round that ended at `sum + delta`.
proof fn lemma_unstep_step(v: (u32, u32), sum: u32, key: Seq<u32>)
    ensures
        ({
            let e = xtea_step(v, sum, key);
            let esum = sum.wrapping_add(XTEA_DELTA);
            let pv1 = e.1.wrapping_sub(xtea_mix(e.0) ^ esum.wrapping_add(key[((esum >> 11u32) & 3) as int]));
            let psum = esum.wrapping_sub(XTEA_DELTA);
            let pv0 = e.0.wrapping_sub(xtea_mix(pv1) ^ psum.wrapping_add(key[(psum & 3) as int]));
            pv0 == v.0 && pv1 == v.1 && psum == sum
        }),
{
}

/// Decryption from the sum after `n` rounds undoes those `n` rounds.
proof fn lemma_unrounds_rounds(v0: u32, v1: u32, sum: u32, key: Seq<u32>, n: nat)
    ensures
        ({
            let e = xtea_rounds(v0, v1, sum, key, n);
            xtea_unrounds(e.0, e.1, xtea_sum_after(sum, n), key, n) == (v0, v1)
        }),
    decreases n,
{
    if n > 0 {
        lemma_rounds_last(v0, v1, sum, key, n);
        let p = xtea_rounds(v0, v1, sum, key, (n - 1) as nat);
        let s = xtea_sum_after(sum, (n - 1) as nat);
        lemma_unstep_step(p, s, key);
        lemma_unrounds_rounds(v0, v1, sum, key, (n - 1) as nat);
    }
}

/// XTEA decryption inverts the encryption the payload stream uses: for every
/// key and block, deciphering the enciphered block gives the block back.
pub proof fn lemma_xtea_decipher_inverts_encipher(key: Seq<u32>, v0: u32, v1: u32)
    ensures
        xtea_decipher(key, xtea_encipher(key, v0, v1).0, xtea_encipher(key, v0, v1).1) == (v0, v1),
{
    lemma_unrounds_rounds(v0, v1, 0, key, XTEA_ROUNDS as nat);
    assert(xtea_sum_after(0, 32) == 0xC6EF3720u32) by {
        reveal_with_fuel(xtea_sum_after, 33);
    }
}

} // verus!
