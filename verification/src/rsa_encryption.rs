//! The `/fo/` payload encryptor: RSA-derived key material, XTEA in a
//! counter-keyed mode, and a custom base64 alphabet.
use vstd::prelude::*;
use vstd::arithmetic::power::{lemma_pow_positive, lemma_pow_strictly_increases, pow};
use vstd::string::StringSliceAdditionalSpecFns;
use vstd::utf8::*;
use base64::Engine;
use crate::text::{lemma_boundary_after_ascii, lemma_str_valid, str_slice};

verus! {

/// Live iframe RSA modulus as big-endian hex (leading `00`; 129 bytes). Same on
/// branch `g` and live `b`. The exponent is [`RSA_PUBLIC_EXPONENT`].
/// Derived RSA blobs are left-padded to 128 bytes.
pub const PUBLIC_KEY_HEX: &'static str = "00e9d3dca1328a49ad3403e4badda37a6a13610b608b5099839e1074e720f5a33b2ebd8c2ffd12c09be0015a4635aa9d2022d8f72f90ed11610c3742b0baef5b7da73d7e79aff6cdbdeab72492ce0a858e4c1f4c27a14ebbb4ce3beacfda982fe74463e76f654aab0c597d5e73686ea149023e8f60ae6365a30055fe2c5eb2ebfb";

pub const RSA_PUBLIC_EXPONENT: u32 = 65537;

/// The modulus of [`PUBLIC_KEY_HEX`] as big-endian bytes.
pub const RSA_MODULUS_BE: [u8; 129] = [
    0x00, 0xe9, 0xd3, 0xdc, 0xa1, 0x32, 0x8a, 0x49, 0xad, 0x34, 0x03, 0xe4, 0xba, 0xdd, 0xa3, 0x7a,
    0x6a, 0x13, 0x61, 0x0b, 0x60, 0x8b, 0x50, 0x99, 0x83, 0x9e, 0x10, 0x74, 0xe7, 0x20, 0xf5, 0xa3,
    0x3b, 0x2e, 0xbd, 0x8c, 0x2f, 0xfd, 0x12, 0xc0, 0x9b, 0xe0, 0x01, 0x5a, 0x46, 0x35, 0xaa, 0x9d,
    0x20, 0x22, 0xd8, 0xf7, 0x2f, 0x90, 0xed, 0x11, 0x61, 0x0c, 0x37, 0x42, 0xb0, 0xba, 0xef, 0x5b,
    0x7d, 0xa7, 0x3d, 0x7e, 0x79, 0xaf, 0xf6, 0xcd, 0xbd, 0xea, 0xb7, 0x24, 0x92, 0xce, 0x0a, 0x85,
    0x8e, 0x4c, 0x1f, 0x4c, 0x27, 0xa1, 0x4e, 0xbb, 0xb4, 0xce, 0x3b, 0xea, 0xcf, 0xda, 0x98, 0x2f,
    0xe7, 0x44, 0x63, 0xe7, 0x6f, 0x65, 0x4a, 0xab, 0x0c, 0x59, 0x7d, 0x5e, 0x73, 0x68, 0x6e, 0xa1,
    0x49, 0x02, 0x3e, 0x8f, 0x60, 0xae, 0x63, 0x65, 0xa3, 0x00, 0x55, 0xfe, 0x2c, 0x5e, 0xb2, 0xeb,
    0xfb,
];

/// Big-endian value of `s`.
pub open spec fn be_nat(s: Seq<u8>) -> nat
    decreases s.len(),
{
    if s.len() == 0 {
        0
    } else {
        be_nat(s.drop_last()) * 256 + s.last() as nat
    }
}

/// The `len`-byte big-endian encoding of `v` (taken modulo `256^len`).
pub open spec fn be_fixed(v: nat, len: nat) -> Seq<u8>
    decreases len,
{
    if len == 0 {
        Seq::empty()
    } else {
        be_fixed(v / 256, (len - 1) as nat).push((v % 256) as u8)
    }
}

/// A big-endian value is below `256^len`, and its first byte bounds it.
pub proof fn lemma_be_nat_bounds(s: Seq<u8>)
    requires
        s.len() >= 1,
    ensures
        s[0] * pow(256, (s.len() - 1) as nat) <= be_nat(s),
        be_nat(s) < (s[0] + 1) * pow(256, (s.len() - 1) as nat),
        be_nat(s) < pow(256, s.len()),
    decreases s.len(),
{
    let n = (s.len() - 1) as nat;
    reveal(pow);
    lemma_pow_positive(256, n);
    if s.len() == 1 {
        assert(s.drop_last() =~= Seq::<u8>::empty());
        assert(be_nat(s.drop_last()) == 0);
        assert(s.last() == s[0]);
        assert(be_nat(s) == s[0] as nat);
    } else {
        let d = s.drop_last();
        lemma_be_nat_bounds(d);
        assert(d[0] == s[0]);
        let p = pow(256, (d.len() - 1) as nat);
        assert(pow(256, n) == 256 * p);
        let v = be_nat(d);
        let last = s.last() as int;
        assert(be_nat(s) == v * 256 + last);
        assert(s[0] * p <= v);
        assert(v < (s[0] + 1) * p);
        assert(s[0] * pow(256, n) <= be_nat(s)) by (nonlinear_arith)
            requires s[0] * p <= v, pow(256, n) == 256 * p, be_nat(s) == v * 256 + last, 0 <= last;
        assert(be_nat(s) < (s[0] + 1) * pow(256, n)) by (nonlinear_arith)
            requires v < (s[0] + 1) * p, pow(256, n) == 256 * p, be_nat(s) == v * 256 + last, last < 256;
    }
    assert(pow(256, s.len()) == 256 * pow(256, n));
    assert((s[0] + 1) * pow(256, n) <= pow(256, s.len())) by (nonlinear_arith)
        requires s[0] < 256, pow(256, s.len()) == 256 * pow(256, n), pow(256, n) > 0;
}

/// Leading zero bytes do not change the value.
pub proof fn lemma_be_nat_zero_prefix(z: Seq<u8>, r: Seq<u8>)
    requires
        forall|i: int| 0 <= i < z.len() ==> z[i] == 0,
    ensures
        be_nat(z + r) == be_nat(r),
    decreases r.len() + z.len(),
{
    if r.len() == 0 {
        assert(z + r =~= z);
        if z.len() > 0 {
            lemma_be_nat_zero_prefix(z.drop_last(), r);
            assert(z.drop_last() + r =~= z.drop_last());
        }
    } else {
        lemma_be_nat_zero_prefix(z, r.drop_last());
        assert((z + r).drop_last() =~= z + r.drop_last());
    }
}

/// A byte sequence is the fixed-length encoding of its own value.
pub proof fn lemma_be_fixed_of_value(s: Seq<u8>)
    ensures
        be_fixed(be_nat(s), s.len()) == s,
    decreases s.len(),
{
    if s.len() > 0 {
        let d = s.drop_last();
        lemma_be_fixed_of_value(d);
        let v = be_nat(d);
        let last = s.last() as nat;
        assert(be_nat(s) == v * 256 + last);
        assert((v * 256 + last) / 256 == v && (v * 256 + last) % 256 == last) by (nonlinear_arith)
            requires last < 256;
        assert(be_fixed(be_nat(s), s.len()) =~= d.push(s.last()));
        assert(d.push(s.last()) =~= s);
    }
}

/// The RSA value of `N`: `N^65537 mod modulus`.
pub open spec fn rsa_value(n: Seq<u8>) -> nat {
    (pow(be_nat(n) as int, RSA_PUBLIC_EXPONENT as nat) % (be_nat(RSA_MODULUS_BE@) as int)) as nat
}

/// `BigInt::from_bytes_be(Plus, base).modpow(&BigInt::from(exponent), &modulus).to_bytes_be().1`:
/// the minimal big-endian bytes (a single `0` for zero) of `base^exponent mod modulus`.
#[verifier::external_body]
fn modpow_be(base: &[u8], exponent: u32, modulus: &[u8]) -> (r: Vec<u8>)
    requires
        be_nat(modulus@) > 0,
    ensures
        be_nat(r@) == pow(be_nat(base@) as int, exponent as nat) % (be_nat(modulus@) as int),
        r@.len() >= 1,
        r@.len() > 1 ==> r@[0] != 0,
{
    let b = num::BigInt::from_bytes_be(num::bigint::Sign::Plus, base);
    let m = num::BigInt::from_bytes_be(num::bigint::Sign::Plus, modulus);
    b.modpow(&num::BigInt::from(exponent), &m).to_bytes_be().1
}

proof fn lemma_modulus_fits()
    ensures
        0 < be_nat(RSA_MODULUS_BE@) < pow(256, 128),
{
    let m = RSA_MODULUS_BE@;
    assert(m.len() == 129);
    assert(m[0] == 0);
    assert(m[1] == 0xe9);
    lemma_be_nat_bounds(m);
    let tail = m.subrange(1, 129);
    lemma_be_nat_bounds(tail);
    lemma_be_nat_zero_prefix(m.subrange(0, 1), tail);
    assert(m.subrange(0, 1) + tail =~= m);
    lemma_pow_positive(256, 127);
    assert(tail[0] == 0xe9);
    assert(tail[0] * pow(256, 127) > 0) by (nonlinear_arith)
        requires tail[0] == 0xe9, pow(256, 127) > 0;
}

/// The 128-byte RSA block derived from `N` (left-padded with zeros).
fn derive_bytes_with_public_key(bytes: &[u8; 128]) -> (d: Vec<u8>)
    ensures
        d@ == be_fixed(rsa_value(bytes@), 128),
{
    proof {
        lemma_modulus_fits();
    }
    let r = modpow_be(bytes.as_slice(), RSA_PUBLIC_EXPONENT, RSA_MODULUS_BE.as_slice());
    proof {
        let v = be_nat(r@);
        let m = be_nat(RSA_MODULUS_BE@);
        assert(v < m) by {
            vstd::arithmetic::div_mod::lemma_mod_bound(pow(be_nat(bytes@) as int, RSA_PUBLIC_EXPONENT as nat), m as int);
        }
        if r@.len() > 128 {
            lemma_be_nat_bounds(r@);
            if r@.len() - 1 > 128 {
                lemma_pow_strictly_increases(256, 128, (r@.len() - 1) as nat);
            }
            assert(r@[0] >= 1);
            assert(r@[0] * pow(256, (r@.len() - 1) as nat) >= pow(256, (r@.len() - 1) as nat)) by (nonlinear_arith)
                requires r@[0] >= 1, pow(256, (r@.len() - 1) as nat) > 0;
            assert(false);
        }
    }
    let mut d: Vec<u8> = Vec::new();
    let pad = 128 - r.len();
    let mut i: usize = 0;
    while i < pad
        invariant
            pad <= 128,
            i <= pad,
            d@.len() == i,
            forall|j: int| 0 <= j < i ==> d@[j] == 0,
        decreases pad - i,
    {
        d.push(0);
        i = i + 1;
    }
    let ghost z = d@;
    let mut k: usize = 0;
    while k < r.len()
        invariant
            z.len() == pad,
            pad + r@.len() == 128,
            k <= r@.len(),
            d@ == z + r@.take(k as int),
        decreases r@.len() - k,
    {
        d.push(r[k]);
        k = k + 1;
        assert(d@ =~= z + r@.take(k as int));
    }
    proof {
        assert(r@.take(r@.len() as int) =~= r@);
        lemma_be_nat_zero_prefix(z, r@);
        lemma_be_fixed_of_value(d@);
    }
    d
}

/// XTEA round constant.
pub const XTEA_DELTA: u32 = 0x9E3779B9;

/// XTEA rounds (the full cipher).
pub const XTEA_ROUNDS: u32 = 32;

/// `n` XTEA rounds from state `(v0, v1, sum)` under `key`.
pub open spec fn xtea_rounds(v0: u32, v1: u32, sum: u32, key: Seq<u32>, n: nat) -> (u32, u32)
    decreases n,
{
    if n == 0 {
        (v0, v1)
    } else {
        let nv0 = v0.wrapping_add((((v1 << 4u32) ^ (v1 >> 5u32)).wrapping_add(v1)) ^ sum.wrapping_add(key[(sum & 3) as int]));
        let nsum = sum.wrapping_add(XTEA_DELTA);
        let nv1 = v1.wrapping_add((((nv0 << 4u32) ^ (nv0 >> 5u32)).wrapping_add(nv0)) ^ nsum.wrapping_add(key[((nsum >> 11u32) & 3) as int]));
        xtea_rounds(nv0, nv1, nsum, key, (n - 1) as nat)
    }
}

/// XTEA encryption of the block `(v0, v1)`.
pub open spec fn xtea_encipher(key: Seq<u32>, v0: u32, v1: u32) -> (u32, u32) {
    xtea_rounds(v0, v1, 0, key, XTEA_ROUNDS as nat)
}

fn xtea_encipher_exec(key: &[u32; 4], v0: u32, v1: u32) -> (r: (u32, u32))
    ensures
        r == xtea_encipher(key@, v0, v1),
{
    let mut a = v0;
    let mut b = v1;
    let mut sum: u32 = 0;
    let mut i: u32 = 0;
    while i < XTEA_ROUNDS
        invariant
            i <= XTEA_ROUNDS,
            xtea_encipher(key@, v0, v1) == xtea_rounds(a, b, sum, key@, (XTEA_ROUNDS - i) as nat),
        decreases XTEA_ROUNDS - i,
    {
        assert((sum & 3) < 4) by (bit_vector);
        a = a.wrapping_add((((b << 4u32) ^ (b >> 5u32)).wrapping_add(b)) ^ sum.wrapping_add(key[(sum & 3) as usize]));
        sum = sum.wrapping_add(XTEA_DELTA);
        assert(((sum >> 11u32) & 3) < 4) by (bit_vector);
        b = b.wrapping_add((((a << 4u32) ^ (a >> 5u32)).wrapping_add(a)) ^ sum.wrapping_add(key[((sum >> 11u32) & 3) as usize]));
        i = i + 1;
    }
    (a, b)
}

/// Big-endian `u32` at byte `off`.
pub open spec fn be_word(b: Seq<u8>, off: int) -> u32 {
    ((b[off] as u32) << 24u32) | ((b[off + 1] as u32) << 16u32) | ((b[off + 2] as u32) << 8u32) | (b[off + 3] as u32)
}

/// Big-endian bytes of `w`.
pub open spec fn word_bytes(w: u32) -> Seq<u8> {
    seq![(w >> 24u32) as u8, ((w >> 16u32) & 0xff) as u8, ((w >> 8u32) & 0xff) as u8, (w & 0xff) as u8]
}

/// The four big-endian words of a 16-byte key.
pub open spec fn key_words(b: Seq<u8>) -> Seq<u32> {
    seq![be_word(b, 0), be_word(b, 4), be_word(b, 8), be_word(b, 12)]
}

fn be_word_exec(b: &[u8], off: usize) -> (w: u32)
    requires
        off + 4 <= b@.len(),
    ensures
        w == be_word(b@, off as int),
{
    ((b[off] as u32) << 24u32) | ((b[off + 1] as u32) << 16u32) | ((b[off + 2] as u32) << 8u32) | (b[off + 3] as u32)
}

fn push_word(out: &mut Vec<u8>, w: u32)
    ensures
        final(out)@ == old(out)@ + word_bytes(w),
{
    out.push((w >> 24u32) as u8);
    out.push(((w >> 16u32) & 0xff) as u8);
    out.push(((w >> 8u32) & 0xff) as u8);
    out.push((w & 0xff) as u8);
    assert(out@ =~= old(out)@ + word_bytes(w));
}

/// Four big-endian words of a 16-byte key.
fn u8_to_u32_be(bytes: &[u8]) -> (r: [u32; 4])
    requires
        bytes@.len() == 16,
    ensures
        r@ == key_words(bytes@),
{
    let r = [be_word_exec(bytes, 0), be_word_exec(bytes, 4), be_word_exec(bytes, 8), be_word_exec(bytes, 12)];
    assert(r@ =~= key_words(bytes@));
    r
}

/// One 8-byte block enciphered with `key`, big-endian in and out.
pub open spec fn xtea_block(key: Seq<u32>, block: Seq<u8>) -> Seq<u8> {
    let (a, b) = xtea_encipher(key, be_word(block, 0), be_word(block, 4));
    word_bytes(a) + word_bytes(b)
}

fn xtea_block_exec(key: &[u32; 4], block: &[u8]) -> (r: Vec<u8>)
    requires
        block@.len() == 8,
    ensures
        r@ == xtea_block(key@, block@),
{
    let (a, b) = xtea_encipher_exec(key, be_word_exec(block, 0), be_word_exec(block, 4));
    let mut out: Vec<u8> = Vec::new();
    push_word(&mut out, a);
    push_word(&mut out, b);
    assert(out@ =~= word_bytes(a) + word_bytes(b));
    out
}

/// The counter block `[0, 0, 0, 0, 0, 0, 0, c]`.
pub open spec fn counter_block(c: u8) -> Seq<u8> {
    seq![0u8, 0, 0, 0, 0, 0, 0, c]
}

/// Key for block `i`: the two counter blocks `i` and `i + 1` (mod 256) enciphered
/// under the base key, read as four big-endian words.
pub open spec fn block_key(key: Seq<u32>, i: nat) -> Seq<u32> {
    key_words(xtea_block(key, counter_block((i % 256) as u8)) + xtea_block(key, counter_block(((i + 1) % 256) as u8)))
}

/// The counter-keyed XTEA stream over the first `n` 8-byte blocks of `input`.
pub open spec fn turnstile_xtea_spec(input: Seq<u8>, key: Seq<u32>, n: nat) -> Seq<u8>
    decreases n,
{
    if n == 0 {
        Seq::empty()
    } else {
        let i = (n - 1) as nat;
        turnstile_xtea_spec(input, key, i) + xtea_block(block_key(key, i), input.subrange(8 * i as int, 8 * i as int + 8))
    }
}

/// Each 8-byte block enciphered under its own counter-derived key.
fn turnstile_xtea(input: &Vec<u8>, key: &[u8]) -> (r: Vec<u8>)
    requires
        key@.len() == 16,
        input@.len() % 8 == 0,
    ensures
        r@ == turnstile_xtea_spec(input@, key_words(key@), (input@.len() / 8) as nat),
{
    let base = u8_to_u32_be(key);
    let mut res: Vec<u8> = Vec::new();
    let nblocks = input.len() / 8;
    proof {
        vstd::arithmetic::div_mod::lemma_fundamental_div_mod(input@.len() as int, 8);
    }
    assert(input@.len() == 8 * nblocks);
    assert(input@.len() == input.len());
    let mut curr: usize = 0;
    while curr < nblocks
        invariant
            nblocks == input@.len() / 8,
            input@.len() == 8 * nblocks,
            input@.len() <= usize::MAX,
            input@.len() % 8 == 0,
            base@ == key_words(key@),
            curr <= nblocks,
            res@ == turnstile_xtea_spec(input@, key_words(key@), curr as nat),
        decreases nblocks - curr,
    {
        let first = [0u8, 0, 0, 0, 0, 0, 0, (curr % 256) as u8];
        let second = [0u8, 0, 0, 0, 0, 0, 0, ((curr + 1) % 256) as u8];
        assert(first@ =~= counter_block((curr % 256) as u8));
        assert(second@ =~= counter_block(((curr + 1) % 256) as u8));
        let mut stream = xtea_block_exec(&base, first.as_slice());
        let tail = xtea_block_exec(&base, second.as_slice());
        let mut t: usize = 0;
        let ghost s0 = stream@;
        while t < 8
            invariant
                tail@.len() == 8,
                t <= 8,
                stream@ == s0 + tail@.take(t as int),
            decreases 8 - t,
        {
            stream.push(tail[t]);
            t = t + 1;
            assert(stream@ =~= s0 + tail@.take(t as int));
        }
        assert(tail@.take(8) =~= tail@);
        let k2 = u8_to_u32_be(stream.as_slice());
        let block = vstd::slice::slice_subrange(input.as_slice(), 8 * curr, 8 * curr + 8);
        let enc = xtea_block_exec(&k2, block);
        let ghost prev = res@;
        let mut j: usize = 0;
        while j < 8
            invariant
                enc@.len() == 8,
                j <= 8,
                res@ == prev + enc@.take(j as int),
            decreases 8 - j,
        {
            res.push(enc[j]);
            j = j + 1;
            assert(res@ =~= prev + enc@.take(j as int));
        }
        assert(enc@.take(8) =~= enc@);
        curr = curr + 1;
    }
    res
}

/// A base64 alphabet the `base64` crate accepts: 64 distinct printable ASCII
/// bytes, none of them `=`.
pub open spec fn b64_alphabet_ok(b: Seq<u8>) -> bool {
    &&& b.len() == 64
    &&& forall|i: int| 0 <= i < 64 ==> 32 <= #[trigger] b[i] <= 126 && b[i] != 61
    &&& forall|i: int, j: int| 0 <= i < j < 64 ==> b[i] != b[j]
}

/// Base64 of `b` over `alpha` (64 chars), without padding.
pub open spec fn b64_encode(alpha: Seq<char>, b: Seq<u8>) -> Seq<char>
    decreases b.len(),
{
    if b.len() == 0 {
        Seq::empty()
    } else if b.len() == 1 {
        seq![alpha[(b[0] >> 2u8) as int], alpha[((b[0] & 3) << 4u8) as int]]
    } else if b.len() == 2 {
        seq![alpha[(b[0] >> 2u8) as int], alpha[(((b[0] & 3) << 4u8) | (b[1] >> 4u8)) as int], alpha[((b[1] & 15) << 2u8) as int]]
    } else {
        seq![
            alpha[(b[0] >> 2u8) as int],
            alpha[(((b[0] & 3) << 4u8) | (b[1] >> 4u8)) as int],
            alpha[(((b[1] & 15) << 2u8) | (b[2] >> 6u8)) as int],
            alpha[(b[2] & 63) as int],
        ] + b64_encode(alpha, b.subrange(3, b.len() as int))
    }
}

/// `GeneralPurpose::new(&Alphabet::new(alphabet)?, config without padding).encode(input)`.
#[verifier::external_body]
fn custom_b64_encode(input: &[u8], alphabet: &str) -> (r: String)
    requires
        b64_alphabet_ok(alphabet.spec_bytes()),
    ensures
        r@ == b64_encode(alphabet@, input@),
{
    let alphabet = base64::alphabet::Alphabet::new(alphabet).unwrap();
    let config = base64::engine::GeneralPurposeConfig::new().with_encode_padding(false);
    base64::engine::GeneralPurpose::new(&alphabet, config).encode(input)
}

/// What `lz_str::compress_to_uint8_array(input)` returns.
pub uninterp spec fn lz_string_bytes(input: Seq<char>) -> Seq<u8>;

/// `lz_str::compress_to_uint8_array`: LZ-String compression, each 16-bit unit big-endian.
#[verifier::external_body]
fn lz_compress(input: &str) -> (r: Vec<u8>)
    ensures
        r@ == lz_string_bytes(input@),
{
    lz_str::compress_to_uint8_array(input)
}

/// Zero bytes that pad a length up to a multiple of 8.
pub open spec fn block_padding(len: nat) -> nat {
    ((8 - len % 8) % 8) as nat
}

/// The encrypted payload for `input` with random buffer `n` (already with `n[0]`
/// set) and base64 alphabet `alpha`: RSA block, pad byte, then the XTEA stream
/// of the zero-padded compressed input under the key at `pad*9+40`.
pub open spec fn encrypted_payload(input: Seq<char>, alpha: Seq<char>, n: Seq<u8>) -> Seq<char> {
    let comp = lz_string_bytes(input);
    let pad = block_padding(comp.len());
    let padded = comp + Seq::new(pad, |i: int| 0u8);
    let ki = (pad * 9 + 40) as int;
    let key = n.subrange(ki, ki + 16);
    let out = be_fixed(rsa_value(n), 128) + seq![pad as u8] + turnstile_xtea_spec(padded, key_words(key), padded.len() / 8);
    b64_encode(alpha, out)
}

/// The zero-padded compressed input, its pad length, and the key offset.
fn padded_compressed(input: &str) -> (r: (Vec<u8>, usize))
    ensures
        r.1 == block_padding(lz_string_bytes(input@).len()),
        r.0@ == lz_string_bytes(input@) + Seq::new(r.1 as nat, |i: int| 0u8),
        r.0@.len() % 8 == 0,
        r.1 < 8,
{
    let mut compressed = lz_compress(input);
    let padding = (8 - compressed.len() % 8) % 8;
    let ghost comp = compressed@;
    let mut i: usize = 0;
    while i < padding
        invariant
            padding < 8,
            i <= padding,
            compressed@ == comp + Seq::new(i as nat, |k: int| 0u8),
        decreases padding - i,
    {
        compressed.push(0);
        i = i + 1;
        assert(compressed@ =~= comp + Seq::new(i as nat, |k: int| 0u8));
    }
    assert((comp.len() + padding) % 8 == 0);
    (compressed, padding)
}

/// RSA block, pad byte, then the XTEA stream.
fn payload_bytes(n: &[u8; 128], compressed: &Vec<u8>, padding: usize) -> (out: Vec<u8>)
    requires
        padding < 8,
        compressed@.len() % 8 == 0,
    ensures
        out@ == be_fixed(rsa_value(n@), 128) + seq![padding as u8]
            + turnstile_xtea_spec(compressed@, key_words(n@.subrange(padding * 9 + 40, padding * 9 + 56)), compressed@.len() / 8),
{
    let derived = derive_bytes_with_public_key(n);
    let mut output = derived;
    output.push(padding as u8);
    let key_index = padding * 9 + 40;
    let key = vstd::slice::slice_subrange(n.as_slice(), key_index, key_index + 16);
    let stream = turnstile_xtea(compressed, key);
    let ghost head = output@;
    let mut j: usize = 0;
    while j < stream.len()
        invariant
            j <= stream@.len(),
            output@ == head + stream@.take(j as int),
        decreases stream@.len() - j,
    {
        output.push(stream[j]);
        j = j + 1;
        assert(output@ =~= head + stream@.take(j as int));
    }
    assert(stream@.take(stream@.len() as int) =~= stream@);
    output
}

/// Orchestrate-era payload encryptor. Zeros `N[0]` before the RSA step (the live
/// iframe sets it to 2 before RSA and zeros it after); output uses the first 64
/// chars of `charset`, without padding.
pub fn encrypt_payload(input: &str, charset: &str, random_bytes: &mut [u8; 128]) -> (r: String)
    requires
        charset.spec_bytes().len() >= 64,
        b64_alphabet_ok(charset.spec_bytes().subrange(0, 64)),
    ensures
        final(random_bytes)@ == old(random_bytes)@.update(0, 0),
        r@ == encrypted_payload(input@, decode_utf8(charset.spec_bytes().subrange(0, 64)), final(random_bytes)@),
{
    random_bytes[0] = 0;
    let (compressed, padding) = padded_compressed(input);
    let output = payload_bytes(random_bytes, &compressed, padding);
    proof {
        lemma_str_valid(charset);
        let cb = charset.spec_bytes();
        assert(32 <= cb.subrange(0, 64)[63] <= 126);
        assert(cb.subrange(0, 64)[63] == cb[63]);
        lemma_boundary_after_ascii(charset.spec_bytes(), 63);
        is_char_boundary_start_end_of_seq(charset.spec_bytes());
    }
    let alphabet = str_slice(charset, 0, 64);
    proof {
        encode_utf8_decode_utf8(alphabet@);
    }
    custom_b64_encode(output.as_slice(), alphabet)
}

} // verus!
