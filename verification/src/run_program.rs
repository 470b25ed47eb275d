//! Packed `runProgram(...)` strings: standard base64 of the interpreter bytecode.
use vstd::prelude::*;
use vstd::string::StringSliceAdditionalSpecFns;
use vstd::utf8::*;
use base64::Engine;
use crate::fmt::push_char;
use crate::text::{chars_vec, is_unicode_white_space, starts_with_seq};
use crate::fmt::{hex2, push_hex2};
use crate::protocol::{javascript_shape, looks_like_javascript};
use crate::run_program_ops::NEXT_GAP;

verus! {

/// Base64 prefix of packed `runProgram(...)` on the captured branch-`g` iframe.
pub const PACKED_RUN_PROGRAM_PREFIX: &'static str = "ryrCJzUnLCItNTiVeJ";

/// Headed Chrome (platform branch `b`) packed prefix (first 16 chars = 12 magic bytes).
pub const PACKED_RUN_PROGRAM_PREFIX_B: &'static str = "TX5omy48NT82Lp1u";

/// Later same-day rotation.
pub const PACKED_RUN_PROGRAM_PREFIX_B_LATE: &'static str = "71GxwDchICYfNxik";

/// First 13 decoded bytes of branch-`g` packed programs.
pub const RUN_PROGRAM_MAGIC_BYTES: [u8; 13] = [
    0xaf, 0x2a, 0xc2, 0x27, 0x35, 0x27, 0x2c, 0x22, 0x2d, 0x35, 0x38, 0x95, 0x78,
];

/// First 13 decoded bytes of live branch-`b` packed programs.
pub const RUN_PROGRAM_MAGIC_BYTES_B: [u8; 13] = [
    0x4d, 0x7e, 0x68, 0x9b, 0x2e, 0x3c, 0x35, 0x3f, 0x36, 0x2e, 0x9d, 0x6e, 0x79,
];

/// First 13 decoded bytes of the later same-day `b` rotation.
pub const RUN_PROGRAM_MAGIC_BYTES_B_LATE: [u8; 13] = [
    0xef, 0x51, 0xb1, 0xc0, 0x37, 0x21, 0x20, 0x26, 0x1f, 0x37, 0x18, 0xa4, 0x41,
];

/// Stable header size in decoded bytecode (the magic).
pub const RUN_PROGRAM_MAGIC_LEN: usize = 13;

/// What `base64::prelude::BASE64_STANDARD.decode` returns for `input`:
/// the decoded bytes, or `None` where the crate reports a `DecodeError`.
pub uninterp spec fn base64_standard_decoded(input: Seq<u8>) -> Option<Seq<u8>>;

/// `BASE64_STANDARD.decode(input)` (standard alphabet, `=` padding required).
/// The contract names the outcome by [`base64_standard_decoded`]; beyond that it states
/// only the crate's round trip: the padded standard encoding of some bytes decodes to them.
#[verifier::external_body]
fn base64_standard_decode(input: &[u8]) -> (r: Option<Vec<u8>>)
    ensures
        match base64_standard_decoded(input@) {
            Some(v) => r matches Some(w) && w@ == v,
            None => r is None,
        },
        forall|raw: Seq<u8>| #[trigger] std_b64_encoding(raw) == input@ ==> r is Some && r->0@ == raw,
{
    match base64::prelude::BASE64_STANDARD.decode(input) {
        Ok(v) => Some(v),
        Err(_) => None,
    }
}

/// Why a packed `runProgram` string could not be unpacked.
#[derive(Debug, Clone, Copy, PartialEq, Eq, Structural)]
pub enum UnpackError {
    /// Fewer bytes (after dropping white space) than the packed prefix.
    TooShort(usize),
    /// A byte outside `[A-Za-z0-9+/=\r\n]`.
    NotStandardBase64,
    /// The base64 decoder rejected the input.
    DecodeFailed,
}

/// `s` without white-space chars.
pub open spec fn without_white_space(s: Seq<char>) -> Seq<char> {
    s.filter(|c: char| !is_unicode_white_space(c))
}

fn is_white_space(c: char) -> (r: bool)
    ensures
        r == is_unicode_white_space(c),
{
    let u = c as u32;
    proof {
        assert(u == c as u32);
    }
    (0x09 <= u && u <= 0x0D) || u == 0x20 || u == 0x85 || u == 0xA0 || u == 0x1680 || (0x2000 <= u && u <= 0x200A)
        || u == 0x2028 || u == 0x2029 || u == 0x202F || u == 0x205F || u == 0x3000
}

fn strip_white_space(s: &str) -> (r: String)
    ensures
        r@ == without_white_space(s@),
{
    let cs = chars_vec(s);
    let ghost pred = |c: char| !is_unicode_white_space(c);
    let mut out = String::new();
    let mut i: usize = 0;
    assert(s@.take(0).filter(pred) =~= Seq::<char>::empty()) by {
        reveal(Seq::filter);
    }
    while i < cs.len()
        invariant
            cs@ == s@,
            pred == (|c: char| !is_unicode_white_space(c)),
            i <= cs@.len(),
            out@ == s@.take(i as int).filter(pred),
        decreases cs@.len() - i,
    {
        let c = cs[i];
        proof {
            reveal(Seq::filter);
            assert(s@.take(i + 1).drop_last() =~= s@.take(i as int));
            assert(s@.take(i + 1).last() == c);
        }
        if !is_white_space(c) {
            push_char(&mut out, c);
        }
        i = i + 1;
    }
    assert(s@.take(cs@.len() as int) =~= s@);
    out
}

/// Standard base64 byte shape: at least 16 bytes of `[A-Za-z0-9+/=\r\n]`.
pub open spec fn std_b64_shape(b: Seq<u8>) -> bool {
    b.len() >= 16 && forall|i: int| 0 <= i < b.len() ==> #[trigger] std_b64_byte(b[i])
}

pub open spec fn std_b64_byte(c: u8) -> bool {
    (48 <= c <= 57) || (65 <= c <= 90) || (97 <= c <= 122) || c == 43 || c == 47 || c == 61 || c == 10 || c == 13
}

pub(crate) fn is_standard_b64(b: &[u8]) -> (r: bool)
    ensures
        r == std_b64_shape(b@),
{
    if b.len() < 16 {
        return false;
    }
    let mut i: usize = 0;
    while i < b.len()
        invariant
            i <= b@.len(),
            forall|j: int| 0 <= j < i ==> #[trigger] std_b64_byte(b@[j]),
        decreases b@.len() - i,
    {
        let c = b[i];
        if !((48 <= c && c <= 57) || (65 <= c && c <= 90) || (97 <= c && c <= 122) || c == 43 || c == 47 || c == 61 || c == 10 || c == 13) {
            assert(!std_b64_byte(b@[i as int]));
            return false;
        }
        i = i + 1;
    }
    true
}

/// `b` padded with `=` to a multiple of 4 when one or two are missing.
pub open spec fn b64_padded(b: Seq<u8>) -> Seq<u8> {
    if b.len() % 4 == 2 {
        b + seq![61u8, 61u8]
    } else if b.len() % 4 == 3 {
        b + seq![61u8]
    } else {
        b
    }
}

/// The standard base64 alphabet, `A-Z a-z 0-9 + /`.
pub open spec fn std_b64_alphabet() -> Seq<u8> {
    seq![65u8, 66, 67, 68, 69, 70, 71, 72, 73, 74, 75, 76, 77, 78, 79, 80, 81, 82, 83, 84, 85, 86, 87, 88, 89, 90, 97, 98, 99, 100, 101, 102, 103, 104, 105, 106, 107, 108, 109, 110, 111, 112, 113, 114, 115, 116, 117, 118, 119, 120, 121, 122, 48, 49, 50, 51, 52, 53, 54, 55, 56, 57, 43, 47]
}

/// Base64 of `b` over the 64-byte alphabet `alpha`, without padding.
pub open spec fn b64_encode_bytes(alpha: Seq<u8>, b: Seq<u8>) -> Seq<u8>
    decreases b.len(),
{
    if b.len() == 0 {
        Seq::empty()
    } else if b.len() == 1 {
        seq![alpha[(b[0] >> 2u8) as int], alpha[((b[0] & 3) << 4u8) as int]]
    } else if b.len() == 2 {
        seq![alpha[(b[0] >> 2u8) as int], alpha[(((b[0] & 3) << 4u8) | (b[1] >> 4u8)) as int], alpha[((b[1] & 15) << 2u8) as int]]
    } else {
        seq![
            alpha[(b[0] >> 2u8) as int],
            alpha[(((b[0] & 3) << 4u8) | (b[1] >> 4u8)) as int],
            alpha[(((b[1] & 15) << 2u8) | (b[2] >> 6u8)) as int],
            alpha[(b[2] & 63) as int],
        ] + b64_encode_bytes(alpha, b.subrange(3, b.len() as int))
    }
}

/// Standard base64 of `b` with `=` padding, as `BASE64_STANDARD.encode` writes it.
pub open spec fn std_b64_encoding(b: Seq<u8>) -> Seq<u8> {
    b64_padded(b64_encode_bytes(std_b64_alphabet(), b))
}

proof fn lemma_std_alphabet_bytes()
    ensures
        std_b64_alphabet().len() == 64,
        forall|j: int| 0 <= j < 64 ==> std_b64_byte(#[trigger] std_b64_alphabet()[j]) && std_b64_alphabet()[j] != 61,
{
    let a = std_b64_alphabet();
    assert forall|j: int| 0 <= j < 64 implies std_b64_byte(#[trigger] a[j]) && a[j] != 61 by {
        if j < 26 {
            assert(a[j] == 65 + j);
        } else if j < 52 {
            assert(a[j] == 97 + (j - 26));
        } else if j < 62 {
            assert(a[j] == 48 + (j - 52));
        }
    }
}

proof fn lemma_b64_indices(x: u8, y: u8, z: u8)
    ensures
        (x >> 2u8) < 64,
        ((x & 3) << 4u8) < 64,
        (((x & 3) << 4u8) | (y >> 4u8)) < 64,
        ((y & 15) << 2u8) < 64,
        (((y & 15) << 2u8) | (z >> 6u8)) < 64,
        (z & 63) < 64,
{
    assert((x >> 2u8) < 64) by (bit_vector);
    assert(((x & 3) << 4u8) < 64) by (bit_vector);
    assert((((x & 3) << 4u8) | (y >> 4u8)) < 64) by (bit_vector);
    assert(((y & 15) << 2u8) < 64) by (bit_vector);
    assert((((y & 15) << 2u8) | (z >> 6u8)) < 64) by (bit_vector);
    assert((z & 63) < 64) by (bit_vector);
}

/// The standard encoding is made of standard alphabet bytes, and its length is never
/// one more than a multiple of 4.
proof fn lemma_std_encoding_shape(b: Seq<u8>)
    ensures
        forall|i: int| 0 <= i < b64_encode_bytes(std_b64_alphabet(), b).len() ==> std_b64_byte(
            #[trigger] b64_encode_bytes(std_b64_alphabet(), b)[i],
        ),
        b64_encode_bytes(std_b64_alphabet(), b).len() % 4 != 1,
    decreases b.len(),
{
    lemma_std_alphabet_bytes();
    let a = std_b64_alphabet();
    let e = b64_encode_bytes(a, b);
    if b.len() == 0 {
    } else if b.len() == 1 {
        lemma_b64_indices(b[0], 0, 0);
    } else if b.len() == 2 {
        lemma_b64_indices(b[0], b[1], 0);
    } else {
        lemma_b64_indices(b[0], b[1], b[2]);
        let rest = b.subrange(3, b.len() as int);
        lemma_std_encoding_shape(rest);
        let head = seq![
            a[(b[0] >> 2u8) as int],
            a[(((b[0] & 3) << 4u8) | (b[1] >> 4u8)) as int],
            a[(((b[1] & 15) << 2u8) | (b[2] >> 6u8)) as int],
            a[(b[2] & 63) as int],
        ];
        assert(e == head + b64_encode_bytes(a, rest));
        assert forall|i: int| 0 <= i < e.len() implies std_b64_byte(#[trigger] e[i]) by {
            if i >= 4 {
                assert(e[i] == b64_encode_bytes(a, rest)[i - 4]);
            }
        }
    }
}

/// The compact bytes of a packed string that carries `raw`: the standard encoding,
/// with or without its `=` padding, at least 18 bytes long.
pub open spec fn carries(compact: Seq<u8>, raw: Seq<u8>) -> bool {
    &&& compact.len() >= 18
    &&& (compact == b64_encode_bytes(std_b64_alphabet(), raw) || compact == std_b64_encoding(raw))
}

proof fn lemma_carried_bytes_decode(compact: Seq<u8>, raw: Seq<u8>)
    requires
        carries(compact, raw),
    ensures
        std_b64_shape(compact),
        b64_padded(compact) == std_b64_encoding(raw),
{
    let e = b64_encode_bytes(std_b64_alphabet(), raw);
    lemma_std_encoding_shape(raw);
    let p = b64_padded(e);
    assert(p.len() % 4 == 0);
    assert forall|i: int| 0 <= i < p.len() implies std_b64_byte(#[trigger] p[i]) by {
        if i < e.len() {
            assert(p[i] == e[i]);
        }
    }
    if compact == p {
        assert(b64_padded(p) == p);
    }
}

/// Outcome of unpacking a packed `runProgram` string.
pub open spec fn unpacked(packed: Seq<char>) -> Result<Seq<u8>, UnpackError> {
    let compact = encode_utf8(without_white_space(packed));
    if compact.len() < 18 {
        Err(UnpackError::TooShort(compact.len() as usize))
    } else if !std_b64_shape(compact) {
        Err(UnpackError::NotStandardBase64)
    } else {
        match base64_standard_decoded(b64_padded(compact)) {
            Some(v) => Ok(v),
            None => Err(UnpackError::DecodeFailed),
        }
    }
}

/// Standard-base64 decode of a packed `runProgram` string (white space
/// dropped, missing `=` padding added). Does not interpret opcodes.
pub fn unpack_packed_run_program(packed: &str) -> (r: Result<Vec<u8>, UnpackError>)
    ensures
        match unpacked(packed@) {
            Ok(v) => r matches Ok(w) && w@ == v,
            Err(e) => r matches Err(f) && f == e,
        },
        forall|raw: Seq<u8>|
            #[trigger] carries(encode_utf8(without_white_space(packed@)), raw) ==> (r matches Ok(w) && w@ == raw),
{
    let compact = strip_white_space(packed);
    let cb = compact.as_str().as_bytes();
    proof {
        assert forall|raw: Seq<u8>| #[trigger] carries(cb@, raw) implies std_b64_shape(cb@) && b64_padded(cb@)
            == std_b64_encoding(raw) by {
            lemma_carried_bytes_decode(cb@, raw);
        }
    }
    if cb.len() < 18 {
        return Err(UnpackError::TooShort(cb.len()));
    }
    if !is_standard_b64(cb) {
        return Err(UnpackError::NotStandardBase64);
    }
    let mut padded: Vec<u8> = Vec::new();
    let mut i: usize = 0;
    while i < cb.len()
        invariant
            i <= cb@.len(),
            padded@ == cb@.take(i as int),
        decreases cb@.len() - i,
    {
        padded.push(cb[i]);
        i = i + 1;
    }
    assert(cb@.take(cb@.len() as int) =~= cb@);
    if cb.len() % 4 == 2 {
        padded.push(61);
        padded.push(61);
    } else if cb.len() % 4 == 3 {
        padded.push(61);
    }
    assert(padded@ =~= b64_padded(cb@));
    match base64_standard_decode(padded.as_slice()) {
        Some(v) => Ok(v),
        None => Err(UnpackError::DecodeFailed),
    }
}

/// What `String::from_utf8_lossy(b)` gives: each invalid sequence replaced by
/// U+FFFD.
pub uninterp spec fn utf8_lossy_chars(b: Seq<u8>) -> Seq<char>;

/// `String::from_utf8_lossy(b)` as an owned string; on valid UTF-8 it is the decoding.
#[verifier::external_body]
fn utf8_lossy(b: &[u8]) -> (r: String)
    ensures
        r@ == utf8_lossy_chars(b@),
        valid_utf8(b@) ==> r@ == decode_utf8(b@),
{
    String::from_utf8_lossy(b).into_owned()
}

/// Number of distinct byte values in `b`.
pub fn unique_byte_count(b: &[u8]) -> (n: usize)
    ensures
        n == b@.to_set().len(),
{
    let mut seen: Vec<bool> = Vec::new();
    let mut k: usize = 0;
    while k < 256
        invariant
            k <= 256,
            seen@.len() == k,
            forall|j: int| 0 <= j < k ==> !seen@[j],
        decreases 256 - k,
    {
        seen.push(false);
        k = k + 1;
    }
    let ghost mut set: Set<u8> = Set::empty();
    proof {
        assert(b@.take(0).to_set() =~= Set::<u8>::empty());
    }
    let mut n: usize = 0;
    let mut i: usize = 0;
    while i < b.len()
        invariant
            seen@.len() == 256,
            i <= b@.len(),
            set == b@.take(i as int).to_set(),
            set.finite(),
            n == set.len(),
            n <= i,
            forall|v: u8| #[trigger] seen@[v as int] == set.contains(v),
        decreases b@.len() - i,
    {
        let v = b[i];
        proof {
            assert(b@.take(i + 1) =~= b@.take(i as int).push(v));
            b@.take(i as int).lemma_push_to_set_commute(v);
            vstd::seq_lib::seq_to_set_is_finite(b@.take(i + 1));
        }
        if !seen[v as usize] {
            seen.set(v as usize, true);
            proof {
                assert(!set.contains(v));
                set = set.insert(v);
                assert forall|w: u8| #[trigger] seen@[w as int] == set.contains(w) by {
                    if w != v {
                        assert(w as int != v as int);
                    }
                }
            }
            n = n + 1;
        } else {
            proof {
                assert(set.insert(v) =~= set);
            }
        }
        i = i + 1;
    }
    assert(b@.take(b@.len() as int) =~= b@);
    n
}

/// Lower-case hex of each byte, concatenated.
pub open spec fn hex_of(b: Seq<u8>) -> Seq<char>
    decreases b.len(),
{
    if b.len() == 0 {
        Seq::empty()
    } else {
        hex_of(b.drop_last()) + hex2(b.last())
    }
}

/// Printable ASCII kept, every other byte shown as `.`.
pub open spec fn latin1_view(b: Seq<u8>) -> Seq<char> {
    b.map_values(|c: u8| if 32 <= c < 127 { c as char } else { '.' })
}

/// Non-float facts about a packed `runProgram` string.
#[derive(Debug, Clone)]
pub struct RunProgramFacts {
    pub packed_chars: usize,
    pub standard_b64: bool,
    pub decode_ok: bool,
    pub bytecode: Vec<u8>,
    pub magic_ok: bool,
    pub magic_hex: String,
    pub header_latin1: String,
    pub looks_like_javascript: bool,
    pub looks_like_zlib: bool,
    pub unique_body_bytes: usize,
    pub next_gap: &'static str,
}

/// Bytecode decoded from `packed` by the analysis (empty when it does not decode).
pub open spec fn analysis_bytecode(packed: Seq<char>) -> Option<Seq<u8>> {
    let compact = encode_utf8(without_white_space(packed));
    if std_b64_shape(compact) {
        base64_standard_decoded(b64_padded(compact))
    } else {
        None
    }
}

/// Header length: the magic length, or less for short bytecode.
pub open spec fn header_len(bc: Seq<u8>) -> int {
    if bc.len() < RUN_PROGRAM_MAGIC_LEN { bc.len() as int } else { RUN_PROGRAM_MAGIC_LEN as int }
}

pub open spec fn magic_matches(bc: Seq<u8>) -> bool {
    starts_with_seq(bc, RUN_PROGRAM_MAGIC_BYTES@) || starts_with_seq(bc, RUN_PROGRAM_MAGIC_BYTES_B@)
        || starts_with_seq(bc, RUN_PROGRAM_MAGIC_BYTES_B_LATE@)
}

/// The three headers of live packed programs: branch `g`, branch `b`, and the
/// later same-day `b` rotation (the build that packs to `71GxwDchICYfNxik`).
pub open spec fn known_headers() -> Seq<Seq<u8>> {
    seq![
        seq![0xafu8, 0x2a, 0xc2, 0x27, 0x35, 0x27, 0x2c, 0x22, 0x2d, 0x35, 0x38, 0x95, 0x78],
        seq![0x4du8, 0x7e, 0x68, 0x9b, 0x2e, 0x3c, 0x35, 0x3f, 0x36, 0x2e, 0x9d, 0x6e, 0x79],
        seq![0xefu8, 0x51, 0xb1, 0xc0, 0x37, 0x21, 0x20, 0x26, 0x1f, 0x37, 0x18, 0xa4, 0x41],
    ]
}

/// The magic check accepts exactly the bytecode whose first 13 bytes are one
/// of the three known headers; a decoded program with such a header that is
/// neither JavaScript nor zlib is reported with the next gap, not as a
/// magic mismatch.
pub proof fn lemma_magic_is_a_known_header(bc: Seq<u8>)
    ensures
        magic_matches(bc) <==> (bc.len() >= 13 && exists|h: int| 0 <= h < 3 && #[trigger] known_headers()[h] == bc.subrange(0, 13)),
        magic_matches(bc) ==> analysis_gap(true, false, false, magic_matches(bc)) == NEXT_GAP,
{
    let hs = known_headers();
    assert(RUN_PROGRAM_MAGIC_BYTES@ =~= hs[0]);
    assert(RUN_PROGRAM_MAGIC_BYTES_B@ =~= hs[1]);
    assert(RUN_PROGRAM_MAGIC_BYTES_B_LATE@ =~= hs[2]);
    if bc.len() >= 13 && exists|h: int| 0 <= h < 3 && #[trigger] hs[h] == bc.subrange(0, 13) {
        let h = choose|h: int| 0 <= h < 3 && #[trigger] hs[h] == bc.subrange(0, 13);
        assert(h == 0 || h == 1 || h == 2);
    }
    if magic_matches(bc) {
        if starts_with_seq(bc, RUN_PROGRAM_MAGIC_BYTES@) {
            assert(hs[0] == bc.subrange(0, 13));
        } else if starts_with_seq(bc, RUN_PROGRAM_MAGIC_BYTES_B@) {
            assert(hs[1] == bc.subrange(0, 13));
        } else {
            assert(hs[2] == bc.subrange(0, 13));
        }
    }
}

pub open spec fn zlib_shape(bc: Seq<u8>) -> bool {
    let body = bc.subrange(header_len(bc), bc.len() as int);
    starts_with_seq(body, seq![0x78u8, 0x9c]) || starts_with_seq(body, seq![0x78u8, 0xda])
        || starts_with_seq(bc, seq![0x1fu8, 0x8b])
}

pub open spec fn js_shape_of(packed: Seq<char>, bc: Seq<u8>) -> bool {
    javascript_shape(packed) || (bc.len() >= 32 && javascript_shape(utf8_lossy_chars(bc.subrange(0, 32))))
}

/// The next gap named by the analysis.
pub open spec fn analysis_gap(decode_ok: bool, js: bool, zlib: bool, magic: bool) -> &'static str {
    if !decode_ok {
        "packed_string_not_standard_b64"
    } else if js {
        "runProgram_argument_is_javascript"
    } else if zlib {
        "bytecode_looks_like_zlib"
    } else if !magic {
        "bytecode_magic_mismatch"
    } else {
        NEXT_GAP
    }
}

fn starts_with_bytes(b: &[u8], p: &[u8]) -> (r: bool)
    ensures
        r == starts_with_seq(b@, p@),
{
    crate::text::matches_at(b, p, 0)
}

/// Decode and classify a packed `runProgram` string (no entropy: that is
/// floating point and computed by the caller from `bytecode`).
pub fn analyze_packed_run_program_facts(packed: &str) -> (f: RunProgramFacts)
    ensures
        f.packed_chars == encode_utf8(without_white_space(packed@)).len(),
        f.standard_b64 == std_b64_shape(encode_utf8(without_white_space(packed@))),
        f.decode_ok == (analysis_bytecode(packed@) is Some),
        f.bytecode@ == (match analysis_bytecode(packed@) { Some(v) => v, None => Seq::empty() }),
        f.magic_ok == magic_matches(f.bytecode@),
        f.magic_hex@ == hex_of(f.bytecode@.subrange(0, header_len(f.bytecode@))),
        f.header_latin1@ == latin1_view(f.bytecode@.subrange(0, header_len(f.bytecode@))),
        f.looks_like_javascript == js_shape_of(packed@, f.bytecode@),
        f.looks_like_zlib == zlib_shape(f.bytecode@),
        f.unique_body_bytes == f.bytecode@.subrange(header_len(f.bytecode@), f.bytecode@.len() as int).to_set().len(),
        f.next_gap == analysis_gap(f.decode_ok, f.looks_like_javascript, f.looks_like_zlib, f.magic_ok),
{
    let compact = strip_white_space(packed);
    let cb = compact.as_str().as_bytes();
    let standard_b64 = is_standard_b64(cb);
    let decoded = if standard_b64 {
        let mut padded: Vec<u8> = Vec::new();
        let mut i: usize = 0;
        while i < cb.len()
            invariant
                i <= cb@.len(),
                padded@ == cb@.take(i as int),
            decreases cb@.len() - i,
        {
            padded.push(cb[i]);
            i = i + 1;
        }
        assert(cb@.take(cb@.len() as int) =~= cb@);
        if cb.len() % 4 == 2 {
            padded.push(61);
            padded.push(61);
        } else if cb.len() % 4 == 3 {
            padded.push(61);
        }
        assert(padded@ =~= b64_padded(cb@));
        base64_standard_decode(padded.as_slice())
    } else {
        None
    };
    let decode_ok = decoded.is_some();
    let bytecode = match decoded {
        Some(v) => v,
        None => Vec::new(),
    };
    let bc = bytecode.as_slice();
    let magic_ok = starts_with_bytes(bc, RUN_PROGRAM_MAGIC_BYTES.as_slice()) || starts_with_bytes(bc, RUN_PROGRAM_MAGIC_BYTES_B.as_slice())
        || starts_with_bytes(bc, RUN_PROGRAM_MAGIC_BYTES_B_LATE.as_slice());
    let hl = if bc.len() < RUN_PROGRAM_MAGIC_LEN { bc.len() } else { RUN_PROGRAM_MAGIC_LEN };
    let mut magic_hex = String::new();
    let mut header_latin1 = String::new();
    let mut i: usize = 0;
    while i < hl
        invariant
            hl <= bc@.len(),
            i <= hl,
            magic_hex@ == hex_of(bc@.subrange(0, i as int)),
            header_latin1@ == latin1_view(bc@.subrange(0, i as int)),
        decreases hl - i,
    {
        let c = bc[i];
        push_hex2(&mut magic_hex, c);
        let shown = if 32 <= c && c < 127 { c as char } else { '.' };
        push_char(&mut header_latin1, shown);
        proof {
            assert(bc@.subrange(0, i + 1).drop_last() =~= bc@.subrange(0, i as int));
            assert(latin1_view(bc@.subrange(0, i + 1)) =~= latin1_view(bc@.subrange(0, i as int)).push(shown));
        }
        i = i + 1;
    }
    let body = vstd::slice::slice_subrange(bc, hl, bc.len());
    let looks_js = looks_like_javascript(packed) || (bc.len() >= 32 && {
        let head = utf8_lossy(vstd::slice::slice_subrange(bc, 0, 32));
        looks_like_javascript(head.as_str())
    });
    let looks_like_zlib = starts_with_bytes(body, [0x78u8, 0x9c].as_slice()) || starts_with_bytes(body, [0x78u8, 0xda].as_slice())
        || starts_with_bytes(bc, [0x1fu8, 0x8b].as_slice());
    let next_gap = if !decode_ok {
        "packed_string_not_standard_b64"
    } else if looks_js {
        "runProgram_argument_is_javascript"
    } else if looks_like_zlib {
        "bytecode_looks_like_zlib"
    } else if !magic_ok {
        "bytecode_magic_mismatch"
    } else {
        NEXT_GAP
    };
    let unique_body_bytes = unique_byte_count(body);
    RunProgramFacts {
        packed_chars: cb.len(),
        standard_b64,
        decode_ok,
        bytecode,
        magic_ok,
        magic_hex,
        header_latin1,
        looks_like_javascript: looks_js,
        looks_like_zlib,
        unique_body_bytes,
        next_gap,
    }
}

} // verus!
