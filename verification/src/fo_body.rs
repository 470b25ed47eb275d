//! First `/fo/` POST wrapper facts: the live compressor's custom base64
//! alphabet, the XTEA key offset inside the 128-byte `N` buffer, and the
//! body length bands seen in headed Chrome.
//!
//! The charset order rotates between builds; the set is stable:
//! `A–Za–z0–9` plus `+$ -` (65 unique chars), no `/` or `=`.
use vstd::prelude::*;
use vstd::string::StringSliceAdditionalSpecFns;
use vstd::utf8::*;
use crate::fmt::push_char;
use crate::rsa_encryption::{PUBLIC_KEY_HEX, RSA_PUBLIC_EXPONENT};
use crate::text::{chars_vec, lemma_boundary_after_ascii, lemma_boundary_at_ascii, lemma_str_valid, str_slice};

verus! {

broadcast use vstd::slice::group_slice_axioms;

/// Live iframe compressor name on the branch-`b` capture.
pub const COMPRESSOR_LIVE_NAME: &'static str = "f4";

/// Historical / branch-`g` compressor name in older captures.
pub const COMPRESSOR_HISTORICAL_NAME: &'static str = "wZ";

/// Remaining live gap after this wrapper map: first-POST JSON field set.
pub const NEXT_AFTER_WRAPPER: &'static str = "fo_init_json";

/// Branch-`b` iframe charset. 65 unique chars; the encoder uses `[0..64]`.
pub const CHARSET_BRANCH_B: &'static str = "eoUfnCPsq3FtDYIAyr5hGd18az9ju+HbL-m$KJ0S24BpMQZVlvTkx6gXciW7REONw";

/// Branch-`g` iframe charset.
pub const CHARSET_BRANCH_G: &'static str = "Mcsmg7IDf234BVHpJTx6itCbauPOyW8ZEr$LS9j0-+G1hklXN5nvYRUqFKdzeoAwQ";

/// Chrome `/fo/` body prefixes (first 24 chars). Same RSA blob on each pair.
pub const CHROME_FO_PREFIXES_B: [&'static str; 6] = [
    "GIgYSecMoIjsYqQYUIzNB6Eh",
    "PaPO87+Ak$+AA4D6x2U0syqB",
    "Fy6Ao6iukOi0Cib7ldoSMI04",
    "PfBqPj7oouhzs5qq1S6kP41u",
    "urVvAlNgLoSrQL7rs5MJRmo4",
    "+6O6m5UJ8$PH0eF1Vh+4QucV",
];

/// Observed first-POST lengths (headed Chrome, same day).
pub const CHROME_FO_INIT_LENS: [usize; 4] = [3724, 4172, 4183, 3735];

/// Observed second-POST lengths.
pub const CHROME_FO_FOLLOW_UP_LENS: [usize; 3] = [86882, 86636, 88108];

/// Live iframe sets `N[0]` to this before the RSA modpow.
pub const LIVE_N0_BEFORE_RSA: u8 = 2;

/// Live iframe then zeros `N[0]` for the XTEA key bytes.
pub const LIVE_N0_AFTER_RSA: u8 = 0;

pub const RSA_BLOB_LEN: usize = 128;

#[derive(Debug, Clone, Copy, PartialEq, Eq, Structural)]
pub enum FoBodyLenBand {
    Init,
    FollowUp,
    Other,
}

/// Static wrapper facts (not a POST builder).
#[derive(Debug, Clone, Copy)]
pub struct FoBodyWrapper {
    pub compressor_live_name: &'static str,
    pub compressor_historical_name: &'static str,
    pub n0_before_rsa: u8,
    pub n0_after_rsa: u8,
    pub rsa_blob_len: usize,
    pub rsa_exponent: u32,
    pub xtea_key_formula: &'static str,
    pub custom_b64_padding: bool,
    pub n_once_per_iframe: bool,
    pub pubkey_hex: &'static str,
    pub note: &'static str,
}

/// The live wrapper facts.
pub fn live_fo_wrapper() -> (w: FoBodyWrapper)
    ensures
        w.compressor_live_name == COMPRESSOR_LIVE_NAME,
        w.compressor_historical_name == COMPRESSOR_HISTORICAL_NAME,
        w.n0_before_rsa == LIVE_N0_BEFORE_RSA,
        w.n0_after_rsa == LIVE_N0_AFTER_RSA,
        w.rsa_blob_len == RSA_BLOB_LEN,
        w.rsa_exponent == RSA_PUBLIC_EXPONENT,
        w.xtea_key_formula@ == "pad*9+40"@,
        !w.custom_b64_padding,
        w.n_once_per_iframe,
        w.pubkey_hex == PUBLIC_KEY_HEX,
{
    FoBodyWrapper {
        compressor_live_name: COMPRESSOR_LIVE_NAME,
        compressor_historical_name: COMPRESSOR_HISTORICAL_NAME,
        n0_before_rsa: LIVE_N0_BEFORE_RSA,
        n0_after_rsa: LIVE_N0_AFTER_RSA,
        rsa_blob_len: RSA_BLOB_LEN,
        rsa_exponent: RSA_PUBLIC_EXPONENT,
        xtea_key_formula: "pad*9+40",
        custom_b64_padding: false,
        n_once_per_iframe: true,
        pubkey_hex: PUBLIC_KEY_HEX,
        note: "wrapper mapped from iframe HTML + Chrome prefixes; crate encrypt_payload still zeros N[0] before RSA (orchestrate path). Do not emit a live POST body from this module.",
    }
}

/// XTEA key start index in the 128-byte `N` buffer; `pad` is the LZ padding
/// (0..=7), for which the 16-byte key always lies inside the buffer.
pub fn xtea_key_index(pad: usize) -> (i: usize)
    requires
        pad * 9 + 40 <= usize::MAX,
    ensures
        i == pad * 9 + 40,
        pad <= 7 ==> i + 16 <= RSA_BLOB_LEN,
{
    pad * 9 + 40
}

/// Length band of a `/fo/` body.
pub open spec fn fo_body_len_band(len: int) -> FoBodyLenBand {
    if 3000 <= len <= 5000 {
        FoBodyLenBand::Init
    } else if 70000 <= len <= 100000 {
        FoBodyLenBand::FollowUp
    } else {
        FoBodyLenBand::Other
    }
}

pub fn classify_fo_body_len(len: usize) -> (b: FoBodyLenBand)
    ensures
        b == fo_body_len_band(len as int),
{
    if 3000 <= len && len <= 5000 {
        FoBodyLenBand::Init
    } else if 70000 <= len && len <= 100000 {
        FoBodyLenBand::FollowUp
    } else {
        FoBodyLenBand::Other
    }
}

/// Each char of `body` occurs in `charset` (true of an empty body).
pub open spec fn chars_in_charset(body: Seq<char>, charset: Seq<char>) -> bool {
    forall|i: int| 0 <= i < body.len() ==> charset.contains(#[trigger] body[i])
}

fn vec_contains_char(v: &Vec<char>, c: char) -> (r: bool)
    ensures
        r == v@.contains(c),
{
    let mut k: usize = 0;
    while k < v.len()
        invariant
            k <= v@.len(),
            forall|j: int| 0 <= j < k ==> v@[j] != c,
        decreases v@.len() - k,
    {
        if v[k] == c {
            return true;
        }
        k = k + 1;
    }
    false
}

/// Every character of `body` occurs in `charset` (order-insensitive membership).
pub fn body_chars_in_charset(body: &str, charset: &str) -> (r: bool)
    ensures
        r == chars_in_charset(body@, charset@),
{
    let b = chars_vec(body);
    let cs = chars_vec(charset);
    let mut k: usize = 0;
    while k < b.len()
        invariant
            b@ == body@,
            cs@ == charset@,
            k <= b@.len(),
            forall|j: int| 0 <= j < k ==> charset@.contains(#[trigger] body@[j]),
        decreases b@.len() - k,
    {
        if !vec_contains_char(&cs, b[k]) {
            return false;
        }
        k = k + 1;
    }
    true
}

/// `s` is strictly increasing by code point.
pub open spec fn strictly_sorted(s: Seq<char>) -> bool {
    forall|i: int, j: int| 0 <= i < j < s.len() ==> (s[i] as int) < (s[j] as int)
}

proof fn lemma_strictly_sorted_no_dup(s: Seq<char>)
    requires
        strictly_sorted(s),
    ensures
        s.no_duplicates(),
{
    assert forall|i: int, j: int| 0 <= i < s.len() && 0 <= j < s.len() && i != j implies s[i] != s[j] by {
        if i < j {
            assert((s[i] as int) < (s[j] as int));
        } else {
            assert((s[j] as int) < (s[i] as int));
        }
    }
}

fn char_code(c: char) -> (r: u32)
    ensures
        r as int == c as int,
{
    proof {
        assert(0 <= c as int <= 0x10FFFF);
    }
    c as u32
}

proof fn lemma_char_int_injective(a: char, b: char)
    requires
        a as int == b as int,
    ensures
        a == b,
{
}

/// The distinct chars of `s` in ascending code-point order.
pub fn unique_alphabet(s: &str) -> (r: String)
    ensures
        strictly_sorted(r@),
        r@.to_set() == s@.to_set(),
{
    let cs = chars_vec(s);
    let mut out = String::new();
    let mut last: Option<char> = None;
    loop
        invariant
            cs@ == s@,
            strictly_sorted(out@),
            forall|j: int| 0 <= j < out@.len() ==> s@.contains(#[trigger] out@[j]),
            last is None <==> out@.len() == 0,
            last matches Some(l) ==> out@.len() > 0 && out@.last() == l && 0 <= l as int <= 0xFFFF_FFFF,
            forall|j: int| 0 <= j < s@.len() && (last matches Some(l) && (s@[j] as int) <= (l as int)) ==> out@.contains(#[trigger] s@[j]),
        decreases (match last { Some(l) => 0xFFFF_FFFF - (l as int), None => 0x1_0000_0000int }),
    {
        let mut best: Option<char> = None;
        let mut k: usize = 0;
        while k < cs.len()
            invariant
                cs@ == s@,
                k <= cs@.len(),
                best matches Some(b) ==> s@.contains(b) && (last matches Some(l) ==> (l as int) < (b as int)),
                forall|j: int| 0 <= j < k && (last matches Some(l) ==> (l as int) < (s@[j] as int)) ==> (best matches Some(b) && (b as int) <= (#[trigger] s@[j] as int)),
            decreases cs@.len() - k,
        {
            let c = cs[k];
            let above = match last {
                Some(l) => char_code(l) < char_code(c),
                None => true,
            };
            if above {
                let better = match best {
                    Some(b) => char_code(c) < char_code(b),
                    None => true,
                };
                if better {
                    best = Some(c);
                }
            }
            k = k + 1;
        }
        match best {
            None => {
                assert forall|x: char| s@.to_set().contains(x) implies out@.to_set().contains(x) by {
                    let j = choose|j: int| 0 <= j < s@.len() && s@[j] == x;
                    assert(s@[j] == x);
                }
                assert(out@.to_set() =~= s@.to_set());
                return out;
            },
            Some(b) => {
                let ghost old_out = out@;
                push_char(&mut out, b);
                proof {
                    assert(out@ == old_out.push(b));
                    assert forall|j: int| 0 <= j < out@.len() implies s@.contains(#[trigger] out@[j]) by {
                        if j < old_out.len() {
                            assert(out@[j] == old_out[j]);
                        }
                    }
                    assert forall|j: int| 0 <= j < s@.len() && (s@[j] as int) <= (b as int) implies out@.contains(#[trigger] s@[j]) by {
                        if s@[j] == b {
                            assert(out@[out@.len() - 1] == b);
                        } else {
                            match last {
                                Some(l) => {
                                    if (l as int) < (s@[j] as int) {
                                        assert((b as int) <= (s@[j] as int));
                                        lemma_char_int_injective(b, s@[j]);
                                    } else {
                                        assert(old_out.contains(s@[j]));
                                        let t = choose|t: int| 0 <= t < old_out.len() && old_out[t] == s@[j];
                                        assert(out@[t] == old_out[t]);
                                        assert(out@.contains(s@[j]));
                                    }
                                },
                                None => {
                                    assert((b as int) <= (s@[j] as int));
                                },
                            }
                        }
                    }
                }
                let _code = char_code(b);
                proof {
                    if last is Some {
                        assert((last->0 as int) < (b as int));
                    }
                }
                last = Some(b);
            },
        }
    }
}

/// Well-formed compressor charset: 65 bytes, 65 distinct chars, includes
/// `$ + -`, excludes `/` and `=`.
pub open spec fn charset_ok(cs: Seq<char>) -> bool {
    &&& encode_utf8(cs).len() == 65
    &&& cs.len() == 65
    &&& cs.no_duplicates()
    &&& cs.contains('$')
    &&& cs.contains('+')
    &&& cs.contains('-')
    &&& !cs.contains('/')
    &&& !cs.contains('=')
}

/// 65 unique chars, includes `+$ -`, no `/` or `=`.
pub fn charset_is_well_formed(charset: &str) -> (r: bool)
    ensures
        r == charset_ok(charset@),
{
    if charset.as_bytes().len() != 65 {
        return false;
    }
    let cs = chars_vec(charset);
    if cs.len() != 65 {
        return false;
    }
    let u = unique_alphabet(charset);
    let uc = chars_vec(u.as_str());
    proof {
        lemma_strictly_sorted_no_dup(u@);
        u@.unique_seq_to_set();
        if charset@.no_duplicates() {
            charset@.unique_seq_to_set();
        }
        if u@.len() == 65 {
            charset@.lemma_no_dup_set_cardinality();
        }
    }
    if uc.len() != 65 {
        return false;
    }
    assert(charset@.no_duplicates());
    assert(encode_utf8(charset@).len() == 65);
    vec_contains_char(&cs, '$') && vec_contains_char(&cs, '+') && vec_contains_char(&cs, '-')
        && !vec_contains_char(&cs, '/') && !vec_contains_char(&cs, '=')
}

/// Custom Turnstile alphabet (not standard base64): chars of the branch-`b`
/// set, no padding.
pub open spec fn custom_b64_shape(s: Seq<char>) -> bool {
    chars_in_charset(s, CHARSET_BRANCH_B@) && !s.contains('/') && !s.contains('=')
}

pub fn looks_like_custom_b64(s: &str) -> (r: bool)
    ensures
        r == custom_b64_shape(s@),
{
    let cs = chars_vec(s);
    body_chars_in_charset(s, CHARSET_BRANCH_B) && !vec_contains_char(&cs, '/') && !vec_contains_char(&cs, '=')
}

/// A backtick or quote byte.
pub open spec fn is_charset_quote(c: u8) -> bool {
    c == 96 || c == 39 || c == 34
}

/// At byte `i` of `b` stands a quoted 65-byte well-formed charset.
pub open spec fn charset_at(b: Seq<u8>, i: int) -> bool {
    &&& 0 <= i
    &&& i + 67 <= b.len()
    &&& is_charset_quote(b[i])
    &&& b[i + 66] == b[i]
    &&& charset_ok(decode_utf8(b.subrange(i + 1, i + 66)))
}

/// First backtick/quote 65-char alphabet in iframe HTML (``i=`eoUfn…` ``).
pub fn extract_compressor_charset(html: &str) -> (r: Option<&str>)
    ensures
        match r {
            Some(cs) => exists|i: int|
                #![trigger charset_at(html.spec_bytes(), i)]
                charset_at(html.spec_bytes(), i) && (forall|j: int| 0 <= j < i ==> !charset_at(html.spec_bytes(), j))
                    && cs.spec_bytes() == html.spec_bytes().subrange(i + 1, i + 66),
            None => forall|j: int| !charset_at(html.spec_bytes(), j),
        },
{
    let bytes = html.as_bytes();
    let ghost b = html.spec_bytes();
    proof { lemma_str_valid(html); }
    let mut i: usize = 0;
    while i <= bytes.len() && bytes.len() - i >= 67
        invariant
            b == html.spec_bytes(),
            b == bytes@,
            valid_utf8(b),
            forall|j: int| 0 <= j < i ==> !charset_at(b, j),
        decreases b.len() - i,
    {
        let open = bytes[i];
        if (open == 96 || open == 39 || open == 34) && bytes[i + 66] == open {
            proof {
                lemma_boundary_after_ascii(b, i as int);
                lemma_boundary_at_ascii(b, i + 66);
            }
            let slice = str_slice(html, i + 1, i + 66);
            proof {
                encode_utf8_decode_utf8(slice@);
            }
            if charset_is_well_formed(slice) {
                assert(slice.spec_bytes() == b.subrange(i + 1, i + 66));
                assert(charset_at(b, i as int));
                return Some(slice);
            }
        }
        i = i + 1;
    }
    proof {
        assert forall|j: int| !charset_at(b, j) by {
            if j >= i {
                assert(!(j + 67 <= b.len()));
            }
        }
    }
    None
}

/// The first `n` chars of `s` (all of `s` when shorter).
pub open spec fn take_chars(s: Seq<char>, n: int) -> Seq<char> {
    if n <= s.len() {
        s.take(n)
    } else {
        s
    }
}

/// The first `n` chars of `a` and `b` agree (each cut to its own length).
pub fn same_prefix(a: &str, b: &str, n: usize) -> (r: bool)
    ensures
        r == (take_chars(a@, n as int) == take_chars(b@, n as int)),
{
    let av = chars_vec(a);
    let bv = chars_vec(b);
    let la = if n <= av.len() { n } else { av.len() };
    let lb = if n <= bv.len() { n } else { bv.len() };
    proof {
        assert(take_chars(a@, n as int).len() == la);
        assert(take_chars(b@, n as int).len() == lb);
    }
    if la != lb {
        return false;
    }
    let mut k: usize = 0;
    while k < la
        invariant
            av@ == a@,
            bv@ == b@,
            la <= av@.len(),
            la <= bv@.len(),
            la == take_chars(a@, n as int).len(),
            la == take_chars(b@, n as int).len(),
            k <= la,
            forall|j: int| 0 <= j < k ==> a@[j] == b@[j],
        decreases la - k,
    {
        if av[k] != bv[k] {
            assert(take_chars(a@, n as int)[k as int] != take_chars(b@, n as int)[k as int]);
            return false;
        }
        k = k + 1;
    }
    assert(take_chars(a@, n as int) =~= take_chars(b@, n as int));
    true
}

} // verus!
