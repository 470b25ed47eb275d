//! Skip profiles for `runProgram`: per-opcode descriptions of the encoded
//! operand reads, bound to the executed script's SHA-256 and to the exact fetch
//! parameters, with a semantic fingerprint over a canonical JSON rendering.
use vstd::prelude::*;
use vstd::string::StringSliceAdditionalSpecFns;
use vstd::utf8::*;
use sha2::Digest;
use crate::fmt::{decimal, hex_digit_char, push_decimal, push_str};
use crate::run_program::hex_of;
use crate::run_program_vm::FetchParams;
use crate::text::str_eq;
pub use crate::json_canonical::canonical_json;

verus! {

pub const VM_SKIP_PROFILE_SCHEMA_VERSION: u32 = 1;

pub const VM_PROFILE_MAX_FIXED_READS: usize = 256;

pub const VM_PROFILE_MAX_TABLE_COUNT: u32 = 1048576;

pub const VM_PROFILE_MAX_REASON_LEN: usize = 512;

/// A skip profile for one captured script and fetch schedule.
#[derive(Debug, Clone, PartialEq, Eq)]
pub struct VmSkipProfile {
    pub schema_version: u32,
    pub source_sha256: String,
    pub semantic_fingerprint: String,
    pub fetch: VmProfileFetch,
    pub switch_opcodes: Vec<u8>,
    pub handlers: Vec<VmHandlerProfile>,
}

/// The fetch parameters a profile is bound to.
#[derive(Debug, Clone, Copy, PartialEq, Eq)]
pub struct VmProfileFetch {
    pub init_pc: u32,
    pub init_key: u8,
    pub byte_bias: u8,
    pub key_mul: u32,
    pub key_add: u32,
    pub key_quad_b: u32,
}

/// `f` holds exactly the fetch fields of `p`.
pub open spec fn fetch_is(f: VmProfileFetch, p: FetchParams) -> bool {
    &&& f.init_pc == p.init_pc
    &&& f.init_key == p.init_key
    &&& f.byte_bias == p.byte_bias
    &&& f.key_mul == p.key_mul
    &&& f.key_add == p.key_add
    &&& f.key_quad_b == p.key_quad_b
}

impl VmProfileFetch {
    pub fn from_params(params: FetchParams) -> (f: Self)
        ensures
            fetch_is(f, params),
    {
        VmProfileFetch {
            init_pc: params.init_pc,
            init_key: params.init_key,
            byte_bias: params.byte_bias,
            key_mul: params.key_mul,
            key_add: params.key_add,
            key_quad_b: params.key_quad_b,
        }
    }

    pub fn matches(self, params: FetchParams) -> (r: bool)
        ensures
            r == fetch_is(self, params),
    {
        self.init_pc == params.init_pc && self.init_key == params.init_key && self.byte_bias == params.byte_bias
            && self.key_mul == params.key_mul && self.key_add == params.key_add && self.key_quad_b == params.key_quad_b
    }
}

/// One switch case's operand reads.
#[derive(Debug, Clone, PartialEq, Eq)]
pub struct VmHandlerProfile {
    pub opcode: u8,
    /// Current-capture name for diagnostics only. Excluded from semantic identity.
    pub handler_label: String,
    /// Normalized structural hash emitted by the static analyzer.
    pub handler_fingerprint: String,
    pub spec: VmSkipSpec,
}

/// How a handler's encoded operands are read.
#[derive(Debug, Clone, PartialEq, Eq)]
pub enum VmSkipSpec {
    FixedReads { extra_xors: Vec<u8> },
    Leb { byte_xor: u8 },
    LebTable { count_byte_xor: u8, index_byte_xor: u8, max_count: u32 },
    TaggedLoad { operand_order: VmTaggedOperandOrder, tag_xor: u8, dst_xor: u8, tags: Vec<VmTagProfile> },
    StringLoad { prefix_xors: Vec<u8>, length_byte_xor: u8, char_xor: u8 },
    JumpStop { reason: String },
    Unknown { reason: String },
}

#[derive(Debug, Clone, Copy, PartialEq, Eq)]
pub enum VmTaggedOperandOrder {
    TagThenDst,
    DstThenTag,
}

#[derive(Debug, Clone, PartialEq, Eq)]
pub struct VmTagProfile {
    pub tag: u8,
    pub payload: VmTagPayload,
}

#[derive(Debug, Clone, PartialEq, Eq)]
pub enum VmTagPayload {
    NoPayload,
    FixedReads { extra_xors: Vec<u8> },
    Leb { byte_xor: u8 },
    String { length_byte_xor: u8, char_xor: u8 },
    Bytes { length_byte_xor: u8, char_xor: u8 },
    Regexp { pattern_length_byte_xor: u8, pattern_char_xor: u8, flags_length_xor: u8, flags_char_xor: u8 },
}

/// Why a profile was rejected.
#[derive(Debug, Clone, PartialEq, Eq)]
pub struct VmProfileValidationError {
    pub reason: String,
}

/// 64 lower-case hex characters.
pub open spec fn sha256_hex_shape(b: Seq<u8>) -> bool {
    b.len() == 64 && forall|i: int| 0 <= i < 64 ==> (48 <= #[trigger] b[i] <= 57 || 97 <= b[i] <= 102)
}

fn is_sha256_hex(s: &str) -> (r: bool)
    ensures
        r == sha256_hex_shape(s.spec_bytes()),
{
    let b = s.as_bytes();
    if b.len() != 64 {
        return false;
    }
    let mut i: usize = 0;
    while i < 64
        invariant
            b@ == s.spec_bytes(),
            b@.len() == 64,
            i <= 64,
            forall|j: int| 0 <= j < i ==> (48 <= #[trigger] b@[j] <= 57 || 97 <= b@[j] <= 102),
        decreases 64 - i,
    {
        let c = b[i];
        if !((48 <= c && c <= 57) || (97 <= c && c <= 102)) {
            assert(!(48 <= b@[i as int] <= 57 || 97 <= b@[i as int] <= 102));
            return false;
        }
        i = i + 1;
    }
    true
}

/// Message for a malformed SHA-256 field.
pub open spec fn sha_message(field: Seq<char>) -> Seq<char> {
    field + " must be 64 lowercase hex characters"@
}

fn sha_error(field: &str) -> (e: VmProfileValidationError)
    ensures
        e.reason@ == sha_message(field@),
{
    let mut s = String::new();
    push_str(&mut s, field);
    push_str(&mut s, " must be 64 lowercase hex characters");
    VmProfileValidationError { reason: s }
}

/// Strictly increasing bytes.
pub open spec fn strictly_increasing(v: Seq<u8>) -> bool {
    forall|i: int| 0 <= i < v.len() - 1 ==> #[trigger] v[i] < v[i + 1]
}

fn strictly_sorted_unique(v: &[u8]) -> (r: bool)
    ensures
        r == strictly_increasing(v@),
{
    if v.len() < 2 {
        return true;
    }
    let mut i: usize = 0;
    while i < v.len() - 1
        invariant
            v@.len() >= 2,
            i + 1 <= v@.len(),
            forall|j: int| 0 <= j < i ==> #[trigger] v@[j] < v@[j + 1],
        decreases v@.len() - i,
    {
        if v[i] >= v[i + 1] {
            assert(!(v@[i as int] < v@[i + 1]));
            return false;
        }
        i = i + 1;
    }
    true
}

/// `"opcode {op}"`.
pub open spec fn opcode_prefix(op: u8) -> Seq<char> {
    "opcode "@ + decimal(op as nat)
}

fn opcode_message(op: u8, tail: &str) -> (e: VmProfileValidationError)
    ensures
        e.reason@ == opcode_prefix(op) + tail@,
{
    let mut s = String::new();
    push_str(&mut s, "opcode ");
    push_decimal(&mut s, op as u64);
    push_str(&mut s, tail);
    VmProfileValidationError { reason: s }
}

/// Check of a fixed-read list.
pub open spec fn reads_check(op: u8, reads: Seq<u8>) -> Option<Seq<char>> {
    if reads.len() > VM_PROFILE_MAX_FIXED_READS {
        Some(opcode_prefix(op) + " has too many fixed reads: "@ + decimal(reads.len()))
    } else {
        None
    }
}

fn validate_reads(opcode: u8, reads: &[u8]) -> (r: Result<(), VmProfileValidationError>)
    ensures
        match reads_check(opcode, reads@) {
            Some(m) => r matches Err(e) && e.reason@ == m,
            None => r is Ok,
        },
{
    if reads.len() > VM_PROFILE_MAX_FIXED_READS {
        let mut s = String::new();
        push_str(&mut s, "opcode ");
        push_decimal(&mut s, opcode as u64);
        push_str(&mut s, " has too many fixed reads: ");
        push_decimal(&mut s, reads.len() as u64);
        return Err(VmProfileValidationError { reason: s });
    }
    Ok(())
}

/// Check of a stop reason: 1 to 512 bytes.
pub open spec fn reason_check(op: u8, reason: Seq<char>) -> Option<Seq<char>> {
    if reason.len() == 0 || encode_utf8(reason).len() > VM_PROFILE_MAX_REASON_LEN {
        Some(opcode_prefix(op) + " has an invalid reason"@)
    } else {
        None
    }
}

fn validate_reason(opcode: u8, reason: &str) -> (r: Result<(), VmProfileValidationError>)
    ensures
        match reason_check(opcode, reason@) {
            Some(m) => r matches Err(e) && e.reason@ == m,
            None => r is Ok,
        },
{
    if reason.is_empty() || reason.as_bytes().len() > VM_PROFILE_MAX_REASON_LEN {
        return Err(opcode_message(opcode, " has an invalid reason"));
    }
    Ok(())
}

/// Check of the tags of a tagged load from index `k`: no tag repeats an
/// earlier one, and fixed-read payloads are within bounds.
pub open spec fn tags_check(op: u8, tags: Seq<VmTagProfile>, k: int) -> Option<Seq<char>>
    decreases tags.len() - k,
{
    if k < 0 || k >= tags.len() {
        None
    } else if exists|j: int| 0 <= j < k && #[trigger] tags[j].tag == tags[k].tag {
        Some(opcode_prefix(op) + " has duplicate tag "@ + decimal(tags[k].tag as nat))
    } else {
        match tags[k].payload {
            VmTagPayload::FixedReads { extra_xors } => match reads_check(op, extra_xors@) {
                Some(m) => Some(m),
                None => tags_check(op, tags, k + 1),
            },
            _ => tags_check(op, tags, k + 1),
        }
    }
}

/// Check of one handler's skip spec.
pub open spec fn spec_check(op: u8, spec: VmSkipSpec) -> Option<Seq<char>> {
    match spec {
        VmSkipSpec::FixedReads { extra_xors } => reads_check(op, extra_xors@),
        VmSkipSpec::Leb { .. } => None,
        VmSkipSpec::LebTable { max_count, .. } => if max_count == 0 || max_count > VM_PROFILE_MAX_TABLE_COUNT {
            Some(opcode_prefix(op) + " LEB table max_count "@ + decimal(max_count as nat) + " is out of bounds"@)
        } else {
            None
        },
        VmSkipSpec::TaggedLoad { tags, .. } => if tags@.len() == 0 {
            Some(opcode_prefix(op) + " tagged load has no tags"@)
        } else {
            tags_check(op, tags@, 0)
        },
        VmSkipSpec::StringLoad { prefix_xors, .. } => reads_check(op, prefix_xors@),
        VmSkipSpec::JumpStop { reason } => reason_check(op, reason@),
        VmSkipSpec::Unknown { reason } => reason_check(op, reason@),
    }
}

fn validate_tags(opcode: u8, tags: &Vec<VmTagProfile>) -> (r: Result<(), VmProfileValidationError>)
    ensures
        match tags_check(opcode, tags@, 0) {
            Some(m) => r matches Err(e) && e.reason@ == m,
            None => r is Ok,
        },
{
    let mut k: usize = 0;
    while k < tags.len()
        invariant
            k <= tags@.len(),
            tags_check(opcode, tags@, 0) == tags_check(opcode, tags@, k as int),
        decreases tags@.len() - k,
    {
        let t = tags[k].tag;
        let mut j: usize = 0;
        while j < k
            invariant
                k < tags@.len(),
                tags_check(opcode, tags@, 0) == tags_check(opcode, tags@, k as int),
                t == tags@[k as int].tag,
                j <= k,
                forall|i: int| 0 <= i < j ==> tags@[i].tag != t,
            decreases k - j,
        {
            if tags[j].tag == t {
                let mut s = String::new();
                push_str(&mut s, "opcode ");
                push_decimal(&mut s, opcode as u64);
                push_str(&mut s, " has duplicate tag ");
                push_decimal(&mut s, t as u64);
                assert(tags@[j as int].tag == tags@[k as int].tag);
                return Err(VmProfileValidationError { reason: s });
            }
            j = j + 1;
        }
        assert(!(exists|i: int| 0 <= i < k && #[trigger] tags@[i].tag == tags@[k as int].tag));
        match &tags[k].payload {
            VmTagPayload::FixedReads { extra_xors } => {
                let r = validate_reads(opcode, extra_xors.as_slice());
                if r.is_err() {
                    return r;
                }
            },
            _ => {},
        }
        k = k + 1;
    }
    Ok(())
}

fn validate_spec(opcode: u8, spec: &VmSkipSpec) -> (r: Result<(), VmProfileValidationError>)
    ensures
        match spec_check(opcode, *spec) {
            Some(m) => r matches Err(e) && e.reason@ == m,
            None => r is Ok,
        },
{
    match spec {
        VmSkipSpec::FixedReads { extra_xors } => validate_reads(opcode, extra_xors.as_slice()),
        VmSkipSpec::Leb { .. } => Ok(()),
        VmSkipSpec::LebTable { max_count, .. } => {
            if *max_count == 0 || *max_count > VM_PROFILE_MAX_TABLE_COUNT {
                let mut s = String::new();
                push_str(&mut s, "opcode ");
                push_decimal(&mut s, opcode as u64);
                push_str(&mut s, " LEB table max_count ");
                push_decimal(&mut s, *max_count as u64);
                push_str(&mut s, " is out of bounds");
                return Err(VmProfileValidationError { reason: s });
            }
            Ok(())
        },
        VmSkipSpec::TaggedLoad { tags, .. } => {
            if tags.len() == 0 {
                return Err(opcode_message(opcode, " tagged load has no tags"));
            }
            validate_tags(opcode, tags)
        },
        VmSkipSpec::StringLoad { prefix_xors, .. } => validate_reads(opcode, prefix_xors.as_slice()),
        VmSkipSpec::JumpStop { reason } => validate_reason(opcode, reason.as_str()),
        VmSkipSpec::Unknown { reason } => validate_reason(opcode, reason.as_str()),
    }
}

impl VmSkipProfile {
    /// The handler for `opcode` (binary search over the handlers by opcode).
    /// When the handlers are strictly opcode-sorted it is found exactly when present.
    pub fn handler(&self, opcode: u8) -> (r: Option<&VmHandlerProfile>)
        ensures
            r matches Some(h) ==> h.opcode == opcode && self.handlers@.contains(*h),
            (forall|i: int, j: int| 0 <= i < j < self.handlers@.len() ==> self.handlers@[i].opcode < self.handlers@[j].opcode)
                ==> (r is None <==> forall|i: int| 0 <= i < self.handlers@.len() ==> self.handlers@[i].opcode != opcode),
    {
        let hs = &self.handlers;
        let mut lo: usize = 0;
        let mut hi: usize = hs.len();
        while lo < hi
            invariant
                hs@ == self.handlers@,
                lo <= hi <= hs@.len(),
                (forall|i: int, j: int| 0 <= i < j < hs@.len() ==> hs@[i].opcode < hs@[j].opcode) ==> (forall|i: int|
                    0 <= i < hs@.len() && hs@[i].opcode == opcode ==> lo <= i < hi),
            decreases hi - lo,
        {
            let mid = lo + (hi - lo) / 2;
            let m = hs[mid].opcode;
            if m == opcode {
                assert(self.handlers@[mid as int] == hs@[mid as int]);
                return Some(&hs[mid]);
            } else if m < opcode {
                lo = mid + 1;
            } else {
                hi = mid;
            }
        }
        None
    }
}

/// How serde_json writes one character inside a string literal: `"` and `\\`
/// behind a backslash, the five C escapes, `\u00xx` (lower-case hex) for the
/// other control characters below 0x20, anything else as it is.
pub open spec fn json_escape_char(c: char) -> Seq<char> {
    if c == '"' {
        seq!['\\', '"']
    } else if c == '\\' {
        seq!['\\', '\\']
    } else if c == '\u{8}' {
        seq!['\\', 'b']
    } else if c == '\t' {
        seq!['\\', 't']
    } else if c == '\n' {
        seq!['\\', 'n']
    } else if c == '\u{c}' {
        seq!['\\', 'f']
    } else if c == '\r' {
        seq!['\\', 'r']
    } else if (c as u32) < 0x20 {
        seq!['\\', 'u', '0', '0', hex_digit_char((c as u32) as int / 16), hex_digit_char((c as u32) as int % 16)]
    } else {
        seq![c]
    }
}

/// The characters of `s`, each escaped by [`json_escape_char`].
pub open spec fn json_escaped(s: Seq<char>) -> Seq<char>
    decreases s.len(),
{
    if s.len() == 0 {
        Seq::empty()
    } else {
        json_escape_char(s[0]) + json_escaped(s.drop_first())
    }
}

/// What `serde_json::to_string(s)` gives for a `str`: `s` as a JSON string literal.
#[verifier::opaque]
pub open spec fn json_quoted(s: Seq<char>) -> Seq<char> {
    seq!['"'] + json_escaped(s) + seq!['"']
}

/// `serde_json::to_string(s)` for a `str`: the string between double quotes,
/// escaped as `format_escaped_str_contents` and `write_char_escape` do
/// (serializing a `str` into a buffer does not fail).
#[verifier::external_body]
pub(crate) fn json_quote(s: &str) -> (r: String)
    ensures
        r@ == json_quoted(s@),
{
    match serde_json::to_string(s) {
        Ok(q) => q,
        Err(_) => String::new(),
    }
}

/// The SHA-256 digest of `b`.
pub uninterp spec fn sha256_of(b: Seq<u8>) -> Seq<u8>;

/// `Sha256::new()`, `update(b)`, `finalize()`: the 32-byte digest.
#[verifier::external_body]
fn sha256(b: &[u8]) -> (r: Vec<u8>)
    ensures
        r@ == sha256_of(b@),
        r@.len() == 32,
{
    let mut hasher = sha2::Sha256::new();
    hasher.update(b);
    hasher.finalize().to_vec()
}

/// `hex::encode(b)`: two lower-case hex digits per byte.
#[verifier::external_body]
fn hex_encode(b: &[u8]) -> (r: String)
    ensures
        r@ == hex_of(b@),
{
    hex::encode(b)
}

/// Lower-case hex SHA-256 of `b`.
pub open spec fn sha256_hex(b: Seq<u8>) -> Seq<char> {
    hex_of(sha256_of(b))
}

/// Lower-case hex SHA-256 of an executed script.
pub fn source_sha256_hex(source: &[u8]) -> (r: String)
    ensures
        r@ == sha256_hex(source@),
{
    let d = sha256(source);
    hex_encode(d.as_slice())
}

/// `"key":`.
pub open spec fn jkey(k: Seq<char>) -> Seq<char> {
    json_quoted(k) + ":"@
}

/// Comma-separated decimals.
pub open spec fn u8_list(v: Seq<u8>) -> Seq<char>
    decreases v.len(),
{
    if v.len() == 0 {
        Seq::empty()
    } else if v.len() == 1 {
        decimal(v[0] as nat)
    } else {
        u8_list(v.drop_last()) + ","@ + decimal(v.last() as nat)
    }
}

/// A JSON array of bytes.
pub open spec fn u8_array(v: Seq<u8>) -> Seq<char> {
    "["@ + u8_list(v) + "]"@
}

fn push_key(s: &mut String, k: &str)
    ensures
        final(s)@ == old(s)@ + jkey(k@),
{
    let q = json_quote(k);
    push_str(s, q.as_str());
    push_str(s, ":");
    assert(s@ =~= old(s)@ + jkey(k@));
}

fn push_quoted(s: &mut String, v: &str)
    ensures
        final(s)@ == old(s)@ + json_quoted(v@),
{
    let q = json_quote(v);
    push_str(s, q.as_str());
}

fn push_u8_array(s: &mut String, v: &[u8])
    ensures
        final(s)@ == old(s)@ + u8_array(v@),
{
    let ghost start = s@;
    push_str(s, "[");
    let mut i: usize = 0;
    while i < v.len()
        invariant
            i <= v@.len(),
            s@ == start + "["@ + u8_list(v@.take(i as int)),
        decreases v@.len() - i,
    {
        let ghost before = s@;
        if i > 0 {
            push_str(s, ",");
        }
        push_decimal(s, v[i] as u64);
        proof {
            assert(v@.take(i + 1).drop_last() =~= v@.take(i as int));
            if i == 0 {
                assert(v@.take(0) =~= Seq::<u8>::empty());
                assert(u8_list(v@.take(0)) =~= Seq::<char>::empty());
            }
        }
        i = i + 1;
        assert(s@ =~= start + "["@ + u8_list(v@.take(i as int)));
    }
    assert(v@.take(v@.len() as int) =~= v@);
    push_str(s, "]");
    assert(s@ =~= start + u8_array(v@));
}

/// `{"kind":...}` body of a tag payload.
pub open spec fn payload_json(p: VmTagPayload) -> Seq<char> {
    match p {
        VmTagPayload::NoPayload => "{"@ + jkey("kind"@) + json_quoted("none"@) + "}"@,
        VmTagPayload::FixedReads { extra_xors } => "{"@ + jkey("extra_xors"@) + u8_array(extra_xors@) + ","@ + jkey("kind"@)
            + json_quoted("fixed_reads"@) + "}"@,
        VmTagPayload::Leb { byte_xor } => "{"@ + jkey("byte_xor"@) + decimal(byte_xor as nat) + ","@ + jkey("kind"@) + json_quoted("leb"@)
            + "}"@,
        VmTagPayload::String { length_byte_xor, char_xor } => "{"@ + jkey("char_xor"@) + decimal(char_xor as nat) + ","@ + jkey("kind"@)
            + json_quoted("string"@) + ","@ + jkey("length_byte_xor"@) + decimal(length_byte_xor as nat) + "}"@,
        VmTagPayload::Bytes { length_byte_xor, char_xor } => "{"@ + jkey("char_xor"@) + decimal(char_xor as nat) + ","@ + jkey("kind"@)
            + json_quoted("bytes"@) + ","@ + jkey("length_byte_xor"@) + decimal(length_byte_xor as nat) + "}"@,
        VmTagPayload::Regexp { pattern_length_byte_xor, pattern_char_xor, flags_length_xor, flags_char_xor } => "{"@
            + jkey("flags_char_xor"@) + decimal(flags_char_xor as nat) + ","@ + jkey("flags_length_xor"@) + decimal(flags_length_xor as nat)
            + ","@ + jkey("kind"@) + json_quoted("regexp"@) + ","@ + jkey("pattern_char_xor"@) + decimal(pattern_char_xor as nat) + ","@
            + jkey("pattern_length_byte_xor"@) + decimal(pattern_length_byte_xor as nat) + "}"@,
    }
}

fn push_u8_field(s: &mut String, key: &str, v: u8)
    ensures
        final(s)@ == old(s)@ + jkey(key@) + decimal(v as nat),
{
    push_key(s, key);
    push_decimal(s, v as u64);
}

fn push_kind(s: &mut String, kind: &str)
    ensures
        final(s)@ == old(s)@ + jkey("kind"@) + json_quoted(kind@),
{
    push_key(s, "kind");
    push_quoted(s, kind);
}

fn write_payload_simple(s: &mut String, p: &VmTagPayload)
    requires
        p is NoPayload || p is FixedReads || p is Leb,
    ensures
        final(s)@ == old(s)@ + payload_json(*p),
{
    let ghost start = s@;
    push_str(s, "{");
    match p {
        VmTagPayload::NoPayload => {
            push_kind(s, "none");
        },
        VmTagPayload::FixedReads { extra_xors } => {
            push_key(s, "extra_xors");
            push_u8_array(s, extra_xors.as_slice());
            push_str(s, ",");
            push_kind(s, "fixed_reads");
        },
        VmTagPayload::Leb { byte_xor } => {
            push_u8_field(s, "byte_xor", *byte_xor);
            push_str(s, ",");
            push_kind(s, "leb");
        },
        _ => {},
    }
    push_str(s, "}");
    assert(s@ =~= start + payload_json(*p));
}

fn write_payload_text(s: &mut String, p: &VmTagPayload)
    requires
        p is String || p is Bytes,
    ensures
        final(s)@ == old(s)@ + payload_json(*p),
{
    let ghost start = s@;
    push_str(s, "{");
    match p {
        VmTagPayload::String { length_byte_xor, char_xor } => {
            push_u8_field(s, "char_xor", *char_xor);
            push_str(s, ",");
            push_kind(s, "string");
            push_str(s, ",");
            push_u8_field(s, "length_byte_xor", *length_byte_xor);
        },
        VmTagPayload::Bytes { length_byte_xor, char_xor } => {
            push_u8_field(s, "char_xor", *char_xor);
            push_str(s, ",");
            push_kind(s, "bytes");
            push_str(s, ",");
            push_u8_field(s, "length_byte_xor", *length_byte_xor);
        },
        _ => {},
    }
    push_str(s, "}");
    assert(s@ =~= start + payload_json(*p));
}

fn write_payload_regexp(s: &mut String, p: &VmTagPayload)
    requires
        p is Regexp,
    ensures
        final(s)@ == old(s)@ + payload_json(*p),
{
    let ghost start = s@;
    match p {
        VmTagPayload::Regexp { pattern_length_byte_xor, pattern_char_xor, flags_length_xor, flags_char_xor } => {
            push_str(s, "{");
            push_u8_field(s, "flags_char_xor", *flags_char_xor);
            push_str(s, ",");
            push_u8_field(s, "flags_length_xor", *flags_length_xor);
            push_str(s, ",");
            push_kind(s, "regexp");
            push_str(s, ",");
            push_u8_field(s, "pattern_char_xor", *pattern_char_xor);
            push_str(s, ",");
            push_u8_field(s, "pattern_length_byte_xor", *pattern_length_byte_xor);
            push_str(s, "}");
            assert(s@ =~= start + payload_json(*p));
        },
        _ => {},
    }
}

fn write_payload(s: &mut String, p: &VmTagPayload)
    ensures
        final(s)@ == old(s)@ + payload_json(*p),
{
    match p {
        VmTagPayload::NoPayload | VmTagPayload::FixedReads { .. } | VmTagPayload::Leb { .. } => write_payload_simple(s, p),
        VmTagPayload::String { .. } | VmTagPayload::Bytes { .. } => write_payload_text(s, p),
        VmTagPayload::Regexp { .. } => write_payload_regexp(s, p),
    }
}

/// `{"payload":...,"tag":n}`.
pub open spec fn tag_json(t: VmTagProfile) -> Seq<char> {
    "{"@ + jkey("payload"@) + payload_json(t.payload) + ","@ + jkey("tag"@) + decimal(t.tag as nat) + "}"@
}

/// Comma-separated tag objects.
pub open spec fn tags_list(ts: Seq<VmTagProfile>) -> Seq<char>
    decreases ts.len(),
{
    if ts.len() == 0 {
        Seq::empty()
    } else if ts.len() == 1 {
        tag_json(ts[0])
    } else {
        tags_list(ts.drop_last()) + ","@ + tag_json(ts.last())
    }
}

/// `"tag_then_dst"` or `"dst_then_tag"`.
pub open spec fn order_json(o: VmTaggedOperandOrder) -> Seq<char> {
    match o {
        VmTaggedOperandOrder::TagThenDst => json_quoted("tag_then_dst"@),
        VmTaggedOperandOrder::DstThenTag => json_quoted("dst_then_tag"@),
    }
}

/// Canonical JSON of a skip spec (keys sorted, `kind` tag).
pub open spec fn spec_json(spec: VmSkipSpec) -> Seq<char> {
    match spec {
        VmSkipSpec::FixedReads { extra_xors } => "{"@ + jkey("extra_xors"@) + u8_array(extra_xors@) + ","@ + jkey("kind"@)
            + json_quoted("fixed_reads"@) + "}"@,
        VmSkipSpec::Leb { byte_xor } => "{"@ + jkey("byte_xor"@) + decimal(byte_xor as nat) + ","@ + jkey("kind"@) + json_quoted("leb"@)
            + "}"@,
        VmSkipSpec::LebTable { count_byte_xor, index_byte_xor, max_count } => "{"@ + jkey("count_byte_xor"@)
            + decimal(count_byte_xor as nat) + ","@ + jkey("index_byte_xor"@) + decimal(index_byte_xor as nat) + ","@ + jkey("kind"@)
            + json_quoted("leb_table"@) + ","@ + jkey("max_count"@) + decimal(max_count as nat) + "}"@,
        VmSkipSpec::TaggedLoad { operand_order, tag_xor, dst_xor, tags } => "{"@ + jkey("dst_xor"@) + decimal(dst_xor as nat) + ","@
            + jkey("kind"@) + json_quoted("tagged_load"@) + ","@ + jkey("operand_order"@) + order_json(operand_order) + ","@
            + jkey("tag_xor"@) + decimal(tag_xor as nat) + ","@ + jkey("tags"@) + "["@ + tags_list(tags@) + "]"@ + "}"@,
        VmSkipSpec::StringLoad { prefix_xors, length_byte_xor, char_xor } => "{"@ + jkey("char_xor"@) + decimal(char_xor as nat)
            + ","@ + jkey("kind"@) + json_quoted("string_load"@) + ","@ + jkey("length_byte_xor"@) + decimal(length_byte_xor as nat)
            + ","@ + jkey("prefix_xors"@) + u8_array(prefix_xors@) + "}"@,
        VmSkipSpec::JumpStop { reason } => "{"@ + jkey("kind"@) + json_quoted("jump_stop"@) + ","@ + jkey("reason"@)
            + json_quoted(reason@) + "}"@,
        VmSkipSpec::Unknown { reason } => "{"@ + jkey("kind"@) + json_quoted("unknown"@) + ","@ + jkey("reason"@)
            + json_quoted(reason@) + "}"@,
    }
}

fn write_tag(s: &mut String, t: &VmTagProfile)
    ensures
        final(s)@ == old(s)@ + tag_json(*t),
{
    let ghost start = s@;
    push_str(s, "{");
    push_key(s, "payload");
    write_payload(s, &t.payload);
    push_str(s, ",");
    push_u8_field(s, "tag", t.tag);
    push_str(s, "}");
    assert(s@ =~= start + tag_json(*t));
}

fn write_tags(s: &mut String, ts: &Vec<VmTagProfile>)
    ensures
        final(s)@ == old(s)@ + tags_list(ts@),
{
    let ghost start = s@;
    let mut i: usize = 0;
    assert(ts@.take(0) =~= Seq::<VmTagProfile>::empty());
    while i < ts.len()
        invariant
            i <= ts@.len(),
            s@ == start + tags_list(ts@.take(i as int)),
        decreases ts@.len() - i,
    {
        if i > 0 {
            push_str(s, ",");
        }
        write_tag(s, &ts[i]);
        proof {
            assert(ts@.take(i + 1).drop_last() =~= ts@.take(i as int));
            assert(ts@.take(i + 1).last() == ts@[i as int]);
            if i == 0 {
                assert(tags_list(ts@.take(0)) =~= Seq::<char>::empty());
                assert(ts@.take(1)[0] == ts@[0]);
            }
        }
        i = i + 1;
        assert(s@ =~= start + tags_list(ts@.take(i as int)));
    }
    assert(ts@.take(ts@.len() as int) =~= ts@);
}

fn write_spec_reads(s: &mut String, spec: &VmSkipSpec)
    requires
        spec is FixedReads || spec is Leb || spec is LebTable,
    ensures
        final(s)@ == old(s)@ + spec_json(*spec),
{
    let ghost start = s@;
    push_str(s, "{");
    match spec {
        VmSkipSpec::FixedReads { extra_xors } => {
            push_key(s, "extra_xors");
            push_u8_array(s, extra_xors.as_slice());
            push_str(s, ",");
            push_kind(s, "fixed_reads");
        },
        VmSkipSpec::Leb { byte_xor } => {
            push_u8_field(s, "byte_xor", *byte_xor);
            push_str(s, ",");
            push_kind(s, "leb");
        },
        VmSkipSpec::LebTable { count_byte_xor, index_byte_xor, max_count } => {
            push_u8_field(s, "count_byte_xor", *count_byte_xor);
            push_str(s, ",");
            push_u8_field(s, "index_byte_xor", *index_byte_xor);
            push_str(s, ",");
            push_kind(s, "leb_table");
            push_str(s, ",");
            push_key(s, "max_count");
            push_decimal(s, *max_count as u64);
        },
        _ => {},
    }
    push_str(s, "}");
    assert(s@ =~= start + spec_json(*spec));
}

#[verifier::spinoff_prover]
#[verifier::rlimit(60)]
fn write_spec_tagged(s: &mut String, spec: &VmSkipSpec)
    requires
        spec is TaggedLoad,
    ensures
        final(s)@ == old(s)@ + spec_json(*spec),
{
    let ghost start = s@;
    match spec {
        VmSkipSpec::TaggedLoad { operand_order, tag_xor, dst_xor, tags } => {
            push_str(s, "{");
            push_u8_field(s, "dst_xor", *dst_xor);
            push_str(s, ",");
            push_kind(s, "tagged_load");
            push_str(s, ",");
            push_key(s, "operand_order");
            match operand_order {
                VmTaggedOperandOrder::TagThenDst => push_quoted(s, "tag_then_dst"),
                VmTaggedOperandOrder::DstThenTag => push_quoted(s, "dst_then_tag"),
            }
            push_str(s, ",");
            push_u8_field(s, "tag_xor", *tag_xor);
            push_str(s, ",");
            push_key(s, "tags");
            push_str(s, "[");
            write_tags(s, tags);
            push_str(s, "]");
            push_str(s, "}");
            assert(s@ =~= start + spec_json(*spec));
        },
        _ => {},
    }
}

fn write_spec_text(s: &mut String, spec: &VmSkipSpec)
    requires
        spec is StringLoad || spec is JumpStop || spec is Unknown,
    ensures
        final(s)@ == old(s)@ + spec_json(*spec),
{
    let ghost start = s@;
    push_str(s, "{");
    match spec {
        VmSkipSpec::StringLoad { prefix_xors, length_byte_xor, char_xor } => {
            push_u8_field(s, "char_xor", *char_xor);
            push_str(s, ",");
            push_kind(s, "string_load");
            push_str(s, ",");
            push_u8_field(s, "length_byte_xor", *length_byte_xor);
            push_str(s, ",");
            push_key(s, "prefix_xors");
            push_u8_array(s, prefix_xors.as_slice());
        },
        VmSkipSpec::JumpStop { reason } => {
            push_kind(s, "jump_stop");
            push_str(s, ",");
            push_key(s, "reason");
            push_quoted(s, reason.as_str());
        },
        VmSkipSpec::Unknown { reason } => {
            push_kind(s, "unknown");
            push_str(s, ",");
            push_key(s, "reason");
            push_quoted(s, reason.as_str());
        },
        _ => {},
    }
    push_str(s, "}");
    assert(s@ =~= start + spec_json(*spec));
}

fn write_spec(s: &mut String, spec: &VmSkipSpec)
    ensures
        final(s)@ == old(s)@ + spec_json(*spec),
{
    match spec {
        VmSkipSpec::FixedReads { .. } | VmSkipSpec::Leb { .. } | VmSkipSpec::LebTable { .. } => write_spec_reads(s, spec),
        VmSkipSpec::TaggedLoad { .. } => write_spec_tagged(s, spec),
        _ => write_spec_text(s, spec),
    }
}

/// `{"handlerFingerprint":...,"opcode":n,"spec":...}` (the label is left out).
pub open spec fn handler_json(h: VmHandlerProfile) -> Seq<char> {
    "{"@ + jkey("handlerFingerprint"@) + json_quoted(h.handler_fingerprint@) + ","@ + jkey("opcode"@)
        + decimal(h.opcode as nat) + ","@ + jkey("spec"@) + spec_json(h.spec) + "}"@
}

/// Comma-separated handler objects.
pub open spec fn handlers_list(hs: Seq<VmHandlerProfile>) -> Seq<char>
    decreases hs.len(),
{
    if hs.len() == 0 {
        Seq::empty()
    } else if hs.len() == 1 {
        handler_json(hs[0])
    } else {
        handlers_list(hs.drop_last()) + ","@ + handler_json(hs.last())
    }
}

/// Canonical JSON of the fetch parameters.
pub open spec fn fetch_json(f: VmProfileFetch) -> Seq<char> {
    "{"@ + jkey("byteBias"@) + decimal(f.byte_bias as nat) + ","@ + jkey("initKey"@) + decimal(f.init_key as nat) + ","@
        + jkey("initPc"@) + decimal(f.init_pc as nat) + ","@ + jkey("keyAdd"@) + decimal(f.key_add as nat) + ","@
        + jkey("keyMul"@) + decimal(f.key_mul as nat) + ","@ + jkey("keyQuadB"@) + decimal(f.key_quad_b as nat) + "}"@
}

/// Canonical JSON (sorted keys, no white space) of a profile's semantic part:
/// schema version, fetch, switch opcodes and handlers without their labels.
pub open spec fn semantic_json(p: VmSkipProfile) -> Seq<char> {
    "{"@ + jkey("fetch"@) + fetch_json(p.fetch) + ","@ + jkey("handlers"@) + "["@ + handlers_list(p.handlers@) + "]"@ + ","@
        + jkey("schemaVersion"@) + decimal(p.schema_version as nat) + ","@ + jkey("switchOpcodes"@) + u8_array(p.switch_opcodes@)
        + "}"@
}

/// The semantic fingerprint: hex SHA-256 of the canonical JSON's UTF-8 bytes.
pub open spec fn semantic_fingerprint(p: VmSkipProfile) -> Seq<char> {
    sha256_hex(encode_utf8(semantic_json(p)))
}

fn write_handler(s: &mut String, h: &VmHandlerProfile)
    ensures
        final(s)@ == old(s)@ + handler_json(*h),
{
    let ghost start = s@;
    push_str(s, "{");
    push_key(s, "handlerFingerprint");
    push_quoted(s, h.handler_fingerprint.as_str());
    push_str(s, ",");
    push_u8_field(s, "opcode", h.opcode);
    push_str(s, ",");
    push_key(s, "spec");
    write_spec(s, &h.spec);
    push_str(s, "}");
    assert(s@ =~= start + handler_json(*h));
}

fn write_handlers(s: &mut String, hs: &Vec<VmHandlerProfile>)
    ensures
        final(s)@ == old(s)@ + handlers_list(hs@),
{
    let ghost start = s@;
    let mut i: usize = 0;
    assert(hs@.take(0) =~= Seq::<VmHandlerProfile>::empty());
    while i < hs.len()
        invariant
            i <= hs@.len(),
            s@ == start + handlers_list(hs@.take(i as int)),
        decreases hs@.len() - i,
    {
        if i > 0 {
            push_str(s, ",");
        }
        write_handler(s, &hs[i]);
        proof {
            assert(hs@.take(i + 1).drop_last() =~= hs@.take(i as int));
            assert(hs@.take(i + 1).last() == hs@[i as int]);
            if i == 0 {
                assert(handlers_list(hs@.take(0)) =~= Seq::<char>::empty());
                assert(hs@.take(1)[0] == hs@[0]);
            }
        }
        i = i + 1;
        assert(s@ =~= start + handlers_list(hs@.take(i as int)));
    }
    assert(hs@.take(hs@.len() as int) =~= hs@);
}

fn push_num_field(s: &mut String, key: &str, v: u32)
    ensures
        final(s)@ == old(s)@ + jkey(key@) + decimal(v as nat),
{
    push_key(s, key);
    push_decimal(s, v as u64);
}

fn write_fetch(s: &mut String, f: VmProfileFetch)
    ensures
        final(s)@ == old(s)@ + fetch_json(f),
{
    let ghost start = s@;
    push_str(s, "{");
    push_u8_field(s, "byteBias", f.byte_bias);
    push_str(s, ",");
    push_u8_field(s, "initKey", f.init_key);
    push_str(s, ",");
    push_num_field(s, "initPc", f.init_pc);
    push_str(s, ",");
    push_num_field(s, "keyAdd", f.key_add);
    push_str(s, ",");
    push_num_field(s, "keyMul", f.key_mul);
    push_str(s, ",");
    push_num_field(s, "keyQuadB", f.key_quad_b);
    push_str(s, "}");
    assert(s@ =~= start + fetch_json(f));
}

impl VmSkipProfile {
    /// Canonical JSON of the profile's semantic part.
    pub fn canonical_semantic_json(&self) -> (s: String)
        ensures
            s@ == semantic_json(*self),
    {
        let mut s = String::new();
        push_str(&mut s, "{");
        push_key(&mut s, "fetch");
        write_fetch(&mut s, self.fetch);
        push_str(&mut s, ",");
        push_key(&mut s, "handlers");
        push_str(&mut s, "[");
        write_handlers(&mut s, &self.handlers);
        push_str(&mut s, "]");
        push_str(&mut s, ",");
        push_key(&mut s, "schemaVersion");
        push_decimal(&mut s, self.schema_version as u64);
        push_str(&mut s, ",");
        push_key(&mut s, "switchOpcodes");
        push_u8_array(&mut s, self.switch_opcodes.as_slice());
        push_str(&mut s, "}");
        assert(s@ =~= semantic_json(*self));
        s
    }

    /// Hex SHA-256 of [`semantic_json`].
    pub fn computed_semantic_fingerprint(&self) -> (r: Result<String, VmProfileValidationError>)
        ensures
            r matches Ok(f) && f@ == semantic_fingerprint(*self),
    {
        let json = self.canonical_semantic_json();
        Ok(source_sha256_hex(json.as_str().as_bytes()))
    }
}

/// Check of the handlers from index `k`: strictly opcode-sorted, each in the
/// switch, with a 1..=256-byte label, a SHA-256 fingerprint and a valid spec.
pub open spec fn handlers_check(p: VmSkipProfile, k: int) -> Option<Seq<char>>
    decreases p.handlers@.len() - k,
{
    if k < 0 || k >= p.handlers@.len() {
        None
    } else {
        let h = p.handlers@[k];
        if k > 0 && h.opcode <= p.handlers@[k - 1].opcode {
            Some("handlers must be strictly opcode-sorted and unique"@)
        } else if !p.switch_opcodes@.contains(h.opcode) {
            Some("handler opcode "@ + decimal(h.opcode as nat) + " is absent from switch"@)
        } else if h.handler_label@.len() == 0 || encode_utf8(h.handler_label@).len() > 256 {
            Some(opcode_prefix(h.opcode) + " has invalid diagnostic handler label"@)
        } else if !sha256_hex_shape(encode_utf8(h.handler_fingerprint@)) {
            Some(sha_message("handler fingerprint"@))
        } else {
            match spec_check(h.opcode, h.spec) {
                Some(m) => Some(m),
                None => handlers_check(p, k + 1),
            }
        }
    }
}

/// The first failed check of a profile against the fetch parameters and the
/// observed script hash, or `None` when it is valid.
pub open spec fn profile_check(p: VmSkipProfile, params: FetchParams, observed: Seq<char>) -> Option<Seq<char>> {
    if p.schema_version != VM_SKIP_PROFILE_SCHEMA_VERSION {
        Some("schema version "@ + decimal(p.schema_version as nat) + " != "@ + decimal(VM_SKIP_PROFILE_SCHEMA_VERSION as nat))
    } else if !sha256_hex_shape(encode_utf8(p.source_sha256@)) {
        Some(sha_message("sourceSha256"@))
    } else if !sha256_hex_shape(encode_utf8(observed)) {
        Some(sha_message("observed source SHA-256"@))
    } else if p.source_sha256@ != observed {
        Some("captured source SHA-256 does not match profile"@)
    } else if !fetch_is(p.fetch, params) {
        Some("fetch parameters do not match profile"@)
    } else if !strictly_increasing(p.switch_opcodes@) {
        Some("switch opcodes must be strictly sorted and unique"@)
    } else if p.switch_opcodes@.len() == 0 {
        Some("switch opcode set is empty"@)
    } else if p.handlers@.len() != p.switch_opcodes@.len() {
        Some("handler count "@ + decimal(p.handlers@.len()) + " != switch opcode count "@ + decimal(p.switch_opcodes@.len()))
    } else {
        match handlers_check(p, 0) {
            Some(m) => Some(m),
            None => if !sha256_hex_shape(encode_utf8(p.semantic_fingerprint@)) {
                Some(sha_message("semanticFingerprint"@))
            } else if semantic_fingerprint(p) != p.semantic_fingerprint@ {
                Some("semantic fingerprint mismatch: profile "@ + p.semantic_fingerprint@ + ", computed "@ + semantic_fingerprint(p))
            } else {
                None
            },
        }
    }
}

fn message(text: &str) -> (e: VmProfileValidationError)
    ensures
        e.reason@ == text@,
{
    VmProfileValidationError { reason: crate::text::to_string(text) }
}

fn opcode_in(v: &[u8], op: u8) -> (r: bool)
    ensures
        r == v@.contains(op),
{
    let mut i: usize = 0;
    while i < v.len()
        invariant
            i <= v@.len(),
            forall|j: int| 0 <= j < i ==> v@[j] != op,
        decreases v@.len() - i,
    {
        if v[i] == op {
            return true;
        }
        i = i + 1;
    }
    false
}

impl VmSkipProfile {
    fn validate_handlers(&self) -> (r: Result<(), VmProfileValidationError>)
        ensures
            match handlers_check(*self, 0) {
                Some(m) => r matches Err(e) && e.reason@ == m,
                None => r is Ok,
            },
    {
        let hs = &self.handlers;
        let mut k: usize = 0;
        while k < hs.len()
            invariant
                hs@ == self.handlers@,
                k <= hs@.len(),
                handlers_check(*self, 0) == handlers_check(*self, k as int),
            decreases hs@.len() - k,
        {
            let h = &hs[k];
            if k > 0 && h.opcode <= hs[k - 1].opcode {
                return Err(message("handlers must be strictly opcode-sorted and unique"));
            }
            if !opcode_in(self.switch_opcodes.as_slice(), h.opcode) {
                let mut s = String::new();
                push_str(&mut s, "handler opcode ");
                push_decimal(&mut s, h.opcode as u64);
                push_str(&mut s, " is absent from switch");
                return Err(VmProfileValidationError { reason: s });
            }
            if h.handler_label.as_str().is_empty() || h.handler_label.as_str().as_bytes().len() > 256 {
                return Err(opcode_message(h.opcode, " has invalid diagnostic handler label"));
            }
            if !is_sha256_hex(h.handler_fingerprint.as_str()) {
                return Err(sha_error("handler fingerprint"));
            }
            let r = validate_spec(h.opcode, &h.spec);
            if r.is_err() {
                return r;
            }
            k = k + 1;
        }
        Ok(())
    }

    /// Validate a profile against the exact current script hash and fetch state.
    pub fn validate_for(&self, params: FetchParams, observed_source_sha256: &str) -> (r: Result<(), VmProfileValidationError>)
        ensures
            match profile_check(*self, params, observed_source_sha256@) {
                Some(m) => r matches Err(e) && e.reason@ == m,
                None => r is Ok,
            },
    {
        if self.schema_version != VM_SKIP_PROFILE_SCHEMA_VERSION {
            let mut s = String::new();
            push_str(&mut s, "schema version ");
            push_decimal(&mut s, self.schema_version as u64);
            push_str(&mut s, " != ");
            push_decimal(&mut s, VM_SKIP_PROFILE_SCHEMA_VERSION as u64);
            return Err(VmProfileValidationError { reason: s });
        }
        if !is_sha256_hex(self.source_sha256.as_str()) {
            return Err(sha_error("sourceSha256"));
        }
        if !is_sha256_hex(observed_source_sha256) {
            return Err(sha_error("observed source SHA-256"));
        }
        if !str_eq(self.source_sha256.as_str(), observed_source_sha256) {
            return Err(message("captured source SHA-256 does not match profile"));
        }
        if !self.fetch.matches(params) {
            return Err(message("fetch parameters do not match profile"));
        }
        if !strictly_sorted_unique(self.switch_opcodes.as_slice()) {
            return Err(message("switch opcodes must be strictly sorted and unique"));
        }
        if self.switch_opcodes.len() == 0 {
            return Err(message("switch opcode set is empty"));
        }
        if self.handlers.len() != self.switch_opcodes.len() {
            let mut s = String::new();
            push_str(&mut s, "handler count ");
            push_decimal(&mut s, self.handlers.len() as u64);
            push_str(&mut s, " != switch opcode count ");
            push_decimal(&mut s, self.switch_opcodes.len() as u64);
            return Err(VmProfileValidationError { reason: s });
        }
        let hr = self.validate_handlers();
        if hr.is_err() {
            return hr;
        }
        if !is_sha256_hex(self.semantic_fingerprint.as_str()) {
            return Err(sha_error("semanticFingerprint"));
        }
        let computed = match self.computed_semantic_fingerprint() {
            Ok(c) => c,
            Err(e) => return Err(e),
        };
        if !str_eq(computed.as_str(), self.semantic_fingerprint.as_str()) {
            let mut s = String::new();
            push_str(&mut s, "semantic fingerprint mismatch: profile ");
            push_str(&mut s, self.semantic_fingerprint.as_str());
            push_str(&mut s, ", computed ");
            push_str(&mut s, computed.as_str());
            return Err(VmProfileValidationError { reason: s });
        }
        Ok(())
    }
}

/// `q` is `p` with at most its source hash, fingerprint, switch opcodes and handlers changed
/// as the flags allow.
pub open spec fn same_profile_but(p: VmSkipProfile, q: VmSkipProfile, source: bool, switch: bool, handlers: bool, fingerprint: bool) -> bool {
    &&& q.schema_version == p.schema_version
    &&& q.fetch == p.fetch
    &&& (!source ==> q.source_sha256@ == p.source_sha256@)
    &&& (!switch ==> q.switch_opcodes@ == p.switch_opcodes@)
    &&& (!handlers ==> q.handlers@ == p.handlers@)
    &&& (!fingerprint ==> q.semantic_fingerprint@ == p.semantic_fingerprint@)
}

/// A valid profile whose source hash is replaced by another well-formed hash is refused
/// for the captured source.
pub proof fn lemma_changed_source_is_reported(p: VmSkipProfile, q: VmSkipProfile, params: FetchParams, observed: Seq<char>)
    requires
        profile_check(p, params, observed) is None,
        same_profile_but(p, q, true, false, false, false),
        sha256_hex_shape(encode_utf8(q.source_sha256@)),
        q.source_sha256@ != p.source_sha256@,
    ensures
        profile_check(q, params, observed) == Some("captured source SHA-256 does not match profile"@),
{
}

/// A valid profile checked against other fetch parameters is refused for them.
pub proof fn lemma_changed_fetch_is_reported(p: VmSkipProfile, params: FetchParams, other: FetchParams, observed: Seq<char>)
    requires
        profile_check(p, params, observed) is None,
        !fetch_is(p.fetch, other),
    ensures
        profile_check(p, other, observed) == Some("fetch parameters do not match profile"@),
{
}

/// A valid profile whose switch opcodes are replaced by an unsorted list is refused for it.
pub proof fn lemma_unsorted_switch_is_reported(p: VmSkipProfile, q: VmSkipProfile, params: FetchParams, observed: Seq<char>)
    requires
        profile_check(p, params, observed) is None,
        same_profile_but(p, q, false, true, false, true),
        !strictly_increasing(q.switch_opcodes@),
    ensures
        profile_check(q, params, observed) == Some("switch opcodes must be strictly sorted and unique"@),
{
}

/// A valid profile whose switch gains or loses opcodes (still sorted, not empty) while its
/// handlers stay is refused for the handler count, whatever its fingerprint.
pub proof fn lemma_switch_count_change_is_reported(p: VmSkipProfile, q: VmSkipProfile, params: FetchParams, observed: Seq<char>)
    requires
        profile_check(p, params, observed) is None,
        same_profile_but(p, q, false, true, false, true),
        strictly_increasing(q.switch_opcodes@),
        q.switch_opcodes@.len() > 0,
        q.switch_opcodes@.len() != p.switch_opcodes@.len(),
    ensures
        profile_check(q, params, observed) == Some(
            "handler count "@ + decimal(q.handlers@.len()) + " != switch opcode count "@ + decimal(q.switch_opcodes@.len()),
        ),
{
}

/// Handler lists that differ only in valid specs pass the same handler checks.
proof fn lemma_handlers_check_spec_change(p: VmSkipProfile, q: VmSkipProfile, k: int)
    requires
        0 <= k,
        handlers_check(p, k) is None,
        q.switch_opcodes@ == p.switch_opcodes@,
        q.handlers@.len() == p.handlers@.len(),
        forall|i: int|
            0 <= i < q.handlers@.len() ==> {
                &&& (#[trigger] q.handlers@[i]).opcode == p.handlers@[i].opcode
                &&& q.handlers@[i].handler_label@ == p.handlers@[i].handler_label@
                &&& q.handlers@[i].handler_fingerprint@ == p.handlers@[i].handler_fingerprint@
                &&& spec_check(q.handlers@[i].opcode, q.handlers@[i].spec) is None
            },
    ensures
        handlers_check(q, k) is None,
    decreases q.handlers@.len() - k,
{
    if k < q.handlers@.len() {
        if k > 0 {
            assert(q.handlers@[k - 1].opcode == p.handlers@[k - 1].opcode);
        }
        assert(q.handlers@[k].opcode == p.handlers@[k].opcode);
        lemma_handlers_check_spec_change(p, q, k + 1);
    }
}

/// A valid profile whose handler specs change (each new spec valid on its own) with its
/// fingerprint kept is caught only by the fingerprint: it passes exactly when the
/// recomputed fingerprint still equals the recorded one.
pub proof fn lemma_spec_change_is_caught_by_fingerprint(p: VmSkipProfile, q: VmSkipProfile, params: FetchParams, observed: Seq<char>)
    requires
        profile_check(p, params, observed) is None,
        same_profile_but(p, q, false, false, true, false),
        q.handlers@.len() == p.handlers@.len(),
        forall|i: int|
            0 <= i < q.handlers@.len() ==> {
                &&& (#[trigger] q.handlers@[i]).opcode == p.handlers@[i].opcode
                &&& q.handlers@[i].handler_label@ == p.handlers@[i].handler_label@
                &&& q.handlers@[i].handler_fingerprint@ == p.handlers@[i].handler_fingerprint@
                &&& spec_check(q.handlers@[i].opcode, q.handlers@[i].spec) is None
            },
    ensures
        profile_check(q, params, observed) == (if semantic_fingerprint(q) == q.semantic_fingerprint@ {
            None
        } else {
            Some(
                "semantic fingerprint mismatch: profile "@ + q.semantic_fingerprint@ + ", computed "@ + semantic_fingerprint(q),
            )
        }),
{
    lemma_handlers_check_spec_change(p, q, 0);
}

} // verus!
