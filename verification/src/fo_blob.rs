//! The `/fo/` response blob: a packed `runProgram` string once decrypted with
//! the ray, or a JSON error; the shape check and the report line.
use vstd::prelude::*;
use vstd::string::StringSliceAdditionalSpecFns;
use crate::fmt::{decimal, push_decimal, push_str};
use crate::protocol::{javascript_shape, looks_like_javascript};
use vstd::utf8::*;
use crate::run_program::{is_standard_b64, std_b64_shape};
use crate::text::{contains_bytes, contains_seq, matches_at, starts_with_seq, to_string, trim, trim_end_chars, trim_start_chars};
use vstd::string::StrSliceExecFns;

verus! {

broadcast use vstd::slice::group_slice_axioms;

/// Prefix shared by the iframe's inline `runProgram(...)` argument and a
/// ray-decrypted `/fo/` blob.
pub const PACKED_RUN_PROGRAM_PREFIX: &'static str = "ryrCJzUnLCItNTiVeJ";

#[derive(Debug, Clone, PartialEq, Eq)]
pub struct FoBlobAnalysis {
    pub input_bytes: usize,
    pub looks_like_json_error: bool,
    pub looks_like_b64: bool,
    pub decrypt_ok: bool,
    pub decrypt_bytes: usize,
    pub decrypt_prefix: String,
    pub looks_like_javascript: bool,
    pub looks_like_packed_run_program: bool,
    pub json_error_d_len: Option<usize>,
}

/// What `format!("{:?}", s)` gives for a `str`: `s` quoted, with Rust debug escapes.
pub uninterp spec fn debug_str(s: Seq<char>) -> Seq<char>;

/// `format!("{:?}", s)` on a `str`.
#[verifier::external_body]
pub(crate) fn debug_quote(s: &str) -> (r: String)
    ensures
        r@ == debug_str(s@),
{
    format!("{:?}", s)
}

/// `{:?}` of an `Option<usize>`.
pub open spec fn debug_option_usize(v: Option<usize>) -> Seq<char> {
    match v {
        Some(n) => "Some("@ + decimal(n as nat) + ")"@,
        None => "None"@,
    }
}

/// `{}` of a `bool`.
pub open spec fn display_bool(b: bool) -> Seq<char> {
    if b { "true"@ } else { "false"@ }
}

fn push_bool(s: &mut String, b: bool)
    ensures
        final(s)@ == old(s)@ + display_bool(b),
{
    if b {
        push_str(s, "true");
    } else {
        push_str(s, "false");
    }
}

impl FoBlobAnalysis {
    /// One-line report of the blob analysis.
    pub fn summary(&self) -> (s: String)
        ensures
            s@ == (if self.looks_like_packed_run_program {
                "/fo/ body decrypts with c_ray to a packed runProgram blob ("@ + decimal(self.decrypt_bytes as nat)
                    + " bytes, prefix "@ + debug_str(self.decrypt_prefix@)
                    + "); not the orchestrate VM this crate disassembles"@
            } else if self.looks_like_json_error {
                "/fo/ returned JSON error (d_len="@ + debug_option_usize(self.json_error_d_len)
                    + "); iframe POSTs a compressed init payload with cf-chl, GET without that body 400s"@
            } else if self.decrypt_ok {
                "/fo/ decrypted "@ + decimal(self.decrypt_bytes as nat) + " bytes (prefix "@ + debug_str(self.decrypt_prefix@)
                    + ") but is not packed runProgram / JS"@
            } else {
                "/fo/ body "@ + decimal(self.input_bytes as nat) + " bytes, b64="@ + display_bool(self.looks_like_b64)
                    + ", json_error="@ + display_bool(self.looks_like_json_error)
            }),
    {
        let mut s = String::new();
        if self.looks_like_packed_run_program {
            push_str(&mut s, "/fo/ body decrypts with c_ray to a packed runProgram blob (");
            push_decimal(&mut s, self.decrypt_bytes as u64);
            push_str(&mut s, " bytes, prefix ");
            let q = debug_quote(self.decrypt_prefix.as_str());
            push_str(&mut s, q.as_str());
            push_str(&mut s, "); not the orchestrate VM this crate disassembles");
        } else if self.looks_like_json_error {
            push_str(&mut s, "/fo/ returned JSON error (d_len=");
            match self.json_error_d_len {
                Some(n) => {
                    push_str(&mut s, "Some(");
                    push_decimal(&mut s, n as u64);
                    push_str(&mut s, ")");
                },
                None => push_str(&mut s, "None"),
            }
            push_str(&mut s, "); iframe POSTs a compressed init payload with cf-chl, GET without that body 400s");
        } else if self.decrypt_ok {
            push_str(&mut s, "/fo/ decrypted ");
            push_decimal(&mut s, self.decrypt_bytes as u64);
            push_str(&mut s, " bytes (prefix ");
            let q = debug_quote(self.decrypt_prefix.as_str());
            push_str(&mut s, q.as_str());
            push_str(&mut s, ") but is not packed runProgram / JS");
        } else {
            push_str(&mut s, "/fo/ body ");
            push_decimal(&mut s, self.input_bytes as u64);
            push_str(&mut s, " bytes, b64=");
            push_bool(&mut s, self.looks_like_b64);
            push_str(&mut s, ", json_error=");
            push_bool(&mut s, self.looks_like_json_error);
        }
        s
    }
}

/// Printable `'+'..='z'` with no space or newline.
pub open spec fn packed_tail_byte(c: u8) -> bool {
    43 <= c <= 122
}

/// A decrypted blob that reads as a packed `runProgram` argument: not
/// JavaScript, and either it starts with the packed prefix or it is over 256
/// bytes of ASCII `'+'..='z'` with no space or newline.
pub open spec fn packed_run_program_shape(plain: Seq<char>) -> bool {
    let b = vstd::utf8::encode_utf8(plain);
    !javascript_shape(plain) && (starts_with_seq(b, PACKED_RUN_PROGRAM_PREFIX.spec_bytes())
        || (b.len() > 256 && !b.contains(32) && !b.contains(10) && forall|i: int| 0 <= i < b.len() ==> #[trigger] packed_tail_byte(b[i])))
}

pub fn is_packed_run_program(plain: &str) -> (r: bool)
    ensures
        r == packed_run_program_shape(plain@),
{
    if looks_like_javascript(plain) {
        return false;
    }
    let b = plain.as_bytes();
    if matches_at(b, PACKED_RUN_PROGRAM_PREFIX.as_bytes(), 0) {
        return true;
    }
    if b.len() <= 256 {
        return false;
    }
    let mut i: usize = 0;
    while i < b.len()
        invariant
            b@ == plain.spec_bytes(),
            !javascript_shape(plain@),
            !starts_with_seq(b@, PACKED_RUN_PROGRAM_PREFIX.spec_bytes()),
            i <= b@.len(),
            forall|j: int| 0 <= j < i ==> #[trigger] packed_tail_byte(b@[j]),
        decreases b@.len() - i,
    {
        if b[i] < 43 || b[i] > 122 {
            assert(!packed_tail_byte(b@[i as int]));
            return false;
        }
        i = i + 1;
    }
    proof {
        assert(!b@.contains(32)) by {
            if b@.contains(32) {
                let k = choose|k: int| 0 <= k < b@.len() && b@[k] == 32;
                assert(packed_tail_byte(b@[k]));
            }
        }
        assert(!b@.contains(10)) by {
            if b@.contains(10) {
                let k = choose|k: int| 0 <= k < b@.len() && b@[k] == 10;
                assert(packed_tail_byte(b@[k]));
            }
        }
    }
    true
}

/// A standard base64 character: `A-Z`, `a-z`, `0-9`, `+`, `/` or `=`.
pub open spec fn std_b64_char(c: u8) -> bool {
    (65 <= c <= 90) || (97 <= c <= 122) || (48 <= c <= 57) || c == 43 || c == 47 || c == 61
}

/// A packed program, byte by byte: not JavaScript, and either it starts with
/// the packed prefix or it is over 256 bytes all in `'+'..='z'` (so no space
/// or newline). In particular, more than 256 standard base64 characters that
/// do not read as JavaScript are a packed program.
pub proof fn lemma_packed_shape_by_bytes(plain: Seq<char>)
    ensures
        ({
            let b = vstd::utf8::encode_utf8(plain);
            &&& packed_run_program_shape(plain) <==> (!javascript_shape(plain) && (starts_with_seq(b, PACKED_RUN_PROGRAM_PREFIX.spec_bytes())
                || (b.len() > 256 && forall|i: int| 0 <= i < b.len() ==> 43 <= #[trigger] b[i] <= 122)))
            &&& (!javascript_shape(plain) && b.len() > 256 && (forall|i: int| 0 <= i < b.len() ==> std_b64_char(#[trigger] b[i])))
                ==> packed_run_program_shape(plain)
        }),
{
    let b = vstd::utf8::encode_utf8(plain);
    if forall|i: int| 0 <= i < b.len() ==> #[trigger] packed_tail_byte(b[i]) {
        assert forall|i: int| 0 <= i < b.len() implies 43 <= #[trigger] b[i] <= 122 by {
            assert(packed_tail_byte(b[i]));
        }
    }
    if forall|i: int| 0 <= i < b.len() ==> 43 <= #[trigger] b[i] <= 122 {
        assert forall|i: int| 0 <= i < b.len() implies #[trigger] packed_tail_byte(b[i]) by {
            assert(43 <= b[i] <= 122);
        }
    }
    if b.len() > 256 && forall|i: int| 0 <= i < b.len() ==> 43 <= #[trigger] b[i] <= 122 {
        assert(!b.contains(32)) by {
            if b.contains(32) {
                let k = choose|k: int| 0 <= k < b.len() && b[k] == 32;
                assert(43 <= b[k] <= 122);
            }
        }
        assert(!b.contains(10)) by {
            if b.contains(10) {
                let k = choose|k: int| 0 <= k < b.len() && b[k] == 10;
                assert(43 <= b[k] <= 122);
            }
        }
    }
    if b.len() > 256 && forall|i: int| 0 <= i < b.len() ==> std_b64_char(#[trigger] b[i]) {
        assert forall|i: int| 0 <= i < b.len() implies #[trigger] packed_tail_byte(b[i]) by {
            assert(std_b64_char(b[i]));
        }
        assert(!b.contains(32)) by {
            if b.contains(32) {
                let k = choose|k: int| 0 <= k < b.len() && b[k] == 32;
                assert(std_b64_char(b[k]));
            }
        }
        assert(!b.contains(10)) by {
            if b.contains(10) {
                let k = choose|k: int| 0 <= k < b.len() && b[k] == 10;
                assert(std_b64_char(b[k]));
            }
        }
    }
}

/// The `d` string member of `text` read as a JSON document, when `text` parses and has one.
pub uninterp spec fn json_d_text(text: Seq<char>) -> Option<Seq<char>>;

/// `serde_json::from_str::<Value>(text)`, then its `d` member as a string.
#[verifier::external_body]
fn json_d_string(text: &str) -> (r: Option<String>)
    ensures
        match json_d_text(text@) {
            Some(d) => r matches Some(s) && s@ == d,
            None => r is None,
        },
{
    serde_json::from_str::<serde_json::Value>(text).ok().and_then(|v| v.get("d").and_then(|d| d.as_str()).map(|s| s.to_string()))
}

/// A trimmed body that reads as a JSON error object: it opens with `{` and names `"d"`.
pub open spec fn json_error_shape(t: Seq<char>) -> bool {
    t.len() > 0 && t[0] == '{' && contains_seq(encode_utf8(t), "\"d\"".spec_bytes())
}

/// A `/fo/` body before decryption: whether it is a JSON error, and the text to decrypt.
#[derive(Debug, Clone)]
pub struct FoBodyCandidate {
    pub looks_like_json_error: bool,
    /// Byte length of the error's `d` string.
    pub json_error_d_len: Option<usize>,
    /// The error's `d` string, else the trimmed body.
    pub text: String,
    /// `text` is standard base64 (possibly line-wrapped), at least 16 bytes.
    pub looks_like_b64: bool,
}

/// The body with leading and trailing white space removed.
pub open spec fn trimmed_body(body: Seq<char>) -> Seq<char> {
    trim_end_chars(trim_start_chars(body))
}

/// The text of a `/fo/` body that would be decrypted.
pub open spec fn candidate_text(body: Seq<char>) -> Seq<char> {
    let t = trimmed_body(body);
    if json_error_shape(t) {
        match json_d_text(t) {
            Some(d) => d,
            None => t,
        }
    } else {
        t
    }
}

/// Reads a `/fo/` body up to decryption.
pub fn fo_body_candidate(body: &str) -> (c: FoBodyCandidate)
    ensures
        c.looks_like_json_error == json_error_shape(trimmed_body(body@)),
        c.json_error_d_len == (if json_error_shape(trimmed_body(body@)) {
            match json_d_text(trimmed_body(body@)) {
                Some(d) => Some(encode_utf8(d).len() as usize),
                None => None,
            }
        } else {
            None
        }),
        c.text@ == candidate_text(body@),
        c.looks_like_b64 == std_b64_shape(encode_utf8(candidate_text(body@))),
{
    let t = trim(body);
    let tb = t.as_bytes();
    let opens = t.unicode_len() > 0 && t.get_char(0) == '{';
    let json_error = opens && contains_bytes(tb, "\"d\"".as_bytes());
    let d = if json_error { json_d_string(t) } else { None };
    let d_len = match &d {
        Some(s) => Some(s.as_str().as_bytes().len()),
        None => None,
    };
    let text = match d {
        Some(s) => s,
        None => to_string(t),
    };
    let b64 = is_standard_b64(text.as_str().as_bytes());
    FoBodyCandidate { looks_like_json_error: json_error, json_error_d_len: d_len, text, looks_like_b64: b64 }
}

/// The first 24 chars of `s` (all of it when shorter).
pub open spec fn prefix24(s: Seq<char>) -> Seq<char> {
    if s.len() <= 24 {
        s
    } else {
        s.subrange(0, 24)
    }
}

fn first_chars(s: &str, n: usize) -> (r: String)
    ensures
        r@ == (if s@.len() <= n { s@ } else { s@.subrange(0, n as int) }),
{
    let len = s.unicode_len();
    let end = if len < n { len } else { n };
    let mut r = String::new();
    let mut i: usize = 0;
    while i < end
        invariant
            end <= len == s@.len(),
            i <= end,
            r@ == s@.subrange(0, i as int),
        decreases end - i,
    {
        crate::fmt::push_char(&mut r, s.get_char(i));
        i = i + 1;
        assert(r@ =~= s@.subrange(0, i as int));
    }
    assert(s@.subrange(0, s@.len() as int) =~= s@);
    r
}

/// The analysis of a `/fo/` body given what decrypting its candidate text gave: the
/// packed-program shape counts only outside a JSON error.
pub fn analyze_decrypted_fo_body(body: &str, c: &FoBodyCandidate, decrypted: Option<&str>) -> (a: FoBlobAnalysis)
    requires
        decrypted is Some ==> c.looks_like_b64,
    ensures
        a.input_bytes == body.spec_bytes().len(),
        a.looks_like_json_error == c.looks_like_json_error,
        a.looks_like_b64 == c.looks_like_b64,
        a.json_error_d_len == c.json_error_d_len,
        a.decrypt_ok == decrypted is Some,
        match decrypted {
            Some(p) => {
                &&& a.decrypt_bytes == p.spec_bytes().len()
                &&& a.decrypt_prefix@ == prefix24(p@)
                &&& a.looks_like_javascript == javascript_shape(p@)
                &&& a.looks_like_packed_run_program == (!c.looks_like_json_error && packed_run_program_shape(p@))
            },
            None => {
                &&& a.decrypt_bytes == 0
                &&& a.decrypt_prefix@ == Seq::<char>::empty()
                &&& !a.looks_like_javascript
                &&& !a.looks_like_packed_run_program
            },
        },
{
    match decrypted {
        Some(p) => FoBlobAnalysis {
            input_bytes: body.as_bytes().len(),
            looks_like_json_error: c.looks_like_json_error,
            looks_like_b64: c.looks_like_b64,
            decrypt_ok: true,
            decrypt_bytes: p.as_bytes().len(),
            decrypt_prefix: first_chars(p, 24),
            looks_like_javascript: looks_like_javascript(p),
            looks_like_packed_run_program: !c.looks_like_json_error && is_packed_run_program(p),
            json_error_d_len: c.json_error_d_len,
        },
        None => FoBlobAnalysis {
            input_bytes: body.as_bytes().len(),
            looks_like_json_error: c.looks_like_json_error,
            looks_like_b64: c.looks_like_b64,
            decrypt_ok: false,
            decrypt_bytes: 0,
            decrypt_prefix: String::new(),
            looks_like_javascript: false,
            looks_like_packed_run_program: false,
            json_error_d_len: c.json_error_d_len,
        },
    }
}

} // verus!
