//! `window._cf_chl_opt` parsing from the challenge iframe HTML.
//!
//! Two layouts exist: legacy named keys (`cType: '...'`, `cRay: '...'`) and
//! randomized keys, where fields are recognised by the shape of their values.
use vstd::prelude::*;
use vstd::string::StringSliceAdditionalSpecFns;
use vstd::utf8::*;
use vstd::string::StrSliceExecFns;
use crate::fmt::push_str;
use crate::fo_blob::{debug_quote, debug_str};
use crate::protocol::{extract_fo_session, FO_SESSION_PATTERN};
use crate::regex_support::{regex_capture1, regex_escape, regex_escaped, regex_first_capture1};
use crate::text::{matches_at, starts_with_seq, contains_bytes, contains_seq, trim_start, trim_start_chars, ascii_bytes, find_from, first_occurrence_from, lemma_boundary_after_ascii, lemma_boundary_at_ascii, lemma_str_valid, occurs_at, str_slice, to_string};

verus! {

broadcast use vstd::slice::group_slice_axioms;

/// `'` or `"`.
pub open spec fn is_quote(c: u8) -> bool {
    c == 39 || c == 34
}

/// Index of the closing quote `q`, scanning from `j` with backslash escapes.
pub open spec fn quote_close(b: Seq<u8>, q: u8, j: int, escape: bool) -> Option<int>
    decreases b.len() - j,
{
    if j < 0 || j >= b.len() {
        None
    } else if escape {
        quote_close(b, q, j + 1, false)
    } else if b[j] == 92 {
        quote_close(b, q, j + 1, true)
    } else if b[j] == q {
        Some(j)
    } else {
        quote_close(b, q, j + 1, false)
    }
}

/// Raw contents (escapes kept) of the quoted strings in `b[i..]`, in order.
/// An unterminated string ends the scan.
pub open spec fn quoted_values(b: Seq<u8>, i: int) -> Seq<Seq<u8>>
    decreases b.len() - i,
{
    if i < 0 || i >= b.len() {
        Seq::empty()
    } else if is_quote(b[i]) {
        match quote_close(b, b[i], i + 1, false) {
            Some(e) => if i + 1 <= e < b.len() {
                seq![b.subrange(i + 1, e)] + quoted_values(b, e + 1)
            } else {
                Seq::empty()
            },
            None => Seq::empty(),
        }
    } else {
        quoted_values(b, i + 1)
    }
}

proof fn lemma_quote_close_bounds(b: Seq<u8>, q: u8, j: int, escape: bool)
    ensures
        quote_close(b, q, j, escape) matches Some(e) ==> j <= e < b.len() && b[e] == q,
    decreases b.len() - j,
{
    if 0 <= j < b.len() {
        lemma_quote_close_bounds(b, q, j + 1, false);
        lemma_quote_close_bounds(b, q, j + 1, true);
    }
}

/// Scan for the closing quote `q` from `j`; mirrors [`quote_close`].
fn find_quote_close(b: &[u8], q: u8, j: usize) -> (r: Option<usize>)
    ensures
        r == (match quote_close(b@, q, j as int, false) {
            Some(e) => Some(e as usize),
            None => None::<usize>,
        }),
{
    let mut i = j;
    let mut escape = false;
    while i < b.len()
        invariant
            j <= i,
            quote_close(b@, q, j as int, false) == quote_close(b@, q, i as int, escape),
        decreases b@.len() - i,
    {
        let c = b[i];
        if escape {
            escape = false;
        } else if c == 92 {
            escape = true;
        } else if c == q {
            proof { lemma_quote_close_bounds(b@, q, i as int, false); }
            return Some(i);
        }
        i = i + 1;
    }
    None
}

/// Every quoted string value in `data`, raw (escapes are not processed).
pub fn collect_quoted_strings(data: &str) -> (out: Vec<String>)
    ensures
        out@.len() == quoted_values(data.spec_bytes(), 0).len(),
        forall|k: int| 0 <= k < out@.len() ==> encode_utf8(#[trigger] out@[k]@) == quoted_values(data.spec_bytes(), 0)[k],
{
    let bytes = data.as_bytes();
    let ghost b = bytes@;
    let mut out: Vec<String> = Vec::new();
    let mut i: usize = 0;
    proof { lemma_str_valid(data); }
    while i < bytes.len()
        invariant
            b == data.spec_bytes(),
            b == bytes@,
            valid_utf8(b),
            i <= b.len(),
            forall|k: int| 0 <= k < out@.len() ==> encode_utf8(#[trigger] out@[k]@) == quoted_values(b, 0)[k],
            out@.len() + quoted_values(b, i as int).len() == quoted_values(b, 0).len(),
            forall|k: int| 0 <= k < quoted_values(b, i as int).len() ==> #[trigger] quoted_values(b, i as int)[k] == quoted_values(b, 0)[out@.len() + k],
        decreases b.len() - i,
    {
        let c = bytes[i];
        if c == 39 || c == 34 {
            match find_quote_close(bytes, c, i + 1) {
                Some(e) => {
                    proof {
                        lemma_quote_close_bounds(b, c, i + 1, false);
                        lemma_boundary_after_ascii(b, i as int);
                        lemma_boundary_at_ascii(b, e as int);
                        assert(quoted_values(b, i as int) == seq![b.subrange(i + 1, e as int)] + quoted_values(b, e + 1));
                    }
                    let piece = str_slice(data, i + 1, e);
                    let s = to_string(piece);
                    let ghost n = out@.len();
                    out.push(s);
                    proof {
                        assert(quoted_values(b, i as int)[0] == b.subrange(i + 1, e as int));
                        assert forall|k: int| 0 <= k < quoted_values(b, e + 1).len() implies #[trigger] quoted_values(b, e + 1)[k] == quoted_values(b, 0)[out@.len() + k] by {
                            assert(quoted_values(b, e + 1)[k] == quoted_values(b, i as int)[k + 1]);
                        }
                    }
                    i = e + 1;
                }
                None => {
                    proof {
                        assert(quoted_values(b, i as int).len() == 0);
                    }
                    return out;
                }
            }
        } else {
            proof {
                assert(quoted_values(b, i as int) == quoted_values(b, i + 1));
            }
            i = i + 1;
        }
    }
    out
}

/// Index of the `}` that closes the object, scanning from `i` at brace `depth`,
/// skipping quoted strings (with backslash escapes).
pub open spec fn balanced_close(b: Seq<u8>, i: int, depth: int, in_str: Option<u8>, escape: bool) -> Option<int>
    decreases b.len() - i,
{
    if i < 0 || i >= b.len() {
        None
    } else {
        let c = b[i];
        match in_str {
            Some(q) => if escape {
                balanced_close(b, i + 1, depth, in_str, false)
            } else if c == 92 {
                balanced_close(b, i + 1, depth, in_str, true)
            } else if c == q {
                balanced_close(b, i + 1, depth, None, false)
            } else {
                balanced_close(b, i + 1, depth, in_str, false)
            },
            None => if is_quote(c) {
                balanced_close(b, i + 1, depth, Some(c), escape)
            } else if c == 123 {
                balanced_close(b, i + 1, depth + 1, None, escape)
            } else if c == 125 {
                if depth - 1 == 0 {
                    Some(i)
                } else {
                    balanced_close(b, i + 1, depth - 1, None, escape)
                }
            } else {
                balanced_close(b, i + 1, depth, None, escape)
            },
        }
    }
}

proof fn lemma_balanced_close_bounds(b: Seq<u8>, i: int, depth: int, in_str: Option<u8>, escape: bool)
    ensures
        balanced_close(b, i, depth, in_str, escape) matches Some(e) ==> i <= e < b.len() && b[e] == 125,
    decreases b.len() - i,
{
    if 0 <= i < b.len() {
        let c = b[i];
        lemma_balanced_close_bounds(b, i + 1, depth, in_str, false);
        lemma_balanced_close_bounds(b, i + 1, depth, in_str, true);
        lemma_balanced_close_bounds(b, i + 1, depth, None, false);
        lemma_balanced_close_bounds(b, i + 1, depth, Some(c), escape);
        lemma_balanced_close_bounds(b, i + 1, depth + 1, None, escape);
        lemma_balanced_close_bounds(b, i + 1, depth - 1, None, escape);
    }
}

/// Index of the `}` closing the object that opens at byte `open`.
pub open spec fn balanced_object_end(b: Seq<u8>, open: int) -> Option<int> {
    if open < 0 || open >= b.len() || b[open] != 123 {
        None
    } else {
        balanced_close(b, open, 0, None, false)
    }
}

/// The balanced `{...}` object starting at byte `open`, if `src[open]` is `{`
/// and a matching `}` follows.
pub fn extract_balanced_object(src: &str, open: usize) -> (r: Option<&str>)
    requires
        src.spec_bytes().len() < i32::MAX,
    ensures
        match balanced_object_end(src.spec_bytes(), open as int) {
            Some(e) => r matches Some(o) && o.spec_bytes() == src.spec_bytes().subrange(open as int, e + 1),
            None => r is None,
        },
{
    let bytes = src.as_bytes();
    if open >= bytes.len() || bytes[open] != 123 {
        return None;
    }
    let ghost b = bytes@;
    let mut depth: i32 = 0;
    let mut i = open;
    let mut in_str: Option<u8> = None;
    let mut escape = false;
    while i < bytes.len()
        invariant
            b == bytes@,
            b == src.spec_bytes(),
            b.len() < i32::MAX,
            open <= i,
            open < b.len(),
            b[open as int] == 123,
            -(i - open) <= depth <= i - open,
            balanced_close(b, open as int, 0, None, false) == balanced_close(b, i as int, depth as int, in_str, escape),
        decreases b.len() - i,
    {
        let c = bytes[i];
        match in_str {
            Some(q) => {
                if escape {
                    escape = false;
                } else if c == 92 {
                    escape = true;
                } else if c == q {
                    in_str = None;
                }
            },
            None => {
                if c == 39 || c == 34 {
                    in_str = Some(c);
                } else if c == 123 {
                    depth = depth + 1;
                } else if c == 125 {
                    depth = depth - 1;
                    if depth == 0 {
                        proof {
                            lemma_str_valid(src);
                            lemma_boundary_at_ascii(b, open as int);
                            lemma_boundary_after_ascii(b, i as int);
                        }
                        return Some(str_slice(src, open, i + 1));
                    }
                }
            },
        }
        i = i + 1;
    }
    None
}


/// Byte classes used by the value-shape predicates.
pub open spec fn in_class(c: u8, class: u8) -> bool {
    if class == 0 {
        (48 <= c <= 57) || (65 <= c <= 70) || (97 <= c <= 102)
    } else if class == 1 {
        48 <= c <= 57
    } else if class == 2 {
        (97 <= c <= 122) || (48 <= c <= 57)
    } else {
        (48 <= c <= 57) || (65 <= c <= 90) || (97 <= c <= 122) || c == 46 || c == 45
    }
}

/// Every byte of `b` is in `class`.
pub open spec fn all_in_class(b: Seq<u8>, class: u8) -> bool {
    forall|i: int| 0 <= i < b.len() ==> in_class(#[trigger] b[i], class)
}

fn all_in_class_exec(b: &[u8], class: u8) -> (r: bool)
    ensures
        r == all_in_class(b@, class),
{
    let mut i: usize = 0;
    while i < b.len()
        invariant
            i <= b@.len(),
            forall|j: int| 0 <= j < i ==> in_class(#[trigger] b@[j], class),
        decreases b@.len() - i,
    {
        let c = b[i];
        let ok = if class == 0 {
            (48 <= c && c <= 57) || (65 <= c && c <= 70) || (97 <= c && c <= 102)
        } else if class == 1 {
            48 <= c && c <= 57
        } else if class == 2 {
            (97 <= c && c <= 122) || (48 <= c && c <= 57)
        } else {
            (48 <= c && c <= 57) || (65 <= c && c <= 90) || (97 <= c && c <= 122) || c == 46 || c == 45
        };
        if !ok {
            return false;
        }
        i = i + 1;
    }
    true
}

/// A ray id: 16 hex digits.
pub open spec fn ray_shape(v: Seq<u8>) -> bool {
    v.len() == 16 && all_in_class(v, 0)
}

pub fn is_ray(v: &str) -> (r: bool)
    ensures
        r == ray_shape(v.spec_bytes()),
{
    let b = v.as_bytes();
    b.len() == 16 && all_in_class_exec(b, 0)
}

/// Unix seconds: 10 ASCII digits.
pub open spec fn unix_seconds_shape(v: Seq<u8>) -> bool {
    v.len() == 10 && all_in_class(v, 1)
}

pub fn is_unix_seconds(v: &str) -> (r: bool)
    ensures
        r == unix_seconds_shape(v.spec_bytes()),
{
    let b = v.as_bytes();
    b.len() == 10 && all_in_class_exec(b, 1)
}

/// A widget id: 5 chars of `[a-z0-9]`.
pub open spec fn widget_id_shape(v: Seq<u8>) -> bool {
    v.len() == 5 && all_in_class(v, 2)
}

pub fn is_widget_id(v: &str) -> (r: bool)
    ensures
        r == widget_id_shape(v.spec_bytes()),
{
    let b = v.as_bytes();
    b.len() == 5 && all_in_class_exec(b, 2)
}

/// A challenge version id: one or two digits, not `0`.
pub open spec fn cv_id_shape(v: Seq<u8>) -> bool {
    1 <= v.len() <= 2 && all_in_class(v, 1) && v != seq![48u8]
}

pub fn is_cv_id(v: &str) -> (r: bool)
    ensures
        r == cv_id_shape(v.spec_bytes()),
{
    let b = v.as_bytes();
    let r = 1 <= b.len() && b.len() <= 2 && all_in_class_exec(b, 1) && !(b.len() == 1 && b[0] == 48);
    proof {
        if b@.len() == 1 && b@ != seq![48u8] {
            assert(b@[0] != 48) by {
                if b@[0] == 48 {
                    assert(b@ =~= seq![48u8]);
                }
            }
        }
    }
    r
}

/// A platform branch letter: `b`, `c` or `g`.
pub open spec fn platform_branch_shape(v: Seq<u8>) -> bool {
    v == seq![98u8] || v == seq![99u8] || v == seq![103u8]
}

pub fn is_platform_branch(v: &str) -> (r: bool)
    ensures
        r == platform_branch_shape(v.spec_bytes()),
{
    let b = v.as_bytes();
    let r = b.len() == 1 && (b[0] == 98 || b[0] == 99 || b[0] == 103);
    proof {
        if b@.len() == 1 {
            assert(b@ =~= seq![b@[0]]);
        }
    }
    r
}

/// Index of the last `c` in `v[..i]`.
pub open spec fn last_before(v: Seq<u8>, c: u8, i: int) -> Option<int>
    decreases i,
{
    if i <= 0 {
        None
    } else if v[i - 1] == c {
        Some(i - 1)
    } else {
        last_before(v, c, i - 1)
    }
}

fn last_before_exec(v: &[u8], c: u8, i: usize) -> (r: Option<usize>)
    requires
        i <= v@.len(),
    ensures
        r matches Some(d) ==> last_before(v@, c, i as int) == Some(d as int) && d < i,
        r is None ==> last_before(v@, c, i as int) is None,
{
    let mut k = i;
    while k > 0
        invariant
            k <= i <= v@.len(),
            last_before(v@, c, i as int) == last_before(v@, c, k as int),
        decreases k,
    {
        if v[k - 1] == c {
            return Some(k - 1);
        }
        k = k - 1;
    }
    None
}

/// Cloudflare versioned token: at least 40 bytes, and the piece before the first
/// `-1.` ends with `-` and ten digits (a Unix time), or is ten digits.
pub open spec fn versioned_token_shape(v: Seq<u8>) -> bool {
    v.len() >= 40 && match first_occurrence_from(v, "-1.".spec_bytes(), 0) {
        None => false,
        Some(ver) => {
            let start = match last_before(v, 45, ver) {
                Some(d) => d + 1,
                None => 0,
            };
            ver - start == 10 && all_in_class(v.subrange(start, ver), 1)
        },
    }
}

pub fn is_cf_versioned_token(v: &str) -> (r: bool)
    ensures
        r == versioned_token_shape(v.spec_bytes()),
{
    proof {
        reveal_strlit("-1.");
    }
    let b = v.as_bytes();
    if b.len() < 40 {
        return false;
    }
    let ver = match find_from(b, ascii_bytes("-1."), 0) {
        Some(i) => i,
        None => return false,
    };
    assert(occurs_at(b@, "-1.".spec_bytes(), ver as int));
    let start = match last_before_exec(b, 45, ver) {
        Some(d) => d + 1,
        None => 0,
    };
    if ver - start != 10 {
        return false;
    }
    let ts = vstd::slice::slice_subrange(b, start, ver);
    all_in_class_exec(ts, 1)
}

/// Host-name shape: at most 64 bytes, not a versioned token, holds a `.`, and
/// only `[A-Za-z0-9.-]`.
pub open spec fn hostname_shape(v: Seq<u8>) -> bool {
    v.len() <= 64 && !versioned_token_shape(v) && v.contains(46) && all_in_class(v, 3)
}

fn bytes_contain(b: &[u8], c: u8) -> (r: bool)
    ensures
        r == b@.contains(c),
{
    let mut i: usize = 0;
    while i < b.len()
        invariant
            i <= b@.len(),
            forall|j: int| 0 <= j < i ==> b@[j] != c,
        decreases b@.len() - i,
    {
        if b[i] == c {
            return true;
        }
        i = i + 1;
    }
    false
}

pub fn looks_like_hostname(v: &str) -> (r: bool)
    ensures
        r == hostname_shape(v.spec_bytes()),
{
    let b = v.as_bytes();
    b.len() <= 64 && !is_cf_versioned_token(v) && bytes_contain(b, 46) && all_in_class_exec(b, 3)
}

/// Byte index of the `{` after `window._cf_chl_opt =` (white space allowed after `=`).
#[verifier::opaque]
pub open spec fn chl_opt_open(b: Seq<u8>) -> Option<int> {
    match first_occurrence_from(b, "window._cf_chl_opt".spec_bytes(), 0) {
        None => None,
        Some(idx) => match first_occurrence_from(b, "=".spec_bytes(), idx + 18) {
            None => None,
            Some(e) => {
                let t = trim_start_chars(decode_utf8(b.subrange(e + 1, b.len() as int)));
                if t.len() > 0 && t[0] == '{' {
                    Some(b.len() - encode_utf8(t).len())
                } else {
                    None
                }
            },
        },
    }
}

/// Byte span `[open, end]` of the `window._cf_chl_opt` object literal.
pub open spec fn chl_opt_span(b: Seq<u8>) -> Option<(int, int)> {
    match chl_opt_open(b) {
        None => None,
        Some(open) => match balanced_object_end(b, open) {
            Some(e) => Some((open, e)),
            None => None,
        },
    }
}

fn find_chl_opt_open(html: &str) -> (r: Option<usize>)
    ensures
        match chl_opt_open(html.spec_bytes()) {
            Some(open) => r == Some(open as usize) && 0 <= open <= html.spec_bytes().len(),
            None => r is None,
        },
{
    proof {
        reveal(chl_opt_open);
        reveal_strlit("window._cf_chl_opt");
        reveal_strlit("=");
        lemma_str_valid(html);
    }
    let hb = html.as_bytes();
    let marker = ascii_bytes("window._cf_chl_opt");
    let idx = match find_from(hb, marker, 0) {
        Some(i) => i,
        None => return None,
    };
    assert(occurs_at(hb@, marker@, idx as int));
    assert(marker@.len() == 18);
    assert(hb@.len() == hb.len());
    let e = match find_from(hb, ascii_bytes("="), idx + 18) {
        Some(e) => e,
        None => return None,
    };
    proof {
        assert(hb@.subrange(e as int, e + 1)[0] == hb@[e as int]);
        lemma_boundary_after_ascii(hb@, e as int);
        lemma_boundary_at_ascii(hb@, hb@.len() as int);
    }
    let after = str_slice(html, e + 1, hb.len());
    proof {
        encode_utf8_decode_utf8(after@);
    }
    let t = trim_start(after);
    if t.is_empty() {
        return None;
    }
    if t.get_char(0) != '{' {
        return None;
    }
    Some(hb.len() - t.as_bytes().len())
}

/// The `window._cf_chl_opt = {...}` object literal.
pub fn extract_chl_opt_object(html: &str) -> (r: Option<&str>)
    requires
        html.spec_bytes().len() < i32::MAX,
    ensures
        match chl_opt_span(html.spec_bytes()) {
            Some((open, e)) => r matches Some(o) && o.spec_bytes() == html.spec_bytes().subrange(open, e + 1),
            None => r is None,
        },
{
    match find_chl_opt_open(html) {
        Some(open) => extract_balanced_object(html, open),
        None => None,
    }
}

/// Regex tail after a key: `\s*:\s*` then a quoted value, captured without quotes.
pub const NAMED_VALUE_SUFFIX: &'static str = "\\s*:\\s*['\"]([^'\"]*)['\"]";

/// Value of `key: '...'` in `data` (key taken literally), via the regex engine.
pub open spec fn named_value(data: Seq<char>, key: Seq<char>) -> Option<Seq<char>> {
    regex_first_capture1(regex_escaped(key) + NAMED_VALUE_SUFFIX@, data)
}

/// The quoted string value of `key` in `data`: `key\s*:\s*['"]([^'"]*)['"]`.
pub fn named_string(data: &str, key: &str) -> (r: Option<String>)
    ensures
        match named_value(data@, key@) {
            Some(v) => r matches Some(t) && t@ == v,
            None => r is None,
        },
{
    let mut pat = regex_escape(key);
    push_str(&mut pat, NAMED_VALUE_SUFFIX);
    regex_capture1(pat.as_str(), data)
}

/// Value of a legacy named field (the key is used as a regex as written).
pub open spec fn legacy_field(data: Seq<char>, key: Seq<char>) -> Seq<char> {
    match regex_first_capture1(key + NAMED_VALUE_SUFFIX@, data) {
        Some(v) => v,
        None => Seq::empty(),
    }
}

fn extract_field(data: &str, key: &str) -> (r: String)
    ensures
        r@ == legacy_field(data@, key@),
{
    let mut pat = String::new();
    push_str(&mut pat, key);
    push_str(&mut pat, NAMED_VALUE_SUFFIX);
    assert(pat@ =~= key@ + NAMED_VALUE_SUFFIX@);
    match regex_capture1(pat.as_str(), data) {
        Some(v) => v,
        None => String::new(),
    }
}

/// First `'` or `"` in `b` at or after `from`.
pub open spec fn first_quote_from(b: Seq<u8>, from: int) -> Option<int>
    decreases b.len() - from,
{
    if from < 0 || from >= b.len() {
        None
    } else if is_quote(b[from]) {
        Some(from)
    } else {
        first_quote_from(b, from + 1)
    }
}

fn first_quote_exec(b: &[u8], from: usize) -> (r: Option<usize>)
    requires
        from <= b@.len(),
    ensures
        r matches Some(q) ==> first_quote_from(b@, from as int) == Some(q as int) && from <= q < b@.len() && is_quote(b@[q as int]),
        r is None ==> first_quote_from(b@, from as int) is None,
{
    let mut i = from;
    while i < b.len()
        invariant
            from <= i <= b@.len(),
            first_quote_from(b@, from as int) == first_quote_from(b@, i as int),
        decreases b@.len() - i,
    {
        if b[i] == 39 || b[i] == 34 {
            return Some(i);
        }
        i = i + 1;
    }
    None
}

/// `x` when it lies before `limit`.
pub open spec fn before(x: Option<int>, limit: int) -> Option<int> {
    match x {
        Some(j) => if j < limit { Some(j) } else { None },
        None => None,
    }
}

/// Byte span of the turnstile `u` value: after the first `chlTimeoutMs:`, the
/// second `,`-piece, and in it the second quote-delimited piece.
#[verifier::opaque]
pub open spec fn turnstile_u_span(b: Seq<u8>) -> Option<(int, int)> {
    let m = "chlTimeoutMs:".spec_bytes();
    let comma = ",".spec_bytes();
    match first_occurrence_from(b, m, 0) {
        None => None,
        Some(i1) => {
            let s1 = i1 + 13;
            let j1 = match first_occurrence_from(b, m, s1) {
                Some(j) => j,
                None => b.len() as int,
            };
            match before(first_occurrence_from(b, comma, s1), j1) {
                None => None,
                Some(c1) => {
                    let s2 = c1 + 1;
                    let j2 = match before(first_occurrence_from(b, comma, s2), j1) {
                        Some(c) => c,
                        None => j1,
                    };
                    match before(first_quote_from(b, s2), j2) {
                        None => None,
                        Some(q1) => {
                            let s3 = q1 + 1;
                            let j3 = match before(first_quote_from(b, s3), j2) {
                                Some(q) => q,
                                None => j2,
                            };
                            Some((s3, j3))
                        },
                    }
                },
            }
        },
    }
}

/// The turnstile `u` value bytes, empty when absent.
pub open spec fn turnstile_u_bytes(b: Seq<u8>) -> Seq<u8> {
    match turnstile_u_span(b) {
        Some((s, e)) => b.subrange(s, e),
        None => Seq::empty(),
    }
}

fn occurrence_or(hb: &[u8], needle: &[u8], from: usize, fallback: usize) -> (r: usize)
    requires
        from <= hb@.len(),
        fallback <= hb@.len(),
    ensures
        match first_occurrence_from(hb@, needle@, from as int) {
            Some(j) => r == j && occurs_at(hb@, needle@, j),
            None => r == fallback,
        },
        r <= hb@.len(),
{
    match find_from(hb, needle, from) {
        Some(j) => j,
        None => fallback,
    }
}

fn turnstile_u_span_exec(hb: &[u8]) -> (r: Option<(usize, usize)>)
    ensures
        r matches Some((s, e)) ==> turnstile_u_span(hb@) == Some((s as int, e as int)),
        r is None ==> turnstile_u_span(hb@) is None,
        r matches Some((s, e)) ==> 0 < s <= e <= hb@.len() && hb@[s - 1] < 0x80 && (e == hb@.len() || hb@[e as int] < 0x80),
{
    proof {
        reveal(turnstile_u_span);
        reveal_strlit("chlTimeoutMs:");
        reveal_strlit(",");
    }
    let ghost b = hb@;
    let m = ascii_bytes("chlTimeoutMs:");
    let comma = ascii_bytes(",");
    let i1 = match find_from(hb, m, 0) {
        Some(i) => i,
        None => return None,
    };
    assert(occurs_at(b, m@, i1 as int));
    assert(m@.len() == 13);
    assert(hb@.len() == hb.len());
    let s1 = i1 + 13;
    let j1 = occurrence_or(hb, m, s1, hb.len());
    let c1 = match find_from(hb, comma, s1) {
        Some(c) => c,
        None => return None,
    };
    if c1 >= j1 {
        return None;
    }
    let s2 = c1 + 1;
    let c2 = occurrence_or(hb, comma, s2, hb.len());
    let j2 = if c2 < j1 { c2 } else { j1 };
    let q1 = match first_quote_exec(hb, s2) {
        Some(q) => q,
        None => return None,
    };
    if q1 >= j2 {
        return None;
    }
    let s3 = q1 + 1;
    let j3 = match first_quote_exec(hb, s3) {
        Some(q) => if q < j2 { q } else { j2 },
        None => j2,
    };
    proof {
        if j3 < b.len() && j3 == j2 {
            if j2 == c2 && c2 < j1 {
                assert(b.subrange(c2 as int, c2 + 1)[0] == b[c2 as int]);
            } else {
                assert(b.subrange(j1 as int, j1 + 13)[0] == b[j1 as int]);
            }
        }
    }
    Some((s3, j3))
}

fn get_turnstile_u(html: &str) -> (r: String)
    ensures
        encode_utf8(r@) == turnstile_u_bytes(html.spec_bytes()),
{
    proof {
        lemma_str_valid(html);
    }
    let hb = html.as_bytes();
    match turnstile_u_span_exec(hb) {
        Some((s3, j3)) => {
            proof {
                lemma_boundary_after_ascii(hb@, s3 - 1);
                lemma_boundary_at_ascii(hb@, j3 as int);
            }
            to_string(str_slice(html, s3, j3))
        },
        None => String::new(),
    }
}

/// Fields of `window._cf_chl_opt` this crate reads.
#[derive(Debug, Clone, PartialEq, Eq, Default)]
pub struct CloudflareChallengeOptions {
    pub c_type: String,
    pub cv_id: String,
    pub c_arg: String,
    pub zone: String,
    pub api_v_id: String,
    pub widget_id: String,
    pub site_key: String,
    pub api_mode: String,
    pub api_size: String,
    pub api_rcv: String,
    pub reset_src: String,
    pub c_ray: String,
    pub ch: String,
    pub md: String,
    pub time: String,
    pub iss_ua: String,
    pub ip: String,
    pub turnstile_u: String,
    /// Platform branch letter from `_cf_chl_opt` (`g`, `b`, …).
    pub branch: String,
    /// Session id from the inline `/fo/{session}/` path, if present.
    pub fo_session: String,
}

/// The options as char sequences.
#[verifier::ext_equal]
pub struct ChlOptView {
    pub c_type: Seq<char>,
    pub cv_id: Seq<char>,
    pub c_arg: Seq<char>,
    pub zone: Seq<char>,
    pub api_v_id: Seq<char>,
    pub widget_id: Seq<char>,
    pub site_key: Seq<char>,
    pub api_mode: Seq<char>,
    pub api_size: Seq<char>,
    pub api_rcv: Seq<char>,
    pub reset_src: Seq<char>,
    pub c_ray: Seq<char>,
    pub ch: Seq<char>,
    pub md: Seq<char>,
    pub time: Seq<char>,
    pub iss_ua: Seq<char>,
    pub ip: Seq<char>,
    pub turnstile_u: Seq<char>,
    pub branch: Seq<char>,
    pub fo_session: Seq<char>,
}

impl View for CloudflareChallengeOptions {
    type V = ChlOptView;

    open spec fn view(&self) -> ChlOptView {
        ChlOptView {
            c_type: self.c_type@,
            cv_id: self.cv_id@,
            c_arg: self.c_arg@,
            zone: self.zone@,
            api_v_id: self.api_v_id@,
            widget_id: self.widget_id@,
            site_key: self.site_key@,
            api_mode: self.api_mode@,
            api_size: self.api_size@,
            api_rcv: self.api_rcv@,
            reset_src: self.reset_src@,
            c_ray: self.c_ray@,
            ch: self.ch@,
            md: self.md@,
            time: self.time@,
            iss_ua: self.iss_ua@,
            ip: self.ip@,
            turnstile_u: self.turnstile_u@,
            branch: self.branch@,
            fo_session: self.fo_session@,
        }
    }
}

/// Legacy layout: named `cType:` and `cRay:` keys.
pub open spec fn legacy_layout(data: Seq<u8>) -> bool {
    contains_seq(data, "cType:".spec_bytes()) && contains_seq(data, "cRay:".spec_bytes())
}

fn looks_like_legacy_named_keys(data: &str) -> (r: bool)
    ensures
        r == legacy_layout(data.spec_bytes()),
{
    let b = data.as_bytes();
    contains_bytes(b, "cType:".as_bytes()) && contains_bytes(b, "cRay:".as_bytes())
}

/// Options read from the legacy named-key layout.
pub open spec fn legacy_view(data: Seq<char>, html: Seq<u8>) -> ChlOptView {
    ChlOptView {
        c_type: legacy_field(data, "cType"@),
        cv_id: legacy_field(data, "cvId"@),
        c_arg: legacy_field(data, "cFPWv"@),
        zone: legacy_field(data, "cZone"@),
        api_v_id: legacy_field(data, "chlApivId"@),
        widget_id: legacy_field(data, "chlApiWidgetId"@),
        site_key: legacy_field(data, "chlApiSitekey"@),
        api_mode: legacy_field(data, "chlApiMode"@),
        api_size: legacy_field(data, "chlApiSize"@),
        api_rcv: legacy_field(data, "chlApiRcV"@),
        reset_src: legacy_field(data, "chlApiResetSrc"@),
        c_ray: legacy_field(data, "cRay"@),
        ch: legacy_field(data, "cH"@),
        md: legacy_field(data, "md"@),
        time: legacy_field(data, "cITimeS"@),
        iss_ua: legacy_field(data, "chlIssUA"@),
        ip: legacy_field(data, "chlIp"@),
        turnstile_u: decode_utf8(turnstile_u_bytes(html)),
        branch: Seq::empty(),
        fo_session: Seq::empty(),
    }
}

proof fn lemma_decode_of(s: Seq<char>, b: Seq<u8>)
    requires
        encode_utf8(s) == b,
    ensures
        s == decode_utf8(b),
{
    encode_utf8_decode_utf8(s);
}

fn parse_legacy(data: &str, html: &str) -> (r: CloudflareChallengeOptions)
    ensures
        r@ == legacy_view(data@, html.spec_bytes()),
{
    let turnstile_u = get_turnstile_u(html);
    proof {
        lemma_decode_of(turnstile_u@, turnstile_u_bytes(html.spec_bytes()));
    }
    CloudflareChallengeOptions {
        c_type: extract_field(data, "cType"),
        cv_id: extract_field(data, "cvId"),
        c_arg: extract_field(data, "cFPWv"),
        zone: extract_field(data, "cZone"),
        api_v_id: extract_field(data, "chlApivId"),
        widget_id: extract_field(data, "chlApiWidgetId"),
        site_key: extract_field(data, "chlApiSitekey"),
        api_mode: extract_field(data, "chlApiMode"),
        api_size: extract_field(data, "chlApiSize"),
        api_rcv: extract_field(data, "chlApiRcV"),
        c_ray: extract_field(data, "cRay"),
        ch: extract_field(data, "cH"),
        md: extract_field(data, "md"),
        time: extract_field(data, "cITimeS"),
        iss_ua: extract_field(data, "chlIssUA"),
        ip: extract_field(data, "chlIp"),
        reset_src: extract_field(data, "chlApiResetSrc"),
        turnstile_u,
        branch: String::new(),
        fo_session: String::new(),
    }
}

/// Slot order of the randomized layout: site key, zone, challenge type, API
/// mode, API size, ray, time, widget id (by shape), version id, branch.
pub open spec fn slot_accepts(k: int, v: Seq<u8>) -> bool {
    if k == 0 {
        starts_with_seq(v, "0x".spec_bytes()) && v.len() >= 16
    } else if k == 1 {
        v.contains(46) && !v.contains(32) && hostname_shape(v)
    } else if k == 2 {
        starts_with_seq(v, "chl_api".spec_bytes())
    } else if k == 3 {
        v == "managed".spec_bytes() || v == "non-interactive".spec_bytes() || v == "invisible".spec_bytes()
    } else if k == 4 {
        v == "normal".spec_bytes() || v == "compact".spec_bytes() || v == "flexible".spec_bytes()
    } else if k == 5 {
        ray_shape(v)
    } else if k == 6 {
        unix_seconds_shape(v)
    } else if k == 7 {
        widget_id_shape(v)
    } else if k == 8 {
        cv_id_shape(v)
    } else {
        platform_branch_shape(v)
    }
}

/// First still-empty slot at or after `k` that accepts `v`.
pub open spec fn first_open_slot(slots: Seq<Seq<u8>>, v: Seq<u8>, k: int) -> Option<int>
    decreases 10 - k,
{
    if k < 0 || k >= 10 {
        None
    } else if slots[k].len() == 0 && slot_accepts(k, v) {
        Some(k)
    } else {
        first_open_slot(slots, v, k + 1)
    }
}

/// Slots after offering each value in order; each value fills at most one slot.
pub open spec fn slots_after(vals: Seq<Seq<u8>>) -> Seq<Seq<u8>>
    decreases vals.len(),
{
    if vals.len() == 0 {
        Seq::new(10, |i: int| Seq::<u8>::empty())
    } else {
        let prev = slots_after(vals.drop_last());
        match first_open_slot(prev, vals.last(), 0) {
            Some(k) => prev.update(k, vals.last()),
            None => prev,
        }
    }
}

fn bytes_eq(a: &[u8], b: &[u8]) -> (r: bool)
    ensures
        r == (a@ == b@),
{
    if a.len() != b.len() {
        return false;
    }
    let m = matches_at(a, b, 0);
    proof {
        if m {
            assert(a@ =~= a@.subrange(0, b@.len() as int));
        } else {
            if a@ == b@ {
                assert(a@.subrange(0, b@.len() as int) =~= b@);
            }
        }
    }
    m
}

fn slot_accepts_exec(k: usize, v: &str) -> (r: bool)
    requires
        k < 10,
    ensures
        r == slot_accepts(k as int, v.spec_bytes()),
{
    proof {
        reveal_strlit("0x");
        reveal_strlit("chl_api");
    }
    let b = v.as_bytes();
    if k == 0 {
        matches_at(b, ascii_bytes("0x"), 0) && b.len() >= 16
    } else if k == 1 {
        bytes_contain(b, 46) && !bytes_contain(b, 32) && looks_like_hostname(v)
    } else if k == 2 {
        matches_at(b, ascii_bytes("chl_api"), 0)
    } else if k == 3 {
        bytes_eq(b, "managed".as_bytes()) || bytes_eq(b, "non-interactive".as_bytes()) || bytes_eq(b, "invisible".as_bytes())
    } else if k == 4 {
        bytes_eq(b, "normal".as_bytes()) || bytes_eq(b, "compact".as_bytes()) || bytes_eq(b, "flexible".as_bytes())
    } else if k == 5 {
        is_ray(v)
    } else if k == 6 {
        is_unix_seconds(v)
    } else if k == 7 {
        is_widget_id(v)
    } else if k == 8 {
        is_cv_id(v)
    } else {
        is_platform_branch(v)
    }
}

/// Index of the shortest element of `rem[..n]` satisfying `pred`, earliest on ties.
pub open spec fn first_min_len(rem: Seq<Seq<u8>>, pred: spec_fn(Seq<u8>) -> bool, n: int) -> Option<int>
    decreases n,
{
    if n <= 0 {
        None
    } else {
        let prev = first_min_len(rem, pred, n - 1);
        if pred(rem[n - 1]) && (match prev {
            Some(j) => rem[n - 1].len() < rem[j].len(),
            None => true,
        }) {
            Some(n - 1)
        } else {
            prev
        }
    }
}

/// Index of the longest element of `rem[..n]`, latest on ties.
pub open spec fn last_max_len(rem: Seq<Seq<u8>>, n: int) -> Option<int>
    decreases n,
{
    if n <= 0 {
        None
    } else {
        let prev = last_max_len(rem, n - 1);
        if (match prev {
            Some(j) => rem[n - 1].len() >= rem[j].len(),
            None => true,
        }) {
            Some(n - 1)
        } else {
            prev
        }
    }
}

/// `rem[i]`, or empty.
pub open spec fn pick(rem: Seq<Seq<u8>>, i: Option<int>) -> Seq<u8> {
    match i {
        Some(j) => rem[j],
        None => Seq::empty(),
    }
}

/// `Some(v)` as `v`, `None` as empty.
pub open spec fn or_empty(v: Option<Seq<char>>) -> Seq<char> {
    match v {
        Some(s) => s,
        None => Seq::empty(),
    }
}

/// Versioned tokens of the data other than the `nextRcV` one, in order.
pub open spec fn remaining_tokens(vals: Seq<Seq<u8>>, rcv: Seq<u8>) -> Seq<Seq<u8>> {
    vals.filter(is_remaining_token(rcv))
}

/// A versioned token other than `rcv`.
pub open spec fn is_remaining_token(rcv: Seq<u8>) -> spec_fn(Seq<u8>) -> bool {
    |v: Seq<u8>| versioned_token_shape(v) && v != rcv
}

/// `ch`: the shortest remaining token (earliest on ties).
pub open spec fn ch_token(rem: Seq<Seq<u8>>) -> Seq<u8> {
    pick(rem, first_min_len(rem, any_token(), rem.len() as int))
}

/// Every token.
pub open spec fn any_token() -> spec_fn(Seq<u8>) -> bool {
    |t: Seq<u8>| true
}

/// A token other than `ch` and `md` that holds `-1.3.`.
pub open spec fn other_v13_token(ch: Seq<u8>, md: Seq<u8>) -> spec_fn(Seq<u8>) -> bool {
    |t: Seq<u8>| t != ch && t != md && contains_seq(t, "-1.3.".spec_bytes())
}

/// A token other than `ch` and `md`.
pub open spec fn other_token(ch: Seq<u8>, md: Seq<u8>) -> spec_fn(Seq<u8>) -> bool {
    |t: Seq<u8>| t != ch && t != md
}

/// `md`: the longest remaining token (latest on ties), when there are two or more.
pub open spec fn md_token(rem: Seq<Seq<u8>>) -> Seq<u8> {
    if rem.len() > 1 {
        pick(rem, last_max_len(rem, rem.len() as int))
    } else {
        Seq::empty()
    }
}

/// `resetSrc`: shortest other token holding `-1.3.`, else shortest other token.
pub open spec fn reset_token(rem: Seq<Seq<u8>>) -> Seq<u8> {
    let ch = ch_token(rem);
    let md = md_token(rem);
    match first_min_len(rem, other_v13_token(ch, md), rem.len() as int) {
        Some(i) => rem[i],
        None => pick(rem, first_min_len(rem, other_token(ch, md), rem.len() as int)),
    }
}

/// Options read from the randomized-key layout, by the shape of each value.
pub open spec fn randomized_view(data: Seq<char>) -> ChlOptView {
    let vals = quoted_values(encode_utf8(data), 0);
    let slots = slots_after(vals);
    let wid = or_empty(named_value(data, "widgetId"@));
    let rcv = or_empty(named_value(data, "nextRcV"@));
    let rem = remaining_tokens(vals, encode_utf8(rcv));
    ChlOptView {
        c_type: decode_utf8(slots[2]),
        cv_id: decode_utf8(slots[8]),
        c_arg: Seq::empty(),
        zone: decode_utf8(slots[1]),
        api_v_id: Seq::empty(),
        widget_id: if wid.len() == 0 { decode_utf8(slots[7]) } else { wid },
        site_key: decode_utf8(slots[0]),
        api_mode: decode_utf8(slots[3]),
        api_size: decode_utf8(slots[4]),
        api_rcv: rcv,
        reset_src: decode_utf8(reset_token(rem)),
        c_ray: decode_utf8(slots[5]),
        ch: decode_utf8(ch_token(rem)),
        md: decode_utf8(md_token(rem)),
        time: decode_utf8(slots[6]),
        iss_ua: Seq::empty(),
        ip: Seq::empty(),
        turnstile_u: Seq::empty(),
        branch: decode_utf8(slots[9]),
        fo_session: Seq::empty(),
    }
}

/// `strs` encode, element by element, to `bytes`.
pub open spec fn encodes_to(strs: Seq<String>, bytes: Seq<Seq<u8>>) -> bool {
    strs.len() == bytes.len() && forall|k: int| 0 <= k < strs.len() ==> encode_utf8(#[trigger] strs[k]@) == bytes[k]
}

fn str_byte_len(s: &String) -> (n: usize)
    ensures
        n == encode_utf8(s@).len(),
{
    s.as_str().as_bytes().len()
}

fn fill_slots(values: &Vec<String>, Ghost(vals): Ghost<Seq<Seq<u8>>>) -> (slots: Vec<String>)
    requires
        encodes_to(values@, vals),
    ensures
        encodes_to(slots@, slots_after(vals)),
        slots@.len() == 10,
{
    let mut slots: Vec<String> = Vec::new();
    let mut k: usize = 0;
    while k < 10
        invariant
            k <= 10,
            slots@.len() == k,
            forall|j: int| 0 <= j < k ==> encode_utf8(#[trigger] slots@[j]@) == Seq::<u8>::empty(),
        decreases 10 - k,
    {
        slots.push(String::new());
        k = k + 1;
    }
    assert(vals.take(0) =~= Seq::<Seq<u8>>::empty());
    assert(encodes_to(slots@, slots_after(vals.take(0))));
    let mut i: usize = 0;
    while i < values.len()
        invariant
            encodes_to(values@, vals),
            i <= values@.len(),
            slots@.len() == 10,
            encodes_to(slots@, slots_after(vals.take(i as int))),
        decreases values@.len() - i,
    {
        let v = &values[i];
        let ghost prev = slots_after(vals.take(i as int));
        proof {
            assert(vals.take(i + 1).drop_last() =~= vals.take(i as int));
            assert(vals.take(i + 1).last() == vals[i as int]);
        }
        let mut k: usize = 0;
        let mut found: Option<usize> = None;
        while k < 10
            invariant_except_break
                found is None,
            invariant
                encodes_to(slots@, prev),
                slots@.len() == 10,
                k <= 10,
                encode_utf8(v@) == vals[i as int],
                first_open_slot(prev, vals[i as int], 0) == first_open_slot(prev, vals[i as int], k as int),
            ensures
                found matches Some(kk) ==> first_open_slot(prev, vals[i as int], 0) == Some(kk as int) && kk < 10,
                found is None ==> first_open_slot(prev, vals[i as int], 0) is None,
            decreases 10 - k,
        {
            if str_byte_len(&slots[k]) == 0 && slot_accepts_exec(k, v.as_str()) {
                found = Some(k);
                break;
            }
            k = k + 1;
        }
        match found {
            Some(k) => {
                let ghost old_slots = slots@;
                slots.set(k, v.clone());
                proof {
                    assert(first_open_slot(prev, vals[i as int], 0) == Some(k as int));
                    assert forall|j: int| 0 <= j < 10 implies encode_utf8(#[trigger] slots@[j]@) == prev.update(k as int, vals[i as int])[j] by {
                        if j != k {
                            assert(slots@[j] == old_slots[j]);
                        }
                    }
                }
            },
            None => {
                assert(first_open_slot(prev, vals[i as int], 0) is None);
            },
        }
        i = i + 1;
    }
    assert(vals.take(values@.len() as int) =~= vals);
    slots
}

fn collect_remaining(values: &Vec<String>, rcv: &String, Ghost(vals): Ghost<Seq<Seq<u8>>>) -> (rem: Vec<String>)
    requires
        encodes_to(values@, vals),
    ensures
        encodes_to(rem@, remaining_tokens(vals, encode_utf8(rcv@))),
{
    let ghost rb = encode_utf8(rcv@);
    let ghost pred = is_remaining_token(rb);
    let rcv_bytes = rcv.as_str().as_bytes();
    let mut rem: Vec<String> = Vec::new();
    let mut i: usize = 0;
    assert(vals.take(0).filter(pred) =~= Seq::<Seq<u8>>::empty()) by {
        reveal(Seq::filter);
    }
    while i < values.len()
        invariant
            encodes_to(values@, vals),
            rcv_bytes@ == rb,
            rb == encode_utf8(rcv@),
            pred == is_remaining_token(rb),
            i <= values@.len(),
            encodes_to(rem@, vals.take(i as int).filter(pred)),
        decreases values@.len() - i,
    {
        let v = &values[i];
        let vs = v.as_str();
        let vb = vs.as_bytes();
        let keep = is_cf_versioned_token(vs) && !bytes_eq(vb, rcv_bytes);
        proof {
            reveal(Seq::filter);
            assert(vals.take(i + 1).drop_last() =~= vals.take(i as int));
            assert(vals.take(i + 1).last() == vals[i as int]);
            assert(vs@ == v@);
            assert(vb@ == vals[i as int]);
            assert(pred(vals[i as int]) == (versioned_token_shape(vals[i as int]) && vals[i as int] != rb));
            assert(keep == pred(vals[i as int]));
        }
        if keep {
            let ghost old_rem = rem@;
            rem.push(v.clone());
            proof {
                assert forall|k: int| 0 <= k < rem@.len() implies encode_utf8(#[trigger] rem@[k]@) == vals.take(i + 1).filter(pred)[k] by {
                    if k < old_rem.len() {
                        assert(rem@[k] == old_rem[k]);
                    }
                }
            }
        }
        i = i + 1;
    }
    assert(vals.take(values@.len() as int) =~= vals);
    rem
}

fn shortest_where(rem: &Vec<String>, Ghost(rb): Ghost<Seq<Seq<u8>>>, Ghost(pred): Ghost<spec_fn(Seq<u8>) -> bool>, ok: &Vec<bool>) -> (r: Option<usize>)
    requires
        encodes_to(rem@, rb),
        ok@.len() == rem@.len(),
        forall|k: int| 0 <= k < ok@.len() ==> #[trigger] ok@[k] == pred(rb[k]),
    ensures
        r matches Some(i) ==> first_min_len(rb, pred, rb.len() as int) == Some(i as int) && i < rb.len(),
        r is None ==> first_min_len(rb, pred, rb.len() as int) is None,
{
    let mut best: Option<usize> = None;
    let mut best_len: usize = 0;
    let mut i: usize = 0;
    while i < rem.len()
        invariant
            encodes_to(rem@, rb),
            ok@.len() == rem@.len(),
            forall|k: int| 0 <= k < ok@.len() ==> #[trigger] ok@[k] == pred(rb[k]),
            i <= rem@.len(),
            best matches Some(b) ==> first_min_len(rb, pred, i as int) == Some(b as int) && b < i && best_len == rb[b as int].len(),
            best is None ==> first_min_len(rb, pred, i as int) is None,
        decreases rem@.len() - i,
    {
        let n = str_byte_len(&rem[i]);
        let better = match best {
            Some(_) => n < best_len,
            None => true,
        };
        if ok[i] && better {
            best = Some(i);
            best_len = n;
        }
        i = i + 1;
    }
    best
}

fn longest_last(rem: &Vec<String>, Ghost(rb): Ghost<Seq<Seq<u8>>>) -> (r: Option<usize>)
    requires
        encodes_to(rem@, rb),
    ensures
        r matches Some(i) ==> last_max_len(rb, rb.len() as int) == Some(i as int) && i < rb.len(),
        r is None ==> last_max_len(rb, rb.len() as int) is None,
{
    let mut best: Option<usize> = None;
    let mut best_len: usize = 0;
    let mut i: usize = 0;
    while i < rem.len()
        invariant
            encodes_to(rem@, rb),
            i <= rem@.len(),
            best matches Some(b) ==> last_max_len(rb, i as int) == Some(b as int) && b < i && best_len == rb[b as int].len(),
            best is None ==> last_max_len(rb, i as int) is None,
        decreases rem@.len() - i,
    {
        let n = str_byte_len(&rem[i]);
        let better = match best {
            Some(_) => n >= best_len,
            None => true,
        };
        if better {
            best = Some(i);
            best_len = n;
        }
        i = i + 1;
    }
    best
}

fn pick_string(rem: &Vec<String>, i: Option<usize>) -> (r: String)
    requires
        i matches Some(j) ==> j < rem@.len(),
    ensures
        r@ == (match i {
            Some(j) => rem@[j as int]@,
            None => Seq::<char>::empty(),
        }),
{
    match i {
        Some(j) => rem[j].clone(),
        None => String::new(),
    }
}

/// Per-token flags: `[any, other with -1.3., other]` relative to `ch` and `md`.
fn token_flags(rem: &Vec<String>, ch: &String, md: &String, Ghost(rb): Ghost<Seq<Seq<u8>>>, which: u8) -> (ok: Vec<bool>)
    requires
        encodes_to(rem@, rb),
    ensures
        ok@.len() == rem@.len(),
        forall|k: int| 0 <= k < ok@.len() ==> #[trigger] ok@[k] == (if which == 0 {
            any_token()(rb[k])
        } else if which == 1 {
            other_v13_token(encode_utf8(ch@), encode_utf8(md@))(rb[k])
        } else {
            other_token(encode_utf8(ch@), encode_utf8(md@))(rb[k])
        }),
{
    let chb = ch.as_str().as_bytes();
    let mdb = md.as_str().as_bytes();
    let v13 = "-1.3.".as_bytes();
    let mut ok: Vec<bool> = Vec::new();
    let mut k: usize = 0;
    while k < rem.len()
        invariant
            encodes_to(rem@, rb),
            chb@ == encode_utf8(ch@),
            mdb@ == encode_utf8(md@),
            v13@ == "-1.3.".spec_bytes(),
            k <= rem@.len(),
            ok@.len() == k,
            forall|j: int| 0 <= j < k ==> #[trigger] ok@[j] == (if which == 0 {
                any_token()(rb[j])
            } else if which == 1 {
                other_v13_token(encode_utf8(ch@), encode_utf8(md@))(rb[j])
            } else {
                other_token(encode_utf8(ch@), encode_utf8(md@))(rb[j])
            }),
        decreases rem@.len() - k,
    {
        let tb = rem[k].as_str().as_bytes();
        let flag = if which == 0 {
            true
        } else if which == 1 {
            !bytes_eq(tb, chb) && !bytes_eq(tb, mdb) && contains_bytes(tb, v13)
        } else {
            !bytes_eq(tb, chb) && !bytes_eq(tb, mdb)
        };
        ok.push(flag);
        k = k + 1;
    }
    ok
}

fn parse_randomized(data: &str) -> (r: CloudflareChallengeOptions)
    ensures
        r@ == randomized_view(data@),
{
    let values = collect_quoted_strings(data);
    let ghost vals = quoted_values(data.spec_bytes(), 0);
    assert(encodes_to(values@, vals));
    let widget_id = match named_string(data, "widgetId") {
        Some(s) => s,
        None => String::new(),
    };
    let api_rcv = match named_string(data, "nextRcV") {
        Some(s) => s,
        None => String::new(),
    };
    let slots = fill_slots(&values, Ghost(vals));
    let rem = collect_remaining(&values, &api_rcv, Ghost(vals));
    let ghost rb = remaining_tokens(vals, encode_utf8(api_rcv@));
    let empty = String::new();
    let all = token_flags(&rem, &empty, &empty, Ghost(rb), 0);
    let ch_i = shortest_where(&rem, Ghost(rb), Ghost(any_token()), &all);
    let ch = pick_string(&rem, ch_i);
    let md_i = if rem.len() > 1 { longest_last(&rem, Ghost(rb)) } else { None };
    let md = pick_string(&rem, md_i);
    proof {
        assert(encode_utf8(ch@) == ch_token(rb));
        assert(encode_utf8(md@) == md_token(rb)) by {
            if rb.len() <= 1 {
                assert(encode_utf8(Seq::<char>::empty()) =~= Seq::<u8>::empty());
            }
        }
        assert(encode_utf8(Seq::<char>::empty()) =~= Seq::<u8>::empty());
    }
    let ok1 = token_flags(&rem, &ch, &md, Ghost(rb), 1);
    let reset_src = match shortest_where(&rem, Ghost(rb), Ghost(other_v13_token(ch_token(rb), md_token(rb))), &ok1) {
        Some(i) => rem[i].clone(),
        None => {
            let ok2 = token_flags(&rem, &ch, &md, Ghost(rb), 2);
            let j = shortest_where(&rem, Ghost(rb), Ghost(other_token(ch_token(rb), md_token(rb))), &ok2);
            pick_string(&rem, j)
        },
    };
    assert(encode_utf8(reset_src@) == reset_token(rb));
    let widget = if widget_id.as_str().is_empty() { slots[7].clone() } else { widget_id };
    let ghost sl = slots_after(vals);
    proof {
        lemma_decode_of(slots@[0]@, sl[0]);
        lemma_decode_of(slots@[1]@, sl[1]);
        lemma_decode_of(slots@[2]@, sl[2]);
        lemma_decode_of(slots@[3]@, sl[3]);
        lemma_decode_of(slots@[4]@, sl[4]);
        lemma_decode_of(slots@[5]@, sl[5]);
        lemma_decode_of(slots@[6]@, sl[6]);
        lemma_decode_of(slots@[7]@, sl[7]);
        lemma_decode_of(slots@[8]@, sl[8]);
        lemma_decode_of(slots@[9]@, sl[9]);
        lemma_decode_of(ch@, ch_token(rb));
        lemma_decode_of(md@, md_token(rb));
        lemma_decode_of(reset_src@, reset_token(rb));
    }
    CloudflareChallengeOptions {
        c_type: slots[2].clone(),
        cv_id: slots[8].clone(),
        c_arg: String::new(),
        zone: slots[1].clone(),
        api_v_id: String::new(),
        widget_id: widget,
        site_key: slots[0].clone(),
        api_mode: slots[3].clone(),
        api_size: slots[4].clone(),
        api_rcv,
        reset_src,
        c_ray: slots[5].clone(),
        ch,
        md,
        time: slots[6].clone(),
        iss_ua: String::new(),
        ip: String::new(),
        turnstile_u: String::new(),
        branch: slots[9].clone(),
        fo_session: String::new(),
    }
}

/// Why `window._cf_chl_opt` could not be read.
#[derive(Debug, Clone)]
pub enum ChallengeParseError {
    /// No `window._cf_chl_opt = {...}` object in the HTML.
    MissingChlOpt,
    /// The object was parsed but the zone or the ray is empty.
    MissingZoneOrRay { zone: String, c_ray: String },
}

impl ChallengeParseError {
    /// Human-readable reason.
    pub fn message(&self) -> (m: &'static str)
        ensures
            self is MissingChlOpt ==> m@ == "Failed to find window._cf_chl_opt object"@,
            self is MissingZoneOrRay ==> m@ == "parsed _cf_chl_opt but missing zone/c_ray"@,
    {
        match self {
            ChallengeParseError::MissingChlOpt => "Failed to find window._cf_chl_opt object",
            ChallengeParseError::MissingZoneOrRay { .. } => "parsed _cf_chl_opt but missing zone/c_ray",
        }
    }

    /// The full report: for a missing zone or ray, the reason followed by
    /// ` (zone={zone:?} ray={c_ray:?})`.
    pub fn detail(&self) -> (s: String)
        ensures
            match self {
                ChallengeParseError::MissingChlOpt => s@ == "Failed to find window._cf_chl_opt object"@,
                ChallengeParseError::MissingZoneOrRay { zone, c_ray } => s@ == "parsed _cf_chl_opt but missing zone/c_ray (zone="@
                    + debug_str(zone@) + " ray="@ + debug_str(c_ray@) + ")"@,
            },
    {
        let mut s = String::new();
        match self {
            ChallengeParseError::MissingChlOpt => push_str(&mut s, "Failed to find window._cf_chl_opt object"),
            ChallengeParseError::MissingZoneOrRay { zone, c_ray } => {
                push_str(&mut s, "parsed _cf_chl_opt but missing zone/c_ray (zone=");
                let z = debug_quote(zone.as_str());
                push_str(&mut s, z.as_str());
                push_str(&mut s, " ray=");
                let r = debug_quote(c_ray.as_str());
                push_str(&mut s, r.as_str());
                push_str(&mut s, ")");
            },
        }
        s
    }
}

/// Options read from the object literal `data`, by its layout.
pub open spec fn parsed_options(data: Seq<char>, html: Seq<u8>) -> ChlOptView {
    if legacy_layout(encode_utf8(data)) {
        legacy_view(data, html)
    } else {
        randomized_view(data)
    }
}

/// `opt` with its session filled in from the page when it has none.
pub open spec fn with_fo_session(opt: ChlOptView, session: Seq<char>) -> ChlOptView {
    if opt.fo_session.len() == 0 {
        ChlOptView { fo_session: session, ..opt }
    } else {
        opt
    }
}

/// The options `from_html` reads out of a page, when it reads any (both a zone and a ray).
pub open spec fn html_options(bytes: Seq<u8>, text: Seq<char>) -> Option<ChlOptView> {
    match chl_opt_span(bytes) {
        None => None,
        Some((open, end)) => {
            let data = decode_utf8(bytes.subrange(open, end + 1));
            let full = with_fo_session(parsed_options(data, bytes), or_empty(regex_first_capture1(FO_SESSION_PATTERN@, text)));
            if full.zone.len() == 0 || full.c_ray.len() == 0 {
                None
            } else {
                Some(full)
            }
        },
    }
}

impl CloudflareChallengeOptions {
    /// Parse `window._cf_chl_opt` from the challenge iframe HTML (legacy named
    /// keys or randomized keys), then take the `/fo/` session from the page.
    pub fn from_html(html: &str) -> (r: Result<Self, ChallengeParseError>)
        requires
            html.spec_bytes().len() < i32::MAX,
        ensures
            match chl_opt_span(html.spec_bytes()) {
                None => r matches Err(e) && e is MissingChlOpt,
                Some((open, end)) => {
                    let data = decode_utf8(html.spec_bytes().subrange(open, end + 1));
                    let full = with_fo_session(
                        parsed_options(data, html.spec_bytes()),
                        or_empty(regex_first_capture1(FO_SESSION_PATTERN@, html@)),
                    );
                    if full.zone.len() == 0 || full.c_ray.len() == 0 {
                        r matches Err(e) && e is MissingZoneOrRay
                    } else {
                        r matches Ok(o) && o@ == full
                    }
                },
            },
    {
        let data = match extract_chl_opt_object(html) {
            Some(d) => d,
            None => return Err(ChallengeParseError::MissingChlOpt),
        };
        proof {
            lemma_decode_of(data@, data.spec_bytes());
        }
        let mut opt = if looks_like_legacy_named_keys(data) {
            parse_legacy(data, html)
        } else {
            parse_randomized(data)
        };
        if opt.fo_session.as_str().is_empty() {
            opt.fo_session = match extract_fo_session(html) {
                Some(s) => s,
                None => String::new(),
            };
        }
        if opt.zone.as_str().is_empty() || opt.c_ray.as_str().is_empty() {
            return Err(ChallengeParseError::MissingZoneOrRay { zone: opt.zone, c_ray: opt.c_ray });
        }
        Ok(opt)
    }

    /// Why `orchestrate/chl_api` is not the VM, and what to fetch instead.
    pub fn missing_orchestrate_hint(&self) -> (s: String)
        ensures
            s@ == (if self.fo_session@.len() == 0 {
                "orchestrate/chl_api is not the VM this crate disassembles (type "@ + self.c_type@ + ", ray "@
                    + self.c_ray@ + ", branch "@ + self.branch@ + ")"@
            } else {
                "orchestrate/chl_api is not the VM; iframe XHR POSTs /fo/"@ + self.fo_session@
                    + "/{ray}/{ch} with cf-chl and a compressed init body, then runProgram()s the ray-decrypted response (ray "@
                    + self.c_ray@ + ", branch "@ + self.branch@ + ", type "@ + self.c_type@ + ")"@
            }),
    {
        let mut s = String::new();
        if self.fo_session.as_str().is_empty() {
            push_str(&mut s, "orchestrate/chl_api is not the VM this crate disassembles (type ");
            push_str(&mut s, self.c_type.as_str());
            push_str(&mut s, ", ray ");
            push_str(&mut s, self.c_ray.as_str());
            push_str(&mut s, ", branch ");
            push_str(&mut s, self.branch.as_str());
            push_str(&mut s, ")");
        } else {
            push_str(&mut s, "orchestrate/chl_api is not the VM; iframe XHR POSTs /fo/");
            push_str(&mut s, self.fo_session.as_str());
            push_str(&mut s, "/{ray}/{ch} with cf-chl and a compressed init body, then runProgram()s the ray-decrypted response (ray ");
            push_str(&mut s, self.c_ray.as_str());
            push_str(&mut s, ", branch ");
            push_str(&mut s, self.branch.as_str());
            push_str(&mut s, ", type ");
            push_str(&mut s, self.c_type.as_str());
            push_str(&mut s, ")");
        }
        s
    }
}

} // verus!
