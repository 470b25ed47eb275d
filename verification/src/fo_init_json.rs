//! First `/fo/` POST plaintext shape: the init object's key names (they rotate
//! with the iframe JS build), and how to find that object literal in the HTML.
use vstd::prelude::*;
use vstd::string::StringSliceAdditionalSpecFns;
use vstd::utf8::*;
use crate::text::{
    matches_at, str_eq, ascii_bytes, contains_bytes, contains_seq, find_from, first_occurrence_from, lemma_boundary_after_ascii,
    lemma_boundary_at_ascii, lemma_bytes_eq_chars_eq, lemma_str_valid, occurs_at, str_slice,
    to_string,
};

verus! {

broadcast use vstd::slice::group_slice_axioms;

/// Remaining after the init-JSON shape (the follow-up envelope is mapped separately).
pub const NEXT_AFTER_SHAPE: &'static str = "handler_semantics";

pub const INIT_JSON_KEY_COUNT: usize = 47;

pub const SET_TIMEOUT_DELAY_MS: u32 = 100;

/// Orchestrate-era init payload slot count.
pub const CRATE_ORCHESTRATE_SLOT_COUNT: usize = 40;

/// Branch-`b` init keys (stable across that day's `b` iframes).
pub const INIT_JSON_KEYS_B: [&'static str; 47] = [
    "ThPv3", "zlGF5", "OpPY6", "IlxW5", "XxyI8", "HmVl5", "Hvdx8", "SpRN6", "uHTPv5", "xOSD5",
    "Eugge3", "MaOkK2", "sYTa8", "ANNwt4", "XNzg0", "Qkvw6", "wSEe6", "XNAR2", "jPUKG9", "BfDsa5",
    "NLBQh4", "gZuvw0", "DmMyh8", "UqfC6", "SsIhw3", "UvCHC0", "QNwGo0", "bxwC4", "mPCxG3", "rrYRv3",
    "ZVrB5", "oEyAb1", "SdHeo9", "uzri0", "WIuS3", "RjLr7", "FWhj7", "wwGxq8", "samm5", "SiHjy8",
    "XsrRO3", "Qppo3", "jzZH4", "axZzC3", "ElYCL0", "gzpfB4", "yZZpI0",
];

/// Branch-`g` init keys. Same count, different names.
pub const INIT_JSON_KEYS_G: [&'static str; 47] = [
    "cpza4", "kwYu6", "Cplz9", "zcNj0", "bACR4", "gAMzq7", "NWUB3", "WpIu5", "yRMqb7", "jRwR8",
    "yTXuH8", "NGYVs4", "yCCo2", "ucBTZ7", "InHf7", "riWe2", "YIjU8", "qOeu1", "PnHD6", "IfWx3",
    "RGOD3", "QnRk5", "CORKS6", "ZSOv1", "SGOjP8", "NCyW3", "KImJo0", "ccSxK3", "MJLB4", "HsMRH3",
    "sJcj4", "CGKBH1", "qYXIZ1", "OxVd3", "kytBC0", "WAiB1", "ZJFpx3", "ViXgZ4", "DSKBL2", "pRJpX8",
    "XNan0", "xRRo8", "VrJt8", "DoKk0", "yJEso5", "BRqvJ4", "FELcX1",
];

/// Identifiers that appear on both `_cf_chl_opt` and the init object (branch `b`).
pub const SHARED_WITH_CHL_OPT_B: [&'static str; 8] = [
    "DmMyh8", "Eugge3", "SdHeo9", "UqfC6", "bxwC4", "uzri0", "xOSD5", "zlGF5",
];

#[derive(Debug, Clone, Copy)]
pub struct FoInitJsonShape {
    pub key_count: usize,
    pub set_timeout_delay_ms: u32,
    pub crate_orchestrate_slots: usize,
    pub keys_rotate_with_iframe_build: bool,
    pub json_stringify_field: bool,
    pub empty_string_field: bool,
    pub send_overwrites_timing: bool,
    pub optional_extra_params: bool,
    pub note: &'static str,
}

/// The live init-object shape facts.
pub fn live_fo_init_json() -> (s: FoInitJsonShape)
    ensures
        s.key_count == INIT_JSON_KEY_COUNT,
        s.set_timeout_delay_ms == SET_TIMEOUT_DELAY_MS,
        s.crate_orchestrate_slots == CRATE_ORCHESTRATE_SLOT_COUNT,
        s.keys_rotate_with_iframe_build && s.json_stringify_field && s.empty_string_field,
        s.send_overwrites_timing && s.optional_extra_params,
{
    FoInitJsonShape {
        key_count: INIT_JSON_KEY_COUNT,
        set_timeout_delay_ms: SET_TIMEOUT_DELAY_MS,
        crate_orchestrate_slots: CRATE_ORCHESTRATE_SLOT_COUNT,
        keys_rotate_with_iframe_build: true,
        json_stringify_field: true,
        empty_string_field: true,
        send_overwrites_timing: true,
        optional_extra_params: true,
        note: "47-key object then setTimeout(send, 100, url, obj); one field overwritten with Date.now()-start before f4. Do not fill or POST this object.",
    }
}

/// ASCII letter.
pub open spec fn is_alpha(c: u8) -> bool {
    (65 <= c <= 90) || (97 <= c <= 122)
}

/// ASCII letter or digit.
pub open spec fn is_alnum(c: u8) -> bool {
    is_alpha(c) || (48 <= c <= 57)
}

/// An init-object key: 2 to 12 ASCII alphanumerics, starting with a letter.
pub open spec fn init_key_shape(k: Seq<u8>) -> bool {
    2 <= k.len() <= 12 && is_alpha(k[0]) && forall|i: int| 0 <= i < k.len() ==> is_alnum(#[trigger] k[i])
}

fn alnum(c: u8) -> (r: bool)
    ensures
        r == is_alnum(c),
{
    (65 <= c && c <= 90) || (97 <= c && c <= 122) || (48 <= c && c <= 57)
}

fn looks_like_init_key_bytes(k: &[u8]) -> (r: bool)
    ensures
        r == init_key_shape(k@),
{
    if k.len() < 2 || k.len() > 12 {
        return false;
    }
    let c0 = k[0];
    if !((65 <= c0 && c0 <= 90) || (97 <= c0 && c0 <= 122)) {
        return false;
    }
    let mut i: usize = 0;
    while i < k.len()
        invariant
            i <= k@.len(),
            forall|j: int| 0 <= j < i ==> is_alnum(#[trigger] k@[j]),
        decreases k@.len() - i,
    {
        if !alnum(k[i]) {
            return false;
        }
        i = i + 1;
    }
    true
}

/// First `"` in `b` at or after `j`, or the end.
pub open spec fn next_dquote(b: Seq<u8>, j: int) -> int
    decreases b.len() - j,
{
    if j < 0 || j >= b.len() {
        b.len() as int
    } else if b[j] == 34 {
        j
    } else {
        next_dquote(b, j + 1)
    }
}

/// Quoted keys `"k":` of an object literal scanned from `i`, keeping those of
/// init-key shape; a key's closing quote must be followed by `:`.
pub open spec fn init_keys_from(b: Seq<u8>, i: int) -> Seq<Seq<u8>>
    decreases b.len() - i,
{
    if i < 0 || i + 3 >= b.len() {
        Seq::empty()
    } else if b[i] == 34 {
        let j = next_dquote(b, i + 1);
        proof {
            lemma_next_dquote_bounds(b, i + 1);
        }
        if j + 1 < b.len() && b[j + 1] == 58 {
            let k = b.subrange(i + 1, j);
            (if init_key_shape(k) { seq![k] } else { Seq::empty() }) + init_keys_from(b, j + 2)
        } else {
            init_keys_from(b, i + 1)
        }
    } else {
        init_keys_from(b, i + 1)
    }
}

pub proof fn lemma_next_dquote_bounds(b: Seq<u8>, j: int)
    requires
        0 <= j,
    ensures
        j <= next_dquote(b, j) <= b.len() || (j > b.len() && next_dquote(b, j) == b.len()),
        next_dquote(b, j) < b.len() ==> b[next_dquote(b, j)] == 34,
        forall|t: int| j <= t < next_dquote(b, j) ==> b[t] != 34,
    decreases b.len() - j,
{
    if 0 <= j < b.len() && b[j] != 34 {
        lemma_next_dquote_bounds(b, j + 1);
    }
}

fn next_dquote_exec(b: &[u8], j: usize) -> (r: usize)
    requires
        j <= b@.len(),
    ensures
        r == next_dquote(b@, j as int),
        j <= r <= b@.len(),
{
    let mut k = j;
    while k < b.len() && b[k] != 34
        invariant
            j <= k <= b@.len(),
            next_dquote(b@, j as int) == next_dquote(b@, k as int),
        decreases b@.len() - k,
    {
        k = k + 1;
    }
    k
}

/// Quoted object keys from the iframe init literal (`"ThPv3":…`).
pub fn quoted_object_keys(object_js: &str) -> (keys: Vec<String>)
    ensures
        keys@.len() == init_keys_from(object_js.spec_bytes(), 0).len(),
        forall|k: int| 0 <= k < keys@.len() ==> encode_utf8(#[trigger] keys@[k]@) == init_keys_from(object_js.spec_bytes(), 0)[k],
{
    let bytes = object_js.as_bytes();
    let ghost b = bytes@;
    proof {
        lemma_str_valid(object_js);
    }
    let mut keys: Vec<String> = Vec::new();
    let mut i: usize = 0;
    while i < bytes.len() && bytes.len() - i > 3
        invariant
            b == bytes@,
            b == object_js.spec_bytes(),
            valid_utf8(b),
            i <= b.len(),
            keys@.len() + init_keys_from(b, i as int).len() == init_keys_from(b, 0).len(),
            forall|k: int| 0 <= k < keys@.len() ==> encode_utf8(#[trigger] keys@[k]@) == init_keys_from(b, 0)[k],
            forall|k: int| 0 <= k < init_keys_from(b, i as int).len() ==> #[trigger] init_keys_from(b, i as int)[k] == init_keys_from(b, 0)[keys@.len() + k],
        decreases b.len() - i,
    {
        if bytes[i] == 34 {
            let j = next_dquote_exec(bytes, i + 1);
            if j < bytes.len() - 1 && bytes[j + 1] == 58 {
                proof {
                    lemma_next_dquote_bounds(b, i + 1);
                }
                let kb = vstd::slice::slice_subrange(bytes, i + 1, j);
                let ghost rest = init_keys_from(b, j + 2);
                let ghost here = init_keys_from(b, i as int);
                if looks_like_init_key_bytes(kb) {
                    proof {
                        lemma_boundary_after_ascii(b, i as int);
                        lemma_boundary_at_ascii(b, j as int);
                        assert(here == seq![b.subrange(i + 1, j as int)] + rest);
                        assert(here[0] == b.subrange(i + 1, j as int));
                    }
                    let k = to_string(str_slice(object_js, i + 1, j));
                    keys.push(k);
                    proof {
                        assert forall|t: int| 0 <= t < rest.len() implies #[trigger] rest[t] == init_keys_from(b, 0)[keys@.len() + t] by {
                            assert(rest[t] == here[t + 1]);
                        }
                    }
                } else {
                    proof {
                        assert(here =~= Seq::<Seq<u8>>::empty() + rest);
                        assert(here =~= rest);
                    }
                }
                i = j + 2;
            } else {
                i = i + 1;
            }
        } else {
            i = i + 1;
        }
    }
    keys
}

/// End (one past the closing `}`) of the object scanned from `i` at brace
/// `depth`, skipping `"`, `'` and backtick strings; inside a string a backslash
/// skips the next byte.
pub open spec fn brace_scan(b: Seq<u8>, i: int, depth: int, in_str: Option<u8>) -> Option<int>
    decreases b.len() + 1 - i,
{
    if i < 0 || i >= b.len() {
        None
    } else {
        let c = b[i];
        match in_str {
            Some(q) => if c == 92 {
                brace_scan(b, i + 2, depth, in_str)
            } else if c == q {
                brace_scan(b, i + 1, depth, None)
            } else {
                brace_scan(b, i + 1, depth, in_str)
            },
            None => if c == 34 || c == 39 || c == 96 {
                brace_scan(b, i + 1, depth, Some(c))
            } else if c == 123 {
                brace_scan(b, i + 1, depth + 1, None)
            } else if c == 125 {
                if depth - 1 == 0 {
                    Some(i + 1)
                } else {
                    brace_scan(b, i + 1, depth - 1, None)
                }
            } else {
                brace_scan(b, i + 1, depth, None)
            },
        }
    }
}

/// End of the `{…}` starting at `start`, if `b[start]` is `{` and it closes.
pub open spec fn brace_end_spec(b: Seq<u8>, start: int) -> Option<int> {
    if 0 <= start < b.len() && b[start] == 123 {
        brace_scan(b, start, 0, None)
    } else {
        None
    }
}

pub proof fn lemma_brace_scan_bounds(b: Seq<u8>, i: int, depth: int, in_str: Option<u8>)
    ensures
        brace_scan(b, i, depth, in_str) matches Some(e) ==> i < e <= b.len() && b[e - 1] == 125,
    decreases b.len() + 1 - i,
{
    if 0 <= i < b.len() {
        let c = b[i];
        lemma_brace_scan_bounds(b, i + 2, depth, in_str);
        lemma_brace_scan_bounds(b, i + 1, depth, None);
        lemma_brace_scan_bounds(b, i + 1, depth, in_str);
        lemma_brace_scan_bounds(b, i + 1, depth, Some(c));
        lemma_brace_scan_bounds(b, i + 1, depth + 1, None);
        lemma_brace_scan_bounds(b, i + 1, depth - 1, None);
    }
}

/// Brace-match a `{…}` starting at `start`, skipping quoted / template strings.
pub fn brace_end(js: &str, start: usize) -> (r: Option<usize>)
    requires
        js.spec_bytes().len() < usize::MAX,
    ensures
        match brace_end_spec(js.spec_bytes(), start as int) {
            Some(e) => r == Some(e as usize) && start < e <= js.spec_bytes().len() && js.spec_bytes()[e - 1] == 125,
            None => r is None,
        },
{
    let b = js.as_bytes();
    if start >= b.len() || b[start] != 123 {
        return None;
    }
    proof {
        lemma_brace_scan_bounds(b@, start as int, 0, None);
    }
    let mut depth: usize = 0;
    let mut in_str: Option<u8> = None;
    let mut i = start;
    while i < b.len()
        invariant
            b@ == js.spec_bytes(),
            b@.len() < usize::MAX,
            start <= i,
            start < b@.len(),
            b@[start as int] == 123,
            i > start ==> depth >= 1,
            i == start ==> depth == 0 && in_str is None,
            depth <= i - start,
            brace_scan(b@, start as int, 0, None) == brace_scan(b@, i as int, depth as int, in_str),
        decreases b@.len() + 1 - i,
    {
        let c = b[i];
        match in_str {
            Some(q) => {
                if c == 92 {
                    i = i + 2;
                    continue;
                }
                if c == q {
                    in_str = None;
                }
            },
            None => {
                if c == 34 || c == 39 || c == 96 {
                    in_str = Some(c);
                } else if c == 123 {
                    depth = depth + 1;
                } else if c == 125 {
                    depth = depth - 1;
                    if depth == 0 {
                        return Some(i + 1);
                    }
                }
            },
        }
        i = i + 1;
    }
    proof {
        assert(brace_scan(b@, i as int, depth as int, in_str) is None);
    }
    None
}

/// Start of the last `={` lying inside `b[lo..hi]`.
pub open spec fn last_eq_brace(b: Seq<u8>, lo: int, hi: int) -> Option<int>
    decreases hi - lo,
{
    if hi - 2 < lo {
        None
    } else if b[hi - 2] == 61 && b[hi - 1] == 123 {
        Some(hi - 2)
    } else {
        last_eq_brace(b, lo, hi - 1)
    }
}

fn last_eq_brace_exec(b: &[u8], lo: usize, hi: usize) -> (r: Option<usize>)
    requires
        lo <= hi <= b@.len(),
    ensures
        r matches Some(p) ==> last_eq_brace(b@, lo as int, hi as int) == Some(p as int) && lo <= p && p + 2 <= hi
            && b@[p as int] == 61 && b@[p + 1] == 123,
        r is None ==> last_eq_brace(b@, lo as int, hi as int) is None,
{
    let mut h = hi;
    while h >= 2 && h - 2 >= lo
        invariant
            lo <= hi <= b@.len(),
            h <= hi,
            last_eq_brace(b@, lo as int, hi as int) == last_eq_brace(b@, lo as int, h as int),
        decreases h,
    {
        if b[h - 2] == 61 && b[h - 1] == 123 {
            return Some(h - 2);
        }
        h = h - 1;
    }
    None
}

/// The init object found from the `:JSON[` at `at`: the last `={` in the 8000
/// bytes before it opens an object with at least 40 init keys, and
/// `setTimeout` occurs in the 800 bytes after the object.
pub open spec fn init_obj_at(b: Seq<u8>, at: int) -> Option<(int, int)> {
    let ws = if at >= 8000 { at - 8000 } else { 0 };
    match last_eq_brace(b, ws, at) {
        None => None,
        Some(p) => match brace_end_spec(b, p + 1) {
            None => None,
            Some(oe) => {
                let ae = if oe + 800 < b.len() { oe + 800 } else { b.len() as int };
                if init_keys_from(b.subrange(p + 1, oe), 0).len() >= 40 && is_char_boundary(b, ae)
                    && contains_seq(b.subrange(oe, ae), "setTimeout".spec_bytes()) {
                    Some((p + 1, oe))
                } else {
                    None
                }
            },
        },
    }
}

/// `:JSON[`.
pub open spec fn json_marker() -> Seq<u8> {
    ":JSON[".spec_bytes()
}

/// No `:JSON[` before `at` yields the init object.
pub open spec fn none_before(b: Seq<u8>, at: int) -> bool {
    forall|a: int| 0 <= a < at && occurs_at(b, json_marker(), a) ==> #[trigger] init_obj_at(b, a) is None
}

fn init_obj_at_exec(html: &str, at: usize) -> (r: Option<(usize, usize)>)
    requires
        html.spec_bytes().len() < usize::MAX,
        at <= html.spec_bytes().len(),
        at >= 8000 ==> is_char_boundary(html.spec_bytes(), at - 8000),
    ensures
        r matches Some((s, e)) ==> init_obj_at(html.spec_bytes(), at as int) == Some((s as int, e as int)) && s < e <= html.spec_bytes().len()
            && is_char_boundary(html.spec_bytes(), s as int) && is_char_boundary(html.spec_bytes(), e as int),
        r is None ==> init_obj_at(html.spec_bytes(), at as int) is None,
{
    proof {
        lemma_str_valid(html);
        reveal_strlit("setTimeout");
    }
    let hb = html.as_bytes();
    let ghost b = hb@;
    let ws = if at >= 8000 { at - 8000 } else { 0 };
    let p = match last_eq_brace_exec(hb, ws, at) {
        Some(p) => p,
        None => return None,
    };
    let oe = match brace_end(html, p + 1) {
        Some(e) => e,
        None => return None,
    };
    proof {
        lemma_boundary_at_ascii(b, p + 1);
        lemma_boundary_after_ascii(b, oe - 1);
    }
    let obj = str_slice(html, p + 1, oe);
    let keys = quoted_object_keys(obj);
    let ae = if hb.len() - oe > 800 { oe + 800 } else { hb.len() };
    if keys.len() < 40 {
        return None;
    }
    if !html.is_char_boundary(ae) {
        return None;
    }
    let after = vstd::slice::slice_subrange(hb, oe, ae);
    if !contains_bytes(after, "setTimeout".as_bytes()) {
        return None;
    }
    Some((p + 1, oe))
}

/// Init-JSON object literal from iframe HTML: the first `:JSON[` whose window
/// holds the object (see [`init_obj_at`]).
pub fn extract_init_json_object(html: &str) -> (r: Option<&str>)
    requires
        html.spec_bytes().len() < usize::MAX,
        forall|at: int| #![trigger occurs_at(html.spec_bytes(), json_marker(), at)]
            occurs_at(html.spec_bytes(), json_marker(), at) && at >= 8000 && none_before(html.spec_bytes(), at)
            ==> is_char_boundary(html.spec_bytes(), at - 8000),
    ensures
        match r {
            Some(o) => exists|at: int| #![trigger occurs_at(html.spec_bytes(), json_marker(), at)]
                occurs_at(html.spec_bytes(), json_marker(), at) && none_before(html.spec_bytes(), at)
                && (init_obj_at(html.spec_bytes(), at) matches Some((s, e)) && o.spec_bytes() == html.spec_bytes().subrange(s, e)),
            None => forall|at: int| occurs_at(html.spec_bytes(), json_marker(), at) ==> #[trigger] init_obj_at(html.spec_bytes(), at) is None,
        },
{
    proof {
        reveal_strlit(":JSON[");
    }
    let hb = html.as_bytes();
    let ghost b = hb@;
    let marker = ascii_bytes(":JSON[");
    assert(marker@ =~= seq![58u8, 74, 83, 79, 78, 91]);
    let mut search: usize = 0;
    while search <= hb.len()
        invariant
            b == hb@,
            b == html.spec_bytes(),
            b.len() < usize::MAX,
            marker@ == json_marker(),
            marker@ == seq![58u8, 74, 83, 79, 78, 91],
            forall|at: int| #![trigger occurs_at(b, json_marker(), at)]
                occurs_at(b, json_marker(), at) && at >= 8000 && none_before(b, at) ==> is_char_boundary(b, at - 8000),
            none_before(b, search as int),
        decreases b.len() + 1 - search,
    {
        let at = match find_from(hb, marker, search) {
            Some(at) => at,
            None => {
                assert forall|a: int| occurs_at(b, json_marker(), a) implies #[trigger] init_obj_at(b, a) is None by {
                    if a >= search {
                        assert(!occurs_at(b, marker@, a));
                    }
                }
                return None;
            },
        };
        assert(none_before(b, at as int)) by {
            assert forall|a: int| 0 <= a < at && occurs_at(b, json_marker(), a) implies #[trigger] init_obj_at(b, a) is None by {
                if a >= search {
                    assert(!occurs_at(b, marker@, a));
                }
            }
        }
        assert(occurs_at(b, json_marker(), at as int));
        match init_obj_at_exec(html, at) {
            Some((s, e)) => {
                return Some(str_slice(html, s, e));
            },
            None => {},
        }
        proof {
            assert forall|a: int| 0 <= a < at + 6 && occurs_at(b, json_marker(), a) implies #[trigger] init_obj_at(b, a) is None by {
                if a > at {
                    assert(b.subrange(at as int, at + 6)[a - at] == b[a]);
                    assert(b.subrange(a, a + 6)[0] == b[a]);
                    assert(b[a] == 58);
                    assert(false);
                }
            }
        }
        search = at + 6;
    }
    proof {
        assert forall|a: int| occurs_at(b, json_marker(), a) implies #[trigger] init_obj_at(b, a) is None by {
            assert(a + 6 <= b.len());
        }
    }
    None
}

/// Keys of the init object literal in iframe HTML.
pub fn extract_init_json_keys(html: &str) -> (r: Option<Vec<String>>)
    requires
        html.spec_bytes().len() < usize::MAX,
        forall|at: int| #![trigger occurs_at(html.spec_bytes(), json_marker(), at)]
            occurs_at(html.spec_bytes(), json_marker(), at) && at >= 8000 && none_before(html.spec_bytes(), at)
            ==> is_char_boundary(html.spec_bytes(), at - 8000),
    ensures
        match r {
            Some(keys) => exists|at: int| #![trigger occurs_at(html.spec_bytes(), json_marker(), at)]
                occurs_at(html.spec_bytes(), json_marker(), at) && none_before(html.spec_bytes(), at)
                && (init_obj_at(html.spec_bytes(), at) matches Some((s, e))
                && keys@.len() == init_keys_from(html.spec_bytes().subrange(s, e), 0).len()
                && forall|k: int| 0 <= k < keys@.len() ==> encode_utf8(#[trigger] keys@[k]@) == init_keys_from(html.spec_bytes().subrange(s, e), 0)[k]),
            None => forall|at: int| occurs_at(html.spec_bytes(), json_marker(), at) ==> #[trigger] init_obj_at(html.spec_bytes(), at) is None,
        },
{
    match extract_init_json_object(html) {
        Some(obj) => Some(quoted_object_keys(obj)),
        None => None,
    }
}

/// `keys` equal `snapshot`, in order.
pub fn keys_match_snapshot(keys: &[String], snapshot: &[&str]) -> (r: bool)
    ensures
        r == (keys@.len() == snapshot@.len() && forall|i: int| 0 <= i < keys@.len() ==> #[trigger] keys@[i]@ == snapshot@[i]@),
{
    if keys.len() != snapshot.len() {
        return false;
    }
    let mut i: usize = 0;
    while i < keys.len()
        invariant
            keys@.len() == snapshot@.len(),
            i <= keys@.len(),
            forall|j: int| 0 <= j < i ==> #[trigger] keys@[j]@ == snapshot@[j]@,
        decreases keys@.len() - i,
    {
        if !str_eq(keys[i].as_str(), snapshot[i]) {
            return false;
        }
        i = i + 1;
    }
    true
}

/// `w` stands in `b` at `i` as a whole alphanumeric word.
pub open spec fn word_at(b: Seq<u8>, w: Seq<u8>, i: int) -> bool {
    &&& occurs_at(b, w, i)
    &&& (i == 0 || !is_alnum(b[i - 1]))
    &&& (i + w.len() == b.len() || !is_alnum(b[i + w.len()]))
}

/// `w` is one of the init-key-shaped identifiers of `b` (pieces between
/// non-alphanumeric chars).
pub open spec fn has_ident(b: Seq<u8>, w: Seq<u8>) -> bool {
    init_key_shape(w) && exists|i: int| word_at(b, w, i)
}

fn has_ident_exec(b: &[u8], w: &[u8]) -> (r: bool)
    ensures
        r == has_ident(b@, w@),
{
    if !looks_like_init_key_bytes(w) {
        return false;
    }
    let mut i: usize = 0;
    while i < b.len()
        invariant
            init_key_shape(w@),
            i <= b@.len(),
            forall|j: int| 0 <= j < i ==> !word_at(b@, w@, j),
        decreases b@.len() - i,
    {
        if matches_at(b, w, i) {
            let left = i == 0 || !alnum(b[i - 1]);
            let end = i + w.len();
            let right = end == b.len() || !alnum(b[end]);
            if left && right {
                assert(word_at(b@, w@, i as int));
                return true;
            }
        }
        i = i + 1;
    }
    proof {
        assert forall|j: int| !word_at(b@, w@, j) by {
            if j >= i {
                assert(!(j + w@.len() <= b@.len()));
            }
        }
    }
    false
}

/// Init keys (in order, with repeats) that are also identifiers of `opt_js`.
pub open spec fn shared_keys(keys: Seq<Seq<char>>, opt: Seq<u8>) -> Seq<Seq<char>> {
    keys.filter(|k: Seq<char>| has_ident(opt, encode_utf8(k)))
}

/// Init keys that also occur as identifiers in the `_cf_chl_opt` source.
pub fn shared_with_opt<'a>(init_keys: &'a [String], opt_js: &str) -> (r: Vec<&'a str>)
    ensures
        r@.len() == shared_keys(init_keys@.map_values(|k: String| k@), opt_js.spec_bytes()).len(),
        forall|k: int| 0 <= k < r@.len() ==> #[trigger] r@[k]@ == shared_keys(init_keys@.map_values(|s: String| s@), opt_js.spec_bytes())[k],
{
    let ob = opt_js.as_bytes();
    let ghost keys = init_keys@.map_values(|k: String| k@);
    let ghost pred = |k: Seq<char>| has_ident(ob@, encode_utf8(k));
    let mut out: Vec<&'a str> = Vec::new();
    let mut i: usize = 0;
    assert(keys.take(0).filter(pred) =~= Seq::<Seq<char>>::empty()) by {
        reveal(Seq::filter);
    }
    while i < init_keys.len()
        invariant
            ob@ == opt_js.spec_bytes(),
            keys == init_keys@.map_values(|k: String| k@),
            pred == (|k: Seq<char>| has_ident(ob@, encode_utf8(k))),
            i <= init_keys@.len(),
            out@.len() == keys.take(i as int).filter(pred).len(),
            forall|k: int| 0 <= k < out@.len() ==> #[trigger] out@[k]@ == keys.take(i as int).filter(pred)[k],
        decreases init_keys@.len() - i,
    {
        let k = init_keys[i].as_str();
        let keep = has_ident_exec(ob, k.as_bytes());
        proof {
            reveal(Seq::filter);
            assert(keys.take(i + 1).drop_last() =~= keys.take(i as int));
            assert(keys.take(i + 1).last() == keys[i as int]);
            assert(keys[i as int] == k@);
            assert(keep == pred(keys[i as int]));
        }
        if keep {
            let ghost old_out = out@;
            out.push(k);
            proof {
                assert forall|t: int| 0 <= t < out@.len() implies #[trigger] out@[t]@ == keys.take(i + 1).filter(pred)[t] by {
                    if t < old_out.len() {
                        assert(out@[t] == old_out[t]);
                    }
                }
            }
        }
        i = i + 1;
    }
    assert(keys.take(init_keys@.len() as int) =~= keys);
    out
}

} // verus!
