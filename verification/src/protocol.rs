//! Turnstile URLs and response-shape checks: the widget iframe URL, the
//! redirected public `api.js` URL, the `/fo/` session id, and the
//! orchestrate / `/fo/` endpoints.
use vstd::prelude::*;
use rand::Rng;
use vstd::string::StringSliceAdditionalSpecFns;
use vstd::string::StrSliceExecFns;
use vstd::utf8::*;
use crate::fmt::push_str;
use crate::fo_blob::{debug_quote, debug_str};
use crate::regex_support::{regex_capture1, regex_first_capture1};
use crate::text::{
    ascii_bytes, chars_vec, contains_bytes, contains_seq, find_from, first_occurrence_from,
    lemma_boundary_after_ascii, lemma_boundary_at_ascii, lemma_encode_utf8_concat, lemma_str_valid,
    matches_at, occurs_at, starts_with_seq, str_slice, to_string, trim_start, trim_start_chars,
};

verus! {

broadcast use vstd::slice::group_slice_axioms;

pub const PUBLIC_API_JS: &'static str = "https://challenges.cloudflare.com/turnstile/v0/api.js";

pub const DEMO_SITE_KEY: &'static str = "0x4AAAAAAER49t0sMxTcief0";

pub const DEMO_HREF: &'static str = "https://solvegate.io/demo/invisible";

const ENABLE_FEEDBACK: bool = true;

const THEME: &'static str = "auto";

const LANGUAGE: &'static str = "auto";

/// Platform branch and build version of the public `api.js`.
#[derive(Debug, Clone)]
pub struct VersionInfo {
    pub branch: String,
    pub version: String,
}

/// Widget iframe URL (`turnstile/f/av0/rch`, language as a query parameter).
pub open spec fn iframe_url(branch: Seq<char>, site_key: Seq<char>, widget_id: Seq<char>) -> Seq<char> {
    "https://challenges.cloudflare.com/cdn-cgi/challenge-platform/h/"@ + branch + "/turnstile/f/av0/rch/"@
        + widget_id + "/"@ + site_key + "/"@ + "auto"@ + "/"@ + "fbE"@ + "/new/normal?lang="@ + "auto"@
}

/// Current Turnstile widget iframe (branch `g`, path `turnstile/f/av0/rch`).
pub fn turnstile_iframe_url(branch: &str, site_key: &str, widget_id: &str) -> (r: String)
    ensures
        r@ == iframe_url(branch@, site_key@, widget_id@),
{
    let feedback_param = if ENABLE_FEEDBACK { "fbE" } else { "fbD" };
    let mut s = String::new();
    push_str(&mut s, "https://challenges.cloudflare.com/cdn-cgi/challenge-platform/h/");
    push_str(&mut s, branch);
    push_str(&mut s, "/turnstile/f/av0/rch/");
    push_str(&mut s, widget_id);
    push_str(&mut s, "/");
    push_str(&mut s, site_key);
    push_str(&mut s, "/");
    push_str(&mut s, THEME);
    push_str(&mut s, "/");
    push_str(&mut s, feedback_param);
    push_str(&mut s, "/new/normal?lang=");
    push_str(&mut s, LANGUAGE);
    assert(s@ =~= iframe_url(branch@, site_key@, widget_id@));
    s
}

/// `rand::Rng::random_range(0..n)` on the thread-local generator: some index below `n`.
#[verifier::external_body]
fn random_below(n: usize) -> (r: usize)
    requires
        n > 0,
    ensures
        r < n,
{
    rand::rng().random_range(0..n)
}

/// Alphabet of generated widget ids.
pub const WIDGET_ID_ALPHABET: &'static str = "abcdefghijklmnopqrstuvwxyz0123456789";

/// The widget id that the alphabet indices `idx` spell.
pub open spec fn widget_id_of(idx: Seq<usize>) -> Seq<char> {
    Seq::new(5, |i: int| WIDGET_ID_ALPHABET@[idx[i] as int])
}

/// Five indices into [`WIDGET_ID_ALPHABET`].
pub open spec fn widget_indices_ok(idx: Seq<usize>) -> bool {
    idx.len() == 5 && forall|i: int| 0 <= i < 5 ==> #[trigger] idx[i] < 36
}

/// The widget id spelled by five alphabet indices.
pub fn widget_id_from_indices(idx: &[usize]) -> (r: String)
    requires
        widget_indices_ok(idx@),
    ensures
        r@ == widget_id_of(idx@),
{
    proof {
        reveal_strlit("abcdefghijklmnopqrstuvwxyz0123456789");
    }
    let chars = chars_vec(WIDGET_ID_ALPHABET);
    let mut r = String::new();
    let mut n: usize = 0;
    while n < 5
        invariant
            chars@ == WIDGET_ID_ALPHABET@,
            chars@.len() == 36,
            widget_indices_ok(idx@),
            n <= 5,
            r@ == widget_id_of(idx@).subrange(0, n as int),
        decreases 5 - n,
    {
        assert(idx@[n as int] < 36);
        crate::fmt::push_char(&mut r, chars[idx[n]]);
        n = n + 1;
        assert(r@ =~= widget_id_of(idx@).subrange(0, n as int));
    }
    assert(r@ =~= widget_id_of(idx@));
    r
}

/// Five random chars of [`WIDGET_ID_ALPHABET`], each drawn independently.
pub fn generate_widget_id() -> (r: String)
    ensures
        exists|idx: Seq<usize>| widget_indices_ok(idx) && r@ == widget_id_of(idx),
        r@.len() == 5,
        forall|i: int| 0 <= i < 5 ==> WIDGET_ID_ALPHABET@.contains(#[trigger] r@[i]),
{
    proof {
        reveal_strlit("abcdefghijklmnopqrstuvwxyz0123456789");
    }
    let mut idx: Vec<usize> = Vec::new();
    while idx.len() < 5
        invariant
            idx@.len() <= 5,
            forall|i: int| 0 <= i < idx@.len() ==> #[trigger] idx@[i] < 36,
        decreases 5 - idx@.len(),
    {
        idx.push(random_below(36));
    }
    let r = widget_id_from_indices(idx.as_slice());
    proof {
        assert forall|i: int| 0 <= i < 5 implies WIDGET_ID_ALPHABET@.contains(#[trigger] r@[i]) by {
            assert(r@[i] == WIDGET_ID_ALPHABET@[idx@[i] as int]);
        }
    }
    r
}

/// Why a public `api.js` URL could not be read as a versioned one.
#[derive(Debug, Clone, Copy, PartialEq, Eq, Structural)]
pub enum ApiJsUrlError {
    /// No `/turnstile/v0/` in the URL.
    MissingV0Path,
    /// Empty branch segment.
    MissingBranch,
    /// No, or an empty, version segment.
    MissingVersion,
    /// The file segment is not `api.js`.
    UnexpectedFile,
    /// Branch or version reads `api.js`: the URL was not redirected.
    NotRedirected,
    /// The response was not redirected and carries no `Location`.
    NoRedirectLocation,
    /// The `Location` could not be parsed either.
    BadLocation,
}

/// The reason each `api.js` URL error gives.
pub open spec fn api_error_text(e: ApiJsUrlError) -> Seq<char> {
    match e {
        ApiJsUrlError::MissingV0Path => "turnstile api.js url missing /turnstile/v0/"@,
        ApiJsUrlError::MissingBranch => "turnstile api.js url missing branch"@,
        ApiJsUrlError::MissingVersion => "turnstile api.js url missing version"@,
        ApiJsUrlError::UnexpectedFile => "unexpected turnstile api.js url"@,
        ApiJsUrlError::NotRedirected => "turnstile api.js url has no branch/version (not redirected?)"@,
        ApiJsUrlError::NoRedirectLocation => "turnstile api.js was not redirected to a versioned URL"@,
        ApiJsUrlError::BadLocation => "could not parse api.js Location"@,
    }
}

impl ApiJsUrlError {
    /// Human-readable reason.
    pub fn message(&self) -> (m: &'static str)
        ensures
            m@ == api_error_text(*self),
    {
        match self {
            ApiJsUrlError::MissingV0Path => "turnstile api.js url missing /turnstile/v0/",
            ApiJsUrlError::MissingBranch => "turnstile api.js url missing branch",
            ApiJsUrlError::MissingVersion => "turnstile api.js url missing version",
            ApiJsUrlError::UnexpectedFile => "unexpected turnstile api.js url",
            ApiJsUrlError::NotRedirected => "turnstile api.js url has no branch/version (not redirected?)",
            ApiJsUrlError::NoRedirectLocation => "turnstile api.js was not redirected to a versioned URL",
            ApiJsUrlError::BadLocation => "could not parse api.js Location",
        }
    }

    /// The full report for the URL `url` (and, for a bad `Location`, the location `location`):
    /// the reason, then `: {url}`; for a bad location, `could not parse api.js Location {location:?} from {url}`.
    pub fn detail(&self, url: &str, location: &str) -> (s: String)
        ensures
            *self == ApiJsUrlError::BadLocation ==> s@ == "could not parse api.js Location "@ + debug_str(location@) + " from "@
                + url@,
            *self != ApiJsUrlError::BadLocation ==> s@ == api_error_text(*self) + ": "@ + url@,
    {
        let mut s = String::new();
        match self {
            ApiJsUrlError::BadLocation => {
                push_str(&mut s, "could not parse api.js Location ");
                let q = debug_quote(location);
                push_str(&mut s, q.as_str());
                push_str(&mut s, " from ");
                push_str(&mut s, url);
            },
            _ => {
                push_str(&mut s, self.message());
                push_str(&mut s, ": ");
                push_str(&mut s, url);
            },
        }
        s
    }
}

/// Index of the first `c` in `b` at or after `from`, or the end.
#[verifier::opaque]
pub open spec fn next_or_end(b: Seq<u8>, c: u8, from: int) -> int {
    match first_occurrence_from(b, seq![c], from) {
        Some(j) => j,
        None => b.len() as int,
    }
}

/// End of the piece `b[from..to]` before its first `?`.
#[verifier::opaque]
pub open spec fn cut_query(b: Seq<u8>, from: int, to: int) -> int {
    let q = next_or_end(b, 63, from);
    if q < to {
        q
    } else {
        to
    }
}

/// Branch and version bytes of `.../turnstile/v0/{branch}/{version}/api.js`.
#[verifier::opaque]
pub open spec fn api_js_url_parts(u: Seq<u8>) -> Result<(Seq<u8>, Seq<u8>), ApiJsUrlError> {
    let v0 = "/turnstile/v0/".spec_bytes();
    let api = "api.js".spec_bytes();
    match first_occurrence_from(u, v0, 0) {
        None => Err(ApiJsUrlError::MissingV0Path),
        Some(idx) => {
            let base = idx + v0.len();
            let e0 = next_or_end(u, 47, base);
            let branch = u.subrange(base, e0);
            if branch.len() == 0 {
                Err(ApiJsUrlError::MissingBranch)
            } else if e0 >= u.len() {
                Err(ApiJsUrlError::MissingVersion)
            } else {
                let e1 = next_or_end(u, 47, e0 + 1);
                if e1 == e0 + 1 {
                    Err(ApiJsUrlError::MissingVersion)
                } else {
                    let version = u.subrange(e0 + 1, cut_query(u, e0 + 1, e1));
                    let file_name = if e1 < u.len() {
                        u.subrange(e1 + 1, cut_query(u, e1 + 1, next_or_end(u, 47, e1 + 1)))
                    } else {
                        Seq::empty()
                    };
                    if file_name != api {
                        Err(ApiJsUrlError::UnexpectedFile)
                    } else if branch == api || version == api {
                        Err(ApiJsUrlError::NotRedirected)
                    } else {
                        Ok((branch, version))
                    }
                }
            }
        },
    }
}

/// `info` holds exactly the given branch and version bytes.
pub open spec fn version_info_is(info: VersionInfo, branch: Seq<u8>, version: Seq<u8>) -> bool {
    encode_utf8(info.branch@) == branch && encode_utf8(info.version@) == version
}

fn next_or_end_exec(b: &[u8], c: &[u8], from: usize) -> (r: usize)
    requires
        c@.len() == 1,
        from <= b@.len(),
    ensures
        r as int == next_or_end(b@, c@[0], from as int),
        from <= r <= b@.len(),
        r < b@.len() ==> b@[r as int] == c@[0],
{
    reveal(next_or_end);
    assert(c@ =~= seq![c@[0]]);
    match find_from(b, c, from) {
        Some(j) => {
            assert(b@.subrange(j as int, j + 1)[0] == b@[j as int]);
            j
        },
        None => b.len(),
    }
}

fn cut_query_exec(b: &[u8], q: &[u8], from: usize, to: usize) -> (r: usize)
    requires
        q@ == seq![63u8],
        from <= to <= b@.len(),
    ensures
        r as int == cut_query(b@, from as int, to as int),
        from <= r <= to,
        r < to ==> b@[r as int] == 63,
{
    reveal(cut_query);
    let e = next_or_end_exec(b, q, from);
    if e < to {
        e
    } else {
        to
    }
}

/// `b[start..end]` equals `needle`.
fn range_is(b: &[u8], start: usize, end: usize, needle: &[u8]) -> (r: bool)
    requires
        start <= end <= b@.len(),
    ensures
        r == (b@.subrange(start as int, end as int) == needle@),
{
    if end - start != needle.len() {
        return false;
    }
    let m = matches_at(b, needle, start);
    proof {
        if m {
            assert(b@.subrange(start as int, end as int) =~= needle@);
        }
    }
    m
}

/// Parse the redirected public `api.js` URL:
/// `https://challenges.cloudflare.com/turnstile/v0/{branch}/{version}/api.js`
#[verifier::rlimit(60)]
pub fn parse_turnstile_api_js_url(url: &str) -> (r: Result<VersionInfo, ApiJsUrlError>)
    ensures
        match api_js_url_parts(url.spec_bytes()) {
            Ok((b, v)) => r matches Ok(info) && version_info_is(info, b, v),
            Err(e) => r matches Err(e2) && e2 == e,
        },
{
    proof {
        reveal(api_js_url_parts);
        reveal_strlit("/turnstile/v0/");
        reveal_strlit("api.js");
        reveal_strlit("/");
        reveal_strlit("?");
        lemma_str_valid(url);
    }
    let ub = url.as_bytes();
    let ghost u = ub@;
    let needle = ascii_bytes("/turnstile/v0/");
    let slash = ascii_bytes("/");
    let q = ascii_bytes("?");
    let api = ascii_bytes("api.js");
    assert(q@ =~= seq![63u8]);
    let idx = match find_from(ub, needle, 0) {
        Some(i) => i,
        None => return Err(ApiJsUrlError::MissingV0Path),
    };
    assert(occurs_at(u, needle@, idx as int));
    assert(needle@.len() == 14);
    assert(ub@.len() == ub.len());
    assert(idx + 14 <= ub.len());
    let base = idx + 14;
    proof {
        assert(u.subrange(idx as int, idx + 14)[13] == u[base - 1]);
        lemma_boundary_after_ascii(u, base - 1);
    }
    let e0 = next_or_end_exec(ub, slash, base);
    if e0 == base {
        return Err(ApiJsUrlError::MissingBranch);
    }
    if e0 >= ub.len() {
        return Err(ApiJsUrlError::MissingVersion);
    }
    let e1 = next_or_end_exec(ub, slash, e0 + 1);
    if e1 == e0 + 1 {
        return Err(ApiJsUrlError::MissingVersion);
    }
    let vend = cut_query_exec(ub, q, e0 + 1, e1);
    let (fstart, fend) = if e1 < ub.len() {
        let e2 = next_or_end_exec(ub, slash, e1 + 1);
        (e1 + 1, cut_query_exec(ub, q, e1 + 1, e2))
    } else {
        (0, 0)
    };
    proof {
        if !(e1 < ub.len()) {
            assert(u.subrange(0, 0) =~= Seq::<u8>::empty());
        }
    }
    if !range_is(ub, fstart, fend, api) {
        return Err(ApiJsUrlError::UnexpectedFile);
    }
    if range_is(ub, base, e0, api) || range_is(ub, e0 + 1, vend, api) {
        return Err(ApiJsUrlError::NotRedirected);
    }
    proof {
        lemma_boundary_at_ascii(u, e0 as int);
        lemma_boundary_after_ascii(u, e0 as int);
        lemma_boundary_at_ascii(u, vend as int);
    }
    let branch = to_string(str_slice(url, base, e0));
    let version = to_string(str_slice(url, e0 + 1, vend));
    Ok(VersionInfo { branch, version })
}

/// A `Location` made absolute against `challenges.cloudflare.com`.
pub open spec fn absolute_location(l: Seq<u8>) -> Seq<u8> {
    if starts_with_seq(l, "https://".spec_bytes()) || starts_with_seq(l, "http://".spec_bytes()) {
        l
    } else if l.len() > 0 && l[0] == 47 {
        "https://challenges.cloudflare.com".spec_bytes() + l
    } else {
        "https://challenges.cloudflare.com/turnstile/v0/".spec_bytes() + l
    }
}

/// `prefix` followed by `s`, as an owned string.
fn prefixed(prefix: &str, s: &str) -> (r: String)
    ensures
        encode_utf8(r@) == prefix.spec_bytes() + s.spec_bytes(),
{
    let mut out = String::new();
    push_str(&mut out, prefix);
    push_str(&mut out, s);
    proof {
        assert(out@ =~= prefix@ + s@);
        lemma_encode_utf8_concat(prefix@, s@);
    }
    out
}

/// [`absolute_location`] of `loc`, as an owned string.
fn absolute_location_string(loc: &str) -> (r: String)
    ensures
        encode_utf8(r@) == absolute_location(loc.spec_bytes()),
{
    proof {
        reveal_strlit("https://");
        reveal_strlit("http://");
    }
    let lb = loc.as_bytes();
    if matches_at(lb, ascii_bytes("https://"), 0) || matches_at(lb, ascii_bytes("http://"), 0) {
        to_string(loc)
    } else if lb.len() > 0 && lb[0] == 47 {
        prefixed("https://challenges.cloudflare.com", loc)
    } else {
        prefixed("https://challenges.cloudflare.com/turnstile/v0/", loc)
    }
}

/// Branch and version bytes of an `api.js` response: from its final URL, else from its
/// `Location` made absolute.
pub open spec fn api_js_response_parts(url: Seq<u8>, location: Option<&str>) -> Result<(Seq<u8>, Seq<u8>), ApiJsUrlError> {
    match api_js_url_parts(url) {
        Ok(p) => Ok(p),
        Err(_) => match location {
            Some(l) if l@.len() > 0 => match api_js_url_parts(absolute_location(l.spec_bytes())) {
                Ok(p) => Ok(p),
                Err(_) => Err(ApiJsUrlError::BadLocation),
            },
            _ => Err(ApiJsUrlError::NoRedirectLocation),
        },
    }
}

/// Resolve the public `api.js` version from the final URL and/or a 302 Location.
pub fn parse_turnstile_api_js_response(url: &str, location: Option<&str>) -> (r: Result<VersionInfo, ApiJsUrlError>)
    ensures
        match api_js_response_parts(url.spec_bytes(), location) {
            Ok((b, v)) => r matches Ok(info) && version_info_is(info, b, v),
            Err(e) => r matches Err(x) && x == e,
        },
{
    let first = parse_turnstile_api_js_url(url);
    if first.is_ok() {
        return first;
    }
    let loc = match location {
        Some(l) => l,
        None => return Err(ApiJsUrlError::NoRedirectLocation),
    };
    if loc.is_empty() {
        return Err(ApiJsUrlError::NoRedirectLocation);
    }
    let absolute = absolute_location_string(loc);
    match parse_turnstile_api_js_url(absolute.as_str()) {
        Ok(info) => Ok(info),
        Err(_) => Err(ApiJsUrlError::BadLocation),
    }
}

/// Pattern of the inline `/fo/{session}/` path; group 1 is the session id.
pub const FO_SESSION_PATTERN: &'static str = "/fo/([0-9]+:[0-9]+:[A-Za-z0-9_.-]+)";

/// Session id from the inline `/fo/{session}/` path, if present.
pub fn extract_fo_session(html: &str) -> (r: Option<String>)
    ensures
        match regex_first_capture1(FO_SESSION_PATTERN@, html@) {
            Some(s) => r matches Some(t) && t@ == s,
            None => r is None,
        },
{
    regex_capture1(FO_SESSION_PATTERN, html)
}

/// `https://{zone}/cdn-cgi/challenge-platform/h/{branch}/fo/{session}/{ray}/{ch}`.
pub open spec fn fo_blob_url_spec(zone: Seq<char>, branch: Seq<char>, session: Seq<char>, c_ray: Seq<char>, ch: Seq<char>) -> Seq<char> {
    "https://"@ + zone + "/cdn-cgi/challenge-platform/h/"@ + branch + "/fo/"@ + session + "/"@ + c_ray + "/"@ + ch
}

pub fn fo_blob_url(zone: &str, branch: &str, session: &str, c_ray: &str, ch: &str) -> (r: String)
    ensures
        r@ == fo_blob_url_spec(zone@, branch@, session@, c_ray@, ch@),
{
    let mut s = String::new();
    push_str(&mut s, "https://");
    push_str(&mut s, zone);
    push_str(&mut s, "/cdn-cgi/challenge-platform/h/");
    push_str(&mut s, branch);
    push_str(&mut s, "/fo/");
    push_str(&mut s, session);
    push_str(&mut s, "/");
    push_str(&mut s, c_ray);
    push_str(&mut s, "/");
    push_str(&mut s, ch);
    assert(s@ =~= fo_blob_url_spec(zone@, branch@, session@, c_ray@, ch@));
    s
}

/// The body reads as JavaScript: after leading white space it is non-empty,
/// does not open with `<`, and holds `function`, `=>` or `window.`.
pub open spec fn javascript_shape(body: Seq<char>) -> bool {
    let t = trim_start_chars(body);
    &&& t.len() > 0
    &&& t[0] != '<'
    &&& (contains_seq(encode_utf8(t), "function".spec_bytes()) || contains_seq(encode_utf8(t), "=>".spec_bytes())
        || contains_seq(encode_utf8(t), "window.".spec_bytes()))
}

pub fn looks_like_javascript(body: &str) -> (r: bool)
    ensures
        r == javascript_shape(body@),
{
    let t = trim_start(body);
    if t.is_empty() {
        return false;
    }
    if t.get_char(0) == '<' {
        return false;
    }
    let tb = t.as_bytes();
    contains_bytes(tb, "function".as_bytes()) || contains_bytes(tb, "=>".as_bytes()) || contains_bytes(tb, "window.".as_bytes())
}

/// JavaScript that embeds `"lang":"`: the orchestrate VM this crate disassembles.
pub open spec fn orchestrate_vm_shape(body: Seq<char>) -> bool {
    javascript_shape(body) && contains_seq(encode_utf8(body), "\"lang\":\"".spec_bytes())
}

/// The VM this crate disassembles embeds `"lang":"..."` in orchestrate JS;
/// current bootstrap JS on the orchestrate URL does not.
pub fn looks_like_orchestrate_vm(body: &str) -> (r: bool)
    ensures
        r == orchestrate_vm_shape(body@),
{
    looks_like_javascript(body) && contains_bytes(body.as_bytes(), "\"lang\":\"".as_bytes())
}

/// `https://{zone}/cdn-cgi/challenge-platform/h/{branch}/orchestrate/chl_api/v1?ray={ray}&lang=auto`.
pub open spec fn orchestrate_url_spec(zone: Seq<char>, branch: Seq<char>, c_ray: Seq<char>) -> Seq<char> {
    "https://"@ + zone + "/cdn-cgi/challenge-platform/h/"@ + branch + "/orchestrate/chl_api/v1?ray="@ + c_ray + "&lang=auto"@
}

pub fn orchestrate_url(zone: &str, branch: &str, c_ray: &str) -> (r: String)
    ensures
        r@ == orchestrate_url_spec(zone@, branch@, c_ray@),
{
    let mut s = String::new();
    push_str(&mut s, "https://");
    push_str(&mut s, zone);
    push_str(&mut s, "/cdn-cgi/challenge-platform/h/");
    push_str(&mut s, branch);
    push_str(&mut s, "/orchestrate/chl_api/v1?ray=");
    push_str(&mut s, c_ray);
    push_str(&mut s, "&lang=auto");
    assert(s@ =~= orchestrate_url_spec(zone@, branch@, c_ray@));
    s
}

} // verus!
