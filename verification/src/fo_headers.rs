//! `/fo/` request shape: the iframe XHR as headed Chrome sends it, next to what
//! this crate sends, and a check of a captured request-header list.
use vstd::prelude::*;
use vstd::string::StringSliceAdditionalSpecFns;
use vstd::utf8::*;
use crate::text::{contains_bytes, contains_seq, str_eq, to_string};

verus! {

/// First-attempt `/fo/` XHR shape.
#[derive(Debug, Clone, Copy)]
pub struct FoPostShape {
    pub method: &'static str,
    pub content_type: &'static str,
    pub cf_chl_header: &'static str,
    pub cf_chl_ra_header: &'static str,
    pub cf_chl_ra_first: &'static str,
    pub accept: &'static str,
    pub origin_host: &'static str,
    pub sec_fetch_site: &'static str,
    pub sec_fetch_mode: &'static str,
    pub sec_fetch_dest: &'static str,
    pub referer_is_iframe: bool,
    /// Iframe sets these via `setRequestHeader`. Content-Type is the XHR default.
    pub xhr_set_header_names: [&'static str; 2],
}

/// The shape both sides share.
pub open spec fn is_live_fo_post(s: FoPostShape) -> bool {
    &&& s.method@ == "POST"@
    &&& s.content_type@ == "text/plain;charset=UTF-8"@
    &&& s.cf_chl_header@ == "cf-chl"@
    &&& s.cf_chl_ra_header@ == "cf-chl-ra"@
    &&& s.cf_chl_ra_first@ == "0"@
    &&& s.accept@ == "*/*"@
    &&& s.origin_host@ == "challenges.cloudflare.com"@
    &&& s.sec_fetch_site@ == "same-origin"@
    &&& s.sec_fetch_mode@ == "cors"@
    &&& s.sec_fetch_dest@ == "empty"@
    &&& s.referer_is_iframe
}

fn live_fo_post() -> (s: FoPostShape)
    ensures
        is_live_fo_post(s),
{
    FoPostShape {
        method: "POST",
        content_type: "text/plain;charset=UTF-8",
        cf_chl_header: "cf-chl",
        cf_chl_ra_header: "cf-chl-ra",
        cf_chl_ra_first: "0",
        accept: "*/*",
        origin_host: "challenges.cloudflare.com",
        sec_fetch_site: "same-origin",
        sec_fetch_mode: "cors",
        sec_fetch_dest: "empty",
        referer_is_iframe: true,
        xhr_set_header_names: ["cf-chl", "cf-chl-ra"],
    }
}

/// The compared fields of a shape, in report order.
pub open spec fn post_fields(s: FoPostShape) -> Seq<Seq<char>> {
    seq![
        s.method@,
        s.content_type@,
        s.cf_chl_header@,
        s.cf_chl_ra_header@,
        s.cf_chl_ra_first@,
        s.accept@,
        s.origin_host@,
        s.sec_fetch_site@,
        s.sec_fetch_mode@,
        s.sec_fetch_dest@,
    ]
}

/// The names of the compared fields, in report order.
pub open spec fn post_field_names() -> Seq<Seq<char>> {
    seq![
        "method"@,
        "content_type"@,
        "cf_chl"@,
        "cf_chl_ra"@,
        "cf_chl_ra_first"@,
        "accept"@,
        "origin_host"@,
        "sec_fetch_site"@,
        "sec_fetch_mode"@,
        "sec_fetch_dest"@,
    ]
}

/// The fields of Chrome's first `/fo/` XHR, as captured.
#[verifier::opaque]
pub open spec fn chrome_post_fields() -> Seq<Seq<char>> {
    seq![
        "POST"@,
        "text/plain;charset=UTF-8"@,
        "cf-chl"@,
        "cf-chl-ra"@,
        "0"@,
        "*/*"@,
        "challenges.cloudflare.com"@,
        "same-origin"@,
        "cors"@,
        "empty"@,
    ]
}

/// The fields of this crate's `/fo/` request.
#[verifier::opaque]
pub open spec fn crate_post_fields() -> Seq<Seq<char>> {
    seq![
        "POST"@,
        "text/plain;charset=UTF-8"@,
        "cf-chl"@,
        "cf-chl-ra"@,
        "0"@,
        "*/*"@,
        "challenges.cloudflare.com"@,
        "same-origin"@,
        "cors"@,
        "empty"@,
    ]
}

/// First-attempt `/fo/` XHR as observed from headed Chrome and the iframe source.
pub fn chrome_fo_post() -> (s: FoPostShape)
    ensures
        is_live_fo_post(s),
        post_fields(s) == chrome_post_fields(),
{
    let s = live_fo_post();
    proof {
        reveal(chrome_post_fields);
        assert(post_fields(s) =~= chrome_post_fields());
    }
    s
}

/// What this crate's `/fo/` request sends.
pub fn crate_fo_post() -> (s: FoPostShape)
    ensures
        is_live_fo_post(s),
        post_fields(s) == crate_post_fields(),
{
    let s = live_fo_post();
    proof {
        reveal(crate_post_fields);
        assert(post_fields(s) =~= crate_post_fields());
    }
    s
}

#[derive(Debug, Clone)]
pub struct HeaderFieldDiff {
    pub field: &'static str,
    pub chrome: String,
    pub crate_value: String,
    pub same: bool,
}

#[derive(Debug, Clone)]
pub struct FoHeaderCompare {
    pub all_match: bool,
    pub fields: Vec<HeaderFieldDiff>,
    pub note: &'static str,
}

fn diff_row(field: &'static str, chrome: &str, crate_value: &str) -> (d: HeaderFieldDiff)
    ensures
        d.field == field,
        d.chrome@ == chrome@,
        d.crate_value@ == crate_value@,
        d.same == (chrome@ == crate_value@),
{
    HeaderFieldDiff { field, chrome: to_string(chrome), crate_value: to_string(crate_value), same: str_eq(chrome, crate_value) }
}

/// Field by field, Chrome's `/fo/` XHR against this crate's request.
pub fn compare_chrome_and_crate_fo_post() -> (r: FoHeaderCompare)
    ensures
        r.fields@.len() == 10,
        forall|i: int|
            0 <= i < 10 ==> (#[trigger] r.fields@[i]).field@ == post_field_names()[i] && r.fields@[i].chrome@
                == chrome_post_fields()[i] && r.fields@[i].crate_value@ == crate_post_fields()[i],
        forall|i: int| 0 <= i < 10 ==> (#[trigger] r.fields@[i]).same == (r.fields@[i].chrome@ == r.fields@[i].crate_value@),
        r.all_match == (forall|i: int| 0 <= i < 10 ==> (#[trigger] r.fields@[i]).same),
        r.all_match,
{
    let c = chrome_fo_post();
    let k = crate_fo_post();
    let mut fields: Vec<HeaderFieldDiff> = Vec::new();
    fields.push(diff_row("method", c.method, k.method));
    fields.push(diff_row("content_type", c.content_type, k.content_type));
    fields.push(diff_row("cf_chl", c.cf_chl_header, k.cf_chl_header));
    fields.push(diff_row("cf_chl_ra", c.cf_chl_ra_header, k.cf_chl_ra_header));
    fields.push(diff_row("cf_chl_ra_first", c.cf_chl_ra_first, k.cf_chl_ra_first));
    fields.push(diff_row("accept", c.accept, k.accept));
    fields.push(diff_row("origin_host", c.origin_host, k.origin_host));
    fields.push(diff_row("sec_fetch_site", c.sec_fetch_site, k.sec_fetch_site));
    fields.push(diff_row("sec_fetch_mode", c.sec_fetch_mode, k.sec_fetch_mode));
    fields.push(diff_row("sec_fetch_dest", c.sec_fetch_dest, k.sec_fetch_dest));
    proof {
        assert forall|i: int|
            0 <= i < 10 implies (#[trigger] fields@[i]).field@ == post_field_names()[i] && fields@[i].chrome@
                == chrome_post_fields()[i] && fields@[i].crate_value@ == crate_post_fields()[i] by {
            assert(fields@[i].chrome@ == post_fields(c)[i]);
            assert(fields@[i].crate_value@ == post_fields(k)[i]);
        }
    }
    let ghost rows = fields@;
    let mut all_match = true;
    let mut i: usize = 0;
    while i < fields.len()
        invariant
            fields@.len() == 10,
            fields@ == rows,
            i <= 10,
            forall|j: int| 0 <= j < 10 ==> (#[trigger] fields@[j]).same,
            all_match == (forall|j: int| 0 <= j < i ==> (#[trigger] fields@[j]).same),
        decreases 10 - i,
    {
        all_match = all_match && fields[i].same;
        i = i + 1;
    }
    FoHeaderCompare {
        all_match,
        fields,
        note: "crate matches Chrome XHR header names; Chrome POSTs twice to the same /fo/ URL with priority u=1, i (probe uses u=2); live 400s without the wZ body",
    }
}

/// ASCII lower-casing of one byte.
pub open spec fn ascii_lower(c: u8) -> u8 {
    if 65 <= c <= 90 {
        (c + 32) as u8
    } else {
        c
    }
}

/// `str::eq_ignore_ascii_case` on bytes.
pub open spec fn eq_ignore_ascii_case(a: Seq<u8>, b: Seq<u8>) -> bool {
    a.len() == b.len() && forall|i: int| 0 <= i < a.len() ==> ascii_lower(#[trigger] a[i]) == ascii_lower(b[i])
}

fn eq_ignore_ascii_case_exec(a: &[u8], b: &[u8]) -> (r: bool)
    ensures
        r == eq_ignore_ascii_case(a@, b@),
{
    if a.len() != b.len() {
        return false;
    }
    let mut i: usize = 0;
    while i < a.len()
        invariant
            a@.len() == b@.len(),
            i <= a@.len(),
            forall|j: int| 0 <= j < i ==> ascii_lower(#[trigger] a@[j]) == ascii_lower(b@[j]),
        decreases a@.len() - i,
    {
        let x = a[i];
        let y = b[i];
        let lx = if 65 <= x && x <= 90 { x + 32 } else { x };
        let ly = if 65 <= y && y <= 90 { y + 32 } else { y };
        if lx != ly {
            assert(ascii_lower(a@[i as int]) != ascii_lower(b@[i as int]));
            return false;
        }
        i = i + 1;
    }
    true
}

/// Value of the first header (in list order) whose name equals `name` ignoring ASCII case.
pub open spec fn header_value(h: Seq<(String, String)>, name: Seq<u8>, from: int) -> Option<Seq<u8>>
    decreases h.len() - from,
{
    if from < 0 || from >= h.len() {
        None
    } else if eq_ignore_ascii_case(encode_utf8(h[from].0@), name) {
        Some(encode_utf8(h[from].1@))
    } else {
        header_value(h, name, from + 1)
    }
}

fn find_header<'a>(h: &'a [(String, String)], name: &str) -> (r: Option<&'a str>)
    ensures
        match header_value(h@, name.spec_bytes(), 0) {
            Some(v) => r matches Some(s) && s.spec_bytes() == v,
            None => r is None,
        },
{
    let nb = name.as_bytes();
    let mut i: usize = 0;
    while i < h.len()
        invariant
            nb@ == name.spec_bytes(),
            i <= h@.len(),
            header_value(h@, nb@, 0) == header_value(h@, nb@, i as int),
        decreases h@.len() - i,
    {
        if eq_ignore_ascii_case_exec(h[i].0.as_str().as_bytes(), nb) {
            return Some(h[i].1.as_str());
        }
        i = i + 1;
    }
    None
}

/// `v` is present and satisfies `ok`.
pub open spec fn present_and(v: Option<Seq<u8>>, ok: spec_fn(Seq<u8>) -> bool) -> bool {
    match v {
        Some(x) => ok(x),
        None => false,
    }
}

/// The seven per-header checks of a first `/fo/` POST.
pub open spec fn header_rows(h: Seq<(String, String)>) -> Seq<(&'static str, bool)> {
    seq![
        ("content-type", present_and(header_value(h, "content-type".spec_bytes(), 0), |v: Seq<u8>| eq_ignore_ascii_case(v, "text/plain;charset=UTF-8".spec_bytes()))),
        ("cf-chl", present_and(header_value(h, "cf-chl".spec_bytes(), 0), |v: Seq<u8>| v.len() > 0)),
        ("cf-chl-ra", present_and(header_value(h, "cf-chl-ra".spec_bytes(), 0), |v: Seq<u8>| v == "0".spec_bytes())),
        ("sec-fetch-site", present_and(header_value(h, "sec-fetch-site".spec_bytes(), 0), |v: Seq<u8>| v == "same-origin".spec_bytes())),
        ("sec-fetch-mode", present_and(header_value(h, "sec-fetch-mode".spec_bytes(), 0), |v: Seq<u8>| v == "cors".spec_bytes())),
        ("sec-fetch-dest", present_and(header_value(h, "sec-fetch-dest".spec_bytes(), 0), |v: Seq<u8>| v == "empty".spec_bytes())),
        ("origin", present_and(header_value(h, "origin".spec_bytes(), 0), |v: Seq<u8>| contains_seq(v, "challenges.cloudflare.com".spec_bytes()))),
    ]
}

/// Check a captured request-header list (name, value) of the first `/fo/`
/// POST against Chrome's shape; names match ignoring ASCII case, and the first
/// matching entry in list order wins. For a header map, pass its entries in the
/// map's iteration order (a `BTreeMap` gives them sorted by name, each name once).
pub fn chrome_extra_headers_match_shape(headers: &[(String, String)]) -> (rows: Vec<(&'static str, bool)>)
    ensures
        rows@ == header_rows(headers@),
{
    let s = chrome_fo_post();
    let mut rows: Vec<(&'static str, bool)> = Vec::new();
    let ct = match find_header(headers, "content-type") {
        Some(v) => eq_ignore_ascii_case_exec(v.as_bytes(), s.content_type.as_bytes()),
        None => false,
    };
    rows.push(("content-type", ct));
    let chl = match find_header(headers, "cf-chl") {
        Some(v) => v.as_bytes().len() > 0,
        None => false,
    };
    rows.push(("cf-chl", chl));
    let ra = match find_header(headers, "cf-chl-ra") {
        Some(v) => crate::text::bytes_eq(v.as_bytes(), s.cf_chl_ra_first.as_bytes()),
        None => false,
    };
    rows.push(("cf-chl-ra", ra));
    let site = match find_header(headers, "sec-fetch-site") {
        Some(v) => crate::text::bytes_eq(v.as_bytes(), s.sec_fetch_site.as_bytes()),
        None => false,
    };
    rows.push(("sec-fetch-site", site));
    let mode = match find_header(headers, "sec-fetch-mode") {
        Some(v) => crate::text::bytes_eq(v.as_bytes(), s.sec_fetch_mode.as_bytes()),
        None => false,
    };
    rows.push(("sec-fetch-mode", mode));
    let dest = match find_header(headers, "sec-fetch-dest") {
        Some(v) => crate::text::bytes_eq(v.as_bytes(), s.sec_fetch_dest.as_bytes()),
        None => false,
    };
    rows.push(("sec-fetch-dest", dest));
    let origin = match find_header(headers, "origin") {
        Some(v) => contains_bytes(v.as_bytes(), s.origin_host.as_bytes()),
        None => false,
    };
    rows.push(("origin", origin));
    assert(rows@ =~= header_rows(headers@));
    rows
}

} // verus!
