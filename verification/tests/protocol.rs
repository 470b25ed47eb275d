use cf::protocol::{
    extract_fo_session, fo_blob_url, generate_widget_id, looks_like_javascript,
    looks_like_orchestrate_vm, orchestrate_url, parse_turnstile_api_js_response,
    parse_turnstile_api_js_url, turnstile_iframe_url, ApiJsUrlError, DEMO_SITE_KEY, PUBLIC_API_JS,
    WIDGET_ID_ALPHABET,
};

#[test]
fn parse_current_public_api_js_url() {
    let info = parse_turnstile_api_js_url(
        "https://challenges.cloudflare.com/turnstile/v0/g/aae2b9a1c261/api.js",
    )
    .unwrap();
    assert_eq!(info.branch, "g");
    assert_eq!(info.version, "aae2b9a1c261");
}

#[test]
fn parse_api_js_url_rejects_unversioned() {
    assert!(parse_turnstile_api_js_url("https://challenges.cloudflare.com/turnstile/v0/api.js").is_err());
}

#[test]
fn iframe_url_uses_rch_query_lang() {
    let url = turnstile_iframe_url("g", "0x4AAAAAAER49t0sMxTcief0", "abc12");
    assert!(url.contains("/h/g/turnstile/f/av0/rch/abc12/"));
    assert!(url.contains("?lang=auto"));
    assert!(!url.contains("/if/ov2/"));
    assert!(!url.contains("/rcv/"));
    assert!(!url.ends_with("/auto/"));
}

#[test]
fn fo_session_from_inline_script() {
    let html = r#"x="/fo/3582283294:1787313908:APFDW9U4h3BzonFjglK0KtrPIGcFM_zQT0e9v8HCAcs/"+ray"#;
    assert_eq!(
        extract_fo_session(html).as_deref(),
        Some("3582283294:1787313908:APFDW9U4h3BzonFjglK0KtrPIGcFM_zQT0e9v8HCAcs")
    );
    assert_eq!(extract_fo_session("/fo/abc/"), None);
}

#[test]
fn html_is_not_javascript() {
    assert!(!looks_like_javascript("<!DOCTYPE html><html>"));
    assert!(looks_like_javascript("function hello(){}"));
}

#[test]
fn parse_api_js_from_relative_location() {
    let info = parse_turnstile_api_js_response(
        "https://challenges.cloudflare.com/turnstile/v0/api.js",
        Some("/turnstile/v0/g/aae2b9a1c261/api.js"),
    )
    .unwrap();
    assert_eq!(info.branch, "g");
    assert_eq!(info.version, "aae2b9a1c261");
}

#[test]
fn current_orchestrate_bootstrap_is_not_the_vm() {
    let body = r#"window._cf_chl_opt.ZnPJH0="challenges.cloudflare.com";window._cf_chl_opt.RayZr1={};"#;
    assert!(looks_like_javascript(body));
    assert!(!looks_like_orchestrate_vm(body));
    assert!(looks_like_orchestrate_vm(r#"window.x={"lang":"auto"};"#));
}

#[test]
fn iframe_url_exact() {
    assert_eq!(
        turnstile_iframe_url("g", DEMO_SITE_KEY, "abc12"),
        "https://challenges.cloudflare.com/cdn-cgi/challenge-platform/h/g/turnstile/f/av0/rch/abc12/0x4AAAAAAER49t0sMxTcief0/auto/fbE/new/normal?lang=auto"
    );
}

#[test]
fn api_js_url_errors_by_kind() {
    assert_eq!(parse_turnstile_api_js_url("https://example.com/api.js").err(), Some(ApiJsUrlError::MissingV0Path));
    assert_eq!(parse_turnstile_api_js_url("https://x/turnstile/v0//v/api.js").err(), Some(ApiJsUrlError::MissingBranch));
    assert_eq!(parse_turnstile_api_js_url("https://x/turnstile/v0/g").err(), Some(ApiJsUrlError::MissingVersion));
    assert_eq!(parse_turnstile_api_js_url("https://x/turnstile/v0/g//api.js").err(), Some(ApiJsUrlError::MissingVersion));
    assert_eq!(parse_turnstile_api_js_url("https://x/turnstile/v0/g/v1/other.js").err(), Some(ApiJsUrlError::UnexpectedFile));
    assert_eq!(parse_turnstile_api_js_url(PUBLIC_API_JS).err(), Some(ApiJsUrlError::MissingVersion));
    assert_eq!(parse_turnstile_api_js_url("https://x/turnstile/v0/api.js/v1/api.js").err(), Some(ApiJsUrlError::NotRedirected));
    let info = parse_turnstile_api_js_url("https://x/turnstile/v0/b/v2?x=1/api.js?y").unwrap();
    assert_eq!(info.branch, "b");
    assert_eq!(info.version, "v2");
    assert_eq!(parse_turnstile_api_js_response(PUBLIC_API_JS, None).err(), Some(ApiJsUrlError::NoRedirectLocation));
    assert_eq!(parse_turnstile_api_js_response(PUBLIC_API_JS, Some("")).err(), Some(ApiJsUrlError::NoRedirectLocation));
    assert_eq!(parse_turnstile_api_js_response(PUBLIC_API_JS, Some("nope")).err(), Some(ApiJsUrlError::BadLocation));
    let rel = parse_turnstile_api_js_response(PUBLIC_API_JS, Some("b/abc/api.js")).unwrap();
    assert_eq!((rel.branch.as_str(), rel.version.as_str()), ("b", "abc"));
}

#[test]
fn endpoint_urls_exact() {
    assert_eq!(
        fo_blob_url("z.example", "b", "1:2:s", "ray", "ch"),
        "https://z.example/cdn-cgi/challenge-platform/h/b/fo/1:2:s/ray/ch"
    );
    assert_eq!(
        orchestrate_url("z.example", "g", "ray"),
        "https://z.example/cdn-cgi/challenge-platform/h/g/orchestrate/chl_api/v1?ray=ray&lang=auto"
    );
}

#[test]
fn widget_ids_use_the_alphabet() {
    for _ in 0..20 {
        let id = generate_widget_id();
        assert_eq!(id.chars().count(), 5);
        assert!(id.chars().all(|c| WIDGET_ID_ALPHABET.contains(c)));
    }
    assert!(looks_like_javascript("  \n\t x => 1"));
    assert!(!looks_like_javascript("   "));
}
