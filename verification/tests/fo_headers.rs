use cf::fo_headers::{chrome_extra_headers_match_shape, chrome_fo_post, compare_chrome_and_crate_fo_post, crate_fo_post};
use std::collections::BTreeMap;

#[test]
fn crate_already_matches_chrome_fo_shape() {
    let cmp = compare_chrome_and_crate_fo_post();
    assert!(cmp.all_match, "header mismatch: {:?}", cmp.fields);
    assert_eq!(cmp.fields.len(), 10);
}

#[test]
fn extra_info_map_checks_first_post() {
    let mut h: BTreeMap<String, String> = BTreeMap::new();
    h.insert("Content-Type".into(), "text/plain;charset=UTF-8".into());
    h.insert("cf-chl".into(), "abc".into());
    h.insert("cf-chl-ra".into(), "0".into());
    h.insert("sec-fetch-site".into(), "same-origin".into());
    h.insert("sec-fetch-mode".into(), "cors".into());
    h.insert("sec-fetch-dest".into(), "empty".into());
    h.insert("origin".into(), "https://challenges.cloudflare.com".into());
    let pairs: Vec<(String, String)> = h.into_iter().collect();
    let rows = chrome_extra_headers_match_shape(&pairs);
    assert!(rows.iter().all(|(_, ok)| *ok), "{rows:?}");
}

#[test]
fn missing_or_wrong_headers_fail_their_rows() {
    let pairs = vec![
        ("CONTENT-TYPE".to_string(), "TEXT/PLAIN;CHARSET=utf-8".to_string()),
        ("cf-chl".to_string(), "".to_string()),
        ("cf-chl-ra".to_string(), "1".to_string()),
    ];
    let rows = chrome_extra_headers_match_shape(&pairs);
    assert_eq!(
        rows,
        vec![
            ("content-type", true),
            ("cf-chl", false),
            ("cf-chl-ra", false),
            ("sec-fetch-site", false),
            ("sec-fetch-mode", false),
            ("sec-fetch-dest", false),
            ("origin", false),
        ]
    );
    assert_eq!(chrome_fo_post().xhr_set_header_names, ["cf-chl", "cf-chl-ra"]);
    assert_eq!(crate_fo_post().content_type, "text/plain;charset=UTF-8");
}
