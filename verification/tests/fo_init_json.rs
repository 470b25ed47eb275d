use cf::fo_init_json::{
    brace_end, extract_init_json_keys, extract_init_json_object, keys_match_snapshot,
    live_fo_init_json, quoted_object_keys, shared_with_opt, INIT_JSON_KEYS_B, INIT_JSON_KEYS_G,
    INIT_JSON_KEY_COUNT, SHARED_WITH_CHL_OPT_B,
};
use std::collections::BTreeSet;

#[test]
fn snapshots_are_47_and_disjoint() {
    assert_eq!(INIT_JSON_KEYS_B.len(), INIT_JSON_KEY_COUNT);
    assert_eq!(INIT_JSON_KEYS_G.len(), INIT_JSON_KEY_COUNT);
    assert_eq!(live_fo_init_json().key_count, INIT_JSON_KEY_COUNT);
    assert_eq!(live_fo_init_json().set_timeout_delay_ms, 100);
    let b: BTreeSet<_> = INIT_JSON_KEYS_B.iter().copied().collect();
    let g: BTreeSet<_> = INIT_JSON_KEYS_G.iter().copied().collect();
    assert_eq!(b.len(), INIT_JSON_KEY_COUNT);
    assert_eq!(g.len(), INIT_JSON_KEY_COUNT);
    assert!(b.is_disjoint(&g));
    for k in SHARED_WITH_CHL_OPT_B {
        assert!(INIT_JSON_KEYS_B.contains(&k), "{k}");
    }
}

fn tiny_html() -> String {
    let mut keys = String::new();
    for (i, k) in INIT_JSON_KEYS_B.iter().enumerate() {
        if i > 0 {
            keys.push(',');
        }
        if *k == "XNAR2" {
            keys.push_str(&format!("\"{k}\":JSON[n](x)"));
        } else if *k == "wSEe6" {
            keys.push_str(&format!("\"{k}\":``"));
        } else if i == 2 || i == 3 || i == 19 {
            keys.push_str(&format!("\"{k}\":0"));
        } else if i == 8 {
            keys.push_str(&format!("\"{k}\":1"));
        } else {
            keys.push_str(&format!("\"{k}\":V[0]"));
        }
    }
    format!("Xm={{{keys}}};setTimeout(fz,100,d,Xm)")
}

#[test]
fn extract_from_tiny_html() {
    let html = tiny_html();
    let got = extract_init_json_keys(&html).expect("extract");
    assert!(keys_match_snapshot(&got, &INIT_JSON_KEYS_B));
    assert!(html.contains("setTimeout"));
}

#[test]
fn object_needs_settimeout_and_forty_keys() {
    let html = tiny_html();
    let obj = extract_init_json_object(&html).unwrap();
    assert!(obj.starts_with("{\"ThPv3\":"));
    assert!(obj.ends_with('}'));
    let no_timer = html.replace("setTimeout", "setInterval");
    assert!(extract_init_json_object(&no_timer).is_none());
    assert!(extract_init_json_keys("x={\"ab\":JSON[1]};setTimeout(f)").is_none());
    assert!(!keys_match_snapshot(&["ThPv3".to_string()], &INIT_JSON_KEYS_B));
}

#[test]
fn key_scanners_exact() {
    assert_eq!(
        quoted_object_keys(r#"{"ab1":1,"9x":2,"cd":"e","toolongidentifier":3,"ok":4}"#),
        vec!["ab1".to_string(), "cd".to_string(), "ok".to_string()]
    );
    assert_eq!(brace_end("a{b:'}',c:{d:1}}e", 1), Some(16));
    assert_eq!(brace_end("a{b:1", 1), None);
    assert_eq!(brace_end("a{b:1}", 0), None);
    let keys = vec!["DmMyh8".to_string(), "zlGF5".to_string(), "nope1".to_string(), "DmMyh8".to_string()];
    assert_eq!(shared_with_opt(&keys, "{DmMyh8:'x',zlGF5:1,nope12:2}"), vec!["DmMyh8", "zlGF5", "DmMyh8"]);
}
