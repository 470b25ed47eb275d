use cf::fo_followup_json::{
    classify_fo_plaintext, copied_init_keys, dropped_init_keys, extra_ident_keys,
    followup_extra_ident_html_b, followup_field_write_b, live_fo_followup_json,
    looks_like_numeric_key, write_path_from_chrome_opcode, FoPlaintextKind,
    FOLLOWUP_COPIED_COUNT_B, FOLLOWUP_DROPPED_INIT_B, FOLLOWUP_EXTRA_IDENT_B,
};
use cf::fo_init_json::{INIT_JSON_KEYS_B, INIT_JSON_KEY_COUNT};

#[test]
fn classify_init_vs_followup_against_branch_b() {
    let init: Vec<String> = INIT_JSON_KEYS_B.iter().map(|s| (*s).to_string()).collect();
    assert_eq!(classify_fo_plaintext(&init, 0, &INIT_JSON_KEYS_B), FoPlaintextKind::Init);
    let mut follow = init.clone();
    follow.push("extraVmKey".into());
    assert_eq!(classify_fo_plaintext(&follow, 12, &INIT_JSON_KEYS_B), FoPlaintextKind::FollowUp);
    assert_eq!(copied_init_keys(&follow, &INIT_JSON_KEYS_B).len(), 47);
    assert_eq!(extra_ident_keys(&follow, &INIT_JSON_KEYS_B), vec!["extraVmKey"]);
    assert!(looks_like_numeric_key("1"));
    assert!(looks_like_numeric_key("12"));
    assert!(!looks_like_numeric_key("ThPv3"));
    assert!(!looks_like_numeric_key(""));
}

#[test]
fn shape_says_copied_plus_numeric_plus_extra() {
    let shape = live_fo_followup_json();
    assert_eq!(shape.init_ident_count, INIT_JSON_KEY_COUNT);
    assert_eq!(shape.copied_count, FOLLOWUP_COPIED_COUNT_B);
    assert_eq!(shape.extra_ident_count, FOLLOWUP_EXTRA_IDENT_B.len());
    assert_eq!(shape.numeric_key_min, 1);
    assert_eq!(shape.numeric_key_max, 39);
    let follow: Vec<String> = INIT_JSON_KEYS_B
        .iter()
        .filter(|k| !FOLLOWUP_DROPPED_INIT_B.contains(k))
        .map(|s| (*s).to_string())
        .chain(FOLLOWUP_EXTRA_IDENT_B.iter().map(|s| (*s).to_string()))
        .collect();
    assert_eq!(copied_init_keys(&follow, &INIT_JSON_KEYS_B).len(), FOLLOWUP_COPIED_COUNT_B);
    assert_eq!(extra_ident_keys(&follow, &INIT_JSON_KEYS_B), FOLLOWUP_EXTRA_IDENT_B.to_vec());
    assert_eq!(dropped_init_keys(&follow, &INIT_JSON_KEYS_B), FOLLOWUP_DROPPED_INIT_B.to_vec());
    assert_eq!(classify_fo_plaintext(&follow, 39, &INIT_JSON_KEYS_B), FoPlaintextKind::FollowUp);
    assert_eq!(classify_fo_plaintext(&follow, 0, &INIT_JSON_KEYS_B), FoPlaintextKind::FollowUp);
}

#[test]
fn copied_and_extra_partition_on_concrete_keys() {
    let ident: Vec<String> = vec!["a1".into(), "zz".into(), "b2".into(), "a1".into()];
    let init = ["a1", "b2", "c3"];
    let copied = copied_init_keys(&ident, &init);
    let extra = extra_ident_keys(&ident, &init);
    assert_eq!(copied, vec!["a1", "b2", "a1"]);
    assert_eq!(extra, vec!["zz"]);
    assert_eq!(copied.len() + extra.len(), ident.len());
    assert_eq!(dropped_init_keys(&ident, &init), vec!["c3"]);
    assert_eq!(classify_fo_plaintext(&ident, 0, &init), FoPlaintextKind::Other);
    let many: Vec<String> = (0..40).map(|i| format!("k{i}")).collect();
    assert_eq!(classify_fo_plaintext(&many, 0, &[]), FoPlaintextKind::Other);
    let init_many: Vec<&str> = many.iter().map(|s| s.as_str()).collect();
    assert_eq!(classify_fo_plaintext(&many, 0, &init_many), FoPlaintextKind::Init);
}

#[test]
fn write_paths_and_tables() {
    assert_eq!(write_path_from_chrome_opcode(Some(177)), "host_xi");
    assert_eq!(write_path_from_chrome_opcode(Some(226)), "bytecode_string");
    assert_eq!(write_path_from_chrome_opcode(Some(227)), "property_set");
    assert_eq!(write_path_from_chrome_opcode(Some(169)), "property_set");
    assert_eq!(write_path_from_chrome_opcode(Some(138)), "property_set");
    assert_eq!(write_path_from_chrome_opcode(Some(1)), "unseen_in_dumps");
    assert_eq!(write_path_from_chrome_opcode(None), "unseen_in_dumps");
    let html = followup_extra_ident_html_b();
    assert_eq!(html.len(), FOLLOWUP_EXTRA_IDENT_B.len());
    for (row, name) in html.iter().zip(FOLLOWUP_EXTRA_IDENT_B.iter()) {
        assert_eq!(row.name, *name);
    }
    let writes = followup_field_write_b();
    assert_eq!(writes.len(), 16);
    assert_eq!(writes[14].name, "MaOkK2");
    assert_eq!(writes[14].write_path, "glue");
    assert!(writes.iter().all(|w| w.opcode.is_none()));
}
