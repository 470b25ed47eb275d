use cf::fo_followup_json::FOLLOWUP_EXTRA_IDENT_B;
use cf::fo_init_json::INIT_JSON_KEYS_B;
use cf::json::{JsonNumber, JsonValue};
use cf::oracle::{harvest_tuple_rows, html_candidate_from_oracle, oracle_fetch_rows, verify_oracle_document};
use cf::run_program_ops::classify_pc_delta;
use cf::run_program_vm::{decode_opcode, encode_byte, fetch_branch_b, fetch_branch_b_late, fetch_live, next_key, FetchParams};
use cf::case_tuples::{html_candidate_23196, verify_case_tuples_document, verify_oracle_tuple_next_key};

fn num(n: u64) -> JsonValue {
    JsonValue::Number(JsonNumber { as_u64: Some(n), as_i64: Some(n as i64) })
}

fn text(s: &str) -> JsonValue {
    JsonValue::Text(s.to_string())
}

fn arr(items: Vec<JsonValue>) -> JsonValue {
    JsonValue::Array(items)
}

fn obj(members: Vec<(&str, JsonValue)>) -> JsonValue {
    JsonValue::Object(members.into_iter().map(|(k, v)| (k.to_string(), v)).collect())
}

fn late_fetch() -> JsonValue {
    let p = fetch_branch_b_late();
    obj(vec![
        ("init_key", num(p.init_key as u64)),
        ("byte_bias", num(p.byte_bias as u64)),
        ("key_mul", num(p.key_mul as u64)),
    ])
}

#[test]
fn empty_fixture_checks_against_branch_b() {
    let r = verify_oracle_document(&obj(vec![]));
    assert!(r.ok);
    assert!(r.errors.is_empty());
    assert_eq!(r.params_label, fetch_branch_b().label);
    assert_eq!(r.fetch_count, 0);
    assert_eq!(r.pc_delta_count, 0);
    assert!(r.widths.is_empty());
    assert_eq!(r.first_dn_tag, None);
    assert_eq!(r.fo_prefix_ok, 0);
    assert!(!r.fo_init_keys_ok);
}

#[test]
fn fetch_rows_are_decoded_with_named_schedule() {
    let p = fetch_branch_b();
    let good = decode_opcode(p, 10, 0x14);
    let bad = good.wrapping_add(1);
    let doc = obj(vec![(
        "opcodeFetches",
        arr(vec![
            obj(vec![("pc", num(0)), ("key", num(10)), ("b", num(0x14)), ("opcode", num(good as u64))]),
            obj(vec![("pc", num(5)), ("key", num(10)), ("byte", num(0x14)), ("op", num(bad as u64))]),
        ]),
    )]);
    let r = verify_oracle_document(&doc);
    assert!(!r.ok);
    assert_eq!(r.fetch_count, 2);
    assert_eq!(
        r.errors,
        vec![format!("fetch 1: pc 5: decode({} key=10 byte=0x14) = {good}, oracle {bad}", p.label)]
    );
    assert_eq!(oracle_fetch_rows(&doc).map(|a| a.len()), Some(2));
}

#[test]
fn fetch_constants_of_late_snapshot_select_it() {
    let doc = obj(vec![("fetch", late_fetch())]);
    let r = verify_oracle_document(&doc);
    assert_eq!(r.params_label, fetch_branch_b_late().label);
    assert!(r.ok);
}

#[test]
fn unknown_late_constants_are_one_error() {
    let doc = obj(vec![("laterSameDay", obj(vec![("init_key", num(1)), ("byte_bias", num(2)), ("key_mul", num(3))]))]);
    let r = verify_oracle_document(&doc);
    assert_eq!(r.errors, vec!["laterSameDay fetch constants did not match FETCH_BRANCH_B_LATE".to_string()]);
}

#[test]
fn late_section_checks_widths_tags_and_handlers() {
    let widths = obj(vec![
        ("gq_246", num(3)),
        ("gG_227", num(4)),
        ("X3_104", num(2)),
        ("gY_72", num(5)),
        ("X4_12", num(2)),
        ("Xz_52", num(3)),
        ("Xg_130", num(4)),
        ("ge_169", num(5)),
    ]);
    let late = obj(vec![
        ("fetch", late_fetch()),
        ("firstXfTag", num(199)),
        ("chromeStableWidths", widths),
        ("xfTagCases", obj(vec![("defaultKind", text("true"))])),
        ("xdMix", obj(vec![("seed", num(1)), ("slotXor", num(77))])),
        ("s1HtmlHandler", text("gS")),
    ]);
    let r = verify_oracle_document(&obj(vec![("laterSameDay", late)]));
    assert_eq!(
        r.errors,
        vec![
            "laterSameDay.chromeStableWidths.Xg_130 should be 3".to_string(),
            "laterSameDay.xfTagCases.cases length mismatch".to_string(),
            "laterSameDay.xdMix mismatch".to_string(),
            "laterSameDay.s2HtmlHandler should be gK".to_string(),
        ]
    );
}

#[test]
fn late_tables_compare_row_by_row() {
    let s2 = arr(vec![obj(vec![("imm", num(139)), ("kind", text("nope"))])]);
    let late = obj(vec![
        ("fetch", late_fetch()),
        ("firstXfTag", num(199)),
        ("s1HtmlHandler", text("gS")),
        ("s2HtmlHandler", text("gK")),
        ("s2Cases", s2),
    ]);
    let r = verify_oracle_document(&obj(vec![("laterSameDay", late)]));
    assert_eq!(
        r.errors,
        vec!["laterSameDay.s2Cases length mismatch".to_string(), "s2Cases opcode 97 mismatch".to_string()]
    );
}

#[test]
fn followup_json_name_lists_are_quoted() {
    let fj = obj(vec![
        ("copiedFromInit", JsonValue::Bool(true)),
        ("numericVmEntries", JsonValue::Bool(true)),
        ("extraIdent", arr(vec![text("a\"b")])),
    ]);
    let late = obj(vec![
        ("fetch", late_fetch()),
        ("firstXfTag", num(199)),
        ("s1HtmlHandler", text("gS")),
        ("s2HtmlHandler", text("gK")),
        ("foFollowUpJson", fj),
    ]);
    let r = verify_oracle_document(&obj(vec![("laterSameDay", late)]));
    let want = format!("foFollowUpJson.extraIdent=[\"a\\\"b\"] expected {:?}", FOLLOWUP_EXTRA_IDENT_B);
    assert_eq!(r.errors, vec![want]);
}

#[test]
fn followup_envelope_checks_lengths() {
    let fu = obj(vec![
        ("plaintextKind", text("compressed_blob_after_runProgram")),
        ("notPackedProgram", JsonValue::Bool(true)),
        ("sameNWrapper", JsonValue::Bool(true)),
        ("sendHelper", text("fj")),
        ("debugLogger", text("fz")),
        ("bodyEncoder", text("f3")),
        ("invokeIfFn", text("fn(initObj, fj)")),
        ("chromeLens", arr(vec![num(80000), num(10)])),
        ("chromeRespLens", arr(vec![num(2400), num(5)])),
    ]);
    let late = obj(vec![
        ("fetch", late_fetch()),
        ("firstXfTag", num(199)),
        ("s1HtmlHandler", text("gS")),
        ("s2HtmlHandler", text("gK")),
        ("foFollowUp", fu),
    ]);
    let r = verify_oracle_document(&obj(vec![("laterSameDay", late)]));
    assert_eq!(
        r.errors,
        vec![
            "foFollowUp.chromeLens[1]=10 not follow-up band".to_string(),
            "foFollowUp.chromeRespLens[1]=5 not ack band".to_string(),
        ]
    );
}

#[test]
fn wrong_first_dn_tag_is_reported() {
    let r = verify_oracle_document(&obj(vec![("first_dn_tag", num(5))]));
    assert_eq!(r.first_dn_tag, Some(5));
    assert_eq!(r.errors, vec!["first dN tag 5, expected string tag 179 for TX5omy48 magic".to_string()]);
}

#[test]
fn fo_body_section_checks_name_prefixes_and_lengths() {
    let fo = obj(vec![
        ("compressorLiveName", text("wZ")),
        ("prefixes", arr(vec![text("eoU"), text("ab/c"), num(7)])),
        ("initLens", arr(vec![num(3724), num(10)])),
    ]);
    let r = verify_oracle_document(&obj(vec![("foBody", fo)]));
    assert_eq!(r.fo_prefix_ok, 2);
    assert_eq!(
        r.errors,
        vec![
            "foBody.compressorLiveName should be f4".to_string(),
            "foBody prefix 1 not in charset".to_string(),
            "foBody initLens[1]=10 not in init band".to_string(),
        ]
    );
}

#[test]
fn fo_init_section_checks_count_delay_and_keys() {
    let keys = arr(INIT_JSON_KEYS_B.iter().map(|k| text(k)).collect());
    let init = obj(vec![("keyCount", num(46)), ("setTimeoutDelayMs", num(100)), ("keys", keys)]);
    let r = verify_oracle_document(&obj(vec![("laterSameDay", obj(vec![("fetch", late_fetch()), ("firstXfTag", num(199)), ("s1HtmlHandler", text("gS")), ("s2HtmlHandler", text("gK")), ("foInitJson", init)]))]));
    assert!(r.fo_init_keys_ok);
    assert_eq!(r.errors, vec!["foInitJson.keyCount should be 47".to_string()]);
}

#[test]
fn pc_deltas_are_classified_against_branch_b() {
    let doc = obj(vec![("pc_deltas", arr(vec![obj(vec![("opcode", num(14)), ("width", num(2))]), obj(vec![])]))]);
    let r = verify_oracle_document(&doc);
    assert_eq!(r.pc_delta_count, 2);
    assert_eq!(r.widths, vec![classify_pc_delta(14, 2), classify_pc_delta(0, 0)]);
    assert_eq!(r.widths[0].matches_fixed, Some(true));
}

fn u64_at(v: &JsonValue, key: &str) -> Option<u64> {
    match v.get(key) {
        Some(JsonValue::Number(n)) => n.as_u64,
        _ => None,
    }
}

#[test]
fn tuple_rows_prefer_fetch_keyed_rows() {
    let doc = obj(vec![
        (
            "opcodeFetches",
            arr(vec![obj(vec![("op", num(1)), ("byte", num(2)), ("key", num(3))]), obj(vec![("op", num(1))])]),
        ),
        ("fetchLoopTuples", arr(vec![obj(vec![("caseOp", num(4)), ("byte", num(5)), ("key", num(6))])])),
    ]);
    let rows = harvest_tuple_rows(&doc);
    let keys: Vec<Option<u64>> = rows.iter().map(|r| u64_at(r, "key")).collect();
    assert_eq!(keys, vec![Some(3), Some(6)]);
}

#[test]
fn tuple_rows_fall_back_to_next_key_rows() {
    let doc = obj(vec![
        (
            "opcodeFetches",
            arr(vec![
                obj(vec![("op", num(1)), ("byte", num(2)), ("next_key", num(8))]),
                obj(vec![("op", num(1)), ("byte", num(2))]),
            ]),
        ),
        ("fetchLoopTuples", arr(vec![obj(vec![("op", num(1)), ("byte", num(2)), ("nextKey", num(7))])])),
    ]);
    let rows = harvest_tuple_rows(&doc);
    let next: Vec<Option<u64>> = rows.iter().map(|r| u64_at(r, "nextKey").or(u64_at(r, "next_key"))).collect();
    assert_eq!(next, vec![Some(7), Some(8)]);
    assert!(harvest_tuple_rows(&obj(vec![])).is_empty());
}

#[test]
fn html_candidate_reads_fetch_schedule() {
    let fs = obj(vec![
        ("keyMul", num(23196)),
        ("keyAdd", num(19372)),
        ("byteBias", num(217)),
        ("initKeyCandidate", num(63)),
        ("keyQuadB", num(32619)),
    ]);
    let got = html_candidate_from_oracle(&obj(vec![("fetchSchedule", fs)]));
    let want = FetchParams {
        label: "html-candidate",
        init_pc: 0,
        init_key: 63,
        byte_bias: 217,
        key_mul: 23196,
        key_add: 19372,
        key_quad_b: 32619,
    };
    assert_eq!(got, Some(want));
    let zero = obj(vec![("keyMul", num(0)), ("keyAdd", num(1)), ("byteBias", num(2)), ("initKeyCandidate", num(3))]);
    assert_eq!(html_candidate_from_oracle(&obj(vec![("fetchSchedule", zero)])), None);
    let partial = obj(vec![("keyMul", num(5)), ("byteBias", num(2)), ("initKeyCandidate", num(3))]);
    assert_eq!(html_candidate_from_oracle(&obj(vec![("fetchSchedule", partial)])), None);
}

fn keyed_row(pc: u64, key: u8, byte: u8, op: u8) -> JsonValue {
    obj(vec![("pc", num(pc)), ("key", num(key as u64)), ("byte", num(byte as u64)), ("op", num(op as u64))])
}

#[test]
fn case_tuples_check_keys_and_chain_against_live_schedule() {
    let p = fetch_live();
    let k0 = p.init_key;
    let b0 = encode_byte(p, k0, 222);
    let k1 = next_key(p, k0, 222);
    let b1 = encode_byte(p, k1, 8);
    let doc = obj(vec![("opcodeFetches", arr(vec![keyed_row(0, k0, b0, 222), keyed_row(1, k1, b1, 8)]))]);
    let r = verify_case_tuples_document(&doc);
    assert_eq!(r.row_count, 2);
    assert_eq!(r.marker, "");
    assert_eq!(r.candidates.len(), 1);
    let c = &r.candidates[0];
    assert_eq!(c.label, p.label);
    assert_eq!(c.ok, 2);
    assert!(c.errors.is_empty());
    assert!(c.key_chain_fail.is_empty());
    assert!(c.all_ok);
    assert_eq!(c.recovered[1].fetch_key, k1);

    let wrong = k1.wrapping_add(1);
    let bw = encode_byte(p, wrong, 8);
    let doc = obj(vec![("fetchLoopTuples", arr(vec![keyed_row(0, k0, b0, 222), keyed_row(7, wrong, bw, 8)]))]);
    let c = &verify_case_tuples_document(&doc).candidates[0];
    assert_eq!(c.ok, 2);
    assert!(!c.all_ok);
    assert_eq!(c.key_chain_fail.len(), 1);
    assert_eq!(c.key_chain_fail[0].pc, Some(0));
    assert_eq!(c.key_chain_fail[0].next_row_key, wrong);
    assert_eq!(c.key_chain_fail[0].expected_next_key, k1);
}

#[test]
fn case_tuples_recover_keys_from_next_key_rows() {
    let p = fetch_live();
    let (op, byte) = (222u8, 0x31u8);
    let least = (0..=255u8).find(|&k| decode_opcode(p, k, byte) == op);
    let k = least.expect("some key decodes the byte");
    let nk = next_key(p, k, op);
    let expect = (0..=255u8).find(|&x| decode_opcode(p, x, byte) == op && next_key(p, x, op) == nk);
    assert_eq!(verify_oracle_tuple_next_key(p, 3, op, byte, nk).ok(), expect);
    let row = obj(vec![("pc", num(3)), ("caseOp", num(op as u64)), ("byte", num(byte as u64)), ("nextKey", num(nk as u64))]);
    let doc = obj(vec![("fetchLoopTuples", arr(vec![row]))]);
    let c = &verify_case_tuples_document(&doc).candidates[0];
    assert_eq!(c.recovered.len(), 1);
    assert_eq!(Some(c.recovered[0].fetch_key), expect);
    assert_eq!(c.recovered[0].next_key, Some(nk));
    assert!(c.key_chain_fail.is_empty());

    let unmatched = (0..=255u8).find(|&n| !(0..=255u8).any(|x| decode_opcode(p, x, byte) == op && next_key(p, x, op) == n));
    if let Some(n) = unmatched {
        let err = verify_oracle_tuple_next_key(p, 3, op, byte, n).unwrap_err();
        assert_eq!(err, format!("pc 3: no fetch key decodes byte 0x31 to 222 with next key {n} ({})", p.label));
    }
}

#[test]
fn case_tuples_marker_adds_the_23196_candidate() {
    let events = arr(vec![
        obj(vec![("kind", text("other")), ("marker", text("x"))]),
        obj(vec![("kind", text("scriptFetchConst")), ("marker", text("23196"))]),
    ]);
    let r = verify_case_tuples_document(&obj(vec![("events", events)]));
    assert_eq!(r.marker, "23196");
    assert_eq!(r.candidates.len(), 2);
    assert_eq!(r.candidates[1].label, html_candidate_23196().label);
    assert_eq!(r.candidates[1].key_mul, 23196);
    assert!(!r.candidates[0].all_ok);
}
