use cf::fo_blob::{analyze_decrypted_fo_body, fo_body_candidate, is_packed_run_program, FoBlobAnalysis, PACKED_RUN_PROGRAM_PREFIX};

fn report() -> FoBlobAnalysis {
    FoBlobAnalysis {
        input_bytes: 10,
        looks_like_json_error: false,
        looks_like_b64: true,
        decrypt_ok: false,
        decrypt_bytes: 0,
        decrypt_prefix: String::new(),
        looks_like_javascript: false,
        looks_like_packed_run_program: false,
        json_error_d_len: None,
    }
}

#[test]
fn packed_program_shape() {
    assert!(is_packed_run_program(&format!("{PACKED_RUN_PROGRAM_PREFIX}fixture-not-js")));
    assert!(!is_packed_run_program("function f(){ return 1 }"));
    assert!(is_packed_run_program(&"Ab+/".repeat(80)));
    assert!(!is_packed_run_program(&"Ab+ ".repeat(80)));
    assert!(!is_packed_run_program("short+string"));
}

#[test]
fn summary_lines() {
    let mut r = report();
    assert_eq!(r.summary(), "/fo/ body 10 bytes, b64=true, json_error=false");
    r.looks_like_json_error = true;
    r.json_error_d_len = Some(20);
    assert_eq!(
        r.summary(),
        "/fo/ returned JSON error (d_len=Some(20)); iframe POSTs a compressed init payload with cf-chl, GET without that body 400s"
    );
    r.looks_like_json_error = false;
    r.decrypt_ok = true;
    r.decrypt_bytes = 42;
    r.decrypt_prefix = "ab\"c".to_string();
    assert_eq!(r.summary(), "/fo/ decrypted 42 bytes (prefix \"ab\\\"c\") but is not packed runProgram / JS");
    r.looks_like_packed_run_program = true;
    assert_eq!(
        r.summary(),
        "/fo/ body decrypts with c_ray to a packed runProgram blob (42 bytes, prefix \"ab\\\"c\"); not the orchestrate VM this crate disassembles"
    );
}

#[test]
fn json_error_is_not_packed_program() {
    let body = r#"{"d":"cSTZrlWxKogI4i6I"}"#;
    let c = fo_body_candidate(body);
    assert!(c.looks_like_json_error);
    assert_eq!(c.json_error_d_len, Some(16));
    assert_eq!(c.text, "cSTZrlWxKogI4i6I");
    assert!(c.looks_like_b64);
    let plain = format!("{PACKED_RUN_PROGRAM_PREFIX}fixture-not-js");
    let report = analyze_decrypted_fo_body(body, &c, Some(&plain));
    assert!(report.looks_like_json_error);
    assert!(!report.looks_like_packed_run_program);
    assert!(report.decrypt_ok);
}

#[test]
fn decrypted_body_is_classified() {
    let body = "  QUJDREVGR0hJSktMTU5PUA==\n";
    let c = fo_body_candidate(body);
    assert!(!c.looks_like_json_error);
    assert_eq!(c.json_error_d_len, None);
    assert_eq!(c.text, "QUJDREVGR0hJSktMTU5PUA==");
    assert!(c.looks_like_b64);
    let plain = format!("{PACKED_RUN_PROGRAM_PREFIX}fixture-not-js");
    let r = analyze_decrypted_fo_body(body, &c, Some(&plain));
    assert!(r.looks_like_packed_run_program);
    assert!(!r.looks_like_javascript);
    assert_eq!(r.decrypt_bytes, plain.len());
    assert_eq!(r.decrypt_prefix, plain.chars().take(24).collect::<String>());
    assert_eq!(r.input_bytes, body.len());
    let none = analyze_decrypted_fo_body(body, &c, None);
    assert!(!none.decrypt_ok && !none.looks_like_packed_run_program && none.decrypt_prefix.is_empty());
    assert!(!fo_body_candidate("short").looks_like_b64);
}
