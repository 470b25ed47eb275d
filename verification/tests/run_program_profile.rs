use cf::run_program_profile::{
    source_sha256_hex, VmHandlerProfile, VmProfileFetch, VmSkipProfile, VmSkipSpec, VmTagPayload,
    VmTagProfile, VmTaggedOperandOrder, VM_SKIP_PROFILE_SCHEMA_VERSION,
};
use cf::run_program_vm::{fetch_branch_b, FetchParams};

fn profile_fetch() -> FetchParams {
    fetch_branch_b()
}

fn unknown_profile() -> VmSkipProfile {
    let source = source_sha256_hex(b"synthetic executed JS");
    let handler_fingerprint = source_sha256_hex(b"normalized handler");
    let mut profile = VmSkipProfile {
        schema_version: VM_SKIP_PROFILE_SCHEMA_VERSION,
        source_sha256: source,
        semantic_fingerprint: "0".repeat(64),
        fetch: VmProfileFetch::from_params(profile_fetch()),
        switch_opcodes: vec![181],
        handlers: vec![VmHandlerProfile {
            opcode: 181,
            handler_label: "rotating_name".into(),
            handler_fingerprint,
            spec: VmSkipSpec::Unknown { reason: "recognizer not implemented".into() },
        }],
    };
    profile.semantic_fingerprint = profile.computed_semantic_fingerprint().unwrap();
    profile
}

#[test]
fn profile_binds_source_fetch_and_semantics() {
    let profile = unknown_profile();
    assert!(profile.validate_for(profile_fetch(), &profile.source_sha256).is_ok());

    let mut wrong_source = profile.clone();
    wrong_source.source_sha256 = source_sha256_hex(b"rotated source");
    assert!(wrong_source
        .validate_for(profile_fetch(), &profile.source_sha256)
        .unwrap_err()
        .reason
        .contains("captured source"));

    let mut wrong_fetch = profile_fetch();
    wrong_fetch.init_key ^= 1;
    assert!(profile
        .validate_for(wrong_fetch, &profile.source_sha256)
        .unwrap_err()
        .reason
        .contains("fetch parameters"));

    let mut wrong_semantics = profile.clone();
    wrong_semantics.handlers[0].spec = VmSkipSpec::JumpStop { reason: "semantic mutation".into() };
    assert!(wrong_semantics
        .validate_for(profile_fetch(), &wrong_semantics.source_sha256)
        .unwrap_err()
        .reason
        .contains("semantic fingerprint"));
}

#[test]
fn profile_requires_complete_sorted_dispatch() {
    let mut profile = unknown_profile();
    profile.switch_opcodes = vec![181, 7];
    assert!(profile
        .validate_for(profile_fetch(), &profile.source_sha256)
        .unwrap_err()
        .reason
        .contains("strictly sorted"));

    let mut profile = unknown_profile();
    profile.switch_opcodes.push(247);
    profile.semantic_fingerprint = profile.computed_semantic_fingerprint().unwrap();
    assert!(profile
        .validate_for(profile_fetch(), &profile.source_sha256)
        .unwrap_err()
        .reason
        .contains("handler count"));
}

#[test]
fn sha256_hex_of_known_input() {
    assert_eq!(
        source_sha256_hex(b"abc"),
        "ba7816bf8f01cfea414140de5dae2223b00361a396177a9cb410ff61f20015ad"
    );
    assert_eq!(source_sha256_hex(b"").len(), 64);
}

#[test]
fn canonical_semantic_json_is_sorted_and_compact() {
    let mut p = unknown_profile();
    p.handlers[0].spec = VmSkipSpec::TaggedLoad {
        operand_order: VmTaggedOperandOrder::TagThenDst,
        tag_xor: 1,
        dst_xor: 2,
        tags: vec![
            VmTagProfile { tag: 3, payload: VmTagPayload::NoPayload },
            VmTagProfile { tag: 4, payload: VmTagPayload::FixedReads { extra_xors: vec![5, 6] } },
        ],
    };
    let json = p.canonical_semantic_json();
    let f = fetch_branch_b();
    let expected = format!(
        "{{\"fetch\":{{\"byteBias\":{},\"initKey\":{},\"initPc\":{},\"keyAdd\":{},\"keyMul\":{},\"keyQuadB\":{}}},\"handlers\":[{{\"handlerFingerprint\":\"{}\",\"opcode\":181,\"spec\":{{\"dst_xor\":2,\"kind\":\"tagged_load\",\"operand_order\":\"tag_then_dst\",\"tag_xor\":1,\"tags\":[{{\"payload\":{{\"kind\":\"none\"}},\"tag\":3}},{{\"payload\":{{\"extra_xors\":[5,6],\"kind\":\"fixed_reads\"}},\"tag\":4}}]}}}}],\"schemaVersion\":1,\"switchOpcodes\":[181]}}",
        f.byte_bias, f.init_key, f.init_pc, f.key_add, f.key_mul, f.key_quad_b, p.handlers[0].handler_fingerprint
    );
    assert_eq!(json, expected);
    assert_eq!(p.computed_semantic_fingerprint().unwrap(), source_sha256_hex(expected.as_bytes()));
}

#[test]
fn validation_messages_by_case() {
    let base = unknown_profile();
    let src = base.source_sha256.clone();
    let mut p = base.clone();
    p.schema_version = 2;
    assert_eq!(p.validate_for(profile_fetch(), &src).unwrap_err().reason, "schema version 2 != 1");
    let mut p = base.clone();
    p.source_sha256 = "ABC".into();
    assert_eq!(p.validate_for(profile_fetch(), &src).unwrap_err().reason, "sourceSha256 must be 64 lowercase hex characters");
    assert_eq!(
        base.validate_for(profile_fetch(), "xyz").unwrap_err().reason,
        "observed source SHA-256 must be 64 lowercase hex characters"
    );
    let mut p = base.clone();
    p.switch_opcodes = vec![];
    p.handlers = vec![];
    assert_eq!(p.validate_for(profile_fetch(), &src).unwrap_err().reason, "switch opcode set is empty");
    let mut p = base.clone();
    p.switch_opcodes = vec![180];
    assert_eq!(p.validate_for(profile_fetch(), &src).unwrap_err().reason, "handler opcode 181 is absent from switch");
    let mut p = base.clone();
    p.handlers[0].handler_label = String::new();
    assert_eq!(p.validate_for(profile_fetch(), &src).unwrap_err().reason, "opcode 181 has invalid diagnostic handler label");
    let mut p = base.clone();
    p.handlers[0].spec = VmSkipSpec::LebTable { count_byte_xor: 0, index_byte_xor: 0, max_count: 0 };
    assert_eq!(p.validate_for(profile_fetch(), &src).unwrap_err().reason, "opcode 181 LEB table max_count 0 is out of bounds");
    let mut p = base.clone();
    p.handlers[0].spec = VmSkipSpec::TaggedLoad {
        operand_order: VmTaggedOperandOrder::DstThenTag,
        tag_xor: 0,
        dst_xor: 0,
        tags: vec![
            VmTagProfile { tag: 9, payload: VmTagPayload::NoPayload },
            VmTagProfile { tag: 9, payload: VmTagPayload::Leb { byte_xor: 1 } },
        ],
    };
    assert_eq!(p.validate_for(profile_fetch(), &src).unwrap_err().reason, "opcode 181 has duplicate tag 9");
    let mut p = base.clone();
    p.handlers[0].spec = VmSkipSpec::FixedReads { extra_xors: vec![0; 257] };
    assert_eq!(p.validate_for(profile_fetch(), &src).unwrap_err().reason, "opcode 181 has too many fixed reads: 257");
    let mut p = base.clone();
    p.handlers[0].spec = VmSkipSpec::JumpStop { reason: String::new() };
    assert_eq!(p.validate_for(profile_fetch(), &src).unwrap_err().reason, "opcode 181 has an invalid reason");
    let mut p = base.clone();
    p.semantic_fingerprint = "0".repeat(64);
    assert!(p.validate_for(profile_fetch(), &src).unwrap_err().reason.starts_with("semantic fingerprint mismatch: profile 0000"));
    assert_eq!(base.handler(181).map(|h| h.handler_label.as_str()), Some("rotating_name"));
    assert!(base.handler(7).is_none());
    assert!(VmProfileFetch::from_params(profile_fetch()).matches(profile_fetch()));
}
