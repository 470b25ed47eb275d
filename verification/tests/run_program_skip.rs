use cf::run_program_ops::{XF_DST_XOR, XF_OPCODE, XF_STRING_CHARSET_XOR, XF_TAG_STRING, XF_TAG_XOR, GE_OPCODE};
use cf::run_program_skip::{
    extract_inline_run_program_packed, skip_harvest_live, skip_harvest_strings, GE_KEY_IMM_XOR,
    XU_ARG_XOR, XU_ARITY_XOR, XU_DST_XOR, XU_FLAGS_XOR, XU_KEY_XOR, XU_OPCODE,
};
use cf::run_program_vm::{encode_byte, fetch_branch_b_late, next_key};

fn push_op(buf: &mut Vec<u8>, key: &mut u8, opcode: u8) {
    buf.push(encode_byte(fetch_branch_b_late(), *key, opcode));
    *key = next_key(fetch_branch_b_late(), *key, opcode);
}

fn push_imm(buf: &mut Vec<u8>, key: u8, extra: u8, value: u8) {
    buf.push(encode_byte(fetch_branch_b_late(), key, value ^ extra));
}

fn push_str_payload(buf: &mut Vec<u8>, key: u8, extra: u8, text: &str) {
    assert!(text.len() < 127);
    buf.push(encode_byte(fetch_branch_b_late(), key, text.len() as u8));
    for b in text.bytes() {
        push_imm(buf, key, extra, b);
    }
}

#[test]
fn skip_harvests_synthetic_xf_string() {
    let mut buf = Vec::new();
    let mut key = fetch_branch_b_late().init_key;
    push_op(&mut buf, &mut key, XF_OPCODE);
    push_imm(&mut buf, key, XF_TAG_XOR, XF_TAG_STRING);
    push_imm(&mut buf, key, XF_DST_XOR, 0);
    push_str_payload(&mut buf, key, XF_STRING_CHARSET_XOR, "window");
    let h = skip_harvest_strings(&buf, fetch_branch_b_late());
    assert_eq!(h.strings.len(), 1);
    assert_eq!(h.strings[0].text, "window");
    assert_eq!(h.strings[0].opcode, XF_OPCODE);
    assert_eq!(h.stopped, "end_of_bytecode");
    assert!(!h.contains_ident("SMrTl9"));
    assert!(h.contains_ident("window"));
}

#[test]
fn skip_harvests_ge_integer_key_imm() {
    let mut buf = Vec::new();
    let mut key = fetch_branch_b_late().init_key;
    push_op(&mut buf, &mut key, GE_OPCODE);
    push_imm(&mut buf, key, 41, 0);
    push_imm(&mut buf, key, 221, 1);
    push_imm(&mut buf, key, 180, 2);
    push_imm(&mut buf, key, GE_KEY_IMM_XOR, 7);
    let h = skip_harvest_strings(&buf, fetch_branch_b_late());
    assert_eq!(h.ge_key_imms, vec![7]);
    assert_eq!(h.stopped, "end_of_bytecode");
}

#[test]
fn skip_harvests_xu_immediates_without_apply() {
    let mut buf = Vec::new();
    let mut key = fetch_branch_b_late().init_key;
    push_op(&mut buf, &mut key, XU_OPCODE);
    push_imm(&mut buf, key, XU_DST_XOR, 0);
    push_imm(&mut buf, key, 0, 0);
    push_imm(&mut buf, key, 0, 1);
    push_imm(&mut buf, key, 0, 2);
    push_imm(&mut buf, key, XU_KEY_XOR, 0);
    push_imm(&mut buf, key, XU_FLAGS_XOR, 0);
    push_imm(&mut buf, key, XU_ARITY_XOR, 2);
    push_imm(&mut buf, key, XU_ARG_XOR, 3);
    push_imm(&mut buf, key, XU_ARG_XOR, 4);
    let h = skip_harvest_live(&buf);
    assert_eq!(h.last_opcode, Some(XU_OPCODE));
    assert_eq!(h.stopped, "end_of_bytecode");
    assert_eq!(h.instructions, 1);
    assert!(h.strings.is_empty());
}

#[test]
fn inline_run_program_argument_is_extracted() {
    let html = "<script>x=1;runProgram(`TX5omy48NT82Lp1u`);y</script>";
    assert_eq!(extract_inline_run_program_packed(html), Some("TX5omy48NT82Lp1u".to_string()));
    assert_eq!(extract_inline_run_program_packed("runProgram(`abc"), None);
    assert_eq!(extract_inline_run_program_packed("nothing here"), None);
}

#[test]
fn skip_harvest_gives_back_a_mixed_encoded_stream() {
    let mut buf = Vec::new();
    let mut key = fetch_branch_b_late().init_key;
    push_op(&mut buf, &mut key, GE_OPCODE);
    push_imm(&mut buf, key, 41, 0);
    push_imm(&mut buf, key, 221, 1);
    push_imm(&mut buf, key, 180, 2);
    push_imm(&mut buf, key, GE_KEY_IMM_XOR, 7);
    push_op(&mut buf, &mut key, XU_OPCODE);
    push_imm(&mut buf, key, XU_DST_XOR, 0);
    push_imm(&mut buf, key, 0, 0);
    push_imm(&mut buf, key, 0, 1);
    push_imm(&mut buf, key, 0, 2);
    push_imm(&mut buf, key, XU_KEY_XOR, 0);
    push_imm(&mut buf, key, XU_FLAGS_XOR, 0);
    push_imm(&mut buf, key, XU_ARITY_XOR, 2);
    push_imm(&mut buf, key, XU_ARG_XOR, 3);
    push_imm(&mut buf, key, XU_ARG_XOR, 4);
    let xf_pc = buf.len() as u32;
    push_op(&mut buf, &mut key, XF_OPCODE);
    push_imm(&mut buf, key, XF_TAG_XOR, XF_TAG_STRING);
    push_imm(&mut buf, key, XF_DST_XOR, 0);
    push_str_payload(&mut buf, key, XF_STRING_CHARSET_XOR, "querySelectorAll");
    push_op(&mut buf, &mut key, GE_OPCODE);
    push_imm(&mut buf, key, 41, 9);
    push_imm(&mut buf, key, 221, 9);
    push_imm(&mut buf, key, 180, 9);
    push_imm(&mut buf, key, GE_KEY_IMM_XOR, 40);
    let h = skip_harvest_strings(&buf, fetch_branch_b_late());
    assert_eq!(xf_pc, 15);
    assert_eq!(h.stopped, "end_of_bytecode");
    assert_eq!(h.instructions, 4);
    assert_eq!(h.last_opcode, Some(GE_OPCODE));
    assert_eq!(h.ge_key_imms, vec![7, 40]);
    assert_eq!(h.strings.len(), 1);
    assert_eq!(h.strings[0].text, "querySelectorAll");
    assert_eq!(h.strings[0].handler, "Xf");
    assert_eq!(h.strings[0].opcode, XF_OPCODE);
    assert_eq!(h.strings[0].pc, xf_pc);
}
