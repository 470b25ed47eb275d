use cf::run_program::{RUN_PROGRAM_MAGIC_BYTES_B, RUN_PROGRAM_MAGIC_BYTES_B_LATE};
use cf::run_program_ops::{
    classify_pc_delta, classify_pc_delta_late, first_dn_tag_b, first_xf_tag_late,
    handler_layout_b, handler_layout_b_late, layout_for, layout_for_late, operand_from_byte,
    s1_kind_for_imm, s2_kind_for_imm, xf_tag_kind, xi_type_kind, xp_tag_kind, InstrWidth,
    DN_OPCODE, DN_TAG_STRING, DN_TAG_XOR, GE_OPCODE, GG_OPCODE, GQ_OPCODE, GY_OPCODE,
    LATE_DIRECT_HANDLER_COUNT, X3_OPCODE, X4_OPCODE, XF_DST_XOR, XF_OPCODE, XF_TAG_STRING,
    XF_TAG_XOR, XG_OPCODE, XZ_OPCODE,
};
use cf::run_program_vm::{
    fetch_branch_b, fetch_branch_b_late, next_key, opcode_def_in, opcode_table_b,
    opcode_table_b_late, step_fetch, OpcodeKind,
};

#[test]
fn post_fetch_key_then_dn_tag_is_string() {
    let params = fetch_branch_b();
    let byte0 = RUN_PROGRAM_MAGIC_BYTES_B[0];
    let (op, nk) = step_fetch(params, params.init_key, byte0);
    assert_eq!(op, DN_OPCODE);
    assert_eq!(nk, next_key(params, params.init_key, op));
    assert_eq!(nk, 112);
    assert_eq!(
        operand_from_byte(params, nk, RUN_PROGRAM_MAGIC_BYTES_B[1], DN_TAG_XOR),
        DN_TAG_STRING
    );
    assert_eq!(first_dn_tag_b(&RUN_PROGRAM_MAGIC_BYTES_B), Some(DN_TAG_STRING));
}

#[test]
fn post_fetch_key_then_xf_tag_is_string() {
    let params = fetch_branch_b_late();
    let byte0 = RUN_PROGRAM_MAGIC_BYTES_B_LATE[0];
    let (op, nk) = step_fetch(params, params.init_key, byte0);
    assert_eq!(op, XF_OPCODE);
    assert_eq!(nk, next_key(params, params.init_key, op));
    assert_eq!(nk, 197);
    assert_eq!(
        operand_from_byte(params, nk, RUN_PROGRAM_MAGIC_BYTES_B_LATE[1], XF_TAG_XOR),
        XF_TAG_STRING
    );
    assert_eq!(first_xf_tag_late(&RUN_PROGRAM_MAGIC_BYTES_B_LATE), Some(XF_TAG_STRING));
}

#[test]
fn wrapping_sub_operand_matches_plus_219() {
    let params = fetch_branch_b();
    for (key, byte, extra) in [(112u8, 0x7e, 154u8), (112, 0x68, 48), (0, 0, 0)] {
        let a = operand_from_byte(params, key, byte, extra);
        let plus = (256u16 - u16::from(params.byte_bias)) as u8;
        let b = key ^ byte.wrapping_add(plus) ^ extra;
        assert_eq!(a, b);
    }
}

#[test]
fn layouts_point_at_real_switch_ids() {
    let table_b = opcode_table_b();
    for h in handler_layout_b() {
        if matches!(h.handler, "x" | "g" | "Xf") {
            continue;
        }
        assert_eq!(
            opcode_def_in(&table_b, h.opcode).map(|d| d.handler),
            Some(h.handler),
            "opcode {} handler {}",
            h.opcode,
            h.handler
        );
    }
    assert_eq!(
        opcode_def_in(&opcode_table_b_late(), XF_OPCODE).map(|d| d.handler),
        Some("Xf")
    );
    assert_eq!(layout_for(14).unwrap().width, InstrWidth::Fixed(2));
    assert_eq!(layout_for(9).unwrap().width, InstrWidth::Fixed(4));
    assert_eq!(layout_for(8).unwrap().width, InstrWidth::Variable);
    assert_eq!(layout_for(222).unwrap().width, InstrWidth::Variable);
}

#[test]
fn late_b_layouts_match_chrome_stable_widths() {
    let table = opcode_table_b_late();
    for h in handler_layout_b_late() {
        assert_eq!(
            opcode_def_in(&table, h.opcode).map(|d| d.handler),
            Some(h.handler),
            "opcode {} handler {}",
            h.opcode,
            h.handler
        );
    }
    let gq = layout_for_late(GQ_OPCODE).unwrap();
    assert_eq!(gq.width, InstrWidth::Fixed(3));
    assert_eq!(gq.extra_xors(), &[123, 148]);
    let gg = layout_for_late(GG_OPCODE).unwrap();
    assert_eq!(gg.width, InstrWidth::Fixed(4));
    assert_eq!(gg.extra_xors(), &[221, 41, 180]);
    let x3 = layout_for_late(X3_OPCODE).unwrap();
    assert_eq!(x3.width, InstrWidth::Fixed(2));
    assert_eq!(x3.extra_xors(), &[1]);
    let gy = layout_for_late(GY_OPCODE).unwrap();
    assert_eq!(gy.width, InstrWidth::Fixed(5));
    assert_eq!(gy.extra_xors(), &[117, 221, 231, 177]);
    let xf = layout_for_late(XF_OPCODE).unwrap();
    assert_eq!(xf.width, InstrWidth::Variable);
    assert_eq!(xf.extra_xors(), &[XF_TAG_XOR, XF_DST_XOR]);
    let x4 = layout_for_late(X4_OPCODE).unwrap();
    assert_eq!(x4.width, InstrWidth::Fixed(2));
    assert_eq!(x4.extra_xors(), &[58]);
    let xz = layout_for_late(XZ_OPCODE).unwrap();
    assert_eq!(xz.width, InstrWidth::Fixed(3));
    assert_eq!(xz.extra_xors(), &[132]);
    let xg = layout_for_late(XG_OPCODE).unwrap();
    assert_eq!(xg.width, InstrWidth::Fixed(3));
    assert_eq!(xg.extra_xors(), &[112, 19]);
    let ge = layout_for_late(GE_OPCODE).unwrap();
    assert_eq!(ge.width, InstrWidth::Fixed(5));
    assert_eq!(ge.extra_xors(), &[41, 221, 180, 19]);

    let hit = classify_pc_delta_late(246, 3);
    assert_eq!(hit.handler, Some("gq"));
    assert_eq!(hit.matches_fixed, Some(true));
    let miss = classify_pc_delta_late(246, 9);
    assert_eq!(miss.matches_fixed, Some(false));
    let var = classify_pc_delta_late(222, 11);
    assert_eq!(var.handler, Some("Xf"));
    assert_eq!(var.matches_fixed, None);
    assert_eq!(classify_pc_delta_late(227, 4).matches_fixed, Some(true));
    assert_eq!(classify_pc_delta_late(104, 2).matches_fixed, Some(true));
    assert_eq!(classify_pc_delta_late(72, 5).matches_fixed, Some(true));
    assert_eq!(classify_pc_delta_late(12, 2).matches_fixed, Some(true));
    assert_eq!(classify_pc_delta_late(52, 3).matches_fixed, Some(true));
    assert_eq!(classify_pc_delta_late(130, 3).matches_fixed, Some(true));
    assert_eq!(classify_pc_delta_late(169, 5).matches_fixed, Some(true));
    assert_eq!(layout_for_late(45).unwrap().family, "throw_register");
    assert_eq!(layout_for_late(132).unwrap().family, "property_get");
    assert_eq!(layout_for_late(30).unwrap().family, "register_swap");
    assert_eq!(layout_for_late(187).unwrap().family, "jump_u24");
    assert_eq!(classify_pc_delta_late(187, 4).matches_fixed, None);
    assert_eq!(classify_pc_delta_late(30, 3).matches_fixed, Some(true));
    assert_eq!(classify_pc_delta_late(132, 4).matches_fixed, Some(true));
    assert_eq!(classify_pc_delta_late(138, 5).matches_fixed, Some(true));
    assert_eq!(classify_pc_delta_late(183, 6).matches_fixed, Some(true));
}

#[test]
fn late_direct_handlers_are_catalogued() {
    assert_eq!(handler_layout_b_late().len(), LATE_DIRECT_HANDLER_COUNT);
    let mut seen = std::collections::BTreeSet::new();
    for def in opcode_table_b_late() {
        if def.kind != OpcodeKind::Direct {
            continue;
        }
        let h = layout_for_late(def.opcode).unwrap_or_else(|| panic!("{}", def.handler));
        assert_eq!(h.handler, def.handler, "opcode {}", def.opcode);
        assert!(!h.family.is_empty(), "{}", def.handler);
        assert!(seen.insert(def.opcode), "duplicate {}", def.opcode);
    }
    assert_eq!(seen.len(), LATE_DIRECT_HANDLER_COUNT);
}

#[test]
fn classify_fixed_width_delta() {
    let hit = classify_pc_delta(14, 2);
    assert_eq!(hit.handler, Some("d6"));
    assert_eq!(hit.matches_fixed, Some(true));
    let miss = classify_pc_delta(14, 9);
    assert_eq!(miss.matches_fixed, Some(false));
    let var = classify_pc_delta(8, 11);
    assert_eq!(var.matches_fixed, None);
}

#[test]
fn tag_lookups_name_known_cases() {
    assert_eq!(xf_tag_kind(XF_TAG_STRING), Some("string"));
    assert_eq!(xf_tag_kind(0), None);
    assert!(xp_tag_kind(227).is_some());
    assert!(xi_type_kind(255).is_none());
    assert!(xi_type_kind(0).is_some());
    assert!(s1_kind_for_imm(66).is_some());
    assert!(s2_kind_for_imm(139).is_some());
    assert!(s1_kind_for_imm(1).is_none());
}
