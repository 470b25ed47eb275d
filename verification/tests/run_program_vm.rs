use cf::run_program::{RUN_PROGRAM_MAGIC_BYTES, RUN_PROGRAM_MAGIC_BYTES_B, RUN_PROGRAM_MAGIC_BYTES_B_LATE};
use cf::run_program_vm::{
    decode_opcode, encode_byte, fetch_branch_b, fetch_branch_b_late, fetch_branch_g, fetch_live,
    magic_header_naive_fetches, naive_one_byte_fetches, next_key, opcode_def, opcode_def_in,
    opcode_table, opcode_table_b, opcode_table_b_late, opcode_table_g, params_for_magic,
    params_from_oracle_fetch, step_fetch, verify_oracle_tuple, OpcodeKind, INIT_KEY, INIT_PC,
};

#[test]
fn tables_are_unique_69() {
    for table in [opcode_table_g(), opcode_table_b(), opcode_table_b_late()] {
        let mut seen = [false; 256];
        for def in &table {
            assert!(!seen[def.opcode as usize], "dup {}", def.opcode);
            seen[def.opcode as usize] = true;
        }
        assert_eq!(table.len(), 69);
    }
}

#[test]
fn fetch_roundtrip_both_builds() {
    for params in [fetch_branch_g(), fetch_branch_b(), fetch_branch_b_late()] {
        for key in [0u8, 1, params.init_key, 255] {
            for opcode in [0u8, 1, 8, 21, 222, 255] {
                let byte = encode_byte(params, key, opcode);
                assert_eq!(decode_opcode(params, key, byte), opcode);
                let mix = u64::from(key) + u64::from(opcode);
                let mixed = if params.key_quad_b == 0 {
                    mix * u64::from(params.key_mul) + u64::from(params.key_add)
                } else {
                    mix * mix * u64::from(params.key_mul)
                        + u64::from(params.key_quad_b) * mix
                        + u64::from(params.key_add)
                };
                assert_eq!(next_key(params, key, opcode), (mixed & 0xff) as u8);
            }
        }
    }
}

#[test]
fn g_magic_at_init_is_mapped_sf() {
    let g = fetch_branch_g();
    assert_eq!(decode_opcode(g, g.init_key, RUN_PROGRAM_MAGIC_BYTES[0]), 21);
    let table = opcode_table_g();
    assert_eq!(opcode_def_in(&table, 21).map(|d| d.handler), Some("sF"));
    let stream = magic_header_naive_fetches(&RUN_PROGRAM_MAGIC_BYTES, g, &table);
    assert_eq!(stream.fetches[0].opcode, 21);
    assert!(stream.fetches[0].mapped);
}

#[test]
fn b_magic_at_init_is_mapped_dn() {
    let b = fetch_branch_b();
    assert_eq!(decode_opcode(b, b.init_key, RUN_PROGRAM_MAGIC_BYTES_B[0]), 8);
    let table = opcode_table_b();
    assert_eq!(opcode_def_in(&table, 8).map(|d| d.handler), Some("dN"));
    let stream = magic_header_naive_fetches(&RUN_PROGRAM_MAGIC_BYTES_B, b, &table);
    assert_eq!(stream.fetches[0].pc, 0);
    assert_eq!(stream.fetches[0].key, 32);
    assert_eq!(stream.fetches[0].opcode, 8);
    assert!(stream.fetches[0].mapped);
}

#[test]
fn b_late_magic_at_init_is_mapped_xf() {
    let p = fetch_branch_b_late();
    assert_eq!(decode_opcode(p, p.init_key, RUN_PROGRAM_MAGIC_BYTES_B_LATE[0]), 222);
    let table = opcode_table_b_late();
    assert_eq!(opcode_def_in(&table, 222).map(|d| d.handler), Some("Xf"));
    let stream = magic_header_naive_fetches(&RUN_PROGRAM_MAGIC_BYTES_B_LATE, p, &table);
    assert_eq!(stream.fetches[0].pc, 0);
    assert_eq!(stream.fetches[0].key, 44);
    assert_eq!(stream.fetches[0].opcode, 222);
    assert!(stream.fetches[0].mapped);
    assert_eq!(stream.fetches[0].next_key, 197);
    assert_eq!(
        params_for_magic(&RUN_PROGRAM_MAGIC_BYTES_B_LATE).map(|(p, _)| p.label),
        Some(p.label)
    );
}

#[test]
fn quadratic_key_matches_reduced_mod_256() {
    let params = fetch_branch_b_late();
    let mix = u32::from(params.init_key) + 222;
    let full = u64::from(mix) * u64::from(mix) * 56_907 + 7_914 * u64::from(mix) + 22_357;
    let reduced = u64::from(mix) * u64::from(mix) * 75 + 234 * u64::from(mix) + 85;
    assert_eq!(full & 0xff, reduced & 0xff);
    assert_eq!(next_key(params, params.init_key, 222), (full & 0xff) as u8);
}

#[test]
fn wrapping_sub_37_equals_plus_219() {
    for byte in [0u8, 1, 37, 77, 0x4d, 255] {
        let a = byte.wrapping_sub(37);
        let b = byte.wrapping_add(219);
        assert_eq!(a, b, "byte {byte}");
    }
    for byte in [0u8, 1, 0xef, 253, 255] {
        assert_eq!(byte.wrapping_sub(253), byte.wrapping_add(3));
    }
}

#[test]
fn synthetic_mapped_stream_roundtrips() {
    let params = fetch_branch_b();
    let ops = [8u8, 247, 0];
    let mut key = params.init_key;
    let mut bytes = Vec::new();
    for op in ops {
        bytes.push(encode_byte(params, key, op));
        key = next_key(params, key, op);
    }
    let stream = naive_one_byte_fetches(&bytes, params, &opcode_table_b(), 8);
    assert_eq!(stream.fetches.iter().map(|f| f.opcode).collect::<Vec<_>>(), ops);
}

#[test]
fn oracle_tuple_helper_rejects_mismatch() {
    assert!(verify_oracle_tuple(fetch_branch_b(), 0, 32, 0x4d, 8).is_ok());
    assert!(verify_oracle_tuple(fetch_branch_b(), 0, 32, 0x4d, 0).is_err());
    assert!(verify_oracle_tuple(fetch_branch_g(), 0, 100, 0xaf, 21).is_ok());
    assert!(verify_oracle_tuple(fetch_branch_b_late(), 0, 44, 0xef, 222).is_ok());
    assert!(verify_oracle_tuple(fetch_branch_b_late(), 0, 44, 0xef, 8).is_err());
}

#[test]
fn live_params_are_the_late_quadratic_build() {
    let live = fetch_live();
    assert_eq!(live.label, fetch_branch_b_late().label);
    assert!(live.is_quadratic());
    assert!(!fetch_branch_b().is_quadratic());
    assert_eq!(INIT_PC, 0);
    assert_eq!(INIT_KEY, 44);
    assert_eq!(opcode_table().len(), 69);
    assert_eq!(opcode_def(8).map(|d| d.handler), Some("dN"));
    assert!(opcode_def(222).is_none());
}

#[test]
fn step_fetch_returns_opcode_and_next_key() {
    let p = fetch_branch_b_late();
    assert_eq!(step_fetch(p, 44, 0xef), (222, 197));
    let b = fetch_branch_b();
    assert_eq!(step_fetch(b, 32, 0x4d), (8, next_key(b, 32, 8)));
}

#[test]
fn oracle_fetch_selects_known_schedule() {
    let p = params_from_oracle_fetch(44, 253, 56907).expect("late build");
    assert_eq!(p.label, fetch_branch_b_late().label);
    assert!(params_from_oracle_fetch(1, 2, 3).is_none());
    let err = verify_oracle_tuple(fetch_branch_b(), 0, 32, 0x4d, 0).unwrap_err();
    assert!(!err.is_empty());
}
