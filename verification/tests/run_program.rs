use base64::Engine;
use cf::run_program::{
    analyze_packed_run_program_facts, unique_byte_count, unpack_packed_run_program, UnpackError,
    PACKED_RUN_PROGRAM_PREFIX, PACKED_RUN_PROGRAM_PREFIX_B, PACKED_RUN_PROGRAM_PREFIX_B_LATE,
    RUN_PROGRAM_MAGIC_BYTES, RUN_PROGRAM_MAGIC_BYTES_B, RUN_PROGRAM_MAGIC_BYTES_B_LATE,
};
use cf::run_program_ops::NEXT_GAP;
use cf::run_program_vm::{naive_one_byte_fetches, params_for_magic};

#[test]
fn magic_bytes_encode_to_known_prefix() {
    let mut raw = RUN_PROGRAM_MAGIC_BYTES.to_vec();
    raw.push(0x90);
    let encoded = base64::prelude::BASE64_STANDARD.encode(&raw);
    assert!(encoded.starts_with(PACKED_RUN_PROGRAM_PREFIX), "encoded {encoded} prefix {PACKED_RUN_PROGRAM_PREFIX}");
    let twelve = base64::prelude::BASE64_STANDARD.encode(&RUN_PROGRAM_MAGIC_BYTES[..12]);
    assert_eq!(&PACKED_RUN_PROGRAM_PREFIX[..16], twelve.trim_end_matches('='));
    let twelve_b = base64::prelude::BASE64_STANDARD.encode(&RUN_PROGRAM_MAGIC_BYTES_B[..12]);
    assert_eq!(PACKED_RUN_PROGRAM_PREFIX_B, twelve_b.trim_end_matches('='));
    let mut raw_b = RUN_PROGRAM_MAGIC_BYTES_B.to_vec();
    raw_b.push(0x80);
    let encoded_b = base64::prelude::BASE64_STANDARD.encode(&raw_b);
    assert!(encoded_b.starts_with(PACKED_RUN_PROGRAM_PREFIX_B), "encoded {encoded_b} prefix {PACKED_RUN_PROGRAM_PREFIX_B}");
    let twelve_late = base64::prelude::BASE64_STANDARD.encode(&RUN_PROGRAM_MAGIC_BYTES_B_LATE[..12]);
    assert_eq!(PACKED_RUN_PROGRAM_PREFIX_B_LATE, twelve_late.trim_end_matches('='));
}

#[test]
fn unpacks_synthetic_magic_payload() {
    let mut raw = RUN_PROGRAM_MAGIC_BYTES.to_vec();
    raw.push(0x90);
    raw.extend_from_slice(&[0u8; 64]);
    let packed = base64::prelude::BASE64_STANDARD.encode(&raw);
    assert!(packed.starts_with(PACKED_RUN_PROGRAM_PREFIX));
    let unpacked = unpack_packed_run_program(&packed).unwrap();
    assert_eq!(&unpacked[..13], &RUN_PROGRAM_MAGIC_BYTES);
    let report = analyze_packed_run_program_facts(&packed);
    assert!(report.decode_ok);
    assert!(report.magic_ok);
    assert!(!report.looks_like_javascript);
    assert!(!report.looks_like_zlib);
    assert_eq!(report.next_gap, NEXT_GAP);
}

#[test]
fn rejects_javascript() {
    let report = analyze_packed_run_program_facts("function hello(){ return 1; }");
    assert!(!report.decode_ok || report.looks_like_javascript);
}

#[test]
fn unpack_errors_and_padding() {
    assert_eq!(unpack_packed_run_program("abc").unwrap_err(), UnpackError::TooShort(3));
    assert_eq!(unpack_packed_run_program("  ab c\n\t ").unwrap_err(), UnpackError::TooShort(3));
    assert_eq!(unpack_packed_run_program("ryrCJzUnLCItNTiVeJ!!").unwrap_err(), UnpackError::NotStandardBase64);
    assert_eq!(unpack_packed_run_program("ryrCJzUnLCItNTiVeJ=A").unwrap_err(), UnpackError::DecodeFailed);
    let raw: Vec<u8> = (0u8..20).collect();
    let packed = base64::prelude::BASE64_STANDARD_NO_PAD.encode(&raw);
    assert_eq!(unpack_packed_run_program(&packed).unwrap(), raw);
    let spaced: String = packed.chars().flat_map(|c| [c, '\n']).collect();
    assert_eq!(unpack_packed_run_program(&spaced).unwrap(), raw);
}

#[test]
fn facts_of_decoded_program() {
    let mut raw = RUN_PROGRAM_MAGIC_BYTES_B.to_vec();
    raw.extend_from_slice(&[1, 2, 2, 3]);
    let packed = base64::prelude::BASE64_STANDARD.encode(&raw);
    let f = analyze_packed_run_program_facts(&packed);
    assert!(f.standard_b64 && f.decode_ok && f.magic_ok);
    assert_eq!(f.bytecode, raw);
    assert_eq!(f.magic_hex, "4d7e689b2e3c353f362e9d6e79");
    assert_eq!(f.header_latin1, "M~h..<5?6..ny");
    assert_eq!(f.unique_body_bytes, 3);
    assert_eq!(f.packed_chars, packed.len());
    let mut z = RUN_PROGRAM_MAGIC_BYTES_B.to_vec();
    z.extend_from_slice(&[0x78, 0x9c, 0, 0]);
    let fz = analyze_packed_run_program_facts(&base64::prelude::BASE64_STANDARD.encode(&z));
    assert!(fz.looks_like_zlib);
    assert_eq!(fz.next_gap, "bytecode_looks_like_zlib");
    let other = analyze_packed_run_program_facts(&base64::prelude::BASE64_STANDARD.encode(&[9u8; 20]));
    assert_eq!(other.next_gap, "bytecode_magic_mismatch");
    assert_eq!(unique_byte_count(&[5, 5, 5]), 1);
    assert_eq!(unique_byte_count(&[]), 0);
    let (params, table) = params_for_magic(&f.bytecode).unwrap();
    let stream = naive_one_byte_fetches(&f.bytecode, params, &table, 8);
    assert!(stream.fetches[0].mapped);
}

#[test]
fn unpack_inverts_standard_encoding() {
    let mut raw = RUN_PROGRAM_MAGIC_BYTES.to_vec();
    raw.push(0x90);
    raw.extend_from_slice(&[0u8; 64]);
    raw.push(7);
    let padded = base64::prelude::BASE64_STANDARD.encode(&raw);
    assert!(padded.ends_with('='));
    assert_eq!(unpack_packed_run_program(&padded).unwrap(), raw);
    let bare = padded.trim_end_matches('=').to_string();
    assert_eq!(unpack_packed_run_program(&bare).unwrap(), raw);
    let wrapped: String = padded.chars().enumerate().flat_map(|(i, c)| if i % 16 == 15 { vec![c, '\r', '\n'] } else { vec![c] }).collect();
    assert_eq!(unpack_packed_run_program(&wrapped).unwrap(), raw);
}
