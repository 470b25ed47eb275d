use cf::fo_body::{classify_fo_body_len, same_prefix, FoBodyLenBand, CHROME_FO_FOLLOW_UP_LENS, CHROME_FO_INIT_LENS, CHROME_FO_PREFIXES_B};
use cf::fo_followup::{
    approx_lz_xtea_len, classify_fo_response_len, custom_b64_decoded_len, live_fo_followup,
    live_run_program_return, FoFollowUpPlaintextKind, FoResponseLenBand,
    CHROME_FO_FOLLOW_UP_RESP_LENS, CHROME_FO_INIT_RESP_LENS, NEXT_AFTER_FOLLOWUP_SHAPE,
    SHARED_PREFIX_CHARS,
};

#[test]
fn followup_shape_is_same_wrapper_not_a_packed_program() {
    let followup = live_fo_followup();
    let bridge = live_run_program_return();
    assert_eq!(followup.compressor_live_name, "f4");
    assert_eq!(followup.send_helper, "fj");
    assert_eq!(bridge.send_helper, "fj");
    assert_eq!(bridge.debug_logger, "fz");
    assert_eq!(bridge.body_encoder, "f3");
    assert_eq!(bridge.compressor_wrap, "f4");
    assert_ne!(bridge.send_helper, bridge.debug_logger);
    assert_eq!(followup.same_n_wrapper, followup.same_url);
    assert_eq!(followup.not_packed_program, followup.sent_after_run_program);
    assert_eq!(followup.plaintext_kind, FoFollowUpPlaintextKind::CompressedBlobAfterRunProgram);
    assert_eq!(NEXT_AFTER_FOLLOWUP_SHAPE, "handler_semantics");
    for len in CHROME_FO_FOLLOW_UP_LENS {
        assert_eq!(classify_fo_body_len(len), FoBodyLenBand::FollowUp, "{len}");
        let blob = approx_lz_xtea_len(len);
        assert!(blob > 50_000 && blob < 80_000, "follow-up LZ/XTEA {blob} from {len} chars");
    }
    for len in CHROME_FO_INIT_LENS {
        assert_eq!(classify_fo_body_len(len), FoBodyLenBand::Init, "{len}");
        assert!(approx_lz_xtea_len(len) < 10_000, "{len}");
    }
    for len in CHROME_FO_FOLLOW_UP_RESP_LENS {
        assert_eq!(classify_fo_response_len(len), FoResponseLenBand::FollowUpAck, "{len}");
    }
    for len in CHROME_FO_INIT_RESP_LENS {
        assert_eq!(classify_fo_response_len(len), FoResponseLenBand::PackedRunProgram, "{len}");
    }
    assert!(same_prefix(CHROME_FO_PREFIXES_B[0], CHROME_FO_PREFIXES_B[0], SHARED_PREFIX_CHARS));
}

#[test]
fn decoded_lengths_exact() {
    assert_eq!(custom_b64_decoded_len(0), 0);
    assert_eq!(custom_b64_decoded_len(4), 3);
    assert_eq!(custom_b64_decoded_len(86882), 65161);
    assert_eq!(custom_b64_decoded_len(usize::MAX), usize::MAX / 8);
    assert_eq!(approx_lz_xtea_len(86882), 65161 - 129);
    assert_eq!(approx_lz_xtea_len(100), 0);
    assert_eq!(classify_fo_response_len(12), FoResponseLenBand::Other);
}
