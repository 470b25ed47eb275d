use cf::fo_body::{
    body_chars_in_charset, charset_is_well_formed, classify_fo_body_len, extract_compressor_charset,
    live_fo_wrapper, looks_like_custom_b64, same_prefix, unique_alphabet, xtea_key_index,
    FoBodyLenBand, CHARSET_BRANCH_B, CHARSET_BRANCH_G, CHROME_FO_FOLLOW_UP_LENS,
    CHROME_FO_INIT_LENS, CHROME_FO_PREFIXES_B, RSA_BLOB_LEN,
};
use cf::rsa_encryption::PUBLIC_KEY_HEX;

#[test]
fn charsets_are_permutations_of_the_same_set() {
    assert!(charset_is_well_formed(CHARSET_BRANCH_B));
    assert!(charset_is_well_formed(CHARSET_BRANCH_G));
    assert_ne!(CHARSET_BRANCH_B, CHARSET_BRANCH_G);
    assert_eq!(unique_alphabet(CHARSET_BRANCH_B), unique_alphabet(CHARSET_BRANCH_G));
    assert_eq!(CHARSET_BRANCH_B.len(), 65);
    assert_eq!(CHARSET_BRANCH_B.as_bytes()[64], b'w');
    assert_eq!(CHARSET_BRANCH_G.as_bytes()[64], b'Q');
    assert_eq!(live_fo_wrapper().rsa_exponent, 65537);
    assert_eq!(live_fo_wrapper().pubkey_hex, PUBLIC_KEY_HEX);
    assert_eq!(PUBLIC_KEY_HEX.len(), 258);
}

#[test]
fn chrome_prefixes_are_custom_b64_not_standard() {
    let mut saw_dollar = false;
    for prefix in CHROME_FO_PREFIXES_B {
        assert!(looks_like_custom_b64(prefix), "prefix {prefix} not in live charset");
        assert!(body_chars_in_charset(prefix, CHARSET_BRANCH_G));
        if prefix.contains('$') {
            saw_dollar = true;
        }
    }
    assert!(saw_dollar, "at least one Chrome prefix uses $ (not standard b64)");
    assert!(!looks_like_custom_b64("cSTZrlWxKogI4i6I===="));
    assert!(!body_chars_in_charset("abc/def", CHARSET_BRANCH_B));
}

#[test]
fn length_bands_match_headed_chrome() {
    for len in CHROME_FO_INIT_LENS {
        assert_eq!(classify_fo_body_len(len), FoBodyLenBand::Init, "{len}");
    }
    for len in CHROME_FO_FOLLOW_UP_LENS {
        assert_eq!(classify_fo_body_len(len), FoBodyLenBand::FollowUp, "{len}");
    }
    assert_eq!(classify_fo_body_len(12), FoBodyLenBand::Other);
    assert!(same_prefix(
        "GIgYSecMoIjsYqQYUIzNB6EhAAAA",
        "GIgYSecMoIjsYqQYUIzNB6EhBBBB",
        24
    ));
}

#[test]
fn xtea_key_index_fits_n_buffer() {
    for pad in 0..8 {
        let i = xtea_key_index(pad);
        assert_eq!(i, pad * 9 + 40);
        assert!(i + 16 <= RSA_BLOB_LEN, "pad {pad} key {i}");
    }
    assert_eq!(xtea_key_index(0), 40);
    assert_eq!(xtea_key_index(7), 103);
}

#[test]
fn extract_charset_from_tiny_html() {
    let html = format!("i=`{CHARSET_BRANCH_B}`,D=BigInt(`0x{PUBLIC_KEY_HEX}`)");
    assert_eq!(extract_compressor_charset(&html), Some(CHARSET_BRANCH_B));
    assert!(html.contains(PUBLIC_KEY_HEX));
}

#[test]
fn band_edges_and_prefix_mismatch() {
    assert_eq!(classify_fo_body_len(2999), FoBodyLenBand::Other);
    assert_eq!(classify_fo_body_len(3000), FoBodyLenBand::Init);
    assert_eq!(classify_fo_body_len(5000), FoBodyLenBand::Init);
    assert_eq!(classify_fo_body_len(70000), FoBodyLenBand::FollowUp);
    assert_eq!(classify_fo_body_len(100001), FoBodyLenBand::Other);
    assert!(!same_prefix("abc", "abd", 3));
    assert!(same_prefix("abc", "abd", 2));
    assert!(!same_prefix("ab", "abc", 3));
    assert!(body_chars_in_charset("", CHARSET_BRANCH_B));
    assert_eq!(unique_alphabet("cbaab"), "abc");
    assert!(!charset_is_well_formed("abc"));
    assert_eq!(extract_compressor_charset("no charset here"), None);
}
