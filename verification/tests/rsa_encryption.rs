use cf::rsa_encryption::{encrypt_payload, PUBLIC_KEY_HEX, RSA_MODULUS_BE, RSA_PUBLIC_EXPONENT};

#[test]
fn encrypt_payload_still_zeros_n0_before_rsa() {
    let mut n = [7u8; 128];
    n[0] = 2;
    let charset = "ABCDEFGHIJKLMNOPQRSTUVWXYZabcdefghijklmnopqrstuvwxyz0123456789+$X";
    let out = encrypt_payload("{}", charset, &mut n);
    assert_eq!(n[0], 0);
    assert!(!out.is_empty());
    assert!(!out.contains('='));
}

#[test]
fn public_key_hex_is_129_bytes() {
    assert_eq!(PUBLIC_KEY_HEX.len(), 258);
    assert_eq!(RSA_PUBLIC_EXPONENT, 65537);
    assert!(PUBLIC_KEY_HEX.starts_with("00e9d3dc"));
}

#[test]
fn modulus_bytes_match_public_key_hex() {
    let hex: String = RSA_MODULUS_BE.iter().map(|b| format!("{b:02x}")).collect();
    assert_eq!(hex, PUBLIC_KEY_HEX);
}

#[test]
fn payload_is_deterministic_and_uses_the_alphabet() {
    let charset = "eoUfnCPsq3FtDYIAyr5hGd18az9ju+HbL-m$KJ0S24BpMQZVlvTkx6gXciW7REONw";
    let mut a = [9u8; 128];
    let mut b = [9u8; 128];
    let x = encrypt_payload("{\"k\":1}", charset, &mut a);
    let y = encrypt_payload("{\"k\":1}", charset, &mut b);
    assert_eq!(x, y);
    assert_eq!(a, b);
    assert!(x.chars().all(|c| charset[..64].contains(c)));
    // 128 RSA bytes + pad byte + a multiple of 8: base64 length without padding.
    let bytes = x.len() * 6 / 8;
    assert!(bytes >= 129 && (bytes - 129) % 8 == 0, "{}", x.len());
    let mut c = [9u8; 128];
    let z = encrypt_payload("{\"k\":2}", charset, &mut c);
    assert_ne!(x, z);
}
