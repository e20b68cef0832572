use kernel_core::spki_pin::{extract_ec_p256_point, extract_spki, verify_pin, DerError};
use kernel_core::tls_verifier::{decode_der_length, decode_ecdsa_p256_signature, der_integer_to_32};
use sha2::Digest;

#[test]
fn der_scanner_rejects_indefinite_length() {
    let bad = [0x30u8, 0x80, 0x00, 0x00];
    assert!(extract_spki(&bad).is_err());
}

#[test]
fn der_scanner_rejects_truncated_input() {
    let bad = [0x30u8, 0x64, 0x00, 0x00];
    assert!(extract_spki(&bad).is_err());
}

#[test]
fn decode_ecdsa_sig_strips_leading_zero() {
    let sig: [u8; 71] = [
        0x30, 0x45, 0x02, 0x21, 0x00, 0x80, 0x00, 0x00, 0x00, 0x00, 0x00, 0x00, 0x00, 0x00, 0x00,
        0x00, 0x00, 0x00, 0x00, 0x00, 0x00, 0x00, 0x00, 0x00, 0x00, 0x00, 0x00, 0x00, 0x00, 0x00,
        0x00, 0x00, 0x00, 0x00, 0x00, 0x00, 0x01, 0x02, 0x20, 0x7F, 0x00, 0x00, 0x00, 0x00, 0x00,
        0x00, 0x00, 0x00, 0x00, 0x00, 0x00, 0x00, 0x00, 0x00, 0x00, 0x00, 0x00, 0x00, 0x00, 0x00,
        0x00, 0x00, 0x00, 0x00, 0x00, 0x00, 0x00, 0x00, 0x00, 0x00, 0x02,
    ];
    let (r, s) = decode_ecdsa_p256_signature(&sig).expect("decode");
    assert_eq!(r[0], 0x80);
    assert_eq!(r[31], 0x01);
    assert_eq!(s[0], 0x7F);
    assert_eq!(s[31], 0x02);
}

#[test]
fn decode_ecdsa_sig_pads_short_integer() {
    let sig: [u8; 8] = [0x30, 0x06, 0x02, 0x01, 0x01, 0x02, 0x01, 0x02];
    let (r, s) = decode_ecdsa_p256_signature(&sig).expect("decode");
    assert_eq!(r[0..31], [0u8; 31]);
    assert_eq!(r[31], 0x01);
    assert_eq!(s[0..31], [0u8; 31]);
    assert_eq!(s[31], 0x02);
}

#[test]
fn decode_ecdsa_sig_rejects_garbage() {
    assert!(decode_ecdsa_p256_signature(&[]).is_none());
    assert!(decode_ecdsa_p256_signature(&[0x31, 0x00]).is_none());
    assert!(decode_ecdsa_p256_signature(&[0x30, 0xFF, 0x02, 0x01]).is_none());
}

/// A small certificate-shaped structure whose key info holds a P-256 point.
fn sample_spki() -> Vec<u8> {
    let mut point = vec![0x04u8];
    for i in 0..64u8 {
        point.push(i + 1);
    }
    let mut bitstring = vec![0x03u8, 66, 0x00];
    bitstring.extend_from_slice(&point);
    let alg = vec![0x30u8, 0x02, 0x06, 0x00];
    let mut body = alg.clone();
    body.extend_from_slice(&bitstring);
    let mut spki = vec![0x30u8, body.len() as u8];
    spki.extend_from_slice(&body);
    spki
}

fn sample_cert(spki: &[u8]) -> Vec<u8> {
    let mut tbs_body = vec![0xA0u8, 0x03, 0x02, 0x01, 0x02];
    tbs_body.extend_from_slice(&[0x02, 0x01, 0x07]);
    for _ in 0..4 {
        tbs_body.extend_from_slice(&[0x30, 0x00]);
    }
    tbs_body.extend_from_slice(spki);
    let mut tbs = vec![0x30u8, 0x81, tbs_body.len() as u8];
    tbs.extend_from_slice(&tbs_body);
    let mut cert_body = tbs.clone();
    cert_body.extend_from_slice(&[0x30, 0x00, 0x03, 0x01, 0x00]);
    let mut cert = vec![0x30u8, 0x81, cert_body.len() as u8];
    cert.extend_from_slice(&cert_body);
    cert
}

#[test]
fn spki_is_found_inside_a_certificate() {
    let spki = sample_spki();
    let cert = sample_cert(&spki);
    assert_eq!(extract_spki(&cert).unwrap(), &spki[..]);
    let point = extract_ec_p256_point(&spki).unwrap();
    assert_eq!(point.len(), 65);
    assert_eq!(point[0], 0x04);
    assert_eq!(&point[1..5], &[1, 2, 3, 4]);
    assert_eq!(point[64], 64);
}

#[test]
fn pin_matches_only_the_hash_of_the_key_info() {
    let spki = sample_spki();
    let cert = sample_cert(&spki);
    let digest = sha2::Sha256::digest(&spki);
    let mut pin = [0u8; 32];
    pin.copy_from_slice(&digest);
    assert_eq!(verify_pin(&cert, &pin), Ok(()));
    pin[0] ^= 1;
    assert_eq!(verify_pin(&cert, &pin), Err(DerError::InvalidStructure));
    assert_eq!(verify_pin(&[0x31, 0x00], &pin), Err(DerError::UnexpectedTag));
}

#[test]
fn point_extraction_rejects_other_keys() {
    let mut spki = sample_spki();
    let n = spki.len();
    spki[n - 65] = 0x02;
    assert_eq!(extract_ec_p256_point(&spki), Err(DerError::InvalidPublicKey));
    assert_eq!(extract_ec_p256_point(&[0x30, 0x02, 0x05, 0x00]), Err(DerError::Truncated));
    assert_eq!(extract_spki(&[0x30, 0x85, 1, 1, 1, 1, 1]), Err(DerError::LengthOverflow));
}

#[test]
fn der_lengths_and_integers() {
    assert_eq!(decode_der_length(&[0x05]), Some((5, 1)));
    assert_eq!(decode_der_length(&[0x82, 0x01, 0x00]), Some((256, 3)));
    assert_eq!(decode_der_length(&[0x80]), None);
    assert_eq!(decode_der_length(&[0x82, 0x01]), None);
    let v = der_integer_to_32(&[0x00, 0xFF]).unwrap();
    assert_eq!(v[31], 0xFF);
    assert_eq!(v[30], 0x00);
    assert!(der_integer_to_32(&[]).is_none());
    assert!(der_integer_to_32(&[1u8; 33]).is_none());
}
