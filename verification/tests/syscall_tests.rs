use kernel_core::syscall::{
    copy_clamped, format_user_record, parse_argv_blob, tier_from_u8, validate_user_ptr, write_dec, write_hex,
    write_str, USER_ADDR_LIMIT,
};
use kernel_core::tier::SecurityTier;
use kernel_core::tls_verifier::{build_certificate_verify_message, SpkiPinVerifier, TlsVerifyError};
use kernel_core::users::UserRegistry;
use p256::ecdsa::signature::hazmat::PrehashSigner;
use sha2::Digest;

#[test]
fn user_pointer_ranges() {
    assert!(validate_user_ptr(0x1000, 16));
    assert!(!validate_user_ptr(0, 16));
    assert!(!validate_user_ptr(0x1000, 0));
    assert!(!validate_user_ptr(USER_ADDR_LIMIT, 1));
    assert!(validate_user_ptr(USER_ADDR_LIMIT - 16, 16));
    assert!(!validate_user_ptr(USER_ADDR_LIMIT - 16, 17));
    assert!(!validate_user_ptr(u64::MAX - 1, 4));
    assert_eq!(tier_from_u8(2), SecurityTier::Sensitive);
    assert_eq!(tier_from_u8(200), SecurityTier::Secret);
}

#[test]
fn argv_blob_parsing() {
    let mut blob = vec![];
    blob.extend_from_slice(&2u32.to_le_bytes());
    blob.extend_from_slice(&3u32.to_le_bytes());
    blob.extend_from_slice(b"abc");
    blob.extend_from_slice(&0u32.to_le_bytes());
    let items = parse_argv_blob(&blob, 32).unwrap();
    assert_eq!(items.len(), 2);
    assert_eq!(items[0], b"abc");
    assert_eq!(items[1], b"");
    assert!(parse_argv_blob(&blob, 1).is_none());
    assert!(parse_argv_blob(&blob[..8], 32).is_none());
    assert!(parse_argv_blob(&[1, 0], 32).is_none());
}

#[test]
fn number_text() {
    let mut d = [0u8; 3];
    assert_eq!(write_dec(&mut d, 0), 1);
    assert_eq!(d[0], b'0');
    assert_eq!(write_dec(&mut d, 12345), 3);
    assert_eq!(&d, b"123");
    let mut h = [0u8; 16];
    assert_eq!(write_hex(&mut h, 0xBEEF), 4);
    assert_eq!(&h[..4], b"beef");
    let mut e: [u8; 0] = [];
    assert_eq!(write_hex(&mut e, 5), 0);
    let mut s = [9u8; 4];
    assert_eq!(write_str(&mut s, b"ab"), 2);
    assert_eq!(s, [b'a', b'b', 9, 9]);
    assert_eq!(copy_clamped(&mut s, b"wxyz!"), 4);
    assert_eq!(&s, b"wxyz");
}

#[test]
fn user_record_text() {
    let mut reg = UserRegistry::new();
    reg.init();
    let acc = reg.lookup_by_name(b"root").or_else(|| reg.lookup(0)).unwrap();
    let mut out = [0u8; 128];
    let n = format_user_record(acc, &mut out);
    let text = std::str::from_utf8(&out[..n]).unwrap();
    assert!(text.starts_with("uid=0 name="));
    assert!(text.contains(" tier="));
    assert!(text.contains(" flags=0x"));
    let mut short = [0u8; 6];
    assert_eq!(format_user_record(acc, &mut short), 6);
    assert_eq!(&short, &out[..6]);
}

#[test]
fn certificate_verify_signature_checks() {
    let th = [0x5Au8; 32];
    let msg = build_certificate_verify_message(&th);
    assert_eq!(msg.len(), 130);
    assert!(msg[..64].iter().all(|&b| b == 0x20));
    assert_eq!(&msg[64..97], b"TLS 1.3, server CertificateVerify");
    assert_eq!(msg[97], 0);

    let sk = p256::ecdsa::SigningKey::from_bytes(&[7u8; 32].into()).unwrap();
    let point = sk.verifying_key().to_encoded_point(false);
    let mut leaf = [0u8; 65];
    leaf.copy_from_slice(point.as_bytes());
    let digest = sha2::Sha256::digest(&msg);
    let sig: p256::ecdsa::Signature = sk.sign_prehash(&digest).unwrap();
    let bytes = sig.to_bytes();
    let der_int = |v: &[u8]| {
        let mut out = vec![0x02];
        let mut body: Vec<u8> = v.iter().copied().skip_while(|&b| b == 0).collect();
        if body.is_empty() || body[0] & 0x80 != 0 {
            body.insert(0, 0);
        }
        out.push(body.len() as u8);
        out.extend(body);
        out
    };
    let mut seq = der_int(&bytes[..32]);
    seq.extend(der_int(&bytes[32..]));
    let mut der = vec![0x30, seq.len() as u8];
    der.extend(seq);

    let mut v = SpkiPinVerifier::new();
    assert_eq!(v.verify_signature(true, &der), Err(TlsVerifyError::InvalidSignature));
    v.leaf_ec_point = Some(leaf);
    v.cert_transcript = Some(th);
    assert_eq!(v.verify_signature(false, &der), Err(TlsVerifyError::InvalidSignature));
    assert_eq!(v.verify_signature(true, &der), Ok(()));
    assert!(v.cert_transcript.is_none());
    v.cert_transcript = Some([0u8; 32]);
    assert_eq!(v.verify_signature(true, &der), Err(TlsVerifyError::InvalidSignature));
    assert_eq!(v.captured_leaf_point(), Some(&leaf));
    assert_eq!(v.verify_certificate(&th, &[None]), Err(TlsVerifyError::InvalidCertificate));
    assert_eq!(v.verify_certificate(&th, &[None, Some(&b"x"[..])]), Err(TlsVerifyError::InvalidCertificate));
    assert_eq!(v.verify_certificate(&th, &[Some(&b"x"[..]), Some(&b"y"[..])]), Err(TlsVerifyError::InvalidCertificate));
}
