use rlwe_encryption::standard;
use rlwe_encryption::CipherText;
use rlwe_encryption::DecryptKey;
use rlwe_encryption::EncryptKey;
use rlwe_encryption::Message;
use rlwe_encryption::RlweError;
use rlwe_encryption::ZqI32;

#[test]
fn test_encrypt_key_round_trip() {
    let rng = &mut rand::rng();
    let (ek, _) = standard(rng);
    let buf = ek.serialize();
    assert_eq!(buf.len(), 512);
    let back = EncryptKey::deserialize(&ZqI32::field(), buf).unwrap();
    assert_eq!(back, ek);
}

#[test]
fn test_decrypt_key_round_trip() {
    let rng = &mut rand::rng();
    let (_, dk) = standard(rng);
    let buf = dk.serialize();
    assert_eq!(buf.len(), 256);
    let back = DecryptKey::deserialize(&ZqI32::field(), buf).unwrap();
    assert_eq!(back, dk);
}

#[test]
fn test_ciphertext_round_trip() {
    let rng = &mut rand::rng();
    let (ek, dk) = standard(rng);
    let m = Message::new(vec![1, 1, 0, 1], 256).unwrap();
    let c = ek.encrypt(rng, &m);
    let buf = c.serialize();
    assert_eq!(buf.len(), 512);
    let back = CipherText::deserialize(&ZqI32::field(), buf).unwrap();
    assert_eq!(back, c);
    let decrypted = dk.decrypt(&back);
    assert_eq!(&decrypted[..4], &[1, 1, 0, 1]);
}

#[test]
fn test_decrypt_key_short_payload_reports_mismatch() {
    let payload = vec![0i64; 255];
    let r = DecryptKey::deserialize(&ZqI32::field(), payload);
    assert_eq!(
        r.unwrap_err(),
        RlweError::DeserializationLengthMismatch { expected: 256, actual: 255 }
    );
}

#[test]
fn test_encrypt_key_wrong_length_reports_mismatch() {
    let r = EncryptKey::deserialize(&ZqI32::field(), vec![0i64; 513]);
    assert_eq!(
        r.unwrap_err(),
        RlweError::DeserializationLengthMismatch { expected: 512, actual: 513 }
    );
}

#[test]
fn test_ciphertext_wrong_length_reports_mismatch() {
    let r = CipherText::deserialize(&ZqI32::field(), vec![0i64; 100]);
    assert_eq!(
        r.unwrap_err(),
        RlweError::DeserializationLengthMismatch { expected: 512, actual: 100 }
    );
}

#[test]
fn test_serialized_key_halves_match_polynomials() {
    let rng = &mut rand::rng();
    let (ek, _) = standard(rng);
    let buf = ek.serialize();
    assert_eq!(&buf[..256], &ek.a.coeffs[..]);
    assert_eq!(&buf[256..], &ek.t.coeffs[..]);
}
