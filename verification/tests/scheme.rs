use rlwe_encryption::key_gen;
use rlwe_encryption::standard;
use rlwe_encryption::IntField;
use rlwe_encryption::Message;
use rlwe_encryption::RlweError;
use rlwe_encryption::ZqI32;

#[test]
fn test_standard_round_trip() {
    let rng = &mut rand::rng();
    let (ek, dk) = standard(rng);
    let message = Message::new(vec![0, 1, 0, 1], 256).unwrap();
    let ciphertext = ek.encrypt(rng, &message);
    let decrypted = dk.decrypt(&ciphertext);
    assert_eq!(decrypted.len(), 256);
    assert_eq!(&decrypted[..4], &[0, 1, 0, 1]);
}

#[test]
fn test_large_field_round_trip() {
    // 2 * 512 * 16^2 + 16 = 262,160 < 8,383,489 / 4 = 2,095,872.
    let f = IntField { q: 8383489, b: 16, n: 512 };
    assert!(f.valid());
    let rng = &mut rand::rng();
    let (ek, dk) = key_gen(&f, rng);
    let message = Message::new(vec![1, 0, 0, 1], 512).unwrap();
    let ciphertext = ek.encrypt(rng, &message);
    let decrypted = dk.decrypt(&ciphertext);
    assert_eq!(decrypted.len(), 512);
    assert_eq!(&decrypted[..4], &[1, 0, 0, 1]);
    assert!(decrypted[4..].iter().all(|c| *c == 0));
}

#[test]
fn test_full_length_random_message_round_trip() {
    let rng = &mut rand::rng();
    let (ek, dk) = standard(rng);
    let message = Message::random(rng, 256);
    let expected = message.clone().data();
    let ciphertext = ek.encrypt(rng, &message);
    let decrypted = dk.decrypt(&ciphertext);
    assert_eq!(decrypted, expected);
}

#[test]
fn test_invalid_parameters_rejected() {
    // 2*4*1 + 1 = 9 >= 7/4, far over the bound.
    let too_small = IntField { q: 7, b: 1, n: 4 };
    assert!(!too_small.valid());
    let even = IntField { q: 3330, b: 1, n: 256 };
    assert!(!even.valid());
    let zero_bound = IntField { q: 3329, b: 0, n: 256 };
    assert!(!zero_bound.valid());
}

#[test]
fn test_message_with_non_bit_entry_rejected() {
    let r = Message::new(vec![1, 0, 2], 256);
    assert_eq!(r, Err(RlweError::InvalidMessage));
}

#[test]
fn test_message_too_long_rejected() {
    let r = Message::new(vec![1, 0, 1], 2);
    assert_eq!(r, Err(RlweError::InvalidMessage));
}

#[test]
fn test_message_accessors() {
    let m = Message::new(vec![1, 0, 1], 8).unwrap();
    assert_eq!(m.len(), 3);
    assert!(!m.is_empty());
    let empty = Message::new(vec![], 8).unwrap();
    assert_eq!(empty.len(), 0);
    assert!(empty.is_empty());
    assert_eq!(m.data(), vec![1, 0, 1]);
}

#[test]
fn test_message_random_is_bits() {
    let rng = &mut rand::rng();
    let m = Message::random(rng, 100);
    assert_eq!(m.len(), 100);
    assert!(m.data().iter().all(|b| *b == 0 || *b == 1));
}

#[test]
fn test_zq_i32_modulo() {
    assert_eq!(ZqI32::modulo(0), 0);
    assert_eq!(ZqI32::modulo(3329), 0);
    assert_eq!(ZqI32::modulo(1664), 1664);
    assert_eq!(ZqI32::modulo(1665), -1664);
    assert_eq!(ZqI32::modulo(-1), -1);
    assert_eq!(ZqI32::modulo(-3330), -1);
    assert_eq!(ZqI32::field().q, 3329);
    assert!(ZqI32::field().valid());
}

#[test]
fn test_key_shapes() {
    let rng = &mut rand::rng();
    let (ek, dk) = standard(rng);
    assert_eq!(ek.a.coeffs.len(), 256);
    assert_eq!(ek.t.coeffs.len(), 256);
    assert_eq!(dk.s.coeffs.len(), 256);
    assert!(ek.a.coeffs.iter().all(|c| -1664 <= *c && *c <= 1664));
    assert!(ek.t.coeffs.iter().all(|c| -1664 <= *c && *c <= 1664));
    assert!(dk.s.coeffs.iter().all(|c| -1 <= *c && *c <= 1));
}
