use rlwe_encryption::polynomial::closest_integer_div_two;
use rlwe_encryption::polynomial::modulo_coefficients;
use rlwe_encryption::polynomial::rand_polynomial_within;
use rlwe_encryption::polynomial::ring_add;
use rlwe_encryption::polynomial::ring_mul;
use rlwe_encryption::polynomial::ring_sub;
use rlwe_encryption::polynomial::round_coefficients;
use rlwe_encryption::polynomial::scale_coefficients;
use rlwe_encryption::polynomial::to_fixed_coeffs_vec;
use rlwe_encryption::polynomial::RingElement;
use rlwe_encryption::IntField;

#[test]
fn test_rand_polynomial() {
    let rng = &mut rand::rng();
    let p = rand_polynomial_within(rng, 1, 512);
    p.coeffs.iter().for_each(|c| assert!(*c >= -1 && *c <= 1));
}

#[test]
fn test_closest_integer_div_two() {
    assert_eq!(closest_integer_div_two(1), 1);
    assert_eq!(closest_integer_div_two(2), 1);
    assert_eq!(closest_integer_div_two(3), 2);
    assert_eq!(closest_integer_div_two(5), 3);
    assert_eq!(closest_integer_div_two(7), 4);
    assert_eq!(closest_integer_div_two(13), 7);
}

#[test]
fn test_modulo_coefficients() {
    // Let q = 7, the field elements are: -3,-2,-1,0,1,2,3
    // the operations should be equivalent to the positive integers field: 4,5,6,0,1,2,3
    // E.g. the result of multiplication of 1st element and 2nd element should be -3 * -2 = 6 = -1 mod 7,
    // i.e. the 3rd element in the field which is equivalent to 6 in the positive integers field.
    let f = IntField { q: 7, b: 1, n: 4 };
    let p = RingElement::from_coeffs(vec![-9, -6, 0, 6]);
    let p = modulo_coefficients(&f, &p);
    assert_eq!(p.coeffs, [-2, 1, 0, -1]);
}

#[test]
fn test_modulo_coefficients_in_centred_range() {
    let f = IntField { q: 3329, b: 1, n: 8 };
    let p = RingElement::from_coeffs(vec![-100000, -1665, -1664, 0, 1664, 1665, 3329, 100000]);
    let r = modulo_coefficients(&f, &p);
    for c in r.coeffs.iter() {
        assert!(-1664 <= *c && *c <= 1664);
    }
    assert_eq!(r.coeffs, [-130, 1664, -1664, 0, 1664, -1664, 0, 130]);
}

#[test]
fn test_modulo_coefficients_idempotent() {
    let f = IntField { q: 7, b: 1, n: 4 };
    let p = RingElement::from_coeffs(vec![-9, -6, 0, 6]);
    let once = modulo_coefficients(&f, &p);
    let twice = modulo_coefficients(&f, &once);
    assert_eq!(once, twice);
}

#[test]
fn test_uniform_bound_zero_pins_samples() {
    // With an empty noise interval every sample must be exactly zero.
    let rng = &mut rand::rng();
    let p = rand_polynomial_within(rng, 0, 32);
    assert_eq!(p.coeffs, vec![0i64; 32]);
}

#[test]
fn test_ring_add_and_sub() {
    let a = RingElement::from_coeffs(vec![1, -2, 3, 0]);
    let b = RingElement::from_coeffs(vec![5, 5, -5, 2]);
    assert_eq!(ring_add(&a, &b).coeffs, [6, 3, -2, 2]);
    assert_eq!(ring_sub(&a, &b).coeffs, [-4, -7, 8, -2]);
}

#[test]
fn test_ring_mul_wraps_with_negated_sign() {
    // (1 + x) * (1 + x^3) over Z[x]/(x^4 + 1):
    // 1 + x + x^3 + x^4 == x^4 ≡ -1, so the result is x + x^3.
    let f = IntField { q: 101, b: 1, n: 4 };
    let a = RingElement::from_coeffs(vec![1, 1, 0, 0]);
    let b = RingElement::from_coeffs(vec![1, 0, 0, 1]);
    let r = ring_mul(&f, &a, &b);
    assert_eq!(r.coeffs, [0, 1, 0, 1]);
}

#[test]
fn test_scale_coefficients() {
    // half_up(7) == 4
    let f = IntField { q: 7, b: 1, n: 4 };
    let p = RingElement::from_coeffs(vec![0, 1, 1, 0]);
    assert_eq!(scale_coefficients(&f, &p).coeffs, [0, 4, 4, 0]);
}

#[test]
fn test_round_coefficients_threshold() {
    // For q = 3329 the threshold is (3330/2)/2 = 832: emit 1 iff |c| > 832.
    let f = IntField { q: 3329, b: 1, n: 8 };
    let p = RingElement::from_coeffs(vec![832, 833, -832, -833, 0, 1664, -1664, 100]);
    let r = round_coefficients(&f, &p);
    assert_eq!(r.coeffs, [0, 1, 0, 1, 0, 1, 1, 0]);
}

#[test]
fn test_to_fixed_coeffs_vec_pads() {
    let p = RingElement::from_coeffs(vec![4, 5]);
    assert_eq!(to_fixed_coeffs_vec(&p, 5), vec![4, 5, 0, 0, 0]);
}
