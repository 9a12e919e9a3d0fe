use zkwordle::digest::{Digest, Salt};
use zkwordle::hashing::HashEngine;

#[test]
fn fr_to_biguint_correct() {
    let zero = Digest::zero();
    let hash = HashEngine::new().merkle_hash(&zero, &zero).unwrap();

    let actual = hash.to_decimal();
    // matches circom's poseidon output for H(0, 0)
    let expected = "14744269619966411208579211824598458697587494354926760081771325075741142829156";

    assert_eq!(actual, expected);
}

#[test]
fn decimal_spelling_of_small_values() {
    assert_eq!(Digest::zero().to_decimal(), "0");
    assert_eq!(Digest { limbs: [7, 0, 0, 0] }.to_decimal(), "7");
    assert_eq!(Digest { limbs: [1234, 0, 0, 0] }.to_decimal(), "1234");
    assert_eq!(Salt { limbs: [1000000007, 0, 0, 0] }.to_decimal(), "1000000007");
}

#[test]
fn decimal_spelling_crosses_limb_boundaries() {
    // 2^64 and 2^64 + 5
    assert_eq!(
        Digest { limbs: [0, 1, 0, 0] }.to_decimal(),
        "18446744073709551616"
    );
    assert_eq!(
        Digest { limbs: [5, 1, 0, 0] }.to_decimal(),
        "18446744073709551621"
    );
    // the largest 256-bit value
    assert_eq!(
        Salt { limbs: [u64::MAX, u64::MAX, u64::MAX, u64::MAX] }.to_decimal(),
        "115792089237316195423570985008687907853269984665640564039457584007913129639935"
    );
}
