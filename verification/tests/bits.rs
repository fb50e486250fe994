use pedersen_chain::bits::SCALAR_BITS;
use pedersen_chain::bits::le_bits;
use pedersen_chain::scalar::Scalar;

#[test]
fn le_bits_of_five() {
    let bits = le_bits(&Scalar::from_u64(5));
    assert_eq!(bits.len(), SCALAR_BITS);
    assert!(bits[0]);
    assert!(!bits[1]);
    assert!(bits[2]);
    for i in 3..SCALAR_BITS {
        assert!(!bits[i]);
    }
}

#[test]
fn le_bits_crosses_limb_boundary() {
    // The value 2^64 has exactly bit 64 set.
    let s = Scalar::from_limbs(0, 1, 0, 0).unwrap();
    let bits = le_bits(&s);
    for i in 0..SCALAR_BITS {
        assert_eq!(bits[i], i == 64);
    }
}

#[test]
fn le_bits_reconstructs_value() {
    let value: u64 = 0xDEAD_BEEF_0123_4567;
    let bits = le_bits(&Scalar::from_u64(value));
    let mut sum: u64 = 0;
    for i in (0..64).rev() {
        sum = sum.wrapping_shl(1);
        if bits[i] {
            sum += 1;
        }
    }
    assert_eq!(sum, value);
    for i in 64..SCALAR_BITS {
        assert!(!bits[i]);
    }
}
