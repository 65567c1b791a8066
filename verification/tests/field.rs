use peerdas_kzg::field::Scalar;

const MODULUS_BE: [u8; 32] = [
    0x73, 0xed, 0xa7, 0x53, 0x29, 0x9d, 0x7d, 0x48, 0x33, 0x39, 0xd8, 0x08, 0x09, 0xa1, 0xd8, 0x05, 0x53, 0xbd, 0xa4,
    0x02, 0xff, 0xfe, 0x5b, 0xfe, 0xff, 0xff, 0xff, 0xff, 0x00, 0x00, 0x00, 0x01,
];

fn s(x: u64) -> Scalar {
    Scalar::from_u64(x)
}

fn minus_one() -> Scalar {
    let mut bytes = MODULUS_BE;
    bytes[31] = 0;
    Scalar::from_bytes_be(&bytes).unwrap()
}

#[test]
fn small_arithmetic() {
    assert_eq!(s(7).add(&s(8)), s(15));
    assert_eq!(s(7).mul(&s(8)), s(56));
    assert_eq!(s(8).sub(&s(7)), s(1));
    assert_eq!(s(7).sub(&s(8)), minus_one());
    assert_eq!(s(1).neg(), minus_one());
    assert_eq!(s(0).neg(), s(0));
    assert_eq!(minus_one().add(&s(1)), s(0));
    assert_eq!(minus_one().mul(&minus_one()), s(1));
    assert_eq!(Scalar::zero(), s(0));
    assert_eq!(Scalar::one(), s(1));
}

#[test]
fn inverses() {
    assert!(s(0).invert().is_none());
    assert_eq!(s(1).invert().unwrap(), s(1));
    for x in [2u64, 7, 0xffff_ffff_ffff_ffff] {
        let inv = s(x).invert().unwrap();
        assert_ne!(inv, s(x));
        assert_eq!(inv.mul(&s(x)), s(1));
    }
    // the inverse of two is (modulus + 1) / 2
    let mut half = [0u8; 32];
    let mut carry = 0u8;
    for i in 0..32 {
        let v = if i == 31 { MODULUS_BE[i] + 1 } else { MODULUS_BE[i] };
        half[i] = (v >> 1) | (carry << 7);
        carry = v & 1;
    }
    assert_eq!(s(2).invert().unwrap(), Scalar::from_bytes_be(&half).unwrap());
}

#[test]
fn equality_and_zero() {
    assert!(s(5).equals(&s(5)));
    assert!(!s(5).equals(&s(6)));
    assert!(s(0).is_zero());
    assert!(!s(1).is_zero());
    assert!(s(3).sub(&s(3)).is_zero());
}

#[test]
fn big_endian_encoding() {
    let mut bytes = [0u8; 32];
    bytes[31] = 0x2a;
    bytes[30] = 0x01;
    assert_eq!(Scalar::from_bytes_be(&bytes).unwrap(), s(0x012a));
    assert_eq!(s(0x012a).to_bytes_be(), bytes);
    let mut le = bytes;
    le.reverse();
    assert_eq!(s(0x012a).to_bytes_le(), le);
    assert_eq!(s(0x0102_0304_0506_0708).to_bytes_be()[24..], [1, 2, 3, 4, 5, 6, 7, 8]);
}

#[test]
fn numbers_not_below_the_field_order_are_refused() {
    assert!(Scalar::from_bytes_be(&MODULUS_BE).is_none());
    assert!(Scalar::from_bytes_be(&[0xff; 32]).is_none());
    let mut above = MODULUS_BE;
    above[31] = 2;
    assert!(Scalar::from_bytes_be(&above).is_none());
    let mut below = MODULUS_BE;
    below[31] = 0;
    let largest = Scalar::from_bytes_be(&below).unwrap();
    assert_eq!(largest.to_bytes_be(), below);
    assert_eq!(largest.add(&s(2)), s(1));
}

#[test]
fn limbs_are_reduced() {
    assert_eq!(Scalar::from_limbs([5, 0, 0, 0]), s(5));
    // 2^64
    assert_eq!(Scalar::from_limbs([0, 1, 0, 0]), s(1 << 32).mul(&s(1 << 32)));
    // the field order is zero, and the field order plus three is three
    let m = [0xffff_ffff_0000_0001u64, 0x53bd_a402_fffe_5bfe, 0x3339_d808_09a1_d805, 0x73ed_a753_299d_7d48];
    assert_eq!(Scalar::from_limbs(m), s(0));
    assert_eq!(Scalar::from_limbs([m[0] + 3, m[1], m[2], m[3]]), s(3));
}

#[test]
fn wide_bytes_are_reduced() {
    let mut wide = [0u8; 64];
    wide[0] = 9;
    assert_eq!(Scalar::from_bytes_wide(&wide), s(9));
    // 2^256 is 2^64 four times over
    let mut wide = [0u8; 64];
    wide[32] = 1;
    let two64 = Scalar::from_limbs([0, 1, 0, 0]);
    assert_eq!(Scalar::from_bytes_wide(&wide), two64.mul(&two64).mul(&two64).mul(&two64));
    // the field order, little-endian, is zero
    let mut wide = [0u8; 64];
    for i in 0..32 {
        wide[i] = MODULUS_BE[31 - i];
    }
    assert_eq!(Scalar::from_bytes_wide(&wide), s(0));
}
