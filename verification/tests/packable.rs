use pumpkindb::packable::{pack_float_bytes, unpack_float_bytes, unpack_int, Packable, SignedMagnitude};

fn f32_roundtrip(v: f32) -> f32 {
    let packed = pack_float_bytes(&v.to_be_bytes());
    let bits = unpack_float_bytes(&packed, 4).unwrap();
    f32::from_be_bytes([bits[0], bits[1], bits[2], bits[3]])
}

fn f64_roundtrip(v: f64) -> f64 {
    let packed = pack_float_bytes(&v.to_be_bytes());
    let bits = unpack_float_bytes(&packed, 8).unwrap();
    let mut b = [0u8; 8];
    b.copy_from_slice(&bits);
    f64::from_be_bytes(b)
}

#[test]
fn test_f32_pos() {
    let v = 5.0f32;
    assert_eq!(v, f32_roundtrip(v));
}

#[test]
fn test_f32_neg() {
    let v = -5.0f32;
    assert_eq!(v, f32_roundtrip(v));
}

#[test]
fn test_f64_pos() {
    let v = 5.0f64;
    assert_eq!(v, f64_roundtrip(v));
}

#[test]
fn test_f64_neg() {
    let v = -5.0f64;
    assert_eq!(v, f64_roundtrip(v));
}

#[test]
fn packed_floats_sort_by_bytes() {
    let a = pack_float_bytes(&(-2.5f64).to_be_bytes());
    let b = pack_float_bytes(&(-1.0f64).to_be_bytes());
    let c = pack_float_bytes(&(3.0f64).to_be_bytes());
    assert!(a < b);
    assert!(b < c);
    assert_eq!(unpack_float_bytes(&a, 4), None);
}

#[test]
fn test_bigint() {
    let v = SignedMagnitude { negative: true, magnitude: vec![100] };
    let packed = v.pack();
    assert_eq!(packed, vec![0x00, 0x9c]);
    let back = unpack_int(&packed).unwrap();
    assert!(back.negative);
    assert_eq!(back.magnitude, vec![100]);
}

#[test]
fn positive_int_packs_with_sign_byte_one() {
    let v = SignedMagnitude { negative: false, magnitude: vec![1, 0] };
    assert_eq!(v.pack(), vec![0x01, 1, 0]);
    assert!(unpack_int(&[0x02, 1]).is_none());
}
