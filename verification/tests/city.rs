use cachetable::city::{hash128to64, Uint128};

#[test]
fn test_hash128to64_zero() {
    let input = Uint128 { high: 0, low: 0 };
    let result = hash128to64(input);
    assert_eq!(result, 0);
}

#[test]
fn test_hash128to64_simple() {
    let input = Uint128 { high: 12345678, low: 87654321 };
    let result = hash128to64(input);
    assert_eq!(result, 6494853805899533833);
}

#[test]
fn test_hash128to64_max_values() {
    let input = Uint128 { high: u64::MAX, low: u64::MAX };
    let result = hash128to64(input);
    assert_eq!(result, 7819786907124864172);
}

#[test]
fn test_hash128to64_high_zero_low_max() {
    let input = Uint128 { high: 0, low: u64::MAX };
    let result = hash128to64(input);
    assert_eq!(result, 9210707058810147826);
}

#[test]
fn test_hash128to64_low_zero_high_max() {
    let input = Uint128 { high: u64::MAX, low: 0 };
    let result = hash128to64(input);
    assert_eq!(result, 12321761266182927892);
}

#[test]
fn test_rotate_known_values() {
    assert_eq!(cachetable::city::rotate(1, 1), 1u64 << 63);
    assert_eq!(cachetable::city::rotate(0xabcd, 0), 0xabcd);
    assert_eq!(cachetable::city::rotate_by_at_least1(1u64 << 63, 63), 1);
}

#[test]
fn test_shift_mix() {
    assert_eq!(cachetable::city::shift_mix(0), 0);
    assert_eq!(cachetable::city::shift_mix(u64::MAX), u64::MAX ^ (u64::MAX >> 47));
}

#[test]
fn test_fetch64_little_endian() {
    let bytes = [1u8, 2, 3, 4, 5, 6, 7, 8];
    assert_eq!(cachetable::city::fetch64(&bytes), 0x0807060504030201);
    let four = [0x78u8, 0x56, 0x34, 0x12];
    assert_eq!(cachetable::city::fetch32(&four), 0x12345678);
}

#[test]
fn test_hash_len0to16_empty() {
    let empty: [u8; 0] = [];
    // The empty input hashes to the fixed prime K2.
    assert_eq!(cachetable::city::hash_len0to16(&empty, 0), 0x9ae16a3b2f90404f);
}

#[test]
fn test_hash_len0to16_branches() {
    let bytes: Vec<u8> = (0u8..16).collect();
    assert_eq!(cachetable::city::hash_len0to16(&bytes, 3), 3812301328388858911);
    assert_eq!(cachetable::city::hash_len0to16(&bytes, 5), 1140541119273576799);
    assert_eq!(cachetable::city::hash_len0to16(&bytes, 12), 2367456114501413573);
}

#[test]
fn test_hash_len17to32_known_value() {
    let bytes: Vec<u8> = (0u8..32).collect();
    assert_eq!(cachetable::city::hash_len17to32(&bytes, 20), 13168975381019116650);
}

#[test]
fn test_weak_hash_len32_consistency() {
    let bytes: Vec<u8> = (0u8..32).collect();
    let direct = cachetable::city::weak_hash_len32_with_seeds(&bytes, 7, 9);
    let parts = cachetable::city::weak_hash_len32_with_seeds6(
        cachetable::city::fetch64(&bytes[0..]),
        cachetable::city::fetch64(&bytes[8..]),
        cachetable::city::fetch64(&bytes[16..]),
        cachetable::city::fetch64(&bytes[24..]),
        7,
        9,
    );
    assert_eq!(direct.low, parts.low);
    assert_eq!(direct.high, parts.high);
}
