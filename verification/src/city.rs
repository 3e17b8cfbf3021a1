//! Pieces of the CityHash family of byte-string hashes, over wrapping
//! 64-bit arithmetic. Little-endian byte order throughout, matching the
//! targets this crate is built for.

use vstd::prelude::*;
use vstd::slice::slice_subrange;
use vstd::wrapping::u64_specs;

verus! {

/// Some primes between 2^63 and 2^64 for various uses.
pub const K0: u64 = 0xc3a5c85c97cb3127;
pub const K1: u64 = 0xb492b66fbe98f273;
pub const K2: u64 = 0x9ae16a3b2f90404f;
pub const K3: u64 = 0xc949d7c7509e6557;

/// The Murmur-style mixing multiplier of the 128-to-64 reduction.
pub const K_MUL: u64 = 0x9ddfea08eb382d69;

/// A 128-bit value as two 64-bit halves.
pub struct Uint128 {
    pub low: u64,
    pub high: u64,
}

/// Wrapping 64-bit sum.
pub open spec fn wadd(a: u64, b: u64) -> u64 {
    u64_specs::wrapping_add(a, b)
}

/// Wrapping 64-bit difference.
pub open spec fn wsub(a: u64, b: u64) -> u64 {
    u64_specs::wrapping_sub(a, b)
}

/// Wrapping 64-bit product.
pub open spec fn wmul(a: u64, b: u64) -> u64 {
    u64_specs::wrapping_mul(a, b)
}

/// Right rotation of a 64-bit value.
pub open spec fn spec_rotate(val: u64, shift: u64) -> u64
    recommends
        shift < 64,
{
    if shift == 0 {
        val
    } else {
        (val >> shift) | (val << (64 - shift))
    }
}

/// The 128-to-64 reduction: Murmur-inspired mixing of the two halves.
pub open spec fn spec_hash128to64(low: u64, high: u64) -> u64 {
    let a1 = high ^ wmul(low, K_MUL);
    let a2 = a1 ^ (a1 >> 47);
    let b1 = wmul(high ^ a2, K_MUL);
    let b2 = b1 ^ (b1 >> 47);
    wmul(b2, K_MUL)
}

/// The little-endian 64-bit value of the eight bytes at `off`.
pub open spec fn spec_le64_at(s: Seq<u8>, off: int) -> u64
    recommends
        0 <= off,
        off + 8 <= s.len(),
{
    (s[off] + s[off + 1] * 0x100 + s[off + 2] * 0x1_0000 + s[off + 3] * 0x100_0000 + s[off + 4]
        * 0x1_0000_0000 + s[off + 5] * 0x100_0000_0000 + s[off + 6] * 0x1_0000_0000_0000 + s[off
        + 7] * 0x100_0000_0000_0000) as u64
}

/// The little-endian 32-bit value of the four bytes at `off`.
pub open spec fn spec_le32_at(s: Seq<u8>, off: int) -> u32
    recommends
        0 <= off,
        off + 4 <= s.len(),
{
    (s[off] + s[off + 1] * 0x100 + s[off + 2] * 0x1_0000 + s[off + 3] * 0x100_0000) as u32
}

/// What hashing up to sixteen bytes yields.
pub open spec fn spec_hash_len0to16(s: Seq<u8>, len: int) -> u64
    recommends
        0 <= len <= 16,
        len <= s.len(),
{
    if len > 8 {
        let a = spec_le64_at(s, 0);
        let b = spec_le64_at(s, len - 8);
        spec_hash128to64(a, spec_rotate(wadd(b, len as u64), len as u64)) ^ b
    } else if len >= 4 {
        let a = spec_le32_at(s, 0) as u64;
        spec_hash128to64((len as u64 + (a << 3)) as u64, spec_le32_at(s, len - 4) as u64)
    } else if len > 0 {
        let a = s[0];
        let b = s[len / 2];
        let c = s[len - 1];
        let y = (a as u32 + ((b as u32) << 8)) as u32;
        let z = (len as u32 + ((c as u32) << 2)) as u32;
        wmul(spec_shift_mix(wmul(y as u64, K2) ^ wmul(z as u64, K3)), K2)
    } else {
        K2
    }
}

/// What hashing seventeen to thirty-two bytes yields.
pub open spec fn spec_hash_len17to32(s: Seq<u8>, len: int) -> u64
    recommends
        16 <= len <= s.len(),
{
    let a = wmul(spec_le64_at(s, 0), K1);
    let b = spec_le64_at(s, 8);
    let c = wmul(spec_le64_at(s, len - 8), K2);
    let d = wmul(spec_le64_at(s, len - 16), K0);
    spec_hash128to64(
        wadd(wadd(spec_rotate(wsub(a, b), 43), spec_rotate(c, 30)), d),
        wadd(wsub(wadd(a, spec_rotate(b ^ K3, 20)), c), len as u64),
    )
}

/// Dispersal of a value by folding its high bits down.
pub open spec fn spec_shift_mix(val: u64) -> u64 {
    val ^ (val >> 47)
}

/// What the 32-byte seeded mix yields, as a (low, high) pair.
pub open spec fn spec_weak_hash_len32_with_seeds6(
    w: u64,
    x: u64,
    y: u64,
    z: u64,
    a: u64,
    b: u64,
) -> (u64, u64) {
    let a1 = wadd(a, w);
    let b1 = spec_rotate(wadd(wadd(b, a1), z), 21);
    let c = a1;
    let a2 = wadd(wadd(a1, x), y);
    let b2 = wadd(b1, spec_rotate(a2, 44));
    (wadd(a2, z), wadd(b2, c))
}

/// Hash 128 input bits down to 64 bits of output.
/// This is intended to be a reasonably good hash function.
pub fn hash128to64(x: Uint128) -> (r: u64)
    ensures
        r == spec_hash128to64(x.low, x.high),
{
    // Murmur-inspired hashing.
    let k_mul: u64 = 0x9ddfea08eb382d69;
    let mut a: u64 = x.high ^ x.low.wrapping_mul(k_mul);
    a = a ^ (a >> 47);
    let mut b: u64 = (x.high ^ a).wrapping_mul(k_mul);
    b = b ^ (b >> 47);
    b = b.wrapping_mul(k_mul);
    b
}

/// Bitwise right rotate. Normally this will compile to a single
/// instruction, especially if the shift is a manifest constant.
pub fn rotate(val: u64, shift: u64) -> (r: u64)
    requires
        shift < 64,
    ensures
        r == spec_rotate(val, shift),
{
    // Avoid shifting by 64: doing so yields an undefined result.
    match shift {
        0 => val,
        _ => (val >> shift) | (val << (64 - shift)),
    }
}

/// Equivalent to `rotate`, but requires the shift to be non-zero.
/// On x86-64, and probably others, it's possible for this to compile
/// to a single instruction if both args are already in registers.
pub fn rotate_by_at_least1(val: u64, shift: u64) -> (r: u64)
    requires
        1 <= shift < 64,
    ensures
        r == spec_rotate(val, shift),
{
    (val >> shift) | (val << (64 - shift))
}

/// Folds a value's high bits down over its low bits.
pub fn shift_mix(val: u64) -> (r: u64)
    ensures
        r == spec_shift_mix(val),
{
    val ^ (val >> 47)
}

/// The 128-to-64 reduction applied to a pair of 64-bit values.
pub fn hash_len16(u: u64, v: u64) -> (r: u64)
    ensures
        r == spec_hash128to64(u, v),
{
    let result = Uint128 { low: u, high: v };
    hash128to64(result)
}

/// Reads eight bytes as a little-endian 64-bit value.
pub fn unaligned_load64(p: &[u8]) -> (r: u64)
    requires
        p@.len() >= 8,
    ensures
        r == spec_le64_at(p@, 0),
{
    (p[0] as u64) + (p[1] as u64) * 0x100 + (p[2] as u64) * 0x1_0000 + (p[3] as u64) * 0x100_0000
        + (p[4] as u64) * 0x1_0000_0000 + (p[5] as u64) * 0x100_0000_0000 + (p[6] as u64)
        * 0x1_0000_0000_0000 + (p[7] as u64) * 0x100_0000_0000_0000
}

/// Reads four bytes as a little-endian 32-bit value.
pub fn unaligned_load32(p: &[u8]) -> (r: u32)
    requires
        p@.len() >= 4,
    ensures
        r == spec_le32_at(p@, 0),
{
    (p[0] as u32) + (p[1] as u32) * 0x100 + (p[2] as u32) * 0x1_0000 + (p[3] as u32) * 0x100_0000
}

/// Byte order adjustment for 32-bit reads; the identity on the
/// little-endian targets this crate is built for.
pub fn uint32_in_expected_order(x: u32) -> (r: u32)
    ensures
        r == x,
{
    x
}

/// Byte order adjustment for 64-bit reads; the identity on the
/// little-endian targets this crate is built for.
pub fn uint64_in_expected_order(x: u64) -> (r: u64)
    ensures
        r == x,
{
    x
}

/// The 64-bit fetch the hashes work with.
pub fn fetch64(p: &[u8]) -> (r: u64)
    requires
        p@.len() >= 8,
    ensures
        r == spec_le64_at(p@, 0),
{
    uint64_in_expected_order(unaligned_load64(p))
}

/// The 32-bit fetch the hashes work with.
pub fn fetch32(p: &[u8]) -> (r: u32)
    requires
        p@.len() >= 4,
    ensures
        r == spec_le32_at(p@, 0),
{
    uint32_in_expected_order(unaligned_load32(p))
}

/// Hashes the first `len` bytes of `s`, for `len` up to sixteen.
pub fn hash_len0to16(s: &[u8], len: usize) -> (r: u64)
    requires
        len <= s@.len(),
        len <= 16,
    ensures
        r == spec_hash_len0to16(s@, len as int),
{
    if len > 8 {
        let a = fetch64(s);
        let tail = slice_subrange(s, len - 8, s.len());
        let b = fetch64(tail);
        proof {
            assert(spec_le64_at(tail@, 0) == spec_le64_at(s@, len - 8));
        }
        return hash_len16(a, rotate_by_at_least1(b.wrapping_add(len as u64), len as u64)) ^ b;
    }
    if len >= 4 {
        let a: u64 = fetch32(s) as u64;
        let tail = slice_subrange(s, len - 4, s.len());
        let b = fetch32(tail);
        proof {
            assert(spec_le32_at(tail@, 0) == spec_le32_at(s@, len - 4));
        }
        proof {
            assert(a << 3u64 <= 0x7_ffff_fff8u64) by (bit_vector)
                requires
                    a <= 0xffff_ffffu64,
            ;
        }
        return hash_len16((len as u64) + (a << 3u64), b as u64);
    }
    if len > 0 {
        let a = s[0];
        let b = s[len / 2];
        let c = s[len - 1];
        proof {
            let bu = b as u32;
            let cu = c as u32;
            assert(bu << 8u32 <= 0xff00u32 && cu << 2u32 <= 0x3fcu32) by (bit_vector)
                requires
                    bu <= 0xffu32,
                    cu <= 0xffu32,
            ;
        }
        let y: u32 = (a as u32) + ((b as u32) << 8u32);
        let z: u32 = (len as u32) + ((c as u32) << 2u32);
        return shift_mix((y as u64).wrapping_mul(K2) ^ (z as u64).wrapping_mul(K3)).wrapping_mul(
            K2,
        );
    }
    K2
}

/// Hashes the first `len` bytes of `s`, for `len` from seventeen to
/// thirty-two. This probably works well for 16-byte strings as well, but it
/// may be overkill in that case.
pub fn hash_len17to32(s: &[u8], len: usize) -> (r: u64)
    requires
        16 <= len <= s@.len(),
    ensures
        r == spec_hash_len17to32(s@, len as int),
{
    let a: u64 = fetch64(s).wrapping_mul(K1);
    let mid = slice_subrange(s, 8, s.len());
    let b: u64 = fetch64(mid);
    let tail8 = slice_subrange(s, len - 8, s.len());
    let c: u64 = fetch64(tail8).wrapping_mul(K2);
    let tail16 = slice_subrange(s, len - 16, s.len());
    let d: u64 = fetch64(tail16).wrapping_mul(K0);
    proof {
        assert(spec_le64_at(mid@, 0) == spec_le64_at(s@, 8));
        assert(spec_le64_at(tail8@, 0) == spec_le64_at(s@, len - 8));
        assert(spec_le64_at(tail16@, 0) == spec_le64_at(s@, len - 16));
    }
    hash_len16(
        rotate(a.wrapping_sub(b), 43).wrapping_add(rotate(c, 30)).wrapping_add(d),
        a.wrapping_add(rotate(b ^ K3, 20)).wrapping_sub(c).wrapping_add(len as u64),
    )
}

/// Return a 16-byte hash for 48 bytes. Quick and dirty.
/// Callers do best to use "random-looking" values for a and b.
pub fn weak_hash_len32_with_seeds6(w: u64, x: u64, y: u64, z: u64, a: u64, b: u64) -> (r: Uint128)
    ensures
        (r.low, r.high) == spec_weak_hash_len32_with_seeds6(w, x, y, z, a, b),
{
    let mut a = a.wrapping_add(w);
    let mut b = rotate(b.wrapping_add(a).wrapping_add(z), 21);
    let c = a;
    a = a.wrapping_add(x);
    a = a.wrapping_add(y);
    b = b.wrapping_add(rotate(a, 44));

    Uint128 { low: a.wrapping_add(z), high: b.wrapping_add(c) }
}

/// Return a 16-byte hash for s[0] ... s[31], a, and b. Quick and dirty.
pub fn weak_hash_len32_with_seeds(s: &[u8], a: u64, b: u64) -> (r: Uint128)
    requires
        s@.len() >= 32,
    ensures
        (r.low, r.high) == spec_weak_hash_len32_with_seeds6(
            spec_le64_at(s@, 0),
            spec_le64_at(s@, 8),
            spec_le64_at(s@, 16),
            spec_le64_at(s@, 24),
            a,
            b,
        ),
{
    let p8 = slice_subrange(s, 8, s.len());
    let p16 = slice_subrange(s, 16, s.len());
    let p24 = slice_subrange(s, 24, s.len());
    proof {
        assert(spec_le64_at(p8@, 0) == spec_le64_at(s@, 8));
        assert(spec_le64_at(p16@, 0) == spec_le64_at(s@, 16));
        assert(spec_le64_at(p24@, 0) == spec_le64_at(s@, 24));
    }
    weak_hash_len32_with_seeds6(fetch64(s), fetch64(p8), fetch64(p16), fetch64(p24), a, b)
}

} // verus!
