//! Small numeric helpers: power-of-two checks and alignment padding.

use vstd::prelude::*;

verus! {

/// True when `n` is a power of two representable in 64 bits (and hence
/// at least one).
pub open spec fn spec_is_pow2(n: int) -> bool {
    exists|k: u64| k < 64 && n == (1u64 << k) as int
}

/// A power of two is positive and fits in 64 bits.
pub proof fn lemma_pow2_pos(n: int)
    requires
        spec_is_pow2(n),
    ensures
        1 <= n <= u64::MAX,
{
    let k = choose|k: u64| k < 64 && n == (1u64 << k) as int;
    assert(1u64 << k >= 1) by (bit_vector)
        requires
            k < 64u64,
    ;
}

/// For a power of two `n`, masking with `n - 1` is reduction modulo `n`.
pub proof fn lemma_pow2_mask(x: u64, n: u64)
    requires
        spec_is_pow2(n as int),
    ensures
        n >= 1,
        x & (n - 1) as u64 == x % n,
{
    lemma_pow2_pos(n as int);
    let k = choose|k: u64| k < 64 && n as int == (1u64 << k) as int;
    vstd::bits::lemma_u64_pow2_no_overflow(k as nat);
    vstd::bits::lemma_u64_shl_is_mul(1u64, k);
    vstd::bits::lemma_u64_low_bits_mask_is_mod(x, k as nat);
}

/// A power-of-two test by enumeration, covering 1 up to 2^30.
pub fn is_power_of_2(x: u32) -> (r: bool)
    ensures
        r == exists|k: u32| k < 31 && x == (1u32 << k),
{
    proof {
        assert(1u32 << 0 == 1 && 1u32 << 1 == 2 && 1u32 << 2 == 4 && 1u32 << 3 == 8 && 1u32 << 4
            == 16 && 1u32 << 5 == 32 && 1u32 << 6 == 64 && 1u32 << 7 == 128 && 1u32 << 8 == 256
            && 1u32 << 9 == 512 && 1u32 << 10 == 1024 && 1u32 << 11 == 2048 && 1u32 << 12 == 4096
            && 1u32 << 13 == 8192 && 1u32 << 14 == 16384 && 1u32 << 15 == 32768 && 1u32 << 16
            == 65536 && 1u32 << 17 == 131072 && 1u32 << 18 == 262144 && 1u32 << 19 == 524288
            && 1u32 << 20 == 1048576 && 1u32 << 21 == 2097152 && 1u32 << 22 == 4194304 && 1u32
            << 23 == 8388608 && 1u32 << 24 == 16777216 && 1u32 << 25 == 33554432 && 1u32 << 26
            == 67108864 && 1u32 << 27 == 134217728 && 1u32 << 28 == 268435456 && 1u32 << 29
            == 536870912 && 1u32 << 30 == 1073741824) by (bit_vector);
        if exists|k: u32| k < 31 && x == (1u32 << k) {
            let k = choose|k: u32| k < 31 && x == (1u32 << k);
            assert(x == 1 || x == 2 || x == 4 || x == 8 || x == 16 || x == 32 || x == 64 || x
                == 128 || x == 256 || x == 512 || x == 1024 || x == 2048 || x == 4096 || x == 8192
                || x == 16384 || x == 32768 || x == 65536 || x == 131072 || x == 262144 || x
                == 524288 || x == 1048576 || x == 2097152 || x == 4194304 || x == 8388608 || x
                == 16777216 || x == 33554432 || x == 67108864 || x == 134217728 || x == 268435456
                || x == 536870912 || x == 1073741824) by (bit_vector)
                requires
                    k < 31u32,
                    x == (1u32 << k),
            ;
        }
    }
    matches!(
        x,
        1 | 2
            | 4
            | 8
            | 16
            | 32
            | 64
            | 128
            | 256
            | 512
            | 1024
            | 2048
            | 4096
            | 8192
            | 16384
            | 32768
            | 65536
            | 131072
            | 262144
            | 524288
            | 1048576
            | 2097152
            | 4194304
            | 8388608
            | 16777216
            | 33554432
            | 67108864
            | 134217728
            | 268435456
            | 536870912
            | 1073741824
    )
}

/// How many bytes must follow a block of `size` bytes so that the next block
/// starts on an `alignment` boundary.
pub fn find_padding_cust_align(size: usize, alignment: usize) -> (r: usize)
    requires
        alignment > 0,
    ensures
        r == (alignment - size % alignment) % (alignment as int),
        r < alignment,
{
    (alignment - (size % alignment)) % alignment
}

/// Padding up to the next 64-byte (cache line) boundary.
pub fn find_padding(size: usize) -> (r: usize)
    ensures
        r == (64 - size % 64) % 64,
        r < 64,
{
    (64 - (size % 64)) % 64
}

} // verus!
