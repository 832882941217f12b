//! Deterministic integer noise: the Squirrel3 positional hash, its 2D
//! form, per-tile colour jitter, and exact threshold tests on the noise
//! fraction `hash / u32::MAX` used by town planning.
use vstd::prelude::*;

verus! {

/// Seed type for reproducible generation.
pub type NoiseSeed = u64;

/// Default per-tile colour noise range (plus or minus).
pub const TILE_COLOR_NOISE_RANGE: i16 = 2;

/// Wrapping multiplication on `u64`.
pub open spec fn wmul64(a: u64, b: u64) -> u64 {
    vstd::wrapping::u64_specs::wrapping_mul(a, b)
}

/// Wrapping addition on `u64`.
pub open spec fn wadd64(a: u64, b: u64) -> u64 {
    vstd::wrapping::u64_specs::wrapping_add(a, b)
}

/// The Squirrel3 positional hash: multiply by a large prime, add the seed,
/// and interleave xor-shift avalanche rounds; the low 32 bits are kept.
pub open spec fn squirrel3_spec(position: i32, seed: u64) -> u32 {
    let m0 = position as u64;
    let m1 = wmul64(m0, 0xB5297A4Du64);
    let m2 = wadd64(m1, seed);
    let m3 = m2 ^ (m2 >> 8u64);
    let m4 = wadd64(m3, 0x68E31DA4u64);
    let m5 = m4 ^ (m4 << 8u64);
    let m6 = wmul64(m5, 0x1B56C4E9u64);
    let m7 = m6 ^ (m6 >> 8u64);
    m7 as u32
}

/// 2D noise: the coordinates are combined with a large prime stride
/// (with `i32` wrap-around) before hashing.
#[verifier::opaque]
pub open spec fn noise2d_spec(x: i32, y: i32, seed: u64) -> u32 {
    let position = vstd::wrapping::i32_specs::wrapping_add(
        x,
        vstd::wrapping::i32_specs::wrapping_mul(y, 198491i32),
    );
    squirrel3_spec(position, seed)
}

/// Squirrel3 positional noise hash.
pub fn squirrel3(position: i32, seed: u64) -> (r: u32)
    ensures
        r == squirrel3_spec(position, seed),
{
    let mut mangled: u64 = position as u64;
    mangled = mangled.wrapping_mul(0xB5297A4Du64);
    mangled = mangled.wrapping_add(seed);
    mangled = mangled ^ (mangled >> 8u64);
    mangled = mangled.wrapping_add(0x68E31DA4u64);
    mangled = mangled ^ (mangled << 8u64);
    mangled = mangled.wrapping_mul(0x1B56C4E9u64);
    mangled = mangled ^ (mangled >> 8u64);
    proof {
        reveal(squirrel3_spec);
    }
    mangled as u32
}

/// 2D noise hash of a grid coordinate.
pub fn noise2d(x: i32, y: i32, seed: u64) -> (r: u32)
    ensures
        r == noise2d_spec(x, y, seed),
{
    let position = x.wrapping_add(y.wrapping_mul(198491i32));
    proof {
        reveal(noise2d_spec);
    }
    squirrel3(position, seed)
}

/// Clamps an integer to the channel range `[0, 255]`.
pub open spec fn clamp_channel(v: int) -> int {
    if v < 0 { 0 } else if v > 255 { 255 } else { v }
}

/// The offset in `[-range, range]` taken from the hash bits starting at
/// `shift`.
pub open spec fn channel_offset(h: u32, shift: u32, range: int) -> int {
    ((h >> shift) as int) % (2 * range + 1) - range
}

/// The colour produced by per-tile noise: each channel is shifted by an
/// offset drawn from a different slice of the tile's hash, then clamped.
pub open spec fn tile_color_spec(r: u8, g: u8, b: u8, x: i32, y: i32, range: int) -> (u8, u8, u8) {
    if range == 0 {
        (r, g, b)
    } else {
        let h = noise2d_spec(x, y, 0xA3B1_C5D7u64);
        (
            clamp_channel(r + channel_offset(h, 0, range)) as u8,
            clamp_channel(g + channel_offset(h, 11, range)) as u8,
            clamp_channel(b + channel_offset(h, 22, range)) as u8,
        )
    }
}

/// Applies deterministic per-tile colour noise to an RGB colour: a stable
/// offset in `[-range, +range]` per channel, derived from a hash of the
/// tile's world coordinates, clamped to `[0, 255]`.
pub fn tile_color_noise(r: u8, g: u8, b: u8, x: i32, y: i32, range: i16) -> (res: (u8, u8, u8))
    requires
        0 <= range <= 16383,
    ensures
        res == tile_color_spec(r, g, b, x, y, range as int),
        r - range <= res.0 <= r + range,
        g - range <= res.1 <= g + range,
        b - range <= res.2 <= b + range,
{
    if range == 0 {
        return (r, g, b);
    }
    let h = noise2d(x, y, 0xA3B1_C5D7u64);
    let span: u32 = (2 * range + 1) as u32;
    let dr: i16 = (h % span) as i16 - range;
    let dg: i16 = ((h >> 11u32) % span) as i16 - range;
    let db: i16 = ((h >> 22u32) % span) as i16 - range;
    proof {
        assert((h >> 0u32) == h) by (bit_vector);
    }
    (clamp_u8(r as i16 + dr), clamp_u8(g as i16 + dg), clamp_u8(b as i16 + db))
}

/// Clamps to `[0, 255]`.
fn clamp_u8(v: i16) -> (r: u8)
    ensures
        r == clamp_channel(v as int),
{
    if v < 0 { 0 } else if v > 255 { 255 } else { v as u8 }
}

/// Whether the noise fraction `h / u32::MAX` is below `num / den`.
pub open spec fn fraction_below(h: u32, num: int, den: int) -> bool {
    h * den < num * 0xFFFF_FFFF
}

/// Whether the noise fraction `h / u32::MAX` is above `num / den`.
pub open spec fn fraction_above(h: u32, num: int, den: int) -> bool {
    h * den > num * 0xFFFF_FFFF
}

/// `floor(k * h / u32::MAX)`: the noise fraction scaled by `k` and
/// rounded down.
pub open spec fn fraction_scaled(h: u32, k: int) -> int {
    (h * k) / 0xFFFF_FFFF
}

/// Whether the noise fraction at `(x, y)` is below `num / den`.
pub fn noise_below(x: i32, y: i32, seed: u64, num: u64, den: u64) -> (r: bool)
    requires
        den <= 1000,
        num <= den,
    ensures
        r == fraction_below(noise2d_spec(x, y, seed), num as int, den as int),
{
    let h = noise2d(x, y, seed) as u64;
    proof {
        assert(h * den <= 0xFFFF_FFFF * 1000) by (nonlinear_arith)
            requires h <= 0xFFFF_FFFF, den <= 1000;
        assert(num * 0xFFFF_FFFF <= 1000 * 0xFFFF_FFFF) by (nonlinear_arith)
            requires num <= 1000;
    }
    h * den < num * 0xFFFF_FFFFu64
}

/// Whether the noise fraction at `(x, y)` is above `num / den`.
pub fn noise_above(x: i32, y: i32, seed: u64, num: u64, den: u64) -> (r: bool)
    requires
        den <= 1000,
        num <= den,
    ensures
        r == fraction_above(noise2d_spec(x, y, seed), num as int, den as int),
{
    let h = noise2d(x, y, seed) as u64;
    proof {
        assert(h * den <= 0xFFFF_FFFF * 1000) by (nonlinear_arith)
            requires h <= 0xFFFF_FFFF, den <= 1000;
        assert(num * 0xFFFF_FFFF <= 1000 * 0xFFFF_FFFF) by (nonlinear_arith)
            requires num <= 1000;
    }
    h * den > num * 0xFFFF_FFFFu64
}

/// The noise fraction at `(x, y)` scaled by `k` and rounded down: a value
/// in `[0, k]`.
pub fn noise_scaled(x: i32, y: i32, seed: u64, k: u64) -> (r: i32)
    requires
        k <= 1_000_000,
    ensures
        r == fraction_scaled(noise2d_spec(x, y, seed), k as int),
        0 <= r <= k,
{
    let h = noise2d(x, y, seed) as u64;
    proof {
        assert(h * k <= 0xFFFF_FFFF * k) by (nonlinear_arith)
            requires h <= 0xFFFF_FFFF;
        assert(0xFFFF_FFFF * k <= 0xFFFF_FFFF * 1_000_000) by (nonlinear_arith)
            requires k <= 1_000_000;
        vstd::arithmetic::div_mod::lemma_div_is_ordered((h * k) as int, (0xFFFF_FFFF * k) as int, 0xFFFF_FFFF);
        vstd::arithmetic::div_mod::lemma_div_multiples_vanish(k as int, 0xFFFF_FFFF);
        assert(0xFFFF_FFFF * k == k * 0xFFFF_FFFF) by (nonlinear_arith);
    }
    ((h * k) / 0xFFFF_FFFFu64) as i32
}

/// `trunc((h / u32::MAX - 1/2) * 6)`: a signed offset in `[-3, 3]`, where
/// the product is taken as a binary64 floating-point value before the
/// truncation; that rounding matters only at `h = 2863311530`, the
/// fraction 2/3, whose product falls just below 1.
pub open spec fn centered_offset6(h: u32) -> int {
    let n = 6 * h - 3 * 0xFFFF_FFFF;
    if h == 2863311530 {
        0
    } else if n >= 0 {
        n / 0xFFFF_FFFF
    } else {
        -((-n) / 0xFFFF_FFFF)
    }
}

/// The centred offset of the noise at `(x, y)`: a value in `[-3, 3]`.
pub fn noise_offset6(x: i32, y: i32, seed: u64) -> (r: i32)
    ensures
        r == centered_offset6(noise2d_spec(x, y, seed)),
        -3 <= r <= 3,
{
    let h = noise2d(x, y, seed);
    if h == 2863311530u32 {
        return 0;
    }
    let n: i64 = 6 * (h as i64) - 3 * 0xFFFF_FFFFi64;
    if n >= 0 {
        proof {
            vstd::arithmetic::div_mod::lemma_div_is_ordered(n as int, 3 * 0xFFFF_FFFFint, 0xFFFF_FFFFint);
            vstd::arithmetic::div_mod::lemma_div_multiples_vanish(3, 0xFFFF_FFFF);
            assert(3 * 0xFFFF_FFFFint == 0xFFFF_FFFFint * 3);
        }
        (n / 0xFFFF_FFFFi64) as i32
    } else {
        let m: i64 = -n;
        proof {
            vstd::arithmetic::div_mod::lemma_div_is_ordered(m as int, 3 * 0xFFFF_FFFFint, 0xFFFF_FFFFint);
            vstd::arithmetic::div_mod::lemma_div_multiples_vanish(3, 0xFFFF_FFFF);
            assert(3 * 0xFFFF_FFFFint == 0xFFFF_FFFFint * 3);
        }
        -((m / 0xFFFF_FFFFi64) as i32)
    }
}

} // verus!
