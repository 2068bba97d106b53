use vstd::prelude::*;

use vstd::arithmetic::div_mod::{
    lemma_basic_div, lemma_div_is_ordered, lemma_div_pos_is_pos, lemma_hoist_over_denominator,
    lemma_multiply_divide_lt,
};
use vstd::arithmetic::mul::{lemma_mul_inequality, lemma_mul_unary_negation};

verus! {

/// Division rounded to the nearest integer, ties away from zero. Every
/// conversion between a physical quantity and its fixed-point wire integer
/// rounds this way.
pub open spec fn round_div(n: int, d: int) -> int
    recommends
        d >= 1,
{
    if n >= 0 {
        (n + d / 2) / d
    } else {
        -((-n + d / 2) / d)
    }
}

/// `round_div(n, d) <= k` as soon as `n` rounds below `k + 1`.
pub proof fn lemma_round_div_upper(n: int, d: int, k: int)
    requires
        d >= 1,
        k >= 0,
        n + d / 2 < (k + 1) * d,
    ensures
        round_div(n, d) <= k,
{
    if n >= 0 {
        lemma_multiply_divide_lt(n + d / 2, d, k + 1);
    } else {
        lemma_div_pos_is_pos(-n + d / 2, d);
    }
}

/// `round_div(n, d) >= -k` as soon as `-n` rounds below `k + 1`.
pub proof fn lemma_round_div_lower(n: int, d: int, k: int)
    requires
        d >= 1,
        k >= 0,
        -n + d / 2 < (k + 1) * d,
    ensures
        round_div(n, d) >= -k,
{
    if n >= 0 {
        lemma_div_pos_is_pos(n + d / 2, d);
    } else {
        lemma_multiply_divide_lt(-n + d / 2, d, k + 1);
    }
}

/// Rounding an exact multiple recovers the factor.
pub proof fn lemma_round_div_exact(x: int, d: int)
    requires
        d >= 1,
    ensures
        round_div(x * d, d) == x,
{
    lemma_basic_div(d / 2, d);
    if x >= 0 {
        lemma_hoist_over_denominator(d / 2, x, d as nat);
        assert(x * d >= 0) by (nonlinear_arith)
            requires
                x >= 0,
                d >= 1,
        ;
    } else {
        lemma_mul_unary_negation(x, d);
        assert(x * d < 0) by (nonlinear_arith)
            requires
                x < 0,
                d >= 1,
        ;
        lemma_hoist_over_denominator(d / 2, -x, d as nat);
    }
}

/// Division of a non-negative `n` by `d`, rounded to nearest (ties up).
fn round_div_u64(n: u64, d: u64) -> (r: u64)
    requires
        1 <= d,
        n + d / 2 <= u64::MAX,
    ensures
        r == round_div(n as int, d as int),
        r <= n + d / 2,
{
    proof {
        lemma_div_is_ordered(0, n as int + d as int / 2, d as int);
        vstd::arithmetic::div_mod::lemma_div_nonincreasing(n as int + d as int / 2, d as int);
    }
    (n + d / 2) / d
}

/// Division of a signed value by a positive divisor, rounded to nearest with
/// ties away from zero.
pub fn round_div_i64(n: i64, d: i64) -> (r: i64)
    requires
        1 <= d <= 0x4000_0000_0000_0000,
        -0x4000_0000_0000_0000 <= n <= 0x4000_0000_0000_0000,
    ensures
        r == round_div(n as int, d as int),
{
    if n >= 0 {
        round_div_u64(n as u64, d as u64) as i64
    } else {
        -(round_div_u64((-n) as u64, d as u64) as i64)
    }
}

/// Offset in milli-diopters selected by the firmware type: the 'A' family
/// shifts focal-power values by five diopters.
pub open spec fn diopter_offset_milli(fw_type: u8) -> int {
    if fw_type == 65 {
        5000
    } else {
        0
    }
}

/// Wire integer for a drive current given in milli-mA:
/// `round(value × 4095 / max_output_current)`, a signed 16-bit quantity.
/// `max_milli_ma` is the per-device maximum output current in milli-mA.
pub fn current_to_raw(value_milli_ma: i64, max_milli_ma: i64) -> (r: i64)
    requires
        1 <= max_milli_ma <= 327670,
        -max_milli_ma <= value_milli_ma <= max_milli_ma,
    ensures
        r == round_div(value_milli_ma * 4095, max_milli_ma as int),
        -4095 <= r <= 4095,
{
    proof {
        lemma_mul_inequality(value_milli_ma as int, max_milli_ma as int, 4095);
        lemma_mul_inequality(-(max_milli_ma as int), value_milli_ma as int, 4095);
        lemma_mul_unary_negation(max_milli_ma as int, 4095);
        lemma_round_div_upper(value_milli_ma * 4095, max_milli_ma as int, 4095);
        lemma_round_div_lower(value_milli_ma * 4095, max_milli_ma as int, 4095);
    }
    round_div_i64(value_milli_ma * 4095, max_milli_ma)
}

/// Drive current in milli-mA read back from a wire integer:
/// `round(raw × max_output_current / 4095)`.
pub fn current_from_raw(raw: i64, max_milli_ma: i64) -> (r: i64)
    requires
        -32768 <= raw <= 32767,
        1 <= max_milli_ma <= 327670,
    ensures
        r == round_div(raw * max_milli_ma, 4095),
        -2_700_000 <= r <= 2_700_000,
{
    proof {
        lemma_mul_inequality(raw as int, 32767, max_milli_ma as int);
        lemma_mul_inequality(-32768, raw as int, max_milli_ma as int);
        lemma_mul_inequality(max_milli_ma as int, 327670, 32767);
        lemma_mul_inequality(max_milli_ma as int, 327670, 32768);
        lemma_mul_unary_negation(32768, max_milli_ma as int);
        lemma_round_div_upper(raw * max_milli_ma, 4095, 2_700_000);
        lemma_round_div_lower(raw * max_milli_ma, 4095, 2_700_000);
    }
    round_div_i64(raw * max_milli_ma, 4095)
}

/// Temperature in milli-°C from the wire integer: the device reports
/// sixteenths of a degree, so the reading is `raw × 62.5` exactly, computed
/// as `round(raw × 125 / 2)`.
pub fn temperature_from_raw(raw: i64) -> (r: i64)
    requires
        -32768 <= raw <= 32767,
    ensures
        r == round_div(raw * 125, 2),
        -2_048_000 <= r <= 2_047_938,
{
    proof {
        lemma_round_div_upper(raw * 125, 2, 2_047_938);
        lemma_round_div_lower(raw * 125, 2, 2_048_000);
    }
    round_div_i64(raw * 125, 2)
}

/// Maximum output current in milli-mA from its wire integer, which the device
/// reports in hundredths of a mA.
pub fn max_current_from_raw(raw: i64) -> (r: i64)
    requires
        -32768 <= raw <= 32767,
    ensures
        r == raw * 10,
        -327680 <= r <= 327670,
{
    raw * 10
}

/// Focal power in milli-diopters from the wire integer: the device reports
/// two-hundredths of a diopter, shifted down by the firmware-type offset.
pub fn diopter_from_raw(raw: i64, fw_type: u8) -> (r: i64)
    requires
        -32768 <= raw <= 32767,
    ensures
        r == raw * 5 - diopter_offset_milli(fw_type),
        -168840 <= r <= 163835,
{
    let off: i64 = if fw_type == 65 {
        5000
    } else {
        0
    };
    raw * 5 - off
}

/// Wire integer for a focal power in milli-diopters:
/// `round((value + offset) / 5)` with the firmware-selected offset, a signed
/// 16-bit quantity.
pub fn diopter_to_raw(value_milli_diopter: i64, fw_type: u8) -> (r: i64)
    requires
        -163842 <= value_milli_diopter + diopter_offset_milli(fw_type) <= 163837,
    ensures
        r == round_div(value_milli_diopter + diopter_offset_milli(fw_type), 5),
        -32768 <= r <= 32767,
{
    let off: i64 = if fw_type == 65 {
        5000
    } else {
        0
    };
    proof {
        lemma_round_div_upper(value_milli_diopter + off, 5, 32767);
        lemma_round_div_lower(value_milli_diopter + off, 5, 32768);
    }
    round_div_i64(value_milli_diopter + off, 5)
}

/// Firmware version fields from the six payload bytes of the version query:
/// major, minor, and two big-endian 16-bit sub-fields.
pub fn version_from_payload(p: &[u8]) -> (r: (u8, u8, u16, u16))
    requires
        p@.len() == 6,
    ensures
        r.0 == p@[0],
        r.1 == p@[1],
        r.2 == 256 * p@[2] + p@[3],
        r.3 == 256 * p@[4] + p@[5],
{
    let sub1: u16 = 256 * (p[2] as u16) + (p[3] as u16);
    let sub2: u16 = 256 * (p[4] as u16) + (p[5] as u16);
    (p[0], p[1], sub1, sub2)
}

} // verus!
