use fixed::types::I16F16;
use si_level_gen::fixed_point::{FixedPoint, HALF_BITS, ONE_AND_HALF_BITS, QUARTER_BITS};
use si_level_gen::terrain::{
    INLAND_ABOVE_BITS, LAND_ABOVE_BITS, NOISE_1_MULTIPLIER_BITS, NOISE_1_SCALE_BITS,
    NOISE_2_MULTIPLIER_BITS, NOISE_2_SCALE_BITS, NOISE_3_MULTIPLIER_BITS, NOISE_3_SCALE_BITS,
    NOISE_4_MULTIPLIER_BITS, NOISE_4_SCALE_BITS, VEIN_ABOVE_BITS, WATER_BELOW_BITS,
};

fn fx(v: f64) -> FixedPoint {
    FixedPoint::from_bits(I16F16::from_num(v).to_bits())
}

#[test]
fn constants_match_decimal_values() {
    assert_eq!(I16F16::from_num(0.9).to_bits(), NOISE_1_SCALE_BITS);
    assert_eq!(I16F16::from_num(0.2).to_bits(), NOISE_1_MULTIPLIER_BITS);
    assert_eq!(I16F16::from_num(0.9).to_bits(), NOISE_2_SCALE_BITS);
    assert_eq!(I16F16::from_num(0.4).to_bits(), NOISE_2_MULTIPLIER_BITS);
    assert_eq!(I16F16::from_num(0.9).to_bits(), NOISE_3_SCALE_BITS);
    assert_eq!(I16F16::from_num(0.3).to_bits(), NOISE_3_MULTIPLIER_BITS);
    assert_eq!(I16F16::from_num(0.8).to_bits(), NOISE_4_SCALE_BITS);
    assert_eq!(I16F16::from_num(1.1).to_bits(), NOISE_4_MULTIPLIER_BITS);
    assert_eq!(I16F16::from_num(0.5).to_bits(), HALF_BITS);
    assert_eq!(I16F16::from_num(0.25).to_bits(), QUARTER_BITS);
    assert_eq!(I16F16::from_num(1.5).to_bits(), ONE_AND_HALF_BITS);
    assert_eq!(I16F16::from_num(-1.3).to_bits(), WATER_BELOW_BITS);
    assert_eq!(I16F16::from_num(0.3).to_bits(), LAND_ABOVE_BITS);
    assert_eq!(I16F16::from_num(0.6).to_bits(), INLAND_ABOVE_BITS);
    assert_eq!(I16F16::from_num(0.5).to_bits(), VEIN_ABOVE_BITS);
}

#[test]
fn add_and_sub() {
    assert_eq!(fx(1.5).add(fx(2.25)), fx(3.75));
    assert_eq!(fx(1.5).sub(fx(2.25)), fx(-0.75));
    assert_eq!(FixedPoint::from_bits(i32::MAX).add(FixedPoint::from_bits(1)).to_bits(), i32::MIN);
}

#[test]
fn mul_truncates_toward_negative_infinity() {
    assert_eq!(fx(1.5).mul(fx(2.5)), fx(3.75));
    assert_eq!(fx(-0.5).mul(fx(0.5)), fx(-0.25));
    // 3 * 3 bits: 9 / 65536 rounds down to 0; -3 * 3 rounds down to -1
    assert_eq!(FixedPoint::from_bits(3).mul(FixedPoint::from_bits(3)).to_bits(), 0);
    assert_eq!(FixedPoint::from_bits(-3).mul(FixedPoint::from_bits(3)).to_bits(), -1);
    // 200 * 200 = 40000 wraps to 40000 - 65536
    assert_eq!(fx(200.0).mul(fx(200.0)).to_bits(), (40000i64 - 65536) as i32 * 65536);
}

#[test]
fn mul_int_div_abs_floor() {
    assert_eq!(fx(0.75).mul_int(4), fx(3.0));
    assert_eq!(fx(3.0).div(fx(64.0)).to_bits(), 3 * 65536 / 64);
    assert_eq!(fx(1.0).div(fx(3.0)).to_bits(), 21845);
    assert_eq!(fx(-2.5).abs(), fx(2.5));
    assert_eq!(FixedPoint::from_bits(i32::MIN).abs().to_bits(), i32::MIN);
    assert_eq!(fx(2.75).floor(), fx(2.0));
    assert_eq!(fx(-2.5).floor(), fx(-3.0));
}

#[test]
fn integer_conversions() {
    assert_eq!(FixedPoint::from_usize(62).to_bits(), 62 * 65536);
    assert_eq!(fx(47.99).to_usize(), 47);
    assert_eq!(fx(0.5).to_usize(), 0);
}

#[test]
fn div_rounds_toward_zero_for_any_signs() {
    assert_eq!(fx(-1.0).div(fx(3.0)).to_bits(), -21845);
    assert_eq!(fx(1.0).div(fx(-3.0)).to_bits(), -21845);
    assert_eq!(fx(-1.0).div(fx(-3.0)).to_bits(), 21845);
    let a = I16F16::from_num(-7.25);
    let b = I16F16::from_num(0.375);
    assert_eq!(
        FixedPoint::from_bits(a.to_bits()).div(FixedPoint::from_bits(b.to_bits())).to_bits(),
        a.wrapping_div(b).to_bits()
    );
}
