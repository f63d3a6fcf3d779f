use lib::integer::{mul_with_carry, mul_wide, Boolean, Integer, IntegerType, Mode};
use lib::pow_flagged::{count, output_mode, CircuitType, Count};

fn make(itype: IntegerType, mode: Mode, bits: u128) -> Integer {
    Integer { itype, mode, bits }
}

#[test]
fn mul_flagged_signed_overflow_and_wrap() {
    let a = make(IntegerType::I8, Mode::Private, 100);
    let b = make(IntegerType::I8, Mode::Constant, 2);
    let (r, flag) = a.mul_flagged(&b);
    assert_eq!(r.bits, 200); // -56
    assert!(flag.value);
    assert_eq!(r.mode, Mode::Private);
    assert_eq!(flag.mode, Mode::Private);
}

#[test]
fn mul_flagged_signed_min_edges() {
    // -64 * 2 = -128 fits.
    let a = make(IntegerType::I8, Mode::Constant, (-64i8) as u8 as u128);
    let b = make(IntegerType::I8, Mode::Constant, 2);
    let (r, flag) = a.mul_flagged(&b);
    assert_eq!(r.bits, 0x80);
    assert!(!flag.value);
    assert_eq!(r.mode, Mode::Constant);
    // -128 * -1 = 128 does not fit; it wraps to -128.
    let a = make(IntegerType::I8, Mode::Public, 0x80);
    let b = make(IntegerType::I8, Mode::Public, 0xff);
    let (r, flag) = a.mul_flagged(&b);
    assert_eq!(r.bits, 0x80);
    assert!(flag.value);
    // -128 * 1 = -128 fits.
    let b = make(IntegerType::I8, Mode::Public, 1);
    let (r, flag) = a.mul_flagged(&b);
    assert_eq!(r.bits, 0x80);
    assert!(!flag.value);
}

#[test]
fn mul_flagged_unsigned() {
    let a = make(IntegerType::U8, Mode::Private, 16);
    let (r, flag) = a.mul_flagged(&a);
    assert_eq!(r.bits, 0);
    assert!(flag.value);
    let a = make(IntegerType::U128, Mode::Private, u128::MAX);
    let b = make(IntegerType::U128, Mode::Private, 1);
    let (r, flag) = a.mul_flagged(&b);
    assert_eq!(r.bits, u128::MAX);
    assert!(!flag.value);
    let (r, flag) = a.mul_flagged(&a);
    assert_eq!(r.bits, 1);
    assert!(flag.value);
}

#[test]
fn mul_flagged_i128_extremes() {
    let min = make(IntegerType::I128, Mode::Private, i128::MIN as u128);
    let two = make(IntegerType::I128, Mode::Private, 2);
    let (r, flag) = min.mul_flagged(&two);
    assert_eq!(r.bits, 0);
    assert!(flag.value);
    let half_min = make(IntegerType::I128, Mode::Private, (i128::MIN / 2) as u128);
    let (r, flag) = half_min.mul_flagged(&two);
    assert_eq!(r.bits, i128::MIN as u128);
    assert!(!flag.value);
}

#[test]
fn wide_multiplication_low_and_high_words() {
    let (lo, hi) = mul_wide(u128::MAX, u128::MAX);
    assert_eq!(lo, 1);
    assert_eq!(hi, u128::MAX - 1);
    let (lo, hi) = mul_wide(1u128 << 64, 1u128 << 64);
    assert_eq!(lo, 0);
    assert_eq!(hi, 1);
    let (lo, hi) = mul_with_carry(IntegerType::U16, 0xffff, 0xffff);
    assert_eq!(lo, 0x0001);
    assert_eq!(hi, 0xfffe);
}

#[test]
fn abs_and_msb() {
    let a = make(IntegerType::I16, Mode::Private, 0x8000);
    assert!(a.msb());
    assert_eq!(a.abs_wrapped(), 0x8000);
    let b = make(IntegerType::I16, Mode::Private, 0xfffe);
    assert_eq!(b.abs_wrapped(), 2);
    let c = make(IntegerType::U16, Mode::Private, 0xfffe);
    assert!(c.msb());
    assert_eq!(c.abs_wrapped(), 0xfffe);
}

#[test]
fn new_wraps_into_width() {
    let a = Integer::new(IntegerType::I8, Mode::Public, 0x1ff);
    assert_eq!(a.bits, 0xff);
    let b = Integer::new(IntegerType::U128, Mode::Public, u128::MAX);
    assert_eq!(b.bits, u128::MAX);
}

#[test]
fn output_mode_cases() {
    let zero = make(IntegerType::U8, Mode::Constant, 0);
    let five = make(IntegerType::U8, Mode::Constant, 5);
    assert_eq!(output_mode(&(Mode::Constant, CircuitType::Constant(five))), Mode::Constant);
    assert_eq!(output_mode(&(Mode::Constant, CircuitType::Public)), Mode::Private);
    assert_eq!(output_mode(&(Mode::Constant, CircuitType::Private)), Mode::Private);
    assert_eq!(output_mode(&(Mode::Public, CircuitType::Constant(zero))), Mode::Constant);
    assert_eq!(output_mode(&(Mode::Private, CircuitType::Constant(five))), Mode::Private);
    assert_eq!(output_mode(&(Mode::Public, CircuitType::Private)), Mode::Private);
}

#[test]
fn pow_mode_constant_zero_exponent_stays_constant() {
    let a = make(IntegerType::I32, Mode::Private, 12345);
    let zero = make(IntegerType::U16, Mode::Constant, 0);
    let (r, flag) = a.pow_flagged(&zero);
    assert_eq!(r.bits, 1);
    assert!(!flag.value);
    assert_eq!(r.mode, Mode::Constant);
    assert_eq!(flag.mode, Mode::Constant);
    let two = make(IntegerType::U16, Mode::Constant, 2);
    let (r, flag) = a.pow_flagged(&two);
    assert_eq!(r.mode, Mode::Private);
    assert_eq!(flag.mode, Mode::Private);
    assert_eq!(r.bits, 152399025);
}

#[test]
fn count_of_constant_operands() {
    let mul = Count::is(1, 2, 3, 4);
    assert_eq!(
        count(IntegerType::I32, IntegerType::U8, &(Mode::Constant, Mode::Constant), &mul),
        Count::is(32, 0, 0, 0)
    );
}

#[test]
fn count_of_variable_operands() {
    let mul = Count::is(1, 2, 3, 4);
    // 2 * 8 * (1, 2, 3, 4) + (64, 0, 32, 32)
    let expected = Count::is(80, 32, 80, 96);
    assert_eq!(count(IntegerType::I32, IntegerType::U8, &(Mode::Private, Mode::Constant), &mul), expected);
    assert_eq!(count(IntegerType::I32, IntegerType::U8, &(Mode::Constant, Mode::Public), &mul), expected);
    assert_eq!(count(IntegerType::I32, IntegerType::U8, &(Mode::Public, Mode::Private), &mul), expected);
    assert_eq!(
        count(IntegerType::U64, IntegerType::U32, &(Mode::Public, Mode::Public), &Count::is(0, 0, 1, 1)),
        Count::is(128, 0, 64 + 64, 64 + 64)
    );
}

#[test]
fn boolean_modes_fold_constants() {
    let t = Boolean::constant(true);
    let f = Boolean::constant(false);
    let x = Boolean { mode: Mode::Private, value: true };
    let y = Boolean { mode: Mode::Public, value: false };
    assert_eq!(f.bitor(&y), y);
    assert_eq!(t.bitor(&y), t);
    assert_eq!(x.bitor(&f), x);
    assert_eq!(x.bitor(&y), Boolean { mode: Mode::Private, value: true });
    assert_eq!(t.bitand(&y), y);
    assert_eq!(f.bitand(&x), f);
    assert_eq!(x.bitand(&t), x);
    assert_eq!(x.bitand(&y), Boolean { mode: Mode::Private, value: false });
}

#[test]
fn constant_operands_give_a_constant_flag() {
    let a = make(IntegerType::I8, Mode::Constant, 3);
    let b = make(IntegerType::U8, Mode::Constant, 5);
    let (r, flag) = a.pow_flagged(&b);
    assert_eq!(r.bits, 243); // 243 wraps to -13
    assert!(flag.value);
    assert_eq!(r.mode, Mode::Constant);
    assert_eq!(flag.mode, Mode::Constant);
}

#[test]
fn variable_exponent_gives_a_private_flag() {
    let a = make(IntegerType::I8, Mode::Constant, 3);
    let b = make(IntegerType::U8, Mode::Public, 2);
    let (r, flag) = a.pow_flagged(&b);
    assert_eq!(r.bits, 9);
    assert!(!flag.value);
    assert_eq!(r.mode, Mode::Private);
    assert_eq!(flag.mode, Mode::Private);
}
