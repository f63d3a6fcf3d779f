//! Exponentiation of circuit integers with an overflow flag: the result is the
//! power wrapped into the base's type, the flag tells whether the exact power
//! lies outside that type's range.
use crate::integer::{
    lemma_abs_product, lemma_modulus_facts, lemma_value_of_pattern, lemma_wrap_bound,
    lemma_wrap_fitting, mul_mode, Boolean, mul_with_carry, negate_pattern, product_mode, ternary, Integer,
    IntegerType, Mode,
};
use vstd::arithmetic::div_mod::*;
use vstd::arithmetic::power::*;
use vstd::arithmetic::power2::*;
use vstd::prelude::*;

verus! {

/// Whether `b` to the power `e` lies outside the range of the type.
pub open spec fn pow_overflows(t: IntegerType, b: int, e: nat) -> bool {
    !t.fits(pow(b, e))
}

/// The bit pattern of `b` to the power `e`, wrapped into the type.
pub open spec fn pow_wrapped(t: IntegerType, b: int, e: nat) -> int {
    t.wrap(pow(b, e))
}

pub open spec fn abs(v: int) -> int {
    if v < 0 {
        -v
    } else {
        v
    }
}

/// One more factor in a power.
pub proof fn lemma_pow_succ(b: int, n: nat)
    ensures
        pow(b, n + 1) == b * pow(b, n),
{
    reveal(pow);
}

/// The absolute value of a power of a base of absolute value at most one is at most one.
pub proof fn lemma_abs_pow_small(b: int, n: nat)
    requires
        abs(b) <= 1,
    ensures
        abs(pow(b, n)) <= 1,
    decreases n,
{
    if n == 0 {
        lemma_pow0(b);
    } else {
        lemma_abs_pow_small(b, (n - 1) as nat);
        lemma_pow_succ(b, (n - 1) as nat);
        let x = pow(b, (n - 1) as nat);
        assert(abs(b * x) <= 1) by (nonlinear_arith)
            requires
                abs(b) <= 1,
                abs(x) <= 1,
        ;
    }
}

/// A power of a nonnegative base is nonnegative.
pub proof fn lemma_pow_nonneg(b: int, n: nat)
    requires
        b >= 0,
    ensures
        pow(b, n) >= 0,
    decreases n,
{
    if n == 0 {
        lemma_pow0(b);
    } else {
        lemma_pow_nonneg(b, (n - 1) as nat);
        lemma_pow_succ(b, (n - 1) as nat);
        let x = pow(b, (n - 1) as nat);
        assert(b * x >= 0) by (nonlinear_arith)
            requires
                b >= 0,
                x >= 0,
        ;
    }
}

/// With a base of absolute value at least two, each further factor at least
/// doubles the absolute value of the power.
pub proof fn lemma_abs_pow_grows(b: int, p: nat, q: nat)
    requires
        abs(b) >= 2,
        p < q,
    ensures
        abs(pow(b, q)) >= 2 * abs(pow(b, p)),
    decreases q,
{
    let qm = (q - 1) as nat;
    lemma_pow_succ(b, qm);
    let x = pow(b, qm);
    assert(abs(b * x) == abs(b) * abs(x)) by (nonlinear_arith);
    assert(abs(b) * abs(x) >= 2 * abs(x)) by (nonlinear_arith)
        requires
            abs(b) >= 2,
    ;
    if qm > p {
        lemma_abs_pow_grows(b, p, qm);
        assert(abs(x) >= 0);
    }
}

/// Once a power of a value of the type leaves the type's range, every higher
/// power stays outside it.
pub proof fn lemma_overflow_persists(t: IntegerType, b: int, p: nat, q: nat)
    requires
        t.fits(b),
        p <= q,
        pow_overflows(t, b, p),
    ensures
        pow_overflows(t, b, q),
{
    lemma_modulus_facts(t);
    if !t.spec_is_signed() {
        lemma_pow_nonneg(b, p);
        lemma_pow_nonneg(b, q);
    }
    if p < q {
        if abs(b) <= 1 {
            lemma_abs_pow_small(b, p);
            assert(t.fits(pow(b, p)));
        } else {
            lemma_abs_pow_grows(b, p, q);
            assert(abs(pow(b, p)) >= t.half());
            assert(abs(pow(b, q)) >= t.modulus());
        }
    }
}

/// `b^(2p + bit)` from `b^p`.
pub proof fn lemma_pow_double(b: int, p: nat)
    ensures
        pow(b, 2 * p) == pow(b, p) * pow(b, p),
        pow(b, 2 * p + 1) == pow(b, 2 * p) * b,
{
    lemma_pow_adds(b, p, p);
    lemma_pow_succ(b, 2 * p);
    assert(pow(b, 2 * p) * b == b * pow(b, 2 * p)) by (nonlinear_arith);
}

/// The overflow flag after one round of square-and-multiply: flagged exactly
/// when the new power overflows, given that it was flagged exactly when the
/// old one did, and that each multiplication flags exactly its own overflow.
pub proof fn lemma_flag_step(
    t: IntegerType,
    b: int,
    p: nat,
    bit: bool,
    old_flag: bool,
    vr: int,
    square_flag: bool,
    vsq: int,
    times_flag: bool,
)
    requires
        t.fits(b),
        old_flag == pow_overflows(t, b, p),
        !old_flag ==> vr == pow(b, p),
        square_flag == !t.fits(vr * vr),
        !t.fits(vr * vr) || vsq == vr * vr,
        times_flag == !t.fits(vsq * b),
    ensures
        (old_flag || square_flag || (bit && times_flag)) == pow_overflows(
            t,
            b,
            2 * p + if bit {
                1nat
            } else {
                0nat
            },
        ),
{
    lemma_pow_double(b, p);
    let q: nat = 2 * p + if bit {
        1nat
    } else {
        0nat
    };
    if old_flag {
        lemma_overflow_persists(t, b, p, q);
    } else if square_flag {
        lemma_overflow_persists(t, b, 2 * p, q);
    }
}

/// Multiplication respects wrapping.
pub proof fn lemma_wrap_mul(t: IntegerType, x: int, y: int, x2: int, y2: int)
    requires
        t.wrap(x) == t.wrap(x2),
        t.wrap(y) == t.wrap(y2),
    ensures
        t.wrap(x * y) == t.wrap(x2 * y2),
{
    lemma_modulus_facts(t);
    lemma_mul_mod_noop_general(x, y, t.modulus());
    lemma_mul_mod_noop_general(x2, y2, t.modulus());
}

/// The value of a pattern that wraps `v` is congruent to `v`.
pub proof fn lemma_value_wraps(t: IntegerType, pattern: int, v: int)
    requires
        0 <= pattern < t.modulus(),
        pattern == t.wrap(v),
    ensures
        t.wrap(t.value_of(pattern)) == t.wrap(v),
{
    lemma_value_of_pattern(t, pattern);
    lemma_modulus_facts(t);
    lemma_mod_twice(v, t.modulus());
}

/// For a pattern with its most significant bit set, the lower bits are all
/// clear exactly when the pattern is `2^(bits - 1)`.
pub proof fn lemma_lower_bits_clear(t: IntegerType, product: int)
    requires
        t.half() <= product < t.modulus(),
    ensures
        (product % t.half() == 0) <==> product == t.half(),
{
    lemma_modulus_facts(t);
    let h = t.half();
    lemma_mod_sub_multiples_vanish(product, h);
    lemma_small_mod((product - h) as nat, h as nat);
    lemma_mod_self_0(h);
}

/// `2^bits` of each width is the power of two that `pow2` names.
pub proof fn lemma_modulus_is_pow2(t: IntegerType)
    ensures
        t.modulus() == pow2(t.spec_bits()),
{
    lemma2_to64();
    lemma2_to64_rest();
    if t.spec_bits() == 128 {
        lemma_pow2_adds(64, 64);
    }
}

/// Multiplies the running power by the base the way the exponentiation loop
/// does: for a signed type through the absolute values, with the overflow
/// decided from the carry, the signs of the operands and the bits of the
/// product.
fn multiply_by_base(result: &Integer, base: &Integer) -> (r: (Integer, Boolean))
    requires
        result.wf(),
        base.wf(),
        result.itype == base.itype,
    ensures
        r.0.wf(),
        r.0.itype == base.itype,
        r.0.mode == mul_mode(result.mode, base.mode),
        r.0.bits as int == base.itype.wrap(result.value() * base.value()),
        r.1.value == !base.itype.fits(result.value() * base.value()),
        r.1.mode == mul_mode(result.mode, base.mode),
{
    let t = base.itype;
    let mode = product_mode(result.mode, base.mode);
    proof {
        lemma_value_of_pattern(t, result.bits as int);
        lemma_value_of_pattern(t, base.bits as int);
        lemma_modulus_facts(t);
    }
    if t.is_signed() {
        // Multiply the absolute values of both operands.
        let (product, carry) = mul_with_carry(t, result.abs_wrapped(), base.abs_wrapped());
        proof {
            lemma_abs_product(
                t,
                result.value(),
                base.value(),
                if result.value() < 0 { -result.value() } else { result.value() },
                if base.value() < 0 { -base.value() } else { base.value() },
                product as int,
                carry as int,
            );
        }
        // The product of the absolute values must not exceed the unsigned maximum.
        let carry_bits_nonzero = carry != 0;
        // A positive product must not exceed the signed maximum.
        let operands_same_sign = result.msb() == base.msb();
        let half = t.msb_mask();
        let product_msb = product >= half;
        let positive_product_overflows = operands_same_sign && product_msb;
        // A negative product must not exceed the absolute value of the signed minimum.
        let lower_product_bits_nonzero = product % half != 0;
        proof {
            if product_msb {
                lemma_lower_bits_clear(t, product as int);
            }
        }
        let negative_product_lt_or_eq_signed_min = !product_msb || (product_msb
            && !lower_product_bits_nonzero);
        let negative_product_underflows = !operands_same_sign
            && !negative_product_lt_or_eq_signed_min;
        let overflow = carry_bits_nonzero || positive_product_overflows
            || negative_product_underflows;
        // The product with the sign of the operands.
        let bits = if operands_same_sign {
            product
        } else {
            negate_pattern(t, product)
        };
        (Integer { itype: t, mode, bits }, Boolean { mode, value: overflow })
    } else {
        let (product, carry) = mul_with_carry(t, result.bits, base.bits);
        proof {
            lemma_abs_product(
                t,
                result.value(),
                base.value(),
                result.value(),
                base.value(),
                product as int,
                carry as int,
            );
        }
        // For an unsigned product, none of the carry bits may be set.
        (Integer { itype: t, mode, bits: product }, Boolean { mode, value: carry != 0 })
    }
}

/// The type of a circuit variable as far as the mode of a result depends on
/// it: a constant carries its value, a public or private variable does not.
#[derive(Clone, Copy, Debug)]
pub enum CircuitType {
    Constant(Integer),
    Public,
    Private,
}

impl CircuitType {
    pub open spec fn spec_mode(self) -> Mode {
        match self {
            CircuitType::Constant(_) => Mode::Constant,
            CircuitType::Public => Mode::Public,
            CircuitType::Private => Mode::Private,
        }
    }

    /// The mode of the variable.
    pub fn mode(&self) -> (r: Mode)
        ensures
            r == self.spec_mode(),
    {
        match self {
            CircuitType::Constant(_) => Mode::Constant,
            CircuitType::Public => Mode::Public,
            CircuitType::Private => Mode::Private,
        }
    }

    pub open spec fn spec_from(i: Integer) -> CircuitType {
        match i.mode {
            Mode::Constant => CircuitType::Constant(i),
            Mode::Public => CircuitType::Public,
            Mode::Private => CircuitType::Private,
        }
    }

    /// The circuit type of an integer.
    pub fn from(i: &Integer) -> (r: CircuitType)
        ensures
            r == CircuitType::spec_from(*i),
    {
        match i.mode {
            Mode::Constant => CircuitType::Constant(*i),
            Mode::Public => CircuitType::Public,
            Mode::Private => CircuitType::Private,
        }
    }
}

/// The mode of `base.pow_flagged(exponent)`: constant exactly when the exponent
/// is a constant and either the base is a constant too or the exponent is zero.
pub open spec fn spec_output_mode(base_mode: Mode, exponent: CircuitType) -> Mode {
    match exponent {
        CircuitType::Constant(e) => if base_mode == Mode::Constant || e.bits == 0 {
            Mode::Constant
        } else {
            Mode::Private
        },
        _ => Mode::Private,
    }
}

/// Predicts the mode of the result of `pow_flagged` from the mode of the base
/// and the circuit type of the exponent.
pub fn output_mode(case: &(Mode, CircuitType)) -> (r: Mode)
    ensures
        r == spec_output_mode(case.0, case.1),
{
    match (case.0, case.1.mode()) {
        (Mode::Constant, Mode::Constant) => Mode::Constant,
        (Mode::Constant, mode) => match mode {
            Mode::Constant => Mode::Constant,
            _ => Mode::Private,
        },
        (_, Mode::Constant) => match case.1 {
            // Determine whether the constant is all zeros.
            CircuitType::Constant(constant) => if constant.bits == 0 {
                Mode::Constant
            } else {
                Mode::Private
            },
            // A constant mode comes only with a constant circuit type.
            _ => Mode::Private,
        },
        (_, _) => Mode::Private,
    }
}

/// Halving a power of two above one.
pub proof fn lemma_halve_power_of_two(d: nat, i: nat)
    requires
        d == pow2(i),
        d > 1,
    ensures
        i >= 1,
        d / 2 == pow2((i - 1) as nat),
        d == 2 * (d / 2),
        d / 2 >= 1,
{
    if i == 0 {
        lemma2_to64();
    }
    lemma_pow2_unfold(i);
    lemma_pow2_pos((i - 1) as nat);
}

/// Reading one more bit of `e`, most significant first: the prefix above
/// bit `k` doubles and takes bit `k` in.
pub proof fn lemma_next_prefix(e: nat, h: nat, q: nat)
    requires
        h > 0,
        q == e / h,
    ensures
        e / (2 * h) == q / 2,
        q == 2 * (q / 2) + q % 2,
        q % 2 == 0 || q % 2 == 1,
{
    lemma_div_denominator(e as int, h as int, 2);
    lemma_fundamental_div_mod(q as int, 2);
    lemma_mod_bound(q as int, 2);
    assert(h * 2 == 2 * h);
}

/// Dividing by one.
pub proof fn lemma_div_by_one(e: nat)
    ensures
        e / 1 == e,
{
    lemma_div_basics(e as int);
}

/// One round of square-and-multiply on wrapped patterns tracks the exact
/// powers: the square wraps `b^(2p)` and the product wraps `b^(2p + 1)`.
pub proof fn lemma_square_and_multiply(
    t: IntegerType,
    b: int,
    p: nat,
    acc: Integer,
    squared: Integer,
    times: Integer,
)
    requires
        t.fits(b),
        acc.wf(),
        acc.itype == t,
        squared.wf(),
        squared.itype == t,
        acc.bits as int == pow_wrapped(t, b, p),
        squared.bits as int == t.wrap(acc.value() * acc.value()),
        times.bits as int == t.wrap(squared.value() * b),
    ensures
        squared.bits as int == pow_wrapped(t, b, 2 * p),
        times.bits as int == pow_wrapped(t, b, 2 * p + 1),
        t.fits(acc.value() * acc.value()) ==> squared.value() == acc.value() * acc.value(),
        !pow_overflows(t, b, p) ==> acc.value() == pow(b, p),
{
    lemma_pow_double(b, p);
    lemma_value_wraps(t, acc.bits as int, pow(b, p));
    lemma_wrap_mul(t, acc.value(), acc.value(), pow(b, p), pow(b, p));
    lemma_value_wraps(t, squared.bits as int, pow(b, 2 * p));
    lemma_wrap_mul(t, squared.value(), b, pow(b, 2 * p), b);
    if t.fits(acc.value() * acc.value()) {
        lemma_wrap_fitting(t, acc.value() * acc.value());
    }
    if !pow_overflows(t, b, p) {
        lemma_wrap_fitting(t, pow(b, p));
    }
}

/// Raises `base` (a pattern of the type) to the power `exponent`: the power
/// wrapped into the type, and whether the exact power lies outside the type's range.
pub fn overflowing_pow(t: IntegerType, base: u128, exponent: u32) -> (r: (u128, bool))
    requires
        (base as int) < t.modulus(),
    ensures
        (r.0 as int) < t.modulus(),
        r.0 as int == pow_wrapped(t, t.value_of(base as int), exponent as nat),
        r.1 == pow_overflows(t, t.value_of(base as int), exponent as nat),
{
    let b = Integer { itype: t, mode: Mode::Constant, bits: base };
    let ghost bv = b.value();
    let ghost e = exponent as nat;
    proof {
        lemma_value_of_pattern(t, base as int);
        lemma_modulus_facts(t);
        lemma_pow0(bv);
        lemma_wrap_fitting(t, 1);
        lemma2_to64();
    }
    let mut acc = Integer::one(t);
    let mut overflown = false;
    let mut d: u64 = 0x1_0000_0000;
    let ghost mut i: nat = 32;
    let ghost mut p: nat = 0;
    assert(p == e / (d as nat)) by {
        lemma_basic_div(e as int, d as int);
    }
    while d > 1
        invariant
            b.wf(),
            b.itype == t,
            bv == b.value(),
            t.fits(bv),
            e == exponent as nat,
            1 <= d <= 0x1_0000_0000,
            d as nat == pow2(i),
            p == e / (d as nat),
            acc.wf(),
            acc.itype == t,
            acc.bits as int == pow_wrapped(t, bv, p),
            overflown == pow_overflows(t, bv, p),
        decreases d,
    {
        let half_d = d / 2;
        let q = exponent as u64 / half_d;
        let bit = q % 2 == 1;
        let ghost old_p = p;
        let ghost vr = acc.value();
        proof {
            lemma_halve_power_of_two(d as nat, i);
            lemma_next_prefix(e, half_d as nat, q as nat);
        }
        let (squared, square_flag) = acc.mul_flagged(&acc);
        let ghost vsq = squared.value();
        let (times, times_flag) = squared.mul_flagged(&b);
        proof {
            lemma_square_and_multiply(t, bv, old_p, acc, squared, times);
            lemma_flag_step(t, bv, old_p, bit, overflown, vr, square_flag.value, vsq, times_flag.value);
        }
        overflown = overflown || square_flag.value || (bit && times_flag.value);
        acc = if bit {
            times
        } else {
            squared
        };
        d = half_d;
        proof {
            i = (i - 1) as nat;
            p = 2 * old_p + if bit {
                1nat
            } else {
                0nat
            };
        }
    }
    proof {
        lemma_div_by_one(e);
    }
    (acc.bits, overflown)
}

/// The mode that the exponentiation loop gives its running power after
/// reading the exponent's bits above bit `i`, whose value is `p`.
pub open spec fn loop_mode(base_mode: Mode, exponent_mode: Mode, p: nat, i: nat, width: nat) -> Mode {
    if exponent_mode == Mode::Constant {
        if base_mode == Mode::Constant || p == 0 {
            Mode::Constant
        } else {
            Mode::Private
        }
    } else if i == width {
        Mode::Constant
    } else {
        Mode::Private
    }
}

/// The mode that the exponentiation loop gives its overflow flag after
/// reading the exponent's bits above bit `i`, whose value is `p`: that of the
/// running power, except that with a variable exponent and a constant base
/// the first round (which multiplies constants and cannot overflow) leaves the
/// flag a constant.
pub open spec fn flag_loop_mode(base_mode: Mode, exponent_mode: Mode, p: nat, i: nat, width: nat) -> Mode {
    if exponent_mode != Mode::Constant && base_mode == Mode::Constant && i + 1 == width {
        Mode::Constant
    } else {
        loop_mode(base_mode, exponent_mode, p, i, width)
    }
}

impl Integer {
    /// Returns `self` to the power of `other`, and a flag that tells whether
    /// the operation overflowed.
    pub fn pow_flagged(&self, other: &Integer) -> (r: (Integer, Boolean))
        requires
            self.wf(),
            other.wf(),
            other.itype.spec_is_magnitude(),
        ensures
            r.0.wf(),
            r.0.itype == self.itype,
            r.0.bits as int == pow_wrapped(self.itype, self.value(), other.value() as nat),
            r.1.value == pow_overflows(self.itype, self.value(), other.value() as nat),
            r.0.mode == spec_output_mode(self.mode, CircuitType::spec_from(*other)),
            r.1.mode == spec_output_mode(self.mode, CircuitType::spec_from(*other)),
    {
        let t = self.itype;
        let ghost b = self.value();
        let ghost e = other.value() as nat;
        proof {
            lemma_value_of_pattern(t, self.bits as int);
            lemma_modulus_facts(t);
            lemma_modulus_facts(other.itype);
            lemma_modulus_is_pow2(other.itype);
        }
        if self.is_constant() && other.is_constant() {
            // Compute the result and the flag, and return them as constants.
            let exponent = other.bits as u32;
            let (result, flag) = overflowing_pow(t, self.bits, exponent);
            (Integer { itype: t, mode: Mode::Constant, bits: result }, Boolean::constant(flag))
        } else {
            let mut result = Integer::one(t);
            let mut flag = Boolean::constant(false);
            let ghost width: nat = other.itype.spec_bits();
            let mut d: u128 = other.itype.mask() + 1;
            let ghost mut i: nat = width;
            let ghost mut p: nat = 0;
            proof {
                lemma_pow0(b);
                lemma_wrap_fitting(t, 1);
                lemma_basic_div(e as int, d as int);
            }
            // Square-and-multiply over the bits of the exponent, most significant first.
            while d > 1
                invariant
                    self.wf(),
                    other.wf(),
                    other.itype.spec_is_magnitude(),
                    t == self.itype,
                    b == self.value(),
                    t.fits(b),
                    e == other.value() as nat,
                    e == other.bits as nat,
                    width == other.itype.spec_bits(),
                    !(self.mode == Mode::Constant && other.mode == Mode::Constant),
                    1 <= d,
                    d as nat == pow2(i),
                    i <= width,
                    p == e / (d as nat),
                    result.wf(),
                    result.itype == t,
                    result.bits as int == pow_wrapped(t, b, p),
                    flag.value == pow_overflows(t, b, p),
                    result.mode == loop_mode(self.mode, other.mode, p, i, width),
                    flag.mode == flag_loop_mode(self.mode, other.mode, p, i, width),
                    flag.mode == Mode::Constant ==> !flag.value,
                    i == width ==> p == 0,
                    width >= 8,
                decreases d,
            {
                let half_d = d / 2;
                let q = other.bits / half_d;
                // The bit of the exponent, a variable of the exponent's mode.
                let bit = Boolean { mode: other.mode, value: q % 2 == 1 };
                let ghost old_p = p;
                let ghost vr = result.value();
                proof {
                    lemma_halve_power_of_two(d as nat, i);
                    lemma_next_prefix(e, half_d as nat, q as nat);
                }
                let (squared_result, squared_flag) = result.mul_flagged(&result);
                let ghost vsq = squared_result.value();
                let (result_times_self, overflow) = multiply_by_base(&squared_result, self);
                proof {
                    lemma_square_and_multiply(t, b, old_p, result, squared_result, result_times_self);
                    lemma_flag_step(
                        t, b, old_p, bit.value, flag.value, vr, squared_flag.value, vsq, overflow.value,
                    );
                    if old_p == 0 {
                        lemma_pow0(b);
                        lemma_wrap_fitting(t, 1);
                        lemma_modulus_facts(t);
                        assert(pow(b, old_p) == 1);
                        assert(result.bits as int == t.wrap(1));
                        assert(vr == t.value_of(t.wrap(1)));
                        assert(vr == 1);
                        assert(vr * vr == 1) by (nonlinear_arith)
                            requires
                                vr == 1,
                        ;
                        assert(t.fits(vr * vr));
                        assert(vsq == 1);
                        assert(vsq * b == b) by (nonlinear_arith)
                            requires
                                vsq == 1,
                        ;
                        assert(!overflow.value);
                    }
                }
                flag = flag.bitor(&squared_flag);
                flag = flag.bitor(&overflow.bitand(&bit));
                result = ternary(bit.value, bit.mode, &result_times_self, &squared_result);
                d = half_d;
                proof {
                    i = (i - 1) as nat;
                    p = 2 * old_p + if bit.value {
                        1nat
                    } else {
                        0nat
                    };
                }
            }
            proof {
                lemma_div_by_one(e);
                lemma2_to64();
            }
            (result, flag)
        }
    }
}

/// The number of constants, public variables, private variables and
/// constraints that a circuit operation synthesizes.
#[derive(Clone, Copy, Debug, PartialEq, Eq, Structural)]
pub struct Count {
    pub constants: u64,
    pub public: u64,
    pub private: u64,
    pub constraints: u64,
}

impl Count {
    /// An exact count.
    pub fn is(constants: u64, public: u64, private: u64, constraints: u64) -> (r: Count)
        ensures
            r == (Count { constants, public, private, constraints }),
    {
        Count { constants, public, private, constraints }
    }

    /// Whether `k * self + other` fits in the counters.
    pub open spec fn scaled_sum_fits(self, k: int, other: Count) -> bool {
        &&& k * self.constants + other.constants <= u64::MAX
        &&& k * self.public + other.public <= u64::MAX
        &&& k * self.private + other.private <= u64::MAX
        &&& k * self.constraints + other.constraints <= u64::MAX
    }

    /// `k * self + other`, counter by counter.
    pub open spec fn spec_scaled_sum(self, k: int, other: Count) -> Count {
        Count {
            constants: (k * self.constants + other.constants) as u64,
            public: (k * self.public + other.public) as u64,
            private: (k * self.private + other.private) as u64,
            constraints: (k * self.constraints + other.constraints) as u64,
        }
    }

    /// `k * self + other`, counter by counter.
    pub fn scaled_sum(&self, k: u64, other: &Count) -> (r: Count)
        requires
            self.scaled_sum_fits(k as int, *other),
        ensures
            r == self.spec_scaled_sum(k as int, *other),
    {
        proof {
            lemma_scaled_bound(k as int, self.constants as int, other.constants as int);
            lemma_scaled_bound(k as int, self.public as int, other.public as int);
            lemma_scaled_bound(k as int, self.private as int, other.private as int);
            lemma_scaled_bound(k as int, self.constraints as int, other.constraints as int);
        }
        Count {
            constants: k * self.constants + other.constants,
            public: k * self.public + other.public,
            private: k * self.private + other.private,
            constraints: k * self.constraints + other.constraints,
        }
    }
}

/// A product below a bound once a nonnegative term is added.
proof fn lemma_scaled_bound(k: int, x: int, y: int)
    requires
        k >= 0,
        x >= 0,
        y >= 0,
        k * x + y <= u64::MAX,
    ensures
        k * x <= u64::MAX,
        k * x >= 0,
{
    assert(k * x >= 0) by (nonlinear_arith)
        requires
            k >= 0,
            x >= 0,
    ;
}

/// The count of `pow_flagged` on integers of type `itype` raised to exponents
/// of type `mtype`, given the count of a wrapped multiplication for the same
/// case: the constant bits of the result when both operands are constants,
/// and otherwise two wrapped multiplications per exponent bit together with
/// the flag and selection gadgets.
pub open spec fn spec_count(itype: IntegerType, mtype: IntegerType, case: (Mode, Mode), mul_count: Count) -> Count {
    if case.0 == Mode::Constant && case.1 == Mode::Constant {
        Count { constants: itype.spec_bits() as u64, public: 0, private: 0, constraints: 0 }
    } else {
        mul_count.spec_scaled_sum(
            (2 * mtype.spec_bits()) as int,
            Count {
                constants: (2 * itype.spec_bits()) as u64,
                public: 0,
                private: itype.spec_bits() as u64,
                constraints: itype.spec_bits() as u64,
            },
        )
    }
}

/// Whether the count of the non-constant case fits in the counters.
pub open spec fn count_fits(itype: IntegerType, mtype: IntegerType, mul_count: Count) -> bool {
    mul_count.scaled_sum_fits(
        (2 * mtype.spec_bits()) as int,
        Count {
            constants: (2 * itype.spec_bits()) as u64,
            public: 0,
            private: itype.spec_bits() as u64,
            constraints: itype.spec_bits() as u64,
        },
    )
}

/// The number of constants, public and private variables and constraints that
/// `pow_flagged` synthesizes for the given modes of base and exponent;
/// `mul_count` is the count of a wrapped multiplication for the same modes.
pub fn count(itype: IntegerType, mtype: IntegerType, case: &(Mode, Mode), mul_count: &Count) -> (r: Count)
    requires
        mtype.spec_is_magnitude(),
        !(case.0 == Mode::Constant && case.1 == Mode::Constant) ==> count_fits(itype, mtype, *mul_count),
    ensures
        r == spec_count(itype, mtype, *case, *mul_count),
{
    let ibits = itype.bits() as u64;
    let mbits = mtype.bits() as u64;
    match (case.0, case.1) {
        (Mode::Constant, Mode::Constant) => Count::is(ibits, 0, 0, 0),
        (Mode::Constant, _) | (_, Mode::Constant) => {
            mul_count.scaled_sum(2 * mbits, &Count::is(2 * ibits, 0, ibits, ibits))
        },
        (_, _) => { mul_count.scaled_sum(2 * mbits, &Count::is(2 * ibits, 0, ibits, ibits)) },
    }
}

/// Any number to the power zero is one, which fits every type.
pub proof fn lemma_pow_zero(t: IntegerType, b: int)
    ensures
        pow_wrapped(t, b, 0) == 1,
        !pow_overflows(t, b, 0),
{
    lemma_pow0(b);
    lemma_modulus_facts(t);
    lemma_wrap_fitting(t, 1);
}

/// A value of the type to the power one is itself: its pattern comes back
/// and nothing overflows.
pub proof fn lemma_pow_one(t: IntegerType, pattern: int)
    requires
        0 <= pattern < t.modulus(),
    ensures
        pow_wrapped(t, t.value_of(pattern), 1) == pattern,
        !pow_overflows(t, t.value_of(pattern), 1),
{
    lemma_pow1(t.value_of(pattern));
    lemma_value_of_pattern(t, pattern);
}

/// Squaring by exponentiation is multiplying a value by itself: the same
/// wrapped product, flagged on the same overflow.
pub proof fn lemma_pow_two_is_square(t: IntegerType, b: int)
    ensures
        pow_wrapped(t, b, 2) == t.wrap(b * b),
        pow_overflows(t, b, 2) == !t.fits(b * b),
{
    lemma_pow_double(b, 1);
    lemma_pow1(b);
}

/// One more factor: the wrapped power times the base, wrapped, is the
/// wrapped next power.
pub proof fn lemma_pow_wrapped_succ(t: IntegerType, b: int, e: nat)
    ensures
        pow_wrapped(t, b, e + 1) == t.wrap(t.value_of(pow_wrapped(t, b, e)) * b),
{
    lemma_pow_succ(b, e);
    lemma_wrap_bound(t, pow(b, e));
    lemma_value_wraps(t, pow_wrapped(t, b, e), pow(b, e));
    lemma_modulus_facts(t);
    lemma_wrap_mul(t, t.value_of(pow_wrapped(t, b, e)), b, pow(b, e), b);
    assert(pow(b, e) * b == b * pow(b, e)) by (nonlinear_arith);
}

/// Without overflow the wrapped power reads back as the exact power.
pub proof fn lemma_no_overflow_is_exact(t: IntegerType, b: int, e: nat)
    requires
        !pow_overflows(t, b, e),
    ensures
        t.value_of(pow_wrapped(t, b, e)) == pow(b, e),
{
    lemma_wrap_fitting(t, pow(b, e));
}

/// The power and flag that the contract of `Integer::pow_flagged` gives for
/// a base and an exponent, of any modes, are those that the contract of
/// `overflowing_pow` gives for the base's pattern and the exponent's value.
pub proof fn lemma_pow_flagged_agrees_with_overflowing_pow(base: Integer, exponent: Integer)
    requires
        base.wf(),
        exponent.wf(),
        exponent.itype.spec_is_magnitude(),
    ensures
        pow_wrapped(base.itype, base.value(), exponent.value() as nat) == pow_wrapped(
            base.itype,
            base.itype.value_of(base.bits as int),
            (exponent.bits as u32) as nat,
        ),
        pow_overflows(base.itype, base.value(), exponent.value() as nat) == pow_overflows(
            base.itype,
            base.itype.value_of(base.bits as int),
            (exponent.bits as u32) as nat,
        ),
{
    lemma_modulus_facts(exponent.itype);
}

} // verus!
