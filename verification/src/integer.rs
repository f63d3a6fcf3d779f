//! Fixed-width integers as they appear in an arithmetic circuit: a bit
//! pattern of a given width, read as two's complement for the signed types,
//! together with the mode (constant, public or private) of its variables.
use vstd::arithmetic::div_mod::*;
use vstd::arithmetic::mul::*;
use vstd::prelude::*;

verus! {

/// The primitive integer type that a circuit integer stands for.
#[derive(Clone, Copy, Debug, PartialEq, Eq, Structural)]
pub enum IntegerType {
    I8,
    I16,
    I32,
    I64,
    I128,
    U8,
    U16,
    U32,
    U64,
    U128,
}

/// The visibility of a circuit variable.
#[derive(Clone, Copy, Debug, PartialEq, Eq, Structural)]
pub enum Mode {
    Constant,
    Public,
    Private,
}

/// `2^8`, `2^16`, `2^32`, `2^64` and `2^128`, the moduli of the supported widths.
pub open spec fn modulus_of_bits(bits: nat) -> int {
    if bits == 8 {
        0x100
    } else if bits == 16 {
        0x1_0000
    } else if bits == 32 {
        0x1_0000_0000
    } else if bits == 64 {
        0x1_0000_0000_0000_0000
    } else {
        0x1_0000_0000_0000_0000_0000_0000_0000_0000int
    }
}

impl IntegerType {
    /// The number of bits of the type.
    pub open spec fn spec_bits(self) -> nat {
        match self {
            IntegerType::I8 | IntegerType::U8 => 8,
            IntegerType::I16 | IntegerType::U16 => 16,
            IntegerType::I32 | IntegerType::U32 => 32,
            IntegerType::I64 | IntegerType::U64 => 64,
            IntegerType::I128 | IntegerType::U128 => 128,
        }
    }

    /// Whether the type is signed (two's complement).
    pub open spec fn spec_is_signed(self) -> bool {
        match self {
            IntegerType::I8 | IntegerType::I16 | IntegerType::I32 | IntegerType::I64
            | IntegerType::I128 => true,
            _ => false,
        }
    }

    /// Whether the type may serve as an exponent (`u8`, `u16` or `u32`).
    pub open spec fn spec_is_magnitude(self) -> bool {
        match self {
            IntegerType::U8 | IntegerType::U16 | IntegerType::U32 => true,
            _ => false,
        }
    }

    /// `2^bits`.
    pub open spec fn modulus(self) -> int {
        modulus_of_bits(self.spec_bits())
    }

    /// `2^(bits - 1)`.
    pub open spec fn half(self) -> int {
        self.modulus() / 2
    }

    /// The least value of the type.
    pub open spec fn min_value(self) -> int {
        if self.spec_is_signed() {
            -self.half()
        } else {
            0
        }
    }

    /// The greatest value of the type.
    pub open spec fn max_value(self) -> int {
        if self.spec_is_signed() {
            self.half() - 1
        } else {
            self.modulus() - 1
        }
    }

    /// Whether the integer `v` is a value of the type.
    pub open spec fn fits(self, v: int) -> bool {
        self.min_value() <= v <= self.max_value()
    }

    /// The value that a bit pattern (below `2^bits`) stands for.
    pub open spec fn value_of(self, pattern: int) -> int {
        if self.spec_is_signed() && pattern >= self.half() {
            pattern - self.modulus()
        } else {
            pattern
        }
    }

    /// The bit pattern of `v` reduced modulo `2^bits`, that is, `v` wrapped into the type.
    pub open spec fn wrap(self, v: int) -> int {
        v % self.modulus()
    }

    /// The number of bits of the type.
    pub fn bits(&self) -> (r: u32)
        ensures
            r == self.spec_bits(),
    {
        match self {
            IntegerType::I8 | IntegerType::U8 => 8,
            IntegerType::I16 | IntegerType::U16 => 16,
            IntegerType::I32 | IntegerType::U32 => 32,
            IntegerType::I64 | IntegerType::U64 => 64,
            IntegerType::I128 | IntegerType::U128 => 128,
        }
    }

    /// Whether the type is signed.
    pub fn is_signed(&self) -> (r: bool)
        ensures
            r == self.spec_is_signed(),
    {
        match self {
            IntegerType::I8 | IntegerType::I16 | IntegerType::I32 | IntegerType::I64
            | IntegerType::I128 => true,
            _ => false,
        }
    }

    /// `2^bits - 1`, the mask of all bits of the type.
    pub fn mask(&self) -> (r: u128)
        ensures
            r == self.modulus() - 1,
    {
        match self.bits() {
            8 => 0xff,
            16 => 0xffff,
            32 => 0xffff_ffff,
            64 => 0xffff_ffff_ffff_ffff,
            _ => 0xffff_ffff_ffff_ffff_ffff_ffff_ffff_ffff,
        }
    }

    /// `2^(bits - 1)`, the bit pattern with only the most significant bit set.
    pub fn msb_mask(&self) -> (r: u128)
        ensures
            r == self.half(),
    {
        match self.bits() {
            8 => 0x80,
            16 => 0x8000,
            32 => 0x8000_0000,
            64 => 0x8000_0000_0000_0000,
            _ => 0x8000_0000_0000_0000_0000_0000_0000_0000,
        }
    }
}

/// Facts about the modulus of a type that the solver needs spelled out.
pub proof fn lemma_modulus_facts(t: IntegerType)
    ensures
        t.modulus() >= 0x100,
        t.modulus() <= 0x1_0000_0000_0000_0000_0000_0000_0000_0000int,
        t.modulus() == 2 * t.half(),
        t.half() >= 0x80,
        t.spec_bits() >= 8,
        t.spec_bits() <= 64 ==> t.modulus() <= 0x1_0000_0000_0000_0000,
        t.spec_bits() == 128 ==> t.modulus() == 0x1_0000_0000_0000_0000_0000_0000_0000_0000int,
        t.min_value() <= -1 || !t.spec_is_signed(),
        t.max_value() >= 1,
        t.fits(0),
        t.fits(1),
{
}

/// A bit pattern below the modulus reads as a value of the type, and wrapping
/// that value gives the pattern back.
pub proof fn lemma_value_of_pattern(t: IntegerType, pattern: int)
    requires
        0 <= pattern < t.modulus(),
    ensures
        t.fits(t.value_of(pattern)),
        t.wrap(t.value_of(pattern)) == pattern,
        t.value_of(pattern) < 0 <==> (t.spec_is_signed() && pattern >= t.half()),
{
    lemma_modulus_facts(t);
    let m = t.modulus();
    if t.spec_is_signed() && pattern >= t.half() {
        lemma_mod_add_multiples_vanish(pattern - m, m);
        lemma_small_mod(pattern as nat, m as nat);
    } else {
        lemma_small_mod(pattern as nat, m as nat);
    }
}

/// Wrapping a value that fits the type and reading it back gives the value.
pub proof fn lemma_wrap_fitting(t: IntegerType, v: int)
    requires
        t.fits(v),
    ensures
        t.value_of(t.wrap(v)) == v,
        0 <= t.wrap(v) < t.modulus(),
{
    lemma_modulus_facts(t);
    let m = t.modulus();
    lemma_mod_bound(v, m);
    if v >= 0 {
        lemma_small_mod(v as nat, m as nat);
    } else {
        lemma_mod_add_multiples_vanish(v, m);
        lemma_small_mod((v + m) as nat, m as nat);
    }
}

/// The wrapped pattern is always below the modulus.
pub proof fn lemma_wrap_bound(t: IntegerType, v: int)
    ensures
        0 <= t.wrap(v) < t.modulus(),
{
    lemma_modulus_facts(t);
    lemma_mod_bound(v, t.modulus());
}

/// A circuit integer: the bit pattern of its value, its type and its mode.
#[derive(Clone, Copy, Debug)]
pub struct Integer {
    pub itype: IntegerType,
    pub mode: Mode,
    /// The value's bits, least significant first, packed into a word:
    /// the two's complement pattern for a signed type.
    pub bits: u128,
}

impl Integer {
    /// The pattern fits in the width of the type.
    pub open spec fn wf(self) -> bool {
        (self.bits as int) < self.itype.modulus()
    }

    /// The mathematical value of the integer.
    pub open spec fn value(self) -> int {
        self.itype.value_of(self.bits as int)
    }

    /// Whether the integer is a constant of the circuit.
    pub fn is_constant(&self) -> (r: bool)
        ensures
            r == self.spec_is_constant(),
    {
        match self.mode {
            Mode::Constant => true,
            _ => false,
        }
    }

    pub open spec fn spec_is_constant(self) -> bool {
        self.mode == Mode::Constant
    }

    /// The constant one of the given type.
    pub fn one(itype: IntegerType) -> (r: Integer)
        ensures
            r.wf(),
            r.itype == itype,
            r.mode == Mode::Constant,
            r.value() == 1,
    {
        proof {
            lemma_modulus_facts(itype);
        }
        Integer { itype, mode: Mode::Constant, bits: 1 }
    }

    /// Builds an integer from a value of the type, wrapping it into the type's width.
    pub fn new(itype: IntegerType, mode: Mode, bits: u128) -> (r: Integer)
        ensures
            r.wf(),
            r.itype == itype,
            r.mode == mode,
            r.bits as int == itype.wrap(bits as int),
    {
        proof {
            lemma_modulus_facts(itype);
            lemma_wrap_bound(itype, bits as int);
        }
        let m = itype.mask();
        let b = if itype.bits() == 128 {
            bits
        } else {
            bits % (m + 1)
        };
        proof {
            if itype.spec_bits() == 128 {
                lemma_small_mod(bits as nat, itype.modulus() as nat);
            }
        }
        Integer { itype, mode, bits: b }
    }

    /// Whether the most significant bit is set.
    pub fn msb(&self) -> (r: bool)
        requires
            self.wf(),
        ensures
            r == (self.bits >= self.itype.half()),
    {
        self.bits >= self.itype.msb_mask()
    }

    /// The absolute value as an unsigned pattern of the same width; the least
    /// value of a signed type keeps its pattern, which read unsigned is its
    /// absolute value.
    pub fn abs_wrapped(&self) -> (r: u128)
        requires
            self.wf(),
        ensures
            r as int == if self.value() < 0 {
                -self.value()
            } else {
                self.value()
            },
            (r as int) < self.itype.modulus(),
    {
        proof {
            lemma_modulus_facts(self.itype);
        }
        if self.itype.is_signed() && self.msb() {
            let m = self.itype.mask();
            (m - self.bits) + 1
        } else {
            self.bits
        }
    }

    /// Multiplies two integers of one type: the product wrapped into the type,
    /// and whether the exact product lies outside the type's range.
    pub fn mul_flagged(&self, other: &Integer) -> (r: (Integer, Boolean))
        requires
            self.wf(),
            other.wf(),
            self.itype == other.itype,
        ensures
            r.0.wf(),
            r.0.itype == self.itype,
            r.0.mode == mul_mode(self.mode, other.mode),
            r.0.bits as int == self.itype.wrap(self.value() * other.value()),
            r.1.value == !self.itype.fits(self.value() * other.value()),
            r.1.mode == mul_mode(self.mode, other.mode),
    {
        let t = self.itype;
        let abs_a = self.abs_wrapped();
        let abs_b = other.abs_wrapped();
        let (product, carry) = mul_with_carry(t, abs_a, abs_b);
        proof {
            lemma_value_of_pattern(t, self.bits as int);
            lemma_value_of_pattern(t, other.bits as int);
            lemma_abs_product(
                t, self.value(), other.value(), abs_a as int, abs_b as int,
                product as int, carry as int,
            );
        }
        let mode = product_mode(self.mode, other.mode);
        if t.is_signed() {
            let same_sign = self.msb() == other.msb();
            let half = t.msb_mask();
            let overflow = carry != 0 || (if same_sign {
                product >= half
            } else {
                product > half
            });
            let bits = if same_sign {
                product
            } else {
                negate_pattern(t, product)
            };
            (Integer { itype: t, mode, bits }, Boolean { mode, value: overflow })
        } else {
            (Integer { itype: t, mode, bits: product }, Boolean { mode, value: carry != 0 })
        }
    }
}

/// A circuit boolean: its value and the mode of its variable.
#[derive(Clone, Copy, Debug, PartialEq, Eq, Structural)]
pub struct Boolean {
    pub mode: Mode,
    pub value: bool,
}

impl Boolean {
    /// The constant of the given value.
    pub fn constant(value: bool) -> (r: Boolean)
        ensures
            r == (Boolean { mode: Mode::Constant, value }),
    {
        Boolean { mode: Mode::Constant, value }
    }

    /// The mode of a disjunction: a constant operand decides it (a constant
    /// true is the result; a constant false leaves the other operand);
    /// otherwise the result is a private witness.
    pub open spec fn or_mode(a: Boolean, b: Boolean) -> Mode {
        if a.mode == Mode::Constant {
            if a.value {
                Mode::Constant
            } else {
                b.mode
            }
        } else if b.mode == Mode::Constant {
            if b.value {
                Mode::Constant
            } else {
                a.mode
            }
        } else {
            Mode::Private
        }
    }

    /// The mode of a conjunction: a constant operand decides it (a constant
    /// false is the result; a constant true leaves the other operand);
    /// otherwise the result is a private witness.
    pub open spec fn and_mode(a: Boolean, b: Boolean) -> Mode {
        if a.mode == Mode::Constant {
            if a.value {
                b.mode
            } else {
                Mode::Constant
            }
        } else if b.mode == Mode::Constant {
            if b.value {
                a.mode
            } else {
                Mode::Constant
            }
        } else {
            Mode::Private
        }
    }

    /// The disjunction of two booleans.
    pub fn bitor(&self, other: &Boolean) -> (r: Boolean)
        ensures
            r.value == (self.value || other.value),
            r.mode == Boolean::or_mode(*self, *other),
    {
        match (self.mode, other.mode) {
            (Mode::Constant, _) => if self.value {
                *self
            } else {
                *other
            },
            (_, Mode::Constant) => if other.value {
                *other
            } else {
                *self
            },
            _ => Boolean { mode: Mode::Private, value: self.value || other.value },
        }
    }

    /// The conjunction of two booleans.
    pub fn bitand(&self, other: &Boolean) -> (r: Boolean)
        ensures
            r.value == (self.value && other.value),
            r.mode == Boolean::and_mode(*self, *other),
    {
        match (self.mode, other.mode) {
            (Mode::Constant, _) => if self.value {
                *other
            } else {
                *self
            },
            (_, Mode::Constant) => if other.value {
                *self
            } else {
                *other
            },
            _ => Boolean { mode: Mode::Private, value: self.value && other.value },
        }
    }
}

/// The mode of the result of a multiplication gadget: constant exactly when
/// both operands are constants.
pub open spec fn mul_mode(a: Mode, b: Mode) -> Mode {
    if a == Mode::Constant && b == Mode::Constant {
        Mode::Constant
    } else {
        Mode::Private
    }
}

/// The mode of the result of a multiplication gadget.
pub fn product_mode(a: Mode, b: Mode) -> (r: Mode)
    ensures
        r == mul_mode(a, b),
{
    match (a, b) {
        (Mode::Constant, Mode::Constant) => Mode::Constant,
        _ => Mode::Private,
    }
}

/// The mode of a ternary (select) gadget: with a constant condition the chosen
/// operand is returned as it is; otherwise the result is a private witness.
pub open spec fn ternary_mode(condition_mode: Mode, condition: bool, first: Mode, second: Mode) -> Mode {
    if condition_mode == Mode::Constant {
        if condition {
            first
        } else {
            second
        }
    } else {
        Mode::Private
    }
}

/// Selects `first` when the condition holds and `second` otherwise.
pub fn ternary(condition: bool, condition_mode: Mode, first: &Integer, second: &Integer) -> (r: Integer)
    requires
        first.itype == second.itype,
    ensures
        r.itype == first.itype,
        r.bits == (if condition {
            first.bits
        } else {
            second.bits
        }),
        r.mode == ternary_mode(condition_mode, condition, first.mode, second.mode),
{
    let chosen = if condition {
        *first
    } else {
        *second
    };
    match condition_mode {
        Mode::Constant => chosen,
        _ => Integer { itype: chosen.itype, mode: Mode::Private, bits: chosen.bits },
    }
}

/// Two's complement negation of a pattern of the type's width.
pub fn negate_pattern(t: IntegerType, p: u128) -> (r: u128)
    requires
        (p as int) < t.modulus(),
    ensures
        r as int == if p == 0 {
            0
        } else {
            t.modulus() - p
        },
{
    proof {
        lemma_modulus_facts(t);
    }
    // Bitwise complement, then a wrapping increment.
    let mask = t.mask();
    let not_p = mask - p;
    if not_p == mask {
        0
    } else {
        not_p + 1
    }
}

/// What the product of the absolute values of two values of a type says
/// about their signed product: its wrapped pattern and whether it overflows.
pub proof fn lemma_abs_product(
    t: IntegerType,
    va: int,
    vb: int,
    abs_a: int,
    abs_b: int,
    product: int,
    carry: int,
)
    requires
        t.fits(va),
        t.fits(vb),
        abs_a == (if va < 0 { -va } else { va }),
        abs_b == (if vb < 0 { -vb } else { vb }),
        0 <= product < t.modulus(),
        0 <= carry < t.modulus(),
        product + carry * t.modulus() == abs_a * abs_b,
    ensures
        ((va < 0) == (vb < 0)) ==> t.wrap(va * vb) == product,
        ((va < 0) != (vb < 0)) ==> t.wrap(va * vb) == (if product == 0 {
            0
        } else {
            t.modulus() - product
        }),
        t.spec_is_signed() ==> (!t.fits(va * vb) <==> (carry != 0 || (if (va < 0) == (vb < 0) {
            product >= t.half()
        } else {
            product > t.half()
        }))),
        !t.spec_is_signed() ==> (t.wrap(va * vb) == product && (!t.fits(va * vb) <==> carry != 0)),
{
    lemma_modulus_facts(t);
    let m = t.modulus();
    let pp = abs_a * abs_b;
    assert(abs_a >= 0 && abs_b >= 0);
    assert(pp >= 0) by (nonlinear_arith)
        requires
            abs_a >= 0,
            abs_b >= 0,
            pp == abs_a * abs_b,
    ;
    assert(((va < 0) == (vb < 0)) ==> va * vb == pp) by (nonlinear_arith)
        requires
            abs_a == (if va < 0 { -va } else { va }),
            abs_b == (if vb < 0 { -vb } else { vb }),
            pp == abs_a * abs_b,
    ;
    assert(((va < 0) != (vb < 0)) ==> va * vb == -pp) by (nonlinear_arith)
        requires
            abs_a == (if va < 0 { -va } else { va }),
            abs_b == (if vb < 0 { -vb } else { vb }),
            pp == abs_a * abs_b,
    ;
    assert(carry == 0 || carry * m >= m) by (nonlinear_arith)
        requires
            carry >= 0,
            m > 0,
    ;
    // The wrapped product is the low word.
    lemma_mod_multiples_vanish(carry, product, m);
    lemma_small_mod(product as nat, m as nat);
    assert(t.wrap(pp) == product) by {
        lemma_mul_is_commutative(carry, m);
    }
    // The wrapped negation is the negated low word.
    assert(t.wrap(-pp) == (if product == 0 { 0 } else { m - product })) by {
        lemma_mul_is_commutative(carry, m);
        lemma_mod_multiples_vanish(-carry, -product, m);
        assert(-pp == m * (-carry) + (-product)) by (nonlinear_arith)
            requires
                product + carry * m == pp,
        ;
        if product == 0 {
        } else {
            lemma_mod_add_multiples_vanish(-product, m);
            lemma_small_mod((m - product) as nat, m as nat);
        }
    }
}

/// Quotient and remainder of a nonnegative number below `bound * d`.
pub proof fn lemma_div_mod_bounds(x: int, d: int, bound: int)
    requires
        d > 0,
        0 <= x < bound * d,
    ensures
        x == (x / d) * d + x % d,
        0 <= x % d < d,
        0 <= x / d < bound,
{
    lemma_fundamental_div_mod(x, d);
    lemma_mod_bound(x, d);
    lemma_mul_is_commutative(d, x / d);
    assert(0 <= x / d < bound) by (nonlinear_arith)
        requires
            x == (x / d) * d + x % d,
            0 <= x % d < d,
            0 <= x < bound * d,
            d > 0,
    ;
}

/// Splits the product of two 128-bit words into its low and high words.
pub fn mul_wide(a: u128, b: u128) -> (r: (u128, u128))
    ensures
        r.0 + r.1 * 0x1_0000_0000_0000_0000_0000_0000_0000_0000int == a * b,
{
    let base: u128 = 0x1_0000_0000_0000_0000;
    let a0 = a % base;
    let a1 = a / base;
    let b0 = b % base;
    let b1 = b / base;
    proof {
        lemma_div_mod_bounds(a as int, base as int, base as int);
        lemma_div_mod_bounds(b as int, base as int, base as int);
    }
    proof {
        lemma_limb_product_bound(a0 as int, b0 as int, base as int);
        lemma_limb_product_bound(a0 as int, b1 as int, base as int);
        lemma_limb_product_bound(a1 as int, b0 as int, base as int);
        lemma_limb_product_bound(a1 as int, b1 as int, base as int);
    }
    let p00 = a0 * b0;
    let p01 = a0 * b1;
    let p10 = a1 * b0;
    let p11 = a1 * b1;
    let l00 = p00 % base;
    let h00 = p00 / base;
    let l01 = p01 % base;
    let h01 = p01 / base;
    let l10 = p10 % base;
    let h10 = p10 / base;
    proof {
        lemma_div_mod_bounds(p00 as int, base as int, base as int);
        lemma_div_mod_bounds(p01 as int, base as int, base as int);
        lemma_div_mod_bounds(p10 as int, base as int, base as int);
    }
    let mid = h00 + l01 + l10;
    let lm = mid % base;
    let hm = mid / base;
    proof {
        lemma_div_mod_bounds(mid as int, base as int, 3);
    }
    let lo_hi_part = lm * base;
    let lo = lo_hi_part + l00;
    proof {
        lemma_product_decomposition(
            a as int, b as int, a0 as int, a1 as int, b0 as int, b1 as int,
            l00 as int, h00 as int, l01 as int, h01 as int, l10 as int, h10 as int,
            lm as int, hm as int, p11 as int, base as int,
        );
    }
    let hi = p11 + h01 + h10 + hm;
    (lo, hi)
}

/// A product of two limbs below `base` is below `base * base`.
proof fn lemma_limb_product_bound(x: int, y: int, base: int)
    requires
        0 <= x < base,
        0 <= y < base,
    ensures
        0 <= x * y < base * base,
{
    assert(0 <= x * y < base * base) by (nonlinear_arith)
        requires
            0 <= x < base,
            0 <= y < base,
    ;
}

/// The algebra behind [`mul_wide`]: the product of two two-limb numbers,
/// regrouped by limb with carries.
proof fn lemma_product_decomposition(
    a: int, b: int, a0: int, a1: int, b0: int, b1: int,
    l00: int, h00: int, l01: int, h01: int, l10: int, h10: int,
    lm: int, hm: int, p11: int, base: int,
)
    requires
        base == 0x1_0000_0000_0000_0000,
        0 <= a < base * base,
        0 <= b < base * base,
        a == a1 * base + a0,
        b == b1 * base + b0,
        0 <= a0 < base, 0 <= a1 < base, 0 <= b0 < base, 0 <= b1 < base,
        a0 * b0 == h00 * base + l00,
        a0 * b1 == h01 * base + l01,
        a1 * b0 == h10 * base + l10,
        p11 == a1 * b1,
        h00 + l01 + l10 == hm * base + lm,
        0 <= l00 < base, 0 <= lm < base,
        0 <= h00, 0 <= h01, 0 <= h10, 0 <= hm, 0 <= p11,
    ensures
        a * b == (lm * base + l00) + (p11 + h01 + h10 + hm) * (base * base),
        lm * base + l00 < base * base,
        p11 + h01 + h10 + hm < base * base,
{
    assert(a * b == (a1 * base) * b + a0 * b) by (nonlinear_arith)
        requires
            a == a1 * base + a0,
    ;
    assert((a1 * base) * b == (a1 * base) * (b1 * base) + (a1 * base) * b0) by (nonlinear_arith)
        requires
            b == b1 * base + b0,
    ;
    assert(a0 * b == a0 * (b1 * base) + a0 * b0) by (nonlinear_arith)
        requires
            b == b1 * base + b0,
    ;
    assert((a1 * base) * (b1 * base) == (a1 * b1) * (base * base)) by (nonlinear_arith);
    assert((a1 * base) * b0 == (a1 * b0) * base) by (nonlinear_arith);
    assert(a0 * (b1 * base) == (a0 * b1) * base) by (nonlinear_arith);
    assert((a0 * b1) * base + (a1 * b0) * base == (a0 * b1 + a1 * b0) * base) by (nonlinear_arith);
    assert(a * b == p11 * (base * base) + (a0 * b1 + a1 * b0) * base + a0 * b0);
    let bb = base * base;
    assert((a0 * b1 + a1 * b0) * base == (h01 + h10) * bb + (l01 + l10) * base) by (nonlinear_arith)
        requires
            a0 * b1 == h01 * base + l01,
            a1 * b0 == h10 * base + l10,
            bb == base * base,
    ;
    assert((l01 + l10) * base + h00 * base == (hm * base + lm) * base) by (nonlinear_arith)
        requires
            h00 + l01 + l10 == hm * base + lm,
    ;
    assert((hm * base + lm) * base == hm * bb + lm * base) by (nonlinear_arith)
        requires
            bb == base * base,
    ;
    assert(p11 * bb + (h01 + h10) * bb + hm * bb == (p11 + h01 + h10 + hm) * bb) by (nonlinear_arith);
    assert(a * b == (lm * base + l00) + (p11 + h01 + h10 + hm) * (base * base));
    assert(lm * base + l00 < base * base) by (nonlinear_arith)
        requires
            0 <= l00 < base,
            0 <= lm < base,
    ;
    assert(a * b < (base * base) * (base * base)) by (nonlinear_arith)
        requires
            0 <= a < base * base,
            0 <= b < base * base,
    ;
    assert(p11 + h01 + h10 + hm < base * base) by (nonlinear_arith)
        requires
            a * b == (lm * base + l00) + (p11 + h01 + h10 + hm) * (base * base),
            a * b < (base * base) * (base * base),
            0 <= lm * base + l00,
            base > 0,
    ;
}

/// Multiplies two unsigned patterns of a type's width: the low `bits` bits of
/// the product and the high `bits` bits (the carry).
pub fn mul_with_carry(t: IntegerType, a: u128, b: u128) -> (r: (u128, u128))
    requires
        (a as int) < t.modulus(),
        (b as int) < t.modulus(),
    ensures
        (r.0 as int) < t.modulus(),
        (r.1 as int) < t.modulus(),
        r.0 + r.1 * t.modulus() == a * b,
{
    proof {
        lemma_modulus_facts(t);
    }
    if t.bits() == 128 {
        let (lo, hi) = mul_wide(a, b);
        proof {
            assert(a * b < t.modulus() * t.modulus()) by (nonlinear_arith)
                requires
                    0 <= a < t.modulus(),
                    0 <= b < t.modulus(),
            ;
            assert((hi as int) < t.modulus()) by (nonlinear_arith)
                requires
                    lo + hi * t.modulus() == a * b,
                    a * b < t.modulus() * t.modulus(),
                    lo >= 0,
                    t.modulus() > 0,
            ;
        }
        (lo, hi)
    } else {
        let m = t.mask() + 1;
        assert(a * b < m * m) by (nonlinear_arith)
            requires
                0 <= a < m,
                0 <= b < m,
        ;
        assert(m * m <= 0x1_0000_0000_0000_0000_0000_0000_0000_0000int) by (nonlinear_arith)
            requires
                0 < m <= 0x1_0000_0000_0000_0000,
        ;
        let p = a * b;
        let lo = p % m;
        let hi = p / m;
        proof {
            lemma_div_mod_bounds(p as int, m as int, m as int);
        }
        (lo, hi)
    }
}

} // verus!
