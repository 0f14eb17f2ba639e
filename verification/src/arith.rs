use vstd::prelude::*;
use vstd::arithmetic::power::*;
use vstd::std_specs::ops::AddSpec;
use vstd::std_specs::ops::DivSpec;
use vstd::std_specs::ops::MulSpec;
use vstd::std_specs::ops::RemSpec;
use vstd::std_specs::ops::SubSpec;

verus! {

// ---------------------------------------------------------------------------
// Integral / Numeric operators: whatever `+ - * / %` mean for `A`
// ---------------------------------------------------------------------------

pub fn morloc_add<A: Copy + std::ops::Add<Output = A>>(x: &A, y: &A) -> (r: A)
    requires
        (*x).add_req(*y),
    ensures
        A::obeys_add_spec() ==> r == (*x).add_spec(*y),
{
    *x + *y
}

pub fn morloc_sub<A: Copy + std::ops::Sub<Output = A>>(x: &A, y: &A) -> (r: A)
    requires
        (*x).sub_req(*y),
    ensures
        A::obeys_sub_spec() ==> r == (*x).sub_spec(*y),
{
    *x - *y
}

pub fn morloc_mul<A: Copy + std::ops::Mul<Output = A>>(x: &A, y: &A) -> (r: A)
    requires
        (*x).mul_req(*y),
    ensures
        A::obeys_mul_spec() ==> r == (*x).mul_spec(*y),
{
    *x * *y
}

pub fn morloc_div<A: Copy + std::ops::Div<Output = A>>(x: &A, y: &A) -> (r: A)
    requires
        (*x).div_req(*y),
    ensures
        A::obeys_div_spec() ==> r == (*x).div_spec(*y),
{
    *x / *y
}

/// Integer division, truncating toward zero.
pub fn morloc_int_div<A: Copy + std::ops::Div<Output = A>>(x: &A, y: &A) -> (r: A)
    requires
        (*x).div_req(*y),
    ensures
        A::obeys_div_spec() ==> r == (*x).div_spec(*y),
{
    *x / *y
}

/// Integer remainder, truncating toward zero: the sign follows the dividend.
pub fn morloc_int_mod<A: Copy + std::ops::Rem<Output = A>>(x: &A, y: &A) -> (r: A)
    requires
        (*x).rem_req(*y),
    ensures
        A::obeys_rem_spec() ==> r == (*x).rem_spec(*y),
{
    *x % *y
}

/// Integer division and remainder truncate toward zero: `x == q * y + r` where the
/// remainder `r` is smaller than the divisor in magnitude and has the sign of `x`.
pub proof fn law_int_div_mod_truncate_i8(x: i8, y: i8)
    requires
        x.div_req(y),
    ensures
        x.div_spec(y) * y + x.rem_spec(y) == x,
        -abs_int(y as int) < x.rem_spec(y) < abs_int(y as int),
        x >= 0 ==> x.rem_spec(y) >= 0,
        x < 0 ==> x.rem_spec(y) <= 0,
{
    let xi = x as int;
    let yi = y as int;
    if x >= 0 {
        assert((xi / yi) * yi + xi % yi == xi && 0 <= xi % yi < abs_int(yi) && -xi <= xi / yi <= xi)
            by (nonlinear_arith)
            requires
                yi != 0,
                xi >= 0,
        ;
        assert(x.div_spec(y) == xi / yi);
        assert(x.rem_spec(y) == xi % yi);
    } else {
        let nx: int = -xi;
        assert((nx / yi) * yi + nx % yi == nx && 0 <= nx % yi < abs_int(yi) && -nx <= nx / yi <= nx)
            by (nonlinear_arith)
            requires
                yi != 0,
                nx > 0,
        ;
        if yi == -1 {
            assert(nx / yi == -nx);
        } else if yi == 1 {
            assert(nx / yi == nx);
        } else {
            assert(-nx / 2 - 1 <= nx / yi <= nx / 2 + 1) by (nonlinear_arith)
                requires
                    yi != 0,
                    yi != -1,
                    yi != 1,
                    nx > 0,
            ;
        }
        assert(x.div_spec(y) == -(nx / yi));
        assert(x.rem_spec(y) == -(nx % yi));
        let q = nx / yi;
        let r = nx % yi;
        assert((-q) * yi + (-r) == xi) by (nonlinear_arith)
            requires
                q * yi + r == nx,
                nx == -xi,
        ;
    }
}

/// Integer division and remainder truncate toward zero: `x == q * y + r` where the
/// remainder `r` is smaller than the divisor in magnitude and has the sign of `x`.
pub proof fn law_int_div_mod_truncate_i16(x: i16, y: i16)
    requires
        x.div_req(y),
    ensures
        x.div_spec(y) * y + x.rem_spec(y) == x,
        -abs_int(y as int) < x.rem_spec(y) < abs_int(y as int),
        x >= 0 ==> x.rem_spec(y) >= 0,
        x < 0 ==> x.rem_spec(y) <= 0,
{
    let xi = x as int;
    let yi = y as int;
    if x >= 0 {
        assert((xi / yi) * yi + xi % yi == xi && 0 <= xi % yi < abs_int(yi) && -xi <= xi / yi <= xi)
            by (nonlinear_arith)
            requires
                yi != 0,
                xi >= 0,
        ;
        assert(x.div_spec(y) == xi / yi);
        assert(x.rem_spec(y) == xi % yi);
    } else {
        let nx: int = -xi;
        assert((nx / yi) * yi + nx % yi == nx && 0 <= nx % yi < abs_int(yi) && -nx <= nx / yi <= nx)
            by (nonlinear_arith)
            requires
                yi != 0,
                nx > 0,
        ;
        if yi == -1 {
            assert(nx / yi == -nx);
        } else if yi == 1 {
            assert(nx / yi == nx);
        } else {
            assert(-nx / 2 - 1 <= nx / yi <= nx / 2 + 1) by (nonlinear_arith)
                requires
                    yi != 0,
                    yi != -1,
                    yi != 1,
                    nx > 0,
            ;
        }
        assert(x.div_spec(y) == -(nx / yi));
        assert(x.rem_spec(y) == -(nx % yi));
        let q = nx / yi;
        let r = nx % yi;
        assert((-q) * yi + (-r) == xi) by (nonlinear_arith)
            requires
                q * yi + r == nx,
                nx == -xi,
        ;
    }
}

/// Integer division and remainder truncate toward zero: `x == q * y + r` where the
/// remainder `r` is smaller than the divisor in magnitude and has the sign of `x`.
pub proof fn law_int_div_mod_truncate_i32(x: i32, y: i32)
    requires
        x.div_req(y),
    ensures
        x.div_spec(y) * y + x.rem_spec(y) == x,
        -abs_int(y as int) < x.rem_spec(y) < abs_int(y as int),
        x >= 0 ==> x.rem_spec(y) >= 0,
        x < 0 ==> x.rem_spec(y) <= 0,
{
    let xi = x as int;
    let yi = y as int;
    if x >= 0 {
        assert((xi / yi) * yi + xi % yi == xi && 0 <= xi % yi < abs_int(yi) && -xi <= xi / yi <= xi)
            by (nonlinear_arith)
            requires
                yi != 0,
                xi >= 0,
        ;
        assert(x.div_spec(y) == xi / yi);
        assert(x.rem_spec(y) == xi % yi);
    } else {
        let nx: int = -xi;
        assert((nx / yi) * yi + nx % yi == nx && 0 <= nx % yi < abs_int(yi) && -nx <= nx / yi <= nx)
            by (nonlinear_arith)
            requires
                yi != 0,
                nx > 0,
        ;
        if yi == -1 {
            assert(nx / yi == -nx);
        } else if yi == 1 {
            assert(nx / yi == nx);
        } else {
            assert(-nx / 2 - 1 <= nx / yi <= nx / 2 + 1) by (nonlinear_arith)
                requires
                    yi != 0,
                    yi != -1,
                    yi != 1,
                    nx > 0,
            ;
        }
        assert(x.div_spec(y) == -(nx / yi));
        assert(x.rem_spec(y) == -(nx % yi));
        let q = nx / yi;
        let r = nx % yi;
        assert((-q) * yi + (-r) == xi) by (nonlinear_arith)
            requires
                q * yi + r == nx,
                nx == -xi,
        ;
    }
}

/// Integer division and remainder truncate toward zero: `x == q * y + r` where the
/// remainder `r` is smaller than the divisor in magnitude and has the sign of `x`.
pub proof fn law_int_div_mod_truncate_i64(x: i64, y: i64)
    requires
        x.div_req(y),
    ensures
        x.div_spec(y) * y + x.rem_spec(y) == x,
        -abs_int(y as int) < x.rem_spec(y) < abs_int(y as int),
        x >= 0 ==> x.rem_spec(y) >= 0,
        x < 0 ==> x.rem_spec(y) <= 0,
{
    let xi = x as int;
    let yi = y as int;
    if x >= 0 {
        assert((xi / yi) * yi + xi % yi == xi && 0 <= xi % yi < abs_int(yi) && -xi <= xi / yi <= xi)
            by (nonlinear_arith)
            requires
                yi != 0,
                xi >= 0,
        ;
        assert(x.div_spec(y) == xi / yi);
        assert(x.rem_spec(y) == xi % yi);
    } else {
        let nx: int = -xi;
        assert((nx / yi) * yi + nx % yi == nx && 0 <= nx % yi < abs_int(yi) && -nx <= nx / yi <= nx)
            by (nonlinear_arith)
            requires
                yi != 0,
                nx > 0,
        ;
        if yi == -1 {
            assert(nx / yi == -nx);
        } else if yi == 1 {
            assert(nx / yi == nx);
        } else {
            assert(-nx / 2 - 1 <= nx / yi <= nx / 2 + 1) by (nonlinear_arith)
                requires
                    yi != 0,
                    yi != -1,
                    yi != 1,
                    nx > 0,
            ;
        }
        assert(x.div_spec(y) == -(nx / yi));
        assert(x.rem_spec(y) == -(nx % yi));
        let q = nx / yi;
        let r = nx % yi;
        assert((-q) * yi + (-r) == xi) by (nonlinear_arith)
            requires
                q * yi + r == nx,
                nx == -xi,
        ;
    }
}

/// Unsigned division and remainder: `x == q * y + r` with `0 <= r < y`.
pub proof fn law_int_div_mod_truncate_u8(x: u8, y: u8)
    requires
        x.div_req(y),
    ensures
        x.div_spec(y) * y + x.rem_spec(y) == x,
        0 <= x.rem_spec(y) < y,
{
    let xi = x as int;
    let yi = y as int;
    assert((xi / yi) * yi + xi % yi == xi && 0 <= xi % yi < yi) by (nonlinear_arith)
        requires
            yi > 0,
            xi >= 0,
    ;
}

/// Unsigned division and remainder: `x == q * y + r` with `0 <= r < y`.
pub proof fn law_int_div_mod_truncate_u16(x: u16, y: u16)
    requires
        x.div_req(y),
    ensures
        x.div_spec(y) * y + x.rem_spec(y) == x,
        0 <= x.rem_spec(y) < y,
{
    let xi = x as int;
    let yi = y as int;
    assert((xi / yi) * yi + xi % yi == xi && 0 <= xi % yi < yi) by (nonlinear_arith)
        requires
            yi > 0,
            xi >= 0,
    ;
}

/// Unsigned division and remainder: `x == q * y + r` with `0 <= r < y`.
pub proof fn law_int_div_mod_truncate_u32(x: u32, y: u32)
    requires
        x.div_req(y),
    ensures
        x.div_spec(y) * y + x.rem_spec(y) == x,
        0 <= x.rem_spec(y) < y,
{
    let xi = x as int;
    let yi = y as int;
    assert((xi / yi) * yi + xi % yi == xi && 0 <= xi % yi < yi) by (nonlinear_arith)
        requires
            yi > 0,
            xi >= 0,
    ;
}

/// Unsigned division and remainder: `x == q * y + r` with `0 <= r < y`.
pub proof fn law_int_div_mod_truncate_u64(x: u64, y: u64)
    requires
        x.div_req(y),
    ensures
        x.div_spec(y) * y + x.rem_spec(y) == x,
        0 <= x.rem_spec(y) < y,
{
    let xi = x as int;
    let yi = y as int;
    assert((xi / yi) * yi + xi % yi == xi && 0 <= xi % yi < yi) by (nonlinear_arith)
        requires
            yi > 0,
            xi >= 0,
    ;
}

pub open spec fn abs_int(v: int) -> int {
    if v < 0 {
        -v
    } else {
        v
    }
}

// ---------------------------------------------------------------------------
// neg / abs over the integer types (unary `-` is undefined for unsigned, so
// unsigned neg wraps, as `(-1) * x` does modulo the width)
// ---------------------------------------------------------------------------

pub trait MorlocNum: Copy + Sized {
    /// The value as a mathematical integer.
    spec fn int_value(self) -> int;

    /// Where the negation is defined (a signed minimum has none).
    spec fn neg_defined(self) -> bool;

    /// The negation: exact for signed types, modulo the width for unsigned ones.
    spec fn neg_value(self) -> Self;

    /// Where the absolute value is defined (a signed minimum has none).
    spec fn abs_defined(self) -> bool;

    fn m_neg(self) -> (r: Self)
        requires
            self.neg_defined(),
        ensures
            r == self.neg_value(),
    ;

    fn m_abs(self) -> (r: Self)
        requires
            self.abs_defined(),
        ensures
            r.int_value() == abs_int(self.int_value()),
    ;

    /// Negating twice gives the value back.
    proof fn lemma_neg_involutive(self)
        requires
            self.neg_defined(),
        ensures
            self.neg_value().neg_defined(),
            self.neg_value().neg_value() == self,
    ;

    /// A value and its negation add up to zero, modulo the width for unsigned types.
    proof fn lemma_neg_cancels(self)
        requires
            self.neg_defined(),
        ensures
            self.int_value() + self.neg_value().int_value() == 0
                || self.int_value() + self.neg_value().int_value() == self.modulus(),
    ;

    /// Two to the width for unsigned types; zero for signed ones.
    spec fn modulus(self) -> int;
}

impl MorlocNum for i8 {
    open spec fn int_value(self) -> int {
        self as int
    }

    open spec fn neg_defined(self) -> bool {
        self != i8::MIN
    }

    open spec fn neg_value(self) -> Self {
        (-(self as int)) as i8
    }

    open spec fn abs_defined(self) -> bool {
        self != i8::MIN
    }

    open spec fn modulus(self) -> int {
        0
    }

    fn m_neg(self) -> (r: Self) {
        -self
    }

    fn m_abs(self) -> (r: Self) {
        if self < 0 {
            -self
        } else {
            self
        }
    }

    proof fn lemma_neg_involutive(self) {
    }

    proof fn lemma_neg_cancels(self) {
    }
}

impl MorlocNum for i16 {
    open spec fn int_value(self) -> int {
        self as int
    }

    open spec fn neg_defined(self) -> bool {
        self != i16::MIN
    }

    open spec fn neg_value(self) -> Self {
        (-(self as int)) as i16
    }

    open spec fn abs_defined(self) -> bool {
        self != i16::MIN
    }

    open spec fn modulus(self) -> int {
        0
    }

    fn m_neg(self) -> (r: Self) {
        -self
    }

    fn m_abs(self) -> (r: Self) {
        if self < 0 {
            -self
        } else {
            self
        }
    }

    proof fn lemma_neg_involutive(self) {
    }

    proof fn lemma_neg_cancels(self) {
    }
}

impl MorlocNum for i32 {
    open spec fn int_value(self) -> int {
        self as int
    }

    open spec fn neg_defined(self) -> bool {
        self != i32::MIN
    }

    open spec fn neg_value(self) -> Self {
        (-(self as int)) as i32
    }

    open spec fn abs_defined(self) -> bool {
        self != i32::MIN
    }

    open spec fn modulus(self) -> int {
        0
    }

    fn m_neg(self) -> (r: Self) {
        -self
    }

    fn m_abs(self) -> (r: Self) {
        if self < 0 {
            -self
        } else {
            self
        }
    }

    proof fn lemma_neg_involutive(self) {
    }

    proof fn lemma_neg_cancels(self) {
    }
}

impl MorlocNum for i64 {
    open spec fn int_value(self) -> int {
        self as int
    }

    open spec fn neg_defined(self) -> bool {
        self != i64::MIN
    }

    open spec fn neg_value(self) -> Self {
        (-(self as int)) as i64
    }

    open spec fn abs_defined(self) -> bool {
        self != i64::MIN
    }

    open spec fn modulus(self) -> int {
        0
    }

    fn m_neg(self) -> (r: Self) {
        -self
    }

    fn m_abs(self) -> (r: Self) {
        if self < 0 {
            -self
        } else {
            self
        }
    }

    proof fn lemma_neg_involutive(self) {
    }

    proof fn lemma_neg_cancels(self) {
    }
}

impl MorlocNum for u8 {
    open spec fn int_value(self) -> int {
        self as int
    }

    open spec fn neg_defined(self) -> bool {
        true
    }

    open spec fn neg_value(self) -> Self {
        if self == 0 {
            0
        } else {
            (u8::MAX as int + 1 - self) as u8
        }
    }

    open spec fn abs_defined(self) -> bool {
        true
    }

    open spec fn modulus(self) -> int {
        u8::MAX as int + 1
    }

    fn m_neg(self) -> (r: Self) {
        0u8.wrapping_sub(self)
    }

    fn m_abs(self) -> (r: Self) {
        self
    }

    proof fn lemma_neg_involutive(self) {
    }

    proof fn lemma_neg_cancels(self) {
    }
}

impl MorlocNum for u16 {
    open spec fn int_value(self) -> int {
        self as int
    }

    open spec fn neg_defined(self) -> bool {
        true
    }

    open spec fn neg_value(self) -> Self {
        if self == 0 {
            0
        } else {
            (u16::MAX as int + 1 - self) as u16
        }
    }

    open spec fn abs_defined(self) -> bool {
        true
    }

    open spec fn modulus(self) -> int {
        u16::MAX as int + 1
    }

    fn m_neg(self) -> (r: Self) {
        0u16.wrapping_sub(self)
    }

    fn m_abs(self) -> (r: Self) {
        self
    }

    proof fn lemma_neg_involutive(self) {
    }

    proof fn lemma_neg_cancels(self) {
    }
}

impl MorlocNum for u32 {
    open spec fn int_value(self) -> int {
        self as int
    }

    open spec fn neg_defined(self) -> bool {
        true
    }

    open spec fn neg_value(self) -> Self {
        if self == 0 {
            0
        } else {
            (u32::MAX as int + 1 - self) as u32
        }
    }

    open spec fn abs_defined(self) -> bool {
        true
    }

    open spec fn modulus(self) -> int {
        u32::MAX as int + 1
    }

    fn m_neg(self) -> (r: Self) {
        0u32.wrapping_sub(self)
    }

    fn m_abs(self) -> (r: Self) {
        self
    }

    proof fn lemma_neg_involutive(self) {
    }

    proof fn lemma_neg_cancels(self) {
    }
}

impl MorlocNum for u64 {
    open spec fn int_value(self) -> int {
        self as int
    }

    open spec fn neg_defined(self) -> bool {
        true
    }

    open spec fn neg_value(self) -> Self {
        if self == 0 {
            0
        } else {
            (u64::MAX as int + 1 - self) as u64
        }
    }

    open spec fn abs_defined(self) -> bool {
        true
    }

    open spec fn modulus(self) -> int {
        u64::MAX as int + 1
    }

    fn m_neg(self) -> (r: Self) {
        0u64.wrapping_sub(self)
    }

    fn m_abs(self) -> (r: Self) {
        self
    }

    proof fn lemma_neg_involutive(self) {
    }

    proof fn lemma_neg_cancels(self) {
    }
}

/// Negation and absolute value are the integer ones: a signed negation is exact except at the
/// minimum, which has none; an unsigned one wraps, adding up to zero modulo the width; the
/// absolute value is the value or its negation, never negative; every value counts as itself.
pub proof fn law_neg_abs_are_integer_ops(x_i8: i8, x_i16: i16, x_i32: i32, x_i64: i64, x_u8: u8, x_u16: u16, x_u32: u32, x_u64: u64)
    ensures
        x_i8.int_value() == x_i8 as int,
        abs_int(x_i8 as int) >= 0 && (abs_int(x_i8 as int) == x_i8 || abs_int(x_i8 as int) == -(x_i8 as int)),
        abs_int(x_i16 as int) >= 0 && (abs_int(x_i16 as int) == x_i16 || abs_int(x_i16 as int) == -(x_i16 as int)),
        abs_int(x_i32 as int) >= 0 && (abs_int(x_i32 as int) == x_i32 || abs_int(x_i32 as int) == -(x_i32 as int)),
        abs_int(x_i64 as int) >= 0 && (abs_int(x_i64 as int) == x_i64 || abs_int(x_i64 as int) == -(x_i64 as int)),
        x_i8.neg_defined() <==> x_i8 != i8::MIN,
        x_i8.abs_defined() <==> x_i8 != i8::MIN,
        x_i8 != i8::MIN ==> x_i8.neg_value() as int == -(x_i8 as int),
        x_i16.int_value() == x_i16 as int,
        x_i16.neg_defined() <==> x_i16 != i16::MIN,
        x_i16.abs_defined() <==> x_i16 != i16::MIN,
        x_i16 != i16::MIN ==> x_i16.neg_value() as int == -(x_i16 as int),
        x_i32.int_value() == x_i32 as int,
        x_i32.neg_defined() <==> x_i32 != i32::MIN,
        x_i32.abs_defined() <==> x_i32 != i32::MIN,
        x_i32 != i32::MIN ==> x_i32.neg_value() as int == -(x_i32 as int),
        x_i64.int_value() == x_i64 as int,
        x_i64.neg_defined() <==> x_i64 != i64::MIN,
        x_i64.abs_defined() <==> x_i64 != i64::MIN,
        x_i64 != i64::MIN ==> x_i64.neg_value() as int == -(x_i64 as int),
        x_u8.int_value() == x_u8 as int,
        x_u8.neg_defined() && x_u8.abs_defined(),
        (x_u8 as int + x_u8.neg_value() as int) % (u8::MAX as int + 1) == 0,
        x_u16.int_value() == x_u16 as int,
        x_u16.neg_defined() && x_u16.abs_defined(),
        (x_u16 as int + x_u16.neg_value() as int) % (u16::MAX as int + 1) == 0,
        x_u32.int_value() == x_u32 as int,
        x_u32.neg_defined() && x_u32.abs_defined(),
        (x_u32 as int + x_u32.neg_value() as int) % (u32::MAX as int + 1) == 0,
        x_u64.int_value() == x_u64 as int,
        x_u64.neg_defined() && x_u64.abs_defined(),
        (x_u64 as int + x_u64.neg_value() as int) % (u64::MAX as int + 1) == 0,
{
    assert(x_u8 == 0 || x_u8 as int + x_u8.neg_value() as int == u8::MAX as int + 1);
    assert(x_u16 == 0 || x_u16 as int + x_u16.neg_value() as int == u16::MAX as int + 1);
    assert(x_u32 == 0 || x_u32 as int + x_u32.neg_value() as int == u32::MAX as int + 1);
    assert(x_u64 == 0 || x_u64 as int + x_u64.neg_value() as int == u64::MAX as int + 1);
}

pub fn morloc_neg<A: MorlocNum>(x: &A) -> (r: A)
    requires
        x.neg_defined(),
    ensures
        r == x.neg_value(),
{
    x.m_neg()
}

pub fn morloc_abs<A: MorlocNum>(x: &A) -> (r: A)
    requires
        x.abs_defined(),
    ensures
        r.int_value() == abs_int(x.int_value()),
{
    x.m_abs()
}

// ---------------------------------------------------------------------------
// pow: integer power, the exponent taken as `e as u32`
// ---------------------------------------------------------------------------

proof fn lemma_pow_abs(b: int, e: nat)
    ensures
        abs_int(pow(b, e)) == pow(abs_int(b), e),
    decreases e,
{
    reveal(pow);
    if e > 0 {
        lemma_pow_abs(b, (e - 1) as nat);
        let p = pow(b, (e - 1) as nat);
        assert(abs_int(b * p) == abs_int(b) * abs_int(p)) by (nonlinear_arith);
    }
}

proof fn lemma_pow_minus_one(e: nat)
    ensures
        pow(-1, e) == if e % 2 == 0 { 1int } else { -1int },
    decreases e,
{
    reveal(pow);
    if e > 0 {
        lemma_pow_minus_one((e - 1) as nat);
    }
}

/// `b` to the power `e`, for a result that fits in 64 bits either way.
fn int_pow(b: i128, e: u32) -> (r: i128)
    requires
        -0x1_0000_0000_0000_0000 < b < 0x1_0000_0000_0000_0000,
        -0x1_0000_0000_0000_0000 < pow(b as int, e as nat) < 0x1_0000_0000_0000_0000,
    ensures
        r == pow(b as int, e as nat),
{
    if b == 0 {
        proof {
            lemma_pow0(0);
            if e > 0 {
                lemma0_pow(e as nat);
            }
        }
        if e == 0 {
            1
        } else {
            0
        }
    } else if b == 1 {
        proof {
            lemma1_pow(e as nat);
        }
        1
    } else if b == -1 {
        proof {
            lemma_pow_minus_one(e as nat);
        }
        if e % 2 == 0 {
            1
        } else {
            -1
        }
    } else {
        let ghost ab: int = abs_int(b as int);
        proof {
            lemma_pow_abs(b as int, e as nat);
        }
        let mut acc: i128 = 1;
        let mut k: u32 = 0;
        proof {
            lemma_pow0(b as int);
        }
        while k < e
            invariant
                k <= e,
                ab == abs_int(b as int),
                ab >= 2,
                -0x1_0000_0000_0000_0000 < b < 0x1_0000_0000_0000_0000,
                pow(ab, e as nat) < 0x1_0000_0000_0000_0000,
                acc == pow(b as int, k as nat),
            decreases e - k,
        {
            proof {
                lemma_pow_abs(b as int, (k + 1) as nat);
                lemma_pow_increases(ab as nat, (k + 1) as nat, e as nat);
                reveal(pow);
                assert(pow(b as int, (k + 1) as nat) == b * pow(b as int, k as nat));
            }
            acc = acc * b;
            k = k + 1;
        }
        acc
    }
}

pub trait MorlocPow: Copy + Sized {
    /// Where the power stays in range.
    spec fn pow_defined(self, e: Self) -> bool;

    /// The power, the exponent taken as `e as u32`.
    spec fn pow_value(self, e: Self) -> Self;

    fn m_pow(self, e: Self) -> (r: Self)
        requires
            self.pow_defined(e),
        ensures
            r == self.pow_value(e),
    ;
}

impl MorlocPow for i8 {
    open spec fn pow_defined(self, e: Self) -> bool {
        i8::MIN <= pow(self as int, (e as u32) as nat) <= i8::MAX
    }

    open spec fn pow_value(self, e: Self) -> Self {
        pow(self as int, (e as u32) as nat) as i8
    }

    fn m_pow(self, e: Self) -> (r: Self) {
        int_pow(self as i128, e as u32) as i8
    }
}

impl MorlocPow for i16 {
    open spec fn pow_defined(self, e: Self) -> bool {
        i16::MIN <= pow(self as int, (e as u32) as nat) <= i16::MAX
    }

    open spec fn pow_value(self, e: Self) -> Self {
        pow(self as int, (e as u32) as nat) as i16
    }

    fn m_pow(self, e: Self) -> (r: Self) {
        int_pow(self as i128, e as u32) as i16
    }
}

impl MorlocPow for i32 {
    open spec fn pow_defined(self, e: Self) -> bool {
        i32::MIN <= pow(self as int, (e as u32) as nat) <= i32::MAX
    }

    open spec fn pow_value(self, e: Self) -> Self {
        pow(self as int, (e as u32) as nat) as i32
    }

    fn m_pow(self, e: Self) -> (r: Self) {
        int_pow(self as i128, e as u32) as i32
    }
}

impl MorlocPow for i64 {
    open spec fn pow_defined(self, e: Self) -> bool {
        i64::MIN <= pow(self as int, (e as u32) as nat) <= i64::MAX
    }

    open spec fn pow_value(self, e: Self) -> Self {
        pow(self as int, (e as u32) as nat) as i64
    }

    fn m_pow(self, e: Self) -> (r: Self) {
        int_pow(self as i128, e as u32) as i64
    }
}

impl MorlocPow for u8 {
    open spec fn pow_defined(self, e: Self) -> bool {
        u8::MIN <= pow(self as int, (e as u32) as nat) <= u8::MAX
    }

    open spec fn pow_value(self, e: Self) -> Self {
        pow(self as int, (e as u32) as nat) as u8
    }

    fn m_pow(self, e: Self) -> (r: Self) {
        int_pow(self as i128, e as u32) as u8
    }
}

impl MorlocPow for u16 {
    open spec fn pow_defined(self, e: Self) -> bool {
        u16::MIN <= pow(self as int, (e as u32) as nat) <= u16::MAX
    }

    open spec fn pow_value(self, e: Self) -> Self {
        pow(self as int, (e as u32) as nat) as u16
    }

    fn m_pow(self, e: Self) -> (r: Self) {
        int_pow(self as i128, e as u32) as u16
    }
}

impl MorlocPow for u32 {
    open spec fn pow_defined(self, e: Self) -> bool {
        u32::MIN <= pow(self as int, (e as u32) as nat) <= u32::MAX
    }

    open spec fn pow_value(self, e: Self) -> Self {
        pow(self as int, (e as u32) as nat) as u32
    }

    fn m_pow(self, e: Self) -> (r: Self) {
        int_pow(self as i128, e as u32) as u32
    }
}

impl MorlocPow for u64 {
    open spec fn pow_defined(self, e: Self) -> bool {
        u64::MIN <= pow(self as int, (e as u32) as nat) <= u64::MAX
    }

    open spec fn pow_value(self, e: Self) -> Self {
        pow(self as int, (e as u32) as nat) as u64
    }

    fn m_pow(self, e: Self) -> (r: Self) {
        int_pow(self as i128, e as u32) as u64
    }
}

/// The power is repeated multiplication: `x` to the power `e` is the mathematical `x^e` (the
/// exponent read as a `u32`) wherever that fits the type, and `x^0` is `1`.
pub proof fn law_power_is_repeated_multiplication(x_i8: i8, e_i8: i8, x_i16: i16, e_i16: i16, x_i32: i32, e_i32: i32, x_i64: i64, e_i64: i64, x_u8: u8, e_u8: u8, x_u16: u16, e_u16: u16, x_u32: u32, e_u32: u32, x_u64: u64, e_u64: u64)
    ensures
        i8::MIN <= pow(x_i8 as int, (e_i8 as u32) as nat) <= i8::MAX ==> x_i8.pow_defined(e_i8)
            && x_i8.pow_value(e_i8) as int == pow(x_i8 as int, (e_i8 as u32) as nat),
        x_i8.pow_defined(0) && x_i8.pow_value(0) == 1,
        i16::MIN <= pow(x_i16 as int, (e_i16 as u32) as nat) <= i16::MAX ==> x_i16.pow_defined(e_i16)
            && x_i16.pow_value(e_i16) as int == pow(x_i16 as int, (e_i16 as u32) as nat),
        x_i16.pow_defined(0) && x_i16.pow_value(0) == 1,
        i32::MIN <= pow(x_i32 as int, (e_i32 as u32) as nat) <= i32::MAX ==> x_i32.pow_defined(e_i32)
            && x_i32.pow_value(e_i32) as int == pow(x_i32 as int, (e_i32 as u32) as nat),
        x_i32.pow_defined(0) && x_i32.pow_value(0) == 1,
        i64::MIN <= pow(x_i64 as int, (e_i64 as u32) as nat) <= i64::MAX ==> x_i64.pow_defined(e_i64)
            && x_i64.pow_value(e_i64) as int == pow(x_i64 as int, (e_i64 as u32) as nat),
        x_i64.pow_defined(0) && x_i64.pow_value(0) == 1,
        u8::MIN <= pow(x_u8 as int, (e_u8 as u32) as nat) <= u8::MAX ==> x_u8.pow_defined(e_u8)
            && x_u8.pow_value(e_u8) as int == pow(x_u8 as int, (e_u8 as u32) as nat),
        x_u8.pow_defined(0) && x_u8.pow_value(0) == 1,
        u16::MIN <= pow(x_u16 as int, (e_u16 as u32) as nat) <= u16::MAX ==> x_u16.pow_defined(e_u16)
            && x_u16.pow_value(e_u16) as int == pow(x_u16 as int, (e_u16 as u32) as nat),
        x_u16.pow_defined(0) && x_u16.pow_value(0) == 1,
        u32::MIN <= pow(x_u32 as int, (e_u32 as u32) as nat) <= u32::MAX ==> x_u32.pow_defined(e_u32)
            && x_u32.pow_value(e_u32) as int == pow(x_u32 as int, (e_u32 as u32) as nat),
        x_u32.pow_defined(0) && x_u32.pow_value(0) == 1,
        u64::MIN <= pow(x_u64 as int, (e_u64 as u32) as nat) <= u64::MAX ==> x_u64.pow_defined(e_u64)
            && x_u64.pow_value(e_u64) as int == pow(x_u64 as int, (e_u64 as u32) as nat),
        x_u64.pow_defined(0) && x_u64.pow_value(0) == 1,
{
    lemma_pow0(x_i8 as int);
    lemma_pow0(x_i16 as int);
    lemma_pow0(x_i32 as int);
    lemma_pow0(x_i64 as int);
    lemma_pow0(x_u8 as int);
    lemma_pow0(x_u16 as int);
    lemma_pow0(x_u32 as int);
    lemma_pow0(x_u64 as int);
}

pub fn morloc_pow<A: MorlocPow>(x: &A, y: &A) -> (r: A)
    requires
        x.pow_defined(*y),
    ensures
        r == x.pow_value(*y),
{
    x.m_pow(*y)
}

} // verus!
