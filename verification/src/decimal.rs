//! Decimal numbers as plain values.
//!
//! `Dec` holds the two parts of a `rust_decimal::Decimal` (a signed 96-bit
//! mantissa and a base-ten scale between 0 and 28).  Arithmetic is delegated
//! to `rust_decimal`; the contracts state exactly what the crate computes where
//! no rounding can take place, and name its result elsewhere.
use rust_decimal::Decimal;
use vstd::prelude::*;

verus! {

/// `10^n`.
pub open spec fn pow10(n: nat) -> int
    decreases n,
{
    if n == 0 {
        1
    } else {
        10 * pow10((n - 1) as nat)
    }
}

/// `2^96 - 1`, the largest mantissa magnitude a decimal can hold.
pub const MAX_MANTISSA: i128 = 0xFFFF_FFFF_FFFF_FFFF_FFFF_FFFF;

/// The largest scale a decimal can hold.
pub const MAX_SCALE: u32 = 28;

/// A decimal number `mantissa * 10^(-scale)`, within the limits of
/// `rust_decimal::Decimal`.
#[derive(Clone, Copy, Debug)]
pub struct Dec {
    mantissa: i128,
    scale: u32,
}

impl Dec {
    /// The mantissa.
    pub closed spec fn m(self) -> int {
        self.mantissa as int
    }

    /// The scale (number of decimal places).
    pub closed spec fn s(self) -> nat {
        self.scale as nat
    }

    /// The representation limits of `rust_decimal::Decimal`.
    pub open spec fn wf(self) -> bool {
        &&& -MAX_MANTISSA <= self.m() <= MAX_MANTISSA
        &&& self.s() <= MAX_SCALE
    }

    /// Every decimal is within the limits.
    #[verifier::type_invariant]
    pub open spec fn inv(self) -> bool {
        self.wf()
    }

    /// The value of the number times `10^28`: an exact integer for every
    /// well-formed decimal, so that values compare and add as integers.
    pub open spec fn val(self) -> int {
        self.m() * pow10((MAX_SCALE - self.s()) as nat)
    }

    /// The decimal `mantissa * 10^(-scale)`, if it is within the limits
    /// (`Decimal::try_from_i128_with_scale`).
    pub fn new(mantissa: i128, scale: u32) -> (r: Option<Dec>)
        ensures
            r is Some <==> (-MAX_MANTISSA <= mantissa <= MAX_MANTISSA && scale <= MAX_SCALE),
            r is Some ==> r->0.m() == mantissa && r->0.s() == scale,
    {
        if -MAX_MANTISSA <= mantissa && mantissa <= MAX_MANTISSA && scale <= MAX_SCALE {
            Some(Dec { mantissa, scale })
        } else {
            None
        }
    }

    /// The mantissa.
    pub fn mantissa(&self) -> (r: i128)
        ensures
            r == self.m(),
    {
        self.mantissa
    }

    /// The scale.
    pub fn scale(&self) -> (r: u32)
        ensures
            r == self.s(),
    {
        self.scale
    }
}

pub open spec fn abs(x: int) -> int {
    if x < 0 {
        -x
    } else {
        x
    }
}

pub open spec fn max_nat(a: nat, b: nat) -> nat {
    if a < b {
        b
    } else {
        a
    }
}

/// `2^32`
pub open spec fn two32() -> int {
    0x1_0000_0000
}

/// `2^64`
pub open spec fn two64() -> int {
    0x1_0000_0000_0000_0000
}

/// `2^96`
pub open spec fn two96() -> int {
    0x1_0000_0000_0000_0000_0000_0000
}

/// Operands for which `rust_decimal` adds (or, with `sign` negative,
/// subtracts) without rounding: both mantissas below `2^64`, scales at most 19
/// apart, and the result, written at the larger scale, below `2^96`.
pub open spec fn sum_is_exact(a: Dec, b: Dec, sign: int) -> bool {
    let k = max_nat(a.s(), b.s());
    &&& abs(a.m()) < two64()
    &&& abs(b.m()) < two64()
    &&& abs(a.s() - b.s()) <= 19
    &&& abs(a.val() + sign * b.val()) < two96() * pow10((MAX_SCALE - k) as nat)
}

/// Operands for which `rust_decimal` multiplies without rounding.
pub open spec fn product_is_exact(a: Dec, b: Dec) -> bool {
    &&& abs(a.m()) < two64()
    &&& abs(b.m()) < two64()
    &&& a.s() + b.s() <= MAX_SCALE
    &&& abs(a.m() * b.m()) < two96()
}

/// Operands whose exact product, once `k` trailing zero digits are dropped,
/// has a mantissa below `2^96` and at most 28 places.
pub open spec fn product_fits_after(a: Dec, b: Dec, k: nat) -> bool {
    &&& k <= a.s() + b.s()
    &&& a.s() + b.s() - k <= MAX_SCALE
    &&& (a.m() * b.m()) % pow10(k) == 0
    &&& abs(a.m() * b.m()) < two96() * pow10(k)
}

/// Operands whose exact quotient, written with `k` places (at least the
/// difference of their scales, at most 28), is a whole number of units of the
/// last place, with a magnitude small enough to take nine more digits within
/// 96 bits.
pub open spec fn quotient_fits_at(a: Dec, b: Dec, k: nat) -> bool {
    &&& b.m() != 0
    &&& a.s() >= b.s()
    &&& a.s() - b.s() <= k <= MAX_SCALE
    &&& (a.m() * pow10((k - (a.s() - b.s())) as nat)) % b.m() == 0
    &&& abs((a.m() * pow10((k - (a.s() - b.s())) as nat)) / b.m()) * pow10(9) < two96()
}

/// What `Decimal::checked_add` returns.
pub uninterp spec fn decimal_checked_add(a: Dec, b: Dec) -> Option<Dec>;

/// What `Decimal::checked_sub` returns.
pub uninterp spec fn decimal_checked_sub(a: Dec, b: Dec) -> Option<Dec>;

/// What `Decimal::checked_mul` returns.
pub uninterp spec fn decimal_checked_mul(a: Dec, b: Dec) -> Option<Dec>;

/// What `Decimal::checked_div` returns.
pub uninterp spec fn decimal_checked_div(a: Dec, b: Dec) -> Option<Dec>;

/// `Decimal::checked_add` (`None` on overflow): the named result, exactly the
/// sum where no rounding can occur, at the larger of the two scales when
/// neither operand is zero; with a zero operand, the other one unchanged.
#[verifier::external_body]
pub(crate) fn checked_add(a: Dec, b: Dec) -> (r: Option<Dec>)
    ensures
        r == decimal_checked_add(a, b),
        sum_is_exact(a, b, 1) ==> r is Some && r->0.val() == a.val() + b.val(),
        sum_is_exact(a, b, 1) && a.m() != 0 && b.m() != 0 ==> r is Some && r->0.s() == max_nat(a.s(), b.s()),
        a.m() == 0 ==> r == Some(b),
        a.m() != 0 && b.m() == 0 ==> r == Some(a),
{
    let x = Decimal::from_i128_with_scale(a.mantissa, a.scale);
    match x.checked_add(Decimal::from_i128_with_scale(b.mantissa, b.scale)) {
        Some(z) => Some(Dec { mantissa: z.mantissa(), scale: z.scale() }),
        None => None,
    }
}

/// `Decimal::checked_sub` (`None` on overflow): the named result, exactly the
/// difference where no rounding can occur, at the larger of the two scales
/// when neither operand is zero; `-b` for a zero `a`, and `a` for a zero `b`.
#[verifier::external_body]
pub(crate) fn checked_sub(a: Dec, b: Dec) -> (r: Option<Dec>)
    ensures
        r == decimal_checked_sub(a, b),
        sum_is_exact(a, b, -1) ==> r is Some && r->0.val() == a.val() - b.val(),
        sum_is_exact(a, b, -1) && a.m() != 0 && b.m() != 0 ==> r is Some && r->0.s() == max_nat(a.s(), b.s()),
        a.m() == 0 ==> r is Some && r->0.m() == -b.m() && r->0.s() == b.s(),
        a.m() != 0 && b.m() == 0 ==> r == Some(a),
{
    let x = Decimal::from_i128_with_scale(a.mantissa, a.scale);
    match x.checked_sub(Decimal::from_i128_with_scale(b.mantissa, b.scale)) {
        Some(z) => Some(Dec { mantissa: z.mantissa(), scale: z.scale() }),
        None => None,
    }
}

/// `Decimal::checked_mul` (`None` on overflow): the named result; zero when a
/// factor is zero; where no rounding can occur, the product of the mantissas
/// at the sum of the scales; and the exact product whenever it can be written
/// with a 96-bit mantissa and at most 28 places (the crate then drops only
/// trailing zero digits).
#[verifier::external_body]
pub(crate) fn checked_mul(a: Dec, b: Dec) -> (r: Option<Dec>)
    ensures
        r == decimal_checked_mul(a, b),
        a.m() == 0 || b.m() == 0 ==> r is Some && r->0.m() == 0,
        product_is_exact(a, b) ==> r is Some && r->0.m() == a.m() * b.m()
            && (a.m() != 0 && b.m() != 0 ==> r->0.s() == a.s() + b.s()),
        forall|k: nat| #[trigger] product_fits_after(a, b, k)
            ==> r is Some && r->0.val() * pow10(MAX_SCALE as nat) == a.val() * b.val(),
{
    let x = Decimal::from_i128_with_scale(a.mantissa, a.scale);
    match x.checked_mul(Decimal::from_i128_with_scale(b.mantissa, b.scale)) {
        Some(z) => Some(Dec { mantissa: z.mantissa(), scale: z.scale() }),
        None => None,
    }
}

/// `Decimal::checked_div` (`None` on overflow or a zero divisor): the named
/// result; zero for a zero dividend.  With a divisor whose mantissa fits in
/// 32 bits and a dividend of at least the divisor's scale the division never
/// overflows; when the mantissas divide evenly the result is their quotient
/// at the difference of the scales; and when the exact quotient ends within
/// 28 places (and is small enough, see `quotient_fits_at`) the result is that
/// quotient.  Rounded quotients are not stated here.
#[verifier::external_body]
pub(crate) fn checked_div(a: Dec, b: Dec) -> (r: Option<Dec>)
    ensures
        r == decimal_checked_div(a, b),
        b.m() == 0 ==> r is None,
        a.m() == 0 && b.m() != 0 ==> r is Some && r->0.m() == 0,
        b.m() != 0 && abs(b.m()) < two32() && a.s() >= b.s() ==> r is Some,
        a.m() != 0 && b.m() != 0 && abs(b.m()) < two32() && a.s() >= b.s() && a.m() % b.m() == 0
            ==> r is Some && r->0.m() == a.m() / b.m() && r->0.s() == a.s() - b.s(),
        forall|k: nat| abs(b.m()) < two32() && #[trigger] quotient_fits_at(a, b, k)
            ==> r is Some && r->0.val() * b.val() == a.val() * pow10(MAX_SCALE as nat),
{
    let x = Decimal::from_i128_with_scale(a.mantissa, a.scale);
    match x.checked_div(Decimal::from_i128_with_scale(b.mantissa, b.scale)) {
        Some(z) => Some(Dec { mantissa: z.mantissa(), scale: z.scale() }),
        None => None,
    }
}

/// Integer division rounding toward zero.
pub open spec fn trunc_div(m: int, p: int) -> int {
    if m >= 0 {
        m / p
    } else {
        -((-m) / p)
    }
}

/// The integer part of a decimal (rounded toward zero).
pub open spec fn int_part(d: Dec) -> int {
    trunc_div(d.m(), pow10(d.s()))
}

/// `10^n` for a valid scale.
fn pow10_u128(n: u32) -> (r: u128)
    requires
        n <= MAX_SCALE,
    ensures
        r == pow10(n as nat),
        r >= 1,
{
    let mut r: u128 = 1;
    let mut i: u32 = 0;
    while i < n
        invariant
            i <= n <= MAX_SCALE,
            r == pow10(i as nat),
        decreases n - i,
    {
        proof {
            lemma_pow10_positive((MAX_SCALE - i - 1) as nat);
            lemma_pow10_add((i + 1) as nat, (MAX_SCALE - i - 1) as nat);
            lemma_pow10_28();
            assert(pow10((i + 1) as nat) <= pow10(28)) by (nonlinear_arith)
                requires
                    pow10(28) == pow10((i + 1) as nat) * pow10((MAX_SCALE - i - 1) as nat),
                    pow10((MAX_SCALE - i - 1) as nat) >= 1,
                    pow10((i + 1) as nat) >= 0,
            ;
            lemma_pow10_positive(i as nat);
        }
        r = r * 10;
        i = i + 1;
    }
    proof {
        lemma_pow10_positive(n as nat);
    }
    r
}

/// The integer part of a decimal (rounded toward zero).
fn int_part_of(d: Dec) -> (r: i128)
    ensures
        r == int_part(d),
{
    proof {
        use_type_invariant(&d);
    }
    let p = pow10_u128(d.scale);
    if d.mantissa >= 0 {
        let m = d.mantissa as u128;
        let q = m / p;
        assert(q <= m) by (nonlinear_arith)
            requires
                q == m / p,
                p >= 1,
        ;
        q as i128
    } else {
        let m = (-d.mantissa) as u128;
        let q = m / p;
        assert(q <= m) by (nonlinear_arith)
            requires
                q == m / p,
                p >= 1,
        ;
        -(q as i128)
    }
}

/// `ToPrimitive::to_i64` on a `Decimal`: the integer part, when it fits.
pub(crate) fn to_i64(d: Dec) -> (r: Option<i64>)
    ensures
        r == (if i64::MIN <= int_part(d) <= i64::MAX {
            Some(int_part(d) as i64)
        } else {
            None
        }),
{
    let v = int_part_of(d);
    if i64::MIN as i128 <= v && v <= i64::MAX as i128 {
        Some(v as i64)
    } else {
        None
    }
}

/// `<` on two decimals, which compares their values.
#[verifier::external_body]
pub(crate) fn lt(a: Dec, b: Dec) -> (r: bool)
    ensures
        r == (a.val() < b.val()),
{
    Decimal::from_i128_with_scale(a.mantissa, a.scale) < Decimal::from_i128_with_scale(b.mantissa, b.scale)
}

/// `Decimal::ZERO`.
pub fn zero() -> (r: Dec)
    ensures
        r.m() == 0,
        r.s() == 0,
        r.val() == 0,
{
    Dec { mantissa: 0, scale: 0 }
}

/// `Decimal::from(v)` for an `i64`: mantissa `v` at scale zero.
pub open spec fn is_int(d: Dec, v: int) -> bool {
    d.m() == v && d.s() == 0
}

/// `Decimal::from(v)` for an `i64`.
pub fn from_i64(v: i64) -> (r: Dec)
    ensures
        is_int(r, v as int),
        r.val() == v * pow10(28),
{
    proof {
        lemma_pow10_28();
    }
    Dec { mantissa: v as i128, scale: 0 }
}

/// `10^28` and the bound that makes every `i64` a valid mantissa.
pub proof fn lemma_pow10_28()
    ensures
        pow10(28) == 10_000_000_000_000_000_000_000_000_000,
        i64::MAX < MAX_MANTISSA,
{
    reveal_with_fuel(pow10, 29);
}

/// `10^(a + b) == 10^a * 10^b`.
pub proof fn lemma_pow10_add(a: nat, b: nat)
    ensures
        pow10(a + b) == pow10(a) * pow10(b),
    decreases a,
{
    if a > 0 {
        lemma_pow10_add((a - 1) as nat, b);
        assert(pow10(a + b) == 10 * pow10((a - 1 + b) as nat));
        assert(10 * (pow10((a - 1) as nat) * pow10(b)) == (10 * pow10((a - 1) as nat)) * pow10(b)) by (nonlinear_arith);
    }
}

/// A decimal whose value is the whole number `t` has integer part `t`.
pub proof fn lemma_int_part_of_whole(r: Dec, t: int)
    requires
        r.wf(),
        r.val() == t * pow10(MAX_SCALE as nat),
    ensures
        int_part(r) == t,
{
    let s = r.s();
    let e = (MAX_SCALE - s) as nat;
    lemma_pow10_add(s, e);
    lemma_pow10_positive(s);
    lemma_pow10_positive(e);
    let ps = pow10(s);
    let pe = pow10(e);
    assert(s + e == MAX_SCALE);
    assert(r.m() * pe == (t * ps) * pe) by (nonlinear_arith)
        requires
            r.m() * pe == t * (ps * pe),
    ;
    assert(r.m() == t * ps) by (nonlinear_arith)
        requires
            r.m() * pe == (t * ps) * pe,
            pe > 0,
    ;
    if t >= 0 {
        assert(t * ps >= 0 && (t * ps) / ps == t) by (nonlinear_arith)
            requires
                ps > 0,
                t >= 0,
        ;
        assert(int_part(r) == (t * ps) / ps);
    } else {
        assert(t * ps < 0 && (-(t * ps)) / ps == -t) by (nonlinear_arith)
            requires
                ps > 0,
                t < 0,
        ;
        assert(int_part(r) == -((-(t * ps)) / ps));
    }
}

/// The integer part of a decimal of at least zero is its floor: no more
/// than the decimal, and more than the decimal less one.
pub proof fn lemma_int_part_floor(d: Dec)
    requires
        d.m() >= 0,
        d.wf(),
    ensures
        int_part(d) >= 0,
        int_part(d) * pow10(MAX_SCALE as nat) <= d.val(),
        d.val() < (int_part(d) + 1) * pow10(MAX_SCALE as nat),
{
    let s = d.s();
    let e = (MAX_SCALE - s) as nat;
    lemma_pow10_add(s, e);
    lemma_pow10_positive(s);
    lemma_pow10_positive(e);
    let ps = pow10(s);
    let pe = pow10(e);
    let m = d.m();
    assert(s + e == MAX_SCALE);
    assert(int_part(d) == m / ps);
    assert(m / ps >= 0 && (m / ps) * ps <= m && m < (m / ps + 1) * ps) by (nonlinear_arith)
        requires
            m >= 0,
            ps > 0,
    ;
    assert((m / ps) * (ps * pe) <= m * pe && m * pe < (m / ps + 1) * (ps * pe)) by (nonlinear_arith)
        requires
            (m / ps) * ps <= m,
            m < (m / ps + 1) * ps,
            pe > 0,
    ;
}

/// Powers of ten are positive.
pub proof fn lemma_pow10_positive(n: nat)
    ensures
        pow10(n) > 0,
    decreases n,
{
    if n > 0 {
        lemma_pow10_positive((n - 1) as nat);
    }
}

/// The value of a decimal has the sign of its mantissa.
pub proof fn lemma_sign_of_val(d: Dec)
    ensures
        d.m() > 0 <==> d.val() > 0,
        d.m() == 0 <==> d.val() == 0,
        d.m() < 0 <==> d.val() < 0,
{
    let p = pow10((MAX_SCALE - d.s()) as nat);
    let m = d.m();
    lemma_pow10_positive((MAX_SCALE - d.s()) as nat);
    assert(m > 0 ==> m * p > 0) by (nonlinear_arith)
        requires
            p > 0,
    ;
    assert(m < 0 ==> m * p < 0) by (nonlinear_arith)
        requires
            p > 0,
    ;
    assert(m == 0 ==> m * p == 0);
}

/// Whether a decimal is zero.
pub fn is_zero(d: Dec) -> (r: bool)
    ensures
        r == (d.val() == 0),
{
    proof {
        lemma_sign_of_val(d);
    }
    d.mantissa == 0
}

/// Whether a decimal is above zero.
pub fn is_positive(d: Dec) -> (r: bool)
    ensures
        r == (d.val() > 0),
{
    proof {
        lemma_sign_of_val(d);
    }
    d.mantissa > 0
}

/// Decimals are equal when their parts are.
pub proof fn lemma_dec_ext(a: Dec, b: Dec)
    requires
        a.m() == b.m(),
        a.s() == b.s(),
    ensures
        a == b,
{
}

/// The integer part of a decimal has the sign of the decimal.
pub proof fn lemma_int_part_sign(d: Dec)
    ensures
        int_part(d) > 0 ==> d.val() > 0,
        int_part(d) < 0 ==> d.val() < 0,
{
    lemma_sign_of_val(d);
    lemma_pow10_positive(d.s());
    let p = pow10(d.s());
    if d.m() >= 0 {
        assert(d.m() / p >= 0) by (nonlinear_arith)
            requires
                d.m() >= 0,
                p > 0,
        ;
    } else {
        assert((-d.m()) / p >= 0) by (nonlinear_arith)
            requires
                d.m() < 0,
                p > 0,
        ;
    }
}

/// The integer part of a decimal is no larger in magnitude than its mantissa.
pub proof fn lemma_int_part_bound(d: Dec)
    ensures
        abs(int_part(d)) <= abs(d.m()),
{
    lemma_pow10_positive(d.s());
    let p = pow10(d.s());
    let m = d.m();
    if m >= 0 {
        assert(m / p <= m) by (nonlinear_arith)
            requires
                m >= 0,
                p > 0,
        ;
        assert(m / p >= 0) by (nonlinear_arith)
            requires
                m >= 0,
                p > 0,
        ;
    } else {
        assert((-m) / p <= -m) by (nonlinear_arith)
            requires
                m < 0,
                p > 0,
        ;
        assert((-m) / p >= 0) by (nonlinear_arith)
            requires
                m < 0,
                p > 0,
        ;
    }
}

/// `ToPrimitive::to_i128` on a `Decimal`, which is always the integer part.
pub(crate) fn to_i128(d: Dec) -> (r: Option<i128>)
    ensures
        r == Some(int_part(d) as i128),
{
    Some(int_part_of(d))
}

/// The decimal digits of a number, most significant first (none for zero).
pub open spec fn mantissa_digits(n: nat) -> Seq<char>
    decreases n,
{
    if n == 0 {
        Seq::empty()
    } else {
        mantissa_digits(n / 10).push((('0' as int) + n % 10) as char)
    }
}

/// The digits of a mantissa, with leading zeros up to `places` digits.
pub open spec fn padded_digits(n: nat, places: nat) -> Seq<char> {
    let d = mantissa_digits(n);
    if d.len() < places {
        Seq::new((places - d.len()) as nat, |i: int| '0') + d
    } else {
        d
    }
}

/// What `Display` writes for a decimal: a `-` for a negative one, the whole
/// part (`0` when it has no digit), and, when the scale is not zero, a point
/// followed by exactly `scale` digits.
pub open spec fn decimal_text(d: Dec) -> Seq<char> {
    let digits = padded_digits(abs(d.m()) as nat, d.s());
    let w = digits.len() - d.s();
    let whole = if w == 0 {
        seq!['0']
    } else {
        digits.take(w)
    };
    let body = if d.s() == 0 {
        whole
    } else {
        whole + seq!['.'] + digits.skip(w)
    };
    if d.m() < 0 {
        seq!['-'] + body
    } else {
        body
    }
}

/// A mantissa rounded by `drop` places, half to even: the magnitude divided
/// by `10^drop`, plus one when the rest is over half the unit, or exactly
/// half with an odd quotient; the sign is kept.
pub open spec fn rounded_mantissa(m: int, drop: nat) -> int {
    let p = pow10(drop);
    let q = abs(m) / p;
    let rest = abs(m) % p;
    let half = p / 2;
    let up = rest > half || (rest == half && q % 2 == 1);
    let r = if up {
        q + 1
    } else {
        q
    };
    if m < 0 {
        -r
    } else {
        r
    }
}

/// What `Decimal::round_dp` returns: a decimal of at most `dp` places is
/// unchanged; otherwise its mantissa is rounded half to even to `dp` places.
pub open spec fn decimal_round_dp(d: Dec, dp: u32) -> Dec {
    if d.s() <= dp {
        d
    } else {
        choose|r: Dec| r.m() == rounded_mantissa(d.m(), (d.s() - dp) as nat) && r.s() == dp
    }
}

/// `Decimal::to_string`: the text `decimal_text` describes.
#[verifier::external_body]
pub(crate) fn decimal_to_string(d: Dec) -> (r: String)
    ensures
        r@ == decimal_text(d),
{
    Decimal::from_i128_with_scale(d.mantissa, d.scale).to_string()
}

/// `Decimal::round_dp`: rounding half to even to `dp` places.
#[verifier::external_body]
pub(crate) fn round_dp(d: Dec, dp: u32) -> (r: Dec)
    ensures
        r == decimal_round_dp(d, dp),
        d.s() > dp ==> r.m() == rounded_mantissa(d.m(), (d.s() - dp) as nat) && r.s() == dp,
{
    let x = Decimal::from_i128_with_scale(d.mantissa, d.scale).round_dp(dp);
    Dec { mantissa: x.mantissa(), scale: x.scale() }
}

/// Every `i64` is the mantissa of a decimal at scale zero.
pub proof fn lemma_int_dec_exists(v: i64)
    ensures
        exists|d: Dec| is_int(d, v as int),
{
    lemma_pow10_28();
    let d = Dec { mantissa: v as i128, scale: 0 };
    assert(is_int(d, v as int));
}

} // verus!
