//! Prices and amounts of the broker's API: a `Quotation` is a whole part and
//! a part in billionths (with the same sign); a `MoneyValue` adds a currency.
//! Both convert to and from decimals.
use crate::decimal::{
    checked_mul, decimal_checked_add, decimal_checked_div, decimal_checked_mul,
    abs, from_i64, int_part, lemma_int_part_bound, lemma_int_part_of_whole, lemma_pow10_28, lemma_pow10_add,
    lemma_pow10_positive, pow10, product_fits_after, to_i128, trunc_div, two96, Dec, MAX_MANTISSA, MAX_SCALE,
};
use crate::model::{lemma_from_i64_is_spec, spec_from_i64};
use vstd::prelude::*;

verus! {

/// One billion: the nano parts in a unit.
pub const NANO: i64 = 1_000_000_000;

/// A quantity as whole units and billionths.
#[derive(Clone, Copy, Debug, PartialEq, Eq, Structural)]
pub struct Quotation {
    pub units: i64,
    pub nano: i32,
}

/// An amount of money: whole units and billionths of a currency.
#[derive(Clone, Debug, PartialEq, Eq)]
pub struct MoneyValue {
    pub currency: String,
    pub units: i64,
    pub nano: i32,
}

/// The remainder of division rounding toward zero (it has the sign of `m`).
pub open spec fn trunc_rem(m: int, p: int) -> int {
    m - trunc_div(m, p) * p
}

/// The number of billionths in a quotation.
pub open spec fn quotation_nanos(q: Quotation) -> int {
    q.units * NANO + q.nano
}

/// `Decimal::from_i128_with_scale(units * 10^9 + nano, 9)`.
pub fn quotation_to_decimal(q: Quotation) -> (r: Dec)
    ensures
        r.m() == quotation_nanos(q),
        r.s() == 9,
{
    let m: i128 = q.units as i128 * 1_000_000_000i128 + q.nano as i128;
    assert(-MAX_MANTISSA <= m <= MAX_MANTISSA);
    Dec::new(m, 9).unwrap()
}

/// The number of billionths in a decimal: the integer part of
/// `d * 10^9` (`None` when the product overflows).
pub open spec fn nano_total(d: Dec) -> Option<int> {
    match decimal_checked_mul(d, spec_from_i64(NANO)) {
        Some(p) => Some(int_part(p)),
        None => None,
    }
}

/// The quotation of a decimal: the billionths split into whole units and the
/// rest, both rounded toward zero; `None` when `d * 10^9` overflows or the
/// units do not fit in an `i64`.
pub open spec fn quotation_spec(d: Dec) -> Option<Quotation> {
    match nano_total(d) {
        None => None,
        Some(t) => if i64::MIN <= trunc_div(t, NANO as int) <= i64::MAX {
            Some(Quotation { units: trunc_div(t, NANO as int) as i64, nano: trunc_rem(t, NANO as int) as i32 })
        } else {
            None
        },
    }
}

/// Whether a decimal has at most nine places and an integer part that fits
/// in an `i64`: such a decimal is exactly a quotation.
pub open spec fn has_exact_quotation(d: Dec) -> bool {
    &&& d.s() <= 9
    &&& i64::MIN <= int_part(d) <= i64::MAX
}

/// The billionths in a decimal of at most nine places.
pub open spec fn nanos_of(d: Dec) -> int {
    d.m() * pow10((9 - d.s()) as nat)
}

/// For a decimal that is exactly a quotation, the product with `10^9` is
/// exact once its trailing zeros are dropped, and its billionths split into
/// whole units equal to the decimal's integer part.
proof fn lemma_quotation_product(d: Dec)
    requires
        d.wf(),
        has_exact_quotation(d),
    ensures
        product_fits_after(d, spec_from_i64(NANO), d.s()),
        d.val() * (NANO * pow10(MAX_SCALE as nat)) == nanos_of(d) * pow10(MAX_SCALE as nat) * pow10(MAX_SCALE as nat),
        trunc_div(nanos_of(d), NANO as int) == int_part(d),
        abs(nanos_of(d)) < two96(),
{
    let s = d.s();
    let m = d.m();
    let c = pow10((9 - s) as nat);
    let ps = pow10(s);
    let b = spec_from_i64(NANO);
    crate::model::lemma_spec_from_i64(NANO);
    lemma_pow10_28();
    lemma_pow10_add((9 - s) as nat, s);
    lemma_pow10_add((9 - s) as nat, (MAX_SCALE - 9) as nat);
    lemma_pow10_add((MAX_SCALE - s) as nat, 9);
    lemma_pow10_positive(s);
    lemma_pow10_positive((9 - s) as nat);
    reveal_with_fuel(pow10, 10);
    assert(pow10(9) == NANO);
    assert(c * ps == NANO);
    // the product is m * 10^9 = (m * c) * 10^s
    assert(m * NANO == (m * c) * ps) by (nonlinear_arith)
        requires
            c * ps == NANO,
    ;
    assert((m * NANO) % ps == 0) by {
        vstd::arithmetic::div_mod::lemma_mod_multiples_basic(m * c, ps);
        assert((m * c) * ps == ps * (m * c)) by (nonlinear_arith);
    }
    // the integer part of d is that of the billionths
    let am = abs(m);
    assert(am / ps == (c * am) / (c * ps)) by {
        vstd::arithmetic::div_mod::lemma_div_multiples_vanish_quotient(c, am, ps);
    }
    assert(abs(m * c) == c * am) by (nonlinear_arith)
        requires
            c > 0,
            am == abs(m),
    ;
    if m >= 0 {
        assert(m * c >= 0) by (nonlinear_arith)
            requires
                m >= 0,
                c > 0,
        ;
    } else {
        assert(m * c < 0) by (nonlinear_arith)
            requires
                m < 0,
                c > 0,
        ;
    }
    assert(nanos_of(d) == m * c);
    assert(trunc_div(nanos_of(d), NANO as int) == int_part(d));
    // the billionths are at most (|integer part| + 1) * 10^9
    let ip = int_part(d);
    let q = am / ps;
    assert(am < (q + 1) * ps) by (nonlinear_arith)
        requires
            ps > 0,
            q == am / ps,
    ;
    assert(abs(ip) == q);
    assert(c * am < (q + 1) * (c * ps)) by (nonlinear_arith)
        requires
            am < (q + 1) * ps,
            c > 0,
    ;
    assert(abs(m * NANO) < two96() * ps) by (nonlinear_arith)
        requires
            abs(m * c) == c * am,
            c * am < (q + 1) * NANO,
            q <= 0x8000_0000_0000_0000,
            m * NANO == (m * c) * ps,
            ps > 0,
            NANO == 1_000_000_000,
            two96() == 0x1_0000_0000_0000_0000_0000_0000,
    ;
    assert(abs(nanos_of(d)) < two96()) by (nonlinear_arith)
        requires
            abs(m * c) == c * am,
            c * am < (q + 1) * NANO,
            q <= 0x8000_0000_0000_0000,
            nanos_of(d) == m * c,
            NANO == 1_000_000_000,
            two96() == 0x1_0000_0000_0000_0000_0000_0000,
    ;
    assert(b.m() == NANO && b.s() == 0);
    assert(d.m() * b.m() == m * NANO);
    // the value equation
    let p28 = pow10(MAX_SCALE as nat);
    let pe = pow10((MAX_SCALE - s) as nat);
    assert(pe * NANO == c * p28);
    assert(d.val() == m * pe);
    assert(d.val() * (NANO * p28) == (m * c) * p28 * p28) by (nonlinear_arith)
        requires
            d.val() == m * pe,
            pe * NANO == c * p28,
    ;
}

/// A well-formed quotation: billionths below one unit, with the sign of the
/// units.
pub open spec fn valid_quotation(q: Quotation) -> bool {
    &&& -NANO < q.nano < NANO
    &&& q.units > 0 ==> q.nano >= 0
    &&& q.units < 0 ==> q.nano <= 0
}

/// A well-formed quotation splits back into its units and billionths.
pub proof fn law_quotation_split(q: Quotation)
    requires
        valid_quotation(q),
    ensures
        trunc_div(quotation_nanos(q), NANO as int) == q.units,
        trunc_rem(quotation_nanos(q), NANO as int) == q.nano,
{
    let u = q.units as int;
    let n = q.nano as int;
    if u > 0 || (u == 0 && n >= 0) {
        assert((u * NANO + n) / (NANO as int) == u) by (nonlinear_arith)
            requires
                u >= 0,
                0 <= n < NANO,
                NANO == 1_000_000_000,
        ;
    } else {
        assert((-(u * NANO + n)) / (NANO as int) == -u) by (nonlinear_arith)
            requires
                u <= 0,
                -NANO < n <= 0,
                NANO == 1_000_000_000,
        ;
    }
}

/// The quotation of a decimal, or `None` where it has none (the product with
/// `10^9` overflows, or the units do not fit in an `i64`).  A decimal of at
/// most nine places whose integer part fits in an `i64` always has one: its
/// units are the integer part and its billionths make up the same value; in
/// particular every well-formed quotation comes back unchanged.
pub fn try_decimal_to_quotation(d: Dec) -> (r: Option<Quotation>)
    ensures
        r == quotation_spec(d),
        has_exact_quotation(d) ==> r is Some && r->0.units == int_part(d) && valid_quotation(r->0)
            && quotation_nanos(r->0) == nanos_of(d),
        forall|q: Quotation| #[trigger] valid_quotation(q) && d.m() == quotation_nanos(q) && d.s() == 9 ==> r == Some(q),
{
    proof {
        use_type_invariant(&d);
        assert forall|q: Quotation| #[trigger] valid_quotation(q) && d.m() == quotation_nanos(q) && d.s() == 9
            implies has_exact_quotation(d) by {
            law_quotation_split(q);
            reveal_with_fuel(pow10, 10);
        }
    }
    let billion = from_i64(NANO);
    proof {
        lemma_from_i64_is_spec(billion, NANO);
        if has_exact_quotation(d) {
            lemma_quotation_product(d);
        }
    }
    let nano_units = match checked_mul(d, billion) {
        None => {
            return None;
        },
        Some(p) => p,
    };
    proof {
        use_type_invariant(&nano_units);
        if has_exact_quotation(d) {
            lemma_pow10_28();
            assert(billion.val() == NANO * pow10(MAX_SCALE as nat));
            assert(nano_units.val() * pow10(MAX_SCALE as nat) == nanos_of(d) * pow10(MAX_SCALE as nat) * pow10(MAX_SCALE as nat));
            assert(nano_units.val() == nanos_of(d) * pow10(MAX_SCALE as nat)) by (nonlinear_arith)
                requires
                    nano_units.val() * pow10(MAX_SCALE as nat) == nanos_of(d) * pow10(MAX_SCALE as nat) * pow10(MAX_SCALE as nat),
                    pow10(MAX_SCALE as nat) > 0,
            ;
            lemma_int_part_of_whole(nano_units, nanos_of(d));
        }
    }
    proof {
        lemma_int_part_bound(nano_units);
        use_type_invariant(&nano_units);
    }
    let total: i128 = to_i128(nano_units).unwrap();
    assert(total == int_part(nano_units));
    let neg = total < 0;
    let mag: u128 = if neg {
        (-total) as u128
    } else {
        total as u128
    };
    let q: u128 = mag / 1_000_000_000u128;
    let rem: u128 = mag % 1_000_000_000u128;
    assert(q <= mag);
    let units: i128 = if neg {
        -(q as i128)
    } else {
        q as i128
    };
    let nano: i128 = if neg {
        -(rem as i128)
    } else {
        rem as i128
    };
    assert(units == trunc_div(total as int, NANO as int));
    assert(nano == trunc_rem(total as int, NANO as int)) by (nonlinear_arith)
        requires
            mag == (if neg { -total } else { total as int }),
            q == mag / 1_000_000_000,
            rem == mag % 1_000_000_000,
            units == (if neg { -q } else { q as int }),
            nano == (if neg { -rem } else { rem as int }),
            units == trunc_div(total as int, NANO as int),
            NANO == 1_000_000_000,
    ;
    if units < i64::MIN as i128 || units > i64::MAX as i128 {
        return None;
    }
    let r = Quotation { units: units as i64, nano: nano as i32 };
    proof {
        lemma_trunc_parts(total as int);
        if has_exact_quotation(d) {
            lemma_quotation_product(d);
        }
        assert forall|q: Quotation| #[trigger] valid_quotation(q) && d.m() == quotation_nanos(q) && d.s() == 9
            implies r == q by {
            law_quotation_split(q);
            assert(pow10(0) == 1);
            assert(nanos_of(d) == d.m());
            assert(int_part(d) == trunc_div(d.m(), pow10(9)));
            reveal_with_fuel(pow10, 10);
            assert(has_exact_quotation(d));
            lemma_quotation_product(d);
        }
    }
    Some(r)
}

/// Rounding toward zero splits a number of billionths into whole units and
/// a rest of the same sign below one unit.
proof fn lemma_trunc_parts(t: int)
    ensures
        trunc_div(t, NANO as int) * NANO + trunc_rem(t, NANO as int) == t,
        -NANO < trunc_rem(t, NANO as int) < NANO,
        t >= 0 ==> trunc_rem(t, NANO as int) >= 0 && trunc_div(t, NANO as int) >= 0,
        t <= 0 ==> trunc_rem(t, NANO as int) <= 0 && trunc_div(t, NANO as int) <= 0,
{
    if t >= 0 {
        assert(0 <= t % (NANO as int) < NANO && t / (NANO as int) >= 0) by (nonlinear_arith)
            requires
                t >= 0,
                NANO == 1_000_000_000,
        ;
        assert(t == (t / (NANO as int)) * NANO + t % (NANO as int)) by (nonlinear_arith)
            requires
                NANO == 1_000_000_000,
        ;
    } else {
        let u = -t;
        assert(0 <= u % (NANO as int) < NANO && u / (NANO as int) >= 0) by (nonlinear_arith)
            requires
                u > 0,
                NANO == 1_000_000_000,
        ;
        assert(u == (u / (NANO as int)) * NANO + u % (NANO as int)) by (nonlinear_arith)
            requires
                NANO == 1_000_000_000,
        ;
    }
}

/// The quotation of a decimal: `d * 10^9` split into whole units and
/// billionths, both rounded toward zero.
pub fn decimal_to_quotation(d: Dec) -> (r: Quotation)
    requires
        quotation_spec(d) is Some,
    ensures
        Some(r) == quotation_spec(d),
{
    try_decimal_to_quotation(d).unwrap()
}

/// The quotation of a money value (the currency is dropped).
pub fn money_value_to_quotation(m: &MoneyValue) -> (r: Quotation)
    ensures
        r.units == m.units,
        r.nano == m.nano,
{
    Quotation { units: m.units, nano: m.nano }
}

/// A money value of a quotation in a currency.
pub fn quotation_and_currency_to_money_value(q: &Quotation, currency: &str) -> (r: MoneyValue)
    ensures
        r.currency@ == currency@,
        r.units == q.units,
        r.nano == q.nano,
{
    MoneyValue { currency: String::from_str(currency), units: q.units, nano: q.nano }
}

/// The decimal of a money value (the currency is dropped).
pub fn money_value_to_decimal(m: &MoneyValue) -> (r: Dec)
    ensures
        r.m() == m.units * NANO + m.nano,
        r.s() == 9,
{
    quotation_to_decimal(money_value_to_quotation(m))
}

/// The money value of a decimal in a currency, or `None` where the decimal
/// has no quotation.
pub fn try_decimal_and_currency_to_money_value(d: Dec, currency: &str) -> (r: Option<MoneyValue>)
    ensures
        r is Some <==> quotation_spec(d) is Some,
        r is Some ==> {
            let q = quotation_spec(d)->0;
            &&& r->0.currency@ == currency@
            &&& r->0.units == q.units
            &&& r->0.nano == q.nano
        },
{
    match try_decimal_to_quotation(d) {
        None => None,
        Some(q) => Some(quotation_and_currency_to_money_value(&q, currency)),
    }
}

/// The money value of a decimal in a currency.
pub fn decimal_and_currency_to_money_value(d: Dec, currency: &str) -> (r: MoneyValue)
    requires
        quotation_spec(d) is Some,
    ensures
        r.currency@ == currency@,
        r.units == quotation_spec(d)->0.units,
        r.nano == quotation_spec(d)->0.nano,
{
    let quotation = decimal_to_quotation(d);
    quotation_and_currency_to_money_value(&quotation, currency)
}

/// The dirty price in roubles of a bond quoted at `points` percent of its
/// nominal: `points / 100 * nominal + aci`; `None` when the bond cannot be
/// both bought and sold, or on decimal overflow.
pub open spec fn live_price_spec(points: Quotation, buy_available: bool, sell_available: bool, nominal: Dec, aci: Dec) -> Option<Dec> {
    if !buy_available || !sell_available {
        None
    } else {
        let p = quotation_value(points);
        match decimal_checked_div(p, spec_from_i64(100)) {
            None => None,
            Some(fraction) => match decimal_checked_mul(fraction, nominal) {
                None => None,
                Some(clean) => decimal_checked_add(clean, aci),
            },
        }
    }
}

/// The decimal of a quotation as a value of the model.
pub open spec fn quotation_value(q: Quotation) -> Dec {
    choose|d: Dec| d.m() == quotation_nanos(q) && d.s() == 9
}

/// The price at which the live engine values a bond.
pub fn live_price(points: Quotation, buy_available: bool, sell_available: bool, nominal: &MoneyValue, aci: &MoneyValue) -> (r: Option<Dec>)
    ensures
        r == live_price_spec(
            points,
            buy_available,
            sell_available,
            quotation_value(money_value_to_quotation_spec(*nominal)),
            quotation_value(money_value_to_quotation_spec(*aci)),
        ),
        !buy_available || !sell_available ==> r is None,
        buy_available && sell_available && crate::simulator::unit_cost_is_exact(
            quotation_value(points),
            quotation_value(money_value_to_quotation_spec(*nominal)),
            quotation_value(money_value_to_quotation_spec(*aci)),
        ) ==> (r matches Some(x) && x.val() * (100 * crate::decimal::pow10(28)) == quotation_value(points).val()
            * quotation_value(money_value_to_quotation_spec(*nominal)).val() + 100 * crate::decimal::pow10(28)
            * quotation_value(money_value_to_quotation_spec(*aci)).val()),
{
    let p = quotation_to_decimal(points);
    proof {
        crate::decimal::lemma_dec_ext(p, quotation_value(points));
    }
    if !buy_available || !sell_available {
        return None;
    }
    let n = money_value_to_decimal(nominal);
    let a = money_value_to_decimal(aci);
    proof {
        crate::decimal::lemma_dec_ext(n, quotation_value(money_value_to_quotation_spec(*nominal)));
        crate::decimal::lemma_dec_ext(a, quotation_value(money_value_to_quotation_spec(*aci)));
    }
    crate::simulator::unit_cost(p, n, a)
}

/// The quotation of a money value as a value of the model.
pub open spec fn money_value_to_quotation_spec(m: MoneyValue) -> Quotation {
    Quotation { units: m.units, nano: m.nano }
}

} // verus!
