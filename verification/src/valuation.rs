//! The value of a user's portfolio: stored holdings priced with the
//! broker's current prices, and the results of importing a broker account.
use crate::decimal::{
    checked_add, checked_mul, decimal_checked_add, decimal_checked_div, decimal_checked_mul, decimal_checked_sub,
    decimal_round_dp, decimal_text, decimal_to_string, from_i64, is_zero, round_dp, checked_div, checked_sub,
    Dec,
};
use crate::keyed_map::{
    lemma_lookup_at, lemma_map_values_keys, lemma_store_map_values, lookup, map_values, store, IsinMap,
    KeyedMap,
};
use crate::model::{lemma_from_i64_is_spec, spec_from_i64};
use crate::quotation::{money_value_to_decimal, quotation_value, MoneyValue, Quotation};
use crate::text::{nat_digits, push_digits};
use vstd::prelude::*;

verus! {

/// A bond held in a stored portfolio.
pub struct Holding {
    pub isin: String,
    pub quantity: i64,
}

/// A position of the broker's portfolio answer.
pub struct PortfolioPosition {
    pub instrument_type: String,
    pub ticker: String,
    pub figi: String,
    /// Price of one unit.
    pub current_price: Option<MoneyValue>,
    /// Accrued coupon interest of one unit.
    pub current_nkd: Option<MoneyValue>,
}

/// A holding as the API shows it: price and value rounded to kopecks.
pub struct HoldingValue {
    pub isin: String,
    pub name: String,
    pub quantity: i64,
    pub price: String,
    pub value: String,
    /// Whether the price is estimated (the bond's nominal plus accrued
    /// interest) because no market price is available.  Without an estimate
    /// for the bond, or without a broker connection, the price is zero.
    pub estimated: bool,
}

/// A portfolio's value as the API shows it.
pub struct PortfolioValue {
    pub holdings: Vec<HoldingValue>,
    pub bonds_value: String,
    pub cash: String,
    pub total_value: String,
}

/// A money value as a decimal of the model (`units * 10^9 + nano` at scale 9).
pub open spec fn money_dec(m: MoneyValue) -> Dec {
    quotation_value(Quotation { units: m.units, nano: m.nano })
}

/// An optional amount, zero when absent.
pub open spec fn money_or_zero(m: Option<MoneyValue>) -> Dec {
    match m {
        Some(v) => money_dec(v),
        None => spec_from_i64(0),
    }
}

/// The price of one unit with its accrued interest.
pub struct PriceView {
    pub name: Seq<char>,
    pub price: Dec,
}

/// The unit prices of the broker's bond positions by ticker and by FIGI
/// (each named by its ticker), in order; `None` on decimal overflow.
pub open spec fn position_prices_spec(ps: Seq<PortfolioPosition>) -> Option<Seq<(Seq<char>, PriceView)>>
    decreases ps.len(),
{
    if ps.len() == 0 {
        Some(Seq::empty())
    } else {
        match position_prices_spec(ps.drop_last()) {
            None => None,
            Some(rest) => {
                let p = ps.last();
                if p.instrument_type@ != "bond"@ {
                    Some(rest)
                } else {
                    match decimal_checked_add(money_or_zero(p.current_price), money_or_zero(p.current_nkd)) {
                        None => None,
                        Some(sum) => {
                            let v = PriceView { name: p.ticker@, price: sum };
                            let r1 = if p.ticker@.len() > 0 {
                                store(rest, p.ticker@, v)
                            } else {
                                rest
                            };
                            Some(if p.figi@.len() > 0 {
                                store(r1, p.figi@, v)
                            } else {
                                r1
                            })
                        },
                    }
                }
            },
        }
    }
}

/// A price with its name.
pub struct PositionData {
    pub name: String,
    pub price_per_one: Dec,
}

/// A price entry as a value of the model.
pub open spec fn price_view(d: PositionData) -> PriceView {
    PriceView { name: d.name@, price: d.price_per_one }
}

pub open spec fn price_view_fn() -> spec_fn(PositionData) -> PriceView {
    |d: PositionData| price_view(d)
}

/// A decimal of a money value, or zero.
fn money_or_zero_exec(m: &Option<MoneyValue>) -> (r: Dec)
    ensures
        r == money_or_zero(*m),
{
    match m {
        Some(v) => {
            let d = money_value_to_decimal(v);
            proof {
                crate::decimal::lemma_dec_ext(d, money_dec(*v));
            }
            d
        },
        None => {
            let z = from_i64(0);
            proof {
                lemma_from_i64_is_spec(z, 0);
            }
            z
        },
    }
}

/// The estimated price of one unit of a bond: its nominal plus its accrued
/// coupon interest, each zero when absent; `None` on decimal overflow.
pub fn estimated_price(nominal: &Option<MoneyValue>, aci_value: &Option<MoneyValue>) -> (r: Option<Dec>)
    ensures
        r == decimal_checked_add(money_or_zero(*nominal), money_or_zero(*aci_value)),
{
    let n = money_or_zero_exec(nominal);
    let a = money_or_zero_exec(aci_value);
    checked_add(n, a)
}

/// The unit prices of the broker's bond positions.
pub fn position_prices(positions: &Vec<PortfolioPosition>) -> (r: Option<IsinMap<PositionData>>)
    ensures
        match r {
            Some(m) => position_prices_spec(positions@) == Some(map_values(m@, price_view_fn())),
            None => position_prices_spec(positions@) is None,
        },
{
    let mut m: IsinMap<PositionData> = KeyedMap::new();
    let bond = String::from_str("bond");
    let n = positions.len();
    let mut i: usize = 0;
    while i < n
        invariant
            n == positions@.len(),
            i <= n,
            bond@ == "bond"@,
            position_prices_spec(positions@.take(i as int)) == Some(map_values(m@, price_view_fn())),
        decreases n - i,
    {
        assert(positions@.take(i + 1).drop_last() =~= positions@.take(i as int));
        assert(positions@.take(i + 1).last() == positions@[i as int]);
        let p = &positions[i];
        if p.instrument_type == bond {
            let price = money_or_zero_exec(&p.current_price);
            let nkd = money_or_zero_exec(&p.current_nkd);
            let sum = match checked_add(price, nkd) {
                None => {
                    proof {
                        lemma_prices_none_stays(positions@, i as int + 1);
                    }
                    return None;
                },
                Some(s) => s,
            };
            if !p.ticker.as_str().is_empty() {
                let ghost before = m@;
                let d = PositionData { name: p.ticker.clone(), price_per_one: sum };
                let ghost dg = d;
                m.insert(p.ticker.clone(), d);
                proof {
                    lemma_store_map_values(before, price_view_fn(), p.ticker@, dg);
                }
            }
            if !p.figi.as_str().is_empty() {
                let ghost before = m@;
                let d = PositionData { name: p.ticker.clone(), price_per_one: sum };
                let ghost dg = d;
                m.insert(p.figi.clone(), d);
                proof {
                    lemma_store_map_values(before, price_view_fn(), p.figi@, dg);
                }
            }
        }
        i = i + 1;
    }
    assert(positions@.take(n as int) =~= positions@);
    Some(m)
}

/// A failed prefix makes the whole price list fail.
pub proof fn lemma_prices_none_stays(ps: Seq<PortfolioPosition>, k: int)
    requires
        0 <= k <= ps.len(),
        position_prices_spec(ps.take(k)) is None,
    ensures
        position_prices_spec(ps) is None,
    decreases ps.len() - k,
{
    if k < ps.len() {
        assert(ps.take(k + 1).drop_last() =~= ps.take(k));
        lemma_prices_none_stays(ps, k + 1);
    } else {
        assert(ps.take(k) =~= ps);
    }
}

/// A holding's line as a value of the model.
pub struct HoldingLine {
    pub isin: Seq<char>,
    pub name: Seq<char>,
    pub quantity: i64,
    pub price: Seq<char>,
    pub value: Seq<char>,
    pub estimated: bool,
}

/// A line as a value of the model.
pub open spec fn line_view(h: HoldingValue) -> HoldingLine {
    HoldingLine { isin: h.isin@, name: h.name@, quantity: h.quantity, price: h.price@, value: h.value@, estimated: h.estimated }
}

/// Lines as values of the model.
pub open spec fn lines_view(s: Seq<HoldingValue>) -> Seq<HoldingLine> {
    Seq::new(s.len(), |i: int| line_view(s[i]))
}

/// The estimated price of a holding without a market price: its estimate
/// (nominal plus accrued interest) when one is known, else zero.
pub open spec fn estimate_or_zero(estimates: Seq<(Seq<char>, Dec)>, isin: Seq<char>) -> Dec {
    match lookup(estimates, isin) {
        Some(e) => e,
        None => spec_from_i64(0),
    }
}

/// The lines of the holdings and the value of the bonds, priced by the
/// broker's unit prices (a holding without one is priced at its estimate and
/// marked estimated); `None` on decimal overflow.
pub open spec fn priced_lines(
    hs: Seq<Holding>,
    prices: Seq<(Seq<char>, PriceView)>,
    estimates: Seq<(Seq<char>, Dec)>,
) -> Option<(Seq<HoldingLine>, Dec)>
    decreases hs.len(),
{
    if hs.len() == 0 {
        Some((Seq::empty(), spec_from_i64(0)))
    } else {
        match priced_lines(hs.drop_last(), prices, estimates) {
            None => None,
            Some((lines, total)) => {
                let h = hs.last();
                let (name, price, estimated) = match lookup(prices, h.isin@) {
                    Some(pv) => (pv.name, pv.price, false),
                    None => (h.isin@, estimate_or_zero(estimates, h.isin@), true),
                };
                match decimal_checked_mul(price, spec_from_i64(h.quantity)) {
                    None => None,
                    Some(val) => match decimal_checked_add(total, val) {
                        None => None,
                        Some(t) => Some(
                            (
                                lines.push(
                                    HoldingLine {
                                        isin: h.isin@,
                                        name,
                                        quantity: h.quantity,
                                        price: decimal_text(decimal_round_dp(price, 2)),
                                        value: decimal_text(decimal_round_dp(val, 2)),
                                        estimated,
                                    },
                                ),
                                t,
                            ),
                        ),
                    },
                }
            },
        }
    }
}

/// A failed prefix makes the whole pricing fail.
pub proof fn lemma_lines_none_stays(
    hs: Seq<Holding>,
    prices: Seq<(Seq<char>, PriceView)>,
    estimates: Seq<(Seq<char>, Dec)>,
    k: int,
)
    requires
        0 <= k <= hs.len(),
        priced_lines(hs.take(k), prices, estimates) is None,
    ensures
        priced_lines(hs, prices, estimates) is None,
    decreases hs.len() - k,
{
    if k < hs.len() {
        assert(hs.take(k + 1).drop_last() =~= hs.take(k));
        lemma_lines_none_stays(hs, prices, estimates, k + 1);
    } else {
        assert(hs.take(k) =~= hs);
    }
}

/// The value of a portfolio: with no holdings, the cash alone; without a
/// broker connection, every holding unpriced; otherwise each holding at the
/// broker's unit price, or at its estimate when the broker has none (rounded
/// to two places in the answer), the bonds' value and cash plus bonds.
/// `None` on decimal overflow.
pub open spec fn portfolio_value_ok(
    r: PortfolioValue,
    hs: Seq<Holding>,
    cash: Dec,
    prices: Option<Seq<(Seq<char>, PriceView)>>,
    estimates: Seq<(Seq<char>, Dec)>,
) -> bool {
    if hs.len() == 0 {
        &&& r.holdings@.len() == 0
        &&& r.bonds_value@ == "0"@
        &&& r.cash@ == decimal_text(cash)
        &&& r.total_value@ == decimal_text(cash)
    } else {
        match prices {
            None => {
                &&& lines_view(r.holdings@) == Seq::new(
                    hs.len(),
                    |i: int|
                        HoldingLine {
                            isin: hs[i].isin@,
                            name: hs[i].isin@,
                            quantity: hs[i].quantity,
                            price: "0"@,
                            value: "0"@,
                            estimated: true,
                        },
                )
                &&& r.bonds_value@ == "0"@
                &&& r.cash@ == decimal_text(cash)
                &&& r.total_value@ == decimal_text(cash)
            },
            Some(p) => match priced_lines(hs, p, estimates) {
                None => false,
                Some((lines, bonds)) => {
                    &&& lines_view(r.holdings@) == lines
                    &&& r.bonds_value@ == decimal_text(decimal_round_dp(bonds, 2))
                    &&& r.cash@ == decimal_text(decimal_round_dp(cash, 2))
                    &&& decimal_checked_add(bonds, cash) is Some
                    &&& r.total_value@ == decimal_text(decimal_round_dp(decimal_checked_add(bonds, cash)->0, 2))
                },
            },
        }
    }
}

/// The value of a portfolio from its holdings, its cash and, when the
/// portfolio is connected to the broker, the broker's unit prices and the
/// estimated prices (nominal plus accrued interest) of bonds.
pub fn portfolio_value(
    holdings: &Vec<Holding>,
    cash: Dec,
    prices: Option<&IsinMap<PositionData>>,
    estimates: &IsinMap<Dec>,
) -> (r: Option<PortfolioValue>)
    ensures
        ({
            let pv = match prices {
                Some(m) => Some(map_values(m@, price_view_fn())),
                None => None,
            };
            match r {
                Some(v) => portfolio_value_ok(v, holdings@, cash, pv, estimates@),
                None => holdings@.len() > 0 && pv is Some && match priced_lines(holdings@, pv->0, estimates@) {
                    None => true,
                    Some((_, bonds)) => decimal_checked_add(bonds, cash) is None,
                },
            }
        }),
{
    if holdings.len() == 0 {
        proof { reveal_strlit("0"); }
        return Some(PortfolioValue {
            holdings: Vec::new(),
            bonds_value: String::from_str("0"),
            cash: decimal_to_string(cash),
            total_value: decimal_to_string(cash),
        });
    }
    let map = match prices {
        None => {
            let mut lines: Vec<HoldingValue> = Vec::new();
            let n = holdings.len();
            let mut i: usize = 0;
            while i < n
                invariant
                    n == holdings@.len(),
                    i <= n,
                    lines_view(lines@) == Seq::new(
                        i as nat,
                        |j: int|
                            HoldingLine {
                                isin: holdings@[j].isin@,
                                name: holdings@[j].isin@,
                                quantity: holdings@[j].quantity,
                                price: "0"@,
                                value: "0"@,
                                estimated: true,
                            },
                    ),
                decreases n - i,
            {
                let h = &holdings[i];
                let ghost before = lines@;
                lines.push(HoldingValue {
                    isin: h.isin.clone(),
                    name: h.isin.clone(),
                    quantity: h.quantity,
                    price: String::from_str("0"),
                    value: String::from_str("0"),
                    estimated: true,
                });
                assert(lines_view(lines@) =~= lines_view(before).push(line_view(lines@.last())));
                i = i + 1;
                assert(lines_view(lines@) =~= Seq::new(
                    i as nat,
                    |j: int|
                        HoldingLine {
                            isin: holdings@[j].isin@,
                            name: holdings@[j].isin@,
                            quantity: holdings@[j].quantity,
                            price: "0"@,
                            value: "0"@,
                            estimated: true,
                        },
                ));
            }
            return Some(PortfolioValue {
                holdings: lines,
                bonds_value: String::from_str("0"),
                cash: decimal_to_string(cash),
                total_value: decimal_to_string(cash),
            });
        },
        Some(m) => m,
    };
    let ghost pv = map_values(map@, price_view_fn());
    let zero_d = from_i64(0);
    proof {
        lemma_from_i64_is_spec(zero_d, 0);
    }
    let mut lines: Vec<HoldingValue> = Vec::new();
    let mut total = zero_d;
    let n = holdings.len();
    let mut i: usize = 0;
    while i < n
        invariant
            n == holdings@.len(),
            n > 0,
            prices == Some(map),
            i <= n,
            pv == map_values(map@, price_view_fn()),
            zero_d == spec_from_i64(0),
            priced_lines(holdings@.take(i as int), pv, estimates@) == Some((lines_view(lines@), total)),
        decreases n - i,
    {
        assert(holdings@.take(i + 1).drop_last() =~= holdings@.take(i as int));
        assert(holdings@.take(i + 1).last() == holdings@[i as int]);
        let h = &holdings[i];
        proof {
            lemma_map_values_keys(map@, price_view_fn(), h.isin@);
        }
        let (name, price, estimated) = match map.find(&h.isin) {
            Some(j) => {
                proof {
                    lemma_lookup_at(map@, j as int);
                }
                let d = map.value_ref(j);
                (d.name.clone(), d.price_per_one, false)
            },
            None => {
                let e = match estimates.get(&h.isin) {
                    Some(e) => e,
                    None => zero_d,
                };
                (h.isin.clone(), e, true)
            },
        };
        let q = from_i64(h.quantity);
        proof {
            lemma_from_i64_is_spec(q, h.quantity);
        }
        let val = match checked_mul(price, q) {
            None => {
                proof {
                    lemma_lines_none_stays(holdings@, pv, estimates@, i as int + 1);
                }
                return None;
            },
            Some(v) => v,
        };
        total = match checked_add(total, val) {
            None => {
                proof {
                    lemma_lines_none_stays(holdings@, pv, estimates@, i as int + 1);
                }
                return None;
            },
            Some(t) => t,
        };
        let ghost before = lines@;
        lines.push(HoldingValue {
            isin: h.isin.clone(),
            name,
            quantity: h.quantity,
            price: decimal_to_string(round_dp(price, 2)),
            value: decimal_to_string(round_dp(val, 2)),
            estimated,
        });
        assert(lines_view(lines@) =~= lines_view(before).push(line_view(lines@.last())));
        i = i + 1;
    }
    assert(holdings@.take(n as int) =~= holdings@);
    let grand = match checked_add(total, cash) {
        None => return None,
        Some(g) => g,
    };
    Some(PortfolioValue {
        holdings: lines,
        bonds_value: decimal_to_string(round_dp(total, 2)),
        cash: decimal_to_string(round_dp(cash, 2)),
        total_value: decimal_to_string(round_dp(grand, 2)),
    })
}

/// The value of the bonds at the given prices (a bond without a price
/// counts for nothing), the cash, and their sum; `None` on decimal overflow.
pub open spec fn market_value_spec(hs: Seq<Holding>, prices: Seq<(Seq<char>, Dec)>, cash: Dec) -> Option<(Dec, Dec, Dec)> {
    match bonds_value_spec(hs, prices) {
        None => None,
        Some(b) => match decimal_checked_add(b, cash) {
            None => None,
            Some(t) => Some((b, cash, t)),
        },
    }
}

/// The value of the bonds at the given prices, added in order.
pub open spec fn bonds_value_spec(hs: Seq<Holding>, prices: Seq<(Seq<char>, Dec)>) -> Option<Dec>
    decreases hs.len(),
{
    if hs.len() == 0 {
        Some(spec_from_i64(0))
    } else {
        match bonds_value_spec(hs.drop_last(), prices) {
            None => None,
            Some(acc) => match lookup(prices, hs.last().isin@) {
                None => Some(acc),
                Some(p) => match decimal_checked_mul(p, spec_from_i64(hs.last().quantity)) {
                    None => None,
                    Some(v) => decimal_checked_add(acc, v),
                },
            },
        }
    }
}

/// The market value of a portfolio: bonds, cash, total.
pub fn compute_market_value(holdings: &Vec<Holding>, cash: Dec, prices: &IsinMap<Dec>) -> (r: Option<(Dec, Dec, Dec)>)
    ensures
        r == market_value_spec(holdings@, prices@, cash),
        r matches Some((b, c, t)) ==> c == cash && (crate::decimal::sum_is_exact(b, c, 1) ==> t.val() == b.val() + c.val()),
{
    let zero_d = from_i64(0);
    proof {
        lemma_from_i64_is_spec(zero_d, 0);
    }
    let mut bonds = zero_d;
    let n = holdings.len();
    let mut i: usize = 0;
    while i < n
        invariant
            n == holdings@.len(),
            i <= n,
            bonds_value_spec(holdings@.take(i as int), prices@) == Some(bonds),
        decreases n - i,
    {
        assert(holdings@.take(i + 1).drop_last() =~= holdings@.take(i as int));
        assert(holdings@.take(i + 1).last() == holdings@[i as int]);
        if let Some(p) = prices.get(&holdings[i].isin) {
            let q = from_i64(holdings[i].quantity);
            proof {
                lemma_from_i64_is_spec(q, holdings@[i as int].quantity);
            }
            let step = match checked_mul(p, q) {
                None => None,
                Some(v) => checked_add(bonds, v),
            };
            match step {
                None => {
                    proof {
                        lemma_bonds_none_stays(holdings@, prices@, i as int + 1);
                    }
                    return None;
                },
                Some(b) => {
                    bonds = b;
                },
            }
        }
        i = i + 1;
    }
    assert(holdings@.take(n as int) =~= holdings@);
    match checked_add(bonds, cash) {
        None => None,
        Some(t) => Some((bonds, cash, t)),
    }
}

/// A failed prefix makes the whole value fail.
pub proof fn lemma_bonds_none_stays(hs: Seq<Holding>, prices: Seq<(Seq<char>, Dec)>, k: int)
    requires
        0 <= k <= hs.len(),
        bonds_value_spec(hs.take(k), prices) is None,
    ensures
        bonds_value_spec(hs, prices) is None,
    decreases hs.len() - k,
{
    if k < hs.len() {
        assert(hs.take(k + 1).drop_last() =~= hs.take(k));
        lemma_bonds_none_stays(hs, prices, k + 1);
    } else {
        assert(hs.take(k) =~= hs);
    }
}

/// The simple return between the first and the last snapshot values:
/// `(last - first) / first`; `None` with fewer than two snapshots, a zero
/// first value, or on decimal overflow.
pub open spec fn total_return_spec(values: Seq<Dec>) -> Option<Dec> {
    if values.len() < 2 {
        None
    } else {
        let first = values[0];
        let last = values[values.len() - 1];
        if first.val() == 0 {
            None
        } else {
            match decimal_checked_sub(last, first) {
                None => None,
                Some(d) => decimal_checked_div(d, first),
            }
        }
    }
}

/// The simple return of a portfolio over its snapshots' market values, in
/// date order.
pub fn compute_total_return(values: &Vec<Dec>) -> (r: Option<Dec>)
    ensures
        r == total_return_spec(values@),
        values@.len() < 2 || values@[0].val() == 0 ==> r is None,
        total_return_is_exact(values@) ==> (r matches Some(x)
            && x.val() * values@[0].val() == (values@[values@.len() - 1].val() - values@[0].val()) * crate::decimal::pow10(28)),
{
    if values.len() < 2 {
        return None;
    }
    let first = values[0];
    let last = values[values.len() - 1];
    if is_zero(first) {
        return None;
    }
    match checked_sub(last, first) {
        None => None,
        Some(d) => {
            proof {
                if total_return_is_exact(values@) {
                    let k = choose|k: nat| #[trigger] crate::decimal::quotient_fits_at(d, first, k);
                    assert(crate::decimal::quotient_fits_at(d, first, k));
                }
            }
            checked_div(d, first)
        },
    }
}

/// Whether the simple return is computed without rounding: two or more
/// values, the first one non-zero with a mantissa below `2^32`, an exact
/// difference and an exact quotient.
pub open spec fn total_return_is_exact(values: Seq<Dec>) -> bool {
    let first = values[0];
    let last = values[values.len() - 1];
    &&& values.len() >= 2
    &&& first.val() != 0
    &&& crate::decimal::abs(first.m()) < crate::decimal::two32()
    &&& crate::decimal::sum_is_exact(last, first, -1)
    &&& exists|k: nat| #[trigger] crate::decimal::quotient_fits_at(decimal_checked_sub(last, first)->0, first, k)
}

/// The result of importing a broker account.
pub struct ImportResult {
    pub holdings_imported: usize,
    pub cash_rub: String,
}

/// The result of running a strategy.
pub struct RunResult {
    pub orders_count: usize,
    pub message: String,
}

/// The positions worth importing: those with a positive quantity, in order.
pub open spec fn positive_positions(s: Seq<(Seq<char>, i64)>) -> Seq<(Seq<char>, i64)>
    decreases s.len(),
{
    if s.len() == 0 {
        Seq::empty()
    } else {
        let rest = positive_positions(s.drop_last());
        if s.last().1 > 0 {
            rest.push(s.last())
        } else {
            rest
        }
    }
}

/// Positions as values of the model.
pub open spec fn positions_view(v: Seq<(String, i64)>) -> Seq<(Seq<char>, i64)> {
    Seq::new(v.len(), |i: int| (v[i].0@, v[i].1))
}

/// The positions of an account worth importing.
pub fn positions_to_import(bonds_count: &IsinMap<i64>) -> (r: Vec<(String, i64)>)
    ensures
        positions_view(r@) == positive_positions(bonds_count@),
{
    let mut out: Vec<(String, i64)> = Vec::new();
    let n = bonds_count.len();
    let mut i: usize = 0;
    while i < n
        invariant
            n == bonds_count@.len(),
            i <= n,
            positions_view(out@) == positive_positions(bonds_count@.take(i as int)),
        decreases n - i,
    {
        assert(bonds_count@.take(i + 1).drop_last() =~= bonds_count@.take(i as int));
        assert(bonds_count@.take(i + 1).last() == bonds_count@[i as int]);
        let q = bonds_count.value_at(i);
        if q > 0 {
            let ghost before = out@;
            let e = (bonds_count.key_at(i).clone(), q);
            out.push(e);
            assert(positions_view(out@) =~= positions_view(before).push((bonds_count@[i as int].0, q)));
        }
        i = i + 1;
    }
    assert(bonds_count@.take(n as int) =~= bonds_count@);
    out
}

/// The answer to an import: how many positions were imported and the cash.
pub fn import_result(holdings_imported: usize, cash: Dec) -> (r: ImportResult)
    ensures
        r.holdings_imported == holdings_imported,
        r.cash_rub@ == decimal_text(cash),
{
    ImportResult { holdings_imported, cash_rub: decimal_to_string(cash) }
}

/// The message after running a strategy.
pub open spec fn run_message(strategy_name: Seq<char>, imported: usize, cash: Dec) -> Seq<char> {
    "Strategy '"@ + strategy_name + "' executed. Imported "@ + nat_digits(imported as nat) + " holdings, cash: "@
        + decimal_text(cash) + " RUB"@
}

/// The answer after running a strategy.
pub fn run_result(strategy_name: &str, imported: usize, cash: Dec) -> (r: RunResult)
    ensures
        r.orders_count == imported,
        r.message@ == run_message(strategy_name@, imported, cash),
{
    let mut m = String::from_str("Strategy '");
    m.append(strategy_name);
    m.append("' executed. Imported ");
    push_digits(&mut m, imported as u64);
    m.append(" holdings, cash: ");
    let c = decimal_to_string(cash);
    m.append(c.as_str());
    m.append(" RUB");
    assert(m@ =~= run_message(strategy_name@, imported, cash));
    RunResult { orders_count: imported, message: m }
}

/// A security position of the broker's positions answer.
pub struct Security {
    pub instrument_type: String,
    pub ticker: String,
    /// Number of units held.
    pub balance: i64,
}

/// The bond counts of the securities by ticker (a later position of the
/// same ticker replaces an earlier one).
pub open spec fn security_counts(s: Seq<Security>) -> Seq<(Seq<char>, i64)>
    decreases s.len(),
{
    if s.len() == 0 {
        Seq::empty()
    } else {
        store(security_counts(s.drop_last()), s.last().ticker@, s.last().balance)
    }
}

/// The account the live engine trades: one money position, in roubles, and
/// bonds only; `None` when the answer is anything else.
pub fn live_portfolio(money: &Vec<MoneyValue>, securities: &Vec<Security>) -> (r: Option<crate::model::Portfolio>)
    ensures
        r is Some <==> (money@.len() == 1 && money@[0].currency@ == "rub"@ && forall|i: int|
            0 <= i < securities@.len() ==> #[trigger] securities@[i].instrument_type@ == "bond"@),
        r is Some ==> {
            &&& r->0.free_money == money_dec(money@[0])
            &&& r->0.bonds_count@ == security_counts(securities@)
        },
{
    if money.len() != 1 {
        return None;
    }
    if money[0].currency != String::from_str("rub") {
        return None;
    }
    let free_money = money_value_to_decimal(&money[0]);
    proof {
        crate::decimal::lemma_dec_ext(free_money, money_dec(money@[0]));
    }
    let bond = String::from_str("bond");
    let mut counts: IsinMap<i64> = KeyedMap::new();
    let n = securities.len();
    let mut i: usize = 0;
    while i < n
        invariant
            n == securities@.len(),
            i <= n,
            bond@ == "bond"@,
            forall|j: int| 0 <= j < i ==> #[trigger] securities@[j].instrument_type@ == "bond"@,
            counts@ == security_counts(securities@.take(i as int)),
        decreases n - i,
    {
        assert(securities@.take(i + 1).drop_last() =~= securities@.take(i as int));
        assert(securities@.take(i + 1).last() == securities@[i as int]);
        if securities[i].instrument_type != bond {
            return None;
        }
        counts.insert(securities[i].ticker.clone(), securities[i].balance);
        i = i + 1;
    }
    assert(securities@.take(n as int) =~= securities@);
    Some(crate::model::Portfolio { free_money, bonds_count: counts })
}

} // verus!
