//! The market simulator of backtests: it executes orders against cached
//! daily prices, credits payments and values the portfolio.
use crate::decimal::{
    checked_add, checked_div, checked_mul, checked_sub, decimal_checked_add, decimal_checked_div,
    decimal_checked_mul, decimal_checked_sub, from_i64, is_zero, lt, to_i64, int_part, Dec,
    lemma_pow10_positive, pow10, product_fits_after, quotient_fits_at, sum_is_exact,
};
use crate::keyed_map::{lookup, store, IsinMap, KeyedMap};
use crate::model::{
    lemma_from_i64_is_spec, spec_from_i64, Date, Isin, MarketOrder, MarketOrderType, Portfolio,
};
use vstd::prelude::*;

verus! {

/// One day's candle of a bond: prices in percent of the face value, the
/// traded volume in bonds, the face value and the accrued interest in roubles.
#[derive(Clone, Copy, Debug)]
pub struct PriceEntry {
    pub open: Dec,
    pub close: Dec,
    pub low: Dec,
    pub high: Dec,
    pub volume: Dec,
    pub facevalue: Dec,
    pub accint: Dec,
}

/// One executed trade.
#[derive(Debug)]
pub struct TradeEvent {
    pub date: Date,
    pub isin: String,
    pub quantity: i64,
    /// Execution price in percent of the face value.
    pub price: Dec,
    /// Accrued interest per bond.
    pub accint: Dec,
    /// Total amount in roubles.
    pub total_amount: Dec,
    /// "buy" or "sell".
    pub side: String,
}

/// One payment credited (or written off).
#[derive(Debug)]
pub struct PaymentEvent {
    pub date: Date,
    pub isin: String,
    /// Number of bonds the payment was for.
    pub quantity: i64,
    /// Amount per bond in roubles.
    pub amount_per_unit: Dec,
    pub total_amount: Dec,
    /// "coupon", "amortization", "redemption", "offer_redemption" or
    /// "default_write_off".
    pub payment_type: String,
}

/// Why an order was not executed.
#[derive(Clone, Copy, Debug, PartialEq, Eq, Structural)]
pub enum OrderError {
    /// No candle for the bond on the current day.
    NoPrice,
    /// The candle shows no trading.
    NoTrading,
    /// A buy above the day's traded volume.
    DayVolumeExceeded { requested: i64, available: i64 },
    /// A buy above the number of bonds issued.
    IssueVolumeExceeded { requested: i64, issued: i64 },
    /// The amount of the trade, or the new cash or position, does not fit.
    Overflow,
    /// A buy that costs more than the free cash.
    InsufficientFunds,
    /// A sale of more bonds than are held.
    InsufficientBonds { requested: i64, held: i64 },
}

/// A decimal converted to `i64` the way a float cast does: the integer part,
/// saturated at the bounds.
pub open spec fn saturating_int(d: Dec) -> i64 {
    if int_part(d) > i64::MAX {
        i64::MAX
    } else if int_part(d) < i64::MIN {
        i64::MIN
    } else {
        int_part(d) as i64
    }
}

/// The integer part of a decimal, saturated at the bounds of `i64`.
pub fn saturating_to_i64(d: Dec) -> (r: i64)
    ensures
        r == saturating_int(d),
{
    match to_i64(d) {
        Some(v) => v,
        None => {
            proof {
                crate::decimal::lemma_int_part_sign(d);
            }
            if crate::decimal::is_positive(d) {
                i64::MAX
            } else {
                i64::MIN
            }
        },
    }
}

/// The execution price: the middle of the day's range, or the close.
pub open spec fn execution_price_spec(e: PriceEntry, use_mid_price: bool) -> Option<Dec> {
    if use_mid_price {
        match decimal_checked_add(e.low, e.high) {
            None => None,
            Some(sum) => decimal_checked_div(sum, spec_from_i64(2)),
        }
    } else {
        Some(e.close)
    }
}

/// The price of one bond in roubles at `price` percent: `price / 100 * facevalue
/// + accint`.
pub open spec fn unit_cost_spec(price: Dec, facevalue: Dec, accint: Dec) -> Option<Dec> {
    match decimal_checked_div(price, spec_from_i64(100)) {
        None => None,
        Some(fraction) => match decimal_checked_mul(fraction, facevalue) {
            None => None,
            Some(clean) => decimal_checked_add(clean, accint),
        },
    }
}

/// The execution price and the amount in roubles of `count` bonds.
pub open spec fn order_amount_spec(e: PriceEntry, count: i64, use_mid_price: bool) -> Option<(Dec, Dec)> {
    match execution_price_spec(e, use_mid_price) {
        None => None,
        Some(price) => match unit_cost_spec(price, e.facevalue, e.accint) {
            None => None,
            Some(unit) => match decimal_checked_mul(unit, spec_from_i64(count)) {
                None => None,
                Some(amount) => Some((price, amount)),
            },
        },
    }
}

/// What executing an order does, when it succeeds: the execution price, the
/// amount, the new free cash and the new number of the bond held.
pub struct Fill {
    pub price: Dec,
    pub amount: Dec,
    pub free_money: Dec,
    pub holding: i64,
}

/// The candle of `isin` on the simulator's current day.
pub open spec fn todays_entry(s: MarketSimulator, isin: Seq<char>) -> Option<PriceEntry> {
    lookup(s.price_cache@, (s.current_date, isin))
}

/// The number of a bond held (zero when it was never held).
pub open spec fn held_of(holdings: Seq<(Seq<char>, i64)>, isin: Seq<char>) -> i64 {
    match lookup(holdings, isin) {
        Some(h) => h,
        None => 0,
    }
}

/// The outcome of an order of `count` bonds given the day's candle, the issue
/// volume, the bonds held and the free cash: an error (checked in this order:
/// no candle, no trading, day volume, issue volume, arithmetic, cash or
/// bonds) or the fill.
pub open spec fn outcome_of(
    entry: Option<PriceEntry>,
    issue_volume: Option<i64>,
    held: i64,
    free_money: Dec,
    buy: bool,
    count: i64,
    use_mid_price: bool,
) -> Result<Fill, OrderError> {
    match entry {
        None => Err(OrderError::NoPrice),
        Some(e) => {
            let day_volume = saturating_int(e.volume);
            if e.volume.val() == 0 {
                Err(OrderError::NoTrading)
            } else if buy && day_volume > 0 && count > day_volume {
                Err(OrderError::DayVolumeExceeded { requested: count, available: day_volume })
            } else if buy && issue_volume is Some && issue_volume->0 > 0 && count > issue_volume->0 {
                Err(OrderError::IssueVolumeExceeded { requested: count, issued: issue_volume->0 })
            } else {
                match order_amount_spec(e, count, use_mid_price) {
                    None => Err(OrderError::Overflow),
                    Some((price, amount)) => {
                        if buy {
                            if free_money.val() < amount.val() {
                                Err(OrderError::InsufficientFunds)
                            } else {
                                match decimal_checked_sub(free_money, amount) {
                                    None => Err(OrderError::Overflow),
                                    Some(free) => if i64::MIN <= held + count <= i64::MAX {
                                        Ok(Fill { price, amount, free_money: free, holding: (held + count) as i64 })
                                    } else {
                                        Err(OrderError::Overflow)
                                    },
                                }
                            }
                        } else {
                            if held < count {
                                Err(OrderError::InsufficientBonds { requested: count, held })
                            } else {
                                match decimal_checked_add(free_money, amount) {
                                    None => Err(OrderError::Overflow),
                                    Some(free) => if i64::MIN <= held - count <= i64::MAX {
                                        Ok(Fill { price, amount, free_money: free, holding: (held - count) as i64 })
                                    } else {
                                        Err(OrderError::Overflow)
                                    },
                                }
                            }
                        }
                    },
                }
            }
        },
    }
}

/// The outcome of an order on the simulator.
pub open spec fn order_outcome(s: MarketSimulator, order: MarketOrder, use_mid_price: bool) -> Result<Fill, OrderError> {
    outcome_of(
        todays_entry(s, order.isin@),
        lookup(s.issue_volumes@, order.isin@),
        held_of(s.holdings@, order.isin@),
        s.portfolio.free_money,
        order.order_type == MarketOrderType::Buy,
        order.count,
        use_mid_price,
    )
}

/// Whether no step of the price of one bond rounds: the division of the
/// percent by a hundred, the product with the face value and the addition of
/// the accrued interest.
pub open spec fn unit_cost_is_exact(price: Dec, facevalue: Dec, accint: Dec) -> bool {
    let fraction = decimal_checked_div(price, spec_from_i64(100))->0;
    let clean = decimal_checked_mul(fraction, facevalue)->0;
    &&& exists|k: nat| #[trigger] quotient_fits_at(price, spec_from_i64(100), k)
    &&& exists|k: nat| #[trigger] product_fits_after(fraction, facevalue, k)
    &&& sum_is_exact(clean, accint, 1)
}

/// The price of one bond in roubles (`None` on decimal overflow): where no
/// step rounds, exactly `price / 100 * facevalue + accint`.
pub fn unit_cost(price: Dec, facevalue: Dec, accint: Dec) -> (r: Option<Dec>)
    ensures
        r == unit_cost_spec(price, facevalue, accint),
        unit_cost_is_exact(price, facevalue, accint) ==> (r matches Some(u)
            && u.val() * (100 * pow10(28)) == price.val() * facevalue.val() + 100 * pow10(28) * accint.val()),
{
    let hundred = from_i64(100);
    proof {
        lemma_from_i64_is_spec(hundred, 100);
        lemma_pow10_positive(28);
        if unit_cost_is_exact(price, facevalue, accint) {
            let k = choose|k: nat| #[trigger] quotient_fits_at(price, spec_from_i64(100), k);
            assert(quotient_fits_at(price, hundred, k));
        }
    }
    match checked_div(price, hundred) {
        None => None,
        Some(fraction) => {
            proof {
                if unit_cost_is_exact(price, facevalue, accint) {
                    let k = choose|k: nat| #[trigger] product_fits_after(fraction, facevalue, k);
                    assert(product_fits_after(fraction, facevalue, k));
                }
            }
            match checked_mul(fraction, facevalue) {
                None => None,
                Some(clean) => {
                    let r = checked_add(clean, accint);
                    proof {
                        if unit_cost_is_exact(price, facevalue, accint) {
                            lemma_percent_of_face_arith(price.val(), fraction.val(), facevalue.val(), clean.val(),
                                accint.val(), r->0.val(), pow10(28));
                        }
                    }
                    r
                },
            }
        },
    }
}

/// The arithmetic of a percent of the face value plus an amount.
proof fn lemma_percent_of_face_arith(pct: int, fraction: int, fv: int, clean: int, acc: int, u: int, big: int)
    requires
        big > 0,
        fraction * (100 * big) == pct * big,
        clean * big == fraction * fv,
        u == clean + acc,
    ensures
        u * (100 * big) == pct * fv + 100 * big * acc,
        clean * (100 * big) == pct * fv,
{
    assert(fraction * 100 == pct) by (nonlinear_arith)
        requires
            big > 0,
            fraction * (100 * big) == pct * big,
    ;
    assert(clean * (100 * big) == pct * fv) by (nonlinear_arith)
        requires
            fraction * 100 == pct,
            clean * big == fraction * fv,
    ;
    assert(u * (100 * big) == pct * fv + 100 * big * acc) by (nonlinear_arith)
        requires
            clean * (100 * big) == pct * fv,
            u == clean + acc,
    ;
}

impl TradeEvent {
    /// A copy of the event.
    pub fn copy(&self) -> (r: TradeEvent)
        ensures
            r == *self,
    {
        TradeEvent {
            date: self.date,
            isin: self.isin.clone(),
            quantity: self.quantity,
            price: self.price,
            accint: self.accint,
            total_amount: self.total_amount,
            side: self.side.clone(),
        }
    }
}

impl PaymentEvent {
    /// A copy of the event.
    pub fn copy(&self) -> (r: PaymentEvent)
        ensures
            r == *self,
    {
        PaymentEvent {
            date: self.date,
            isin: self.isin.clone(),
            quantity: self.quantity,
            amount_per_unit: self.amount_per_unit,
            total_amount: self.total_amount,
            payment_type: self.payment_type.clone(),
        }
    }
}

/// A trade as a value of the model.
pub struct TradeView {
    pub date: Date,
    pub isin: Seq<char>,
    pub quantity: i64,
    pub price: Dec,
    pub accint: Dec,
    pub total_amount: Dec,
    pub side: Seq<char>,
}

/// The model of a trade.
pub open spec fn trade_view(t: TradeEvent) -> TradeView {
    TradeView {
        date: t.date,
        isin: t.isin@,
        quantity: t.quantity,
        price: t.price,
        accint: t.accint,
        total_amount: t.total_amount,
        side: t.side@,
    }
}

/// The model of a trade history.
pub open spec fn trades_view(s: Seq<TradeEvent>) -> Seq<TradeView> {
    Seq::new(s.len(), |i: int| trade_view(s[i]))
}

/// A payment or write-off as a value of the model.
pub struct PaymentView {
    pub date: Date,
    pub isin: Seq<char>,
    pub quantity: i64,
    pub amount_per_unit: Dec,
    pub total_amount: Dec,
    pub payment_type: Seq<char>,
}

/// The model of a payment.
pub open spec fn payment_view(p: PaymentEvent) -> PaymentView {
    PaymentView {
        date: p.date,
        isin: p.isin@,
        quantity: p.quantity,
        amount_per_unit: p.amount_per_unit,
        total_amount: p.total_amount,
        payment_type: p.payment_type@,
    }
}

/// The model of a payment history.
pub open spec fn payments_view(s: Seq<PaymentEvent>) -> Seq<PaymentView> {
    Seq::new(s.len(), |i: int| payment_view(s[i]))
}

/// The payment per bond (`amount_percent / 100 * facevalue`) and in total
/// (times the quantity).
pub open spec fn payment_amounts_spec(amount_percent: Dec, facevalue: Dec, quantity: i64) -> Option<(Dec, Dec)> {
    match decimal_checked_div(amount_percent, spec_from_i64(100)) {
        None => None,
        Some(fraction) => match decimal_checked_mul(fraction, facevalue) {
            None => None,
            Some(per_unit) => match decimal_checked_mul(per_unit, spec_from_i64(quantity)) {
                None => None,
                Some(total) => Some((per_unit, total)),
            },
        },
    }
}

/// Whether no step of a payment rounds: the division of the percent by a
/// hundred, the product with the face value and the product with the
/// quantity.
pub open spec fn payment_is_exact(amount_percent: Dec, facevalue: Dec, quantity: i64) -> bool {
    let fraction = decimal_checked_div(amount_percent, spec_from_i64(100))->0;
    let per_unit = decimal_checked_mul(fraction, facevalue)->0;
    &&& exists|k: nat| #[trigger] quotient_fits_at(amount_percent, spec_from_i64(100), k)
    &&& exists|k: nat| #[trigger] product_fits_after(fraction, facevalue, k)
    &&& exists|k: nat| #[trigger] product_fits_after(per_unit, spec_from_i64(quantity), k)
}

/// The payment per bond and in total: where no step rounds, exactly
/// `amount_percent / 100 * facevalue` per bond and that times the quantity in
/// total.
pub fn payment_amounts(amount_percent: Dec, facevalue: Dec, quantity: i64) -> (r: Option<(Dec, Dec)>)
    ensures
        r == payment_amounts_spec(amount_percent, facevalue, quantity),
        payment_is_exact(amount_percent, facevalue, quantity) ==> (r matches Some((per_unit, total))
            && per_unit.val() * (100 * pow10(28)) == amount_percent.val() * facevalue.val()
            && total.val() == per_unit.val() * quantity),
{
    let hundred = from_i64(100);
    let q = from_i64(quantity);
    proof {
        lemma_from_i64_is_spec(hundred, 100);
        lemma_from_i64_is_spec(q, quantity);
        lemma_pow10_positive(28);
        if payment_is_exact(amount_percent, facevalue, quantity) {
            let k = choose|k: nat| #[trigger] quotient_fits_at(amount_percent, spec_from_i64(100), k);
            assert(quotient_fits_at(amount_percent, hundred, k));
        }
    }
    match checked_div(amount_percent, hundred) {
        None => None,
        Some(fraction) => {
            proof {
                if payment_is_exact(amount_percent, facevalue, quantity) {
                    let k = choose|k: nat| #[trigger] product_fits_after(fraction, facevalue, k);
                    assert(product_fits_after(fraction, facevalue, k));
                }
            }
            match checked_mul(fraction, facevalue) {
                None => None,
                Some(per_unit) => {
                    proof {
                        if payment_is_exact(amount_percent, facevalue, quantity) {
                            let k = choose|k: nat| #[trigger] product_fits_after(per_unit, spec_from_i64(quantity), k);
                            assert(product_fits_after(per_unit, q, k));
                            lemma_percent_of_face_arith(amount_percent.val(), fraction.val(), facevalue.val(),
                                per_unit.val(), 0, per_unit.val(), pow10(28));
                        }
                    }
                    match checked_mul(per_unit, q) {
                        None => None,
                        Some(total) => {
                            proof {
                                if payment_is_exact(amount_percent, facevalue, quantity) {
                                    let t = total.val();
                                    let pu = per_unit.val();
                                    let big = pow10(28);
                                    assert(t * big == pu * (quantity * big));
                                    assert(t == pu * quantity) by (nonlinear_arith)
                                        requires
                                            t * big == pu * (quantity * big),
                                            big > 0,
                                    ;
                                }
                            }
                            Some((per_unit, total))
                        },
                    }
                },
            }
        },
    }
}

/// What crediting a payment amounts to.
pub struct Credit {
    /// Bonds held.
    pub quantity: i64,
    /// Free cash afterwards.
    pub free_money: Dec,
    /// Amount per bond.
    pub per_unit: Dec,
    /// Amount in total.
    pub total: Dec,
}

/// The quantity held, the amounts and the new free cash of a payment, when
/// it is credited, given the free cash, the holdings and the face values.
pub open spec fn payment_credit_in(
    free_money: Dec,
    holdings: Seq<(Seq<char>, i64)>,
    facevalues: Seq<(Seq<char>, Dec)>,
    isin: Seq<char>,
    amount_percent: Dec,
) -> Option<Credit> {
    match lookup(holdings, isin) {
        None => None,
        Some(quantity) => if quantity == 0 {
            None
        } else {
            match lookup(facevalues, isin) {
                None => None,
                Some(facevalue) => match payment_amounts_spec(amount_percent, facevalue, quantity) {
                    None => None,
                    Some((per_unit, total)) => match decimal_checked_add(free_money, total) {
                        None => None,
                        Some(free) => Some(Credit { quantity, free_money: free, per_unit, total }),
                    },
                },
            }
        },
    }
}

/// A payment credited on the simulator.
pub open spec fn payment_credit(s: MarketSimulator, isin: Seq<char>, amount_percent: Dec) -> Option<Credit> {
    payment_credit_in(s.portfolio.free_money, s.holdings@, s.facevalues@, isin, amount_percent)
}

/// The new free cash of a redemption at face value, when it happens, given
/// the free cash, the holdings and the face values.
pub open spec fn redemption_credit_in(
    free_money: Dec,
    holdings: Seq<(Seq<char>, i64)>,
    facevalues: Seq<(Seq<char>, Dec)>,
    isin: Seq<char>,
) -> Option<Dec> {
    match lookup(holdings, isin) {
        None => None,
        Some(quantity) => if quantity == 0 {
            None
        } else {
            match lookup(facevalues, isin) {
                None => None,
                Some(facevalue) => match decimal_checked_mul(facevalue, spec_from_i64(quantity)) {
                    None => None,
                    Some(total) => decimal_checked_add(free_money, total),
                },
            }
        },
    }
}

/// A redemption on the simulator.
pub open spec fn redemption_credit(s: MarketSimulator, isin: Seq<char>) -> Option<Dec> {
    redemption_credit_in(s.portfolio.free_money, s.holdings@, s.facevalues@, isin)
}

/// The state of the account at the end of a day.
pub struct PortfolioSnapshot {
    pub date: Date,
    /// Free cash.
    pub cash: Dec,
    /// Bonds held, by ISIN.
    pub positions: IsinMap<i64>,
    /// Value of the bonds.
    pub portfolio_value: Dec,
    /// Cash plus bonds.
    pub total_value: Dec,
}

/// Today's candle of a bond, or else its latest one.
pub open spec fn valuation_entry_spec(s: MarketSimulator, isin: Seq<char>) -> Option<PriceEntry> {
    match lookup(s.price_cache@, (s.current_date, isin)) {
        Some(e) => Some(e),
        None => lookup(s.last_known_price@, isin),
    }
}

/// The value of the account over the given holdings, added in their order.
pub open spec fn portfolio_value_spec(s: MarketSimulator, holdings: Seq<(Seq<char>, i64)>) -> Option<Dec>
    decreases holdings.len(),
{
    if holdings.len() == 0 {
        Some(s.portfolio.free_money)
    } else {
        let (isin, quantity) = holdings.last();
        match portfolio_value_spec(s, holdings.drop_last()) {
            None => None,
            Some(acc) => if quantity <= 0 {
                Some(acc)
            } else {
                match valuation_entry_spec(s, isin) {
                    None => Some(acc),
                    Some(e) => match unit_cost_spec(e.close, e.facevalue, e.accint) {
                        None => None,
                        Some(unit) => match decimal_checked_mul(unit, spec_from_i64(quantity)) {
                            None => None,
                            Some(v) => decimal_checked_add(acc, v),
                        },
                    },
                }
            },
        }
    }
}

/// The value of the account over the given holdings as a number, times
/// `100 * 10^28` (values are in units of `10^-28`): the cash plus each
/// positive holding that has a candle at `close / 100 * facevalue + accint`
/// per bond.
pub open spec fn scaled_value(s: MarketSimulator, holdings: Seq<(Seq<char>, i64)>) -> int
    decreases holdings.len(),
{
    if holdings.len() == 0 {
        s.portfolio.free_money.val() * (100 * pow10(28))
    } else {
        let (isin, quantity) = holdings.last();
        let rest = scaled_value(s, holdings.drop_last());
        if quantity > 0 && valuation_entry_spec(s, isin) is Some {
            let e = valuation_entry_spec(s, isin)->0;
            rest + (e.close.val() * e.facevalue.val() + 100 * pow10(28) * e.accint.val()) * quantity
        } else {
            rest
        }
    }
}

/// Whether no step of valuing the account over the given holdings rounds:
/// the price of each bond, its product with the quantity and each addition.
pub open spec fn value_is_exact(s: MarketSimulator, holdings: Seq<(Seq<char>, i64)>) -> bool
    decreases holdings.len(),
{
    if holdings.len() == 0 {
        true
    } else {
        let (isin, quantity) = holdings.last();
        let acc = portfolio_value_spec(s, holdings.drop_last())->0;
        &&& value_is_exact(s, holdings.drop_last())
        &&& quantity > 0 && valuation_entry_spec(s, isin) is Some ==> {
            let e = valuation_entry_spec(s, isin)->0;
            let unit = unit_cost_spec(e.close, e.facevalue, e.accint)->0;
            &&& unit_cost_is_exact(e.close, e.facevalue, e.accint)
            &&& exists|k: nat| #[trigger] product_fits_after(unit, spec_from_i64(quantity), k)
            &&& sum_is_exact(acc, decimal_checked_mul(unit, spec_from_i64(quantity))->0, 1)
        }
    }
}

/// Exactness over the holdings holds over each prefix of them.
proof fn lemma_value_exact_prefix(s: MarketSimulator, holdings: Seq<(Seq<char>, i64)>, k: int)
    requires
        0 <= k <= holdings.len(),
        value_is_exact(s, holdings),
    ensures
        value_is_exact(s, holdings.take(k)),
    decreases holdings.len() - k,
{
    if k < holdings.len() {
        lemma_value_exact_prefix(s, holdings, k + 1);
        assert(holdings.take(k + 1).drop_last() =~= holdings.take(k));
    } else {
        assert(holdings.take(k) =~= holdings);
    }
}

/// The value of an account with the given cash and holdings, valued at the
/// candles of `date` or else the latest ones: the cash plus each positive
/// holding at `close / 100 * facevalue + accint` per bond, added in order;
/// `None` on decimal overflow.
pub open spec fn account_value(
    free: Dec,
    holdings: Seq<(Seq<char>, i64)>,
    pc: Seq<((Date, Seq<char>), PriceEntry)>,
    latest: Seq<(Seq<char>, PriceEntry)>,
    date: Date,
) -> Option<Dec>
    decreases holdings.len(),
{
    if holdings.len() == 0 {
        Some(free)
    } else {
        let (isin, quantity) = holdings.last();
        match account_value(free, holdings.drop_last(), pc, latest, date) {
            None => None,
            Some(acc) => if quantity <= 0 {
                Some(acc)
            } else {
                let entry = match lookup(pc, (date, isin)) {
                    Some(e) => Some(e),
                    None => lookup(latest, isin),
                };
                match entry {
                    None => Some(acc),
                    Some(e) => match unit_cost_spec(e.close, e.facevalue, e.accint) {
                        None => None,
                        Some(unit) => match decimal_checked_mul(unit, spec_from_i64(quantity)) {
                            None => None,
                            Some(v) => decimal_checked_add(acc, v),
                        },
                    },
                }
            },
        }
    }
}

/// The value of the simulator's account is the value of its cash and
/// holdings at its candles.
pub proof fn lemma_account_value(s: MarketSimulator, holdings: Seq<(Seq<char>, i64)>)
    ensures
        portfolio_value_spec(s, holdings) == account_value(
            s.portfolio.free_money,
            holdings,
            s.price_cache@,
            s.last_known_price@,
            s.current_date,
        ),
    decreases holdings.len(),
{
    if holdings.len() > 0 {
        lemma_account_value(s, holdings.drop_last());
    }
}

/// An account that holds no bond is worth its cash.
pub proof fn lemma_idle_account_value(
    free: Dec,
    holdings: Seq<(Seq<char>, i64)>,
    pc: Seq<((Date, Seq<char>), PriceEntry)>,
    latest: Seq<(Seq<char>, PriceEntry)>,
    date: Date,
)
    requires
        holds_nothing(holdings),
    ensures
        account_value(free, holdings, pc, latest, date) == Some(free),
    decreases holdings.len(),
{
    if holdings.len() > 0 {
        lemma_idle_account_value(free, holdings.drop_last(), pc, latest, date);
    }
}

/// Whether every position of some holdings is zero.
pub open spec fn holds_nothing(holdings: Seq<(Seq<char>, i64)>) -> bool {
    forall|i: int| 0 <= i < holdings.len() ==> #[trigger] holdings[i].1 == 0
}

/// A failed prefix makes the whole valuation fail.
pub proof fn lemma_value_none_stays(s: MarketSimulator, holdings: Seq<(Seq<char>, i64)>, k: int)
    requires
        0 <= k <= holdings.len(),
        portfolio_value_spec(s, holdings.take(k)) is None,
    ensures
        portfolio_value_spec(s, holdings) is None,
    decreases holdings.len() - k,
{
    if k < holdings.len() {
        assert(holdings.take(k + 1).drop_last() =~= holdings.take(k));
        lemma_value_none_stays(s, holdings, k + 1);
    } else {
        assert(holdings.take(k) =~= holdings);
    }
}

/// The simulated market and account.
pub struct MarketSimulator {
    /// The simulated day.
    pub current_date: Date,
    /// The investor's account.
    pub portfolio: Portfolio,
    /// Executed trades, oldest first.
    pub trades: Vec<TradeEvent>,
    /// Credited payments and write-offs, oldest first.
    pub payments: Vec<PaymentEvent>,
    /// Candles by day and ISIN.
    pub price_cache: KeyedMap<(Date, Isin), PriceEntry>,
    /// Bonds held, by ISIN.
    pub holdings: IsinMap<i64>,
    /// Face values, by ISIN (the first one seen is kept).
    pub facevalues: IsinMap<Dec>,
    /// Numbers of bonds issued, by ISIN.
    pub issue_volumes: IsinMap<i64>,
    /// The latest candle of each bond, for valuation on days without trading.
    pub last_known_price: IsinMap<PriceEntry>,
}

impl MarketSimulator {
    /// The holdings and the portfolio's bond counts are the same map.
    pub open spec fn wf(self) -> bool {
        self.holdings@ == self.portfolio.bonds_count@
    }

    /// A simulator holding only cash, on `start_date`.
    pub fn new(initial_capital: Dec, start_date: Date) -> (s: Self)
        ensures
            s.wf(),
            s.current_date == start_date,
            s.portfolio.free_money == initial_capital,
            s.holdings@.len() == 0,
            s.trades@.len() == 0,
            s.payments@.len() == 0,
            s.price_cache@.len() == 0,
            s.facevalues@.len() == 0,
            s.issue_volumes@.len() == 0,
            s.last_known_price@.len() == 0,
    {
        MarketSimulator {
            current_date: start_date,
            portfolio: Portfolio { free_money: initial_capital, bonds_count: KeyedMap::new() },
            trades: Vec::new(),
            payments: Vec::new(),
            price_cache: KeyedMap::new(),
            holdings: KeyedMap::new(),
            facevalues: KeyedMap::new(),
            issue_volumes: KeyedMap::new(),
            last_known_price: KeyedMap::new(),
        }
    }

    /// Moves to another day.
    pub fn set_date(&mut self, date: Date)
        ensures
            *final(self) == (MarketSimulator { current_date: date, ..*old(self) }),
    {
        self.current_date = date;
    }

    /// The execution price of a candle (`None` on decimal overflow).
    fn execution_price(e: PriceEntry, use_mid_price: bool) -> (r: Option<Dec>)
        ensures
            r == execution_price_spec(e, use_mid_price),
            !use_mid_price ==> r == Some(e.close),
            use_mid_price && sum_is_exact(e.low, e.high, 1)
                && (exists|k: nat| #[trigger] quotient_fits_at(decimal_checked_add(e.low, e.high)->0, spec_from_i64(2), k))
                ==> (r matches Some(p) && p.val() * 2 == e.low.val() + e.high.val()),
    {
        if use_mid_price {
            match checked_add(e.low, e.high) {
                None => None,
                Some(sum) => {
                    let two = from_i64(2);
                    proof {
                        lemma_from_i64_is_spec(two, 2);
                        lemma_pow10_positive(28);
                        if sum_is_exact(e.low, e.high, 1)
                            && (exists|k: nat| #[trigger] quotient_fits_at(sum, spec_from_i64(2), k)) {
                            let k = choose|k: nat| #[trigger] quotient_fits_at(sum, spec_from_i64(2), k);
                            assert(quotient_fits_at(sum, two, k));
                        }
                    }
                    let r = checked_div(sum, two);
                    proof {
                        if sum_is_exact(e.low, e.high, 1)
                            && (exists|k: nat| #[trigger] quotient_fits_at(sum, spec_from_i64(2), k)) {
                            let z = r->0.val();
                            let big = pow10(28);
                            assert(z * (2 * big) == sum.val() * big);
                            assert(z * 2 == sum.val()) by (nonlinear_arith)
                                requires
                                    z * (2 * big) == sum.val() * big,
                                    big > 0,
                            ;
                        }
                    }
                    r
                },
            }
        } else {
            Some(e.close)
        }
    }

    /// The amount of `count` bonds at the candle's price: where the price of
    /// one bond is computed without rounding, and so is its product with the
    /// count, exactly `count * (price / 100 * facevalue + accint)`.
    fn order_amount(e: PriceEntry, count: i64, use_mid_price: bool) -> (r: Option<(Dec, Dec)>)
        ensures
            r == order_amount_spec(e, count, use_mid_price),
            r matches Some((price, amount)) ==> (unit_cost_is_exact(price, e.facevalue, e.accint)
                && (exists|k: nat| #[trigger] product_fits_after(unit_cost_spec(price, e.facevalue, e.accint)->0,
                    spec_from_i64(count), k))
                ==> amount.val() * (100 * pow10(28)) == (price.val() * e.facevalue.val() + 100 * pow10(28)
                    * e.accint.val()) * count),
    {
        let price = match Self::execution_price(e, use_mid_price) {
            None => return None,
            Some(p) => p,
        };
        let unit = match unit_cost(price, e.facevalue, e.accint) {
            None => return None,
            Some(u) => u,
        };
        let c = from_i64(count);
        proof {
            lemma_from_i64_is_spec(c, count);
            lemma_pow10_positive(28);
            if unit_cost_is_exact(price, e.facevalue, e.accint)
                && (exists|k: nat| #[trigger] product_fits_after(unit, spec_from_i64(count), k)) {
                let k = choose|k: nat| #[trigger] product_fits_after(unit, spec_from_i64(count), k);
                assert(product_fits_after(unit, c, k));
            }
        }
        match checked_mul(unit, c) {
            None => None,
            Some(amount) => {
                proof {
                    if unit_cost_is_exact(price, e.facevalue, e.accint)
                        && (exists|k: nat| #[trigger] product_fits_after(unit, spec_from_i64(count), k)) {
                        let big = pow10(28);
                        let a = amount.val();
                        let u = unit.val();
                        let x = price.val() * e.facevalue.val() + 100 * big * e.accint.val();
                        assert(a * big == u * (count * big));
                        assert(u * (100 * big) == x);
                        assert(a * (100 * big) == x * count) by (nonlinear_arith)
                            requires
                                a * big == u * (count * big),
                                u * (100 * big) == x,
                                big > 0,
                        {
                            assert(a == u * count) by (nonlinear_arith)
                                requires
                                    a * big == u * (count * big),
                                    big > 0,
                            ;
                        }
                    }
                }
                Some((price, amount))
            },
        }
    }

    /// Executes a market order at the current day's candle: at the middle of
    /// the day's range when `use_mid_price`, else at the close.  Buys are
    /// limited by the day's volume, the issue volume and the free cash; sales
    /// by the bonds held.  A refused order changes nothing.
    pub fn execute_order(&mut self, order: MarketOrder, use_mid_price: bool) -> (r: Result<TradeEvent, OrderError>)
        requires
            old(self).wf(),
        ensures
            final(self).wf(),
            match order_outcome(*old(self), order, use_mid_price) {
                Err(e) => r == Err::<TradeEvent, OrderError>(e) && *final(self) == *old(self),
                Ok(fill) => {
                    &&& r is Ok
                    &&& r->Ok_0.date == old(self).current_date
                    &&& r->Ok_0.isin@ == order.isin@
                    &&& r->Ok_0.quantity == order.count
                    &&& r->Ok_0.price == fill.price
                    &&& r->Ok_0.accint == todays_entry(*old(self), order.isin@)->0.accint
                    &&& r->Ok_0.total_amount == fill.amount
                    &&& r->Ok_0.side@ == (if order.order_type == MarketOrderType::Buy { "buy"@ } else { "sell"@ })
                    &&& final(self).trades@ == old(self).trades@.push(r->Ok_0)
                    &&& final(self).portfolio.free_money == fill.free_money
                    &&& (order.order_type == MarketOrderType::Buy && crate::decimal::sum_is_exact(
                        old(self).portfolio.free_money,
                        fill.amount,
                        -1,
                    ) ==> fill.free_money.val() == old(self).portfolio.free_money.val() - fill.amount.val()
                        && fill.free_money.val() >= 0)
                    &&& (order.order_type == MarketOrderType::Sell && crate::decimal::sum_is_exact(
                        old(self).portfolio.free_money,
                        fill.amount,
                        1,
                    ) ==> fill.free_money.val() == old(self).portfolio.free_money.val() + fill.amount.val())
                    &&& final(self).holdings@ == store(old(self).holdings@, order.isin@, fill.holding)
                    &&& final(self).current_date == old(self).current_date
                    &&& final(self).payments == old(self).payments
                    &&& final(self).price_cache == old(self).price_cache
                    &&& final(self).facevalues == old(self).facevalues
                    &&& final(self).issue_volumes == old(self).issue_volumes
                    &&& final(self).last_known_price == old(self).last_known_price
                },
            },
    {
        let key = (self.current_date, order.isin.clone());
        let e = match self.price_cache.get(&key) {
            None => return Err(OrderError::NoPrice),
            Some(e) => e,
        };
        if is_zero(e.volume) {
            return Err(OrderError::NoTrading);
        }
        let buy = order.order_type == MarketOrderType::Buy;
        if buy {
            let day_volume = saturating_to_i64(e.volume);
            if day_volume > 0 && order.count > day_volume {
                return Err(OrderError::DayVolumeExceeded { requested: order.count, available: day_volume });
            }
            if let Some(issue_vol) = self.issue_volumes.get(&order.isin) {
                if issue_vol > 0 && order.count > issue_vol {
                    return Err(OrderError::IssueVolumeExceeded { requested: order.count, issued: issue_vol });
                }
            }
        }
        let (price, amount) = match Self::order_amount(e, order.count, use_mid_price) {
            None => return Err(OrderError::Overflow),
            Some(pa) => pa,
        };
        let held: i64 = match self.holdings.get(&order.isin) {
            Some(h) => h,
            None => 0,
        };
        let free: Dec;
        let holding: i64;
        if buy {
            if lt(self.portfolio.free_money, amount) {
                return Err(OrderError::InsufficientFunds);
            }
            free = match checked_sub(self.portfolio.free_money, amount) {
                None => return Err(OrderError::Overflow),
                Some(f) => f,
            };
            holding = match held.checked_add(order.count) {
                None => return Err(OrderError::Overflow),
                Some(h) => h,
            };
        } else {
            if held < order.count {
                return Err(OrderError::InsufficientBonds { requested: order.count, held });
            }
            free = match checked_add(self.portfolio.free_money, amount) {
                None => return Err(OrderError::Overflow),
                Some(f) => f,
            };
            holding = match held.checked_sub(order.count) {
                None => return Err(OrderError::Overflow),
                Some(h) => h,
            };
        }
        self.portfolio.free_money = free;
        self.holdings.insert(order.isin.clone(), holding);
        self.portfolio.bonds_count.insert(order.isin.clone(), holding);
        let side = if buy {
            String::from_str("buy")
        } else {
            String::from_str("sell")
        };
        let event = TradeEvent {
            date: self.current_date,
            isin: order.isin,
            quantity: order.count,
            price,
            accint: e.accint,
            total_amount: amount,
            side,
        };
        let copy = event.copy();
        self.trades.push(event);
        Ok(copy)
    }

    /// Caches the current day's candle of a bond, remembers it as the latest
    /// one, and keeps the first face value seen.
    pub fn cache_prices(
        &mut self,
        isin: String,
        open: Dec,
        close: Dec,
        low: Dec,
        high: Dec,
        volume: Dec,
        facevalue: Dec,
        accint: Dec,
    )
        requires
            old(self).wf(),
        ensures
            final(self).wf(),
            ({
                let e = PriceEntry { open, close, low, high, volume, facevalue, accint };
                &&& final(self).price_cache@ == store(old(self).price_cache@, (old(self).current_date, isin@), e)
                &&& final(self).last_known_price@ == store(old(self).last_known_price@, isin@, e)
                &&& final(self).facevalues@ == (if lookup(old(self).facevalues@, isin@) is Some {
                    old(self).facevalues@
                } else {
                    store(old(self).facevalues@, isin@, facevalue)
                })
            }),
            final(self).current_date == old(self).current_date,
            final(self).portfolio == old(self).portfolio,
            final(self).holdings == old(self).holdings,
            final(self).trades == old(self).trades,
            final(self).payments == old(self).payments,
            final(self).issue_volumes == old(self).issue_volumes,
    {
        let entry = PriceEntry { open, close, low, high, volume, facevalue, accint };
        self.price_cache.insert((self.current_date, isin.clone()), entry);
        self.last_known_price.insert(isin.clone(), entry);
        if !self.facevalues.contains_key(&isin) {
            proof {
                crate::keyed_map::lemma_lookup_none(self.facevalues@, isin@);
            }
            self.facevalues.insert(isin, facevalue);
        }
    }

    /// Credits a payment of `amount_percent` percent of the face value per
    /// bond held: `None` (and nothing changes) when the bond is not held, its
    /// face value is unknown, or the amount overflows.
    pub fn process_payment(&mut self, isin: String, amount_percent: Dec, payment_type: String) -> (r: Option<PaymentEvent>)
        requires
            old(self).wf(),
        ensures
            final(self).wf(),
            r is Some <==> payment_credit(*old(self), isin@, amount_percent) is Some,
            r is None ==> *final(self) == *old(self),
            r is Some ==> {
                let c = payment_credit(*old(self), isin@, amount_percent)->0;
                &&& r->0.date == old(self).current_date
                &&& r->0.isin@ == isin@
                &&& r->0.quantity == c.quantity
                &&& r->0.amount_per_unit == c.per_unit
                &&& r->0.total_amount == c.total
                &&& r->0.payment_type@ == payment_type@
                &&& r->0.quantity == lookup(old(self).holdings@, isin@)->0
                &&& (payment_is_exact(amount_percent, lookup(old(self).facevalues@, isin@)->0, c.quantity)
                    ==> r->0.amount_per_unit.val() * (100 * pow10(28)) == amount_percent.val()
                        * lookup(old(self).facevalues@, isin@)->0.val()
                    && r->0.total_amount.val() == r->0.amount_per_unit.val() * c.quantity)
                &&& (sum_is_exact(old(self).portfolio.free_money, r->0.total_amount, 1)
                    ==> final(self).portfolio.free_money.val() == old(self).portfolio.free_money.val() + r->0.total_amount.val())
                &&& final(self).portfolio.free_money == c.free_money
                &&& final(self).payments@ == old(self).payments@.push(r->0)
                &&& final(self).portfolio.bonds_count == old(self).portfolio.bonds_count
                &&& final(self).holdings == old(self).holdings
                &&& final(self).trades == old(self).trades
                &&& final(self).current_date == old(self).current_date
                &&& final(self).price_cache == old(self).price_cache
                &&& final(self).facevalues == old(self).facevalues
                &&& final(self).issue_volumes == old(self).issue_volumes
                &&& final(self).last_known_price == old(self).last_known_price
            },
    {
        let quantity = match self.holdings.get(&isin) {
            None => return None,
            Some(q) => q,
        };
        if quantity == 0 {
            return None;
        }
        let facevalue = match self.facevalues.get(&isin) {
            None => return None,
            Some(f) => f,
        };
        let (amount_per_unit, total_amount) = match payment_amounts(amount_percent, facevalue, quantity) {
            None => return None,
            Some(a) => a,
        };
        let free = match checked_add(self.portfolio.free_money, total_amount) {
            None => return None,
            Some(f) => f,
        };
        self.portfolio.free_money = free;
        let event = PaymentEvent {
            date: self.current_date,
            isin,
            quantity,
            amount_per_unit,
            total_amount,
            payment_type,
        };
        let copy = event.copy();
        self.payments.push(event);
        Some(copy)
    }

    /// Redeems a bond at its face value on its offer date: credits
    /// `facevalue * quantity` and sets the position to zero.  `None` (and
    /// nothing changes) when the bond is not held, its face value is unknown,
    /// or the amount overflows.
    pub fn force_redeem_bond(&mut self, isin: &String) -> (r: Option<PaymentEvent>)
        requires
            old(self).wf(),
        ensures
            final(self).wf(),
            r is Some <==> redemption_credit(*old(self), isin@) is Some,
            r is None ==> *final(self) == *old(self),
            r is Some ==> {
                let quantity = lookup(old(self).holdings@, isin@)->0;
                let facevalue = lookup(old(self).facevalues@, isin@)->0;
                &&& r->0.date == old(self).current_date
                &&& r->0.isin@ == isin@
                &&& r->0.quantity == quantity
                &&& r->0.amount_per_unit == facevalue
                &&& Some(r->0.total_amount) == decimal_checked_mul(facevalue, spec_from_i64(quantity))
                &&& ((exists|k: nat| #[trigger] product_fits_after(facevalue, spec_from_i64(quantity), k))
                    ==> r->0.total_amount.val() == facevalue.val() * quantity)
                &&& (sum_is_exact(old(self).portfolio.free_money, r->0.total_amount, 1)
                    ==> final(self).portfolio.free_money.val() == old(self).portfolio.free_money.val() + r->0.total_amount.val())
                &&& r->0.payment_type@ == "offer_redemption"@
                &&& final(self).portfolio.free_money == redemption_credit(*old(self), isin@)->0
                &&& final(self).holdings@ == store(old(self).holdings@, isin@, 0)
                &&& final(self).payments@ == old(self).payments@.push(r->0)
                &&& final(self).trades == old(self).trades
                &&& final(self).current_date == old(self).current_date
                &&& final(self).price_cache == old(self).price_cache
                &&& final(self).facevalues == old(self).facevalues
                &&& final(self).issue_volumes == old(self).issue_volumes
                &&& final(self).last_known_price == old(self).last_known_price
            },
    {
        let quantity = match self.holdings.get(isin) {
            None => return None,
            Some(q) => q,
        };
        if quantity == 0 {
            return None;
        }
        let facevalue = match self.facevalues.get(isin) {
            None => return None,
            Some(f) => f,
        };
        let q = from_i64(quantity);
        proof {
            lemma_from_i64_is_spec(q, quantity);
        }
        proof {
            lemma_pow10_positive(28);
            if exists|k: nat| #[trigger] product_fits_after(facevalue, spec_from_i64(quantity), k) {
                let k = choose|k: nat| #[trigger] product_fits_after(facevalue, spec_from_i64(quantity), k);
                assert(product_fits_after(facevalue, q, k));
            }
        }
        let total_amount = match checked_mul(facevalue, q) {
            None => return None,
            Some(t) => t,
        };
        proof {
            if exists|k: nat| #[trigger] product_fits_after(facevalue, spec_from_i64(quantity), k) {
                let big = pow10(28);
                let t = total_amount.val();
                assert(t * big == facevalue.val() * (quantity * big));
                assert(t == facevalue.val() * quantity) by (nonlinear_arith)
                    requires
                        t * big == facevalue.val() * (quantity * big),
                        big > 0,
                ;
            }
        }
        let free = match checked_add(self.portfolio.free_money, total_amount) {
            None => return None,
            Some(f) => f,
        };
        self.portfolio.free_money = free;
        self.holdings.insert(isin.clone(), 0);
        self.portfolio.bonds_count.insert(isin.clone(), 0);
        let event = PaymentEvent {
            date: self.current_date,
            isin: isin.clone(),
            quantity,
            amount_per_unit: facevalue,
            total_amount,
            payment_type: String::from_str("offer_redemption"),
        };
        let copy = event.copy();
        self.payments.push(event);
        Some(copy)
    }

    /// Writes a defaulted bond off: the position becomes zero and no cash is
    /// credited.  `None` (and nothing changes) when the bond is not held.
    pub fn write_off_bond(&mut self, isin: &String) -> (r: Option<PaymentEvent>)
        requires
            old(self).wf(),
        ensures
            final(self).wf(),
            r is Some <==> (lookup(old(self).holdings@, isin@) is Some && lookup(old(self).holdings@, isin@)->0 != 0),
            r is None ==> *final(self) == *old(self),
            r is Some ==> {
                &&& r->0.date == old(self).current_date
                &&& r->0.isin@ == isin@
                &&& r->0.quantity == lookup(old(self).holdings@, isin@)->0
                &&& r->0.amount_per_unit == spec_from_i64(0)
                &&& r->0.total_amount == spec_from_i64(0)
                &&& r->0.payment_type@ == "default_write_off"@
                &&& final(self).portfolio.free_money == old(self).portfolio.free_money
                &&& final(self).holdings@ == store(old(self).holdings@, isin@, 0)
                &&& final(self).payments@ == old(self).payments@.push(r->0)
                &&& final(self).trades == old(self).trades
                &&& final(self).current_date == old(self).current_date
                &&& final(self).price_cache == old(self).price_cache
                &&& final(self).facevalues == old(self).facevalues
                &&& final(self).issue_volumes == old(self).issue_volumes
                &&& final(self).last_known_price == old(self).last_known_price
            },
    {
        let quantity = match self.holdings.get(isin) {
            None => return None,
            Some(q) => q,
        };
        if quantity == 0 {
            return None;
        }
        self.holdings.insert(isin.clone(), 0);
        self.portfolio.bonds_count.insert(isin.clone(), 0);
        let none = from_i64(0);
        proof {
            lemma_from_i64_is_spec(none, 0);
        }
        let event = PaymentEvent {
            date: self.current_date,
            isin: isin.clone(),
            quantity,
            amount_per_unit: none,
            total_amount: none,
            payment_type: String::from_str("default_write_off"),
        };
        let copy = event.copy();
        self.payments.push(event);
        Some(copy)
    }

    /// The candle a holding is valued at: today's, or else the latest one.
    pub fn valuation_entry(&self, isin: &String) -> (r: Option<PriceEntry>)
        ensures
            r == valuation_entry_spec(*self, isin@),
    {
        match self.price_cache.get(&(self.current_date, isin.clone())) {
            Some(e) => Some(e),
            None => self.last_known_price.get(isin),
        }
    }

    /// The value of the account: free cash plus every positive holding at the
    /// close of its valuation candle (`close / 100 * facevalue + accint` per
    /// bond); `None` on decimal overflow.
    pub fn get_portfolio_value(&self) -> (r: Option<Dec>)
        ensures
            r == portfolio_value_spec(*self, self.holdings@),
            value_is_exact(*self, self.holdings@) ==> (r matches Some(t)
                && t.val() * (100 * pow10(28)) == scaled_value(*self, self.holdings@)),
    {
        let n = self.holdings.len();
        let mut total = self.portfolio.free_money;
        let mut i: usize = 0;
        proof {
            lemma_pow10_positive(28);
        }
        while i < n
            invariant
                n == self.holdings@.len(),
                i <= n,
                portfolio_value_spec(*self, self.holdings@.take(i as int)) == Some(total),
                value_is_exact(*self, self.holdings@.take(i as int))
                    ==> total.val() * (100 * pow10(28)) == scaled_value(*self, self.holdings@.take(i as int)),
                pow10(28) > 0,
            decreases n - i,
        {
            let quantity = self.holdings.value_at(i);
            let ghost pre = self.holdings@.take(i as int);
            assert(self.holdings@.take(i + 1).drop_last() =~= pre);
            assert(self.holdings@.take(i + 1).last() == self.holdings@[i as int]);
            proof {
                if value_is_exact(*self, self.holdings@) {
                    lemma_value_exact_prefix(*self, self.holdings@, i + 1);
                }
            }
            if quantity > 0 {
                match self.valuation_entry(self.holdings.key_at(i)) {
                    None => {},
                    Some(e) => {
                        let q = from_i64(quantity);
                        proof {
                            lemma_from_i64_is_spec(q, quantity);
                        }
                        let step = match unit_cost(e.close, e.facevalue, e.accint) {
                            None => None,
                            Some(unit) => {
                                proof {
                                    if value_is_exact(*self, self.holdings@.take(i + 1)) {
                                        let k = choose|k: nat| #[trigger] product_fits_after(unit, spec_from_i64(quantity), k);
                                        assert(product_fits_after(unit, q, k));
                                    }
                                }
                                match checked_mul(unit, q) {
                                    None => None,
                                    Some(v) => {
                                        let t = checked_add(total, v);
                                        proof {
                                            if value_is_exact(*self, self.holdings@.take(i + 1)) {
                                                let big = pow10(28);
                                                let x = e.close.val() * e.facevalue.val() + 100 * big * e.accint.val();
                                                assert(v.val() * big == unit.val() * (quantity * big));
                                                assert(unit.val() * (100 * big) == x);
                                                assert(v.val() * (100 * big) == x * quantity) by (nonlinear_arith)
                                                    requires
                                                        v.val() * big == unit.val() * (quantity * big),
                                                        unit.val() * (100 * big) == x,
                                                        big > 0,
                                                {
                                                    assert(v.val() == unit.val() * quantity) by (nonlinear_arith)
                                                        requires
                                                            v.val() * big == unit.val() * (quantity * big),
                                                            big > 0,
                                                    ;
                                                }
                                                assert(t->0.val() == total.val() + v.val());
                                                assert(t->0.val() * (100 * big) == total.val() * (100 * big) + v.val() * (100 * big))
                                                    by (nonlinear_arith)
                                                    requires
                                                        t->0.val() == total.val() + v.val(),
                                                ;
                                            }
                                        }
                                        t
                                    },
                                }
                            },
                        };
                        match step {
                            None => {
                                proof {
                                    lemma_value_none_stays(*self, self.holdings@, i as int + 1);
                                }
                                return None;
                            },
                            Some(t) => {
                                total = t;
                            },
                        }
                    },
                }
            }
            i = i + 1;
        }
        assert(self.holdings@.take(n as int) =~= self.holdings@);
        Some(total)
    }

    /// A snapshot of the account: the cash, the positions, the value of the
    /// bonds (total minus cash) and the total value; `None` on decimal
    /// overflow.
    pub fn get_portfolio_snapshot(&self) -> (r: Option<PortfolioSnapshot>)
        ensures
            r is Some <==> (portfolio_value_spec(*self, self.holdings@) is Some
                && decimal_checked_sub(portfolio_value_spec(*self, self.holdings@)->0, self.portfolio.free_money) is Some),
            r is Some ==> {
                let total = portfolio_value_spec(*self, self.holdings@)->0;
                &&& r->0.date == self.current_date
                &&& r->0.cash == self.portfolio.free_money
                &&& r->0.positions@ == self.holdings@
                &&& r->0.total_value == total
                &&& Some(r->0.portfolio_value) == decimal_checked_sub(total, self.portfolio.free_money)
            },
    {
        let total = match self.get_portfolio_value() {
            None => return None,
            Some(t) => t,
        };
        let bonds_value = match checked_sub(total, self.portfolio.free_money) {
            None => return None,
            Some(b) => b,
        };
        Some(PortfolioSnapshot {
            date: self.current_date,
            cash: self.portfolio.free_money,
            positions: self.holdings.copy(),
            portfolio_value: bonds_value,
            total_value: total,
        })
    }
}

/// A purchase is executed only when the free cash covers its amount.
pub proof fn law_buy_is_covered_by_cash(
    entry: Option<PriceEntry>,
    issue_volume: Option<i64>,
    held: i64,
    free_money: Dec,
    count: i64,
    use_mid_price: bool,
)
    requires
        outcome_of(entry, issue_volume, held, free_money, true, count, use_mid_price) is Ok,
    ensures
        ({
            let fill = outcome_of(entry, issue_volume, held, free_money, true, count, use_mid_price)->Ok_0;
            &&& free_money.val() >= fill.amount.val()
            &&& fill.holding == held + count
        }),
{
}

/// A sale is executed only for bonds held: the position drops by the count
/// and stays at or above zero.
pub proof fn law_sale_within_holdings(
    entry: Option<PriceEntry>,
    issue_volume: Option<i64>,
    held: i64,
    free_money: Dec,
    count: i64,
    use_mid_price: bool,
)
    requires
        outcome_of(entry, issue_volume, held, free_money, false, count, use_mid_price) is Ok,
    ensures
        held >= count,
        outcome_of(entry, issue_volume, held, free_money, false, count, use_mid_price)->Ok_0.holding == held - count,
        outcome_of(entry, issue_volume, held, free_money, false, count, use_mid_price)->Ok_0.holding >= 0,
{
}

/// Orders of a non-negative number of bonds never make a non-negative
/// position negative.
pub proof fn law_positions_stay_non_negative(
    entry: Option<PriceEntry>,
    issue_volume: Option<i64>,
    held: i64,
    free_money: Dec,
    buy: bool,
    count: i64,
    use_mid_price: bool,
)
    requires
        held >= 0,
        count >= 0,
        outcome_of(entry, issue_volume, held, free_money, buy, count, use_mid_price) is Ok,
    ensures
        outcome_of(entry, issue_volume, held, free_money, buy, count, use_mid_price)->Ok_0.holding >= 0,
{
}

/// Nothing is bought or sold without a candle showing trading that day.
pub proof fn law_no_trade_without_trading(
    entry: Option<PriceEntry>,
    issue_volume: Option<i64>,
    held: i64,
    free_money: Dec,
    buy: bool,
    count: i64,
    use_mid_price: bool,
)
    requires
        entry is None || entry->0.volume.val() == 0,
    ensures
        outcome_of(entry, issue_volume, held, free_money, buy, count, use_mid_price) is Err,
{
}

/// A purchase never exceeds the day's traded volume when that volume is
/// positive, nor the issue volume when it is known and positive.
pub proof fn law_buy_within_volumes(
    entry: Option<PriceEntry>,
    issue_volume: Option<i64>,
    held: i64,
    free_money: Dec,
    count: i64,
    use_mid_price: bool,
)
    requires
        outcome_of(entry, issue_volume, held, free_money, true, count, use_mid_price) is Ok,
    ensures
        saturating_int(entry->0.volume) > 0 ==> count <= saturating_int(entry->0.volume),
        issue_volume is Some && issue_volume->0 > 0 ==> count <= issue_volume->0,
{
}

} // verus!
