//! The description of a bond the API shows: the broker's instrument facts
//! and its next coupon, as text.
use crate::decimal::{decimal_text, decimal_to_string};
use crate::quotation::{money_value_to_decimal, MoneyValue};
use crate::text::{coupon_type_name, coupon_type_name_spec, none_if_empty, none_if_empty_spec};
use crate::valuation::money_dec;
use vstd::prelude::*;

verus! {

/// The broker's facts about a bond.
pub struct BondInstrument {
    pub name: String,
    pub ticker: String,
    pub isin: String,
    pub currency: String,
    pub nominal: Option<MoneyValue>,
    pub aci_value: Option<MoneyValue>,
    pub coupon_quantity_per_year: i32,
    /// Maturity, in seconds since 1970-01-01 UTC.
    pub maturity_date: Option<i64>,
    pub country_of_risk_name: String,
    pub sector: String,
    pub exchange: String,
    pub floating_coupon_flag: bool,
    pub amortization_flag: bool,
    pub perpetual_flag: bool,
    pub buy_available_flag: bool,
    pub sell_available_flag: bool,
}

/// The broker's next coupon of a bond.
pub struct CouponEvent {
    pub coupon_type: i32,
    pub pay_one_bond: Option<MoneyValue>,
    /// Payment day, in seconds since 1970-01-01 UTC.
    pub coupon_date: Option<i64>,
}

/// A bond as the API describes it.
pub struct BondInfo {
    pub name: String,
    pub ticker: String,
    pub isin: String,
    pub currency: Option<String>,
    pub nominal: Option<String>,
    pub aci_value: Option<String>,
    pub coupon_quantity_per_year: Option<i32>,
    pub maturity_date: Option<String>,
    pub country_of_risk_name: Option<String>,
    pub sector: Option<String>,
    pub exchange: Option<String>,
    pub coupon_type: Option<String>,
    pub coupon_amount: Option<String>,
    pub next_coupon_date: Option<String>,
    pub floating_coupon: bool,
    pub amortization: bool,
    pub perpetual: bool,
    pub buy_available: bool,
    pub sell_available: bool,
}

/// What `str::to_uppercase` returns.
pub uninterp spec fn upper_text(s: Seq<char>) -> Seq<char>;

/// `str::to_uppercase`: the text in upper case.
#[verifier::external_body]
fn to_uppercase(s: &str) -> (r: String)
    ensures
        r@ == upper_text(s@),
{
    s.to_uppercase()
}

/// What `DateTime::from_timestamp(secs, 0)` (the epoch when out of range)
/// formatted as `%d.%m.%Y` writes.
pub uninterp spec fn day_text(secs: i64) -> Seq<char>;

/// The day of a moment as `DD.MM.YYYY` (`chrono`).
#[verifier::external_body]
fn format_day(secs: i64) -> (r: String)
    ensures
        r@ == day_text(secs),
{
    chrono::DateTime::from_timestamp(secs, 0).unwrap_or_default().format("%d.%m.%Y").to_string()
}

/// An optional string by its view.
pub open spec fn opt_text(o: Option<String>) -> Option<Seq<char>> {
    match o {
        Some(s) => Some(s@),
        None => None,
    }
}

/// The text of an optional money value.
pub open spec fn money_text(m: Option<MoneyValue>) -> Option<Seq<char>> {
    match m {
        Some(v) => Some(decimal_text(money_dec(v))),
        None => None,
    }
}

/// The text of an optional moment's day.
pub open spec fn day_opt_text(secs: Option<i64>) -> Option<Seq<char>> {
    match secs {
        Some(s) => Some(day_text(s)),
        None => None,
    }
}

/// The text of an optional money value.
fn money_string(m: &Option<MoneyValue>) -> (r: Option<String>)
    ensures
        opt_text(r) == money_text(*m),
{
    match m {
        Some(v) => {
            let d = money_value_to_decimal(v);
            proof {
                crate::decimal::lemma_dec_ext(d, money_dec(*v));
            }
            Some(decimal_to_string(d))
        },
        None => None,
    }
}

/// The text of an optional moment's day.
fn day_string(secs: Option<i64>) -> (r: Option<String>)
    ensures
        opt_text(r) == day_opt_text(secs),
{
    match secs {
        Some(s) => Some(format_day(s)),
        None => None,
    }
}

/// The amount of a coupon: the decimal and the currency in upper case.
pub open spec fn coupon_amount_text(m: Option<MoneyValue>) -> Option<Seq<char>> {
    match m {
        Some(v) => Some(decimal_text(money_dec(v)) + " "@ + upper_text(v.currency@)),
        None => None,
    }
}

/// Whether `r` describes the bond `b` with its next coupon `c`.
pub open spec fn describes(r: BondInfo, b: BondInstrument, c: Option<CouponEvent>) -> bool {
    &&& r.name == b.name
    &&& r.ticker == b.ticker
    &&& r.isin == b.isin
    &&& opt_text(r.currency) == (match none_if_empty_spec(b.currency@) {
        Some(t) => Some(upper_text(t)),
        None => None,
    })
    &&& opt_text(r.nominal) == money_text(b.nominal)
    &&& opt_text(r.aci_value) == money_text(b.aci_value)
    &&& r.coupon_quantity_per_year == (if b.coupon_quantity_per_year > 0 {
        Some(b.coupon_quantity_per_year)
    } else {
        None
    })
    &&& opt_text(r.maturity_date) == day_opt_text(b.maturity_date)
    &&& opt_text(r.country_of_risk_name) == none_if_empty_spec(b.country_of_risk_name@)
    &&& opt_text(r.sector) == none_if_empty_spec(b.sector@)
    &&& opt_text(r.exchange) == none_if_empty_spec(b.exchange@)
    &&& opt_text(r.coupon_type) == (match c {
        Some(e) => coupon_type_name_spec(e.coupon_type),
        None => None,
    })
    &&& opt_text(r.coupon_amount) == (match c {
        Some(e) => coupon_amount_text(e.pay_one_bond),
        None => None,
    })
    &&& opt_text(r.next_coupon_date) == (match c {
        Some(e) => day_opt_text(e.coupon_date),
        None => None,
    })
    &&& r.floating_coupon == b.floating_coupon_flag
    &&& r.amortization == b.amortization_flag
    &&& r.perpetual == b.perpetual_flag
    &&& r.buy_available == b.buy_available_flag
    &&& r.sell_available == b.sell_available_flag
}

/// The description of a bond from the broker's facts and its next coupon
/// (`None` when the broker lists no coupon or cannot be asked).
pub fn bond_info(b: BondInstrument, next_coupon: Option<CouponEvent>) -> (r: BondInfo)
    ensures
        describes(r, b, next_coupon),
{
    let currency = match none_if_empty(b.currency.as_str()) {
        Some(c) => Some(to_uppercase(c.as_str())),
        None => None,
    };
    let (coupon_type, coupon_amount, next_coupon_date) = match &next_coupon {
        Some(e) => {
            let ct = match coupon_type_name(e.coupon_type) {
                Some(n) => Some(String::from_str(n)),
                None => None,
            };
            let amount = match &e.pay_one_bond {
                Some(m) => {
                    let d = money_value_to_decimal(m);
                    proof {
                        crate::decimal::lemma_dec_ext(d, money_dec(*m));
                    }
                    let mut s = decimal_to_string(d);
                    s.append(" ");
                    let upper = to_uppercase(m.currency.as_str());
                    s.append(upper.as_str());
                    Some(s)
                },
                None => None,
            };
            (ct, amount, day_string(e.coupon_date))
        },
        None => (None, None, None),
    };
    let cqpy = if b.coupon_quantity_per_year > 0 {
        Some(b.coupon_quantity_per_year)
    } else {
        None
    };
    BondInfo {
        nominal: money_string(&b.nominal),
        aci_value: money_string(&b.aci_value),
        maturity_date: day_string(b.maturity_date),
        country_of_risk_name: none_if_empty(b.country_of_risk_name.as_str()),
        sector: none_if_empty(b.sector.as_str()),
        exchange: none_if_empty(b.exchange.as_str()),
        currency,
        coupon_quantity_per_year: cqpy,
        coupon_type,
        coupon_amount,
        next_coupon_date,
        floating_coupon: b.floating_coupon_flag,
        amortization: b.amortization_flag,
        perpetual: b.perpetual_flag,
        buy_available: b.buy_available_flag,
        sell_available: b.sell_available_flag,
        name: b.name,
        ticker: b.ticker,
        isin: b.isin,
    }
}

/// The window of coupons asked for: from now to two years (730 days) ahead,
/// in seconds.
pub fn coupon_window(now_secs: i64) -> (r: (i64, i64))
    requires
        now_secs + 730 * 86400 <= i64::MAX,
    ensures
        r.0 == now_secs,
        r.1 == now_secs + 730 * 86400,
{
    (now_secs, now_secs + 730 * 86400)
}

} // verus!
