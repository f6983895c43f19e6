//! The data that strategies and the simulator share: portfolios, bonds,
//! payments and market orders.
use crate::decimal::{
    checked_add, checked_mul, decimal_checked_add, decimal_checked_mul, from_i64, is_int, lemma_dec_ext, lemma_pow10_positive,
    pow10, product_fits_after, sum_is_exact, Dec,
};
use crate::keyed_map::{lookup, IsinMap};
use vstd::prelude::*;

verus! {

/// A security identifier (ISIN or ticker).
pub type Isin = String;

/// A calendar day, counted in days from 0001-01-01 (day 1).
pub type Date = i32;

/// The state of an investor's account.
pub struct Portfolio {
    /// Free cash.
    pub free_money: Dec,
    /// Number of bonds held, per ISIN.
    pub bonds_count: IsinMap<i64>,
}

/// A portfolio as a value of the model: its cash and its positions.
pub struct PortfolioView {
    pub free_money: Dec,
    pub bonds_count: Seq<(Seq<char>, i64)>,
}

/// The model of a portfolio.
pub open spec fn portfolio_view(p: Portfolio) -> PortfolioView {
    PortfolioView { free_money: p.free_money, bonds_count: p.bonds_count@ }
}

/// The kind of a bond payment.
#[derive(Clone, Copy, Debug, PartialEq, Eq, Structural)]
pub enum PaymentType {
    /// A coupon.
    Coupon,
    /// A partial repayment of the face value.
    Amortization,
    /// The final repayment of the face value.
    Redemption,
}

/// One scheduled payment of a bond.
#[derive(Clone, Copy, Debug)]
pub struct PaymentInfo {
    /// Payment day.
    pub date: Date,
    /// Amount per bond.
    pub amount: Dec,
    /// Kind of payment.
    pub payment_type: PaymentType,
}

/// General facts about a bond.
#[derive(Clone, Debug)]
pub struct BondCommonInfo {
    pub isin: String,
    /// Currency identifier (non-rouble bonds are filtered out on it).
    pub currency_id: Option<i64>,
    pub title: Option<String>,
    pub is_subordinated: Option<bool>,
    /// Number of bonds issued.
    pub issue_volume: Option<i64>,
    pub placement_date: Option<Date>,
    pub maturity_date: Option<Date>,
    pub facevalue: Option<Dec>,
    pub start_facevalue: Option<Dec>,
    /// Trading board.
    pub board: Option<String>,
    pub is_for_qualified_investors: Option<bool>,
    pub is_traded: bool,
    /// Offer (put) date, treated as an early maturity.
    pub offer_date: Option<Date>,
    /// Day of a known default.
    pub default_date: Option<Date>,
    /// Current coupon size in roubles.
    pub coupon_size: Option<Dec>,
    /// Coupon period in days.
    pub coupon_period: Option<i16>,
    /// Current accrued coupon interest in roubles.
    pub coupon_aci: Option<Dec>,
}

/// Everything that does not change about a bond: its facts and its payments.
#[derive(Clone, Debug)]
pub struct BondPersistentInfo {
    pub bond_info: BondCommonInfo,
    /// Coupons, amortizations and redemptions.
    pub payments: Vec<PaymentInfo>,
}

/// Direction of a market order.
#[derive(Clone, Copy, Debug, PartialEq, Eq, Structural)]
pub enum MarketOrderType {
    Buy,
    Sell,
}

/// A market order: which bond, which direction, how many.
#[derive(Clone, Debug)]
pub struct MarketOrder {
    pub isin: Isin,
    pub order_type: MarketOrderType,
    /// Number of bonds.
    pub count: i64,
}

/// The market price of a portfolio: free cash plus, for every held bond that
/// has a price, `Decimal::from(count) * price`, added in the order of the
/// holdings; `None` when a decimal operation overflows.
pub open spec fn market_price_spec(
    free: Dec,
    counts: Seq<(Seq<char>, i64)>,
    prices: Seq<(Seq<char>, Dec)>,
) -> Option<Dec>
    decreases counts.len(),
{
    if counts.len() == 0 {
        Some(free)
    } else {
        match market_price_spec(free, counts.drop_last(), prices) {
            None => None,
            Some(acc) => match lookup(prices, counts.last().0) {
                None => Some(acc),
                Some(p) => match decimal_checked_mul(spec_from_i64(counts.last().1), p) {
                    None => None,
                    Some(v) => decimal_checked_add(acc, v),
                },
            },
        }
    }
}

/// The market price as a number (in units of `10^-28`): the cash plus
/// `count * price` for every held bond that has a price.
pub open spec fn market_value_sum(free: Dec, counts: Seq<(Seq<char>, i64)>, prices: Seq<(Seq<char>, Dec)>) -> int
    decreases counts.len(),
{
    if counts.len() == 0 {
        free.val()
    } else {
        let rest = market_value_sum(free, counts.drop_last(), prices);
        match lookup(prices, counts.last().0) {
            None => rest,
            Some(p) => rest + counts.last().1 * p.val(),
        }
    }
}

/// Whether no step of the market price rounds: each product of a count and
/// a price and each addition.
pub open spec fn market_price_is_exact(free: Dec, counts: Seq<(Seq<char>, i64)>, prices: Seq<(Seq<char>, Dec)>) -> bool
    decreases counts.len(),
{
    if counts.len() == 0 {
        true
    } else {
        let acc = market_price_spec(free, counts.drop_last(), prices)->0;
        let c = spec_from_i64(counts.last().1);
        &&& market_price_is_exact(free, counts.drop_last(), prices)
        &&& lookup(prices, counts.last().0) matches Some(p) ==> {
            &&& exists|k: nat| #[trigger] product_fits_after(c, p, k)
            &&& sum_is_exact(acc, decimal_checked_mul(c, p)->0, 1)
        }
    }
}

/// Exactness over the holdings holds over each prefix of them.
proof fn lemma_market_price_exact_prefix(free: Dec, counts: Seq<(Seq<char>, i64)>, prices: Seq<(Seq<char>, Dec)>, k: int)
    requires
        0 <= k <= counts.len(),
        market_price_is_exact(free, counts, prices),
    ensures
        market_price_is_exact(free, counts.take(k), prices),
    decreases counts.len() - k,
{
    if k < counts.len() {
        lemma_market_price_exact_prefix(free, counts, prices, k + 1);
        assert(counts.take(k + 1).drop_last() =~= counts.take(k));
    } else {
        assert(counts.take(k) =~= counts);
    }
}

/// `Decimal::from(v)` as a value of the model.
pub open spec fn spec_from_i64(v: i64) -> Dec {
    choose|d: Dec| is_int(d, v as int)
}

impl Portfolio {
    /// The portfolio's value at the given prices (`None` on decimal overflow).
    pub fn market_price(&self, bonds_prices: &IsinMap<Dec>) -> (r: Option<Dec>)
        ensures
            r == market_price_spec(self.free_money, self.bonds_count@, bonds_prices@),
            market_price_is_exact(self.free_money, self.bonds_count@, bonds_prices@) ==> (r matches Some(v)
                && v.val() == market_value_sum(self.free_money, self.bonds_count@, bonds_prices@)),
    {
        let n = self.bonds_count.len();
        let mut price = self.free_money;
        let mut i: usize = 0;
        proof {
            lemma_pow10_positive(28);
        }
        while i < n
            invariant
                n == self.bonds_count@.len(),
                i <= n,
                market_price_spec(self.free_money, self.bonds_count@.take(i as int), bonds_prices@)
                    == Some(price),
                market_price_is_exact(self.free_money, self.bonds_count@.take(i as int), bonds_prices@)
                    ==> price.val() == market_value_sum(self.free_money, self.bonds_count@.take(i as int), bonds_prices@),
                pow10(28) > 0,
            decreases n - i,
        {
            let count = self.bonds_count.value_at(i);
            let ghost pre = self.bonds_count@.take(i as int);
            assert(self.bonds_count@.take(i + 1).drop_last() =~= pre);
            assert(self.bonds_count@.take(i + 1).last() == self.bonds_count@[i as int]);
            proof {
                if market_price_is_exact(self.free_money, self.bonds_count@, bonds_prices@) {
                    lemma_market_price_exact_prefix(self.free_money, self.bonds_count@, bonds_prices@, i + 1);
                }
            }
            match bonds_prices.get(self.bonds_count.key_at(i)) {
                None => {},
                Some(bond_price) => {
                    let c = from_i64(count);
                    proof {
                        lemma_from_i64_is_spec(c, count);
                        if market_price_is_exact(self.free_money, self.bonds_count@.take(i + 1), bonds_prices@) {
                            let k = choose|k: nat| #[trigger] product_fits_after(spec_from_i64(count), bond_price, k);
                            assert(product_fits_after(c, bond_price, k));
                        }
                    }
                    let m = checked_mul(c, bond_price);
                    proof {
                        if market_price_is_exact(self.free_money, self.bonds_count@.take(i + 1), bonds_prices@) {
                            let big = pow10(28);
                            let z = m->0.val();
                            let bp = bond_price.val();
                            assert(z * big == (count * big) * bp);
                            assert(z == count * bp) by (nonlinear_arith)
                                requires
                                    z * big == (count * big) * bp,
                                    big > 0,
                            ;
                        }
                    }
                    match m {
                        None => {
                            proof {
                                lemma_market_price_none_stays(self.free_money, self.bonds_count@, bonds_prices@, i as int + 1);
                            }
                            return None;
                        },
                        Some(v) => match checked_add(price, v) {
                            None => {
                                proof {
                                    lemma_market_price_none_stays(self.free_money, self.bonds_count@, bonds_prices@, i as int + 1);
                                }
                                return None;
                            },
                            Some(s) => {
                                price = s;
                            },
                        },
                    }
                },
            }
            i = i + 1;
        }
        assert(self.bonds_count@.take(n as int) =~= self.bonds_count@);
        Some(price)
    }
}

/// Two decimals with the same parts are the same value of the model.
pub proof fn lemma_from_i64_is_spec(d: Dec, v: i64)
    requires
        is_int(d, v as int),
    ensures
        d == spec_from_i64(v),
{
    lemma_dec_ext(d, spec_from_i64(v));
}

/// A failed prefix makes the whole market price fail.
pub proof fn lemma_market_price_none_stays(
    free: Dec,
    counts: Seq<(Seq<char>, i64)>,
    prices: Seq<(Seq<char>, Dec)>,
    k: int,
)
    requires
        0 <= k <= counts.len(),
        market_price_spec(free, counts.take(k), prices) is None,
    ensures
        market_price_spec(free, counts, prices) is None,
    decreases counts.len() - k,
{
    if k < counts.len() {
        assert(counts.take(k + 1).drop_last() =~= counts.take(k));
        lemma_market_price_none_stays(free, counts, prices, k + 1);
    } else {
        assert(counts.take(k) =~= counts);
    }
}

/// The effective maturity of a bond: the offer date when it comes before
/// maturity (or there is no maturity), else the maturity date.
pub open spec fn effective_maturity_spec(info: BondPersistentInfo) -> Option<Date> {
    match (info.bond_info.maturity_date, info.bond_info.offer_date) {
        (Some(m), Some(o)) => if o < m { Some(o) } else { Some(m) },
        (Some(m), None) => Some(m),
        (None, Some(o)) => Some(o),
        (None, None) => None,
    }
}

/// The effective maturity of a bond: the earlier of its maturity and offer
/// dates, whichever of them it has.
pub fn effective_maturity(info: &BondPersistentInfo) -> (r: Option<Date>)
    ensures
        r == effective_maturity_spec(*info),
        r is Some <==> (info.bond_info.maturity_date is Some || info.bond_info.offer_date is Some),
        info.bond_info.maturity_date matches Some(m) ==> r is Some && r->0 <= m,
        info.bond_info.offer_date matches Some(o) ==> r is Some && r->0 <= o,
        r matches Some(d) ==> (info.bond_info.maturity_date == Some(d) || info.bond_info.offer_date == Some(d)),
{
    proof {
        law_effective_maturity_is_earliest_date(*info);
    }
    match (info.bond_info.maturity_date, info.bond_info.offer_date) {
        (Some(m), Some(o)) => if o < m { Some(o) } else { Some(m) },
        (Some(m), None) => Some(m),
        (None, Some(o)) => Some(o),
        (None, None) => None,
    }
}

/// A bond matures at the earlier of its maturity date and its offer date:
/// with both, at the offer date exactly when it comes first; with one, at that
/// one; with neither, at no known date.
pub proof fn law_effective_maturity_is_earliest_date(info: BondPersistentInfo)
    ensures
        match (info.bond_info.maturity_date, info.bond_info.offer_date) {
            (Some(m), Some(o)) => effective_maturity_spec(info) == Some(if o < m { o } else { m })
                && effective_maturity_spec(info)->0 <= m && effective_maturity_spec(info)->0 <= o
                && (o < m ==> effective_maturity_spec(info) == Some(o)),
            (Some(m), None) => effective_maturity_spec(info) == Some(m),
            (None, Some(o)) => effective_maturity_spec(info) == Some(o),
            (None, None) => effective_maturity_spec(info) is None,
        },
        effective_maturity_spec(info) matches Some(d) ==> (info.bond_info.maturity_date == Some(d)
            || info.bond_info.offer_date == Some(d)),
        info.bond_info.maturity_date matches Some(m) ==> effective_maturity_spec(info) is Some
            && effective_maturity_spec(info)->0 <= m,
        info.bond_info.offer_date matches Some(o) ==> effective_maturity_spec(info) is Some
            && effective_maturity_spec(info)->0 <= o,
{
}

/// `spec_from_i64(v)` is the integer `v` at scale zero.
pub proof fn lemma_spec_from_i64(v: i64)
    ensures
        is_int(spec_from_i64(v), v as int),
{
    crate::decimal::lemma_int_dec_exists(v);
}

} // verus!
