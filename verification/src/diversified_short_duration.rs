//! Diversified short bonds: buy bonds maturing within 3 to 18 months that
//! trade below par, at most 15% of the portfolio in one bond, and sell a bond
//! whose price falls below 70% of its face value.
use crate::decimal::{checked_mul, decimal_checked_mul, is_positive, lt, Dec};
use crate::keyed_map::{lookup, IsinMap};
use crate::model::{
    effective_maturity, effective_maturity_spec, market_price_spec, BondPersistentInfo, Date,
    portfolio_view, MarketOrder, MarketOrderType, Portfolio, PortfolioView,
};
use crate::strategy::{
    add_proceeds, allocate, allocate_spec, allocation_orders, cands_view, cand_view, has_order,
    has_order_for, initial_weights, initial_weights_spec, orders_view, price_percent,
    price_percent_spec, purchase_cash_flows, rank_candidates, ranked, stop_loss_orders,
    stop_loss_spec, with_proceeds, yield_in, yield_of, Allocation, Candidate, CandidateView, CashFlows,
    OrderView, Strategy, law_allocation_orders_are_bounded_buys, lemma_ranked_members, lemma_stop_loss_sells,
};
use vstd::prelude::*;

verus! {

/// The rules of the short-duration strategies.
#[derive(Clone, Copy)]
pub struct ShortDurationRules {
    /// Largest share of the portfolio in one bond.
    pub max_weight: Dec,
    /// Shortest time to maturity, in days.
    pub min_days_to_maturity: i64,
    /// Longest time to maturity, in days.
    pub max_days_to_maturity: i64,
    /// Lowest price in percent of the face value.
    pub min_price_pct: Dec,
    /// Highest price in percent of the face value.
    pub max_price_pct: Dec,
    /// Whether the price must stay strictly below `max_price_pct` (otherwise
    /// a price equal to it is still bought).
    pub strictly_below_max: bool,
    /// A held bond below this percent of its face value is sold.
    pub stop_loss_pct: Dec,
    /// Lowest yield.
    pub min_yield: Dec,
}

/// Whether a price percent is outside the range of the rules.
pub open spec fn price_out_of_range(r: ShortDurationRules, pct: Dec) -> bool {
    pct.val() < r.min_price_pct.val() || if r.strictly_below_max {
        pct.val() >= r.max_price_pct.val()
    } else {
        pct.val() > r.max_price_pct.val()
    }
}

/// Whether (and as what) a bond is a candidate for purchase: not being sold,
/// not subordinated, priced above zero, not in default, priced within the
/// percent range, maturing within the day range, yielding at least the
/// minimum, and traded today.
pub open spec fn short_candidate(
    r: ShortDurationRules,
    current_date: Date,
    isin: Seq<char>,
    info: BondPersistentInfo,
    prices: Seq<(Seq<char>, Dec)>,
    volumes: Seq<(Seq<char>, i64)>,
    yields: Seq<(Seq<char>, Dec)>,
    sales: Seq<OrderView>,
) -> Option<Option<CandidateView>> {
    if has_order_for(sales, isin) || info.bond_info.is_subordinated == Some(true) {
        Some(None)
    } else {
        match lookup(prices, isin) {
            None => Some(None),
            Some(price) => if price.val() <= 0 || info.bond_info.default_date is Some {
                Some(None)
            } else {
                match price_percent_spec(price, info.bond_info.facevalue) {
                    None => None,
                    Some(pct) => if price_out_of_range(r, pct) {
                        Some(None)
                    } else {
                        match effective_maturity_spec(info) {
                            None => Some(None),
                            Some(maturity) => {
                                let days = maturity - current_date;
                                let y = yield_of(yields, isin);
                                let volume = match lookup(volumes, isin) {
                                    Some(v) => v,
                                    None => 0,
                                };
                                if days < r.min_days_to_maturity || days > r.max_days_to_maturity
                                    || y.val() < r.min_yield.val() || volume <= 0 {
                                    Some(None)
                                } else {
                                    Some(Some(CandidateView { isin, yield_xirr: y, rank: y, price, max_buy: volume }))
                                }
                            },
                        }
                    },
                }
            },
        }
    }
}

/// The candidates, in the order of the bonds.
pub open spec fn short_candidates(
    r: ShortDurationRules,
    current_date: Date,
    infos: Seq<(Seq<char>, BondPersistentInfo)>,
    prices: Seq<(Seq<char>, Dec)>,
    volumes: Seq<(Seq<char>, i64)>,
    yields: Seq<(Seq<char>, Dec)>,
    sales: Seq<OrderView>,
) -> Option<Seq<CandidateView>>
    decreases infos.len(),
{
    if infos.len() == 0 {
        Some(Seq::empty())
    } else {
        match short_candidates(r, current_date, infos.drop_last(), prices, volumes, yields, sales) {
            None => None,
            Some(cs) => match short_candidate(r, current_date, infos.last().0, infos.last().1, prices, volumes, yields, sales) {
                None => None,
                Some(None) => Some(cs),
                Some(Some(c)) => Some(cs.push(c)),
            },
        }
    }
}

/// A failed prefix makes the candidate fold fail.
pub proof fn lemma_candidates_none_stays(
    r: ShortDurationRules,
    current_date: Date,
    infos: Seq<(Seq<char>, BondPersistentInfo)>,
    prices: Seq<(Seq<char>, Dec)>,
    volumes: Seq<(Seq<char>, i64)>,
    yields: Seq<(Seq<char>, Dec)>,
    sales: Seq<OrderView>,
    k: int,
)
    requires
        0 <= k <= infos.len(),
        short_candidates(r, current_date, infos.take(k), prices, volumes, yields, sales) is None,
    ensures
        short_candidates(r, current_date, infos, prices, volumes, yields, sales) is None,
    decreases infos.len() - k,
{
    if k < infos.len() {
        assert(infos.take(k + 1).drop_last() =~= infos.take(k));
        lemma_candidates_none_stays(r, current_date, infos, prices, volumes, yields, sales, k + 1);
    } else {
        assert(infos.take(k) =~= infos);
    }
}

/// Whether a bond is a candidate (`None` on decimal overflow).
fn short_candidate_of(
    r: &ShortDurationRules,
    current_date: Date,
    isin: &String,
    info: &BondPersistentInfo,
    prices: &IsinMap<Dec>,
    volumes: &IsinMap<i64>,
    yields: &IsinMap<Dec>,
    sales: &Vec<MarketOrder>,
) -> (c: Option<Option<Candidate>>)
    ensures
        c is Some <==> short_candidate(*r, current_date, isin@, *info, prices@, volumes@, yields@, orders_view(sales@)) is Some,
        c is Some ==> (c->0 is Some <==> short_candidate(*r, current_date, isin@, *info, prices@, volumes@, yields@, orders_view(sales@))->0 is Some),
        c is Some && c->0 is Some ==> cand_view(c->0->0) == short_candidate(*r, current_date, isin@, *info, prices@, volumes@, yields@, orders_view(sales@))->0->0,
{
    if has_order(sales, isin) || info.bond_info.is_subordinated == Some(true) {
        return Some(None);
    }
    let price = match prices.get(isin) {
        None => return Some(None),
        Some(p) => p,
    };
    if !is_positive(price) || info.bond_info.default_date.is_some() {
        return Some(None);
    }
    let pct = match price_percent(price, info.bond_info.facevalue) {
        None => return None,
        Some(p) => p,
    };
    let above_max = if r.strictly_below_max { !lt(pct, r.max_price_pct) } else { lt(r.max_price_pct, pct) };
    if lt(pct, r.min_price_pct) || above_max {
        return Some(None);
    }
    let maturity = match effective_maturity(info) {
        None => return Some(None),
        Some(m) => m,
    };
    let days: i64 = maturity as i64 - current_date as i64;
    let y = yield_in(yields, isin);
    let volume: i64 = match volumes.get(isin) {
        Some(v) => v,
        None => 0,
    };
    if days < r.min_days_to_maturity || days > r.max_days_to_maturity || lt(y, r.min_yield) || volume <= 0 {
        return Some(None);
    }
    Some(Some(Candidate { isin: isin.clone(), yield_xirr: y, rank: y, price, max_buy: volume }))
}

/// The candidates (`None` on decimal overflow).
fn short_candidate_list(
    r: &ShortDurationRules,
    current_date: Date,
    infos: &IsinMap<BondPersistentInfo>,
    prices: &IsinMap<Dec>,
    volumes: &IsinMap<i64>,
    yields: &IsinMap<Dec>,
    sales: &Vec<MarketOrder>,
) -> (c: Option<Vec<Candidate>>)
    ensures
        c is Some <==> short_candidates(*r, current_date, infos@, prices@, volumes@, yields@, orders_view(sales@)) is Some,
        c is Some ==> cands_view(c->0@) == short_candidates(*r, current_date, infos@, prices@, volumes@, yields@, orders_view(sales@))->0,
{
    let ghost sv = orders_view(sales@);
    let n = infos.len();
    let mut cands: Vec<Candidate> = Vec::new();
    let mut i: usize = 0;
    while i < n
        invariant
            n == infos@.len(),
            i <= n,
            sv == orders_view(sales@),
            short_candidates(*r, current_date, infos@.take(i as int), prices@, volumes@, yields@, sv) == Some(cands_view(cands@)),
        decreases n - i,
    {
        assert(infos@.take(i + 1).drop_last() =~= infos@.take(i as int));
        assert(infos@.take(i + 1).last() == infos@[i as int]);
        match short_candidate_of(r, current_date, infos.key_at(i), infos.value_ref(i), prices, volumes, yields, sales) {
            None => {
                proof {
                    lemma_candidates_none_stays(*r, current_date, infos@, prices@, volumes@, yields@, sv, i + 1);
                }
                return None;
            },
            Some(None) => {},
            Some(Some(c)) => {
                let ghost before = cands@;
                cands.push(c);
                assert(cands_view(cands@) =~= cands_view(before).push(cand_view(c)));
            },
        }
        i = i + 1;
    }
    assert(infos@.take(n as int) =~= infos@);
    Some(cands)
}

/// The orders of the short-duration rules: the stop-loss sales, then the
/// purchases of the ranked candidates with the free cash and the proceeds of
/// the sales; nothing when the portfolio is worth nothing; `None` on decimal
/// overflow.
pub open spec fn short_duration_spec(
    r: ShortDurationRules,
    current_date: Date,
    portfolio: PortfolioView,
    infos: Seq<(Seq<char>, BondPersistentInfo)>,
    prices: Seq<(Seq<char>, Dec)>,
    volumes: Seq<(Seq<char>, i64)>,
    yields: Seq<(Seq<char>, Dec)>,
) -> Option<Seq<OrderView>> {
    match market_price_spec(portfolio.free_money, portfolio.bonds_count, prices) {
        None => None,
        Some(pv) => if pv.val() <= 0 {
            Some(Seq::empty())
        } else {
            match (
                stop_loss_spec(portfolio.bonds_count, prices, infos, r.stop_loss_pct),
                initial_weights_spec(portfolio.bonds_count, prices, pv),
            ) {
                (Some(sales), Some(weights)) => match (
                    short_candidates(r, current_date, infos, prices, volumes, yields, sales),
                    with_proceeds(portfolio.free_money, sales, prices),
                    decimal_checked_mul(pv, r.max_weight),
                ) {
                    (Some(cands), Some(free), Some(max_position_value)) => {
                        let a = Allocation { portfolio_value: pv, max_position_value, update_weights: false };
                        match allocate_spec(ranked(cands), free, weights, a) {
                            None => None,
                            Some(_) => Some(sales + allocation_orders(ranked(cands), free, weights, a)),
                        }
                    },
                    _ => None,
                },
                _ => None,
            }
        },
    }
}

/// The orders of the short-duration rules.
pub fn short_duration_trades(
    r: &ShortDurationRules,
    current_date: Date,
    portfolio: &Portfolio,
    bonds_info: &IsinMap<BondPersistentInfo>,
    bonds_prices: &IsinMap<Dec>,
    bonds_volumes: &IsinMap<i64>,
    yields: &IsinMap<Dec>,
) -> (o: Option<Vec<MarketOrder>>)
    ensures
        o is Some <==> short_duration_spec(*r, current_date, portfolio_view(*portfolio), bonds_info@, bonds_prices@, bonds_volumes@, yields@) is Some,
        o is Some ==> orders_view(o->0@) == short_duration_spec(*r, current_date, portfolio_view(*portfolio), bonds_info@, bonds_prices@, bonds_volumes@, yields@)->0,
{
    let pv = match portfolio.market_price(bonds_prices) {
        None => return None,
        Some(v) => v,
    };
    if !is_positive(pv) {
        let none: Vec<MarketOrder> = Vec::new();
        assert(orders_view(none@) =~= Seq::<OrderView>::empty());
        return Some(none);
    }
    let sales = match stop_loss_orders(portfolio, bonds_prices, bonds_info, r.stop_loss_pct) {
        None => return None,
        Some(s) => s,
    };
    let weights = match initial_weights(portfolio, bonds_prices, pv) {
        None => return None,
        Some(w) => w,
    };
    let cands = match short_candidate_list(r, current_date, bonds_info, bonds_prices, bonds_volumes, yields, &sales) {
        None => return None,
        Some(c) => c,
    };
    let ranked_cands = rank_candidates(cands);
    let free = match add_proceeds(portfolio.free_money, &sales, bonds_prices) {
        None => return None,
        Some(f) => f,
    };
    let max_position_value = match checked_mul(pv, r.max_weight) {
        None => return None,
        Some(m) => m,
    };
    let a = Allocation { portfolio_value: pv, max_position_value, update_weights: false };
    let spent = match allocate(&ranked_cands, free, weights, &a) {
        None => return None,
        Some(s) => s,
    };
    let mut orders = sales;
    let ghost sv = orders_view(orders@);
    let mut buys = spent.orders;
    let ghost bv = orders_view(buys@);
    orders.append(&mut buys);
    assert(orders_view(orders@) =~= sv + bv);
    Some(orders)
}

/// Diversified short bonds.
pub struct DiversifiedShortDurationStrategy {
    /// Largest share of the portfolio in one bond.
    pub max_weight: Dec,
    /// Shortest time to maturity, in days.
    pub min_days_to_maturity: i64,
    /// Longest time to maturity, in days.
    pub max_days_to_maturity: i64,
    /// Lowest price in percent of the face value.
    pub min_price_pct: Dec,
    /// A held bond below this percent of its face value is sold.
    pub stop_loss_pct: Dec,
    /// Lowest yield.
    pub min_yield: Dec,
}

impl DiversifiedShortDurationStrategy {
    /// The short-duration rules of this strategy: only bonds trading below
    /// par are bought.
    pub open spec fn rules_spec(&self) -> ShortDurationRules {
        ShortDurationRules {
            max_weight: self.max_weight,
            min_days_to_maturity: self.min_days_to_maturity,
            max_days_to_maturity: self.max_days_to_maturity,
            min_price_pct: self.min_price_pct,
            max_price_pct: crate::model::spec_from_i64(100),
            strictly_below_max: true,
            stop_loss_pct: self.stop_loss_pct,
            min_yield: self.min_yield,
        }
    }

    /// The short-duration rules of this strategy.
    pub fn rules(&self) -> (r: ShortDurationRules)
        ensures
            r == self.rules_spec(),
    {
        let par = crate::decimal::from_i64(100);
        proof {
            crate::model::lemma_from_i64_is_spec(par, 100);
        }
        ShortDurationRules {
            max_weight: self.max_weight,
            min_days_to_maturity: self.min_days_to_maturity,
            max_days_to_maturity: self.max_days_to_maturity,
            min_price_pct: self.min_price_pct,
            max_price_pct: par,
            strictly_below_max: true,
            stop_loss_pct: self.stop_loss_pct,
            min_yield: self.min_yield,
        }
    }
}

impl Strategy for DiversifiedShortDurationStrategy {
    open spec fn decision(
        &self,
        current_date: Date,
        portfolio: PortfolioView,
        infos: Seq<(Seq<char>, BondPersistentInfo)>,
        prices: Seq<(Seq<char>, Dec)>,
        volumes: Seq<(Seq<char>, i64)>,
        yields: Seq<(Seq<char>, Dec)>,
    ) -> Option<Seq<OrderView>> {
        short_duration_spec(self.rules_spec(), current_date, portfolio, infos, prices, volumes, yields)
    }

    /// Buying at the price and receiving every payment more than five days
    /// ahead; with no such payment the yield is -1.
    fn yield_inputs(&self, price: Dec, current_date: Date, info: &BondPersistentInfo) -> (r: Option<CashFlows>)
        ensures
            r is Some <==> crate::strategy::purchase_flows(price, current_date, info.payments@, current_date + 5, false).len() >= 2,
            r is Some ==> crate::strategy::flows_view(r->0) == crate::strategy::purchase_flows(price, current_date, info.payments@, current_date + 5, false),
    {
        let flows = purchase_cash_flows(price, current_date, info, 5, false);
        if flows.amounts.len() < 2 {
            None
        } else {
            Some(flows)
        }
    }

    fn decide_trades(
        &self,
        current_date: Date,
        portfolio: &Portfolio,
        bonds_info: &IsinMap<BondPersistentInfo>,
        bonds_prices: &IsinMap<Dec>,
        bonds_volumes: &IsinMap<i64>,
        yields: &IsinMap<Dec>,
    ) -> (o: Option<Vec<MarketOrder>>)
        ensures
            o is Some <==> short_duration_spec(self.rules_spec(), current_date, portfolio_view(*portfolio), bonds_info@, bonds_prices@, bonds_volumes@, yields@) is Some,
            o is Some ==> orders_view(o->0@) == short_duration_spec(self.rules_spec(), current_date, portfolio_view(*portfolio), bonds_info@, bonds_prices@, bonds_volumes@, yields@)->0,
    {
        let rules = self.rules();
        short_duration_trades(&rules, current_date, portfolio, bonds_info, bonds_prices, bonds_volumes, yields)
    }
}

impl Default for DiversifiedShortDurationStrategy {
    /// At most 15% in one bond, maturities from 90 to 540 days, prices from
    /// 50% of par, a stop loss at 70% and yields from 5%.
    fn default() -> (r: Self)
        ensures
            r.max_weight.m() == 15 && r.max_weight.s() == 2,
            r.min_days_to_maturity == 90,
            r.max_days_to_maturity == 540,
            r.min_price_pct.m() == 50 && r.min_price_pct.s() == 0,
            r.stop_loss_pct.m() == 70 && r.stop_loss_pct.s() == 0,
            r.min_yield.m() == 5 && r.min_yield.s() == 2,
    {
        DiversifiedShortDurationStrategy {
            max_weight: Dec::new(15, 2).unwrap(),
            min_days_to_maturity: 90,
            max_days_to_maturity: 540,
            min_price_pct: Dec::new(50, 0).unwrap(),
            stop_loss_pct: Dec::new(70, 0).unwrap(),
            min_yield: Dec::new(5, 2).unwrap(),
        }
    }
}

/// No candidate is a bond that is being sold.
pub proof fn lemma_candidates_unsold(
    r: ShortDurationRules,
    current_date: Date,
    infos: Seq<(Seq<char>, BondPersistentInfo)>,
    prices: Seq<(Seq<char>, Dec)>,
    volumes: Seq<(Seq<char>, i64)>,
    yields: Seq<(Seq<char>, Dec)>,
    sales: Seq<OrderView>,
)
    requires
        short_candidates(r, current_date, infos, prices, volumes, yields, sales) is Some,
    ensures
        forall|i: int| 0 <= i < short_candidates(r, current_date, infos, prices, volumes, yields, sales)->0.len()
            ==> !has_order_for(sales, (#[trigger] short_candidates(r, current_date, infos, prices, volumes, yields, sales)->0[i]).isin),
    decreases infos.len(),
{
    if infos.len() > 0 {
        lemma_candidates_unsold(r, current_date, infos.drop_last(), prices, volumes, yields, sales);
    }
}

/// The short-duration rules never buy a bond they sell on the same day.
pub proof fn law_short_duration_never_buys_what_it_sells(
    r: ShortDurationRules,
    current_date: Date,
    portfolio: PortfolioView,
    infos: Seq<(Seq<char>, BondPersistentInfo)>,
    prices: Seq<(Seq<char>, Dec)>,
    volumes: Seq<(Seq<char>, i64)>,
    yields: Seq<(Seq<char>, Dec)>,
)
    requires
        short_duration_spec(r, current_date, portfolio, infos, prices, volumes, yields) is Some,
    ensures
        ({
            let os = short_duration_spec(r, current_date, portfolio, infos, prices, volumes, yields)->0;
            forall|i: int, j: int|
                0 <= i < os.len() && 0 <= j < os.len() && (#[trigger] os[i]).order_type == MarketOrderType::Buy
                    && (#[trigger] os[j]).order_type == MarketOrderType::Sell ==> os[i].isin != os[j].isin
        }),
{
    let pv = market_price_spec(portfolio.free_money, portfolio.bonds_count, prices)->0;
    if pv.val() > 0 {
        let sales = stop_loss_spec(portfolio.bonds_count, prices, infos, r.stop_loss_pct)->0;
        let weights = initial_weights_spec(portfolio.bonds_count, prices, pv)->0;
        let cands = short_candidates(r, current_date, infos, prices, volumes, yields, sales)->0;
        let free = with_proceeds(portfolio.free_money, sales, prices)->0;
        let max_position_value = decimal_checked_mul(pv, r.max_weight)->0;
        let a = Allocation { portfolio_value: pv, max_position_value, update_weights: false };
        let buys = allocation_orders(ranked(cands), free, weights, a);
        let os = sales + buys;
        assert(short_duration_spec(r, current_date, portfolio, infos, prices, volumes, yields)->0 == os);
        lemma_stop_loss_sells(portfolio.bonds_count, prices, infos, r.stop_loss_pct);
        law_allocation_orders_are_bounded_buys(ranked(cands), free, weights, a);
        lemma_candidates_unsold(r, current_date, infos, prices, volumes, yields, sales);
        assert forall|i: int, j: int|
            0 <= i < os.len() && 0 <= j < os.len() && (#[trigger] os[i]).order_type == MarketOrderType::Buy
                && (#[trigger] os[j]).order_type == MarketOrderType::Sell implies os[i].isin != os[j].isin by {
            if i < sales.len() {
                assert(os[i] == sales[i]);
            } else if j >= sales.len() {
                assert(os[j] == buys[j - sales.len()]);
            } else {
                let o = buys[i - sales.len()];
                assert(os[i] == o);
                assert(os[j] == sales[j]);
                let k = choose|k: int| 0 <= k < ranked(cands).len() && #[trigger] ranked(cands)[k].isin == o.isin
                    && o.count <= ranked(cands)[k].max_buy;
                lemma_ranked_members(cands, k);
                let m = choose|m: int| 0 <= m < cands.len() && cands[m] == ranked(cands)[k];
                assert(!has_order_for(sales, cands[m].isin));
                if os[i].isin == os[j].isin {
                    assert(sales[j].isin == cands[m].isin);
                }
            }
        }
    }
}

/// Whether a bond passes the purchase filters of the short-duration rules:
/// it is one of the bonds, not subordinated, not in default, priced above
/// zero and within the percent range, maturing within the day range, yielding
/// at least the minimum and traded today.
pub open spec fn meets_short_rules(
    r: ShortDurationRules,
    current_date: Date,
    infos: Seq<(Seq<char>, BondPersistentInfo)>,
    prices: Seq<(Seq<char>, Dec)>,
    volumes: Seq<(Seq<char>, i64)>,
    yields: Seq<(Seq<char>, Dec)>,
    isin: Seq<char>,
) -> bool {
    &&& lookup(prices, isin) matches Some(p) && p.val() > 0
    &&& exists|k: int| 0 <= k < infos.len() && #[trigger] infos[k].0 == isin && {
        let info = infos[k].1;
        &&& info.bond_info.is_subordinated != Some(true)
        &&& info.bond_info.default_date is None
        &&& (price_percent_spec(lookup(prices, isin)->0, info.bond_info.facevalue) matches Some(pct)
            && !price_out_of_range(r, pct))
        &&& (effective_maturity_spec(info) matches Some(m)
            && r.min_days_to_maturity <= m - current_date <= r.max_days_to_maturity)
    }
    &&& yield_of(yields, isin).val() >= r.min_yield.val()
    &&& lookup(volumes, isin) matches Some(v) && v > 0
}

/// Every candidate passes the purchase filters, is ranked by its yield, is
/// priced at its market price, and may be bought up to its day volume.
pub proof fn lemma_candidates_meet_rules(
    r: ShortDurationRules,
    current_date: Date,
    infos: Seq<(Seq<char>, BondPersistentInfo)>,
    prices: Seq<(Seq<char>, Dec)>,
    volumes: Seq<(Seq<char>, i64)>,
    yields: Seq<(Seq<char>, Dec)>,
    sales: Seq<OrderView>,
)
    requires
        short_candidates(r, current_date, infos, prices, volumes, yields, sales) is Some,
    ensures
        forall|i: int| 0 <= i < short_candidates(r, current_date, infos, prices, volumes, yields, sales)->0.len() ==> {
            let c = #[trigger] short_candidates(r, current_date, infos, prices, volumes, yields, sales)->0[i];
            &&& meets_short_rules(r, current_date, infos, prices, volumes, yields, c.isin)
            &&& lookup(volumes, c.isin) == Some(c.max_buy)
            &&& c.yield_xirr == yield_of(yields, c.isin) && c.rank == c.yield_xirr
            &&& lookup(prices, c.isin) == Some(c.price)
        },
    decreases infos.len(),
{
    if infos.len() > 0 {
        let t = infos.drop_last();
        lemma_candidates_meet_rules(r, current_date, t, prices, volumes, yields, sales);
        let cs = short_candidates(r, current_date, infos, prices, volumes, yields, sales)->0;
        let prev = short_candidates(r, current_date, t, prices, volumes, yields, sales)->0;
        assert forall|i: int| 0 <= i < cs.len() implies {
            let c = #[trigger] cs[i];
            &&& meets_short_rules(r, current_date, infos, prices, volumes, yields, c.isin)
            &&& lookup(volumes, c.isin) == Some(c.max_buy)
            &&& c.yield_xirr == yield_of(yields, c.isin) && c.rank == c.yield_xirr
            &&& lookup(prices, c.isin) == Some(c.price)
        } by {
            if i < prev.len() {
                assert(cs[i] == prev[i]);
                let k = choose|k: int| 0 <= k < t.len() && #[trigger] t[k].0 == prev[i].isin && {
                    let info = t[k].1;
                    &&& info.bond_info.is_subordinated != Some(true)
                    &&& info.bond_info.default_date is None
                    &&& (price_percent_spec(lookup(prices, prev[i].isin)->0, info.bond_info.facevalue) matches Some(pct)
                        && !price_out_of_range(r, pct))
                    &&& (effective_maturity_spec(info) matches Some(m)
                        && r.min_days_to_maturity <= m - current_date <= r.max_days_to_maturity)
                };
                assert(infos[k] == t[k]);
            } else {
                let k = infos.len() - 1;
                assert(infos[k] == infos.last());
            }
        }
    }
}

/// The short-duration rules buy only bonds that pass the purchase filters,
/// each no more than its day volume.
pub proof fn law_short_duration_buys_only_eligible_bonds(
    r: ShortDurationRules,
    current_date: Date,
    portfolio: PortfolioView,
    infos: Seq<(Seq<char>, BondPersistentInfo)>,
    prices: Seq<(Seq<char>, Dec)>,
    volumes: Seq<(Seq<char>, i64)>,
    yields: Seq<(Seq<char>, Dec)>,
)
    requires
        short_duration_spec(r, current_date, portfolio, infos, prices, volumes, yields) is Some,
    ensures
        forall|i: int| 0 <= i < short_duration_spec(r, current_date, portfolio, infos, prices, volumes, yields)->0.len()
            && (#[trigger] short_duration_spec(r, current_date, portfolio, infos, prices, volumes, yields)->0[i]).order_type
                == MarketOrderType::Buy ==> {
            let o = short_duration_spec(r, current_date, portfolio, infos, prices, volumes, yields)->0[i];
            &&& meets_short_rules(r, current_date, infos, prices, volumes, yields, o.isin)
            &&& 0 < o.count <= lookup(volumes, o.isin)->0
        },
{
    let pv = market_price_spec(portfolio.free_money, portfolio.bonds_count, prices)->0;
    if pv.val() > 0 {
        let sales = stop_loss_spec(portfolio.bonds_count, prices, infos, r.stop_loss_pct)->0;
        let weights = initial_weights_spec(portfolio.bonds_count, prices, pv)->0;
        let cands = short_candidates(r, current_date, infos, prices, volumes, yields, sales)->0;
        let free = with_proceeds(portfolio.free_money, sales, prices)->0;
        let max_position_value = decimal_checked_mul(pv, r.max_weight)->0;
        let a = Allocation { portfolio_value: pv, max_position_value, update_weights: false };
        let buys = allocation_orders(ranked(cands), free, weights, a);
        let os = sales + buys;
        assert(short_duration_spec(r, current_date, portfolio, infos, prices, volumes, yields)->0 == os);
        lemma_stop_loss_sells(portfolio.bonds_count, prices, infos, r.stop_loss_pct);
        law_allocation_orders_are_bounded_buys(ranked(cands), free, weights, a);
        lemma_candidates_meet_rules(r, current_date, infos, prices, volumes, yields, sales);
        assert forall|i: int| 0 <= i < os.len() && (#[trigger] os[i]).order_type == MarketOrderType::Buy implies {
            &&& meets_short_rules(r, current_date, infos, prices, volumes, yields, os[i].isin)
            &&& 0 < os[i].count <= lookup(volumes, os[i].isin)->0
        } by {
            if i < sales.len() {
                assert(os[i] == sales[i]);
            } else {
                let o = buys[i - sales.len()];
                assert(os[i] == o);
                let k = choose|k: int| 0 <= k < ranked(cands).len() && #[trigger] ranked(cands)[k].isin == o.isin
                    && o.count <= ranked(cands)[k].max_buy;
                lemma_ranked_members(cands, k);
                let m = choose|m: int| 0 <= m < cands.len() && cands[m] == ranked(cands)[k];
                assert(meets_short_rules(r, current_date, infos, prices, volumes, yields, cands[m].isin));
            }
        }
    }
}

} // verus!
