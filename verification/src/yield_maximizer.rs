//! Yield maximizer: hold to maturity (no stop loss), buy only bonds that
//! mature before a hard deadline, lower the yield threshold when much cash is
//! idle, and prefer high yields with short maturities.
use crate::decimal::{
    checked_add, checked_div, checked_mul, checked_sub, decimal_checked_add, decimal_checked_div,
    decimal_checked_mul, decimal_checked_sub, from_i64, is_positive, lt, zero, Dec, abs, two96, pow10,
    sum_is_exact, product_is_exact, product_fits_after, lemma_pow10_28, lemma_pow10_add, lemma_pow10_positive,
    quotient_fits_at, two32,
};
use crate::keyed_map::{lookup, IsinMap};
use crate::model::{
    effective_maturity, effective_maturity_spec, lemma_from_i64_is_spec, market_price_spec,
    spec_from_i64, portfolio_view, BondPersistentInfo, Date, MarketOrder, MarketOrderType, Portfolio, PortfolioView,
};
use crate::strategy::{
    allocate, allocate_spec, allocation_orders, cand_view, cands_view, flows_view, initial_weights,
    initial_weights_spec, orders_view, price_percent, price_percent_spec, purchase_cash_flows,
    purchase_flows, rank_candidates, ranked, yield_in, yield_of, Allocation, Candidate, CandidateView,
    CashFlows, OrderView, Strategy, law_allocation_orders_are_bounded_buys, lemma_ranked_members,
};
use vstd::prelude::*;

verus! {

/// The yield maximizer.
pub struct YieldMaximizerStrategy {
    /// Largest share of the portfolio in one bond.
    pub max_weight: Dec,
    /// Shortest time to maturity, in days.
    pub min_days_to_maturity: i64,
    /// Lowest price in percent of the face value.
    pub min_price_pct: Dec,
    /// Highest price in percent of the face value.
    pub max_price_pct: Dec,
    /// Lowest yield in normal conditions.
    pub min_yield: Dec,
    /// Highest yield (above it a bond is taken to be distressed).
    pub max_yield: Dec,
    /// Lowest yield when the cash share exceeds `cash_urgency_threshold`.
    pub min_yield_urgent: Dec,
    /// Share of cash in the portfolio above which the urgent threshold holds.
    pub cash_urgency_threshold: Dec,
    /// Lowest traded volume of the day for a purchase.
    pub min_volume_for_buy: i64,
    /// No bond maturing after this day is bought.
    pub hard_deadline: Date,
}

/// The rank of a candidate: `yield * (1 + 0.5 * max(0, 1 - days / 365))`,
/// which favours short maturities.
pub open spec fn score_spec(y: Dec, days: i64) -> Option<Dec> {
    match decimal_checked_div(spec_from_i64(days), spec_from_i64(365)) {
        None => None,
        Some(frac) => match decimal_checked_sub(spec_from_i64(1), frac) {
            None => None,
            Some(t) => {
                let tm = if t.val() > 0 { t } else { spec_from_i64(0) };
                match decimal_checked_mul(half(), tm) {
                    None => None,
                    Some(u) => match decimal_checked_add(spec_from_i64(1), u) {
                        None => None,
                        Some(v) => decimal_checked_mul(y, v),
                    },
                }
            },
        }
    }
}

/// The decimal 0.5.
pub open spec fn half() -> Dec {
    choose|d: Dec| d.m() == 5 && d.s() == 1
}

/// The rank of a candidate (`None` on decimal overflow).  A bond that
/// matures in a whole number of years, at least one, ranks at its yield; one
/// that matures today ranks at one and a half times its yield.
pub fn score(y: Dec, days: i64) -> (r: Option<Dec>)
    ensures
        r == score_spec(y, days),
        days >= 365 && days % 365 == 0 ==> r is Some && r->0.val() == y.val(),
        days == 0 && y.s() < 28 && abs(y.m() * 15) < two96() ==> r is Some && r->0.val() * 2 == y.val() * 3,
{
    let d = from_i64(days);
    let year = from_i64(365);
    let one = from_i64(1);
    let nothing = from_i64(0);
    let h = match Dec::new(5, 1) {
        Some(h) => h,
        None => return None,
    };
    proof {
        lemma_from_i64_is_spec(d, days);
        lemma_from_i64_is_spec(year, 365);
        lemma_from_i64_is_spec(one, 1);
        lemma_from_i64_is_spec(nothing, 0);
        crate::decimal::lemma_dec_ext(h, half());
    }
    let frac = match checked_div(d, year) {
        None => return None,
        Some(f) => f,
    };
    proof {
        lemma_pow10_28();
        if days >= 365 && days % 365 == 0 {
            assert(frac.m() == days / 365 && frac.s() == 0);
            assert(frac.val() == frac.m() * pow10(28));
            assert(sum_is_exact(one, frac, -1));
        }
    }
    let t = match checked_sub(one, frac) {
        None => return None,
        Some(t) => t,
    };
    let tm = if is_positive(t) { t } else { nothing };
    proof {
        if days == 0 {
            assert(tm == one);
            assert(product_is_exact(h, one));
        }
    }
    let u = match checked_mul(h, tm) {
        None => return None,
        Some(u) => u,
    };
    proof {
        if days == 0 {
            lemma_pow10_add(27, 1);
            assert(pow10(1) == 10) by {
                reveal_with_fuel(pow10, 2);
            }
            assert(u.val() == 5 * pow10(27));
            assert(sum_is_exact(one, u, 1));
        }
    }
    let v = match checked_add(one, u) {
        None => return None,
        Some(v) => v,
    };
    proof {
        use_type_invariant(&y);
        assert(pow10(0) == 1);
        if days >= 365 && days % 365 == 0 {
            assert(v == one);
            assert(y.m() * v.m() == y.m());
            assert((y.m() * v.m()) % 1 == 0);
            assert(product_fits_after(y, v, 0));
        }
        if days == 0 && y.s() < 28 && abs(y.m() * 15) < two96() {
            assert(v.s() == 1);
            assert(v.val() == 15 * pow10(27));
            assert(v.m() * pow10(27) == 15 * pow10(27));
            lemma_pow10_positive(27);
            assert(v.m() == 15) by (nonlinear_arith)
                requires
                    v.m() * pow10(27) == 15 * pow10(27),
                    pow10(27) > 0,
            ;
            assert((y.m() * v.m()) % 1 == 0);
            assert(product_fits_after(y, v, 0));
        }
    }
    let r = checked_mul(y, v);
    proof {
        lemma_pow10_positive(27);
        if days >= 365 && days % 365 == 0 {
            let z = r->0.val();
            assert(z * pow10(28) == y.val() * pow10(28));
            assert(z == y.val()) by (nonlinear_arith)
                requires
                    z * pow10(28) == y.val() * pow10(28),
                    pow10(28) > 0,
            ;
        }
        if days == 0 && y.s() < 28 && abs(y.m() * 15) < two96() {
            let z = r->0.val();
            assert(z * pow10(28) == y.val() * (15 * pow10(27)));
            assert(z * 2 == y.val() * 3) by (nonlinear_arith)
                requires
                    z * pow10(28) == y.val() * (15 * pow10(27)),
                    pow10(28) == 10 * pow10(27),
                    pow10(27) > 0,
            ;
        }
    }
    r
}

/// The yield threshold: the urgent one when cash exceeds the threshold share
/// of the portfolio.
pub open spec fn effective_min_yield(s: YieldMaximizerStrategy, free: Dec, pv: Dec) -> Option<Dec> {
    match decimal_checked_div(free, pv) {
        None => None,
        Some(ratio) => Some(if ratio.val() > s.cash_urgency_threshold.val() { s.min_yield_urgent } else { s.min_yield }),
    }
}

/// Whether a candidate is ranked by its score: its yield is the bond's
/// yield, its price the market price, and its rank the score of that yield
/// for the days to the bond's effective maturity.
pub open spec fn ranked_by_score(
    current_date: Date,
    infos: Seq<(Seq<char>, BondPersistentInfo)>,
    prices: Seq<(Seq<char>, Dec)>,
    yields: Seq<(Seq<char>, Dec)>,
    c: CandidateView,
) -> bool {
    &&& c.yield_xirr == yield_of(yields, c.isin)
    &&& lookup(prices, c.isin) == Some(c.price)
    &&& exists|k: int| 0 <= k < infos.len() && #[trigger] infos[k].0 == c.isin
        && (effective_maturity_spec(infos[k].1) matches Some(m)
            && score_spec(c.yield_xirr, (m - current_date) as i64) == Some(c.rank))
}

impl YieldMaximizerStrategy {
    /// The yield threshold for the free cash and the portfolio value: the
    /// urgent one exactly when the cash share `free / pv` exceeds the
    /// urgency threshold (where that share is computed without rounding).
    pub fn min_yield_for(&self, free: Dec, pv: Dec) -> (r: Option<Dec>)
        ensures
            r == effective_min_yield(*self, free, pv),
            pv.val() > 0 && abs(pv.m()) < two32() && (exists|k: nat| #[trigger] quotient_fits_at(free, pv, k))
                ==> r == Some(if free.val() * pow10(28) > self.cash_urgency_threshold.val() * pv.val() {
                    self.min_yield_urgent
                } else {
                    self.min_yield
                }),
    {
        proof {
            lemma_pow10_positive(28);
            if pv.val() > 0 && abs(pv.m()) < two32() && (exists|k: nat| #[trigger] quotient_fits_at(free, pv, k)) {
                let k = choose|k: nat| #[trigger] quotient_fits_at(free, pv, k);
                assert(quotient_fits_at(free, pv, k));
            }
        }
        let ratio = match checked_div(free, pv) {
            None => return None,
            Some(r) => r,
        };
        proof {
            if pv.val() > 0 && abs(pv.m()) < two32() && (exists|k: nat| #[trigger] quotient_fits_at(free, pv, k)) {
                let x = ratio.val();
                let t = self.cash_urgency_threshold.val();
                let p = pv.val();
                assert(x * p == free.val() * pow10(28));
                assert((x > t) == (x * p > t * p)) by (nonlinear_arith)
                    requires
                        p > 0,
                ;
            }
        }
        Some(if lt(self.cash_urgency_threshold, ratio) { self.min_yield_urgent } else { self.min_yield })
    }

    /// Whether (and as what) a bond is a candidate: not subordinated, priced
    /// above zero, not in default, priced within the percent range, maturing
    /// by the hard deadline and not too soon, yielding within the range, and
    /// traded at least the minimum volume today.
    pub open spec fn candidate_spec(
        self,
        current_date: Date,
        min_yield: Dec,
        isin: Seq<char>,
        info: BondPersistentInfo,
        prices: Seq<(Seq<char>, Dec)>,
        volumes: Seq<(Seq<char>, i64)>,
        yields: Seq<(Seq<char>, Dec)>,
    ) -> Option<Option<CandidateView>> {
        if info.bond_info.is_subordinated == Some(true) {
            Some(None)
        } else {
            match lookup(prices, isin) {
                None => Some(None),
                Some(price) => if price.val() <= 0 || info.bond_info.default_date is Some {
                    Some(None)
                } else {
                    match price_percent_spec(price, info.bond_info.facevalue) {
                        None => None,
                        Some(pct) => if pct.val() < self.min_price_pct.val() || pct.val() > self.max_price_pct.val() {
                            Some(None)
                        } else {
                            match effective_maturity_spec(info) {
                                None => Some(None),
                                Some(maturity) => {
                                    let days = maturity - current_date;
                                    let y = yield_of(yields, isin);
                                    let volume = match lookup(volumes, isin) {
                                        Some(v) => v,
                                        None => 0,
                                    };
                                    if maturity > self.hard_deadline || days < self.min_days_to_maturity
                                        || y.val() < min_yield.val() || y.val() > self.max_yield.val()
                                        || volume < self.min_volume_for_buy {
                                        Some(None)
                                    } else {
                                        match score_spec(y, days as i64) {
                                            None => None,
                                            Some(rank) => Some(Some(CandidateView { isin, yield_xirr: y, rank, price, max_buy: volume })),
                                        }
                                    }
                                },
                            }
                        },
                    }
                },
            }
        }
    }

    /// The candidates, in the order of the bonds.
    pub open spec fn candidates_spec(
        self,
        current_date: Date,
        min_yield: Dec,
        infos: Seq<(Seq<char>, BondPersistentInfo)>,
        prices: Seq<(Seq<char>, Dec)>,
        volumes: Seq<(Seq<char>, i64)>,
        yields: Seq<(Seq<char>, Dec)>,
    ) -> Option<Seq<CandidateView>>
        decreases infos.len(),
    {
        if infos.len() == 0 {
            Some(Seq::empty())
        } else {
            match self.candidates_spec(current_date, min_yield, infos.drop_last(), prices, volumes, yields) {
                None => None,
                Some(cs) => match self.candidate_spec(current_date, min_yield, infos.last().0, infos.last().1, prices, volumes, yields) {
                    None => None,
                    Some(None) => Some(cs),
                    Some(Some(c)) => Some(cs.push(c)),
                },
            }
        }
    }

    /// A failed prefix makes the candidate fold fail.
    pub proof fn lemma_candidates_none_stays(
        self,
        current_date: Date,
        min_yield: Dec,
        infos: Seq<(Seq<char>, BondPersistentInfo)>,
        prices: Seq<(Seq<char>, Dec)>,
        volumes: Seq<(Seq<char>, i64)>,
        yields: Seq<(Seq<char>, Dec)>,
        k: int,
    )
        requires
            0 <= k <= infos.len(),
            self.candidates_spec(current_date, min_yield, infos.take(k), prices, volumes, yields) is None,
        ensures
            self.candidates_spec(current_date, min_yield, infos, prices, volumes, yields) is None,
        decreases infos.len() - k,
    {
        if k < infos.len() {
            assert(infos.take(k + 1).drop_last() =~= infos.take(k));
            self.lemma_candidates_none_stays(current_date, min_yield, infos, prices, volumes, yields, k + 1);
        } else {
            assert(infos.take(k) =~= infos);
        }
    }

    /// Whether a bond is a candidate (`None` on decimal overflow).
    fn candidate_of(
        &self,
        current_date: Date,
        min_yield: Dec,
        isin: &String,
        info: &BondPersistentInfo,
        prices: &IsinMap<Dec>,
        volumes: &IsinMap<i64>,
        yields: &IsinMap<Dec>,
    ) -> (c: Option<Option<Candidate>>)
        ensures
            c is Some <==> self.candidate_spec(current_date, min_yield, isin@, *info, prices@, volumes@, yields@) is Some,
            c is Some ==> (c->0 is Some <==> self.candidate_spec(current_date, min_yield, isin@, *info, prices@, volumes@, yields@)->0 is Some),
            c is Some && c->0 is Some ==> cand_view(c->0->0) == self.candidate_spec(current_date, min_yield, isin@, *info, prices@, volumes@, yields@)->0->0,
    {
        if info.bond_info.is_subordinated == Some(true) {
            return Some(None);
        }
        let price = match prices.get(isin) {
            None => return Some(None),
            Some(p) => p,
        };
        if !is_positive(price) || info.bond_info.default_date.is_some() {
            return Some(None);
        }
        let pct = match price_percent(price, info.bond_info.facevalue) {
            None => return None,
            Some(p) => p,
        };
        if lt(pct, self.min_price_pct) || lt(self.max_price_pct, pct) {
            return Some(None);
        }
        let maturity = match effective_maturity(info) {
            None => return Some(None),
            Some(m) => m,
        };
        let days: i64 = maturity as i64 - current_date as i64;
        let y = yield_in(yields, isin);
        let volume: i64 = match volumes.get(isin) {
            Some(v) => v,
            None => 0,
        };
        if maturity > self.hard_deadline || days < self.min_days_to_maturity || lt(y, min_yield)
            || lt(self.max_yield, y) || volume < self.min_volume_for_buy {
            return Some(None);
        }
        match score(y, days) {
            None => None,
            Some(rank) => Some(Some(Candidate { isin: isin.clone(), yield_xirr: y, rank, price, max_buy: volume })),
        }
    }

    /// The candidates (`None` on decimal overflow).
    fn candidate_list(
        &self,
        current_date: Date,
        min_yield: Dec,
        infos: &IsinMap<BondPersistentInfo>,
        prices: &IsinMap<Dec>,
        volumes: &IsinMap<i64>,
        yields: &IsinMap<Dec>,
    ) -> (c: Option<Vec<Candidate>>)
        ensures
            c is Some <==> self.candidates_spec(current_date, min_yield, infos@, prices@, volumes@, yields@) is Some,
            c is Some ==> cands_view(c->0@) == self.candidates_spec(current_date, min_yield, infos@, prices@, volumes@, yields@)->0,
    {
        let n = infos.len();
        let mut cands: Vec<Candidate> = Vec::new();
        let mut i: usize = 0;
        while i < n
            invariant
                n == infos@.len(),
                i <= n,
                min_yield == min_yield,
                self.candidates_spec(current_date, min_yield, infos@.take(i as int), prices@, volumes@, yields@) == Some(cands_view(cands@)),
            decreases n - i,
        {
            assert(infos@.take(i + 1).drop_last() =~= infos@.take(i as int));
            assert(infos@.take(i + 1).last() == infos@[i as int]);
            match self.candidate_of(current_date, min_yield, infos.key_at(i), infos.value_ref(i), prices, volumes, yields) {
                None => {
                    proof {
                        self.lemma_candidates_none_stays(current_date, min_yield, infos@, prices@, volumes@, yields@, i + 1);
                    }
                    return None;
                },
                Some(None) => {},
                Some(Some(c)) => {
                    let ghost before = cands@;
                    cands.push(c);
                    assert(cands_view(cands@) =~= cands_view(before).push(cand_view(c)));
                },
            }
            i = i + 1;
        }
        assert(infos@.take(n as int) =~= infos@);
        Some(cands)
    }

    /// The orders: purchases of the ranked candidates with the free cash,
    /// each purchase adding to the bond's weight; nothing when the portfolio
    /// is worth nothing; `None` on decimal overflow.
    pub open spec fn trades_spec(
        self,
        current_date: Date,
        portfolio: PortfolioView,
        infos: Seq<(Seq<char>, BondPersistentInfo)>,
        prices: Seq<(Seq<char>, Dec)>,
        volumes: Seq<(Seq<char>, i64)>,
        yields: Seq<(Seq<char>, Dec)>,
    ) -> Option<Seq<OrderView>> {
        match market_price_spec(portfolio.free_money, portfolio.bonds_count, prices) {
            None => None,
            Some(pv) => if pv.val() <= 0 {
                Some(Seq::empty())
            } else {
                match (
                    initial_weights_spec(portfolio.bonds_count, prices, pv),
                    effective_min_yield(self, portfolio.free_money, pv),
                ) {
                    (Some(weights), Some(min_yield)) => match (
                        self.candidates_spec(current_date, min_yield, infos, prices, volumes, yields),
                        decimal_checked_mul(pv, self.max_weight),
                    ) {
                        (Some(cands), Some(max_position_value)) => {
                            let a = Allocation { portfolio_value: pv, max_position_value, update_weights: true };
                            match allocate_spec(ranked(cands), portfolio.free_money, weights, a) {
                                None => None,
                                Some(_) => Some(allocation_orders(ranked(cands), portfolio.free_money, weights, a)),
                            }
                        },
                        _ => None,
                    },
                    _ => None,
                }
            },
        }
    }
}

impl Strategy for YieldMaximizerStrategy {
    open spec fn decision(
        &self,
        current_date: Date,
        portfolio: PortfolioView,
        infos: Seq<(Seq<char>, BondPersistentInfo)>,
        prices: Seq<(Seq<char>, Dec)>,
        volumes: Seq<(Seq<char>, i64)>,
        yields: Seq<(Seq<char>, Dec)>,
    ) -> Option<Seq<OrderView>> {
        self.trades_spec(current_date, portfolio, infos, prices, volumes, yields)
    }

    /// Buying at the price and receiving every positive payment more than
    /// three days ahead; a non-positive price, or no such payment, gives -1.
    fn yield_inputs(&self, price: Dec, current_date: Date, info: &BondPersistentInfo) -> (r: Option<CashFlows>)
        ensures
            r is Some <==> (price.val() > 0 && purchase_flows(price, current_date, info.payments@, current_date + 3, true).len() >= 2),
            r is Some ==> flows_view(r->0) == purchase_flows(price, current_date, info.payments@, current_date + 3, true),
    {
        if !is_positive(price) {
            return None;
        }
        let flows = purchase_cash_flows(price, current_date, info, 3, true);
        if flows.amounts.len() < 2 {
            None
        } else {
            Some(flows)
        }
    }

    fn decide_trades(
        &self,
        current_date: Date,
        portfolio: &Portfolio,
        bonds_info: &IsinMap<BondPersistentInfo>,
        bonds_prices: &IsinMap<Dec>,
        bonds_volumes: &IsinMap<i64>,
        yields: &IsinMap<Dec>,
    ) -> (o: Option<Vec<MarketOrder>>)
        ensures
            o is Some <==> self.trades_spec(current_date, portfolio_view(*portfolio), bonds_info@, bonds_prices@, bonds_volumes@, yields@) is Some,
            o is Some ==> orders_view(o->0@) == self.trades_spec(current_date, portfolio_view(*portfolio), bonds_info@, bonds_prices@, bonds_volumes@, yields@)->0,
    {
        let pv = match portfolio.market_price(bonds_prices) {
            None => return None,
            Some(v) => v,
        };
        if !is_positive(pv) {
            let none: Vec<MarketOrder> = Vec::new();
            assert(orders_view(none@) =~= Seq::<OrderView>::empty());
            return Some(none);
        }
        let weights = match initial_weights(portfolio, bonds_prices, pv) {
            None => return None,
            Some(w) => w,
        };
        let min_yield = match self.min_yield_for(portfolio.free_money, pv) {
            None => return None,
            Some(y) => y,
        };
        let cands = match self.candidate_list(current_date, min_yield, bonds_info, bonds_prices, bonds_volumes, yields) {
            None => return None,
            Some(c) => c,
        };
        let ranked_cands = rank_candidates(cands);
        let max_position_value = match checked_mul(pv, self.max_weight) {
            None => return None,
            Some(m) => m,
        };
        let a = Allocation { portfolio_value: pv, max_position_value, update_weights: true };
        match allocate(&ranked_cands, portfolio.free_money, weights, &a) {
            None => None,
            Some(spent) => Some(spent.orders),
        }
    }
}

/// The day 2026-03-31, counted from 0001-01-01 as day 1.
pub const HARD_DEADLINE: Date = 739706;

impl Default for YieldMaximizerStrategy {
    /// At most 5% in one bond, at least 14 days to maturity, prices from 75%
    /// to 120% of par, yields from 1% to 45% (from 0.5% when more than 25% of
    /// the portfolio is cash), a day volume of at least 50, and nothing
    /// maturing after 2026-03-31.
    fn default() -> (r: Self)
        ensures
            r.max_weight.m() == 5 && r.max_weight.s() == 2,
            r.min_days_to_maturity == 14,
            r.min_price_pct.m() == 75 && r.min_price_pct.s() == 0,
            r.max_price_pct.m() == 120 && r.max_price_pct.s() == 0,
            r.min_yield.m() == 1 && r.min_yield.s() == 2,
            r.max_yield.m() == 45 && r.max_yield.s() == 2,
            r.min_yield_urgent.m() == 5 && r.min_yield_urgent.s() == 3,
            r.cash_urgency_threshold.m() == 25 && r.cash_urgency_threshold.s() == 2,
            r.min_volume_for_buy == 50,
            r.hard_deadline == HARD_DEADLINE,
    {
        YieldMaximizerStrategy {
            max_weight: Dec::new(5, 2).unwrap(),
            min_days_to_maturity: 14,
            min_price_pct: Dec::new(75, 0).unwrap(),
            max_price_pct: Dec::new(120, 0).unwrap(),
            min_yield: Dec::new(1, 2).unwrap(),
            max_yield: Dec::new(45, 2).unwrap(),
            min_yield_urgent: Dec::new(5, 3).unwrap(),
            cash_urgency_threshold: Dec::new(25, 2).unwrap(),
            min_volume_for_buy: 50,
            hard_deadline: HARD_DEADLINE,
        }
    }
}

/// Whether a bond is one of the strategy's bonds that matures by the hard
/// deadline and does not yield above the maximum.
pub open spec fn within_limits(
    s: YieldMaximizerStrategy,
    infos: Seq<(Seq<char>, BondPersistentInfo)>,
    yields: Seq<(Seq<char>, Dec)>,
    isin: Seq<char>,
) -> bool {
    &&& exists|k: int| 0 <= k < infos.len() && #[trigger] infos[k].0 == isin && match effective_maturity_spec(infos[k].1) {
        Some(m) => m <= s.hard_deadline,
        None => false,
    }
    &&& yield_of(yields, isin).val() <= s.max_yield.val()
}

/// Whether a bond passes the other purchase filters of the yield maximizer
/// at a yield threshold: priced above zero and within the percent range, not
/// subordinated, not in default, maturing no sooner than the minimum number of
/// days, yielding at least the threshold, and traded at least the minimum
/// volume today (no volume counts as none).
pub open spec fn meets_yield_rules(
    s: YieldMaximizerStrategy,
    current_date: Date,
    min_yield: Dec,
    infos: Seq<(Seq<char>, BondPersistentInfo)>,
    prices: Seq<(Seq<char>, Dec)>,
    volumes: Seq<(Seq<char>, i64)>,
    yields: Seq<(Seq<char>, Dec)>,
    isin: Seq<char>,
) -> bool {
    &&& lookup(prices, isin) matches Some(p) && p.val() > 0
    &&& exists|k: int| 0 <= k < infos.len() && #[trigger] infos[k].0 == isin && {
        let info = infos[k].1;
        &&& info.bond_info.is_subordinated != Some(true)
        &&& info.bond_info.default_date is None
        &&& (price_percent_spec(lookup(prices, isin)->0, info.bond_info.facevalue) matches Some(pct)
            && s.min_price_pct.val() <= pct.val() <= s.max_price_pct.val())
        &&& (effective_maturity_spec(info) matches Some(m) && m - current_date >= s.min_days_to_maturity)
    }
    &&& yield_of(yields, isin).val() >= min_yield.val()
    &&& (match lookup(volumes, isin) {
        Some(v) => v,
        None => 0,
    }) >= s.min_volume_for_buy
}

impl YieldMaximizerStrategy {
    /// Every candidate passes the purchase filters at the threshold, and is
    /// ranked by its score.
    pub proof fn lemma_candidates_meet_rules(
        self,
        current_date: Date,
        min_yield: Dec,
        infos: Seq<(Seq<char>, BondPersistentInfo)>,
        prices: Seq<(Seq<char>, Dec)>,
        volumes: Seq<(Seq<char>, i64)>,
        yields: Seq<(Seq<char>, Dec)>,
    )
        requires
            self.candidates_spec(current_date, min_yield, infos, prices, volumes, yields) is Some,
        ensures
            forall|i: int| 0 <= i < self.candidates_spec(current_date, min_yield, infos, prices, volumes, yields)->0.len()
                ==> meets_yield_rules(self, current_date, min_yield, infos, prices, volumes, yields,
                    (#[trigger] self.candidates_spec(current_date, min_yield, infos, prices, volumes, yields)->0[i]).isin),
            forall|i: int| 0 <= i < self.candidates_spec(current_date, min_yield, infos, prices, volumes, yields)->0.len()
                ==> ranked_by_score(current_date, infos, prices, yields,
                    #[trigger] self.candidates_spec(current_date, min_yield, infos, prices, volumes, yields)->0[i]),
        decreases infos.len(),
    {
        if infos.len() > 0 {
            let t = infos.drop_last();
            self.lemma_candidates_meet_rules(current_date, min_yield, t, prices, volumes, yields);
            let cs = self.candidates_spec(current_date, min_yield, infos, prices, volumes, yields)->0;
            let prev = self.candidates_spec(current_date, min_yield, t, prices, volumes, yields)->0;
            assert forall|i: int| 0 <= i < cs.len() implies ranked_by_score(current_date, infos, prices, yields, #[trigger] cs[i]) by {
                if i < prev.len() {
                    assert(cs[i] == prev[i]);
                    let k = choose|k: int| 0 <= k < t.len() && #[trigger] t[k].0 == prev[i].isin
                        && (effective_maturity_spec(t[k].1) matches Some(m)
                            && score_spec(prev[i].yield_xirr, (m - current_date) as i64) == Some(prev[i].rank));
                    assert(infos[k] == t[k]);
                } else {
                    let k = infos.len() - 1;
                    assert(infos[k] == infos.last());
                }
            }
            assert forall|i: int| 0 <= i < cs.len() implies meets_yield_rules(self, current_date, min_yield, infos, prices,
                volumes, yields, (#[trigger] cs[i]).isin) by {
                if i < prev.len() {
                    assert(cs[i] == prev[i]);
                    let k = choose|k: int| 0 <= k < t.len() && #[trigger] t[k].0 == prev[i].isin && {
                        let info = t[k].1;
                        &&& info.bond_info.is_subordinated != Some(true)
                        &&& info.bond_info.default_date is None
                        &&& (price_percent_spec(lookup(prices, prev[i].isin)->0, info.bond_info.facevalue) matches Some(pct)
                            && self.min_price_pct.val() <= pct.val() <= self.max_price_pct.val())
                        &&& (effective_maturity_spec(info) matches Some(m) && m - current_date >= self.min_days_to_maturity)
                    };
                    assert(infos[k] == t[k]);
                } else {
                    let k = infos.len() - 1;
                    assert(infos[k] == infos.last());
                }
            }
        }
    }

    /// Every candidate is within the limits.
    pub proof fn lemma_candidates_within_limits(
        self,
        current_date: Date,
        min_yield: Dec,
        infos: Seq<(Seq<char>, BondPersistentInfo)>,
        prices: Seq<(Seq<char>, Dec)>,
        volumes: Seq<(Seq<char>, i64)>,
        yields: Seq<(Seq<char>, Dec)>,
    )
        requires
            self.candidates_spec(current_date, min_yield, infos, prices, volumes, yields) is Some,
        ensures
            forall|i: int| 0 <= i < self.candidates_spec(current_date, min_yield, infos, prices, volumes, yields)->0.len()
                ==> within_limits(self, infos, yields, (#[trigger] self.candidates_spec(current_date, min_yield, infos, prices, volumes, yields)->0[i]).isin),
        decreases infos.len(),
    {
        if infos.len() > 0 {
            let t = infos.drop_last();
            self.lemma_candidates_within_limits(current_date, min_yield, t, prices, volumes, yields);
            let cs = self.candidates_spec(current_date, min_yield, infos, prices, volumes, yields)->0;
            let prev = self.candidates_spec(current_date, min_yield, t, prices, volumes, yields)->0;
            assert forall|i: int| 0 <= i < cs.len() implies within_limits(self, infos, yields, (#[trigger] cs[i]).isin) by {
                if i < prev.len() {
                    assert(cs[i] == prev[i]);
                    let k = choose|k: int| 0 <= k < t.len() && #[trigger] t[k].0 == prev[i].isin && match effective_maturity_spec(t[k].1) {
                        Some(m) => m <= self.hard_deadline,
                        None => false,
                    };
                    assert(infos[k] == t[k]);
                } else {
                    let k = infos.len() - 1;
                    assert(infos[k] == infos.last());
                }
            }
        }
    }
}

/// The yield maximizer only buys, and only bonds that mature by its hard
/// deadline, yield no more than its maximum and pass its other purchase
/// filters, the yield threshold being the urgent one exactly when cash exceeds
/// the threshold share of the portfolio value.
pub proof fn law_yield_maximizer_buys_within_limits(
    s: YieldMaximizerStrategy,
    current_date: Date,
    portfolio: PortfolioView,
    infos: Seq<(Seq<char>, BondPersistentInfo)>,
    prices: Seq<(Seq<char>, Dec)>,
    volumes: Seq<(Seq<char>, i64)>,
    yields: Seq<(Seq<char>, Dec)>,
)
    requires
        s.trades_spec(current_date, portfolio, infos, prices, volumes, yields) is Some,
    ensures
        forall|i: int| 0 <= i < s.trades_spec(current_date, portfolio, infos, prices, volumes, yields)->0.len() ==> {
            let o = #[trigger] s.trades_spec(current_date, portfolio, infos, prices, volumes, yields)->0[i];
            &&& o.order_type == MarketOrderType::Buy
            &&& within_limits(s, infos, yields, o.isin)
            &&& meets_yield_rules(s, current_date, effective_min_yield(s, portfolio.free_money,
                market_price_spec(portfolio.free_money, portfolio.bonds_count, prices)->0)->0, infos, prices, volumes,
                yields, o.isin)
        },
{
    let pv = market_price_spec(portfolio.free_money, portfolio.bonds_count, prices)->0;
    if pv.val() > 0 {
        let weights = initial_weights_spec(portfolio.bonds_count, prices, pv)->0;
        let min_yield = effective_min_yield(s, portfolio.free_money, pv)->0;
        let cands = s.candidates_spec(current_date, min_yield, infos, prices, volumes, yields)->0;
        let max_position_value = decimal_checked_mul(pv, s.max_weight)->0;
        let a = Allocation { portfolio_value: pv, max_position_value, update_weights: true };
        let os = allocation_orders(ranked(cands), portfolio.free_money, weights, a);
        assert(s.trades_spec(current_date, portfolio, infos, prices, volumes, yields)->0 == os);
        law_allocation_orders_are_bounded_buys(ranked(cands), portfolio.free_money, weights, a);
        s.lemma_candidates_within_limits(current_date, min_yield, infos, prices, volumes, yields);
        s.lemma_candidates_meet_rules(current_date, min_yield, infos, prices, volumes, yields);
        assert forall|i: int| 0 <= i < os.len() implies {
            let o = #[trigger] os[i];
            &&& o.order_type == MarketOrderType::Buy
            &&& within_limits(s, infos, yields, o.isin)
            &&& meets_yield_rules(s, current_date, min_yield, infos, prices, volumes, yields, o.isin)
        } by {
            let o = os[i];
            let k = choose|k: int| 0 <= k < ranked(cands).len() && #[trigger] ranked(cands)[k].isin == o.isin
                && o.count <= ranked(cands)[k].max_buy;
            lemma_ranked_members(cands, k);
            let m = choose|m: int| 0 <= m < cands.len() && cands[m] == ranked(cands)[k];
            assert(within_limits(s, infos, yields, cands[m].isin));
            assert(meets_yield_rules(s, current_date, min_yield, infos, prices, volumes, yields, cands[m].isin));
        }
    }
}

} // verus!
