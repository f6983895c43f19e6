//! The most profitable bond: sell everything priced, then put the whole
//! portfolio value into the bond with the highest positive yield.
use crate::decimal::{abs, checked_div, int_part, is_positive, lt, quotient_fits_at, to_i64, two32, decimal_checked_div, Dec};
use crate::keyed_map::{lookup, IsinMap};
use crate::model::{market_price_spec, portfolio_view, BondPersistentInfo, Date, MarketOrder, MarketOrderType, Portfolio, PortfolioView};
use crate::strategy::{
    flows_view, order_view, orders_view, purchase_cash_flows, purchase_flows, yield_in, yield_of,
    CashFlows, OrderView, Strategy,
};
use vstd::prelude::*;

verus! {

/// The bonds with a positive price and their yields, in the order of the
/// bonds.
pub open spec fn priced_yields(
    infos: Seq<(Seq<char>, BondPersistentInfo)>,
    prices: Seq<(Seq<char>, Dec)>,
    yields: Seq<(Seq<char>, Dec)>,
) -> Seq<(Seq<char>, Dec)>
    decreases infos.len(),
{
    if infos.len() == 0 {
        Seq::empty()
    } else {
        let rest = priced_yields(infos.drop_last(), prices, yields);
        let isin = infos.last().0;
        match lookup(prices, isin) {
            Some(p) => if p.val() > 0 {
                rest.push((isin, yield_of(yields, isin)))
            } else {
                rest
            },
            None => rest,
        }
    }
}

/// The entry with the highest yield; of equal ones, the last
/// (`Iterator::max_by`).
pub open spec fn best_of(s: Seq<(Seq<char>, Dec)>) -> Option<(Seq<char>, Dec)>
    decreases s.len(),
{
    if s.len() == 0 {
        None
    } else {
        match best_of(s.drop_last()) {
            None => Some(s.last()),
            Some(b) => if s.last().1.val() >= b.1.val() {
                Some(s.last())
            } else {
                Some(b)
            },
        }
    }
}

/// Sales of every positive holding that has a price, in full.
pub open spec fn sell_all_spec(counts: Seq<(Seq<char>, i64)>, prices: Seq<(Seq<char>, Dec)>) -> Seq<OrderView>
    decreases counts.len(),
{
    if counts.len() == 0 {
        Seq::empty()
    } else {
        let rest = sell_all_spec(counts.drop_last(), prices);
        let (isin, count) = counts.last();
        if count > 0 && lookup(prices, isin) is Some {
            rest.push(OrderView { isin, order_type: MarketOrderType::Sell, count })
        } else {
            rest
        }
    }
}

/// The number of the best bond to buy: the portfolio value over its price,
/// capped by the day's volume and by the issue volume when these are
/// positive.
pub open spec fn capped_count(n: int, volume: Option<i64>, issue_volume: Option<i64>) -> int {
    let by_volume = match volume {
        Some(v) => if v > 0 && n > v { v as int } else { n },
        None => n,
    };
    match issue_volume {
        Some(v) => if v > 0 && by_volume > v { v as int } else { by_volume },
        None => by_volume,
    }
}

/// The issue volume recorded for a bond.
pub open spec fn issue_volume_of(infos: Seq<(Seq<char>, BondPersistentInfo)>, isin: Seq<char>) -> Option<i64> {
    match lookup(infos, isin) {
        Some(info) => info.bond_info.issue_volume,
        None => None,
    }
}

/// The orders: sell every priced holding, then buy the bond with the highest
/// positive yield for the whole market value of the portfolio.  `None` when
/// the value overflows or the count does not fit in an `i64`.
pub open spec fn most_profitable_spec(
    portfolio: PortfolioView,
    infos: Seq<(Seq<char>, BondPersistentInfo)>,
    prices: Seq<(Seq<char>, Dec)>,
    volumes: Seq<(Seq<char>, i64)>,
    yields: Seq<(Seq<char>, Dec)>,
) -> Option<Seq<OrderView>> {
    match market_price_spec(portfolio.free_money, portfolio.bonds_count, prices) {
        None => None,
        Some(pmp) => {
            let sells = sell_all_spec(portfolio.bonds_count, prices);
            match best_of(priced_yields(infos, prices, yields)) {
                None => Some(sells),
                Some((isin, y)) => if y.val() <= 0 {
                    Some(sells)
                } else {
                    match decimal_checked_div(pmp, lookup(prices, isin)->0) {
                        None => None,
                        Some(q) => if int_part(q) < i64::MIN || int_part(q) > i64::MAX {
                            None
                        } else {
                            let count = capped_count(int_part(q), lookup(volumes, isin), issue_volume_of(infos, isin));
                            if count > 0 {
                                Some(sells.push(OrderView { isin, order_type: MarketOrderType::Buy, count: count as i64 }))
                            } else {
                                Some(sells)
                            }
                        },
                    }
                },
            }
        },
    }
}

/// The best bond so far: its index among the bonds, and its yield.
#[derive(Clone, Copy)]
pub struct Best {
    pub index: usize,
    pub yield_xirr: Dec,
    pub price: Dec,
}

/// Buys the bond with the highest yield.
pub struct MostProfitableBondStrategy;

impl Strategy for MostProfitableBondStrategy {
    open spec fn decision(
        &self,
        current_date: Date,
        portfolio: PortfolioView,
        infos: Seq<(Seq<char>, BondPersistentInfo)>,
        prices: Seq<(Seq<char>, Dec)>,
        volumes: Seq<(Seq<char>, i64)>,
        yields: Seq<(Seq<char>, Dec)>,
    ) -> Option<Seq<OrderView>> {
        most_profitable_spec(portfolio, infos, prices, volumes, yields)
    }

    /// Buying at the price and receiving every payment more than five days
    /// ahead.
    fn yield_inputs(&self, price: Dec, current_date: Date, info: &BondPersistentInfo) -> (r: Option<CashFlows>)
        ensures
            r is Some,
            flows_view(r->0) == purchase_flows(price, current_date, info.payments@, current_date + 5, false),
    {
        Some(purchase_cash_flows(price, current_date, info, 5, false))
    }

    fn decide_trades(
        &self,
        current_date: Date,
        portfolio: &Portfolio,
        bonds_info: &IsinMap<BondPersistentInfo>,
        bonds_prices: &IsinMap<Dec>,
        bonds_volumes: &IsinMap<i64>,
        yields: &IsinMap<Dec>,
    ) -> (o: Option<Vec<MarketOrder>>)
        ensures
            o is Some <==> most_profitable_spec(portfolio_view(*portfolio), bonds_info@, bonds_prices@, bonds_volumes@, yields@) is Some,
            o is Some ==> orders_view(o->0@) == most_profitable_spec(portfolio_view(*portfolio), bonds_info@, bonds_prices@, bonds_volumes@, yields@)->0,
            ({
                let os = orders_view(o->0@);
                let pmp = market_price_spec(portfolio.free_money, portfolio.bonds_count@, bonds_prices@)->0;
                let b = os.last();
                let p = lookup(bonds_prices@, b.isin)->0;
                let vol = lookup(bonds_volumes@, b.isin);
                let iv = issue_volume_of(bonds_info@, b.isin);
                o is Some && os.len() > 0 && b.order_type == MarketOrderType::Buy && abs(p.m()) < two32()
                    && (exists|k: nat| #[trigger] quotient_fits_at(pmp, p, k)) ==> {
                    &&& b.count * p.val() <= pmp.val()
                    &&& (vol is None || vol->0 <= 0 || b.count < vol->0) && (iv is None || iv->0 <= 0 || b.count < iv->0)
                        ==> pmp.val() < (b.count + 1) * p.val()
                }
            }),
    {
        // The best priced bond so far (by index into the bonds) and its yield.
        let n = bonds_info.len();
        let mut best: Option<Best> = None;
        let mut i: usize = 0;
        while i < n
            invariant
                n == bonds_info@.len(),
                i <= n,
                best is Some ==> best->0.index < n,
                best is Some ==> lookup(bonds_prices@, bonds_info@[best->0.index as int].0) == Some(best->0.price),
                best is Some ==> best->0.price.val() > 0,
                best_of(priced_yields(bonds_info@.take(i as int), bonds_prices@, yields@)) == match best {
                    None => None::<(Seq<char>, Dec)>,
                    Some(b) => Some((bonds_info@[b.index as int].0, b.yield_xirr)),
                },
            decreases n - i,
        {
            assert(bonds_info@.take(i + 1).drop_last() =~= bonds_info@.take(i as int));
            assert(bonds_info@.take(i + 1).last() == bonds_info@[i as int]);
            let isin = bonds_info.key_at(i);
            let ghost rest = priced_yields(bonds_info@.take(i as int), bonds_prices@, yields@);
            match bonds_prices.get(isin) {
                Some(p) => {
                    if is_positive(p) {
                        let y = yield_in(yields, isin);
                        assert(rest.push((isin@, y)).drop_last() =~= rest);
                        best = match best {
                            None => Some(Best { index: i, yield_xirr: y, price: p }),
                            Some(b) => if !lt(y, b.yield_xirr) { Some(Best { index: i, yield_xirr: y, price: p }) } else { Some(b) },
                        };
                    }
                },
                None => {},
            }
            i = i + 1;
        }
        assert(bonds_info@.take(n as int) =~= bonds_info@);
        let pmp = match portfolio.market_price(bonds_prices) {
            None => return None,
            Some(v) => v,
        };
        let mut orders = sell_all(portfolio, bonds_prices);
        proof {
            law_sell_all_sells_held_bonds(portfolio.bonds_count@, bonds_prices@);
            if orders_view(orders@).len() > 0 {
                let last = orders_view(orders@).len() - 1;
                assert(orders_view(orders@)[last] == orders_view(orders@).last());
            }
        }
        match best {
            None => Some(orders),
            Some(b) => {
                if !is_positive(b.yield_xirr) {
                    return Some(orders);
                }
                let isin = bonds_info.key_at(b.index);
                let price = b.price;
                let q = match checked_div(pmp, price) {
                    None => return None,
                    Some(q) => q,
                };
                let mut count = match to_i64(q) {
                    None => return None,
                    Some(c) => c,
                };
                if let Some(day_vol) = bonds_volumes.get(isin) {
                    if day_vol > 0 && count > day_vol {
                        count = day_vol;
                    }
                }
                proof {
                    crate::keyed_map::lemma_lookup_at(bonds_info@, b.index as int);
                }
                if let Some(issue_vol) = bonds_info.value_ref(b.index).bond_info.issue_volume {
                    if issue_vol > 0 && count > issue_vol {
                        count = issue_vol;
                    }
                }
                if count > 0 {
                    let ghost before = orders@;
                    let order = MarketOrder { isin: isin.clone(), order_type: MarketOrderType::Buy, count };
                    orders.push(order);
                    assert(orders_view(orders@) =~= orders_view(before).push(order_view(order)));
                    proof {
                        let vol = lookup(bonds_volumes@, isin@);
                        let iv = issue_volume_of(bonds_info@, isin@);
                        let n = int_part(q);
                        law_capped_count_within_volumes(n, vol, iv);
                        if abs(price.m()) < two32() && (exists|k: nat| #[trigger] quotient_fits_at(pmp, price, k)) {
                            let k = choose|k: nat| #[trigger] quotient_fits_at(pmp, price, k);
                            assert(quotient_fits_at(pmp, price, k));
                            crate::decimal::lemma_int_part_sign(q);
                            crate::decimal::lemma_sign_of_val(q);
                            use_type_invariant(&q);
                            crate::decimal::lemma_int_part_floor(q);
                            let big = crate::decimal::pow10(28);
                            crate::decimal::lemma_pow10_positive(28);
                            let pv = price.val();
                            let qv = q.val();
                            let c = count as int;
                            assert(qv * pv == pmp.val() * big);
                            assert(c <= n);
                            assert(c * pv <= pmp.val()) by (nonlinear_arith)
                                requires
                                    c <= n,
                                    n * big <= qv,
                                    qv * pv == pmp.val() * big,
                                    pv > 0,
                                    big > 0,
                                    c >= 0,
                            ;
                            if (vol is None || vol->0 <= 0 || c < vol->0) && (iv is None || iv->0 <= 0 || c < iv->0) {
                                assert(c == n);
                                assert(pmp.val() < (c + 1) * pv) by (nonlinear_arith)
                                    requires
                                        qv < (n + 1) * big,
                                        c == n,
                                        qv * pv == pmp.val() * big,
                                        pv > 0,
                                        big > 0,
                                ;
                            }
                        }
                    }
                }
                Some(orders)
            },
        }
    }
}

/// Sales of every positive holding that has a price.
pub fn sell_all(portfolio: &Portfolio, prices: &IsinMap<Dec>) -> (r: Vec<MarketOrder>)
    ensures
        orders_view(r@) == sell_all_spec(portfolio.bonds_count@, prices@),
{
    let counts = &portfolio.bonds_count;
    let n = counts.len();
    let mut orders: Vec<MarketOrder> = Vec::new();
    let mut i: usize = 0;
    while i < n
        invariant
            counts@ == portfolio.bonds_count@,
            n == counts@.len(),
            i <= n,
            sell_all_spec(counts@.take(i as int), prices@) == orders_view(orders@),
        decreases n - i,
    {
        assert(counts@.take(i + 1).drop_last() =~= counts@.take(i as int));
        assert(counts@.take(i + 1).last() == counts@[i as int]);
        let count = counts.value_at(i);
        let isin = counts.key_at(i);
        if count > 0 && prices.contains_key(isin) {
            let ghost before = orders@;
            let order = MarketOrder { isin: isin.clone(), order_type: MarketOrderType::Sell, count };
            orders.push(order);
            assert(orders_view(orders@) =~= orders_view(before).push(order_view(order)));
        }
        i = i + 1;
    }
    assert(counts@.take(n as int) =~= counts@);
    orders
}

/// The count of the best bond never exceeds a positive day volume nor a
/// positive issue volume, and is the whole count unless one of those caps
/// it (then it is that cap).
pub proof fn law_capped_count_within_volumes(n: int, volume: Option<i64>, issue_volume: Option<i64>)
    ensures
        capped_count(n, volume, issue_volume) <= n,
        issue_volume is Some && issue_volume->0 > 0 ==> capped_count(n, volume, issue_volume) <= issue_volume->0,
        volume is Some && volume->0 > 0 && (issue_volume is None || issue_volume->0 <= 0 || issue_volume->0
            >= volume->0) ==> capped_count(n, volume, issue_volume) <= volume->0,
        capped_count(n, volume, issue_volume) == n
            || (volume is Some && volume->0 > 0 && capped_count(n, volume, issue_volume) == volume->0)
            || (issue_volume is Some && issue_volume->0 > 0 && capped_count(n, volume, issue_volume) == issue_volume->0),
        (volume is None || volume->0 <= 0 || n <= volume->0) && (issue_volume is None || issue_volume->0 <= 0 || n
            <= issue_volume->0) ==> capped_count(n, volume, issue_volume) == n,
{
}

/// Selling everything sells each priced positive holding in full, and
/// nothing else.
pub proof fn law_sell_all_sells_held_bonds(counts: Seq<(Seq<char>, i64)>, prices: Seq<(Seq<char>, Dec)>)
    ensures
        forall|i: int| 0 <= i < sell_all_spec(counts, prices).len() ==> {
            let o = #[trigger] sell_all_spec(counts, prices)[i];
            &&& o.order_type == MarketOrderType::Sell
            &&& o.count > 0
            &&& exists|j: int| 0 <= j < counts.len() && #[trigger] counts[j] == (o.isin, o.count)
        },
    decreases counts.len(),
{
    if counts.len() > 0 {
        let t = counts.drop_last();
        law_sell_all_sells_held_bonds(t, prices);
        let s = sell_all_spec(counts, prices);
        let prev = sell_all_spec(t, prices);
        assert forall|i: int| 0 <= i < s.len() implies {
            let o = #[trigger] s[i];
            &&& o.order_type == MarketOrderType::Sell
            &&& o.count > 0
            &&& exists|j: int| 0 <= j < counts.len() && #[trigger] counts[j] == (o.isin, o.count)
        } by {
            if i < prev.len() {
                assert(s[i] == prev[i]);
                let j = choose|j: int| 0 <= j < t.len() && #[trigger] t[j] == (prev[i].isin, prev[i].count);
                assert(counts[j] == t[j]);
            } else {
                assert(counts[counts.len() - 1] == counts.last());
            }
        }
    }
}

/// The best entry is one of the entries, and no entry has a higher yield.
pub proof fn law_best_of_is_highest(s: Seq<(Seq<char>, Dec)>)
    ensures
        best_of(s) is None <==> s.len() == 0,
        best_of(s) matches Some(b) ==> exists|j: int| 0 <= j < s.len() && s[j] == b,
        best_of(s) matches Some(b) ==> forall|j: int| 0 <= j < s.len() ==> (#[trigger] s[j]).1.val() <= b.1.val(),
    decreases s.len(),
{
    if s.len() > 0 {
        let t = s.drop_last();
        law_best_of_is_highest(t);
        match best_of(t) {
            None => {
                assert(s[s.len() - 1] == s.last());
            },
            Some(b) => {
                let j0 = choose|j: int| 0 <= j < t.len() && t[j] == b;
                assert(s[j0] == t[j0]);
                assert(s[s.len() - 1] == s.last());
                let bs = best_of(s)->0;
                assert forall|j: int| 0 <= j < s.len() implies (#[trigger] s[j]).1.val() <= bs.1.val() by {
                    if j < t.len() {
                        assert(s[j] == t[j]);
                    }
                }
            },
        }
    }
}

/// The priced yields list each bond with a positive price, with its yield,
/// and nothing else.
pub proof fn lemma_priced_yields_members(
    infos: Seq<(Seq<char>, BondPersistentInfo)>,
    prices: Seq<(Seq<char>, Dec)>,
    yields: Seq<(Seq<char>, Dec)>,
)
    ensures
        forall|m: int| 0 <= m < priced_yields(infos, prices, yields).len() ==> {
            let e = #[trigger] priced_yields(infos, prices, yields)[m];
            &&& e.1 == yield_of(yields, e.0)
            &&& lookup(prices, e.0) matches Some(p) && p.val() > 0
        },
        forall|j: int| 0 <= j < infos.len() && (lookup(prices, #[trigger] infos[j].0) matches Some(p) && p.val() > 0)
            ==> exists|m: int| 0 <= m < priced_yields(infos, prices, yields).len()
                && priced_yields(infos, prices, yields)[m] == (infos[j].0, yield_of(yields, infos[j].0)),
    decreases infos.len(),
{
    if infos.len() > 0 {
        let t = infos.drop_last();
        lemma_priced_yields_members(t, prices, yields);
        let rest = priced_yields(t, prices, yields);
        let s = priced_yields(infos, prices, yields);
        assert forall|m: int| 0 <= m < s.len() implies {
            let e = #[trigger] s[m];
            &&& e.1 == yield_of(yields, e.0)
            &&& lookup(prices, e.0) matches Some(p) && p.val() > 0
        } by {
            if m < rest.len() {
                assert(s[m] == rest[m]);
            }
        }
        assert forall|j: int| 0 <= j < infos.len() && (lookup(prices, #[trigger] infos[j].0) matches Some(p) && p.val() > 0)
            implies exists|m: int| 0 <= m < s.len() && s[m] == (infos[j].0, yield_of(yields, infos[j].0)) by {
            if j < t.len() {
                assert(t[j] == infos[j]);
                let m0 = choose|m: int| 0 <= m < rest.len() && rest[m] == (t[j].0, yield_of(yields, t[j].0));
                assert(s[m0] == rest[m0]);
            } else {
                assert(infos[j] == infos.last());
                assert(s[s.len() - 1] == (infos[j].0, yield_of(yields, infos[j].0)));
            }
        }
    }
}

/// The bond that the most profitable strategy buys yields at least as much as
/// every bond with a positive price, and it has a positive price itself; every
/// other order sells.
pub proof fn law_most_profitable_buys_highest_yield(
    portfolio: PortfolioView,
    infos: Seq<(Seq<char>, BondPersistentInfo)>,
    prices: Seq<(Seq<char>, Dec)>,
    volumes: Seq<(Seq<char>, i64)>,
    yields: Seq<(Seq<char>, Dec)>,
)
    ensures
        most_profitable_spec(portfolio, infos, prices, volumes, yields) matches Some(os) ==> forall|i: int|
            0 <= i < os.len() && (#[trigger] os[i]).order_type == MarketOrderType::Buy ==> {
                &&& i == os.len() - 1
                &&& yield_of(yields, os[i].isin).val() > 0
                &&& lookup(prices, os[i].isin) matches Some(p) && p.val() > 0
                &&& forall|j: int| 0 <= j < infos.len() && (lookup(prices, #[trigger] infos[j].0) matches Some(p) && p.val() > 0)
                    ==> yield_of(yields, infos[j].0).val() <= yield_of(yields, os[i].isin).val()
            },
{
    let r = most_profitable_spec(portfolio, infos, prices, volumes, yields);
    let sells = sell_all_spec(portfolio.bonds_count, prices);
    let s = priced_yields(infos, prices, yields);
    law_sell_all_sells_held_bonds(portfolio.bonds_count, prices);
    law_best_of_is_highest(s);
    lemma_priced_yields_members(infos, prices, yields);
    if r is Some {
        let os = r->0;
        assert forall|i: int| 0 <= i < os.len() && (#[trigger] os[i]).order_type == MarketOrderType::Buy implies {
            &&& i == os.len() - 1
            &&& yield_of(yields, os[i].isin).val() > 0
            &&& lookup(prices, os[i].isin) matches Some(p) && p.val() > 0
            &&& forall|j: int| 0 <= j < infos.len() && (lookup(prices, #[trigger] infos[j].0) matches Some(p) && p.val() > 0)
                ==> yield_of(yields, infos[j].0).val() <= yield_of(yields, os[i].isin).val()
        } by {
            if os == sells {
                assert(sells[i] == os[i]);
            } else {
                let b = best_of(s)->0;
                assert(os == sells.push(OrderView { isin: b.0, order_type: MarketOrderType::Buy, count: os.last().count }));
                if i < sells.len() {
                    assert(os[i] == sells[i]);
                }
                let m0 = choose|j: int| 0 <= j < s.len() && s[j] == b;
                assert(s[m0] == b);
                assert forall|j: int| 0 <= j < infos.len() && (lookup(prices, #[trigger] infos[j].0) matches Some(p) && p.val() > 0)
                    implies yield_of(yields, infos[j].0).val() <= yield_of(yields, os[i].isin).val() by {
                    let m = choose|m: int| 0 <= m < s.len() && s[m] == (infos[j].0, yield_of(yields, infos[j].0));
                    assert(s[m].1.val() <= b.1.val());
                }
            }
        }
    }
}

} // verus!
