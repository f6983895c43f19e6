//! Aggressive short high-yield bonds: buy bonds yielding at least 15% that
//! mature within two years, hold them to maturity, and sell only on a stop
//! loss.
use crate::decimal::Dec;
use crate::diversified_short_duration::{short_duration_spec, short_duration_trades, ShortDurationRules};
use crate::keyed_map::IsinMap;
use crate::model::{portfolio_view, BondPersistentInfo, Date, MarketOrder, Portfolio, PortfolioView};
use crate::strategy::{flows_view, orders_view, purchase_cash_flows, purchase_flows, CashFlows, OrderView, Strategy};
use vstd::prelude::*;

verus! {

/// Short high-yield bonds.
pub struct HighYieldShortStrategy {
    /// Largest share of the portfolio in one bond.
    pub max_weight: Dec,
    /// Shortest time to maturity, in days.
    pub min_days_to_maturity: i64,
    /// Longest time to maturity, in days.
    pub max_days_to_maturity: i64,
    /// Lowest price in percent of the face value.
    pub min_price_pct: Dec,
    /// Highest price in percent of the face value.
    pub max_price_pct: Dec,
    /// A held bond below this percent of its face value is sold.
    pub stop_loss_pct: Dec,
    /// Lowest yield.
    pub min_yield: Dec,
}

impl HighYieldShortStrategy {
    /// The short-duration rules of this strategy.
    pub open spec fn rules_spec(&self) -> ShortDurationRules {
        ShortDurationRules {
            max_weight: self.max_weight,
            min_days_to_maturity: self.min_days_to_maturity,
            max_days_to_maturity: self.max_days_to_maturity,
            min_price_pct: self.min_price_pct,
            max_price_pct: self.max_price_pct,
            strictly_below_max: false,
            stop_loss_pct: self.stop_loss_pct,
            min_yield: self.min_yield,
        }
    }
}

impl Strategy for HighYieldShortStrategy {
    open spec fn decision(
        &self,
        current_date: Date,
        portfolio: PortfolioView,
        infos: Seq<(Seq<char>, BondPersistentInfo)>,
        prices: Seq<(Seq<char>, Dec)>,
        volumes: Seq<(Seq<char>, i64)>,
        yields: Seq<(Seq<char>, Dec)>,
    ) -> Option<Seq<OrderView>> {
        short_duration_spec(self.rules_spec(), current_date, portfolio, infos, prices, volumes, yields)
    }

    /// Buying at the price and receiving every payment more than five days
    /// ahead; with no such payment the yield is -1.
    fn yield_inputs(&self, price: Dec, current_date: Date, info: &BondPersistentInfo) -> (r: Option<CashFlows>)
        ensures
            r is Some <==> purchase_flows(price, current_date, info.payments@, current_date + 5, false).len() >= 2,
            r is Some ==> flows_view(r->0) == purchase_flows(price, current_date, info.payments@, current_date + 5, false),
    {
        let flows = purchase_cash_flows(price, current_date, info, 5, false);
        if flows.amounts.len() < 2 {
            None
        } else {
            Some(flows)
        }
    }

    fn decide_trades(
        &self,
        current_date: Date,
        portfolio: &Portfolio,
        bonds_info: &IsinMap<BondPersistentInfo>,
        bonds_prices: &IsinMap<Dec>,
        bonds_volumes: &IsinMap<i64>,
        yields: &IsinMap<Dec>,
    ) -> (o: Option<Vec<MarketOrder>>)
        ensures
            o is Some <==> short_duration_spec(self.rules_spec(), current_date, portfolio_view(*portfolio), bonds_info@, bonds_prices@, bonds_volumes@, yields@) is Some,
            o is Some ==> orders_view(o->0@) == short_duration_spec(self.rules_spec(), current_date, portfolio_view(*portfolio), bonds_info@, bonds_prices@, bonds_volumes@, yields@)->0,
    {
        let rules = ShortDurationRules {
            max_weight: self.max_weight,
            min_days_to_maturity: self.min_days_to_maturity,
            max_days_to_maturity: self.max_days_to_maturity,
            min_price_pct: self.min_price_pct,
            max_price_pct: self.max_price_pct,
            strictly_below_max: false,
            stop_loss_pct: self.stop_loss_pct,
            min_yield: self.min_yield,
        };
        short_duration_trades(&rules, current_date, portfolio, bonds_info, bonds_prices, bonds_volumes, yields)
    }
}

impl Default for HighYieldShortStrategy {
    /// At most 8% in one bond, maturities from 14 days to two years (730
    /// days), prices from 60% to 120% of par, a stop loss at 70% and yields
    /// from 15%.
    fn default() -> (r: Self)
        ensures
            r.max_weight.m() == 8 && r.max_weight.s() == 2,
            r.min_days_to_maturity == 14,
            r.max_days_to_maturity == 730,
            r.min_price_pct.m() == 60 && r.min_price_pct.s() == 0,
            r.max_price_pct.m() == 120 && r.max_price_pct.s() == 0,
            r.stop_loss_pct.m() == 70 && r.stop_loss_pct.s() == 0,
            r.min_yield.m() == 15 && r.min_yield.s() == 2,
    {
        HighYieldShortStrategy {
            max_weight: Dec::new(8, 2).unwrap(),
            min_days_to_maturity: 14,
            max_days_to_maturity: 730,
            min_price_pct: Dec::new(60, 0).unwrap(),
            max_price_pct: Dec::new(120, 0).unwrap(),
            stop_loss_pct: Dec::new(70, 0).unwrap(),
            min_yield: Dec::new(15, 2).unwrap(),
        }
    }
}

} // verus!
