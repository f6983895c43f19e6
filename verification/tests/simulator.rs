use chrono::{Datelike, NaiveDate};
use robond::decimal::Dec;
use robond::keyed_map::KeyedMap;
use robond::model::{BondPersistentInfo, MarketOrder, MarketOrderType, Portfolio};
use robond::simulator::{MarketSimulator, OrderError};
use robond::strategy::{CashFlows, Strategy};
use rust_decimal::Decimal;
use std::str::FromStr;

fn date(y: i32, m: u32, d: u32) -> i32 {
    NaiveDate::from_ymd_opt(y, m, d).unwrap().num_days_from_ce()
}

fn dec(s: &str) -> Dec {
    let d = Decimal::from_str(s).unwrap();
    Dec::new(d.mantissa(), d.scale()).unwrap()
}

fn to_decimal(d: Dec) -> Decimal {
    Decimal::from_i128_with_scale(d.mantissa(), d.scale())
}

fn cache(sim: &mut MarketSimulator, isin: &str, prices: [&str; 7]) {
    sim.cache_prices(
        isin.to_string(),
        dec(prices[0]),
        dec(prices[1]),
        dec(prices[2]),
        dec(prices[3]),
        dec(prices[4]),
        dec(prices[5]),
        dec(prices[6]),
    );
}

fn order(isin: &str, order_type: MarketOrderType, count: i64) -> MarketOrder {
    MarketOrder { isin: isin.to_string(), order_type, count }
}

#[test]
fn test_buy_executes_correctly() {
    let mut sim = MarketSimulator::new(dec("1000000"), date(2024, 1, 1));
    cache(&mut sim, "RU000A104H08", ["95.0", "96.0", "94.0", "97.0", "1000.0", "1000.0", "0.0"]);

    let trade = sim
        .execute_order(order("RU000A104H08", MarketOrderType::Buy, 10), true)
        .expect("покупка должна пройти");

    assert_eq!(trade.quantity, 10);
    assert_eq!(trade.side, "buy");
    assert!((to_decimal(trade.price) - Decimal::from_str("95.5").unwrap()).abs() < Decimal::from_str("0.01").unwrap());
    assert!((to_decimal(trade.total_amount) - Decimal::from(9_550)).abs() < Decimal::from_str("0.01").unwrap());
    assert_eq!(to_decimal(sim.portfolio.free_money), Decimal::from(990_450_i64));
}

#[test]
fn test_insufficient_funds_returns_error() {
    let mut sim = MarketSimulator::new(dec("1000"), date(2024, 1, 1));
    cache(&mut sim, "RU000A104H08", ["98.0", "99.0", "97.0", "100.0", "50000.0", "1000.0", "0.0"]);
    assert!(sim.execute_order(order("RU000A104H08", MarketOrderType::Buy, 100), true).is_err());
}

#[test]
fn test_sell_reduces_holdings_and_returns_cash() {
    let mut sim = MarketSimulator::new(dec("1000000"), date(2024, 1, 1));
    cache(&mut sim, "RU0001", ["100.0", "100.0", "100.0", "100.0", "1000.0", "1000.0", "0.0"]);
    sim.execute_order(order("RU0001", MarketOrderType::Buy, 5), true).unwrap();
    let cash_after_buy = to_decimal(sim.portfolio.free_money);
    sim.execute_order(order("RU0001", MarketOrderType::Sell, 5), true).unwrap();
    assert_eq!(sim.holdings.get(&"RU0001".to_string()).unwrap_or(0), 0);
    assert!(to_decimal(sim.portfolio.free_money) > cash_after_buy);
}

#[test]
fn test_sell_more_than_held_returns_error() {
    let mut sim = MarketSimulator::new(dec("1000000"), date(2024, 1, 1));
    cache(&mut sim, "RU0001", ["100.0", "100.0", "100.0", "100.0", "1000.0", "1000.0", "0.0"]);
    sim.execute_order(order("RU0001", MarketOrderType::Buy, 3), true).unwrap();
    assert!(sim.execute_order(order("RU0001", MarketOrderType::Sell, 10), true).is_err());
}

#[test]
fn test_portfolio_snapshot_values_are_correct() {
    let mut sim = MarketSimulator::new(dec("1000000"), date(2024, 1, 1));
    cache(&mut sim, "RU0001", ["100.0", "100.0", "100.0", "100.0", "1000.0", "1000.0", "0.0"]);
    sim.execute_order(order("RU0001", MarketOrderType::Buy, 10), true).unwrap();
    let snap = sim.get_portfolio_snapshot().unwrap();
    let expected_bonds_value = Decimal::from(10_000);
    let eps = Decimal::from_str("0.01").unwrap();
    assert!(
        (to_decimal(snap.portfolio_value) - expected_bonds_value).abs() < eps,
        "portfolio_value={} ожидалось {}",
        to_decimal(snap.portfolio_value),
        expected_bonds_value
    );
    assert!(
        (to_decimal(snap.total_value) - Decimal::from(1_000_000)).abs() < eps,
        "total_value={} ожидалось 1_000_000",
        to_decimal(snap.total_value)
    );
}

#[test]
fn test_coupon_payment_credited_to_cash() {
    let mut sim = MarketSimulator::new(dec("1000000"), date(2024, 1, 1));
    cache(&mut sim, "RU0001", ["95.0", "96.0", "94.0", "97.0", "100.0", "1000.0", "0.0"]);
    sim.execute_order(order("RU0001", MarketOrderType::Buy, 10), true).unwrap();
    let cash_after_buy = to_decimal(sim.portfolio.free_money);
    let event = sim
        .process_payment("RU0001".to_string(), dec("5.0"), "coupon".to_string())
        .expect("выплата должна состояться");
    let eps = Decimal::from_str("0.01").unwrap();
    assert_eq!(event.quantity, 10);
    assert!(
        (to_decimal(event.amount_per_unit) - Decimal::from(50)).abs() < eps,
        "amount_per_unit={}",
        to_decimal(event.amount_per_unit)
    );
    assert!(
        (to_decimal(event.total_amount) - Decimal::from(500)).abs() < eps,
        "total_amount={}",
        to_decimal(event.total_amount)
    );
    assert!(to_decimal(sim.portfolio.free_money) > cash_after_buy);
}

#[test]
fn test_trades_recorded_in_history() {
    let mut sim = MarketSimulator::new(dec("1000000"), date(2024, 1, 1));
    cache(&mut sim, "RU0001", ["95.0", "96.0", "94.0", "97.0", "100.0", "1000.0", "0.0"]);
    sim.execute_order(order("RU0001", MarketOrderType::Buy, 5), true).unwrap();
    sim.execute_order(order("RU0001", MarketOrderType::Sell, 5), true).unwrap();
    assert_eq!(sim.trades.len(), 2);
    assert_eq!(sim.trades[0].side, "buy");
    assert_eq!(sim.trades[1].side, "sell");
}

struct DoNothingStrategy;

impl Strategy for DoNothingStrategy {
    fn yield_inputs(&self, _price: Dec, _current_date: i32, _info: &BondPersistentInfo) -> Option<CashFlows> {
        None
    }

    fn decide_trades(
        &self,
        _date: i32,
        _portfolio: &Portfolio,
        _bonds_info: &KeyedMap<String, BondPersistentInfo>,
        _bonds_prices: &KeyedMap<String, Dec>,
        _bonds_volumes: &KeyedMap<String, i64>,
        _yields: &KeyedMap<String, Dec>,
    ) -> Option<Vec<MarketOrder>> {
        Some(vec![])
    }
}

#[test]
fn test_do_nothing_strategy_returns_no_orders() {
    let strategy = DoNothingStrategy;
    let portfolio = Portfolio { free_money: dec("1000000"), bonds_count: KeyedMap::new() };
    let orders = strategy
        .decide_trades(
            date(2024, 1, 1),
            &portfolio,
            &KeyedMap::new(),
            &KeyedMap::new(),
            &KeyedMap::new(),
            &KeyedMap::new(),
        )
        .unwrap();
    assert!(orders.is_empty());
}

struct BuyOnceStrategy {
    isin: String,
}

impl Strategy for BuyOnceStrategy {
    fn yield_inputs(&self, _price: Dec, _current_date: i32, _info: &BondPersistentInfo) -> Option<CashFlows> {
        None
    }

    fn decide_trades(
        &self,
        _date: i32,
        portfolio: &Portfolio,
        _bonds_info: &KeyedMap<String, BondPersistentInfo>,
        bonds_prices: &KeyedMap<String, Dec>,
        _bonds_volumes: &KeyedMap<String, i64>,
        _yields: &KeyedMap<String, Dec>,
    ) -> Option<Vec<MarketOrder>> {
        if bonds_prices.contains_key(&self.isin) && portfolio.bonds_count.get(&self.isin).unwrap_or(0) == 0 {
            Some(vec![MarketOrder { isin: self.isin.clone(), order_type: MarketOrderType::Buy, count: 1 }])
        } else {
            Some(vec![])
        }
    }
}

#[test]
fn test_buy_once_strategy_produces_order_when_position_absent() {
    let strategy = BuyOnceStrategy { isin: "RU0001".to_string() };
    let portfolio = Portfolio { free_money: dec("1000000"), bonds_count: KeyedMap::new() };
    let mut prices = KeyedMap::new();
    prices.insert("RU0001".to_string(), dec("950"));
    let orders = strategy
        .decide_trades(date(2024, 1, 1), &portfolio, &KeyedMap::new(), &prices, &KeyedMap::new(), &KeyedMap::new())
        .unwrap();
    assert_eq!(orders.len(), 1);
    assert_eq!(orders[0].isin, "RU0001");
    assert_eq!(orders[0].order_type, MarketOrderType::Buy);
}

#[test]
fn test_buy_once_strategy_skips_when_position_held() {
    let strategy = BuyOnceStrategy { isin: "RU0001".to_string() };
    let mut bonds_count = KeyedMap::new();
    bonds_count.insert("RU0001".to_string(), 3_i64);
    let portfolio = Portfolio { free_money: dec("1000000"), bonds_count };
    let mut prices = KeyedMap::new();
    prices.insert("RU0001".to_string(), dec("950"));
    let orders = strategy
        .decide_trades(date(2024, 1, 1), &portfolio, &KeyedMap::new(), &prices, &KeyedMap::new(), &KeyedMap::new())
        .unwrap();
    assert!(orders.is_empty());
}

#[test]
fn refused_order_changes_nothing() {
    let mut sim = MarketSimulator::new(dec("1000"), date(2024, 1, 1));
    cache(&mut sim, "RU0001", ["100", "100", "100", "100", "10", "1000", "0"]);
    let err = sim.execute_order(order("RU0001", MarketOrderType::Buy, 5), true).unwrap_err();
    assert_eq!(err, OrderError::InsufficientFunds);
    assert_eq!(to_decimal(sim.portfolio.free_money), Decimal::from(1000));
    assert!(sim.trades.is_empty());
    assert_eq!(sim.holdings.len(), 0);
}

#[test]
fn order_errors_each_have_an_input() {
    let mut sim = MarketSimulator::new(dec("1000000"), date(2024, 1, 1));
    assert_eq!(sim.execute_order(order("RU0001", MarketOrderType::Buy, 1), true).unwrap_err(), OrderError::NoPrice);
    cache(&mut sim, "RU0001", ["100", "100", "100", "100", "0", "1000", "0"]);
    assert_eq!(sim.execute_order(order("RU0001", MarketOrderType::Buy, 1), true).unwrap_err(), OrderError::NoTrading);
    cache(&mut sim, "RU0002", ["100", "100", "100", "100", "5", "1000", "0"]);
    assert_eq!(
        sim.execute_order(order("RU0002", MarketOrderType::Buy, 6), true).unwrap_err(),
        OrderError::DayVolumeExceeded { requested: 6, available: 5 }
    );
    sim.issue_volumes.insert("RU0002".to_string(), 3);
    assert_eq!(
        sim.execute_order(order("RU0002", MarketOrderType::Buy, 4), false).unwrap_err(),
        OrderError::IssueVolumeExceeded { requested: 4, issued: 3 }
    );
    assert_eq!(
        sim.execute_order(order("RU0002", MarketOrderType::Sell, 1), true).unwrap_err(),
        OrderError::InsufficientBonds { requested: 1, held: 0 }
    );
    cache(&mut sim, "RU0003", ["100", "100", "70000000000000000000000000000", "70000000000000000000000000000", "5", "1000", "0"]);
    assert_eq!(sim.execute_order(order("RU0003", MarketOrderType::Buy, 1), true).unwrap_err(), OrderError::Overflow);
}

#[test]
fn close_price_is_used_without_mid_price() {
    let mut sim = MarketSimulator::new(dec("1000000"), date(2024, 1, 1));
    cache(&mut sim, "RU0001", ["95", "96", "94", "97", "100", "1000", "12.5"]);
    let trade = sim.execute_order(order("RU0001", MarketOrderType::Buy, 2), false).unwrap();
    assert_eq!(to_decimal(trade.price), Decimal::from(96));
    // (96 / 100 * 1000 + 12.5) * 2 = 1945
    assert_eq!(to_decimal(trade.total_amount), Decimal::from(1945));
    assert_eq!(to_decimal(trade.accint), Decimal::from_str("12.5").unwrap());
}

#[test]
fn write_off_keeps_cash_and_zeroes_position() {
    let mut sim = MarketSimulator::new(dec("1000000"), date(2024, 1, 1));
    cache(&mut sim, "RU0001", ["100", "100", "100", "100", "100", "1000", "0"]);
    sim.execute_order(order("RU0001", MarketOrderType::Buy, 10), true).unwrap();
    let cash = to_decimal(sim.portfolio.free_money);
    let event = sim.write_off_bond(&"RU0001".to_string()).unwrap();
    assert_eq!(event.quantity, 10);
    assert_eq!(event.payment_type, "default_write_off");
    assert_eq!(to_decimal(sim.portfolio.free_money), cash);
    assert_eq!(sim.holdings.get(&"RU0001".to_string()), Some(0));
    assert_eq!(sim.portfolio.bonds_count.get(&"RU0001".to_string()), Some(0));
    assert!(sim.write_off_bond(&"RU0001".to_string()).is_none());
}

#[test]
fn offer_redemption_pays_face_value() {
    let mut sim = MarketSimulator::new(dec("1000000"), date(2024, 1, 1));
    cache(&mut sim, "RU0001", ["90", "90", "90", "90", "100", "1000", "0"]);
    sim.execute_order(order("RU0001", MarketOrderType::Buy, 10), true).unwrap();
    assert_eq!(to_decimal(sim.portfolio.free_money), Decimal::from(991_000));
    let event = sim.force_redeem_bond(&"RU0001".to_string()).unwrap();
    assert_eq!(to_decimal(event.total_amount), Decimal::from(10_000));
    assert_eq!(event.payment_type, "offer_redemption");
    assert_eq!(to_decimal(sim.portfolio.free_money), Decimal::from(1_001_000));
    assert_eq!(sim.holdings.get(&"RU0001".to_string()), Some(0));
}

#[test]
fn payment_for_bond_not_held_is_not_credited() {
    let mut sim = MarketSimulator::new(dec("1000"), date(2024, 1, 1));
    cache(&mut sim, "RU0001", ["90", "90", "90", "90", "100", "1000", "0"]);
    assert!(sim.process_payment("RU0001".to_string(), dec("5"), "coupon".to_string()).is_none());
    assert_eq!(to_decimal(sim.portfolio.free_money), Decimal::from(1000));
    assert!(sim.payments.is_empty());
}

#[test]
fn valuation_uses_latest_candle_on_a_day_without_trading() {
    let mut sim = MarketSimulator::new(dec("100000"), date(2024, 1, 1));
    cache(&mut sim, "RU0001", ["100", "100", "100", "100", "100", "1000", "5"]);
    sim.execute_order(order("RU0001", MarketOrderType::Buy, 10), true).unwrap();
    sim.set_date(date(2024, 1, 2));
    // 100000 - 10 * 1005 + 10 * 1005
    assert_eq!(to_decimal(sim.get_portfolio_value().unwrap()), Decimal::from(100_000));
}

#[test]
fn buying_and_selling_at_one_candle_restores_cash() {
    let mut sim = MarketSimulator::new(dec("250000.75"), date(2024, 3, 1));
    cache(&mut sim, "RU0001", ["95", "96", "94.3", "97.1", "100", "1000", "3.21"]);
    sim.execute_order(order("RU0001", MarketOrderType::Buy, 7), true).unwrap();
    sim.execute_order(order("RU0001", MarketOrderType::Sell, 7), true).unwrap();
    assert_eq!(to_decimal(sim.portfolio.free_money), Decimal::from_str("250000.75").unwrap());
    assert_eq!(sim.holdings.get(&"RU0001".to_string()), Some(0));
}
