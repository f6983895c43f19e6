use robond::backtest::{
    BondYields, bond_isins, build_bonds_info, flatten_payments, is_floater, payments_of, Backtest, BondRecord, CandleRecord,
    CouponRecord, PaymentRecord,
};
use robond::decimal::Dec;
use robond::keyed_map::KeyedMap;
use robond::diversified_short_duration::DiversifiedShortDurationStrategy;
use robond::model::{BondPersistentInfo, MarketOrder, MarketOrderType, PaymentInfo, PaymentType};
use robond::strategies::MostProfitableBondStrategy;
use robond::simulator::OrderError;
use rust_decimal::Decimal;
use std::str::FromStr;

fn dec(s: &str) -> Dec {
    let d = Decimal::from_str(s).unwrap();
    Dec::new(d.mantissa(), d.scale()).unwrap()
}

fn to_decimal(d: Dec) -> Decimal {
    Decimal::from_i128_with_scale(d.mantissa(), d.scale())
}

const DAY: i32 = 738886;

fn bond(id: i64, isin: Option<&str>, currency: i64, board: &str) -> BondRecord {
    BondRecord {
        id,
        isin: isin.map(|s| s.to_string()),
        title: Some(format!("bond {id}")),
        is_subordinated: Some(false),
        issue_volume: Some(100),
        placement_date: Some(DAY - 100),
        maturity_date: Some(DAY + 300),
        currency_id: Some(currency),
        board: Some(board.to_string()),
        facevalue: Some(dec("1000")),
        start_facevalue: Some(dec("1000")),
        is_for_qualified_investors: Some(false),
        is_traded: true,
    }
}

fn payment(bond_id: i64, date: i32, size: &str, type_id: i64) -> PaymentRecord {
    PaymentRecord { date: Some(date), size: Some(dec(size)), bond_id: Some(bond_id), type_id: Some(type_id) }
}

fn candle(bond_id: i64, date: i32, low: &str, high: &str, close: &str, volume: &str) -> CandleRecord {
    CandleRecord {
        date,
        bond_id,
        open: Some(dec(close)),
        close: Some(dec(close)),
        low: Some(dec(low)),
        high: Some(dec(high)),
        volume: Some(dec(volume)),
        facevalue: Some(dec("1000")),
        accint: None,
    }
}

fn setup() -> Backtest {
    let bonds = vec![
        bond(1, Some("RU1"), 3, "TQCB"),
        bond(2, Some("USD1"), 1, "TQCB"),
        bond(3, Some("STRUCT"), 3, "TQIR"),
        bond(4, Some("FLOAT"), 3, "TQCB"),
        bond(5, None, 3, "TQCB"),
        bond(6, Some("RU6"), 3, "TQCB"),
    ];
    let isins = bond_isins(&bonds);
    let records = vec![
        payment(1, DAY + 1, "25", 2),
        payment(1, DAY + 5, "1000", 14),
        payment(1, DAY + 2, "0", 2),
        payment(1, DAY + 2, "7", 3),
        payment(4, DAY + 10, "10", 2),
        payment(4, DAY + 40, "12", 2),
        payment(9, DAY + 1, "5", 2),
    ];
    let flat = flatten_payments(&records, &isins);
    let mut offers = KeyedMap::new();
    offers.insert(6, DAY + 2);
    let defaults = KeyedMap::new();
    let mut coupons = KeyedMap::new();
    coupons.insert(1, CouponRecord { size: Some(dec("25")), period: Some(182), aci: Some(dec("1.5")) });
    let info = build_bonds_info(&bonds, &flat, &offers, &defaults, &coupons);
    Backtest::new(dec("100000"), DAY, info, isins, flat)
}

#[test]
fn bonds_info_keeps_tradable_rouble_bonds() {
    let bt = setup();
    assert_eq!(bt.bonds_info.len(), 2);
    assert!(bt.bonds_info.contains_key(&"RU1".to_string()));
    assert!(bt.bonds_info.contains_key(&"RU6".to_string()));
    let i = bt.bonds_info.find(&"RU1".to_string()).unwrap();
    let info = bt.bonds_info.value_ref(i);
    assert_eq!(info.payments.len(), 2);
    assert_eq!(info.payments[0].payment_type, PaymentType::Coupon);
    assert_eq!(info.payments[1].payment_type, PaymentType::Redemption);
    assert_eq!(info.bond_info.coupon_period, Some(182));
    assert_eq!(bt.simulator.issue_volumes.get(&"RU1".to_string()), Some(100));
    assert_eq!(bt.payments.len(), 4);
}

#[test]
fn floaters_are_recognised() {
    let coupon = |a: &str| PaymentInfo { date: DAY, amount: dec(a), payment_type: PaymentType::Coupon };
    assert!(!is_floater(&vec![coupon("10")]));
    assert!(!is_floater(&vec![coupon("10"), coupon("10.01")]));
    assert!(is_floater(&vec![coupon("10"), coupon("10.02")]));
    let mut with_redemption = vec![coupon("10"), coupon("10")];
    with_redemption.push(PaymentInfo { date: DAY, amount: dec("1000"), payment_type: PaymentType::Redemption });
    assert!(!is_floater(&with_redemption));
}

#[test]
fn payments_of_one_bond() {
    let bt = setup();
    let ps = payments_of(&bt.payments, &"FLOAT".to_string());
    assert_eq!(ps.len(), 2);
    assert_eq!(to_decimal(ps[1].amount), Decimal::from(12));
}

#[test]
fn a_day_of_backtest() {
    let mut bt = setup();
    let candles = vec![candle(1, DAY, "95", "97", "96", "10"), candle(1, DAY + 1, "1", "1", "1", "1")];
    bt.cache_day(DAY, &candles);
    bt.apply_defaults();
    bt.apply_offers();
    bt.apply_payments();
    let prices = bt.market_prices();
    assert_eq!(to_decimal(prices.get(&"RU1".to_string()).unwrap()), Decimal::from(960));
    let volumes = bt.market_volumes();
    assert_eq!(volumes.get(&"RU1".to_string()), Some(10));
    assert_eq!(volumes.get(&"RU6".to_string()), None);
    let errors = bt.execute_orders(vec![
        MarketOrder { isin: "RU1".to_string(), order_type: MarketOrderType::Buy, count: 5 },
        MarketOrder { isin: "RU6".to_string(), order_type: MarketOrderType::Buy, count: 1 },
    ]);
    assert_eq!(errors, vec![None, Some(OrderError::NoPrice)]);
    assert_eq!(to_decimal(bt.simulator.portfolio.free_money), Decimal::from(95_200));
    bt.end_day();
    assert_eq!(bt.snapshots.len(), 1);
    assert_eq!(bt.simulator.price_cache.len(), 0);

    bt.cache_day(DAY + 1, &vec![]);
    bt.apply_defaults();
    bt.apply_offers();
    bt.apply_payments();
    assert_eq!(to_decimal(bt.simulator.portfolio.free_money), Decimal::from(95_325));
    let volumes = bt.market_volumes();
    assert_eq!(volumes.get(&"RU1".to_string()), Some(0));
    assert_eq!(to_decimal(bt.market_prices().get(&"RU1".to_string()).unwrap()), Decimal::from(960));
    bt.end_day();
    let result = bt.finish(DAY + 1).unwrap();
    assert_eq!(to_decimal(result.final_value), Decimal::from(100_125));
    assert_eq!(to_decimal(result.profit_loss), Decimal::from(125));
    assert_eq!(to_decimal(result.return_percent), Decimal::from_str("0.125").unwrap());
    assert_eq!(result.trades.len(), 1);
    assert_eq!(result.payments.len(), 1);
    assert_eq!(result.portfolio_snapshots.len(), 2);
}

#[test]
fn defaults_and_offers() {
    let mut bt = setup();
    let candles = vec![candle(1, DAY, "95", "97", "96", "10"), candle(6, DAY, "99", "101", "100", "10")];
    bt.cache_day(DAY, &candles);
    bt.execute_orders(vec![
        MarketOrder { isin: "RU1".to_string(), order_type: MarketOrderType::Buy, count: 2 },
        MarketOrder { isin: "RU6".to_string(), order_type: MarketOrderType::Buy, count: 3 },
    ]);
    bt.end_day();
    let cash = to_decimal(bt.simulator.portfolio.free_money);
    assert_eq!(cash, Decimal::from(100_000 - 1920 - 3000));

    // a middle price of 10% of the face value is a default
    bt.cache_day(DAY + 1, &vec![candle(1, DAY + 1, "9", "11", "10", "10")]);
    bt.apply_defaults();
    assert!(bt.defaulted.contains_key(&"RU1".to_string()));
    assert_eq!(bt.simulator.holdings.get(&"RU1".to_string()), Some(0));
    assert_eq!(to_decimal(bt.simulator.portfolio.free_money), cash);
    bt.apply_payments();
    // the coupon of a defaulted bond is not paid
    assert_eq!(to_decimal(bt.simulator.portfolio.free_money), cash);
    assert!(bt.market_prices().get(&"RU1".to_string()).is_none());
    bt.end_day();

    // the offer of RU6 redeems it at face value
    bt.cache_day(DAY + 2, &vec![]);
    bt.apply_defaults();
    bt.apply_offers();
    assert_eq!(to_decimal(bt.simulator.portfolio.free_money), cash + Decimal::from(3000));
    assert_eq!(bt.simulator.holdings.get(&"RU6".to_string()), Some(0));
}

#[test]
fn days_record_trades_and_payments_in_order() {
    let mut bt = setup();
    let market = bt.begin_day(DAY, &vec![candle(1, DAY, "95", "97", "96", "10"), candle(6, DAY, "99", "101", "100", "10")]);
    assert_eq!(to_decimal(market.prices.get(&"RU1".to_string()).unwrap()), Decimal::from(960));
    assert_eq!(market.volumes.get(&"RU6".to_string()), Some(10));
    let errors = bt.finish_day(vec![
        MarketOrder { isin: "RU1".to_string(), order_type: MarketOrderType::Buy, count: 2 },
        MarketOrder { isin: "RU6".to_string(), order_type: MarketOrderType::Buy, count: 3 },
    ]);
    assert_eq!(errors, vec![None, None]);
    assert_eq!(bt.simulator.trades.len(), 2);
    assert_eq!(bt.simulator.trades[0].isin, "RU1");
    assert_eq!(bt.simulator.trades[0].side, "buy");
    assert_eq!(bt.simulator.trades[0].quantity, 2);
    assert_eq!(to_decimal(bt.simulator.trades[0].total_amount), Decimal::from(1920));
    assert_eq!(bt.simulator.trades[1].isin, "RU6");
    // the snapshot is taken after the orders
    assert_eq!(bt.snapshots.len(), 1);
    assert_eq!(to_decimal(bt.snapshots[0].cash), Decimal::from(100_000 - 1920 - 3000));

    // the coupon of RU1 is paid on the next day
    bt.begin_day(DAY + 1, &vec![]);
    assert_eq!(bt.simulator.payments.len(), 1);
    assert_eq!(bt.simulator.payments[0].payment_type, "coupon");
    assert_eq!(bt.simulator.payments[0].quantity, 2);
    assert_eq!(to_decimal(bt.simulator.payments[0].total_amount), Decimal::from(50));
    bt.finish_day(vec![]);

    // a default on the day of the offer: RU1 is written off, RU6 redeemed
    bt.begin_day(DAY + 2, &vec![candle(1, DAY + 2, "9", "11", "10", "10")]);
    let kinds: Vec<&str> = bt.simulator.payments.iter().map(|p| p.payment_type.as_str()).collect();
    assert_eq!(kinds, vec!["coupon", "default_write_off", "offer_redemption"]);
    assert_eq!(bt.simulator.payments[1].quantity, 2);
    assert_eq!(to_decimal(bt.simulator.payments[1].total_amount), Decimal::ZERO);
    assert_eq!(to_decimal(bt.simulator.payments[2].total_amount), Decimal::from(3000));
    // the defaulted bond's payments of the day are not credited
    assert_eq!(to_decimal(bt.simulator.portfolio.free_money), Decimal::from(100_000 - 1920 - 3000 + 50 + 3000));
}

/// The same yield for every bond.
struct FlatYields(&'static str);

impl BondYields for FlatYields {
    fn bond_yield(&self, _price: Dec, _today: i32, _info: &BondPersistentInfo) -> Dec {
        dec(self.0)
    }
}

#[test]
fn a_run_without_orders_keeps_the_capital_every_day() {
    let mut bt = setup();
    let days = vec![
        vec![candle(1, DAY, "95", "97", "96", "10")],
        vec![],
        vec![candle(1, DAY + 2, "9", "11", "10", "10")],
    ];
    assert!(bt.run_days(&DiversifiedShortDurationStrategy::default(), &FlatYields("0.01"), DAY, &days));
    assert!(bt.simulator.trades.is_empty());
    assert!(bt.simulator.payments.is_empty());
    assert_eq!(bt.snapshots.len(), 3);
    for (i, s) in bt.snapshots.iter().enumerate() {
        assert_eq!(s.date, DAY + i as i32);
        assert_eq!(to_decimal(s.cash), Decimal::from(100_000));
        assert_eq!(to_decimal(s.total_value), Decimal::from(100_000));
    }
}

#[test]
fn a_run_records_one_snapshot_per_day() {
    let mut bt = setup();
    let days = vec![vec![candle(1, DAY, "95", "97", "96", "10")], vec![]];
    // the best-yielding bond is bought with the whole portfolio, up to the day's volume
    assert!(bt.run_days(&MostProfitableBondStrategy, &FlatYields("0.1"), DAY, &days));
    assert_eq!(bt.simulator.trades.len(), 1);
    assert_eq!(bt.simulator.trades[0].quantity, 10);
    assert_eq!(bt.snapshots.len(), 2);
    assert_eq!(bt.snapshots[1].date, DAY + 1);
    assert_eq!(to_decimal(bt.snapshots[0].cash), Decimal::from(100_000 - 9600));
    // the coupon of the next day is credited
    assert_eq!(to_decimal(bt.snapshots[1].cash), Decimal::from(100_000 - 9600 + 250));
    assert_eq!(bt.simulator.payments.len(), 1);
}

#[test]
fn a_whole_backtest_without_trades_ends_with_its_capital() {
    let bt = setup();
    let days = vec![vec![candle(1, DAY, "95", "97", "96", "10")], vec![], vec![candle(6, DAY + 2, "99", "101", "100", "10")]];
    let r = bt.run_backtest(&DiversifiedShortDurationStrategy::default(), &FlatYields("0.01"), &days, DAY + 2).unwrap();
    assert_eq!(to_decimal(r.final_value), Decimal::from(100_000));
    assert_eq!(to_decimal(r.profit_loss), Decimal::ZERO);
    assert_eq!(to_decimal(r.return_percent), Decimal::ZERO);
    assert!(r.trades.is_empty());
    assert!(r.payments.is_empty());
    assert_eq!(r.portfolio_snapshots.len(), 3);
    assert_eq!(r.portfolio_snapshots[2].date, DAY + 2);
    assert_eq!((r.start_date, r.end_date), (DAY, DAY + 2));
}

#[test]
fn a_whole_backtest_executes_the_strategy_orders() {
    let bt = setup();
    let days = vec![vec![candle(1, DAY, "95", "97", "96", "10")], vec![]];
    let r = bt.run_backtest(&MostProfitableBondStrategy, &FlatYields("0.1"), &days, DAY + 1).unwrap();
    // bought on the first day; on the second there is no candle to trade at
    assert_eq!(r.trades.len(), 1);
    assert_eq!(r.trades[0].quantity, 10);
    assert_eq!(r.payments.len(), 1);
    // 100000 - 9600 + 250 in cash, ten bonds at 960
    assert_eq!(to_decimal(r.final_value), Decimal::from(100_250));
    assert_eq!(to_decimal(r.profit_loss), Decimal::from(250));
    assert_eq!(r.portfolio_snapshots.len(), 2);
}

#[test]
fn a_run_of_no_days_changes_nothing() {
    let mut bt = setup();
    assert!(bt.run_days(&MostProfitableBondStrategy, &FlatYields("0.1"), DAY, &vec![]));
    assert!(bt.snapshots.is_empty());
    assert!(bt.simulator.trades.is_empty());
    assert_eq!(to_decimal(bt.simulator.portfolio.free_money), Decimal::from(100_000));
}
