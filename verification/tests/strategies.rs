use chrono::{Datelike, NaiveDate};
use robond::decimal::Dec;
use robond::diversified_short_duration::DiversifiedShortDurationStrategy;
use robond::high_yield_short::HighYieldShortStrategy;
use robond::keyed_map::KeyedMap;
use robond::model::{BondCommonInfo, BondPersistentInfo, MarketOrderType, PaymentInfo, PaymentType, Portfolio};
use robond::strategy::{rank_candidates, Candidate, Strategy};
use robond::yield_maximizer::YieldMaximizerStrategy;
use rust_decimal::Decimal;
use std::str::FromStr;

fn dec(s: &str) -> Dec {
    let d = Decimal::from_str(s).unwrap();
    Dec::new(d.mantissa(), d.scale()).unwrap()
}

fn to_decimal(d: Dec) -> Decimal {
    Decimal::from_i128_with_scale(d.mantissa(), d.scale())
}

const DAY: i32 = 738886;

fn info(isin: &str, maturity: i32) -> BondPersistentInfo {
    BondPersistentInfo {
        bond_info: BondCommonInfo {
            isin: isin.to_string(),
            currency_id: Some(3),
            title: None,
            is_subordinated: Some(false),
            issue_volume: Some(1000),
            placement_date: None,
            maturity_date: Some(maturity),
            facevalue: Some(dec("1000")),
            start_facevalue: Some(dec("1000")),
            board: None,
            is_for_qualified_investors: None,
            is_traded: true,
            offer_date: None,
            default_date: None,
            coupon_size: None,
            coupon_period: None,
            coupon_aci: None,
        },
        payments: vec![
            PaymentInfo { date: DAY + 3, amount: dec("30"), payment_type: PaymentType::Coupon },
            PaymentInfo { date: DAY + 100, amount: dec("30"), payment_type: PaymentType::Coupon },
            PaymentInfo { date: maturity, amount: dec("1000"), payment_type: PaymentType::Redemption },
        ],
    }
}

#[test]
fn defaults_match_the_documented_parameters() {
    let d = DiversifiedShortDurationStrategy::default();
    assert_eq!(to_decimal(d.max_weight), Decimal::from_str("0.15").unwrap());
    assert_eq!((d.min_days_to_maturity, d.max_days_to_maturity), (90, 540));
    let h = HighYieldShortStrategy::default();
    assert_eq!(to_decimal(h.min_yield), Decimal::from_str("0.15").unwrap());
    assert_eq!(h.max_days_to_maturity, 730);
    let y = YieldMaximizerStrategy::default();
    assert_eq!(y.hard_deadline, NaiveDate::from_ymd_opt(2026, 3, 31).unwrap().num_days_from_ce());
    assert_eq!(to_decimal(y.min_yield_urgent), Decimal::from_str("0.005").unwrap());
    assert_eq!(to_decimal(y.cash_urgency_threshold), Decimal::from_str("0.25").unwrap());
    assert_eq!(DAY, NaiveDate::from_ymd_opt(2024, 1, 1).unwrap().num_days_from_ce());
}

#[test]
fn yield_inputs_start_with_the_purchase() {
    let s = DiversifiedShortDurationStrategy::default();
    let flows = s.yield_inputs(dec("950"), DAY, &info("RU1", DAY + 200)).unwrap();
    // the coupon three days ahead is not more than five days ahead
    assert_eq!(flows.dates, vec![DAY, DAY + 100, DAY + 200]);
    assert_eq!(to_decimal(flows.amounts[0]), Decimal::from(-950));
    let y = YieldMaximizerStrategy::default();
    assert!(y.yield_inputs(dec("0"), DAY, &info("RU1", DAY + 200)).is_none());
    let flows = y.yield_inputs(dec("950"), DAY, &info("RU1", DAY + 200)).unwrap();
    assert_eq!(flows.dates.len(), 3);
}

#[test]
fn short_duration_buys_up_to_the_weight_cap() {
    let s = DiversifiedShortDurationStrategy::default();
    let portfolio = Portfolio { free_money: dec("100000"), bonds_count: KeyedMap::new() };
    let mut infos = KeyedMap::new();
    infos.insert("RU1".to_string(), info("RU1", DAY + 200));
    let mut prices = KeyedMap::new();
    prices.insert("RU1".to_string(), dec("950"));
    let mut volumes = KeyedMap::new();
    volumes.insert("RU1".to_string(), 1000);
    let mut yields = KeyedMap::new();
    yields.insert("RU1".to_string(), dec("0.12"));
    let orders = s.decide_trades(DAY, &portfolio, &infos, &prices, &volumes, &yields).unwrap();
    assert_eq!(orders.len(), 1);
    assert_eq!(orders[0].order_type, MarketOrderType::Buy);
    // 15% of 100000 is 15000, which buys 15 bonds at 950
    assert_eq!(orders[0].count, 15);
    // a low yield is not bought
    let mut low = KeyedMap::new();
    low.insert("RU1".to_string(), dec("0.01"));
    assert!(s.decide_trades(DAY, &portfolio, &infos, &prices, &volumes, &low).unwrap().is_empty());
}

#[test]
fn short_duration_buys_only_below_par() {
    let s = DiversifiedShortDurationStrategy::default();
    let portfolio = Portfolio { free_money: dec("100000"), bonds_count: KeyedMap::new() };
    let mut infos = KeyedMap::new();
    infos.insert("RU1".to_string(), info("RU1", DAY + 200));
    let mut volumes = KeyedMap::new();
    volumes.insert("RU1".to_string(), 1000);
    let mut yields = KeyedMap::new();
    yields.insert("RU1".to_string(), dec("0.12"));
    for (price, bought) in [("1010", false), ("1000", false), ("999.9", true), ("950", true)] {
        let mut prices = KeyedMap::new();
        prices.insert("RU1".to_string(), dec(price));
        let orders = s.decide_trades(DAY, &portfolio, &infos, &prices, &volumes, &yields).unwrap();
        assert_eq!(!orders.is_empty(), bought, "price {}", price);
    }
    // the high-yield strategy still buys at par
    let h = HighYieldShortStrategy::default();
    let mut infos = KeyedMap::new();
    infos.insert("RU1".to_string(), info("RU1", DAY + 200));
    let mut prices = KeyedMap::new();
    prices.insert("RU1".to_string(), dec("1000"));
    let mut high = KeyedMap::new();
    high.insert("RU1".to_string(), dec("0.30"));
    let orders = h.decide_trades(DAY, &portfolio, &infos, &prices, &volumes, &high).unwrap();
    assert_eq!(orders.len(), 1);
}

#[test]
fn stop_loss_sells_bonds_far_below_par() {
    let s = DiversifiedShortDurationStrategy::default();
    let mut counts = KeyedMap::new();
    counts.insert("RU2".to_string(), 4);
    let portfolio = Portfolio { free_money: dec("1000"), bonds_count: counts };
    let mut infos = KeyedMap::new();
    infos.insert("RU2".to_string(), info("RU2", DAY + 200));
    let mut prices = KeyedMap::new();
    prices.insert("RU2".to_string(), dec("600"));
    let orders = s.decide_trades(DAY, &portfolio, &infos, &prices, &KeyedMap::new(), &KeyedMap::new()).unwrap();
    assert_eq!(orders.len(), 1);
    assert_eq!(orders[0].order_type, MarketOrderType::Sell);
    assert_eq!(orders[0].count, 4);
    assert_eq!(orders[0].isin, "RU2");
}

#[test]
fn worthless_portfolio_places_no_orders() {
    let s = HighYieldShortStrategy::default();
    let portfolio = Portfolio { free_money: dec("0"), bonds_count: KeyedMap::new() };
    let orders = s
        .decide_trades(DAY, &portfolio, &KeyedMap::new(), &KeyedMap::new(), &KeyedMap::new(), &KeyedMap::new())
        .unwrap();
    assert!(orders.is_empty());
}

#[test]
fn ranking_is_stable_and_highest_first() {
    let c = |isin: &str, rank: &str| Candidate {
        isin: isin.to_string(),
        yield_xirr: dec(rank),
        rank: dec(rank),
        price: dec("100"),
        max_buy: 1,
    };
    let ranked = rank_candidates(vec![c("a", "0.1"), c("b", "0.3"), c("c", "0.1"), c("d", "0.2")]);
    let names: Vec<&str> = ranked.iter().map(|c| c.isin.as_str()).collect();
    assert_eq!(names, vec!["b", "d", "a", "c"]);
}
