use robond::api::{
    account_info, bearer_token, credentials_from_row, endpoint_from_name, list_strategies, sandbox_account_info,
    status_from_row, validate_connect, validate_create_portfolio, validate_fetch_accounts, validate_signup,
    validate_strategy, AccountKind, ApiError, ConnectRequest, CreatePortfolioRequest, FetchAccountsRequest,
    SetStrategyRequest,
};
use robond::api::{strategy_kind, user_credentials_from_row, StrategyKind};
use robond::bond_card::{bond_info, coupon_window, BondInstrument, CouponEvent};
use robond::config::EndPoint;
use robond::valuation::{live_portfolio, Security};
use robond::decimal::Dec;
use robond::keyed_map::KeyedMap;
use robond::quotation::MoneyValue;
use robond::valuation::{
    compute_market_value, compute_total_return, import_result, portfolio_value, position_prices,
    estimated_price, positions_to_import, run_result, Holding, PortfolioPosition,
};
use rust_decimal::Decimal;
use std::str::FromStr;

fn dec(s: &str) -> Dec {
    let d = Decimal::from_str(s).unwrap();
    Dec::new(d.mantissa(), d.scale()).unwrap()
}

fn to_decimal(d: Dec) -> Decimal {
    Decimal::from_i128_with_scale(d.mantissa(), d.scale())
}

fn bad_request(r: Result<(), ApiError>) -> String {
    match r {
        Err(ApiError::BadRequest(m)) => m,
        _ => panic!("expected a bad request"),
    }
}

#[test]
fn bearer_tokens() {
    assert_eq!(bearer_token("Bearer abc").ok(), Some("abc".to_string()));
    assert!(bearer_token("Basic abc").is_err());
    assert!(bearer_token("Bearer").is_err());
    assert_eq!(bearer_token("Bearer ").ok(), Some("".to_string()));
    assert_eq!(bearer_token("Bearer токен").ok(), Some("токен".to_string()));
    assert!(bearer_token("bearer abc").is_err());
}

#[test]
fn signup_validation() {
    assert_eq!(bad_request(validate_signup("", "secret")), "email and password are required");
    assert_eq!(bad_request(validate_signup("a@b", "")), "email and password are required");
    assert_eq!(bad_request(validate_signup("a@b", "12345")), "password must be at least 6 characters");
    assert!(validate_signup("a@b", "123456").is_ok());
    // six bytes but three characters
    assert_eq!(bad_request(validate_signup("a@b", "ééé")), "password must be at least 6 characters");
    assert_eq!(bad_request(validate_signup("a@b", "абв")), "password must be at least 6 characters");
    assert!(validate_signup("a@b", "пароль").is_ok());
}

#[test]
fn request_validation() {
    assert_eq!(
        bad_request(validate_create_portfolio(&CreatePortfolioRequest { name: String::new() })),
        "name is required"
    );
    assert!(validate_create_portfolio(&CreatePortfolioRequest { name: "p".to_string() }).is_ok());
    let req = FetchAccountsRequest { token: String::new(), endpoint: "production".to_string(), initial_amount: None };
    assert_eq!(bad_request(validate_fetch_accounts(&req)), "token is required");
    assert_eq!(robond::api::sandbox_amount(&req), 1_000_000);
    let c = ConnectRequest { token: "t".to_string(), account_id: "a".to_string(), endpoint: "production".to_string() };
    assert_eq!(validate_connect(&c).ok(), Some("production"));
    let c = ConnectRequest { token: "t".to_string(), account_id: "a".to_string(), endpoint: "prod".to_string() };
    assert_eq!(validate_connect(&c).ok(), Some("sandbox"));
    let c = ConnectRequest { token: String::new(), account_id: "a".to_string(), endpoint: "prod".to_string() };
    match validate_connect(&c) {
        Err(ApiError::BadRequest(m)) => assert_eq!(m, "token and account_id are required"),
        _ => panic!("expected a bad request"),
    }
    assert_eq!(endpoint_from_name("production"), EndPoint::Prod);
    assert_eq!(endpoint_from_name("sandbox"), EndPoint::Sandbox);
}

#[test]
fn strategies_offered_and_checked() {
    let list = list_strategies();
    assert_eq!(list.len(), 3);
    assert_eq!(list[1].id, "high_yield_short");
    assert!(validate_strategy(&SetStrategyRequest { strategy_name: "yield_maximizer".to_string() }).is_ok());
    assert_eq!(
        bad_request(validate_strategy(&SetStrategyRequest { strategy_name: "x".to_string() })),
        format!("unknown strategy 'x'. Valid: {:?}", ["diversified_short_duration", "high_yield_short", "yield_maximizer"])
    );
}

#[test]
fn stored_credentials() {
    let row = Some((Some("t".to_string()), Some("a".to_string()), None));
    let (t, a, e) = credentials_from_row(row.clone()).ok().unwrap();
    assert_eq!((t.as_str(), a.as_str(), e.as_str()), ("t", "a", "sandbox"));
    assert!(matches!(credentials_from_row(None), Err(ApiError::NotFound)));
    match credentials_from_row(Some((None, Some("a".to_string()), None))) {
        Err(ApiError::BadRequest(m)) => assert_eq!(m, "T-Invest not connected for this portfolio"),
        _ => panic!("expected a bad request"),
    }
    let s = status_from_row(Some((Some("t".to_string()), Some("a".to_string()), Some("production".to_string()))));
    assert!(s.connected);
    assert_eq!(s.endpoint, Some("production".to_string()));
    let s = status_from_row(row.map(|(_, a, e)| (None, a, e)));
    assert!(!s.connected && s.account_id.is_none());
}

#[test]
fn accounts() {
    let a = account_info("1".to_string(), String::new(), AccountKind::Iis);
    assert_eq!(a.name, "ИИС");
    assert_eq!(a.account_type, "ИИС");
    let a = account_info("1".to_string(), "Мой".to_string(), AccountKind::Brokerage);
    assert_eq!(a.name, "Мой");
    assert_eq!(a.account_type, "Брокерский счёт");
    let s = sandbox_account_info("id".to_string(), 1_000_000);
    assert_eq!(s.name, "Новый sandbox-счёт (1 000 000 ₽)");
    assert_eq!(s.account_type, "Sandbox");
}

fn money(units: i64, nano: i32) -> Option<MoneyValue> {
    Some(MoneyValue { currency: "rub".to_string(), units, nano })
}

#[test]
fn portfolio_valued_at_broker_prices() {
    let holdings = vec![
        Holding { isin: "TICK1".to_string(), quantity: 3 },
        Holding { isin: "FIGI2".to_string(), quantity: 2 },
        Holding { isin: "OTHER".to_string(), quantity: 5 },
    ];
    let positions = vec![
        PortfolioPosition {
            instrument_type: "bond".to_string(),
            ticker: "TICK1".to_string(),
            figi: "F1".to_string(),
            current_price: money(1000, 0),
            current_nkd: money(10, 500_000_000),
        },
        PortfolioPosition {
            instrument_type: "bond".to_string(),
            ticker: "TICK2".to_string(),
            figi: "FIGI2".to_string(),
            current_price: money(99, 123_000_000),
            current_nkd: None,
        },
        PortfolioPosition {
            instrument_type: "share".to_string(),
            ticker: "OTHER".to_string(),
            figi: "F3".to_string(),
            current_price: money(5, 0),
            current_nkd: None,
        },
    ];
    let prices = position_prices(&positions).unwrap();
    // the bond without a market price is estimated at nominal plus accrued interest
    let mut estimates = KeyedMap::new();
    estimates.insert("OTHER".to_string(), estimated_price(&money(1000, 0), &money(5, 250_000_000)).unwrap());
    let v = portfolio_value(&holdings, dec("100.005"), Some(&prices), &estimates).unwrap();
    assert_eq!(v.holdings.len(), 3);
    assert_eq!(v.holdings[0].price, "1010.50");
    assert_eq!(v.holdings[0].value, "3031.50");
    assert!(!v.holdings[0].estimated);
    assert_eq!(v.holdings[1].name, "TICK2");
    assert_eq!(v.holdings[1].value, "198.25");
    assert!(v.holdings[2].estimated);
    assert_eq!(v.holdings[2].name, "OTHER");
    assert_eq!(v.holdings[2].price, "1005.25");
    assert_eq!(v.holdings[2].value, "5026.25");
    assert_eq!(v.bonds_value, "8256.00");
    assert_eq!(v.cash, "100.00");
    assert_eq!(v.total_value, "8356.00");
    // without an estimate the bond is priced at zero
    let v = portfolio_value(&holdings, dec("100.005"), Some(&prices), &KeyedMap::new()).unwrap();
    assert_eq!(v.holdings[2].price, "0");
    assert_eq!(v.bonds_value, "3229.75");
    assert_eq!(v.total_value, "3329.75");
}

#[test]
fn estimated_price_adds_nominal_and_interest() {
    assert_eq!(to_decimal(estimated_price(&money(1000, 0), &money(12, 340_000_000)).unwrap()), Decimal::from_str("1012.34").unwrap());
    assert_eq!(to_decimal(estimated_price(&None, &money(7, 0)).unwrap()), Decimal::from(7));
    assert_eq!(to_decimal(estimated_price(&money(500, 0), &None).unwrap()), Decimal::from(500));
}

#[test]
fn portfolio_value_without_holdings_or_broker() {
    let v = portfolio_value(&vec![], dec("5.5"), None, &KeyedMap::new()).unwrap();
    assert!(v.holdings.is_empty());
    assert_eq!(v.bonds_value, "0");
    assert_eq!(v.total_value, "5.5");
    let v = portfolio_value(&vec![Holding { isin: "A".to_string(), quantity: 1 }], dec("5.5"), None, &KeyedMap::new()).unwrap();
    assert_eq!(v.holdings[0].price, "0");
    assert!(v.holdings[0].estimated);
    assert_eq!(v.cash, "5.5");
}

#[test]
fn market_value_and_total_return() {
    let holdings = vec![Holding { isin: "A".to_string(), quantity: 2 }, Holding { isin: "B".to_string(), quantity: 7 }];
    let mut prices = KeyedMap::new();
    prices.insert("A".to_string(), dec("950.5"));
    let (bonds, cash, total) = compute_market_value(&holdings, dec("100"), &prices).unwrap();
    assert_eq!(to_decimal(bonds), Decimal::from(1901));
    assert_eq!(to_decimal(cash), Decimal::from(100));
    assert_eq!(to_decimal(total), Decimal::from(2001));
    assert_eq!(to_decimal(compute_total_return(&vec![dec("100"), dec("90"), dec("125")]).unwrap()), Decimal::from_str("0.25").unwrap());
    assert!(compute_total_return(&vec![dec("100")]).is_none());
    assert!(compute_total_return(&vec![dec("0"), dec("1")]).is_none());
}

#[test]
fn import_and_run_results() {
    let mut counts = KeyedMap::new();
    counts.insert("A".to_string(), 3);
    counts.insert("B".to_string(), 0);
    counts.insert("C".to_string(), 2);
    let to_import = positions_to_import(&counts);
    assert_eq!(to_import, vec![("A".to_string(), 3), ("C".to_string(), 2)]);
    let r = import_result(to_import.len(), dec("1234.5"));
    assert_eq!(r.holdings_imported, 2);
    assert_eq!(r.cash_rub, "1234.5");
    let run = run_result("high_yield_short", 2, dec("10"));
    assert_eq!(run.orders_count, 2);
    assert_eq!(run.message, "Strategy 'high_yield_short' executed. Imported 2 holdings, cash: 10 RUB");
}

#[test]
fn connection_statuses() {
    let s = robond::api::connected_status("acc".to_string(), "sandbox");
    assert!(s.connected);
    assert_eq!(s.account_id, Some("acc".to_string()));
    assert_eq!(s.endpoint, Some("sandbox".to_string()));
    let d = robond::api::disconnected();
    assert!(!d.connected && d.account_id.is_none() && d.endpoint.is_none());
}

#[test]
fn live_portfolio_from_positions() {
    let money = vec![MoneyValue { currency: "rub".to_string(), units: 5000, nano: 500_000_000 }];
    let securities = vec![
        Security { instrument_type: "bond".to_string(), ticker: "RU1".to_string(), balance: 3 },
        Security { instrument_type: "bond".to_string(), ticker: "RU2".to_string(), balance: 1 },
    ];
    let p = live_portfolio(&money, &securities).unwrap();
    assert_eq!(to_decimal(p.free_money), Decimal::from_str("5000.5").unwrap());
    assert_eq!(p.bonds_count.get(&"RU1".to_string()), Some(3));
    assert_eq!(p.bonds_count.len(), 2);
    let usd = vec![MoneyValue { currency: "usd".to_string(), units: 1, nano: 0 }];
    assert!(live_portfolio(&usd, &securities).is_none());
    let shares = vec![Security { instrument_type: "share".to_string(), ticker: "X".to_string(), balance: 1 }];
    assert!(live_portfolio(&money, &shares).is_none());
    assert!(live_portfolio(&vec![], &securities).is_none());
}

#[test]
fn bond_descriptions() {
    let b = BondInstrument {
        name: "ОФЗ 26248".to_string(),
        ticker: "SU26248RMFS3".to_string(),
        isin: "RU000A108EH4".to_string(),
        currency: " rub ".to_string(),
        nominal: money(1000, 0),
        aci_value: money(12, 340_000_000),
        coupon_quantity_per_year: 2,
        maturity_date: Some(86_400 * 365),
        country_of_risk_name: "Российская Федерация".to_string(),
        sector: "unknown".to_string(),
        exchange: String::new(),
        floating_coupon_flag: false,
        amortization_flag: true,
        perpetual_flag: false,
        buy_available_flag: true,
        sell_available_flag: false,
    };
    let c = CouponEvent { coupon_type: 1, pay_one_bond: money(61, 0), coupon_date: Some(0) };
    let info = bond_info(b, Some(c));
    assert_eq!(info.currency, Some("RUB".to_string()));
    assert_eq!(info.nominal, Some("1000.000000000".to_string()));
    assert_eq!(info.coupon_quantity_per_year, Some(2));
    assert_eq!(info.maturity_date, Some("01.01.1971".to_string()));
    assert_eq!(info.sector, None);
    assert_eq!(info.exchange, None);
    assert_eq!(info.country_of_risk_name, Some("Российская Федерация".to_string()));
    assert_eq!(info.coupon_type, Some("Постоянный".to_string()));
    assert_eq!(info.coupon_amount, Some("61.000000000 RUB".to_string()));
    assert_eq!(info.next_coupon_date, Some("01.01.1970".to_string()));
    assert!(info.amortization && info.buy_available && !info.sell_available);
    assert_eq!(coupon_window(100), (100, 100 + 730 * 86_400));
}

#[test]
fn strategy_assignment() {
    assert_eq!(strategy_kind(Some("yield_maximizer")).ok(), Some(StrategyKind::YieldMaximizer));
    assert_eq!(strategy_kind(Some("high_yield_short")).ok(), Some(StrategyKind::HighYieldShort));
    match strategy_kind(None) {
        Err(ApiError::BadRequest(m)) => assert_eq!(m, "no strategy assigned to this portfolio"),
        _ => panic!("expected a bad request"),
    }
    match strategy_kind(Some("x")) {
        Err(ApiError::BadRequest(m)) => assert_eq!(m, "unknown strategy"),
        _ => panic!("expected a bad request"),
    }
    match user_credentials_from_row(None) {
        Err(ApiError::BadRequest(m)) => assert_eq!(m, "T-Invest not connected"),
        _ => panic!("expected a bad request"),
    }
    let (_, _, e) = user_credentials_from_row(Some((Some("t".to_string()), Some("a".to_string()), None))).ok().unwrap();
    assert_eq!(e, "sandbox");
}

#[test]
fn authorization_values_read_back() {
    let v = robond::api::authorization_value("t.abc");
    assert_eq!(v, "Bearer t.abc");
    assert_eq!(bearer_token(&v).ok(), Some("t.abc".to_string()));
}

#[test]
fn prices_are_shown_rounded_half_to_even() {
    let holdings = vec![
        Holding { isin: "A".to_string(), quantity: 1 },
        Holding { isin: "B".to_string(), quantity: 1 },
        Holding { isin: "C".to_string(), quantity: -2 },
    ];
    let bond = |t: &str, units: i64, nano: i32| PortfolioPosition {
        instrument_type: "bond".to_string(),
        ticker: t.to_string(),
        figi: String::new(),
        current_price: money(units, nano),
        current_nkd: None,
    };
    let prices = position_prices(&vec![bond("A", 0, 125_000_000), bond("B", 0, 135_000_000), bond("C", 1, 5_000_000)]).unwrap();
    let v = portfolio_value(&holdings, dec("0"), Some(&prices), &KeyedMap::new()).unwrap();
    assert_eq!(v.holdings[0].price, "0.12");
    assert_eq!(v.holdings[1].price, "0.14");
    assert_eq!(v.holdings[2].value, "-2.01");
    assert_eq!(v.bonds_value, "-1.75");
    assert_eq!(v.cash, "0");
}
