use robond::decimal::Dec;
use robond::quotation::{
    decimal_and_currency_to_money_value, decimal_to_quotation, live_price, money_value_to_decimal,
    money_value_to_quotation, quotation_and_currency_to_money_value, quotation_to_decimal,
    try_decimal_and_currency_to_money_value, try_decimal_to_quotation, MoneyValue, Quotation,
};
use rust_decimal::Decimal;
use std::str::FromStr;

fn dec(s: &str) -> Dec {
    let d = Decimal::from_str(s).unwrap();
    Dec::new(d.mantissa(), d.scale()).unwrap()
}

fn of(d: Decimal) -> Dec {
    Dec::new(d.mantissa(), d.scale()).unwrap()
}

fn to_decimal(d: Dec) -> Decimal {
    Decimal::from_i128_with_scale(d.mantissa(), d.scale())
}

fn cases() -> Vec<(Quotation, Decimal)> {
    vec![
        (Quotation { units: 114, nano: 250000000 }, Decimal::from_str("114.25").unwrap()),
        (Quotation { units: -200, nano: -200000000 }, Decimal::from_str("-200.20").unwrap()),
        (Quotation { units: -0, nano: -10000000 }, Decimal::from_str("-0.01").unwrap()),
    ]
}

#[test]
fn test_quotation_to_decimal() {
    for (quotation, decimal) in cases() {
        assert_eq!(to_decimal(quotation_to_decimal(quotation)), decimal);
    }
}

#[test]
fn test_decimal_to_quotation() {
    for (quotation, decimal) in cases() {
        assert_eq!(decimal_to_quotation(of(decimal)), quotation);
    }
}

#[test]
fn decimal_to_quotation_overflow() {
    assert!(try_decimal_to_quotation(of(Decimal::MAX)).is_none());
}

#[test]
fn decimal_to_quotation_overflow2() {
    let d = Decimal::MAX / Decimal::from(1_000_000_000i64);
    assert!(try_decimal_to_quotation(of(d)).is_none());
}

#[test]
fn test_money_value_to_quotation() {
    let money = MoneyValue { currency: "RUB".to_string(), units: 123, nano: 450_000_000 };
    assert_eq!(money_value_to_quotation(&money), Quotation { units: 123, nano: 450_000_000 });
}

#[test]
fn test_quotation_to_money_value() {
    let quotation = Quotation { units: -7, nano: -80_000_000 };
    assert_eq!(
        quotation_and_currency_to_money_value(&quotation, "USD"),
        MoneyValue { currency: "USD".to_string(), units: -7, nano: -80_000_000 }
    );
}

#[test]
fn test_money_value_to_decimal() {
    let money = MoneyValue { currency: "RUB".to_string(), units: 114, nano: 250_000_000 };
    assert_eq!(to_decimal(money_value_to_decimal(&money)), Decimal::from_str("114.25").unwrap());
}

#[test]
fn test_decimal_to_money_value() {
    assert_eq!(
        decimal_and_currency_to_money_value(dec("-200.20"), "EUR"),
        MoneyValue { currency: "EUR".to_string(), units: -200, nano: -200_000_000 }
    );
}

#[test]
fn quotation_round_trip() {
    for q in [
        Quotation { units: 0, nano: 0 },
        Quotation { units: 1, nano: 1 },
        Quotation { units: -5, nano: -999_999_999 },
        Quotation { units: 12_345_678_901, nano: 5 },
        Quotation { units: i64::MAX, nano: 999_999_999 },
        Quotation { units: i64::MIN, nano: -999_999_999 },
        Quotation { units: 0, nano: -1 },
    ] {
        assert_eq!(decimal_to_quotation(quotation_to_decimal(q)), q);
    }
}

#[test]
fn decimals_of_few_places_are_quotations_exactly() {
    assert_eq!(try_decimal_to_quotation(dec("7")), Some(Quotation { units: 7, nano: 0 }));
    assert_eq!(try_decimal_to_quotation(dec("-3.5")), Some(Quotation { units: -3, nano: -500_000_000 }));
    assert_eq!(try_decimal_to_quotation(dec("9223372036854775807.123456789")), Some(Quotation { units: i64::MAX, nano: 123_456_789 }));
    assert_eq!(try_decimal_to_quotation(dec("-0.000000001")), Some(Quotation { units: 0, nano: -1 }));
    // the integer part does not fit in an i64
    assert_eq!(try_decimal_to_quotation(dec("9223372036854775808")), None);
}

#[test]
fn billionths_are_truncated_toward_zero() {
    assert_eq!(decimal_to_quotation(dec("1.0000000009")), Quotation { units: 1, nano: 0 });
    assert_eq!(decimal_to_quotation(dec("-2.0000000019")), Quotation { units: -2, nano: -1 });
}

#[test]
fn money_value_refused_where_quotation_is() {
    assert!(try_decimal_and_currency_to_money_value(of(Decimal::MAX), "RUB").is_none());
    let m = try_decimal_and_currency_to_money_value(dec("3.5"), "RUB").unwrap();
    assert_eq!(m, MoneyValue { currency: "RUB".to_string(), units: 3, nano: 500_000_000 });
}

#[test]
fn live_price_is_points_of_nominal_plus_interest() {
    let nominal = MoneyValue { currency: "rub".to_string(), units: 1000, nano: 0 };
    let aci = MoneyValue { currency: "rub".to_string(), units: 12, nano: 340_000_000 };
    let points = Quotation { units: 98, nano: 500_000_000 };
    let p = live_price(points, true, true, &nominal, &aci).unwrap();
    assert_eq!(to_decimal(p), Decimal::from_str("997.34").unwrap());
    assert!(live_price(points, false, true, &nominal, &aci).is_none());
    assert!(live_price(points, true, false, &nominal, &aci).is_none());
}
