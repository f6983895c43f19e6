use robond::config::{ApiConfig, ApiConfigError, ClientConfig, ConfigError, DbConfig, EndPoint};
use robond::text::{coupon_type_name, group_thousands, i64_to_string, none_if_empty, u64_to_string};

#[test]
fn numbers_in_decimal() {
    assert_eq!(u64_to_string(0), "0");
    assert_eq!(u64_to_string(5432), "5432");
    assert_eq!(i64_to_string(-17), "-17");
    assert_eq!(i64_to_string(i64::MIN), "-9223372036854775808");
}

#[test]
fn thousands_are_grouped_from_the_end() {
    assert_eq!(group_thousands(1_000_000), "1 000 000");
    assert_eq!(group_thousands(12_345), "12 345");
    assert_eq!(group_thousands(999), "999");
    assert_eq!(group_thousands(-100), "- 100");
    assert_eq!(group_thousands(-1000), "-1 000");
}

#[test]
fn optional_fields_drop_empty_and_unknown() {
    assert_eq!(none_if_empty("  RUB "), Some("RUB".to_string()));
    assert_eq!(none_if_empty("   "), None);
    assert_eq!(none_if_empty("unknown"), None);
    assert_eq!(none_if_empty(" Unknown"), None);
    assert_eq!(none_if_empty("UNKNOWN"), Some("UNKNOWN".to_string()));
    // white space is Unicode's: tabs, line breaks, the ideographic space
    assert_eq!(none_if_empty("\u{3000}\tRUB \n"), Some("RUB".to_string()));
    assert_eq!(none_if_empty("\u{a0}a b\u{2028}"), Some("a b".to_string()));
}

#[test]
fn coupon_kinds_have_names() {
    assert_eq!(coupon_type_name(1), Some("Постоянный"));
    assert_eq!(coupon_type_name(3), Some("Дисконт"));
    assert_eq!(coupon_type_name(7), Some("Прочее"));
    assert_eq!(coupon_type_name(0), None);
    assert_eq!(coupon_type_name(8), None);
}

#[test]
fn database_urls() {
    let db = DbConfig {
        host: "db.local".to_string(),
        port: 5432,
        database: "history".to_string(),
        username: "reader".to_string(),
        password: "pw".to_string(),
        max_connections: 5,
    };
    assert_eq!(db.database_url(), "postgresql://reader:pw@db.local:5432/history");
    let client = ClientConfig {
        host: "h".to_string(),
        port: 6432,
        username: "u".to_string(),
        password: "p".to_string(),
        max_connections: 5,
        ssl_root_cert_path: "/etc/ca.pem".to_string(),
    };
    assert_eq!(
        client.database_url(),
        "postgresql://u:p@h:6432/bonds_db?sslmode=verify-full&sslrootcert=/etc/ca.pem"
    );
}

fn some(s: &str) -> Option<String> {
    Some(s.to_string())
}

#[test]
fn db_config_from_variables() {
    let c = DbConfig::from_vars(some("h"), some("5432"), some("d"), some("u"), some("p")).unwrap();
    assert_eq!(c.port, 5432);
    assert_eq!(c.max_connections, 5);
    match DbConfig::from_vars(None, some("5432"), some("d"), some("u"), some("p")) {
        Err(ConfigError::MissingEnvVar(v)) => assert_eq!(v, "DB_HOST"),
        _ => panic!("expected a missing host"),
    }
    match DbConfig::from_vars(some("h"), some("port"), None, some("u"), some("p")) {
        Err(ConfigError::InvalidEnvVar(v)) => assert_eq!(v, "DB_PORT"),
        _ => panic!("expected an invalid port"),
    }
    match DbConfig::from_vars(some("h"), some("70000"), some("d"), some("u"), some("p")) {
        Err(ConfigError::InvalidEnvVar(v)) => assert_eq!(v, "DB_PORT"),
        _ => panic!("expected an invalid port"),
    }
    match DbConfig::from_vars(some("h"), some("1"), some("d"), some("u"), None) {
        Err(ConfigError::MissingEnvVar(v)) => assert_eq!(v, "DB_PASSWORD"),
        _ => panic!("expected a missing password"),
    }
    assert!(ClientConfig::from_vars(some("h"), some("1"), some("u"), some("p"), None).is_none());
    assert_eq!(ClientConfig::from_vars(some("h"), some("+80"), some("u"), some("p"), some("c")).unwrap().port, 80);
    assert_eq!(ClientConfig::from_vars(some("h"), some("65535"), some("u"), some("p"), some("c")).unwrap().port, 65535);
    assert_eq!(ClientConfig::from_vars(some("h"), some("0080"), some("u"), some("p"), some("c")).unwrap().port, 80);
    assert!(ClientConfig::from_vars(some("h"), some("65536"), some("u"), some("p"), some("c")).is_none());
    assert!(ClientConfig::from_vars(some("h"), some(" 80"), some("u"), some("p"), some("c")).is_none());
    assert!(ClientConfig::from_vars(some("h"), some("-0"), some("u"), some("p"), some("c")).is_none());
    assert!(ClientConfig::from_vars(some("h"), some("٣"), some("u"), some("p"), some("c")).is_none());
}

#[test]
fn endpoints() {
    assert_eq!(EndPoint::Prod.url(), "https://invest-public-api.tinkoff.ru:443");
    assert_eq!(EndPoint::Sandbox.url(), "https://sandbox-invest-public-api.tinkoff.ru:443");
}

#[test]
fn api_config_from_variables() {
    // 32 zero bytes
    let key = "AAAAAAAAAAAAAAAAAAAAAAAAAAAAAAAAAAAAAAAAAAA=".to_string();
    let c = ApiConfig::from_vars(some("8080"), some("127.0.0.1:1"), Some(key.clone()), some("s")).unwrap();
    assert_eq!(c.listen_addr, "0.0.0.0:8080");
    assert_eq!(c.token_encryption_key, [0u8; 32]);
    let c = ApiConfig::from_vars(None, some("127.0.0.1:1"), Some(key.clone()), some("s")).unwrap();
    assert_eq!(c.listen_addr, "127.0.0.1:1");
    let c = ApiConfig::from_vars(None, None, Some(key.clone()), some("s")).unwrap();
    assert_eq!(c.listen_addr, "0.0.0.0:3000");
    assert!(matches!(ApiConfig::from_vars(None, None, None, some("s")), Err(ApiConfigError::MissingKey)));
    assert!(matches!(ApiConfig::from_vars(None, None, some("%%%"), some("s")), Err(ApiConfigError::InvalidKey)));
    assert!(matches!(ApiConfig::from_vars(None, None, some("AAAA"), some("s")), Err(ApiConfigError::WrongKeyLength)));
    assert!(matches!(ApiConfig::from_vars(None, None, Some(key), None), Err(ApiConfigError::MissingJwtSecret)));
}
