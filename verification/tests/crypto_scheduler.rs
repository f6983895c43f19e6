use robond::crypto::{decrypt, encrypt, CryptoError};
use robond::scheduler::{retry_wait_secs, Dispatch, RequestScheduler};

#[test]
fn decrypt_gives_back_what_was_encrypted() {
    let key = [7u8; 32];
    let stored = encrypt("t.example-token", &key).unwrap();
    assert_eq!(decrypt(&stored, &key).unwrap(), "t.example-token");
    let other = [8u8; 32];
    assert_eq!(decrypt(&stored, &other).unwrap_err(), CryptoError::DecryptionFailed);
}

#[test]
fn decrypt_refuses_bad_input() {
    let key = [7u8; 32];
    assert_eq!(decrypt("not base64!", &key).unwrap_err(), CryptoError::Base64DecodeFailed);
    assert_eq!(decrypt("AAAA", &key).unwrap_err(), CryptoError::InvalidData);
}

#[test]
fn encryption_uses_fresh_nonces() {
    let key = [1u8; 32];
    let a = encrypt("same", &key).unwrap();
    let b = encrypt("same", &key).unwrap();
    assert_ne!(a, b);
}

#[test]
fn requests_go_round_the_clients() {
    let mut s = RequestScheduler::new(5, 2, 3);
    let first = s.start();
    assert_eq!(
        first,
        vec![
            Dispatch { request: 0, client: 0 },
            Dispatch { request: 1, client: 1 },
            Dispatch { request: 2, client: 0 },
        ]
    );
    assert_eq!(s.on_response(), Some(Dispatch { request: 3, client: 1 }));
    assert_eq!(s.on_response(), Some(Dispatch { request: 4, client: 0 }));
    assert_eq!(s.on_response(), None);
    let mut few = RequestScheduler::new(1, 4, 10);
    assert_eq!(few.start(), vec![Dispatch { request: 0, client: 0 }]);
}

#[test]
fn rate_limit_waits() {
    assert_eq!(retry_wait_secs(true, Some("17")), Some(17));
    assert_eq!(retry_wait_secs(true, None), None);
    assert_eq!(retry_wait_secs(true, Some("soon")), None);
    assert_eq!(retry_wait_secs(true, Some("+30")), Some(30));
    assert_eq!(retry_wait_secs(true, Some("-1")), None);
    assert_eq!(retry_wait_secs(true, Some("+")), None);
    assert_eq!(retry_wait_secs(true, Some("")), None);
    assert_eq!(retry_wait_secs(true, Some("18446744073709551616")), None);
    assert_eq!(retry_wait_secs(true, Some("18446744073709551615")), Some(u64::MAX));
    assert_eq!(retry_wait_secs(false, Some("17")), None);
}
