use hmac::{Hmac, Mac};
use ohmyphone::auth::{is_expired, signature_matches, signed_message, AuthError, AuthService};
use ohmyphone::nonce::{NonceStore, MAX_NONCES};
use sha2::Sha256;
use std::time::{SystemTime, UNIX_EPOCH};

type HmacSha256 = Hmac<Sha256>;

fn now_ms() -> i64 {
    SystemTime::now().duration_since(UNIX_EPOCH).unwrap().as_millis() as i64
}

fn sign(secret: &[u8], body: &[u8], timestamp: &str) -> String {
    let message = [body, timestamp.as_bytes()].concat();
    let mut mac = HmacSha256::new_from_slice(secret).unwrap();
    mac.update(&message);
    hex::encode(mac.finalize().into_bytes())
}

#[test]
fn test_valid_hmac() {
    let mut auth = AuthService::new("test-secret".to_string(), 30);
    let body = b"test body";
    let timestamp = SystemTime::now().duration_since(UNIX_EPOCH).unwrap().as_millis().to_string();

    let message = [body.as_slice(), timestamp.as_bytes()].concat();
    let mut mac = HmacSha256::new_from_slice(b"test-secret").unwrap();
    mac.update(&message);
    let signature = hex::encode(mac.finalize().into_bytes());

    assert!(auth
        .verify_request(Some(signature.as_str()), Some(timestamp.as_str()), body, now_ms())
        .is_ok());
}

#[test]
fn test_missing_headers() {
    let mut auth = AuthService::new("test-secret".to_string(), 30);
    assert!(auth.verify_request(None, None, b"test", now_ms()).is_err());
}

#[test]
fn missing_either_header() {
    let mut auth = AuthService::new("s".to_string(), 30);
    assert_eq!(auth.verify_request(None, Some("1000"), b"", 1000), Err(AuthError::MissingHeader));
    assert_eq!(auth.verify_request(Some("ab"), None, b"", 1000), Err(AuthError::MissingHeader));
}

#[test]
fn bad_timestamp() {
    let mut auth = AuthService::new("s".to_string(), 30);
    assert_eq!(auth.verify_request(Some("ab"), Some("12a"), b"", 1000), Err(AuthError::BadTimestamp));
    assert_eq!(auth.verify_request(Some("ab"), Some(""), b"", 1000), Err(AuthError::BadTimestamp));
    assert_eq!(
        auth.verify_request(Some("ab"), Some("99999999999999999999"), b"", 1000),
        Err(AuthError::BadTimestamp)
    );
}

#[test]
fn replay_is_detected() {
    let mut auth = AuthService::new("k".to_string(), 30);
    let ts = "1700000000000";
    let sig = sign(b"k", b"{}", ts);
    assert_eq!(auth.verify_request(Some(&sig), Some(ts), b"{}", 1_700_000_000_500), Ok(()));
    assert_eq!(
        auth.verify_request(Some(&sig), Some(ts), b"{}", 1_700_000_001_000),
        Err(AuthError::ReplayDetected)
    );
}

#[test]
fn bad_signature_still_consumes_nonce() {
    let mut auth = AuthService::new("k".to_string(), 30);
    let ts = "1700000000000";
    let sig = sign(b"other", b"{}", ts);
    assert_eq!(auth.verify_request(Some(&sig), Some(ts), b"{}", 1_700_000_000_000), Err(AuthError::InvalidSignature));
    assert_eq!(auth.nonce_count(), 1);
    assert_eq!(auth.verify_request(Some(&sig), Some(ts), b"{}", 1_700_000_000_000), Err(AuthError::ReplayDetected));
}

#[test]
fn expiry_window() {
    let mut auth = AuthService::new("k".to_string(), 30);
    let ts = "1700000000000";
    let sig = sign(b"k", b"", ts);
    assert_eq!(auth.verify_request(Some(&sig), Some(ts), b"", 1_700_000_031_000), Err(AuthError::Expired));
    assert_eq!(auth.verify_request(Some(&sig), Some(ts), b"", 1_699_999_969_000), Err(AuthError::Expired));
    assert_eq!(auth.nonce_count(), 0);
    assert_eq!(auth.verify_request(Some(&sig), Some(ts), b"", 1_700_000_030_999), Ok(()));
    assert!(!is_expired(0, 30_999, 30));
    assert!(is_expired(0, 31_000, 30));
    assert!(is_expired(i64::MIN, i64::MAX, 1_000_000));
    assert!(!is_expired(i64::MIN, i64::MAX, i64::MAX));
}

#[test]
fn single_bit_changes_break_the_signature() {
    let ts = "1700000000000";
    let sig = sign(b"k", b"hello", ts);
    let mut auth = AuthService::new("k".to_string(), 30);
    assert_eq!(auth.verify_request(Some(&sig), Some(ts), b"hellp", 1_700_000_000_000), Err(AuthError::InvalidSignature));
    let ts2 = "1700000000001";
    assert_eq!(auth.verify_request(Some(&sig), Some(ts2), b"hello", 1_700_000_000_000), Err(AuthError::InvalidSignature));
    assert_eq!(auth.verify_request(Some(&sig), Some(ts), b"hello", 1_700_000_000_000), Err(AuthError::ReplayDetected));
    let mut fresh = AuthService::new("k".to_string(), 30);
    assert_eq!(fresh.verify_request(Some(&sig), Some(ts), b"hello", 1_700_000_000_000), Ok(()));
}

#[test]
fn signature_must_be_lower_case_hex() {
    let ts = "5";
    let sig = sign(b"k", b"b", ts).to_uppercase();
    let mut auth = AuthService::new("k".to_string(), 30);
    assert_eq!(auth.verify_request(Some(&sig), Some(ts), b"b", 5), Err(AuthError::InvalidSignature));
}

#[test]
fn signature_matching_is_exact_hex() {
    assert!(signature_matches(&[0x00, 0xab, 0x10, 0xff], "00ab10ff"));
    assert!(!signature_matches(&[0x00, 0xab, 0x10, 0xff], "00AB10FF"));
    assert!(!signature_matches(&[0x00, 0xab], "00ab00"));
    assert!(signature_matches(&[], ""));
}

#[test]
fn message_is_body_then_timestamp() {
    assert_eq!(signed_message(b"abc", "123"), b"abc123".to_vec());
    assert_eq!(signed_message(b"", "9"), b"9".to_vec());
}

#[test]
fn nonce_store_bulk_eviction() {
    let mut store = NonceStore::new();
    for i in 0..MAX_NONCES as i64 {
        assert!(store.check_and_insert(i, vec!['s']));
    }
    assert_eq!(store.len(), MAX_NONCES);
    assert!(!store.check_and_insert(0, vec!['s']));
    assert!(store.check_and_insert(MAX_NONCES as i64, vec!['s']));
    assert_eq!(store.len(), 0);
    assert!(store.check_and_insert(0, vec!['s']));
    assert!(store.contains(0, &vec!['s']));
    assert!(!store.contains(0, &vec!['t']));
}

#[test]
fn replay_window_reopens_after_clear() {
    let mut auth = AuthService::new("k".to_string(), 1_000_000_000);
    let now = 1_700_000_000_000i64;
    let first_ts = now.to_string();
    let first_sig = sign(b"k", b"", &first_ts);
    assert_eq!(auth.verify_request(Some(&first_sig), Some(&first_ts), b"", now), Ok(()));
    for i in 1..=MAX_NONCES as i64 {
        let ts = (now + i).to_string();
        let sig = sign(b"k", b"", &ts);
        assert_eq!(auth.verify_request(Some(&sig), Some(&ts), b"", now), Ok(()));
    }
    assert_eq!(auth.nonce_count(), 0);
    assert_eq!(auth.verify_request(Some(&first_sig), Some(&first_ts), b"", now), Ok(()));
}

#[test]
fn freshness_then_signature_in_two_steps() {
    let mut auth = AuthService::new("k".to_string(), 30);
    let ts = "1700000000000";
    let sig = sign(b"k", b"body", ts);
    assert_eq!(auth.check_freshness(Some(&sig), Some(ts), 1_700_000_000_000), Ok(()));
    assert_eq!(auth.nonce_count(), 1);
    assert!(ohmyphone::auth::signature_valid(&auth.secret_bytes(), &sig, ts, b"body"));
    assert!(!ohmyphone::auth::signature_valid(b"k", &sig, ts, b"bodz"));
    assert_eq!(auth.check_freshness(Some(&sig), Some(ts), 1_700_000_000_000), Err(AuthError::ReplayDetected));
    assert_eq!(auth.check_freshness(Some(&sig), None, 1_700_000_000_000), Err(AuthError::MissingHeader));
}
