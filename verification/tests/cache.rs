use braavos_accumulator::cache::{bytes_eq, ElementCache};
use crypto_bigint::U256;

#[test]
fn bytes_eq_compares_contents() {
    assert!(bytes_eq(b"", b""));
    assert!(bytes_eq(b"abc", b"abc"));
    assert!(!bytes_eq(b"abc", b"abd"));
    assert!(!bytes_eq(b"abc", b"ab"));
    assert!(!bytes_eq(b"", b"x"));
}

#[test]
fn cache_returns_what_was_inserted() {
    // 23 and 47 are safe primes, as the cache's contract asks of exponents.
    let mut cache = ElementCache::new();
    assert!(cache.get(b"missing").is_none());
    cache.insert(b"key one".to_vec(), U256::from(23u64));
    cache.insert(b"key two".to_vec(), U256::from(47u64));
    assert_eq!(cache.get(b"key one"), Some(U256::from(23u64)));
    assert_eq!(cache.get(b"key two"), Some(U256::from(47u64)));
    assert!(cache.get(b"key three").is_none());
}
