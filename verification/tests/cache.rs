use metaboss::cache::{CacheItem, DecodeCache};
use metaboss::error::DecodeError;

fn mints(names: &[&str]) -> Vec<String> {
    names.iter().map(|name| name.to_string()).collect()
}

fn fresh(name: &str) -> (String, CacheItem) {
    (name.to_string(), CacheItem { successful: false, error: None })
}

fn failed(name: &str, message: &str) -> (String, CacheItem) {
    (
        name.to_string(),
        CacheItem { successful: false, error: Some(message.to_string()) },
    )
}

#[test]
fn new_cache_is_empty() {
    assert_eq!(DecodeCache::new().write(), vec![]);
    assert_eq!(DecodeCache::default().write(), vec![]);
}

#[test]
fn cache_keeps_the_first_place_of_a_mint() {
    let cache = DecodeCache::from_mints(&mints(&["b", "a", "b", "c", "a"]));
    assert_eq!(cache.write(), vec![fresh("b"), fresh("a"), fresh("c")]);
}

#[test]
fn insert_replaces_in_place() {
    let mut cache = DecodeCache::from_mints(&mints(&["b", "a"]));
    cache.insert("b".to_string(), CacheItem { successful: true, error: None });
    cache.insert("c".to_string(), CacheItem { successful: false, error: None });
    let decoded = ("b".to_string(), CacheItem { successful: true, error: None });
    assert_eq!(cache.write(), vec![decoded, fresh("a"), fresh("c")]);
}

#[test]
fn known_mints_are_contained() {
    let cache = DecodeCache::from_mints(&mints(&["b", "a"]));
    assert!(cache.contains("a"));
    assert!(!cache.contains("c"));
}

#[test]
fn decoded_mints_do_not_remain() {
    let mut cache = DecodeCache::from_mints(&mints(&["b", "a", "c"]));
    cache.mark_successful("a");
    assert_eq!(cache.remaining(), mints(&["b", "c"]));
    assert_eq!(cache.write_errors(), vec![fresh("b"), fresh("c")]);
}

#[test]
fn errors_are_entered_for_their_mints() {
    let mut cache = DecodeCache::from_mints(&mints(&["a", "b", "c", "d", "e", "f"]));
    cache.mark_successful("f");
    cache.update_errors(vec![
        Err(DecodeError::MissingAccount("a".to_string())),
        Err(DecodeError::ClientError("b".to_string(), "refused".to_string())),
        Err(DecodeError::NetworkError("c".to_string(), "timeout".to_string())),
        Err(DecodeError::PubkeyParseFailed("d".to_string())),
        Err(DecodeError::DecodeMetadataFailed("e".to_string(), "bad".to_string())),
    ]);
    assert_eq!(
        cache.write_errors(),
        vec![
            failed("a", "no account data found"),
            failed("b", "failed to get account data: refused"),
            failed("c", "network request failed: timeout"),
            failed("d", "failed to parse string into Pubkey"),
            failed("e", "failed to decode metadata: bad"),
        ]
    );
}

#[test]
fn last_error_of_a_mint_counts() {
    let mut cache = DecodeCache::from_mints(&mints(&["a", "b"]));
    cache.mark_successful("a");
    cache.update_errors(vec![
        Err(DecodeError::PubkeyParseFailed("a".to_string())),
        Err(DecodeError::MissingAccount("a".to_string())),
    ]);
    assert_eq!(
        cache.write(),
        vec![failed("a", "no account data found"), fresh("b")]
    );
}

#[test]
fn error_names_its_account() {
    assert_eq!(DecodeError::MissingAccount("a".to_string()).account(), "a");
    assert_eq!(
        DecodeError::NetworkError("b".to_string(), "x".to_string()).account(),
        "b"
    );
}
