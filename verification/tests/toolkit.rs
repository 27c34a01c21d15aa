use std::sync::atomic::{AtomicUsize, Ordering};
use std::sync::Arc;

use exile_harness::http::{Cache, CachedHttp, FailHttp, FakeHttp, HttpGet};
use exile_harness::toolkit::{
    describe_get_failure, describe_get_status, now_utc, percent_encode, Game, USER_AGENT,
};

#[test]
fn now_utc_is_iso_like() {
    let stamp = now_utc();
    assert_eq!(stamp.len(), 20, "unexpected stamp: {stamp}");
    assert!(stamp.ends_with('Z'));
    assert_eq!(stamp.as_bytes()[10], b'T');
}

#[test]
fn fake_http_routes_by_substring() {
    let fake = FakeHttp {
        routes: vec![("example.com", "hello")],
    };
    assert_eq!(fake.get("https://example.com/x"), Ok("hello".to_owned()));
    assert!(fake.get("https://other.net/").is_err());
}

#[test]
fn fail_http_always_fails() {
    assert!(FailHttp.get("https://example.com").is_err());
}

#[test]
fn status_errors_have_a_stable_format() {
    // The price tool's fallback to the other endpoint looks for this.
    assert_eq!(
        describe_get_status("https://x/y", 404),
        "GET https://x/y failed: http status: 404"
    );
    assert_eq!(
        describe_get_failure("https://x/y", "timeout"),
        "GET https://x/y failed: timeout"
    );
}

struct Counting {
    calls: Arc<AtomicUsize>,
    fail: bool,
}

impl HttpGet for Counting {
    fn get(&self, url: &str) -> Result<String, String> {
        self.calls.fetch_add(1, Ordering::SeqCst);
        if self.fail {
            Err("down".to_owned())
        } else {
            Ok(format!("body for {url}"))
        }
    }
}

const MINUTE: u128 = 60_000_000_000;

#[test]
fn cached_http_serves_repeats_and_never_caches_errors() {
    let calls = Arc::new(AtomicUsize::new(0));
    let cache = CachedHttp::new(
        Box::new(Counting {
            calls: Arc::clone(&calls),
            fail: false,
        }),
        MINUTE,
    );
    assert!(cache.get("https://x/a").is_ok());
    assert!(cache.get("https://x/a").is_ok());
    assert!(cache.get("https://x/b").is_ok());
    // Two distinct URLs, two upstream calls; the repeat was cached.
    assert_eq!(calls.load(Ordering::SeqCst), 2);

    let failures = Arc::new(AtomicUsize::new(0));
    let cache = CachedHttp::new(
        Box::new(Counting {
            calls: Arc::clone(&failures),
            fail: true,
        }),
        MINUTE,
    );
    assert!(cache.get("https://x/a").is_err());
    assert!(cache.get("https://x/a").is_err());
    // Errors are never cached: both attempts hit upstream.
    assert_eq!(failures.load(Ordering::SeqCst), 2);
}

#[test]
fn cached_http_evicts_expired_entries_on_insert() {
    struct Ok200;
    impl HttpGet for Ok200 {
        fn get(&self, _url: &str) -> Result<String, String> {
            Ok("body".to_owned())
        }
    }

    // No time to live: every entry is expired by the next insert, so the
    // cache never holds more than the entry just written.
    let cache = CachedHttp::new(Box::new(Ok200), 0);
    for url in ["https://x/a", "https://x/b", "https://x/c"] {
        assert!(cache.get(url).is_ok());
        assert_eq!(cache.entry_count(), 1);
    }
}

#[test]
fn percent_encoding_covers_reserved_and_utf8() {
    assert_eq!(percent_encode("plain-safe_1.0~"), "plain-safe_1.0~");
    assert_eq!(percent_encode("a b&c=d"), "a%20b%26c%3Dd");
    assert_eq!(percent_encode("Kitava's"), "Kitava%27s");
    assert_eq!(percent_encode("é"), "%C3%A9");
}

#[test]
fn game_ids_are_stable() {
    assert_eq!(Game::Poe1.to_string(), "poe1");
    assert_eq!(Game::Poe2.as_str(), "poe2");
}

#[test]
fn ids_name_their_games() {
    assert_eq!(Game::from_id("poe1"), Some(Game::Poe1));
    assert_eq!(Game::from_id("poe2"), Some(Game::Poe2));
    assert_eq!(Game::from_id("POE1"), None);
    assert!(USER_AGENT.starts_with("exile-harness/"));
}

#[test]
fn bodies_live_as_long_as_they_should() {
    let mut cache = Cache::new();
    cache.store("a", 100, 50, "one");
    assert_eq!(cache.lookup("a", 149, 50).as_deref(), Some("one"));
    assert_eq!(cache.lookup("a", 150, 50), None);
    assert_eq!(cache.lookup("b", 100, 50), None);
    cache.store("b", 120, 50, "two");
    assert_eq!(cache.len(), 2);
    cache.store("a", 130, 50, "three");
    assert_eq!(cache.len(), 2);
    assert_eq!(cache.lookup("a", 150, 50).as_deref(), Some("three"));
    cache.store("c", 175, 50, "four");
    assert_eq!(cache.len(), 2, "b is gone");
    assert_eq!(cache.lookup("b", 140, 50), None);
}

#[test]
fn encoding_ends_at_the_last_byte() {
    assert_eq!(percent_encode(""), "");
    assert_eq!(percent_encode("/%\u{7f}\u{10ffff}"), "%2F%25%7F%F4%8F%BF%BF");
}

#[test]
fn cached_replies_are_settled_by_value() {
    let mut cache = Cache::new();
    cache.settle("u", 5, 10, &Err("down".to_owned()));
    assert_eq!(cache.len(), 0);
    cache.settle("u", 5, 10, &Ok("body".to_owned()));
    assert_eq!(cache.lookup("u", 14, 10).as_deref(), Some("body"));
    assert_eq!(cache.lookup("u", 15, 10), None);
    assert_eq!(cache.lookup("v", 6, 10), None);
    // An error leaves what is there.
    cache.settle("u", 6, 10, &Err("down".to_owned()));
    assert_eq!(cache.lookup("u", 14, 10).as_deref(), Some("body"));
    cache.settle("u", 7, 10, &Ok("newer".to_owned()));
    assert_eq!(cache.len(), 1);
    assert_eq!(cache.lookup("u", 16, 10).as_deref(), Some("newer"));
}
