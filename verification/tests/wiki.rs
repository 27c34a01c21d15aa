use std::sync::atomic::{AtomicUsize, Ordering};
use std::sync::{Arc, Mutex};

use serde_json::Value;

use exile_harness::http::{FailHttp, FakeHttp, HttpGet};
use exile_harness::league::{LeagueData, LeagueTool};
use exile_harness::price::PriceTool;
use exile_harness::tool::{Tool, ToolError};
use exile_harness::toolkit::Game;
use exile_harness::wiki::{
    render_page, serve_stored, url_of_search, PageFetch, PageStore, StoredPage, VintageCache,
    WikiTool,
};

const SEARCH_FIXTURE: &str = r#"{"batchcomplete":true,"query":{"searchinfo":{"totalhits":2},"search":[{"pageid":1,"ns":0,"title":"Maps","snippet":"the <span class=\"searchmatch\">map</span> system","wordcount":2000,"size":1,"timestamp":"2026-01-01T00:00:00Z"},{"pageid":2,"ns":0,"title":"Map fragments","snippet":"fragments","wordcount":300,"size":1,"timestamp":"2026-01-01T00:00:00Z"}]}}"#;

const PAGE_FIXTURE: &str = r#"{"parse":{"title":"Maps","pageid":1,"text":"<div class=\"mw-parser-output\"><p><b>Maps</b> are <a href=\"/wiki/Atlas\">atlas</a> items.</p><table class=\"wikitable\"><tr><th>Tier</th><th>Level</th></tr><tr><td>1</td><td>68</td></tr></table><h2>Mechanics</h2><p>Running maps grants progress.</p><script>tracker()</script></div>"}}"#;

const MISSING_FIXTURE: &str = r#"{"error":{"code":"missingtitle","info":"The page you specified doesn't exist.","docref":"x"}}"#;

fn tool(routes: Vec<(&'static str, &'static str)>) -> WikiTool {
    WikiTool::with_http(Box::new(FakeHttp { routes }))
}

fn parse(result: &str) -> Value {
    serde_json::from_str(result).expect("tool returns valid JSON")
}

#[test]
fn search_returns_cleaned_results_with_source() {
    let tool = tool(vec![("poewiki.net", SEARCH_FIXTURE)]);
    let result = parse(
        &tool
            .execute(r#"{"game":"poe1","search":"map system"}"#)
            .expect("executes"),
    );
    assert_eq!(result["game"], "poe1");
    assert!(result["fetched_at"].as_str().expect("stamp").contains('T'));
    let search = &result["search"];
    assert_eq!(search["results"][0]["title"], "Maps");
    assert_eq!(search["results"][0]["snippet"], "the map system");
    let source = search["source"].as_str().expect("source");
    assert!(source.contains("poewiki.net"));
    assert!(source.contains("map%20system"));
}

#[test]
fn page_returns_readable_truncatable_text() {
    let tool = tool(vec![("poe2wiki.net", PAGE_FIXTURE)]);
    let result = parse(
        &tool
            .execute(r#"{"game":"poe2","page":"Maps"}"#)
            .expect("executes"),
    );
    let page = &result["page"];
    assert_eq!(page["title"], "Maps");
    let text = page["text"].as_str().expect("text");
    assert!(text.contains("Maps are atlas items."));
    assert!(text.contains("| Tier | Level"), "table data must survive");
    assert!(text.contains("| 1 | 68"));
    assert!(text.contains("Mechanics"));
    assert!(!text.contains("tracker()"), "scripts must not leak");
    assert_eq!(page["truncated"], false);
    let source = page["source"].as_str().expect("source");
    assert!(source.contains("poe2wiki.net"));
    assert!(source.contains("prop=text"), "must fetch rendered HTML");
}

#[test]
fn page_truncation_respects_budget() {
    let tool = tool(vec![("poewiki.net", PAGE_FIXTURE)]);
    let result = parse(
        &tool
            .execute(r#"{"game":"poe1","page":"Maps","max_chars":200}"#)
            .expect("executes"),
    );
    // Budget is clamped to >= 200; fixture text is shorter than that.
    assert_eq!(result["page"]["truncated"], false);
}

#[test]
fn games_route_to_their_own_wikis() {
    let tool = tool(vec![
        ("poewiki.net", SEARCH_FIXTURE),
        ("poe2wiki.net", SEARCH_FIXTURE),
    ]);
    for (game, host) in [("poe1", "poewiki.net"), ("poe2", "poe2wiki.net")] {
        let result = parse(
            &tool
                .execute(&format!(r#"{{"game":"{game}","search":"x"}}"#))
                .expect("executes"),
        );
        assert!(
            result["search"]["source"]
                .as_str()
                .expect("source")
                .contains(host),
            "{game} must hit {host}"
        );
    }
}

#[derive(Clone, Default)]
struct Memory {
    pages: Arc<Mutex<Vec<(String, String, String)>>>,
}

impl PageStore for Memory {
    fn load(&self, url: &str) -> Option<StoredPage> {
        let pages = self.pages.lock().expect("lock");
        pages
            .iter()
            .find(|(kept, _, _)| kept == url)
            .map(|(_, body, stamp)| StoredPage {
                body: body.clone(),
                retrieved_at: stamp.clone(),
                age_secs: 0,
            })
    }

    fn save(&self, url: &str, body: &str, retrieved_at: &str) {
        let mut pages = self.pages.lock().expect("lock");
        pages.retain(|(kept, _, _)| kept != url);
        pages.push((url.to_owned(), body.to_owned(), retrieved_at.to_owned()));
    }
}

#[test]
fn pages_are_cached_with_vintage_and_refresh_forces_live() {
    struct Counting {
        calls: Arc<AtomicUsize>,
    }
    impl HttpGet for Counting {
        fn get(&self, _url: &str) -> Result<String, String> {
            self.calls.fetch_add(1, Ordering::SeqCst);
            Ok(PAGE_FIXTURE.to_owned())
        }
    }

    let store = Memory::default();
    let calls = Arc::new(AtomicUsize::new(0));
    let tool = WikiTool::with_cache(
        Box::new(Counting {
            calls: Arc::clone(&calls),
        }),
        Box::new(store.clone()),
        300,
    );

    let live = parse(
        &tool
            .execute(r#"{"game":"poe1","page":"Maps"}"#)
            .expect("live fetch"),
    );
    let live_source = live["page"]["source"].as_str().expect("source").to_owned();
    assert!(!live_source.contains("cache"), "first fetch is live");
    let vintage = live["page"]["retrieved_at"]
        .as_str()
        .expect("stamp")
        .to_owned();

    // Second fetch: served from cache, vintage preserved and visible.
    let cached = parse(
        &tool
            .execute(r#"{"game":"poe1","page":"Maps"}"#)
            .expect("cache hit"),
    );
    assert_eq!(calls.load(Ordering::SeqCst), 1, "no second live fetch");
    let cached_source = cached["page"]["source"].as_str().expect("source");
    assert!(
        cached_source.contains("local cache"),
        "got: {cached_source}"
    );
    assert!(
        cached_source.contains(&vintage),
        "vintage visible in source"
    );
    assert_eq!(cached["page"]["retrieved_at"], vintage.as_str());

    // refresh bypasses the valid entry.
    let refreshed = parse(
        &tool
            .execute(r#"{"game":"poe1","page":"Maps","refresh":true}"#)
            .expect("forced live"),
    );
    assert_eq!(calls.load(Ordering::SeqCst), 2, "refresh hits upstream");
    assert!(!refreshed["page"]["source"]
        .as_str()
        .expect("source")
        .contains("cache"));

    // Searches are never cached.
    let tool = WikiTool::with_cache(
        Box::new(FakeHttp {
            routes: vec![("poewiki.net", SEARCH_FIXTURE)],
        }),
        Box::new(store.clone()),
        300,
    );
    tool.execute(r#"{"game":"poe1","search":"maps"}"#)
        .expect("searches");
    tool.execute(r#"{"game":"poe1","search":"maps"}"#)
        .expect("searches");
    let entries = store.pages.lock().expect("lock").len();
    assert_eq!(entries, 1, "only the page fetch is cached");
}

#[test]
fn missing_page_is_a_clear_failure() {
    let tool = tool(vec![("poewiki.net", MISSING_FIXTURE)]);
    let err = tool
        .execute(r#"{"game":"poe1","page":"Nope"}"#)
        .expect_err("missing page fails");
    assert!(err.to_string().contains("doesn't exist"));
}

#[test]
fn html_body_is_a_diagnosable_failure() {
    let tool = tool(vec![(
        "poewiki.net",
        "<!DOCTYPE html><html>challenge</html>",
    )]);
    let err = tool
        .execute(r#"{"game":"poe1","search":"maps"}"#)
        .expect_err("html body fails");
    assert!(err.to_string().contains("HTML page instead of JSON"));
}

/// The bad arguments of every tool that fetches.
#[test]
fn lib_bad_args_are_invalid_args() {
    let wiki = tool(vec![]);
    for bad in [
        r#"{"game":"poe1"}"#,
        r#"{"game":"poe1","search":"a","page":"b"}"#,
        r#"{"game":"poe1","search":"   "}"#,
        r#"{"game":"poe1","page":""}"#,
        r#"{"game":"poe3","search":"a"}"#,
        r#"{"game":"poe1","search":"a","bogus":1}"#,
        "not json",
    ] {
        assert!(
            matches!(wiki.execute(bad), Err(ToolError::InvalidArgs(_))),
            "expected InvalidArgs for {bad}"
        );
    }

    let league = LeagueTool::with_http(
        Box::new(FailHttp),
        LeagueData {
            poe1: String::new(),
            poe2: String::new(),
        },
    );
    for bad in [
        r#"{"game":"poe3"}"#,
        r"{}",
        r#"{"game":"poe1","bogus":1}"#,
        "not json",
    ] {
        assert!(
            matches!(league.execute(bad), Err(ToolError::InvalidArgs(_))),
            "expected InvalidArgs for {bad}"
        );
    }

    let price = PriceTool::with_http(Box::new(FakeHttp { routes: vec![] }));
    for bad in [
        r#"{"game":"poe1","league":"L"}"#,
        r#"{"game":"poe1","category":"Currency"}"#,
        r#"{"game":"poe1","league":"  ","category":"Currency"}"#,
        r#"{"game":"poe1","league":"L","category":""}"#,
        r#"{"game":"poe3","league":"L","category":"Currency"}"#,
        r#"{"game":"poe1","league":"L","category":"Currency","bogus":1}"#,
    ] {
        assert!(
            matches!(price.execute(bad), Err(ToolError::InvalidArgs(_))),
            "expected InvalidArgs for {bad}"
        );
    }
}

#[test]
fn lib_http_failure_is_tool_failure() {
    let wiki = WikiTool::with_http(Box::new(FailHttp));
    let err = wiki
        .execute(r#"{"game":"poe1","search":"maps"}"#)
        .expect_err("must fail");
    assert!(matches!(err, ToolError::Failed(_)));

    let price = PriceTool::with_http(Box::new(FailHttp));
    assert!(matches!(
        price.execute(r#"{"game":"poe1","league":"L","category":"Currency"}"#),
        Err(ToolError::Failed(_))
    ));
}

#[test]
fn parameters_schema_is_valid_json() {
    let tool = tool(vec![]);
    let schema: Value =
        serde_json::from_str(tool.parameters_schema()).expect("schema is valid JSON");
    assert_eq!(schema["properties"]["game"]["enum"][0], "poe1");
}

#[test]
fn long_pages_are_cut_at_their_budget() {
    let page = PageFetch {
        body: String::new(),
        from_cache: true,
        retrieved_at: "then".to_owned(),
    };
    let out = render_page("T", "aé\u{10ffff}bc", 3, "u", &page).to_string();
    let value: Value = serde_json::from_str(&out).expect("json");
    assert_eq!(value["text"], "aé\u{10ffff}");
    assert_eq!(value["truncated"], true);
    assert_eq!(value["total_chars"], 5);
    assert_eq!(
        value["source"],
        "u (local cache, retrieved then; pass refresh:true for live)"
    );
}

#[test]
fn stored_pages_are_served_while_fresh() {
    let stored = |age_secs: u64| {
        Some(StoredPage {
            body: "b".to_owned(),
            retrieved_at: "t".to_owned(),
            age_secs,
        })
    };
    assert!(serve_stored(stored(9), false, 10).is_some());
    assert!(serve_stored(stored(10), false, 10).is_none());
    assert!(serve_stored(stored(0), true, 10).is_none());
    assert!(serve_stored(stored(0), false, 0).is_none());
    assert!(serve_stored(None, false, 10).is_none());
}

#[test]
fn search_limits_are_clamped() {
    let tool = tool(vec![("poewiki.net", SEARCH_FIXTURE)]);
    for (given, asked) in [("0", "1"), ("7", "7"), ("4000000000", "20")] {
        let result = parse(
            &tool
                .execute(&format!(
                    r#"{{"game":"poe1","search":"x","limit":{given}}}"#
                ))
                .expect("executes"),
        );
        let source = result["search"]["source"].as_str().expect("source");
        assert!(source.contains(&format!("srlimit={asked}&")), "{source}");
    }
    assert!(matches!(
        tool.execute(r#"{"game":"poe1","search":"x","limit":4294967296}"#),
        Err(ToolError::InvalidArgs(_))
    ));
    assert!(matches!(
        tool.execute(r#"{"game":"poe1","search":"x","refresh":"yes"}"#),
        Err(ToolError::InvalidArgs(_))
    ));
    assert_eq!(
        url_of_search(Game::Poe2, "a b", 8),
        "https://www.poe2wiki.net/w/api.php?action=query&list=search&format=json&formatversion=2&srlimit=8&srsearch=a%20b"
    );
}

#[test]
fn live_pages_are_handed_to_the_store_as_they_are() {
    struct Page;
    impl HttpGet for Page {
        fn get(&self, url: &str) -> Result<String, String> {
            Ok(format!("body of {url}"))
        }
    }
    let store = Memory::default();
    let cache = VintageCache::new(Box::new(Page), Box::new(store.clone()), 300);
    let live = cache.get("u", false).expect("live");
    assert!(!live.from_cache);
    assert_eq!(
        *store.pages.lock().expect("lock"),
        vec![(
            "u".to_owned(),
            "body of u".to_owned(),
            live.retrieved_at.clone()
        )]
    );
    let kept = cache.get("u", false).expect("kept");
    assert!(kept.from_cache);
    assert_eq!(kept.body, "body of u");
    assert_eq!(kept.retrieved_at, live.retrieved_at);
    // Nothing is kept of a fetch that fails.
    let failing = VintageCache::new(Box::new(FailHttp), Box::new(store.clone()), 300);
    assert!(failing.get("v", false).is_err());
    assert_eq!(store.pages.lock().expect("lock").len(), 1);
}
