use serde_json::Value;

use exile_harness::http::{FailHttp, FakeHttp, HttpGet};
use exile_harness::json;
use exile_harness::price::{
    price_urls, prices_from_response, read_price_args, PriceTool, CACHE_TTL_NANOS,
};
use exile_harness::tool::{Tool, ToolError};

const EXCHANGE_FIXTURE: &str = r#"{"core":{"items":[{"id":"chaos","name":"Chaos Orb","image":"x","category":"Currency","detailsId":"chaos-orb"},{"id":"divine","name":"Divine Orb","image":"x","category":"Currency","detailsId":"divine-orb"}],"rates":{"divine":0.005},"primary":"chaos","secondary":"divine"},"lines":[{"id":"accelerating-catalyst","primaryValue":1.62,"volumePrimaryValue":1565,"maxVolumeCurrency":"chaos","maxVolumeRate":0.6184,"sparkline":{"totalChange":-17.39,"data":[]}},{"id":"chaos","primaryValue":1.0,"volumePrimaryValue":23321273,"maxVolumeCurrency":"divine","maxVolumeRate":196.7,"sparkline":{"totalChange":9.54,"data":[]}}],"items":[{"id":"accelerating-catalyst","name":"Accelerating Catalyst","image":"x","category":"Currency","detailsId":"accelerating-catalyst"}]}"#;

const ITEM_FIXTURE: &str = r#"{"lines":[{"id":45060,"name":"Replica Wings of Entropy","icon":"x","levelRequired":62,"baseType":"Ezomyte Axe","links":6,"itemClass":3,"chaosValue":19670.0,"divineValue":100.0,"exaltedValue":98357.5,"count":12,"listingCount":29,"sparkLine":{"totalChange":-3.1,"data":[]},"explicitModifiers":[{"text":"huge mod text","optional":false}],"flavourText":"long flavour"},{"id":2,"name":"Mageblood","icon":"x","baseType":"Heavy Belt","chaosValue":80000.0,"divineValue":406.7,"listingCount":54,"sparkLine":{"totalChange":1.2,"data":[]}}]}"#;

fn tool(routes: Vec<(&'static str, &'static str)>) -> PriceTool {
    PriceTool::with_http(Box::new(FakeHttp { routes }))
}

fn parse(result: &str) -> Value {
    serde_json::from_str(result).expect("tool returns valid JSON")
}

#[test]
fn exchange_categories_use_the_exchange_endpoint() {
    let tool = tool(vec![("exchange/current/overview", EXCHANGE_FIXTURE)]);
    let result = parse(
        &tool
            .execute(r#"{"game":"poe1","league":"Testleague","category":"Currency"}"#)
            .expect("executes"),
    );
    let prices = &result["prices"];
    assert!(prices["source"]
        .as_str()
        .expect("source")
        .contains("exchange"));
    // Slug ids are joined to proper names via the items[] catalog,
    // and core.primary names the unit `value` is denominated in.
    assert_eq!(prices["primary_currency"], "Chaos Orb");
    assert!(prices["note"]
        .as_str()
        .expect("note")
        .contains("denominated in Chaos Orb"));
    assert_eq!(prices["lines"][1]["id"], "chaos");
    assert_eq!(prices["lines"][1]["name"], "Chaos Orb");
    assert_eq!(prices["lines"][1]["value"], 1.0);
    assert_eq!(prices["lines"][1]["max_volume_currency"], "Divine Orb");
    assert_eq!(prices["lines"][1]["change_percent"], 9.54);
}

#[test]
fn exchange_name_filter_matches_proper_names_and_slugs() {
    let tool = tool(vec![("exchange/current/overview", EXCHANGE_FIXTURE)]);
    for filter in ["Chaos Orb", "chaos"] {
        let result = parse(
            &tool
                .execute(&format!(
                    r#"{{"game":"poe1","league":"Testleague","category":"Currency","name":"{filter}"}}"#
                ))
                .expect("executes"),
        );
        assert_eq!(
            result["prices"]["lines"][0]["id"], "chaos",
            "filter {filter} must match the chaos line"
        );
    }
    // A proper name that is not a substring of any slug id.
    let result = parse(
        &tool
            .execute(
                r#"{"game":"poe1","league":"Testleague","category":"Currency","name":"Accelerating Catalyst"}"#,
            )
            .expect("executes"),
    );
    assert_eq!(result["prices"]["total_matches"], 1);
    assert_eq!(
        result["prices"]["lines"][0]["name"],
        "Accelerating Catalyst"
    );
}

#[test]
fn lowercased_exchange_category_still_routes_to_exchange() {
    let tool = tool(vec![("exchange/current/overview", EXCHANGE_FIXTURE)]);
    let result = parse(
        &tool
            .execute(r#"{"game":"poe1","league":"Testleague","category":"currency"}"#)
            .expect("executes"),
    );
    let source = result["prices"]["source"].as_str().expect("source");
    assert!(source.contains("exchange"));
    assert!(source.contains("type=Currency"), "canonicalized: {source}");
}

/// Serves canned bodies by URL substring; unmatched URLs 404 the way
/// the live API does for unknown categories.
struct NotFoundHttp {
    routes: Vec<(&'static str, &'static str)>,
}

impl HttpGet for NotFoundHttp {
    fn get(&self, url: &str) -> Result<String, String> {
        self.routes
            .iter()
            .find(|(fragment, _)| url.contains(fragment))
            .map(|(_, body)| (*body).to_owned())
            .ok_or_else(|| format!("GET {url} failed: http status: 404"))
    }
}

#[test]
fn misrouted_category_falls_back_to_the_other_endpoint() {
    // "Runes"-style category: routed to the item endpoint first, which
    // 404s; the exchange endpoint serves it.
    let tool = PriceTool::with_http(Box::new(NotFoundHttp {
        routes: vec![("exchange/current/overview", EXCHANGE_FIXTURE)],
    }));
    let result = parse(
        &tool
            .execute(r#"{"game":"poe2","league":"Testleague","category":"Runes"}"#)
            .expect("fallback resolves"),
    );
    assert!(result["prices"]["source"]
        .as_str()
        .expect("source")
        .contains("exchange"));
}

#[test]
fn unknown_category_404_on_both_endpoints_gets_the_hint() {
    let tool = PriceTool::with_http(Box::new(NotFoundHttp { routes: vec![] }));
    let err = tool
        .execute(r#"{"game":"poe2","league":"Testleague","category":"Bogus"}"#)
        .expect_err("both endpoints 404");
    let message = err.to_string();
    assert!(message.contains("http status: 404"), "got: {message}");
    assert!(message.contains("plural"), "hint missing: {message}");
}

#[test]
fn item_lookup_filters_by_name_and_trims_noise() {
    let tool = tool(vec![("stash/current/item/overview", ITEM_FIXTURE)]);
    let result = parse(
        &tool
            .execute(
                r#"{"game":"poe1","league":"Testleague","category":"UniqueAccessory","name":"mageblood"}"#,
            )
            .expect("executes"),
    );
    let prices = &result["prices"];
    assert_eq!(prices["total_matches"], 1);
    let line = &prices["lines"][0];
    assert_eq!(line["name"], "Mageblood");
    assert_eq!(line["divine_value"], 406.7);
    assert_eq!(line["listings"], 54);
    assert!(line.get("icon").is_none(), "noise fields must be trimmed");
    assert!(line.get("explicitModifiers").is_none());
    assert!(result["fetched_at"].as_str().expect("stamp").contains('T'));
}

#[test]
fn unfiltered_lookup_respects_limit_and_reports_totals() {
    let tool = tool(vec![("stash/current/item/overview", ITEM_FIXTURE)]);
    let result = parse(
        &tool
            .execute(
                r#"{"game":"poe1","league":"Testleague","category":"UniqueWeapon","limit":1}"#,
            )
            .expect("executes"),
    );
    assert_eq!(result["prices"]["total_matches"], 2);
    assert_eq!(result["prices"]["returned"], 1);
}

#[test]
fn unknown_category_is_a_helpful_failure() {
    let tool = tool(vec![("stash/current/item/overview", r#"{"error":"x"}"#)]);
    let err = tool
        .execute(r#"{"game":"poe2","league":"Testleague","category":"Bogus"}"#)
        .expect_err("no lines");
    assert!(err.to_string().contains("poe2 plural"));
}

#[test]
fn live_clients_are_cached() {
    let tool = PriceTool::new(Box::new(FailHttp));
    assert!(tool
        .execute(r#"{"game":"poe1","league":"L","category":"Currency"}"#)
        .is_err());
    assert_eq!(CACHE_TTL_NANOS, 300_000_000_000);
}

#[test]
fn addresses_follow_the_category() {
    let args = read_price_args(r#"{"game":"poe2","league":"A b","category":"fragments"}"#)
        .expect("reads");
    let (first, second) = price_urls(&args);
    assert_eq!(
        first,
        "https://poe.ninja/poe2/api/economy/exchange/current/overview?league=A%20b&type=Fragments"
    );
    assert_eq!(
        second,
        "https://poe.ninja/poe2/api/economy/stash/current/item/overview?league=A%20b&type=Fragments"
    );
    let args = read_price_args(r#"{"game":"poe1","league":"L","category":"SkillGem"}"#)
        .expect("reads");
    assert!(price_urls(&args).0.contains("stash/current/item/overview"));
}

#[test]
fn responses_are_reduced_by_value() {
    let args = read_price_args(r#"{"game":"poe1","league":"L","category":"Currency","limit":99}"#)
        .expect("reads");
    let response = json::parse(
        r#"{"core":{"primary":"x","items":[{"id":"a","name":"Old"}]},"items":[{"id":"a","name":"New"},{"id":1}],"lines":[{"id":"a","chaosValue":3,"count":-1,"links":2,"sparkLine":{},"sparkline":{"totalChange":7}},{"baseType":"B"}]}"#,
    )
    .expect("json");
    let prices = prices_from_response(&args, "u", &response).expect("prices");
    let value: Value = serde_json::from_str(&prices.to_string()).expect("json");
    assert_eq!(
        value["lines"].to_string(),
        r#"[{"change_percent":7.0,"chaos_value":3.0,"id":"a","links":2,"name":"New"},{"base_type":"B"}]"#
    );
    assert_eq!(value["primary_currency"], "x");
    assert_eq!(value["returned"], 2);
    assert_eq!(value["source"], "u");
    let mut lines = Vec::new();
    for i in 0..30 {
        lines.push(format!(r#"{{"name":"n{i}"}}"#));
    }
    let many = json::parse(&format!(r#"{{"lines":[{}]}}"#, lines.join(","))).expect("json");
    let prices = prices_from_response(&args, "u", &many).expect("prices");
    let value: Value = serde_json::from_str(&prices.to_string()).expect("json");
    assert_eq!(value["total_matches"], 30);
    assert_eq!(value["returned"], 20);
    assert!(value.get("primary_currency").is_none());
}

#[test]
fn only_missing_addresses_are_asked_again() {
    struct Broken;
    impl HttpGet for Broken {
        fn get(&self, url: &str) -> Result<String, String> {
            if url.contains("stash") {
                Err(format!("GET {url} failed: http status: 500"))
            } else {
                panic!("the other endpoint must not be asked");
            }
        }
    }
    let tool = PriceTool::with_http(Box::new(Broken));
    let err = tool
        .execute(r#"{"game":"poe1","league":"L","category":"Runes"}"#)
        .expect_err("fails at once");
    assert!(err.to_string().ends_with("http status: 500"));
}

#[test]
fn price_bad_args_are_invalid_args() {
    let tool = tool(vec![]);
    for bad in [
        r#"{"game":"poe1","league":"L"}"#,
        r#"{"game":"poe1","category":"Currency"}"#,
        r#"{"game":"poe1","league":"  ","category":"Currency"}"#,
        r#"{"game":"poe1","league":"L","category":""}"#,
        r#"{"game":"poe3","league":"L","category":"Currency"}"#,
        r#"{"game":"poe1","league":"L","category":"Currency","bogus":1}"#,
    ] {
        assert!(
            matches!(tool.execute(bad), Err(ToolError::InvalidArgs(_))),
            "expected InvalidArgs for {bad}"
        );
    }
}

#[test]
fn price_http_failure_is_tool_failure() {
    let tool = PriceTool::with_http(Box::new(FailHttp));
    assert!(matches!(
        tool.execute(r#"{"game":"poe1","league":"L","category":"Currency"}"#),
        Err(ToolError::Failed(_))
    ));
}
