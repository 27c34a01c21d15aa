use serde_json::Value;

use exile_harness::http::{FailHttp, FakeHttp};
use exile_harness::json;
use exile_harness::league::{
    answer_leagues, section_from_data, section_from_reply, CurrentLeague, Dataset, Include,
    LeagueData, LeagueTool, Source,
};
use exile_harness::tool::{Tool, ToolError};
use exile_harness::toolkit::Game;

/// Fixture, not knowledge: tests assert annotation wiring, never that these
/// leagues are current.
const OFFICIAL_FIXTURE: &str = r#"[
    {"id":"Standard","realm":"pc","startAt":"2013-01-23T21:00:00Z","endAt":null,"category":{"id":"Standard"},"rules":[]},
    {"id":"Hardcore","realm":"pc","startAt":"2013-01-23T21:00:00Z","endAt":null,"category":{"id":"Standard"},"rules":[{"id":"Hardcore","name":"Hardcore","description":"x"}]},
    {"id":"Allflame","realm":"pc","startAt":"2026-07-24T20:00:00Z","endAt":null,"category":{"id":"Allflame","current":true},"rules":[]},
    {"id":"HC SSF Allflame","realm":"pc","startAt":"2026-07-24T20:00:00Z","endAt":null,"category":{"id":"Allflame","current":true},"rules":[{"id":"Hardcore","name":"Hardcore","description":"x"},{"id":"NoParties","name":"Solo","description":"x"}]}
]"#;

const NINJA_POE2_FIXTURE: &str = r#"[{"id":"Runes of Aldur","name":"Runes of Aldur"},{"id":"HC Runes of Aldur","name":"HC Runes of Aldur"},{"id":"Standard","name":"Standard"},{"id":"Hardcore","name":"Hardcore"}]"#;

const TRADE2_FIXTURE: &str = r#"{"result":[{"id":"Runes of Aldur","realm":"poe2","text":"Runes of Aldur"},{"id":"Standard","realm":"poe2","text":"Standard"}]}"#;

const DATASET: &str = r#"{"generated_at":"2026-08-14","sources":["https://example.invalid/a","https://example.invalid/b"],"leagues":[{"name":"First","version":"1.0","hardcore":false,"start_date":"2013-06-01","end_date":"2013-10-01"},{"name":"Second","version":"1.1","hardcore":true,"start_date":"2013-11-01"}]}"#;

fn data() -> LeagueData {
    LeagueData {
        poe1: DATASET.to_owned(),
        poe2: DATASET.to_owned(),
    }
}

fn fake(routes: Vec<(&'static str, &'static str)>) -> LeagueTool {
    LeagueTool::with_http(Box::new(FakeHttp { routes }), data())
}

fn parse(result: &str) -> Value {
    serde_json::from_str(result).expect("tool returns valid JSON")
}

fn league<'a>(section: &'a Value, id: &str) -> &'a Value {
    section["leagues"]
        .as_array()
        .expect("leagues array")
        .iter()
        .find(|league| league["id"] == id)
        .unwrap_or_else(|| panic!("league {id} present"))
}

#[test]
fn poe1_uses_official_source_with_authoritative_annotation() {
    let tool = fake(vec![("pathofexile.com/api/leagues?", OFFICIAL_FIXTURE)]);
    let result = parse(&tool.execute(r#"{"game":"poe1"}"#).expect("executes"));
    let current = &result["current"];

    assert_eq!(current["annotation"], "authoritative");
    assert_eq!(league(current, "Standard")["kind"], "permanent");
    assert_eq!(league(current, "Standard")["hardcore"], false);
    assert_eq!(league(current, "Allflame")["kind"], "challenge");
    assert_eq!(
        league(current, "Allflame")["start_at"],
        "2026-07-24T20:00:00Z"
    );
    let hc_ssf = league(current, "HC SSF Allflame");
    assert_eq!(hc_ssf["kind"], "challenge");
    assert_eq!(hc_ssf["hardcore"], true);
    assert_eq!(hc_ssf["ssf"], true);
    assert_eq!(hc_ssf["ruthless"], false);
}

#[test]
fn poe1_falls_back_to_ninja_with_derived_annotation() {
    // Official route missing: the chain falls through to poe.ninja.
    let tool = fake(vec![("poe.ninja", NINJA_POE2_FIXTURE)]);
    let result = parse(&tool.execute(r#"{"game":"poe1"}"#).expect("executes"));
    let current = &result["current"];

    assert_eq!(current["annotation"], "derived");
    assert!(current["note"].as_str().expect("note").contains("derived"));
    assert_eq!(league(current, "Standard")["kind"], "permanent");
    assert_eq!(league(current, "Runes of Aldur")["kind"], "challenge");
    let hc = league(current, "HC Runes of Aldur");
    assert_eq!(hc["hardcore"], true);
    assert_eq!(hc["kind"], "challenge");
    assert!(
        hc.get("ssf").is_none(),
        "derived entries omit unknown fields"
    );
}

#[test]
fn poe2_skips_official_and_supports_trade_fallback() {
    // Only the trade2 route responds; ninja is down.
    let tool = fake(vec![("api/trade2/data/leagues", TRADE2_FIXTURE)]);
    let result = parse(&tool.execute(r#"{"game":"poe2"}"#).expect("executes"));
    let current = &result["current"];

    assert_eq!(current["annotation"], "derived");
    assert!(current["source"]
        .as_str()
        .expect("source")
        .contains("trade2"));
    assert_eq!(league(current, "Runes of Aldur")["kind"], "challenge");
    assert_eq!(league(current, "Standard")["kind"], "permanent");
}

#[test]
fn all_degrades_to_past_when_live_sources_fail() {
    let tool = LeagueTool::with_http(Box::new(FailHttp), data());
    let result = parse(
        &tool
            .execute(r#"{"game":"poe1","include":"all"}"#)
            .expect("degrades instead of failing"),
    );

    assert!(result["current"]["error"]
        .as_str()
        .expect("error recorded")
        .contains("all live sources failed"));
    assert!(
        !result["past"]["leagues"]
            .as_array()
            .expect("past leagues")
            .is_empty(),
        "vendored data still served"
    );
}

#[test]
fn current_only_fails_when_all_sources_fail() {
    let tool = LeagueTool::with_http(Box::new(FailHttp), data());
    let err = tool.execute(r#"{"game":"poe1"}"#).expect_err("must fail");
    assert!(matches!(err, ToolError::Failed(_)));
    // All three poe1 sources appear in the error trail.
    let text = err.to_string();
    assert!(text.contains("pathofexile.com/api/leagues"));
    assert!(text.contains("poe.ninja"));
    assert!(text.contains("trade/data/leagues"));
}

#[test]
fn past_reads_the_vendored_dataset_with_scope() {
    let tool = LeagueTool::with_http(Box::new(FailHttp), data());
    let result = parse(
        &tool
            .execute(r#"{"game":"poe1","include":"past"}"#)
            .expect("executes offline"),
    );

    assert!(result.get("current").is_none());
    let past = &result["past"];
    assert!(past["source"]
        .as_str()
        .expect("source")
        .starts_with("vendored dataset"));
    assert!(past["scope"]
        .as_str()
        .expect("scope")
        .contains("challenge leagues only"));
}

#[test]
fn include_null_means_default() {
    let tool = fake(vec![("pathofexile.com/api/leagues?", OFFICIAL_FIXTURE)]);
    let result = parse(
        &tool
            .execute(r#"{"game":"poe1","include":null}"#)
            .expect("null include accepted"),
    );
    assert!(result.get("current").is_some());
    assert!(result.get("past").is_none());
}

#[test]
fn parameters_schema_is_valid_json_and_matches_accepted_values() {
    let tool = fake(vec![
        ("pathofexile.com/api/leagues?", OFFICIAL_FIXTURE),
        ("poe.ninja", NINJA_POE2_FIXTURE),
    ]);
    let schema: Value =
        serde_json::from_str(tool.parameters_schema()).expect("schema is valid JSON");
    let games: Vec<&str> = schema["properties"]["game"]["enum"]
        .as_array()
        .expect("game enum")
        .iter()
        .filter_map(Value::as_str)
        .collect();
    let sets: Vec<&str> = schema["properties"]["include"]["enum"]
        .as_array()
        .expect("sets enum")
        .iter()
        .filter_map(Value::as_str)
        .collect();
    assert_eq!(games, vec!["poe1", "poe2"]);
    assert_eq!(sets, vec!["current", "past", "all"]);
    // Every advertised value is actually accepted by execute.
    for game in &games {
        for set in &sets {
            let args = format!(r#"{{"game":"{game}","include":"{set}"}}"#);
            assert!(tool.execute(&args).is_ok(), "accepts {args}");
        }
    }
}

#[test]
fn derived_annotation_goes_by_name() {
    for (id, kind, hardcore) in [
        ("Standard", "permanent", false),
        ("Hardcore", "permanent", true),
        ("Hardcore SSF", "permanent", true),
        ("Solo Self-Found", "permanent", false),
        ("Hardcore Allflame", "challenge", true),
        ("HC Allflame", "challenge", true),
        ("HCAllflame", "challenge", false),
        ("Allflame", "challenge", false),
    ] {
        let league = CurrentLeague::derived(id.to_owned());
        assert_eq!((league.kind, league.hardcore), (kind, hardcore), "{id}");
        assert_eq!(league.ssf, None);
    }
}

#[test]
fn official_entries_may_omit_all_but_the_id() {
    let leagues = Source::Official
        .parse(r#"[{"id":"A"},{"id":"B","event":true,"category":{"current":true},"rules":[{"id":"HardMode"}],"endAt":"e"}]"#)
        .expect("parses");
    assert_eq!(leagues[0].kind, "permanent");
    assert_eq!(leagues[0].ssf, Some(false));
    assert_eq!(leagues[1].kind, "event");
    assert_eq!(leagues[1].ruthless, Some(true));
    assert_eq!(leagues[1].end_at.as_deref(), Some("e"));
    for bad in [
        "{}",
        r#"[{"name":"A"}]"#,
        r#"[{"id":1}]"#,
        r#"[{"id":"A","category":null}]"#,
        r#"[{"id":"A","rules":[{}]}]"#,
        r#"[{"id":"A","event":1}]"#,
        "nope",
    ] {
        assert!(Source::Official.parse(bad).is_err(), "{bad}");
    }
    assert!(Source::TradeData.parse("[]").is_err());
    assert!(Source::TradeData.parse("{}").is_err());
    assert!(Source::Ninja.parse(r#"{"result":[]}"#).is_err());
}

#[test]
fn a_bad_body_counts_as_a_failed_source() {
    let tool = fake(vec![
        ("pathofexile.com/api/leagues?", "<html>"),
        ("poe.ninja", NINJA_POE2_FIXTURE),
    ]);
    let result = parse(&tool.execute(r#"{"game":"poe1"}"#).expect("falls back"));
    assert_eq!(
        result["current"]["source"],
        "https://poe.ninja/poe1/api/economy/leagues"
    );
    let error = section_from_reply(Source::Ninja, Game::Poe2, &Ok("nope".to_owned()))
        .expect_err("no JSON");
    assert!(error.starts_with(
        "unexpected response from https://poe.ninja/poe2/api/economy/leagues: "
    ));
}

#[test]
fn datasets_are_read_strictly() {
    let dataset = Dataset::parse(DATASET).expect("parses");
    assert_eq!(dataset.generated_at, "2026-08-14");
    assert_eq!(dataset.leagues.len(), 2);
    assert_eq!(dataset.leagues[1].end_date, None);
    let section = parse(&dataset.render().to_string());
    assert_eq!(section["leagues"][1]["end_date"], Value::Null);
    assert_eq!(
        section["source"],
        "vendored dataset (generated 2026-08-14) compiled from: https://example.invalid/a, https://example.invalid/b"
    );
    for bad in [
        "nope",
        "{}",
        r#"{"generated_at":"x","sources":[1],"leagues":[]}"#,
        r#"{"generated_at":"x","sources":[],"leagues":{}}"#,
        r#"{"generated_at":"x","sources":[],"leagues":[],"more":1}"#,
        r#"{"generated_at":"x","sources":[],"leagues":[{"name":"a"}]}"#,
        r#"{"generated_at":"x","sources":[],"leagues":[{"name":"a","version":"v","hardcore":false,"start_date":"s","x":1}]}"#,
    ] {
        assert!(Dataset::parse(bad).is_err(), "{bad}");
        assert!(section_from_data(bad)
            .expect_err("invalid")
            .starts_with("vendored dataset invalid: "));
    }
}

#[test]
fn answers_follow_the_sets_asked_for() {
    let section = || Ok(json::parse(r#"{"x":1}"#).expect("json"));
    let failed = || Err("gone".to_owned());
    assert_eq!(
        answer_leagues(Game::Poe1, Include::Past, "t", failed(), section()),
        Ok(r#"{"fetched_at":"t","game":"poe1","past":{"x":1}}"#.to_owned())
    );
    assert_eq!(
        answer_leagues(Game::Poe2, Include::Current, "t", failed(), section()),
        Err(ToolError::Failed("gone".to_owned()))
    );
    let degraded = answer_leagues(Game::Poe2, Include::All, "t", failed(), section())
        .expect("degrades");
    assert!(degraded.contains("tool failed: gone"));
    assert!(answer_leagues(Game::Poe2, Include::All, "t", section(), failed()).is_err());
    assert_eq!(Include::default(), Include::Current);
}

#[test]
fn league_bad_args_are_invalid_args() {
    let tool = LeagueTool::with_http(Box::new(FailHttp), data());
    for bad in [
        r#"{"game":"poe3"}"#,
        r"{}",
        r#"{"game":"poe1","bogus":1}"#,
        "not json",
        r#"{"game":"poe1","game":"poe1"}"#,
        r#"{"game":{"poe1":null,"poe1":null},"include":"past"}"#,
        r#"{"game":"poe1","include":{"past":null,"past":null}}"#,
        r#"[{"poe1":null,"poe1":null},"past"]"#,
    ] {
        assert!(
            matches!(tool.execute(bad), Err(ToolError::InvalidArgs(_))),
            "expected InvalidArgs for {bad}"
        );
    }
    assert!(tool
        .execute(r#"{"game":{"poe1":null},"include":{"past":null}}"#)
        .is_ok());
}

#[test]
fn fields_written_twice_are_refused() {
    for (bad, name) in [
        (r#"[{"id":"A","id":"A"}]"#, "id"),
        (r#"[{"id":"A"},{"id":"B", "\u0069d" : "B"}]"#, "id"),
        (
            r#"[{"id":"A","category":{"current":true,"current":true}}]"#,
            "current",
        ),
        (
            r#"[{"id":"A","rules":[{"id":"x"},{"id":"x","id":"x"}]}]"#,
            "id",
        ),
        (r#"[{"id":"A","rules":[],"rules":[]}]"#, "rules"),
        (
            r#"[["A",{"current":true,"current":false},[],null,null,false]]"#,
            "current",
        ),
    ] {
        assert_eq!(
            Source::Official.parse(bad).expect_err(bad),
            format!("duplicate field `{name}`")
        );
    }
    // Fields that nothing reads may be written as often as they like.
    let leagues = Source::Official
        .parse(r#"[{"id":"A","realm":"pc","realm":"pc","category":{"id":"x","id":"y","current":true}}]"#)
        .expect("parses");
    assert_eq!(leagues[0].kind, "challenge");
    assert!(Source::Ninja.parse(r#"[{"id":"A","id":"B"}]"#).is_err());
    assert!(Source::Ninja.parse(r#"[{"id":"A","name":"\"id\":","name":"{"}]"#).is_ok());
    assert!(Source::TradeData.parse(r#"{"result":[],"result":[]}"#).is_err());
    assert!(Source::TradeData.parse(r#"{"result":[{"id":"A","id":"A"}]}"#).is_err());
    assert!(Source::TradeData.parse(r#"{"x":1,"x":2,"result":[{"id":"A"}]}"#).is_ok());
    for (bad, fault) in [
        (
            r#"{"generated_at":"x","generated_at":"x","sources":[],"leagues":[]}"#,
            "duplicate field `generated_at`",
        ),
        (
            r#"{"generated_at":"x","sources":[],"leagues":[{"name":"a","name":"a","version":"v","hardcore":false,"start_date":"s"}]}"#,
            "duplicate field `name`",
        ),
        (
            r#"{"generated_at":"x","sources":[],"leagues":[],"more":1}"#,
            "unknown field `more`, expected one of `generated_at`, `sources`, `leagues`",
        ),
    ] {
        assert_eq!(Dataset::parse(bad).expect_err(bad), fault);
    }
    // A body with a field written twice counts as a failed source.
    let tool = fake(vec![
        ("pathofexile.com/api/leagues?", r#"[{"id":"A","id":"A"}]"#),
        ("poe.ninja", NINJA_POE2_FIXTURE),
    ]);
    let result = parse(&tool.execute(r#"{"game":"poe1"}"#).expect("falls back"));
    assert_eq!(result["current"]["annotation"], "derived");
}

#[test]
fn fields_that_nothing_reads_may_hold_anything() {
    let deep = format!("{}{}", "[".repeat(300), "]".repeat(300));
    let body = format!(
        r#" [ {{"x":1e999,"id":"A" , "y":{deep},"category":{{"current":true,"z":-1e999}},"rules":[{{"id":"Hardcore","q":{deep}}}],"s":"\ud800"}}, ["B",{{"w":1e999}}] ]"#
    );
    let leagues = Source::Official.parse(&body).expect("parses");
    assert_eq!(leagues.len(), 2);
    assert_eq!((leagues[0].id.as_str(), leagues[0].kind), ("A", "challenge"));
    assert!(leagues[0].hardcore);
    assert_eq!((leagues[1].id.as_str(), leagues[1].kind), ("B", "permanent"));
    let leagues = Source::Ninja
        .parse(&format!(r#"[{{"id":"A","n":{deep}}},{{"n":1e999,"id":"B"}}]"#))
        .expect("parses");
    assert_eq!(leagues[1].id, "B");
    for body in [
        r#"{"more":1e999,"result":[{"id":"A","text":1e999}]}"#,
        r#"[[{"id":"A","text":1e999}]]"#,
    ] {
        assert_eq!(Source::TradeData.parse(body).expect(body)[0].id, "A");
    }
    // What is no JSON is none, wherever it stands.
    for bad in [
        r#"[{"id":"A","n":01}]"#,
        r#"[{"id":"A","n":nul}]"#,
        r#"[{"id":"A"}]]"#,
        r#"[{"id":"A"},]"#,
        r#"[{"id":"A","\ud800":1}]"#,
        r#"[{"id":1e999}]"#,
    ] {
        assert!(Source::Ninja.parse(bad).is_err(), "{bad}");
    }
    assert!(Source::Official.parse("[]").expect("empty").is_empty());
    assert!(Source::Official.parse("[{}]").is_err());
}
