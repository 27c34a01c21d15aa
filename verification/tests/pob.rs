use std::sync::atomic::{AtomicUsize, Ordering};
use std::sync::{Arc, Mutex};

use serde_json::Value;

use exile_harness::build_xml::{
    check_game_xml, inject_custom_mods, prepare_xml, xml_escape,
};
use exile_harness::codes;
use exile_harness::engine::{
    adapter_file_name, dir_of, read_response, Engine, EngineFactory, EngineHost, LuaFactory,
};
use exile_harness::held::hold;
use exile_harness::json;
use exile_harness::pob::{
    answer_build, compare_stat, delta_value, diff_stats, plan_lookup, plan_whatif, resolve_xml, DeltaMath, PobTool,
    PobWhatifTool,
};
use exile_harness::tool::{Tool, ToolError};
use exile_harness::toolkit::Game;

/// Scripted engine: hands out canned response lines in order and
/// records what it was asked.
struct FakeEngine {
    responses: Vec<String>,
    requests: Arc<Mutex<Vec<String>>>,
}

impl Engine for FakeEngine {
    fn request(&mut self, line: &str) -> Result<String, String> {
        self.requests
            .lock()
            .expect("requests")
            .push(line.to_owned());
        if self.responses.is_empty() {
            Err("engine exited".to_owned())
        } else {
            Ok(self.responses.remove(0))
        }
    }
}

struct FakeFactory {
    spawns: Arc<AtomicUsize>,
    requests: Arc<Mutex<Vec<String>>>,
    script: Vec<String>,
}

impl EngineFactory for FakeFactory {
    fn spawn(&self, _dir: &str) -> Result<Box<dyn Engine>, String> {
        self.spawns.fetch_add(1, Ordering::SeqCst);
        Ok(Box::new(FakeEngine {
            responses: self.script.clone(),
            requests: Arc::clone(&self.requests),
        }))
    }
}

struct Floats;

impl DeltaMath for Floats {
    fn delta(&self, before: &str, after: &str) -> String {
        let x: f64 = before.parse().expect("number");
        let y: f64 = after.parse().expect("number");
        (((y - x) * 100.0).round() / 100.0).to_string()
    }
}

fn math() -> Box<dyn DeltaMath> {
    Box::new(Floats)
}

fn owned(lines: &[&str]) -> Vec<String> {
    lines.iter().map(|line| (*line).to_owned()).collect()
}

fn happy_script() -> Vec<String> {
    owned(&[
        r#"{"id":1,"ok":true,"result":{"engine":"9.99.9"}}"#,
        r#"{"id":2,"ok":true,"result":{"loaded":true}}"#,
        r#"{"id":3,"ok":true,"result":{"Life":6728,"CombinedDPS":975099.7}}"#,
    ])
}

fn rig(script: Vec<String>) -> (Arc<EngineHost>, Arc<AtomicUsize>, Arc<Mutex<Vec<String>>>) {
    let spawns = Arc::new(AtomicUsize::new(0));
    let requests = Arc::new(Mutex::new(Vec::new()));
    let factory = FakeFactory {
        spawns: Arc::clone(&spawns),
        requests: Arc::clone(&requests),
        script,
    };
    (
        Arc::new(EngineHost::with_factory(
            Box::new(factory),
            "vendor/pob".to_owned(),
        )),
        spawns,
        requests,
    )
}

fn tool(script: Vec<String>) -> (PobTool, Arc<AtomicUsize>, Arc<Mutex<Vec<String>>>) {
    let (host, spawns, requests) = rig(script);
    (PobTool::with_host(host), spawns, requests)
}

/// Six responses: version/load/stats twice, one whatif comparison.
fn whatif_script() -> Vec<String> {
    owned(&[
        r#"{"id":1,"ok":true,"result":{"engine":"9.99.9"}}"#,
        r#"{"id":2,"ok":true,"result":{"loaded":true}}"#,
        r#"{"id":3,"ok":true,"result":{"Life":60,"Mana":50}}"#,
        r#"{"id":1,"ok":true,"result":{"engine":"9.99.9"}}"#,
        r#"{"id":2,"ok":true,"result":{"loaded":true}}"#,
        r#"{"id":3,"ok":true,"result":{"Life":72,"Mana":50}}"#,
    ])
}

#[test]
fn code_is_decoded_and_stats_are_stamped() {
    let (tool, _, requests) = tool(happy_script());
    let xml = "<PathOfBuilding><Build/></PathOfBuilding>";
    let code = codes::encode(xml).expect("encodes");
    let result = tool
        .execute(&format!(r#"{{"game":"poe1","code":"{code}"}}"#))
        .expect("executes");
    let value: Value = serde_json::from_str(&result).expect("valid JSON");
    assert_eq!(value["game"], "poe1");
    assert_eq!(value["build"]["engine_version"], "9.99.9");
    assert_eq!(value["build"]["stats"]["Life"], 6728);
    assert!(value["fetched_at"].as_str().expect("stamp").contains('T'));

    let seen = requests.lock().expect("requests");
    assert!(seen[0].contains("\"version\""));
    // The engine must receive the DECODED XML, not the share code.
    assert!(seen[1].contains("<PathOfBuilding>"), "got: {}", seen[1]);
    assert!(seen[2].contains("\"stats\""));
}

#[test]
fn explicit_stat_keys_are_forwarded() {
    let (tool, _, requests) = tool(happy_script());
    tool.execute(r#"{"game":"poe1","xml":"<PathOfBuilding/>","stats":["Life"]}"#)
        .expect("executes");
    let seen = requests.lock().expect("requests");
    assert!(seen[2].contains(r#""keys":["Life"]"#), "got: {}", seen[2]);
}

#[test]
fn engine_failure_is_reported_and_child_is_replaced() {
    let (tool, spawns, _) = tool(owned(&[r#"{"id":1,"ok":false,"error":"boom"}"#]));
    let request = r#"{"game":"poe2","xml":"<PathOfBuilding2/>"}"#;
    let err = tool.execute(request).expect_err("engine failed");
    assert!(err.to_string().contains("boom"));
    // The dead child is discarded; the next call boots a fresh one.
    let _ = tool.execute(request);
    assert_eq!(spawns.load(Ordering::SeqCst), 2);
}

#[test]
fn pob_bad_args_are_invalid_args() {
    let (tool, spawns, _) = tool(happy_script());
    for bad in [
        r#"{"game":"poe1"}"#,
        r#"{"game":"poe1","xml":"  "}"#,
        r#"{"game":"poe1","code":"abc","xml":"<x/>"}"#,
        r#"{"game":"poe3","xml":"<x/>"}"#,
        r#"{"game":"poe1","xml":"<x/>","bogus":1}"#,
        r#"{"game":"poe1","code":"!!not a code!!"}"#,
        // custom_mods belongs to pob_whatif; this shape must fail
        // loudly, not be silently ignored.
        r#"{"game":"poe1","xml":"<x/>","custom_mods":["10% more damage"]}"#,
    ] {
        assert!(
            matches!(tool.execute(bad), Err(ToolError::InvalidArgs(_))),
            "expected InvalidArgs for {bad}"
        );
    }
    // Arg validation must never boot an engine.
    assert_eq!(spawns.load(Ordering::SeqCst), 0);
}

#[test]
fn whatif_runs_both_variants_and_returns_the_diff() {
    let (host, spawns, requests) = rig(whatif_script());
    let tool = PobWhatifTool::with_host(host, math());
    let result = tool
        .execute(
            r#"{"game":"poe1","xml":"<PathOfBuilding><Config></Config></PathOfBuilding>","custom_mods":["30% more spell damage","120% increased spell damage"],"stats":["Life","Mana"]}"#,
        )
        .expect("executes");
    let value: Value = serde_json::from_str(&result).expect("valid JSON");

    // Both engine runs happened on ONE warm child.
    assert_eq!(spawns.load(Ordering::SeqCst), 1);
    let seen = requests.lock().expect("requests");
    assert_eq!(seen.len(), 6, "version/load/stats twice");
    assert!(
        !seen[1].contains("customMods"),
        "baseline must be unmodified: {}",
        seen[1]
    );
    assert!(
        seen[4].contains(r"30% more spell damage\n120% increased spell damage"),
        "modified run carries the injected customMods input: {}",
        seen[4]
    );

    // The diff is precomputed: before/after/delta per stat.
    let life = &value["whatif"]["stats"]["Life"];
    assert_eq!(life["before"], 60.0);
    assert_eq!(life["after"], 72.0);
    assert_eq!(life["delta"], 12.0);
    assert_eq!(value["whatif"]["stats"]["Mana"]["delta"], 0.0);
    assert_eq!(value["whatif"]["engine_version"], "9.99.9");
    assert_eq!(value["whatif"]["custom_mods"][0], "30% more spell damage");
}

#[test]
fn whatif_rejects_missing_or_empty_mods_without_booting() {
    let (host, spawns, _) = rig(whatif_script());
    let tool = PobWhatifTool::with_host(host, math());
    for bad in [
        r#"{"game":"poe1","xml":"<PathOfBuilding/>"}"#,
        r#"{"game":"poe1","xml":"<PathOfBuilding/>","custom_mods":[]}"#,
        r#"{"game":"poe1","xml":"<PathOfBuilding/>","custom_mods":["  "]}"#,
        r#"{"game":"poe1","custom_mods":["10% more damage"]}"#,
    ] {
        assert!(
            matches!(tool.execute(bad), Err(ToolError::InvalidArgs(_))),
            "expected InvalidArgs for {bad}"
        );
    }
    assert_eq!(spawns.load(Ordering::SeqCst), 0);
}

#[test]
fn pob_family_shares_one_warm_engine_per_game() {
    // pob call (3 responses) then a whatif (6) against the same host:
    // the fake engine serves one script, so a shared child means one
    // spawn for all nine exchanges.
    let mut script = happy_script();
    script.extend(whatif_script());
    let (host, spawns, _) = rig(script);
    let pob = PobTool::with_host(Arc::clone(&host));
    let whatif = PobWhatifTool::with_host(host, math());

    pob.execute(r#"{"game":"poe1","xml":"<PathOfBuilding/>"}"#)
        .expect("pob executes");
    whatif
        .execute(
            r#"{"game":"poe1","xml":"<PathOfBuilding></PathOfBuilding>","custom_mods":["10% more damage"]}"#,
        )
        .expect("whatif executes");
    assert_eq!(spawns.load(Ordering::SeqCst), 1, "one shared warm child");
}

#[test]
fn custom_mods_create_a_config_section_when_missing() {
    // poe1 payload: a native CustomModifierBlock (composes with any
    // the build already has).
    let poe1 = inject_custom_mods(
        Game::Poe1,
        "<PathOfBuilding><Build/></PathOfBuilding>",
        &owned(&["10% more damage"]),
    )
    .expect("injects");
    assert!(poe1.contains(
        "<Config><CustomModifierBlock title=\"exile-whatif\" enabled=\"true\">10% more damage</CustomModifierBlock></Config>"
    ));
    assert!(poe1.ends_with("</Config></PathOfBuilding>"));

    // poe2 payload: the legacy customMods input, under its own root.
    let poe2 = inject_custom_mods(
        Game::Poe2,
        "<PathOfBuilding2><Build/></PathOfBuilding2>",
        &owned(&["10% more damage"]),
    )
    .expect("injects");
    assert!(poe2.contains("<Input name=\"customMods\" string=\"10% more damage\"/>"));
    assert!(poe2.ends_with("</Config></PathOfBuilding2>"));
}

#[test]
fn custom_mods_land_in_every_config_set() {
    // Multi-set build with activeConfigSet=2: whichever set is
    // active must carry the hypothetical, so every set gets it.
    let nested = inject_custom_mods(
        Game::Poe1,
        "<PathOfBuilding><Config activeConfigSet=\"2\"><ConfigSet id=\"1\"><Input name=\"enemyLevel\" number=\"1\"/></ConfigSet><ConfigSet id=\"2\"/></Config></PathOfBuilding>",
        &owned(&["10% more damage"]),
    )
    .expect("injects");
    assert_eq!(
        nested
            .matches("CustomModifierBlock title=\"exile-whatif\"")
            .count(),
        2,
        "both sets get the block: {nested}"
    );
    // The self-closed set 2 was expanded in place, keeping its id.
    assert!(
        nested.contains("<ConfigSet id=\"2\"><CustomModifierBlock"),
        "got: {nested}"
    );
    // Set 1's block sits inside the set, after its existing input.
    let set1_input = nested.find("enemyLevel").expect("existing input");
    let set1_block = nested.find("CustomModifierBlock").expect("our block");
    assert!(set1_block > set1_input);

    // A modern poe1 build with an existing block: ours composes.
    let composed = inject_custom_mods(
        Game::Poe1,
        "<PathOfBuilding><Config><ConfigSet id=\"1\"><CustomModifierBlock title=\"Default\" enabled=\"true\">5% more damage</CustomModifierBlock></ConfigSet></Config></PathOfBuilding>",
        &owned(&["10% more damage"]),
    )
    .expect("existing blocks compose");
    assert_eq!(composed.matches("CustomModifierBlock").count(), 4); // 2 tags each
}

#[test]
fn custom_mods_handle_self_closed_config_and_end_tag_whitespace() {
    // Self-closed config with attributes is expanded in place.
    let expanded = inject_custom_mods(
        Game::Poe2,
        "<PathOfBuilding2><Config activeConfigSet=\"1\"/></PathOfBuilding2>",
        &owned(&["10% more damage"]),
    )
    .expect("injects");
    assert!(
        expanded.contains("<Config activeConfigSet=\"1\"><Input name=\"customMods\""),
        "got: {expanded}"
    );

    // The engine parser tolerates `</Config >`; so must the scan: a missed
    // end tag would append a SECOND config section whose loader wipes the
    // first.
    let tolerant = inject_custom_mods(
        Game::Poe2,
        "<PathOfBuilding2><Config><Input name=\"enemyLevel\" number=\"1\"/></Config ></PathOfBuilding2>",
        &owned(&["10% more damage"]),
    )
    .expect("injects");
    assert_eq!(
        tolerant.matches("<Config").count(),
        1,
        "no duplicate section: {tolerant}"
    );
    assert!(tolerant.contains("customMods"));
}

#[test]
fn comments_are_stripped_and_cdata_rejected() {
    // A commented-out end tag must not divert the injection: the engine
    // strips comments before parsing, so the scan must too.
    let xml = prepare_xml("<PathOfBuilding><!-- </Config> --><Config></Config></PathOfBuilding>")
        .expect("prepares");
    assert!(!xml.contains("<!--"));
    let injected =
        inject_custom_mods(Game::Poe1, &xml, &owned(&["10% more damage"])).expect("injects");
    assert_eq!(injected.matches("CustomModifierBlock").count(), 2);

    // A poe2 root hidden in a comment must not flip the game check.
    let cleaned = prepare_xml("<!-- <PathOfBuilding2> --><PathOfBuilding/>").expect("prepares");
    assert!(check_game_xml(Game::Poe2, &cleaned).is_err());
    assert!(check_game_xml(Game::Poe1, &cleaned).is_ok());

    assert!(prepare_xml("<PathOfBuilding><![CDATA[x]]></PathOfBuilding>").is_err());
}

#[test]
fn root_detection_requires_a_name_boundary() {
    assert!(check_game_xml(Game::Poe1, "<PathOfBuildingFoo/>").is_err());
    assert!(check_game_xml(Game::Poe2, "<PathOfBuilding2x/>").is_err());
    assert!(check_game_xml(Game::Poe1, "<PathOfBuilding>x</PathOfBuilding>").is_ok());
    assert!(check_game_xml(Game::Poe2, "<PathOfBuilding2 attr=\"1\"/>").is_ok());
}

#[test]
fn diff_passes_through_non_numeric_and_one_sided_stats() {
    let before = json::parse(r#"{"Life":60,"MaxHit":"inf","OnlyBefore":1}"#).expect("json");
    let after = json::parse(r#"{"Life":72.13,"MaxHit":"inf","OnlyAfter":2}"#).expect("json");
    let (diff, _) = diff_stats(&before, &after, &hold(math()));
    let diff: Value = serde_json::from_str(&diff.to_string()).expect("json");
    // Rounded to two decimals: no subtraction noise.
    assert_eq!(diff["Life"]["delta"], 12.13);
    assert_eq!(diff["MaxHit"]["before"], "inf");
    assert_eq!(diff["MaxHit"]["delta"], Value::Null);
    assert_eq!(diff["OnlyBefore"]["after"], Value::Null);
    assert_eq!(diff["OnlyAfter"]["before"], Value::Null);
}

#[test]
fn cross_game_builds_are_rejected_loudly() {
    // The engine silently computes a DEFAULT build when fed the other
    // game's XML: the tool must error instead.
    let (host, spawns, _) = rig(happy_script());
    let pob = PobTool::with_host(Arc::clone(&host));
    let whatif = PobWhatifTool::with_host(host, math());
    for bad in [
        r#"{"game":"poe2","xml":"<PathOfBuilding><Build/></PathOfBuilding>"}"#,
        r#"{"game":"poe1","xml":"<PathOfBuilding2><Build/></PathOfBuilding2>"}"#,
    ] {
        let err = pob.execute(bad).expect_err("cross-feed must fail");
        assert!(
            matches!(err, ToolError::InvalidArgs(_)),
            "expected InvalidArgs for {bad}"
        );
    }
    let err = whatif
        .execute(
            r#"{"game":"poe2","xml":"<PathOfBuilding><Build/></PathOfBuilding>","custom_mods":["10% more damage"]}"#,
        )
        .expect_err("cross-feed must fail");
    assert!(err.to_string().contains("PathOfBuilding2"));
    assert_eq!(spawns.load(Ordering::SeqCst), 0, "no engine boots");
}

#[test]
fn custom_mods_are_xml_escaped_and_validated() {
    let escaped = inject_custom_mods(
        Game::Poe1,
        "<PathOfBuilding><Config></Config></PathOfBuilding>",
        &owned(&["+1 to maximum \"charges\" & <things>"]),
    )
    .expect("injects");
    assert!(escaped.contains("&quot;charges&quot; &amp; &lt;things&gt;"));

    assert!(inject_custom_mods(Game::Poe1, "<PathOfBuilding/>", &Vec::new()).is_err());
    assert!(
        inject_custom_mods(Game::Poe1, "not a build", &owned(&["10% more damage"])).is_err()
    );
}

#[test]
fn games_get_separate_engines() {
    let (tool, spawns, _) = tool(happy_script());
    let _ = tool.execute(r#"{"game":"poe1","xml":"<PathOfBuilding/>"}"#);
    let _ = tool.execute(r#"{"game":"poe2","xml":"<PathOfBuilding2/>"}"#);
    assert_eq!(spawns.load(Ordering::SeqCst), 2);
}

#[test]
fn each_fault_of_an_injection_is_told_apart() {
    let mods = owned(&["x"]);
    let fault = |xml: &str| inject_custom_mods(Game::Poe1, xml, &mods).expect_err(xml);
    assert!(fault("<Input name=\"customMods\"/>").contains("legacy customMods"));
    assert!(fault("<Input name='customMods'/>").contains("legacy customMods"));
    assert_eq!(
        fault("<ConfigSet>"),
        "build XML has an unterminated ConfigSet section"
    );
    assert_eq!(
        fault("<Config>"),
        "build XML has an unterminated Config section"
    );
    assert_eq!(
        fault("<Other/>"),
        "not a Path of Building build XML (no PathOfBuilding element)"
    );
    assert_eq!(
        inject_custom_mods(Game::Poe1, "<Config><ConfigSet/ ></Config>", &mods),
        Err("build XML has an unterminated ConfigSet section".to_owned())
    );
    assert_eq!(xml_escape("<>&'\"a"), "&lt;&gt;&amp;&apos;&quot;a");
    assert_eq!(
        prepare_xml("a<!-- b -->c<!-->d-->e<!-- f"),
        Ok("ace".to_owned())
    );
}

#[test]
fn responses_of_an_engine_are_read_by_value() {
    assert_eq!(
        read_response("stats", &Ok(r#"{"ok":true}"#.to_owned()))
            .expect("no result")
            .to_string(),
        "null"
    );
    assert_eq!(
        read_response("stats", &Ok("oops".to_owned()))
            .expect_err("no JSON")
            .split(": ")
            .next(),
        Some("engine spoke non-JSON")
    );
    assert_eq!(
        read_response("loadXML", &Ok(r#"{"ok":1}"#.to_owned())).expect_err("refused"),
        r#"engine rejected "loadXML": {"ok":1}"#
    );
    assert_eq!(
        read_response("x", &Err("engine exited".to_owned())).expect_err("dead"),
        "engine exited"
    );
}

#[test]
fn unknown_stat_keys_are_refused() {
    let (host, _, _) = rig(whatif_script());
    let tool = PobWhatifTool::with_host(host, math());
    let err = tool
        .execute(
            r#"{"game":"poe1","xml":"<PathOfBuilding></PathOfBuilding>","custom_mods":["x"],"stats":["Life","Nope","No"]}"#,
        )
        .expect_err("unknown keys");
    assert_eq!(
        err,
        ToolError::InvalidArgs(
            "unknown stat keys (the engine reported no such stats for this build): Nope, No"
                .to_owned()
        )
    );
}

#[test]
fn engines_live_below_their_root() {
    assert_eq!(dir_of("vendor/pob", Game::Poe1), "vendor/pob/poe1");
    assert_eq!(dir_of("vendor/pob/", Game::Poe2), "vendor/pob/poe2");
    assert_eq!(dir_of("", Game::Poe2), "poe2");
    assert_eq!(
        adapter_file_name("ab"),
        "exile-pob-adapter-00000c21.lua"
    );
    let factory = LuaFactory::new("luajit".to_owned(), "a.lua".to_owned());
    assert_eq!((factory.luajit(), factory.adapter()), ("luajit", "a.lua"));
    assert_eq!(
        LuaFactory::check_banner(Ok(r#"{"ready":true}"#.to_owned())),
        Ok(())
    );
    assert_eq!(
        LuaFactory::check_banner(Ok("hi".to_owned())),
        Err("unexpected ready banner: hi".to_owned())
    );
    assert_eq!(
        LuaFactory::check_banner(Err("slow".to_owned())),
        Err("engine did not become ready: slow".to_owned())
    );
    assert!(LuaFactory::missing_checkout("d").starts_with("no engine checkout at d"));
}

#[test]
fn a_factory_that_refuses_fails_the_call() {
    struct Refuse;
    impl EngineFactory for Refuse {
        fn spawn(&self, dir: &str) -> Result<Box<dyn Engine>, String> {
            Err(format!("no {dir}"))
        }
    }
    let tool = PobTool::new(EngineHost::with_factory(
        Box::new(Refuse),
        "root".to_owned(),
    ));
    assert_eq!(
        tool.execute(r#"{"game":"poe1","xml":"<PathOfBuilding/>"}"#),
        Err(ToolError::Failed("no root/poe1".to_owned()))
    );
    assert_eq!(
        answer_build(Game::Poe1, "t", Err("x".to_owned())),
        Err(ToolError::Failed("x".to_owned()))
    );
}

#[test]
fn stats_compare_by_value() {
    let one = json::parse("1").expect("json");
    let text = json::parse("\"inf\"").expect("json");
    assert_eq!(
        compare_stat(Some(&one), Some(&one), delta_value("0.5")).to_string(),
        r#"{"after":1.0,"before":1.0,"delta":0.5}"#
    );
    assert_eq!(
        compare_stat(Some(&one), Some(&text), delta_value("0.5")).to_string(),
        r#"{"after":"inf","before":1,"delta":null}"#
    );
    assert_eq!(
        compare_stat(None, Some(&one), delta_value("NaN")).to_string(),
        r#"{"after":1,"before":null,"delta":null}"#
    );
    assert_eq!(delta_value("inf").to_string(), "null");
    assert_eq!(
        resolve_xml(&None, &Some(" <x/>".to_owned())),
        Ok(" <x/>".to_owned())
    );
    assert!(resolve_xml(&None, &None).is_err());
}

#[test]
fn roots_closed_by_themselves_take_a_config_section() {
    let block = "<CustomModifierBlock title=\"exile-whatif\" enabled=\"true\">10% more damage</CustomModifierBlock>";
    assert_eq!(
        inject_custom_mods(Game::Poe1, "<PathOfBuilding/>", &owned(&["10% more damage"])),
        Ok(format!(
            "<PathOfBuilding><Config>{block}</Config></PathOfBuilding>"
        ))
    );
    assert_eq!(
        inject_custom_mods(Game::Poe2, "<?xml?><PathOfBuilding2 a=\"1\"/>\n", &owned(&["x"])),
        Ok("<?xml?><PathOfBuilding2 a=\"1\"><Config><Input name=\"customMods\" string=\"x\"/></Config></PathOfBuilding2>\n".to_owned())
    );
    // A root that is never closed is none.
    assert!(inject_custom_mods(Game::Poe1, "<PathOfBuilding>", &owned(&["x"])).is_err());
}

#[test]
fn lines_put_in_twice_compose_or_are_refused() {
    for xml in [
        "<PathOfBuilding/>",
        "<PathOfBuilding><Build/></PathOfBuilding>",
        "<PathOfBuilding><Config/></PathOfBuilding>",
        "<PathOfBuilding><Config a=\"1\"></Config ></PathOfBuilding>",
        "<PathOfBuilding><Config><ConfigSet id=\"1\"/><ConfigSet></ConfigSet></Config></PathOfBuilding>",
        "<PathOfBuilding><Config><ConfigSet//></Config></PathOfBuilding>",
    ] {
        let once = inject_custom_mods(Game::Poe1, xml, &owned(&["first"])).expect(xml);
        let twice = inject_custom_mods(Game::Poe1, &once, &owned(&["second"])).expect(xml);
        assert!(twice.contains("enabled=\"true\">first</Custom"), "{twice}");
        assert!(twice.contains("enabled=\"true\">second</Custom"), "{twice}");
        assert!(inject_custom_mods(Game::Poe1, &once, &owned(&[" "])).is_err());
    }
    let once = inject_custom_mods(Game::Poe2, "<PathOfBuilding2/>", &owned(&["first"]))
        .expect("injects");
    let refused = inject_custom_mods(Game::Poe2, &once, &owned(&["second"]));
    assert!(refused.expect_err("refused").contains("legacy customMods"));
}

#[test]
fn engines_are_booted_when_needed() {
    // One failure in the middle: the engine of that game alone is replaced.
    let good = [
        r#"{"ok":true,"result":{"engine":"1"}}"#,
        r#"{"ok":true}"#,
        r#"{"ok":true,"result":{}}"#,
    ];
    let mut script = owned(&good);
    script.extend(owned(&good));
    script.push(r#"{"ok":false,"error":"boom"}"#.to_owned());
    let (host, spawns, _) = rig(script);
    let stats = None;
    let mut seen = Vec::new();
    for game in [
        Game::Poe1,
        Game::Poe2,
        Game::Poe1,
        Game::Poe1,
        Game::Poe2,
        Game::Poe1,
    ] {
        let run = host.compute(game, "<x/>", &stats);
        seen.push((run.is_ok(), spawns.load(Ordering::SeqCst)));
    }
    assert_eq!(
        seen,
        vec![(true, 1), (true, 2), (true, 2), (false, 2), (true, 2), (true, 3)]
    );
    let failed = host.compare(Game::Poe2, "<x/>", "<y/>", &stats);
    assert_eq!(
        failed.expect_err("boom"),
        r#"engine rejected "version": boom"#
    );
}

#[test]
fn plans_are_made_without_an_engine() {
    let plan = plan_whatif(
        r#"{"game":"poe1","xml":"<!-- c --><PathOfBuilding/>","custom_mods":[" a "]}"#,
    )
    .expect("plans");
    assert_eq!(plan.xml, "<PathOfBuilding/>");
    assert!(plan.modified.contains(">a</CustomModifierBlock>"));
    assert_eq!(
        plan_whatif(r#"{"game":"poe1","xml":"<PathOfBuilding/>","custom_mods":[]}"#)
            .expect_err("no lines"),
        "`custom_mods` must contain at least one modifier line"
    );
    let (args, xml) =
        plan_lookup(r#"{"game":"poe2","xml":"<PathOfBuilding2/>"}"#).expect("plans");
    assert_eq!((args.game, xml.as_str()), (Game::Poe2, "<PathOfBuilding2/>"));
    assert!(plan_lookup(r#"{"game":"poe1","xml":"<PathOfBuilding2/>"}"#).is_err());
}
