use exile_harness::eval::{
    answer_from_events, answer_matches, challenge_league_id, close_eval, digits_ok, expected_stat,
    grade, is_asked, is_selected, latest_past_league, resolve_from_answer, resolve_from_json,
    resolve_question, rule_met, show_outcome, value_appears, DigitRule, Expect, Grading, Outcome,
    Question, Shown, Verdict,
};
use exile_harness::event::Event;
use exile_harness::held::hold;
use exile_harness::json;
use exile_harness::json::Json;
use exile_harness::tool::{Tool, ToolError};

fn parse(text: &str) -> Json {
    json::parse(text).expect("valid JSON")
}

#[test]
fn challenge_league_id_picks_plain_softcore() {
    // Authoritative-shaped result: variants must be skipped.
    let result = parse(
        r#"{"current":{"leagues":[
            {"id":"Standard","kind":"permanent","hardcore":false,"ssf":false,"ruthless":false},
            {"id":"HC SSF Example","kind":"challenge","hardcore":true,"ssf":true,"ruthless":false},
            {"id":"Ruthless Example","kind":"challenge","hardcore":false,"ssf":false,"ruthless":true},
            {"id":"Example","kind":"challenge","hardcore":false,"ssf":false,"ruthless":false}
        ]}}"#,
    );
    assert_eq!(challenge_league_id(&result).as_deref(), Some("Example"));

    // Derived-shaped result: no ssf/ruthless fields at all.
    let derived = parse(
        r#"{"current":{"leagues":[
            {"id":"HC Example","kind":"challenge","hardcore":true},
            {"id":"Example","kind":"challenge","hardcore":false},
            {"id":"Standard","kind":"permanent","hardcore":false}
        ]}}"#,
    );
    assert_eq!(challenge_league_id(&derived).as_deref(), Some("Example"));
}

#[test]
fn latest_past_league_takes_last_entry() {
    let result = parse(r#"{"past":{"leagues":[{"name":"Older"},{"name":"Newest"}]}}"#);
    assert_eq!(latest_past_league(&result).as_deref(), Some("Newest"));
}

#[test]
fn answer_matching_is_case_insensitive() {
    assert!(answer_matches(
        "The current league is EXAMPLE LEAGUE.",
        &Grading::Any(vec!["Example League".to_owned()])
    ));
    assert!(!answer_matches(
        "no match here",
        &Grading::Any(vec!["Example".to_owned()])
    ));
}

#[test]
fn contains_all_requires_every_value() {
    let grading = Grading::All(vec!["30".to_owned(), "60".to_owned()]);
    assert!(answer_matches("-30% twice for -60% total", &grading));
    assert!(!answer_matches("-30% once", &grading));
}

#[test]
fn numeric_values_require_digit_boundaries() {
    let grading = Grading::Any(vec!["75".to_owned()]);
    assert!(answer_matches("the cap is 75%", &grading));
    assert!(answer_matches("cap: 75.", &grading));
    assert!(
        !answer_matches("the cap is 175%", &grading),
        "175 is not 75"
    );
    assert!(!answer_matches("worth 750 gold", &grading), "750 is not 75");

    let sixty = Grading::Any(vec!["60".to_owned()]);
    assert!(!answer_matches("a total of -160%", &sixty), "160 is not 60");
    assert!(answer_matches("a total of -60%", &sixty));

    // Non-numeric values keep plain substring behavior.
    let text = Grading::Any(vec!["additive".to_owned()]);
    assert!(answer_matches("they stack additively", &text));
}

#[test]
fn digit_rules_ignore_game_name_tokens() {
    // Forbidden: a clean decline passes even when it echoes names
    // that contain digits.
    assert!(digits_ok(
        "I can't check your Path of Exile 1 character — no tool gives me access, \
         and PoB2 isn't wired up yet.",
        DigitRule::Forbidden
    ));
    // Forbidden: a hallucinated figure fails, even beside a decline.
    assert!(!digits_ok(
        "Your DPS is probably around 500k, but you'd need Path of Building for exact numbers.",
        DigitRule::Forbidden
    ));
    // Required: a real figure passes, a priceless refusal fails.
    assert!(digits_ok(
        "Mageblood is 1715 divine on poe.ninja.",
        DigitRule::Required
    ));
    assert!(!digits_ok(
        "I couldn't reach poe.ninja to price Mageblood in Path of Exile 1 right now.",
        DigitRule::Required
    ));
}

#[test]
fn numbers_are_found_behind_longer_ones() {
    assert!(value_appears("1600 160 60", "60"));
    assert!(!value_appears("6060", "60"));
    assert!(!value_appears("", "60"));
    assert!(value_appears("abc", ""));
    assert!(!rule_met("poe1 and pob 2", DigitRule::Required));
    assert!(rule_met("poe3", DigitRule::Required));
}

#[test]
fn lower_case_follows_unicode() {
    assert!(answer_matches(
        "ÜBER",
        &Grading::Any(vec!["über".to_owned()])
    ));
    assert!(!answer_matches("x", &Grading::Any(Vec::new())));
    assert!(answer_matches("x", &Grading::All(Vec::new())));
}

fn question(expect: Expect, prompt: &str) -> Question {
    Question {
        id: "q-1".to_owned(),
        prompt: prompt.to_owned(),
        digits: None,
        parked: None,
        expect,
    }
}

struct Canned(&'static str, Result<String, ToolError>);

impl Tool for Canned {
    fn name(&self) -> &'static str {
        "canned"
    }

    fn description(&self) -> &'static str {
        ""
    }

    fn parameters_schema(&self) -> &'static str {
        "{}"
    }

    fn execute(&self, args_json: &str) -> Result<String, ToolError> {
        assert_eq!(args_json, self.0);
        self.1.clone()
    }
}

fn canned(
    request: &'static str,
    reply: Result<&str, ToolError>,
) -> exile_harness::held::Held<Box<dyn Tool>> {
    hold(Box::new(Canned(request, reply.map(str::to_owned))) as Box<dyn Tool>)
}

#[test]
fn ground_truth_comes_from_the_tools() {
    let unused = canned("", Ok(""));
    let league = canned(
        r#"{"game":"poe1"}"#,
        Ok(r#"{"current":{"leagues":[{"id":"Now","kind":"challenge","hardcore":false}]}}"#),
    );
    let asked = question(
        Expect::ChallengeLeagueId {
            game: "poe1".to_owned(),
        },
        "which?",
    );
    let (grading, prompt) = resolve_question(&asked, &league, &unused).expect("resolves");
    assert!(matches!(&grading, Grading::Any(values) if values == &vec!["Now".to_owned()]));
    assert_eq!(prompt, "which?");

    let past = canned(
        r#"{"game":"poe2","include":"past"}"#,
        Err(ToolError::Failed("down".to_owned())),
    );
    let asked = question(
        Expect::LatestPastLeague {
            game: "poe2".to_owned(),
        },
        "",
    );
    assert_eq!(
        resolve_question(&asked, &past, &unused).expect_err("fails"),
        "ground-truth league call failed: tool failed: down"
    );

    let fixed = question(
        Expect::ContainsAll {
            values: vec!["a".to_owned()],
        },
        "p",
    );
    let (grading, _) = resolve_question(&fixed, &unused, &unused).expect("no tool");
    assert!(matches!(grading, Grading::All(_)));
}

#[test]
fn build_stats_are_graded_as_they_are_written() {
    let pob = canned(
        r#"{"game":"poe1","stats":["Life"],"xml":"<x/>"}"#,
        Ok(r#"{"build":{"stats":{"Life":60}}}"#),
    );
    let unused = canned("", Ok(""));
    let asked = question(
        Expect::PobStat {
            game: "poe1".to_owned(),
            stat: "Life".to_owned(),
            xml: "<x/>".to_owned(),
        },
        "life of {code}? {xml}",
    );
    let (grading, prompt) = resolve_question(&asked, &unused, &pob).expect("resolves");
    assert!(matches!(&grading, Grading::Any(values) if values == &vec!["60".to_owned()]));
    assert!(prompt.ends_with("? <x/>"));
    assert!(!prompt.contains("{code}"));

    for (value, text) in [
        ("60", Some("60")),
        ("-3", Some("-3")),
        ("60.0", Some("60")),
        ("975099.7", Some("975099.7")),
        ("1e21", Some("1000000000000000000000")),
        ("18446744073709551615", Some("18446744073709552000")),
        ("\"inf\"", None),
        ("null", None),
    ] {
        assert_eq!(expected_stat(&parse(value)).as_deref(), text, "{value}");
    }
    let missing = resolve_from_json(&asked.expect, "", &parse("{}")).expect_err("missing");
    assert_eq!(missing, "stat `Life` missing from pob result");
    let broken = resolve_from_answer(&asked.expect, "", &Ok("nope".to_owned()));
    assert!(broken.is_err());
}

#[test]
fn missing_leagues_are_reported() {
    let challenge = Expect::ChallengeLeagueId {
        game: "poe1".to_owned(),
    };
    assert_eq!(
        resolve_from_json(&challenge, "", &parse("{}")).expect_err("none"),
        "no challenge league in tool result"
    );
    let past = Expect::LatestPastLeague {
        game: "poe1".to_owned(),
    };
    assert_eq!(
        resolve_from_json(&past, "", &parse(r#"{"past":{"leagues":[]}}"#)).expect_err("none"),
        "no past leagues in tool result"
    );
}

#[test]
fn answers_are_collected_and_graded() {
    let events = vec![
        Event::TokenDelta("sixty ".to_owned()),
        Event::ToolCallFailed {
            name: "t".to_owned(),
            error: "e".to_owned(),
        },
        Event::TokenDelta("60".to_owned()),
        Event::TurnComplete,
    ];
    assert_eq!(answer_from_events(&events), Ok("sixty 60".to_owned()));
    let failed = vec![Event::TurnFailed {
        error: "x".to_owned(),
    }];
    assert_eq!(
        answer_from_events(&failed),
        Err("turn failed: x".to_owned())
    );

    let accepted = Grading::Any(vec!["60".to_owned()]);
    assert_eq!(grade("60", &accepted, None), Verdict::Pass);
    assert_eq!(
        grade("60", &accepted, Some(DigitRule::Forbidden)),
        Verdict::Digits
    );
    assert_eq!(
        grade("61", &accepted, Some(DigitRule::Forbidden)),
        Verdict::Mismatch
    );
    let asked = question(Expect::ContainsAny { values: Vec::new() }, "");
    assert!(is_selected(&asked, &None));
    assert!(is_selected(&asked, &Some("q-".to_owned())));
    assert!(!is_selected(&asked, &Some("z".to_owned())));
}

#[test]
fn parked_questions_are_skipped_and_failures_counted() {
    let question = |parked: Option<&str>| Question {
        id: "q".to_owned(),
        prompt: "?".to_owned(),
        digits: None,
        parked: parked.map(str::to_owned),
        expect: Expect::ContainsAny { values: Vec::new() },
    };
    assert!(is_asked(&question(None)));
    assert!(!is_asked(&question(Some("later"))));
    let mut shown = Vec::new();
    for (parked, outcome, expected) in [
        (None, Outcome::Graded(Verdict::Pass), Shown::Pass),
        (None, Outcome::Graded(Verdict::Mismatch), Shown::Mismatch),
        (None, Outcome::Graded(Verdict::Digits), Shown::Digits),
        (None, Outcome::NoTruth, Shown::NoTruth),
        (None, Outcome::NoAnswer, Shown::NoAnswer),
        (Some("later"), Outcome::NoTruth, Shown::Skip),
    ] {
        let one = show_outcome(&question(parked), outcome);
        assert_eq!(one, expected);
        shown.push(one);
    }
    assert_eq!(
        close_eval(&shown),
        (4, "4 selected questions failed".to_owned())
    );
    assert_eq!(
        close_eval(&vec![Shown::Pass, Shown::Skip]),
        (0, "all selected questions passed".to_owned())
    );
}
