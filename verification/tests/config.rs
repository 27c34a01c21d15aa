use exile_harness::config::{Config, Limits, Profile, Profiles, Temperature, ToolMode};
use exile_harness::eval::eval_profile;
use exile_harness::openai::{ChatTransport, OpenAiClient};
use exile_harness::stream::LineSource;

fn profile(base_url: &str, model: &str) -> Profile {
    Profile {
        base_url: base_url.to_owned(),
        model: model.to_owned(),
        api_key_env: None,
        tool_mode: ToolMode::default(),
        temperature: None,
        idle_timeout_secs: None,
        request_timeout_secs: None,
    }
}

/// Two profiles, the later name put in first.
fn example() -> Config {
    let mut profiles = Profiles::new();
    profiles.insert(
        "local".to_owned(),
        profile("http://localhost:11434/v1", "some-model"),
    );
    let mut hosted = profile("https://example.invalid/v1", "other-model");
    hosted.api_key_env = Some("EXAMPLE_API_KEY".to_owned());
    hosted.tool_mode = ToolMode::Prompted;
    profiles.insert("hosted".to_owned(), hosted);
    Config {
        default_profile: "local".to_owned(),
        profiles,
        limits: Limits::default(),
    }
}

fn temperature(value: f64) -> Temperature {
    Temperature::read(&value.to_string())
}

#[test]
fn parses_and_resolves_profiles() {
    let config = example();
    let (name, profile) = config.profile(None).expect("default resolves");
    assert_eq!(name, "local");
    assert_eq!(profile.tool_mode, ToolMode::Native);

    let (_, hosted) = config.profile(Some("hosted")).expect("named resolves");
    assert_eq!(hosted.tool_mode, ToolMode::Prompted);
    assert_eq!(hosted.api_key_env.as_deref(), Some("EXAMPLE_API_KEY"));

    let err = config.profile(Some("missing")).expect_err("unknown");
    assert!(err.contains("available: hosted, local"));
}

#[test]
fn unset_api_key_env_is_a_hard_error() {
    let config = example();
    let (_, local) = config.profile(None).expect("resolves");
    let unset: Result<String, String> = Err("environment variable not found".to_owned());
    assert_eq!(
        local.api_key(unset.clone()),
        Ok(None),
        "no api_key_env means no key"
    );

    let mut hosted = profile("https://example.invalid/v1", "other-model");
    hosted.api_key_env = Some("EXILE_TEST_DEFINITELY_UNSET_VARIABLE".to_owned());
    let err = hosted.api_key(unset).expect_err("unset variable must error");
    assert!(err.contains("EXILE_TEST_DEFINITELY_UNSET_VARIABLE"));
    assert_eq!(
        hosted.api_key(Ok("k".to_owned())),
        Ok(Some("k".to_owned()))
    );
}

#[test]
fn limits_and_timeouts_parse_and_validate() {
    let mut config = example();
    config.limits.max_tool_rounds = Some(4);
    assert_eq!(config.validate(), Ok(()));

    let (_, local) = config.profile(None).expect("resolves");
    assert_eq!(local.idle_timeout(), 180);
    assert_eq!(local.request_timeout(), None);

    let mut tweaked = profile("http://localhost:11434/v1", "some-model");
    tweaked.idle_timeout_secs = Some(30);
    tweaked.request_timeout_secs = Some(120);
    assert_eq!(tweaked.idle_timeout(), 30);
    assert_eq!(tweaked.request_timeout(), Some(120));
}

#[test]
fn bad_default_profile_is_reported() {
    let mut config = example();
    config.default_profile = "nope".to_owned();
    let err = config.validate().expect_err("bad default profile");
    assert!(err.contains("`nope` is not defined"));
}

fn with_local(change: impl FnOnce(&mut Profile)) -> Config {
    let mut config = example();
    let mut local = profile("http://localhost:11434/v1", "some-model");
    change(&mut local);
    config.profiles.insert("local".to_owned(), local);
    config
}

#[test]
fn each_fault_of_a_configuration_is_reported() {
    for bad in [-0.1, 2.1, f64::NAN, f64::INFINITY, f64::NEG_INFINITY] {
        let config = with_local(|local| local.temperature = Some(temperature(bad)));
        assert_eq!(
            config.validate().expect_err("temperature"),
            "profile `local`: temperature must be a finite number between 0 and 2"
        );
    }
    for good in [0.0, -0.0, 0.7, 2.0, f64::MIN_POSITIVE] {
        let config = with_local(|local| local.temperature = Some(temperature(good)));
        assert_eq!(config.validate(), Ok(()), "{good}");
    }
    let config = with_local(|local| local.idle_timeout_secs = Some(0));
    assert_eq!(
        config.validate().expect_err("idle"),
        "profile `local`: idle_timeout_secs must be > 0"
    );
    let config = with_local(|local| local.request_timeout_secs = Some(0));
    assert_eq!(
        config.validate().expect_err("request"),
        "profile `local`: request_timeout_secs must be > 0"
    );
    let mut config = example();
    config.limits.max_tool_rounds = Some(0);
    assert_eq!(
        config.validate().expect_err("rounds"),
        "limits.max_tool_rounds must be > 0"
    );
}

#[test]
fn profiles_keep_the_order_of_their_names() {
    let mut profiles = Profiles::new();
    for name in ["b", "a", "ab", "é", "B", "a"] {
        profiles.insert(name.to_owned(), profile(name, "m"));
    }
    assert_eq!(profiles.keys(), vec!["B", "a", "ab", "b", "é"]);
    assert_eq!(profiles.get("ab").expect("there").1.base_url, "ab");
    assert!(profiles.get("c").is_none());
}

#[test]
fn clients_follow_their_profile() {
    struct Unused;
    impl ChatTransport for Unused {
        fn post_json(
            &self,
            _url: &str,
            _api_key: Option<&str>,
            _body: &str,
        ) -> Result<Box<dyn LineSource>, String> {
            Err("unused".to_owned())
        }
    }
    let mut source = profile("http://x/v1///", "m");
    source.temperature = Some(temperature(1.5));
    let client = OpenAiClient::for_profile(&source, Box::new(Unused), None);
    let body = client.request_body("s", &[], &[]).to_string();
    assert_eq!(
        body,
        r#"{"messages":[{"content":"s","role":"system"}],"model":"m","stream":true,"temperature":1.5}"#
    );
}

#[test]
fn evals_pin_temperature_and_ceiling() {
    let pinned = eval_profile(profile("u", "m"));
    let number = pinned.temperature.expect("pinned").number.expect("zero");
    assert_eq!((number.as_str(), number.bits()), ("0.0", 0));
    assert_eq!(pinned.request_timeout_secs, Some(600));
    let mut own = profile("u", "m");
    own.request_timeout_secs = Some(5);
    own.temperature = Some(temperature(1.5));
    let pinned = eval_profile(own);
    assert_eq!(pinned.request_timeout_secs, Some(5));
    let number = pinned.temperature.expect("kept").number.expect("finite");
    assert_eq!(number.as_str(), "1.5");
    assert_eq!(number.bits(), 1.5f64.to_bits());
}
