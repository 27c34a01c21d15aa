use exile_harness::args::{find_argument, open_args, read_variant};
use exile_harness::json;
use exile_harness::json::{Json, Real};
use exile_harness::text;
use exile_harness::written::parts_of;

#[test]
fn values_print_as_compact_json() {
    let value = Json::object()
        .with("b", Json::Array(vec![Json::Null, Json::Bool(true)]))
        .with("a", Json::string("q\"\\\n\u{1}é"))
        .with("n", Json::Unsigned(u64::MAX))
        .with("m", Json::Negative(i64::MIN))
        .with("f", Json::Float(Real::parse("2.50").expect("number")))
        .with("b", Json::Unsigned(1));
    assert_eq!(
        value.to_string(),
        "{\"a\":\"q\\\"\\\\\\n\\u0001é\",\"b\":1,\"f\":2.5,\"m\":-9223372036854775808,\"n\":18446744073709551615}"
    );
    assert_eq!(value.copy().to_string(), value.to_string());
    assert_eq!(value.member_count(), 5);
}

#[test]
fn text_reads_back_as_the_value() {
    let text = r#"{"a":[1,-2,"x",{"y":null}],"z":true}"#;
    assert_eq!(json::parse(text).expect("json").to_string(), text);
    let twice = json::parse(r#"{"a":1,"a":2}"#).expect("json");
    assert_eq!(twice.to_string(), r#"{"a":2}"#);
    assert!(json::parse("{").is_err());
    assert!(json::parse("").is_err());
    let deep = format!("{}{}", "[".repeat(200), "]".repeat(200));
    assert!(json::parse(&deep).is_err());
}

#[test]
fn numbers_keep_their_kind() {
    let value = json::parse("[5,-5,5.0,1e400]");
    assert!(value.is_err(), "out of range");
    let value = json::parse("[5,-5,5.0,-0]").expect("json");
    assert_eq!(value.index(0).as_u64(), Some(5));
    assert_eq!(value.index(1).as_u64(), None);
    assert_eq!(value.index(2).as_u64(), None);
    assert_eq!(value.to_string(), "[5,-5,5.0,-0.0]");
    assert_eq!(
        value.index(0).as_float().expect("number").as_str(),
        "5.0"
    );
    assert_eq!(
        value.index(1).as_float().expect("number").as_str(),
        "-5.0"
    );
    assert!(Json::string("5").as_float().is_none());
    assert!(Real::parse("abc").is_none());
    assert!(Real::parse("1e999").is_none());
    assert_eq!(Json::Negative(7).as_u64(), Some(7));
    assert_eq!(Json::Negative(7).to_string(), "7");
}

#[test]
fn members_and_items_are_null_where_there_are_none() {
    let value = json::parse(r#"{"a":{"b":[10]}}"#).expect("json");
    assert_eq!(value.key("a").key("b").index(0).as_u64(), Some(10));
    assert!(value.key("x").key("y").index(3).is_null());
    assert!(value.get("x").is_none());
    assert!(value.key("a").as_array().is_none());
    assert_eq!(value.keys(), vec!["a"]);
}

#[test]
fn arguments_are_read_strictly() {
    let names = ["game", "league"];
    assert!(open_args(r#"{"game":1}"#, &names, 0).is_ok());
    assert_eq!(
        open_args(r#"{"other":1}"#, &names, 0).expect_err("unknown"),
        "unknown field `other`, expected `game` or `league`"
    );
    assert_eq!(
        open_args(r#"{"game":1,"league":{},"league":2}"#, &names, 0).expect_err("twice"),
        "duplicate field `league`"
    );
    assert!(open_args(r#"{"game":{"a":1,"a":2},"league":":{"}"#, &names, 0).is_ok());
    assert_eq!(
        open_args("[1]", &names, 0).expect_err("short"),
        "invalid length, expected all of `game`, `league`"
    );
    let args = open_args("[1,2]", &names, 0).expect("all in order");
    assert_eq!(
        find_argument(&args, "league", 1).expect("second").as_u64(),
        Some(2)
    );
    assert_eq!(
        open_args("3", &names, 0).expect_err("number"),
        "invalid type, expected an object"
    );
    let variant = json::parse(r#"{"poe1":null}"#).expect("json");
    assert_eq!(read_variant(&variant).as_deref(), Some("poe1"));
    let other = json::parse(r#"{"poe1":1}"#).expect("json");
    assert_eq!(read_variant(&other), None);
    let two = json::parse(r#"{"a":null,"b":null}"#).expect("json");
    assert_eq!(read_variant(&two), None);
}

#[test]
fn text_operations_match_std() {
    for s in ["", " a b ", "\u{a0}x\u{2003}", "a\r\nb\n\nc", "é\u{3000}", "aaaa"] {
        assert_eq!(text::trim(s), s.trim());
        assert_eq!(text::trim_start(s), s.trim_start());
        assert_eq!(text::trim_end(s), s.trim_end());
        assert_eq!(text::replace(s, "aa", "b"), s.replace("aa", "b"));
        assert_eq!(text::contains(s, "a"), s.contains('a'));
        assert_eq!(text::starts_with(s, "a"), s.starts_with('a'));
        let lines: Vec<String> = s.lines().map(str::to_owned).collect();
        assert_eq!(text::lines_of(s), lines);
        let pieces: Vec<String> = s.split_inclusive('a').map(str::to_owned).collect();
        assert_eq!(text::split_inclusive(s, 'a'), pieces);
        for t in ["", "a", "B", "é"] {
            assert_eq!(text::comes_before(s, t), s < t, "{s:?} {t:?}");
            assert_eq!(text::same(s, t), s == t);
        }
    }
    for code in 0..=0x10ffff_u32 {
        if let Some(c) = char::from_u32(code) {
            assert_eq!(text::is_whitespace(c), c.is_whitespace(), "{code:x}");
        }
    }
    for n in [0, 9, 10, 12345, u64::MAX] {
        assert_eq!(text::decimal_text(n), n.to_string());
    }
    assert!(text::same_ignoring_case("CuRRency", "currency"));
    assert!(!text::same_ignoring_case("É", "é"));
    assert_eq!(
        text::join(&vec!["a".to_owned(), "b".to_owned()], ", "),
        "a, b"
    );
}

#[test]
fn parts_are_read_within_the_outer_brackets() {
    assert_eq!(
        parts_of(r#" {"a" : [1,{"b":2}], "c:,":"}"} rest"#),
        vec![r#""a" "#, r#" [1,{"b":2}]"#, r#" "c:,""#, r#""}""#]
    );
    assert_eq!(parts_of("[]"), vec![""]);
    assert_eq!(parts_of("1"), Vec::<String>::new());
    let names: [&'static str; 2] = ["game", "league"];
    assert_eq!(
        open_args(r#"{"game":{"a":1,"a":2},"league":":{"}"#, &names, 1).expect_err("twice"),
        "invalid value for `game`, expected one variant"
    );
    assert!(open_args(r#"{"game":{"a":1},"league":{"b":1,"b":1}}"#, &names, 1).is_ok());
}
