use exile_harness::cli::{
    list_tools, model_line, parse_command, parse_options, render_event, without_config, Command,
    EchoTool, HELP,
};
use exile_harness::commands::{
    parse_eval_options, parse_fetch_options, read_league_call, read_price_call, read_query_call,
    read_whatif_call, read_wiki_call,
};
use exile_harness::event::Event;
use exile_harness::tool::{Tool, ToolRegistry};
use exile_harness::toolkit::Game;

fn strings(list: &[&str]) -> Vec<String> {
    list.iter().map(|text| (*text).to_owned()).collect()
}

#[test]
fn blank_and_whitespace_lines_are_empty() {
    assert_eq!(parse_command(""), Command::Empty);
    assert_eq!(parse_command("   \t "), Command::Empty);
}

#[test]
fn quit_aliases() {
    assert_eq!(parse_command("/quit"), Command::Quit);
    assert_eq!(parse_command("/exit"), Command::Quit);
}

#[test]
fn simple_commands() {
    assert_eq!(parse_command("/help"), Command::Help);
    assert_eq!(parse_command("/tools"), Command::Tools);
}

#[test]
fn bom_prefixed_command_still_matches() {
    assert_eq!(parse_command("\u{feff}/tools"), Command::Tools);
}

#[test]
fn call_with_args() {
    assert_eq!(
        parse_command(r#"/call echo {"a":1}"#),
        Command::Call {
            name: "echo",
            args_json: r#"{"a":1}"#,
        }
    );
}

#[test]
fn call_without_args_defaults_to_empty_object() {
    assert_eq!(
        parse_command("/call echo"),
        Command::Call {
            name: "echo",
            args_json: "{}",
        }
    );
}

#[test]
fn call_accepts_tab_separators() {
    assert_eq!(
        parse_command("/call\techo\t{\"x\":2}"),
        Command::Call {
            name: "echo",
            args_json: "{\"x\":2}",
        }
    );
}

#[test]
fn bare_call_shows_usage() {
    assert_eq!(parse_command("/call"), Command::CallUsage);
    assert_eq!(parse_command("/call   "), Command::CallUsage);
}

#[test]
fn call_prefix_typos_are_unknown_commands() {
    assert_eq!(
        parse_command("/callecho {}"),
        Command::Unknown("/callecho {}")
    );
    assert_eq!(parse_command("/calls"), Command::Unknown("/calls"));
}

#[test]
fn unknown_slash_commands_are_reported() {
    assert_eq!(parse_command("/badcmd"), Command::Unknown("/badcmd"));
}

#[test]
fn plain_text_is_chat() {
    assert_eq!(
        parse_command("what league is it?"),
        Command::Chat("what league is it?")
    );
}

#[test]
fn options_parse_flags_and_reject_unknown() {
    let options =
        parse_options(&strings(&["--config", "x.toml", "--profile", "p"])).expect("parses");
    assert_eq!(options.config_path, "x.toml");
    assert_eq!(options.profile.as_deref(), Some("p"));

    assert!(parse_options(&strings(&["--config"])).is_err());
    assert!(parse_options(&strings(&["--bogus"])).is_err());
}

#[test]
fn marks_white_space_and_slashes_in_front() {
    assert_eq!(parse_command("\u{feff}\u{feff}  /quit \r\n"), Command::Quit);
    assert_eq!(parse_command(" \u{a0}hi there\u{3000}"), Command::Chat("hi there"));
    assert_eq!(parse_command("/"), Command::Unknown("/"));
    assert_eq!(
        parse_command("/call  a   b c "),
        Command::Call {
            name: "a",
            args_json: "b c"
        }
    );
}

#[test]
fn option_errors_and_defaults() {
    let options = parse_options(&[].to_vec()).expect("defaults");
    assert_eq!(options.config_path, "exile.toml");
    assert!(!options.config_explicit);
    assert_eq!(
        without_config(&options),
        Ok("no model configured (copy exile.example.toml to exile.toml)".to_owned())
    );
    let named = parse_options(&strings(&["--profile", "p"])).expect("parses");
    assert_eq!(
        without_config(&named),
        Err("--profile p given but no config found at exile.toml".to_owned())
    );
    let given = parse_options(&strings(&["--config", "a.toml"])).expect("parses");
    assert_eq!(
        without_config(&given),
        Err("--config a.toml does not exist".to_owned())
    );
    assert_eq!(
        parse_options(&strings(&["--profile"])).expect_err("no name"),
        "--profile requires a name"
    );
    assert_eq!(
        parse_options(&strings(&["x"])).expect_err("unknown"),
        "unknown argument `x` (usage: exile [--config <path>] [--profile <name>])"
    );
    assert_eq!(model_line("m", "local"), "model: m via local");
}

#[test]
fn events_render_as_lines() {
    assert_eq!(render_event(&Event::TokenDelta("abc".to_owned())), "abc");
    assert_eq!(render_event(&Event::TurnComplete), "\n");
    assert_eq!(
        render_event(&Event::ToolCallStarted {
            name: "t".to_owned(),
            args_json: "{}".to_owned()
        }),
        "[t] started with {}\n"
    );
    assert_eq!(
        render_event(&Event::ToolCallFinished {
            name: "t".to_owned(),
            result_json: "1".to_owned()
        }),
        "[t] -> 1\n"
    );
    assert_eq!(
        render_event(&Event::ToolCallFailed {
            name: "t".to_owned(),
            error: "e".to_owned()
        }),
        "[t] failed: e\n"
    );
    assert_eq!(
        render_event(&Event::TurnFailed {
            error: "e".to_owned()
        }),
        "turn failed: e\n"
    );
}

#[test]
fn tools_are_listed() {
    let mut registry = ToolRegistry::new();
    assert_eq!(list_tools(&registry), "no tools registered\n");
    registry.register(Box::new(EchoTool)).expect("register");
    assert_eq!(
        list_tools(&registry),
        "  echo  Returns its JSON arguments unchanged. Demo tool.\n"
    );
    assert_eq!(EchoTool.execute("[1]"), Ok("[1]".to_owned()));
    assert_eq!(EchoTool.parameters_schema(), r#"{"type":"object"}"#);
    assert_eq!(HELP.lines().count(), 4);
}

#[test]
fn standalone_programs_build_their_calls() {
    assert_eq!(
        read_league_call(&strings(&["poe1"])),
        Ok(r#"{"game":"poe1","include":"current"}"#.to_owned())
    );
    assert_eq!(
        read_league_call(&strings(&["poe2", "past"])),
        Ok(r#"{"game":"poe2","include":"past"}"#.to_owned())
    );
    assert_eq!(
        read_league_call(&strings(&["poe3"])).expect_err("usage"),
        "usage: exile-league <poe1|poe2> [current|past|all]"
    );
    assert_eq!(
        read_league_call(&strings(&["poe1", "future"])).expect_err("unknown"),
        "unknown include `future` (expected current, past, or all)"
    );
    assert_eq!(
        read_league_call(&strings(&["poe1", "all", "a", "b"])).expect_err("extra"),
        "unexpected extra arguments: a b"
    );
    assert_eq!(
        read_price_call(&strings(&["poe1", "L", "Currency", "Divine", "Orb"])),
        Ok(r#"{"category":"Currency","game":"poe1","league":"L","name":"Divine Orb"}"#.to_owned())
    );
    assert_eq!(
        read_price_call(&strings(&["poe1", "L", "Currency"])),
        Ok(r#"{"category":"Currency","game":"poe1","league":"L"}"#.to_owned())
    );
    assert!(read_price_call(&strings(&["poe1", "L"])).is_err());
    assert_eq!(
        read_wiki_call(&strings(&["poe2", "page", "Map", "device"])),
        Ok(r#"{"game":"poe2","page":"Map device"}"#.to_owned())
    );
    assert!(read_wiki_call(&strings(&["poe2", "page"])).is_err());
    assert_eq!(
        read_query_call(&strings(&["poe1", "abc", "Life", "Mana"])),
        Ok(r#"{"code":"abc","game":"poe1","stats":["Life","Mana"]}"#.to_owned())
    );
    assert_eq!(
        read_query_call(&strings(&["poe1", "abc"])),
        Ok(r#"{"code":"abc","game":"poe1"}"#.to_owned())
    );
    assert!(read_query_call(&strings(&["poe1"])).is_err());
    assert_eq!(
        read_whatif_call(&strings(&["poe2", "abc", "10% more damage"])),
        Ok(r#"{"code":"abc","custom_mods":["10% more damage"],"game":"poe2"}"#.to_owned())
    );
    assert!(read_whatif_call(&strings(&["poe2", "abc"])).is_err());
}

#[test]
fn fetch_and_eval_options() {
    let options = parse_fetch_options(&[].to_vec()).expect("defaults");
    assert_eq!(options.game, None);
    assert_eq!(options.reference, "dev");
    assert_eq!(options.root, "vendor/pob");
    assert!(!options.force);
    let options = parse_fetch_options(&strings(&[
        "--force", "--game", "poe2", "--ref", "v1", "--root", "r",
    ]))
    .expect("parses");
    assert_eq!(options.game, Some(Game::Poe2));
    assert_eq!(options.reference, "v1");
    assert_eq!(options.root, "r");
    assert!(options.force);
    assert_eq!(
        parse_fetch_options(&strings(&["--game", "poe9"])).expect_err("game"),
        "--game requires poe1 or poe2"
    );
    assert_eq!(
        parse_fetch_options(&strings(&["--ref"])).expect_err("ref"),
        "--ref requires a value"
    );
    assert_eq!(
        parse_fetch_options(&strings(&["--root"])).expect_err("root"),
        "--root requires a path"
    );
    assert!(parse_fetch_options(&strings(&["x"]))
        .expect_err("unknown")
        .starts_with("unknown argument `x`\nusage: exile-pob"));

    let options =
        parse_eval_options(&strings(&["--only", "price", "--profile", "p"])).expect("parses");
    assert_eq!(options.config_path, "exile.toml");
    assert_eq!(options.only.as_deref(), Some("price"));
    assert_eq!(options.profile.as_deref(), Some("p"));
    assert_eq!(
        parse_eval_options(&strings(&["--only"])).expect_err("only"),
        "--only requires an id substring"
    );
    assert!(parse_eval_options(&strings(&["--what"])).is_err());
}
