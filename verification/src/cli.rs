//! The command-line frontend: what an input line means, what the options are,
//! and how events read on a terminal.

use vstd::prelude::*;

use crate::event::{Event, EventView};
use crate::text;
use crate::text::{chars_of, is_at, is_white, texts, trimmed, trimmed_start};
use crate::tool::{Answer, Tool, ToolError, ToolRegistry};

verus! {

/// One parsed input line.
#[derive(Debug, PartialEq, Eq)]
pub enum Command<'a> {
    /// A blank line.
    Empty,
    /// Leave.
    Quit,
    /// Show the commands.
    Help,
    /// List the tools.
    Tools,
    /// Run a tool.
    Call {
        /// Tool name.
        name: &'a str,
        /// JSON arguments.
        args_json: &'a str,
    },
    /// Show how to run a tool.
    CallUsage,
    /// No command.
    Unknown(&'a str),
    /// Talk to the model.
    Chat(&'a str),
}

/// What a [`Command`] says.
pub ghost enum CommandView {
    /// A blank line.
    Empty,
    /// Leave.
    Quit,
    /// Show the commands.
    Help,
    /// List the tools.
    Tools,
    /// Run a tool.
    Call {
        /// Tool name.
        name: Seq<char>,
        /// JSON arguments.
        args_json: Seq<char>,
    },
    /// Show how to run a tool.
    CallUsage,
    /// No command.
    Unknown(Seq<char>),
    /// Talk to the model.
    Chat(Seq<char>),
}

impl<'a> View for Command<'a> {
    type V = CommandView;

    open spec fn view(&self) -> CommandView {
        match *self {
            Command::Empty => CommandView::Empty,
            Command::Quit => CommandView::Quit,
            Command::Help => CommandView::Help,
            Command::Tools => CommandView::Tools,
            Command::Call { name, args_json } => CommandView::Call {
                name: name@,
                args_json: args_json@,
            },
            Command::CallUsage => CommandView::CallUsage,
            Command::Unknown(line) => CommandView::Unknown(line@),
            Command::Chat(line) => CommandView::Chat(line@),
        }
    }
}

/// `s` without byte-order marks in front.
pub open spec fn unmarked(s: Seq<char>) -> Seq<char>
    decreases s.len(),
{
    if s.len() > 0 && s[0] == '\u{feff}' {
        unmarked(s.skip(1))
    } else {
        s
    }
}

/// The first position from `i` on that holds white space, or the end.
pub open spec fn word_end(s: Seq<char>, i: int) -> int
    decreases s.len() - i,
{
    if 0 <= i < s.len() && !is_white(s[i]) {
        word_end(s, i + 1)
    } else {
        i
    }
}

/// The call that stands behind `/call` and white space: a name, and arguments
/// behind it; no arguments are an empty object.
pub open spec fn call_of(rest: Seq<char>) -> CommandView {
    let end = word_end(rest, 0);
    if rest.len() == 0 {
        CommandView::CallUsage
    } else if end < rest.len() {
        CommandView::Call {
            name: rest.take(end),
            args_json: trimmed_start(rest.skip(end + 1)),
        }
    } else {
        CommandView::Call { name: rest, args_json: "{}"@ }
    }
}

/// What a trimmed line means.
pub open spec fn command_of_line(line: Seq<char>) -> CommandView {
    let rest = line.skip(5);
    if line.len() == 0 {
        CommandView::Empty
    } else if line == "/quit"@ || line == "/exit"@ {
        CommandView::Quit
    } else if line == "/help"@ {
        CommandView::Help
    } else if line == "/tools"@ {
        CommandView::Tools
    } else if is_at(line, "/call"@, 0) && rest.len() == 0 {
        CommandView::CallUsage
    } else if is_at(line, "/call"@, 0) && is_white(rest[0]) {
        call_of(trimmed_start(rest))
    } else if line[0] == '/' {
        CommandView::Unknown(line)
    } else {
        CommandView::Chat(line)
    }
}

/// What an input line means. A byte-order mark is stripped first (piped input
/// often carries one on its first line). `/call` must be followed by white
/// space or the end of the line, so that a typo like `/callecho` is reported
/// instead of silently invoking a tool.
pub open spec fn command_of(raw: Seq<char>) -> CommandView {
    command_of_line(trimmed(unmarked(raw)))
}

/// `s` without byte-order marks in front.
fn strip_marks(s: &str) -> (rest: &str)
    ensures
        rest@ == unmarked(s@),
{
    let chars = chars_of(s);
    let mut from: usize = 0;
    assert(s@.skip(0) =~= s@);
    while from < chars.len() && chars[from] == '\u{feff}'
        invariant
            chars@ == s@,
            from <= chars@.len(),
            unmarked(s@) == unmarked(s@.skip(from as int)),
        decreases chars@.len() - from,
    {
        assert(s@.skip(from as int).skip(1) =~= s@.skip(from + 1));
        from += 1;
    }
    assert(s@.subrange(from as int, s@.len() as int) =~= s@.skip(from as int));
    s.substring_char(from, chars.len())
}

/// The call that stands behind `/call` and white space.
fn parse_call(rest: &str) -> (command: Command<'_>)
    ensures
        command@ == call_of(rest@),
{
    let chars = chars_of(rest);
    let len: usize = chars.len();
    if len == 0 {
        return Command::CallUsage;
    }
    let mut end: usize = 0;
    while end < len && !text::is_whitespace(chars[end])
        invariant
            chars@ == rest@,
            len == chars@.len(),
            end <= len,
            word_end(rest@, 0) == word_end(rest@, end as int),
        decreases len - end,
    {
        end += 1;
    }
    if end < len {
        let name = rest.substring_char(0, end);
        let behind = rest.substring_char(end + 1, len);
        assert(name@ =~= rest@.take(end as int));
        assert(behind@ =~= rest@.skip(end + 1));
        Command::Call { name, args_json: text::trim_start(behind) }
    } else {
        Command::Call { name: rest, args_json: "{}" }
    }
}

/// Parse one input line into a [`Command`].
pub fn parse_command(raw: &str) -> (command: Command<'_>)
    ensures
        command@ == command_of(raw@),
{
    proof {
        reveal_strlit("/call");
    }
    let line = text::trim(strip_marks(raw));
    if line.is_empty() {
        return Command::Empty;
    }
    if text::same(line, "/quit") || text::same(line, "/exit") {
        return Command::Quit;
    }
    if text::same(line, "/help") {
        return Command::Help;
    }
    if text::same(line, "/tools") {
        return Command::Tools;
    }
    let len: usize = line.unicode_len();
    if text::starts_with(line, "/call") {
        let rest = line.substring_char(5, len);
        assert(rest@ =~= line@.skip(5));
        if rest.is_empty() {
            return Command::CallUsage;
        }
        if text::is_whitespace(rest.get_char(0)) {
            return parse_call(text::trim_start(rest));
        }
    }
    if line.get_char(0) == '/' {
        return Command::Unknown(line);
    }
    Command::Chat(line)
}

/// Command-line options of the frontend.
#[derive(Debug)]
pub struct Options {
    /// Path of the configuration.
    pub config_path: String,
    /// Whether the path was given: a missing given path is an error, while a
    /// missing default path means that there is no model.
    pub config_explicit: bool,
    /// Name of the profile.
    pub profile: Option<String>,
}

/// What [`Options`] say.
pub ghost struct OptionsView {
    /// Path of the configuration.
    pub config_path: Seq<char>,
    /// Whether the path was given.
    pub config_explicit: bool,
    /// Name of the profile.
    pub profile: Option<Seq<char>>,
}

/// The text in an option.
pub open spec fn maybe(text: Option<String>) -> Option<Seq<char>> {
    match text {
        Some(text) => Some(text@),
        None => None,
    }
}

impl View for Options {
    type V = OptionsView;

    open spec fn view(&self) -> OptionsView {
        OptionsView {
            config_path: self.config_path@,
            config_explicit: self.config_explicit,
            profile: maybe(self.profile),
        }
    }
}

/// The options that arguments from `i` on set, behind those set already.
pub open spec fn options_of(args: Seq<Seq<char>>, i: int, options: OptionsView) -> Result<
    OptionsView,
    Seq<char>,
>
    decreases args.len() - i,
{
    if i < 0 || i >= args.len() {
        Ok(options)
    } else if args[i] == "--config"@ {
        if i + 1 < args.len() {
            options_of(
                args,
                i + 2,
                OptionsView { config_path: args[i + 1], config_explicit: true, ..options },
            )
        } else {
            Err("--config requires a path"@)
        }
    } else if args[i] == "--profile"@ {
        if i + 1 < args.len() {
            options_of(args, i + 2, OptionsView { profile: Some(args[i + 1]), ..options })
        } else {
            Err("--profile requires a name"@)
        }
    } else {
        Err(
            "unknown argument `"@ + args[i]
                + "` (usage: exile [--config <path>] [--profile <name>])"@,
        )
    }
}

/// The options where no argument sets any.
pub open spec fn default_options() -> OptionsView {
    OptionsView { config_path: "exile.toml"@, config_explicit: false, profile: None }
}

/// Parse the command-line options.
pub fn parse_options(args: &Vec<String>) -> (options: Result<Options, String>)
    ensures
        match options {
            Ok(options) => options_of(texts(args@), 0, default_options()) is Ok && options_of(
                texts(args@),
                0,
                default_options(),
            )->Ok_0 == options@,
            Err(error) => options_of(texts(args@), 0, default_options()) is Err && options_of(
                texts(args@),
                0,
                default_options(),
            )->Err_0 == error@,
        },
{
    let ghost all = texts(args@);
    let len: usize = args.len();
    let mut options = Options {
        config_path: "exile.toml".to_owned(),
        config_explicit: false,
        profile: None,
    };
    let mut i: usize = 0;
    while i < len
        invariant
            all == texts(args@),
            len == args@.len(),
            i <= len,
            options_of(all, 0, default_options()) == options_of(all, i as int, options@),
        decreases len - i,
    {
        let arg = args[i].as_str();
        let last = len - i == 1;
        assert(all[i as int] == arg@);
        if text::same(arg, "--config") {
            if last {
                return Err("--config requires a path".to_owned());
            }
            assert(all[i + 1] == args@[i + 1]@);
            options = Options {
                config_path: args[i + 1].clone(),
                config_explicit: true,
                profile: options.profile,
            };
            i += 2;
        } else if text::same(arg, "--profile") {
            if last {
                return Err("--profile requires a name".to_owned());
            }
            assert(all[i + 1] == args@[i + 1]@);
            options = Options {
                config_path: options.config_path,
                config_explicit: options.config_explicit,
                profile: Some(args[i + 1].clone()),
            };
            i += 2;
        } else {
            let mut error = "unknown argument `".to_owned();
            error.append(arg);
            error.append("` (usage: exile [--config <path>] [--profile <name>])");
            return Err(error);
        }
    }
    Ok(options)
}

/// What a session without a configuration begins with, or why it does not: a
/// path or a profile that was asked for must be there.
pub fn without_config(options: &Options) -> (line: Result<String, String>)
    ensures
        match line {
            Err(error) => if options.config_explicit {
                error@ == "--config "@ + options.config_path@ + " does not exist"@
            } else {
                options.profile is Some && error@ == "--profile "@ + options.profile->0@
                    + " given but no config found at "@ + options.config_path@
            },
            Ok(line) => !options.config_explicit && options.profile is None && line@
                == "no model configured (copy exile.example.toml to "@ + options.config_path@
                + ")"@,
        },
{
    if options.config_explicit {
        let mut error = "--config ".to_owned();
        error.append(options.config_path.as_str());
        error.append(" does not exist");
        return Err(error);
    }
    if let Some(profile) = &options.profile {
        let mut error = "--profile ".to_owned();
        error.append(profile.as_str());
        error.append(" given but no config found at ");
        error.append(options.config_path.as_str());
        return Err(error);
    }
    let mut line = "no model configured (copy exile.example.toml to ".to_owned();
    line.append(options.config_path.as_str());
    line.append(")");
    Ok(line)
}

/// What a session with a model begins with.
pub fn model_line(model: &str, profile_name: &str) -> (line: String)
    ensures
        line@ == "model: "@ + model@ + " via "@ + profile_name@,
{
    let mut line = "model: ".to_owned();
    line.append(model);
    line.append(" via ");
    line.append(profile_name);
    line
}

/// The help text.
pub const HELP: &'static str =
    "  /tools              list available tools\n  /call <name> <json> run a tool directly (json defaults to {})\n  /quit (or /exit)    exit\n  anything else       talk to the model\n";

/// The list of tools, one line each.
pub open spec fn tool_lines(registry: ToolRegistry, n: nat) -> Seq<char>
    decreases n,
{
    if n == 0 {
        seq![]
    } else {
        let tool = registry.tools()[n - 1].tool;
        tool_lines(registry, (n - 1) as nat) + ("  "@ + tool.tool_name() + "  "@
            + tool.tool_description() + "\n"@)
    }
}

/// The list of tools, one line each; a line that says so where there is none.
pub fn list_tools(registry: &ToolRegistry) -> (lines: String)
    ensures
        lines@ == if registry.tools().len() == 0 {
            "no tools registered\n"@
        } else {
            tool_lines(*registry, registry.tools().len())
        },
{
    if registry.is_empty() {
        return "no tools registered\n".to_owned();
    }
    let tools = registry.iter();
    let mut lines = String::new();
    let mut i: usize = 0;
    while i < tools.len()
        invariant
            tools@ == registry.tools(),
            i <= tools@.len(),
            lines@ == tool_lines(*registry, i as nat),
        decreases tools@.len() - i,
    {
        let tool = &tools[i].tool;
        let mut line = "  ".to_owned();
        line.append(tool.name());
        line.append("  ");
        line.append(tool.description());
        line.append("\n");
        lines.append(line.as_str());
        i += 1;
    }
    lines
}

/// How an event reads on a terminal. Text comes as it is, everything else as
/// a line.
pub open spec fn event_text(event: EventView) -> Seq<char> {
    match event {
        EventView::TokenDelta(chunk) => chunk,
        EventView::ToolCallStarted { name, args_json } => "["@ + name + "] started with "@
            + args_json + "\n"@,
        EventView::ToolCallFinished { name, result_json } => "["@ + name + "] -> "@ + result_json
            + "\n"@,
        EventView::ToolCallFailed { name, error } => "["@ + name + "] failed: "@ + error + "\n"@,
        EventView::TurnFailed { error } => "turn failed: "@ + error + "\n"@,
        EventView::TurnComplete => "\n"@,
    }
}

/// A line of a tool: its name in brackets, what happened, and the detail.
fn tool_event(name: &str, what: &str, detail: &str) -> (line: String)
    ensures
        line@ == "["@ + name@ + what@ + detail@ + "\n"@,
{
    let mut line = "[".to_owned();
    line.append(name);
    line.append(what);
    line.append(detail);
    line.append("\n");
    line
}

/// How an event reads on a terminal.
pub fn render_event(event: &Event) -> (out: String)
    ensures
        out@ == event_text(event@),
{
    match event {
        Event::TokenDelta(chunk) => chunk.clone(),
        Event::ToolCallStarted { name, args_json } => tool_event(
            name.as_str(),
            "] started with ",
            args_json.as_str(),
        ),
        Event::ToolCallFinished { name, result_json } => tool_event(
            name.as_str(),
            "] -> ",
            result_json.as_str(),
        ),
        Event::ToolCallFailed { name, error } => tool_event(
            name.as_str(),
            "] failed: ",
            error.as_str(),
        ),
        Event::TurnFailed { error } => {
            let mut out = "turn failed: ".to_owned();
            out.append(error.as_str());
            out.append("\n");
            out
        },
        Event::TurnComplete => "\n".to_owned(),
    }
}

/// Demo tool so that tool calls can be tried without a network. Returns its
/// arguments unchanged.
pub struct EchoTool;

impl Tool for EchoTool {
    open spec fn tool_name(&self) -> Seq<char> {
        "echo"@
    }

    open spec fn tool_description(&self) -> Seq<char> {
        "Returns its JSON arguments unchanged. Demo tool."@
    }

    open spec fn tool_schema(&self) -> Seq<char> {
        r#"{"type":"object"}"#@
    }

    open spec fn may_answer(&self, args_json: Seq<char>, answer: Answer) -> bool {
        answer == Ok::<Seq<char>, crate::tool::Fault>(args_json)
    }

    fn name(&self) -> (name: &'static str) {
        "echo"
    }

    fn description(&self) -> (description: &'static str) {
        "Returns its JSON arguments unchanged. Demo tool."
    }

    fn parameters_schema(&self) -> (schema: &'static str) {
        r#"{"type":"object"}"#
    }

    fn execute(&self, args_json: &str) -> (outcome: Result<String, ToolError>) {
        Ok(args_json.to_owned())
    }
}

/// A line that begins with a slash is never sent to the model.
pub proof fn law_slash_lines_are_not_chat(raw: Seq<char>)
    requires
        trimmed(unmarked(raw)).len() > 0,
        trimmed(unmarked(raw))[0] == '/',
    ensures
        !(command_of(raw) is Chat),
{
}

/// What the lines without arguments mean, whatever white space stands around
/// them: a blank line is nothing, "/quit" and "/exit" leave, "/help" and
/// "/tools" show, and a line that does not begin with a slash goes to the
/// model as it is.
pub proof fn law_lines_mean_what_they_say(raw: Seq<char>)
    ensures
        ({
            let line = trimmed(unmarked(raw));
            &&& command_of(raw) is Empty <==> line.len() == 0
            &&& command_of(raw) is Quit <==> line == "/quit"@ || line == "/exit"@
            &&& command_of(raw) is Help <==> line == "/help"@
            &&& command_of(raw) is Tools <==> line == "/tools"@
            &&& line.len() > 0 && line[0] != '/' ==> command_of(raw) == CommandView::Chat(line)
            &&& command_of(raw) matches CommandView::Chat(said) ==> said == line
            &&& command_of(raw) matches CommandView::Unknown(said) ==> said == line && line[0]
                == '/'
        }),
{
    reveal_strlit("/quit");
    reveal_strlit("/exit");
    reveal_strlit("/help");
    reveal_strlit("/tools");
    reveal_strlit("/call");
    assert("/quit"@.len() == 5);
    assert("/exit"@.len() == 5);
    assert("/help"@.len() == 5);
    assert("/tools"@.len() == 6);
    assert("/call"@.len() == 5);
    assert("/quit"@[1] != "/exit"@[1]);
    assert("/quit"@[1] != "/help"@[1]);
    assert("/exit"@[1] != "/help"@[1]);
    assert("/quit"@[1] != "/call"@[1]);
    assert("/exit"@[1] != "/call"@[1]);
    assert("/help"@[1] != "/call"@[1]);
    let line = trimmed(unmarked(raw));
    if is_at(line, "/call"@, 0) {
        assert(line.subrange(0, 5) =~= "/call"@);
        assert(line.subrange(0, 5)[0] == line[0]);
        assert(line.subrange(0, 5)[1] == line[1]);
    }
}

/// A call names its tool and, behind white space, its arguments as they stand;
/// without arguments it is made with an empty object.
pub proof fn law_calls_take_their_arguments(
    name: Seq<char>,
    gap: char,
    other_gap: char,
    args_json: Seq<char>,
)
    requires
        name.len() > 0,
        forall|i: int| 0 <= i < name.len() ==> !is_white(#[trigger] name[i]),
        is_white(gap),
        is_white(other_gap),
        args_json.len() > 0,
        !is_white(args_json[0]),
    ensures
        command_of_line("/call"@ + seq![gap] + name + seq![other_gap] + args_json) == (
        CommandView::Call { name, args_json }),
        command_of_line("/call"@ + seq![gap] + name) == (CommandView::Call {
            name,
            args_json: "{}"@,
        }),
        command_of_line("/call"@) is CallUsage,
{
    reveal_strlit("/quit");
    reveal_strlit("/exit");
    reveal_strlit("/help");
    reveal_strlit("/tools");
    reveal_strlit("/call");
    assert("/quit"@.len() == 5);
    assert("/exit"@.len() == 5);
    assert("/help"@.len() == 5);
    assert("/tools"@.len() == 6);
    assert("/call"@.len() == 5);
    assert("/quit"@[1] != "/exit"@[1]);
    assert("/quit"@[1] != "/help"@[1]);
    assert("/exit"@[1] != "/help"@[1]);
    assert("/quit"@[1] != "/call"@[1]);
    assert("/exit"@[1] != "/call"@[1]);
    assert("/help"@[1] != "/call"@[1]);
    let tail = name + seq![other_gap] + args_json;
    let line = "/call"@ + seq![gap] + name + seq![other_gap] + args_json;
    lemma_call_line(line, gap, tail);
    assert(line =~= "/call"@ + (seq![gap] + tail));
    lemma_word_end(tail, 0, name.len() as int);
    assert(tail.take(name.len() as int) =~= name);
    let behind = tail.skip(name.len() as int + 1);
    assert(behind =~= args_json);
    text::law_leading_blanks_are_trimmed(args_json, 0);
    assert(args_json.skip(0) =~= args_json);
    let short = "/call"@ + seq![gap] + name;
    lemma_call_line(short, gap, name);
    lemma_word_end(name, 0, name.len() as int);
    let bare = "/call"@;
    assert(bare.subrange(0, 5) =~= bare);
    assert(is_at(bare, "/call"@, 0));
    assert(bare.skip(5).len() == 0);
}

/// A line with a call is read from behind the white space.
proof fn lemma_call_line(line: Seq<char>, gap: char, tail: Seq<char>)
    requires
        is_white(gap),
        tail.len() > 0,
        !is_white(tail[0]),
        line =~= "/call"@ + (seq![gap] + tail),
    ensures
        command_of_line(line) == call_of(tail),
{
    reveal_strlit("/quit");
    reveal_strlit("/exit");
    reveal_strlit("/help");
    reveal_strlit("/tools");
    reveal_strlit("/call");
    assert("/quit"@.len() == 5);
    assert("/exit"@.len() == 5);
    assert("/help"@.len() == 5);
    assert("/tools"@.len() == 6);
    assert("/call"@.len() == 5);
    assert("/quit"@[1] != "/exit"@[1]);
    assert("/quit"@[1] != "/help"@[1]);
    assert("/exit"@[1] != "/help"@[1]);
    assert("/quit"@[1] != "/call"@[1]);
    assert("/exit"@[1] != "/call"@[1]);
    assert("/help"@[1] != "/call"@[1]);
    let rest = line.skip(5);
    assert(rest =~= seq![gap] + tail);
    assert(line.subrange(0, 5) =~= "/call"@);
    assert(is_at(line, "/call"@, 0));
    assert(rest[0] == gap && rest[1] == tail[0]);
    text::law_leading_blanks_are_trimmed(rest, 1);
    assert(rest.skip(1) =~= tail);
    assert(line.len() > 6);
    assert(line[1] == 'c');
}

/// A word ends where the white space begins.
proof fn lemma_word_end(s: Seq<char>, i: int, end: int)
    requires
        0 <= i <= end <= s.len(),
        forall|k: int| i <= k < end ==> !is_white(#[trigger] s[k]),
        end < s.len() ==> is_white(s[end]),
    ensures
        word_end(s, i) == end,
    decreases end - i,
{
    if i < end {
        assert(!is_white(s[i]));
        lemma_word_end(s, i + 1, end);
    }
}

/// Byte order marks in front of a line are taken away, and nothing else.
pub proof fn law_marks_are_taken_away(s: Seq<char>)
    ensures
        ({
            let rest = unmarked(s);
            &&& rest.len() <= s.len()
            &&& rest == s.skip(s.len() - rest.len())
            &&& forall|i: int| 0 <= i < s.len() - rest.len() ==> #[trigger] s[i] == '\u{feff}'
            &&& rest.len() > 0 ==> rest[0] != '\u{feff}'
        }),
    decreases s.len(),
{
    if s.len() > 0 && s[0] == '\u{feff}' {
        law_marks_are_taken_away(s.skip(1));
        let rest = unmarked(s);
        assert(s.skip(1).skip(s.len() - 1 - rest.len()) =~= s.skip(s.len() - rest.len()));
        assert forall|i: int| 0 <= i < s.len() - rest.len() implies #[trigger] s[i]
            == '\u{feff}' by {
            if i > 0 {
                assert(s.skip(1)[i - 1] == s[i]);
            }
        }
    } else {
        assert(s.skip(0) =~= s);
    }
}

/// Options that can be read are read as they stand, and one more behind them
/// sets what it names and nothing else: the last one counts.
pub proof fn law_last_option_counts(
    args: Seq<Seq<char>>,
    options: OptionsView,
    flag: Seq<char>,
    value: Seq<char>,
)
    requires
        options_of(args, 0, options) is Ok,
    ensures
        ({
            let before = options_of(args, 0, options)->Ok_0;
            let after = options_of(args + seq![flag, value], 0, options);
            &&& flag == "--config"@ ==> after == Ok::<OptionsView, Seq<char>>(
                OptionsView {
                    config_path: value,
                    config_explicit: true,
                    profile: before.profile,
                },
            )
            &&& flag == "--profile"@ ==> after == Ok::<OptionsView, Seq<char>>(
                OptionsView {
                    config_path: before.config_path,
                    config_explicit: before.config_explicit,
                    profile: Some(value),
                },
            )
            &&& flag != "--config"@ && flag != "--profile"@ ==> after is Err
        }),
        options_of(args + seq![flag], 0, options) is Err,
{
    reveal_with_fuel(options_of, 3);
    reveal_strlit("--config");
    reveal_strlit("--profile");
    assert("--config"@.len() == 8);
    assert("--profile"@.len() == 9);
    let tail = seq![flag, value];
    let all = args + tail;
    lemma_options_go_on(args, tail, 0, options);
    assert(all[args.len() as int] == flag);
    assert(all[args.len() as int + 1] == value);
    let cut = args + seq![flag];
    lemma_options_go_on(args, seq![flag], 0, options);
    assert(cut[args.len() as int] == flag);
}

/// Reading goes on behind what was read.
proof fn lemma_options_go_on(
    args: Seq<Seq<char>>,
    tail: Seq<Seq<char>>,
    i: int,
    options: OptionsView,
)
    requires
        0 <= i <= args.len(),
        options_of(args, i, options) is Ok,
    ensures
        options_of(args + tail, i, options) == options_of(
            args + tail,
            args.len() as int,
            options_of(args, i, options)->Ok_0,
        ),
    decreases args.len() - i,
{
    let all = args + tail;
    if i < args.len() {
        assert(all[i] == args[i]);
        if i + 1 < args.len() {
            assert(all[i + 1] == args[i + 1]);
            if args[i] == "--config"@ {
                let next = OptionsView {
                    config_path: args[i + 1],
                    config_explicit: true,
                    ..options
                };
                lemma_options_go_on(args, tail, i + 2, next);
            } else {
                let next = OptionsView { profile: Some(args[i + 1]), ..options };
                lemma_options_go_on(args, tail, i + 2, next);
            }
        }
    }
}

/// Without options the configuration is the file "exile.toml", which may be
/// missing, and no profile is named.
pub proof fn law_defaults_name_the_usual_file(options: OptionsView)
    ensures
        options_of(seq![], 0, options) == Ok::<OptionsView, Seq<char>>(options),
        default_options().config_path == "exile.toml"@,
        !default_options().config_explicit,
        default_options().profile is None,
{
}

/// Every tool is listed, with its name and what it does, and the tools before
/// it stand in front.
pub proof fn law_every_tool_is_listed(registry: ToolRegistry, n: nat, i: int)
    requires
        0 <= i < n <= registry.tools().len(),
    ensures
        text::occurs(
            tool_lines(registry, n),
            "  "@ + registry.tools()[i].tool.tool_name() + "  "@
                + registry.tools()[i].tool.tool_description() + "\n"@,
        ),
        tool_lines(registry, i as nat).len() < tool_lines(registry, n).len(),
        tool_lines(registry, n).take(tool_lines(registry, i as nat).len() as int) == tool_lines(
            registry,
            i as nat,
        ),
    decreases n,
{
    let whole = tool_lines(registry, n);
    let before = tool_lines(registry, (n - 1) as nat);
    let line = "  "@ + registry.tools()[i].tool.tool_name() + "  "@
        + registry.tools()[i].tool.tool_description() + "\n"@;
    reveal_strlit("  ");
    assert("  "@.len() == 2);
    if i < n - 1 {
        law_every_tool_is_listed(registry, (n - 1) as nat, i);
        let at = choose|at: int| #[trigger] is_at(before, line, at);
        assert(whole.subrange(at, at + line.len()) =~= before.subrange(at, at + line.len()));
        assert(is_at(whole, line, at));
        let front = tool_lines(registry, i as nat);
        assert(whole.take(front.len() as int) =~= before.take(front.len() as int));
    } else {
        let at = before.len() as int;
        assert(whole.subrange(at, at + line.len()) =~= line);
        assert(is_at(whole, line, at));
        assert(whole.take(at) =~= before);
    }
}

/// How events read: streamed text as it is, and all else on a line of its own
/// that tells what happened to which tool, and with what.
pub proof fn law_events_read_as_they_are(
    chunk: Seq<char>,
    name: Seq<char>,
    args_json: Seq<char>,
    result_json: Seq<char>,
    error: Seq<char>,
)
    ensures
        event_text(EventView::TokenDelta(chunk)) == chunk,
        event_text(EventView::ToolCallStarted { name, args_json }) == "["@ + name
            + "] started with "@ + args_json + "\n"@,
        event_text(EventView::ToolCallFinished { name, result_json }) == "["@ + name + "] -> "@
            + result_json + "\n"@,
        event_text(EventView::ToolCallFailed { name, error }) == "["@ + name + "] failed: "@
            + error + "\n"@,
        event_text(EventView::TurnFailed { error }) == "turn failed: "@ + error + "\n"@,
        event_text(EventView::TurnComplete) == "\n"@,
{
}

/// An option without its value, and an argument that is no option, are refused
/// by name.
pub proof fn law_wrong_options_are_told(options: OptionsView, arg: Seq<char>)
    ensures
        options_of(seq!["--config"@], 0, options) == Err::<OptionsView, Seq<char>>(
            "--config requires a path"@,
        ),
        options_of(seq!["--profile"@], 0, options) == Err::<OptionsView, Seq<char>>(
            "--profile requires a name"@,
        ),
        arg != "--config"@ && arg != "--profile"@ ==> options_of(seq![arg], 0, options) == Err::<
            OptionsView,
            Seq<char>,
        >("unknown argument `"@ + arg + "` (usage: exile [--config <path>] [--profile <name>])"@),
{
    reveal_strlit("--config");
    reveal_strlit("--profile");
    assert("--config"@.len() == 8);
    assert("--profile"@.len() == 9);
    assert(seq!["--config"@][0] == "--config"@);
    assert(seq!["--profile"@][0] == "--profile"@);
    assert(seq![arg][0] == arg);
}

}
