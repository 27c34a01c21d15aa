//! What the arguments of the standalone programs ask for: the JSON that a tool
//! is called with, or the line that shows how to call the program.

use vstd::prelude::*;

use crate::engine::{texts_json, texts_value};
use crate::json::{at_index, at_key, member, no_members, printed, put, Json, JsonView};
use crate::price::price_args_in;
use crate::text;
use crate::text::{separated, texts};
use crate::toolkit::{game_id, game_of_id, Game};

verus! {

/// Whether a text names a game.
pub open spec fn is_game(id: Seq<char>) -> bool {
    game_of_id(id) is Some
}

/// The arguments from `from` on, with blanks between them.
pub open spec fn words(args: Seq<Seq<char>>, from: int) -> Seq<char> {
    separated(args.skip(from), " "@)
}

/// The arguments from `from` on.
fn arguments_from(args: &Vec<String>, from: usize) -> (rest: Vec<String>)
    requires
        from <= args@.len(),
    ensures
        texts(rest@) == texts(args@).skip(from as int),
{
    let mut rest: Vec<String> = Vec::new();
    let mut i: usize = from;
    while i < args.len()
        invariant
            from <= i <= args@.len(),
            rest@.len() == i - from,
            forall|k: int| 0 <= k < i - from ==> (#[trigger] rest@[k])@ == args@[from + k]@,
        decreases args@.len() - i,
    {
        rest.push(args[i].clone());
        i += 1;
    }
    assert(texts(rest@) =~= texts(args@).skip(from as int));
    rest
}

/// The arguments from `from` on, with blanks between them.
fn words_from(args: &Vec<String>, from: usize) -> (line: String)
    requires
        from <= args@.len(),
    ensures
        line@ == words(texts(args@), from as int),
{
    text::join(&arguments_from(args, from), " ")
}

/// How the league program is called.
pub const LEAGUE_USAGE: &'static str = "usage: exile-league <poe1|poe2> [current|past|all]";

/// The call that the arguments of the league program make.
pub open spec fn league_call(args: Seq<Seq<char>>) -> Result<Seq<char>, Seq<char>> {
    let sets = if args.len() > 1 {
        args[1]
    } else {
        "current"@
    };
    if args.len() == 0 || !is_game(args[0]) {
        Err(LEAGUE_USAGE@)
    } else if !(sets == "current"@ || sets == "past"@ || sets == "all"@) {
        Err("unknown include `"@ + sets + "` (expected current, past, or all)"@)
    } else if args.len() > 2 {
        Err("unexpected extra arguments: "@ + words(args, 2))
    } else {
        Ok("{\"game\":\""@ + args[0] + "\",\"include\":\""@ + sets + "\"}"@)
    }
}

/// The call that the arguments of the league program make.
pub fn read_league_call(args: &Vec<String>) -> (call: Result<String, String>)
    ensures
        match call {
            Ok(call) => league_call(texts(args@)) is Ok && league_call(texts(args@))->Ok_0 == call@,
            Err(error) => league_call(texts(args@)) is Err && league_call(texts(args@))->Err_0
                == error@,
        },
{
    let ghost all = texts(args@);
    if args.len() == 0 {
        return Err(LEAGUE_USAGE.to_owned());
    }
    assert(all[0] == args@[0]@);
    if Game::from_id(args[0].as_str()).is_none() {
        return Err(LEAGUE_USAGE.to_owned());
    }
    let sets = if args.len() > 1 {
        assert(all[1] == args@[1]@);
        args[1].as_str()
    } else {
        "current"
    };
    if !(text::same(sets, "current") || text::same(sets, "past") || text::same(sets, "all")) {
        let mut error = "unknown include `".to_owned();
        error.append(sets);
        error.append("` (expected current, past, or all)");
        return Err(error);
    }
    if args.len() > 2 {
        return Err(
            "unexpected extra arguments: ".to_owned().concat(words_from(args, 2).as_str()),
        );
    }
    let mut call = "{\"game\":\"".to_owned();
    call.append(args[0].as_str());
    call.append("\",\"include\":\"");
    call.append(sets);
    call.append("\"}");
    Ok(call)
}

/// How the price program is called.
pub const PRICE_USAGE: &'static str = "usage: exile-ninja <poe1|poe2> <league> <category> [name...]";

/// The call that the arguments of the price program make.
pub open spec fn price_call(args: Seq<Seq<char>>) -> Result<Seq<char>, Seq<char>> {
    if args.len() < 3 || !is_game(args[0]) {
        Err(PRICE_USAGE@)
    } else {
        let head = put(
            put(
                put(no_members(), "game"@, JsonView::Text(args[0])),
                "league"@,
                JsonView::Text(args[1]),
            ),
            "category"@,
            JsonView::Text(args[2]),
        );
        let name = words(args, 3);
        Ok(
            printed(
                if name.len() == 0 {
                    head
                } else {
                    put(head, "name"@, JsonView::Text(name))
                },
            ),
        )
    }
}

/// The call that the arguments of the price program make.
pub fn read_price_call(args: &Vec<String>) -> (call: Result<String, String>)
    ensures
        match call {
            Ok(call) => price_call(texts(args@)) is Ok && price_call(texts(args@))->Ok_0 == call@,
            Err(error) => price_call(texts(args@)) is Err && price_call(texts(args@))->Err_0
                == error@,
        },
{
    let ghost all = texts(args@);
    if args.len() < 3 {
        return Err(PRICE_USAGE.to_owned());
    }
    proof {
        assert(all[0] == args@[0]@);
        assert(all[1] == args@[1]@);
        assert(all[2] == args@[2]@);
    }
    if Game::from_id(args[0].as_str()).is_none() {
        return Err(PRICE_USAGE.to_owned());
    }
    let name = words_from(args, 3);
    let mut call = Json::object().with("game", Json::string(args[0].as_str())).with(
        "league",
        Json::string(args[1].as_str()),
    ).with("category", Json::string(args[2].as_str()));
    if !name.as_str().is_empty() {
        call = call.with("name", Json::Text(name));
    }
    Ok(call.to_string())
}

/// How the wiki program is called.
pub const WIKI_USAGE: &'static str = "usage: exile-wiki <poe1|poe2> <search|page> <text...>";

/// The call that the arguments of the wiki program make.
pub open spec fn wiki_call(args: Seq<Seq<char>>) -> Result<Seq<char>, Seq<char>> {
    if args.len() < 2 || !is_game(args[0]) || !(args[1] == "search"@ || args[1] == "page"@) || words(
        args,
        2,
    ).len() == 0 {
        Err(WIKI_USAGE@)
    } else {
        Ok(
            printed(
                put(
                    put(no_members(), "game"@, JsonView::Text(args[0])),
                    args[1],
                    JsonView::Text(words(args, 2)),
                ),
            ),
        )
    }
}

/// The call that the arguments of the wiki program make.
pub fn read_wiki_call(args: &Vec<String>) -> (call: Result<String, String>)
    ensures
        match call {
            Ok(call) => wiki_call(texts(args@)) is Ok && wiki_call(texts(args@))->Ok_0 == call@,
            Err(error) => wiki_call(texts(args@)) is Err && wiki_call(texts(args@))->Err_0
                == error@,
        },
{
    let ghost all = texts(args@);
    if args.len() < 2 {
        return Err(WIKI_USAGE.to_owned());
    }
    proof {
        assert(all[0] == args@[0]@);
        assert(all[1] == args@[1]@);
    }
    let mode = args[1].as_str();
    if Game::from_id(args[0].as_str()).is_none() || !(text::same(mode, "search") || text::same(
        mode,
        "page",
    )) {
        return Err(WIKI_USAGE.to_owned());
    }
    let wanted = words_from(args, 2);
    if wanted.as_str().is_empty() {
        return Err(WIKI_USAGE.to_owned());
    }
    let call = Json::object().with("game", Json::string(args[0].as_str())).with(
        mode,
        Json::Text(wanted),
    );
    Ok(call.to_string())
}

/// How the build program is called.
pub const POB_USAGE: &'static str =
    "usage: exile-pob <poe1|poe2> <build-code> [stat...]\n       exile-pob whatif <poe1|poe2> <build-code> <modifier line>...\n       exile-pob encode <xml-file>\n       exile-pob fetch [--game <poe1|poe2>] [--ref <ref>] [--root <dir>] [--force]";

/// The head of a call on a build.
pub open spec fn build_head(game: Seq<char>, code: Seq<char>) -> JsonView {
    put(
        put(no_members(), "game"@, JsonView::Text(game)),
        "code"@,
        JsonView::Text(code),
    )
}

/// The call that `<game> <code> [stat...]` makes.
pub open spec fn query_call(args: Seq<Seq<char>>) -> Result<Seq<char>, Seq<char>> {
    if args.len() < 2 {
        Err(POB_USAGE@)
    } else if args.len() == 2 {
        Ok(printed(build_head(args[0], args[1])))
    } else {
        Ok(printed(put(build_head(args[0], args[1]), "stats"@, texts_json(args.skip(2)))))
    }
}

/// The call that `<game> <code> [stat...]` makes.
pub fn read_query_call(args: &Vec<String>) -> (call: Result<String, String>)
    ensures
        match call {
            Ok(call) => query_call(texts(args@)) is Ok && query_call(texts(args@))->Ok_0 == call@,
            Err(error) => query_call(texts(args@)) is Err && query_call(texts(args@))->Err_0
                == error@,
        },
{
    let ghost all = texts(args@);
    if args.len() < 2 {
        return Err(POB_USAGE.to_owned());
    }
    proof {
        assert(all[0] == args@[0]@);
        assert(all[1] == args@[1]@);
    }
    let mut call = Json::object().with("game", Json::string(args[0].as_str())).with(
        "code",
        Json::string(args[1].as_str()),
    );
    if args.len() > 2 {
        call = call.with("stats", texts_value(&arguments_from(args, 2)));
    }
    Ok(call.to_string())
}

/// The call that `<game> <code> <modifier line>...` makes.
pub open spec fn whatif_call(args: Seq<Seq<char>>) -> Result<Seq<char>, Seq<char>> {
    if args.len() < 3 || !is_game(args[0]) {
        Err(POB_USAGE@)
    } else {
        Ok(
            printed(
                put(build_head(args[0], args[1]), "custom_mods"@, texts_json(args.skip(2))),
            ),
        )
    }
}

/// The call that `<game> <code> <modifier line>...` makes.
pub fn read_whatif_call(args: &Vec<String>) -> (call: Result<String, String>)
    ensures
        match call {
            Ok(call) => whatif_call(texts(args@)) is Ok && whatif_call(texts(args@))->Ok_0 == call@,
            Err(error) => whatif_call(texts(args@)) is Err && whatif_call(texts(args@))->Err_0
                == error@,
        },
{
    let ghost all = texts(args@);
    if args.len() < 3 {
        return Err(POB_USAGE.to_owned());
    }
    proof {
        assert(all[0] == args@[0]@);
        assert(all[1] == args@[1]@);
    }
    if Game::from_id(args[0].as_str()).is_none() {
        return Err(POB_USAGE.to_owned());
    }
    let call = Json::object().with("game", Json::string(args[0].as_str())).with(
        "code",
        Json::string(args[1].as_str()),
    ).with("custom_mods", texts_value(&arguments_from(args, 2)));
    Ok(call.to_string())
}

/// What a download of engine checkouts is asked to do.
#[derive(Debug)]
pub struct FetchOptions {
    /// The one game to download for; both where there is none.
    pub game: Option<Game>,
    /// Branch, tag or commit.
    pub reference: String,
    /// The root of the checkouts.
    pub root: String,
    /// Whether an existing checkout is replaced.
    pub force: bool,
}

/// What [`FetchOptions`] say.
pub ghost struct FetchView {
    /// The one game to download for.
    pub game: Option<Game>,
    /// Branch, tag or commit.
    pub reference: Seq<char>,
    /// The root of the checkouts.
    pub root: Seq<char>,
    /// Whether an existing checkout is replaced.
    pub force: bool,
}

impl View for FetchOptions {
    type V = FetchView;

    open spec fn view(&self) -> FetchView {
        FetchView {
            game: self.game,
            reference: self.reference@,
            root: self.root@,
            force: self.force,
        }
    }
}

/// The options where no argument sets any.
pub open spec fn default_fetch() -> FetchView {
    FetchView { game: None, reference: "dev"@, root: "vendor/pob"@, force: false }
}

/// The options that arguments from `i` on set, behind those set already.
pub open spec fn fetch_options(args: Seq<Seq<char>>, i: int, options: FetchView) -> Result<
    FetchView,
    Seq<char>,
>
    decreases args.len() - i,
{
    if i < 0 || i >= args.len() {
        Ok(options)
    } else if args[i] == "--game"@ {
        if i + 1 < args.len() && is_game(args[i + 1]) {
            fetch_options(args, i + 2, FetchView { game: game_of_id(args[i + 1]), ..options })
        } else {
            Err("--game requires poe1 or poe2"@)
        }
    } else if args[i] == "--ref"@ {
        if i + 1 < args.len() {
            fetch_options(args, i + 2, FetchView { reference: args[i + 1], ..options })
        } else {
            Err("--ref requires a value"@)
        }
    } else if args[i] == "--root"@ {
        if i + 1 < args.len() {
            fetch_options(args, i + 2, FetchView { root: args[i + 1], ..options })
        } else {
            Err("--root requires a path"@)
        }
    } else if args[i] == "--force"@ {
        fetch_options(args, i + 1, FetchView { force: true, ..options })
    } else {
        Err("unknown argument `"@ + args[i] + "`\n"@ + POB_USAGE@)
    }
}

/// Parse the options of a download.
pub fn parse_fetch_options(args: &Vec<String>) -> (options: Result<FetchOptions, String>)
    ensures
        match options {
            Ok(options) => fetch_options(texts(args@), 0, default_fetch()) is Ok && fetch_options(
                texts(args@),
                0,
                default_fetch(),
            )->Ok_0 == options@,
            Err(error) => fetch_options(texts(args@), 0, default_fetch()) is Err && fetch_options(
                texts(args@),
                0,
                default_fetch(),
            )->Err_0 == error@,
        },
{
    let ghost all = texts(args@);
    let len: usize = args.len();
    let mut game: Option<Game> = None;
    let mut reference = "dev".to_owned();
    let mut root = "vendor/pob".to_owned();
    let mut force = false;
    let mut i: usize = 0;
    while i < len
        invariant
            all == texts(args@),
            len == args@.len(),
            i <= len,
            fetch_options(all, 0, default_fetch()) == fetch_options(
                all,
                i as int,
                FetchView { game, reference: reference@, root: root@, force },
            ),
        decreases len - i,
    {
        let arg = args[i].as_str();
        let last = len - i == 1;
        proof {
            assert(all[i as int] == arg@);
            if !last {
                assert(all[i + 1] == args@[i + 1]@);
            }
        }
        if text::same(arg, "--game") {
            if last {
                return Err("--game requires poe1 or poe2".to_owned());
            }
            match Game::from_id(args[i + 1].as_str()) {
                Some(found) => {
                    game = Some(found);
                },
                None => {
                    return Err("--game requires poe1 or poe2".to_owned());
                },
            }
            i += 2;
        } else if text::same(arg, "--ref") {
            if last {
                return Err("--ref requires a value".to_owned());
            }
            reference = args[i + 1].clone();
            i += 2;
        } else if text::same(arg, "--root") {
            if last {
                return Err("--root requires a path".to_owned());
            }
            root = args[i + 1].clone();
            i += 2;
        } else if text::same(arg, "--force") {
            force = true;
            i += 1;
        } else {
            let mut error = "unknown argument `".to_owned();
            error.append(arg);
            error.append("`\n");
            error.append(POB_USAGE);
            return Err(error);
        }
    }
    Ok(FetchOptions { game, reference, root, force })
}

/// What an eval is asked to do.
#[derive(Debug)]
pub struct EvalOptions {
    /// Path of the configuration.
    pub config_path: String,
    /// Name of the profile.
    pub profile: Option<String>,
    /// Part of the ids of the questions to ask.
    pub only: Option<String>,
}

/// What [`EvalOptions`] say.
pub ghost struct EvalView {
    /// Path of the configuration.
    pub config_path: Seq<char>,
    /// Name of the profile.
    pub profile: Option<Seq<char>>,
    /// Part of the ids of the questions to ask.
    pub only: Option<Seq<char>>,
}

impl View for EvalOptions {
    type V = EvalView;

    open spec fn view(&self) -> EvalView {
        EvalView {
            config_path: self.config_path@,
            profile: crate::cli::maybe(self.profile),
            only: crate::cli::maybe(self.only),
        }
    }
}

/// The options that arguments from `i` on set, behind those set already.
pub open spec fn eval_options(args: Seq<Seq<char>>, i: int, options: EvalView) -> Result<
    EvalView,
    Seq<char>,
>
    decreases args.len() - i,
{
    if i < 0 || i >= args.len() {
        Ok(options)
    } else if args[i] == "--config"@ {
        if i + 1 < args.len() {
            eval_options(args, i + 2, EvalView { config_path: args[i + 1], ..options })
        } else {
            Err("--config requires a path"@)
        }
    } else if args[i] == "--profile"@ {
        if i + 1 < args.len() {
            eval_options(args, i + 2, EvalView { profile: Some(args[i + 1]), ..options })
        } else {
            Err("--profile requires a name"@)
        }
    } else if args[i] == "--only"@ {
        if i + 1 < args.len() {
            eval_options(args, i + 2, EvalView { only: Some(args[i + 1]), ..options })
        } else {
            Err("--only requires an id substring"@)
        }
    } else {
        Err(
            "unknown argument `"@ + args[i]
                + "` (usage: exile-eval [--config <path>] [--profile <name>] [--only <id-substring>])"@,
        )
    }
}

/// The options where no argument sets any.
pub open spec fn default_eval() -> EvalView {
    EvalView { config_path: "exile.toml"@, profile: None, only: None }
}

/// Parse the options of an eval.
pub fn parse_eval_options(args: &Vec<String>) -> (options: Result<EvalOptions, String>)
    ensures
        match options {
            Ok(options) => eval_options(texts(args@), 0, default_eval()) is Ok && eval_options(
                texts(args@),
                0,
                default_eval(),
            )->Ok_0 == options@,
            Err(error) => eval_options(texts(args@), 0, default_eval()) is Err && eval_options(
                texts(args@),
                0,
                default_eval(),
            )->Err_0 == error@,
        },
{
    let ghost all = texts(args@);
    let len: usize = args.len();
    let mut config_path = "exile.toml".to_owned();
    let mut profile: Option<String> = None;
    let mut only: Option<String> = None;
    let mut i: usize = 0;
    while i < len
        invariant
            all == texts(args@),
            len == args@.len(),
            i <= len,
            eval_options(all, 0, default_eval()) == eval_options(
                all,
                i as int,
                EvalView {
                    config_path: config_path@,
                    profile: crate::cli::maybe(profile),
                    only: crate::cli::maybe(only),
                },
            ),
        decreases len - i,
    {
        let arg = args[i].as_str();
        let last = len - i == 1;
        proof {
            assert(all[i as int] == arg@);
            if !last {
                assert(all[i + 1] == args@[i + 1]@);
            }
        }
        if text::same(arg, "--config") {
            if last {
                return Err("--config requires a path".to_owned());
            }
            config_path = args[i + 1].clone();
        } else if text::same(arg, "--profile") {
            if last {
                return Err("--profile requires a name".to_owned());
            }
            profile = Some(args[i + 1].clone());
        } else if text::same(arg, "--only") {
            if last {
                return Err("--only requires an id substring".to_owned());
            }
            only = Some(args[i + 1].clone());
        } else {
            let mut error = "unknown argument `".to_owned();
            error.append(arg);
            error.append(
                "` (usage: exile-eval [--config <path>] [--profile <name>] [--only <id-substring>])",
            );
            return Err(error);
        }
        i += 2;
    }
    Ok(EvalOptions { config_path, profile, only })
}

/// The league program asks for the leagues of the game that it was given: the
/// current ones, or the set that was named; anything else is refused.
pub proof fn law_league_calls_say_what_was_given(args: Seq<Seq<char>>)
    ensures
        league_call(args) is Ok <==> {
            &&& 1 <= args.len() <= 2
            &&& args[0] == "poe1"@ || args[0] == "poe2"@
            &&& args.len() == 2 ==> args[1] == "current"@ || args[1] == "past"@ || args[1]
                == "all"@
        },
        league_call(args) is Ok && args.len() == 1 ==> league_call(args)->Ok_0 == "{\"game\":\""@
            + args[0] + "\",\"include\":\""@ + "current"@ + "\"}"@,
        league_call(args) is Ok && args.len() == 2 ==> league_call(args)->Ok_0 == "{\"game\":\""@
            + args[0] + "\",\"include\":\""@ + args[1] + "\"}"@,
{
}

/// The price program asks for the game, the league and the category that it
/// was given, and for all further words as one name: the price tool reads them
/// back.
pub proof fn law_price_calls_say_what_was_given(args: Seq<Seq<char>>)
    ensures
        price_call(args) is Ok <==> args.len() >= 3 && (args[0] == "poe1"@ || args[0] == "poe2"@),
        price_call(args) is Ok ==> exists|call: JsonView|
            {
                &&& price_call(args) == Ok::<Seq<char>, Seq<char>>(#[trigger] printed(call))
                &&& at_key(call, "game"@) == JsonView::Text(args[0])
                &&& at_key(call, "league"@) == JsonView::Text(args[1])
                &&& at_key(call, "category"@) == JsonView::Text(args[2])
                &&& member(call, "name"@) is None <==> separated(args.skip(3), " "@).len() == 0
                &&& separated(args.skip(3), " "@).len() > 0 ==> at_key(call, "name"@)
                    == JsonView::Text(separated(args.skip(3), " "@))
                &&& price_args_in(call) matches Ok(read) ==> read.league == args[1]
                    && read.category == args[2] && game_id(read.game) == args[0] && read.limit
                    is None
            },
{
    reveal_strlit("game");
    reveal_strlit("league");
    reveal_strlit("category");
    reveal_strlit("name");
    reveal_strlit("limit");
    assert("game"@.len() == 4);
    assert("league"@.len() == 6);
    assert("category"@.len() == 8);
    assert("name"@.len() == 4);
    assert("limit"@.len() == 5);
    assert("game"@[0] != "name"@[0]);
    reveal_strlit("poe1");
    reveal_strlit("poe2");
    assert("poe1"@.len() == 4);
    assert("poe2"@.len() == 4);
    assert("poe1"@[3] != "poe2"@[3]);
    if price_call(args) is Ok {
        let head = put(
            put(
                put(no_members(), "game"@, JsonView::Text(args[0])),
                "league"@,
                JsonView::Text(args[1]),
            ),
            "category"@,
            JsonView::Text(args[2]),
        );
        let name = words(args, 3);
        let call = if name.len() == 0 {
            head
        } else {
            put(head, "name"@, JsonView::Text(name))
        };
        assert(price_call(args) == Ok::<Seq<char>, Seq<char>>(printed(call)));
    }
}

/// The wiki program asks for a search or for a page, as it was told, with all
/// further words as the query or the title.
pub proof fn law_wiki_calls_say_what_was_given(args: Seq<Seq<char>>)
    ensures
        wiki_call(args) is Ok <==> {
            &&& args.len() >= 2
            &&& args[0] == "poe1"@ || args[0] == "poe2"@
            &&& args[1] == "search"@ || args[1] == "page"@
            &&& separated(args.skip(2), " "@).len() > 0
        },
        wiki_call(args) is Ok ==> exists|call: JsonView|
            {
                &&& wiki_call(args) == Ok::<Seq<char>, Seq<char>>(#[trigger] printed(call))
                &&& at_key(call, "game"@) == JsonView::Text(args[0])
                &&& args[1] == "search"@ ==> at_key(call, "search"@) == JsonView::Text(
                    separated(args.skip(2), " "@),
                ) && member(call, "page"@) is None
                &&& args[1] == "page"@ ==> at_key(call, "page"@) == JsonView::Text(
                    separated(args.skip(2), " "@),
                ) && member(call, "search"@) is None
            },
{
    reveal_strlit("game");
    reveal_strlit("search");
    reveal_strlit("page");
    assert("game"@.len() == 4);
    assert("search"@.len() == 6);
    assert("page"@.len() == 4);
    assert("game"@[0] != "page"@[0]);
    if wiki_call(args) is Ok {
        let call = put(
            put(no_members(), "game"@, JsonView::Text(args[0])),
            args[1],
            JsonView::Text(words(args, 2)),
        );
        assert(wiki_call(args) == Ok::<Seq<char>, Seq<char>>(printed(call)));
    }
}

/// The build program asks for the build that it was given, and for the stats
/// that were named, in their order, or for all.
pub proof fn law_build_calls_say_what_was_given(args: Seq<Seq<char>>)
    ensures
        query_call(args) is Ok <==> args.len() >= 2,
        query_call(args) is Ok ==> exists|call: JsonView|
            {
                &&& query_call(args) == Ok::<Seq<char>, Seq<char>>(#[trigger] printed(call))
                &&& at_key(call, "game"@) == JsonView::Text(args[0])
                &&& at_key(call, "code"@) == JsonView::Text(args[1])
                &&& member(call, "stats"@) is None <==> args.len() == 2
                &&& args.len() > 2 ==> at_key(call, "stats"@) is Array && at_key(
                    call,
                    "stats"@,
                )->Array_0.len() == args.len() - 2
                &&& forall|i: int|
                    2 <= i < args.len() ==> at_index(at_key(call, "stats"@), i - 2)
                        == JsonView::Text(#[trigger] args[i])
            },
{
    reveal_strlit("game");
    reveal_strlit("code");
    reveal_strlit("stats");
    assert("game"@.len() == 4);
    assert("code"@.len() == 4);
    assert("stats"@.len() == 5);
    assert("game"@[0] != "code"@[0]);
    if query_call(args) is Ok {
        let head = build_head(args[0], args[1]);
        let call = if args.len() == 2 {
            head
        } else {
            put(head, "stats"@, texts_json(args.skip(2)))
        };
        assert(query_call(args) == Ok::<Seq<char>, Seq<char>>(printed(call)));
    }
}

/// The comparison asks for the build that it was given and for the modifier
/// lines, in their order.
pub proof fn law_comparison_calls_say_what_was_given(args: Seq<Seq<char>>)
    ensures
        whatif_call(args) is Ok <==> args.len() >= 3 && (args[0] == "poe1"@ || args[0]
            == "poe2"@),
        whatif_call(args) is Ok ==> exists|call: JsonView|
            {
                &&& whatif_call(args) == Ok::<Seq<char>, Seq<char>>(#[trigger] printed(call))
                &&& at_key(call, "game"@) == JsonView::Text(args[0])
                &&& at_key(call, "code"@) == JsonView::Text(args[1])
                &&& at_key(call, "custom_mods"@) is Array
                &&& at_key(call, "custom_mods"@)->Array_0.len() == args.len() - 2
                &&& forall|i: int|
                    2 <= i < args.len() ==> at_index(at_key(call, "custom_mods"@), i - 2)
                        == JsonView::Text(#[trigger] args[i])
            },
{
    reveal_strlit("game");
    reveal_strlit("code");
    reveal_strlit("custom_mods");
    assert("game"@.len() == 4);
    assert("code"@.len() == 4);
    assert("custom_mods"@.len() == 11);
    assert("game"@[0] != "code"@[0]);
    if whatif_call(args) is Ok {
        let call = put(build_head(args[0], args[1]), "custom_mods"@, texts_json(args.skip(2)));
        assert(whatif_call(args) == Ok::<Seq<char>, Seq<char>>(printed(call)));
    }
}

/// Options of the fetching program: one more behind others sets what it names
/// and nothing else, so that the last one counts.
pub proof fn law_last_fetch_option_counts(
    args: Seq<Seq<char>>,
    options: FetchView,
    flag: Seq<char>,
    value: Seq<char>,
)
    requires
        fetch_options(args, 0, options) is Ok,
    ensures
        ({
            let before = fetch_options(args, 0, options)->Ok_0;
            let after = fetch_options(args + seq![flag, value], 0, options);
            &&& flag == "--ref"@ ==> after == Ok::<FetchView, Seq<char>>(
                FetchView {
                    game: before.game,
                    reference: value,
                    root: before.root,
                    force: before.force,
                },
            )
            &&& flag == "--root"@ ==> after == Ok::<FetchView, Seq<char>>(
                FetchView {
                    game: before.game,
                    reference: before.reference,
                    root: value,
                    force: before.force,
                },
            )
            &&& flag == "--game"@ && value == "poe1"@ ==> after == Ok::<FetchView, Seq<char>>(
                FetchView {
                    game: Some(Game::Poe1),
                    reference: before.reference,
                    root: before.root,
                    force: before.force,
                },
            )
            &&& flag == "--game"@ && value == "poe2"@ ==> after == Ok::<FetchView, Seq<char>>(
                FetchView {
                    game: Some(Game::Poe2),
                    reference: before.reference,
                    root: before.root,
                    force: before.force,
                },
            )
            &&& flag == "--game"@ && value != "poe1"@ && value != "poe2"@ ==> after is Err
        }),
        flag == "--force"@ ==> fetch_options(args + seq![flag], 0, options) == Ok::<
            FetchView,
            Seq<char>,
        >(
            FetchView {
                game: fetch_options(args, 0, options)->Ok_0.game,
                reference: fetch_options(args, 0, options)->Ok_0.reference,
                root: fetch_options(args, 0, options)->Ok_0.root,
                force: true,
            },
        ),
        flag != "--force"@ ==> fetch_options(args + seq![flag], 0, options) is Err,
{
    reveal_with_fuel(fetch_options, 3);
    reveal_strlit("--ref");
    reveal_strlit("--root");
    reveal_strlit("--game");
    reveal_strlit("--force");
    assert("--ref"@.len() == 5);
    assert("--root"@.len() == 6);
    assert("--game"@.len() == 6);
    assert("--force"@.len() == 7);
    assert("--root"@[2] != "--game"@[2]);
    reveal_strlit("poe1");
    reveal_strlit("poe2");
    assert("poe1"@.len() == 4);
    assert("poe2"@.len() == 4);
    assert("poe1"@[3] != "poe2"@[3]);
    let all = args + seq![flag, value];
    lemma_fetch_options_go_on(args, seq![flag, value], 0, options);
    assert(all[args.len() as int] == flag);
    assert(all[args.len() as int + 1] == value);
    let cut = args + seq![flag];
    lemma_fetch_options_go_on(args, seq![flag], 0, options);
    assert(cut[args.len() as int] == flag);
}

/// Reading goes on behind what was read.
proof fn lemma_fetch_options_go_on(
    args: Seq<Seq<char>>,
    tail: Seq<Seq<char>>,
    i: int,
    options: FetchView,
)
    requires
        0 <= i <= args.len(),
        fetch_options(args, i, options) is Ok,
    ensures
        fetch_options(args + tail, i, options) == fetch_options(
            args + tail,
            args.len() as int,
            fetch_options(args, i, options)->Ok_0,
        ),
    decreases args.len() - i,
{
    let all = args + tail;
    if i < args.len() {
        assert(all[i] == args[i]);
        if args[i] == "--force"@ && args[i] != "--game"@ && args[i] != "--ref"@ && args[i]
            != "--root"@ {
            lemma_fetch_options_go_on(args, tail, i + 1, FetchView { force: true, ..options });
        } else if i + 1 < args.len() {
            assert(all[i + 1] == args[i + 1]);
            if args[i] == "--game"@ {
                let next = FetchView { game: game_of_id(args[i + 1]), ..options };
                lemma_fetch_options_go_on(args, tail, i + 2, next);
            } else if args[i] == "--ref"@ {
                let next = FetchView { reference: args[i + 1], ..options };
                lemma_fetch_options_go_on(args, tail, i + 2, next);
            } else {
                let next = FetchView { root: args[i + 1], ..options };
                lemma_fetch_options_go_on(args, tail, i + 2, next);
            }
        }
    }
}

/// Without options the development branches of both games are fetched, below
/// "vendor/pob", and only where they are missing.
pub proof fn law_fetch_defaults(options: FetchView)
    ensures
        fetch_options(seq![], 0, options) == Ok::<FetchView, Seq<char>>(options),
        default_fetch().game is None,
        default_fetch().reference == "dev"@,
        default_fetch().root == "vendor/pob"@,
        !default_fetch().force,
{
}

/// Options of the grading program: one more behind others sets what it names
/// and nothing else, so that the last one counts.
pub proof fn law_last_eval_option_counts(
    args: Seq<Seq<char>>,
    options: EvalView,
    flag: Seq<char>,
    value: Seq<char>,
)
    requires
        eval_options(args, 0, options) is Ok,
    ensures
        ({
            let before = eval_options(args, 0, options)->Ok_0;
            let after = eval_options(args + seq![flag, value], 0, options);
            &&& flag == "--config"@ ==> after == Ok::<EvalView, Seq<char>>(
                EvalView { config_path: value, profile: before.profile, only: before.only },
            )
            &&& flag == "--profile"@ ==> after == Ok::<EvalView, Seq<char>>(
                EvalView {
                    config_path: before.config_path,
                    profile: Some(value),
                    only: before.only,
                },
            )
            &&& flag == "--only"@ ==> after == Ok::<EvalView, Seq<char>>(
                EvalView {
                    config_path: before.config_path,
                    profile: before.profile,
                    only: Some(value),
                },
            )
        }),
        eval_options(args + seq![flag], 0, options) is Err,
        eval_options(seq![], 0, options) == Ok::<EvalView, Seq<char>>(options),
        default_eval().config_path == "exile.toml"@,
        default_eval().profile is None && default_eval().only is None,
{
    reveal_with_fuel(eval_options, 3);
    reveal_strlit("--config");
    reveal_strlit("--profile");
    reveal_strlit("--only");
    assert("--config"@.len() == 8);
    assert("--profile"@.len() == 9);
    assert("--only"@.len() == 6);
    let all = args + seq![flag, value];
    lemma_eval_options_go_on(args, seq![flag, value], 0, options);
    assert(all[args.len() as int] == flag);
    assert(all[args.len() as int + 1] == value);
    let cut = args + seq![flag];
    lemma_eval_options_go_on(args, seq![flag], 0, options);
    assert(cut[args.len() as int] == flag);
}

/// Reading goes on behind what was read.
proof fn lemma_eval_options_go_on(
    args: Seq<Seq<char>>,
    tail: Seq<Seq<char>>,
    i: int,
    options: EvalView,
)
    requires
        0 <= i <= args.len(),
        eval_options(args, i, options) is Ok,
    ensures
        eval_options(args + tail, i, options) == eval_options(
            args + tail,
            args.len() as int,
            eval_options(args, i, options)->Ok_0,
        ),
    decreases args.len() - i,
{
    let all = args + tail;
    if i < args.len() {
        assert(all[i] == args[i]);
        if i + 1 < args.len() {
            assert(all[i + 1] == args[i + 1]);
            if args[i] == "--config"@ {
                let next = EvalView { config_path: args[i + 1], ..options };
                lemma_eval_options_go_on(args, tail, i + 2, next);
            } else if args[i] == "--profile"@ {
                let next = EvalView { profile: Some(args[i + 1]), ..options };
                lemma_eval_options_go_on(args, tail, i + 2, next);
            } else {
                let next = EvalView { only: Some(args[i + 1]), ..options };
                lemma_eval_options_go_on(args, tail, i + 2, next);
            }
        }
    }
}

/// What the fetching and the grading program refuse, they refuse by name: an
/// option without its value, and an argument that is no option.
pub proof fn law_wrong_program_options_are_told(
    fetch: FetchView,
    eval: EvalView,
    arg: Seq<char>,
)
    ensures
        fetch_options(seq!["--game"@], 0, fetch) == Err::<FetchView, Seq<char>>(
            "--game requires poe1 or poe2"@,
        ),
        fetch_options(seq!["--ref"@], 0, fetch) == Err::<FetchView, Seq<char>>(
            "--ref requires a value"@,
        ),
        fetch_options(seq!["--root"@], 0, fetch) == Err::<FetchView, Seq<char>>(
            "--root requires a path"@,
        ),
        arg != "--game"@ && arg != "--ref"@ && arg != "--root"@ && arg != "--force"@
            ==> fetch_options(seq![arg], 0, fetch) == Err::<FetchView, Seq<char>>(
            "unknown argument `"@ + arg + "`\n"@ + POB_USAGE@,
        ),
        eval_options(seq!["--config"@], 0, eval) == Err::<EvalView, Seq<char>>(
            "--config requires a path"@,
        ),
        eval_options(seq!["--profile"@], 0, eval) == Err::<EvalView, Seq<char>>(
            "--profile requires a name"@,
        ),
        eval_options(seq!["--only"@], 0, eval) == Err::<EvalView, Seq<char>>(
            "--only requires an id substring"@,
        ),
        arg != "--config"@ && arg != "--profile"@ && arg != "--only"@ ==> eval_options(
            seq![arg],
            0,
            eval,
        ) == Err::<EvalView, Seq<char>>(
            "unknown argument `"@ + arg
                + "` (usage: exile-eval [--config <path>] [--profile <name>] [--only <id-substring>])"@,
        ),
{
    reveal_strlit("--ref");
    reveal_strlit("--root");
    reveal_strlit("--game");
    reveal_strlit("--force");
    assert("--ref"@.len() == 5);
    assert("--root"@.len() == 6);
    assert("--game"@.len() == 6);
    assert("--force"@.len() == 7);
    assert("--root"@[2] != "--game"@[2]);
    reveal_strlit("--config");
    reveal_strlit("--profile");
    reveal_strlit("--only");
    assert("--config"@.len() == 8);
    assert("--profile"@.len() == 9);
    assert("--only"@.len() == 6);
    assert(seq!["--game"@][0] == "--game"@ && seq!["--ref"@][0] == "--ref"@);
    assert(seq!["--root"@][0] == "--root"@ && seq!["--config"@][0] == "--config"@);
    assert(seq!["--profile"@][0] == "--profile"@ && seq!["--only"@][0] == "--only"@);
    assert(seq![arg][0] == arg);
}

/// A call that a program refuses tells how the program is called, or what is
/// wrong with it.
pub proof fn law_refused_calls_tell_the_usage(args: Seq<Seq<char>>)
    ensures
        price_call(args) is Err ==> price_call(args) == Err::<Seq<char>, Seq<char>>(PRICE_USAGE@),
        wiki_call(args) is Err ==> wiki_call(args) == Err::<Seq<char>, Seq<char>>(WIKI_USAGE@),
        query_call(args) is Err ==> query_call(args) == Err::<Seq<char>, Seq<char>>(POB_USAGE@),
        whatif_call(args) is Err ==> whatif_call(args) == Err::<Seq<char>, Seq<char>>(POB_USAGE@),
        args.len() == 0 || (args[0] != "poe1"@ && args[0] != "poe2"@) ==> league_call(args)
            == Err::<Seq<char>, Seq<char>>(LEAGUE_USAGE@),
        args.len() > 2 && (args[0] == "poe1"@ || args[0] == "poe2"@) && (args[1] == "current"@
            || args[1] == "past"@ || args[1] == "all"@) ==> league_call(args) == Err::<
            Seq<char>,
            Seq<char>,
        >("unexpected extra arguments: "@ + separated(args.skip(2), " "@)),
        args.len() > 1 && (args[0] == "poe1"@ || args[0] == "poe2"@) && args[1] != "current"@
            && args[1] != "past"@ && args[1] != "all"@ ==> league_call(args) == Err::<
            Seq<char>,
            Seq<char>,
        >("unknown include `"@ + args[1] + "` (expected current, past, or all)"@),
{
}

}
