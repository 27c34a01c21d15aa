//! Build engines: one warm headless child per game, spoken to in JSON lines.
//! Booting an engine costs seconds and about a gigabyte, so a child stays
//! alive across requests; on any protocol failure it is dropped and the next
//! request boots another.

use vstd::prelude::*;
use vstd::rwlock::{RwLock, RwLockPredicate};

use crate::held::{hold, Held};
use crate::http::{fetched, Fetched};
use crate::json;
use crate::json::{
    at_key, items_view, lemma_items_push, member, no_members, parsed, printed, put, text_in, Json,
    JsonView,
};
use crate::text;
use crate::text::{occurs, texts};
use crate::toolkit::{game_id, Game};

verus! {

/// What an engine was asked, line by line, each with what it replied.
pub type Log = Seq<(Seq<char>, Fetched)>;

/// One request/response exchange with a build engine.
pub trait Engine: Send + Sync {
    /// Whether the engine, from here on, may be asked and reply as in `log`.
    /// Of an engine that says no more, any replies may come.
    open spec fn may_hear(&self, log: Log) -> bool {
        true
    }

    /// Send one JSON request line, receive one JSON response line.
    fn request(&mut self, line: &str) -> (reply: Result<String, String>)
        ensures
            old(self).may_hear(seq![(line@, fetched(reply))]),
            forall|log: Log| #[trigger]
                final(self).may_hear(log) ==> old(self).may_hear(
                    seq![(line@, fetched(reply))] + log,
                ),
    ;
}

/// Spawns engines on demand.
pub trait EngineFactory: Send + Sync {
    /// Whether booting an engine in `engine_dir` may be refused with
    /// `refusal`, or, where that is `None`, succeed. Of a factory that says no
    /// more, either may happen.
    open spec fn may_spawn(&self, engine_dir: Seq<char>, refusal: Option<Seq<char>>) -> bool {
        true
    }

    /// Whether an engine that was booted in `engine_dir` may be asked and
    /// reply as in `log`, from its boot on.
    open spec fn may_hear(&self, engine_dir: Seq<char>, log: Log) -> bool {
        true
    }

    /// Boot an engine for the checkout at `engine_dir`.
    fn spawn(&self, engine_dir: &str) -> (engine: Result<Box<dyn Engine>, String>)
        ensures
            self.may_spawn(
                engine_dir@,
                match engine {
                    Ok(_) => None,
                    Err(refusal) => Some(refusal@),
                },
            ),
            engine is Ok ==> forall|log: Log| #[trigger]
                engine->Ok_0.may_hear(log) ==> self.may_hear(engine_dir@, log),
    ;
}

/// The paths with which a live engine is started: an interpreter and an
/// adapter script, run in the `src` directory of a checkout.
pub struct LuaFactory {
    luajit: String,
    adapter: String,
}

impl LuaFactory {
    /// The interpreter.
    pub closed spec fn interpreter(&self) -> Seq<char> {
        self.luajit@
    }

    /// The adapter script.
    pub closed spec fn script(&self) -> Seq<char> {
        self.adapter@
    }

    /// A factory using the given interpreter and adapter script paths.
    pub fn new(luajit: String, adapter: String) -> (factory: Self)
        ensures
            factory.interpreter() == luajit@,
            factory.script() == adapter@,
    {
        LuaFactory { luajit, adapter }
    }

    /// The interpreter.
    pub fn luajit(&self) -> (path: &str)
        ensures
            path@ == self.interpreter(),
    {
        self.luajit.as_str()
    }

    /// The adapter script.
    pub fn adapter(&self) -> (path: &str)
        ensures
            path@ == self.script(),
    {
        self.adapter.as_str()
    }

    /// What a directory without a checkout is refused with.
    pub fn missing_checkout(engine_dir: &str) -> (error: String)
        ensures
            error@ == "no engine checkout at "@ + engine_dir@
                + " — clone the stock Path of Building repo there (see crates/exile-tools/exile-pob/README.md)"@,
    {
        let mut error = "no engine checkout at ".to_owned();
        error.append(engine_dir);
        error.append(
            " — clone the stock Path of Building repo there (see crates/exile-tools/exile-pob/README.md)",
        );
        error
    }

    /// Check the first line of an engine, given what waiting for it came to.
    pub fn check_banner(banner: Result<String, String>) -> (ready: Result<(), String>)
        ensures
            match banner {
                Err(reason) => ready is Err && ready->Err_0@ == "engine did not become ready: "@
                    + reason@,
                Ok(line) => if occurs(line@, "\"ready\":true"@) {
                    ready is Ok
                } else {
                    ready is Err && ready->Err_0@ == "unexpected ready banner: "@ + line@
                },
            },
    {
        match banner {
            Err(reason) => Err("engine did not become ready: ".to_owned().concat(reason.as_str())),
            Ok(line) => if text::contains(line.as_str(), "\"ready\":true") {
                Ok(())
            } else {
                Err("unexpected ready banner: ".to_owned().concat(line.as_str()))
            },
        }
    }
}

/// The number that stands for a text in the name of its file: each byte added
/// to thirty-one times the number so far, in 32 bits.
pub open spec fn checksum(bytes: Seq<u8>) -> nat
    decreases bytes.len(),
{
    if bytes.len() == 0 {
        0
    } else {
        (checksum(bytes.drop_last()) * 31 + bytes.last() as nat) % 0x1_0000_0000
    }
}

/// The lowercase hexadecimal digit of a number below sixteen.
pub open spec fn lower_hex(n: int) -> char {
    if n < 10 {
        (48 + n) as u8 as char
    } else {
        (87 + n) as u8 as char
    }
}

/// The last `digits` hexadecimal digits of a number.
pub open spec fn hex_text(n: nat, digits: nat) -> Seq<char>
    decreases digits,
{
    if digits == 0 {
        seq![]
    } else {
        hex_text(n / 16, (digits - 1) as nat).push(lower_hex((n % 16) as int))
    }
}

/// The number that stands for a text in the name of its file.
fn checksum_of(bytes: &[u8]) -> (sum: u32)
    ensures
        sum == checksum(bytes@),
{
    let mut sum: u32 = 0;
    let mut i: usize = 0;
    assert(bytes@.take(0) =~= Seq::<u8>::empty());
    while i < bytes.len()
        invariant
            i <= bytes@.len(),
            sum == checksum(bytes@.take(i as int)),
        decreases bytes@.len() - i,
    {
        proof {
            assert(bytes@.take(i + 1).drop_last() =~= bytes@.take(i as int));
            assert(bytes@.take(i + 1).last() == bytes@[i as int]);
        }
        let wide: u64 = (sum as u64) * 31 + bytes[i] as u64;
        sum = (wide % 0x1_0000_0000) as u32;
        i += 1;
    }
    assert(bytes@.take(i as int) =~= bytes@);
    sum
}

/// The last `digits` hexadecimal digits of a number.
fn hex_of(n: u32, digits: u32) -> (out: String)
    ensures
        out@ == hex_text(n as nat, digits as nat),
    decreases digits,
{
    if digits == 0 {
        return String::new();
    }
    let mut out = hex_of(n / 16, digits - 1);
    let digit: u8 = (n % 16) as u8;
    out.push(if digit < 10 {
        (48 + digit) as char
    } else {
        (87 + digit) as char
    });
    out
}

/// The name of the file that an adapter script is written to. It follows from
/// the content, so that concurrent tools and upgraded programs never fight
/// over one file.
pub fn adapter_file_name(adapter: &str) -> (name: String)
    ensures
        name@ == "exile-pob-adapter-"@ + hex_text(
            checksum(vstd::utf8::encode_utf8(adapter@)),
            8,
        ) + ".lua"@,
{
    let mut name = "exile-pob-adapter-".to_owned();
    name.append(hex_of(checksum_of(adapter.as_bytes()), 8).as_str());
    name.append(".lua");
    name
}

/// One engine run: the version and the requested stats.
#[derive(Debug)]
pub struct Computed {
    /// Engine version.
    pub engine_version: Json,
    /// Stats by key.
    pub stats: Json,
}

/// What a [`Computed`] holds.
pub ghost struct ComputedView {
    /// Engine version.
    pub engine_version: JsonView,
    /// Stats by key.
    pub stats: JsonView,
}

impl View for Computed {
    type V = ComputedView;

    open spec fn view(&self) -> ComputedView {
        ComputedView { engine_version: self.engine_version@, stats: self.stats@ }
    }
}

/// What a run came to.
pub type Run = Result<ComputedView, Seq<char>>;

/// What the value of a run says.
pub open spec fn run_view(run: Result<Computed, String>) -> Run {
    match run {
        Ok(computed) => Ok(computed@),
        Err(error) => Err(error@),
    }
}

/// The commands of a run, in order.
pub open spec fn commands() -> Seq<Seq<char>> {
    seq!["version"@, "loadXML"@, "stats"@]
}

/// The head of a request.
pub open spec fn request_head(id: u64, command: Seq<char>) -> JsonView {
    put(
        put(no_members(), "id"@, JsonView::Unsigned(id)),
        "cmd"@,
        JsonView::Text(command),
    )
}

/// Strings as a value.
pub open spec fn texts_json(list: Seq<Seq<char>>) -> JsonView {
    JsonView::Array(list.map_values(|text: Seq<char>| JsonView::Text(text)))
}

/// The requests of a run, in order: which version the engine is, the build,
/// and the stats, all or those asked for.
pub open spec fn requests(xml: Seq<char>, stats: Option<Seq<Seq<char>>>) -> Seq<JsonView> {
    seq![
        request_head(1, "version"@),
        put(
            put(request_head(2, "loadXML"@), "xml"@, JsonView::Text(xml)),
            "name"@,
            JsonView::Text("exile"@),
        ),
        match stats {
            Some(keys) => put(request_head(3, "stats"@), "keys"@, texts_json(keys)),
            None => request_head(3, "stats"@),
        },
    ]
}

/// What a response line holds: the result, or why there is none.
pub open spec fn answered(command: Seq<char>, reply: Fetched) -> Result<JsonView, Seq<char>> {
    match reply {
        Err(error) => Err(error),
        Ok(line) => match parsed(line) {
            Err(error) => Err("engine spoke non-JSON: "@ + error + ": "@ + line),
            Ok(response) => answered_json(command, line, response),
        },
    }
}

/// What a response holds.
pub open spec fn answered_json(command: Seq<char>, line: Seq<char>, response: JsonView) -> Result<
    JsonView,
    Seq<char>,
> {
    if at_key(response, "ok"@) == JsonView::Bool(true) {
        Ok(at_key(response, "result"@))
    } else {
        Err(
            "engine rejected "@ + printed(JsonView::Text(command)) + ": "@ + match text_in(
                at_key(response, "error"@),
            ) {
                Some(error) => error,
                None => line,
            },
        )
    }
}

/// Whether `replies` are those of one run: all but the last hold results, and
/// the run went on to the end or stopped at a failure.
pub open spec fn is_conversation(replies: Seq<Fetched>) -> bool {
    &&& 1 <= replies.len() <= 3
    &&& forall|i: int|
        0 <= i < replies.len() - 1 ==> answered(commands()[i], #[trigger] replies[i]) is Ok
    &&& replies.len() < 3 ==> answered(commands()[replies.len() - 1], replies.last()) is Err
}

/// What the replies of a run come to.
pub open spec fn conversed(replies: Seq<Fetched>) -> Run {
    match answered(commands()[replies.len() - 1], replies.last()) {
        Err(error) => Err(error),
        Ok(stats) => Ok(
            ComputedView {
                engine_version: at_key(answered("version"@, replies[0])->Ok_0, "engine"@),
                stats,
            },
        ),
    }
}

/// What a run is, request by request.
pub open spec fn exchanges(
    xml: Seq<char>,
    stats: Option<Seq<Seq<char>>>,
    replies: Seq<Fetched>,
) -> Seq<(Seq<char>, Fetched)> {
    Seq::new(replies.len(), |i: int| (printed(requests(xml, stats)[i]), replies[i]))
}

/// What a response line holds: the result, or why there is none.
pub fn read_response(command: &str, reply: &Result<String, String>) -> (result: Result<
    Json,
    String,
>)
    ensures
        match result {
            Ok(result) => answered(command@, fetched(*reply)) is Ok && answered(
                command@,
                fetched(*reply),
            )->Ok_0 == result@,
            Err(error) => answered(command@, fetched(*reply)) is Err && answered(
                command@,
                fetched(*reply),
            )->Err_0 == error@,
        },
{
    let line = match reply {
        Ok(line) => line,
        Err(error) => {
            return Err(error.clone());
        },
    };
    match json::parse(line.as_str()) {
        Err(reason) => {
            let mut error = "engine spoke non-JSON: ".to_owned();
            error.append(reason.as_str());
            error.append(": ");
            error.append(line.as_str());
            Err(error)
        },
        Ok(response) => read_result(command, line.as_str(), &response),
    }
}

/// What a response holds.
pub fn read_result(command: &str, line: &str, response: &Json) -> (result: Result<Json, String>)
    ensures
        match result {
            Ok(result) => answered_json(command@, line@, response@) is Ok && answered_json(
                command@,
                line@,
                response@,
            )->Ok_0 == result@,
            Err(error) => answered_json(command@, line@, response@) is Err && answered_json(
                command@,
                line@,
                response@,
            )->Err_0 == error@,
        },
{
    let ok = match response.key("ok") {
        Json::Bool(flag) => *flag,
        _ => false,
    };
    if ok {
        return Ok(response.key("result").copy());
    }
    let mut error = "engine rejected ".to_owned();
    error.append(Json::string(command).to_string().as_str());
    error.append(": ");
    match response.key("error").as_str() {
        Some(reason) => error.append(reason),
        None => error.append(line),
    }
    Err(error)
}

/// Strings as a value.
pub fn texts_value(list: &Vec<String>) -> (value: Json)
    ensures
        value@ == texts_json(texts(list@)),
{
    let ghost all = texts(list@).map_values(|text: Seq<char>| JsonView::Text(text));
    let mut items: Vec<Json> = Vec::new();
    let mut i: usize = 0;
    assert(items_view(items@) =~= all.take(0));
    while i < list.len()
        invariant
            i <= list@.len(),
            all == texts(list@).map_values(|text: Seq<char>| JsonView::Text(text)),
            items_view(items@) == all.take(i as int),
        decreases list@.len() - i,
    {
        let item = Json::string(list[i].as_str());
        proof {
            lemma_items_push(items@, item);
            assert(all.take(i as int).push(item@) =~= all.take(i + 1));
        }
        items.push(item);
        i += 1;
    }
    assert(all.take(i as int) =~= all);
    Json::Array(items)
}

/// The stats that are asked for.
pub open spec fn keys_view(stats: Option<Vec<String>>) -> Option<Seq<Seq<char>>> {
    match stats {
        Some(keys) => Some(texts(keys@)),
        None => None,
    }
}

/// The requests of a run, in order, as lines.
fn request_lines(xml: &str, stats: &Option<Vec<String>>) -> (lines: (String, String, String))
    ensures
        lines.0@ == printed(requests(xml@, keys_view(*stats))[0]),
        lines.1@ == printed(requests(xml@, keys_view(*stats))[1]),
        lines.2@ == printed(requests(xml@, keys_view(*stats))[2]),
{
    let version = Json::object().with("id", Json::Unsigned(1)).with("cmd", Json::string("version"));
    let load = Json::object().with("id", Json::Unsigned(2)).with(
        "cmd",
        Json::string("loadXML"),
    ).with("xml", Json::string(xml)).with("name", Json::string("exile"));
    let mut read = Json::object().with("id", Json::Unsigned(3)).with("cmd", Json::string("stats"));
    if let Some(keys) = stats {
        read = read.with("keys", texts_value(keys));
    }
    (version.to_string(), load.to_string(), read.to_string())
}

/// Talk to an engine: one run of a build. What it replied comes back as a
/// ghost.
pub fn converse(engine: &mut Box<dyn Engine>, xml: &str, stats: &Option<Vec<String>>) -> (run: (
    Result<Computed, String>,
    Ghost<Seq<Fetched>>,
))
    ensures
        is_conversation(run.1@),
        run_view(run.0) == conversed(run.1@),
        old(engine).may_hear(exchanges(xml@, keys_view(*stats), run.1@)),
        forall|log: Log| #[trigger]
            final(engine).may_hear(log) ==> old(engine).may_hear(
                exchanges(xml@, keys_view(*stats), run.1@) + log,
            ),
{
    let (version_line, load_line, stats_line) = request_lines(xml, stats);
    let ghost keys = keys_view(*stats);
    let ghost start = |log: Log| engine.may_hear(log);
    let ghost none: Seq<Fetched> = seq![];
    proof {
        assert forall|log: Log| #[trigger] start(log) implies start(
            exchanges(xml@, keys, none) + log,
        ) by {
            assert(exchanges(xml@, keys, none) + log =~= log);
        }
    }
    let reply = engine.request(version_line.as_str());
    let ghost first = none.push(fetched(reply));
    let ghost second_start = |log: Log| engine.may_hear(log);
    proof {
        lemma_exchange(start, start, second_start, xml@, keys, none, fetched(reply));
        assert forall|log: Log| #[trigger] engine.may_hear(log) implies start(
            exchanges(xml@, keys, first) + log,
        ) by {
            assert(second_start(log));
        }
    }
    let version = match read_response("version", &reply) {
        Ok(version) => version,
        Err(error) => {
            return (Err(error), Ghost(first));
        },
    };
    let reply = engine.request(load_line.as_str());
    let ghost second = first.push(fetched(reply));
    let ghost third_start = |log: Log| engine.may_hear(log);
    proof {
        lemma_exchange(start, second_start, third_start, xml@, keys, first, fetched(reply));
        assert forall|log: Log| #[trigger] engine.may_hear(log) implies start(
            exchanges(xml@, keys, second) + log,
        ) by {
            assert(third_start(log));
        }
    }
    if let Err(error) = read_response("loadXML", &reply) {
        return (Err(error), Ghost(second));
    }
    let reply = engine.request(stats_line.as_str());
    let ghost third = second.push(fetched(reply));
    let ghost end = |log: Log| engine.may_hear(log);
    proof {
        lemma_exchange(start, third_start, end, xml@, keys, second, fetched(reply));
        assert forall|log: Log| #[trigger] engine.may_hear(log) implies start(
            exchanges(xml@, keys, third) + log,
        ) by {
            assert(end(log));
        }
    }
    match read_response("stats", &reply) {
        Err(error) => (Err(error), Ghost(third)),
        Ok(stats) => {
            let engine_version = version.key("engine").copy();
            (Ok(Computed { engine_version, stats }), Ghost(third))
        },
    }
}

/// One more reply carries on what an engine may be asked since a start.
proof fn lemma_exchange(
    start: spec_fn(Log) -> bool,
    before: spec_fn(Log) -> bool,
    after: spec_fn(Log) -> bool,
    xml: Seq<char>,
    keys: Option<Seq<Seq<char>>>,
    replies: Seq<Fetched>,
    reply: Fetched,
)
    requires
        replies.len() < 3,
        forall|log: Log| #[trigger] before(log) ==> start(exchanges(xml, keys, replies) + log),
        before(seq![(printed(requests(xml, keys)[replies.len() as int]), reply)]),
        forall|log: Log| #[trigger]
            after(log) ==> before(
                seq![(printed(requests(xml, keys)[replies.len() as int]), reply)] + log,
            ),
    ensures
        start(exchanges(xml, keys, replies.push(reply))),
        forall|log: Log| #[trigger]
            after(log) ==> start(exchanges(xml, keys, replies.push(reply)) + log),
{
    let one: Log = seq![(printed(requests(xml, keys)[replies.len() as int]), reply)];
    let all = exchanges(xml, keys, replies.push(reply));
    assert(exchanges(xml, keys, replies) + one =~= all);
    assert forall|log: Log| #[trigger] after(log) implies start(all + log) by {
        assert(before(one + log));
        assert(exchanges(xml, keys, replies) + (one + log) =~= all + log);
    }
}

/// A warm engine, with what it was asked since it was booted.
struct Warm {
    engine: Held<Box<dyn Engine>>,
    past: Ghost<Log>,
}

/// The warm engines, one for each game.
pub struct EngineSlots {
    poe1: Option<Warm>,
    poe2: Option<Warm>,
}

/// What an engine was asked before; nothing, where none is warm.
pub open spec fn asked_before(past: Option<Log>) -> Log {
    match past {
        Some(log) => log,
        None => seq![],
    }
}

/// Whether a run of the build may have come to `run` by the given replies of
/// an engine that was asked `past` before, and is left at `after`.
pub open spec fn may_talk(
    factory: Held<Box<dyn EngineFactory>>,
    dir: Seq<char>,
    past: Option<Log>,
    build: (Seq<char>, Option<Seq<Seq<char>>>),
    replies: Seq<Fetched>,
    run: Run,
    after: Option<Log>,
) -> bool {
    let log = asked_before(past) + exchanges(build.0, build.1, replies);
    &&& is_conversation(replies)
    &&& factory.value.may_hear(dir, log)
    &&& run == conversed(replies)
    &&& after == if run is Ok {
        Some(log)
    } else {
        None
    }
}

/// Whether a run of a build (its XML and the stats that are asked for) may
/// have come to `run`: the factory refused to boot an engine where none was
/// warm, or the engine replied. It is left at `after`: an engine that failed
/// is dropped.
pub open spec fn may_run(
    factory: Held<Box<dyn EngineFactory>>,
    dir: Seq<char>,
    past: Option<Log>,
    build: (Seq<char>, Option<Seq<Seq<char>>>),
    run: Run,
    after: Option<Log>,
) -> bool {
    ||| past is None && run is Err && after is None && factory.value.may_spawn(
        dir,
        Some(run->Err_0),
    )
    ||| (past is Some || factory.value.may_spawn(dir, None)) && exists|replies: Seq<Fetched>|
        #[trigger] may_talk(factory, dir, past, build, replies, run, after)
}

/// What two runs came to, of which the second is made only where the first
/// succeeds.
pub type Comparison = Result<(ComputedView, ComputedView), Seq<char>>;

/// What the values of two runs say.
pub open spec fn comparison_view(runs: Result<(Computed, Computed), String>) -> Comparison {
    match runs {
        Ok((first, second)) => Ok((first@, second@)),
        Err(error) => Err(error@),
    }
}

/// What two runs come to.
pub open spec fn compared(first: Run, second: Run) -> Comparison {
    match first {
        Err(error) => Err(error),
        Ok(first) => match second {
            Err(error) => Err(error),
            Ok(second) => Ok((first, second)),
        },
    }
}

/// Whether two runs may have come to `first` and `second`, one behind the
/// other on one engine, which is at `between` after the first.
pub open spec fn may_run_both(
    factory: Held<Box<dyn EngineFactory>>,
    dir: Seq<char>,
    past: Option<Log>,
    builds: (Seq<char>, Seq<char>, Option<Seq<Seq<char>>>),
    first: Run,
    between: Option<Log>,
    second: Run,
    after: Option<Log>,
) -> bool {
    &&& may_run(factory, dir, past, (builds.0, builds.2), first, between)
    &&& first is Ok ==> may_run(factory, dir, between, (builds.1, builds.2), second, after)
    &&& first is Err ==> after == between
}

/// Whether comparing two builds (their XML, and the stats that are asked for)
/// may have come to `comparison`.
pub open spec fn may_compare_at(
    factory: Held<Box<dyn EngineFactory>>,
    dir: Seq<char>,
    past: Option<Log>,
    builds: (Seq<char>, Seq<char>, Option<Seq<Seq<char>>>),
    comparison: Comparison,
    after: Option<Log>,
) -> bool {
    exists|first: Run, between: Option<Log>, second: Run| #[trigger]
        may_run_both(factory, dir, past, builds, first, between, second, after) && comparison
            == compared(first, second)
}

/// What the engine in a slot was asked before, if one is warm.
spec fn past_of(slot: Option<Warm>) -> Option<Log> {
    match slot {
        Some(warm) => Some(warm.past@),
        None => None,
    }
}

/// Whether what a warm engine will be asked follows on what the factory's
/// engines may be asked.
spec fn follows(slot: Option<Warm>, factory: Held<Box<dyn EngineFactory>>, dir: Seq<char>) -> bool {
    slot is Some ==> forall|log: Log| #[trigger]
        slot->0.engine.value.may_hear(log) ==> factory.value.may_hear(dir, slot->0.past@ + log)
}

/// Run a build on the engine in a slot, booting one where there is none. An
/// engine that fails is dropped, so that the next run boots a fresh one
/// instead of talking to a process that is out of step.
fn run_in_slot(
    slot: &mut Option<Warm>,
    factory: &Held<Box<dyn EngineFactory>>,
    dir: &str,
    xml: &str,
    stats: &Option<Vec<String>>,
) -> (run: Result<Computed, String>)
    requires
        follows(*old(slot), *factory, dir@),
    ensures
        follows(*final(slot), *factory, dir@),
        may_run(
            *factory,
            dir@,
            past_of(*old(slot)),
            (xml@, keys_view(*stats)),
            run_view(run),
            past_of(*final(slot)),
        ),
{
    let ghost past = past_of(*slot);
    let mut warm = match slot.take() {
        Some(warm) => warm,
        None => match factory.value.spawn(dir) {
            Ok(engine) => {
                let engine = hold(engine);
                proof {
                    assert forall|log: Log| #[trigger]
                        engine.value.may_hear(log) implies factory.value.may_hear(
                        dir@,
                        asked_before(past) + log,
                    ) by {
                        assert(asked_before(past) + log =~= log);
                    }
                }
                Warm { engine, past: Ghost(asked_before(past)) }
            },
            Err(refusal) => {
                return Err(refusal);
            },
        },
    };
    let ghost begun = warm.engine.value;
    let (run, Ghost(replies)) = converse(&mut warm.engine.value, xml, stats);
    let ghost said = exchanges(xml@, keys_view(*stats), replies);
    let ghost log = warm.past@ + said;
    proof {
        assert forall|more: Log| #[trigger]
            warm.engine.value.may_hear(more) implies factory.value.may_hear(dir@, log + more) by {
            assert(begun.may_hear(said + more));
            assert(warm.past@ + (said + more) =~= log + more);
        }
    }
    if run.is_ok() {
        *slot = Some(Warm { engine: warm.engine, past: Ghost(log) });
    }
    assert(may_talk(
        *factory,
        dir@,
        past,
        (xml@, keys_view(*stats)),
        replies,
        run_view(run),
        past_of(*slot),
    ));
    run
}

impl EngineSlots {
    /// What the warm engine of a game was asked since it was booted; `None`
    /// where no engine is warm.
    pub closed spec fn past(&self, game: Game) -> Option<Log> {
        match game {
            Game::Poe1 => past_of(self.poe1),
            Game::Poe2 => past_of(self.poe2),
        }
    }

    /// Whether the warm engines are those of a factory, each of its own
    /// directory below the root.
    pub closed spec fn come_from(
        &self,
        factory: Held<Box<dyn EngineFactory>>,
        root: Seq<char>,
    ) -> bool {
        &&& follows(self.poe1, factory, engine_dir(root, Game::Poe1))
        &&& follows(self.poe2, factory, engine_dir(root, Game::Poe2))
    }

    /// No warm engines.
    pub fn new() -> (slots: Self)
        ensures
            slots.past(Game::Poe1) is None,
            slots.past(Game::Poe2) is None,
            forall|factory: Held<Box<dyn EngineFactory>>, root: Seq<char>| #[trigger]
                slots.come_from(factory, root),
    {
        EngineSlots { poe1: None, poe2: None }
    }

    /// Run a build on the warm engine of a game, booting one where there is
    /// none. The engine stays warm if and only if the run succeeds; the other
    /// game's is not touched.
    pub fn run(
        &mut self,
        factory: &Held<Box<dyn EngineFactory>>,
        root: &str,
        game: Game,
        xml: &str,
        stats: &Option<Vec<String>>,
    ) -> (run: Result<Computed, String>)
        requires
            old(self).come_from(*factory, root@),
        ensures
            final(self).come_from(*factory, root@),
            may_run(
                *factory,
                engine_dir(root@, game),
                old(self).past(game),
                (xml@, keys_view(*stats)),
                run_view(run),
                final(self).past(game),
            ),
            forall|other: Game|
                other != game ==> #[trigger] final(self).past(other) == old(self).past(other),
    {
        let dir = dir_of(root, game);
        match game {
            Game::Poe1 => run_in_slot(&mut self.poe1, factory, dir.as_str(), xml, stats),
            Game::Poe2 => run_in_slot(&mut self.poe2, factory, dir.as_str(), xml, stats),
        }
    }

    /// Run two builds, one behind the other, on the one warm engine of a game.
    /// The second is run only where the first succeeds.
    pub fn compare(
        &mut self,
        factory: &Held<Box<dyn EngineFactory>>,
        root: &str,
        game: Game,
        xml: &str,
        modified: &str,
        stats: &Option<Vec<String>>,
    ) -> (runs: Result<(Computed, Computed), String>)
        requires
            old(self).come_from(*factory, root@),
        ensures
            final(self).come_from(*factory, root@),
            may_compare_at(
                *factory,
                engine_dir(root@, game),
                old(self).past(game),
                (xml@, modified@, keys_view(*stats)),
                comparison_view(runs),
                final(self).past(game),
            ),
            forall|other: Game|
                other != game ==> #[trigger] final(self).past(other) == old(self).past(other),
    {
        let ghost dir = engine_dir(root@, game);
        let ghost builds = (xml@, modified@, keys_view(*stats));
        let ghost past = self.past(game);
        let first = self.run(factory, root, game, xml, stats);
        let ghost one = run_view(first);
        let ghost between = self.past(game);
        let first = match first {
            Ok(first) => first,
            Err(error) => {
                assert(may_run_both(*factory, dir, past, builds, one, between, one, between));
                return Err(error);
            },
        };
        let second = self.run(factory, root, game, modified, stats);
        let ghost two = run_view(second);
        assert(may_run_both(
            *factory,
            dir,
            past,
            builds,
            one,
            between,
            two,
            self.past(game),
        ));
        match second {
            Ok(second) => Ok((first, second)),
            Err(error) => Err(error),
        }
    }
}

/// The directory of a game's engine below the root of all.
pub open spec fn engine_dir(root: Seq<char>, game: Game) -> Seq<char> {
    if root.len() == 0 || root.last() == '/' {
        root + game_id(game)
    } else {
        root + "/"@ + game_id(game)
    }
}

/// The directory of a game's engine below the root of all.
pub fn dir_of(root: &str, game: Game) -> (dir: String)
    ensures
        dir@ == engine_dir(root@, game),
{
    let len: usize = root.unicode_len();
    let mut dir = root.to_owned();
    if len > 0 && root.get_char(len - 1) != '/' {
        dir.append("/");
    }
    dir.append(game.as_str());
    dir
}

/// That the warm engines are those of a factory.
pub struct Booted {
    factory: Ghost<Held<Box<dyn EngineFactory>>>,
    root: Ghost<Seq<char>>,
}

impl RwLockPredicate<EngineSlots> for Booted {
    closed spec fn inv(self, slots: EngineSlots) -> bool {
        slots.come_from(self.factory@, self.root@)
    }
}

/// Shared engine supervisor: one warm headless child per game, used by every
/// tool that computes builds, so that several of them still boot each engine
/// at most once.
pub struct EngineHost {
    factory: Held<Box<dyn EngineFactory>>,
    engines: RwLock<EngineSlots, Booted>,
    root: String,
}

impl EngineHost {
    #[verifier::type_invariant]
    closed spec fn guards_engines(&self) -> bool {
        &&& self.engines.pred().factory@ == self.factory
        &&& self.engines.pred().root@ == self.root@
    }

    /// What boots engines.
    pub closed spec fn boots(&self) -> Held<Box<dyn EngineFactory>> {
        self.factory
    }

    /// The root of the checkouts.
    pub closed spec fn checkouts(&self) -> Seq<char> {
        self.root@
    }

    /// Host over an engine factory; engine checkouts are expected under
    /// `root`. Nothing is booted before the first run.
    pub fn with_factory(factory: Box<dyn EngineFactory>, root: String) -> (host: Self)
        ensures
            host.boots().value == factory,
            host.checkouts() == root@,
    {
        let factory = hold(factory);
        let slots = EngineSlots::new();
        let ghost booted = Booted { factory: Ghost(factory), root: Ghost(root@) };
        assert(booted.inv(slots));
        let engines = RwLock::<EngineSlots, Booted>::new(slots, Ghost(booted));
        EngineHost { factory, engines, root }
    }

    /// Whether running a build (its XML and the stats that are asked for) may
    /// come to `run`.
    pub open spec fn may_compute(
        &self,
        game: Game,
        build: (Seq<char>, Option<Seq<Seq<char>>>),
        run: Run,
    ) -> bool {
        exists|past: Option<Log>, after: Option<Log>|
            #[trigger] may_run(
                self.boots(),
                engine_dir(self.checkouts(), game),
                past,
                build,
                run,
                after,
            )
    }

    /// Run a build on the engine of a game.
    pub fn compute(&self, game: Game, xml: &str, stats: &Option<Vec<String>>) -> (run: Result<
        Computed,
        String,
    >)
        ensures
            self.may_compute(game, (xml@, keys_view(*stats)), run_view(run)),
    {
        proof {
            use_type_invariant(self);
        }
        let (slots, handle) = self.engines.acquire_write();
        let mut slots = slots;
        let ghost past = slots.past(game);
        let run = slots.run(&self.factory, self.root.as_str(), game, xml, stats);
        let ghost after = slots.past(game);
        handle.release_write(slots);
        assert(may_run(
            self.boots(),
            engine_dir(self.checkouts(), game),
            past,
            (xml@, keys_view(*stats)),
            run_view(run),
            after,
        ));
        run
    }
}

impl EngineHost {
    /// Whether comparing two builds (their XML, and the stats that are asked
    /// for) may come to `comparison`.
    pub open spec fn may_compare(
        &self,
        game: Game,
        builds: (Seq<char>, Seq<char>, Option<Seq<Seq<char>>>),
        comparison: Comparison,
    ) -> bool {
        exists|past: Option<Log>, after: Option<Log>|
            #[trigger] may_compare_at(
                self.boots(),
                engine_dir(self.checkouts(), game),
                past,
                builds,
                comparison,
                after,
            )
    }

    /// Run two builds, one behind the other, on the one engine of a game.
    pub fn compare(
        &self,
        game: Game,
        xml: &str,
        modified: &str,
        stats: &Option<Vec<String>>,
    ) -> (runs: Result<(Computed, Computed), String>)
        ensures
            self.may_compare(
                game,
                (xml@, modified@, keys_view(*stats)),
                comparison_view(runs),
            ),
    {
        proof {
            use_type_invariant(self);
        }
        let (slots, handle) = self.engines.acquire_write();
        let mut slots = slots;
        let ghost past = slots.past(game);
        let runs = slots.compare(&self.factory, self.root.as_str(), game, xml, modified, stats);
        let ghost after = slots.past(game);
        handle.release_write(slots);
        assert(may_compare_at(
            self.boots(),
            engine_dir(self.checkouts(), game),
            past,
            (xml@, modified@, keys_view(*stats)),
            comparison_view(runs),
            after,
        ));
        runs
    }
}

/// A run that succeeds has handed the build to the engine: of its three
/// requests the first asks for the version, the second holds the XML, and the
/// third asks for the stats.
pub proof fn law_a_run_loads_the_build(
    factory: Held<Box<dyn EngineFactory>>,
    dir: Seq<char>,
    past: Option<Log>,
    build: (Seq<char>, Option<Seq<Seq<char>>>),
    run: Run,
    after: Option<Log>,
)
    requires
        may_run(factory, dir, past, build, run, after),
        run is Ok,
    ensures
        after is Some,
        after->0.len() == asked_before(past).len() + 3,
        after->0.take(asked_before(past).len() as int) == asked_before(past),
        after->0[asked_before(past).len() as int].0 == printed(requests(build.0, build.1)[0]),
        after->0[(asked_before(past).len() + 1) as int].0 == printed(requests(build.0, build.1)[1]),
        after->0[(asked_before(past).len() + 2) as int].0 == printed(requests(build.0, build.1)[2]),
        factory.value.may_hear(dir, after->0),
{
    let replies = choose|replies: Seq<Fetched>| #[trigger]
        may_talk(factory, dir, past, build, replies, run, after);
    assert(may_talk(factory, dir, past, build, replies, run, after));
    assert(replies.len() == 3);
    assert(after->0.take(asked_before(past).len() as int) =~= asked_before(past));
}

/// The request lines of a log, from a position on.
pub open spec fn asked_from(log: Log, from: int) -> Seq<Seq<char>> {
    log.skip(from).map_values(|exchange: (Seq<char>, Fetched)| exchange.0)
}

/// A comparison that succeeds asks one engine six times: for the version, the
/// build and the stats, first of the one build, then of the other.
pub proof fn law_a_comparison_asks_one_engine(
    factory: Held<Box<dyn EngineFactory>>,
    dir: Seq<char>,
    past: Option<Log>,
    builds: (Seq<char>, Seq<char>, Option<Seq<Seq<char>>>),
    comparison: Comparison,
    after: Option<Log>,
)
    requires
        may_compare_at(factory, dir, past, builds, comparison, after),
        comparison is Ok,
    ensures
        after is Some,
        after->0.take(asked_before(past).len() as int) == asked_before(past),
        asked_from(after->0, asked_before(past).len() as int) == seq![
            printed(requests(builds.0, builds.2)[0]),
            printed(requests(builds.0, builds.2)[1]),
            printed(requests(builds.0, builds.2)[2]),
            printed(requests(builds.1, builds.2)[0]),
            printed(requests(builds.1, builds.2)[1]),
            printed(requests(builds.1, builds.2)[2]),
        ],
        factory.value.may_hear(dir, after->0),
{
    let (first, between, second) = choose|first: Run, between: Option<Log>, second: Run| #[trigger]
        may_run_both(factory, dir, past, builds, first, between, second, after) && comparison
            == compared(first, second);
    law_a_run_loads_the_build(factory, dir, past, (builds.0, builds.2), first, between);
    law_a_run_loads_the_build(factory, dir, between, (builds.1, builds.2), second, after);
    let n = asked_before(past).len() as int;
    let log = after->0;
    let middle = between->0;
    assert forall|k: int| 0 <= k < middle.len() implies #[trigger] log[k] == middle[k] by {
        assert(log.take(middle.len() as int)[k] == middle[k]);
    }
    assert(log.take(n) =~= middle.take(n));
    assert(asked_from(log, n) =~= seq![
        printed(requests(builds.0, builds.2)[0]),
        printed(requests(builds.0, builds.2)[1]),
        printed(requests(builds.0, builds.2)[2]),
        printed(requests(builds.1, builds.2)[0]),
        printed(requests(builds.1, builds.2)[1]),
        printed(requests(builds.1, builds.2)[2]),
    ]);
}

/// One run of a history.
pub ghost struct RunRecord {
    /// The game.
    pub game: Game,
    /// The build's XML, and the stats that were asked for.
    pub build: (Seq<char>, Option<Seq<Seq<char>>>),
    /// What it came to.
    pub run: Run,
}

/// Whether the runs were made one behind the other on engines that began cold,
/// with the states of the slots before and behind each of them.
pub open spec fn is_history(
    factory: Held<Box<dyn EngineFactory>>,
    root: Seq<char>,
    runs: Seq<RunRecord>,
    states: Seq<EngineSlots>,
) -> bool {
    &&& states.len() == runs.len() + 1
    &&& states[0].past(Game::Poe1) is None && states[0].past(Game::Poe2) is None
    &&& forall|i: int|
        0 <= i < runs.len() ==> {
            &&& may_run(
                factory,
                engine_dir(root, (#[trigger] runs[i]).game),
                states[i].past(runs[i].game),
                runs[i].build,
                runs[i].run,
                states[i + 1].past(runs[i].game),
            )
            &&& forall|other: Game|
                other != runs[i].game ==> #[trigger] states[i + 1].past(other) == states[i].past(
                    other,
                )
        }
}

/// The latest of the first `n` runs that was of a game, if any.
pub open spec fn latest_run(runs: Seq<RunRecord>, game: Game, n: nat) -> Option<int>
    decreases n,
{
    if n == 0 {
        None
    } else if runs[n - 1].game == game {
        Some(n - 1)
    } else {
        latest_run(runs, game, (n - 1) as nat)
    }
}

/// Over any history, an engine of a game is warm if and only if the latest run
/// of that game succeeded; runs of the other game do not matter. So a run asks
/// the factory for an engine if and only if there was none of the game before
/// or the latest one failed; then a refusal is what it comes to, and an engine
/// that boots has been asked nothing but this run.
pub proof fn law_engines_are_booted_when_needed(
    factory: Held<Box<dyn EngineFactory>>,
    root: Seq<char>,
    runs: Seq<RunRecord>,
    states: Seq<EngineSlots>,
    n: int,
)
    requires
        is_history(factory, root, runs, states),
        0 <= n <= runs.len(),
    ensures
        forall|game: Game| #[trigger]
            states[n].past(game) is Some <==> latest_run(runs, game, n as nat) is Some
                && runs[latest_run(runs, game, n as nat)->0].run is Ok,
        forall|game: Game| #[trigger]
            states[n].past(game) is Some ==> states[n].past(game) == states[latest_run(
                runs,
                game,
                n as nat,
            )->0 + 1].past(game),
        n < runs.len() && states[n].past(runs[n].game) is None ==> {
            ||| runs[n].run is Err && factory.value.may_spawn(
                engine_dir(root, runs[n].game),
                Some(runs[n].run->Err_0),
            )
            ||| factory.value.may_spawn(engine_dir(root, runs[n].game), None) && exists|
                replies: Seq<Fetched>,
            | #[trigger]
                is_conversation(replies) && runs[n].run == conversed(replies)
                    && factory.value.may_hear(
                    engine_dir(root, runs[n].game),
                    exchanges(runs[n].build.0, runs[n].build.1, replies),
                )
        },
        n < runs.len() && states[n].past(runs[n].game) is Some ==> exists|replies: Seq<Fetched>|
            #[trigger]
            is_conversation(replies) && runs[n].run == conversed(replies) && factory.value.may_hear(
                engine_dir(root, runs[n].game),
                states[n].past(runs[n].game)->0 + exchanges(
                    runs[n].build.0,
                    runs[n].build.1,
                    replies,
                ),
            ),
    decreases n,
{
    if n > 0 {
        law_engines_are_booted_when_needed(factory, root, runs, states, n - 1);
        let last = runs[n - 1];
        assert(may_run(
            factory,
            engine_dir(root, last.game),
            states[n - 1].past(last.game),
            last.build,
            last.run,
            states[n - 1 + 1].past(last.game),
        ));
        law_a_failed_run_drops_the_engine(
            factory,
            engine_dir(root, last.game),
            states[n - 1].past(last.game),
            last.build,
            last.run,
            states[n].past(last.game),
        );
        assert forall|game: Game| #[trigger]
            states[n].past(game) is Some <==> latest_run(runs, game, n as nat) is Some
                && runs[latest_run(runs, game, n as nat)->0].run is Ok by {
            if game != last.game {
                assert(states[n - 1 + 1].past(game) == states[n - 1].past(game));
            }
        }
        assert forall|game: Game| #[trigger] states[n].past(game) is Some implies states[n].past(
            game,
        ) == states[latest_run(runs, game, n as nat)->0 + 1].past(game) by {
            if game != last.game {
                assert(states[n - 1 + 1].past(game) == states[n - 1].past(game));
                assert(states[n - 1].past(game) is Some);
            }
        }
    } else {
        assert forall|game: Game| #[trigger] states[0].past(game) is None by {
            match game {
                Game::Poe1 => {},
                Game::Poe2 => {},
            }
        }
    }
    if n < runs.len() {
        let next = runs[n];
        let dir = engine_dir(root, next.game);
        let past = states[n].past(next.game);
        let after = states[n + 1].past(next.game);
        assert(may_run(factory, dir, past, next.build, next.run, after));
        if exists|replies: Seq<Fetched>| #[trigger]
            may_talk(factory, dir, past, next.build, replies, next.run, after) {
            let replies = choose|replies: Seq<Fetched>| #[trigger]
                may_talk(factory, dir, past, next.build, replies, next.run, after);
            assert(is_conversation(replies));
            assert(seq![] + exchanges(next.build.0, next.build.1, replies) =~= exchanges(
                next.build.0,
                next.build.1,
                replies,
            ));
        }
    }
}

/// A reply that does not say `ok` fails the run, with the engine's own error
/// where it states one.
pub proof fn law_engine_errors_are_reported(
    command: Seq<char>,
    line: Seq<char>,
    response: JsonView,
)
    requires
        at_key(response, "ok"@) != JsonView::Bool(true),
        parsed(line) is Ok,
        parsed(line)->Ok_0 == response,
    ensures
        answered(command, Ok(line)) is Err,
        text_in(at_key(response, "error"@)) matches Some(error) ==> answered(
            command,
            Ok(line),
        )->Err_0 == "engine rejected "@ + printed(JsonView::Text(command)) + ": "@ + error,
{
}

/// A failed run leaves no engine behind: the next one boots afresh.
pub proof fn law_a_failed_run_drops_the_engine(
    factory: Held<Box<dyn EngineFactory>>,
    dir: Seq<char>,
    past: Option<Log>,
    build: (Seq<char>, Option<Seq<Seq<char>>>),
    run: Run,
    after: Option<Log>,
)
    requires
        may_run(factory, dir, past, build, run, after),
    ensures
        after is None <==> run is Err,
{
}

/// A run makes three requests, numbered in their order: for the version, to
/// load the build, which is sent as it is, and for the stats, those that were
/// asked for or all.
pub proof fn law_requests_say_what_is_asked(xml: Seq<char>, stats: Option<Seq<Seq<char>>>)
    ensures
        ({
            let asked = requests(xml, stats);
            &&& asked.len() == 3
            &&& at_key(asked[0], "id"@) == JsonView::Unsigned(1)
            &&& at_key(asked[0], "cmd"@) == JsonView::Text("version"@)
            &&& at_key(asked[1], "id"@) == JsonView::Unsigned(2)
            &&& at_key(asked[1], "cmd"@) == JsonView::Text("loadXML"@)
            &&& at_key(asked[1], "xml"@) == JsonView::Text(xml)
            &&& at_key(asked[1], "name"@) == JsonView::Text("exile"@)
            &&& at_key(asked[2], "id"@) == JsonView::Unsigned(3)
            &&& at_key(asked[2], "cmd"@) == JsonView::Text("stats"@)
            &&& stats is None ==> member(asked[2], "keys"@) is None
            &&& stats matches Some(keys) ==> {
                &&& at_key(asked[2], "keys"@) is Array
                &&& at_key(asked[2], "keys"@)->Array_0.len() == keys.len()
                &&& forall|i: int|
                    0 <= i < keys.len() ==> at_key(asked[2], "keys"@)->Array_0[i]
                        == JsonView::Text(#[trigger] keys[i])
            }
        }),
{
    reveal_strlit("id");
    reveal_strlit("cmd");
    reveal_strlit("xml");
    reveal_strlit("name");
    reveal_strlit("keys");
    assert("id"@.len() == 2);
    assert("cmd"@.len() == 3);
    assert("xml"@.len() == 3);
    assert("name"@.len() == 4);
    assert("keys"@.len() == 4);
    assert("cmd"@[0] != "xml"@[0]);
    assert("name"@[0] != "keys"@[0]);
}

/// What the engine answers counts as an answer exactly where it says that all
/// went well, and is then its result.
pub proof fn law_answers_are_results(command: Seq<char>, line: Seq<char>)
    ensures
        answered(command, Ok(line)) is Ok <==> parsed(line) is Ok && at_key(
            parsed(line)->Ok_0,
            "ok"@,
        ) == JsonView::Bool(true),
        answered(command, Ok(line)) matches Ok(result) ==> result == at_key(
            parsed(line)->Ok_0,
            "result"@,
        ),
        forall|error: Seq<char>| #[trigger]
            answered(command, Err(error)) == Err::<JsonView, Seq<char>>(error),
{
}

/// A run that went well tells the version that the first answer names and the
/// stats that the third answer holds; one that did not tells the fault of the
/// answer that it stopped at.
pub proof fn law_runs_tell_what_the_engine_answered(replies: Seq<Fetched>)
    requires
        is_conversation(replies),
    ensures
        conversed(replies) matches Ok(computed) ==> {
            &&& replies.len() == 3
            &&& replies[0] is Ok && replies[1] is Ok && replies[2] is Ok
            &&& computed.engine_version == at_key(
                at_key(parsed(replies[0]->Ok_0)->Ok_0, "result"@),
                "engine"@,
            )
            &&& computed.stats == at_key(parsed(replies[2]->Ok_0)->Ok_0, "result"@)
        },
        replies.last() matches Err(error) ==> conversed(replies) == Err::<
            ComputedView,
            Seq<char>,
        >(error),
        (exists|i: int|
            #![trigger replies[i]]
            0 <= i < replies.len() && (replies[i] is Err || parsed(replies[i]->Ok_0) is Err
                || at_key(parsed(replies[i]->Ok_0)->Ok_0, "ok"@) != JsonView::Bool(true)))
            ==> conversed(replies) is Err,
{
    assert(commands()[0] == "version"@);
    if exists|i: int|
        #![trigger replies[i]]
        0 <= i < replies.len() && (replies[i] is Err || parsed(replies[i]->Ok_0) is Err || at_key(
            parsed(replies[i]->Ok_0)->Ok_0,
            "ok"@,
        ) != JsonView::Bool(true)) {
        let i = choose|i: int|
            #![trigger replies[i]]
            0 <= i < replies.len() && (replies[i] is Err || parsed(replies[i]->Ok_0) is Err
                || at_key(parsed(replies[i]->Ok_0)->Ok_0, "ok"@) != JsonView::Bool(true));
        assert(answered(commands()[i], replies[i]) is Err);
    }
    if conversed(replies) is Ok {
        assert(answered(commands()[0], replies[0]) is Ok);
        assert(answered(commands()[1], replies[1]) is Ok);
    }
}

/// A comparison is that of the two runs, the first one's first, and fails with
/// the fault of the first run that does.
pub proof fn law_comparisons_keep_their_order(first: Run, second: Run)
    ensures
        first is Ok && second is Ok ==> compared(first, second) == Ok::<
            (ComputedView, ComputedView),
            Seq<char>,
        >((first->Ok_0, second->Ok_0)),
        first matches Err(error) ==> compared(first, second) == Err::<
            (ComputedView, ComputedView),
            Seq<char>,
        >(error),
        first is Ok && second is Err ==> compared(first, second) == Err::<
            (ComputedView, ComputedView),
            Seq<char>,
        >(second->Err_0),
{
}

/// Each game's engine has a checkout of its own, below the root and named like
/// the game.
pub proof fn law_games_have_their_own_checkouts(root: Seq<char>)
    ensures
        root.len() > 0 && root.last() != '/' ==> engine_dir(root, Game::Poe1) == root + seq!['/']
            + "poe1"@ && engine_dir(root, Game::Poe2) == root + seq!['/'] + "poe2"@,
        root.len() > 0 && root.last() == '/' ==> engine_dir(root, Game::Poe1) == root + "poe1"@
            && engine_dir(root, Game::Poe2) == root + "poe2"@,
        engine_dir(root, Game::Poe1) != engine_dir(root, Game::Poe2),
{
    reveal_strlit("poe1");
    reveal_strlit("poe2");
    assert("poe1"@.len() == 4);
    assert("poe2"@.len() == 4);
    assert("poe1"@[3] != "poe2"@[3]);
    reveal_strlit("/");
    assert("/"@ =~= seq!['/']);
    assert(engine_dir(root, Game::Poe1).last() == '1');
    assert(engine_dir(root, Game::Poe2).last() == '2');
}

/// Each of the hexadecimal digits of a number is one of the sixteen, the last
/// one tells the remainder by sixteen, and those in front tell the quotient.
pub proof fn law_hexadecimal_digits(n: nat, digits: nat)
    requires
        digits > 0,
    ensures
        hex_text(n, digits).len() == digits,
        hex_text(n, digits).drop_last() == hex_text(n / 16, (digits - 1) as nat),
        n % 16 < 10 ==> hex_text(n, digits).last() as int == '0' as int + n % 16,
        n % 16 >= 10 ==> hex_text(n, digits).last() as int == 'a' as int + n % 16 - 10,
    decreases digits,
{
    if digits > 1 {
        law_hexadecimal_digits(n / 16, (digits - 1) as nat);
    } else {
        assert(hex_text(n / 16, 0).len() == 0);
    }
    assert(hex_text(n, digits).drop_last() =~= hex_text(n / 16, (digits - 1) as nat));
}

/// A checksum is a number of thirty-two bits; that of nothing is zero, and one
/// byte more makes it thirty-one times what it was, and the byte.
pub proof fn law_checksums_run_on(bytes: Seq<u8>, byte: u8)
    ensures
        checksum(seq![]) == 0,
        checksum(bytes.push(byte)) == (31 * checksum(bytes) + byte as nat) % 4294967296,
        checksum(bytes.push(byte)) < 4294967296,
{
    assert(bytes.push(byte).drop_last() =~= bytes);
}

/// What the engine says that is no JSON is told, with why it is none.
pub proof fn law_other_speech_is_told(command: Seq<char>, line: Seq<char>, response: JsonView)
    ensures
        parsed(line) matches Err(error) ==> answered(command, Ok(line)) == Err::<
            JsonView,
            Seq<char>,
        >("engine spoke non-JSON: "@ + error + ": "@ + line),
        at_key(response, "ok"@) != JsonView::Bool(true) && !(at_key(response, "error"@) is Text)
            ==> answered_json(command, line, response) == Err::<JsonView, Seq<char>>(
            "engine rejected "@ + printed(JsonView::Text(command)) + ": "@ + line,
        ),
{
}

/// A conversation stops at the first answer that is none, and else has all
/// three: the version, the build, the stats.
pub proof fn law_conversations_stop_at_the_first_fault(replies: Seq<Fetched>, i: int)
    requires
        is_conversation(replies),
        0 <= i < replies.len(),
    ensures
        1 <= replies.len() <= 3,
        answered(commands()[i], replies[i]) is Err ==> i == replies.len() - 1,
        replies.len() < 3 ==> conversed(replies) is Err,
        commands().len() == 3,
        commands()[0] == "version"@ && commands()[1] == "loadXML"@ && commands()[2] == "stats"@,
{
    if i < replies.len() - 1 {
        assert(answered(commands()[i], replies[i]) is Ok);
    }
}

/// Without a root, a game's checkout is the directory that is named like it.
pub proof fn law_checkouts_without_a_root(root: Seq<char>)
    requires
        root.len() == 0,
    ensures
        engine_dir(root, Game::Poe1) == "poe1"@,
        engine_dir(root, Game::Poe2) == "poe2"@,
{
    assert(engine_dir(root, Game::Poe1) =~= "poe1"@);
    assert(engine_dir(root, Game::Poe2) =~= "poe2"@);
}

/// What counts as a conversation: a first answer that is none, a second one
/// behind an answer, or a third one behind two.
pub proof fn law_what_a_conversation_is(first: Fetched, second: Fetched, third: Fetched)
    ensures
        answered("version"@, first) is Err ==> is_conversation(seq![first]),
        answered("version"@, first) is Ok && answered("loadXML"@, second) is Err
            ==> is_conversation(seq![first, second]),
        answered("version"@, first) is Ok && answered("loadXML"@, second) is Ok ==> is_conversation(
            seq![first, second, third],
        ),
        answered("version"@, first) is Ok ==> !is_conversation(seq![first]),
        answered("version"@, first) is Ok && answered("loadXML"@, second) is Ok
            ==> !is_conversation(seq![first, second]),
{
    assert(commands()[0] == "version"@ && commands()[1] == "loadXML"@);
    let one = seq![first];
    let two = seq![first, second];
    let three = seq![first, second, third];
    assert(one[0] == first && two[0] == first && two[1] == second);
    assert(three[0] == first && three[1] == second);
}

}
