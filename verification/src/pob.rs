//! Build calculations: the Path of Building engine as a tool, so that build
//! math never goes through the model.
//!
//! The tools drive stock engine checkouts of both games, headless, over a
//! JSON-lines adapter (see [`crate::engine`]). Share codes are decoded to
//! build XML here (see [`crate::codes`]).

use std::sync::Arc;
use vstd::prelude::*;

use crate::args::{
    argument, find_argument, law_texts_are_read_in_order, maybe_text, maybe_texts, names_view, open_args, opened, optional_text,
    optional_texts, read_game, read_optional_text, read_optional_texts, read_required_texts,
    required_game, required_texts,
};
use crate::build_xml;
use crate::build_xml::{belongs_to, injected, prepared, wrong_game};
use crate::codes;
use crate::codes::decoded;
use crate::engine::{
    comparison_view, keys_view, run_view, texts_json, texts_value, Comparison, Computed, ComputedView,
    EngineHost, Run,
};
use crate::held::{hold, Held};
use crate::json::{
    at_key, float_in, float_of_text, member, members_in, no_members, printed, put, Json, JsonView,
    Real,
};
use crate::text;
use crate::text::{separated, texts, trimmed};
use crate::tool::{answer_of, Answer, Fault, Tool, ToolError};
use crate::toolkit::{game_id, is_stamp, is_stamped, now_utc, Game};

verus! {

/// The arguments that name a build, a game and stats.
#[derive(Debug)]
pub struct BuildArgs {
    /// Which game's engine.
    pub game: Game,
    /// Share code.
    pub code: Option<String>,
    /// Build XML.
    pub xml: Option<String>,
    /// Stat keys to read.
    pub stats: Option<Vec<String>>,
}

/// What [`BuildArgs`] say.
pub ghost struct BuildArgsView {
    /// Which game's engine.
    pub game: Game,
    /// Share code.
    pub code: Option<Seq<char>>,
    /// Build XML.
    pub xml: Option<Seq<char>>,
    /// Stat keys to read.
    pub stats: Option<Seq<Seq<char>>>,
}

impl View for BuildArgs {
    type V = BuildArgsView;

    open spec fn view(&self) -> BuildArgsView {
        BuildArgsView {
            game: self.game,
            code: maybe_text(self.code),
            xml: maybe_text(self.xml),
            stats: maybe_texts(self.stats),
        }
    }
}

/// The names of the arguments of a build lookup, in order. The last one is not
/// taken, but known, so that a call meant for the comparison is sent there.
pub open spec fn pob_names() -> Seq<Seq<char>> {
    seq!["game"@, "code"@, "xml"@, "stats"@, "custom_mods"@]
}

/// The names of the arguments of a comparison, in order.
pub open spec fn whatif_names() -> Seq<Seq<char>> {
    seq!["game"@, "code"@, "xml"@, "custom_mods"@, "stats"@]
}

/// The arguments that name a build, with the stats at position `stats_at`.
pub open spec fn build_args_in(args: JsonView, stats_at: int) -> Result<
    BuildArgsView,
    Seq<char>,
> {
    match required_game(argument(args, "game"@, 0), "game"@) {
        Err(error) => Err(error),
        Ok(game) => match optional_text(argument(args, "code"@, 1), "code"@) {
            Err(error) => Err(error),
            Ok(code) => match optional_text(argument(args, "xml"@, 2), "xml"@) {
                Err(error) => Err(error),
                Ok(xml) => match optional_texts(argument(args, "stats"@, stats_at), "stats"@) {
                    Err(error) => Err(error),
                    Ok(stats) => Ok(BuildArgsView { game, code, xml, stats }),
                },
            },
        },
    }
}

/// The arguments of a build lookup that a text holds.
pub open spec fn pob_args(args_json: Seq<char>) -> Result<BuildArgsView, Seq<char>> {
    match opened(args_json, pob_names(), 1) {
        Err(error) => Err(error),
        Ok(args) => match build_args_in(args, 3) {
            Err(error) => Err(error),
            Ok(build) => match argument(args, "custom_mods"@, 4) {
                None => Ok(build),
                Some(JsonView::Null) => Ok(build),
                Some(_) => Err(
                    "`custom_mods` is not a `pob` argument — call `pob_whatif` to measure hypothetical modifier changes"@,
                ),
            },
        },
    }
}

/// The arguments of a comparison that a text holds: the build and the
/// modifier lines.
pub open spec fn whatif_args(args_json: Seq<char>) -> Result<
    (BuildArgsView, Seq<Seq<char>>),
    Seq<char>,
> {
    match opened(args_json, whatif_names(), 1) {
        Err(error) => Err(error),
        Ok(args) => match build_args_in(args, 4) {
            Err(error) => Err(error),
            Ok(build) => match required_texts(argument(args, "custom_mods"@, 3), "custom_mods"@) {
                Err(error) => Err(error),
                Ok(mods) => Ok((build, mods)),
            },
        },
    }
}

/// The build XML that a code or an XML text gives; exactly one is asked for.
pub open spec fn resolved(code: Option<Seq<char>>, xml: Option<Seq<char>>) -> Result<
    Seq<char>,
    Seq<char>,
> {
    match (code, xml) {
        (Some(code), None) => decoded(code),
        (None, Some(xml)) => if trimmed(xml).len() > 0 {
            Ok(xml)
        } else {
            Err("provide exactly one of `code` or `xml`"@)
        },
        _ => Err("provide exactly one of `code` or `xml`"@),
    }
}

/// A build XML made ready for the engine of a game.
pub open spec fn checked(game: Game, xml: Seq<char>) -> Result<Seq<char>, Seq<char>> {
    match prepared(xml) {
        Err(error) => Err(error),
        Ok(xml) => if belongs_to(game, xml) {
            Ok(xml)
        } else {
            Err(wrong_game(game))
        },
    }
}

/// The build that arguments name, made ready.
pub open spec fn build_of(args: BuildArgsView) -> Result<Seq<char>, Seq<char>> {
    match resolved(args.code, args.xml) {
        Err(error) => Err(error),
        Ok(xml) => checked(args.game, xml),
    }
}

/// The lookup that a text asks for: its arguments, and the build made ready;
/// or why it is refused.
pub open spec fn lookup_planned(args_json: Seq<char>) -> Result<
    (BuildArgsView, Seq<char>),
    Seq<char>,
> {
    match pob_args(args_json) {
        Err(error) => Err(error),
        Ok(args) => match build_of(args) {
            Err(error) => Err(error),
            Ok(xml) => Ok((args, xml)),
        },
    }
}

/// What a comparison is to compare.
pub ghost struct WhatifView {
    /// The arguments that name the build.
    pub args: BuildArgsView,
    /// The modifier lines.
    pub mods: Seq<Seq<char>>,
    /// The build as it is.
    pub xml: Seq<char>,
    /// The build with the lines put in.
    pub modified: Seq<char>,
}

/// The comparison that a text asks for; or why it is refused.
pub open spec fn whatif_planned(args_json: Seq<char>) -> Result<WhatifView, Seq<char>> {
    match whatif_args(args_json) {
        Err(error) => Err(error),
        Ok((args, mods)) => match build_of(args) {
            Err(error) => Err(error),
            Ok(xml) => match injected(args.game, xml, mods) {
                Err(error) => Err(error),
                Ok(modified) => Ok(WhatifView { args, mods, xml, modified }),
            },
        },
    }
}

/// What the engine is called in results.
pub const ENGINE_NAME: &'static str = "Path of Building (headless, stock checkout)";

/// What a build result says of itself.
pub const BUILD_NOTE: &'static str =
    "computed by the Path of Building engine, not estimated; numbers reflect the build's own configuration flags. Cite the engine version.";

/// What a comparison says of itself.
pub const WHATIF_NOTE: &'static str =
    "both runs computed by the Path of Building engine on the same build; `delta` = after − before, precomputed by the tool (null delta = the engine reported a non-numeric value). Cite the engine version.";

/// The head of a result.
pub open spec fn result_head(game: Game, stamp: Seq<char>) -> JsonView {
    put(
        put(no_members(), "game"@, JsonView::Text(game_id(game))),
        "fetched_at"@,
        JsonView::Text(stamp),
    )
}

/// What a build lookup is answered, given the time and what the run came to.
pub open spec fn pob_answer(game: Game, stamp: Seq<char>, run: Run) -> Answer {
    match run {
        Err(error) => Err(Fault::Failed(error)),
        Ok(computed) => {
            let build = put(no_members(), "engine"@, JsonView::Text(ENGINE_NAME@));
            let build = put(build, "engine_version"@, computed.engine_version);
            let build = put(build, "stats"@, computed.stats);
            let build = put(build, "note"@, JsonView::Text(BUILD_NOTE@));
            Ok(printed(put(result_head(game, stamp), "build"@, build)))
        },
    }
}

/// A stat that may be missing, as a number.
pub open spec fn stat_number(stat: Option<JsonView>) -> Option<Seq<char>> {
    match stat {
        Some(value) => float_in(value),
        None => None,
    }
}

/// A stat that may be missing, as it is; `null` where it is.
pub open spec fn stat_value(stat: Option<JsonView>) -> JsonView {
    match stat {
        Some(value) => value,
        None => JsonView::Null,
    }
}

/// `{"before": before, "after": after, "delta": delta}`.
pub open spec fn stat_triple(before: JsonView, after: JsonView, delta: JsonView) -> JsonView {
    put(put(put(no_members(), "before"@, before), "after"@, after), "delta"@, delta)
}

/// How one stat compares. Numbers get the delta; values that the engine
/// reported as something else, or in one run only, are passed through with
/// none.
pub open spec fn stat_entry(
    before: Option<JsonView>,
    after: Option<JsonView>,
    delta: JsonView,
) -> JsonView {
    match (stat_number(before), stat_number(after)) {
        (Some(x), Some(y)) => stat_triple(JsonView::Float(x), JsonView::Float(y), delta),
        _ => stat_triple(stat_value(before), stat_value(after), JsonView::Null),
    }
}

/// How the stats of two runs compare, over the union of their keys, given the
/// deltas of the numbers.
pub open spec fn stats_diff(
    before: JsonView,
    after: JsonView,
    deltas: Map<Seq<char>, JsonView>,
) -> JsonView {
    JsonView::Object(
        Map::new(
            |key: Seq<char>|
                members_in(before).contains_key(key) || members_in(after).contains_key(key),
            |key: Seq<char>| stat_entry(member(before, key), member(after, key), deltas[key]),
        ),
    )
}

/// A delta as a value: a number, or `null` for a text that is none.
pub open spec fn delta_json(delta: Seq<char>) -> JsonView {
    match float_of_text(delta) {
        Some(number) => JsonView::Float(number),
        None => JsonView::Null,
    }
}

/// Whether subtracting one stat from the other, where both are numbers, may
/// have given the delta.
pub open spec fn is_delta(
    math: Held<Box<dyn DeltaMath>>,
    before: Option<JsonView>,
    after: Option<JsonView>,
    delta: JsonView,
) -> bool {
    match (stat_number(before), stat_number(after)) {
        (Some(x), Some(y)) => exists|text: Seq<char>| #[trigger]
            math.value.may_give(x, y, text) && delta == delta_json(text),
        _ => true,
    }
}

/// Whether every delta is that of its stat in the two runs.
pub open spec fn are_deltas(
    math: Held<Box<dyn DeltaMath>>,
    before: JsonView,
    after: JsonView,
    deltas: Map<Seq<char>, JsonView>,
) -> bool {
    forall|key: Seq<char>|
        is_delta(math, member(before, key), member(after, key), #[trigger] deltas[key])
}

/// Those of the first `n` keys that a comparison has nothing on.
pub open spec fn missing_keys(keys: Seq<Seq<char>>, stats: JsonView, n: nat) -> Seq<Seq<char>>
    decreases n,
{
    if n == 0 {
        seq![]
    } else {
        let before = missing_keys(keys, stats, (n - 1) as nat);
        if member(stats, keys[n - 1]) is None {
            before.push(keys[n - 1])
        } else {
            before
        }
    }
}

/// The keys that were asked for and that a comparison has nothing on.
pub open spec fn unknown_keys(keys: Option<Seq<Seq<char>>>, stats: JsonView) -> Seq<Seq<char>> {
    match keys {
        Some(keys) => missing_keys(keys, stats, keys.len()),
        None => seq![],
    }
}

/// What a comparison is answered whose two runs succeeded.
pub open spec fn diff_answer(
    args: BuildArgsView,
    mods: Seq<Seq<char>>,
    stamp: Seq<char>,
    engine_version: JsonView,
    stats: JsonView,
) -> Answer {
    let unknown = unknown_keys(args.stats, stats);
    if unknown.len() > 0 {
        Err(
            Fault::InvalidArgs(
                "unknown stat keys (the engine reported no such stats for this build): "@
                    + separated(unknown, ", "@),
            ),
        )
    } else {
        let out = put(no_members(), "engine"@, JsonView::Text(ENGINE_NAME@));
        let out = put(out, "engine_version"@, engine_version);
        let out = put(out, "custom_mods"@, texts_json(mods));
        let out = put(out, "stats"@, stats);
        let out = put(out, "note"@, JsonView::Text(WHATIF_NOTE@));
        Ok(printed(put(result_head(args.game, stamp), "whatif"@, out)))
    }
}

/// What a comparison is answered, given the time, what the two runs came to
/// and the deltas.
pub open spec fn whatif_answer(
    args: BuildArgsView,
    mods: Seq<Seq<char>>,
    stamp: Seq<char>,
    runs: Comparison,
    deltas: Map<Seq<char>, JsonView>,
) -> Answer {
    match runs {
        Err(error) => Err(Fault::Failed(error)),
        Ok((baseline, changed)) => diff_answer(
            args,
            mods,
            stamp,
            changed.engine_version,
            stats_diff(baseline.stats, changed.stats, deltas),
        ),
    }
}

/// Subtraction of double-precision numbers, with the difference rounded to
/// two decimals so that neither the model nor a reader sees its noise.
pub trait DeltaMath: Send + Sync {
    /// Whether `delta` may be the difference. Of arithmetic that says no more,
    /// any may.
    open spec fn may_give(&self, before: Seq<char>, after: Seq<char>, delta: Seq<char>) -> bool {
        true
    }

    /// `after` minus `before`, rounded to two decimals. The numbers are given
    /// and returned as text.
    fn delta(&self, before: &str, after: &str) -> (delta: String)
        ensures
            self.may_give(before@, after@, delta@),
    ;
}

/// Read the arguments that name a build.
fn read_build_args(args: &Json, stats_at: usize) -> (build: Result<BuildArgs, String>)
    ensures
        match build {
            Ok(build) => build_args_in(args@, stats_at as int) is Ok && build_args_in(
                args@,
                stats_at as int,
            )->Ok_0 == build@,
            Err(error) => build_args_in(args@, stats_at as int) is Err && build_args_in(
                args@,
                stats_at as int,
            )->Err_0 == error@,
        },
{
    let game = match read_game(find_argument(args, "game", 0), "game") {
        Ok(game) => game,
        Err(error) => {
            return Err(error);
        },
    };
    let code = match read_optional_text(find_argument(args, "code", 1), "code") {
        Ok(code) => code,
        Err(error) => {
            return Err(error);
        },
    };
    let xml = match read_optional_text(find_argument(args, "xml", 2), "xml") {
        Ok(xml) => xml,
        Err(error) => {
            return Err(error);
        },
    };
    let stats = match read_optional_texts(find_argument(args, "stats", stats_at), "stats") {
        Ok(stats) => stats,
        Err(error) => {
            return Err(error);
        },
    };
    Ok(BuildArgs { game, code, xml, stats })
}

/// Read the arguments of a build lookup.
pub fn read_pob_args(args_json: &str) -> (build: Result<BuildArgs, String>)
    ensures
        match build {
            Ok(build) => pob_args(args_json@) is Ok && pob_args(args_json@)->Ok_0 == build@,
            Err(error) => pob_args(args_json@) is Err && pob_args(args_json@)->Err_0 == error@,
        },
{
    let names: [&'static str; 5] = ["game", "code", "xml", "stats", "custom_mods"];
    assert(names_view(names@) =~= pob_names());
    let args = match open_args(args_json, &names, 1) {
        Ok(args) => args,
        Err(error) => {
            return Err(error);
        },
    };
    let build = match read_build_args(&args, 3) {
        Ok(build) => build,
        Err(error) => {
            return Err(error);
        },
    };
    if let Some(mods) = find_argument(&args, "custom_mods", 4) {
        if !mods.is_null() {
            return Err(
                "`custom_mods` is not a `pob` argument — call `pob_whatif` to measure hypothetical modifier changes".to_owned(),
            );
        }
    }
    Ok(build)
}

/// Read the arguments of a comparison.
pub fn read_whatif_args(args_json: &str) -> (args: Result<(BuildArgs, Vec<String>), String>)
    ensures
        match args {
            Ok((build, mods)) => whatif_args(args_json@) is Ok && whatif_args(args_json@)->Ok_0
                == (build@, texts(mods@)),
            Err(error) => whatif_args(args_json@) is Err && whatif_args(args_json@)->Err_0
                == error@,
        },
{
    let names: [&'static str; 5] = ["game", "code", "xml", "custom_mods", "stats"];
    assert(names_view(names@) =~= whatif_names());
    let args = match open_args(args_json, &names, 1) {
        Ok(args) => args,
        Err(error) => {
            return Err(error);
        },
    };
    let build = match read_build_args(&args, 4) {
        Ok(build) => build,
        Err(error) => {
            return Err(error);
        },
    };
    match read_required_texts(find_argument(&args, "custom_mods", 3), "custom_mods") {
        Ok(mods) => Ok((build, mods)),
        Err(error) => Err(error),
    }
}

/// Resolve the build XML from a code or an XML text (exactly one).
pub fn resolve_xml(code: &Option<String>, xml: &Option<String>) -> (out: Result<String, String>)
    ensures
        match out {
            Ok(out) => resolved(maybe_text(*code), maybe_text(*xml)) is Ok && resolved(
                maybe_text(*code),
                maybe_text(*xml),
            )->Ok_0 == out@,
            Err(error) => resolved(maybe_text(*code), maybe_text(*xml)) is Err && resolved(
                maybe_text(*code),
                maybe_text(*xml),
            )->Err_0 == error@,
        },
{
    match code {
        Some(code) => match xml {
            None => codes::decode(code.as_str()),
            Some(_) => Err("provide exactly one of `code` or `xml`".to_owned()),
        },
        None => match xml {
            None => Err("provide exactly one of `code` or `xml`".to_owned()),
            Some(xml) => if text::trim(xml.as_str()).is_empty() {
                Err("provide exactly one of `code` or `xml`".to_owned())
            } else {
                Ok(xml.clone())
            },
        },
    }
}

/// Make a build XML ready for the engine of a game.
pub fn check_build(game: Game, xml: &str) -> (out: Result<String, String>)
    ensures
        match out {
            Ok(out) => checked(game, xml@) is Ok && checked(game, xml@)->Ok_0 == out@,
            Err(error) => checked(game, xml@) is Err && checked(game, xml@)->Err_0 == error@,
        },
{
    match build_xml::prepare_xml(xml) {
        Err(error) => Err(error),
        Ok(ready) => match build_xml::check_game_xml(game, ready.as_str()) {
            Ok(()) => Ok(ready),
            Err(error) => Err(error),
        },
    }
}

/// The build that arguments name, made ready.
fn find_build(args: &BuildArgs) -> (out: Result<String, String>)
    ensures
        match out {
            Ok(out) => build_of(args@) is Ok && build_of(args@)->Ok_0 == out@,
            Err(error) => build_of(args@) is Err && build_of(args@)->Err_0 == error@,
        },
{
    match resolve_xml(&args.code, &args.xml) {
        Err(error) => Err(error),
        Ok(xml) => check_build(args.game, xml.as_str()),
    }
}

/// Plan a lookup. No engine is at hand here, so that what is refused here
/// reaches none.
pub fn plan_lookup(args_json: &str) -> (plan: Result<(BuildArgs, String), String>)
    ensures
        match plan {
            Ok((args, xml)) => lookup_planned(args_json@) is Ok && lookup_planned(args_json@)->Ok_0
                == (args@, xml@),
            Err(error) => lookup_planned(args_json@) is Err && lookup_planned(args_json@)->Err_0
                == error@,
        },
{
    match read_pob_args(args_json) {
        Err(error) => Err(error),
        Ok(args) => match find_build(&args) {
            Err(error) => Err(error),
            Ok(xml) => Ok((args, xml)),
        },
    }
}

/// What a comparison is to compare.
#[derive(Debug)]
pub struct WhatifPlan {
    /// The arguments that name the build.
    pub args: BuildArgs,
    /// The modifier lines.
    pub mods: Vec<String>,
    /// The build as it is.
    pub xml: String,
    /// The build with the lines put in.
    pub modified: String,
}

impl View for WhatifPlan {
    type V = WhatifView;

    open spec fn view(&self) -> WhatifView {
        WhatifView {
            args: self.args@,
            mods: texts(self.mods@),
            xml: self.xml@,
            modified: self.modified@,
        }
    }
}

/// Plan a comparison. No engine is at hand here, so that what is refused here
/// reaches none.
pub fn plan_whatif(args_json: &str) -> (plan: Result<WhatifPlan, String>)
    ensures
        match plan {
            Ok(plan) => whatif_planned(args_json@) is Ok && whatif_planned(args_json@)->Ok_0
                == plan@,
            Err(error) => whatif_planned(args_json@) is Err && whatif_planned(args_json@)->Err_0
                == error@,
        },
{
    let (args, mods) = match read_whatif_args(args_json) {
        Ok(args) => args,
        Err(error) => {
            return Err(error);
        },
    };
    let xml = match find_build(&args) {
        Ok(xml) => xml,
        Err(error) => {
            return Err(error);
        },
    };
    match build_xml::inject_custom_mods(args.game, xml.as_str(), &mods) {
        Ok(modified) => Ok(WhatifPlan { args, mods, xml, modified }),
        Err(error) => Err(error),
    }
}

/// Answer a build lookup, given the time and what the run came to.
pub fn answer_build(game: Game, stamp: &str, run: Result<Computed, String>) -> (outcome: Result<
    String,
    ToolError,
>)
    ensures
        answer_of(outcome) == pob_answer(game, stamp@, run_view(run)),
{
    match run {
        Err(error) => Err(ToolError::Failed(error)),
        Ok(computed) => {
            let build = Json::object().with("engine", Json::string(ENGINE_NAME)).with(
                "engine_version",
                computed.engine_version,
            ).with("stats", computed.stats).with("note", Json::string(BUILD_NOTE));
            Ok(
                Json::object().with("game", Json::string(game.as_str())).with(
                    "fetched_at",
                    Json::string(stamp),
                ).with("build", build).to_string(),
            )
        },
    }
}

/// What an optional stat holds.
pub open spec fn stat_held(stat: Option<&Json>) -> Option<JsonView> {
    match stat {
        Some(value) => Some(value@),
        None => None,
    }
}

/// The two numbers of a stat, where both runs reported one.
pub fn number_pair(before: Option<&Json>, after: Option<&Json>) -> (pair: Option<(Real, Real)>)
    ensures
        match pair {
            Some((x, y)) => stat_number(stat_held(before)) == Some(x@) && stat_number(
                stat_held(after),
            ) == Some(y@),
            None => stat_number(stat_held(before)) is None || stat_number(
                stat_held(after),
            ) is None,
        },
{
    match before {
        None => None,
        Some(before) => match after {
            None => None,
            Some(after) => match before.as_float() {
                None => None,
                Some(x) => match after.as_float() {
                    None => None,
                    Some(y) => Some((x, y)),
                },
            },
        },
    }
}

/// How one stat compares, given the delta where both runs reported a number.
pub fn compare_stat(before: Option<&Json>, after: Option<&Json>, delta: Json) -> (entry: Json)
    ensures
        entry@ == stat_entry(stat_held(before), stat_held(after), delta@),
{
    match number_pair(before, after) {
        Some((x, y)) => Json::object().with("before", Json::Float(x)).with(
            "after",
            Json::Float(y),
        ).with("delta", delta),
        None => {
            let old_value = match before {
                Some(value) => value.copy(),
                None => Json::Null,
            };
            let new_value = match after {
                Some(value) => value.copy(),
                None => Json::Null,
            };
            Json::object().with("before", old_value).with("after", new_value).with(
                "delta",
                Json::Null,
            )
        },
    }
}

/// A delta as a value: a number, or `null` for a text that is none.
pub fn delta_value(delta: &str) -> (value: Json)
    ensures
        value@ == delta_json(delta@),
        value@ == match float_of_text(delta@) {
            Some(number) => JsonView::Float(number),
            None => JsonView::Null,
        },
{
    match Real::parse(delta) {
        Some(number) => Json::Float(number),
        None => Json::Null,
    }
}

/// Whether `out` compares exactly the keys of `done`, with these deltas.
spec fn is_part(
    math: Held<Box<dyn DeltaMath>>,
    out: JsonView,
    before: JsonView,
    after: JsonView,
    done: Set<Seq<char>>,
    deltas: Map<Seq<char>, JsonView>,
) -> bool {
    &&& out is Object
    &&& forall|key: Seq<char>| #[trigger] members_in(out).contains_key(key) <==> done.contains(key)
    &&& forall|key: Seq<char>| #[trigger]
        members_in(out).contains_key(key) ==> members_in(out)[key] == stat_entry(
            member(before, key),
            member(after, key),
            deltas[key],
        )
    &&& forall|key: Seq<char>|
        done.contains(key) ==> is_delta(
            math,
            member(before, key),
            member(after, key),
            #[trigger] deltas[key],
        )
}

/// Compare the stats of one run's keys, behind those compared already.
fn compare_keys(
    out: Json,
    keys: &Vec<String>,
    before: &Json,
    after: &Json,
    math: &Held<Box<dyn DeltaMath>>,
    Ghost(done): Ghost<Set<Seq<char>>>,
    Ghost(deltas): Ghost<Map<Seq<char>, JsonView>>,
) -> (more: (Json, Ghost<Map<Seq<char>, JsonView>>))
    requires
        is_part(*math, out@, before@, after@, done, deltas),
    ensures
        is_part(
            *math,
            more.0@,
            before@,
            after@,
            Set::new(|key: Seq<char>| done.contains(key) || texts(keys@).contains(key)),
            more.1@,
        ),
{
    let mut out = out;
    let ghost mut found = deltas;
    let ghost mut seen = done;
    let mut i: usize = 0;
    while i < keys.len()
        invariant
            i <= keys@.len(),
            is_part(*math, out@, before@, after@, seen, found),
            forall|key: Seq<char>| #[trigger]
                seen.contains(key) <==> (done.contains(key) || texts(keys@).take(
                    i as int,
                ).contains(key)),
        decreases keys@.len() - i,
    {
        let key = keys[i].as_str();
        let old_value = before.get(key);
        let new_value = after.get(key);
        let delta = match number_pair(old_value, new_value) {
            Some((x, y)) => {
                let delta = math.value.delta(x.as_str(), y.as_str());
                assert(math.value.may_give(x@, y@, delta@));
                delta_value(delta.as_str())
            },
            None => Json::Null,
        };
        let ghost d = delta@;
        assert(is_delta(*math, member(before@, key@), member(after@, key@), d));
        let entry = compare_stat(old_value, new_value, delta);
        let ghost part = out@;
        out = out.with(key, entry);
        proof {
            let last = found;
            found = last.insert(key@, d);
            let all = texts(keys@);
            let grown = seen.insert(key@);
            assert(found[key@] == d);
            assert forall|other: Seq<char>| grown.contains(other) implies is_delta(
                *math,
                member(before@, other),
                member(after@, other),
                #[trigger] found[other],
            ) by {
                if other != key@ {
                    lemma_insert_other(last, key@, d, other);
                    assert(seen.contains(other));
                }
            }
            assert forall|other: Seq<char>| #[trigger]
                members_in(out@).contains_key(other) implies members_in(out@)[other] == stat_entry(
                member(before@, other),
                member(after@, other),
                found[other],
            ) by {
                if other != key@ {
                    assert(members_in(part).contains_key(other));
                    lemma_insert_other(last, key@, d, other);
                }
            }
            let taken = all.take(i as int);
            let next = all.take(i + 1);
            assert(next =~= taken.push(key@));
            assert forall|other: Seq<char>| #[trigger] grown.contains(other) <==> (done.contains(
                other,
            ) || next.contains(other)) by {
                if taken.contains(other) {
                    let k = choose|k: int| 0 <= k < taken.len() && #[trigger] taken[k] == other;
                    assert(next[k] == other);
                }
                assert(next[i as int] == key@);
                if next.contains(other) && other != key@ {
                    let k = choose|k: int| 0 <= k < next.len() && #[trigger] next[k] == other;
                    assert(taken[k] == other);
                }
            }
            seen = grown;
        }
        i += 1;
    }
    proof {
        assert(texts(keys@).take(i as int) =~= texts(keys@));
        assert(seen =~= Set::new(
            |key: Seq<char>| done.contains(key) || texts(keys@).contains(key),
        ));
    }
    (out, Ghost(found))
}

/// Inserting under one key leaves the others, present or not, as they were.
proof fn lemma_insert_other(
    map: Map<Seq<char>, JsonView>,
    key: Seq<char>,
    value: JsonView,
    other: Seq<char>,
)
    requires
        key != other,
    ensures
        map.insert(key, value)[other] == map[other],
{
}

/// Compare the stats of two runs, over the union of their keys. The deltas
/// that the subtraction gave come back as a ghost.
pub fn diff_stats(before: &Json, after: &Json, math: &Held<Box<dyn DeltaMath>>) -> (diff: (
    Json,
    Ghost<Map<Seq<char>, JsonView>>,
))
    ensures
        diff.0@ == stats_diff(before@, after@, diff.1@),
        are_deltas(*math, before@, after@, diff.1@),
{
    let ghost none = Set::<Seq<char>>::empty();
    let ghost start: Map<Seq<char>, JsonView> = Map::total(|key: Seq<char>| JsonView::Null);
    let old_keys = before.keys();
    let new_keys = after.keys();
    let (out, Ghost(first)) = compare_keys(
        Json::object(),
        &old_keys,
        before,
        after,
        math,
        Ghost(none),
        Ghost(start),
    );
    let fresh = keys_beside(&new_keys, before);
    let ghost done = Set::new(
        |key: Seq<char>| none.contains(key) || texts(old_keys@).contains(key),
    );
    let (out, Ghost(second)) = compare_keys(
        out,
        &fresh,
        before,
        after,
        math,
        Ghost(done),
        Ghost(first),
    );
    proof {
        let diff = stats_diff(before@, after@, second);
        assert forall|key: Seq<char>| #[trigger]
            members_in(out@).contains_key(key) <==> members_in(diff).contains_key(key) by {
            assert(members_in(before@).contains_key(key) <==> texts(old_keys@).contains(key));
            assert(members_in(after@).contains_key(key) <==> texts(new_keys@).contains(key));
        }
        assert(members_in(out@) =~= members_in(diff));
        assert forall|key: Seq<char>|
            is_delta(*math, member(before@, key), member(after@, key), #[trigger] second[key]) by {
            if members_in(before@).contains_key(key) {
                assert(texts(old_keys@).contains(key));
            }
        }
    }
    (out, Ghost(second))
}

/// Those of the keys that a value has no member under.
fn keys_beside(keys: &Vec<String>, value: &Json) -> (fresh: Vec<String>)
    ensures
        forall|key: Seq<char>| #[trigger]
            texts(fresh@).contains(key) <==> texts(keys@).contains(key) && member(
                value@,
                key,
            ) is None,
{
    let ghost all = texts(keys@);
    let mut fresh: Vec<String> = Vec::new();
    let mut i: usize = 0;
    assert(texts(fresh@) =~= Seq::<Seq<char>>::empty());
    while i < keys.len()
        invariant
            i <= keys@.len(),
            all == texts(keys@),
            forall|key: Seq<char>| #[trigger]
                texts(fresh@).contains(key) <==> all.take(i as int).contains(key) && member(
                    value@,
                    key,
                ) is None,
        decreases keys@.len() - i,
    {
        let key = keys[i].clone();
        let ghost before = texts(fresh@);
        let ghost taken = all.take(i as int);
        let ghost next = all.take(i + 1);
        let absent = value.get(key.as_str()).is_none();
        let ghost added = key@;
        if absent {
            fresh.push(key);
        }
        proof {
            let after = texts(fresh@);
            assert(next =~= taken.push(added));
            if absent {
                assert(after =~= before.push(added));
            }
            assert forall|other: Seq<char>| #[trigger]
                after.contains(other) <==> next.contains(other) && member(value@, other) is None by {
                assert(before.contains(other) <==> taken.contains(other) && member(
                    value@,
                    other,
                ) is None);
                if taken.contains(other) {
                    let k = choose|k: int| 0 <= k < taken.len() && #[trigger] taken[k] == other;
                    assert(next[k] == other);
                }
                assert(next[i as int] == added);
                if next.contains(other) && other != added {
                    let k = choose|k: int| 0 <= k < next.len() && #[trigger] next[k] == other;
                    assert(taken[k] == other);
                }
                if before.contains(other) {
                    let k = choose|k: int| 0 <= k < before.len() && #[trigger] before[k] == other;
                    assert(after[k] == other);
                }
                if absent {
                    assert(after[before.len() as int] == added);
                    if after.contains(other) && other != added {
                        let k = choose|k: int|
                            0 <= k < after.len() && #[trigger] after[k] == other;
                        assert(before[k] == other);
                    }
                }
            }
        }
        i += 1;
    }
    assert(all.take(i as int) =~= all);
    fresh
}

/// The keys that were asked for and that a comparison has nothing on.
fn find_unknown_keys(keys: &Option<Vec<String>>, stats: &Json) -> (unknown: Vec<String>)
    ensures
        texts(unknown@) == unknown_keys(keys_view(*keys), stats@),
{
    let mut unknown: Vec<String> = Vec::new();
    assert(texts(unknown@) =~= Seq::<Seq<char>>::empty());
    if let Some(keys) = keys {
        let ghost all = texts(keys@);
        let mut i: usize = 0;
        while i < keys.len()
            invariant
                i <= keys@.len(),
                all == texts(keys@),
                texts(unknown@) == missing_keys(all, stats@, i as nat),
            decreases keys@.len() - i,
        {
            if stats.get(keys[i].as_str()).is_none() {
                let ghost before = texts(unknown@);
                let key = keys[i].clone();
                unknown.push(key);
                assert(texts(unknown@) =~= before.push(key@));
            }
            i += 1;
        }
    }
    unknown
}

/// Answer a comparison whose two runs succeeded.
pub fn answer_diff(
    args: &BuildArgs,
    mods: &Vec<String>,
    stamp: &str,
    engine_version: Json,
    stats: Json,
) -> (outcome: Result<String, ToolError>)
    ensures
        answer_of(outcome) == diff_answer(
            args@,
            texts(mods@),
            stamp@,
            engine_version@,
            stats@,
        ),
{
    let unknown = find_unknown_keys(&args.stats, &stats);
    assert(texts(unknown@).len() == unknown@.len());
    if unknown.len() > 0 {
        let mut error =
            "unknown stat keys (the engine reported no such stats for this build): ".to_owned();
        error.append(text::join(&unknown, ", ").as_str());
        return Err(ToolError::InvalidArgs(error));
    }
    let out = Json::object().with("engine", Json::string(ENGINE_NAME)).with(
        "engine_version",
        engine_version,
    ).with("custom_mods", texts_value(mods)).with("stats", stats).with(
        "note",
        Json::string(WHATIF_NOTE),
    );
    Ok(
        Json::object().with("game", Json::string(args.game.as_str())).with(
            "fetched_at",
            Json::string(stamp),
        ).with("whatif", out).to_string(),
    )
}

/// The `pob` tool: build stats computed by the Path of Building engine.
pub struct PobTool {
    host: Arc<EngineHost>,
}

impl PobTool {
    /// The engine host.
    pub closed spec fn engines(&self) -> Arc<EngineHost> {
        self.host
    }

    /// Tool with an engine host of its own. Prefer [`PobTool::with_host`] when
    /// registering several tools that compute builds, so that they share warm
    /// engines.
    pub fn new(host: EngineHost) -> (tool: Self)
        ensures
            *tool.engines() == host,
    {
        PobTool { host: Arc::new(host) }
    }

    /// Tool over a shared engine host.
    pub fn with_host(host: Arc<EngineHost>) -> (tool: Self)
        ensures
            tool.engines() == host,
    {
        PobTool { host }
    }
}

/// What the tool does, for the model.
pub const POB_DESCRIPTION: &'static str =
    "Read a build's current statistics (DPS, life, energy shield, effective HP, resistances) computed by the Path of Building engine. Input is a Path of Building share code (`code`, the base64 export used by pobb.in/pastebin) or raw build XML (`xml`); optionally list `stats` keys to read specific values. For hypothetical changes (\"how much would X give me?\") call `pob_whatif` instead.";

/// The JSON Schema of the arguments.
pub const POB_SCHEMA: &'static str =
    r#"{"type":"object","properties":{"game":{"type":"string","enum":["poe1","poe2"],"description":"Which game's engine"},"code":{"type":"string","description":"Path of Building share code (url-safe base64 export)"},"xml":{"type":"string","description":"Raw Path of Building build XML (alternative to code)"},"stats":{"type":"array","items":{"type":"string"},"description":"Optional stat keys to read (default: a core set incl. Life, EnergyShield, TotalEHP, TotalDPS, CombinedDPS)"}},"required":["game"],"additionalProperties":false}"#;

impl Tool for PobTool {
    open spec fn tool_name(&self) -> Seq<char> {
        "pob"@
    }

    open spec fn tool_description(&self) -> Seq<char> {
        POB_DESCRIPTION@
    }

    open spec fn tool_schema(&self) -> Seq<char> {
        POB_SCHEMA@
    }

    /// Arguments that cannot be read, and builds that are none or belong to
    /// the other game, are refused before any engine is asked. Otherwise the
    /// answer follows from the time and from what the run came to.
    open spec fn may_answer(&self, args_json: Seq<char>, answer: Answer) -> bool {
        match lookup_planned(args_json) {
            Err(error) => answer == Err::<Seq<char>, Fault>(Fault::InvalidArgs(error)),
            Ok((args, xml)) => exists|stamp: Seq<char>, run: Run|
                is_stamp(stamp) && self.engines().may_compute(args.game, (xml, args.stats), run)
                    && answer == #[trigger] pob_answer(args.game, stamp, run),
        }
    }

    fn name(&self) -> (name: &'static str) {
        "pob"
    }

    fn description(&self) -> (description: &'static str) {
        POB_DESCRIPTION
    }

    fn parameters_schema(&self) -> (schema: &'static str) {
        POB_SCHEMA
    }

    fn execute(&self, args_json: &str) -> (outcome: Result<String, ToolError>) {
        let (args, xml) = match plan_lookup(args_json) {
            Ok(plan) => plan,
            Err(error) => {
                return Err(ToolError::InvalidArgs(error));
            },
        };
        let run = self.host.compute(args.game, xml.as_str(), &args.stats);
        let ghost came_to = run_view(run);
        let stamp = now_utc();
        let outcome = answer_build(args.game, stamp.as_str(), run);
        assert(answer_of(outcome) == pob_answer(args.game, stamp@, came_to));
        outcome
    }
}

/// The `pob_whatif` tool: the engine runs a build with and without
/// hypothetical modifier lines and returns each stat's before, after and
/// delta. The whole comparison happens in the tool; nothing is left for the
/// model to compute.
pub struct PobWhatifTool {
    math: Held<Box<dyn DeltaMath>>,
    host: Arc<EngineHost>,
}

impl PobWhatifTool {
    /// The engine host.
    pub closed spec fn engines(&self) -> Arc<EngineHost> {
        self.host
    }

    /// What subtracts.
    pub closed spec fn arithmetic(&self) -> Held<Box<dyn DeltaMath>> {
        self.math
    }

    /// Tool with an engine host of its own.
    pub fn new(host: EngineHost, math: Box<dyn DeltaMath>) -> (tool: Self)
        ensures
            *tool.engines() == host,
            tool.arithmetic().value == math,
    {
        let math = hold(math);
        PobWhatifTool { math, host: Arc::new(host) }
    }

    /// Tool over a shared engine host.
    pub fn with_host(host: Arc<EngineHost>, math: Box<dyn DeltaMath>) -> (tool: Self)
        ensures
            tool.engines() == host,
            tool.arithmetic().value == math,
    {
        let math = hold(math);
        PobWhatifTool { math, host }
    }
}

impl PobWhatifTool {
    /// Whether a comparison whose two runs, on one engine, came to `runs` is
    /// answered so.
    pub open spec fn answers(
        &self,
        plan: WhatifView,
        stamp: Seq<char>,
        runs: Comparison,
        deltas: Map<Seq<char>, JsonView>,
        answer: Answer,
    ) -> bool {
        &&& answer is Ok ==> is_stamp(stamp)
        &&& self.engines().may_compare(
            plan.args.game,
            (plan.xml, plan.modified, plan.args.stats),
            runs,
        )
        &&& runs is Ok ==> are_deltas(
            self.arithmetic(),
            runs->Ok_0.0.stats,
            runs->Ok_0.1.stats,
            deltas,
        )
        &&& answer == whatif_answer(plan.args, plan.mods, stamp, runs, deltas)
    }
}

/// What the tool does, for the model.
pub const WHATIF_DESCRIPTION: &'static str =
    "Measure what hypothetical modifier lines would change on a build: the Path of Building engine runs the build with and without `custom_mods` and returns each stat's before/after/delta, precomputed. Use this for every \"how much would X give me?\" question. Needs the build as a share code (`code`) or build XML (`xml`) — ask the user for theirs when none is at hand. The hypothetical lines compose with the build's existing custom modifier blocks; builds carrying legacy customMods text are rejected.";

/// The JSON Schema of the arguments.
pub const WHATIF_SCHEMA: &'static str =
    r#"{"type":"object","properties":{"game":{"type":"string","enum":["poe1","poe2"],"description":"Which game's engine"},"code":{"type":"string","description":"Path of Building share code (url-safe base64 export)"},"xml":{"type":"string","description":"Raw Path of Building build XML (alternative to code)"},"custom_mods":{"type":"array","items":{"type":"string"},"description":"Hypothetical modifier lines to apply (e.g. '30% more spell damage')"},"stats":{"type":"array","items":{"type":"string"},"description":"Optional stat keys to compare (default: a core set incl. Life, EnergyShield, TotalEHP, TotalDPS, CombinedDPS)"}},"required":["game","custom_mods"],"additionalProperties":false}"#;

impl Tool for PobWhatifTool {
    open spec fn tool_name(&self) -> Seq<char> {
        "pob_whatif"@
    }

    open spec fn tool_description(&self) -> Seq<char> {
        WHATIF_DESCRIPTION@
    }

    open spec fn tool_schema(&self) -> Seq<char> {
        WHATIF_SCHEMA@
    }

    /// Arguments that cannot be read, builds that are none or belong to the
    /// other game, and modifier lines that cannot be put in are refused before
    /// any engine is asked. Otherwise the answer follows from the time, from
    /// what the two runs came to, and from the deltas of their numbers.
    open spec fn may_answer(&self, args_json: Seq<char>, answer: Answer) -> bool {
        match whatif_planned(args_json) {
            Err(error) => answer == Err::<Seq<char>, Fault>(Fault::InvalidArgs(error)),
            Ok(plan) => exists|
                stamp: Seq<char>,
                runs: Comparison,
                deltas: Map<Seq<char>, JsonView>,
            |
                #[trigger] self.answers(plan, stamp, runs, deltas, answer),
        }
    }

    fn name(&self) -> (name: &'static str) {
        "pob_whatif"
    }

    fn description(&self) -> (description: &'static str) {
        WHATIF_DESCRIPTION
    }

    fn parameters_schema(&self) -> (schema: &'static str) {
        WHATIF_SCHEMA
    }

    fn execute(&self, args_json: &str) -> (outcome: Result<String, ToolError>) {
        let plan = match plan_whatif(args_json) {
            Ok(plan) => plan,
            Err(error) => {
                return Err(ToolError::InvalidArgs(error));
            },
        };
        let runs = self.host.compare(
            plan.args.game,
            plan.xml.as_str(),
            plan.modified.as_str(),
            &plan.args.stats,
        );
        let ghost came_to = comparison_view(runs);
        let (baseline, changed) = match runs {
            Ok(runs) => runs,
            Err(error) => {
                let outcome = Err(ToolError::Failed(error));
                assert(self.answers(
                    plan@,
                    Seq::empty(),
                    came_to,
                    Map::empty(),
                    answer_of(outcome),
                ));
                return outcome;
            },
        };
        let (stats, Ghost(deltas)) = diff_stats(&baseline.stats, &changed.stats, &self.math);
        let stamp = now_utc();
        let outcome = answer_diff(
            &plan.args,
            &plan.mods,
            stamp.as_str(),
            changed.engine_version,
            stats,
        );
        assert(self.answers(plan@, stamp@, came_to, deltas, answer_of(outcome)));
        outcome
    }
}

/// A result tells which game it is about and when it was computed, and holds
/// what the engine reported.
pub proof fn law_build_results_are_stamped(game: Game, stamp: Seq<char>, run: Run)
    requires
        run is Ok,
    ensures
        exists|result: JsonView|
            pob_answer(game, stamp, run) == Ok::<Seq<char>, Fault>(#[trigger] printed(result))
                && is_stamped(result, game, stamp) && at_key(at_key(result, "build"@), "stats"@)
                == run->Ok_0.stats && at_key(at_key(result, "build"@), "engine_version"@)
                == run->Ok_0.engine_version,
{
    reveal_strlit("game");
    reveal_strlit("fetched_at");
    reveal_strlit("build");
    reveal_strlit("engine");
    reveal_strlit("engine_version");
    reveal_strlit("stats");
    reveal_strlit("note");
    assert("game"@.len() == 4 && "fetched_at"@.len() == 10 && "build"@.len() == 5);
    assert("engine"@.len() == 6 && "engine_version"@.len() == 14);
    assert("stats"@.len() == 5 && "note"@.len() == 4);
    let build = put(no_members(), "engine"@, JsonView::Text(ENGINE_NAME@));
    let build = put(build, "engine_version"@, run->Ok_0.engine_version);
    let build = put(build, "stats"@, run->Ok_0.stats);
    let build = put(build, "note"@, JsonView::Text(BUILD_NOTE@));
    let result = put(result_head(game, stamp), "build"@, build);
    assert(pob_answer(game, stamp, run) == Ok::<Seq<char>, Fault>(printed(result)));
}

/// A comparison tells which game it is about and when it was computed, names
/// the modifier lines, and holds how every stat compares.
pub proof fn law_comparisons_are_stamped(
    args: BuildArgsView,
    mods: Seq<Seq<char>>,
    stamp: Seq<char>,
    engine_version: JsonView,
    stats: JsonView,
)
    requires
        diff_answer(args, mods, stamp, engine_version, stats) is Ok,
    ensures
        exists|result: JsonView|
            diff_answer(args, mods, stamp, engine_version, stats) == Ok::<Seq<char>, Fault>(
                #[trigger] printed(result),
            ) && is_stamped(result, args.game, stamp) && at_key(
                at_key(result, "whatif"@),
                "custom_mods"@,
            ) == texts_json(mods) && at_key(at_key(result, "whatif"@), "stats"@) == stats,
{
    reveal_strlit("game");
    reveal_strlit("fetched_at");
    reveal_strlit("whatif");
    reveal_strlit("custom_mods");
    reveal_strlit("stats");
    reveal_strlit("note");
    assert("game"@.len() == 4 && "fetched_at"@.len() == 10 && "whatif"@.len() == 6);
    assert("custom_mods"@.len() == 11 && "stats"@.len() == 5 && "note"@.len() == 4);
    let out = put(no_members(), "engine"@, JsonView::Text(ENGINE_NAME@));
    let out = put(out, "engine_version"@, engine_version);
    let out = put(out, "custom_mods"@, texts_json(mods));
    let out = put(out, "stats"@, stats);
    let out = put(out, "note"@, JsonView::Text(WHATIF_NOTE@));
    let result = put(result_head(args.game, stamp), "whatif"@, out);
    assert(diff_answer(args, mods, stamp, engine_version, stats) == Ok::<Seq<char>, Fault>(
        printed(result),
    ));
}

/// A comparison covers every stat that either run reported, and no other.
pub proof fn law_comparison_covers_both_runs(
    before: JsonView,
    after: JsonView,
    deltas: Map<Seq<char>, JsonView>,
    key: Seq<char>,
)
    ensures
        member(stats_diff(before, after, deltas), key) is Some <==> member(before, key) is Some
            || member(after, key) is Some,
{
}

/// A stat that is not a number in both runs is passed through, with no delta.
pub proof fn law_other_stats_pass_through(
    before: JsonView,
    after: JsonView,
    deltas: Map<Seq<char>, JsonView>,
    key: Seq<char>,
)
    requires
        member(before, key) is Some || member(after, key) is Some,
        stat_number(member(before, key)) is None || stat_number(member(after, key)) is None,
    ensures
        member(stats_diff(before, after, deltas), key) == Some(
            stat_triple(
                stat_value(member(before, key)),
                stat_value(member(after, key)),
                JsonView::Null,
            ),
        ),
        ({
            let entry = at_key(stats_diff(before, after, deltas), key);
            &&& at_key(entry, "before"@) == at_key(before, key)
            &&& at_key(entry, "after"@) == at_key(after, key)
            &&& at_key(entry, "delta"@) == JsonView::Null
        }),
{
    reveal_strlit("before");
    reveal_strlit("after");
    reveal_strlit("delta");
    assert("before"@.len() == 6);
    assert("after"@.len() == 5);
    assert("delta"@.len() == 5);
    assert("after"@[0] != "delta"@[0]);
}

/// A build of one game is never handed to the other's engine: what is made
/// ready belongs to the game.
pub proof fn law_only_builds_of_the_game_are_computed(args: BuildArgsView)
    requires
        build_of(args) is Ok,
    ensures
        belongs_to(args.game, build_of(args)->Ok_0),
{
}

/// A text that writes a number is that number as a delta, its sign with it,
/// and a text that writes none is no delta.
pub proof fn law_deltas_keep_their_number(text: Seq<char>)
    ensures
        float_of_text(text) matches Some(number) ==> delta_json(text) == JsonView::Float(number),
        float_of_text(text) is None ==> delta_json(text) == JsonView::Null,
        float_in(delta_json(text)) == float_of_text(text),
{
}

/// Where both runs report a number, the comparison shows the first run's
/// under "before" and the second's under "after", and under "delta" the number
/// that the subtraction wrote of these two, in this order.
pub proof fn law_deltas_are_what_the_subtraction_gives(
    math: Held<Box<dyn DeltaMath>>,
    before: JsonView,
    after: JsonView,
    deltas: Map<Seq<char>, JsonView>,
    key: Seq<char>,
)
    requires
        are_deltas(math, before, after, deltas),
        float_in(at_key(before, key)) is Some,
        float_in(at_key(after, key)) is Some,
    ensures
        ({
            let x = float_in(at_key(before, key))->0;
            let y = float_in(at_key(after, key))->0;
            let entry = at_key(stats_diff(before, after, deltas), key);
            &&& at_key(entry, "before"@) == JsonView::Float(x)
            &&& at_key(entry, "after"@) == JsonView::Float(y)
            &&& exists|text: Seq<char>| #[trigger]
                math.value.may_give(x, y, text) && at_key(entry, "delta"@) == match float_of_text(
                    text,
                ) {
                    Some(number) => JsonView::Float(number),
                    None => JsonView::Null,
                }
        }),
{
    reveal_strlit("before");
    reveal_strlit("after");
    reveal_strlit("delta");
    assert("before"@.len() == 6);
    assert("after"@.len() == 5);
    assert("delta"@.len() == 5);
    assert("after"@[0] != "delta"@[0]);
    assert(is_delta(math, member(before, key), member(after, key), deltas[key]));
}

/// Where the subtraction can give but one text of two numbers, the delta of a
/// stat with these numbers is the number that the text writes.
pub proof fn law_certain_deltas_are_shown(
    math: Held<Box<dyn DeltaMath>>,
    before: JsonView,
    after: JsonView,
    deltas: Map<Seq<char>, JsonView>,
    key: Seq<char>,
    text: Seq<char>,
)
    requires
        are_deltas(math, before, after, deltas),
        float_in(at_key(before, key)) is Some,
        float_in(at_key(after, key)) is Some,
        float_of_text(text) is Some,
        forall|other: Seq<char>| #[trigger]
            math.value.may_give(
                float_in(at_key(before, key))->0,
                float_in(at_key(after, key))->0,
                other,
            ) ==> other == text,
    ensures
        at_key(at_key(stats_diff(before, after, deltas), key), "delta"@) == JsonView::Float(
            float_of_text(text)->0,
        ),
{
    law_deltas_are_what_the_subtraction_gives(math, before, after, deltas, key);
}

/// The stats that a caller asked for and the engine did not report are told
/// in the order of the asking, each as it was asked for; where there is none
/// the comparison is given.
pub proof fn law_unreported_stats_are_told(
    args: BuildArgsView,
    mods: Seq<Seq<char>>,
    stamp: Seq<char>,
    engine_version: JsonView,
    stats: JsonView,
)
    ensures
        ({
            let asked = match args.stats {
                Some(keys) => keys,
                None => seq![],
            };
            let lacking = asked.filter(|key: Seq<char>| member(stats, key) is None);
            &&& diff_answer(args, mods, stamp, engine_version, stats) is Ok <==> lacking.len() == 0
            &&& diff_answer(args, mods, stamp, engine_version, stats) matches Err(fault) ==> fault
                == Fault::InvalidArgs(
                "unknown stat keys (the engine reported no such stats for this build): "@
                    + separated(lacking, ", "@),
            )
        }),
{
    let asked = match args.stats {
        Some(keys) => keys,
        None => seq![],
    };
    lemma_missing_keys(asked, stats, asked.len());
    assert(asked.take(asked.len() as int) =~= asked);
    assert(unknown_keys(args.stats, stats) =~= missing_keys(asked, stats, asked.len()));
}

/// The keys that are missing are those that no stat has.
proof fn lemma_missing_keys(keys: Seq<Seq<char>>, stats: JsonView, n: nat)
    requires
        n <= keys.len(),
    ensures
        missing_keys(keys, stats, n) == keys.take(n as int).filter(
            |key: Seq<char>| member(stats, key) is None,
        ),
    decreases n,
{
    let lacks = |key: Seq<char>| member(stats, key) is None;
    reveal(Seq::filter);
    if n > 0 {
        lemma_missing_keys(keys, stats, (n - 1) as nat);
        assert(keys.take(n as int).drop_last() =~= keys.take(n - 1));
        assert(keys.take(n as int).last() == keys[n - 1]);
    } else {
        assert(keys.take(0) =~= seq![]);
    }
}

/// A build comes from exactly one source: the code is decoded, the XML is
/// taken as it stands, and with both, with neither or with blank XML the
/// request is refused.
pub proof fn law_builds_come_from_one_source(code: Seq<char>, xml: Seq<char>)
    ensures
        resolved(Some(code), None) == decoded(code),
        resolved(None, Some(xml)) == if (forall|i: int|
            0 <= i < xml.len() ==> text::is_white(#[trigger] xml[i])) {
            Err("provide exactly one of `code` or `xml`"@)
        } else {
            Ok::<Seq<char>, Seq<char>>(xml)
        },
        resolved(Some(code), Some(xml)) == Err::<Seq<char>, Seq<char>>(
            "provide exactly one of `code` or `xml`"@,
        ),
        resolved(None, None) == Err::<Seq<char>, Seq<char>>(
            "provide exactly one of `code` or `xml`"@,
        ),
{
    text::law_blank_texts_trim_to_nothing(xml);
}

/// The arguments of a call are what stands under their names: the game, the
/// code, the XML and the stats.
pub proof fn law_build_arguments_are_read(args: JsonView, stats_at: int)
    requires
        args is Object,
    ensures
        build_args_in(args, stats_at) matches Ok(read) ==> {
            &&& required_game(member(args, "game"@), "game"@) == Ok::<Game, Seq<char>>(read.game)
            &&& at_key(args, "code"@) == match read.code {
                Some(code) => JsonView::Text(code),
                None => JsonView::Null,
            }
            &&& at_key(args, "xml"@) == match read.xml {
                Some(xml) => JsonView::Text(xml),
                None => JsonView::Null,
            }
            &&& read.stats is None ==> at_key(args, "stats"@) is Null
            &&& read.stats matches Some(keys) ==> {
                &&& at_key(args, "stats"@) is Array
                &&& at_key(args, "stats"@)->Array_0.len() == keys.len()
                &&& forall|i: int|
                    0 <= i < keys.len() ==> at_key(args, "stats"@)->Array_0[i] == JsonView::Text(
                        #[trigger] keys[i],
                    )
            }
        },
        build_args_in(args, stats_at) is Ok <==> {
            let stats = at_key(args, "stats"@);
            &&& required_game(member(args, "game"@), "game"@) is Ok
            &&& at_key(args, "code"@) is Text || at_key(args, "code"@) is Null
            &&& at_key(args, "xml"@) is Text || at_key(args, "xml"@) is Null
            &&& stats is Null || (stats is Array && forall|i: int|
                0 <= i < stats->Array_0.len() ==> #[trigger] stats->Array_0[i] is Text)
        },
{
    law_texts_are_read_in_order(at_key(args, "stats"@), "stats"@);
}

/// Arguments may come as a list too: of a lookup in the order game, code, xml,
/// stats, of a comparison with the modifier lines in front of the stats.
pub proof fn law_build_arguments_may_be_a_list(items: Seq<JsonView>)
    requires
        items.len() == 5,
    ensures
        ({
            let named = put(no_members(), "game"@, items[0]);
            let named = put(named, "code"@, items[1]);
            let named = put(named, "xml"@, items[2]);
            &&& build_args_in(JsonView::Array(items), 3) == build_args_in(
                put(named, "stats"@, items[3]),
                3,
            )
            &&& build_args_in(JsonView::Array(items), 4) == build_args_in(
                put(put(named, "custom_mods"@, items[3]), "stats"@, items[4]),
                4,
            )
        }),
{
    reveal_strlit("game");
    reveal_strlit("code");
    reveal_strlit("xml");
    reveal_strlit("stats");
    reveal_strlit("custom_mods");
    assert("game"@.len() == 4);
    assert("code"@.len() == 4);
    assert("xml"@.len() == 3);
    assert("stats"@.len() == 5);
    assert("custom_mods"@.len() == 11);
    assert("game"@[0] != "code"@[0]);
}

/// A lookup takes no modifier lines: it is read where they are missing or
/// null, and refused where there are any.
pub proof fn law_lookups_take_no_modifiers(args_json: Seq<char>, args: JsonView)
    requires
        opened(args_json, pob_names(), 1) == Ok::<JsonView, Seq<char>>(args),
        args is Object,
    ensures
        pob_args(args_json) is Ok <==> build_args_in(args, 3) is Ok && at_key(
            args,
            "custom_mods"@,
        ) is Null,
        pob_args(args_json) is Ok ==> pob_args(args_json) == build_args_in(args, 3),
{
}

/// A comparison takes the modifier lines in their order, each as it stands.
pub proof fn law_comparisons_take_their_modifiers(args_json: Seq<char>, args: JsonView)
    requires
        opened(args_json, whatif_names(), 1) == Ok::<JsonView, Seq<char>>(args),
        args is Object,
    ensures
        whatif_args(args_json) matches Ok((build, mods)) ==> {
            let lines = at_key(args, "custom_mods"@);
            &&& build_args_in(args, 4) == Ok::<BuildArgsView, Seq<char>>(build)
            &&& lines is Array && lines->Array_0.len() == mods.len()
            &&& forall|i: int|
                0 <= i < mods.len() ==> lines->Array_0[i] == JsonView::Text(#[trigger] mods[i])
        },
{
    law_texts_are_read_in_order(at_key(args, "custom_mods"@), "custom_mods"@);
}

/// A comparison runs the build as it came and the same build with the lines
/// put in, and asks both for the stats that the caller asked for.
pub proof fn law_comparisons_run_the_same_build(args_json: Seq<char>)
    ensures
        whatif_planned(args_json) matches Ok(plan) ==> {
            &&& whatif_args(args_json) == Ok::<(BuildArgsView, Seq<Seq<char>>), Seq<char>>(
                (plan.args, plan.mods),
            )
            &&& build_of(plan.args) == Ok::<Seq<char>, Seq<char>>(plan.xml)
            &&& injected(plan.args.game, plan.xml, plan.mods) == Ok::<Seq<char>, Seq<char>>(
                plan.modified,
            )
        },
{
}

/// A build is run without its comments, and only where it holds no CDATA
/// section and belongs to the game.
pub proof fn law_builds_are_checked(game: Game, xml: Seq<char>)
    ensures
        checked(game, xml) is Ok <==> prepared(xml) is Ok && belongs_to(game, prepared(xml)->Ok_0),
        checked(game, xml) is Ok ==> checked(game, xml) == prepared(xml),
{
}

/// What a comparison tells: the version of the engine that ran the changed
/// build, the lines in their order, and how each stat compares.
pub proof fn law_comparisons_tell_both_runs(
    args: BuildArgsView,
    mods: Seq<Seq<char>>,
    stamp: Seq<char>,
    baseline: ComputedView,
    changed: ComputedView,
    deltas: Map<Seq<char>, JsonView>,
)
    requires
        whatif_answer(args, mods, stamp, Ok((baseline, changed)), deltas) is Ok,
    ensures
        exists|result: JsonView|
            {
                let told = at_key(result, "whatif"@);
                &&& whatif_answer(args, mods, stamp, Ok((baseline, changed)), deltas) == Ok::<
                    Seq<char>,
                    Fault,
                >(#[trigger] printed(result))
                &&& at_key(told, "engine_version"@) == changed.engine_version
                &&& at_key(told, "engine"@) == JsonView::Text(
                    "Path of Building (headless, stock checkout)"@,
                )
                &&& at_key(told, "custom_mods"@) matches JsonView::Array(lines) && lines.len()
                    == mods.len()
                &&& forall|i: int|
                    0 <= i < mods.len() ==> at_key(told, "custom_mods"@)->Array_0[i]
                        == JsonView::Text(#[trigger] mods[i])
                &&& at_key(told, "stats"@) == stats_diff(baseline.stats, changed.stats, deltas)
            },
{
    reveal_strlit("game");
    reveal_strlit("fetched_at");
    reveal_strlit("whatif");
    assert("game"@.len() == 4);
    assert("fetched_at"@.len() == 10);
    assert("whatif"@.len() == 6);
    reveal_strlit("engine");
    reveal_strlit("engine_version");
    reveal_strlit("custom_mods");
    reveal_strlit("stats");
    reveal_strlit("note");
    assert("engine"@.len() == 6);
    assert("engine_version"@.len() == 14);
    assert("custom_mods"@.len() == 11);
    assert("stats"@.len() == 5);
    assert("note"@.len() == 4);
    let stats = stats_diff(baseline.stats, changed.stats, deltas);
    let out = put(no_members(), "engine"@, JsonView::Text(ENGINE_NAME@));
    let out = put(out, "engine_version"@, changed.engine_version);
    let out = put(out, "custom_mods"@, texts_json(mods));
    let out = put(out, "stats"@, stats);
    let out = put(out, "note"@, JsonView::Text(WHATIF_NOTE@));
    let result = put(result_head(args.game, stamp), "whatif"@, out);
    assert(whatif_answer(args, mods, stamp, Ok((baseline, changed)), deltas) == Ok::<
        Seq<char>,
        Fault,
    >(printed(result)));
}

/// A run that failed fails the call, with the engine's words.
pub proof fn law_failed_runs_fail_the_call(
    args: BuildArgsView,
    mods: Seq<Seq<char>>,
    stamp: Seq<char>,
    error: Seq<char>,
    deltas: Map<Seq<char>, JsonView>,
)
    ensures
        pob_answer(args.game, stamp, Err(error)) == Err::<Seq<char>, Fault>(Fault::Failed(error)),
        whatif_answer(args, mods, stamp, Err(error), deltas) == Err::<Seq<char>, Fault>(
            Fault::Failed(error),
        ),
{
}

/// A build is found in the argument that holds it, and made ready for the game
/// that was asked for.
pub proof fn law_builds_are_found_where_given(args: BuildArgsView)
    ensures
        args.xml is None && args.code is Some ==> match decoded(args.code->0) {
            Ok(xml) => build_of(args) == checked(args.game, xml),
            Err(error) => build_of(args) == Err::<Seq<char>, Seq<char>>(error),
        },
        args.code is None && args.xml is Some && trimmed(args.xml->0).len() > 0 ==> build_of(args)
            == checked(args.game, args.xml->0),
        args.code is Some && args.xml is Some ==> build_of(args) is Err,
        args.code is None && args.xml is None ==> build_of(args) is Err,
{
}

/// The arguments of a lookup and of a comparison, in the order in which a list
/// gives them.
pub proof fn law_build_arguments_have_their_places()
    ensures
        pob_names().len() == 5 && whatif_names().len() == 5,
        pob_names()[0] == "game"@ && whatif_names()[0] == "game"@,
        pob_names()[1] == "code"@ && whatif_names()[1] == "code"@,
        pob_names()[2] == "xml"@ && whatif_names()[2] == "xml"@,
        pob_names()[3] == "stats"@ && whatif_names()[3] == "custom_mods"@,
        pob_names()[4] == "custom_mods"@ && whatif_names()[4] == "stats"@,
{
}

/// A lookup runs the build that its arguments give, and a refused one tells
/// why.
pub proof fn law_lookups_run_the_given_build(args_json: Seq<char>)
    ensures
        lookup_planned(args_json) matches Ok((args, xml)) ==> {
            &&& pob_args(args_json) == Ok::<BuildArgsView, Seq<char>>(args)
            &&& build_of(args) == Ok::<Seq<char>, Seq<char>>(xml)
        },
        pob_args(args_json) matches Err(error) ==> lookup_planned(args_json) == Err::<
            (BuildArgsView, Seq<char>),
            Seq<char>,
        >(error),
{
}

/// A comparison is of the build as it came, first, and of the build with the
/// lines put in, second, both for the stats that were asked for; and it is
/// told with the deltas of these two runs.
pub proof fn law_comparisons_are_of_both_builds(
    tool: PobWhatifTool,
    plan: WhatifView,
    stamp: Seq<char>,
    runs: Comparison,
    deltas: Map<Seq<char>, JsonView>,
    answer: Answer,
)
    requires
        tool.answers(plan, stamp, runs, deltas, answer),
    ensures
        tool.engines().may_compare(
            plan.args.game,
            (plan.xml, plan.modified, plan.args.stats),
            runs,
        ),
        runs matches Ok((first, second)) ==> are_deltas(
            tool.arithmetic(),
            first.stats,
            second.stats,
            deltas,
        ),
        runs matches Err(error) ==> answer == Err::<Seq<char>, Fault>(Fault::Failed(error)),
        answer is Ok ==> runs is Ok && is_stamp(stamp),
{
}

/// Of wrong arguments the first is told, by its name and what it should be.
pub proof fn law_wrong_build_arguments_are_named(args: JsonView, stats_at: int)
    requires
        args is Object,
        required_game(member(args, "game"@), "game"@) is Ok,
    ensures
        !(at_key(args, "code"@) is Text || at_key(args, "code"@) is Null) ==> build_args_in(args, stats_at) == Err::<BuildArgsView, Seq<char>>(
            "invalid value for `"@ + "code"@ + "`, expected "@ + "a string"@,
        ),
        (at_key(args, "code"@) is Text || at_key(args, "code"@) is Null)
            && !(at_key(args, "xml"@) is Text || at_key(args, "xml"@) is Null)
            ==> build_args_in(args, stats_at) == Err::<BuildArgsView, Seq<char>>(
            "invalid value for `"@ + "xml"@ + "`, expected "@ + "a string"@,
        ),
        (at_key(args, "code"@) is Text || at_key(args, "code"@) is Null)
            && (at_key(args, "xml"@) is Text || at_key(args, "xml"@) is Null)
            && !(at_key(args, "stats"@) is Array || at_key(args, "stats"@) is Null)
            ==> build_args_in(args, stats_at) == Err::<BuildArgsView, Seq<char>>(
            "invalid value for `"@ + "stats"@ + "`, expected "@ + "a list"@,
        ),
        required_game(member(args, "game"@), "game"@) == required_game(
            argument(args, "game"@, 0),
            "game"@,
        ),
{
}

/// A comparison without modifier lines, or with anything but a list, is
/// refused by their name, and modifier lines in a lookup by the tool that
/// takes them.
pub proof fn law_wrong_modifiers_are_named(args_json: Seq<char>, args: JsonView)
    requires
        args is Object,
    ensures
        opened(args_json, whatif_names(), 1) == Ok::<JsonView, Seq<char>>(args) && build_args_in(
            args,
            4,
        ) is Ok ==> {
            &&& member(args, "custom_mods"@) is None ==> whatif_args(args_json) == Err::<
                (BuildArgsView, Seq<Seq<char>>),
                Seq<char>,
            >("missing field `"@ + "custom_mods"@ + "`"@)
            &&& member(args, "custom_mods"@) is Some && !(at_key(args, "custom_mods"@) is Array)
                ==> whatif_args(args_json) == Err::<(BuildArgsView, Seq<Seq<char>>), Seq<char>>(
                "invalid value for `"@ + "custom_mods"@ + "`, expected "@ + "a list"@,
            )
        },
        opened(args_json, pob_names(), 1) == Ok::<JsonView, Seq<char>>(args) && build_args_in(
            args,
            3,
        ) is Ok && !(at_key(args, "custom_mods"@) is Null) ==> pob_args(args_json) == Err::<
            BuildArgsView,
            Seq<char>,
        >(
            "`custom_mods` is not a `pob` argument — call `pob_whatif` to measure hypothetical modifier changes"@,
        ),
{
}

/// What could not be planned is told as it is: the arguments first, the build
/// next, the lines last.
pub proof fn law_refused_comparisons_are_told(args_json: Seq<char>)
    ensures
        whatif_args(args_json) matches Err(error) ==> whatif_planned(args_json) == Err::<
            WhatifView,
            Seq<char>,
        >(error),
        whatif_args(args_json) matches Ok((args, mods)) ==> match build_of(args) {
            Err(error) => whatif_planned(args_json) == Err::<WhatifView, Seq<char>>(error),
            Ok(xml) => injected(args.game, xml, mods) matches Err(error) ==> whatif_planned(
                args_json,
            ) == Err::<WhatifView, Seq<char>>(error),
        },
{
}

/// A build of the other game is refused, and told which game was asked for.
pub proof fn law_foreign_builds_are_told(game: Game, xml: Seq<char>)
    ensures
        prepared(xml) is Ok && !belongs_to(game, prepared(xml)->Ok_0) ==> checked(game, xml) is Err
            && text::is_at(
            checked(game, xml)->Err_0,
            "this build XML does not belong to "@ + match game {
                Game::Poe1 => "poe1"@,
                Game::Poe2 => "poe2"@,
            },
            0,
        ),
        prepared(xml) matches Err(error) ==> checked(game, xml) == Err::<Seq<char>, Seq<char>>(
            error,
        ),
{
    if checked(game, xml) is Err && prepared(xml) is Ok {
        let error = checked(game, xml)->Err_0;
        let head = "this build XML does not belong to "@ + match game {
            Game::Poe1 => "poe1"@,
            Game::Poe2 => "poe2"@,
        };
        assert(error.subrange(0, head.len() as int) =~= head);
    }
}

}
