//! League resolver: the harness's freshness anchor.
//!
//! Current leagues come from a chain of live sources, first success wins.
//! Path of Exile 1: the official league API, poe.ninja, the trade-site data
//! endpoint. The official source is **authoritative**: `category.current`
//! marks the challenge-league family, `rules` marks Hardcore, SSF and
//! Ruthless, and `startAt` is there. Path of Exile 2: the official endpoint
//! asks for credentials, so poe.ninja and the trade-site data endpoint, with
//! **derived** annotation (permanent leagues recognized by their stable ids,
//! hardcore variants by naming); the result says so.
//!
//! Concluded leagues come from a dataset that is shipped with the program.
//! Every result section carries a `source`, and the whole result a
//! `fetched_at` stamp.

use vstd::prelude::*;

use crate::args::{
    argument, default_flag, find_argument, is_record, law_texts_are_read_in_order, maybe_text,
    mistyped, mistyped_text, missing,
    missing_text, names_view, open_args, opened, optional_text, read_default_flag, read_flag,
    read_game, read_list, read_optional_text, read_text, read_texts, read_variant, reads_as_record,
    required_flag, required_game, required_list, required_text, texts_of, variant_name,
};
use crate::held::hold;
use crate::http::{fetched, Fetched, HttpGet, HttpSource};
use crate::json;
use crate::json::{
    at_index, at_key, items_in, items_view, lemma_items_push, lemma_items_view, member, no_members,
    parsed, printed, put, put_some, skimmed, Json, JsonView,
};
use crate::text;
use crate::text::{is_at, occurs, separated, texts};
use crate::tool::{answer_of, fault_text, Answer, Fault, Tool, ToolError};
use crate::toolkit::{game_id, is_sourced, is_stamp, is_stamped, now_utc, Game};
use crate::written::{
    array_text, begins_with, check_record, duplicate, duplicate_text, field_text, find_field,
    find_repeated, find_repeated_in_list, keep_list, keep_members, keep_record, kept_list,
    kept_record, key_of, maybe, members_kept, object_text, opens_with, pairs_view, part_at, parts,
    parts_of, record_fault, repeated_in, repeated_in_list, take_part, write_array, write_object,
    writes_key,
};

verus! {

/// What a derived section says of itself.
pub const NOTE_DERIVED: &'static str =
    "league kinds derived from stable naming (source returned names only); a time-limited event league, if one is running, is indistinguishable from the challenge league here";

/// Which league sets to put into the result.
#[derive(Debug, Clone, Copy, PartialEq, Eq, Structural)]
pub enum Include {
    /// Only the currently active leagues (live fetch).
    Current,
    /// Only concluded leagues (shipped dataset).
    Past,
    /// Both; if the live fetch fails, `current` degrades to an error note
    /// while `past` is still served from the dataset.
    All,
}

impl Default for Include {
    fn default() -> (sets: Self)
        ensures
            sets == Include::Current,
    {
        Include::Current
    }
}

/// A currently active league, annotated for unambiguous model use.
#[derive(Debug, Clone)]
pub struct CurrentLeague {
    /// League id as used by the official, poe.ninja and trade APIs.
    pub id: String,
    /// `challenge`, `permanent`, or `event`.
    pub kind: &'static str,
    /// Whether this is a hardcore variant.
    pub hardcore: bool,
    /// Solo self-found rule active (authoritative sources only).
    pub ssf: Option<bool>,
    /// Ruthless/HardMode rule active (authoritative sources only).
    pub ruthless: Option<bool>,
    /// League start timestamp (authoritative sources only).
    pub start_at: Option<String>,
    /// League end timestamp when scheduled (authoritative sources only).
    pub end_at: Option<String>,
}

/// What a [`CurrentLeague`] says.
pub ghost struct LeagueView {
    /// League id.
    pub id: Seq<char>,
    /// `challenge`, `permanent`, or `event`.
    pub kind: Seq<char>,
    /// Whether this is a hardcore variant.
    pub hardcore: bool,
    /// Solo self-found rule active.
    pub ssf: Option<bool>,
    /// Ruthless rule active.
    pub ruthless: Option<bool>,
    /// League start timestamp.
    pub start_at: Option<Seq<char>>,
    /// League end timestamp.
    pub end_at: Option<Seq<char>>,
}

impl View for CurrentLeague {
    type V = LeagueView;

    open spec fn view(&self) -> LeagueView {
        LeagueView {
            id: self.id@,
            kind: self.kind@,
            hardcore: self.hardcore,
            ssf: self.ssf,
            ruthless: self.ruthless,
            start_at: maybe_text(self.start_at),
            end_at: maybe_text(self.end_at),
        }
    }
}

/// What a list of leagues says.
pub open spec fn leagues_view(leagues: Seq<CurrentLeague>) -> Seq<LeagueView> {
    leagues.map_values(|league: CurrentLeague| league@)
}

/// A live source for current leagues, in fallback order.
#[derive(Debug, Clone, Copy, PartialEq, Eq, Structural)]
pub enum Source {
    /// Official league API: authoritative annotation (Path of Exile 1 only).
    Official,
    /// poe.ninja economy league list: bare names, derived annotation.
    Ninja,
    /// Trade-site data endpoint: bare names, derived annotation.
    TradeData,
}

/// The sources of a game, in the order in which they are asked.
pub open spec fn chain(game: Game) -> Seq<Source> {
    match game {
        Game::Poe1 => seq![Source::Official, Source::Ninja, Source::TradeData],
        Game::Poe2 => seq![Source::Ninja, Source::TradeData],
    }
}

/// The address of a source.
pub open spec fn source_url(source: Source, game: Game) -> Seq<char> {
    match source {
        Source::Official => "https://www.pathofexile.com/api/leagues?type=main&realm=pc"@,
        Source::Ninja => "https://poe.ninja/"@ + game_id(game) + "/api/economy/leagues"@,
        Source::TradeData => match game {
            Game::Poe1 => "https://www.pathofexile.com/api/trade/data/leagues"@,
            Game::Poe2 => "https://www.pathofexile.com/api/trade2/data/leagues"@,
        },
    }
}

/// Whether an id is that of a permanent league. These ids have been stable in
/// the official league API since 2013.
pub open spec fn is_permanent(id: Seq<char>) -> bool {
    id == "Standard"@ || id == "Hardcore"@ || id == "Solo Self-Found"@ || id == "Hardcore SSF"@
}

/// The annotation of a bare league id: permanent leagues by their stable ids,
/// hardcore variants by naming convention (`Hardcore X` in Path of Exile 1,
/// `HC X` in Path of Exile 2).
pub open spec fn derived(id: Seq<char>) -> LeagueView {
    LeagueView {
        id,
        kind: if is_permanent(id) {
            "permanent"@
        } else {
            "challenge"@
        },
        hardcore: id == "Hardcore"@ || id == "Hardcore SSF"@ || is_at(id, "Hardcore "@, 0) || is_at(
            id,
            "HC "@,
            0,
        ),
        ssf: None,
        ruthless: None,
        start_at: None,
        end_at: None,
    }
}

/// Why a value is no record.
pub open spec fn no_record(what: Seq<char>) -> Seq<char> {
    "invalid type, expected "@ + what
}

/// The id of a record whose first field it is, among at most `most`.
pub open spec fn record_id(value: JsonView, most: nat, what: Seq<char>) -> Result<
    Seq<char>,
    Seq<char>,
> {
    if !is_record(value, most) {
        Err(no_record(what))
    } else {
        required_text(argument(value, "id"@, 0), "id"@)
    }
}

/// The ids of the first `n` records; or what is wrong with the first that has
/// none.
pub open spec fn record_ids(values: Seq<JsonView>, what: Seq<char>, n: nat) -> Result<
    Seq<Seq<char>>,
    Seq<char>,
>
    decreases n,
{
    if n == 0 {
        Ok(seq![])
    } else {
        match record_ids(values, what, (n - 1) as nat) {
            Err(error) => Err(error),
            Ok(before) => match record_id(values[n - 1], 1, what) {
                Err(error) => Err(error),
                Ok(id) => Ok(before.push(id)),
            },
        }
    }
}

/// The ids of a list of records.
pub open spec fn ids_in(list: JsonView, what: Seq<char>) -> Result<Seq<Seq<char>>, Seq<char>> {
    match items_in(list) {
        None => Err(no_record("a list"@)),
        Some(values) => record_ids(values, what, values.len()),
    }
}

/// The rule ids of an official entry; none where the field is missing.
pub open spec fn rules_of(value: JsonView) -> Result<Seq<Seq<char>>, Seq<char>> {
    match argument(value, "rules"@, 2) {
        None => Ok(seq![]),
        Some(rules) => ids_in(rules, "a rule"@),
    }
}

/// Whether the category of an official entry is the current one; not where the
/// field is missing.
pub open spec fn current_of(value: JsonView) -> Result<bool, Seq<char>> {
    match argument(value, "category"@, 1) {
        None => Ok(false),
        Some(category) => if !is_record(category, 1) {
            Err(no_record("a category"@))
        } else {
            default_flag(argument(category, "current"@, 0), "current"@)
        },
    }
}

/// The league that an official entry describes.
pub open spec fn official(value: JsonView) -> Result<LeagueView, Seq<char>> {
    match record_id(value, 6, "a league"@) {
        Err(error) => Err(error),
        Ok(id) => match current_of(value) {
            Err(error) => Err(error),
            Ok(current) => match rules_of(value) {
                Err(error) => Err(error),
                Ok(rules) => match optional_text(argument(value, "startAt"@, 3), "startAt"@) {
                    Err(error) => Err(error),
                    Ok(start_at) => match optional_text(argument(value, "endAt"@, 4), "endAt"@) {
                        Err(error) => Err(error),
                        Ok(end_at) => match default_flag(argument(value, "event"@, 5), "event"@) {
                            Err(error) => Err(error),
                            Ok(event) => Ok(
                                annotated(id, current, rules, start_at, end_at, event),
                            ),
                        },
                    },
                },
            },
        },
    }
}

/// The annotation of an official entry.
pub open spec fn annotated(
    id: Seq<char>,
    current: bool,
    rules: Seq<Seq<char>>,
    start_at: Option<Seq<char>>,
    end_at: Option<Seq<char>>,
    event: bool,
) -> LeagueView {
    LeagueView {
        id,
        kind: if event {
            "event"@
        } else if current {
            "challenge"@
        } else {
            "permanent"@
        },
        hardcore: rules.contains("Hardcore"@),
        ssf: Some(rules.contains("NoParties"@)),
        ruthless: Some(rules.contains("HardMode"@)),
        start_at,
        end_at,
    }
}

/// The leagues that the first `n` official entries describe.
pub open spec fn officials(values: Seq<JsonView>, n: nat) -> Result<Seq<LeagueView>, Seq<char>>
    decreases n,
{
    if n == 0 {
        Ok(seq![])
    } else {
        match officials(values, (n - 1) as nat) {
            Err(error) => Err(error),
            Ok(before) => match official(values[n - 1]) {
                Err(error) => Err(error),
                Ok(league) => Ok(before.push(league)),
            },
        }
    }
}

/// The leagues of bare ids.
pub open spec fn derived_all(ids: Result<Seq<Seq<char>>, Seq<char>>) -> Result<
    Seq<LeagueView>,
    Seq<char>,
> {
    match ids {
        Err(error) => Err(error),
        Ok(ids) => Ok(ids.map_values(|id: Seq<char>| derived(id))),
    }
}

/// The leagues that a response of a source lists.
pub open spec fn leagues_in(source: Source, response: JsonView) -> Result<
    Seq<LeagueView>,
    Seq<char>,
> {
    match source {
        Source::Official => match items_in(response) {
            None => Err(no_record("a list"@)),
            Some(values) => officials(values, values.len()),
        },
        Source::Ninja => derived_all(ids_in(response, "a league"@)),
        Source::TradeData => if !is_record(response, 1) {
            Err(no_record("a result"@))
        } else {
            match argument(response, "result"@, 0) {
                None => Err(missing("result"@)),
                Some(list) => derived_all(ids_in(list, "a league"@)),
            }
        },
    }
}

/// The leagues that the body of a response lists.
pub open spec fn leagues_parsed(source: Source, body: Seq<char>) -> Result<
    Seq<LeagueView>,
    Seq<char>,
> {
    match skimmed(body) {
        Some(error) => Err(error),
        None => match parsed(kept_body(source, body)) {
            Err(error) => Err(error),
            Ok(response) => match leagues_in(source, response) {
                Err(error) => Err(error),
                Ok(leagues) => match leagues_repeated(source, response, kept_body(source, body)) {
                    Some(name) => Err(duplicate(name)),
                    None => Ok(leagues),
                },
            },
        },
    }
}

/// The text of a field of an official entry, without what nothing reads.
pub open spec fn kept_field(key: Option<Seq<char>>, value: Seq<char>) -> Seq<char> {
    if key == Some("category"@) {
        kept_record(value, seq!["current"@])
    } else if key == Some("rules"@) {
        kept_list(value, seq!["id"@])
    } else {
        value
    }
}

/// The text of an official entry, without what nothing reads.
pub open spec fn kept_official(s: Seq<char>) -> Seq<char> {
    if begins_with(s, '{') {
        object_text(
            members_kept(s, official_names()).map_values(
                |member: (Seq<char>, Seq<char>)|
                    (member.0, kept_field(key_of(member.0), member.1)),
            ),
        )
    } else if begins_with(s, '[') {
        array_text(
            Seq::new(
                parts(s).len(),
                |i: int|
                    kept_field(
                        if 0 <= i < 6 {
                            Some(official_names()[i])
                        } else {
                            None
                        },
                        parts(s)[i],
                    ),
            ),
        )
    } else {
        s
    }
}

/// The body of a response, without what nothing reads: a field that is not
/// asked for may hold anything that is JSON, however deep and whatever the
/// size of its numbers.
pub open spec fn kept_body(source: Source, body: Seq<char>) -> Seq<char> {
    match source {
        Source::Official => if begins_with(body, '[') {
            array_text(parts(body).map_values(|entry: Seq<char>| kept_official(entry)))
        } else {
            body
        },
        Source::Ninja => kept_list(body, seq!["id"@]),
        Source::TradeData => if begins_with(body, '{') {
            object_text(
                members_kept(body, seq!["result"@]).map_values(
                    |member: (Seq<char>, Seq<char>)| (member.0, kept_list(member.1, seq!["id"@])),
                ),
            )
        } else if begins_with(body, '[') {
            array_text(
                parts(body).map_values(|list: Seq<char>| kept_list(list, seq!["id"@])),
            )
        } else {
            body
        },
    }
}

/// The names of the fields of an official entry, in order.
pub open spec fn official_names() -> Seq<Seq<char>> {
    seq!["id"@, "category"@, "rules"@, "startAt"@, "endAt"@, "event"@]
}

/// The first of the fields that an official entry, its category or one of its
/// rules writes twice.
pub open spec fn official_repeated(value: JsonView, s: Seq<char>) -> Option<Seq<char>> {
    let category = match argument(value, "category"@, 1) {
        Some(category) => repeated_in(
            category,
            field_text(value, s, "category"@, 1),
            seq!["current"@],
        ),
        None => None,
    };
    let rules = match argument(value, "rules"@, 2) {
        Some(rules) => repeated_in_list(rules, field_text(value, s, "rules"@, 2), seq!["id"@]),
        None => None,
    };
    if repeated_in(value, s, official_names()) is Some {
        repeated_in(value, s, official_names())
    } else if category is Some {
        category
    } else {
        rules
    }
}

/// The first of the fields that one of the official entries from `k` on writes
/// twice.
pub open spec fn officials_repeated(items: Seq<JsonView>, list: Seq<Seq<char>>, k: int) -> Option<
    Seq<char>,
>
    decreases items.len() - k,
{
    if k < 0 || k >= items.len() {
        None
    } else {
        match official_repeated(items[k], part_at(list, k)) {
            Some(name) => Some(name),
            None => officials_repeated(items, list, k + 1),
        }
    }
}

/// The first of the fields that are read which the body of a response writes
/// twice.
pub open spec fn leagues_repeated(source: Source, response: JsonView, body: Seq<char>) -> Option<
    Seq<char>,
> {
    match source {
        Source::Official => match response {
            JsonView::Array(items) => officials_repeated(items, parts(body), 0),
            _ => None,
        },
        Source::Ninja => repeated_in_list(response, body, seq!["id"@]),
        Source::TradeData => match repeated_in(response, body, seq!["result"@]) {
            Some(name) => Some(name),
            None => match argument(response, "result"@, 0) {
                Some(list) => repeated_in_list(
                    list,
                    field_text(response, body, "result"@, 0),
                    seq!["id"@],
                ),
                None => None,
            },
        },
    }
}

/// A flag as a value.
pub open spec fn as_flag(flag: Option<bool>) -> Option<JsonView> {
    match flag {
        Some(flag) => Some(JsonView::Bool(flag)),
        None => None,
    }
}

/// A text as a value.
pub open spec fn as_text(text: Option<Seq<char>>) -> Option<JsonView> {
    match text {
        Some(text) => Some(JsonView::Text(text)),
        None => None,
    }
}

/// A current league as JSON; what is not known is left out.
pub open spec fn league_json(league: LeagueView) -> JsonView {
    let out = put(no_members(), "id"@, JsonView::Text(league.id));
    let out = put(out, "kind"@, JsonView::Text(league.kind));
    let out = put(out, "hardcore"@, JsonView::Bool(league.hardcore));
    let out = put_some(out, "ssf"@, as_flag(league.ssf));
    let out = put_some(out, "ruthless"@, as_flag(league.ruthless));
    let out = put_some(out, "start_at"@, as_text(league.start_at));
    put_some(out, "end_at"@, as_text(league.end_at))
}

/// The section of current leagues.
pub open spec fn current_json(source: Source, game: Game, leagues: Seq<LeagueView>) -> JsonView {
    let out = put(
        no_members(),
        "leagues"@,
        JsonView::Array(leagues.map_values(|league: LeagueView| league_json(league))),
    );
    let out = put(out, "source"@, JsonView::Text(source_url(source, game)));
    match source {
        Source::Official => put(out, "annotation"@, JsonView::Text("authoritative"@)),
        _ => put(
            put(out, "annotation"@, JsonView::Text("derived"@)),
            "note"@,
            JsonView::Text(NOTE_DERIVED@),
        ),
    }
}

/// What asking a source came to: the section of current leagues, or why there
/// is none.
pub open spec fn source_section(source: Source, game: Game, reply: Fetched) -> Result<
    JsonView,
    Seq<char>,
> {
    match reply {
        Err(error) => Err(error),
        Ok(body) => match leagues_parsed(source, body) {
            Err(error) => Err(
                "unexpected response from "@ + source_url(source, game) + ": "@ + error,
            ),
            Ok(leagues) => Ok(current_json(source, game, leagues)),
        },
    }
}

/// What the first `n` sources failed with.
pub open spec fn chain_errors(game: Game, replies: Seq<Fetched>, n: nat) -> Seq<Seq<char>> {
    Seq::new(n, |i: int| source_section(chain(game)[i], game, replies[i])->Err_0)
}

/// Whether the sources were asked in order, each after the one before it
/// failed, up to the first that succeeded.
pub open spec fn asked_in_order(game: Game, replies: Seq<Fetched>) -> bool {
    &&& 0 < replies.len() <= chain(game).len()
    &&& forall|i: int|
        0 <= i < replies.len() - 1 ==> source_section(
            chain(game)[i],
            game,
            #[trigger] replies[i],
        ) is Err
    &&& replies.len() < chain(game).len() ==> source_section(
        chain(game)[replies.len() - 1],
        game,
        replies.last(),
    ) is Ok
}

/// What asking the sources came to.
pub open spec fn current_section(game: Game, replies: Seq<Fetched>) -> Result<
    JsonView,
    Seq<char>,
> {
    match source_section(chain(game)[replies.len() - 1], game, replies.last()) {
        Ok(section) => Ok(section),
        Err(_) => Err(
            "all live sources failed: "@ + separated(
                chain_errors(game, replies, replies.len()),
                " | "@,
            ),
        ),
    }
}

/// One concluded league of the dataset.
#[derive(Debug, Clone)]
pub struct PastLeague {
    /// League id as used by the poe.ninja and trade APIs.
    pub name: String,
    /// Game version that shipped it (such as `3.24`, `0.2`).
    pub version: String,
    /// Whether this was a hardcore league (2013-2015 twin-league era).
    pub hardcore: bool,
    /// Launch date, `YYYY-MM-DD`.
    pub start_date: String,
    /// End date, `YYYY-MM-DD`.
    pub end_date: Option<String>,
}

/// What a [`PastLeague`] says.
pub ghost struct PastView {
    /// League id.
    pub name: Seq<char>,
    /// Game version.
    pub version: Seq<char>,
    /// Whether this was a hardcore league.
    pub hardcore: bool,
    /// Launch date.
    pub start_date: Seq<char>,
    /// End date.
    pub end_date: Option<Seq<char>>,
}

impl View for PastLeague {
    type V = PastView;

    open spec fn view(&self) -> PastView {
        PastView {
            name: self.name@,
            version: self.version@,
            hardcore: self.hardcore,
            start_date: self.start_date@,
            end_date: maybe_text(self.end_date),
        }
    }
}

/// A dataset of concluded leagues.
#[derive(Debug)]
pub struct Dataset {
    /// When it was put together, `YYYY-MM-DD`.
    pub generated_at: String,
    /// What it was put together from.
    pub sources: Vec<String>,
    /// The leagues.
    pub leagues: Vec<PastLeague>,
}

/// What a [`Dataset`] says.
pub ghost struct DatasetView {
    /// When it was put together.
    pub generated_at: Seq<char>,
    /// What it was put together from.
    pub sources: Seq<Seq<char>>,
    /// The leagues.
    pub leagues: Seq<PastView>,
}

impl View for Dataset {
    type V = DatasetView;

    open spec fn view(&self) -> DatasetView {
        DatasetView {
            generated_at: self.generated_at@,
            sources: texts(self.sources@),
            leagues: self.leagues@.map_values(|league: PastLeague| league@),
        }
    }
}

/// The names of the fields of a concluded league, in order.
pub open spec fn past_names() -> Seq<Seq<char>> {
    seq!["name"@, "version"@, "hardcore"@, "start_date"@, "end_date"@]
}

/// The names of the fields of a dataset, in order.
pub open spec fn dataset_names() -> Seq<Seq<char>> {
    seq!["generated_at"@, "sources"@, "leagues"@]
}

/// The concluded league that a record describes.
pub open spec fn past_league(value: JsonView, s: Seq<char>) -> Result<PastView, Seq<char>> {
    match record_fault(value, s, past_names()) {
        Some(error) => Err(error),
        None => match required_text(argument(value, "name"@, 0), "name"@) {
            Err(error) => Err(error),
            Ok(name) => match required_text(argument(value, "version"@, 1), "version"@) {
                Err(error) => Err(error),
                Ok(version) => match required_flag(
                    argument(value, "hardcore"@, 2),
                    "hardcore"@,
                ) {
                    Err(error) => Err(error),
                    Ok(hardcore) => match required_text(
                        argument(value, "start_date"@, 3),
                        "start_date"@,
                    ) {
                        Err(error) => Err(error),
                        Ok(start_date) => match optional_text(
                            argument(value, "end_date"@, 4),
                            "end_date"@,
                        ) {
                            Err(error) => Err(error),
                            Ok(end_date) => Ok(
                                PastView { name, version, hardcore, start_date, end_date },
                            ),
                        },
                    },
                },
            },
        },
    }
}

/// The concluded leagues that the first `n` records, with their texts,
/// describe.
pub open spec fn past_leagues(values: Seq<JsonView>, list: Seq<Seq<char>>, n: nat) -> Result<
    Seq<PastView>,
    Seq<char>,
>
    decreases n,
{
    if n == 0 {
        Ok(seq![])
    } else {
        match past_leagues(values, list, (n - 1) as nat) {
            Err(error) => Err(error),
            Ok(before) => match past_league(values[n - 1], part_at(list, n - 1)) {
                Err(error) => Err(error),
                Ok(league) => Ok(before.push(league)),
            },
        }
    }
}

/// The dataset that a record describes.
pub open spec fn dataset_in(value: JsonView, raw: Seq<char>) -> Result<DatasetView, Seq<char>> {
    match record_fault(value, raw, dataset_names()) {
        Some(error) => Err(error),
        None => match required_text(argument(value, "generated_at"@, 0), "generated_at"@) {
            Err(error) => Err(error),
            Ok(generated_at) => match required_list(
                argument(value, "sources"@, 1),
                "sources"@,
            ) {
                Err(error) => Err(error),
                Ok(sources) => match texts_of(sources, "sources"@, sources.len()) {
                    Err(error) => Err(error),
                    Ok(sources) => match required_list(
                        argument(value, "leagues"@, 2),
                        "leagues"@,
                    ) {
                        Err(error) => Err(error),
                        Ok(leagues) => match past_leagues(
                            leagues,
                            parts(field_text(value, raw, "leagues"@, 2)),
                            leagues.len(),
                        ) {
                            Err(error) => Err(error),
                            Ok(leagues) => Ok(DatasetView { generated_at, sources, leagues }),
                        },
                    },
                },
            },
        },
    }
}

/// The dataset that a text describes.
pub open spec fn dataset_parsed(raw: Seq<char>) -> Result<DatasetView, Seq<char>> {
    match parsed(raw) {
        Err(error) => Err(error),
        Ok(value) => dataset_in(value, raw),
    }
}

/// A concluded league as JSON.
pub open spec fn past_json(league: PastView) -> JsonView {
    let out = put(no_members(), "name"@, JsonView::Text(league.name));
    let out = put(out, "version"@, JsonView::Text(league.version));
    let out = put(out, "hardcore"@, JsonView::Bool(league.hardcore));
    let out = put(out, "start_date"@, JsonView::Text(league.start_date));
    put(
        out,
        "end_date"@,
        match league.end_date {
            Some(date) => JsonView::Text(date),
            None => JsonView::Null,
        },
    )
}

/// What the list of concluded leagues covers.
pub const PAST_SCOPE: &'static str =
    "concluded challenge leagues only (ids as used by the poe.ninja/trade APIs), including the 2013-2015 hardcore twin leagues; time-limited events and the permanent Standard/Hardcore leagues are not part of this list";

/// Where a dataset comes from.
pub open spec fn dataset_source(dataset: DatasetView) -> Seq<char> {
    "vendored dataset (generated "@ + dataset.generated_at + ") compiled from: "@ + separated(
        dataset.sources,
        ", "@,
    )
}

/// The section of concluded leagues.
pub open spec fn dataset_json(dataset: DatasetView) -> JsonView {
    let out = put(
        no_members(),
        "leagues"@,
        JsonView::Array(dataset.leagues.map_values(|league: PastView| past_json(league))),
    );
    let out = put(out, "scope"@, JsonView::Text(PAST_SCOPE@));
    put(out, "source"@, JsonView::Text(dataset_source(dataset)))
}

/// The section of concluded leagues, or why there is none.
pub open spec fn past_section(raw: Seq<char>) -> Result<JsonView, Seq<char>> {
    match dataset_parsed(raw) {
        Err(error) => Err("vendored dataset invalid: "@ + error),
        Ok(dataset) => Ok(dataset_json(dataset)),
    }
}

/// The names of the arguments, in order.
pub open spec fn league_names() -> Seq<Seq<char>> {
    seq!["game"@, "include"@]
}

/// The league sets that a name asks for.
pub open spec fn include_of(name: Seq<char>) -> Option<Include> {
    if name == "current"@ {
        Some(Include::Current)
    } else if name == "past"@ {
        Some(Include::Past)
    } else if name == "all"@ {
        Some(Include::All)
    } else {
        None
    }
}

/// The league sets that an argument asks for: the current ones where it is
/// missing or `null`.
pub open spec fn optional_include(value: Option<JsonView>) -> Result<Include, Seq<char>> {
    match value {
        None => Ok(Include::Current),
        Some(JsonView::Null) => Ok(Include::Current),
        Some(value) => match variant_name(value) {
            None => Err(mistyped("include"@, "`current`, `past` or `all`"@)),
            Some(name) => match include_of(name) {
                Some(sets) => Ok(sets),
                None => Err(mistyped("include"@, "`current`, `past` or `all`"@)),
            },
        },
    }
}

/// The arguments that a text holds.
pub open spec fn league_args(args_json: Seq<char>) -> Result<(Game, Include), Seq<char>> {
    match opened(args_json, league_names(), 2) {
        Err(error) => Err(error),
        Ok(args) => match required_game(argument(args, "game"@, 0), "game"@) {
            Err(error) => Err(error),
            Ok(game) => match optional_include(argument(args, "include"@, 1)) {
                Err(error) => Err(error),
                Ok(sets) => Ok((game, sets)),
            },
        },
    }
}

/// What a result says where every live source is down.
pub const NOTE_DEGRADED: &'static str =
    "live sources unreachable; the past section below is served from the vendored dataset and is still valid";

/// The section of current leagues in a result that also has the concluded
/// ones: degraded rather than failed.
pub open spec fn degraded(section: Result<JsonView, Seq<char>>) -> JsonView {
    match section {
        Ok(section) => section,
        Err(error) => put(
            put(
                no_members(),
                "error"@,
                JsonView::Text(fault_text(Fault::Failed(error))),
            ),
            "note"@,
            JsonView::Text(NOTE_DEGRADED@),
        ),
    }
}

/// What a call is answered, given the time, the two sections and which are
/// asked for.
pub open spec fn league_answer(
    game: Game,
    sets: Include,
    stamp: Seq<char>,
    current: Result<JsonView, Seq<char>>,
    past: Result<JsonView, Seq<char>>,
) -> Answer {
    let head = put(
        put(no_members(), "game"@, JsonView::Text(game_id(game))),
        "fetched_at"@,
        JsonView::Text(stamp),
    );
    match sets {
        Include::Current => match current {
            Ok(section) => Ok(printed(put(head, "current"@, section))),
            Err(error) => Err(Fault::Failed(error)),
        },
        Include::Past => match past {
            Ok(section) => Ok(printed(put(head, "past"@, section))),
            Err(error) => Err(Fault::Failed(error)),
        },
        Include::All => match past {
            Ok(section) => Ok(
                printed(put(put(head, "current"@, degraded(current)), "past"@, section)),
            ),
            Err(error) => Err(Fault::Failed(error)),
        },
    }
}

impl Source {
    /// The sources of a game, in the order in which they are asked.
    pub fn chain(game: Game) -> (sources: Vec<Source>)
        ensures
            sources@ == chain(game),
    {
        let sources = match game {
            Game::Poe1 => vec![Source::Official, Source::Ninja, Source::TradeData],
            Game::Poe2 => vec![Source::Ninja, Source::TradeData],
        };
        assert(sources@ =~= chain(game));
        sources
    }

    /// The address of the source.
    pub fn url(self, game: Game) -> (url: String)
        ensures
            url@ == source_url(self, game),
    {
        match self {
            Source::Official => {
                "https://www.pathofexile.com/api/leagues?type=main&realm=pc".to_owned()
            },
            Source::Ninja => {
                let mut url = "https://poe.ninja/".to_owned();
                url.append(game.as_str());
                url.append("/api/economy/leagues");
                url
            },
            Source::TradeData => match game {
                Game::Poe1 => "https://www.pathofexile.com/api/trade/data/leagues".to_owned(),
                Game::Poe2 => "https://www.pathofexile.com/api/trade2/data/leagues".to_owned(),
            },
        }
    }

    /// Whether the source annotates its leagues itself.
    pub fn authoritative(self) -> (yes: bool)
        ensures
            yes == (self == Source::Official),
    {
        match self {
            Source::Official => true,
            _ => false,
        }
    }

    /// The leagues that a response of the source lists.
    pub fn read(self, response: &Json) -> (leagues: Result<Vec<CurrentLeague>, String>)
        ensures
            match leagues {
                Ok(leagues) => leagues_in(self, response@) is Ok && leagues_in(
                    self,
                    response@,
                )->Ok_0 == leagues_view(leagues@),
                Err(error) => leagues_in(self, response@) is Err && leagues_in(
                    self,
                    response@,
                )->Err_0 == error@,
            },
    {
        match self {
            Source::Official => read_officials(response),
            Source::Ninja => read_derived(response),
            Source::TradeData => {
                if !reads_as_record(response, 1) {
                    return Err("invalid type, expected ".to_owned().concat("a result"));
                }
                match find_argument(response, "result", 0) {
                    None => Err(missing_text("result")),
                    Some(list) => read_derived(list),
                }
            },
        }
    }

    /// The leagues that the body of a response lists.
    pub fn parse(self, body: &str) -> (leagues: Result<Vec<CurrentLeague>, String>)
        ensures
            match leagues {
                Ok(leagues) => leagues_parsed(self, body@) is Ok && leagues_parsed(
                    self,
                    body@,
                )->Ok_0 == leagues_view(leagues@),
                Err(error) => leagues_parsed(self, body@) is Err && leagues_parsed(
                    self,
                    body@,
                )->Err_0 == error@,
            },
    {
        if let Some(fault) = json::skim(body) {
            return Err(fault);
        }
        let kept = keep_body(self, body);
        match json::parse(kept.as_str()) {
            Err(error) => Err(error),
            Ok(response) => match self.read(&response) {
                Err(error) => Err(error),
                Ok(leagues) => match self.find_repeated(&response, kept.as_str()) {
                    Some(name) => Err(duplicate_text(name.as_str())),
                    None => Ok(leagues),
                },
            },
        }
    }

    /// The first of the fields that are read which the body of a response
    /// writes twice.
    fn find_repeated(self, response: &Json, body: &str) -> (name: Option<String>)
        ensures
            maybe(name) == leagues_repeated(self, response@, body@),
    {
        let id: [&'static str; 1] = ["id"];
        let result: [&'static str; 1] = ["result"];
        proof {
            assert(names_view(id@) =~= seq!["id"@]);
            assert(names_view(result@) =~= seq!["result"@]);
        }
        match self {
            Source::Official => find_repeated_in_officials(response, body),
            Source::Ninja => find_repeated_in_list(response, body, &id),
            Source::TradeData => {
                let found = find_repeated(response, body, &result);
                if found.is_some() {
                    return found;
                }
                match find_argument(response, "result", 0) {
                    None => None,
                    Some(list) => {
                        let part = find_field(response, body, "result", 0);
                        find_repeated_in_list(list, part.as_str(), &id)
                    },
                }
            },
        }
    }
}

/// The text of a category, without what nothing reads.
fn keep_category(value: &str) -> (out: String)
    ensures
        out@ == kept_record(value@, seq!["current"@]),
{
    let names: [&'static str; 1] = ["current"];
    assert(names_view(names@) =~= seq!["current"@]);
    keep_record(value, &names)
}

/// The text of a list of records with an id, without what nothing reads.
fn keep_ids(value: &str) -> (out: String)
    ensures
        out@ == kept_list(value@, seq!["id"@]),
{
    let names: [&'static str; 1] = ["id"];
    assert(names_view(names@) =~= seq!["id"@]);
    keep_list(value, &names)
}

/// The text of an official entry, without what nothing reads.
fn keep_official(s: &str) -> (out: String)
    ensures
        out@ == kept_official(s@),
{
    proof {
        lemma_field_names();
    }
    if opens_with(s, '{') {
        let names: [&'static str; 6] = ["id", "category", "rules", "startAt", "endAt", "event"];
        assert(names_view(names@) =~= official_names());
        let members = keep_members(s, &names);
        let ghost all = members_kept(s@, official_names()).map_values(
            |member: (Seq<char>, Seq<char>)| (member.0, kept_field(key_of(member.0), member.1)),
        );
        let mut kept: Vec<(String, String)> = Vec::new();
        let mut i: usize = 0;
        while i < members.len()
            invariant
                pairs_view(members@) == members_kept(s@, official_names()),
                all == members_kept(s@, official_names()).map_values(
                    |member: (Seq<char>, Seq<char>)|
                        (member.0, kept_field(key_of(member.0), member.1)),
                ),
                i <= members@.len(),
                kept@.len() == i,
                pairs_view(kept@) =~= all.take(i as int),
                "category"@ != "rules"@,
            decreases members@.len() - i,
        {
            let key = members[i].0.clone();
            let value = members[i].1.as_str();
            assert(members_kept(s@, official_names())[i as int] == (key@, value@)) by {
                assert(pairs_view(members@)[i as int] == (members@[i as int].0@, members@[i as int].1@));
            }
            let rest = if writes_key(key.as_str(), "category") {
                keep_category(value)
            } else if writes_key(key.as_str(), "rules") {
                keep_ids(value)
            } else {
                value.to_owned()
            };
            kept.push((key, rest));
            i += 1;
        }
        assert(pairs_view(kept@) =~= all);
        return write_object(&kept);
    }
    if !opens_with(s, '[') {
        return s.to_owned();
    }
    let list = parts_of(s);
    let ghost all = Seq::new(
        parts(s@).len(),
        |i: int|
            kept_field(
                if 0 <= i < 6 {
                    Some(official_names()[i])
                } else {
                    None
                },
                parts(s@)[i],
            ),
    );
    let mut kept: Vec<String> = Vec::new();
    let mut i: usize = 0;
    while i < list.len()
        invariant
            texts(list@) == parts(s@),
            all.len() == parts(s@).len(),
            forall|k: int|
                0 <= k < all.len() ==> #[trigger] all[k] == kept_field(
                    if 0 <= k < 6 {
                        Some(official_names()[k])
                    } else {
                        None
                    },
                    parts(s@)[k],
                ),
            i <= list@.len(),
            kept@.len() == i,
            texts(kept@) =~= all.take(i as int),
            forall|k: int|
                0 <= k < 6 ==> (#[trigger] official_names()[k] == "category"@ <==> k == 1),
            forall|k: int| 0 <= k < 6 ==> (#[trigger] official_names()[k] == "rules"@ <==> k == 2),
        decreases list@.len() - i,
    {
        assert(parts(s@)[i as int] == list@[i as int]@);
        let value = list[i].as_str();
        let rest = if i == 1 {
            keep_category(value)
        } else if i == 2 {
            keep_ids(value)
        } else {
            value.to_owned()
        };
        assert(rest@ == all[i as int]) by {
            if i < 6 {
                assert(official_names()[i as int] == official_names()[i as int]);
            }
        }
        kept.push(rest);
        i += 1;
    }
    assert(texts(kept@) =~= all);
    write_array(&kept)
}

/// The names of the fields of an official entry are told apart.
proof fn lemma_field_names()
    ensures
        forall|k: int|
            0 <= k < 6 ==> (#[trigger] official_names()[k] == "category"@ <==> k == 1),
        forall|k: int| 0 <= k < 6 ==> (#[trigger] official_names()[k] == "rules"@ <==> k == 2),
        "category"@ != "rules"@,
{
    reveal_strlit("id");
    reveal_strlit("category");
    reveal_strlit("rules");
    reveal_strlit("startAt");
    reveal_strlit("endAt");
    reveal_strlit("event");
    assert("id"@.len() == 2 && "category"@.len() == 8 && "rules"@.len() == 5);
    assert("startAt"@.len() == 7 && "endAt"@.len() == 5 && "event"@.len() == 5);
    assert("rules"@[0] == 'r' && "endAt"@[0] == 'e' && "event"@[0] == 'e');
}

/// The lists of a response of the trade site, without what nothing reads.
fn keep_lists(list: &Vec<String>) -> (kept: Vec<String>)
    ensures
        texts(kept@) == texts(list@).map_values(
            |list: Seq<char>| kept_list(list, seq!["id"@]),
        ),
{
    let ghost all = texts(list@).map_values(|list: Seq<char>| kept_list(list, seq!["id"@]));
    let mut kept: Vec<String> = Vec::new();
    let mut i: usize = 0;
    while i < list.len()
        invariant
            all == texts(list@).map_values(|list: Seq<char>| kept_list(list, seq!["id"@])),
            i <= list@.len(),
            kept@.len() == i,
            texts(kept@) =~= all.take(i as int),
        decreases list@.len() - i,
    {
        kept.push(keep_ids(list[i].as_str()));
        i += 1;
    }
    assert(texts(kept@) =~= all);
    kept
}

/// The body of a response, without what nothing reads.
fn keep_body(source: Source, body: &str) -> (out: String)
    ensures
        out@ == kept_body(source, body@),
{
    match source {
        Source::Official => {
            if !opens_with(body, '[') {
                return body.to_owned();
            }
            let list = parts_of(body);
            let ghost all = parts(body@).map_values(|entry: Seq<char>| kept_official(entry));
            let mut kept: Vec<String> = Vec::new();
            let mut i: usize = 0;
            while i < list.len()
                invariant
                    texts(list@) == parts(body@),
                    all == parts(body@).map_values(|entry: Seq<char>| kept_official(entry)),
                    i <= list@.len(),
                    kept@.len() == i,
                    texts(kept@) =~= all.take(i as int),
                decreases list@.len() - i,
            {
                assert(parts(body@)[i as int] == list@[i as int]@);
                kept.push(keep_official(list[i].as_str()));
                i += 1;
            }
            assert(texts(kept@) =~= all);
            write_array(&kept)
        },
        Source::Ninja => keep_ids(body),
        Source::TradeData => {
            if opens_with(body, '{') {
                let names: [&'static str; 1] = ["result"];
                assert(names_view(names@) =~= seq!["result"@]);
                let members = keep_members(body, &names);
                let ghost all = members_kept(body@, seq!["result"@]).map_values(
                    |member: (Seq<char>, Seq<char>)| (member.0, kept_list(member.1, seq!["id"@])),
                );
                let mut kept: Vec<(String, String)> = Vec::new();
                let mut i: usize = 0;
                while i < members.len()
                    invariant
                        pairs_view(members@) == members_kept(body@, seq!["result"@]),
                        all == members_kept(body@, seq!["result"@]).map_values(
                            |member: (Seq<char>, Seq<char>)|
                                (member.0, kept_list(member.1, seq!["id"@])),
                        ),
                        i <= members@.len(),
                        kept@.len() == i,
                        pairs_view(kept@) =~= all.take(i as int),
                    decreases members@.len() - i,
                {
                    let key = members[i].0.clone();
                    let value = keep_ids(members[i].1.as_str());
                    assert(members_kept(body@, seq!["result"@])[i as int] == pairs_view(members@)[i as int]);
                    kept.push((key, value));
                    i += 1;
                }
                assert(pairs_view(kept@) =~= all);
                write_object(&kept)
            } else if opens_with(body, '[') {
                write_array(&keep_lists(&parts_of(body)))
            } else {
                body.to_owned()
            }
        },
    }
}

/// The first of the fields that an official entry writes twice.
fn find_repeated_in_official(value: &Json, s: &str) -> (name: Option<String>)
    ensures
        maybe(name) == official_repeated(value@, s@),
{
    let names: [&'static str; 6] = ["id", "category", "rules", "startAt", "endAt", "event"];
    let current: [&'static str; 1] = ["current"];
    let id: [&'static str; 1] = ["id"];
    proof {
        assert(names_view(names@) =~= official_names());
        assert(names_view(current@) =~= seq!["current"@]);
        assert(names_view(id@) =~= seq!["id"@]);
    }
    let found = find_repeated(value, s, &names);
    if found.is_some() {
        return found;
    }
    if let Some(category) = find_argument(value, "category", 1) {
        let part = find_field(value, s, "category", 1);
        let found = find_repeated(category, part.as_str(), &current);
        if found.is_some() {
            return found;
        }
    }
    match find_argument(value, "rules", 2) {
        None => None,
        Some(rules) => {
            let part = find_field(value, s, "rules", 2);
            find_repeated_in_list(rules, part.as_str(), &id)
        },
    }
}

/// The first of the fields that an official entry writes twice.
fn find_repeated_in_officials(response: &Json, body: &str) -> (name: Option<String>)
    ensures
        maybe(name) == leagues_repeated(Source::Official, response@, body@),
{
    let items = match response {
        Json::Array(items) => items,
        _ => {
            return None;
        },
    };
    let list = parts_of(body);
    let ghost all = items_view(items@);
    proof {
        lemma_items_view(items@);
    }
    let mut k: usize = 0;
    while k < items.len()
        invariant
            response@ == JsonView::Array(all),
            all == items_view(items@),
            all.len() == items@.len(),
            forall|i: int| 0 <= i < items@.len() ==> #[trigger] all[i] == items@[i]@,
            texts(list@) == parts(body@),
            k <= items@.len(),
            officials_repeated(all, parts(body@), 0) == officials_repeated(
                all,
                parts(body@),
                k as int,
            ),
        decreases items@.len() - k,
    {
        assert(all[k as int] == items@[k as int]@);
        let found = find_repeated_in_official(&items[k], take_part(&list, k));
        if found.is_some() {
            return found;
        }
        k += 1;
    }
    None
}

impl CurrentLeague {
    /// The annotation of a bare league id.
    pub fn derived(id: String) -> (league: Self)
        ensures
            league@ == derived(id@),
    {
        let name = id.as_str();
        let hardcore = text::same(name, "Hardcore") || text::same(name, "Hardcore SSF")
            || text::starts_with(name, "Hardcore ") || text::starts_with(name, "HC ");
        let kind = if text::same(name, "Standard") || text::same(name, "Hardcore") || text::same(
            name,
            "Solo Self-Found",
        ) || text::same(name, "Hardcore SSF") {
            "permanent"
        } else {
            "challenge"
        };
        CurrentLeague {
            id,
            kind,
            hardcore,
            ssf: None,
            ruthless: None,
            start_at: None,
            end_at: None,
        }
    }
}

/// The id of a record whose first field it is.
fn read_record_id(value: &Json, most: usize, what: &str) -> (id: Result<String, String>)
    ensures
        match id {
            Ok(id) => record_id(value@, most as nat, what@) is Ok && record_id(
                value@,
                most as nat,
                what@,
            )->Ok_0 == id@,
            Err(error) => record_id(value@, most as nat, what@) is Err && record_id(
                value@,
                most as nat,
                what@,
            )->Err_0 == error@,
        },
{
    if !reads_as_record(value, most) {
        return Err("invalid type, expected ".to_owned().concat(what));
    }
    read_text(find_argument(value, "id", 0), "id")
}

/// Records behind one that failed change nothing.
proof fn lemma_ids_stay_failed(values: Seq<JsonView>, what: Seq<char>, k: nat, n: nat)
    requires
        k <= n,
        record_ids(values, what, k) is Err,
    ensures
        record_ids(values, what, n) == record_ids(values, what, k),
    decreases n,
{
    if k < n {
        lemma_ids_stay_failed(values, what, k, (n - 1) as nat);
    }
}

/// The ids of a list of records.
fn read_ids(list: &Json, what: &str) -> (ids: Result<Vec<String>, String>)
    ensures
        match ids {
            Ok(ids) => ids_in(list@, what@) is Ok && ids_in(list@, what@)->Ok_0 == texts(ids@),
            Err(error) => ids_in(list@, what@) is Err && ids_in(list@, what@)->Err_0 == error@,
        },
{
    let items = match list.as_array() {
        Some(items) => items,
        None => {
            return Err("invalid type, expected ".to_owned().concat("a list"));
        },
    };
    let ghost values = items_view(items@);
    let mut ids: Vec<String> = Vec::new();
    let mut i: usize = 0;
    proof {
        lemma_items_view(items@);
        assert(texts(ids@) =~= Seq::<Seq<char>>::empty());
    }
    while i < items.len()
        invariant
            i <= items@.len(),
            values == items_view(items@),
            values.len() == items@.len(),
            items_in(list@) == Some(values),
            record_ids(values, what@, i as nat) is Ok,
            record_ids(values, what@, i as nat)->Ok_0 == texts(ids@),
        decreases items@.len() - i,
    {
        proof {
            lemma_items_view(items@);
        }
        match read_record_id(&items[i], 1, what) {
            Err(error) => {
                proof {
                    lemma_ids_stay_failed(values, what@, (i + 1) as nat, values.len());
                }
                return Err(error);
            },
            Ok(id) => {
                let ghost before = texts(ids@);
                ids.push(id);
                assert(texts(ids@) =~= before.push(id@));
            },
        }
        i += 1;
    }
    Ok(ids)
}

/// The leagues of a list of records with bare ids.
fn read_derived(list: &Json) -> (leagues: Result<Vec<CurrentLeague>, String>)
    ensures
        match leagues {
            Ok(leagues) => derived_all(ids_in(list@, "a league"@)) is Ok && derived_all(
                ids_in(list@, "a league"@),
            )->Ok_0 == leagues_view(leagues@),
            Err(error) => derived_all(ids_in(list@, "a league"@)) is Err && derived_all(
                ids_in(list@, "a league"@),
            )->Err_0 == error@,
        },
{
    let ids = match read_ids(list, "a league") {
        Ok(ids) => ids,
        Err(error) => {
            return Err(error);
        },
    };
    let ghost all = texts(ids@).map_values(|id: Seq<char>| derived(id));
    let mut leagues: Vec<CurrentLeague> = Vec::new();
    let mut i: usize = 0;
    while i < ids.len()
        invariant
            i <= ids@.len(),
            leagues@.len() == i,
            all == texts(ids@).map_values(|id: Seq<char>| derived(id)),
            leagues_view(leagues@) =~= all.take(i as int),
        decreases ids@.len() - i,
    {
        leagues.push(CurrentLeague::derived(ids[i].clone()));
        i += 1;
    }
    assert(leagues_view(leagues@) =~= all);
    Ok(leagues)
}

/// Whether a list holds a text.
fn holds(list: &Vec<String>, wanted: &str) -> (yes: bool)
    ensures
        yes == texts(list@).contains(wanted@),
{
    let mut i: usize = 0;
    while i < list.len()
        invariant
            i <= list@.len(),
            forall|k: int| 0 <= k < i ==> #[trigger] texts(list@)[k] != wanted@,
        decreases list@.len() - i,
    {
        if text::same(list[i].as_str(), wanted) {
            assert(texts(list@)[i as int] == wanted@);
            return true;
        }
        i += 1;
    }
    false
}

/// The league that an official entry describes.
fn read_official(value: &Json) -> (league: Result<CurrentLeague, String>)
    ensures
        match league {
            Ok(league) => official(value@) is Ok && official(value@)->Ok_0 == league@,
            Err(error) => official(value@) is Err && official(value@)->Err_0 == error@,
        },
{
    let id = match read_record_id(value, 6, "a league") {
        Ok(id) => id,
        Err(error) => {
            return Err(error);
        },
    };
    let current = match find_argument(value, "category", 1) {
        None => false,
        Some(category) => {
            if !reads_as_record(category, 1) {
                return Err("invalid type, expected ".to_owned().concat("a category"));
            }
            match read_default_flag(find_argument(category, "current", 0), "current") {
                Ok(current) => current,
                Err(error) => {
                    return Err(error);
                },
            }
        },
    };
    let rules: Vec<String> = match find_argument(value, "rules", 2) {
        None => {
            let none: Vec<String> = Vec::new();
            assert(texts(none@) =~= Seq::<Seq<char>>::empty());
            none
        },
        Some(rules) => match read_ids(rules, "a rule") {
            Ok(rules) => rules,
            Err(error) => {
                return Err(error);
            },
        },
    };
    let start_at = match read_optional_text(find_argument(value, "startAt", 3), "startAt") {
        Ok(start_at) => start_at,
        Err(error) => {
            return Err(error);
        },
    };
    let end_at = match read_optional_text(find_argument(value, "endAt", 4), "endAt") {
        Ok(end_at) => end_at,
        Err(error) => {
            return Err(error);
        },
    };
    let event = match read_default_flag(find_argument(value, "event", 5), "event") {
        Ok(event) => event,
        Err(error) => {
            return Err(error);
        },
    };
    let kind = if event {
        "event"
    } else if current {
        "challenge"
    } else {
        "permanent"
    };
    Ok(
        CurrentLeague {
            id,
            kind,
            hardcore: holds(&rules, "Hardcore"),
            ssf: Some(holds(&rules, "NoParties")),
            ruthless: Some(holds(&rules, "HardMode")),
            start_at,
            end_at,
        },
    )
}

/// Entries behind one that failed change nothing.
proof fn lemma_officials_stay_failed(values: Seq<JsonView>, k: nat, n: nat)
    requires
        k <= n,
        officials(values, k) is Err,
    ensures
        officials(values, n) == officials(values, k),
    decreases n,
{
    if k < n {
        lemma_officials_stay_failed(values, k, (n - 1) as nat);
    }
}

/// The leagues of a list of official entries.
fn read_officials(list: &Json) -> (leagues: Result<Vec<CurrentLeague>, String>)
    ensures
        match leagues {
            Ok(leagues) => leagues_in(Source::Official, list@) is Ok && leagues_in(
                Source::Official,
                list@,
            )->Ok_0 == leagues_view(leagues@),
            Err(error) => leagues_in(Source::Official, list@) is Err && leagues_in(
                Source::Official,
                list@,
            )->Err_0 == error@,
        },
{
    let items = match list.as_array() {
        Some(items) => items,
        None => {
            return Err("invalid type, expected ".to_owned().concat("a list"));
        },
    };
    let ghost values = items_view(items@);
    let mut leagues: Vec<CurrentLeague> = Vec::new();
    let mut i: usize = 0;
    proof {
        lemma_items_view(items@);
        assert(leagues_view(leagues@) =~= Seq::<LeagueView>::empty());
    }
    while i < items.len()
        invariant
            i <= items@.len(),
            values == items_view(items@),
            values.len() == items@.len(),
            items_in(list@) == Some(values),
            officials(values, i as nat) is Ok,
            officials(values, i as nat)->Ok_0 == leagues_view(leagues@),
        decreases items@.len() - i,
    {
        proof {
            lemma_items_view(items@);
        }
        match read_official(&items[i]) {
            Err(error) => {
                proof {
                    lemma_officials_stay_failed(values, (i + 1) as nat, values.len());
                }
                return Err(error);
            },
            Ok(league) => {
                let ghost before = leagues_view(leagues@);
                leagues.push(league);
                assert(leagues_view(leagues@) =~= before.push(league@));
            },
        }
        i += 1;
    }
    Ok(leagues)
}

/// An object with a flag more, if there is one.
fn with_flag(out: Json, key: &str, flag: Option<bool>) -> (more: Json)
    ensures
        more@ == put_some(out@, key@, as_flag(flag)),
{
    match flag {
        Some(flag) => out.with(key, Json::Bool(flag)),
        None => out,
    }
}

/// An object with a text more, if there is one.
fn with_text(out: Json, key: &str, text: &Option<String>) -> (more: Json)
    ensures
        more@ == put_some(out@, key@, as_text(maybe_text(*text))),
{
    match text {
        Some(text) => out.with(key, Json::string(text.as_str())),
        None => out,
    }
}

/// A current league as JSON.
fn render_league(league: &CurrentLeague) -> (out: Json)
    ensures
        out@ == league_json(league@),
{
    let out = Json::object().with("id", Json::string(league.id.as_str())).with(
        "kind",
        Json::string(league.kind),
    ).with("hardcore", Json::Bool(league.hardcore));
    let out = with_flag(out, "ssf", league.ssf);
    let out = with_flag(out, "ruthless", league.ruthless);
    let out = with_text(out, "start_at", &league.start_at);
    with_text(out, "end_at", &league.end_at)
}

/// The section of current leagues.
pub fn render_current(source: Source, game: Game, leagues: &Vec<CurrentLeague>) -> (section: Json)
    ensures
        section@ == current_json(source, game, leagues_view(leagues@)),
{
    let ghost all = leagues_view(leagues@).map_values(|league: LeagueView| league_json(league));
    let mut items: Vec<Json> = Vec::new();
    let mut i: usize = 0;
    assert(items_view(items@) =~= all.take(0));
    while i < leagues.len()
        invariant
            i <= leagues@.len(),
            all == leagues_view(leagues@).map_values(|league: LeagueView| league_json(league)),
            items_view(items@) == all.take(i as int),
        decreases leagues@.len() - i,
    {
        let item = render_league(&leagues[i]);
        proof {
            lemma_items_push(items@, item);
            assert(all.take(i as int).push(item@) =~= all.take(i + 1));
        }
        items.push(item);
        i += 1;
    }
    assert(all.take(i as int) =~= all);
    let out = Json::object().with("leagues", Json::Array(items)).with(
        "source",
        Json::Text(source.url(game)),
    );
    if source.authoritative() {
        out.with("annotation", Json::string("authoritative"))
    } else {
        out.with("annotation", Json::string("derived")).with("note", Json::string(NOTE_DERIVED))
    }
}

/// What asking a source came to.
pub fn section_from_reply(source: Source, game: Game, reply: &Result<String, String>) -> (section:
    Result<Json, String>)
    ensures
        match section {
            Ok(section) => source_section(source, game, fetched(*reply)) is Ok && source_section(
                source,
                game,
                fetched(*reply),
            )->Ok_0 == section@,
            Err(error) => source_section(source, game, fetched(*reply)) is Err && source_section(
                source,
                game,
                fetched(*reply),
            )->Err_0 == error@,
        },
{
    match reply {
        Err(error) => Err(error.clone()),
        Ok(body) => match source.parse(body.as_str()) {
            Ok(leagues) => Ok(render_current(source, game, &leagues)),
            Err(reason) => {
                let mut error = "unexpected response from ".to_owned();
                error.append(source.url(game).as_str());
                error.append(": ");
                error.append(reason.as_str());
                Err(error)
            },
        },
    }
}

/// The concluded league that a record describes.
fn read_past_league(value: &Json, s: &str) -> (league: Result<PastLeague, String>)
    ensures
        match league {
            Ok(league) => past_league(value@, s@) is Ok && past_league(value@, s@)->Ok_0 == league@,
            Err(error) => past_league(value@, s@) is Err && past_league(value@, s@)->Err_0
                == error@,
        },
{
    let names: [&'static str; 5] = ["name", "version", "hardcore", "start_date", "end_date"];
    assert(names_view(names@) =~= past_names());
    if let Some(fault) = check_record(value, s, &names) {
        return Err(fault);
    }
    let name = match read_text(find_argument(value, "name", 0), "name") {
        Ok(name) => name,
        Err(error) => {
            return Err(error);
        },
    };
    let version = match read_text(find_argument(value, "version", 1), "version") {
        Ok(version) => version,
        Err(error) => {
            return Err(error);
        },
    };
    let hardcore = match read_flag(find_argument(value, "hardcore", 2), "hardcore") {
        Ok(hardcore) => hardcore,
        Err(error) => {
            return Err(error);
        },
    };
    let start_date = match read_text(find_argument(value, "start_date", 3), "start_date") {
        Ok(start_date) => start_date,
        Err(error) => {
            return Err(error);
        },
    };
    let end_date = match read_optional_text(find_argument(value, "end_date", 4), "end_date") {
        Ok(end_date) => end_date,
        Err(error) => {
            return Err(error);
        },
    };
    Ok(PastLeague { name, version, hardcore, start_date, end_date })
}

/// Records behind one that failed change nothing.
proof fn lemma_past_stays_failed(values: Seq<JsonView>, list: Seq<Seq<char>>, k: nat, n: nat)
    requires
        k <= n,
        past_leagues(values, list, k) is Err,
    ensures
        past_leagues(values, list, n) == past_leagues(values, list, k),
    decreases n,
{
    if k < n {
        lemma_past_stays_failed(values, list, k, (n - 1) as nat);
    }
}

/// The concluded leagues of a list of records, with their text.
fn read_past_leagues(items: &Vec<Json>, s: &str) -> (leagues: Result<Vec<PastLeague>, String>)
    ensures
        match leagues {
            Ok(leagues) => past_leagues(items_view(items@), parts(s@), items@.len()) is Ok
                && past_leagues(items_view(items@), parts(s@), items@.len())->Ok_0
                == leagues@.map_values(|league: PastLeague| league@),
            Err(error) => past_leagues(items_view(items@), parts(s@), items@.len()) is Err
                && past_leagues(items_view(items@), parts(s@), items@.len())->Err_0 == error@,
        },
{
    let ghost values = items_view(items@);
    let list = parts_of(s);
    let mut leagues: Vec<PastLeague> = Vec::new();
    let mut i: usize = 0;
    assert(leagues@.map_values(|league: PastLeague| league@) =~= Seq::<PastView>::empty());
    while i < items.len()
        invariant
            i <= items@.len(),
            values == items_view(items@),
            texts(list@) == parts(s@),
            past_leagues(values, parts(s@), i as nat) is Ok,
            past_leagues(values, parts(s@), i as nat)->Ok_0 == leagues@.map_values(
                |league: PastLeague| league@,
            ),
        decreases items@.len() - i,
    {
        proof {
            lemma_items_view(items@);
        }
        match read_past_league(&items[i], take_part(&list, i)) {
            Err(error) => {
                proof {
                    lemma_past_stays_failed(values, parts(s@), (i + 1) as nat, items@.len());
                }
                return Err(error);
            },
            Ok(league) => {
                let ghost before = leagues@.map_values(|league: PastLeague| league@);
                leagues.push(league);
                assert(leagues@.map_values(|league: PastLeague| league@) =~= before.push(league@));
            },
        }
        i += 1;
    }
    Ok(leagues)
}

impl Dataset {
    /// The dataset that a record, with its text, describes.
    pub fn read(value: &Json, raw: &str) -> (dataset: Result<Dataset, String>)
        ensures
            match dataset {
                Ok(dataset) => dataset_in(value@, raw@) is Ok && dataset_in(value@, raw@)->Ok_0
                    == dataset@,
                Err(error) => dataset_in(value@, raw@) is Err && dataset_in(value@, raw@)->Err_0
                    == error@,
            },
    {
        let names: [&'static str; 3] = ["generated_at", "sources", "leagues"];
        assert(names_view(names@) =~= dataset_names());
        if let Some(fault) = check_record(value, raw, &names) {
            return Err(fault);
        }
        let generated_at = match read_text(
            find_argument(value, "generated_at", 0),
            "generated_at",
        ) {
            Ok(generated_at) => generated_at,
            Err(error) => {
                return Err(error);
            },
        };
        let sources = match read_list(find_argument(value, "sources", 1), "sources") {
            Ok(list) => {
                proof {
                    lemma_items_view(list@);
                }
                match read_texts(list, "sources") {
                    Ok(sources) => sources,
                    Err(error) => {
                        return Err(error);
                    },
                }
            },
            Err(error) => {
                return Err(error);
            },
        };
        let leagues = match read_list(find_argument(value, "leagues", 2), "leagues") {
            Ok(list) => {
                proof {
                    lemma_items_view(list@);
                }
                let part = find_field(value, raw, "leagues", 2);
                match read_past_leagues(list, part.as_str()) {
                    Ok(leagues) => leagues,
                    Err(error) => {
                        return Err(error);
                    },
                }
            },
            Err(error) => {
                return Err(error);
            },
        };
        Ok(Dataset { generated_at, sources, leagues })
    }

    /// The dataset that a text describes.
    pub fn parse(raw: &str) -> (dataset: Result<Dataset, String>)
        ensures
            match dataset {
                Ok(dataset) => dataset_parsed(raw@) is Ok && dataset_parsed(raw@)->Ok_0
                    == dataset@,
                Err(error) => dataset_parsed(raw@) is Err && dataset_parsed(raw@)->Err_0 == error@,
            },
    {
        match json::parse(raw) {
            Err(error) => Err(error),
            Ok(value) => Dataset::read(&value, raw),
        }
    }

    /// The section of concluded leagues.
    pub fn render(&self) -> (section: Json)
        ensures
            section@ == dataset_json(self@),
    {
        let ghost all = self@.leagues.map_values(|league: PastView| past_json(league));
        let mut items: Vec<Json> = Vec::new();
        let mut i: usize = 0;
        assert(items_view(items@) =~= all.take(0));
        while i < self.leagues.len()
            invariant
                i <= self.leagues@.len(),
                all == self@.leagues.map_values(|league: PastView| past_json(league)),
                items_view(items@) == all.take(i as int),
            decreases self.leagues@.len() - i,
        {
            let league = &self.leagues[i];
            let end_date = match &league.end_date {
                Some(date) => Json::string(date.as_str()),
                None => Json::Null,
            };
            let item = Json::object().with("name", Json::string(league.name.as_str())).with(
                "version",
                Json::string(league.version.as_str()),
            ).with("hardcore", Json::Bool(league.hardcore)).with(
                "start_date",
                Json::string(league.start_date.as_str()),
            ).with("end_date", end_date);
            proof {
                lemma_items_push(items@, item);
                assert(self@.leagues[i as int] == league@);
                assert(all.take(i as int).push(item@) =~= all.take(i + 1));
            }
            items.push(item);
            i += 1;
        }
        assert(all.take(i as int) =~= all);
        let mut source = "vendored dataset (generated ".to_owned();
        source.append(self.generated_at.as_str());
        source.append(") compiled from: ");
        source.append(text::join(&self.sources, ", ").as_str());
        Json::object().with("leagues", Json::Array(items)).with(
            "scope",
            Json::string(PAST_SCOPE),
        ).with("source", Json::Text(source))
    }
}

/// The section of concluded leagues, or why there is none.
pub fn section_from_data(raw: &str) -> (section: Result<Json, String>)
    ensures
        match section {
            Ok(section) => past_section(raw@) is Ok && past_section(raw@)->Ok_0 == section@,
            Err(error) => past_section(raw@) is Err && past_section(raw@)->Err_0 == error@,
        },
{
    match Dataset::parse(raw) {
        Ok(dataset) => Ok(dataset.render()),
        Err(reason) => Err("vendored dataset invalid: ".to_owned().concat(reason.as_str())),
    }
}

/// Read the arguments of a call.
pub fn read_league_args(args_json: &str) -> (args: Result<(Game, Include), String>)
    ensures
        match args {
            Ok(args) => league_args(args_json@) is Ok && league_args(args_json@)->Ok_0 == args,
            Err(error) => league_args(args_json@) is Err && league_args(args_json@)->Err_0
                == error@,
        },
{
    let names: [&'static str; 2] = ["game", "include"];
    assert(names_view(names@) =~= league_names());
    let args = match open_args(args_json, &names, 2) {
        Ok(args) => args,
        Err(error) => {
            return Err(error);
        },
    };
    let game = match read_game(find_argument(&args, "game", 0), "game") {
        Ok(game) => game,
        Err(error) => {
            return Err(error);
        },
    };
    let sets = match find_argument(&args, "include", 1) {
        None => Include::Current,
        Some(value) => {
            if value.is_null() {
                Include::Current
            } else {
                match read_variant(value) {
                    None => {
                        return Err(mistyped_text("include", "`current`, `past` or `all`"));
                    },
                    Some(name) => {
                        if text::same(name.as_str(), "current") {
                            Include::Current
                        } else if text::same(name.as_str(), "past") {
                            Include::Past
                        } else if text::same(name.as_str(), "all") {
                            Include::All
                        } else {
                            return Err(mistyped_text("include", "`current`, `past` or `all`"));
                        }
                    },
                }
            }
        },
    };
    Ok((game, sets))
}

/// What a section that was asked for came to.
pub open spec fn section_view(section: Result<Json, String>) -> Result<JsonView, Seq<char>> {
    match section {
        Ok(section) => Ok(section@),
        Err(error) => Err(error@),
    }
}

/// Answer a call, given the time and the sections that it asks for; of the
/// other one nothing is read.
pub fn answer_leagues(
    game: Game,
    sets: Include,
    stamp: &str,
    current: Result<Json, String>,
    past: Result<Json, String>,
) -> (outcome: Result<String, ToolError>)
    ensures
        answer_of(outcome) == league_answer(
            game,
            sets,
            stamp@,
            section_view(current),
            section_view(past),
        ),
{
    let head = Json::object().with("game", Json::string(game.as_str())).with(
        "fetched_at",
        Json::string(stamp),
    );
    match sets {
        Include::Current => match current {
            Ok(section) => Ok(head.with("current", section).to_string()),
            Err(error) => Err(ToolError::Failed(error)),
        },
        Include::Past => match past {
            Ok(section) => Ok(head.with("past", section).to_string()),
            Err(error) => Err(ToolError::Failed(error)),
        },
        Include::All => match past {
            Err(error) => Err(ToolError::Failed(error)),
            Ok(past) => {
                // Degrade rather than fail: the concluded leagues are always
                // there, even when every live source is down.
                let current = match current {
                    Ok(section) => section,
                    Err(error) => Json::object().with(
                        "error",
                        Json::Text(ToolError::Failed(error).to_string()),
                    ).with("note", Json::string(NOTE_DEGRADED)),
                };
                Ok(head.with("current", current).with("past", past).to_string())
            },
        },
    }
}

/// The datasets of concluded leagues, as JSON texts.
pub struct LeagueData {
    /// Of Path of Exile 1.
    pub poe1: String,
    /// Of Path of Exile 2.
    pub poe2: String,
}

/// The `league` tool: resolves current (live) and past (shipped) leagues.
pub struct LeagueTool {
    http: HttpSource,
    data: LeagueData,
}

impl LeagueTool {
    /// What the tool fetches through.
    pub closed spec fn source(&self) -> HttpSource {
        self.http
    }

    /// The dataset of a game.
    pub closed spec fn dataset(&self, game: Game) -> Seq<char> {
        match game {
            Game::Poe1 => self.data.poe1@,
            Game::Poe2 => self.data.poe2@,
        }
    }

    /// Tool over a live HTTP client and the shipped datasets.
    pub fn new(live: Box<dyn HttpGet>, data: LeagueData) -> (tool: Self)
        ensures
            forall|url: Seq<char>, reply: Fetched| #[trigger]
                tool.source().may_give(url, reply) == live.may_give(url, reply),
            tool.dataset(Game::Poe1) == data.poe1@,
            tool.dataset(Game::Poe2) == data.poe2@,
    {
        let live = hold(live);
        LeagueTool { http: HttpSource::Direct(live), data }
    }

    /// Tool with an injected HTTP implementation.
    pub fn with_http(http: Box<dyn HttpGet>, data: LeagueData) -> (tool: Self)
        ensures
            forall|url: Seq<char>, reply: Fetched| #[trigger]
                tool.source().may_give(url, reply) == http.may_give(url, reply),
            tool.dataset(Game::Poe1) == data.poe1@,
            tool.dataset(Game::Poe2) == data.poe2@,
    {
        let http = hold(http);
        LeagueTool { http: HttpSource::Direct(http), data }
    }

    /// Whether the sources may have given these replies.
    pub open spec fn may_ask(&self, game: Game, replies: Seq<Fetched>) -> bool {
        &&& asked_in_order(game, replies)
        &&& forall|i: int|
            0 <= i < replies.len() ==> self.source().may_give(
                source_url(chain(game)[i], game),
                #[trigger] replies[i],
            )
    }

    /// Fetch current leagues, walking the source chain until one succeeds.
    fn current(&self, game: Game) -> (got: (Result<Json, String>, Ghost<Seq<Fetched>>))
        ensures
            self.may_ask(game, got.1@),
            section_view(got.0) == current_section(game, got.1@),
    {
        let sources = Source::chain(game);
        let mut errors: Vec<String> = Vec::new();
        let ghost mut replies: Seq<Fetched> = seq![];
        let mut i: usize = 0;
        while i < sources.len()
            invariant
                sources@ == chain(game),
                i <= sources@.len(),
                replies.len() == i,
                forall|k: int|
                    0 <= k < i ==> source_section(
                        chain(game)[k],
                        game,
                        #[trigger] replies[k],
                    ) is Err,
                forall|k: int|
                    0 <= k < i ==> self.source().may_give(
                        source_url(chain(game)[k], game),
                        #[trigger] replies[k],
                    ),
                texts(errors@) =~= chain_errors(game, replies, i as nat),
            decreases sources@.len() - i,
        {
            let source = sources[i];
            let reply = self.http.get(source.url(game).as_str());
            let ghost before = replies;
            proof {
                replies = replies.push(fetched(reply));
                assert forall|k: int| 0 <= k < i implies source_section(
                    chain(game)[k],
                    game,
                    #[trigger] replies[k],
                ) is Err by {
                    assert(replies[k] == before[k]);
                }
                assert forall|k: int| 0 <= k < replies.len() implies self.source().may_give(
                    source_url(chain(game)[k], game),
                    #[trigger] replies[k],
                ) by {
                    if k < i {
                        assert(replies[k] == before[k]);
                    }
                }
            }
            match section_from_reply(source, game, &reply) {
                Ok(section) => {
                    return (Ok(section), Ghost(replies));
                },
                Err(error) => {
                    let ghost listed = texts(errors@);
                    errors.push(error);
                    assert(texts(errors@) =~= listed.push(error@));
                },
            }
            i += 1;
        }
        let error = "all live sources failed: ".to_owned().concat(
            text::join(&errors, " | ").as_str(),
        );
        (Err(error), Ghost(replies))
    }

    /// The concluded leagues of a game.
    fn past(&self, game: Game) -> (section: Result<Json, String>)
        ensures
            section_view(section) == past_section(self.dataset(game)),
    {
        match game {
            Game::Poe1 => section_from_data(self.data.poe1.as_str()),
            Game::Poe2 => section_from_data(self.data.poe2.as_str()),
        }
    }
}

/// What the tool does, for the model.
pub const LEAGUE_DESCRIPTION: &'static str =
    "Resolve Path of Exile league state: currently active leagues (fetched live, each annotated as challenge/permanent/event plus a hardcore flag) and concluded past challenge leagues (vendored, with provenance; events and permanent leagues excluded). Call this instead of assuming league names or dates from memory.";

/// The JSON Schema of the arguments.
pub const LEAGUE_SCHEMA: &'static str =
    r#"{"type":"object","properties":{"game":{"type":"string","enum":["poe1","poe2"],"description":"Which game to resolve leagues for"},"include":{"type":["string","null"],"enum":["current","past","all",null],"description":"Which league sets to return (default: current)"}},"required":["game"],"additionalProperties":false}"#;

impl Tool for LeagueTool {
    open spec fn tool_name(&self) -> Seq<char> {
        "league"@
    }

    open spec fn tool_description(&self) -> Seq<char> {
        LEAGUE_DESCRIPTION@
    }

    open spec fn tool_schema(&self) -> Seq<char> {
        LEAGUE_SCHEMA@
    }

    /// Arguments that cannot be read are refused. Otherwise the answer follows
    /// from the time, from what the live sources gave where they were asked,
    /// and from the dataset where it was.
    open spec fn may_answer(&self, args_json: Seq<char>, answer: Answer) -> bool {
        match league_args(args_json) {
            Err(error) => answer == Err::<Seq<char>, Fault>(Fault::InvalidArgs(error)),
            Ok((game, sets)) => exists|stamp: Seq<char>, replies: Seq<Fetched>|
                is_stamp(stamp) && (sets == Include::Past || self.may_ask(game, replies)) && answer
                    == #[trigger] league_answer(
                    game,
                    sets,
                    stamp,
                    current_section(game, replies),
                    past_section(self.dataset(game)),
                ),
        }
    }

    fn name(&self) -> (name: &'static str) {
        "league"
    }

    fn description(&self) -> (description: &'static str) {
        LEAGUE_DESCRIPTION
    }

    fn parameters_schema(&self) -> (schema: &'static str) {
        LEAGUE_SCHEMA
    }

    fn execute(&self, args_json: &str) -> (outcome: Result<String, ToolError>) {
        let (game, sets) = match read_league_args(args_json) {
            Ok(args) => args,
            Err(error) => {
                return Err(ToolError::InvalidArgs(error));
            },
        };
        let stamp = now_utc();
        let ghost mut replies: Seq<Fetched> = seq![];
        let current = if sets == Include::Past {
            Err(String::new())
        } else {
            let (section, Ghost(asked)) = self.current(game);
            proof {
                replies = asked;
            }
            section
        };
        let past = if sets == Include::Current {
            Err(String::new())
        } else {
            self.past(game)
        };
        let outcome = answer_leagues(game, sets, stamp.as_str(), current, past);
        assert(answer_of(outcome) == league_answer(
            game,
            sets,
            stamp@,
            current_section(game, replies),
            past_section(self.dataset(game)),
        ));
        outcome
    }
}

/// Whatever the live sources give, a call for all leagues is answered with the
/// concluded ones, as long as the dataset can be read.
pub proof fn law_all_degrades_to_past(
    game: Game,
    stamp: Seq<char>,
    current: Result<JsonView, Seq<char>>,
    past: Result<JsonView, Seq<char>>,
)
    requires
        past is Ok,
    ensures
        league_answer(game, Include::All, stamp, current, past) is Ok,
{
}

/// A result tells which game it is about and when it was fetched, and each
/// section that was asked for and could be had tells where it comes from.
pub proof fn law_league_results_are_stamped(
    game: Game,
    sets: Include,
    stamp: Seq<char>,
    replies: Seq<Fetched>,
    raw: Seq<char>,
)
    requires
        league_answer(
            game,
            sets,
            stamp,
            current_section(game, replies),
            past_section(raw),
        ) is Ok,
    ensures
        exists|result: JsonView|
            league_answer(game, sets, stamp, current_section(game, replies), past_section(raw))
                == Ok::<Seq<char>, Fault>(#[trigger] printed(result)) && is_stamped(
                result,
                game,
                stamp,
            ) && (sets != Include::Current ==> is_sourced(at_key(result, "past"@))) && (sets
                != Include::Past && current_section(game, replies) is Ok ==> is_sourced(
                at_key(result, "current"@),
            )),
{
    reveal_strlit("game");
    reveal_strlit("fetched_at");
    reveal_strlit("current");
    reveal_strlit("past");
    reveal_strlit("source");
    reveal_strlit("annotation");
    reveal_strlit("note");
    assert("game"@[0] == 'g' && "past"@[0] == 'p' && "game"@.len() == 4 && "past"@.len() == 4);
    assert("fetched_at"@.len() == 10 && "current"@.len() == 7 && "source"@.len() == 6);
    assert("annotation"@.len() == 10 && "note"@.len() == 4);
    let current = current_section(game, replies);
    let past = past_section(raw);
    let head = put(
        put(no_members(), "game"@, JsonView::Text(game_id(game))),
        "fetched_at"@,
        JsonView::Text(stamp),
    );
    let result = match sets {
        Include::Current => put(head, "current"@, current->Ok_0),
        Include::Past => put(head, "past"@, past->Ok_0),
        Include::All => put(put(head, "current"@, degraded(current)), "past"@, past->Ok_0),
    };
    assert(league_answer(game, sets, stamp, current, past) == Ok::<Seq<char>, Fault>(
        printed(result),
    ));
}

/// A bare id is called permanent if and only if it is one of the stable ids.
pub proof fn law_derived_kind(id: Seq<char>)
    ensures
        derived(id).kind == "permanent"@ <==> is_permanent(id),
        derived(id).id == id,
{
    reveal_strlit("permanent");
    reveal_strlit("challenge");
    assert("permanent"@[0] != "challenge"@[0]);
}

/// When every source fails, the error names what each of them failed with, in
/// the order in which they were asked.
pub proof fn law_failed_chain_reports_every_source(game: Game, replies: Seq<Fetched>)
    requires
        asked_in_order(game, replies),
        current_section(game, replies) is Err,
    ensures
        replies.len() == chain(game).len(),
        chain_errors(game, replies, replies.len()).len() == chain(game).len(),
{
}

/// A concluded league is listed with its name, its version, whether it was
/// hardcore and its two dates, each under its own key, and an end that is not
/// known as null; what is listed reads back as the same league.
pub proof fn law_concluded_leagues_are_listed_as_recorded(league: PastView, s: Seq<char>)
    ensures
        ({
            let listed = past_json(league);
            &&& at_key(listed, "name"@) == JsonView::Text(league.name)
            &&& at_key(listed, "version"@) == JsonView::Text(league.version)
            &&& at_key(listed, "hardcore"@) == JsonView::Bool(league.hardcore)
            &&& at_key(listed, "start_date"@) == JsonView::Text(league.start_date)
            &&& league.end_date matches Some(date) ==> at_key(listed, "end_date"@)
                == JsonView::Text(date)
            &&& league.end_date is None ==> member(listed, "end_date"@) == Some(JsonView::Null)
            &&& record_fault(listed, s, past_names()) is None ==> past_league(listed, s) == Ok::<
                PastView,
                Seq<char>,
            >(league)
        }),
{
    reveal_strlit("name");
    reveal_strlit("version");
    reveal_strlit("hardcore");
    reveal_strlit("start_date");
    reveal_strlit("end_date");
    assert("name"@.len() == 4);
    assert("version"@.len() == 7);
    assert("hardcore"@.len() == 8);
    assert("start_date"@.len() == 10);
    assert("end_date"@.len() == 8);
    assert("hardcore"@[0] != "end_date"@[0]);
}

/// Every concluded league of a dataset is listed, once and in its order, and
/// the section tells when the dataset was made and from what.
pub proof fn law_every_concluded_league_is_listed(dataset: DatasetView, i: int)
    ensures
        ({
            let list = at_key(dataset_json(dataset), "leagues"@);
            &&& items_in(list) is Some
            &&& items_in(list)->0.len() == dataset.leagues.len()
            &&& 0 <= i < dataset.leagues.len() ==> {
                let listed = at_index(list, i);
                let league = dataset.leagues[i];
                &&& at_key(listed, "name"@) == JsonView::Text(league.name)
                &&& at_key(listed, "version"@) == JsonView::Text(league.version)
                &&& at_key(listed, "hardcore"@) == JsonView::Bool(league.hardcore)
                &&& at_key(listed, "start_date"@) == JsonView::Text(league.start_date)
                &&& at_key(listed, "end_date"@) == match league.end_date {
                    Some(date) => JsonView::Text(date),
                    None => JsonView::Null,
                }
            }
            &&& at_key(dataset_json(dataset), "source"@) matches JsonView::Text(source) && occurs(
                source,
                dataset.generated_at,
            ) && occurs(source, separated(dataset.sources, ", "@))
        }),
{
    reveal_strlit("leagues");
    reveal_strlit("scope");
    reveal_strlit("source");
    assert("leagues"@.len() == 7);
    assert("scope"@.len() == 5);
    assert("source"@.len() == 6);
    if 0 <= i < dataset.leagues.len() {
        law_concluded_leagues_are_listed_as_recorded(dataset.leagues[i], seq![]);
    }
    let head = "vendored dataset (generated "@;
    let source = dataset_source(dataset);
    let made = dataset.generated_at;
    assert(source.subrange(head.len() as int, (head.len() + made.len()) as int) =~= made);
    assert(is_at(source, made, head.len() as int));
    let origins = separated(dataset.sources, ", "@);
    let at = source.len() - origins.len();
    assert(source.subrange(at, at + origins.len()) =~= origins);
    assert(is_at(source, origins, at));
}

/// What a dataset records of a league is what is listed of it: where its
/// records are objects, each listed league holds what its record holds under
/// the same key.
pub proof fn law_records_are_listed_unchanged(raw: Seq<char>, value: JsonView, i: int)
    requires
        past_section(raw) is Ok,
        parsed(raw) == Ok::<JsonView, Seq<char>>(value),
        value is Object,
        at_key(value, "leagues"@) is Array,
        0 <= i < at_key(value, "leagues"@)->Array_0.len(),
        at_key(value, "leagues"@)->Array_0[i] is Object,
    ensures
        ({
            let record = at_key(value, "leagues"@)->Array_0[i];
            let list = at_key(past_section(raw)->Ok_0, "leagues"@);
            let listed = at_index(list, i);
            &&& list is Array && list->Array_0.len() == at_key(value, "leagues"@)->Array_0.len()
            &&& at_key(listed, "name"@) == at_key(record, "name"@)
            &&& at_key(listed, "version"@) == at_key(record, "version"@)
            &&& at_key(listed, "hardcore"@) == at_key(record, "hardcore"@)
            &&& at_key(listed, "start_date"@) == at_key(record, "start_date"@)
            &&& at_key(listed, "end_date"@) == at_key(record, "end_date"@)
        }),
{
    let dataset = dataset_parsed(raw)->Ok_0;
    let values = at_key(value, "leagues"@)->Array_0;
    lemma_past_leagues(values, parts(field_text(value, raw, "leagues"@, 2)), values.len());
    assert(dataset.leagues.len() == values.len());
    law_every_concluded_league_is_listed(dataset, i);
}

/// Records are read in their order.
proof fn lemma_past_leagues(values: Seq<JsonView>, list: Seq<Seq<char>>, n: nat)
    requires
        n <= values.len(),
        past_leagues(values, list, n) is Ok,
    ensures
        past_leagues(values, list, n)->Ok_0.len() == n,
        forall|i: int|
            0 <= i < n ==> past_league(values[i], part_at(list, i)) == Ok::<PastView, Seq<char>>(
                #[trigger] past_leagues(values, list, n)->Ok_0[i],
            ),
    decreases n,
{
    if n > 0 {
        lemma_past_leagues(values, list, (n - 1) as nat);
    }
}

/// A league that the official source tells of is what its record says: the
/// same id and dates; an event where it says so, else a challenge league where
/// its category is current, else permanent; hardcore, alone or ruthless
/// exactly where one of its rules says so.
pub proof fn law_official_leagues_are_as_told(value: JsonView, rules: Seq<JsonView>)
    requires
        value is Object,
        official(value) is Ok,
        member(value, "rules"@) == Some(JsonView::Array(rules)),
        forall|i: int| 0 <= i < rules.len() ==> #[trigger] rules[i] is Object,
    ensures
        ({
            let league = official(value)->Ok_0;
            let category = at_key(value, "category"@);
            &&& at_key(value, "id"@) == JsonView::Text(league.id)
            &&& at_key(value, "startAt"@) == match league.start_at {
                Some(date) => JsonView::Text(date),
                None => JsonView::Null,
            }
            &&& at_key(value, "endAt"@) == match league.end_at {
                Some(date) => JsonView::Text(date),
                None => JsonView::Null,
            }
            &&& at_key(value, "event"@) == JsonView::Bool(true) ==> league.kind == "event"@
            &&& category is Object && at_key(value, "event"@) != JsonView::Bool(true) ==> {
                league.kind == if at_key(category, "current"@) == JsonView::Bool(true) {
                    "challenge"@
                } else {
                    "permanent"@
                }
            }
            &&& league.hardcore <==> exists|i: int|
                0 <= i < rules.len() && #[trigger] at_key(rules[i], "id"@) == JsonView::Text(
                    "Hardcore"@,
                )
            &&& league.ssf == Some(
                exists|i: int|
                    0 <= i < rules.len() && #[trigger] at_key(rules[i], "id"@) == JsonView::Text(
                        "NoParties"@,
                    ),
            )
            &&& league.ruthless == Some(
                exists|i: int|
                    0 <= i < rules.len() && #[trigger] at_key(rules[i], "id"@) == JsonView::Text(
                        "HardMode"@,
                    ),
            )
        }),
{
    lemma_record_ids(rules, "a rule"@, rules.len());
    let ids = record_ids(rules, "a rule"@, rules.len())->Ok_0;
    lemma_rules_hold(rules, ids, "Hardcore"@);
    lemma_rules_hold(rules, ids, "NoParties"@);
    lemma_rules_hold(rules, ids, "HardMode"@);
}

/// Ids are read in the order of their records.
proof fn lemma_record_ids(values: Seq<JsonView>, what: Seq<char>, n: nat)
    requires
        n <= values.len(),
        record_ids(values, what, n) is Ok,
    ensures
        record_ids(values, what, n)->Ok_0.len() == n,
        forall|i: int|
            0 <= i < n ==> argument(values[i], "id"@, 0) == Some(
                JsonView::Text(#[trigger] record_ids(values, what, n)->Ok_0[i]),
            ),
    decreases n,
{
    if n > 0 {
        lemma_record_ids(values, what, (n - 1) as nat);
    }
}

/// An id is among those read exactly where a record has it.
proof fn lemma_rules_hold(rules: Seq<JsonView>, ids: Seq<Seq<char>>, id: Seq<char>)
    requires
        ids.len() == rules.len(),
        forall|i: int| 0 <= i < rules.len() ==> #[trigger] rules[i] is Object,
        forall|i: int|
            0 <= i < rules.len() ==> argument(rules[i], "id"@, 0) == Some(
                JsonView::Text(#[trigger] ids[i]),
            ),
    ensures
        ids.contains(id) <==> exists|i: int|
            0 <= i < rules.len() && #[trigger] at_key(rules[i], "id"@) == JsonView::Text(id),
{
    if ids.contains(id) {
        let i = choose|i: int| 0 <= i < ids.len() && ids[i] == id;
        assert(rules[i] is Object);
        assert(at_key(rules[i], "id"@) == JsonView::Text(id));
    }
    if exists|i: int|
        0 <= i < rules.len() && #[trigger] at_key(rules[i], "id"@) == JsonView::Text(id) {
        let i = choose|i: int|
            0 <= i < rules.len() && #[trigger] at_key(rules[i], "id"@) == JsonView::Text(id);
        assert(rules[i] is Object);
        assert(ids[i] == id);
    }
}

/// The official source is read league by league, in its order.
pub proof fn law_official_leagues_keep_their_order(values: Seq<JsonView>, n: nat)
    requires
        n <= values.len(),
        officials(values, n) is Ok,
    ensures
        officials(values, n)->Ok_0.len() == n,
        forall|i: int|
            0 <= i < n ==> official(values[i]) == Ok::<LeagueView, Seq<char>>(
                #[trigger] officials(values, n)->Ok_0[i],
            ),
    decreases n,
{
    if n > 0 {
        law_official_leagues_keep_their_order(values, (n - 1) as nat);
    }
}

/// Of a source with names only, every league is told in its order, by the id
/// of its record.
pub proof fn law_named_leagues_keep_their_order(values: Seq<JsonView>, i: int)
    requires
        leagues_in(Source::Ninja, JsonView::Array(values)) is Ok,
        0 <= i < values.len(),
        values[i] is Object,
    ensures
        ({
            let leagues = leagues_in(Source::Ninja, JsonView::Array(values))->Ok_0;
            &&& leagues.len() == values.len()
            &&& at_key(values[i], "id"@) == JsonView::Text(leagues[i].id)
        }),
{
    lemma_record_ids(values, "a league"@, values.len());
    let ids = record_ids(values, "a league"@, values.len())->Ok_0;
    assert(ids[i] == leagues_in(Source::Ninja, JsonView::Array(values))->Ok_0[i].id);
}

/// The trade site lists under "result" what the other source of names lists
/// bare, and both are read alike.
pub proof fn law_trade_leagues_are_read_from_the_result(response: JsonView, list: JsonView)
    requires
        response is Object,
        member(response, "result"@) == Some(list),
    ensures
        leagues_in(Source::TradeData, response) == leagues_in(Source::Ninja, list),
{
}

/// What a name tells of a league: the four stable ids are permanent, all else
/// is taken for a challenge league; hardcore are the two hardcore ids and the
/// names that begin with "Hardcore " or "HC ".
pub proof fn law_names_tell_the_kind(id: Seq<char>)
    ensures
        ({
            let league = derived(id);
            let stable = seq!["Standard"@, "Hardcore"@, "Solo Self-Found"@, "Hardcore SSF"@];
            &&& league.id == id
            &&& league.kind == if stable.contains(id) {
                "permanent"@
            } else {
                "challenge"@
            }
            &&& league.hardcore <==> id == "Hardcore"@ || id == "Hardcore SSF"@ || (id.len() >= 9
                && id.take(9) == "Hardcore "@) || (id.len() >= 3 && id.take(3) == "HC "@)
            &&& league.ssf is None && league.ruthless is None
            &&& league.start_at is None && league.end_at is None
        }),
{
    let stable = seq!["Standard"@, "Hardcore"@, "Solo Self-Found"@, "Hardcore SSF"@];
    assert(stable[0] == "Standard"@ && stable[1] == "Hardcore"@);
    assert(stable[2] == "Solo Self-Found"@ && stable[3] == "Hardcore SSF"@);
    reveal_strlit("Hardcore ");
    reveal_strlit("HC ");
    assert("Hardcore "@.len() == 9 && "HC "@.len() == 3);
    if id.len() >= 9 {
        assert(id.subrange(0, 9) =~= id.take(9));
    }
    if id.len() >= 3 {
        assert(id.subrange(0, 3) =~= id.take(3));
    }
}

/// A current league is shown with its id, its kind and whether it is
/// hardcore, and with what else is known of it, each under its own key and
/// only where it is known.
pub proof fn law_current_leagues_are_shown_as_known(league: LeagueView)
    ensures
        ({
            let shown = league_json(league);
            &&& at_key(shown, "id"@) == JsonView::Text(league.id)
            &&& at_key(shown, "kind"@) == JsonView::Text(league.kind)
            &&& at_key(shown, "hardcore"@) == JsonView::Bool(league.hardcore)
            &&& member(shown, "ssf"@) == match league.ssf {
                Some(flag) => Some(JsonView::Bool(flag)),
                None => None,
            }
            &&& member(shown, "ruthless"@) == match league.ruthless {
                Some(flag) => Some(JsonView::Bool(flag)),
                None => None,
            }
            &&& member(shown, "start_at"@) == match league.start_at {
                Some(date) => Some(JsonView::Text(date)),
                None => None,
            }
            &&& member(shown, "end_at"@) == match league.end_at {
                Some(date) => Some(JsonView::Text(date)),
                None => None,
            }
        }),
{
    reveal_strlit("id");
    reveal_strlit("kind");
    reveal_strlit("hardcore");
    reveal_strlit("ssf");
    reveal_strlit("ruthless");
    reveal_strlit("start_at");
    reveal_strlit("end_at");
    assert("id"@.len() == 2);
    assert("kind"@.len() == 4);
    assert("hardcore"@.len() == 8);
    assert("ssf"@.len() == 3);
    assert("ruthless"@.len() == 8);
    assert("start_at"@.len() == 8);
    assert("end_at"@.len() == 6);
    assert("hardcore"@[0] != "ruthless"@[0]);
    assert("hardcore"@[0] != "start_at"@[0]);
    assert("ruthless"@[0] != "start_at"@[0]);
}

/// The current leagues are shown in the order of their source, under the
/// address that was asked; only the official source is called authoritative.
pub proof fn law_current_leagues_tell_their_source(
    source: Source,
    game: Game,
    leagues: Seq<LeagueView>,
)
    ensures
        ({
            let section = current_json(source, game, leagues);
            let list = at_key(section, "leagues"@);
            &&& items_in(list) is Some && items_in(list)->0.len() == leagues.len()
            &&& forall|i: int|
                0 <= i < leagues.len() ==> at_index(list, i) == league_json(#[trigger] leagues[i])
            &&& at_key(section, "source"@) == JsonView::Text(source_url(source, game))
            &&& at_key(section, "annotation"@) == JsonView::Text(
                if source == Source::Official {
                    "authoritative"@
                } else {
                    "derived"@
                },
            )
            &&& member(section, "note"@) is None <==> source == Source::Official
        }),
{
    reveal_strlit("leagues");
    reveal_strlit("source");
    reveal_strlit("annotation");
    reveal_strlit("note");
    assert("leagues"@.len() == 7);
    assert("source"@.len() == 6);
    assert("annotation"@.len() == 10);
    assert("note"@.len() == 4);
}

/// Which sources are asked, and where: of the first game the official one,
/// then the economy site, then the trade site; of the second the last two.
/// Each game is asked of its own pages.
pub proof fn law_each_game_has_its_sources(game: Game)
    ensures
        chain(game).last() == Source::TradeData,
        chain(game)[chain(game).len() - 2] == Source::Ninja,
        chain(game).contains(Source::Official) <==> game == Game::Poe1,
        chain(game).no_duplicates(),
        chain(Game::Poe1).skip(1) == chain(Game::Poe2),
        source_url(Source::Official, game)
            == "https://www.pathofexile.com/api/leagues?type=main&realm=pc"@,
        source_url(Source::Ninja, Game::Poe1) == "https://poe.ninja/"@ + "poe1"@
            + "/api/economy/leagues"@,
        source_url(Source::Ninja, Game::Poe2) == "https://poe.ninja/"@ + "poe2"@
            + "/api/economy/leagues"@,
        source_url(Source::TradeData, Game::Poe1)
            == "https://www.pathofexile.com/api/trade/data/leagues"@,
        source_url(Source::TradeData, Game::Poe2)
            == "https://www.pathofexile.com/api/trade2/data/leagues"@,
{
    assert(chain(Game::Poe1)[0] == Source::Official);
    assert(chain(Game::Poe1).skip(1) =~= chain(Game::Poe2));
}

/// The first source that can be read gives the section; those in front of it
/// could not be read. Where none can, the failure tells what each failed with.
pub proof fn law_first_readable_source_is_told(game: Game, replies: Seq<Fetched>, i: int)
    requires
        asked_in_order(game, replies),
        0 <= i < replies.len(),
    ensures
        source_section(chain(game)[i], game, replies[i]) is Ok ==> {
            &&& i == replies.len() - 1
            &&& current_section(game, replies) == source_section(chain(game)[i], game, replies[i])
        },
        current_section(game, replies) is Err ==> {
            let error = current_section(game, replies)->Err_0;
            &&& replies.len() == chain(game).len()
            &&& source_section(chain(game)[i], game, replies[i]) is Err
            &&& occurs(error, source_section(chain(game)[i], game, replies[i])->Err_0)
        },
{
    if i < replies.len() - 1 {
        assert(source_section(chain(game)[i], game, replies[i]) is Err);
    }
    if current_section(game, replies) is Err {
        let error = current_section(game, replies)->Err_0;
        let errors = chain_errors(game, replies, replies.len());
        text::law_separated_lists_hold_each(errors, " | "@, i);
        let list = separated(errors, " | "@);
        let head = "all live sources failed: "@;
        let at = choose|at: int| #[trigger] is_at(list, errors[i], at);
        assert(error.subrange(head.len() + at, head.len() + at + errors[i].len())
            =~= list.subrange(at, at + errors[i].len()));
        assert(is_at(error, errors[i], head.len() + at));
    }
}

/// A source that could not be fetched gives its error, and what was fetched is
/// told as the leagues that it lists.
pub proof fn law_sources_are_read_as_fetched(source: Source, game: Game, reply: Fetched)
    ensures
        reply matches Err(error) ==> source_section(source, game, reply) == Err::<
            JsonView,
            Seq<char>,
        >(error),
        reply matches Ok(body) ==> match leagues_parsed(source, body) {
            Ok(leagues) => source_section(source, game, reply) == Ok::<JsonView, Seq<char>>(
                current_json(source, game, leagues),
            ),
            Err(error) => source_section(source, game, reply) is Err && occurs(
                source_section(source, game, reply)->Err_0,
                source_url(source, game),
            ),
        },
{
    if source_section(source, game, reply) is Err && reply is Ok {
        let error = source_section(source, game, reply)->Err_0;
        let url = source_url(source, game);
        let head = "unexpected response from "@;
        assert(error.subrange(head.len() as int, (head.len() + url.len()) as int) =~= url);
        assert(is_at(error, url, head.len() as int));
    }
}

/// A result holds the sections that were asked for and no other: the current
/// leagues, the concluded ones, or both; of both, current leagues that could
/// not be had are told as an error.
pub proof fn law_results_hold_what_was_asked(
    game: Game,
    sets: Include,
    stamp: Seq<char>,
    current: Result<JsonView, Seq<char>>,
    past: Result<JsonView, Seq<char>>,
)
    ensures
        ({
            let answer = league_answer(game, sets, stamp, current, past);
            &&& sets == Include::Current ==> (answer is Ok <==> current is Ok)
            &&& sets != Include::Current ==> (answer is Ok <==> past is Ok)
            &&& answer is Ok ==> exists|result: JsonView|
                {
                    &&& answer == Ok::<Seq<char>, Fault>(#[trigger] printed(result))
                    &&& at_key(result, "game"@) == JsonView::Text(
                        match game {
                            Game::Poe1 => "poe1"@,
                            Game::Poe2 => "poe2"@,
                        },
                    )
                    &&& at_key(result, "fetched_at"@) == JsonView::Text(stamp)
                    &&& member(result, "current"@) is Some <==> sets != Include::Past
                    &&& member(result, "past"@) is Some <==> sets != Include::Current
                    &&& sets != Include::Current ==> at_key(result, "past"@) == past->Ok_0
                    &&& sets != Include::Past && current is Ok ==> at_key(result, "current"@)
                        == current->Ok_0
                    &&& sets != Include::Past && current is Err ==> at_key(
                        at_key(result, "current"@),
                        "error"@,
                    ) == JsonView::Text("tool failed: "@ + current->Err_0)
                }
            &&& answer is Err ==> answer == Err::<Seq<char>, Fault>(
                Fault::Failed(
                    if sets == Include::Current {
                        current->Err_0
                    } else {
                        past->Err_0
                    },
                ),
            )
        }),
{
    reveal_strlit("game");
    reveal_strlit("fetched_at");
    reveal_strlit("current");
    reveal_strlit("past");
    reveal_strlit("error");
    reveal_strlit("note");
    assert("game"@.len() == 4);
    assert("fetched_at"@.len() == 10);
    assert("current"@.len() == 7);
    assert("past"@.len() == 4);
    assert("error"@.len() == 5);
    assert("note"@.len() == 4);
    assert("game"@[0] != "past"@[0]);
    assert("game"@[0] != "note"@[0]);
    assert("past"@[0] != "note"@[0]);
    let head = put(
        put(no_members(), "game"@, JsonView::Text(game_id(game))),
        "fetched_at"@,
        JsonView::Text(stamp),
    );
    let result = match sets {
        Include::Current => put(head, "current"@, current->Ok_0),
        Include::Past => put(head, "past"@, past->Ok_0),
        Include::All => put(put(head, "current"@, degraded(current)), "past"@, past->Ok_0),
    };
    let answer = league_answer(game, sets, stamp, current, past);
    if answer is Ok {
        assert(answer == Ok::<Seq<char>, Fault>(printed(result)));
    }
}

/// Which sets of leagues an argument asks for: "current", "past" or "all", and
/// the current ones where nothing is said.
pub proof fn law_sets_are_asked_for_by_name(value: JsonView)
    ensures
        optional_include(None) == Ok::<Include, Seq<char>>(Include::Current),
        optional_include(Some(JsonView::Null)) == Ok::<Include, Seq<char>>(Include::Current),
        value == JsonView::Text("current"@) ==> optional_include(Some(value)) == Ok::<
            Include,
            Seq<char>,
        >(Include::Current),
        value == JsonView::Text("past"@) ==> optional_include(Some(value)) == Ok::<
            Include,
            Seq<char>,
        >(Include::Past),
        value == JsonView::Text("all"@) ==> optional_include(Some(value)) == Ok::<
            Include,
            Seq<char>,
        >(Include::All),
        value matches JsonView::Text(name) ==> (optional_include(Some(value)) is Ok <==> name
            == "current"@ || name == "past"@ || name == "all"@),
{
    reveal_strlit("current");
    reveal_strlit("past");
    reveal_strlit("all");
    assert("current"@.len() == 7);
    assert("past"@.len() == 4);
    assert("all"@.len() == 3);
}

/// The fields of the records that are read, in the order in which a list gives
/// them.
pub proof fn law_league_fields_have_their_places()
    ensures
        league_names().len() == 2,
        league_names()[0] == "game"@ && league_names()[1] == "include"@,
        past_names().len() == 5,
        past_names()[0] == "name"@ && past_names()[1] == "version"@,
        past_names()[2] == "hardcore"@ && past_names()[3] == "start_date"@,
        past_names()[4] == "end_date"@,
        dataset_names().len() == 3,
        dataset_names()[0] == "generated_at"@ && dataset_names()[1] == "sources"@,
        dataset_names()[2] == "leagues"@,
        official_names().len() == 6,
        official_names()[0] == "id"@ && official_names()[1] == "category"@,
        official_names()[2] == "rules"@ && official_names()[3] == "startAt"@,
        official_names()[4] == "endAt"@ && official_names()[5] == "event"@,
{
}

/// A record of a concluded league may come as a list too, in the order of its
/// fields: the list says what the object with these members says.
pub proof fn law_records_may_be_lists(
    items: Seq<JsonView>,
    s: Seq<char>,
    t: Seq<char>,
    named: JsonView,
)
    requires
        items.len() == 5,
        named == put(
            put(
                put(
                    put(put(no_members(), "name"@, items[0]), "version"@, items[1]),
                    "hardcore"@,
                    items[2],
                ),
                "start_date"@,
                items[3],
            ),
            "end_date"@,
            items[4],
        ),
        record_fault(named, t, past_names()) is None,
    ensures
        past_league(JsonView::Array(items), s) == past_league(named, t),
{
    reveal_strlit("name");
    reveal_strlit("version");
    reveal_strlit("hardcore");
    reveal_strlit("start_date");
    reveal_strlit("end_date");
    assert("name"@.len() == 4);
    assert("version"@.len() == 7);
    assert("hardcore"@.len() == 8);
    assert("start_date"@.len() == 10);
    assert("end_date"@.len() == 8);
    assert("hardcore"@[0] != "end_date"@[0]);
    assert(record_fault(JsonView::Array(items), s, past_names()) is None);
}

/// An official record may come as a list too, in the order of its fields.
pub proof fn law_official_records_may_be_lists(items: Seq<JsonView>, named: JsonView)
    requires
        items.len() == 6,
        named == put(
            put(
                put(
                    put(
                        put(put(no_members(), "id"@, items[0]), "category"@, items[1]),
                        "rules"@,
                        items[2],
                    ),
                    "startAt"@,
                    items[3],
                ),
                "endAt"@,
                items[4],
            ),
            "event"@,
            items[5],
        ),
    ensures
        official(JsonView::Array(items)) == official(named),
{
    reveal_strlit("id");
    reveal_strlit("category");
    reveal_strlit("rules");
    reveal_strlit("startAt");
    reveal_strlit("endAt");
    reveal_strlit("event");
    assert("id"@.len() == 2);
    assert("category"@.len() == 8);
    assert("rules"@.len() == 5);
    assert("startAt"@.len() == 7);
    assert("endAt"@.len() == 5);
    assert("event"@.len() == 5);
    assert("rules"@[0] != "endAt"@[0]);
    assert("rules"@[0] != "event"@[0]);
    assert("endAt"@[1] != "event"@[1]);
}

/// A field that is written twice is looked for where the source has its
/// records: in each official record, in each named league, and in the result
/// of the trade site.
pub proof fn law_repeats_are_sought_in_every_record(response: JsonView, body: Seq<char>)
    ensures
        leagues_repeated(Source::Ninja, response, body) == repeated_in_list(
            response,
            body,
            seq!["id"@],
        ),
        response is Object && repeated_in(response, body, seq!["result"@]) is None
            ==> leagues_repeated(Source::TradeData, response, body) == match member(
            response,
            "result"@,
        ) {
            Some(list) => repeated_in_list(
                list,
                field_text(response, body, "result"@, 0),
                seq!["id"@],
            ),
            None => None,
        },
        response is Object ==> (repeated_in(response, body, seq!["result"@]) matches Some(name)
            ==> leagues_repeated(Source::TradeData, response, body) == Some(name)),
        response matches JsonView::Array(items) ==> (leagues_repeated(
            Source::Official,
            response,
            body,
        ) is None <==> forall|k: int|
            0 <= k < items.len() ==> official_repeated(
                #[trigger] items[k],
                part_at(parts(body), k),
            ) is None),
{
    if let JsonView::Array(items) = response {
        lemma_officials_repeated(items, parts(body), 0);
    }
}

/// No record repeats a field exactly where none of them does.
proof fn lemma_officials_repeated(items: Seq<JsonView>, list: Seq<Seq<char>>, from: int)
    requires
        0 <= from <= items.len(),
    ensures
        officials_repeated(items, list, from) is None <==> forall|k: int|
            from <= k < items.len() ==> official_repeated(#[trigger] items[k], part_at(list, k))
                is None,
    decreases items.len() - from,
{
    if from < items.len() {
        lemma_officials_repeated(items, list, from + 1);
    }
}

/// An official record repeats a field exactly where it, its category or one of
/// its rules does.
pub proof fn law_official_records_repeat_nothing(value: JsonView, s: Seq<char>)
    requires
        value is Object,
    ensures
        official_repeated(value, s) is None <==> {
            &&& repeated_in(value, s, official_names()) is None
            &&& member(value, "category"@) matches Some(category) ==> repeated_in(
                category,
                field_text(value, s, "category"@, 1),
                seq!["current"@],
            ) is None
            &&& member(value, "rules"@) matches Some(rules) ==> repeated_in_list(
                rules,
                field_text(value, s, "rules"@, 2),
                seq!["id"@],
            ) is None
        },
{
}

/// Of an official record the category is kept with its mark, the rules with
/// their ids, and every other field as it is written.
pub proof fn law_fields_are_kept_as_written(key: Option<Seq<char>>, value: Seq<char>)
    ensures
        key == Some("category"@) ==> kept_field(key, value) == kept_record(
            value,
            seq!["current"@],
        ),
        key == Some("rules"@) ==> kept_field(key, value) == kept_list(value, seq!["id"@]),
        key != Some("category"@) && key != Some("rules"@) ==> kept_field(key, value) == value,
{
    reveal_strlit("category");
    reveal_strlit("rules");
    assert("category"@.len() == 8);
    assert("rules"@.len() == 5);
}

/// A response that is no list, or no object, of the kind that its source gives
/// is kept as it is.
pub proof fn law_other_bodies_are_kept_whole(body: Seq<char>)
    ensures
        !begins_with(body, '[') ==> kept_body(Source::Official, body) == body && kept_body(
            Source::Ninja,
            body,
        ) == body,
        !begins_with(body, '[') && !begins_with(body, '{') ==> kept_body(Source::TradeData, body)
            == body,
        begins_with(body, '[') ==> kept_body(Source::Ninja, body) == array_text(
            parts(body).map_values(|item: Seq<char>| kept_record(item, seq!["id"@])),
        ),
{
}

/// A body is refused where it is no JSON at all, where what is kept of it
/// cannot be read, or where a field is repeated; and else gives the leagues
/// that it lists.
pub proof fn law_bodies_give_their_leagues(source: Source, body: Seq<char>)
    ensures
        skimmed(body) matches Some(error) ==> leagues_parsed(source, body) == Err::<
            Seq<LeagueView>,
            Seq<char>,
        >(error),
        leagues_parsed(source, body) matches Ok(leagues) ==> {
            &&& skimmed(body) is None
            &&& parsed(kept_body(source, body)) is Ok
            &&& leagues_in(source, parsed(kept_body(source, body))->Ok_0) == Ok::<
                Seq<LeagueView>,
                Seq<char>,
            >(leagues)
            &&& leagues_repeated(
                source,
                parsed(kept_body(source, body))->Ok_0,
                kept_body(source, body),
            ) is None
        },
{
}

/// Of the wrong fields of a concluded league the first is told, by its name
/// and what it should be.
pub proof fn law_wrong_past_fields_are_named(value: JsonView, s: Seq<char>)
    requires
        value is Object,
        record_fault(value, s, past_names()) is None,
    ensures
        !(member(value, "name"@) is Some) ==> past_league(value, s) == Err::<PastView, Seq<char>>(
            "missing field `"@ + "name"@ + "`"@,
        ),
        (member(value, "name"@) is Some) && !(at_key(value, "name"@) is Text)
            ==> past_league(value, s) == Err::<PastView, Seq<char>>(
            "invalid value for `"@ + "name"@ + "`, expected "@ + "a string"@,
        ),
        (member(value, "name"@) is Some) && (at_key(value, "name"@) is Text)
            && !(member(value, "version"@) is Some)
            ==> past_league(value, s) == Err::<PastView, Seq<char>>(
            "missing field `"@ + "version"@ + "`"@,
        ),
        (member(value, "name"@) is Some) && (at_key(value, "name"@) is Text)
            && (member(value, "version"@) is Some) && !(at_key(value, "version"@) is Text)
            ==> past_league(value, s) == Err::<PastView, Seq<char>>(
            "invalid value for `"@ + "version"@ + "`, expected "@ + "a string"@,
        ),
        (member(value, "name"@) is Some) && (at_key(value, "name"@) is Text)
            && (member(value, "version"@) is Some) && (at_key(value, "version"@) is Text)
            && !(member(value, "hardcore"@) is Some)
            ==> past_league(value, s) == Err::<PastView, Seq<char>>(
            "missing field `"@ + "hardcore"@ + "`"@,
        ),
        (member(value, "name"@) is Some) && (at_key(value, "name"@) is Text)
            && (member(value, "version"@) is Some) && (at_key(value, "version"@) is Text)
            && (member(value, "hardcore"@) is Some) && !(at_key(value, "hardcore"@) is Bool)
            ==> past_league(value, s) == Err::<PastView, Seq<char>>(
            "invalid value for `"@ + "hardcore"@ + "`, expected "@ + "a boolean"@,
        ),
        (member(value, "name"@) is Some) && (at_key(value, "name"@) is Text)
            && (member(value, "version"@) is Some) && (at_key(value, "version"@) is Text)
            && (member(value, "hardcore"@) is Some) && (at_key(value, "hardcore"@) is Bool)
            && !(member(value, "start_date"@) is Some)
            ==> past_league(value, s) == Err::<PastView, Seq<char>>(
            "missing field `"@ + "start_date"@ + "`"@,
        ),
        (member(value, "name"@) is Some) && (at_key(value, "name"@) is Text)
            && (member(value, "version"@) is Some) && (at_key(value, "version"@) is Text)
            && (member(value, "hardcore"@) is Some) && (at_key(value, "hardcore"@) is Bool)
            && (member(value, "start_date"@) is Some) && !(at_key(value, "start_date"@) is Text)
            ==> past_league(value, s) == Err::<PastView, Seq<char>>(
            "invalid value for `"@ + "start_date"@ + "`, expected "@ + "a string"@,
        ),
        (member(value, "name"@) is Some) && (at_key(value, "name"@) is Text)
            && (member(value, "version"@) is Some) && (at_key(value, "version"@) is Text)
            && (member(value, "hardcore"@) is Some) && (at_key(value, "hardcore"@) is Bool)
            && (member(value, "start_date"@) is Some) && (at_key(value, "start_date"@) is Text)
            && !(at_key(value, "end_date"@) is Text || at_key(value, "end_date"@) is Null)
            ==> past_league(value, s) == Err::<PastView, Seq<char>>(
            "invalid value for `"@ + "end_date"@ + "`, expected "@ + "a string"@,
        ),
{
}

/// Of the wrong fields of an official league the first is told, by its name
/// and what it should be.
pub proof fn law_wrong_official_fields_are_named(value: JsonView)
    requires
        value is Object,
    ensures
        !(member(value, "id"@) is Some) ==> official(value) == Err::<LeagueView, Seq<char>>(
            "missing field `"@ + "id"@ + "`"@,
        ),
        (member(value, "id"@) is Some) && !(at_key(value, "id"@) is Text)
            ==> official(value) == Err::<LeagueView, Seq<char>>(
            "invalid value for `"@ + "id"@ + "`, expected "@ + "a string"@,
        ),
        at_key(value, "id"@) is Text && current_of(value) is Ok && rules_of(value) is Ok && !(at_key(
            value,
            "startAt"@,
        ) is Text || at_key(value, "startAt"@) is Null) ==> official(value) == Err::<
            LeagueView,
            Seq<char>,
        >("invalid value for `"@ + "startAt"@ + "`, expected "@ + "a string"@),
        at_key(value, "id"@) is Text && current_of(value) is Ok && rules_of(value) is Ok && (at_key(
            value,
            "startAt"@,
        ) is Text || at_key(value, "startAt"@) is Null) && !(at_key(value, "endAt"@) is Text
            || at_key(value, "endAt"@) is Null) ==> official(value) == Err::<LeagueView, Seq<char>>(
            "invalid value for `"@ + "endAt"@ + "`, expected "@ + "a string"@,
        ),
        at_key(value, "id"@) is Text && current_of(value) is Ok && rules_of(value) is Ok && (at_key(
            value,
            "startAt"@,
        ) is Text || at_key(value, "startAt"@) is Null) && (at_key(value, "endAt"@) is Text
            || at_key(value, "endAt"@) is Null) && member(value, "event"@) is Some && !(at_key(
            value,
            "event"@,
        ) is Bool) ==> official(value) == Err::<LeagueView, Seq<char>>(
            "invalid value for `"@ + "event"@ + "`, expected "@ + "a boolean"@,
        ),
{
}

/// What is no record, where one is expected, is told as what was expected; a
/// category may lack its mark and a league its rules.
pub proof fn law_what_is_no_record_is_told(value: JsonView, what: Seq<char>, most: nat)
    ensures
        !(value is Object) && !(value is Array) ==> record_id(value, most, what) == Err::<
            Seq<char>,
            Seq<char>,
        >("invalid type, expected "@ + what),
        !(value is Array) ==> ids_in(value, what) == Err::<Seq<Seq<char>>, Seq<char>>(
            "invalid type, expected "@ + "a list"@,
        ),
        value is Object && member(value, "category"@) is None ==> current_of(value) == Ok::<
            bool,
            Seq<char>,
        >(false),
        value is Object && at_key(value, "category"@) is Object && member(
            at_key(value, "category"@),
            "current"@,
        ) is None ==> current_of(value) == Ok::<bool, Seq<char>>(false),
        value is Object && member(value, "category"@) is Some && !(at_key(value, "category"@)
            is Object) && !(at_key(value, "category"@) is Array) ==> current_of(value) == Err::<
            bool,
            Seq<char>,
        >("invalid type, expected "@ + "a category"@),
        value is Object && member(value, "rules"@) is None ==> rules_of(value) == Ok::<
            Seq<Seq<char>>,
            Seq<char>,
        >(seq![]),
        !(value is Array) ==> leagues_in(Source::Official, value) == Err::<
            Seq<LeagueView>,
            Seq<char>,
        >("invalid type, expected "@ + "a list"@),
        value is Object && member(value, "result"@) is None ==> leagues_in(
            Source::TradeData,
            value,
        ) == Err::<Seq<LeagueView>, Seq<char>>("missing field `"@ + "result"@ + "`"@),
        !(value is Object) && !(value is Array) ==> leagues_in(Source::TradeData, value) == Err::<
            Seq<LeagueView>,
            Seq<char>,
        >("invalid type, expected "@ + "a result"@),
{
}

/// A dataset says when it was made, from which sources, and which leagues
/// there were: what stands under these names.
pub proof fn law_datasets_are_read(value: JsonView, raw: Seq<char>)
    requires
        value is Object,
    ensures
        dataset_in(value, raw) matches Ok(dataset) ==> {
            let sources = at_key(value, "sources"@);
            let leagues = at_key(value, "leagues"@);
            &&& record_fault(value, raw, dataset_names()) is None
            &&& at_key(value, "generated_at"@) == JsonView::Text(dataset.generated_at)
            &&& sources is Array && sources->Array_0.len() == dataset.sources.len()
            &&& forall|i: int|
                0 <= i < dataset.sources.len() ==> sources->Array_0[i] == JsonView::Text(
                    #[trigger] dataset.sources[i],
                )
            &&& leagues is Array && leagues->Array_0.len() == dataset.leagues.len()
        },
        record_fault(value, raw, dataset_names()) matches Some(error) ==> dataset_in(value, raw)
            == Err::<DatasetView, Seq<char>>(error),
{
    if dataset_in(value, raw) is Ok {
        let sources = at_key(value, "sources"@);
        law_texts_are_read_in_order(sources, "sources"@);
        let values = at_key(value, "leagues"@)->Array_0;
        lemma_past_leagues(values, parts(field_text(value, raw, "leagues"@, 2)), values.len());
    }
}

/// Of the wrong fields of a dataset the first is told, by its name and what it
/// should be.
pub proof fn law_wrong_dataset_fields_are_named(value: JsonView, raw: Seq<char>)
    requires
        value is Object,
        record_fault(value, raw, dataset_names()) is None,
    ensures
        !(member(value, "generated_at"@) is Some) ==> dataset_in(value, raw) == Err::<DatasetView, Seq<char>>(
            "missing field `"@ + "generated_at"@ + "`"@,
        ),
        (member(value, "generated_at"@) is Some) && !(at_key(value, "generated_at"@) is Text)
            ==> dataset_in(value, raw) == Err::<DatasetView, Seq<char>>(
            "invalid value for `"@ + "generated_at"@ + "`, expected "@ + "a string"@,
        ),
        (member(value, "generated_at"@) is Some) && (at_key(value, "generated_at"@) is Text)
            && !(member(value, "sources"@) is Some)
            ==> dataset_in(value, raw) == Err::<DatasetView, Seq<char>>(
            "missing field `"@ + "sources"@ + "`"@,
        ),
        (member(value, "generated_at"@) is Some) && (at_key(value, "generated_at"@) is Text)
            && (member(value, "sources"@) is Some) && !(at_key(value, "sources"@) is Array)
            ==> dataset_in(value, raw) == Err::<DatasetView, Seq<char>>(
            "invalid value for `"@ + "sources"@ + "`, expected "@ + "a list"@,
        ),
{
}

/// A dataset that cannot be read is told as invalid, with why.
pub proof fn law_unreadable_datasets_are_told(raw: Seq<char>)
    ensures
        parsed(raw) matches Err(error) ==> past_section(raw) == Err::<JsonView, Seq<char>>(
            "vendored dataset invalid: "@ + error,
        ),
        parsed(raw) matches Ok(value) ==> match dataset_in(value, raw) {
            Ok(dataset) => past_section(raw) == Ok::<JsonView, Seq<char>>(dataset_json(dataset)),
            Err(error) => past_section(raw) == Err::<JsonView, Seq<char>>(
                "vendored dataset invalid: "@ + error,
            ),
        },
{
}

/// Of the trade site's answer the result is kept, and of each league in it its
/// id; of the official one, each record is kept on its own.
pub proof fn law_bodies_are_kept_record_by_record(body: Seq<char>)
    ensures
        begins_with(body, '{') ==> kept_body(Source::TradeData, body) == object_text(
            members_kept(body, seq!["result"@]).map_values(
                |member: (Seq<char>, Seq<char>)| (member.0, kept_list(member.1, seq!["id"@])),
            ),
        ),
        begins_with(body, '[') ==> kept_body(Source::TradeData, body) == array_text(
            parts(body).map_values(|list: Seq<char>| kept_list(list, seq!["id"@])),
        ),
        begins_with(body, '[') ==> kept_body(Source::Official, body) == array_text(
            parts(body).map_values(|entry: Seq<char>| kept_official(entry)),
        ),
{
}

}
