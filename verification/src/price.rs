//! Economy prices: market data over poe.ninja's documented public API.
//!
//! Only the economy endpoints are public surface; responses are cached by the
//! server for about five minutes, so repeats are served from a local cache.
//!
//! - Exchange (`Currency`/`Fragment`/`Fragments` categories): `lines[]` with a
//!   slug for `id` (`divine`, not `Divine Orb`); a top-level `items[]` catalog
//!   plus `core.items[]` (anchor currencies appear only there) map those ids
//!   to proper names, and `core.primary` names the currency that
//!   `primaryValue` is denominated in.
//! - Item overviews: `lines[]` of named items with value fields. Path of
//!   Exile 1 uses singular category names, Path of Exile 2 plural ones: the
//!   server is authoritative, the tool passes the category through and retries
//!   the other endpoint once when the first answers 404.
//!
//! The league is an explicit argument, so that this tool stays free of game
//! facts.

use vstd::prelude::*;

use crate::args::{
    argument, find_argument, held, maybe_text, names_view, open_args, opened, optional_count,
    optional_text, read_game, read_optional_count, read_optional_text, read_text, required_game,
    required_text,
};
use crate::held::hold;
use crate::http::{fetched, CachedHttp, Fetched, HttpGet, HttpSource};
use crate::json;
use crate::json::{
    at_index, at_key, float_in, items_in, items_view, lemma_items_push, lemma_items_view, member,
    members_in, no_members, parsed, printed, put, put_some, text_in, unsigned_in, Json, JsonView,
};
use crate::text;
use crate::text::{ascii_lowered, lowercase, occurs, trimmed};
use crate::tool::{answer_of, fault_text, Answer, Fault, Tool, ToolError};
use crate::toolkit::{
    game_id, is_sourced, is_stamp, is_stamped, now_utc, percent_encode, percent_encoded, Game,
};

verus! {

/// How long a body lives in the local cache, in nanoseconds: the five minutes
/// of the server's own cache.
pub const CACHE_TTL_NANOS: u128 = 300_000_000_000;

/// Default number of lines returned.
pub const DEFAULT_LIMIT: u64 = 5;

/// Upper bound on returned lines per call (payloads have hundreds).
pub const MAX_LIMIT: u64 = 20;

/// The endpoint of exchange rates.
pub const EXCHANGE_ENDPOINT: &'static str = "exchange/current/overview";

/// The endpoint of item prices.
pub const ITEM_ENDPOINT: &'static str = "stash/current/item/overview";

/// The arguments of a price lookup.
#[derive(Debug)]
pub struct PriceArgs {
    /// Which game.
    pub game: Game,
    /// League id.
    pub league: String,
    /// Category.
    pub category: String,
    /// Filter on names and ids.
    pub name: Option<String>,
    /// Most lines to return.
    pub limit: Option<u64>,
}

/// What [`PriceArgs`] say.
pub ghost struct PriceArgsView {
    /// Which game.
    pub game: Game,
    /// League id.
    pub league: Seq<char>,
    /// Category.
    pub category: Seq<char>,
    /// Filter on names and ids.
    pub name: Option<Seq<char>>,
    /// Most lines to return.
    pub limit: Option<u64>,
}

impl View for PriceArgs {
    type V = PriceArgsView;

    open spec fn view(&self) -> PriceArgsView {
        PriceArgsView {
            game: self.game,
            league: self.league@,
            category: self.category@,
            name: maybe_text(self.name),
            limit: self.limit,
        }
    }
}

/// The names of the arguments, in order.
pub open spec fn price_names() -> Seq<Seq<char>> {
    seq!["game"@, "league"@, "category"@, "name"@, "limit"@]
}

/// The arguments that a JSON value holds.
pub open spec fn price_args_in(args: JsonView) -> Result<PriceArgsView, Seq<char>> {
    match required_game(argument(args, "game"@, 0), "game"@) {
        Err(error) => Err(error),
        Ok(game) => match required_text(argument(args, "league"@, 1), "league"@) {
            Err(error) => Err(error),
            Ok(league) => match required_text(argument(args, "category"@, 2), "category"@) {
                Err(error) => Err(error),
                Ok(category) => match optional_text(argument(args, "name"@, 3), "name"@) {
                    Err(error) => Err(error),
                    Ok(name) => match optional_count(argument(args, "limit"@, 4), "limit"@) {
                        Err(error) => Err(error),
                        Ok(limit) => if trimmed(league).len() == 0 {
                            Err("`league` must not be empty"@)
                        } else if trimmed(category).len() == 0 {
                            Err("`category` must not be empty"@)
                        } else {
                            Ok(PriceArgsView { game, league, category, name, limit })
                        },
                    },
                },
            },
        },
    }
}

/// The arguments that a text holds.
pub open spec fn price_args(args_json: Seq<char>) -> Result<PriceArgsView, Seq<char>> {
    match opened(args_json, price_names(), 1) {
        Err(error) => Err(error),
        Ok(args) => price_args_in(args),
    }
}

/// The exchange category that a category is, whatever its case, in its proper
/// capitalization.
pub open spec fn exchange_category(category: Seq<char>) -> Option<Seq<char>> {
    if ascii_lowered(category) == ascii_lowered("Currency"@) {
        Some("Currency"@)
    } else if ascii_lowered(category) == ascii_lowered("Fragment"@) {
        Some("Fragment"@)
    } else if ascii_lowered(category) == ascii_lowered("Fragments"@) {
        Some("Fragments"@)
    } else {
        None
    }
}

/// The address of an overview.
pub open spec fn overview_url(
    game: Game,
    league: Seq<char>,
    category: Seq<char>,
    endpoint: Seq<char>,
) -> Seq<char> {
    "https://poe.ninja/"@ + game_id(game) + "/api/economy/"@ + endpoint + "?league="@
        + percent_encoded(vstd::utf8::encode_utf8(league)) + "&type="@ + percent_encoded(vstd::utf8::encode_utf8(category))
}

/// The address to ask first: that of the endpoint which the category suggests.
pub open spec fn first_url(args: PriceArgsView) -> Seq<char> {
    match exchange_category(args.category) {
        Some(category) => overview_url(args.game, args.league, category, EXCHANGE_ENDPOINT@),
        None => overview_url(args.game, args.league, args.category, ITEM_ENDPOINT@),
    }
}

/// The address to ask when the first answers 404: that of the other endpoint.
pub open spec fn second_url(args: PriceArgsView) -> Seq<char> {
    match exchange_category(args.category) {
        Some(category) => overview_url(args.game, args.league, category, ITEM_ENDPOINT@),
        None => overview_url(args.game, args.league, args.category, EXCHANGE_ENDPOINT@),
    }
}

/// What to say of a category that gave nothing.
pub open spec fn category_hint(category: Seq<char>, game: Game) -> Seq<char> {
    "the category `"@ + category + "` may not exist for "@ + game_id(game)
        + ": poe1 uses singular item categories (e.g. UniqueWeapon), poe2 plural (e.g. UniqueWeapons); exchange categories are Currency and Fragment (poe1) / Fragments (poe2)"@
}

/// The names that the first `n` entries of a catalog add, by id: a later
/// entry takes the place of an earlier one.
pub open spec fn catalog_of(
    names: Map<Seq<char>, Seq<char>>,
    entries: Seq<JsonView>,
    n: nat,
) -> Map<Seq<char>, Seq<char>>
    decreases n,
{
    if n == 0 {
        names
    } else {
        let before = catalog_of(names, entries, (n - 1) as nat);
        let entry = entries[n - 1];
        match (text_in(at_key(entry, "id"@)), text_in(at_key(entry, "name"@))) {
            (Some(id), Some(name)) => before.insert(id, name),
            _ => before,
        }
    }
}

/// The names that a list of entries adds, where it is one.
pub open spec fn catalog_from(names: Map<Seq<char>, Seq<char>>, list: JsonView) -> Map<
    Seq<char>,
    Seq<char>,
> {
    match items_in(list) {
        Some(entries) => catalog_of(names, entries, entries.len()),
        None => names,
    }
}

/// The names that a response gives to ids.
pub open spec fn catalog(response: JsonView) -> Map<Seq<char>, Seq<char>> {
    catalog_from(
        catalog_from(Map::empty(), at_key(at_key(response, "core"@), "items"@)),
        at_key(response, "items"@),
    )
}

/// The name of an id, if it has one.
pub open spec fn name_of(names: Map<Seq<char>, Seq<char>>, id: Seq<char>) -> Option<Seq<char>> {
    if names.contains_key(id) {
        Some(names[id])
    } else {
        None
    }
}

/// The name of an id, or the id.
pub open spec fn display_name(names: Map<Seq<char>, Seq<char>>, id: Seq<char>) -> Seq<char> {
    match name_of(names, id) {
        Some(name) => name,
        None => id,
    }
}

/// Whether a candidate holds what is looked for, whatever its case.
pub open spec fn candidate_matches(candidate: Option<Seq<char>>, needle: Seq<char>) -> bool {
    candidate is Some && occurs(lowercase(candidate->0), needle)
}

/// Whether a line matches a filter, given in lower case: by its proper name,
/// by the name that the catalog gives its id, or by the id itself.
pub open spec fn line_matches(
    line: JsonView,
    names: Map<Seq<char>, Seq<char>>,
    needle: Seq<char>,
) -> bool {
    let id = text_in(at_key(line, "id"@));
    ||| candidate_matches(text_in(at_key(line, "name"@)), needle)
    ||| id is Some && candidate_matches(name_of(names, id->0), needle)
    ||| candidate_matches(id, needle)
}

/// Those of the first `n` lines that match the filter, all where there is none.
pub open spec fn matching(
    lines: Seq<JsonView>,
    names: Map<Seq<char>, Seq<char>>,
    needle: Option<Seq<char>>,
    n: nat,
) -> Seq<JsonView>
    decreases n,
{
    if n == 0 {
        seq![]
    } else {
        let before = matching(lines, names, needle, (n - 1) as nat);
        if needle is None || line_matches(lines[n - 1], names, needle->0) {
            before.push(lines[n - 1])
        } else {
            before
        }
    }
}

/// How many lines are returned at most.
pub open spec fn line_limit(limit: Option<u64>) -> u64 {
    match limit {
        None => DEFAULT_LIMIT,
        Some(n) => if n < 1 {
            1
        } else if n > MAX_LIMIT {
            MAX_LIMIT
        } else {
            n
        },
    }
}

/// A string as a value.
pub open spec fn as_text(text: Option<Seq<char>>) -> Option<JsonView> {
    match text {
        Some(text) => Some(JsonView::Text(text)),
        None => None,
    }
}

/// A number of a line as a value.
pub open spec fn number_at(line: JsonView, field: Seq<char>) -> Option<JsonView> {
    match float_in(at_key(line, field)) {
        Some(number) => Some(JsonView::Float(number)),
        None => None,
    }
}

/// A count of a line as a value.
pub open spec fn count_at(line: JsonView, field: Seq<char>) -> Option<JsonView> {
    match unsigned_in(at_key(line, field)) {
        Some(n) => Some(JsonView::Unsigned(n)),
        None => None,
    }
}

/// What a line is: its name, or its id with the name that the catalog gives
/// it; and its base type.
pub open spec fn line_identity(line: JsonView, names: Map<Seq<char>, Seq<char>>) -> JsonView {
    let name = text_in(at_key(line, "name"@));
    let id = text_in(at_key(line, "id"@));
    let called = match (name, id) {
        (Some(name), _) => put(no_members(), "name"@, JsonView::Text(name)),
        (None, Some(id)) => put_some(
            put(no_members(), "id"@, JsonView::Text(id)),
            "name"@,
            as_text(name_of(names, id)),
        ),
        (None, None) => no_members(),
    };
    put_some(called, "base_type"@, as_text(text_in(at_key(line, "baseType"@))))
}

/// The values of a line behind its identity.
pub open spec fn line_values(out: JsonView, line: JsonView) -> JsonView {
    let out = put_some(out, "chaos_value"@, number_at(line, "chaosValue"@));
    let out = put_some(out, "divine_value"@, number_at(line, "divineValue"@));
    let out = put_some(out, "exalted_value"@, number_at(line, "exaltedValue"@));
    put_some(out, "value"@, number_at(line, "primaryValue"@))
}

/// The most traded counterpart of a line, and the rate.
pub open spec fn line_volume(
    out: JsonView,
    line: JsonView,
    names: Map<Seq<char>, Seq<char>>,
) -> JsonView {
    match text_in(at_key(line, "maxVolumeCurrency"@)) {
        None => out,
        Some(currency) => put_some(
            put(
                out,
                "max_volume_currency"@,
                JsonView::Text(display_name(names, currency)),
            ),
            "max_volume_rate"@,
            number_at(line, "maxVolumeRate"@),
        ),
    }
}

/// The counts of a line.
pub open spec fn line_counts(out: JsonView, line: JsonView) -> JsonView {
    let out = put_some(out, "listings"@, count_at(line, "listingCount"@));
    let out = put_some(out, "count"@, count_at(line, "count"@));
    put_some(out, "links"@, count_at(line, "links"@))
}

/// The recent change of a line.
pub open spec fn line_change(line: JsonView) -> JsonView {
    let change = at_key(at_key(line, "sparkLine"@), "totalChange"@);
    if change is Null {
        at_key(at_key(line, "sparkline"@), "totalChange"@)
    } else {
        change
    }
}

/// A line reduced to what a model needs: identity and values. Full lines
/// carry icons, sparkline arrays and full mod text, hundreds of tokens of
/// noise per entry.
pub open spec fn trimmed_line(line: JsonView, names: Map<Seq<char>, Seq<char>>) -> JsonView {
    let out = line_values(line_identity(line, names), line);
    let out = line_counts(line_volume(out, line, names), line);
    put_some(
        out,
        "change_percent"@,
        match float_in(line_change(line)) {
            Some(number) => Some(JsonView::Float(number)),
            None => None,
        },
    )
}

/// The currency that values are denominated in.
pub open spec fn primary_currency(response: JsonView) -> Option<Seq<char>> {
    match text_in(at_key(at_key(response, "core"@), "primary"@)) {
        Some(id) => Some(display_name(catalog(response), id)),
        None => None,
    }
}

/// What a result says of itself.
pub open spec fn price_note(currency: Option<Seq<char>>) -> Seq<char> {
    "prices from poe.ninja's economy snapshot (server-cached ~5 minutes);"@ + match currency {
        Some(currency) => " `value` is denominated in "@ + currency + ";"@,
        None => seq![],
    }
        + " chaos/divine/exalted `_value` keys name their own unit; `max_volume_rate` is units of that line's item per one `max_volume_currency`; `change_percent` is the sparkline's percent change over poe.ninja's recent window"@
}

/// The lines of a response that match, and those of them that are returned,
/// reduced.
pub open spec fn matching_lines(args: PriceArgsView, response: JsonView, lines: Seq<JsonView>) -> Seq<
    JsonView,
> {
    matching(
        lines,
        catalog(response),
        match args.name {
            Some(name) => Some(lowercase(name)),
            None => None,
        },
        lines.len(),
    )
}

/// The lines that are returned, reduced.
pub open spec fn returned_lines(
    args: PriceArgsView,
    response: JsonView,
    lines: Seq<JsonView>,
) -> Seq<JsonView> {
    let matches = matching_lines(args, response, lines);
    let n = if matches.len() < line_limit(args.limit) {
        matches.len() as int
    } else {
        line_limit(args.limit) as int
    };
    Seq::new(n as nat, |i: int| trimmed_line(matches[i], catalog(response)))
}

/// The prices that a response with lines gives.
pub open spec fn prices_of_lines(
    args: PriceArgsView,
    url: Seq<char>,
    response: JsonView,
    lines: Seq<JsonView>,
) -> JsonView {
    let currency = primary_currency(response);
    let out = put(no_members(), "league"@, JsonView::Text(args.league));
    let out = put(out, "category"@, JsonView::Text(args.category));
    let out = put_some(out, "primary_currency"@, as_text(currency));
    let out = put(
        out,
        "total_matches"@,
        JsonView::Unsigned(matching_lines(args, response, lines).len() as u64),
    );
    let out = put(
        out,
        "returned"@,
        JsonView::Unsigned(returned_lines(args, response, lines).len() as u64),
    );
    let out = put(out, "lines"@, JsonView::Array(returned_lines(args, response, lines)));
    let out = put(out, "source"@, JsonView::Text(url));
    put(out, "note"@, JsonView::Text(price_note(currency)))
}

/// The prices that a response gives, or why it gives none.
pub open spec fn prices_of(args: PriceArgsView, url: Seq<char>, response: JsonView) -> Result<
    JsonView,
    Seq<char>,
> {
    match items_in(at_key(response, "lines"@)) {
        Some(lines) => Ok(prices_of_lines(args, url, response, lines)),
        None => Err(
            "no lines in response from "@ + url + " — "@ + category_hint(args.category, args.game),
        ),
    }
}

/// The prices that a request for `url` gave, or why it gave none.
pub open spec fn prices_fetched(args: PriceArgsView, url: Seq<char>, reply: Fetched) -> Result<
    JsonView,
    Seq<char>,
> {
    match reply {
        Err(error) => Err(error),
        Ok(body) => match parsed(body) {
            Err(error) => Err("unexpected response from "@ + url + ": "@ + error),
            Ok(response) => prices_of(args, url, response),
        },
    }
}

/// Whether a failure is that of an address which does not exist.
pub open spec fn is_not_found(error: Seq<char>) -> bool {
    occurs(error, "http status: 404"@)
}

/// Whether the first request gave such a failure that the other endpoint is
/// asked.
pub open spec fn asks_again(args: PriceArgsView, first: Fetched) -> bool {
    let prices = prices_fetched(args, first_url(args), first);
    prices is Err && is_not_found(prices->Err_0)
}

/// The prices that the two requests gave, the second where it was made.
pub open spec fn prices(args: PriceArgsView, first: Fetched, second: Fetched) -> Result<
    JsonView,
    Seq<char>,
> {
    let one = prices_fetched(args, first_url(args), first);
    if !asks_again(args, first) {
        one
    } else {
        match prices_fetched(args, second_url(args), second) {
            Ok(prices) => Ok(prices),
            Err(_) => Err(
                fault_text(Fault::Failed(one->Err_0)) + " (the other endpoint failed too) — "@
                    + category_hint(args.category, args.game),
            ),
        }
    }
}

/// What a lookup is answered, given the time and what its requests gave.
pub open spec fn price_answer(
    args: PriceArgsView,
    stamp: Seq<char>,
    first: Fetched,
    second: Fetched,
) -> Answer {
    match prices(args, first, second) {
        Err(error) => Err(Fault::Failed(error)),
        Ok(prices) => {
            let out = put(no_members(), "game"@, JsonView::Text(game_id(args.game)));
            let out = put(out, "fetched_at"@, JsonView::Text(stamp));
            Ok(printed(put(out, "prices"@, prices)))
        },
    }
}

/// Read the arguments of a price lookup.
pub fn read_price_args(args_json: &str) -> (args: Result<PriceArgs, String>)
    ensures
        match args {
            Ok(args) => price_args(args_json@) is Ok && price_args(args_json@)->Ok_0 == args@,
            Err(error) => price_args(args_json@) is Err && price_args(args_json@)->Err_0 == error@,
        },
{
    let names: [&'static str; 5] = ["game", "league", "category", "name", "limit"];
    assert(names_view(names@) =~= price_names());
    let args = match open_args(args_json, &names, 1) {
        Ok(args) => args,
        Err(error) => {
            return Err(error);
        },
    };
    let game = match read_game(find_argument(&args, "game", 0), "game") {
        Ok(game) => game,
        Err(error) => {
            return Err(error);
        },
    };
    let league = match read_text(find_argument(&args, "league", 1), "league") {
        Ok(league) => league,
        Err(error) => {
            return Err(error);
        },
    };
    let category = match read_text(find_argument(&args, "category", 2), "category") {
        Ok(category) => category,
        Err(error) => {
            return Err(error);
        },
    };
    let name = match read_optional_text(find_argument(&args, "name", 3), "name") {
        Ok(name) => name,
        Err(error) => {
            return Err(error);
        },
    };
    let limit: Option<u64> = match read_optional_count(find_argument(&args, "limit", 4), "limit") {
        Ok(limit) => limit,
        Err(error) => {
            return Err(error);
        },
    };
    if text::trim(league.as_str()).is_empty() {
        return Err("`league` must not be empty".to_owned());
    }
    if text::trim(category.as_str()).is_empty() {
        return Err("`category` must not be empty".to_owned());
    }
    Ok(PriceArgs { game, league, category, name, limit })
}

/// The exchange category that a category is, whatever its case.
fn canonical_category(category: &str) -> (canonical: Option<&'static str>)
    ensures
        match canonical {
            Some(canonical) => exchange_category(category@) == Some(canonical@),
            None => exchange_category(category@) is None,
        },
{
    if text::same_ignoring_case(category, "Currency") {
        Some("Currency")
    } else if text::same_ignoring_case(category, "Fragment") {
        Some("Fragment")
    } else if text::same_ignoring_case(category, "Fragments") {
        Some("Fragments")
    } else {
        None
    }
}

/// The address of an overview.
fn url(game: Game, league: &str, category: &str, endpoint: &str) -> (url: String)
    ensures
        url@ == overview_url(game, league@, category@, endpoint@),
{
    let mut url = "https://poe.ninja/".to_owned();
    url.append(game.as_str());
    url.append("/api/economy/");
    url.append(endpoint);
    url.append("?league=");
    url.append(percent_encode(league).as_str());
    url.append("&type=");
    url.append(percent_encode(category).as_str());
    url
}

/// The two addresses to ask, in order.
pub fn price_urls(args: &PriceArgs) -> (urls: (String, String))
    ensures
        urls.0@ == first_url(args@),
        urls.1@ == second_url(args@),
{
    match canonical_category(args.category.as_str()) {
        Some(category) => (
            url(args.game, args.league.as_str(), category, EXCHANGE_ENDPOINT),
            url(args.game, args.league.as_str(), category, ITEM_ENDPOINT),
        ),
        None => (
            url(args.game, args.league.as_str(), args.category.as_str(), ITEM_ENDPOINT),
            url(args.game, args.league.as_str(), args.category.as_str(), EXCHANGE_ENDPOINT),
        ),
    }
}

/// What to say of a category that gave nothing.
fn hint(args: &PriceArgs) -> (line: String)
    ensures
        line@ == category_hint(args.category@, args.game),
{
    let mut line = "the category `".to_owned();
    line.append(args.category.as_str());
    line.append("` may not exist for ");
    line.append(args.game.as_str());
    line.append(
        ": poe1 uses singular item categories (e.g. UniqueWeapon), poe2 plural (e.g. UniqueWeapons); exchange categories are Currency and Fragment (poe1) / Fragments (poe2)",
    );
    line
}

/// The names that a response gives to ids.
struct Catalog {
    names: Vec<(String, String)>,
}

/// The names of a list of pairs by id: a later pair takes the place of an
/// earlier one.
spec fn pairs_view(pairs: Seq<(String, String)>) -> Map<Seq<char>, Seq<char>>
    decreases pairs.len(),
{
    if pairs.len() == 0 {
        Map::empty()
    } else {
        pairs_view(pairs.drop_last()).insert(pairs.last().0@, pairs.last().1@)
    }
}

impl View for Catalog {
    type V = Map<Seq<char>, Seq<char>>;

    closed spec fn view(&self) -> Map<Seq<char>, Seq<char>> {
        pairs_view(self.names@)
    }
}

impl Catalog {
    /// The catalog of a response.
    fn of(response: &Json) -> (names: Self)
        ensures
            names@ == catalog(response@),
    {
        let mut names = Catalog { names: Vec::new() };
        names.add(response.key("core").key("items"));
        names.add(response.key("items"));
        names
    }

    /// Add the names of a list of entries, where it is one.
    fn add(&mut self, list: &Json)
        ensures
            final(self)@ == catalog_from(old(self)@, list@),
    {
        if let Some(entries) = list.as_array() {
            let ghost all = items_view(entries@);
            let ghost before = self@;
            let mut i: usize = 0;
            while i < entries.len()
                invariant
                    i <= entries@.len(),
                    all == items_view(entries@),
                    before == old(self)@,
                    self@ == catalog_of(before, all, i as nat),
                decreases entries@.len() - i,
            {
                proof {
                    lemma_items_view(entries@);
                }
                let entry = &entries[i];
                if let Some(id) = entry.key("id").as_str() {
                    if let Some(name) = entry.key("name").as_str() {
                        let ghost held = self.names@;
                        self.names.push((id.to_owned(), name.to_owned()));
                        assert(self.names@.drop_last() =~= held);
                    }
                }
                i += 1;
            }
            proof {
                lemma_items_view(entries@);
            }
        }
    }

    /// The name of an id, if it has one.
    fn get(&self, id: &str) -> (name: Option<&str>)
        ensures
            match name {
                Some(name) => name_of(self@, id@) == Some(name@),
                None => name_of(self@, id@) is None,
            },
    {
        let mut i: usize = self.names.len();
        assert(self.names@.take(i as int) =~= self.names@);
        while i > 0
            invariant
                i <= self.names@.len(),
                name_of(self@, id@) == name_of(pairs_view(self.names@.take(i as int)), id@),
            decreases i,
        {
            i -= 1;
            proof {
                assert(self.names@.take(i + 1).drop_last() =~= self.names@.take(i as int));
                assert(self.names@.take(i + 1).last() == self.names@[i as int]);
            }
            if text::same(self.names[i].0.as_str(), id) {
                return Some(self.names[i].1.as_str());
            }
        }
        None
    }

    /// The name of an id, or the id.
    fn display<'a>(&'a self, id: &'a str) -> (name: &'a str)
        ensures
            name@ == display_name(self@, id@),
    {
        match self.get(id) {
            Some(name) => name,
            None => id,
        }
    }
}

/// What an optional text says.
spec fn maybe(text: Option<&str>) -> Option<Seq<char>> {
    match text {
        Some(text) => Some(text@),
        None => None,
    }
}

/// Whether a candidate holds what is looked for.
fn candidate_holds(candidate: Option<&str>, needle: &str) -> (yes: bool)
    ensures
        yes == candidate_matches(maybe(candidate), needle@),
{
    match candidate {
        Some(candidate) => text::contains(candidate.to_lowercase().as_str(), needle),
        None => false,
    }
}

/// Whether a line matches a filter, given in lower case.
fn matches_line(line: &Json, names: &Catalog, needle: &str) -> (yes: bool)
    ensures
        yes == line_matches(line@, names@, needle@),
{
    let id = line.key("id").as_str();
    let by_catalog = match id {
        Some(id) => candidate_holds(names.get(id), needle),
        None => false,
    };
    candidate_holds(line.key("name").as_str(), needle) || by_catalog || candidate_holds(id, needle)
}

/// An object with a string more, if there is one.
fn with_text(out: Json, key: &str, text: Option<&str>) -> (more: Json)
    ensures
        more@ == put_some(out@, key@, as_text(maybe(text))),
{
    match text {
        Some(text) => out.with(key, Json::string(text)),
        None => out,
    }
}

/// An object with a number of a line more, if the line has it.
fn with_number(out: Json, key: &str, line: &Json, field: &str) -> (more: Json)
    ensures
        more@ == put_some(out@, key@, number_at(line@, field@)),
{
    match line.key(field).as_float() {
        Some(number) => out.with(key, Json::Float(number)),
        None => out,
    }
}

/// An object with a count of a line more, if the line has it.
fn with_count(out: Json, key: &str, line: &Json, field: &str) -> (more: Json)
    ensures
        more@ == put_some(out@, key@, count_at(line@, field@)),
{
    match line.key(field).as_u64() {
        Some(n) => out.with(key, Json::Unsigned(n)),
        None => out,
    }
}

/// Reduce a line to what a model needs: identity and values.
fn trim_line(line: &Json, names: &Catalog) -> (out: Json)
    ensures
        out@ == trimmed_line(line@, names@),
{
    let mut out = Json::object();
    if let Some(name) = line.key("name").as_str() {
        out = out.with("name", Json::string(name));
    } else if let Some(id) = line.key("id").as_str() {
        out = out.with("id", Json::string(id));
        out = with_text(out, "name", names.get(id));
    }
    out = with_text(out, "base_type", line.key("baseType").as_str());
    assert(out@ == line_identity(line@, names@));
    out = with_number(out, "chaos_value", line, "chaosValue");
    out = with_number(out, "divine_value", line, "divineValue");
    out = with_number(out, "exalted_value", line, "exaltedValue");
    out = with_number(out, "value", line, "primaryValue");
    if let Some(currency) = line.key("maxVolumeCurrency").as_str() {
        out = out.with("max_volume_currency", Json::string(names.display(currency)));
        out = with_number(out, "max_volume_rate", line, "maxVolumeRate");
    }
    out = with_count(out, "listings", line, "listingCount");
    out = with_count(out, "count", line, "count");
    out = with_count(out, "links", line, "links");
    let mut change = line.key("sparkLine").key("totalChange");
    if change.is_null() {
        change = line.key("sparkline").key("totalChange");
    }
    match change.as_float() {
        Some(number) => out.with("change_percent", Json::Float(number)),
        None => out,
    }
}

/// What a result says of itself.
fn note(currency: Option<&str>) -> (line: String)
    ensures
        line@ == price_note(maybe(currency)),
{
    let mut line = "prices from poe.ninja's economy snapshot (server-cached ~5 minutes);".to_owned();
    match currency {
        Some(currency) => {
            let mut unit = " `value` is denominated in ".to_owned();
            unit.append(currency);
            unit.append(";");
            line.append(unit.as_str());
        },
        None => {
            assert(line@ + Seq::<char>::empty() =~= line@);
        },
    }
    line.append(
        " chaos/divine/exalted `_value` keys name their own unit; `max_volume_rate` is units of that line's item per one `max_volume_currency`; `change_percent` is the sparkline's percent change over poe.ninja's recent window",
    );
    line
}

/// How many lines are returned at most.
fn limit_of(limit: Option<u64>) -> (n: u64)
    ensures
        n == line_limit(limit),
{
    match limit {
        None => DEFAULT_LIMIT,
        Some(n) => if n < 1 {
            1
        } else if n > MAX_LIMIT {
            MAX_LIMIT
        } else {
            n
        },
    }
}

/// The lines that match, counted, and the first of them reduced.
fn select_lines(
    lines: &Vec<Json>,
    names: &Catalog,
    needle: &Option<String>,
    limit: u64,
) -> (selected: (u64, Vec<Json>))
    ensures
        ({
            let all = items_view(lines@);
            let matches = matching(all, names@, maybe_text(*needle), all.len());
            let n = if matches.len() < limit {
                matches.len() as int
            } else {
                limit as int
            };
            &&& selected.0 == matches.len()
            &&& items_view(selected.1@) == Seq::new(
                n as nat,
                |i: int| trimmed_line(matches[i], names@),
            )
        }),
{
    let ghost all = items_view(lines@);
    let ghost filter = maybe_text(*needle);
    let mut count: u64 = 0;
    let mut kept: Vec<Json> = Vec::new();
    let mut i: usize = 0;
    proof {
        lemma_items_view(lines@);
        assert(items_view(kept@) =~= Seq::<JsonView>::empty());
    }
    while i < lines.len()
        invariant
            i <= lines@.len(),
            all == items_view(lines@),
            filter == maybe_text(*needle),
            count <= i,
            count == matching(all, names@, filter, i as nat).len(),
            items_view(kept@).len() == if count < limit {
                count
            } else {
                limit
            },
            forall|k: int|
                0 <= k < items_view(kept@).len() ==> #[trigger] items_view(kept@)[k]
                    == trimmed_line(matching(all, names@, filter, i as nat)[k], names@),
        decreases lines@.len() - i,
    {
        proof {
            lemma_items_view(lines@);
        }
        let line = &lines[i];
        let wanted = match needle {
            Some(needle) => matches_line(line, names, needle.as_str()),
            None => true,
        };
        if wanted {
            if count < limit {
                let trimmed = trim_line(line, names);
                proof {
                    lemma_items_push(kept@, trimmed);
                }
                kept.push(trimmed);
            }
            count += 1;
        }
        i += 1;
    }
    proof {
        lemma_items_view(lines@);
        let matches = matching(all, names@, filter, all.len());
        let n = if matches.len() < limit {
            matches.len() as int
        } else {
            limit as int
        };
        assert(items_view(kept@) =~= Seq::new(
            n as nat,
            |i: int| trimmed_line(matches[i], names@),
        ));
    }
    (count, kept)
}

/// The prices that a response gives, or why it gives none.
pub fn prices_from_response(args: &PriceArgs, url: &str, response: &Json) -> (prices: Result<
    Json,
    String,
>)
    ensures
        match prices {
            Ok(prices) => prices_of(args@, url@, response@) is Ok && prices_of(
                args@,
                url@,
                response@,
            )->Ok_0 == prices@,
            Err(error) => prices_of(args@, url@, response@) is Err && prices_of(
                args@,
                url@,
                response@,
            )->Err_0 == error@,
        },
{
    let lines = match response.key("lines").as_array() {
        Some(lines) => lines,
        None => {
            let mut error = "no lines in response from ".to_owned();
            error.append(url);
            error.append(" — ");
            error.append(hint(args).as_str());
            return Err(error);
        },
    };
    let names = Catalog::of(response);
    let needle = match &args.name {
        Some(name) => Some(name.as_str().to_lowercase()),
        None => None,
    };
    let (total, trimmed) = select_lines(lines, &names, &needle, limit_of(args.limit));
    proof {
        lemma_items_view(trimmed@);
    }
    let currency = match response.key("core").key("primary").as_str() {
        Some(id) => Some(names.display(id)),
        None => None,
    };
    let returned: u64 = trimmed.len() as u64;
    let mut out = Json::object().with("league", Json::string(args.league.as_str())).with(
        "category",
        Json::string(args.category.as_str()),
    );
    out = with_text(out, "primary_currency", currency);
    Ok(
        out.with("total_matches", Json::Unsigned(total)).with(
            "returned",
            Json::Unsigned(returned),
        ).with("lines", Json::Array(trimmed)).with("source", Json::string(url)).with(
            "note",
            Json::Text(note(currency)),
        ),
    )
}

/// The prices that a request for `url` gave, or why it gave none.
pub fn prices_from_reply(args: &PriceArgs, url: &str, reply: &Result<String, String>) -> (prices:
    Result<Json, String>)
    ensures
        match prices {
            Ok(prices) => prices_fetched(args@, url@, fetched(*reply)) is Ok && prices_fetched(
                args@,
                url@,
                fetched(*reply),
            )->Ok_0 == prices@,
            Err(error) => prices_fetched(args@, url@, fetched(*reply)) is Err && prices_fetched(
                args@,
                url@,
                fetched(*reply),
            )->Err_0 == error@,
        },
{
    match reply {
        Err(error) => Err(error.clone()),
        Ok(body) => match json::parse(body.as_str()) {
            Err(reason) => {
                let mut error = "unexpected response from ".to_owned();
                error.append(url);
                error.append(": ");
                error.append(reason.as_str());
                Err(error)
            },
            Ok(response) => prices_from_response(args, url, &response),
        },
    }
}

/// What a lookup is answered, given the time and the prices.
pub fn price_result(args: &PriceArgs, stamp: &str, prices: Json) -> (result_json: String)
    ensures
        result_json@ == printed(
            put(
                put(
                    put(no_members(), "game"@, JsonView::Text(game_id(args.game))),
                    "fetched_at"@,
                    JsonView::Text(stamp@),
                ),
                "prices"@,
                prices@,
            ),
        ),
{
    Json::object().with("game", Json::string(args.game.as_str())).with(
        "fetched_at",
        Json::string(stamp),
    ).with("prices", prices).to_string()
}

/// The `price` tool: economy lookups over poe.ninja.
pub struct PriceTool {
    http: HttpSource,
}

impl PriceTool {
    /// What the tool fetches through.
    pub closed spec fn source(&self) -> HttpSource {
        self.http
    }

    /// Tool over a live HTTP client, behind a cache.
    pub fn new(live: Box<dyn HttpGet>) -> (tool: Self)
        ensures
            tool.source() matches HttpSource::Cached(cache) && cache.source().value == live
                && cache.ttl() == CACHE_TTL_NANOS,
            forall|url: Seq<char>, reply: Fetched| #[trigger]
                tool.source().may_give(url, reply) == live.may_give(url, reply),
    {
        let live = hold(live);
        PriceTool { http: HttpSource::Cached(CachedHttp::over(live, CACHE_TTL_NANOS)) }
    }

    /// Tool with an injected HTTP implementation.
    pub fn with_http(http: Box<dyn HttpGet>) -> (tool: Self)
        ensures
            tool.source() matches HttpSource::Direct(client) && client.value == http,
            forall|url: Seq<char>, reply: Fetched| #[trigger]
                tool.source().may_give(url, reply) == http.may_give(url, reply),
    {
        let http = hold(http);
        PriceTool { http: HttpSource::Direct(http) }
    }

    /// Whether the two requests of a lookup may have given these replies.
    pub open spec fn may_fetch(
        &self,
        args: PriceArgsView,
        first: Fetched,
        second: Fetched,
    ) -> bool {
        &&& self.source().may_give(first_url(args), first)
        &&& asks_again(args, first) ==> self.source().may_give(second_url(args), second)
    }

    /// Ask the endpoint that the category suggests; on a 404, ask the other
    /// one once (the exchange/item split is a server detail the model should
    /// not have to know), then fail with the category hint.
    fn fetch(&self, args: &PriceArgs) -> (got: (
        Result<Json, String>,
        Ghost<Fetched>,
        Ghost<Fetched>,
    ))
        ensures
            self.may_fetch(args@, got.1@, got.2@),
            match got.0 {
                Ok(found) => prices(args@, got.1@, got.2@) is Ok && prices(
                    args@,
                    got.1@,
                    got.2@,
                )->Ok_0 == found@,
                Err(error) => prices(args@, got.1@, got.2@) is Err && prices(
                    args@,
                    got.1@,
                    got.2@,
                )->Err_0 == error@,
            },
    {
        let (first, second) = price_urls(args);
        let reply = self.http.get(first.as_str());
        let ghost one = fetched(reply);
        match prices_from_reply(args, first.as_str(), &reply) {
            Ok(found) => (Ok(found), Ghost(one), Ghost(one)),
            Err(error) => {
                if !text::contains(error.as_str(), "http status: 404") {
                    return (Err(error), Ghost(one), Ghost(one));
                }
                let again = self.http.get(second.as_str());
                let ghost two = fetched(again);
                match prices_from_reply(args, second.as_str(), &again) {
                    Ok(found) => (Ok(found), Ghost(one), Ghost(two)),
                    Err(_) => {
                        let mut both = ToolError::Failed(error).to_string();
                        both.append(" (the other endpoint failed too) — ");
                        both.append(hint(args).as_str());
                        (Err(both), Ghost(one), Ghost(two))
                    },
                }
            },
        }
    }
}

impl Tool for PriceTool {
    open spec fn tool_name(&self) -> Seq<char> {
        "price"@
    }

    open spec fn tool_description(&self) -> Seq<char> {
        PRICE_DESCRIPTION@
    }

    open spec fn tool_schema(&self) -> Seq<char> {
        PRICE_SCHEMA@
    }

    /// Arguments that cannot be read are refused; otherwise the answer follows
    /// from the time and from what the one or two requests gave.
    open spec fn may_answer(&self, args_json: Seq<char>, answer: Answer) -> bool {
        match price_args(args_json) {
            Err(error) => answer == Err::<Seq<char>, Fault>(Fault::InvalidArgs(error)),
            Ok(args) => exists|stamp: Seq<char>, first: Fetched, second: Fetched|
                is_stamp(stamp) && self.may_fetch(args, first, second) && answer
                    == #[trigger] price_answer(args, stamp, first, second),
        }
    }

    fn name(&self) -> (name: &'static str) {
        "price"
    }

    fn description(&self) -> (description: &'static str) {
        PRICE_DESCRIPTION
    }

    fn parameters_schema(&self) -> (schema: &'static str) {
        PRICE_SCHEMA
    }

    fn execute(&self, args_json: &str) -> (outcome: Result<String, ToolError>) {
        let args = match read_price_args(args_json) {
            Ok(args) => args,
            Err(error) => {
                return Err(ToolError::InvalidArgs(error));
            },
        };
        let stamp = now_utc();
        let (found, Ghost(first), Ghost(second)) = self.fetch(&args);
        let outcome = match found {
            Ok(prices) => Ok(price_result(&args, stamp.as_str(), prices)),
            Err(error) => Err(ToolError::Failed(error)),
        };
        assert(answer_of(outcome) == price_answer(args@, stamp@, first, second));
        outcome
    }
}

/// What the tool does, for the model.
pub const PRICE_DESCRIPTION: &'static str =
    "Look up current market prices and economy data from poe.ninja. Requires the league id — resolve it with the `league` tool first. Categories: `Currency`/`Fragment` (Path of Exile 1) or `Currency`/`Fragments` (Path of Exile 2) for exchange rates; item categories like `UniqueWeapon`, `UniqueArmour`, `UniqueAccessory`, `UniqueFlask`, `UniqueJewel`, `DivinationCard`, `SkillGem` (Path of Exile 1, singular) or `UniqueWeapons`, `UniqueArmours`, `UniqueAccessories`, `UniqueJewels` (Path of Exile 2, plural). Filter by `name` for a specific item — it matches both proper names (`Divine Orb`) and poe.ninja ids (`divine`). Cite the source and note prices move constantly.";

/// The JSON Schema of the arguments.
pub const PRICE_SCHEMA: &'static str =
    r#"{"type":"object","properties":{"game":{"type":"string","enum":["poe1","poe2"],"description":"Which game"},"league":{"type":"string","description":"League id from the league tool (e.g. the current challenge league)"},"category":{"type":"string","description":"poe.ninja category: Currency/Fragment for exchange, or an item category (poe1 singular, poe2 plural)"},"name":{"type":"string","description":"Optional case-insensitive filter matched against item names and poe.ninja ids"},"limit":{"type":"integer","minimum":1,"maximum":20,"description":"Max lines returned (default 5)"}},"required":["game","league","category"],"additionalProperties":false}"#;

/// Whether a member of a reduced line is one of those that a model needs.
pub open spec fn is_line_key(key: Seq<char>) -> bool {
    ||| key == "name"@
    ||| key == "id"@
    ||| key == "base_type"@
    ||| key == "chaos_value"@
    ||| key == "divine_value"@
    ||| key == "exalted_value"@
    ||| key == "value"@
    ||| key == "max_volume_currency"@
    ||| key == "max_volume_rate"@
    ||| key == "listings"@
    ||| key == "count"@
    ||| key == "links"@
    ||| key == "change_percent"@
}

/// A result tells which game it is about, when it was fetched and where the
/// prices come from.
pub proof fn law_price_results_are_stamped(
    args: PriceArgsView,
    stamp: Seq<char>,
    first: Fetched,
    second: Fetched,
)
    requires
        price_answer(args, stamp, first, second) is Ok,
    ensures
        exists|result: JsonView|
            price_answer(args, stamp, first, second) == Ok::<Seq<char>, Fault>(
                #[trigger] printed(result),
            ) && is_stamped(result, args.game, stamp) && is_sourced(at_key(result, "prices"@)) && at_key(
                result,
                "prices"@,
            ) == prices(args, first, second)->Ok_0,
{
    reveal_strlit("game");
    reveal_strlit("fetched_at");
    reveal_strlit("prices");
    reveal_strlit("source");
    reveal_strlit("note");
    assert("game"@.len() == 4 && "fetched_at"@.len() == 10 && "prices"@.len() == 6);
    assert("source"@.len() == 6 && "note"@.len() == 4);
    let out = put(no_members(), "game"@, JsonView::Text(game_id(args.game)));
    let out = put(out, "fetched_at"@, JsonView::Text(stamp));
    let result = put(out, "prices"@, prices(args, first, second)->Ok_0);
    assert(price_answer(args, stamp, first, second) == Ok::<Seq<char>, Fault>(printed(result)));
}

/// Whatever a line of a response holds, its reduction holds identity and
/// values only.
pub proof fn law_reduced_lines_hold_no_noise(line: JsonView, names: Map<Seq<char>, Seq<char>>)
    ensures
        trimmed_line(line, names) is Object,
        forall|key: Seq<char>| #[trigger]
            members_in(trimmed_line(line, names)).contains_key(key) ==> is_line_key(key),
{
}

/// No call returns more lines than match, than it asks for, or than the upper
/// bound; and where a line matches, at least one.
pub proof fn law_returned_lines_are_limited(
    args: PriceArgsView,
    response: JsonView,
    lines: Seq<JsonView>,
)
    ensures
        returned_lines(args, response, lines).len() <= matching_lines(args, response, lines).len(),
        returned_lines(args, response, lines).len() <= MAX_LIMIT,
        args.limit is Some && args.limit->0 >= 1 ==> returned_lines(args, response, lines).len()
            <= args.limit->0,
        matching_lines(args, response, lines).len() > 0 ==> returned_lines(
            args,
            response,
            lines,
        ).len() > 0,
{
}

/// Every line that counts as a match is a line of the response, and matches
/// the filter.
pub proof fn law_matches_match(
    lines: Seq<JsonView>,
    names: Map<Seq<char>, Seq<char>>,
    needle: Option<Seq<char>>,
    n: nat,
)
    requires
        n <= lines.len(),
    ensures
        matching(lines, names, needle, n).len() <= n,
        forall|i: int|
            0 <= i < matching(lines, names, needle, n).len() ==> {
                let line = #[trigger] matching(lines, names, needle, n)[i];
                lines.contains(line) && (needle is Some ==> line_matches(line, names, needle->0))
            },
    decreases n,
{
    if n > 0 {
        law_matches_match(lines, names, needle, (n - 1) as nat);
        let before = matching(lines, names, needle, (n - 1) as nat);
        assert forall|i: int| 0 <= i < matching(lines, names, needle, n).len() implies {
            let line = #[trigger] matching(lines, names, needle, n)[i];
            lines.contains(line) && (needle is Some ==> line_matches(line, names, needle->0))
        } by {
            if i < before.len() {
                assert(matching(lines, names, needle, n)[i] == before[i]);
            } else {
                assert(lines[n - 1] == matching(lines, names, needle, n)[i]);
            }
        }
    }
}

/// A reduced line holds every value of the line under the unit that it is in:
/// the numbers under "chaosValue", "divineValue", "exaltedValue" and
/// "primaryValue", each exactly where the line has such a number.
pub proof fn law_values_keep_their_unit(line: JsonView, names: Map<Seq<char>, Seq<char>>)
    ensures
        ({
            let kept = trimmed_line(line, names);
            &&& member(kept, "chaos_value"@) == match float_in(at_key(line, "chaosValue"@)) {
                Some(number) => Some(JsonView::Float(number)),
                None => None,
            }
            &&& member(kept, "divine_value"@) == match float_in(at_key(line, "divineValue"@)) {
                Some(number) => Some(JsonView::Float(number)),
                None => None,
            }
            &&& member(kept, "exalted_value"@) == match float_in(at_key(line, "exaltedValue"@)) {
                Some(number) => Some(JsonView::Float(number)),
                None => None,
            }
            &&& member(kept, "value"@) == match float_in(at_key(line, "primaryValue"@)) {
                Some(number) => Some(JsonView::Float(number)),
                None => None,
            }
        }),
{
    reveal_strlit("name");
    reveal_strlit("id");
    reveal_strlit("base_type");
    reveal_strlit("chaos_value");
    reveal_strlit("divine_value");
    reveal_strlit("exalted_value");
    reveal_strlit("value");
    reveal_strlit("max_volume_currency");
    reveal_strlit("max_volume_rate");
    reveal_strlit("listings");
    reveal_strlit("count");
    reveal_strlit("links");
    reveal_strlit("change_percent");
    assert("name"@.len() == 4);
    assert("id"@.len() == 2);
    assert("base_type"@.len() == 9);
    assert("chaos_value"@.len() == 11);
    assert("divine_value"@.len() == 12);
    assert("exalted_value"@.len() == 13);
    assert("value"@.len() == 5);
    assert("max_volume_currency"@.len() == 19);
    assert("max_volume_rate"@.len() == 15);
    assert("listings"@.len() == 8);
    assert("count"@.len() == 5);
    assert("links"@.len() == 5);
    assert("change_percent"@.len() == 14);
    assert("value"@[0] != "count"@[0]);
    assert("value"@[0] != "links"@[0]);
    assert("count"@[0] != "links"@[0]);
}

/// A reduced line counts what the line counts: its listings, its count and its
/// links, each exactly where the line has such a count.
pub proof fn law_counts_are_kept(line: JsonView, names: Map<Seq<char>, Seq<char>>)
    ensures
        ({
            let kept = trimmed_line(line, names);
            &&& member(kept, "listings"@) == match at_key(line, "listingCount"@) {
                JsonView::Unsigned(n) => Some(JsonView::Unsigned(n)),
                _ => None,
            }
            &&& member(kept, "count"@) == match at_key(line, "count"@) {
                JsonView::Unsigned(n) => Some(JsonView::Unsigned(n)),
                _ => None,
            }
            &&& member(kept, "links"@) == match at_key(line, "links"@) {
                JsonView::Unsigned(n) => Some(JsonView::Unsigned(n)),
                _ => None,
            }
        }),
{
    reveal_strlit("name");
    reveal_strlit("id");
    reveal_strlit("base_type");
    reveal_strlit("chaos_value");
    reveal_strlit("divine_value");
    reveal_strlit("exalted_value");
    reveal_strlit("value");
    reveal_strlit("max_volume_currency");
    reveal_strlit("max_volume_rate");
    reveal_strlit("listings");
    reveal_strlit("count");
    reveal_strlit("links");
    reveal_strlit("change_percent");
    assert("name"@.len() == 4);
    assert("id"@.len() == 2);
    assert("base_type"@.len() == 9);
    assert("chaos_value"@.len() == 11);
    assert("divine_value"@.len() == 12);
    assert("exalted_value"@.len() == 13);
    assert("value"@.len() == 5);
    assert("max_volume_currency"@.len() == 19);
    assert("max_volume_rate"@.len() == 15);
    assert("listings"@.len() == 8);
    assert("count"@.len() == 5);
    assert("links"@.len() == 5);
    assert("change_percent"@.len() == 14);
    assert("value"@[0] != "count"@[0]);
    assert("value"@[0] != "links"@[0]);
    assert("count"@[0] != "links"@[0]);
}

/// A reduced line is called as the line is: by its name, or else by its id and
/// the name that the catalog has for it; its base type stays.
pub proof fn law_lines_keep_their_name(line: JsonView, names: Map<Seq<char>, Seq<char>>)
    ensures
        ({
            let kept = trimmed_line(line, names);
            &&& at_key(line, "name"@) is Text ==> {
                &&& member(kept, "name"@) == Some(at_key(line, "name"@))
                &&& member(kept, "id"@) is None
            }
            &&& !(at_key(line, "name"@) is Text) ==> match at_key(line, "id"@) {
                JsonView::Text(id) => {
                    &&& member(kept, "id"@) == Some(JsonView::Text(id))
                    &&& member(kept, "name"@) is Some <==> names.contains_key(id)
                    &&& names.contains_key(id) ==> at_key(kept, "name"@) == JsonView::Text(
                        names[id],
                    )
                },
                _ => member(kept, "id"@) is None && member(kept, "name"@) is None,
            }
            &&& member(kept, "base_type"@) == match at_key(line, "baseType"@) {
                JsonView::Text(base) => Some(JsonView::Text(base)),
                _ => None,
            }
        }),
{
    reveal_strlit("name");
    reveal_strlit("id");
    reveal_strlit("base_type");
    assert("name"@.len() == 4);
    assert("id"@.len() == 2);
    assert("base_type"@.len() == 9);
    lemma_identity_stays(line, names, "name"@);
    lemma_identity_stays(line, names, "id"@);
    lemma_identity_stays(line, names, "base_type"@);
}

/// What a reduced line is called by is not touched by what else it holds.
proof fn lemma_identity_stays(line: JsonView, names: Map<Seq<char>, Seq<char>>, key: Seq<char>)
    requires
        key == "name"@ || key == "id"@ || key == "base_type"@,
    ensures
        member(trimmed_line(line, names), key) == member(line_identity(line, names), key),
{
    reveal_strlit("name");
    reveal_strlit("id");
    reveal_strlit("base_type");
    reveal_strlit("chaos_value");
    reveal_strlit("divine_value");
    reveal_strlit("exalted_value");
    reveal_strlit("value");
    reveal_strlit("max_volume_currency");
    reveal_strlit("max_volume_rate");
    reveal_strlit("listings");
    reveal_strlit("count");
    reveal_strlit("links");
    reveal_strlit("change_percent");
    assert("name"@.len() == 4);
    assert("id"@.len() == 2);
    assert("base_type"@.len() == 9);
    assert("chaos_value"@.len() == 11);
    assert("divine_value"@.len() == 12);
    assert("exalted_value"@.len() == 13);
    assert("value"@.len() == 5);
    assert("max_volume_currency"@.len() == 19);
    assert("max_volume_rate"@.len() == 15);
    assert("listings"@.len() == 8);
    assert("count"@.len() == 5);
    assert("links"@.len() == 5);
    assert("change_percent"@.len() == 14);
    assert("value"@[0] != "count"@[0]);
    assert("value"@[0] != "links"@[0]);
    assert("count"@[0] != "links"@[0]);
    let called = line_identity(line, names);
    let valued = line_values(called, line);
    assert(member(valued, key) == member(called, key));
    let traded = line_volume(valued, line, names);
    assert(member(traded, key) == member(valued, key));
    let counted = line_counts(traded, line);
    assert(member(counted, key) == member(traded, key));
}

/// A reduced line tells the currency that is traded most by its name in the
/// catalog, or else by its id, and the rate only beside it.
pub proof fn law_volume_names_its_currency(line: JsonView, names: Map<Seq<char>, Seq<char>>)
    ensures
        ({
            let kept = trimmed_line(line, names);
            &&& match at_key(line, "maxVolumeCurrency"@) {
                JsonView::Text(id) => {
                    &&& at_key(kept, "max_volume_currency"@) == JsonView::Text(
                        if names.contains_key(id) {
                            names[id]
                        } else {
                            id
                        },
                    )
                    &&& member(kept, "max_volume_rate"@) == match float_in(
                        at_key(line, "maxVolumeRate"@),
                    ) {
                        Some(number) => Some(JsonView::Float(number)),
                        None => None,
                    }
                },
                _ => {
                    &&& member(kept, "max_volume_currency"@) is None
                    &&& member(kept, "max_volume_rate"@) is None
                },
            }
        }),
{
    reveal_strlit("name");
    reveal_strlit("id");
    reveal_strlit("base_type");
    reveal_strlit("chaos_value");
    reveal_strlit("divine_value");
    reveal_strlit("exalted_value");
    reveal_strlit("value");
    reveal_strlit("max_volume_currency");
    reveal_strlit("max_volume_rate");
    reveal_strlit("listings");
    reveal_strlit("count");
    reveal_strlit("links");
    reveal_strlit("change_percent");
    assert("name"@.len() == 4);
    assert("id"@.len() == 2);
    assert("base_type"@.len() == 9);
    assert("chaos_value"@.len() == 11);
    assert("divine_value"@.len() == 12);
    assert("exalted_value"@.len() == 13);
    assert("value"@.len() == 5);
    assert("max_volume_currency"@.len() == 19);
    assert("max_volume_rate"@.len() == 15);
    assert("listings"@.len() == 8);
    assert("count"@.len() == 5);
    assert("links"@.len() == 5);
    assert("change_percent"@.len() == 14);
    assert("value"@[0] != "count"@[0]);
    assert("value"@[0] != "links"@[0]);
    assert("count"@[0] != "links"@[0]);
}

/// A reduced line tells the change that the line's chart sums up, under either
/// spelling of the chart.
pub proof fn law_changes_are_told(line: JsonView, names: Map<Seq<char>, Seq<char>>)
    ensures
        ({
            let kept = trimmed_line(line, names);
            let item = at_key(at_key(line, "sparkLine"@), "totalChange"@);
            let exchange = at_key(at_key(line, "sparkline"@), "totalChange"@);
            let change = if item is Null {
                exchange
            } else {
                item
            };
            member(kept, "change_percent"@) == match float_in(change) {
                Some(number) => Some(JsonView::Float(number)),
                None => None,
            }
        }),
{
    reveal_strlit("name");
    reveal_strlit("id");
    reveal_strlit("base_type");
    reveal_strlit("chaos_value");
    reveal_strlit("divine_value");
    reveal_strlit("exalted_value");
    reveal_strlit("value");
    reveal_strlit("max_volume_currency");
    reveal_strlit("max_volume_rate");
    reveal_strlit("listings");
    reveal_strlit("count");
    reveal_strlit("links");
    reveal_strlit("change_percent");
    assert("name"@.len() == 4);
    assert("id"@.len() == 2);
    assert("base_type"@.len() == 9);
    assert("chaos_value"@.len() == 11);
    assert("divine_value"@.len() == 12);
    assert("exalted_value"@.len() == 13);
    assert("value"@.len() == 5);
    assert("max_volume_currency"@.len() == 19);
    assert("max_volume_rate"@.len() == 15);
    assert("listings"@.len() == 8);
    assert("count"@.len() == 5);
    assert("links"@.len() == 5);
    assert("change_percent"@.len() == 14);
    assert("value"@[0] != "count"@[0]);
    assert("value"@[0] != "links"@[0]);
    assert("count"@[0] != "links"@[0]);
}

/// The lines that match are those of the response, in its order, that hold the
/// filter in their name, in the catalog's name of their id, or in their id;
/// without a filter, all.
pub proof fn law_matches_are_all_that_match(
    args: PriceArgsView,
    response: JsonView,
    lines: Seq<JsonView>,
)
    ensures
        args.name is None ==> matching_lines(args, response, lines) == lines,
        args.name matches Some(name) ==> matching_lines(args, response, lines) == lines.filter(
            |line: JsonView|
                {
                    let names = catalog(response);
                    ||| at_key(line, "name"@) matches JsonView::Text(said) && occurs(
                        lowercase(said),
                        lowercase(name),
                    )
                    ||| at_key(line, "id"@) matches JsonView::Text(id) && (occurs(
                        lowercase(id),
                        lowercase(name),
                    ) || (names.contains_key(id) && occurs(lowercase(names[id]), lowercase(name))))
                },
        ),
{
    let names = catalog(response);
    if let Some(name) = args.name {
        let matches = |line: JsonView|
            {
                let names = catalog(response);
                ||| at_key(line, "name"@) matches JsonView::Text(said) && occurs(
                    lowercase(said),
                    lowercase(name),
                )
                ||| at_key(line, "id"@) matches JsonView::Text(id) && (occurs(
                    lowercase(id),
                    lowercase(name),
                ) || (names.contains_key(id) && occurs(lowercase(names[id]), lowercase(name))))
            };
        lemma_matching(lines, names, Some(lowercase(name)), matches, lines.len());
    } else {
        let matches = |line: JsonView| true;
        lemma_matching(lines, names, None, matches, lines.len());
        lemma_filter_all(lines, matches);
    }
    assert(lines.take(lines.len() as int) =~= lines);
}

/// What matches among the first `n` lines is what a test of each would keep.
proof fn lemma_matching(
    lines: Seq<JsonView>,
    names: Map<Seq<char>, Seq<char>>,
    needle: Option<Seq<char>>,
    matches: spec_fn(JsonView) -> bool,
    n: nat,
)
    requires
        n <= lines.len(),
        forall|line: JsonView| #[trigger]
            matches(line) <==> needle is None || line_matches(line, names, needle->0),
    ensures
        matching(lines, names, needle, n) == lines.take(n as int).filter(matches),
    decreases n,
{
    reveal(Seq::filter);
    if n > 0 {
        lemma_matching(lines, names, needle, matches, (n - 1) as nat);
        assert(lines.take(n as int).drop_last() =~= lines.take(n - 1));
        assert(lines.take(n as int).last() == lines[n - 1]);
    } else {
        assert(lines.take(0) =~= seq![]);
    }
}

/// A test that all meet keeps all.
proof fn lemma_filter_all(lines: Seq<JsonView>, test: spec_fn(JsonView) -> bool)
    requires
        forall|line: JsonView| #[trigger] test(line),
    ensures
        lines.filter(test) == lines,
    decreases lines.len(),
{
    reveal(Seq::filter);
    if lines.len() > 0 {
        lemma_filter_all(lines.drop_last(), test);
        assert(lines.drop_last().push(lines.last()) =~= lines);
    }
}

/// A result names the league and the category that were asked for and where
/// the prices come from; it counts all matches, and holds the first of them in
/// their order: five where nothing was asked, and else as many as were asked,
/// between one and twenty.
pub proof fn law_prices_hold_the_first_matches(
    args: PriceArgsView,
    url: Seq<char>,
    response: JsonView,
    lines: Seq<JsonView>,
)
    requires
        at_key(response, "lines"@) == JsonView::Array(lines),
        lines.len() <= u64::MAX,
    ensures
        prices_of(args, url, response) is Ok,
        ({
            let told = prices_of(args, url, response)->Ok_0;
            let matches = matching_lines(args, response, lines);
            let most = match args.limit {
                None => 5,
                Some(n) => if n == 0 {
                    1
                } else if n >= 20 {
                    20
                } else {
                    n as int
                },
            };
            let shown = if matches.len() < most {
                matches.len() as int
            } else {
                most
            };
            &&& at_key(told, "league"@) == JsonView::Text(args.league)
            &&& at_key(told, "category"@) == JsonView::Text(args.category)
            &&& at_key(told, "source"@) == JsonView::Text(url)
            &&& at_key(told, "total_matches"@) matches JsonView::Unsigned(n) && n == matches.len()
            &&& at_key(told, "returned"@) matches JsonView::Unsigned(n) && n == shown
            &&& at_key(told, "lines"@) matches JsonView::Array(list) && list.len() == shown
            &&& forall|i: int|
                0 <= i < shown ==> #[trigger] at_index(at_key(told, "lines"@), i) == trimmed_line(
                    matches[i],
                    catalog(response),
                )
        }),
{
    reveal_strlit("league");
    reveal_strlit("category");
    reveal_strlit("primary_currency");
    reveal_strlit("total_matches");
    reveal_strlit("returned");
    reveal_strlit("lines");
    reveal_strlit("source");
    reveal_strlit("note");
    assert("league"@.len() == 6);
    assert("category"@.len() == 8);
    assert("primary_currency"@.len() == 16);
    assert("total_matches"@.len() == 13);
    assert("returned"@.len() == 8);
    assert("lines"@.len() == 5);
    assert("source"@.len() == 6);
    assert("note"@.len() == 4);
    assert("category"@[0] != "returned"@[0]);
    assert("league"@[0] != "source"@[0]);
    law_matches_match(
        lines,
        catalog(response),
        match args.name {
            Some(name) => Some(lowercase(name)),
            None => None,
        },
        lines.len(),
    );
}

/// The currency that values are in is told by its name in the catalog, or else
/// by its id, and exactly where the response names one; the note tells the
/// same currency.
pub proof fn law_values_tell_their_currency(
    args: PriceArgsView,
    url: Seq<char>,
    response: JsonView,
    lines: Seq<JsonView>,
)
    ensures
        ({
            let told = prices_of_lines(args, url, response, lines);
            let names = catalog(response);
            match at_key(at_key(response, "core"@), "primary"@) {
                JsonView::Text(id) => {
                    let currency = if names.contains_key(id) {
                        names[id]
                    } else {
                        id
                    };
                    &&& at_key(told, "primary_currency"@) == JsonView::Text(currency)
                    &&& at_key(told, "note"@) matches JsonView::Text(note) && occurs(
                        note,
                        " `value` is denominated in "@ + currency + ";"@,
                    )
                },
                _ => member(told, "primary_currency"@) is None,
            }
        }),
{
    reveal_strlit("league");
    reveal_strlit("category");
    reveal_strlit("primary_currency");
    reveal_strlit("total_matches");
    reveal_strlit("returned");
    reveal_strlit("lines");
    reveal_strlit("source");
    reveal_strlit("note");
    assert("league"@.len() == 6);
    assert("category"@.len() == 8);
    assert("primary_currency"@.len() == 16);
    assert("total_matches"@.len() == 13);
    assert("returned"@.len() == 8);
    assert("lines"@.len() == 5);
    assert("source"@.len() == 6);
    assert("note"@.len() == 4);
    assert("category"@[0] != "returned"@[0]);
    assert("league"@[0] != "source"@[0]);
    if let JsonView::Text(id) = at_key(at_key(response, "core"@), "primary"@) {
        let currency = display_name(catalog(response), id);
        let head = "prices from poe.ninja's economy snapshot (server-cached ~5 minutes);"@;
        let middle = " `value` is denominated in "@ + currency + ";"@;
        let note = price_note(Some(currency));
        assert(note.subrange(head.len() as int, (head.len() + middle.len()) as int) =~= middle);
        assert(text::is_at(note, middle, head.len() as int));
    }
}

/// The catalog knows an id exactly where an entry of the response gives it a
/// name: the last entry of "items" that does, and where none does the last of
/// the anchor currencies under "core".
pub proof fn law_catalogs_hold_the_last_names(
    names: Map<Seq<char>, Seq<char>>,
    entries: Seq<JsonView>,
    n: nat,
    id: Seq<char>,
)
    requires
        n <= entries.len(),
    ensures
        ({
            let known = catalog_of(names, entries, n);
            ||| exists|j: int|
                {
                    &&& 0 <= j < n
                    &&& at_key(entries[j], "id"@) == JsonView::Text(id)
                    &&& known.contains_key(id)
                    &&& #[trigger] at_key(entries[j], "name"@) == JsonView::Text(known[id])
                    &&& forall|k: int|
                        j < k < n && at_key(entries[k], "id"@) == JsonView::Text(id) ==> !(
                        #[trigger] at_key(entries[k], "name"@) is Text)
                }
            ||| {
                &&& forall|k: int|
                    0 <= k < n && at_key(entries[k], "id"@) == JsonView::Text(id) ==> !(
                    #[trigger] at_key(entries[k], "name"@) is Text)
                &&& known.contains_key(id) <==> names.contains_key(id)
                &&& names.contains_key(id) ==> known[id] == names[id]
            }
        }),
    decreases n,
{
    if n > 0 {
        law_catalogs_hold_the_last_names(names, entries, (n - 1) as nat, id);
        let known = catalog_of(names, entries, n);
        let before = catalog_of(names, entries, (n - 1) as nat);
        let last = entries[n - 1];
        if at_key(last, "id"@) == JsonView::Text(id) && at_key(last, "name"@) is Text {
            assert(at_key(entries[n - 1], "name"@) == JsonView::Text(known[id]));
        } else {
            assert(known.contains_key(id) <==> before.contains_key(id));
            assert(before.contains_key(id) ==> known[id] == before[id]);
            if exists|j: int|
                {
                    &&& 0 <= j < n - 1
                    &&& at_key(entries[j], "id"@) == JsonView::Text(id)
                    &&& before.contains_key(id)
                    &&& #[trigger] at_key(entries[j], "name"@) == JsonView::Text(before[id])
                    &&& forall|k: int|
                        j < k < n - 1 && at_key(entries[k], "id"@) == JsonView::Text(id) ==> !(
                        #[trigger] at_key(entries[k], "name"@) is Text)
                } {
                let j = choose|j: int|
                    {
                        &&& 0 <= j < n - 1
                        &&& at_key(entries[j], "id"@) == JsonView::Text(id)
                        &&& before.contains_key(id)
                        &&& #[trigger] at_key(entries[j], "name"@) == JsonView::Text(before[id])
                        &&& forall|k: int|
                            j < k < n - 1 && at_key(entries[k], "id"@) == JsonView::Text(id) ==> !(
                            #[trigger] at_key(entries[k], "name"@) is Text)
                    };
                assert(at_key(entries[j], "name"@) == JsonView::Text(known[id]));
            }
        }
    }
}

/// The entries of "items" come behind those under "core", so that where both
/// name an id the first stand; a response without entries names nothing.
pub proof fn law_catalogs_read_both_lists(
    response: JsonView,
    anchors: Seq<JsonView>,
    items: Seq<JsonView>,
)
    requires
        at_key(at_key(response, "core"@), "items"@) == JsonView::Array(anchors),
        at_key(response, "items"@) == JsonView::Array(items),
    ensures
        catalog(response) == catalog_of(
            Map::empty(),
            anchors + items,
            (anchors.len() + items.len()) as nat,
        ),
{
    lemma_catalogs_append(Map::empty(), anchors, items, items.len());
}

/// Reading one list behind another is reading them as one.
proof fn lemma_catalogs_append(
    names: Map<Seq<char>, Seq<char>>,
    first: Seq<JsonView>,
    second: Seq<JsonView>,
    n: nat,
)
    requires
        n <= second.len(),
    ensures
        catalog_of(catalog_of(names, first, first.len()), second, n) == catalog_of(
            names,
            first + second,
            (first.len() + n) as nat,
        ),
    decreases n,
{
    if n > 0 {
        lemma_catalogs_append(names, first, second, (n - 1) as nat);
        assert((first + second)[first.len() + n - 1] == second[n - 1]);
    } else {
        lemma_catalog_prefix(names, first, second, first.len());
    }
}

/// What stands behind the first `n` entries does not count.
proof fn lemma_catalog_prefix(
    names: Map<Seq<char>, Seq<char>>,
    first: Seq<JsonView>,
    second: Seq<JsonView>,
    n: nat,
)
    requires
        n <= first.len(),
    ensures
        catalog_of(names, first, n) == catalog_of(names, first + second, n),
    decreases n,
{
    if n > 0 {
        lemma_catalog_prefix(names, first, second, (n - 1) as nat);
        assert((first + second)[n - 1] == first[n - 1]);
    }
}

/// The exchange is asked for currencies and fragments, however they are
/// spelled, and the item overview for all else; the other of the two is asked
/// where the first has no such page, for the same game, league and category.
pub proof fn law_both_endpoints_are_asked_alike(args: PriceArgsView)
    ensures
        ({
            let game = match args.game {
                Game::Poe1 => "poe1"@,
                Game::Poe2 => "poe2"@,
            };
            let lowered = ascii_lowered(args.category);
            let traded = lowered == ascii_lowered("Currency"@) || lowered == ascii_lowered(
                "Fragment"@,
            ) || lowered == ascii_lowered("Fragments"@);
            exists|category: Seq<char>|
                {
                    let asked = "?league="@ + percent_encoded(
                        vstd::utf8::encode_utf8(args.league),
                    ) + "&type="@ + #[trigger] percent_encoded(vstd::utf8::encode_utf8(category));
                    let head = "https://poe.ninja/"@ + game + "/api/economy/"@;
                    let exchange = head + "exchange/current/overview"@ + asked;
                    let items = head + "stash/current/item/overview"@ + asked;
                    &&& ascii_lowered(category) == lowered
                    &&& !traded ==> category == args.category
                    &&& first_url(args) == if traded {
                        exchange
                    } else {
                        items
                    }
                    &&& second_url(args) == if traded {
                        items
                    } else {
                        exchange
                    }
                }
        }),
{
    let game = match args.game {
        Game::Poe1 => "poe1"@,
        Game::Poe2 => "poe2"@,
    };
    let category = match exchange_category(args.category) {
        Some(category) => category,
        None => args.category,
    };
    let league_part = percent_encoded(vstd::utf8::encode_utf8(args.league));
    let category_part = percent_encoded(vstd::utf8::encode_utf8(category));
    let asked = "?league="@ + league_part + "&type="@ + category_part;
    let head = "https://poe.ninja/"@ + game + "/api/economy/"@;
    assert(overview_url(args.game, args.league, category, EXCHANGE_ENDPOINT@) =~= head
        + "exchange/current/overview"@ + asked);
    assert(overview_url(args.game, args.league, category, ITEM_ENDPOINT@) =~= head
        + "stash/current/item/overview"@ + asked);
}

/// A first answer other than a missing page stands, result or failure; where
/// the page is missing, the prices of the other endpoint are given, and where
/// it has none either the failure is the first one's, with a hint.
pub proof fn law_missing_pages_are_sought_elsewhere(
    args: PriceArgsView,
    first: Fetched,
    second: Fetched,
)
    ensures
        ({
            let one = prices_fetched(args, first_url(args), first);
            let other = prices_fetched(args, second_url(args), second);
            let missing = one matches Err(error) && occurs(error, "http status: 404"@);
            &&& !missing ==> prices(args, first, second) == one
            &&& missing && other is Ok ==> prices(args, first, second) == other
            &&& missing && other is Err ==> prices(args, first, second) is Err && text::is_at(
                prices(args, first, second)->Err_0,
                "tool failed: "@ + one->Err_0,
                0,
            )
            &&& asks_again(args, first) <==> missing
        }),
{
    let one = prices_fetched(args, first_url(args), first);
    if let Err(error) = prices(args, first, second) {
        if asks_again(args, first) {
            let head = "tool failed: "@ + one->Err_0;
            assert(error.subrange(0, head.len() as int) =~= head);
        }
    }
}

/// A page is read as what it holds: a page that was not fetched gives its
/// error, one that is no JSON tells its address, and the prices of one that is
/// tell the address that they were fetched from.
pub proof fn law_pages_are_read_as_fetched(args: PriceArgsView, url: Seq<char>, reply: Fetched)
    ensures
        reply matches Err(error) ==> prices_fetched(args, url, reply) == Err::<
            JsonView,
            Seq<char>,
        >(error),
        reply matches Ok(body) ==> match parsed(body) {
            Err(error) => prices_fetched(args, url, reply) == Err::<JsonView, Seq<char>>(
                "unexpected response from "@ + url + ": "@ + error,
            ),
            Ok(response) => prices_fetched(args, url, reply) is Ok <==> at_key(
                response,
                "lines"@,
            ) is Array,
        },
{
}

/// The arguments of a call are what stands under their names: the game, the
/// league, the category, the filter and the number of lines.
pub proof fn law_price_arguments_are_read(args: JsonView)
    requires
        args is Object,
    ensures
        price_args_in(args) matches Ok(read) ==> {
            &&& required_game(member(args, "game"@), "game"@) == Ok::<Game, Seq<char>>(read.game)
            &&& at_key(args, "league"@) == JsonView::Text(read.league)
            &&& at_key(args, "category"@) == JsonView::Text(read.category)
            &&& at_key(args, "name"@) == match read.name {
                Some(name) => JsonView::Text(name),
                None => JsonView::Null,
            }
            &&& at_key(args, "limit"@) == match read.limit {
                Some(n) => JsonView::Unsigned(n),
                None => JsonView::Null,
            }
            &&& trimmed(read.league).len() > 0 && trimmed(read.category).len() > 0
        },
        price_args_in(args) is Ok <==> {
            &&& required_game(member(args, "game"@), "game"@) is Ok
            &&& at_key(args, "league"@) matches JsonView::Text(league) && trimmed(league).len() > 0
            &&& at_key(args, "category"@) matches JsonView::Text(category) && trimmed(
                category,
            ).len() > 0
            &&& at_key(args, "name"@) is Text || at_key(args, "name"@) is Null
            &&& at_key(args, "limit"@) is Unsigned || at_key(args, "limit"@) is Null
        },
{
}

/// Arguments may come as a list too, in the order game, league, category,
/// name, limit: a list says what the object with these members says.
pub proof fn law_price_arguments_may_be_a_list(items: Seq<JsonView>)
    requires
        items.len() == 5,
    ensures
        price_args_in(JsonView::Array(items)) == price_args_in(
            put(
                put(
                    put(
                        put(put(no_members(), "game"@, items[0]), "league"@, items[1]),
                        "category"@,
                        items[2],
                    ),
                    "name"@,
                    items[3],
                ),
                "limit"@,
                items[4],
            ),
        ),
{
    reveal_strlit("game");
    reveal_strlit("league");
    reveal_strlit("category");
    reveal_strlit("name");
    reveal_strlit("limit");
    assert("game"@.len() == 4);
    assert("league"@.len() == 6);
    assert("category"@.len() == 8);
    assert("name"@.len() == 4);
    assert("limit"@.len() == 5);
    assert("game"@[0] != "name"@[0]);
}

/// The arguments of a lookup, in the order in which a list gives them.
pub proof fn law_price_arguments_have_their_places()
    ensures
        price_names().len() == 5,
        price_names()[0] == "game"@,
        price_names()[1] == "league"@,
        price_names()[2] == "category"@,
        price_names()[3] == "name"@,
        price_names()[4] == "limit"@,
{
}

/// A page without lines tells its address, the category and the game.
pub proof fn law_pages_without_lines_are_told(
    args: PriceArgsView,
    url: Seq<char>,
    response: JsonView,
)
    requires
        !(at_key(response, "lines"@) is Array),
    ensures
        prices_of(args, url, response) is Err,
        text::is_at(
            prices_of(args, url, response)->Err_0,
            "no lines in response from "@ + url + " — "@ + "the category `"@ + args.category
                + "` may not exist for "@ + match args.game {
                Game::Poe1 => "poe1"@,
                Game::Poe2 => "poe2"@,
            },
            0,
        ),
{
    let error = prices_of(args, url, response)->Err_0;
    let head = "no lines in response from "@ + url + " — "@ + "the category `"@ + args.category
        + "` may not exist for "@ + match args.game {
        Game::Poe1 => "poe1"@,
        Game::Poe2 => "poe2"@,
    };
    assert(error.subrange(0, head.len() as int) =~= head);
}

/// Of wrong arguments the first is told, by its name and what it should be.
pub proof fn law_wrong_price_arguments_are_named(args: JsonView)
    requires
        args is Object,
        required_game(member(args, "game"@), "game"@) is Ok,
    ensures
        !(member(args, "league"@) is Some) ==> price_args_in(args) == Err::<PriceArgsView, Seq<char>>(
            "missing field `"@ + "league"@ + "`"@,
        ),
        (member(args, "league"@) is Some) && !(at_key(args, "league"@) is Text)
            ==> price_args_in(args) == Err::<PriceArgsView, Seq<char>>(
            "invalid value for `"@ + "league"@ + "`, expected "@ + "a string"@,
        ),
        (member(args, "league"@) is Some) && (at_key(args, "league"@) is Text)
            && !(member(args, "category"@) is Some)
            ==> price_args_in(args) == Err::<PriceArgsView, Seq<char>>(
            "missing field `"@ + "category"@ + "`"@,
        ),
        (member(args, "league"@) is Some) && (at_key(args, "league"@) is Text)
            && (member(args, "category"@) is Some) && !(at_key(args, "category"@) is Text)
            ==> price_args_in(args) == Err::<PriceArgsView, Seq<char>>(
            "invalid value for `"@ + "category"@ + "`, expected "@ + "a string"@,
        ),
        (member(args, "league"@) is Some) && (at_key(args, "league"@) is Text)
            && (member(args, "category"@) is Some) && (at_key(args, "category"@) is Text)
            && !(at_key(args, "name"@) is Text || at_key(args, "name"@) is Null)
            ==> price_args_in(args) == Err::<PriceArgsView, Seq<char>>(
            "invalid value for `"@ + "name"@ + "`, expected "@ + "a string"@,
        ),
        (member(args, "league"@) is Some) && (at_key(args, "league"@) is Text)
            && (member(args, "category"@) is Some) && (at_key(args, "category"@) is Text)
            && (at_key(args, "name"@) is Text || at_key(args, "name"@) is Null)
            && !(at_key(args, "limit"@) is Unsigned || at_key(args, "limit"@) is Null)
            ==> price_args_in(args) == Err::<PriceArgsView, Seq<char>>(
            "invalid value for `"@ + "limit"@ + "`, expected "@ + "a whole number"@,
        ),
{
}

/// A league or a category of nothing but white space is refused by name.
pub proof fn law_blank_price_arguments_are_named(
    args: JsonView,
    league: Seq<char>,
    category: Seq<char>,
)
    requires
        args is Object,
        required_game(member(args, "game"@), "game"@) is Ok,
        at_key(args, "league"@) == JsonView::Text(league),
        at_key(args, "category"@) == JsonView::Text(category),
        member(args, "name"@) is None,
        member(args, "limit"@) is None,
    ensures
        trimmed(league).len() == 0 ==> price_args_in(args) == Err::<PriceArgsView, Seq<char>>(
            "`league` must not be empty"@,
        ),
        trimmed(league).len() > 0 && trimmed(category).len() == 0 ==> price_args_in(args) == Err::<
            PriceArgsView,
            Seq<char>,
        >("`category` must not be empty"@),
{
}

}
