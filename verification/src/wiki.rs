//! Wiki retrieval: written knowledge for both games, from the community wikis
//! of each.
//!
//! Two operations behind one tool: `search` (ranked page titles with snippets)
//! and `page` (the article's *rendered* HTML converted to readable text, since
//! raw wikitext lacks the data that templates generate, cut to a budget).
//! Pages go through a cache that tells their vintage; searches are always
//! live.

use vstd::prelude::*;

use crate::args::{
    argument, find_argument, maybe_text, mistyped, mistyped_text, names_view, open_args, opened,
    optional_count, optional_text, read_flag, read_game, read_optional_count, read_optional_text,
    required_flag, required_game,
};
use crate::held::{hold, Held};
use crate::html::{clean_snippet, html_to_text, page_as_text, snippet_as_text};
use crate::http::{fetched, Fetched, HttpGet, HttpSource};
use crate::json;
use crate::json::{
    at_index, at_key, items_in, items_view, lemma_items_push, lemma_items_view, member, no_members,
    parsed, printed, put, text_in, Json, JsonView,
};
use crate::text;
use crate::text::{decimal, trimmed, trimmed_start};
use crate::tool::{answer_of, Answer, Fault, Tool, ToolError};
use crate::toolkit::{
    game_id, is_sourced, is_stamp, is_stamped, law_percent_encoding_decodes, now_utc,
    percent_decoded, percent_encode, percent_encoded, Game,
};

verus! {

/// How long a cached page stays fresh, in seconds. Wiki articles change on
/// patch cadence, not minutes: a day balances courtesy against staleness.
pub const PAGE_CACHE_TTL_SECS: u64 = 86_400;

/// Default article-text budget in characters; larger articles are cut, and
/// the result says so.
pub const DEFAULT_MAX_CHARS: u64 = 8000;

/// Smallest article-text budget in characters.
pub const MIN_MAX_CHARS: u64 = 200;

/// Default number of search results.
pub const DEFAULT_SEARCH_LIMIT: u64 = 8;

/// Upper bound on search results per call.
pub const MAX_SEARCH_LIMIT: u64 = 20;

/// A page in a store.
#[derive(Debug)]
pub struct StoredPage {
    /// The body, as it was fetched.
    pub body: String,
    /// When it was fetched, as a stamp.
    pub retrieved_at: String,
    /// How many seconds ago that was.
    pub age_secs: u64,
}

/// What a [`StoredPage`] says.
pub ghost struct StoredPageView {
    /// The body.
    pub body: Seq<char>,
    /// When it was fetched.
    pub retrieved_at: Seq<char>,
    /// How many seconds ago that was.
    pub age_secs: u64,
}

impl View for StoredPage {
    type V = StoredPageView;

    open spec fn view(&self) -> StoredPageView {
        StoredPageView {
            body: self.body@,
            retrieved_at: self.retrieved_at@,
            age_secs: self.age_secs,
        }
    }
}

/// Where pages are kept between runs.
pub trait PageStore: Send + Sync {
    /// Whether the page, or none, may be kept for a URL. Of a store that says
    /// no more, any may.
    open spec fn may_hold(&self, url: Seq<char>, page: Option<StoredPageView>) -> bool {
        true
    }

    /// Whether the store may have been asked to keep a page for a URL.
    open spec fn may_keep(
        &self,
        url: Seq<char>,
        body: Seq<char>,
        retrieved_at: Seq<char>,
    ) -> bool {
        true
    }

    /// The page that is kept for a URL, if any.
    fn load(&self, url: &str) -> (page: Option<StoredPage>)
        ensures
            self.may_hold(url@, stored_view(page)),
    ;

    /// Keep a page for a URL, in place of an earlier one.
    fn save(&self, url: &str, body: &str, retrieved_at: &str)
        ensures
            self.may_keep(url@, body@, retrieved_at@),
    ;
}

/// What a stored page says, if there is one.
pub open spec fn stored_view(page: Option<StoredPage>) -> Option<StoredPageView> {
    match page {
        Some(page) => Some(page@),
        None => None,
    }
}

/// A store that keeps nothing.
pub struct NoStore;

impl PageStore for NoStore {
    open spec fn may_hold(&self, url: Seq<char>, page: Option<StoredPageView>) -> bool {
        page is None
    }

    fn load(&self, _url: &str) -> (page: Option<StoredPage>) {
        None
    }

    fn save(&self, _url: &str, _body: &str, _retrieved_at: &str) {
    }
}

/// A page, and whether it came from the cache.
#[derive(Debug)]
pub struct PageFetch {
    /// The body.
    pub body: String,
    /// Whether it came from the cache.
    pub from_cache: bool,
    /// When it was fetched, as a stamp.
    pub retrieved_at: String,
}

/// What a [`PageFetch`] says.
pub ghost struct PageFetchView {
    /// The body.
    pub body: Seq<char>,
    /// Whether it came from the cache.
    pub from_cache: bool,
    /// When it was fetched.
    pub retrieved_at: Seq<char>,
}

impl View for PageFetch {
    type V = PageFetchView;

    open spec fn view(&self) -> PageFetchView {
        PageFetchView {
            body: self.body@,
            from_cache: self.from_cache,
            retrieved_at: self.retrieved_at@,
        }
    }
}

/// Serve a page from the cache: one that is kept and younger than the time to
/// live, unless a live fetch is asked for. Its vintage is that of the fetch.
pub fn serve_stored(stored: Option<StoredPage>, refresh: bool, ttl_secs: u64) -> (page: Option<
    PageFetch,
>)
    ensures
        page is Some <==> !refresh && stored is Some && stored->0.age_secs < ttl_secs,
        page is Some ==> page->0@ == (PageFetchView {
            body: stored->0.body@,
            from_cache: true,
            retrieved_at: stored->0.retrieved_at@,
        }),
{
    match stored {
        None => None,
        Some(stored) => if !refresh && stored.age_secs < ttl_secs {
            Some(
                PageFetch {
                    body: stored.body,
                    from_cache: true,
                    retrieved_at: stored.retrieved_at,
                },
            )
        } else {
            None
        },
    }
}

/// What fetching a page came to.
pub type PageResult = Result<PageFetchView, Seq<char>>;

/// A page cache with visible vintage, over an HTTP client and a store.
pub struct VintageCache {
    store: Held<Box<dyn PageStore>>,
    http: HttpSource,
    ttl_secs: u64,
}

impl VintageCache {
    /// What the cache fetches from.
    pub closed spec fn source(&self) -> HttpSource {
        self.http
    }

    /// Where the cache keeps pages.
    pub closed spec fn shelf(&self) -> Held<Box<dyn PageStore>> {
        self.store
    }

    /// How long a page stays fresh, in seconds.
    pub closed spec fn ttl(&self) -> u64 {
        self.ttl_secs
    }

    /// A cache over an HTTP client and a store.
    pub fn new(http: Box<dyn HttpGet>, store: Box<dyn PageStore>, ttl_secs: u64) -> (cache: Self)
        ensures
            forall|url: Seq<char>, reply: Fetched| #[trigger]
                cache.source().may_give(url, reply) == http.may_give(url, reply),
            cache.shelf().value == store,
            cache.ttl() == ttl_secs,
    {
        let http = hold(http);
        let store = hold(store);
        VintageCache { store, http: HttpSource::Direct(http), ttl_secs }
    }

    /// Fetch without the cache.
    pub fn live(&self, url: &str) -> (reply: Result<String, String>)
        ensures
            self.source().may_give(url@, fetched(reply)),
    {
        self.http.get(url)
    }

    /// Whether fetching a page, of which `stored` is kept, may come to `page`.
    /// A kept page that is fresh is given with its vintage, unless a live one
    /// is asked for. Otherwise it is what a live fetch gives, marked so, and
    /// the store is asked to keep it.
    pub open spec fn came_to(
        &self,
        url: Seq<char>,
        refresh: bool,
        stored: Option<StoredPageView>,
        page: PageResult,
    ) -> bool {
        if !refresh && stored is Some && stored->0.age_secs < self.ttl() {
            page == Ok::<PageFetchView, Seq<char>>(
                PageFetchView {
                    body: stored->0.body,
                    from_cache: true,
                    retrieved_at: stored->0.retrieved_at,
                },
            )
        } else {
            match page {
                Err(error) => self.source().may_give(url, Err(error)),
                Ok(page) => {
                    &&& !page.from_cache
                    &&& self.source().may_give(url, Ok(page.body))
                    &&& is_stamp(page.retrieved_at)
                    &&& self.shelf().value.may_keep(url, page.body, page.retrieved_at)
                },
            }
        }
    }

    /// Whether fetching a page may come to `page`, given what the store may
    /// hold.
    pub open spec fn may_get(&self, url: Seq<char>, refresh: bool, page: PageResult) -> bool {
        exists|stored: Option<StoredPageView>| #[trigger]
            self.shelf().value.may_hold(url, stored) && self.came_to(url, refresh, stored, page)
    }

    /// Fetch a page: from the cache while it is fresh, unless `refresh` asks
    /// for a live one. What is fetched live is kept.
    pub fn get(&self, url: &str, refresh: bool) -> (page: Result<PageFetch, String>)
        ensures
            self.may_get(
                url@,
                refresh,
                match page {
                    Ok(page) => Ok(page@),
                    Err(error) => Err(error@),
                },
            ),
    {
        let stored = self.store.value.load(url);
        let ghost kept = stored_view(stored);
        assert(self.shelf().value.may_hold(url@, kept));
        if let Some(page) = serve_stored(stored, refresh, self.ttl_secs) {
            assert(self.came_to(url@, refresh, kept, Ok(page@)));
            return Ok(page);
        }
        match self.http.get(url) {
            Err(error) => {
                assert(self.came_to(url@, refresh, kept, Err(error@)));
                Err(error)
            },
            Ok(body) => {
                let retrieved_at = now_utc();
                self.store.value.save(url, body.as_str(), retrieved_at.as_str());
                let page = PageFetch { body, from_cache: false, retrieved_at };
                assert(self.came_to(url@, refresh, kept, Ok(page@)));
                Ok(page)
            },
        }
    }
}

/// The wiki of a game.
pub open spec fn site(game: Game) -> Seq<char> {
    match game {
        Game::Poe1 => "https://www.poewiki.net"@,
        Game::Poe2 => "https://www.poe2wiki.net"@,
    }
}

/// How many search results are asked for.
pub open spec fn search_limit(limit: Option<u64>) -> u64 {
    match limit {
        None => DEFAULT_SEARCH_LIMIT,
        Some(n) => if n < 1 {
            1
        } else if n > MAX_SEARCH_LIMIT {
            MAX_SEARCH_LIMIT
        } else {
            n
        },
    }
}

/// The address of a search.
pub open spec fn search_url(game: Game, query: Seq<char>, limit: u64) -> Seq<char> {
    site(game)
        + "/w/api.php?action=query&list=search&format=json&formatversion=2&srlimit="@ + decimal(
        limit as nat,
    ) + "&srsearch="@ + percent_encoded(vstd::utf8::encode_utf8(query))
}

/// The address of a page: of its rendered text, since the wikis' hard data is
/// generated by templates.
pub open spec fn page_url(game: Game, title: Seq<char>) -> Seq<char> {
    site(game)
        + "/w/api.php?action=parse&format=json&formatversion=2&prop=text&redirects=1&disablelimitreport=true&disableeditsection=true&disabletoc=true&page="@
        + percent_encoded(vstd::utf8::encode_utf8(title))
}

/// The JSON of a response. An HTML page (a challenge or a site error, served
/// as a success) is told apart, so that the failure can be diagnosed.
pub open spec fn api_json(body: Seq<char>, url: Seq<char>) -> Result<JsonView, Seq<char>> {
    let start = trimmed_start(body);
    if start.len() > 0 && start[0] == '<' {
        Err(
            "wiki returned an HTML page instead of JSON from "@ + url
                + " — likely an anti-bot challenge or a site error; retry later"@,
        )
    } else {
        match parsed(start) {
            Ok(value) => Ok(value),
            Err(error) => Err("unexpected response from "@ + url + ": "@ + error),
        }
    }
}

/// What an error of the wiki says.
pub open spec fn error_info(error: JsonView) -> Seq<char> {
    match text_in(at_key(error, "info"@)) {
        Some(info) => info,
        None => "unknown wiki API error"@,
    }
}

/// A search hit, cleaned.
pub open spec fn hit_json(hit: JsonView) -> JsonView {
    let snippet = match text_in(at_key(hit, "snippet"@)) {
        Some(snippet) => snippet,
        None => seq![],
    };
    let out = put(no_members(), "title"@, at_key(hit, "title"@));
    let out = put(out, "snippet"@, JsonView::Text(snippet_as_text(snippet)));
    put(out, "words"@, at_key(hit, "wordcount"@))
}

/// What a search response gives.
pub open spec fn search_section(query: Seq<char>, url: Seq<char>, response: JsonView) -> Result<
    JsonView,
    Seq<char>,
> {
    match member(response, "error"@) {
        Some(error) => Err("wiki search failed: "@ + error_info(error)),
        None => match items_in(at_key(at_key(response, "query"@), "search"@)) {
            None => Err("no search results field from "@ + url),
            Some(hits) => {
                let results = hits.map_values(|hit: JsonView| hit_json(hit));
                let out = put(no_members(), "query"@, JsonView::Text(query));
                let out = put(out, "results"@, JsonView::Array(results));
                Ok(put(out, "source"@, JsonView::Text(url)))
            },
        },
    }
}

/// What a search came to.
pub open spec fn searched(query: Seq<char>, url: Seq<char>, reply: Fetched) -> Result<
    JsonView,
    Seq<char>,
> {
    match reply {
        Err(error) => Err(error),
        Ok(body) => match api_json(body, url) {
            Err(error) => Err(error),
            Ok(response) => search_section(query, url, response),
        },
    }
}

/// Where a page comes from. That it comes from the cache is part of the
/// citation: its vintage is when it was retrieved, not when it was asked for.
pub open spec fn page_source(url: Seq<char>, page: PageFetchView) -> Seq<char> {
    if page.from_cache {
        url + " (local cache, retrieved "@ + page.retrieved_at + "; pass refresh:true for live)"@
    } else {
        url
    }
}

/// What a page response gives: its readable text, cut to the budget.
pub open spec fn page_section(
    title: Seq<char>,
    max_chars: u64,
    url: Seq<char>,
    page: PageFetchView,
    response: JsonView,
) -> Result<JsonView, Seq<char>> {
    match member(response, "error"@) {
        Some(error) => Err(
            "wiki page fetch failed for `"@ + title + "`: "@ + error_info(error),
        ),
        None => match text_in(at_key(at_key(response, "parse"@), "text"@)) {
            None => Err("no page text in response from "@ + url),
            Some(html) => {
                let resolved = match text_in(at_key(at_key(response, "parse"@), "title"@)) {
                    Some(resolved) => resolved,
                    None => title,
                };
                Ok(page_json(resolved, page_as_text(html), max_chars, url, page))
            },
        },
    }
}

/// A page as JSON: its readable text, cut to the budget.
pub open spec fn page_json(
    title: Seq<char>,
    readable: Seq<char>,
    max_chars: u64,
    url: Seq<char>,
    page: PageFetchView,
) -> JsonView {
    let truncated = readable.len() > max_chars;
    let text = if truncated {
        readable.take(max_chars as int)
    } else {
        readable
    };
    let out = put(no_members(), "title"@, JsonView::Text(title));
    let out = put(out, "text"@, JsonView::Text(text));
    let out = put(out, "truncated"@, JsonView::Bool(truncated));
    let out = put(out, "total_chars"@, JsonView::Unsigned(readable.len() as u64));
    let out = put(out, "retrieved_at"@, JsonView::Text(page.retrieved_at));
    put(out, "source"@, JsonView::Text(page_source(url, page)))
}

/// What fetching a page came to.
pub open spec fn paged(
    title: Seq<char>,
    max_chars: u64,
    url: Seq<char>,
    page: PageResult,
) -> Result<JsonView, Seq<char>> {
    match page {
        Err(error) => Err(error),
        Ok(page) => match api_json(page.body, url) {
            Err(error) => Err(error),
            Ok(response) => page_section(title, max_chars, url, page, response),
        },
    }
}

/// What a call asks for.
pub ghost enum WikiRequest {
    /// A search.
    Search {
        /// The query.
        query: Seq<char>,
        /// How many results.
        limit: u64,
    },
    /// A page.
    Page {
        /// The title.
        title: Seq<char>,
        /// The text budget.
        max_chars: u64,
        /// Whether a live fetch is asked for.
        refresh: bool,
    },
}

/// The names of the arguments, in order.
pub open spec fn wiki_names() -> Seq<Seq<char>> {
    seq!["game"@, "search"@, "page"@, "limit"@, "max_chars"@, "refresh"@]
}

/// A number of results; it has 32 bits.
pub open spec fn small_count(value: Option<JsonView>, name: Seq<char>) -> Result<
    Option<u64>,
    Seq<char>,
> {
    match optional_count(value, name) {
        Err(error) => Err(error),
        Ok(Some(n)) => if n <= u32::MAX {
            Ok(Some(n))
        } else {
            Err(mistyped(name, "a whole number of 32 bits"@))
        },
        Ok(None) => Ok(None),
    }
}

/// An optional flag; `null` counts as none.
pub open spec fn optional_flag(value: Option<JsonView>, name: Seq<char>) -> Result<
    Option<bool>,
    Seq<char>,
> {
    match value {
        None => Ok(None),
        Some(JsonView::Null) => Ok(None),
        Some(_) => match required_flag(value, name) {
            Ok(flag) => Ok(Some(flag)),
            Err(error) => Err(error),
        },
    }
}

/// The text budget.
pub open spec fn budget(max_chars: Option<u64>) -> u64 {
    match max_chars {
        None => DEFAULT_MAX_CHARS,
        Some(n) => if n < MIN_MAX_CHARS {
            MIN_MAX_CHARS
        } else {
            n
        },
    }
}

/// What the arguments ask for: exactly one of a search and a page.
pub open spec fn asked_for(
    search: Option<Seq<char>>,
    page: Option<Seq<char>>,
    limit: Option<u64>,
    max_chars: Option<u64>,
    refresh: Option<bool>,
) -> Result<WikiRequest, Seq<char>> {
    match (search, page) {
        (Some(query), None) => if trimmed(query).len() == 0 {
            Err("`search` must not be empty"@)
        } else {
            Ok(WikiRequest::Search { query: trimmed(query), limit: search_limit(limit) })
        },
        (None, Some(title)) => if trimmed(title).len() == 0 {
            Err("`page` must not be empty"@)
        } else {
            Ok(
                WikiRequest::Page {
                    title: trimmed(title),
                    max_chars: budget(max_chars),
                    refresh: refresh == Some(true),
                },
            )
        },
        _ => Err("provide exactly one of `search` or `page`"@),
    }
}

/// The arguments that a JSON value holds.
pub open spec fn wiki_args_in(args: JsonView) -> Result<(Game, WikiRequest), Seq<char>> {
    match required_game(argument(args, "game"@, 0), "game"@) {
        Err(error) => Err(error),
        Ok(game) => match optional_text(argument(args, "search"@, 1), "search"@) {
            Err(error) => Err(error),
            Ok(search) => match optional_text(argument(args, "page"@, 2), "page"@) {
                Err(error) => Err(error),
                Ok(page) => match small_count(argument(args, "limit"@, 3), "limit"@) {
                    Err(error) => Err(error),
                    Ok(limit) => match optional_count(
                        argument(args, "max_chars"@, 4),
                        "max_chars"@,
                    ) {
                        Err(error) => Err(error),
                        Ok(max_chars) => match optional_flag(
                            argument(args, "refresh"@, 5),
                            "refresh"@,
                        ) {
                            Err(error) => Err(error),
                            Ok(refresh) => match asked_for(
                                search,
                                page,
                                limit,
                                max_chars,
                                refresh,
                            ) {
                                Err(error) => Err(error),
                                Ok(request) => Ok((game, request)),
                            },
                        },
                    },
                },
            },
        },
    }
}

/// The arguments that a text holds.
pub open spec fn wiki_args(args_json: Seq<char>) -> Result<(Game, WikiRequest), Seq<char>> {
    match opened(args_json, wiki_names(), 1) {
        Err(error) => Err(error),
        Ok(args) => wiki_args_in(args),
    }
}

/// What a call is answered, given the time and the section under `key`.
pub open spec fn wiki_answer(
    game: Game,
    stamp: Seq<char>,
    key: Seq<char>,
    section: Result<JsonView, Seq<char>>,
) -> Answer {
    match section {
        Err(error) => Err(Fault::Failed(error)),
        Ok(section) => {
            let out = put(no_members(), "game"@, JsonView::Text(game_id(game)));
            let out = put(out, "fetched_at"@, JsonView::Text(stamp));
            Ok(printed(put(out, key, section)))
        },
    }
}

/// What a call asks for.
#[derive(Debug)]
pub enum WikiCall {
    /// A search.
    Search {
        /// The query.
        query: String,
        /// How many results.
        limit: u64,
    },
    /// A page.
    Page {
        /// The title.
        title: String,
        /// The text budget.
        max_chars: u64,
        /// Whether a live fetch is asked for.
        refresh: bool,
    },
}

impl View for WikiCall {
    type V = WikiRequest;

    open spec fn view(&self) -> WikiRequest {
        match *self {
            WikiCall::Search { query, limit } => WikiRequest::Search { query: query@, limit },
            WikiCall::Page { title, max_chars, refresh } => WikiRequest::Page {
                title: title@,
                max_chars,
                refresh,
            },
        }
    }
}

/// Read what the arguments ask for.
fn read_request(
    search: &Option<String>,
    page: &Option<String>,
    limit: Option<u64>,
    max_chars: Option<u64>,
    refresh: Option<bool>,
) -> (call: Result<WikiCall, String>)
    ensures
        match call {
            Ok(call) => asked_for(
                maybe_text(*search),
                maybe_text(*page),
                limit,
                max_chars,
                refresh,
            ) == Ok::<WikiRequest, Seq<char>>(call@),
            Err(error) => asked_for(
                maybe_text(*search),
                maybe_text(*page),
                limit,
                max_chars,
                refresh,
            ) == Err::<WikiRequest, Seq<char>>(error@),
        },
{
    match search {
        Some(query) => {
            if page.is_some() {
                return Err("provide exactly one of `search` or `page`".to_owned());
            }
            let query = text::trim(query.as_str());
            if query.is_empty() {
                return Err("`search` must not be empty".to_owned());
            }
            let limit: u64 = match limit {
                None => DEFAULT_SEARCH_LIMIT,
                Some(n) => if n < 1 {
                    1
                } else if n > MAX_SEARCH_LIMIT {
                    MAX_SEARCH_LIMIT
                } else {
                    n
                },
            };
            Ok(WikiCall::Search { query: query.to_owned(), limit })
        },
        None => match page {
            None => Err("provide exactly one of `search` or `page`".to_owned()),
            Some(title) => {
                let title = text::trim(title.as_str());
                if title.is_empty() {
                    return Err("`page` must not be empty".to_owned());
                }
                let max_chars: u64 = match max_chars {
                    None => DEFAULT_MAX_CHARS,
                    Some(n) => if n < MIN_MAX_CHARS {
                        MIN_MAX_CHARS
                    } else {
                        n
                    },
                };
                let refresh = match refresh {
                    Some(refresh) => refresh,
                    None => false,
                };
                Ok(WikiCall::Page { title: title.to_owned(), max_chars, refresh })
            },
        },
    }
}

/// Read the arguments of a call.
pub fn read_wiki_args(args_json: &str) -> (args: Result<(Game, WikiCall), String>)
    ensures
        match args {
            Ok((game, call)) => wiki_args(args_json@) == Ok::<(Game, WikiRequest), Seq<char>>(
                (game, call@),
            ),
            Err(error) => wiki_args(args_json@) == Err::<(Game, WikiRequest), Seq<char>>(error@),
        },
{
    let names: [&'static str; 6] = ["game", "search", "page", "limit", "max_chars", "refresh"];
    assert(names_view(names@) =~= wiki_names());
    let args = match open_args(args_json, &names, 1) {
        Ok(args) => args,
        Err(error) => {
            return Err(error);
        },
    };
    let game = match read_game(find_argument(&args, "game", 0), "game") {
        Ok(game) => game,
        Err(error) => {
            return Err(error);
        },
    };
    let search = match read_optional_text(find_argument(&args, "search", 1), "search") {
        Ok(search) => search,
        Err(error) => {
            return Err(error);
        },
    };
    let page = match read_optional_text(find_argument(&args, "page", 2), "page") {
        Ok(page) => page,
        Err(error) => {
            return Err(error);
        },
    };
    let limit: Option<u64> = match read_optional_count(find_argument(&args, "limit", 3), "limit") {
        Ok(limit) => limit,
        Err(error) => {
            return Err(error);
        },
    };
    if let Some(n) = limit {
        if n > u32::MAX as u64 {
            return Err(mistyped_text("limit", "a whole number of 32 bits"));
        }
    }
    let max_chars: Option<u64> = match read_optional_count(
        find_argument(&args, "max_chars", 4),
        "max_chars",
    ) {
        Ok(max_chars) => max_chars,
        Err(error) => {
            return Err(error);
        },
    };
    let refresh_value = find_argument(&args, "refresh", 5);
    let refresh = match refresh_value {
        None => None,
        Some(value) => if value.is_null() {
            None
        } else {
            match read_flag(refresh_value, "refresh") {
                Ok(flag) => Some(flag),
                Err(error) => {
                    return Err(error);
                },
            }
        },
    };
    match read_request(&search, &page, limit, max_chars, refresh) {
        Ok(call) => Ok((game, call)),
        Err(error) => Err(error),
    }
}

/// The wiki of a game.
fn site_of(game: Game) -> (url: &'static str)
    ensures
        url@ == site(game),
{
    match game {
        Game::Poe1 => "https://www.poewiki.net",
        Game::Poe2 => "https://www.poe2wiki.net",
    }
}

/// The address of a search.
pub fn url_of_search(game: Game, query: &str, limit: u64) -> (url: String)
    ensures
        url@ == search_url(game, query@, limit),
{
    let mut url = site_of(game).to_owned();
    url.append("/w/api.php?action=query&list=search&format=json&formatversion=2&srlimit=");
    url.append(text::decimal_text(limit).as_str());
    url.append("&srsearch=");
    url.append(percent_encode(query).as_str());
    url
}

/// The address of a page.
pub fn url_of_page(game: Game, title: &str) -> (url: String)
    ensures
        url@ == page_url(game, title@),
{
    let mut url = site_of(game).to_owned();
    url.append(
        "/w/api.php?action=parse&format=json&formatversion=2&prop=text&redirects=1&disablelimitreport=true&disableeditsection=true&disabletoc=true&page=",
    );
    url.append(percent_encode(title).as_str());
    url
}

/// The JSON of a response.
fn parse_api_json(body: &str, url: &str) -> (value: Result<Json, String>)
    ensures
        match value {
            Ok(value) => api_json(body@, url@) is Ok && api_json(body@, url@)->Ok_0 == value@,
            Err(error) => api_json(body@, url@) is Err && api_json(body@, url@)->Err_0 == error@,
        },
{
    let start = text::trim_start(body);
    if !start.is_empty() && start.get_char(0) == '<' {
        let mut error = "wiki returned an HTML page instead of JSON from ".to_owned();
        error.append(url);
        error.append(" — likely an anti-bot challenge or a site error; retry later");
        return Err(error);
    }
    match json::parse(start) {
        Ok(value) => Ok(value),
        Err(reason) => {
            let mut error = "unexpected response from ".to_owned();
            error.append(url);
            error.append(": ");
            error.append(reason.as_str());
            Err(error)
        },
    }
}

/// What an error of the wiki says.
fn info_of(error: &Json) -> (info: &str)
    ensures
        info@ == error_info(error@),
{
    match error.key("info").as_str() {
        Some(info) => info,
        None => "unknown wiki API error",
    }
}

/// What a search response gives.
pub fn read_search(query: &str, url: &str, response: &Json) -> (section: Result<Json, String>)
    ensures
        match section {
            Ok(section) => search_section(query@, url@, response@) is Ok && search_section(
                query@,
                url@,
                response@,
            )->Ok_0 == section@,
            Err(error) => search_section(query@, url@, response@) is Err && search_section(
                query@,
                url@,
                response@,
            )->Err_0 == error@,
        },
{
    if let Some(error) = response.get("error") {
        return Err("wiki search failed: ".to_owned().concat(info_of(error)));
    }
    let hits = match response.key("query").key("search").as_array() {
        Some(hits) => hits,
        None => {
            return Err("no search results field from ".to_owned().concat(url));
        },
    };
    let ghost all = items_view(hits@).map_values(|hit: JsonView| hit_json(hit));
    let mut results: Vec<Json> = Vec::new();
    let mut i: usize = 0;
    proof {
        lemma_items_view(hits@);
        assert(items_view(results@) =~= all.take(0));
    }
    while i < hits.len()
        invariant
            i <= hits@.len(),
            all == items_view(hits@).map_values(|hit: JsonView| hit_json(hit)),
            all.len() == hits@.len(),
            items_view(results@) == all.take(i as int),
        decreases hits@.len() - i,
    {
        let hit = &hits[i];
        let snippet = match hit.key("snippet").as_str() {
            Some(snippet) => clean_snippet(snippet),
            None => {
                let none = String::new();
                clean_snippet(none.as_str())
            },
        };
        let result = Json::object().with("title", hit.key("title").copy()).with(
            "snippet",
            Json::Text(snippet),
        ).with("words", hit.key("wordcount").copy());
        proof {
            lemma_items_view(hits@);
            lemma_items_push(results@, result);
            assert(all.take(i as int).push(result@) =~= all.take(i + 1));
        }
        results.push(result);
        i += 1;
    }
    assert(all.take(i as int) =~= all);
    Ok(
        Json::object().with("query", Json::string(query)).with(
            "results",
            Json::Array(results),
        ).with("source", Json::string(url)),
    )
}

/// What a search came to.
pub fn search_from_reply(query: &str, url: &str, reply: &Result<String, String>) -> (section:
    Result<Json, String>)
    ensures
        match section {
            Ok(section) => searched(query@, url@, fetched(*reply)) is Ok && searched(
                query@,
                url@,
                fetched(*reply),
            )->Ok_0 == section@,
            Err(error) => searched(query@, url@, fetched(*reply)) is Err && searched(
                query@,
                url@,
                fetched(*reply),
            )->Err_0 == error@,
        },
{
    match reply {
        Err(error) => Err(error.clone()),
        Ok(body) => match parse_api_json(body.as_str(), url) {
            Err(error) => Err(error),
            Ok(response) => read_search(query, url, &response),
        },
    }
}

/// Where a page comes from.
fn source_of(url: &str, page: &PageFetch) -> (source: String)
    ensures
        source@ == page_source(url@, page@),
{
    let mut source = url.to_owned();
    if page.from_cache {
        source.append(" (local cache, retrieved ");
        source.append(page.retrieved_at.as_str());
        source.append("; pass refresh:true for live)");
    }
    source
}

/// A page as JSON: its readable text, cut to the budget.
pub fn render_page(
    title: &str,
    readable: &str,
    max_chars: u64,
    url: &str,
    page: &PageFetch,
) -> (out: Json)
    ensures
        out@ == page_json(title@, readable@, max_chars, url@, page@),
{
    let total_chars: u64 = readable.unicode_len() as u64;
    let truncated = total_chars > max_chars;
    let text = if truncated {
        assert(readable@.subrange(0, max_chars as int) =~= readable@.take(max_chars as int));
        readable.substring_char(0, max_chars as usize)
    } else {
        readable
    };
    Json::object().with("title", Json::string(title)).with("text", Json::string(text)).with(
        "truncated",
        Json::Bool(truncated),
    ).with("total_chars", Json::Unsigned(total_chars)).with(
        "retrieved_at",
        Json::string(page.retrieved_at.as_str()),
    ).with("source", Json::Text(source_of(url, page)))
}

/// What a page response gives.
pub fn read_page(
    title: &str,
    max_chars: u64,
    url: &str,
    page: &PageFetch,
    response: &Json,
) -> (section: Result<Json, String>)
    ensures
        match section {
            Ok(section) => page_section(title@, max_chars, url@, page@, response@) is Ok
                && page_section(title@, max_chars, url@, page@, response@)->Ok_0 == section@,
            Err(error) => page_section(title@, max_chars, url@, page@, response@) is Err
                && page_section(title@, max_chars, url@, page@, response@)->Err_0 == error@,
        },
{
    if let Some(reason) = response.get("error") {
        let mut error = "wiki page fetch failed for `".to_owned();
        error.append(title);
        error.append("`: ");
        error.append(info_of(reason));
        return Err(error);
    }
    let article = response.key("parse");
    let html = match article.key("text").as_str() {
        Some(html) => html,
        None => {
            return Err("no page text in response from ".to_owned().concat(url));
        },
    };
    let resolved = match article.key("title").as_str() {
        Some(resolved) => resolved,
        None => title,
    };
    let readable = html_to_text(html);
    Ok(render_page(resolved, readable.as_str(), max_chars, url, page))
}

/// What fetching a page came to.
pub open spec fn page_result(page: Result<PageFetch, String>) -> PageResult {
    match page {
        Ok(page) => Ok(page@),
        Err(error) => Err(error@),
    }
}

/// What fetching a page came to, as a section.
pub fn page_from_fetch(
    title: &str,
    max_chars: u64,
    url: &str,
    page: &Result<PageFetch, String>,
) -> (section: Result<Json, String>)
    ensures
        match section {
            Ok(section) => paged(title@, max_chars, url@, page_result(*page)) is Ok && paged(
                title@,
                max_chars,
                url@,
                page_result(*page),
            )->Ok_0 == section@,
            Err(error) => paged(title@, max_chars, url@, page_result(*page)) is Err && paged(
                title@,
                max_chars,
                url@,
                page_result(*page),
            )->Err_0 == error@,
        },
{
    match page {
        Err(error) => Err(error.clone()),
        Ok(page) => match parse_api_json(page.body.as_str(), url) {
            Err(error) => Err(error),
            Ok(response) => read_page(title, max_chars, url, page, &response),
        },
    }
}

/// What the value of a section says.
pub open spec fn section_view(section: Result<Json, String>) -> Result<JsonView, Seq<char>> {
    match section {
        Ok(section) => Ok(section@),
        Err(error) => Err(error@),
    }
}

/// Answer a call, given the time and the section under `key`.
pub fn answer_wiki(game: Game, stamp: &str, key: &str, section: Result<Json, String>) -> (outcome:
    Result<String, ToolError>)
    ensures
        answer_of(outcome) == wiki_answer(game, stamp@, key@, section_view(section)),
{
    match section {
        Err(error) => Err(ToolError::Failed(error)),
        Ok(section) => Ok(
            Json::object().with("game", Json::string(game.as_str())).with(
                "fetched_at",
                Json::string(stamp),
            ).with(key, section).to_string(),
        ),
    }
}

/// The `wiki` tool: search and article retrieval over the community wikis.
pub struct WikiTool {
    cache: VintageCache,
}

impl WikiTool {
    /// The page cache.
    pub closed spec fn pages(&self) -> VintageCache {
        self.cache
    }

    /// Tool over a live HTTP client and a store of pages, which stay fresh
    /// for a day.
    pub fn new(live: Box<dyn HttpGet>, store: Box<dyn PageStore>) -> (tool: Self)
        ensures
            forall|url: Seq<char>, reply: Fetched| #[trigger]
                tool.pages().source().may_give(url, reply) == live.may_give(url, reply),
            tool.pages().shelf().value == store,
            tool.pages().ttl() == PAGE_CACHE_TTL_SECS,
    {
        let http = hold(live);
        let store = hold(store);
        WikiTool {
            cache: VintageCache {
                store,
                http: HttpSource::Direct(http),
                ttl_secs: PAGE_CACHE_TTL_SECS,
            },
        }
    }

    /// Tool with an injected HTTP implementation and no caching.
    pub fn with_http(http: Box<dyn HttpGet>) -> (tool: Self)
        ensures
            forall|url: Seq<char>, reply: Fetched| #[trigger]
                tool.pages().source().may_give(url, reply) == http.may_give(url, reply),
            tool.pages().ttl() == 0,
    {
        let http = hold(http);
        WikiTool {
            cache: VintageCache {
                store: hold(Box::new(NoStore)),
                http: HttpSource::Direct(http),
                ttl_secs: 0,
            },
        }
    }

    /// Tool with an explicit store and time to live.
    pub fn with_cache(http: Box<dyn HttpGet>, store: Box<dyn PageStore>, ttl_secs: u64) -> (tool:
        Self)
        ensures
            forall|url: Seq<char>, reply: Fetched| #[trigger]
                tool.pages().source().may_give(url, reply) == http.may_give(url, reply),
            tool.pages().shelf().value == store,
            tool.pages().ttl() == ttl_secs,
    {
        let http = hold(http);
        let store = hold(store);
        WikiTool { cache: VintageCache { store, http: HttpSource::Direct(http), ttl_secs } }
    }
}

impl WikiTool {
    /// Whether a request that gave `reply`, for a search, or `page`, for a
    /// page, is answered so.
    pub open spec fn answers(
        &self,
        game: Game,
        request: WikiRequest,
        stamp: Seq<char>,
        reply: Fetched,
        page: PageResult,
        answer: Answer,
    ) -> bool {
        match request {
            WikiRequest::Search { query, limit } => {
                let url = search_url(game, query, limit);
                self.pages().source().may_give(url, reply) && answer == wiki_answer(
                    game,
                    stamp,
                    "search"@,
                    searched(query, url, reply),
                )
            },
            WikiRequest::Page { title, max_chars, refresh } => {
                let url = page_url(game, title);
                self.pages().may_get(url, refresh, page) && answer == wiki_answer(
                    game,
                    stamp,
                    "page"@,
                    paged(title, max_chars, url, page),
                )
            },
        }
    }
}

/// What the tool does, for the model.
pub const WIKI_DESCRIPTION: &'static str =
    "Look up game mechanics, items, and systems on the community wiki (poewiki.net for Path of Exile 1, poe2wiki.net for Path of Exile 2). Search with SHORT keyword queries (1-3 words, like article titles: 'resistance', 'Kitava'), or fetch a page directly by its exact title. ALWAYS fetch the `page` before answering — snippets only locate pages. Cite the source URL. Pages are cached locally for a day and results state their vintage; pass `refresh` to force a live fetch.";

/// The JSON Schema of the arguments.
pub const WIKI_SCHEMA: &'static str =
    r#"{"type":"object","properties":{"game":{"type":"string","enum":["poe1","poe2"],"description":"Which game's wiki"},"search":{"type":"string","description":"Full-text search query (provide exactly one of search or page)"},"page":{"type":"string","description":"Exact page title to fetch (provide exactly one of search or page)"},"limit":{"type":"integer","minimum":1,"maximum":20,"description":"Max search results (default 8)"},"max_chars":{"type":"integer","description":"Article text budget in characters (default 8000)"},"refresh":{"type":"boolean","description":"Force a live re-fetch of a cached page"}},"required":["game"],"additionalProperties":false}"#;

impl Tool for WikiTool {
    open spec fn tool_name(&self) -> Seq<char> {
        "wiki"@
    }

    open spec fn tool_description(&self) -> Seq<char> {
        WIKI_DESCRIPTION@
    }

    open spec fn tool_schema(&self) -> Seq<char> {
        WIKI_SCHEMA@
    }

    /// Arguments that cannot be read are refused. Otherwise the answer follows
    /// from the time and from what the request gave: a search always goes to
    /// the wiki, a page may come from the cache.
    open spec fn may_answer(&self, args_json: Seq<char>, answer: Answer) -> bool {
        match wiki_args(args_json) {
            Err(error) => answer == Err::<Seq<char>, Fault>(Fault::InvalidArgs(error)),
            Ok((game, request)) => exists|stamp: Seq<char>, reply: Fetched, page: PageResult|
                is_stamp(stamp) && #[trigger] self.answers(
                    game,
                    request,
                    stamp,
                    reply,
                    page,
                    answer,
                ),
        }
    }

    fn name(&self) -> (name: &'static str) {
        "wiki"
    }

    fn description(&self) -> (description: &'static str) {
        WIKI_DESCRIPTION
    }

    fn parameters_schema(&self) -> (schema: &'static str) {
        WIKI_SCHEMA
    }

    fn execute(&self, args_json: &str) -> (outcome: Result<String, ToolError>) {
        let (game, call) = match read_wiki_args(args_json) {
            Ok(args) => args,
            Err(error) => {
                return Err(ToolError::InvalidArgs(error));
            },
        };
        let stamp = now_utc();
        match call {
            WikiCall::Search { query, limit } => {
                let url = url_of_search(game, query.as_str(), limit);
                let reply = self.cache.live(url.as_str());
                let section = search_from_reply(query.as_str(), url.as_str(), &reply);
                let outcome = answer_wiki(game, stamp.as_str(), "search", section);
                assert(self.answers(
                    game,
                    wiki_args(args_json@)->Ok_0.1,
                    stamp@,
                    fetched(reply),
                    Err(Seq::empty()),
                    answer_of(outcome),
                ));
                outcome
            },
            WikiCall::Page { title, max_chars, refresh } => {
                let url = url_of_page(game, title.as_str());
                let page = self.cache.get(url.as_str(), refresh);
                let section = page_from_fetch(title.as_str(), max_chars, url.as_str(), &page);
                let outcome = answer_wiki(game, stamp.as_str(), "page", section);
                assert(self.answers(
                    game,
                    wiki_args(args_json@)->Ok_0.1,
                    stamp@,
                    Err(Seq::empty()),
                    page_result(page),
                    answer_of(outcome),
                ));
                outcome
            },
        }
    }
}

/// What is found tells which game it is about, when it was fetched and where
/// it comes from.
pub proof fn law_wiki_results_are_stamped(
    tool: WikiTool,
    game: Game,
    request: WikiRequest,
    stamp: Seq<char>,
    reply: Fetched,
    page: PageResult,
    answer: Answer,
)
    requires
        tool.answers(game, request, stamp, reply, page, answer),
        answer is Ok,
    ensures
        exists|result: JsonView|
            answer == Ok::<Seq<char>, Fault>(#[trigger] printed(result)) && is_stamped(
                result,
                game,
                stamp,
            ) && is_sourced(
                at_key(
                    result,
                    match request {
                        WikiRequest::Search { .. } => "search"@,
                        WikiRequest::Page { .. } => "page"@,
                    },
                ),
            ),
{
    reveal_strlit("game");
    reveal_strlit("fetched_at");
    reveal_strlit("search");
    reveal_strlit("page");
    assert("game"@.len() == 4 && "fetched_at"@.len() == 10 && "search"@.len() == 6);
    assert("game"@[0] == 'g' && "page"@[0] == 'p' && "page"@.len() == 4);
    let (key, section) = match request {
        WikiRequest::Search { query, limit } => (
            "search"@,
            searched(query, search_url(game, query, limit), reply),
        ),
        WikiRequest::Page { title, max_chars, refresh } => (
            "page"@,
            paged(title, max_chars, page_url(game, title), page),
        ),
    };
    let head = put(no_members(), "game"@, JsonView::Text(game_id(game)));
    let result = put(put(head, "fetched_at"@, JsonView::Text(stamp)), key, section->Ok_0);
    assert(answer == Ok::<Seq<char>, Fault>(printed(result)));
}

/// Every request goes to the wiki of the game that it is about, and the two
/// games have different ones.
pub proof fn law_games_have_their_own_wikis(
    game: Game,
    other: Game,
    query: Seq<char>,
    limit: u64,
    title: Seq<char>,
)
    requires
        game != other,
    ensures
        text::is_at(search_url(game, query, limit), site(game), 0),
        text::is_at(page_url(game, title), site(game), 0),
        !text::is_at(search_url(game, query, limit), site(other), 0),
        !text::is_at(page_url(game, title), site(other), 0),
{
    reveal_strlit("https://www.poewiki.net");
    reveal_strlit("https://www.poe2wiki.net");
    let searched_at = search_url(game, query, limit);
    let page_at = page_url(game, title);
    assert(searched_at.subrange(0, site(game).len() as int) =~= site(game));
    assert(page_at.subrange(0, site(game).len() as int) =~= site(game));
    assert(site(game)[15] != site(other)[15]);
    assert(searched_at[15] == site(game)[15] && page_at[15] == site(game)[15]);
    if text::is_at(searched_at, site(other), 0) {
        assert(searched_at.subrange(0, site(other).len() as int)[15] == searched_at[15]);
    }
    if text::is_at(page_at, site(other), 0) {
        assert(page_at.subrange(0, site(other).len() as int)[15] == page_at[15]);
    }
}

/// A page is live where that is asked for, and where pages do not live at all.
pub proof fn law_refresh_is_live(
    cache: VintageCache,
    url: Seq<char>,
    refresh: bool,
    page: PageFetchView,
)
    requires
        cache.may_get(url, refresh, Ok(page)),
        refresh || cache.ttl() == 0,
    ensures
        !page.from_cache,
        cache.source().may_give(url, Ok(page.body)),
{
}

/// An article's text never runs past its budget, and is cut only where it
/// would.
pub proof fn law_pages_keep_their_budget(
    title: Seq<char>,
    readable: Seq<char>,
    max_chars: u64,
    url: Seq<char>,
    page: PageFetchView,
)
    ensures
        ({
            let out = page_json(title, readable, max_chars, url, page);
            let text = text_in(at_key(out, "text"@));
            &&& text is Some
            &&& text->0.len() <= max_chars
            &&& at_key(out, "truncated"@) == JsonView::Bool(readable.len() > max_chars)
            &&& readable.len() <= max_chars ==> text->0 == readable
        }),
{
    reveal_strlit("title");
    reveal_strlit("text");
    reveal_strlit("truncated");
    reveal_strlit("total_chars");
    reveal_strlit("retrieved_at");
    reveal_strlit("source");
    assert("text"@.len() == 4);
    assert("truncated"@.len() == 9);
    assert("total_chars"@.len() == 11);
    assert("retrieved_at"@.len() == 12);
    assert("source"@.len() == 6);
}

/// A page from the cache is cited with its vintage; a live one by its address
/// alone.
pub proof fn law_cached_pages_tell_their_vintage(url: Seq<char>, page: PageFetchView)
    ensures
        page.from_cache ==> text::occurs(page_source(url, page), page.retrieved_at),
        !page.from_cache ==> page_source(url, page) == url,
{
    if page.from_cache {
        let front = url + " (local cache, retrieved "@;
        let back = "; pass refresh:true for live)"@;
        let all = page_source(url, page);
        let from = front.len() as int;
        assert(all.subrange(from, from + page.retrieved_at.len()) =~= page.retrieved_at);
        assert(text::is_at(all, page.retrieved_at, from));
    }
}

/// A search tells what was searched and where, and holds every hit once and in
/// the order of the wiki: its title and its length as the wiki gives them, and
/// its snippet without markup.
pub proof fn law_hits_are_told_in_order(query: Seq<char>, url: Seq<char>, response: JsonView)
    requires
        search_section(query, url, response) is Ok,
    ensures
        ({
            let section = search_section(query, url, response)->Ok_0;
            let hits = at_key(at_key(response, "query"@), "search"@);
            let results = at_key(section, "results"@);
            &&& at_key(section, "query"@) == JsonView::Text(query)
            &&& at_key(section, "source"@) == JsonView::Text(url)
            &&& hits is Array && results is Array
            &&& results->Array_0.len() == hits->Array_0.len()
            &&& forall|i: int|
                0 <= i < hits->Array_0.len() ==> {
                    let hit = #[trigger] at_index(hits, i);
                    let result = at_index(results, i);
                    &&& member(result, "title"@) == Some(at_key(hit, "title"@))
                    &&& member(result, "words"@) == Some(at_key(hit, "wordcount"@))
                    &&& at_key(hit, "snippet"@) matches JsonView::Text(snippet) ==> at_key(
                        result,
                        "snippet"@,
                    ) == JsonView::Text(snippet_as_text(snippet))
                }
        }),
{
    reveal_strlit("query");
    reveal_strlit("results");
    reveal_strlit("source");
    assert("query"@.len() == 5);
    assert("results"@.len() == 7);
    assert("source"@.len() == 6);
    reveal_strlit("title");
    reveal_strlit("snippet");
    reveal_strlit("words");
    assert("title"@.len() == 5);
    assert("snippet"@.len() == 7);
    assert("words"@.len() == 5);
    assert("title"@[0] != "words"@[0]);
}

/// A search succeeds exactly where the wiki tells no error and lists hits, and
/// an error is told as the wiki words it.
pub proof fn law_searches_fail_as_the_wiki_says(
    query: Seq<char>,
    url: Seq<char>,
    response: JsonView,
)
    ensures
        search_section(query, url, response) is Ok <==> member(response, "error"@) is None
            && at_key(at_key(response, "query"@), "search"@) is Array,
        at_key(at_key(response, "error"@), "info"@) matches JsonView::Text(info)
            ==> search_section(query, url, response) == Err::<JsonView, Seq<char>>(
            "wiki search failed: "@ + info,
        ),
{
}

/// An article is told with the title that the wiki resolved, its readable text
/// from the start, its whole length, when it was retrieved and from where.
pub proof fn law_pages_are_told_as_retrieved(
    title: Seq<char>,
    max_chars: u64,
    url: Seq<char>,
    page: PageFetchView,
    response: JsonView,
    html: Seq<char>,
)
    requires
        member(response, "error"@) is None,
        at_key(at_key(response, "parse"@), "text"@) == JsonView::Text(html),
        page_as_text(html).len() <= u64::MAX,
    ensures
        page_section(title, max_chars, url, page, response) is Ok,
        ({
            let told = page_section(title, max_chars, url, page, response)->Ok_0;
            let readable = page_as_text(html);
            let resolved = at_key(at_key(response, "parse"@), "title"@);
            &&& at_key(told, "title"@) == if resolved is Text {
                resolved
            } else {
                JsonView::Text(title)
            }
            &&& at_key(told, "text"@) matches JsonView::Text(text) && {
                &&& text == readable.take(text.len() as int)
                &&& text.len() == if readable.len() <= max_chars {
                    readable.len()
                } else {
                    max_chars as nat
                }
            }
            &&& at_key(told, "truncated"@) == JsonView::Bool(readable.len() > max_chars)
            &&& at_key(told, "total_chars"@) matches JsonView::Unsigned(n) && n == readable.len()
            &&& at_key(told, "retrieved_at"@) == JsonView::Text(page.retrieved_at)
            &&& !page.from_cache ==> at_key(told, "source"@) == JsonView::Text(url)
            &&& page.from_cache ==> at_key(told, "source"@) == JsonView::Text(
                url + " (local cache, retrieved "@ + page.retrieved_at
                    + "; pass refresh:true for live)"@,
            )
        }),
{
    reveal_strlit("title");
    reveal_strlit("text");
    reveal_strlit("truncated");
    reveal_strlit("total_chars");
    reveal_strlit("retrieved_at");
    reveal_strlit("source");
    assert("title"@.len() == 5);
    assert("text"@.len() == 4);
    assert("truncated"@.len() == 9);
    assert("total_chars"@.len() == 11);
    assert("retrieved_at"@.len() == 12);
    assert("source"@.len() == 6);
    let readable = page_as_text(html);
    assert(readable.take(readable.len() as int) =~= readable);
}

/// A page fails exactly where the wiki tells an error or gives no text, and an
/// error is told as the wiki words it, with the title that was asked for.
pub proof fn law_pages_fail_as_the_wiki_says(
    title: Seq<char>,
    max_chars: u64,
    url: Seq<char>,
    page: PageFetchView,
    response: JsonView,
)
    ensures
        page_section(title, max_chars, url, page, response) is Ok <==> member(response, "error"@)
            is None && at_key(at_key(response, "parse"@), "text"@) is Text,
        at_key(at_key(response, "error"@), "info"@) matches JsonView::Text(info) ==> page_section(
            title,
            max_chars,
            url,
            page,
            response,
        ) == Err::<JsonView, Seq<char>>(
            "wiki page fetch failed for `"@ + title + "`: "@ + info,
        ),
{
}

/// How many results a search asks for: eight where nothing is said, and else
/// what is said, between one and twenty.
pub proof fn law_searches_are_limited(limit: u64)
    ensures
        search_limit(None) == 8,
        1 <= search_limit(Some(limit)) <= 20,
        1 <= limit <= 20 ==> search_limit(Some(limit)) == limit,
        limit > 20 ==> search_limit(Some(limit)) == 20,
{
}

/// How much of an article is told: eight thousand characters where nothing is
/// said, and else what is said, but never less than two hundred.
pub proof fn law_budgets_have_a_floor(max_chars: u64)
    ensures
        budget(None) == 8000,
        budget(Some(max_chars)) >= 200,
        max_chars >= 200 ==> budget(Some(max_chars)) == max_chars,
        max_chars < 200 ==> budget(Some(max_chars)) == 200,
{
}

/// A search asks the wiki of the game for as many results as it may, with the
/// query at the end; a page asks for the rendered text, with the title at the
/// end. Query and title can be read back from the address.
pub proof fn law_requests_name_what_is_asked(
    game: Game,
    query: Seq<char>,
    limit: u64,
    title: Seq<char>,
)
    ensures
        ({
            let wiki = match game {
                Game::Poe1 => "https://www.poewiki.net"@,
                Game::Poe2 => "https://www.poe2wiki.net"@,
            };
            let sought = percent_encoded(vstd::utf8::encode_utf8(query));
            let named = percent_encoded(vstd::utf8::encode_utf8(title));
            &&& search_url(game, query, limit) == wiki
                + "/w/api.php?action=query&list=search&format=json&formatversion=2&srlimit="@
                + decimal(limit as nat) + "&srsearch="@ + sought
            &&& page_url(game, title) == wiki
                + "/w/api.php?action=parse&format=json&formatversion=2&prop=text&redirects=1&disablelimitreport=true&disableeditsection=true&disabletoc=true&page="@
                + named
            &&& percent_decoded(sought) == vstd::utf8::encode_utf8(query)
            &&& percent_decoded(named) == vstd::utf8::encode_utf8(title)
        }),
{
    law_percent_encoding_decodes(vstd::utf8::encode_utf8(query));
    law_percent_encoding_decodes(vstd::utf8::encode_utf8(title));
}

/// An answer that begins like a page of markup is refused, whatever stands in
/// front of it in white space; any other is read as JSON.
pub proof fn law_markup_is_no_answer(body: Seq<char>, url: Seq<char>, blank: int)
    requires
        0 <= blank < body.len(),
        forall|i: int| 0 <= i < blank ==> text::is_white(#[trigger] body[i]),
        !text::is_white(body[blank]),
    ensures
        body[blank] == '<' ==> api_json(body, url) is Err,
        body[blank] != '<' ==> match parsed(body.skip(blank)) {
            Ok(value) => api_json(body, url) == Ok::<JsonView, Seq<char>>(value),
            Err(error) => api_json(body, url) == Err::<JsonView, Seq<char>>(
                "unexpected response from "@ + url + ": "@ + error,
            ),
        },
{
    text::law_leading_blanks_are_trimmed(body, blank);
}

/// A call either searches or reads a page, never both and never neither; what
/// is sought is what was said, without the white space around it.
pub proof fn law_calls_search_or_read(
    search: Option<Seq<char>>,
    page: Option<Seq<char>>,
    limit: Option<u64>,
    max_chars: Option<u64>,
    refresh: Option<bool>,
)
    ensures
        ({
            let asked = asked_for(search, page, limit, max_chars, refresh);
            &&& asked is Ok <==> (search is Some && page is None && trimmed(search->0).len() > 0)
                || (page is Some && search is None && trimmed(page->0).len() > 0)
            &&& asked matches Ok(WikiRequest::Search { query, limit: most }) ==> {
                &&& search is Some
                &&& query == trimmed(search->0)
                &&& most == search_limit(limit)
            }
            &&& asked matches Ok(WikiRequest::Page { title, max_chars: most, refresh: live }) ==> {
                &&& page is Some
                &&& title == trimmed(page->0)
                &&& most == budget(max_chars)
                &&& live <==> refresh == Some(true)
            }
        }),
{
}

/// The arguments of a call are what stands under their names.
pub proof fn law_wiki_arguments_are_read(
    args: JsonView,
    game: Game,
    search: Option<Seq<char>>,
    page: Option<Seq<char>>,
    limit: Option<u64>,
    max_chars: Option<u64>,
    refresh: Option<bool>,
)
    requires
        args is Object,
        required_game(member(args, "game"@), "game"@) == Ok::<Game, Seq<char>>(game),
        at_key(args, "search"@) == match search {
            Some(query) => JsonView::Text(query),
            None => JsonView::Null,
        },
        at_key(args, "page"@) == match page {
            Some(title) => JsonView::Text(title),
            None => JsonView::Null,
        },
        at_key(args, "limit"@) == match limit {
            Some(n) => JsonView::Unsigned(n),
            None => JsonView::Null,
        },
        limit is Some ==> limit->0 <= u32::MAX,
        at_key(args, "max_chars"@) == match max_chars {
            Some(n) => JsonView::Unsigned(n),
            None => JsonView::Null,
        },
        at_key(args, "refresh"@) == match refresh {
            Some(flag) => JsonView::Bool(flag),
            None => JsonView::Null,
        },
    ensures
        wiki_args_in(args) == match asked_for(search, page, limit, max_chars, refresh) {
            Ok(request) => Ok::<(Game, WikiRequest), Seq<char>>((game, request)),
            Err(error) => Err(error),
        },
{
}

/// Arguments may come as a list too, in the order game, search, page, limit,
/// max_chars, refresh: a list says what the object with these members says.
pub proof fn law_wiki_arguments_may_be_a_list(items: Seq<JsonView>)
    requires
        items.len() == 6,
    ensures
        ({
            let named = put(no_members(), "game"@, items[0]);
            let named = put(named, "search"@, items[1]);
            let named = put(named, "page"@, items[2]);
            let named = put(named, "limit"@, items[3]);
            let named = put(named, "max_chars"@, items[4]);
            let named = put(named, "refresh"@, items[5]);
            wiki_args_in(JsonView::Array(items)) == wiki_args_in(named)
        }),
{
    reveal_strlit("game");
    reveal_strlit("search");
    reveal_strlit("page");
    reveal_strlit("limit");
    reveal_strlit("max_chars");
    reveal_strlit("refresh");
    assert("game"@.len() == 4);
    assert("search"@.len() == 6);
    assert("page"@.len() == 4);
    assert("limit"@.len() == 5);
    assert("max_chars"@.len() == 9);
    assert("refresh"@.len() == 7);
    assert("game"@[0] != "page"@[0]);
}

/// A result holds the section under its key, beside the game and the time; a
/// section that could not be had is the failure.
pub proof fn law_wiki_results_hold_their_section(
    game: Game,
    stamp: Seq<char>,
    key: Seq<char>,
    section: Result<JsonView, Seq<char>>,
)
    requires
        key == "search"@ || key == "page"@,
    ensures
        section matches Err(error) ==> wiki_answer(game, stamp, key, section) == Err::<
            Seq<char>,
            Fault,
        >(Fault::Failed(error)),
        section is Ok ==> exists|result: JsonView|
            {
                &&& wiki_answer(game, stamp, key, section) == Ok::<Seq<char>, Fault>(
                    #[trigger] printed(result),
                )
                &&& at_key(result, key) == section->Ok_0
                &&& at_key(result, "fetched_at"@) == JsonView::Text(stamp)
                &&& at_key(result, "game"@) == JsonView::Text(
                    match game {
                        Game::Poe1 => "poe1"@,
                        Game::Poe2 => "poe2"@,
                    },
                )
            },
{
    reveal_strlit("game");
    reveal_strlit("fetched_at");
    reveal_strlit("search");
    reveal_strlit("page");
    assert("game"@.len() == 4);
    assert("fetched_at"@.len() == 10);
    assert("search"@.len() == 6);
    assert("page"@.len() == 4);
    assert("game"@[0] != "page"@[0]);
    if section is Ok {
        let head = put(no_members(), "game"@, JsonView::Text(game_id(game)));
        let result = put(put(head, "fetched_at"@, JsonView::Text(stamp)), key, section->Ok_0);
        assert(wiki_answer(game, stamp, key, section) == Ok::<Seq<char>, Fault>(printed(result)));
    }
}

/// A page that the store has, and that is younger than pages live, is served
/// as it was stored, with the time that it was retrieved at, unless it is
/// asked for live.
pub proof fn law_young_pages_are_served_as_stored(
    cache: VintageCache,
    url: Seq<char>,
    stored: StoredPageView,
    page: PageResult,
)
    requires
        cache.came_to(url, false, Some(stored), page),
        stored.age_secs < cache.ttl(),
    ensures
        page is Ok,
        page->Ok_0.from_cache,
        page->Ok_0.body == stored.body,
        page->Ok_0.retrieved_at == stored.retrieved_at,
{
}

/// A page that the store lacks, or that is as old as pages live, or that is
/// asked for live, is fetched, and what was fetched is handed to the store
/// with the time that it was retrieved at.
pub proof fn law_other_pages_are_fetched_and_kept(
    cache: VintageCache,
    url: Seq<char>,
    refresh: bool,
    stored: Option<StoredPageView>,
    page: PageResult,
)
    requires
        cache.came_to(url, refresh, stored, page),
        refresh || stored is None || stored->0.age_secs >= cache.ttl(),
    ensures
        page matches Err(error) ==> cache.source().may_give(url, Err(error)),
        page matches Ok(page) ==> {
            &&& !page.from_cache
            &&& cache.source().may_give(url, Ok(page.body))
            &&& cache.shelf().value.may_keep(url, page.body, page.retrieved_at)
        },
{
}

/// The arguments of a call, in the order in which a list gives them.
pub proof fn law_wiki_arguments_have_their_places()
    ensures
        wiki_names().len() == 6,
        wiki_names()[0] == "game"@,
        wiki_names()[1] == "search"@,
        wiki_names()[2] == "page"@,
        wiki_names()[3] == "limit"@,
        wiki_names()[4] == "max_chars"@,
        wiki_names()[5] == "refresh"@,
{
}

/// A search is asked live of the wiki's search, a page of the page cache, each
/// with what the request says, and told under its own key.
pub proof fn law_requests_are_answered_in_kind(
    tool: WikiTool,
    game: Game,
    request: WikiRequest,
    stamp: Seq<char>,
    reply: Fetched,
    page: PageResult,
    answer: Answer,
)
    requires
        tool.answers(game, request, stamp, reply, page, answer),
    ensures
        request matches WikiRequest::Search { query, limit } ==> {
            let url = search_url(game, query, limit);
            &&& tool.pages().source().may_give(url, reply)
            &&& reply matches Err(error) ==> answer == Err::<Seq<char>, Fault>(
                Fault::Failed(error),
            )
            &&& reply matches Ok(body) ==> (api_json(body, url) matches Ok(response) ==> answer
                == wiki_answer(game, stamp, "search"@, search_section(query, url, response)))
        },
        request matches WikiRequest::Page { title, max_chars, refresh } ==> {
            let url = page_url(game, title);
            &&& tool.pages().may_get(url, refresh, page)
            &&& page matches Err(error) ==> answer == Err::<Seq<char>, Fault>(
                Fault::Failed(error),
            )
            &&& page matches Ok(got) ==> (api_json(got.body, url) matches Ok(response) ==> answer
                == wiki_answer(
                game,
                stamp,
                "page"@,
                page_section(title, max_chars, url, got, response),
            ))
        },
{
}

/// Of wrong arguments the first is told, by its name and what it should be.
pub proof fn law_wrong_wiki_arguments_are_named(args: JsonView)
    requires
        args is Object,
        required_game(member(args, "game"@), "game"@) is Ok,
    ensures
        !(at_key(args, "search"@) is Text || at_key(args, "search"@) is Null) ==> wiki_args_in(args) == Err::<(Game, WikiRequest), Seq<char>>(
            "invalid value for `"@ + "search"@ + "`, expected "@ + "a string"@,
        ),
        (at_key(args, "search"@) is Text || at_key(args, "search"@) is Null)
            && !(at_key(args, "page"@) is Text || at_key(args, "page"@) is Null)
            ==> wiki_args_in(args) == Err::<(Game, WikiRequest), Seq<char>>(
            "invalid value for `"@ + "page"@ + "`, expected "@ + "a string"@,
        ),
        (at_key(args, "search"@) is Text || at_key(args, "search"@) is Null)
            && (at_key(args, "page"@) is Text || at_key(args, "page"@) is Null)
            && !(at_key(args, "limit"@) is Unsigned || at_key(args, "limit"@) is Null)
            ==> wiki_args_in(args) == Err::<(Game, WikiRequest), Seq<char>>(
            "invalid value for `"@ + "limit"@ + "`, expected "@ + "a whole number"@,
        ),
        (at_key(args, "search"@) is Text || at_key(args, "search"@) is Null)
            && (at_key(args, "page"@) is Text || at_key(args, "page"@) is Null)
            && (at_key(args, "limit"@) is Unsigned || at_key(args, "limit"@) is Null)
            && !(at_key(args, "limit"@) matches JsonView::Unsigned(n)
            ==> n <= u32::MAX) ==> wiki_args_in(args) == Err::<(Game, WikiRequest), Seq<char>>(
            "invalid value for `"@ + "limit"@ + "`, expected "@ + "a whole number of 32 bits"@,
        ),
        (at_key(args, "search"@) is Text || at_key(args, "search"@) is Null)
            && (at_key(args, "page"@) is Text || at_key(args, "page"@) is Null)
            && (at_key(args, "limit"@) is Unsigned || at_key(args, "limit"@) is Null)
            && (at_key(args, "limit"@) matches JsonView::Unsigned(n)
            ==> n <= u32::MAX) && !(at_key(args, "max_chars"@) is Unsigned || at_key(args, "max_chars"@) is Null) ==> wiki_args_in(args) == Err::<(Game, WikiRequest), Seq<char>>(
            "invalid value for `"@ + "max_chars"@ + "`, expected "@ + "a whole number"@,
        ),
        (at_key(args, "search"@) is Text || at_key(args, "search"@) is Null)
            && (at_key(args, "page"@) is Text || at_key(args, "page"@) is Null)
            && (at_key(args, "limit"@) is Unsigned || at_key(args, "limit"@) is Null)
            && (at_key(args, "limit"@) matches JsonView::Unsigned(n)
            ==> n <= u32::MAX) && (at_key(args, "max_chars"@) is Unsigned || at_key(args, "max_chars"@) is Null) && !(at_key(args, "refresh"@) is Bool || at_key(args, "refresh"@) is Null) ==> wiki_args_in(args) == Err::<(Game, WikiRequest), Seq<char>>(
            "invalid value for `"@ + "refresh"@ + "`, expected "@ + "a boolean"@,
        ),
{
}

/// A call without anything to seek is refused, and told what it lacks.
pub proof fn law_empty_wiki_calls_are_told(
    said: Seq<char>,
    limit: Option<u64>,
    max_chars: Option<u64>,
    refresh: Option<bool>,
)
    ensures
        trimmed(said).len() == 0 ==> asked_for(Some(said), None, limit, max_chars, refresh)
            == Err::<WikiRequest, Seq<char>>("`search` must not be empty"@),
        trimmed(said).len() == 0 ==> asked_for(None, Some(said), limit, max_chars, refresh)
            == Err::<WikiRequest, Seq<char>>("`page` must not be empty"@),
        asked_for(None, None, limit, max_chars, refresh) == Err::<WikiRequest, Seq<char>>(
            "provide exactly one of `search` or `page`"@,
        ),
        asked_for(Some(said), Some(said), limit, max_chars, refresh) == Err::<
            WikiRequest,
            Seq<char>,
        >("provide exactly one of `search` or `page`"@),
{
}

/// What the wiki does not word, and what it does not give, is told with where
/// it was sought.
pub proof fn law_silent_wiki_failures_are_told(
    query: Seq<char>,
    title: Seq<char>,
    max_chars: u64,
    url: Seq<char>,
    page: PageFetchView,
    response: JsonView,
)
    ensures
        member(response, "error"@) matches Some(error) ==> (!(at_key(error, "info"@) is Text) ==> {
            &&& search_section(query, url, response) == Err::<JsonView, Seq<char>>(
                "wiki search failed: "@ + "unknown wiki API error"@,
            )
            &&& page_section(title, max_chars, url, page, response) == Err::<JsonView, Seq<char>>(
                "wiki page fetch failed for `"@ + title + "`: "@ + "unknown wiki API error"@,
            )
        }),
        member(response, "error"@) is None && !(at_key(at_key(response, "query"@), "search"@)
            is Array) ==> search_section(query, url, response) == Err::<JsonView, Seq<char>>(
            "no search results field from "@ + url,
        ),
        member(response, "error"@) is None && !(at_key(at_key(response, "parse"@), "text"@)
            is Text) ==> page_section(title, max_chars, url, page, response) == Err::<
            JsonView,
            Seq<char>,
        >("no page text in response from "@ + url),
{
}

}
