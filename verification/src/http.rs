//! Fetching over HTTP, behind a seam: the trait that tools fetch through, a
//! cache over it, and doubles for tests.

use vstd::prelude::*;
use vstd::rwlock::{RwLock, RwLockPredicate};

use crate::held::{hold, Held};
use crate::text;
use crate::text::occurs;
use crate::toolkit::{describe_get_failure, get_failure};

verus! {

/// What a request came to: a body, or why there is none.
pub type Fetched = Result<Seq<char>, Seq<char>>;

/// What the value of a request says.
pub open spec fn fetched(reply: Result<String, String>) -> Fetched {
    match reply {
        Ok(body) => Ok(body@),
        Err(error) => Err(error@),
    }
}

/// Minimal HTTP-GET abstraction so tools can be tested with canned
/// responses and never touch the network in unit tests.
pub trait HttpGet: Send + Sync {
    /// Whether fetching `url` may come to `reply`. Of a client that says no
    /// more, anything may come.
    open spec fn may_give(&self, url: Seq<char>, reply: Fetched) -> bool {
        true
    }

    /// Fetch `url`, returning the response body on success.
    fn get(&self, url: &str) -> (reply: Result<String, String>)
        ensures
            self.may_give(url@, fetched(reply)),
    ;
}

/// Serves canned bodies by URL substring; unmatched URLs fail.
pub struct FakeHttp {
    /// `(url substring, response body)` pairs, first match wins.
    pub routes: Vec<(&'static str, &'static str)>,
}

/// What routes from `i` on serve for `url`.
pub open spec fn routed(
    routes: Seq<(&'static str, &'static str)>,
    url: Seq<char>,
    i: int,
) -> Fetched
    decreases routes.len() - i,
{
    if i < 0 || i >= routes.len() {
        Err(get_failure(url, "no route"@))
    } else if occurs(url, routes[i].0@) {
        Ok(routes[i].1@)
    } else {
        routed(routes, url, i + 1)
    }
}

impl HttpGet for FakeHttp {
    open spec fn may_give(&self, url: Seq<char>, reply: Fetched) -> bool {
        reply == routed(self.routes@, url, 0)
    }

    fn get(&self, url: &str) -> (reply: Result<String, String>) {
        let mut i: usize = 0;
        while i < self.routes.len()
            invariant
                i <= self.routes@.len(),
                routed(self.routes@, url@, 0) == routed(self.routes@, url@, i as int),
            decreases self.routes@.len() - i,
        {
            if text::contains(url, self.routes[i].0) {
                return Ok(self.routes[i].1.to_owned());
            }
            i += 1;
        }
        Err(describe_get_failure(url, "no route"))
    }
}

/// Fails every request, connection-refused style.
pub struct FailHttp;

impl HttpGet for FailHttp {
    open spec fn may_give(&self, url: Seq<char>, reply: Fetched) -> bool {
        reply == Err::<Seq<char>, Seq<char>>(get_failure(url, "connection refused"@))
    }

    fn get(&self, url: &str) -> (reply: Result<String, String>) {
        Err(describe_get_failure(url, "connection refused"))
    }
}

/// A body in the cache.
struct CacheEntry {
    url: String,
    stored_at: u128,
    body: String,
}

/// What a [`CacheEntry`] holds.
pub ghost struct EntryView {
    /// The URL that was fetched.
    pub url: Seq<char>,
    /// When, in nanoseconds since the cache was made.
    pub stored_at: u128,
    /// The body.
    pub body: Seq<char>,
}

impl View for CacheEntry {
    type V = EntryView;

    closed spec fn view(&self) -> EntryView {
        EntryView { url: self.url@, stored_at: self.stored_at, body: self.body@ }
    }
}

/// Whether an entry is younger than `ttl` at the time `now`.
pub open spec fn is_fresh(entry: EntryView, now: u128, ttl: u128) -> bool {
    now - entry.stored_at < ttl && 0 < ttl
}

/// The entries that storing a body for `url` keeps: those that are fresh and
/// of another URL.
pub open spec fn kept(entries: Seq<EntryView>, url: Seq<char>, now: u128, ttl: u128) -> Seq<
    EntryView,
>
    decreases entries.len(),
{
    if entries.len() == 0 {
        seq![]
    } else {
        let before = kept(entries.drop_last(), url, now, ttl);
        let entry = entries.last();
        if is_fresh(entry, now, ttl) && entry.url != url {
            before.push(entry)
        } else {
            before
        }
    }
}

/// The entries after storing a body.
pub open spec fn stored(
    entries: Seq<EntryView>,
    url: Seq<char>,
    now: u128,
    ttl: u128,
    body: Seq<char>,
) -> Seq<EntryView> {
    kept(entries, url, now, ttl).push(EntryView { url, stored_at: now, body })
}

/// The fresh body for `url`, from entry `i` on.
pub open spec fn found(
    entries: Seq<EntryView>,
    url: Seq<char>,
    now: u128,
    ttl: u128,
    i: int,
) -> Option<Seq<char>>
    decreases entries.len() - i,
{
    if i < 0 || i >= entries.len() {
        None
    } else if entries[i].url == url && is_fresh(entries[i], now, ttl) {
        Some(entries[i].body)
    } else {
        found(entries, url, now, ttl, i + 1)
    }
}

/// Bodies by URL, each with the time at which it was stored.
pub struct Cache {
    entries: Vec<CacheEntry>,
}

impl View for Cache {
    type V = Seq<EntryView>;

    closed spec fn view(&self) -> Seq<EntryView> {
        self.entries@.map_values(|entry: CacheEntry| entry@)
    }
}

impl Cache {
    /// A cache without bodies.
    pub fn new() -> (cache: Self)
        ensures
            cache@ == Seq::<EntryView>::empty(),
    {
        let cache = Cache { entries: Vec::new() };
        assert(cache@ =~= Seq::<EntryView>::empty());
        cache
    }

    /// How many bodies the cache holds.
    pub fn len(&self) -> (n: usize)
        ensures
            n == self@.len(),
    {
        self.entries.len()
    }

    /// The body for `url`, if one is stored that is younger than `ttl`.
    pub fn lookup(&self, url: &str, now: u128, ttl: u128) -> (body: Option<String>)
        ensures
            match body {
                Some(body) => found(self@, url@, now, ttl, 0) == Some(body@),
                None => found(self@, url@, now, ttl, 0) is None,
            },
    {
        let mut i: usize = 0;
        while i < self.entries.len()
            invariant
                i <= self.entries@.len(),
                found(self@, url@, now, ttl, 0) == found(self@, url@, now, ttl, i as int),
            decreases self.entries@.len() - i,
        {
            let entry = &self.entries[i];
            assert(self@[i as int] == entry@);
            if text::same(entry.url.as_str(), url) && younger(entry.stored_at, now, ttl) {
                return Some(entry.body.clone());
            }
            i += 1;
        }
        None
    }

    /// Settle what a fetch for `url` gave: store a body, never an error.
    pub fn settle(&mut self, url: &str, now: u128, ttl: u128, reply: &Result<String, String>)
        ensures
            final(self)@ == settled(old(self)@, url@, now, ttl, fetched(*reply)),
    {
        if let Ok(body) = reply {
            self.store(url, now, ttl, body.as_str());
        }
    }

    /// Store a body for `url`, in place of an earlier one, and drop every
    /// body that is not younger than `ttl`.
    pub fn store(&mut self, url: &str, now: u128, ttl: u128, body: &str)
        ensures
            final(self)@ == stored(old(self)@, url@, now, ttl, body@),
    {
        let ghost all = self@;
        let mut entries: Vec<CacheEntry> = Vec::new();
        let ghost mut views: Seq<EntryView> = seq![];
        let mut i: usize = 0;
        assert(kept(all.take(0), url@, now, ttl) =~= views);
        while i < self.entries.len()
            invariant
                *self == *old(self),
                all == self@,
                i <= self.entries@.len(),
                entries@.map_values(|entry: CacheEntry| entry@) == views,
                views == kept(all.take(i as int), url@, now, ttl),
            decreases self.entries@.len() - i,
        {
            let entry = &self.entries[i];
            proof {
                assert(all.take(i + 1).drop_last() =~= all.take(i as int));
                assert(all.take(i + 1).last() == entry@);
            }
            if younger(entry.stored_at, now, ttl) && !text::same(entry.url.as_str(), url) {
                let ghost held = entries@;
                let copy = CacheEntry {
                    url: entry.url.clone(),
                    stored_at: entry.stored_at,
                    body: entry.body.clone(),
                };
                entries.push(copy);
                proof {
                    assert(copy@ == entry@);
                    views = views.push(entry@);
                    assert(entries@.map_values(|entry: CacheEntry| entry@) =~= views);
                }
            }
            i += 1;
        }
        assert(all.take(i as int) =~= all);
        let added = CacheEntry { url: url.to_owned(), stored_at: now, body: body.to_owned() };
        entries.push(added);
        assert(entries@.map_values(|entry: CacheEntry| entry@) =~= views.push(added@));
        self.entries = entries;
    }
}

/// The entries after a fetch for `url` gave `reply`: a body is stored, an
/// error is not.
pub open spec fn settled(
    entries: Seq<EntryView>,
    url: Seq<char>,
    now: u128,
    ttl: u128,
    reply: Fetched,
) -> Seq<EntryView> {
    match reply {
        Ok(body) => stored(entries, url, now, ttl, body),
        Err(_) => entries,
    }
}

/// What a request through a cache comes to: the entries behind it, and the
/// reply. A fresh body is served at the time `asked`, and nothing changes;
/// otherwise `reply`, which the fetch gave, is settled at the time `kept_at`
/// among the entries that are there by then, and given as it is.
pub open spec fn served(
    entries: Seq<EntryView>,
    url: Seq<char>,
    asked: u128,
    settling: Seq<EntryView>,
    kept_at: u128,
    ttl: u128,
    reply: Fetched,
) -> (Seq<EntryView>, Fetched) {
    match found(entries, url, asked, ttl, 0) {
        Some(body) => (entries, Ok(body)),
        None => (settled(settling, url, kept_at, ttl, reply), reply),
    }
}

/// Whether something stored at `stored_at` is younger than `ttl` at `now`.
fn younger(stored_at: u128, now: u128, ttl: u128) -> (yes: bool)
    ensures
        yes == (now - stored_at < ttl && 0 < ttl),
{
    if ttl == 0 {
        false
    } else if now <= stored_at {
        true
    } else {
        now - stored_at < ttl
    }
}

/// What is kept is fresh, of another URL, and was there before.
pub proof fn law_expired_bodies_are_evicted(
    entries: Seq<EntryView>,
    url: Seq<char>,
    now: u128,
    ttl: u128,
)
    ensures
        forall|i: int|
            0 <= i < kept(entries, url, now, ttl).len() ==> {
                let entry = #[trigger] kept(entries, url, now, ttl)[i];
                is_fresh(entry, now, ttl) && entry.url != url && entries.contains(entry)
            },
        kept(entries, url, now, ttl).len() <= entries.len(),
    decreases entries.len(),
{
    if entries.len() > 0 {
        let before = entries.drop_last();
        law_expired_bodies_are_evicted(before, url, now, ttl);
        assert forall|i: int| 0 <= i < kept(entries, url, now, ttl).len() implies {
            let entry = #[trigger] kept(entries, url, now, ttl)[i];
            is_fresh(entry, now, ttl) && entry.url != url && entries.contains(entry)
        } by {
            let entry = kept(entries, url, now, ttl)[i];
            if i < kept(before, url, now, ttl).len() {
                assert(kept(before, url, now, ttl)[i] == entry);
                let k = choose|k: int| 0 <= k < before.len() && before[k] == entry;
                assert(entries[k] == entry);
            } else {
                assert(entries[entries.len() - 1] == entry);
            }
        }
    }
}

/// Without a time to live nothing outlasts the next body that is stored.
pub proof fn law_zero_ttl_keeps_only_the_last(
    entries: Seq<EntryView>,
    url: Seq<char>,
    now: u128,
    body: Seq<char>,
)
    ensures
        stored(entries, url, now, 0, body) == seq![EntryView { url, stored_at: now, body }],
{
    law_expired_bodies_are_evicted(entries, url, now, 0);
    if kept(entries, url, now, 0).len() > 0 {
        assert(is_fresh(kept(entries, url, now, 0)[0], now, 0));
    }
    assert(stored(entries, url, now, 0, body) =~= seq![EntryView { url, stored_at: now, body }]);
}

/// A body that was stored is served for its URL until it is as old as the
/// time to live, and not from then on.
pub proof fn law_stored_body_is_served(
    entries: Seq<EntryView>,
    url: Seq<char>,
    now: u128,
    ttl: u128,
    body: Seq<char>,
    later: u128,
)
    requires
        now <= later,
    ensures
        found(stored(entries, url, now, ttl, body), url, later, ttl, 0) == if later - now < ttl {
            Some(body)
        } else {
            None
        },
{
    let all = stored(entries, url, now, ttl, body);
    law_expired_bodies_are_evicted(entries, url, now, ttl);
    let last = all.len() - 1;
    lemma_found_skips(all, url, later, ttl, 0, last);
    assert(found(all, url, later, ttl, last + 1) is None);
}

/// One of the requests of a history.
pub ghost struct Asked {
    /// The URL.
    pub url: Seq<char>,
    /// When it was made.
    pub asked: u128,
    /// When the fetch was settled, if there was one.
    pub kept_at: u128,
    /// What a fetch gave, or would have given.
    pub gave: Fetched,
    /// What the request was answered.
    pub reply: Fetched,
}

/// Whether the requests were made one behind the other through a cache that
/// began empty, with the entries before and behind each of them.
pub open spec fn is_history(
    ttl: u128,
    requests: Seq<Asked>,
    states: Seq<Seq<EntryView>>,
) -> bool {
    &&& states.len() == requests.len() + 1
    &&& states[0] == Seq::<EntryView>::empty()
    &&& forall|i: int|
        0 <= i < requests.len() ==> {
            let r = #[trigger] requests[i];
            &&& r.asked <= r.kept_at
            &&& i > 0 ==> requests[i - 1].kept_at <= r.asked
            &&& (states[i + 1], r.reply) == served(
                states[i],
                r.url,
                r.asked,
                states[i],
                r.kept_at,
                ttl,
                r.gave,
            )
        }
}

/// Whether a request was answered by a fetch that gave a body, which was
/// stored.
pub open spec fn was_stored(
    ttl: u128,
    requests: Seq<Asked>,
    states: Seq<Seq<EntryView>>,
    i: int,
) -> bool {
    found(states[i], requests[i].url, requests[i].asked, ttl, 0) is None && requests[i].gave is Ok
}

/// The latest of the first `n` requests that stored a body for a URL.
pub open spec fn latest_stored(
    ttl: u128,
    requests: Seq<Asked>,
    states: Seq<Seq<EntryView>>,
    url: Seq<char>,
    n: nat,
) -> Option<int>
    decreases n,
{
    if n == 0 {
        None
    } else if requests[n - 1].url == url && was_stored(ttl, requests, states, n - 1) {
        Some(n - 1)
    } else {
        latest_stored(ttl, requests, states, url, (n - 1) as nat)
    }
}

/// The body that a URL is served at a time, by the latest request that stored
/// one: as long as it is younger than the time to live.
pub open spec fn still_fresh(
    ttl: u128,
    requests: Seq<Asked>,
    states: Seq<Seq<EntryView>>,
    url: Seq<char>,
    n: nat,
    now: u128,
) -> Option<Seq<char>> {
    match latest_stored(ttl, requests, states, url, n) {
        Some(k) => if now - requests[k].kept_at < ttl {
            Some(requests[k].gave->Ok_0)
        } else {
            None
        },
        None => None,
    }
}

/// Over any history, a request is answered with the body that the latest
/// fetch for its URL stored, without a fetch, as long as that is younger than
/// the time to live; otherwise with what one fetch gives, as it is. Neither
/// errors nor the bodies of other URLs are ever served.
pub proof fn law_requests_are_served_while_fresh(
    ttl: u128,
    requests: Seq<Asked>,
    states: Seq<Seq<EntryView>>,
    n: int,
)
    requires
        is_history(ttl, requests, states),
        0 <= n < requests.len(),
    ensures
        match still_fresh(
            ttl,
            requests,
            states,
            requests[n].url,
            n as nat,
            requests[n].asked,
        ) {
            Some(body) => requests[n].reply == Ok::<Seq<char>, Seq<char>>(body) && states[n + 1]
                == states[n] && !was_stored(ttl, requests, states, n),
            None => requests[n].reply == requests[n].gave && (was_stored(ttl, requests, states, n)
                <==> requests[n].gave is Ok),
        },
{
    let r = requests[n];
    lemma_history(ttl, requests, states, n, r.url, r.asked);
}

/// Behind the first `n` requests a URL is found if and only if its latest body
/// is fresh.
proof fn lemma_history(
    ttl: u128,
    requests: Seq<Asked>,
    states: Seq<Seq<EntryView>>,
    n: int,
    url: Seq<char>,
    now: u128,
)
    requires
        is_history(ttl, requests, states),
        0 <= n <= requests.len(),
        n > 0 ==> requests[n - 1].kept_at <= now,
    ensures
        found(states[n], url, now, ttl, 0) == still_fresh(
            ttl,
            requests,
            states,
            url,
            n as nat,
            now,
        ),
    decreases n,
{
    if n > 0 {
        let r = requests[n - 1];
        assert(r.asked <= r.kept_at);
        if n > 1 {
            assert(requests[n - 2].kept_at <= r.asked);
        }
        lemma_history(ttl, requests, states, n - 1, url, now);
        if was_stored(ttl, requests, states, n - 1) {
            let body = r.gave->Ok_0;
            assert(states[n - 1 + 1] == stored(states[n - 1], r.url, r.kept_at, ttl, body));
            if r.url == url {
                law_stored_body_is_served(states[n - 1], url, r.kept_at, ttl, body, now);
            } else {
                lemma_others_stay(states[n - 1], r.url, r.kept_at, ttl, body, url, now);
            }
        } else {
            assert(states[n - 1 + 1] == states[n - 1]);
        }
    }
}

/// What one more entry adds to what is found.
proof fn lemma_found_push(
    entries: Seq<EntryView>,
    entry: EntryView,
    url: Seq<char>,
    now: u128,
    ttl: u128,
    from: int,
)
    requires
        0 <= from <= entries.len(),
    ensures
        found(entries.push(entry), url, now, ttl, from) == match found(
            entries,
            url,
            now,
            ttl,
            from,
        ) {
            Some(body) => Some(body),
            None => if entry.url == url && is_fresh(entry, now, ttl) {
                Some(entry.body)
            } else {
                None
            },
        },
    decreases entries.len() - from,
{
    let all = entries.push(entry);
    if from < entries.len() {
        assert(all[from] == entries[from]);
        lemma_found_push(entries, entry, url, now, ttl, from + 1);
    } else {
        assert(all[from] == entry);
        assert(found(all, url, now, ttl, from + 1) is None);
    }
}

/// Storing a body for one URL leaves what is found for another.
proof fn lemma_others_stay(
    entries: Seq<EntryView>,
    url: Seq<char>,
    kept_at: u128,
    ttl: u128,
    body: Seq<char>,
    other: Seq<char>,
    now: u128,
)
    requires
        other != url,
        kept_at <= now,
    ensures
        found(stored(entries, url, kept_at, ttl, body), other, now, ttl, 0) == found(
            entries,
            other,
            now,
            ttl,
            0,
        ),
{
    lemma_kept_stay(entries, url, kept_at, ttl, other, now);
    lemma_found_push(
        kept(entries, url, kept_at, ttl),
        EntryView { url, stored_at: kept_at, body },
        other,
        now,
        ttl,
        0,
    );
}

proof fn lemma_kept_stay(
    entries: Seq<EntryView>,
    url: Seq<char>,
    kept_at: u128,
    ttl: u128,
    other: Seq<char>,
    now: u128,
)
    requires
        other != url,
        kept_at <= now,
    ensures
        found(kept(entries, url, kept_at, ttl), other, now, ttl, 0) == found(
            entries,
            other,
            now,
            ttl,
            0,
        ),
    decreases entries.len(),
{
    if entries.len() > 0 {
        let before = entries.drop_last();
        let entry = entries.last();
        lemma_kept_stay(before, url, kept_at, ttl, other, now);
        assert(before.push(entry) =~= entries);
        lemma_found_push(before, entry, other, now, ttl, 0);
        lemma_found_push(kept(before, url, kept_at, ttl), entry, other, now, ttl, 0);
    } else {
        assert(kept(entries, url, kept_at, ttl) =~= entries);
    }
}

/// A body that is served is fresh, and is one that was stored for its URL.
pub proof fn law_served_bodies_belong_to_their_url(
    entries: Seq<EntryView>,
    url: Seq<char>,
    now: u128,
    ttl: u128,
)
    requires
        found(entries, url, now, ttl, 0) is Some,
    ensures
        exists|i: int|
            0 <= i < entries.len() && (#[trigger] entries[i]).url == url && is_fresh(
                entries[i],
                now,
                ttl,
            ) && entries[i].body == found(entries, url, now, ttl, 0)->0,
{
    let i = lemma_found_at(entries, url, now, ttl, 0);
    assert(entries[i].url == url);
}

proof fn lemma_found_at(
    entries: Seq<EntryView>,
    url: Seq<char>,
    now: u128,
    ttl: u128,
    from: int,
) -> (i: int)
    requires
        0 <= from,
        found(entries, url, now, ttl, from) is Some,
    ensures
        from <= i < entries.len(),
        entries[i].url == url,
        is_fresh(entries[i], now, ttl),
        entries[i].body == found(entries, url, now, ttl, from)->0,
    decreases entries.len() - from,
{
    if entries[from].url == url && is_fresh(entries[from], now, ttl) {
        from
    } else {
        lemma_found_at(entries, url, now, ttl, from + 1)
    }
}

proof fn lemma_found_skips(
    entries: Seq<EntryView>,
    url: Seq<char>,
    now: u128,
    ttl: u128,
    from: int,
    to: int,
)
    requires
        0 <= from <= to <= entries.len(),
        forall|i: int| from <= i < to ==> (#[trigger] entries[i]).url != url,
    ensures
        found(entries, url, now, ttl, from) == found(entries, url, now, ttl, to),
    decreases to - from,
{
    if from < to {
        lemma_found_skips(entries, url, now, ttl, from + 1, to);
    }
}

/// A moment, as the system's steady clock gives it.
#[verifier::external_type_specification]
#[verifier::external_body]
pub struct ExInstant(std::time::Instant);

/// The moment of the call, from std's steady clock. Nothing is said of which
/// moment that is.
pub assume_specification[ std::time::Instant::now ]() -> std::time::Instant
;

/// The nanoseconds since `start`: `Instant::elapsed`, as a number. Nothing is
/// said of how many they are.
#[verifier::external_body]
fn nanos_since(start: &std::time::Instant) -> (nanos: u128)
{
    start.elapsed().as_nanos()
}

/// That every body in a cache is one that `inner` gave for its URL, and that
/// only the last one is there where bodies do not live at all.
pub struct Genuine {
    inner: Ghost<Held<Box<dyn HttpGet>>>,
    ttl_nanos: Ghost<u128>,
}

/// Whether every entry is one that `inner` may give.
pub open spec fn all_genuine(inner: Held<Box<dyn HttpGet>>, entries: Seq<EntryView>) -> bool {
    forall|i: int|
        0 <= i < entries.len() ==> inner.value.may_give(
            (#[trigger] entries[i]).url,
            Ok(entries[i].body),
        )
}

impl RwLockPredicate<Cache> for Genuine {
    closed spec fn inv(self, cache: Cache) -> bool {
        all_genuine(self.inner@, cache@) && (self.ttl_nanos@ == 0 ==> cache@.len() <= 1)
    }
}

/// TTL response cache over an [`HttpGet`], for endpoints whose data is
/// server-cached anyway (economy snapshots, say): repeat lookups within the
/// window are served locally, which is both faster and the polite client
/// behavior the services ask for. Successful bodies are cached per URL; errors
/// are never cached. Expired entries are evicted on insert, bounding the cache
/// to URLs fetched within one TTL window (bodies run to hundreds of
/// kilobytes).
pub struct CachedHttp {
    inner: Held<Box<dyn HttpGet>>,
    cache: RwLock<Cache, Genuine>,
    start: std::time::Instant,
    ttl_nanos: u128,
}

impl CachedHttp {
    #[verifier::type_invariant]
    closed spec fn guards_inner(&self) -> bool {
        &&& self.cache.pred().inner@ == self.inner
        &&& self.cache.pred().ttl_nanos@ == self.ttl_nanos
    }

    /// What the cache fetches from.
    pub closed spec fn source(&self) -> Held<Box<dyn HttpGet>> {
        self.inner
    }

    /// How long a body lives, in nanoseconds.
    pub closed spec fn ttl(&self) -> u128 {
        self.ttl_nanos
    }

    /// Wrap `inner` with a per-URL cache; bodies live `ttl_nanos` nanoseconds.
    pub fn new(inner: Box<dyn HttpGet>, ttl_nanos: u128) -> (cached: Self)
        ensures
            cached.source().value == inner,
            cached.ttl() == ttl_nanos,
    {
        let inner = hold(inner);
        CachedHttp::over(inner, ttl_nanos)
    }

    /// Wrap what is held.
    pub(crate) fn over(inner: Held<Box<dyn HttpGet>>, ttl_nanos: u128) -> (cached: Self)
        ensures
            cached.source() == inner,
            cached.ttl() == ttl_nanos,
    {
        let cache = Cache::new();
        let ghost pred = Genuine { inner: Ghost(inner), ttl_nanos: Ghost(ttl_nanos) };
        assert(pred.inv(cache));
        let cache = RwLock::<Cache, Genuine>::new(cache, Ghost(pred));
        CachedHttp { inner, cache, start: std::time::Instant::now(), ttl_nanos }
    }

    /// How many bodies the cache holds at the moment: of those that it fetched,
    /// and at most one where bodies do not live at all.
    pub fn entry_count(&self) -> (n: usize)
        ensures
            exists|entries: Seq<EntryView>| #[trigger]
                all_genuine(self.source(), entries) && n == entries.len(),
            self.ttl() == 0 ==> n <= 1,
    {
        proof {
            use_type_invariant(self);
        }
        let handle = self.cache.acquire_read();
        let n = handle.borrow().len();
        assert(all_genuine(self.source(), handle.view()@));
        handle.release_read();
        n
    }
}

/// A request through a cache, as it went.
pub ghost struct Request {
    /// The entries when it was made.
    pub before: Seq<EntryView>,
    /// When it was made, in nanoseconds since the cache was made.
    pub asked: u128,
    /// What the fetch gave, if there was one.
    pub gave: Fetched,
    /// The entries when the fetch was settled, if there was one; those from
    /// before, unless other requests were settled meanwhile.
    pub settling: Seq<EntryView>,
    /// When that was.
    pub kept_at: u128,
    /// The entries behind it.
    pub after: Seq<EntryView>,
}

impl CachedHttp {
    /// Whether a request for `url` went so, and was answered with `reply`: it
    /// was served as [`served`] says, from entries that are all genuine, and
    /// what a fetch gave is what the source may give.
    pub open spec fn went(&self, url: Seq<char>, request: Request, reply: Fetched) -> bool {
        &&& all_genuine(self.source(), request.before)
        &&& all_genuine(self.source(), request.settling)
        &&& all_genuine(self.source(), request.after)
        &&& (request.after, reply) == served(
            request.before,
            url,
            request.asked,
            request.settling,
            request.kept_at,
            self.ttl(),
            request.gave,
        )
        &&& found(request.before, url, request.asked, self.ttl(), 0) is None
            ==> self.source().value.may_give(url, request.gave)
    }

    /// Answer a request. How it went comes back as a ghost. The lock is not
    /// held over the fetch, which may take seconds.
    pub fn request(&self, url: &str) -> (got: (Result<String, String>, Ghost<Request>))
        ensures
            self.went(url@, got.1@, fetched(got.0)),
    {
        proof {
            use_type_invariant(self);
        }
        let handle = self.cache.acquire_read();
        let ghost before = handle.view()@;
        let asked: u128 = nanos_since(&self.start);
        let cached = handle.borrow().lookup(url, asked, self.ttl_nanos);
        handle.release_read();
        if let Some(body) = cached {
            let ghost request = Request {
                before,
                asked,
                gave: Err(Seq::empty()),
                settling: before,
                kept_at: asked,
                after: before,
            };
            return (Ok(body), Ghost(request));
        }
        let reply = self.inner.value.get(url);
        let (cache, handle) = self.cache.acquire_write();
        let mut cache = cache;
        let ghost settling = cache@;
        let kept_at: u128 = nanos_since(&self.start);
        cache.settle(url, kept_at, self.ttl_nanos, &reply);
        let ghost request = Request {
            before,
            asked,
            gave: fetched(reply),
            settling,
            kept_at,
            after: cache@,
        };
        proof {
            lemma_settled_is_genuine(
                self.inner,
                settling,
                url@,
                kept_at,
                self.ttl_nanos,
                fetched(reply),
            );
        }
        handle.release_write(cache);
        (reply, Ghost(request))
    }
}

/// Settling what a source may give leaves every entry genuine, and only the
/// last one where bodies do not live at all.
proof fn lemma_settled_is_genuine(
    inner: Held<Box<dyn HttpGet>>,
    entries: Seq<EntryView>,
    url: Seq<char>,
    now: u128,
    ttl: u128,
    reply: Fetched,
)
    requires
        all_genuine(inner, entries),
        inner.value.may_give(url, reply),
        ttl == 0 ==> entries.len() <= 1,
    ensures
        all_genuine(inner, settled(entries, url, now, ttl, reply)),
        ttl == 0 ==> settled(entries, url, now, ttl, reply).len() <= 1,
{
    if let Ok(body) = reply {
        law_expired_bodies_are_evicted(entries, url, now, ttl);
        if ttl == 0 {
            law_zero_ttl_keeps_only_the_last(entries, url, now, body);
        }
        let after = stored(entries, url, now, ttl, body);
        let keeping = kept(entries, url, now, ttl);
        assert forall|i: int| 0 <= i < after.len() implies inner.value.may_give(
            (#[trigger] after[i]).url,
            Ok(after[i].body),
        ) by {
            if i < keeping.len() {
                assert(after[i] == keeping[i]);
                let k = choose|k: int| 0 <= k < entries.len() && entries[k] == keeping[i];
                assert(inner.value.may_give(entries[k].url, Ok(entries[k].body)));
            }
        }
    }
}

impl HttpGet for CachedHttp {
    /// What the cache gives is what it fetches from gives, at once or some
    /// time before; which of the two depends on the clock. How a request goes
    /// is what [`CachedHttp::request`] says.
    open spec fn may_give(&self, url: Seq<char>, reply: Fetched) -> bool {
        self.source().value.may_give(url, reply)
    }

    fn get(&self, url: &str) -> (reply: Result<String, String>) {
        let (reply, Ghost(request)) = self.request(url);
        proof {
            lemma_found_is_genuine(self.source(), request.before, url@);
        }
        reply
    }
}

/// What a tool fetches through: a client as it is, or behind a cache.
pub enum HttpSource {
    /// A client as it is.
    Direct(Held<Box<dyn HttpGet>>),
    /// A client behind a cache.
    Cached(CachedHttp),
}

impl HttpGet for HttpSource {
    open spec fn may_give(&self, url: Seq<char>, reply: Fetched) -> bool {
        match *self {
            HttpSource::Direct(client) => client.value.may_give(url, reply),
            HttpSource::Cached(client) => client.may_give(url, reply),
        }
    }

    fn get(&self, url: &str) -> (reply: Result<String, String>) {
        match self {
            HttpSource::Direct(client) => client.value.get(url),
            HttpSource::Cached(client) => client.get(url),
        }
    }
}

proof fn lemma_found_is_genuine(
    inner: Held<Box<dyn HttpGet>>,
    entries: Seq<EntryView>,
    url: Seq<char>,
)
    requires
        all_genuine(inner, entries),
    ensures
        forall|now: u128, ttl: u128|
            (#[trigger] found(entries, url, now, ttl, 0)) matches Some(body) ==> inner.value.may_give(
                url,
                Ok(body),
            ),
{
    assert forall|now: u128, ttl: u128|
        (#[trigger] found(entries, url, now, ttl, 0)) matches Some(
            body,
        ) implies inner.value.may_give(url, Ok(found(entries, url, now, ttl, 0)->0)) by {
        lemma_found_from(inner, entries, url, now, ttl, 0);
    }
}

proof fn lemma_found_from(
    inner: Held<Box<dyn HttpGet>>,
    entries: Seq<EntryView>,
    url: Seq<char>,
    now: u128,
    ttl: u128,
    i: int,
)
    requires
        0 <= i,
        all_genuine(inner, entries),
        found(entries, url, now, ttl, i) is Some,
    ensures
        inner.value.may_give(url, Ok(found(entries, url, now, ttl, i)->0)),
    decreases entries.len() - i,
{
    if !(entries[i].url == url && is_fresh(entries[i], now, ttl)) {
        lemma_found_from(inner, entries, url, now, ttl, i + 1);
    }
}

/// A body is fresh for less than its time to live.
pub proof fn law_bodies_are_fresh_for_their_time(entry: EntryView, now: u128, ttl: u128)
    requires
        entry.stored_at <= now,
    ensures
        is_fresh(entry, now, ttl) <==> now - entry.stored_at < ttl,
{
}

/// Storing a body drops what is no longer fresh and what was stored for the
/// same address, keeps all else in its order, and puts the body behind.
pub proof fn law_storing_keeps_the_rest(
    entries: Seq<EntryView>,
    url: Seq<char>,
    now: u128,
    ttl: u128,
    body: Seq<char>,
)
    ensures
        stored(entries, url, now, ttl, body) == entries.filter(
            |entry: EntryView|
                now - entry.stored_at < ttl && 0 < ttl && entry.url != url,
        ).push(EntryView { url, stored_at: now, body }),
{
    lemma_kept(entries, url, now, ttl);
}

/// What is kept is what a test of each would keep.
proof fn lemma_kept(entries: Seq<EntryView>, url: Seq<char>, now: u128, ttl: u128)
    ensures
        kept(entries, url, now, ttl) == entries.filter(
            |entry: EntryView|
                now - entry.stored_at < ttl && 0 < ttl && entry.url != url,
        ),
    decreases entries.len(),
{
    reveal(Seq::filter);
    if entries.len() > 0 {
        lemma_kept(entries.drop_last(), url, now, ttl);
    }
}

/// What is found for an address was stored for it and is fresh; nothing is
/// found exactly where there is no such body.
pub proof fn law_found_bodies_are_fresh(
    entries: Seq<EntryView>,
    url: Seq<char>,
    now: u128,
    ttl: u128,
    from: int,
)
    requires
        0 <= from <= entries.len(),
    ensures
        found(entries, url, now, ttl, from) matches Some(body) ==> exists|i: int|
            {
                &&& from <= i < entries.len()
                &&& (#[trigger] entries[i]).url == url
                &&& now - entries[i].stored_at < ttl
                &&& entries[i].body == body
            },
        found(entries, url, now, ttl, from) is None ==> forall|i: int|
            from <= i < entries.len() && (#[trigger] entries[i]).url == url ==> !(now
                - entries[i].stored_at < ttl && 0 < ttl),
    decreases entries.len() - from,
{
    if from < entries.len() {
        law_found_bodies_are_fresh(entries, url, now, ttl, from + 1);
        if entries[from].url == url && is_fresh(entries[from], now, ttl) {
            assert(entries[from].url == url);
        }
    }
}

/// A request is answered from the cache where it has a fresh body, and then
/// leaves it as it is; else with what was fetched, which is stored where it is
/// a body and not where it is a failure.
pub proof fn law_requests_are_answered(
    entries: Seq<EntryView>,
    url: Seq<char>,
    asked: u128,
    kept_at: u128,
    ttl: u128,
    reply: Fetched,
)
    ensures
        ({
            let (after, answer) = served(entries, url, asked, entries, kept_at, ttl, reply);
            &&& found(entries, url, asked, ttl, 0) matches Some(body) ==> after == entries
                && answer == Ok::<Seq<char>, Seq<char>>(body)
            &&& found(entries, url, asked, ttl, 0) is None ==> answer == reply
            &&& found(entries, url, asked, ttl, 0) is None && reply is Err ==> after == entries
            &&& found(entries, url, asked, ttl, 0) is None && reply is Ok ==> {
                &&& after.len() > 0
                &&& after.last().url == url
                &&& after.last().stored_at == kept_at
                &&& after.last().body == reply->Ok_0
            }
        }),
{
}

/// Fixed routes answer with the first one whose part stands in the address,
/// and fail, telling the address, where there is none.
pub proof fn law_first_route_answers(
    routes: Seq<(&'static str, &'static str)>,
    url: Seq<char>,
    from: int,
)
    requires
        0 <= from <= routes.len(),
    ensures
        (forall|i: int| from <= i < routes.len() ==> !occurs(url, (#[trigger] routes[i]).0@))
            ==> routed(routes, url, from) == Err::<Seq<char>, Seq<char>>(
            "GET "@ + url + " failed: "@ + "no route"@,
        ),
        forall|i: int|
            from <= i < routes.len() && occurs(url, (#[trigger] routes[i]).0@) && (forall|k: int|
                from <= k < i ==> !occurs(url, (#[trigger] routes[k]).0@)) ==> routed(
                routes,
                url,
                from,
            ) == Ok::<Seq<char>, Seq<char>>(routes[i].1@),
    decreases routes.len() - from,
{
    if from < routes.len() {
        law_first_route_answers(routes, url, from + 1);
    }
}

/// A request through the cache is answered with the body that was fresh when
/// it was asked, and else with what the source gave, which is then stored.
pub proof fn law_cached_requests_go_as_served(
    client: CachedHttp,
    url: Seq<char>,
    request: Request,
    reply: Fetched,
)
    requires
        client.went(url, request, reply),
    ensures
        found(request.before, url, request.asked, client.ttl(), 0) matches Some(body) ==> {
            &&& reply == Ok::<Seq<char>, Seq<char>>(body)
            &&& request.after == request.before
        },
        found(request.before, url, request.asked, client.ttl(), 0) is None ==> {
            &&& reply == request.gave
            &&& client.source().value.may_give(url, reply)
            &&& reply matches Ok(body) ==> request.after == stored(
                request.settling,
                url,
                request.kept_at,
                client.ttl(),
                body,
            )
            &&& reply is Err ==> request.after == request.settling
        },
{
}

}
