//! Configuration: named model profiles and limits.

use vstd::prelude::*;

use crate::json::{bits_of_text, float_of_text, Real};
use crate::text;

verus! {

/// How tool definitions reach the model.
#[derive(Debug, Clone, Copy, PartialEq, Eq, Structural)]
pub enum ToolMode {
    /// OpenAI-native `tools` + `tool_calls` protocol.
    Native,
    /// Tools described in the prompt; calls parsed from the reply. For
    /// models whose native function calling is unreliable.
    Prompted,
}

impl Default for ToolMode {
    fn default() -> (mode: Self)
        ensures
            mode == ToolMode::Native,
    {
        ToolMode::Native
    }
}

/// Seconds of silence before a streamed response fails, unless a profile says
/// otherwise: long enough for local hardware to chew a large prompt before the
/// first token, short enough to catch true stalls.
pub const DEFAULT_IDLE_SECS: u64 = 180;

/// A sampling temperature: the number that is checked and sent. One that is
/// not finite has none.
#[derive(Debug)]
pub struct Temperature {
    /// The number.
    pub number: Option<Real>,
}

impl View for Temperature {
    type V = Option<Seq<char>>;

    open spec fn view(&self) -> Option<Seq<char>> {
        match self.number {
            Some(number) => Some(number@),
            None => None,
        }
    }
}

impl Temperature {
    /// The temperature that a text writes.
    pub fn read(text: &str) -> (temperature: Self)
        ensures
            temperature@ == float_of_text(text@),
    {
        Temperature { number: Real::parse(text) }
    }

    /// The same temperature once more.
    pub fn copy(&self) -> (temperature: Self)
        ensures
            temperature@ == self@,
    {
        Temperature {
            number: match &self.number {
                Some(number) => Some(number.copy()),
                None => None,
            },
        }
    }
}

/// One model endpoint.
#[derive(Debug)]
pub struct Profile {
    /// OpenAI-compatible base URL, such as `http://host:11434/v1`.
    pub base_url: String,
    /// Model name as the server knows it.
    pub model: String,
    /// Environment variable holding the API key, if the endpoint needs one.
    pub api_key_env: Option<String>,
    /// How tool definitions reach the model.
    pub tool_mode: ToolMode,
    /// Sampling temperature; omit for the server default. The eval forces
    /// 0 for reproducibility unless a profile sets one explicitly.
    pub temperature: Option<Temperature>,
    /// Seconds of stream *silence* before a request fails (default 180).
    /// Active streaming is never interrupted by this.
    pub idle_timeout_secs: Option<u64>,
    /// Optional wall-clock ceiling in seconds for one whole completion
    /// request. The eval forces 600 unless a profile sets one.
    pub request_timeout_secs: Option<u64>,
}

impl Profile {
    /// The idle-stream timeout in seconds.
    pub open spec fn idle_secs(&self) -> u64 {
        match self.idle_timeout_secs {
            Some(secs) => secs,
            None => DEFAULT_IDLE_SECS,
        }
    }

    /// The idle-stream timeout in seconds.
    pub fn idle_timeout(&self) -> (secs: u64)
        ensures
            secs == self.idle_secs(),
    {
        match self.idle_timeout_secs {
            Some(secs) => secs,
            None => DEFAULT_IDLE_SECS,
        }
    }

    /// The ceiling for a whole request in seconds, when configured.
    pub fn request_timeout(&self) -> (secs: Option<u64>)
        ensures
            secs == self.request_timeout_secs,
    {
        self.request_timeout_secs
    }
}

impl Profile {
    /// Resolve the API key, given what reading the profile's environment
    /// variable came to.
    ///
    /// A profile that names an `api_key_env` declares the endpoint needs
    /// auth: an unreadable variable is a hard error, never a silent
    /// unauthenticated request (which would surface as an opaque refusal).
    pub fn api_key(&self, read: Result<String, String>) -> (key: Result<Option<String>, String>)
        ensures
            match self.api_key_env {
                None => key is Ok && key->Ok_0 is None,
                Some(variable) => match read {
                    Ok(value) => key is Ok && key->Ok_0 is Some && key->Ok_0->0 == value,
                    Err(reason) => key is Err && key->Err_0@ == "api_key_env `"@ + variable@
                        + "` cannot be read ("@ + reason@
                        + "); export it or remove it from the profile"@,
                },
            },
    {
        match &self.api_key_env {
            None => Ok(None),
            Some(variable) => match read {
                Ok(value) => Ok(Some(value)),
                Err(reason) => {
                    let mut error = "api_key_env `".to_owned();
                    error.append(variable.as_str());
                    error.append("` cannot be read (");
                    error.append(reason.as_str());
                    error.append("); export it or remove it from the profile");
                    Err(error)
                },
            },
        }
    }
}

/// Named profiles, in the order of their names.
#[derive(Debug)]
pub struct Profiles {
    entries: Vec<(String, Profile)>,
}

impl Profiles {
    /// The profiles with their names, in order.
    pub closed spec fn entries(&self) -> Seq<(String, Profile)> {
        self.entries@
    }

    /// The names stand in order, and none stands twice.
    pub open spec fn wf(&self) -> bool {
        forall|i: int, j: int|
            0 <= i < j < self.entries().len() ==> text::before(
                (#[trigger] self.entries()[i]).0@,
                (#[trigger] self.entries()[j]).0@,
            )
    }

    /// Whether the entry at `i` has the name `name`.
    pub open spec fn is_at(&self, i: int, name: Seq<char>) -> bool {
        0 <= i < self.entries().len() && self.entries()[i].0@ == name
    }

    /// Whether there is a profile of that name.
    pub open spec fn has(&self, name: Seq<char>) -> bool {
        exists|i: int| #[trigger] self.is_at(i, name)
    }

    /// The profile of that name.
    pub open spec fn named(&self, name: Seq<char>) -> Profile {
        self.entries()[choose|i: int| #[trigger] self.is_at(i, name)].1
    }

    /// Whether the profile of that name, or its absence, is as before.
    pub open spec fn keeps(&self, before: Profiles, name: Seq<char>) -> bool {
        &&& self.has(name) == before.has(name)
        &&& before.has(name) ==> self.named(name) == before.named(name)
    }

    /// No profiles.
    pub fn new() -> (profiles: Self)
        ensures
            profiles.wf(),
            profiles.entries().len() == 0,
    {
        Profiles { entries: Vec::new() }
    }

    /// The first position whose name does not come before `name`.
    fn position(&self, name: &str) -> (at: usize)
        requires
            self.wf(),
        ensures
            at <= self.entries().len(),
            forall|i: int|
                0 <= i < at ==> text::before((#[trigger] self.entries()[i]).0@, name@),
            forall|i: int|
                at <= i < self.entries().len() ==> !text::before(
                    (#[trigger] self.entries()[i]).0@,
                    name@,
                ),
    {
        let mut at: usize = 0;
        while at < self.entries.len() && text::comes_before(self.entries[at].0.as_str(), name)
            invariant
                at <= self.entries@.len(),
                forall|i: int|
                    0 <= i < at ==> text::before((#[trigger] self.entries()[i]).0@, name@),
            decreases self.entries@.len() - at,
        {
            at += 1;
        }
        proof {
            assert forall|i: int| at <= i < self.entries().len() implies !text::before(
                (#[trigger] self.entries()[i]).0@,
                name@,
            ) by {
                if at < i && text::before(self.entries()[i].0@, name@) {
                    text::lemma_before_transitive(
                        self.entries()[at as int].0@,
                        self.entries()[i].0@,
                        name@,
                    );
                }
            }
        }
        at
    }

    /// Add a profile, in place of one with its name.
    pub fn insert(&mut self, name: String, profile: Profile)
        requires
            old(self).wf(),
        ensures
            final(self).wf(),
            final(self).has(name@) && final(self).named(name@) == profile,
            forall|other: Seq<char>|
                other != name@ ==> #[trigger] final(self).keeps(*old(self), other),
    {
        let ghost old_self = *self;
        let at = self.position(name.as_str());
        let ghost added = (name, profile);
        if at < self.entries.len() && text::same(self.entries[at].0.as_str(), name.as_str()) {
            self.entries.set(at, (name, profile));
            assert(self.entries() =~= old_self.entries().update(at as int, added));
            proof {
                assert forall|i: int, j: int| 0 <= i < j < self.entries().len() implies text::before(
                    (#[trigger] self.entries()[i]).0@,
                    (#[trigger] self.entries()[j]).0@,
                ) by {
                    assert(text::before(old_self.entries()[i].0@, old_self.entries()[j].0@));
                }
                lemma_profiles_updated(old_self, *self, at as int, added);
            }
        } else {
            self.entries.insert(at, (name, profile));
            assert(self.entries() =~= old_self.entries().insert(at as int, added));
            proof {
                assert forall|i: int| at <= i < old_self.entries().len() implies text::before(
                    added.0@,
                    (#[trigger] old_self.entries()[i]).0@,
                ) by {
                    text::lemma_before_strict(added.0@, old_self.entries()[i].0@);
                    if at < i {
                        text::lemma_before_strict(added.0@, old_self.entries()[at as int].0@);
                        text::lemma_before_transitive(
                            added.0@,
                            old_self.entries()[at as int].0@,
                            old_self.entries()[i].0@,
                        );
                    }
                }
                assert forall|i: int, j: int| 0 <= i < j < self.entries().len() implies text::before(
                    (#[trigger] self.entries()[i]).0@,
                    (#[trigger] self.entries()[j]).0@,
                ) by {
                    let from = if i < at {
                        i
                    } else {
                        i - 1
                    };
                    let to = if j < at {
                        j
                    } else {
                        j - 1
                    };
                    if i != at && j != at {
                        assert(text::before(
                            old_self.entries()[from].0@,
                            old_self.entries()[to].0@,
                        ));
                    } else if i == at {
                        assert(text::before(added.0@, old_self.entries()[to].0@));
                    } else {
                        assert(text::before(old_self.entries()[from].0@, added.0@));
                    }
                }
                lemma_profiles_inserted(old_self, *self, at as int, added);
            }
        }
    }

    /// The profile of that name, with the name.
    pub fn get(&self, name: &str) -> (found: Option<(&str, &Profile)>)
        requires
            self.wf(),
        ensures
            match found {
                Some((key, profile)) => self.has(name@) && key@ == name@ && *profile == self.named(
                    name@,
                ),
                None => !self.has(name@),
            },
    {
        let mut i: usize = 0;
        while i < self.entries.len()
            invariant
                self.wf(),
                i <= self.entries@.len(),
                forall|k: int| 0 <= k < i ==> !#[trigger] self.is_at(k, name@),
            decreases self.entries@.len() - i,
        {
            if text::same(self.entries[i].0.as_str(), name) {
                assert(self.is_at(i as int, name@));
                proof {
                    lemma_profiles_one(*self, i as int, name@);
                }
                return Some((self.entries[i].0.as_str(), &self.entries[i].1));
            }
            i += 1;
        }
        None
    }

    /// The names, in order.
    pub open spec fn names(&self) -> Seq<Seq<char>> {
        self.entries().map_values(|entry: (String, Profile)| entry.0@)
    }

    /// The names, in order.
    pub fn keys(&self) -> (names: Vec<String>)
        ensures
            text::texts(names@) == self.names(),
    {
        let mut names: Vec<String> = Vec::new();
        let mut i: usize = 0;
        while i < self.entries.len()
            invariant
                i <= self.entries@.len(),
                names@.len() == i,
                text::texts(names@) =~= self.names().take(i as int),
            decreases self.entries@.len() - i,
        {
            names.push(self.entries[i].0.clone());
            i += 1;
        }
        assert(text::texts(names@) =~= self.names());
        names
    }
}

/// A name stands in one place only.
proof fn lemma_profiles_one(profiles: Profiles, i: int, name: Seq<char>)
    requires
        profiles.wf(),
        profiles.is_at(i, name),
    ensures
        profiles.has(name),
        profiles.named(name) == profiles.entries()[i].1,
{
    let k = choose|k: int| #[trigger] profiles.is_at(k, name);
    text::lemma_before_strict(name, name);
    if k < i {
        assert(text::before(profiles.entries()[k].0@, profiles.entries()[i].0@));
    } else if i < k {
        assert(text::before(profiles.entries()[i].0@, profiles.entries()[k].0@));
    }
}

proof fn lemma_profiles_updated(
    old_profiles: Profiles,
    profiles: Profiles,
    at: int,
    added: (String, Profile),
)
    requires
        old_profiles.wf(),
        profiles.wf(),
        old_profiles.is_at(at, added.0@),
        profiles.entries() == old_profiles.entries().update(at, added),
    ensures
        profiles.has(added.0@) && profiles.named(added.0@) == added.1,
        forall|other: Seq<char>|
            other != added.0@ ==> #[trigger] profiles.keeps(old_profiles, other),
{
    assert(profiles.is_at(at, added.0@));
    lemma_profiles_one(profiles, at, added.0@);
    assert forall|other: Seq<char>| other != added.0@ implies #[trigger] profiles.keeps(
        old_profiles,
        other,
    ) by {
        if profiles.has(other) {
            let k = choose|k: int| #[trigger] profiles.is_at(k, other);
            assert(old_profiles.is_at(k, other));
            lemma_profiles_one(profiles, k, other);
            lemma_profiles_one(old_profiles, k, other);
        }
        if old_profiles.has(other) {
            let k = choose|k: int| #[trigger] old_profiles.is_at(k, other);
            assert(profiles.is_at(k, other));
        }
    }
}

proof fn lemma_profiles_inserted(
    old_profiles: Profiles,
    profiles: Profiles,
    at: int,
    added: (String, Profile),
)
    requires
        old_profiles.wf(),
        profiles.wf(),
        0 <= at <= old_profiles.entries().len(),
        profiles.entries() == old_profiles.entries().insert(at, added),
    ensures
        profiles.has(added.0@) && profiles.named(added.0@) == added.1,
        forall|other: Seq<char>|
            other != added.0@ ==> #[trigger] profiles.keeps(old_profiles, other),
{
    assert(profiles.is_at(at, added.0@));
    lemma_profiles_one(profiles, at, added.0@);
    assert forall|other: Seq<char>| other != added.0@ implies #[trigger] profiles.keeps(
        old_profiles,
        other,
    ) by {
        if profiles.has(other) {
            let k = choose|k: int| #[trigger] profiles.is_at(k, other);
            let from = if k < at {
                k
            } else {
                k - 1
            };
            assert(old_profiles.is_at(from, other));
            lemma_profiles_one(profiles, k, other);
            lemma_profiles_one(old_profiles, from, other);
        }
        if old_profiles.has(other) {
            let k = choose|k: int| #[trigger] old_profiles.is_at(k, other);
            let to = if k < at {
                k
            } else {
                k + 1
            };
            assert(profiles.is_at(to, other));
        }
    }
}

/// Harness-level limits.
#[derive(Debug)]
pub struct Limits {
    /// Most rounds of tool calls per turn (default 8).
    pub max_tool_rounds: Option<usize>,
}

impl Default for Limits {
    fn default() -> (limits: Self)
        ensures
            limits.max_tool_rounds is None,
    {
        Limits { max_tool_rounds: None }
    }
}

/// Whole configuration: a default profile name plus named profiles.
#[derive(Debug)]
pub struct Config {
    /// Profile used when none is named on the command line.
    pub default_profile: String,
    /// Named endpoint profiles.
    pub profiles: Profiles,
    /// Harness-level limits (apply regardless of profile).
    pub limits: Limits,
}

/// Whether a bit pattern is that of a number from 0 to 2. Among the patterns
/// without a sign bit the order is that of the numbers, infinity and what is
/// no number coming last; zero alone also has a pattern with the sign bit.
pub open spec fn is_zero_to_two(bits: u64) -> bool {
    bits <= 0x4000_0000_0000_0000 || bits == 0x8000_0000_0000_0000
}

/// Whether a temperature is a finite number from 0 to 2.
pub open spec fn is_temperature(number: Option<Seq<char>>) -> bool {
    &&& number is Some
    &&& bits_of_text(number->0) matches Some(bits) && is_zero_to_two(bits)
}

/// A complaint about a profile.
pub open spec fn complaint(name: Seq<char>, what: Seq<char>) -> Seq<char> {
    "profile `"@ + name + "`: "@ + what
}

/// What is wrong with a profile, if anything.
pub open spec fn profile_fault(name: Seq<char>, profile: Profile) -> Option<Seq<char>> {
    if profile.temperature is Some && !is_temperature(profile.temperature->0@) {
        Some(complaint(name, "temperature must be a finite number between 0 and 2"@))
    } else if profile.idle_timeout_secs == Some(0u64) {
        Some(complaint(name, "idle_timeout_secs must be > 0"@))
    } else if profile.request_timeout_secs == Some(0u64) {
        Some(complaint(name, "request_timeout_secs must be > 0"@))
    } else {
        None
    }
}

/// The first thing wrong with the profiles from `i` on, if anything.
pub open spec fn profiles_fault(entries: Seq<(String, Profile)>, i: int) -> Option<Seq<char>>
    decreases entries.len() - i,
{
    if i < 0 || i >= entries.len() {
        None
    } else {
        match profile_fault(entries[i].0@, entries[i].1) {
            Some(fault) => Some(fault),
            None => profiles_fault(entries, i + 1),
        }
    }
}

/// What is wrong with a configuration, if anything.
pub open spec fn config_fault(config: Config) -> Option<Seq<char>> {
    if !config.profiles.has(config.default_profile@) {
        Some("default_profile `"@ + config.default_profile@ + "` is not defined in [profiles]"@)
    } else {
        match profiles_fault(config.profiles.entries(), 0) {
            Some(fault) => Some(fault),
            None => if config.limits.max_tool_rounds == Some(0usize) {
                Some("limits.max_tool_rounds must be > 0"@)
            } else {
                None
            },
        }
    }
}

/// A complaint about a profile.
fn complain(name: &str, what: &str) -> (line: String)
    ensures
        line@ == complaint(name@, what@),
{
    let mut line = "profile `".to_owned();
    line.append(name);
    line.append("`: ");
    line.append(what);
    line
}

/// What is wrong with a profile, if anything.
fn check_profile(name: &str, profile: &Profile) -> (fault: Option<String>)
    ensures
        match fault {
            Some(fault) => profile_fault(name@, *profile) == Some(fault@),
            None => profile_fault(name@, *profile) is None,
        },
{
    if let Some(temperature) = &profile.temperature {
        let bits: u64 = match &temperature.number {
            Some(number) => number.bits(),
            None => u64::MAX,
        };
        if !(bits <= 0x4000_0000_0000_0000 || bits == 0x8000_0000_0000_0000) {
            return Some(
                complain(name, "temperature must be a finite number between 0 and 2"),
            );
        }
    }
    if let Some(secs) = profile.idle_timeout_secs {
        if secs == 0 {
            return Some(complain(name, "idle_timeout_secs must be > 0"));
        }
    }
    if let Some(secs) = profile.request_timeout_secs {
        if secs == 0 {
            return Some(complain(name, "request_timeout_secs must be > 0"));
        }
    }
    None
}

impl Config {
    /// Check a configuration: the default profile is defined, temperatures
    /// are finite and from 0 to 2, and no timeout or limit is zero.
    pub fn validate(&self) -> (checked: Result<(), String>)
        requires
            self.profiles.wf(),
        ensures
            match checked {
                Ok(()) => config_fault(*self) is None,
                Err(fault) => config_fault(*self) == Some(fault@),
            },
    {
        if self.profiles.get(self.default_profile.as_str()).is_none() {
            let mut fault = "default_profile `".to_owned();
            fault.append(self.default_profile.as_str());
            fault.append("` is not defined in [profiles]");
            return Err(fault);
        }
        let ghost entries = self.profiles.entries();
        let mut i: usize = 0;
        while i < self.profiles.entries.len()
            invariant
                entries == self.profiles.entries(),
                i <= entries.len(),
                self.profiles.has(self.default_profile@),
                profiles_fault(entries, 0) == profiles_fault(entries, i as int),
            decreases entries.len() - i,
        {
            let entry = &self.profiles.entries[i];
            if let Some(fault) = check_profile(entry.0.as_str(), &entry.1) {
                return Err(fault);
            }
            i += 1;
        }
        if let Some(rounds) = self.limits.max_tool_rounds {
            if rounds == 0 {
                return Err("limits.max_tool_rounds must be > 0".to_owned());
            }
        }
        Ok(())
    }

    /// The profile that a name asks for: the default where there is none.
    pub open spec fn requested(&self, name: Option<&str>) -> Seq<char> {
        match name {
            Some(name) => name@,
            None => self.default_profile@,
        }
    }

    /// Resolve a profile by name, or the default when `name` is `None`.
    pub fn profile(&self, name: Option<&str>) -> (found: Result<(&str, &Profile), String>)
        requires
            self.profiles.wf(),
        ensures
            match found {
                Ok((key, profile)) => self.profiles.has(self.requested(name)) && key@
                    == self.requested(name) && *profile == self.profiles.named(
                    self.requested(name),
                ),
                Err(error) => !self.profiles.has(self.requested(name)) && error@
                    == "unknown profile `"@ + self.requested(name) + "` (available: "@
                    + text::separated(self.profiles.names(), ", "@) + ")"@,
            },
    {
        let requested = match name {
            Some(name) => name,
            None => self.default_profile.as_str(),
        };
        match self.profiles.get(requested) {
            Some(found) => Ok(found),
            None => {
                let mut error = "unknown profile `".to_owned();
                error.append(requested);
                error.append("` (available: ");
                error.append(text::join(&self.profiles.keys(), ", ").as_str());
                error.append(")");
                Err(error)
            },
        }
    }
}

/// Every profile of a configuration that passes its check has a temperature
/// from 0 to 2, or none.
pub proof fn law_checked_temperatures_are_in_range(config: Config, name: Seq<char>)
    requires
        config_fault(config) is None,
        config.profiles.has(name),
    ensures
        config.profiles.named(name).temperature matches Some(temperature) ==> is_temperature(
            temperature@,
        ),
{
    let entries = config.profiles.entries();
    let i = choose|i: int| #[trigger] config.profiles.is_at(i, name);
    lemma_each_is_checked(entries, 0, i);
}

proof fn lemma_each_is_checked(entries: Seq<(String, Profile)>, from: int, i: int)
    requires
        0 <= from <= i < entries.len(),
        profiles_fault(entries, from) is None,
    ensures
        profile_fault(entries[i].0@, entries[i].1) is None,
    decreases i - from,
{
    if from < i {
        lemma_each_is_checked(entries, from + 1, i);
    }
}

/// A configuration that passes its check has a default profile.
pub proof fn law_checked_config_has_default(config: Config)
    requires
        config_fault(config) is None,
    ensures
        config.profiles.has(config.requested(None)),
{
}

/// A configuration passes its check exactly where its default profile exists,
/// every temperature is a number from zero to two, and no bound is zero.
pub proof fn law_configs_pass_exactly_where_sound(config: Config)
    ensures
        config_fault(config) is None <==> {
            &&& config.profiles.has(config.default_profile@)
            &&& config.limits.max_tool_rounds != Some(0usize)
            &&& forall|i: int|
                0 <= i < config.profiles.entries().len() ==> {
                    let profile = (#[trigger] config.profiles.entries()[i]).1;
                    &&& profile.temperature matches Some(temperature) ==> is_temperature(
                        temperature@,
                    )
                    &&& profile.idle_timeout_secs != Some(0u64)
                    &&& profile.request_timeout_secs != Some(0u64)
                }
        },
{
    let entries = config.profiles.entries();
    if profiles_fault(entries, 0) is None {
        assert forall|i: int| 0 <= i < entries.len() implies profile_fault(
            (#[trigger] entries[i]).0@,
            entries[i].1,
        ) is None by {
            lemma_each_is_checked(entries, 0, i);
        }
    } else {
        let i = lemma_first_fault(entries, 0);
        assert(profile_fault(entries[i].0@, entries[i].1) is Some);
    }
}

/// A fault of the profiles is that of the first profile that has one.
proof fn lemma_first_fault(entries: Seq<(String, Profile)>, from: int) -> (i: int)
    requires
        0 <= from <= entries.len(),
        profiles_fault(entries, from) is Some,
    ensures
        from <= i < entries.len(),
        profiles_fault(entries, from) == profile_fault(entries[i].0@, entries[i].1),
        forall|k: int|
            from <= k < i ==> profile_fault((#[trigger] entries[k]).0@, entries[k].1) is None,
    decreases entries.len() - from,
{
    if profile_fault(entries[from].0@, entries[from].1) is Some {
        from
    } else {
        lemma_first_fault(entries, from + 1)
    }
}

/// A fault of a profile names the profile, and the first profile with a fault
/// is the one that is told of.
pub proof fn law_faults_name_their_profile(config: Config)
    requires
        config.profiles.has(config.default_profile@),
        profiles_fault(config.profiles.entries(), 0) is Some,
    ensures
        exists|i: int|
            {
                &&& 0 <= i < config.profiles.entries().len()
                &&& config_fault(config) is Some
                &&& text::is_at(
                    config_fault(config)->0,
                    "profile `"@ + (#[trigger] config.profiles.entries()[i]).0@ + "`: "@,
                    0,
                )
                &&& profile_fault(
                    config.profiles.entries()[i].0@,
                    config.profiles.entries()[i].1,
                ) is Some
                &&& forall|k: int|
                    0 <= k < i ==> profile_fault(
                        (#[trigger] config.profiles.entries()[k]).0@,
                        config.profiles.entries()[k].1,
                    ) is None
            },
{
    let entries = config.profiles.entries();
    let i = lemma_first_fault(entries, 0);
    let fault = config_fault(config)->0;
    let head = "profile `"@ + entries[i].0@ + "`: "@;
    assert(fault.subrange(0, head.len() as int) =~= head);
}

/// A number is from zero to two exactly where its bits are those of positive
/// zero up to two, or those of negative zero.
pub proof fn law_temperatures_are_compared_by_their_bits(number: Seq<char>, bits: u64)
    requires
        bits_of_text(number) == Some(bits),
    ensures
        is_temperature(Some(number)) <==> bits <= 4611686018427387904 || bits
            == 9223372036854775808,
        !is_temperature(None),
{
}

/// A profile waits for as long as it says, and for three minutes where it says
/// nothing.
pub proof fn law_profiles_wait_as_configured(profile: Profile)
    ensures
        profile.idle_timeout_secs matches Some(secs) ==> profile.idle_secs() == secs,
        profile.idle_timeout_secs is None ==> profile.idle_secs() == 180,
{
}

/// The fault of a profile tells what is wrong: its temperature first, then how
/// long it waits, then how long a request may take.
pub proof fn law_faults_tell_what_is_wrong(name: Seq<char>, profile: Profile)
    ensures
        ({
            let cold = profile.temperature matches Some(temperature) ==> is_temperature(
                temperature@,
            );
            let head = "profile `"@ + name + "`: "@;
            &&& !cold ==> profile_fault(name, profile) == Some(
                head + "temperature must be a finite number between 0 and 2"@,
            )
            &&& cold && profile.idle_timeout_secs == Some(0u64) ==> profile_fault(name, profile)
                == Some(head + "idle_timeout_secs must be > 0"@)
            &&& cold && profile.idle_timeout_secs != Some(0u64) && profile.request_timeout_secs
                == Some(0u64) ==> profile_fault(name, profile) == Some(
                head + "request_timeout_secs must be > 0"@,
            )
        }),
{
}

/// A missing default profile is told by its name, and a limit of zero as such.
pub proof fn law_other_faults_are_told(config: Config)
    ensures
        !config.profiles.has(config.default_profile@) ==> config_fault(config) == Some(
            "default_profile `"@ + config.default_profile@ + "` is not defined in [profiles]"@,
        ),
        config.profiles.has(config.default_profile@) && profiles_fault(
            config.profiles.entries(),
            0,
        ) is None && config.limits.max_tool_rounds == Some(0usize) ==> config_fault(config) == Some(
            "limits.max_tool_rounds must be > 0"@,
        ),
{
}

}
