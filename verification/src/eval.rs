//! Grading answers against ground truth that tools resolve at the time of the
//! run, so that no expectation hard-codes a game fact.

use vstd::prelude::*;

use crate::codes;
use crate::codes::{base64_encoded, deflated};
use crate::config::{Profile, Temperature};
use crate::event::{Event, EventView};
use crate::held::Held;
use crate::json;
use crate::json::{
    at_key, float_in, float_of_text, is_digits, is_whole, items_in, items_view, lemma_items_view, no_members, parsed, printed, put,
    text_in, Json, JsonView, Real,
};
use crate::text;
use crate::text::{chars_of, decimal, is_at, lowercase, occurs, replaced, texts};
use crate::tool::{answer_of, fault_text, Answer, Tool, ToolError};
use vstd::utf8::encode_utf8;

verus! {

/// Whether an answer must or must not hold digits. Substrings alone cannot
/// express "and no invented number" or "and an actual figure".
#[derive(Debug, Clone, Copy, PartialEq, Eq, Structural)]
pub enum DigitRule {
    /// At least one digit must appear (a price needs a figure, so that a
    /// polite refusal cannot pass).
    Required,
    /// No digit may appear (a made-up number beside an accepted refusal must
    /// fail).
    Forbidden,
}

/// How an answer is graded. Ground-truth kinds resolve their expected value
/// from a tool when the eval runs.
#[derive(Debug)]
pub enum Expect {
    /// The current softcore challenge league id must appear.
    ChallengeLeagueId {
        /// `poe1` or `poe2`.
        game: String,
    },
    /// The most recently concluded league's name must appear.
    LatestPastLeague {
        /// `poe1` or `poe2`.
        game: String,
    },
    /// At least one of these must appear, whatever its case.
    ContainsAny {
        /// Accepted substrings.
        values: Vec<String>,
    },
    /// Every one of these must appear, whatever its case.
    ContainsAll {
        /// Required substrings.
        values: Vec<String>,
    },
    /// The named stat of a synthetic build must appear, as the engine computes
    /// it. The build's share code takes the place of `{code}` in the prompt.
    PobStat {
        /// `poe1` or `poe2`.
        game: String,
        /// The stat key to grade on.
        stat: String,
        /// Minimal synthetic build XML.
        xml: String,
    },
}

/// A question with how its answer is graded.
#[derive(Debug)]
pub struct Question {
    /// Id of the question.
    pub id: String,
    /// What is asked.
    pub prompt: String,
    /// Digit rule, if there is one.
    pub digits: Option<DigitRule>,
    /// Why the question is skipped, if it is.
    pub parked: Option<String>,
    /// How the answer is graded.
    pub expect: Expect,
}

/// A resolved grading rule for one question.
#[derive(Debug)]
pub enum Grading {
    /// At least one value must appear.
    Any(Vec<String>),
    /// Every value must appear.
    All(Vec<String>),
}

/// What a [`Grading`] says.
pub ghost enum GradingView {
    /// At least one value must appear.
    Any(Seq<Seq<char>>),
    /// Every value must appear.
    All(Seq<Seq<char>>),
}

impl View for Grading {
    type V = GradingView;

    open spec fn view(&self) -> GradingView {
        match *self {
            Grading::Any(values) => GradingView::Any(texts(values@)),
            Grading::All(values) => GradingView::All(texts(values@)),
        }
    }
}

/// Whether a character is a digit.
pub open spec fn is_digit(c: char) -> bool {
    '0' <= c <= '9'
}

/// Whether a text holds digits only.
pub open spec fn all_digits(s: Seq<char>) -> bool {
    forall|i: int| 0 <= i < s.len() ==> is_digit(#[trigger] s[i])
}

/// Whether a text holds a digit.
pub open spec fn has_digit(s: Seq<char>) -> bool {
    exists|i: int| 0 <= i < s.len() && is_digit(#[trigger] s[i])
}

/// Whether a number stands at `i`, with no digit right before or behind it.
pub open spec fn number_at(s: Seq<char>, number: Seq<char>, i: int) -> bool {
    &&& is_at(s, number, i)
    &&& !(i > 0 && is_digit(s[i - 1]))
    &&& !(i + number.len() < s.len() && is_digit(s[i + number.len()]))
}

/// Whether a value appears in an answer, both in lower case. A number must
/// stand by itself, so that an expected `60` is not found in `160`.
pub open spec fn appears(answer: Seq<char>, value: Seq<char>) -> bool {
    if all_digits(value) {
        exists|i: int| #[trigger] number_at(answer, value, i)
    } else {
        occurs(answer, value)
    }
}

/// Whether one of the values appears in an answer, which is in lower case.
pub open spec fn any_appears(answer: Seq<char>, values: Seq<Seq<char>>) -> bool {
    exists|i: int| 0 <= i < values.len() && appears(answer, lowercase(#[trigger] values[i]))
}

/// Whether every value appears in an answer, which is in lower case.
pub open spec fn all_appear(answer: Seq<char>, values: Seq<Seq<char>>) -> bool {
    forall|i: int| 0 <= i < values.len() ==> appears(answer, lowercase(#[trigger] values[i]))
}

/// Whether an answer meets a grading rule, whatever its case.
pub open spec fn matches_rule(answer: Seq<char>, grading: GradingView) -> bool {
    match grading {
        GradingView::Any(values) => any_appears(lowercase(answer), values),
        GradingView::All(values) => all_appear(lowercase(answer), values),
    }
}

/// The names of games and programs that hold digits, in lower case. They echo
/// the question and are no invented figures.
pub open spec fn name_tokens() -> Seq<Seq<char>> {
    seq![
        "path of exile 1"@,
        "path of exile 2"@,
        "poe1"@,
        "poe2"@,
        "poe 1"@,
        "poe 2"@,
        "path of building 2"@,
        "pob2"@,
        "pob 2"@,
    ]
}

/// A text with the first `n` names blanked, one after the other.
pub open spec fn without_names(s: Seq<char>, n: nat) -> Seq<char>
    decreases n,
{
    if n == 0 {
        s
    } else {
        replaced(without_names(s, (n - 1) as nat), name_tokens()[n - 1], " "@)
    }
}

/// Whether a text in lower case meets a digit rule.
pub open spec fn meets_rule(lower: Seq<char>, rule: DigitRule) -> bool {
    let rest = without_names(lower, name_tokens().len());
    match rule {
        DigitRule::Required => has_digit(rest),
        DigitRule::Forbidden => !has_digit(rest),
    }
}

/// Whether a value is the flag `flag`.
pub open spec fn is_flag(value: JsonView, flag: bool) -> bool {
    value == JsonView::Bool(flag)
}

/// Whether a league is the plain softcore challenge league.
pub open spec fn is_plain_challenge(league: JsonView) -> bool {
    &&& at_key(league, "kind"@) == JsonView::Text("challenge"@)
    &&& is_flag(at_key(league, "hardcore"@), false)
    &&& !is_flag(at_key(league, "ssf"@), true)
    &&& !is_flag(at_key(league, "ruthless"@), true)
}

/// The first plain challenge league from `i` on.
pub open spec fn first_plain(leagues: Seq<JsonView>, i: int) -> Option<JsonView>
    decreases leagues.len() - i,
{
    if i < 0 || i >= leagues.len() {
        None
    } else if is_plain_challenge(leagues[i]) {
        Some(leagues[i])
    } else {
        first_plain(leagues, i + 1)
    }
}

/// The id of the current plain challenge league in a league result.
pub open spec fn challenge_id(result: JsonView) -> Option<Seq<char>> {
    match items_in(at_key(at_key(result, "current"@), "leagues"@)) {
        None => None,
        Some(leagues) => match first_plain(leagues, 0) {
            None => None,
            Some(league) => text_in(at_key(league, "id"@)),
        },
    }
}

/// The name of the league that concluded last in a league result, whose list
/// is in the order of starts.
pub open spec fn last_past(result: JsonView) -> Option<Seq<char>> {
    match items_in(at_key(at_key(result, "past"@), "leagues"@)) {
        None => None,
        Some(leagues) => if leagues.len() == 0 {
            None
        } else {
            text_in(at_key(leagues.last(), "name"@))
        },
    }
}

/// A number in plain decimal notation, without an exponent and without a
/// fraction of zero, as std prints double-precision numbers.
pub uninterp spec fn plain_decimal(number: Seq<char>) -> Option<Seq<char>>;

/// Printing a number plainly: std's `Display` of the double-precision number
/// that the text writes, read by std's `str::parse` and refused by
/// `serde_json::Number::from_f64` where it is not finite.
#[verifier::external_body]
fn print_plainly(number: &str) -> (line: Option<String>)
    ensures
        match line {
            Some(line) => plain_decimal(number@) == Some(line@),
            None => plain_decimal(number@) is None,
        },
{
    let read = number.parse().ok().and_then(serde_json::Number::from_f64);
    read.and_then(|number| number.as_f64()).map(|number| number.to_string())
}

/// How a stat is written in an answer: a whole number of 64 bits with sign by
/// its digits, any other number plainly.
pub open spec fn stat_text(value: JsonView) -> Option<Seq<char>> {
    match value {
        JsonView::Unsigned(n) => if n <= i64::MAX {
            Some(decimal(n as nat))
        } else {
            plain_decimal(float_in(value)->0)
        },
        JsonView::Negative(n) => Some(seq!['-'] + decimal((-n) as nat)),
        JsonView::Float(number) => plain_decimal(number),
        _ => None,
    }
}

/// Whether every character of a text is a digit.
fn only_digits(s: &[char]) -> (yes: bool)
    ensures
        yes == all_digits(s@),
{
    let mut i: usize = 0;
    while i < s.len()
        invariant
            i <= s@.len(),
            forall|k: int| 0 <= k < i ==> is_digit(#[trigger] s@[k]),
        decreases s@.len() - i,
    {
        if !('0' <= s[i] && s[i] <= '9') {
            return false;
        }
        i += 1;
    }
    true
}

/// Whether a value appears in an answer, both in lower case.
pub fn value_appears(answer: &str, value: &str) -> (yes: bool)
    ensures
        yes == appears(answer@, value@),
{
    let v = chars_of(value);
    if !only_digits(&v) {
        return text::contains(answer, value);
    }
    let s = chars_of(answer);
    let len: usize = s.len();
    let mut i: usize = 0;
    loop
        invariant
            s@ == answer@,
            v@ == value@,
            len == s@.len(),
            i <= len,
            all_digits(value@),
            forall|k: int| 0 <= k < i ==> !#[trigger] number_at(answer@, value@, k),
        decreases len - i,
    {
        if text::stands_at(&s, &v, i) {
            let before = i > 0 && '0' <= s[i - 1] && s[i - 1] <= '9';
            let end: usize = i + v.len();
            let behind = end < len && '0' <= s[end] && s[end] <= '9';
            if !before && !behind {
                assert(number_at(answer@, value@, i as int));
                return true;
            }
        }
        assert(!number_at(answer@, value@, i as int));
        if i == len {
            proof {
                assert forall|k: int| !#[trigger] number_at(answer@, value@, k) by {
                    if k > len {
                        assert(!is_at(answer@, value@, k));
                    }
                }
            }
            return false;
        }
        i += 1;
    }
}

/// Whether a value appears in an answer, which is in lower case already.
pub fn value_present(answer_lower: &str, value: &str) -> (yes: bool)
    ensures
        yes == appears(answer_lower@, lowercase(value@)),
{
    value_appears(answer_lower, value.to_lowercase().as_str())
}

/// Whether an answer meets a grading rule, whatever its case.
pub fn answer_matches(answer: &str, grading: &Grading) -> (yes: bool)
    ensures
        yes == matches_rule(answer@, grading@),
{
    let lower = answer.to_lowercase();
    match grading {
        Grading::Any(values) => {
            let ghost all = texts(values@);
            let mut i: usize = 0;
            while i < values.len()
                invariant
                    i <= values@.len(),
                    all == texts(values@),
                    grading@ == GradingView::Any(all),
                    lower@ == lowercase(answer@),
                    forall|k: int|
                        0 <= k < i ==> !appears(lower@, lowercase(#[trigger] all[k])),
                decreases values@.len() - i,
            {
                assert(all[i as int] == values@[i as int]@);
                if value_present(lower.as_str(), values[i].as_str()) {
                    assert(any_appears(lower@, all));
                    return true;
                }
                i += 1;
            }
            false
        },
        Grading::All(values) => {
            let ghost all = texts(values@);
            let mut i: usize = 0;
            while i < values.len()
                invariant
                    i <= values@.len(),
                    all == texts(values@),
                    grading@ == GradingView::All(all),
                    lower@ == lowercase(answer@),
                    forall|k: int|
                        0 <= k < i ==> appears(lower@, lowercase(#[trigger] all[k])),
                decreases values@.len() - i,
            {
                assert(all[i as int] == values@[i as int]@);
                if !value_present(lower.as_str(), values[i].as_str()) {
                    assert(!all_appear(lower@, all));
                    return false;
                }
                i += 1;
            }
            true
        },
    }
}

/// Whether a text in lower case meets a digit rule.
pub fn rule_met(lower: &str, rule: DigitRule) -> (yes: bool)
    ensures
        yes == meets_rule(lower@, rule),
{
    let tokens: [&'static str; 9] = [
        "path of exile 1",
        "path of exile 2",
        "poe1",
        "poe2",
        "poe 1",
        "poe 2",
        "path of building 2",
        "pob2",
        "pob 2",
    ];
    let mut rest = lower.to_owned();
    let mut i: usize = 0;
    while i < 9
        invariant
            i <= 9,
            tokens@.len() == 9,
            forall|k: int| 0 <= k < 9 ==> (#[trigger] tokens@[k])@ == name_tokens()[k],
            rest@ == without_names(lower@, i as nat),
        decreases 9 - i,
    {
        assert(tokens@[i as int]@ == name_tokens()[i as int]);
        rest = text::replace(rest.as_str(), tokens[i], " ");
        i += 1;
    }
    let s = chars_of(rest.as_str());
    let mut found = false;
    let mut k: usize = 0;
    while k < s.len()
        invariant
            s@ == rest@,
            k <= s@.len(),
            found == exists|j: int| 0 <= j < k && is_digit(#[trigger] s@[j]),
        decreases s@.len() - k,
    {
        if '0' <= s[k] && s[k] <= '9' {
            found = true;
        }
        k += 1;
    }
    match rule {
        DigitRule::Required => found,
        DigitRule::Forbidden => !found,
    }
}

/// Whether an answer meets a digit rule. Game and program names hold digits of
/// their own, which do not count.
pub fn digits_ok(answer: &str, rule: DigitRule) -> (yes: bool)
    ensures
        yes == meets_rule(lowercase(answer@), rule),
{
    rule_met(answer.to_lowercase().as_str(), rule)
}

/// Whether a value is the flag `flag`.
fn flag_is(value: &Json, flag: bool) -> (yes: bool)
    ensures
        yes == is_flag(value@, flag),
{
    match value {
        Json::Bool(held) => *held == flag,
        _ => false,
    }
}

/// The id of the current softcore challenge league, neither solo self-found
/// nor Ruthless, in a league result.
pub fn challenge_league_id(result: &Json) -> (id: Option<String>)
    ensures
        match id {
            Some(id) => challenge_id(result@) == Some(id@),
            None => challenge_id(result@) is None,
        },
{
    let leagues = match result.key("current").key("leagues").as_array() {
        Some(leagues) => leagues,
        None => {
            return None;
        },
    };
    let ghost all = items_view(leagues@);
    let mut i: usize = 0;
    while i < leagues.len()
        invariant
            i <= leagues@.len(),
            all == items_view(leagues@),
            items_in(at_key(at_key(result@, "current"@), "leagues"@)) == Some(all),
            first_plain(all, 0) == first_plain(all, i as int),
        decreases leagues@.len() - i,
    {
        proof {
            lemma_items_view(leagues@);
        }
        let league = &leagues[i];
        let challenge = match league.key("kind").as_str() {
            Some(kind) => text::same(kind, "challenge"),
            None => false,
        };
        if challenge && flag_is(league.key("hardcore"), false) && !flag_is(league.key("ssf"), true)
            && !flag_is(league.key("ruthless"), true) {
            return match league.key("id").as_str() {
                Some(id) => Some(id.to_owned()),
                None => None,
            };
        }
        i += 1;
    }
    proof {
        lemma_items_view(leagues@);
    }
    None
}

/// The name of the league that concluded last in a league result.
pub fn latest_past_league(result: &Json) -> (name: Option<String>)
    ensures
        match name {
            Some(name) => last_past(result@) == Some(name@),
            None => last_past(result@) is None,
        },
{
    let leagues = match result.key("past").key("leagues").as_array() {
        Some(leagues) => leagues,
        None => {
            return None;
        },
    };
    proof {
        lemma_items_view(leagues@);
    }
    if leagues.len() == 0 {
        return None;
    }
    match leagues[leagues.len() - 1].key("name").as_str() {
        Some(name) => Some(name.to_owned()),
        None => None,
    }
}

/// How a stat is written in an answer.
pub fn expected_stat(value: &Json) -> (line: Option<String>)
    ensures
        match line {
            Some(line) => stat_text(value@) == Some(line@),
            None => stat_text(value@) is None,
        },
{
    match value {
        Json::Unsigned(n) => {
            if *n <= i64::MAX as u64 {
                Some(text::decimal_text(*n))
            } else {
                match value.as_float() {
                    Some(number) => print_plainly(number.as_str()),
                    None => None,
                }
            }
        },
        Json::Negative(n) => {
            if *n < 0 {
                let size: u64 = if *n == i64::MIN {
                    0x8000_0000_0000_0000
                } else {
                    (-*n) as u64
                };
                let mut line = String::new();
                line.push('-');
                line.append(text::decimal_text(size).as_str());
                assert(line@ =~= seq!['-'] + decimal(size as nat));
                Some(line)
            } else {
                Some(text::decimal_text(*n as u64))
            }
        },
        Json::Float(number) => print_plainly(number.as_str()),
        _ => None,
    }
}

/// The tool call that resolves a question's ground truth; none where its
/// expectation is fixed.
pub open spec fn truth_request(expect: Expect) -> Option<Seq<char>> {
    match expect {
        Expect::ContainsAny { .. } => None,
        Expect::ContainsAll { .. } => None,
        Expect::ChallengeLeagueId { game } => Some("{\"game\":\""@ + game@ + "\"}"@),
        Expect::LatestPastLeague { game } => Some(
            "{\"game\":\""@ + game@ + "\",\"include\":\"past\"}"@,
        ),
        Expect::PobStat { game, stat, xml } => Some(
            printed(
                put(
                    put(
                        put(no_members(), "game"@, JsonView::Text(game@)),
                        "xml"@,
                        JsonView::Text(xml@),
                    ),
                    "stats"@,
                    JsonView::Array(seq![JsonView::Text(stat@)]),
                ),
            ),
        ),
    }
}

/// What a question is resolved to.
pub type Resolved = Result<(GradingView, Seq<char>), Seq<char>>;

/// A grading rule of one value.
pub open spec fn one_value(value: Seq<char>) -> GradingView {
    GradingView::Any(seq![value])
}

/// The rule and the prompt of a question whose build has the stat `value`.
pub open spec fn resolved_stat(prompt: Seq<char>, stat: Seq<char>, xml: Seq<char>, result: JsonView) -> Resolved {
    match stat_text(at_key(at_key(at_key(result, "build"@), "stats"@), stat)) {
        None => Err("stat `"@ + stat + "` missing from pob result"@),
        Some(expected) => match deflated(encode_utf8(xml)) {
            Err(error) => Err("encoding fixture build failed: deflate failed: "@ + error),
            Ok(bytes) => Ok(
                (
                    one_value(expected),
                    replaced(
                        replaced(prompt, "{code}"@, base64_encoded(bytes)),
                        "{xml}"@,
                        xml,
                    ),
                ),
            ),
        },
    }
}

/// The rule and the prompt of a question, given the JSON of the tool's result.
pub open spec fn resolved_json(expect: Expect, prompt: Seq<char>, result: JsonView) -> Resolved {
    match expect {
        Expect::ContainsAny { values } => Ok((GradingView::Any(texts(values@)), prompt)),
        Expect::ContainsAll { values } => Ok((GradingView::All(texts(values@)), prompt)),
        Expect::ChallengeLeagueId { .. } => match challenge_id(result) {
            Some(id) => Ok((one_value(id), prompt)),
            None => Err("no challenge league in tool result"@),
        },
        Expect::LatestPastLeague { .. } => match last_past(result) {
            Some(name) => Ok((one_value(name), prompt)),
            None => Err("no past leagues in tool result"@),
        },
        Expect::PobStat { stat, xml, .. } => resolved_stat(prompt, stat@, xml@, result),
    }
}

/// Which tool a ground truth comes from, in words.
pub open spec fn truth_tool(expect: Expect) -> Seq<char> {
    match expect {
        Expect::PobStat { .. } => "pob"@,
        _ => "league"@,
    }
}

/// The rule and the prompt of a question, given what the tool answered.
pub open spec fn resolved_answer(expect: Expect, prompt: Seq<char>, answer: Answer) -> Resolved {
    match answer {
        Err(fault) => Err(
            "ground-truth "@ + truth_tool(expect) + " call failed: "@ + fault_text(fault),
        ),
        Ok(result_json) => match parsed(result_json) {
            Err(error) => Err(error),
            Ok(result) => resolved_json(expect, prompt, result),
        },
    }
}

/// What the value of a resolution says.
pub open spec fn resolution(resolved: Result<(Grading, String), String>) -> Resolved {
    match resolved {
        Ok((grading, prompt)) => Ok((grading@, prompt@)),
        Err(error) => Err(error@),
    }
}

/// Copies of texts.
fn copy_texts(list: &Vec<String>) -> (copies: Vec<String>)
    ensures
        texts(copies@) == texts(list@),
{
    let mut copies: Vec<String> = Vec::new();
    let mut i: usize = 0;
    while i < list.len()
        invariant
            i <= list@.len(),
            copies@.len() == i,
            forall|k: int| 0 <= k < i ==> (#[trigger] copies@[k])@ == list@[k]@,
        decreases list@.len() - i,
    {
        copies.push(list[i].clone());
        i += 1;
    }
    assert(texts(copies@) =~= texts(list@));
    copies
}

/// A grading rule of one value.
fn accept_one(value: String) -> (grading: Grading)
    ensures
        grading@ == one_value(value@),
{
    let values: Vec<String> = vec![value];
    assert(texts(values@) =~= seq![value@]);
    Grading::Any(values)
}

/// The rule and the prompt of a question, given the JSON of the tool's result.
pub fn resolve_from_json(expect: &Expect, prompt: &str, result: &Json) -> (resolved: Result<
    (Grading, String),
    String,
>)
    ensures
        resolution(resolved) == resolved_json(*expect, prompt@, result@),
{
    match expect {
        Expect::ContainsAny { values } => Ok((Grading::Any(copy_texts(values)), prompt.to_owned())),
        Expect::ContainsAll { values } => Ok((Grading::All(copy_texts(values)), prompt.to_owned())),
        Expect::ChallengeLeagueId { .. } => match challenge_league_id(result) {
            Some(id) => Ok((accept_one(id), prompt.to_owned())),
            None => Err("no challenge league in tool result".to_owned()),
        },
        Expect::LatestPastLeague { .. } => match latest_past_league(result) {
            Some(name) => Ok((accept_one(name), prompt.to_owned())),
            None => Err("no past leagues in tool result".to_owned()),
        },
        Expect::PobStat { stat, xml, .. } => {
            let value = result.key("build").key("stats").key(stat.as_str());
            match expected_stat(value) {
                None => {
                    let mut error = "stat `".to_owned();
                    error.append(stat.as_str());
                    error.append("` missing from pob result");
                    Err(error)
                },
                Some(expected) => match codes::encode(xml.as_str()) {
                    Err(reason) => {
                        let error = "encoding fixture build failed: ".to_owned().concat(
                            reason.as_str(),
                        );
                        proof {
                            reveal_strlit("encoding fixture build failed: ");
                            reveal_strlit("deflate failed: ");
                            reveal_strlit("encoding fixture build failed: deflate failed: ");
                            let inner = deflated(encode_utf8(xml@))->Err_0;
                            assert(error@
                                =~= "encoding fixture build failed: deflate failed: "@ + inner);
                        }
                        Err(error)
                    },
                    Ok(code) => {
                        let filled = text::replace(prompt, "{code}", code.as_str());
                        let filled = text::replace(filled.as_str(), "{xml}", xml.as_str());
                        Ok((accept_one(expected), filled))
                    },
                },
            }
        },
    }
}

/// The rule and the prompt of a question, given what the tool answered.
pub fn resolve_from_answer(
    expect: &Expect,
    prompt: &str,
    answer: &Result<String, ToolError>,
) -> (resolved: Result<(Grading, String), String>)
    ensures
        resolution(resolved) == resolved_answer(*expect, prompt@, answer_of(*answer)),
{
    match answer {
        Err(fault) => {
            let tool = match expect {
                Expect::PobStat { .. } => "pob",
                _ => "league",
            };
            let mut error = "ground-truth ".to_owned();
            error.append(tool);
            error.append(" call failed: ");
            error.append(fault.to_string().as_str());
            Err(error)
        },
        Ok(result_json) => match json::parse(result_json.as_str()) {
            Err(error) => Err(error),
            Ok(result) => resolve_from_json(expect, prompt, &result),
        },
    }
}

/// The tool call that resolves a question's ground truth.
fn request_for(expect: &Expect) -> (request: Option<String>)
    ensures
        match request {
            Some(request) => truth_request(*expect) == Some(request@),
            None => truth_request(*expect) is None,
        },
{
    match expect {
        Expect::ContainsAny { .. } => None,
        Expect::ContainsAll { .. } => None,
        Expect::ChallengeLeagueId { game } => {
            let mut request = "{\"game\":\"".to_owned();
            request.append(game.as_str());
            request.append("\"}");
            Some(request)
        },
        Expect::LatestPastLeague { game } => {
            let mut request = "{\"game\":\"".to_owned();
            request.append(game.as_str());
            request.append("\",\"include\":\"past\"}");
            Some(request)
        },
        Expect::PobStat { game, stat, xml } => {
            let keys: Vec<String> = vec![stat.clone()];
            let stats = crate::engine::texts_value(&keys);
            assert(stats@ == JsonView::Array(seq![JsonView::Text(stat@)])) by {
                assert(texts(keys@).map_values(|text: Seq<char>| JsonView::Text(text)) =~= seq![
                    JsonView::Text(stat@),
                ]);
            }
            let request = Json::object().with("game", Json::string(game.as_str())).with(
                "xml",
                Json::string(xml.as_str()),
            ).with("stats", stats);
            Some(request.to_string())
        },
    }
}

/// Whether a question may be resolved so: a fixed expectation needs no tool,
/// any other is resolved from what its tool answers to its request.
pub open spec fn may_resolve(
    question: Question,
    league: Held<Box<dyn Tool>>,
    pob: Held<Box<dyn Tool>>,
    resolved: Resolved,
) -> bool {
    match truth_request(question.expect) {
        None => resolved == resolved_json(question.expect, question.prompt@, JsonView::Null),
        Some(request) => exists|answer: Answer|
            (if question.expect is PobStat {
                pob.value.may_answer(request, answer)
            } else {
                league.value.may_answer(request, answer)
            }) && resolved == #[trigger] resolved_answer(
                question.expect,
                question.prompt@,
                answer,
            ),
    }
}

/// Resolve a question's grading rule and final prompt, calling tools for
/// ground-truth kinds. Questions on a build's stat also get their `{code}` and
/// `{xml}` placeholders filled.
pub fn resolve_question(
    question: &Question,
    league: &Held<Box<dyn Tool>>,
    pob: &Held<Box<dyn Tool>>,
) -> (resolved: Result<(Grading, String), String>)
    ensures
        may_resolve(*question, *league, *pob, resolution(resolved)),
{
    let prompt = question.prompt.as_str();
    match request_for(&question.expect) {
        None => resolve_from_json(&question.expect, prompt, &Json::Null),
        Some(request) => {
            let answer = match &question.expect {
                Expect::PobStat { .. } => pob.value.execute(request.as_str()),
                _ => league.value.execute(request.as_str()),
            };
            let resolved = resolve_from_answer(&question.expect, prompt, &answer);
            assert(resolution(resolved) == resolved_answer(
                question.expect,
                question.prompt@,
                answer_of(answer),
            ));
            resolved
        },
    }
}

/// The text of the first `n` events.
pub open spec fn streamed_text(events: Seq<EventView>, n: nat) -> Seq<char>
    decreases n,
{
    if n == 0 {
        seq![]
    } else {
        let before = streamed_text(events, (n - 1) as nat);
        match events[n - 1] {
            EventView::TokenDelta(chunk) => before + chunk,
            _ => before,
        }
    }
}

/// The failure among the first `n` events, the last if there are several.
pub open spec fn failure_among(events: Seq<EventView>, n: nat) -> Option<Seq<char>>
    decreases n,
{
    if n == 0 {
        None
    } else {
        match events[n - 1] {
            EventView::TurnFailed { error } => Some(error),
            _ => failure_among(events, (n - 1) as nat),
        }
    }
}

/// What a list of events says.
pub open spec fn events_view(events: Seq<Event>) -> Seq<EventView> {
    events.map_values(|event: Event| event@)
}

/// The answer that the events of a turn give: all text, or why the turn
/// failed.
pub fn answer_from_events(events: &Vec<Event>) -> (answer: Result<String, String>)
    ensures
        match answer {
            Ok(answer) => failure_among(events_view(events@), events@.len()) is None && answer@
                == streamed_text(events_view(events@), events@.len()),
            Err(error) => failure_among(events_view(events@), events@.len()) is Some && error@
                == "turn failed: "@ + failure_among(events_view(events@), events@.len())->0,
        },
{
    let ghost all = events_view(events@);
    let mut answer = String::new();
    let mut failure: Option<String> = None;
    let mut i: usize = 0;
    while i < events.len()
        invariant
            i <= events@.len(),
            all == events_view(events@),
            answer@ == streamed_text(all, i as nat),
            match failure {
                Some(error) => failure_among(all, i as nat) == Some(error@),
                None => failure_among(all, i as nat) is None,
            },
        decreases events@.len() - i,
    {
        assert(all[i as int] == events@[i as int]@);
        match &events[i] {
            Event::TokenDelta(chunk) => answer.append(chunk.as_str()),
            Event::TurnFailed { error } => {
                failure = Some(error.clone());
            },
            _ => {},
        }
        i += 1;
    }
    match failure {
        Some(error) => Err("turn failed: ".to_owned().concat(error.as_str())),
        None => Ok(answer),
    }
}

/// What an answer is worth.
#[derive(Debug, Clone, Copy, PartialEq, Eq, Structural)]
pub enum Verdict {
    /// It passes.
    Pass,
    /// It does not meet the grading rule.
    Mismatch,
    /// It breaks the digit rule.
    Digits,
}

/// Grade an answer: by the grading rule first, then by the digit rule.
pub fn grade(answer: &str, accepted: &Grading, digits: Option<DigitRule>) -> (verdict: Verdict)
    ensures
        verdict == if !matches_rule(answer@, accepted@) {
            Verdict::Mismatch
        } else if digits is Some && !meets_rule(lowercase(answer@), digits->0) {
            Verdict::Digits
        } else {
            Verdict::Pass
        },
{
    if !answer_matches(answer, accepted) {
        return Verdict::Mismatch;
    }
    if let Some(rule) = digits {
        if !digits_ok(answer, rule) {
            return Verdict::Digits;
        }
    }
    Verdict::Pass
}

/// What became of a question that was asked.
#[derive(Debug, Clone, Copy, PartialEq, Eq, Structural)]
pub enum Outcome {
    /// There was no ground truth to grade by.
    NoTruth,
    /// There was no answer.
    NoAnswer,
    /// The answer was graded.
    Graded(Verdict),
}

/// What is shown of a question.
#[derive(Debug, Clone, Copy, PartialEq, Eq, Structural)]
pub enum Shown {
    /// It is parked, and was not asked.
    Skip,
    /// There was no ground truth.
    NoTruth,
    /// There was no answer.
    NoAnswer,
    /// The answer does not meet the grading rule.
    Mismatch,
    /// The answer breaks the digit rule.
    Digits,
    /// The answer passes.
    Pass,
}

/// Whether what is shown is a failure: neither a pass nor a question that was
/// skipped.
pub open spec fn is_failure(shown: Shown) -> bool {
    shown != Shown::Pass && shown != Shown::Skip
}

/// How many of the first `n` are failures.
pub open spec fn failures_among(shown: Seq<Shown>, n: nat) -> nat
    decreases n,
{
    if n == 0 {
        0
    } else if is_failure(shown[n - 1]) {
        failures_among(shown, (n - 1) as nat) + 1
    } else {
        failures_among(shown, (n - 1) as nat)
    }
}

/// What is shown of a question, given what became of it where it was asked: a
/// parked one is skipped, whatever that is.
pub open spec fn shown_as(parked: bool, outcome: Outcome) -> Shown {
    if parked {
        Shown::Skip
    } else {
        match outcome {
            Outcome::NoTruth => Shown::NoTruth,
            Outcome::NoAnswer => Shown::NoAnswer,
            Outcome::Graded(Verdict::Mismatch) => Shown::Mismatch,
            Outcome::Graded(Verdict::Digits) => Shown::Digits,
            Outcome::Graded(Verdict::Pass) => Shown::Pass,
        }
    }
}

/// Whether a question is asked: a parked one is not.
pub fn is_asked(question: &Question) -> (yes: bool)
    ensures
        yes == question.parked is None,
{
    question.parked.is_none()
}

/// What is shown of a question, given what became of it.
pub fn show_outcome(question: &Question, outcome: Outcome) -> (shown: Shown)
    ensures
        shown == shown_as(question.parked is Some, outcome),
{
    if !is_asked(question) {
        return Shown::Skip;
    }
    match outcome {
        Outcome::NoTruth => Shown::NoTruth,
        Outcome::NoAnswer => Shown::NoAnswer,
        Outcome::Graded(verdict) => match verdict {
            Verdict::Mismatch => Shown::Mismatch,
            Verdict::Digits => Shown::Digits,
            Verdict::Pass => Shown::Pass,
        },
    }
}

/// Close an eval: how many questions failed, and the line that says so.
pub fn close_eval(shown: &Vec<Shown>) -> (closing: (u64, String))
    ensures
        closing.0 == failures_among(shown@, shown@.len()),
        closing.1@ == if failures_among(shown@, shown@.len()) == 0 {
            "all selected questions passed"@
        } else {
            decimal(failures_among(shown@, shown@.len())) + " selected questions failed"@
        },
{
    let mut failures: u64 = 0;
    let mut i: usize = 0;
    while i < shown.len()
        invariant
            i <= shown@.len(),
            failures <= i,
            failures == failures_among(shown@, i as nat),
        decreases shown@.len() - i,
    {
        match shown[i] {
            Shown::Pass => {},
            Shown::Skip => {},
            _ => {
                failures += 1;
            },
        }
        i += 1;
    }
    if failures == 0 {
        return (0, "all selected questions passed".to_owned());
    }
    let mut line = text::decimal_text(failures);
    line.append(" selected questions failed");
    (failures, line)
}

/// Whether a question is selected: all are, unless a part of the id is given.
pub fn is_selected(question: &Question, only: &Option<String>) -> (yes: bool)
    ensures
        yes == (only is None || occurs(question.id@, only->0@)),
{
    match only {
        None => true,
        Some(fragment) => text::contains(question.id.as_str(), fragment.as_str()),
    }
}

/// Seconds that one completion may take in an eval, unless a profile says
/// otherwise.
pub const EVAL_REQUEST_SECS: u64 = 600;

/// A profile made reproducible: temperature zero and a bound on each
/// completion, unless it pins them.
pub fn eval_profile(profile: Profile) -> (pinned: Profile)
    ensures
        pinned.base_url == profile.base_url,
        pinned.model == profile.model,
        pinned.api_key_env == profile.api_key_env,
        pinned.tool_mode == profile.tool_mode,
        pinned.idle_timeout_secs == profile.idle_timeout_secs,
        profile.temperature is Some ==> pinned.temperature == profile.temperature,
        profile.temperature is None ==> pinned.temperature is Some && pinned.temperature->0@
            == float_of_text("0"@) && pinned.temperature->0@ is Some,
        pinned.request_timeout_secs == match profile.request_timeout_secs {
            Some(secs) => Some(secs),
            None => Some(EVAL_REQUEST_SECS),
        },
{
    let zero = Real::parse("0");
    proof {
        reveal_strlit("0");
        assert(is_digits("0"@));
        assert(is_whole("0"@));
    }
    let temperature = match profile.temperature {
        Some(temperature) => Some(temperature),
        None => Some(Temperature { number: zero }),
    };
    let request_timeout_secs: Option<u64> = match profile.request_timeout_secs {
        Some(secs) => Some(secs),
        None => Some(EVAL_REQUEST_SECS),
    };
    Profile { temperature, request_timeout_secs, ..profile }
}

/// A number stands by itself: the digits right before and behind the place
/// where it is found are not part of a longer one.
pub proof fn law_numbers_stand_alone(answer: Seq<char>, value: Seq<char>)
    requires
        all_digits(value),
        appears(answer, value),
    ensures
        exists|i: int|
            is_at(answer, value, i) && !(i > 0 && is_digit(answer[i - 1])) && !(i + value.len()
                < answer.len() && is_digit(#[trigger] answer[i + value.len()])),
{
    let i = choose|i: int| #[trigger] number_at(answer, value, i);
    assert(is_at(answer, value, i));
    let next = answer[i + value.len()];
}

/// An answer that passes every required value passes each of them.
pub proof fn law_all_means_each(answer: Seq<char>, values: Seq<Seq<char>>, i: int)
    requires
        0 <= i < values.len(),
        matches_rule(answer, GradingView::All(values)),
    ensures
        matches_rule(answer, GradingView::Any(seq![values[i]])),
{
    assert(seq![values[i]][0] == values[i]);
    assert(appears(lowercase(answer), lowercase(values[i])));
}

/// An answer is accepted where it holds one of the values, or each of them, in
/// any case of the letters: a value of digits as a number of its own, and any
/// other as it stands.
pub proof fn law_answers_hold_what_is_accepted(answer: Seq<char>, values: Seq<Seq<char>>)
    ensures
        matches_rule(answer, GradingView::Any(values)) <==> exists|i: int|
            0 <= i < values.len() && matches_rule(
                answer,
                GradingView::All(seq![#[trigger] values[i]]),
            ),
        matches_rule(answer, GradingView::All(values)) <==> forall|i: int|
            0 <= i < values.len() ==> matches_rule(
                answer,
                GradingView::All(seq![#[trigger] values[i]]),
            ),
{
    assert forall|i: int| 0 <= i < values.len() implies (matches_rule(
        answer,
        GradingView::All(seq![#[trigger] values[i]]),
    ) <==> appears(lowercase(answer), lowercase(values[i]))) by {
        let one = seq![values[i]];
        assert(one[0] == values[i]);
        assert(all_appear(lowercase(answer), one) <==> appears(
            lowercase(answer),
            lowercase(one[0]),
        ));
    }
    if any_appears(lowercase(answer), values) {
        let i = choose|i: int|
            0 <= i < values.len() && appears(lowercase(answer), lowercase(#[trigger] values[i]));
        assert(matches_rule(answer, GradingView::All(seq![values[i]])));
    }
}

/// One value is accepted where it stands in the answer: anywhere, unless it is
/// made of digits, and then only where no digit is next to it.
pub proof fn law_one_value_is_sought(answer: Seq<char>, value: Seq<char>)
    ensures
        ({
            let said = lowercase(answer);
            let sought = lowercase(value);
            let number = forall|i: int|
                0 <= i < sought.len() ==> '0' <= #[trigger] sought[i] <= '9';
            &&& !number ==> (matches_rule(answer, GradingView::All(seq![value])) <==> occurs(
                said,
                sought,
            ))
            &&& number ==> (matches_rule(answer, GradingView::All(seq![value])) <==> exists|i: int|
                {
                    &&& #[trigger] is_at(said, sought, i)
                    &&& i > 0 ==> !('0' <= said[i - 1] <= '9')
                    &&& i + sought.len() < said.len() ==> !('0' <= said[i + sought.len()] <= '9')
                })
        }),
{
    let said = lowercase(answer);
    let sought = lowercase(value);
    let one = seq![value];
    assert(one[0] == value);
    assert(all_appear(said, one) <==> appears(said, lowercase(one[0])));
    if all_digits(sought) {
        if exists|i: int| #[trigger] number_at(said, sought, i) {
            let i = choose|i: int| #[trigger] number_at(said, sought, i);
            assert(is_at(said, sought, i));
        }
        if exists|i: int|
            {
                &&& #[trigger] is_at(said, sought, i)
                &&& i > 0 ==> !('0' <= said[i - 1] <= '9')
                &&& i + sought.len() < said.len() ==> !('0' <= said[i + sought.len()] <= '9')
            } {
            let i = choose|i: int|
                {
                    &&& #[trigger] is_at(said, sought, i)
                    &&& i > 0 ==> !('0' <= said[i - 1] <= '9')
                    &&& i + sought.len() < said.len() ==> !('0' <= said[i + sought.len()] <= '9')
                };
            assert(number_at(said, sought, i));
        }
    }
}

/// A figure is required or forbidden, never both: the two rules are opposites.
/// Taking the names of the games away adds no figure, and an answer that names
/// none of them is judged as it stands.
pub proof fn law_figures_are_required_or_forbidden(lower: Seq<char>)
    ensures
        meets_rule(lower, DigitRule::Required) <==> !meets_rule(lower, DigitRule::Forbidden),
        (forall|i: int| 0 <= i < lower.len() ==> !('0' <= #[trigger] lower[i] <= '9'))
            ==> meets_rule(lower, DigitRule::Forbidden),
        (forall|k: int|
            0 <= k < name_tokens().len() ==> !occurs(lower, #[trigger] name_tokens()[k])) ==> (
        meets_rule(lower, DigitRule::Required) <==> exists|i: int|
            0 <= i < lower.len() && '0' <= #[trigger] lower[i] <= '9'),
{
    let n = name_tokens().len();
    let rest = without_names(lower, n);
    lemma_names_add_no_digit(lower, n);
    if has_digit(rest) {
        let i = choose|i: int| 0 <= i < rest.len() && is_digit(#[trigger] rest[i]);
        assert(lower.contains(rest[i]) || rest[i] == ' ');
        let j = choose|j: int| 0 <= j < lower.len() && lower[j] == rest[i];
        assert('0' <= lower[j] <= '9');
    }
    if forall|k: int| 0 <= k < name_tokens().len() ==> !occurs(lower, #[trigger] name_tokens()[k]) {
        lemma_no_names(lower, n);
        if exists|i: int| 0 <= i < lower.len() && '0' <= #[trigger] lower[i] <= '9' {
            let i = choose|i: int| 0 <= i < lower.len() && '0' <= #[trigger] lower[i] <= '9';
            assert(is_digit(lower[i]));
        }
    }
}

/// What is left without the names is of the text, or blank.
proof fn lemma_names_add_no_digit(lower: Seq<char>, n: nat)
    requires
        n <= name_tokens().len(),
    ensures
        forall|i: int|
            0 <= i < without_names(lower, n).len() ==> lower.contains(
                #[trigger] without_names(lower, n)[i],
            ) || without_names(lower, n)[i] == ' ',
    decreases n,
{
    if n > 0 {
        let before = without_names(lower, (n - 1) as nat);
        lemma_names_add_no_digit(lower, (n - 1) as nat);
        reveal_strlit(" ");
        lemma_replaced_chars(before, name_tokens()[n - 1], " "@);
        let after = without_names(lower, n);
        assert forall|i: int| 0 <= i < after.len() implies lower.contains(#[trigger] after[i])
            || after[i] == ' ' by {
            assert(before.contains(after[i]) || " "@.contains(after[i]));
            if before.contains(after[i]) {
                let j = choose|j: int| 0 <= j < before.len() && before[j] == after[i];
                assert(lower.contains(before[j]) || before[j] == ' ');
            }
        }
    }
}

/// What a replacement leaves is of the text or of what was put in.
proof fn lemma_replaced_chars(s: Seq<char>, from: Seq<char>, to: Seq<char>)
    ensures
        forall|i: int|
            0 <= i < replaced(s, from, to).len() ==> s.contains(#[trigger] replaced(s, from, to)[i])
                || to.contains(replaced(s, from, to)[i]),
    decreases s.len(),
{
    let out = replaced(s, from, to);
    if s.len() == 0 || from.len() == 0 {
        assert forall|i: int| 0 <= i < out.len() implies s.contains(#[trigger] out[i]) || to.contains(
            out[i],
        ) by {
            assert(s[i] == out[i]);
        }
    } else if is_at(s, from, 0) {
        let rest = s.skip(from.len() as int);
        lemma_replaced_chars(rest, from, to);
        assert forall|i: int| 0 <= i < out.len() implies s.contains(#[trigger] out[i]) || to.contains(
            out[i],
        ) by {
            if i < to.len() {
                assert(to[i] == out[i]);
            } else {
                let c = replaced(rest, from, to)[i - to.len()];
                assert(c == out[i]);
                if rest.contains(c) {
                    let j = choose|j: int| 0 <= j < rest.len() && rest[j] == c;
                    assert(s[j + from.len()] == c);
                }
            }
        }
    } else {
        let rest = s.skip(1);
        lemma_replaced_chars(rest, from, to);
        assert forall|i: int| 0 <= i < out.len() implies s.contains(#[trigger] out[i]) || to.contains(
            out[i],
        ) by {
            if i == 0 {
                assert(s[0] == out[0]);
            } else {
                let c = replaced(rest, from, to)[i - 1];
                assert(c == out[i]);
                if rest.contains(c) {
                    let j = choose|j: int| 0 <= j < rest.len() && rest[j] == c;
                    assert(s[j + 1] == c);
                }
            }
        }
    }
}

/// A text without names stays.
proof fn lemma_no_names(lower: Seq<char>, n: nat)
    requires
        n <= name_tokens().len(),
        forall|k: int|
            0 <= k < name_tokens().len() ==> !occurs(lower, #[trigger] name_tokens()[k]),
    ensures
        without_names(lower, n) == lower,
    decreases n,
{
    if n > 0 {
        lemma_no_names(lower, (n - 1) as nat);
        text::law_nothing_to_replace(lower, name_tokens()[n - 1], " "@);
    }
}

/// The challenge league that is sought is the first of the current ones that
/// is a challenge league, softcore, and neither for players on their own nor
/// ruthless.
pub proof fn law_challenge_league_is_the_first_plain_one(result: JsonView, leagues: Seq<JsonView>)
    requires
        at_key(at_key(result, "current"@), "leagues"@) == JsonView::Array(leagues),
    ensures
        challenge_id(result) matches Some(id) ==> exists|i: int|
            {
                &&& 0 <= i < leagues.len()
                &&& at_key(#[trigger] leagues[i], "id"@) == JsonView::Text(id)
                &&& at_key(leagues[i], "kind"@) == JsonView::Text("challenge"@)
                &&& at_key(leagues[i], "hardcore"@) == JsonView::Bool(false)
                &&& at_key(leagues[i], "ssf"@) != JsonView::Bool(true)
                &&& at_key(leagues[i], "ruthless"@) != JsonView::Bool(true)
                &&& forall|k: int|
                    0 <= k < i ==> {
                        ||| at_key(#[trigger] leagues[k], "kind"@) != JsonView::Text("challenge"@)
                        ||| at_key(leagues[k], "hardcore"@) != JsonView::Bool(false)
                        ||| at_key(leagues[k], "ssf"@) == JsonView::Bool(true)
                        ||| at_key(leagues[k], "ruthless"@) == JsonView::Bool(true)
                    }
            },
        challenge_id(result) is None ==> {
            ||| forall|k: int|
                0 <= k < leagues.len() ==> {
                    ||| at_key(#[trigger] leagues[k], "kind"@) != JsonView::Text("challenge"@)
                    ||| at_key(leagues[k], "hardcore"@) != JsonView::Bool(false)
                    ||| at_key(leagues[k], "ssf"@) == JsonView::Bool(true)
                    ||| at_key(leagues[k], "ruthless"@) == JsonView::Bool(true)
                }
            ||| exists|k: int|
                0 <= k < leagues.len() && !(at_key(#[trigger] leagues[k], "id"@) is Text)
        },
{
    let i = lemma_first_plain(leagues, 0);
    if i < leagues.len() {
        assert(first_plain(leagues, 0) == Some(leagues[i]));
        if challenge_id(result) is Some {
            assert(at_key(leagues[i], "id"@) == JsonView::Text(challenge_id(result)->0));
        } else {
            assert(!(at_key(leagues[i], "id"@) is Text));
        }
    }
}

/// Where the first plain challenge league stands, or the end.
proof fn lemma_first_plain(leagues: Seq<JsonView>, from: int) -> (i: int)
    requires
        0 <= from <= leagues.len(),
    ensures
        from <= i <= leagues.len(),
        forall|k: int| from <= k < i ==> !is_plain_challenge(#[trigger] leagues[k]),
        i < leagues.len() ==> is_plain_challenge(leagues[i]) && first_plain(leagues, from) == Some(
            leagues[i],
        ),
        i == leagues.len() ==> first_plain(leagues, from) is None,
    decreases leagues.len() - from,
{
    if from == leagues.len() || is_plain_challenge(leagues[from]) {
        from
    } else {
        lemma_first_plain(leagues, from + 1)
    }
}

/// The latest concluded league is the last one that is listed.
pub proof fn law_latest_league_is_the_last_listed(result: JsonView, leagues: Seq<JsonView>)
    requires
        at_key(at_key(result, "past"@), "leagues"@) == JsonView::Array(leagues),
        leagues.len() > 0,
    ensures
        at_key(leagues[leagues.len() - 1], "name"@) matches JsonView::Text(name) ==> last_past(
            result,
        ) == Some(name),
        !(at_key(leagues[leagues.len() - 1], "name"@) is Text) ==> last_past(result) is None,
{
}

/// A whole stat is expected in digits, with a minus where it is negative; any
/// other number as it is written without an exponent; what is no number is not
/// expected.
pub proof fn law_stats_are_expected_as_written(value: JsonView)
    ensures
        value matches JsonView::Unsigned(n) ==> (n <= 9223372036854775807 ==> stat_text(value)
            == Some(decimal(n as nat))),
        value matches JsonView::Negative(n) ==> (n < 0 ==> stat_text(value) == Some(
            seq!['-'] + decimal((-n) as nat),
        )),
        value matches JsonView::Float(number) ==> stat_text(value) == plain_decimal(number),
        value is Null || value is Bool || value is Text || value is Array || value is Object
            ==> stat_text(value) is None,
{
}

/// What a question asks of the tools: the leagues of its game, the concluded
/// ones of its game, or the one stat of its build; a question with values of
/// its own asks nothing.
pub proof fn law_questions_ask_for_their_truth(expect: Expect)
    ensures
        truth_request(expect) is None <==> expect is ContainsAny || expect is ContainsAll,
        expect matches Expect::ChallengeLeagueId { game } ==> truth_request(expect) == Some(
            "{\"game\":\""@ + game@ + "\"}"@,
        ),
        expect matches Expect::LatestPastLeague { game } ==> truth_request(expect) == Some(
            "{\"game\":\""@ + game@ + "\",\"include\":\"past\"}"@,
        ),
        expect matches Expect::PobStat { game, stat, xml } ==> exists|call: JsonView|
            {
                &&& truth_request(expect) == Some(#[trigger] printed(call))
                &&& at_key(call, "game"@) == JsonView::Text(game@)
                &&& at_key(call, "xml"@) == JsonView::Text(xml@)
                &&& at_key(call, "stats"@) == JsonView::Array(seq![JsonView::Text(stat@)])
            },
{
    reveal_strlit("game");
    reveal_strlit("xml");
    reveal_strlit("stats");
    assert("game"@.len() == 4);
    assert("xml"@.len() == 3);
    assert("stats"@.len() == 5);
    if let Expect::PobStat { game, stat, xml } = expect {
        let call = put(
            put(
                put(no_members(), "game"@, JsonView::Text(game@)),
                "xml"@,
                JsonView::Text(xml@),
            ),
            "stats"@,
            JsonView::Array(seq![JsonView::Text(stat@)]),
        );
        assert(truth_request(expect) == Some(printed(call)));
    }
}

/// What is accepted as an answer: the question's own values, the id of the
/// challenge league, the name of the latest league, or the build's stat, each
/// as the tool told it. But for a build the prompt stays.
pub proof fn law_truth_is_what_the_tools_told(expect: Expect, prompt: Seq<char>, result: JsonView)
    ensures
        expect matches Expect::ContainsAny { values } ==> resolved_json(expect, prompt, result)
            == Ok::<(GradingView, Seq<char>), Seq<char>>(
            (GradingView::Any(texts(values@)), prompt),
        ),
        expect matches Expect::ContainsAll { values } ==> resolved_json(expect, prompt, result)
            == Ok::<(GradingView, Seq<char>), Seq<char>>(
            (GradingView::All(texts(values@)), prompt),
        ),
        expect is ChallengeLeagueId ==> match challenge_id(result) {
            Some(id) => resolved_json(expect, prompt, result) == Ok::<
                (GradingView, Seq<char>),
                Seq<char>,
            >((GradingView::Any(seq![id]), prompt)),
            None => resolved_json(expect, prompt, result) is Err,
        },
        expect is LatestPastLeague ==> match last_past(result) {
            Some(name) => resolved_json(expect, prompt, result) == Ok::<
                (GradingView, Seq<char>),
                Seq<char>,
            >((GradingView::Any(seq![name]), prompt)),
            None => resolved_json(expect, prompt, result) is Err,
        },
        expect matches Expect::PobStat { stat, xml, .. } ==> {
            let value = at_key(at_key(at_key(result, "build"@), "stats"@), stat@);
            &&& stat_text(value) is None ==> resolved_json(expect, prompt, result) is Err
            &&& resolved_json(expect, prompt, result) matches Ok((grading, _)) ==> grading
                == GradingView::Any(seq![stat_text(value)->0])
        },
{
}

/// A tool that fails leaves the question without truth, and so does an answer
/// that is no JSON.
pub proof fn law_failed_tools_give_no_truth(expect: Expect, prompt: Seq<char>, answer: Answer)
    ensures
        answer is Err ==> resolved_answer(expect, prompt, answer) is Err,
        answer matches Ok(json) ==> match parsed(json) {
            Ok(result) => resolved_answer(expect, prompt, answer) == resolved_json(
                expect,
                prompt,
                result,
            ),
            Err(error) => resolved_answer(expect, prompt, answer) is Err,
        },
{
}

/// What was answered is the streamed text, chunk behind chunk, and nothing
/// else of what was shown.
pub proof fn law_answers_are_the_streamed_text(events: Seq<EventView>, n: nat)
    requires
        n <= events.len(),
    ensures
        streamed_text(events, n) == text::joined(
            events.take(n as int).filter(|event: EventView| event is TokenDelta).map_values(
                |event: EventView| event->TokenDelta_0,
            ),
        ),
    decreases n,
{
    reveal(Seq::filter);
    let said = |event: EventView| event is TokenDelta;
    let chunk = |event: EventView| event->TokenDelta_0;
    if n > 0 {
        law_answers_are_the_streamed_text(events, (n - 1) as nat);
        let front = events.take(n as int);
        assert(front.drop_last() =~= events.take(n - 1));
        assert(front.last() == events[n - 1]);
        let before = events.take(n - 1).filter(said).map_values(chunk);
        let all = front.filter(said).map_values(chunk);
        if events[n - 1] is TokenDelta {
            assert(all =~= before.push(events[n - 1]->TokenDelta_0));
            assert(all.drop_last() =~= before);
        } else {
            assert(all =~= before);
        }
    } else {
        assert(events.take(0) =~= seq![]);
        assert(events.take(0).filter(said).map_values(chunk) =~= seq![]);
    }
}

/// A turn that failed is told with the last failure that was shown, and one
/// without a failure has none.
pub proof fn law_failures_are_found(events: Seq<EventView>, n: nat)
    requires
        n <= events.len(),
    ensures
        failure_among(events, n) is None <==> forall|i: int|
            0 <= i < n ==> !(#[trigger] events[i] is TurnFailed),
        failure_among(events, n) matches Some(error) ==> exists|i: int|
            {
                &&& 0 <= i < n
                &&& #[trigger] events[i] == (EventView::TurnFailed { error })
                &&& forall|k: int| i < k < n ==> !(#[trigger] events[k] is TurnFailed)
            },
    decreases n,
{
    if n > 0 {
        if let EventView::TurnFailed { error } = events[n - 1] {
            assert(events[n - 1] == (EventView::TurnFailed { error }));
        } else {
            law_failures_are_found(events, (n - 1) as nat);
            if failure_among(events, n) is Some {
                let error = failure_among(events, n)->0;
                let i = choose|i: int|
                    {
                        &&& 0 <= i < n - 1
                        &&& #[trigger] events[i] == (EventView::TurnFailed { error })
                        &&& forall|k: int| i < k < n - 1 ==> !(#[trigger] events[k] is TurnFailed)
                    };
                assert(events[i] == (EventView::TurnFailed { error }));
            }
        }
    }
}

/// Every question that neither passed nor was left out counts as failed, once.
pub proof fn law_failed_questions_are_counted(shown: Seq<Shown>, n: nat)
    requires
        n <= shown.len(),
    ensures
        failures_among(shown, n) == shown.take(n as int).filter(
            |one: Shown| one != Shown::Pass && one != Shown::Skip,
        ).len(),
    decreases n,
{
    reveal(Seq::filter);
    if n > 0 {
        law_failed_questions_are_counted(shown, (n - 1) as nat);
        assert(shown.take(n as int).drop_last() =~= shown.take(n - 1));
        assert(shown.take(n as int).last() == shown[n - 1]);
    } else {
        assert(shown.take(0) =~= seq![]);
    }
}

/// A parked question is left out, whatever became of it; any other is shown as
/// what became of it, and passes only where its answer passed.
pub proof fn law_outcomes_are_shown(outcome: Outcome)
    ensures
        shown_as(true, outcome) == Shown::Skip,
        shown_as(false, outcome) == Shown::Pass <==> outcome == Outcome::Graded(Verdict::Pass),
        shown_as(false, outcome) == Shown::Mismatch <==> outcome == Outcome::Graded(
            Verdict::Mismatch,
        ),
        shown_as(false, outcome) == Shown::Digits <==> outcome == Outcome::Graded(Verdict::Digits),
        shown_as(false, outcome) == Shown::NoTruth <==> outcome == Outcome::NoTruth,
        shown_as(false, outcome) == Shown::NoAnswer <==> outcome == Outcome::NoAnswer,
{
}

/// In the prompt of a question on a build, the place for the XML takes the
/// build's XML, and a prompt without places stays.
pub proof fn law_prompts_take_the_build(
    front: Seq<char>,
    back: Seq<char>,
    stat: Seq<char>,
    xml: Seq<char>,
    result: JsonView,
)
    requires
        forall|i: int| 0 <= i < front.len() ==> #[trigger] front[i] != '{',
        forall|i: int| 0 <= i < back.len() ==> #[trigger] back[i] != '{',
    ensures
        resolved_stat(front, stat, xml, result) matches Ok((_, asked)) ==> asked == front,
        resolved_stat(front + "{xml}"@ + back, stat, xml, result) matches Ok((_, asked)) ==> asked
            == front + xml + back,
{
    reveal_strlit("{code}");
    reveal_strlit("{xml}");
    assert("{code}"@.len() == 6);
    assert("{xml}"@.len() == 5);
    lemma_no_place(front, "{code}"@);
    lemma_no_place(front, "{xml}"@);
    lemma_no_place(back, "{xml}"@);
    let coded = match deflated(encode_utf8(xml)) {
        Ok(bytes) => base64_encoded(bytes),
        Err(_) => seq![],
    };
    text::law_nothing_to_replace(front, "{code}"@, coded);
    text::law_nothing_to_replace(front, "{xml}"@, xml);
    text::law_nothing_to_replace(back, "{xml}"@, xml);
    let whole = front + "{xml}"@ + back;
    if occurs(whole, "{code}"@) {
        let i = choose|i: int| #[trigger] is_at(whole, "{code}"@, i);
        assert(whole.subrange(i, i + 6)[0] == whole[i]);
        assert(whole.subrange(i, i + 6)[1] == whole[i + 1]);
        assert(whole[i] == '{');
        assert(i == front.len());
        assert(whole[i + 1] == 'x');
    }
    text::law_nothing_to_replace(whole, "{code}"@, coded);
    assert forall|k: int| 0 <= k < front.len() implies !#[trigger] is_at(whole, "{xml}"@, k) by {
        if is_at(whole, "{xml}"@, k) {
            assert(whole.subrange(k, k + 5)[0] == whole[k]);
            assert(whole[k] == front[k]);
        }
    }
    text::law_first_place_is_replaced(front, back, "{xml}"@, xml);
}

/// A text without braces has no place that begins with one.
proof fn lemma_no_place(s: Seq<char>, place: Seq<char>)
    requires
        forall|i: int| 0 <= i < s.len() ==> #[trigger] s[i] != '{',
        place.len() > 0,
        place[0] == '{',
    ensures
        !occurs(s, place),
{
    if occurs(s, place) {
        let i = choose|i: int| #[trigger] is_at(s, place, i);
        assert(s.subrange(i, i + place.len())[0] == s[i]);
    }
}

/// The names whose digits are no figures: those of the two games, short and
/// long, and those of the second game's planner.
pub proof fn law_names_with_digits()
    ensures
        name_tokens().len() == 9,
        name_tokens().contains("path of exile 1"@),
        name_tokens().contains("path of exile 2"@),
        name_tokens().contains("poe1"@),
        name_tokens().contains("poe2"@),
        name_tokens().contains("poe 1"@),
        name_tokens().contains("poe 2"@),
        name_tokens().contains("path of building 2"@),
        name_tokens().contains("pob2"@),
        name_tokens().contains("pob 2"@),
{
    let names = name_tokens();
    assert(names[0] == "path of exile 1"@);
    assert(names[1] == "path of exile 2"@);
    assert(names[2] == "poe1"@);
    assert(names[3] == "poe2"@);
    assert(names[4] == "poe 1"@);
    assert(names[5] == "poe 2"@);
    assert(names[6] == "path of building 2"@);
    assert(names[7] == "pob2"@);
    assert(names[8] == "pob 2"@);
}

/// The digit of a name is no figure: a text with one of the names, and with no
/// other digit, passes where figures are forbidden and not where one is
/// required.
pub proof fn law_names_alone_are_no_figures(front: Seq<char>, back: Seq<char>, token: Seq<char>)
    requires
        name_tokens().contains(token),
        forall|i: int| 0 <= i < front.len() ==> !is_digit(#[trigger] front[i]),
        forall|i: int| 0 <= i < back.len() ==> !is_digit(#[trigger] back[i]),
    ensures
        meets_rule(front + token + back, DigitRule::Forbidden),
        !meets_rule(front + token + back, DigitRule::Required),
{
    let whole = front + token + back;
    let n = name_tokens().len();
    let own = choose|k: int| 0 <= k < n && name_tokens()[k] == token;
    lemma_name_ends_in_digit(own);
    let end = front.len() as int + token.len() - 1;
    assert(whole[end] == token[token.len() - 1]);
    assert forall|i: int| 0 <= i < whole.len() && i != end implies !is_digit(
        #[trigger] whole[i],
    ) by {
        if i < front.len() {
            assert(whole[i] == front[i]);
        } else if i < end {
            assert(whole[i] == token[i - front.len()]);
        } else {
            assert(whole[i] == back[i - front.len() - token.len()]);
        }
    }
    assert(whole.subrange(front.len() as int, (front.len() + token.len()) as int) =~= token);
    assert(is_at(whole, token, front.len() as int));
    assert(occurs(whole, name_tokens()[own]));
    let k = lemma_first_name(whole, 0, own);
    lemma_names_before(whole, k as nat);
    lemma_name_ends_in_digit(k);
    lemma_name_takes_its_digit(whole, name_tokens()[k], end);
    lemma_digitless_stays(whole, (k + 1) as nat, n);
}

/// The first name that a text holds, up to one that it does.
proof fn lemma_first_name(s: Seq<char>, from: int, own: int) -> (k: int)
    requires
        0 <= from <= own < name_tokens().len(),
        occurs(s, name_tokens()[own]),
    ensures
        from <= k <= own,
        occurs(s, name_tokens()[k]),
        forall|m: int| from <= m < k ==> !occurs(s, #[trigger] name_tokens()[m]),
    decreases own - from,
{
    if occurs(s, name_tokens()[from]) {
        from
    } else {
        lemma_first_name(s, from + 1, own)
    }
}

/// Names that a text does not hold take nothing away.
proof fn lemma_names_before(s: Seq<char>, k: nat)
    requires
        k <= name_tokens().len(),
        forall|m: int| 0 <= m < k ==> !occurs(s, #[trigger] name_tokens()[m]),
    ensures
        without_names(s, k) == s,
    decreases k,
{
    if k > 0 {
        lemma_names_before(s, (k - 1) as nat);
        assert(!occurs(s, name_tokens()[k - 1]));
        text::law_nothing_to_replace(s, name_tokens()[k - 1], " "@);
    }
}

/// Of a name the last character is a digit, and no other.
proof fn lemma_name_ends_in_digit(k: int)
    requires
        0 <= k < name_tokens().len(),
    ensures
        name_tokens()[k].len() > 0,
        is_digit(name_tokens()[k].last()),
        forall|i: int|
            0 <= i < name_tokens()[k].len() - 1 ==> !is_digit(#[trigger] name_tokens()[k][i]),
{
    reveal_strlit("path of exile 1");
    reveal_strlit("path of exile 2");
    reveal_strlit("poe1");
    reveal_strlit("poe2");
    reveal_strlit("poe 1");
    reveal_strlit("poe 2");
    reveal_strlit("path of building 2");
    reveal_strlit("pob2");
    reveal_strlit("pob 2");
    let names = name_tokens();
    assert(names[0] == "path of exile 1"@ && "path of exile 1"@.len() == 15);
    assert(names[1] == "path of exile 2"@ && "path of exile 2"@.len() == 15);
    assert(names[2] == "poe1"@ && "poe1"@.len() == 4);
    assert(names[3] == "poe2"@ && "poe2"@.len() == 4);
    assert(names[4] == "poe 1"@ && "poe 1"@.len() == 5);
    assert(names[5] == "poe 2"@ && "poe 2"@.len() == 5);
    assert(names[6] == "path of building 2"@ && "path of building 2"@.len() == 18);
    assert(names[7] == "pob2"@ && "pob2"@.len() == 4);
    assert(names[8] == "pob 2"@ && "pob 2"@.len() == 5);
}

/// Where the one digit of a text ends a name, it goes with the name.
proof fn lemma_name_takes_its_digit(s: Seq<char>, token: Seq<char>, end: int)
    requires
        token.len() > 0,
        is_digit(token.last()),
        forall|i: int| 0 <= i < token.len() - 1 ==> !is_digit(#[trigger] token[i]),
        0 <= end < s.len(),
        forall|i: int| 0 <= i < s.len() && i != end ==> !is_digit(#[trigger] s[i]),
        occurs(s, token),
    ensures
        forall|i: int|
            0 <= i < replaced(s, token, " "@).len() ==> !is_digit(
                #[trigger] replaced(s, token, " "@)[i],
            ),
{
    reveal_strlit(" ");
    let at = choose|at: int| #[trigger] is_at(s, token, at);
    let last = token.len() - 1;
    assert(s.subrange(at, at + token.len())[last] == s[at + last]);
    assert(at + last == end);
    let front = s.take(at);
    let back = s.skip(at + token.len());
    assert(s =~= front + token + back);
    assert forall|k: int| 0 <= k < front.len() implies !#[trigger] is_at(s, token, k) by {
        if is_at(s, token, k) {
            assert(s.subrange(k, k + token.len())[last] == s[k + last]);
            assert(is_digit(s[k + last]));
        }
    }
    text::law_first_place_is_replaced(front, back, token, " "@);
    assert forall|i: int| 0 <= i < back.len() implies !is_digit(#[trigger] back[i]) by {
        assert(back[i] == s[at + token.len() + i]);
    }
    lemma_no_token(back, token);
    text::law_nothing_to_replace(back, token, " "@);
    let rest = front + " "@ + back;
    assert forall|i: int| 0 <= i < rest.len() implies !is_digit(#[trigger] rest[i]) by {
        if i < front.len() {
            assert(rest[i] == s[i]);
        } else if i > front.len() {
            assert(rest[i] == back[i - front.len() - 1]);
        }
    }
}

/// A text without digits holds no name that ends in one.
proof fn lemma_no_token(s: Seq<char>, token: Seq<char>)
    requires
        token.len() > 0,
        is_digit(token.last()),
        forall|i: int| 0 <= i < s.len() ==> !is_digit(#[trigger] s[i]),
    ensures
        !occurs(s, token),
{
    if occurs(s, token) {
        let k = choose|k: int| #[trigger] is_at(s, token, k);
        assert(s.subrange(k, k + token.len())[token.len() - 1] == s[k + token.len() - 1]);
    }
}

/// A text that has lost its digits gains none from the other names.
proof fn lemma_digitless_stays(s: Seq<char>, k: nat, n: nat)
    requires
        k <= n <= name_tokens().len(),
        forall|i: int|
            0 <= i < without_names(s, k).len() ==> !is_digit(#[trigger] without_names(s, k)[i]),
    ensures
        forall|i: int|
            0 <= i < without_names(s, n).len() ==> !is_digit(#[trigger] without_names(s, n)[i]),
    decreases n,
{
    if k < n {
        lemma_digitless_stays(s, k, (n - 1) as nat);
        let before = without_names(s, (n - 1) as nat);
        let after = without_names(s, n);
        reveal_strlit(" ");
        lemma_replaced_chars(before, name_tokens()[n - 1], " "@);
        assert forall|i: int| 0 <= i < after.len() implies !is_digit(#[trigger] after[i]) by {
            assert(before.contains(after[i]) || " "@.contains(after[i]));
            if before.contains(after[i]) {
                let j = choose|j: int| 0 <= j < before.len() && before[j] == after[i];
                assert(!is_digit(before[j]));
            }
        }
    }
}

/// A question without truth tells why: which tool failed and how, what the
/// tool's result lacks, or which stat is missing.
pub proof fn law_missing_truth_is_told(expect: Expect, prompt: Seq<char>, result: JsonView)
    ensures
        forall|fault: crate::tool::Fault| #[trigger]
            resolved_answer(expect, prompt, Err(fault)) == Err::<
                (GradingView, Seq<char>),
                Seq<char>,
            >(
                "ground-truth "@ + if expect is PobStat {
                    "pob"@
                } else {
                    "league"@
                } + " call failed: "@ + fault_text(fault),
            ),
        expect is ChallengeLeagueId && challenge_id(result) is None ==> resolved_json(
            expect,
            prompt,
            result,
        ) == Err::<(GradingView, Seq<char>), Seq<char>>("no challenge league in tool result"@),
        expect is LatestPastLeague && last_past(result) is None ==> resolved_json(
            expect,
            prompt,
            result,
        ) == Err::<(GradingView, Seq<char>), Seq<char>>("no past leagues in tool result"@),
        expect matches Expect::PobStat { stat, .. } ==> (stat_text(
            at_key(at_key(at_key(result, "build"@), "stats"@), stat@),
        ) is None ==> resolved_json(expect, prompt, result) == Err::<
            (GradingView, Seq<char>),
            Seq<char>,
        >("stat `"@ + stat@ + "` missing from pob result"@)),
{
}

}
