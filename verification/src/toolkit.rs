//! What the tools share: which game a call is about, URL encoding, and the
//! stamps on results.

use vstd::prelude::*;

use crate::json::{at_key, JsonView};
use crate::text;
use crate::text::decimal;

verus! {

/// User-Agent for all outbound requests: the economy and league services
/// require a descriptive one; the repository URL is the contact channel.
pub const USER_AGENT: &'static str =
    "exile-harness/0.1 (+https://github.com/timeloop-vault/exile-harness)";

/// Which game a tool call targets. Path of Exile 1 and 2 are first-class and
/// separate: every game-scoped tool takes this.
#[derive(Debug, Clone, Copy, PartialEq, Eq, Structural)]
pub enum Game {
    /// Path of Exile 1.
    Poe1,
    /// Path of Exile 2.
    Poe2,
}

/// The lowercase identifier of a game.
pub open spec fn game_id(game: Game) -> Seq<char> {
    match game {
        Game::Poe1 => "poe1"@,
        Game::Poe2 => "poe2"@,
    }
}

impl Game {
    /// The lowercase API identifier (`poe1` | `poe2`).
    pub fn as_str(self) -> (id: &'static str)
        ensures
            id@ == game_id(self),
    {
        match self {
            Game::Poe1 => "poe1",
            Game::Poe2 => "poe2",
        }
    }

    /// The identifier as an owned text.
    pub fn to_string(&self) -> (id: String)
        ensures
            id@ == game_id(*self),
    {
        self.as_str().to_owned()
    }

    /// The game that an identifier names.
    pub fn from_id(id: &str) -> (game: Option<Game>)
        ensures
            game == game_of_id(id@),
    {
        if text::same(id, "poe1") {
            Some(Game::Poe1)
        } else if text::same(id, "poe2") {
            Some(Game::Poe2)
        } else {
            None
        }
    }
}

/// The game that an identifier names.
pub open spec fn game_of_id(id: Seq<char>) -> Option<Game> {
    if id == "poe1"@ {
        Some(Game::Poe1)
    } else if id == "poe2"@ {
        Some(Game::Poe2)
    } else {
        None
    }
}

/// The identifier of a game names that game, and no other.
pub proof fn law_game_ids_are_distinct(game: Game)
    ensures
        game_of_id(game_id(game)) == Some(game),
{
    reveal_strlit("poe1");
    reveal_strlit("poe2");
    assert("poe1"@[3] != "poe2"@[3]);
}

/// Whether a result tells which game it is about and when it was fetched.
pub open spec fn is_stamped(result: JsonView, game: Game, stamp: Seq<char>) -> bool {
    &&& at_key(result, "game"@) == JsonView::Text(game_id(game))
    &&& at_key(result, "fetched_at"@) == JsonView::Text(stamp)
}

/// Whether a section of a result tells where it comes from.
pub open spec fn is_sourced(section: JsonView) -> bool {
    at_key(section, "source"@) is Text
}

/// Whether a byte stands for itself in a URL (RFC 3986, unreserved).
pub open spec fn is_unreserved(byte: u8) -> bool {
    ||| 65 <= byte <= 90
    ||| 97 <= byte <= 122
    ||| 48 <= byte <= 57
    ||| byte == 45
    ||| byte == 46
    ||| byte == 95
    ||| byte == 126
}

/// The uppercase hexadecimal digit of a number below sixteen.
pub open spec fn hex_digit(n: int) -> char {
    if n < 10 {
        (48 + n) as u8 as char
    } else {
        (55 + n) as u8 as char
    }
}

/// What a byte becomes in a URL.
pub open spec fn encoded_byte(byte: u8) -> Seq<char> {
    if is_unreserved(byte) {
        seq![byte as char]
    } else {
        seq!['%', hex_digit(byte as int / 16), hex_digit(byte as int % 16)]
    }
}

/// Bytes percent-encoded.
pub open spec fn percent_encoded(bytes: Seq<u8>) -> Seq<char>
    decreases bytes.len(),
{
    if bytes.len() == 0 {
        seq![]
    } else {
        percent_encoded(bytes.drop_last()) + encoded_byte(bytes.last())
    }
}

/// The number of an uppercase hexadecimal digit.
pub open spec fn hex_value(c: char) -> int {
    if '0' <= c <= '9' {
        c as int - 48
    } else {
        c as int - 55
    }
}

/// The bytes that a percent-encoded text stands for.
pub open spec fn percent_decoded(s: Seq<char>) -> Seq<u8>
    decreases s.len(),
{
    if s.len() == 0 {
        seq![]
    } else if s[0] == '%' && s.len() >= 3 {
        seq![(hex_value(s[1]) * 16 + hex_value(s[2])) as u8] + percent_decoded(s.skip(3))
    } else {
        seq![s[0] as u8] + percent_decoded(s.skip(1))
    }
}

/// Whether a character may stand in a percent-encoded text.
pub open spec fn is_url_safe(c: char) -> bool {
    c == '%' || ('\0' <= c <= '\u{7f}' && is_unreserved(c as u8))
}

pub proof fn lemma_encoded_front(byte: u8, rest: Seq<u8>)
    ensures
        percent_encoded(seq![byte] + rest) == encoded_byte(byte) + percent_encoded(rest),
    decreases rest.len(),
{
    let all = seq![byte] + rest;
    if rest.len() == 0 {
        assert(all.drop_last() =~= Seq::<u8>::empty());
        assert(percent_encoded(all.drop_last()) =~= Seq::<char>::empty());
        assert(percent_encoded(all) =~= encoded_byte(byte) + percent_encoded(rest));
    } else {
        lemma_encoded_front(byte, rest.drop_last());
        assert(all.drop_last() =~= seq![byte] + rest.drop_last());
        assert(all.last() == rest.last());
        assert(percent_encoded(all) =~= encoded_byte(byte) + percent_encoded(rest));
    }
}

/// Percent-encoding loses nothing: decoding gives the bytes back.
pub proof fn law_percent_encoding_decodes(bytes: Seq<u8>)
    ensures
        percent_decoded(percent_encoded(bytes)) == bytes,
    decreases bytes.len(),
{
    if bytes.len() > 0 {
        let byte = bytes[0];
        let rest = bytes.skip(1);
        assert(bytes =~= seq![byte] + rest);
        lemma_encoded_front(byte, rest);
        law_percent_encoding_decodes(rest);
        let tail = percent_encoded(rest);
        let all = encoded_byte(byte) + tail;
        if is_unreserved(byte) {
            assert(all.skip(1) =~= tail);
            assert(byte as char as u8 == byte);
            assert(all[0] != '%');
        } else {
            assert(all.skip(3) =~= tail);
            assert(hex_value(all[1]) * 16 + hex_value(all[2]) == byte as int);
        }
        assert(percent_decoded(all) =~= bytes);
    }
}

/// What comes out of percent-encoding is safe in a URL.
pub proof fn law_percent_encoding_is_url_safe(bytes: Seq<u8>)
    ensures
        forall|i: int|
            0 <= i < percent_encoded(bytes).len() ==> is_url_safe(
                #[trigger] percent_encoded(bytes)[i],
            ),
    decreases bytes.len(),
{
    if bytes.len() > 0 {
        law_percent_encoding_is_url_safe(bytes.drop_last());
        let byte = bytes.last();
        let before = percent_encoded(bytes.drop_last());
        let last = encoded_byte(byte);
        let all = percent_encoded(bytes);
        assert(all == before + last);
        assert forall|i: int| 0 <= i < all.len() implies is_url_safe(#[trigger] all[i]) by {
            if i < before.len() {
                assert(all[i] == before[i]);
            } else {
                assert(all[i] == last[i - before.len()]);
                if is_unreserved(byte) {
                    assert(byte as char as u8 == byte);
                }
            }
        }
    }
}

/// The uppercase hexadecimal digit of a number below sixteen.
fn upper_hex(n: u8) -> (c: char)
    requires
        n < 16,
    ensures
        c == hex_digit(n as int),
{
    if n < 10 {
        (48 + n) as char
    } else {
        (55 + n) as char
    }
}

/// Percent-encode a string for use inside a URL query value (RFC 3986
/// unreserved characters pass through; everything else is `%XX`-encoded,
/// including spaces).
pub fn percent_encode(raw: &str) -> (out: String)
    ensures
        out@ == percent_encoded(vstd::utf8::encode_utf8(raw@)),
{
    let bytes = raw.as_bytes();
    let mut out = String::new();
    let mut i: usize = 0;
    assert(bytes@.take(0) =~= Seq::<u8>::empty());
    while i < bytes.len()
        invariant
            i <= bytes@.len(),
            out@ == percent_encoded(bytes@.take(i as int)),
        decreases bytes@.len() - i,
    {
        let byte = bytes[i];
        let ghost before = out@;
        proof {
            assert(bytes@.take(i + 1).drop_last() =~= bytes@.take(i as int));
            assert(bytes@.take(i + 1).last() == byte);
        }
        if (65 <= byte && byte <= 90) || (97 <= byte && byte <= 122) || (48 <= byte && byte <= 57)
            || byte == 45 || byte == 46 || byte == 95 || byte == 126 {
            out.push(byte as char);
        } else {
            out.push('%');
            out.push(upper_hex(byte / 16));
            out.push(upper_hex(byte % 16));
        }
        assert(out@ =~= before + encoded_byte(byte));
        i += 1;
    }
    assert(bytes@.take(i as int) =~= bytes@);
    out
}

/// Whether two decimal digits stand at a position.
pub open spec fn two_digits(s: Seq<char>, i: int) -> bool {
    '0' <= s[i] <= '9' && '0' <= s[i + 1] <= '9'
}

/// Whether a text has the form of a stamp: a year of at least four
/// characters, and `-MM-DDTHH:MM:SSZ` behind it.
pub open spec fn is_stamp(s: Seq<char>) -> bool {
    let n = s.len() - 16;
    &&& n >= 4
    &&& s[n] == '-' && two_digits(s, n + 1)
    &&& s[n + 3] == '-' && two_digits(s, n + 4)
    &&& s[n + 6] == 'T' && two_digits(s, n + 7)
    &&& s[n + 9] == ':' && two_digits(s, n + 10)
    &&& s[n + 12] == ':' && two_digits(s, n + 13)
    &&& s[n + 15] == 'Z'
}

/// Current UTC time as `YYYY-MM-DDTHH:MM:SSZ`, for `fetched_at` stamps:
/// `jiff::Timestamp::now`, printed by `strftime`. Which time that is depends on
/// the clock; of the text only its form is stated. A year is padded with zeros
/// to four characters, and may have a sign; the other parts are padded to two
/// digits.
#[verifier::external_body]
pub fn now_utc() -> (stamp: String)
    ensures
        is_stamp(stamp@),
{
    jiff::Timestamp::now().strftime("%Y-%m-%dT%H:%M:%SZ").to_string()
}

/// How a request that failed is reported. A refusal by status has the stable
/// form `http status: NNN`, which other tools look for.
pub open spec fn get_failure(url: Seq<char>, reason: Seq<char>) -> Seq<char> {
    "GET "@ + url + " failed: "@ + reason
}

/// How a status is reported.
pub open spec fn status_reason(code: u16) -> Seq<char> {
    "http status: "@ + decimal(code as nat)
}

/// Report a request that failed.
pub fn describe_get_failure(url: &str, reason: &str) -> (line: String)
    ensures
        line@ == get_failure(url@, reason@),
{
    let mut line = "GET ".to_owned();
    line.append(url);
    line.append(" failed: ");
    line.append(reason);
    line
}

/// Report a request that was refused by status.
pub fn describe_get_status(url: &str, code: u16) -> (line: String)
    ensures
        line@ == get_failure(url@, status_reason(code)),
{
    let mut reason = "http status: ".to_owned();
    reason.append(text::decimal_text(code as u64).as_str());
    describe_get_failure(url, reason.as_str())
}

/// The games are called "poe1" and "poe2", in what is read and in what is
/// written.
pub proof fn law_games_have_their_ids(id: Seq<char>)
    ensures
        game_id(Game::Poe1) == "poe1"@,
        game_id(Game::Poe2) == "poe2"@,
        game_of_id(id) == Some(Game::Poe1) <==> id == "poe1"@,
        game_of_id(id) == Some(Game::Poe2) <==> id == "poe2"@,
        game_of_id(id) is None <==> id != "poe1"@ && id != "poe2"@,
{
    reveal_strlit("poe1");
    reveal_strlit("poe2");
    assert("poe1"@.len() == 4);
    assert("poe2"@.len() == 4);
    assert("poe1"@[3] != "poe2"@[3]);
}

/// A page that could not be fetched is told with its address and the reason,
/// and a status as its number.
pub proof fn law_failed_pages_are_told(url: Seq<char>, reason: Seq<char>, code: u16)
    ensures
        text::is_at(get_failure(url, reason), "GET "@ + url, 0),
        text::is_at(
            get_failure(url, reason),
            reason,
            get_failure(url, reason).len() - reason.len(),
        ),
        status_reason(code) == "http status: "@ + decimal(code as nat),
{
    let told = get_failure(url, reason);
    let head = "GET "@ + url;
    assert(told.subrange(0, head.len() as int) =~= head);
    assert(told.subrange(told.len() - reason.len(), told.len() as int) =~= reason);
}

/// Letters, digits and the four marks `-._~` stay as they are in an address;
/// every other byte is a percent sign and two hexadecimal digits in capitals.
pub proof fn law_bytes_are_encoded_in_capitals(byte: u8)
    ensures
        ({
            let written = percent_encoded(seq![byte]);
            let plain = 'a' as u8 <= byte <= 'z' as u8 || 'A' as u8 <= byte <= 'Z' as u8 || '0' as u8
                <= byte <= '9' as u8 || byte == '-' as u8 || byte == '.' as u8 || byte == '_' as u8
                || byte == '~' as u8;
            &&& plain ==> written == seq![byte as char]
            &&& !plain ==> {
                &&& written.len() == 3
                &&& written[0] == '%'
                &&& forall|k: int|
                    1 <= k < 3 ==> ('0' <= #[trigger] written[k] <= '9' || 'A' <= written[k] <= 'F')
                &&& percent_decoded(written) == seq![byte]
            }
        }),
{
    let one = seq![byte];
    assert(one.drop_last() =~= Seq::<u8>::empty());
    assert(percent_encoded(one.drop_last()) =~= Seq::<char>::empty());
    assert(percent_encoded(one) =~= encoded_byte(byte));
    law_percent_encoding_decodes(one);
}

/// A stamp ends in month, day, hour, minute and second, two digits each, with
/// the marks of the form between them, and names the zone; in front stands the
/// year.
pub proof fn law_stamps_have_their_form(s: Seq<char>)
    ensures
        is_stamp(s) <==> {
            let end = s.len() as int;
            &&& end >= 20
            &&& s[end - 1] == 'Z'
            &&& s[end - 4] == ':' && s[end - 7] == ':' && s[end - 10] == 'T'
            &&& s[end - 13] == '-' && s[end - 16] == '-'
            &&& '0' <= s[end - 2] <= '9' && '0' <= s[end - 3] <= '9'
            &&& '0' <= s[end - 5] <= '9' && '0' <= s[end - 6] <= '9'
            &&& '0' <= s[end - 8] <= '9' && '0' <= s[end - 9] <= '9'
            &&& '0' <= s[end - 11] <= '9' && '0' <= s[end - 12] <= '9'
            &&& '0' <= s[end - 14] <= '9' && '0' <= s[end - 15] <= '9'
        },
{
}

/// A stamped result tells the game under "game" and the time under
/// "fetched_at".
pub proof fn law_stamped_results_tell_game_and_time(
    result: JsonView,
    game: Game,
    stamp: Seq<char>,
)
    ensures
        is_stamped(result, game, stamp) <==> {
            &&& at_key(result, "fetched_at"@) == JsonView::Text(stamp)
            &&& game == Game::Poe1 ==> at_key(result, "game"@) == JsonView::Text("poe1"@)
            &&& game == Game::Poe2 ==> at_key(result, "game"@) == JsonView::Text("poe2"@)
        },
        is_sourced(result) <==> at_key(result, "source"@) is Text,
{
}

}
