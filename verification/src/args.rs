//! Reading the JSON arguments of a tool call: an object with exactly the
//! known members, or an array of all of them in order.

use vstd::prelude::*;

use crate::json;
use crate::json::{
    items_view, lemma_items_view, member, members_in, parsed, text_in, Json, JsonView,
};
use crate::text;
use crate::text::{chars_of, texts};
use crate::toolkit::{game_of_id, Game};
use crate::written::{check_record, field_text, find_field, record_fault};

verus! {

/// How many colons stand outside strings and directly within the outermost
/// brackets, from `i` on: in the text of an object, one for each member that
/// is written down.
pub open spec fn written_members(
    s: Seq<char>,
    i: int,
    depth: int,
    quoted: bool,
    escaped: bool,
) -> nat
    decreases s.len() - i,
{
    if i < 0 || i >= s.len() {
        0
    } else if quoted {
        if escaped {
            written_members(s, i + 1, depth, true, false)
        } else {
            written_members(s, i + 1, depth, s[i] != '"', s[i] == '\\')
        }
    } else if s[i] == '"' {
        written_members(s, i + 1, depth, true, false)
    } else if s[i] == '{' || s[i] == '[' {
        written_members(s, i + 1, depth + 1, false, false)
    } else if s[i] == '}' || s[i] == ']' {
        written_members(s, i + 1, depth - 1, false, false)
    } else if s[i] == ':' && depth == 1 {
        1 + written_members(s, i + 1, depth, false, false)
    } else {
        written_members(s, i + 1, depth, false, false)
    }
}

/// The known names, quoted, in a row.
pub open spec fn names_listed(names: Seq<Seq<char>>) -> Seq<char> {
    text::separated(names.map_values(|name: Seq<char>| "`"@ + name + "`"@), ", "@)
}

/// The known names, as a choice.
pub open spec fn one_of(names: Seq<Seq<char>>) -> Seq<char> {
    if names.len() == 1 {
        "`"@ + names[0] + "`"@
    } else if names.len() == 2 {
        "`"@ + names[0] + "` or `"@ + names[1] + "`"@
    } else {
        "one of "@ + names_listed(names)
    }
}

/// Whether the argument at `k`, where it is an object, writes each of its
/// members once.
pub open spec fn is_written_once(
    args_json: Seq<char>,
    args: JsonView,
    names: Seq<Seq<char>>,
    k: int,
) -> bool {
    argument(args, names[k], k) matches Some(JsonView::Object(members)) ==> written_members(
        field_text(args, args_json, names[k], k),
        0,
        0,
        false,
        false,
    ) == members.dom().len()
}

/// The first of the arguments from `k` on, up to `variants`, that is an object
/// which writes a member more than once.
pub open spec fn ambiguous_from(
    args_json: Seq<char>,
    args: JsonView,
    names: Seq<Seq<char>>,
    variants: nat,
    k: int,
) -> Option<Seq<char>>
    decreases names.len() - k,
{
    if k < 0 || k >= names.len() || k >= variants {
        None
    } else if !is_written_once(args_json, args, names, k) {
        Some(names[k])
    } else {
        ambiguous_from(args_json, args, names, variants, k + 1)
    }
}

/// The arguments that a text holds: JSON, of known members only and none
/// written twice; or why it holds none. The first `variants` of them are names
/// of variants, which may be written as objects.
pub open spec fn opened(args_json: Seq<char>, names: Seq<Seq<char>>, variants: nat) -> Result<
    JsonView,
    Seq<char>,
> {
    match opened_top(args_json, names) {
        Err(error) => Err(error),
        Ok(args) => match ambiguous_from(args_json, args, names, variants, 0) {
            Some(name) => Err(mistyped(name, "one variant"@)),
            None => Ok(args),
        },
    }
}

/// The arguments that a text holds, none of them written twice.
pub open spec fn opened_top(args_json: Seq<char>, names: Seq<Seq<char>>) -> Result<
    JsonView,
    Seq<char>,
> {
    match parsed(args_json) {
        Err(error) => Err(error),
        Ok(value) => match record_fault(value, args_json, names) {
            Some(fault) => Err(fault),
            None => Ok(value),
        },
    }
}

/// The argument `name`, which in an array is the one at `index`.
pub open spec fn argument(args: JsonView, name: Seq<char>, index: int) -> Option<JsonView> {
    match args {
        JsonView::Array(items) => if 0 <= index < items.len() {
            Some(items[index])
        } else {
            None
        },
        _ => member(args, name),
    }
}

/// Why a required argument is missing.
pub open spec fn missing(name: Seq<char>) -> Seq<char> {
    "missing field `"@ + name + "`"@
}

/// Why an argument is of the wrong type.
pub open spec fn mistyped(name: Seq<char>, expected: Seq<char>) -> Seq<char> {
    "invalid value for `"@ + name + "`, expected "@ + expected
}

/// A required string.
pub open spec fn required_text(value: Option<JsonView>, name: Seq<char>) -> Result<
    Seq<char>,
    Seq<char>,
> {
    match value {
        None => Err(missing(name)),
        Some(value) => match text_in(value) {
            Some(text) => Ok(text),
            None => Err(mistyped(name, "a string"@)),
        },
    }
}

/// An optional string; `null` counts as none.
pub open spec fn optional_text(value: Option<JsonView>, name: Seq<char>) -> Result<
    Option<Seq<char>>,
    Seq<char>,
> {
    match value {
        None => Ok(None),
        Some(JsonView::Null) => Ok(None),
        Some(JsonView::Text(text)) => Ok(Some(text)),
        Some(_) => Err(mistyped(name, "a string"@)),
    }
}

/// An optional whole number from zero on; `null` counts as none.
pub open spec fn optional_count(value: Option<JsonView>, name: Seq<char>) -> Result<
    Option<u64>,
    Seq<char>,
> {
    match value {
        None => Ok(None),
        Some(JsonView::Null) => Ok(None),
        Some(JsonView::Unsigned(n)) => Ok(Some(n)),
        Some(_) => Err(mistyped(name, "a whole number"@)),
    }
}

/// The variant that a value names: a string, or an object whose one member is
/// the variant with nothing in it.
pub open spec fn variant_name(value: JsonView) -> Option<Seq<char>> {
    match value {
        JsonView::Text(text) => Some(text),
        JsonView::Object(members) => if exists|key: Seq<char>|
            #[trigger] is_only_null(members, key) {
            Some(choose|key: Seq<char>| #[trigger] is_only_null(members, key))
        } else {
            None
        },
        _ => None,
    }
}

/// Whether `key` is the one member, and is `null`.
pub open spec fn is_only_null(members: Map<Seq<char>, JsonView>, key: Seq<char>) -> bool {
    members == Map::<Seq<char>, JsonView>::empty().insert(key, JsonView::Null)
}

/// The game that a required argument names.
pub open spec fn required_game(value: Option<JsonView>, name: Seq<char>) -> Result<
    Game,
    Seq<char>,
> {
    match value {
        None => Err(missing(name)),
        Some(value) => match variant_name(value) {
            None => Err(mistyped(name, "`poe1` or `poe2`"@)),
            Some(id) => match game_of_id(id) {
                Some(game) => Ok(game),
                None => Err(mistyped(name, "`poe1` or `poe2`"@)),
            },
        },
    }
}

/// A record in a document: an object, or an array of at most `most` fields in
/// order.
pub open spec fn is_record(value: JsonView, most: nat) -> bool {
    match value {
        JsonView::Object(_) => true,
        JsonView::Array(items) => items.len() <= most,
        _ => false,
    }
}

/// A required flag.
pub open spec fn required_flag(value: Option<JsonView>, name: Seq<char>) -> Result<
    bool,
    Seq<char>,
> {
    match value {
        None => Err(missing(name)),
        Some(JsonView::Bool(flag)) => Ok(flag),
        Some(_) => Err(mistyped(name, "a boolean"@)),
    }
}

/// A flag that is off where it is missing.
pub open spec fn default_flag(value: Option<JsonView>, name: Seq<char>) -> Result<
    bool,
    Seq<char>,
> {
    match value {
        None => Ok(false),
        Some(_) => required_flag(value, name),
    }
}

/// How many members the text of an object writes down.
fn count_written_members(args_json: &str) -> (n: u64)
    ensures
        n == written_members(args_json@, 0, 0, false, false),
{
    let s = chars_of(args_json);
    let mut n: u64 = 0;
    let mut depth: i128 = 0;
    let mut quoted = false;
    let mut escaped = false;
    let mut i: usize = 0;
    let len: usize = s.len();
    while i < len
        invariant
            s@ == args_json@,
            len == s@.len(),
            i <= len,
            n <= i,
            -(i as int) <= depth <= i,
            written_members(args_json@, 0, 0, false, false) == n + written_members(
                args_json@,
                i as int,
                depth as int,
                quoted,
                escaped,
            ),
        decreases len - i,
    {
        let c = s[i];
        if quoted {
            if escaped {
                escaped = false;
            } else if c == '\\' {
                escaped = true;
            } else if c == '"' {
                quoted = false;
            }
        } else {
            escaped = false;
            if c == '"' {
                quoted = true;
            } else if c == '{' || c == '[' {
                depth += 1;
            } else if c == '}' || c == ']' {
                depth -= 1;
            } else if c == ':' && depth == 1 {
                n += 1;
            }
        }
        i += 1;
    }
    n
}

/// What names of arguments say.
pub open spec fn names_view(names: Seq<&'static str>) -> Seq<Seq<char>> {
    names.map_values(|name: &'static str| name@)
}

/// The known names, quoted, in a row.
pub(crate) fn list_names(names: &[&'static str]) -> (line: String)
    ensures
        line@ == names_listed(names_view(names@)),
{
    let ghost all = names_view(names@).map_values(|name: Seq<char>| "`"@ + name + "`"@);
    let mut quoted: Vec<String> = Vec::new();
    let mut i: usize = 0;
    while i < names.len()
        invariant
            i <= names@.len(),
            quoted@.len() == i,
            all == names_view(names@).map_values(|name: Seq<char>| "`"@ + name + "`"@),
            texts(quoted@) =~= all.take(i as int),
        decreases names@.len() - i,
    {
        let mut name = "`".to_owned();
        name.append(names[i]);
        name.append("`");
        quoted.push(name);
        i += 1;
    }
    assert(texts(quoted@) =~= all);
    text::join(&quoted, ", ")
}

/// The known names, as a choice.
pub(crate) fn choice_of(names: &[&'static str]) -> (line: String)
    ensures
        line@ == one_of(names_view(names@)),
{
    let ghost all = names_view(names@);
    if names.len() == 1 || names.len() == 2 {
        let mut line = "`".to_owned();
        assert(all[0] == names@[0]@);
        line.append(names[0]);
        if names.len() == 2 {
            assert(all[1] == names@[1]@);
            line.append("` or `");
            line.append(names[1]);
        }
        line.append("`");
        return line;
    }
    "one of ".to_owned().concat(list_names(names).as_str())
}

/// Read the arguments of a call: JSON, of known members only and none written
/// twice; or an array of all of them in order. The first `variants` of them
/// are names of variants, which may be written as objects.
pub fn open_args(args_json: &str, names: &[&'static str], variants: usize) -> (args: Result<
    Json,
    String,
>)
    ensures
        match args {
            Ok(args) => opened(args_json@, names_view(names@), variants as nat) is Ok && opened(
                args_json@,
                names_view(names@),
                variants as nat,
            )->Ok_0 == args@,
            Err(error) => opened(args_json@, names_view(names@), variants as nat) is Err && opened(
                args_json@,
                names_view(names@),
                variants as nat,
            )->Err_0 == error@,
        },
{
    let args = match open_top(args_json, names) {
        Ok(args) => args,
        Err(error) => {
            return Err(error);
        },
    };
    let ghost all = names_view(names@);
    let mut k: usize = 0;
    while k < variants && k < names.len()
        invariant
            all == names_view(names@),
            opened_top(args_json@, all) is Ok,
            opened_top(args_json@, all)->Ok_0 == args@,
            k <= names@.len(),
            k <= variants,
            ambiguous_from(args_json@, args@, all, variants as nat, 0) == ambiguous_from(
                args_json@,
                args@,
                all,
                variants as nat,
                k as int,
            ),
        decreases names@.len() - k,
    {
        assert(all[k as int] == names@[k as int]@);
        let mut once = true;
        if let Some(value) = find_argument(&args, names[k], k) {
            if let Json::Object(_) = value {
                let part = find_field(&args, args_json, names[k], k);
                once = count_written_members(part.as_str()) == value.member_count() as u64;
            }
        }
        assert(once == is_written_once(args_json@, args@, all, k as int));
        if !once {
            return Err(mistyped_text(names[k], "one variant"));
        }
        k += 1;
    }
    Ok(args)
}

/// Read the arguments of a call, none of them written twice.
fn open_top(args_json: &str, names: &[&'static str]) -> (args: Result<Json, String>)
    ensures
        match args {
            Ok(args) => opened_top(args_json@, names_view(names@)) is Ok && opened_top(
                args_json@,
                names_view(names@),
            )->Ok_0 == args@,
            Err(error) => opened_top(args_json@, names_view(names@)) is Err && opened_top(
                args_json@,
                names_view(names@),
            )->Err_0 == error@,
        },
{
    let value = match json::parse(args_json) {
        Ok(value) => value,
        Err(error) => {
            return Err(error);
        },
    };
    match check_record(&value, args_json, names) {
        Some(fault) => Err(fault),
        None => Ok(value),
    }
}

/// The argument `name`, which in an array is the one at `index`.
pub fn find_argument<'a>(args: &'a Json, name: &str, index: usize) -> (found: Option<&'a Json>)
    ensures
        match found {
            Some(found) => argument(args@, name@, index as int) == Some(found@),
            None => argument(args@, name@, index as int) is None,
        },
{
    match args {
        Json::Array(items) => {
            proof {
                lemma_items_view(items@);
            }
            if index < items.len() {
                Some(&items[index])
            } else {
                None
            }
        },
        _ => args.get(name),
    }
}

/// What an optional argument holds.
pub open spec fn held(value: Option<&Json>) -> Option<JsonView> {
    match value {
        Some(value) => Some(value@),
        None => None,
    }
}

/// Why a required argument is missing.
pub fn missing_text(name: &str) -> (error: String)
    ensures
        error@ == missing(name@),
{
    let mut error = "missing field `".to_owned();
    error.append(name);
    error.append("`");
    error
}

/// Why an argument is of the wrong type.
pub fn mistyped_text(name: &str, expected: &str) -> (error: String)
    ensures
        error@ == mistyped(name@, expected@),
{
    let mut error = "invalid value for `".to_owned();
    error.append(name);
    error.append("`, expected ");
    error.append(expected);
    error
}

/// A required string.
pub fn read_text(value: Option<&Json>, name: &str) -> (text: Result<String, String>)
    ensures
        match text {
            Ok(text) => required_text(held(value), name@) is Ok && required_text(
                held(value),
                name@,
            )->Ok_0 == text@,
            Err(error) => required_text(held(value), name@) is Err && required_text(
                held(value),
                name@,
            )->Err_0 == error@,
        },
{
    match value {
        None => Err(missing_text(name)),
        Some(value) => match value.as_str() {
            Some(text) => Ok(text.to_owned()),
            None => Err(mistyped_text(name, "a string")),
        },
    }
}

/// The text in an option.
pub open spec fn maybe_text(text: Option<String>) -> Option<Seq<char>> {
    match text {
        Some(text) => Some(text@),
        None => None,
    }
}

/// An optional string; `null` counts as none.
pub fn read_optional_text(value: Option<&Json>, name: &str) -> (text: Result<
    Option<String>,
    String,
>)
    ensures
        match text {
            Ok(text) => optional_text(held(value), name@) is Ok && optional_text(
                held(value),
                name@,
            )->Ok_0 == maybe_text(text),
            Err(error) => optional_text(held(value), name@) is Err && optional_text(
                held(value),
                name@,
            )->Err_0 == error@,
        },
{
    match value {
        None => Ok(None),
        Some(value) => match value {
            Json::Null => Ok(None),
            Json::Text(text) => Ok(Some(text.clone())),
            _ => Err(mistyped_text(name, "a string")),
        },
    }
}

/// An optional whole number from zero on; `null` counts as none.
pub fn read_optional_count(value: Option<&Json>, name: &str) -> (n: Result<Option<u64>, String>)
    ensures
        match n {
            Ok(n) => optional_count(held(value), name@) is Ok && optional_count(
                held(value),
                name@,
            )->Ok_0 == n,
            Err(error) => optional_count(held(value), name@) is Err && optional_count(
                held(value),
                name@,
            )->Err_0 == error@,
        },
{
    match value {
        None => Ok(None),
        Some(value) => {
            if value.is_null() {
                return Ok(None);
            }
            match value.as_u64() {
                Some(n) => Ok(Some(n)),
                None => Err(mistyped_text(name, "a whole number")),
            }
        },
    }
}

/// The variant that a value names.
pub fn read_variant(value: &Json) -> (name: Option<String>)
    ensures
        maybe_text(name) == variant_name(value@),
{
    match value {
        Json::Text(text) => Some(text.clone()),
        Json::Object(members) => {
            let ghost held = members_in(value@);
            let keys = value.keys();
            if keys.len() == 0 || value.member_count() != 1 {
                proof {
                    if exists|key: Seq<char>| #[trigger] is_only_null(held, key) {
                        let key = choose|key: Seq<char>| #[trigger] is_only_null(held, key);
                        assert(held.contains_key(key));
                        assert(held.dom() =~= Set::<Seq<char>>::empty().insert(key));
                        assert(texts(keys@).contains(key));
                    }
                }
                return None;
            }
            let key = keys[0].clone();
            let ghost k = key@;
            proof {
                assert(texts(keys@)[0] == k);
                assert(texts(keys@).contains(k));
                assert(held.contains_key(k));
                json::lemma_members_finite(members@);
                vstd::set_lib::lemma_len_subset(Set::<Seq<char>>::empty().insert(k), held.dom());
                assert(held.dom() =~= Set::<Seq<char>>::empty().insert(k)) by {
                    if exists|other: Seq<char>| held.contains_key(other) && other != k {
                        let other = choose|other: Seq<char>|
                            held.contains_key(other) && other != k;
                        let two = Set::<Seq<char>>::empty().insert(k).insert(other);
                        vstd::set_lib::lemma_len_subset(two, held.dom());
                    }
                }
            }
            if value.key(key.as_str()).is_null() {
                proof {
                    assert(held =~= Map::<Seq<char>, JsonView>::empty().insert(k, JsonView::Null));
                    assert(is_only_null(held, k));
                    let chosen = choose|key: Seq<char>| #[trigger] is_only_null(held, key);
                    assert(held.contains_key(chosen));
                }
                Some(key)
            } else {
                proof {
                    if exists|key: Seq<char>| #[trigger] is_only_null(held, key) {
                        let other = choose|key: Seq<char>| #[trigger] is_only_null(held, key);
                        assert(held.contains_key(other));
                        assert(held[other] is Null);
                    }
                }
                None
            }
        },
        _ => None,
    }
}

/// The game that a required argument names.
pub fn read_game(value: Option<&Json>, name: &str) -> (game: Result<Game, String>)
    ensures
        match game {
            Ok(game) => required_game(held(value), name@) is Ok && required_game(
                held(value),
                name@,
            )->Ok_0 == game,
            Err(error) => required_game(held(value), name@) is Err && required_game(
                held(value),
                name@,
            )->Err_0 == error@,
        },
{
    match value {
        None => Err(missing_text(name)),
        Some(value) => match read_variant(value) {
            None => Err(mistyped_text(name, "`poe1` or `poe2`")),
            Some(id) => match Game::from_id(id.as_str()) {
                Some(game) => Ok(game),
                None => Err(mistyped_text(name, "`poe1` or `poe2`")),
            },
        },
    }
}

/// Whether a value is a record of at most `most` fields.
pub fn reads_as_record(value: &Json, most: usize) -> (yes: bool)
    ensures
        yes == is_record(value@, most as nat),
{
    match value {
        Json::Object(_) => true,
        Json::Array(items) => {
            proof {
                lemma_items_view(items@);
            }
            items.len() <= most
        },
        _ => false,
    }
}

/// A required flag.
pub fn read_flag(value: Option<&Json>, name: &str) -> (flag: Result<bool, String>)
    ensures
        match flag {
            Ok(flag) => required_flag(held(value), name@) is Ok && required_flag(
                held(value),
                name@,
            )->Ok_0 == flag,
            Err(error) => required_flag(held(value), name@) is Err && required_flag(
                held(value),
                name@,
            )->Err_0 == error@,
        },
{
    match value {
        None => Err(missing_text(name)),
        Some(value) => match value {
            Json::Bool(flag) => Ok(*flag),
            _ => Err(mistyped_text(name, "a boolean")),
        },
    }
}

/// A flag that is off where it is missing.
pub fn read_default_flag(value: Option<&Json>, name: &str) -> (flag: Result<bool, String>)
    ensures
        match flag {
            Ok(flag) => default_flag(held(value), name@) is Ok && default_flag(
                held(value),
                name@,
            )->Ok_0 == flag,
            Err(error) => default_flag(held(value), name@) is Err && default_flag(
                held(value),
                name@,
            )->Err_0 == error@,
        },
{
    match value {
        None => Ok(false),
        Some(_) => read_flag(value, name),
    }
}

/// The texts of the first `n` values, if all are strings.
pub open spec fn texts_of(values: Seq<JsonView>, name: Seq<char>, n: nat) -> Result<
    Seq<Seq<char>>,
    Seq<char>,
>
    decreases n,
{
    if n == 0 {
        Ok(seq![])
    } else {
        match texts_of(values, name, (n - 1) as nat) {
            Err(error) => Err(error),
            Ok(before) => match values[n - 1] {
                JsonView::Text(text) => Ok(before.push(text)),
                _ => Err(mistyped(name, "a list of strings"@)),
            },
        }
    }
}

/// A required list.
pub open spec fn required_list(value: Option<JsonView>, name: Seq<char>) -> Result<
    Seq<JsonView>,
    Seq<char>,
> {
    match value {
        None => Err(missing(name)),
        Some(JsonView::Array(items)) => Ok(items),
        Some(_) => Err(mistyped(name, "a list"@)),
    }
}

/// An optional list of strings; `null` counts as none.
pub open spec fn optional_texts(value: Option<JsonView>, name: Seq<char>) -> Result<
    Option<Seq<Seq<char>>>,
    Seq<char>,
> {
    match value {
        None => Ok(None),
        Some(JsonView::Null) => Ok(None),
        Some(_) => match required_texts(value, name) {
            Ok(list) => Ok(Some(list)),
            Err(error) => Err(error),
        },
    }
}

/// A required list of strings.
pub open spec fn required_texts(value: Option<JsonView>, name: Seq<char>) -> Result<
    Seq<Seq<char>>,
    Seq<char>,
> {
    match required_list(value, name) {
        Err(error) => Err(error),
        Ok(items) => texts_of(items, name, items.len()),
    }
}

/// Values behind one that is no string change nothing.
proof fn lemma_texts_stay_failed(values: Seq<JsonView>, name: Seq<char>, k: nat, n: nat)
    requires
        k <= n,
        texts_of(values, name, k) is Err,
    ensures
        texts_of(values, name, n) == texts_of(values, name, k),
    decreases n,
{
    if k < n {
        lemma_texts_stay_failed(values, name, k, (n - 1) as nat);
    }
}

/// A required list.
pub fn read_list<'a>(value: Option<&'a Json>, name: &str) -> (list: Result<&'a Vec<Json>, String>)
    ensures
        match list {
            Ok(list) => required_list(held(value), name@) is Ok && required_list(
                held(value),
                name@,
            )->Ok_0 == items_view(list@),
            Err(error) => required_list(held(value), name@) is Err && required_list(
                held(value),
                name@,
            )->Err_0 == error@,
        },
{
    match value {
        None => Err(missing_text(name)),
        Some(value) => match value.as_array() {
            Some(items) => Ok(items),
            None => Err(mistyped_text(name, "a list")),
        },
    }
}

/// The texts of a list of strings.
pub fn read_texts(items: &Vec<Json>, name: &str) -> (list: Result<Vec<String>, String>)
    ensures
        match list {
            Ok(list) => texts_of(items_view(items@), name@, items@.len()) is Ok && texts_of(
                items_view(items@),
                name@,
                items@.len(),
            )->Ok_0 == texts(list@),
            Err(error) => texts_of(items_view(items@), name@, items@.len()) is Err && texts_of(
                items_view(items@),
                name@,
                items@.len(),
            )->Err_0 == error@,
        },
{
    let ghost values = items_view(items@);
    let mut list: Vec<String> = Vec::new();
    let mut i: usize = 0;
    assert(texts(list@) =~= Seq::<Seq<char>>::empty());
    while i < items.len()
        invariant
            i <= items@.len(),
            values == items_view(items@),
            texts_of(values, name@, i as nat) is Ok,
            texts_of(values, name@, i as nat)->Ok_0 == texts(list@),
        decreases items@.len() - i,
    {
        proof {
            lemma_items_view(items@);
        }
        match items[i].as_str() {
            None => {
                proof {
                    lemma_texts_stay_failed(values, name@, (i + 1) as nat, items@.len());
                }
                return Err(mistyped_text(name, "a list of strings"));
            },
            Some(text) => {
                let ghost before = texts(list@);
                let text = text.to_owned();
                list.push(text);
                assert(texts(list@) =~= before.push(text@));
            },
        }
        i += 1;
    }
    Ok(list)
}

/// A required list of strings.
pub fn read_required_texts(value: Option<&Json>, name: &str) -> (list: Result<Vec<String>, String>)
    ensures
        match list {
            Ok(list) => required_texts(held(value), name@) is Ok && required_texts(
                held(value),
                name@,
            )->Ok_0 == texts(list@),
            Err(error) => required_texts(held(value), name@) is Err && required_texts(
                held(value),
                name@,
            )->Err_0 == error@,
        },
{
    match read_list(value, name) {
        Err(error) => Err(error),
        Ok(items) => {
            proof {
                lemma_items_view(items@);
            }
            read_texts(items, name)
        },
    }
}

/// The texts in an optional list.
pub open spec fn maybe_texts(list: Option<Vec<String>>) -> Option<Seq<Seq<char>>> {
    match list {
        Some(list) => Some(texts(list@)),
        None => None,
    }
}

/// An optional list of strings; `null` counts as none.
pub fn read_optional_texts(value: Option<&Json>, name: &str) -> (list: Result<
    Option<Vec<String>>,
    String,
>)
    ensures
        match list {
            Ok(list) => optional_texts(held(value), name@) is Ok && optional_texts(
                held(value),
                name@,
            )->Ok_0 == maybe_texts(list),
            Err(error) => optional_texts(held(value), name@) is Err && optional_texts(
                held(value),
                name@,
            )->Err_0 == error@,
        },
{
    match value {
        None => Ok(None),
        Some(json) => {
            if json.is_null() {
                return Ok(None);
            }
            match read_required_texts(value, name) {
                Ok(list) => Ok(Some(list)),
                Err(error) => Err(error),
            }
        },
    }
}

/// A list of strings is read in its order, each string as it stands; a value
/// that is no list, or a list with anything but strings, is refused.
pub proof fn law_texts_are_read_in_order(value: JsonView, name: Seq<char>)
    ensures
        required_texts(Some(value), name) is Ok <==> (value matches JsonView::Array(items)
            && forall|i: int| 0 <= i < items.len() ==> #[trigger] items[i] is Text),
        required_texts(Some(value), name) matches Ok(list) ==> {
            &&& value matches JsonView::Array(items)
            &&& list.len() == value->Array_0.len()
            &&& forall|i: int|
                0 <= i < list.len() ==> value->Array_0[i] == JsonView::Text(#[trigger] list[i])
        },
{
    if let JsonView::Array(items) = value {
        lemma_texts_of(items, name, items.len());
    }
}

/// The first `n` values are read in their order.
proof fn lemma_texts_of(values: Seq<JsonView>, name: Seq<char>, n: nat)
    requires
        n <= values.len(),
    ensures
        texts_of(values, name, n) is Ok <==> (forall|i: int|
            0 <= i < n ==> #[trigger] values[i] is Text),
        texts_of(values, name, n) matches Ok(list) ==> {
            &&& list.len() == n
            &&& forall|i: int| 0 <= i < n ==> values[i] == JsonView::Text(#[trigger] list[i])
        },
    decreases n,
{
    if n > 0 {
        lemma_texts_of(values, name, (n - 1) as nat);
        if texts_of(values, name, n) is Err && (forall|i: int|
            0 <= i < n ==> #[trigger] values[i] is Text) {
            assert(values[n - 1] is Text);
        }
    }
}

/// A game is named by its id, "poe1" or "poe2", as a string or as the one key
/// of an object with null; anything else is refused.
pub proof fn law_games_are_named_by_id(value: JsonView, name: Seq<char>)
    ensures
        value == JsonView::Text("poe1"@) ==> required_game(Some(value), name) == Ok::<
            Game,
            Seq<char>,
        >(Game::Poe1),
        value == JsonView::Text("poe2"@) ==> required_game(Some(value), name) == Ok::<
            Game,
            Seq<char>,
        >(Game::Poe2),
        required_game(Some(value), name) is Ok ==> {
            let id = match required_game(Some(value), name)->Ok_0 {
                Game::Poe1 => "poe1"@,
                Game::Poe2 => "poe2"@,
            };
            value == JsonView::Text(id) || value == JsonView::Object(
                Map::<Seq<char>, JsonView>::empty().insert(id, JsonView::Null),
            )
        },
        required_game(None, name) is Err,
{
    reveal_strlit("poe1");
    reveal_strlit("poe2");
    assert("poe1"@.len() == 4);
    assert("poe2"@.len() == 4);
    assert("poe1"@[3] != "poe2"@[3]);
}

/// Arguments that are opened are what their JSON says, and JSON that cannot be
/// read is refused with its fault.
pub proof fn law_arguments_are_what_was_written(
    args_json: Seq<char>,
    names: Seq<Seq<char>>,
    variants: nat,
)
    ensures
        opened(args_json, names, variants) matches Ok(args) ==> parsed(args_json) == Ok::<
            JsonView,
            Seq<char>,
        >(args) && record_fault(args, args_json, names) is None,
        parsed(args_json) matches Err(error) ==> opened(args_json, names, variants) == Err::<
            JsonView,
            Seq<char>,
        >(error),
        parsed(args_json) matches Ok(args) ==> (record_fault(args, args_json, names) matches Some(
            fault,
        ) ==> opened(args_json, names, variants) == Err::<JsonView, Seq<char>>(fault)),
{
}

/// An argument of an object stands under its name, and one of a list at its
/// position.
pub proof fn law_arguments_stand_under_their_name(args: JsonView, name: Seq<char>, index: int)
    ensures
        args is Object ==> argument(args, name, index) == member(args, name),
        args matches JsonView::Array(items) ==> {
            &&& 0 <= index < items.len() ==> argument(args, name, index) == Some(items[index])
            &&& !(0 <= index < items.len()) ==> argument(args, name, index) is None
        },
{
}

/// What an argument may be: a text where one is required, a text or nothing, a
/// count or nothing, a flag. Anything else is refused by its name.
pub proof fn law_arguments_are_read_by_kind(value: JsonView, name: Seq<char>)
    ensures
        required_text(None, name) == Err::<Seq<char>, Seq<char>>(
            "missing field `"@ + name + "`"@,
        ),
        required_text(Some(value), name) is Ok <==> value is Text,
        value matches JsonView::Text(text) ==> required_text(Some(value), name) == Ok::<
            Seq<char>,
            Seq<char>,
        >(text),
        optional_text(None, name) == Ok::<Option<Seq<char>>, Seq<char>>(None),
        optional_text(Some(value), name) is Ok <==> value is Text || value is Null,
        value is Null ==> optional_text(Some(value), name) == Ok::<Option<Seq<char>>, Seq<char>>(
            None,
        ),
        value matches JsonView::Text(text) ==> optional_text(Some(value), name) == Ok::<
            Option<Seq<char>>,
            Seq<char>,
        >(Some(text)),
        optional_count(None, name) == Ok::<Option<u64>, Seq<char>>(None),
        optional_count(Some(value), name) is Ok <==> value is Unsigned || value is Null,
        value matches JsonView::Unsigned(n) ==> optional_count(Some(value), name) == Ok::<
            Option<u64>,
            Seq<char>,
        >(Some(n)),
        value is Null ==> optional_count(Some(value), name) == Ok::<Option<u64>, Seq<char>>(None),
        required_flag(None, name) is Err,
        required_flag(Some(value), name) is Ok <==> value is Bool,
        value matches JsonView::Bool(flag) ==> required_flag(Some(value), name) == Ok::<
            bool,
            Seq<char>,
        >(flag),
        default_flag(None, name) == Ok::<bool, Seq<char>>(false),
        default_flag(Some(value), name) == required_flag(Some(value), name),
        required_list(None, name) is Err,
        required_list(Some(value), name) is Ok <==> value is Array,
        value matches JsonView::Array(items) ==> required_list(Some(value), name) == Ok::<
            Seq<JsonView>,
            Seq<char>,
        >(items),
{
}

/// What is refused names the argument.
pub proof fn law_refusals_name_the_argument(name: Seq<char>, expected: Seq<char>)
    ensures
        text::occurs(missing(name), name),
        text::occurs(mistyped(name, expected), name),
        text::occurs(mistyped(name, expected), expected),
{
    let lacking = missing(name);
    let head = "missing field `"@.len() as int;
    assert(lacking.subrange(head, head + name.len()) =~= name);
    assert(text::is_at(lacking, name, head));
    let wrong = mistyped(name, expected);
    let front = "invalid value for `"@.len() as int;
    assert(wrong.subrange(front, front + name.len()) =~= name);
    assert(text::is_at(wrong, name, front));
    let at = wrong.len() - expected.len();
    assert(wrong.subrange(at, at + expected.len()) =~= expected);
    assert(text::is_at(wrong, expected, at));
}

/// The names that are told as a choice: one alone, two with "or" between them,
/// and more as a list.
pub proof fn law_choices_are_listed(names: Seq<Seq<char>>, i: int)
    requires
        0 <= i < names.len(),
    ensures
        names.len() == 1 ==> one_of(names) == "`"@ + names[0] + "`"@,
        names.len() == 2 ==> one_of(names) == "`"@ + names[0] + "` or `"@ + names[1] + "`"@,
        names.len() > 2 ==> one_of(names) == "one of "@ + names_listed(names),
        text::occurs(names_listed(names), "`"@ + names[i] + "`"@),
        names.len() > 1 ==> exists|front: Seq<char>|
            names_listed(names) == #[trigger] (front + ", "@ + "`"@ + names.last() + "`"@),
{
    let quoted = names.map_values(|name: Seq<char>| "`"@ + name + "`"@);
    text::law_separated_lists_hold_each(quoted, ", "@, i);
    if names.len() > 1 {
        let front = text::separated(quoted.drop_last(), ", "@);
        assert(names_listed(names) =~= front + ", "@ + "`"@ + names.last() + "`"@);
    }
}

/// A record is an object, or a list that is not too long.
pub proof fn law_records_are_objects_or_lists(value: JsonView, most: nat)
    ensures
        value is Object ==> is_record(value, most),
        value matches JsonView::Array(items) ==> (is_record(value, most) <==> items.len() <= most),
        is_record(value, most) ==> value is Object || value is Array,
{
}

}
