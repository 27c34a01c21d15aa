//! What a JSON text writes down, part by part. A value no longer tells whether
//! a member was written twice; records refuse that, of the fields they know.

use vstd::prelude::*;

use crate::args::{choice_of, list_names, names_listed, names_view, one_of};
use crate::json;
use crate::json::{items_view, lemma_items_view, parsed, Json, JsonView};
use crate::text;
use crate::text::{chars_of, separated, texts, trimmed_start};

verus! {

/// The parts of a text within its outermost brackets, from `i` on: what stands
/// between commas and colons, the first of them behind `piece`.
pub open spec fn parts_from(
    s: Seq<char>,
    i: int,
    depth: int,
    quoted: bool,
    escaped: bool,
    piece: Seq<char>,
) -> Seq<Seq<char>>
    decreases s.len() - i,
{
    if i < 0 || i >= s.len() {
        seq![]
    } else if quoted {
        if escaped {
            parts_from(s, i + 1, depth, true, false, piece.push(s[i]))
        } else {
            parts_from(s, i + 1, depth, s[i] != '"', s[i] == '\\', piece.push(s[i]))
        }
    } else if s[i] == '"' {
        parts_from(s, i + 1, depth, true, false, piece.push(s[i]))
    } else if s[i] == '{' || s[i] == '[' {
        parts_from(
            s,
            i + 1,
            depth + 1,
            false,
            false,
            if depth == 0 {
                seq![]
            } else {
                piece.push(s[i])
            },
        )
    } else if s[i] == '}' || s[i] == ']' {
        if depth == 1 {
            seq![piece]
        } else {
            parts_from(s, i + 1, depth - 1, false, false, piece.push(s[i]))
        }
    } else if (s[i] == ',' || s[i] == ':') && depth == 1 {
        seq![piece] + parts_from(s, i + 1, depth, false, false, seq![])
    } else {
        parts_from(s, i + 1, depth, false, false, piece.push(s[i]))
    }
}

/// The parts of a text within its outermost brackets: the items of an array,
/// or the keys and values of an object in turn.
pub open spec fn parts(s: Seq<char>) -> Seq<Seq<char>> {
    parts_from(s, 0, 0, false, false, seq![])
}

/// The key that a part writes, if it writes one.
pub open spec fn key_of(part: Seq<char>) -> Option<Seq<char>> {
    match parsed(part) {
        Ok(JsonView::Text(key)) => Some(key),
        _ => None,
    }
}

/// Whether a part writes the key `name`.
pub open spec fn is_key(part: Seq<char>, name: Seq<char>) -> bool {
    key_of(part) == Some(name)
}

/// How many of the first `n` parts of an object write the key `name`.
pub open spec fn times_written(list: Seq<Seq<char>>, name: Seq<char>, n: nat) -> nat
    decreases n,
{
    if n == 0 {
        0
    } else if (n - 1) % 2 == 0 && is_key(list[n - 1], name) {
        times_written(list, name, (n - 1) as nat) + 1
    } else {
        times_written(list, name, (n - 1) as nat)
    }
}

/// The part behind the last key `name` among the first `n` parts; nothing
/// where there is none.
pub open spec fn value_part(list: Seq<Seq<char>>, name: Seq<char>, n: nat) -> Seq<char>
    decreases n,
{
    if n == 0 {
        seq![]
    } else if (n - 1) % 2 == 0 && is_key(list[n - 1], name) && n < list.len() {
        list[n as int]
    } else {
        value_part(list, name, (n - 1) as nat)
    }
}

/// The text of the field `name` of a record, which in an array is the one at
/// `index`.
pub open spec fn field_text(
    value: JsonView,
    s: Seq<char>,
    name: Seq<char>,
    index: int,
) -> Seq<char> {
    match value {
        JsonView::Array(_) => if 0 <= index < parts(s).len() {
            parts(s)[index]
        } else {
            seq![]
        },
        _ => value_part(parts(s), name, parts(s).len()),
    }
}

/// The first of the names from `k` on that the parts of an object write more
/// than once.
pub open spec fn repeated_from(list: Seq<Seq<char>>, names: Seq<Seq<char>>, k: int) -> Option<
    Seq<char>,
>
    decreases names.len() - k,
{
    if k < 0 || k >= names.len() {
        None
    } else if times_written(list, names[k], list.len()) > 1 {
        Some(names[k])
    } else {
        repeated_from(list, names, k + 1)
    }
}

/// The first of the fields that a record writes more than once. Fields that
/// are not asked for may be written as often as they like.
pub open spec fn repeated_in(value: JsonView, s: Seq<char>, names: Seq<Seq<char>>) -> Option<
    Seq<char>,
> {
    if value is Object {
        repeated_from(parts(s), names, 0)
    } else {
        None
    }
}

/// The part at an index; nothing where there is none.
pub open spec fn part_at(list: Seq<Seq<char>>, k: int) -> Seq<char> {
    if 0 <= k < list.len() {
        list[k]
    } else {
        seq![]
    }
}

/// The first of the fields that one of the records from `k` on writes more
/// than once.
pub open spec fn repeated_in_items(
    items: Seq<JsonView>,
    list: Seq<Seq<char>>,
    names: Seq<Seq<char>>,
    k: int,
) -> Option<Seq<char>>
    decreases items.len() - k,
{
    if k < 0 || k >= items.len() {
        None
    } else {
        match repeated_in(items[k], part_at(list, k), names) {
            Some(name) => Some(name),
            None => repeated_in_items(items, list, names, k + 1),
        }
    }
}

/// The first of the fields that a record of a list writes more than once.
pub open spec fn repeated_in_list(list: JsonView, s: Seq<char>, names: Seq<Seq<char>>) -> Option<
    Seq<char>,
> {
    match list {
        JsonView::Array(items) => repeated_in_items(items, parts(s), names, 0),
        _ => None,
    }
}

/// The first key, from member `k` on, that is none of the names.
pub open spec fn unknown_from(list: Seq<Seq<char>>, names: Seq<Seq<char>>, k: int) -> Option<
    Seq<char>,
>
    decreases list.len() - 2 * k,
{
    if k < 0 || 2 * k + 1 >= list.len() {
        None
    } else if key_of(list[2 * k]) is Some && !names.contains(key_of(list[2 * k])->0) {
        key_of(list[2 * k])
    } else {
        unknown_from(list, names, k + 1)
    }
}

/// How a field that is written more than once is reported.
pub open spec fn duplicate(name: Seq<char>) -> Seq<char> {
    "duplicate field `"@ + name + "`"@
}

/// What is wrong with the form of a record of known fields only: an object
/// with none but these, none of them written twice, or an array of all of them
/// in order.
pub open spec fn record_fault(value: JsonView, s: Seq<char>, names: Seq<Seq<char>>) -> Option<
    Seq<char>,
> {
    match value {
        JsonView::Object(_) => match unknown_from(parts(s), names, 0) {
            Some(key) => Some("unknown field `"@ + key + "`, expected "@ + one_of(names)),
            None => match repeated_from(parts(s), names, 0) {
                Some(name) => Some(duplicate(name)),
                None => None,
            },
        },
        JsonView::Array(items) => if items.len() == names.len() {
            None
        } else {
            Some("invalid length, expected all of "@ + names_listed(names))
        },
        _ => Some("invalid type, expected an object"@),
    }
}

/// The parts of a text within its outermost brackets.
pub fn parts_of(s: &str) -> (list: Vec<String>)
    ensures
        texts(list@) == parts(s@),
{
    let chars = chars_of(s);
    let mut list: Vec<String> = Vec::new();
    let mut piece = String::new();
    let mut depth: i128 = 0;
    let mut quoted = false;
    let mut escaped = false;
    let mut i: usize = 0;
    let len: usize = chars.len();
    assert(texts(list@) + parts(s@) =~= parts(s@));
    while i < len
        invariant
            chars@ == s@,
            len == s@.len(),
            i <= len,
            -(i as int) <= depth <= i,
            parts(s@) == texts(list@) + parts_from(
                s@,
                i as int,
                depth as int,
                quoted,
                escaped,
                piece@,
            ),
        decreases len - i,
    {
        let c = chars[i];
        let ghost before = texts(list@);
        if quoted {
            if escaped {
                escaped = false;
            } else if c == '\\' {
                escaped = true;
            } else if c == '"' {
                quoted = false;
            }
            piece.push(c);
        } else {
            escaped = false;
            if c == '"' {
                quoted = true;
                piece.push(c);
            } else if c == '{' || c == '[' {
                if depth == 0 {
                    piece = String::new();
                } else {
                    piece.push(c);
                }
                depth += 1;
            } else if (c == '}' || c == ']') && depth == 1 {
                list.push(piece);
                assert(texts(list@) =~= before + seq![piece@]);
                return list;
            } else if (c == ',' || c == ':') && depth == 1 {
                list.push(piece);
                proof {
                    let rest = parts_from(s@, i + 1, depth as int, false, false, seq![]);
                    assert(texts(list@) =~= before.push(piece@));
                    assert(before + (seq![piece@] + rest) =~= texts(list@) + rest);
                }
                piece = String::new();
            } else {
                if c == '}' || c == ']' {
                    depth -= 1;
                }
                piece.push(c);
            }
        }
        i += 1;
    }
    assert(texts(list@) + Seq::<Seq<char>>::empty() =~= texts(list@));
    list
}

/// Whether a part writes the key `name`.
pub fn writes_key(part: &str, name: &str) -> (yes: bool)
    ensures
        yes == is_key(part@, name@),
{
    match json::parse(part) {
        Ok(Json::Text(key)) => text::same(key.as_str(), name),
        _ => false,
    }
}

/// Whether the parts of an object write the key `name` at most once.
fn writes_once(list: &Vec<String>, name: &str) -> (yes: bool)
    ensures
        yes == (times_written(texts(list@), name@, list@.len()) <= 1),
{
    let ghost all = texts(list@);
    let mut n: usize = 0;
    let mut i: usize = 0;
    while i < list.len()
        invariant
            all == texts(list@),
            i <= list@.len(),
            n <= i,
            n == times_written(all, name@, i as nat),
        decreases list@.len() - i,
    {
        assert(all[i as int] == list@[i as int]@);
        if i % 2 == 0 && writes_key(list[i].as_str(), name) {
            n += 1;
        }
        i += 1;
    }
    n <= 1
}

/// The text of the field `name` of a record.
pub fn find_field(value: &Json, s: &str, name: &str, index: usize) -> (part: String)
    ensures
        part@ == field_text(value@, s@, name@, index as int),
{
    let list = parts_of(s);
    let ghost all = texts(list@);
    if let Json::Array(_) = value {
        if index < list.len() {
            assert(all[index as int] == list@[index as int]@);
            return list[index].clone();
        }
        return String::new();
    }
    let mut i: usize = list.len();
    while i > 0
        invariant
            !(value@ is Array),
            all == texts(list@),
            all == parts(s@),
            i <= list@.len(),
            value_part(all, name@, list@.len()) == value_part(all, name@, i as nat),
        decreases i,
    {
        assert(all[i - 1] == list@[i - 1]@);
        if (i - 1) % 2 == 0 && i < list.len() && writes_key(list[i - 1].as_str(), name) {
            assert(all[i as int] == list@[i as int]@);
            return list[i].clone();
        }
        i -= 1;
    }
    String::new()
}

/// What a text that may be missing says.
pub open spec fn maybe(text: Option<String>) -> Option<Seq<char>> {
    match text {
        Some(text) => Some(text@),
        None => None,
    }
}

/// The first of the names that the parts of an object write more than once.
fn find_repeated_in(list: &Vec<String>, names: &[&'static str]) -> (name: Option<String>)
    ensures
        maybe(name) == repeated_from(texts(list@), names_view(names@), 0),
{
    let ghost all = names_view(names@);
    let mut k: usize = 0;
    while k < names.len()
        invariant
            all == names_view(names@),
            k <= names@.len(),
            repeated_from(texts(list@), all, 0) == repeated_from(texts(list@), all, k as int),
        decreases names@.len() - k,
    {
        assert(all[k as int] == names@[k as int]@);
        if !writes_once(list, names[k]) {
            return Some(names[k].to_owned());
        }
        k += 1;
    }
    None
}

/// The first of the fields that a record writes more than once.
pub fn find_repeated(value: &Json, s: &str, names: &[&'static str]) -> (name: Option<String>)
    ensures
        maybe(name) == repeated_in(value@, s@, names_view(names@)),
{
    match value {
        Json::Object(_) => find_repeated_in(&parts_of(s), names),
        _ => None,
    }
}

/// The part at an index; nothing where there is none.
pub fn take_part(list: &Vec<String>, k: usize) -> (part: &str)
    ensures
        part@ == part_at(texts(list@), k as int),
{
    if k < list.len() {
        assert(texts(list@)[k as int] == list@[k as int]@);
        list[k].as_str()
    } else {
        proof {
            reveal_strlit("");
            assert(""@ =~= Seq::<char>::empty());
        }
        ""
    }
}

/// The first of the fields that a record of a list writes more than once.
pub fn find_repeated_in_list(list: &Json, s: &str, names: &[&'static str]) -> (name: Option<String>)
    ensures
        maybe(name) == repeated_in_list(list@, s@, names_view(names@)),
{
    let items = match list {
        Json::Array(items) => items,
        _ => {
            return None;
        },
    };
    let parts_of_items = parts_of(s);
    let ghost all = items_view(items@);
    let ghost known = names_view(names@);
    proof {
        lemma_items_view(items@);
    }
    let mut k: usize = 0;
    while k < items.len()
        invariant
            known == names_view(names@),
            list@ == JsonView::Array(all),
            all == items_view(items@),
            all.len() == items@.len(),
            forall|i: int| 0 <= i < items@.len() ==> #[trigger] all[i] == items@[i]@,
            texts(parts_of_items@) == parts(s@),
            k <= items@.len(),
            repeated_in_items(all, parts(s@), known, 0) == repeated_in_items(
                all,
                parts(s@),
                known,
                k as int,
            ),
        decreases items@.len() - k,
    {
        assert(all[k as int] == items@[k as int]@);
        let found = find_repeated(&items[k], take_part(&parts_of_items, k), names);
        if found.is_some() {
            return found;
        }
        k += 1;
    }
    None
}

/// How a field that is written more than once is reported.
pub fn duplicate_text(name: &str) -> (line: String)
    ensures
        line@ == duplicate(name@),
{
    let mut line = "duplicate field `".to_owned();
    line.append(name);
    line.append("`");
    line
}

/// The first key that is none of the names.
fn find_unknown(list: &Vec<String>, names: &[&'static str]) -> (key: Option<String>)
    ensures
        maybe(key) == unknown_from(texts(list@), names_view(names@), 0),
{
    let ghost all = texts(list@);
    let ghost known = names_view(names@);
    let n: usize = list.len() / 2;
    let mut k: usize = 0;
    while k < n
        invariant
            all == texts(list@),
            known == names_view(names@),
            n == list@.len() / 2,
            2 * n <= list@.len() <= usize::MAX,
            k <= n,
            unknown_from(all, known, 0) == unknown_from(all, known, k as int),
        decreases n - k,
    {
        let part = list[2 * k].as_str();
        assert(all[2 * k] == part@);
        if !is_kept(part, names) {
            return match json::parse(part) {
                Ok(Json::Text(key)) => Some(key),
                _ => None,
            };
        }
        k += 1;
    }
    None
}

/// What is wrong with the form of a record of known fields only.
pub fn check_record(value: &Json, s: &str, names: &[&'static str]) -> (fault: Option<String>)
    ensures
        maybe(fault) == record_fault(value@, s@, names_view(names@)),
{
    match value {
        Json::Object(_) => {
            let list = parts_of(s);
            if let Some(key) = find_unknown(&list, names) {
                let mut fault = "unknown field `".to_owned();
                fault.append(key.as_str());
                fault.append("`, expected ");
                fault.append(choice_of(names).as_str());
                return Some(fault);
            }
            match find_repeated_in(&list, names) {
                Some(name) => Some(duplicate_text(name.as_str())),
                None => None,
            }
        },
        Json::Array(items) => {
            proof {
                lemma_items_view(items@);
            }
            if items.len() == names.len() {
                None
            } else {
                Some(
                    "invalid length, expected all of ".to_owned().concat(
                        list_names(names).as_str(),
                    ),
                )
            }
        },
        _ => Some("invalid type, expected an object".to_owned()),
    }
}

/// Whether a text begins with a bracket, but for white space.
pub open spec fn begins_with(s: Seq<char>, bracket: char) -> bool {
    trimmed_start(s).len() > 0 && trimmed_start(s)[0] == bracket
}

/// Those of the first `n` members, each a key and a value, that have one of
/// the names. A key that cannot be read is kept: it is at fault.
pub open spec fn kept_members(list: Seq<Seq<char>>, names: Seq<Seq<char>>, n: nat) -> Seq<
    (Seq<char>, Seq<char>),
>
    decreases n,
{
    if n == 0 {
        seq![]
    } else {
        let before = kept_members(list, names, (n - 1) as nat);
        let key = key_of(list[2 * (n - 1)]);
        if key is Some && !names.contains(key->0) {
            before
        } else {
            before.push((list[2 * (n - 1)], list[2 * (n - 1) + 1]))
        }
    }
}

/// The members of an object's text that have one of the names.
pub open spec fn members_kept(s: Seq<char>, names: Seq<Seq<char>>) -> Seq<(Seq<char>, Seq<char>)> {
    kept_members(parts(s), names, parts(s).len() / 2)
}

/// The text of an object with the given members.
pub open spec fn object_text(members: Seq<(Seq<char>, Seq<char>)>) -> Seq<char> {
    "{"@ + separated(
        members.map_values(|member: (Seq<char>, Seq<char>)| member.0 + ":"@ + member.1),
        ","@,
    ) + "}"@
}

/// The text of an array with the given items.
pub open spec fn array_text(items: Seq<Seq<char>>) -> Seq<char> {
    "["@ + separated(items, ","@) + "]"@
}

/// The text of a record without the fields that have none of the names.
pub open spec fn kept_record(s: Seq<char>, names: Seq<Seq<char>>) -> Seq<char> {
    if begins_with(s, '{') {
        object_text(members_kept(s, names))
    } else {
        s
    }
}

/// The text of a list of records without the fields that have none of the
/// names.
pub open spec fn kept_list(s: Seq<char>, names: Seq<Seq<char>>) -> Seq<char> {
    if begins_with(s, '[') {
        array_text(parts(s).map_values(|item: Seq<char>| kept_record(item, names)))
    } else {
        s
    }
}

/// Whether a text begins with a bracket, but for white space.
pub fn opens_with(s: &str, bracket: char) -> (yes: bool)
    ensures
        yes == begins_with(s@, bracket),
{
    let rest = text::trim_start(s);
    rest.unicode_len() > 0 && rest.get_char(0) == bracket
}

/// Whether the key in a part is one of the names, or cannot be read.
fn is_kept(part: &str, names: &[&'static str]) -> (yes: bool)
    ensures
        yes == !(key_of(part@) is Some && !names_view(names@).contains(key_of(part@)->0)),
{
    let ghost all = names_view(names@);
    let key = match json::parse(part) {
        Ok(Json::Text(key)) => key,
        _ => {
            return true;
        },
    };
    let mut i: usize = 0;
    while i < names.len()
        invariant
            all == names_view(names@),
            key_of(part@) == Some(key@),
            i <= names@.len(),
            forall|k: int| 0 <= k < i ==> #[trigger] all[k] != key@,
        decreases names@.len() - i,
    {
        assert(all[i as int] == names@[i as int]@);
        if text::same(names[i], key.as_str()) {
            assert(all.contains(key@));
            return true;
        }
        i += 1;
    }
    false
}

/// What pairs of texts say.
pub open spec fn pairs_view(pairs: Seq<(String, String)>) -> Seq<(Seq<char>, Seq<char>)> {
    pairs.map_values(|pair: (String, String)| (pair.0@, pair.1@))
}

/// The members of an object's text that have one of the names.
pub fn keep_members(s: &str, names: &[&'static str]) -> (members: Vec<(String, String)>)
    ensures
        pairs_view(members@) == members_kept(s@, names_view(names@)),
{
    let list = parts_of(s);
    let ghost all = texts(list@);
    let ghost known = names_view(names@);
    let mut members: Vec<(String, String)> = Vec::new();
    let n: usize = list.len() / 2;
    let mut i: usize = 0;
    assert(pairs_view(members@) =~= kept_members(all, known, 0));
    while i < n
        invariant
            all == texts(list@),
            known == names_view(names@),
            n == list@.len() / 2,
            2 * n <= list@.len() <= usize::MAX,
            i <= n,
            pairs_view(members@) == kept_members(all, known, i as nat),
        decreases n - i,
    {
        let k: usize = 2 * i;
        proof {
            assert(all[k as int] == list@[k as int]@);
            assert(all[k + 1] == list@[k + 1]@);
        }
        let ghost before = members@;
        if is_kept(list[k].as_str(), names) {
            let pair = (list[k].clone(), list[k + 1].clone());
            assert(pairs_view(before.push(pair)) =~= pairs_view(before).push(
                (pair.0@, pair.1@),
            ));
            members.push(pair);
        }
        i += 1;
    }
    members
}

/// The text of an object with the given members.
pub fn write_object(members: &Vec<(String, String)>) -> (out: String)
    ensures
        out@ == object_text(pairs_view(members@)),
{
    let ghost all = pairs_view(members@).map_values(
        |member: (Seq<char>, Seq<char>)| member.0 + ":"@ + member.1,
    );
    let mut lines: Vec<String> = Vec::new();
    let mut i: usize = 0;
    while i < members.len()
        invariant
            all == pairs_view(members@).map_values(
                |member: (Seq<char>, Seq<char>)| member.0 + ":"@ + member.1,
            ),
            i <= members@.len(),
            lines@.len() == i,
            texts(lines@) =~= all.take(i as int),
        decreases members@.len() - i,
    {
        let mut line = members[i].0.clone();
        line.append(":");
        line.append(members[i].1.as_str());
        lines.push(line);
        i += 1;
    }
    assert(texts(lines@) =~= all);
    let mut out = "{".to_owned();
    out.append(text::join(&lines, ",").as_str());
    out.append("}");
    out
}

/// The text of an array with the given items.
pub fn write_array(items: &Vec<String>) -> (out: String)
    ensures
        out@ == array_text(texts(items@)),
{
    let mut out = "[".to_owned();
    out.append(text::join(items, ",").as_str());
    out.append("]");
    out
}

/// The text of a record without the fields that have none of the names.
pub fn keep_record(s: &str, names: &[&'static str]) -> (out: String)
    ensures
        out@ == kept_record(s@, names_view(names@)),
{
    if opens_with(s, '{') {
        write_object(&keep_members(s, names))
    } else {
        s.to_owned()
    }
}

/// The text of a list of records without the fields that have none of the
/// names.
pub fn keep_list(s: &str, names: &[&'static str]) -> (out: String)
    ensures
        out@ == kept_list(s@, names_view(names@)),
{
    if !opens_with(s, '[') {
        return s.to_owned();
    }
    let list = parts_of(s);
    let ghost known = names_view(names@);
    let ghost all = parts(s@).map_values(|item: Seq<char>| kept_record(item, known));
    let mut items: Vec<String> = Vec::new();
    let mut i: usize = 0;
    while i < list.len()
        invariant
            known == names_view(names@),
            texts(list@) == parts(s@),
            all == parts(s@).map_values(|item: Seq<char>| kept_record(item, known)),
            i <= list@.len(),
            items@.len() == i,
            texts(items@) =~= all.take(i as int),
        decreases list@.len() - i,
    {
        assert(parts(s@)[i as int] == list@[i as int]@);
        items.push(keep_record(list[i].as_str(), names));
        i += 1;
    }
    assert(texts(items@) =~= all);
    write_array(&items)
}

/// Whether a text is a piece on its own: without quotes, brackets and what
/// separates pieces.
pub open spec fn is_flat(s: Seq<char>) -> bool {
    forall|i: int|
        0 <= i < s.len() ==> {
            let c = #[trigger] s[i];
            c != '"' && c != '{' && c != '}' && c != '[' && c != ']' && c != ',' && c != ':'
        }
}

/// Flat characters go to the piece, as they stand.
proof fn lemma_flat_parts(s: Seq<char>, i: int, to: int, depth: int, piece: Seq<char>)
    requires
        0 <= i <= to <= s.len(),
        is_flat(s.subrange(i, to)),
    ensures
        parts_from(s, i, depth, false, false, piece) == parts_from(
            s,
            to,
            depth,
            false,
            false,
            piece + s.subrange(i, to),
        ),
    decreases to - i,
{
    if i < to {
        let here = s.subrange(i, to);
        assert(here[0] == s[i]);
        let rest = s.subrange(i + 1, to);
        assert forall|k: int| 0 <= k < rest.len() implies {
            let c = #[trigger] rest[k];
            c != '"' && c != '{' && c != '}' && c != '[' && c != ']' && c != ',' && c != ':'
        } by {
            assert(here[k + 1] == rest[k]);
        }
        lemma_flat_parts(s, i + 1, to, depth, piece.push(s[i]));
        assert(piece.push(s[i]) + rest =~= piece + here);
    } else {
        assert(piece + s.subrange(i, to) =~= piece);
    }
}

/// The parts of a list are what was written between its commas, in order and
/// as it stands.
pub proof fn law_lists_are_taken_apart(items: Seq<Seq<char>>)
    requires
        items.len() > 0,
        forall|i: int| 0 <= i < items.len() ==> is_flat(#[trigger] items[i]),
    ensures
        parts(array_text(items)) == items,
{
    reveal_strlit("[");
    reveal_strlit("]");
    reveal_strlit(",");
    assert("["@ =~= seq!['['] && "]"@ =~= seq![']'] && ","@ =~= seq![',']);
    let s = array_text(items);
    assert(s[0] == '[');
    assert(s.skip(1) =~= separated(items, seq![',']) + seq![']']);
    lemma_list_parts(s, 1, items);
}

/// From the first item on, the parts are the items.
proof fn lemma_list_parts(s: Seq<char>, i: int, items: Seq<Seq<char>>)
    requires
        items.len() > 0,
        forall|k: int| 0 <= k < items.len() ==> is_flat(#[trigger] items[k]),
        0 <= i <= s.len(),
        s.skip(i) == separated(items, seq![',']) + seq![']'],
    ensures
        parts_from(s, i, 1, false, false, seq![]) == items,
    decreases items.len(),
{
    let first = items[0];
    assert(is_flat(first));
    let to = i + first.len();
    let none = Seq::<char>::empty();
    if items.len() == 1 {
        assert(s.skip(i) =~= first + seq![']']);
        lemma_piece_at(s, i, first, seq![']']);
        lemma_flat_parts(s, i, to, 1, none);
        assert(none + first =~= first);
        assert(parts_from(s, i, 1, false, false, seq![]) =~= items);
    } else {
        let rest = items.skip(1);
        assert(items =~= seq![first] + rest);
        text::law_separated_lists_append(seq![first], rest, seq![',']);
        let tail = separated(rest, seq![',']) + seq![']'];
        assert(s.skip(i) =~= first + (seq![','] + tail));
        lemma_piece_at(s, i, first, seq![','] + tail);
        lemma_flat_parts(s, i, to, 1, none);
        assert(none + first =~= first);
        assert(s.skip(to + 1) =~= tail) by {
            assert(s.skip(to + 1) =~= s.skip(i).skip(first.len() as int + 1));
        }
        assert forall|k: int| 0 <= k < rest.len() implies is_flat(#[trigger] rest[k]) by {
            assert(rest[k] == items[k + 1]);
        }
        lemma_list_parts(s, to + 1, rest);
        assert(parts_from(s, i, 1, false, false, seq![]) =~= items);
    }
}

/// Where a piece stands, and what stands behind it.
proof fn lemma_piece_at(s: Seq<char>, i: int, first: Seq<char>, tail: Seq<char>)
    requires
        0 <= i <= s.len(),
        s.skip(i) == first + tail,
        tail.len() > 0,
    ensures
        i + first.len() < s.len(),
        s.subrange(i, i + first.len()) == first,
        s[i + first.len()] == tail[0],
{
    assert(s.skip(i).len() == first.len() + tail.len());
    assert(s.subrange(i, i + first.len()) =~= first) by {
        assert forall|k: int| 0 <= k < first.len() implies s.subrange(i, i + first.len())[k]
            == #[trigger] first[k] by {
            assert(s.skip(i)[k] == s[i + k]);
        }
    }
    assert(s.skip(i)[first.len() as int] == s[i + first.len()]);
}

/// The parts of an object with one member are its key and its value.
pub proof fn law_members_are_taken_apart(key: Seq<char>, value: Seq<char>)
    requires
        is_flat(key),
        is_flat(value),
    ensures
        parts(object_text(seq![(key, value)])) == seq![key, value],
{
    reveal_strlit("{");
    reveal_strlit("}");
    reveal_strlit(":");
    assert("{"@ =~= seq!['{'] && "}"@ =~= seq!['}'] && ":"@ =~= seq![':']);
    let one = seq![(key, value)];
    let written = one.map_values(
        |member: (Seq<char>, Seq<char>)| member.0 + ":"@ + member.1,
    );
    assert(written =~= seq![key + ":"@ + value]);
    let s = object_text(one);
    assert(s =~= seq!['{'] + key + seq![':'] + value + seq!['}']);
    let none = Seq::<char>::empty();
    assert(s.skip(1) =~= key + (seq![':'] + value + seq!['}']));
    lemma_piece_at(s, 1, key, seq![':'] + value + seq!['}']);
    lemma_flat_parts(s, 1, 1 + key.len() as int, 1, none);
    assert(none + key =~= key);
    let behind = 2 + key.len() as int;
    assert(s.skip(behind) =~= value + seq!['}']);
    lemma_piece_at(s, behind, value, seq!['}']);
    lemma_flat_parts(s, behind, behind + value.len(), 1, none);
    assert(none + value =~= value);
    assert(parts(s) =~= seq![key, value]);
}

/// What stands in quotes separates nothing: it goes to the piece as it stands,
/// with its quotes.
pub proof fn law_quoted_text_stays_in_its_part(
    s: Seq<char>,
    i: int,
    end: int,
    depth: int,
    piece: Seq<char>,
)
    requires
        0 <= i < end < s.len(),
        s[i] == '"',
        s[end] == '"',
        forall|k: int| i < k < end ==> #[trigger] s[k] != '"' && s[k] != '\\',
    ensures
        parts_from(s, i, depth, false, false, piece) == parts_from(
            s,
            end + 1,
            depth,
            false,
            false,
            piece + s.subrange(i, end + 1),
        ),
{
    lemma_quoted_parts(s, i + 1, end, depth, piece.push(s[i]));
    assert(piece.push(s[i]) + s.subrange(i + 1, end + 1) =~= piece + s.subrange(i, end + 1));
}

/// Up to the closing quote everything goes to the piece.
proof fn lemma_quoted_parts(s: Seq<char>, i: int, end: int, depth: int, piece: Seq<char>)
    requires
        0 <= i <= end < s.len(),
        s[end] == '"',
        forall|k: int| i <= k < end ==> #[trigger] s[k] != '"' && s[k] != '\\',
    ensures
        parts_from(s, i, depth, true, false, piece) == parts_from(
            s,
            end + 1,
            depth,
            false,
            false,
            piece + s.subrange(i, end + 1),
        ),
    decreases end - i,
{
    if i < end {
        assert(s[i] != '"');
        lemma_quoted_parts(s, i + 1, end, depth, piece.push(s[i]));
        assert(piece.push(s[i]) + s.subrange(i + 1, end + 1) =~= piece + s.subrange(i, end + 1));
    } else {
        assert(piece.push(s[i]) =~= piece + s.subrange(i, end + 1));
    }
}

/// An escaped character in quotes ends nothing.
pub proof fn law_escaped_quotes_end_nothing(s: Seq<char>, i: int, depth: int, piece: Seq<char>)
    requires
        0 <= i,
        i + 1 < s.len(),
        s[i] == '\\',
    ensures
        parts_from(s, i, depth, true, false, piece) == parts_from(
            s,
            i + 2,
            depth,
            true,
            false,
            piece.push(s[i]).push(s[i + 1]),
        ),
{
    reveal_with_fuel(parts_from, 3);
}

/// A value in brackets inside a list or an object belongs to its part, flat
/// separators and all.
pub proof fn law_nested_values_stay_in_their_part(
    s: Seq<char>,
    i: int,
    end: int,
    piece: Seq<char>,
)
    requires
        0 <= i < end < s.len(),
        s[i] == '{' || s[i] == '[',
        s[end] == '}' || s[end] == ']',
        forall|k: int|
            i < k < end ==> {
                let c = #[trigger] s[k];
                c != '"' && c != '{' && c != '}' && c != '[' && c != ']'
            },
    ensures
        parts_from(s, i, 1, false, false, piece) == parts_from(
            s,
            end + 1,
            1,
            false,
            false,
            piece + s.subrange(i, end + 1),
        ),
{
    lemma_nested_parts(s, i + 1, end, piece.push(s[i]));
    assert(piece.push(s[i]) + s.subrange(i + 1, end + 1) =~= piece + s.subrange(i, end + 1));
}

/// Up to the closing bracket everything goes to the piece.
proof fn lemma_nested_parts(s: Seq<char>, i: int, end: int, piece: Seq<char>)
    requires
        0 <= i <= end < s.len(),
        s[end] == '}' || s[end] == ']',
        forall|k: int|
            i <= k < end ==> {
                let c = #[trigger] s[k];
                c != '"' && c != '{' && c != '}' && c != '[' && c != ']'
            },
    ensures
        parts_from(s, i, 2, false, false, piece) == parts_from(
            s,
            end + 1,
            1,
            false,
            false,
            piece + s.subrange(i, end + 1),
        ),
    decreases end - i,
{
    if i < end {
        assert(s[i] != '"');
        lemma_nested_parts(s, i + 1, end, piece.push(s[i]));
        assert(piece.push(s[i]) + s.subrange(i + 1, end + 1) =~= piece + s.subrange(i, end + 1));
    } else {
        assert(piece.push(s[i]) =~= piece + s.subrange(i, end + 1));
    }
}

/// A field counts as written as often as a key of its name stands among the
/// parts: not at all, once, or at two places.
pub proof fn law_fields_are_counted(list: Seq<Seq<char>>, name: Seq<char>, n: nat)
    requires
        n <= list.len(),
    ensures
        times_written(list, name, n) > 0 <==> exists|k: int|
            0 <= k < n && k % 2 == 0 && #[trigger] is_key(list[k], name),
        times_written(list, name, n) > 1 <==> exists|j: int, k: int|
            0 <= j < k < n && j % 2 == 0 && k % 2 == 0 && #[trigger] is_key(list[j], name)
                && #[trigger] is_key(list[k], name),
    decreases n,
{
    if n > 0 {
        law_fields_are_counted(list, name, (n - 1) as nat);
        let before = times_written(list, name, (n - 1) as nat);
        let here = (n - 1) % 2 == 0 && is_key(list[n - 1], name);
        if here && before > 0 {
            let j = choose|j: int|
                0 <= j < n - 1 && j % 2 == 0 && #[trigger] is_key(list[j], name);
            assert(is_key(list[j], name) && is_key(list[n - 1], name));
        }
        if here && before == 0 {
            if exists|j: int, k: int|
                0 <= j < k < n && j % 2 == 0 && k % 2 == 0 && #[trigger] is_key(list[j], name)
                    && #[trigger] is_key(list[k], name) {
                let (j, k) = choose|j: int, k: int|
                    0 <= j < k < n && j % 2 == 0 && k % 2 == 0 && #[trigger] is_key(list[j], name)
                        && #[trigger] is_key(list[k], name);
                assert(is_key(list[j], name) && j < n - 1);
            }
        }
    }
}

/// The field that is told as repeated is the first of the names that is
/// written at two places, and none is told exactly where there is none.
pub proof fn law_repeated_fields_are_told(list: Seq<Seq<char>>, names: Seq<Seq<char>>, from: int)
    requires
        0 <= from <= names.len(),
    ensures
        repeated_from(list, names, from) matches Some(name) ==> exists|k: int|
            {
                &&& from <= k < names.len()
                &&& #[trigger] names[k] == name
                &&& times_written(list, name, list.len()) > 1
                &&& forall|m: int|
                    from <= m < k ==> times_written(list, #[trigger] names[m], list.len()) <= 1
            },
        repeated_from(list, names, from) is None ==> forall|m: int|
            from <= m < names.len() ==> times_written(list, #[trigger] names[m], list.len()) <= 1,
    decreases names.len() - from,
{
    if from < names.len() {
        if times_written(list, names[from], list.len()) > 1 {
            assert(names[from] == repeated_from(list, names, from)->0);
        } else {
            law_repeated_fields_are_told(list, names, from + 1);
            if repeated_from(list, names, from) is Some {
                let name = repeated_from(list, names, from)->0;
                let k = choose|k: int|
                    {
                        &&& from + 1 <= k < names.len()
                        &&& #[trigger] names[k] == name
                        &&& times_written(list, name, list.len()) > 1
                        &&& forall|m: int|
                            from + 1 <= m < k ==> times_written(
                                list,
                                #[trigger] names[m],
                                list.len(),
                            ) <= 1
                    };
                assert(names[k] == name);
            }
        }
    }
}

/// The field that is told as unknown is the first key among the parts that is
/// none of the names, and none is told exactly where there is none.
pub proof fn law_unknown_fields_are_told(list: Seq<Seq<char>>, names: Seq<Seq<char>>, from: int)
    requires
        0 <= from,
    ensures
        unknown_from(list, names, from) matches Some(key) ==> {
            &&& !names.contains(key)
            &&& exists|k: int|
                {
                    &&& from <= k && 2 * k + 1 < list.len()
                    &&& #[trigger] key_of(list[2 * k]) == Some(key)
                    &&& forall|m: int|
                        from <= m < k && #[trigger] key_of(list[2 * m]) is Some ==> names.contains(
                            key_of(list[2 * m])->0,
                        )
                }
        },
        unknown_from(list, names, from) is None ==> forall|k: int|
            from <= k && 2 * k + 1 < list.len() && #[trigger] key_of(list[2 * k]) is Some
                ==> names.contains(key_of(list[2 * k])->0),
    decreases list.len() - 2 * from,
{
    if 2 * from + 1 < list.len() {
        if key_of(list[2 * from]) is Some && !names.contains(key_of(list[2 * from])->0) {
            assert(key_of(list[2 * from]) == unknown_from(list, names, from));
        } else {
            law_unknown_fields_are_told(list, names, from + 1);
            if unknown_from(list, names, from) is Some {
                let key = unknown_from(list, names, from)->0;
                let k = choose|k: int|
                    {
                        &&& from + 1 <= k && 2 * k + 1 < list.len()
                        &&& #[trigger] key_of(list[2 * k]) == Some(key)
                        &&& forall|m: int|
                            from + 1 <= m < k && #[trigger] key_of(list[2 * m]) is Some
                                ==> names.contains(key_of(list[2 * m])->0)
                    };
                assert(key_of(list[2 * k]) == Some(key));
            }
            assert forall|k: int|
                unknown_from(list, names, from) is None && from <= k && 2 * k + 1 < list.len()
                    && #[trigger] key_of(list[2 * k]) is Some implies names.contains(
                key_of(list[2 * k])->0,
            ) by {
                if k > from {
                    assert(from + 1 <= k);
                }
            }
        }
    }
}

/// A record is refused for an unknown field, then for a repeated one, as a
/// list for its length, and as anything else for what it is; and for nothing
/// else.
pub proof fn law_records_are_checked(value: JsonView, s: Seq<char>, names: Seq<Seq<char>>)
    ensures
        value is Object ==> (record_fault(value, s, names) is None <==> unknown_from(
            parts(s),
            names,
            0,
        ) is None && repeated_from(parts(s), names, 0) is None),
        value matches JsonView::Array(items) ==> (record_fault(value, s, names) is None
            <==> items.len() == names.len()),
        !(value is Object) && !(value is Array) ==> record_fault(value, s, names) is Some,
        value is Object && unknown_from(parts(s), names, 0) is None ==> match repeated_from(
            parts(s),
            names,
            0,
        ) {
            Some(name) => record_fault(value, s, names) == Some(
                "duplicate field `"@ + name + "`"@,
            ),
            None => record_fault(value, s, names) is None,
        },
{
}

/// The members that are kept of an object are those whose key is one of the
/// names or cannot be read, each with its value, in their order.
pub proof fn law_named_members_are_kept(list: Seq<Seq<char>>, names: Seq<Seq<char>>, n: nat)
    requires
        2 * n <= list.len(),
    ensures
        kept_members(list, names, n) == Seq::new(n, |k: int| (list[2 * k], list[2 * k + 1])).filter(
            |member: (Seq<char>, Seq<char>)|
                key_of(member.0) is None || names.contains(key_of(member.0)->0),
        ),
    decreases n,
{
    reveal(Seq::filter);
    let pairs = Seq::new(n, |k: int| (list[2 * k], list[2 * k + 1]));
    if n > 0 {
        law_named_members_are_kept(list, names, (n - 1) as nat);
        assert(pairs.drop_last() =~= Seq::new(
            (n - 1) as nat,
            |k: int| (list[2 * k], list[2 * k + 1]),
        ));
        assert(pairs.last() == (list[2 * (n - 1)], list[2 * (n - 1) + 1]));
    } else {
        assert(pairs =~= seq![]);
    }
}

/// The text of a field is what is written behind its key, and that behind the
/// last one where the key is written more than once; of a list it is the part
/// at its position.
pub proof fn law_fields_are_found_behind_their_key(
    list: Seq<Seq<char>>,
    name: Seq<char>,
    n: nat,
    k: int,
)
    requires
        0 <= k < n <= list.len(),
        k % 2 == 0,
        k + 1 < list.len(),
        is_key(list[k], name),
        forall|m: int| k < m < n && m % 2 == 0 ==> !#[trigger] is_key(list[m], name),
    ensures
        value_part(list, name, n) == list[k + 1],
    decreases n,
{
    if k < n - 1 {
        if (n - 1) % 2 == 0 {
            assert(!is_key(list[n - 1], name));
        }
        law_fields_are_found_behind_their_key(list, name, (n - 1) as nat, k);
    }
}

/// A list is kept item by item, and what is no list or no object as it is.
pub proof fn law_lists_are_kept_item_by_item(s: Seq<char>, names: Seq<Seq<char>>)
    ensures
        !begins_with(s, '[') ==> kept_list(s, names) == s,
        !begins_with(s, '{') ==> kept_record(s, names) == s,
        begins_with(s, '[') ==> exists|items: Seq<Seq<char>>|
            {
                &&& kept_list(s, names) == #[trigger] array_text(items)
                &&& items.len() == parts(s).len()
                &&& forall|i: int|
                    0 <= i < items.len() ==> items[i] == kept_record(
                        #[trigger] parts(s)[i],
                        names,
                    )
            },
{
    if begins_with(s, '[') {
        let items = parts(s).map_values(|item: Seq<char>| kept_record(item, names));
        assert(kept_list(s, names) == array_text(items));
    }
}

/// A record that is refused is told why: by the field that is not known and
/// the names that are, by the length that was expected, or by its type.
pub proof fn law_refused_records_are_told_why(
    value: JsonView,
    s: Seq<char>,
    names: Seq<Seq<char>>,
)
    ensures
        value is Object ==> (unknown_from(parts(s), names, 0) matches Some(key) ==> record_fault(
            value,
            s,
            names,
        ) == Some("unknown field `"@ + key + "`, expected "@ + one_of(names))),
        value matches JsonView::Array(items) ==> (items.len() != names.len() ==> record_fault(
            value,
            s,
            names,
        ) == Some("invalid length, expected all of "@ + names_listed(names))),
        !(value is Object) && !(value is Array) ==> record_fault(value, s, names) == Some(
            "invalid type, expected an object"@,
        ),
{
}

/// A repeated field of a record in a list is that of the first record that
/// repeats one; a record that is no object repeats none.
pub proof fn law_repeated_fields_of_items_are_told(
    items: Seq<JsonView>,
    list: Seq<Seq<char>>,
    names: Seq<Seq<char>>,
    from: int,
)
    requires
        0 <= from <= items.len(),
    ensures
        repeated_in_items(items, list, names, from) is None <==> forall|k: int|
            from <= k < items.len() && #[trigger] items[k] is Object ==> repeated_from(
                parts(part_at(list, k)),
                names,
                0,
            ) is None,
        repeated_in_items(items, list, names, from) matches Some(name) ==> exists|k: int|
            {
                &&& from <= k < items.len()
                &&& #[trigger] items[k] is Object
                &&& repeated_from(parts(part_at(list, k)), names, 0) == Some(name)
            },
    decreases items.len() - from,
{
    if from < items.len() {
        law_repeated_fields_of_items_are_told(items, list, names, from + 1);
        if repeated_in(items[from], part_at(list, from), names) is Some {
            assert(items[from] is Object);
        } else if repeated_in_items(items, list, names, from) is Some {
            let name = repeated_in_items(items, list, names, from)->0;
            let k = choose|k: int|
                {
                    &&& from + 1 <= k < items.len()
                    &&& #[trigger] items[k] is Object
                    &&& repeated_from(parts(part_at(list, k)), names, 0) == Some(name)
                };
            assert(items[k] is Object);
        }
    }
}

/// The text of a member is what stands behind its key, and that of an item
/// what stands at its position; what is not there has no text.
pub proof fn law_texts_belong_to_their_field(
    value: JsonView,
    s: Seq<char>,
    name: Seq<char>,
    index: int,
)
    ensures
        value is Array && 0 <= index < parts(s).len() ==> field_text(value, s, name, index)
            == parts(s)[index],
        value is Array && !(0 <= index < parts(s).len()) ==> field_text(
            value,
            s,
            name,
            index,
        ).len() == 0,
        value is Object ==> field_text(value, s, name, index) == value_part(
            parts(s),
            name,
            parts(s).len(),
        ),
        0 <= index < parts(s).len() ==> part_at(parts(s), index) == parts(s)[index],
{
}

}
