//! Tool calls in plain replies, for models whose native function calling is
//! unreliable.

use vstd::prelude::*;

use crate::event::{CallView, ToolCallRequest};
use crate::json;
use crate::json::{at_key, member, no_members, parsed, printed, text_in, Json, JsonView};
use crate::text;
use crate::text::{chars_of, index_of, is_at, string_of, trimmed};

verus! {

/// The text from `i` on without `<think>...</think>` spans; one that is never
/// closed drops the rest.
pub open spec fn unthought(s: Seq<char>, i: int) -> Seq<char>
    decreases s.len() - i,
{
    if i < 0 || i >= s.len() {
        seq![]
    } else if !is_at(s, "<think>"@, i) {
        seq![s[i]] + unthought(s, i + 1)
    } else {
        match index_of(s, "</think>"@, i) {
            None => seq![],
            Some(close) => {
                let next = close + "</think>"@.len();
                if i < next <= s.len() {
                    unthought(s, next)
                } else {
                    seq![]
                }
            },
        }
    }
}

/// `s` without any number of `suffix` at its end.
pub open spec fn without_suffixes(s: Seq<char>, suffix: Seq<char>) -> Seq<char>
    decreases s.len(),
{
    let rest = s.len() - suffix.len();
    if suffix.len() > 0 && is_at(s, suffix, rest) {
        without_suffixes(s.take(rest), suffix)
    } else {
        s
    }
}

/// A reply without the code fence around it.
pub open spec fn unfenced(s: Seq<char>) -> Seq<char> {
    if is_at(s, "```json"@, 0) {
        without_suffixes(s.skip("```json"@.len() as int), "```"@)
    } else if is_at(s, "```"@, 0) {
        without_suffixes(s.skip("```"@.len() as int), "```"@)
    } else {
        s
    }
}

/// The part of a reply that may be a tool call: no thinking, no code fence.
pub open spec fn candidate(reply: Seq<char>) -> Seq<char> {
    trimmed(unfenced(trimmed(unthought(reply, 0))))
}

/// The tool call that a JSON value is, if it is one.
pub open spec fn call_in_value(value: JsonView) -> Option<CallView> {
    match member(value, "tool_call"@) {
        None => None,
        Some(call) => match member(call, "name"@) {
            None => None,
            Some(name) => match text_in(name) {
                None => None,
                Some(name) => Some(
                    CallView {
                        id: "prompted-1"@,
                        name,
                        args_json: printed(
                            match member(call, "arguments"@) {
                                Some(arguments) => arguments,
                                None => no_members(),
                            },
                        ),
                    },
                ),
            },
        },
    }
}

/// The tool call that a text is, if it is one.
pub open spec fn call_in_text(s: Seq<char>) -> Option<CallView> {
    match parsed(s) {
        Ok(value) => call_in_value(value),
        Err(_) => None,
    }
}

/// The position behind the `}` that closes what is open at `i`: `depth` braces,
/// and a string, its last character a backslash that escapes the next one, if
/// `quoted` and `escaped` say so. Braces in strings do not count.
pub open spec fn closing(
    s: Seq<char>,
    i: int,
    depth: nat,
    quoted: bool,
    escaped: bool,
) -> Option<int>
    decreases s.len() - i,
{
    if i < 0 || i >= s.len() {
        None
    } else if quoted {
        if escaped {
            closing(s, i + 1, depth, true, false)
        } else {
            closing(s, i + 1, depth, s[i] != '"', s[i] == '\\')
        }
    } else if s[i] == '"' {
        closing(s, i + 1, depth, true, false)
    } else if s[i] == '{' {
        closing(s, i + 1, depth + 1, false, false)
    } else if s[i] == '}' {
        if depth == 0 {
            None
        } else if depth == 1 {
            Some(i + 1)
        } else {
            closing(s, i + 1, (depth - 1) as nat, false, false)
        }
    } else {
        closing(s, i + 1, depth, false, false)
    }
}

/// The first balanced `{...}` from `i` on that is a tool call.
pub open spec fn embedded_call(s: Seq<char>, i: int) -> Option<CallView>
    decreases s.len() - i,
{
    if i < 0 || i >= s.len() {
        None
    } else {
        let here = if s[i] == '{' {
            match closing(s, i, 0, false, false) {
                Some(end) => call_in_text(s.subrange(i, end)),
                None => None,
            }
        } else {
            None
        };
        match here {
            Some(call) => Some(call),
            None => embedded_call(s, i + 1),
        }
    }
}

/// The tool call that a reply makes: the whole of it, or the first one that it
/// holds.
pub open spec fn prompted_call(reply: Seq<char>) -> Option<CallView> {
    match call_in_text(candidate(reply)) {
        Some(call) => Some(call),
        None => embedded_call(candidate(reply), 0),
    }
}

/// Remove `<think>...</think>` spans; an unterminated block drops the rest.
pub fn strip_think_blocks(reply: &str) -> (out: String)
    ensures
        out@ == unthought(reply@, 0),
{
    let s = chars_of(reply);
    let open = chars_of("<think>");
    let close = chars_of("</think>");
    proof {
        reveal_strlit("</think>");
    }
    let mut out = String::new();
    let mut i: usize = 0;
    assert(out@ + unthought(reply@, 0) =~= unthought(reply@, 0));
    while i < s.len()
        invariant
            s@ == reply@,
            open@ == "<think>"@,
            close@ == "</think>"@,
            close@.len() == 8,
            i <= s@.len(),
            out@ + unthought(reply@, i as int) == unthought(reply@, 0),
        decreases s@.len() - i,
    {
        let ghost before = out@;
        if !text::stands_at(&s, &open, i) {
            out.push(s[i]);
            assert(before + (seq![s@[i as int]] + unthought(reply@, i + 1)) =~= out@ + unthought(
                reply@,
                i + 1,
            ));
            i += 1;
        } else {
            match text::find(&s, &close, i) {
                None => {
                    assert(out@ + Seq::<char>::empty() =~= out@);
                    return out;
                },
                Some(at) => {
                    i = at + close.len();
                },
            }
        }
    }
    assert(out@ + unthought(reply@, i as int) =~= out@);
    out
}

/// `s` without any number of `suffix` at its end.
fn trim_suffixes<'a>(s: &'a str, suffix: &str) -> (rest: &'a str)
    ensures
        rest@ == without_suffixes(s@, suffix@),
{
    let chars = chars_of(s);
    let tail = chars_of(suffix);
    let mut end: usize = chars.len();
    assert(chars@.take(end as int) =~= s@);
    while tail.len() > 0 && end >= tail.len() && text::stands_at(&chars, &tail, end - tail.len())
        invariant
            chars@ == s@,
            tail@ == suffix@,
            end <= chars@.len(),
            without_suffixes(s@, suffix@) == without_suffixes(s@.take(end as int), suffix@),
        decreases end,
    {
        let ghost cut = s@.take(end as int);
        proof {
            let rest = cut.len() - suffix@.len();
            assert(cut.subrange(rest, rest + suffix@.len()) =~= s@.subrange(
                rest,
                rest + suffix@.len(),
            ));
            assert(cut.take(rest) =~= s@.take(rest));
        }
        end -= tail.len();
    }
    proof {
        let cut = s@.take(end as int);
        let rest = cut.len() - suffix@.len();
        if suffix@.len() > 0 && rest >= 0 {
            assert(cut.subrange(rest, rest + suffix@.len()) =~= s@.subrange(
                rest,
                rest + suffix@.len(),
            ));
        }
        assert(s@.subrange(0, end as int) =~= cut);
    }
    s.substring_char(0, end)
}

/// A reply without the code fence around it.
fn strip_fence<'a>(s: &'a str) -> (rest: &'a str)
    ensures
        rest@ == unfenced(s@),
{
    let len: usize = s.unicode_len();
    proof {
        reveal_strlit("```json");
        reveal_strlit("```");
    }
    if text::starts_with(s, "```json") {
        assert(s@.subrange(7, len as int) =~= s@.skip(7));
        trim_suffixes(s.substring_char(7, len), "```")
    } else if text::starts_with(s, "```") {
        assert(s@.subrange(3, len as int) =~= s@.skip(3));
        trim_suffixes(s.substring_char(3, len), "```")
    } else {
        s
    }
}

/// The tool call that a JSON value is, if it is one.
pub fn tool_call_of_value(value: &Json) -> (call: Option<ToolCallRequest>)
    ensures
        match call {
            Some(call) => call_in_value(value@) == Some(call@),
            None => call_in_value(value@) is None,
        },
{
    let call = match value.get("tool_call") {
        Some(call) => call,
        None => {
            return None;
        },
    };
    let name = match call.get("name") {
        Some(name) => name,
        None => {
            return None;
        },
    };
    match name.as_str() {
        None => None,
        Some(name) => {
            let args_json = match call.get("arguments") {
                Some(arguments) => arguments.to_string(),
                None => Json::object().to_string(),
            };
            Some(ToolCallRequest { id: "prompted-1".to_owned(), name: name.to_owned(), args_json })
        },
    }
}

/// The tool call that a text is, if it is one.
fn parse_tool_call_value(s: &str) -> (call: Option<ToolCallRequest>)
    ensures
        match call {
            Some(call) => call_in_text(s@) == Some(call@),
            None => call_in_text(s@) is None,
        },
{
    match json::parse(s) {
        Ok(value) => tool_call_of_value(&value),
        Err(_) => None,
    }
}

/// The position behind the balanced `{...}` that begins at `from`, respecting
/// strings and escapes.
pub fn balanced_end(s: &[char], from: usize) -> (end: Option<usize>)
    requires
        from < s@.len(),
        s@[from as int] == '{',
    ensures
        match end {
            Some(end) => closing(s@, from as int, 0, false, false) == Some(end as int) && from < end
                <= s@.len(),
            None => closing(s@, from as int, 0, false, false) is None,
        },
{
    let mut depth: usize = 0;
    let mut quoted = false;
    let mut escaped = false;
    let mut i: usize = from;
    while i < s.len()
        invariant
            from <= i <= s@.len(),
            depth <= i - from,
            closing(s@, from as int, 0, false, false) == closing(
                s@,
                i as int,
                depth as nat,
                quoted,
                escaped,
            ),
        decreases s@.len() - i,
    {
        let c = s[i];
        if quoted {
            if escaped {
                escaped = false;
            } else if c == '\\' {
                escaped = true;
            } else if c == '"' {
                quoted = false;
            }
        } else if c == '"' {
            quoted = true;
            escaped = false;
        } else if c == '{' {
            escaped = false;
            depth += 1;
        } else if c == '}' {
            escaped = false;
            if depth == 0 {
                return None;
            }
            if depth == 1 {
                return Some(i + 1);
            }
            depth -= 1;
        } else {
            escaped = false;
        }
        i += 1;
    }
    None
}

/// Scan prose for the first balanced JSON object that parses as a tool call.
fn find_embedded_tool_call(prose: &str) -> (call: Option<ToolCallRequest>)
    ensures
        match call {
            Some(call) => embedded_call(prose@, 0) == Some(call@),
            None => embedded_call(prose@, 0) is None,
        },
{
    let s = chars_of(prose);
    let mut i: usize = 0;
    while i < s.len()
        invariant
            s@ == prose@,
            i <= s@.len(),
            embedded_call(prose@, 0) == embedded_call(prose@, i as int),
        decreases s@.len() - i,
    {
        if s[i] == '{' {
            if let Some(end) = balanced_end(&s, i) {
                let object = string_of(&s, i, end);
                if let Some(call) = parse_tool_call_value(object.as_str()) {
                    return Some(call);
                }
            }
        }
        i += 1;
    }
    None
}

/// Parse a prompted-mode reply as a tool call. Tolerates `<think>` blocks
/// (reasoning models emit them regardless of instructions), code fences,
/// and surrounding prose.
pub fn extract_prompted_tool_call(reply: &str) -> (call: Option<ToolCallRequest>)
    ensures
        match call {
            Some(call) => prompted_call(reply@) == Some(call@),
            None => prompted_call(reply@) is None,
        },
{
    let cleaned = strip_think_blocks(reply);
    let text = text::trim(strip_fence(text::trim(cleaned.as_str())));
    match parse_tool_call_value(text) {
        Some(call) => Some(call),
        None => find_embedded_tool_call(text),
    }
}

/// A reply in front of its thoughts stays as it is.
pub proof fn law_text_before_thoughts_stays(s: Seq<char>, i: int, to: int)
    requires
        0 <= i <= to <= s.len(),
        forall|k: int| i <= k < to ==> !#[trigger] is_at(s, "<think>"@, k),
    ensures
        unthought(s, i) == s.subrange(i, to) + unthought(s, to),
    decreases to - i,
{
    if i < to {
        assert(!is_at(s, "<think>"@, i));
        law_text_before_thoughts_stays(s, i + 1, to);
        assert(unthought(s, i) =~= s.subrange(i, to) + unthought(s, to));
    } else {
        assert(unthought(s, i) =~= s.subrange(i, to) + unthought(s, to));
    }
}

/// Thoughts leave nothing: the reply goes on behind the first "</think>", and
/// where there is none, it ends.
pub proof fn law_thoughts_vanish(s: Seq<char>, i: int)
    requires
        is_at(s, "<think>"@, i),
    ensures
        unthought(s, i) == match index_of(s, "</think>"@, i) {
            Some(close) => unthought(s, close + 8),
            None => seq![],
        },
{
    reveal_strlit("<think>");
    reveal_strlit("</think>");
    assert("<think>"@.len() == 7);
    assert("</think>"@.len() == 8);
    text::lemma_index_of_first(s, "</think>"@, i);
}

/// A fence around a reply is taken away, with the mark of its language.
pub proof fn law_fences_are_taken_away(body: Seq<char>)
    requires
        body.len() > 0,
        body.last() != '`',
        body[0] != '`',
        !is_at("```"@ + body + "```"@, "```json"@, 0),
    ensures
        unfenced("```json"@ + body + "```"@) == body,
        unfenced("```"@ + body + "```"@) == body,
{
    reveal_strlit("```json");
    reveal_strlit("```");
    assert("```json"@.len() == 7);
    assert("```"@.len() == 3);
    let tagged = "```json"@ + body + "```"@;
    assert(tagged.subrange(0, 7) =~= "```json"@);
    assert(tagged.skip(7) =~= body + "```"@);
    let plain = "```"@ + body + "```"@;
    assert(plain.subrange(0, 3) =~= "```"@);
    assert(plain.skip(3) =~= body + "```"@);
    lemma_fence_end(body);
}

/// A fence at the end is taken away, and no more.
proof fn lemma_fence_end(body: Seq<char>)
    requires
        body.len() > 0,
        body.last() != '`',
    ensures
        without_suffixes(body + "```"@, "```"@) == body,
{
    reveal_strlit("```");
    assert("```"@.len() == 3);
    let fenced = body + "```"@;
    let rest = body.len() as int;
    assert(fenced.subrange(rest, rest + 3) =~= "```"@);
    assert(fenced.take(rest) =~= body);
    let left = body.len() - 3;
    if is_at(body, "```"@, left) {
        assert(body.subrange(left, left + 3)[2] == body[left + 2]);
    }
    assert(without_suffixes(body, "```"@) == body);
}

/// A reply is a call exactly where it is an object with "tool_call" and a name
/// in it; the call has that name, and its arguments as they are, or an empty
/// object where it has none.
pub proof fn law_calls_are_read_from_objects(value: JsonView)
    ensures
        call_in_value(value) is Some <==> at_key(at_key(value, "tool_call"@), "name"@) is Text,
        call_in_value(value) matches Some(call) ==> {
            let said = at_key(value, "tool_call"@);
            &&& call.id == "prompted-1"@
            &&& at_key(said, "name"@) == JsonView::Text(call.name)
            &&& member(said, "arguments"@) matches Some(arguments) ==> call.args_json == printed(
                arguments,
            )
            &&& member(said, "arguments"@) is None ==> call.args_json == printed(no_members())
        },
{
}

/// Text without braces in front of a call does not hide it.
pub proof fn law_text_around_calls_is_skipped(s: Seq<char>, i: int, to: int)
    requires
        0 <= i <= to <= s.len(),
        forall|k: int| i <= k < to ==> #[trigger] s[k] != '{',
    ensures
        embedded_call(s, i) == embedded_call(s, to),
    decreases to - i,
{
    if i < to {
        assert(s[i] != '{');
        law_text_around_calls_is_skipped(s, i + 1, to);
    }
}

/// An object in the text is read up to the brace that closes it: where that
/// part is a call it is the call, and else the text behind its first brace is
/// searched.
pub proof fn law_embedded_objects_are_tried(s: Seq<char>, i: int)
    requires
        0 <= i < s.len(),
        s[i] == '{',
    ensures
        closing(s, i, 0, false, false) matches Some(end) ==> {
            &&& call_in_text(s.subrange(i, end)) is Some ==> embedded_call(s, i) == call_in_text(
                s.subrange(i, end),
            )
            &&& call_in_text(s.subrange(i, end)) is None ==> embedded_call(s, i) == embedded_call(
                s,
                i + 1,
            )
        },
        closing(s, i, 0, false, false) is None ==> embedded_call(s, i) == embedded_call(s, i + 1),
{
}

/// An object without braces or quotes inside closes at its brace.
pub proof fn law_flat_objects_close_at_their_brace(s: Seq<char>, i: int, end: int)
    requires
        0 <= i < end < s.len(),
        s[i] == '{',
        s[end] == '}',
        forall|k: int|
            i < k < end ==> #[trigger] s[k] != '{' && s[k] != '}' && s[k] != '"',
    ensures
        closing(s, i, 0, false, false) == Some(end + 1),
{
    lemma_flat(s, i + 1, end);
}

/// Plain characters lead up to the brace.
proof fn lemma_flat(s: Seq<char>, i: int, end: int)
    requires
        0 <= i <= end < s.len(),
        s[end] == '}',
        forall|k: int|
            i <= k < end ==> #[trigger] s[k] != '{' && s[k] != '}' && s[k] != '"',
    ensures
        closing(s, i, 1, false, false) == Some(end + 1),
    decreases end - i,
{
    if i < end {
        assert(s[i] != '{');
        lemma_flat(s, i + 1, end);
    }
}

/// What stands in quotes closes nothing: behind the quotes the reading goes on
/// as in front of them.
pub proof fn law_quoted_braces_do_not_count(s: Seq<char>, i: int, end: int, depth: nat)
    requires
        0 <= i < end < s.len(),
        s[i] == '"',
        s[end] == '"',
        forall|k: int| i < k < end ==> #[trigger] s[k] != '"' && s[k] != '\\',
    ensures
        closing(s, i, depth, false, false) == closing(s, end + 1, depth, false, false),
{
    lemma_quoted(s, i + 1, end, depth);
}

/// Plain characters lead up to the quote.
proof fn lemma_quoted(s: Seq<char>, i: int, end: int, depth: nat)
    requires
        0 <= i <= end < s.len(),
        s[end] == '"',
        forall|k: int| i <= k < end ==> #[trigger] s[k] != '"' && s[k] != '\\',
    ensures
        closing(s, i, depth, true, false) == closing(s, end + 1, depth, false, false),
    decreases end - i,
{
    if i < end {
        assert(s[i] != '"');
        lemma_quoted(s, i + 1, end, depth);
    }
}

/// A reply whose text, without thoughts, fence and white space, is a call is
/// that call; else the first call in the text counts.
pub proof fn law_replies_are_searched_for_calls(reply: Seq<char>)
    ensures
        ({
            let said = trimmed(unfenced(trimmed(unthought(reply, 0))));
            &&& call_in_text(said) is Some ==> prompted_call(reply) == call_in_text(said)
            &&& call_in_text(said) is None ==> prompted_call(reply) == embedded_call(said, 0)
        }),
        forall|s: Seq<char>| parsed(s) is Err ==> #[trigger] call_in_text(s) is None,
{
}

/// An escaped character in quotes does not end them.
pub proof fn law_escaped_quotes_do_not_count(s: Seq<char>, i: int, depth: nat)
    requires
        0 <= i,
        i + 1 < s.len(),
        s[i] == '\\',
    ensures
        closing(s, i, depth, true, false) == closing(s, i + 2, depth, true, false),
{
    reveal_with_fuel(closing, 3);
}

/// An object in an object closes before it does.
pub proof fn law_nested_objects_close_first(s: Seq<char>, i: int, depth: nat)
    requires
        0 <= i < s.len(),
    ensures
        s[i] == '{' ==> closing(s, i, depth, false, false) == closing(
            s,
            i + 1,
            depth + 1,
            false,
            false,
        ),
        s[i] == '}' && depth > 1 ==> closing(s, i, depth, false, false) == closing(
            s,
            i + 1,
            (depth - 1) as nat,
            false,
            false,
        ),
        s[i] == '}' && depth == 1 ==> closing(s, i, depth, false, false) == Some(i + 1),
        s[i] == '}' && depth == 0 ==> closing(s, i, depth, false, false) is None,
{
}

}
