//! Rendered HTML to readable text.
//!
//! The wikis' hard data (item stats, penalty tables, gem numbers) is largely
//! generated by templates, so the rendered page is what holds it. Block
//! elements become line breaks, table cells get separators, and script, style
//! and comments are dropped.

use vstd::prelude::*;

use crate::text;
use crate::text::{chars_of, index_of, is_at, replaced, string_of, texts, trimmed};

verus! {

/// Whether `c` is an ASCII letter.
pub open spec fn is_letter(c: char) -> bool {
    'a' <= c <= 'z' || 'A' <= c <= 'Z'
}

/// Whether `c` is an ASCII letter or digit.
pub open spec fn is_alphanumeric(c: char) -> bool {
    is_letter(c) || '0' <= c <= '9'
}

/// Whether the `<` at `i` opens a tag: a letter, `/` or `!` follows.
pub open spec fn opens_tag(s: Seq<char>, i: int) -> bool {
    i + 1 < s.len() && (is_letter(s[i + 1]) || s[i + 1] == '/' || s[i + 1] == '!')
}

/// The first position from `i` on, before `end`, that holds no `/`.
pub open spec fn slashes_end(s: Seq<char>, i: int, end: int) -> int
    decreases end - i,
{
    if i < end && s[i] == '/' {
        slashes_end(s, i + 1, end)
    } else {
        i
    }
}

/// The first position from `i` on, before `end`, that holds no letter or digit.
pub open spec fn word_end(s: Seq<char>, i: int, end: int) -> int
    decreases end - i,
{
    if i < end && is_alphanumeric(s[i]) {
        word_end(s, i + 1, end)
    } else {
        i
    }
}

/// The element name of the tag whose body is `s[from..end]`, such as
/// `p class="x"`, `/p` or `br/`.
pub open spec fn tag_name(s: Seq<char>, from: int, end: int) -> Seq<char> {
    let begin = slashes_end(s, from, end);
    s.subrange(begin, word_end(s, begin, end))
}

/// Whether an element's tags break the line.
pub open spec fn is_block(name: Seq<char>) -> bool {
    ||| name == "br"@
    ||| name == "p"@
    ||| name == "div"@
    ||| name == "h1"@
    ||| name == "h2"@
    ||| name == "h3"@
    ||| name == "h4"@
    ||| name == "h5"@
    ||| name == "h6"@
    ||| name == "li"@
    ||| name == "tr"@
    ||| name == "hr"@
    ||| name == "table"@
    ||| name == "ul"@
    ||| name == "ol"@
}

/// Whether an element's content is never text.
pub open spec fn is_hidden(name: Seq<char>) -> bool {
    name == "script"@ || name == "style"@
}

/// What a tag leaves in the text.
pub open spec fn tag_mark(name: Seq<char>, closing: bool) -> Seq<char> {
    if is_block(name) {
        seq!['\n']
    } else if (name == "td"@ || name == "th"@) && !closing {
        " | "@
    } else {
        seq![]
    }
}

/// Where the text goes on behind the hidden element `name` whose opening tag
/// ends at `end`: behind its closing tag, or nowhere.
pub open spec fn hidden_end(s: Seq<char>, name: Seq<char>, end: int) -> Option<int> {
    match index_of(s, seq!['<', '/'] + name, end) {
        None => None,
        Some(close) => match index_of(s, seq!['>'], close) {
            None => None,
            Some(close_end) => Some(close_end + 1),
        },
    }
}

/// What the markup at `i`, a `<`, leaves in the text, and where the text goes
/// on behind it; nowhere, where the markup is never closed.
pub open spec fn markup(s: Seq<char>, i: int) -> (Seq<char>, Option<int>) {
    if is_at(s, seq!['<', '!', '-', '-'], i) {
        match index_of(s, seq!['-', '-', '>'], i) {
            Some(end) => (seq![], Some(end + 3)),
            None => (seq![], None),
        }
    } else if !opens_tag(s, i) {
        (seq!['<'], Some(i + 1))
    } else {
        match index_of(s, seq!['>'], i) {
            None => (seq![], None),
            Some(end) => {
                let closing = s[i + 1] == '/';
                let name = tag_name(s, i + 1, end);
                if !closing && is_hidden(name) {
                    (seq![], hidden_end(s, name, end))
                } else {
                    (tag_mark(name, closing), Some(end + 1))
                }
            },
        }
    }
}

/// The text of the page `s` from position `i` on, entities and blank lines
/// as they stand.
pub open spec fn page_text(s: Seq<char>, i: int) -> Seq<char>
    decreases s.len() - i,
{
    if i < 0 || i >= s.len() {
        seq![]
    } else if s[i] != '<' {
        seq![s[i]] + page_text(s, i + 1)
    } else {
        match markup(s, i) {
            (left, Some(next)) => if i < next <= s.len() {
                left + page_text(s, next)
            } else {
                left
            },
            (left, None) => left,
        }
    }
}

/// The text of a search snippet from position `i` on: every tag is dropped.
pub open spec fn snippet_text(s: Seq<char>, i: int) -> Seq<char>
    decreases s.len() - i,
{
    if i < 0 || i >= s.len() {
        seq![]
    } else if s[i] != '<' || !opens_tag(s, i) {
        seq![s[i]] + snippet_text(s, i + 1)
    } else {
        match index_of(s, seq!['>'], i) {
            None => seq![],
            Some(end) => if i < end < s.len() {
                snippet_text(s, end + 1)
            } else {
                seq![]
            },
        }
    }
}

/// The value of a digit character, up to base sixteen.
pub open spec fn digit_value(c: char, radix: int) -> Option<int> {
    let value = if '0' <= c <= '9' {
        c as int - '0' as int
    } else if 'a' <= c <= 'f' {
        c as int - 'a' as int + 10
    } else if 'A' <= c <= 'F' {
        c as int - 'A' as int + 10
    } else {
        radix
    };
    if value < radix {
        Some(value)
    } else {
        None
    }
}

/// The number that digits write, if all are digits.
pub open spec fn digits_value(s: Seq<char>, radix: int) -> Option<int>
    decreases s.len(),
{
    if s.len() == 0 {
        Some(0)
    } else {
        match (digits_value(s.drop_last(), radix), digit_value(s.last(), radix)) {
            (Some(high), Some(low)) => Some(high * radix + low),
            _ => None,
        }
    }
}

/// The number that a text writes: at least one digit, behind an optional
/// plus sign, and no more than 32 bits.
pub open spec fn number(s: Seq<char>, radix: int) -> Option<int> {
    let digits = if s.len() > 0 && s[0] == '+' {
        s.skip(1)
    } else {
        s
    };
    match digits_value(digits, radix) {
        Some(value) => if digits.len() > 0 && value <= u32::MAX {
            Some(value)
        } else {
            None
        },
        None => None,
    }
}

/// The number that the code of a character reference writes.
pub open spec fn code_number(code: Seq<char>) -> Option<int> {
    if code.len() > 0 && (code[0] == 'x' || code[0] == 'X') {
        number(code.skip(1), 16)
    } else {
        number(code, 10)
    }
}

/// Whether a number is a Unicode scalar value.
pub open spec fn is_scalar(value: int) -> bool {
    0 <= value < 0xd800 || 0xe000 <= value <= 0x10ffff
}

/// The character that the reference whose code begins at `i` stands for, and
/// the position behind it.
pub open spec fn reference(s: Seq<char>, i: int) -> Option<(char, int)> {
    match index_of(s, seq![';'], i) {
        Some(end) => if 0 < end - i <= 8 {
            match code_number(s.subrange(i, end)) {
                Some(value) => if is_scalar(value) {
                    Some((value as u32 as char, end + 1))
                } else {
                    None
                },
                None => None,
            }
        } else {
            None
        },
        None => None,
    }
}

/// Whether a numeric character reference opens at `i`.
pub open spec fn opens_reference(s: Seq<char>, i: int) -> bool {
    i + 1 < s.len() && s[i] == '&' && s[i + 1] == '#'
}

/// The text from `i` on with numeric references (`&#91;`, `&#x2212;`) decoded;
/// those that stand for no character stay as they are.
pub open spec fn references_decoded(s: Seq<char>, i: int) -> Seq<char>
    decreases s.len() - i,
{
    if i < 0 || i >= s.len() {
        seq![]
    } else if !opens_reference(s, i) {
        seq![s[i]] + references_decoded(s, i + 1)
    } else {
        match reference(s, i + 2) {
            Some((c, next)) => if i < next <= s.len() {
                seq![c] + references_decoded(s, next)
            } else {
                seq![]
            },
            None => seq!['&', '#'] + references_decoded(s, i + 2),
        }
    }
}

/// Text with its entities decoded. `&amp;` comes last, so that an escaped
/// entity stays the literal text that its author wrote.
pub open spec fn entities_decoded(s: Seq<char>) -> Seq<char> {
    let numeric = references_decoded(s, 0);
    let quoted = replaced(numeric, "&quot;"@, "\""@);
    let spaced = replaced(replaced(quoted, "&nbsp;"@, " "@), "\u{a0}"@, " "@);
    let angled = replaced(replaced(spaced, "&lt;"@, "<"@), "&gt;"@, ">"@);
    replaced(angled, "&amp;"@, "&"@)
}

/// The lines, each trimmed and ended, of which no two in a row are blank;
/// `after_blank` says whether a blank one went before.
pub open spec fn tidy_lines(lines: Seq<Seq<char>>, after_blank: bool) -> Seq<char>
    decreases lines.len(),
{
    if lines.len() == 0 {
        seq![]
    } else {
        let line = trimmed(lines[0]);
        let rest = tidy_lines(lines.skip(1), line.len() == 0);
        if line.len() == 0 && after_blank {
            rest
        } else {
            line + seq!['\n'] + rest
        }
    }
}

/// Text with every line trimmed and runs of blank lines collapsed to one.
pub open spec fn blank_lines_collapsed(s: Seq<char>) -> Seq<char> {
    trimmed(tidy_lines(text::lines(s), false))
}

/// The readable text of a rendered page.
pub open spec fn page_as_text(html: Seq<char>) -> Seq<char> {
    blank_lines_collapsed(entities_decoded(page_text(html, 0)))
}

/// The readable text of a search snippet.
pub open spec fn snippet_as_text(snippet: Seq<char>) -> Seq<char> {
    entities_decoded(snippet_text(snippet, 0))
}

/// A character from its number: `char::from_u32` gives the character with that
/// scalar value, and `None` for a number that is no scalar value.
pub assume_specification[ char::from_u32 ](value: u32) -> (c: Option<char>)
    ensures
        match c {
            Some(c) => is_scalar(value as int) && c as u32 == value,
            None => !is_scalar(value as int),
        },
;

/// Whether `c` is an ASCII letter or digit.
fn alphanumeric(c: char) -> (yes: bool)
    ensures
        yes == is_alphanumeric(c),
{
    ('a' <= c && c <= 'z') || ('A' <= c && c <= 'Z') || ('0' <= c && c <= '9')
}

/// Whether the `<` at `i` opens a tag.
fn tag_opens(s: &[char], i: usize) -> (yes: bool)
    requires
        i < s@.len(),
    ensures
        yes == opens_tag(s@, i as int),
{
    let len: usize = s.len();
    if i + 1 < len {
        let c = s[i + 1];
        ('a' <= c && c <= 'z') || ('A' <= c && c <= 'Z') || c == '/' || c == '!'
    } else {
        false
    }
}

/// The element name of the tag whose body is `s[from..end]`.
fn tag_name_of(s: &[char], from: usize, end: usize) -> (name: String)
    requires
        from <= end <= s@.len(),
    ensures
        name@ == tag_name(s@, from as int, end as int),
{
    let mut begin: usize = from;
    while begin < end && s[begin] == '/'
        invariant
            from <= begin <= end <= s@.len(),
            slashes_end(s@, from as int, end as int) == slashes_end(s@, begin as int, end as int),
        decreases end - begin,
    {
        begin += 1;
    }
    let mut stop: usize = begin;
    while stop < end && alphanumeric(s[stop])
        invariant
            begin <= stop <= end <= s@.len(),
            word_end(s@, begin as int, end as int) == word_end(s@, stop as int, end as int),
        decreases end - stop,
    {
        stop += 1;
    }
    string_of(s, begin, stop)
}

/// Whether an element's tags break the line.
fn breaks_line(name: &str) -> (yes: bool)
    ensures
        yes == is_block(name@),
{
    text::same(name, "br") || text::same(name, "p") || text::same(name, "div") || text::same(
        name,
        "h1",
    ) || text::same(name, "h2") || text::same(name, "h3") || text::same(name, "h4") || text::same(
        name,
        "h5",
    ) || text::same(name, "h6") || text::same(name, "li") || text::same(name, "tr") || text::same(
        name,
        "hr",
    ) || text::same(name, "table") || text::same(name, "ul") || text::same(name, "ol")
}

/// What a tag leaves in the text.
fn mark_of(name: &str, closing: bool) -> (mark: String)
    ensures
        mark@ == tag_mark(name@, closing),
{
    if breaks_line(name) {
        let mut mark = String::new();
        mark.push('\n');
        assert(mark@ =~= seq!['\n']);
        mark
    } else if (text::same(name, "td") || text::same(name, "th")) && !closing {
        " | ".to_owned()
    } else {
        String::new()
    }
}

/// Where the text goes on behind a hidden element.
fn behind_hidden(s: &[char], name: &str, end: usize) -> (next: Option<usize>)
    requires
        end < s@.len(),
    ensures
        match next {
            Some(next) => hidden_end(s@, name@, end as int) == Some(next as int) && end < next
                <= s@.len(),
            None => hidden_end(s@, name@, end as int) is None,
        },
{
    let mut marker: Vec<char> = vec!['<', '/'];
    let mut letters = chars_of(name);
    marker.append(&mut letters);
    assert(marker@ =~= seq!['<', '/'] + name@);
    match text::find(s, &marker, end) {
        None => None,
        Some(close) => match text::find_char(s, '>', close) {
            None => None,
            Some(close_end) => Some(close_end + 1),
        },
    }
}

/// What the markup at `i`, a `<`, leaves in the text, and where the text goes
/// on behind it.
fn read_markup(s: &[char], i: usize) -> (read: (String, Option<usize>))
    requires
        i < s@.len(),
        s@[i as int] == '<',
    ensures
        markup(s@, i as int).0 == read.0@,
        match read.1 {
            Some(next) => markup(s@, i as int).1 == Some(next as int) && i < next <= s@.len(),
            None => markup(s@, i as int).1 is None,
        },
{
    let len: usize = s.len();
    let comment: Vec<char> = vec!['<', '!', '-', '-'];
    let comment_end: Vec<char> = vec!['-', '-', '>'];
    assert(comment@ =~= seq!['<', '!', '-', '-']);
    assert(comment_end@ =~= seq!['-', '-', '>']);
    if text::stands_at(s, &comment, i) {
        return match text::find(s, &comment_end, i) {
            Some(end) => (String::new(), Some(end + 3)),
            None => (String::new(), None),
        };
    }
    if !tag_opens(s, i) {
        let mut left = String::new();
        left.push('<');
        assert(left@ =~= seq!['<']);
        return (left, Some(i + 1));
    }
    match text::find_char(s, '>', i) {
        None => (String::new(), None),
        Some(end) => {
            let closing = s[i + 1] == '/';
            let name = tag_name_of(s, i + 1, end);
            if !closing && (text::same(name.as_str(), "script") || text::same(
                name.as_str(),
                "style",
            )) {
                (String::new(), behind_hidden(s, name.as_str(), end))
            } else {
                (mark_of(name.as_str(), closing), Some(end + 1))
            }
        },
    }
}

/// The text of a page, entities and blank lines as they stand.
fn text_of_page(html: &str) -> (out: String)
    ensures
        out@ == page_text(html@, 0),
{
    let s = chars_of(html);
    let mut out = String::new();
    let mut i: usize = 0;
    assert(out@ + page_text(html@, 0) =~= page_text(html@, 0));
    while i < s.len()
        invariant
            s@ == html@,
            i <= s@.len(),
            out@ + page_text(html@, i as int) == page_text(html@, 0),
        decreases s@.len() - i,
    {
        let ghost before = out@;
        if s[i] != '<' {
            out.push(s[i]);
            assert(before + (seq![s@[i as int]] + page_text(html@, i + 1)) =~= out@ + page_text(
                html@,
                i + 1,
            ));
            i += 1;
        } else {
            let (left, next) = read_markup(&s, i);
            out.append(left.as_str());
            match next {
                None => {
                    return out;
                },
                Some(next) => {
                    assert(before + (left@ + page_text(html@, next as int)) =~= out@ + page_text(
                        html@,
                        next as int,
                    ));
                    i = next;
                },
            }
        }
    }
    assert(out@ + page_text(html@, i as int) =~= out@);
    out
}

/// The text of a snippet, entities as they stand.
fn text_of_snippet(snippet: &str) -> (out: String)
    ensures
        out@ == snippet_text(snippet@, 0),
{
    let s = chars_of(snippet);
    let mut out = String::new();
    let mut i: usize = 0;
    assert(out@ + snippet_text(snippet@, 0) =~= snippet_text(snippet@, 0));
    while i < s.len()
        invariant
            s@ == snippet@,
            i <= s@.len(),
            out@ + snippet_text(snippet@, i as int) == snippet_text(snippet@, 0),
        decreases s@.len() - i,
    {
        let ghost before = out@;
        if s[i] != '<' || !tag_opens(&s, i) {
            out.push(s[i]);
            assert(before + (seq![s@[i as int]] + snippet_text(snippet@, i + 1)) =~= out@
                + snippet_text(snippet@, i + 1));
            i += 1;
        } else {
            match text::find_char(&s, '>', i) {
                None => {
                    assert(out@ + Seq::<char>::empty() =~= out@);
                    return out;
                },
                Some(end) => {
                    i = end + 1;
                },
            }
        }
    }
    assert(out@ + snippet_text(snippet@, i as int) =~= out@);
    out
}

/// Digits in front of digits only add to the number.
proof fn lemma_digits_grow(s: Seq<char>, radix: int, k: int)
    requires
        radix >= 1,
        0 <= k <= s.len(),
        digits_value(s, radix) is Some,
    ensures
        digits_value(s.take(k), radix) is Some,
        0 <= digits_value(s.take(k), radix)->0 <= digits_value(s, radix)->0,
    decreases s.len(),
{
    if k == s.len() {
        assert(s.take(k) =~= s);
        if s.len() > 0 {
            lemma_digits_grow(s.drop_last(), radix, s.len() - 1);
            assert(s.drop_last().take(s.len() - 1) =~= s.drop_last());
            let high = digits_value(s.drop_last(), radix)->0;
            assert(high * radix >= 0) by (nonlinear_arith)
                requires
                    high >= 0,
                    radix >= 1,
            ;
        }
    } else {
        lemma_digits_grow(s.drop_last(), radix, k);
        assert(s.drop_last().take(k) =~= s.take(k));
        let high = digits_value(s.drop_last(), radix)->0;
        assert(high * radix >= high) by (nonlinear_arith)
            requires
                high >= 0,
                radix >= 1,
        ;
    }
}

/// The number that `s[from..to]` writes.
fn parse_number(s: &[char], from: usize, to: usize, radix: u32) -> (value: Option<u32>)
    requires
        from <= to <= s@.len(),
        2 <= radix <= 16,
    ensures
        match value {
            Some(value) => number(s@.subrange(from as int, to as int), radix as int) == Some(
                value as int,
            ),
            None => number(s@.subrange(from as int, to as int), radix as int) is None,
        },
{
    let mut begin: usize = from;
    if from < to && s[from] == '+' {
        begin = from + 1;
    }
    let ghost digits = s@.subrange(begin as int, to as int);
    assert(begin > from ==> s@.subrange(from as int, to as int).skip(1) =~= digits);
    if begin == to {
        return None;
    }
    let mut total: u64 = 0;
    let mut i: usize = begin;
    while i < to
        invariant
            begin <= i <= to <= s@.len(),
            2 <= radix <= 16,
            digits == s@.subrange(begin as int, to as int),
            digits.len() > 0,
            number(s@.subrange(from as int, to as int), radix as int) == match digits_value(
                digits,
                radix as int,
            ) {
                Some(value) => if value <= u32::MAX {
                    Some(value)
                } else {
                    None
                },
                None => None,
            },
            total <= u32::MAX,
            digits_value(digits.take(i - begin), radix as int) == Some(total as int),
        decreases to - i,
    {
        let c = s[i];
        let low: u32 = if '0' <= c && c <= '9' {
            c as u32 - '0' as u32
        } else if 'a' <= c && c <= 'f' {
            c as u32 - 'a' as u32 + 10
        } else if 'A' <= c && c <= 'F' {
            c as u32 - 'A' as u32 + 10
        } else {
            radix
        };
        proof {
            assert(digits.take(i + 1 - begin).drop_last() =~= digits.take(i - begin));
            assert(digits.take(i + 1 - begin).last() == c);
            if digits_value(digits, radix as int) is Some {
                lemma_digits_grow(digits, radix as int, i + 1 - begin);
            }
            assert(total * radix <= 0xffff_ffff * 16) by (nonlinear_arith)
                requires
                    total <= 0xffff_ffff,
                    radix <= 16,
            ;
        }
        if low >= radix {
            return None;
        }
        total = total * (radix as u64) + low as u64;
        if total > 0xffff_ffff {
            return None;
        }
        i += 1;
    }
    assert(digits.take(i - begin) =~= digits);
    Some(total as u32)
}

/// The number that the code `s[from..to]` of a character reference writes.
fn parse_code(s: &[char], from: usize, to: usize) -> (value: Option<u32>)
    requires
        from < to <= s@.len(),
    ensures
        match value {
            Some(value) => code_number(s@.subrange(from as int, to as int)) == Some(value as int),
            None => code_number(s@.subrange(from as int, to as int)) is None,
        },
{
    if s[from] == 'x' || s[from] == 'X' {
        assert(s@.subrange(from as int, to as int).skip(1) =~= s@.subrange(from + 1, to as int));
        parse_number(s, from + 1, to, 16)
    } else {
        parse_number(s, from, to, 10)
    }
}

/// The character that the reference whose code begins at `i` stands for, and
/// the position behind it.
fn read_reference(s: &[char], i: usize) -> (read: Option<(char, usize)>)
    requires
        i <= s@.len(),
    ensures
        match read {
            Some((c, next)) => reference(s@, i as int) == Some((c, next as int)) && i < next
                <= s@.len(),
            None => reference(s@, i as int) is None,
        },
{
    match text::find_char(s, ';', i) {
        Some(end) => {
            if end > i && end - i <= 8 {
                match parse_code(s, i, end) {
                    Some(value) => match char::from_u32(value) {
                        Some(c) => {
                            proof {
                                vstd::utf8::char_u32_cast(c, value);
                            }
                            Some((c, end + 1))
                        },
                        None => None,
                    },
                    None => None,
                }
            } else {
                None
            }
        },
        None => None,
    }
}

/// Text with its numeric character references decoded.
fn decode_numeric_entities(raw: &str) -> (out: String)
    ensures
        out@ == references_decoded(raw@, 0),
{
    let s = chars_of(raw);
    let mut out = String::new();
    let mut i: usize = 0;
    assert(out@ + references_decoded(raw@, 0) =~= references_decoded(raw@, 0));
    while i < s.len()
        invariant
            s@ == raw@,
            i <= s@.len(),
            out@ + references_decoded(raw@, i as int) == references_decoded(raw@, 0),
        decreases s@.len() - i,
    {
        let ghost before = out@;
        if !(s.len() - i > 1 && s[i] == '&' && s[i + 1] == '#') {
            out.push(s[i]);
            assert(before + (seq![s@[i as int]] + references_decoded(raw@, i + 1)) =~= out@
                + references_decoded(raw@, i + 1));
            i += 1;
        } else {
            match read_reference(&s, i + 2) {
                Some((c, next)) => {
                    out.push(c);
                    assert(before + (seq![c] + references_decoded(raw@, next as int)) =~= out@
                        + references_decoded(raw@, next as int));
                    i = next;
                },
                None => {
                    out.push('&');
                    out.push('#');
                    assert(before + (seq!['&', '#'] + references_decoded(raw@, i + 2)) =~= out@
                        + references_decoded(raw@, i + 2));
                    i += 2;
                },
            }
        }
    }
    assert(out@ + references_decoded(raw@, i as int) =~= out@);
    out
}

/// Text with its entities decoded.
fn decode_entities(raw: &str) -> (out: String)
    ensures
        out@ == entities_decoded(raw@),
{
    let out = decode_numeric_entities(raw);
    let out = text::replace(out.as_str(), "&quot;", "\"");
    let out = text::replace(out.as_str(), "&nbsp;", " ");
    let out = text::replace(out.as_str(), "\u{a0}", " ");
    let out = text::replace(out.as_str(), "&lt;", "<");
    let out = text::replace(out.as_str(), "&gt;", ">");
    text::replace(out.as_str(), "&amp;", "&")
}

/// Text with every line trimmed and runs of blank lines collapsed to one.
fn collapse_blank_lines(raw: &str) -> (out: String)
    ensures
        out@ == blank_lines_collapsed(raw@),
{
    let lines = text::lines_of(raw);
    let ghost all = text::lines(raw@);
    let mut out = String::new();
    let mut after_blank = false;
    let mut i: usize = 0;
    assert(all.skip(0) =~= all);
    assert(out@ + tidy_lines(all, false) =~= tidy_lines(all, false));
    while i < lines.len()
        invariant
            all == text::lines(raw@),
            texts(lines@) == all,
            i <= lines@.len(),
            out@ + tidy_lines(all.skip(i as int), after_blank) == tidy_lines(all, false),
        decreases lines@.len() - i,
    {
        let line = text::trim(lines[i].as_str());
        let ghost before = out@;
        let blank = line.is_empty();
        proof {
            assert(all.skip(i as int)[0] == lines@[i as int]@);
            assert(all.skip(i as int).skip(1) =~= all.skip(i + 1));
        }
        if !(blank && after_blank) {
            out.append(line);
            out.push('\n');
            assert(before + (line@ + seq!['\n'] + tidy_lines(all.skip(i + 1), blank)) =~= out@
                + tidy_lines(all.skip(i + 1), blank));
        }
        after_blank = blank;
        i += 1;
    }
    assert(out@ + tidy_lines(all.skip(i as int), after_blank) =~= out@);
    text::trim(out.as_str()).to_owned()
}

/// Convert rendered page HTML into readable plain text.
pub fn html_to_text(html: &str) -> (out: String)
    ensures
        out@ == page_as_text(html@),
{
    let raw = text_of_page(html);
    let decoded = decode_entities(raw.as_str());
    collapse_blank_lines(decoded.as_str())
}

/// Clean a search-result snippet (HTML with match markers) into text.
pub fn clean_snippet(snippet: &str) -> (out: String)
    ensures
        out@ == snippet_as_text(snippet@),
{
    let raw = text_of_snippet(snippet);
    decode_entities(raw.as_str())
}

/// Text without markup comes out as it is, and so does a part in front of
/// markup.
pub proof fn law_text_before_markup_stays(s: Seq<char>, i: int, to: int)
    requires
        0 <= i <= to <= s.len(),
        forall|k: int| i <= k < to ==> #[trigger] s[k] != '<',
    ensures
        page_text(s, i) == s.subrange(i, to) + page_text(s, to),
    decreases to - i,
{
    if i < to {
        assert(s[i] != '<');
        law_text_before_markup_stays(s, i + 1, to);
        assert(s.subrange(i, to) =~= seq![s[i]] + s.subrange(i + 1, to));
        assert(page_text(s, i) =~= s.subrange(i, to) + page_text(s, to));
    } else {
        assert(page_text(s, i) =~= s.subrange(i, to) + page_text(s, to));
    }
}

/// A comment leaves nothing: the text goes on behind the first `-->`, and
/// where there is none, it ends.
pub proof fn law_comments_vanish(s: Seq<char>, i: int)
    requires
        is_at(s, seq!['<', '!', '-', '-'], i),
    ensures
        page_text(s, i) == match index_of(s, seq!['-', '-', '>'], i) {
            Some(end) => page_text(s, end + 3),
            None => seq![],
        },
{
    assert(s.subrange(i, i + 4)[0] == '<');
    assert(s[i] == '<');
    text::lemma_index_of_first(s, seq!['-', '-', '>'], i);
    if let Some(end) = index_of(s, seq!['-', '-', '>'], i) {
        assert(Seq::<char>::empty() + page_text(s, end + 3) =~= page_text(s, end + 3));
    }
}

/// What stands in a script or a style sheet is never text: from its opening
/// tag the text goes on behind its closing tag, and where there is none, it
/// ends.
pub proof fn law_hidden_elements_vanish(s: Seq<char>, i: int, end: int)
    requires
        0 <= i < s.len(),
        s[i] == '<',
        opens_tag(s, i),
        !is_at(s, seq!['<', '!', '-', '-'], i),
        index_of(s, seq!['>'], i) == Some(end),
        s[i + 1] != '/',
        is_hidden(tag_name(s, i + 1, end)),
    ensures
        page_text(s, i) == match hidden_end(s, tag_name(s, i + 1, end), end) {
            Some(next) => page_text(s, next),
            None => seq![],
        },
{
    let name = tag_name(s, i + 1, end);
    text::lemma_index_of_first(s, seq!['>'], i);
    text::lemma_index_of_first(s, seq!['<', '/'] + name, end);
    if let Some(close) = index_of(s, seq!['<', '/'] + name, end) {
        text::lemma_index_of_first(s, seq!['>'], close);
        if let Some(close_end) = index_of(s, seq!['>'], close) {
            assert(Seq::<char>::empty() + page_text(s, close_end + 1) =~= page_text(
                s,
                close_end + 1,
            ));
        }
    }
}

/// Whether three line ends stand in a row at `i`.
pub open spec fn gap_at(s: Seq<char>, i: int) -> bool {
    0 <= i && i + 2 < s.len() && s[i] == '\n' && s[i + 1] == '\n' && s[i + 2] == '\n'
}

/// Text that was tidied holds no two blank lines in a row: it never has three
/// line ends together.
pub proof fn law_blank_lines_never_run(s: Seq<char>, i: int)
    ensures
        !gap_at(blank_lines_collapsed(s), i),
{
    let lines = text::lines(s);
    let tidy = tidy_lines(lines, false);
    lemma_lines_hold_no_end(s);
    lemma_tidy(lines, false);
    lemma_trimmed_part(tidy);
    let out = blank_lines_collapsed(s);
    if gap_at(out, i) {
        let from = choose|from: int|
            0 <= from && from + out.len() <= tidy.len() && out == #[trigger] tidy.subrange(
                from,
                from + out.len(),
            );
        assert(out[i] == tidy[from + i]);
        assert(out[i + 1] == tidy[from + i + 1]);
        assert(out[i + 2] == tidy[from + i + 2]);
        assert(gap_at(tidy, from + i));
    }
}

/// A trimmed text is a part of the text.
proof fn lemma_trimmed_part(s: Seq<char>)
    ensures
        exists|from: int|
            0 <= from && from + trimmed(s).len() <= s.len() && trimmed(s) == #[trigger] s.subrange(
                from,
                from + trimmed(s).len(),
            ),
{
    lemma_trim_start_part(s);
    let start = text::trimmed_start(s);
    lemma_trim_end_part(start);
    let from = s.len() - start.len();
    assert(trimmed(s) =~= s.subrange(from, from + trimmed(s).len()));
}

proof fn lemma_trim_start_part(s: Seq<char>)
    ensures
        text::trimmed_start(s).len() <= s.len(),
        text::trimmed_start(s) == s.skip(s.len() - text::trimmed_start(s).len()),
    decreases s.len(),
{
    if s.len() > 0 && text::is_white(s[0]) {
        lemma_trim_start_part(s.drop_first());
        assert(text::trimmed_start(s) =~= s.skip(s.len() - text::trimmed_start(s).len()));
    } else {
        assert(s.skip(0) =~= s);
    }
}

proof fn lemma_trim_end_part(s: Seq<char>)
    ensures
        text::trimmed_end(s).len() <= s.len(),
        text::trimmed_end(s) == s.take(text::trimmed_end(s).len() as int),
    decreases s.len(),
{
    if s.len() > 0 && text::is_white(s.last()) {
        lemma_trim_end_part(s.drop_last());
        assert(text::trimmed_end(s) =~= s.take(text::trimmed_end(s).len() as int));
    } else {
        assert(s.take(s.len() as int) =~= s);
    }
}

/// Whether a text holds a line end.
spec fn has_end(s: Seq<char>) -> bool {
    exists|i: int| 0 <= i < s.len() && s[i] == '\n'
}

proof fn lemma_lines_hold_no_end(s: Seq<char>)
    ensures
        forall|k: int| 0 <= k < text::lines(s).len() ==> !has_end(#[trigger] text::lines(s)[k]),
{
    lemma_pieces_end(s);
    assert forall|k: int| 0 <= k < text::lines(s).len() implies !has_end(
        #[trigger] text::lines(s)[k],
    ) by {
        let piece = text::pieces(s, '\n')[k];
        assert(ends_only(piece));
        let line = text::unended(piece);
        assert(text::lines(s)[k] == line);
        if has_end(line) {
            let i = choose|i: int| 0 <= i < line.len() && line[i] == '\n';
            assert(piece[i] == '\n');
        }
    }
}

/// Whether a line end stands nowhere but at the end.
spec fn ends_only(s: Seq<char>) -> bool {
    forall|i: int| 0 <= i < s.len() - 1 ==> #[trigger] s[i] != '\n'
}

proof fn lemma_pieces_end(s: Seq<char>)
    ensures
        forall|k: int|
            0 <= k < text::pieces(s, '\n').len() ==> ends_only(#[trigger] text::pieces(s, '\n')[k]),
    decreases s.len(),
{
    text::lemma_piece_len(s, '\n');
    if s.len() > 0 {
        let len = text::piece_len(s, '\n') as int;
        let rest = text::pieces(s.skip(len), '\n');
        lemma_piece_ends(s);
        lemma_pieces_end(s.skip(len));
        assert forall|k: int| 0 <= k < text::pieces(s, '\n').len() implies ends_only(
            #[trigger] text::pieces(s, '\n')[k],
        ) by {
            if k > 0 {
                assert(text::pieces(s, '\n')[k] == rest[k - 1]);
            } else {
                assert(text::pieces(s, '\n')[0] == s.take(len));
            }
        }
    }
}

proof fn lemma_piece_ends(s: Seq<char>)
    requires
        s.len() > 0,
    ensures
        forall|i: int| 0 <= i < text::piece_len(s, '\n') - 1 ==> #[trigger] s[i] != '\n',
    decreases s.len(),
{
    text::lemma_piece_len(s, '\n');
    if s[0] != '\n' && s.len() > 1 {
        lemma_piece_ends(s.skip(1));
        assert forall|i: int| 0 <= i < text::piece_len(s, '\n') - 1 implies #[trigger] s[i]
            != '\n' by {
            if i > 0 {
                assert(s[i] == s.skip(1)[i - 1]);
            }
        }
    }
}

/// What tidying keeps: no three line ends in a row, nor two in front behind a
/// blank line.
proof fn lemma_tidy(lines: Seq<Seq<char>>, after_blank: bool)
    requires
        forall|k: int| 0 <= k < lines.len() ==> !has_end(#[trigger] lines[k]),
    ensures
        forall|i: int| !#[trigger] gap_at(tidy_lines(lines, after_blank), i),
        after_blank && tidy_lines(lines, after_blank).len() > 0 ==> tidy_lines(
            lines,
            after_blank,
        )[0] != '\n',
        tidy_lines(lines, after_blank).len() > 1 && tidy_lines(lines, after_blank)[0] == '\n'
            ==> tidy_lines(lines, after_blank)[1] != '\n',
    decreases lines.len(),
{
    if lines.len() > 0 {
        let line = trimmed(lines[0]);
        let blank = line.len() == 0;
        let rest = tidy_lines(lines.skip(1), blank);
        let out = tidy_lines(lines, after_blank);
        assert(!has_end(lines[0]));
        lemma_trimmed_part(lines[0]);
        assert(!has_end(line)) by {
            if has_end(line) {
                let i = choose|i: int| 0 <= i < line.len() && line[i] == '\n';
                let from = choose|from: int|
                    0 <= from && from + line.len() <= lines[0].len() && line
                        == #[trigger] lines[0].subrange(from, from + line.len());
                assert(lines[0][from + i] == '\n');
            }
        }
        assert forall|k: int| 0 <= k < lines.skip(1).len() implies !has_end(
            #[trigger] lines.skip(1)[k],
        ) by {
            assert(lines.skip(1)[k] == lines[k + 1]);
        }
        lemma_tidy(lines.skip(1), blank);
        if !(blank && after_blank) {
            let head = line + seq!['\n'];
            assert(out == head + rest);
            assert forall|i: int| !#[trigger] gap_at(out, i) by {
                if gap_at(out, i) {
                    let n = line.len();
                    if i < n {
                        assert(out[i] == line[i]);
                    } else if i > n {
                        assert(gap_at(rest, i - n - 1));
                    } else {
                        assert(out[i + 1] == rest[0]);
                        assert(out[i + 2] == rest[1]);
                    }
                }
            }
            if out.len() > 0 && !blank {
                assert(out[0] == line[0]);
            }
            if blank && out.len() > 1 {
                assert(out[1] == rest[0]);
            }
        }
    }
}

/// Whether a tag of the element `name`, an opening or a closing one, begins at
/// `i` and has its first `>` at `end`.
pub open spec fn is_tag(s: Seq<char>, i: int, end: int, name: Seq<char>, closing: bool) -> bool {
    let head = if closing {
        seq!['<', '/'] + name
    } else {
        seq!['<'] + name
    };
    let behind = i + head.len();
    &&& is_at(s, head, i)
    &&& name.len() > 0
    &&& 'a' <= name[0] <= 'z' || 'A' <= name[0] <= 'Z'
    &&& forall|k: int| 0 <= k < name.len() ==> is_alphanumeric(#[trigger] name[k])
    &&& behind <= end < s.len()
    &&& s[end] == '>'
    &&& forall|k: int| i <= k < end ==> #[trigger] s[k] != '>'
    &&& behind < end ==> !is_alphanumeric(s[behind])
}

/// What a tag is, read from the text.
proof fn lemma_tag(s: Seq<char>, i: int, end: int, name: Seq<char>, closing: bool)
    requires
        is_tag(s, i, end, name, closing),
    ensures
        s[i] == '<',
        (s[i + 1] == '/') == closing,
        opens_tag(s, i),
        !is_at(s, seq!['<', '!', '-', '-'], i),
        index_of(s, seq!['>'], i) == Some(end),
        tag_name(s, i + 1, end) == name,
{
    let head = if closing {
        seq!['<', '/'] + name
    } else {
        seq!['<'] + name
    };
    let behind = i + head.len();
    assert forall|k: int| 0 <= k < head.len() implies #[trigger] head[k] == s[i + k] by {
        assert(s.subrange(i, i + head.len())[k] == s[i + k]);
    }
    assert(head[0] == '<');
    assert(s.subrange(i, i + head.len())[0] == s[i]);
    assert(head[1] == s[i + 1]);
    if is_at(s, seq!['<', '!', '-', '-'], i) {
        assert(s.subrange(i, i + 4)[1] == '!');
    }
    assert(s.subrange(end, end + 1) =~= seq!['>']);
    assert(is_at(s, seq!['>'], end));
    text::lemma_index_of_first(s, seq!['>'], i);
    let found = index_of(s, seq!['>'], i)->0;
    assert(s.subrange(found, found + 1)[0] == s[found]);
    let begin = behind - name.len();
    assert forall|k: int| 0 <= k < name.len() implies #[trigger] name[k] == s[begin + k] by {
        assert(head[head.len() - name.len() + k] == name[k]);
    }
    assert(name[0] == s[begin + 0]);
    assert(slashes_end(s, begin, end) == begin);
    if closing {
        assert(slashes_end(s, i + 1, end) == begin);
    }
    assert forall|k: int| begin <= k < behind implies is_alphanumeric(#[trigger] s[k]) by {
        assert(name[k - begin] == s[begin + (k - begin)]);
    }
    lemma_word_end(s, begin, behind, end);
    assert(s.subrange(begin, behind) =~= name);
}

/// A word ends where the letters and digits end.
proof fn lemma_word_end(s: Seq<char>, i: int, to: int, end: int)
    requires
        0 <= i <= to <= end <= s.len(),
        forall|k: int| i <= k < to ==> is_alphanumeric(#[trigger] s[k]),
        to < end ==> !is_alphanumeric(s[to]),
    ensures
        word_end(s, i, end) == to,
    decreases to - i,
{
    if i < to {
        assert(is_alphanumeric(s[i]));
        lemma_word_end(s, i + 1, to, end);
    }
}

/// A tag of any element but a script or a style sheet, and every closing tag,
/// takes away no more than itself: the text goes on behind its `>`. In its
/// place stands a line break where the element begins a line of its own, a bar
/// where a table cell opens, and nothing else.
pub proof fn law_tags_take_only_themselves(
    s: Seq<char>,
    i: int,
    end: int,
    name: Seq<char>,
    closing: bool,
)
    requires
        is_tag(s, i, end, name, closing),
        closing || (name != "script"@ && name != "style"@),
    ensures
        ({
            let breaks = {
                ||| name == "br"@
                ||| name == "p"@
                ||| name == "div"@
                ||| name == "h1"@
                ||| name == "h2"@
                ||| name == "h3"@
                ||| name == "h4"@
                ||| name == "h5"@
                ||| name == "h6"@
                ||| name == "li"@
                ||| name == "tr"@
                ||| name == "hr"@
                ||| name == "table"@
                ||| name == "ul"@
                ||| name == "ol"@
            };
            let cell = name == "td"@ || name == "th"@;
            let mark = if breaks {
                seq!['\n']
            } else if cell && !closing {
                seq![' ', '|', ' ']
            } else {
                seq![]
            };
            page_text(s, i) == mark + page_text(s, end + 1)
        }),
{
    lemma_tag(s, i, end, name, closing);
    reveal_strlit(" | ");
    assert(" | "@ =~= seq![' ', '|', ' ']);
}

/// What a script or a style sheet holds is never text: from its opening tag
/// the text goes on behind the first tag that closes it, and where there is
/// none it ends.
pub proof fn law_scripts_and_styles_are_dropped(
    s: Seq<char>,
    i: int,
    end: int,
    name: Seq<char>,
)
    requires
        is_tag(s, i, end, name, false),
        name == "script"@ || name == "style"@,
    ensures
        page_text(s, i) == match index_of(s, seq!['<', '/'] + name, end) {
            Some(close) => match index_of(s, seq!['>'], close) {
                Some(close_end) => page_text(s, close_end + 1),
                None => seq![],
            },
            None => seq![],
        },
{
    lemma_tag(s, i, end, name, false);
    law_hidden_elements_vanish(s, i, end);
}

/// A `<` that no letter, `/` or `!` follows is text.
pub proof fn law_lone_angles_stay(s: Seq<char>, i: int)
    requires
        0 <= i < s.len(),
        s[i] == '<',
        i + 1 < s.len() ==> {
            &&& !('a' <= s[i + 1] <= 'z' || 'A' <= s[i + 1] <= 'Z')
            &&& s[i + 1] != '/'
            &&& s[i + 1] != '!'
        },
    ensures
        page_text(s, i) == seq!['<'] + page_text(s, i + 1),
        snippet_text(s, i) == seq!['<'] + snippet_text(s, i + 1),
{
    if is_at(s, seq!['<', '!', '-', '-'], i) {
        assert(s.subrange(i, i + 4)[1] == '!');
    }
}

/// In a snippet every tag vanishes, and nothing but the tags: the text in
/// front of a tag stays, and so does the text behind it.
pub proof fn law_snippets_lose_only_tags(
    s: Seq<char>,
    i: int,
    end: int,
    name: Seq<char>,
    closing: bool,
)
    requires
        is_tag(s, i, end, name, closing),
    ensures
        snippet_text(s, i) == snippet_text(s, end + 1),
{
    lemma_tag(s, i, end, name, closing);
}

/// Text without markup stays in a snippet as it is.
pub proof fn law_snippet_text_stays(s: Seq<char>, i: int, to: int)
    requires
        0 <= i <= to <= s.len(),
        forall|k: int| i <= k < to ==> #[trigger] s[k] != '<',
    ensures
        snippet_text(s, i) == s.subrange(i, to) + snippet_text(s, to),
    decreases to - i,
{
    if i < to {
        assert(s[i] != '<');
        law_snippet_text_stays(s, i + 1, to);
        assert(s.subrange(i, to) =~= seq![s[i]] + s.subrange(i + 1, to));
        assert(snippet_text(s, i) =~= s.subrange(i, to) + snippet_text(s, to));
    } else {
        assert(snippet_text(s, i) =~= s.subrange(i, to) + snippet_text(s, to));
    }
}

/// Decoding goes on behind a part in front as without it.
proof fn lemma_references_behind(front: Seq<char>, s: Seq<char>, i: int)
    requires
        0 <= i,
    ensures
        references_decoded(front + s, front.len() + i) == references_decoded(s, i),
    decreases s.len() - i,
{
    let all = front + s;
    let k = front.len() + i;
    if i < s.len() {
        assert(all[k] == s[i]);
        if i + 1 < s.len() {
            assert(all[k + 1] == s[i + 1]);
        }
        if !opens_reference(s, i) {
            lemma_references_behind(front, s, i + 1);
        } else {
            text::lemma_index_of_behind(front, s, seq![';'], i + 2);
            text::lemma_index_of_first(s, seq![';'], i + 2);
            if let Some(end) = index_of(s, seq![';'], i + 2) {
                assert(all.subrange(k + 2, front.len() + end) =~= s.subrange(i + 2, end));
            }
            match reference(s, i + 2) {
                Some((c, next)) => {
                    lemma_references_behind(front, s, next);
                },
                None => {
                    lemma_references_behind(front, s, i + 2);
                },
            }
        }
    }
}

/// A text in front that opens no reference stays.
proof fn lemma_no_reference(front: Seq<char>, s: Seq<char>)
    requires
        front.len() > 0,
        forall|k: int| 0 <= k < front.len() && #[trigger] front[k] == '&' ==> k + 1 < front.len()
            && front[k + 1] != '#',
    ensures
        references_decoded(front + s, 0) == front + references_decoded(s, 0),
{
    lemma_no_reference_from(front, s, 0);
    assert(front.skip(0) =~= front);
}

proof fn lemma_no_reference_from(front: Seq<char>, s: Seq<char>, i: int)
    requires
        0 <= i <= front.len(),
        forall|k: int| 0 <= k < front.len() && #[trigger] front[k] == '&' ==> k + 1 < front.len()
            && front[k + 1] != '#',
    ensures
        references_decoded(front + s, i) == front.skip(i) + references_decoded(s, 0),
    decreases front.len() - i,
{
    let all = front + s;
    if i < front.len() {
        assert(all[i] == front[i]);
        if front[i] == '&' {
            assert(all[i + 1] == front[i + 1]);
        }
        lemma_no_reference_from(front, s, i + 1);
        assert(references_decoded(all, i) =~= front.skip(i) + references_decoded(s, 0));
    } else {
        lemma_references_behind(front, s, 0);
        assert(references_decoded(all, i) =~= front.skip(i) + references_decoded(s, 0));
    }
}

/// What the entities and their characters are.
proof fn reveal_stages()
    ensures
        "&quot;"@.len() == 6 && "&quot;"@[0] == '&' && "&quot;"@[1] == 'q',
        "&nbsp;"@.len() == 6 && "&nbsp;"@[0] == '&' && "&nbsp;"@[1] == 'n',
        "\u{a0}"@.len() == 1 && "\u{a0}"@[0] == '\u{a0}',
        "&lt;"@.len() == 4 && "&lt;"@[0] == '&' && "&lt;"@[1] == 'l',
        "&gt;"@.len() == 4 && "&gt;"@[0] == '&' && "&gt;"@[1] == 'g',
        "&amp;"@.len() == 5 && "&amp;"@[0] == '&' && "&amp;"@[1] == 'a',
        "\""@ == seq!['"'],
        " "@ == seq![' '],
        "<"@ == seq!['<'],
        ">"@ == seq!['>'],
        "&"@ == seq!['&'],
{
    reveal_strlit("&quot;");
    reveal_strlit("&nbsp;");
    reveal_strlit("\u{a0}");
    reveal_strlit("&lt;");
    reveal_strlit("&gt;");
    reveal_strlit("&amp;");
    reveal_strlit("\"");
    reveal_strlit(" ");
    reveal_strlit("<");
    reveal_strlit(">");
    reveal_strlit("&");
    assert("\""@ =~= seq!['"']);
    assert(" "@ =~= seq![' ']);
    assert("<"@ =~= seq!['<']);
    assert(">"@ =~= seq!['>']);
    assert("&"@ =~= seq!['&']);
}

/// A head that does not hold what is replaced, nor begins like it, stays.
proof fn lemma_through(head: Seq<char>, tail: Seq<char>, from: Seq<char>, to: Seq<char>)
    requires
        from.len() > 0,
        forall|k: int| 1 <= k < head.len() ==> #[trigger] head[k] != from[0],
        head.len() > 0,
        head[0] != from[0] || (head.len() > 1 && from.len() > 1 && head[1] != from[1]),
    ensures
        replaced(head + tail, from, to) == head + replaced(tail, from, to),
{
    let all = head + tail;
    assert forall|k: int| 0 <= k < head.len() implies !#[trigger] is_at(all, from, k) by {
        if is_at(all, from, k) {
            assert(all.subrange(k, k + from.len())[0] == all[k]);
            assert(all[k] == head[k]);
            if k == 0 && head[0] == from[0] {
                assert(all.subrange(0, from.len() as int)[1] == all[1]);
                assert(all[1] == head[1]);
            }
        }
    }
    text::lemma_replaced_passes(head, tail, from, to);
}

/// What is replaced is replaced at the front.
proof fn lemma_found(tail: Seq<char>, from: Seq<char>, to: Seq<char>)
    requires
        from.len() > 0,
    ensures
        replaced(from + tail, from, to) == to + replaced(tail, from, to),
{
    let none = Seq::<char>::empty();
    assert(none + from + tail =~= from + tail);
    text::law_first_place_is_replaced(none, tail, from, to);
    assert(none + to + replaced(tail, from, to) =~= to + replaced(tail, from, to));
}

/// The entity `&quot;` is its character.
proof fn lemma_quot(rest: Seq<char>)
    ensures
        entities_decoded("&quot;"@ + rest) == seq!['"'] + entities_decoded(rest),
{
    reveal_stages();
    let t0 = references_decoded(rest, 0);
    let e = "&quot;"@;
    reveal_strlit("&quot;");
    lemma_no_reference(e, rest);
    let c = seq!['"'];
    let t1 = replaced(t0, "&quot;"@, "\""@);
    lemma_found(t0, "&quot;"@, "\""@);
    assert("\""@ =~= c);
    let t2 = replaced(t1, "&nbsp;"@, " "@);
    lemma_through(c, t1, "&nbsp;"@, " "@);
    let t3 = replaced(t2, "\u{a0}"@, " "@);
    lemma_through(c, t2, "\u{a0}"@, " "@);
    let t4 = replaced(t3, "&lt;"@, "<"@);
    lemma_through(c, t3, "&lt;"@, "<"@);
    let t5 = replaced(t4, "&gt;"@, ">"@);
    lemma_through(c, t4, "&gt;"@, ">"@);
    let t6 = replaced(t5, "&amp;"@, "&"@);
    lemma_through(c, t5, "&amp;"@, "&"@);
}

/// The entity `&nbsp;` is its character.
proof fn lemma_nbsp(rest: Seq<char>)
    ensures
        entities_decoded("&nbsp;"@ + rest) == seq![' '] + entities_decoded(rest),
{
    reveal_stages();
    let t0 = references_decoded(rest, 0);
    let e = "&nbsp;"@;
    reveal_strlit("&nbsp;");
    lemma_no_reference(e, rest);
    let c = seq![' '];
    let t1 = replaced(t0, "&quot;"@, "\""@);
    lemma_through(e, t0, "&quot;"@, "\""@);
    let t2 = replaced(t1, "&nbsp;"@, " "@);
    lemma_found(t1, "&nbsp;"@, " "@);
    assert(" "@ =~= c);
    let t3 = replaced(t2, "\u{a0}"@, " "@);
    lemma_through(c, t2, "\u{a0}"@, " "@);
    let t4 = replaced(t3, "&lt;"@, "<"@);
    lemma_through(c, t3, "&lt;"@, "<"@);
    let t5 = replaced(t4, "&gt;"@, ">"@);
    lemma_through(c, t4, "&gt;"@, ">"@);
    let t6 = replaced(t5, "&amp;"@, "&"@);
    lemma_through(c, t5, "&amp;"@, "&"@);
}

/// The entity `\u{a0}` is its character.
proof fn lemma_hard_space(rest: Seq<char>)
    ensures
        entities_decoded("\u{a0}"@ + rest) == seq![' '] + entities_decoded(rest),
{
    reveal_stages();
    let t0 = references_decoded(rest, 0);
    let e = "\u{a0}"@;
    reveal_strlit("\u{a0}");
    lemma_no_reference(e, rest);
    let c = seq![' '];
    let t1 = replaced(t0, "&quot;"@, "\""@);
    lemma_through(e, t0, "&quot;"@, "\""@);
    let t2 = replaced(t1, "&nbsp;"@, " "@);
    lemma_through(e, t1, "&nbsp;"@, " "@);
    let t3 = replaced(t2, "\u{a0}"@, " "@);
    lemma_found(t2, "\u{a0}"@, " "@);
    assert(" "@ =~= c);
    let t4 = replaced(t3, "&lt;"@, "<"@);
    lemma_through(c, t3, "&lt;"@, "<"@);
    let t5 = replaced(t4, "&gt;"@, ">"@);
    lemma_through(c, t4, "&gt;"@, ">"@);
    let t6 = replaced(t5, "&amp;"@, "&"@);
    lemma_through(c, t5, "&amp;"@, "&"@);
}

/// The entity `&lt;` is its character.
proof fn lemma_lt(rest: Seq<char>)
    ensures
        entities_decoded("&lt;"@ + rest) == seq!['<'] + entities_decoded(rest),
{
    reveal_stages();
    let t0 = references_decoded(rest, 0);
    let e = "&lt;"@;
    reveal_strlit("&lt;");
    lemma_no_reference(e, rest);
    let c = seq!['<'];
    let t1 = replaced(t0, "&quot;"@, "\""@);
    lemma_through(e, t0, "&quot;"@, "\""@);
    let t2 = replaced(t1, "&nbsp;"@, " "@);
    lemma_through(e, t1, "&nbsp;"@, " "@);
    let t3 = replaced(t2, "\u{a0}"@, " "@);
    lemma_through(e, t2, "\u{a0}"@, " "@);
    let t4 = replaced(t3, "&lt;"@, "<"@);
    lemma_found(t3, "&lt;"@, "<"@);
    assert("<"@ =~= c);
    let t5 = replaced(t4, "&gt;"@, ">"@);
    lemma_through(c, t4, "&gt;"@, ">"@);
    let t6 = replaced(t5, "&amp;"@, "&"@);
    lemma_through(c, t5, "&amp;"@, "&"@);
}

/// The entity `&gt;` is its character.
proof fn lemma_gt(rest: Seq<char>)
    ensures
        entities_decoded("&gt;"@ + rest) == seq!['>'] + entities_decoded(rest),
{
    reveal_stages();
    let t0 = references_decoded(rest, 0);
    let e = "&gt;"@;
    reveal_strlit("&gt;");
    lemma_no_reference(e, rest);
    let c = seq!['>'];
    let t1 = replaced(t0, "&quot;"@, "\""@);
    lemma_through(e, t0, "&quot;"@, "\""@);
    let t2 = replaced(t1, "&nbsp;"@, " "@);
    lemma_through(e, t1, "&nbsp;"@, " "@);
    let t3 = replaced(t2, "\u{a0}"@, " "@);
    lemma_through(e, t2, "\u{a0}"@, " "@);
    let t4 = replaced(t3, "&lt;"@, "<"@);
    lemma_through(e, t3, "&lt;"@, "<"@);
    let t5 = replaced(t4, "&gt;"@, ">"@);
    lemma_found(t4, "&gt;"@, ">"@);
    assert(">"@ =~= c);
    let t6 = replaced(t5, "&amp;"@, "&"@);
    lemma_through(c, t5, "&amp;"@, "&"@);
}

/// The entity `&amp;` is its character.
proof fn lemma_amp(rest: Seq<char>)
    ensures
        entities_decoded("&amp;"@ + rest) == seq!['&'] + entities_decoded(rest),
{
    reveal_stages();
    let t0 = references_decoded(rest, 0);
    let e = "&amp;"@;
    reveal_strlit("&amp;");
    lemma_no_reference(e, rest);
    let c = seq!['&'];
    let t1 = replaced(t0, "&quot;"@, "\""@);
    lemma_through(e, t0, "&quot;"@, "\""@);
    let t2 = replaced(t1, "&nbsp;"@, " "@);
    lemma_through(e, t1, "&nbsp;"@, " "@);
    let t3 = replaced(t2, "\u{a0}"@, " "@);
    lemma_through(e, t2, "\u{a0}"@, " "@);
    let t4 = replaced(t3, "&lt;"@, "<"@);
    lemma_through(e, t3, "&lt;"@, "<"@);
    let t5 = replaced(t4, "&gt;"@, ">"@);
    lemma_through(e, t4, "&gt;"@, ">"@);
    let t6 = replaced(t5, "&amp;"@, "&"@);
    lemma_found(t5, "&amp;"@, "&"@);
    assert("&"@ =~= c);
}

/// The named entities are their characters, a hard space is a space, and every
/// other character that begins no entity stays; what stands behind is decoded
/// on its own, so that nothing is decoded twice.
pub proof fn law_entities_are_their_characters(rest: Seq<char>, c: char)
    ensures
        entities_decoded("&quot;"@ + rest) == seq!['"'] + entities_decoded(rest),
        entities_decoded("&nbsp;"@ + rest) == seq![' '] + entities_decoded(rest),
        entities_decoded("\u{a0}"@ + rest) == seq![' '] + entities_decoded(rest),
        entities_decoded("&lt;"@ + rest) == seq!['<'] + entities_decoded(rest),
        entities_decoded("&gt;"@ + rest) == seq!['>'] + entities_decoded(rest),
        entities_decoded("&amp;"@ + rest) == seq!['&'] + entities_decoded(rest),
        c != '&' && c != '\u{a0}' ==> entities_decoded(seq![c] + rest) == seq![c]
            + entities_decoded(rest),
        entities_decoded(seq![]) == Seq::<char>::empty(),
{
    lemma_quot(rest);
    lemma_nbsp(rest);
    lemma_hard_space(rest);
    lemma_lt(rest);
    lemma_gt(rest);
    lemma_amp(rest);
    reveal_stages();
    if c != '&' && c != '\u{a0}' {
        let one = seq![c];
        lemma_no_reference(one, rest);
        let t0 = references_decoded(rest, 0);
        let t1 = replaced(t0, "&quot;"@, "\""@);
        lemma_through(one, t0, "&quot;"@, "\""@);
        let t2 = replaced(t1, "&nbsp;"@, " "@);
        lemma_through(one, t1, "&nbsp;"@, " "@);
        let t3 = replaced(t2, "\u{a0}"@, " "@);
        lemma_through(one, t2, "\u{a0}"@, " "@);
        let t4 = replaced(t3, "&lt;"@, "<"@);
        lemma_through(one, t3, "&lt;"@, "<"@);
        let t5 = replaced(t4, "&gt;"@, ">"@);
        lemma_through(one, t4, "&gt;"@, ">"@);
        let t6 = replaced(t5, "&amp;"@, "&"@);
        lemma_through(one, t5, "&amp;"@, "&"@);
    }
    let none = Seq::<char>::empty();
    assert(references_decoded(none, 0) =~= none);
}

/// A numeric reference is the character of its number, in decimal.
pub proof fn law_decimal_references_are_decoded(n: nat, rest: Seq<char>)
    requires
        n < 0xd800 || 0xe000 <= n <= 0x10ffff,
    ensures
        references_decoded(seq!['&', '#'] + text::decimal(n) + seq![';'] + rest, 0) == seq![
            n as u32 as char,
        ] + references_decoded(rest, 0),
{
    let digits = text::decimal(n);
    let front = seq!['&', '#'] + digits + seq![';'];
    let all = front + rest;
    let end = 2 + digits.len() as int;
    text::law_decimals_read_back(n);
    lemma_decimal_value(n);
    lemma_decimal_short(n);
    assert(all[0] == '&' && all[1] == '#');
    assert forall|k: int| 2 <= k < end implies #[trigger] all[k] != ';' by {
        assert(all[k] == digits[k - 2]);
    }
    assert(all[end] == ';');
    assert(all.subrange(end, end + 1) =~= seq![';']);
    assert(is_at(all, seq![';'], end));
    text::lemma_index_of_first(all, seq![';'], 2);
    let found = index_of(all, seq![';'], 2)->0;
    assert(all.subrange(found, found + 1)[0] == all[found]);
    assert(found == end);
    assert(all.subrange(2, end) =~= digits);
    assert('0' <= digits[0] <= '9');
    assert(code_number(digits) == Some(n as int));
    lemma_references_behind(front, rest, 0);
    assert(front.len() == end + 1);
}

/// The digits of a number stand for it.
proof fn lemma_decimal_value(n: nat)
    ensures
        digits_value(text::decimal(n), 10) == Some(n as int),
    decreases n,
{
    let digits = text::decimal(n);
    if n >= 10 {
        lemma_decimal_value(n / 10);
        assert(digits.drop_last() =~= text::decimal(n / 10));
    } else {
        assert(digits.drop_last() =~= Seq::<char>::empty());
        assert(digits_value(digits.drop_last(), 10) == Some(0int));
    }
}

/// The number of a character has at most seven digits.
proof fn lemma_decimal_short(n: nat)
    requires
        n <= 0x10ffff,
    ensures
        text::decimal(n).len() <= 7,
{
    reveal_with_fuel(text::decimal, 8);
    let n1 = n / 10;
    let n2 = n1 / 10;
    let n3 = n2 / 10;
    let n4 = n3 / 10;
    let n5 = n4 / 10;
    let n6 = n5 / 10;
    assert(n6 < 10);
    assert(text::decimal(n6).len() == 1);
    assert(text::decimal(n5).len() <= 2);
    assert(text::decimal(n4).len() <= 3);
    assert(text::decimal(n3).len() <= 4);
    assert(text::decimal(n2).len() <= 5);
    assert(text::decimal(n1).len() <= 6);
}

/// A hexadecimal reference counts in sixteens, with letters of either case,
/// and is marked by an `x` of either case.
pub proof fn law_hexadecimal_references_count_in_sixteens(digits: Seq<char>, c: char, high: int)
    requires
        digits_value(digits, 16) == Some(high),
    ensures
        digits_value(seq![], 16) == Some(0int),
        '0' <= c <= '9' ==> digits_value(digits.push(c), 16) == Some(
            16 * high + (c as int - '0' as int),
        ),
        'a' <= c <= 'f' ==> digits_value(digits.push(c), 16) == Some(
            16 * high + 10 + (c as int - 'a' as int),
        ),
        'A' <= c <= 'F' ==> digits_value(digits.push(c), 16) == Some(
            16 * high + 10 + (c as int - 'A' as int),
        ),
        digits.len() > 0 && digits[0] != '+' && high <= u32::MAX ==> code_number(
            seq!['x'] + digits,
        ) == Some(high) && code_number(seq!['X'] + digits) == Some(high),
{
    assert(digits.push(c).drop_last() =~= digits);
    assert((seq!['x'] + digits).skip(1) =~= digits);
    assert((seq!['X'] + digits).skip(1) =~= digits);
}

/// Tidying changes white space only: what is not white stays, in its order.
pub proof fn law_tidying_changes_only_white_space(s: Seq<char>)
    ensures
        blank_lines_collapsed(s).filter(|c: char| !text::is_white(c)) == s.filter(
            |c: char| !text::is_white(c),
        ),
{
    let inked = |c: char| !text::is_white(c);
    let tidy = tidy_lines(text::lines(s), false);
    lemma_trimmed_ink(tidy, inked);
    lemma_tidy_ink(text::lines(s), false, inked);
    text::law_pieces_join(s, '\n');
    lemma_lines_ink(text::pieces(s, '\n'), inked);
    assert(text::lines(s) =~= text::pieces(s, '\n').map_values(
        |line: Seq<char>| text::unended(line),
    ));
}

/// White space alone has no ink.
proof fn lemma_white_ink(s: Seq<char>, inked: spec_fn(char) -> bool)
    requires
        forall|c: char| #[trigger] inked(c) <==> !text::is_white(c),
        forall|i: int| 0 <= i < s.len() ==> text::is_white(#[trigger] s[i]),
    ensures
        s.filter(inked) == Seq::<char>::empty(),
    decreases s.len(),
{
    reveal(Seq::filter);
    if s.len() > 0 {
        let shorter = s.drop_last();
        assert forall|i: int| 0 <= i < shorter.len() implies text::is_white(
            #[trigger] shorter[i],
        ) by {
            assert(shorter[i] == s[i]);
        }
        lemma_white_ink(shorter, inked);
        assert(text::is_white(s[s.len() - 1]));
        assert(!inked(s.last()));
    }
}

/// Trimming takes no ink away.
proof fn lemma_trimmed_ink(s: Seq<char>, inked: spec_fn(char) -> bool)
    requires
        forall|c: char| #[trigger] inked(c) <==> !text::is_white(c),
    ensures
        trimmed(s).filter(inked) == s.filter(inked),
{
    text::law_trimming_takes_only_white_space(s);
    let (a, b) = choose|a: int, b: int| #[trigger] text::is_trim(s, a, b);
    let front = s.take(a);
    let back = s.skip(b);
    assert(s =~= front + trimmed(s) + back);
    assert forall|i: int| 0 <= i < back.len() implies text::is_white(#[trigger] back[i]) by {
        assert(back[i] == s[b + i]);
    }
    lemma_white_ink(front, inked);
    lemma_white_ink(back, inked);
    Seq::filter_distributes_over_add(front + trimmed(s), back, inked);
    Seq::filter_distributes_over_add(front, trimmed(s), inked);
    assert(s.filter(inked) =~= trimmed(s).filter(inked));
}

/// Tidy lines have the ink of the lines.
proof fn lemma_tidy_ink(list: Seq<Seq<char>>, after_blank: bool, inked: spec_fn(char) -> bool)
    requires
        forall|c: char| #[trigger] inked(c) <==> !text::is_white(c),
    ensures
        tidy_lines(list, after_blank).filter(inked) == text::joined(list).filter(inked),
    decreases list.len(),
{
    if list.len() > 0 {
        let line = trimmed(list[0]);
        let rest = tidy_lines(list.skip(1), line.len() == 0);
        lemma_tidy_ink(list.skip(1), line.len() == 0, inked);
        lemma_trimmed_ink(list[0], inked);
        text::lemma_joined_front(list[0], list.skip(1));
        assert(seq![list[0]] + list.skip(1) =~= list);
        Seq::filter_distributes_over_add(list[0], text::joined(list.skip(1)), inked);
        if line.len() == 0 && after_blank {
            assert(line =~= Seq::<char>::empty());
            lemma_white_ink(line, inked);
            assert(tidy_lines(list, after_blank).filter(inked) =~= text::joined(list).filter(
                inked,
            ));
        } else {
            let end = seq!['\n'];
            lemma_white_ink(end, inked);
            Seq::filter_distributes_over_add(line + end, rest, inked);
            Seq::filter_distributes_over_add(line, end, inked);
            assert(tidy_lines(list, after_blank).filter(inked) =~= text::joined(list).filter(
                inked,
            ));
        }
    } else {
        assert(tidy_lines(list, after_blank) =~= text::joined(list));
    }
}

/// Lines have the ink of their pieces: what ends a line is white.
proof fn lemma_lines_ink(list: Seq<Seq<char>>, inked: spec_fn(char) -> bool)
    requires
        forall|c: char| #[trigger] inked(c) <==> !text::is_white(c),
    ensures
        text::joined(list.map_values(|line: Seq<char>| text::unended(line))).filter(inked)
            == text::joined(list).filter(inked),
    decreases list.len(),
{
    let bare = list.map_values(|line: Seq<char>| text::unended(line));
    if list.len() > 0 {
        let front = list.drop_last();
        lemma_lines_ink(front, inked);
        assert(bare.drop_last() =~= front.map_values(|line: Seq<char>| text::unended(line)));
        lemma_unended_ink(list.last(), inked);
        assert(bare.last() == text::unended(list.last()));
        Seq::filter_distributes_over_add(text::joined(front), list.last(), inked);
        Seq::filter_distributes_over_add(text::joined(bare.drop_last()), bare.last(), inked);
        assert(text::joined(bare).filter(inked) =~= text::joined(list).filter(inked));
    } else {
        assert(text::joined(bare) =~= text::joined(list));
    }
}

/// The end of a line is white.
proof fn lemma_unended_ink(line: Seq<char>, inked: spec_fn(char) -> bool)
    requires
        forall|c: char| #[trigger] inked(c) <==> !text::is_white(c),
    ensures
        text::unended(line).filter(inked) == line.filter(inked),
{
    let bare = text::unended(line);
    let end = line.skip(bare.len() as int);
    assert(line =~= bare + end);
    assert forall|i: int| 0 <= i < end.len() implies text::is_white(#[trigger] end[i]) by {
        assert(end[i] == line[bare.len() + i]);
        if end.len() == 2 && i == 0 {
            assert(line.drop_last().last() == line[line.len() - 2]);
        }
    }
    lemma_white_ink(end, inked);
    Seq::filter_distributes_over_add(bare, end, inked);
    assert(line.filter(inked) =~= bare.filter(inked));
}

/// A page reads as the text that its markup leaves, with its entities decoded
/// and its lines tidied; a snippet as the text that its tags leave, with its
/// entities decoded.
pub proof fn law_pages_read_as_text(html: Seq<char>)
    ensures
        page_as_text(html) == blank_lines_collapsed(entities_decoded(page_text(html, 0))),
        snippet_as_text(html) == entities_decoded(snippet_text(html, 0)),
        page_as_text(html).filter(|c: char| !text::is_white(c)) == entities_decoded(
            page_text(html, 0),
        ).filter(|c: char| !text::is_white(c)),
{
    law_tidying_changes_only_white_space(entities_decoded(page_text(html, 0)));
}

/// A reference without digits, or with a number past thirty-two bits, is none,
/// and neither is one that is not closed within its length.
pub proof fn law_other_references_are_none(digits: Seq<char>, radix: int, s: Seq<char>, i: int)
    ensures
        number(seq![], radix) is None,
        number(seq!['+'], radix) is None,
        digits_value(digits, radix) matches Some(value) ==> (value > u32::MAX && digits.len() > 0
            && digits[0] != '+' ==> number(digits, radix) is None),
        digits_value(digits, radix) matches Some(value) ==> (value <= u32::MAX && digits.len() > 0
            && digits[0] != '+' ==> number(digits, radix) == Some(value)),
        index_of(s, seq![';'], i) is None ==> reference(s, i) is None,
        index_of(s, seq![';'], i) matches Some(end) ==> (end - i > 8 || end <= i ==> reference(
            s,
            i,
        ) is None),
        0 <= i && opens_reference(s, i) && reference(s, i + 2) is None ==> references_decoded(s, i)
            == seq!['&', '#'] + references_decoded(s, i + 2),
{
    assert(seq!['+'].skip(1) =~= Seq::<char>::empty());
}

/// The numbers of characters are those up to the last one, without the
/// surrogates; a reference to any other is none.
pub proof fn law_surrogates_are_no_characters(value: int)
    ensures
        is_scalar(value) <==> 0 <= value <= 1114111 && !(55296 <= value <= 57343),
{
}

}
