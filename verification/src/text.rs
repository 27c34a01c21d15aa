//! Text as sequences of characters: searching, trimming, replacing, and
//! writing numbers down.

use vstd::prelude::*;

verus! {

/// Whether `c` has the Unicode property `White_Space`.
pub open spec fn is_white(c: char) -> bool {
    ||| '\u{9}' <= c <= '\u{d}'
    ||| c == ' '
    ||| c == '\u{85}'
    ||| c == '\u{a0}'
    ||| c == '\u{1680}'
    ||| '\u{2000}' <= c <= '\u{200a}'
    ||| c == '\u{2028}'
    ||| c == '\u{2029}'
    ||| c == '\u{202f}'
    ||| c == '\u{205f}'
    ||| c == '\u{3000}'
}

/// Whether `needle` stands in `s` at position `i`.
pub open spec fn is_at(s: Seq<char>, needle: Seq<char>, i: int) -> bool {
    &&& 0 <= i
    &&& i + needle.len() <= s.len()
    &&& s.subrange(i, i + needle.len()) == needle
}

/// The first position at or after `from` where `needle` stands in `s`.
pub open spec fn index_of(s: Seq<char>, needle: Seq<char>, from: int) -> Option<int>
    decreases s.len() + 1 - from,
{
    if from < 0 || from + needle.len() > s.len() {
        None
    } else if is_at(s, needle, from) {
        Some(from)
    } else {
        index_of(s, needle, from + 1)
    }
}

/// Whether `needle` occurs anywhere in `s`.
pub open spec fn occurs(s: Seq<char>, needle: Seq<char>) -> bool {
    exists|i: int| #[trigger] is_at(s, needle, i)
}

/// `s` without its leading white space.
pub open spec fn trimmed_start(s: Seq<char>) -> Seq<char>
    decreases s.len(),
{
    if s.len() > 0 && is_white(s[0]) {
        trimmed_start(s.drop_first())
    } else {
        s
    }
}

/// `s` without its trailing white space.
pub open spec fn trimmed_end(s: Seq<char>) -> Seq<char>
    decreases s.len(),
{
    if s.len() > 0 && is_white(s.last()) {
        trimmed_end(s.drop_last())
    } else {
        s
    }
}

/// `s` without its leading and trailing white space.
pub open spec fn trimmed(s: Seq<char>) -> Seq<char> {
    trimmed_end(trimmed_start(s))
}

/// `s` with every occurrence of `from`, taken from the left and without
/// overlap, replaced by `to`.
pub open spec fn replaced(s: Seq<char>, from: Seq<char>, to: Seq<char>) -> Seq<char>
    decreases s.len(),
{
    if s.len() == 0 || from.len() == 0 {
        s
    } else if is_at(s, from, 0) {
        to + replaced(s.skip(from.len() as int), from, to)
    } else {
        seq![s[0]] + replaced(s.skip(1), from, to)
    }
}

/// What a list of texts holds.
pub open spec fn texts(list: Seq<String>) -> Seq<Seq<char>> {
    list.map_values(|s: String| s@)
}

/// The length of the part of `s` up to and with the first `separator`.
pub open spec fn piece_len(s: Seq<char>, separator: char) -> nat
    decreases s.len(),
{
    if s.len() == 0 {
        0
    } else if s[0] == separator {
        1
    } else {
        1 + piece_len(s.skip(1), separator)
    }
}

/// `s` cut behind every `separator`.
pub open spec fn pieces(s: Seq<char>, separator: char) -> Seq<Seq<char>>
    decreases s.len(),
{
    let len = piece_len(s, separator) as int;
    if s.len() == 0 || len <= 0 || len > s.len() {
        seq![]
    } else {
        seq![s.take(len)] + pieces(s.skip(len), separator)
    }
}

/// A line without the line end behind it.
pub open spec fn unended(line: Seq<char>) -> Seq<char> {
    if line.len() > 0 && line.last() == '\n' {
        let body = line.drop_last();
        if body.len() > 0 && body.last() == '\r' {
            body.drop_last()
        } else {
            body
        }
    } else {
        line
    }
}

/// The lines of `s`, without their line ends.
pub open spec fn lines(s: Seq<char>) -> Seq<Seq<char>> {
    pieces(s, '\n').map_values(|line: Seq<char>| unended(line))
}

/// All chunks in one text.
pub open spec fn joined(chunks: Seq<Seq<char>>) -> Seq<char>
    decreases chunks.len(),
{
    if chunks.len() == 0 {
        seq![]
    } else {
        joined(chunks.drop_last()) + chunks.last()
    }
}

/// All texts of a list, with `separator` between them.
pub open spec fn separated(list: Seq<Seq<char>>, separator: Seq<char>) -> Seq<char>
    decreases list.len(),
{
    if list.len() == 0 {
        seq![]
    } else if list.len() == 1 {
        list[0]
    } else {
        separated(list.drop_last(), separator) + separator + list.last()
    }
}

/// Whether `a` comes before `b` in the order of their characters' numbers.
pub open spec fn before(a: Seq<char>, b: Seq<char>) -> bool
    decreases a.len(),
{
    if b.len() == 0 {
        false
    } else if a.len() == 0 {
        true
    } else {
        a[0] < b[0] || (a[0] == b[0] && before(a.skip(1), b.skip(1)))
    }
}

/// The digit character of `d`, for `d` below ten.
pub open spec fn digit(d: nat) -> char {
    (48 + d) as u8 as char
}

/// `n` in decimal.
pub open spec fn decimal(n: nat) -> Seq<char>
    decreases n,
{
    if n < 10 {
        seq![digit(n)]
    } else {
        decimal(n / 10).push(digit(n % 10))
    }
}

/// `index_of` finds the first occurrence: nothing stands before it.
pub proof fn lemma_index_of_first(s: Seq<char>, needle: Seq<char>, from: int)
    requires
        0 <= from,
    ensures
        match index_of(s, needle, from) {
            Some(at) => from <= at && is_at(s, needle, at) && forall|i: int|
                from <= i < at ==> !#[trigger] is_at(s, needle, i),
            None => forall|i: int| from <= i ==> !#[trigger] is_at(s, needle, i),
        },
    decreases s.len() + 1 - from,
{
    if from + needle.len() <= s.len() && !is_at(s, needle, from) {
        lemma_index_of_first(s, needle, from + 1);
    }
}

/// `occurs` is what a search from the start reports.
pub proof fn lemma_occurs_found(s: Seq<char>, needle: Seq<char>)
    ensures
        occurs(s, needle) <==> index_of(s, needle, 0) is Some,
{
    lemma_index_of_first(s, needle, 0);
}

/// Whether `c` has the Unicode property `White_Space`.
pub fn is_whitespace(c: char) -> (white: bool)
    ensures
        white == is_white(c),
{
    ('\u{9}' <= c && c <= '\u{d}') || c == ' ' || c == '\u{85}' || c == '\u{a0}' || c == '\u{1680}'
        || ('\u{2000}' <= c && c <= '\u{200a}') || c == '\u{2028}' || c == '\u{2029}' || c
        == '\u{202f}' || c == '\u{205f}' || c == '\u{3000}'
}

/// A letter from `A` to `Z` in lower case; other characters as they are.
pub open spec fn ascii_lower(c: char) -> char {
    if 'A' <= c <= 'Z' {
        (c as u32 + 32) as char
    } else {
        c
    }
}

/// A text with its letters from `A` to `Z` in lower case.
pub open spec fn ascii_lowered(s: Seq<char>) -> Seq<char> {
    s.map_values(|c: char| ascii_lower(c))
}

/// A text in lower case, as std's Unicode tables have it.
pub uninterp spec fn lowercase(s: Seq<char>) -> Seq<char>;

/// Lower case: `str::to_lowercase` gives the lowercase equivalent of the text
/// by Unicode's rules. Of a text of ASCII characters alone these change the
/// letters from `A` to `Z` and nothing else.
pub assume_specification[ str::to_lowercase ](s: &str) -> (lower: String)
    ensures
        lower@ == lowercase(s@),
        vstd::utf8::is_ascii_chars(s@) ==> lower@ == ascii_lowered(s@),
;

/// Whether two texts are equal but for the case of the letters from `A` to `Z`.
pub fn same_ignoring_case(a: &str, b: &str) -> (same: bool)
    ensures
        same == (ascii_lowered(a@) == ascii_lowered(b@)),
{
    let left = chars_of(a);
    let right = chars_of(b);
    if left.len() != right.len() {
        assert(ascii_lowered(a@).len() != ascii_lowered(b@).len());
        return false;
    }
    let mut i: usize = 0;
    while i < left.len()
        invariant
            left@ == a@,
            right@ == b@,
            left@.len() == right@.len(),
            i <= left@.len(),
            forall|k: int| 0 <= k < i ==> ascii_lowered(a@)[k] == ascii_lowered(b@)[k],
        decreases left@.len() - i,
    {
        if lower_letter(left[i]) != lower_letter(right[i]) {
            assert(ascii_lowered(a@)[i as int] != ascii_lowered(b@)[i as int]);
            return false;
        }
        i += 1;
    }
    assert(ascii_lowered(a@) =~= ascii_lowered(b@));
    true
}

/// A letter from `A` to `Z` in lower case; other characters as they are.
pub fn lower_letter(c: char) -> (lower: char)
    ensures
        lower == ascii_lower(c),
{
    if 'A' <= c && c <= 'Z' {
        (c as u8 + 32) as char
    } else {
        c
    }
}

/// Appending one character: `String::push` adds `c` behind everything that
/// the string held.
pub assume_specification[ String::push ](s: &mut String, c: char)
    ensures
        final(s)@ == old(s)@.push(c),
;

/// The characters of `s`, for access by position.
pub fn chars_of(s: &str) -> (chars: Vec<char>)
    ensures
        chars@ == s@,
{
    let mut chars: Vec<char> = Vec::new();
    for c in it: s.chars()
        invariant
            it.seq() == s@,
            chars@ == s@.take(it.index()),
    {
        chars.push(c);
    }
    assert(chars@ =~= s@);
    chars
}

/// The text made of `chars[from..to]`.
pub fn string_of(chars: &[char], from: usize, to: usize) -> (s: String)
    requires
        from <= to <= chars@.len(),
    ensures
        s@ == chars@.subrange(from as int, to as int),
{
    let mut s = String::new();
    let mut i: usize = from;
    while i < to
        invariant
            from <= i <= to <= chars@.len(),
            s@ =~= chars@.subrange(from as int, i as int),
        decreases to - i,
    {
        s.push(chars[i]);
        i += 1;
    }
    s
}

/// Whether two texts hold the same characters.
pub fn same(a: &str, b: &str) -> (equal: bool)
    ensures
        equal == (a@ == b@),
{
    a.to_owned() == b.to_owned()
}

/// Whether `needle` stands in `s` at position `i`.
pub fn stands_at(s: &[char], needle: &[char], i: usize) -> (found: bool)
    ensures
        found == is_at(s@, needle@, i as int),
{
    let len: usize = s.len();
    if i > len || needle.len() > len - i {
        return false;
    }
    let mut k: usize = 0;
    while k < needle.len()
        invariant
            k <= needle@.len(),
            i + needle@.len() <= s@.len(),
            len == s@.len(),
            s@.subrange(i as int, i + k) =~= needle@.take(k as int),
        decreases needle@.len() - k,
    {
        if s[i + k] != needle[k] {
            assert(s@.subrange(i as int, i + needle@.len())[k as int] != needle@[k as int]);
            return false;
        }
        k += 1;
    }
    assert(needle@.take(k as int) =~= needle@);
    true
}

/// The first position at or after `from` where `needle` stands in `s`.
pub fn find(s: &[char], needle: &[char], from: usize) -> (at: Option<usize>)
    ensures
        match at {
            Some(i) => index_of(s@, needle@, from as int) == Some(i as int) && from <= i && i
                + needle@.len() <= s@.len(),
            None => index_of(s@, needle@, from as int) is None,
        },
{
    if from > s.len() || needle.len() > s.len() - from {
        return None;
    }
    let mut i: usize = from;
    while i <= s.len() - needle.len()
        invariant
            from <= i <= s@.len() - needle@.len() + 1,
            needle@.len() <= s@.len(),
            index_of(s@, needle@, from as int) == index_of(s@, needle@, i as int),
        decreases s@.len() - i,
    {
        if stands_at(s, needle, i) {
            return Some(i);
        }
        if i == s.len() - needle.len() {
            assert(index_of(s@, needle@, i + 1) is None);
            return None;
        }
        i += 1;
    }
    None
}

/// The first position at or after `from` that holds `c`.
pub fn find_char(s: &[char], c: char, from: usize) -> (at: Option<usize>)
    ensures
        match at {
            Some(i) => index_of(s@, seq![c], from as int) == Some(i as int) && from <= i < s@.len()
                && s@[i as int] == c && i < usize::MAX,
            None => index_of(s@, seq![c], from as int) is None,
        },
{
    let needle: Vec<char> = vec![c];
    let len: usize = s.len();
    assert(needle@ =~= seq![c]);
    let at = find(s, &needle, from);
    proof {
        lemma_index_of_first(s@, seq![c], from as int);
        if let Some(i) = at {
            assert(s@.subrange(i as int, i + 1)[0] == seq![c][0]);
        }
    }
    at
}

/// Whether `needle` occurs in `s`.
pub fn contains(s: &str, needle: &str) -> (found: bool)
    ensures
        found == occurs(s@, needle@),
{
    let s_chars = chars_of(s);
    let needle_chars = chars_of(needle);
    proof {
        lemma_occurs_found(s@, needle@);
    }
    find(&s_chars, &needle_chars, 0).is_some()
}

/// Whether `s` begins with `prefix`.
pub fn starts_with(s: &str, prefix: &str) -> (found: bool)
    ensures
        found == is_at(s@, prefix@, 0),
{
    let s_chars = chars_of(s);
    let prefix_chars = chars_of(prefix);
    stands_at(&s_chars, &prefix_chars, 0)
}

/// The first position in `chars[from..to]` that holds no white space, or `to`.
pub fn skip_white(chars: &[char], from: usize, to: usize) -> (at: usize)
    requires
        from <= to <= chars@.len(),
    ensures
        from <= at <= to,
        trimmed_start(chars@.subrange(from as int, to as int)) == chars@.subrange(
            at as int,
            to as int,
        ),
        at < to ==> !is_white(chars@[at as int]),
{
    let mut at: usize = from;
    while at < to && is_whitespace(chars[at])
        invariant
            from <= at <= to <= chars@.len(),
            trimmed_start(chars@.subrange(from as int, to as int)) == trimmed_start(
                chars@.subrange(at as int, to as int),
            ),
        decreases to - at,
    {
        assert(chars@.subrange(at as int, to as int).drop_first() =~= chars@.subrange(
            at + 1,
            to as int,
        ));
        at += 1;
    }
    at
}

/// The end of `chars[from..to]` without its trailing white space.
pub fn skip_white_back(chars: &[char], from: usize, to: usize) -> (end: usize)
    requires
        from <= to <= chars@.len(),
    ensures
        from <= end <= to,
        trimmed_end(chars@.subrange(from as int, to as int)) == chars@.subrange(
            from as int,
            end as int,
        ),
        end > from ==> !is_white(chars@[end - 1]),
{
    let mut end: usize = to;
    while end > from && is_whitespace(chars[end - 1])
        invariant
            from <= end <= to <= chars@.len(),
            trimmed_end(chars@.subrange(from as int, to as int)) == trimmed_end(
                chars@.subrange(from as int, end as int),
            ),
        decreases end,
    {
        assert(chars@.subrange(from as int, end as int).drop_last() =~= chars@.subrange(
            from as int,
            end - 1,
        ));
        end -= 1;
    }
    end
}

/// `s` without its leading white space.
pub fn trim_start(s: &str) -> (rest: &str)
    ensures
        rest@ == trimmed_start(s@),
{
    let chars = chars_of(s);
    let from = skip_white(&chars, 0, chars.len());
    assert(chars@.subrange(0, chars@.len() as int) =~= s@);
    s.substring_char(from, chars.len())
}

/// `s` without its trailing white space.
pub fn trim_end(s: &str) -> (rest: &str)
    ensures
        rest@ == trimmed_end(s@),
{
    let chars = chars_of(s);
    let to = skip_white_back(&chars, 0, chars.len());
    assert(chars@.subrange(0, chars@.len() as int) =~= s@);
    s.substring_char(0, to)
}

/// `s` without its leading and trailing white space.
pub fn trim(s: &str) -> (rest: &str)
    ensures
        rest@ == trimmed(s@),
{
    trim_end(trim_start(s))
}

/// `s` with every occurrence of `from` replaced by `to`.
pub fn replace(s: &str, from: &str, to: &str) -> (out: String)
    ensures
        out@ == replaced(s@, from@, to@),
{
    let chars = chars_of(s);
    let needle = chars_of(from);
    if needle.len() == 0 {
        return s.to_owned();
    }
    let mut out = String::new();
    let mut i: usize = 0;
    assert(s@.skip(0) =~= s@);
    while i < chars.len()
        invariant
            chars@ == s@,
            needle@ == from@,
            needle@.len() > 0,
            i <= chars@.len(),
            replaced(s@, from@, to@) == out@ + replaced(s@.skip(i as int), from@, to@),
        decreases chars@.len() - i,
    {
        let ghost rest = s@.skip(i as int);
        let ghost before = out@;
        proof {
            assert(is_at(s@, from@, i as int) == is_at(rest, from@, 0)) by {
                if i + from@.len() <= s@.len() {
                    assert(s@.subrange(i as int, i + from@.len()) =~= rest.subrange(
                        0,
                        from@.len() as int,
                    ));
                }
            }
        }
        if stands_at(&chars, &needle, i) {
            out.append(to);
            proof {
                assert(rest.skip(from@.len() as int) =~= s@.skip(i + from@.len()));
                assert(before + (to@ + replaced(rest.skip(from@.len() as int), from@, to@)) =~= (
                before + to@) + replaced(s@.skip(i + from@.len()), from@, to@));
            }
            i += needle.len();
        } else {
            out.push(chars[i]);
            proof {
                assert(rest.skip(1) =~= s@.skip(i + 1));
                assert(before + (seq![rest[0]] + replaced(rest.skip(1), from@, to@))
                    =~= before.push(chars@[i as int]) + replaced(s@.skip(i + 1), from@, to@));
            }
            i += 1;
        }
    }
    assert(s@.skip(i as int).len() == 0);
    assert(out@ + replaced(s@.skip(i as int), from@, to@) =~= out@);
    out
}

/// A piece is never longer than what it is cut from, and only empty there.
pub proof fn lemma_piece_len(s: Seq<char>, separator: char)
    ensures
        piece_len(s, separator) <= s.len(),
        s.len() > 0 ==> piece_len(s, separator) > 0,
    decreases s.len(),
{
    if s.len() > 0 {
        lemma_piece_len(s.skip(1), separator);
    }
}

/// A chunk in front comes out in front.
pub proof fn lemma_joined_front(first: Seq<char>, rest: Seq<Seq<char>>)
    ensures
        joined(seq![first] + rest) == first + joined(rest),
    decreases rest.len(),
{
    let all = seq![first] + rest;
    if rest.len() == 0 {
        assert(all.drop_last() =~= Seq::<Seq<char>>::empty());
        assert(joined(all.drop_last()) =~= Seq::<char>::empty());
        assert(all.last() == first);
        assert(joined(all) =~= first + joined(rest));
    } else {
        lemma_joined_front(first, rest.drop_last());
        assert(all.drop_last() =~= seq![first] + rest.drop_last());
        assert(joined(all) =~= first + joined(rest));
    }
}

/// Cutting a text loses nothing: the pieces together are the text.
pub proof fn law_pieces_join(s: Seq<char>, separator: char)
    ensures
        joined(pieces(s, separator)) == s,
    decreases s.len(),
{
    lemma_piece_len(s, separator);
    if s.len() > 0 {
        let len = piece_len(s, separator) as int;
        law_pieces_join(s.skip(len), separator);
        lemma_joined_front(s.take(len), pieces(s.skip(len), separator));
        assert(s.take(len) + s.skip(len) =~= s);
    }
}

/// `s` cut behind every `separator`.
pub fn split_inclusive(s: &str, separator: char) -> (list: Vec<String>)
    ensures
        texts(list@) == pieces(s@, separator),
{
    let chars = chars_of(s);
    let mut list: Vec<String> = Vec::new();
    let mut i: usize = 0;
    assert(s@.skip(0) =~= s@);
    assert(texts(list@) + pieces(s@, separator) =~= pieces(s@, separator));
    while i < chars.len()
        invariant
            chars@ == s@,
            i <= chars@.len(),
            texts(list@) + pieces(s@.skip(i as int), separator) == pieces(s@, separator),
        decreases chars@.len() - i,
    {
        let ghost rest = s@.skip(i as int);
        let mut j: usize = i;
        let mut open = true;
        while open && j < chars.len()
            invariant
                chars@ == s@,
                i <= j <= chars@.len(),
                i < chars@.len(),
                rest == s@.skip(i as int),
                open ==> piece_len(rest, separator) == (j - i) + piece_len(
                    s@.skip(j as int),
                    separator,
                ),
                !open ==> piece_len(rest, separator) == j - i,
            decreases chars@.len() - j,
        {
            if chars[j] == separator {
                open = false;
            }
            assert(s@.skip(j as int).skip(1) =~= s@.skip(j + 1));
            j += 1;
        }
        proof {
            lemma_piece_len(rest, separator);
            assert(rest.take(j - i) =~= s@.subrange(i as int, j as int));
            assert(rest.skip(j - i) =~= s@.skip(j as int));
        }
        let ghost before = texts(list@);
        list.push(string_of(&chars, i, j));
        proof {
            assert(texts(list@) =~= before.push(rest.take(j - i)));
            assert(before + (seq![rest.take(j - i)] + pieces(s@.skip(j as int), separator))
                =~= texts(list@) + pieces(s@.skip(j as int), separator));
        }
        i = j;
    }
    assert(texts(list@) + pieces(s@.skip(i as int), separator) =~= texts(list@));
    list
}

/// The lines of `s`, without their line ends.
pub fn lines_of(s: &str) -> (list: Vec<String>)
    ensures
        texts(list@) == lines(s@),
{
    let parts = split_inclusive(s, '\n');
    let mut list: Vec<String> = Vec::new();
    let mut i: usize = 0;
    while i < parts.len()
        invariant
            texts(parts@) == pieces(s@, '\n'),
            i <= parts@.len(),
            list@.len() == i,
            forall|k: int| 0 <= k < i ==> (#[trigger] list@[k])@ == unended(parts@[k]@),
        decreases parts@.len() - i,
    {
        let chars = chars_of(parts[i].as_str());
        let mut end: usize = chars.len();
        if end > 0 && chars[end - 1] == '\n' {
            end -= 1;
            if end > 0 && chars[end - 1] == '\r' {
                end -= 1;
            }
        }
        assert(chars@.subrange(0, end as int) =~= unended(parts@[i as int]@));
        list.push(string_of(&chars, 0, end));
        i += 1;
    }
    proof {
        assert forall|k: int| 0 <= k < list@.len() implies texts(list@)[k] == lines(s@)[k] by {
            assert(texts(parts@)[k] == parts@[k]@);
        }
        assert(texts(list@) =~= lines(s@));
    }
    list
}

/// All texts of a list, with `separator` between them.
pub fn join(list: &Vec<String>, separator: &str) -> (out: String)
    ensures
        out@ == separated(texts(list@), separator@),
{
    let ghost all = texts(list@);
    let mut out = String::new();
    let mut i: usize = 0;
    while i < list.len()
        invariant
            all == texts(list@),
            i <= list@.len(),
            out@ == separated(all.take(i as int), separator@),
        decreases list@.len() - i,
    {
        proof {
            assert(all.take(i + 1).drop_last() =~= all.take(i as int));
            assert(all[i as int] == list@[i as int]@);
            assert(i == 0 ==> out@ + all[0] =~= all[0]);
        }
        if i > 0 {
            out.append(separator);
        }
        out.append(list[i].as_str());
        i += 1;
    }
    assert(all.take(i as int) =~= all);
    out
}

/// Whether `a` comes before `b` in the order of their characters' numbers.
pub fn comes_before(a: &str, b: &str) -> (yes: bool)
    ensures
        yes == before(a@, b@),
{
    let left = chars_of(a);
    let right = chars_of(b);
    let mut i: usize = 0;
    assert(a@.skip(0) =~= a@);
    assert(b@.skip(0) =~= b@);
    loop
        invariant
            left@ == a@,
            right@ == b@,
            i <= left@.len(),
            i <= right@.len(),
            before(a@, b@) == before(a@.skip(i as int), b@.skip(i as int)),
        decreases left@.len() - i,
    {
        if i >= right.len() {
            return false;
        }
        if i >= left.len() {
            return true;
        }
        if left[i] != right[i] {
            return left[i] < right[i];
        }
        proof {
            assert(a@.skip(i as int).skip(1) =~= a@.skip(i + 1));
            assert(b@.skip(i as int).skip(1) =~= b@.skip(i + 1));
        }
        i += 1;
    }
}

/// The order of texts is a strict one.
pub proof fn lemma_before_strict(a: Seq<char>, b: Seq<char>)
    ensures
        !before(a, a),
        !(before(a, b) && before(b, a)),
        a != b ==> before(a, b) || before(b, a),
    decreases a.len(),
{
    if a.len() > 0 {
        lemma_before_strict(a.skip(1), a.skip(1));
        if b.len() > 0 {
            lemma_before_strict(a.skip(1), b.skip(1));
            if a[0] == b[0] && a.skip(1) == b.skip(1) {
                assert(a =~= seq![a[0]] + a.skip(1));
                assert(b =~= seq![b[0]] + b.skip(1));
            }
        }
    } else if b.len() == 0 {
        assert(a =~= b);
    }
}

/// The order of texts goes on from one to the next.
pub proof fn lemma_before_transitive(a: Seq<char>, b: Seq<char>, c: Seq<char>)
    requires
        before(a, b),
        before(b, c),
    ensures
        before(a, c),
    decreases a.len(),
{
    if a.len() > 0 && a[0] == b[0] && b[0] == c[0] {
        lemma_before_transitive(a.skip(1), b.skip(1), c.skip(1));
    }
}

/// `n` in decimal.
pub fn decimal_text(n: u64) -> (s: String)
    ensures
        s@ == decimal(n as nat),
    decreases n,
{
    let mut s = if n < 10 {
        String::new()
    } else {
        decimal_text(n / 10)
    };
    let d: u8 = (n % 10) as u8;
    s.push((48 + d) as char);
    assert(n < 10 ==> s@ =~= seq![digit(n as nat)]);
    s
}

/// A text trims to nothing exactly where it is all white space.
pub proof fn law_blank_texts_trim_to_nothing(s: Seq<char>)
    ensures
        trimmed(s).len() == 0 <==> (forall|i: int| 0 <= i < s.len() ==> is_white(#[trigger] s[i])),
{
    law_trimming_takes_only_white_space(s);
    let (a, b) = choose|a: int, b: int| #[trigger] is_trim(s, a, b);
    if a < b {
        assert(!is_white(s[a]));
    }
}

/// Whether the characters from `a` up to `b` are what is left of a text when
/// the white space at both ends is taken away, and nothing more.
pub open spec fn is_trim(s: Seq<char>, a: int, b: int) -> bool {
    &&& 0 <= a <= b <= s.len()
    &&& trimmed(s) == s.subrange(a, b)
    &&& forall|i: int| 0 <= i < a ==> is_white(#[trigger] s[i])
    &&& forall|i: int| b <= i < s.len() ==> is_white(#[trigger] s[i])
    &&& a < b ==> !is_white(s[a]) && !is_white(s[b - 1])
}

/// Trimming takes away the white space at both ends and nothing else.
pub proof fn law_trimming_takes_only_white_space(s: Seq<char>)
    ensures
        exists|a: int, b: int| #[trigger] is_trim(s, a, b),
{
    let a = lemma_trimmed_start(s);
    let rest = s.skip(a);
    let len = lemma_trimmed_end(rest);
    assert(rest.take(len) =~= s.subrange(a, a + len));
    assert forall|i: int| a + len <= i < s.len() implies is_white(#[trigger] s[i]) by {
        assert(rest[i - a] == s[i]);
    }
    if len > 0 {
        assert(rest[len - 1] == s[a + len - 1]);
        assert(rest[0] == s[a]);
    }
    assert(is_trim(s, a, a + len));
}

/// How many characters the trimming at the front takes away.
proof fn lemma_trimmed_start(s: Seq<char>) -> (a: int)
    ensures
        0 <= a <= s.len(),
        trimmed_start(s) == s.skip(a),
        forall|i: int| 0 <= i < a ==> is_white(#[trigger] s[i]),
        a < s.len() ==> !is_white(s[a]),
    decreases s.len(),
{
    if s.len() > 0 && is_white(s[0]) {
        let rest = s.drop_first();
        let a = lemma_trimmed_start(rest);
        assert(rest.skip(a) =~= s.skip(a + 1));
        assert forall|i: int| 0 <= i < a + 1 implies is_white(#[trigger] s[i]) by {
            if i > 0 {
                assert(rest[i - 1] == s[i]);
            }
        }
        if a < rest.len() {
            assert(rest[a] == s[a + 1]);
        }
        a + 1
    } else {
        assert(s.skip(0) =~= s);
        0
    }
}

/// How many characters the trimming at the end leaves.
proof fn lemma_trimmed_end(s: Seq<char>) -> (len: int)
    ensures
        0 <= len <= s.len(),
        trimmed_end(s) == s.take(len),
        forall|i: int| len <= i < s.len() ==> is_white(#[trigger] s[i]),
        len > 0 ==> !is_white(s[len - 1]),
    decreases s.len(),
{
    if s.len() > 0 && is_white(s.last()) {
        let rest = s.drop_last();
        let len = lemma_trimmed_end(rest);
        assert(rest.take(len) =~= s.take(len));
        assert forall|i: int| len <= i < s.len() implies is_white(#[trigger] s[i]) by {
            if i < rest.len() {
                assert(rest[i] == s[i]);
            }
        }
        len
    } else {
        assert(s.take(s.len() as int) =~= s);
        s.len() as int
    }
}

/// Texts with a separator between them: one alone is itself, and two lists
/// come out one behind the other, with one separator between.
pub proof fn law_separated_lists_append(
    first: Seq<Seq<char>>,
    second: Seq<Seq<char>>,
    separator: Seq<char>,
)
    ensures
        first.len() == 0 ==> separated(first, separator) == Seq::<char>::empty(),
        first.len() == 1 ==> separated(first, separator) == first[0],
        first.len() > 0 && second.len() > 0 ==> separated(first + second, separator) == separated(
            first,
            separator,
        ) + separator + separated(second, separator),
    decreases second.len(),
{
    if first.len() > 0 && second.len() > 0 {
        let all = first + second;
        assert(all.last() == second.last());
        assert(all.drop_last() =~= first + second.drop_last());
        if second.len() > 1 {
            law_separated_lists_append(first, second.drop_last(), separator);
            assert(separated(all, separator) =~= separated(first, separator) + separator
                + separated(second, separator));
        } else {
            assert(all.drop_last() =~= first);
            assert(separated(all, separator) =~= separated(first, separator) + separator
                + separated(second, separator));
        }
    }
}

/// Each text of a list stands in what the list is written as.
pub proof fn law_separated_lists_hold_each(list: Seq<Seq<char>>, separator: Seq<char>, i: int)
    requires
        0 <= i < list.len(),
    ensures
        occurs(separated(list, separator), list[i]),
    decreases list.len(),
{
    let whole = separated(list, separator);
    if list.len() == 1 {
        assert(whole.subrange(0, whole.len() as int) =~= list[i]);
        assert(is_at(whole, list[i], 0));
    } else if i == list.len() - 1 {
        let at = whole.len() - list[i].len();
        assert(whole.subrange(at, at + list[i].len()) =~= list[i]);
        assert(is_at(whole, list[i], at));
    } else {
        law_separated_lists_hold_each(list.drop_last(), separator, i);
        let before = separated(list.drop_last(), separator);
        let at = choose|at: int| #[trigger] is_at(before, list[i], at);
        assert(whole.subrange(at, at + list[i].len()) =~= before.subrange(
            at,
            at + list[i].len(),
        ));
        assert(is_at(whole, list[i], at));
    }
}

/// Trimming at the front takes away the white space in front of the first
/// other character, and no more.
pub proof fn law_leading_blanks_are_trimmed(s: Seq<char>, blank: int)
    requires
        0 <= blank < s.len(),
        forall|i: int| 0 <= i < blank ==> is_white(#[trigger] s[i]),
        !is_white(s[blank]),
    ensures
        trimmed_start(s) == s.skip(blank),
{
    let a = lemma_trimmed_start(s);
    if a < blank {
        assert(is_white(s[a]));
    }
    if blank < a {
        assert(is_white(s[blank]));
    }
}

/// What a text of digits stands for, read in base ten.
pub open spec fn digits_number(s: Seq<char>) -> int
    decreases s.len(),
{
    if s.len() == 0 {
        0
    } else {
        10 * digits_number(s.drop_last()) + (s.last() as int - '0' as int)
    }
}

/// A number in decimal is written in digits, without a zero in front unless
/// it is zero, and reads back as the same number.
pub proof fn law_decimals_read_back(n: nat)
    ensures
        decimal(n).len() > 0,
        forall|i: int| 0 <= i < decimal(n).len() ==> '0' <= #[trigger] decimal(n)[i] <= '9',
        n > 0 ==> decimal(n)[0] != '0',
        digits_number(decimal(n)) == n,
    decreases n,
{
    if n < 10 {
        let one = decimal(n);
        assert(one.drop_last() =~= Seq::<char>::empty());
        assert(digits_number(one.drop_last()) == 0);
        assert(one.last() == digit(n));
    } else {
        law_decimals_read_back(n / 10);
        let front = decimal(n / 10);
        assert(decimal(n).drop_last() =~= front);
        assert(decimal(n).last() == digit(n % 10));
        assert forall|i: int| 0 <= i < decimal(n).len() implies '0' <= #[trigger] decimal(n)[i]
            <= '9' by {
            if i < front.len() {
                assert(decimal(n)[i] == front[i]);
            }
        }
        assert(decimal(n)[0] == front[0]);
    }
}

/// Different numbers are written differently.
pub proof fn law_decimals_differ(n: nat, m: nat)
    requires
        n != m,
    ensures
        decimal(n) != decimal(m),
{
    law_decimals_read_back(n);
    law_decimals_read_back(m);
}

/// In ASCII lower case the letters from A to Z are those from a to z, and all
/// else is as it was.
pub proof fn law_ascii_lowering_keeps_the_rest(s: Seq<char>, i: int)
    requires
        0 <= i < s.len(),
    ensures
        ascii_lowered(s).len() == s.len(),
        'A' <= s[i] <= 'Z' ==> ascii_lowered(s)[i] as int - 'a' as int == s[i] as int - 'A' as int,
        !('A' <= s[i] <= 'Z') ==> ascii_lowered(s)[i] == s[i],
        ascii_lowered(ascii_lowered(s)) == ascii_lowered(s),
{
    assert(ascii_lowered(ascii_lowered(s)) =~= ascii_lowered(s));
}

/// Where a text does not hold what is to be replaced, it stays as it is.
pub proof fn law_nothing_to_replace(s: Seq<char>, from: Seq<char>, to: Seq<char>)
    requires
        !occurs(s, from),
    ensures
        replaced(s, from, to) == s,
    decreases s.len(),
{
    if s.len() > 0 && from.len() > 0 {
        assert(!is_at(s, from, 0));
        let rest = s.skip(1);
        if occurs(rest, from) {
            let i = choose|i: int| #[trigger] is_at(rest, from, i);
            assert(s.subrange(i + 1, i + 1 + from.len()) =~= rest.subrange(i, i + from.len()));
            assert(is_at(s, from, i + 1));
        }
        law_nothing_to_replace(rest, from, to);
        assert(seq![s[0]] + rest =~= s);
    }
}

/// What is to be replaced is replaced where it stands first, and then in the
/// rest: a part in front that it does not begin in stays.
pub proof fn law_first_place_is_replaced(
    head: Seq<char>,
    rest: Seq<char>,
    from: Seq<char>,
    to: Seq<char>,
)
    requires
        from.len() > 0,
        forall|k: int| 0 <= k < head.len() ==> !#[trigger] is_at(head + from + rest, from, k),
    ensures
        replaced(head + from + rest, from, to) == head + to + replaced(rest, from, to),
{
    let tail = from + rest;
    assert(head + from + rest =~= head + tail);
    lemma_replaced_passes(head, tail, from, to);
    assert(tail.subrange(0, from.len() as int) =~= from);
    assert(tail.skip(from.len() as int) =~= rest);
    assert(replaced(tail, from, to) == to + replaced(rest, from, to));
    assert(head + (to + replaced(rest, from, to)) =~= head + to + replaced(rest, from, to));
}

/// A part that nothing to replace begins in stays in front.
pub proof fn lemma_replaced_passes(head: Seq<char>, tail: Seq<char>, from: Seq<char>, to: Seq<char>)
    requires
        forall|k: int| 0 <= k < head.len() ==> !#[trigger] is_at(head + tail, from, k),
    ensures
        replaced(head + tail, from, to) == head + replaced(tail, from, to),
    decreases head.len(),
{
    let all = head + tail;
    if head.len() > 0 && from.len() > 0 {
        assert(!is_at(all, from, 0));
        let shorter = head.skip(1);
        assert(all.skip(1) =~= shorter + tail);
        assert forall|k: int| 0 <= k < shorter.len() implies !#[trigger] is_at(
            shorter + tail,
            from,
            k,
        ) by {
            if is_at(shorter + tail, from, k) {
                assert(all.subrange(k + 1, k + 1 + from.len()) =~= (shorter + tail).subrange(
                    k,
                    k + from.len(),
                ));
                assert(is_at(all, from, k + 1));
            }
        }
        lemma_replaced_passes(shorter, tail, from, to);
        assert(all[0] == head[0]);
        assert(seq![head[0]] + (shorter + replaced(tail, from, to)) =~= head + replaced(
            tail,
            from,
            to,
        ));
    } else if head.len() == 0 {
        assert(all =~= tail);
        assert(head + replaced(tail, from, to) =~= replaced(tail, from, to));
    }
}

/// A text in lines: a line ends at a line feed, with a carriage return in
/// front of it or not, and a text without line feeds is one line.
pub proof fn law_lines_end_at_line_feeds(line: Seq<char>, rest: Seq<char>)
    requires
        forall|i: int| 0 <= i < line.len() ==> #[trigger] line[i] != '\n',
    ensures
        line.len() > 0 ==> lines(line) == seq![line],
        lines(Seq::<char>::empty()).len() == 0,
        lines(line + seq!['\n'] + rest) == seq![
            if line.len() > 0 && line.last() == '\r' {
                line.drop_last()
            } else {
                line
            },
        ] + lines(rest),
{
    let none = Seq::<char>::empty();
    assert(pieces(none, '\n') =~= seq![]);
    assert(lines(none) =~= seq![]);
    if line.len() > 0 {
        lemma_last_piece(line, '\n');
        assert(line.take(line.len() as int) =~= line);
        assert(line.skip(line.len() as int) =~= none);
        assert(pieces(line, '\n') =~= seq![line]);
        assert(line.last() != '\n');
        assert(lines(line) =~= seq![line]);
    }
    let all = line + seq!['\n'] + rest;
    lemma_first_piece(line, rest, '\n');
    let len = line.len() as int + 1;
    let first = line + seq!['\n'];
    assert(all.take(len) =~= first);
    assert(all.skip(len) =~= rest);
    assert(pieces(all, '\n') =~= seq![first] + pieces(rest, '\n'));
    assert(first.drop_last() =~= line);
    assert(lines(all) =~= seq![unended(first)] + lines(rest));
}

/// A text without separators is one piece.
proof fn lemma_last_piece(s: Seq<char>, separator: char)
    requires
        forall|i: int| 0 <= i < s.len() ==> #[trigger] s[i] != separator,
    ensures
        piece_len(s, separator) == s.len(),
    decreases s.len(),
{
    if s.len() > 0 {
        assert(s[0] != separator);
        lemma_last_piece(s.skip(1), separator);
    }
}

/// The first piece ends behind the first separator.
proof fn lemma_first_piece(line: Seq<char>, rest: Seq<char>, separator: char)
    requires
        forall|i: int| 0 <= i < line.len() ==> #[trigger] line[i] != separator,
    ensures
        piece_len(line + seq![separator] + rest, separator) == line.len() + 1,
    decreases line.len(),
{
    let all = line + seq![separator] + rest;
    if line.len() > 0 {
        assert(all[0] == line[0]);
        assert(all.skip(1) =~= line.skip(1) + seq![separator] + rest);
        lemma_first_piece(line.skip(1), rest, separator);
    } else {
        assert(all[0] == separator);
    }
}

/// Chunks are put together in their order.
pub proof fn law_chunks_join_in_order(first: Seq<Seq<char>>, second: Seq<Seq<char>>)
    ensures
        joined(first + second) == joined(first) + joined(second),
        first.len() == 0 ==> joined(first) == Seq::<char>::empty(),
        first.len() == 1 ==> joined(first) == first[0],
    decreases second.len(),
{
    if first.len() == 1 {
        assert(joined(first.drop_last()) =~= Seq::<char>::empty());
        assert(joined(first) =~= first[0]);
    }
    if second.len() == 0 {
        assert(first + second =~= first);
        assert(joined(first) + joined(second) =~= joined(first));
    } else {
        law_chunks_join_in_order(first, second.drop_last());
        assert((first + second).drop_last() =~= first + second.drop_last());
        assert((first + second).last() == second.last());
        assert(joined(first + second) =~= joined(first) + joined(second));
    }
}

/// What is found behind a part in front is what is found without it.
pub proof fn lemma_index_of_behind(front: Seq<char>, s: Seq<char>, needle: Seq<char>, from: int)
    requires
        0 <= from,
    ensures
        index_of(front + s, needle, front.len() + from) == match index_of(s, needle, from) {
            Some(at) => Some(front.len() + at),
            None => None,
        },
    decreases s.len() + 1 - from,
{
    let all = front + s;
    let k = front.len() + from;
    if from + needle.len() <= s.len() {
        assert(all.subrange(k, k + needle.len()) =~= s.subrange(from, from + needle.len()));
        if !is_at(s, needle, from) {
            lemma_index_of_behind(front, s, needle, from + 1);
        }
    }
}

/// In ASCII, white space is the tab, the line feed, the vertical tab, the form
/// feed, the carriage return and the space.
pub proof fn law_ascii_white_space(c: char)
    requires
        c <= '\u{7f}',
    ensures
        is_white(c) <==> c == '\t' || c == '\n' || c == '\u{b}' || c == '\u{c}' || c == '\r' || c
            == ' ',
{
}

/// A line without a line feed at its end stays, and one with it loses the line
/// feed and a carriage return in front of it.
pub proof fn law_line_ends_are_taken_away(line: Seq<char>)
    ensures
        unended(Seq::<char>::empty()) == Seq::<char>::empty(),
        line.len() > 0 && line.last() != '\n' ==> unended(line) == line,
        line.len() == 0 || line.last() != '\r' ==> unended(line + seq!['\n']) == line,
        unended(line + seq!['\r', '\n']) == line,
{
    assert((line + seq!['\n']).drop_last() =~= line);
    let ended = line + seq!['\r', '\n'];
    assert(ended.drop_last() =~= line + seq!['\r']);
    assert(ended.drop_last().drop_last() =~= line);
}

/// One text comes before another where the first character in which they
/// differ is smaller, or where it is the front of the other.
pub proof fn law_texts_are_ordered_by_their_first_difference(
    front: Seq<char>,
    a: Seq<char>,
    b: Seq<char>,
)
    ensures
        before(front + a, front + b) == before(a, b),
        a.len() > 0 && b.len() > 0 && a[0] < b[0] ==> before(a, b),
        a.len() > 0 && b.len() > 0 && a[0] > b[0] ==> !before(a, b),
        a.len() == 0 ==> (before(a, b) <==> b.len() > 0),
        b.len() == 0 ==> !before(a, b),
    decreases front.len(),
{
    if front.len() > 0 {
        law_texts_are_ordered_by_their_first_difference(front.skip(1), a, b);
        assert((front + a).skip(1) =~= front.skip(1) + a);
        assert((front + b).skip(1) =~= front.skip(1) + b);
        assert((front + a)[0] == front[0] && (front + b)[0] == front[0]);
    } else {
        assert(front + a =~= a);
        assert(front + b =~= b);
    }
}

}
