//! Putting modifier lines into a build twice: blocks of the one game compose,
//! the input of the other is refused.

use vstd::prelude::*;

use crate::build_xml::{
    blanks_end, config_section, end_tag, ends_name, escaped, expanded, injected, is_blank,
    is_closed, is_markup, law_escaped_text_holds_no_markup, law_injected_builds_hold_the_lines,
    mod_payload, mod_text, no_mods, open_tag, spliced, with_config, with_root, with_sets, OpenTag,
};
use crate::text::{index_of, is_at, lemma_index_of_first, occurs, separated, trimmed};
use crate::toolkit::Game;

verus! {

/// Whether a name holds nothing that ends or begins a tag.
spec fn is_plain(name: Seq<char>) -> bool {
    &&& name.len() > 0
    &&& forall|k: int|
        0 <= k < name.len() ==> #[trigger] name[k] != '<' && name[k] != '>' && name[k] != '/'
            && !is_blank(name[k])
}

/// Whether a text stands at a position, character by character.
proof fn lemma_at(s: Seq<char>, needle: Seq<char>, i: int)
    ensures
        is_at(s, needle, i) <==> (0 <= i && i + needle.len() <= s.len() && forall|k: int|
            0 <= k < needle.len() ==> s[i + k] == #[trigger] needle[k]),
{
    if is_at(s, needle, i) {
        assert forall|k: int| 0 <= k < needle.len() implies s[i + k] == #[trigger] needle[k] by {
            assert(s.subrange(i, i + needle.len())[k] == needle[k]);
        }
    }
    if 0 <= i && i + needle.len() <= s.len() && (forall|k: int|
        0 <= k < needle.len() ==> s[i + k] == #[trigger] needle[k]) {
        assert(s.subrange(i, i + needle.len()) =~= needle);
    }
}

/// Whether `<name` stands at a position, with a character that ends the name.
spec fn opens(s: Seq<char>, name: Seq<char>, i: int) -> bool {
    &&& 0 <= i
    &&& i + 1 + name.len() < s.len()
    &&& s[i] == '<'
    &&& forall|k: int| 0 <= k < name.len() ==> s[i + 1 + k] == #[trigger] name[k]
    &&& ends_name(s[i + 1 + name.len()])
}

/// Whether `</name`, blanks and `>` stand at a position, the last at `gt`.
spec fn closes_at(s: Seq<char>, name: Seq<char>, i: int, gt: int) -> bool {
    &&& 0 <= i
    &&& i + 2 + name.len() <= gt < s.len()
    &&& s[i] == '<'
    &&& s[i + 1] == '/'
    &&& forall|k: int| 0 <= k < name.len() ==> s[i + 2 + k] == #[trigger] name[k]
    &&& forall|k: int| i + 2 + name.len() <= k < gt ==> is_blank(#[trigger] s[k])
    &&& s[gt] == '>'
}

/// Whether an end tag stands at a position.
spec fn closes(s: Seq<char>, name: Seq<char>, i: int) -> bool {
    exists|gt: int| #[trigger] closes_at(s, name, i, gt)
}

proof fn lemma_is_open(s: Seq<char>, name: Seq<char>, i: int)
    ensures
        opens(s, name, i) <==> (is_at(s, seq!['<'] + name, i) && i + 1 + name.len() < s.len()
            && ends_name(s[i + 1 + name.len()])),
{
    let needle = seq!['<'] + name;
    lemma_at(s, needle, i);
    if opens(s, name, i) {
        assert forall|k: int| 0 <= k < needle.len() implies s[i + k] == #[trigger] needle[k] by {
            if k > 0 {
                assert(needle[k] == name[k - 1]);
            }
        }
    }
    if is_at(s, needle, i) {
        assert(needle[0] == '<');
        assert forall|k: int| 0 <= k < name.len() implies s[i + 1 + k] == #[trigger] name[k] by {
            assert(needle[k + 1] == name[k]);
        }
    }
}

proof fn lemma_blanks(s: Seq<char>, i: int)
    requires
        0 <= i <= s.len(),
    ensures
        i <= blanks_end(s, i) <= s.len(),
        forall|k: int| i <= k < blanks_end(s, i) ==> is_blank(#[trigger] s[k]),
        blanks_end(s, i) < s.len() ==> !is_blank(s[blanks_end(s, i)]),
    decreases s.len() - i,
{
    if i < s.len() && is_blank(s[i]) {
        lemma_blanks(s, i + 1);
        assert(blanks_end(s, i) == blanks_end(s, i + 1));
        assert forall|k: int| i <= k < blanks_end(s, i) implies is_blank(#[trigger] s[k]) by {
            if k > i {
                assert(i + 1 <= k < blanks_end(s, i + 1));
            }
        }
    }
}

proof fn lemma_is_end(s: Seq<char>, name: Seq<char>, i: int)
    ensures
        closes(s, name, i) <==> (is_at(s, seq!['<', '/'] + name, i) && blanks_end(
            s,
            i + 2 + name.len(),
        ) < s.len() && s[blanks_end(s, i + 2 + name.len())] == '>'),
{
    let needle = seq!['<', '/'] + name;
    lemma_at(s, needle, i);
    assert(needle[0] == '<' && needle[1] == '/');
    let behind = i + 2 + name.len();
    if closes(s, name, i) {
        let gt = choose|gt: int| #[trigger] closes_at(s, name, i, gt);
        assert forall|k: int| 0 <= k < needle.len() implies s[i + k] == #[trigger] needle[k] by {
            if k > 1 {
                assert(needle[k] == name[k - 2]);
            }
        }
        lemma_blanks(s, behind);
        let end = blanks_end(s, behind);
        if end < gt {
            assert(is_blank(s[end]));
        }
        if gt < end {
            assert(is_blank(s[gt]));
        }
    }
    if is_at(s, needle, i) && blanks_end(s, behind) < s.len() && s[blanks_end(s, behind)] == '>' {
        lemma_blanks(s, behind);
        assert forall|k: int| 0 <= k < name.len() implies s[i + 2 + k] == #[trigger] name[k] by {
            assert(needle[k + 2] == name[k]);
        }
        assert(closes_at(s, name, i, blanks_end(s, behind)));
    }
}

/// `open_tag` is the first place that opens, up to the next `>`.
proof fn lemma_open_tag(s: Seq<char>, name: Seq<char>, from: int)
    requires
        0 <= from,
        is_plain(name),
    ensures
        match open_tag(s, name, from) {
            Some(tag) => {
                &&& from <= tag.start
                &&& opens(s, name, tag.start)
                &&& forall|j: int| from <= j < tag.start ==> !#[trigger] opens(s, name, j)
                &&& tag.start + 1 + name.len() < tag.after <= s.len()
                &&& s[tag.after - 1] == '>'
                &&& forall|k: int|
                    tag.start + 1 + name.len() <= k < tag.after - 1 ==> #[trigger] s[k] != '>'
                &&& tag.closed == (s[tag.after - 2] == '/')
            },
            None => forall|i: int, k: int|
                from <= i && #[trigger] opens(s, name, i) && i + 1 + name.len() <= k < s.len()
                    ==> #[trigger] s[k] != '>',
        },
    decreases s.len() - from,
{
    let needle = seq!['<'] + name;
    lemma_index_of_first(s, needle, from);
    assert forall|j: int| #[trigger] opens(s, name, j) implies is_at(s, needle, j) by {
        lemma_is_open(s, name, j);
    }
    match index_of(s, needle, from) {
        None => {},
        Some(start) => {
            let after = start + 1 + name.len();
            lemma_is_open(s, name, start);
            if after < s.len() && ends_name(s[after]) {
                lemma_index_of_first(s, seq!['>'], after);
                assert forall|k: int| after <= k < s.len() implies is_at(s, seq!['>'], k) == (
                #[trigger] s[k] == '>') by {
                    lemma_at(s, seq!['>'], k);
                    assert(seq!['>'][0] == '>');
                }
                if let Some(gt) = index_of(s, seq!['>'], after) {
                    assert(is_at(s, seq!['>'], gt));
                    assert(s[gt] == '>');
                    assert forall|k: int| after <= k < gt implies #[trigger] s[k] != '>' by {
                        assert(!is_at(s, seq!['>'], k));
                    }
                } else {
                    assert forall|i: int, k: int|
                        from <= i && #[trigger] opens(s, name, i) && i + 1 + name.len() <= k
                            < s.len() implies #[trigger] s[k] != '>' by {
                        assert(is_at(s, needle, i));
                        assert(start <= i);
                        assert(!is_at(s, seq!['>'], k));
                    }
                }
            } else {
                lemma_open_tag(s, name, after);
                // Within a name nothing opens.
                assert forall|j: int| from <= j < after implies !#[trigger] opens(s, name, j) by {
                    if opens(s, name, j) {
                        assert(is_at(s, needle, j));
                        assert(start <= j);
                        if start < j {
                            lemma_at(s, needle, start);
                            assert(needle[j - start] == name[j - start - 1]);
                        }
                    }
                }
            }
        },
    }
}

/// `end_tag` is the first place that closes.
proof fn lemma_end_tag(s: Seq<char>, name: Seq<char>, from: int)
    requires
        0 <= from,
        is_plain(name),
    ensures
        match end_tag(s, name, from) {
            Some(at) => from <= at && closes(s, name, at) && forall|j: int|
                from <= j < at ==> !#[trigger] closes(s, name, j),
            None => forall|j: int| from <= j ==> !#[trigger] closes(s, name, j),
        },
    decreases s.len() - from,
{
    let needle = seq!['<', '/'] + name;
    lemma_index_of_first(s, needle, from);
    assert forall|j: int| #[trigger] closes(s, name, j) implies is_at(s, needle, j) by {
        lemma_is_end(s, name, j);
    }
    if let Some(start) = index_of(s, needle, from) {
        let after = start + 2 + name.len();
        lemma_is_end(s, name, start);
        if !(blanks_end(s, after) < s.len() && s[blanks_end(s, after)] == '>') {
            lemma_end_tag(s, name, after);
            assert forall|j: int| from <= j < after implies !#[trigger] closes(s, name, j) by {
                if closes(s, name, j) {
                    assert(is_at(s, needle, j));
                    assert(start <= j);
                    if start < j {
                        lemma_at(s, needle, start);
                        lemma_at(s, needle, j);
                        assert(needle[0] == '<');
                        assert(needle[1] == '/');
                        if j - start >= 2 {
                            assert(needle[j - start] == name[j - start - 2]);
                        }
                    }
                }
            }
        }
    }
}

/// What opens first, up to its `>`, is the open tag.
proof fn lemma_open_tag_is(s: Seq<char>, name: Seq<char>, from: int, start: int, gt: int)
    requires
        is_plain(name),
        0 <= from <= start,
        opens(s, name, start),
        forall|j: int| from <= j < start ==> !#[trigger] opens(s, name, j),
        start + 1 + name.len() <= gt < s.len(),
        s[gt] == '>',
        forall|k: int| start + 1 + name.len() <= k < gt ==> #[trigger] s[k] != '>',
    ensures
        open_tag(s, name, from) == Some(
            OpenTag { start, after: gt + 1, closed: s[gt - 1] == '/' },
        ),
{
    lemma_open_tag(s, name, from);
    let tag = open_tag(s, name, from)->0;
    assert(tag.start == start);
    let last = tag.after - 1;
    if last < gt {
        assert(s[last] != '>');
    }
    if gt < last {
        assert(s[gt] != '>');
    }
}

/// What closes first is the end tag.
proof fn lemma_end_tag_is(s: Seq<char>, name: Seq<char>, from: int, at: int)
    requires
        is_plain(name),
        0 <= from <= at,
        closes(s, name, at),
        forall|j: int| from <= j < at ==> !#[trigger] closes(s, name, j),
    ensures
        end_tag(s, name, from) == Some(at),
{
    lemma_end_tag(s, name, from);
}

/// Opening looks forward only.
proof fn lemma_opens_shift(front: Seq<char>, t: Seq<char>, name: Seq<char>, i: int)
    requires
        0 <= i,
    ensures
        opens(front + t, name, front.len() + i) == opens(t, name, i),
{
    let s = front + t;
    let n = front.len() as int;
    if i + 1 + name.len() < t.len() {
        assert(s[n + i] == t[i]);
        assert(s[n + i + 1 + name.len()] == t[i + 1 + name.len()]);
        assert forall|k: int| 0 <= k < name.len() implies s[n + i + 1 + k] == t[i + 1 + k]
            && #[trigger] name[k] == name[k] by {}
    }
}

/// Closing looks forward only.
proof fn lemma_closes_at_shift(front: Seq<char>, t: Seq<char>, name: Seq<char>, i: int, gt: int)
    requires
        0 <= i,
    ensures
        closes_at(front + t, name, front.len() + i, front.len() + gt) == closes_at(t, name, i, gt),
{
    let s = front + t;
    let n = front.len() as int;
    if i + 2 + name.len() <= gt < t.len() {
        assert(s[n + i] == t[i]);
        assert(s[n + i + 1] == t[i + 1]);
        assert(s[n + gt] == t[gt]);
        assert forall|k: int| 0 <= k < name.len() implies s[n + i + 2 + k] == t[i + 2 + k]
            && #[trigger] name[k] == name[k] by {}
        if closes_at(t, name, i, gt) {
            assert forall|k: int| n + i + 2 + name.len() <= k < n + gt implies is_blank(
                #[trigger] s[k],
            ) by {
                assert(s[k] == t[k - n]);
            }
        }
        if closes_at(s, name, n + i, n + gt) {
            assert forall|k: int| i + 2 + name.len() <= k < gt implies is_blank(
                #[trigger] t[k],
            ) by {
                assert(s[n + k] == t[k]);
            }
        }
    }
}

proof fn lemma_marks_shift(front: Seq<char>, t: Seq<char>, name: Seq<char>, i: int)
    requires
        0 <= i,
    ensures
        opens(front + t, name, front.len() + i) == opens(t, name, i),
        closes(front + t, name, front.len() + i) == closes(t, name, i),
{
    lemma_opens_shift(front, t, name, i);
    if closes(front + t, name, front.len() + i) {
        let gt = choose|gt: int| #[trigger] closes_at(front + t, name, front.len() + i, gt);
        lemma_closes_at_shift(front, t, name, i, gt - front.len());
    }
    if closes(t, name, i) {
        let gt = choose|gt: int| #[trigger] closes_at(t, name, i, gt);
        lemma_closes_at_shift(front, t, name, i, gt);
    }
}

proof fn lemma_open_tag_shift(front: Seq<char>, t: Seq<char>, name: Seq<char>, c: int)
    requires
        0 <= c,
        is_plain(name),
    ensures
        open_tag(front + t, name, front.len() + c) == match open_tag(t, name, c) {
            Some(tag) => Some(
                OpenTag {
                    start: front.len() + tag.start,
                    after: front.len() + tag.after,
                    closed: tag.closed,
                },
            ),
            None => None,
        },
{
    let s = front + t;
    let n = front.len() as int;
    lemma_open_tag(t, name, c);
    lemma_open_tag(s, name, n + c);
    match open_tag(t, name, c) {
        Some(tag) => {
            lemma_marks_shift(front, t, name, tag.start);
            assert forall|j: int| n + c <= j < n + tag.start implies !#[trigger] opens(
                s,
                name,
                j,
            ) by {
                lemma_marks_shift(front, t, name, j - n);
            }
            assert forall|k: int| n + tag.start + 1 + name.len() <= k < n + tag.after
                - 1 implies #[trigger] s[k] != '>' by {
                assert(s[k] == t[k - n]);
            }
            lemma_open_tag_is(s, name, n + c, n + tag.start, n + tag.after - 1);
            assert(s[n + tag.after - 2] == t[tag.after - 2]);
        },
        None => {
            if let Some(tag) = open_tag(s, name, n + c) {
                lemma_marks_shift(front, t, name, tag.start - n);
                assert(t[tag.after - 1 - n] == s[tag.after - 1]);
            }
        },
    }
}

proof fn lemma_end_tag_shift(front: Seq<char>, t: Seq<char>, name: Seq<char>, c: int)
    requires
        0 <= c,
        is_plain(name),
    ensures
        end_tag(front + t, name, front.len() + c) == match end_tag(t, name, c) {
            Some(at) => Some(front.len() + at),
            None => None,
        },
{
    let s = front + t;
    let n = front.len() as int;
    lemma_end_tag(t, name, c);
    lemma_end_tag(s, name, n + c);
    match end_tag(t, name, c) {
        Some(at) => {
            lemma_marks_shift(front, t, name, at);
            assert forall|j: int| n + c <= j < n + at implies !#[trigger] closes(s, name, j) by {
                lemma_marks_shift(front, t, name, j - n);
            }
            lemma_end_tag_is(s, name, n + c, n + at);
        },
        None => {
            if let Some(at) = end_tag(s, name, n + c) {
                lemma_marks_shift(front, t, name, at - n);
            }
        },
    }
}

proof fn lemma_names()
    ensures
        is_plain("ConfigSet"@),
        is_plain("Config"@),
        is_plain("PathOfBuilding"@),
        is_plain("PathOfBuilding2"@),
        "ConfigSet"@.len() == 9,
        "Config"@.len() == 6,
        "ConfigSet"@[0] == 'C' && "ConfigSet"@[1] == 'o' && "ConfigSet"@[6] == 'S',
        "Config"@[0] == 'C' && "Config"@[1] == 'o',
        "PathOfBuilding"@[0] == 'P',
        "PathOfBuilding2"@[0] == 'P',
{
    reveal_strlit("ConfigSet");
    reveal_strlit("Config");
    reveal_strlit("PathOfBuilding");
    reveal_strlit("PathOfBuilding2");
}

/// Putting in looks forward only.
proof fn lemma_sets_shift(front: Seq<char>, t: Seq<char>, payload: Seq<char>, c: int)
    requires
        0 <= c <= t.len(),
    ensures
        with_sets(front + t, payload, front.len() + c) == with_sets(t, payload, c),
    decreases t.len() - c,
{
    let s = front + t;
    let n = front.len() as int;
    lemma_names();
    lemma_open_tag(t, "ConfigSet"@, c);
    lemma_open_tag_shift(front, t, "ConfigSet"@, c);
    assert(s.skip(n + c) =~= t.skip(c));
    if let Some(tag) = open_tag(t, "ConfigSet"@, c) {
        if tag.closed {
            lemma_sets_shift(front, t, payload, tag.after);
            assert(s.subrange(n + c, n + tag.after - 2) =~= t.subrange(c, tag.after - 2));
        } else {
            lemma_end_tag(t, "ConfigSet"@, tag.after);
            lemma_end_tag_shift(front, t, "ConfigSet"@, tag.after);
            if let Some(end) = end_tag(t, "ConfigSet"@, tag.after) {
                let gt = choose|gt: int| #[trigger] closes_at(t, "ConfigSet"@, end, gt);
                lemma_sets_shift(front, t, payload, end);
                assert(s.subrange(n + c, n + end) =~= t.subrange(c, end));
            }
        }
    }
}

/// Whether a text is markup in which no tag of the config begins: each `<` in
/// it begins a name with `Cu`, or the end of such an element.
#[verifier::opaque]
spec fn is_inert(p: Seq<char>) -> bool {
    &&& p.len() > 0
    &&& p[0] == '<'
    &&& p.last() == '>'
    &&& forall|i: int|
        0 <= i < p.len() && #[trigger] p[i] == '<' ==> i + 3 < p.len() && ((p[i + 1] == 'C' && p[i
            + 2] == 'u') || (p[i + 1] == '/' && p[i + 2] == 'C' && p[i + 3] == 'u'))
}

/// Whether a text stands at a position.
spec fn stands(s: Seq<char>, p: Seq<char>, at: int) -> bool {
    0 <= at && at + p.len() <= s.len() && forall|k: int|
        at <= k < at + p.len() ==> #[trigger] s[k] == p[k - at]
}

proof fn lemma_inert(s: Seq<char>, p: Seq<char>, at: int, name: Seq<char>, i: int)
    requires
        is_inert(p),
        stands(s, p, at),
        at <= i < at + p.len(),
        name.len() >= 2,
        name[0] == 'C',
        name[1] == 'o',
    ensures
        !opens(s, name, i),
        !closes(s, name, i),
{
    reveal(is_inert);
    assert(s[i] == p[i - at]);
    if p[i - at] == '<' {
        assert(s[i + 1] == p[i - at + 1]);
        assert(s[i + 2] == p[i - at + 2]);
        assert(s[i + 3] == p[i - at + 3]);
        if opens(s, name, i) {
            assert(s[i + 1 + 0] == name[0]);
            assert(s[i + 1 + 1] == name[1]);
        }
        if closes(s, name, i) {
            let gt = choose|gt: int| #[trigger] closes_at(s, name, i, gt);
            assert(s[i + 2 + 0] == name[0]);
            assert(s[i + 2 + 1] == name[1]);
        }
    }
}

/// A front in which no set begins stays as it is.
#[verifier::rlimit(40)]
proof fn lemma_sets_front(front: Seq<char>, t: Seq<char>, payload: Seq<char>)
    requires
        forall|i: int| 0 <= i < front.len() ==> !#[trigger] opens(front + t, "ConfigSet"@, i),
        with_sets(t, payload, 0) is Ok,
    ensures
        with_sets(front + t, payload, 0) == Ok::<(Seq<char>, nat), Seq<char>>(
            (front + with_sets(t, payload, 0)->Ok_0.0, with_sets(t, payload, 0)->Ok_0.1),
        ),
{
    let s = front + t;
    let n = front.len() as int;
    let name = "ConfigSet"@;
    lemma_names();
    lemma_open_tag(t, name, 0);
    lemma_open_tag(s, name, 0);
    lemma_open_tag(s, name, n);
    lemma_open_tag_shift(front, t, name, 0);
    match open_tag(t, name, 0) {
        None => {
            if let Some(tag) = open_tag(s, name, 0) {
                assert(n <= tag.start);
                assert(s[tag.after - 1] == '>');
            }
            assert(s.skip(0) =~= front + t.skip(0));
        },
        Some(tag) => {
            lemma_open_tag_is(s, name, 0, n + tag.start, n + tag.after - 1);
            assert(open_tag(s, name, 0) == open_tag(s, name, n));
            if tag.closed {
                lemma_sets_shift(front, t, payload, tag.after);
                let rest = with_sets(t, payload, tag.after)->Ok_0.0;
                assert(s.subrange(0, n + tag.after - 2) =~= front + t.subrange(0, tag.after - 2));
                assert(s.subrange(0, n + tag.after - 2) + seq!['>'] + payload + "</ConfigSet>"@
                    + rest =~= front + (t.subrange(0, tag.after - 2) + seq!['>'] + payload
                    + "</ConfigSet>"@ + rest));
            } else {
                lemma_end_tag(t, name, tag.after);
                lemma_end_tag_shift(front, t, name, tag.after);
                let end = end_tag(t, name, tag.after)->0;
                let gt = choose|gt: int| #[trigger] closes_at(t, name, end, gt);
                lemma_sets_shift(front, t, payload, end);
                let rest = with_sets(t, payload, end)->Ok_0.0;
                assert(s.subrange(0, n + end) =~= front + t.subrange(0, end));
                assert(s.subrange(0, n + end) + payload + rest =~= front + (t.subrange(0, end)
                    + payload + rest));
            }
        },
    }
}

/// An end tag in front of the cursor stays as it is.
proof fn lemma_rest_begins(s: Seq<char>, payload: Seq<char>, end: int, gt: int)
    requires
        closes_at(s, "ConfigSet"@, end, gt),
        with_sets(s, payload, end) is Ok,
    ensures
        closes_at(with_sets(s, payload, end)->Ok_0.0, "ConfigSet"@, 0, gt - end),
{
    let name = "ConfigSet"@;
    lemma_names();
    lemma_open_tag(s, name, end);
    let rest = with_sets(s, payload, end)->Ok_0.0;
    if let Some(tag) = open_tag(s, name, end) {
        // Nothing opens within the end tag.
        if tag.start <= gt {
            let k = tag.start - end;
            if k == 0 {
                assert(s[end + 1 + 0] == name[0]);
            } else if 2 <= k < 2 + name.len() {
                assert(s[end + 2 + (k - 2)] == name[k - 2]);
            }
        }
        if !tag.closed {
            lemma_end_tag(s, name, tag.after);
        }
    }
    assert(rest.len() > gt - end);
    assert forall|k: int| 0 <= k <= gt - end implies #[trigger] rest[k] == s[end + k] by {}
    assert forall|k: int| 0 <= k < name.len() implies rest[0 + 2 + k] == #[trigger] name[k] by {
        assert(s[end + 2 + k] == name[k]);
        assert(rest[2 + k] == s[end + (2 + k)]);
    }
    assert forall|k: int| 2 + name.len() <= k < gt - end implies is_blank(#[trigger] rest[k]) by {
        assert(rest[k] == s[end + k]);
    }
}

/// Whether a text holds two others.
spec fn holds_both(s: Seq<char>, first: Seq<char>, second: Seq<char>) -> bool {
    occurs(s, first) && occurs(s, second)
}

proof fn lemma_within(front: Seq<char>, middle: Seq<char>, back: Seq<char>)
    ensures
        occurs(front + middle + back, middle),
{
    let all = front + middle + back;
    let n = front.len() as int;
    assert(all.subrange(n, n + middle.len()) =~= middle);
    assert(is_at(all, middle, n));
}

/// Whether putting `second` into what `first` was put into succeeds, with both
/// in the result where there are sets.
spec fn composes(
    done: Result<(Seq<char>, nat), Seq<char>>,
    first: Seq<char>,
    second: Seq<char>,
) -> bool {
    done is Ok ==> {
        let again = with_sets(done->Ok_0.0, second, 0);
        &&& again is Ok
        &&& done->Ok_0.1 > 0 ==> again->Ok_0.1 > 0 && holds_both(again->Ok_0.0, first, second)
        &&& done->Ok_0.1 == 0 ==> again->Ok_0.1 == 0
    }
}

/// Behind the end tag of a set, sets are as they are.
proof fn lemma_sets_behind_end(rest: Seq<char>, payload: Seq<char>)
    requires
        with_sets(rest, payload, 0) is Ok,
    ensures
        with_sets("</ConfigSet>"@ + rest, payload, 0) == Ok::<(Seq<char>, nat), Seq<char>>(
            (
                "</ConfigSet>"@ + with_sets(rest, payload, 0)->Ok_0.0,
                with_sets(rest, payload, 0)->Ok_0.1,
            ),
        ),
        forall|i: int|
            0 <= i < 12 ==> !#[trigger] opens("</ConfigSet>"@ + rest, "ConfigSet"@, i),
        "</ConfigSet>"@.len() == 12,
{
    let name = "ConfigSet"@;
    let tail = "</ConfigSet>"@;
    lemma_names();
    reveal_strlit("</ConfigSet>");
    assert forall|i: int| 0 <= i < tail.len() implies !#[trigger] opens(tail + rest, name, i) by {
        assert((tail + rest)[i] == tail[i]);
        if i == 0 && opens(tail + rest, name, 0) {
            assert((tail + rest)[i + 1 + 0] == name[0]);
        }
    }
    lemma_sets_front(tail, rest, payload);
}

/// An expanded set opens where it did, up to the `>` that took the place of
/// the slash.
proof fn lemma_reopened(s: Seq<char>, cursor: int, w: Seq<char>)
    requires
        0 <= cursor <= s.len(),
        open_tag(s, "ConfigSet"@, cursor) is Some,
        open_tag(s, "ConfigSet"@, cursor)->0.closed,
    ensures
        ({
            let tag = open_tag(s, "ConfigSet"@, cursor)->0;
            let a = s.subrange(cursor, tag.after - 2);
            &&& cursor <= tag.start < tag.after - 2 <= s.len()
            &&& open_tag(a + seq!['>'] + w, "ConfigSet"@, 0) == Some(
                OpenTag {
                    start: tag.start - cursor,
                    after: (a.len() + 1) as int,
                    closed: a.last() == '/',
                },
            )
            &&& tag.start - cursor + 10 <= a.len()
        }),
{
    let name = "ConfigSet"@;
    lemma_names();
    lemma_open_tag(s, name, cursor);
    let tag = open_tag(s, name, cursor)->0;
    let a = s.subrange(cursor, tag.after - 2);
    let n = a.len() as int;
    let out = a + seq!['>'] + w;
    let st = tag.start - cursor;
    // The slash stands behind the name.
    if tag.after - 2 < tag.start + 1 + name.len() {
        assert(s[tag.start + 1 + (name.len() - 1)] == name[name.len() - 1]);
    }
    assert(st + 1 + name.len() <= n);
    assert forall|k: int| 0 <= k < n implies #[trigger] out[k] == s[cursor + k] by {}
    assert(out[n] == '>');
    assert(opens(out, name, st)) by {
        assert(out[st] == s[tag.start]);
        assert forall|k: int| 0 <= k < name.len() implies out[st + 1 + k] == #[trigger] name[k] by {
            assert(s[tag.start + 1 + k] == name[k]);
        }
        if st + 1 + name.len() < n {
            assert(out[st + 1 + name.len()] == s[tag.start + 1 + name.len()]);
        }
    }
    assert forall|j: int| 0 <= j < st implies !#[trigger] opens(out, name, j) by {
        if opens(out, name, j) {
            assert(out[st] == '<');
            if st <= j + name.len() {
                assert(out[j + 1 + (st - j - 1)] == name[st - j - 1]);
            } else {
                assert(opens(s, name, cursor + j)) by {
                    assert(out[j + 1 + name.len()] == s[cursor + j + 1 + name.len()]);
                    assert forall|k: int| 0 <= k < name.len() implies s[cursor + j + 1 + k]
                        == #[trigger] name[k] by {
                        assert(out[j + 1 + k] == name[k]);
                    }
                }
            }
        }
    }
    assert forall|k: int| st + 1 + name.len() <= k < n implies #[trigger] out[k] != '>' by {
        assert(out[k] == s[cursor + k]);
    }
    lemma_open_tag_is(out, name, 0, st, n);
    assert(out[n - 1] == a.last());
}

/// What a set that is closed by itself once more comes to.
proof fn lemma_closed_again(
    a: Seq<char>,
    first: Seq<char>,
    second: Seq<char>,
    st: int,
    rest: Seq<char>,
)
    requires
        is_inert(first),
        0 <= st,
        st + 10 <= a.len(),
        open_tag(a + seq!['>'] + (first + "</ConfigSet>"@ + rest), "ConfigSet"@, 0) == Some(
            OpenTag { start: st, after: (a.len() + 1) as int, closed: true },
        ),
        with_sets(rest, second, 0) is Ok,
    ensures
        ({
            let again = with_sets(
                a + seq!['>'] + (first + "</ConfigSet>"@ + rest),
                second,
                0,
            );
            again is Ok && again->Ok_0.1 > 0 && holds_both(again->Ok_0.0, first, second)
        }),
{
    let name = "ConfigSet"@;
    lemma_names();
    let tail = "</ConfigSet>"@;
    let front = a + seq!['>'];
    let inside = first + tail;
    let out = front + (inside + rest);
    lemma_sets_behind_end(rest, second);
    assert(inside + rest =~= first + (tail + rest));
    assert(stands(inside + rest, first, 0));
    assert forall|i: int| 0 <= i < inside.len() implies !#[trigger] opens(
        inside + rest,
        name,
        i,
    ) by {
        if i < first.len() {
            lemma_inert(inside + rest, first, 0, name, i);
        } else {
            lemma_opens_shift(first, tail + rest, name, i - first.len());
        }
    }
    lemma_sets_front(inside, rest, second);
    lemma_sets_shift(front, inside + rest, second, 0);
    let r = with_sets(rest, second, 0)->Ok_0.0;
    let head = out.subrange(0, a.len() + 1 - 2) + seq!['>'];
    let again = with_sets(out, second, 0)->Ok_0.0;
    assert(again == head + second + tail + (inside + r));
    lemma_within(head, second, tail + (inside + r));
    assert(head + second + (tail + (inside + r)) =~= again);
    lemma_within(head + second + tail, first, tail + r);
    assert(head + second + tail + first + (tail + r) =~= again);
}

/// What a set that was expanded comes to.
proof fn lemma_open_again(
    a: Seq<char>,
    first: Seq<char>,
    second: Seq<char>,
    st: int,
    rest: Seq<char>,
)
    requires
        is_inert(first),
        0 <= st,
        st + 10 <= a.len(),
        open_tag(a + seq!['>'] + (first + "</ConfigSet>"@ + rest), "ConfigSet"@, 0) == Some(
            OpenTag { start: st, after: (a.len() + 1) as int, closed: false },
        ),
        with_sets(rest, second, 0) is Ok,
    ensures
        ({
            let again = with_sets(
                a + seq!['>'] + (first + "</ConfigSet>"@ + rest),
                second,
                0,
            );
            again is Ok && again->Ok_0.1 > 0 && holds_both(again->Ok_0.0, first, second)
        }),
{
    let name = "ConfigSet"@;
    lemma_names();
    let tail = "</ConfigSet>"@;
    let front = a + seq!['>'];
    let out = front + (first + tail + rest);
    let n = front.len() as int;
    let end = n + first.len();
    lemma_sets_behind_end(rest, second);
    assert(out =~= (front + first) + (tail + rest));
    assert(closes_at(tail + rest, name, 0, 11)) by {
        reveal_strlit("</ConfigSet>");
        reveal_strlit("ConfigSet");
        let t = tail + rest;
        assert forall|k: int| 0 <= k < 12 implies #[trigger] t[k] == tail[k] by {}
        assert forall|k: int| 0 <= k < name.len() implies t[0 + 2 + k] == #[trigger] name[k] by {
            assert(t[2 + k] == tail[2 + k]);
        }
    }
    lemma_closes_at_shift(front + first, tail + rest, name, 0, 11);
    assert(closes(out, name, end));
    assert(stands(out, first, n));
    assert forall|j: int| n <= j < end implies !#[trigger] closes(out, name, j) by {
        lemma_inert(out, first, n, name, j);
    }
    lemma_end_tag_is(out, name, n, end);
    lemma_sets_shift(front + first, tail + rest, second, 0);
    let r = with_sets(rest, second, 0)->Ok_0.0;
    let again = with_sets(out, second, 0)->Ok_0.0;
    assert(out.subrange(0, end) =~= front + first);
    assert(again == front + first + second + (tail + r));
    lemma_within(front + first, second, tail + r);
    lemma_within(front, first, second + (tail + r));
    assert(front + first + (second + (tail + r)) =~= again);
}

/// A set closed by itself, expanded around `first`, takes `second` too.
proof fn lemma_expanded_set(
    s: Seq<char>,
    first: Seq<char>,
    second: Seq<char>,
    cursor: int,
    rest: Seq<char>,
)
    requires
        is_inert(first),
        0 <= cursor <= s.len(),
        open_tag(s, "ConfigSet"@, cursor) is Some,
        open_tag(s, "ConfigSet"@, cursor)->0.closed,
        with_sets(rest, second, 0) is Ok,
    ensures
        ({
            let after = open_tag(s, "ConfigSet"@, cursor)->0.after;
            let out = s.subrange(cursor, after - 2) + seq!['>'] + first + "</ConfigSet>"@ + rest;
            let again = with_sets(out, second, 0);
            again is Ok && again->Ok_0.1 > 0 && holds_both(again->Ok_0.0, first, second)
        }),
{
    let tag = open_tag(s, "ConfigSet"@, cursor)->0;
    let a = s.subrange(cursor, tag.after - 2);
    let w = first + "</ConfigSet>"@ + rest;
    assert(a + seq!['>'] + first + "</ConfigSet>"@ + rest =~= a + seq!['>'] + w);
    lemma_reopened(s, cursor, w);
    if a.last() == '/' {
        lemma_closed_again(a, first, second, tag.start - cursor, rest);
    } else {
        lemma_open_again(a, first, second, tag.start - cursor, rest);
    }
}

/// An open tag depends only on the text up to its end.
proof fn lemma_same_open(s: Seq<char>, out: Seq<char>, name: Seq<char>, cursor: int, n: int)
    requires
        is_plain(name),
        0 <= cursor,
        open_tag(s, name, cursor) is Some,
        open_tag(s, name, cursor)->0.after - cursor <= n <= out.len(),
        cursor + n <= s.len(),
        forall|k: int| 0 <= k < n ==> #[trigger] out[k] == s[cursor + k],
    ensures
        ({
            let tag = open_tag(s, name, cursor)->0;
            open_tag(out, name, 0) == Some(
                OpenTag {
                    start: tag.start - cursor,
                    after: tag.after - cursor,
                    closed: tag.closed,
                },
            )
        }),
{
    lemma_open_tag(s, name, cursor);
    let tag = open_tag(s, name, cursor)->0;
    let st = tag.start - cursor;
    let behind = tag.after - cursor;
    assert(opens(out, name, st)) by {
        assert(out[st] == s[cursor + st]);
        assert(out[st + 1 + name.len()] == s[tag.start + 1 + name.len()]);
        assert forall|k: int| 0 <= k < name.len() implies out[st + 1 + k] == #[trigger] name[k] by {
            assert(s[tag.start + 1 + k] == name[k]);
            assert(out[st + 1 + k] == s[cursor + (st + 1 + k)]);
        }
    }
    assert forall|j: int| 0 <= j < st implies !#[trigger] opens(out, name, j) by {
        if opens(out, name, j) {
            assert(out[st] == '<');
            if st <= j + name.len() {
                assert(out[j + 1 + (st - j - 1)] == name[st - j - 1]);
            } else {
                assert(opens(s, name, cursor + j)) by {
                    assert(out[j] == s[cursor + j]);
                    assert(out[j + 1 + name.len()] == s[cursor + (j + 1 + name.len())]);
                    assert forall|k: int| 0 <= k < name.len() implies s[cursor + j + 1 + k]
                        == #[trigger] name[k] by {
                        assert(out[j + 1 + k] == name[k]);
                        assert(out[j + 1 + k] == s[cursor + (j + 1 + k)]);
                    }
                }
            }
        }
    }
    assert forall|k: int| st + 1 + name.len() <= k < behind - 1 implies #[trigger] out[k]
        != '>' by {
        assert(out[k] == s[cursor + k]);
    }
    assert(out[behind - 1] == s[cursor + (behind - 1)]);
    assert(out[behind - 2] == s[cursor + (behind - 2)]);
    lemma_open_tag_is(out, name, 0, st, behind - 1);
}

/// In front of a payload nothing closes that did not close before.
proof fn lemma_none_closes(
    s: Seq<char>,
    out: Seq<char>,
    name: Seq<char>,
    cursor: int,
    n: int,
    j: int,
)
    requires
        is_plain(name),
        0 <= cursor,
        0 <= j < n < out.len(),
        cursor + n <= s.len(),
        forall|k: int| 0 <= k < n ==> #[trigger] out[k] == s[cursor + k],
        out[n] == '<',
        !closes(s, name, cursor + j),
    ensures
        !closes(out, name, j),
{
    if closes(out, name, j) {
        let g = choose|g: int| #[trigger] closes_at(out, name, j, g);
        if n <= g {
            if n == j + 1 {
                assert(out[j + 1] == '/');
            } else if n < j + 2 + name.len() {
                assert(out[j + 2 + (n - j - 2)] == name[n - j - 2]);
            } else if n < g {
                assert(is_blank(out[n]));
            }
        } else {
            assert forall|k: int| 0 <= k < name.len() implies s[cursor + j + 2 + k]
                == #[trigger] name[k] by {
                assert(out[j + 2 + k] == name[k]);
                assert(out[j + 2 + k] == s[cursor + (j + 2 + k)]);
            }
            assert forall|k: int| cursor + j + 2 + name.len() <= k < cursor
                + g implies is_blank(#[trigger] s[k]) by {
                assert(out[k - cursor] == s[cursor + (k - cursor)]);
            }
            assert(out[j] == s[cursor + j]);
            assert(out[j + 1] == s[cursor + (j + 1)]);
            assert(out[g] == s[cursor + g]);
            assert(closes_at(s, name, cursor + j, cursor + g));
        }
    }
}

/// A set with an end tag that took `first` takes `second` too.
proof fn lemma_ended_set(
    s: Seq<char>,
    first: Seq<char>,
    second: Seq<char>,
    cursor: int,
    end: int,
    gt: int,
    rest: Seq<char>,
)
    requires
        is_inert(first),
        0 <= cursor <= s.len(),
        open_tag(s, "ConfigSet"@, cursor) is Some,
        !open_tag(s, "ConfigSet"@, cursor)->0.closed,
        end_tag(s, "ConfigSet"@, open_tag(s, "ConfigSet"@, cursor)->0.after) == Some(end),
        closes_at(s, "ConfigSet"@, end, gt),
        closes_at(rest, "ConfigSet"@, 0, gt - end),
        with_sets(rest, second, 0) is Ok,
    ensures
        ({
            let out = s.subrange(cursor, end) + first + rest;
            let again = with_sets(out, second, 0);
            again is Ok && again->Ok_0.1 > 0 && holds_both(again->Ok_0.0, first, second)
        }),
{
    let name = "ConfigSet"@;
    lemma_names();
    lemma_open_tag(s, name, cursor);
    let tag = open_tag(s, name, cursor)->0;
    lemma_end_tag(s, name, tag.after);
    let a = s.subrange(cursor, end);
    let n = a.len() as int;
    let out = a + first + rest;
    let behind = tag.after - cursor;
    lemma_same_open(s, out, name, cursor, n);
    let here = n + first.len();
    assert(out =~= (a + first) + rest);
    lemma_closes_at_shift(a + first, rest, name, 0, gt - end);
    assert(closes(out, name, here));
    assert(stands(out, first, n));
    assert(out[n] == '<') by {
        reveal(is_inert);
        assert(out[n] == first[0]);
    }
    assert forall|j: int| behind <= j < here implies !#[trigger] closes(out, name, j) by {
        if n <= j {
            lemma_inert(out, first, n, name, j);
        } else {
            assert(!closes(s, name, cursor + j));
            lemma_none_closes(s, out, name, cursor, n, j);
        }
    }
    lemma_end_tag_is(out, name, behind, here);
    lemma_sets_shift(a + first, rest, second, 0);
    let r = with_sets(rest, second, 0)->Ok_0.0;
    let again = with_sets(out, second, 0)->Ok_0.0;
    assert(out.subrange(0, here) =~= a + first);
    assert(again == a + first + second + r);
    lemma_within(a + first, second, r);
    lemma_within(a, first, second + r);
    assert(a + first + (second + r) =~= again);
}

/// Sets that took `first` take `second` too.
proof fn lemma_sets_again(s: Seq<char>, first: Seq<char>, second: Seq<char>, cursor: int)
    requires
        is_inert(first),
        0 <= cursor <= s.len(),
    ensures
        composes(with_sets(s, first, cursor), first, second),
    decreases s.len() - cursor,
{
    let name = "ConfigSet"@;
    lemma_names();
    lemma_open_tag(s, name, cursor);
    let done = with_sets(s, first, cursor);
    if done is Ok {
        match open_tag(s, name, cursor) {
            None => {
                let t = s.skip(cursor);
                assert(s =~= s.take(cursor) + t);
                lemma_open_tag_shift(s.take(cursor), t, name, 0);
            },
            Some(tag) => if tag.closed {
                lemma_sets_again(s, first, second, tag.after);
                let rest = with_sets(s, first, tag.after)->Ok_0.0;
                lemma_expanded_set(s, first, second, cursor, rest);
            } else {
                lemma_end_tag(s, name, tag.after);
                let end = end_tag(s, name, tag.after)->0;
                let gt = choose|gt: int| #[trigger] closes_at(s, name, end, gt);
                lemma_sets_again(s, first, second, end);
                let rest = with_sets(s, first, end)->Ok_0.0;
                lemma_rest_begins(s, first, end, gt);
                lemma_ended_set(s, first, second, cursor, end, gt, rest);
            },
        }
    }
}

/// Whether no config set begins in a text, whatever stands behind it.
#[verifier::opaque]
spec fn is_shut(m: Seq<char>) -> bool {
    forall|i: int|
        0 <= i < m.len() && #[trigger] m[i] == '<' ==> i + 2 < m.len() && (m[i + 1] != 'C' || m[i
            + 2] != 'o' || (i + 7 < m.len() && m[i + 7] != 'S'))
}

proof fn lemma_shut_join(a: Seq<char>, b: Seq<char>)
    requires
        is_shut(a),
        is_shut(b),
    ensures
        is_shut(a + b),
{
    reveal(is_shut);
    let m = a + b;
    assert forall|i: int| 0 <= i < m.len() && #[trigger] m[i] == '<' implies i + 2 < m.len() && (m[i
        + 1] != 'C' || m[i + 2] != 'o' || (i + 7 < m.len() && m[i + 7] != 'S')) by {
        if i < a.len() {
            assert(a[i] == '<');
            assert(m[i + 1] == a[i + 1] && m[i + 2] == a[i + 2]);
            if i + 7 < a.len() {
                assert(m[i + 7] == a[i + 7]);
            }
        } else {
            let j = i - a.len();
            assert(b[j] == '<');
            assert(m[i + 1] == b[j + 1] && m[i + 2] == b[j + 2]);
            if j + 7 < b.len() {
                assert(m[i + 7] == b[j + 7]);
            }
        }
    }
}

proof fn lemma_shut(s: Seq<char>, m: Seq<char>, at: int, i: int)
    requires
        is_shut(m),
        stands(s, m, at),
        at <= i < at + m.len(),
    ensures
        !opens(s, "ConfigSet"@, i),
{
    reveal(is_shut);
    let name = "ConfigSet"@;
    lemma_names();
    if opens(s, name, i) {
        assert(s[i] == m[i - at]);
        assert(s[i + 1] == m[i - at + 1]);
        assert(s[i + 2] == m[i - at + 2]);
        assert(s[i + 1 + 0] == name[0]);
        assert(s[i + 1 + 1] == name[1]);
        assert(s[i + 1 + 6] == name[6]);
        if i - at + 7 < m.len() {
            assert(s[i + 7] == m[i - at + 7]);
        }
    }
}

/// Where no config set begins, none begins with a text in the place of
/// another, if a `>` stood behind it.
proof fn lemma_still_no_sets(a: Seq<char>, d: Seq<char>, b: Seq<char>, m: Seq<char>, g: int)
    requires
        open_tag(a + d + b, "ConfigSet"@, 0) is None,
        a.len() <= g < (a + d + b).len(),
        (a + d + b)[g] == '>',
        is_shut(m),
        m.len() > 0,
        m[0] == '<' || (m[0] == '>' && d.len() > 0 && d[0] == '/'),
    ensures
        open_tag(a + m + b, "ConfigSet"@, 0) is None,
{
    let name = "ConfigSet"@;
    lemma_names();
    let xml = a + d + b;
    let y = a + m + b;
    let n = a.len() as int;
    lemma_open_tag(xml, name, 0);
    lemma_open_tag(y, name, 0);
    if let Some(tag) = open_tag(y, name, 0) {
        let i = tag.start;
        if i < n {
            assert(y[n] == m[0]);
            if n < i + 10 {
                assert(y[i + 1 + (n - i - 1)] == name[n - i - 1]);
            }
            assert(opens(xml, name, i)) by {
                assert(y[i] == xml[i]);
                assert forall|k: int| 0 <= k < name.len() implies xml[i + 1 + k]
                    == #[trigger] name[k] by {
                    assert(y[i + 1 + k] == name[k]);
                    assert(y[i + 1 + k] == a[i + 1 + k]);
                }
                if i + 10 < n {
                    assert(y[i + 10] == a[i + 10]);
                } else {
                    assert(xml[n] == d[0]);
                }
            }
            assert(xml[g] != '>');
        } else if i < n + m.len() {
            assert(stands(y, m, n));
            lemma_shut(y, m, n, i);
        } else {
            let j = i - n - m.len();
            lemma_opens_shift(a + m, b, name, j);
            lemma_opens_shift(a + d, b, name, j);
            let k = tag.after - 1 - n - m.len();
            assert(y[tag.after - 1] == b[k]);
            assert(xml[n + d.len() + k] == b[k]);
            assert(opens(xml, name, n + d.len() + j));
        }
    }
}

/// What is put in beside a text leaves it.
proof fn lemma_spliced_holds(
    y: Seq<char>,
    first: Seq<char>,
    pos: int,
    at: int,
    second: Seq<char>,
)
    requires
        stands(y, first, pos),
        0 <= at <= y.len(),
        at <= pos || pos + first.len() <= at,
    ensures
        holds_both(spliced(y, at, second), first, second),
{
    let z = spliced(y, at, second);
    lemma_within(y.take(at), second, y.skip(at));
    let p = if at <= pos {
        pos + second.len()
    } else {
        pos
    };
    assert(z.subrange(p, p + first.len()) =~= first);
    assert(is_at(z, first, p));
}

/// A build without config sets that holds `first`, and in which a config
/// section ends, takes `second` too.
proof fn lemma_config_takes(y: Seq<char>, first: Seq<char>, second: Seq<char>, pos: int, end: int)
    requires
        is_inert(first),
        stands(y, first, pos),
        0 <= end,
        closes(y, "Config"@, end),
        open_tag(y, "ConfigSet"@, 0) is None,
    ensures
        with_sets(y, second, 0) is Ok,
        with_sets(y, second, 0)->Ok_0.1 == 0,
        with_config(y, second) is Ok,
        holds_both(with_config(y, second)->Ok_0, first, second),
{
    lemma_names();
    lemma_end_tag(y, "Config"@, 0);
    let at = end_tag(y, "Config"@, 0)->0;
    let gt = choose|gt: int| #[trigger] closes_at(y, "Config"@, at, gt);
    if pos < at < pos + first.len() {
        lemma_inert(y, first, pos, "Config"@, at);
    }
    lemma_spliced_holds(y, first, pos, at, second);
}

/// A config section holds what it is made of, and no config set.
proof fn lemma_section(first: Seq<char>)
    requires
        is_inert(first),
    ensures
        is_shut(first),
        first.len() > 0,
        first[0] == '<',
        is_shut(config_section(first)),
        config_section(first).len() == 17 + first.len(),
        config_section(first)[0] == '<',
        stands(config_section(first), first, 8),
        closes_at(
            config_section(first),
            "Config"@,
            (8 + first.len()) as int,
            (16 + first.len()) as int,
        ),
{
    reveal(is_shut);
    reveal(is_inert);
    reveal_strlit("<Config>");
    reveal_strlit("</Config>");
    reveal_strlit("Config");
    let c = config_section(first);
    assert(is_shut(first)) by {
        assert forall|i: int| 0 <= i < first.len() && #[trigger] first[i] == '<' implies i + 2
            < first.len() && (first[i + 1] != 'C' || first[i + 2] != 'o' || (i + 7 < first.len()
            && first[i + 7] != 'S')) by {}
    }
    assert(is_shut("<Config>"@));
    assert(is_shut("</Config>"@));
    lemma_shut_join("<Config>"@, first);
    lemma_shut_join("<Config>"@ + first, "</Config>"@);
    let e = (8 + first.len()) as int;
    assert forall|k: int| 0 <= k < 9 implies #[trigger] c[e + k] == "</Config>"@[k] by {}
    assert(c[e + 0] == '<' && c[e + 1] == '/' && c[e + 8] == '>');
    assert forall|k: int| 0 <= k < 6 implies c[e + 2 + k] == #[trigger] "Config"@[k] by {
        assert(c[e + (2 + k)] == "</Config>"@[2 + k]);
    }
}

/// What stands in a part stands in the whole.
proof fn lemma_stands_in(a: Seq<char>, m: Seq<char>, b: Seq<char>, first: Seq<char>, pos: int)
    requires
        stands(m, first, pos),
    ensures
        stands(a + m + b, first, a.len() + pos),
{
    let y = a + m + b;
    assert forall|k: int| a.len() + pos <= k < a.len() + pos + first.len() implies #[trigger] y[k]
        == first[k - (a.len() + pos)] by {
        assert(y[k] == m[k - a.len()]);
    }
}

/// What closes in a part closes in the whole.
proof fn lemma_closes_in(
    a: Seq<char>,
    m: Seq<char>,
    b: Seq<char>,
    name: Seq<char>,
    i: int,
    gt: int,
)
    requires
        closes_at(m, name, i, gt),
    ensures
        closes(a + m + b, name, a.len() + i),
{
    let y = a + m + b;
    let n = a.len() as int;
    assert forall|k: int| 0 <= k < name.len() implies y[n + i + 2 + k] == #[trigger] name[k] by {
        assert(m[i + 2 + k] == name[k]);
        assert(y[n + (i + 2 + k)] == m[i + 2 + k]);
    }
    assert forall|k: int| n + i + 2 + name.len() <= k < n + gt implies is_blank(
        #[trigger] y[k],
    ) by {
        assert(y[k] == m[k - n]);
    }
    assert(y[n + i] == m[i] && y[n + i + 1] == m[i + 1] && y[n + gt] == m[gt]);
    assert(closes_at(y, name, n + i, n + gt));
}

/// The middle of an element that was expanded around a text without sets.
proof fn lemma_expanded_middle(inside: Seq<char>, name: Seq<char>)
    requires
        is_shut(inside),
        is_plain(name),
        name[0] == 'C' || name[0] == 'P',
    ensures
        ({
            let m = ">"@ + inside + "</"@ + name + ">"@;
            &&& is_shut(m)
            &&& m.len() > 0
            &&& m[0] == '>'
            &&& stands(m, inside, 1)
            &&& closes_at(
                m,
                name,
                (1 + inside.len()) as int,
                (3 + inside.len() + name.len()) as int,
            )
        }),
{
    reveal(is_shut);
    reveal_strlit(">");
    reveal_strlit("</");
    let m = ">"@ + inside + "</"@ + name + ">"@;
    let tail = "</"@ + name + ">"@;
    assert(m =~= (">"@ + inside) + tail);
    assert(is_shut(">"@));
    assert(is_shut(tail)) by {
        assert forall|i: int| 0 <= i < tail.len() && #[trigger] tail[i] == '<' implies i + 2
            < tail.len() && (tail[i + 1] != 'C' || tail[i + 2] != 'o' || (i + 7 < tail.len()
            && tail[i + 7] != 'S')) by {
            if 2 <= i < 2 + name.len() {
                assert(tail[i] == name[i - 2]);
            }
        }
    }
    lemma_shut_join(">"@, inside);
    lemma_shut_join(">"@ + inside, tail);
    let e = (1 + inside.len()) as int;
    assert(m[e] == '<' && m[e + 1] == '/');
    assert(m[e + 2 + name.len()] == '>');
    assert forall|k: int| 0 <= k < name.len() implies m[e + 2 + k] == #[trigger] name[k] by {}
}

/// An expanded element leaves a build without sets.
proof fn lemma_expanded_no_sets(xml: Seq<char>, name: Seq<char>, inside: Seq<char>)
    requires
        is_plain(name),
        is_closed(xml, name),
        open_tag(xml, "ConfigSet"@, 0) is None,
        is_shut(inside),
        name[0] == 'C' || name[0] == 'P',
    ensures
        open_tag(expanded(xml, name, inside), "ConfigSet"@, 0) is None,
        2 <= open_tag(xml, name, 0)->0.after <= xml.len(),
{
    let after = open_tag(xml, name, 0)->0.after;
    assert(2 <= after <= xml.len() && xml[after - 1] == '>' && xml[after - 2] == '/') by {
        lemma_open_tag(xml, name, 0);
    }
    let a = xml.take(after - 2);
    let d = xml.subrange(after - 2, after);
    let b = xml.skip(after);
    let m = ">"@ + inside + "</"@ + name + ">"@;
    assert(is_shut(m) && m.len() > 0 && m[0] == '>') by {
        lemma_expanded_middle(inside, name);
    }
    assert(a + d + b =~= xml);
    assert(d[0] == '/');
    lemma_still_no_sets(a, d, b, m, after - 1);
}

/// A section in front of an end tag leaves a build without sets.
proof fn lemma_spliced_no_sets(xml: Seq<char>, name: Seq<char>, at: int, m: Seq<char>)
    requires
        closes(xml, name, at),
        open_tag(xml, "ConfigSet"@, 0) is None,
        is_shut(m),
        m.len() > 0,
        m[0] == '<',
    ensures
        open_tag(spliced(xml, at, m), "ConfigSet"@, 0) is None,
{
    let gt = choose|gt: int| #[trigger] closes_at(xml, name, at, gt);
    let a = xml.take(at);
    let d = Seq::<char>::empty();
    let b = xml.skip(at);
    assert(a + d + b =~= xml);
    lemma_still_no_sets(a, d, b, m, gt);
}

proof fn lemma_config_spliced(
    xml: Seq<char>,
    at: int,
    gt: int,
    first: Seq<char>,
    second: Seq<char>,
)
    requires
        is_inert(first),
        open_tag(xml, "ConfigSet"@, 0) is None,
        closes_at(xml, "Config"@, at, gt),
    ensures
        ({
            let y = spliced(xml, at, first);
            &&& with_sets(y, second, 0) is Ok
            &&& with_sets(y, second, 0)->Ok_0.1 == 0
            &&& with_config(y, second) is Ok
            &&& holds_both(with_config(y, second)->Ok_0, first, second)
        }),
{
    let y = spliced(xml, at, first);
    let a = xml.take(at);
    let b = xml.skip(at);
    let none = Seq::<char>::empty();
    assert(open_tag(y, "ConfigSet"@, 0) is None) by {
        lemma_section(first);
        lemma_spliced_no_sets(xml, "Config"@, at, first);
    }
    assert(stands(y, first, at)) by {
        lemma_stands_in(a, first, b, first, 0);
    }
    assert(closes(y, "Config"@, at + first.len())) by {
        assert(xml =~= a + b);
        lemma_closes_at_shift(a, b, "Config"@, 0, gt - at);
        lemma_closes_in(a + first, b, none, "Config"@, 0, gt - at);
        assert(y =~= a + first + b + none);
    }
    lemma_config_takes(y, first, second, at, at + first.len());
}

proof fn lemma_config_expanded(xml: Seq<char>, first: Seq<char>, second: Seq<char>)
    requires
        is_inert(first),
        open_tag(xml, "ConfigSet"@, 0) is None,
        is_closed(xml, "Config"@),
    ensures
        ({
            let y = expanded(xml, "Config"@, first);
            &&& with_sets(y, second, 0) is Ok
            &&& with_sets(y, second, 0)->Ok_0.1 == 0
            &&& with_config(y, second) is Ok
            &&& holds_both(with_config(y, second)->Ok_0, first, second)
        }),
{
    let name = "Config"@;
    let y = expanded(xml, name, first);
    let after = open_tag(xml, name, 0)->0.after;
    let a = xml.take(after - 2);
    let m = ">"@ + first + "</"@ + name + ">"@;
    let b = xml.skip(after);
    let end = (1 + first.len()) as int;
    assert(open_tag(y, "ConfigSet"@, 0) is None && 2 <= after <= xml.len()) by {
        lemma_names();
        lemma_section(first);
        lemma_expanded_no_sets(xml, name, first);
    }
    assert(stands(m, first, 1) && closes_at(m, name, end, end + 8)) by {
        lemma_names();
        lemma_section(first);
        lemma_expanded_middle(first, name);
    }
    assert(stands(y, first, after - 2 + 1)) by {
        lemma_stands_in(a, m, b, first, 1);
    }
    assert(closes(y, name, after - 2 + end)) by {
        lemma_closes_in(a, m, b, name, end, end + 8);
    }
    lemma_config_takes(y, first, second, after - 2 + 1, after - 2 + end);
}

/// A build without sets that took `first` takes `second` too.
proof fn lemma_config_again(xml: Seq<char>, first: Seq<char>, second: Seq<char>)
    requires
        is_inert(first),
        open_tag(xml, "ConfigSet"@, 0) is None,
        with_config(xml, first) is Ok,
    ensures
        ({
            let y = with_config(xml, first)->Ok_0;
            &&& with_sets(y, second, 0) is Ok
            &&& with_sets(y, second, 0)->Ok_0.1 == 0
            &&& with_config(y, second) is Ok
            &&& holds_both(with_config(y, second)->Ok_0, first, second)
        }),
{
    match end_tag(xml, "Config"@, 0) {
        Some(at) => {
            lemma_names();
            lemma_end_tag(xml, "Config"@, 0);
            let gt = choose|gt: int| #[trigger] closes_at(xml, "Config"@, at, gt);
            lemma_config_spliced(xml, at, gt, first, second);
        },
        None => if is_closed(xml, "Config"@) {
            lemma_config_expanded(xml, first, second);
        } else {
            lemma_root_again(xml, first, second);
        },
    }
}

/// A build whose root took a config section with `first` takes `second` too.
proof fn lemma_root_again(xml: Seq<char>, first: Seq<char>, second: Seq<char>)
    requires
        is_inert(first),
        open_tag(xml, "ConfigSet"@, 0) is None,
        with_root(xml, config_section(first)) is Ok,
    ensures
        ({
            let y = with_root(xml, config_section(first))->Ok_0;
            &&& with_sets(y, second, 0) is Ok
            &&& with_sets(y, second, 0)->Ok_0.1 == 0
            &&& with_config(y, second) is Ok
            &&& holds_both(with_config(y, second)->Ok_0, first, second)
        }),
{
    lemma_names();
    let two = "PathOfBuilding2"@;
    let one = "PathOfBuilding"@;
    lemma_end_tag(xml, two, 0);
    lemma_end_tag(xml, one, 0);
    if end_tag(xml, two, 0) is Some {
        lemma_root_spliced(xml, two, end_tag(xml, two, 0)->0, first, second);
    } else if end_tag(xml, one, 0) is Some {
        lemma_root_spliced(xml, one, end_tag(xml, one, 0)->0, first, second);
    } else if is_closed(xml, two) {
        lemma_root_expanded(xml, two, first, second);
    } else {
        lemma_root_expanded(xml, one, first, second);
    }
}

proof fn lemma_root_spliced(
    xml: Seq<char>,
    root: Seq<char>,
    at: int,
    first: Seq<char>,
    second: Seq<char>,
)
    requires
        is_inert(first),
        open_tag(xml, "ConfigSet"@, 0) is None,
        closes(xml, root, at),
    ensures
        ({
            let y = spliced(xml, at, config_section(first));
            &&& with_sets(y, second, 0) is Ok
            &&& with_sets(y, second, 0)->Ok_0.1 == 0
            &&& with_config(y, second) is Ok
            &&& holds_both(with_config(y, second)->Ok_0, first, second)
        }),
{
    let section = config_section(first);
    let y = spliced(xml, at, section);
    let a = xml.take(at);
    let b = xml.skip(at);
    let end = (8 + first.len()) as int;
    assert(0 <= at <= xml.len()) by {
        let gt = choose|gt: int| #[trigger] closes_at(xml, root, at, gt);
    }
    assert(open_tag(y, "ConfigSet"@, 0) is None) by {
        lemma_section(first);
        lemma_spliced_no_sets(xml, root, at, section);
    }
    assert(stands(y, first, at + 8)) by {
        lemma_section(first);
        lemma_stands_in(a, section, b, first, 8);
    }
    assert(closes(y, "Config"@, at + end)) by {
        lemma_section(first);
        lemma_closes_in(a, section, b, "Config"@, end, end + 8);
    }
    lemma_config_takes(y, first, second, at + 8, at + end);
}

proof fn lemma_root_expanded(
    xml: Seq<char>,
    root: Seq<char>,
    first: Seq<char>,
    second: Seq<char>,
)
    requires
        is_inert(first),
        open_tag(xml, "ConfigSet"@, 0) is None,
        is_plain(root),
        root[0] == 'P',
        is_closed(xml, root),
    ensures
        ({
            let y = expanded(xml, root, config_section(first));
            &&& with_sets(y, second, 0) is Ok
            &&& with_sets(y, second, 0)->Ok_0.1 == 0
            &&& with_config(y, second) is Ok
            &&& holds_both(with_config(y, second)->Ok_0, first, second)
        }),
{
    let section = config_section(first);
    let y = expanded(xml, root, section);
    let after = open_tag(xml, root, 0)->0.after;
    let a = xml.take(after - 2) + ">"@;
    let b = "</"@ + root + ">"@ + xml.skip(after);
    let n = a.len() as int;
    let end = (8 + first.len()) as int;
    assert(open_tag(y, "ConfigSet"@, 0) is None) by {
        lemma_section(first);
        lemma_expanded_no_sets(xml, root, section);
    }
    assert(y =~= a + section + b);
    assert(stands(y, first, n + 8)) by {
        lemma_section(first);
        lemma_stands_in(a, section, b, first, 8);
    }
    assert(closes(y, "Config"@, n + end)) by {
        lemma_section(first);
        lemma_closes_in(a, section, b, "Config"@, end, end + 8);
    }
    lemma_config_takes(y, first, second, n + 8, n + end);
}

/// Whether a build carries no modifier text of the old form.
spec fn is_quiet(s: Seq<char>) -> bool {
    !occurs(s, "\"customMods\""@) && !occurs(s, "'customMods'"@)
}

/// Whether a character begins or ends a tag.
spec fn is_bracket(c: char) -> bool {
    c == '<' || c == '>'
}

proof fn lemma_needles()
    ensures
        "\"customMods\""@.len() == 12,
        "'customMods'"@.len() == 12,
        "\"customMods\""@[0] == '"',
        "\"customMods\""@[1] == 'c',
        "'customMods'"@[0] == '\'',
        forall|k: int| 0 <= k < 12 ==> !is_bracket(#[trigger] "\"customMods\""@[k]),
        forall|k: int| 0 <= k < 12 ==> !is_bracket(#[trigger] "'customMods'"@[k]),
{
    reveal_strlit("\"customMods\"");
    reveal_strlit("'customMods'");
}

proof fn lemma_absent_join(a: Seq<char>, b: Seq<char>, needle: Seq<char>)
    requires
        !occurs(a, needle),
        !occurs(b, needle),
        forall|k: int| 0 <= k < needle.len() ==> !is_bracket(#[trigger] needle[k]),
        a.len() == 0 || b.len() == 0 || is_bracket(a.last()) || is_bracket(b[0]),
    ensures
        !occurs(a + b, needle),
{
    let s = a + b;
    let n = a.len() as int;
    if occurs(s, needle) {
        let i = choose|i: int| #[trigger] is_at(s, needle, i);
        lemma_at(s, needle, i);
        if i + needle.len() <= n {
            assert(a.subrange(i, i + needle.len()) =~= s.subrange(i, i + needle.len()));
            assert(is_at(a, needle, i));
        } else if n <= i {
            assert(b.subrange(i - n, i - n + needle.len()) =~= s.subrange(i, i + needle.len()));
            assert(is_at(b, needle, i - n));
        } else {
            assert(s[n - 1] == a.last() && s[n] == b[0]);
            assert(s[i + (n - 1 - i)] == needle[n - 1 - i]);
            assert(s[i + (n - i)] == needle[n - i]);
        }
    }
}

proof fn lemma_quiet_join(a: Seq<char>, b: Seq<char>)
    requires
        is_quiet(a),
        is_quiet(b),
        a.len() == 0 || b.len() == 0 || is_bracket(a.last()) || is_bracket(b[0]),
    ensures
        is_quiet(a + b),
{
    lemma_needles();
    lemma_absent_join(a, b, "\"customMods\""@);
    lemma_absent_join(a, b, "'customMods'"@);
}

proof fn lemma_absent_part(s: Seq<char>, from: int, to: int, needle: Seq<char>)
    requires
        0 <= from <= to <= s.len(),
        !occurs(s, needle),
    ensures
        !occurs(s.subrange(from, to), needle),
{
    let t = s.subrange(from, to);
    if occurs(t, needle) {
        let i = choose|i: int| #[trigger] is_at(t, needle, i);
        assert(s.subrange(from + i, from + i + needle.len()) =~= t.subrange(i, i + needle.len()));
        assert(is_at(s, needle, from + i));
    }
}

proof fn lemma_quiet_part(s: Seq<char>, from: int, to: int)
    requires
        0 <= from <= to <= s.len(),
        is_quiet(s),
    ensures
        is_quiet(s.subrange(from, to)),
{
    lemma_absent_part(s, from, to, "\"customMods\""@);
    lemma_absent_part(s, from, to, "'customMods'"@);
}

proof fn lemma_quiet_without_quotes(s: Seq<char>)
    requires
        forall|i: int|
            0 <= i < s.len() && #[trigger] s[i] == '"' ==> i + 1 < s.len() && s[i + 1] != 'c',
        forall|i: int| 0 <= i < s.len() ==> #[trigger] s[i] != '\'',
    ensures
        is_quiet(s),
{
    lemma_needles();
    if occurs(s, "\"customMods\""@) {
        let i = choose|i: int| #[trigger] is_at(s, "\"customMods\""@, i);
        lemma_at(s, "\"customMods\""@, i);
        assert(s[i + 0] == "\"customMods\""@[0]);
        assert(s[i + 1] == "\"customMods\""@[1]);
    }
    if occurs(s, "'customMods'"@) {
        let i = choose|i: int| #[trigger] is_at(s, "'customMods'"@, i);
        lemma_at(s, "'customMods'"@, i);
        assert(s[i + 0] == "'customMods'"@[0]);
    }
}

/// What is put in around a payload that is quiet and in brackets is quiet.
proof fn lemma_quiet_around(a: Seq<char>, m: Seq<char>, b: Seq<char>)
    requires
        is_quiet(a),
        is_quiet(m),
        is_quiet(b),
        m.len() > 0,
        is_bracket(m[0]),
        is_bracket(m.last()),
    ensures
        is_quiet(a + m + b),
{
    lemma_quiet_join(a, m);
    assert((a + m).last() == m.last());
    lemma_quiet_join(a + m, b);
}

proof fn lemma_literals()
    ensures
        is_quiet(">"@),
        is_quiet("</ConfigSet>"@),
        is_quiet("<Config>"@),
        is_quiet("</Config>"@),
        is_quiet("</"@ + "Config"@ + ">"@),
        is_quiet("</"@ + "PathOfBuilding"@ + ">"@),
        is_quiet("</"@ + "PathOfBuilding2"@ + ">"@),
        ">"@.len() == 1 && ">"@[0] == '>',
        "</"@.len() == 2 && "</"@[0] == '<',
        "</ConfigSet>"@.len() == 12 && "</ConfigSet>"@[11] == '>' && "</ConfigSet>"@[0] == '<',
        "<Config>"@.len() == 8 && "<Config>"@[7] == '>' && "<Config>"@[0] == '<',
        "</Config>"@.len() == 9 && "</Config>"@[8] == '>' && "</Config>"@[0] == '<',
{
    reveal_strlit(">");
    reveal_strlit("</");
    reveal_strlit("</ConfigSet>");
    reveal_strlit("<Config>");
    reveal_strlit("</Config>");
    reveal_strlit("Config");
    reveal_strlit("PathOfBuilding");
    reveal_strlit("PathOfBuilding2");
    lemma_quiet_without_quotes(">"@);
    lemma_quiet_without_quotes("</ConfigSet>"@);
    lemma_quiet_without_quotes("<Config>"@);
    lemma_quiet_without_quotes("</Config>"@);
    lemma_quiet_without_quotes("</"@ + "Config"@ + ">"@);
    lemma_quiet_without_quotes("</"@ + "PathOfBuilding"@ + ">"@);
    lemma_quiet_without_quotes("</"@ + "PathOfBuilding2"@ + ">"@);
}

/// Sets that take a quiet payload leave a build quiet.
proof fn lemma_sets_quiet(s: Seq<char>, p: Seq<char>, cursor: int)
    requires
        is_quiet(s),
        is_quiet(p),
        p.len() > 0,
        is_bracket(p[0]),
        is_bracket(p.last()),
        0 <= cursor <= s.len(),
        with_sets(s, p, cursor) is Ok,
    ensures
        is_quiet(with_sets(s, p, cursor)->Ok_0.0),
    decreases s.len() - cursor,
{
    let name = "ConfigSet"@;
    lemma_names();
    lemma_open_tag(s, name, cursor);
    match open_tag(s, name, cursor) {
        None => {
            assert(s.skip(cursor) =~= s.subrange(cursor, s.len() as int));
            lemma_quiet_part(s, cursor, s.len() as int);
        },
        Some(tag) => if tag.closed {
            lemma_sets_quiet(s, p, tag.after);
            let rest = with_sets(s, p, tag.after)->Ok_0.0;
            let a = s.subrange(cursor, tag.after - 2);
            lemma_quiet_part(s, cursor, tag.after - 2);
            lemma_literals();
            assert(seq!['>'] =~= ">"@);
            lemma_quiet_around(a, seq!['>'], p);
            assert((a + seq!['>'] + p).last() == p.last());
            lemma_quiet_around(a + seq!['>'] + p, "</ConfigSet>"@, rest);
        } else {
            lemma_end_tag(s, name, tag.after);
            let end = end_tag(s, name, tag.after)->0;
            let gt = choose|gt: int| #[trigger] closes_at(s, name, end, gt);
            lemma_sets_quiet(s, p, end);
            lemma_quiet_part(s, cursor, end);
            lemma_quiet_around(s.subrange(cursor, end), p, with_sets(s, p, end)->Ok_0.0);
        },
    }
}

proof fn lemma_spliced_quiet(s: Seq<char>, name: Seq<char>, at: int, m: Seq<char>)
    requires
        is_quiet(s),
        is_quiet(m),
        m.len() > 0,
        is_bracket(m[0]),
        is_bracket(m.last()),
        closes(s, name, at),
    ensures
        is_quiet(spliced(s, at, m)),
{
    let gt = choose|gt: int| #[trigger] closes_at(s, name, at, gt);
    lemma_quiet_part(s, 0, at);
    lemma_quiet_part(s, at, s.len() as int);
    assert(s.take(at) =~= s.subrange(0, at));
    assert(s.skip(at) =~= s.subrange(at, s.len() as int));
    lemma_quiet_around(s.take(at), m, s.skip(at));
}

proof fn lemma_expanded_quiet(s: Seq<char>, name: Seq<char>, inside: Seq<char>)
    requires
        is_quiet(s),
        is_quiet(inside),
        is_plain(name),
        is_closed(s, name),
        is_quiet("</"@ + name + ">"@),
    ensures
        is_quiet(expanded(s, name, inside)),
{
    lemma_literals();
    lemma_open_tag(s, name, 0);
    let after = open_tag(s, name, 0)->0.after;
    lemma_quiet_part(s, 0, after - 2);
    lemma_quiet_part(s, after, s.len() as int);
    assert(s.take(after - 2) =~= s.subrange(0, after - 2));
    assert(s.skip(after) =~= s.subrange(after, s.len() as int));
    let tail = "</"@ + name + ">"@;
    let m = ">"@ + inside + "</"@ + name + ">"@;
    assert(m =~= ">"@ + inside + tail);
    lemma_quiet_join(">"@, inside);
    assert(tail[0] == '<' && tail.last() == '>');
    lemma_quiet_join(">"@ + inside, tail);
    assert(m[0] == '>' && m.last() == '>');
    lemma_quiet_around(s.take(after - 2), m, s.skip(after));
}

/// A config section that takes a quiet payload leaves a build quiet.
proof fn lemma_config_quiet(s: Seq<char>, p: Seq<char>)
    requires
        is_quiet(s),
        is_quiet(p),
        p.len() > 0,
        is_bracket(p[0]),
        is_bracket(p.last()),
        with_config(s, p) is Ok,
    ensures
        is_quiet(with_config(s, p)->Ok_0),
{
    lemma_names();
    lemma_literals();
    let section = config_section(p);
    lemma_quiet_around("<Config>"@, p, "</Config>"@);
    assert(section[0] == '<' && section.last() == '>');
    let two = "PathOfBuilding2"@;
    let one = "PathOfBuilding"@;
    lemma_end_tag(s, "Config"@, 0);
    lemma_end_tag(s, two, 0);
    lemma_end_tag(s, one, 0);
    if end_tag(s, "Config"@, 0) is Some {
        lemma_spliced_quiet(s, "Config"@, end_tag(s, "Config"@, 0)->0, p);
    } else if is_closed(s, "Config"@) {
        lemma_expanded_quiet(s, "Config"@, p);
    } else if end_tag(s, two, 0) is Some {
        lemma_spliced_quiet(s, two, end_tag(s, two, 0)->0, section);
    } else if end_tag(s, one, 0) is Some {
        lemma_spliced_quiet(s, one, end_tag(s, one, 0)->0, section);
    } else if is_closed(s, two) {
        lemma_expanded_quiet(s, two, section);
    } else {
        lemma_expanded_quiet(s, one, section);
    }
}

/// Modifier lines, escaped, hold no markup.
proof fn lemma_lines_hold_no_markup(lines: Seq<Seq<char>>)
    requires
        forall|i: int, k: int|
            0 <= i < lines.len() && 0 <= k < lines[i].len() ==> !is_markup(#[trigger] lines[i][k]),
    ensures
        forall|k: int|
            0 <= k < separated(lines, seq!['\n']).len() ==> !is_markup(
                #[trigger] separated(lines, seq!['\n'])[k],
            ),
    decreases lines.len(),
{
    if lines.len() > 1 {
        let before = lines.drop_last();
        assert forall|i: int, k: int|
            0 <= i < before.len() && 0 <= k < before[i].len() implies !is_markup(
            #[trigger] before[i][k],
        ) by {
            assert(before[i] == lines[i]);
            assert(!is_markup(lines[i][k]));
        }
        lemma_lines_hold_no_markup(before);
        let a = separated(before, seq!['\n']);
        let all = a + seq!['\n'] + lines.last();
        assert forall|k: int| 0 <= k < all.len() implies !is_markup(#[trigger] all[k]) by {
            if k < a.len() {
                assert(all[k] == a[k]);
            } else if k > a.len() {
                assert(all[k] == lines[lines.len() - 1][k - a.len() - 1]);
            }
        }
    } else if lines.len() == 1 {
        assert forall|k: int| 0 <= k < lines[0].len() implies !is_markup(
            #[trigger] separated(lines, seq!['\n'])[k],
        ) by {
            assert(!is_markup(lines[0][k]));
        }
    }
}

/// A modifier block is inert and quiet.
proof fn lemma_block(mods: Seq<Seq<char>>)
    ensures
        is_inert(mod_payload(Game::Poe1, mods)),
        is_quiet(mod_payload(Game::Poe1, mods)),
        mod_payload(Game::Poe1, mods).len() > 0,
        mod_payload(Game::Poe1, mods)[0] == '<',
        mod_payload(Game::Poe1, mods).last() == '>',
{
    let lines = mods.map_values(|line: Seq<char>| escaped(trimmed(line)));
    assert forall|i: int, k: int|
        0 <= i < lines.len() && 0 <= k < lines[i].len() implies !is_markup(
        #[trigger] lines[i][k],
    ) by {
        law_escaped_text_holds_no_markup(trimmed(mods[i]));
    }
    lemma_lines_hold_no_markup(lines);
    let text = mod_text(mods);
    let head = "<CustomModifierBlock title=\"exile-whatif\" enabled=\"true\">"@;
    let tail = "</CustomModifierBlock>"@;
    let p = mod_payload(Game::Poe1, mods);
    reveal_strlit("<CustomModifierBlock title=\"exile-whatif\" enabled=\"true\">");
    reveal_strlit("</CustomModifierBlock>");
    assert(p == head + text + tail);
    assert forall|i: int| 0 <= i < text.len() implies #[trigger] text[i] != '<' && text[i] != '"'
        && text[i] != '\'' by {
        assert(!is_markup(separated(lines, seq!['\n'])[i]));
    }
    assert(is_quiet(p)) by {
        lemma_quiet_without_quotes(head);
        lemma_quiet_without_quotes(text);
        lemma_quiet_without_quotes(tail);
        lemma_quiet_join(head, text);
        lemma_quiet_join(head + text, tail);
    }
    assert(p[0] == head[0] && p.last() == tail.last());
    assert(is_inert(p)) by {
        reveal(is_inert);
        let n = head.len() as int;
        let e = n + text.len();
        assert forall|i: int| 0 <= i < p.len() && #[trigger] p[i] == '<' implies i + 3 < p.len()
            && ((p[i + 1] == 'C' && p[i + 2] == 'u') || (p[i + 1] == '/' && p[i + 2] == 'C' && p[i
            + 3] == 'u')) by {
            if i < n {
                assert(p[i] == head[i]);
                assert(i == 0);
                assert(p[1] == head[1] && p[2] == head[2]);
            } else if i < e {
                assert(p[i] == text[i - n]);
            } else {
                assert(p[i] == tail[i - e]);
                assert(i == e);
                assert(p[e + 1] == tail[1] && p[e + 2] == tail[2] && p[e + 3] == tail[3]);
            }
        }
    }
}

/// Putting lines into a build that has taken some: in Path of Exile 1 the
/// blocks compose, and the build holds both; in Path of Exile 2 the text that
/// is there is never overwritten, and the build is refused. Blank lines alone
/// are refused in either.
pub proof fn law_lines_put_in_twice(
    game: Game,
    xml: Seq<char>,
    first: Seq<Seq<char>>,
    second: Seq<Seq<char>>,
)
    requires
        injected(game, xml, first) is Ok,
    ensures
        ({
            let once = injected(game, xml, first)->Ok_0;
            let twice = injected(game, once, second);
            &&& no_mods(second) ==> twice is Err
            &&& game == Game::Poe2 ==> twice is Err
            &&& game == Game::Poe1 && !no_mods(second) ==> twice is Ok && occurs(
                twice->Ok_0,
                mod_payload(game, first),
            ) && occurs(twice->Ok_0, mod_payload(game, second))
        }),
{
    let once = injected(game, xml, first)->Ok_0;
    match game {
        Game::Poe2 => {
            law_injected_builds_hold_the_lines(game, xml, first);
            let payload = mod_payload(game, first);
            let needle = "\"customMods\""@;
            reveal_strlit("\"customMods\"");
            reveal_strlit("<Input name=\"customMods\" string=\"");
            let head = "<Input name=\"customMods\" string=\""@;
            let i = choose|i: int| #[trigger] is_at(once, payload, i);
            assert(payload.subrange(12, 24) =~= needle) by {
                assert forall|k: int| 0 <= k < 12 implies payload[12 + k] == #[trigger] needle[k]
                    by {
                    assert(payload[12 + k] == head[12 + k]);
                }
            }
            assert(once.subrange(i + 12, i + 24) =~= once.subrange(
                i,
                i + payload.len(),
            ).subrange(12, 24));
            assert(is_at(once, needle, i + 12));
        },
        Game::Poe1 => {
            if !no_mods(second) {
                let p = mod_payload(game, first);
                let q = mod_payload(game, second);
                lemma_block(first);
                let sets = with_sets(xml, p, 0);
                lemma_sets_again(xml, p, q, 0);
                assert(is_quiet(xml));
                if sets->Ok_0.1 > 0 {
                    lemma_sets_quiet(xml, p, 0);
                } else {
                    lemma_config_quiet(xml, p);
                    lemma_no_sets(xml, p);
                    lemma_config_again(xml, p, q);
                }
            }
        },
    }
}

/// Where no set takes the payload, none opens.
proof fn lemma_no_sets(xml: Seq<char>, p: Seq<char>)
    requires
        with_sets(xml, p, 0) is Ok,
        with_sets(xml, p, 0)->Ok_0.1 == 0,
    ensures
        open_tag(xml, "ConfigSet"@, 0) is None,
{
    let name = "ConfigSet"@;
    lemma_names();
    lemma_open_tag(xml, name, 0);
    if let Some(tag) = open_tag(xml, name, 0) {
        if !tag.closed {
            lemma_end_tag(xml, name, tag.after);
            let end = end_tag(xml, name, tag.after)->0;
            let gt = choose|gt: int| #[trigger] closes_at(xml, name, end, gt);
        }
    }
}

}
