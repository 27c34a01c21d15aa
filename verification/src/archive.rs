//! Engine checkouts: where a stock snapshot comes from, and where the entries
//! of its archive may go. Snapshots are archives at an explicit reference, so
//! that a pinned one is reproducible; they are unpacked as they are.

use vstd::prelude::*;

use crate::json::{no_members, printed, put, Json, JsonView};
use crate::text;
use crate::text::{chars_of, is_at, occurs, replaced, separated, string_of, texts};
use crate::toolkit::{
    encoded_byte, hex_digit, is_unreserved, lemma_encoded_front, percent_decoded, percent_encode,
    percent_encoded, Game,
};

verus! {

/// The repository of a game's engine.
pub open spec fn repo_of(game: Game) -> Seq<char> {
    match game {
        Game::Poe1 => "PathOfBuilding"@,
        Game::Poe2 => "PathOfBuilding-PoE2"@,
    }
}

/// The upstream community engines, one per game.
pub fn repo(game: Game) -> (name: &'static str)
    ensures
        name@ == repo_of(game),
{
    match game {
        Game::Poe1 => "PathOfBuilding",
        Game::Poe2 => "PathOfBuilding-PoE2",
    }
}

/// A reference as part of a URL path: its slashes stay, everything else that
/// could change the request's shape is encoded.
pub open spec fn safe_reference(reference: Seq<char>) -> Seq<char> {
    replaced(percent_encoded(vstd::utf8::encode_utf8(reference)), "%2F"@, "/"@)
}

/// A reference as part of a URL path.
pub fn percent_safe(reference: &str) -> (out: String)
    ensures
        out@ == safe_reference(reference@),
{
    text::replace(percent_encode(reference).as_str(), "%2F", "/")
}

/// The address of a snapshot.
pub fn archive_url(game: Game, reference: &str) -> (url: String)
    ensures
        url@ == "https://codeload.github.com/PathOfBuildingCommunity/"@ + repo_of(game)
            + "/tar.gz/"@ + safe_reference(reference@),
{
    let mut url = "https://codeload.github.com/PathOfBuildingCommunity/".to_owned();
    url.append(repo(game));
    url.append("/tar.gz/");
    url.append(percent_safe(reference).as_str());
    url
}

/// Decide how a download begins, given whether the target holds anything: a
/// target that does is cleared first, but only where that is asked for.
pub fn plan_fetch(target: &str, populated: bool, force: bool) -> (clear: Result<bool, String>)
    ensures
        match clear {
            Ok(clear) => clear == populated && (populated ==> force),
            Err(error) => populated && !force && error@ == target@
                + " already exists — pass --force to replace it"@,
        },
{
    if populated && !force {
        return Err(target.to_owned().concat(" already exists — pass --force to replace it"));
    }
    Ok(populated)
}

/// What is written beside a snapshot, to tell where it came from.
pub fn provenance(game: Game, reference: &str, stamp: &str) -> (out: String)
    ensures
        out@ == printed(
            put(
                put(
                    put(
                        no_members(),
                        "repo"@,
                        JsonView::Text("PathOfBuildingCommunity/"@ + repo_of(game)),
                    ),
                    "ref"@,
                    JsonView::Text(reference@),
                ),
                "fetched_at"@,
                JsonView::Text(stamp@),
            ),
        ),
{
    Json::object().with(
        "repo",
        Json::Text("PathOfBuildingCommunity/".to_owned().concat(repo(game))),
    ).with("ref", Json::string(reference)).with("fetched_at", Json::string(stamp)).to_string()
}

/// One part of a path.
pub ghost enum Part {
    /// The root, of an absolute path.
    Root,
    /// The directory itself, in front of a path.
    Current,
    /// The directory above.
    Parent,
    /// A plain name.
    Name(Seq<char>),
}

/// The end of the segment that begins at `i`.
pub open spec fn segment_end(s: Seq<char>, i: int) -> int
    decreases s.len() - i,
{
    if 0 <= i < s.len() && s[i] != '/' {
        segment_end(s, i + 1)
    } else {
        i
    }
}

/// The parts that a segment makes: none where it is empty, or the directory
/// itself elsewhere than in front.
pub open spec fn segment_parts(segment: Seq<char>, front: bool) -> Seq<Part> {
    if segment.len() == 0 {
        seq![]
    } else if segment == seq!['.'] {
        if front {
            seq![Part::Current]
        } else {
            seq![]
        }
    } else if segment == seq!['.', '.'] {
        seq![Part::Parent]
    } else {
        seq![Part::Name(segment)]
    }
}

/// The parts of a path from `i` on.
pub open spec fn parts_from(s: Seq<char>, i: int) -> Seq<Part>
    decreases s.len() - i,
{
    if i < 0 || i >= s.len() {
        seq![]
    } else {
        let end = segment_end(s, i);
        let rest = if i <= end < s.len() {
            parts_from(s, end + 1)
        } else {
            seq![]
        };
        segment_parts(s.subrange(i, end), i == 0) + rest
    }
}

/// The parts of a path.
pub open spec fn parts(path: Seq<char>) -> Seq<Part> {
    if path.len() > 0 && path[0] == '/' {
        seq![Part::Root] + parts_from(path, 0)
    } else {
        parts_from(path, 0)
    }
}

/// A part written out.
pub open spec fn part_text(part: Part) -> Seq<char> {
    match part {
        Part::Root => seq![],
        Part::Current => seq!['.'],
        Part::Parent => seq!['.', '.'],
        Part::Name(name) => name,
    }
}

/// The path that parts make.
pub open spec fn path_of(parts: Seq<Part>) -> Seq<char> {
    separated(parts.map_values(|part: Part| part_text(part)), "/"@)
}

/// A path without its first part; nothing where nothing is left.
pub open spec fn stripped(path: Seq<char>) -> Option<Seq<char>> {
    let all = parts(path);
    if all.len() <= 1 {
        None
    } else {
        Some(path_of(all.skip(1)))
    }
}

/// Whether every part of a path is a plain name, so that nothing steps
/// outside the directory that it is put under.
pub open spec fn is_contained(path: Seq<char>) -> bool {
    forall|i: int| 0 <= i < parts(path).len() ==> (#[trigger] parts(path)[i]) is Name
}

/// One part of a path, as it is read.
enum PathPart {
    Root,
    Current,
    Parent,
    Name(String),
}

impl View for PathPart {
    type V = Part;

    closed spec fn view(&self) -> Part {
        match *self {
            PathPart::Root => Part::Root,
            PathPart::Current => Part::Current,
            PathPart::Parent => Part::Parent,
            PathPart::Name(name) => Part::Name(name@),
        }
    }
}

/// What a list of parts says.
spec fn parts_view(list: Seq<PathPart>) -> Seq<Part> {
    list.map_values(|part: PathPart| part@)
}

/// The part that a segment makes, if it makes one.
fn read_segment(segment: String, front: bool) -> (part: Option<PathPart>)
    ensures
        match part {
            Some(part) => segment_parts(segment@, front) == seq![part@],
            None => segment_parts(segment@, front) == Seq::<Part>::empty(),
        },
{
    let chars = chars_of(segment.as_str());
    if chars.len() == 0 {
        return None;
    }
    if chars.len() == 1 && chars[0] == '.' {
        assert(segment@ =~= seq!['.']);
        return if front {
            Some(PathPart::Current)
        } else {
            None
        };
    }
    if chars.len() == 2 && chars[0] == '.' && chars[1] == '.' {
        assert(segment@ =~= seq!['.', '.']);
        return Some(PathPart::Parent);
    }
    assert(segment@ != seq!['.']) by {
        if segment@ == seq!['.'] {
            assert(segment@[0] == '.');
        }
    }
    assert(segment@ != seq!['.', '.']) by {
        if segment@ == seq!['.', '.'] {
            assert(segment@[0] == '.' && segment@[1] == '.');
        }
    }
    Some(PathPart::Name(segment))
}

/// The parts of a path.
fn read_parts(path: &str) -> (list: Vec<PathPart>)
    ensures
        parts_view(list@) == parts(path@),
{
    let s = chars_of(path);
    let len: usize = s.len();
    let mut list: Vec<PathPart> = Vec::new();
    if len > 0 && s[0] == '/' {
        list.push(PathPart::Root);
    }
    let ghost head = parts_view(list@);
    let mut i: usize = 0;
    assert(head + parts_from(path@, 0) =~= parts(path@));
    while i < len
        invariant
            s@ == path@,
            len == s@.len(),
            i <= len,
            parts_view(list@) + parts_from(path@, i as int) == parts(path@),
        decreases len - i,
    {
        let mut end: usize = i;
        while end < len && s[end] != '/'
            invariant
                s@ == path@,
                len == s@.len(),
                i <= end <= len,
                segment_end(path@, i as int) == segment_end(path@, end as int),
            decreases len - end,
        {
            end += 1;
        }
        let ghost before = parts_view(list@);
        let ghost rest = if end < len {
            parts_from(path@, end + 1)
        } else {
            seq![]
        };
        let segment = string_of(&s, i, end);
        let ghost made = segment_parts(segment@, i == 0);
        assert(parts_from(path@, i as int) == made + rest);
        if let Some(part) = read_segment(segment, i == 0) {
            list.push(part);
            assert(parts_view(list@) =~= before + made);
        } else {
            assert(before + made =~= before);
        }
        assert(before + (made + rest) =~= parts_view(list@) + rest);
        if end == len {
            i = len;
            assert(parts_from(path@, len as int) =~= Seq::<Part>::empty());
        } else {
            i = end + 1;
        }
    }
    assert(parts_view(list@) + parts_from(path@, i as int) =~= parts_view(list@));
    list
}

/// Drop the first part of a path (`repo-ref/src/x.lua` becomes `src/x.lua`).
pub fn strip_top_level(path: &str) -> (rest: Option<String>)
    ensures
        match rest {
            Some(rest) => stripped(path@) == Some(rest@),
            None => stripped(path@) is None,
        },
{
    let list = read_parts(path);
    let ghost all = parts(path@);
    assert(parts_view(list@).len() == list@.len());
    if list.len() <= 1 {
        return None;
    }
    let ghost wanted = all.skip(1).map_values(|part: Part| part_text(part));
    let mut names: Vec<String> = Vec::new();
    let mut i: usize = 1;
    while i < list.len()
        invariant
            parts_view(list@) == all,
            1 <= i <= list@.len(),
            names@.len() == i - 1,
            wanted == all.skip(1).map_values(|part: Part| part_text(part)),
            texts(names@) =~= wanted.take(i - 1),
        decreases list@.len() - i,
    {
        let mut name = String::new();
        match &list[i] {
            PathPart::Root => {},
            PathPart::Current => {
                name.push('.');
            },
            PathPart::Parent => {
                name.push('.');
                name.push('.');
            },
            PathPart::Name(plain) => {
                name.append(plain.as_str());
            },
        }
        proof {
            assert(all[i as int] == list@[i as int]@);
            assert(wanted[i - 1] == part_text(all[i as int]));
            assert(name@ =~= part_text(all[i as int]));
        }
        names.push(name);
        i += 1;
    }
    assert(texts(names@) =~= wanted);
    Some(text::join(&names, "/"))
}

/// Whether every part of a path is a plain name.
pub fn contained(path: &str) -> (yes: bool)
    ensures
        yes == is_contained(path@),
{
    let list = read_parts(path);
    let ghost all = parts(path@);
    assert(parts_view(list@).len() == list@.len());
    let mut i: usize = 0;
    while i < list.len()
        invariant
            parts_view(list@) == all,
            all == parts(path@),
            all.len() == list@.len(),
            i <= list@.len(),
            forall|k: int| 0 <= k < i ==> (#[trigger] all[k]) is Name,
        decreases list@.len() - i,
    {
        assert(all[i as int] == list@[i as int]@);
        match &list[i] {
            PathPart::Name(_) => {},
            _ => {
                return false;
            },
        }
        i += 1;
    }
    true
}

/// Where an entry of an archive goes below the target: nowhere for the
/// top-level directory itself; an entry that would step outside is refused.
pub fn entry_target(path: &str) -> (target: Result<Option<String>, String>)
    ensures
        match target {
            Ok(Some(target)) => stripped(path@) == Some(target@) && is_contained(target@),
            Ok(None) => stripped(path@) is None,
            Err(error) => stripped(path@) is Some && !is_contained(stripped(path@)->0) && error@
                == "archive entry escapes the target directory: "@ + path@,
        },
{
    match strip_top_level(path) {
        None => Ok(None),
        Some(target) => {
            if contained(target.as_str()) {
                Ok(Some(target))
            } else {
                Err("archive entry escapes the target directory: ".to_owned().concat(path))
            }
        },
    }
}

/// A path that stays inside is relative, and none of its segments leads up.
pub proof fn law_contained_paths_stay_inside(path: Seq<char>)
    requires
        is_contained(path),
    ensures
        path.len() > 0 ==> path[0] != '/',
        forall|i: int|
            0 <= i < parts(path).len() ==> !((#[trigger] parts(path)[i]) is Parent) && !(parts(
                path,
            )[i] is Root),
{
    if path.len() > 0 && path[0] == '/' {
        assert(parts(path)[0] is Root);
    }
}

/// Each game's engine has a repository of its own.
pub proof fn law_games_have_their_own_repositories(game: Game)
    ensures
        repo_of(game) == match game {
            Game::Poe1 => "PathOfBuilding"@,
            Game::Poe2 => "PathOfBuilding-PoE2"@,
        },
        repo_of(Game::Poe1) != repo_of(Game::Poe2),
{
    reveal_strlit("PathOfBuilding");
    reveal_strlit("PathOfBuilding-PoE2");
    assert("PathOfBuilding"@.len() == 14);
    assert("PathOfBuilding-PoE2"@.len() == 19);
}

/// A reference in an address reads back as the same reference, and its slashes
/// stay slashes.
pub proof fn law_references_read_back(reference: Seq<char>)
    ensures
        percent_decoded(safe_reference(reference)) == vstd::utf8::encode_utf8(reference),
        !occurs(safe_reference(reference), "%2F"@),
{
    lemma_slashes_read_back(vstd::utf8::encode_utf8(reference));
}

/// Bytes read back, with their slashes written as slashes.
proof fn lemma_slashes_read_back(bytes: Seq<u8>)
    ensures
        percent_decoded(replaced(percent_encoded(bytes), "%2F"@, "/"@)) == bytes,
        !occurs(replaced(percent_encoded(bytes), "%2F"@, "/"@), "%2F"@),
    decreases bytes.len(),
{
    reveal_strlit("%2F");
    reveal_strlit("/");
    let mark = "%2F"@;
    assert(mark.len() == 3 && mark[0] == '%' && mark[1] == '2' && mark[2] == 'F');
    assert("/"@ =~= seq!['/']);
    if bytes.len() > 0 {
        let byte = bytes[0];
        let rest = bytes.skip(1);
        assert(bytes =~= seq![byte] + rest);
        lemma_encoded_front(byte, rest);
        lemma_slashes_read_back(rest);
        let head = encoded_byte(byte);
        let tail = percent_encoded(rest);
        let out = replaced(tail, mark, "/"@);
        let all = head + tail;
        if byte == 47 {
            assert(head =~= mark);
            assert(all.subrange(0, 3) =~= mark);
            assert(all.skip(3) =~= tail);
            let now = "/"@ + out;
            assert(replaced(all, mark, "/"@) == now);
            assert(now[0] == '/');
            assert(now.skip(1) =~= out);
            assert(percent_decoded(now) =~= seq![47u8] + rest);
            lemma_no_mark("/"@, out);
        } else {
            assert forall|k: int| 0 <= k < head.len() implies !#[trigger] is_at(all, mark, k) by {
                if is_at(all, mark, k) {
                    assert(all.subrange(k, k + 3)[0] == all[k]);
                    assert(all.subrange(k, k + 3)[1] == all[k + 1]);
                    assert(all.subrange(k, k + 3)[2] == all[k + 2]);
                    assert(all[k] == head[k]);
                }
            }
            text::lemma_replaced_passes(head, tail, mark, "/"@);
            let now = head + out;
            lemma_no_mark(head, out);
            if is_unreserved(byte) {
                assert(now[0] == byte as char);
                assert(now.skip(1) =~= out);
                assert(percent_decoded(now) =~= seq![byte] + rest);
            } else {
                assert(now[0] == '%');
                assert(now[1] == hex_digit(byte as int / 16));
                assert(now[2] == hex_digit(byte as int % 16));
                assert(now.skip(3) =~= out);
                assert(percent_decoded(now) =~= seq![byte] + rest);
            }
        }
    } else {
        assert(percent_encoded(bytes) =~= seq![]);
        assert(replaced(percent_encoded(bytes), mark, "/"@) =~= seq![]);
        assert(percent_decoded(seq![]) =~= bytes);
        lemma_no_mark(seq![], seq![]);
    }
}

/// One character behind another makes no mark where neither holds one.
proof fn lemma_no_mark(head: Seq<char>, out: Seq<char>)
    requires
        head.len() <= 1 || head.len() == 3,
        head.len() == 1 ==> head[0] != '%',
        head.len() == 3 ==> head[1] != '%' && head[2] != '%' && !(head[1] == '2' && head[2] == 'F'),
        head.len() > 0 || out.len() == 0,
        !occurs(out, "%2F"@) || out.len() == 0,
    ensures
        !occurs(head + out, "%2F"@),
{
    reveal_strlit("%2F");
    let mark = "%2F"@;
    assert(mark.len() == 3 && mark[0] == '%' && mark[1] == '2' && mark[2] == 'F');
    let all = head + out;
    if occurs(all, mark) {
        let k = choose|k: int| #[trigger] is_at(all, mark, k);
        assert(all.subrange(k, k + 3)[0] == all[k]);
        assert(all.subrange(k, k + 3)[1] == all[k + 1]);
        assert(all.subrange(k, k + 3)[2] == all[k + 2]);
        if k >= head.len() {
            let j = k - head.len();
            assert(out.subrange(j, j + 3) =~= all.subrange(k, k + 3));
            assert(is_at(out, mark, j));
        }
    }
}

/// Whether a text is a plain name: not empty, without slashes, and neither of
/// the two names for directories.
pub open spec fn is_plain_name(name: Seq<char>) -> bool {
    &&& name.len() > 0
    &&& forall|i: int| 0 <= i < name.len() ==> #[trigger] name[i] != '/'
    &&& name != seq!['.']
    &&& name != seq!['.', '.']
}

/// A path of plain names stays inside, and from an archive it goes below the
/// target without its first name; a name alone is the top directory itself.
pub proof fn law_entries_lose_their_top_directory(top: Seq<char>, names: Seq<Seq<char>>)
    requires
        is_plain_name(top),
        names.len() > 0,
        forall|i: int| 0 <= i < names.len() ==> is_plain_name(#[trigger] names[i]),
    ensures
        stripped(top) is None,
        stripped(top + seq!['/'] + separated(names, seq!['/'])) == Some(
            separated(names, seq!['/']),
        ),
        is_contained(separated(names, seq!['/'])),
{
    reveal_strlit("/");
    assert("/"@ =~= seq!['/']);
    let path = separated(names, seq!['/']);
    assert(path.skip(0) =~= path);
    lemma_plain_parts(names, path, 0);
    lemma_separated_begins(names);
    let listed = names.map_values(|name: Seq<char>| Part::Name(name));
    assert(parts(path) =~= listed);
    let one = seq![top];
    assert(separated(one, seq!['/']) == top);
    assert(top.skip(0) =~= top);
    lemma_plain_parts(one, top, 0);
    assert(top[0] != '/');
    assert(parts(top).len() == 1);
    let all = one + names;
    text::law_separated_lists_append(one, names, seq!['/']);
    let whole = top + seq!['/'] + path;
    assert(separated(all, seq!['/']) =~= whole);
    assert forall|i: int| 0 <= i < all.len() implies is_plain_name(#[trigger] all[i]) by {
        if i > 0 {
            assert(all[i] == names[i - 1]);
        }
    }
    assert(whole.skip(0) =~= whole);
    lemma_plain_parts(all, whole, 0);
    assert(whole[0] == top[0]);
    let every = all.map_values(|name: Seq<char>| Part::Name(name));
    assert(parts(whole) =~= every);
    assert(every.skip(1) =~= listed);
    let shown = listed.map_values(|part: Part| part_text(part));
    assert(shown =~= names);
}

/// A path of plain names does not begin with a slash.
proof fn lemma_separated_begins(names: Seq<Seq<char>>)
    requires
        names.len() > 0,
        forall|i: int| 0 <= i < names.len() ==> is_plain_name(#[trigger] names[i]),
    ensures
        separated(names, seq!['/']).len() > 0,
        separated(names, seq!['/'])[0] == names[0][0],
        separated(names, seq!['/'])[0] != '/',
    decreases names.len(),
{
    assert(is_plain_name(names[0]));
    if names.len() > 1 {
        assert forall|i: int| 0 <= i < names.drop_last().len() implies is_plain_name(
            #[trigger] names.drop_last()[i],
        ) by {
            assert(names.drop_last()[i] == names[i]);
        }
        lemma_separated_begins(names.drop_last());
    }
}

/// The parts of plain names with slashes between them are the names.
proof fn lemma_plain_parts(names: Seq<Seq<char>>, s: Seq<char>, i: int)
    requires
        names.len() > 0,
        forall|k: int| 0 <= k < names.len() ==> is_plain_name(#[trigger] names[k]),
        0 <= i <= s.len(),
        s.skip(i) == separated(names, seq!['/']),
    ensures
        parts_from(s, i) == names.map_values(|name: Seq<char>| Part::Name(name)),
    decreases names.len(),
{
    let first = names[0];
    assert(is_plain_name(first));
    let end = i + first.len();
    let listed = names.map_values(|name: Seq<char>| Part::Name(name));
    lemma_separated_begins(names);
    if names.len() == 1 {
        assert(s.skip(i) =~= first);
        assert(s.len() == end);
        assert forall|k: int| i <= k < end implies #[trigger] s[k] != '/' by {
            assert(s.skip(i)[k - i] == s[k]);
            assert(first[k - i] != '/');
        }
        lemma_segment_end(s, i, end);
        assert(s.subrange(i, end) =~= first);
        assert(parts_from(s, i) =~= listed);
    } else {
        let rest = names.skip(1);
        assert(names =~= seq![first] + rest);
        text::law_separated_lists_append(seq![first], rest, seq!['/']);
        let tail = separated(rest, seq!['/']);
        assert(s.skip(i) =~= first + seq!['/'] + tail);
        assert forall|k: int| i <= k < end implies #[trigger] s[k] != '/' by {
            assert(s.skip(i)[k - i] == s[k]);
            assert(first[k - i] != '/');
        }
        assert(s.skip(i)[first.len() as int] == '/');
        assert(s[end] == '/');
        lemma_segment_end(s, i, end);
        assert(s.subrange(i, end) =~= first) by {
            assert forall|k: int| 0 <= k < first.len() implies s.subrange(i, end)[k]
                == #[trigger] first[k] by {
                assert(s.skip(i)[k] == s[i + k]);
            }
        }
        assert(s.skip(end + 1) =~= tail) by {
            assert(s.skip(i).skip(first.len() as int + 1) =~= tail);
            assert(s.skip(end + 1) =~= s.skip(i).skip(first.len() as int + 1));
        }
        assert forall|k: int| 0 <= k < rest.len() implies is_plain_name(#[trigger] rest[k]) by {
            assert(rest[k] == names[k + 1]);
        }
        lemma_plain_parts(rest, s, end + 1);
        assert(parts_from(s, i) =~= listed);
    }
}

/// A segment ends at the next slash.
proof fn lemma_segment_end(s: Seq<char>, i: int, end: int)
    requires
        0 <= i <= end <= s.len(),
        forall|k: int| i <= k < end ==> #[trigger] s[k] != '/',
        end < s.len() ==> s[end] == '/',
    ensures
        segment_end(s, i) == end,
    decreases end - i,
{
    if i < end {
        assert(s[i] != '/');
        lemma_segment_end(s, i + 1, end);
    }
}

/// A path that leads up, at its front or behind a slash, is not contained, and
/// neither is one from the root.
pub proof fn law_paths_that_lead_out_are_refused(rest: Seq<char>)
    ensures
        !is_contained(seq!['/'] + rest),
        !is_contained(seq!['.', '.', '/'] + rest),
        !is_contained(seq!['.', '.']),
        !is_contained(seq!['.', '/'] + rest),
{
    let rooted = seq!['/'] + rest;
    assert(parts(rooted)[0] is Root);
    let up = seq!['.', '.', '/'] + rest;
    lemma_segment_end(up, 0, 2);
    assert(up.subrange(0, 2) =~= seq!['.', '.']);
    assert(parts(up)[0] is Parent);
    let bare = seq!['.', '.'];
    lemma_segment_end(bare, 0, 2);
    assert(bare.subrange(0, 2) =~= bare);
    assert(parts(bare)[0] is Parent);
    let here = seq!['.', '/'] + rest;
    lemma_segment_end(here, 0, 1);
    assert(here.subrange(0, 1) =~= seq!['.']);
    assert(parts(here)[0] is Current);
}

}
