//! Build XML: which game a build belongs to, and putting hypothetical
//! modifier lines into it. The engines' parser drops comments before parsing,
//! knows the five named entities and tolerates white space in end tags; the
//! scans here do the same.

use vstd::prelude::*;

use crate::text;
use crate::text::{chars_of, index_of, is_at, occurs, separated, string_of, texts, trimmed};
use crate::toolkit::{game_id, Game};

verus! {

/// The text from `i` on without comments; one that is never closed drops the
/// rest.
pub open spec fn uncommented(s: Seq<char>, i: int) -> Seq<char>
    decreases s.len() - i,
{
    if i < 0 || i >= s.len() {
        seq![]
    } else if !is_at(s, seq!['<', '!', '-', '-'], i) {
        seq![s[i]] + uncommented(s, i + 1)
    } else {
        match index_of(s, seq!['-', '-', '>'], i + 4) {
            None => seq![],
            Some(end) => if i < end + 3 <= s.len() {
                uncommented(s, end + 3)
            } else {
                seq![]
            },
        }
    }
}

/// Build XML without comments. Sections of character data are refused:
/// genuine exports never hold them, and a text scan cannot be made safe
/// inside them.
pub open spec fn prepared(xml: Seq<char>) -> Result<Seq<char>, Seq<char>> {
    if occurs(xml, "<![CDATA["@) {
        Err("CDATA sections are not supported — export the build from Path of Building"@)
    } else {
        Ok(uncommented(xml, 0))
    }
}

/// Whether a character ends the name in an open tag.
pub open spec fn ends_name(c: char) -> bool {
    c == '>' || c == '/' || is_blank(c)
}

/// Whether a character is blank between the parts of a tag.
pub open spec fn is_blank(c: char) -> bool {
    c == ' ' || c == '\t' || c == '\r' || c == '\n'
}

/// An open tag: where it begins, the position behind it, and whether it is
/// closed by itself.
pub ghost struct OpenTag {
    /// Where it begins.
    pub start: int,
    /// The position behind it.
    pub after: int,
    /// Whether it is closed by itself.
    pub closed: bool,
}

/// The next `<name ...>` open tag at or after `from`. The character behind the
/// name must end it, so that `Config` is not taken for `ConfigSet`, nor
/// `PathOfBuilding` for `PathOfBuilding2`.
pub open spec fn open_tag(s: Seq<char>, name: Seq<char>, from: int) -> Option<OpenTag>
    decreases s.len() - from,
{
    match index_of(s, seq!['<'] + name, from) {
        None => None,
        Some(start) => {
            let after = start + 1 + name.len();
            if from < 0 || start < from || after > s.len() {
                None
            } else if after < s.len() && ends_name(s[after]) {
                match index_of(s, seq!['>'], after) {
                    None => None,
                    Some(gt) => Some(
                        OpenTag { start, after: gt + 1, closed: gt > 0 && s[gt - 1] == '/' },
                    ),
                }
            } else {
                open_tag(s, name, after)
            }
        },
    }
}

/// The first position from `i` on that holds no blank.
pub open spec fn blanks_end(s: Seq<char>, i: int) -> int
    decreases s.len() - i,
{
    if 0 <= i < s.len() && is_blank(s[i]) {
        blanks_end(s, i + 1)
    } else {
        i
    }
}

/// Where the next `</name>` end tag at or after `from` begins; blanks may
/// stand before its `>`.
pub open spec fn end_tag(s: Seq<char>, name: Seq<char>, from: int) -> Option<int>
    decreases s.len() - from,
{
    match index_of(s, seq!['<', '/'] + name, from) {
        None => None,
        Some(start) => {
            let after = start + 2 + name.len();
            if from < 0 || start < from || after > s.len() {
                None
            } else if blanks_end(s, after) < s.len() && s[blanks_end(s, after)] == '>' {
                Some(start)
            } else {
                end_tag(s, name, after)
            }
        },
    }
}

/// Whether a build belongs to a game. Each game's engine uses its own root
/// element and silently loads a default build when given the other's.
pub open spec fn belongs_to(game: Game, xml: Seq<char>) -> bool {
    match game {
        Game::Poe2 => open_tag(xml, "PathOfBuilding2"@, 0) is Some,
        Game::Poe1 => open_tag(xml, "PathOfBuilding2"@, 0) is None && open_tag(
            xml,
            "PathOfBuilding"@,
            0,
        ) is Some,
    }
}

/// Why a build is refused that does not belong to the game.
pub open spec fn wrong_game(game: Game) -> Seq<char> {
    "this build XML does not belong to "@ + game_id(game)
        + ": poe1 builds use a <PathOfBuilding> root, poe2 builds <PathOfBuilding2> — never feed one game's build to the other"@
}

/// What a character becomes in XML text.
pub open spec fn escaped_char(c: char) -> Seq<char> {
    if c == '<' {
        "&lt;"@
    } else if c == '>' {
        "&gt;"@
    } else if c == '&' {
        "&amp;"@
    } else if c == '\'' {
        "&apos;"@
    } else if c == '"' {
        "&quot;"@
    } else {
        seq![c]
    }
}

/// A text escaped for XML.
pub open spec fn escaped(s: Seq<char>) -> Seq<char>
    decreases s.len(),
{
    if s.len() == 0 {
        seq![]
    } else {
        escaped(s.drop_last()) + escaped_char(s.last())
    }
}

/// The modifier lines, trimmed and escaped, one per line.
pub open spec fn mod_text(mods: Seq<Seq<char>>) -> Seq<char> {
    separated(mods.map_values(|line: Seq<char>| escaped(trimmed(line))), seq!['\n'])
}

/// What is put into a build for modifier lines. The engine of Path of Exile 1
/// keeps custom modifiers in elements, of which another one composes with
/// those that are there; that of Path of Exile 2 in an input.
pub open spec fn mod_payload(game: Game, mods: Seq<Seq<char>>) -> Seq<char> {
    match game {
        Game::Poe1 => "<CustomModifierBlock title=\"exile-whatif\" enabled=\"true\">"@ + mod_text(
            mods,
        ) + "</CustomModifierBlock>"@,
        Game::Poe2 => "<Input name=\"customMods\" string=\""@ + mod_text(mods) + "\"/>"@,
    }
}

/// The text from `cursor` on with the payload at the end of every
/// `<ConfigSet>` element, those closed by themselves expanded; and how many
/// there are.
pub open spec fn with_sets(s: Seq<char>, payload: Seq<char>, cursor: int) -> Result<
    (Seq<char>, nat),
    Seq<char>,
>
    decreases s.len() - cursor,
{
    match open_tag(s, "ConfigSet"@, cursor) {
        None => Ok((s.skip(cursor), 0)),
        Some(tag) => if !(0 <= cursor <= tag.start && tag.start + 2 <= tag.after <= s.len()) {
            Ok((s.skip(cursor), 0))
        } else if tag.closed {
            match with_sets(s, payload, tag.after) {
                Err(error) => Err(error),
                Ok((rest, count)) => Ok(
                    (
                        s.subrange(cursor, tag.after - 2) + seq!['>'] + payload + "</ConfigSet>"@
                            + rest,
                        count + 1,
                    ),
                ),
            }
        } else {
            match end_tag(s, "ConfigSet"@, tag.after) {
                None => Err("build XML has an unterminated ConfigSet section"@),
                Some(end) => if !(tag.after <= end <= s.len()) {
                    Ok((s.skip(cursor), 0))
                } else {
                    match with_sets(s, payload, end) {
                        Err(error) => Err(error),
                        Ok((rest, count)) => Ok(
                            (s.subrange(cursor, end) + payload + rest, count + 1),
                        ),
                    }
                },
            }
        },
    }
}

/// A text with another put in at a position.
pub open spec fn spliced(s: Seq<char>, at: int, payload: Seq<char>) -> Seq<char> {
    s.take(at) + payload + s.skip(at)
}

/// Whether there is no modifier line but blank ones.
pub open spec fn no_mods(mods: Seq<Seq<char>>) -> bool {
    forall|i: int| 0 <= i < mods.len() ==> trimmed(#[trigger] mods[i]).len() == 0
}

/// A config section with the payload in it.
pub open spec fn config_section(payload: Seq<char>) -> Seq<char> {
    "<Config>"@ + payload + "</Config>"@
}

/// Whether the next `<name ...>` open tag is closed by itself.
pub open spec fn is_closed(xml: Seq<char>, name: Seq<char>) -> bool {
    open_tag(xml, name, 0) is Some && open_tag(xml, name, 0)->0.closed
}

/// A text whose next `<name ...>` element, closed by itself, is expanded in
/// place around `inside`, with its attributes.
pub open spec fn expanded(xml: Seq<char>, name: Seq<char>, inside: Seq<char>) -> Seq<char> {
    let after = open_tag(xml, name, 0)->0.after;
    xml.take(after - 2) + (">"@ + inside + "</"@ + name + ">"@) + xml.skip(after)
}

/// A build without config sets, with the payload in its config section, which
/// is made where there is none.
pub open spec fn with_config(xml: Seq<char>, payload: Seq<char>) -> Result<Seq<char>, Seq<char>> {
    match end_tag(xml, "Config"@, 0) {
        Some(at) => Ok(spliced(xml, at, payload)),
        None => match open_tag(xml, "Config"@, 0) {
            Some(_) => if is_closed(xml, "Config"@) {
                Ok(expanded(xml, "Config"@, payload))
            } else {
                Err("build XML has an unterminated Config section"@)
            },
            None => with_root(xml, config_section(payload)),
        },
    }
}

/// A build with a section at the end of its root element.
pub open spec fn with_root(xml: Seq<char>, section: Seq<char>) -> Result<Seq<char>, Seq<char>> {
    if end_tag(xml, "PathOfBuilding2"@, 0) is Some {
        Ok(spliced(xml, end_tag(xml, "PathOfBuilding2"@, 0)->0, section))
    } else if end_tag(xml, "PathOfBuilding"@, 0) is Some {
        Ok(spliced(xml, end_tag(xml, "PathOfBuilding"@, 0)->0, section))
    } else if is_closed(xml, "PathOfBuilding2"@) {
        Ok(expanded(xml, "PathOfBuilding2"@, section))
    } else if is_closed(xml, "PathOfBuilding"@) {
        Ok(expanded(xml, "PathOfBuilding"@, section))
    } else {
        Err("not a Path of Building build XML (no PathOfBuilding element)"@)
    }
}

/// A build with hypothetical modifier lines put in: into every config set, so
/// that the active one has them; else into the config section.
pub open spec fn injected(game: Game, xml: Seq<char>, mods: Seq<Seq<char>>) -> Result<
    Seq<char>,
    Seq<char>,
> {
    if no_mods(mods) {
        Err("`custom_mods` must contain at least one modifier line"@)
    } else if occurs(xml, "\"customMods\""@) || occurs(xml, "'customMods'"@) {
        Err(
            "this build already carries legacy customMods text — remove it (or re-save the build in current Path of Building) before running a what-if"@,
        )
    } else {
        match with_sets(xml, mod_payload(game, mods), 0) {
            Err(error) => Err(error),
            Ok((changed, count)) => if count > 0 {
                Ok(changed)
            } else {
                with_config(xml, mod_payload(game, mods))
            },
        }
    }
}

/// Build XML without comments.
pub fn prepare_xml(xml: &str) -> (out: Result<String, String>)
    ensures
        match out {
            Ok(out) => prepared(xml@) is Ok && prepared(xml@)->Ok_0 == out@,
            Err(error) => prepared(xml@) is Err && prepared(xml@)->Err_0 == error@,
        },
{
    if text::contains(xml, "<![CDATA[") {
        return Err(
            "CDATA sections are not supported — export the build from Path of Building".to_owned(),
        );
    }
    let s = chars_of(xml);
    let comment: Vec<char> = vec!['<', '!', '-', '-'];
    let comment_end: Vec<char> = vec!['-', '-', '>'];
    assert(comment@ =~= seq!['<', '!', '-', '-']);
    assert(comment_end@ =~= seq!['-', '-', '>']);
    let mut out = String::new();
    let mut i: usize = 0;
    assert(out@ + uncommented(xml@, 0) =~= uncommented(xml@, 0));
    while i < s.len()
        invariant
            s@ == xml@,
            comment@ == seq!['<', '!', '-', '-'],
            comment_end@ == seq!['-', '-', '>'],
            !occurs(xml@, "<![CDATA["@),
            i <= s@.len(),
            out@ + uncommented(xml@, i as int) == uncommented(xml@, 0),
        decreases s@.len() - i,
    {
        let ghost before = out@;
        if !text::stands_at(&s, &comment, i) {
            out.push(s[i]);
            assert(before + (seq![s@[i as int]] + uncommented(xml@, i + 1)) =~= out@ + uncommented(
                xml@,
                i + 1,
            ));
            i += 1;
        } else {
            match text::find(&s, &comment_end, i + 4) {
                None => {
                    assert(out@ + Seq::<char>::empty() =~= out@);
                    return Ok(out);
                },
                Some(end) => {
                    i = end + 3;
                },
            }
        }
    }
    assert(out@ + uncommented(xml@, i as int) =~= out@);
    Ok(out)
}

/// The next `<name ...>` open tag at or after `from`: where it begins, the
/// position behind it, and whether it is closed by itself.
pub fn find_open_tag(s: &[char], name: &str, from: usize) -> (tag: Option<(usize, usize, bool)>)
    requires
        from <= s@.len(),
    ensures
        match tag {
            Some((start, after, closed)) => open_tag(s@, name@, from as int) == Some(
                OpenTag { start: start as int, after: after as int, closed },
            ) && from <= start && start + 2 <= after <= s@.len(),
            None => open_tag(s@, name@, from as int) is None,
        },
{
    let len: usize = s.len();
    let mut needle: Vec<char> = vec!['<'];
    let mut letters = chars_of(name);
    needle.append(&mut letters);
    assert(needle@ =~= seq!['<'] + name@);
    let mut search: usize = from;
    loop
        invariant
            len == s@.len(),
            from <= search <= len,
            needle@ == seq!['<'] + name@,
            open_tag(s@, name@, from as int) == open_tag(s@, name@, search as int),
        decreases len - search,
    {
        match text::find(s, &needle, search) {
            None => {
                return None;
            },
            Some(start) => {
                let after_name: usize = start + needle.len();
                if after_name < len {
                    let c = s[after_name];
                    if c == '>' || c == '/' || c == ' ' || c == '\t' || c == '\r' || c == '\n' {
                        return match text::find_char(s, '>', after_name) {
                            None => None,
                            Some(gt) => Some((start, gt + 1, s[gt - 1] == '/')),
                        };
                    }
                }
                search = after_name;
            },
        }
    }
}

/// Where the next `</name>` end tag at or after `from` begins.
pub fn find_end_tag(s: &[char], name: &str, from: usize) -> (start: Option<usize>)
    requires
        from <= s@.len(),
    ensures
        match start {
            Some(start) => end_tag(s@, name@, from as int) == Some(start as int) && from <= start
                <= s@.len(),
            None => end_tag(s@, name@, from as int) is None,
        },
{
    let len: usize = s.len();
    let mut needle: Vec<char> = vec!['<', '/'];
    let mut letters = chars_of(name);
    needle.append(&mut letters);
    assert(needle@ =~= seq!['<', '/'] + name@);
    let mut search: usize = from;
    loop
        invariant
            len == s@.len(),
            from <= search <= len,
            needle@ == seq!['<', '/'] + name@,
            end_tag(s@, name@, from as int) == end_tag(s@, name@, search as int),
        decreases len - search,
    {
        match text::find(s, &needle, search) {
            None => {
                return None;
            },
            Some(start) => {
                let after: usize = start + needle.len();
                let mut cursor: usize = after;
                while cursor < len && (s[cursor] == ' ' || s[cursor] == '\t' || s[cursor] == '\r'
                    || s[cursor] == '\n')
                    invariant
                        len == s@.len(),
                        after <= cursor <= len,
                        blanks_end(s@, after as int) == blanks_end(s@, cursor as int),
                    decreases len - cursor,
                {
                    cursor += 1;
                }
                if cursor < len && s[cursor] == '>' {
                    return Some(start);
                }
                search = after;
            },
        }
    }
}

/// Check that a build belongs to a game.
pub fn check_game_xml(game: Game, xml: &str) -> (checked: Result<(), String>)
    ensures
        match checked {
            Ok(()) => belongs_to(game, xml@),
            Err(error) => !belongs_to(game, xml@) && error@ == wrong_game(game),
        },
{
    let s = chars_of(xml);
    let second = find_open_tag(&s, "PathOfBuilding2", 0).is_some();
    let matches = match game {
        Game::Poe2 => second,
        Game::Poe1 => !second && find_open_tag(&s, "PathOfBuilding", 0).is_some(),
    };
    if matches {
        Ok(())
    } else {
        let mut error = "this build XML does not belong to ".to_owned();
        error.append(game.as_str());
        error.append(
            ": poe1 builds use a <PathOfBuilding> root, poe2 builds <PathOfBuilding2> — never feed one game's build to the other",
        );
        Err(error)
    }
}

/// A text escaped for XML.
pub fn xml_escape(raw: &str) -> (out: String)
    ensures
        out@ == escaped(raw@),
{
    let s = chars_of(raw);
    let mut out = String::new();
    let mut i: usize = 0;
    assert(s@.take(0) =~= Seq::<char>::empty());
    while i < s.len()
        invariant
            s@ == raw@,
            i <= s@.len(),
            out@ == escaped(s@.take(i as int)),
        decreases s@.len() - i,
    {
        let c = s[i];
        let ghost before = out@;
        proof {
            assert(s@.take(i + 1).drop_last() =~= s@.take(i as int));
            assert(s@.take(i + 1).last() == c);
        }
        if c == '<' {
            out.append("&lt;");
        } else if c == '>' {
            out.append("&gt;");
        } else if c == '&' {
            out.append("&amp;");
        } else if c == '\'' {
            out.append("&apos;");
        } else if c == '"' {
            out.append("&quot;");
        } else {
            out.push(c);
            assert(out@ =~= before + seq![c]);
        }
        i += 1;
    }
    assert(s@.take(i as int) =~= s@);
    out
}

/// What is put into a build for modifier lines.
fn payload_of(game: Game, mods: &Vec<String>) -> (payload: String)
    ensures
        payload@ == mod_payload(game, texts(mods@)),
{
    let ghost all = texts(mods@).map_values(|line: Seq<char>| escaped(trimmed(line)));
    let mut lines: Vec<String> = Vec::new();
    let mut i: usize = 0;
    while i < mods.len()
        invariant
            i <= mods@.len(),
            lines@.len() == i,
            all == texts(mods@).map_values(|line: Seq<char>| escaped(trimmed(line))),
            texts(lines@) =~= all.take(i as int),
        decreases mods@.len() - i,
    {
        lines.push(xml_escape(text::trim(mods[i].as_str())));
        i += 1;
    }
    assert(texts(lines@) =~= all);
    let mut newline = String::new();
    newline.push('\n');
    assert(newline@ =~= seq!['\n']);
    let body = text::join(&lines, newline.as_str());
    let (open, close) = match game {
        Game::Poe1 => (
            "<CustomModifierBlock title=\"exile-whatif\" enabled=\"true\">",
            "</CustomModifierBlock>",
        ),
        Game::Poe2 => ("<Input name=\"customMods\" string=\"", "\"/>"),
    };
    let mut payload = open.to_owned();
    payload.append(body.as_str());
    payload.append(close);
    payload
}

/// What stays of a scan for config sets: the error, or what is behind the
/// part that was read.
pub open spec fn behind_sets(
    out: Seq<char>,
    count: nat,
    rest: Result<(Seq<char>, nat), Seq<char>>,
) -> Result<(Seq<char>, nat), Seq<char>> {
    match rest {
        Err(error) => Err(error),
        Ok((tail, more)) => Ok((out + tail, count + more)),
    }
}

/// Put the payload at the end of every `<ConfigSet>` element; how many there
/// are comes back too.
fn inject_into_config_sets(s: &[char], payload: &str) -> (out: Result<(String, usize), String>)
    ensures
        match out {
            Ok((changed, count)) => with_sets(s@, payload@, 0) is Ok && with_sets(
                s@,
                payload@,
                0,
            )->Ok_0 == (changed@, count as nat),
            Err(error) => with_sets(s@, payload@, 0) is Err && with_sets(s@, payload@, 0)->Err_0
                == error@,
        },
{
    let len: usize = s.len();
    let mut out = String::new();
    let mut cursor: usize = 0;
    let mut count: usize = 0;
    let ghost whole = with_sets(s@, payload@, 0);
    proof {
        if let Ok((tail, more)) = whole {
            assert(out@ + tail =~= tail);
        }
    }
    loop
        invariant
            len == s@.len(),
            cursor <= len,
            count <= cursor,
            whole == with_sets(s@, payload@, 0),
            whole == behind_sets(out@, count as nat, with_sets(s@, payload@, cursor as int)),
        decreases len - cursor,
    {
        let ghost before = out@;
        match find_open_tag(s, "ConfigSet", cursor) {
            None => {
                out.append(string_of(s, cursor, len).as_str());
                assert(s@.subrange(cursor as int, len as int) =~= s@.skip(cursor as int));
                return Ok((out, count));
            },
            Some((_, after_open, closed)) => {
                if closed {
                    out.append(string_of(s, cursor, after_open - 2).as_str());
                    out.push('>');
                    out.append(payload);
                    out.append("</ConfigSet>");
                    proof {
                        let part = s@.subrange(cursor as int, after_open - 2) + seq!['>'] + payload@
                            + "</ConfigSet>"@;
                        assert(out@ =~= before + part);
                        if let Ok((tail, more)) = with_sets(s@, payload@, after_open as int) {
                            assert(before + (part + tail) =~= out@ + tail);
                        }
                    }
                    cursor = after_open;
                } else {
                    match find_end_tag(s, "ConfigSet", after_open) {
                        None => {
                            return Err(
                                "build XML has an unterminated ConfigSet section".to_owned(),
                            );
                        },
                        Some(end) => {
                            out.append(string_of(s, cursor, end).as_str());
                            out.append(payload);
                            proof {
                                let part = s@.subrange(cursor as int, end as int) + payload@;
                                assert(out@ =~= before + part);
                                if let Ok((tail, more)) = with_sets(s@, payload@, end as int) {
                                    assert(before + (part + tail) =~= out@ + tail);
                                }
                            }
                            cursor = end;
                        },
                    }
                }
                count += 1;
            },
        }
    }
}

/// A text with another put in at a position.
fn splice(s: &[char], at: usize, payload: &str) -> (out: String)
    requires
        at <= s@.len(),
    ensures
        out@ == spliced(s@, at as int, payload@),
{
    let mut out = string_of(s, 0, at);
    out.append(payload);
    out.append(string_of(s, at, s.len()).as_str());
    assert(s@.subrange(0, at as int) =~= s@.take(at as int));
    assert(s@.subrange(at as int, s@.len() as int) =~= s@.skip(at as int));
    out
}

/// The position behind the next `<name ...>` element, if it is closed by
/// itself.
fn behind_closed(s: &[char], name: &str) -> (after: Option<usize>)
    ensures
        after is Some <==> is_closed(s@, name@),
        after is Some ==> after->0 == open_tag(s@, name@, 0)->0.after && 2 <= after->0 <= s@.len(),
{
    match find_open_tag(s, name, 0) {
        Some((_, after, true)) => Some(after),
        _ => None,
    }
}

/// A text with the element in front of `after`, which is closed by itself,
/// expanded in place, keeping its attributes.
fn expand(s: &[char], name: &str, after: usize, inside: &str) -> (out: String)
    requires
        is_closed(s@, name@),
        after == open_tag(s@, name@, 0)->0.after,
        2 <= after <= s@.len(),
    ensures
        out@ == expanded(s@, name@, inside@),
{
    let mut out = string_of(s, 0, after - 2);
    let mut middle = ">".to_owned();
    middle.append(inside);
    middle.append("</");
    middle.append(name);
    middle.append(">");
    out.append(middle.as_str());
    out.append(string_of(s, after, s.len()).as_str());
    proof {
        assert(s@.subrange(0, after - 2) =~= s@.take(after - 2));
        assert(s@.subrange(after as int, s@.len() as int) =~= s@.skip(after as int));
    }
    out
}

/// A build without config sets, with the payload in its config section.
fn inject_into_config(s: &[char], payload: &str) -> (out: Result<String, String>)
    ensures
        match out {
            Ok(out) => with_config(s@, payload@) is Ok && with_config(s@, payload@)->Ok_0 == out@,
            Err(error) => with_config(s@, payload@) is Err && with_config(s@, payload@)->Err_0
                == error@,
        },
{
    if let Some(at) = find_end_tag(s, "Config", 0) {
        return Ok(splice(s, at, payload));
    }
    if let Some(after) = behind_closed(s, "Config") {
        return Ok(expand(s, "Config", after, payload));
    }
    if find_open_tag(s, "Config", 0).is_some() {
        return Err("build XML has an unterminated Config section".to_owned());
    }
    let mut section = "<Config>".to_owned();
    section.append(payload);
    section.append("</Config>");
    if let Some(at) = find_end_tag(s, "PathOfBuilding2", 0) {
        return Ok(splice(s, at, section.as_str()));
    }
    if let Some(at) = find_end_tag(s, "PathOfBuilding", 0) {
        return Ok(splice(s, at, section.as_str()));
    }
    if let Some(after) = behind_closed(s, "PathOfBuilding2") {
        return Ok(expand(s, "PathOfBuilding2", after, section.as_str()));
    }
    if let Some(after) = behind_closed(s, "PathOfBuilding") {
        return Ok(expand(s, "PathOfBuilding", after, section.as_str()));
    }
    Err("not a Path of Building build XML (no PathOfBuilding element)".to_owned())
}

/// Whether there is no modifier line but blank ones.
fn all_blank(mods: &Vec<String>) -> (blank: bool)
    ensures
        blank == no_mods(texts(mods@)),
{
    let mut i: usize = 0;
    while i < mods.len()
        invariant
            i <= mods@.len(),
            forall|k: int| 0 <= k < i ==> trimmed(#[trigger] texts(mods@)[k]).len() == 0,
        decreases mods@.len() - i,
    {
        if !text::trim(mods[i].as_str()).is_empty() {
            assert(texts(mods@)[i as int] == mods@[i as int]@);
            return false;
        }
        i += 1;
    }
    true
}

/// Apply hypothetical modifier lines to a build. This happens here so that
/// the model never edits XML by hand.
pub fn inject_custom_mods(game: Game, xml: &str, mods: &Vec<String>) -> (out: Result<String, String>)
    ensures
        match out {
            Ok(out) => injected(game, xml@, texts(mods@)) is Ok && injected(
                game,
                xml@,
                texts(mods@),
            )->Ok_0 == out@,
            Err(error) => injected(game, xml@, texts(mods@)) is Err && injected(
                game,
                xml@,
                texts(mods@),
            )->Err_0 == error@,
        },
{
    if all_blank(mods) {
        return Err("`custom_mods` must contain at least one modifier line".to_owned());
    }
    // Legacy text cannot be composed with by a text scan: one engine discards
    // one of the two carriers when loading, in the other the later silently
    // replaces the earlier. Fail loudly.
    if text::contains(xml, "\"customMods\"") || text::contains(xml, "'customMods'") {
        return Err(
            "this build already carries legacy customMods text — remove it (or re-save the build in current Path of Building) before running a what-if".to_owned(),
        );
    }
    let payload = payload_of(game, mods);
    let s = chars_of(xml);
    match inject_into_config_sets(&s, payload.as_str()) {
        Err(error) => Err(error),
        Ok((changed, count)) => {
            if count > 0 {
                Ok(changed)
            } else {
                inject_into_config(&s, payload.as_str())
            }
        },
    }
}

/// No build belongs to both games, so that one game's build never reaches the
/// other's engine.
pub proof fn law_builds_belong_to_one_game(xml: Seq<char>)
    ensures
        !(belongs_to(Game::Poe1, xml) && belongs_to(Game::Poe2, xml)),
{
}

/// Whether a character would be read as markup.
pub open spec fn is_markup(c: char) -> bool {
    c == '<' || c == '>' || c == '\'' || c == '"'
}

/// Escaped text holds no markup: a modifier line can neither close the
/// element or attribute that it is put into, nor open another.
pub proof fn law_escaped_text_holds_no_markup(s: Seq<char>)
    ensures
        forall|i: int| 0 <= i < escaped(s).len() ==> !is_markup(#[trigger] escaped(s)[i]),
    decreases s.len(),
{
    if s.len() > 0 {
        law_escaped_text_holds_no_markup(s.drop_last());
        reveal_strlit("&lt;");
        reveal_strlit("&gt;");
        reveal_strlit("&amp;");
        reveal_strlit("&apos;");
        reveal_strlit("&quot;");
        let before = escaped(s.drop_last());
        let last = escaped_char(s.last());
        assert forall|i: int| 0 <= i < escaped(s).len() implies !is_markup(
            #[trigger] escaped(s)[i],
        ) by {
            if i < before.len() {
                assert(escaped(s)[i] == before[i]);
            } else {
                assert(escaped(s)[i] == last[i - before.len()]);
            }
        }
    }
}

/// A build without comments is taken as it is.
pub proof fn law_builds_without_comments_stay(xml: Seq<char>)
    requires
        !occurs(xml, seq!['<', '!', '-', '-']),
        !occurs(xml, "<![CDATA["@),
    ensures
        prepared(xml) == Ok::<Seq<char>, Seq<char>>(xml),
{
    lemma_nothing_to_strip(xml, 0);
    assert(xml.skip(0) =~= xml);
}

proof fn lemma_nothing_to_strip(xml: Seq<char>, i: int)
    requires
        !occurs(xml, seq!['<', '!', '-', '-']),
        0 <= i <= xml.len(),
    ensures
        uncommented(xml, i) == xml.skip(i),
    decreases xml.len() - i,
{
    if i < xml.len() {
        lemma_nothing_to_strip(xml, i + 1);
        assert(!is_at(xml, seq!['<', '!', '-', '-'], i));
        assert(uncommented(xml, i) =~= xml.skip(i));
    } else {
        assert(uncommented(xml, i) =~= xml.skip(i));
    }
}

/// Whether a text holds another `n` times, each behind the one before.
pub open spec fn holds_times(s: Seq<char>, needle: Seq<char>, n: nat) -> bool
    decreases n,
{
    n == 0 || exists|i: int| #[trigger]
        is_at(s, needle, i) && holds_times(s.skip(i + needle.len()), needle, (n - 1) as nat)
}

proof fn lemma_holds_behind(front: Seq<char>, back: Seq<char>, needle: Seq<char>, n: nat)
    requires
        holds_times(back, needle, n),
    ensures
        holds_times(front + back, needle, n),
{
    if n > 0 {
        let i = choose|i: int| #[trigger]
            is_at(back, needle, i) && holds_times(
                back.skip(i + needle.len()),
                needle,
                (n - 1) as nat,
            );
        let all = front + back;
        let k = front.len() + i;
        assert(all.subrange(k, k + needle.len()) =~= back.subrange(i, i + needle.len()));
        assert(all.skip(k + needle.len()) =~= back.skip(i + needle.len()));
        assert(is_at(all, needle, k));
    }
}

proof fn lemma_holds_once_more(
    front: Seq<char>,
    needle: Seq<char>,
    back: Seq<char>,
    n: nat,
)
    requires
        holds_times(back, needle, n),
    ensures
        holds_times(front + needle + back, needle, n + 1),
{
    let all = front + needle + back;
    let k = front.len() as int;
    assert(all.subrange(k, k + needle.len()) =~= needle);
    assert(all.skip(k + needle.len()) =~= back);
    assert(is_at(all, needle, k));
}

/// Every config set takes the lines: as many times as there are sets, one
/// behind the other, the build holds what is put in.
pub proof fn law_every_set_takes_the_lines(xml: Seq<char>, payload: Seq<char>, cursor: int)
    requires
        0 <= cursor <= xml.len(),
        with_sets(xml, payload, cursor) is Ok,
    ensures
        holds_times(
            with_sets(xml, payload, cursor)->Ok_0.0,
            payload,
            with_sets(xml, payload, cursor)->Ok_0.1,
        ),
    decreases xml.len() - cursor,
{
    let (out, count) = with_sets(xml, payload, cursor)->Ok_0;
    if count > 0 {
        let tag = open_tag(xml, "ConfigSet"@, cursor)->0;
        if tag.closed {
            law_every_set_takes_the_lines(xml, payload, tag.after);
            let (rest, n) = with_sets(xml, payload, tag.after)->Ok_0;
            let front = xml.subrange(cursor, tag.after - 2) + seq!['>'];
            lemma_holds_behind("</ConfigSet>"@, rest, payload, n);
            lemma_holds_once_more(front, payload, "</ConfigSet>"@ + rest, n);
            assert(out =~= front + payload + ("</ConfigSet>"@ + rest));
        } else {
            let end = end_tag(xml, "ConfigSet"@, tag.after)->0;
            law_every_set_takes_the_lines(xml, payload, end);
            let (rest, n) = with_sets(xml, payload, end)->Ok_0;
            lemma_holds_once_more(xml.subrange(cursor, end), payload, rest, n);
        }
    }
}

proof fn lemma_holds(front: Seq<char>, payload: Seq<char>, back: Seq<char>)
    ensures
        occurs(front + payload + back, payload),
{
    let all = front + payload + back;
    assert(all.subrange(front.len() as int, (front.len() + payload.len()) as int) =~= payload);
    assert(is_at(all, payload, front.len() as int));
}

/// What a part of a text holds, the text holds.
proof fn lemma_around(front: Seq<char>, middle: Seq<char>, back: Seq<char>, needle: Seq<char>)
    requires
        occurs(middle, needle),
    ensures
        occurs(front + middle + back, needle),
{
    let i = choose|i: int| #[trigger] is_at(middle, needle, i);
    let all = front + middle + back;
    let k = front.len() + i;
    assert(all.subrange(k, k + needle.len()) =~= middle.subrange(i, i + needle.len()));
    assert(is_at(all, needle, k));
}

proof fn lemma_expanded_holds(
    xml: Seq<char>,
    name: Seq<char>,
    inside: Seq<char>,
    needle: Seq<char>,
)
    requires
        occurs(inside, needle),
    ensures
        occurs(expanded(xml, name, inside), needle),
{
    let after = open_tag(xml, name, 0)->0.after;
    let back = "</"@ + name + ">"@;
    lemma_around(">"@, inside, back, needle);
    assert(">"@ + inside + back =~= ">"@ + inside + "</"@ + name + ">"@);
    lemma_around(
        xml.take(after - 2),
        ">"@ + inside + "</"@ + name + ">"@,
        xml.skip(after),
        needle,
    );
}

/// A build that takes modifier lines holds what they become.
pub proof fn law_injected_builds_hold_the_lines(game: Game, xml: Seq<char>, mods: Seq<Seq<char>>)
    requires
        injected(game, xml, mods) is Ok,
    ensures
        occurs(injected(game, xml, mods)->Ok_0, mod_payload(game, mods)),
{
    let payload = mod_payload(game, mods);
    let out = injected(game, xml, mods)->Ok_0;
    let sets = with_sets(xml, payload, 0)->Ok_0;
    if sets.1 > 0 {
        let tag = open_tag(xml, "ConfigSet"@, 0)->0;
        if tag.closed {
            let rest = with_sets(xml, payload, tag.after)->Ok_0.0;
            let front = xml.subrange(0, tag.after - 2) + seq!['>'];
            lemma_holds(front, payload, "</ConfigSet>"@ + rest);
            assert(out =~= front + payload + ("</ConfigSet>"@ + rest));
        } else {
            let end = end_tag(xml, "ConfigSet"@, tag.after)->0;
            let rest = with_sets(xml, payload, end)->Ok_0.0;
            lemma_holds(xml.subrange(0, end), payload, rest);
        }
    } else if let Some(at) = end_tag(xml, "Config"@, 0) {
        lemma_holds(xml.take(at), payload, xml.skip(at));
    } else if is_closed(xml, "Config"@) {
        assert(payload.subrange(0, payload.len() as int) =~= payload);
        assert(is_at(payload, payload, 0));
        lemma_expanded_holds(xml, "Config"@, payload, payload);
    } else {
        let section = config_section(payload);
        lemma_holds("<Config>"@, payload, "</Config>"@);
        if let Some(at) = end_tag(xml, "PathOfBuilding2"@, 0) {
            lemma_around(xml.take(at), section, xml.skip(at), payload);
        } else if let Some(at) = end_tag(xml, "PathOfBuilding"@, 0) {
            lemma_around(xml.take(at), section, xml.skip(at), payload);
        } else if is_closed(xml, "PathOfBuilding2"@) {
            lemma_expanded_holds(xml, "PathOfBuilding2"@, section, payload);
        } else {
            lemma_expanded_holds(xml, "PathOfBuilding"@, section, payload);
        }
    }
}

/// Escaping changes the five characters of markup and no other, each to its
/// own entity, and texts are escaped piece by piece.
pub proof fn law_escaping_changes_only_markup(first: Seq<char>, second: Seq<char>, c: char)
    ensures
        escaped(first + second) == escaped(first) + escaped(second),
        escaped(seq!['<']) == "&lt;"@,
        escaped(seq!['>']) == "&gt;"@,
        escaped(seq!['&']) == "&amp;"@,
        escaped(seq!['\'']) == "&apos;"@,
        escaped(seq!['"']) == "&quot;"@,
        c != '<' && c != '>' && c != '&' && c != '\'' && c != '"' ==> escaped(seq![c]) == seq![c],
{
    lemma_escaped_append(first, second);
    lemma_escaped_one('<');
    lemma_escaped_one('>');
    lemma_escaped_one('&');
    lemma_escaped_one('\'');
    lemma_escaped_one('"');
    lemma_escaped_one(c);
}

/// One character is escaped as it is.
proof fn lemma_escaped_one(c: char)
    ensures
        escaped(seq![c]) == escaped_char(c),
{
    let one = seq![c];
    assert(one.drop_last() =~= Seq::<char>::empty());
    assert(escaped(one.drop_last()) =~= Seq::<char>::empty());
    assert(escaped(one) =~= escaped_char(c));
}

/// Texts are escaped piece by piece.
proof fn lemma_escaped_append(first: Seq<char>, second: Seq<char>)
    ensures
        escaped(first + second) == escaped(first) + escaped(second),
    decreases second.len(),
{
    let all = first + second;
    if second.len() == 0 {
        assert(all =~= first);
        assert(escaped(first) + escaped(second) =~= escaped(first));
    } else {
        lemma_escaped_append(first, second.drop_last());
        assert(all.drop_last() =~= first + second.drop_last());
        assert(all.last() == second.last());
        assert(escaped(all) =~= escaped(first) + escaped(second));
    }
}

/// What is put into a build: every line, trimmed and escaped, in its order and
/// on a line of its own, in the form that the game's engine reads.
pub proof fn law_payloads_hold_every_line(game: Game, mods: Seq<Seq<char>>, i: int)
    requires
        0 <= i < mods.len(),
    ensures
        occurs(mod_payload(game, mods), escaped(trimmed(mods[i]))),
        mods.len() == 1 ==> mod_payload(Game::Poe1, mods)
            == "<CustomModifierBlock title=\"exile-whatif\" enabled=\"true\">"@ + escaped(
            trimmed(mods[0]),
        ) + "</CustomModifierBlock>"@,
        mods.len() == 1 ==> mod_payload(Game::Poe2, mods)
            == "<Input name=\"customMods\" string=\""@ + escaped(trimmed(mods[0])) + "\"/>"@,
        forall|k: int|
            0 < k < mods.len() ==> mod_text(mods) == #[trigger] mod_text(mods.take(k)) + seq!['\n']
                + mod_text(mods.skip(k)),
{
    let lines = mods.map_values(|line: Seq<char>| escaped(trimmed(line)));
    text::law_separated_lists_hold_each(lines, seq!['\n'], i);
    let body = mod_text(mods);
    match game {
        Game::Poe1 => {
            lemma_around(
                "<CustomModifierBlock title=\"exile-whatif\" enabled=\"true\">"@,
                body,
                "</CustomModifierBlock>"@,
                lines[i],
            );
        },
        Game::Poe2 => {
            lemma_around("<Input name=\"customMods\" string=\""@, body, "\"/>"@, lines[i]);
        },
    }
    assert forall|k: int| 0 < k < mods.len() implies mod_text(mods) == #[trigger] mod_text(
        mods.take(k),
    ) + seq!['\n'] + mod_text(mods.skip(k)) by {
        let front = mods.take(k).map_values(|line: Seq<char>| escaped(trimmed(line)));
        let back = mods.skip(k).map_values(|line: Seq<char>| escaped(trimmed(line)));
        assert(lines =~= front + back);
        text::law_separated_lists_append(front, back, seq!['\n']);
    }
}

/// Lines are put in only where there is one to put in, and never into a build
/// that carries such text of old.
pub proof fn law_lines_are_refused(game: Game, xml: Seq<char>, mods: Seq<Seq<char>>)
    ensures
        (forall|i: int| 0 <= i < mods.len() ==> trimmed(#[trigger] mods[i]).len() == 0)
            ==> injected(game, xml, mods) is Err,
        occurs(xml, "\"customMods\""@) ==> injected(game, xml, mods) is Err,
        occurs(xml, "'customMods'"@) ==> injected(game, xml, mods) is Err,
{
}

/// A comment in a build leaves nothing: the build goes on behind the first
/// `-->`, and where there is none, it ends.
pub proof fn law_comments_of_builds_vanish(s: Seq<char>, i: int)
    requires
        is_at(s, seq!['<', '!', '-', '-'], i),
    ensures
        uncommented(s, i) == match index_of(s, seq!['-', '-', '>'], i + 4) {
            Some(end) => uncommented(s, end + 3),
            None => seq![],
        },
{
    text::lemma_index_of_first(s, seq!['-', '-', '>'], i + 4);
}

/// A build in front of its comments stays as it is.
pub proof fn law_builds_before_comments_stay(s: Seq<char>, mark: Seq<char>, i: int, to: int)
    requires
        mark == seq!['<', '!', '-', '-'],
        0 <= i <= to <= s.len(),
        forall|k: int| i <= k < to ==> !#[trigger] is_at(s, mark, k),
    ensures
        uncommented(s, i) == s.subrange(i, to) + uncommented(s, to),
    decreases to - i,
{
    if i < to {
        assert(!is_at(s, mark, i));
        law_builds_before_comments_stay(s, mark, i + 1, to);
        assert(uncommented(s, i) =~= s.subrange(i, to) + uncommented(s, to));
    } else {
        assert(uncommented(s, i) =~= s.subrange(i, to) + uncommented(s, to));
    }
}

/// A build with a CDATA section is refused, and any other is made ready.
pub proof fn law_cdata_is_refused(xml: Seq<char>)
    ensures
        prepared(xml) is Err <==> occurs(xml, "<![CDATA["@),
        prepared(xml) matches Ok(ready) ==> ready == uncommented(xml, 0),
{
}

/// A tag that is found is one of the element: its name stands behind a `<`,
/// and behind the name a `>`, a `/` or white space; it ends at the next `>`,
/// and is closed where a `/` stands in front of that.
pub proof fn law_found_tags_are_of_the_element(s: Seq<char>, name: Seq<char>, from: int)
    requires
        0 <= from <= s.len(),
    ensures
        open_tag(s, name, from) matches Some(tag) ==> {
            let behind = tag.start + 1 + name.len();
            &&& from <= tag.start
            &&& is_at(s, seq!['<'] + name, tag.start)
            &&& behind < tag.after <= s.len()
            &&& s[behind] == '>' || s[behind] == '/' || s[behind] == ' ' || s[behind] == '\t'
                || s[behind] == '\r' || s[behind] == '\n'
            &&& s[tag.after - 1] == '>'
            &&& forall|k: int| behind <= k < tag.after - 1 ==> #[trigger] s[k] != '>'
            &&& tag.closed <==> s[tag.after - 2] == '/'
        },
    decreases s.len() - from,
{
    let head = seq!['<'] + name;
    text::lemma_index_of_first(s, head, from);
    if let Some(start) = index_of(s, head, from) {
        let after = start + 1 + name.len();
        if after < s.len() && ends_name(s[after]) {
            text::lemma_index_of_first(s, seq!['>'], after);
            if let Some(gt) = index_of(s, seq!['>'], after) {
                assert(s.subrange(gt, gt + 1)[0] == s[gt]);
                assert forall|k: int| after <= k < gt implies #[trigger] s[k] != '>' by {
                    if s[k] == '>' {
                        assert(s.subrange(k, k + 1) =~= seq!['>']);
                        assert(is_at(s, seq!['>'], k));
                    }
                }
            }
        } else if after <= s.len() {
            law_found_tags_are_of_the_element(s, name, after);
        }
    }
}

/// An end tag that is found is one of the element: its name stands behind
/// `</`, and a `>` behind the name and any white space.
pub proof fn law_found_end_tags_are_of_the_element(s: Seq<char>, name: Seq<char>, from: int)
    requires
        0 <= from <= s.len(),
    ensures
        end_tag(s, name, from) matches Some(start) ==> {
            let behind = start + 2 + name.len();
            &&& from <= start
            &&& is_at(s, seq!['<', '/'] + name, start)
            &&& exists|gt: int|
                {
                    &&& behind <= gt < s.len()
                    &&& #[trigger] s[gt] == '>'
                    &&& forall|k: int|
                        behind <= k < gt ==> (#[trigger] s[k] == ' ' || s[k] == '\t' || s[k]
                            == '\r' || s[k] == '\n')
                }
        },
    decreases s.len() - from,
{
    let head = seq!['<', '/'] + name;
    text::lemma_index_of_first(s, head, from);
    if let Some(start) = index_of(s, head, from) {
        let after = start + 2 + name.len();
        if after <= s.len() {
            lemma_blanks(s, after);
            let gt = blanks_end(s, after);
            if gt < s.len() && s[gt] == '>' {
                assert(s[gt] == '>');
            } else {
                law_found_end_tags_are_of_the_element(s, name, after);
            }
        }
    }
}

/// Blanks end where something else begins.
proof fn lemma_blanks(s: Seq<char>, i: int)
    requires
        0 <= i <= s.len(),
    ensures
        i <= blanks_end(s, i) <= s.len(),
        forall|k: int| i <= k < blanks_end(s, i) ==> is_blank(#[trigger] s[k]),
    decreases s.len() - i,
{
    if i < s.len() && is_blank(s[i]) {
        lemma_blanks(s, i + 1);
    }
}

/// Which game a build is of: of the second where it has a tag of that game's
/// root, and of the first where it has none and one of the first's.
pub proof fn law_roots_tell_the_game(xml: Seq<char>)
    ensures
        belongs_to(Game::Poe2, xml) <==> open_tag(xml, "PathOfBuilding2"@, 0) is Some,
        belongs_to(Game::Poe1, xml) <==> open_tag(xml, "PathOfBuilding2"@, 0) is None && open_tag(
            xml,
            "PathOfBuilding"@,
            0,
        ) is Some,
{
}

/// Where a build has no sets of options, the lines go right in front of the
/// end of its options; everything else of the build stays as it is.
pub proof fn law_lines_go_into_the_options(xml: Seq<char>, payload: Seq<char>, at: int)
    requires
        end_tag(xml, "Config"@, 0) == Some(at),
    ensures
        with_config(xml, payload) is Ok,
        0 <= at <= xml.len(),
        with_config(xml, payload)->Ok_0 == xml.take(at) + payload + xml.skip(at),
        is_at(
            with_config(xml, payload)->Ok_0,
            payload + "</Config"@,
            at,
        ),
{
    law_found_end_tags_are_of_the_element(xml, "Config"@, 0);
    reveal_strlit("Config");
    reveal_strlit("</Config");
    let head = seq!['<', '/'] + "Config"@;
    assert(head =~= "</Config"@);
    let out = with_config(xml, payload)->Ok_0;
    let want = payload + "</Config"@;
    assert(xml.skip(at).take(head.len() as int) =~= xml.subrange(at, at + head.len()));
    assert(out.subrange(at, at + want.len()) =~= want) by {
        assert forall|k: int| 0 <= k < want.len() implies out.subrange(at, at + want.len())[k]
            == #[trigger] want[k] by {
            if k >= payload.len() {
                let j = k - payload.len();
                assert(xml.subrange(at, at + head.len())[j] == xml[at + j]);
                assert(out[at + k] == xml[at + j]);
            }
        }
    }
}

/// Where a build has no options at all, they are made, with the lines in them,
/// right in front of the end of its root; everything else stays.
pub proof fn law_lines_go_into_the_root(xml: Seq<char>, payload: Seq<char>, at: int)
    requires
        end_tag(xml, "Config"@, 0) is None,
        open_tag(xml, "Config"@, 0) is None,
        end_tag(xml, "PathOfBuilding2"@, 0) == Some(at) || (end_tag(xml, "PathOfBuilding2"@, 0)
            is None && end_tag(xml, "PathOfBuilding"@, 0) == Some(at)),
    ensures
        with_config(xml, payload) == Ok::<Seq<char>, Seq<char>>(
            xml.take(at) + ("<Config>"@ + payload + "</Config>"@) + xml.skip(at),
        ),
{
}

/// Putting in nothing changes nothing: but for the lines, a build whose sets
/// all have an end tag stays as it is.
pub proof fn law_sets_change_only_by_the_lines(s: Seq<char>, cursor: int)
    requires
        0 <= cursor <= s.len(),
        with_sets(s, seq![], cursor) is Ok,
        forall|from: int| #[trigger]
            open_tag(s, "ConfigSet"@, from) matches Some(tag) ==> !tag.closed,
    ensures
        with_sets(s, seq![], cursor)->Ok_0.0 == s.skip(cursor),
    decreases s.len() - cursor,
{
    if let Some(tag) = open_tag(s, "ConfigSet"@, cursor) {
        if 0 <= cursor <= tag.start && tag.start + 2 <= tag.after <= s.len() {
            if let Some(end) = end_tag(s, "ConfigSet"@, tag.after) {
                if tag.after <= end <= s.len() {
                    law_sets_change_only_by_the_lines(s, end);
                    let rest = with_sets(s, seq![], end)->Ok_0.0;
                    assert(s.subrange(cursor, end) + Seq::<char>::empty() + rest =~= s.skip(
                        cursor,
                    ));
                }
            }
        }
    }
}

/// Options that are closed at once are opened for the lines.
pub proof fn law_closed_options_are_opened(xml: Seq<char>, payload: Seq<char>, tag: OpenTag)
    requires
        end_tag(xml, "Config"@, 0) is None,
        open_tag(xml, "Config"@, 0) == Some(tag),
    ensures
        tag.closed ==> with_config(xml, payload) == Ok::<Seq<char>, Seq<char>>(
            xml.take(tag.after - 2) + (">"@ + payload + "</"@ + "Config"@ + ">"@) + xml.skip(
                tag.after,
            ),
        ),
        !tag.closed ==> with_config(xml, payload) is Err,
{
}

/// Every set of options takes the lines where there is one; else the options
/// themselves take them.
pub proof fn law_sets_come_first(game: Game, xml: Seq<char>, mods: Seq<Seq<char>>)
    requires
        injected(game, xml, mods) is Ok,
    ensures
        open_tag(xml, "ConfigSet"@, 0) is None ==> injected(game, xml, mods) == with_config(
            xml,
            mod_payload(game, mods),
        ),
        with_sets(xml, mod_payload(game, mods), 0) is Ok,
        with_sets(xml, mod_payload(game, mods), 0)->Ok_0.1 > 0 ==> injected(game, xml, mods)
            == Ok::<Seq<char>, Seq<char>>(with_sets(xml, mod_payload(game, mods), 0)->Ok_0.0),
{
}

/// The first place where the name of an element stands behind a `<` is its
/// tag, where a `>`, a `/` or white space follows the name; else the search
/// goes on behind the name.
pub proof fn law_tags_are_found(s: Seq<char>, name: Seq<char>, from: int, start: int)
    requires
        0 <= from <= s.len(),
        index_of(s, seq!['<'] + name, from) == Some(start),
    ensures
        ({
            let behind = start + 1 + name.len();
            let ends = behind < s.len() && (s[behind] == '>' || s[behind] == '/' || s[behind] == ' '
                || s[behind] == '\t' || s[behind] == '\r' || s[behind] == '\n');
            &&& ends ==> match index_of(s, seq!['>'], behind) {
                Some(gt) => open_tag(s, name, from) == Some(
                    OpenTag { start, after: gt + 1, closed: s[gt - 1] == '/' },
                ),
                None => open_tag(s, name, from) is None,
            }
            &&& !ends ==> open_tag(s, name, from) == open_tag(s, name, behind)
        }),
{
    text::lemma_index_of_first(s, seq!['<'] + name, from);
    let behind = start + 1 + name.len();
    text::lemma_index_of_first(s, seq!['>'], behind);
}

/// The first place where the name of an element stands behind `</`, with
/// nothing but white space up to a `>`, is its end tag.
pub proof fn law_end_tags_are_found(s: Seq<char>, name: Seq<char>, from: int, start: int, gt: int)
    requires
        0 <= from <= s.len(),
        index_of(s, seq!['<', '/'] + name, from) == Some(start),
        start + 2 + name.len() <= gt < s.len(),
        s[gt] == '>',
        forall|k: int|
            start + 2 + name.len() <= k < gt ==> (#[trigger] s[k] == ' ' || s[k] == '\t' || s[k]
                == '\r' || s[k] == '\n'),
    ensures
        end_tag(s, name, from) == Some(start),
{
    text::lemma_index_of_first(s, seq!['<', '/'] + name, from);
    lemma_blanks_up_to(s, start + 2 + name.len(), gt);
}

/// Blanks end at the first character that is none.
proof fn lemma_blanks_up_to(s: Seq<char>, i: int, to: int)
    requires
        0 <= i <= to < s.len(),
        s[to] == '>',
        forall|k: int|
            i <= k < to ==> (#[trigger] s[k] == ' ' || s[k] == '\t' || s[k] == '\r' || s[k]
                == '\n'),
    ensures
        blanks_end(s, i) == to,
    decreases to - i,
{
    if i < to {
        assert(is_blank(s[i]));
        lemma_blanks_up_to(s, i + 1, to);
    }
}

/// A set of options takes the lines right in front of its end tag, one that is
/// closed at once is opened for them, and one that never ends is refused; what
/// stands before stays, and the sets behind are treated alike.
pub proof fn law_sets_take_the_lines(s: Seq<char>, payload: Seq<char>, cursor: int, tag: OpenTag)
    requires
        0 <= cursor <= s.len(),
        open_tag(s, "ConfigSet"@, cursor) == Some(tag),
    ensures
        tag.closed ==> match with_sets(s, payload, tag.after) {
            Ok((rest, count)) => with_sets(s, payload, cursor) == Ok::<
                (Seq<char>, nat),
                Seq<char>,
            >(
                (
                    s.subrange(cursor, tag.after - 2) + seq!['>'] + payload + "</ConfigSet>"@
                        + rest,
                    count + 1,
                ),
            ),
            Err(error) => with_sets(s, payload, cursor) == Err::<(Seq<char>, nat), Seq<char>>(
                error,
            ),
        },
        !tag.closed ==> match end_tag(s, "ConfigSet"@, tag.after) {
            None => with_sets(s, payload, cursor) == Err::<(Seq<char>, nat), Seq<char>>(
                "build XML has an unterminated ConfigSet section"@,
            ),
            Some(end) => with_sets(s, payload, end) matches Ok((rest, count)) ==> with_sets(
                s,
                payload,
                cursor,
            ) == Ok::<(Seq<char>, nat), Seq<char>>(
                (s.subrange(cursor, end) + payload + rest, count + 1),
            ),
        },
{
    reveal_strlit("ConfigSet");
    assert("ConfigSet"@.len() == 9);
    law_found_tags_are_of_the_element(s, "ConfigSet"@, cursor);
    law_found_end_tags_are_of_the_element(s, "ConfigSet"@, tag.after);
}

/// Behind the last set the build stays as it is.
pub proof fn law_builds_without_sets_stay(s: Seq<char>, payload: Seq<char>, cursor: int)
    requires
        open_tag(s, "ConfigSet"@, cursor) is None,
    ensures
        with_sets(s, payload, cursor) == Ok::<(Seq<char>, nat), Seq<char>>((s.skip(cursor), 0)),
{
}

/// A root that is closed at once is opened for the options, and a text without
/// a root is no build.
pub proof fn law_closed_roots_are_opened(xml: Seq<char>, section: Seq<char>, tag: OpenTag)
    requires
        end_tag(xml, "PathOfBuilding2"@, 0) is None,
        end_tag(xml, "PathOfBuilding"@, 0) is None,
    ensures
        open_tag(xml, "PathOfBuilding2"@, 0) == Some(tag) && tag.closed ==> with_root(xml, section)
            == Ok::<Seq<char>, Seq<char>>(
            xml.take(tag.after - 2) + (">"@ + section + "</"@ + "PathOfBuilding2"@ + ">"@)
                + xml.skip(tag.after),
        ),
        open_tag(xml, "PathOfBuilding2"@, 0) is None && open_tag(xml, "PathOfBuilding"@, 0) == Some(
            tag,
        ) && tag.closed ==> with_root(xml, section) == Ok::<Seq<char>, Seq<char>>(
            xml.take(tag.after - 2) + (">"@ + section + "</"@ + "PathOfBuilding"@ + ">"@)
                + xml.skip(tag.after),
        ),
        open_tag(xml, "PathOfBuilding2"@, 0) is None && open_tag(xml, "PathOfBuilding"@, 0) is None
            ==> with_root(xml, section) is Err,
{
}

}
