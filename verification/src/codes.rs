//! Path of Building share codes: url-safe base64 over a zlib-compressed
//! build XML, with `-` and `_` in place of `+` and `/`. The engines run
//! headless with their own compression stubbed out, so codes are read and
//! written here.

use std::io::Read;
use vstd::prelude::*;
use vstd::utf8::{encode_utf8, is_ascii_chars, is_ascii_chars_encode_utf8};

use crate::text;
use crate::text::{is_white, trimmed};

verus! {

/// Decompressed-size ceiling in bytes: build XMLs run tens of kilobytes; a
/// code that inflates past this is corrupt or hostile.
pub const MAX_XML_BYTES: u64 = 16_777_216;

/// What a byte of a code means.
pub ghost enum Sign {
    /// Six bits.
    Value(u8),
    /// Nothing: padding, or white space from wrapping.
    Skip,
    /// No byte of a code.
    Invalid,
}

/// What a byte of a code means. Both alphabets are read, since codes copied
/// from websites sometimes keep the standard one.
pub open spec fn sign(byte: u8) -> Sign {
    if 65 <= byte <= 90 {
        Sign::Value((byte - 65) as u8)
    } else if 97 <= byte <= 122 {
        Sign::Value((byte - 97 + 26) as u8)
    } else if 48 <= byte <= 57 {
        Sign::Value((byte - 48 + 52) as u8)
    } else if byte == 45 || byte == 43 {
        Sign::Value(62)
    } else if byte == 95 || byte == 47 {
        Sign::Value(63)
    } else if byte == 61 || byte == 13 || byte == 10 || byte == 32 || byte == 9 {
        Sign::Skip
    } else {
        Sign::Invalid
    }
}

/// The six-bit values of the first `n` bytes; or the first byte that is none
/// of a code.
pub open spec fn values(bytes: Seq<u8>, n: nat) -> Result<Seq<u8>, u8>
    decreases n,
{
    if n == 0 {
        Ok(seq![])
    } else {
        match values(bytes, (n - 1) as nat) {
            Err(bad) => Err(bad),
            Ok(before) => match sign(bytes[n - 1]) {
                Sign::Value(value) => Ok(before.push(value)),
                Sign::Skip => Ok(before),
                Sign::Invalid => Err(bytes[n - 1]),
            },
        }
    }
}

/// The bytes that six-bit values hold: three for four, and of an incomplete
/// group those that are whole.
pub open spec fn unpacked(values: Seq<u8>) -> Seq<u8>
    decreases values.len(),
{
    if values.len() < 2 {
        seq![]
    } else if values.len() == 2 {
        seq![first_byte(values)]
    } else if values.len() == 3 {
        seq![first_byte(values), second_byte(values)]
    } else {
        seq![first_byte(values), second_byte(values), third_byte(values)] + unpacked(
            values.skip(4),
        )
    }
}

/// The first byte of a group.
pub open spec fn first_byte(v: Seq<u8>) -> u8 {
    (v[0] as int * 4 + v[1] as int / 16) as u8
}

/// The second byte of a group.
pub open spec fn second_byte(v: Seq<u8>) -> u8 {
    ((v[1] as int % 16) * 16 + v[2] as int / 4) as u8
}

/// The third byte of a group.
pub open spec fn third_byte(v: Seq<u8>) -> u8 {
    ((v[2] as int % 4) * 64 + v[3] as int) as u8
}

/// A character as std's `Debug` shows it, in quotes and escaped.
pub uninterp spec fn shown(c: char) -> Seq<char>;

/// The bytes that a code holds; or why it holds none.
pub open spec fn base64_decoded(code: Seq<u8>) -> Result<Seq<u8>, Seq<char>> {
    match values(code, code.len()) {
        Err(bad) => Err("invalid character in build code: "@ + shown(bad as char)),
        Ok(values) => if unpacked(values).len() == 0 {
            Err("empty build code"@)
        } else {
            Ok(unpacked(values))
        },
    }
}

/// The letter of a six-bit value, in the url-safe alphabet.
pub open spec fn letter(value: int) -> char {
    if value < 26 {
        (65 + value) as u8 as char
    } else if value < 52 {
        (97 + value - 26) as u8 as char
    } else if value < 62 {
        (48 + value - 52) as u8 as char
    } else if value == 62 {
        '-'
    } else {
        '_'
    }
}

/// The code of bytes: four letters for three bytes, the last group padded.
pub open spec fn base64_encoded(data: Seq<u8>) -> Seq<char>
    decreases data.len(),
{
    if data.len() == 0 {
        seq![]
    } else if data.len() == 1 {
        seq![letter(data[0] as int / 4), letter((data[0] as int % 4) * 16), '=', '=']
    } else if data.len() == 2 {
        seq![
            letter(data[0] as int / 4),
            letter((data[0] as int % 4) * 16 + data[1] as int / 16),
            letter((data[1] as int % 16) * 4),
            '=',
        ]
    } else {
        seq![
            letter(data[0] as int / 4),
            letter((data[0] as int % 4) * 16 + data[1] as int / 16),
            letter((data[1] as int % 16) * 4 + data[2] as int / 64),
            letter(data[2] as int % 64),
        ] + base64_encoded(data.skip(3))
    }
}

/// What `flate2`'s `ZlibDecoder` makes of bytes, read as text up to `limit`
/// bytes: the text, or the line that says why there is none.
pub uninterp spec fn inflated(bytes: Seq<u8>, limit: u64) -> Result<Seq<char>, Seq<char>>;

/// What `flate2`'s `ZlibEncoder` makes of bytes, at its best compression: the
/// compressed bytes, or the line that says why there are none.
pub uninterp spec fn deflated(bytes: Seq<u8>) -> Result<Seq<u8>, Seq<char>>;

/// Showing a character as std's `Debug` does.
#[verifier::external_body]
fn show(c: char) -> (line: String)
    ensures
        line@ == shown(c),
{
    format!("{c:?}")
}

/// Decompressing: `flate2::read::ZlibDecoder` over `bytes`, read as text up to
/// `limit` bytes.
#[verifier::external_body]
fn inflate(bytes: &[u8], limit: u64) -> (xml: Result<String, String>)
    ensures
        match xml {
            Ok(xml) => inflated(bytes@, limit) is Ok && inflated(bytes@, limit)->Ok_0 == xml@,
            Err(error) => inflated(bytes@, limit) is Err && inflated(bytes@, limit)->Err_0
                == error@,
        },
{
    let mut xml = String::new();
    let read = flate2::read::ZlibDecoder::new(bytes).take(limit).read_to_string(&mut xml);
    read.map(|_| xml).map_err(|error| error.to_string())
}

/// Compressing: `flate2::read::ZlibEncoder` over the bytes of `xml`, at its
/// best compression. What comes out is never empty, since a stream has a
/// header, and is read back by the decoder as it was, as long as it is no
/// longer than the limit of that reading.
#[verifier::external_body]
fn deflate(xml: &str) -> (compressed: Result<Vec<u8>, String>)
    ensures
        match compressed {
            Ok(bytes) => deflated(encode_utf8(xml@)) is Ok && deflated(encode_utf8(xml@))->Ok_0
                == bytes@ && bytes@.len() > 0 && forall|limit: u64|
                encode_utf8(xml@).len() <= limit ==> #[trigger] inflated(bytes@, limit) is Ok
                    && inflated(bytes@, limit)->Ok_0 == xml@,
            Err(error) => deflated(encode_utf8(xml@)) is Err && deflated(
                encode_utf8(xml@),
            )->Err_0 == error@,
        },
{
    let mut compressed = Vec::new();
    let level = flate2::Compression::best();
    let read = flate2::read::ZlibEncoder::new(xml.as_bytes(), level).read_to_end(&mut compressed);
    read.map(|_| compressed).map_err(|error| error.to_string())
}

/// The build XML that compressed bytes hold, or why they hold none.
pub open spec fn xml_inflated(inflated: Result<Seq<char>, Seq<char>>) -> Result<
    Seq<char>,
    Seq<char>,
> {
    match inflated {
        Err(error) => Err("build code did not inflate to text: "@ + error),
        Ok(xml) => if xml.len() == 0 {
            Err("build code inflated to nothing"@)
        } else {
            Ok(xml)
        },
    }
}

/// The build XML that a share code holds, or why it holds none.
pub open spec fn decoded(code: Seq<char>) -> Result<Seq<char>, Seq<char>> {
    match base64_decoded(encode_utf8(trimmed(code))) {
        Err(error) => Err(error),
        Ok(bytes) => xml_inflated(inflated(bytes, MAX_XML_BYTES)),
    }
}

/// The six-bit values of a code.
fn read_values(bytes: &[u8]) -> (read: Result<Vec<u8>, u8>)
    ensures
        match read {
            Ok(read) => values(bytes@, bytes@.len()) is Ok && values(bytes@, bytes@.len())->Ok_0
                == read@,
            Err(bad) => values(bytes@, bytes@.len()) is Err && values(bytes@, bytes@.len())->Err_0
                == bad,
        },
        read is Ok ==> forall|i: int| 0 <= i < read->Ok_0@.len() ==> #[trigger] read->Ok_0@[i] < 64,
{
    let mut read: Vec<u8> = Vec::new();
    let mut i: usize = 0;
    while i < bytes.len()
        invariant
            i <= bytes@.len(),
            values(bytes@, i as nat) is Ok,
            values(bytes@, i as nat)->Ok_0 == read@,
            forall|k: int| 0 <= k < read@.len() ==> #[trigger] read@[k] < 64,
        decreases bytes@.len() - i,
    {
        let byte = bytes[i];
        if 65 <= byte && byte <= 90 {
            read.push(byte - 65);
        } else if 97 <= byte && byte <= 122 {
            read.push(byte - 97 + 26);
        } else if 48 <= byte && byte <= 57 {
            read.push(byte - 48 + 52);
        } else if byte == 45 || byte == 43 {
            read.push(62);
        } else if byte == 95 || byte == 47 {
            read.push(63);
        } else if !(byte == 61 || byte == 13 || byte == 10 || byte == 32 || byte == 9) {
            // Padding, and any white space that a chat model may put into a
            // long code while copying it, is passed over.
            proof {
                lemma_values_stay_failed(bytes@, (i + 1) as nat, bytes@.len());
            }
            return Err(byte);
        }
        i += 1;
    }
    Ok(read)
}

/// Bytes behind one that is none of a code change nothing.
proof fn lemma_values_stay_failed(bytes: Seq<u8>, k: nat, n: nat)
    requires
        k <= n,
        values(bytes, k) is Err,
    ensures
        values(bytes, n) == values(bytes, k),
    decreases n,
{
    if k < n {
        lemma_values_stay_failed(bytes, k, (n - 1) as nat);
    }
}

/// The bytes that six-bit values hold.
fn unpack(values: &Vec<u8>) -> (bytes: Vec<u8>)
    requires
        forall|i: int| 0 <= i < values@.len() ==> #[trigger] values@[i] < 64,
    ensures
        bytes@ == unpacked(values@),
{
    let mut bytes: Vec<u8> = Vec::new();
    let mut i: usize = 0;
    assert(values@.skip(0) =~= values@);
    assert(bytes@ + unpacked(values@) =~= unpacked(values@));
    while values.len() - i >= 4
        invariant
            i <= values@.len(),
            forall|k: int| 0 <= k < values@.len() ==> #[trigger] values@[k] < 64,
            bytes@ + unpacked(values@.skip(i as int)) == unpacked(values@),
        decreases values@.len() - i,
    {
        let ghost rest = values@.skip(i as int);
        let ghost before = bytes@;
        bytes.push(values[i] * 4 + values[i + 1] / 16);
        bytes.push((values[i + 1] % 16) * 16 + values[i + 2] / 4);
        bytes.push((values[i + 2] % 4) * 64 + values[i + 3]);
        proof {
            assert(rest.skip(4) =~= values@.skip(i + 4));
            assert(before + (seq![first_byte(rest), second_byte(rest), third_byte(rest)] + unpacked(
                values@.skip(i + 4),
            )) =~= bytes@ + unpacked(values@.skip(i + 4)));
        }
        i += 4;
    }
    let ghost rest = values@.skip(i as int);
    let ghost before = bytes@;
    if values.len() - i >= 2 {
        bytes.push(values[i] * 4 + values[i + 1] / 16);
    }
    if values.len() - i == 3 {
        bytes.push((values[i + 1] % 16) * 16 + values[i + 2] / 4);
    }
    assert(bytes@ =~= before + unpacked(rest));
    bytes
}

/// The bytes that a code holds; or why it holds none.
pub fn base64_decode(code: &str) -> (bytes: Result<Vec<u8>, String>)
    ensures
        match bytes {
            Ok(bytes) => base64_decoded(encode_utf8(code@)) is Ok && base64_decoded(
                encode_utf8(code@),
            )->Ok_0 == bytes@,
            Err(error) => base64_decoded(encode_utf8(code@)) is Err && base64_decoded(
                encode_utf8(code@),
            )->Err_0 == error@,
        },
{
    let values = match read_values(code.as_bytes()) {
        Ok(values) => values,
        Err(bad) => {
            return Err("invalid character in build code: ".to_owned().concat(
                show(bad as char).as_str(),
            ));
        },
    };
    let bytes = unpack(&values);
    if bytes.is_empty() {
        return Err("empty build code".to_owned());
    }
    Ok(bytes)
}

/// The letter of a six-bit value.
fn letter_of(value: u8) -> (c: char)
    requires
        value < 64,
    ensures
        c == letter(value as int),
{
    if value < 26 {
        (65 + value) as char
    } else if value < 52 {
        (97 + (value - 26)) as char
    } else if value < 62 {
        (48 + (value - 52)) as char
    } else if value == 62 {
        '-'
    } else {
        '_'
    }
}

/// The code of bytes.
pub fn base64_encode(data: &[u8]) -> (out: String)
    ensures
        out@ == base64_encoded(data@),
{
    let mut out = String::new();
    let mut i: usize = 0;
    assert(data@.skip(0) =~= data@);
    assert(out@ + base64_encoded(data@) =~= base64_encoded(data@));
    while data.len() - i >= 3
        invariant
            i <= data@.len(),
            out@ + base64_encoded(data@.skip(i as int)) == base64_encoded(data@),
        decreases data@.len() - i,
    {
        let ghost rest = data@.skip(i as int);
        let ghost before = out@;
        let (a, b, c) = (data[i], data[i + 1], data[i + 2]);
        out.push(letter_of(a / 4));
        out.push(letter_of((a % 4) * 16 + b / 16));
        out.push(letter_of((b % 16) * 4 + c / 64));
        out.push(letter_of(c % 64));
        proof {
            assert(rest.skip(3) =~= data@.skip(i + 3));
            assert(base64_encoded(rest) =~= seq![
                letter(a as int / 4),
                letter((a as int % 4) * 16 + b as int / 16),
                letter((b as int % 16) * 4 + c as int / 64),
                letter(c as int % 64),
            ] + base64_encoded(data@.skip(i + 3)));
            assert(before + base64_encoded(rest) =~= out@ + base64_encoded(data@.skip(i + 3)));
        }
        i += 3;
    }
    let ghost rest = data@.skip(i as int);
    let ghost before = out@;
    if data.len() - i == 1 {
        out.push(letter_of(data[i] / 4));
        out.push(letter_of((data[i] % 4) * 16));
        out.push('=');
        out.push('=');
    } else if data.len() - i == 2 {
        out.push(letter_of(data[i] / 4));
        out.push(letter_of((data[i] % 4) * 16 + data[i + 1] / 16));
        out.push(letter_of((data[i + 1] % 16) * 4));
        out.push('=');
    }
    assert(out@ =~= before + base64_encoded(rest));
    out
}

/// The build XML that inflated text is, or why it is none.
pub fn settle_inflated(inflated: Result<String, String>) -> (xml: Result<String, String>)
    ensures
        match inflated {
            Err(error) => xml is Err && xml->Err_0@ == "build code did not inflate to text: "@
                + error@,
            Ok(text) => if text@.len() == 0 {
                xml is Err && xml->Err_0@ == "build code inflated to nothing"@
            } else {
                xml is Ok && xml->Ok_0@ == text@
            },
        },
{
    match inflated {
        Err(error) => Err(
            "build code did not inflate to text: ".to_owned().concat(error.as_str()),
        ),
        Ok(xml) => if xml.as_str().is_empty() {
            Err("build code inflated to nothing".to_owned())
        } else {
            Ok(xml)
        },
    }
}

/// Decode a share code into build XML.
pub fn decode(code: &str) -> (xml: Result<String, String>)
    ensures
        match xml {
            Ok(xml) => decoded(code@) is Ok && decoded(code@)->Ok_0 == xml@,
            Err(error) => decoded(code@) is Err && decoded(code@)->Err_0 == error@,
        },
{
    let compressed = match base64_decode(text::trim(code)) {
        Ok(compressed) => compressed,
        Err(error) => {
            return Err(error);
        },
    };
    settle_inflated(inflate(compressed.as_slice(), MAX_XML_BYTES))
}

/// The six-bit values that bytes are cut into.
pub open spec fn packed(data: Seq<u8>) -> Seq<u8>
    decreases data.len(),
{
    if data.len() == 0 {
        seq![]
    } else if data.len() == 1 {
        seq![(data[0] as int / 4) as u8, ((data[0] as int % 4) * 16) as u8]
    } else if data.len() == 2 {
        seq![
            (data[0] as int / 4) as u8,
            ((data[0] as int % 4) * 16 + data[1] as int / 16) as u8,
            ((data[1] as int % 16) * 4) as u8,
        ]
    } else {
        seq![
            (data[0] as int / 4) as u8,
            ((data[0] as int % 4) * 16 + data[1] as int / 16) as u8,
            ((data[1] as int % 16) * 4 + data[2] as int / 64) as u8,
            (data[2] as int % 64) as u8,
        ] + packed(data.skip(3))
    }
}

/// A letter is read as the value that it stands for.
proof fn lemma_letter_sign(value: int)
    requires
        0 <= value < 64,
    ensures
        '\0' <= letter(value) <= '\u{7f}',
        sign(letter(value) as u8) == Sign::Value(value as u8),
        !is_white(letter(value)),
        letter(value) != '+' && letter(value) != '/',
{
}

/// The characters of a code as bytes.
spec fn as_bytes(s: Seq<char>) -> Seq<u8> {
    s.map_values(|c: char| c as u8)
}

/// The values of two parts, one after the other.
proof fn lemma_values_append(a: Seq<u8>, b: Seq<u8>, n: nat)
    requires
        n <= b.len(),
        values(a, a.len()) is Ok,
        values(b, n) is Ok,
    ensures
        values(a + b, a.len() + n) is Ok,
        values(a + b, a.len() + n)->Ok_0 == values(a, a.len())->Ok_0 + values(b, n)->Ok_0,
    decreases n,
{
    if n == 0 {
        lemma_values_prefix(a, b, a.len());
        assert(values(a, a.len())->Ok_0 + values(b, n)->Ok_0 =~= values(a, a.len())->Ok_0);
    } else {
        lemma_values_append(a, b, (n - 1) as nat);
        assert((a + b)[a.len() + n - 1] == b[n - 1]);
        assert(values(a + b, a.len() + n)->Ok_0 =~= values(a, a.len())->Ok_0 + values(b, n)->Ok_0);
    }
}

proof fn lemma_values_prefix(a: Seq<u8>, b: Seq<u8>, n: nat)
    requires
        n <= a.len(),
    ensures
        values(a + b, n) == values(a, n),
    decreases n,
{
    if n > 0 {
        lemma_values_prefix(a, b, (n - 1) as nat);
        assert((a + b)[n - 1] == a[n - 1]);
    }
}

/// Whether a character is one that codes are written in.
spec fn is_written(c: char) -> bool {
    '\0' <= c <= '\u{7f}' && !is_white(c) && c != '+' && c != '/'
}

/// What a group of letters and padding is read as.
proof fn lemma_group(a: int, b: int, c: Option<int>, d: Option<int>)
    requires
        0 <= a < 64,
        0 <= b < 64,
        c is Some ==> 0 <= c->0 < 64,
        d is Some ==> 0 <= d->0 < 64 && c is Some,
    ensures
        ({
            let third = if c is Some {
                letter(c->0)
            } else {
                '='
            };
            let fourth = if d is Some {
                letter(d->0)
            } else {
                '='
            };
            let code = seq![letter(a), letter(b), third, fourth];
            let read = seq![a as u8, b as u8] + if d is Some {
                seq![c->0 as u8, d->0 as u8]
            } else if c is Some {
                seq![c->0 as u8]
            } else {
                seq![]
            };
            &&& values(as_bytes(code), 4) is Ok
            &&& values(as_bytes(code), 4)->Ok_0 == read
            &&& is_written(letter(a)) && is_written(letter(b)) && is_written(third) && is_written(
                fourth,
            )
        }),
{
    reveal_with_fuel(values, 5);
    lemma_letter_sign(a);
    lemma_letter_sign(b);
    if c is Some {
        lemma_letter_sign(c->0);
    }
    if d is Some {
        lemma_letter_sign(d->0);
    }
    let third = if c is Some {
        letter(c->0)
    } else {
        '='
    };
    let fourth = if d is Some {
        letter(d->0)
    } else {
        '='
    };
    let code = seq![letter(a), letter(b), third, fourth];
    let read = seq![a as u8, b as u8] + if d is Some {
        seq![c->0 as u8, d->0 as u8]
    } else if c is Some {
        seq![c->0 as u8]
    } else {
        seq![]
    };
    assert(values(as_bytes(code), 4)->Ok_0 =~= read);
}

/// What is written is read as the values that the bytes were cut into.
proof fn lemma_encoded_values(data: Seq<u8>)
    ensures
        forall|i: int|
            0 <= i < base64_encoded(data).len() ==> is_written(#[trigger] base64_encoded(data)[i]),
        values(as_bytes(base64_encoded(data)), base64_encoded(data).len()) is Ok,
        values(as_bytes(base64_encoded(data)), base64_encoded(data).len())->Ok_0 == packed(data),
    decreases data.len(),
{
    let code = base64_encoded(data);
    if data.len() == 1 {
        lemma_group(data[0] as int / 4, (data[0] as int % 4) * 16, None, None);
        assert(packed(data) =~= seq![
            (data[0] as int / 4) as u8,
            ((data[0] as int % 4) * 16) as u8,
        ] + Seq::<u8>::empty());
    } else if data.len() == 2 {
        lemma_group(
            data[0] as int / 4,
            (data[0] as int % 4) * 16 + data[1] as int / 16,
            Some((data[1] as int % 16) * 4),
            None,
        );
        assert(packed(data) =~= seq![
            (data[0] as int / 4) as u8,
            ((data[0] as int % 4) * 16 + data[1] as int / 16) as u8,
        ] + seq![((data[1] as int % 16) * 4) as u8]);
    } else if data.len() > 2 {
        lemma_group(
            data[0] as int / 4,
            (data[0] as int % 4) * 16 + data[1] as int / 16,
            Some((data[1] as int % 16) * 4 + data[2] as int / 64),
            Some(data[2] as int % 64),
        );
        let rest = base64_encoded(data.skip(3));
        let group = code.take(4);
        lemma_encoded_values(data.skip(3));
        assert(code =~= group + rest);
        assert(group =~= seq![
            letter(data[0] as int / 4),
            letter((data[0] as int % 4) * 16 + data[1] as int / 16),
            letter((data[1] as int % 16) * 4 + data[2] as int / 64),
            letter(data[2] as int % 64),
        ]);
        lemma_values_append(as_bytes(group), as_bytes(rest), rest.len());
        assert(as_bytes(code) =~= as_bytes(group) + as_bytes(rest));
        assert(packed(data) =~= values(as_bytes(group), 4)->Ok_0 + packed(data.skip(3)));
        assert forall|i: int| 0 <= i < code.len() implies is_written(#[trigger] code[i]) by {
            if i >= 4 {
                assert(code[i] == rest[i - 4]);
            } else {
                assert(code[i] == group[i]);
            }
        }
    }
}

/// Cutting bytes into six-bit values and putting them together again changes
/// nothing.
proof fn lemma_unpack_packed(data: Seq<u8>)
    ensures
        unpacked(packed(data)) == data,
    decreases data.len(),
{
    if data.len() >= 3 {
        lemma_unpack_packed(data.skip(3));
        assert(packed(data).skip(4) =~= packed(data.skip(3)));
        assert(unpacked(packed(data)) =~= seq![data[0], data[1], data[2]] + unpacked(
            packed(data).skip(4),
        ));
        assert(data =~= seq![data[0], data[1], data[2]] + data.skip(3));
    } else if data.len() == 2 {
        assert(unpacked(packed(data)) =~= data);
    } else if data.len() == 1 {
        assert(unpacked(packed(data)) =~= data);
    } else {
        assert(unpacked(packed(data)) =~= data);
    }
}

/// Text without white space at its ends is its own trimming.
proof fn lemma_trimmed_same(s: Seq<char>)
    requires
        forall|i: int| 0 <= i < s.len() ==> !is_white(#[trigger] s[i]),
    ensures
        trimmed(s) == s,
{
    if s.len() > 0 {
        assert(!is_white(s[0]));
        assert(!is_white(s[s.len() - 1]));
    }
}

/// Base64 loses nothing: decoding a code gives the bytes that were encoded.
pub proof fn law_base64_round_trips(data: Seq<u8>)
    requires
        data.len() > 0,
    ensures
        base64_decoded(encode_utf8(base64_encoded(data))) == Ok::<Seq<u8>, Seq<char>>(data),
        trimmed(base64_encoded(data)) == base64_encoded(data),
{
    let code = base64_encoded(data);
    lemma_encoded_values(data);
    lemma_unpack_packed(data);
    assert forall|i: int| 0 <= i < code.len() implies !is_white(#[trigger] code[i]) by {
        assert(is_written(code[i]));
    }
    assert(is_ascii_chars(code)) by {
        assert forall|i: int| 0 <= i < code.len() implies '\0' <= #[trigger] code[i]
            <= '\u{7f}' by {
            assert(is_written(code[i]));
        }
    }
    lemma_trimmed_same(code);
    is_ascii_chars_encode_utf8(code);
    assert(encode_utf8(code) =~= as_bytes(code));
}

/// Codes are safe in URLs: neither `+` nor `/` occurs in them.
pub proof fn law_codes_are_url_safe(data: Seq<u8>)
    ensures
        forall|i: int|
            0 <= i < base64_encoded(data).len() ==> #[trigger] base64_encoded(data)[i] != '+'
                && base64_encoded(data)[i] != '/',
{
    lemma_encoded_values(data);
    assert forall|i: int| 0 <= i < base64_encoded(data).len() implies #[trigger] base64_encoded(
        data,
    )[i] != '+' && base64_encoded(data)[i] != '/' by {
        assert(is_written(base64_encoded(data)[i]));
    }
}

/// Encode build XML as a share code. Decoding the code gives the XML back.
pub fn encode(xml: &str) -> (code: Result<String, String>)
    ensures
        match code {
            Ok(code) => deflated(encode_utf8(xml@)) is Ok && code@ == base64_encoded(
                deflated(encode_utf8(xml@))->Ok_0,
            ),
            Err(error) => deflated(encode_utf8(xml@)) is Err && error@ == "deflate failed: "@
                + deflated(encode_utf8(xml@))->Err_0,
        },
        code is Ok && 0 < xml@.len() && encode_utf8(xml@).len() <= MAX_XML_BYTES ==> decoded(
            code->Ok_0@,
        ) == Ok::<Seq<char>, Seq<char>>(xml@),
{
    match deflate(xml) {
        Ok(compressed) => {
            proof {
                law_base64_round_trips(compressed@);
            }
            Ok(base64_encode(compressed.as_slice()))
        },
        Err(error) => Err("deflate failed: ".to_owned().concat(error.as_str())),
    }
}

/// Both alphabets are read: a code with `+` and `/` means what the same code
/// with `-` and `_` means.
pub proof fn law_both_alphabets_are_read(code: Seq<u8>, n: nat)
    requires
        n <= code.len(),
        values(code, n) is Ok,
    ensures
        ({
            let other = code.map_values(
                |byte: u8|
                    if byte == 43 {
                        45u8
                    } else if byte == 47 {
                        95u8
                    } else {
                        byte
                    },
            );
            values(other, n) == values(code, n)
        }),
    decreases n,
{
    if n > 0 {
        law_both_alphabets_are_read(code, (n - 1) as nat);
    }
}

/// Padding and white space in a code mean nothing.
pub proof fn law_padding_means_nothing(front: Seq<u8>, byte: u8, back: Seq<u8>)
    requires
        byte == 61 || byte == 13 || byte == 10 || byte == 32 || byte == 9,
        values(front, front.len()) is Ok,
        values(back, back.len()) is Ok,
    ensures
        values(front + seq![byte] + back, (front.len() + 1 + back.len()) as nat) == values(
            front + back,
            (front.len() + back.len()) as nat,
        ),
{
    let one = seq![byte];
    assert(values(one, 0)->Ok_0 =~= seq![]);
    assert(one[0] == byte);
    assert(values(one, 1)->Ok_0 =~= seq![]);
    lemma_values_append(front, one, 1);
    let longer = front + one;
    assert(values(longer, longer.len()) == values(longer, front.len() + 1));
    lemma_values_append(longer, back, back.len());
    lemma_values_append(front, back, back.len());
    assert(values(longer, longer.len())->Ok_0 =~= values(front, front.len())->Ok_0);
    assert(values(longer + back, longer.len() + back.len())->Ok_0 =~= values(
        front + back,
        front.len() + back.len(),
    )->Ok_0);
}

/// A byte that means nothing in a code is told as it is.
pub proof fn law_foreign_bytes_are_told(front: Seq<u8>, byte: u8, back: Seq<u8>)
    requires
        values(front, front.len()) is Ok,
        !(65 <= byte <= 90),
        !(97 <= byte <= 122),
        !(48 <= byte <= 57),
        byte != 43 && byte != 45 && byte != 47 && byte != 95,
        byte != 61 && byte != 13 && byte != 10 && byte != 32 && byte != 9,
    ensures
        base64_decoded(front + seq![byte] + back) == Err::<Seq<u8>, Seq<char>>(
            "invalid character in build code: "@ + shown(byte as char),
        ),
{
    let one = seq![byte];
    let all = front + one + back;
    let n = front.len();
    assert(all =~= front + (one + back));
    lemma_values_prefix(front, one + back, n);
    assert(all[n as int] == byte);
    assert(values(all, n + 1) == Err::<Seq<u8>, u8>(byte));
    lemma_values_stay_failed(all, n + 1, all.len());
}

/// What comes out of a code is the text that its bytes inflate to, or why
/// there is none; nothing is no build. White space around a code means
/// nothing.
pub proof fn law_codes_are_inflated(code: Seq<char>)
    ensures
        decoded(trimmed(code)) == decoded(code),
        base64_decoded(encode_utf8(trimmed(code))) matches Err(error) ==> decoded(code) == Err::<
            Seq<char>,
            Seq<char>,
        >(error),
        base64_decoded(encode_utf8(trimmed(code))) matches Ok(bytes) ==> match inflated(
            bytes,
            16777216,
        ) {
            Ok(xml) => decoded(code) == if xml.len() > 0 {
                Ok::<Seq<char>, Seq<char>>(xml)
            } else {
                Err("build code inflated to nothing"@)
            },
            Err(error) => decoded(code) == Err::<Seq<char>, Seq<char>>(
                "build code did not inflate to text: "@ + error,
            ),
        },
{
    lemma_trimmed_twice(code);
}

/// A trimmed text is trimmed.
proof fn lemma_trimmed_twice(s: Seq<char>)
    ensures
        trimmed(trimmed(s)) == trimmed(s),
{
    text::law_trimming_takes_only_white_space(s);
    let (a, b) = choose|a: int, b: int| #[trigger] text::is_trim(s, a, b);
    let once = trimmed(s);
    text::law_trimming_takes_only_white_space(once);
    let (c, d) = choose|c: int, d: int| #[trigger] text::is_trim(once, c, d);
    if a < b {
        assert(once[0] == s[a]);
        assert(once[once.len() - 1] == s[b - 1]);
        if c > 0 {
            assert(is_white(once[0]));
        }
        if d < once.len() {
            assert(is_white(once[once.len() - 1]));
        }
        assert(once.subrange(0, once.len() as int) =~= once);
    }
}

/// A code whose characters come to no byte is no build.
pub proof fn law_empty_codes_are_refused(code: Seq<u8>)
    requires
        values(code, code.len()) is Ok,
    ensures
        base64_decoded(code) == if values(code, code.len())->Ok_0.len() < 2 {
            Err::<Seq<u8>, Seq<char>>("empty build code"@)
        } else {
            Ok(unpacked(values(code, code.len())->Ok_0))
        },
{
}

}
