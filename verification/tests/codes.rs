use exile_harness::codes::{base64_decode, base64_encode, decode, encode, settle_inflated};

#[test]
fn round_trips_xml() {
    let xml = "<PathOfBuilding><Build level=\"90\"/></PathOfBuilding>";
    let code = encode(xml).expect("encodes");
    assert!(
        !code.contains('+') && !code.contains('/'),
        "url-safe: {code}"
    );
    assert_eq!(decode(&code).expect("decodes"), xml);
}

#[test]
fn round_trips_binary_boundaries() {
    // Exercise 1/2/3-byte tail paddings through the base64 layer.
    for xml in ["a", "ab", "abc", "abcd", "<x>\u{e9}\u{2764}</x>"] {
        let code = encode(xml).expect("encodes");
        assert_eq!(decode(&code).expect("decodes"), xml, "input {xml:?}");
    }
}

#[test]
fn accepts_standard_alphabet_and_padding() {
    // Codes copied from websites sometimes keep +/ and padding.
    let code = encode("<PathOfBuilding/>").expect("encodes");
    let standard: String = code
        .chars()
        .map(|c| match c {
            '-' => '+',
            '_' => '/',
            other => other,
        })
        .collect();
    assert_eq!(
        decode(&(standard + "==")).expect("decodes"),
        "<PathOfBuilding/>"
    );
}

#[test]
fn tolerates_wrapped_codes() {
    // Chat models wrap long strings; whitespace must not break decode.
    let code = encode("<PathOfBuilding><Build/></PathOfBuilding>").expect("encodes");
    let wrapped: String = code
        .chars()
        .enumerate()
        .flat_map(|(index, c)| {
            if index == 10 {
                vec!['\n', ' ', c]
            } else {
                vec![c]
            }
        })
        .collect();
    assert_eq!(
        decode(&wrapped).expect("decodes"),
        "<PathOfBuilding><Build/></PathOfBuilding>"
    );
}

#[test]
fn rejects_garbage() {
    assert!(decode("").is_err());
    assert!(decode("not a code!!").is_err());
    // Valid base64, not valid zlib.
    assert!(decode("aGVsbG8gd29ybGQ").is_err());
}

#[test]
fn base64_matches_known_values() {
    assert_eq!(base64_encode(b""), "");
    assert_eq!(base64_encode(b"f"), "Zg==");
    assert_eq!(base64_encode(b"fo"), "Zm8=");
    assert_eq!(base64_encode(b"foo"), "Zm9v");
    assert_eq!(base64_encode(b"foob"), "Zm9vYg==");
    assert_eq!(base64_encode(&[0xfb, 0xff, 0xbf]), "-_-_");
    assert_eq!(base64_decode("+/+/"), Ok(vec![0xfb, 0xff, 0xbf]));
    assert_eq!(base64_decode("Zm9vYg"), Ok(b"foob".to_vec()));
    let all: Vec<u8> = (0..=255).collect();
    assert_eq!(base64_decode(&base64_encode(&all)), Ok(all));
}

#[test]
fn each_fault_of_a_code_is_told_apart() {
    assert_eq!(
        decode("ab!c").expect_err("bad byte"),
        "invalid character in build code: '!'"
    );
    assert_eq!(
        base64_decode("a'b").expect_err("quote"),
        "invalid character in build code: '\\''"
    );
    assert_eq!(
        base64_decode("é").expect_err("not ascii"),
        "invalid character in build code: 'Ã'"
    );
    assert_eq!(decode(" \n").expect_err("blank"), "empty build code");
    assert_eq!(decode("A").expect_err("six bits"), "empty build code");
    assert!(decode("aGVsbG8gd29ybGQ")
        .expect_err("no zlib")
        .starts_with("build code did not inflate to text: "));
    let nothing = encode("").expect("encodes");
    assert_eq!(
        decode(&nothing).expect_err("nothing"),
        "build code inflated to nothing"
    );
    assert_eq!(
        settle_inflated(Err("x".to_owned())),
        Err("build code did not inflate to text: x".to_owned())
    );
    assert_eq!(settle_inflated(Ok("y".to_owned())), Ok("y".to_owned()));
}

#[test]
fn codes_are_compressed() {
    let xml = "<PathOfBuilding>".repeat(500);
    let code = encode(&xml).expect("encodes");
    assert!(code.len() * 10 < xml.len(), "{}", code.len());
    assert_eq!(decode(&format!("  {code}\n")), Ok(xml));
}
