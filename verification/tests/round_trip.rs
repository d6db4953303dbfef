use std::collections::BTreeMap;

use dotos::{
    ByteSequence, DotosBodyEncode, DotosDecode, DotosEncode, DotosSource, FixedByteSequence,
};

fn read_back<Value: DotosDecode + DotosEncode>(value: &Value) -> Value {
    let text = value.to_dotos();
    DotosSource::new(&text)
        .parse::<Value>()
        .unwrap_or_else(|error| panic!("{text:?} reads back: {error:?}"))
}

#[test]
fn strings_read_back_in_both_forms() {
    for original in [
        "schema",
        "file.txt",
        "nix.prometheus.goldragon.criome",
        "alpha beta",
        "has (paren) and .dot",
        "a;b",
        "alpha;;beta",
        "quote “inside” and a \\ backslash",
        "",
        ".leading",
        "trailing.",
        "double..dot",
        "line one\nline two",
        "Größe",
    ] {
        let value = original.to_owned();
        assert_eq!(read_back(&value), value, "round trip for {original:?}");
    }
}

#[test]
fn string_encoding_picks_bare_or_curly_text() {
    assert_eq!("file.txt".to_owned().to_dotos(), "file.txt");
    assert_eq!("".to_owned().to_dotos(), "“”");
    assert_eq!(
        "quote “inside” and \\".to_owned().to_dotos(),
        "“quote \\“inside\\” and \\\\”"
    );
    assert_eq!(".leading".to_owned().to_dotos(), "“.leading”");
}

#[test]
fn integers_read_back_at_their_limits() {
    for value in [0_u64, 7, u64::MAX] {
        assert_eq!(read_back(&value), value);
    }
    for value in [0_u32, u32::MAX] {
        assert_eq!(read_back(&value), value);
    }
    for value in [0_u16, u16::MAX] {
        assert_eq!(read_back(&value), value);
    }
    for value in [0_u8, u8::MAX] {
        assert_eq!(read_back(&value), value);
    }
    for value in [i64::MIN, -1, 0, i64::MAX] {
        assert_eq!(read_back(&value), value);
    }
    for value in [i32::MIN, -1, 0, i32::MAX] {
        assert_eq!(read_back(&value), value);
    }
    assert_eq!(i64::MIN.to_dotos(), "-9223372036854775808");
}

#[test]
fn booleans_read_back() {
    assert!(read_back(&true));
    assert!(!read_back(&false));
    assert_eq!(true.to_dotos(), "True");
}

#[test]
fn collections_read_back() {
    let words = vec!["alpha".to_owned(), "two words".to_owned(), "a.b".to_owned()];
    assert_eq!(read_back(&words), words);
    assert_eq!(words.to_dotos(), "[alpha (two words) a.b]");

    let empty: Vec<u64> = Vec::new();
    assert_eq!(read_back(&empty), empty);
    assert_eq!(empty.to_dotos(), "[]");

    let nested = vec![vec![1_u64, 2], vec![], vec![3]];
    assert_eq!(read_back(&nested), nested);
    assert_eq!(nested.to_dotos(), "[[1 2] [] [3]]");

    let present: Option<Vec<String>> = Some(vec!["x".to_owned()]);
    assert_eq!(read_back(&present), present);
    assert_eq!(present.to_dotos(), "Some.[x]");

    let twice: Option<Option<u64>> = Some(None);
    assert_eq!(read_back(&twice), twice);
    assert_eq!(twice.to_dotos(), "Some.None");

    let boxed = Box::new("recursive reference".to_owned());
    assert_eq!(read_back(&boxed), boxed);
    assert_eq!(boxed.to_dotos(), "(recursive reference)");
}

#[test]
fn byte_sequences_read_back() {
    for payload in [vec![], vec![0x00], vec![0xde, 0xad, 0xbe, 0xef]] {
        let value = ByteSequence::new(payload.clone());
        assert_eq!(read_back(&value).payload(), payload.as_slice());
    }
    assert_eq!(ByteSequence::new(vec![]).to_dotos(), "“”");

    let fixed = FixedByteSequence::<3>::new([0x0a, 0xff, 0x10]);
    assert_eq!(fixed.to_dotos(), "0aff10");
    assert_eq!(read_back(&fixed).payload(), &[0x0a, 0xff, 0x10]);
}

#[test]
fn maps_with_lowercase_keys_read_back() {
    let mut map = BTreeMap::new();
    map.insert("beta".to_owned(), vec![2_u64]);
    map.insert("alpha".to_owned(), vec![1_u64, 3]);
    assert_eq!(map.to_dotos(), "Map.(alpha.[1 3] beta.[2])");
    assert_eq!(read_back(&map), map);
}

#[test]
fn maps_with_numeric_and_any_bare_keys_read_back() {
    let mut map = BTreeMap::new();
    map.insert(1_u64, 2_u64);
    map.insert(10_u64, 20_u64);
    assert_eq!(map.to_dotos(), "Map.(1.2 10.20)");
    assert_eq!(read_back(&map), map);

    let mut keys = BTreeMap::new();
    keys.insert("/boot".to_owned(), 1_u64);
    keys.insert("Alpha".to_owned(), 2_u64);
    keys.insert("alpha".to_owned(), 3_u64);
    assert_eq!(read_back(&keys), keys);
}

#[test]
fn a_vector_body_reads_back_one_element_per_line() {
    let words = vec!["alpha".to_owned(), "two words".to_owned(), "".to_owned()];
    let text = words.to_dotos_body().to_dotos();
    assert_eq!(text, "alpha\n(two words)\n“”");
    let read = DotosSource::new(&text)
        .parse_body::<Vec<String>>()
        .expect("body reads back");
    assert_eq!(read, words);
}
