use std::collections::BTreeMap;

use dotos::{
    Block, Delimiter, DotosBlock, DotosBody, DotosBodyDecode, DotosBodyEncode, DotosDecode,
    DotosDecodeError, DotosDocumentBody, DotosDocumentDecode, DotosDocumentEncode,
    DotosDocumentEncoding, DotosEncode, DotosSource,
};

#[test]
fn codec_rejects_out_of_range_integer_widths() {
    let error = DotosSource::new("65536")
        .parse::<u16>()
        .expect_err("u16 range rejects");

    assert!(
        error.message().contains("invalid integer 65536"),
        "error was {error:?}"
    );

    let error = DotosSource::new("256")
        .parse::<u8>()
        .expect_err("u8 range rejects");

    assert!(
        error.message().contains("invalid integer 256"),
        "error was {error:?}"
    );

    let error = DotosSource::new("2147483648")
        .parse::<i32>()
        .expect_err("i32 range rejects");

    assert!(
        error.message().contains("invalid integer 2147483648"),
        "error was {error:?}"
    );
}

#[test]
fn codec_renders_domain_value_validation_errors() {
    let error = DotosDecodeError::InvalidValue {
        value_type: "Keygrip",
        value: "abc".to_owned(),
        reason: "expected 40 hex chars".to_owned(),
    };

    assert_eq!(
        error.message(),
        "invalid Keygrip \"abc\": expected 40 hex chars"
    );
}

#[test]
fn codec_decodes_and_encodes_byte_sequences_as_hex_text() {
    let bytes = DotosSource::new("deadbeef")
        .parse::<dotos::ByteSequence>()
        .expect("byte sequence decodes");
    assert_eq!(bytes.payload(), &[0xde, 0xad, 0xbe, 0xef]);
    assert_eq!(bytes.to_dotos(), "deadbeef");

    let fixed = DotosSource::new("01020304")
        .parse::<dotos::FixedByteSequence<4>>()
        .expect("fixed byte sequence decodes");
    assert_eq!(fixed.payload(), &[0x01, 0x02, 0x03, 0x04]);
    assert_eq!(fixed.to_dotos(), "01020304");
}

#[test]
fn codec_rejects_noncanonical_byte_sequence_hex() {
    let odd = DotosSource::new("abc")
        .parse::<dotos::ByteSequence>()
        .expect_err("odd hex length rejects");
    assert!(odd.message().contains("odd length"));

    let wrong_width = DotosSource::new("deadbeef")
        .parse::<dotos::FixedByteSequence<2>>()
        .expect_err("wrong fixed width rejects");
    assert!(wrong_width.message().contains("expected 4 hex digits"));
}

#[test]
fn codec_decodes_and_encodes_ordered_map_values() {
    let map = DotosSource::new("Map.(alpha.1 beta.2)")
        .parse::<BTreeMap<String, u64>>()
        .expect("map decodes");

    assert_eq!(map.get("alpha"), Some(&1));
    assert_eq!(map.get("beta"), Some(&2));
    assert_eq!(map.to_dotos(), "Map.(alpha.1 beta.2)");
}

#[test]
fn codec_rejects_multi_root_source_for_typed_parse() {
    let error = DotosSource::new("alpha beta")
        .parse::<String>()
        .expect_err("multi-root source rejects");

    assert!(
        error
            .message()
            .contains("expected exactly one DOTOS root object")
    );
}

#[derive(Debug, Eq, PartialEq)]
struct KnownRootExample {
    name: String,
    imports: Vec<String>,
    output_variants: Vec<String>,
}

impl DotosBodyDecode for KnownRootExample {
    fn from_dotos_body(body: &DotosBody<'_>) -> Result<Self, DotosDecodeError> {
        let fields = body.expect_fields("KnownRootExample", 3)?;
        Ok(Self {
            name: String::from_dotos_block(&fields[0])?,
            imports: Vec::<String>::from_dotos_block(&fields[1])?,
            output_variants: Vec::<String>::from_dotos_block(&fields[2])?,
        })
    }
}

impl DotosBodyEncode for KnownRootExample {
    fn to_dotos_body(&self) -> dotos::DotosBodyEncoding {
        DotosDocumentEncoding::new(vec![
            self.name.to_dotos(),
            self.imports.to_dotos(),
            self.output_variants.to_dotos(),
        ])
    }
}

impl DotosDocumentDecode for KnownRootExample {
    fn from_dotos_document_body(body: &DotosDocumentBody<'_>) -> Result<Self, DotosDecodeError> {
        Self::from_dotos_body(body.as_body())
    }
}

impl DotosDocumentEncode for KnownRootExample {
    fn to_dotos_document_body(&self) -> DotosDocumentEncoding {
        self.to_dotos_body()
    }
}

impl KnownRootExample {
    fn from_dotos_source(source: &str) -> Result<Self, DotosDecodeError> {
        DotosSource::new(source).parse_document_body()
    }

    fn to_dotos(&self) -> String {
        self.to_dotos_document_body().to_dotos()
    }
}

#[test]
fn codec_decodes_known_root_and_parenthesized_object_from_the_same_body_shape() {
    let document_body = DotosSource::new("schema:core\n[alpha beta]\n[Recorded Rejected]")
        .parse_document_body::<KnownRootExample>()
        .expect("document body decodes");
    let block = DotosSource::new("(schema:core [alpha beta] [Recorded Rejected])")
        .parse_root()
        .expect("parenthesized object parses");
    let object_body = DotosBlock::new(&block)
        .expect_body(Delimiter::Parenthesis, "KnownRootExample")
        .expect("object body opens");
    let object_value =
        KnownRootExample::from_dotos_body(&object_body).expect("object body decodes");

    assert_eq!(document_body, object_value);
}

#[test]
fn codec_decodes_and_encodes_known_root_document_body() {
    let source = r#"schema:core
[alpha beta]
[Recorded Rejected]"#;
    let value = KnownRootExample::from_dotos_source(source).expect("known root body decodes");

    assert_eq!(
        value,
        KnownRootExample {
            name: "schema:core".to_owned(),
            imports: vec!["alpha".to_owned(), "beta".to_owned()],
            output_variants: vec!["Recorded".to_owned(), "Rejected".to_owned()],
        }
    );
    assert_eq!(
        value.to_dotos(),
        "schema:core\n[alpha beta]\n[Recorded Rejected]"
    );
}

#[test]
fn codec_known_root_body_preserves_raw_root_structure_for_callers() {
    let value =
        KnownRootExample::from_dotos_source("core\n[]\n[]").expect("empty body vectors decode");
    let encoding = value.to_dotos_document_body();
    let reparsed =
        dotos::Document::parse(&encoding.to_dotos()).expect("known-root body emits legal DOTOS");

    assert_eq!(encoding.fields().len(), 3);
    assert_eq!(reparsed.root_objects().len(), 3);
    assert!(matches!(
        reparsed.root_objects().get(1),
        Some(Block::Delimited {
            delimiter: Delimiter::SquareBracket,
            ..
        })
    ));
}

#[test]
fn codec_decodes_and_encodes_scalars() {
    assert_eq!(
        DotosSource::new("(schema owns strings)")
            .parse::<String>()
            .expect("string decodes"),
        "schema owns strings"
    );
    assert_eq!(
        DotosSource::new("42")
            .parse::<u64>()
            .expect("integer decodes"),
        42
    );
    assert_eq!(
        DotosSource::new("65535")
            .parse::<u16>()
            .expect("u16 decodes"),
        65_535
    );
    assert_eq!(
        DotosSource::new("255").parse::<u8>().expect("u8 decodes"),
        255
    );
    assert_eq!(
        DotosSource::new("4294967295")
            .parse::<u32>()
            .expect("u32 decodes"),
        4_294_967_295
    );
    assert_eq!(
        DotosSource::new("-2147483648")
            .parse::<i32>()
            .expect("i32 decodes"),
        -2_147_483_648
    );
    assert_eq!(
        DotosSource::new("-128")
            .parse::<i64>()
            .expect("signed integer decodes"),
        -128
    );
    assert!(
        DotosSource::new("True")
            .parse::<bool>()
            .expect("boolean decodes")
    );
    assert_eq!(
        "schema owns strings".to_owned().to_dotos(),
        "(schema owns strings)"
    );
    assert_eq!("100%".to_owned().to_dotos(), "100%");
    assert_eq!("alpha; beta".to_owned().to_dotos(), "(alpha; beta)");
    assert_eq!(42_u64.to_dotos(), "42");
    assert_eq!(255_u8.to_dotos(), "255");
    assert_eq!(65_535_u16.to_dotos(), "65535");
    assert_eq!(4_294_967_295_u32.to_dotos(), "4294967295");
    assert_eq!((-2_147_483_648_i32).to_dotos(), "-2147483648");
    assert_eq!((-128_i64).to_dotos(), "-128");
    assert_eq!(false.to_dotos(), "False");
}

#[test]
fn source_errors_name_the_parse_failure_and_the_root_count() {
    let error = DotosSource::new("(unclosed").parse::<u64>().unwrap_err();
    assert!(matches!(error, DotosDecodeError::Parse(_)));
    let error = DotosSource::new("1 2").parse::<u64>().unwrap_err();
    assert_eq!(error, DotosDecodeError::ExpectedSingleRoot { found: 2 });
}

#[test]
fn option_with_an_unknown_tag_names_the_tag() {
    let block = DotosSource::new("Maybe.1").parse_root().expect("parses");
    let error = Option::<u64>::from_dotos_block(&block).unwrap_err();
    assert_eq!(
        error,
        DotosDecodeError::UnknownVariant {
            enum_name: "Option",
            variant: "Maybe".to_owned(),
        }
    );
}

#[test]
fn vector_reading_stops_at_the_first_failing_element() {
    let block = DotosSource::new("[1 x 2 y]").parse_root().expect("parses");
    let error = Vec::<u64>::from_dotos_block(&block).unwrap_err();
    assert_eq!(
        error,
        DotosDecodeError::InvalidInteger {
            value: "x".to_owned(),
        }
    );
}

#[test]
fn codec_rejoins_dotted_strings_under_expected_string_type() {
    // Decode: a dotted bare application rejoins into flat string content.
    for (source, expected) in [
        ("file.txt", "file.txt"),
        ("Foo.bar", "Foo.bar"),
        (
            "nix.prometheus.goldragon.criome",
            "nix.prometheus.goldragon.criome",
        ),
    ] {
        assert_eq!(
            DotosSource::new(source)
                .parse::<String>()
                .unwrap_or_else(|error| panic!("{source:?} decodes: {error:?}")),
            expected,
            "dotted string decode for {source:?}"
        );
    }

    // Encode: period-joined bare-atom content emits bare.
    assert_eq!("file.txt".to_owned().to_dotos(), "file.txt");
    assert_eq!("Foo.bar".to_owned().to_dotos(), "Foo.bar");
    assert_eq!(
        "nix.prometheus.goldragon.criome".to_owned().to_dotos(),
        "nix.prometheus.goldragon.criome"
    );

    // Round trip (decode after encode) for every canonical class.
    for original in [
        "file.txt",
        "Foo.bar",
        "nix.prometheus.goldragon.criome",
        "words with spaces",
        "version 1.2",
        "line one\nline two",
        "has (paren) and .dot",
    ] {
        let encoded = original.to_owned().to_dotos();
        assert_eq!(
            DotosSource::new(&encoded)
                .parse::<String>()
                .unwrap_or_else(|error| panic!("{original:?} → {encoded:?} decodes: {error:?}")),
            original,
            "round trip for {original:?}"
        );
    }

    // A string with spaces still takes the parenthesis form.
    assert_eq!(
        "words with spaces".to_owned().to_dotos(),
        "(words with spaces)"
    );

    // Canonical source decodes and re-encodes to the identical text.
    for canonical in [
        "file.txt",
        "Foo.bar",
        "nix.prometheus.goldragon.criome",
        "(words with spaces)",
        "(version 1.2)",
    ] {
        let value = DotosSource::new(canonical)
            .parse::<String>()
            .unwrap_or_else(|error| panic!("{canonical:?} decodes: {error:?}"));
        assert_eq!(
            value.to_dotos(),
            canonical,
            "canonical text is an encode fixpoint for {canonical:?}"
        );
    }
}

#[test]
fn codec_rejects_brackets_around_bare_eligible_strings() {
    let error = DotosSource::new("(schema)")
        .parse::<String>()
        .expect_err("redundant inline parentheses reject");

    assert!(
        error.message().contains("use schema"),
        "error was {error:?}"
    );
}

#[test]
fn codec_decodes_and_encodes_collection_values() {
    let vector = DotosSource::new("[alpha beta gamma]")
        .parse::<Vec<String>>()
        .expect("vector decodes");
    assert_eq!(vector, vec!["alpha", "beta", "gamma"]);
    assert_eq!(vector.to_dotos(), "[alpha beta gamma]");

    let option = DotosSource::new("Some.(cache entry)")
        .parse::<Option<String>>()
        .expect("option decodes");
    assert_eq!(option, Some("cache entry".to_owned()));
    assert_eq!(option.to_dotos(), "Some.(cache entry)");

    let none = DotosSource::new("None")
        .parse::<Option<String>>()
        .expect("none decodes");
    assert_eq!(none, None);
    assert_eq!(none.to_dotos(), "None");
}

#[test]
fn codec_decodes_and_encodes_boxed_values_without_shape_noise() {
    let boxed = DotosSource::new("(recursive reference)")
        .parse::<Box<String>>()
        .expect("boxed value decodes");

    assert_eq!(*boxed, "recursive reference");
    assert_eq!(boxed.to_dotos(), "(recursive reference)");
}

#[test]
fn curly_text_carries_what_the_other_forms_cannot() {
    assert_eq!("alpha;;beta".to_owned().to_dotos(), "“alpha;;beta”");
    assert_eq!("".to_owned().to_dotos(), "“”");
    let error = DotosSource::new("“two.words”")
        .parse::<String>()
        .expect_err("curly text around bare-dotted content rejects");
    assert!(error.message().contains("use two.words"), "error was {error:?}");
    let error = DotosSource::new("(two)")
        .parse::<String>()
        .expect_err("a parenthesis around one bare word rejects");
    assert!(error.message().contains("use two"), "error was {error:?}");
}
