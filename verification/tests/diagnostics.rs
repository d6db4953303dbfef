use dotos::{
    ByteSequence, Delimiter, Document, DotosDecodeError, DotosError, DotosSource,
    FixedByteSequence, SourcePosition,
};

fn reader_error(source: &str) -> DotosError {
    Document::parse(source).expect_err("the source is refused")
}

#[test]
fn each_reader_error_names_its_position() {
    let error = reader_error("(a))");
    assert!(matches!(error, DotosError::UnexpectedClose { found: ')', .. }));
    assert_eq!(error.message(), "unexpected closing delimiter `)` at 1:4");

    let error = reader_error("\n  [a");
    assert!(matches!(
        error,
        DotosError::UnclosedDelimiter {
            delimiter: Delimiter::SquareBracket,
            position: SourcePosition { byte_offset: 3, line: 2, column: 3 },
        }
    ));
    assert_eq!(error.message(), "unclosed `[` delimiter opened at 2:3");

    let error = reader_error("“open");
    assert!(matches!(error, DotosError::UnclosedCurlyText { .. }));
    assert_eq!(error.message(), "unclosed `“` curly text opened at 1:1");

    let error = reader_error("“a\\x”");
    assert!(matches!(
        error,
        DotosError::InvalidCurlyTextEscape { found: Some('x'), .. }
    ));
    assert_eq!(
        error.message(),
        "invalid curly-text escape `\\x` at 1:3; use `\\“`, `\\”`, or `\\\\`"
    );

    let error = reader_error("“a\\");
    assert!(matches!(
        error,
        DotosError::InvalidCurlyTextEscape { found: None, .. }
    ));
    assert_eq!(error.message(), "unfinished curly-text escape at 1:3");

    let error = reader_error(".a");
    assert!(matches!(error, DotosError::UnexpectedDot { .. }));
    assert_eq!(error.message(), "unexpected `.` with no head object at 1:1");

    let error = reader_error("a. b");
    assert!(matches!(error, DotosError::DanglingApplication { .. }));
    assert_eq!(
        error.message(),
        "dot-application `.` at 1:2 is not followed by a glued payload object"
    );

    let error = reader_error("a | b");
    assert!(matches!(error, DotosError::UnexpectedPipe { .. }));
    assert_eq!(
        error.message(),
        "unexpected `|` at 1:3; pipe has no grammar duty"
    );
}

#[test]
fn each_decode_error_has_its_diagnostic() {
    let error = DotosSource::new("").parse::<u64>().expect_err("no root");
    assert_eq!(
        error,
        DotosDecodeError::ExpectedSingleRoot { found: 0 }
    );
    assert_eq!(
        error.message(),
        "expected exactly one DOTOS root object, found 0"
    );

    let error = DotosSource::new("[a]").parse::<String>().expect_err("a vector is no string");
    assert!(matches!(error, DotosDecodeError::ExpectedDelimited { .. }));
    assert_eq!(
        error.message(),
        "expected String to be a bare atom, dotted application, parenthesis, or curly quote text block"
    );

    let error = DotosSource::new("(a)").parse::<Vec<u64>>().expect_err("not a vector");
    assert!(matches!(error, DotosDecodeError::ExpectedDelimited { .. }));

    let error = DotosSource::new("“abc”")
        .parse::<String>()
        .expect_err("bare-eligible content in curly quotes");
    assert_eq!(
        error,
        DotosDecodeError::NonCanonicalStringDelimiter {
            value: "abc".to_owned(),
            canonical: "abc".to_owned(),
        }
    );
    assert_eq!(
        error.message(),
        "non-canonical string delimiter for \"abc\": use abc"
    );

    let error = DotosSource::new("Maybe.1")
        .parse::<Option<u64>>()
        .expect_err("an unknown option tag");
    assert_eq!(
        error,
        DotosDecodeError::UnknownVariant { enum_name: "Option", variant: "Maybe".to_owned() }
    );
    assert_eq!(error.message(), "unknown Option variant Maybe");

    let error = DotosSource::new("x1").parse::<u64>().expect_err("not a number");
    assert_eq!(error.message(), "invalid integer x1");

    let error = DotosSource::new("True.x").parse::<bool>().expect_err("not a boolean");
    assert!(matches!(error, DotosDecodeError::ExpectedAtom { .. }));

    let error = DotosSource::new("(a").parse::<u64>().expect_err("unbalanced");
    assert_eq!(
        error,
        DotosDecodeError::Parse("unclosed `(` delimiter opened at 1:1".to_owned())
    );
}

#[test]
fn hex_text_is_checked_for_length_and_digits() {
    let error = ByteSequence::from_hex("abc").expect_err("odd length");
    assert!(error.message().contains("odd length"), "{error:?}");

    let error = ByteSequence::from_hex("zz").expect_err("not hexadecimal");
    assert_eq!(
        error.message(),
        "byte sequence hex literal has a non-hex digit: 122"
    );

    let error = ByteSequence::from_hex("AB").expect_err("uppercase is not canonical");
    assert_eq!(
        error.message(),
        "byte sequence hex literal has a non-hex digit: 65"
    );

    let error = FixedByteSequence::<2>::from_hex("abcdef").expect_err("wrong width");
    assert!(error.message().contains("expected 4 hex digits"), "{error:?}");

    let fixed = FixedByteSequence::<2>::from_hex("abcd").expect("the width fits");
    assert_eq!(fixed.payload(), &[0xab, 0xcd]);
    assert_eq!(
        ByteSequence::from_hex("0001ff").expect("hex decodes").payload(),
        &[0x00, 0x01, 0xff]
    );
}
