use dotos::{Document, StructureHeader, StructureShape};

#[test]
fn design_example_source_spans_propagate_through_nested_blocks() {
    let source = r#"(Record
  [Entry])"#;
    let document = Document::parse(source).expect("dotos parses");
    let outer = document.root_object_at(0).expect("outer parenthesis");

    let outer_span = outer.source_span();
    assert_eq!(outer_span.start.line, 1);
    assert_eq!(outer_span.start.column, 1);
    assert_eq!(outer_span.start.byte_offset, 0);
    assert_eq!(outer_span.end.line, 2);
    assert_eq!(outer_span.end.column, 11);

    let inner = outer.root_object_at(1).expect("inner square-bracket");
    let inner_span = inner.source_span();
    assert_eq!(
        inner_span.start.line, 2,
        "nested block span tracks line through the newline",
    );
    assert_eq!(
        inner_span.start.column, 3,
        "nested block span tracks column at the opening delimiter",
    );
    assert_eq!(inner.reemit(document.source()), "[Entry]");
}

#[test]
fn design_example_structure_header_captures_first_two_levels() {
    let source = r#"(Input ((Record Entry) Drop))
(Output (Accepted))"#;
    let document = Document::parse(source).expect("dotos parses");
    let header = document.structure_header();
    let observed: Vec<(StructureShape, u8)> = header
        .slots()
        .iter()
        .map(|slot| (slot.shape(), slot.child_count()))
        .collect();

    assert_eq!(
        observed,
        vec![
            (StructureShape::Document, 2),
            (StructureShape::Parenthesis, 2),
            (StructureShape::Atom, 0),
            (StructureShape::Parenthesis, 2),
            (StructureShape::Parenthesis, 2),
            (StructureShape::Atom, 0),
            (StructureShape::Parenthesis, 1),
        ],
    );

    assert_eq!(
        StructureHeader::from_packed_word(header.packed_word()),
        header,
        "the header is a stable 64-bit structural triage word",
    );
}

#[test]
fn design_example_structure_header_marks_child_count_overflow() {
    let source = "(A B C D E F G H I J K L M N O P)";
    let document = Document::parse(source).expect("dotos parses");
    let header = document.structure_header();

    let overflowed_slot = header.slots().get(1).expect("root object slot");
    assert_eq!(overflowed_slot.shape(), StructureShape::Unknown);
    assert_eq!(
        overflowed_slot.child_count(),
        15,
        "the count nibble is saturated only when the shape is marked unknown",
    );
    assert_eq!(
        StructureHeader::from_packed_word(header.packed_word()),
        header
    );
}

#[test]
fn design_example_structure_header_marks_slot_truncation() {
    let source = "A B C D E F G H I";
    let document = Document::parse(source).expect("dotos parses");
    let header = document.structure_header();

    assert_eq!(header.slots().len(), StructureHeader::MAXIMUM_SLOTS);
    let last_slot = header.slots().last().expect("last packed slot");
    assert_eq!(last_slot.shape(), StructureShape::Unknown);
    assert_eq!(last_slot.child_count(), 15);
    assert_eq!(
        StructureHeader::from_packed_word(header.packed_word()),
        header
    );
}

#[test]
fn design_example_reader_exposes_candidates_not_schema_semantics() {
    let document = Document::parse("Decision").expect("nota parses");
    let block = document.root_object_at(0).expect("first root");

    // Factual structural query — present.
    assert!(block.is_atom());
    assert!(!block.is_parenthesis());
    assert!(!block.is_square_bracket());
    assert!(!block.is_brace());

    // Candidate query — present, names the classification candidate.
    assert!(block.qualifies_as_pascal_case_symbol());
    assert!(block.qualifies_as_symbol());
    assert!(!block.qualifies_as_camel_case_symbol());
    assert!(!block.qualifies_as_kebab_case_symbol());

    // Demote returns the underlying text.
    assert_eq!(block.demote_to_string(), Some("Decision"));
}
