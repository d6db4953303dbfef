use dotos::{AtomClassification, Document, StructureHeader, StructureShape, StructureSlot};

#[test]
fn every_slot_packs_to_one_byte_and_back() {
    let shapes = [
        StructureShape::Document,
        StructureShape::Atom,
        StructureShape::Parenthesis,
        StructureShape::SquareBracket,
        StructureShape::Brace,
        StructureShape::Angle,
        StructureShape::CurlyText,
        StructureShape::Application,
        StructureShape::Unknown,
    ];
    for shape in shapes {
        for count in 0..=15_usize {
            let slot = StructureSlot::new(shape, count);
            assert_eq!(StructureSlot::from_packed_byte(slot.packed_byte()), slot);
            assert_eq!(usize::from(slot.child_count()), count);
        }
    }
    assert_eq!(StructureSlot::new(StructureShape::Brace, 16), StructureSlot::overflow());
    assert_eq!(StructureSlot::new(StructureShape::Brace, 3).packed_byte(), 0x43);
    assert_eq!(StructureShape::CurlyText.as_str(), "curly quoted text");
}

#[test]
fn headers_pack_to_one_word_and_back() {
    for source in [
        "",
        "alpha",
        "(a b) [c] {d e f}",
        "Vector<Ordered> “text” Some.1",
        "(A B C D E F G H I J K L M N O P Q)",
        "a b c d e f g h i j",
    ] {
        let document = Document::parse(source).expect("valid dotos");
        let header = document.structure_header();
        assert!(header.slots().len() <= StructureHeader::MAXIMUM_SLOTS);
        assert_eq!(
            StructureHeader::from_packed_word(header.packed_word()),
            header,
            "header of {source:?}"
        );
    }
}

#[test]
fn a_header_records_shapes_in_authored_order() {
    let document = Document::parse("Vector<Ordered> “text” Some.1").expect("valid dotos");
    let shapes: Vec<StructureShape> = document
        .structure_header()
        .slots()
        .iter()
        .map(|slot| slot.shape())
        .collect();
    assert_eq!(
        shapes,
        vec![
            StructureShape::Document,
            StructureShape::Application,
            StructureShape::CurlyText,
            StructureShape::Application,
        ]
    );
}

#[test]
fn reemitted_text_is_the_span_of_each_block() {
    let source = "(State\n  [Statement “two words”])  Name.(Input Output)";
    let document = Document::parse(source).expect("valid dotos");
    let first = document.root_object_at(0).expect("first root");
    assert_eq!(
        first.reemit(document.source()),
        "(State\n  [Statement “two words”])"
    );
    let inner = first.root_object_at(1).expect("square child");
    assert_eq!(inner.reemit(document.source()), "[Statement “two words”]");
    let second = document.root_object_at(1).expect("second root");
    assert_eq!(second.reemit(document.source()), "Name.(Input Output)");
}

#[test]
fn classifier_accepts_only_text_that_reads_back_as_one_atom() {
    for text in ["schema", "100%", "alpha;beta", "a;b;c"] {
        assert_eq!(AtomClassification::classify(text), AtomClassification::SymbolCandidate);
        let document = Document::parse(text).expect("parses");
        assert_eq!(document.holds_root_objects(), 1);
        assert_eq!(document.root_objects()[0].atom().expect("an atom").text(), text);
    }
    for text in ["a.b", "alpha beta", "", "a;;b", ";;"] {
        assert_eq!(AtomClassification::classify(text), AtomClassification::Other);
    }
}

#[test]
fn parsed_spans_lie_inside_their_parents_and_atoms_slice_the_source() {
    let source = "(alpha [beta gamma]) delta.epsilon";
    let document = Document::parse(source).expect("parses");
    let roots = document.root_objects();
    assert_eq!(roots.len(), 2);
    let first = roots[0].source_span();
    let second = roots[1].source_span();
    assert!(first.start.byte_offset < first.end.byte_offset);
    assert!(first.end.byte_offset <= second.start.byte_offset);
    assert!(second.end.byte_offset <= source.len());
    let children = roots[0].root_objects();
    assert_eq!(children.len(), 2);
    let mut previous_end = first.start.byte_offset + 1;
    for child in children {
        let span = child.source_span();
        assert!(previous_end <= span.start.byte_offset);
        assert!(span.end.byte_offset <= first.end.byte_offset - 1);
        previous_end = span.end.byte_offset;
    }
    let atom = children[0].atom().expect("an atom");
    let span = atom.source_span();
    assert_eq!(&source[span.start.byte_offset..span.end.byte_offset], atom.text());
}
