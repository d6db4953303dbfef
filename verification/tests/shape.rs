use dotos::shape::{
    ContainerArgument, ContainerNotaAttributes, FieldArgument, FieldNotaAttributes,
    NotaAttributeError, ShapeArgument, ShapeError, StructuralVariantShape,
};

fn parse(attributes: Vec<Vec<ShapeArgument>>) -> Result<StructuralVariantShape, ShapeError> {
    StructuralVariantShape::parse(&attributes)
}

#[test]
fn each_shape_is_named_by_its_arguments() {
    assert_eq!(
        parse(vec![vec![ShapeArgument::PascalAtom]]),
        Ok(StructuralVariantShape::PascalAtom)
    );
    assert_eq!(
        parse(vec![vec![ShapeArgument::Keyword("Done".to_owned())]]),
        Ok(StructuralVariantShape::Keyword { keyword: "Done".to_owned() })
    );
    assert_eq!(
        parse(vec![vec![ShapeArgument::Head("Call".to_owned()), ShapeArgument::Arity(3)]]),
        Ok(StructuralVariantShape::Headed { head: "Call".to_owned(), arity: 3 })
    );
    assert_eq!(
        parse(vec![vec![ShapeArgument::Head("Note".to_owned())], vec![ShapeArgument::Atom]]),
        Ok(StructuralVariantShape::HeadedAtom { head: "Note".to_owned() })
    );
    assert_eq!(
        parse(vec![vec![ShapeArgument::Head("Block".to_owned()), ShapeArgument::Body]]),
        Ok(StructuralVariantShape::HeadedBody { head: "Block".to_owned() })
    );
    assert_eq!(
        parse(vec![vec![ShapeArgument::PascalHead, ShapeArgument::Arity(2)]]),
        Ok(StructuralVariantShape::PascalHead { arity: 2 })
    );
    assert_eq!(
        parse(vec![vec![ShapeArgument::PascalHead, ShapeArgument::Body]]),
        Ok(StructuralVariantShape::PascalHeadBody)
    );
}

#[test]
fn a_later_head_replaces_an_earlier_one() {
    assert_eq!(
        parse(vec![vec![
            ShapeArgument::Head("First".to_owned()),
            ShapeArgument::Head("Second".to_owned()),
            ShapeArgument::Arity(1),
        ]]),
        Ok(StructuralVariantShape::Headed { head: "Second".to_owned(), arity: 1 })
    );
}

#[test]
fn conflicting_or_missing_arguments_name_their_error() {
    assert_eq!(parse(vec![]), Err(ShapeError::MissingShape));
    assert_eq!(
        parse(vec![vec![ShapeArgument::Body, ShapeArgument::Unsupported("wide".to_owned())]]),
        Err(ShapeError::Unsupported { argument: "wide".to_owned() })
    );
    assert_eq!(
        parse(vec![vec![
            ShapeArgument::Head("Call".to_owned()),
            ShapeArgument::Arity(2),
            ShapeArgument::Body,
        ]]),
        Err(ShapeError::HeadTakesOne)
    );
    assert_eq!(
        parse(vec![vec![ShapeArgument::Head("Call".to_owned())]]),
        Err(ShapeError::HeadNeedsKind)
    );
    assert_eq!(parse(vec![vec![ShapeArgument::Atom]]), Err(ShapeError::AtomNeedsHead));
    let error = parse(vec![vec![
        ShapeArgument::PascalHead,
        ShapeArgument::Body,
        ShapeArgument::Arity(2),
    ]])
    .unwrap_err();
    assert_eq!(error, ShapeError::PascalHeadTakesOne);
    assert_eq!(
        error.message(),
        "pascal_head shape takes either arity = N or body, not both"
    );
    assert_eq!(
        parse(vec![vec![ShapeArgument::PascalHead]]),
        Err(ShapeError::PascalHeadNeedsKind)
    );
    assert_eq!(parse(vec![vec![ShapeArgument::Body]]), Err(ShapeError::BodyNeedsHead));
    assert_eq!(parse(vec![vec![]]), Err(ShapeError::Unrecognized));
}

#[test]
fn each_shape_expects_its_field_count() {
    let headed = StructuralVariantShape::Headed { head: "Call".to_owned(), arity: 3 };
    assert_eq!(headed.check_field_count(2), Ok(()));
    let error = headed.check_field_count(3).unwrap_err();
    assert_eq!(error, ShapeError::FieldCount { expected: 2, found: 3 });
    assert_eq!(
        error.message(),
        "this shape expects 2 field(s); the variant carries 3"
    );
    assert_eq!(StructuralVariantShape::PascalHeadBody.check_field_count(2), Ok(()));
    assert_eq!(
        StructuralVariantShape::Keyword { keyword: "Done".to_owned() }.check_field_count(0),
        Ok(())
    );
}

#[test]
fn shapes_name_what_they_expect_and_their_format_text() {
    assert_eq!(
        StructuralVariantShape::Headed { head: "Call".to_owned(), arity: 3 }.expected_text("Invoke"),
        "Invoke: parenthesized Call head with arity 3"
    );
    assert_eq!(
        StructuralVariantShape::Keyword { keyword: "Done".to_owned() }.expected_text("Finish"),
        "Finish: literal Done atom"
    );
    assert_eq!(
        StructuralVariantShape::PascalHeadBody.expected_text("Node"),
        "Node: parenthesized PascalCase head with body objects"
    );
    assert_eq!(StructuralVariantShape::headed_format("Call", 2), "(Call {} {})");
    assert_eq!(StructuralVariantShape::headed_format("Call", 0), "(Call)");
    assert_eq!(StructuralVariantShape::pascal_head_format(3), "({} {} {})");
    assert_eq!(StructuralVariantShape::pascal_head_format(0), "()");
}

#[test]
fn nota_attributes_read_known_root_and_the_last_field_name() {
    assert_eq!(
        ContainerNotaAttributes::from_attributes(&vec![vec![], vec![ContainerArgument::KnownRoot]]),
        Ok(ContainerNotaAttributes { known_root: true })
    );
    assert_eq!(
        ContainerNotaAttributes::from_attributes(&vec![]),
        Ok(ContainerNotaAttributes { known_root: false })
    );
    let error = ContainerNotaAttributes::from_attributes(&vec![vec![
        ContainerArgument::KnownRoot,
        ContainerArgument::Unsupported("open".to_owned()),
    ]])
    .unwrap_err();
    assert_eq!(
        error,
        NotaAttributeError::UnsupportedContainer { argument: "open".to_owned() }
    );
    assert_eq!(error.message(), "unsupported nota container attribute");

    assert_eq!(
        FieldNotaAttributes::from_attributes(&vec![
            vec![FieldArgument::Name("first".to_owned())],
            vec![FieldArgument::Name("second".to_owned())],
        ]),
        Ok(FieldNotaAttributes { name: Some("second".to_owned()) })
    );
    assert_eq!(
        FieldNotaAttributes::from_attributes(&vec![vec![FieldArgument::Unsupported("skip".to_owned())]]),
        Err(NotaAttributeError::UnsupportedField { argument: "skip".to_owned() })
    );
}
