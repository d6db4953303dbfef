use dotos::{CaptureName, CapturedValue, Document, MacroCaptures, Pattern, PatternElement};

#[test]
fn a_cloned_pattern_matches_alike_with_the_same_captures() {
    let pattern = Pattern::new(vec![
        PatternElement::Literal("Head".to_owned()),
        PatternElement::Any(Some(CaptureName::new("first"))),
        PatternElement::Rest(CaptureName::new("rest")),
    ]);
    let copy = pattern.clone();
    let document = Document::parse("Head alpha beta gamma").expect("valid dotos");
    let blocks: Vec<_> = document.root_objects().iter().collect();

    let original = pattern.matches(&blocks).expect("the pattern matches");
    let cloned = copy.matches(&blocks).expect("the clone matches");
    let names = |captures: &dotos::MacroCaptures<'_>| -> Vec<String> {
        captures
            .values()
            .iter()
            .map(|(name, _)| name.as_str().to_owned())
            .collect()
    };
    assert_eq!(names(&original), names(&cloned));
    assert_eq!(names(&original), vec!["first".to_owned(), "rest".to_owned()]);

    let other = Document::parse("Tail alpha").expect("valid dotos");
    let other_blocks: Vec<_> = other.root_objects().iter().collect();
    assert!(pattern.matches(&other_blocks).is_none());
    assert!(copy.matches(&other_blocks).is_none());
}

#[test]
fn captures_are_listed_in_name_order() {
    let document = Document::parse("x").expect("valid dotos");
    let block = &document.root_objects()[0];
    let mut captures = MacroCaptures::new();
    for name in ["gamma", "alpha", "beta", "Zeta", "alpha"] {
        captures.insert(CaptureName::new(name), CapturedValue::Block(block));
    }
    let names: Vec<&str> = captures.values().iter().map(|(name, _)| name.as_str()).collect();
    assert_eq!(names, vec!["Zeta", "alpha", "beta", "gamma"]);
}
