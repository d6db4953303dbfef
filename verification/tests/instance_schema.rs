use dotos::{
    Block, Delimiter, DecodedWithSchema, DotosDecode, DotosDecodeError, DotosDecodeTraced,
    DotosSource, InstanceSchema, InstanceSchemaBody, TypeReference,
};

// A small taxonomy written with hand-written codec impls: each enum reads
// `(Variant payload)` for a data variant and a bare atom for a unit variant.

#[derive(Debug, PartialEq, Eq)]
enum Software {
    Programming(String),
    Theory,
}

#[derive(Debug, PartialEq, Eq)]
enum Technology {
    Software(Software),
}

#[derive(Debug, PartialEq, Eq)]
enum Domain {
    Technology(Technology),
}

#[derive(Debug, PartialEq, Eq)]
struct Domains(Vec<Domain>);

fn unknown(enum_name: &'static str, block: &Block) -> DotosDecodeError {
    DotosDecodeError::UnknownVariant {
        enum_name,
        variant: block.dotted_text().unwrap_or_default(),
    }
}

/// The head text and the payload of `(Variant payload)`.
fn variant_parts<'a>(
    enum_name: &'static str,
    block: &'a Block,
) -> Result<(&'a str, &'a Block), DotosDecodeError> {
    let children = block
        .as_delimited(Delimiter::Parenthesis)
        .ok_or_else(|| unknown(enum_name, block))?;
    if children.len() != 2 {
        return Err(DotosDecodeError::ExpectedRootCount {
            value_type: enum_name,
            expected: 2,
            found: children.len(),
        });
    }
    let head = children[0]
        .demote_to_string()
        .ok_or(DotosDecodeError::ExpectedAtom { value_type: enum_name })?;
    Ok((head, &children[1]))
}

impl DotosDecode for Software {
    fn from_dotos_block(block: &Block) -> Result<Self, DotosDecodeError> {
        if block.demote_to_string() == Some("Theory") {
            return Ok(Software::Theory);
        }
        match variant_parts("Software", block)? {
            ("Programming", payload) => Ok(Software::Programming(String::from_dotos_block(payload)?)),
            _ => Err(unknown("Software", block)),
        }
    }
}

impl DotosDecode for Technology {
    fn from_dotos_block(block: &Block) -> Result<Self, DotosDecodeError> {
        match variant_parts("Technology", block)? {
            ("Software", payload) => Ok(Technology::Software(Software::from_dotos_block(payload)?)),
            _ => Err(unknown("Technology", block)),
        }
    }
}

impl DotosDecode for Domain {
    fn from_dotos_block(block: &Block) -> Result<Self, DotosDecodeError> {
        match variant_parts("Domain", block)? {
            ("Technology", payload) => Ok(Domain::Technology(Technology::from_dotos_block(payload)?)),
            _ => Err(unknown("Domain", block)),
        }
    }
}

impl DotosDecode for Domains {
    fn from_dotos_block(block: &Block) -> Result<Self, DotosDecodeError> {
        Ok(Domains(Vec::<Domain>::from_dotos_block(block)?))
    }
}

impl DotosDecodeTraced for Software {
    fn instance_reference() -> TypeReference {
        TypeReference::named("Software")
    }

    fn from_dotos_block_traced(block: &Block) -> Result<DecodedWithSchema<Self>, DotosDecodeError> {
        if block.demote_to_string() == Some("Theory") {
            return Ok(DecodedWithSchema::new(
                Software::Theory,
                InstanceSchema::new(Self::instance_reference(), InstanceSchemaBody::EnumPayload(None)),
            ));
        }
        match variant_parts("Software", block)? {
            ("Programming", payload) => {
                let (inner, schema) = String::from_dotos_block_traced(payload)?.into_parts();
                Ok(DecodedWithSchema::new(
                    Software::Programming(inner),
                    InstanceSchema::new(
                        Self::instance_reference(),
                        InstanceSchemaBody::EnumPayload(Some(Box::new(schema))),
                    ),
                ))
            }
            _ => Err(unknown("Software", block)),
        }
    }
}

impl DotosDecodeTraced for Technology {
    fn instance_reference() -> TypeReference {
        TypeReference::named("Technology")
    }

    fn from_dotos_block_traced(block: &Block) -> Result<DecodedWithSchema<Self>, DotosDecodeError> {
        match variant_parts("Technology", block)? {
            ("Software", payload) => {
                let (inner, schema) = Software::from_dotos_block_traced(payload)?.into_parts();
                Ok(DecodedWithSchema::new(
                    Technology::Software(inner),
                    InstanceSchema::new(
                        Self::instance_reference(),
                        InstanceSchemaBody::EnumPayload(Some(Box::new(schema))),
                    ),
                ))
            }
            _ => Err(unknown("Technology", block)),
        }
    }
}

impl DotosDecodeTraced for Domain {
    fn instance_reference() -> TypeReference {
        TypeReference::named("Domain")
    }

    fn from_dotos_block_traced(block: &Block) -> Result<DecodedWithSchema<Self>, DotosDecodeError> {
        match variant_parts("Domain", block)? {
            ("Technology", payload) => {
                let (inner, schema) = Technology::from_dotos_block_traced(payload)?.into_parts();
                Ok(DecodedWithSchema::new(
                    Domain::Technology(inner),
                    InstanceSchema::new(
                        Self::instance_reference(),
                        InstanceSchemaBody::EnumPayload(Some(Box::new(schema))),
                    ),
                ))
            }
            _ => Err(unknown("Domain", block)),
        }
    }
}

impl DotosDecodeTraced for Domains {
    fn instance_reference() -> TypeReference {
        TypeReference::named("Domains")
    }

    fn from_dotos_block_traced(block: &Block) -> Result<DecodedWithSchema<Self>, DotosDecodeError> {
        let (inner, schema) = Vec::<Domain>::from_dotos_block_traced(block)?.into_parts();
        Ok(DecodedWithSchema::new(
            Domains(inner),
            InstanceSchema::new(
                Self::instance_reference(),
                InstanceSchemaBody::Newtype(Box::new(schema)),
            ),
        ))
    }
}

fn trace<Value: DotosDecodeTraced>(source: &str) -> (Value, InstanceSchema) {
    let block = DotosSource::new(source)
        .parse_root()
        .expect("parse a single root object");
    Value::from_dotos_block_traced(&block)
        .expect("decode value and capture its instance schema")
        .into_parts()
}

fn named(reference: &TypeReference) -> &str {
    match reference {
        TypeReference::Named(name) => name,
        other => panic!("expected a named reference, found {other:?}"),
    }
}

#[test]
fn empty_vector_still_names_its_element_type() {
    // `[]` at a Domains position still yields Domains, (Vec Domain) inside.
    let (value, schema) = trace::<Domains>("[]");
    assert_eq!(value, Domains(vec![]));
    assert_eq!(named(schema.expected()), "Domains");
    let InstanceSchemaBody::Newtype(inner) = schema.body() else {
        panic!("Domains newtype must carry a Newtype body");
    };
    match inner.expected() {
        TypeReference::Vector(element) => assert_eq!(named(element), "Domain"),
        other => panic!("expected (Vec Domain), found {other:?}"),
    }
    assert!(matches!(inner.body(), InstanceSchemaBody::Vector(nodes) if nodes.is_empty()));
}

#[test]
fn traced_value_matches_ordinary_decode() {
    // The traced decoder must agree with the ordinary decoder on the value.
    let source = "(Technology (Software Theory))";
    let traced = {
        let block = DotosSource::new(source).parse_root().expect("parse root");
        Domain::from_dotos_block_traced(&block)
            .expect("traced decode")
            .into_value()
    };
    let ordinary = DotosSource::new(source)
        .parse::<Domain>()
        .expect("ordinary decode");
    assert_eq!(traced, ordinary);
    assert_eq!(
        traced,
        Domain::Technology(Technology::Software(Software::Theory))
    );
}

#[test]
fn a_copied_schema_equals_its_source() {
    let (_, schema) = trace::<Domain>("(Technology (Software (Programming “code generation”)))");
    let copy = schema.clone();
    assert_eq!(copy, schema);
}
