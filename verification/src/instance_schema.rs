//! The per-instance schema of a decoded value: at each position, the type the
//! decoder expected there, recorded by the same traversal that decodes.
use vstd::prelude::*;
use std::collections::BTreeMap;
use crate::bytes::{ByteSequence, FixedByteSequence};
use crate::codec::{DotosDecode, DotosDecodeError};
use crate::collections::{DotosCollection, decoded_map, elements_decode, entries_decode,
    entry_rejected, keys_ordered, map_entries, map_of, read_map_entry};
use crate::model::Delimiter;
use crate::parser::{Block, models};

verus! {

/// The type reference the decoder expected at one value position.
#[derive(Debug, PartialEq, Eq)]
pub enum TypeReference {
    Named(&'static str),
    Vector(Box<TypeReference>),
    Optional(Box<TypeReference>),
    Mapping(Box<TypeReference>, Box<TypeReference>),
    FixedBytes(usize),
}

impl TypeReference {
    fn duplicate(&self) -> (r: TypeReference)
        ensures
            r == *self,
        decreases *self,
    {
        match self {
            TypeReference::Named(name) => TypeReference::Named(*name),
            TypeReference::Vector(element) => TypeReference::Vector(Box::new(element.duplicate())),
            TypeReference::Optional(inner) => TypeReference::Optional(Box::new(inner.duplicate())),
            TypeReference::Mapping(key, value) => TypeReference::Mapping(
                Box::new(key.duplicate()),
                Box::new(value.duplicate()),
            ),
            TypeReference::FixedBytes(width) => TypeReference::FixedBytes(*width),
        }
    }

    pub fn named(name: &'static str) -> (r: TypeReference)
        ensures
            r == TypeReference::Named(name),
    {
        TypeReference::Named(name)
    }

    pub fn vector(element: TypeReference) -> (r: TypeReference)
        ensures
            r == TypeReference::Vector(Box::new(element)),
    {
        TypeReference::Vector(Box::new(element))
    }

    pub fn optional(inner: TypeReference) -> (r: TypeReference)
        ensures
            r == TypeReference::Optional(Box::new(inner)),
    {
        TypeReference::Optional(Box::new(inner))
    }

    pub fn map(key: TypeReference, value: TypeReference) -> (r: TypeReference)
        ensures
            r == TypeReference::Mapping(Box::new(key), Box::new(value)),
    {
        TypeReference::Mapping(Box::new(key), Box::new(value))
    }
}

impl Clone for TypeReference {
    fn clone(&self) -> (r: Self)
        ensures
            r == *self,
    {
        self.duplicate()
    }
}

/// The children a decoder descended into at one position, if any.
#[derive(Debug, PartialEq, Eq)]
pub enum InstanceSchemaBody {
    /// A leaf read directly.
    Scalar,
    /// A single-field wrapper's inner position.
    Newtype(Box<InstanceSchema>),
    /// A struct's fields in declared order.
    Struct(Vec<InstanceSchema>),
    /// An enum variant's payload, if it carried one.
    EnumPayload(Option<Box<InstanceSchema>>),
    /// A vector's elements.
    Vector(Vec<InstanceSchema>),
    /// An optional's present value, if any.
    Optional(Option<Box<InstanceSchema>>),
    /// A map's key and value positions, pair by pair.
    Mapping(Vec<(InstanceSchema, InstanceSchema)>),
}

/// The schema of one value position: the reference the decoder expected,
/// optional provenance, and the children it descended into.
#[derive(Debug, PartialEq, Eq)]
pub struct InstanceSchema {
    expected: TypeReference,
    provenance: Option<TypeReference>,
    body: InstanceSchemaBody,
}

/// Two schemas hold the same expected reference, the same provenance and the
/// same children, position by position.
pub closed spec fn same_schema(a: InstanceSchema, b: InstanceSchema) -> bool
    decreases a,
{
    &&& a.expected == b.expected
    &&& a.provenance == b.provenance
    &&& same_body(a.body, b.body)
}

/// Two schema bodies are of the same kind with the same children.
pub closed spec fn same_body(a: InstanceSchemaBody, b: InstanceSchemaBody) -> bool
    decreases a,
{
    match (a, b) {
        (InstanceSchemaBody::Scalar, InstanceSchemaBody::Scalar) => true,
        (InstanceSchemaBody::Newtype(x), InstanceSchemaBody::Newtype(y)) => same_schema(*x, *y),
        (InstanceSchemaBody::Struct(x), InstanceSchemaBody::Struct(y)) => {
            proof {
                assert(decreases_to!(x => x@));
            }
            same_schemas(x@, y@)
        },
        (InstanceSchemaBody::EnumPayload(x), InstanceSchemaBody::EnumPayload(y)) => match (x, y) {
            (Some(p), Some(q)) => same_schema(*p, *q),
            (None, None) => true,
            _ => false,
        },
        (InstanceSchemaBody::Vector(x), InstanceSchemaBody::Vector(y)) => {
            proof {
                assert(decreases_to!(x => x@));
            }
            same_schemas(x@, y@)
        },
        (InstanceSchemaBody::Optional(x), InstanceSchemaBody::Optional(y)) => match (x, y) {
            (Some(p), Some(q)) => same_schema(*p, *q),
            (None, None) => true,
            _ => false,
        },
        (InstanceSchemaBody::Mapping(x), InstanceSchemaBody::Mapping(y)) => {
            proof {
                assert(decreases_to!(x => x@));
            }
            same_pairs(x@, y@)
        },
        _ => false,
    }
}

/// Two schema sequences have the same length and the same schema at each
/// index.
pub closed spec fn same_schemas(a: Seq<InstanceSchema>, b: Seq<InstanceSchema>) -> bool
    decreases a,
{
    if a.len() != b.len() {
        false
    } else if a.len() == 0 {
        true
    } else {
        proof {
            assert(decreases_to!(a => a[a.len() - 1]));
            assert(decreases_to!(a => a.subrange(0, a.len() - 1)));
        }
        same_schemas(a.subrange(0, a.len() - 1), b.subrange(0, b.len() - 1)) && same_schema(
            a[a.len() - 1],
            b[b.len() - 1],
        )
    }
}

/// Two sequences of key and value schemas have the same length and the same
/// pair at each index.
pub closed spec fn same_pairs(
    a: Seq<(InstanceSchema, InstanceSchema)>,
    b: Seq<(InstanceSchema, InstanceSchema)>,
) -> bool
    decreases a,
{
    if a.len() != b.len() {
        false
    } else if a.len() == 0 {
        true
    } else {
        proof {
            assert(decreases_to!(a => a[a.len() - 1]));
            assert(decreases_to!(a => a.subrange(0, a.len() - 1)));
        }
        same_pairs(a.subrange(0, a.len() - 1), b.subrange(0, b.len() - 1)) && same_schema(
            a[a.len() - 1].0,
            b[b.len() - 1].0,
        ) && same_schema(a[a.len() - 1].1, b[b.len() - 1].1)
    }
}

impl InstanceSchema {
    fn duplicate(&self) -> (r: InstanceSchema)
        ensures
            same_schema(r, *self),
        decreases *self, 1int,
    {
        InstanceSchema {
            expected: self.expected.clone(),
            provenance: match &self.provenance {
                Some(p) => Some(p.clone()),
                None => None,
            },
            body: self.body.duplicate(),
        }
    }
}

fn duplicate_schemas(schemas: &Vec<InstanceSchema>) -> (r: Vec<InstanceSchema>)
    ensures
        same_schemas(r@, schemas@),
    decreases schemas, 0int,
{
    let mut out: Vec<InstanceSchema> = Vec::new();
    let mut i: usize = 0;
    while i < schemas.len()
        invariant
            i <= schemas.len(),
            same_schemas(out@, schemas@.take(i as int)),
        decreases schemas.len() - i,
    {
        let ghost before = out@;
        out.push(schemas[i].duplicate());
        proof {
            assert(out@.subrange(0, out@.len() - 1) =~= before);
            assert(schemas@.take(i + 1).subrange(0, i as int) =~= schemas@.take(i as int));
            assert(same_schemas(out@, schemas@.take(i + 1)));
        }
        i = i + 1;
    }
    proof {
        assert(schemas@.take(schemas@.len() as int) =~= schemas@);
    }
    out
}

fn duplicate_pairs(pairs: &Vec<(InstanceSchema, InstanceSchema)>) -> (r: Vec<(InstanceSchema, InstanceSchema)>)
    ensures
        same_pairs(r@, pairs@),
    decreases pairs, 0int,
{
    let mut out: Vec<(InstanceSchema, InstanceSchema)> = Vec::new();
    let mut i: usize = 0;
    while i < pairs.len()
        invariant
            i <= pairs.len(),
            same_pairs(out@, pairs@.take(i as int)),
        decreases pairs.len() - i,
    {
        proof {
            assert(decreases_to!(*pairs => pairs[i as int]));
        }
        let key = pairs[i].0.duplicate();
        let value = pairs[i].1.duplicate();
        let ghost before = out@;
        out.push((key, value));
        proof {
            assert(out@.subrange(0, out@.len() - 1) =~= before);
            assert(pairs@.take(i + 1).subrange(0, i as int) =~= pairs@.take(i as int));
            assert(same_pairs(out@, pairs@.take(i + 1)));
        }
        i = i + 1;
    }
    proof {
        assert(pairs@.take(pairs@.len() as int) =~= pairs@);
    }
    out
}

impl InstanceSchemaBody {
    fn duplicate(&self) -> (r: InstanceSchemaBody)
        ensures
            same_body(r, *self),
        decreases *self, 0int,
    {
        match self {
            InstanceSchemaBody::Scalar => InstanceSchemaBody::Scalar,
            InstanceSchemaBody::Newtype(inner) => InstanceSchemaBody::Newtype(Box::new(inner.duplicate())),
            InstanceSchemaBody::Struct(fields) => InstanceSchemaBody::Struct(duplicate_schemas(fields)),
            InstanceSchemaBody::EnumPayload(payload) => InstanceSchemaBody::EnumPayload(
                match payload {
                    Some(p) => Some(Box::new(p.duplicate())),
                    None => None,
                },
            ),
            InstanceSchemaBody::Vector(elements) => InstanceSchemaBody::Vector(
                duplicate_schemas(elements),
            ),
            InstanceSchemaBody::Optional(inner) => InstanceSchemaBody::Optional(
                match inner {
                    Some(p) => Some(Box::new(p.duplicate())),
                    None => None,
                },
            ),
            InstanceSchemaBody::Mapping(pairs) => InstanceSchemaBody::Mapping(duplicate_pairs(pairs)),
        }
    }
}

impl Clone for InstanceSchema {
    fn clone(&self) -> (r: Self)
        ensures
            same_schema(r, *self),
    {
        self.duplicate()
    }
}

impl Clone for InstanceSchemaBody {
    fn clone(&self) -> (r: Self)
        ensures
            same_body(r, *self),
    {
        self.duplicate()
    }
}

impl InstanceSchema {
    pub closed spec fn spec_expected(&self) -> TypeReference {
        self.expected
    }

    pub closed spec fn spec_provenance(&self) -> Option<TypeReference> {
        self.provenance
    }

    pub closed spec fn spec_body(&self) -> InstanceSchemaBody {
        self.body
    }

    pub fn new(expected: TypeReference, body: InstanceSchemaBody) -> (r: InstanceSchema)
        ensures
            r.spec_expected() == expected,
            r.spec_provenance() is None,
            r.spec_body() == body,
    {
        InstanceSchema { expected, provenance: None, body }
    }

    /// The same schema carrying provenance: a fact kept beside the positional
    /// schema, never part of it.
    pub fn with_provenance(self, provenance: TypeReference) -> (r: InstanceSchema)
        ensures
            r.spec_expected() == self.spec_expected(),
            r.spec_provenance() == Some(provenance),
            r.spec_body() == self.spec_body(),
    {
        InstanceSchema { expected: self.expected, provenance: Some(provenance), body: self.body }
    }

    pub fn scalar(expected: TypeReference) -> (r: InstanceSchema)
        ensures
            r.spec_expected() == expected,
            r.spec_provenance() is None,
            r.spec_body() == InstanceSchemaBody::Scalar,
    {
        Self::new(expected, InstanceSchemaBody::Scalar)
    }

    pub fn expected(&self) -> (r: &TypeReference)
        ensures
            *r == self.spec_expected(),
    {
        &self.expected
    }

    pub fn provenance(&self) -> (r: Option<&TypeReference>)
        ensures
            match self.spec_provenance() {
                Some(p) => r == Some(&p),
                None => r is None,
            },
    {
        match &self.provenance {
            Some(p) => Some(p),
            None => None,
        }
    }

    pub fn body(&self) -> (r: &InstanceSchemaBody)
        ensures
            *r == self.spec_body(),
    {
        &self.body
    }
}

/// A decoded value with the schema captured while decoding it.
#[derive(Clone, Debug, PartialEq, Eq)]
pub struct DecodedWithSchema<Value> {
    value: Value,
    schema: InstanceSchema,
}

impl<Value> DecodedWithSchema<Value> {
    pub closed spec fn spec_value(&self) -> Value {
        self.value
    }

    pub closed spec fn spec_schema(&self) -> InstanceSchema {
        self.schema
    }

    pub fn new(value: Value, schema: InstanceSchema) -> (r: DecodedWithSchema<Value>)
        ensures
            r.spec_value() == value,
            r.spec_schema() == schema,
    {
        DecodedWithSchema { value, schema }
    }

    pub fn value(&self) -> (r: &Value)
        ensures
            *r == self.spec_value(),
    {
        &self.value
    }

    pub fn schema(&self) -> (r: &InstanceSchema)
        ensures
            *r == self.spec_schema(),
    {
        &self.schema
    }

    pub fn into_value(self) -> (r: Value)
        ensures
            r == self.spec_value(),
    {
        self.value
    }

    pub fn into_parts(self) -> (r: (Value, InstanceSchema))
        ensures
            r.0 == self.spec_value(),
            r.1 == self.spec_schema(),
    {
        (self.value, self.schema)
    }
}

/// Decodes a value and captures its per-instance schema in one pass.
pub trait DotosDecodeTraced: DotosDecode {
    /// The reference expected for this type at a parent position; the
    /// library states it for its own impls, those whose decoding it states.
    open spec fn spec_instance_reference() -> TypeReference {
        TypeReference::Named("")
    }

    fn instance_reference() -> (r: TypeReference)
        ensures
            Self::decoding_known() ==> r == Self::spec_instance_reference(),
    ;

    /// Decodes `block` as the plain decoder does, with the schema captured
    /// on the way; its root names this type's reference.
    fn from_dotos_block_traced(block: &Block) -> (r: Result<DecodedWithSchema<Self>, DotosDecodeError>)
        ensures
            r matches Ok(d) ==> Self::decodes_to(block@, d.spec_value()),
            Self::decoding_known() ==> (r matches Ok(d) ==> d.spec_schema().spec_expected()
                == Self::spec_instance_reference()),
            Self::decoding_known() ==> (r is Err <==> Self::rejects(block@)),
    ;
}

/// A leaf: the plain decode with a scalar schema node.
fn traced_scalar<T: DotosDecode>(block: &Block, reference: TypeReference) -> (r: Result<
    DecodedWithSchema<T>,
    DotosDecodeError,
>)
    ensures
        r matches Ok(d) ==> T::decodes_to(block@, d.spec_value()) && d.spec_schema().spec_expected()
            == reference && d.spec_schema().spec_body() == InstanceSchemaBody::Scalar,
        T::decoding_known() ==> (r is Err <==> T::rejects(block@)),
{
    match T::from_dotos_block(block) {
        Ok(value) => Ok(DecodedWithSchema::new(value, InstanceSchema::scalar(reference))),
        Err(e) => Err(e),
    }
}

impl DotosDecodeTraced for String {
    open spec fn spec_instance_reference() -> TypeReference {
        TypeReference::Named("String")
    }

    fn instance_reference() -> (r: TypeReference) {
        TypeReference::named("String")
    }

    fn from_dotos_block_traced(block: &Block) -> (r: Result<DecodedWithSchema<Self>, DotosDecodeError>) {
        traced_scalar(block, Self::instance_reference())
    }
}

impl DotosDecodeTraced for u8 {
    open spec fn spec_instance_reference() -> TypeReference {
        TypeReference::Named("Integer")
    }

    fn instance_reference() -> (r: TypeReference) {
        TypeReference::named("Integer")
    }

    fn from_dotos_block_traced(block: &Block) -> (r: Result<DecodedWithSchema<Self>, DotosDecodeError>) {
        traced_scalar(block, Self::instance_reference())
    }
}

impl DotosDecodeTraced for u16 {
    open spec fn spec_instance_reference() -> TypeReference {
        TypeReference::Named("Integer")
    }

    fn instance_reference() -> (r: TypeReference) {
        TypeReference::named("Integer")
    }

    fn from_dotos_block_traced(block: &Block) -> (r: Result<DecodedWithSchema<Self>, DotosDecodeError>) {
        traced_scalar(block, Self::instance_reference())
    }
}

impl DotosDecodeTraced for u32 {
    open spec fn spec_instance_reference() -> TypeReference {
        TypeReference::Named("Integer")
    }

    fn instance_reference() -> (r: TypeReference) {
        TypeReference::named("Integer")
    }

    fn from_dotos_block_traced(block: &Block) -> (r: Result<DecodedWithSchema<Self>, DotosDecodeError>) {
        traced_scalar(block, Self::instance_reference())
    }
}

impl DotosDecodeTraced for u64 {
    open spec fn spec_instance_reference() -> TypeReference {
        TypeReference::Named("Integer")
    }

    fn instance_reference() -> (r: TypeReference) {
        TypeReference::named("Integer")
    }

    fn from_dotos_block_traced(block: &Block) -> (r: Result<DecodedWithSchema<Self>, DotosDecodeError>) {
        traced_scalar(block, Self::instance_reference())
    }
}

impl DotosDecodeTraced for i32 {
    open spec fn spec_instance_reference() -> TypeReference {
        TypeReference::Named("SignedInteger")
    }

    fn instance_reference() -> (r: TypeReference) {
        TypeReference::named("SignedInteger")
    }

    fn from_dotos_block_traced(block: &Block) -> (r: Result<DecodedWithSchema<Self>, DotosDecodeError>) {
        traced_scalar(block, Self::instance_reference())
    }
}

impl DotosDecodeTraced for i64 {
    open spec fn spec_instance_reference() -> TypeReference {
        TypeReference::Named("SignedInteger")
    }

    fn instance_reference() -> (r: TypeReference) {
        TypeReference::named("SignedInteger")
    }

    fn from_dotos_block_traced(block: &Block) -> (r: Result<DecodedWithSchema<Self>, DotosDecodeError>) {
        traced_scalar(block, Self::instance_reference())
    }
}

impl DotosDecodeTraced for bool {
    open spec fn spec_instance_reference() -> TypeReference {
        TypeReference::Named("Boolean")
    }

    fn instance_reference() -> (r: TypeReference) {
        TypeReference::named("Boolean")
    }

    fn from_dotos_block_traced(block: &Block) -> (r: Result<DecodedWithSchema<Self>, DotosDecodeError>) {
        traced_scalar(block, Self::instance_reference())
    }
}

impl DotosDecodeTraced for ByteSequence {
    open spec fn spec_instance_reference() -> TypeReference {
        TypeReference::Named("Bytes")
    }

    fn instance_reference() -> (r: TypeReference) {
        TypeReference::named("Bytes")
    }

    fn from_dotos_block_traced(block: &Block) -> (r: Result<DecodedWithSchema<Self>, DotosDecodeError>) {
        traced_scalar(block, Self::instance_reference())
    }
}

impl<const WIDTH: usize> DotosDecodeTraced for FixedByteSequence<WIDTH> {
    open spec fn spec_instance_reference() -> TypeReference {
        TypeReference::FixedBytes(WIDTH)
    }

    fn instance_reference() -> (r: TypeReference) {
        TypeReference::FixedBytes(WIDTH)
    }

    fn from_dotos_block_traced(block: &Block) -> (r: Result<DecodedWithSchema<Self>, DotosDecodeError>) {
        traced_scalar(block, Self::instance_reference())
    }
}

impl<Element: DotosDecodeTraced> DotosDecodeTraced for Vec<Element> {
    open spec fn spec_instance_reference() -> TypeReference {
        TypeReference::Vector(Box::new(Element::spec_instance_reference()))
    }

    fn instance_reference() -> (r: TypeReference) {
        TypeReference::vector(Element::instance_reference())
    }

    /// The vector with one schema node per element, each naming the element
    /// reference.
    fn from_dotos_block_traced(block: &Block) -> (r: Result<DecodedWithSchema<Self>, DotosDecodeError>)
        ensures
            r matches Ok(d) ==> (d.spec_schema().spec_body() matches InstanceSchemaBody::Vector(nodes)
                && nodes@.len() == d.spec_value()@.len() && (Element::decoding_known() ==> forall|
                i: int|
                0 <= i < nodes@.len() ==> (#[trigger] nodes@[i]).spec_expected()
                    == Element::spec_instance_reference())),
    {
        let children = match block.as_delimited(Delimiter::SquareBracket) {
            Some(children) => children,
            None => {
                return Err(
                    DotosDecodeError::ExpectedDelimited {
                        value_type: "Vec",
                        delimiter: Delimiter::SquareBracket.description(),
                    },
                );
            },
        };
        let ghost bs = models(children@);
        let mut values: Vec<Element> = Vec::new();
        let mut nodes: Vec<InstanceSchema> = Vec::new();
        let mut k: usize = 0;
        while k < children.len()
            invariant
                k <= children.len(),
                bs == models(children@),
                bs == block@.children(),
                crate::parser::is_delimited_model(block@, Delimiter::SquareBracket),
                elements_decode(bs.take(k as int), values@),
                nodes@.len() == k,
                Element::decoding_known() ==> forall|i: int|
                    0 <= i < k ==> (#[trigger] nodes@[i]).spec_expected()
                        == Element::spec_instance_reference(),
                Element::decoding_known() ==> forall|i: int|
                    0 <= i < k ==> !Element::rejects(#[trigger] bs[i]),
            decreases children.len() - k,
        {
            proof {
                assert(bs[k as int] == children@[k as int]@);
            }
            match Element::from_dotos_block_traced(&children[k]) {
                Ok(decoded) => {
                    let (value, schema) = decoded.into_parts();
                    let ghost before = values@;
                    values.push(value);
                    nodes.push(schema);
                    proof {
                        assert forall|i: int| 0 <= i < values@.len() implies Element::decodes_to(
                            #[trigger] bs.take(k + 1)[i],
                            values@[i],
                        ) by {
                            if i < k {
                                assert(bs.take(k + 1)[i] == bs.take(k as int)[i]);
                            }
                        }
                    }
                },
                Err(e) => {
                    proof {
                        if Element::decoding_known() {
                            assert(Element::rejects(bs[k as int]));
                            assert(crate::collections::some_element_rejected::<Element>(bs));
                        }
                    }
                    return Err(e);
                },
            }
            k = k + 1;
        }
        proof {
            assert(bs.take(children@.len() as int) =~= bs);
        }
        let schema = InstanceSchema::new(Self::instance_reference(), InstanceSchemaBody::Vector(nodes));
        Ok(DecodedWithSchema::new(values, schema))
    }
}

impl<Inner: DotosDecodeTraced> DotosDecodeTraced for Option<Inner> {
    open spec fn spec_instance_reference() -> TypeReference {
        TypeReference::Optional(Box::new(Inner::spec_instance_reference()))
    }

    fn instance_reference() -> (r: TypeReference) {
        TypeReference::optional(Inner::instance_reference())
    }

    /// The option with the schema of its present value, if any.
    fn from_dotos_block_traced(block: &Block) -> (r: Result<DecodedWithSchema<Self>, DotosDecodeError>)
        ensures
            r matches Ok(d) ==> (d.spec_schema().spec_body() matches InstanceSchemaBody::Optional(
                inner,
            ) && (inner is Some <==> d.spec_value() is Some) && (Inner::decoding_known() ==> (
                inner matches Some(s) ==> s.spec_expected() == Inner::spec_instance_reference()))),
    {
        match DotosCollection::new(block).option_payload() {
            Ok(Some(payload)) => match Inner::from_dotos_block_traced(payload) {
                Ok(decoded) => {
                    let (value, schema) = decoded.into_parts();
                    let node = InstanceSchema::new(
                        Self::instance_reference(),
                        InstanceSchemaBody::Optional(Some(Box::new(schema))),
                    );
                    Ok(DecodedWithSchema::new(Some(value), node))
                },
                Err(e) => Err(e),
            },
            Ok(None) => {
                let node = InstanceSchema::new(
                    Self::instance_reference(),
                    InstanceSchemaBody::Optional(None),
                );
                Ok(DecodedWithSchema::new(None, node))
            },
            Err(e) => Err(e),
        }
    }
}

impl<Inner: DotosDecodeTraced> DotosDecodeTraced for Box<Inner> {
    open spec fn spec_instance_reference() -> TypeReference {
        Inner::spec_instance_reference()
    }

    fn instance_reference() -> (r: TypeReference) {
        Inner::instance_reference()
    }

    fn from_dotos_block_traced(block: &Block) -> (r: Result<DecodedWithSchema<Self>, DotosDecodeError>) {
        match Inner::from_dotos_block_traced(block) {
            Ok(decoded) => {
                let (value, schema) = decoded.into_parts();
                Ok(DecodedWithSchema::new(Box::new(value), schema))
            },
            Err(e) => Err(e),
        }
    }
}

impl<Key: DotosDecodeTraced + Ord, Value: DotosDecodeTraced> DotosDecodeTraced for BTreeMap<
    Key,
    Value,
> {
    open spec fn spec_instance_reference() -> TypeReference {
        TypeReference::Mapping(
            Box::new(Key::spec_instance_reference()),
            Box::new(Value::spec_instance_reference()),
        )
    }

    fn instance_reference() -> (r: TypeReference) {
        TypeReference::map(Key::instance_reference(), Value::instance_reference())
    }

    /// The map with one pair of schema nodes per entry, in entry order.
    fn from_dotos_block_traced(block: &Block) -> (r: Result<DecodedWithSchema<Self>, DotosDecodeError>)
        ensures
            r matches Ok(d) ==> (d.spec_schema().spec_body() matches InstanceSchemaBody::Mapping(pairs)
                && pairs@.len() == map_entries(block@)->0.len() && (Key::decoding_known()
                && Value::decoding_known() ==> forall|i: int|
                0 <= i < pairs@.len() ==> (#[trigger] pairs@[i]).0.spec_expected()
                    == Key::spec_instance_reference() && pairs@[i].1.spec_expected()
                    == Value::spec_instance_reference())),
    {
        let entries = match DotosCollection::new(block).map_entry_blocks() {
            Ok(entries) => entries,
            Err(e) => {
                return Err(e);
            },
        };
        let ghost es = models(entries@);
        let mut map: BTreeMap<Key, Value> = BTreeMap::new();
        let mut pairs: Vec<(InstanceSchema, InstanceSchema)> = Vec::new();
        let ghost mut ks: Seq<Key> = Seq::empty();
        let ghost mut vs: Seq<Value> = Seq::empty();
        let mut i: usize = 0;
        while i < entries.len()
            invariant
                i <= entries.len(),
                es == models(entries@),
                map_entries(block@) == Some(es),
                entries_decode(es.take(i as int), ks, vs),
                keys_ordered::<Key>() ==> map@ == map_of(ks, vs),
                Key::decoding_known() && Value::decoding_known() ==> forall|j: int|
                    0 <= j < i ==> !entry_rejected::<Key, Value>(#[trigger] es[j]),
                pairs@.len() == i,
                Key::decoding_known() && Value::decoding_known() ==> forall|j: int|
                    0 <= j < i ==> (#[trigger] pairs@[j]).0.spec_expected()
                        == Key::spec_instance_reference() && pairs@[j].1.spec_expected()
                        == Value::spec_instance_reference(),
            decreases entries.len() - i,
        {
            proof {
                assert(es[i as int] == entries@[i as int]@);
            }
            let (key_block, value_block) = match read_map_entry(entries, i) {
                Ok(pair) => pair,
                Err(e) => {
                    return Err(e);
                },
            };
            let (key, key_schema) = match Key::from_dotos_block_traced(&key_block) {
                Ok(decoded) => decoded.into_parts(),
                Err(e) => {
                    return Err(e);
                },
            };
            let (value, value_schema) = match Value::from_dotos_block_traced(&value_block) {
                Ok(decoded) => decoded.into_parts(),
                Err(e) => {
                    return Err(e);
                },
            };
            proof {
                let old_ks = ks;
                let old_vs = vs;
                ks = ks.push(key);
                vs = vs.push(value);
                assert(ks.drop_last() =~= old_ks);
                assert(vs.drop_last() =~= old_vs);
                assert forall|j: int| 0 <= j < i + 1 implies match crate::collections::map_entry(
                    #[trigger] es.take(i + 1)[j],
                ) {
                    Some((k, v)) => Key::decodes_to(k, ks[j]) && Value::decodes_to(v, vs[j]),
                    None => false,
                } by {
                    if j < i {
                        assert(es.take(i + 1)[j] == es.take(i as int)[j]);
                        assert(ks[j] == old_ks[j]);
                        assert(vs[j] == old_vs[j]);
                    }
                }
            }
            map.insert(key, value);
            pairs.push((key_schema, value_schema));
            i = i + 1;
        }
        proof {
            assert(es.take(entries@.len() as int) =~= es);
            assert(entries_decode(es, ks, vs));
            assert(decoded_map(es, map@));
        }
        let schema = InstanceSchema::new(Self::instance_reference(), InstanceSchemaBody::Mapping(pairs));
        Ok(DecodedWithSchema::new(map, schema))
    }
}

} // verus!
