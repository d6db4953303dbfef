//! Codec impls for scalars and for the collection shapes: vectors, options,
//! boxes and ordered maps.
use vstd::prelude::*;
use crate::codec::{
    DotosBlock, DotosBody, DotosBodyDecode, DotosBodyEncode, DotosBodyEncoding, DotosDecode,
    DotosDecodeError, DotosEncode, expected_delimited_error, spec_decode_bool, spec_decode_i64,
    spec_decode_string, spec_decode_u64,
};
use crate::model::{BlockModel, Delimiter};
use crate::numbers::{push_signed_decimal, signed_decimal};
use crate::expectation::DottedExpectation;
use crate::parser::{Block, atom_text_of, is_delimited_model, models};
use std::collections::BTreeMap;
use vstd::laws_cmp::obeys_cmp;
use crate::strings::{DotosString, spec_format_string};
use crate::text::{decimal, decimal_text, joined, push_char, push_str, string_views, text_of};

verus! {

impl DotosDecode for String {
    open spec fn decoding_known() -> bool {
        true
    }

    open spec fn decodes_to(block: BlockModel, value: Self) -> bool {
        spec_decode_string(block) == Some(value@)
    }

    open spec fn rejects(block: BlockModel) -> bool {
        spec_decode_string(block) is None
    }

    fn from_dotos_block(block: &Block) -> (r: Result<Self, DotosDecodeError>) {
        DotosBlock::new(block).parse_string()
    }
}

impl DotosEncode for String {
    open spec fn encoding_known() -> bool {
        true
    }

    open spec fn encoding(&self) -> Seq<char> {
        spec_format_string(self@)
    }

    fn to_dotos(&self) -> (r: String) {
        DotosString::new(self.as_str()).format()
    }
}

impl DotosDecode for u64 {
    open spec fn decoding_known() -> bool {
        true
    }

    open spec fn decodes_to(block: BlockModel, value: Self) -> bool {
        spec_decode_u64(block) == Some(value)
    }

    open spec fn rejects(block: BlockModel) -> bool {
        spec_decode_u64(block) is None
    }

    fn from_dotos_block(block: &Block) -> (r: Result<Self, DotosDecodeError>) {
        DotosBlock::new(block).parse_integer()
    }
}

impl DotosEncode for u64 {
    open spec fn encoding_known() -> bool {
        true
    }

    open spec fn encoding(&self) -> Seq<char> {
        decimal(*self as nat)
    }

    fn to_dotos(&self) -> (r: String) {
        decimal_text(*self)
    }
}

impl DotosDecode for u32 {
    open spec fn decoding_known() -> bool {
        true
    }

    open spec fn decodes_to(block: BlockModel, value: Self) -> bool {
        spec_decode_u64(block) == Some(value as u64)
    }

    open spec fn rejects(block: BlockModel) -> bool {
        !(spec_decode_u64(block) matches Some(v) && v <= u32::MAX)
    }

    fn from_dotos_block(block: &Block) -> (r: Result<Self, DotosDecodeError>) {
        DotosBlock::new(block).parse_u32()
    }
}

impl DotosEncode for u32 {
    open spec fn encoding_known() -> bool {
        true
    }

    open spec fn encoding(&self) -> Seq<char> {
        decimal(*self as nat)
    }

    fn to_dotos(&self) -> (r: String) {
        decimal_text(*self as u64)
    }
}

impl DotosDecode for u16 {
    open spec fn decoding_known() -> bool {
        true
    }

    open spec fn decodes_to(block: BlockModel, value: Self) -> bool {
        spec_decode_u64(block) == Some(value as u64)
    }

    open spec fn rejects(block: BlockModel) -> bool {
        !(spec_decode_u64(block) matches Some(v) && v <= u16::MAX)
    }

    fn from_dotos_block(block: &Block) -> (r: Result<Self, DotosDecodeError>) {
        DotosBlock::new(block).parse_u16()
    }
}

impl DotosEncode for u16 {
    open spec fn encoding_known() -> bool {
        true
    }

    open spec fn encoding(&self) -> Seq<char> {
        decimal(*self as nat)
    }

    fn to_dotos(&self) -> (r: String) {
        decimal_text(*self as u64)
    }
}

impl DotosDecode for u8 {
    open spec fn decoding_known() -> bool {
        true
    }

    open spec fn decodes_to(block: BlockModel, value: Self) -> bool {
        spec_decode_u64(block) == Some(value as u64)
    }

    open spec fn rejects(block: BlockModel) -> bool {
        !(spec_decode_u64(block) matches Some(v) && v <= u8::MAX)
    }

    fn from_dotos_block(block: &Block) -> (r: Result<Self, DotosDecodeError>) {
        DotosBlock::new(block).parse_u8()
    }
}

impl DotosEncode for u8 {
    open spec fn encoding_known() -> bool {
        true
    }

    open spec fn encoding(&self) -> Seq<char> {
        decimal(*self as nat)
    }

    fn to_dotos(&self) -> (r: String) {
        decimal_text(*self as u64)
    }
}

impl DotosDecode for i64 {
    open spec fn decoding_known() -> bool {
        true
    }

    open spec fn decodes_to(block: BlockModel, value: Self) -> bool {
        spec_decode_i64(block) == Some(value)
    }

    open spec fn rejects(block: BlockModel) -> bool {
        spec_decode_i64(block) is None
    }

    fn from_dotos_block(block: &Block) -> (r: Result<Self, DotosDecodeError>) {
        DotosBlock::new(block).parse_signed_integer()
    }
}

impl DotosEncode for i64 {
    open spec fn encoding_known() -> bool {
        true
    }

    open spec fn encoding(&self) -> Seq<char> {
        signed_decimal(*self as int)
    }

    fn to_dotos(&self) -> (r: String) {
        let mut s = String::new();
        push_signed_decimal(&mut s, *self);
        s
    }
}

impl DotosDecode for i32 {
    open spec fn decoding_known() -> bool {
        true
    }

    open spec fn decodes_to(block: BlockModel, value: Self) -> bool {
        spec_decode_i64(block) == Some(value as i64)
    }

    open spec fn rejects(block: BlockModel) -> bool {
        !(spec_decode_i64(block) matches Some(v) && i32::MIN <= v <= i32::MAX)
    }

    fn from_dotos_block(block: &Block) -> (r: Result<Self, DotosDecodeError>) {
        DotosBlock::new(block).parse_i32()
    }
}

impl DotosEncode for i32 {
    open spec fn encoding_known() -> bool {
        true
    }

    open spec fn encoding(&self) -> Seq<char> {
        signed_decimal(*self as int)
    }

    fn to_dotos(&self) -> (r: String) {
        let mut s = String::new();
        push_signed_decimal(&mut s, *self as i64);
        s
    }
}

impl DotosDecode for bool {
    open spec fn decoding_known() -> bool {
        true
    }

    open spec fn decodes_to(block: BlockModel, value: Self) -> bool {
        spec_decode_bool(block) == Some(value)
    }

    open spec fn rejects(block: BlockModel) -> bool {
        spec_decode_bool(block) is None
    }

    fn from_dotos_block(block: &Block) -> (r: Result<Self, DotosDecodeError>) {
        DotosBlock::new(block).parse_boolean()
    }
}

impl DotosEncode for bool {
    open spec fn encoding_known() -> bool {
        true
    }

    open spec fn encoding(&self) -> Seq<char> {
        if *self {
            "True"@
        } else {
            "False"@
        }
    }

    fn to_dotos(&self) -> (r: String) {
        if *self {
            text_of("True")
        } else {
            text_of("False")
        }
    }
}

// ---------------------------------------------------------------------------
// Vectors.

/// Every element decodes from the matching block.
pub open spec fn elements_decode<Element: DotosDecode>(blocks: Seq<BlockModel>, values: Seq<Element>) -> bool {
    blocks.len() == values.len() && forall|i: int| 0 <= i < values.len() ==> Element::decodes_to(
        #[trigger] blocks[i],
        values[i],
    )
}

/// Some block holds no element.
pub open spec fn some_element_rejected<Element: DotosDecode>(blocks: Seq<BlockModel>) -> bool {
    exists|i: int| 0 <= i < blocks.len() && Element::rejects(#[trigger] blocks[i])
}

pub open spec fn encodings<Element: DotosEncode>(values: Seq<Element>) -> Seq<Seq<char>> {
    values.map_values(|v: Element| v.encoding())
}

/// Decodes each block of a sequence in order, stopping at the first failure.
fn decode_each<Element: DotosDecode>(blocks: &[Block]) -> (r: Result<Vec<Element>, DotosDecodeError>)
    ensures
        r matches Ok(v) ==> elements_decode(models(blocks@), v@),
        Element::decoding_known() ==> (r is Err <==> some_element_rejected::<Element>(
            models(blocks@),
        )),
{
    let mut values: Vec<Element> = Vec::new();
    let mut k: usize = 0;
    while k < blocks.len()
        invariant
            k <= blocks.len(),
            elements_decode(models(blocks@).take(k as int), values@),
            Element::decoding_known() ==> forall|i: int|
                0 <= i < k ==> !Element::rejects(#[trigger] models(blocks@)[i]),
        decreases blocks.len() - k,
    {
        match Element::from_dotos_block(&blocks[k]) {
            Ok(v) => {
                let ghost before = values@;
                values.push(v);
                proof {
                    assert(models(blocks@)[k as int] == blocks@[k as int]@);
                    assert forall|i: int| 0 <= i < values@.len() implies Element::decodes_to(
                        #[trigger] models(blocks@).take(k + 1)[i],
                        values@[i],
                    ) by {
                        if i < k {
                            assert(models(blocks@).take(k + 1)[i] == models(blocks@).take(
                                k as int,
                            )[i]);
                        }
                    }
                }
            },
            Err(e) => {
                proof {
                    assert(models(blocks@)[k as int] == blocks@[k as int]@);
                }
                return Err(e);
            },
        }
        k = k + 1;
    }
    proof {
        assert(models(blocks@).take(blocks.len() as int) =~= models(blocks@));
    }
    Ok(values)
}

/// Encodes each value and joins the texts with spaces.
fn encode_each<Element: DotosEncode>(values: &Vec<Element>) -> (r: Vec<String>)
    ensures
        Element::encoding_known() ==> string_views(r@) == encodings(values@),
{
    let mut texts: Vec<String> = Vec::new();
    let mut k: usize = 0;
    while k < values.len()
        invariant
            k <= values.len(),
            texts@.len() == k,
            Element::encoding_known() ==> string_views(texts@) == encodings(values@).take(k as int),
        decreases values.len() - k,
    {
        let ghost before = texts@;
        texts.push(values[k].to_dotos());
        proof {
            if Element::encoding_known() {
                assert(string_views(texts@) =~= string_views(before).push(
                    values@[k as int].encoding(),
                ));
                assert(encodings(values@).take(k + 1) =~= encodings(values@).take(k as int).push(
                    values@[k as int].encoding(),
                ));
            }
        }
        k = k + 1;
    }
    proof {
        if Element::encoding_known() {
            assert(encodings(values@).take(values.len() as int) =~= encodings(values@));
        }
    }
    texts
}

impl<Element: DotosDecode> DotosDecode for Vec<Element> {
    open spec fn decoding_known() -> bool {
        Element::decoding_known()
    }

    open spec fn decodes_to(block: BlockModel, value: Self) -> bool {
        is_delimited_model(block, Delimiter::SquareBracket) && elements_decode(
            block.children(),
            value@,
        )
    }

    open spec fn rejects(block: BlockModel) -> bool {
        !is_delimited_model(block, Delimiter::SquareBracket) || some_element_rejected::<Element>(
            block.children(),
        )
    }

    fn from_dotos_block(block: &Block) -> (r: Result<Self, DotosDecodeError>) {
        match block.as_delimited(Delimiter::SquareBracket) {
            Some(children) => decode_each(children),
            None => Err(
                DotosDecodeError::ExpectedDelimited {
                    value_type: "Vec",
                    delimiter: Delimiter::SquareBracket.description(),
                },
            ),
        }
    }
}

impl<Element: DotosEncode> DotosEncode for Vec<Element> {
    open spec fn encoding_known() -> bool {
        Element::encoding_known()
    }

    open spec fn encoding(&self) -> Seq<char> {
        seq!['['] + joined(encodings(self@), " "@) + seq![']']
    }

    fn to_dotos(&self) -> (r: String) {
        Delimiter::SquareBracket.wrap(encode_each(self))
    }
}

impl<Element: DotosDecode> DotosBodyDecode for Vec<Element> {
    open spec fn body_decoding_known() -> bool {
        Element::decoding_known()
    }

    open spec fn body_decodes_to(body: Seq<BlockModel>, value: Self) -> bool {
        elements_decode(body, value@)
    }

    open spec fn body_rejects(body: Seq<BlockModel>) -> bool {
        some_element_rejected::<Element>(body)
    }

    fn from_dotos_body(body: &DotosBody<'_>) -> (r: Result<Self, DotosDecodeError>) {
        decode_each(body.root_objects())
    }
}

impl<Element: DotosEncode> DotosBodyEncode for Vec<Element> {
    open spec fn body_encoding_known() -> bool {
        Element::encoding_known()
    }

    open spec fn body_encoding(&self) -> Seq<Seq<char>> {
        encodings(self@)
    }

    fn to_dotos_body(&self) -> (r: DotosBodyEncoding) {
        DotosBodyEncoding::new(encode_each(self))
    }
}

// ---------------------------------------------------------------------------
// Options and boxes.

/// `Some(None)` for the `None` atom, `Some(Some(p))` for `Some.p`, `None` for
/// anything else.
pub open spec fn option_shape(b: BlockModel) -> Option<Option<BlockModel>> {
    if b.demoted() == Some("None"@) {
        Some(None)
    } else {
        match b {
            BlockModel::Application { head, payload, .. } => if head.demoted() == Some("Some"@) {
                Some(Some(*payload))
            } else {
                None
            },
            _ => None,
        }
    }
}

/// The error option reading gives for a block of another shape: not an
/// application; a head that is not an atom; or a tag other than `Some`,
/// named in the error.
pub open spec fn option_shape_error(b: BlockModel, e: DotosDecodeError) -> bool {
    match b {
        BlockModel::Application { head, .. } => match head.demoted() {
            Some(tag) => e matches DotosDecodeError::UnknownVariant { enum_name, variant }
                && enum_name == "Option" && variant@ == tag,
            None => e matches DotosDecodeError::ExpectedAtom { value_type }
                && value_type == "Option tag",
        },
        _ => expected_delimited_error(e, "Option", "None atom or Some.payload application"@),
    }
}

impl<Inner: DotosDecode> DotosDecode for Option<Inner> {
    open spec fn decoding_known() -> bool {
        Inner::decoding_known()
    }

    open spec fn decodes_to(block: BlockModel, value: Self) -> bool {
        match (option_shape(block), value) {
            (Some(None), None) => true,
            (Some(Some(p)), Some(x)) => Inner::decodes_to(p, x),
            _ => false,
        }
    }

    open spec fn rejects(block: BlockModel) -> bool {
        match option_shape(block) {
            None => true,
            Some(None) => false,
            Some(Some(p)) => Inner::rejects(p),
        }
    }

    fn from_dotos_block(block: &Block) -> (r: Result<Self, DotosDecodeError>) {
        DotosCollection::new(block).decode_option()
    }
}

impl<Inner: DotosEncode> DotosEncode for Option<Inner> {
    open spec fn encoding_known() -> bool {
        Inner::encoding_known()
    }

    open spec fn encoding(&self) -> Seq<char> {
        match self {
            Some(inner) => "Some."@ + inner.encoding(),
            None => "None"@,
        }
    }

    fn to_dotos(&self) -> (r: String) {
        match self {
            Some(inner) => {
                let mut s = text_of("Some.");
                push_str(&mut s, inner.to_dotos().as_str());
                s
            },
            None => text_of("None"),
        }
    }
}

impl<Inner: DotosDecode> DotosDecode for Box<Inner> {
    open spec fn decoding_known() -> bool {
        Inner::decoding_known()
    }

    open spec fn decodes_to(block: BlockModel, value: Self) -> bool {
        Inner::decodes_to(block, *value)
    }

    open spec fn rejects(block: BlockModel) -> bool {
        Inner::rejects(block)
    }

    fn from_dotos_block(block: &Block) -> (r: Result<Self, DotosDecodeError>) {
        match Inner::from_dotos_block(block) {
            Ok(v) => Ok(Box::new(v)),
            Err(e) => Err(e),
        }
    }
}

impl<Inner: DotosEncode> DotosEncode for Box<Inner> {
    open spec fn encoding_known() -> bool {
        Inner::encoding_known()
    }

    open spec fn encoding(&self) -> Seq<char> {
        (**self).encoding()
    }

    fn to_dotos(&self) -> (r: String) {
        (**self).to_dotos()
    }
}

// ---------------------------------------------------------------------------
// The collection reader.

/// The error `Map.( .. )` reading gives for a block of another shape: not an
/// application; a head other than `Map`, named by its dotted text; or a
/// payload that is not a parenthesis.
pub open spec fn map_shape_error(b: BlockModel, e: DotosDecodeError) -> bool {
    match b {
        BlockModel::Application { head, .. } => if head.demoted() != Some("Map"@) {
            e matches DotosDecodeError::UnknownVariant { enum_name, variant } && enum_name == "Map"
                && variant@ == match head.dotted_text() {
                Some(t) => t,
                None => Seq::empty(),
            }
        } else {
            expected_delimited_error(e, "Map", "parenthesis"@)
        },
        _ => expected_delimited_error(e, "Map", "Map.( … ) application"@),
    }
}

/// Entry `e` is well formed and the parsers gave `k` for its key and `v`
/// for its value.
pub open spec fn entry_parsed<
    Key,
    Value,
    ParseKey: Fn(&Block) -> Result<Key, DotosDecodeError>,
    ParseValue: Fn(&Block) -> Result<Value, DotosDecodeError>,
>(e: BlockModel, k: Key, v: Value, parse_key: ParseKey, parse_value: ParseValue) -> bool {
    match map_entry(e) {
        Some((km, vm)) => (exists|kb: &Block|
            kb@ == km && #[trigger] call_ensures(parse_key, (kb,), Ok::<Key, DotosDecodeError>(k)))
            && (exists|vb: &Block|
            vb@ == vm && #[trigger] call_ensures(parse_value, (vb,), Ok::<Value, DotosDecodeError>(v))),
        None => false,
    }
}

pub open spec fn parsed_entries<
    Key,
    Value,
    ParseKey: Fn(&Block) -> Result<Key, DotosDecodeError>,
    ParseValue: Fn(&Block) -> Result<Value, DotosDecodeError>,
>(
    es: Seq<BlockModel>,
    ks: Seq<Key>,
    vs: Seq<Value>,
    parse_key: ParseKey,
    parse_value: ParseValue,
) -> bool {
    ks.len() == es.len() && vs.len() == es.len() && forall|i: int|
        0 <= i < es.len() ==> entry_parsed(#[trigger] es[i], ks[i], vs[i], parse_key, parse_value)
}

/// The parsers gave key and value sequences for the entries that build `m`.
pub open spec fn parsed_map<
    Key: Ord,
    Value,
    ParseKey: Fn(&Block) -> Result<Key, DotosDecodeError>,
    ParseValue: Fn(&Block) -> Result<Value, DotosDecodeError>,
>(es: Seq<BlockModel>, m: Map<Key, Value>, parse_key: ParseKey, parse_value: ParseValue) -> bool {
    exists|ks: Seq<Key>, vs: Seq<Value>|
        #[trigger] parsed_entries(es, ks, vs, parse_key, parse_value) && (keys_ordered::<Key>() ==> m
            == map_of(ks, vs))
}

/// Entry `e` is well formed and the parsers gave a key and a value for it.
pub open spec fn entry_read<
    Key,
    Value,
    ParseKey: Fn(&Block) -> Result<Key, DotosDecodeError>,
    ParseValue: Fn(&Block) -> Result<Value, DotosDecodeError>,
>(e: BlockModel, parse_key: ParseKey, parse_value: ParseValue) -> bool {
    exists|k: Key, v: Value| #[trigger] entry_parsed(e, k, v, parse_key, parse_value)
}

/// The first entry to fail gave the error `err`: every entry before it was
/// read.
pub open spec fn first_entry_failed<
    Key,
    Value,
    ParseKey: Fn(&Block) -> Result<Key, DotosDecodeError>,
    ParseValue: Fn(&Block) -> Result<Value, DotosDecodeError>,
>(es: Seq<BlockModel>, err: DotosDecodeError, parse_key: ParseKey, parse_value: ParseValue) -> bool {
    exists|i: int|
        0 <= i < es.len() && failed_entry(#[trigger] es[i], err, parse_key, parse_value) && forall|
            j: int,
        | 0 <= j < i ==> #[trigger] entry_read(es[j], parse_key, parse_value)
}

/// Entry `e` gave the error `err`: it is malformed, or the key parser failed
/// on its key, or the key was read and the value parser failed on its value.
pub open spec fn failed_entry<
    Key,
    Value,
    ParseKey: Fn(&Block) -> Result<Key, DotosDecodeError>,
    ParseValue: Fn(&Block) -> Result<Value, DotosDecodeError>,
>(e: BlockModel, err: DotosDecodeError, parse_key: ParseKey, parse_value: ParseValue) -> bool {
    match map_entry(e) {
        Some((km, vm)) => (exists|kb: &Block|
            kb@ == km && #[trigger] call_ensures(parse_key, (kb,), Err::<Key, DotosDecodeError>(err)))
            || ((exists|kb: &Block, k: Key|
            kb@ == km && #[trigger] call_ensures(parse_key, (kb,), Ok::<Key, DotosDecodeError>(k)))
            && exists|vb: &Block|
            vb@ == vm && #[trigger] call_ensures(
                parse_value,
                (vb,),
                Err::<Value, DotosDecodeError>(err),
            )),
        None => err is ExpectedDottedEntry || err is DottedEntryCaseMismatch,
    }
}

/// `parse` can read a value from `b`.
pub open spec fn parses_ok<Element, Parse: Fn(&Block) -> Result<Element, DotosDecodeError>>(
    parse: Parse,
    b: &Block,
) -> bool {
    exists|w: Element| #[trigger] call_ensures(parse, (b,), Ok::<Element, DotosDecodeError>(w))
}

proof fn lemma_first_entry_failed<
    Key,
    Value,
    ParseKey: Fn(&Block) -> Result<Key, DotosDecodeError>,
    ParseValue: Fn(&Block) -> Result<Value, DotosDecodeError>,
>(
    es: Seq<BlockModel>,
    i: int,
    ks: Seq<Key>,
    vs: Seq<Value>,
    err: DotosDecodeError,
    parse_key: ParseKey,
    parse_value: ParseValue,
)
    requires
        0 <= i < es.len(),
        parsed_entries(es.take(i), ks, vs, parse_key, parse_value),
        failed_entry(es[i], err, parse_key, parse_value),
    ensures
        first_entry_failed(es, err, parse_key, parse_value),
{
    assert forall|j: int| 0 <= j < i implies #[trigger] entry_read(es[j], parse_key, parse_value) by {
        assert(es.take(i)[j] == es[j]);
        assert(entry_parsed(es.take(i)[j], ks[j], vs[j], parse_key, parse_value));
    }
}

/// Reads the collection shapes from one block.
pub struct DotosCollection<'block> {
    block: &'block Block,
}

impl<'block> View for DotosCollection<'block> {
    type V = BlockModel;

    closed spec fn view(&self) -> BlockModel {
        self.block@
    }
}

impl<'block> DotosCollection<'block> {
    /// The blocks inside this collection's delimiter.
    pub closed spec fn child_blocks(&self) -> Seq<Block> {
        match *self.block {
            Block::Delimited { root_objects, .. } => root_objects@,
            _ => Seq::empty(),
        }
    }

    pub fn new(block: &'block Block) -> (r: DotosCollection<'block>)
        ensures
            r@ == block@,
            models(r.child_blocks()) == block@.children(),
    {
        let r = DotosCollection { block };
        proof {
            match block {
                Block::Delimited { root_objects, .. } => {
                    assert(models(root_objects@) =~= block@.children());
                },
                _ => {
                    assert(models(Seq::<Block>::empty()) =~= block@.children());
                },
            }
        }
        r
    }

    /// A vector: each element of a square-bracket block read by `parse`, in
    /// order, stopping at the first failure.
    pub fn parse_vector<Element, Parse: Fn(&Block) -> Result<Element, DotosDecodeError>>(
        &self,
        parse: Parse,
    ) -> (r: Result<Vec<Element>, DotosDecodeError>)
        requires
            forall|b: &Block| #[trigger] call_requires(parse, (b,)),
        ensures
            !is_delimited_model(self@, Delimiter::SquareBracket) ==> (r matches Err(e)
                && expected_delimited_error(e, "Vec", "square bracket"@)),
            is_delimited_model(self@, Delimiter::SquareBracket) ==> match r {
                Ok(v) => v@.len() == self.child_blocks().len() && forall|i: int|
                    0 <= i < v@.len() ==> call_ensures(
                        parse,
                        (&self.child_blocks()[i],),
                        Ok::<Element, DotosDecodeError>(#[trigger] v@[i]),
                    ),
                Err(e) => exists|i: int|
                    0 <= i < self.child_blocks().len() && call_ensures(
                        parse,
                        (&#[trigger] self.child_blocks()[i],),
                        Err::<Element, DotosDecodeError>(e),
                    ) && forall|j: int|
                        0 <= j < i ==> #[trigger] parses_ok(parse, &self.child_blocks()[j]),
            },
    {
        let children = match self.block {
            Block::Delimited { delimiter: Delimiter::SquareBracket, root_objects, .. } => root_objects,
            _ => {
                return Err(
                    DotosDecodeError::ExpectedDelimited {
                        value_type: "Vec",
                        delimiter: Delimiter::SquareBracket.description(),
                    },
                );
            },
        };
        let mut values: Vec<Element> = Vec::new();
        let mut k: usize = 0;
        while k < children.len()
            invariant
                k <= children.len(),
                children@ == self.child_blocks(),
                is_delimited_model(self@, Delimiter::SquareBracket),
                values@.len() == k,
                forall|b: &Block| #[trigger] call_requires(parse, (b,)),
                forall|i: int| 0 <= i < k ==> call_ensures(
                    parse,
                    (&self.child_blocks()[i],),
                    Ok::<Element, DotosDecodeError>(#[trigger] values@[i]),
                ),
            decreases children.len() - k,
        {
            match parse(&children[k]) {
                Ok(v) => {
                    values.push(v);
                },
                Err(e) => {
                    proof {
                        assert forall|j: int| 0 <= j < k implies #[trigger] parses_ok(
                            parse,
                            &self.child_blocks()[j],
                        ) by {
                            assert(call_ensures(
                                parse,
                                (&self.child_blocks()[j],),
                                Ok::<Element, DotosDecodeError>(values@[j]),
                            ));
                        }
                    }
                    return Err(e);
                },
            }
            k = k + 1;
        }
        Ok(values)
    }

    /// The entry blocks of `Map.(entry..)`.
    pub(crate) fn map_entry_blocks(&self) -> (r: Result<&'block [Block], DotosDecodeError>)
        ensures
            match map_entries(self@) {
                Some(es) => r matches Ok(s) && models(s@) == es,
                None => r matches Err(e) && map_shape_error(self@, e),
            },
    {
        let (head, payload) = match self.block.as_application() {
            Some(pair) => pair,
            None => {
                return Err(
                    DotosDecodeError::ExpectedDelimited {
                        value_type: "Map",
                        delimiter: "Map.( … ) application",
                    },
                );
            },
        };
        let is_map = match head.demote_to_string() {
            Some(t) => text_of(t) == text_of("Map"),
            None => false,
        };
        if !is_map {
            let variant = match head.dotted_text() {
                Some(t) => t,
                None => String::new(),
            };
            return Err(DotosDecodeError::UnknownVariant { enum_name: "Map", variant });
        }
        match payload.as_delimited(Delimiter::Parenthesis) {
            Some(entries) => Ok(entries),
            None => Err(
                DotosDecodeError::ExpectedDelimited {
                    value_type: "Map",
                    delimiter: Delimiter::Parenthesis.description(),
                },
            ),
        }
    }

    /// An ordered map: `Map.(key.value ..)`, each entry an application whose
    /// head is one bare atom, whatever its first character, its key read by
    /// `parse_key` and its value by `parse_value`, in order, stopping at the
    /// first failure.
    pub fn parse_map<
        Key: Ord,
        Value,
        ParseKey: Fn(&Block) -> Result<Key, DotosDecodeError>,
        ParseValue: Fn(&Block) -> Result<Value, DotosDecodeError>,
    >(&self, parse_key: ParseKey, parse_value: ParseValue) -> (r: Result<
        BTreeMap<Key, Value>,
        DotosDecodeError,
    >)
        requires
            forall|b: &Block| #[trigger] call_requires(parse_key, (b,)),
            forall|b: &Block| #[trigger] call_requires(parse_value, (b,)),
        ensures
            map_entries(self@) is None ==> (r matches Err(e) && map_shape_error(self@, e)),
            match map_entries(self@) {
                Some(es) => match r {
                    Ok(m) => parsed_map(es, m@, parse_key, parse_value),
                    Err(e) => first_entry_failed(es, e, parse_key, parse_value),
                },
                None => true,
            },
    {
        let entries = match self.map_entry_blocks() {
            Ok(entries) => entries,
            Err(e) => {
                return Err(e);
            },
        };
        let ghost es = models(entries@);
        let mut map: BTreeMap<Key, Value> = BTreeMap::new();
        let ghost mut ks: Seq<Key> = Seq::empty();
        let ghost mut vs: Seq<Value> = Seq::empty();
        let mut i: usize = 0;
        while i < entries.len()
            invariant
                i <= entries.len(),
                es == models(entries@),
                map_entries(self@) == Some(es),
                forall|b: &Block| #[trigger] call_requires(parse_key, (b,)),
                forall|b: &Block| #[trigger] call_requires(parse_value, (b,)),
                parsed_entries(es.take(i as int), ks, vs, parse_key, parse_value),
                keys_ordered::<Key>() ==> map@ == map_of(ks, vs),
            decreases entries.len() - i,
        {
            proof {
                assert(es[i as int] == entries@[i as int]@);
            }
            let (key_block, value_block) = match read_map_entry(entries, i) {
                Ok(pair) => pair,
                Err(e) => {
                    proof {
                        assert(failed_entry(es[i as int], e, parse_key, parse_value));
                        lemma_first_entry_failed(es, i as int, ks, vs, e, parse_key, parse_value);
                    }
                    return Err(e);
                },
            };
            let key = match parse_key(&key_block) {
                Ok(k) => k,
                Err(e) => {
                    proof {
                        assert(failed_entry(es[i as int], e, parse_key, parse_value));
                        lemma_first_entry_failed(es, i as int, ks, vs, e, parse_key, parse_value);
                    }
                    return Err(e);
                },
            };
            let value = match parse_value(&value_block) {
                Ok(v) => v,
                Err(e) => {
                    proof {
                        assert(failed_entry(es[i as int], e, parse_key, parse_value));
                        lemma_first_entry_failed(es, i as int, ks, vs, e, parse_key, parse_value);
                    }
                    return Err(e);
                },
            };
            proof {
                let old_ks = ks;
                let old_vs = vs;
                ks = ks.push(key);
                vs = vs.push(value);
                assert(ks.drop_last() =~= old_ks);
                assert(vs.drop_last() =~= old_vs);
                assert(entry_parsed(es[i as int], key, value, parse_key, parse_value));
                assert forall|j: int| 0 <= j < i + 1 implies entry_parsed(
                    #[trigger] es.take(i + 1)[j],
                    ks[j],
                    vs[j],
                    parse_key,
                    parse_value,
                ) by {
                    if j < i {
                        assert(es.take(i + 1)[j] == es.take(i as int)[j]);
                        assert(ks[j] == old_ks[j]);
                        assert(vs[j] == old_vs[j]);
                    }
                }
            }
            map.insert(key, value);
            i = i + 1;
        }
        proof {
            assert(es.take(entries@.len() as int) =~= es);
            assert(parsed_entries(es, ks, vs, parse_key, parse_value));
            assert(parsed_map(es, map@, parse_key, parse_value));
        }
        Ok(map)
    }

    /// The payload block of `Some.payload`, nothing for `None`, an error for
    /// any other block.
    pub(crate) fn option_payload(&self) -> (r: Result<Option<&'block Block>, DotosDecodeError>)
        ensures
            match option_shape(self@) {
                None => r is Err,
                Some(None) => r matches Ok(None),
                Some(Some(p)) => r matches Ok(Some(b)) && b@ == p,
            },
    {
        if self.block.demote_to_string().is_some() {
            let text = text_of(self.block.demote_to_string().unwrap());
            if text == text_of("None") {
                return Ok(None);
            }
        }
        let (head, payload) = match self.block.as_application() {
            Some(pair) => pair,
            None => {
                return Err(
                    DotosDecodeError::ExpectedDelimited {
                        value_type: "Option",
                        delimiter: "None atom or Some.payload application",
                    },
                );
            },
        };
        let tag = match head.demote_to_string() {
            Some(t) => text_of(t),
            None => {
                return Err(DotosDecodeError::ExpectedAtom { value_type: "Option tag" });
            },
        };
        if tag != text_of("Some") {
            return Err(DotosDecodeError::UnknownVariant { enum_name: "Option", variant: tag });
        }
        Ok(Some(payload))
    }

    fn decode_option<Inner: DotosDecode>(&self) -> (r: Result<Option<Inner>, DotosDecodeError>)
        ensures
            r matches Ok(v) ==> Option::<Inner>::decodes_to(self@, v),
            Inner::decoding_known() ==> (r is Err <==> Option::<Inner>::rejects(self@)),
    {
        if self.block.demote_to_string().is_some() {
            let text = text_of(self.block.demote_to_string().unwrap());
            if text == text_of("None") {
                return Ok(None);
            }
        }
        let (head, payload) = match self.block.as_application() {
            Some(pair) => pair,
            None => {
                return Err(
                    DotosDecodeError::ExpectedDelimited {
                        value_type: "Option",
                        delimiter: "None atom or Some.payload application",
                    },
                );
            },
        };
        let tag = match head.demote_to_string() {
            Some(t) => text_of(t),
            None => {
                return Err(DotosDecodeError::ExpectedAtom { value_type: "Option tag" });
            },
        };
        if tag != text_of("Some") {
            return Err(DotosDecodeError::UnknownVariant { enum_name: "Option", variant: tag });
        }
        match Inner::from_dotos_block(payload) {
            Ok(v) => Ok(Some(v)),
            Err(e) => Err(e),
        }
    }

    /// An option: the `None` atom, or a `Some.payload` application whose
    /// payload `parse` reads.
    pub fn parse_option<Inner, Parse: Fn(&Block) -> Result<Inner, DotosDecodeError>>(
        &self,
        parse: Parse,
    ) -> (r: Result<Option<Inner>, DotosDecodeError>)
        requires
            forall|b: &Block| #[trigger] call_requires(parse, (b,)),
        ensures
            option_shape(self@) is None ==> (r matches Err(e) && option_shape_error(self@, e)),
            option_shape(self@) == Some(None::<BlockModel>) ==> r matches Ok(None),
            match option_shape(self@) {
                Some(Some(p)) => match r {
                    Ok(Some(x)) => exists|b: &Block| b@ == p && call_ensures(
                        parse,
                        (b,),
                        Ok::<Inner, DotosDecodeError>(x),
                    ),
                    Ok(None) => false,
                    Err(e) => exists|b: &Block| b@ == p && call_ensures(
                        parse,
                        (b,),
                        Err::<Inner, DotosDecodeError>(e),
                    ),
                },
                _ => true,
            },
    {
        if self.block.demote_to_string().is_some() {
            let text = text_of(self.block.demote_to_string().unwrap());
            if text == text_of("None") {
                return Ok(None);
            }
        }
        let (head, payload) = match self.block.as_application() {
            Some(pair) => pair,
            None => {
                return Err(
                    DotosDecodeError::ExpectedDelimited {
                        value_type: "Option",
                        delimiter: "None atom or Some.payload application",
                    },
                );
            },
        };
        let tag = match head.demote_to_string() {
            Some(t) => text_of(t),
            None => {
                return Err(DotosDecodeError::ExpectedAtom { value_type: "Option tag" });
            },
        };
        if tag != text_of("Some") {
            return Err(DotosDecodeError::UnknownVariant { enum_name: "Option", variant: tag });
        }
        match parse(payload) {
            Ok(v) => Ok(Some(v)),
            Err(e) => Err(e),
        }
    }
}

// ---------------------------------------------------------------------------
// Ordered maps.

/// The key type's order obeys the laws of a total order; what the standard
/// library's ordered map promises rests on it.
pub open spec fn keys_ordered<Key: Ord>() -> bool {
    obeys_cmp::<Key>()
}

/// `Map.(entry..)`: the entry blocks; `None` for any other block.
pub open spec fn map_entries(b: BlockModel) -> Option<Seq<BlockModel>> {
    match b {
        BlockModel::Application { head, payload, .. } => if head.demoted() == Some("Map"@)
            && is_delimited_model(*payload, Delimiter::Parenthesis) {
            Some(payload.children())
        } else {
            None
        },
        _ => None,
    }
}

/// A map entry `key.value` whose key is one bare atom, whatever its first
/// character: the key block and the value block.
pub open spec fn map_entry(b: BlockModel) -> Option<(BlockModel, BlockModel)> {
    match b {
        BlockModel::Application { head, payload, .. } => match atom_text_of(*head) {
            Some(t) => if DottedExpectation::AnyBareAtom.spec_accepts_head(t) {
                Some((*head, *payload))
            } else {
                None
            },
            None => None,
        },
        _ => None,
    }
}

/// The map that inserting the pairs in order builds: a later key wins.
pub open spec fn map_of<Key, Value>(ks: Seq<Key>, vs: Seq<Value>) -> Map<Key, Value>
    decreases ks.len(),
{
    if ks.len() == 0 {
        Map::empty()
    } else {
        map_of(ks.drop_last(), vs.drop_last()).insert(ks.last(), vs.last())
    }
}

/// Every entry is well formed and its key and value decode to `ks[i]` and
/// `vs[i]`.
pub open spec fn entries_decode<Key: DotosDecode, Value: DotosDecode>(
    es: Seq<BlockModel>,
    ks: Seq<Key>,
    vs: Seq<Value>,
) -> bool {
    ks.len() == es.len() && vs.len() == es.len() && forall|i: int|
        0 <= i < es.len() ==> match map_entry(#[trigger] es[i]) {
            Some((k, v)) => Key::decodes_to(k, ks[i]) && Value::decodes_to(v, vs[i]),
            None => false,
        }
}

/// Some key and value sequences decode from the entries and build `m`.
pub open spec fn decoded_map<Key: DotosDecode + Ord, Value: DotosDecode>(
    es: Seq<BlockModel>,
    m: Map<Key, Value>,
) -> bool {
    exists|ks: Seq<Key>, vs: Seq<Value>|
        #[trigger] entries_decode(es, ks, vs) && (keys_ordered::<Key>() ==> m == map_of(ks, vs))
}

/// Some entry is malformed, or its key or value holds no value.
pub open spec fn entry_rejected<Key: DotosDecode, Value: DotosDecode>(e: BlockModel) -> bool {
    match map_entry(e) {
        Some((k, v)) => Key::rejects(k) || Value::rejects(v),
        None => true,
    }
}

pub open spec fn some_entry_rejected<Key: DotosDecode, Value: DotosDecode>(es: Seq<BlockModel>) -> bool {
    exists|i: int| 0 <= i < es.len() && entry_rejected::<Key, Value>(#[trigger] es[i])
}

/// Reads one entry: the key and the value block.
pub(crate) fn read_map_entry(entries: &[Block], i: usize) -> (r: Result<(Block, Block), DotosDecodeError>)
    requires
        i < entries.len(),
    ensures
        match map_entry(entries@[i as int]@) {
            Some((k, v)) => r matches Ok((kb, vb)) && kb@ == k && vb@ == v,
            None => r matches Err(e) && (e is ExpectedDottedEntry || e is DottedEntryCaseMismatch),
        },
{
    let one = vstd::slice::slice_subrange(entries, i, i + 1);
    match DottedExpectation::AnyBareAtom.read_entry(one) {
        Ok(entry) => Ok((entry.key, entry.value)),
        Err(e) => Err(e),
    }
}

/// Decodes the entries in order into a map, stopping at the first failure.
fn decode_entries<Key: DotosDecode + Ord, Value: DotosDecode>(entries: &[Block]) -> (r: Result<
    BTreeMap<Key, Value>,
    DotosDecodeError,
>)
    ensures
        r matches Ok(m) ==> decoded_map(models(entries@), m@),
        Key::decoding_known() && Value::decoding_known() ==> (r is Err <==> some_entry_rejected::<
            Key,
            Value,
        >(models(entries@))),
{
    let ghost es = models(entries@);
    let mut map: BTreeMap<Key, Value> = BTreeMap::new();
    let ghost mut ks: Seq<Key> = Seq::empty();
    let ghost mut vs: Seq<Value> = Seq::empty();
    let mut i: usize = 0;
    while i < entries.len()
        invariant
            i <= entries.len(),
            es == models(entries@),
            entries_decode(es.take(i as int), ks, vs),
            keys_ordered::<Key>() ==> map@ == map_of(ks, vs),
            Key::decoding_known() && Value::decoding_known() ==> forall|j: int|
                0 <= j < i ==> !entry_rejected::<Key, Value>(#[trigger] es[j]),
        decreases entries.len() - i,
    {
        proof {
            assert(es[i as int] == entries@[i as int]@);
        }
        let (key_block, value_block) = match read_map_entry(entries, i) {
            Ok(pair) => pair,
            Err(e) => {
                return Err(e);
            },
        };
        let key = match Key::from_dotos_block(&key_block) {
            Ok(k) => k,
            Err(e) => {
                return Err(e);
            },
        };
        let value = match Value::from_dotos_block(&value_block) {
            Ok(v) => v,
            Err(e) => {
                return Err(e);
            },
        };
        proof {
            let old_ks = ks;
            let old_vs = vs;
            ks = ks.push(key);
            vs = vs.push(value);
            assert(ks.drop_last() =~= old_ks);
            assert(vs.drop_last() =~= old_vs);
            assert forall|j: int| 0 <= j < i + 1 implies match map_entry(
                #[trigger] es.take(i + 1)[j],
            ) {
                Some((k, v)) => Key::decodes_to(k, ks[j]) && Value::decodes_to(v, vs[j]),
                None => false,
            } by {
                if j < i {
                    assert(es.take(i + 1)[j] == es.take(i as int)[j]);
                    assert(ks[j] == old_ks[j]);
                    assert(vs[j] == old_vs[j]);
                }
            }
        }
        map.insert(key, value);
        i = i + 1;
    }
    proof {
        assert(es.take(entries@.len() as int) =~= es);
        assert(entries_decode(es, ks, vs));
        assert(keys_ordered::<Key>() ==> map@ == map_of(ks, vs));
        assert(decoded_map(es, map@));
    }
    Ok(map)
}

impl<Key: DotosDecode + Ord, Value: DotosDecode> DotosDecode for BTreeMap<Key, Value> {
    open spec fn decoding_known() -> bool {
        Key::decoding_known() && Value::decoding_known()
    }

    open spec fn decodes_to(block: BlockModel, value: Self) -> bool {
        match map_entries(block) {
            Some(es) => decoded_map(es, value@),
            None => false,
        }
    }

    open spec fn rejects(block: BlockModel) -> bool {
        match map_entries(block) {
            Some(es) => some_entry_rejected::<Key, Value>(es),
            None => true,
        }
    }

    fn from_dotos_block(block: &Block) -> (r: Result<Self, DotosDecodeError>) {
        match DotosCollection::new(block).map_entry_blocks() {
            Ok(entries) => decode_entries(entries),
            Err(e) => Err(e),
        }
    }
}

} // verus!
