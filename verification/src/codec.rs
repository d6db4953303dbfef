//! The DOTOS value codec: errors, codec traits, and the source, body and
//! block readers that decode Rust values from parsed blocks.
use vstd::prelude::*;
use crate::error::DotosError;
use crate::grammar::{byte_length, parse_document};
use crate::model::{BlockModel, Delimiter};
use crate::numbers::{parse_i64_text, parse_u64_text, spec_parse_i64, spec_parse_u64};
use crate::parser::{Block, Document, is_delimited_model, models};
use crate::strings::{
    DotosString, StringForm, spaced_words, spec_bare_dotted, spec_format_string, spec_spaced_words,
};
use crate::text::{
    chars_of, decimal, join_strings, joined, push_decimal, push_str, string_views, text_of,
};

verus! {

/// `format!("{:?}", ..)` of a string: its Rust debug rendering, quoted and
/// escaped.
pub uninterp spec fn debug_text(s: Seq<char>) -> Seq<char>;

/// The Rust `Debug` rendering of a string slice (`<str as Debug>::fmt`): the
/// text in double quotes with escapes. What it escapes is left to std.
#[verifier::external_body]
fn debug_quoted(s: &str) -> (r: String)
    ensures
        r@ == debug_text(s@),
{
    format!("{:?}", s)
}

#[derive(Clone, Debug, PartialEq, Eq)]
pub enum DotosDecodeError {
    Parse(String),
    ExpectedSingleRoot { found: usize },
    ExpectedDelimited { value_type: &'static str, delimiter: &'static str },
    ExpectedRootCount { value_type: &'static str, expected: usize, found: usize },
    ExpectedAtom { value_type: &'static str },
    UnknownVariant { enum_name: &'static str, variant: String },
    NonCanonicalStringDelimiter { value: String, canonical: String },
    InvalidInteger { value: String },
    InvalidValue { value_type: &'static str, value: String, reason: String },
    ExpectedDottedEntry { expectation: &'static str },
    DottedEntryCaseMismatch { expectation: &'static str, prefix: String },
    DottedEntryMissingValue { expectation: &'static str },
}

impl DotosDecodeError {
    pub open spec fn spec_message(&self) -> Seq<char> {
        match self {
            DotosDecodeError::Parse(e) => e@,
            DotosDecodeError::ExpectedSingleRoot { found } =>
                "expected exactly one DOTOS root object, found "@ + decimal(*found as nat),
            DotosDecodeError::ExpectedDelimited { value_type, delimiter } => "expected "@
                + value_type@ + " to be a "@ + delimiter@ + " block"@,
            DotosDecodeError::ExpectedRootCount { value_type, expected, found } => "expected "@
                + value_type@ + " to hold "@ + decimal(*expected as nat) + " root objects, found "@
                + decimal(*found as nat),
            DotosDecodeError::ExpectedAtom { value_type } => "expected "@ + value_type@ + " atom"@,
            DotosDecodeError::UnknownVariant { enum_name, variant } => "unknown "@ + enum_name@
                + " variant "@ + variant@,
            DotosDecodeError::NonCanonicalStringDelimiter { value, canonical } =>
                "non-canonical string delimiter for "@ + debug_text(value@) + ": use "@
                + canonical@,
            DotosDecodeError::InvalidInteger { value } => "invalid integer "@ + value@,
            DotosDecodeError::InvalidValue { value_type, value, reason } => "invalid "@
                + value_type@ + " "@ + debug_text(value@) + ": "@ + reason@,
            DotosDecodeError::ExpectedDottedEntry { expectation } => "expected a "@
                + expectation@ + " entry written as key.value"@,
            DotosDecodeError::DottedEntryCaseMismatch { expectation, prefix } => expectation@
                + " head "@ + debug_text(prefix@) + " has the wrong case for this position"@,
            DotosDecodeError::DottedEntryMissingValue { expectation } => expectation@
                + " entry ends at the period with no following value"@,
        }
    }

    /// The diagnostic text of this error.
    pub fn message(&self) -> (r: String)
        ensures
            r@ == self.spec_message(),
    {
        let mut s = String::new();
        match self {
            DotosDecodeError::Parse(e) => {
                push_str(&mut s, e.as_str());
            },
            DotosDecodeError::ExpectedSingleRoot { found } => {
                push_str(&mut s, "expected exactly one DOTOS root object, found ");
                push_decimal(&mut s, *found as u64);
            },
            DotosDecodeError::ExpectedDelimited { value_type, delimiter } => {
                push_str(&mut s, "expected ");
                push_str(&mut s, value_type);
                push_str(&mut s, " to be a ");
                push_str(&mut s, delimiter);
                push_str(&mut s, " block");
            },
            DotosDecodeError::ExpectedRootCount { value_type, expected, found } => {
                push_str(&mut s, "expected ");
                push_str(&mut s, value_type);
                push_str(&mut s, " to hold ");
                push_decimal(&mut s, *expected as u64);
                push_str(&mut s, " root objects, found ");
                push_decimal(&mut s, *found as u64);
            },
            DotosDecodeError::ExpectedAtom { value_type } => {
                push_str(&mut s, "expected ");
                push_str(&mut s, value_type);
                push_str(&mut s, " atom");
            },
            DotosDecodeError::UnknownVariant { enum_name, variant } => {
                push_str(&mut s, "unknown ");
                push_str(&mut s, enum_name);
                push_str(&mut s, " variant ");
                push_str(&mut s, variant.as_str());
            },
            DotosDecodeError::NonCanonicalStringDelimiter { value, canonical } => {
                push_str(&mut s, "non-canonical string delimiter for ");
                push_str(&mut s, debug_quoted(value.as_str()).as_str());
                push_str(&mut s, ": use ");
                push_str(&mut s, canonical.as_str());
            },
            DotosDecodeError::InvalidInteger { value } => {
                push_str(&mut s, "invalid integer ");
                push_str(&mut s, value.as_str());
            },
            DotosDecodeError::InvalidValue { value_type, value, reason } => {
                push_str(&mut s, "invalid ");
                push_str(&mut s, value_type);
                push_str(&mut s, " ");
                push_str(&mut s, debug_quoted(value.as_str()).as_str());
                push_str(&mut s, ": ");
                push_str(&mut s, reason.as_str());
            },
            DotosDecodeError::ExpectedDottedEntry { expectation } => {
                push_str(&mut s, "expected a ");
                push_str(&mut s, expectation);
                push_str(&mut s, " entry written as key.value");
            },
            DotosDecodeError::DottedEntryCaseMismatch { expectation, prefix } => {
                push_str(&mut s, expectation);
                push_str(&mut s, " head ");
                push_str(&mut s, debug_quoted(prefix.as_str()).as_str());
                push_str(&mut s, " has the wrong case for this position");
            },
            DotosDecodeError::DottedEntryMissingValue { expectation } => {
                push_str(&mut s, expectation);
                push_str(&mut s, " entry ends at the period with no following value");
            },
        }
        s
    }

    /// The decode error that carries a reader error's diagnostic.
    pub fn from_reader_error(error: DotosError) -> (r: DotosDecodeError)
        ensures
            r matches DotosDecodeError::Parse(m) && m@ == error.spec_message(),
    {
        DotosDecodeError::Parse(error.message())
    }
}

// ---------------------------------------------------------------------------
// Codec traits.

/// A Rust value read from one DOTOS block.
///
/// The spec functions describe the impls of this library; an impl written
/// elsewhere that keeps the defaults states nothing through them.
pub trait DotosDecode: Sized {
    /// Whether `rejects` states exactly when `from_dotos_block` fails.
    open spec fn decoding_known() -> bool {
        false
    }

    /// `value` is what `block` decodes to.
    open spec fn decodes_to(block: BlockModel, value: Self) -> bool {
        true
    }

    /// `block` holds no value of this type.
    open spec fn rejects(block: BlockModel) -> bool {
        false
    }

    fn from_dotos_block(block: &Block) -> (r: Result<Self, DotosDecodeError>)
        ensures
            r matches Ok(v) ==> Self::decodes_to(block@, v),
            Self::decoding_known() ==> (r is Err <==> Self::rejects(block@)),
    ;
}

/// A Rust value written as one DOTOS block.
pub trait DotosEncode {
    /// Whether `encoding` states what `to_dotos` writes for this type: it
    /// does for the library's own impls wherever the order of the type's map
    /// keys obeys the laws of an order, and by default it does not.
    open spec fn encoding_known() -> bool {
        false
    }

    /// The DOTOS text of this value.
    open spec fn encoding(&self) -> Seq<char> {
        Seq::empty()
    }

    fn to_dotos(&self) -> (r: String)
        ensures
            Self::encoding_known() ==> r@ == self.encoding(),
    ;
}

/// A Rust value read from an ordered body of root objects.
pub trait DotosBodyDecode: Sized {
    open spec fn body_decoding_known() -> bool {
        false
    }

    open spec fn body_decodes_to(body: Seq<BlockModel>, value: Self) -> bool {
        true
    }

    open spec fn body_rejects(body: Seq<BlockModel>) -> bool {
        false
    }

    fn from_dotos_body(body: &DotosBody<'_>) -> (r: Result<Self, DotosDecodeError>)
        ensures
            r matches Ok(v) ==> Self::body_decodes_to(body@, v),
            Self::body_decoding_known() ==> (r is Err <==> Self::body_rejects(body@)),
    ;
}

/// A Rust value written as an ordered body of root objects.
pub trait DotosBodyEncode {
    /// Whether `body_encoding` states what `to_dotos_body` writes.
    open spec fn body_encoding_known() -> bool {
        false
    }

    open spec fn body_encoding(&self) -> Seq<Seq<char>> {
        Seq::empty()
    }

    fn to_dotos_body(&self) -> (r: DotosBodyEncoding)
        ensures
            Self::body_encoding_known() ==> r@ == self.body_encoding(),
    ;
}

/// A known-root value read from a whole document's root objects.
pub trait DotosDocumentDecode: Sized {
    open spec fn document_decoding_known() -> bool {
        false
    }

    open spec fn document_decodes_to(body: Seq<BlockModel>, value: Self) -> bool {
        true
    }

    open spec fn document_rejects(body: Seq<BlockModel>) -> bool {
        false
    }

    fn from_dotos_document_body(body: &DotosDocumentBody<'_>) -> (r: Result<
        Self,
        DotosDecodeError,
    >)
        ensures
            r matches Ok(v) ==> Self::document_decodes_to(body@, v),
            Self::document_decoding_known() ==> (r is Err <==> Self::document_rejects(body@)),
    ;
}

/// A known-root value written as a document's root objects.
pub trait DotosDocumentEncode {
    open spec fn document_encoding_known() -> bool {
        false
    }

    open spec fn document_encoding(&self) -> Seq<Seq<char>> {
        Seq::empty()
    }

    fn to_dotos_document_body(&self) -> (r: DotosDocumentEncoding)
        ensures
            Self::document_encoding_known() ==> r@ == self.document_encoding(),
    ;
}

/// A known-root field decoded from a positional slot with a name supplied by
/// the root shape.
pub trait DotosNamedDocumentFieldDecode: Sized {
    open spec fn named_decoding_known() -> bool {
        false
    }

    open spec fn named_decodes_to(name: Seq<char>, block: BlockModel, value: Self) -> bool {
        true
    }

    open spec fn named_rejects(name: Seq<char>, block: BlockModel) -> bool {
        false
    }

    fn from_dotos_named_document_field(name: &'static str, block: &Block) -> (r: Result<
        Self,
        DotosDecodeError,
    >)
        ensures
            r matches Ok(v) ==> Self::named_decodes_to(name@, block@, v),
            Self::named_decoding_known() ==> (r is Err <==> Self::named_rejects(name@, block@)),
    ;
}

pub trait DotosNamedDocumentFieldEncode {
    open spec fn named_encoding_known() -> bool {
        false
    }

    open spec fn named_encoding(&self) -> Seq<char> {
        Seq::empty()
    }

    fn to_dotos_named_document_field_body(&self) -> (r: String)
        ensures
            Self::named_encoding_known() ==> r@ == self.named_encoding(),
    ;
}

pub trait DotosNamedBodyFieldDecode: Sized {
    open spec fn named_body_decoding_known() -> bool {
        false
    }

    open spec fn named_body_decodes_to(name: Seq<char>, block: BlockModel, value: Self) -> bool {
        true
    }

    open spec fn named_body_rejects(name: Seq<char>, block: BlockModel) -> bool {
        false
    }

    fn from_dotos_named_body_field(name: &'static str, block: &Block) -> (r: Result<
        Self,
        DotosDecodeError,
    >)
        ensures
            r matches Ok(v) ==> Self::named_body_decodes_to(name@, block@, v),
            Self::named_body_decoding_known() ==> (r is Err <==> Self::named_body_rejects(
                name@,
                block@,
            )),
    ;
}

pub trait DotosNamedBodyFieldEncode {
    open spec fn named_body_encoding_known() -> bool {
        false
    }

    open spec fn named_body_encoding(&self) -> Seq<char> {
        Seq::empty()
    }

    fn to_dotos_named_body_field(&self) -> (r: String)
        ensures
            Self::named_body_encoding_known() ==> r@ == self.named_body_encoding(),
    ;
}

impl<Value> DotosNamedBodyFieldDecode for Value where Value: DotosNamedDocumentFieldDecode {
    open spec fn named_body_decoding_known() -> bool {
        Value::named_decoding_known()
    }

    open spec fn named_body_decodes_to(name: Seq<char>, block: BlockModel, value: Self) -> bool {
        Value::named_decodes_to(name, block, value)
    }

    open spec fn named_body_rejects(name: Seq<char>, block: BlockModel) -> bool {
        Value::named_rejects(name, block)
    }

    fn from_dotos_named_body_field(name: &'static str, block: &Block) -> (r: Result<
        Self,
        DotosDecodeError,
    >) {
        Value::from_dotos_named_document_field(name, block)
    }
}

impl<Value> DotosNamedBodyFieldEncode for Value where Value: DotosNamedDocumentFieldEncode {
    open spec fn named_body_encoding_known() -> bool {
        Value::named_encoding_known()
    }

    open spec fn named_body_encoding(&self) -> Seq<char> {
        self.named_encoding()
    }

    fn to_dotos_named_body_field(&self) -> (r: String) {
        self.to_dotos_named_document_field_body()
    }
}

} // verus!

verus! {

// ---------------------------------------------------------------------------
// Bodies.

/// An ordered stream of root objects: a document's roots or the inner objects
/// of a delimited block.
#[derive(Clone, Copy, Debug)]
pub struct DotosBody<'body> {
    root_objects: &'body [Block],
}

impl<'body> View for DotosBody<'body> {
    type V = Seq<BlockModel>;

    closed spec fn view(&self) -> Seq<BlockModel> {
        models(self.root_objects@)
    }
}

pub open spec fn expected_delimited_error(
    e: DotosDecodeError,
    value_type: &'static str,
    delimiter: Seq<char>,
) -> bool {
    e matches DotosDecodeError::ExpectedDelimited { value_type: t, delimiter: d } && t
        == value_type && d@ == delimiter
}

impl<'body> DotosBody<'body> {
    pub fn new(root_objects: &'body [Block]) -> (r: DotosBody<'body>)
        ensures
            r@ == models(root_objects@),
    {
        DotosBody { root_objects }
    }

    pub fn from_document(document: &'body Document) -> (r: DotosBody<'body>)
        ensures
            r@ == models(document.roots()),
    {
        Self::new(document.root_objects())
    }

    /// The inner objects of a block with the given delimiter.
    pub fn from_delimited(block: &'body Block, delimiter: Delimiter, value_type: &'static str) -> (r:
        Result<DotosBody<'body>, DotosDecodeError>)
        ensures
            is_delimited_model(block@, delimiter) ==> (r matches Ok(b) && b@ == block@.children()),
            !is_delimited_model(block@, delimiter) ==> (r matches Err(e) && expected_delimited_error(
                e,
                value_type,
                delimiter.spec_description(),
            )),
    {
        match block.as_delimited(delimiter) {
            Some(root_objects) => Ok(Self::new(root_objects)),
            None => Err(
                DotosDecodeError::ExpectedDelimited {
                    value_type,
                    delimiter: delimiter.description(),
                },
            ),
        }
    }

    pub fn root_objects(&self) -> (r: &'body [Block])
        ensures
            models(r@) == self@,
    {
        self.root_objects
    }

    /// The objects, when there are exactly `expected` of them.
    pub fn expect_fields(&self, value_type: &'static str, expected: usize) -> (r: Result<
        &'body [Block],
        DotosDecodeError,
    >)
        ensures
            self@.len() == expected ==> (r matches Ok(s) && models(s@) == self@),
            self@.len() != expected ==> r == Err::<&[Block], DotosDecodeError>(
                DotosDecodeError::ExpectedRootCount {
                    value_type,
                    expected,
                    found: self@.len() as usize,
                },
            ),
    {
        let found = self.root_objects.len();
        if found != expected {
            return Err(DotosDecodeError::ExpectedRootCount { value_type, expected, found });
        }
        Ok(self.root_objects)
    }
}

/// A whole document's root objects read as the body of a known root type.
pub struct DotosDocumentBody<'document> {
    body: DotosBody<'document>,
}

impl<'document> View for DotosDocumentBody<'document> {
    type V = Seq<BlockModel>;

    closed spec fn view(&self) -> Seq<BlockModel> {
        self.body@
    }
}

impl<'document> DotosDocumentBody<'document> {
    pub fn new(document: &'document Document) -> (r: DotosDocumentBody<'document>)
        ensures
            r@ == models(document.roots()),
    {
        DotosDocumentBody { body: DotosBody::from_document(document) }
    }

    pub fn from_body(body: DotosBody<'document>) -> (r: DotosDocumentBody<'document>)
        ensures
            r@ == body@,
    {
        DotosDocumentBody { body }
    }

    pub fn as_body(&self) -> (r: &DotosBody<'document>)
        ensures
            r@ == self@,
    {
        &self.body
    }

    pub fn root_objects(&self) -> (r: &'document [Block])
        ensures
            models(r@) == self@,
    {
        self.body.root_objects()
    }

    pub fn expect_fields(&self, value_type: &'static str, expected: usize) -> (r: Result<
        &'document [Block],
        DotosDecodeError,
    >)
        ensures
            self@.len() == expected ==> (r matches Ok(s) && models(s@) == self@),
            self@.len() != expected ==> r == Err::<&[Block], DotosDecodeError>(
                DotosDecodeError::ExpectedRootCount {
                    value_type,
                    expected,
                    found: self@.len() as usize,
                },
            ),
    {
        self.body.expect_fields(value_type, expected)
    }
}

/// The encoded fields of a body, in order.
pub struct DotosBodyEncoding {
    fields: Vec<String>,
}

pub type DotosDocumentEncoding = DotosBodyEncoding;

impl View for DotosBodyEncoding {
    type V = Seq<Seq<char>>;

    closed spec fn view(&self) -> Seq<Seq<char>> {
        string_views(self.fields@)
    }
}

impl DotosBodyEncoding {
    pub fn new(fields: Vec<String>) -> (r: DotosBodyEncoding)
        ensures
            r@ == string_views(fields@),
    {
        DotosBodyEncoding { fields }
    }

    pub fn fields(&self) -> (r: &[String])
        ensures
            string_views(r@) == self@,
    {
        self.fields.as_slice()
    }

    /// The fields one per line, with no outer wrapper.
    pub fn to_dotos(&self) -> (r: String)
        ensures
            r@ == joined(self@, "\n"@),
    {
        join_strings(&self.fields, "\n")
    }

    /// The fields inside a delimiter.
    pub fn to_delimited_dotos(&self, delimiter: Delimiter) -> (r: String)
        ensures
            r@ == delimiter.spec_opening_text() + joined(self@, " "@)
                + delimiter.spec_closing_text(),
    {
        let mut copied: Vec<String> = Vec::new();
        let mut k: usize = 0;
        while k < self.fields.len()
            invariant
                k <= self.fields.len(),
                string_views(copied@) == string_views(self.fields@).take(k as int),
            decreases self.fields.len() - k,
        {
            let ghost before = copied@;
            copied.push(self.fields[k].clone());
            proof {
                assert(string_views(copied@) =~= string_views(before).push(self.fields@[k as int]@));
                assert(string_views(self.fields@).take(k + 1) =~= string_views(self.fields@).take(
                    k as int,
                ).push(self.fields@[k as int]@));
            }
            k = k + 1;
        }
        proof {
            assert(string_views(self.fields@).take(self.fields.len() as int) =~= string_views(
                self.fields@,
            ));
        }
        delimiter.wrap(copied)
    }
}

} // verus!

verus! {

// ---------------------------------------------------------------------------
// Scalar readings of one block.

/// The string a block holds: a bare atom or dot chain of atoms is its flat
/// dotted text; a parenthesis holds its children's strings joined by single
/// spaces, and only when that text is single-space-separated words, whose
/// canonical form the parenthesis is; curly text holds its content, unless
/// the content is a bare dotted chain, which must be written bare.
pub open spec fn spec_decode_string(b: BlockModel) -> Option<Seq<char>>
    decreases b,
{
    match b {
        BlockModel::CurlyText { text, .. } => if spec_bare_dotted(text) {
            None
        } else {
            Some(text)
        },
        BlockModel::Delimited { delimiter: Delimiter::Parenthesis, children, .. } => {
            match spec_decode_words(children) {
                Some(ws) => if spec_spaced_words(joined(ws, seq![' '])) {
                    Some(joined(ws, seq![' ']))
                } else {
                    None
                },
                None => None,
            }
        },
        _ => b.dotted_text(),
    }
}

/// The strings of a sequence of blocks, when each holds one.
pub open spec fn spec_decode_words(cs: Seq<BlockModel>) -> Option<Seq<Seq<char>>>
    decreases cs,
{
    if cs.len() == 0 {
        Some(Seq::empty())
    } else {
        proof {
            assert(decreases_to!(cs => cs.subrange(0, cs.len() - 1)));
        }
        match (spec_decode_words(cs.subrange(0, cs.len() - 1)), spec_decode_string(cs[cs.len() - 1])) {
            (Some(ws), Some(w)) => Some(ws.push(w)),
            _ => None,
        }
    }
}

/// The space-joined text of a parenthesis whose children each hold a string.
pub open spec fn spec_parenthesis_text(b: BlockModel) -> Option<Seq<char>> {
    match b {
        BlockModel::Delimited { delimiter: Delimiter::Parenthesis, children, .. } => {
            match spec_decode_words(children) {
                Some(ws) => Some(joined(ws, seq![' '])),
                None => None,
            }
        },
        _ => None,
    }
}

/// Reads the string a block holds; see `spec_decode_string`.
fn decode_string_block(b: &Block) -> (r: Result<String, DotosDecodeError>)
    ensures
        match spec_decode_string(b@) {
            Some(t) => r matches Ok(s) && s@ == t,
            None => r is Err,
        },
        b@ matches BlockModel::CurlyText { text, .. } ==> (spec_bare_dotted(text) ==> (r matches Err(
            DotosDecodeError::NonCanonicalStringDelimiter { value, canonical },
        ) && value@ == text && canonical@ == spec_format_string(text))),
        spec_parenthesis_text(b@) matches Some(t) ==> (!spec_spaced_words(t) ==> (r matches Err(
            DotosDecodeError::NonCanonicalStringDelimiter { value, canonical },
        ) && value@ == t && canonical@ == spec_format_string(t))),
        !(b@ is CurlyText) && !is_delimited_model(b@, Delimiter::Parenthesis)
            && b@.dotted_text() is None ==> (r matches Err(e) && expected_delimited_error(
            e,
            "String",
            string_shapes(),
        )),
    decreases b,
{
    match b {
        Block::CurlyText(c) => {
            let content = DotosString::new(c.text.as_str());
            match content.canonical_form() {
                StringForm::BareDotted => Err(
                    DotosDecodeError::NonCanonicalStringDelimiter {
                        value: c.text.clone(),
                        canonical: content.format(),
                    },
                ),
                _ => Ok(c.text.clone()),
            }
        },
        Block::Delimited { delimiter: Delimiter::Parenthesis, root_objects, .. } => {
            let ghost cs = b@.children();
            proof {
                assert(cs =~= models(root_objects@));
            }
            let mut parts: Vec<String> = Vec::new();
            let mut k: usize = 0;
            #[verifier::loop_isolation(false)]
            while k < root_objects.len()
                invariant
                    k <= root_objects.len(),
                    cs == models(root_objects@),
                    spec_decode_words(cs.take(k as int)) == Some(string_views(parts@)),
                    b@ == (BlockModel::Delimited {
                        delimiter: Delimiter::Parenthesis,
                        span: b@.span(),
                        children: cs,
                    }),
                decreases root_objects.len() - k,
            {
                proof {
                    assert(decreases_to!(root_objects => root_objects@[k as int]));
                    assert(cs.take(k + 1).subrange(0, k as int) =~= cs.take(k as int));
                    assert(cs.take(k + 1)[k as int] == root_objects@[k as int]@);
                }
                match decode_string_block(&root_objects[k]) {
                    Ok(part) => {
                        let ghost before = parts@;
                        parts.push(part);
                        proof {
                            assert(string_views(parts@) =~= string_views(before).push(part@));
                        }
                    },
                    Err(e) => {
                        proof {
                            lemma_decode_words_prefix(cs, k as int);
                        }
                        return Err(e);
                    },
                }
                k = k + 1;
            }
            proof {
                assert(cs.take(root_objects.len() as int) =~= cs);
            }
            let text = join_strings(&parts, " ");
            proof {
                reveal_strlit(" ");
                assert(" "@ =~= seq![' ']);
            }
            if spaced_words(&chars_of(text.as_str())) {
                Ok(text)
            } else {
                let canonical = DotosString::new(text.as_str()).format();
                Err(DotosDecodeError::NonCanonicalStringDelimiter { value: text, canonical })
            }
        },
        _ => match b.dotted_text() {
            Some(t) => Ok(t),
            None => Err(
                DotosDecodeError::ExpectedDelimited {
                    value_type: "String",
                    delimiter: "bare atom, dotted application, parenthesis, or curly quote text",
                },
            ),
        },
    }
}

/// A child that holds no string leaves the parenthesis without one.
proof fn lemma_decode_words_prefix(cs: Seq<BlockModel>, k: int)
    requires
        0 <= k < cs.len(),
        spec_decode_string(cs[k]) is None,
    ensures
        spec_decode_words(cs) is None,
    decreases cs.len(),
{
    if k < cs.len() - 1 {
        let p = cs.subrange(0, cs.len() - 1);
        assert(p[k] == cs[k]);
        lemma_decode_words_prefix(p, k);
    }
}

/// The unsigned integer a block holds.
pub open spec fn spec_decode_u64(b: BlockModel) -> Option<u64> {
    match b.dotted_text() {
        Some(t) => spec_parse_u64(t),
        None => None,
    }
}

/// The signed integer a block holds.
pub open spec fn spec_decode_i64(b: BlockModel) -> Option<i64> {
    match b.dotted_text() {
        Some(t) => spec_parse_i64(t),
        None => None,
    }
}

/// The boolean a block holds: the text `True` or `False`.
pub open spec fn spec_decode_bool(b: BlockModel) -> Option<bool> {
    match b.demoted() {
        Some(t) => if t == "True"@ {
            Some(true)
        } else if t == "False"@ {
            Some(false)
        } else {
            None
        },
        None => None,
    }
}

/// The delimiter list in the diagnostic for a block that holds no string.
pub open spec fn string_shapes() -> Seq<char> {
    "bare atom, dotted application, parenthesis, or curly quote text"@
}

/// Reads values of the scalar shapes from one block.
pub struct DotosBlock<'block> {
    block: &'block Block,
}

impl<'block> View for DotosBlock<'block> {
    type V = BlockModel;

    closed spec fn view(&self) -> BlockModel {
        self.block@
    }
}

impl<'block> DotosBlock<'block> {
    pub fn new(block: &'block Block) -> (r: DotosBlock<'block>)
        ensures
            r@ == block@,
    {
        DotosBlock { block }
    }

    /// The body of a block with the given delimiter.
    pub fn expect_body(&self, delimiter: Delimiter, value_type: &'static str) -> (r: Result<
        DotosBody<'block>,
        DotosDecodeError,
    >)
        ensures
            is_delimited_model(self@, delimiter) ==> (r matches Ok(b) && b@ == self@.children()),
            !is_delimited_model(self@, delimiter) ==> (r matches Err(e) && expected_delimited_error(
                e,
                value_type,
                delimiter.spec_description(),
            )),
    {
        DotosBody::from_delimited(self.block, delimiter, value_type)
    }

    pub fn expect_delimited(&self, delimiter: Delimiter, value_type: &'static str) -> (r: Result<
        &'block [Block],
        DotosDecodeError,
    >)
        ensures
            is_delimited_model(self@, delimiter) ==> (r matches Ok(s) && models(s@)
                == self@.children()),
            !is_delimited_model(self@, delimiter) ==> (r matches Err(e) && expected_delimited_error(
                e,
                value_type,
                delimiter.spec_description(),
            )),
    {
        match self.expect_body(delimiter, value_type) {
            Ok(body) => Ok(body.root_objects()),
            Err(e) => Err(e),
        }
    }

    /// The children of a block with the given delimiter, when there are
    /// exactly `expected` of them.
    pub fn expect_children(&self, delimiter: Delimiter, value_type: &'static str, expected: usize) -> (r:
        Result<&'block [Block], DotosDecodeError>)
        ensures
            is_delimited_model(self@, delimiter) && self@.child_count() == expected ==> (r matches Ok(
                s,
            ) && models(s@) == self@.children()),
            is_delimited_model(self@, delimiter) && self@.child_count() != expected ==> r == Err::<
                &[Block],
                DotosDecodeError,
            >(
                DotosDecodeError::ExpectedRootCount {
                    value_type,
                    expected,
                    found: self@.child_count() as usize,
                },
            ),
            !is_delimited_model(self@, delimiter) ==> (r matches Err(e) && expected_delimited_error(
                e,
                value_type,
                delimiter.spec_description(),
            )),
    {
        match self.expect_body(delimiter, value_type) {
            Ok(body) => body.expect_fields(value_type, expected),
            Err(e) => Err(e),
        }
    }

    /// The string this block holds.
    pub fn parse_string(&self) -> (r: Result<String, DotosDecodeError>)
        ensures
            match spec_decode_string(self@) {
                Some(t) => r matches Ok(s) && s@ == t,
                None => r is Err,
            },
            self@ matches BlockModel::CurlyText { text, .. } ==> (spec_bare_dotted(text) ==> (r matches Err(
                DotosDecodeError::NonCanonicalStringDelimiter { value, canonical },
            ) && value@ == text && canonical@ == spec_format_string(text))),
            spec_parenthesis_text(self@) matches Some(t) ==> (!spec_spaced_words(t) ==> (r matches Err(
                DotosDecodeError::NonCanonicalStringDelimiter { value, canonical },
            ) && value@ == t && canonical@ == spec_format_string(t))),
            !(self@ is CurlyText) && !is_delimited_model(self@, Delimiter::Parenthesis)
                && self@.dotted_text() is None ==> (r matches Err(e) && expected_delimited_error(
                e,
                "String",
                string_shapes(),
            )),
    {
        decode_string_block(self.block)
    }

    /// The flat literal text of a numeric block.
    fn parse_numeric_text(&self, value_type: &'static str) -> (r: Result<String, DotosDecodeError>)
        ensures
            match self@.dotted_text() {
                Some(t) => r matches Ok(s) && s@ == t,
                None => r == Err::<String, DotosDecodeError>(
                    DotosDecodeError::ExpectedAtom { value_type },
                ),
            },
    {
        match self.block.dotted_text() {
            Some(t) => Ok(t),
            None => Err(DotosDecodeError::ExpectedAtom { value_type }),
        }
    }

    /// The unsigned integer this block holds.
    pub fn parse_integer(&self) -> (r: Result<u64, DotosDecodeError>)
        ensures
            match spec_decode_u64(self@) {
                Some(v) => r == Ok::<u64, DotosDecodeError>(v),
                None => r is Err,
            },
            match self@.dotted_text() {
                Some(t) => spec_parse_u64(t) is None ==> (r matches Err(
                    DotosDecodeError::InvalidInteger { value },
                ) && value@ == t),
                None => true,
            },
    {
        let value = match self.parse_numeric_text("Integer") {
            Ok(v) => v,
            Err(e) => {
                return Err(e);
            },
        };
        match parse_u64_text(&chars_of(value.as_str())) {
            Some(n) => Ok(n),
            None => Err(DotosDecodeError::InvalidInteger { value }),
        }
    }

    fn parse_bounded(&self, bound: u64) -> (r: Result<u64, DotosDecodeError>)
        ensures
            match spec_decode_u64(self@) {
                Some(v) => if v <= bound {
                    r == Ok::<u64, DotosDecodeError>(v)
                } else {
                    r matches Err(DotosDecodeError::InvalidInteger { value }) && value@ == decimal(
                        v as nat,
                    )
                },
                None => r is Err,
            },
    {
        let value = match self.parse_integer() {
            Ok(v) => v,
            Err(e) => {
                return Err(e);
            },
        };
        if value > bound {
            let mut text = String::new();
            push_decimal(&mut text, value);
            return Err(DotosDecodeError::InvalidInteger { value: text });
        }
        Ok(value)
    }

    pub fn parse_u16(&self) -> (r: Result<u16, DotosDecodeError>)
        ensures
            match spec_decode_u64(self@) {
                Some(v) => if v <= u16::MAX {
                    r == Ok::<u16, DotosDecodeError>(v as u16)
                } else {
                    r matches Err(DotosDecodeError::InvalidInteger { value }) && value@ == decimal(
                        v as nat,
                    )
                },
                None => r is Err,
            },
    {
        match self.parse_bounded(0xffff) {
            Ok(v) => Ok(v as u16),
            Err(e) => Err(e),
        }
    }

    pub fn parse_u8(&self) -> (r: Result<u8, DotosDecodeError>)
        ensures
            match spec_decode_u64(self@) {
                Some(v) => if v <= u8::MAX {
                    r == Ok::<u8, DotosDecodeError>(v as u8)
                } else {
                    r matches Err(DotosDecodeError::InvalidInteger { value }) && value@ == decimal(
                        v as nat,
                    )
                },
                None => r is Err,
            },
    {
        match self.parse_bounded(0xff) {
            Ok(v) => Ok(v as u8),
            Err(e) => Err(e),
        }
    }

    pub fn parse_u32(&self) -> (r: Result<u32, DotosDecodeError>)
        ensures
            match spec_decode_u64(self@) {
                Some(v) => if v <= u32::MAX {
                    r == Ok::<u32, DotosDecodeError>(v as u32)
                } else {
                    r matches Err(DotosDecodeError::InvalidInteger { value }) && value@ == decimal(
                        v as nat,
                    )
                },
                None => r is Err,
            },
    {
        match self.parse_bounded(0xffff_ffff) {
            Ok(v) => Ok(v as u32),
            Err(e) => Err(e),
        }
    }

    /// The signed integer this block holds.
    pub fn parse_signed_integer(&self) -> (r: Result<i64, DotosDecodeError>)
        ensures
            match spec_decode_i64(self@) {
                Some(v) => r == Ok::<i64, DotosDecodeError>(v),
                None => r is Err,
            },
            match self@.dotted_text() {
                Some(t) => spec_parse_i64(t) is None ==> (r matches Err(
                    DotosDecodeError::InvalidInteger { value },
                ) && value@ == t),
                None => true,
            },
    {
        let value = match self.parse_numeric_text("SignedInteger") {
            Ok(v) => v,
            Err(e) => {
                return Err(e);
            },
        };
        match parse_i64_text(&chars_of(value.as_str())) {
            Some(n) => Ok(n),
            None => Err(DotosDecodeError::InvalidInteger { value }),
        }
    }

    pub fn parse_i32(&self) -> (r: Result<i32, DotosDecodeError>)
        ensures
            match spec_decode_i64(self@) {
                Some(v) => if i32::MIN <= v <= i32::MAX {
                    r == Ok::<i32, DotosDecodeError>(v as i32)
                } else {
                    r matches Err(DotosDecodeError::InvalidInteger { value }) && value@
                        == crate::numbers::signed_decimal(v as int)
                },
                None => r is Err,
            },
    {
        let value = match self.parse_signed_integer() {
            Ok(v) => v,
            Err(e) => {
                return Err(e);
            },
        };
        if value < -0x8000_0000 || value > 0x7fff_ffff {
            let mut text = String::new();
            crate::numbers::push_signed_decimal(&mut text, value);
            return Err(DotosDecodeError::InvalidInteger { value: text });
        }
        Ok(value as i32)
    }

    /// The boolean this block holds.
    pub fn parse_boolean(&self) -> (r: Result<bool, DotosDecodeError>)
        ensures
            match spec_decode_bool(self@) {
                Some(v) => r == Ok::<bool, DotosDecodeError>(v),
                None => r is Err,
            },
            self@.demoted() is None ==> r == Err::<bool, DotosDecodeError>(
                DotosDecodeError::ExpectedAtom { value_type: "Boolean" },
            ),
            match self@.demoted() {
                Some(t) => spec_decode_bool(self@) is None ==> (r matches Err(
                    DotosDecodeError::UnknownVariant { enum_name, variant },
                ) && enum_name@ == "Boolean"@ && variant@ == t),
                None => true,
            },
    {
        match self.block.demote_to_string() {
            None => Err(DotosDecodeError::ExpectedAtom { value_type: "Boolean" }),
            Some(value) => {
                let owned = text_of(value);
                let true_text = text_of("True");
                let false_text = text_of("False");
                if owned == true_text {
                    Ok(true)
                } else if owned == false_text {
                    Ok(false)
                } else {
                    Err(DotosDecodeError::UnknownVariant { enum_name: "Boolean", variant: owned })
                }
            },
        }
    }
}

// ---------------------------------------------------------------------------
// Sources.

/// The single root of a text, when it parses to exactly one.
pub open spec fn single_root(t: Seq<char>) -> Option<BlockModel> {
    match parse_document(t) {
        Ok(ms) => if ms.len() == 1 {
            Some(ms[0])
        } else {
            None
        },
        Err(_) => None,
    }
}

/// DOTOS text to be read as one value or as a known-root body.
pub struct DotosSource<'source> {
    source: &'source str,
}

impl<'source> View for DotosSource<'source> {
    type V = Seq<char>;

    closed spec fn view(&self) -> Seq<char> {
        self.source@
    }
}

impl<'source> DotosSource<'source> {
    pub fn new(source: &'source str) -> (r: DotosSource<'source>)
        ensures
            r@ == source@,
    {
        DotosSource { source }
    }

    /// The single root object of the text.
    pub fn parse_root(&self) -> (r: Result<Block, DotosDecodeError>)
        requires
            byte_length(self@) < usize::MAX,
        ensures
            match parse_document(self@) {
                Err(e) => r matches Err(DotosDecodeError::Parse(m)) && m@ == e.spec_message(),
                Ok(ms) => if ms.len() == 1 {
                    r matches Ok(b) && b@ == ms[0]
                } else {
                    r == Err::<Block, DotosDecodeError>(
                        DotosDecodeError::ExpectedSingleRoot { found: ms.len() as usize },
                    )
                },
            },
    {
        let document = match Document::parse(self.source) {
            Ok(d) => d,
            Err(e) => {
                return Err(DotosDecodeError::from_reader_error(e));
            },
        };
        let found = document.holds_root_objects();
        if found != 1 {
            return Err(DotosDecodeError::ExpectedSingleRoot { found });
        }
        match document.root_object_at(0) {
            Some(root) => Ok(root.clone()),
            None => Err(DotosDecodeError::ExpectedSingleRoot { found }),
        }
    }

    /// The value the single root object of the text holds.
    pub fn parse<Value: DotosDecode>(&self) -> (r: Result<Value, DotosDecodeError>)
        requires
            byte_length(self@) < usize::MAX,
        ensures
            match parse_document(self@) {
                Err(e) => r matches Err(DotosDecodeError::Parse(m)) && m@ == e.spec_message(),
                Ok(ms) => if ms.len() == 1 {
                    (r matches Ok(v) ==> Value::decodes_to(ms[0], v)) && (Value::decoding_known()
                        ==> (r is Err <==> Value::rejects(ms[0])))
                } else {
                    r == Err::<Value, DotosDecodeError>(
                        DotosDecodeError::ExpectedSingleRoot { found: ms.len() as usize },
                    )
                },
            },
    {
        match self.parse_root() {
            Ok(root) => Value::from_dotos_block(&root),
            Err(e) => Err(e),
        }
    }

    /// The known-root value the document's root objects hold.
    pub fn parse_document_body<Value: DotosDocumentDecode>(&self) -> (r: Result<
        Value,
        DotosDecodeError,
    >)
        requires
            byte_length(self@) < usize::MAX,
        ensures
            match parse_document(self@) {
                Ok(ms) => (r matches Ok(v) ==> Value::document_decodes_to(ms, v)) && (
                Value::document_decoding_known() ==> (r is Err <==> Value::document_rejects(ms))),
                Err(e) => r matches Err(DotosDecodeError::Parse(m)) && m@ == e.spec_message(),
            },
    {
        match Document::parse(self.source) {
            Ok(document) => {
                let body = DotosDocumentBody::new(&document);
                Value::from_dotos_document_body(&body)
            },
            Err(e) => Err(DotosDecodeError::from_reader_error(e)),
        }
    }

    /// The value the document's root objects hold as an ordered body.
    pub fn parse_body<Value: DotosBodyDecode>(&self) -> (r: Result<Value, DotosDecodeError>)
        requires
            byte_length(self@) < usize::MAX,
        ensures
            match parse_document(self@) {
                Ok(ms) => (r matches Ok(v) ==> Value::body_decodes_to(ms, v)) && (
                Value::body_decoding_known() ==> (r is Err <==> Value::body_rejects(ms))),
                Err(e) => r matches Err(DotosDecodeError::Parse(m)) && m@ == e.spec_message(),
            },
    {
        match Document::parse(self.source) {
            Ok(document) => {
                let body = DotosBody::from_document(&document);
                Value::from_dotos_body(&body)
            },
            Err(e) => Err(DotosDecodeError::from_reader_error(e)),
        }
    }
}

} // verus!
