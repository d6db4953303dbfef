//! Structural DOTOS reader and value codec.

mod bytes;
mod chars;
mod codec;
mod collections;
mod error;
mod expectation;
mod grammar;
mod indent;
mod instance_schema;
pub mod layout;
pub mod macros;
mod model;
pub mod shape;
pub mod numbers;
mod ordered;
mod parser;
mod pretty;
mod reader;
pub mod reflow;
pub mod round_trip;
mod strings;
pub mod structure;
mod text;

pub use chars::{is_whitespace_char, utf8_width_of};
pub use bytes::{ByteArray, ByteSequence, FixedByteSequence};
pub use codec::{
    DotosBlock, DotosBody, DotosBodyDecode, DotosBodyEncode, DotosBodyEncoding, DotosDecode,
    DotosDecodeError, DotosDocumentBody, DotosDocumentDecode, DotosDocumentEncode,
    DotosDocumentEncoding, DotosEncode, DotosNamedBodyFieldDecode, DotosNamedBodyFieldEncode,
    DotosNamedDocumentFieldDecode, DotosNamedDocumentFieldEncode, DotosSource,
};
pub use collections::DotosCollection;
pub use error::DotosError;
pub use instance_schema::{
    DecodedWithSchema, DotosDecodeTraced, InstanceSchema, InstanceSchemaBody, TypeReference,
};
pub use pretty::{DotosOutputForm, PrettyLayout};
pub use model::{ApplicationForm, BlockModel, Delimiter, SourcePosition, SourceSpan};
pub use parser::{Atom, AtomClassification, Block, CurlyText, Document};
pub use structure::{StructureHeader, StructureShape, StructureSlot};
pub use strings::{DotosString, StringForm};
pub use expectation::{DottedEntry, DottedExpectation};
pub use macros::{
    AtomCase, AtomShape, BlockShape, CaptureModel, CaptureName, CapturedValue, DelimitedShape,
    MacroCandidate, MacroCaptures, MacroConflict, MacroDelimiter, MacroError, MacroMatch,
    MacroNodeDefinition, MacroObjectCount, MacroRegistry, Pattern, PatternElement,
    PositionPredicate, SigilPosition, SigilSpec, StructuralMacroError, StructuralMacroNode,
    StructuralMacroNodeError, StructuralVariant, StructuralVariantConflict, StructuralVariantError,
    StructuralVariantSet,
};
