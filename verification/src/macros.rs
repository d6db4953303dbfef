//! Structural dispatch: patterns over block shapes, named captures, ordered
//! variant sets and the check that no earlier variant silently hides a later
//! one.
use vstd::prelude::*;
use crate::chars::{is_ascii_upper, spec_ascii_upper, spec_camel_text, spec_kebab_text,
    spec_pascal_text, spec_symbol_text};
use crate::codec::DotosBody;
use crate::model::{BlockModel, Delimiter};
use crate::grammar::{byte_length, parse_document};
use crate::parser::{Atom, Block, Document, models};
use crate::structure::model_shape;
use crate::text::{chars_of, decimal, join_strings, joined, push_decimal, push_str, string_views, text_of};

verus! {

// ---------------------------------------------------------------------------
// Names, delimiters, positions.

/// The name under which a pattern records what it matched.
#[derive(Debug, PartialEq, Eq, PartialOrd, Ord, Hash)]
pub struct CaptureName(String);

impl View for CaptureName {
    type V = Seq<char>;

    closed spec fn view(&self) -> Seq<char> {
        self.0@
    }
}

impl Clone for CaptureName {
    fn clone(&self) -> (r: Self)
        ensures
            r == *self,
    {
        CaptureName(self.0.clone())
    }
}

impl CaptureName {
    pub fn new(value: &str) -> (r: CaptureName)
        ensures
            r@ == value@,
    {
        CaptureName(text_of(value))
    }

    pub fn as_str(&self) -> (r: &str)
        ensures
            r@ == self@,
    {
        self.0.as_str()
    }

    /// Whether two names spell the same text.
    pub fn same_as(&self, other: &CaptureName) -> (r: bool)
        ensures
            r == (self@ == other@),
    {
        self.0 == other.0
    }
}

/// The delimiter of a delimited block, as patterns name it.
#[derive(Clone, Copy, Debug, PartialEq, Eq, Structural)]
pub enum MacroDelimiter {
    Parenthesis,
    SquareBracket,
    Brace,
    Angle,
}

pub open spec fn spec_macro_delimiter(d: Delimiter) -> MacroDelimiter {
    match d {
        Delimiter::Parenthesis => MacroDelimiter::Parenthesis,
        Delimiter::SquareBracket => MacroDelimiter::SquareBracket,
        Delimiter::Brace => MacroDelimiter::Brace,
        Delimiter::Angle => MacroDelimiter::Angle,
    }
}

/// The delimiter of a delimited block; `None` for every other block.
pub open spec fn macro_delimiter_of(b: BlockModel) -> Option<MacroDelimiter> {
    match b {
        BlockModel::Delimited { delimiter, .. } => Some(spec_macro_delimiter(delimiter)),
        _ => None,
    }
}

impl MacroDelimiter {
    pub open spec fn spec_as_str(self) -> Seq<char> {
        match self {
            MacroDelimiter::Parenthesis => "parenthesis"@,
            MacroDelimiter::SquareBracket => "square bracket"@,
            MacroDelimiter::Brace => "brace"@,
            MacroDelimiter::Angle => "angle bracket"@,
        }
    }

    pub fn from_delimiter(delimiter: Delimiter) -> (r: MacroDelimiter)
        ensures
            r == spec_macro_delimiter(delimiter),
    {
        match delimiter {
            Delimiter::Parenthesis => MacroDelimiter::Parenthesis,
            Delimiter::SquareBracket => MacroDelimiter::SquareBracket,
            Delimiter::Brace => MacroDelimiter::Brace,
            Delimiter::Angle => MacroDelimiter::Angle,
        }
    }

    pub fn from_block(block: &Block) -> (r: Option<MacroDelimiter>)
        ensures
            r == macro_delimiter_of(block@),
    {
        match block {
            Block::Delimited { delimiter, .. } => Some(Self::from_delimiter(*delimiter)),
            _ => None,
        }
    }

    pub fn as_str(&self) -> (r: &'static str)
        ensures
            r@ == self.spec_as_str(),
    {
        match self {
            MacroDelimiter::Parenthesis => "parenthesis",
            MacroDelimiter::SquareBracket => "square bracket",
            MacroDelimiter::Brace => "brace",
            MacroDelimiter::Angle => "angle bracket",
        }
    }
}

/// Where a candidate stands, which decides the variants it may match.
#[derive(Debug, PartialEq, Eq)]
pub enum PositionPredicate {
    RootIndex(u64),
    DelimitedEntry(MacroDelimiter),
    Named(String),
}

impl Clone for PositionPredicate {
    fn clone(&self) -> (r: Self)
        ensures
            r == *self,
    {
        match self {
            PositionPredicate::RootIndex(i) => PositionPredicate::RootIndex(*i),
            PositionPredicate::DelimitedEntry(d) => PositionPredicate::DelimitedEntry(*d),
            PositionPredicate::Named(n) => PositionPredicate::Named(n.clone()),
        }
    }
}

/// Two positions are the same: same variant, same index, delimiter or text.
pub open spec fn same_position(a: PositionPredicate, b: PositionPredicate) -> bool {
    match (a, b) {
        (PositionPredicate::RootIndex(x), PositionPredicate::RootIndex(y)) => x == y,
        (PositionPredicate::DelimitedEntry(x), PositionPredicate::DelimitedEntry(y)) => x == y,
        (PositionPredicate::Named(x), PositionPredicate::Named(y)) => x@ == y@,
        _ => false,
    }
}

/// How a position reads in diagnostics.
pub open spec fn spec_describe(p: PositionPredicate) -> Seq<char> {
    match p {
        PositionPredicate::RootIndex(i) => "root positional "@ + decimal(i as nat),
        PositionPredicate::DelimitedEntry(d) => d.spec_as_str() + " entry"@,
        PositionPredicate::Named(n) => n@,
    }
}

impl PositionPredicate {
    pub fn named(name: &str) -> (r: PositionPredicate)
        ensures
            r matches PositionPredicate::Named(n) && n@ == name@,
    {
        PositionPredicate::Named(text_of(name))
    }

    pub fn describe(&self) -> (r: String)
        ensures
            r@ == spec_describe(*self),
    {
        match self {
            PositionPredicate::RootIndex(index) => {
                let mut s = text_of("root positional ");
                push_decimal(&mut s, *index);
                s
            },
            PositionPredicate::DelimitedEntry(delimiter) => {
                let mut s = text_of(delimiter.as_str());
                push_str(&mut s, " entry");
                s
            },
            PositionPredicate::Named(name) => name.clone(),
        }
    }

    /// Whether two positions are the same.
    pub fn same_as(&self, other: &PositionPredicate) -> (r: bool)
        ensures
            r == same_position(*self, *other),
    {
        match (self, other) {
            (PositionPredicate::RootIndex(x), PositionPredicate::RootIndex(y)) => *x == *y,
            (PositionPredicate::DelimitedEntry(x), PositionPredicate::DelimitedEntry(y)) => *x == *y,
            (PositionPredicate::Named(x), PositionPredicate::Named(y)) => *x == *y,
            _ => false,
        }
    }
}

// ---------------------------------------------------------------------------
// Counts, cases, sigils, atom shapes.

/// How many inner objects a delimited shape admits.
#[derive(Clone, Copy, Debug, PartialEq, Eq, Structural)]
pub enum MacroObjectCount {
    Any,
    Even,
    Exact(u64),
}

pub open spec fn count_matches(c: MacroObjectCount, found: int) -> bool {
    match c {
        MacroObjectCount::Any => true,
        MacroObjectCount::Even => found % 2 == 0,
        MacroObjectCount::Exact(e) => e == found,
    }
}

impl MacroObjectCount {
    pub fn matches(&self, found: usize) -> (r: bool)
        ensures
            r == count_matches(*self, found as int),
    {
        match self {
            MacroObjectCount::Any => true,
            MacroObjectCount::Even => found % 2 == 0,
            MacroObjectCount::Exact(expected) => *expected as u128 == found as u128,
        }
    }
}

/// The spelling an atom must have.
#[derive(Clone, Copy, Debug, PartialEq, Eq, Structural)]
pub enum AtomCase {
    Symbol,
    PascalCase,
    CamelCase,
    KebabCase,
}

pub open spec fn case_matches(c: AtomCase, text: Seq<char>) -> bool {
    match c {
        AtomCase::Symbol => spec_symbol_text(text),
        AtomCase::PascalCase => spec_pascal_text(text),
        AtomCase::CamelCase => spec_camel_text(text),
        AtomCase::KebabCase => spec_kebab_text(text),
    }
}

impl AtomCase {
    pub fn matches(&self, atom: &Atom) -> (r: bool)
        ensures
            r == case_matches(*self, atom.text@),
    {
        match self {
            AtomCase::Symbol => atom.qualifies_as_symbol(),
            AtomCase::PascalCase => atom.qualifies_as_pascal_case_symbol(),
            AtomCase::CamelCase => atom.qualifies_as_camel_case_symbol(),
            AtomCase::KebabCase => atom.qualifies_as_kebab_case_symbol(),
        }
    }
}

/// Which end of an atom a sigil marks.
#[derive(Clone, Copy, Debug, PartialEq, Eq, Structural)]
pub enum SigilPosition {
    Prefix,
    Suffix,
}

/// A marker text an atom must begin or end with, beside at least one other
/// character.
#[derive(Debug, PartialEq, Eq)]
pub struct SigilSpec {
    character: String,
    position: SigilPosition,
}

impl Clone for SigilSpec {
    fn clone(&self) -> (r: Self)
        ensures
            r == *self,
    {
        SigilSpec { character: self.character.clone(), position: self.position }
    }
}

pub open spec fn has_prefix(t: Seq<char>, p: Seq<char>) -> bool {
    p.len() <= t.len() && t.take(p.len() as int) == p
}

pub open spec fn has_suffix(t: Seq<char>, p: Seq<char>) -> bool {
    p.len() <= t.len() && t.skip(t.len() - p.len()) == p
}

/// `text` carries the sigil at its end and something besides it.
pub open spec fn sigil_matches(character: Seq<char>, position: SigilPosition, text: Seq<char>) -> bool {
    text.len() > character.len() && match position {
        SigilPosition::Prefix => has_prefix(text, character),
        SigilPosition::Suffix => has_suffix(text, character),
    }
}

/// Whether `t` holds `p` at `offset`.
fn holds_at(t: &Vec<char>, p: &Vec<char>, offset: usize) -> (r: bool)
    requires
        offset + p.len() <= t.len(),
    ensures
        r == (t@.subrange(offset as int, offset + p.len()) == p@),
{
    let mut i: usize = 0;
    while i < p.len()
        invariant
            i <= p.len(),
            offset + p.len() <= t.len(),
            forall|j: int| 0 <= j < i ==> t@[offset + j] == p@[j],
        decreases p.len() - i,
    {
        if t[offset + i] != p[i] {
            proof {
                assert(t@.subrange(offset as int, offset + p.len())[i as int] != p@[i as int]);
            }
            return false;
        }
        i = i + 1;
    }
    proof {
        assert(t@.subrange(offset as int, offset + p.len()) =~= p@);
    }
    true
}

impl SigilSpec {
    pub closed spec fn spec_character(&self) -> Seq<char> {
        self.character@
    }

    pub closed spec fn spec_position(&self) -> SigilPosition {
        self.position
    }

    pub fn new(character: &str, position: SigilPosition) -> (r: SigilSpec)
        ensures
            r.spec_character() == character@,
            r.spec_position() == position,
    {
        SigilSpec { character: text_of(character), position }
    }

    pub fn suffix(character: &str) -> (r: SigilSpec)
        ensures
            r.spec_character() == character@,
            r.spec_position() == SigilPosition::Suffix,
    {
        Self::new(character, SigilPosition::Suffix)
    }

    pub fn prefix(character: &str) -> (r: SigilSpec)
        ensures
            r.spec_character() == character@,
            r.spec_position() == SigilPosition::Prefix,
    {
        Self::new(character, SigilPosition::Prefix)
    }

    pub fn matches(&self, text: &str) -> (r: bool)
        ensures
            r == sigil_matches(self.spec_character(), self.spec_position(), text@),
    {
        let t = chars_of(text);
        let c = chars_of(self.character.as_str());
        if t.len() <= c.len() {
            return false;
        }
        match self.position {
            SigilPosition::Prefix => {
                let r = holds_at(&t, &c, 0);
                proof {
                    assert(t@.take(c@.len() as int) =~= t@.subrange(0, c@.len() as int));
                }
                r
            },
            SigilPosition::Suffix => {
                let r = holds_at(&t, &c, t.len() - c.len());
                proof {
                    assert(t@.skip(t@.len() - c@.len()) =~= t@.subrange(
                        t@.len() - c@.len(),
                        t@.len() as int,
                    ));
                }
                r
            },
        }
    }

    /// Whether two sigils are the same.
    fn same_as(&self, other: &SigilSpec) -> (r: bool)
        ensures
            r == (self.character@ == other.character@ && self.position == other.position),
    {
        self.character == other.character && self.position == other.position
    }
}

/// An atom, optionally of a given spelling and sigil, optionally captured.
#[derive(Debug, PartialEq, Eq)]
pub struct AtomShape {
    case: Option<AtomCase>,
    sigil: Option<SigilSpec>,
    capture: Option<CaptureName>,
}

fn clone_capture(c: &Option<CaptureName>) -> (r: Option<CaptureName>)
    ensures
        r == *c,
{
    match c {
        Some(n) => Some(n.clone()),
        None => None,
    }
}

impl Clone for AtomShape {
    fn clone(&self) -> (r: Self)
        ensures
            r == *self,
    {
        AtomShape {
            case: self.case,
            sigil: match &self.sigil {
                Some(s) => Some(s.clone()),
                None => None,
            },
            capture: clone_capture(&self.capture),
        }
    }
}

/// The atom text satisfies the shape's spelling and sigil.
pub open spec fn atom_shape_accepts(s: AtomShape, text: Seq<char>) -> bool {
    (match s.spec_case() {
        Some(c) => case_matches(c, text),
        None => true,
    }) && (match s.spec_sigil() {
        Some(g) => sigil_matches(g.spec_character(), g.spec_position(), text),
        None => true,
    })
}

/// Two optional sigils are the same.
pub open spec fn same_sigil(a: Option<SigilSpec>, b: Option<SigilSpec>) -> bool {
    match (a, b) {
        (Some(x), Some(y)) => x.spec_character() == y.spec_character() && x.spec_position() == y.spec_position(),
        (None, None) => true,
        _ => false,
    }
}

/// Two atom shapes accept the same atoms by construction.
pub open spec fn same_atom_shape(a: AtomShape, b: AtomShape) -> bool {
    a.spec_case() == b.spec_case() && same_sigil(a.spec_sigil(), b.spec_sigil())
}

impl AtomShape {
    pub closed spec fn spec_case(&self) -> Option<AtomCase> {
        self.case
    }

    pub closed spec fn spec_sigil(&self) -> Option<SigilSpec> {
        self.sigil
    }

    pub closed spec fn spec_capture(&self) -> Option<CaptureName> {
        self.capture
    }

    pub fn new(case: Option<AtomCase>, sigil: Option<SigilSpec>, capture: Option<CaptureName>) -> (r:
        AtomShape)
        ensures
            r.spec_case() == case,
            r.spec_sigil() == sigil,
            r.spec_capture() == capture,
    {
        AtomShape { case, sigil, capture }
    }

    pub fn symbol(capture: Option<CaptureName>) -> (r: AtomShape)
        ensures
            r.spec_case() == Some(AtomCase::Symbol),
            r.spec_sigil() is None,
            r.spec_capture() == capture,
    {
        Self::new(Some(AtomCase::Symbol), None, capture)
    }

    pub fn pascal_case(capture: Option<CaptureName>) -> (r: AtomShape)
        ensures
            r.spec_case() == Some(AtomCase::PascalCase),
            r.spec_sigil() is None,
            r.spec_capture() == capture,
    {
        Self::new(Some(AtomCase::PascalCase), None, capture)
    }

    pub fn camel_case(capture: Option<CaptureName>) -> (r: AtomShape)
        ensures
            r.spec_case() == Some(AtomCase::CamelCase),
            r.spec_sigil() is None,
            r.spec_capture() == capture,
    {
        Self::new(Some(AtomCase::CamelCase), None, capture)
    }

    pub fn with_sigil(self, sigil: SigilSpec) -> (r: AtomShape)
        ensures
            r.spec_case() == self.spec_case(),
            r.spec_sigil() == Some(sigil),
            r.spec_capture() == self.spec_capture(),
    {
        AtomShape { case: self.case, sigil: Some(sigil), capture: self.capture }
    }

    fn accepts(&self, atom: &Atom) -> (r: bool)
        ensures
            r == atom_shape_accepts(*self, atom.text@),
    {
        let case_ok = match self.case {
            Some(c) => c.matches(atom),
            None => true,
        };
        if !case_ok {
            return false;
        }
        match &self.sigil {
            Some(g) => g.matches(atom.text()),
            None => true,
        }
    }

    fn has_same_match_shape(&self, other: &AtomShape) -> (r: bool)
        ensures
            r == same_atom_shape(*self, *other),
    {
        let same_case = match (self.case, other.case) {
            (Some(x), Some(y)) => x == y,
            (None, None) => true,
            _ => false,
        };
        if !same_case {
            return false;
        }
        match (&self.sigil, &other.sigil) {
            (Some(x), Some(y)) => x.same_as(y),
            (None, None) => true,
            _ => false,
        }
    }

    fn matches_pascal_head(&self) -> (r: bool)
        ensures
            r == (self.case == Some(AtomCase::PascalCase) && self.sigil is None),
    {
        match (self.case, &self.sigil) {
            (Some(AtomCase::PascalCase), None) => true,
            _ => false,
        }
    }
}

// ---------------------------------------------------------------------------
// Captures.

/// What a capture recorded, by the models of the blocks it refers to.
pub enum CaptureModel {
    Block(BlockModel),
    Blocks(Seq<BlockModel>),
    Body(Seq<BlockModel>),
}

/// The models of a sequence of block references.
pub open spec fn ref_models(s: Seq<&Block>) -> Seq<BlockModel> {
    s.map_values(|b: &Block| b@)
}

/// One recorded capture: a block, the blocks left over by a rest element, or
/// the inner objects of a delimited block.
#[derive(Debug)]
pub enum CapturedValue<'block> {
    Block(&'block Block),
    Blocks(Vec<&'block Block>),
    Body(DotosBody<'block>),
}

impl<'block> View for CapturedValue<'block> {
    type V = CaptureModel;

    closed spec fn view(&self) -> CaptureModel {
        match self {
            CapturedValue::Block(b) => CaptureModel::Block(b@),
            CapturedValue::Blocks(v) => CaptureModel::Blocks(ref_models(v@)),
            CapturedValue::Body(body) => CaptureModel::Body(body@),
        }
    }
}

impl<'block> CapturedValue<'block> {
    pub fn block(&self) -> (r: Option<&'block Block>)
        ensures
            match self@ {
                CaptureModel::Block(b) => r matches Some(x) && x@ == b,
                _ => r is None,
            },
    {
        match self {
            CapturedValue::Block(block) => Some(*block),
            _ => None,
        }
    }

    pub fn body(&self) -> (r: Option<&DotosBody<'block>>)
        ensures
            match self@ {
                CaptureModel::Body(b) => r matches Some(x) && x@ == b,
                _ => r is None,
            },
    {
        match self {
            CapturedValue::Body(body) => Some(body),
            _ => None,
        }
    }

    /// The captured blocks: the one block, the leftover blocks, or none for a
    /// body.
    pub fn blocks(&self) -> (r: Vec<&'block Block>)
        ensures
            ref_models(r@) == match self@ {
                CaptureModel::Block(b) => seq![b],
                CaptureModel::Blocks(s) => s,
                CaptureModel::Body(_) => Seq::empty(),
            },
    {
        match self {
            CapturedValue::Block(block) => {
                let mut v: Vec<&'block Block> = Vec::new();
                v.push(*block);
                proof {
                    assert(ref_models(v@) =~= seq![block@]);
                }
                v
            },
            CapturedValue::Blocks(blocks) => {
                let mut v: Vec<&'block Block> = Vec::new();
                let mut i: usize = 0;
                while i < blocks.len()
                    invariant
                        i <= blocks.len(),
                        ref_models(v@) == ref_models(blocks@).take(i as int),
                    decreases blocks.len() - i,
                {
                    let ghost before = v@;
                    let b = blocks[i];
                    v.push(b);
                    proof {
                        assert(v@ =~= before.push(b));
                        assert(ref_models(v@) =~= ref_models(before).push(b@));
                        assert(ref_models(blocks@)[i as int] == b@);
                        assert(ref_models(v@) =~= ref_models(blocks@).take(i + 1));
                    }
                    i = i + 1;
                }
                proof {
                    assert(ref_models(blocks@).take(blocks@.len() as int) =~= ref_models(blocks@));
                }
                v
            },
            CapturedValue::Body(_) => Vec::new(),
        }
    }
}

/// `a` comes before `b` in character-code order, a proper prefix first: the
/// order of the standard library's string comparison.
pub open spec fn text_before(a: Seq<char>, b: Seq<char>) -> bool
    decreases a.len(),
{
    if a.len() == 0 {
        b.len() > 0
    } else if b.len() == 0 {
        false
    } else if a[0] != b[0] {
        a[0] < b[0]
    } else {
        text_before(a.drop_first(), b.drop_first())
    }
}

/// The order is strict and total on distinct texts.
pub proof fn lemma_text_before_strict(a: Seq<char>, b: Seq<char>)
    ensures
        text_before(a, b) ==> !text_before(b, a) && a != b,
        a != b ==> text_before(a, b) || text_before(b, a),
    decreases a.len(),
{
    if a.len() > 0 && b.len() > 0 && a[0] == b[0] {
        lemma_text_before_strict(a.drop_first(), b.drop_first());
        if a.drop_first() == b.drop_first() {
            assert(a =~= seq![a[0]] + a.drop_first());
            assert(b =~= seq![b[0]] + b.drop_first());
        }
    } else if a.len() == 0 && b.len() == 0 {
        assert(a =~= b);
    }
}

/// The order is transitive.
pub proof fn lemma_text_before_transitive(a: Seq<char>, b: Seq<char>, c: Seq<char>)
    requires
        text_before(a, b),
        text_before(b, c),
    ensures
        text_before(a, c),
    decreases a.len(),
{
    if a.len() > 0 && b.len() > 0 && c.len() > 0 && a[0] == b[0] && b[0] == c[0] {
        lemma_text_before_transitive(a.drop_first(), b.drop_first(), c.drop_first());
    }
}

/// Whether one name comes before another in character-code order.
fn name_before(a: &CaptureName, b: &CaptureName) -> (r: bool)
    ensures
        r == text_before(a@, b@),
{
    let x = chars_of(a.as_str());
    let y = chars_of(b.as_str());
    let mut k: usize = 0;
    proof {
        assert(x@.skip(0) =~= x@);
        assert(y@.skip(0) =~= y@);
    }
    while k < x.len() && k < y.len()
        invariant
            k <= x.len(),
            k <= y.len(),
            x@ == a@,
            y@ == b@,
            text_before(a@, b@) == text_before(x@.skip(k as int), y@.skip(k as int)),
        decreases x.len() - k,
    {
        let c = x[k];
        let d = y[k];
        proof {
            assert(x@.skip(k as int)[0] == c);
            assert(y@.skip(k as int)[0] == d);
            assert(x@.skip(k as int).drop_first() =~= x@.skip(k + 1));
            assert(y@.skip(k as int).drop_first() =~= y@.skip(k + 1));
        }
        if c != d {
            return c < d;
        }
        k = k + 1;
    }
    proof {
        assert(x@.skip(k as int).len() == x.len() - k);
    }
    k == x.len() && k < y.len()
}

/// Names in strictly increasing order.
pub open spec fn sorted_names<'block>(s: Seq<(CaptureName, CapturedValue<'block>)>) -> bool {
    forall|i: int, j: int| #![trigger s[i], s[j]] 0 <= i < j < s.len() ==> text_before(s[i].0@, s[j].0@)
}

proof fn lemma_sorted_distinct<'block>(s: Seq<(CaptureName, CapturedValue<'block>)>)
    requires
        sorted_names(s),
    ensures
        distinct_names(s),
{
    assert forall|i: int, j: int| 0 <= i < j < s.len() implies s[i].0@ != s[j].0@ by {
        lemma_text_before_strict(s[i].0@, s[j].0@);
    }
}

/// Name-to-capture pairs, read in order: a later pair wins over an earlier
/// one of the same name.
pub open spec fn pairs_map<'block>(s: Seq<(CaptureName, CapturedValue<'block>)>) -> Map<
    Seq<char>,
    CaptureModel,
>
    decreases s.len(),
{
    if s.len() == 0 {
        Map::empty()
    } else {
        pairs_map(s.drop_last()).insert(s.last().0@, s.last().1@)
    }
}

/// No two pairs carry the same name.
pub open spec fn distinct_names<'block>(s: Seq<(CaptureName, CapturedValue<'block>)>) -> bool {
    forall|i: int, j: int| 0 <= i < j < s.len() ==> s[i].0@ != s[j].0@
}

proof fn lemma_pairs_map<'block>(s: Seq<(CaptureName, CapturedValue<'block>)>)
    ensures
        forall|k: Seq<char>| #[trigger]
            pairs_map(s).contains_key(k) <==> exists|i: int| 0 <= i < s.len() && s[i].0@ == k,
        distinct_names(s) ==> forall|i: int| 0 <= i < s.len() ==> #[trigger] pairs_map(s)[s[i].0@]
            == s[i].1@,
    decreases s.len(),
{
    if s.len() > 0 {
        let t = s.drop_last();
        lemma_pairs_map(t);
        assert forall|k: Seq<char>| #[trigger]
            pairs_map(s).contains_key(k) <==> exists|i: int| 0 <= i < s.len() && s[i].0@ == k by {
            if pairs_map(s).contains_key(k) && k != s.last().0@ {
                assert(pairs_map(t).contains_key(k));
                let i = choose|i: int| 0 <= i < t.len() && t[i].0@ == k;
                assert(s[i] == t[i]);
            }
            if exists|i: int| 0 <= i < s.len() && s[i].0@ == k {
                let i = choose|i: int| 0 <= i < s.len() && s[i].0@ == k;
                if i < t.len() {
                    assert(t[i] == s[i]);
                    assert(pairs_map(t).contains_key(k));
                }
            }
        }
        if distinct_names(s) {
            assert(distinct_names(t)) by {
                assert forall|a: int, b: int| 0 <= a < b < t.len() implies t[a].0@ != t[b].0@ by {
                    assert(t[a] == s[a]);
                    assert(t[b] == s[b]);
                }
            }
            assert forall|i: int| 0 <= i < s.len() implies #[trigger] pairs_map(s)[s[i].0@]
                == s[i].1@ by {
                if i < t.len() {
                    assert(t[i] == s[i]);
                    assert(s[i].0@ != s.last().0@);
                    assert(pairs_map(t)[t[i].0@] == t[i].1@);
                }
            }
        }
    }
}

proof fn lemma_pairs_map_update<'block>(
    s: Seq<(CaptureName, CapturedValue<'block>)>,
    j: int,
    p: (CaptureName, CapturedValue<'block>),
)
    requires
        distinct_names(s),
        0 <= j < s.len(),
        s[j].0@ == p.0@,
    ensures
        pairs_map(s.update(j, p)) == pairs_map(s).insert(p.0@, p.1@),
        distinct_names(s.update(j, p)),
    decreases s.len(),
{
    let u = s.update(j, p);
    if j == s.len() - 1 {
        assert(u.drop_last() =~= s.drop_last());
    } else {
        let t = s.drop_last();
        assert(u.drop_last() =~= t.update(j, p));
        lemma_pairs_map_update(t, j, p);
        assert(s.last().0@ != p.0@);
        assert(pairs_map(u) =~= pairs_map(s).insert(p.0@, p.1@));
    }
}

/// The captures a match recorded, each name at most once.
#[derive(Debug)]
pub struct MacroCaptures<'block> {
    values: Vec<(CaptureName, CapturedValue<'block>)>,
}

impl<'block> View for MacroCaptures<'block> {
    type V = Map<Seq<char>, CaptureModel>;

    closed spec fn view(&self) -> Map<Seq<char>, CaptureModel> {
        pairs_map(self.values@)
    }
}

impl<'block> MacroCaptures<'block> {
    #[verifier::type_invariant]
    pub closed spec fn wf(&self) -> bool {
        sorted_names(self.values@)
    }

    pub fn new() -> (r: MacroCaptures<'block>)
        ensures
            r@ == Map::<Seq<char>, CaptureModel>::empty(),
    {
        MacroCaptures { values: Vec::new() }
    }

    /// Records `value` under `name`, replacing what was recorded there; the
    /// pairs stay in name order.
    pub fn insert(&mut self, name: CaptureName, value: CapturedValue<'block>)
        ensures
            final(self)@ == old(self)@.insert(name@, value@),
    {
        proof {
            use_type_invariant(&*self);
            lemma_sorted_distinct(self.values@);
        }
        let mut values: Vec<(CaptureName, CapturedValue<'block>)> = Vec::new();
        std::mem::swap(&mut values, &mut self.values);
        let ghost before = values@;
        let mut i: usize = 0;
        while i < values.len()
            invariant_except_break
                i <= values.len(),
                forall|j: int| 0 <= j < i ==> text_before(#[trigger] before[j].0@, name@),
            invariant
                values@ == before,
                before == old(self).values@,
                sorted_names(before),
                distinct_names(before),
            ensures
                i <= values.len(),
                forall|j: int| 0 <= j < i ==> text_before(#[trigger] before[j].0@, name@),
                i < values.len() ==> !text_before(before[i as int].0@, name@),
            decreases values.len() - i,
        {
            if !name_before(&values[i].0, &name) {
                break;
            }
            i = i + 1;
        }
        if i < values.len() && values[i].0.same_as(&name) {
            let ghost pair = (name, value);
            proof {
                lemma_pairs_map_update(before, i as int, pair);
                let after = before.update(i as int, pair);
                assert forall|a: int, b: int| #![trigger after[a], after[b]] 0 <= a < b < after.len()
                    implies text_before(after[a].0@, after[b].0@) by {
                    assert(text_before(before[a].0@, before[b].0@));
                }
            }
            values.set(i, (name, value));
            self.values = values;
            return;
        }
        let ghost pair = (name, value);
        proof {
            let after = before.insert(i as int, pair);
            assert forall|j: int| i <= j < before.len() implies text_before(
                name@,
                #[trigger] before[j].0@,
            ) by {
                lemma_text_before_strict(before[i as int].0@, name@);
                if j > i {
                    assert(text_before(before[i as int].0@, before[j].0@));
                    lemma_text_before_transitive(name@, before[i as int].0@, before[j].0@);
                }
            }
            assert forall|a: int, b: int| #![trigger after[a], after[b]] 0 <= a < b < after.len()
                implies text_before(after[a].0@, after[b].0@) by {
                if b < i {
                    assert(after[a] == before[a] && after[b] == before[b]);
                    assert(text_before(before[a].0@, before[b].0@));
                } else if b == i {
                    assert(after[a] == before[a]);
                } else if a < i {
                    assert(after[a] == before[a] && after[b] == before[b - 1]);
                    assert(text_before(before[a].0@, name@));
                    assert(text_before(name@, before[b - 1].0@));
                    lemma_text_before_transitive(before[a].0@, name@, before[b - 1].0@);
                } else if a == i {
                    assert(after[b] == before[b - 1]);
                } else {
                    assert(after[a] == before[a - 1] && after[b] == before[b - 1]);
                    assert(text_before(before[a - 1].0@, before[b - 1].0@));
                }
            }
            lemma_sorted_distinct(after);
            assert(!pairs_map(before).contains_key(name@)) by {
                lemma_pairs_map(before);
                if pairs_map(before).contains_key(name@) {
                    let q = choose|q: int| 0 <= q < before.len() && before[q].0@ == name@;
                    if q < i {
                        lemma_text_before_strict(before[q].0@, name@);
                    } else {
                        lemma_text_before_strict(name@, before[q].0@);
                    }
                }
            }
            lemma_pairs_map(before);
            lemma_pairs_map(after);
            assert forall|k: Seq<char>| #[trigger] pairs_map(after).contains_key(k) == pairs_map(
                before,
            ).insert(name@, value@).contains_key(k) by {
                if pairs_map(after).contains_key(k) {
                    let q = choose|q: int| 0 <= q < after.len() && after[q].0@ == k;
                    if q < i {
                        assert(after[q] == before[q]);
                    } else if q > i {
                        assert(after[q] == before[q - 1]);
                    }
                }
                if pairs_map(before).contains_key(k) {
                    let q = choose|q: int| 0 <= q < before.len() && before[q].0@ == k;
                    if q < i {
                        assert(after[q] == before[q]);
                    } else {
                        assert(after[q + 1] == before[q]);
                    }
                }
                if k == name@ {
                    assert(after[i as int].0@ == k);
                }
            }
            assert forall|k: Seq<char>| #[trigger] pairs_map(after).contains_key(k) implies pairs_map(
                after,
            )[k] == pairs_map(before).insert(name@, value@)[k] by {
                let q = choose|q: int| 0 <= q < after.len() && after[q].0@ == k;
                assert(pairs_map(after)[after[q].0@] == after[q].1@);
                if q < i {
                    assert(after[q] == before[q]);
                    assert(pairs_map(before)[before[q].0@] == before[q].1@);
                } else if q > i {
                    assert(after[q] == before[q - 1]);
                    assert(pairs_map(before)[before[q - 1].0@] == before[q - 1].1@);
                }
            }
            assert(pairs_map(after) =~= pairs_map(before).insert(name@, value@));
        }
        values.insert(i, (name, value));
        self.values = values;
    }

    /// Records every capture of `captures`, each replacing what was recorded
    /// under its name.
    pub fn extend(&mut self, captures: MacroCaptures<'block>)
        ensures
            final(self)@ == old(self)@.union_prefer_right(captures@),
    {
        proof {
            use_type_invariant(&*self);
            use_type_invariant(&captures);
            lemma_sorted_distinct(captures.values@);
        }
        let ghost initial = captures.values@;
        let mut rest = captures.values;
        while rest.len() > 0
            invariant
                distinct_names(rest@),
                rest@ == initial.take(rest@.len() as int),
                rest@.len() <= initial.len(),
                self@.union_prefer_right(pairs_map(rest@)) == old(self)@.union_prefer_right(
                    pairs_map(initial),
                ),
            decreases rest.len(),
        {
            let ghost before = rest@;
            let ghost held = self@;
            let (name, value) = rest.pop().unwrap();
            proof {
                assert(before.drop_last() =~= rest@);
                assert(rest@ =~= initial.take(rest@.len() as int));
                lemma_pairs_map(rest@);
                assert(!pairs_map(rest@).contains_key(name@)) by {
                    if pairs_map(rest@).contains_key(name@) {
                        let i = choose|i: int| 0 <= i < rest@.len() && rest@[i].0@ == name@;
                        assert(before[i] == rest@[i]);
                        assert(before[before.len() - 1].0@ == name@);
                    }
                }
            }
            self.insert(name, value);
            proof {
                assert(self@.union_prefer_right(pairs_map(rest@)) =~= held.union_prefer_right(
                    pairs_map(before),
                ));
            }
        }
        proof {
            assert(pairs_map(rest@) =~= Map::<Seq<char>, CaptureModel>::empty());
            assert(self@.union_prefer_right(pairs_map(rest@)) =~= self@);
        }
    }

    pub fn get(&self, name: &CaptureName) -> (r: Option<&CapturedValue<'block>>)
        ensures
            match r {
                Some(v) => self@.contains_key(name@) && self@[name@] == v@,
                None => !self@.contains_key(name@),
            },
    {
        proof {
            use_type_invariant(self);
            lemma_sorted_distinct(self.values@);
        }
        let mut i: usize = 0;
        while i < self.values.len()
            invariant
                i <= self.values.len(),
                self.wf(),
                distinct_names(self.values@),
                forall|j: int| 0 <= j < i ==> self.values@[j].0@ != name@,
            decreases self.values.len() - i,
        {
            if self.values[i].0.same_as(name) {
                proof {
                    lemma_pairs_map(self.values@);
                    assert(self@ == pairs_map(self.values@));
                }
                return Some(&self.values[i].1);
            }
            i = i + 1;
        }
        proof {
            lemma_pairs_map(self.values@);
        }
        None
    }

    /// The recorded pairs in increasing name order, each name once.
    pub fn values(&self) -> (r: &[(CaptureName, CapturedValue<'block>)])
        ensures
            pairs_map(r@) == self@,
            sorted_names(r@),
            distinct_names(r@),
    {
        proof {
            use_type_invariant(self);
            lemma_sorted_distinct(self.values@);
        }
        self.values.as_slice()
    }
}

/// Pairs with the same names and the same captures, position by position,
/// read as the same map.
proof fn lemma_pairs_map_same<'block>(
    s: Seq<(CaptureName, CapturedValue<'block>)>,
    t: Seq<(CaptureName, CapturedValue<'block>)>,
)
    requires
        s.len() == t.len(),
        forall|i: int| 0 <= i < s.len() ==> s[i].0@ == t[i].0@ && s[i].1@ == t[i].1@,
    ensures
        pairs_map(s) == pairs_map(t),
    decreases s.len(),
{
    if s.len() > 0 {
        lemma_pairs_map_same(s.drop_last(), t.drop_last());
    }
}

impl<'block> Clone for CapturedValue<'block> {
    fn clone(&self) -> (r: Self)
        ensures
            r@ == self@,
    {
        match self {
            CapturedValue::Block(block) => CapturedValue::Block(*block),
            CapturedValue::Blocks(_) => CapturedValue::Blocks(self.blocks()),
            CapturedValue::Body(body) => CapturedValue::Body(*body),
        }
    }
}

impl<'block> Clone for MacroCaptures<'block> {
    fn clone(&self) -> (r: Self)
        ensures
            r@ == self@,
    {
        proof {
            use_type_invariant(self);
        }
        let mut values: Vec<(CaptureName, CapturedValue<'block>)> = Vec::new();
        let mut i: usize = 0;
        while i < self.values.len()
            invariant
                i <= self.values.len(),
                values@.len() == i,
                forall|j: int|
                    0 <= j < i ==> values@[j].0 == self.values@[j].0 && values@[j].1@
                        == self.values@[j].1@,
            decreases self.values.len() - i,
        {
            let name = self.values[i].0.clone();
            let value = self.values[i].1.clone();
            values.push((name, value));
            i = i + 1;
        }
        proof {
            lemma_pairs_map_same(values@, self.values@);
            assert(sorted_names(values@)) by {
                assert forall|a: int, b: int| #![trigger values@[a], values@[b]]
                    0 <= a < b < values@.len() implies text_before(values@[a].0@, values@[b].0@) by {
                    assert(text_before(self.values@[a].0@, self.values@[b].0@));
                }
            }
        }
        MacroCaptures { values }
    }
}

impl<'block> Default for MacroCaptures<'block> {
    fn default() -> (r: Self)
        ensures
            r@ == Map::<Seq<char>, CaptureModel>::empty(),
    {
        Self::new()
    }
}

// ---------------------------------------------------------------------------
// Patterns and what they match.

/// A delimited block of a given delimiter and object count, optionally with a
/// pattern over its inner objects, optionally captured as a body.
#[derive(Debug, PartialEq, Eq)]
pub struct DelimitedShape {
    delimiter: MacroDelimiter,
    object_count: MacroObjectCount,
    capture: Option<CaptureName>,
    children: Option<Box<Pattern>>,
}

/// One position of a pattern.
#[derive(Debug, PartialEq, Eq)]
pub enum PatternElement {
    Any(Option<CaptureName>),
    Atom(AtomShape),
    Delimited(DelimitedShape),
    Literal(String),
    Rest(CaptureName),
}

/// An ordered sequence of elements matched against an ordered sequence of
/// blocks.
#[derive(Debug, PartialEq, Eq)]
pub struct Pattern {
    elements: Vec<PatternElement>,
}

proof fn lemma_same_elements_from(a: Vec<PatternElement>, b: Seq<PatternElement>, i: int)
    requires
        a.len() == b.len(),
        0 <= i,
        forall|k: int| i <= k < a.len() ==> same_element(#[trigger] a[k], b[k]),
    ensures
        same_elements(a, b, i),
    decreases a.len() - i,
{
    if i < a.len() {
        lemma_same_elements_from(a, b, i + 1);
    }
}

impl Pattern {
    fn duplicate(&self) -> (r: Pattern)
        ensures
            same_pattern(r, *self),
        decreases *self, 0int,
    {
        let mut elements: Vec<PatternElement> = Vec::new();
        let mut i: usize = 0;
        while i < self.elements.len()
            invariant
                i <= self.elements.len(),
                elements@.len() == i,
                forall|k: int| 0 <= k < i ==> same_element(#[trigger] elements@[k], self.elements@[k]),
            decreases self.elements.len() - i,
        {
            elements.push(self.elements[i].duplicate());
            i = i + 1;
        }
        proof {
            lemma_same_elements_from(elements, self.elements@, 0);
        }
        Pattern { elements }
    }
}

impl PatternElement {
    fn duplicate(&self) -> (r: PatternElement)
        ensures
            same_element(r, *self),
        decreases *self, 0int,
    {
        match self {
            PatternElement::Any(c) => PatternElement::Any(clone_capture(c)),
            PatternElement::Atom(s) => PatternElement::Atom(s.clone()),
            PatternElement::Delimited(s) => PatternElement::Delimited(s.duplicate()),
            PatternElement::Literal(v) => PatternElement::Literal(v.clone()),
            PatternElement::Rest(n) => PatternElement::Rest(n.clone()),
        }
    }
}

impl DelimitedShape {
    fn duplicate(&self) -> (r: DelimitedShape)
        ensures
            same_delimited(r, *self),
        decreases *self, 0int,
    {
        DelimitedShape {
            delimiter: self.delimiter,
            object_count: self.object_count,
            capture: clone_capture(&self.capture),
            children: match &self.children {
                Some(p) => Some(Box::new(p.duplicate())),
                None => None,
            },
        }
    }
}

impl Clone for Pattern {
    fn clone(&self) -> (r: Self)
        ensures
            same_pattern(r, *self),
    {
        self.duplicate()
    }
}

impl Clone for PatternElement {
    fn clone(&self) -> (r: Self)
        ensures
            same_element(r, *self),
    {
        self.duplicate()
    }
}

impl Clone for DelimitedShape {
    fn clone(&self) -> (r: Self)
        ensures
            same_delimited(r, *self),
    {
        self.duplicate()
    }
}

/// `acc` with `v` recorded under the capture name, if there is one.
pub open spec fn with_capture(
    acc: Map<Seq<char>, CaptureModel>,
    c: Option<CaptureName>,
    v: CaptureModel,
) -> Map<Seq<char>, CaptureModel> {
    match c {
        Some(n) => acc.insert(n@, v),
        None => acc,
    }
}

/// What one element makes of one block, given the captures so far: `None`
/// when the block does not fit.
pub open spec fn element_match(
    e: PatternElement,
    b: BlockModel,
    acc: Map<Seq<char>, CaptureModel>,
) -> Option<Map<Seq<char>, CaptureModel>>
    decreases e, 0int,
{
    match e {
        PatternElement::Any(c) => Some(with_capture(acc, c, CaptureModel::Block(b))),
        PatternElement::Atom(s) => match b {
            BlockModel::Atom { text, .. } => if atom_shape_accepts(s, text) {
                Some(with_capture(acc, s.spec_capture(), CaptureModel::Block(b)))
            } else {
                None
            },
            _ => None,
        },
        PatternElement::Delimited(s) => delimited_match(s, b, acc),
        PatternElement::Literal(v) => if b.demoted() == Some(v@) {
            Some(acc)
        } else {
            None
        },
        PatternElement::Rest(_) => None,
    }
}

/// What a delimited shape makes of one block: the block must carry the
/// delimiter and object count, its inner objects must match the child
/// pattern, whose captures are then added, and the body is captured last.
pub closed spec fn delimited_match(
    s: DelimitedShape,
    b: BlockModel,
    acc: Map<Seq<char>, CaptureModel>,
) -> Option<Map<Seq<char>, CaptureModel>>
    decreases s, 0int,
{
    if macro_delimiter_of(b) == Some(s.delimiter) && count_matches(
        s.object_count,
        b.child_count() as int,
    ) {
        match s.children {
            Some(p) => match elements_match(p.elements, 0, b.children(), Map::empty()) {
                Some(c) => Some(
                    with_capture(acc.union_prefer_right(c), s.capture, CaptureModel::Body(b.children())),
                ),
                None => None,
            },
            None => Some(with_capture(acc, s.capture, CaptureModel::Body(b.children()))),
        }
    } else {
        None
    }
}

/// Matches elements from position `i` on against the blocks from `i` on: a
/// rest element takes every remaining block; otherwise elements and blocks
/// pair up one to one and must run out together.
pub open spec fn elements_match(
    es: Vec<PatternElement>,
    i: int,
    blocks: Seq<BlockModel>,
    acc: Map<Seq<char>, CaptureModel>,
) -> Option<Map<Seq<char>, CaptureModel>>
    decreases es, es.len() - i,
{
    if 0 <= i < es.len() {
        match es[i] {
            PatternElement::Rest(n) => Some(acc.insert(n@, CaptureModel::Blocks(blocks.skip(i)))),
            e => if i < blocks.len() {
                match element_match(e, blocks[i], acc) {
                    Some(a) => elements_match(es, i + 1, blocks, a),
                    None => None,
                }
            } else {
                None
            },
        }
    } else if i == blocks.len() {
        Some(acc)
    } else {
        None
    }
}

/// The captures of a whole pattern over a block sequence, or `None`.
pub open spec fn pattern_match(p: Pattern, blocks: Seq<BlockModel>) -> Option<
    Map<Seq<char>, CaptureModel>,
> {
    elements_match(p.spec_element_vec(), 0, blocks, Map::empty())
}

impl Pattern {
    pub closed spec fn spec_elements(&self) -> Seq<PatternElement> {
        self.elements@
    }

    /// The elements, as the vector the matching rules walk.
    pub closed spec fn spec_element_vec(&self) -> Vec<PatternElement> {
        self.elements
    }

    /// The walked vector holds the pattern's elements.
    pub proof fn lemma_element_vec(&self)
        ensures
            self.spec_element_vec()@ == self.spec_elements(),
    {
    }

    pub fn new(elements: Vec<PatternElement>) -> (r: Pattern)
        ensures
            r.spec_elements() == elements@,
            r.spec_element_vec() == elements,
    {
        Pattern { elements }
    }

    pub fn elements(&self) -> (r: &[PatternElement])
        ensures
            r@ == self.spec_elements(),
    {
        self.elements.as_slice()
    }

    /// The captures of this pattern over `blocks`, or `None` when they do not
    /// fit.
    pub fn matches<'block>(&self, blocks: &[&'block Block]) -> (r: Option<MacroCaptures<'block>>)
        ensures
            match pattern_match(*self, ref_models(blocks@)) {
                Some(m) => r matches Some(c) && c@ == m,
                None => r is None,
            },
        decreases *self, 0int,
    {
        let ghost bs = ref_models(blocks@);
        let mut captures = MacroCaptures::new();
        let mut index: usize = 0;
        while index < self.elements.len()
            invariant
                index <= self.elements.len(),
                index <= blocks.len(),
                bs == ref_models(blocks@),
                pattern_match(*self, bs) == elements_match(self.elements, index as int, bs, captures@),
            decreases self.elements.len() - index,
        {
            let element = &self.elements[index];
            match element {
                PatternElement::Rest(capture_name) => {
                    let mut rest: Vec<&'block Block> = Vec::new();
                    let mut k: usize = index;
                    while k < blocks.len()
                        invariant
                            index <= k <= blocks.len(),
                            bs == ref_models(blocks@),
                            ref_models(rest@) == bs.subrange(index as int, k as int),
                        decreases blocks.len() - k,
                    {
                        let ghost before = rest@;
                        let b = blocks[k];
                        rest.push(b);
                        proof {
                            assert(ref_models(rest@) =~= ref_models(before).push(b@));
                            assert(ref_models(rest@) =~= bs.subrange(index as int, k + 1));
                        }
                        k = k + 1;
                    }
                    proof {
                        assert(bs.subrange(index as int, blocks@.len() as int) =~= bs.skip(
                            index as int,
                        ));
                    }
                    captures.insert(capture_name.clone(), CapturedValue::Blocks(rest));
                    return Some(captures);
                },
                _ => {
                    if index >= blocks.len() {
                        return None;
                    }
                    let block = blocks[index];
                    if !element.match_block(block, &mut captures) {
                        return None;
                    }
                    index = index + 1;
                },
            }
        }
        if index == blocks.len() {
            Some(captures)
        } else {
            None
        }
    }
}

impl PatternElement {
    pub fn any(capture: Option<CaptureName>) -> (r: PatternElement)
        ensures
            r == PatternElement::Any(capture),
    {
        PatternElement::Any(capture)
    }

    pub fn atom(shape: AtomShape) -> (r: PatternElement)
        ensures
            r == PatternElement::Atom(shape),
    {
        PatternElement::Atom(shape)
    }

    pub fn delimited(shape: DelimitedShape) -> (r: PatternElement)
        ensures
            r == PatternElement::Delimited(shape),
    {
        PatternElement::Delimited(shape)
    }

    pub fn literal(value: &str) -> (r: PatternElement)
        ensures
            r matches PatternElement::Literal(v) && v@ == value@,
    {
        PatternElement::Literal(text_of(value))
    }

    pub fn rest(capture_name: CaptureName) -> (r: PatternElement)
        ensures
            r == PatternElement::Rest(capture_name),
    {
        PatternElement::Rest(capture_name)
    }

    /// Matches one block, recording this element's captures.
    fn match_block<'block>(&self, block: &'block Block, captures: &mut MacroCaptures<'block>) -> (r:
        bool)
        ensures
            r == element_match(*self, block@, old(captures)@) is Some,
            r ==> final(captures)@ == element_match(*self, block@, old(captures)@)->0,
        decreases *self, 0int,
    {
        match self {
            PatternElement::Any(capture_name) => {
                match capture_name {
                    Some(n) => captures.insert(n.clone(), CapturedValue::Block(block)),
                    None => {},
                }
                true
            },
            PatternElement::Atom(shape) => shape.match_block(block, captures),
            PatternElement::Delimited(shape) => shape.match_block(block, captures),
            PatternElement::Literal(value) => match block.demote_to_string() {
                Some(t) => {
                    let t = text_of(t);
                    t == *value
                },
                None => false,
            },
            PatternElement::Rest(_) => false,
        }
    }
}

impl AtomShape {
    fn match_block<'block>(&self, block: &'block Block, captures: &mut MacroCaptures<'block>) -> (r:
        bool)
        ensures
            r == element_match(PatternElement::Atom(*self), block@, old(captures)@) is Some,
            r ==> final(captures)@ == element_match(
                PatternElement::Atom(*self),
                block@,
                old(captures)@,
            )->0,
    {
        let atom = match block.atom() {
            Some(a) => a,
            None => {
                return false;
            },
        };
        if !self.accepts(atom) {
            return false;
        }
        match &self.capture {
            Some(n) => captures.insert(n.clone(), CapturedValue::Block(block)),
            None => {},
        }
        true
    }
}

impl DelimitedShape {
    pub closed spec fn spec_delimiter(&self) -> MacroDelimiter {
        self.delimiter
    }

    pub closed spec fn spec_object_count(&self) -> MacroObjectCount {
        self.object_count
    }

    pub closed spec fn spec_capture(&self) -> Option<CaptureName> {
        self.capture
    }

    pub closed spec fn spec_children(&self) -> Option<Pattern> {
        match self.children {
            Some(p) => Some(*p),
            None => None,
        }
    }

    pub fn new(delimiter: MacroDelimiter, object_count: MacroObjectCount, capture: Option<CaptureName>) -> (r:
        DelimitedShape)
        ensures
            r.spec_delimiter() == delimiter,
            r.spec_object_count() == object_count,
            r.spec_capture() == capture,
            r.spec_children() is None,
    {
        DelimitedShape { delimiter, object_count, capture, children: None }
    }

    pub fn any(delimiter: MacroDelimiter, capture: Option<CaptureName>) -> (r: DelimitedShape)
        ensures
            r.spec_delimiter() == delimiter,
            r.spec_object_count() == MacroObjectCount::Any,
            r.spec_capture() == capture,
            r.spec_children() is None,
    {
        Self::new(delimiter, MacroObjectCount::Any, capture)
    }

    pub fn with_children(self, children: Pattern) -> (r: DelimitedShape)
        ensures
            r.spec_delimiter() == self.spec_delimiter(),
            r.spec_object_count() == self.spec_object_count(),
            r.spec_capture() == self.spec_capture(),
            r.spec_children() == Some(children),
    {
        DelimitedShape {
            delimiter: self.delimiter,
            object_count: self.object_count,
            capture: self.capture,
            children: Some(Box::new(children)),
        }
    }

    fn match_block<'block>(&self, block: &'block Block, captures: &mut MacroCaptures<'block>) -> (r:
        bool)
        ensures
            r == delimited_match(*self, block@, old(captures)@) is Some,
            r ==> final(captures)@ == delimited_match(*self, block@, old(captures)@)->0,
        decreases *self, 0int,
    {
        match MacroDelimiter::from_block(block) {
            Some(d) => {
                if d != self.delimiter {
                    return false;
                }
            },
            None => {
                return false;
            },
        }
        if !self.object_count.matches(block.holds_root_objects()) {
            return false;
        }
        let roots = block.root_objects();
        match &self.children {
            Some(children) => {
                let mut child_blocks: Vec<&'block Block> = Vec::new();
                let mut i: usize = 0;
                while i < roots.len()
                    invariant
                        i <= roots.len(),
                        ref_models(child_blocks@) == models(roots@).take(i as int),
                    decreases roots.len() - i,
                {
                    let ghost before = child_blocks@;
                    child_blocks.push(&roots[i]);
                    proof {
                        assert(ref_models(child_blocks@) =~= ref_models(before).push(roots@[i as int]@));
                        assert(ref_models(child_blocks@) =~= models(roots@).take(i + 1));
                    }
                    i = i + 1;
                }
                proof {
                    assert(models(roots@).take(roots@.len() as int) =~= models(roots@));
                }
                match children.matches(child_blocks.as_slice()) {
                    Some(inner) => captures.extend(inner),
                    None => {
                        return false;
                    },
                }
            },
            None => {},
        }
        match &self.capture {
            Some(n) => captures.insert(n.clone(), CapturedValue::Body(DotosBody::new(roots))),
            None => {},
        }
        true
    }
}

// ---------------------------------------------------------------------------
// Match shapes: when an earlier pattern hides a later one.

/// Two elements accept the same blocks by construction; captures aside.
pub open spec fn same_element_shape(a: PatternElement, b: PatternElement) -> bool
    decreases a, 0int,
{
    match a {
        PatternElement::Any(_) => b is Any,
        PatternElement::Atom(x) => match b {
            PatternElement::Atom(y) => same_atom_shape(x, y),
            _ => false,
        },
        PatternElement::Delimited(x) => match b {
            PatternElement::Delimited(y) => same_delimited_shape(x, y),
            _ => false,
        },
        PatternElement::Literal(x) => match b {
            PatternElement::Literal(y) => x@ == y@,
            _ => false,
        },
        PatternElement::Rest(_) => b is Rest,
    }
}

pub closed spec fn same_delimited_shape(a: DelimitedShape, b: DelimitedShape) -> bool
    decreases a, 0int,
{
    a.delimiter == b.delimiter && a.object_count == b.object_count && match a.children {
        Some(p) => match b.children {
            Some(q) => same_elements_shape(p.elements, q.elements@, 0),
            None => false,
        },
        None => b.children is None,
    }
}

/// Element-wise same shape from position `i` on, over sequences of one length.
pub open spec fn same_elements_shape(a: Vec<PatternElement>, b: Seq<PatternElement>, i: int) -> bool
    decreases a, a.len() - i,
{
    if a.len() != b.len() {
        false
    } else if 0 <= i < a.len() {
        same_element_shape(a[i], b[i]) && same_elements_shape(a, b, i + 1)
    } else {
        true
    }
}

/// Two patterns accept the same block sequences by construction.
pub open spec fn same_pattern_shape(p: Pattern, q: Pattern) -> bool {
    same_elements_shape(p.spec_element_vec(), q.spec_element_vec()@, 0)
}

/// The same element, with nested patterns compared element by element.
pub open spec fn same_element(a: PatternElement, b: PatternElement) -> bool
    decreases a, 0int,
{
    match a {
        PatternElement::Delimited(x) => match b {
            PatternElement::Delimited(y) => same_delimited(x, y),
            _ => false,
        },
        _ => a == b,
    }
}

pub closed spec fn same_delimited(a: DelimitedShape, b: DelimitedShape) -> bool
    decreases a, 0int,
{
    a.delimiter == b.delimiter && a.object_count == b.object_count && a.capture == b.capture
        && match a.children {
        Some(p) => match b.children {
            Some(q) => same_elements(p.elements, q.elements@, 0),
            None => false,
        },
        None => b.children is None,
    }
}

/// Element-wise the same from position `i` on, over sequences of one length.
pub open spec fn same_elements(a: Vec<PatternElement>, b: Seq<PatternElement>, i: int) -> bool
    decreases a, a.len() - i,
{
    if a.len() != b.len() {
        false
    } else if 0 <= i < a.len() {
        same_element(a[i], b[i]) && same_elements(a, b, i + 1)
    } else {
        true
    }
}

/// Two patterns of the same elements, captures included: they match the same
/// block sequences with the same captures.
pub open spec fn same_pattern(p: Pattern, q: Pattern) -> bool {
    same_elements(p.spec_element_vec(), q.spec_element_vec()@, 0)
}

/// The head of a parenthesized shape `(head rest..)` of exact arity: `None`
/// inside for a PascalCase atom head, the text for a literal head.
pub open spec fn element_head_shape(e: PatternElement, arity: u64) -> Option<(u64, Option<Seq<char>>)> {
    match e {
        PatternElement::Atom(s) => if s.spec_case() == Some(AtomCase::PascalCase) && s.spec_sigil() is None {
            Some((arity, None))
        } else {
            None
        },
        PatternElement::Literal(v) => Some((arity, Some(v@))),
        _ => None,
    }
}

pub open spec fn delimited_head_shape(s: DelimitedShape) -> Option<(u64, Option<Seq<char>>)> {
    if s.spec_delimiter() == MacroDelimiter::Parenthesis {
        match s.spec_object_count() {
            MacroObjectCount::Exact(arity) => match s.spec_children() {
                Some(c) => if c.spec_elements().len() == 2 && c.spec_elements()[1] is Rest {
                    element_head_shape(c.spec_elements()[0], arity)
                } else {
                    None
                },
                None => None,
            },
            _ => None,
        }
    } else {
        None
    }
}

pub open spec fn pattern_head_shape(p: Pattern) -> Option<(u64, Option<Seq<char>>)> {
    if p.spec_elements().len() == 1 {
        match p.spec_elements()[0] {
            PatternElement::Delimited(s) => delimited_head_shape(s),
            _ => None,
        }
    } else {
        None
    }
}


/// The delimited-shape rule, over the shape's public parts: the block must
/// carry the shape's delimiter and object count; with a child pattern, the
/// inner objects must match it and its captures are added; the body is
/// captured last under the shape's capture name.
pub proof fn lemma_delimited_match_rule(
    s: DelimitedShape,
    b: BlockModel,
    acc: Map<Seq<char>, CaptureModel>,
)
    ensures
        delimited_match(s, b, acc) == if macro_delimiter_of(b) == Some(s.spec_delimiter())
            && count_matches(s.spec_object_count(), b.child_count() as int) {
            match s.spec_children() {
                Some(p) => match elements_match(p.spec_element_vec(), 0, b.children(), Map::empty()) {
                    Some(c) => Some(
                        with_capture(
                            acc.union_prefer_right(c),
                            s.spec_capture(),
                            CaptureModel::Body(b.children()),
                        ),
                    ),
                    None => None,
                },
                None => Some(with_capture(acc, s.spec_capture(), CaptureModel::Body(b.children()))),
            }
        } else {
            None
        },
{
}

/// A delimited shape honours its object count: one that asks for an even
/// number of inner objects accepts no block holding an odd number of them,
/// and one that asks for an exact number accepts only blocks holding exactly
/// that many. Without a child pattern, a block of the shape's delimiter
/// whose count is even is accepted by an even-count shape.
pub proof fn lemma_delimited_shape_honours_count(
    s: DelimitedShape,
    b: BlockModel,
    acc: Map<Seq<char>, CaptureModel>,
)
    ensures
        delimited_match(s, b, acc) is Some && s.spec_object_count() == MacroObjectCount::Even
            ==> b.child_count() % 2 == 0,
        delimited_match(s, b, acc) is Some ==> (s.spec_object_count() matches MacroObjectCount::Exact(
            e,
        ) ==> b.child_count() == e),
        macro_delimiter_of(b) == Some(s.spec_delimiter()) && s.spec_children() is None
            && s.spec_object_count() == MacroObjectCount::Even && b.child_count() % 2 == 0
            ==> delimited_match(s, b, acc) is Some,
{
    lemma_delimited_match_rule(s, b, acc);
}

/// Two delimited shapes accept the same blocks when their delimiters and
/// object counts agree and their child patterns, if any, have the same shape.
pub proof fn lemma_same_delimited_shape_rule(a: DelimitedShape, b: DelimitedShape)
    ensures
        same_delimited_shape(a, b) == (a.spec_delimiter() == b.spec_delimiter()
            && a.spec_object_count() == b.spec_object_count() && match a.spec_children() {
            Some(p) => match b.spec_children() {
                Some(q) => same_pattern_shape(p, q),
                None => false,
            },
            None => b.spec_children() is None,
        }),
{
}

/// Two delimited shapes are the same when delimiter, object count and capture
/// agree and their child patterns, if any, are the same.
pub proof fn lemma_same_delimited_rule(a: DelimitedShape, b: DelimitedShape)
    ensures
        same_delimited(a, b) == (a.spec_delimiter() == b.spec_delimiter() && a.spec_object_count()
            == b.spec_object_count() && a.spec_capture() == b.spec_capture()
            && match a.spec_children() {
            Some(p) => match b.spec_children() {
                Some(q) => same_pattern(p, q),
                None => false,
            },
            None => b.spec_children() is None,
        }),
{
}

/// A literal head text that a PascalCase head would also take.
pub open spec fn literal_matches_pascal_head(v: Seq<char>) -> bool {
    v.len() > 0 && spec_ascii_upper(v[0]) && !v.contains('-')
}

/// A PascalCase-headed shape hides a later literal-headed one of the same
/// arity whose literal reads as a PascalCase head.
pub open spec fn head_shadows(first: Option<(u64, Option<Seq<char>>)>, later: Option<(u64, Option<Seq<char>>)>) -> bool {
    match first {
        Some((a, None)) => match later {
            Some((b, Some(v))) => a == b && literal_matches_pascal_head(v),
            _ => false,
        },
        _ => false,
    }
}

/// An earlier pattern makes a later one unreachable without saying so.
pub open spec fn silently_shadows(p: Pattern, q: Pattern) -> bool {
    same_pattern_shape(p, q) || head_shadows(pattern_head_shape(p), pattern_head_shape(q))
}

fn literal_matches_pascal_head_text(value: &str) -> (r: bool)
    ensures
        r == literal_matches_pascal_head(value@),
{
    let t = chars_of(value);
    if t.len() == 0 {
        return false;
    }
    is_ascii_upper(t[0]) && !crate::chars::contains_char(&t, '-')
}

impl PatternElement {
    fn has_same_match_shape(&self, other: &PatternElement) -> (r: bool)
        ensures
            r == same_element_shape(*self, *other),
        decreases *self, 0int,
    {
        match (self, other) {
            (PatternElement::Any(_), PatternElement::Any(_)) => true,
            (PatternElement::Atom(left), PatternElement::Atom(right)) => left.has_same_match_shape(
                right,
            ),
            (PatternElement::Delimited(left), PatternElement::Delimited(right)) => left.has_same_match_shape(
                right,
            ),
            (PatternElement::Literal(left), PatternElement::Literal(right)) => *left == *right,
            (PatternElement::Rest(_), PatternElement::Rest(_)) => true,
            _ => false,
        }
    }

    fn parenthesized_head_shape(&self, arity: u64) -> (r: Option<(u64, Option<&str>)>)
        ensures
            element_head_shape(*self, arity) == match r {
                Some((a, Some(v))) => Some((a, Some(v@))),
                Some((a, None)) => Some((a, None)),
                None => None,
            },
    {
        match self {
            PatternElement::Atom(shape) => if shape.matches_pascal_head() {
                Some((arity, None))
            } else {
                None
            },
            PatternElement::Literal(value) => Some((arity, Some(value.as_str()))),
            _ => None,
        }
    }
}

/// The text-level view of a computed head shape.
pub open spec fn head_view(h: Option<(u64, Option<&str>)>) -> Option<(u64, Option<Seq<char>>)> {
    match h {
        Some((a, Some(v))) => Some((a, Some(v@))),
        Some((a, None)) => Some((a, None)),
        None => None,
    }
}

impl DelimitedShape {
    fn has_same_match_shape(&self, other: &DelimitedShape) -> (r: bool)
        ensures
            r == same_delimited_shape(*self, *other),
        decreases *self, 0int,
    {
        if self.delimiter != other.delimiter || self.object_count != other.object_count {
            return false;
        }
        match (&self.children, &other.children) {
            (Some(left), Some(right)) => left.has_same_match_shape(right),
            (None, None) => true,
            _ => false,
        }
    }

    fn parenthesized_head_shape(&self) -> (r: Option<(u64, Option<&str>)>)
        ensures
            head_view(r) == delimited_head_shape(*self),
    {
        if self.delimiter != MacroDelimiter::Parenthesis {
            return None;
        }
        let arity = match self.object_count {
            MacroObjectCount::Exact(arity) => arity,
            _ => {
                return None;
            },
        };
        match &self.children {
            Some(children) => {
                if children.elements.len() == 2 {
                    match &children.elements[1] {
                        PatternElement::Rest(_) => children.elements[0].parenthesized_head_shape(arity),
                        _ => None,
                    }
                } else {
                    None
                }
            },
            None => None,
        }
    }
}

impl Pattern {
    fn has_same_match_shape(&self, other: &Pattern) -> (r: bool)
        ensures
            r == same_pattern_shape(*self, *other),
        decreases *self, 1int,
    {
        if self.elements.len() != other.elements.len() {
            return false;
        }
        let mut i: usize = 0;
        while i < self.elements.len()
            invariant
                i <= self.elements.len(),
                self.elements.len() == other.elements.len(),
                same_pattern_shape(*self, *other) == same_elements_shape(
                    self.elements,
                    other.elements@,
                    i as int,
                ),
            decreases self.elements.len() - i,
        {
            if !self.elements[i].has_same_match_shape(&other.elements[i]) {
                return false;
            }
            i = i + 1;
        }
        true
    }

    fn parenthesized_head_shape(&self) -> (r: Option<(u64, Option<&str>)>)
        ensures
            head_view(r) == pattern_head_shape(*self),
    {
        if self.elements.len() == 1 {
            match &self.elements[0] {
                PatternElement::Delimited(shape) => shape.parenthesized_head_shape(),
                _ => None,
            }
        } else {
            None
        }
    }

    fn silently_shadows(&self, later: &Pattern) -> (r: bool)
        ensures
            r == silently_shadows(*self, *later),
    {
        if self.has_same_match_shape(later) {
            return true;
        }
        match self.parenthesized_head_shape() {
            Some((first, None)) => match later.parenthesized_head_shape() {
                Some((second, Some(value))) => first == second && literal_matches_pascal_head_text(
                    value,
                ),
                _ => false,
            },
            _ => false,
        }
    }
}

// ---------------------------------------------------------------------------
// Candidates and matches.

/// The shape names of a block sequence, space-separated.
pub open spec fn shapes_text(bs: Seq<BlockModel>) -> Seq<char> {
    joined(bs.map_values(|b: BlockModel| model_shape(b).spec_as_str()), " "@)
}

/// The blocks at one position that a variant set or registry is asked about.
#[derive(Clone, Debug)]
pub struct MacroCandidate<'block> {
    position: PositionPredicate,
    blocks: Vec<&'block Block>,
}

impl<'block> MacroCandidate<'block> {
    pub closed spec fn spec_position(&self) -> PositionPredicate {
        self.position
    }

    pub closed spec fn spec_blocks(&self) -> Seq<BlockModel> {
        ref_models(self.blocks@)
    }

    pub fn new(position: PositionPredicate, blocks: Vec<&'block Block>) -> (r: MacroCandidate<'block>)
        ensures
            r.spec_position() == position,
            r.spec_blocks() == ref_models(blocks@),
    {
        MacroCandidate { position, blocks }
    }

    pub fn from_block(position: PositionPredicate, block: &'block Block) -> (r: MacroCandidate<'block>)
        ensures
            r.spec_position() == position,
            r.spec_blocks() == seq![block@],
    {
        let mut blocks: Vec<&'block Block> = Vec::new();
        blocks.push(block);
        proof {
            assert(ref_models(blocks@) =~= seq![block@]);
        }
        Self::new(position, blocks)
    }

    pub fn from_pair(position: PositionPredicate, key: &'block Block, value: &'block Block) -> (r:
        MacroCandidate<'block>)
        ensures
            r.spec_position() == position,
            r.spec_blocks() == seq![key@, value@],
    {
        let mut blocks: Vec<&'block Block> = Vec::new();
        blocks.push(key);
        blocks.push(value);
        proof {
            assert(ref_models(blocks@) =~= seq![key@, value@]);
        }
        Self::new(position, blocks)
    }

    pub fn position(&self) -> (r: &PositionPredicate)
        ensures
            *r == self.spec_position(),
    {
        &self.position
    }

    pub fn blocks(&self) -> (r: &[&'block Block])
        ensures
            ref_models(r@) == self.spec_blocks(),
    {
        self.blocks.as_slice()
    }

    /// The structural shape of each block, space-separated.
    pub fn shape_description(&self) -> (r: String)
        ensures
            r@ == shapes_text(self.spec_blocks()),
    {
        let ghost bs = self.spec_blocks();
        let ghost names = bs.map_values(|b: BlockModel| model_shape(b).spec_as_str());
        let mut parts: Vec<String> = Vec::new();
        let mut i: usize = 0;
        while i < self.blocks.len()
            invariant
                i <= self.blocks.len(),
                bs == ref_models(self.blocks@),
                names == bs.map_values(|b: BlockModel| model_shape(b).spec_as_str()),
                string_views(parts@) == names.take(i as int),
            decreases self.blocks.len() - i,
        {
            let ghost before = parts@;
            let shape = self.blocks[i].structure_shape();
            parts.push(text_of(shape.as_str()));
            proof {
                assert(bs[i as int] == self.blocks@[i as int]@);
                assert(string_views(parts@) =~= string_views(before).push(names[i as int]));
                assert(string_views(parts@) =~= names.take(i + 1));
            }
            i = i + 1;
        }
        proof {
            assert(names.take(self.blocks@.len() as int) =~= names);
        }
        join_strings(&parts, " ")
    }
}

/// A successful dispatch: the name of the variant that matched and its
/// captures.
#[derive(Clone, Debug)]
pub struct MacroMatch<'block> {
    macro_name: String,
    captures: MacroCaptures<'block>,
}

impl<'block> MacroMatch<'block> {
    pub closed spec fn spec_macro_name(&self) -> Seq<char> {
        self.macro_name@
    }

    pub closed spec fn spec_captures(&self) -> Map<Seq<char>, CaptureModel> {
        self.captures@
    }

    pub fn new(macro_name: String, captures: MacroCaptures<'block>) -> (r: MacroMatch<'block>)
        ensures
            r.spec_macro_name() == macro_name@,
            r.spec_captures() == captures@,
    {
        MacroMatch { macro_name, captures }
    }

    pub fn macro_name(&self) -> (r: &str)
        ensures
            r@ == self.spec_macro_name(),
    {
        self.macro_name.as_str()
    }

    pub fn captures(&self) -> (r: &MacroCaptures<'block>)
        ensures
            r@ == self.spec_captures(),
    {
        &self.captures
    }

    pub fn capture(&self, name: &CaptureName) -> (r: Option<&CapturedValue<'block>>)
        ensures
            match r {
                Some(v) => self.spec_captures().contains_key(name@) && self.spec_captures()[name@]
                    == v@,
                None => !self.spec_captures().contains_key(name@),
            },
    {
        self.captures.get(name)
    }

    /// The block captured under `name`, when a single block was.
    pub fn block_capture(&self, name: &CaptureName) -> (r: Option<&'block Block>)
        ensures
            match r {
                Some(b) => self.spec_captures().contains_key(name@) && self.spec_captures()[name@]
                    == CaptureModel::Block(b@),
                None => !(self.spec_captures().contains_key(name@)
                    && self.spec_captures()[name@] is Block),
            },
    {
        match self.capture(name) {
            Some(v) => v.block(),
            None => None,
        }
    }

    /// The body captured under `name`, when a delimited block's inner
    /// objects were.
    pub fn body_capture(&self, name: &CaptureName) -> (r: Option<&DotosBody<'block>>)
        ensures
            match r {
                Some(b) => self.spec_captures().contains_key(name@) && self.spec_captures()[name@]
                    == CaptureModel::Body(b@),
                None => !(self.spec_captures().contains_key(name@)
                    && self.spec_captures()[name@] is Body),
            },
    {
        match self.capture(name) {
            Some(v) => v.body(),
            None => None,
        }
    }
}

// ---------------------------------------------------------------------------
// Variants, variant sets, registries.

/// A named pattern with the diagnostic text that says what it expects.
#[derive(Clone, Debug, PartialEq, Eq)]
pub struct StructuralVariant {
    name: String,
    pattern: Pattern,
    expected: String,
}

/// The names of variants, in order.
pub open spec fn variant_names(vs: Seq<StructuralVariant>) -> Seq<Seq<char>> {
    vs.map_values(|v: StructuralVariant| v.spec_name())
}

/// `name: expected` for each variant, in order.
pub open spec fn variant_expectations(vs: Seq<StructuralVariant>) -> Seq<Seq<char>> {
    vs.map_values(|v: StructuralVariant| v.spec_name() + ": "@ + v.spec_expected())
}

/// The captures of a variant over a block sequence, or `None`.
pub open spec fn variant_match(v: StructuralVariant, bs: Seq<BlockModel>) -> Option<
    Map<Seq<char>, CaptureModel>,
> {
    pattern_match(v.spec_pattern(), bs)
}

/// Variant `i` is the first that matches.
pub open spec fn first_variant_match(vs: Seq<StructuralVariant>, bs: Seq<BlockModel>, i: int) -> bool {
    0 <= i < vs.len() && variant_match(vs[i], bs) is Some && forall|j: int|
        0 <= j < i ==> variant_match(#[trigger] vs[j], bs) is None
}

/// Variant `i` hides the later variant `j`.
pub open spec fn variants_conflict(vs: Seq<StructuralVariant>, i: int, j: int) -> bool {
    silently_shadows(vs[i].spec_pattern(), vs[j].spec_pattern())
}

/// No variant hides a later one.
pub open spec fn variants_conflict_free(vs: Seq<StructuralVariant>) -> bool {
    forall|i: int, j: int| 0 <= i < j < vs.len() ==> !#[trigger] variants_conflict(vs, i, j)
}

/// `(i, j)` is the first hiding pair, ordered by `i` and then `j`.
pub open spec fn first_variant_conflict(vs: Seq<StructuralVariant>, i: int, j: int) -> bool {
    &&& 0 <= i < j < vs.len()
    &&& variants_conflict(vs, i, j)
    &&& forall|a: int, b: int| 0 <= a < i && a < b < vs.len() ==> !#[trigger] variants_conflict(vs, a, b)
    &&& forall|b: int| i < b < j ==> !#[trigger] variants_conflict(vs, i, b)
}

impl StructuralVariant {
    pub closed spec fn spec_name(&self) -> Seq<char> {
        self.name@
    }

    pub closed spec fn spec_pattern(&self) -> Pattern {
        self.pattern
    }

    pub closed spec fn spec_expected(&self) -> Seq<char> {
        self.expected@
    }

    pub fn new(name: &str, pattern: Pattern, expected: &str) -> (r: StructuralVariant)
        ensures
            r.spec_name() == name@,
            r.spec_pattern() == pattern,
            r.spec_expected() == expected@,
    {
        StructuralVariant { name: text_of(name), pattern, expected: text_of(expected) }
    }

    pub fn from_shape(name: &str, shape: BlockShape, expected: &str) -> (r: StructuralVariant)
        ensures
            r.spec_name() == name@,
            r.spec_pattern().spec_elements() == seq![shape_element(shape)],
            r.spec_expected() == expected@,
    {
        shape.into_structural_variant(name, expected)
    }

    pub fn from_macro_node(node: MacroNodeDefinition) -> (r: StructuralVariant)
        ensures
            r.spec_name() == node.spec_name(),
            r.spec_pattern() == node.spec_pattern(),
            r.spec_expected() == node.spec_expected(),
    {
        StructuralVariant { name: node.name, pattern: node.pattern, expected: node.expected }
    }

    pub fn name(&self) -> (r: &str)
        ensures
            r@ == self.spec_name(),
    {
        self.name.as_str()
    }

    pub fn pattern(&self) -> (r: &Pattern)
        ensures
            *r == self.spec_pattern(),
    {
        &self.pattern
    }

    pub fn expected(&self) -> (r: &str)
        ensures
            r@ == self.spec_expected(),
    {
        self.expected.as_str()
    }

    pub fn into_macro_node(self, position: PositionPredicate) -> (r: MacroNodeDefinition)
        ensures
            r.spec_name() == self.spec_name(),
            r.spec_position() == position,
            r.spec_pattern() == self.spec_pattern(),
            r.spec_expected() == self.spec_expected(),
    {
        MacroNodeDefinition {
            name: self.name,
            position,
            pattern: self.pattern,
            expected: self.expected,
        }
    }

    /// This variant's match over `blocks`, named after the variant.
    pub fn matches<'block>(&self, blocks: &[&'block Block]) -> (r: Option<MacroMatch<'block>>)
        ensures
            match variant_match(*self, ref_models(blocks@)) {
                Some(m) => r matches Some(x) && x.spec_macro_name() == self.spec_name()
                    && x.spec_captures() == m,
                None => r is None,
            },
    {
        match self.pattern.matches(blocks) {
            Some(captures) => Some(MacroMatch::new(self.name.clone(), captures)),
            None => None,
        }
    }

    /// `name: expected`, as dispatch diagnostics list it.
    fn expectation(&self) -> (r: String)
        ensures
            r@ == self.name@ + ": "@ + self.expected@,
    {
        let mut s = self.name.clone();
        push_str(&mut s, ": ");
        push_str(&mut s, self.expected.as_str());
        s
    }
}

/// A position-scoped structural variant, for ordered registries.
#[derive(Clone, Debug, PartialEq, Eq)]
pub struct MacroNodeDefinition {
    name: String,
    position: PositionPredicate,
    pattern: Pattern,
    expected: String,
}

impl MacroNodeDefinition {
    pub closed spec fn spec_name(&self) -> Seq<char> {
        self.name@
    }

    pub closed spec fn spec_position(&self) -> PositionPredicate {
        self.position
    }

    pub closed spec fn spec_pattern(&self) -> Pattern {
        self.pattern
    }

    pub closed spec fn spec_expected(&self) -> Seq<char> {
        self.expected@
    }

    pub fn new(name: &str, position: PositionPredicate, pattern: Pattern, expected: &str) -> (r:
        MacroNodeDefinition)
        ensures
            r.spec_name() == name@,
            r.spec_position() == position,
            r.spec_pattern() == pattern,
            r.spec_expected() == expected@,
    {
        MacroNodeDefinition { name: text_of(name), position, pattern, expected: text_of(expected) }
    }

    pub fn name(&self) -> (r: &str)
        ensures
            r@ == self.spec_name(),
    {
        self.name.as_str()
    }

    pub fn position(&self) -> (r: &PositionPredicate)
        ensures
            *r == self.spec_position(),
    {
        &self.position
    }

    pub fn pattern(&self) -> (r: &Pattern)
        ensures
            *r == self.spec_pattern(),
    {
        &self.pattern
    }

    pub fn expected(&self) -> (r: &str)
        ensures
            r@ == self.spec_expected(),
    {
        self.expected.as_str()
    }
}

/// An ordered set of variants at one position.
#[derive(Clone, Debug)]
pub struct StructuralVariantSet {
    position: PositionPredicate,
    variants: Vec<StructuralVariant>,
}

/// The dispatch failure a variant set reports for a candidate.
pub open spec fn variant_no_match(
    e: StructuralVariantError,
    position: PositionPredicate,
    vs: Seq<StructuralVariant>,
    candidate_position: PositionPredicate,
    bs: Seq<BlockModel>,
) -> bool {
    let same = same_position(position, candidate_position);
    e matches StructuralVariantError::NoMatch { position: p, tried, expected, found } && p@
        == spec_describe(candidate_position) && string_views(tried@) == (if same {
        variant_names(vs)
    } else {
        Seq::empty()
    }) && string_views(expected@) == (if same {
        variant_expectations(vs)
    } else {
        Seq::empty()
    }) && found@ == shapes_text(bs)
}

/// The conflict a variant set reports: the first hiding pair, by name.
pub open spec fn variant_conflict_reported(e: StructuralVariantError, vs: Seq<StructuralVariant>) -> bool {
    e matches StructuralVariantError::Conflict(c) && exists|i: int, j: int|
        first_variant_conflict(vs, i, j) && c.spec_first() == vs[i].spec_name() && c.spec_second() == vs[j].spec_name()
}

impl StructuralVariantSet {
    pub closed spec fn spec_position(&self) -> PositionPredicate {
        self.position
    }

    pub closed spec fn spec_variants(&self) -> Seq<StructuralVariant> {
        self.variants@
    }

    /// A set whose variants are checked for silent conflicts first.
    pub fn new(position: PositionPredicate, variants: Vec<StructuralVariant>) -> (r: Result<
        StructuralVariantSet,
        StructuralVariantError,
    >)
        ensures
            match r {
                Ok(set) => set.spec_position() == position && set.spec_variants() == variants@
                    && variants_conflict_free(variants@),
                Err(e) => variant_conflict_reported(e, variants@),
            },
            (exists|i: int, j: int|
                0 <= i < j < variants@.len() && same_pattern_shape(
                    #[trigger] variants@[i].spec_pattern(),
                    #[trigger] variants@[j].spec_pattern(),
                )) ==> r is Err,
    {
        let set = StructuralVariantSet { position, variants };
        match set.validate_no_silent_conflicts() {
            Ok(()) => {
                proof {
                    let vs = set.variants@;
                    if exists|i: int, j: int|
                        0 <= i < j < vs.len() && same_pattern_shape(
                            #[trigger] vs[i].spec_pattern(),
                            #[trigger] vs[j].spec_pattern(),
                        ) {
                        let (i, j) = choose|i: int, j: int|
                            0 <= i < j < vs.len() && same_pattern_shape(
                                #[trigger] vs[i].spec_pattern(),
                                #[trigger] vs[j].spec_pattern(),
                            );
                        lemma_same_shape_variants_conflict(vs, i, j);
                    }
                }
                Ok(set)
            },
            Err(e) => Err(e),
        }
    }

    pub fn unchecked(position: PositionPredicate, variants: Vec<StructuralVariant>) -> (r:
        StructuralVariantSet)
        ensures
            r.spec_position() == position,
            r.spec_variants() == variants@,
    {
        StructuralVariantSet { position, variants }
    }

    pub fn position(&self) -> (r: &PositionPredicate)
        ensures
            *r == self.spec_position(),
    {
        &self.position
    }

    pub fn variants(&self) -> (r: &[StructuralVariant])
        ensures
            r@ == self.spec_variants(),
    {
        self.variants.as_slice()
    }

    /// The first variant, in order, that matches the candidate; at another
    /// position than the set's, none is tried.
    pub fn dispatch<'block>(&self, candidate: &MacroCandidate<'block>) -> (r: Result<
        MacroMatch<'block>,
        StructuralVariantError,
    >)
        ensures
            match r {
                Ok(m) => same_position(self.spec_position(), candidate.spec_position()) && exists|
                    i: int,
                |
                    first_variant_match(self.spec_variants(), candidate.spec_blocks(), i)
                        && m.spec_macro_name() == self.spec_variants()[i].spec_name()
                        && m.spec_captures() == variant_match(
                        self.spec_variants()[i],
                        candidate.spec_blocks(),
                    )->0,
                Err(e) => (same_position(self.spec_position(), candidate.spec_position())
                    ==> forall|i: int|
                    0 <= i < self.spec_variants().len() ==> variant_match(
                        #[trigger] self.spec_variants()[i],
                        candidate.spec_blocks(),
                    ) is None) && variant_no_match(
                    e,
                    self.spec_position(),
                    self.spec_variants(),
                    candidate.spec_position(),
                    candidate.spec_blocks(),
                ),
            },
    {
        let ghost vs = self.variants@;
        let ghost bs = candidate.spec_blocks();
        let mut tried: Vec<String> = Vec::new();
        let mut expected: Vec<String> = Vec::new();
        let same = self.position.same_as(candidate.position());
        if same {
            let mut i: usize = 0;
            while i < self.variants.len()
                invariant
                    i <= self.variants.len(),
                    vs == self.variants@,
                    bs == candidate.spec_blocks(),
                    string_views(tried@) == variant_names(vs).take(i as int),
                    string_views(expected@) == variant_expectations(vs).take(i as int),
                    same_position(self.position, candidate.spec_position()),
                    forall|j: int| 0 <= j < i ==> variant_match(#[trigger] vs[j], bs) is None,
                decreases self.variants.len() - i,
            {
                let variant = &self.variants[i];
                let ghost tried_before = tried@;
                let ghost expected_before = expected@;
                tried.push(variant.name.clone());
                expected.push(variant.expectation());
                proof {
                    assert(string_views(tried@) =~= string_views(tried_before).push(vs[i as int].name@));
                    assert(string_views(tried@) =~= variant_names(vs).take(i + 1));
                    assert(string_views(expected@) =~= string_views(expected_before).push(
                        vs[i as int].name@ + ": "@ + vs[i as int].expected@,
                    ));
                    assert(string_views(expected@) =~= variant_expectations(vs).take(i + 1));
                }
                match variant.matches(candidate.blocks()) {
                    Some(matched) => {
                        proof {
                            assert(first_variant_match(vs, bs, i as int));
                        }
                        return Ok(matched);
                    },
                    None => {},
                }
                i = i + 1;
            }
            proof {
                assert(variant_names(vs).take(vs.len() as int) =~= variant_names(vs));
                assert(variant_expectations(vs).take(vs.len() as int) =~= variant_expectations(vs));
            }
        } else {
            proof {
                assert(string_views(tried@) =~= Seq::<Seq<char>>::empty());
                assert(string_views(expected@) =~= Seq::<Seq<char>>::empty());
            }
        }
        Err(
            StructuralVariantError::NoMatch {
                position: candidate.position().describe(),
                tried,
                expected,
                found: candidate.shape_description(),
            },
        )
    }

    /// The first pair, by the earlier and then the later variant, whose
    /// earlier pattern hides the later one.
    pub fn validate_no_silent_conflicts(&self) -> (r: Result<(), StructuralVariantError>)
        ensures
            match r {
                Ok(()) => variants_conflict_free(self.spec_variants()),
                Err(e) => variant_conflict_reported(e, self.spec_variants()),
            },
    {
        let ghost vs = self.variants@;
        let n = self.variants.len();
        let mut i: usize = 0;
        while i < n
            invariant
                i <= n,
                n == vs.len(),
                vs == self.variants@,
                forall|a: int, b: int| 0 <= a < i && a < b < n ==> !#[trigger] variants_conflict(vs, a, b),
            decreases n - i,
        {
            let mut j: usize = i + 1;
            while j < n
                invariant
                    i < n,
                    i + 1 <= j <= n,
                    n == vs.len(),
                    vs == self.variants@,
                    forall|a: int, b: int| 0 <= a < i && a < b < n ==> !#[trigger] variants_conflict(vs, a, b),
                    forall|b: int| i < b < j ==> !#[trigger] variants_conflict(vs, i as int, b),
                decreases n - j,
            {
                if self.variants[i].pattern.silently_shadows(&self.variants[j].pattern) {
                    proof {
                        assert(first_variant_conflict(vs, i as int, j as int));
                    }
                    return Err(
                        StructuralVariantError::Conflict(
                            StructuralVariantConflict::new(
                                self.variants[i].name.clone(),
                                self.variants[j].name.clone(),
                            ),
                        ),
                    );
                }
                j = j + 1;
            }
            i = i + 1;
        }
        Ok(())
    }
}

/// The nodes standing at a position, in order.
pub open spec fn positioned(ns: Seq<MacroNodeDefinition>, p: PositionPredicate) -> Seq<MacroNodeDefinition>
    decreases ns.len(),
{
    if ns.len() == 0 {
        Seq::empty()
    } else if same_position(ns.last().spec_position(), p) {
        positioned(ns.drop_last(), p).push(ns.last())
    } else {
        positioned(ns.drop_last(), p)
    }
}

pub open spec fn node_names(ns: Seq<MacroNodeDefinition>) -> Seq<Seq<char>> {
    ns.map_values(|n: MacroNodeDefinition| n.spec_name())
}

pub open spec fn node_expectations(ns: Seq<MacroNodeDefinition>) -> Seq<Seq<char>> {
    ns.map_values(|n: MacroNodeDefinition| n.spec_name() + ": "@ + n.spec_expected())
}

/// Node `n` stands at the position and matches the blocks.
pub open spec fn node_match(
    n: MacroNodeDefinition,
    p: PositionPredicate,
    bs: Seq<BlockModel>,
) -> Option<Map<Seq<char>, CaptureModel>> {
    if same_position(n.spec_position(), p) {
        pattern_match(n.spec_pattern(), bs)
    } else {
        None
    }
}

/// Node `i` is the first at the position that matches.
pub open spec fn first_node_match(
    ns: Seq<MacroNodeDefinition>,
    p: PositionPredicate,
    bs: Seq<BlockModel>,
    i: int,
) -> bool {
    0 <= i < ns.len() && node_match(ns[i], p, bs) is Some && forall|j: int|
        0 <= j < i ==> node_match(#[trigger] ns[j], p, bs) is None
}

/// Node `i` hides the later node `j`: same position, hiding pattern.
pub open spec fn nodes_conflict(ns: Seq<MacroNodeDefinition>, i: int, j: int) -> bool {
    same_position(ns[i].spec_position(), ns[j].spec_position()) && silently_shadows(ns[i].spec_pattern(), ns[j].spec_pattern())
}

pub open spec fn nodes_conflict_free(ns: Seq<MacroNodeDefinition>) -> bool {
    forall|i: int, j: int| 0 <= i < j < ns.len() ==> !#[trigger] nodes_conflict(ns, i, j)
}

pub open spec fn first_node_conflict(ns: Seq<MacroNodeDefinition>, i: int, j: int) -> bool {
    &&& 0 <= i < j < ns.len()
    &&& nodes_conflict(ns, i, j)
    &&& forall|a: int, b: int| 0 <= a < i && a < b < ns.len() ==> !#[trigger] nodes_conflict(ns, a, b)
    &&& forall|b: int| i < b < j ==> !#[trigger] nodes_conflict(ns, i, b)
}

pub open spec fn node_conflict_reported(e: StructuralVariantError, ns: Seq<MacroNodeDefinition>) -> bool {
    e matches StructuralVariantError::Conflict(c) && exists|i: int, j: int|
        first_node_conflict(ns, i, j) && c.spec_first() == ns[i].spec_name() && c.spec_second() == ns[j].spec_name()
}

/// Ordered, position-scoped dispatch over node definitions.
#[derive(Clone, Debug)]
pub struct MacroRegistry {
    nodes: Vec<MacroNodeDefinition>,
}

impl MacroRegistry {
    pub closed spec fn spec_nodes(&self) -> Seq<MacroNodeDefinition> {
        self.nodes@
    }

    pub fn new(nodes: Vec<MacroNodeDefinition>) -> (r: Result<MacroRegistry, StructuralVariantError>)
        ensures
            match r {
                Ok(registry) => registry.spec_nodes() == nodes@ && nodes_conflict_free(nodes@),
                Err(e) => node_conflict_reported(e, nodes@),
            },
            (exists|i: int, j: int|
                0 <= i < j < nodes@.len() && same_position(
                    #[trigger] nodes@[i].spec_position(),
                    #[trigger] nodes@[j].spec_position(),
                ) && same_pattern_shape(nodes@[i].spec_pattern(), nodes@[j].spec_pattern())) ==> r is Err,
    {
        let registry = MacroRegistry { nodes };
        match registry.validate_no_silent_conflicts() {
            Ok(()) => {
                proof {
                    let ns = registry.nodes@;
                    if exists|i: int, j: int|
                        0 <= i < j < ns.len() && same_position(
                            #[trigger] ns[i].spec_position(),
                            #[trigger] ns[j].spec_position(),
                        ) && same_pattern_shape(ns[i].spec_pattern(), ns[j].spec_pattern()) {
                        let (i, j) = choose|i: int, j: int|
                            0 <= i < j < ns.len() && same_position(
                                #[trigger] ns[i].spec_position(),
                                #[trigger] ns[j].spec_position(),
                            ) && same_pattern_shape(ns[i].spec_pattern(), ns[j].spec_pattern());
                        lemma_same_shape_nodes_conflict(ns, i, j);
                    }
                }
                Ok(registry)
            },
            Err(e) => Err(e),
        }
    }

    pub fn unchecked(nodes: Vec<MacroNodeDefinition>) -> (r: MacroRegistry)
        ensures
            r.spec_nodes() == nodes@,
    {
        MacroRegistry { nodes }
    }

    pub fn nodes(&self) -> (r: &[MacroNodeDefinition])
        ensures
            r@ == self.spec_nodes(),
    {
        self.nodes.as_slice()
    }

    /// The first node, in order, that stands at the candidate's position and
    /// matches its blocks.
    pub fn dispatch<'block>(&self, candidate: &MacroCandidate<'block>) -> (r: Result<
        MacroMatch<'block>,
        MacroError,
    >)
        ensures
            match r {
                Ok(m) => exists|i: int|
                    first_node_match(self.spec_nodes(), candidate.spec_position(), candidate.spec_blocks(), i)
                        && m.spec_macro_name() == self.spec_nodes()[i].spec_name()
                        && m.spec_captures() == node_match(
                        self.spec_nodes()[i],
                        candidate.spec_position(),
                        candidate.spec_blocks(),
                    )->0,
                Err(e) => (forall|i: int|
                    0 <= i < self.spec_nodes().len() ==> node_match(
                        #[trigger] self.spec_nodes()[i],
                        candidate.spec_position(),
                        candidate.spec_blocks(),
                    ) is None) && (e matches MacroError::NoMatch { position, tried, expected, found }
                    && position@ == spec_describe(candidate.spec_position()) && string_views(tried@)
                    == node_names(positioned(self.spec_nodes(), candidate.spec_position()))
                    && string_views(expected@) == node_expectations(
                    positioned(self.spec_nodes(), candidate.spec_position()),
                ) && found@ == shapes_text(candidate.spec_blocks())),
            },
    {
        let ghost ns = self.nodes@;
        let ghost p = candidate.spec_position();
        let ghost bs = candidate.spec_blocks();
        let mut tried: Vec<String> = Vec::new();
        let mut expected: Vec<String> = Vec::new();
        let mut i: usize = 0;
        while i < self.nodes.len()
            invariant
                i <= self.nodes.len(),
                ns == self.nodes@,
                p == candidate.spec_position(),
                bs == candidate.spec_blocks(),
                string_views(tried@) == node_names(positioned(ns.take(i as int), p)),
                string_views(expected@) == node_expectations(positioned(ns.take(i as int), p)),
                forall|j: int| 0 <= j < i ==> node_match(#[trigger] ns[j], p, bs) is None,
            decreases self.nodes.len() - i,
        {
            let node = &self.nodes[i];
            proof {
                assert(ns.take(i + 1).drop_last() =~= ns.take(i as int));
                assert(ns.take(i + 1).last() == ns[i as int]);
            }
            if node.position.same_as(candidate.position()) {
                let ghost tried_before = tried@;
                let ghost expected_before = expected@;
                tried.push(node.name.clone());
                let mut line = node.name.clone();
                push_str(&mut line, ": ");
                push_str(&mut line, node.expected.as_str());
                expected.push(line);
                proof {
                    let q = positioned(ns.take(i as int), p);
                    assert(positioned(ns.take(i + 1), p) == q.push(ns[i as int]));
                    assert(string_views(tried@) =~= string_views(tried_before).push(ns[i as int].name@));
                    assert(node_names(q.push(ns[i as int])) =~= node_names(q).push(ns[i as int].name@));
                    assert(string_views(expected@) =~= string_views(expected_before).push(
                        ns[i as int].name@ + ": "@ + ns[i as int].expected@,
                    ));
                    assert(node_expectations(q.push(ns[i as int])) =~= node_expectations(q).push(
                        ns[i as int].name@ + ": "@ + ns[i as int].expected@,
                    ));
                }
                match node.pattern.matches(candidate.blocks()) {
                    Some(captures) => {
                        proof {
                            assert(first_node_match(ns, p, bs, i as int));
                        }
                        return Ok(MacroMatch::new(node.name.clone(), captures));
                    },
                    None => {},
                }
            }
            i = i + 1;
        }
        proof {
            assert(ns.take(ns.len() as int) =~= ns);
        }
        Err(
            MacroError::NoMatch {
                position: candidate.position().describe(),
                tried,
                expected,
                found: candidate.shape_description(),
            },
        )
    }

    /// The first pair of nodes at one position, by the earlier and then the
    /// later node, whose earlier pattern hides the later one.
    pub fn validate_no_silent_conflicts(&self) -> (r: Result<(), StructuralVariantError>)
        ensures
            match r {
                Ok(()) => nodes_conflict_free(self.spec_nodes()),
                Err(e) => node_conflict_reported(e, self.spec_nodes()),
            },
    {
        let ghost ns = self.nodes@;
        let n = self.nodes.len();
        let mut i: usize = 0;
        while i < n
            invariant
                i <= n,
                n == ns.len(),
                ns == self.nodes@,
                forall|a: int, b: int| 0 <= a < i && a < b < n ==> !#[trigger] nodes_conflict(ns, a, b),
            decreases n - i,
        {
            let mut j: usize = i + 1;
            while j < n
                invariant
                    i < n,
                    i + 1 <= j <= n,
                    n == ns.len(),
                    ns == self.nodes@,
                    forall|a: int, b: int| 0 <= a < i && a < b < n ==> !#[trigger] nodes_conflict(ns, a, b),
                    forall|b: int| i < b < j ==> !#[trigger] nodes_conflict(ns, i as int, b),
                decreases n - j,
            {
                let first = &self.nodes[i];
                let second = &self.nodes[j];
                if first.position.same_as(&second.position) && first.pattern.silently_shadows(
                    &second.pattern,
                ) {
                    proof {
                        assert(first_node_conflict(ns, i as int, j as int));
                    }
                    return Err(
                        StructuralVariantError::Conflict(
                            StructuralVariantConflict::new(first.name.clone(), second.name.clone()),
                        ),
                    );
                }
                j = j + 1;
            }
            i = i + 1;
        }
        Ok(())
    }
}

// ---------------------------------------------------------------------------
// Errors.

/// Two variants, the earlier of which hides the later.
#[derive(Clone, Debug, PartialEq, Eq)]
pub struct StructuralVariantConflict {
    first: String,
    second: String,
}

impl StructuralVariantConflict {
    pub closed spec fn spec_first(&self) -> Seq<char> {
        self.first@
    }

    pub closed spec fn spec_second(&self) -> Seq<char> {
        self.second@
    }

    pub fn new(first: String, second: String) -> (r: StructuralVariantConflict)
        ensures
            r.spec_first() == first@,
            r.spec_second() == second@,
    {
        StructuralVariantConflict { first, second }
    }

    pub fn first(&self) -> (r: &str)
        ensures
            r@ == self.spec_first(),
    {
        self.first.as_str()
    }

    pub fn second(&self) -> (r: &str)
        ensures
            r@ == self.spec_second(),
    {
        self.second.as_str()
    }
}

pub type MacroConflict = StructuralVariantConflict;

/// A failed structural dispatch.
#[derive(Clone, Debug, PartialEq, Eq)]
pub enum StructuralVariantError {
    NoMatch { position: String, tried: Vec<String>, expected: Vec<String>, found: String },
    Conflict(StructuralVariantConflict),
}

/// A failed registry dispatch.
#[derive(Clone, Debug, PartialEq, Eq)]
pub enum MacroError {
    NoMatch { position: String, tried: Vec<String>, expected: Vec<String>, found: String },
    Conflict(MacroConflict),
}

/// `<lead> <position>; tried [..]; expected [..]; found <found>`.
pub open spec fn no_match_text(
    lead: Seq<char>,
    position: Seq<char>,
    tried: Seq<Seq<char>>,
    expected: Seq<Seq<char>>,
    found: Seq<char>,
) -> Seq<char> {
    lead + position + "; tried ["@ + joined(tried, ", "@) + "]; expected ["@ + joined(expected, ", "@)
        + "]; found "@ + found
}

fn no_match_message(lead: &str, position: &String, tried: &Vec<String>, expected: &Vec<String>, found: &String) -> (r: String)
    ensures
        r@ == no_match_text(lead@, position@, string_views(tried@), string_views(expected@), found@),
{
    let mut s = text_of(lead);
    push_str(&mut s, position.as_str());
    push_str(&mut s, "; tried [");
    push_str(&mut s, join_strings(tried, ", ").as_str());
    push_str(&mut s, "]; expected [");
    push_str(&mut s, join_strings(expected, ", ").as_str());
    push_str(&mut s, "]; found ");
    push_str(&mut s, found.as_str());
    s
}

fn conflict_message(lead: &str, conflict: &StructuralVariantConflict) -> (r: String)
    ensures
        r@ == lead@ + conflict.spec_first() + " and "@ + conflict.spec_second(),
{
    let mut s = text_of(lead);
    push_str(&mut s, conflict.first());
    push_str(&mut s, " and ");
    push_str(&mut s, conflict.second());
    s
}

impl StructuralVariantError {
    pub open spec fn spec_message(&self) -> Seq<char> {
        match self {
            StructuralVariantError::NoMatch { position, tried, expected, found } => no_match_text(
                "no structural variant matched at "@,
                position@,
                string_views(tried@),
                string_views(expected@),
                found@,
            ),
            StructuralVariantError::Conflict(c) => "structural variant conflict between "@
                + c.spec_first() + " and "@ + c.spec_second(),
        }
    }

    pub fn message(&self) -> (r: String)
        ensures
            r@ == self.spec_message(),
    {
        match self {
            StructuralVariantError::NoMatch { position, tried, expected, found } => no_match_message(
                "no structural variant matched at ",
                position,
                tried,
                expected,
                found,
            ),
            StructuralVariantError::Conflict(c) => conflict_message(
                "structural variant conflict between ",
                c,
            ),
        }
    }
}

impl MacroError {
    pub open spec fn spec_message(&self) -> Seq<char> {
        match self {
            MacroError::NoMatch { position, tried, expected, found } => no_match_text(
                "no macro matched at "@,
                position@,
                string_views(tried@),
                string_views(expected@),
                found@,
            ),
            MacroError::Conflict(c) => "macro registry conflict between "@ + c.spec_first()
                + " and "@ + c.spec_second(),
        }
    }

    pub fn message(&self) -> (r: String)
        ensures
            r@ == self.spec_message(),
    {
        match self {
            MacroError::NoMatch { position, tried, expected, found } => no_match_message(
                "no macro matched at ",
                position,
                tried,
                expected,
                found,
            ),
            MacroError::Conflict(c) => conflict_message("macro registry conflict between ", c),
        }
    }
}

// ---------------------------------------------------------------------------
// Block shapes: one block's expected shape, as a pattern, variant or node.

#[derive(Debug, PartialEq, Eq)]
pub enum BlockShape {
    Any(Option<CaptureName>),
    Atom(AtomShape),
    Delimited(DelimitedShape),
    Literal(String),
}

/// The same shape, a delimited one compared as `same_delimited` does.
pub open spec fn same_block_shape(a: BlockShape, b: BlockShape) -> bool {
    match a {
        BlockShape::Delimited(x) => match b {
            BlockShape::Delimited(y) => same_delimited(x, y),
            _ => false,
        },
        _ => a == b,
    }
}

impl Clone for BlockShape {
    fn clone(&self) -> (r: Self)
        ensures
            same_block_shape(r, *self),
    {
        match self {
            BlockShape::Any(c) => BlockShape::Any(clone_capture(c)),
            BlockShape::Atom(s) => BlockShape::Atom(s.clone()),
            BlockShape::Delimited(s) => BlockShape::Delimited(s.duplicate()),
            BlockShape::Literal(v) => BlockShape::Literal(v.clone()),
        }
    }
}

/// The pattern element a block shape stands for.
pub open spec fn shape_element(s: BlockShape) -> PatternElement {
    match s {
        BlockShape::Any(c) => PatternElement::Any(c),
        BlockShape::Atom(a) => PatternElement::Atom(a),
        BlockShape::Delimited(d) => PatternElement::Delimited(d),
        BlockShape::Literal(v) => PatternElement::Literal(v),
    }
}

/// A parenthesis of `count` objects whose first object fits `head` and whose
/// other objects are captured as `arguments`.
pub open spec fn headed_parenthesis_shape(
    r: BlockShape,
    head: PatternElement,
    count: MacroObjectCount,
    capture: Option<CaptureName>,
) -> bool {
    match r {
        BlockShape::Delimited(d) => d.spec_delimiter() == MacroDelimiter::Parenthesis && d.spec_object_count()
            == count && d.spec_capture() == capture && match d.spec_children() {
            Some(p) => p.spec_elements().len() == 2 && p.spec_elements()[0] == head && match p.spec_elements()[1] {
                PatternElement::Rest(n) => n@ == "arguments"@,
                _ => false,
            },
            None => false,
        },
        _ => false,
    }
}

impl BlockShape {
    pub fn any(capture: Option<CaptureName>) -> (r: BlockShape)
        ensures
            r == BlockShape::Any(capture),
    {
        BlockShape::Any(capture)
    }

    pub fn atom(case: Option<AtomCase>, sigil: Option<SigilSpec>, capture: Option<CaptureName>) -> (r:
        BlockShape)
        ensures
            r matches BlockShape::Atom(a) && a.spec_case() == case && a.spec_sigil() == sigil
                && a.spec_capture() == capture,
    {
        BlockShape::Atom(AtomShape::new(case, sigil, capture))
    }

    pub fn symbol(capture: Option<CaptureName>) -> (r: BlockShape)
        ensures
            r matches BlockShape::Atom(a) && a.spec_case() == Some(AtomCase::Symbol)
                && a.spec_sigil() is None && a.spec_capture() == capture,
    {
        Self::atom(Some(AtomCase::Symbol), None, capture)
    }

    pub fn pascal_atom(capture: Option<CaptureName>) -> (r: BlockShape)
        ensures
            r matches BlockShape::Atom(a) && a.spec_case() == Some(AtomCase::PascalCase)
                && a.spec_sigil() is None && a.spec_capture() == capture,
    {
        Self::atom(Some(AtomCase::PascalCase), None, capture)
    }

    pub fn camel_atom(capture: Option<CaptureName>) -> (r: BlockShape)
        ensures
            r matches BlockShape::Atom(a) && a.spec_case() == Some(AtomCase::CamelCase)
                && a.spec_sigil() is None && a.spec_capture() == capture,
    {
        Self::atom(Some(AtomCase::CamelCase), None, capture)
    }

    pub fn literal(value: &str) -> (r: BlockShape)
        ensures
            r matches BlockShape::Literal(v) && v@ == value@,
    {
        BlockShape::Literal(text_of(value))
    }

    pub fn delimited(delimiter: MacroDelimiter, object_count: MacroObjectCount, capture: Option<CaptureName>) -> (r:
        BlockShape)
        ensures
            r matches BlockShape::Delimited(d) && d.spec_delimiter() == delimiter
                && d.spec_object_count() == object_count && d.spec_capture() == capture
                && d.spec_children() is None,
    {
        BlockShape::Delimited(DelimitedShape::new(delimiter, object_count, capture))
    }

    /// `(head argument..)`: a parenthesis of `object_count` objects led by the
    /// literal `head`.
    pub fn headed_parenthesis(head: &str, object_count: MacroObjectCount, capture: Option<CaptureName>) -> (r:
        BlockShape)
        ensures
            exists|v: String|
                v@ == head@ && headed_parenthesis_shape(
                    r,
                    PatternElement::Literal(v),
                    object_count,
                    capture,
                ),
    {
        let mut elements: Vec<PatternElement> = Vec::new();
        elements.push(PatternElement::literal(head));
        elements.push(PatternElement::rest(CaptureName::new("arguments")));
        let r = Self::delimited(MacroDelimiter::Parenthesis, object_count, capture).with_children(
            Pattern::new(elements),
        );
        proof {
            let v = elements@[0]->Literal_0;
            assert(headed_parenthesis_shape(r, PatternElement::Literal(v), object_count, capture));
        }
        r
    }

    /// `(Head argument..)`: a parenthesis of `object_count` objects led by a
    /// PascalCase atom captured as `head_capture`.
    pub fn pascal_headed_parenthesis(
        object_count: MacroObjectCount,
        head_capture: CaptureName,
        body_capture: Option<CaptureName>,
    ) -> (r: BlockShape)
        ensures
            exists|a: AtomShape|
                a.spec_case() == Some(AtomCase::PascalCase) && a.spec_sigil() is None
                    && a.spec_capture() == Some(head_capture) && headed_parenthesis_shape(
                    r,
                    PatternElement::Atom(a),
                    object_count,
                    body_capture,
                ),
    {
        let mut elements: Vec<PatternElement> = Vec::new();
        elements.push(PatternElement::atom(AtomShape::pascal_case(Some(head_capture))));
        elements.push(PatternElement::rest(CaptureName::new("arguments")));
        let r = Self::delimited(MacroDelimiter::Parenthesis, object_count, body_capture).with_children(
            Pattern::new(elements),
        );
        proof {
            let a = elements@[0]->Atom_0;
            assert(headed_parenthesis_shape(r, PatternElement::Atom(a), object_count, body_capture));
        }
        r
    }

    /// A delimited shape with a pattern over its inner objects; other shapes
    /// are returned as they are.
    pub fn with_children(self, children: Pattern) -> (r: BlockShape)
        ensures
            match self {
                BlockShape::Delimited(d) => r matches BlockShape::Delimited(e) && e.spec_delimiter()
                    == d.spec_delimiter() && e.spec_object_count() == d.spec_object_count()
                    && e.spec_capture() == d.spec_capture() && e.spec_children() == Some(children),
                _ => r == self,
            },
    {
        match self {
            BlockShape::Delimited(shape) => BlockShape::Delimited(shape.with_children(children)),
            other => other,
        }
    }

    pub fn into_pattern_element(self) -> (r: PatternElement)
        ensures
            r == shape_element(self),
    {
        match self {
            BlockShape::Any(capture) => PatternElement::any(capture),
            BlockShape::Atom(shape) => PatternElement::atom(shape),
            BlockShape::Delimited(shape) => PatternElement::delimited(shape),
            BlockShape::Literal(value) => PatternElement::Literal(value),
        }
    }

    pub fn into_pattern(self) -> (r: Pattern)
        ensures
            r.spec_elements() == seq![shape_element(self)],
    {
        let mut elements: Vec<PatternElement> = Vec::new();
        elements.push(self.into_pattern_element());
        proof {
            assert(elements@ =~= seq![shape_element(self)]);
        }
        Pattern::new(elements)
    }

    pub fn into_structural_variant(self, name: &str, expected: &str) -> (r: StructuralVariant)
        ensures
            r.spec_name() == name@,
            r.spec_pattern().spec_elements() == seq![shape_element(self)],
            r.spec_expected() == expected@,
    {
        StructuralVariant::new(name, self.into_pattern(), expected)
    }

    pub fn into_macro_node(self, name: &str, position: PositionPredicate, expected: &str) -> (r:
        MacroNodeDefinition)
        ensures
            r.spec_name() == name@,
            r.spec_position() == position,
            r.spec_pattern().spec_elements() == seq![shape_element(self)],
            r.spec_expected() == expected@,
    {
        MacroNodeDefinition::new(name, position, self.into_pattern(), expected)
    }
}

// ---------------------------------------------------------------------------
// Nodes read by structural dispatch.

/// Why a matched variant did not yield a node.
#[derive(Clone, Debug, PartialEq, Eq)]
#[allow(inconsistent_fields)]
pub enum StructuralMacroNodeError {
    MissingCapture { node: &'static str, variant: &'static str, capture: &'static str },
    MissingSlot { node: &'static str, variant: &'static str, capture: &'static str, slot: usize },
    Field { node: &'static str, variant: &'static str, field: usize, error: String },
    UnexpectedVariant { node: &'static str, variant: String },
}

impl StructuralMacroNodeError {
    pub open spec fn spec_message(&self) -> Seq<char> {
        match self {
            StructuralMacroNodeError::MissingCapture { node, variant, capture } => node@ + "::"@
                + variant@ + " is missing structural capture "@ + capture@,
            StructuralMacroNodeError::MissingSlot { node, variant, capture, slot } => node@ + "::"@
                + variant@ + " capture "@ + capture@ + " is missing slot "@ + decimal(*slot as nat),
            StructuralMacroNodeError::Field { node, variant, field, error } => node@ + "::"@
                + variant@ + " failed to decode field "@ + decimal(*field as nat) + ": "@ + error@,
            StructuralMacroNodeError::UnexpectedVariant { node, variant } => node@
                + " matched unexpected variant "@ + variant@,
        }
    }

    pub fn message(&self) -> (r: String)
        ensures
            r@ == self.spec_message(),
    {
        match self {
            StructuralMacroNodeError::MissingCapture { node, variant, capture } => {
                let mut s = text_of(node);
                push_str(&mut s, "::");
                push_str(&mut s, variant);
                push_str(&mut s, " is missing structural capture ");
                push_str(&mut s, capture);
                s
            },
            StructuralMacroNodeError::MissingSlot { node, variant, capture, slot } => {
                let mut s = text_of(node);
                push_str(&mut s, "::");
                push_str(&mut s, variant);
                push_str(&mut s, " capture ");
                push_str(&mut s, capture);
                push_str(&mut s, " is missing slot ");
                push_decimal(&mut s, *slot as u64);
                s
            },
            StructuralMacroNodeError::Field { node, variant, field, error } => {
                let mut s = text_of(node);
                push_str(&mut s, "::");
                push_str(&mut s, variant);
                push_str(&mut s, " failed to decode field ");
                push_decimal(&mut s, *field as u64);
                push_str(&mut s, ": ");
                push_str(&mut s, error.as_str());
                s
            },
            StructuralMacroNodeError::UnexpectedVariant { node, variant } => {
                let mut s = text_of(node);
                push_str(&mut s, " matched unexpected variant ");
                push_str(&mut s, variant.as_str());
                s
            },
        }
    }
}

/// Why reading a structural node failed: the text did not parse, it did not
/// hold one root object, no variant matched, or the matched variant did not
/// yield a node.
#[derive(Clone, Debug, PartialEq, Eq)]
pub enum StructuralMacroError<NodeError> {
    Parse { error: String },
    ExpectedSingleRoot { found: usize },
    Dispatch(StructuralVariantError),
    MatchedNode(NodeError),
}

impl StructuralMacroError<StructuralMacroNodeError> {
    pub open spec fn spec_message(&self) -> Seq<char> {
        match self {
            StructuralMacroError::Parse { error } => error@,
            StructuralMacroError::ExpectedSingleRoot { found } => "expected exactly one DOTOS root object, found "@
                + decimal(*found as nat),
            StructuralMacroError::Dispatch(e) => e.spec_message(),
            StructuralMacroError::MatchedNode(e) => e.spec_message(),
        }
    }

    pub fn message(&self) -> (r: String)
        ensures
            r@ == self.spec_message(),
    {
        match self {
            StructuralMacroError::Parse { error } => error.clone(),
            StructuralMacroError::ExpectedSingleRoot { found } => {
                let mut s = text_of("expected exactly one DOTOS root object, found ");
                push_decimal(&mut s, *found as u64);
                s
            },
            StructuralMacroError::Dispatch(e) => e.message(),
            StructuralMacroError::MatchedNode(e) => e.message(),
        }
    }
}

/// A value read from, and written as, one structural position: its variants
/// are tried in order and the matched one yields the value.
pub trait StructuralMacroNode: Sized {
    type Error;

    /// Whether `spec_position` states what `structural_position` returns: it
    /// does for the library's own impls over a type that states it, and by
    /// default it does not.
    open spec fn position_known() -> bool {
        false
    }

    /// The position this type is read at.
    open spec fn spec_position() -> PositionPredicate {
        PositionPredicate::RootIndex(0)
    }

    fn structural_position() -> (r: PositionPredicate)
        ensures
            Self::position_known() ==> r == Self::spec_position(),
    ;

    /// Whether `spec_variants` states what `structural_variants` returns.
    open spec fn variants_known() -> bool {
        false
    }

    /// The variants this type is tried against, in order.
    open spec fn spec_variants() -> Seq<StructuralVariant> {
        Seq::empty()
    }

    fn structural_variants() -> (r: Vec<StructuralVariant>)
        ensures
            Self::variants_known() ==> r@ == Self::spec_variants(),
    ;

    /// Whether `spec_nota` states what `to_structural_nota` writes.
    open spec fn nota_known() -> bool {
        false
    }

    /// The DOTOS text this value is written as.
    open spec fn spec_nota(&self) -> Seq<char> {
        Seq::empty()
    }

    fn to_structural_nota(&self) -> (r: String)
        ensures
            Self::nota_known() ==> r@ == self.spec_nota(),
    ;

    /// Whether `refuses_candidate` states exactly when
    /// `from_structural_candidate` fails.
    open spec fn candidate_known() -> bool {
        false
    }

    /// `value` is what the blocks at `position` are read as.
    open spec fn reads_candidate(
        position: PositionPredicate,
        blocks: Seq<BlockModel>,
        value: Self,
    ) -> bool {
        true
    }

    /// The blocks at `position` hold no value of this type.
    open spec fn refuses_candidate(position: PositionPredicate, blocks: Seq<BlockModel>) -> bool {
        false
    }

    /// `err` is the error reading the blocks at `position` gives.
    open spec fn fails_candidate_with(
        position: PositionPredicate,
        blocks: Seq<BlockModel>,
        err: StructuralMacroError<Self::Error>,
    ) -> bool {
        true
    }

    /// Reads a value from DOTOS text that holds exactly one root object.
    fn from_structural_nota(source: &str) -> (r: Result<Self, StructuralMacroError<Self::Error>>)
        requires
            byte_length(source@) < usize::MAX,
        ensures
            match parse_document(source@) {
                Err(e) => r matches Err(StructuralMacroError::Parse { error }) && error@
                    == e.spec_message(),
                Ok(roots) => {
                    &&& roots.len() != 1 ==> (r matches Err(
                        StructuralMacroError::ExpectedSingleRoot { found },
                    ) && found == roots.len())
                    &&& roots.len() == 1 && Self::position_known() ==> (r matches Ok(v)
                        ==> Self::reads_candidate(Self::spec_position(), roots, v))
                    &&& roots.len() == 1 && Self::position_known() ==> (r matches Err(e)
                        ==> Self::fails_candidate_with(Self::spec_position(), roots, e))
                    &&& roots.len() == 1 && Self::position_known() && Self::candidate_known() ==> (
                    r is Err <==> Self::refuses_candidate(Self::spec_position(), roots))
                },
            },
    {
        let document = match Document::parse(source) {
            Ok(document) => document,
            Err(error) => {
                return Err(StructuralMacroError::Parse { error: error.message() });
            },
        };
        let roots = document.root_objects();
        proof {
            assert(models(roots@).len() == roots@.len());
        }
        if roots.len() == 1 {
            proof {
                assert(models(roots@) =~= seq![roots@[0]@]);
            }
            Self::from_structural_block(&roots[0])
        } else {
            Err(StructuralMacroError::ExpectedSingleRoot { found: roots.len() })
        }
    }

    /// Reads a value from one block at this type's position.
    fn from_structural_block(block: &Block) -> (r: Result<Self, StructuralMacroError<Self::Error>>)
        ensures
            Self::position_known() ==> (r matches Ok(v) ==> Self::reads_candidate(
                Self::spec_position(),
                seq![block@],
                v,
            )),
            Self::position_known() ==> (r matches Err(e) ==> Self::fails_candidate_with(
                Self::spec_position(),
                seq![block@],
                e,
            )),
            Self::position_known() && Self::candidate_known() ==> (r is Err
                <==> Self::refuses_candidate(Self::spec_position(), seq![block@])),
    {
        Self::from_structural_candidate(MacroCandidate::from_block(Self::structural_position(), block))
    }

    /// Reads a value from a key block and a value block at this type's
    /// position.
    fn from_structural_pair(key: &Block, value: &Block) -> (r: Result<
        Self,
        StructuralMacroError<Self::Error>,
    >)
        ensures
            Self::position_known() ==> (r matches Ok(v) ==> Self::reads_candidate(
                Self::spec_position(),
                seq![key@, value@],
                v,
            )),
            Self::position_known() ==> (r matches Err(e) ==> Self::fails_candidate_with(
                Self::spec_position(),
                seq![key@, value@],
                e,
            )),
            Self::position_known() && Self::candidate_known() ==> (r is Err
                <==> Self::refuses_candidate(Self::spec_position(), seq![key@, value@])),
    {
        Self::from_structural_candidate(
            MacroCandidate::from_pair(Self::structural_position(), key, value),
        )
    }

    fn from_structural_candidate(candidate: MacroCandidate<'_>) -> (r: Result<
        Self,
        StructuralMacroError<Self::Error>,
    >)
        ensures
            r matches Ok(v) ==> Self::reads_candidate(
                candidate.spec_position(),
                candidate.spec_blocks(),
                v,
            ),
            r matches Err(e) ==> Self::fails_candidate_with(
                candidate.spec_position(),
                candidate.spec_blocks(),
                e,
            ),
            Self::candidate_known() ==> (r is Err <==> Self::refuses_candidate(
                candidate.spec_position(),
                candidate.spec_blocks(),
            )),
    ;
}

/// A box is read and written as the value it holds.
impl<Inner: StructuralMacroNode> StructuralMacroNode for Box<Inner> {
    type Error = Inner::Error;

    open spec fn position_known() -> bool {
        Inner::position_known()
    }

    open spec fn spec_position() -> PositionPredicate {
        Inner::spec_position()
    }

    fn structural_position() -> PositionPredicate {
        Inner::structural_position()
    }

    open spec fn variants_known() -> bool {
        Inner::variants_known()
    }

    open spec fn spec_variants() -> Seq<StructuralVariant> {
        Inner::spec_variants()
    }

    fn structural_variants() -> Vec<StructuralVariant> {
        Inner::structural_variants()
    }

    open spec fn nota_known() -> bool {
        Inner::nota_known()
    }

    open spec fn spec_nota(&self) -> Seq<char> {
        (**self).spec_nota()
    }

    fn to_structural_nota(&self) -> String {
        (**self).to_structural_nota()
    }

    open spec fn candidate_known() -> bool {
        Inner::candidate_known()
    }

    open spec fn reads_candidate(
        position: PositionPredicate,
        blocks: Seq<BlockModel>,
        value: Self,
    ) -> bool {
        Inner::reads_candidate(position, blocks, *value)
    }

    open spec fn refuses_candidate(position: PositionPredicate, blocks: Seq<BlockModel>) -> bool {
        Inner::refuses_candidate(position, blocks)
    }

    open spec fn fails_candidate_with(
        position: PositionPredicate,
        blocks: Seq<BlockModel>,
        err: StructuralMacroError<Self::Error>,
    ) -> bool {
        Inner::fails_candidate_with(position, blocks, err)
    }

    fn from_structural_candidate(candidate: MacroCandidate<'_>) -> (r: Result<
        Self,
        StructuralMacroError<Self::Error>,
    >) {
        match Inner::from_structural_candidate(candidate) {
            Ok(inner) => Ok(Box::new(inner)),
            Err(e) => Err(e),
        }
    }
}

/// Some value of the item type is read from `b` alone at the item type's
/// position.
pub open spec fn item_read<Item: StructuralMacroNode>(b: BlockModel) -> bool {
    exists|w: Item| #[trigger] Item::reads_candidate(Item::spec_position(), seq![b], w)
}

/// A vector reads each block of a candidate as one item, in order, and writes
/// its items space-separated.
impl<Item: StructuralMacroNode> StructuralMacroNode for Vec<Item> {
    type Error = Item::Error;

    open spec fn position_known() -> bool {
        Item::position_known()
    }

    open spec fn spec_position() -> PositionPredicate {
        Item::spec_position()
    }

    fn structural_position() -> PositionPredicate {
        Item::structural_position()
    }

    open spec fn variants_known() -> bool {
        Item::variants_known()
    }

    open spec fn spec_variants() -> Seq<StructuralVariant> {
        Item::spec_variants()
    }

    fn structural_variants() -> Vec<StructuralVariant> {
        Item::structural_variants()
    }

    open spec fn nota_known() -> bool {
        Item::nota_known()
    }

    open spec fn spec_nota(&self) -> Seq<char> {
        joined(self@.map_values(|item: Item| item.spec_nota()), " "@)
    }

    fn to_structural_nota(&self) -> String {
        let ghost texts = self@.map_values(|item: Item| item.spec_nota());
        let mut parts: Vec<String> = Vec::new();
        let mut i: usize = 0;
        while i < self.len()
            invariant
                i <= self.len(),
                parts@.len() == i,
                texts == self@.map_values(|item: Item| item.spec_nota()),
                Item::nota_known() ==> string_views(parts@) == texts.take(i as int),
            decreases self.len() - i,
        {
            let part = self[i].to_structural_nota();
            let ghost before = parts@;
            parts.push(part);
            proof {
                if Item::nota_known() {
                    assert(string_views(parts@) =~= string_views(before).push(part@));
                    assert(texts.take(i + 1) =~= texts.take(i as int).push(texts[i as int]));
                }
            }
            i = i + 1;
        }
        proof {
            assert(texts.take(self@.len() as int) =~= texts);
        }
        join_strings(&parts, " ")
    }

    /// Items are read at the item type's own position, one block each.
    open spec fn candidate_known() -> bool {
        Item::position_known() && Item::candidate_known()
    }

    open spec fn reads_candidate(
        position: PositionPredicate,
        blocks: Seq<BlockModel>,
        value: Self,
    ) -> bool {
        &&& value@.len() == blocks.len()
        &&& Item::position_known() ==> forall|i: int|
            0 <= i < blocks.len() ==> #[trigger] Item::reads_candidate(
                Item::spec_position(),
                seq![blocks[i]],
                value@[i],
            )
    }

    open spec fn refuses_candidate(position: PositionPredicate, blocks: Seq<BlockModel>) -> bool {
        exists|i: int|
            0 <= i < blocks.len() && #[trigger] Item::refuses_candidate(
                Item::spec_position(),
                seq![blocks[i]],
            )
    }

    /// The error is the first failing block's, every block before it read.
    open spec fn fails_candidate_with(
        position: PositionPredicate,
        blocks: Seq<BlockModel>,
        err: StructuralMacroError<Self::Error>,
    ) -> bool {
        Item::position_known() ==> exists|i: int|
            0 <= i < blocks.len() && #[trigger] Item::fails_candidate_with(
                Item::spec_position(),
                seq![blocks[i]],
                err,
            ) && forall|j: int| 0 <= j < i ==> #[trigger] item_read::<Item>(blocks[j])
    }

    fn from_structural_candidate(candidate: MacroCandidate<'_>) -> (r: Result<
        Self,
        StructuralMacroError<Self::Error>,
    >) {
        let ghost bs = candidate.spec_blocks();
        let blocks = candidate.blocks();
        let mut items: Vec<Item> = Vec::new();
        let mut i: usize = 0;
        while i < blocks.len()
            invariant
                i <= blocks.len(),
                items@.len() == i,
                ref_models(blocks@) == bs,
                bs == candidate.spec_blocks(),
                bs.len() == blocks@.len(),
                Item::position_known() ==> forall|j: int|
                    0 <= j < i ==> #[trigger] Item::reads_candidate(
                        Item::spec_position(),
                        seq![bs[j]],
                        items@[j],
                    ),
                Item::position_known() && Item::candidate_known() ==> forall|j: int|
                    0 <= j < i ==> !#[trigger] Item::refuses_candidate(
                        Item::spec_position(),
                        seq![bs[j]],
                    ),
            decreases blocks.len() - i,
        {
            proof {
                assert(bs[i as int] == blocks@[i as int]@);
            }
            match Item::from_structural_block(blocks[i]) {
                Ok(item) => items.push(item),
                Err(e) => {
                    proof {
                        assert(Item::position_known() && Item::candidate_known()
                            ==> Item::refuses_candidate(Item::spec_position(), seq![bs[i as int]]));
                        if Item::position_known() {
                            assert(Item::fails_candidate_with(
                                Item::spec_position(),
                                seq![bs[i as int]],
                                e,
                            ));
                            assert forall|j: int| 0 <= j < i implies #[trigger] item_read::<Item>(
                                bs[j],
                            ) by {
                                assert(Item::reads_candidate(
                                    Item::spec_position(),
                                    seq![bs[j]],
                                    items@[j],
                                ));
                            }
                        }
                    }
                    return Err(e);
                },
            }
            i = i + 1;
        }
        Ok(items)
    }
}

// ---------------------------------------------------------------------------
// Laws of match shapes.

proof fn lemma_same_element_acceptance(
    a: PatternElement,
    b: PatternElement,
    block: BlockModel,
    acc_a: Map<Seq<char>, CaptureModel>,
    acc_b: Map<Seq<char>, CaptureModel>,
)
    requires
        same_element_shape(a, b),
    ensures
        (element_match(a, block, acc_a) is Some) == (element_match(b, block, acc_b) is Some),
    decreases a, 0int,
{
    match a {
        PatternElement::Delimited(x) => match b {
            PatternElement::Delimited(y) => lemma_same_delimited_acceptance(x, y, block, acc_a, acc_b),
            _ => {},
        },
        _ => {},
    }
}

proof fn lemma_same_delimited_acceptance(
    a: DelimitedShape,
    b: DelimitedShape,
    block: BlockModel,
    acc_a: Map<Seq<char>, CaptureModel>,
    acc_b: Map<Seq<char>, CaptureModel>,
)
    requires
        same_delimited_shape(a, b),
    ensures
        (delimited_match(a, block, acc_a) is Some) == (delimited_match(b, block, acc_b) is Some),
    decreases a, 0int,
{
    match a.children {
        Some(p) => match b.children {
            Some(q) => {
                lemma_same_elements_acceptance(
                    p.elements,
                    q.elements,
                    0,
                    block.children(),
                    Map::empty(),
                    Map::empty(),
                );
            },
            None => {},
        },
        None => {},
    }
}

proof fn lemma_same_elements_acceptance(
    a: Vec<PatternElement>,
    b: Vec<PatternElement>,
    i: int,
    blocks: Seq<BlockModel>,
    acc_a: Map<Seq<char>, CaptureModel>,
    acc_b: Map<Seq<char>, CaptureModel>,
)
    requires
        0 <= i,
        same_elements_shape(a, b@, i),
    ensures
        (elements_match(a, i, blocks, acc_a) is Some) == (elements_match(b, i, blocks, acc_b) is Some),
    decreases a, a.len() - i,
{
    if i < a.len() {
        assert(same_element_shape(a[i], b@[i]));
        match a[i] {
            PatternElement::Rest(_) => {},
            _ => {
                if i < blocks.len() {
                    lemma_same_element_acceptance(a[i], b[i], blocks[i], acc_a, acc_b);
                    match element_match(a[i], blocks[i], acc_a) {
                        Some(next_a) => {
                            let next_b = element_match(b[i], blocks[i], acc_b)->0;
                            lemma_same_elements_acceptance(a, b, i + 1, blocks, next_a, next_b);
                        },
                        None => {},
                    }
                }
            },
        }
    }
}

proof fn lemma_same_element_match(
    a: PatternElement,
    b: PatternElement,
    block: BlockModel,
    acc: Map<Seq<char>, CaptureModel>,
)
    requires
        same_element(a, b),
    ensures
        element_match(a, block, acc) == element_match(b, block, acc),
    decreases a, 0int,
{
    match a {
        PatternElement::Delimited(x) => match b {
            PatternElement::Delimited(y) => lemma_same_delimited_match(x, y, block, acc),
            _ => {},
        },
        _ => {},
    }
}

proof fn lemma_same_delimited_match(
    a: DelimitedShape,
    b: DelimitedShape,
    block: BlockModel,
    acc: Map<Seq<char>, CaptureModel>,
)
    requires
        same_delimited(a, b),
    ensures
        delimited_match(a, block, acc) == delimited_match(b, block, acc),
    decreases a, 0int,
{
    match a.children {
        Some(p) => match b.children {
            Some(q) => {
                lemma_same_elements_match(p.elements, q.elements, 0, block.children(), Map::empty());
            },
            None => {},
        },
        None => {},
    }
}

proof fn lemma_same_elements_match(
    a: Vec<PatternElement>,
    b: Vec<PatternElement>,
    i: int,
    blocks: Seq<BlockModel>,
    acc: Map<Seq<char>, CaptureModel>,
)
    requires
        0 <= i,
        same_elements(a, b@, i),
    ensures
        elements_match(a, i, blocks, acc) == elements_match(b, i, blocks, acc),
    decreases a, a.len() - i,
{
    if i < a.len() {
        assert(same_element(a[i], b@[i]));
        match a[i] {
            PatternElement::Rest(_) => {},
            _ => {
                if i < blocks.len() {
                    lemma_same_element_match(a[i], b[i], blocks[i], acc);
                    match element_match(a[i], blocks[i], acc) {
                        Some(next) => {
                            lemma_same_elements_match(a, b, i + 1, blocks, next);
                        },
                        None => {},
                    }
                }
            },
        }
    }
}

/// Two patterns of the same elements, captures included, such as a pattern
/// and its clone, match every block sequence alike, with the same captures.
pub proof fn lemma_same_pattern_same_match(p: Pattern, q: Pattern, blocks: Seq<BlockModel>)
    requires
        same_pattern(p, q),
    ensures
        pattern_match(p, blocks) == pattern_match(q, blocks),
{
    lemma_same_elements_match(p.elements, q.elements, 0, blocks, Map::empty());
}

/// Two patterns of the same match shape accept exactly the same block
/// sequences; only what they capture may differ.
pub proof fn lemma_same_shape_same_acceptance(p: Pattern, q: Pattern, blocks: Seq<BlockModel>)
    requires
        same_pattern_shape(p, q),
    ensures
        (pattern_match(p, blocks) is Some) == (pattern_match(q, blocks) is Some),
{
    lemma_same_elements_acceptance(p.elements, q.elements, 0, blocks, Map::empty(), Map::empty());
}

/// A variant with the same match shape as an earlier one is never the one a
/// dispatch selects: whatever it would match, the earlier variant matches
/// first.
pub proof fn lemma_same_shape_variant_unreachable(
    variants: Seq<StructuralVariant>,
    earlier: int,
    later: int,
    blocks: Seq<BlockModel>,
)
    requires
        0 <= earlier < later < variants.len(),
        same_pattern_shape(variants[earlier].spec_pattern(), variants[later].spec_pattern()),
    ensures
        !first_variant_match(variants, blocks, later),
{
    lemma_same_shape_same_acceptance(
        variants[earlier].spec_pattern(),
        variants[later].spec_pattern(),
        blocks,
    );
    if first_variant_match(variants, blocks, later) {
        assert(variant_match(variants[earlier], blocks) is None);
    }
}

/// Two variants of the same match shape never stand together in a
/// conflict-free set: whatever order they come in, the earlier one hides the
/// later, so building a variant set from them reports a conflict.
pub proof fn lemma_same_shape_variants_conflict(vs: Seq<StructuralVariant>, i: int, j: int)
    requires
        0 <= i < j < vs.len(),
        same_pattern_shape(vs[i].spec_pattern(), vs[j].spec_pattern()),
    ensures
        variants_conflict(vs, i, j),
        !variants_conflict_free(vs),
{
    assert(variants_conflict(vs, i, j));
}

/// Two registry nodes at the same position whose patterns have the same
/// match shape never stand together in a conflict-free registry: building
/// one from them reports a conflict.
pub proof fn lemma_same_shape_nodes_conflict(ns: Seq<MacroNodeDefinition>, i: int, j: int)
    requires
        0 <= i < j < ns.len(),
        same_position(ns[i].spec_position(), ns[j].spec_position()),
        same_pattern_shape(ns[i].spec_pattern(), ns[j].spec_pattern()),
    ensures
        nodes_conflict(ns, i, j),
        !nodes_conflict_free(ns),
{
    assert(nodes_conflict(ns, i, j));
}

} // verus!
