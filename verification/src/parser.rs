//! Parsed DOTOS blocks and their structural queries.
use vstd::prelude::*;
use crate::chars::{
    camel_text, kebab_text, pascal_text, spec_camel_text, spec_kebab_text, spec_pascal_text,
    spec_symbol_text, spec_utf8_width, symbol_text, utf8_width_of, bare_atom_text,
    spec_bare_atom_text,
};
use crate::error::DotosError;
use crate::grammar::{byte_length, cursor_at, parse_document};
use crate::model::{ApplicationForm, BlockModel, Delimiter, SourceSpan};
use crate::reader::read_document;
use crate::text::{chars_of, join_strings, joined, push_char, push_str, string_from_chars, string_views, text_of};

verus! {

#[derive(Debug, PartialEq, Eq)]
pub struct CurlyText {
    pub text: String,
    pub span: SourceSpan,
}

#[derive(Debug, PartialEq, Eq)]
pub struct Atom {
    pub text: String,
    pub span: SourceSpan,
}

#[derive(Debug, PartialEq, Eq)]
pub enum Block {
    Delimited { delimiter: Delimiter, span: SourceSpan, root_objects: Vec<Block> },
    /// A dot-application: a head object bound to the payload that immediately
    /// follows a glued period (or a bare angle list), as one node.
    Application { span: SourceSpan, form: ApplicationForm, head: Box<Block>, payload: Box<Block> },
    CurlyText(CurlyText),
    Atom(Atom),
}

impl Block {
    pub open spec fn model(&self) -> BlockModel
        decreases self,
    {
        match self {
            Block::Delimited { delimiter, span, root_objects } => BlockModel::Delimited {
                delimiter: *delimiter,
                span: *span,
                children: Seq::new(
                    root_objects.len() as nat,
                    |i: int|
                        if 0 <= i < root_objects.len() {
                            root_objects@[i].model()
                        } else {
                            BlockModel::Atom { text: Seq::empty(), span: *span }
                        },
                ),
            },
            Block::Application { span, form, head, payload } => BlockModel::Application {
                span: *span,
                form: *form,
                head: Box::new(head.model()),
                payload: Box::new(payload.model()),
            },
            Block::CurlyText(c) => BlockModel::CurlyText { text: c.text@, span: c.span },
            Block::Atom(a) => BlockModel::Atom { text: a.text@, span: a.span },
        }
    }
}

impl Block {
    pub fn source_span(&self) -> (r: SourceSpan)
        ensures
            r == self@.span(),
    {
        match self {
            Block::Delimited { span, .. } => *span,
            Block::Application { span, .. } => *span,
            Block::CurlyText(c) => c.span,
            Block::Atom(a) => a.span,
        }
    }
}

impl View for Block {
    type V = BlockModel;

    open spec fn view(&self) -> BlockModel {
        self.model()
    }
}

} // verus!

verus! {

/// The models of a sequence of blocks.
pub open spec fn models(v: Seq<Block>) -> Seq<BlockModel> {
    v.map_values(|b: Block| b@)
}

} // verus!

verus! {

// ---------------------------------------------------------------------------
// Documents.

/// An ordered list of root blocks parsed from source text.
#[derive(Debug, PartialEq, Eq)]
pub struct Document {
    source: String,
    root_objects: Vec<Block>,
}

impl Document {
    /// The source text the document was parsed from.
    pub closed spec fn text(&self) -> Seq<char> {
        self.source@
    }

    /// The root blocks.
    pub closed spec fn roots(&self) -> Seq<Block> {
        self.root_objects@
    }

    pub fn parse(source: &str) -> (r: Result<Document, DotosError>)
        requires
            byte_length(source@) < usize::MAX,
        ensures
            match parse_document(source@) {
                Ok(ms) => r matches Ok(d) && d.text() == source@ && models(d.roots()) == ms,
                Err(e) => r == Err::<Document, DotosError>(e),
            },
    {
        let chars = chars_of(source);
        match read_document(chars) {
            Ok(root_objects) => Ok(Document { source: text_of(source), root_objects }),
            Err(e) => Err(e),
        }
    }

    pub fn source(&self) -> (r: &str)
        ensures
            r@ == self.text(),
    {
        self.source.as_str()
    }

    pub fn root_objects(&self) -> (r: &[Block])
        ensures
            r@ == self.roots(),
    {
        self.root_objects.as_slice()
    }

    pub fn holds_root_objects(&self) -> (r: usize)
        ensures
            r == self.roots().len(),
    {
        self.root_objects.len()
    }

    pub fn root_object_at(&self, index: usize) -> (r: Option<&Block>)
        ensures
            index < self.roots().len() ==> r == Some(&self.roots()[index as int]),
            index >= self.roots().len() ==> r is None,
    {
        if index < self.root_objects.len() {
            Some(&self.root_objects[index])
        } else {
            None
        }
    }
}

} // verus!

verus! {

// ---------------------------------------------------------------------------
// Atoms.

impl Atom {
    pub fn text(&self) -> (r: &str)
        ensures
            r@ == self.text@,
    {
        self.text.as_str()
    }

    pub fn source_span(&self) -> (r: SourceSpan)
        ensures
            r == self.span,
    {
        self.span
    }

    pub fn qualifies_as_symbol(&self) -> (r: bool)
        ensures
            r == spec_symbol_text(self.text@),
    {
        symbol_text(&chars_of(self.text.as_str()))
    }

    pub fn qualifies_as_pascal_case_symbol(&self) -> (r: bool)
        ensures
            r == spec_pascal_text(self.text@),
    {
        pascal_text(&chars_of(self.text.as_str()))
    }

    pub fn qualifies_as_camel_case_symbol(&self) -> (r: bool)
        ensures
            r == spec_camel_text(self.text@),
    {
        camel_text(&chars_of(self.text.as_str()))
    }

    pub fn qualifies_as_kebab_case_symbol(&self) -> (r: bool)
        ensures
            r == spec_kebab_text(self.text@),
    {
        kebab_text(&chars_of(self.text.as_str()))
    }
}

/// A classification for consumers that decide whether an owned string can be
/// emitted as a bare DOTOS atom.
#[derive(Clone, Copy, Debug, PartialEq, Eq, Structural)]
pub enum AtomClassification {
    SymbolCandidate,
    Other,
}

impl AtomClassification {
    pub fn classify(text: &str) -> (r: AtomClassification)
        ensures
            r == (if spec_bare_atom_text(text@) {
                AtomClassification::SymbolCandidate
            } else {
                AtomClassification::Other
            }),
    {
        if bare_atom_text(&chars_of(text)) {
            AtomClassification::SymbolCandidate
        } else {
            AtomClassification::Other
        }
    }
}

// ---------------------------------------------------------------------------
// Blocks.

pub open spec fn is_delimited_model(m: BlockModel, delimiter: Delimiter) -> bool {
    m matches BlockModel::Delimited { delimiter: d, .. } && d == delimiter
}

pub open spec fn atom_text_of(m: BlockModel) -> Option<Seq<char>> {
    match m {
        BlockModel::Atom { text, .. } => Some(text),
        _ => None,
    }
}

impl Block {
    pub fn is_parenthesis(&self) -> (r: bool)
        ensures
            r == is_delimited_model(self@, Delimiter::Parenthesis),
    {
        self.is_delimited_with(Delimiter::Parenthesis)
    }

    pub fn is_square_bracket(&self) -> (r: bool)
        ensures
            r == is_delimited_model(self@, Delimiter::SquareBracket),
    {
        self.is_delimited_with(Delimiter::SquareBracket)
    }

    pub fn is_brace(&self) -> (r: bool)
        ensures
            r == is_delimited_model(self@, Delimiter::Brace),
    {
        self.is_delimited_with(Delimiter::Brace)
    }

    pub fn is_angle(&self) -> (r: bool)
        ensures
            r == is_delimited_model(self@, Delimiter::Angle),
    {
        self.is_delimited_with(Delimiter::Angle)
    }

    pub fn is_curly_text(&self) -> (r: bool)
        ensures
            r == (self@ is CurlyText),
    {
        match self {
            Block::CurlyText(_) => true,
            _ => false,
        }
    }

    pub fn is_atom(&self) -> (r: bool)
        ensures
            r == (self@ is Atom),
    {
        match self {
            Block::Atom(_) => true,
            _ => false,
        }
    }

    pub fn is_application(&self) -> (r: bool)
        ensures
            r == (self@ is Application),
    {
        match self {
            Block::Application { .. } => true,
            _ => false,
        }
    }

    pub fn is_delimited_with(&self, delimiter: Delimiter) -> (r: bool)
        ensures
            r == is_delimited_model(self@, delimiter),
    {
        match self {
            Block::Delimited { delimiter: found, .. } => *found == delimiter,
            _ => false,
        }
    }

    /// The head and payload of an application.
    pub fn as_application(&self) -> (r: Option<(&Block, &Block)>)
        ensures
            match self@ {
                BlockModel::Application { head, payload, .. } => r matches Some((h, p)) && h@
                    == *head && p@ == *payload,
                _ => r is None,
            },
    {
        match self {
            Block::Application { head, payload, .. } => Some((&**head, &**payload)),
            _ => None,
        }
    }

    /// The head object of an application.
    pub fn application_head(&self) -> (r: Option<&Block>)
        ensures
            match self@ {
                BlockModel::Application { head, .. } => r matches Some(h) && h@ == *head,
                _ => r is None,
            },
    {
        match self {
            Block::Application { head, .. } => Some(&**head),
            _ => None,
        }
    }

    /// The payload object of an application.
    pub fn application_payload(&self) -> (r: Option<&Block>)
        ensures
            match self@ {
                BlockModel::Application { payload, .. } => r matches Some(p) && p@ == *payload,
                _ => r is None,
            },
    {
        match self {
            Block::Application { payload, .. } => Some(&**payload),
            _ => None,
        }
    }

    /// The structural spelling that joined an application head to its payload.
    pub fn application_form(&self) -> (r: Option<ApplicationForm>)
        ensures
            match self@ {
                BlockModel::Application { form, .. } => r == Some(form),
                _ => r is None,
            },
    {
        match self {
            Block::Application { form, .. } => Some(*form),
            _ => None,
        }
    }

    pub fn as_delimited(&self, delimiter: Delimiter) -> (r: Option<&[Block]>)
        ensures
            is_delimited_model(self@, delimiter) ==> (r matches Some(s) && models(s@)
                == self@.children()),
            !is_delimited_model(self@, delimiter) ==> r is None,
    {
        match self {
            Block::Delimited { delimiter: found, root_objects, .. } => {
                if *found == delimiter {
                    proof {
                        assert(models(root_objects@) =~= self@.children());
                    }
                    Some(root_objects.as_slice())
                } else {
                    None
                }
            },
            _ => None,
        }
    }

    pub fn holds_root_objects(&self) -> (r: usize)
        ensures
            r == self@.child_count(),
    {
        match self {
            Block::Delimited { root_objects, .. } => root_objects.len(),
            _ => 0,
        }
    }

    pub fn holds_single_root_object(&self) -> (r: bool)
        ensures
            r == (self@.child_count() == 1),
    {
        self.holds_root_objects() == 1
    }

    pub fn holds_two_root_objects(&self) -> (r: bool)
        ensures
            r == (self@.child_count() == 2),
    {
        self.holds_root_objects() == 2
    }

    pub fn root_object_at(&self, index: usize) -> (r: Option<&Block>)
        ensures
            index < self@.child_count() ==> (r matches Some(b) && b@ == self@.children()[index as int]),
            index >= self@.child_count() ==> r is None,
    {
        match self {
            Block::Delimited { root_objects, .. } => {
                if index < root_objects.len() {
                    Some(&root_objects[index])
                } else {
                    None
                }
            },
            _ => None,
        }
    }

    pub fn root_objects(&self) -> (r: &[Block])
        ensures
            models(r@) == self@.children(),
    {
        match self {
            Block::Delimited { root_objects, .. } => {
                proof {
                    assert(models(root_objects@) =~= self@.children());
                }
                root_objects.as_slice()
            },
            _ => {
                let empty: &[Block] = &[];
                proof {
                    assert(models(empty@) =~= Seq::<BlockModel>::empty());
                }
                empty
            },
        }
    }

    pub fn atom(&self) -> (r: Option<&Atom>)
        ensures
            match self@ {
                BlockModel::Atom { text, span } => r matches Some(a) && a.text@ == text && a.span
                    == span,
                _ => r is None,
            },
    {
        match self {
            Block::Atom(a) => Some(a),
            _ => None,
        }
    }

    pub fn qualifies_as_symbol(&self) -> (r: bool)
        ensures
            r == (atom_text_of(self@) matches Some(t) && spec_symbol_text(t)),
    {
        match self {
            Block::Atom(a) => a.qualifies_as_symbol(),
            _ => false,
        }
    }

    pub fn qualifies_as_pascal_case_symbol(&self) -> (r: bool)
        ensures
            r == (atom_text_of(self@) matches Some(t) && spec_pascal_text(t)),
    {
        match self {
            Block::Atom(a) => a.qualifies_as_pascal_case_symbol(),
            _ => false,
        }
    }

    pub fn qualifies_as_camel_case_symbol(&self) -> (r: bool)
        ensures
            r == (atom_text_of(self@) matches Some(t) && spec_camel_text(t)),
    {
        match self {
            Block::Atom(a) => a.qualifies_as_camel_case_symbol(),
            _ => false,
        }
    }

    pub fn qualifies_as_kebab_case_symbol(&self) -> (r: bool)
        ensures
            r == (atom_text_of(self@) matches Some(t) && spec_kebab_text(t)),
    {
        match self {
            Block::Atom(a) => a.qualifies_as_kebab_case_symbol(),
            _ => false,
        }
    }

    /// The text of an atom or of curly text.
    pub fn demote_to_string(&self) -> (r: Option<&str>)
        ensures
            match self@.demoted() {
                Some(t) => r matches Some(s) && s@ == t,
                None => r is None,
            },
    {
        match self {
            Block::Atom(a) => Some(a.text.as_str()),
            Block::CurlyText(c) => Some(c.text.as_str()),
            _ => None,
        }
    }

    /// The flat dotted text of an atom or of a dot chain of atoms, segments
    /// joined with periods; `None` when any segment is not an atom.
    pub fn dotted_text(&self) -> (r: Option<String>)
        ensures
            match self@.dotted_text() {
                Some(t) => r matches Some(s) && s@ == t,
                None => r is None,
            },
        decreases self,
    {
        match self {
            Block::Atom(a) => Some(a.text.clone()),
            Block::Application { form, head, payload, .. } => {
                match form {
                    ApplicationForm::Dot => {
                        let h = match head.dotted_text() {
                            Some(h) => h,
                            None => {
                                return None;
                            },
                        };
                        let p = match payload.dotted_text() {
                            Some(p) => p,
                            None => {
                                return None;
                            },
                        };
                        let mut text = h;
                        push_char(&mut text, '.');
                        push_str(&mut text, p.as_str());
                        Some(text)
                    },
                    ApplicationForm::Angle => None,
                }
            },
            _ => None,
        }
    }
}

} // verus!

verus! {

/// First character index at or after `i` whose byte offset reaches `b`.
pub open spec fn char_index_from(t: Seq<char>, b: int, i: int) -> int
    decreases t.len() - i,
{
    if 0 <= i < t.len() && cursor_at(t, i).0 < b {
        char_index_from(t, b, i + 1)
    } else {
        i
    }
}

/// The character index of a byte offset: the first character whose offset
/// reaches it, or the length.
pub open spec fn char_index_of_byte(t: Seq<char>, b: int) -> int {
    char_index_from(t, b, 0)
}

/// The source text a span covers.
pub open spec fn span_text(t: Seq<char>, span: SourceSpan) -> Seq<char> {
    let s = char_index_of_byte(t, span.start.byte_offset as int);
    let e = char_index_of_byte(t, span.end.byte_offset as int);
    if s <= e {
        t.subrange(s, e)
    } else {
        Seq::empty()
    }
}

proof fn lemma_char_index_bounds(t: Seq<char>, b: int, i: int)
    requires
        0 <= i <= t.len(),
    ensures
        i <= char_index_from(t, b, i) <= t.len(),
    decreases t.len() - i,
{
    if 0 <= i < t.len() && cursor_at(t, i).0 < b {
        lemma_char_index_bounds(t, b, i + 1);
    }
}

fn char_index_of(t: &Vec<char>, b: usize) -> (i: usize)
    ensures
        i == char_index_of_byte(t@, b as int),
        i <= t.len(),
{
    proof {
        lemma_char_index_bounds(t@, b as int, 0);
    }
    let mut remaining: usize = b;
    let mut i: usize = 0;
    while i < t.len() && remaining > 0
        invariant
            i <= t.len(),
            remaining == (if cursor_at(t@, i as int).0 >= b { 0 } else { b - cursor_at(
                t@,
                i as int,
            ).0 }),
            char_index_from(t@, b as int, i as int) == char_index_of_byte(t@, b as int),
        decreases t.len() - i,
    {
        let w = utf8_width_of(t[i]);
        proof {
            assert(cursor_at(t@, i + 1).0 == cursor_at(t@, i as int).0 + spec_utf8_width(t@[i as int]));
        }
        if w >= remaining {
            remaining = 0;
        } else {
            remaining = remaining - w;
        }
        i = i + 1;
    }
    i
}

impl Block {
    /// The exact source text this block was parsed from.
    pub fn reemit(&self, source: &str) -> (r: String)
        ensures
            r@ == span_text(source@, self@.span()),
    {
        let t = chars_of(source);
        let span = self.source_span();
        let s = char_index_of(&t, span.start.byte_offset);
        let e = char_index_of(&t, span.end.byte_offset);
        let mut out: Vec<char> = Vec::new();
        if s <= e {
            let mut k: usize = s;
            while k < e
                invariant
                    s <= k <= e <= t.len(),
                    out@ == t@.subrange(s as int, k as int),
                decreases e - k,
            {
                out.push(t[k]);
                k = k + 1;
            }
        }
        string_from_chars(&out)
    }
}

impl Delimiter {
    pub open spec fn spec_description(self) -> Seq<char> {
        match self {
            Delimiter::Parenthesis => "parenthesis"@,
            Delimiter::SquareBracket => "square bracket"@,
            Delimiter::Brace => "brace"@,
            Delimiter::Angle => "angle bracket"@,
        }
    }

    pub fn description(self) -> (r: &'static str)
        ensures
            r@ == self.spec_description(),
    {
        match self {
            Delimiter::Parenthesis => "parenthesis",
            Delimiter::SquareBracket => "square bracket",
            Delimiter::Brace => "brace",
            Delimiter::Angle => "angle bracket",
        }
    }

    /// The children joined by single spaces inside this delimiter.
    pub fn wrap(self, children: Vec<String>) -> (r: String)
        ensures
            r@ == self.spec_opening_text() + joined(string_views(children@), " "@)
                + self.spec_closing_text(),
    {
        let mut r = text_of(self.opening_text());
        let inner = join_strings(&children, " ");
        push_str(&mut r, inner.as_str());
        push_str(&mut r, self.closing_text());
        r
    }
}

impl Clone for Atom {
    fn clone(&self) -> (r: Self)
        ensures
            r == *self,
    {
        Atom { text: self.text.clone(), span: self.span }
    }
}

impl Clone for CurlyText {
    fn clone(&self) -> (r: Self)
        ensures
            r == *self,
    {
        CurlyText { text: self.text.clone(), span: self.span }
    }
}

impl Clone for Block {
    fn clone(&self) -> (r: Self)
        ensures
            r@ == self@,
        decreases self,
    {
        match self {
            Block::Delimited { delimiter, span, root_objects } => {
                let mut copied: Vec<Block> = Vec::new();
                let mut k: usize = 0;
                #[verifier::loop_isolation(false)]
                while k < root_objects.len()
                    invariant
                        k <= root_objects.len(),
                        copied@.len() == k,
                        forall|i: int| 0 <= i < k ==> (#[trigger] copied@[i])@ == root_objects@[i]@,
                    decreases root_objects.len() - k,
                {
                    proof {
                        assert(decreases_to!(root_objects => root_objects@[k as int]));
                    }
                    copied.push(root_objects[k].clone());
                    k = k + 1;
                }
                let r = Block::Delimited { delimiter: *delimiter, span: *span, root_objects: copied };
                proof {
                    assert(r@.children() =~= self@.children());
                }
                r
            },
            Block::Application { span, form, head, payload } => Block::Application {
                span: *span,
                form: *form,
                head: Box::new((**head).clone()),
                payload: Box::new((**payload).clone()),
            },
            Block::CurlyText(c) => Block::CurlyText(c.clone()),
            Block::Atom(a) => Block::Atom(a.clone()),
        }
    }
}

} // verus!
