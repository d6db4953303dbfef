//! A readable projection of a document: the same blocks reflowed across
//! indented lines. Leaves re-emit their exact source text; the layout only
//! chooses where line breaks and indentation go between structural parts.
use vstd::prelude::*;
use crate::error::DotosError;
use crate::grammar::{byte_length, parse_document};
use crate::model::{ApplicationForm, BlockModel, Delimiter};
use crate::parser::{Block, Document, models, span_text};
use crate::text::{chars_of, push_char, push_str, text_of};

verus! {

/// `b` ends exactly where `c` begins: the source holds nothing between them.
pub open spec fn adjacent(b: BlockModel, c: BlockModel) -> bool {
    b.span().end.byte_offset == c.span().start.byte_offset
}

/// The text between an application's head and payload.
pub open spec fn connector(form: ApplicationForm) -> Seq<char> {
    match form {
        ApplicationForm::Dot => seq!['.'],
        ApplicationForm::Angle => Seq::empty(),
    }
}

/// The single-line form of a block: leaves re-emit their source text,
/// applications join head and payload with their connector, and delimited
/// blocks wrap their children, separated by one space wherever the source
/// separated them.
pub open spec fn inline_text(b: BlockModel, t: Seq<char>) -> Seq<char>
    decreases b, 1int,
{
    match b {
        BlockModel::Delimited { delimiter, children, .. } => delimiter.spec_opening_text()
            + inline_children(children, t) + delimiter.spec_closing_text(),
        BlockModel::Application { form, head, payload, .. } => inline_text(*head, t) + connector(
            form,
        ) + inline_text(*payload, t),
        _ => span_text(t, b.span()),
    }
}

/// Children on one line, a space between neighbours the source separated.
pub open spec fn inline_children(cs: Seq<BlockModel>, t: Seq<char>) -> Seq<char>
    decreases cs, 0int,
{
    if cs.len() == 0 {
        Seq::empty()
    } else {
        let rest = cs.drop_last();
        let last = cs.last();
        inline_children(rest, t) + (if rest.len() > 0 && !adjacent(rest.last(), last) {
            seq![' ']
        } else {
            Seq::empty()
        }) + inline_text(last, t)
    }
}

/// `n` spaces.
pub open spec fn spaces(n: nat) -> Seq<char> {
    Seq::new(n, |i: int| ' ')
}

proof fn lemma_product_fits(a: usize, b: usize)
    ensures
        a * b <= 0xffff_ffff_ffff_fffe_0000_0000_0000_0001,
{
    assert(a * b <= 0xffff_ffff_ffff_ffff * 0xffff_ffff_ffff_ffff) by (nonlinear_arith)
        requires
            a <= 0xffff_ffff_ffff_ffff,
            b <= 0xffff_ffff_ffff_ffff,
    ;
}

/// A layout: the width a single-line form must fit and the spaces per depth.
#[derive(Clone, Copy, Debug, PartialEq, Eq, Structural)]
pub struct PrettyLayout {
    line_width: usize,
    indent_unit: usize,
}

/// One indentation step deeper; depth counts saturate at the machine word.
pub open spec fn deeper(depth: nat) -> nat {
    if depth < usize::MAX {
        depth + 1
    } else {
        depth
    }
}

/// The single-line form of `len` characters fits at `depth`.
pub closed spec fn fits(l: PrettyLayout, len: int, depth: nat) -> bool {
    depth * l.indent_unit + len <= l.line_width
}

/// The layout of one block beginning at `depth`: a delimited block with
/// children whose single-line form does not fit breaks, its children one
/// step deeper; an application that does not fit lays out its head and
/// payload in turn; everything else stays on one line.
pub open spec fn rendered(l: PrettyLayout, b: BlockModel, t: Seq<char>, depth: nat) -> Seq<char>
    decreases b, 1int,
{
    if fits(l, inline_text(b, t).len() as int, depth) {
        inline_text(b, t)
    } else {
        match b {
            BlockModel::Delimited { delimiter, children, .. } => if children.len() > 0 {
                delimiter.spec_opening_text() + broken_children(l, children, t, deeper(depth)) + seq!['\n']
                    + spaces((depth * l.spec_indent_unit()) as nat) + delimiter.spec_closing_text()
            } else {
                inline_text(b, t)
            },
            BlockModel::Application { form, head, payload, .. } => rendered(l, *head, t, depth)
                + connector(form) + rendered(l, *payload, t, depth),
            _ => inline_text(b, t),
        }
    }
}

/// Children on their own lines at `depth`, except that a child the source
/// glued to its predecessor stays on the predecessor's line.
pub open spec fn broken_children(l: PrettyLayout, cs: Seq<BlockModel>, t: Seq<char>, depth: nat) -> Seq<
    char,
>
    decreases cs, 0int,
{
    if cs.len() == 0 {
        Seq::empty()
    } else {
        let rest = cs.drop_last();
        let last = cs.last();
        broken_children(l, rest, t, depth) + (if rest.len() > 0 && adjacent(rest.last(), last) {
            Seq::empty()
        } else {
            seq!['\n'] + spaces((depth * l.spec_indent_unit()) as nat)
        }) + rendered(l, last, t, depth)
    }
}

/// The layout of a document's roots, one per line.
pub open spec fn rendered_roots(l: PrettyLayout, roots: Seq<BlockModel>, t: Seq<char>) -> Seq<char>
    decreases roots.len(),
{
    if roots.len() == 0 {
        Seq::empty()
    } else if roots.len() == 1 {
        rendered(l, roots[0], t, 0)
    } else {
        rendered_roots(l, roots.drop_last(), t) + seq!['\n'] + rendered(l, roots.last(), t, 0)
    }
}

/// The width rule of the layout, indentation included: a block stays on one
/// line at `depth` whenever `depth` indentation steps plus its single-line
/// form fit the line width; a delimited block with children whose indented
/// single-line form is wider than the line breaks instead, its children on
/// lines of their own one step deeper and its closing delimiter on a line of
/// its own at `depth`.
pub proof fn lemma_inline_only_when_indented_form_fits(
    l: PrettyLayout,
    b: BlockModel,
    t: Seq<char>,
    depth: nat,
)
    ensures
        depth * l.spec_indent_unit() + inline_text(b, t).len() <= l.spec_line_width() ==> rendered(
            l,
            b,
            t,
            depth,
        ) == inline_text(b, t),
        depth * l.spec_indent_unit() + inline_text(b, t).len() > l.spec_line_width() ==> (
        b is Delimited && b->Delimited_children.len() > 0 ==> rendered(l, b, t, depth)
            == b->Delimited_delimiter.spec_opening_text() + broken_children(
            l,
            b->Delimited_children,
            t,
            deeper(depth),
        ) + seq!['\n'] + spaces((depth * l.spec_indent_unit()) as nat)
            + b->Delimited_delimiter.spec_closing_text()),
{
}

/// Children on one line, a space between neighbours the source separated.
#[verifier::rlimit(40)]
fn render_inline_children(children: &Vec<Block>, source: &str) -> (r: String)
    ensures
        r@ == inline_children(models(children@), source@),
    decreases children, 0int,
{
    let ghost cs = models(children@);
    let mut rendered = String::new();
    let mut i: usize = 0;
    while i < children.len()
        invariant
            i <= children.len(),
            cs == models(children@),
            rendered@ == inline_children(cs.take(i as int), source@),
        decreases children.len() - i,
    {
        if i > 0 && !children[i - 1].immediately_precedes(&children[i]) {
            push_char(&mut rendered, ' ');
        }
        proof {
            assert(decreases_to!(*children => children@[i as int]));
        }
        let child = children[i].render_inline(source);
        push_str(&mut rendered, child.as_str());
        proof {
            let taken = cs.take(i + 1);
            assert(taken.drop_last() =~= cs.take(i as int));
            assert(taken.last() == children@[i as int]@);
            if i > 0 {
                assert(taken.drop_last().last() == children@[i - 1]@);
            }
            assert(rendered@ =~= inline_children(taken, source@));
        }
        i = i + 1;
    }
    proof {
        assert(cs.take(children@.len() as int) =~= cs);
    }
    rendered
}

impl Block {
    /// The single-line form of this block's subtree.
    pub fn render_inline(&self, source: &str) -> (r: String)
        ensures
            r@ == inline_text(self@, source@),
        decreases self, 1int,
    {
        match self {
            Block::Delimited { delimiter, root_objects, .. } => {
                proof {
                    assert(models(root_objects@) =~= self@.children());
                }
                let mut rendered = text_of(delimiter.opening_text());
                push_str(&mut rendered, render_inline_children(root_objects, source).as_str());
                push_str(&mut rendered, delimiter.closing_text());
                rendered
            },
            Block::Application { form, head, payload, .. } => {
                let mut rendered = head.render_inline(source);
                match form {
                    ApplicationForm::Dot => push_char(&mut rendered, '.'),
                    ApplicationForm::Angle => {},
                }
                push_str(&mut rendered, payload.render_inline(source).as_str());
                proof {
                    assert(inline_text(self@, source@) == inline_text(head.model(), source@)
                        + connector(*form) + inline_text(payload.model(), source@));
                    assert(rendered@ =~= inline_text(self@, source@));
                }
                rendered
            },
            _ => self.reemit(source),
        }
    }

    /// This block ends exactly where `next` begins.
    fn immediately_precedes(&self, next: &Block) -> (r: bool)
        ensures
            r == adjacent(self@, next@),
    {
        self.source_span().end.byte_offset == next.source_span().start.byte_offset
    }
}

impl Default for PrettyLayout {
    fn default() -> (r: Self)
        ensures
            r == PrettyLayout::spec_standard(),
    {
        Self::standard()
    }
}

impl PrettyLayout {
    pub closed spec fn spec_line_width(&self) -> usize {
        self.line_width
    }

    pub closed spec fn spec_indent_unit(&self) -> usize {
        self.indent_unit
    }

    /// An eighty-column target with two-space indentation.
    pub fn standard() -> (r: PrettyLayout)
        ensures
            r == PrettyLayout::spec_standard(),
            r.spec_line_width() == 80,
            r.spec_indent_unit() == 2,
    {
        PrettyLayout { line_width: 80, indent_unit: 2 }
    }

    pub fn new(line_width: usize, indent_unit: usize) -> (r: PrettyLayout)
        ensures
            r.spec_line_width() == line_width,
            r.spec_indent_unit() == indent_unit,
    {
        PrettyLayout { line_width, indent_unit }
    }

    /// Parses `source` and lays out its roots.
    pub fn render_nota(&self, source: &str) -> (r: Result<String, DotosError>)
        requires
            byte_length(source@) < usize::MAX,
        ensures
            match parse_document(source@) {
                Ok(roots) => r matches Ok(s) && s@ == rendered_roots(*self, roots, source@),
                Err(e) => r == Err::<String, DotosError>(e),
            },
    {
        match Document::parse(source) {
            Ok(document) => Ok(self.render_document(&document)),
            Err(e) => Err(e),
        }
    }

    /// Lays out the roots of a parsed document, one per line.
    pub fn render_document(&self, document: &Document) -> (r: String)
        ensures
            r@ == rendered_roots(*self, models(document.roots()), document.text()),
    {
        let source = document.source();
        let roots = document.root_objects();
        let ghost ms = models(roots@);
        let mut out = String::new();
        let mut i: usize = 0;
        while i < roots.len()
            invariant
                i <= roots.len(),
                ms == models(roots@),
                out@ == rendered_roots(*self, ms.take(i as int), source@),
            decreases roots.len() - i,
        {
            if i > 0 {
                push_char(&mut out, '\n');
            }
            self.render_block(&roots[i], source, 0, &mut out);
            proof {
                let taken = ms.take(i + 1);
                assert(taken.drop_last() =~= ms.take(i as int));
                assert(taken.last() == roots@[i as int]@);
                if i == 0 {
                    assert(taken[0] == roots@[0]@);
                }
                assert(out@ =~= rendered_roots(*self, taken, source@));
            }
            i = i + 1;
        }
        proof {
            assert(ms.take(roots@.len() as int) =~= ms);
        }
        out
    }

    /// Whether a single-line form of `length` characters fits at `depth`.
    fn fits(&self, length: usize, depth: usize) -> (r: bool)
        ensures
            r == fits(*self, length as int, depth as nat),
    {
        proof {
            lemma_product_fits(depth, self.indent_unit);
        }
        let indent = (depth as u128) * (self.indent_unit as u128);
        indent + (length as u128) <= self.line_width as u128
    }

    /// Appends the indentation of `depth`.
    fn push_indentation(&self, depth: usize, out: &mut String)
        ensures
            final(out)@ == old(out)@ + spaces((depth * self.indent_unit) as nat),
    {
        proof {
            lemma_product_fits(depth, self.indent_unit);
        }
        let total = (depth as u128) * (self.indent_unit as u128);
        let mut k: u128 = 0;
        while k < total
            invariant
                k <= total,
                total == depth * self.indent_unit,
                out@ == old(out)@ + spaces(k as nat),
            decreases total - k,
        {
            push_char(out, ' ');
            proof {
                assert(spaces((k + 1) as nat) =~= spaces(k as nat).push(' '));
            }
            k = k + 1;
        }
    }

    /// Appends the layout of `block` beginning at `depth`.
    fn render_block(&self, block: &Block, source: &str, depth: usize, out: &mut String)
        ensures
            final(out)@ == old(out)@ + rendered(*self, block@, source@, depth as nat),
        decreases block, 1int,
    {
        let ghost start = out@;
        let inline = block.render_inline(source);
        let length = chars_of(inline.as_str()).len();
        if self.fits(length, depth) {
            push_str(out, inline.as_str());
            return;
        }
        match block {
            Block::Delimited { delimiter, root_objects, .. } => {
                proof {
                    assert(models(root_objects@) =~= block@.children());
                }
                if root_objects.len() == 0 {
                    push_str(out, inline.as_str());
                } else {
                    push_str(out, delimiter.opening_text());
                    let next = if depth < usize::MAX {
                        depth + 1
                    } else {
                        depth
                    };
                    self.render_children(root_objects, source, next, out);
                    push_char(out, '\n');
                    self.push_indentation(depth, out);
                    push_str(out, delimiter.closing_text());
                    proof {
                        assert(out@ =~= start + rendered(*self, block@, source@, depth as nat));
                    }
                }
            },
            Block::Application { form, head, payload, .. } => {
                self.render_block(head, source, depth, out);
                match form {
                    ApplicationForm::Dot => push_char(out, '.'),
                    ApplicationForm::Angle => {},
                }
                self.render_block(payload, source, depth, out);
                proof {
                    assert(rendered(*self, block@, source@, depth as nat) == rendered(
                        *self,
                        head.model(),
                        source@,
                        depth as nat,
                    ) + connector(*form) + rendered(*self, payload.model(), source@, depth as nat));
                    assert(out@ =~= start + rendered(*self, block@, source@, depth as nat));
                }
            },
            _ => {
                push_str(out, inline.as_str());
            },
        }
    }

    /// Appends children at `depth`, each on its own line unless glued to its
    /// predecessor.
    fn render_children(&self, children: &Vec<Block>, source: &str, depth: usize, out: &mut String)
        ensures
            final(out)@ == old(out)@ + broken_children(*self, models(children@), source@, depth as nat),
        decreases children, 0int,
    {
        let ghost cs = models(children@);
        let mut i: usize = 0;
        while i < children.len()
            invariant
                i <= children.len(),
                cs == models(children@),
                out@ == old(out)@ + broken_children(*self, cs.take(i as int), source@, depth as nat),
            decreases children.len() - i,
        {
            let ghost before = out@;
            let glued = i > 0 && children[i - 1].immediately_precedes(&children[i]);
            if !glued {
                push_char(out, '\n');
                self.push_indentation(depth, out);
            }
            proof {
                assert(decreases_to!(*children => children@[i as int]));
            }
            self.render_block(&children[i], source, depth, out);
            proof {
                let taken = cs.take(i + 1);
                assert(taken.drop_last() =~= cs.take(i as int));
                assert(taken.last() == children@[i as int]@);
                if i > 0 {
                    assert(taken.drop_last().last() == children@[i - 1]@);
                }
                assert(out@ =~= old(out)@ + broken_children(*self, taken, source@, depth as nat));
            }
            i = i + 1;
        }
        proof {
            assert(cs.take(children@.len() as int) =~= cs);
        }
    }
}

/// Whether output is written as one canonical line or reflowed for reading.
#[derive(Clone, Copy, Debug, PartialEq, Eq, Structural)]
pub enum DotosOutputForm {
    Canonical,
    Pretty,
}

impl DotosOutputForm {
    pub fn from_pretty_requested(pretty: bool) -> (r: DotosOutputForm)
        ensures
            r == (if pretty {
                DotosOutputForm::Pretty
            } else {
                DotosOutputForm::Canonical
            }),
    {
        if pretty {
            DotosOutputForm::Pretty
        } else {
            DotosOutputForm::Canonical
        }
    }

    /// The text in this form: canonical text as it is; the pretty form lays
    /// it out with the standard layout, or leaves text that does not parse
    /// as it is.
    pub fn render(&self, text: &str) -> (r: String)
        requires
            byte_length(text@) < usize::MAX,
        ensures
            *self == DotosOutputForm::Canonical ==> r@ == text@,
            *self == DotosOutputForm::Pretty ==> r@ == match parse_document(text@) {
                Ok(roots) => rendered_roots(PrettyLayout::spec_standard(), roots, text@),
                Err(_) => text@,
            },
    {
        match self {
            DotosOutputForm::Canonical => text_of(text),
            DotosOutputForm::Pretty => match PrettyLayout::standard().render_nota(text) {
                Ok(rendered) => rendered,
                Err(_) => text_of(text),
            },
        }
    }
}

impl PrettyLayout {
    pub closed spec fn spec_standard() -> PrettyLayout {
        PrettyLayout { line_width: 80, indent_unit: 2 }
    }
}

} // verus!
