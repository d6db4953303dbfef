//! The readable projection reads back as the document it lays out: parsing
//! the pretty form of a document gives the same blocks, which collapse to the
//! same single-line form.
use vstd::prelude::*;
use crate::chars::spec_is_whitespace;
use crate::grammar::{
    at_primary_start, atom_at, atom_end, byte_length, closing_char, closing_delimiter,
    comment_at, cursor_at, ends_atom, parse_children, parse_curly_text, parse_delimited,
    parse_document, parse_object, parse_primary, parse_roots, position_at, scan_curly,
    skip_spacing, span_between,
};
use crate::model::{ApplicationForm, BlockModel, Delimiter};
use crate::parser::{char_index_from, char_index_of_byte, span_text};
use crate::pretty::{
    PrettyLayout, adjacent, broken_children, connector, deeper, fits, inline_children, inline_text,
    rendered, rendered_roots, spaces,
};
use crate::reader::lemma_cursor_bounds;

verus! {

/// Byte offsets grow strictly with the character index.
proof fn lemma_cursor_increasing(t: Seq<char>, i: int, j: int)
    requires
        0 <= i < j <= t.len(),
    ensures
        cursor_at(t, i).0 < cursor_at(t, j).0,
    decreases j,
{
    if i < j - 1 {
        lemma_cursor_increasing(t, i, j - 1);
    }
}

proof fn lemma_char_index_from(t: Seq<char>, k: int, i: int)
    requires
        0 <= k <= i <= t.len(),
    ensures
        char_index_from(t, cursor_at(t, i).0, k) == i,
    decreases i - k,
{
    if k < i {
        lemma_cursor_increasing(t, k, i);
        lemma_char_index_from(t, k + 1, i);
    }
}

/// In a text whose length fits a word, a position's byte offset is its
/// cursor, and it leads back to the character index.
proof fn lemma_position_at(t: Seq<char>, i: int)
    requires
        0 <= i <= t.len(),
        byte_length(t) < usize::MAX,
    ensures
        position_at(t, i).byte_offset == cursor_at(t, i).0,
        char_index_of_byte(t, position_at(t, i).byte_offset as int) == i,
{
    lemma_cursor_bounds(t, i, t.len() as int);
    lemma_cursor_bounds(t, 0, i);
    lemma_char_index_from(t, 0, i);
}

/// Two positions have the same byte offset only when they are the same.
proof fn lemma_position_injective(t: Seq<char>, i: int, j: int)
    requires
        0 <= i <= t.len(),
        0 <= j <= t.len(),
        byte_length(t) < usize::MAX,
    ensures
        (position_at(t, i).byte_offset == position_at(t, j).byte_offset) == (i == j),
{
    lemma_position_at(t, i);
    lemma_position_at(t, j);
    if i < j {
        lemma_cursor_increasing(t, i, j);
    } else if j < i {
        lemma_cursor_increasing(t, j, i);
    }
}

/// The text a span between two positions covers.
proof fn lemma_span_text(t: Seq<char>, i: int, e: int)
    requires
        0 <= i <= e <= t.len(),
        byte_length(t) < usize::MAX,
    ensures
        span_text(t, span_between(t, i, e)) == t.subrange(i, e),
{
    lemma_position_at(t, i);
    lemma_position_at(t, e);
}

/// An object can begin at `i`: the parser reaches it after spacing.
pub open spec fn starts_object(t: Seq<char>, i: int) -> bool {
    &&& 0 <= i < t.len()
    &&& !spec_is_whitespace(t[i])
    &&& !comment_at(t, i)
    &&& closing_delimiter(t[i]) is None
}

/// A character after an object that ends it: the parse of the object stops
/// before it without binding to it.
pub open spec fn stops(b: BlockModel, c: char) -> bool
    decreases b,
{
    match b {
        BlockModel::Application { form, payload, .. } => match form {
            ApplicationForm::Dot => stops(*payload, c),
            ApplicationForm::Angle => true,
        },
        BlockModel::Atom { .. } => ends_atom(c) && c != '.' && c != '<',
        _ => c != '.' && c != '<',
    }
}

proof fn lemma_skip_spacing(t: Seq<char>, i: int)
    requires
        0 <= i,
    ensures
        i <= skip_spacing(t, i),
        0 <= skip_spacing(t, i) < t.len() ==> !spec_is_whitespace(t[skip_spacing(t, i)])
            && !comment_at(t, skip_spacing(t, i)),
    decreases t.len() - i, 1int,
{
    if 0 <= i < t.len() && spec_is_whitespace(t[i]) {
        lemma_skip_spacing(t, i + 1);
    } else if comment_at(t, i) {
        lemma_skip_comment(t, i);
    }
}

proof fn lemma_skip_comment(t: Seq<char>, i: int)
    requires
        0 <= i,
    ensures
        i <= crate::grammar::skip_comment(t, i),
        0 <= crate::grammar::skip_comment(t, i) < t.len() ==> !spec_is_whitespace(
            t[crate::grammar::skip_comment(t, i)],
        ) && !comment_at(t, crate::grammar::skip_comment(t, i)),
    decreases t.len() - i, 0int,
{
    if 0 <= i < t.len() {
        if t[i] == '\n' {
            lemma_skip_spacing(t, i + 1);
        } else {
            lemma_skip_comment(t, i + 1);
        }
    }
}

proof fn lemma_atom_end_stops(t: Seq<char>, i: int)
    requires
        0 <= i,
    ensures
        atom_end(t, i) >= t.len() || ends_atom(t[atom_end(t, i)]) || comment_at(t, atom_end(t, i)),
    decreases t.len() - i,
{
    if 0 <= i < t.len() && !ends_atom(t[i]) && !comment_at(t, i) {
        lemma_atom_end_stops(t, i + 1);
    }
}

/// A primary parsed at `i` covers the span from `i` to its end, and the
/// character after an atom ends it.
proof fn lemma_primary_facts(t: Seq<char>, i: int)
    requires
        starts_object(t, i),
        parse_primary(t, i) is Ok,
    ensures
        ({
            let (b, k) = parse_primary(t, i)->Ok_0;
            &&& i < k <= t.len()
            &&& b.span() == span_between(t, i, k)
            &&& !(b is Application)
            &&& (b is Atom ==> k == t.len() || ends_atom(t[k]) || comment_at(t, k))
        }),
    decreases t.len() - i, 1int,
{
    let c = t[i];
    if c == '(' {
        lemma_delimited_facts(t, i, Delimiter::Parenthesis);
    } else if c == '[' {
        lemma_delimited_facts(t, i, Delimiter::SquareBracket);
    } else if c == '{' {
        lemma_delimited_facts(t, i, Delimiter::Brace);
    } else if c == '“' {
        lemma_scan_facts(t, i + 1, 1, Seq::empty(), i);
    } else {
        crate::reader::lemma_atom_end(t, i);
        lemma_atom_end_stops(t, i);
    }
}

proof fn lemma_scan_facts(t: Seq<char>, i: int, depth: nat, text: Seq<char>, start: int)
    requires
        0 <= i,
        scan_curly(t, i, depth, text, start) is Ok,
    ensures
        i < scan_curly(t, i, depth, text, start)->Ok_0.1 <= t.len(),
    decreases t.len() - i,
{
    let c = t[i];
    if c == '\\' {
        lemma_scan_facts(t, i + 2, depth, text.push(t[i + 1]), start);
    } else if c == '“' {
        lemma_scan_facts(t, i + 1, depth + 1, text.push(c), start);
    } else if c == '”' {
        if depth > 1 {
            lemma_scan_facts(t, i + 1, (depth - 1) as nat, text.push(c), start);
        }
    } else {
        lemma_scan_facts(t, i + 1, depth, text.push(c), start);
    }
}

/// An object parsed at `i` covers the span from `i` to its end, and the
/// character after it ends it unless a comment begins there.
proof fn lemma_object_facts(t: Seq<char>, i: int)
    requires
        starts_object(t, i),
        parse_object(t, i) is Ok,
    ensures
        ({
            let (b, e) = parse_object(t, i)->Ok_0;
            &&& i < e <= t.len()
            &&& b.span() == span_between(t, i, e)
            &&& (e < t.len() && !comment_at(t, e) ==> stops(b, t[e]))
        }),
    decreases t.len() - i, 2int,
{
    lemma_primary_facts(t, i);
    let (head, k) = parse_primary(t, i)->Ok_0;
    if k < t.len() && t[k] == '.' {
        lemma_object_facts(t, k + 1);
    } else if k < t.len() && t[k] == '<' {
        lemma_delimited_facts(t, k, Delimiter::Angle);
    }
}

/// A delimited block parsed at `i` covers the span from `i` to just after its
/// closing character.
proof fn lemma_delimited_facts(t: Seq<char>, i: int, d: Delimiter)
    requires
        0 <= i < t.len(),
        parse_delimited(t, i, d) is Ok,
    ensures
        ({
            let (b, e) = parse_delimited(t, i, d)->Ok_0;
            &&& i < e <= t.len()
            &&& b.span() == span_between(t, i, e)
        }),
    decreases t.len() - i, 0int,
{
    lemma_children_facts(t, i + 1, d, i);
}

proof fn lemma_children_facts(t: Seq<char>, p: int, d: Delimiter, start: int)
    requires
        0 <= p,
        parse_children(t, p, d, start) is Ok,
    ensures
        p < parse_children(t, p, d, start)->Ok_0.1 <= t.len(),
    decreases t.len() - p, 3int,
{
    let j = skip_spacing(t, p);
    lemma_skip_spacing(t, p);
    if t[j] != closing_char(d) {
        lemma_object_facts(t, j);
        let k = parse_object(t, j)->Ok_0.1;
        lemma_children_facts(t, k, d, start);
    }
}


/// The single-line form of a block, or its layout at `depth`.
pub open spec fn layout(l: PrettyLayout, b: BlockModel, t: Seq<char>, depth: nat, inline: bool) -> Seq<
    char,
> {
    if inline {
        inline_text(b, t)
    } else {
        rendered(l, b, t, depth)
    }
}

/// Either form of a block begins with the block's first source character;
/// a leading `;` is never followed by another.
proof fn lemma_primary_layout_first(
    l: PrettyLayout,
    t: Seq<char>,
    i: int,
    depth: nat,
    inline: bool,
)
    requires
        starts_object(t, i),
        parse_primary(t, i) is Ok,
        byte_length(t) < usize::MAX,
    ensures
        ({
            let b = parse_primary(t, i)->Ok_0.0;
            let r = layout(l, b, t, depth, inline);
            &&& r.len() > 0
            &&& r[0] == t[i]
            &&& (r.len() >= 2 && t[i] == ';' ==> r[1] != ';')
            &&& (r.len() == 1 ==> b is Atom)
        }),
{
    lemma_primary_facts(t, i);
    let (b, k) = parse_primary(t, i)->Ok_0;
    let c = t[i];
    if c == '(' || c == '[' || c == '{' {
        let d = if c == '(' {
            Delimiter::Parenthesis
        } else if c == '[' {
            Delimiter::SquareBracket
        } else {
            Delimiter::Brace
        };
        assert(b is Delimited && b->delimiter == d);
        assert(inline_text(b, t)[0] == c);
        assert(rendered(l, b, t, depth)[0] == c);
    } else {
        lemma_span_text(t, i, k);
        assert(inline_text(b, t) == t.subrange(i, k));
        assert(rendered(l, b, t, depth) == inline_text(b, t));
        assert(inline_text(b, t)[0] == t[i]);
        if k > i + 1 {
            assert(inline_text(b, t)[1] == t[i + 1]);
        }
        if c == '“' {
            assert(k >= i + 2) by {
                let (text, e) = scan_curly(t, i + 1, 1, Seq::empty(), i)->Ok_0;
                lemma_scan_facts(t, i + 1, 1, Seq::empty(), i);
            }
        }
    }
}

proof fn lemma_object_layout_first(
    l: PrettyLayout,
    t: Seq<char>,
    i: int,
    depth: nat,
    inline: bool,
)
    requires
        starts_object(t, i),
        parse_object(t, i) is Ok,
        byte_length(t) < usize::MAX,
    ensures
        ({
            let b = parse_object(t, i)->Ok_0.0;
            let r = layout(l, b, t, depth, inline);
            &&& r.len() > 0
            &&& r[0] == t[i]
            &&& (r.len() >= 2 && t[i] == ';' ==> r[1] != ';')
            &&& (r.len() == 1 ==> b is Atom)
        }),
{
    lemma_primary_facts(t, i);
    lemma_primary_layout_first(l, t, i, depth, inline);
    lemma_primary_layout_first(l, t, i, depth, true);
    let (head, k) = parse_primary(t, i)->Ok_0;
    let b = parse_object(t, i)->Ok_0.0;
    if b is Application {
        let hl = layout(l, head, t, depth, inline);
        let hi = inline_text(head, t);
        assert(inline_text(b, t) == hi + connector(b->form) + inline_text(*b->payload, t));
        if k < t.len() && t[k] == '<' {
            lemma_delimited_facts(t, k, Delimiter::Angle);
            let p = parse_delimited(t, k, Delimiter::Angle)->Ok_0.0;
            assert(inline_text(p, t)[0] == '<');
            assert(rendered(l, p, t, depth)[0] == '<');
        }
    }
}


/// An atom's characters copied elsewhere, followed by a character that ends
/// atoms, are read as an atom of the same length.
proof fn lemma_atom_copy(t: Seq<char>, x: int, u: Seq<char>, y: int)
    requires
        0 <= x,
        0 <= y,
        y + (atom_end(t, x) - x) <= u.len(),
        atom_end(t, x) <= t.len(),
        forall|z: int| x <= z < atom_end(t, x) ==> u[y + (z - x)] == t[z],
        y + (atom_end(t, x) - x) == u.len() || ends_atom(u[y + (atom_end(t, x) - x)]),
    ensures
        atom_end(u, y) == y + (atom_end(t, x) - x),
    decreases atom_end(t, x) - x,
{
    crate::reader::lemma_atom_end(t, x);
    if x < atom_end(t, x) {
        assert(0 <= x < t.len() && !ends_atom(t[x]) && !comment_at(t, x));
        assert(u[y] == t[x]);
        if x + 1 < atom_end(t, x) {
            assert(u[y + 1] == t[x + 1]);
        }
        lemma_atom_copy(t, x + 1, u, y + 1);
    }
}

/// Curly text copied elsewhere scans to the same text.
proof fn lemma_scan_copy(
    t: Seq<char>,
    a: int,
    depth: nat,
    acc: Seq<char>,
    s1: int,
    u: Seq<char>,
    b: int,
    s2: int,
)
    requires
        0 <= a,
        0 <= b,
        scan_curly(t, a, depth, acc, s1) is Ok,
        b + (scan_curly(t, a, depth, acc, s1)->Ok_0.1 - a) <= u.len(),
        forall|z: int|
            a <= z < scan_curly(t, a, depth, acc, s1)->Ok_0.1 ==> u[b + (z - a)] == t[z],
    ensures
        scan_curly(u, b, depth, acc, s2) == Ok::<(Seq<char>, int), crate::error::DotosError>(
            (
                scan_curly(t, a, depth, acc, s1)->Ok_0.0,
                b + (scan_curly(t, a, depth, acc, s1)->Ok_0.1 - a),
            ),
        ),
    decreases t.len() - a,
{
    lemma_scan_facts(t, a, depth, acc, s1);
    let c = t[a];
    assert(u[b] == c);
    if c == '\\' {
        lemma_scan_facts(t, a + 2, depth, acc.push(t[a + 1]), s1);
        assert(u[b + 1] == t[a + 1]);
        lemma_scan_copy(t, a + 2, depth, acc.push(t[a + 1]), s1, u, b + 2, s2);
    } else if c == '“' {
        lemma_scan_copy(t, a + 1, depth + 1, acc.push(c), s1, u, b + 1, s2);
    } else if c == '”' {
        if depth > 1 {
            lemma_scan_copy(t, a + 1, (depth - 1) as nat, acc.push(c), s1, u, b + 1, s2);
        }
    } else {
        lemma_scan_copy(t, a + 1, depth, acc.push(c), s1, u, b + 1, s2);
    }
}

/// Spaces and line breaks only.
pub open spec fn blank(s: Seq<char>) -> bool {
    forall|k: int| 0 <= k < s.len() ==> #[trigger] s[k] == ' ' || s[k] == '\n'
}

/// Spacing over a blank run stops at the first character after it.
proof fn lemma_skip_blank(u: Seq<char>, q: int, n: int)
    requires
        0 <= q,
        0 <= n,
        q + n <= u.len(),
        forall|x: int| q <= x < q + n ==> #[trigger] u[x] == ' ' || u[x] == '\n',
        q + n < u.len() ==> !spec_is_whitespace(u[q + n]) && !comment_at(u, q + n),
    ensures
        skip_spacing(u, q) == q + n,
    decreases n,
{
    if n > 0 {
        assert(u[q] == ' ' || u[q] == '\n');
        assert(spec_is_whitespace(u[q]));
        lemma_skip_blank(u, q + 1, n - 1);
    }
}

/// The gap a layout puts between separated neighbours.
pub open spec fn gap(l: PrettyLayout, dd: nat, inline: bool) -> Seq<char> {
    if inline {
        seq![' ']
    } else {
        seq!['\n'] + spaces((dd * l.spec_indent_unit()) as nat)
    }
}

/// Children laid out in turn: `lead` before the first, then nothing between
/// neighbours the source glued together and the gap between the others.
pub open spec fn children_text(
    l: PrettyLayout,
    cs: Seq<BlockModel>,
    t: Seq<char>,
    dd: nat,
    inline: bool,
    lead: Seq<char>,
) -> Seq<char>
    decreases cs.len(),
{
    if cs.len() == 0 {
        Seq::empty()
    } else {
        lead + layout(l, cs[0], t, dd, inline) + children_text(
            l,
            cs.drop_first(),
            t,
            dd,
            inline,
            if cs.len() > 1 && adjacent(cs[0], cs[1]) {
                Seq::empty()
            } else {
                gap(l, dd, inline)
            },
        )
    }
}

proof fn lemma_children_text_push(
    l: PrettyLayout,
    cs: Seq<BlockModel>,
    x: BlockModel,
    t: Seq<char>,
    dd: nat,
    inline: bool,
    lead: Seq<char>,
)
    ensures
        children_text(l, cs.push(x), t, dd, inline, lead) == if cs.len() == 0 {
            lead + layout(l, x, t, dd, inline)
        } else {
            children_text(l, cs, t, dd, inline, lead) + (if adjacent(cs.last(), x) {
                Seq::empty()
            } else {
                gap(l, dd, inline)
            }) + layout(l, x, t, dd, inline)
        },
    decreases cs.len(),
{
    let ys = cs.push(x);
    if cs.len() == 0 {
        assert(ys.drop_first() =~= Seq::<BlockModel>::empty());
        let next = if ys.len() > 1 && adjacent(ys[0], ys[1]) {
            Seq::empty()
        } else {
            gap(l, dd, inline)
        };
        assert(children_text(l, ys.drop_first(), t, dd, inline, next) == Seq::<char>::empty());
        assert(ys[0] == x);
        assert(children_text(l, ys, t, dd, inline, lead) =~= lead + layout(l, x, t, dd, inline));
    } else {
        let next = if ys.len() > 1 && adjacent(ys[0], ys[1]) {
            Seq::empty()
        } else {
            gap(l, dd, inline)
        };
        assert(ys.drop_first() =~= cs.drop_first().push(x));
        lemma_children_text_push(l, cs.drop_first(), x, t, dd, inline, next);
        if cs.len() == 1 {
            assert(cs.drop_first() =~= Seq::<BlockModel>::empty());
            let cnext = if cs.len() > 1 && adjacent(cs[0], cs[1]) {
                Seq::empty()
            } else {
                gap(l, dd, inline)
            };
            assert(children_text(l, cs.drop_first(), t, dd, inline, cnext) == Seq::<char>::empty());
            assert(children_text(l, cs, t, dd, inline, lead) =~= lead + layout(
                l,
                cs[0],
                t,
                dd,
                inline,
            ));
        } else {
            assert(cs.drop_first().last() == cs.last());
            assert(children_text(l, cs, t, dd, inline, lead) == lead + layout(l, cs[0], t, dd, inline)
                + children_text(l, cs.drop_first(), t, dd, inline, next));
        }
        assert(children_text(l, ys, t, dd, inline, lead) =~= (if cs.len() == 0 {
            lead + layout(l, x, t, dd, inline)
        } else {
            children_text(l, cs, t, dd, inline, lead) + (if adjacent(cs.last(), x) {
                Seq::empty()
            } else {
                gap(l, dd, inline)
            }) + layout(l, x, t, dd, inline)
        }));
    }
}

/// The single-line children are the inline children text.
proof fn lemma_inline_children_text(l: PrettyLayout, cs: Seq<BlockModel>, t: Seq<char>, dd: nat)
    ensures
        inline_children(cs, t) == children_text(l, cs, t, dd, true, Seq::empty()),
    decreases cs.len(),
{
    if cs.len() > 0 {
        let rest = cs.drop_last();
        lemma_inline_children_text(l, rest, t, dd);
        lemma_children_text_push(l, rest, cs.last(), t, dd, true, Seq::empty());
        assert(rest.push(cs.last()) =~= cs);
        if rest.len() == 0 {
            assert(inline_children(rest, t) == Seq::<char>::empty());
            assert(inline_children(cs, t) =~= inline_text(cs.last(), t));
        }
    }
}

/// The broken children are the children text with a line break before each
/// separated child.
proof fn lemma_broken_children_text(l: PrettyLayout, cs: Seq<BlockModel>, t: Seq<char>, dd: nat)
    ensures
        broken_children(l, cs, t, dd) == children_text(l, cs, t, dd, false, gap(l, dd, false)),
    decreases cs.len(),
{
    if cs.len() > 0 {
        let rest = cs.drop_last();
        lemma_broken_children_text(l, rest, t, dd);
        lemma_children_text_push(l, rest, cs.last(), t, dd, false, gap(l, dd, false));
        assert(rest.push(cs.last()) =~= cs);
        if rest.len() == 0 {
            assert(broken_children(l, rest, t, dd) == Seq::<char>::empty());
            assert(broken_children(l, cs, t, dd) =~= gap(l, dd, false) + rendered(
                l,
                cs.last(),
                t,
                dd,
            ));
        }
    }
}

/// Children with the same single-line forms, glued where the others are,
/// give the same single-line children text.
proof fn lemma_inline_children_same(
    ms: Seq<BlockModel>,
    u: Seq<char>,
    cs: Seq<BlockModel>,
    t: Seq<char>,
)
    requires
        ms.len() == cs.len(),
        forall|k: int| 0 <= k < cs.len() ==> inline_text(#[trigger] ms[k], u) == inline_text(cs[k], t),
        forall|k: int|
            0 <= k < cs.len() - 1 ==> adjacent(#[trigger] ms[k], ms[k + 1]) == adjacent(cs[k], cs[k + 1]),
    ensures
        inline_children(ms, u) == inline_children(cs, t),
    decreases cs.len(),
{
    if cs.len() > 0 {
        let mr = ms.drop_last();
        let cr = cs.drop_last();
        assert forall|k: int| 0 <= k < cr.len() implies inline_text(#[trigger] mr[k], u)
            == inline_text(cr[k], t) by {
            assert(mr[k] == ms[k]);
            assert(cr[k] == cs[k]);
        }
        assert forall|k: int| 0 <= k < cr.len() - 1 implies adjacent(#[trigger] mr[k], mr[k + 1])
            == adjacent(cr[k], cr[k + 1]) by {
            assert(mr[k] == ms[k]);
            assert(mr[k + 1] == ms[k + 1]);
            assert(cr[k] == cs[k]);
            assert(cr[k + 1] == cs[k + 1]);
        }
        lemma_inline_children_same(mr, u, cr, t);
        if cr.len() > 0 {
            assert(adjacent(ms[cs.len() - 2], ms[cs.len() - 1]) == adjacent(
                cs[cs.len() - 2],
                cs[cs.len() - 1],
            ));
        }
        assert(inline_text(ms.last(), u) == inline_text(cs.last(), t));
    }
}


/// Children with the same layouts at every depth, glued where the others
/// are, give the same broken children text.
proof fn lemma_broken_children_same(
    l: PrettyLayout,
    ms: Seq<BlockModel>,
    u: Seq<char>,
    cs: Seq<BlockModel>,
    t: Seq<char>,
    dd: nat,
)
    requires
        ms.len() == cs.len(),
        forall|k: int, d: nat|
            0 <= k < cs.len() ==> #[trigger] rendered(l, ms[k], u, d) == rendered(l, cs[k], t, d),
        forall|k: int|
            0 <= k < cs.len() - 1 ==> adjacent(#[trigger] ms[k], ms[k + 1]) == adjacent(cs[k], cs[k + 1]),
    ensures
        broken_children(l, ms, u, dd) == broken_children(l, cs, t, dd),
    decreases cs.len(),
{
    if cs.len() > 0 {
        let mr = ms.drop_last();
        let cr = cs.drop_last();
        assert forall|k: int, d: nat| 0 <= k < cr.len() implies #[trigger] rendered(l, mr[k], u, d)
            == rendered(l, cr[k], t, d) by {
            assert(mr[k] == ms[k]);
            assert(cr[k] == cs[k]);
        }
        assert forall|k: int| 0 <= k < cr.len() - 1 implies adjacent(#[trigger] mr[k], mr[k + 1])
            == adjacent(cr[k], cr[k + 1]) by {
            assert(mr[k] == ms[k]);
            assert(mr[k + 1] == ms[k + 1]);
            assert(cr[k] == cs[k]);
            assert(cr[k + 1] == cs[k + 1]);
        }
        lemma_broken_children_same(l, mr, u, cr, t, dd);
        if cr.len() > 0 {
            assert(adjacent(ms[cs.len() - 2], ms[cs.len() - 1]) == adjacent(
                cs[cs.len() - 2],
                cs[cs.len() - 1],
            ));
        }
        assert(rendered(l, ms[cs.len() - 1], u, dd) == rendered(l, cs[cs.len() - 1], t, dd));
    }
}

/// A separator ends any object before it.
proof fn lemma_stops_at_separator(b: BlockModel, c: char)
    requires
        spec_is_whitespace(c) || closing_delimiter(c) is Some,
    ensures
        stops(b, c),
    decreases b,
{
    if let BlockModel::Application { form: ApplicationForm::Dot, payload, .. } = b {
        lemma_stops_at_separator(*payload, c);
    }
}

/// What a block read from the laid-out text keeps of the block it lays out:
/// its span over the layout, its single-line form, whether it is an atom, and
/// its layout at every depth.
pub open spec fn reads_as(
    l: PrettyLayout,
    m: BlockModel,
    u: Seq<char>,
    j: int,
    f: int,
    b: BlockModel,
    t: Seq<char>,
) -> bool {
    &&& m.span() == span_between(u, j, f)
    &&& inline_text(m, u) == inline_text(b, t)
    &&& (m is Atom) == (b is Atom)
    &&& forall|d: nat| #[trigger] rendered(l, m, u, d) == rendered(l, b, t, d)
}

pub open spec fn primary_layout(l: PrettyLayout, t: Seq<char>, i: int, depth: nat, inline: bool) -> Seq<char> {
    layout(l, parse_primary(t, i)->Ok_0.0, t, depth, inline)
}

pub open spec fn object_layout(l: PrettyLayout, t: Seq<char>, i: int, depth: nat, inline: bool) -> Seq<char> {
    layout(l, parse_object(t, i)->Ok_0.0, t, depth, inline)
}

/// `r` stands at `j` in `u`.
pub open spec fn stands_at(u: Seq<char>, j: int, r: Seq<char>) -> bool {
    0 <= j && j + r.len() <= u.len() && u.subrange(j, j + r.len()) == r
}

proof fn lemma_primary_reads(
    l: PrettyLayout,
    t: Seq<char>,
    i: int,
    depth: nat,
    inline: bool,
    u: Seq<char>,
    j: int,
)
    requires
        starts_object(t, i),
        parse_primary(t, i) is Ok,
        byte_length(t) < usize::MAX,
        byte_length(u) < usize::MAX,
        stands_at(u, j, primary_layout(l, t, i, depth, inline)),
        j + primary_layout(l, t, i, depth, inline).len() == u.len() || (parse_primary(t, i)->Ok_0.0 is Atom
            ==> ends_atom(u[j + primary_layout(l, t, i, depth, inline).len()])),
    ensures
        parse_primary(u, j) matches Ok((m, f)) && f == j + primary_layout(l, t, i, depth, inline).len()
            && reads_as(l, m, u, j, f, parse_primary(t, i)->Ok_0.0, t) && !(m is Application),
    decreases t.len() - i, 1int,
{
    lemma_primary_facts(t, i);
    lemma_primary_layout_first(l, t, i, depth, inline);
    let (b, k) = parse_primary(t, i)->Ok_0;
    let r = layout(l, b, t, depth, inline);
    let n = r.len() as int;
    assert(u[j] == r[0]);
    let c = t[i];
    if c == '(' || c == '[' || c == '{' {
        let d = if c == '(' {
            Delimiter::Parenthesis
        } else if c == '[' {
            Delimiter::SquareBracket
        } else {
            Delimiter::Brace
        };
        lemma_delimited_reads(l, t, i, d, depth, inline, u, j);
    } else {
        lemma_span_text(t, i, k);
        assert(r == t.subrange(i, k));
        assert(n == k - i);
        assert forall|z: int| i <= z < k implies u[j + (z - i)] == t[z] by {
            assert(u[j + (z - i)] == u.subrange(j, j + n)[z - i]);
        }
        lemma_span_text(u, j, j + n);
        assert(u.subrange(j, j + n) == r);
        if c == '“' {
            lemma_scan_copy(t, i + 1, 1, Seq::empty(), i, u, j + 1, j);
        } else {
            lemma_atom_copy(t, i, u, j);
        }
    }
}

#[verifier::spinoff_prover]
#[verifier::rlimit(60)]
proof fn lemma_object_reads(
    l: PrettyLayout,
    t: Seq<char>,
    i: int,
    depth: nat,
    inline: bool,
    u: Seq<char>,
    j: int,
)
    requires
        starts_object(t, i),
        parse_object(t, i) is Ok,
        byte_length(t) < usize::MAX,
        byte_length(u) < usize::MAX,
        stands_at(u, j, object_layout(l, t, i, depth, inline)),
        j + object_layout(l, t, i, depth, inline).len() == u.len() || stops(
            parse_object(t, i)->Ok_0.0,
            u[j + object_layout(l, t, i, depth, inline).len()],
        ),
    ensures
        parse_object(u, j) matches Ok((m, f)) && f == j + object_layout(l, t, i, depth, inline).len()
            && reads_as(l, m, u, j, f, parse_object(t, i)->Ok_0.0, t),
    decreases t.len() - i, 2int,
{
    lemma_object_facts(t, i);
    lemma_primary_facts(t, i);
    let (head, k) = parse_primary(t, i)->Ok_0;
    let (b, e) = parse_object(t, i)->Ok_0;
    let r = layout(l, b, t, depth, inline);
    let n = r.len() as int;
    if k < t.len() && t[k] == '.' {
        let p = parse_object(t, k + 1)->Ok_0.0;
        let flag = inline || fits(l, inline_text(b, t).len() as int, depth);
        let hl = layout(l, head, t, depth, flag);
        let pl = layout(l, p, t, depth, flag);
        assert(r == hl + seq!['.'] + pl);
        let k2 = j + hl.len();
        assert(u.subrange(j, k2) =~= hl) by {
            assert forall|z: int| 0 <= z < hl.len() implies u.subrange(j, k2)[z] == hl[z] by {
                assert(u[j + z] == r[z]);
            }
        }
        assert(u[k2] == r[hl.len() as int]);
        assert(u[k2] == '.');
        lemma_primary_reads(l, t, i, depth, flag, u, j);
        let (mh, fh) = parse_primary(u, j)->Ok_0;
        lemma_object_layout_first(l, t, k + 1, depth, flag);
        assert(u.subrange(k2 + 1, k2 + 1 + pl.len()) =~= pl) by {
            assert forall|z: int| 0 <= z < pl.len() implies u.subrange(k2 + 1, k2 + 1 + pl.len())[z]
                == pl[z] by {
                assert(u[k2 + 1 + z] == r[hl.len() + 1 + z]);
            }
        }
        assert(j + n == k2 + 1 + pl.len());
        assert(u[k2 + 1] == t[k + 1]);
        assert(at_primary_start(t, k + 1));
        if t[k + 1] == ';' && k2 + 2 < u.len() {
            if pl.len() >= 2 {
                assert(u[k2 + 2] == pl[1]);
            } else {
                assert(p is Atom);
                assert(stops(b, u[k2 + 2]));
                assert(stops(p, u[k2 + 2]));
            }
        }
        assert(!comment_at(u, k2 + 1));
        assert(at_primary_start(u, k2 + 1));
        lemma_object_reads(l, t, k + 1, depth, flag, u, k2 + 1);
        let mp = parse_object(u, k2 + 1)->Ok_0.0;
        let m = parse_object(u, j)->Ok_0.0;
        assert(m is Application && m->form == ApplicationForm::Dot && *m->head == mh && *m->payload
            == mp);
        assert forall|d2: nat| #[trigger] rendered(l, m, u, d2) == rendered(l, b, t, d2) by {
            assert(rendered(l, mh, u, d2) == rendered(l, head, t, d2));
            assert(rendered(l, mp, u, d2) == rendered(l, p, t, d2));
        }
    } else if k < t.len() && t[k] == '<' {
        lemma_delimited_facts(t, k, Delimiter::Angle);
        let p = parse_delimited(t, k, Delimiter::Angle)->Ok_0.0;
        let flag = inline || fits(l, inline_text(b, t).len() as int, depth);
        let hl = layout(l, head, t, depth, flag);
        let pl = layout(l, p, t, depth, flag);
        assert(r =~= hl + pl);
        let k2 = j + hl.len();
        assert(u.subrange(j, k2) =~= hl) by {
            assert forall|z: int| 0 <= z < hl.len() implies u.subrange(j, k2)[z] == hl[z] by {
                assert(u[j + z] == r[z]);
            }
        }
        assert(pl[0] == '<');
        assert(u[k2] == r[hl.len() as int]);
        lemma_primary_reads(l, t, i, depth, flag, u, j);
        assert(u.subrange(k2, k2 + pl.len()) =~= pl) by {
            assert forall|z: int| 0 <= z < pl.len() implies u.subrange(k2, k2 + pl.len())[z] == pl[z] by {
                assert(u[k2 + z] == r[hl.len() + z]);
            }
        }
        lemma_delimited_reads(l, t, k, Delimiter::Angle, depth, flag, u, k2);
        let mh = parse_primary(u, j)->Ok_0.0;
        let mp = parse_delimited(u, k2, Delimiter::Angle)->Ok_0.0;
        let m = parse_object(u, j)->Ok_0.0;
        assert(m is Application && m->form == ApplicationForm::Angle && *m->head == mh
            && *m->payload == mp);
        assert forall|d2: nat| #[trigger] rendered(l, m, u, d2) == rendered(l, b, t, d2) by {
            assert(rendered(l, mh, u, d2) == rendered(l, head, t, d2));
            assert(rendered(l, mp, u, d2) == rendered(l, p, t, d2));
        }
    } else {
        assert(b == head);
        lemma_primary_reads(l, t, i, depth, inline, u, j);
    }
}

proof fn lemma_delimited_reads(
    l: PrettyLayout,
    t: Seq<char>,
    i: int,
    d: Delimiter,
    depth: nat,
    inline: bool,
    u: Seq<char>,
    j: int,
)
    requires
        0 <= i < t.len(),
        parse_delimited(t, i, d) is Ok,
        byte_length(t) < usize::MAX,
        byte_length(u) < usize::MAX,
        stands_at(u, j, layout(l, parse_delimited(t, i, d)->Ok_0.0, t, depth, inline)),
    ensures
        parse_delimited(u, j, d) matches Ok((m, f)) && f == j + layout(
            l,
            parse_delimited(t, i, d)->Ok_0.0,
            t,
            depth,
            inline,
        ).len() && reads_as(l, m, u, j, f, parse_delimited(t, i, d)->Ok_0.0, t),
    decreases t.len() - i, 0int,
{
    let (b, e) = parse_delimited(t, i, d)->Ok_0;
    let cs = b->children;
    let r = layout(l, b, t, depth, inline);
    let flag = inline || fits(l, inline_text(b, t).len() as int, depth) || cs.len() == 0;
    let dd = deeper(depth);
    let open = d.spec_opening_text();
    let close = d.spec_closing_text();
    let lead: Seq<char> = if flag {
        Seq::empty()
    } else {
        gap(l, dd, false)
    };
    let tail: Seq<char> = if flag {
        close
    } else {
        seq!['\n'] + spaces((depth * l.spec_indent_unit()) as nat) + close
    };
    let ct = children_text(l, cs, t, dd, flag, lead);
    if flag {
        lemma_inline_children_text(l, cs, t, dd);
        assert(r == open + ct + tail);
    } else {
        lemma_broken_children_text(l, cs, t, dd);
        assert(r =~= open + ct + tail);
    }
    assert(open.len() == 1);
    assert(u.subrange(j + 1, j + 1 + ct.len() + tail.len()) =~= ct + tail) by {
        assert forall|z: int| 0 <= z < ct.len() + tail.len() implies u.subrange(
            j + 1,
            j + 1 + ct.len() + tail.len(),
        )[z] == (ct + tail)[z] by {
            assert(u[j + 1 + z] == r[1 + z]);
        }
    }
    assert(blank(lead));
    assert(blank(tail.drop_last()));
    lemma_children_reads(l, t, i + 1, d, i, dd, flag, lead, u, j + 1, j, tail);
    let (ms, f) = parse_children(u, j + 1, d, j)->Ok_0;
    lemma_inline_children_same(ms, u, cs, t);
    let m = parse_delimited(u, j, d)->Ok_0.0;
    assert forall|d2: nat| #[trigger] rendered(l, m, u, d2) == rendered(l, b, t, d2) by {
        lemma_broken_children_same(l, ms, u, cs, t, deeper(d2));
    }
}

#[verifier::spinoff_prover]
#[verifier::rlimit(80)]
proof fn lemma_children_reads(
    l: PrettyLayout,
    t: Seq<char>,
    p: int,
    d: Delimiter,
    s: int,
    dd: nat,
    inline: bool,
    lead: Seq<char>,
    u: Seq<char>,
    q: int,
    s2: int,
    tail: Seq<char>,
)
    requires
        0 <= p,
        parse_children(t, p, d, s) is Ok,
        byte_length(t) < usize::MAX,
        byte_length(u) < usize::MAX,
        blank(lead),
        tail.len() >= 1,
        tail.last() == closing_char(d),
        blank(tail.drop_last()),
        stands_at(
            u,
            q,
            children_text(l, parse_children(t, p, d, s)->Ok_0.0, t, dd, inline, lead) + tail,
        ),
    ensures
        ({
            let cs = parse_children(t, p, d, s)->Ok_0.0;
            let ct = children_text(l, cs, t, dd, inline, lead);
            parse_children(u, q, d, s2) matches Ok((ms, f)) && f == q + ct.len() + tail.len()
                && ms.len() == cs.len() && (forall|k: int|
                0 <= k < cs.len() ==> inline_text(#[trigger] ms[k], u) == inline_text(cs[k], t))
                && (forall|k: int, d: nat|
                0 <= k < cs.len() ==> #[trigger] rendered(l, ms[k], u, d) == rendered(l, cs[k], t, d))
                && (forall|k: int|
                0 <= k < cs.len() - 1 ==> adjacent(#[trigger] ms[k], ms[k + 1]) == adjacent(
                    cs[k],
                    cs[k + 1],
                )) && (cs.len() > 0 ==> ms[0].span().start == position_at(u, q + lead.len()))
        }),
    decreases t.len() - p, 3int,
{
    let jt = skip_spacing(t, p);
    lemma_skip_spacing(t, p);
    let (cs, e) = parse_children(t, p, d, s)->Ok_0;
    let ct = children_text(l, cs, t, dd, inline, lead);
    let whole = ct + tail;
    if t[jt] == closing_char(d) {
        assert(cs.len() == 0);
        assert(ct == Seq::<char>::empty());
        let n = tail.len() - 1;
        assert forall|x: int| q <= x < q + n implies #[trigger] u[x] == ' ' || u[x] == '\n' by {
            assert(u[x] == whole[x - q]);
            assert(whole[x - q] == tail.drop_last()[x - q]);
        }
        assert(u[q + n] == whole[n]);
        assert(u[q + n] == closing_char(d));
        lemma_skip_blank(u, q, n);
    } else {
        let (c0, k0) = parse_object(t, jt)->Ok_0;
        let rest = parse_children(t, k0, d, s)->Ok_0.0;
        assert(starts_object(t, jt));
        lemma_object_facts(t, jt);
        assert(cs == seq![c0] + rest);
        assert(cs[0] == c0);
        assert(cs.drop_first() =~= rest);
        let lay0 = layout(l, c0, t, dd, inline);
        let lead2: Seq<char> = if cs.len() > 1 && adjacent(cs[0], cs[1]) {
            Seq::empty()
        } else {
            gap(l, dd, inline)
        };
        let ctr = children_text(l, rest, t, dd, inline, lead2);
        assert(ct == lead + lay0 + ctr);
        let q0 = q + lead.len();
        let f0 = q0 + lay0.len();
        lemma_object_layout_first(l, t, jt, dd, inline);
        // The layout of the first child stands after the lead.
        assert(u.subrange(q0, f0) =~= lay0) by {
            assert forall|z: int| 0 <= z < lay0.len() implies u.subrange(q0, f0)[z] == lay0[z] by {
                assert(u[q0 + z] == whole[lead.len() + z]);
            }
        }
        assert(u.subrange(f0, f0 + ctr.len() + tail.len()) =~= ctr + tail) by {
            assert forall|z: int| 0 <= z < ctr.len() + tail.len() implies u.subrange(
                f0,
                f0 + ctr.len() + tail.len(),
            )[z] == (ctr + tail)[z] by {
                assert(u[f0 + z] == whole[lead.len() + lay0.len() + z]);
            }
        }
        assert(u[q0] == t[jt]);
        // What follows the first child in the layout ends it.
        if rest.len() > 0 {
            let j1 = skip_spacing(t, k0);
            lemma_skip_spacing(t, k0);
            assert(starts_object(t, j1));
            lemma_object_facts(t, j1);
            lemma_object_layout_first(l, t, j1, dd, inline);
            assert(rest[0] == parse_object(t, j1)->Ok_0.0);
            let lay1 = layout(l, rest[0], t, dd, inline);
            let next2: Seq<char> = if rest.len() > 1 && adjacent(rest[0], rest[1]) {
                Seq::empty()
            } else {
                gap(l, dd, inline)
            };
            assert(ctr == lead2 + lay1 + children_text(l, rest.drop_first(), t, dd, inline, next2));
            assert(lay1.len() > 0);
            assert(ctr.len() > 0);
            assert(u[f0] == (ctr + tail)[0]);
            if lead2.len() == 0 {
                lemma_position_injective(t, k0, j1);
                assert(k0 == j1);
                assert(u[f0] == ctr[0]);
                assert(ctr[0] == layout(l, rest[0], t, dd, inline)[0]);
            } else {
                assert(u[f0] == ctr[0]);
                assert(ctr[0] == lead2[0]);
                lemma_stops_at_separator(c0, u[f0]);
            }
        } else {
            assert(ctr == Seq::<char>::empty());
            assert(u[f0] == tail[0]);
            if tail.len() > 1 {
                assert(tail[0] == tail.drop_last()[0]);
            }
            lemma_stops_at_separator(c0, u[f0]);
        }
        if lay0.len() >= 2 {
            assert(u[q0 + 1] == lay0[1]);
        }
        assert forall|x: int| q <= x < q0 implies #[trigger] u[x] == ' ' || u[x] == '\n' by {
            assert(u[x] == whole[x - q]);
            assert(whole[x - q] == lead[x - q]);
        }
        lemma_skip_blank(u, q, lead.len() as int);
        lemma_object_reads(l, t, jt, dd, inline, u, q0);
        lemma_children_reads(l, t, k0, d, s, dd, inline, lead2, u, f0, s2, tail);
        let (m0, fm) = parse_object(u, q0)->Ok_0;
        let (msr, f) = parse_children(u, f0, d, s2)->Ok_0;
        let ms = seq![m0] + msr;
        assert(ms[0] == m0);
        assert forall|k: int| 0 <= k < cs.len() implies inline_text(#[trigger] ms[k], u) == inline_text(
            cs[k],
            t,
        ) by {
            if k > 0 {
                assert(ms[k] == msr[k - 1]);
                assert(cs[k] == rest[k - 1]);
            }
        }
        if rest.len() > 0 {
            lemma_position_injective(u, f0, f0 + lead2.len());
            let j1 = skip_spacing(t, k0);
            lemma_position_injective(t, k0, j1);
        }
        assert forall|k: int, d: nat| 0 <= k < cs.len() implies #[trigger] rendered(l, ms[k], u, d)
            == rendered(l, cs[k], t, d) by {
            if k > 0 {
                assert(ms[k] == msr[k - 1]);
                assert(cs[k] == rest[k - 1]);
            }
        }
        assert forall|k: int| 0 <= k < cs.len() - 1 implies adjacent(#[trigger] ms[k], ms[k + 1])
            == adjacent(cs[k], cs[k + 1]) by {
            if k > 0 {
                assert(ms[k] == msr[k - 1]);
                assert(ms[k + 1] == msr[k]);
                assert(cs[k] == rest[k - 1]);
                assert(cs[k + 1] == rest[k]);
            } else {
                assert(ms[1] == msr[0]);
                assert(cs[1] == rest[0]);
            }
        }
    }
}


/// Root objects laid out one per line: `lead` before the first, then a line
/// break before each of the others.
pub open spec fn roots_text(l: PrettyLayout, rs: Seq<BlockModel>, t: Seq<char>, lead: Seq<char>) -> Seq<
    char,
>
    decreases rs.len(),
{
    if rs.len() == 0 {
        Seq::empty()
    } else {
        lead + rendered(l, rs[0], t, 0) + roots_text(l, rs.drop_first(), t, seq!['\n'])
    }
}

proof fn lemma_roots_text_push(
    l: PrettyLayout,
    rs: Seq<BlockModel>,
    x: BlockModel,
    t: Seq<char>,
    lead: Seq<char>,
)
    ensures
        roots_text(l, rs.push(x), t, lead) == if rs.len() == 0 {
            lead + rendered(l, x, t, 0)
        } else {
            roots_text(l, rs, t, lead) + seq!['\n'] + rendered(l, x, t, 0)
        },
    decreases rs.len(),
{
    let ys = rs.push(x);
    assert(ys[0] == if rs.len() == 0 {
        x
    } else {
        rs[0]
    });
    if rs.len() == 0 {
        assert(ys.drop_first() =~= Seq::<BlockModel>::empty());
        assert(roots_text(l, ys.drop_first(), t, seq!['\n']) == Seq::<char>::empty());
        assert(roots_text(l, ys, t, lead) =~= lead + rendered(l, x, t, 0));
    } else {
        assert(ys.drop_first() =~= rs.drop_first().push(x));
        lemma_roots_text_push(l, rs.drop_first(), x, t, seq!['\n']);
        if rs.len() == 1 {
            assert(rs.drop_first() =~= Seq::<BlockModel>::empty());
            assert(roots_text(l, rs.drop_first(), t, seq!['\n']) == Seq::<char>::empty());
        }
        assert(roots_text(l, ys, t, lead) =~= roots_text(l, rs, t, lead) + seq!['\n'] + rendered(
            l,
            x,
            t,
            0,
        ));
    }
}

proof fn lemma_rendered_roots_text(l: PrettyLayout, rs: Seq<BlockModel>, t: Seq<char>)
    ensures
        rendered_roots(l, rs, t) == roots_text(l, rs, t, Seq::empty()),
    decreases rs.len(),
{
    if rs.len() > 0 {
        let rest = rs.drop_last();
        lemma_rendered_roots_text(l, rest, t);
        lemma_roots_text_push(l, rest, rs.last(), t, Seq::empty());
        assert(rest.push(rs.last()) =~= rs);
        if rs.len() == 1 {
            assert(rs.last() == rs[0]);
            assert(Seq::<char>::empty() + rendered(l, rs[0], t, 0) =~= rendered(l, rs[0], t, 0));
        }
    }
}

#[verifier::spinoff_prover]
#[verifier::rlimit(60)]
proof fn lemma_roots_reads(
    l: PrettyLayout,
    t: Seq<char>,
    i: int,
    lead: Seq<char>,
    u: Seq<char>,
    q: int,
)
    requires
        0 <= i,
        parse_roots(t, i) is Ok,
        byte_length(t) < usize::MAX,
        byte_length(u) < usize::MAX,
        blank(lead),
        q + roots_text(l, parse_roots(t, i)->Ok_0, t, lead).len() == u.len(),
        stands_at(u, q, roots_text(l, parse_roots(t, i)->Ok_0, t, lead)),
    ensures
        ({
            let rs = parse_roots(t, i)->Ok_0;
            parse_roots(u, q) matches Ok(ms) && ms.len() == rs.len() && (forall|k: int|
                0 <= k < rs.len() ==> inline_text(#[trigger] ms[k], u) == inline_text(rs[k], t))
                && (forall|k: int|
                0 <= k < rs.len() ==> #[trigger] rendered(l, ms[k], u, 0) == rendered(l, rs[k], t, 0))
        }),
    decreases t.len() - i,
{
    let jt = skip_spacing(t, i);
    lemma_skip_spacing(t, i);
    let rs = parse_roots(t, i)->Ok_0;
    let rt = roots_text(l, rs, t, lead);
    if jt >= t.len() {
        assert(rs.len() == 0);
        assert(rt == Seq::<char>::empty());
        assert(skip_spacing(u, q) == q);
    } else {
        assert(closing_delimiter(t[jt]) is None);
        assert(starts_object(t, jt));
        lemma_object_facts(t, jt);
        let (b, k) = parse_object(t, jt)->Ok_0;
        let rest = parse_roots(t, k)->Ok_0;
        assert(rs == seq![b] + rest);
        assert(rs[0] == b);
        assert(rs.drop_first() =~= rest);
        let lay = rendered(l, b, t, 0);
        let rrt = roots_text(l, rest, t, seq!['\n']);
        assert(rt == lead + lay + rrt);
        let q0 = q + lead.len();
        let f0 = q0 + lay.len();
        lemma_object_layout_first(l, t, jt, 0, false);
        assert(u.subrange(q0, f0) =~= lay) by {
            assert forall|z: int| 0 <= z < lay.len() implies u.subrange(q0, f0)[z] == lay[z] by {
                assert(u[q0 + z] == rt[lead.len() + z]);
            }
        }
        assert(u.subrange(f0, f0 + rrt.len()) =~= rrt) by {
            assert forall|z: int| 0 <= z < rrt.len() implies u.subrange(f0, f0 + rrt.len())[z]
                == rrt[z] by {
                assert(u[f0 + z] == rt[lead.len() + lay.len() + z]);
            }
        }
        assert(u[q0] == t[jt]);
        if rest.len() > 0 {
            assert(rrt[0] == '\n');
            assert(u[f0] == '\n');
            lemma_stops_at_separator(b, u[f0]);
        } else {
            assert(rrt == Seq::<char>::empty());
        }
        if lay.len() >= 2 {
            assert(u[q0 + 1] == lay[1]);
        }
        assert forall|x: int| q <= x < q0 implies #[trigger] u[x] == ' ' || u[x] == '\n' by {
            assert(u[x] == rt[x - q]);
            assert(rt[x - q] == lead[x - q]);
        }
        lemma_skip_blank(u, q, lead.len() as int);
        lemma_object_reads(l, t, jt, 0, false, u, q0);
        lemma_roots_reads(l, t, k, seq!['\n'], u, f0);
        let (m0, fm) = parse_object(u, q0)->Ok_0;
        let msr = parse_roots(u, f0)->Ok_0;
        let ms = seq![m0] + msr;
        assert(ms[0] == m0);
        assert forall|z: int| 0 <= z < rs.len() implies inline_text(#[trigger] ms[z], u) == inline_text(
            rs[z],
            t,
        ) by {
            if z > 0 {
                assert(ms[z] == msr[z - 1]);
                assert(rs[z] == rest[z - 1]);
            }
        }
        assert forall|z: int| 0 <= z < rs.len() implies #[trigger] rendered(l, ms[z], u, 0) == rendered(
            l,
            rs[z],
            t,
            0,
        ) by {
            if z > 0 {
                assert(ms[z] == msr[z - 1]);
                assert(rs[z] == rest[z - 1]);
            }
        }
    }
}

/// Roots with the same layouts lay out to the same text.
proof fn lemma_rendered_roots_same(
    l: PrettyLayout,
    ms: Seq<BlockModel>,
    u: Seq<char>,
    rs: Seq<BlockModel>,
    t: Seq<char>,
)
    requires
        ms.len() == rs.len(),
        forall|k: int|
            0 <= k < rs.len() ==> #[trigger] rendered(l, ms[k], u, 0) == rendered(l, rs[k], t, 0),
    ensures
        rendered_roots(l, ms, u) == rendered_roots(l, rs, t),
    decreases rs.len(),
{
    if rs.len() > 0 {
        let mr = ms.drop_last();
        let rr = rs.drop_last();
        assert forall|k: int| 0 <= k < rr.len() implies #[trigger] rendered(l, mr[k], u, 0) == rendered(
            l,
            rr[k],
            t,
            0,
        ) by {
            assert(mr[k] == ms[k]);
            assert(rr[k] == rs[k]);
        }
        lemma_rendered_roots_same(l, mr, u, rr, t);
        assert(rendered(l, ms[rs.len() - 1], u, 0) == rendered(l, rs[rs.len() - 1], t, 0));
        if rs.len() == 1 {
            assert(rendered(l, ms[0], u, 0) == rendered(l, rs[0], t, 0));
        }
    }
}

/// The laid-out form of a document reads back as the document: parsing it
/// gives as many root objects, each with the same single-line form as the
/// root it lays out; and laying the result out again gives the same text.
pub proof fn lemma_pretty_reads_back(l: PrettyLayout, t: Seq<char>)
    requires
        parse_document(t) is Ok,
        byte_length(t) < usize::MAX,
        byte_length(rendered_roots(l, parse_document(t)->Ok_0, t)) < usize::MAX,
    ensures
        ({
            let roots = parse_document(t)->Ok_0;
            let u = rendered_roots(l, roots, t);
            parse_document(u) matches Ok(ms) && ms.len() == roots.len() && (forall|k: int|
                0 <= k < roots.len() ==> inline_text(#[trigger] ms[k], u) == inline_text(roots[k], t))
                && rendered_roots(l, ms, u) == u
        }),
{
    let roots = parse_document(t)->Ok_0;
    let u = rendered_roots(l, roots, t);
    lemma_rendered_roots_text(l, roots, t);
    assert(u.subrange(0, u.len() as int) =~= u);
    assert(blank(Seq::<char>::empty()));
    lemma_roots_reads(l, t, 0, Seq::empty(), u, 0);
    let ms = parse_roots(u, 0)->Ok_0;
    lemma_rendered_roots_same(l, ms, u, roots, t);
}

} // verus!
