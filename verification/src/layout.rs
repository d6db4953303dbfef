//! How a parsed document lies over its source text: every object takes at
//! least one character, so a document holds no more blocks than its text has
//! characters; spans run forward, children lie inside their parent in
//! source order, and an atom's text is the source slice its span covers.
use vstd::prelude::*;
use crate::chars::spec_is_whitespace;
use crate::grammar::{
    at_primary_start, atom_at, atom_end, ends_atom, byte_length, closing_char, closing_delimiter, comment_at,
    cursor_at, parse_children, parse_curly_text, parse_delimited, parse_document, parse_object,
    parse_primary, parse_roots, position_at, scan_curly, skip_comment, skip_spacing, span_between,
};
use crate::model::{BlockModel, Delimiter};
use crate::reader::{lemma_atom_end, lemma_cursor_bounds};

verus! {

/// The number of blocks in a tree, the root included.
pub open spec fn block_count(m: BlockModel) -> nat
    decreases m,
{
    match m {
        BlockModel::Delimited { children, .. } => 1 + blocks_count(children),
        BlockModel::Application { head, payload, .. } => 1 + block_count(*head) + block_count(
            *payload,
        ),
        _ => 1,
    }
}

/// The number of blocks in a sequence of trees.
pub open spec fn blocks_count(s: Seq<BlockModel>) -> nat
    decreases s,
{
    if s.len() == 0 {
        0
    } else {
        proof {
            assert(decreases_to!(s => s.subrange(1, s.len() as int)));
        }
        block_count(s[0]) + blocks_count(s.subrange(1, s.len() as int))
    }
}

/// A block lies well over the text `t`: its span runs forward; an atom's text
/// is the slice of `t` its span covers; an application's head starts it, its
/// payload ends it, and the head ends before the payload starts; a delimited
/// block's children lie, in order, between its two delimiter characters.
pub open spec fn nested(t: Seq<char>, m: BlockModel) -> bool
    decreases m,
{
    let s = m.span();
    &&& s.start.byte_offset < s.end.byte_offset
    &&& match m {
        BlockModel::Atom { text, span } => exists|i: int| #[trigger] covers(t, i, text, span),
        BlockModel::CurlyText { .. } => true,
        BlockModel::Application { head, payload, .. } => {
            &&& head.span().start == s.start
            &&& payload.span().end == s.end
            &&& head.span().end.byte_offset <= payload.span().start.byte_offset
            &&& nested(t, *head)
            &&& nested(t, *payload)
        },
        BlockModel::Delimited { children, .. } => nested_children(
            t,
            children,
            s.start.byte_offset + 1,
            s.end.byte_offset - 1,
        ),
    }
}

/// `text` is the slice of `t` from character `i` on, `span` is where that
/// slice lies, and the slice holds no character that ends an atom (spacing,
/// a period, a delimiter, a curly quote or a pipe) and no comment marker.
pub open spec fn covers(t: Seq<char>, i: int, text: Seq<char>, span: crate::model::SourceSpan) -> bool {
    &&& 0 <= i
    &&& i + text.len() <= t.len()
    &&& span == span_between(t, i, i + text.len())
    &&& text == t.subrange(i, i + text.len())
    &&& forall|k: int| 0 <= k < text.len() ==> !ends_atom(#[trigger] text[k])
    &&& forall|k: int| 0 <= k < text.len() - 1 ==> !(#[trigger] text[k] == ';' && text[k + 1] == ';')
}

/// The characters an atom takes end no atom and start no comment.
proof fn lemma_atom_chars(t: Seq<char>, i: int)
    requires
        0 <= i,
    ensures
        forall|k: int| i <= k < atom_end(t, i) ==> !ends_atom(#[trigger] t[k]) && !comment_at(t, k),
    decreases t.len() - i,
{
    if 0 <= i < t.len() && !ends_atom(t[i]) && !comment_at(t, i) {
        lemma_atom_chars(t, i + 1);
    }
}

/// Blocks lie well over `t`, one after another, between the byte offsets
/// `lo` and `hi`.
pub open spec fn nested_children(t: Seq<char>, cs: Seq<BlockModel>, lo: int, hi: int) -> bool
    decreases cs,
{
    if cs.len() == 0 {
        lo <= hi
    } else {
        proof {
            assert(decreases_to!(cs => cs.subrange(1, cs.len() as int)));
        }
        &&& lo <= cs[0].span().start.byte_offset
        &&& nested(t, cs[0])
        &&& nested_children(t, cs.subrange(1, cs.len() as int), cs[0].span().end.byte_offset as int, hi)
    }
}

/// An object may start at `i`: a character that is no spacing, no closing
/// delimiter and no comment marker.
pub open spec fn object_start(t: Seq<char>, i: int) -> bool {
    &&& 0 <= i < t.len()
    &&& !spec_is_whitespace(t[i])
    &&& closing_delimiter(t[i]) is None
    &&& !comment_at(t, i)
}

/// The byte offset after `j` characters.
spec fn off(t: Seq<char>, j: int) -> int {
    cursor_at(t, j).0
}

proof fn lemma_offsets(t: Seq<char>, i: int, j: int)
    requires
        0 <= i < j <= t.len(),
        byte_length(t) < usize::MAX,
    ensures
        off(t, i) < off(t, j),
        position_at(t, i).byte_offset == off(t, i),
        position_at(t, j).byte_offset == off(t, j),
{
    lemma_cursor_bounds(t, i, j - 1);
    lemma_cursor_bounds(t, j, t.len() as int);
    lemma_cursor_bounds(t, i, t.len() as int);
    lemma_cursor_bounds(t, 0, i);
    assert(off(t, j) == off(t, j - 1) + crate::chars::spec_utf8_width(t[j - 1]));
}

proof fn lemma_offset_le(t: Seq<char>, i: int, j: int)
    requires
        0 <= i <= j <= t.len(),
        byte_length(t) < usize::MAX,
    ensures
        off(t, i) <= off(t, j),
        position_at(t, i).byte_offset == off(t, i),
        position_at(t, j).byte_offset == off(t, j),
{
    lemma_cursor_bounds(t, i, j);
    lemma_cursor_bounds(t, j, t.len() as int);
    lemma_cursor_bounds(t, i, t.len() as int);
    lemma_cursor_bounds(t, 0, i);
}

/// A one-byte character at `i` moves the offset by one.
proof fn lemma_ascii_step(t: Seq<char>, i: int)
    requires
        0 <= i < t.len(),
        (t[i] as u32) < 0x80,
    ensures
        off(t, i + 1) == off(t, i) + 1,
{
}

proof fn lemma_skip(t: Seq<char>, i: int)
    requires
        0 <= i,
    ensures
        skip_spacing(t, i) >= i,
        skip_spacing(t, i) < t.len() ==> !spec_is_whitespace(t[skip_spacing(t, i)]) && !comment_at(
            t,
            skip_spacing(t, i),
        ),
    decreases t.len() - i, 1int,
{
    if 0 <= i < t.len() && spec_is_whitespace(t[i]) {
        lemma_skip(t, i + 1);
    } else if comment_at(t, i) {
        lemma_skip_comment(t, i);
    }
}

proof fn lemma_skip_comment(t: Seq<char>, i: int)
    requires
        0 <= i,
    ensures
        skip_comment(t, i) >= i,
        skip_comment(t, i) < t.len() ==> !spec_is_whitespace(t[skip_comment(t, i)]) && !comment_at(
            t,
            skip_comment(t, i),
        ),
    decreases t.len() - i, 0int,
{
    if 0 <= i < t.len() {
        if t[i] == '\n' {
            lemma_skip(t, i + 1);
        } else {
            lemma_skip_comment(t, i + 1);
        }
    }
}

proof fn lemma_scan(t: Seq<char>, i: int, depth: nat, text: Seq<char>, start: int)
    requires
        0 <= i,
    ensures
        scan_curly(t, i, depth, text, start) matches Ok((_, e)) ==> i < e <= t.len(),
    decreases t.len() - i,
{
    if 0 <= i < t.len() {
        let c = t[i];
        if c == '\\' {
            if i + 1 < t.len() && crate::grammar::escapable(t[i + 1]) {
                lemma_scan(t, i + 2, depth, text.push(t[i + 1]), start);
            }
        } else if c == '“' {
            lemma_scan(t, i + 1, depth + 1, text.push(c), start);
        } else if c == '”' {
            if depth > 1 {
                lemma_scan(t, i + 1, (depth - 1) as nat, text.push(c), start);
            }
        } else {
            lemma_scan(t, i + 1, depth, text.push(c), start);
        }
    }
}

proof fn lemma_prepend_children(t: Seq<char>, b: BlockModel, rest: Seq<BlockModel>, lo: int, hi: int)
    requires
        lo <= b.span().start.byte_offset,
        nested(t, b),
        nested_children(t, rest, b.span().end.byte_offset as int, hi),
    ensures
        nested_children(t, seq![b] + rest, lo, hi),
        blocks_count(seq![b] + rest) == block_count(b) + blocks_count(rest),
{
    let s = seq![b] + rest;
    assert(s[0] == b);
    assert(s.subrange(1, s.len() as int) =~= rest);
}

proof fn lemma_children(t: Seq<char>, i: int, delimiter: Delimiter, start: int)
    requires
        0 <= i,
        byte_length(t) < usize::MAX,
    ensures
        parse_children(t, i, delimiter, start) matches Ok((cs, e)) ==> {
            &&& i < e <= t.len()
            &&& t[e - 1] == closing_char(delimiter)
            &&& blocks_count(cs) + 1 <= e - i
            &&& nested_children(t, cs, off(t, i), off(t, e - 1))
        },
    decreases t.len() - i, 3int,
{
    let j = skip_spacing(t, i);
    lemma_skip(t, i);
    if j < i || j < 0 || j >= t.len() {
    } else if t[j] == closing_char(delimiter) {
        lemma_offset_le(t, i, j);
        assert(blocks_count(Seq::<BlockModel>::empty()) == 0);
    } else if closing_delimiter(t[j]) is Some {
    } else {
        assert(object_start(t, j));
        lemma_object(t, j);
        match parse_object(t, j) {
            Err(_) => {},
            Ok((block, k)) => if k <= j || k > t.len() {
            } else {
                lemma_children(t, k, delimiter, start);
                match parse_children(t, k, delimiter, start) {
                    Err(_) => {},
                    Ok((rest, e)) => {
                        lemma_offset_le(t, i, j);
                        lemma_offsets(t, j, k);
                        lemma_prepend_children(t, block, rest, off(t, i), off(t, e - 1));
                    },
                }
            },
        }
    }
}

proof fn lemma_delimited(t: Seq<char>, i: int, delimiter: Delimiter)
    requires
        0 <= i < t.len(),
        (t[i] as u32) < 0x80,
        byte_length(t) < usize::MAX,
    ensures
        parse_delimited(t, i, delimiter) matches Ok((m, e)) ==> {
            &&& i + 1 < e <= t.len()
            &&& block_count(m) + 1 <= e - i
            &&& m.span() == span_between(t, i, e)
            &&& nested(t, m)
        },
    decreases t.len() - i, 0int,
{
    lemma_children(t, i + 1, delimiter, i);
    match parse_children(t, i + 1, delimiter, i) {
        Err(_) => {},
        Ok((children, e)) => {
            lemma_ascii_step(t, i);
            lemma_ascii_step(t, e - 1);
            lemma_offsets(t, i, e);
            lemma_offset_le(t, i + 1, e - 1);
        },
    }
}

proof fn lemma_primary(t: Seq<char>, i: int)
    requires
        object_start(t, i),
        byte_length(t) < usize::MAX,
    ensures
        parse_primary(t, i) matches Ok((m, e)) ==> {
            &&& i < e <= t.len()
            &&& block_count(m) <= e - i
            &&& m.span() == span_between(t, i, e)
            &&& nested(t, m)
        },
    decreases t.len() - i, 1int,
{
    let c = t[i];
    if c == '(' {
        lemma_delimited(t, i, Delimiter::Parenthesis);
    } else if c == '[' {
        lemma_delimited(t, i, Delimiter::SquareBracket);
    } else if c == '{' {
        lemma_delimited(t, i, Delimiter::Brace);
    } else if c == '“' {
        lemma_scan(t, i + 1, 1, Seq::empty(), i);
        match parse_curly_text(t, i) {
            Err(_) => {},
            Ok((m, e)) => {
                lemma_offsets(t, i, e);
            },
        }
    } else if c == '<' || c == '”' || c == '>' || c == '.' || c == '|' {
    } else {
        lemma_atom_end(t, i);
        lemma_atom_chars(t, i);
        let e = atom_end(t, i);
        let text = t.subrange(i, e);
        assert forall|k: int| 0 <= k < text.len() implies !ends_atom(#[trigger] text[k]) by {
            assert(text[k] == t[i + k]);
        }
        assert forall|k: int| 0 <= k < text.len() - 1 implies !(#[trigger] text[k] == ';' && text[k
            + 1] == ';') by {
            assert(text[k] == t[i + k]);
            assert(text[k + 1] == t[i + k + 1]);
            assert(!comment_at(t, i + k));
        }
        lemma_offsets(t, i, e);
        let m = atom_at(t, i);
        assert(m matches BlockModel::Atom { text, span } && covers(t, i, text, span));
    }
}

proof fn lemma_object(t: Seq<char>, i: int)
    requires
        object_start(t, i),
        byte_length(t) < usize::MAX,
    ensures
        parse_object(t, i) matches Ok((m, e)) ==> {
            &&& i < e <= t.len()
            &&& block_count(m) <= e - i
            &&& m.span() == span_between(t, i, e)
            &&& nested(t, m)
        },
    decreases t.len() - i, 2int,
{
    lemma_primary(t, i);
    match parse_primary(t, i) {
        Err(_) => {},
        Ok((head, k)) => {
            if 0 <= i <= k < t.len() && t[k] == '.' {
                if at_primary_start(t, k + 1) {
                    assert(object_start(t, k + 1));
                    lemma_object(t, k + 1);
                    match parse_object(t, k + 1) {
                        Err(_) => {},
                        Ok((payload, e)) => {
                            lemma_offset_le(t, k, k + 1);
                        },
                    }
                }
            } else if 0 <= i <= k < t.len() && t[k] == '<' {
                lemma_delimited(t, k, Delimiter::Angle);
            }
        },
    }
}

proof fn lemma_roots(t: Seq<char>, i: int)
    requires
        0 <= i,
        byte_length(t) < usize::MAX,
    ensures
        parse_roots(t, i) matches Ok(ms) ==> blocks_count(ms) + i <= t.len() || ms.len() == 0,
        parse_roots(t, i) matches Ok(ms) ==> i <= t.len() ==> nested_children(
            t,
            ms,
            off(t, i),
            byte_length(t),
        ),
    decreases t.len() - i,
{
    let j = skip_spacing(t, i);
    lemma_skip(t, i);
    if j < i || j < 0 || j >= t.len() {
        if i <= t.len() {
            lemma_offset_le(t, i, t.len() as int);
        }
    } else if closing_delimiter(t[j]) is Some {
    } else {
        assert(object_start(t, j));
        lemma_object(t, j);
        match parse_object(t, j) {
            Err(_) => {},
            Ok((block, k)) => if k <= j || k > t.len() {
                lemma_offset_le(t, i, t.len() as int);
            } else {
                lemma_roots(t, k);
                match parse_roots(t, k) {
                    Err(_) => {},
                    Ok(rest) => {
                        lemma_offset_le(t, i, j);
                        lemma_offsets(t, j, k);
                        lemma_offset_le(t, k, t.len() as int);
                        lemma_prepend_children(t, block, rest, off(t, i), byte_length(t));
                        if rest.len() == 0 {
                            assert(blocks_count(rest) == 0);
                        }
                    },
                }
            },
        }
    }
}

/// A parsed document lies well over its text: it holds no more blocks than
/// the text has characters, its root objects follow one another in source
/// order, each lies well (see `nested`), and every atom's text is the source
/// slice that its span covers, free of spacing, periods, delimiters, curly
/// quotes, pipes and comment markers.
pub proof fn lemma_document_layout(t: Seq<char>)
    requires
        byte_length(t) < usize::MAX,
    ensures
        parse_document(t) matches Ok(ms) ==> {
            &&& blocks_count(ms) <= t.len()
            &&& nested_children(t, ms, 0, byte_length(t))
        },
{
    lemma_roots(t, 0);
    assert(cursor_at(t, 0).0 == 0);
}


/// One root atom whose text is the whole text, lying well over it, holds
/// only bare characters and no comment marker, when the text holds no double
/// quote.
proof fn lemma_whole_atom_is_bare(t: Seq<char>, ms: Seq<BlockModel>)
    requires
        !t.contains('"'),
        ms.len() == 1,
        nested_children(t, ms, 0, byte_length(t)),
        ms[0] matches BlockModel::Atom { text, .. } && text == t,
    ensures
        crate::chars::spec_bare_atom_text(t),
{
    let m = ms[0];
    assert(ms.subrange(1, ms.len() as int) =~= Seq::<BlockModel>::empty());
    assert(nested(t, m));
    let (text, span) = match m {
        BlockModel::Atom { text, span } => (text, span),
        _ => (t, m.span()),
    };
    let i = choose|i: int| #[trigger] covers(t, i, text, span);
    assert(i == 0);
    assert forall|k: int| 0 <= k < t.len() implies crate::chars::spec_bare_char(#[trigger] t[k]) by {
        assert(!ends_atom(text[k]));
        if t[k] == '"' {
            assert(t.contains('"'));
        }
    }
    assert forall|k: int| 0 <= k < t.len() - 1 implies !(#[trigger] t[k] == ';' && t[k + 1] == ';') by {
        assert(!(text[k] == ';' && text[k + 1] == ';'));
    }
}

/// Text that reads back as a document of exactly one root object, an atom
/// whose text is the whole text, and that holds no double quote, is a symbol
/// candidate for the atom classifier.
pub proof fn lemma_one_atom_is_symbol_candidate(t: Seq<char>)
    requires
        byte_length(t) < usize::MAX,
        !t.contains('"'),
        crate::codec::single_root(t) matches Some(m) && m matches BlockModel::Atom { text, .. } && text
            == t,
    ensures
        crate::chars::spec_bare_atom_text(t),
{
    lemma_document_layout(t);
    lemma_whole_atom_is_bare(t, parse_document(t)->Ok_0);
}

} // verus!
