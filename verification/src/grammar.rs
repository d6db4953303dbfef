//! The DOTOS surface grammar, stated over the character sequence of a source.
//!
//! Positions are character indices into the source. Every function here is the
//! specification that the reader in `reader.rs` is proved to compute.
use vstd::prelude::*;
use crate::chars::{spec_is_whitespace, spec_utf8_width};
use crate::model::{ApplicationForm, BlockModel, Delimiter, SourcePosition, SourceSpan};
use crate::error::DotosError;

verus! {

pub open spec fn opening_delimiter(c: char) -> Option<Delimiter> {
    if c == '(' {
        Some(Delimiter::Parenthesis)
    } else if c == '[' {
        Some(Delimiter::SquareBracket)
    } else if c == '{' {
        Some(Delimiter::Brace)
    } else if c == '<' {
        Some(Delimiter::Angle)
    } else {
        None
    }
}

pub open spec fn closing_delimiter(c: char) -> Option<Delimiter> {
    if c == ')' {
        Some(Delimiter::Parenthesis)
    } else if c == ']' {
        Some(Delimiter::SquareBracket)
    } else if c == '}' {
        Some(Delimiter::Brace)
    } else if c == '>' {
        Some(Delimiter::Angle)
    } else {
        None
    }
}

pub open spec fn closing_char(d: Delimiter) -> char {
    match d {
        Delimiter::Parenthesis => ')',
        Delimiter::SquareBracket => ']',
        Delimiter::Brace => '}',
        Delimiter::Angle => '>',
    }
}

/// A character that ends a bare atom.
pub open spec fn ends_atom(c: char) -> bool {
    ||| spec_is_whitespace(c)
    ||| c == '.'
    ||| opening_delimiter(c) is Some
    ||| closing_delimiter(c) is Some
    ||| c == '“'
    ||| c == '”'
    ||| c == '|'
}

/// A `;;` comment marker starts at `i`.
pub open spec fn comment_at(t: Seq<char>, i: int) -> bool {
    0 <= i && i + 1 < t.len() && t[i] == ';' && t[i + 1] == ';'
}

/// Byte offset, line and column after reading the first `i` characters.
pub open spec fn cursor_at(t: Seq<char>, i: int) -> (int, int, int)
    decreases i,
{
    if i <= 0 {
        (0, 1, 1)
    } else {
        let previous = cursor_at(t, i - 1);
        let c = t[i - 1];
        (
            previous.0 + spec_utf8_width(c),
            if c == '\n' { previous.1 + 1 } else { previous.1 },
            if c == '\n' { 1 } else { previous.2 + 1 },
        )
    }
}

/// The UTF-8 length of a character sequence.
pub open spec fn byte_length(t: Seq<char>) -> int {
    cursor_at(t, t.len() as int).0
}

pub open spec fn position_at(t: Seq<char>, i: int) -> SourcePosition {
    let c = cursor_at(t, i);
    SourcePosition { byte_offset: c.0 as usize, line: c.1 as usize, column: c.2 as usize }
}

pub open spec fn span_between(t: Seq<char>, i: int, j: int) -> SourceSpan {
    SourceSpan { start: position_at(t, i), end: position_at(t, j) }
}

/// End of the bare atom that starts at `i`.
pub open spec fn atom_end(t: Seq<char>, i: int) -> int
    decreases t.len() - i,
{
    if 0 <= i < t.len() && !ends_atom(t[i]) && !comment_at(t, i) {
        atom_end(t, i + 1)
    } else {
        i
    }
}

pub open spec fn atom_at(t: Seq<char>, i: int) -> BlockModel {
    let e = atom_end(t, i);
    BlockModel::Atom { text: t.subrange(i, e), span: span_between(t, i, e) }
}

/// Position after whitespace and `;;` comments that start at `i`.
pub open spec fn skip_spacing(t: Seq<char>, i: int) -> int
    decreases t.len() - i, 1int,
{
    if 0 <= i < t.len() && spec_is_whitespace(t[i]) {
        skip_spacing(t, i + 1)
    } else if comment_at(t, i) {
        skip_comment(t, i)
    } else {
        i
    }
}

/// Inside a comment at `i`: skip through the next newline, then keep spacing.
pub open spec fn skip_comment(t: Seq<char>, i: int) -> int
    decreases t.len() - i, 0int,
{
    if 0 <= i < t.len() {
        if t[i] == '\n' {
            skip_spacing(t, i + 1)
        } else {
            skip_comment(t, i + 1)
        }
    } else {
        i
    }
}

/// Characters a curly-text escape may carry.
pub open spec fn escapable(c: char) -> bool {
    c == '“' || c == '”' || c == '\\'
}

/// Scan curly text from `i` at nesting `depth`, having collected `text`; the
/// block opened at `start`.
pub open spec fn scan_curly(t: Seq<char>, i: int, depth: nat, text: Seq<char>, start: int) -> Result<
    (Seq<char>, int),
    DotosError,
>
    decreases t.len() - i,
{
    if i < 0 || i >= t.len() {
        Err(DotosError::UnclosedCurlyText { position: position_at(t, start) })
    } else {
        let c = t[i];
        if c == '\\' {
            if i + 1 < t.len() && escapable(t[i + 1]) {
                scan_curly(t, i + 2, depth, text.push(t[i + 1]), start)
            } else {
                Err(
                    DotosError::InvalidCurlyTextEscape {
                        found: if i + 1 < t.len() {
                            Some(t[i + 1])
                        } else {
                            None
                        },
                        position: position_at(t, i),
                    },
                )
            }
        } else if c == '“' {
            scan_curly(t, i + 1, depth + 1, text.push(c), start)
        } else if c == '”' {
            if depth <= 1 {
                Ok((text, i + 1))
            } else {
                scan_curly(t, i + 1, (depth - 1) as nat, text.push(c), start)
            }
        } else {
            scan_curly(t, i + 1, depth, text.push(c), start)
        }
    }
}

// ---------------------------------------------------------------------------
// Common indentation of multiline curly text.

/// Split on `'\n'`; always at least one line.
pub open spec fn split_lines(s: Seq<char>) -> Seq<Seq<char>>
    decreases s.len(),
{
    if s.len() == 0 {
        seq![Seq::empty()]
    } else {
        let rest = split_lines(s.drop_last());
        if s.last() == '\n' {
            rest.push(Seq::empty())
        } else {
            rest.update(rest.len() - 1, rest.last().push(s.last()))
        }
    }
}

/// Join lines with `'\n'`.
pub open spec fn join_lines(lines: Seq<Seq<char>>) -> Seq<char>
    decreases lines.len(),
{
    if lines.len() == 0 {
        Seq::empty()
    } else if lines.len() == 1 {
        lines[0]
    } else {
        join_lines(lines.drop_last()) + seq!['\n'] + lines.last()
    }
}

pub open spec fn is_blank(line: Seq<char>) -> bool {
    forall|k: int| 0 <= k < line.len() ==> spec_is_whitespace(#[trigger] line[k])
}

pub open spec fn indents(c: char) -> bool {
    c == ' ' || c == '\t'
}

/// End of the run of spaces and tabs that starts at `k`.
pub open spec fn indentation_from(line: Seq<char>, k: int) -> int
    decreases line.len() - k,
{
    if 0 <= k < line.len() && indents(line[k]) {
        indentation_from(line, k + 1)
    } else {
        k
    }
}

/// Number of leading spaces and tabs.
pub open spec fn indentation(line: Seq<char>) -> int {
    indentation_from(line, 0)
}

/// The smallest indentation over the nonblank lines, `None` when all are blank.
pub open spec fn least_indentation(lines: Seq<Seq<char>>) -> Option<int>
    decreases lines.len(),
{
    if lines.len() == 0 {
        None
    } else {
        let rest = least_indentation(lines.drop_last());
        if is_blank(lines.last()) {
            rest
        } else {
            let here = indentation(lines.last());
            match rest {
                Some(r) => Some(if here <= r { here } else { r }),
                None => Some(here),
            }
        }
    }
}

/// Lines after dropping a blank first line and then a blank last line.
pub open spec fn trimmed_lines(s: Seq<char>) -> Seq<Seq<char>> {
    let lines = split_lines(s);
    let lines = if lines.len() > 0 && is_blank(lines[0]) {
        lines.drop_first()
    } else {
        lines
    };
    if lines.len() > 0 && is_blank(lines.last()) {
        lines.drop_last()
    } else {
        lines
    }
}

pub open spec fn cut_line(line: Seq<char>, n: int) -> Seq<char> {
    if 0 <= n <= line.len() {
        line.skip(n)
    } else {
        Seq::empty()
    }
}

/// Presentation-only indentation removed from multiline curly text: a blank
/// opener line and a blank closer line are dropped, and the indentation that
/// the nonblank lines share is cut from every line.
pub open spec fn remove_common_indentation(s: Seq<char>) -> Seq<char> {
    if !s.contains('\n') {
        s
    } else {
        let lines = trimmed_lines(s);
        let n = match least_indentation(lines) {
            Some(n) => n,
            None => 0,
        };
        join_lines(lines.map_values(|line: Seq<char>| cut_line(line, n)))
    }
}

// ---------------------------------------------------------------------------
// Objects.

/// Whether a character at `i` can begin the payload of a dot-application.
pub open spec fn at_primary_start(t: Seq<char>, i: int) -> bool {
    &&& 0 <= i < t.len()
    &&& t[i] != '.'
    &&& t[i] != '<'
    &&& t[i] != '>'
    &&& t[i] != '”'
    &&& t[i] != '|'
    &&& !spec_is_whitespace(t[i])
    &&& closing_delimiter(t[i]) is None
    &&& !comment_at(t, i)
}

/// The children of a delimited block opened at `start`, read from `i`.
pub open spec fn parse_children(t: Seq<char>, i: int, delimiter: Delimiter, start: int) -> Result<
    (Seq<BlockModel>, int),
    DotosError,
>
    decreases t.len() - i, 3int,
{
    let j = skip_spacing(t, i);
    if j < i || j < 0 {
        Err(DotosError::UnclosedDelimiter { delimiter, position: position_at(t, start) })
    } else if j >= t.len() {
        Err(DotosError::UnclosedDelimiter { delimiter, position: position_at(t, start) })
    } else if t[j] == closing_char(delimiter) {
        Ok((Seq::empty(), j + 1))
    } else if closing_delimiter(t[j]) is Some {
        Err(DotosError::UnexpectedClose { found: t[j], position: position_at(t, j) })
    } else {
        match parse_object(t, j) {
            Err(e) => Err(e),
            Ok((block, k)) => if k <= j || k > t.len() {
                Err(DotosError::UnclosedDelimiter { delimiter, position: position_at(t, start) })
            } else {
                match parse_children(t, k, delimiter, start) {
                    Err(e) => Err(e),
                    Ok((rest, e)) => Ok((seq![block] + rest, e)),
                }
            },
        }
    }
}

/// A delimited block whose opening delimiter is at `i`.
pub open spec fn parse_delimited(t: Seq<char>, i: int, delimiter: Delimiter) -> Result<
    (BlockModel, int),
    DotosError,
>
    decreases t.len() - i, 0int,
{
    if i < 0 || i >= t.len() {
        Err(DotosError::UnclosedDelimiter { delimiter, position: position_at(t, i) })
    } else {
        match parse_children(t, i + 1, delimiter, i) {
            Err(e) => Err(e),
            Ok((children, e)) => Ok(
                (
                    BlockModel::Delimited { delimiter, span: span_between(t, i, e), children },
                    e,
                ),
            ),
        }
    }
}

/// A curly-text block whose opening quote is at `i`.
pub open spec fn parse_curly_text(t: Seq<char>, i: int) -> Result<(BlockModel, int), DotosError> {
    match scan_curly(t, i + 1, 1, Seq::empty(), i) {
        Err(e) => Err(e),
        Ok((text, e)) => Ok(
            (
                BlockModel::CurlyText {
                    text: remove_common_indentation(text),
                    span: span_between(t, i, e),
                },
                e,
            ),
        ),
    }
}

/// One primary object at `i`: a delimited block, curly text, or a bare atom.
pub open spec fn parse_primary(t: Seq<char>, i: int) -> Result<(BlockModel, int), DotosError>
    decreases t.len() - i, 1int,
{
    if i < 0 || i >= t.len() {
        Ok((atom_at(t, i), atom_end(t, i)))
    } else {
        let c = t[i];
        if c == '(' {
            parse_delimited(t, i, Delimiter::Parenthesis)
        } else if c == '[' {
            parse_delimited(t, i, Delimiter::SquareBracket)
        } else if c == '{' {
            parse_delimited(t, i, Delimiter::Brace)
        } else if c == '“' {
            parse_curly_text(t, i)
        } else if c == '<' || c == '”' || c == '>' {
            Err(DotosError::UnexpectedClose { found: c, position: position_at(t, i) })
        } else if c == '.' {
            Err(DotosError::UnexpectedDot { position: position_at(t, i) })
        } else if c == '|' {
            Err(DotosError::UnexpectedPipe { position: position_at(t, i) })
        } else {
            Ok((atom_at(t, i), atom_end(t, i)))
        }
    }
}

/// One object at `i`: a primary, bound to a glued dot payload or a bare
/// angle list when one follows. The dot binds right-associatively.
pub open spec fn parse_object(t: Seq<char>, i: int) -> Result<(BlockModel, int), DotosError>
    decreases t.len() - i, 2int,
{
    match parse_primary(t, i) {
        Err(e) => Err(e),
        Ok((head, k)) => {
            if 0 <= i <= k < t.len() && t[k] == '.' {
                if !at_primary_start(t, k + 1) {
                    Err(DotosError::DanglingApplication { position: position_at(t, k) })
                } else {
                    match parse_object(t, k + 1) {
                        Err(e) => Err(e),
                        Ok((payload, e)) => Ok(
                            (
                                BlockModel::Application {
                                    span: SourceSpan { start: head.span().start, end: payload.span().end },
                                    form: ApplicationForm::Dot,
                                    head: Box::new(head),
                                    payload: Box::new(payload),
                                },
                                e,
                            ),
                        ),
                    }
                }
            } else if 0 <= i <= k < t.len() && t[k] == '<' {
                match parse_delimited(t, k, Delimiter::Angle) {
                    Err(e) => Err(e),
                    Ok((payload, e)) => Ok(
                        (
                            BlockModel::Application {
                                span: SourceSpan { start: head.span().start, end: payload.span().end },
                                form: ApplicationForm::Angle,
                                head: Box::new(head),
                                payload: Box::new(payload),
                            },
                            e,
                        ),
                    ),
                }
            } else {
                Ok((head, k))
            }
        },
    }
}

/// The root objects of a document, read from `i`.
pub open spec fn parse_roots(t: Seq<char>, i: int) -> Result<Seq<BlockModel>, DotosError>
    decreases t.len() - i,
{
    let j = skip_spacing(t, i);
    if j < i || j < 0 || j >= t.len() {
        Ok(Seq::empty())
    } else if closing_delimiter(t[j]) is Some {
        Err(DotosError::UnexpectedClose { found: t[j], position: position_at(t, j) })
    } else {
        match parse_object(t, j) {
            Err(e) => Err(e),
            Ok((block, k)) => if k <= j || k > t.len() {
                Ok(Seq::empty())
            } else {
                match parse_roots(t, k) {
                    Err(e) => Err(e),
                    Ok(rest) => Ok(seq![block] + rest),
                }
            },
        }
    }
}

/// The whole document grammar.
pub open spec fn parse_document(t: Seq<char>) -> Result<Seq<BlockModel>, DotosError> {
    parse_roots(t, 0)
}

} // verus!
