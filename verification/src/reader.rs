//! The recursive-descent reader, proved to compute the grammar of `grammar.rs`.
use vstd::prelude::*;
use crate::chars::{is_whitespace_char, spec_is_whitespace, spec_utf8_width, utf8_width_of};
use crate::error::DotosError;
use crate::grammar::{
    at_primary_start, atom_end, byte_length, closing_char, closing_delimiter, comment_at,
    cursor_at, ends_atom, escapable, opening_delimiter, parse_children, parse_curly_text,
    parse_delimited, parse_object, parse_primary, parse_roots, position_at, scan_curly,
    skip_comment, skip_spacing, span_between,
};
use crate::indent::remove_indentation;
use crate::model::{ApplicationForm, BlockModel, Delimiter, SourcePosition, SourceSpan};
use crate::parser::{Atom, Block, CurlyText, models};
use crate::text::{push_char, string_from_chars};

verus! {

pub proof fn lemma_atom_end(t: Seq<char>, i: int)
    requires
        0 <= i,
    ensures
        atom_end(t, i) >= i,
        0 <= i < t.len() && !ends_atom(t[i]) && !comment_at(t, i) ==> atom_end(t, i) > i,
        i <= t.len() ==> atom_end(t, i) <= t.len(),
    decreases t.len() - i,
{
    if 0 <= i < t.len() && !ends_atom(t[i]) && !comment_at(t, i) {
        lemma_atom_end(t, i + 1);
    }
}

pub proof fn lemma_cursor_bounds(t: Seq<char>, i: int, j: int)
    requires
        0 <= i <= j <= t.len(),
    ensures
        cursor_at(t, i).0 <= cursor_at(t, j).0,
        cursor_at(t, j).0 >= j,
        1 <= cursor_at(t, j).1 <= j + 1,
        1 <= cursor_at(t, j).2 <= j + 1,
    decreases j,
{
    if j > 0 {
        if i < j {
            lemma_cursor_bounds(t, i, j - 1);
        } else {
            lemma_cursor_bounds(t, j - 1, j - 1);
        }
    }
}

pub fn opening_of(c: char) -> (r: Option<Delimiter>)
    ensures
        r == opening_delimiter(c),
{
    if c == '(' {
        Some(Delimiter::Parenthesis)
    } else if c == '[' {
        Some(Delimiter::SquareBracket)
    } else if c == '{' {
        Some(Delimiter::Brace)
    } else if c == '<' {
        Some(Delimiter::Angle)
    } else {
        None
    }
}

pub fn closing_of(c: char) -> (r: Option<Delimiter>)
    ensures
        r == closing_delimiter(c),
{
    if c == ')' {
        Some(Delimiter::Parenthesis)
    } else if c == ']' {
        Some(Delimiter::SquareBracket)
    } else if c == '}' {
        Some(Delimiter::Brace)
    } else if c == '>' {
        Some(Delimiter::Angle)
    } else {
        None
    }
}

fn closing_char_of(d: Delimiter) -> (c: char)
    ensures
        c == closing_char(d),
{
    match d {
        Delimiter::Parenthesis => ')',
        Delimiter::SquareBracket => ']',
        Delimiter::Brace => '}',
        Delimiter::Angle => '>',
    }
}

pub fn ends_atom_char(c: char) -> (r: bool)
    ensures
        r == ends_atom(c),
{
    is_whitespace_char(c) || c == '.' || opening_of(c).is_some() || closing_of(c).is_some() || c
        == '“' || c == '”' || c == '|'
}

/// Where an object can begin once spacing has been skipped.
pub open spec fn object_may_start(t: Seq<char>, i: int) -> bool {
    &&& 0 <= i < t.len()
    &&& !spec_is_whitespace(t[i])
    &&& !comment_at(t, i)
    &&& closing_delimiter(t[i]) is None
}

struct Reader {
    chars: Vec<char>,
    index: usize,
    byte_offset: usize,
    line: usize,
    column: usize,
}

impl Reader {
    spec fn t(&self) -> Seq<char> {
        self.chars@
    }

    spec fn at(&self) -> int {
        self.index as int
    }

    spec fn wf(&self) -> bool {
        &&& self.index <= self.chars.len()
        &&& cursor_at(self.chars@, self.index as int) == (
            self.byte_offset as int,
            self.line as int,
            self.column as int,
        )
        &&& byte_length(self.chars@) < usize::MAX
    }

    fn new(chars: Vec<char>) -> (r: Reader)
        requires
            byte_length(chars@) < usize::MAX,
        ensures
            r.wf(),
            r.t() == chars@,
            r.at() == 0,
    {
        Reader { chars, index: 0, byte_offset: 0, line: 1, column: 1 }
    }

    fn position(&self) -> (p: SourcePosition)
        requires
            self.wf(),
        ensures
            p == position_at(self.t(), self.at()),
    {
        SourcePosition { byte_offset: self.byte_offset, line: self.line, column: self.column }
    }

    fn peek(&self) -> (r: Option<char>)
        requires
            self.wf(),
        ensures
            r == (if self.at() < self.t().len() {
                Some(self.t()[self.at()])
            } else {
                None
            }),
    {
        if self.index < self.chars.len() {
            Some(self.chars[self.index])
        } else {
            None
        }
    }

    fn at_comment_start(&self) -> (r: bool)
        requires
            self.wf(),
        ensures
            r == comment_at(self.t(), self.at()),
    {
        self.chars.len() > 1 && self.index < self.chars.len() - 1 && self.chars[self.index] == ';'
            && self.chars[self.index + 1] == ';'
    }

    fn bump(&mut self)
        requires
            old(self).wf(),
            old(self).at() < old(self).t().len(),
        ensures
            final(self).wf(),
            final(self).t() == old(self).t(),
            final(self).at() == old(self).at() + 1,
    {
        proof {
            lemma_cursor_bounds(self.chars@, self.index + 1, self.chars.len() as int);
            lemma_cursor_bounds(self.chars@, self.index + 1, self.index + 1);
            let i = self.index + 1;
            assert(cursor_at(self.chars@, i as int) == ({
                let previous = cursor_at(self.chars@, i - 1);
                let c = self.chars@[i - 1];
                (
                    previous.0 + spec_utf8_width(c),
                    if c == '\n' { previous.1 + 1 } else { previous.1 },
                    if c == '\n' { 1 } else { previous.2 + 1 },
                )
            }));
        }
        let c = self.chars[self.index];
        self.byte_offset = self.byte_offset + utf8_width_of(c);
        if c == '\n' {
            self.line = self.line + 1;
            self.column = 1;
        } else {
            self.column = self.column + 1;
        }
        self.index = self.index + 1;
    }

    fn skip_spacing(&mut self)
        requires
            old(self).wf(),
        ensures
            final(self).wf(),
            final(self).t() == old(self).t(),
            final(self).at() == skip_spacing(old(self).t(), old(self).at()),
            final(self).at() >= old(self).at(),
            final(self).at() < final(self).t().len() ==> !spec_is_whitespace(final(self).t()[final(self).at()]) && !comment_at(
                final(self).t(),
                final(self).at(),
            ),
    {
        let ghost start = self.at();
        loop
            invariant_except_break
                self.wf(),
                self.t() == old(self).t(),
                start == old(self).at(),
                self.at() >= start,
                skip_spacing(self.t(), self.at()) == skip_spacing(self.t(), start),
            ensures
                self.wf(),
                self.t() == old(self).t(),
                self.at() >= start,
                self.at() == skip_spacing(self.t(), start),
                self.at() < self.t().len() ==> !spec_is_whitespace(self.t()[self.at()])
                    && !comment_at(self.t(), self.at()),
            decreases self.t().len() - self.at(),
        {
            match self.peek() {
                Some(c) => {
                    if is_whitespace_char(c) {
                        self.bump();
                    } else if self.at_comment_start() {
                        let ghost round = self.at();
                        loop
                            invariant_except_break
                                self.wf(),
                                self.t() == old(self).t(),
                                self.at() >= start,
                                self.at() >= round,
                                self.at() == round || self.at() > round,
                                round < self.t().len(),
                                skip_comment(self.t(), self.at()) == skip_spacing(self.t(), start),
                            ensures
                                self.wf(),
                                self.t() == old(self).t(),
                                self.at() >= start,
                                self.at() > round,
                                skip_spacing(self.t(), self.at()) == skip_spacing(self.t(), start),
                            decreases self.t().len() - self.at(),
                        {
                            match self.peek() {
                                Some(d) => {
                                    self.bump();
                                    if d == '\n' {
                                        break ;
                                    }
                                },
                                None => {
                                    break ;
                                },
                            }
                        }
                    } else {
                        break ;
                    }
                },
                None => {
                    break ;
                },
            }
        }
    }

    fn parse_atom(&mut self) -> (r: Block)
        requires
            old(self).wf(),
        ensures
            final(self).wf(),
            final(self).t() == old(self).t(),
            final(self).at() == atom_end(old(self).t(), old(self).at()),
            r@ == crate::grammar::atom_at(old(self).t(), old(self).at()),
            final(self).at() >= old(self).at(),
            old(self).at() < old(self).t().len() && !ends_atom(old(self).t()[old(self).at()])
                && !comment_at(old(self).t(), old(self).at()) ==> final(self).at() > old(self).at(),
    {
        proof {
            lemma_atom_end(self.t(), self.at());
        }
        let start = self.position();
        let ghost i0 = self.at();
        let mut text: Vec<char> = Vec::new();
        while self.index < self.chars.len() && !ends_atom_char(self.chars[self.index])
            && !self.at_comment_start()
            invariant
                self.wf(),
                self.t() == old(self).t(),
                i0 == old(self).at(),
                i0 <= self.at(),
                atom_end(self.t(), self.at()) == atom_end(self.t(), i0),
                text@ == self.t().subrange(i0, self.at()),
            decreases self.t().len() - self.at(),
        {
            let c = self.chars[self.index];
            text.push(c);
            self.bump();
            assert(text@ == self.t().subrange(i0, self.at()));
        }
        let end = self.position();
        Block::Atom(Atom { text: string_from_chars(&text), span: SourceSpan { start, end } })
    }

    fn at_primary_start(&self) -> (r: bool)
        requires
            self.wf(),
        ensures
            r == at_primary_start(self.t(), self.at()),
    {
        match self.peek() {
            None => false,
            Some(c) => {
                c != '.' && c != '<' && c != '>' && c != '”' && c != '|' && !is_whitespace_char(c)
                    && closing_of(c).is_none() && !self.at_comment_start()
            },
        }
    }

    fn parse_curly_text(&mut self) -> (r: Result<Block, DotosError>)
        requires
            old(self).wf(),
            old(self).at() < old(self).t().len(),
            old(self).t()[old(self).at()] == '“',
        ensures
            final(self).wf(),
            final(self).t() == old(self).t(),
            final(self).at() >= old(self).at(),
            match parse_curly_text(old(self).t(), old(self).at()) {
                Ok((m, e)) => r matches Ok(b) && b@ == m && final(self).at() == e,
                Err(e) => r == Err::<Block, DotosError>(e),
            },
            r is Ok ==> final(self).at() > old(self).at(),
    {
        let start = self.position();
        let ghost i0 = self.at();
        self.bump();
        let mut text: Vec<char> = Vec::new();
        let mut depth: usize = 1;
        loop
            invariant
                self.wf(),
                self.t() == old(self).t(),
                i0 == old(self).at(),
                i0 < self.at(),
                start == position_at(self.t(), i0),
                1 <= depth <= self.at(),
                scan_curly(self.t(), self.at(), depth as nat, text@, i0) == scan_curly(
                    self.t(),
                    i0 + 1,
                    1,
                    Seq::empty(),
                    i0,
                ),
            decreases self.t().len() - self.at(),
        {
            match self.peek() {
                None => {
                    return Err(DotosError::UnclosedCurlyText { position: start });
                },
                Some(c) => {
                    if c == '\\' {
                        let position = self.position();
                        self.bump();
                        match self.peek() {
                            Some(e) => {
                                if e == '“' || e == '”' || e == '\\' {
                                    text.push(e);
                                    self.bump();
                                } else {
                                    return Err(
                                        DotosError::InvalidCurlyTextEscape {
                                            found: Some(e),
                                            position,
                                        },
                                    );
                                }
                            },
                            None => {
                                return Err(
                                    DotosError::InvalidCurlyTextEscape { found: None, position },
                                );
                            },
                        }
                    } else if c == '“' {
                        depth = depth + 1;
                        text.push(c);
                        self.bump();
                    } else if c == '”' {
                        self.bump();
                        if depth == 1 {
                            let end = self.position();
                            let kept = remove_indentation(text);
                            return Ok(
                                Block::CurlyText(
                                    CurlyText {
                                        text: string_from_chars(&kept),
                                        span: SourceSpan { start, end },
                                    },
                                ),
                            );
                        }
                        depth = depth - 1;
                        text.push(c);
                    } else {
                        text.push(c);
                        self.bump();
                    }
                },
            }
        }
    }

    fn parse_delimited(&mut self, delimiter: Delimiter) -> (r: Result<Block, DotosError>)
        requires
            old(self).wf(),
            old(self).at() < old(self).t().len(),
        ensures
            final(self).wf(),
            final(self).t() == old(self).t(),
            final(self).at() >= old(self).at(),
            match parse_delimited(old(self).t(), old(self).at(), delimiter) {
                Ok((m, e)) => r matches Ok(b) && b@ == m && final(self).at() == e,
                Err(e) => r == Err::<Block, DotosError>(e),
            },
            r is Ok ==> final(self).at() > old(self).at(),
        decreases old(self).t().len() - old(self).at(), 0nat,
    {
        let start = self.position();
        let ghost i0 = self.at();
        self.bump();
        let mut root_objects: Vec<Block> = Vec::new();
        loop
            invariant
                self.wf(),
                self.t() == old(self).t(),
                i0 == old(self).at(),
                i0 < self.at(),
                start == position_at(self.t(), i0),
                parse_children(self.t(), i0 + 1, delimiter, i0) == match parse_children(
                    self.t(),
                    self.at(),
                    delimiter,
                    i0,
                ) {
                    Ok((rest, e)) => Ok((models(root_objects@) + rest, e)),
                    Err(e) => Err(e),
                },
            decreases self.t().len() - self.at(),
        {
            let ghost before = self.at();
            self.skip_spacing();
            match self.peek() {
                None => {
                    return Err(DotosError::UnclosedDelimiter { delimiter, position: start });
                },
                Some(c) => {
                    if c == closing_char_of(delimiter) {
                        self.bump();
                        let end = self.position();
                        let block = Block::Delimited {
                            delimiter,
                            span: SourceSpan { start, end },
                            root_objects,
                        };
                        proof {
                            assert(models(root_objects@) + Seq::empty() =~= models(root_objects@));
                            assert(block@.children() =~= models(root_objects@));
                        }
                        return Ok(block);
                    }
                    if closing_of(c).is_some() {
                        return Err(DotosError::UnexpectedClose { found: c, position: self.position() });
                    }
                    let ghost j = self.at();
                    match self.parse_object() {
                        Ok(b) => {
                            let ghost old_objects = root_objects@;
                            root_objects.push(b);
                            proof {
                                assert(models(root_objects@) =~= models(old_objects) + seq![b@]);
                                match parse_children(self.t(), self.at(), delimiter, i0) {
                                    Ok((rest, e)) => {
                                        assert(models(old_objects) + (seq![b@] + rest) =~= models(
                                            root_objects@,
                                        ) + rest);
                                    },
                                    Err(e) => {},
                                }
                            }
                        },
                        Err(e) => {
                            return Err(e);
                        },
                    }
                },
            }
        }
    }

    fn parse_primary(&mut self) -> (r: Result<Block, DotosError>)
        requires
            old(self).wf(),
        ensures
            final(self).wf(),
            final(self).t() == old(self).t(),
            final(self).at() >= old(self).at(),
            match parse_primary(old(self).t(), old(self).at()) {
                Ok((m, e)) => r matches Ok(b) && b@ == m && final(self).at() == e,
                Err(e) => r == Err::<Block, DotosError>(e),
            },
            r is Ok && object_may_start(old(self).t(), old(self).at()) ==> final(self).at() > old(
                self,
            ).at(),
        decreases old(self).t().len() - old(self).at(), 1nat,
    {
        match self.peek() {
            None => Ok(self.parse_atom()),
            Some(c) => {
                if c == '(' {
                    self.parse_delimited(Delimiter::Parenthesis)
                } else if c == '[' {
                    self.parse_delimited(Delimiter::SquareBracket)
                } else if c == '{' {
                    self.parse_delimited(Delimiter::Brace)
                } else if c == '“' {
                    self.parse_curly_text()
                } else if c == '<' || c == '”' || c == '>' {
                    Err(DotosError::UnexpectedClose { found: c, position: self.position() })
                } else if c == '.' {
                    Err(DotosError::UnexpectedDot { position: self.position() })
                } else if c == '|' {
                    Err(DotosError::UnexpectedPipe { position: self.position() })
                } else {
                    Ok(self.parse_atom())
                }
            },
        }
    }

    fn parse_object(&mut self) -> (r: Result<Block, DotosError>)
        requires
            old(self).wf(),
        ensures
            final(self).wf(),
            final(self).t() == old(self).t(),
            final(self).at() >= old(self).at(),
            match parse_object(old(self).t(), old(self).at()) {
                Ok((m, e)) => r matches Ok(b) && b@ == m && final(self).at() == e,
                Err(e) => r == Err::<Block, DotosError>(e),
            },
            r is Ok && object_may_start(old(self).t(), old(self).at()) ==> final(self).at() > old(
                self,
            ).at(),
        decreases old(self).t().len() - old(self).at(), 2nat,
    {
        let ghost i0 = self.at();
        let head = match self.parse_primary() {
            Ok(h) => h,
            Err(e) => {
                return Err(e);
            },
        };
        match self.peek() {
            Some(c) => {
                if c == '.' {
                    let dot = self.position();
                    self.bump();
                    if !self.at_primary_start() {
                        return Err(DotosError::DanglingApplication { position: dot });
                    }
                    let payload = match self.parse_object() {
                        Ok(p) => p,
                        Err(e) => {
                            return Err(e);
                        },
                    };
                    let span = SourceSpan {
                        start: head.source_span().start,
                        end: payload.source_span().end,
                    };
                    Ok(
                        Block::Application {
                            span,
                            form: ApplicationForm::Dot,
                            head: Box::new(head),
                            payload: Box::new(payload),
                        },
                    )
                } else if c == '<' {
                    let payload = match self.parse_delimited(Delimiter::Angle) {
                        Ok(p) => p,
                        Err(e) => {
                            return Err(e);
                        },
                    };
                    let span = SourceSpan {
                        start: head.source_span().start,
                        end: payload.source_span().end,
                    };
                    Ok(
                        Block::Application {
                            span,
                            form: ApplicationForm::Angle,
                            head: Box::new(head),
                            payload: Box::new(payload),
                        },
                    )
                } else {
                    Ok(head)
                }
            },
            None => Ok(head),
        }
    }
}

/// Reads the root objects of a document.
pub fn read_document(chars: Vec<char>) -> (r: Result<Vec<Block>, DotosError>)
    requires
        byte_length(chars@) < usize::MAX,
    ensures
        match parse_roots(chars@, 0) {
            Ok(ms) => r matches Ok(v) && models(v@) == ms,
            Err(e) => r == Err::<Vec<Block>, DotosError>(e),
        },
{
    let ghost t = chars@;
    let mut reader = Reader::new(chars);
    let mut roots: Vec<Block> = Vec::new();
    loop
        invariant
            reader.wf(),
            reader.t() == t,
            t == chars@,
            parse_roots(t, 0) == match parse_roots(t, reader.at()) {
                Ok(rest) => Ok(models(roots@) + rest),
                Err(e) => Err(e),
            },
        decreases t.len() - reader.at(),
    {
        let ghost before = reader.at();
        reader.skip_spacing();
        proof {
            assert(parse_roots(t, before) == {
                let j = skip_spacing(t, before);
                if j < before || j < 0 || j >= t.len() {
                    Ok(Seq::empty())
                } else if closing_delimiter(t[j]) is Some {
                    Err(DotosError::UnexpectedClose { found: t[j], position: position_at(t, j) })
                } else {
                    match parse_object(t, j) {
                        Err(e) => Err(e),
                        Ok((block, k)) => if k <= j || k > t.len() {
                            Ok(Seq::empty())
                        } else {
                            match parse_roots(t, k) {
                                Err(e) => Err(e),
                                Ok(rest) => Ok(seq![block] + rest),
                            }
                        },
                    }
                }
            });
        }
        match reader.peek() {
            None => {
                proof {
                    assert(models(roots@) + Seq::empty() =~= models(roots@));
                }
                return Ok(roots);
            },
            Some(c) => {
                if closing_of(c).is_some() {
                    return Err(DotosError::UnexpectedClose { found: c, position: reader.position() });
                }
                match reader.parse_object() {
                    Ok(b) => {
                        let ghost old_roots = roots@;
                        roots.push(b);
                        proof {
                            assert(models(roots@) =~= models(old_roots) + seq![b@]);
                            match parse_roots(t, reader.at()) {
                                Ok(rest) => {
                                    assert(models(old_roots) + (seq![b@] + rest) =~= models(roots@)
                                        + rest);
                                },
                                Err(e) => {},
                            }
                        }
                    },
                    Err(e) => {
                        return Err(e);
                    },
                }
            },
        }
    }
}

} // verus!
