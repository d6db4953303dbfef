//! Errors of the structural reader.
use vstd::prelude::*;
use crate::model::{Delimiter, SourcePosition};
use crate::text::{decimal, push_char, push_decimal, push_str};

verus! {

#[derive(Clone, Copy, Debug, PartialEq, Eq)]
#[allow(inconsistent_fields)]
pub enum DotosError {
    UnexpectedClose { found: char, position: SourcePosition },
    UnclosedDelimiter { delimiter: Delimiter, position: SourcePosition },
    UnclosedCurlyText { position: SourcePosition },
    InvalidCurlyTextEscape { found: Option<char>, position: SourcePosition },
    /// A period appeared where an object was expected: the head of a
    /// dot-application is missing.
    UnexpectedDot { position: SourcePosition },
    /// A dot-application period is not immediately followed by a glued payload.
    DanglingApplication { position: SourcePosition },
    UnexpectedPipe { position: SourcePosition },
}

pub open spec fn at_text(p: SourcePosition) -> Seq<char> {
    decimal(p.line as nat) + seq![':'] + decimal(p.column as nat)
}

pub open spec fn opening_text_of(d: Delimiter) -> Seq<char> {
    match d {
        Delimiter::Parenthesis => seq!['('],
        Delimiter::SquareBracket => seq!['['],
        Delimiter::Brace => seq!['{'],
        Delimiter::Angle => seq!['<'],
    }
}

fn push_at(s: &mut String, p: SourcePosition)
    ensures
        final(s)@ == old(s)@ + at_text(p),
{
    push_decimal(s, p.line as u64);
    push_char(s, ':');
    push_decimal(s, p.column as u64);
}

impl DotosError {
    pub open spec fn spec_message(self) -> Seq<char> {
        match self {
            DotosError::UnexpectedClose { found, position } => "unexpected closing delimiter `"@
                + seq![found] + "` at "@ + at_text(position),
            DotosError::UnclosedDelimiter { delimiter, position } => "unclosed `"@
                + opening_text_of(delimiter) + "` delimiter opened at "@ + at_text(position),
            DotosError::UnclosedCurlyText { position } => "unclosed `“` curly text opened at "@
                + at_text(position),
            DotosError::InvalidCurlyTextEscape { found, position } => match found {
                Some(c) => "invalid curly-text escape `\\"@ + seq![c] + "` at "@ + at_text(
                    position,
                ) + "; use `\\“`, `\\”`, or `\\\\`"@,
                None => "unfinished curly-text escape at "@ + at_text(position),
            },
            DotosError::UnexpectedDot { position } => "unexpected `.` with no head object at "@
                + at_text(position),
            DotosError::DanglingApplication { position } => "dot-application `.` at "@ + at_text(
                position,
            ) + " is not followed by a glued payload object"@,
            DotosError::UnexpectedPipe { position } => "unexpected `|` at "@ + at_text(position)
                + "; pipe has no grammar duty"@,
        }
    }

    /// The diagnostic text of this error.
    pub fn message(&self) -> (r: String)
        ensures
            r@ == self.spec_message(),
    {
        let mut s = String::new();
        match self {
            DotosError::UnexpectedClose { found, position } => {
                push_str(&mut s, "unexpected closing delimiter `");
                push_char(&mut s, *found);
                push_str(&mut s, "` at ");
                push_at(&mut s, *position);
            },
            DotosError::UnclosedDelimiter { delimiter, position } => {
                push_str(&mut s, "unclosed `");
                push_str(&mut s, delimiter.opening_text());
                push_str(&mut s, "` delimiter opened at ");
                push_at(&mut s, *position);
            },
            DotosError::UnclosedCurlyText { position } => {
                push_str(&mut s, "unclosed `“` curly text opened at ");
                push_at(&mut s, *position);
            },
            DotosError::InvalidCurlyTextEscape { found, position } => match found {
                Some(c) => {
                    push_str(&mut s, "invalid curly-text escape `\\");
                    push_char(&mut s, *c);
                    push_str(&mut s, "` at ");
                    push_at(&mut s, *position);
                    push_str(&mut s, "; use `\\“`, `\\”`, or `\\\\`");
                },
                None => {
                    push_str(&mut s, "unfinished curly-text escape at ");
                    push_at(&mut s, *position);
                },
            },
            DotosError::UnexpectedDot { position } => {
                push_str(&mut s, "unexpected `.` with no head object at ");
                push_at(&mut s, *position);
            },
            DotosError::DanglingApplication { position } => {
                push_str(&mut s, "dot-application `.` at ");
                push_at(&mut s, *position);
                push_str(&mut s, " is not followed by a glued payload object");
            },
            DotosError::UnexpectedPipe { position } => {
                push_str(&mut s, "unexpected `|` at ");
                push_at(&mut s, *position);
                push_str(&mut s, "; pipe has no grammar duty");
            },
        }
        s
    }
}

} // verus!
