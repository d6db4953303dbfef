//! The value model that the reader's contracts are stated over.
use vstd::prelude::*;

verus! {

#[derive(Clone, Copy, Debug, PartialEq, Eq, Structural)]
pub struct SourcePosition {
    pub byte_offset: usize,
    pub line: usize,
    pub column: usize,
}

#[derive(Clone, Copy, Debug, PartialEq, Eq, Structural)]
pub struct SourceSpan {
    pub start: SourcePosition,
    pub end: SourcePosition,
}

#[derive(Clone, Copy, Debug, PartialEq, Eq, Structural)]
pub enum Delimiter {
    Parenthesis,
    SquareBracket,
    Brace,
    Angle,
}

/// The two structural application forms. Dots introduce ordinary typed
/// applications; bare angles carry a quality/application argument list.
#[derive(Clone, Copy, Debug, PartialEq, Eq, Structural)]
pub enum ApplicationForm {
    Dot,
    Angle,
}

/// The mathematical shape of one parsed block.
pub enum BlockModel {
    Delimited { delimiter: Delimiter, span: SourceSpan, children: Seq<BlockModel> },
    Application {
        span: SourceSpan,
        form: ApplicationForm,
        head: Box<BlockModel>,
        payload: Box<BlockModel>,
    },
    CurlyText { text: Seq<char>, span: SourceSpan },
    Atom { text: Seq<char>, span: SourceSpan },
}

impl BlockModel {
    pub open spec fn span(self) -> SourceSpan {
        match self {
            BlockModel::Delimited { span, .. } => span,
            BlockModel::Application { span, .. } => span,
            BlockModel::CurlyText { span, .. } => span,
            BlockModel::Atom { span, .. } => span,
        }
    }

    pub open spec fn child_count(self) -> nat {
        match self {
            BlockModel::Delimited { children, .. } => children.len(),
            _ => 0,
        }
    }

    pub open spec fn children(self) -> Seq<BlockModel> {
        match self {
            BlockModel::Delimited { children, .. } => children,
            _ => Seq::empty(),
        }
    }

    /// The flat dotted text of an atom or of a dot chain whose every segment
    /// is an atom.
    pub open spec fn dotted_text(self) -> Option<Seq<char>>
        decreases self,
    {
        match self {
            BlockModel::Atom { text, .. } => Some(text),
            BlockModel::Application { form: ApplicationForm::Dot, head, payload, .. } => {
                match (head.dotted_text(), payload.dotted_text()) {
                    (Some(h), Some(p)) => Some(h + seq!['.'] + p),
                    _ => None,
                }
            },
            _ => None,
        }
    }

    /// The text of an atom or of a curly-quoted text block.
    pub open spec fn demoted(self) -> Option<Seq<char>> {
        match self {
            BlockModel::Atom { text, .. } => Some(text),
            BlockModel::CurlyText { text, .. } => Some(text),
            _ => None,
        }
    }
}

} // verus!

verus! {

impl Delimiter {
    pub open spec fn spec_opening_text(self) -> Seq<char> {
        match self {
            Delimiter::Parenthesis => seq!['('],
            Delimiter::SquareBracket => seq!['['],
            Delimiter::Brace => seq!['{'],
            Delimiter::Angle => seq!['<'],
        }
    }

    pub open spec fn spec_closing_text(self) -> Seq<char> {
        match self {
            Delimiter::Parenthesis => seq![')'],
            Delimiter::SquareBracket => seq![']'],
            Delimiter::Brace => seq!['}'],
            Delimiter::Angle => seq!['>'],
        }
    }

    pub fn opening_text(self) -> (r: &'static str)
        ensures
            r@ == self.spec_opening_text(),
    {
        match self {
            Delimiter::Parenthesis => {
                proof { reveal_strlit("("); }
                "("
            },
            Delimiter::SquareBracket => {
                proof { reveal_strlit("["); }
                "["
            },
            Delimiter::Brace => {
                proof { reveal_strlit("{"); }
                "{"
            },
            Delimiter::Angle => {
                proof { reveal_strlit("<"); }
                "<"
            },
        }
    }

    pub fn closing_text(self) -> (r: &'static str)
        ensures
            r@ == self.spec_closing_text(),
    {
        match self {
            Delimiter::Parenthesis => {
                proof { reveal_strlit(")"); }
                ")"
            },
            Delimiter::SquareBracket => {
                proof { reveal_strlit("]"); }
                "]"
            },
            Delimiter::Brace => {
                proof { reveal_strlit("}"); }
                "}"
            },
            Delimiter::Angle => {
                proof { reveal_strlit(">"); }
                ">"
            },
        }
    }
}

} // verus!
