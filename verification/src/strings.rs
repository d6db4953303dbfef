//! The canonical DOTOS surface form of string content.
use vstd::prelude::*;
use crate::chars::{is_bare_char, spec_bare_char};
use crate::text::{chars_of, push_char, push_str, text_of};

verus! {

/// Content that is a period-joined chain of non-empty bare atoms carrying no
/// comment marker: the raw reader rebuilds it as an atom or a dot chain whose
/// flat text is exactly the content.
pub open spec fn spec_bare_dotted(s: Seq<char>) -> bool {
    &&& s.len() > 0
    &&& s[0] != '.'
    &&& s.last() != '.'
    &&& forall|k: int| 0 <= k < s.len() ==> spec_bare_char(#[trigger] s[k]) || s[k] == '.'
    &&& forall|k: int| 0 <= k < s.len() - 1 ==> !(#[trigger] s[k] == '.' && s[k + 1] == '.')
    &&& forall|k: int| 0 <= k < s.len() - 1 ==> !(#[trigger] s[k] == ';' && s[k + 1] == ';')
}

/// Two neighbouring characters that no single-space-separated run of bare
/// dotted words holds: a doubled period, a comment marker, a doubled space,
/// or a space against a period.
pub open spec fn broken_pair(a: char, b: char) -> bool {
    ||| a == '.' && b == '.'
    ||| a == ';' && b == ';'
    ||| a == ' ' && b == ' '
    ||| a == ' ' && b == '.'
    ||| a == '.' && b == ' '
}

/// The characters at `k` and `k + 1` form a broken pair.
pub open spec fn broken_at(s: Seq<char>, k: int) -> bool {
    broken_pair(s[k], s[k + 1])
}

/// Content that is bare dotted words, at least two, separated by single
/// spaces: the parenthesis form `( … )` rebuilds it from its words.
pub open spec fn spec_spaced_words(s: Seq<char>) -> bool {
    &&& s.contains(' ')
    &&& s[0] != ' ' && s[0] != '.'
    &&& s.last() != ' ' && s.last() != '.'
    &&& forall|k: int| 0 <= k < s.len() ==> spec_bare_char(#[trigger] s[k]) || s[k] == '.' || s[k] == ' '
    &&& forall|k: int| 0 <= k < s.len() - 1 ==> !#[trigger] broken_at(s, k)
}

/// A character that curly text carries only behind a backslash.
pub open spec fn curly_escaped(c: char) -> bool {
    c == '\\' || c == '“' || c == '”'
}

/// Content with every backslash and curly quote escaped.
pub open spec fn escape_curly(s: Seq<char>) -> Seq<char>
    decreases s.len(),
{
    if s.len() == 0 {
        Seq::empty()
    } else {
        escape_curly(s.drop_last()) + if curly_escaped(s.last()) {
            seq!['\\', s.last()]
        } else {
            seq![s.last()]
        }
    }
}

/// The canonical DOTOS text of string content: bare when it is a bare dotted
/// chain, in a parenthesis when it is single-space-separated bare dotted
/// words, curly-quoted with escapes otherwise.
pub open spec fn spec_format_string(s: Seq<char>) -> Seq<char> {
    if spec_bare_dotted(s) {
        s
    } else if spec_spaced_words(s) {
        seq!['('] + s + seq![')']
    } else {
        seq!['“'] + escape_curly(s) + seq!['”']
    }
}

/// The three surface forms a string takes, by how little delimiter each
/// spends.
#[derive(Clone, Copy, Debug, PartialEq, Eq, Structural)]
pub enum StringForm {
    BareDotted,
    Parenthesis,
    CurlyText,
}

/// The form the canonical text of `s` takes.
pub open spec fn spec_string_form(s: Seq<char>) -> StringForm {
    if spec_bare_dotted(s) {
        StringForm::BareDotted
    } else if spec_spaced_words(s) {
        StringForm::Parenthesis
    } else {
        StringForm::CurlyText
    }
}

pub fn spaced_words(s: &Vec<char>) -> (r: bool)
    ensures
        r == spec_spaced_words(s@),
{
    if s.len() == 0 || s[0] == ' ' || s[0] == '.' || s[s.len() - 1] == ' ' || s[s.len() - 1] == '.' {
        proof {
            if s.len() == 0 {
                assert(!s@.contains(' '));
            }
        }
        return false;
    }
    let mut k: usize = 0;
    let mut spaced = false;
    while k < s.len()
        invariant
            s.len() > 0,
            k <= s.len(),
            spaced <==> exists|m: int| 0 <= m < k && s@[m] == ' ',
            forall|m: int| 0 <= m < k ==> spec_bare_char(#[trigger] s@[m]) || s@[m] == '.' || s@[m] == ' ',
            forall|m: int| 0 <= m < k && m < s.len() - 1 ==> !#[trigger] broken_at(s@, m),
        decreases s.len() - k,
    {
        let c = s[k];
        if !(is_bare_char(c) || c == '.' || c == ' ') {
            return false;
        }
        if k + 1 < s.len() {
            let d = s[k + 1];
            if (c == '.' && d == '.') || (c == ';' && d == ';') || (c == ' ' && d == ' ') || (c
                == ' ' && d == '.') || (c == '.' && d == ' ') {
                proof {
                    assert(broken_at(s@, k as int));
                }
                return false;
            }
        }
        if c == ' ' {
            spaced = true;
        }
        k = k + 1;
    }
    proof {
        if spaced {
            let m = choose|m: int| 0 <= m < k && s@[m] == ' ';
            assert(s@.contains(' '));
        } else {
            assert(!s@.contains(' '));
        }
    }
    spaced
}

pub fn bare_dotted(s: &Vec<char>) -> (r: bool)
    ensures
        r == spec_bare_dotted(s@),
{
    if s.len() == 0 || s[0] == '.' || s[s.len() - 1] == '.' {
        return false;
    }
    let mut k: usize = 0;
    while k < s.len()
        invariant
            s.len() > 0,
            k <= s.len(),
            forall|m: int| 0 <= m < k ==> spec_bare_char(#[trigger] s@[m]) || s@[m] == '.',
            forall|m: int| 0 <= m < k && m < s.len() - 1 ==> !(#[trigger] s@[m] == '.' && s@[m + 1] == '.'),
            forall|m: int| 0 <= m < k && m < s.len() - 1 ==> !(#[trigger] s@[m] == ';' && s@[m + 1] == ';'),
        decreases s.len() - k,
    {
        let c = s[k];
        if !(is_bare_char(c) || c == '.') {
            return false;
        }
        if k + 1 < s.len() {
            let d = s[k + 1];
            if (c == '.' && d == '.') || (c == ';' && d == ';') {
                return false;
            }
        }
        k = k + 1;
    }
    true
}

/// String content on its way to DOTOS text.
pub struct DotosString<'value> {
    value: &'value str,
}

impl<'value> DotosString<'value> {
    pub closed spec fn content(&self) -> Seq<char> {
        self.value@
    }

    pub fn new(value: &'value str) -> (r: DotosString<'value>)
        ensures
            r.content() == value@,
    {
        DotosString { value }
    }

    /// The single canonical form for this content.
    pub fn canonical_form(&self) -> (r: StringForm)
        ensures
            r == spec_string_form(self.content()),
    {
        let chars = chars_of(self.value);
        if bare_dotted(&chars) {
            StringForm::BareDotted
        } else if spaced_words(&chars) {
            StringForm::Parenthesis
        } else {
            StringForm::CurlyText
        }
    }

    /// The canonical DOTOS text of this content.
    pub fn format(&self) -> (r: String)
        ensures
            r@ == spec_format_string(self.content()),
    {
        match self.canonical_form() {
            StringForm::BareDotted => text_of(self.value),
            StringForm::Parenthesis => {
                let mut r = String::new();
                push_char(&mut r, '(');
                push_str(&mut r, self.value);
                push_char(&mut r, ')');
                r
            },
            StringForm::CurlyText => {
                let chars = chars_of(self.value);
                let mut r = String::new();
                push_char(&mut r, '“');
                let ghost base = r@;
                let mut k: usize = 0;
                while k < chars.len()
                    invariant
                        k <= chars.len(),
                        base == seq!['“'],
                        r@ == base + escape_curly(chars@.take(k as int)),
                    decreases chars.len() - k,
                {
                    let c = chars[k];
                    proof {
                        assert(chars@.take(k + 1).drop_last() =~= chars@.take(k as int));
                        assert(chars@.take(k + 1).last() == c);
                    }
                    if c == '\\' || c == '“' || c == '”' {
                        push_char(&mut r, '\\');
                    }
                    push_char(&mut r, c);
                    k = k + 1;
                }
                push_char(&mut r, '”');
                proof {
                    assert(chars@.take(chars.len() as int) =~= chars@);
                }
                r
            },
        }
    }
}

} // verus!
