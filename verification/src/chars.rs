//! Character classes that the DOTOS grammar is written over.
use vstd::prelude::*;

verus! {

/// The Unicode `White_Space` property, as `char::is_whitespace` documents it.
pub open spec fn spec_is_whitespace(c: char) -> bool {
    let v = c as u32;
    ||| 0x09 <= v <= 0x0d
    ||| v == 0x20
    ||| v == 0x85
    ||| v == 0xa0
    ||| v == 0x1680
    ||| 0x2000 <= v <= 0x200a
    ||| v == 0x2028
    ||| v == 0x2029
    ||| v == 0x202f
    ||| v == 0x205f
    ||| v == 0x3000
}

/// Number of bytes the UTF-8 encoding of `c` takes.
pub open spec fn spec_utf8_width(c: char) -> int {
    let v = c as u32;
    if v < 0x80 {
        1
    } else if v < 0x800 {
        2
    } else if v < 0x10000 {
        3
    } else {
        4
    }
}

pub fn is_whitespace_char(c: char) -> (r: bool)
    ensures
        r == spec_is_whitespace(c),
{
    let v = c as u32;
    (0x09 <= v && v <= 0x0d) || v == 0x20 || v == 0x85 || v == 0xa0 || v == 0x1680 || (0x2000
        <= v && v <= 0x200a) || v == 0x2028 || v == 0x2029 || v == 0x202f || v == 0x205f || v
        == 0x3000
}

pub fn utf8_width_of(c: char) -> (w: usize)
    ensures
        w == spec_utf8_width(c),
        1 <= w <= 4,
{
    let v = c as u32;
    if v < 0x80 {
        1
    } else if v < 0x800 {
        2
    } else if v < 0x10000 {
        3
    } else {
        4
    }
}

} // verus!

verus! {

/// A character that can stand inside a bare atom.
pub open spec fn spec_bare_char(c: char) -> bool {
    !spec_is_whitespace(c) && !(c == '"' || c == '.' || c == '(' || c == ')' || c == '['
        || c == ']' || c == '{' || c == '}' || c == '<' || c == '>' || c == '“' || c == '”'
        || c == '|')
}

pub fn is_bare_char(c: char) -> (r: bool)
    ensures
        r == spec_bare_char(c),
{
    !is_whitespace_char(c) && !(c == '"' || c == '.' || c == '(' || c == ')' || c == '[' || c
        == ']' || c == '{' || c == '}' || c == '<' || c == '>' || c == '“' || c == '”' || c == '|')
}

pub open spec fn spec_ascii_upper(c: char) -> bool {
    'A' <= c <= 'Z'
}

pub open spec fn spec_ascii_lower(c: char) -> bool {
    'a' <= c <= 'z'
}

pub fn is_ascii_upper(c: char) -> (r: bool)
    ensures
        r == spec_ascii_upper(c),
{
    'A' <= c && c <= 'Z'
}

pub fn is_ascii_lower(c: char) -> (r: bool)
    ensures
        r == spec_ascii_lower(c),
{
    'a' <= c && c <= 'z'
}

/// Non-empty text made only of bare-atom characters.
pub open spec fn spec_symbol_text(t: Seq<char>) -> bool {
    t.len() > 0 && forall|k: int| 0 <= k < t.len() ==> spec_bare_char(#[trigger] t[k])
}

pub open spec fn spec_pascal_text(t: Seq<char>) -> bool {
    spec_symbol_text(t) && spec_ascii_upper(t[0]) && !t.contains('-')
}

pub open spec fn spec_camel_text(t: Seq<char>) -> bool {
    spec_symbol_text(t) && spec_ascii_lower(t[0]) && !t.contains('-')
}

pub open spec fn spec_kebab_text(t: Seq<char>) -> bool {
    spec_symbol_text(t) && t.contains('-')
}

/// The case classes of symbol text are disjoint: hyphenated text is
/// kebab-case and never camelCase or PascalCase, and no text is both
/// camelCase and PascalCase. A hyphen-free symbol is camelCase or PascalCase
/// exactly as its first character is a lower- or upper-case ASCII letter.
pub proof fn lemma_symbol_cases_disjoint(t: Seq<char>)
    ensures
        t.contains('-') ==> !spec_camel_text(t) && !spec_pascal_text(t),
        !(spec_camel_text(t) && spec_kebab_text(t)),
        !(spec_pascal_text(t) && spec_kebab_text(t)),
        !(spec_camel_text(t) && spec_pascal_text(t)),
        spec_symbol_text(t) && !t.contains('-') ==> (spec_camel_text(t) == spec_ascii_lower(t[0])
            && spec_pascal_text(t) == spec_ascii_upper(t[0])),
{
}

pub fn symbol_text(t: &Vec<char>) -> (r: bool)
    ensures
        r == spec_symbol_text(t@),
{
    if t.len() == 0 {
        return false;
    }
    let mut k: usize = 0;
    while k < t.len()
        invariant
            k <= t.len(),
            forall|m: int| 0 <= m < k ==> spec_bare_char(#[trigger] t@[m]),
        decreases t.len() - k,
    {
        if !is_bare_char(t[k]) {
            return false;
        }
        k = k + 1;
    }
    true
}

/// Text written out as one bare atom reads back as that atom: it is symbol
/// text and holds no `;;` comment marker.
pub open spec fn spec_bare_atom_text(t: Seq<char>) -> bool {
    &&& spec_symbol_text(t)
    &&& forall|k: int| 0 <= k < t.len() - 1 ==> !(#[trigger] t[k] == ';' && t[k + 1] == ';')
}

pub fn bare_atom_text(t: &Vec<char>) -> (r: bool)
    ensures
        r == spec_bare_atom_text(t@),
{
    if !symbol_text(t) {
        return false;
    }
    let mut k: usize = 0;
    while k + 1 < t.len()
        invariant
            k < t.len(),
            forall|m: int| 0 <= m < k ==> !(#[trigger] t@[m] == ';' && t@[m + 1] == ';'),
        decreases t.len() - k,
    {
        if t[k] == ';' && t[k + 1] == ';' {
            return false;
        }
        k = k + 1;
    }
    true
}

pub fn contains_char(t: &Vec<char>, c: char) -> (r: bool)
    ensures
        r == t@.contains(c),
{
    let mut k: usize = 0;
    while k < t.len()
        invariant
            k <= t.len(),
            forall|m: int| 0 <= m < k ==> t@[m] != c,
        decreases t.len() - k,
    {
        if t[k] == c {
            proof {
                assert(t@[k as int] == c);
            }
            return true;
        }
        k = k + 1;
    }
    false
}

pub fn pascal_text(t: &Vec<char>) -> (r: bool)
    ensures
        r == spec_pascal_text(t@),
{
    symbol_text(t) && is_ascii_upper(t[0]) && !contains_char(t, '-')
}

pub fn camel_text(t: &Vec<char>) -> (r: bool)
    ensures
        r == spec_camel_text(t@),
{
    symbol_text(t) && is_ascii_lower(t[0]) && !contains_char(t, '-')
}

pub fn kebab_text(t: &Vec<char>) -> (r: bool)
    ensures
        r == spec_kebab_text(t@),
{
    symbol_text(t) && contains_char(t, '-')
}

} // verus!
