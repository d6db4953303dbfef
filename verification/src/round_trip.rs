//! What the reader gives back of the text the codec writes.
//!
//! An encoding is read back where it stands in a larger text: followed by a
//! separator or by the end of the text, the reader takes it whole as one
//! object, and that object decodes to the value that was written.
use vstd::prelude::*;
use crate::chars::{spec_bare_atom_text, spec_bare_char, spec_is_whitespace};
use crate::bytes::{
    ByteSequence, FixedByteSequence, first_non_hex, hex_content, hex_digit_char, hex_pairs,
    hex_text, hex_value, lemma_first_non_hex, utf8_bytes,
};
use crate::codec::{DotosDecode, DotosEncode, single_root, spec_decode_string, spec_decode_words};
use crate::codec::{DotosBodyDecode, DotosBodyEncode};
use crate::collections::{
    decoded_map, encodings, entries_decode, entry_rejected, keys_ordered, map_entries, map_entry,
    some_entry_rejected,
};
use crate::ordered::{
    entry_texts, lemma_listing_builds_map, lemma_listing_unique, lemma_u64_listing_exists,
    listing_keys, listing_values,
    sorted_entries, sorted_listing,
};
use std::collections::BTreeMap;
use crate::error::DotosError;
use crate::grammar::{
    at_primary_start, atom_at, atom_end, closing_char, closing_delimiter, comment_at, ends_atom,
    parse_children, parse_delimited, parse_document, parse_object, parse_primary, parse_roots,
    remove_common_indentation, scan_curly, skip_spacing,
};
use crate::expectation::spec_split_at_first_dot;
use crate::model::{BlockModel, Delimiter};
use crate::parser::{atom_text_of, is_delimited_model};
use crate::numbers::{
    all_digits, digits_value, is_digit, lemma_decimal_digits, lemma_u64_text_round_trip,
    signed_decimal, spec_parse_i64, unsigned_digits,
};
use crate::strings::{
    broken_at, broken_pair, curly_escaped, escape_curly, spec_bare_dotted, spec_format_string, spec_spaced_words,
};
use crate::text::{decimal, joined};
use vstd::utf8::{is_ascii_chars, is_ascii_chars_encode_utf8};

verus! {

/// A character that ends the object before it without binding to it.
pub open spec fn separates(c: char) -> bool {
    spec_is_whitespace(c) || closing_delimiter(c) is Some
}

/// `enc` stands at `i` in `t`, and the text ends or a separator follows it.
pub open spec fn placed(t: Seq<char>, i: int, enc: Seq<char>) -> bool {
    &&& 0 <= i
    &&& i + enc.len() <= t.len()
    &&& t.subrange(i, i + enc.len()) == enc
    &&& (i + enc.len() == t.len() || separates(t[i + enc.len()]))
}

/// Text that begins an object wherever it stands.
pub open spec fn opens_object(enc: Seq<char>) -> bool {
    enc.len() > 0 && at_primary_start(enc, 0)
}

/// Wherever `enc` stands before a separator or the end of a text, the reader
/// takes it whole as one object that decodes to `v`.
pub open spec fn reads_back<T: DotosDecode>(enc: Seq<char>, v: T) -> bool {
    &&& opens_object(enc)
    &&& forall|t: Seq<char>, i: int| #[trigger]
        placed(t, i, enc) ==> (parse_object(t, i) matches Ok((m, e)) && e == i + enc.len()
            && T::decodes_to(m, v) && !T::rejects(m))
}

/// Bare atom text: nonempty, of bare characters, with no comment marker.
pub open spec fn bare_text(s: Seq<char>) -> bool {
    &&& s.len() > 0
    &&& forall|k: int| 0 <= k < s.len() ==> spec_bare_char(#[trigger] s[k])
    &&& forall|k: int| 0 <= k < s.len() - 1 ==> !(#[trigger] s[k] == ';' && s[k + 1] == ';')
}

proof fn lemma_atom_end_at(t: Seq<char>, j: int, n: int)
    requires
        0 <= j <= n <= t.len(),
        forall|k: int| j <= k < n ==> spec_bare_char(#[trigger] t[k]),
        forall|k: int| j <= k < n - 1 ==> !(#[trigger] t[k] == ';' && t[k + 1] == ';'),
        n == t.len() || ends_atom(t[n]),
    ensures
        atom_end(t, j) == n,
    decreases n - j,
{
    if j < n {
        assert(spec_bare_char(t[j]));
        if j + 1 < t.len() && t[j] == ';' && t[j + 1] == ';' {
            if j < n - 1 {
                assert(!(t[j] == ';' && t[j + 1] == ';'));
            } else {
                assert(ends_atom(t[n]));
            }
        }
        assert(!comment_at(t, j));
        lemma_atom_end_at(t, j + 1, n);
    }
}

/// Bare atom text at `i`, ended at `n` by a character that ends atoms, is read
/// as one atom.
proof fn lemma_atom_primary(t: Seq<char>, i: int, n: int)
    requires
        0 <= i < n <= t.len(),
        bare_text(t.subrange(i, n)),
        n == t.len() || ends_atom(t[n]),
    ensures
        parse_primary(t, i) == Ok::<(BlockModel, int), DotosError>((atom_at(t, i), n)),
        atom_at(t, i) matches BlockModel::Atom { text, .. } && text == t.subrange(i, n),
{
    let s = t.subrange(i, n);
    assert forall|k: int| i <= k < n implies spec_bare_char(#[trigger] t[k]) by {
        assert(t[k] == s[k - i]);
    }
    assert forall|k: int| i <= k < n - 1 implies !(#[trigger] t[k] == ';' && t[k + 1] == ';') by {
        assert(t[k] == s[k - i]);
        assert(t[k + 1] == s[k - i + 1]);
    }
    lemma_atom_end_at(t, i, n);
    assert(spec_bare_char(t[i]));
}

/// Bare atom text followed by a separator or the end is one whole object.
proof fn lemma_atom_object(t: Seq<char>, i: int, s: Seq<char>)
    requires
        bare_text(s),
        placed(t, i, s),
    ensures
        parse_object(t, i) == Ok::<(BlockModel, int), DotosError>((atom_at(t, i), i + s.len())),
        atom_at(t, i) matches BlockModel::Atom { text, .. } && text == s,
{
    lemma_atom_primary(t, i, i + s.len());
}

/// Bare atom text opens an object.
proof fn lemma_bare_opens(s: Seq<char>)
    requires
        bare_text(s),
    ensures
        opens_object(s),
{
    assert(spec_bare_char(s[0]));
    if s.len() > 1 {
        assert(!(s[0] == ';' && s[1] == ';'));
    }
}

/// Where `enc` opens an object and stands at `i`, an object may start at `i`.
proof fn lemma_placed_opens(t: Seq<char>, i: int, enc: Seq<char>)
    requires
        opens_object(enc),
        placed(t, i, enc),
    ensures
        at_primary_start(t, i),
        skip_spacing(t, i) == i,
        closing_delimiter(t[i]) is None,
{
    assert(t[i] == enc[0]);
    if enc.len() > 1 {
        assert(t[i + 1] == enc[1]);
    }
}

/// The index of the first period, or the length when there is none.
spec fn dot_index(s: Seq<char>) -> int
    decreases s.len(),
{
    if s.len() == 0 {
        0
    } else if s[0] == '.' {
        0
    } else {
        1 + dot_index(s.drop_first())
    }
}

proof fn lemma_dot_index(s: Seq<char>)
    ensures
        0 <= dot_index(s) <= s.len(),
        forall|q: int| 0 <= q < dot_index(s) ==> s[q] != '.',
        dot_index(s) < s.len() ==> s[dot_index(s)] == '.',
    decreases s.len(),
{
    if s.len() > 0 && s[0] != '.' {
        lemma_dot_index(s.drop_first());
        assert forall|q: int| 0 <= q < dot_index(s) implies s[q] != '.' by {
            if q > 0 {
                assert(s[q] == s.drop_first()[q - 1]);
            }
        }
    }
}

/// A bare dotted chain is read whole as an atom or a dot chain whose flat
/// text is the chain.
proof fn lemma_dotted_object(t: Seq<char>, i: int, s: Seq<char>)
    requires
        spec_bare_dotted(s),
        placed(t, i, s),
    ensures
        parse_object(t, i) matches Ok((m, e)) && e == i + s.len() && m.dotted_text() == Some(s)
            && !(m is CurlyText),
        dot_index(s) < s.len() ==> (parse_object(t, i) matches Ok((m, e)) && m matches BlockModel::Application { head, payload, .. }
            && atom_text_of(*head) == Some(s.take(dot_index(s))) && payload.dotted_text() == Some(
            s.skip(dot_index(s) + 1),
        )),
    decreases s.len(),
{
    lemma_dot_index(s);
    let p = dot_index(s);
    if p == s.len() {
        assert forall|k: int| 0 <= k < s.len() implies spec_bare_char(#[trigger] s[k]) by {
            assert(s[k] != '.');
        }
        lemma_atom_object(t, i, s);
    } else {
        let a = s.take(p);
        let rest = s.skip(p + 1);
        assert(p > 0);
        assert forall|k: int| 0 <= k < a.len() implies spec_bare_char(#[trigger] a[k]) by {
            assert(a[k] == s[k]);
            assert(s[k] != '.');
        }
        assert forall|k: int| 0 <= k < a.len() - 1 implies !(#[trigger] a[k] == ';' && a[k + 1]
            == ';') by {
            assert(a[k] == s[k]);
            assert(a[k + 1] == s[k + 1]);
        }
        assert(t.subrange(i, i + p) =~= a);
        assert(t[i + p] == s[p]);
        lemma_atom_primary(t, i, i + p);
        // The payload chain after the period.
        assert(p + 1 < s.len());
        assert(rest.len() > 0);
        assert(rest[0] == s[p + 1]);
        assert(s[p + 1] != '.');
        assert forall|k: int| 0 <= k < rest.len() implies spec_bare_char(#[trigger] rest[k])
            || rest[k] == '.' by {
            assert(rest[k] == s[p + 1 + k]);
        }
        assert forall|k: int| 0 <= k < rest.len() - 1 implies !(#[trigger] rest[k] == '.' && rest[k
            + 1] == '.') by {
            assert(rest[k] == s[p + 1 + k]);
            assert(rest[k + 1] == s[p + 2 + k]);
        }
        assert forall|k: int| 0 <= k < rest.len() - 1 implies !(#[trigger] rest[k] == ';' && rest[k
            + 1] == ';') by {
            assert(rest[k] == s[p + 1 + k]);
            assert(rest[k + 1] == s[p + 2 + k]);
        }
        assert(rest.last() == s.last());
        assert(spec_bare_dotted(rest));
        assert(t.subrange(i + p + 1, i + p + 1 + rest.len()) =~= rest);
        assert(placed(t, i + p + 1, rest));
        assert(t[i + p + 1] == rest[0]);
        if rest.len() > 1 {
            assert(t[i + p + 2] == rest[1]);
        }
        assert(at_primary_start(t, i + p + 1));
        lemma_dotted_object(t, i + p + 1, rest);
        assert(s =~= a + seq!['.'] + rest);
    }
}

/// One escaped character of curly text.
spec fn escape_one(c: char) -> Seq<char> {
    if curly_escaped(c) {
        seq!['\\', c]
    } else {
        seq![c]
    }
}

proof fn lemma_escape_front(c: char, s: Seq<char>)
    ensures
        escape_curly(seq![c] + s) == escape_one(c) + escape_curly(s),
    decreases s.len(),
{
    let x = seq![c] + s;
    if s.len() == 0 {
        assert(x.drop_last() =~= Seq::<char>::empty());
        assert(escape_curly(Seq::<char>::empty()) == Seq::<char>::empty());
        assert(escape_curly(x) =~= escape_one(c));
    } else {
        assert(x.drop_last() =~= seq![c] + s.drop_last());
        lemma_escape_front(c, s.drop_last());
        assert(x.last() == s.last());
        assert(escape_curly(x) =~= escape_one(c) + escape_curly(s));
    }
}

/// Escaped content followed by the closing quote scans back to the content.
proof fn lemma_scan_escaped(t: Seq<char>, j: int, s: Seq<char>, acc: Seq<char>, start: int)
    requires
        0 <= j,
        j + escape_curly(s).len() < t.len(),
        t.subrange(j, j + escape_curly(s).len()) == escape_curly(s),
        t[j + escape_curly(s).len()] == '”',
    ensures
        scan_curly(t, j, 1, acc, start) == Ok::<(Seq<char>, int), DotosError>(
            (acc + s, j + escape_curly(s).len() + 1),
        ),
    decreases s.len(),
{
    if s.len() == 0 {
        assert(escape_curly(s) == Seq::<char>::empty());
        assert(acc + s =~= acc);
    } else {
        let c = s[0];
        let rest = s.drop_first();
        assert(s =~= seq![c] + rest);
        lemma_escape_front(c, rest);
        let w = escape_one(c).len();
        assert(t.subrange(j + w, j + w + escape_curly(rest).len()) =~= escape_curly(rest)) by {
            assert forall|k: int| 0 <= k < escape_curly(rest).len() implies t.subrange(
                j + w,
                j + w + escape_curly(rest).len(),
            )[k] == escape_curly(rest)[k] by {
                assert(t[j + w + k] == t.subrange(j, j + escape_curly(s).len())[w + k]);
            }
        }
        assert(t[j] == escape_curly(s)[0]);
        if curly_escaped(c) {
            assert(t[j + 1] == escape_curly(s)[1]);
        }
        lemma_scan_escaped(t, j + w, rest, acc.push(c), start);
        assert(acc.push(c) + rest =~= acc + s);
    }
}

/// The curly form of content, followed by a separator or the end, is read
/// whole as curly text holding the content with common indentation removed.
proof fn lemma_curly_object(t: Seq<char>, i: int, s: Seq<char>)
    requires
        placed(t, i, seq!['“'] + escape_curly(s) + seq!['”']),
    ensures
        parse_object(t, i) matches Ok((m, e)) && e == i + escape_curly(s).len() + 2 && (
        m matches BlockModel::CurlyText { text, .. } && text == remove_common_indentation(s)),
{
    let enc = seq!['“'] + escape_curly(s) + seq!['”'];
    let n = escape_curly(s).len() as int;
    assert(t[i] == enc[0]);
    assert(t.subrange(i + 1, i + 1 + n) =~= escape_curly(s)) by {
        assert forall|k: int| 0 <= k < n implies t.subrange(i + 1, i + 1 + n)[k] == escape_curly(
            s,
        )[k] by {
            assert(t[i + 1 + k] == enc[1 + k]);
        }
    }
    assert(t[i + 1 + n] == enc[n + 1]);
    lemma_scan_escaped(t, i + 1, s, Seq::empty(), i);
    assert(Seq::<char>::empty() + s =~= s);
    let e = i + n + 2;
    assert(parse_primary(t, i) == crate::grammar::parse_curly_text(t, i));
    assert(e == t.len() || separates(t[e]));
}


/// The text from the start of a word to the closing parenthesis of a
/// parenthesized string: bare dotted words separated by single spaces.
spec fn word_run(r: Seq<char>) -> bool {
    &&& r.len() > 0
    &&& r[0] != ' ' && r[0] != '.'
    &&& r.last() != ' ' && r.last() != '.'
    &&& forall|k: int| 0 <= k < r.len() ==> spec_bare_char(#[trigger] r[k]) || r[k] == '.' || r[k] == ' '
    &&& forall|k: int| 0 <= k < r.len() - 1 ==> !#[trigger] broken_at(r, k)
}

/// The index of the first space, or the length when there is none.
spec fn space_index(s: Seq<char>) -> int
    decreases s.len(),
{
    if s.len() == 0 {
        0
    } else if s[0] == ' ' {
        0
    } else {
        1 + space_index(s.drop_first())
    }
}

proof fn lemma_space_index(s: Seq<char>)
    ensures
        0 <= space_index(s) <= s.len(),
        forall|q: int| 0 <= q < space_index(s) ==> s[q] != ' ',
        space_index(s) < s.len() ==> s[space_index(s)] == ' ',
    decreases s.len(),
{
    if s.len() > 0 && s[0] != ' ' {
        lemma_space_index(s.drop_first());
        assert forall|q: int| 0 <= q < space_index(s) implies s[q] != ' ' by {
            if q > 0 {
                assert(s[q] == s.drop_first()[q - 1]);
            }
        }
    }
}

/// The strings of a block followed by more blocks.
proof fn lemma_decode_words_front(m: BlockModel, ms: Seq<BlockModel>)
    ensures
        spec_decode_words(seq![m] + ms) == match (spec_decode_string(m), spec_decode_words(ms)) {
            (Some(w), Some(ws)) => Some(seq![w] + ws),
            _ => None::<Seq<Seq<char>>>,
        },
    decreases ms.len(),
{
    let c = seq![m] + ms;
    if ms.len() == 0 {
        assert(c.subrange(0, c.len() - 1) =~= Seq::<BlockModel>::empty());
        assert(c[c.len() - 1] == m);
        assert(spec_decode_words(Seq::<BlockModel>::empty()) == Some(Seq::<Seq<char>>::empty()));
        if let Some(w) = spec_decode_string(m) {
            assert(Seq::<Seq<char>>::empty().push(w) =~= seq![w] + Seq::<Seq<char>>::empty());
        }
    } else {
        let p = ms.subrange(0, ms.len() - 1);
        lemma_decode_words_front(m, p);
        assert(c.subrange(0, c.len() - 1) =~= seq![m] + p);
        assert(c[c.len() - 1] == ms[ms.len() - 1]);
        match (spec_decode_string(m), spec_decode_words(p), spec_decode_string(ms[ms.len() - 1])) {
            (Some(w), Some(ws), Some(x)) => {
                assert((seq![w] + ws).push(x) =~= seq![w] + ws.push(x));
            },
            _ => {},
        }
    }
}

/// A run of words splits at its first space into a bare dotted word and,
/// when a space follows it, the run after that space.
proof fn lemma_run_split(r: Seq<char>)
    requires
        word_run(r),
    ensures
        0 < space_index(r) <= r.len(),
        spec_bare_dotted(r.take(space_index(r))),
        space_index(r) == r.len() ==> r.take(space_index(r)) =~= r,
        space_index(r) < r.len() ==> {
            &&& r[space_index(r)] == ' '
            &&& space_index(r) + 1 < r.len()
            &&& word_run(r.skip(space_index(r) + 1))
            &&& r =~= r.take(space_index(r)) + seq![' '] + r.skip(space_index(r) + 1)
        },
{
    lemma_space_index(r);
    let p = space_index(r);
    let w = r.take(p);
    assert(p > 0);
    assert(w.last() == r[p - 1]);
    if p < r.len() {
        assert(!broken_at(r, p - 1));
    }
    assert forall|k: int| 0 <= k < w.len() implies spec_bare_char(#[trigger] w[k]) || w[k] == '.' by {
        assert(w[k] == r[k]);
        assert(r[k] != ' ');
    }
    assert forall|k: int| 0 <= k < w.len() - 1 implies !(#[trigger] w[k] == '.' && w[k + 1] == '.') by {
        assert(w[k] == r[k]);
        assert(w[k + 1] == r[k + 1]);
        assert(!broken_at(r, k));
    }
    assert forall|k: int| 0 <= k < w.len() - 1 implies !(#[trigger] w[k] == ';' && w[k + 1] == ';') by {
        assert(w[k] == r[k]);
        assert(w[k + 1] == r[k + 1]);
        assert(!broken_at(r, k));
    }
    if p < r.len() {
        let r2 = r.skip(p + 1);
        assert(p + 1 < r.len());
        assert(!broken_at(r, p));
        assert(r2[0] == r[p + 1]);
        assert(r2.last() == r.last());
        assert forall|q: int| 0 <= q < r2.len() implies spec_bare_char(#[trigger] r2[q]) || r2[q]
            == '.' || r2[q] == ' ' by {
            assert(r2[q] == r[p + 1 + q]);
        }
        assert forall|q: int| 0 <= q < r2.len() - 1 implies !#[trigger] broken_at(r2, q) by {
            assert(r2[q] == r[p + 1 + q]);
            assert(r2[q + 1] == r[p + 2 + q]);
            assert(!broken_at(r, p + 1 + q));
        }
        assert(r =~= w + seq![' '] + r2);
    }
}

/// One child object, then the rest of the children.
proof fn lemma_children_step(t: Seq<char>, j: int, d: Delimiter, start: int, m: BlockModel, k: int)
    requires
        0 <= j < k <= t.len(),
        skip_spacing(t, j) == j,
        t[j] != closing_char(d),
        closing_delimiter(t[j]) is None,
        parse_object(t, j) == Ok::<(BlockModel, int), DotosError>((m, k)),
    ensures
        parse_children(t, j, d, start) == match parse_children(t, k, d, start) {
            Err(e) => Err(e),
            Ok((rest, e)) => Ok::<(Seq<BlockModel>, int), DotosError>((seq![m] + rest, e)),
        },
{
}

/// A closing delimiter ends the children.
proof fn lemma_children_close(t: Seq<char>, j: int, d: Delimiter, start: int)
    requires
        0 <= j < t.len(),
        t[j] == closing_char(d),
    ensures
        parse_children(t, j, d, start) == Ok::<(Seq<BlockModel>, int), DotosError>(
            (Seq::empty(), j + 1),
        ),
{
    assert(skip_spacing(t, j) == j);
}

/// A space between children is skipped.
proof fn lemma_children_space(t: Seq<char>, j: int, d: Delimiter, start: int)
    requires
        0 <= j,
        j + 1 < t.len(),
        t[j] == ' ',
        skip_spacing(t, j + 1) == j + 1,
    ensures
        parse_children(t, j, d, start) == parse_children(t, j + 1, d, start),
{
    assert(skip_spacing(t, j) == j + 1);
}

/// The first word of a run, where the run stands, is read as one object
/// holding that word.
#[verifier::rlimit(100)]
#[verifier::spinoff_prover]
proof fn lemma_first_word(t: Seq<char>, j: int, r: Seq<char>)
    requires
        word_run(r),
        0 <= j,
        j + r.len() < t.len(),
        t.subrange(j, j + r.len()) == r,
        t[j + r.len()] == ')',
    ensures
        skip_spacing(t, j) == j,
        closing_delimiter(t[j]) is None,
        t[j] != ')',
        parse_object(t, j) matches Ok((m, k)) && k == j + space_index(r) && m.dotted_text() == Some(
            r.take(space_index(r)),
        ),
{
    lemma_run_split(r);
    let p = space_index(r);
    let w = r.take(p);
    assert(t.subrange(j, j + p) =~= w) by {
        assert forall|q: int| 0 <= q < p implies t.subrange(j, j + p)[q] == w[q] by {
            assert(t[j + q] == r[q]);
        }
    }
    assert(t[j + p] == ' ' || t[j + p] == ')') by {
        if p < r.len() {
            assert(t[j + p] == r[p]);
        }
    }
    assert(placed(t, j, w));
    lemma_string_opens(w);
    assert(spec_format_string(w) == w);
    lemma_placed_opens(t, j, w);
    lemma_dotted_object(t, j, w);
}

/// A block with flat dotted text holds that text as its string.
proof fn lemma_decode_dotted(m: BlockModel)
    requires
        m.dotted_text() is Some,
    ensures
        spec_decode_string(m) == m.dotted_text(),
{
}

/// The children read from `j` on close a parenthesis after the run `r`, and
/// their strings join back to `r`.
#[verifier::opaque]
spec fn words_read(t: Seq<char>, j: int, r: Seq<char>, start: int) -> bool {
    parse_children(t, j, Delimiter::Parenthesis, start) matches Ok((ms, e)) && (e == j + r.len() + 1
        && (spec_decode_words(ms) matches Some(ws) && joined(ws, seq![' ']) == r && ws.len() >= 1))
}

/// `r` stands at `j` in `t`, and a closing parenthesis follows it.
spec fn run_at(t: Seq<char>, j: int, r: Seq<char>) -> bool {
    &&& word_run(r)
    &&& 0 <= j
    &&& j + r.len() < t.len()
    &&& t.subrange(j, j + r.len()) == r
    &&& t[j + r.len()] == ')'
}

/// A run that is one word.
#[verifier::rlimit(60)]
#[verifier::spinoff_prover]
proof fn lemma_words_last(t: Seq<char>, j: int, r: Seq<char>, start: int)
    requires
        run_at(t, j, r),
        space_index(r) == r.len(),
    ensures
        words_read(t, j, r, start),
{
    lemma_run_split(r);
    lemma_first_word(t, j, r);
    let w = r.take(space_index(r));
    let (m, k) = parse_object(t, j)->Ok_0;
    lemma_decode_dotted(m);
    lemma_children_step(t, j, Delimiter::Parenthesis, start, m, k);
    lemma_children_close(t, k, Delimiter::Parenthesis, start);
    lemma_decode_words_front(m, Seq::empty());
    assert(spec_decode_words(Seq::<BlockModel>::empty()) == Some(Seq::<Seq<char>>::empty()));
    assert(seq![w] + Seq::<Seq<char>>::empty() =~= seq![w]);
    reveal(words_read);
}

/// A word, a space, and a run read as children.
#[verifier::rlimit(60)]
#[verifier::spinoff_prover]
proof fn lemma_words_more(t: Seq<char>, j: int, r: Seq<char>, start: int)
    requires
        run_at(t, j, r),
        space_index(r) < r.len(),
        words_read(t, j + space_index(r) + 1, r.skip(space_index(r) + 1), start),
    ensures
        words_read(t, j, r, start),
{
    lemma_run_split(r);
    lemma_first_word(t, j, r);
    let p = space_index(r);
    let w = r.take(p);
    let r2 = r.skip(p + 1);
    let (m, k) = parse_object(t, j)->Ok_0;
    lemma_decode_dotted(m);
    lemma_children_step(t, j, Delimiter::Parenthesis, start, m, k);
    assert(t[j + p] == r[p]);
    assert(t[j + p + 1] == r[p + 1]);
    assert(r2[0] == r[p + 1]);
    assert(spec_bare_char(r2[0]));
    if r2.len() > 1 {
        assert(t[j + p + 2] == r2[1]);
        assert(!broken_at(r2, 0));
    }
    assert(skip_spacing(t, j + p + 1) == j + p + 1);
    lemma_children_space(t, j + p, Delimiter::Parenthesis, start);
    reveal(words_read);
    let (ms2, e) = parse_children(t, j + p + 1, Delimiter::Parenthesis, start)->Ok_0;
    let ws2 = spec_decode_words(ms2)->Some_0;
    lemma_decode_words_front(m, ms2);
    let ws = seq![w] + ws2;
    assert(ws.drop_first() =~= ws2);
    assert(ws[0] == w);
    lemma_joined_front(ws, seq![' ']);
}

/// Words separated by single spaces, then a closing parenthesis, are read as
/// the children of that parenthesis, whose strings join back to the words.
#[verifier::spinoff_prover]
proof fn lemma_word_children(t: Seq<char>, j: int, r: Seq<char>, start: int)
    requires
        run_at(t, j, r),
    ensures
        words_read(t, j, r, start),
    decreases r.len(),
{
    lemma_run_split(r);
    let p = space_index(r);
    if p == r.len() {
        lemma_words_last(t, j, r, start);
    } else {
        let r2 = r.skip(p + 1);
        assert(t.subrange(j + p + 1, j + p + 1 + r2.len()) =~= r2) by {
            assert forall|q: int| 0 <= q < r2.len() implies t.subrange(j + p + 1, j + p + 1
                + r2.len())[q] == r2[q] by {
                assert(t[j + p + 1 + q] == r[p + 1 + q]);
            }
        }
        assert(t[j + p + 1 + r2.len()] == t[j + r.len()]);
        lemma_word_children(t, j + p + 1, r2, start);
        lemma_words_more(t, j, r, start);
    }
}

/// The parenthesis form of single-space-separated words, followed by a
/// separator or the end, is read whole as a parenthesis holding the words.
#[verifier::rlimit(100)]
#[verifier::spinoff_prover]
proof fn lemma_words_object(t: Seq<char>, i: int, s: Seq<char>)
    requires
        spec_spaced_words(s),
        placed(t, i, seq!['('] + s + seq![')']),
    ensures
        parse_object(t, i) matches Ok((m, e)) && e == i + s.len() + 2 && spec_decode_string(m)
            == Some(s),
{
    let enc = seq!['('] + s + seq![')'];
    assert(t[i] == enc[0]);
    assert(t.subrange(i + 1, i + 1 + s.len()) =~= s) by {
        assert forall|k: int| 0 <= k < s.len() implies t.subrange(i + 1, i + 1 + s.len())[k] == s[k] by {
            assert(t[i + 1 + k] == enc[1 + k]);
        }
    }
    assert(t[i + 1 + s.len()] == enc[s.len() + 1int]);
    assert(word_run(s));
    lemma_word_children(t, i + 1, s, i);
    reveal(words_read);
    assert(parse_primary(t, i) == parse_delimited(t, i, Delimiter::Parenthesis));
    let e = i + s.len() + 2;
    assert(e == t.len() || separates(t[e]));
}

/// The canonical text of string content opens an object.
proof fn lemma_string_opens(s: Seq<char>)
    ensures
        opens_object(spec_format_string(s)),
{
    if spec_bare_dotted(s) {
        assert(spec_bare_char(s[0]));
        if s.len() > 1 {
            assert(!(s[0] == ';' && s[1] == ';'));
        }
    }
}

/// String content whose common indentation is none is read back from its
/// canonical text wherever that text stands.
proof fn lemma_string_text_reads(s: Seq<char>, t: Seq<char>, i: int)
    requires
        remove_common_indentation(s) == s,
        placed(t, i, spec_format_string(s)),
    ensures
        parse_object(t, i) matches Ok((m, e)) && e == i + spec_format_string(s).len()
            && spec_decode_string(m) == Some(s),
{
    if spec_bare_dotted(s) {
        lemma_dotted_object(t, i, s);
    } else if spec_spaced_words(s) {
        lemma_words_object(t, i, s);
    } else {
        lemma_curly_object(t, i, s);
    }
}

/// String content whose common indentation is none is read back from its
/// canonical text.
pub proof fn lemma_string_reads_back(v: String)
    requires
        remove_common_indentation(v@) == v@,
    ensures
        reads_back(v.encoding(), v),
{
    lemma_string_opens(v@);
    assert forall|t: Seq<char>, i: int| #[trigger] placed(t, i, v.encoding()) implies (parse_object(
        t,
        i,
    ) matches Ok((m, e)) && e == i + v.encoding().len() && String::decodes_to(m, v)
        && !String::rejects(m)) by {
        lemma_string_text_reads(v@, t, i);
    }
}

/// The hexadecimal text of bytes: two digits per byte, high nibble first.
proof fn lemma_hex_text(b: Seq<u8>)
    ensures
        hex_text(b).len() == 2 * b.len(),
        forall|k: int|
            0 <= k < b.len() ==> hex_text(b)[2 * k] == hex_digit_char((#[trigger] b[k] / 16) as int)
                && hex_text(b)[2 * k + 1] == hex_digit_char((b[k] % 16) as int),
    decreases b.len(),
{
    if b.len() > 0 {
        let d = b.drop_last();
        lemma_hex_text(d);
        assert forall|k: int| 0 <= k < b.len() implies hex_text(b)[2 * k] == hex_digit_char(
            (#[trigger] b[k] / 16) as int,
        ) && hex_text(b)[2 * k + 1] == hex_digit_char((b[k] % 16) as int) by {
            if k < d.len() {
                assert(d[k] == b[k]);
            }
        }
    }
}

/// One hexadecimal digit character, as a byte, reads back to its value.
proof fn lemma_hex_digit(n: int)
    requires
        0 <= n < 16,
    ensures
        '0' <= hex_digit_char(n) <= 'f',
        !spec_is_whitespace(hex_digit_char(n)),
        spec_bare_char(hex_digit_char(n)),
        hex_digit_char(n) != ';',
        hex_digit_char(n) != '\n',
        hex_value(hex_digit_char(n) as u8) == Some(n as u8),
{
    if n < 10 {
        assert(hex_digit_char(n) as u32 == 48 + n);
    } else {
        assert(hex_digit_char(n) as u32 == 87 + n);
    }
}

/// The hexadecimal text of bytes decodes back to the bytes.
proof fn lemma_hex_content(b: Seq<u8>)
    ensures
        remove_common_indentation(hex_text(b)) == hex_text(b),
        hex_content(hex_text(b)) == Some(b),
        utf8_bytes(hex_text(b)).len() == 2 * b.len(),
{
    let h = hex_text(b);
    lemma_hex_text(b);
    assert forall|k: int| 0 <= k < h.len() implies '0' <= #[trigger] h[k] <= 'f' && h[k] != '\n'
        && hex_value(h[k] as u8) is Some by {
        let q = k / 2;
        if k % 2 == 0 {
            assert(k == 2 * q);
            lemma_hex_digit((b[q] / 16) as int);
        } else {
            assert(k == 2 * q + 1);
            lemma_hex_digit((b[q] % 16) as int);
        }
    }
    assert(!h.contains('\n'));
    assert(is_ascii_chars(h));
    is_ascii_chars_encode_utf8(h);
    let bs = utf8_bytes(h);
    assert(bs.len() == h.len());
    assert forall|k: int| 0 <= k < bs.len() implies hex_value(#[trigger] bs[k]) is Some by {
        assert(bs[k] == h[k] as u8);
    }
    lemma_first_non_hex(bs, 0, bs.len() as int);
    assert(first_non_hex(bs, bs.len() as int) is None);
    assert(hex_pairs(bs) =~= b) by {
        assert forall|k: int| 0 <= k < b.len() implies hex_pairs(bs)[k] == b[k] by {
            lemma_hex_digit((b[k] / 16) as int);
            lemma_hex_digit((b[k] % 16) as int);
            assert(bs[2 * k] == h[2 * k] as u8);
            assert(bs[2 * k + 1] == h[2 * k + 1] as u8);
            assert((b[k] / 16) * 16 + b[k] % 16 == b[k]);
        }
    }
}

/// A byte sequence is read back from its hexadecimal text.
pub proof fn lemma_byte_sequence_reads_back(v: ByteSequence)
    ensures
        reads_back(v.encoding(), v),
{
    let h = hex_text(v@);
    lemma_hex_content(v@);
    lemma_string_opens(h);
    assert forall|t: Seq<char>, i: int| #[trigger] placed(t, i, v.encoding()) implies (parse_object(
        t,
        i,
    ) matches Ok((m, e)) && e == i + v.encoding().len() && ByteSequence::decodes_to(m, v)
        && !ByteSequence::rejects(m)) by {
        lemma_string_text_reads(h, t, i);
    }
}

/// A fixed-width byte sequence is read back from its hexadecimal text.
pub proof fn lemma_fixed_byte_sequence_reads_back<const WIDTH: usize>(v: FixedByteSequence<WIDTH>)
    ensures
        reads_back(v.encoding(), v),
{
    let h = hex_text(v@);
    lemma_hex_content(v@);
    lemma_string_opens(h);
    v.lemma_width();
    assert forall|t: Seq<char>, i: int| #[trigger] placed(t, i, v.encoding()) implies (parse_object(
        t,
        i,
    ) matches Ok((m, e)) && e == i + v.encoding().len() && FixedByteSequence::<WIDTH>::decodes_to(
        m,
        v,
    ) && !FixedByteSequence::<WIDTH>::rejects(m)) by {
        lemma_string_text_reads(h, t, i);
    }
}

proof fn lemma_digits_bare(s: Seq<char>)
    requires
        all_digits(s),
        s.len() > 0,
    ensures
        bare_text(s),
{
    assert forall|k: int| 0 <= k < s.len() implies spec_bare_char(#[trigger] s[k]) by {
        assert(is_digit(s[k]));
    }
    assert forall|k: int| 0 <= k < s.len() - 1 implies !(#[trigger] s[k] == ';' && s[k + 1]
        == ';') by {
        assert(is_digit(s[k]));
    }
}

/// An atom is read back wherever its text stands, when its text decodes.
proof fn lemma_atom_reads_back<T: DotosDecode>(s: Seq<char>, v: T)
    requires
        bare_text(s),
        forall|m: BlockModel|
            (m matches BlockModel::Atom { text, .. } && text == s) ==> #[trigger] T::decodes_to(m, v)
                && !T::rejects(m),
    ensures
        reads_back(s, v),
{
    lemma_bare_opens(s);
    assert forall|t: Seq<char>, i: int| #[trigger] placed(t, i, s) implies (parse_object(
        t,
        i,
    ) matches Ok((m, e)) && e == i + s.len() && T::decodes_to(m, v) && !T::rejects(m)) by {
        lemma_atom_object(t, i, s);
        assert(T::decodes_to(atom_at(t, i), v));
    }
}

/// An unsigned integer is read back from its decimal text.
pub proof fn lemma_u64_reads_back(n: u64)
    ensures
        reads_back(n.encoding(), n),
{
    lemma_decimal_digits(n as nat);
    lemma_digits_bare(decimal(n as nat));
    lemma_u64_text_round_trip(n);
    lemma_atom_reads_back(decimal(n as nat), n);
}

pub proof fn lemma_u32_reads_back(n: u32)
    ensures
        reads_back(n.encoding(), n),
{
    lemma_decimal_digits(n as nat);
    lemma_digits_bare(decimal(n as nat));
    lemma_u64_text_round_trip(n as u64);
    lemma_atom_reads_back(decimal(n as nat), n);
}

pub proof fn lemma_u16_reads_back(n: u16)
    ensures
        reads_back(n.encoding(), n),
{
    lemma_decimal_digits(n as nat);
    lemma_digits_bare(decimal(n as nat));
    lemma_u64_text_round_trip(n as u64);
    lemma_atom_reads_back(decimal(n as nat), n);
}

pub proof fn lemma_u8_reads_back(n: u8)
    ensures
        reads_back(n.encoding(), n),
{
    lemma_decimal_digits(n as nat);
    lemma_digits_bare(decimal(n as nat));
    lemma_u64_text_round_trip(n as u64);
    lemma_atom_reads_back(decimal(n as nat), n);
}

/// A signed number printed in decimal parses back to itself.
proof fn lemma_i64_text_round_trip(x: i64)
    ensures
        spec_parse_i64(signed_decimal(x as int)) == Some(x),
        bare_text(signed_decimal(x as int)),
{
    if x < 0 {
        let d = decimal((-x) as nat);
        lemma_decimal_digits((-x) as nat);
        let s = seq!['-'] + d;
        assert(s.drop_first() =~= d);
        assert(s[0] == '-');
        lemma_digits_bare(d);
        assert forall|k: int| 0 <= k < s.len() implies spec_bare_char(#[trigger] s[k]) by {
            if k > 0 {
                assert(s[k] == d[k - 1]);
            }
        }
        assert forall|k: int| 0 <= k < s.len() - 1 implies !(#[trigger] s[k] == ';' && s[k + 1]
            == ';') by {
            assert(s[k + 1] == d[k]);
            assert(is_digit(d[k]));
        }
    } else {
        let d = decimal(x as nat);
        lemma_decimal_digits(x as nat);
        lemma_digits_bare(d);
        assert(is_digit(d[0]));
        assert(unsigned_digits(d) == d);
    }
}

pub proof fn lemma_i64_reads_back(x: i64)
    ensures
        reads_back(x.encoding(), x),
{
    lemma_i64_text_round_trip(x);
    lemma_atom_reads_back(signed_decimal(x as int), x);
}

pub proof fn lemma_i32_reads_back(x: i32)
    ensures
        reads_back(x.encoding(), x),
{
    lemma_i64_text_round_trip(x as i64);
    lemma_atom_reads_back(signed_decimal(x as int), x);
}

/// A boolean is read back from its atom.
pub proof fn lemma_bool_reads_back(b: bool)
    ensures
        reads_back(b.encoding(), b),
{
    reveal_strlit("True");
    reveal_strlit("False");
    let s = b.encoding();
    assert forall|k: int| 0 <= k < s.len() implies spec_bare_char(#[trigger] s[k]) by {}
    lemma_atom_reads_back(s, b);
}

proof fn lemma_joined_front(items: Seq<Seq<char>>, sep: Seq<char>)
    requires
        items.len() >= 2,
    ensures
        joined(items, sep) == items[0] + sep + joined(items.drop_first(), sep),
    decreases items.len(),
{
    if items.len() == 2 {
        assert(items.drop_last().len() == 1);
        assert(joined(items.drop_last(), sep) == items[0]);
        assert(items.drop_first().len() == 1);
        assert(joined(items.drop_first(), sep) == items[1]);
        assert(joined(items, sep) =~= items[0] + sep + items[1]);
    } else {
        lemma_joined_front(items.drop_last(), sep);
        assert(items.drop_last().drop_first() =~= items.drop_first().drop_last());
        assert(items.drop_first().last() == items.last());
        assert(joined(items, sep) =~= items[0] + sep + joined(items.drop_first(), sep));
    }
}

/// Element encodings joined by spaces, then a closing delimiter, are read as
/// the children of a delimited block, one per element.
proof fn lemma_children_read<E: DotosDecode + DotosEncode>(
    t: Seq<char>,
    j: int,
    vs: Seq<E>,
    d: Delimiter,
    start: int,
)
    requires
        forall|k: int| 0 <= k < vs.len() ==> reads_back(#[trigger] vs[k].encoding(), vs[k]),
        0 <= j,
        j + joined(encodings(vs), " "@).len() < t.len(),
        t.subrange(j, j + joined(encodings(vs), " "@).len()) == joined(encodings(vs), " "@),
        t[j + joined(encodings(vs), " "@).len()] == closing_char(d),
    ensures
        vs.len() > 0 ==> skip_spacing(t, j) == j,
        parse_children(t, j, d, start) matches Ok((ms, e)) && e == j + joined(
            encodings(vs),
            " "@,
        ).len() + 1 && ms.len() == vs.len() && forall|k: int|
            0 <= k < vs.len() ==> E::decodes_to(#[trigger] ms[k], vs[k]) && !E::rejects(ms[k]),
    decreases vs.len(),
{
    reveal_strlit(" ");
    let body = joined(encodings(vs), " "@);
    if vs.len() == 0 {
        assert(body == Seq::<char>::empty());
        assert(skip_spacing(t, j) == j);
    } else {
        let x = vs[0];
        let ex = x.encoding();
        let rest = vs.drop_first();
        let rb = joined(encodings(rest), " "@);
        assert(encodings(rest) =~= encodings(vs).drop_first());
        assert(encodings(vs)[0] == ex);
        assert(reads_back(ex, x));
        assert forall|k: int| 0 <= k < rest.len() implies reads_back(
            #[trigger] rest[k].encoding(),
            rest[k],
        ) by {
            assert(rest[k] == vs[k + 1]);
        }
        let k = j + ex.len();
        if vs.len() == 1 {
            assert(encodings(vs) =~= seq![ex]);
            assert(body == ex);
            assert(rb == Seq::<char>::empty());
        } else {
            lemma_joined_front(encodings(vs), " "@);
            assert(body == ex + " "@ + rb);
        }
        assert(t.subrange(j, k) =~= ex) by {
            assert forall|q: int| 0 <= q < ex.len() implies t.subrange(j, k)[q] == ex[q] by {
                assert(t[j + q] == body[q]);
            }
        }
        assert(t[k] == body[ex.len() as int] || vs.len() == 1);
        assert(placed(t, j, ex));
        lemma_placed_opens(t, j, ex);
        if vs.len() == 1 {
            assert(t.subrange(k, k + rb.len()) =~= rb);
            lemma_children_read(t, k, rest, d, start);
        } else {
            assert(t[k] == ' ');
            assert(t.subrange(k + 1, k + 1 + rb.len()) =~= rb) by {
                assert forall|q: int| 0 <= q < rb.len() implies t.subrange(k + 1, k + 1 + rb.len())[q]
                    == rb[q] by {
                    assert(t[k + 1 + q] == body[ex.len() + 1 + q]);
                }
            }
            lemma_children_read(t, k + 1, rest, d, start);
            assert(skip_spacing(t, k) == k + 1);
            assert(parse_children(t, k, d, start) == parse_children(t, k + 1, d, start));
        }
        let (m, e1) = parse_object(t, j)->Ok_0;
        let (ms, e) = parse_children(t, k, d, start)->Ok_0;
        assert((seq![m] + ms)[0] == m);
        assert forall|q: int| 0 <= q < vs.len() implies E::decodes_to(
            #[trigger] (seq![m] + ms)[q],
            vs[q],
        ) && !E::rejects((seq![m] + ms)[q]) by {
            if q > 0 {
                assert((seq![m] + ms)[q] == ms[q - 1]);
                assert(vs[q] == rest[q - 1]);
            }
        }
    }
}

/// A vector whose elements are each read back from their encodings is read
/// back from its own.
pub proof fn lemma_vec_reads_back<E: DotosDecode + DotosEncode>(v: Vec<E>)
    requires
        forall|k: int| 0 <= k < v@.len() ==> reads_back(#[trigger] v@[k].encoding(), v@[k]),
    ensures
        reads_back(v.encoding(), v),
{
    let enc = v.encoding();
    let body = joined(encodings(v@), " "@);
    assert(enc == seq!['['] + body + seq![']']);
    assert forall|t: Seq<char>, i: int| #[trigger] placed(t, i, enc) implies (parse_object(
        t,
        i,
    ) matches Ok((m, e)) && e == i + enc.len() && Vec::<E>::decodes_to(m, v)
        && !Vec::<E>::rejects(m)) by {
        assert(t[i] == enc[0]);
        assert(t.subrange(i + 1, i + 1 + body.len()) =~= body) by {
            assert forall|q: int| 0 <= q < body.len() implies t.subrange(i + 1, i + 1 + body.len())[q]
                == body[q] by {
                assert(t[i + 1 + q] == enc[1 + q]);
            }
        }
        assert(t[i + 1 + body.len()] == enc[body.len() + 1int]);
        lemma_children_read(t, i + 1, v@, Delimiter::SquareBracket, i);
        assert(parse_primary(t, i) == parse_delimited(t, i, Delimiter::SquareBracket));
        let e = i + enc.len();
        assert(e == t.len() || separates(t[e]));
    }
}

/// An option is read back when its present value is.
pub proof fn lemma_option_reads_back<E: DotosDecode + DotosEncode>(o: Option<E>)
    requires
        o matches Some(x) ==> reads_back(x.encoding(), x),
    ensures
        reads_back(o.encoding(), o),
{
    reveal_strlit("None");
    reveal_strlit("Some");
    reveal_strlit("Some.");
    match o {
        None => {
            let s = "None"@;
            assert forall|k: int| 0 <= k < s.len() implies spec_bare_char(#[trigger] s[k]) by {}
            lemma_atom_reads_back(s, o);
        },
        Some(x) => {
            let ex = x.encoding();
            let enc = o.encoding();
            assert(enc == "Some."@ + ex);
            assert(enc[0] == 'S');
            assert forall|t: Seq<char>, i: int| #[trigger] placed(t, i, enc) implies (parse_object(
                t,
                i,
            ) matches Ok((m, e)) && e == i + enc.len() && Option::<E>::decodes_to(m, o)
                && !Option::<E>::rejects(m)) by {
                assert(t.subrange(i, i + 4) =~= "Some"@) by {
                    assert forall|q: int| 0 <= q < 4 implies t.subrange(i, i + 4)[q] == "Some"@[q] by {
                        assert(t[i + q] == enc[q]);
                    }
                }
                assert(t[i + 4] == enc[4]);
                let s = "Some"@;
                assert forall|k: int| 0 <= k < s.len() implies spec_bare_char(#[trigger] s[k]) by {}
                lemma_atom_primary(t, i, i + 4);
                assert(t.subrange(i + 5, i + 5 + ex.len()) =~= ex) by {
                    assert forall|q: int| 0 <= q < ex.len() implies t.subrange(i + 5, i + 5 + ex.len())[q]
                        == ex[q] by {
                        assert(t[i + 5 + q] == enc[5 + q]);
                    }
                }
                assert(placed(t, i + 5, ex));
                lemma_placed_opens(t, i + 5, ex);
            }
        },
    }
}

/// A box is read back exactly as the value it holds.
pub proof fn lemma_box_reads_back<E: DotosDecode + DotosEncode>(b: Box<E>)
    requires
        reads_back((*b).encoding(), *b),
    ensures
        reads_back(b.encoding(), b),
{
    assert forall|t: Seq<char>, i: int| #[trigger] placed(t, i, b.encoding()) implies (parse_object(
        t,
        i,
    ) matches Ok((m, e)) && e == i + b.encoding().len() && Box::<E>::decodes_to(m, b)
        && !Box::<E>::rejects(m)) by {
        assert(placed(t, i, (*b).encoding()));
    }
}

/// The block-level and the string-level readers of a dotted entry split a
/// bare dotted chain alike: the block read from the chain is an application
/// whose head atom is the text before the first period and whose payload's
/// flat text is the text after it.
pub proof fn lemma_dotted_split_parity(s: Seq<char>)
    requires
        spec_bare_dotted(s),
        s.contains('.'),
    ensures
        spec_split_at_first_dot(s) matches Some((prefix, Some(rest))) && single_root(s) matches Some(
            m,
        ) && m matches BlockModel::Application { head, payload, .. } && atom_text_of(*head) == Some(
            prefix,
        ) && payload.dotted_text() == Some(rest),
{
    lemma_dot_index(s);
    let p = dot_index(s);
    assert(p < s.len()) by {
        let w = choose|w: int| 0 <= w < s.len() && s[w] == '.';
        if p == s.len() {
            assert(s[w] != '.');
        }
    }
    let chosen = choose|i: int| 0 <= i < s.len() && s[i] == '.' && forall|j: int| 0 <= j < i ==> s[j] != '.';
    assert(0 <= p < s.len() && s[p] == '.' && forall|j: int| 0 <= j < p ==> s[j] != '.');
    assert(chosen == p) by {
        if chosen < p {
            assert(s[chosen] != '.');
        } else if chosen > p {
            assert(s[p] != '.');
        }
    }
    assert(s.skip(p + 1).len() > 0);
    assert(s.subrange(0, s.len() as int) =~= s);
    assert(placed(s, 0, s));
    lemma_dotted_object(s, 0, s);
    lemma_string_opens(s);
    assert(spec_format_string(s) == s);
    lemma_placed_opens(s, 0, s);
    assert(skip_spacing(s, s.len() as int) == s.len());
    assert(parse_roots(s, s.len() as int) == Ok::<Seq<BlockModel>, DotosError>(Seq::empty()));
    assert(parse_document(s) == parse_roots(s, 0));
}

/// Element encodings joined by line breaks, running to the end of the text,
/// are read as root objects, one per element.
proof fn lemma_body_roots_read<E: DotosDecode + DotosEncode>(t: Seq<char>, j: int, vs: Seq<E>)
    requires
        forall|k: int| 0 <= k < vs.len() ==> reads_back(#[trigger] vs[k].encoding(), vs[k]),
        0 <= j,
        j + joined(encodings(vs), "\n"@).len() == t.len(),
        t.subrange(j, t.len() as int) == joined(encodings(vs), "\n"@),
    ensures
        parse_roots(t, j) matches Ok(ms) && ms.len() == vs.len() && forall|k: int|
            0 <= k < vs.len() ==> E::decodes_to(#[trigger] ms[k], vs[k]) && !E::rejects(ms[k]),
    decreases vs.len(),
{
    reveal_strlit("\n");
    let body = joined(encodings(vs), "\n"@);
    if vs.len() == 0 {
        assert(body == Seq::<char>::empty());
        assert(skip_spacing(t, j) == j);
    } else {
        let x = vs[0];
        let ex = x.encoding();
        let rest = vs.drop_first();
        let rb = joined(encodings(rest), "\n"@);
        assert(encodings(rest) =~= encodings(vs).drop_first());
        assert(encodings(vs)[0] == ex);
        assert(reads_back(ex, x));
        assert forall|k: int| 0 <= k < rest.len() implies reads_back(
            #[trigger] rest[k].encoding(),
            rest[k],
        ) by {
            assert(rest[k] == vs[k + 1]);
        }
        let k = j + ex.len();
        if vs.len() == 1 {
            assert(encodings(vs) =~= seq![ex]);
            assert(body == ex);
        } else {
            lemma_joined_front(encodings(vs), "\n"@);
            assert(body == ex + "\n"@ + rb);
        }
        assert(t.subrange(j, k) =~= ex) by {
            assert forall|q: int| 0 <= q < ex.len() implies t.subrange(j, k)[q] == ex[q] by {
                assert(t[j + q] == body[q]);
            }
        }
        if vs.len() > 1 {
            assert(t[k] == body[ex.len() as int]);
            assert(t[k] == '\n');
        }
        assert(placed(t, j, ex));
        lemma_placed_opens(t, j, ex);
        if vs.len() == 1 {
            assert(rb == Seq::<char>::empty());
            assert(t.subrange(k, t.len() as int) =~= rb);
            lemma_body_roots_read(t, k, rest);
        } else {
            assert(t.subrange(k + 1, t.len() as int) =~= rb) by {
                assert forall|q: int| 0 <= q < rb.len() implies t.subrange(k + 1, t.len() as int)[q]
                    == rb[q] by {
                    assert(t[k + 1 + q] == body[ex.len() + 1 + q]);
                }
            }
            lemma_body_roots_read(t, k + 1, rest);
            assert(skip_spacing(t, k) == skip_spacing(t, k + 1));
            assert(parse_roots(t, k) == parse_roots(t, k + 1));
        }
        let m = parse_object(t, j)->Ok_0.0;
        let ms = parse_roots(t, k)->Ok_0;
        assert((seq![m] + ms)[0] == m);
        assert forall|q: int| 0 <= q < vs.len() implies E::decodes_to(
            #[trigger] (seq![m] + ms)[q],
            vs[q],
        ) && !E::rejects((seq![m] + ms)[q]) by {
            if q > 0 {
                assert((seq![m] + ms)[q] == ms[q - 1]);
                assert(vs[q] == rest[q - 1]);
            }
        }
    }
}

/// A vector written as a known-root body, its elements one per line, is read
/// back from that body when its elements are read back from their own
/// encodings.
pub proof fn lemma_body_reads_back<E: DotosDecode + DotosEncode>(v: Vec<E>)
    requires
        forall|k: int| 0 <= k < v@.len() ==> reads_back(#[trigger] v@[k].encoding(), v@[k]),
    ensures
        parse_document(joined(v.body_encoding(), "\n"@)) matches Ok(ms)
            && Vec::<E>::body_decodes_to(ms, v) && !Vec::<E>::body_rejects(ms),
{
    let t = joined(encodings(v@), "\n"@);
    assert(t.subrange(0, t.len() as int) =~= t);
    lemma_body_roots_read(t, 0, v@);
    assert(parse_document(t) == parse_roots(t, 0));
}

/// A value read back from its encoding is the single root object of that
/// text, and that object decodes to the value.
pub proof fn lemma_source_reads_back<T: DotosDecode + DotosEncode>(v: T)
    requires
        reads_back(v.encoding(), v),
    ensures
        single_root(v.encoding()) matches Some(m) && T::decodes_to(m, v) && !T::rejects(m),
{
    let t = v.encoding();
    assert(t.subrange(0, t.len() as int) =~= t);
    assert(placed(t, 0, t));
    lemma_placed_opens(t, 0, t);
    assert(skip_spacing(t, t.len() as int) == t.len());
    assert(parse_roots(t, t.len() as int) == Ok::<Seq<BlockModel>, DotosError>(Seq::empty()));
    assert(parse_document(t) == parse_roots(t, 0));
}


/// Text that the atom classifier calls a symbol candidate is read back as a
/// document of exactly one root object: an atom whose text is that text.
pub proof fn lemma_symbol_candidate_reads_as_atom(t: Seq<char>)
    requires
        spec_bare_atom_text(t),
    ensures
        single_root(t) matches Some(m) && m matches BlockModel::Atom { text, .. } && text == t,
{
    assert(bare_text(t));
    assert(t.subrange(0, t.len() as int) =~= t);
    assert(placed(t, 0, t));
    lemma_atom_object(t, 0, t);
    lemma_bare_opens(t);
    lemma_placed_opens(t, 0, t);
    assert(skip_spacing(t, t.len() as int) == t.len());
    assert(parse_roots(t, t.len() as int) == Ok::<Seq<BlockModel>, DotosError>(Seq::empty()));
    assert(parse_document(t) == parse_roots(t, 0));
}


/// A box adds no shape: a boxed value is read from the blocks its content is
/// read from, refused where its content is refused, and written as its
/// content is written.
pub proof fn lemma_box_adds_no_shape<E: DotosDecode + DotosEncode>(b: BlockModel, v: Box<E>)
    ensures
        Box::<E>::decodes_to(b, v) == E::decodes_to(b, *v),
        Box::<E>::rejects(b) == E::rejects(b),
        Box::<E>::decoding_known() == E::decoding_known(),
        v.encoding() == (*v).encoding(),
        Box::<E>::encoding_known() == E::encoding_known(),
{
}


/// The key is written as one bare atom, and that atom holds the key.
pub open spec fn key_reads_back<Key: DotosDecode + DotosEncode>(k: Key) -> bool {
    &&& spec_bare_atom_text(k.encoding())
    &&& forall|m: BlockModel|
        (m matches BlockModel::Atom { text, .. } && text == k.encoding()) ==> #[trigger] Key::decodes_to(
            m,
            k,
        ) && !Key::rejects(m)
}

/// The block is a map entry whose key and value blocks hold `k` and `v`.
spec fn entry_reads_back<Key: DotosDecode, Value: DotosDecode>(e: BlockModel, k: Key, v: Value) -> bool {
    map_entry(e) matches Some((km, vm)) && (Key::decodes_to(km, k) && !Key::rejects(km)
        && Value::decodes_to(vm, v) && !Value::rejects(vm))
}

/// The text of one entry: key, period, value.
spec fn entry_text<Key: DotosEncode, Value: DotosEncode>(k: Key, v: Value) -> Seq<char> {
    k.encoding() + seq!['.'] + v.encoding()
}

proof fn lemma_entry_texts<Key: DotosEncode, Value: DotosEncode>(s: Seq<(Key, Value)>, i: int)
    requires
        0 <= i < s.len(),
    ensures
        entry_texts(s)[i] == entry_text(s[i].0, s[i].1),
{
    reveal_strlit(".");
    assert("."@ =~= seq!['.']);
}

/// An entry's text opens an object.
proof fn lemma_entry_opens<Key: DotosDecode + DotosEncode, Value: DotosEncode>(k: Key, v: Value)
    requires
        key_reads_back(k),
    ensures
        opens_object(entry_text(k, v)),
{
    let ke = k.encoding();
    let enc = entry_text(k, v);
    assert(enc[0] == ke[0]);
    assert(spec_bare_char(ke[0]));
    if ke.len() > 1 {
        assert(enc[1] == ke[1]);
        assert(!(ke[0] == ';' && ke[1] == ';'));
    } else {
        assert(enc[1] == '.');
    }
}

/// An entry's text, where it stands, is read as one map entry holding its
/// key and its value.
#[verifier::rlimit(40)]
#[verifier::spinoff_prover]
proof fn lemma_entry_object<Key: DotosDecode + DotosEncode, Value: DotosDecode + DotosEncode>(
    t: Seq<char>,
    j: int,
    k: Key,
    v: Value,
)
    requires
        key_reads_back(k),
        reads_back(v.encoding(), v),
        placed(t, j, entry_text(k, v)),
    ensures
        parse_object(t, j) matches Ok((m, e)) && e == j + entry_text(k, v).len() && entry_reads_back(
            m,
            k,
            v,
        ),
{
    let ke = k.encoding();
    let ve = v.encoding();
    let enc = entry_text(k, v);
    let n = j + ke.len();
    assert(bare_text(ke));
    assert(t.subrange(j, n) =~= ke) by {
        assert forall|q: int| 0 <= q < ke.len() implies t.subrange(j, n)[q] == ke[q] by {
            assert(t[j + q] == enc[q]);
        }
    }
    assert(t[n] == enc[ke.len() as int]);
    assert(t[n] == '.');
    lemma_atom_primary(t, j, n);
    assert(t.subrange(n + 1, n + 1 + ve.len()) =~= ve) by {
        assert forall|q: int| 0 <= q < ve.len() implies t.subrange(n + 1, n + 1 + ve.len())[q]
            == ve[q] by {
            assert(t[n + 1 + q] == enc[ke.len() + 1 + q]);
        }
    }
    assert(placed(t, n + 1, ve));
    lemma_placed_opens(t, n + 1, ve);
    let head = atom_at(t, j);
    assert(atom_end(t, j) == n);
    assert(head == BlockModel::Atom { text: t.subrange(j, n), span: crate::grammar::span_between(t, j, n) });
    assert(head matches BlockModel::Atom { text, .. } && text == ke);
    assert(Key::decodes_to(head, k) && !Key::rejects(head));
}

/// Entry texts joined by spaces, then a closing parenthesis, are read as the
/// children of that parenthesis, one entry each.
#[verifier::rlimit(60)]
#[verifier::spinoff_prover]
proof fn lemma_entry_children<Key: DotosDecode + DotosEncode, Value: DotosDecode + DotosEncode>(
    t: Seq<char>,
    j: int,
    s: Seq<(Key, Value)>,
    start: int,
)
    requires
        forall|i: int|
            0 <= i < s.len() ==> key_reads_back(#[trigger] s[i].0) && reads_back(
                s[i].1.encoding(),
                s[i].1,
            ),
        0 <= j,
        j + joined(entry_texts(s), " "@).len() < t.len(),
        t.subrange(j, j + joined(entry_texts(s), " "@).len()) == joined(entry_texts(s), " "@),
        t[j + joined(entry_texts(s), " "@).len()] == ')',
    ensures
        s.len() > 0 ==> skip_spacing(t, j) == j,
        parse_children(t, j, Delimiter::Parenthesis, start) matches Ok((es, e)) && e == j + joined(
            entry_texts(s),
            " "@,
        ).len() + 1 && es.len() == s.len() && forall|i: int|
            0 <= i < s.len() ==> entry_reads_back(#[trigger] es[i], s[i].0, s[i].1),
    decreases s.len(),
{
    reveal_strlit(" ");
    let body = joined(entry_texts(s), " "@);
    if s.len() == 0 {
        assert(body == Seq::<char>::empty());
        assert(skip_spacing(t, j) == j);
    } else {
        let x = s[0];
        assert(key_reads_back(s[0].0));
        let ex = entry_text(x.0, x.1);
        lemma_entry_texts(s, 0);
        let rest = s.drop_first();
        let rb = joined(entry_texts(rest), " "@);
        assert(entry_texts(rest) =~= entry_texts(s).drop_first());
        assert forall|i: int| 0 <= i < rest.len() implies key_reads_back(#[trigger] rest[i].0)
            && reads_back(rest[i].1.encoding(), rest[i].1) by {
            assert(rest[i] == s[i + 1]);
        }
        let k = j + ex.len();
        if s.len() == 1 {
            assert(entry_texts(s) =~= seq![ex]);
            assert(body == ex);
            assert(rb == Seq::<char>::empty());
        } else {
            lemma_joined_front(entry_texts(s), " "@);
            assert(body == ex + " "@ + rb);
        }
        assert(t.subrange(j, k) =~= ex) by {
            assert forall|q: int| 0 <= q < ex.len() implies t.subrange(j, k)[q] == ex[q] by {
                assert(t[j + q] == body[q]);
            }
        }
        assert(t[k] == body[ex.len() as int] || s.len() == 1);
        assert(placed(t, j, ex));
        lemma_entry_opens(x.0, x.1);
        lemma_placed_opens(t, j, ex);
        lemma_entry_object(t, j, x.0, x.1);
        if s.len() == 1 {
            assert(t.subrange(k, k + rb.len()) =~= rb);
            lemma_entry_children(t, k, rest, start);
        } else {
            assert(t[k] == ' ');
            assert(t.subrange(k + 1, k + 1 + rb.len()) =~= rb) by {
                assert forall|q: int| 0 <= q < rb.len() implies t.subrange(k + 1, k + 1 + rb.len())[q]
                    == rb[q] by {
                    assert(t[k + 1 + q] == body[ex.len() + 1 + q]);
                }
            }
            lemma_entry_children(t, k + 1, rest, start);
            assert(skip_spacing(t, k) == k + 1);
            assert(parse_children(t, k, Delimiter::Parenthesis, start) == parse_children(
                t,
                k + 1,
                Delimiter::Parenthesis,
                start,
            ));
        }
        let (m, e1) = parse_object(t, j)->Ok_0;
        let (ms, e) = parse_children(t, k, Delimiter::Parenthesis, start)->Ok_0;
        assert((seq![m] + ms)[0] == m);
        assert forall|q: int| 0 <= q < s.len() implies entry_reads_back(
            #[trigger] (seq![m] + ms)[q],
            s[q].0,
            s[q].1,
        ) by {
            if q > 0 {
                assert((seq![m] + ms)[q] == ms[q - 1]);
                assert(s[q] == rest[q - 1]);
            }
        }
    }
}

/// An ordered map whose keys are each written as one bare atom that holds
/// the key, and whose values are each read back from their encodings, is
/// read back from its own encoding, for key types whose order obeys the laws
/// of an order; `s` is the map's listing in increasing key order.
#[verifier::rlimit(60)]
#[verifier::spinoff_prover]
pub proof fn lemma_map_reads_back<Key: DotosDecode + DotosEncode + Ord, Value: DotosDecode + DotosEncode>(
    m: BTreeMap<Key, Value>,
    s: Seq<(Key, Value)>,
)
    requires
        keys_ordered::<Key>(),
        sorted_listing(m@, s),
        forall|k: Key|
            #[trigger] m@.contains_key(k) ==> key_reads_back(k) && reads_back(m@[k].encoding(), m@[k]),
    ensures
        reads_back(m.encoding(), m),
{
    reveal_strlit("Map.");
    reveal_strlit(" ");
    assert(sorted_listing(m@, sorted_entries(m@)));
    lemma_listing_unique(m@, s, sorted_entries(m@));
    assert forall|i: int| 0 <= i < s.len() implies key_reads_back(#[trigger] s[i].0) && reads_back(
        s[i].1.encoding(),
        s[i].1,
    ) by {
        assert(m@.contains_key(s[i].0));
    }
    let body = joined(entry_texts(s), " "@);
    let enc = m.encoding();
    assert(enc =~= seq!['M', 'a', 'p', '.', '('] + body + seq![')']);
    assert forall|t: Seq<char>, i: int| #[trigger] placed(t, i, enc) implies (parse_object(
        t,
        i,
    ) matches Ok((b, e)) && e == i + enc.len() && BTreeMap::<Key, Value>::decodes_to(b, m)
        && !BTreeMap::<Key, Value>::rejects(b)) by {
        assert(t[i] == enc[0] && t[i + 1] == enc[1] && t[i + 2] == enc[2] && t[i + 3] == enc[3]
            && t[i + 4] == enc[4]);
        let head_text = seq!['M', 'a', 'p'];
        assert(t.subrange(i, i + 3) =~= head_text);
        assert(bare_text(head_text));
        lemma_atom_primary(t, i, i + 3);
        assert(t.subrange(i + 5, i + 5 + body.len()) =~= body) by {
            assert forall|q: int| 0 <= q < body.len() implies t.subrange(i + 5, i + 5 + body.len())[q]
                == body[q] by {
                assert(t[i + 5 + q] == enc[5 + q]);
            }
        }
        assert(t[i + 5 + body.len()] == enc[body.len() + 5int]);
        lemma_entry_children(t, i + 5, s, i + 4);
        assert(parse_primary(t, i + 4) == parse_delimited(t, i + 4, Delimiter::Parenthesis));
        let e = i + enc.len();
        assert(e == t.len() || separates(t[e]));
        let (es, e2) = parse_children(t, i + 5, Delimiter::Parenthesis, i + 4)->Ok_0;
        assert(at_primary_start(t, i + 4));
        let (p, e4) = parse_object(t, i + 4)->Ok_0;
        assert(is_delimited_model(p, Delimiter::Parenthesis) && p.children() == es);
        let (b, e3) = parse_object(t, i)->Ok_0;
        assert(b matches BlockModel::Application { head, payload, .. } && *head == atom_at(t, i)
            && *payload == p);
        assert("Map"@ =~= head_text) by {
            reveal_strlit("Map");
        }
        assert(atom_at(t, i).demoted() == Some("Map"@));
        assert(map_entries(b) == Some(es));
        let ks = listing_keys(s);
        let vs = listing_values(s);
        assert(entries_decode(es, ks, vs));
        lemma_listing_builds_map(m@, s);
        assert(decoded_map(es, m@));
        assert(!some_entry_rejected::<Key, Value>(es)) by {
            assert forall|q: int| 0 <= q < es.len() implies !entry_rejected::<Key, Value>(
                #[trigger] es[q],
            ) by {
                assert(entry_reads_back(es[q], s[q].0, s[q].1));
            }
        }
    }
}


/// An unsigned integer key is written as one bare atom that holds it.
pub proof fn lemma_u64_key_reads_back(n: u64)
    ensures
        key_reads_back(n),
{
    lemma_decimal_digits(n as nat);
    lemma_digits_bare(decimal(n as nat));
    lemma_u64_text_round_trip(n);
}

/// An ordered map keyed by unsigned integers, whose values are each read back
/// from their encodings, is read back from its own encoding.
pub proof fn lemma_u64_map_reads_back<Value: DotosDecode + DotosEncode>(m: BTreeMap<u64, Value>)
    requires
        forall|k: u64| #[trigger] m@.contains_key(k) ==> reads_back(m@[k].encoding(), m@[k]),
    ensures
        reads_back(m.encoding(), m),
{
    broadcast use vstd::laws_cmp::group_laws_cmp;
    broadcast use vstd::std_specs::btree::axiom_btree_map_view_finite_dom;

    assert(keys_ordered::<u64>());
    assert(m@.dom().finite());
    lemma_u64_listing_exists(m@);
    let s = choose|s: Seq<(u64, Value)>| sorted_listing(m@, s);
    assert forall|k: u64| #[trigger] m@.contains_key(k) implies key_reads_back(k) && reads_back(
        m@[k].encoding(),
        m@[k],
    ) by {
        lemma_u64_key_reads_back(k);
    }
    lemma_map_reads_back(m, s);
}

} // verus!
