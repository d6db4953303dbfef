//! Expectation-driven dotted-prefix reading.
//!
//! DOTOS is strictly typed and positional, so the expected type is known at
//! every position. A dotted entry `key.value` is read only where the expected
//! type asks for one; the expectation names which head spellings it accepts.
use vstd::prelude::*;
use crate::chars::{is_ascii_lower, is_ascii_upper, spec_ascii_lower, spec_ascii_upper};
use crate::codec::DotosDecodeError;
use crate::model::BlockModel;
use crate::parser::{Block, atom_text_of, models};
use crate::text::{chars_of, string_from_chars};

verus! {

/// The positions at which a reader may read a dotted entry; they differ in
/// the head spellings each accepts.
#[derive(Clone, Copy, Debug, PartialEq, Eq, Structural)]
pub enum DottedExpectation {
    /// A capitalized head naming a type or generic application, as in
    /// `Vector.X`.
    Capitalized,
    /// A leading lowercase name: map keys, import path segments.
    Uncapitalized,
    /// Any bare atom, whatever its first character.
    AnyBareAtom,
}

/// The split of text at its first period: the prefix, and the remainder when
/// text follows the period.
pub open spec fn spec_split_at_first_dot(t: Seq<char>) -> Option<(Seq<char>, Option<Seq<char>>)> {
    if t.contains('.') {
        let dot = choose|i: int| 0 <= i < t.len() && t[i] == '.' && forall|j: int| 0 <= j < i ==> t[j] != '.';
        let rest = t.skip(dot + 1);
        Some((t.take(dot), if rest.len() == 0 { None } else { Some(rest) }))
    } else {
        None
    }
}

/// The first period of `t`, when it has one.
pub open spec fn first_dot(t: Seq<char>, i: int) -> bool {
    0 <= i < t.len() && t[i] == '.' && forall|j: int| 0 <= j < i ==> t[j] != '.'
}

impl DottedExpectation {
    pub open spec fn spec_description(self) -> Seq<char> {
        match self {
            DottedExpectation::Capitalized => "capitalized dotted prefix"@,
            DottedExpectation::Uncapitalized => "uncapitalized dotted prefix"@,
            DottedExpectation::AnyBareAtom => "bare-atom dotted prefix"@,
        }
    }

    /// Whether a head with this text is accepted here.
    pub open spec fn spec_accepts_head(self, prefix: Seq<char>) -> bool {
        prefix.len() > 0 && match self {
            DottedExpectation::Capitalized => spec_ascii_upper(prefix[0]),
            DottedExpectation::Uncapitalized => spec_ascii_lower(prefix[0]),
            DottedExpectation::AnyBareAtom => true,
        }
    }

    /// Human-readable name of this expectation for diagnostics.
    pub fn description(self) -> (r: &'static str)
        ensures
            r@ == self.spec_description(),
            r == self.description_static(),
    {
        match self {
            DottedExpectation::Capitalized => "capitalized dotted prefix",
            DottedExpectation::Uncapitalized => "uncapitalized dotted prefix",
            DottedExpectation::AnyBareAtom => "bare-atom dotted prefix",
        }
    }

    fn accepts_head(self, prefix: &Vec<char>) -> (r: bool)
        ensures
            r == self.spec_accepts_head(prefix@),
    {
        if prefix.len() == 0 {
            return false;
        }
        match self {
            DottedExpectation::Capitalized => is_ascii_upper(prefix[0]),
            DottedExpectation::Uncapitalized => is_ascii_lower(prefix[0]),
            DottedExpectation::AnyBareAtom => true,
        }
    }

    /// Read one dotted entry from the head of a block sequence: the leading
    /// block must be an application whose head is an atom this expectation
    /// accepts; the key is that head and the value the payload. Exactly one
    /// block is consumed.
    pub fn read_entry(self, blocks: &[Block]) -> (r: Result<DottedEntry, DotosDecodeError>)
        ensures
            blocks@.len() == 0 ==> r == Err::<DottedEntry, DotosDecodeError>(
                DotosDecodeError::ExpectedDottedEntry { expectation: self.description_static() },
            ),
            blocks@.len() > 0 ==> match blocks@[0]@ {
                BlockModel::Application { head, payload, .. } => match atom_text_of(*head) {
                    Some(text) => if self.spec_accepts_head(text) {
                        r matches Ok(e) && e.key@ == *head && e.value@ == *payload && e.consumed
                            == 1
                    } else {
                        r matches Err(DotosDecodeError::DottedEntryCaseMismatch { expectation, prefix })
                            && expectation@ == self.spec_description() && prefix@ == text
                    },
                    None => r == Err::<DottedEntry, DotosDecodeError>(
                        DotosDecodeError::ExpectedDottedEntry {
                            expectation: self.description_static(),
                        },
                    ),
                },
                _ => r == Err::<DottedEntry, DotosDecodeError>(
                    DotosDecodeError::ExpectedDottedEntry { expectation: self.description_static() },
                ),
            },
    {
        if blocks.len() == 0 {
            return Err(DotosDecodeError::ExpectedDottedEntry { expectation: self.description() });
        }
        let block = &blocks[0];
        let (head, payload) = match block.as_application() {
            Some(pair) => pair,
            None => {
                return Err(DotosDecodeError::ExpectedDottedEntry { expectation: self.description() });
            },
        };
        let key_atom = match head.atom() {
            Some(a) => a,
            None => {
                return Err(DotosDecodeError::ExpectedDottedEntry { expectation: self.description() });
            },
        };
        let text = chars_of(key_atom.text());
        if !self.accepts_head(&text) {
            return Err(
                DotosDecodeError::DottedEntryCaseMismatch {
                    expectation: self.description(),
                    prefix: string_from_chars(&text),
                },
            );
        }
        Ok(DottedEntry { key: head.clone(), value: payload.clone(), consumed: 1 })
    }

    /// The `&'static str` this expectation's diagnostics carry.
    pub open spec fn description_static(self) -> &'static str {
        match self {
            DottedExpectation::Capitalized => "capitalized dotted prefix",
            DottedExpectation::Uncapitalized => "uncapitalized dotted prefix",
            DottedExpectation::AnyBareAtom => "bare-atom dotted prefix",
        }
    }

    /// Read one dotted entry from already-extracted text: the same split at
    /// the first period and the same head acceptance, returning the key and
    /// the whole remainder. Text that ends at the period has no value.
    pub fn read_string_entry(self, text: &str) -> (r: Result<(String, String), DotosDecodeError>)
        ensures
            match spec_split_at_first_dot(text@) {
                None => r == Err::<(String, String), DotosDecodeError>(
                    DotosDecodeError::ExpectedDottedEntry { expectation: self.description_static() },
                ),
                Some((prefix, rest)) => if !self.spec_accepts_head(prefix) {
                    r matches Err(DotosDecodeError::DottedEntryCaseMismatch { expectation, prefix: p })
                        && expectation@ == self.spec_description() && p@ == prefix
                } else {
                    match rest {
                        None => r == Err::<(String, String), DotosDecodeError>(
                            DotosDecodeError::DottedEntryMissingValue {
                                expectation: self.description_static(),
                            },
                        ),
                        Some(v) => r matches Ok((k, w)) && k@ == prefix && w@ == v,
                    }
                },
            },
    {
        let t = chars_of(text);
        let mut dot: usize = 0;
        while dot < t.len() && t[dot] != '.'
            invariant
                dot <= t.len(),
                forall|j: int| 0 <= j < dot ==> t@[j] != '.',
            decreases t.len() - dot,
        {
            dot = dot + 1;
        }
        if dot == t.len() {
            proof {
                assert(!t@.contains('.'));
            }
            return Err(DotosDecodeError::ExpectedDottedEntry { expectation: self.description() });
        }
        proof {
            assert(t@.contains('.')) by {
                assert(t@[dot as int] == '.');
            }
            let chosen = choose|i: int| 0 <= i < t@.len() && t@[i] == '.' && forall|j: int| 0 <= j < i ==> t@[j] != '.';
            assert(first_dot(t@, dot as int));
            assert(chosen == dot) by {
                if chosen < dot {
                    assert(t@[chosen] != '.');
                } else if chosen > dot {
                    assert(t@[dot as int] != '.');
                }
            }
        }
        let mut prefix: Vec<char> = Vec::new();
        let mut k: usize = 0;
        while k < dot
            invariant
                k <= dot < t.len(),
                prefix@ == t@.take(k as int),
            decreases dot - k,
        {
            prefix.push(t[k]);
            k = k + 1;
        }
        if !self.accepts_head(&prefix) {
            return Err(
                DotosDecodeError::DottedEntryCaseMismatch {
                    expectation: self.description(),
                    prefix: string_from_chars(&prefix),
                },
            );
        }
        let mut rest: Vec<char> = Vec::new();
        let mut m: usize = dot + 1;
        while m < t.len()
            invariant
                dot + 1 <= m <= t.len(),
                rest@ == t@.subrange(dot + 1, m as int),
            decreases t.len() - m,
        {
            rest.push(t[m]);
            m = m + 1;
        }
        proof {
            assert(rest@ =~= t@.skip(dot + 1));
        }
        if rest.len() == 0 {
            return Err(DotosDecodeError::DottedEntryMissingValue { expectation: self.description() });
        }
        Ok((string_from_chars(&prefix), string_from_chars(&rest)))
    }
}

/// One dotted entry: the key block, the value block, and how many source
/// blocks the entry consumed.
#[derive(Debug, PartialEq, Eq)]
pub struct DottedEntry {
    pub key: Block,
    pub value: Block,
    pub consumed: usize,
}

impl DottedEntry {
    /// The key block.
    pub fn key(&self) -> (r: &Block)
        ensures
            r == &self.key,
    {
        &self.key
    }

    /// The value block.
    pub fn value(&self) -> (r: &Block)
        ensures
            r == &self.value,
    {
        &self.value
    }

    /// How many source blocks this entry consumed.
    pub fn consumed(&self) -> (r: usize)
        ensures
            r == self.consumed,
    {
        self.consumed
    }
}

} // verus!
