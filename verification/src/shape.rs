//! The `#[shape(...)]` vocabulary of a structural macro-node variant: which
//! shape a variant's arguments name, or why they name none, and how many
//! fields that shape carries.
use vstd::prelude::*;
use crate::text::{push_char, push_decimal, push_str};

verus! {

/// One argument of a `#[shape(...)]` attribute.
#[derive(Debug, PartialEq, Eq)]
pub enum ShapeArgument {
    /// `pascal_atom`
    PascalAtom,
    /// `pascal_head`
    PascalHead,
    /// `head = "..."`
    Head(String),
    /// `keyword = "..."`
    Keyword(String),
    /// `arity = N`
    Arity(usize),
    /// `body`
    Body,
    /// `atom`
    Atom,
    /// Any other argument, by its name.
    Unsupported(String),
}

/// The shape a structural variant is read and written in.
#[derive(Debug, PartialEq, Eq)]
pub enum StructuralVariantShape {
    /// One PascalCase atom.
    PascalAtom,
    /// One literal keyword atom.
    Keyword { keyword: String },
    /// A parenthesis headed by a literal, holding `arity` objects in all.
    Headed { head: String, arity: usize },
    /// A parenthesis headed by a literal, then one atom.
    HeadedAtom { head: String },
    /// A parenthesis headed by a literal, then a body.
    HeadedBody { head: String },
    /// A parenthesis headed by a PascalCase atom, holding `arity` more
    /// objects.
    PascalHead { arity: usize },
    /// A parenthesis headed by a PascalCase atom, then a body.
    PascalHeadBody,
}

/// The kind of a shape, without its data.
#[derive(Clone, Copy, Debug, PartialEq, Eq, Structural)]
pub enum ShapeKind {
    PascalAtom,
    Keyword,
    Headed,
    HeadedAtom,
    HeadedBody,
    PascalHead,
    PascalHeadBody,
}

/// Why a variant's shape arguments name no shape.
#[derive(Debug, PartialEq, Eq)]
pub enum ShapeError {
    Unsupported { argument: String },
    MissingShape,
    HeadTakesOne,
    HeadNeedsKind,
    AtomNeedsHead,
    PascalHeadTakesOne,
    PascalHeadNeedsKind,
    BodyNeedsHead,
    Unrecognized,
    FieldCount { expected: usize, found: usize },
}

/// The kind of a failure, without its data.
#[derive(Clone, Copy, Debug, PartialEq, Eq, Structural)]
pub enum ShapeFault {
    Unsupported,
    MissingShape,
    HeadTakesOne,
    HeadNeedsKind,
    AtomNeedsHead,
    PascalHeadTakesOne,
    PascalHeadNeedsKind,
    BodyNeedsHead,
    Unrecognized,
}

/// All the arguments of all the `#[shape(...)]` attributes, in order.
pub open spec fn flat_arguments(attributes: Seq<Vec<ShapeArgument>>) -> Seq<ShapeArgument>
    decreases attributes.len(),
{
    if attributes.len() == 0 {
        Seq::empty()
    } else {
        flat_arguments(attributes.drop_last()) + attributes.last()@
    }
}

/// The name of the first unsupported argument.
pub open spec fn first_unsupported(a: Seq<ShapeArgument>) -> Option<Seq<char>>
    decreases a.len(),
{
    if a.len() == 0 {
        None
    } else {
        match a[0] {
            ShapeArgument::Unsupported(name) => Some(name@),
            _ => first_unsupported(a.drop_first()),
        }
    }
}

/// The text of the last `head = "..."`.
pub open spec fn last_head(a: Seq<ShapeArgument>) -> Option<Seq<char>>
    decreases a.len(),
{
    if a.len() == 0 {
        None
    } else {
        match a.last() {
            ShapeArgument::Head(h) => Some(h@),
            _ => last_head(a.drop_last()),
        }
    }
}

/// The text of the last `keyword = "..."`.
pub open spec fn last_keyword(a: Seq<ShapeArgument>) -> Option<Seq<char>>
    decreases a.len(),
{
    if a.len() == 0 {
        None
    } else {
        match a.last() {
            ShapeArgument::Keyword(k) => Some(k@),
            _ => last_keyword(a.drop_last()),
        }
    }
}

/// The number of the last `arity = N`.
pub open spec fn last_arity(a: Seq<ShapeArgument>) -> Option<usize>
    decreases a.len(),
{
    if a.len() == 0 {
        None
    } else {
        match a.last() {
            ShapeArgument::Arity(n) => Some(n),
            _ => last_arity(a.drop_last()),
        }
    }
}

pub open spec fn has_pascal_atom(a: Seq<ShapeArgument>) -> bool {
    exists|i: int| 0 <= i < a.len() && a[i] is PascalAtom
}

pub open spec fn has_pascal_head(a: Seq<ShapeArgument>) -> bool {
    exists|i: int| 0 <= i < a.len() && a[i] is PascalHead
}

pub open spec fn has_body(a: Seq<ShapeArgument>) -> bool {
    exists|i: int| 0 <= i < a.len() && a[i] is Body
}

pub open spec fn has_atom(a: Seq<ShapeArgument>) -> bool {
    exists|i: int| 0 <= i < a.len() && a[i] is Atom
}

/// The shape the arguments name, or the failure, decided in this order: an
/// unsupported argument; no attribute at all; `pascal_atom`; a keyword; a
/// head with exactly one of arity, body or atom; an atom without a head; a
/// PascalCase head with exactly one of arity or body; a body without a head.
pub open spec fn shape_outcome(found: bool, a: Seq<ShapeArgument>) -> Result<ShapeKind, ShapeFault> {
    let body = has_body(a);
    let atom = has_atom(a);
    let arity = last_arity(a) is Some;
    if first_unsupported(a) is Some {
        Err(ShapeFault::Unsupported)
    } else if !found {
        Err(ShapeFault::MissingShape)
    } else if has_pascal_atom(a) {
        Ok(ShapeKind::PascalAtom)
    } else if last_keyword(a) is Some {
        Ok(ShapeKind::Keyword)
    } else if last_head(a) is Some {
        if (body && atom) || (body && arity) || (atom && arity) {
            Err(ShapeFault::HeadTakesOne)
        } else if body {
            Ok(ShapeKind::HeadedBody)
        } else if atom {
            Ok(ShapeKind::HeadedAtom)
        } else if arity {
            Ok(ShapeKind::Headed)
        } else {
            Err(ShapeFault::HeadNeedsKind)
        }
    } else if atom {
        Err(ShapeFault::AtomNeedsHead)
    } else if has_pascal_head(a) {
        if body {
            if arity {
                Err(ShapeFault::PascalHeadTakesOne)
            } else {
                Ok(ShapeKind::PascalHeadBody)
            }
        } else if arity {
            Ok(ShapeKind::PascalHead)
        } else {
            Err(ShapeFault::PascalHeadNeedsKind)
        }
    } else if body {
        Err(ShapeFault::BodyNeedsHead)
    } else {
        Err(ShapeFault::Unrecognized)
    }
}

impl StructuralVariantShape {
    pub open spec fn kind(self) -> ShapeKind {
        match self {
            StructuralVariantShape::PascalAtom => ShapeKind::PascalAtom,
            StructuralVariantShape::Keyword { .. } => ShapeKind::Keyword,
            StructuralVariantShape::Headed { .. } => ShapeKind::Headed,
            StructuralVariantShape::HeadedAtom { .. } => ShapeKind::HeadedAtom,
            StructuralVariantShape::HeadedBody { .. } => ShapeKind::HeadedBody,
            StructuralVariantShape::PascalHead { .. } => ShapeKind::PascalHead,
            StructuralVariantShape::PascalHeadBody => ShapeKind::PascalHeadBody,
        }
    }

    /// The shape carries the texts and the arity the arguments name last.
    pub open spec fn carries(self, a: Seq<ShapeArgument>) -> bool {
        match self {
            StructuralVariantShape::Keyword { keyword } => last_keyword(a) == Some(keyword@),
            StructuralVariantShape::Headed { head, arity } => last_head(a) == Some(head@)
                && last_arity(a) == Some(arity),
            StructuralVariantShape::HeadedAtom { head } => last_head(a) == Some(head@),
            StructuralVariantShape::HeadedBody { head } => last_head(a) == Some(head@),
            StructuralVariantShape::PascalHead { arity } => last_arity(a) == Some(arity),
            _ => true,
        }
    }

    /// The number of fields a variant of this shape carries.
    pub open spec fn spec_field_count(self) -> int {
        match self {
            StructuralVariantShape::PascalAtom => 1,
            StructuralVariantShape::Keyword { .. } => 0,
            StructuralVariantShape::Headed { arity, .. } => if arity == 0 {
                0
            } else {
                arity - 1
            },
            StructuralVariantShape::HeadedAtom { .. } => 1,
            StructuralVariantShape::HeadedBody { .. } => 1,
            StructuralVariantShape::PascalHead { arity } => arity as int,
            StructuralVariantShape::PascalHeadBody => 2,
        }
    }
}

impl ShapeError {
    pub open spec fn fault(self) -> Option<ShapeFault> {
        match self {
            ShapeError::Unsupported { .. } => Some(ShapeFault::Unsupported),
            ShapeError::MissingShape => Some(ShapeFault::MissingShape),
            ShapeError::HeadTakesOne => Some(ShapeFault::HeadTakesOne),
            ShapeError::HeadNeedsKind => Some(ShapeFault::HeadNeedsKind),
            ShapeError::AtomNeedsHead => Some(ShapeFault::AtomNeedsHead),
            ShapeError::PascalHeadTakesOne => Some(ShapeFault::PascalHeadTakesOne),
            ShapeError::PascalHeadNeedsKind => Some(ShapeFault::PascalHeadNeedsKind),
            ShapeError::BodyNeedsHead => Some(ShapeFault::BodyNeedsHead),
            ShapeError::Unrecognized => Some(ShapeFault::Unrecognized),
            ShapeError::FieldCount { .. } => None,
        }
    }
}

/// What the arguments read so far set: the flags, and the last head,
/// keyword and arity.
struct ShapeFlags {
    pascal_atom: bool,
    pascal_head: bool,
    head: Option<String>,
    keyword: Option<String>,
    arity: Option<usize>,
    body: bool,
    atom: bool,
}

impl ShapeFlags {
    spec fn matches_prefix(&self, a: Seq<ShapeArgument>) -> bool {
        &&& self.pascal_atom == has_pascal_atom(a)
        &&& self.pascal_head == has_pascal_head(a)
        &&& self.body == has_body(a)
        &&& self.atom == has_atom(a)
        &&& self.arity == last_arity(a)
        &&& match self.head {
            Some(h) => last_head(a) == Some(h@),
            None => last_head(a) is None,
        }
        &&& match self.keyword {
            Some(k) => last_keyword(a) == Some(k@),
            None => last_keyword(a) is None,
        }
    }
}

proof fn lemma_flat_push(attributes: Seq<Vec<ShapeArgument>>, i: int)
    requires
        0 <= i < attributes.len(),
    ensures
        flat_arguments(attributes.take(i + 1)) == flat_arguments(attributes.take(i)) + attributes[i]@,
{
    assert(attributes.take(i + 1).drop_last() =~= attributes.take(i));
}

proof fn lemma_first_unsupported_append(a: Seq<ShapeArgument>, b: Seq<ShapeArgument>)
    requires
        first_unsupported(a) is None,
    ensures
        first_unsupported(a + b) == first_unsupported(b),
    decreases a.len(),
{
    if a.len() > 0 {
        assert((a + b).drop_first() =~= a.drop_first() + b);
        assert((a + b)[0] == a[0]);
        lemma_first_unsupported_append(a.drop_first(), b);
    } else {
        assert(a + b =~= b);
    }
}

proof fn lemma_first_unsupported_push(a: Seq<ShapeArgument>, x: ShapeArgument)
    requires
        first_unsupported(a) is None,
    ensures
        first_unsupported(a.push(x)) == match x {
            ShapeArgument::Unsupported(name) => Some(name@),
            _ => None,
        },
{
    lemma_first_unsupported_append(a, seq![x]);
    assert(a + seq![x] =~= a.push(x));
    assert(seq![x].drop_first() =~= Seq::<ShapeArgument>::empty());
    assert(first_unsupported(Seq::<ShapeArgument>::empty()) is None);
    assert(seq![x][0] == x);
}

impl StructuralVariantShape {
    /// The shape that the arguments of a variant's `#[shape(...)]`
    /// attributes name; `attributes` holds one argument list per attribute.
    pub fn parse(attributes: &Vec<Vec<ShapeArgument>>) -> (r: Result<
        StructuralVariantShape,
        ShapeError,
    >)
        ensures
            ({
                let a = flat_arguments(attributes@);
                match shape_outcome(attributes@.len() > 0, a) {
                    Ok(k) => r matches Ok(s) && (s.kind() == k && s.carries(a)),
                    Err(f) => r matches Err(e) && (e.fault() == Some(f) && (e matches ShapeError::Unsupported {
                        argument,
                    } ==> Some(argument@) == first_unsupported(a))),
                }
            }),
    {
        let mut flags = ShapeFlags {
            pascal_atom: false,
            pascal_head: false,
            head: None,
            keyword: None,
            arity: None,
            body: false,
            atom: false,
        };
        let mut i: usize = 0;
        proof {
            assert(attributes@.take(0) =~= Seq::<Vec<ShapeArgument>>::empty());
        }
        while i < attributes.len()
            invariant
                i <= attributes.len(),
                flags.matches_prefix(flat_arguments(attributes@.take(i as int))),
                first_unsupported(flat_arguments(attributes@.take(i as int))) is None,
            decreases attributes.len() - i,
        {
            let ghost done = flat_arguments(attributes@.take(i as int));
            proof {
                lemma_flat_push(attributes@, i as int);
            }
            let arguments = &attributes[i];
            let mut j: usize = 0;
            proof {
                assert(arguments@.take(0) =~= Seq::<ShapeArgument>::empty());
                assert(done + arguments@.take(0) =~= done);
            }
            while j < arguments.len()
                invariant
                    i < attributes.len(),
                    arguments@ == attributes@[i as int]@,
                    done == flat_arguments(attributes@.take(i as int)),
                    j <= arguments.len(),
                    flags.matches_prefix(done + arguments@.take(j as int)),
                    first_unsupported(done + arguments@.take(j as int)) is None,
                decreases arguments.len() - j,
            {
                let ghost seen = done + arguments@.take(j as int);
                let ghost next = done + arguments@.take(j + 1);
                proof {
                    assert(next =~= seen.push(arguments@[j as int]));
                    assert(next.drop_last() =~= seen);
                    lemma_first_unsupported_push(seen, arguments@[j as int]);
                    assert forall|q: int| 0 <= q < seen.len() implies next[q] == seen[q] by {}
                    assert(next[seen.len() as int] == arguments@[j as int]);
                }
                match &arguments[j] {
                    ShapeArgument::PascalAtom => {
                        flags.pascal_atom = true;
                    },
                    ShapeArgument::PascalHead => {
                        flags.pascal_head = true;
                    },
                    ShapeArgument::Head(h) => {
                        flags.head = Some(h.clone());
                    },
                    ShapeArgument::Keyword(k) => {
                        flags.keyword = Some(k.clone());
                    },
                    ShapeArgument::Arity(n) => {
                        flags.arity = Some(*n);
                    },
                    ShapeArgument::Body => {
                        flags.body = true;
                    },
                    ShapeArgument::Atom => {
                        flags.atom = true;
                    },
                    ShapeArgument::Unsupported(name) => {
                        proof {
                            assert(arguments@[j as int] is Unsupported);
                            lemma_unsupported_found(attributes@, i as int, j as int, seen);
                        }
                        return Err(ShapeError::Unsupported { argument: name.clone() });
                    },
                }
                proof {
                    assert(has_pascal_atom(next) == (has_pascal_atom(seen) || next.last() is PascalAtom));
                    assert(has_pascal_head(next) == (has_pascal_head(seen) || next.last() is PascalHead));
                    assert(has_body(next) == (has_body(seen) || next.last() is Body));
                    assert(has_atom(next) == (has_atom(seen) || next.last() is Atom));
                }
                j = j + 1;
            }
            proof {
                assert(arguments@.take(arguments.len() as int) =~= arguments@);
            }
            i = i + 1;
        }
        proof {
            assert(attributes@.take(attributes.len() as int) =~= attributes@);
        }
        if attributes.len() == 0 {
            return Err(ShapeError::MissingShape);
        }
        if flags.pascal_atom {
            return Ok(StructuralVariantShape::PascalAtom);
        }
        if let Some(keyword) = flags.keyword {
            return Ok(StructuralVariantShape::Keyword { keyword });
        }
        let body = flags.body;
        let atom = flags.atom;
        let has_arity = flags.arity.is_some();
        if let Some(head) = flags.head {
            if (body && atom) || (body && has_arity) || (atom && has_arity) {
                return Err(ShapeError::HeadTakesOne);
            }
            if body {
                return Ok(StructuralVariantShape::HeadedBody { head });
            }
            if atom {
                return Ok(StructuralVariantShape::HeadedAtom { head });
            }
            return match flags.arity {
                Some(arity) => Ok(StructuralVariantShape::Headed { head, arity }),
                None => Err(ShapeError::HeadNeedsKind),
            };
        }
        if atom {
            return Err(ShapeError::AtomNeedsHead);
        }
        if flags.pascal_head {
            if body {
                if has_arity {
                    return Err(ShapeError::PascalHeadTakesOne);
                }
                return Ok(StructuralVariantShape::PascalHeadBody);
            }
            return match flags.arity {
                Some(arity) => Ok(StructuralVariantShape::PascalHead { arity }),
                None => Err(ShapeError::PascalHeadNeedsKind),
            };
        }
        if body {
            return Err(ShapeError::BodyNeedsHead);
        }
        Err(ShapeError::Unrecognized)
    }

    /// Checks that a variant carries the fields its shape reads.
    pub fn check_field_count(&self, fields: usize) -> (r: Result<(), ShapeError>)
        ensures
            fields == self.spec_field_count() ==> r is Ok,
            fields != self.spec_field_count() ==> (r matches Err(ShapeError::FieldCount { expected, found })
                && expected == self.spec_field_count() && found == fields),
    {
        let expected: usize = match self {
            StructuralVariantShape::PascalAtom => 1,
            StructuralVariantShape::Keyword { .. } => 0,
            StructuralVariantShape::Headed { arity, .. } => if *arity == 0 {
                0
            } else {
                *arity - 1
            },
            StructuralVariantShape::HeadedAtom { .. } => 1,
            StructuralVariantShape::HeadedBody { .. } => 1,
            StructuralVariantShape::PascalHead { arity } => *arity,
            StructuralVariantShape::PascalHeadBody => 2,
        };
        if fields != expected {
            return Err(ShapeError::FieldCount { expected, found: fields });
        }
        Ok(())
    }
}

/// The first unsupported argument of the attribute at `i`, at its index `j`,
/// is the first of all the arguments.
proof fn lemma_unsupported_found(
    attributes: Seq<Vec<ShapeArgument>>,
    i: int,
    j: int,
    seen: Seq<ShapeArgument>,
)
    requires
        0 <= i < attributes.len(),
        0 <= j < attributes[i]@.len(),
        attributes[i]@[j] is Unsupported,
        seen == flat_arguments(attributes.take(i)) + attributes[i]@.take(j),
        first_unsupported(seen) is None,
    ensures
        first_unsupported(flat_arguments(attributes)) == match attributes[i]@[j] {
            ShapeArgument::Unsupported(name) => Some(name@),
            _ => None,
        },
    decreases attributes.len(),
{
    if i == attributes.len() - 1 {
        let a = attributes[i]@;
        assert(attributes.drop_last() =~= attributes.take(i));
        assert(flat_arguments(attributes) == flat_arguments(attributes.take(i)) + a);
        assert(flat_arguments(attributes.take(i)) + a =~= seen + a.skip(j));
        lemma_first_unsupported_append(seen, a.skip(j));
        assert(a.skip(j)[0] == a[j]);
    } else {
        let p = attributes.drop_last();
        assert(p[i] == attributes[i]);
        assert(p.take(i) =~= attributes.take(i));
        lemma_unsupported_found(p, i, j, seen);
        lemma_first_unsupported_prefix(flat_arguments(p), attributes.last()@);
    }
}

/// An unsupported argument in a prefix is the first of the whole.
proof fn lemma_first_unsupported_prefix(a: Seq<ShapeArgument>, b: Seq<ShapeArgument>)
    requires
        first_unsupported(a) is Some,
    ensures
        first_unsupported(a + b) == first_unsupported(a),
    decreases a.len(),
{
    assert((a + b)[0] == a[0]);
    if !(a[0] is Unsupported) {
        assert((a + b).drop_first() =~= a.drop_first() + b);
        lemma_first_unsupported_prefix(a.drop_first(), b);
    }
}

impl ShapeError {
    /// The diagnostic text of this error.
    pub fn message(&self) -> (r: String)
        ensures
            r@ == self.spec_message(),
    {
        let mut s = String::new();
        match self {
            ShapeError::Unsupported { .. } => {
                push_str(&mut s, "unsupported shape attribute");
            },
            ShapeError::MissingShape => {
                push_str(&mut s, "structural macro node variant needs a #[shape(...)] attribute");
            },
            ShapeError::HeadTakesOne => {
                push_str(&mut s, "head shape takes exactly one of arity = N, body, or atom");
            },
            ShapeError::HeadNeedsKind => {
                push_str(&mut s, "head shape needs arity = N, body, or atom");
            },
            ShapeError::AtomNeedsHead => {
                push_str(&mut s, "atom shape needs head = \"...\"");
            },
            ShapeError::PascalHeadTakesOne => {
                push_str(&mut s, "pascal_head shape takes either arity = N or body, not both");
            },
            ShapeError::PascalHeadNeedsKind => {
                push_str(&mut s, "pascal_head shape needs arity = N or body");
            },
            ShapeError::BodyNeedsHead => {
                push_str(&mut s, "body shape needs head = \"...\" or pascal_head");
            },
            ShapeError::Unrecognized => {
                push_str(
                    &mut s,
                    "shape must be pascal_atom, keyword = \"...\", head = \"...\" with arity, body, or atom, or pascal_head with arity",
                );
            },
            ShapeError::FieldCount { expected, found } => {
                push_str(&mut s, "this shape expects ");
                push_decimal(&mut s, *expected as u64);
                push_str(&mut s, " field(s); the variant carries ");
                push_decimal(&mut s, *found as u64);
            },
        }
        s
    }

    pub open spec fn spec_message(self) -> Seq<char> {
        match self {
            ShapeError::Unsupported { .. } => "unsupported shape attribute"@,
            ShapeError::MissingShape => "structural macro node variant needs a #[shape(...)] attribute"@,
            ShapeError::HeadTakesOne => "head shape takes exactly one of arity = N, body, or atom"@,
            ShapeError::HeadNeedsKind => "head shape needs arity = N, body, or atom"@,
            ShapeError::AtomNeedsHead => "atom shape needs head = \"...\""@,
            ShapeError::PascalHeadTakesOne => "pascal_head shape takes either arity = N or body, not both"@,
            ShapeError::PascalHeadNeedsKind => "pascal_head shape needs arity = N or body"@,
            ShapeError::BodyNeedsHead => "body shape needs head = \"...\" or pascal_head"@,
            ShapeError::Unrecognized => "shape must be pascal_atom, keyword = \"...\", head = \"...\" with arity, body, or atom, or pascal_head with arity"@,
            ShapeError::FieldCount { expected, found } => "this shape expects "@ + crate::text::decimal(
                expected as nat,
            ) + " field(s); the variant carries "@ + crate::text::decimal(found as nat),
        }
    }
}


/// `count` copies of `piece`.
pub open spec fn repeated(piece: Seq<char>, count: nat) -> Seq<char>
    decreases count,
{
    if count == 0 {
        Seq::empty()
    } else {
        repeated(piece, (count - 1) as nat) + piece
    }
}

impl StructuralVariantShape {
    /// What a variant of this shape expects, as its diagnostics name it.
    pub open spec fn spec_expected_text(self, variant_name: Seq<char>) -> Seq<char> {
        variant_name + match self {
            StructuralVariantShape::PascalAtom => ": PascalCase atom"@,
            StructuralVariantShape::Keyword { keyword } => ": literal "@ + keyword@ + " atom"@,
            StructuralVariantShape::Headed { head, arity } => ": parenthesized "@ + head@
                + " head with arity "@ + crate::text::decimal(arity as nat),
            StructuralVariantShape::HeadedAtom { head } => ": parenthesized "@ + head@
                + " head with one atom field"@,
            StructuralVariantShape::HeadedBody { head } => ": parenthesized "@ + head@
                + " head with body objects"@,
            StructuralVariantShape::PascalHead { arity } => ": parenthesized PascalCase head with arity "@
                + crate::text::decimal(arity as nat),
            StructuralVariantShape::PascalHeadBody => ": parenthesized PascalCase head with body objects"@,
        }
    }

    /// What a variant of this shape expects, as its diagnostics name it.
    pub fn expected_text(&self, variant_name: &str) -> (r: String)
        ensures
            r@ == self.spec_expected_text(variant_name@),
    {
        let mut s = String::new();
        push_str(&mut s, variant_name);
        match self {
            StructuralVariantShape::PascalAtom => {
                push_str(&mut s, ": PascalCase atom");
            },
            StructuralVariantShape::Keyword { keyword } => {
                push_str(&mut s, ": literal ");
                push_str(&mut s, keyword.as_str());
                push_str(&mut s, " atom");
            },
            StructuralVariantShape::Headed { head, arity } => {
                push_str(&mut s, ": parenthesized ");
                push_str(&mut s, head.as_str());
                push_str(&mut s, " head with arity ");
                push_decimal(&mut s, *arity as u64);
            },
            StructuralVariantShape::HeadedAtom { head } => {
                push_str(&mut s, ": parenthesized ");
                push_str(&mut s, head.as_str());
                push_str(&mut s, " head with one atom field");
            },
            StructuralVariantShape::HeadedBody { head } => {
                push_str(&mut s, ": parenthesized ");
                push_str(&mut s, head.as_str());
                push_str(&mut s, " head with body objects");
            },
            StructuralVariantShape::PascalHead { arity } => {
                push_str(&mut s, ": parenthesized PascalCase head with arity ");
                push_decimal(&mut s, *arity as u64);
            },
            StructuralVariantShape::PascalHeadBody => {
                push_str(&mut s, ": parenthesized PascalCase head with body objects");
            },
        }
        s
    }

    /// The format text of a literal-headed parenthesis with `field_count`
    /// placeholders: `(head {} {} ..)`.
    pub fn headed_format(head: &str, field_count: usize) -> (r: String)
        ensures
            r@ == seq!['('] + head@ + repeated(" {}"@, field_count as nat) + seq![')'],
    {
        let mut output = String::new();
        push_char(&mut output, '(');
        push_str(&mut output, head);
        let mut k: usize = 0;
        while k < field_count
            invariant
                k <= field_count,
                output@ == seq!['('] + head@ + repeated(" {}"@, k as nat),
            decreases field_count - k,
        {
            push_str(&mut output, " {}");
            k = k + 1;
        }
        push_char(&mut output, ')');
        output
    }

    /// The format text of a PascalCase-headed parenthesis with `field_count`
    /// placeholders separated by spaces: `({} {} ..)`.
    pub fn pascal_head_format(field_count: usize) -> (r: String)
        ensures
            r@ == seq!['('] + (if field_count == 0 {
                Seq::empty()
            } else {
                "{}"@ + repeated(" {}"@, (field_count - 1) as nat)
            }) + seq![')'],
    {
        let mut output = String::new();
        push_char(&mut output, '(');
        if field_count > 0 {
            push_str(&mut output, "{}");
            let mut k: usize = 1;
            while k < field_count
                invariant
                    1 <= k <= field_count,
                    output@ == seq!['('] + "{}"@ + repeated(" {}"@, (k - 1) as nat),
                decreases field_count - k,
            {
                push_str(&mut output, " {}");
                k = k + 1;
            }
        }
        push_char(&mut output, ')');
        output
    }
}


/// One argument of a `#[nota(...)]` attribute on a type.
#[derive(Debug, PartialEq, Eq)]
pub enum ContainerArgument {
    /// `known_root`
    KnownRoot,
    /// Any other argument, by its name.
    Unsupported(String),
}

/// One argument of a `#[nota(...)]` attribute on a field.
#[derive(Debug, PartialEq, Eq)]
pub enum FieldArgument {
    /// `name = "..."`
    Name(String),
    /// Any other argument, by its name.
    Unsupported(String),
}

/// Why the `#[nota(...)]` arguments of a type or a field are refused.
#[derive(Debug, PartialEq, Eq)]
pub enum NotaAttributeError {
    UnsupportedContainer { argument: String },
    UnsupportedField { argument: String },
}

impl NotaAttributeError {
    pub open spec fn spec_message(self) -> Seq<char> {
        match self {
            NotaAttributeError::UnsupportedContainer { .. } => "unsupported nota container attribute"@,
            NotaAttributeError::UnsupportedField { .. } => "unsupported nota field attribute"@,
        }
    }

    /// The diagnostic text of this error.
    pub fn message(&self) -> (r: &'static str)
        ensures
            r@ == self.spec_message(),
    {
        match self {
            NotaAttributeError::UnsupportedContainer { .. } => "unsupported nota container attribute",
            NotaAttributeError::UnsupportedField { .. } => "unsupported nota field attribute",
        }
    }
}

/// The container arguments of all the attributes, in order.
pub open spec fn flat_container(attributes: Seq<Vec<ContainerArgument>>) -> Seq<ContainerArgument>
    decreases attributes.len(),
{
    if attributes.len() == 0 {
        Seq::empty()
    } else {
        flat_container(attributes.drop_last()) + attributes.last()@
    }
}

/// The field arguments of all the attributes, in order.
pub open spec fn flat_field(attributes: Seq<Vec<FieldArgument>>) -> Seq<FieldArgument>
    decreases attributes.len(),
{
    if attributes.len() == 0 {
        Seq::empty()
    } else {
        flat_field(attributes.drop_last()) + attributes.last()@
    }
}

/// The name of the first unsupported container argument.
pub open spec fn first_unsupported_container(a: Seq<ContainerArgument>) -> Option<Seq<char>> {
    if exists|i: int| 0 <= i < a.len() && a[i] is Unsupported {
        let i = choose|i: int|
            0 <= i < a.len() && a[i] is Unsupported && forall|j: int| 0 <= j < i ==> !(a[j] is Unsupported);
        Some(a[i]->Unsupported_0@)
    } else {
        None
    }
}

/// The name of the first unsupported field argument.
pub open spec fn first_unsupported_field(a: Seq<FieldArgument>) -> Option<Seq<char>> {
    if exists|i: int| 0 <= i < a.len() && a[i] is Unsupported {
        let i = choose|i: int|
            0 <= i < a.len() && a[i] is Unsupported && forall|j: int| 0 <= j < i ==> !(a[j] is Unsupported);
        Some(a[i]->Unsupported_0@)
    } else {
        None
    }
}

/// The text of the last `name = "..."`.
pub open spec fn last_name(a: Seq<FieldArgument>) -> Option<Seq<char>>
    decreases a.len(),
{
    if a.len() == 0 {
        None
    } else {
        match a.last() {
            FieldArgument::Name(n) => Some(n@),
            _ => last_name(a.drop_last()),
        }
    }
}

/// The `#[nota(...)]` settings of a type.
#[derive(Debug, PartialEq, Eq)]
pub struct ContainerNotaAttributes {
    pub known_root: bool,
}

/// The `#[nota(...)]` settings of a field.
#[derive(Debug, PartialEq, Eq)]
pub struct FieldNotaAttributes {
    pub name: Option<String>,
}

impl ContainerNotaAttributes {
    /// The settings that a type's `#[nota(...)]` attributes name, one
    /// argument list per attribute; the first unsupported argument refuses
    /// them.
    pub fn from_attributes(attributes: &Vec<Vec<ContainerArgument>>) -> (r: Result<
        ContainerNotaAttributes,
        NotaAttributeError,
    >)
        ensures
            ({
                let a = flat_container(attributes@);
                match first_unsupported_container(a) {
                    Some(name) => r matches Err(NotaAttributeError::UnsupportedContainer { argument })
                        && argument@ == name,
                    None => r matches Ok(c) && c.known_root == exists|i: int|
                        0 <= i < a.len() && a[i] is KnownRoot,
                }
            }),
    {
        let mut known_root = false;
        let mut i: usize = 0;
        proof {
            assert(attributes@.take(0) =~= Seq::<Vec<ContainerArgument>>::empty());
        }
        while i < attributes.len()
            invariant
                i <= attributes.len(),
                ({
                    let a = flat_container(attributes@.take(i as int));
                    &&& forall|q: int| 0 <= q < a.len() ==> !(#[trigger] a[q] is Unsupported)
                    &&& known_root == exists|q: int| 0 <= q < a.len() && a[q] is KnownRoot
                }),
            decreases attributes.len() - i,
        {
            let ghost done = flat_container(attributes@.take(i as int));
            proof {
                assert(attributes@.take(i + 1).drop_last() =~= attributes@.take(i as int));
            }
            let arguments = &attributes[i];
            let mut j: usize = 0;
            while j < arguments.len()
                invariant
                    i < attributes.len(),
                    arguments@ == attributes@[i as int]@,
                    done == flat_container(attributes@.take(i as int)),
                    j <= arguments.len(),
                    forall|q: int| 0 <= q < done.len() ==> !(#[trigger] done[q] is Unsupported),
                    forall|q: int| 0 <= q < j ==> !(#[trigger] arguments@[q] is Unsupported),
                    known_root == ((exists|q: int| 0 <= q < done.len() && done[q] is KnownRoot)
                        || exists|q: int| 0 <= q < j && arguments@[q] is KnownRoot),
                decreases arguments.len() - j,
            {
                match &arguments[j] {
                    ContainerArgument::KnownRoot => {
                        known_root = true;
                    },
                    ContainerArgument::Unsupported(name) => {
                        proof {
                            lemma_container_first_unsupported(attributes@, i as int, j as int);
                        }
                        return Err(NotaAttributeError::UnsupportedContainer { argument: name.clone() });
                    },
                }
                j = j + 1;
            }
            proof {
                let next = flat_container(attributes@.take(i + 1));
                assert(next =~= done + arguments@);
                assert forall|q: int| 0 <= q < next.len() implies !(#[trigger] next[q] is Unsupported) by {
                    if q >= done.len() {
                        assert(next[q] == arguments@[q - done.len()]);
                    }
                }
                if known_root {
                    if exists|q: int| 0 <= q < done.len() && done[q] is KnownRoot {
                        let q = choose|q: int| 0 <= q < done.len() && done[q] is KnownRoot;
                        assert(next[q] == done[q]);
                    } else {
                        let q = choose|q: int| 0 <= q < arguments.len() && arguments@[q] is KnownRoot;
                        assert(next[done.len() + q] == arguments@[q]);
                    }
                } else {
                    assert forall|q: int| 0 <= q < next.len() implies !(next[q] is KnownRoot) by {
                        if q >= done.len() {
                            assert(next[q] == arguments@[q - done.len()]);
                        } else {
                            assert(next[q] == done[q]);
                        }
                    }
                }
            }
            i = i + 1;
        }
        proof {
            assert(attributes@.take(attributes.len() as int) =~= attributes@);
        }
        Ok(ContainerNotaAttributes { known_root })
    }
}

proof fn lemma_container_first_unsupported(attributes: Seq<Vec<ContainerArgument>>, i: int, j: int)
    requires
        0 <= i < attributes.len(),
        0 <= j < attributes[i]@.len(),
        attributes[i]@[j] is Unsupported,
        forall|q: int|
            0 <= q < flat_container(attributes.take(i)).len() ==> !(#[trigger] flat_container(
                attributes.take(i),
            )[q] is Unsupported),
        forall|q: int| 0 <= q < j ==> !(#[trigger] attributes[i]@[q] is Unsupported),
    ensures
        first_unsupported_container(flat_container(attributes)) == Some(
            attributes[i]@[j]->Unsupported_0@,
        ),
{
    let done = flat_container(attributes.take(i));
    let a = flat_container(attributes);
    let p = done.len() + j;
    lemma_flat_container_prefix(attributes, i);
    assert(a[p] == attributes[i]@[j]);
    assert forall|q: int| 0 <= q < p implies !(#[trigger] a[q] is Unsupported) by {
        if q < done.len() {
            assert(a[q] == done[q]);
        } else {
            assert(a[q] == attributes[i]@[q - done.len()]);
        }
    }
    let c = choose|c: int|
        0 <= c < a.len() && a[c] is Unsupported && forall|d: int| 0 <= d < c ==> !(a[d] is Unsupported);
    assert(c == p) by {
        if c < p {
            assert(!(a[c] is Unsupported));
        } else if c > p {
            assert(!(a[p] is Unsupported));
        }
    }
}

/// The arguments of all attributes start with those before attribute `i`,
/// then those of attribute `i`.
proof fn lemma_flat_container_prefix(attributes: Seq<Vec<ContainerArgument>>, i: int)
    requires
        0 <= i < attributes.len(),
    ensures
        flat_container(attributes).len() >= flat_container(attributes.take(i)).len() + attributes[i]@.len(),
        forall|q: int|
            0 <= q < flat_container(attributes.take(i)).len() ==> flat_container(attributes)[q]
                == flat_container(attributes.take(i))[q],
        forall|q: int|
            0 <= q < attributes[i]@.len() ==> flat_container(attributes)[flat_container(
                attributes.take(i),
            ).len() + q] == attributes[i]@[q],
    decreases attributes.len(),
{
    if i == attributes.len() - 1 {
        assert(attributes.drop_last() =~= attributes.take(i));
    } else {
        let p = attributes.drop_last();
        assert(p.take(i) =~= attributes.take(i));
        assert(p[i] == attributes[i]);
        lemma_flat_container_prefix(p, i);
    }
}


impl FieldNotaAttributes {
    /// The settings that a field's `#[nota(...)]` attributes name, one
    /// argument list per attribute: the last name given; the first
    /// unsupported argument refuses them.
    pub fn from_attributes(attributes: &Vec<Vec<FieldArgument>>) -> (r: Result<
        FieldNotaAttributes,
        NotaAttributeError,
    >)
        ensures
            ({
                let a = flat_field(attributes@);
                match first_unsupported_field(a) {
                    Some(name) => r matches Err(NotaAttributeError::UnsupportedField { argument })
                        && argument@ == name,
                    None => r matches Ok(f) && match f.name {
                        Some(n) => last_name(a) == Some(n@),
                        None => last_name(a) is None,
                    },
                }
            }),
    {
        let mut name: Option<String> = None;
        let mut i: usize = 0;
        proof {
            assert(attributes@.take(0) =~= Seq::<Vec<FieldArgument>>::empty());
        }
        while i < attributes.len()
            invariant
                i <= attributes.len(),
                ({
                    let a = flat_field(attributes@.take(i as int));
                    &&& forall|q: int| 0 <= q < a.len() ==> !(#[trigger] a[q] is Unsupported)
                    &&& match name {
                        Some(n) => last_name(a) == Some(n@),
                        None => last_name(a) is None,
                    }
                }),
            decreases attributes.len() - i,
        {
            let ghost done = flat_field(attributes@.take(i as int));
            proof {
                assert(attributes@.take(i + 1).drop_last() =~= attributes@.take(i as int));
                assert(done + attributes@[i as int]@.take(0) =~= done);
            }
            let arguments = &attributes[i];
            let mut j: usize = 0;
            while j < arguments.len()
                invariant
                    i < attributes.len(),
                    arguments@ == attributes@[i as int]@,
                    done == flat_field(attributes@.take(i as int)),
                    j <= arguments.len(),
                    forall|q: int| 0 <= q < done.len() ==> !(#[trigger] done[q] is Unsupported),
                    forall|q: int| 0 <= q < j ==> !(#[trigger] arguments@[q] is Unsupported),
                    match name {
                        Some(n) => last_name(done + arguments@.take(j as int)) == Some(n@),
                        None => last_name(done + arguments@.take(j as int)) is None,
                    },
                decreases arguments.len() - j,
            {
                proof {
                    let next = done + arguments@.take(j + 1);
                    assert(next.drop_last() =~= done + arguments@.take(j as int));
                    assert(next.last() == arguments@[j as int]);
                }
                match &arguments[j] {
                    FieldArgument::Name(n) => {
                        name = Some(n.clone());
                    },
                    FieldArgument::Unsupported(argument) => {
                        proof {
                            lemma_field_first_unsupported(attributes@, i as int, j as int);
                        }
                        return Err(NotaAttributeError::UnsupportedField { argument: argument.clone() });
                    },
                }
                j = j + 1;
            }
            proof {
                let next = flat_field(attributes@.take(i + 1));
                assert(next =~= done + arguments@);
                assert(arguments@.take(arguments.len() as int) =~= arguments@);
                assert forall|q: int| 0 <= q < next.len() implies !(#[trigger] next[q] is Unsupported) by {
                    if q >= done.len() {
                        assert(next[q] == arguments@[q - done.len()]);
                    }
                }
            }
            i = i + 1;
        }
        proof {
            assert(attributes@.take(attributes.len() as int) =~= attributes@);
        }
        Ok(FieldNotaAttributes { name })
    }
}

proof fn lemma_field_first_unsupported(attributes: Seq<Vec<FieldArgument>>, i: int, j: int)
    requires
        0 <= i < attributes.len(),
        0 <= j < attributes[i]@.len(),
        attributes[i]@[j] is Unsupported,
        forall|q: int|
            0 <= q < flat_field(attributes.take(i)).len() ==> !(#[trigger] flat_field(
                attributes.take(i),
            )[q] is Unsupported),
        forall|q: int| 0 <= q < j ==> !(#[trigger] attributes[i]@[q] is Unsupported),
    ensures
        first_unsupported_field(flat_field(attributes)) == Some(attributes[i]@[j]->Unsupported_0@),
{
    let done = flat_field(attributes.take(i));
    let a = flat_field(attributes);
    let p = done.len() + j;
    lemma_flat_field_prefix(attributes, i);
    assert(a[p] == attributes[i]@[j]);
    assert forall|q: int| 0 <= q < p implies !(#[trigger] a[q] is Unsupported) by {
        if q < done.len() {
            assert(a[q] == done[q]);
        } else {
            assert(a[q] == attributes[i]@[q - done.len()]);
        }
    }
    let c = choose|c: int|
        0 <= c < a.len() && a[c] is Unsupported && forall|d: int| 0 <= d < c ==> !(a[d] is Unsupported);
    assert(c == p) by {
        if c < p {
            assert(!(a[c] is Unsupported));
        } else if c > p {
            assert(!(a[p] is Unsupported));
        }
    }
}

proof fn lemma_flat_field_prefix(attributes: Seq<Vec<FieldArgument>>, i: int)
    requires
        0 <= i < attributes.len(),
    ensures
        flat_field(attributes).len() >= flat_field(attributes.take(i)).len() + attributes[i]@.len(),
        forall|q: int|
            0 <= q < flat_field(attributes.take(i)).len() ==> flat_field(attributes)[q] == flat_field(
                attributes.take(i),
            )[q],
        forall|q: int|
            0 <= q < attributes[i]@.len() ==> flat_field(attributes)[flat_field(attributes.take(i)).len()
                + q] == attributes[i]@[q],
    decreases attributes.len(),
{
    if i == attributes.len() - 1 {
        assert(attributes.drop_last() =~= attributes.take(i));
    } else {
        let p = attributes.drop_last();
        assert(p.take(i) =~= attributes.take(i));
        assert(p[i] == attributes[i]);
        lemma_flat_field_prefix(p, i);
    }
}

} // verus!
