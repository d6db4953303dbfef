//! The compact first-two-level structure header of a document.
use vstd::prelude::*;
use crate::model::{BlockModel, Delimiter};
use crate::parser::{Block, Document, models};

verus! {

#[derive(Clone, Copy, Debug, PartialEq, Eq, Structural)]
pub enum StructureShape {
    Document,
    Atom,
    Parenthesis,
    SquareBracket,
    Brace,
    Angle,
    CurlyText,
    Application,
    Unknown,
}

pub open spec fn shape_code(s: StructureShape) -> u8 {
    match s {
        StructureShape::Document => 0,
        StructureShape::Atom => 1,
        StructureShape::Parenthesis => 2,
        StructureShape::SquareBracket => 3,
        StructureShape::Brace => 4,
        StructureShape::Angle => 5,
        StructureShape::CurlyText => 6,
        StructureShape::Application => 7,
        StructureShape::Unknown => 15,
    }
}

pub open spec fn shape_of_code(code: u8) -> StructureShape {
    if code == 0 {
        StructureShape::Document
    } else if code == 1 {
        StructureShape::Atom
    } else if code == 2 {
        StructureShape::Parenthesis
    } else if code == 3 {
        StructureShape::SquareBracket
    } else if code == 4 {
        StructureShape::Brace
    } else if code == 5 {
        StructureShape::Angle
    } else if code == 6 {
        StructureShape::CurlyText
    } else if code == 7 {
        StructureShape::Application
    } else {
        StructureShape::Unknown
    }
}

/// The structural shape of a block model.
pub open spec fn model_shape(m: BlockModel) -> StructureShape {
    match m {
        BlockModel::Delimited { delimiter, .. } => match delimiter {
            Delimiter::Parenthesis => StructureShape::Parenthesis,
            Delimiter::SquareBracket => StructureShape::SquareBracket,
            Delimiter::Brace => StructureShape::Brace,
            Delimiter::Angle => StructureShape::Angle,
        },
        BlockModel::Application { .. } => StructureShape::Application,
        BlockModel::CurlyText { .. } => StructureShape::CurlyText,
        BlockModel::Atom { .. } => StructureShape::Atom,
    }
}

/// A delimited block's structure shape names its own delimiter: braces give
/// the brace shape, parentheses the parenthesis shape, square brackets the
/// square-bracket shape and angles the angle shape. So two delimited blocks
/// share a shape exactly when they share a delimiter, and no delimited block
/// takes the shape of an atom, a text, an application or the document.
pub proof fn lemma_delimited_shape_names_its_delimiter(a: BlockModel, b: BlockModel)
    requires
        a is Delimited,
        b is Delimited,
    ensures
        a->Delimited_delimiter == Delimiter::Brace ==> model_shape(a) == StructureShape::Brace,
        a->Delimited_delimiter == Delimiter::Parenthesis ==> model_shape(a)
            == StructureShape::Parenthesis,
        a->Delimited_delimiter == Delimiter::SquareBracket ==> model_shape(a)
            == StructureShape::SquareBracket,
        a->Delimited_delimiter == Delimiter::Angle ==> model_shape(a) == StructureShape::Angle,
        (model_shape(a) == model_shape(b)) == (a->Delimited_delimiter == b->Delimited_delimiter),
        model_shape(a) != StructureShape::Document && model_shape(a) != StructureShape::Atom
            && model_shape(a) != StructureShape::CurlyText && model_shape(a)
            != StructureShape::Application && model_shape(a) != StructureShape::Unknown,
{
}

impl StructureShape {
    pub open spec fn spec_as_str(self) -> Seq<char> {
        match self {
            StructureShape::Document => "document"@,
            StructureShape::Atom => "atom"@,
            StructureShape::Parenthesis => "parenthesis"@,
            StructureShape::SquareBracket => "square bracket"@,
            StructureShape::Brace => "brace"@,
            StructureShape::Angle => "angle bracket"@,
            StructureShape::CurlyText => "curly quoted text"@,
            StructureShape::Application => "application"@,
            StructureShape::Unknown => "unknown"@,
        }
    }

    pub fn as_str(&self) -> (r: &'static str)
        ensures
            r@ == self.spec_as_str(),
    {
        match self {
            StructureShape::Document => "document",
            StructureShape::Atom => "atom",
            StructureShape::Parenthesis => "parenthesis",
            StructureShape::SquareBracket => "square bracket",
            StructureShape::Brace => "brace",
            StructureShape::Angle => "angle bracket",
            StructureShape::CurlyText => "curly quoted text",
            StructureShape::Application => "application",
            StructureShape::Unknown => "unknown",
        }
    }

    fn code(self) -> (r: u8)
        ensures
            r == shape_code(self),
    {
        match self {
            StructureShape::Document => 0,
            StructureShape::Atom => 1,
            StructureShape::Parenthesis => 2,
            StructureShape::SquareBracket => 3,
            StructureShape::Brace => 4,
            StructureShape::Angle => 5,
            StructureShape::CurlyText => 6,
            StructureShape::Application => 7,
            StructureShape::Unknown => 15,
        }
    }

    fn from_code(code: u8) -> (r: StructureShape)
        ensures
            r == shape_of_code(code),
    {
        if code == 0 {
            StructureShape::Document
        } else if code == 1 {
            StructureShape::Atom
        } else if code == 2 {
            StructureShape::Parenthesis
        } else if code == 3 {
            StructureShape::SquareBracket
        } else if code == 4 {
            StructureShape::Brace
        } else if code == 5 {
            StructureShape::Angle
        } else if code == 6 {
            StructureShape::CurlyText
        } else if code == 7 {
            StructureShape::Application
        } else {
            StructureShape::Unknown
        }
    }
}

/// One slot of the header: a shape and a child count of at most fifteen.
#[derive(Clone, Copy, Debug, PartialEq, Eq, Structural)]
pub struct StructureSlot {
    shape: StructureShape,
    child_count: u8,
}

pub open spec fn slot_byte(s: StructureSlot) -> u8 {
    (shape_code(s.shape_view()) * 16 + s.count_view()) as u8
}

/// The slot of a shape and a child count; a count that does not fit the
/// four-bit field makes the overflow slot.
pub open spec fn spec_slot(shape: StructureShape, count: int) -> StructureSlot {
    if count > 15 {
        spec_overflow()
    } else {
        spec_make_slot(shape, count as u8)
    }
}

pub open spec fn spec_overflow() -> StructureSlot {
    spec_make_slot(StructureShape::Unknown, 15)
}

pub closed spec fn spec_make_slot(shape: StructureShape, count: u8) -> StructureSlot {
    StructureSlot { shape, child_count: count }
}

pub open spec fn spec_slot_of_byte(byte: u8) -> StructureSlot {
    spec_make_slot(shape_of_code(byte / 16), byte % 16)
}

pub broadcast proof fn lemma_make_slot(shape: StructureShape, count: u8)
    requires
        count <= 15,
    ensures
        #[trigger] spec_make_slot(shape, count).shape_view() == shape,
        spec_make_slot(shape, count).count_view() == count,
        spec_make_slot(shape, count).wf(),
{
}

impl StructureSlot {
    pub closed spec fn shape_view(self) -> StructureShape {
        self.shape
    }

    pub closed spec fn count_view(self) -> u8 {
        self.child_count
    }

    /// Every slot's count fits four bits.
    pub closed spec fn wf(self) -> bool {
        self.child_count <= 15
    }

    pub proof fn lemma_wf_fields(self)
        requires
            self.wf(),
        ensures
            self.count_view() <= 15,
            self == spec_make_slot(self.shape_view(), self.count_view()),
    {
    }

    pub fn new(shape: StructureShape, child_count: usize) -> (r: StructureSlot)
        ensures
            r == spec_slot(shape, child_count as int),
            r.wf(),
    {
        if child_count > 15 {
            return Self::overflow();
        }
        StructureSlot { shape, child_count: child_count as u8 }
    }

    pub fn overflow() -> (r: StructureSlot)
        ensures
            r == spec_overflow(),
            r.wf(),
    {
        StructureSlot { shape: StructureShape::Unknown, child_count: 15 }
    }

    pub fn shape(&self) -> (r: StructureShape)
        ensures
            r == self.shape_view(),
    {
        self.shape
    }

    pub fn child_count(&self) -> (r: u8)
        ensures
            r == self.count_view(),
    {
        self.child_count
    }

    pub fn packed_byte(&self) -> (r: u8)
        requires
            self.wf(),
        ensures
            r == slot_byte(*self),
    {
        let code = self.shape.code();
        let count = self.child_count;
        assert(code <= 15 && count <= 15);
        assert((code << 4u8) | count == code * 16 + count) by (bit_vector)
            requires
                code <= 15,
                count <= 15,
        ;
        (code << 4u8) | count
    }

    pub fn from_packed_byte(byte: u8) -> (r: StructureSlot)
        ensures
            r == spec_slot_of_byte(byte),
            r.wf(),
    {
        assert(byte >> 4u8 == byte / 16 && byte & 0x0fu8 == byte % 16) by (bit_vector);
        StructureSlot { shape: StructureShape::from_code(byte >> 4u8), child_count: byte & 0x0f }
    }
}

/// A slot packs to one byte and reads back from it unchanged.
pub proof fn lemma_slot_byte_round_trip(s: StructureSlot)
    requires
        s.wf(),
    ensures
        spec_slot_of_byte(slot_byte(s)) == s,
{
    s.lemma_wf_fields();
    let b = slot_byte(s);
    assert(b / 16 == shape_code(s.shape_view()));
    assert(b % 16 == s.count_view());
}

} // verus!

verus! {

pub open spec fn byte_at(word: u64, i: int) -> u64 {
    (word >> ((8 * i) as u64)) & 0xff
}

pub broadcast proof fn lemma_byte_at_small(word: u64, i: int)
    ensures
        #[trigger] byte_at(word, i) < 256,
{
    let s = (8 * i) as u64;
    assert((word >> s) & 0xff < 256) by (bit_vector);
}

/// The byte of slot `i`, zero past the last slot.
pub open spec fn slot_byte_at(slots: Seq<StructureSlot>, i: int) -> u64 {
    if 0 <= i < slots.len() {
        slot_byte(slots[i]) as u64
    } else {
        0
    }
}

pub open spec fn pack_bytes(b0: u64, b1: u64, b2: u64, b3: u64, b4: u64, b5: u64, b6: u64, b7: u64) -> u64 {
    b0 | (b1 << 8u64) | (b2 << 16u64) | (b3 << 24u64) | (b4 << 32u64) | (b5 << 40u64) | (b6
        << 48u64) | (b7 << 56u64)
}

/// The slots packed one byte each, slot `i` in byte `i`.
pub open spec fn spec_pack(slots: Seq<StructureSlot>) -> u64 {
    pack_bytes(
        slot_byte_at(slots, 0),
        slot_byte_at(slots, 1),
        slot_byte_at(slots, 2),
        slot_byte_at(slots, 3),
        slot_byte_at(slots, 4),
        slot_byte_at(slots, 5),
        slot_byte_at(slots, 6),
        slot_byte_at(slots, 7),
    )
}

/// Index of the first zero byte after byte zero, or eight.
pub open spec fn unpacked_len_from(word: u64, i: int) -> int
    decreases 8 - i,
{
    if i >= 8 {
        8
    } else if byte_at(word, i) == 0 {
        i
    } else {
        unpacked_len_from(word, i + 1)
    }
}

/// The slots read back from a word: byte zero always, then bytes up to the
/// first zero byte.
pub open spec fn spec_unpack(word: u64) -> Seq<StructureSlot> {
    Seq::new(
        unpacked_len_from(word, 1) as nat,
        |i: int| spec_slot_of_byte(byte_at(word, i) as u8),
    )
}

pub proof fn lemma_pack_bytes(b0: u64, b1: u64, b2: u64, b3: u64, b4: u64, b5: u64, b6: u64, b7: u64)
    requires
        b0 < 256,
        b1 < 256,
        b2 < 256,
        b3 < 256,
        b4 < 256,
        b5 < 256,
        b6 < 256,
        b7 < 256,
    ensures
        byte_at(pack_bytes(b0, b1, b2, b3, b4, b5, b6, b7), 0) == b0,
        byte_at(pack_bytes(b0, b1, b2, b3, b4, b5, b6, b7), 1) == b1,
        byte_at(pack_bytes(b0, b1, b2, b3, b4, b5, b6, b7), 2) == b2,
        byte_at(pack_bytes(b0, b1, b2, b3, b4, b5, b6, b7), 3) == b3,
        byte_at(pack_bytes(b0, b1, b2, b3, b4, b5, b6, b7), 4) == b4,
        byte_at(pack_bytes(b0, b1, b2, b3, b4, b5, b6, b7), 5) == b5,
        byte_at(pack_bytes(b0, b1, b2, b3, b4, b5, b6, b7), 6) == b6,
        byte_at(pack_bytes(b0, b1, b2, b3, b4, b5, b6, b7), 7) == b7,
{
    let w = pack_bytes(b0, b1, b2, b3, b4, b5, b6, b7);
    assert(w & 0xff == b0 && (w >> 8u64) & 0xff == b1 && (w >> 16u64) & 0xff == b2 && (w
        >> 24u64) & 0xff == b3 && (w >> 32u64) & 0xff == b4 && (w >> 40u64) & 0xff == b5 && (w
        >> 48u64) & 0xff == b6 && (w >> 56u64) & 0xff == b7) by (bit_vector)
        requires
            w == b0 | (b1 << 8u64) | (b2 << 16u64) | (b3 << 24u64) | (b4 << 32u64) | (b5 << 40u64)
                | (b6 << 48u64) | (b7 << 56u64),
            b0 < 256,
            b1 < 256,
            b2 < 256,
            b3 < 256,
            b4 < 256,
            b5 < 256,
            b6 < 256,
            b7 < 256,
    ;
    assert(w >> 0u64 == w) by (bit_vector);
}

/// The first-two-level structure of a document: the document slot, then each
/// root slot followed by the slots of its children, at most eight slots.
#[derive(Debug, PartialEq, Eq)]
pub struct StructureHeader {
    slots: Vec<StructureSlot>,
}

impl StructureHeader {
    pub const MAXIMUM_SLOTS: usize = 8;

    pub closed spec fn slots_view(&self) -> Seq<StructureSlot> {
        self.slots@
    }

    /// At most eight valid slots, at least one, and no slot after the first
    /// packs to the zero byte.
    pub open spec fn wf(&self) -> bool {
        &&& 1 <= self.slots_view().len() <= 8
        &&& forall|i: int| 0 <= i < self.slots_view().len() ==> (#[trigger] self.slots_view()[i]).wf()
        &&& forall|i: int| 1 <= i < self.slots_view().len() ==> slot_byte(#[trigger] self.slots_view()[i]) != 0
    }

    pub fn slots(&self) -> (r: &[StructureSlot])
        ensures
            r@ == self.slots_view(),
    {
        self.slots.as_slice()
    }

    fn byte_or_zero(&self, i: usize) -> (r: u64)
        requires
            self.wf(),
        ensures
            r == slot_byte_at(self.slots_view(), i as int),
            r < 256,
    {
        if i < self.slots.len() {
            self.slots[i].packed_byte() as u64
        } else {
            0
        }
    }

    /// The slots packed into one word, slot `i` in byte `i`.
    pub fn packed_word(&self) -> (r: u64)
        requires
            self.wf(),
        ensures
            r == spec_pack(self.slots_view()),
    {
        let b0 = self.byte_or_zero(0);
        let b1 = self.byte_or_zero(1);
        let b2 = self.byte_or_zero(2);
        let b3 = self.byte_or_zero(3);
        let b4 = self.byte_or_zero(4);
        let b5 = self.byte_or_zero(5);
        let b6 = self.byte_or_zero(6);
        let b7 = self.byte_or_zero(7);
        b0 | (b1 << 8u64) | (b2 << 16u64) | (b3 << 24u64) | (b4 << 32u64) | (b5 << 40u64) | (b6
            << 48u64) | (b7 << 56u64)
    }

    /// The header that a packed word holds.
    pub fn from_packed_word(word: u64) -> (r: StructureHeader)
        ensures
            r.wf(),
            r.slots_view() == spec_unpack(word),
    {
        broadcast use lemma_byte_at_small;

        let mut slots: Vec<StructureSlot> = Vec::new();
        let mut index: usize = 0;
        let mut done = false;
        while !done && index < 8
            invariant
                index <= 8,
                slots@.len() == index,
                forall|i: int| 0 <= i < index ==> slots@[i] == spec_slot_of_byte(#[trigger] byte_at(word, i) as u8),
                forall|i: int| 1 <= i < index ==> byte_at(word, i) != 0,
                index >= 1 ==> unpacked_len_from(word, 1) == unpacked_len_from(word, index as int),
                done ==> index >= 1 && unpacked_len_from(word, 1) == index,
            decreases 8 - index + (if done { 0int } else { 1int }),
        {
            let byte = ((word >> ((index * 8) as u64)) & 0xff) as u8;
            assert(byte == byte_at(word, index as int) as u8);
            if byte == 0 && index > 0 {
                proof {
                    lemma_byte_at_small(word, index as int);
                    assert(byte_at(word, index as int) == 0);
                }
                assert(unpacked_len_from(word, index as int) == index);
                done = true;
            } else {
                slots.push(StructureSlot::from_packed_byte(byte));
                index = index + 1;
            }
        }
        let r = StructureHeader { slots };
        proof {
            assert(r.slots_view().len() == unpacked_len_from(word, 1));
            assert forall|i: int| 0 <= i < r.slots_view().len() implies (#[trigger] r.slots_view()[i]).wf() by {
                assert(r.slots_view()[i] == spec_slot_of_byte(byte_at(word, i) as u8));
                lemma_make_slot(shape_of_code((byte_at(word, i) as u8) / 16), (byte_at(word, i) as u8) % 16);
            }
            assert forall|i: int| 1 <= i < r.slots_view().len() implies slot_byte(#[trigger] r.slots_view()[i]) != 0 by {
                let b = byte_at(word, i) as u8;
                assert(r.slots_view()[i] == spec_slot_of_byte(b));
                lemma_make_slot(shape_of_code(b / 16), b % 16);
                assert(b != 0);
                assert(b < 256);
                assert(b / 16 <= 15);
                if b / 16 <= 7 {
                    assert(shape_code(shape_of_code(b / 16)) == b / 16);
                } else {
                    assert(shape_code(shape_of_code(b / 16)) == 15);
                }
            }
            assert(r.slots_view() =~= spec_unpack(word));
        }
        r
    }
}

/// A header packs into one word and reads back from it unchanged.
pub proof fn lemma_header_round_trip(slots: Seq<StructureSlot>)
    requires
        1 <= slots.len() <= 8,
        forall|i: int| 0 <= i < slots.len() ==> (#[trigger] slots[i]).wf(),
        forall|i: int| 1 <= i < slots.len() ==> slot_byte(#[trigger] slots[i]) != 0,
    ensures
        spec_unpack(spec_pack(slots)) == slots,
{
    let w = spec_pack(slots);
    assert forall|i: int| 0 <= i < 8 implies #[trigger] slot_byte_at(slots, i) < 256 by {
        if 0 <= i < slots.len() {
            assert(slot_byte(slots[i]) < 256);
        }
    }
    lemma_pack_bytes(
        slot_byte_at(slots, 0),
        slot_byte_at(slots, 1),
        slot_byte_at(slots, 2),
        slot_byte_at(slots, 3),
        slot_byte_at(slots, 4),
        slot_byte_at(slots, 5),
        slot_byte_at(slots, 6),
        slot_byte_at(slots, 7),
    );
    assert(forall|i: int| 0 <= i < 8 ==> byte_at(w, i) == #[trigger] slot_byte_at(slots, i));
    // the length read back is the slot count
    let n = slots.len() as int;
    assert forall|i: int| 1 <= i <= n implies unpacked_len_from(w, i) == n by {
        lemma_unpacked_len(w, slots, i);
    }
    assert forall|i: int| 0 <= i < slots.len() implies spec_slot_of_byte(#[trigger] byte_at(w, i) as u8) == slots[i] by {
        lemma_slot_byte_round_trip(slots[i]);
    }
    assert(spec_unpack(w) =~= slots);
}

proof fn lemma_unpacked_len(w: u64, slots: Seq<StructureSlot>, i: int)
    requires
        1 <= slots.len() <= 8,
        1 <= i <= slots.len(),
        forall|k: int| 1 <= k < slots.len() ==> slot_byte(#[trigger] slots[k]) != 0,
        forall|k: int| 0 <= k < 8 ==> byte_at(w, k) == #[trigger] slot_byte_at(slots, k),
    ensures
        unpacked_len_from(w, i) == slots.len(),
    decreases slots.len() - i,
{
    if i < slots.len() {
        assert(byte_at(w, i) == slot_byte_at(slots, i));
        lemma_unpacked_len(w, slots, i + 1);
    } else if i < 8 {
        assert(byte_at(w, i) == slot_byte_at(slots, i));
    }
}

} // verus!

verus! {

pub open spec fn slot_of_model(m: BlockModel) -> StructureSlot {
    spec_slot(model_shape(m), m.child_count() as int)
}

pub open spec fn child_slots(m: BlockModel) -> Seq<StructureSlot> {
    m.children().map_values(|c: BlockModel| slot_of_model(c))
}

/// Slot of each root followed by the slots of its children, in order.
pub open spec fn level_slots(roots: Seq<BlockModel>) -> Seq<StructureSlot>
    decreases roots.len(),
{
    if roots.len() == 0 {
        Seq::empty()
    } else {
        level_slots(roots.drop_last()) + seq![slot_of_model(roots.last())] + child_slots(
            roots.last(),
        )
    }
}

/// At most eight slots; when more were available the eighth is the overflow
/// slot.
pub open spec fn truncated(slots: Seq<StructureSlot>) -> Seq<StructureSlot> {
    if slots.len() <= 8 {
        slots
    } else {
        slots.take(8).update(7, spec_overflow())
    }
}

pub open spec fn header_slots(roots: Seq<BlockModel>) -> Seq<StructureSlot> {
    truncated(seq![spec_slot(StructureShape::Document, roots.len() as int)] + level_slots(roots))
}

proof fn lemma_truncated_push(l: Seq<StructureSlot>, x: StructureSlot)
    ensures
        l.len() < 8 ==> truncated(l.push(x)) == truncated(l).push(x),
        l.len() >= 8 ==> truncated(l.push(x)) == truncated(l).update(7, spec_overflow()),
{
    if l.len() >= 8 {
        assert(truncated(l.push(x)) =~= truncated(l).update(7, spec_overflow()));
    }
}

proof fn lemma_truncated_extend(l: Seq<StructureSlot>, m: Seq<StructureSlot>)
    requires
        l.len() > 8,
    ensures
        truncated(l + m) == truncated(l),
{
    assert((l + m).take(8) =~= l.take(8));
}

struct HeaderBuilder {
    slots: Vec<StructureSlot>,
}

impl HeaderBuilder {
    fn push_slot(&mut self, slot: StructureSlot) -> (pushed: bool)
        requires
            old(self).slots@.len() <= 8,
        ensures
            final(self).slots@.len() <= 8,
            pushed == (old(self).slots@.len() < 8),
            pushed ==> final(self).slots@ == old(self).slots@.push(slot),
            !pushed ==> final(self).slots@ == old(self).slots@.update(7, spec_overflow()),
    {
        if self.slots.len() < 8 {
            self.slots.push(slot);
            true
        } else {
            let last = self.slots.len() - 1;
            self.slots.set(last, StructureSlot::overflow());
            false
        }
    }
}

impl Block {
    pub fn structure_shape(&self) -> (r: StructureShape)
        ensures
            r == model_shape(self@),
    {
        match self {
            Block::Delimited { delimiter, .. } => match delimiter {
                Delimiter::Parenthesis => StructureShape::Parenthesis,
                Delimiter::SquareBracket => StructureShape::SquareBracket,
                Delimiter::Brace => StructureShape::Brace,
                Delimiter::Angle => StructureShape::Angle,
            },
            Block::Application { .. } => StructureShape::Application,
            Block::CurlyText(_) => StructureShape::CurlyText,
            Block::Atom(_) => StructureShape::Atom,
        }
    }

    pub fn structure_slot(&self) -> (r: StructureSlot)
        ensures
            r == slot_of_model(self@),
            r.wf(),
    {
        StructureSlot::new(self.structure_shape(), self.holds_root_objects())
    }
}

/// A valid slot that is not the document slot.
pub open spec fn body_slot(s: StructureSlot) -> bool {
    s.wf() && s.shape_view() != StructureShape::Document
}

proof fn lemma_body_slot_byte(s: StructureSlot)
    requires
        body_slot(s),
    ensures
        slot_byte(s) != 0,
{
    s.lemma_wf_fields();
    assert(shape_code(s.shape_view()) >= 1);
}

proof fn lemma_slot_of_model_is_body(m: BlockModel)
    ensures
        body_slot(slot_of_model(m)),
{
    if m.child_count() > 15 {
        lemma_make_slot(StructureShape::Unknown, 15);
    } else {
        lemma_make_slot(model_shape(m), m.child_count() as u8);
    }
}

proof fn lemma_overflow_is_body()
    ensures
        body_slot(spec_overflow()),
{
    lemma_make_slot(StructureShape::Unknown, 15);
}

pub open spec fn builder_wf(slots: Seq<StructureSlot>) -> bool {
    &&& 1 <= slots.len() <= 8
    &&& slots[0].wf()
    &&& forall|i: int| 1 <= i < slots.len() ==> body_slot(#[trigger] slots[i])
}

proof fn lemma_builder_wf_push(slots: Seq<StructureSlot>, x: StructureSlot)
    requires
        builder_wf(slots),
        body_slot(x),
    ensures
        slots.len() < 8 ==> builder_wf(slots.push(x)),
        slots.len() >= 8 ==> builder_wf(slots.update(7, spec_overflow())),
{
    lemma_overflow_is_body();
    if slots.len() < 8 {
        assert forall|i: int| 1 <= i < slots.push(x).len() implies body_slot(#[trigger] slots.push(x)[i]) by {
            if i < slots.len() {
                assert(slots.push(x)[i] == slots[i]);
            }
        }
    } else {
        assert forall|i: int| 1 <= i < slots.update(7, spec_overflow()).len() implies body_slot(#[trigger] slots.update(7, spec_overflow())[i]) by {
            if i != 7 {
                assert(slots.update(7, spec_overflow())[i] == slots[i]);
            }
        }
    }
}

impl Document {
    /// The compact first-two-level structure of this document.
    pub fn structure_header(&self) -> (r: StructureHeader)
        ensures
            r.slots_view() == header_slots(models(self.roots())),
            r.wf(),
    {
        let roots = self.root_objects();
        let ghost ms = models(roots@);
        let mut builder = HeaderBuilder { slots: Vec::new() };
        let first = StructureSlot::new(StructureShape::Document, roots.len());
        builder.push_slot(first);
        proof {
            lemma_truncated_push(Seq::empty(), first);
            assert(Seq::<StructureSlot>::empty().push(first) =~= seq![first] + level_slots(
                ms.take(0),
            ));
        }
        let mut k: usize = 0;
        while k < roots.len()
            invariant
                k <= roots.len(),
                ms == models(roots@),
                builder_wf(builder.slots@),
                builder.slots@ == truncated(seq![first] + level_slots(ms.take(k as int))),
                first == spec_slot(StructureShape::Document, ms.len() as int),
            decreases roots.len() - k,
        {
            let block = &roots[k];
            let ghost prefix = seq![first] + level_slots(ms.take(k as int));
            let slot = block.structure_slot();
            proof {
                assert(ms.take(k + 1).drop_last() =~= ms.take(k as int));
                assert(ms.take(k + 1).last() == block@);
                assert(level_slots(ms.take(k + 1)) == level_slots(ms.take(k as int)) + seq![slot]
                    + child_slots(block@));
                lemma_truncated_push(prefix, slot);
                lemma_slot_of_model_is_body(block@);
                lemma_builder_wf_push(builder.slots@, slot);
                assert(seq![first] + level_slots(ms.take(k + 1)) =~= prefix.push(slot)
                    + child_slots(block@));
            }
            if builder.push_slot(slot) {
                let children = block.root_objects();
                let mut c: usize = 0;
                let mut full = false;
                while !full && c < children.len()
                    invariant
                        c <= children.len(),
                        models(children@) == block@.children(),
                        builder_wf(builder.slots@),
                        !full ==> builder.slots@ == truncated(
                            prefix.push(slot) + child_slots(block@).take(c as int),
                        ),
                        full ==> builder.slots@ == truncated(
                            prefix.push(slot) + child_slots(block@),
                        ),
                    decreases children.len() - c + (if full { 0int } else { 1int }),
                {
                    let child_slot = children[c].structure_slot();
                    proof {
                        let l = prefix.push(slot) + child_slots(block@).take(c as int);
                        assert(child_slots(block@)[c as int] == child_slot);
                        assert(prefix.push(slot) + child_slots(block@).take(c + 1) =~= l.push(
                            child_slot,
                        ));
                        lemma_truncated_push(l, child_slot);
                        lemma_slot_of_model_is_body(children@[c as int]@);
                        lemma_builder_wf_push(builder.slots@, child_slot);
                    }
                    if !builder.push_slot(child_slot) {
                        proof {
                            let l = prefix.push(slot) + child_slots(block@).take(c + 1);
                            assert(l.len() > 8);
                            lemma_truncated_extend(l, child_slots(block@).skip(c + 1));
                            assert(l + child_slots(block@).skip(c + 1) =~= prefix.push(slot)
                                + child_slots(block@));
                        }
                        full = true;
                    } else {
                        c = c + 1;
                    }
                }
                proof {
                    if !full {
                        assert(child_slots(block@).take(c as int) =~= child_slots(block@));
                    }
                }
            } else {
                proof {
                    lemma_truncated_extend(prefix.push(slot), child_slots(block@));
                }
            }
            k = k + 1;
        }
        proof {
            assert(ms.take(roots.len() as int) =~= ms);
            assert forall|i: int| 1 <= i < builder.slots@.len() implies slot_byte(#[trigger] builder.slots@[i]) != 0 by {
                lemma_body_slot_byte(builder.slots@[i]);
            }
        }
        StructureHeader { slots: builder.slots }
    }
}

} // verus!
