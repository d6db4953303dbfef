//! Byte sequences, written as lowercase hexadecimal text.
use vstd::prelude::*;
use crate::codec::{DotosBlock, DotosDecode, DotosDecodeError, DotosEncode, spec_decode_string};
use crate::model::BlockModel;
use crate::parser::Block;
use crate::strings::{DotosString, spec_format_string};
use crate::text::{decimal, push_char, push_decimal, push_str, push_wide_decimal, text_of};
use vstd::string::StringSliceAdditionalSpecFns;

verus! {

/// The value of a lowercase hexadecimal digit byte.
pub open spec fn hex_value(b: u8) -> Option<u8> {
    if 48 <= b <= 57 {
        Some((b - 48) as u8)
    } else if 97 <= b <= 102 {
        Some((b - 87) as u8)
    } else {
        None
    }
}

/// The first byte from `i` on that is not a lowercase hexadecimal digit.
pub open spec fn first_non_hex(bs: Seq<u8>, i: int) -> Option<u8>
    decreases bs.len() - i,
{
    if i < 0 || i >= bs.len() {
        None
    } else if hex_value(bs[i]) is None {
        Some(bs[i])
    } else {
        first_non_hex(bs, i + 1)
    }
}

/// The bytes that pairs of hexadecimal digits spell, high digit first.
pub open spec fn hex_pairs(bs: Seq<u8>) -> Seq<u8> {
    Seq::new(
        bs.len() / 2,
        |k: int| (hex_value(bs[2 * k])->0 * 16 + hex_value(bs[2 * k + 1])->0) as u8,
    )
}

/// The lowercase hexadecimal digit of `n`.
pub open spec fn hex_digit_char(n: int) -> char {
    if n < 10 {
        (48 + n) as char
    } else {
        (87 + n) as char
    }
}

/// Two lowercase hexadecimal digits per byte.
pub open spec fn hex_text(bytes: Seq<u8>) -> Seq<char>
    decreases bytes.len(),
{
    if bytes.len() == 0 {
        Seq::empty()
    } else {
        hex_text(bytes.drop_last()) + seq![
            hex_digit_char((bytes.last() / 16) as int),
            hex_digit_char((bytes.last() % 16) as int),
        ]
    }
}

/// The bytes of hexadecimal text, or the first digit byte that is not
/// lowercase hexadecimal.
pub open spec fn spec_from_hex(bs: Seq<u8>) -> Result<Seq<u8>, u8> {
    match first_non_hex(bs, 0) {
        Some(b) => Err(b),
        None => Ok(hex_pairs(bs)),
    }
}

pub(crate) proof fn lemma_first_non_hex(bs: Seq<u8>, i: int, j: int)
    requires
        0 <= i <= j <= bs.len(),
        forall|k: int| i <= k < j ==> hex_value(#[trigger] bs[k]) is Some,
    ensures
        first_non_hex(bs, i) == first_non_hex(bs, j),
    decreases j - i,
{
    if i < j {
        lemma_first_non_hex(bs, i + 1, j);
    }
}

fn hex_digit(digit: u8) -> (r: Option<u8>)
    ensures
        r == hex_value(digit),
{
    if 48 <= digit && digit <= 57 {
        Some(digit - 48)
    } else if 97 <= digit && digit <= 102 {
        Some(digit - 87)
    } else {
        None
    }
}

fn hex_char(n: u8) -> (c: char)
    requires
        n < 16,
    ensures
        c == hex_digit_char(n as int),
{
    if n < 10 {
        (48 + n) as char
    } else {
        (87 + n) as char
    }
}

/// Decodes hexadecimal digit bytes: `Err` carries the first byte that is
/// not a lowercase digit.
fn decode_hex(bytes: &[u8]) -> (r: Result<Vec<u8>, u8>)
    requires
        bytes@.len() % 2 == 0,
    ensures
        match spec_from_hex(bytes@) {
            Ok(v) => r matches Ok(out) && out@ == v,
            Err(b) => r == Err::<Vec<u8>, u8>(b),
        },
{
    let ghost bs = bytes@;
    let mut out: Vec<u8> = Vec::new();
    let mut k: usize = 0;
    while k < bytes.len() / 2
        invariant
            bs == bytes@,
            bs.len() % 2 == 0,
            k <= bs.len() / 2,
            forall|j: int| 0 <= j < 2 * k ==> hex_value(#[trigger] bs[j]) is Some,
            out@ =~= hex_pairs(bs).take(k as int),
        decreases bytes.len() / 2 - k,
    {
        let high = match hex_digit(bytes[2 * k]) {
            Some(h) => h,
            None => {
                proof {
                    lemma_first_non_hex(bs, 0, 2 * k as int);
                }
                return Err(bytes[2 * k]);
            },
        };
        let low = match hex_digit(bytes[2 * k + 1]) {
            Some(l) => l,
            None => {
                proof {
                    lemma_first_non_hex(bs, 0, 2 * k + 1);
                }
                return Err(bytes[2 * k + 1]);
            },
        };
        out.push(high * 16 + low);
        proof {
            assert(hex_pairs(bs)[k as int] == high * 16 + low);
            assert(out@ =~= hex_pairs(bs).take(k + 1));
        }
        k = k + 1;
    }
    proof {
        lemma_first_non_hex(bs, 0, bs.len() as int);
        assert(hex_pairs(bs).take(k as int) =~= hex_pairs(bs));
    }
    Ok(out)
}

/// Appends two lowercase hexadecimal digits per byte.
fn push_hex(s: &mut String, bytes: &[u8])
    ensures
        final(s)@ == old(s)@ + hex_text(bytes@),
{
    let mut k: usize = 0;
    while k < bytes.len()
        invariant
            k <= bytes.len(),
            s@ == old(s)@ + hex_text(bytes@.take(k as int)),
        decreases bytes.len() - k,
    {
        let b = bytes[k];
        push_char(s, hex_char(b / 16));
        push_char(s, hex_char(b % 16));
        proof {
            assert(bytes@.take(k + 1).drop_last() =~= bytes@.take(k as int));
            assert(hex_text(bytes@.take(k + 1)) == hex_text(bytes@.take(k as int)) + seq![
                hex_digit_char((b / 16) as int),
                hex_digit_char((b % 16) as int),
            ]);
        }
        k = k + 1;
    }
    proof {
        assert(bytes@.take(bytes@.len() as int) =~= bytes@);
    }
}

/// The error message for a digit byte that is not lowercase hexadecimal.
fn non_hex_message(lead: &str, byte: u8) -> (r: String)
    ensures
        r@ == lead@ + decimal(byte as nat),
{
    let mut s = text_of(lead);
    push_decimal(&mut s, byte as u64);
    s
}

/// A byte sequence, written as lowercase hexadecimal text.
#[derive(Clone, Debug, PartialEq, Eq, PartialOrd, Ord, Hash)]
pub struct ByteSequence(Vec<u8>);

impl View for ByteSequence {
    type V = Seq<u8>;

    closed spec fn view(&self) -> Seq<u8> {
        self.0@
    }
}

/// The decode result of text that should hold hexadecimal digits: `None`
/// for an odd number of digit bytes or a byte that is not one.
pub open spec fn hex_content(text: Seq<char>) -> Option<Seq<u8>> {
    let bs = crate::bytes::utf8_bytes(text);
    if bs.len() % 2 != 0 {
        None
    } else {
        match spec_from_hex(bs) {
            Ok(v) => Some(v),
            Err(_) => None,
        }
    }
}

/// The UTF-8 bytes of a text.
pub open spec fn utf8_bytes(text: Seq<char>) -> Seq<u8> {
    vstd::utf8::encode_utf8(text)
}

impl ByteSequence {
    pub fn new(payload: Vec<u8>) -> (r: ByteSequence)
        ensures
            r@ == payload@,
    {
        ByteSequence(payload)
    }

    pub fn payload(&self) -> (r: &[u8])
        ensures
            r@ == self@,
    {
        self.0.as_slice()
    }

    pub fn into_payload(self) -> (r: Vec<u8>)
        ensures
            r@ == self@,
    {
        self.0
    }

    /// The bytes that lowercase hexadecimal text spells, two digits per byte.
    pub fn from_hex(text: &str) -> (r: Result<ByteSequence, DotosDecodeError>)
        ensures
            utf8_bytes(text@).len() % 2 != 0 ==> (r matches Err(DotosDecodeError::Parse(m)) && m@
                == "byte sequence hex literal has odd length: "@ + text@),
            utf8_bytes(text@).len() % 2 == 0 ==> match spec_from_hex(utf8_bytes(text@)) {
                Ok(v) => r matches Ok(b) && b@ == v,
                Err(byte) => r matches Err(DotosDecodeError::Parse(m)) && m@
                    == "byte sequence hex literal has a non-hex digit: "@ + decimal(byte as nat),
            },
    {
        let bytes = text.as_bytes();
        if bytes.len() % 2 != 0 {
            let mut m = text_of("byte sequence hex literal has odd length: ");
            push_str(&mut m, text);
            return Err(DotosDecodeError::Parse(m));
        }
        match decode_hex(bytes) {
            Ok(out) => Ok(ByteSequence(out)),
            Err(byte) => Err(
                DotosDecodeError::Parse(
                    non_hex_message("byte sequence hex literal has a non-hex digit: ", byte),
                ),
            ),
        }
    }
}

impl From<Vec<u8>> for ByteSequence {
    fn from(payload: Vec<u8>) -> (r: ByteSequence)
        ensures
            r@ == payload@,
    {
        ByteSequence(payload)
    }
}

impl vstd::std_specs::convert::FromSpecImpl<Vec<u8>> for ByteSequence {
    open spec fn obeys_from_spec() -> bool {
        true
    }

    closed spec fn from_spec(payload: Vec<u8>) -> ByteSequence {
        ByteSequence(payload)
    }
}

impl DotosDecode for ByteSequence {
    open spec fn decoding_known() -> bool {
        true
    }

    open spec fn decodes_to(block: BlockModel, value: Self) -> bool {
        match spec_decode_string(block) {
            Some(t) => hex_content(t) == Some(value@),
            None => false,
        }
    }

    open spec fn rejects(block: BlockModel) -> bool {
        match spec_decode_string(block) {
            Some(t) => hex_content(t) is None,
            None => true,
        }
    }

    fn from_dotos_block(block: &Block) -> (r: Result<Self, DotosDecodeError>) {
        match DotosBlock::new(block).parse_string() {
            Ok(hex) => Self::from_hex(hex.as_str()),
            Err(e) => Err(e),
        }
    }
}

impl DotosEncode for ByteSequence {
    open spec fn encoding_known() -> bool {
        true
    }

    open spec fn encoding(&self) -> Seq<char> {
        spec_format_string(hex_text(self@))
    }

    fn to_dotos(&self) -> (r: String) {
        let mut hex = String::new();
        push_hex(&mut hex, self.0.as_slice());
        DotosString::new(hex.as_str()).format()
    }
}

/// `N` bytes.
pub type ByteArray<const N: usize> = [u8; N];

/// Wraps `<[u8; N]>::try_from` for a vector: it succeeds exactly when the
/// vector holds `N` bytes, and the array then holds those bytes in order.
#[verifier::external_body]
fn bytes_to_array<const N: usize>(bytes: Vec<u8>) -> (r: Option<ByteArray<N>>)
    ensures
        r is Some <==> bytes@.len() == N,
        r matches Some(a) ==> a@ == bytes@,
{
    match <[u8; N]>::try_from(bytes) {
        Ok(array) => Some(array),
        Err(_) => None,
    }
}

/// Appends the decimal numeral of twice `n`.
fn push_double_decimal(s: &mut String, n: usize)
    ensures
        final(s)@ == old(s)@ + decimal(2 * n as nat),
{
    push_wide_decimal(s, 2 * (n as u128));
}

/// A byte sequence of a fixed width, written as lowercase hexadecimal text.
#[derive(Clone, Debug, PartialEq, Eq, PartialOrd, Ord, Hash)]
pub struct FixedByteSequence<const WIDTH: usize>(ByteArray<WIDTH>);

impl<const WIDTH: usize> View for FixedByteSequence<WIDTH> {
    type V = Seq<u8>;

    closed spec fn view(&self) -> Seq<u8> {
        self.0@
    }
}

/// The decode result of text that should hold `2 * width` hexadecimal
/// digits.
pub open spec fn fixed_hex_content(text: Seq<char>, width: int) -> Option<Seq<u8>> {
    let bs = utf8_bytes(text);
    if bs.len() != 2 * width {
        None
    } else {
        match spec_from_hex(bs) {
            Ok(v) => Some(v),
            Err(_) => None,
        }
    }
}

impl<const WIDTH: usize> FixedByteSequence<WIDTH> {
    /// The sequence holds exactly `WIDTH` bytes.
    pub proof fn lemma_width(&self)
        ensures
            self@.len() == WIDTH,
    {
    }

    pub fn new(payload: ByteArray<WIDTH>) -> (r: FixedByteSequence<WIDTH>)
        ensures
            r@ == payload@,
    {
        FixedByteSequence(payload)
    }

    pub fn payload(&self) -> (r: &ByteArray<WIDTH>)
        ensures
            r@ == self@,
    {
        &self.0
    }

    pub fn into_payload(self) -> (r: ByteArray<WIDTH>)
        ensures
            r@ == self@,
    {
        self.0
    }

    /// The `WIDTH` bytes that lowercase hexadecimal text spells, two digits
    /// per byte.
    pub fn from_hex(text: &str) -> (r: Result<FixedByteSequence<WIDTH>, DotosDecodeError>)
        ensures
            utf8_bytes(text@).len() != 2 * WIDTH ==> (r matches Err(DotosDecodeError::Parse(m))
                && m@ == "fixed byte sequence expected "@ + decimal(2 * WIDTH as nat)
                + " hex digits, found "@ + decimal(utf8_bytes(text@).len())),
            utf8_bytes(text@).len() == 2 * WIDTH ==> match spec_from_hex(utf8_bytes(text@)) {
                Ok(v) => r matches Ok(b) && b@ == v,
                Err(byte) => r matches Err(DotosDecodeError::Parse(m)) && m@
                    == "fixed byte sequence hex literal has a non-hex digit: "@ + decimal(
                    byte as nat,
                ),
            },
    {
        let bytes = text.as_bytes();
        if bytes.len() % 2 != 0 || bytes.len() / 2 != WIDTH {
            let mut m = text_of("fixed byte sequence expected ");
            push_double_decimal(&mut m, WIDTH);
            push_str(&mut m, " hex digits, found ");
            push_decimal(&mut m, bytes.len() as u64);
            return Err(DotosDecodeError::Parse(m));
        }
        match decode_hex(bytes) {
            Ok(out) => match bytes_to_array::<WIDTH>(out) {
                Some(array) => Ok(FixedByteSequence(array)),
                None => Err(
                    DotosDecodeError::Parse(
                        text_of("fixed byte sequence expected a different width"),
                    ),
                ),
            },
            Err(byte) => Err(
                DotosDecodeError::Parse(
                    non_hex_message("fixed byte sequence hex literal has a non-hex digit: ", byte),
                ),
            ),
        }
    }
}

impl<const WIDTH: usize> From<ByteArray<WIDTH>> for FixedByteSequence<WIDTH> {
    fn from(payload: ByteArray<WIDTH>) -> (r: FixedByteSequence<WIDTH>)
        ensures
            r@ == payload@,
    {
        FixedByteSequence(payload)
    }
}

impl<const WIDTH: usize> vstd::std_specs::convert::FromSpecImpl<ByteArray<WIDTH>> for FixedByteSequence<WIDTH> {
    open spec fn obeys_from_spec() -> bool {
        true
    }

    closed spec fn from_spec(payload: ByteArray<WIDTH>) -> FixedByteSequence<WIDTH> {
        FixedByteSequence(payload)
    }
}

impl<const WIDTH: usize> DotosDecode for FixedByteSequence<WIDTH> {
    open spec fn decoding_known() -> bool {
        true
    }

    open spec fn decodes_to(block: BlockModel, value: Self) -> bool {
        match spec_decode_string(block) {
            Some(t) => fixed_hex_content(t, WIDTH as int) == Some(value@),
            None => false,
        }
    }

    open spec fn rejects(block: BlockModel) -> bool {
        match spec_decode_string(block) {
            Some(t) => fixed_hex_content(t, WIDTH as int) is None,
            None => true,
        }
    }

    fn from_dotos_block(block: &Block) -> (r: Result<Self, DotosDecodeError>) {
        match DotosBlock::new(block).parse_string() {
            Ok(hex) => Self::from_hex(hex.as_str()),
            Err(e) => Err(e),
        }
    }
}

impl<const WIDTH: usize> DotosEncode for FixedByteSequence<WIDTH> {
    open spec fn encoding_known() -> bool {
        true
    }

    open spec fn encoding(&self) -> Seq<char> {
        spec_format_string(hex_text(self@))
    }

    fn to_dotos(&self) -> (r: String) {
        let mut hex = String::new();
        push_hex(&mut hex, self.0.as_slice());
        DotosString::new(hex.as_str()).format()
    }
}

} // verus!
