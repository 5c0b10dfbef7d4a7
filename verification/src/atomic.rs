//! Integer, float, string, or blob.

use crate::batch::{lemma_padded, padded, Batch, Batched};
use crate::decode::{
    lemma_read_unit_units, spec_read_unit, Aligned4B, Decode, Decoded, Misaligned4B,
};
use crate::dynamic::Data;
use crate::into_osc::IntoOsc;
use crate::scan::{
    first_stop, lemma_field_layout, lemma_field_read, lemma_first_stop, lemma_first_stop_from,
    lemma_first_stop_is, lemma_next_unit, null_after, null_to_unit_end, ran_out, unit_end,
    whole_units, NUL,
};
use crate::stream::{ArrayStream, ByteStream, Chain, Once, SliceStream, VecStream};
use crate::tag::Tag;
use crate::text::{around, spec_escape};
use core::convert::Infallible;
use vstd::prelude::*;
use vstd::std_specs::convert::{FromSpecImpl, TryFromSpecImpl};
use vstd::string::{is_ascii_spec_bytes, StringExecFns};
use vstd::utf8::is_ascii_chars;

verus! {

/// Invalid data in conversion from Rust to OSC (e.g. a non-ASCII string).
#[derive(Clone, Copy, Debug, Eq, Hash, Ord, PartialEq, PartialOrd)]
pub enum InvalidContents {
    /// Non-ASCII character in a Rust string.
    NonAscii,
    /// Null byte in an otherwise normal ASCII string.
    NullInString,
}

/// Integer, float, string, or blob.
pub trait Atomic: Sized + View {
    /// Rust representation of this OSC type (e.g. `Integer` -> `i32`).
    type AsRust;

    /// Source of the OSC-formatted value, before it is padded.
    type Iter: ByteStream;

    /// The tag of a value of this type.
    spec fn spec_type_tag(value: Self::V) -> Tag;

    /// The wire form of a value of this type, padding included.
    spec fn spec_encode(value: Self::V) -> Seq<u8>;

    /// Whether a value has a wire form: the length of a blob must fit the
    /// signed 32-bit count that is written before it.
    spec fn spec_fits(value: Self::V) -> bool;

    /// The OSC value that a Rust value stands for.
    spec fn spec_rust(value: Self::AsRust) -> Self::V;

    /// Whether a Rust value can stand on the wire, and why not if it cannot.
    spec fn spec_check(value: Self::AsRust) -> Result<(), InvalidContents>;

    /// OSC type tag: a single character denoting this type.
    fn type_tag(&self) -> (tag: Tag)
        ensures
            tag == Self::spec_type_tag(self@),
    ;

    /// Convert from OSC to a value Rust can work with.
    fn into_rust(self) -> (value: Self::AsRust)
        ensures
            Self::spec_rust(value) == self@,
    ;

    /// Convert from Rust to a value OSC can work with. Fails if the data is
    /// invalid (e.g. a non-ASCII string).
    fn from_rust(value: Self::AsRust) -> (r: Result<Self, InvalidContents>)
        ensures
            match r {
                Ok(atomic) => Self::spec_check(value) is Ok && atomic@ == Self::spec_rust(value),
                Err(e) => Self::spec_check(value) == Err::<(), InvalidContents>(e),
            },
    ;

    /// Whether this value has a wire form.
    fn fits(&self) -> (fits: bool)
        ensures
            fits == Self::spec_fits(self@),
    ;

    /// The OSC-formatted value, byte by byte.
    fn into_iter(self) -> (bytes: Batched<Self::Iter>)
        requires
            Self::spec_fits(self@),
        ensures
            bytes.remaining() == Self::spec_encode(self@),
    ;

    /// The wire form of a value is a whole number of units.
    proof fn lemma_encode_aligned(value: Self::V)
        ensures
            Self::spec_encode(value).len() % 4 == 0,
    ;
}

/// The number that four bytes stand for when they are read from the most
/// significant to the least.
pub open spec fn be_value(bytes: Seq<u8>) -> int {
    bytes[0] * 0x100_0000 + bytes[1] * 0x1_0000 + bytes[2] * 0x100 + bytes[3]
}

/// The four bytes that stand for a number below 2^32, from the most
/// significant to the least.
pub open spec fn be_bytes(n: int) -> Seq<u8> {
    seq![
        (n / 0x100_0000) as u8,
        ((n / 0x1_0000) % 0x100) as u8,
        ((n / 0x100) % 0x100) as u8,
        (n % 0x100) as u8,
    ]
}

/// The signed number that a 32-bit pattern stands for in two's complement.
pub open spec fn signed(n: int) -> int {
    if n >= 0x8000_0000 {
        n - 0x1_0000_0000
    } else {
        n
    }
}

/// The 32-bit pattern that stands for a signed number in two's complement.
pub open spec fn unsigned(v: int) -> int {
    if v < 0 {
        v + 0x1_0000_0000
    } else {
        v
    }
}

/// Four bytes stand for a number below 2^32, and writing that number gives
/// the four bytes back.
pub proof fn lemma_be_bytes_of_value(bytes: Seq<u8>)
    requires
        bytes.len() == 4,
    ensures
        0 <= be_value(bytes) < 0x1_0000_0000,
        be_bytes(be_value(bytes)) == bytes,
{
    let n = be_value(bytes);
    let low = bytes[1] * 0x1_0000 + bytes[2] * 0x100 + bytes[3];
    assert(n == bytes[0] * 0x100_0000 + low);
    assert(0 <= low < 0x100_0000);
    assert(n / 0x100_0000 == bytes[0]);
    let mid = bytes[2] * 0x100 + bytes[3];
    assert(n == (bytes[0] * 0x100 + bytes[1]) * 0x1_0000 + mid);
    assert(0 <= mid < 0x1_0000);
    assert(n / 0x1_0000 == bytes[0] * 0x100 + bytes[1]);
    assert((n / 0x1_0000) % 0x100 == bytes[1]);
    assert(n == (bytes[0] * 0x1_0000 + bytes[1] * 0x100 + bytes[2]) * 0x100 + bytes[3]);
    assert(n / 0x100 == bytes[0] * 0x1_0000 + bytes[1] * 0x100 + bytes[2]);
    assert((n / 0x100) % 0x100 == bytes[2]);
    assert(n % 0x100 == bytes[3]);
    assert(be_bytes(n) =~= bytes);
}

/// A number below 2^32 is written as four bytes, and reading them gives the
/// number back.
pub proof fn lemma_be_value_of_bytes(n: int)
    requires
        0 <= n < 0x1_0000_0000,
    ensures
        be_bytes(n).len() == 4,
        be_value(be_bytes(n)) == n,
{
    let a = n / 0x100_0000;
    let b = (n / 0x1_0000) % 0x100;
    let c = (n / 0x100) % 0x100;
    let d = n % 0x100;
    assert(0 <= a < 0x100);
    assert(n == (n / 0x100) * 0x100 + d);
    assert(n / 0x100 == (n / 0x1_0000) * 0x100 + c);
    assert(n / 0x1_0000 == a * 0x100 + b);
}

/// Writes a number as four bytes, from the most significant to the least.
fn to_be_bytes(n: u32) -> (bytes: [u8; 4])
    ensures
        bytes@ == be_bytes(n as int),
{
    let bytes = [
        (n / 0x100_0000) as u8,
        ((n / 0x1_0000) % 0x100) as u8,
        ((n / 0x100) % 0x100) as u8,
        (n % 0x100) as u8,
    ];
    assert(bytes@ =~= be_bytes(n as int));
    bytes
}

/// Reads four bytes as a number, from the most significant to the least.
fn from_be_bytes(bytes: &[u8; 4]) -> (n: u32)
    ensures
        n == be_value(bytes@),
{
    (bytes[0] as u32) * 0x100_0000 + (bytes[1] as u32) * 0x1_0000 + (bytes[2] as u32) * 0x100
        + (bytes[3] as u32)
}

/// 32-bit big-endian signed two's-complement integer.
#[derive(Clone, Copy, Debug, Default, Eq, Hash, Ord, PartialEq, PartialOrd)]
pub struct Integer([u8; 4]);

/// 32-bit big-endian IEEE 754 floating-point number.
#[derive(Clone, Copy, Debug, Default, Eq, Hash, Ord, PartialEq, PartialOrd)]
pub struct Float([u8; 4]);

impl View for Integer {
    type V = int;

    /// The number that this integer stands for.
    closed spec fn view(&self) -> int {
        signed(be_value(self.0@))
    }
}

impl View for Float {
    type V = int;

    /// The IEEE 754 bit pattern of this number, as a number below 2^32.
    closed spec fn view(&self) -> int {
        be_value(self.0@)
    }
}

/// The wire form of an integer: its two's-complement pattern, the most
/// significant byte first.
pub open spec fn spec_encode_integer(v: int) -> Seq<u8> {
    be_bytes(unsigned(v))
}

/// The wire form of a float: its IEEE 754 bit pattern, the most significant
/// byte first.
pub open spec fn spec_encode_float(bits: int) -> Seq<u8> {
    be_bytes(bits)
}

impl Integer {
    /// The OSC integer that stands for `value`.
    pub fn new(value: i32) -> (integer: Self)
        ensures
            integer@ == value,
    {
        let n: u32 = if value < 0 {
            ((value - i32::MIN) as u32) + 0x8000_0000
        } else {
            value as u32
        };
        proof {
            lemma_be_value_of_bytes(n as int);
        }
        Integer(to_be_bytes(n))
    }

    /// The number that this OSC integer stands for.
    pub fn value(&self) -> (value: i32)
        ensures
            value == self@,
    {
        let n = from_be_bytes(&self.0);
        proof {
            lemma_be_bytes_of_value(self.0@);
        }
        if n >= 0x8000_0000 {
            ((n - 0x8000_0000) as i32) + i32::MIN
        } else {
            n as i32
        }
    }

    /// The OSC integer that is written as `bytes`.
    pub fn from_be_bytes(bytes: [u8; 4]) -> (integer: Self)
        ensures
            integer@ == signed(be_value(bytes@)),
    {
        Integer(bytes)
    }

    /// An integer stands for a number that fits 32 bits.
    pub proof fn lemma_range(&self)
        ensures
            -0x8000_0000 <= self@ < 0x8000_0000,
    {
        lemma_be_bytes_of_value(self.0@);
    }
}

impl Float {
    /// The OSC float with the IEEE 754 bit pattern `bits`.
    pub fn from_bits(bits: u32) -> (float: Self)
        ensures
            float@ == bits,
    {
        proof {
            lemma_be_value_of_bytes(bits as int);
        }
        Float(to_be_bytes(bits))
    }

    /// The IEEE 754 bit pattern of this OSC float.
    pub fn to_bits(&self) -> (bits: u32)
        ensures
            bits == self@,
    {
        from_be_bytes(&self.0)
    }

    /// The OSC float that is written as `bytes`.
    pub fn from_be_bytes(bytes: [u8; 4]) -> (float: Self)
        ensures
            float@ == be_value(bytes@),
    {
        Float(bytes)
    }

    /// A float stands for a pattern of 32 bits.
    pub proof fn lemma_range(&self)
        ensures
            0 <= self@ < 0x1_0000_0000,
    {
        lemma_be_bytes_of_value(self.0@);
    }
}

impl Atomic for Integer {
    type AsRust = i32;

    type Iter = ArrayStream<4>;

    open spec fn spec_type_tag(value: int) -> Tag {
        Tag::Integer
    }

    open spec fn spec_encode(value: int) -> Seq<u8> {
        spec_encode_integer(value)
    }

    open spec fn spec_fits(value: int) -> bool {
        true
    }

    open spec fn spec_rust(value: i32) -> int {
        value as int
    }

    open spec fn spec_check(value: i32) -> Result<(), InvalidContents> {
        Ok(())
    }

    fn type_tag(&self) -> (tag: Tag) {
        Tag::Integer
    }

    fn into_rust(self) -> (value: i32) {
        self.value()
    }

    fn from_rust(value: i32) -> (r: Result<Self, InvalidContents>) {
        Ok(Integer::new(value))
    }

    fn fits(&self) -> (fits: bool) {
        true
    }

    fn into_iter(self) -> (bytes: Batched<ArrayStream<4>>) {
        proof {
            lemma_be_bytes_of_value(self.0@);
            lemma_padded(self.0@);
        }
        ArrayStream::new(self.0).batch()
    }

    proof fn lemma_encode_aligned(value: int) {
    }
}

impl Atomic for Float {
    type AsRust = Float;

    type Iter = ArrayStream<4>;

    open spec fn spec_type_tag(value: int) -> Tag {
        Tag::Float
    }

    open spec fn spec_encode(value: int) -> Seq<u8> {
        spec_encode_float(value)
    }

    open spec fn spec_fits(value: int) -> bool {
        true
    }

    open spec fn spec_rust(value: Float) -> int {
        value@
    }

    open spec fn spec_check(value: Float) -> Result<(), InvalidContents> {
        Ok(())
    }

    fn type_tag(&self) -> (tag: Tag) {
        Tag::Float
    }

    fn into_rust(self) -> (value: Float) {
        self
    }

    fn from_rust(value: Float) -> (r: Result<Self, InvalidContents>) {
        Ok(value)
    }

    fn fits(&self) -> (fits: bool) {
        true
    }

    fn into_iter(self) -> (bytes: Batched<ArrayStream<4>>) {
        proof {
            lemma_be_bytes_of_value(self.0@);
            lemma_padded(self.0@);
        }
        ArrayStream::new(self.0).batch()
    }

    proof fn lemma_encode_aligned(value: int) {
    }
}

/// What decoding an integer makes of `input`: the number that its first unit
/// stands for in two's complement.
pub open spec fn spec_decode_integer(input: Seq<u8>) -> Decoded<int, Infallible> {
    let unit = spec_read_unit::<Infallible>(input);
    Decoded {
        result: match unit.result {
            Ok(bytes) => Ok(signed(be_value(bytes))),
            Err(e) => Err(e),
        },
        rest: unit.rest,
    }
}

/// What decoding a float makes of `input`: the bit pattern that its first
/// unit holds.
pub open spec fn spec_decode_float(input: Seq<u8>) -> Decoded<int, Infallible> {
    let unit = spec_read_unit::<Infallible>(input);
    Decoded {
        result: match unit.result {
            Ok(bytes) => Ok(be_value(bytes)),
            Err(e) => Err(e),
        },
        rest: unit.rest,
    }
}

impl Decode for Integer {
    type Error = Infallible;

    open spec fn spec_decode(input: Seq<u8>) -> Decoded<int, Infallible> {
        spec_decode_integer(input)
    }

    fn decode<S: ByteStream>(iter: &mut S) -> (r: Result<Self, Misaligned4B<Infallible>>) {
        match Aligned4B::<Infallible>::decode(iter) {
            Ok(unit) => {
                let integer = Integer(unit.into_iter());
                Ok(integer)
            },
            Err(e) => Err(e),
        }
    }

    proof fn lemma_units(input: Seq<u8>) {
        lemma_read_unit_units::<Infallible>(input);
    }
}

impl Decode for Float {
    type Error = Infallible;

    open spec fn spec_decode(input: Seq<u8>) -> Decoded<int, Infallible> {
        spec_decode_float(input)
    }

    fn decode<S: ByteStream>(iter: &mut S) -> (r: Result<Self, Misaligned4B<Infallible>>) {
        match Aligned4B::<Infallible>::decode(iter) {
            Ok(unit) => {
                let float = Float(unit.into_iter());
                Ok(float)
            },
            Err(e) => Err(e),
        }
    }

    proof fn lemma_units(input: Seq<u8>) {
        lemma_read_unit_units::<Infallible>(input);
    }
}

/// An integer that is encoded and decoded again comes back as it was, and
/// what followed it on the wire is left unread. So does a float.
pub proof fn lemma_number_round_trip(v: int, bits: int, tail: Seq<u8>)
    ensures
        -0x8000_0000 <= v < 0x8000_0000 ==> spec_decode_integer(spec_encode_integer(v) + tail)
            == (Decoded { result: Ok::<int, Misaligned4B<Infallible>>(v), rest: tail }),
        0 <= bits < 0x1_0000_0000 ==> spec_decode_float(spec_encode_float(bits) + tail)
            == (Decoded { result: Ok::<int, Misaligned4B<Infallible>>(bits), rest: tail }),
{
    if -0x8000_0000 <= v < 0x8000_0000 {
        let e = spec_encode_integer(v);
        lemma_be_value_of_bytes(unsigned(v));
        assert((e + tail).take(4) =~= e);
        assert((e + tail).skip(4) =~= tail);
    }
    if 0 <= bits < 0x1_0000_0000 {
        let e = spec_encode_float(bits);
        lemma_be_value_of_bytes(bits);
        assert((e + tail).take(4) =~= e);
        assert((e + tail).skip(4) =~= tail);
    }
}

/// The bytes that stand for ASCII characters on the wire, one for each.
pub open spec fn ascii_bytes(chars: Seq<char>) -> Seq<u8> {
    Seq::new(chars.len(), |i: int| chars[i] as u8)
}

/// The ASCII characters that bytes of the wire stand for, one for each.
pub open spec fn ascii_chars(bytes: Seq<u8>) -> Seq<char> {
    Seq::new(bytes.len(), |i: int| bytes[i] as char)
}

/// A text of ASCII characters with one more byte below 128 at its end is a
/// text of ASCII characters, whose bytes are those of the text and that
/// byte. Where the text held no null character and the byte is not null,
/// it holds none still.
pub proof fn lemma_push_ascii(chars: Seq<char>, b: u8)
    requires
        is_ascii_chars(chars),
        b < 128,
    ensures
        is_ascii_chars(chars.push(b as char)),
        ascii_bytes(chars.push(b as char)) == ascii_bytes(chars).push(b),
        !chars.contains('\0') && b != 0 ==> !chars.push(b as char).contains('\0'),
{
    let longer = chars.push(b as char);
    assert forall|k: int| 0 <= k < longer.len() implies '\0' <= #[trigger] longer[k]
        <= '\u{7f}' by {
        if k < chars.len() {
            assert(longer[k] == chars[k]);
        }
    }
    assert(ascii_bytes(longer) =~= ascii_bytes(chars).push(b));
    if !chars.contains('\0') && b != 0 && longer.contains('\0') {
        let k = choose|k: int| 0 <= k < longer.len() && longer[k] == '\0';
        if k < chars.len() {
            assert(chars[k] == '\0');
            assert(chars.contains('\0'));
        }
    }
}

/// Whether a Rust string can be an OSC string, and why not if it cannot: it
/// must hold ASCII characters only, and none of them null.
pub open spec fn spec_check_string(chars: Seq<char>) -> Result<(), InvalidContents> {
    if !is_ascii_chars(chars) {
        Err(InvalidContents::NonAscii)
    } else if chars.contains('\0') {
        Err(InvalidContents::NullInString)
    } else {
        Ok(())
    }
}

/// The wire form of a string: its characters, a null byte, and null bytes
/// up to a multiple of four.
pub open spec fn spec_encode_string(chars: Seq<char>) -> Seq<u8> {
    padded(ascii_bytes(chars) + seq![NUL])
}

/// Tests a Rust string as `spec_check_string` says.
fn check_string(value: &str) -> (r: Result<(), InvalidContents>)
    ensures
        r == spec_check_string(value@),
{
    if !value.is_ascii() {
        return Err(InvalidContents::NonAscii);
    }
    let bytes = value.as_bytes();
    proof {
        is_ascii_spec_bytes(value);
    }
    let mut i: usize = 0;
    while i < bytes.len()
        invariant
            i <= bytes@.len(),
            bytes@ == ascii_bytes(value@),
            is_ascii_chars(value@),
            forall|k: int| 0 <= k < i ==> value@[k] != '\0',
        decreases bytes@.len() - i,
    {
        if bytes[i] == NUL {
            assert(value@[i as int] == '\0');
            return Err(InvalidContents::NullInString);
        }
        i = i + 1;
    }
    Ok(())
}

/// Null-terminated (not your responsibility!) byte string.
#[derive(Clone, Copy, Debug, Default, Eq, Hash, Ord, PartialEq, PartialOrd)]
pub struct String<'s>(&'s str);

/// Null-terminated (not your responsibility!) byte string.
#[derive(Debug, Default, Eq, Hash, Ord, PartialEq, PartialOrd)]
pub struct DynamicString(std::string::String);

impl Clone for DynamicString {
    fn clone(&self) -> (copy: Self)
        ensures
            copy@ == self@,
    {
        proof {
            use_type_invariant(self);
        }
        DynamicString(self.0.clone())
    }
}

impl<'s> View for String<'s> {
    type V = Seq<char>;

    closed spec fn view(&self) -> Seq<char> {
        self.0@
    }
}

impl View for DynamicString {
    type V = Seq<char>;

    closed spec fn view(&self) -> Seq<char> {
        self.0@
    }
}

impl<'s> String<'s> {
    #[verifier::type_invariant]
    spec fn valid(self) -> bool {
        spec_check_string(self.0@) is Ok
    }
}

impl DynamicString {
    #[verifier::type_invariant]
    spec fn valid(self) -> bool {
        spec_check_string(self.0@) is Ok
    }

    /// The OSC string of a text that is known to be valid.
    pub(crate) fn from_checked(text: std::string::String) -> (string: Self)
        requires
            spec_check_string(text@) is Ok,
        ensures
            string@ == text@,
    {
        DynamicString(text)
    }
}

impl<'s> Atomic for String<'s> {
    type AsRust = &'s str;

    type Iter = Chain<SliceStream<'s>, Once>;

    open spec fn spec_type_tag(value: Seq<char>) -> Tag {
        Tag::String
    }

    open spec fn spec_encode(value: Seq<char>) -> Seq<u8> {
        spec_encode_string(value)
    }

    open spec fn spec_fits(value: Seq<char>) -> bool {
        true
    }

    open spec fn spec_rust(value: &'s str) -> Seq<char> {
        value@
    }

    open spec fn spec_check(value: &'s str) -> Result<(), InvalidContents> {
        spec_check_string(value@)
    }

    fn type_tag(&self) -> (tag: Tag) {
        Tag::String
    }

    fn into_rust(self) -> (value: &'s str)
        ensures
            spec_check_string(value@) is Ok,
    {
        proof {
            use_type_invariant(&self);
        }
        self.0
    }

    fn from_rust(value: &'s str) -> (r: Result<Self, InvalidContents>) {
        match check_string(value) {
            Ok(()) => Ok(String(value)),
            Err(e) => Err(e),
        }
    }

    fn fits(&self) -> (fits: bool) {
        true
    }

    fn into_iter(self) -> (bytes: Batched<Chain<SliceStream<'s>, Once>>) {
        proof {
            use_type_invariant(&self);
            is_ascii_spec_bytes(self.0);
        }
        Chain::new(SliceStream::new(self.0.as_bytes()), Once::new(NUL)).batch()
    }

    proof fn lemma_encode_aligned(value: Seq<char>) {
        lemma_padded(ascii_bytes(value) + seq![NUL]);
    }
}

impl Atomic for DynamicString {
    type AsRust = std::string::String;

    type Iter = Chain<VecStream, Once>;

    open spec fn spec_type_tag(value: Seq<char>) -> Tag {
        Tag::String
    }

    open spec fn spec_encode(value: Seq<char>) -> Seq<u8> {
        spec_encode_string(value)
    }

    open spec fn spec_fits(value: Seq<char>) -> bool {
        true
    }

    open spec fn spec_rust(value: std::string::String) -> Seq<char> {
        value@
    }

    open spec fn spec_check(value: std::string::String) -> Result<(), InvalidContents> {
        spec_check_string(value@)
    }

    fn type_tag(&self) -> (tag: Tag) {
        assert(Self::spec_type_tag(self@) == Tag::String);
        Tag::String
    }

    fn into_rust(self) -> (value: std::string::String)
        ensures
            spec_check_string(value@) is Ok,
    {
        proof {
            use_type_invariant(&self);
        }
        self.0
    }

    fn from_rust(value: std::string::String) -> (r: Result<Self, InvalidContents>) {
        match check_string(value.as_str()) {
            Ok(()) => Ok(DynamicString(value)),
            Err(e) => Err(e),
        }
    }

    fn fits(&self) -> (fits: bool) {
        true
    }

    fn into_iter(self) -> (bytes: Batched<Chain<VecStream, Once>>) {
        let text = self.0.as_str();
        proof {
            use_type_invariant(&self);
            is_ascii_spec_bytes(text);
        }
        let content = text.as_bytes_vec();
        Chain::new(VecStream::new(content), Once::new(NUL)).batch()
    }

    proof fn lemma_encode_aligned(value: Seq<char>) {
        lemma_padded(ascii_bytes(value) + seq![NUL]);
    }
}

/// Any possible error while decoding an OSC string.
#[derive(Clone, Copy, Debug, Eq, Hash, Ord, PartialEq, PartialOrd)]
pub enum StringDecodeErr {
    /// Not an ASCII character.
    NonAscii(u8),
    /// Returned a null terminator then the rest of the 4-byte chunk was not null.
    NullThenNonNull,
}

/// A byte at which the reading of a string stops: the null byte, or a byte
/// that is no ASCII character.
pub open spec fn string_stop() -> spec_fn(Seq<u8>, int) -> bool {
    |s: Seq<u8>, i: int| s[i] == NUL || s[i] >= 128
}

/// What the reading of a string makes of a stop at index `j` of the whole
/// units `whole`: the characters before a null byte that only null bytes
/// follow in its unit, or the reason there is no string.
pub open spec fn string_at_stop(whole: Seq<u8>, j: int) -> Result<
    Seq<char>,
    Misaligned4B<StringDecodeErr>,
> {
    if whole[j] != NUL {
        Err(Misaligned4B::Other(StringDecodeErr::NonAscii(whole[j])))
    } else if !null_to_unit_end(whole, j) {
        Err(Misaligned4B::Other(StringDecodeErr::NullThenNonNull))
    } else {
        Ok(ascii_chars(whole.subrange(0, j)))
    }
}

/// What decoding a string makes of `input`.
///
/// The bytes of the whole units are read in order up to the first that is
/// null or no ASCII character. A null byte ends the string, and the rest of
/// its unit must be null.
pub open spec fn spec_decode_string(input: Seq<u8>) -> Decoded<Seq<char>, StringDecodeErr> {
    let whole = whole_units(input);
    let j = first_stop(whole, 0, string_stop());
    if j >= whole.len() {
        ran_out(input)
    } else {
        Decoded { result: string_at_stop(whole, j), rest: input.skip(unit_end(j)) }
    }
}

/// `String::push` of the standard library: appends the character `c` to the
/// end of `text`.
#[verifier::external_body]
pub(crate) fn push_char(text: &mut std::string::String, c: char)
    ensures
        final(text)@ == old(text)@.push(c),
{
    text.push(c)
}

/// Reads the bytes of `unit`, adding to `text` the character of each byte
/// before the first stop. Says `None` where the unit holds no stop, and else
/// what the stop makes of the string.
fn parse_string_bytes(
    unit: &Aligned4B<StringDecodeErr>,
    text: &mut std::string::String,
    Ghost(whole): Ghost<Seq<u8>>,
    Ghost(base): Ghost<int>,
) -> (r: Option<Result<(), Misaligned4B<StringDecodeErr>>>)
    requires
        0 <= base,
        base % 4 == 0,
        base + 4 <= whole.len(),
        unit@ == whole.subrange(base, base + 4),
        first_stop(whole, 0, string_stop()) == first_stop(whole, base, string_stop()),
        old(text)@ == ascii_chars(whole.subrange(0, base)),
        spec_check_string(old(text)@) is Ok,
    ensures
        match r {
            None => {
                &&& first_stop(whole, 0, string_stop()) == first_stop(
                    whole,
                    base + 4,
                    string_stop(),
                )
                &&& final(text)@ == ascii_chars(whole.subrange(0, base + 4))
                &&& spec_check_string(final(text)@) is Ok
            },
            Some(outcome) => {
                let j = first_stop(whole, 0, string_stop());
                &&& base <= j < base + 4
                &&& match outcome {
                    Ok(()) => Ok(final(text)@),
                    Err(e) => Err(e),
                } == string_at_stop(whole, j)
                &&& outcome is Ok ==> spec_check_string(final(text)@) is Ok
            },
        },
{
    let bytes = unit.into_iter();
    let mut k: usize = 0;
    while k < 4
        invariant
            k <= 4,
            0 <= base,
            base % 4 == 0,
            base + 4 <= whole.len(),
            bytes@ == whole.subrange(base, base + 4),
            first_stop(whole, 0, string_stop()) == first_stop(whole, base + k, string_stop()),
            text@ == ascii_chars(whole.subrange(0, base + k)),
            spec_check_string(text@) is Ok,
        decreases 4 - k,
    {
        let b = bytes[k];
        assert(b == whole[base + k]) by {
            assert(bytes@[k as int] == whole.subrange(base, base + 4)[k as int]);
        }
        assert(string_stop()(whole, base + k) ==> first_stop(whole, base + k, string_stop())
            == base + k);
        if b == NUL {
            return if null_after(&bytes, k, Ghost(whole), Ghost(base)) {
                Some(Ok(()))
            } else {
                Some(Err(Misaligned4B::Other(StringDecodeErr::NullThenNonNull)))
            };
        }
        if b >= 128 {
            return Some(Err(Misaligned4B::Other(StringDecodeErr::NonAscii(b))));
        }
        proof {
            lemma_push_ascii(text@, b);
        }
        push_char(text, b as char);
        proof {
            lemma_first_stop_from(whole, base + k, base + k + 1, string_stop());
            assert(whole.subrange(0, base + k + 1) =~= whole.subrange(0, base + k).push(b));
            assert(text@ =~= ascii_chars(whole.subrange(0, base + k + 1)));
        }
        k = k + 1;
    }
    None
}

impl Decode for DynamicString {
    type Error = StringDecodeErr;

    open spec fn spec_decode(input: Seq<u8>) -> Decoded<Seq<char>, StringDecodeErr> {
        spec_decode_string(input)
    }

    fn decode<S: ByteStream>(iter: &mut S) -> (r: Result<Self, Misaligned4B<StringDecodeErr>>) {
        let ghost input = iter.remaining();
        let ghost whole = whole_units(input);
        let mut text = std::string::String::new();
        let ghost mut n: int = 0;
        proof {
            assert(text@ =~= ascii_chars(whole.subrange(0, 0)));
        }
        loop
            invariant
                0 <= n,
                4 * n <= whole.len(),
                input == old(iter).remaining(),
                whole == whole_units(input),
                iter.remaining() == input.skip(4 * n),
                first_stop(whole, 0, string_stop()) == first_stop(whole, 4 * n, string_stop()),
                text@ == ascii_chars(whole.subrange(0, 4 * n)),
                spec_check_string(text@) is Ok,
            decreases iter.remaining().len(),
        {
            proof {
                lemma_next_unit::<Seq<char>, StringDecodeErr>(input, n, iter.remaining());
            }
            let unit = match Aligned4B::<StringDecodeErr>::decode(iter) {
                Ok(unit) => unit,
                Err(e) => {
                    proof {
                        assert(first_stop(whole, 4 * n, string_stop()) == whole.len());
                    }
                    return Err(e);
                },
            };
            match parse_string_bytes(&unit, &mut text, Ghost(whole), Ghost(4 * n)) {
                None => {},
                Some(Ok(())) => {
                    return Ok(DynamicString(text));
                },
                Some(Err(e)) => {
                    return Err(e);
                },
            }
            proof {
                n = n + 1;
            }
        }
    }

    proof fn lemma_units(input: Seq<u8>) {
        let whole = whole_units(input);
        let d = spec_decode_string(input);
        lemma_first_stop(whole, 0, string_stop());
        assert(d.rest =~= input.skip(input.len() - d.rest.len()));
    }
}

/// A valid string that is encoded and decoded again comes back as it was,
/// and what followed it on the wire is left unread.
pub proof fn lemma_string_round_trip(chars: Seq<char>, tail: Seq<u8>)
    requires
        spec_check_string(chars) is Ok,
    ensures
        spec_decode_string(spec_encode_string(chars) + tail).result == Ok::<
            Seq<char>,
            Misaligned4B<StringDecodeErr>,
        >(chars),
        spec_decode_string(spec_encode_string(chars) + tail).rest == tail,
{
    let body = ascii_bytes(chars);
    let input = spec_encode_string(chars) + tail;
    let whole = whole_units(input);
    lemma_field_layout(body, tail);
    assert forall|i: int| 0 <= i < body.len() implies !#[trigger] string_stop()(whole, i) by {
        assert(whole[i] == whole.subrange(0, body.len() as int)[i]);
        assert(whole[i] == chars[i] as u8);
        assert('\0' <= chars[i] <= '\u{7f}');
        if chars[i] == '\0' {
            assert(chars.contains('\0'));
        }
    }
    lemma_first_stop_is(whole, 0, body.len() as int, string_stop());
    assert(ascii_chars(whole.subrange(0, body.len() as int)) =~= chars) by {
        assert forall|i: int| 0 <= i < chars.len() implies ascii_chars(
            whole.subrange(0, body.len() as int),
        )[i] == chars[i] by {
            assert('\0' <= chars[i] <= '\u{7f}');
        }
    }
}

/// The wire form of a blob: the count of its bytes as a 32-bit integer, the
/// bytes, and null bytes up to a multiple of four.
pub open spec fn spec_encode_blob(content: Seq<u8>) -> Seq<u8> {
    padded(spec_encode_integer(content.len() as int) + content)
}

/// The greatest count of bytes that can be written before a blob.
pub const MAX_BLOB_LEN: usize = 0x7fff_ffff;

/// Arbitrary known-length collection of bytes.
#[derive(Clone, Copy, Debug, Default, Eq, Hash, Ord, PartialEq, PartialOrd)]
pub struct Blob<'b>(&'b [u8]);

/// Arbitrary known-length collection of bytes.
#[derive(Debug, Default, Eq, Hash, Ord, PartialEq, PartialOrd)]
pub struct DynamicBlob(Vec<u8>);

impl Clone for DynamicBlob {
    fn clone(&self) -> (copy: Self)
        ensures
            copy@ == self@,
    {
        let content = self.0.clone();
        assert(content@ =~= self.0@);
        DynamicBlob(content)
    }
}

impl<'b> View for Blob<'b> {
    type V = Seq<u8>;

    closed spec fn view(&self) -> Seq<u8> {
        self.0@
    }
}

impl View for DynamicBlob {
    type V = Seq<u8>;

    closed spec fn view(&self) -> Seq<u8> {
        self.0@
    }
}

/// The count of `len` bytes as it is written before a blob.
fn blob_prefix(len: usize) -> (prefix: [u8; 4])
    requires
        len <= MAX_BLOB_LEN,
    ensures
        prefix@ == spec_encode_integer(len as int),
{
    to_be_bytes(len as u32)
}

impl<'b> Atomic for Blob<'b> {
    type AsRust = &'b [u8];

    type Iter = Chain<ArrayStream<4>, SliceStream<'b>>;

    open spec fn spec_type_tag(value: Seq<u8>) -> Tag {
        Tag::Blob
    }

    open spec fn spec_encode(value: Seq<u8>) -> Seq<u8> {
        spec_encode_blob(value)
    }

    open spec fn spec_fits(value: Seq<u8>) -> bool {
        value.len() <= MAX_BLOB_LEN
    }

    open spec fn spec_rust(value: &'b [u8]) -> Seq<u8> {
        value@
    }

    open spec fn spec_check(value: &'b [u8]) -> Result<(), InvalidContents> {
        Ok(())
    }

    fn type_tag(&self) -> (tag: Tag) {
        Tag::Blob
    }

    fn into_rust(self) -> (value: &'b [u8]) {
        self.0
    }

    fn from_rust(value: &'b [u8]) -> (r: Result<Self, InvalidContents>) {
        Ok(Blob(value))
    }

    fn fits(&self) -> (fits: bool) {
        self.0.len() <= MAX_BLOB_LEN
    }

    fn into_iter(self) -> (bytes: Batched<Chain<ArrayStream<4>, SliceStream<'b>>>) {
        Chain::new(ArrayStream::new(blob_prefix(self.0.len())), SliceStream::new(self.0)).batch()
    }

    proof fn lemma_encode_aligned(value: Seq<u8>) {
        lemma_padded(spec_encode_integer(value.len() as int) + value);
    }
}

impl Atomic for DynamicBlob {
    type AsRust = Vec<u8>;

    type Iter = Chain<ArrayStream<4>, VecStream>;

    open spec fn spec_type_tag(value: Seq<u8>) -> Tag {
        Tag::Blob
    }

    open spec fn spec_encode(value: Seq<u8>) -> Seq<u8> {
        spec_encode_blob(value)
    }

    open spec fn spec_fits(value: Seq<u8>) -> bool {
        value.len() <= MAX_BLOB_LEN
    }

    open spec fn spec_rust(value: Vec<u8>) -> Seq<u8> {
        value@
    }

    open spec fn spec_check(value: Vec<u8>) -> Result<(), InvalidContents> {
        Ok(())
    }

    fn type_tag(&self) -> (tag: Tag) {
        assert(Self::spec_type_tag(self@) == Tag::Blob);
        Tag::Blob
    }

    fn into_rust(self) -> (value: Vec<u8>) {
        self.0
    }

    fn from_rust(value: Vec<u8>) -> (r: Result<Self, InvalidContents>) {
        Ok(DynamicBlob(value))
    }

    fn fits(&self) -> (fits: bool) {
        self.0.len() <= MAX_BLOB_LEN
    }

    fn into_iter(self) -> (bytes: Batched<Chain<ArrayStream<4>, VecStream>>) {
        let prefix = blob_prefix(self.0.len());
        Chain::new(ArrayStream::new(prefix), VecStream::new(self.0)).batch()
    }

    proof fn lemma_encode_aligned(value: Seq<u8>) {
        lemma_padded(spec_encode_integer(value.len() as int) + value);
    }
}

/// Any possible error while decoding an OSC blob.
#[derive(Clone, Copy, Debug, Eq, Hash, Ord, PartialEq, PartialOrd)]
pub enum BlobDecodeErr {
    /// The first bit of the OSC size is set, almost surely a misinterpretation.
    NegativeSize,
    /// Expected a null padding byte but found non-null.
    TooLong,
    /// Returned a null terminator then the rest of the 4-byte chunk was not null.
    NullThenNonNull,
}

/// How many bytes the units hold that a blob of `count` bytes is laid out
/// in: `count`, rounded up to a multiple of four.
pub open spec fn blob_span(count: int) -> int {
    4 * ((count + 3) / 4)
}

/// What decoding a blob makes of `input`.
///
/// The first unit holds the count of bytes as a signed integer, which must
/// not be negative. The units that the blob is laid out in follow, and all
/// that they hold is the blob, whether the count is a multiple of four or
/// not.
pub open spec fn spec_decode_blob(input: Seq<u8>) -> Decoded<Seq<u8>, BlobDecodeErr> {
    let count = signed(be_value(input.take(4)));
    if input.len() < 4 {
        ran_out(input)
    } else if count < 0 {
        Decoded {
            result: Err(Misaligned4B::Other(BlobDecodeErr::NegativeSize)),
            rest: input.skip(4),
        }
    } else if input.len() - 4 < blob_span(count) {
        ran_out(input)
    } else {
        Decoded {
            result: Ok(input.subrange(4, 4 + blob_span(count))),
            rest: input.skip(4 + blob_span(count)),
        }
    }
}

impl Decode for DynamicBlob {
    type Error = BlobDecodeErr;

    open spec fn spec_decode(input: Seq<u8>) -> Decoded<Seq<u8>, BlobDecodeErr> {
        spec_decode_blob(input)
    }

    fn decode<S: ByteStream>(iter: &mut S) -> (r: Result<Self, Misaligned4B<BlobDecodeErr>>) {
        let ghost input = iter.remaining();
        let first = match Aligned4B::<BlobDecodeErr>::decode(iter) {
            Ok(unit) => unit,
            Err(e) => {
                proof {
                    assert(iter.remaining() =~= Seq::<u8>::empty());
                }
                return Err(e);
            },
        };
        let size = Integer::from_be_bytes(first.into_iter()).value();
        if size < 0 {
            return Err(Misaligned4B::Other(BlobDecodeErr::NegativeSize));
        }
        let chunks: u32 = (size as u32 + 3) / 4;
        let mut v: Vec<u8> = Vec::new();
        let mut k: u32 = 0;
        proof {
            assert(v@ =~= input.subrange(4, 4));
        }
        while k < chunks
            invariant
                k <= chunks,
                input == old(iter).remaining(),
                input.len() >= 4,
                size == signed(be_value(input.take(4))),
                0 <= size,
                4 * chunks == blob_span(size as int),
                4 + 4 * k <= input.len(),
                iter.remaining() == input.skip(4 + 4 * k),
                v@ == input.subrange(4, 4 + 4 * k),
            decreases chunks - k,
        {
            let unit = match Aligned4B::<BlobDecodeErr>::decode(iter) {
                Ok(unit) => unit,
                Err(e) => {
                    proof {
                        assert(iter.remaining() =~= Seq::<u8>::empty());
                    }
                    return Err(e);
                },
            };
            v.push(unit.0);
            v.push(unit.1);
            v.push(unit.2);
            v.push(unit.3);
            proof {
                assert(unit@ == input.skip(4 + 4 * k).take(4));
                assert(v@ =~= input.subrange(4, 4 + 4 * (k + 1)));
                assert(iter.remaining() =~= input.skip(4 + 4 * (k + 1)));
            }
            k = k + 1;
        }
        Ok(DynamicBlob(v))
    }

    proof fn lemma_units(input: Seq<u8>) {
        let d = spec_decode_blob(input);
        assert(d.rest =~= input.skip(input.len() - d.rest.len()));
    }
}

/// A blob whose length is a multiple of four and fits the count before it
/// comes back as it was when it is encoded and decoded again, and what
/// followed it on the wire is left unread. A blob of any other length that
/// fits comes back with its padding at its end.
pub proof fn lemma_blob_round_trip(content: Seq<u8>, tail: Seq<u8>)
    requires
        content.len() <= MAX_BLOB_LEN,
    ensures
        spec_decode_blob(spec_encode_blob(content) + tail).result == Ok::<
            Seq<u8>,
            Misaligned4B<BlobDecodeErr>,
        >(padded(content)),
        spec_decode_blob(spec_encode_blob(content) + tail).rest == tail,
        content.len() % 4 == 0 ==> padded(content) == content,
{
    let prefix = spec_encode_integer(content.len() as int);
    let field = spec_encode_blob(content);
    let input = field + tail;
    lemma_be_value_of_bytes(content.len() as int);
    lemma_padded(content);
    assert(input.take(4) =~= prefix);
    assert(field =~= prefix + padded(content));
    assert(input.subrange(4, 4 + blob_span(content.len() as int)) =~= padded(content));
    assert(input.skip(4 + blob_span(content.len() as int)) =~= tail);
}

/// Rust types that map 1-to-1 to atomic OSC types.
pub trait IntoAtomic: crate::sealed::IntoAtomic + IntoOsc + Sized {
    /// The OSC type that directly corresponds to this Rust type.
    type AsAtomic: Atomic<AsRust = Self>;

    /// Convert directly into the OSC representation of this Rust type.
    /// Fails if the data is invalid (e.g. a non-ASCII string).
    fn into_atomic(self) -> (r: Result<Self::AsAtomic, InvalidContents>)
        ensures
            match r {
                Ok(atomic) => Self::AsAtomic::spec_check(self) is Ok && atomic@
                    == Self::AsAtomic::spec_rust(self),
                Err(e) => Self::AsAtomic::spec_check(self) == Err::<(), InvalidContents>(e),
            },
    {
        Self::AsAtomic::from_rust(self)
    }
}

impl IntoAtomic for i32 {
    type AsAtomic = Integer;
}

impl IntoAtomic for Float {
    type AsAtomic = Float;
}

impl<'s> IntoAtomic for &'s str {
    type AsAtomic = String<'s>;
}

impl<'b> IntoAtomic for &'b [u8] {
    type AsAtomic = Blob<'b>;
}

impl IntoAtomic for Data {
    type AsAtomic = Data;
}

impl IntoAtomic for std::string::String {
    type AsAtomic = DynamicString;
}

impl IntoAtomic for Vec<u8> {
    type AsAtomic = DynamicBlob;
}

impl StringDecodeErr {
    /// The message that describes this error.
    pub open spec fn spec_message(&self) -> Seq<char> {
        match self {
            StringDecodeErr::NonAscii(c) => {
                "Matched a non-ASCII character in an alleged OSC string: '"@
                    + spec_escape(*c) + "'."@
            },
            StringDecodeErr::NullThenNonNull => {
                "Matched a string's null terminator, but the following padding bytes were non-null."@
            },
        }
    }

    /// The message that describes this error.
    pub fn to_string(&self) -> (text: std::string::String)
        ensures
            text@ == self.spec_message(),
    {
        match self {
            StringDecodeErr::NonAscii(c) => around(
                "Matched a non-ASCII character in an alleged OSC string: '",
                *c,
                "'.",
            ),
            StringDecodeErr::NullThenNonNull => std::string::String::from_str(
                "Matched a string's null terminator, but the following padding bytes were non-null.",
            ),
        }
    }
}

impl BlobDecodeErr {
    /// The message that describes this error.
    pub open spec fn spec_message(&self) -> Seq<char> {
        match self {
            BlobDecodeErr::NegativeSize => {
                "OSC blob size is negative. This is almost surely a result of an earlier error that offset bytes and interpreted something else as the size."@
            },
            BlobDecodeErr::TooLong => {
                "OSC blob longer than claimed: expected a null padding byte but found non-null."@
            },
            BlobDecodeErr::NullThenNonNull => {
                "Matched a string's null terminator, but the following padding bytes were non-null."@
            },
        }
    }

    /// The message that describes this error.
    pub fn to_string(&self) -> (text: std::string::String)
        ensures
            text@ == self.spec_message(),
    {
        match self {
            BlobDecodeErr::NegativeSize => std::string::String::from_str(
                "OSC blob size is negative. This is almost surely a result of an earlier error that offset bytes and interpreted something else as the size.",
            ),
            BlobDecodeErr::TooLong => std::string::String::from_str(
                "OSC blob longer than claimed: expected a null padding byte but found non-null.",
            ),
            BlobDecodeErr::NullThenNonNull => std::string::String::from_str(
                "Matched a string's null terminator, but the following padding bytes were non-null.",
            ),
        }
    }
}

impl TryFrom<i32> for Integer {
    type Error = Infallible;

    fn try_from(value: i32) -> (r: Result<Self, Self::Error>)
        ensures
            r matches Ok(atomic) && atomic@ == value,
    {
        Ok(Integer::new(value))
    }
}

impl TryFromSpecImpl<i32> for Integer {
    open spec fn obeys_try_from_spec() -> bool {
        false
    }

    open spec fn try_from_spec(value: i32) -> Result<Self, Self::Error> {
        arbitrary()
    }
}

impl From<Integer> for i32 {
    fn from(value: Integer) -> (r: i32) {
        proof {
            value.lemma_range();
        }
        value.value()
    }
}

impl FromSpecImpl<Integer> for i32 {
    open spec fn obeys_from_spec() -> bool {
        true
    }

    open spec fn from_spec(value: Integer) -> i32 {
        value@ as i32
    }
}

impl<'s> TryFrom<&'s str> for String<'s> {
    type Error = InvalidContents;

    fn try_from(value: &'s str) -> (r: Result<Self, Self::Error>)
        ensures
            match r {
                Ok(atomic) => spec_check_string(value@) is Ok && atomic@ == value@,
                Err(e) => spec_check_string(value@) == Err::<(), InvalidContents>(e),
            },
    {
        String::from_rust(value)
    }
}

impl<'s> TryFromSpecImpl<&'s str> for String<'s> {
    open spec fn obeys_try_from_spec() -> bool {
        false
    }

    open spec fn try_from_spec(value: &'s str) -> Result<Self, Self::Error> {
        arbitrary()
    }
}

impl<'b> TryFrom<&'b [u8]> for Blob<'b> {
    type Error = Infallible;

    fn try_from(value: &'b [u8]) -> (r: Result<Self, Self::Error>)
        ensures
            r matches Ok(atomic) && atomic@ == value@,
    {
        Ok(Blob(value))
    }
}

impl<'b> TryFromSpecImpl<&'b [u8]> for Blob<'b> {
    open spec fn obeys_try_from_spec() -> bool {
        false
    }

    open spec fn try_from_spec(value: &'b [u8]) -> Result<Self, Self::Error> {
        arbitrary()
    }
}

impl<'b, const N: usize> TryFrom<&'b [u8; N]> for Blob<'b> {
    type Error = Infallible;

    fn try_from(value: &'b [u8; N]) -> (r: Result<Self, Self::Error>)
        ensures
            r matches Ok(atomic) && atomic@ == value@,
    {
        Ok(Blob(value.as_slice()))
    }
}

impl<'b, const N: usize> TryFromSpecImpl<&'b [u8; N]> for Blob<'b> {
    open spec fn obeys_try_from_spec() -> bool {
        false
    }

    open spec fn try_from_spec(value: &'b [u8; N]) -> Result<Self, Self::Error> {
        arbitrary()
    }
}

impl TryFrom<std::string::String> for DynamicString {
    type Error = InvalidContents;

    fn try_from(value: std::string::String) -> (r: Result<Self, Self::Error>)
        ensures
            match r {
                Ok(atomic) => spec_check_string(value@) is Ok && atomic@ == value@,
                Err(e) => spec_check_string(value@) == Err::<(), InvalidContents>(e),
            },
    {
        DynamicString::from_rust(value)
    }
}

impl TryFromSpecImpl<std::string::String> for DynamicString {
    open spec fn obeys_try_from_spec() -> bool {
        false
    }

    open spec fn try_from_spec(value: std::string::String) -> Result<Self, Self::Error> {
        arbitrary()
    }
}

impl TryFrom<Vec<u8>> for DynamicBlob {
    type Error = Infallible;

    fn try_from(value: Vec<u8>) -> (r: Result<Self, Self::Error>)
        ensures
            r matches Ok(atomic) && atomic@ == value@,
    {
        Ok(DynamicBlob(value))
    }
}

impl TryFromSpecImpl<Vec<u8>> for DynamicBlob {
    open spec fn obeys_try_from_spec() -> bool {
        false
    }

    open spec fn try_from_spec(value: Vec<u8>) -> Result<Self, Self::Error> {
        arbitrary()
    }
}

impl<'s> From<String<'s>> for &'s str {
    fn from(value: String<'s>) -> (r: &'s str)
        ensures
            r@ == value@,
    {
        value.into_rust()
    }
}

impl<'s> FromSpecImpl<String<'s>> for &'s str {
    open spec fn obeys_from_spec() -> bool {
        false
    }

    open spec fn from_spec(value: String<'s>) -> &'s str {
        arbitrary()
    }
}

impl<'b> From<Blob<'b>> for &'b [u8] {
    fn from(value: Blob<'b>) -> (r: &'b [u8])
        ensures
            r@ == value@,
    {
        value.into_rust()
    }
}

impl<'b> FromSpecImpl<Blob<'b>> for &'b [u8] {
    open spec fn obeys_from_spec() -> bool {
        false
    }

    open spec fn from_spec(value: Blob<'b>) -> &'b [u8] {
        arbitrary()
    }
}

impl From<DynamicString> for std::string::String {
    fn from(value: DynamicString) -> (r: std::string::String)
        ensures
            r@ == value@,
    {
        value.into_rust()
    }
}

impl FromSpecImpl<DynamicString> for std::string::String {
    open spec fn obeys_from_spec() -> bool {
        false
    }

    open spec fn from_spec(value: DynamicString) -> std::string::String {
        arbitrary()
    }
}

impl From<DynamicBlob> for Vec<u8> {
    fn from(value: DynamicBlob) -> (r: Vec<u8>)
        ensures
            r@ == value@,
    {
        value.into_rust()
    }
}

impl FromSpecImpl<DynamicBlob> for Vec<u8> {
    open spec fn obeys_from_spec() -> bool {
        false
    }

    open spec fn from_spec(value: DynamicBlob) -> Vec<u8> {
        arbitrary()
    }
}

/// A string that is decoded is an OSC string, and its wire form is the part
/// of the input that was read.
pub proof fn lemma_decoded_string(input: Seq<u8>)
    ensures
        spec_decode_string(input).result matches Ok(chars) ==> {
            &&& spec_check_string(chars) is Ok
            &&& spec_decode_string(input).rest.len() <= input.len()
            &&& spec_encode_string(chars) == input.take(
                input.len() - spec_decode_string(input).rest.len(),
            )
        },
{
    if let Ok(chars) = spec_decode_string(input).result {
        let whole = whole_units(input);
        let j = first_stop(whole, 0, string_stop());
        let body = whole.subrange(0, j);
        lemma_first_stop(whole, 0, string_stop());
        assert forall|i: int| 0 <= i < chars.len() implies '\0' < #[trigger] chars[i]
            <= '\u{7f}' by {
            assert(!string_stop()(whole, i));
            assert(body[i] == whole[i]);
        }
        if chars.contains('\0') {
            let k = choose|k: int| 0 <= k < chars.len() && chars[k] == '\0';
            assert('\0' < chars[k]);
        }
        assert(ascii_bytes(chars) =~= body);
        lemma_field_read(input, j);
    }
}

} // verus!
