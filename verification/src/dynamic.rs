//! OSC values whose types can't be known at compile time.

use crate::atomic::{
    be_value, lemma_be_value_of_bytes, lemma_blob_round_trip, lemma_string_round_trip, signed,
    spec_check_string, spec_decode_blob, spec_decode_string, spec_encode_blob, spec_encode_float,
    spec_encode_integer, spec_encode_string, unsigned, Atomic, BlobDecodeErr, DynamicBlob,
    DynamicString, Float, Integer, InvalidContents, StringDecodeErr, MAX_BLOB_LEN,
};
use crate::batch::{lemma_padded, padded, Batch, Batched};
use crate::decode::{
    lemma_read_unit_units, lemma_units_then, spec_read_unit, unit_wise, view_result, Aligned4B,
    Decode, Decoded, Misaligned4B,
};
use crate::scan::{
    first_stop, lemma_field_layout, lemma_field_read, lemma_first_stop, lemma_first_stop_from,
    lemma_first_stop_is, lemma_next_unit, null_after, null_to_unit_end, ran_out, unit_end,
    whole_units, NUL,
};
use crate::stream::{collect, ByteStream, Chain, Once, VecStream};
use crate::tag::{Tag, TagDecodeErr};
use vstd::prelude::*;
use vstd::std_specs::convert::{FromSpecImpl, TryFromSpecImpl};

verus! {

/// The character `,`, which begins the type tags.
pub const COMMA: u8 = 0x2c;

/// Unknown number of OSC type tags.
#[derive(Clone, Debug, Default, Eq, Hash, Ord, PartialEq, PartialOrd)]
pub struct Tags(pub Vec<Tag>);

impl View for Tags {
    type V = Seq<Tag>;

    open spec fn view(&self) -> Seq<Tag> {
        self.0@
    }
}

/// The characters of `tags`, in order.
pub open spec fn tag_bytes(tags: Seq<Tag>) -> Seq<u8> {
    tags.map_values(|tag: Tag| tag.spec_byte())
}

/// The wire form of `tags`: a comma, one character for each tag, a null
/// byte, and null bytes up to a multiple of four.
pub open spec fn spec_encode_tags(tags: Seq<Tag>) -> Seq<u8> {
    padded(seq![COMMA] + tag_bytes(tags) + seq![NUL])
}

/// A source of the characters of a list of tags.
#[derive(Debug)]
pub struct TagBytes {
    tags: Vec<Tag>,
    pos: usize,
}

impl TagBytes {
    #[verifier::type_invariant]
    spec fn in_bounds(self) -> bool {
        self.pos <= self.tags@.len()
    }

    /// A source that will produce the character of each of `tags`, in order.
    pub fn new(tags: Vec<Tag>) -> (s: Self)
        ensures
            s.remaining() == tag_bytes(tags@),
    {
        let s = TagBytes { tags, pos: 0 };
        assert(s.remaining() =~= tag_bytes(tags@));
        s
    }
}

impl ByteStream for TagBytes {
    closed spec fn remaining(&self) -> Seq<u8> {
        tag_bytes(self.tags@.skip(self.pos as int))
    }

    fn next(&mut self) -> (byte: Option<u8>) {
        proof {
            use_type_invariant(&*self);
        }
        if self.pos < self.tags.len() {
            let b = self.tags[self.pos].byte();
            self.pos = self.pos + 1;
            assert(self.remaining() =~= old(self).remaining().drop_first());
            Some(b)
        } else {
            None
        }
    }
}

impl Tags {
    /// The wire form of these tags, byte by byte.
    pub fn into_iter(self) -> (bytes: Batched<Chain<Chain<Once, TagBytes>, Once>>)
        ensures
            bytes.remaining() == spec_encode_tags(self@),
    {
        Chain::new(Chain::new(Once::new(COMMA), TagBytes::new(self.0)), Once::new(NUL)).batch()
    }
}

/// A byte at which the reading of type tags stops: the null byte, or a byte
/// that stands for no tag.
pub open spec fn tag_stop() -> spec_fn(Seq<u8>, int) -> bool {
    |s: Seq<u8>, i: int| s[i] == NUL || Tag::spec_from_byte(s[i]) is Err
}

/// The tags that the characters `bytes` stand for.
pub open spec fn tags_of(bytes: Seq<u8>) -> Seq<Tag> {
    bytes.map_values(|b: u8| Tag::spec_from_byte(b).unwrap())
}

/// What the reading of type tags makes of a stop at index `j` of the whole
/// units `whole`: the tags before a null byte that only null bytes follow in
/// its unit, or the reason there are none.
pub open spec fn tags_at_stop(whole: Seq<u8>, j: int) -> Result<
    Seq<Tag>,
    Misaligned4B<TagDecodeErr>,
> {
    if whole[j] != NUL {
        Err(Misaligned4B::Other(TagDecodeErr::UnrecognizedTypeTag(whole[j])))
    } else if !null_to_unit_end(whole, j) {
        Err(Misaligned4B::Other(TagDecodeErr::NullThenNonNull))
    } else {
        Ok(tags_of(whole.subrange(1, j)))
    }
}

/// What decoding type tags makes of `input`.
///
/// The first unit must begin with a comma. After it, the bytes of the whole
/// units are read in order up to the first that is null or stands for no
/// tag. A null byte ends the tags, and the rest of its unit must be null.
pub open spec fn spec_decode_tags(input: Seq<u8>) -> Decoded<Seq<Tag>, TagDecodeErr> {
    let whole = whole_units(input);
    let j = first_stop(whole, 1, tag_stop());
    if input.len() < 4 {
        ran_out(input)
    } else if input[0] != COMMA {
        Decoded {
            result: Err(Misaligned4B::Other(TagDecodeErr::MissingComma(input[0]))),
            rest: input.skip(4),
        }
    } else if j >= whole.len() {
        ran_out(input)
    } else {
        Decoded { result: tags_at_stop(whole, j), rest: input.skip(unit_end(j)) }
    }
}

/// Tags that are encoded and decoded again come back as they were, and what
/// followed them on the wire is left unread.
pub proof fn lemma_tags_round_trip(tags: Seq<Tag>, tail: Seq<u8>)
    ensures
        spec_decode_tags(spec_encode_tags(tags) + tail).result == Ok::<
            Seq<Tag>,
            Misaligned4B<TagDecodeErr>,
        >(tags),
        spec_decode_tags(spec_encode_tags(tags) + tail).rest == tail,
{
    let body = seq![COMMA] + tag_bytes(tags);
    let input = spec_encode_tags(tags) + tail;
    let whole = whole_units(input);
    assert(seq![COMMA] + tag_bytes(tags) + seq![NUL] =~= body + seq![NUL]);
    lemma_field_layout(body, tail);
    assert forall|i: int| 1 <= i < body.len() implies !#[trigger] tag_stop()(whole, i) by {
        assert(whole[i] == whole.subrange(0, body.len() as int)[i]);
        assert(whole[i] == tags[i - 1].spec_byte());
        tags[i - 1].lemma_byte_round_trip();
    }
    lemma_first_stop_is(whole, 1, body.len() as int, tag_stop());
    assert(whole[0] == whole.subrange(0, body.len() as int)[0]);
    assert(tags_of(whole.subrange(1, body.len() as int)) =~= tags) by {
        assert forall|i: int| 0 <= i < tags.len() implies tags_of(
            whole.subrange(1, body.len() as int),
        )[i] == tags[i] by {
            assert(whole[i + 1] == whole.subrange(0, body.len() as int)[i + 1]);
            tags[i].lemma_byte_round_trip();
        }
    }
}

/// Reads the bytes of `unit` from `start` on, adding to `v` the tag of each
/// byte before the first stop. Says `None` where the unit holds no stop, and
/// else what the stop makes of the tags.
fn parse_tag_bytes(
    unit: &Aligned4B<TagDecodeErr>,
    start: usize,
    v: &mut Vec<Tag>,
    Ghost(whole): Ghost<Seq<u8>>,
    Ghost(base): Ghost<int>,
) -> (r: Option<Result<(), Misaligned4B<TagDecodeErr>>>)
    requires
        0 <= base,
        base % 4 == 0,
        base + 4 <= whole.len(),
        start <= 4,
        1 <= base + start,
        unit@ == whole.subrange(base, base + 4),
        first_stop(whole, 1, tag_stop()) == first_stop(whole, base + start, tag_stop()),
        old(v)@ == tags_of(whole.subrange(1, base + start)),
    ensures
        match r {
            None => {
                &&& first_stop(whole, 1, tag_stop()) == first_stop(whole, base + 4, tag_stop())
                &&& final(v)@ == tags_of(whole.subrange(1, base + 4))
            },
            Some(outcome) => {
                let j = first_stop(whole, 1, tag_stop());
                &&& base + start <= j < base + 4
                &&& match outcome {
                    Ok(()) => Ok(final(v)@),
                    Err(e) => Err(e),
                } == tags_at_stop(whole, j)
            },
        },
{
    let bytes = unit.into_iter();
    let mut k: usize = start;
    while k < 4
        invariant
            start <= k <= 4,
            0 <= base,
            base % 4 == 0,
            base + 4 <= whole.len(),
            1 <= base + start,
            bytes@ == whole.subrange(base, base + 4),
            first_stop(whole, 1, tag_stop()) == first_stop(whole, base + k, tag_stop()),
            v@ == tags_of(whole.subrange(1, base + k)),
        decreases 4 - k,
    {
        let b = bytes[k];
        assert(b == whole[base + k]) by {
            assert(bytes@[k as int] == whole.subrange(base, base + 4)[k as int]);
        }
        assert(tag_stop()(whole, base + k) ==> first_stop(whole, base + k, tag_stop()) == base
            + k);
        if b == NUL {
            return if null_after(&bytes, k, Ghost(whole), Ghost(base)) {
                Some(Ok(()))
            } else {
                Some(Err(Misaligned4B::Other(TagDecodeErr::NullThenNonNull)))
            };
        }
        match Tag::try_from(b) {
            Ok(tag) => {
                v.push(tag);
                proof {
                    lemma_first_stop_from(whole, base + k, base + k + 1, tag_stop());
                    assert(whole.subrange(1, base + k + 1) =~= whole.subrange(1, base + k).push(
                        b,
                    ));
                    assert(v@ =~= tags_of(whole.subrange(1, base + k + 1)));
                }
            },
            Err(e) => {
                return Some(Err(Misaligned4B::Other(e)));
            },
        }
        k = k + 1;
    }
    None
}

impl Decode for Tags {
    type Error = TagDecodeErr;

    open spec fn spec_decode(input: Seq<u8>) -> Decoded<Seq<Tag>, TagDecodeErr> {
        spec_decode_tags(input)
    }

    fn decode<S: ByteStream>(iter: &mut S) -> (r: Result<Self, Misaligned4B<TagDecodeErr>>) {
        let ghost input = iter.remaining();
        let ghost whole = whole_units(input);
        let mut v: Vec<Tag> = Vec::new();
        let first = match Aligned4B::<TagDecodeErr>::decode(iter) {
            Ok(unit) => unit,
            Err(e) => {
                return Err(e);
            },
        };
        if first.0 != COMMA {
            return Err(Misaligned4B::Other(TagDecodeErr::MissingComma(first.0)));
        }
        proof {
            assert(first@ =~= whole.subrange(0, 4));
            assert(v@ =~= tags_of(whole.subrange(1, 1)));
        }
        match parse_tag_bytes(&first, 1, &mut v, Ghost(whole), Ghost(0)) {
            None => {},
            Some(Ok(())) => {
                return Ok(Tags(v));
            },
            Some(Err(e)) => {
                return Err(e);
            },
        }
        let ghost mut n: int = 1;
        loop
            invariant
                1 <= n,
                4 * n <= whole.len(),
                input == old(iter).remaining(),
                whole == whole_units(input),
                input.len() >= 4,
                input[0] == COMMA,
                iter.remaining() == input.skip(4 * n),
                first_stop(whole, 1, tag_stop()) == first_stop(whole, 4 * n, tag_stop()),
                v@ == tags_of(whole.subrange(1, 4 * n)),
            decreases iter.remaining().len(),
        {
            proof {
                lemma_next_unit::<Seq<Tag>, TagDecodeErr>(input, n, iter.remaining());
            }
            let unit = match Aligned4B::<TagDecodeErr>::decode(iter) {
                Ok(unit) => unit,
                Err(e) => {
                    proof {
                        assert(first_stop(whole, 4 * n, tag_stop()) == whole.len());
                    }
                    return Err(e);
                },
            };
            match parse_tag_bytes(&unit, 0, &mut v, Ghost(whole), Ghost(4 * n)) {
                None => {},
                Some(Ok(())) => {
                    return Ok(Tags(v));
                },
                Some(Err(e)) => {
                    return Err(e);
                },
            }
            proof {
                n = n + 1;
            }
        }
    }

    proof fn lemma_units(input: Seq<u8>) {
        let whole = whole_units(input);
        let d = spec_decode_tags(input);
        if input.len() >= 4 {
            lemma_first_stop(whole, 1, tag_stop());
        }
        assert(d.rest =~= input.skip(input.len() - d.rest.len()));
    }
}

/// OSC values whose types can't be known at compile time.
#[derive(Clone, Debug, Eq, Hash, Ord, PartialEq, PartialOrd)]
pub enum Data {
    /// 32-bit big-endian signed two's-complement integer.
    Integer(Integer),
    /// 32-bit big-endian IEEE 754 floating-point number.
    Float(Float),
    /// Null-terminated (not your responsibility!) byte string.
    String(DynamicString),
    /// Arbitrary known-length collection of bytes.
    Blob(DynamicBlob),
}

/// What a value of unknown type stands for.
pub enum DataView {
    /// An integer, by the number it stands for.
    Integer(int),
    /// A float, by its IEEE 754 bit pattern.
    Float(int),
    /// A string, by its characters.
    String(Seq<char>),
    /// A blob, by its bytes.
    Blob(Seq<u8>),
}

impl DataView {
    /// The tag of this value.
    pub open spec fn tag(self) -> Tag {
        match self {
            DataView::Integer(_) => Tag::Integer,
            DataView::Float(_) => Tag::Float,
            DataView::String(_) => Tag::String,
            DataView::Blob(_) => Tag::Blob,
        }
    }

    /// The wire form of this value, padding included.
    pub open spec fn encode(self) -> Seq<u8> {
        match self {
            DataView::Integer(v) => spec_encode_integer(v),
            DataView::Float(bits) => spec_encode_float(bits),
            DataView::String(chars) => spec_encode_string(chars),
            DataView::Blob(content) => spec_encode_blob(content),
        }
    }

    /// Whether this value has a wire form: the length of a blob must fit the
    /// count that is written before it.
    pub open spec fn fits(self) -> bool {
        match self {
            DataView::Blob(content) => content.len() <= MAX_BLOB_LEN,
            _ => true,
        }
    }

    /// Whether this value is one that an OSC value can stand for: a number
    /// of 32 bits, a string of ASCII characters without a null, or any blob.
    pub open spec fn valid(self) -> bool {
        match self {
            DataView::Integer(v) => -0x8000_0000 <= v < 0x8000_0000,
            DataView::Float(bits) => 0 <= bits < 0x1_0000_0000,
            DataView::String(chars) => spec_check_string(chars) is Ok,
            DataView::Blob(_) => true,
        }
    }
}

impl View for Data {
    type V = DataView;

    open spec fn view(&self) -> DataView {
        match self {
            Data::Integer(i) => DataView::Integer(i@),
            Data::Float(f) => DataView::Float(f@),
            Data::String(s) => DataView::String(s@),
            Data::Blob(b) => DataView::Blob(b@),
        }
    }
}

impl Atomic for Data {
    type AsRust = Data;

    type Iter = VecStream;

    open spec fn spec_type_tag(value: DataView) -> Tag {
        value.tag()
    }

    open spec fn spec_encode(value: DataView) -> Seq<u8> {
        value.encode()
    }

    open spec fn spec_fits(value: DataView) -> bool {
        value.fits()
    }

    open spec fn spec_rust(value: Data) -> DataView {
        value@
    }

    open spec fn spec_check(value: Data) -> Result<(), InvalidContents> {
        Ok(())
    }

    fn type_tag(&self) -> (tag: Tag) {
        match self {
            Data::Integer(i) => i.type_tag(),
            Data::Float(f) => f.type_tag(),
            Data::String(s) => s.type_tag(),
            Data::Blob(b) => b.type_tag(),
        }
    }

    fn into_rust(self) -> (value: Data) {
        self
    }

    fn from_rust(value: Data) -> (r: Result<Self, InvalidContents>) {
        Ok(value)
    }

    fn fits(&self) -> (fits: bool) {
        match self {
            Data::Integer(i) => i.fits(),
            Data::Float(f) => f.fits(),
            Data::String(s) => s.fits(),
            Data::Blob(b) => b.fits(),
        }
    }

    fn into_iter(self) -> (bytes: Batched<VecStream>) {
        proof {
            Data::lemma_encode_aligned(self@);
            lemma_padded(Data::spec_encode(self@));
        }
        let v: Vec<u8> = match self {
            Data::Integer(i) => collect(i.into_iter()),
            Data::Float(f) => collect(f.into_iter()),
            Data::String(s) => collect(s.into_iter()),
            Data::Blob(b) => collect(b.into_iter()),
        };
        VecStream::new(v).batch()
    }

    proof fn lemma_encode_aligned(value: DataView) {
        match value {
            DataView::Integer(_) => Integer::lemma_encode_aligned(arbitrary()),
            DataView::Float(_) => Float::lemma_encode_aligned(arbitrary()),
            DataView::String(chars) => DynamicString::lemma_encode_aligned(chars),
            DataView::Blob(content) => DynamicBlob::lemma_encode_aligned(content),
        }
    }
}

/// Vector of data whose types are unknown at compile time.
#[derive(Clone, Debug, Default, Eq, Hash, Ord, PartialEq, PartialOrd)]
pub struct Dynamic(pub Vec<Data>);

impl View for Dynamic {
    type V = Seq<DataView>;

    open spec fn view(&self) -> Seq<DataView> {
        self.0@.map_values(|d: Data| d@)
    }
}

/// Any possible errors while parsing an OSC message of unknown structure.
#[derive(Clone, Copy, Debug, Eq, Hash, Ord, PartialEq, PartialOrd)]
pub enum DynamicDecodeErr {
    /// Error parsing type tags.
    TypeTagErr(TagDecodeErr),
    /// Error parsing a string among the values.
    StringErr(StringDecodeErr),
    /// Error parsing a blob among the values.
    BlobErr(BlobDecodeErr),
}

/// What decoding one value of the type `tag` makes of `input`.
pub open spec fn spec_decode_value(tag: Tag, input: Seq<u8>) -> Decoded<
    DataView,
    DynamicDecodeErr,
> {
    match tag {
        Tag::Integer => {
            let unit = spec_read_unit::<DynamicDecodeErr>(input);
            Decoded {
                result: match unit.result {
                    Ok(bytes) => Ok(DataView::Integer(signed(be_value(bytes)))),
                    Err(e) => Err(e),
                },
                rest: unit.rest,
            }
        },
        Tag::Float => {
            let unit = spec_read_unit::<DynamicDecodeErr>(input);
            Decoded {
                result: match unit.result {
                    Ok(bytes) => Ok(DataView::Float(be_value(bytes))),
                    Err(e) => Err(e),
                },
                rest: unit.rest,
            }
        },
        Tag::String => {
            let string = spec_decode_string(input);
            Decoded {
                result: match string.result {
                    Ok(chars) => Ok(DataView::String(chars)),
                    Err(Misaligned4B::End) => Err(Misaligned4B::End),
                    Err(Misaligned4B::Misaligned) => Err(Misaligned4B::Misaligned),
                    Err(Misaligned4B::Other(e)) => Err(
                        Misaligned4B::Other(DynamicDecodeErr::StringErr(e)),
                    ),
                },
                rest: string.rest,
            }
        },
        Tag::Blob => {
            let blob = spec_decode_blob(input);
            Decoded {
                result: match blob.result {
                    Ok(content) => Ok(DataView::Blob(content)),
                    Err(Misaligned4B::End) => Err(Misaligned4B::End),
                    Err(Misaligned4B::Misaligned) => Err(Misaligned4B::Misaligned),
                    Err(Misaligned4B::Other(e)) => Err(
                        Misaligned4B::Other(DynamicDecodeErr::BlobErr(e)),
                    ),
                },
                rest: blob.rest,
            }
        },
    }
}

/// What decoding one value for each of `tags`, in order, makes of `input`:
/// the values, or the first failure and what it left unread.
pub open spec fn spec_decode_values(tags: Seq<Tag>, input: Seq<u8>) -> Decoded<
    Seq<DataView>,
    DynamicDecodeErr,
>
    decreases tags.len(),
{
    if tags.len() == 0 {
        Decoded { result: Ok(Seq::empty()), rest: input }
    } else {
        let before = spec_decode_values(tags.drop_last(), input);
        match before.result {
            Err(_) => before,
            Ok(values) => {
                let last = spec_decode_value(tags.last(), before.rest);
                Decoded {
                    result: match last.result {
                        Ok(value) => Ok(values.push(value)),
                        Err(e) => Err(e),
                    },
                    rest: last.rest,
                }
            },
        }
    }
}

/// What decoding a sequence of values of unknown types makes of `input`:
/// the type tags are decoded first, and then one value for each of them.
pub open spec fn spec_decode_dynamic(input: Seq<u8>) -> Decoded<Seq<DataView>, DynamicDecodeErr> {
    let tags = spec_decode_tags(input);
    match tags.result {
        Ok(tags_read) => spec_decode_values(tags_read, tags.rest),
        Err(Misaligned4B::End) => Decoded { result: Err(Misaligned4B::End), rest: tags.rest },
        Err(Misaligned4B::Misaligned) => Decoded {
            result: Err(Misaligned4B::Misaligned),
            rest: tags.rest,
        },
        Err(Misaligned4B::Other(e)) => Decoded {
            result: Err(Misaligned4B::Other(DynamicDecodeErr::TypeTagErr(e))),
            rest: tags.rest,
        },
    }
}

/// A failure among the first values is the failure of them all.
pub proof fn lemma_decode_values_failure(tags: Seq<Tag>, k: int, input: Seq<u8>)
    requires
        0 <= k <= tags.len(),
        spec_decode_values(tags.take(k), input).result is Err,
    ensures
        spec_decode_values(tags, input) == spec_decode_values(tags.take(k), input),
    decreases tags.len(),
{
    if k == tags.len() {
        assert(tags.take(k) =~= tags);
    } else {
        assert(tags.drop_last().take(k) =~= tags.take(k));
        lemma_decode_values_failure(tags.drop_last(), k, input);
    }
}

impl Data {
    /// Reads one value of the type `tag` or provides a reason it couldn't be
    /// done. The stream is left where the decoder stopped reading.
    pub fn decode<S: ByteStream>(tag: Tag, iter: &mut S) -> (r: Result<
        Data,
        Misaligned4B<DynamicDecodeErr>,
    >)
        ensures
            view_result(r) == spec_decode_value(tag, old(iter).remaining()).result,
            final(iter).remaining() == spec_decode_value(tag, old(iter).remaining()).rest,
    {
        match tag {
            Tag::Integer => match Aligned4B::<DynamicDecodeErr>::decode(iter) {
                Ok(unit) => Ok(Data::Integer(Integer::from_be_bytes(unit.into_iter()))),
                Err(e) => Err(e),
            },
            Tag::Float => match Aligned4B::<DynamicDecodeErr>::decode(iter) {
                Ok(unit) => Ok(Data::Float(Float::from_be_bytes(unit.into_iter()))),
                Err(e) => Err(e),
            },
            Tag::String => match DynamicString::decode(iter) {
                Ok(s) => Ok(Data::String(s)),
                Err(Misaligned4B::End) => Err(Misaligned4B::End),
                Err(Misaligned4B::Misaligned) => Err(Misaligned4B::Misaligned),
                Err(Misaligned4B::Other(e)) => Err(
                    Misaligned4B::Other(DynamicDecodeErr::StringErr(e)),
                ),
            },
            Tag::Blob => match DynamicBlob::decode(iter) {
                Ok(b) => Ok(Data::Blob(b)),
                Err(Misaligned4B::End) => Err(Misaligned4B::End),
                Err(Misaligned4B::Misaligned) => Err(Misaligned4B::Misaligned),
                Err(Misaligned4B::Other(e)) => Err(
                    Misaligned4B::Other(DynamicDecodeErr::BlobErr(e)),
                ),
            },
        }
    }
}

impl Dynamic {
    /// Reads one value for each of `tags`, in order, or provides the reason
    /// the first of them that couldn't be read gave. The stream is left
    /// where the decoder stopped reading.
    pub fn decode_values<S: ByteStream>(tags: &Tags, iter: &mut S) -> (r: Result<
        Self,
        Misaligned4B<DynamicDecodeErr>,
    >)
        ensures
            view_result(r) == spec_decode_values(tags@, old(iter).remaining()).result,
            final(iter).remaining() == spec_decode_values(tags@, old(iter).remaining()).rest,
    {
        let ghost start = iter.remaining();
        let mut v: Vec<Data> = Vec::with_capacity(tags.0.len());
        let mut i: usize = 0;
        proof {
            assert(tags@.take(0) =~= Seq::<Tag>::empty());
            assert(v@.map_values(|d: Data| d@) =~= Seq::<DataView>::empty());
        }
        while i < tags.0.len()
            invariant
                i <= tags@.len(),
                start == old(iter).remaining(),
                spec_decode_values(tags@.take(i as int), start) == (Decoded {
                    result: Ok::<Seq<DataView>, Misaligned4B<DynamicDecodeErr>>(
                        v@.map_values(|d: Data| d@),
                    ),
                    rest: iter.remaining(),
                }),
            decreases tags@.len() - i,
        {
            let tag = tags.0[i];
            proof {
                assert(tags@.take(i + 1).drop_last() =~= tags@.take(i as int));
                assert(tags@.take(i + 1).last() == tag);
            }
            match Data::decode(tag, iter) {
                Ok(value) => {
                    let ghost before = v@.map_values(|d: Data| d@);
                    v.push(value);
                    proof {
                        assert(v@.map_values(|d: Data| d@) =~= before.push(value@));
                    }
                },
                Err(e) => {
                    proof {
                        lemma_decode_values_failure(tags@, i + 1, start);
                    }
                    return Err(e);
                },
            }
            i = i + 1;
        }
        proof {
            assert(tags@.take(i as int) =~= tags@);
        }
        Ok(Dynamic(v))
    }
}

impl Decode for Dynamic {
    type Error = DynamicDecodeErr;

    open spec fn spec_decode(input: Seq<u8>) -> Decoded<Seq<DataView>, DynamicDecodeErr> {
        spec_decode_dynamic(input)
    }

    fn decode<S: ByteStream>(iter: &mut S) -> (r: Result<Self, Misaligned4B<DynamicDecodeErr>>) {
        let types = match Tags::decode(iter) {
            Ok(ok) => ok,
            Err(Misaligned4B::End) => {
                return Err(Misaligned4B::End);
            },
            Err(Misaligned4B::Misaligned) => {
                return Err(Misaligned4B::Misaligned);
            },
            Err(Misaligned4B::Other(o)) => {
                return Err(Misaligned4B::Other(DynamicDecodeErr::TypeTagErr(o)));
            },
        };
        Dynamic::decode_values(&types, iter)
    }

    proof fn lemma_units(input: Seq<u8>) {
        Tags::lemma_units(input);
        let tags = spec_decode_tags(input);
        if let Ok(tags_read) = tags.result {
            lemma_decode_values_units(tags_read, tags.rest);
            let d = spec_decode_values(tags_read, tags.rest);
            lemma_units_then(
                d.result == Err::<Seq<DataView>, Misaligned4B<DynamicDecodeErr>>(
                    Misaligned4B::End,
                ),
                d.result == Err::<Seq<DataView>, Misaligned4B<DynamicDecodeErr>>(
                    Misaligned4B::Misaligned,
                ),
                d.rest,
                tags.rest,
                input,
            );
        }
    }
}

/// Decoding one value takes its input in whole units.
pub proof fn lemma_decode_value_units(tag: Tag, input: Seq<u8>)
    ensures
        unit_wise(spec_decode_value(tag, input), input),
{
    match tag {
        Tag::Integer => lemma_read_unit_units::<DynamicDecodeErr>(input),
        Tag::Float => lemma_read_unit_units::<DynamicDecodeErr>(input),
        Tag::String => DynamicString::lemma_units(input),
        Tag::Blob => DynamicBlob::lemma_units(input),
    }
}

/// Decoding one value after the other takes the input in whole units.
pub proof fn lemma_decode_values_units(tags: Seq<Tag>, input: Seq<u8>)
    ensures
        unit_wise(spec_decode_values(tags, input), input),
    decreases tags.len(),
{
    let d = spec_decode_values(tags, input);
    if tags.len() == 0 {
        assert(d.rest =~= input.skip(input.len() - d.rest.len()));
    } else {
        lemma_decode_values_units(tags.drop_last(), input);
        let before = spec_decode_values(tags.drop_last(), input);
        if before.result is Ok {
            let last = spec_decode_value(tags.last(), before.rest);
            lemma_decode_value_units(tags.last(), before.rest);
            lemma_units_then(
                last.result == Err::<DataView, Misaligned4B<DynamicDecodeErr>>(Misaligned4B::End),
                last.result == Err::<DataView, Misaligned4B<DynamicDecodeErr>>(
                    Misaligned4B::Misaligned,
                ),
                last.rest,
                before.rest,
                input,
            );
        }
    }
}

/// The tags of `values`, in order.
pub open spec fn tags_for(values: Seq<DataView>) -> Seq<Tag> {
    values.map_values(|value: DataView| value.tag())
}

/// The wire forms of `values`, one after the other.
pub open spec fn encode_values(values: Seq<DataView>) -> Seq<u8>
    decreases values.len(),
{
    if values.len() == 0 {
        Seq::empty()
    } else {
        encode_values(values.drop_last()) + values.last().encode()
    }
}

/// Whether each of `values` has a wire form.
pub open spec fn values_fit(values: Seq<DataView>) -> bool {
    forall|i: int| 0 <= i < values.len() ==> (#[trigger] values[i]).fits()
}

/// The wire form of a sequence of values of unknown types: their tags, and
/// then the values.
pub open spec fn spec_encode_dynamic(values: Seq<DataView>) -> Seq<u8> {
    spec_encode_tags(tags_for(values)) + encode_values(values)
}

/// The wire forms of values, one after the other, are a whole number of
/// units.
pub proof fn lemma_encode_values_aligned(values: Seq<DataView>)
    ensures
        encode_values(values).len() % 4 == 0,
    decreases values.len(),
{
    if values.len() > 0 {
        let before = encode_values(values.drop_last());
        let last = values.last().encode();
        lemma_encode_values_aligned(values.drop_last());
        assert(last.len() % 4 == 0) by {
            Data::lemma_encode_aligned(values.last());
        }
        assert(encode_values(values) == before + last);
        assert((before + last).len() == before.len() + last.len());
    }
}

impl DataView {
    /// Whether this value comes back as it is when it is encoded and
    /// decoded again: it is valid, and if it is a blob, its length fits the
    /// count before it and is a multiple of four.
    pub open spec fn round_trips(self) -> bool {
        &&& self.valid()
        &&& self matches DataView::Blob(content) ==> content.len() <= MAX_BLOB_LEN
            && content.len() % 4 == 0
    }
}

/// A value that round-trips is decoded from its wire form as it was, and
/// what followed it on the wire is left unread.
pub proof fn lemma_value_round_trip(value: DataView, tail: Seq<u8>)
    requires
        value.round_trips(),
    ensures
        spec_decode_value(value.tag(), value.encode() + tail) == (Decoded {
            result: Ok::<DataView, Misaligned4B<DynamicDecodeErr>>(value),
            rest: tail,
        }),
{
    match value {
        DataView::Integer(v) => {
            let e = spec_encode_integer(v);
            lemma_be_value_of_bytes(unsigned(v));
            assert((e + tail).take(4) =~= e);
            assert((e + tail).skip(4) =~= tail);
        },
        DataView::Float(bits) => {
            let e = spec_encode_float(bits);
            lemma_be_value_of_bytes(bits);
            assert((e + tail).take(4) =~= e);
            assert((e + tail).skip(4) =~= tail);
        },
        DataView::String(chars) => {
            lemma_string_round_trip(chars, tail);
        },
        DataView::Blob(content) => {
            lemma_blob_round_trip(content, tail);
        },
    }
}

/// Values that round-trip are decoded from their wire forms, by their tags,
/// as they were, and what followed them on the wire is left unread.
pub proof fn lemma_values_round_trip(values: Seq<DataView>, tail: Seq<u8>)
    requires
        forall|i: int| 0 <= i < values.len() ==> (#[trigger] values[i]).round_trips(),
    ensures
        spec_decode_values(tags_for(values), encode_values(values) + tail) == (Decoded {
            result: Ok::<Seq<DataView>, Misaligned4B<DynamicDecodeErr>>(values),
            rest: tail,
        }),
    decreases values.len(),
{
    let tags = tags_for(values);
    if values.len() == 0 {
        assert(encode_values(values) + tail =~= tail);
        assert(values =~= Seq::<DataView>::empty());
    } else {
        let init = values.drop_last();
        let last = values.last();
        assert(tags.drop_last() =~= tags_for(init));
        assert(tags.last() == last.tag());
        assert forall|i: int| 0 <= i < init.len() implies (#[trigger] init[i]).round_trips() by {
            assert(init[i] == values[i]);
        }
        lemma_values_round_trip(init, last.encode() + tail);
        assert(encode_values(values) + tail =~= encode_values(init) + (last.encode() + tail));
        lemma_value_round_trip(last, tail);
        assert(init.push(last) =~= values);
    }
}

/// A sequence of values that round-trip is decoded from its wire form as
/// it was, and what followed it on the wire is left unread.
pub proof fn lemma_dynamic_round_trip(values: Seq<DataView>, tail: Seq<u8>)
    requires
        forall|i: int| 0 <= i < values.len() ==> (#[trigger] values[i]).round_trips(),
    ensures
        spec_decode_dynamic(spec_encode_dynamic(values) + tail) == (Decoded {
            result: Ok::<Seq<DataView>, Misaligned4B<DynamicDecodeErr>>(values),
            rest: tail,
        }),
{
    let rest = encode_values(values) + tail;
    lemma_tags_round_trip(tags_for(values), rest);
    assert(spec_encode_dynamic(values) + tail =~= spec_encode_tags(tags_for(values)) + rest);
    lemma_values_round_trip(values, tail);
}

impl DynamicDecodeErr {
    /// The message that describes this error: that of the error it holds.
    pub open spec fn spec_message(&self) -> Seq<char> {
        match self {
            DynamicDecodeErr::TypeTagErr(e) => e.spec_message(),
            DynamicDecodeErr::StringErr(e) => e.spec_message(),
            DynamicDecodeErr::BlobErr(e) => e.spec_message(),
        }
    }

    /// The message that describes this error.
    pub fn to_string(&self) -> (text: String)
        ensures
            text@ == self.spec_message(),
    {
        match self {
            DynamicDecodeErr::TypeTagErr(e) => e.to_string(),
            DynamicDecodeErr::StringErr(e) => e.to_string(),
            DynamicDecodeErr::BlobErr(e) => e.to_string(),
        }
    }
}

impl TryFrom<Data> for Integer {
    type Error = Data;

    fn try_from(value: Data) -> (r: Result<Self, Self::Error>) {
        if let Data::Integer(v) = value {
            Ok(v)
        } else {
            Err(value)
        }
    }
}

impl TryFromSpecImpl<Data> for Integer {
    open spec fn obeys_try_from_spec() -> bool {
        true
    }

    open spec fn try_from_spec(value: Data) -> Result<Self, Self::Error> {
        if let Data::Integer(v) = value {
            Ok(v)
        } else {
            Err(value)
        }
    }
}

impl TryFrom<Data> for Float {
    type Error = Data;

    fn try_from(value: Data) -> (r: Result<Self, Self::Error>) {
        if let Data::Float(v) = value {
            Ok(v)
        } else {
            Err(value)
        }
    }
}

impl TryFromSpecImpl<Data> for Float {
    open spec fn obeys_try_from_spec() -> bool {
        true
    }

    open spec fn try_from_spec(value: Data) -> Result<Self, Self::Error> {
        if let Data::Float(v) = value {
            Ok(v)
        } else {
            Err(value)
        }
    }
}

impl TryFrom<Data> for DynamicString {
    type Error = Data;

    fn try_from(value: Data) -> (r: Result<Self, Self::Error>) {
        if let Data::String(v) = value {
            Ok(v)
        } else {
            Err(value)
        }
    }
}

impl TryFromSpecImpl<Data> for DynamicString {
    open spec fn obeys_try_from_spec() -> bool {
        true
    }

    open spec fn try_from_spec(value: Data) -> Result<Self, Self::Error> {
        if let Data::String(v) = value {
            Ok(v)
        } else {
            Err(value)
        }
    }
}

impl TryFrom<Data> for DynamicBlob {
    type Error = Data;

    fn try_from(value: Data) -> (r: Result<Self, Self::Error>) {
        if let Data::Blob(v) = value {
            Ok(v)
        } else {
            Err(value)
        }
    }
}

impl TryFromSpecImpl<Data> for DynamicBlob {
    open spec fn obeys_try_from_spec() -> bool {
        true
    }

    open spec fn try_from_spec(value: Data) -> Result<Self, Self::Error> {
        if let Data::Blob(v) = value {
            Ok(v)
        } else {
            Err(value)
        }
    }
}

impl From<TagDecodeErr> for DynamicDecodeErr {
    fn from(value: TagDecodeErr) -> (r: Self) {
        Self::TypeTagErr(value)
    }
}

impl FromSpecImpl<TagDecodeErr> for DynamicDecodeErr {
    open spec fn obeys_from_spec() -> bool {
        true
    }

    open spec fn from_spec(value: TagDecodeErr) -> Self {
        DynamicDecodeErr::TypeTagErr(value)
    }
}

/// The wire form of tags that are decoded is the part of the input that
/// was read.
pub proof fn lemma_decoded_tags(input: Seq<u8>)
    ensures
        spec_decode_tags(input).result matches Ok(tags) ==> {
            &&& spec_decode_tags(input).rest.len() <= input.len()
            &&& spec_encode_tags(tags) == input.take(
                input.len() - spec_decode_tags(input).rest.len(),
            )
        },
{
    if let Ok(tags) = spec_decode_tags(input).result {
        let whole = whole_units(input);
        let j = first_stop(whole, 1, tag_stop());
        let body = whole.subrange(0, j);
        lemma_first_stop(whole, 1, tag_stop());
        assert(whole[0] == input[0]);
        assert forall|i: int| 0 <= i < tags.len() implies (#[trigger] tags[i]).spec_byte()
            == whole[i + 1] by {
            assert(!tag_stop()(whole, i + 1));
            assert(whole.subrange(1, j)[i] == whole[i + 1]);
            Tag::lemma_from_byte(whole[i + 1]);
        }
        assert(seq![COMMA] + tag_bytes(tags) =~= body);
        lemma_field_read(input, j);
    }
}

} // verus!
