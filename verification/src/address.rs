//! An OSC address, e.g. `/lighting/right/...`

use crate::atomic::{ascii_bytes, ascii_chars, lemma_push_ascii, push_char, InvalidContents};
use crate::batch::{padded, Batch, Batched};
use crate::decode::{Aligned4B, Decode, Decoded, Misaligned4B};
use crate::scan::{
    first_stop, lemma_field_layout, lemma_field_read, lemma_first_stop, lemma_first_stop_from,
    lemma_first_stop_is, lemma_next_unit, null_after, null_to_unit_end, ran_out, unit_end,
    whole_units, NUL,
};
use crate::stream::{collect, ByteStream, SliceStream, VecStream};
use crate::text::{around, spec_escape};
use vstd::prelude::*;
use vstd::string::{StringExecFns, StringSliceAdditionalSpecFns};
use vstd::utf8::is_ascii_chars;

verus! {

/// The character `/`, which begins every segment of an address.
pub const SLASH: u8 = 0x2f;

/// Error in an OSC address.
#[derive(Clone, Copy, Debug, Eq, Hash, Ord, PartialEq, PartialOrd)]
pub enum AddressErr {
    /// Empty segment, or no segments at all.
    Empty,
    /// Invalid characters in addresses (as OSC 1.0 defines them).
    InvalidCharacter(u8),
    /// Invalid string contents for conversion to OSC.
    StringErr(InvalidContents),
}

/// A character that OSC 1.0 sets aside for patterns, or the space.
pub open spec fn spec_pattern_character(c: u8) -> bool {
    c == 0x20 || c == 0x23 || c == 0x2a || c == 0x2c || c == 0x3f || c == 0x5b || c == 0x5d || c
        == 0x7b || c == 0x7d
}

/// A character that may stand in a segment of an address: printable ASCII
/// other than the space and `#`, `*`, `,`, `/`, `?`, `[`, `]`, `{`, `}`.
pub open spec fn spec_valid_address_character(c: u8) -> bool {
    32 <= c <= 126 && !spec_pattern_character(c) && c != SLASH
}

/// Is this a character that OSC 1.0 sets aside for patterns, or the
/// space?
fn pattern_character(c: u8) -> (pattern: bool)
    ensures
        pattern == spec_pattern_character(c),
{
    c == 0x20 || c == 0x23 || c == 0x2a || c == 0x2c || c == 0x3f || c == 0x5b || c == 0x5d || c
        == 0x7b || c == 0x7d
}

/// Is this a valid ASCII character that's not blacklisted by OSC 1.0?
#[must_use]
pub fn valid_address_character(c: u8) -> (valid: bool)
    ensures
        valid == spec_valid_address_character(c),
{
    if pattern_character(c) || c == SLASH {
        false
    } else {
        32 <= c && c <= 126
    }
}

/// What an address stands for: the segments of its path, and its method.
pub struct AddressView {
    /// The segments before the last one, in order.
    pub path: Seq<Seq<u8>>,
    /// The last segment.
    pub method: Seq<u8>,
}

impl AddressView {
    /// All the segments in order, the method last.
    pub open spec fn segments(self) -> Seq<Seq<u8>> {
        self.path.push(self.method)
    }

    /// Whether this is an address that OSC 1.0 allows: no segment is empty, and
    /// every character of every segment is valid.
    pub open spec fn valid(self) -> bool {
        forall|k: int|
            0 <= k < self.segments().len() ==> valid_segment(#[trigger] self.segments()[k])
    }
}

/// A segment of an address that OSC 1.0 allows: not empty, and made of valid
/// characters.
pub open spec fn valid_segment(segment: Seq<u8>) -> bool {
    &&& segment.len() > 0
    &&& forall|i: int|
        0 <= i < segment.len() ==> spec_valid_address_character(#[trigger] segment[i])
}

/// A byte of a segment that is no valid character.
pub open spec fn invalid_character() -> spec_fn(Seq<u8>, int) -> bool {
    |s: Seq<u8>, i: int| !spec_valid_address_character(s[i])
}

/// What is wrong with a segment, if anything: it is empty, or else its
/// first invalid character.
pub open spec fn spec_check_segment(segment: Seq<u8>) -> Result<(), AddressErr> {
    let i = first_stop(segment, 0, invalid_character());
    if segment.len() == 0 {
        Err(AddressErr::Empty)
    } else if i < segment.len() {
        Err(AddressErr::InvalidCharacter(segment[i]))
    } else {
        Ok(())
    }
}

/// What is wrong with the first of `segments` that is not valid, if any is.
pub open spec fn spec_check_segments(segments: Seq<Seq<u8>>) -> Result<(), AddressErr>
    decreases segments.len(),
{
    if segments.len() == 0 {
        Ok(())
    } else {
        match spec_check_segment(segments[0]) {
            Err(e) => Err(e),
            Ok(()) => spec_check_segments(segments.drop_first()),
        }
    }
}

/// The segments one after the other, each with a `/` before it.
pub open spec fn join(segments: Seq<Seq<u8>>) -> Seq<u8>
    decreases segments.len(),
{
    if segments.len() == 0 {
        Seq::empty()
    } else {
        join(segments.drop_last()) + seq![SLASH] + segments.last()
    }
}

/// The wire form of an address: a `/` and a segment for each segment, the
/// method last, then a null byte, and null bytes up to a multiple of four.
pub open spec fn spec_encode_address(address: AddressView) -> Seq<u8> {
    padded(join(address.segments()) + seq![NUL])
}

/// A segment is accepted exactly if it is valid.
pub proof fn lemma_check_segment(segment: Seq<u8>)
    ensures
        spec_check_segment(segment) is Ok <==> valid_segment(segment),
        spec_check_segment(segment) == Err::<(), AddressErr>(AddressErr::Empty) <==> segment.len()
            == 0,
        spec_check_segment(segment) matches Err(AddressErr::InvalidCharacter(c))
            ==> !spec_valid_address_character(c) && segment.contains(c),
        !(spec_check_segment(segment) matches Err(AddressErr::StringErr(_))),
{
    lemma_first_stop(segment, 0, invalid_character());
    let i = first_stop(segment, 0, invalid_character());
    if valid_segment(segment) {
        if i < segment.len() {
            assert(invalid_character()(segment, i));
        }
    }
    if spec_check_segment(segment) is Ok {
        assert forall|k: int| 0 <= k < segment.len() implies spec_valid_address_character(
            #[trigger] segment[k],
        ) by {
            assert(!invalid_character()(segment, k));
        }
    }
}

/// Segments are accepted exactly if each of them is valid. Where they are
/// not, the error is that of the first segment that is not valid.
pub proof fn lemma_check_segments(segments: Seq<Seq<u8>>)
    ensures
        spec_check_segments(segments) is Ok <==> forall|k: int|
            0 <= k < segments.len() ==> valid_segment(#[trigger] segments[k]),
        spec_check_segments(segments) is Err ==> exists|k: int|
            0 <= k < segments.len() && spec_check_segments(segments) == spec_check_segment(
                #[trigger] segments[k],
            ) && forall|m: int| 0 <= m < k ==> valid_segment(#[trigger] segments[m]),
    decreases segments.len(),
{
    if segments.len() > 0 {
        let rest = segments.drop_first();
        lemma_check_segment(segments[0]);
        lemma_check_segments(rest);
        if spec_check_segment(segments[0]) is Ok {
            assert forall|k: int| 0 <= k < rest.len() implies rest[k] == segments[k + 1] by {}
            if spec_check_segments(rest) is Ok {
                assert forall|k: int| 0 <= k < segments.len() implies valid_segment(
                    #[trigger] segments[k],
                ) by {
                    if k > 0 {
                        assert(valid_segment(rest[k - 1]));
                    }
                }
            } else {
                let k = choose|k: int|
                    0 <= k < rest.len() && spec_check_segments(rest) == spec_check_segment(
                        #[trigger] rest[k],
                    ) && forall|m: int| 0 <= m < k ==> valid_segment(#[trigger] rest[m]);
                assert(spec_check_segments(segments) == spec_check_segment(segments[k + 1]));
                assert forall|m: int| 0 <= m < k + 1 implies valid_segment(
                    #[trigger] segments[m],
                ) by {
                    if m > 0 {
                        assert(valid_segment(rest[m - 1]));
                    }
                }
                lemma_check_segment(rest[k]);
                assert(!valid_segment(segments[k + 1]));
            }
        } else {
            assert(spec_check_segments(segments) == spec_check_segment(segments[0]));
            assert(!valid_segment(segments[0]));
        }
    }
}

/// Tests a segment as `spec_check_segment` says.
fn check_segment(segment: &Vec<u8>) -> (r: Result<(), AddressErr>)
    ensures
        r == spec_check_segment(segment@),
{
    if segment.len() == 0 {
        return Err(AddressErr::Empty);
    }
    let mut i: usize = 0;
    while i < segment.len()
        invariant
            i <= segment@.len(),
            segment@.len() > 0,
            first_stop(segment@, 0, invalid_character()) == first_stop(
                segment@,
                i as int,
                invalid_character(),
            ),
        decreases segment@.len() - i,
    {
        let c = segment[i];
        if !valid_address_character(c) {
            return Err(AddressErr::InvalidCharacter(c));
        }
        i = i + 1;
    }
    Ok(())
}

/// Convert from this type into a source of the bytes of one segment.
pub trait IntoIntoAddress: Clone {
    /// Source converted from this type in a specified way.
    type IntoAddr: ByteStream;

    /// The bytes of the segment that this value stands for.
    spec fn spec_segment(&self) -> Seq<u8>;

    /// Convert from this type into a source of the bytes of one segment.
    fn into_into_addr(self) -> (bytes: Self::IntoAddr)
        ensures
            bytes.remaining() == self.spec_segment(),
    ;
}

impl<'s> IntoIntoAddress for &'s str {
    type IntoAddr = SliceStream<'s>;

    open spec fn spec_segment(&self) -> Seq<u8> {
        self.spec_bytes()
    }

    fn into_into_addr(self) -> (bytes: SliceStream<'s>) {
        SliceStream::new(self.as_bytes())
    }
}

impl<'a, 's> IntoIntoAddress for &'a &'s str {
    type IntoAddr = SliceStream<'s>;

    open spec fn spec_segment(&self) -> Seq<u8> {
        (**self).spec_bytes()
    }

    fn into_into_addr(self) -> (bytes: SliceStream<'s>) {
        SliceStream::new((*self).as_bytes())
    }
}

impl IntoIntoAddress for std::string::String {
    type IntoAddr = VecStream;

    open spec fn spec_segment(&self) -> Seq<u8> {
        vstd::utf8::encode_utf8(self@)
    }

    fn into_into_addr(self) -> (bytes: VecStream) {
        VecStream::new(self.as_str().as_bytes_vec())
    }
}

/// An OSC address, e.g. `/lighting/right/...`
#[derive(Debug, Eq, Hash, Ord, PartialEq, PartialOrd)]
pub struct Address {
    path: Vec<Vec<u8>>,
    method: Vec<u8>,
}

impl Address {
    #[verifier::type_invariant]
    spec fn valid(self) -> bool {
        self@.valid()
    }
}

impl Clone for Address {
    fn clone(&self) -> (copy: Self)
        ensures
            copy@ == self@,
    {
        proof {
            use_type_invariant(self);
        }
        let path = self.path.clone();
        let method = self.method.clone();
        proof {
            assert(method@ =~= self.method@);
            assert forall|k: int| 0 <= k < path@.len() implies path@[k]@ == self.path@[k]@ by {
                assert(cloned(self.path@[k], path@[k]));
                assert(path@[k]@ =~= self.path@[k]@);
            }
            assert(views(path@) =~= views(self.path@));
        }
        Address { path, method }
    }
}

/// Each of `segments` by its bytes.
pub open spec fn views(segments: Seq<Vec<u8>>) -> Seq<Seq<u8>> {
    segments.map_values(|segment: Vec<u8>| segment@)
}

impl View for Address {
    type V = AddressView;

    closed spec fn view(&self) -> AddressView {
        AddressView { path: views(self.path@), method: self.method@ }
    }
}

/// What is wrong with an address of the segments `path` and the method
/// `method`, if anything.
pub open spec fn spec_check_address(path: Seq<Seq<u8>>, method: Seq<u8>) -> Result<
    (),
    AddressErr,
> {
    spec_check_segments(path.push(method))
}

/// The outcome of making an address of `path` and `method`, which is
/// `result`: the address of these segments where nothing is wrong with
/// them, and else what is wrong.
pub open spec fn address_made(
    result: Result<Address, AddressErr>,
    path: Seq<Seq<u8>>,
    method: Seq<u8>,
) -> bool {
    match result {
        Ok(address) => spec_check_address(path, method) is Ok && address@ == (AddressView {
            path,
            method,
        }),
        Err(e) => spec_check_address(path, method) == Err::<(), AddressErr>(e),
    }
}

/// Where the first `k` segments are valid, what is wrong with all of them
/// is what is wrong with those after the first `k`.
proof fn lemma_check_segments_skip(segments: Seq<Seq<u8>>, k: int)
    requires
        0 <= k <= segments.len(),
        forall|m: int| 0 <= m < k ==> spec_check_segment(#[trigger] segments[m]) is Ok,
    ensures
        spec_check_segments(segments) == spec_check_segments(segments.skip(k)),
    decreases k,
{
    if k == 0 {
        assert(segments.skip(0) =~= segments);
    } else {
        assert(spec_check_segment(segments[0]) is Ok);
        let rest = segments.drop_first();
        assert forall|m: int| 0 <= m < k - 1 implies spec_check_segment(
            #[trigger] rest[m],
        ) is Ok by {
            assert(rest[m] == segments[m + 1]);
        }
        lemma_check_segments_skip(rest, k - 1);
        assert(rest.skip(k - 1) =~= segments.skip(k));
    }
}

/// Makes an address of segments that were read into bytes already.
fn make_address(path: Vec<Vec<u8>>, method: Vec<u8>) -> (r: Result<Address, AddressErr>)
    ensures
        address_made(r, views(path@), method@),
{
    let ghost segments = views(path@).push(method@);
    let mut i: usize = 0;
    while i < path.len()
        invariant
            i <= path@.len(),
            segments == views(path@).push(method@),
            forall|m: int| 0 <= m < i ==> spec_check_segment(#[trigger] segments[m]) is Ok,
        decreases path@.len() - i,
    {
        match check_segment(&path[i]) {
            Ok(()) => {},
            Err(e) => {
                proof {
                    lemma_check_segments_skip(segments, i as int);
                    assert(segments.skip(i as int)[0] == path@[i as int]@);
                }
                return Err(e);
            },
        }
        i = i + 1;
    }
    proof {
        lemma_check_segments_skip(segments, path@.len() as int);
        let last = segments.skip(path@.len() as int);
        assert(last[0] == method@);
        assert(last.drop_first() =~= Seq::<Seq<u8>>::empty());
        assert(spec_check_segments(last.drop_first()) is Ok);
    }
    match check_segment(&method) {
        Ok(()) => {
            proof {
                lemma_address_rejection(views(path@), method@);
            }
            Ok(Address { path, method })
        },
        Err(e) => Err(e),
    }
}

/// Fuse a list of strings into an OSC address by interspersing with `/`.
pub trait IntoAddress<Method: IntoIntoAddress>: Sized {
    /// The segments that this list stands for, each by its bytes.
    spec fn spec_path(&self) -> Seq<Seq<u8>>;

    /// Fuse a list of strings into an OSC address by interspersing with `/`.
    /// Fails if the address is invalid (by the rules of OSC 1.0).
    fn into_address(self, method: Method) -> (r: Result<Address, AddressErr>)
        ensures
            address_made(r, self.spec_path(), method.spec_segment()),
    ;
}

impl<Method: IntoIntoAddress> IntoAddress<Method> for Vec<Method> {
    open spec fn spec_path(&self) -> Seq<Seq<u8>> {
        self@.map_values(|segment: Method| segment.spec_segment())
    }

    fn into_address(self, method: Method) -> (r: Result<Address, AddressErr>) {
        let ghost wanted = self.spec_path();
        let mut path: Vec<Vec<u8>> = Vec::new();
        for segment in it: self.into_iter()
            invariant
                wanted == it.seq().map_values(|segment: Method| segment.spec_segment()),
                views(path@) == wanted.take(it.index()),
        {
            let bytes = collect(segment.into_into_addr());
            let ghost before = views(path@);
            path.push(bytes);
            proof {
                assert(views(path@) =~= before.push(bytes@));
                assert(wanted.take(it.index() + 1) =~= wanted.take(it.index()).push(bytes@));
            }
        }
        proof {
            assert(wanted.take(wanted.len() as int) =~= wanted);
        }
        make_address(path, collect(method.into_into_addr()))
    }
}

impl<'p, Method: IntoIntoAddress + Copy> IntoAddress<Method> for &'p [Method] {
    open spec fn spec_path(&self) -> Seq<Seq<u8>> {
        self@.map_values(|segment: Method| segment.spec_segment())
    }

    fn into_address(self, method: Method) -> (r: Result<Address, AddressErr>) {
        let ghost wanted = self.spec_path();
        let mut path: Vec<Vec<u8>> = Vec::new();
        let mut i: usize = 0;
        while i < self.len()
            invariant
                i <= self@.len(),
                wanted == self@.map_values(|segment: Method| segment.spec_segment()),
                views(path@) == wanted.take(i as int),
            decreases self@.len() - i,
        {
            let segment = self[i];
            let bytes = collect(segment.into_into_addr());
            let ghost before = views(path@);
            path.push(bytes);
            proof {
                assert(views(path@) =~= before.push(bytes@));
                assert(wanted.take(i + 1) =~= wanted.take(i as int).push(bytes@));
            }
            i = i + 1;
        }
        proof {
            assert(wanted.take(wanted.len() as int) =~= wanted);
        }
        make_address(path, collect(method.into_into_addr()))
    }
}

impl<Method: IntoIntoAddress + Copy, const N: usize> IntoAddress<Method> for [Method; N] {
    open spec fn spec_path(&self) -> Seq<Seq<u8>> {
        self@.map_values(|segment: Method| segment.spec_segment())
    }

    fn into_address(self, method: Method) -> (r: Result<Address, AddressErr>) {
        let ghost wanted = self.spec_path();
        let mut path: Vec<Vec<u8>> = Vec::new();
        let mut i: usize = 0;
        while i < N
            invariant
                i <= N,
                N == self@.len(),
                wanted == self@.map_values(|segment: Method| segment.spec_segment()),
                views(path@) == wanted.take(i as int),
            decreases N - i,
        {
            let segment = self[i];
            let bytes = collect(segment.into_into_addr());
            let ghost before = views(path@);
            path.push(bytes);
            proof {
                assert(views(path@) =~= before.push(bytes@));
                assert(wanted.take(i + 1) =~= wanted.take(i as int).push(bytes@));
            }
            i = i + 1;
        }
        proof {
            assert(wanted.take(wanted.len() as int) =~= wanted);
        }
        make_address(path, collect(method.into_into_addr()))
    }
}

/// The segments one after the other, each with a `/` before it, begin with
/// a `/` and the first segment.
pub proof fn lemma_join_front(segments: Seq<Seq<u8>>)
    requires
        segments.len() > 0,
    ensures
        join(segments) == seq![SLASH] + segments[0] + join(segments.drop_first()),
    decreases segments.len(),
{
    if segments.len() == 1 {
        assert(segments.drop_last() =~= Seq::<Seq<u8>>::empty());
        assert(segments.drop_first() =~= Seq::<Seq<u8>>::empty());
        assert(join(segments) =~= seq![SLASH] + segments[0] + join(segments.drop_first()));
    } else {
        let init = segments.drop_last();
        lemma_join_front(init);
        assert(init.drop_first() =~= segments.drop_first().drop_last());
        assert(init[0] == segments[0]);
        assert(segments.drop_first().last() == segments.last());
        assert(join(segments) =~= seq![SLASH] + segments[0] + join(segments.drop_first()));
    }
}

/// Iterator over an OSC address, e.g. `/lighting/right/...`
#[derive(Debug)]
pub struct Iter {
    /// All the segments, the method last.
    segments: Vec<Vec<u8>>,
    /// The segment that is being handed out, or that comes next.
    index: usize,
    /// How much of the segment has been handed out.
    pos: usize,
    /// Whether the next item should be a slash, or the null byte at the end.
    slash: bool,
    /// Whether the null byte at the end has been handed out.
    done: bool,
}

impl Iter {
    #[verifier::type_invariant]
    spec fn in_bounds(self) -> bool {
        &&& self.index <= self.segments@.len()
        &&& !self.done && !self.slash ==> self.index < self.segments@.len() && self.pos
            <= self.segments@[self.index as int]@.len()
    }
}

impl ByteStream for Iter {
    closed spec fn remaining(&self) -> Seq<u8> {
        let segments = views(self.segments@);
        if self.done {
            Seq::empty()
        } else if self.slash {
            join(segments.skip(self.index as int)) + seq![NUL]
        } else {
            segments[self.index as int].skip(self.pos as int) + join(
                segments.skip(self.index + 1),
            ) + seq![NUL]
        }
    }

    fn next(&mut self) -> (byte: Option<u8>) {
        proof {
            use_type_invariant(&*self);
        }
        let ghost segments = views(self.segments@);
        if self.done {
            return None;
        }
        if !self.slash {
            if self.pos < self.segments[self.index].len() {
                let b = self.segments[self.index][self.pos];
                self.pos = self.pos + 1;
                proof {
                    let segment = segments[self.index as int];
                    assert(segment.skip(self.pos as int) =~= segment.skip(
                        self.pos - 1,
                    ).drop_first());
                    assert(self.remaining() =~= old(self).remaining().drop_first());
                }
                return Some(b);
            }
            let started = self.index;
            assert(started < self.segments.len());
            self.slash = true;
            self.index = started + 1;
            proof {
                let segment = segments[self.index - 1];
                assert(segment.skip(segment.len() as int) =~= Seq::<u8>::empty());
                assert(self.remaining() =~= old(self).remaining());
            }
        }
        let ghost before = self.remaining();
        if self.index < self.segments.len() {
            self.pos = 0;
            self.slash = false;
            proof {
                let rest = segments.skip(self.index as int);
                lemma_join_front(rest);
                assert(rest.drop_first() =~= segments.skip(self.index + 1));
                assert(rest[0].skip(0) =~= rest[0]);
                assert(self.remaining() =~= before.drop_first());
            }
            Some(SLASH)
        } else {
            self.done = true;
            proof {
                assert(segments.skip(self.index as int) =~= Seq::<Seq<u8>>::empty());
                assert(before =~= seq![NUL]);
                assert(self.remaining() =~= before.drop_first());
            }
            Some(NUL)
        }
    }
}

impl Address {
    /// The wire form of this address, byte by byte.
    pub fn into_iter(self) -> (bytes: Batched<Iter>)
        ensures
            bytes.remaining() == spec_encode_address(self@),
    {
        let ghost path = views(self.path@);
        let mut segments = self.path;
        segments.push(self.method);
        proof {
            assert(views(segments@) =~= path.push(self.method@));
            assert(views(segments@).skip(0) =~= views(segments@));
        }
        Iter { segments, index: 0, pos: 0, slash: true, done: false }.batch()
    }
}

/// Error encountered while decoding an OSC address.
#[derive(Clone, Copy, Debug, Eq, Hash, Ord, PartialEq, PartialOrd)]
pub enum AddressDecodeErr {
    /// Missing the leading `/`.
    LeadingSlash {
        /// Character seen instead of `/`.
        actual: u8,
    },
    /// Ends after a `/`.
    NoMethod,
    /// Immediate `//` with nothing in between.
    EmptySegment,
    /// Blacklisted character, e.g. `*`.
    PatternsNotYetImplemented(u8),
    /// Not a printable ASCII character.
    NotPrintableAscii(u8),
    /// Returned a null terminator then the rest of the 4-byte chunk was not null.
    NullThenNonNull,
}

/// The segments that the bytes of an address are cut into: a `/` begins a
/// new segment, and any other byte goes to the end of the last one.
pub open spec fn segments_of(bytes: Seq<u8>) -> Seq<Seq<u8>>
    decreases bytes.len(),
{
    if bytes.len() == 0 {
        Seq::empty()
    } else {
        let before = segments_of(bytes.drop_last());
        if bytes.last() == SLASH {
            before.push(Seq::empty())
        } else if before.len() == 0 {
            seq![seq![bytes.last()]]
        } else {
            before.drop_last().push(before.last().push(bytes.last()))
        }
    }
}

/// The address of the segments `segments`, the last of which is its method.
pub open spec fn address_of(segments: Seq<Seq<u8>>) -> AddressView {
    AddressView { path: segments.drop_last(), method: segments.last() }
}

/// A byte at which the reading of an address stops: the null byte, a `/`
/// right after a `/`, or a byte that is neither a `/` nor a valid character.
pub open spec fn address_stop() -> spec_fn(Seq<u8>, int) -> bool {
    |s: Seq<u8>, i: int|
        s[i] == NUL || (s[i] == SLASH && s[i - 1] == SLASH) || (s[i] != SLASH
            && !spec_valid_address_character(s[i]))
}

/// What the reading of an address makes of a stop at index `j` of the whole
/// units `whole`.
///
/// A null byte right after a `/` leaves the address without a method; any
/// other null byte ends the address, and the rest of its unit must be null.
/// A `/` is a stop only after another, and then a segment is empty. Any
/// other stop is a character that cannot stand in an address.
pub open spec fn address_at_stop(whole: Seq<u8>, j: int) -> Result<
    AddressView,
    Misaligned4B<AddressDecodeErr>,
> {
    let b = whole[j];
    if b == NUL {
        if whole[j - 1] == SLASH {
            Err(Misaligned4B::Other(AddressDecodeErr::NoMethod))
        } else if !null_to_unit_end(whole, j) {
            Err(Misaligned4B::Other(AddressDecodeErr::NullThenNonNull))
        } else {
            Ok(address_of(segments_of(whole.subrange(0, j))))
        }
    } else if b == SLASH {
        Err(Misaligned4B::Other(AddressDecodeErr::EmptySegment))
    } else if spec_pattern_character(b) {
        Err(Misaligned4B::Other(AddressDecodeErr::PatternsNotYetImplemented(b)))
    } else {
        Err(Misaligned4B::Other(AddressDecodeErr::NotPrintableAscii(b)))
    }
}

/// What decoding an address makes of `input`.
///
/// The first unit must begin with a `/`. After it, the bytes of the whole
/// units are read in order up to the first stop.
pub open spec fn spec_decode_address(input: Seq<u8>) -> Decoded<AddressView, AddressDecodeErr> {
    let whole = whole_units(input);
    let j = first_stop(whole, 1, address_stop());
    if input.len() < 4 {
        ran_out(input)
    } else if input[0] != SLASH {
        Decoded {
            result: Err(Misaligned4B::Other(AddressDecodeErr::LeadingSlash { actual: input[0] })),
            rest: input.skip(4),
        }
    } else if j >= whole.len() {
        ran_out(input)
    } else {
        Decoded { result: address_at_stop(whole, j), rest: input.skip(unit_end(j)) }
    }
}

/// Segments as they are while an address is read: every character is
/// valid, no segment before the last is empty, and the last is empty
/// exactly if `post_slash` holds.
pub open spec fn segments_in_progress(segments: Seq<Seq<u8>>, post_slash: bool) -> bool {
    &&& segments.len() >= 1
    &&& forall|k: int, i: int|
        0 <= k < segments.len() && 0 <= i < segments[k].len() ==> spec_valid_address_character(
            #[trigger] segments[k][i],
        )
    &&& forall|k: int| 0 <= k < segments.len() - 1 ==> (#[trigger] segments[k]).len() > 0
    &&& (segments.last().len() == 0) == post_slash
}

/// Bytes that begin with a `/` and hold no stop from index 1 up to `p` are
/// cut into segments in progress.
pub proof fn lemma_segments_in_progress(whole: Seq<u8>, p: int)
    requires
        1 <= p <= whole.len(),
        whole[0] == SLASH,
        forall|i: int| 1 <= i < p ==> !#[trigger] address_stop()(whole, i),
    ensures
        segments_in_progress(segments_of(whole.subrange(0, p)), whole[p - 1] == SLASH),
    decreases p,
{
    let bytes = whole.subrange(0, p);
    if p == 1 {
        assert(bytes.drop_last() =~= Seq::<u8>::empty());
        assert(segments_of(bytes.drop_last()) =~= Seq::<Seq<u8>>::empty());
        assert(segments_of(bytes) =~= seq![Seq::<u8>::empty()]);
    } else {
        lemma_segments_in_progress(whole, p - 1);
        assert(bytes.drop_last() =~= whole.subrange(0, p - 1));
        let before = segments_of(bytes.drop_last());
        let c = whole[p - 1];
        assert(bytes.last() == c);
        assert(!address_stop()(whole, p - 1));
        let after = segments_of(bytes);
        if c == SLASH {
            assert(after =~= before.push(Seq::<u8>::empty()));
            assert forall|k: int| 0 <= k < after.len() - 1 implies (#[trigger] after[k]).len()
                > 0 by {
                assert(after[k] == before[k]);
            }
            assert forall|k: int, i: int|
                0 <= k < after.len() && 0 <= i < after[k].len()
                    implies spec_valid_address_character(#[trigger] after[k][i]) by {
                assert(after[k] == before[k]);
            }
        } else {
            assert(after =~= before.drop_last().push(before.last().push(c)));
            assert forall|k: int| 0 <= k < after.len() - 1 implies (#[trigger] after[k]).len()
                > 0 by {
                assert(after[k] == before[k]);
            }
            assert forall|k: int, i: int|
                0 <= k < after.len() && 0 <= i < after[k].len()
                    implies spec_valid_address_character(#[trigger] after[k][i]) by {
                if k < after.len() - 1 {
                    assert(after[k] == before[k]);
                } else if i < before.last().len() {
                    assert(after[k][i] == before[k][i]);
                }
            }
        }
    }
}

/// An address that is decoded is an address that OSC 1.0 allows.
pub proof fn lemma_decoded_address_valid(input: Seq<u8>)
    ensures
        spec_decode_address(input).result matches Ok(address) ==> address.valid(),
{
    if let Ok(address) = spec_decode_address(input).result {
        let whole = whole_units(input);
        let j = first_stop(whole, 1, address_stop());
        lemma_first_stop(whole, 1, address_stop());
        assert(whole[0] == input[0]);
        lemma_segments_in_progress(whole, j);
        let segments = segments_of(whole.subrange(0, j));
        assert(address.segments() =~= segments);
        assert forall|k: int| 0 <= k < address.segments().len() implies valid_segment(
            #[trigger] address.segments()[k],
        ) by {
            if k < segments.len() - 1 {
                assert(segments[k].len() > 0);
            }
        }
    }
}

/// The reading of an address has come to index `p` of `whole` without a
/// stop: `v` holds the segments read so far, and `post_slash` says whether
/// the byte before `p` is a `/`.
pub open spec fn address_read_to(
    whole: Seq<u8>,
    p: int,
    v: Seq<Vec<u8>>,
    post_slash: bool,
) -> bool {
    &&& 1 <= p <= whole.len()
    &&& whole[0] == SLASH
    &&& first_stop(whole, 1, address_stop()) == first_stop(whole, p, address_stop())
    &&& views(v) == segments_of(whole.subrange(0, p))
    &&& v.len() >= 1
    &&& post_slash == (whole[p - 1] == SLASH)
}

/// Parse an individual character with some mutable state passed in.
fn parse_address_char(
    byte: u8,
    unit: &[u8; 4],
    k: usize,
    post_slash: &mut bool,
    v: &mut Vec<Vec<u8>>,
    Ghost(whole): Ghost<Seq<u8>>,
    Ghost(base): Ghost<int>,
) -> (r: Option<Result<Vec<u8>, Misaligned4B<AddressDecodeErr>>>)
    requires
        0 <= base,
        base % 4 == 0,
        base + 4 <= whole.len(),
        k < 4,
        unit@ == whole.subrange(base, base + 4),
        byte == unit@[k as int],
        address_read_to(whole, base + k, old(v)@, *old(post_slash)),
    ensures
        match r {
            None => address_read_to(whole, base + k + 1, final(v)@, *final(post_slash)),
            Some(outcome) => {
                &&& first_stop(whole, 1, address_stop()) == base + k
                &&& match outcome {
                    Ok(method) => Ok(
                        AddressView { path: views(final(v)@), method: method@ },
                    ),
                    Err(e) => Err(e),
                } == address_at_stop(whole, base + k)
            },
        },
{
    let ghost p = base + k;
    let ghost before = segments_of(whole.subrange(0, p));
    proof {
        assert(byte == whole[p]) by {
            assert(unit@[k as int] == whole.subrange(base, base + 4)[k as int]);
        }
        assert(address_stop()(whole, p) ==> first_stop(whole, p, address_stop()) == p);
        assert(whole.subrange(0, p + 1).drop_last() =~= whole.subrange(0, p));
    }
    if byte == NUL {
        if *post_slash {
            return Some(Err(Misaligned4B::Other(AddressDecodeErr::NoMethod)));
        }
        if !null_after(unit, k, Ghost(whole), Ghost(base)) {
            return Some(Err(Misaligned4B::Other(AddressDecodeErr::NullThenNonNull)));
        }
        let method = match v.pop() {
            Some(method) => method,
            None => Vec::new(),
        };
        proof {
            assert(views(v@) =~= before.drop_last());
        }
        Some(Ok(method))
    } else if byte == SLASH {
        if *post_slash {
            Some(Err(Misaligned4B::Other(AddressDecodeErr::EmptySegment)))
        } else {
            let ghost old_v = v@;
            v.push(Vec::new());
            *post_slash = true;
            proof {
                lemma_first_stop_from(whole, p, p + 1, address_stop());
                assert(views(v@) =~= views(old_v).push(Seq::<u8>::empty()));
            }
            None
        }
    } else if pattern_character(byte) {
        Some(Err(Misaligned4B::Other(AddressDecodeErr::PatternsNotYetImplemented(byte))))
    } else if !valid_address_character(byte) {
        Some(Err(Misaligned4B::Other(AddressDecodeErr::NotPrintableAscii(byte))))
    } else {
        *post_slash = false;
        let ghost old_v = v@;
        let mut segment = match v.pop() {
            Some(segment) => segment,
            None => Vec::new(),
        };
        segment.push(byte);
        v.push(segment);
        proof {
            lemma_first_stop_from(whole, p, p + 1, address_stop());
            assert(views(v@) =~= views(old_v).drop_last().push(views(old_v).last().push(byte)));
        }
        None
    }
}

/// Parse the characters of a unit from `start` on with some mutable state
/// passed in.
fn parse_address_chars(
    unit: &[u8; 4],
    start: usize,
    post_slash: &mut bool,
    v: &mut Vec<Vec<u8>>,
    Ghost(whole): Ghost<Seq<u8>>,
    Ghost(base): Ghost<int>,
) -> (r: Option<Result<Vec<u8>, Misaligned4B<AddressDecodeErr>>>)
    requires
        0 <= base,
        base % 4 == 0,
        base + 4 <= whole.len(),
        start <= 4,
        unit@ == whole.subrange(base, base + 4),
        address_read_to(whole, base + start, old(v)@, *old(post_slash)),
    ensures
        match r {
            None => address_read_to(whole, base + 4, final(v)@, *final(post_slash)),
            Some(outcome) => {
                let j = first_stop(whole, 1, address_stop());
                &&& base + start <= j < base + 4
                &&& match outcome {
                    Ok(method) => Ok(
                        AddressView { path: views(final(v)@), method: method@ },
                    ),
                    Err(e) => Err(e),
                } == address_at_stop(whole, j)
            },
        },
{
    let mut k: usize = start;
    while k < 4
        invariant
            start <= k <= 4,
            0 <= base,
            base % 4 == 0,
            base + 4 <= whole.len(),
            unit@ == whole.subrange(base, base + 4),
            address_read_to(whole, base + k, v@, *post_slash),
        decreases 4 - k,
    {
        let byte = unit[k];
        match parse_address_char(byte, unit, k, post_slash, v, Ghost(whole), Ghost(base)) {
            None => {},
            Some(outcome) => {
                return Some(outcome);
            },
        }
        k = k + 1;
    }
    None
}

impl Decode for Address {
    type Error = AddressDecodeErr;

    open spec fn spec_decode(input: Seq<u8>) -> Decoded<AddressView, AddressDecodeErr> {
        spec_decode_address(input)
    }

    fn decode<S: ByteStream>(iter: &mut S) -> (r: Result<Self, Misaligned4B<AddressDecodeErr>>) {
        let ghost input = iter.remaining();
        let ghost whole = whole_units(input);
        let first = match Aligned4B::<AddressDecodeErr>::decode(iter) {
            Ok(unit) => unit.into_iter(),
            Err(e) => {
                proof {
                    assert(iter.remaining() =~= Seq::<u8>::empty());
                }
                return Err(e);
            },
        };
        let actual = first[0];
        if actual != SLASH {
            return Err(Misaligned4B::Other(AddressDecodeErr::LeadingSlash { actual }));
        }
        let mut post_slash = true;
        let mut v: Vec<Vec<u8>> = Vec::new();
        v.push(Vec::new());
        proof {
            assert(first@ =~= whole.subrange(0, 4));
            assert(whole[0] == first@[0]);
            let one = whole.subrange(0, 1);
            assert(one.drop_last() =~= Seq::<u8>::empty());
            assert(segments_of(one.drop_last()) =~= Seq::<Seq<u8>>::empty());
            assert(views(v@) =~= segments_of(one));
        }
        match parse_address_chars(&first, 1, &mut post_slash, &mut v, Ghost(whole), Ghost(0)) {
            None => {},
            Some(Ok(method)) => {
                proof {
                    lemma_decoded_address_valid(input);
                }
                return Ok(Address { path: v, method });
            },
            Some(Err(e)) => {
                return Err(e);
            },
        }
        let ghost mut n: int = 1;
        loop
            invariant
                1 <= n,
                4 * n <= whole.len(),
                input == old(iter).remaining(),
                whole == whole_units(input),
                input.len() >= 4,
                input[0] == SLASH,
                iter.remaining() == input.skip(4 * n),
                address_read_to(whole, 4 * n, v@, post_slash),
            decreases iter.remaining().len(),
        {
            proof {
                lemma_next_unit::<AddressView, AddressDecodeErr>(input, n, iter.remaining());
            }
            let unit = match Aligned4B::<AddressDecodeErr>::decode(iter) {
                Ok(unit) => unit.into_iter(),
                Err(e) => {
                    proof {
                        assert(first_stop(whole, 4 * n, address_stop()) == whole.len());
                    }
                    return Err(e);
                },
            };
            match parse_address_chars(
                &unit,
                0,
                &mut post_slash,
                &mut v,
                Ghost(whole),
                Ghost(4 * n),
            ) {
                None => {},
                Some(Ok(method)) => {
                    proof {
                        lemma_decoded_address_valid(input);
                    }
                    return Ok(Address { path: v, method });
                },
                Some(Err(e)) => {
                    return Err(e);
                },
            }
            proof {
                n = n + 1;
            }
        }
    }

    proof fn lemma_units(input: Seq<u8>) {
        let whole = whole_units(input);
        let d = spec_decode_address(input);
        if input.len() >= 4 {
            lemma_first_stop(whole, 1, address_stop());
        }
        assert(d.rest =~= input.skip(input.len() - d.rest.len()));
    }
}

/// How valid segments look when they are joined: the bytes begin with a
/// `/` and do not end with one, no `/` comes right after another, and every
/// other byte is a valid character.
pub proof fn lemma_join_shape(segments: Seq<Seq<u8>>)
    requires
        forall|k: int| 0 <= k < segments.len() ==> valid_segment(#[trigger] segments[k]),
    ensures
        segments.len() > 0 ==> join(segments).len() > 0 && join(segments)[0] == SLASH && join(
            segments,
        ).last() != SLASH,
        forall|i: int|
            0 <= i < join(segments).len() && #[trigger] join(segments)[i] != SLASH
                ==> spec_valid_address_character(join(segments)[i]),
        forall|i: int|
            0 < i < join(segments).len() && #[trigger] join(segments)[i] == SLASH ==> join(
                segments,
            )[i - 1] != SLASH,
    decreases segments.len(),
{
    if segments.len() > 0 {
        let init = segments.drop_last();
        let last = segments.last();
        assert forall|k: int| 0 <= k < init.len() implies valid_segment(#[trigger] init[k]) by {
            assert(init[k] == segments[k]);
        }
        lemma_join_shape(init);
        assert(valid_segment(last));
        let head = join(init);
        let body = join(segments);
        assert(body =~= head + seq![SLASH] + last);
        assert(body.last() == last.last());
        assert(spec_valid_address_character(last.last()));
        assert forall|i: int| 0 <= i < body.len() && #[trigger] body[i] != SLASH implies
            spec_valid_address_character(body[i]) by {
            if i < head.len() {
                assert(body[i] == head[i]);
            } else if i > head.len() {
                assert(body[i] == last[i - head.len() - 1]);
            }
        }
        assert forall|i: int| 0 < i < body.len() && #[trigger] body[i] == SLASH implies body[i
            - 1] != SLASH by {
            if i < head.len() {
                assert(body[i] == head[i]);
                assert(body[i - 1] == head[i - 1]);
            } else if i == head.len() {
                if head.len() > 0 {
                    assert(body[i - 1] == head.last());
                }
            } else {
                assert(body[i] == last[i - head.len() - 1]);
                assert(spec_valid_address_character(last[i - head.len() - 1]));
            }
        }
        if init.len() > 0 {
            assert(body[0] == head[0]);
        }
    }
}

/// Bytes that are cut into segments, then a `/` and the beginning of a
/// segment without a `/` in it: these are cut into the same segments and
/// one more.
proof fn lemma_segments_of_next(head: Seq<u8>, segment: Seq<u8>, m: int)
    requires
        0 <= m <= segment.len(),
        forall|i: int| 0 <= i < segment.len() ==> segment[i] != SLASH,
    ensures
        segments_of(head + seq![SLASH] + segment.take(m)) == segments_of(head).push(
            segment.take(m),
        ),
    decreases m,
{
    let bytes = head + seq![SLASH] + segment.take(m);
    if m == 0 {
        assert(bytes.drop_last() =~= head);
        assert(segment.take(0) =~= Seq::<u8>::empty());
    } else {
        lemma_segments_of_next(head, segment, m - 1);
        assert(bytes.drop_last() =~= head + seq![SLASH] + segment.take(m - 1));
        assert(bytes.last() == segment[m - 1]);
        let before = segments_of(bytes.drop_last());
        assert(before.drop_last() =~= segments_of(head));
        assert(before.last().push(segment[m - 1]) =~= segment.take(m));
    }
}

/// Segments without a `/` in them that are joined and cut again come back
/// as they were.
pub proof fn lemma_segments_of_join(segments: Seq<Seq<u8>>)
    requires
        forall|k: int| 0 <= k < segments.len() ==> valid_segment(#[trigger] segments[k]),
    ensures
        segments_of(join(segments)) == segments,
    decreases segments.len(),
{
    if segments.len() == 0 {
        assert(segments_of(join(segments)) =~= segments);
    } else {
        let init = segments.drop_last();
        let last = segments.last();
        assert forall|k: int| 0 <= k < init.len() implies valid_segment(#[trigger] init[k]) by {
            assert(init[k] == segments[k]);
        }
        lemma_segments_of_join(init);
        assert(valid_segment(last));
        assert forall|i: int| 0 <= i < last.len() implies last[i] != SLASH by {
            assert(spec_valid_address_character(last[i]));
        }
        lemma_segments_of_next(join(init), last, last.len() as int);
        assert(last.take(last.len() as int) =~= last);
        assert(init.push(last) =~= segments);
    }
}

/// A valid address that is encoded and decoded again comes back as it was,
/// and what followed it on the wire is left unread.
pub proof fn lemma_address_round_trip(address: AddressView, tail: Seq<u8>)
    requires
        address.valid(),
    ensures
        spec_decode_address(spec_encode_address(address) + tail).result == Ok::<
            AddressView,
            Misaligned4B<AddressDecodeErr>,
        >(address),
        spec_decode_address(spec_encode_address(address) + tail).rest == tail,
{
    let segments = address.segments();
    let body = join(segments);
    let input = spec_encode_address(address) + tail;
    let whole = whole_units(input);
    let j = body.len() as int;
    lemma_join_shape(segments);
    lemma_segments_of_join(segments);
    lemma_field_layout(body, tail);
    assert forall|i: int| 0 <= i < j implies whole[i] == body[i] by {
        assert(whole[i] == whole.subrange(0, j)[i]);
    }
    assert forall|i: int| 1 <= i < j implies !#[trigger] address_stop()(whole, i) by {
        assert(whole[i] == body[i]);
        assert(whole[i - 1] == body[i - 1]);
        if body[i] != SLASH {
            assert(spec_valid_address_character(body[i]));
        }
    }
    lemma_first_stop_is(whole, 1, j, address_stop());
    assert(whole[j - 1] == body.last());
    assert(address_of(segments) == address) by {
        assert(segments.drop_last() =~= address.path);
    }
}

/// `error` is what is wrong with `segments` at the segment `k`: every
/// segment before it is valid and it is not; it is empty and the error is
/// `Empty`, or the error names its first character that is not valid.
pub open spec fn rejected_for(segments: Seq<Seq<u8>>, k: int, error: AddressErr) -> bool {
    &&& 0 <= k < segments.len()
    &&& forall|m: int| 0 <= m < k ==> valid_segment(#[trigger] segments[m])
    &&& !valid_segment(segments[k])
    &&& if segments[k].len() == 0 {
        error == AddressErr::Empty
    } else {
        exists|i: int| #[trigger]
            first_invalid_at(segments[k], i) && error == AddressErr::InvalidCharacter(
                segments[k][i],
            )
    }
}

/// The character at `i` is the first of `segment` that is not valid.
pub open spec fn first_invalid_at(segment: Seq<u8>, i: int) -> bool {
    &&& 0 <= i < segment.len()
    &&& !spec_valid_address_character(segment[i])
    &&& forall|n: int| 0 <= n < i ==> spec_valid_address_character(#[trigger] segment[n])
}

/// An address is accepted exactly if it is valid. One that is not is
/// rejected for the first of its segments, the method last, that is not
/// valid: as empty where that segment is empty, and else for the first
/// character of that segment that is not valid. A character is not valid if
/// it is a space, one of `#`, `*`, `,`, `/`, `?`, `[`, `]`, `{`, `}`, or not
/// printable.
pub proof fn lemma_address_rejection(path: Seq<Seq<u8>>, method: Seq<u8>)
    ensures
        spec_check_address(path, method) is Ok <==> (AddressView { path, method }).valid(),
        spec_check_address(path, method) matches Err(e) ==> exists|k: int| #[trigger]
            rejected_for(path.push(method), k, e),
        forall|c: u8|
            !#[trigger] spec_valid_address_character(c) <==> c == 0x20 || c == 0x23 || c == 0x2a
                || c == 0x2c || c == 0x2f || c == 0x3f || c == 0x5b || c == 0x5d || c == 0x7b || c
                == 0x7d || c < 32 || c > 126,
{
    let segments = path.push(method);
    lemma_check_segments(segments);
    if let Err(e) = spec_check_address(path, method) {
        let k = choose|k: int|
            0 <= k < segments.len() && spec_check_segments(segments) == spec_check_segment(
                #[trigger] segments[k],
            ) && forall|m: int| 0 <= m < k ==> valid_segment(#[trigger] segments[m]);
        lemma_check_segment(segments[k]);
        if segments[k].len() > 0 {
            let i = first_stop(segments[k], 0, invalid_character());
            lemma_first_stop(segments[k], 0, invalid_character());
            assert(invalid_character()(segments[k], i));
            assert forall|n: int| 0 <= n < i implies spec_valid_address_character(
                #[trigger] segments[k][n],
            ) by {
                assert(!invalid_character()(segments[k], n));
            }
            assert(first_invalid_at(segments[k], i));
        }
        assert(rejected_for(segments, k, e));
        assert(!valid_segment((AddressView { path, method }).segments()[k]));
    } else {
        assert forall|k: int| 0 <= k < segments.len() implies valid_segment(
            #[trigger] (AddressView { path, method }).segments()[k],
        ) by {
            assert(valid_segment(segments[k]));
        }
    }
}

impl AddressDecodeErr {
    /// The message that describes this error.
    pub open spec fn spec_message(&self) -> Seq<char> {
        match self {
            AddressDecodeErr::LeadingSlash { actual } => {
                "OSC address missing leading slash (got '"@
                    + spec_escape(*actual) + "' instead)."@
            },
            AddressDecodeErr::NoMethod => {
                "OSC address missing a method, i.e. ending immediately after a '/'."@
            },
            AddressDecodeErr::EmptySegment => {
                "OSC address with a zero-sized segment, i.e. back-to-back slashes \"//\"."@
            },
            AddressDecodeErr::PatternsNotYetImplemented(c) => {
                "OSC pattern matching not yet implemented (required for the character '"@
                    + spec_escape(*c) + "'). (Want to help? Open a pull request with your implementation!)"@
            },
            AddressDecodeErr::NotPrintableAscii(c) => {
                "OSC address should be entirely printable ASCII characters (got '"@
                    + spec_escape(*c) + "')"@
            },
            AddressDecodeErr::NullThenNonNull => {
                "OSC address returned a null terminator, but then the rest of its 4-byte chunk was non-null."@
            },
        }
    }

    /// The message that describes this error.
    pub fn to_string(&self) -> (text: std::string::String)
        ensures
            text@ == self.spec_message(),
    {
        match self {
            AddressDecodeErr::LeadingSlash { actual } => around(
                "OSC address missing leading slash (got '",
                *actual,
                "' instead).",
            ),
            AddressDecodeErr::NoMethod => String::from_str(
                "OSC address missing a method, i.e. ending immediately after a '/'.",
            ),
            AddressDecodeErr::EmptySegment => String::from_str(
                "OSC address with a zero-sized segment, i.e. back-to-back slashes \"//\".",
            ),
            AddressDecodeErr::PatternsNotYetImplemented(c) => around(
                "OSC pattern matching not yet implemented (required for the character '",
                *c,
                "'). (Want to help? Open a pull request with your implementation!)",
            ),
            AddressDecodeErr::NotPrintableAscii(c) => around(
                "OSC address should be entirely printable ASCII characters (got '",
                *c,
                "')",
            ),
            AddressDecodeErr::NullThenNonNull => String::from_str(
                "OSC address returned a null terminator, but then the rest of its 4-byte chunk was non-null.",
            ),
        }
    }
}

/// Each of `segments` by the ASCII characters that its bytes stand for.
pub open spec fn segment_texts(segments: Seq<Seq<u8>>) -> Seq<Seq<char>> {
    segments.map_values(|segment: Seq<u8>| ascii_chars(segment))
}

/// The text of a segment whose bytes are ASCII.
fn segment_text(segment: &Vec<u8>) -> (text: std::string::String)
    requires
        forall|i: int| 0 <= i < segment@.len() ==> segment@[i] < 128,
    ensures
        text.spec_segment() == segment@,
        text@ == ascii_chars(segment@),
{
    let mut text = std::string::String::new();
    let mut i: usize = 0;
    proof {
        assert(ascii_bytes(text@) =~= segment@.take(0));
        assert(text@ =~= ascii_chars(segment@.take(0)));
    }
    while i < segment.len()
        invariant
            i <= segment@.len(),
            forall|k: int| 0 <= k < segment@.len() ==> segment@[k] < 128,
            ascii_bytes(text@) == segment@.take(i as int),
            text@ == ascii_chars(segment@.take(i as int)),
            is_ascii_chars(text@),
        decreases segment@.len() - i,
    {
        proof {
            lemma_push_ascii(text@, segment@[i as int]);
        }
        push_char(&mut text, segment[i] as char);
        proof {
            assert(segment@.take(i + 1) =~= segment@.take(i as int).push(segment@[i as int]));
            assert(text@ =~= ascii_chars(segment@.take(i + 1)));
        }
        i = i + 1;
    }
    proof {
        assert(segment@.take(segment@.len() as int) =~= segment@);
        vstd::utf8::is_ascii_chars_encode_utf8(text@);
        assert(text.spec_segment() =~= ascii_bytes(text@));
    }
    text
}

impl Address {
    /// The segments of the path and the method, as strings.
    pub fn into_strings(self) -> (parts: (Vec<std::string::String>, std::string::String))
        ensures
            parts.0.spec_path() == self@.path,
            parts.1.spec_segment() == self@.method,
            parts.0@.map_values(|text: std::string::String| text@) == segment_texts(self@.path),
            parts.1@ == ascii_chars(self@.method),
    {
        proof {
            use_type_invariant(&self);
        }
        let ghost wanted = self@.path;
        let mut path: Vec<std::string::String> = Vec::with_capacity(self.path.len());
        let mut i: usize = 0;
        proof {
            assert(path.spec_path() =~= wanted.take(0));
            assert(path@.map_values(|text: std::string::String| text@) =~= segment_texts(
                wanted.take(0),
            ));
        }
        while i < self.path.len()
            invariant
                i <= self.path@.len(),
                wanted == views(self.path@),
                self@.valid(),
                self@.path == wanted,
                path.spec_path() == wanted.take(i as int),
                path@.map_values(|text: std::string::String| text@) == segment_texts(
                    wanted.take(i as int),
                ),
            decreases self.path@.len() - i,
        {
            proof {
                assert(valid_segment(self@.segments()[i as int]));
                assert(self@.segments()[i as int] == self.path@[i as int]@);
            }
            let text = segment_text(&self.path[i]);
            let ghost before = path.spec_path();
            let ghost texts_before = path@.map_values(|text: std::string::String| text@);
            path.push(text);
            proof {
                assert(path.spec_path() =~= before.push(text.spec_segment()));
                assert(wanted.take(i + 1) =~= wanted.take(i as int).push(wanted[i as int]));
                assert(path@.map_values(|text: std::string::String| text@) =~= texts_before.push(
                    text@,
                ));
                assert(segment_texts(wanted.take(i + 1)) =~= segment_texts(
                    wanted.take(i as int),
                ).push(ascii_chars(wanted[i as int])));
            }
            i = i + 1;
        }
        proof {
            assert(wanted.take(wanted.len() as int) =~= wanted);
            assert(valid_segment(self@.segments()[self.path@.len() as int]));
        }
        let method = segment_text(&self.method);
        (path, method)
    }
}

/// Bytes that begin with a `/` are what the segments that they are cut
/// into are joined to.
pub proof fn lemma_join_segments_of(bytes: Seq<u8>)
    requires
        bytes.len() > 0,
        bytes[0] == SLASH,
    ensures
        segments_of(bytes).len() > 0,
        join(segments_of(bytes)) == bytes,
    decreases bytes.len(),
{
    let shorter = bytes.drop_last();
    let c = bytes.last();
    let before = segments_of(shorter);
    let segments = segments_of(bytes);
    assert(bytes =~= shorter.push(c));
    if bytes.len() == 1 {
        assert(shorter =~= Seq::<u8>::empty());
        assert(before =~= Seq::<Seq<u8>>::empty());
        assert(segments == before.push(Seq::<u8>::empty()));
        assert(segments.drop_last() =~= before);
        assert(segments.last() =~= Seq::<u8>::empty());
        assert(join(segments) == join(segments.drop_last()) + seq![SLASH] + segments.last());
        assert(join(before) =~= Seq::<u8>::empty());
        assert(join(segments) =~= seq![SLASH]);
        assert(bytes =~= seq![SLASH]);
    } else {
        assert(shorter[0] == bytes[0]);
        lemma_join_segments_of(shorter);
        assert(join(before) == shorter);
        if c == SLASH {
            assert(segments == before.push(Seq::<u8>::empty()));
            assert(segments.drop_last() =~= before);
            assert(segments.last() =~= Seq::<u8>::empty());
            assert(join(segments) == join(segments.drop_last()) + seq![SLASH] + segments.last());
            assert(join(segments) =~= shorter.push(SLASH));
        } else {
            let init = before.drop_last();
            let last = before.last();
            assert(segments == init.push(last.push(c)));
            assert(segments.drop_last() =~= init);
            assert(segments.last() =~= last.push(c));
            assert(join(before) == join(init) + seq![SLASH] + last);
            assert(join(segments) == join(segments.drop_last()) + seq![SLASH] + segments.last());
            assert(join(segments) =~= (join(init) + seq![SLASH] + last).push(c));
            assert(join(segments) =~= shorter.push(c));
        }
    }
}

/// The wire form of an address that is decoded is the part of the input
/// that was read.
pub proof fn lemma_decoded_address(input: Seq<u8>)
    ensures
        spec_decode_address(input).result matches Ok(address) ==> {
            &&& spec_decode_address(input).rest.len() <= input.len()
            &&& spec_encode_address(address) == input.take(
                input.len() - spec_decode_address(input).rest.len(),
            )
        },
{
    if let Ok(address) = spec_decode_address(input).result {
        let whole = whole_units(input);
        let j = first_stop(whole, 1, address_stop());
        let body = whole.subrange(0, j);
        lemma_first_stop(whole, 1, address_stop());
        assert(whole[0] == input[0]);
        assert(body[0] == whole[0]);
        lemma_join_segments_of(body);
        assert(address.segments() =~= segments_of(body));
        lemma_field_read(input, j);
    }
}

} // verus!
