//! Random values for property tests, and smaller values to try in their
//! place when a property fails.
//!
//! The randomness is QuickCheck's. What comes out of it is cut down to what
//! the OSC types can hold: a string to its ASCII characters other than the
//! null, a segment of an address to its valid characters.

use crate::address::{
    lemma_address_rejection, segment_texts, spec_check_address, spec_valid_address_character,
    valid_address_character, valid_segment, views, Address, AddressView, IntoAddress,
    IntoIntoAddress,
};
use crate::atomic::{
    ascii_bytes, ascii_chars, lemma_push_ascii, push_char, spec_check_string, Atomic, DynamicBlob,
    DynamicString, Integer,
};
use crate::dynamic::Tags;
use crate::tag::Tag;
use quickcheck::{Arbitrary, Gen};
use vstd::prelude::*;
use vstd::string::StringSliceAdditionalSpecFns;
use vstd::utf8::{encode_utf8, is_ascii_chars};

verus! {

/// `quickcheck::Gen`, the source of randomness that QuickCheck generates
/// values from.
#[verifier::external_type_specification]
#[verifier::external_body]
pub struct ExGen(Gen);

/// The size that a generator was made with. The lengths of the vectors and
/// strings that it generates are drawn from below it.
pub uninterp spec fn spec_gen_size(g: Gen) -> usize;

/// `Gen::size`: the size that the generator was made with.
#[verifier::external_body]
fn gen_size(g: &Gen) -> (size: usize)
    ensures
        size == spec_gen_size(*g),
{
    g.size()
}

/// `<i32 as Arbitrary>::arbitrary`: some number. The generator keeps its
/// size.
#[verifier::external_body]
fn arbitrary_i32(g: &mut Gen) -> (value: i32)
    ensures
        spec_gen_size(*final(g)) == spec_gen_size(*old(g)),
{
    i32::arbitrary(g)
}

/// `<String as Arbitrary>::arbitrary`: some string. It draws the length
/// from below the size of the generator, which must not be zero. The
/// generator keeps its size.
#[verifier::external_body]
fn arbitrary_string(g: &mut Gen) -> (value: String)
    requires
        spec_gen_size(*old(g)) > 0,
    ensures
        spec_gen_size(*final(g)) == spec_gen_size(*old(g)),
{
    String::arbitrary(g)
}

/// `<Vec<u8> as Arbitrary>::arbitrary`: some bytes. It draws the length
/// from below the size of the generator, which must not be zero. The
/// generator keeps its size.
#[verifier::external_body]
fn arbitrary_bytes(g: &mut Gen) -> (value: Vec<u8>)
    requires
        spec_gen_size(*old(g)) > 0,
    ensures
        spec_gen_size(*final(g)) == spec_gen_size(*old(g)),
{
    Vec::<u8>::arbitrary(g)
}

/// `<Vec<String> as Arbitrary>::arbitrary`: some strings. It draws the
/// lengths from below the size of the generator, which must not be zero.
/// The generator keeps its size.
#[verifier::external_body]
fn arbitrary_strings(g: &mut Gen) -> (value: Vec<String>)
    requires
        spec_gen_size(*old(g)) > 0,
    ensures
        spec_gen_size(*final(g)) == spec_gen_size(*old(g)),
{
    Vec::<String>::arbitrary(g)
}

/// `<Vec<()> as Arbitrary>::arbitrary`, of which only the length is kept:
/// the length of a random vector. It is drawn from below the size of the
/// generator, which must not be zero. The generator keeps its size.
#[verifier::external_body]
fn arbitrary_len(g: &mut Gen) -> (len: usize)
    requires
        spec_gen_size(*old(g)) > 0,
    ensures
        spec_gen_size(*final(g)) == spec_gen_size(*old(g)),
{
    Vec::<()>::arbitrary(g).len()
}

/// `Gen::choose`: one of `tags`, or nothing where there are none. The
/// generator keeps its size.
#[verifier::external_body]
fn choose_tag(g: &mut Gen, tags: &[Tag]) -> (tag: Option<Tag>)
    ensures
        tags@.len() == 0 ==> tag is None,
        tags@.len() > 0 ==> tag is Some && tags@.contains(tag->Some_0),
        spec_gen_size(*final(g)) == spec_gen_size(*old(g)),
{
    g.choose(tags).copied()
}

/// What QuickCheck proposes to try in place of a number, in order.
pub uninterp spec fn spec_shrink_i32(value: i32) -> Seq<i32>;

/// What QuickCheck proposes to try in place of a string, in order.
pub uninterp spec fn spec_shrink_string(value: Seq<char>) -> Seq<Seq<char>>;

/// What QuickCheck proposes to try in place of a vector of bytes, in order.
pub uninterp spec fn spec_shrink_bytes(value: Seq<u8>) -> Seq<Seq<u8>>;

/// What QuickCheck proposes to try in place of a vector of strings and a
/// string, in order.
pub uninterp spec fn spec_shrink_segments(path: Seq<Seq<char>>, method: Seq<char>) -> Seq<
    (Seq<Seq<char>>, Seq<char>),
>;

/// Each of `strings` by its characters.
pub open spec fn texts(strings: Seq<String>) -> Seq<Seq<char>> {
    strings.map_values(|text: String| text@)
}

/// Each of `pairs` by the characters of its strings.
pub open spec fn text_pairs(pairs: Seq<(Vec<String>, String)>) -> Seq<(Seq<Seq<char>>, Seq<char>)> {
    pairs.map_values(|pair: (Vec<String>, String)| (texts(pair.0@), pair.1@))
}

/// `<i32 as Arbitrary>::shrink`, gathered in a vector: the numbers that
/// QuickCheck proposes in place of `value`.
#[verifier::external_body]
fn shrink_i32(value: i32) -> (smaller: Vec<i32>)
    ensures
        smaller@ == spec_shrink_i32(value),
{
    value.shrink().collect()
}

/// `<String as Arbitrary>::shrink`, gathered in a vector: the strings that
/// QuickCheck proposes in place of `value`.
#[verifier::external_body]
fn shrink_string(value: &String) -> (smaller: Vec<String>)
    ensures
        texts(smaller@) == spec_shrink_string(value@),
{
    value.shrink().collect()
}

/// `<Vec<u8> as Arbitrary>::shrink`, gathered in a vector: the vectors that
/// QuickCheck proposes in place of `value`.
#[verifier::external_body]
fn shrink_bytes(value: &Vec<u8>) -> (smaller: Vec<Vec<u8>>)
    ensures
        views(smaller@) == spec_shrink_bytes(value@),
{
    value.shrink().collect()
}

/// `<(Vec<String>, String) as Arbitrary>::shrink`, gathered in a vector:
/// the pairs that QuickCheck proposes in place of `pair`.
#[verifier::external_body]
fn shrink_segments(pair: (Vec<String>, String)) -> (smaller: Vec<(Vec<String>, String)>)
    ensures
        text_pairs(smaller@) == spec_shrink_segments(texts(pair.0@), pair.1@),
{
    pair.shrink().collect()
}

/// The bytes that can stand in an OSC string: ASCII, and not null.
pub open spec fn string_byte() -> spec_fn(u8) -> bool {
    |b: u8| 0 < b < 128
}

/// The bytes that can stand in a segment of an address.
pub open spec fn address_byte() -> spec_fn(u8) -> bool {
    |b: u8| spec_valid_address_character(b)
}

/// Filtering a sequence that is one longer: the filtered sequence with the
/// last element at its end if that is kept, and without it if not.
proof fn lemma_filter_step<A>(all: Seq<A>, i: int, kept: spec_fn(A) -> bool)
    requires
        0 <= i < all.len(),
    ensures
        all.take(i + 1).filter(kept) == if kept(all[i]) {
            all.take(i).filter(kept).push(all[i])
        } else {
            all.take(i).filter(kept)
        },
{
    reveal(Seq::filter);
    assert(all.take(i + 1).drop_last() =~= all.take(i));
}

/// Cuts a string down to an OSC string: of its bytes, those that are ASCII
/// and not null stay, in order.
pub fn sanitize_string(text: &str) -> (string: DynamicString)
    ensures
        ascii_bytes(string@) == text.spec_bytes().filter(string_byte()),
        spec_check_string(string@) is Ok,
{
    let bytes = text.as_bytes();
    let mut out = String::new();
    let mut i: usize = 0;
    proof {
        reveal(Seq::filter);
        assert(bytes@.take(0) =~= Seq::<u8>::empty());
        assert(ascii_bytes(out@) =~= bytes@.take(0).filter(string_byte()));
    }
    while i < bytes.len()
        invariant
            i <= bytes@.len(),
            ascii_bytes(out@) == bytes@.take(i as int).filter(string_byte()),
            spec_check_string(out@) is Ok,
        decreases bytes@.len() - i,
    {
        let b = bytes[i];
        proof {
            lemma_filter_step(bytes@, i as int, string_byte());
        }
        if 0 < b && b < 128 {
            proof {
                lemma_push_ascii(out@, b);
            }
            push_char(&mut out, b as char);
        }
        i = i + 1;
    }
    proof {
        assert(bytes@.take(bytes@.len() as int) =~= bytes@);
    }
    DynamicString::from_checked(out)
}

/// Cuts a string down to a segment of an address: of its bytes, those that
/// are valid characters stay, in order.
pub fn sanitize_segment(text: &str) -> (segment: String)
    ensures
        segment.spec_segment() == text.spec_bytes().filter(address_byte()),
{
    let bytes = text.as_bytes();
    let mut out = String::new();
    let mut i: usize = 0;
    proof {
        reveal(Seq::filter);
        assert(bytes@.take(0) =~= Seq::<u8>::empty());
        assert(ascii_bytes(out@) =~= bytes@.take(0).filter(address_byte()));
    }
    while i < bytes.len()
        invariant
            i <= bytes@.len(),
            ascii_bytes(out@) == bytes@.take(i as int).filter(address_byte()),
            is_ascii_chars(out@),
        decreases bytes@.len() - i,
    {
        let b = bytes[i];
        proof {
            lemma_filter_step(bytes@, i as int, address_byte());
        }
        if valid_address_character(b) {
            proof {
                lemma_push_ascii(out@, b);
            }
            push_char(&mut out, b as char);
        }
        i = i + 1;
    }
    proof {
        assert(bytes@.take(bytes@.len() as int) =~= bytes@);
        vstd::utf8::is_ascii_chars_encode_utf8(out@);
        assert(out.spec_segment() =~= ascii_bytes(out@));
    }
    out
}

/// A segment that is not empty.
pub open spec fn not_empty() -> spec_fn(Seq<u8>) -> bool {
    |segment: Seq<u8>| segment.len() > 0
}

/// The path that is made of random strings: each is cut down to its valid
/// characters, and those that are empty then are left out.
pub open spec fn clean_path(path: Seq<Seq<u8>>) -> Seq<Seq<u8>> {
    path.map_values(|segment: Seq<u8>| segment.filter(address_byte())).filter(not_empty())
}

impl Integer {
    /// Some integer.
    pub fn arbitrary(g: &mut Gen) -> (integer: Self)
        ensures
            spec_gen_size(*final(g)) == spec_gen_size(*old(g)),
    {
        Integer::new(arbitrary_i32(g))
    }

    /// The integers to try in place of this one when a property fails:
    /// those of the numbers that QuickCheck proposes.
    pub fn shrink(&self) -> (smaller: Vec<Self>)
        ensures
            smaller@.len() == spec_shrink_i32(self@ as i32).len(),
            forall|k: int|
                0 <= k < smaller@.len() ==> (#[trigger] smaller@[k])@ == spec_shrink_i32(
                    self@ as i32,
                )[k],
    {
        proof {
            self.lemma_range();
        }
        let numbers = shrink_i32(self.value());
        let mut smaller: Vec<Integer> = Vec::with_capacity(numbers.len());
        let mut i: usize = 0;
        while i < numbers.len()
            invariant
                i <= numbers@.len(),
                smaller@.len() == i,
                forall|k: int| 0 <= k < i ==> (#[trigger] smaller@[k])@ == numbers@[k],
            decreases numbers@.len() - i,
        {
            smaller.push(Integer::new(numbers[i]));
            i = i + 1;
        }
        smaller
    }
}

/// The strings among `candidates` that are OSC strings, in order.
pub open spec fn osc_strings(candidates: Seq<Seq<char>>) -> Seq<Seq<char>> {
    candidates.filter(|chars: Seq<char>| spec_check_string(chars) is Ok)
}

/// Each of `strings` by its characters.
pub open spec fn string_views(strings: Seq<DynamicString>) -> Seq<Seq<char>> {
    strings.map_values(|string: DynamicString| string@)
}

/// Each of `blobs` by its bytes.
pub open spec fn blob_views(blobs: Seq<DynamicBlob>) -> Seq<Seq<u8>> {
    blobs.map_values(|blob: DynamicBlob| blob@)
}

/// Each of `addresses` by what it stands for.
pub open spec fn address_views(addresses: Seq<Address>) -> Seq<AddressView> {
    addresses.map_values(|address: Address| address@)
}

/// The addresses that `candidates` make, in order: each pair of a path and
/// a method that nothing is wrong with makes one.
pub open spec fn osc_addresses(candidates: Seq<(Seq<Seq<u8>>, Seq<u8>)>) -> Seq<AddressView>
    decreases candidates.len(),
{
    if candidates.len() == 0 {
        Seq::empty()
    } else {
        let before = osc_addresses(candidates.drop_last());
        let (path, method) = candidates.last();
        if spec_check_address(path, method) is Ok {
            before.push(AddressView { path, method })
        } else {
            before
        }
    }
}

/// Each of `pairs` by the bytes of its strings.
pub open spec fn segment_pairs(pairs: Seq<(Vec<String>, String)>) -> Seq<(Seq<Seq<u8>>, Seq<u8>)> {
    pairs.map_values(|pair: (Vec<String>, String)| (pair.0.spec_path(), pair.1.spec_segment()))
}

impl DynamicString {
    /// Some string, cut down to an OSC string; nothing where the size of
    /// the generator is zero.
    pub fn arbitrary(g: &mut Gen) -> (string: Option<Self>)
        ensures
            string is None <==> spec_gen_size(*old(g)) == 0,
            string matches Some(s) ==> spec_check_string(s@) is Ok,
            spec_gen_size(*final(g)) == spec_gen_size(*old(g)),
    {
        if gen_size(g) == 0 {
            return None;
        }
        let text = arbitrary_string(g);
        Some(sanitize_string(text.as_str()))
    }

    /// The OSC strings among `candidates`, in order.
    pub fn from_candidates(candidates: Vec<String>) -> (strings: Vec<Self>)
        ensures
            string_views(strings@) == osc_strings(texts(candidates@)),
    {
        let ghost all = texts(candidates@);
        let ghost kept = |chars: Seq<char>| spec_check_string(chars) is Ok;
        let mut strings: Vec<DynamicString> = Vec::new();
        proof {
            reveal(Seq::filter);
            assert(all.take(0) =~= Seq::<Seq<char>>::empty());
            assert(string_views(strings@) =~= all.take(0).filter(kept));
        }
        for candidate in it: candidates.into_iter()
            invariant
                all == texts(it.seq()),
                kept == |chars: Seq<char>| spec_check_string(chars) is Ok,
                string_views(strings@) == all.take(it.index()).filter(kept),
        {
            proof {
                reveal(Seq::filter);
                assert(all.take(it.index() + 1).drop_last() =~= all.take(it.index()));
                assert(all.take(it.index() + 1).last() == candidate@);
            }
            match DynamicString::from_rust(candidate) {
                Ok(string) => {
                    let ghost before = string_views(strings@);
                    strings.push(string);
                    proof {
                        assert(string_views(strings@) =~= before.push(string@));
                    }
                },
                Err(_) => {},
            }
        }
        proof {
            assert(all.take(all.len() as int) =~= all);
        }
        strings
    }

    /// The strings to try in place of this one when a property fails: of
    /// those that QuickCheck proposes, the ones that are OSC strings.
    pub fn shrink(&self) -> (smaller: Vec<Self>)
        ensures
            string_views(smaller@) == osc_strings(spec_shrink_string(self@)),
    {
        let text = self.clone().into_rust();
        DynamicString::from_candidates(shrink_string(&text))
    }
}

impl DynamicBlob {
    /// Some blob; nothing where the size of the generator is zero.
    pub fn arbitrary(g: &mut Gen) -> (blob: Option<Self>)
        ensures
            blob is None <==> spec_gen_size(*old(g)) == 0,
            spec_gen_size(*final(g)) == spec_gen_size(*old(g)),
    {
        if gen_size(g) == 0 {
            return None;
        }
        match DynamicBlob::from_rust(arbitrary_bytes(g)) {
            Ok(blob) => Some(blob),
            Err(_) => None,
        }
    }

    /// The blobs to try in place of this one when a property fails: those
    /// of the vectors that QuickCheck proposes.
    pub fn shrink(&self) -> (smaller: Vec<Self>)
        ensures
            blob_views(smaller@) == spec_shrink_bytes(self@),
    {
        let content = self.clone().into_rust();
        let candidates = shrink_bytes(&content);
        let ghost all = views(candidates@);
        let mut smaller: Vec<DynamicBlob> = Vec::new();
        proof {
            assert(blob_views(smaller@) =~= all.take(0));
        }
        for candidate in it: candidates.into_iter()
            invariant
                all == views(it.seq()),
                blob_views(smaller@) == all.take(it.index()),
        {
            let ghost before = blob_views(smaller@);
            match DynamicBlob::from_rust(candidate) {
                Ok(blob) => {
                    smaller.push(blob);
                    proof {
                        assert(blob_views(smaller@) =~= before.push(blob@));
                        assert(all.take(it.index() + 1) =~= all.take(it.index()).push(blob@));
                    }
                },
                Err(_) => {},
            }
        }
        proof {
            assert(all.take(all.len() as int) =~= all);
        }
        smaller
    }
}

impl Tag {
    /// One of the four tags.
    pub fn arbitrary(g: &mut Gen) -> (tag: Self)
        ensures
            spec_gen_size(*final(g)) == spec_gen_size(*old(g)),
    {
        let tags = [Tag::Integer, Tag::Float, Tag::String, Tag::Blob];
        match choose_tag(g, tags.as_slice()) {
            Some(tag) => tag,
            None => Tag::Integer,
        }
    }

    /// The tags to try in place of this one when a property fails: all
    /// four of them.
    pub fn shrink(&self) -> (smaller: Vec<Self>)
        ensures
            smaller@ == seq![Tag::Integer, Tag::Float, Tag::String, Tag::Blob],
    {
        let mut smaller: Vec<Tag> = Vec::new();
        smaller.push(Tag::Integer);
        smaller.push(Tag::Float);
        smaller.push(Tag::String);
        smaller.push(Tag::Blob);
        assert(smaller@ =~= seq![Tag::Integer, Tag::Float, Tag::String, Tag::Blob]);
        smaller
    }
}

impl Tags {
    /// Some tags; nothing where the size of the generator is zero.
    pub fn arbitrary(g: &mut Gen) -> (tags: Option<Self>)
        ensures
            tags is None <==> spec_gen_size(*old(g)) == 0,
            spec_gen_size(*final(g)) == spec_gen_size(*old(g)),
    {
        if gen_size(g) == 0 {
            return None;
        }
        let len = arbitrary_len(g);
        let mut tags: Vec<Tag> = Vec::new();
        let mut i: usize = 0;
        while i < len
            invariant
                i <= len,
                tags@.len() == i,
                spec_gen_size(*g) == spec_gen_size(*old(g)),
            decreases len - i,
        {
            tags.push(Tag::arbitrary(g));
            i = i + 1;
        }
        Some(Tags(tags))
    }
}

impl Address {
    /// The address that is made of random strings. The strings of the path
    /// are cut down to their valid characters, and those that are empty
    /// then are left out. The string of the method is cut down in the same
    /// way; where it is empty then, there is no address.
    pub fn from_arbitrary(path: Vec<String>, method: String) -> (address: Option<Self>)
        ensures
            address is None <==> method.spec_segment().filter(address_byte()).len() == 0,
            address matches Some(a) ==> a@.valid() && a@ == (AddressView {
                path: clean_path(path.spec_path()),
                method: method.spec_segment().filter(address_byte()),
            }),
    {
        let ghost given = path.spec_path();
        let ghost cut = given.map_values(|segment: Seq<u8>| segment.filter(address_byte()));
        let mut cleaned: Vec<String> = Vec::new();
        let mut i: usize = 0;
        proof {
            reveal(Seq::filter);
            assert(cut.take(0) =~= Seq::<Seq<u8>>::empty());
            assert(cleaned.spec_path() =~= cut.take(0).filter(not_empty()));
        }
        while i < path.len()
            invariant
                i <= path@.len(),
                given == path.spec_path(),
                cut == given.map_values(|segment: Seq<u8>| segment.filter(address_byte())),
                cleaned.spec_path() == cut.take(i as int).filter(not_empty()),
            decreases path@.len() - i,
        {
            let segment = sanitize_segment(path[i].as_str());
            proof {
                lemma_filter_step(cut, i as int, not_empty());
                assert(segment.spec_segment() == cut[i as int]);
            }
            if segment.as_str().as_bytes().len() > 0 {
                let ghost before = cleaned.spec_path();
                cleaned.push(segment);
                proof {
                    assert(cleaned.spec_path() =~= before.push(segment.spec_segment()));
                }
            }
            i = i + 1;
        }
        proof {
            assert(cut.take(cut.len() as int) =~= cut);
        }
        let last = sanitize_segment(method.as_str());
        if last.as_str().as_bytes().len() == 0 {
            return None;
        }
        proof {
            lemma_clean_path_valid(given, method.spec_segment());
            lemma_address_rejection(
                clean_path(given),
                method.spec_segment().filter(address_byte()),
            );
        }
        match cleaned.into_address(last) {
            Ok(address) => Some(address),
            Err(_) => None,
        }
    }

    /// Some address, made of random strings as `from_arbitrary` says;
    /// nothing where the size of the generator is zero or the string for
    /// the method had no valid character.
    pub fn arbitrary(g: &mut Gen) -> (address: Option<Self>)
        ensures
            spec_gen_size(*old(g)) == 0 ==> address is None,
            address matches Some(a) ==> a@.valid(),
            spec_gen_size(*final(g)) == spec_gen_size(*old(g)),
    {
        if gen_size(g) == 0 {
            return None;
        }
        let path = arbitrary_strings(g);
        let method = arbitrary_string(g);
        Address::from_arbitrary(path, method)
    }

    /// The addresses that `candidates` make, in order: each pair of a path
    /// and a method that nothing is wrong with makes one.
    pub fn from_candidates(candidates: Vec<(Vec<String>, String)>) -> (addresses: Vec<Self>)
        ensures
            address_views(addresses@) == osc_addresses(segment_pairs(candidates@)),
    {
        let ghost all = segment_pairs(candidates@);
        let mut addresses: Vec<Address> = Vec::new();
        proof {
            assert(all.take(0) =~= Seq::<(Seq<Seq<u8>>, Seq<u8>)>::empty());
            assert(address_views(addresses@) =~= osc_addresses(all.take(0)));
        }
        for candidate in it: candidates.into_iter()
            invariant
                all == segment_pairs(it.seq()),
                address_views(addresses@) == osc_addresses(all.take(it.index())),
        {
            let (path, method) = candidate;
            proof {
                assert(all.take(it.index() + 1).drop_last() =~= all.take(it.index()));
                assert(all.take(it.index() + 1).last() == (
                    path.spec_path(),
                    method.spec_segment(),
                ));
            }
            match path.into_address(method) {
                Ok(address) => {
                    let ghost before = address_views(addresses@);
                    addresses.push(address);
                    proof {
                        assert(address_views(addresses@) =~= before.push(address@));
                    }
                },
                Err(_) => {},
            }
        }
        proof {
            assert(all.take(all.len() as int) =~= all);
        }
        addresses
    }

    /// The addresses to try in place of this one when a property fails: of
    /// the segments that QuickCheck proposes in place of its own, the ones
    /// that make an address.
    pub fn shrink(&self) -> (smaller: Vec<Self>)
        ensures
            address_views(smaller@) == osc_addresses(
                pair_bytes(
                    spec_shrink_segments(segment_texts(self@.path), ascii_chars(self@.method)),
                ),
            ),
    {
        let candidates = shrink_segments(self.clone().into_strings());
        proof {
            assert(segment_pairs(candidates@) =~= pair_bytes(text_pairs(candidates@))) by {
                assert forall|k: int| 0 <= k < candidates@.len() implies segment_pairs(
                    candidates@,
                )[k] == pair_bytes(text_pairs(candidates@))[k] by {
                    assert(candidates@[k].0.spec_path() =~= texts(candidates@[k].0@).map_values(
                        |text: Seq<char>| encode_utf8(text),
                    ));
                }
            }
        }
        Address::from_candidates(candidates)
    }
}

/// Each of `pairs` by the bytes of its strings.
pub open spec fn pair_bytes(pairs: Seq<(Seq<Seq<char>>, Seq<char>)>) -> Seq<
    (Seq<Seq<u8>>, Seq<u8>),
> {
    pairs.map_values(
        |pair: (Seq<Seq<char>>, Seq<char>)|
            (pair.0.map_values(|text: Seq<char>| encode_utf8(text)), encode_utf8(pair.1)),
    )
}

/// A cleaned path and a method that was cut down and is not empty make a
/// valid address.
proof fn lemma_clean_path_valid(path: Seq<Seq<u8>>, method: Seq<u8>)
    requires
        method.filter(address_byte()).len() > 0,
    ensures
        spec_check_address(clean_path(path), method.filter(address_byte())) is Ok,
{
    let cleaned = clean_path(path);
    let last = method.filter(address_byte());
    let cut = path.map_values(|segment: Seq<u8>| segment.filter(address_byte()));
    let segments = cleaned.push(last);
    assert forall|k: int| 0 <= k < segments.len() implies valid_segment(
        #[trigger] segments[k],
    ) by {
        let segment = segments[k];
        if k < cleaned.len() {
            assert(segment == cleaned[k]);
            cut.lemma_filter_pred(not_empty(), k);
            assert(not_empty()(segment));
            lemma_filter_subset(cut, not_empty(), k);
            let j = choose|j: int| 0 <= j < cut.len() && cut[j] == cleaned[k];
            assert(segment == path[j].filter(address_byte()));
            assert forall|i: int| 0 <= i < segment.len() implies spec_valid_address_character(
                #[trigger] segment[i],
            ) by {
                path[j].lemma_filter_pred(address_byte(), i);
                assert(address_byte()(segment[i]));
            }
        } else {
            assert(segment == last);
            assert forall|i: int| 0 <= i < segment.len() implies spec_valid_address_character(
                #[trigger] segment[i],
            ) by {
                method.lemma_filter_pred(address_byte(), i);
                assert(address_byte()(segment[i]));
            }
        }
    }
    assert((AddressView { path: cleaned, method: last }).segments() == segments);
    lemma_address_rejection(cleaned, last);
}

/// What is left of a sequence after filtering was in the sequence.
proof fn lemma_filter_subset(segments: Seq<Seq<u8>>, kept: spec_fn(Seq<u8>) -> bool, k: int)
    requires
        0 <= k < segments.filter(kept).len(),
    ensures
        segments.contains(segments.filter(kept)[k]),
    decreases segments.len(),
{
    reveal(Seq::filter);
    if segments.len() > 0 {
        let before = segments.drop_last().filter(kept);
        if k < before.len() {
            lemma_filter_subset(segments.drop_last(), kept, k);
            let j = choose|j: int|
                0 <= j < segments.drop_last().len() && segments.drop_last()[j] == before[k];
            assert(segments[j] == before[k]);
        } else {
            assert(segments[segments.len() - 1] == segments.filter(kept)[k]);
        }
    }
}

} // verus!
