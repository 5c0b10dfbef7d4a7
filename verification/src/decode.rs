//! Reading a stream of bytes into an OSC type, or saying why it could not be
//! done.
//!
//! The wire format is measured in units of four bytes, and every decoder
//! takes its input one whole unit at a time. A stream that stops between two
//! units has ended; one that stops inside a unit is misaligned.

use crate::stream::{ByteStream, SliceStream};
use core::marker::PhantomData;
use vstd::prelude::*;

verus! {

/// Anywhere we could read a number of bytes not a multiple of four.
#[derive(Clone, Copy, Debug, Eq, Hash, Ord, PartialEq, PartialOrd)]
pub enum Misaligned4B<E> {
    /// Ended when we expected more input.
    End,
    /// Number of bytes was not a multiple of 4.
    Misaligned,
    /// Number of bytes was a multiple of 4, but another error occurred.
    Other(E),
}

/// What a decoder makes of an input: the value or the error, and the bytes
/// that it leaves unread.
pub struct Decoded<V, E> {
    /// The decoded value, by its view, or the reason there is none.
    pub result: Result<V, Misaligned4B<E>>,
    /// The part of the input that was not consumed.
    pub rest: Seq<u8>,
}

/// The outcome of a decoder with the value replaced by its view.
pub open spec fn view_result<T: View, E>(r: Result<T, Misaligned4B<E>>) -> Result<
    T::V,
    Misaligned4B<E>,
> {
    match r {
        Ok(v) => Ok(v@),
        Err(e) => Err(e),
    }
}

/// Read a stream of bytes into this OSC type or provide a reason we couldn't.
pub trait Decode: Sized + View {
    /// Reasons this might fail, other than the input running out.
    type Error;

    /// What decoding makes of `input`.
    spec fn spec_decode(input: Seq<u8>) -> Decoded<Self::V, Self::Error>;

    /// Read a stream of bytes into this OSC type or provide a reason we
    /// couldn't. The stream is left where the decoder stopped reading.
    fn decode<S: ByteStream>(iter: &mut S) -> (r: Result<Self, Misaligned4B<Self::Error>>)
        ensures
            view_result(r) == Self::spec_decode(old(iter).remaining()).result,
            final(iter).remaining() == Self::spec_decode(old(iter).remaining()).rest,
    ;

    /// Decoding takes its input in whole units. An input that runs out is
    /// used up; it has ended if its length was a multiple of four and is
    /// misaligned if it was not. Any other outcome leaves the input shorter
    /// by a multiple of four bytes.
    proof fn lemma_units(input: Seq<u8>)
        ensures
            unit_wise(Self::spec_decode(input), input),
    ;
}

/// `d` is an outcome that reading `input` unit by unit can have.
pub open spec fn unit_wise<V, E>(d: Decoded<V, E>, input: Seq<u8>) -> bool {
    units_read(
        d.result == Err::<V, Misaligned4B<E>>(Misaligned4B::End),
        d.result == Err::<V, Misaligned4B<E>>(Misaligned4B::Misaligned),
        d.rest,
        input,
    )
}

/// Reading `input` unit by unit can leave `rest` unread when it finds the
/// input ended (`end`) or misaligned (`misaligned`) as the flags say. What
/// is left is the end of the input. An input that ran out is used up; it
/// has ended if its length is a multiple of four, and is misaligned if not.
/// Any other outcome, a success or another error, has read a multiple of
/// four bytes.
pub open spec fn units_read(end: bool, misaligned: bool, rest: Seq<u8>, input: Seq<u8>) -> bool {
    &&& rest.len() <= input.len()
    &&& rest == input.skip(input.len() - rest.len())
    &&& end ==> rest.len() == 0 && input.len() % 4 == 0
    &&& misaligned ==> rest.len() == 0 && input.len() % 4 != 0
    &&& !end && !misaligned ==> (input.len() - rest.len()) % 4 == 0
}

/// Reading on where a read stopped that had not run out is reading unit by
/// unit still.
pub proof fn lemma_units_then(
    end: bool,
    misaligned: bool,
    rest: Seq<u8>,
    middle: Seq<u8>,
    input: Seq<u8>,
)
    requires
        units_read(false, false, middle, input),
        units_read(end, misaligned, rest, middle),
    ensures
        units_read(end, misaligned, rest, input),
{
    let a = input.len() - middle.len();
    let b = middle.len() - rest.len();
    assert(input.skip(a).skip(b) =~= input.skip(a + b));
    assert(a % 4 == 0);
    assert(input.len() == a + middle.len());
    assert(input.len() % 4 == middle.len() % 4);
}

/// Four bytes read at the same time.
/// Idea is that length should always be a multiple of 4.
#[derive(Debug, Eq, Hash, Ord, PartialEq, PartialOrd)]
pub struct Aligned4B<E>(pub u8, pub u8, pub u8, pub u8, pub PhantomData<E>);

impl<E> Clone for Aligned4B<E> {
    fn clone(&self) -> (copy: Self)
        ensures
            copy == *self,
    {
        Aligned4B(self.0, self.1, self.2, self.3, PhantomData)
    }
}

impl<E> Copy for Aligned4B<E> {

}

impl<E> View for Aligned4B<E> {
    type V = Seq<u8>;

    open spec fn view(&self) -> Seq<u8> {
        seq![self.0, self.1, self.2, self.3]
    }
}

/// The outcome of reading one unit from `input`: its first four bytes, or
/// `End` where there is no byte at all, or `Misaligned` where there are one
/// to three.
pub open spec fn spec_read_unit<E>(input: Seq<u8>) -> Decoded<Seq<u8>, E> {
    if input.len() == 0 {
        Decoded { result: Err(Misaligned4B::End), rest: input }
    } else if input.len() < 4 {
        Decoded { result: Err(Misaligned4B::Misaligned), rest: Seq::empty() }
    } else {
        Decoded { result: Ok(input.take(4)), rest: input.skip(4) }
    }
}

impl<E> Aligned4B<E> {
    /// The four bytes in the order they were read.
    pub fn into_iter(self) -> (bytes: [u8; 4])
        ensures
            bytes@ == self@,
    {
        let bytes = [self.0, self.1, self.2, self.3];
        assert(bytes@ =~= self@);
        bytes
    }
}

impl<E> Decode for Aligned4B<E> {
    type Error = E;

    open spec fn spec_decode(input: Seq<u8>) -> Decoded<Seq<u8>, E> {
        spec_read_unit(input)
    }

    fn decode<S: ByteStream>(iter: &mut S) -> (r: Result<Self, Misaligned4B<E>>) {
        let ghost input = iter.remaining();
        let a = match iter.next() {
            Some(b) => b,
            None => {
                return Err(Misaligned4B::End);
            },
        };
        let b = match iter.next() {
            Some(b) => b,
            None => {
                assert(iter.remaining() =~= Seq::<u8>::empty());
                return Err(Misaligned4B::Misaligned);
            },
        };
        let c = match iter.next() {
            Some(b) => b,
            None => {
                assert(iter.remaining() =~= Seq::<u8>::empty());
                return Err(Misaligned4B::Misaligned);
            },
        };
        let d = match iter.next() {
            Some(b) => b,
            None => {
                assert(iter.remaining() =~= Seq::<u8>::empty());
                return Err(Misaligned4B::Misaligned);
            },
        };
        let unit = Aligned4B(a, b, c, d, PhantomData);
        assert(unit@ =~= input.take(4));
        assert(iter.remaining() =~= input.skip(4));
        Ok(unit)
    }

    proof fn lemma_units(input: Seq<u8>) {
        lemma_read_unit_units::<E>(input);
    }
}

/// Reading one unit is reading unit by unit.
pub proof fn lemma_read_unit_units<E>(input: Seq<u8>)
    ensures
        unit_wise(spec_read_unit::<E>(input), input),
{
    let d = spec_read_unit::<E>(input);
    assert(d.rest =~= input.skip(input.len() - d.rest.len()));
}

/// An input whose length is not a multiple of four is rejected as misaligned
/// at the first unit that it cannot complete: every unit before that one is
/// read whole, and the read after them fails with `Misaligned`. An input
/// whose length is a multiple of four ends cleanly after its last unit.
pub proof fn lemma_alignment_rejection<E>(input: Seq<u8>)
    ensures
        forall|k: int|
            0 <= k < input.len() / 4 ==> (#[trigger] spec_read_unit::<E>(
                input.skip(4 * k),
            )).result == Ok::<Seq<u8>, Misaligned4B<E>>(input.subrange(4 * k, 4 * k + 4)),
        input.len() % 4 != 0 ==> spec_read_unit::<E>(
            input.skip(4 * (input.len() / 4) as int),
        ).result == Err::<Seq<u8>, Misaligned4B<E>>(Misaligned4B::Misaligned),
        input.len() % 4 == 0 ==> spec_read_unit::<E>(
            input.skip(4 * (input.len() / 4) as int),
        ).result == Err::<Seq<u8>, Misaligned4B<E>>(Misaligned4B::End),
{
    assert forall|k: int| 0 <= k < input.len() / 4 implies (#[trigger] spec_read_unit::<E>(
        input.skip(4 * k),
    )).result == Ok::<Seq<u8>, Misaligned4B<E>>(input.subrange(4 * k, 4 * k + 4)) by {
        assert(input.skip(4 * k).take(4) =~= input.subrange(4 * k, 4 * k + 4));
    }
}

/// Reads `bytes` into an OSC type or provides a reason it couldn't be done.
/// What follows the value in `bytes` is not looked at.
pub fn decode<T: Decode>(bytes: &[u8]) -> (r: Result<T, Misaligned4B<T::Error>>)
    ensures
        view_result(r) == T::spec_decode(bytes@).result,
{
    let mut stream = SliceStream::new(bytes);
    T::decode(&mut stream)
}

} // verus!
