//! Typed data to a specified address.

use crate::address::{
    lemma_address_round_trip, spec_check_address, spec_decode_address, spec_encode_address, Address,
    AddressDecodeErr, AddressErr, AddressView, IntoAddress, IntoIntoAddress, Iter,
};
use crate::atomic::InvalidContents;
use crate::batch::Batched;
use crate::decode::{Decoded, Misaligned4B};
use crate::dynamic::{
    lemma_dynamic_round_trip, spec_decode_dynamic, spec_encode_dynamic, spec_encode_tags, DataView,
    Dynamic, DynamicDecodeErr, TagBytes, Tags,
};
use crate::into_osc::IntoOsc;
use crate::stream::{collect, ByteStream, Chain, Once};
use crate::tag::Tag;
use crate::tuple::Tuple;
use vstd::prelude::*;

verus! {

/// OSC message: address, type tag (inferred), and data.
#[derive(Clone, Debug, Eq, Hash, Ord, PartialEq, PartialOrd)]
pub struct Message<Data: Tuple> {
    /// Address without type tag.
    address: Address,
    /// Data after address & type tag.
    data: Data,
}

impl<Data: Tuple> Message<Data> {
    /// The address that this message goes to.
    pub closed spec fn address(&self) -> AddressView {
        self.address@
    }

    /// The data that this message carries.
    pub closed spec fn data(&self) -> Data {
        self.data
    }

    /// The wire form of this message: the address, the type tags of the
    /// data, and the data.
    pub open spec fn spec_encode(&self) -> Seq<u8> {
        spec_encode_address(self.address()) + spec_encode_tags(self.data().spec_type_tag())
            + self.data().spec_chain()
    }

    /// Prefer `.into_osc()`, but if you already have OSC data, this is fine.
    pub fn new(address: Address, data: Data) -> (message: Self)
        ensures
            message.address() == address@,
            message.data() == data,
    {
        Self { address, data }
    }

    /// The address and the data of this message.
    pub fn into_parts(self) -> (parts: (Address, Data))
        ensures
            parts.0@ == self.address(),
            parts.1 == self.data(),
    {
        (self.address, self.data)
    }

    /// Whether this message has a wire form: each piece of its data must
    /// have one.
    pub fn fits(&self) -> (fits: bool)
        ensures
            fits == self.data().spec_fits(),
    {
        self.data.fits()
    }

    /// The wire form of this message, byte by byte.
    pub fn into_iter(self) -> (bytes: Chain<
        Chain<Batched<Iter>, Batched<Chain<Chain<Once, TagBytes>, Once>>>,
        Data::Chained,
    >)
        requires
            self.data().spec_fits(),
        ensures
            bytes.remaining() == self.spec_encode(),
    {
        let tags = Tags(self.data.type_tag());
        Chain::new(Chain::new(self.address.into_iter(), tags.into_iter()), self.data.chain())
    }
}

/// A message to a valid address that carries values that round-trip is
/// read back from its wire form piece by piece: the address first, which
/// leaves the rest unread, and then the values, which leave unread what
/// followed the message.
pub proof fn lemma_message_round_trip(
    address: AddressView,
    values: Seq<DataView>,
    tail: Seq<u8>,
)
    requires
        address.valid(),
        forall|i: int| 0 <= i < values.len() ==> (#[trigger] values[i]).round_trips(),
    ensures
        spec_decode_address(spec_encode_address(address) + spec_encode_dynamic(values) + tail)
            == (Decoded {
            result: Ok::<AddressView, Misaligned4B<AddressDecodeErr>>(address),
            rest: spec_encode_dynamic(values) + tail,
        }),
        spec_decode_dynamic(spec_encode_dynamic(values) + tail) == (Decoded {
            result: Ok::<Seq<DataView>, Misaligned4B<DynamicDecodeErr>>(values),
            rest: tail,
        }),
{
    let rest = spec_encode_dynamic(values) + tail;
    lemma_address_round_trip(address, rest);
    assert(spec_encode_address(address) + spec_encode_dynamic(values) + tail
        =~= spec_encode_address(address) + rest);
    lemma_dynamic_round_trip(values, tail);
}

impl Message<Dynamic> {
    /// The wire form of a message that carries values of unknown types is
    /// the wire form of its address and the wire form of the values.
    pub proof fn lemma_encode_dynamic(&self)
        ensures
            self.spec_encode() == spec_encode_address(self.address()) + spec_encode_dynamic(
                self.data()@,
            ),
    {
        assert(self.spec_encode() =~= spec_encode_address(self.address()) + spec_encode_dynamic(
            self.data()@,
        ));
    }
}

/// The outcome of formatting data for the address of `path` and `method`
/// and writing the message out, which is `result`: what is wrong with the
/// address, or else what is wrong with the data (`check`), or else the wire
/// form of the address, of the tags `tags`, and the wire form `payload` of
/// the data.
pub open spec fn encoded(
    result: Result<Vec<u8>, AddressErr>,
    path: Seq<Seq<u8>>,
    method: Seq<u8>,
    check: Result<(), InvalidContents>,
    tags: Seq<Tag>,
    payload: Seq<u8>,
) -> bool {
    match spec_check_address(path, method) {
        Err(e) => result == Err::<Vec<u8>, AddressErr>(e),
        Ok(()) => match check {
            Err(e) => result == Err::<Vec<u8>, AddressErr>(AddressErr::StringErr(e)),
            Ok(()) => result matches Ok(bytes) && bytes@ == spec_encode_address(
                AddressView { path, method },
            ) + spec_encode_tags(tags) + payload,
        },
    }
}

/// Formats a Rust type as an OSC message to the address of `path` and
/// `method`, and gives the wire form of the message. Fails if the address
/// is invalid, or if the data are.
pub fn encode<T: IntoOsc, Path: IntoAddress<Method>, Method: IntoIntoAddress>(
    value: T,
    path: Path,
    method: Method,
) -> (r: Result<Vec<u8>, AddressErr>)
    requires
        value.spec_osc_fits(),
    ensures
        encoded(
            r,
            path.spec_path(),
            method.spec_segment(),
            value.spec_osc_check(),
            value.spec_osc_tags(),
            value.spec_osc_payload(),
        ),
{
    match value.into_osc(path, method) {
        Ok(message) => Ok(collect(message.into_iter())),
        Err(e) => Err(e),
    }
}

} // verus!
