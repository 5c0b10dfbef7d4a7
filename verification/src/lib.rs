//! A codec for the Open Sound Control wire format.
//!
//! Typed values are turned into OSC byte streams and byte streams are turned
//! back into typed values or a precise diagnostic. Every field of the format
//! is a multiple of four bytes long; the padding and the aligned reading that
//! this takes are the lowest layer, the atomic values, type tags and
//! addresses stand on it, and a message puts them together.

pub mod address;
pub mod arbitrary;
pub mod atomic;
pub mod batch;
pub mod decode;
pub mod dynamic;
pub mod into_osc;
pub mod message;
pub mod quickcheck_if_enabled;
pub mod scan;
mod sealed;
pub mod stream;
pub mod tag;
pub mod text;
pub mod tuple;

pub use address::{
    valid_address_character, Address, AddressDecodeErr, AddressErr, AddressView, IntoAddress,
    IntoIntoAddress, Iter,
};
pub use arbitrary::{sanitize_segment, sanitize_string};
pub use atomic::{
    Atomic, Blob, BlobDecodeErr, DynamicBlob, DynamicString, Float, Integer, IntoAtomic,
    InvalidContents, String, StringDecodeErr,
};
pub use batch::{Batch, Batched};
pub use decode::{decode, Aligned4B, Decode, Decoded, Misaligned4B};
pub use dynamic::{Data, DataView, Dynamic, DynamicDecodeErr, Tags};
pub use into_osc::IntoOsc;
pub use message::{encode, Message};
pub use quickcheck_if_enabled::{CloneIfQuickCheck, QuickCheckIfEnabled};
pub use stream::{collect, ArrayStream, ByteStream, Chain, Empty, Once, SliceStream, VecStream};
pub use tag::{Tag, TagDecodeErr};
pub use tuple::Tuple;
