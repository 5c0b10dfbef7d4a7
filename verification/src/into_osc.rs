//! Format a Rust type as an OSC message.

use crate::address::{spec_check_address, AddressErr, AddressView, IntoAddress, IntoIntoAddress};
use crate::atomic::{
    Atomic, Blob, DynamicBlob, DynamicString, Float, Integer, IntoAtomic, InvalidContents, String,
};
use crate::dynamic::{Data, Dynamic};
use crate::message::Message;
use crate::tag::Tag;
use crate::tuple::Tuple;
use vstd::prelude::*;

verus! {

/// The outcome of formatting data for the address of `path` and `method`,
/// which is `result`.
///
/// The address is tested first, and what is wrong with it is the error.
/// Then the data are tested, and what is wrong with them (`check`) is the
/// error. Where nothing is wrong, the message goes to that address and
/// carries data with the tags `tags` and the wire form `payload`, which
/// exists if `fits` says so.
pub open spec fn osc_made<Data: Tuple>(
    result: Result<Message<Data>, AddressErr>,
    path: Seq<Seq<u8>>,
    method: Seq<u8>,
    check: Result<(), InvalidContents>,
    tags: Seq<Tag>,
    payload: Seq<u8>,
    fits: bool,
) -> bool {
    match spec_check_address(path, method) {
        Err(e) => result == Err::<Message<Data>, AddressErr>(e),
        Ok(()) => match check {
            Err(e) => result == Err::<Message<Data>, AddressErr>(AddressErr::StringErr(e)),
            Ok(()) => {
                &&& result matches Ok(message)
                &&& message.address() == (AddressView { path, method })
                &&& message.data().spec_type_tag() == tags
                &&& message.data().spec_chain() == payload
                &&& message.data().spec_fits() == fits
            },
        },
    }
}

/// Format a Rust type as an OSC message.
pub trait IntoOsc: Sized {
    /// OSC equivalent of this Rust type.
    type AsOsc: Tuple;

    /// What is wrong with these data, if anything: the first of them that
    /// has no OSC equivalent, and why.
    spec fn spec_osc_check(&self) -> Result<(), InvalidContents>;

    /// The tags of these data, in order.
    spec fn spec_osc_tags(&self) -> Seq<Tag>;

    /// The wire forms of these data, one after the other.
    spec fn spec_osc_payload(&self) -> Seq<u8>;

    /// Whether each of these data has a wire form.
    spec fn spec_osc_fits(&self) -> bool;

    /// Format a Rust type as an OSC message. Fails if the address is invalid
    /// (by the rules of OSC 1.0), or if the data are.
    fn into_osc<Path: IntoAddress<Method>, Method: IntoIntoAddress>(
        self,
        path: Path,
        method: Method,
    ) -> (r: Result<Message<Self::AsOsc>, AddressErr>)
        ensures
            osc_made(
                r,
                path.spec_path(),
                method.spec_segment(),
                self.spec_osc_check(),
                self.spec_osc_tags(),
                self.spec_osc_payload(),
                self.spec_osc_fits(),
            ),
    ;
}

impl IntoOsc for () {
    type AsOsc = ();

    open spec fn spec_osc_check(&self) -> Result<(), InvalidContents> {
        Ok(())
    }

    open spec fn spec_osc_tags(&self) -> Seq<Tag> {
        Seq::empty()
    }

    open spec fn spec_osc_payload(&self) -> Seq<u8> {
        Seq::empty()
    }

    open spec fn spec_osc_fits(&self) -> bool {
        true
    }

    fn into_osc<Path: IntoAddress<Method>, Method: IntoIntoAddress>(
        self,
        path: Path,
        method: Method,
    ) -> (r: Result<Message<()>, AddressErr>) {
        match path.into_address(method) {
            Ok(address) => Ok(Message::new(address, ())),
            Err(e) => Err(e),
        }
    }
}

impl IntoOsc for Dynamic {
    type AsOsc = Dynamic;

    open spec fn spec_osc_check(&self) -> Result<(), InvalidContents> {
        Ok(())
    }

    open spec fn spec_osc_tags(&self) -> Seq<Tag> {
        self.spec_type_tag()
    }

    open spec fn spec_osc_payload(&self) -> Seq<u8> {
        self.spec_chain()
    }

    open spec fn spec_osc_fits(&self) -> bool {
        self.spec_fits()
    }

    fn into_osc<Path: IntoAddress<Method>, Method: IntoIntoAddress>(
        self,
        path: Path,
        method: Method,
    ) -> (r: Result<Message<Dynamic>, AddressErr>) {
        match path.into_address(method) {
            Ok(address) => Ok(Message::new(address, self)),
            Err(e) => Err(e),
        }
    }
}


impl IntoOsc for i32 {
    type AsOsc = (Integer,);

    open spec fn spec_osc_check(&self) -> Result<(), InvalidContents> {
        Integer::spec_check(*self)
    }

    open spec fn spec_osc_tags(&self) -> Seq<Tag> {
        seq![Integer::spec_type_tag(Integer::spec_rust(*self))]
    }

    open spec fn spec_osc_payload(&self) -> Seq<u8> {
        Integer::spec_encode(Integer::spec_rust(*self))
    }

    open spec fn spec_osc_fits(&self) -> bool {
        Integer::spec_fits(Integer::spec_rust(*self))
    }

    fn into_osc<Path: IntoAddress<Method>, Method: IntoIntoAddress>(
        self,
        path: Path,
        method: Method,
    ) -> (r: Result<Message<(Integer,)>, AddressErr>) {
        let address = match path.into_address(method) {
            Ok(address) => address,
            Err(e) => {
                return Err(e);
            },
        };
        match Integer::from_rust(self) {
            Ok(atomic) => Ok(Message::new(address, (atomic,))),
            Err(e) => Err(AddressErr::StringErr(e)),
        }
    }
}

impl IntoOsc for Float {
    type AsOsc = (Float,);

    open spec fn spec_osc_check(&self) -> Result<(), InvalidContents> {
        Float::spec_check(*self)
    }

    open spec fn spec_osc_tags(&self) -> Seq<Tag> {
        seq![Float::spec_type_tag(Float::spec_rust(*self))]
    }

    open spec fn spec_osc_payload(&self) -> Seq<u8> {
        Float::spec_encode(Float::spec_rust(*self))
    }

    open spec fn spec_osc_fits(&self) -> bool {
        Float::spec_fits(Float::spec_rust(*self))
    }

    fn into_osc<Path: IntoAddress<Method>, Method: IntoIntoAddress>(
        self,
        path: Path,
        method: Method,
    ) -> (r: Result<Message<(Float,)>, AddressErr>) {
        let address = match path.into_address(method) {
            Ok(address) => address,
            Err(e) => {
                return Err(e);
            },
        };
        match Float::from_rust(self) {
            Ok(atomic) => Ok(Message::new(address, (atomic,))),
            Err(e) => Err(AddressErr::StringErr(e)),
        }
    }
}

impl<'s> IntoOsc for &'s str {
    type AsOsc = (String<'s>,);

    open spec fn spec_osc_check(&self) -> Result<(), InvalidContents> {
        String::<'s>::spec_check(*self)
    }

    open spec fn spec_osc_tags(&self) -> Seq<Tag> {
        seq![String::<'s>::spec_type_tag(String::<'s>::spec_rust(*self))]
    }

    open spec fn spec_osc_payload(&self) -> Seq<u8> {
        String::<'s>::spec_encode(String::<'s>::spec_rust(*self))
    }

    open spec fn spec_osc_fits(&self) -> bool {
        String::<'s>::spec_fits(String::<'s>::spec_rust(*self))
    }

    fn into_osc<Path: IntoAddress<Method>, Method: IntoIntoAddress>(
        self,
        path: Path,
        method: Method,
    ) -> (r: Result<Message<(String<'s>,)>, AddressErr>) {
        let address = match path.into_address(method) {
            Ok(address) => address,
            Err(e) => {
                return Err(e);
            },
        };
        match String::from_rust(self) {
            Ok(atomic) => Ok(Message::new(address, (atomic,))),
            Err(e) => Err(AddressErr::StringErr(e)),
        }
    }
}

impl<'b> IntoOsc for &'b [u8] {
    type AsOsc = (Blob<'b>,);

    open spec fn spec_osc_check(&self) -> Result<(), InvalidContents> {
        Blob::<'b>::spec_check(*self)
    }

    open spec fn spec_osc_tags(&self) -> Seq<Tag> {
        seq![Blob::<'b>::spec_type_tag(Blob::<'b>::spec_rust(*self))]
    }

    open spec fn spec_osc_payload(&self) -> Seq<u8> {
        Blob::<'b>::spec_encode(Blob::<'b>::spec_rust(*self))
    }

    open spec fn spec_osc_fits(&self) -> bool {
        Blob::<'b>::spec_fits(Blob::<'b>::spec_rust(*self))
    }

    fn into_osc<Path: IntoAddress<Method>, Method: IntoIntoAddress>(
        self,
        path: Path,
        method: Method,
    ) -> (r: Result<Message<(Blob<'b>,)>, AddressErr>) {
        let address = match path.into_address(method) {
            Ok(address) => address,
            Err(e) => {
                return Err(e);
            },
        };
        match Blob::from_rust(self) {
            Ok(atomic) => Ok(Message::new(address, (atomic,))),
            Err(e) => Err(AddressErr::StringErr(e)),
        }
    }
}

impl IntoOsc for Data {
    type AsOsc = (Data,);

    open spec fn spec_osc_check(&self) -> Result<(), InvalidContents> {
        Data::spec_check(*self)
    }

    open spec fn spec_osc_tags(&self) -> Seq<Tag> {
        seq![Data::spec_type_tag(Data::spec_rust(*self))]
    }

    open spec fn spec_osc_payload(&self) -> Seq<u8> {
        Data::spec_encode(Data::spec_rust(*self))
    }

    open spec fn spec_osc_fits(&self) -> bool {
        Data::spec_fits(Data::spec_rust(*self))
    }

    fn into_osc<Path: IntoAddress<Method>, Method: IntoIntoAddress>(
        self,
        path: Path,
        method: Method,
    ) -> (r: Result<Message<(Data,)>, AddressErr>) {
        let address = match path.into_address(method) {
            Ok(address) => address,
            Err(e) => {
                return Err(e);
            },
        };
        match Data::from_rust(self) {
            Ok(atomic) => Ok(Message::new(address, (atomic,))),
            Err(e) => Err(AddressErr::StringErr(e)),
        }
    }
}

impl IntoOsc for std::string::String {
    type AsOsc = (DynamicString,);

    open spec fn spec_osc_check(&self) -> Result<(), InvalidContents> {
        DynamicString::spec_check(*self)
    }

    open spec fn spec_osc_tags(&self) -> Seq<Tag> {
        seq![DynamicString::spec_type_tag(DynamicString::spec_rust(*self))]
    }

    open spec fn spec_osc_payload(&self) -> Seq<u8> {
        DynamicString::spec_encode(DynamicString::spec_rust(*self))
    }

    open spec fn spec_osc_fits(&self) -> bool {
        DynamicString::spec_fits(DynamicString::spec_rust(*self))
    }

    fn into_osc<Path: IntoAddress<Method>, Method: IntoIntoAddress>(
        self,
        path: Path,
        method: Method,
    ) -> (r: Result<Message<(DynamicString,)>, AddressErr>) {
        let address = match path.into_address(method) {
            Ok(address) => address,
            Err(e) => {
                return Err(e);
            },
        };
        match DynamicString::from_rust(self) {
            Ok(atomic) => Ok(Message::new(address, (atomic,))),
            Err(e) => Err(AddressErr::StringErr(e)),
        }
    }
}

impl IntoOsc for Vec<u8> {
    type AsOsc = (DynamicBlob,);

    open spec fn spec_osc_check(&self) -> Result<(), InvalidContents> {
        DynamicBlob::spec_check(*self)
    }

    open spec fn spec_osc_tags(&self) -> Seq<Tag> {
        seq![DynamicBlob::spec_type_tag(DynamicBlob::spec_rust(*self))]
    }

    open spec fn spec_osc_payload(&self) -> Seq<u8> {
        DynamicBlob::spec_encode(DynamicBlob::spec_rust(*self))
    }

    open spec fn spec_osc_fits(&self) -> bool {
        DynamicBlob::spec_fits(DynamicBlob::spec_rust(*self))
    }

    fn into_osc<Path: IntoAddress<Method>, Method: IntoIntoAddress>(
        self,
        path: Path,
        method: Method,
    ) -> (r: Result<Message<(DynamicBlob,)>, AddressErr>) {
        let address = match path.into_address(method) {
            Ok(address) => address,
            Err(e) => {
                return Err(e);
            },
        };
        match DynamicBlob::from_rust(self) {
            Ok(atomic) => Ok(Message::new(address, (atomic,))),
            Err(e) => Err(AddressErr::StringErr(e)),
        }
    }
}

impl<A: IntoAtomic> IntoOsc for (A,) {
    type AsOsc = (A::AsAtomic,);

    open spec fn spec_osc_check(&self) -> Result<(), InvalidContents> {
        A::AsAtomic::spec_check(self.0)
    }

    open spec fn spec_osc_tags(&self) -> Seq<Tag> {
        seq![
            A::AsAtomic::spec_type_tag(A::AsAtomic::spec_rust(self.0)),
        ]
    }

    open spec fn spec_osc_payload(&self) -> Seq<u8> {
        A::AsAtomic::spec_encode(A::AsAtomic::spec_rust(self.0))
    }

    open spec fn spec_osc_fits(&self) -> bool {
        &&& A::AsAtomic::spec_fits(A::AsAtomic::spec_rust(self.0))
    }

    fn into_osc<Path: IntoAddress<Method>, Method: IntoIntoAddress>(
        self,
        path: Path,
        method: Method,
    ) -> (r: Result<Message<(A::AsAtomic,)>, AddressErr>) {
        let address = match path.into_address(method) {
            Ok(address) => address,
            Err(e) => {
                return Err(e);
            },
        };
        let atomic_0 = match self.0.into_atomic() {
            Ok(atomic) => atomic,
            Err(e) => {
                return Err(AddressErr::StringErr(e));
            },
        };
        Ok(Message::new(address, (atomic_0,)))
    }
}

impl<A: IntoAtomic, B: IntoAtomic> IntoOsc for (A, B) {
    type AsOsc = (A::AsAtomic, B::AsAtomic);

    open spec fn spec_osc_check(&self) -> Result<(), InvalidContents> {
        match A::AsAtomic::spec_check(self.0) {
            Err(e) => Err(e),
            Ok(()) => B::AsAtomic::spec_check(self.1),
        }
    }

    open spec fn spec_osc_tags(&self) -> Seq<Tag> {
        seq![
            A::AsAtomic::spec_type_tag(A::AsAtomic::spec_rust(self.0)),
            B::AsAtomic::spec_type_tag(B::AsAtomic::spec_rust(self.1)),
        ]
    }

    open spec fn spec_osc_payload(&self) -> Seq<u8> {
        A::AsAtomic::spec_encode(A::AsAtomic::spec_rust(self.0))
            + B::AsAtomic::spec_encode(B::AsAtomic::spec_rust(self.1))
    }

    open spec fn spec_osc_fits(&self) -> bool {
        &&& A::AsAtomic::spec_fits(A::AsAtomic::spec_rust(self.0))
        &&& B::AsAtomic::spec_fits(B::AsAtomic::spec_rust(self.1))
    }

    fn into_osc<Path: IntoAddress<Method>, Method: IntoIntoAddress>(
        self,
        path: Path,
        method: Method,
    ) -> (r: Result<Message<(A::AsAtomic, B::AsAtomic)>, AddressErr>) {
        let address = match path.into_address(method) {
            Ok(address) => address,
            Err(e) => {
                return Err(e);
            },
        };
        let atomic_0 = match self.0.into_atomic() {
            Ok(atomic) => atomic,
            Err(e) => {
                return Err(AddressErr::StringErr(e));
            },
        };
        let atomic_1 = match self.1.into_atomic() {
            Ok(atomic) => atomic,
            Err(e) => {
                return Err(AddressErr::StringErr(e));
            },
        };
        Ok(Message::new(address, (atomic_0, atomic_1)))
    }
}

impl<A: IntoAtomic, B: IntoAtomic, C: IntoAtomic> IntoOsc for (A, B, C) {
    type AsOsc = (A::AsAtomic, B::AsAtomic, C::AsAtomic);

    open spec fn spec_osc_check(&self) -> Result<(), InvalidContents> {
        match A::AsAtomic::spec_check(self.0) {
            Err(e) => Err(e),
            Ok(()) => match B::AsAtomic::spec_check(self.1) {
                Err(e) => Err(e),
                Ok(()) => C::AsAtomic::spec_check(self.2),
            },
        }
    }

    open spec fn spec_osc_tags(&self) -> Seq<Tag> {
        seq![
            A::AsAtomic::spec_type_tag(A::AsAtomic::spec_rust(self.0)),
            B::AsAtomic::spec_type_tag(B::AsAtomic::spec_rust(self.1)),
            C::AsAtomic::spec_type_tag(C::AsAtomic::spec_rust(self.2)),
        ]
    }

    open spec fn spec_osc_payload(&self) -> Seq<u8> {
        A::AsAtomic::spec_encode(A::AsAtomic::spec_rust(self.0))
            + B::AsAtomic::spec_encode(B::AsAtomic::spec_rust(self.1))
            + C::AsAtomic::spec_encode(C::AsAtomic::spec_rust(self.2))
    }

    open spec fn spec_osc_fits(&self) -> bool {
        &&& A::AsAtomic::spec_fits(A::AsAtomic::spec_rust(self.0))
        &&& B::AsAtomic::spec_fits(B::AsAtomic::spec_rust(self.1))
        &&& C::AsAtomic::spec_fits(C::AsAtomic::spec_rust(self.2))
    }

    fn into_osc<Path: IntoAddress<Method>, Method: IntoIntoAddress>(
        self,
        path: Path,
        method: Method,
    ) -> (r: Result<Message<(A::AsAtomic, B::AsAtomic, C::AsAtomic)>, AddressErr>) {
        let address = match path.into_address(method) {
            Ok(address) => address,
            Err(e) => {
                return Err(e);
            },
        };
        let atomic_0 = match self.0.into_atomic() {
            Ok(atomic) => atomic,
            Err(e) => {
                return Err(AddressErr::StringErr(e));
            },
        };
        let atomic_1 = match self.1.into_atomic() {
            Ok(atomic) => atomic,
            Err(e) => {
                return Err(AddressErr::StringErr(e));
            },
        };
        let atomic_2 = match self.2.into_atomic() {
            Ok(atomic) => atomic,
            Err(e) => {
                return Err(AddressErr::StringErr(e));
            },
        };
        Ok(Message::new(address, (atomic_0, atomic_1, atomic_2)))
    }
}

impl<A: IntoAtomic, B: IntoAtomic, C: IntoAtomic, D: IntoAtomic> IntoOsc for (A, B, C, D) {
    type AsOsc = (A::AsAtomic, B::AsAtomic, C::AsAtomic, D::AsAtomic);

    open spec fn spec_osc_check(&self) -> Result<(), InvalidContents> {
        match A::AsAtomic::spec_check(self.0) {
            Err(e) => Err(e),
            Ok(()) => match B::AsAtomic::spec_check(self.1) {
                Err(e) => Err(e),
                Ok(()) => match C::AsAtomic::spec_check(self.2) {
                    Err(e) => Err(e),
                    Ok(()) => D::AsAtomic::spec_check(self.3),
                },
            },
        }
    }

    open spec fn spec_osc_tags(&self) -> Seq<Tag> {
        seq![
            A::AsAtomic::spec_type_tag(A::AsAtomic::spec_rust(self.0)),
            B::AsAtomic::spec_type_tag(B::AsAtomic::spec_rust(self.1)),
            C::AsAtomic::spec_type_tag(C::AsAtomic::spec_rust(self.2)),
            D::AsAtomic::spec_type_tag(D::AsAtomic::spec_rust(self.3)),
        ]
    }

    open spec fn spec_osc_payload(&self) -> Seq<u8> {
        A::AsAtomic::spec_encode(A::AsAtomic::spec_rust(self.0))
            + B::AsAtomic::spec_encode(B::AsAtomic::spec_rust(self.1))
            + C::AsAtomic::spec_encode(C::AsAtomic::spec_rust(self.2))
            + D::AsAtomic::spec_encode(D::AsAtomic::spec_rust(self.3))
    }

    open spec fn spec_osc_fits(&self) -> bool {
        &&& A::AsAtomic::spec_fits(A::AsAtomic::spec_rust(self.0))
        &&& B::AsAtomic::spec_fits(B::AsAtomic::spec_rust(self.1))
        &&& C::AsAtomic::spec_fits(C::AsAtomic::spec_rust(self.2))
        &&& D::AsAtomic::spec_fits(D::AsAtomic::spec_rust(self.3))
    }

    fn into_osc<Path: IntoAddress<Method>, Method: IntoIntoAddress>(
        self,
        path: Path,
        method: Method,
    ) -> (r: Result<Message<(A::AsAtomic, B::AsAtomic, C::AsAtomic, D::AsAtomic)>, AddressErr>) {
        let address = match path.into_address(method) {
            Ok(address) => address,
            Err(e) => {
                return Err(e);
            },
        };
        let atomic_0 = match self.0.into_atomic() {
            Ok(atomic) => atomic,
            Err(e) => {
                return Err(AddressErr::StringErr(e));
            },
        };
        let atomic_1 = match self.1.into_atomic() {
            Ok(atomic) => atomic,
            Err(e) => {
                return Err(AddressErr::StringErr(e));
            },
        };
        let atomic_2 = match self.2.into_atomic() {
            Ok(atomic) => atomic,
            Err(e) => {
                return Err(AddressErr::StringErr(e));
            },
        };
        let atomic_3 = match self.3.into_atomic() {
            Ok(atomic) => atomic,
            Err(e) => {
                return Err(AddressErr::StringErr(e));
            },
        };
        Ok(Message::new(address, (atomic_0, atomic_1, atomic_2, atomic_3)))
    }
}

impl<
    A: IntoAtomic,
    B: IntoAtomic,
    C: IntoAtomic,
    D: IntoAtomic,
    E: IntoAtomic,
> IntoOsc for (A, B, C, D, E) {
    type AsOsc = (A::AsAtomic, B::AsAtomic, C::AsAtomic, D::AsAtomic, E::AsAtomic);

    open spec fn spec_osc_check(&self) -> Result<(), InvalidContents> {
        match A::AsAtomic::spec_check(self.0) {
            Err(e) => Err(e),
            Ok(()) => match B::AsAtomic::spec_check(self.1) {
                Err(e) => Err(e),
                Ok(()) => match C::AsAtomic::spec_check(self.2) {
                    Err(e) => Err(e),
                    Ok(()) => match D::AsAtomic::spec_check(self.3) {
                        Err(e) => Err(e),
                        Ok(()) => E::AsAtomic::spec_check(self.4),
                    },
                },
            },
        }
    }

    open spec fn spec_osc_tags(&self) -> Seq<Tag> {
        seq![
            A::AsAtomic::spec_type_tag(A::AsAtomic::spec_rust(self.0)),
            B::AsAtomic::spec_type_tag(B::AsAtomic::spec_rust(self.1)),
            C::AsAtomic::spec_type_tag(C::AsAtomic::spec_rust(self.2)),
            D::AsAtomic::spec_type_tag(D::AsAtomic::spec_rust(self.3)),
            E::AsAtomic::spec_type_tag(E::AsAtomic::spec_rust(self.4)),
        ]
    }

    open spec fn spec_osc_payload(&self) -> Seq<u8> {
        A::AsAtomic::spec_encode(A::AsAtomic::spec_rust(self.0))
            + B::AsAtomic::spec_encode(B::AsAtomic::spec_rust(self.1))
            + C::AsAtomic::spec_encode(C::AsAtomic::spec_rust(self.2))
            + D::AsAtomic::spec_encode(D::AsAtomic::spec_rust(self.3))
            + E::AsAtomic::spec_encode(E::AsAtomic::spec_rust(self.4))
    }

    open spec fn spec_osc_fits(&self) -> bool {
        &&& A::AsAtomic::spec_fits(A::AsAtomic::spec_rust(self.0))
        &&& B::AsAtomic::spec_fits(B::AsAtomic::spec_rust(self.1))
        &&& C::AsAtomic::spec_fits(C::AsAtomic::spec_rust(self.2))
        &&& D::AsAtomic::spec_fits(D::AsAtomic::spec_rust(self.3))
        &&& E::AsAtomic::spec_fits(E::AsAtomic::spec_rust(self.4))
    }

    fn into_osc<Path: IntoAddress<Method>, Method: IntoIntoAddress>(
        self,
        path: Path,
        method: Method,
    ) -> (r: Result<
        Message<
            (
                A::AsAtomic,
                B::AsAtomic,
                C::AsAtomic,
                D::AsAtomic,
                E::AsAtomic,
            ),
        >,
        AddressErr,
    >) {
        let address = match path.into_address(method) {
            Ok(address) => address,
            Err(e) => {
                return Err(e);
            },
        };
        let atomic_0 = match self.0.into_atomic() {
            Ok(atomic) => atomic,
            Err(e) => {
                return Err(AddressErr::StringErr(e));
            },
        };
        let atomic_1 = match self.1.into_atomic() {
            Ok(atomic) => atomic,
            Err(e) => {
                return Err(AddressErr::StringErr(e));
            },
        };
        let atomic_2 = match self.2.into_atomic() {
            Ok(atomic) => atomic,
            Err(e) => {
                return Err(AddressErr::StringErr(e));
            },
        };
        let atomic_3 = match self.3.into_atomic() {
            Ok(atomic) => atomic,
            Err(e) => {
                return Err(AddressErr::StringErr(e));
            },
        };
        let atomic_4 = match self.4.into_atomic() {
            Ok(atomic) => atomic,
            Err(e) => {
                return Err(AddressErr::StringErr(e));
            },
        };
        Ok(Message::new(address, (atomic_0, atomic_1, atomic_2, atomic_3, atomic_4)))
    }
}

impl<
    A: IntoAtomic,
    B: IntoAtomic,
    C: IntoAtomic,
    D: IntoAtomic,
    E: IntoAtomic,
    F: IntoAtomic,
> IntoOsc for (A, B, C, D, E, F) {
    type AsOsc = (A::AsAtomic, B::AsAtomic, C::AsAtomic, D::AsAtomic, E::AsAtomic, F::AsAtomic);

    open spec fn spec_osc_check(&self) -> Result<(), InvalidContents> {
        match A::AsAtomic::spec_check(self.0) {
            Err(e) => Err(e),
            Ok(()) => match B::AsAtomic::spec_check(self.1) {
                Err(e) => Err(e),
                Ok(()) => match C::AsAtomic::spec_check(self.2) {
                    Err(e) => Err(e),
                    Ok(()) => match D::AsAtomic::spec_check(self.3) {
                        Err(e) => Err(e),
                        Ok(()) => match E::AsAtomic::spec_check(self.4) {
                            Err(e) => Err(e),
                            Ok(()) => F::AsAtomic::spec_check(self.5),
                        },
                    },
                },
            },
        }
    }

    open spec fn spec_osc_tags(&self) -> Seq<Tag> {
        seq![
            A::AsAtomic::spec_type_tag(A::AsAtomic::spec_rust(self.0)),
            B::AsAtomic::spec_type_tag(B::AsAtomic::spec_rust(self.1)),
            C::AsAtomic::spec_type_tag(C::AsAtomic::spec_rust(self.2)),
            D::AsAtomic::spec_type_tag(D::AsAtomic::spec_rust(self.3)),
            E::AsAtomic::spec_type_tag(E::AsAtomic::spec_rust(self.4)),
            F::AsAtomic::spec_type_tag(F::AsAtomic::spec_rust(self.5)),
        ]
    }

    open spec fn spec_osc_payload(&self) -> Seq<u8> {
        A::AsAtomic::spec_encode(A::AsAtomic::spec_rust(self.0))
            + B::AsAtomic::spec_encode(B::AsAtomic::spec_rust(self.1))
            + C::AsAtomic::spec_encode(C::AsAtomic::spec_rust(self.2))
            + D::AsAtomic::spec_encode(D::AsAtomic::spec_rust(self.3))
            + E::AsAtomic::spec_encode(E::AsAtomic::spec_rust(self.4))
            + F::AsAtomic::spec_encode(F::AsAtomic::spec_rust(self.5))
    }

    open spec fn spec_osc_fits(&self) -> bool {
        &&& A::AsAtomic::spec_fits(A::AsAtomic::spec_rust(self.0))
        &&& B::AsAtomic::spec_fits(B::AsAtomic::spec_rust(self.1))
        &&& C::AsAtomic::spec_fits(C::AsAtomic::spec_rust(self.2))
        &&& D::AsAtomic::spec_fits(D::AsAtomic::spec_rust(self.3))
        &&& E::AsAtomic::spec_fits(E::AsAtomic::spec_rust(self.4))
        &&& F::AsAtomic::spec_fits(F::AsAtomic::spec_rust(self.5))
    }

    fn into_osc<Path: IntoAddress<Method>, Method: IntoIntoAddress>(
        self,
        path: Path,
        method: Method,
    ) -> (r: Result<
        Message<
            (
                A::AsAtomic,
                B::AsAtomic,
                C::AsAtomic,
                D::AsAtomic,
                E::AsAtomic,
                F::AsAtomic,
            ),
        >,
        AddressErr,
    >) {
        let address = match path.into_address(method) {
            Ok(address) => address,
            Err(e) => {
                return Err(e);
            },
        };
        let atomic_0 = match self.0.into_atomic() {
            Ok(atomic) => atomic,
            Err(e) => {
                return Err(AddressErr::StringErr(e));
            },
        };
        let atomic_1 = match self.1.into_atomic() {
            Ok(atomic) => atomic,
            Err(e) => {
                return Err(AddressErr::StringErr(e));
            },
        };
        let atomic_2 = match self.2.into_atomic() {
            Ok(atomic) => atomic,
            Err(e) => {
                return Err(AddressErr::StringErr(e));
            },
        };
        let atomic_3 = match self.3.into_atomic() {
            Ok(atomic) => atomic,
            Err(e) => {
                return Err(AddressErr::StringErr(e));
            },
        };
        let atomic_4 = match self.4.into_atomic() {
            Ok(atomic) => atomic,
            Err(e) => {
                return Err(AddressErr::StringErr(e));
            },
        };
        let atomic_5 = match self.5.into_atomic() {
            Ok(atomic) => atomic,
            Err(e) => {
                return Err(AddressErr::StringErr(e));
            },
        };
        Ok(Message::new(address, (atomic_0, atomic_1, atomic_2, atomic_3, atomic_4, atomic_5)))
    }
}

impl<
    A: IntoAtomic,
    B: IntoAtomic,
    C: IntoAtomic,
    D: IntoAtomic,
    E: IntoAtomic,
    F: IntoAtomic,
    G: IntoAtomic,
> IntoOsc for (A, B, C, D, E, F, G) {
    type AsOsc = (
        A::AsAtomic,
        B::AsAtomic,
        C::AsAtomic,
        D::AsAtomic,
        E::AsAtomic,
        F::AsAtomic,
        G::AsAtomic,
    );

    open spec fn spec_osc_check(&self) -> Result<(), InvalidContents> {
        match A::AsAtomic::spec_check(self.0) {
            Err(e) => Err(e),
            Ok(()) => match B::AsAtomic::spec_check(self.1) {
                Err(e) => Err(e),
                Ok(()) => match C::AsAtomic::spec_check(self.2) {
                    Err(e) => Err(e),
                    Ok(()) => match D::AsAtomic::spec_check(self.3) {
                        Err(e) => Err(e),
                        Ok(()) => match E::AsAtomic::spec_check(self.4) {
                            Err(e) => Err(e),
                            Ok(()) => match F::AsAtomic::spec_check(self.5) {
                                Err(e) => Err(e),
                                Ok(()) => G::AsAtomic::spec_check(self.6),
                            },
                        },
                    },
                },
            },
        }
    }

    open spec fn spec_osc_tags(&self) -> Seq<Tag> {
        seq![
            A::AsAtomic::spec_type_tag(A::AsAtomic::spec_rust(self.0)),
            B::AsAtomic::spec_type_tag(B::AsAtomic::spec_rust(self.1)),
            C::AsAtomic::spec_type_tag(C::AsAtomic::spec_rust(self.2)),
            D::AsAtomic::spec_type_tag(D::AsAtomic::spec_rust(self.3)),
            E::AsAtomic::spec_type_tag(E::AsAtomic::spec_rust(self.4)),
            F::AsAtomic::spec_type_tag(F::AsAtomic::spec_rust(self.5)),
            G::AsAtomic::spec_type_tag(G::AsAtomic::spec_rust(self.6)),
        ]
    }

    open spec fn spec_osc_payload(&self) -> Seq<u8> {
        A::AsAtomic::spec_encode(A::AsAtomic::spec_rust(self.0))
            + B::AsAtomic::spec_encode(B::AsAtomic::spec_rust(self.1))
            + C::AsAtomic::spec_encode(C::AsAtomic::spec_rust(self.2))
            + D::AsAtomic::spec_encode(D::AsAtomic::spec_rust(self.3))
            + E::AsAtomic::spec_encode(E::AsAtomic::spec_rust(self.4))
            + F::AsAtomic::spec_encode(F::AsAtomic::spec_rust(self.5))
            + G::AsAtomic::spec_encode(G::AsAtomic::spec_rust(self.6))
    }

    open spec fn spec_osc_fits(&self) -> bool {
        &&& A::AsAtomic::spec_fits(A::AsAtomic::spec_rust(self.0))
        &&& B::AsAtomic::spec_fits(B::AsAtomic::spec_rust(self.1))
        &&& C::AsAtomic::spec_fits(C::AsAtomic::spec_rust(self.2))
        &&& D::AsAtomic::spec_fits(D::AsAtomic::spec_rust(self.3))
        &&& E::AsAtomic::spec_fits(E::AsAtomic::spec_rust(self.4))
        &&& F::AsAtomic::spec_fits(F::AsAtomic::spec_rust(self.5))
        &&& G::AsAtomic::spec_fits(G::AsAtomic::spec_rust(self.6))
    }

    fn into_osc<Path: IntoAddress<Method>, Method: IntoIntoAddress>(
        self,
        path: Path,
        method: Method,
    ) -> (r: Result<
        Message<
            (
                A::AsAtomic,
                B::AsAtomic,
                C::AsAtomic,
                D::AsAtomic,
                E::AsAtomic,
                F::AsAtomic,
                G::AsAtomic,
            ),
        >,
        AddressErr,
    >) {
        let address = match path.into_address(method) {
            Ok(address) => address,
            Err(e) => {
                return Err(e);
            },
        };
        let atomic_0 = match self.0.into_atomic() {
            Ok(atomic) => atomic,
            Err(e) => {
                return Err(AddressErr::StringErr(e));
            },
        };
        let atomic_1 = match self.1.into_atomic() {
            Ok(atomic) => atomic,
            Err(e) => {
                return Err(AddressErr::StringErr(e));
            },
        };
        let atomic_2 = match self.2.into_atomic() {
            Ok(atomic) => atomic,
            Err(e) => {
                return Err(AddressErr::StringErr(e));
            },
        };
        let atomic_3 = match self.3.into_atomic() {
            Ok(atomic) => atomic,
            Err(e) => {
                return Err(AddressErr::StringErr(e));
            },
        };
        let atomic_4 = match self.4.into_atomic() {
            Ok(atomic) => atomic,
            Err(e) => {
                return Err(AddressErr::StringErr(e));
            },
        };
        let atomic_5 = match self.5.into_atomic() {
            Ok(atomic) => atomic,
            Err(e) => {
                return Err(AddressErr::StringErr(e));
            },
        };
        let atomic_6 = match self.6.into_atomic() {
            Ok(atomic) => atomic,
            Err(e) => {
                return Err(AddressErr::StringErr(e));
            },
        };
        Ok(
            Message::new(
                address,
                (atomic_0, atomic_1, atomic_2, atomic_3, atomic_4, atomic_5, atomic_6),
            ),
        )
    }
}

impl<
    A: IntoAtomic,
    B: IntoAtomic,
    C: IntoAtomic,
    D: IntoAtomic,
    E: IntoAtomic,
    F: IntoAtomic,
    G: IntoAtomic,
    H: IntoAtomic,
> IntoOsc for (A, B, C, D, E, F, G, H) {
    type AsOsc = (
        A::AsAtomic,
        B::AsAtomic,
        C::AsAtomic,
        D::AsAtomic,
        E::AsAtomic,
        F::AsAtomic,
        G::AsAtomic,
        H::AsAtomic,
    );

    open spec fn spec_osc_check(&self) -> Result<(), InvalidContents> {
        match A::AsAtomic::spec_check(self.0) {
            Err(e) => Err(e),
            Ok(()) => match B::AsAtomic::spec_check(self.1) {
                Err(e) => Err(e),
                Ok(()) => match C::AsAtomic::spec_check(self.2) {
                    Err(e) => Err(e),
                    Ok(()) => match D::AsAtomic::spec_check(self.3) {
                        Err(e) => Err(e),
                        Ok(()) => match E::AsAtomic::spec_check(self.4) {
                            Err(e) => Err(e),
                            Ok(()) => match F::AsAtomic::spec_check(self.5) {
                                Err(e) => Err(e),
                                Ok(()) => match G::AsAtomic::spec_check(self.6) {
                                    Err(e) => Err(e),
                                    Ok(()) => H::AsAtomic::spec_check(self.7),
                                },
                            },
                        },
                    },
                },
            },
        }
    }

    open spec fn spec_osc_tags(&self) -> Seq<Tag> {
        seq![
            A::AsAtomic::spec_type_tag(A::AsAtomic::spec_rust(self.0)),
            B::AsAtomic::spec_type_tag(B::AsAtomic::spec_rust(self.1)),
            C::AsAtomic::spec_type_tag(C::AsAtomic::spec_rust(self.2)),
            D::AsAtomic::spec_type_tag(D::AsAtomic::spec_rust(self.3)),
            E::AsAtomic::spec_type_tag(E::AsAtomic::spec_rust(self.4)),
            F::AsAtomic::spec_type_tag(F::AsAtomic::spec_rust(self.5)),
            G::AsAtomic::spec_type_tag(G::AsAtomic::spec_rust(self.6)),
            H::AsAtomic::spec_type_tag(H::AsAtomic::spec_rust(self.7)),
        ]
    }

    open spec fn spec_osc_payload(&self) -> Seq<u8> {
        A::AsAtomic::spec_encode(A::AsAtomic::spec_rust(self.0))
            + B::AsAtomic::spec_encode(B::AsAtomic::spec_rust(self.1))
            + C::AsAtomic::spec_encode(C::AsAtomic::spec_rust(self.2))
            + D::AsAtomic::spec_encode(D::AsAtomic::spec_rust(self.3))
            + E::AsAtomic::spec_encode(E::AsAtomic::spec_rust(self.4))
            + F::AsAtomic::spec_encode(F::AsAtomic::spec_rust(self.5))
            + G::AsAtomic::spec_encode(G::AsAtomic::spec_rust(self.6))
            + H::AsAtomic::spec_encode(H::AsAtomic::spec_rust(self.7))
    }

    open spec fn spec_osc_fits(&self) -> bool {
        &&& A::AsAtomic::spec_fits(A::AsAtomic::spec_rust(self.0))
        &&& B::AsAtomic::spec_fits(B::AsAtomic::spec_rust(self.1))
        &&& C::AsAtomic::spec_fits(C::AsAtomic::spec_rust(self.2))
        &&& D::AsAtomic::spec_fits(D::AsAtomic::spec_rust(self.3))
        &&& E::AsAtomic::spec_fits(E::AsAtomic::spec_rust(self.4))
        &&& F::AsAtomic::spec_fits(F::AsAtomic::spec_rust(self.5))
        &&& G::AsAtomic::spec_fits(G::AsAtomic::spec_rust(self.6))
        &&& H::AsAtomic::spec_fits(H::AsAtomic::spec_rust(self.7))
    }

    fn into_osc<Path: IntoAddress<Method>, Method: IntoIntoAddress>(
        self,
        path: Path,
        method: Method,
    ) -> (r: Result<
        Message<
            (
                A::AsAtomic,
                B::AsAtomic,
                C::AsAtomic,
                D::AsAtomic,
                E::AsAtomic,
                F::AsAtomic,
                G::AsAtomic,
                H::AsAtomic,
            ),
        >,
        AddressErr,
    >) {
        let address = match path.into_address(method) {
            Ok(address) => address,
            Err(e) => {
                return Err(e);
            },
        };
        let atomic_0 = match self.0.into_atomic() {
            Ok(atomic) => atomic,
            Err(e) => {
                return Err(AddressErr::StringErr(e));
            },
        };
        let atomic_1 = match self.1.into_atomic() {
            Ok(atomic) => atomic,
            Err(e) => {
                return Err(AddressErr::StringErr(e));
            },
        };
        let atomic_2 = match self.2.into_atomic() {
            Ok(atomic) => atomic,
            Err(e) => {
                return Err(AddressErr::StringErr(e));
            },
        };
        let atomic_3 = match self.3.into_atomic() {
            Ok(atomic) => atomic,
            Err(e) => {
                return Err(AddressErr::StringErr(e));
            },
        };
        let atomic_4 = match self.4.into_atomic() {
            Ok(atomic) => atomic,
            Err(e) => {
                return Err(AddressErr::StringErr(e));
            },
        };
        let atomic_5 = match self.5.into_atomic() {
            Ok(atomic) => atomic,
            Err(e) => {
                return Err(AddressErr::StringErr(e));
            },
        };
        let atomic_6 = match self.6.into_atomic() {
            Ok(atomic) => atomic,
            Err(e) => {
                return Err(AddressErr::StringErr(e));
            },
        };
        let atomic_7 = match self.7.into_atomic() {
            Ok(atomic) => atomic,
            Err(e) => {
                return Err(AddressErr::StringErr(e));
            },
        };
        Ok(
            Message::new(
                address,
                (atomic_0, atomic_1, atomic_2, atomic_3, atomic_4, atomic_5, atomic_6, atomic_7),
            ),
        )
    }
}

} // verus!
