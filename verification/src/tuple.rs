//! Typed collection of data.

use crate::atomic::Atomic;
use crate::batch::Batched;
use crate::dynamic::{encode_values, tags_for, values_fit, Data, Dynamic};
use crate::stream::{collect, ByteStream, Chain, Empty, VecStream};
use crate::tag::Tag;
use vstd::prelude::*;

verus! {

/// Typed collection of data.
pub trait Tuple: Sized {
    /// Chained sources of each piece of data in this tuple.
    type Chained: ByteStream;

    /// The tags of the pieces of data, in order.
    spec fn spec_type_tag(&self) -> Seq<Tag>;

    /// The wire forms of the pieces of data, one after the other.
    spec fn spec_chain(&self) -> Seq<u8>;

    /// Whether each piece of data has a wire form.
    spec fn spec_fits(&self) -> bool;

    /// Format an OSC type tag for this collection of types.
    fn type_tag(&self) -> (tags: Vec<Tag>)
        ensures
            tags@ == self.spec_type_tag(),
    ;

    /// Whether each piece of data has a wire form.
    fn fits(&self) -> (fits: bool)
        ensures
            fits == self.spec_fits(),
    ;

    /// Chain sources of each piece of data in this tuple.
    fn chain(self) -> (bytes: Self::Chained)
        requires
            self.spec_fits(),
        ensures
            bytes.remaining() == self.spec_chain(),
    ;
}

impl Tuple for () {
    type Chained = Empty;

    open spec fn spec_type_tag(&self) -> Seq<Tag> {
        Seq::empty()
    }

    open spec fn spec_chain(&self) -> Seq<u8> {
        Seq::empty()
    }

    open spec fn spec_fits(&self) -> bool {
        true
    }

    fn type_tag(&self) -> (tags: Vec<Tag>) {
        Vec::new()
    }

    fn fits(&self) -> (fits: bool) {
        true
    }

    fn chain(self) -> (bytes: Empty) {
        Empty
    }
}

impl Tuple for Dynamic {
    type Chained = VecStream;

    open spec fn spec_type_tag(&self) -> Seq<Tag> {
        tags_for(self@)
    }

    open spec fn spec_chain(&self) -> Seq<u8> {
        encode_values(self@)
    }

    open spec fn spec_fits(&self) -> bool {
        values_fit(self@)
    }

    fn type_tag(&self) -> (tags: Vec<Tag>) {
        let mut tags: Vec<Tag> = Vec::with_capacity(self.0.len());
        let mut i: usize = 0;
        while i < self.0.len()
            invariant
                i <= self.0@.len(),
                tags@ == tags_for(self@.take(i as int)),
            decreases self.0@.len() - i,
        {
            tags.push(self.0[i].type_tag());
            proof {
                assert(self@.take(i + 1) =~= self@.take(i as int).push(self.0@[i as int]@));
                assert(tags@ =~= tags_for(self@.take(i + 1)));
            }
            i = i + 1;
        }
        proof {
            assert(self@.take(self.0@.len() as int) =~= self@);
        }
        tags
    }

    fn fits(&self) -> (fits: bool) {
        let mut i: usize = 0;
        while i < self.0.len()
            invariant
                i <= self.0@.len(),
                forall|k: int| 0 <= k < i ==> (#[trigger] self@[k]).fits(),
            decreases self.0@.len() - i,
        {
            if !self.0[i].fits() {
                assert(!self@[i as int].fits());
                return false;
            }
            i = i + 1;
        }
        true
    }

    fn chain(self) -> (bytes: VecStream) {
        let ghost values = self@;
        let mut out: Vec<u8> = Vec::new();
        for value in it: self.0.into_iter()
            invariant
                values == it.seq().map_values(|d: Data| d@),
                values_fit(values),
                out@ == encode_values(values.take(it.index())),
        {
            proof {
                assert(value@ == values[it.index()]);
                assert(values.take(it.index() + 1).drop_last() =~= values.take(it.index()));
            }
            let mut bytes = collect(value.into_iter());
            out.append(&mut bytes);
        }
        proof {
            assert(values.take(values.len() as int) =~= values);
        }
        VecStream::new(out)
    }
}

impl Tuple for Vec<Data> {
    type Chained = VecStream;

    open spec fn spec_type_tag(&self) -> Seq<Tag> {
        tags_for(self@.map_values(|d: Data| d@))
    }

    open spec fn spec_chain(&self) -> Seq<u8> {
        encode_values(self@.map_values(|d: Data| d@))
    }

    open spec fn spec_fits(&self) -> bool {
        values_fit(self@.map_values(|d: Data| d@))
    }

    fn type_tag(&self) -> (tags: Vec<Tag>) {
        let ghost values = self@.map_values(|d: Data| d@);
        let mut tags: Vec<Tag> = Vec::with_capacity(self.len());
        let mut i: usize = 0;
        while i < self.len()
            invariant
                i <= self@.len(),
                values == self@.map_values(|d: Data| d@),
                tags@ == tags_for(values.take(i as int)),
            decreases self@.len() - i,
        {
            tags.push(self[i].type_tag());
            proof {
                assert(values.take(i + 1) =~= values.take(i as int).push(self@[i as int]@));
                assert(tags@ =~= tags_for(values.take(i + 1)));
            }
            i = i + 1;
        }
        proof {
            assert(values.take(self@.len() as int) =~= values);
        }
        tags
    }

    fn fits(&self) -> (fits: bool) {
        let ghost values = self@.map_values(|d: Data| d@);
        let mut i: usize = 0;
        while i < self.len()
            invariant
                i <= self@.len(),
                values == self@.map_values(|d: Data| d@),
                forall|k: int| 0 <= k < i ==> (#[trigger] values[k]).fits(),
            decreases self@.len() - i,
        {
            if !self[i].fits() {
                assert(!values[i as int].fits());
                return false;
            }
            i = i + 1;
        }
        true
    }

    fn chain(self) -> (bytes: VecStream) {
        Dynamic(self).chain()
    }
}

impl<A: Atomic> Tuple for (A,) {
    type Chained = Batched<A::Iter>;

    open spec fn spec_type_tag(&self) -> Seq<Tag> {
        seq![A::spec_type_tag(self.0@)]
    }

    open spec fn spec_chain(&self) -> Seq<u8> {
        A::spec_encode(self.0@)
    }

    open spec fn spec_fits(&self) -> bool {
        &&& A::spec_fits(self.0@)
    }

    fn type_tag(&self) -> (tags: Vec<Tag>) {
        let mut tags: Vec<Tag> = Vec::new();
        tags.push(self.0.type_tag());
        assert(tags@ =~= self.spec_type_tag());
        tags
    }

    fn fits(&self) -> (fits: bool) {
        self.0.fits()
    }

    fn chain(self) -> (bytes: Self::Chained) {
        self.0.into_iter()
    }
}

impl<A: Atomic, B: Atomic> Tuple for (A, B) {
    type Chained = Chain<Batched<A::Iter>, Batched<B::Iter>>;

    open spec fn spec_type_tag(&self) -> Seq<Tag> {
        seq![A::spec_type_tag(self.0@), B::spec_type_tag(self.1@)]
    }

    open spec fn spec_chain(&self) -> Seq<u8> {
        A::spec_encode(self.0@) + B::spec_encode(self.1@)
    }

    open spec fn spec_fits(&self) -> bool {
        &&& A::spec_fits(self.0@)
        &&& B::spec_fits(self.1@)
    }

    fn type_tag(&self) -> (tags: Vec<Tag>) {
        let mut tags: Vec<Tag> = Vec::new();
        tags.push(self.0.type_tag());
        tags.push(self.1.type_tag());
        assert(tags@ =~= self.spec_type_tag());
        tags
    }

    fn fits(&self) -> (fits: bool) {
        self.0.fits() && self.1.fits()
    }

    fn chain(self) -> (bytes: Self::Chained) {
        Chain::new(self.0.into_iter(), self.1.into_iter())
    }
}

impl<A: Atomic, B: Atomic, C: Atomic> Tuple for (A, B, C) {
    type Chained = Chain<Chain<Batched<A::Iter>, Batched<B::Iter>>, Batched<C::Iter>>;

    open spec fn spec_type_tag(&self) -> Seq<Tag> {
        seq![A::spec_type_tag(self.0@), B::spec_type_tag(self.1@), C::spec_type_tag(self.2@)]
    }

    open spec fn spec_chain(&self) -> Seq<u8> {
        A::spec_encode(self.0@) + B::spec_encode(self.1@) + C::spec_encode(self.2@)
    }

    open spec fn spec_fits(&self) -> bool {
        &&& A::spec_fits(self.0@)
        &&& B::spec_fits(self.1@)
        &&& C::spec_fits(self.2@)
    }

    fn type_tag(&self) -> (tags: Vec<Tag>) {
        let mut tags: Vec<Tag> = Vec::new();
        tags.push(self.0.type_tag());
        tags.push(self.1.type_tag());
        tags.push(self.2.type_tag());
        assert(tags@ =~= self.spec_type_tag());
        tags
    }

    fn fits(&self) -> (fits: bool) {
        self.0.fits() && self.1.fits() && self.2.fits()
    }

    fn chain(self) -> (bytes: Self::Chained) {
        Chain::new(Chain::new(self.0.into_iter(), self.1.into_iter()), self.2.into_iter())
    }
}

impl<A: Atomic, B: Atomic, C: Atomic, D: Atomic> Tuple for (A, B, C, D) {
    type Chained = Chain<
        Chain<Chain<Batched<A::Iter>, Batched<B::Iter>>, Batched<C::Iter>>,
        Batched<D::Iter>,
    >;

    open spec fn spec_type_tag(&self) -> Seq<Tag> {
        seq![
            A::spec_type_tag(self.0@),
            B::spec_type_tag(self.1@),
            C::spec_type_tag(self.2@),
            D::spec_type_tag(self.3@),
        ]
    }

    open spec fn spec_chain(&self) -> Seq<u8> {
        A::spec_encode(self.0@)
            + B::spec_encode(self.1@)
            + C::spec_encode(self.2@)
            + D::spec_encode(self.3@)
    }

    open spec fn spec_fits(&self) -> bool {
        &&& A::spec_fits(self.0@)
        &&& B::spec_fits(self.1@)
        &&& C::spec_fits(self.2@)
        &&& D::spec_fits(self.3@)
    }

    fn type_tag(&self) -> (tags: Vec<Tag>) {
        let mut tags: Vec<Tag> = Vec::new();
        tags.push(self.0.type_tag());
        tags.push(self.1.type_tag());
        tags.push(self.2.type_tag());
        tags.push(self.3.type_tag());
        assert(tags@ =~= self.spec_type_tag());
        tags
    }

    fn fits(&self) -> (fits: bool) {
        self.0.fits() && self.1.fits() && self.2.fits() && self.3.fits()
    }

    fn chain(self) -> (bytes: Self::Chained) {
        Chain::new(
            Chain::new(Chain::new(self.0.into_iter(), self.1.into_iter()), self.2.into_iter()),
            self.3.into_iter(),
        )
    }
}

impl<A: Atomic, B: Atomic, C: Atomic, D: Atomic, E: Atomic> Tuple for (A, B, C, D, E) {
    type Chained = Chain<
        Chain<
            Chain<Chain<Batched<A::Iter>, Batched<B::Iter>>, Batched<C::Iter>>,
            Batched<D::Iter>,
        >,
        Batched<E::Iter>,
    >;

    open spec fn spec_type_tag(&self) -> Seq<Tag> {
        seq![
            A::spec_type_tag(self.0@),
            B::spec_type_tag(self.1@),
            C::spec_type_tag(self.2@),
            D::spec_type_tag(self.3@),
            E::spec_type_tag(self.4@),
        ]
    }

    open spec fn spec_chain(&self) -> Seq<u8> {
        A::spec_encode(self.0@)
            + B::spec_encode(self.1@)
            + C::spec_encode(self.2@)
            + D::spec_encode(self.3@)
            + E::spec_encode(self.4@)
    }

    open spec fn spec_fits(&self) -> bool {
        &&& A::spec_fits(self.0@)
        &&& B::spec_fits(self.1@)
        &&& C::spec_fits(self.2@)
        &&& D::spec_fits(self.3@)
        &&& E::spec_fits(self.4@)
    }

    fn type_tag(&self) -> (tags: Vec<Tag>) {
        let mut tags: Vec<Tag> = Vec::new();
        tags.push(self.0.type_tag());
        tags.push(self.1.type_tag());
        tags.push(self.2.type_tag());
        tags.push(self.3.type_tag());
        tags.push(self.4.type_tag());
        assert(tags@ =~= self.spec_type_tag());
        tags
    }

    fn fits(&self) -> (fits: bool) {
        self.0.fits() && self.1.fits() && self.2.fits() && self.3.fits() && self.4.fits()
    }

    fn chain(self) -> (bytes: Self::Chained) {
        Chain::new(
            Chain::new(
                Chain::new(
                    Chain::new(self.0.into_iter(), self.1.into_iter()),
                    self.2.into_iter(),
                ),
                self.3.into_iter(),
            ),
            self.4.into_iter(),
        )
    }
}

impl<
    A: Atomic,
    B: Atomic,
    C: Atomic,
    D: Atomic,
    E: Atomic,
    F: Atomic,
> Tuple for (A, B, C, D, E, F) {
    type Chained = Chain<
        Chain<
            Chain<
                Chain<Chain<Batched<A::Iter>, Batched<B::Iter>>, Batched<C::Iter>>,
                Batched<D::Iter>,
            >,
            Batched<E::Iter>,
        >,
        Batched<F::Iter>,
    >;

    open spec fn spec_type_tag(&self) -> Seq<Tag> {
        seq![
            A::spec_type_tag(self.0@),
            B::spec_type_tag(self.1@),
            C::spec_type_tag(self.2@),
            D::spec_type_tag(self.3@),
            E::spec_type_tag(self.4@),
            F::spec_type_tag(self.5@),
        ]
    }

    open spec fn spec_chain(&self) -> Seq<u8> {
        A::spec_encode(self.0@)
            + B::spec_encode(self.1@)
            + C::spec_encode(self.2@)
            + D::spec_encode(self.3@)
            + E::spec_encode(self.4@)
            + F::spec_encode(self.5@)
    }

    open spec fn spec_fits(&self) -> bool {
        &&& A::spec_fits(self.0@)
        &&& B::spec_fits(self.1@)
        &&& C::spec_fits(self.2@)
        &&& D::spec_fits(self.3@)
        &&& E::spec_fits(self.4@)
        &&& F::spec_fits(self.5@)
    }

    fn type_tag(&self) -> (tags: Vec<Tag>) {
        let mut tags: Vec<Tag> = Vec::new();
        tags.push(self.0.type_tag());
        tags.push(self.1.type_tag());
        tags.push(self.2.type_tag());
        tags.push(self.3.type_tag());
        tags.push(self.4.type_tag());
        tags.push(self.5.type_tag());
        assert(tags@ =~= self.spec_type_tag());
        tags
    }

    fn fits(&self) -> (fits: bool) {
        self.0.fits()
            && self.1.fits()
            && self.2.fits()
            && self.3.fits()
            && self.4.fits()
            && self.5.fits()
    }

    fn chain(self) -> (bytes: Self::Chained) {
        Chain::new(
            Chain::new(
                Chain::new(
                    Chain::new(
                        Chain::new(self.0.into_iter(), self.1.into_iter()),
                        self.2.into_iter(),
                    ),
                    self.3.into_iter(),
                ),
                self.4.into_iter(),
            ),
            self.5.into_iter(),
        )
    }
}

impl<
    A: Atomic,
    B: Atomic,
    C: Atomic,
    D: Atomic,
    E: Atomic,
    F: Atomic,
    G: Atomic,
> Tuple for (A, B, C, D, E, F, G) {
    type Chained = Chain<
        Chain<
            Chain<
                Chain<
                    Chain<Chain<Batched<A::Iter>, Batched<B::Iter>>, Batched<C::Iter>>,
                    Batched<D::Iter>,
                >,
                Batched<E::Iter>,
            >,
            Batched<F::Iter>,
        >,
        Batched<G::Iter>,
    >;

    open spec fn spec_type_tag(&self) -> Seq<Tag> {
        seq![
            A::spec_type_tag(self.0@),
            B::spec_type_tag(self.1@),
            C::spec_type_tag(self.2@),
            D::spec_type_tag(self.3@),
            E::spec_type_tag(self.4@),
            F::spec_type_tag(self.5@),
            G::spec_type_tag(self.6@),
        ]
    }

    open spec fn spec_chain(&self) -> Seq<u8> {
        A::spec_encode(self.0@)
            + B::spec_encode(self.1@)
            + C::spec_encode(self.2@)
            + D::spec_encode(self.3@)
            + E::spec_encode(self.4@)
            + F::spec_encode(self.5@)
            + G::spec_encode(self.6@)
    }

    open spec fn spec_fits(&self) -> bool {
        &&& A::spec_fits(self.0@)
        &&& B::spec_fits(self.1@)
        &&& C::spec_fits(self.2@)
        &&& D::spec_fits(self.3@)
        &&& E::spec_fits(self.4@)
        &&& F::spec_fits(self.5@)
        &&& G::spec_fits(self.6@)
    }

    fn type_tag(&self) -> (tags: Vec<Tag>) {
        let mut tags: Vec<Tag> = Vec::new();
        tags.push(self.0.type_tag());
        tags.push(self.1.type_tag());
        tags.push(self.2.type_tag());
        tags.push(self.3.type_tag());
        tags.push(self.4.type_tag());
        tags.push(self.5.type_tag());
        tags.push(self.6.type_tag());
        assert(tags@ =~= self.spec_type_tag());
        tags
    }

    fn fits(&self) -> (fits: bool) {
        self.0.fits()
            && self.1.fits()
            && self.2.fits()
            && self.3.fits()
            && self.4.fits()
            && self.5.fits()
            && self.6.fits()
    }

    fn chain(self) -> (bytes: Self::Chained) {
        Chain::new(
            Chain::new(
                Chain::new(
                    Chain::new(
                        Chain::new(
                            Chain::new(self.0.into_iter(), self.1.into_iter()),
                            self.2.into_iter(),
                        ),
                        self.3.into_iter(),
                    ),
                    self.4.into_iter(),
                ),
                self.5.into_iter(),
            ),
            self.6.into_iter(),
        )
    }
}

impl<
    A: Atomic,
    B: Atomic,
    C: Atomic,
    D: Atomic,
    E: Atomic,
    F: Atomic,
    G: Atomic,
    H: Atomic,
> Tuple for (A, B, C, D, E, F, G, H) {
    type Chained = Chain<
        Chain<
            Chain<
                Chain<
                    Chain<
                        Chain<Chain<Batched<A::Iter>, Batched<B::Iter>>, Batched<C::Iter>>,
                        Batched<D::Iter>,
                    >,
                    Batched<E::Iter>,
                >,
                Batched<F::Iter>,
            >,
            Batched<G::Iter>,
        >,
        Batched<H::Iter>,
    >;

    open spec fn spec_type_tag(&self) -> Seq<Tag> {
        seq![
            A::spec_type_tag(self.0@),
            B::spec_type_tag(self.1@),
            C::spec_type_tag(self.2@),
            D::spec_type_tag(self.3@),
            E::spec_type_tag(self.4@),
            F::spec_type_tag(self.5@),
            G::spec_type_tag(self.6@),
            H::spec_type_tag(self.7@),
        ]
    }

    open spec fn spec_chain(&self) -> Seq<u8> {
        A::spec_encode(self.0@)
            + B::spec_encode(self.1@)
            + C::spec_encode(self.2@)
            + D::spec_encode(self.3@)
            + E::spec_encode(self.4@)
            + F::spec_encode(self.5@)
            + G::spec_encode(self.6@)
            + H::spec_encode(self.7@)
    }

    open spec fn spec_fits(&self) -> bool {
        &&& A::spec_fits(self.0@)
        &&& B::spec_fits(self.1@)
        &&& C::spec_fits(self.2@)
        &&& D::spec_fits(self.3@)
        &&& E::spec_fits(self.4@)
        &&& F::spec_fits(self.5@)
        &&& G::spec_fits(self.6@)
        &&& H::spec_fits(self.7@)
    }

    fn type_tag(&self) -> (tags: Vec<Tag>) {
        let mut tags: Vec<Tag> = Vec::new();
        tags.push(self.0.type_tag());
        tags.push(self.1.type_tag());
        tags.push(self.2.type_tag());
        tags.push(self.3.type_tag());
        tags.push(self.4.type_tag());
        tags.push(self.5.type_tag());
        tags.push(self.6.type_tag());
        tags.push(self.7.type_tag());
        assert(tags@ =~= self.spec_type_tag());
        tags
    }

    fn fits(&self) -> (fits: bool) {
        self.0.fits()
            && self.1.fits()
            && self.2.fits()
            && self.3.fits()
            && self.4.fits()
            && self.5.fits()
            && self.6.fits()
            && self.7.fits()
    }

    fn chain(self) -> (bytes: Self::Chained) {
        Chain::new(
            Chain::new(
                Chain::new(
                    Chain::new(
                        Chain::new(
                            Chain::new(
                                Chain::new(self.0.into_iter(), self.1.into_iter()),
                                self.2.into_iter(),
                            ),
                            self.3.into_iter(),
                        ),
                        self.4.into_iter(),
                    ),
                    self.5.into_iter(),
                ),
                self.6.into_iter(),
            ),
            self.7.into_iter(),
        )
    }
}

} // verus!
