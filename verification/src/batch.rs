//! Align a byte source to 4-byte batches by padding with zeros at the end.
//!
//! Every field of the wire format ends on a multiple of four bytes. The
//! padding is done lazily, one batch of four bytes at a time, and never holds
//! more than the last three bytes of the batch that is being handed out.

use crate::stream::ByteStream;
use vstd::prelude::*;

verus! {

/// `n` is a multiple of four.
pub open spec fn aligned(n: int) -> bool {
    n % 4 == 0
}

/// How many zero bytes follow a field of `len` bytes.
pub open spec fn padding(len: nat) -> nat {
    ((4 - len % 4) % 4) as nat
}

/// `s`, followed by zero bytes up to the next multiple of four.
pub open spec fn padded(s: Seq<u8>) -> Seq<u8> {
    s + Seq::new(padding(s.len()), |i: int| 0u8)
}

/// The first three bytes of `s`, with zeros where `s` is too short.
pub open spec fn first_three(s: Seq<u8>) -> Seq<u8> {
    Seq::new(
        3,
        |i: int|
            if i < s.len() {
                s[i]
            } else {
                0u8
            },
    )
}

/// The padded length is the smallest multiple of four that is not less than
/// the length of the input; the input comes out unchanged, in order, and
/// every byte after it is zero.
pub proof fn lemma_padded(s: Seq<u8>)
    ensures
        aligned(padded(s).len() as int),
        s.len() <= padded(s).len(),
        forall|m: int| #[trigger] aligned(m) && s.len() <= m ==> padded(s).len() <= m,
        s.len() % 4 == 0 ==> padded(s) == s,
        padded(s).take(s.len() as int) == s,
        forall|i: int| s.len() <= i < padded(s).len() ==> padded(s)[i] == 0,
{
    assert(padded(s).take(s.len() as int) =~= s);
    if s.len() % 4 == 0 {
        assert(padded(s) =~= s);
    }
}

/// Padding a source that has a first byte: that byte, then the three after
/// it (zeros where the source ends sooner), then the rest of the source
/// padded.
pub proof fn lemma_padded_batch(s: Seq<u8>)
    requires
        s.len() > 0,
    ensures
        padded(s) == seq![s[0]] + first_three(s.skip(1)) + padded(
            s.skip(
                if s.len() < 4 {
                    s.len() as int
                } else {
                    4
                },
            ),
        ),
{
    let n = if s.len() < 4 {
        s.len() as int
    } else {
        4
    };
    assert(padded(s) =~= seq![s[0]] + first_three(s.skip(1)) + padded(s.skip(n)));
}

/// Three-byte buffer.
#[derive(Clone, Copy, Debug)]
struct Cache {
    /// Three-byte buffer.
    buffer: [u8; 3],
    /// Index from 0 to 3.
    index: u8,
}

impl Cache {
    #[verifier::type_invariant]
    spec fn in_bounds(self) -> bool {
        self.index <= 3
    }

    /// The bytes that are buffered and not yet handed out.
    spec fn pending(&self) -> Seq<u8> {
        self.buffer@.skip(self.index as int)
    }

    /// A cache that holds nothing.
    fn default() -> (cache: Self)
        ensures
            cache.pending() == Seq::<u8>::empty(),
    {
        let cache = Cache { buffer: [0, 0, 0], index: 3 };
        assert(cache.pending() =~= Seq::<u8>::empty());
        cache
    }

    /// Initialize a cache by pulling the three bytes that follow the first
    /// byte of a batch; where the source ends sooner, zeros take their place.
    fn new<I: ByteStream>(iter: &mut I) -> (cache: Self)
        ensures
            cache.pending() == first_three(old(iter).remaining()),
            final(iter).remaining() == old(iter).remaining().skip(
                if old(iter).remaining().len() < 3 {
                    old(iter).remaining().len() as int
                } else {
                    3
                },
            ),
    {
        let ghost s = iter.remaining();
        let a = match iter.next() {
            Some(b) => b,
            None => 0,
        };
        let b = match iter.next() {
            Some(b) => b,
            None => 0,
        };
        let c = match iter.next() {
            Some(b) => b,
            None => 0,
        };
        let cache = Cache { buffer: [a, b, c], index: 0 };
        proof {
            let n = if s.len() < 3 {
                s.len() as int
            } else {
                3
            };
            assert(cache.pending() =~= first_three(s));
            assert(iter.remaining() =~= s.skip(n));
        }
        cache
    }

    /// Hands out the next buffered byte, if one is left.
    fn next(&mut self) -> (byte: Option<u8>)
        ensures
            byte == crate::stream::head(old(self).pending()),
            final(self).pending() == crate::stream::tail(old(self).pending()),
    {
        proof {
            use_type_invariant(&*self);
        }
        if self.index < 3 {
            let i = self.index as usize;
            let b = self.buffer[i];
            self.index = self.index + 1;
            assert(self.pending() =~= old(self).pending().drop_first());
            Some(b)
        } else {
            None
        }
    }
}

/// Align a byte source to 4-byte batches by padding with zeros at the end.
#[derive(Clone, Copy, Debug)]
pub struct Batched<I: ByteStream> {
    /// Source of individual bytes.
    iter: I,
    /// 4-byte cache.
    cache: Cache,
}

impl<I: ByteStream> Batched<I> {
    /// The source that is being padded, as far as it has not been read.
    pub closed spec fn source(&self) -> I {
        self.iter
    }

    /// The bytes of the current batch that were read from the source and
    /// not yet handed out.
    pub closed spec fn buffered(&self) -> Seq<u8> {
        self.cache.pending()
    }

    /// Batch a source into four-byte chunks, padding the end with zeros.
    /// Note that this is a lazy operation.
    pub fn new(iter: I) -> (batched: Self)
        ensures
            batched.source() == iter,
            batched.buffered() == Seq::<u8>::empty(),
            batched.remaining() == padded(iter.remaining()),
    {
        let batched = Batched { iter, cache: Cache::default() };
        assert(batched.remaining() =~= padded(iter.remaining()));
        batched
    }

    /// Un-batch into the source that was batched, as far as it has not been read.
    pub fn unbatch(self) -> (iter: I)
        ensures
            iter == self.source(),
    {
        self.iter
    }

    /// What is left to hand out: the buffered bytes of the current batch,
    /// then the unread part of the source, padded.
    pub proof fn lemma_remaining(&self)
        ensures
            self.remaining() == self.buffered() + padded(self.source().remaining()),
    {
    }
}

impl<I: ByteStream> ByteStream for Batched<I> {
    closed spec fn remaining(&self) -> Seq<u8> {
        self.cache.pending() + padded(self.iter.remaining())
    }

    fn next(&mut self) -> (byte: Option<u8>) {
        let ghost pending = self.cache.pending();
        let ghost inner = self.iter.remaining();
        match self.cache.next() {
            Some(b) => {
                assert(self.remaining() =~= (pending + padded(inner)).drop_first());
                Some(b)
            },
            None => {
                assert(pending =~= Seq::<u8>::empty());
                let tmp = self.iter.next();
                if tmp.is_some() {
                    self.cache = Cache::new(&mut self.iter);
                    proof {
                        lemma_padded_batch(inner);
                        assert(inner.skip(1).skip(
                            if inner.skip(1).len() < 3 {
                                inner.skip(1).len() as int
                            } else {
                                3
                            },
                        ) =~= inner.skip(
                            if inner.len() < 4 {
                                inner.len() as int
                            } else {
                                4
                            },
                        ));
                        assert(self.remaining() =~= (pending + padded(inner)).drop_first());
                    }
                } else {
                    assert(padded(inner) =~= Seq::<u8>::empty());
                    assert(self.remaining() =~= pending + padded(inner));
                }
                tmp
            },
        }
    }
}

/// Lazily batch a source into four-byte chunks, padding the end with zeros.
pub trait Batch: ByteStream + Sized {
    /// Lazily batch this source into four-byte chunks, padding the end with
    /// zeros.
    fn batch(self) -> (batched: Batched<Self>)
        ensures
            batched.source() == self,
            batched.remaining() == padded(self.remaining()),
    ;
}

impl<I: ByteStream> Batch for I {
    fn batch(self) -> (batched: Batched<Self>) {
        Batched::new(self)
    }
}

} // verus!
