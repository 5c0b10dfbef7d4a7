//! Single-pass byte sources.
//!
//! Everything that is written to the wire is produced one byte at a time, and
//! everything that is read from it is consumed one byte at a time. A source
//! is described by the sequence of bytes it has yet to hand out.

use vstd::prelude::*;

verus! {

/// A single-pass source of bytes.
pub trait ByteStream {
    /// The bytes that this source has yet to produce, in order.
    spec fn remaining(&self) -> Seq<u8>;

    /// Pulls the next byte, or reports that the source is exhausted.
    fn next(&mut self) -> (byte: Option<u8>)
        ensures
            byte == head(old(self).remaining()),
            final(self).remaining() == tail(old(self).remaining()),
    ;
}

/// The first byte of `s`, if there is one.
pub open spec fn head(s: Seq<u8>) -> Option<u8> {
    if s.len() > 0 {
        Some(s[0])
    } else {
        None
    }
}

/// What is left of `s` once its first byte is gone.
pub open spec fn tail(s: Seq<u8>) -> Seq<u8> {
    if s.len() > 0 {
        s.drop_first()
    } else {
        s
    }
}

/// A source that reads a borrowed slice from front to back.
#[derive(Clone, Copy, Debug)]
pub struct SliceStream<'a> {
    data: &'a [u8],
    pos: usize,
}

impl<'a> SliceStream<'a> {
    #[verifier::type_invariant]
    spec fn in_bounds(self) -> bool {
        self.pos <= self.data@.len()
    }

    /// A source that will produce exactly the bytes of `data`.
    pub fn new(data: &'a [u8]) -> (s: Self)
        ensures
            s.remaining() == data@,
    {
        SliceStream { data, pos: 0 }
    }
}

impl<'a> ByteStream for SliceStream<'a> {
    closed spec fn remaining(&self) -> Seq<u8> {
        self.data@.skip(self.pos as int)
    }

    fn next(&mut self) -> (byte: Option<u8>) {
        proof {
            use_type_invariant(&*self);
        }
        if self.pos < self.data.len() {
            let b = self.data[self.pos];
            self.pos = self.pos + 1;
            Some(b)
        } else {
            None
        }
    }
}

/// A source that owns its bytes and reads them from front to back.
#[derive(Debug)]
pub struct VecStream {
    data: Vec<u8>,
    pos: usize,
}

impl VecStream {
    #[verifier::type_invariant]
    spec fn in_bounds(self) -> bool {
        self.pos <= self.data@.len()
    }

    /// A source that will produce exactly the bytes of `data`.
    pub fn new(data: Vec<u8>) -> (s: Self)
        ensures
            s.remaining() == data@,
    {
        VecStream { data, pos: 0 }
    }
}

impl Clone for VecStream {
    fn clone(&self) -> (copy: Self)
        ensures
            copy.remaining() == self.remaining(),
    {
        proof {
            use_type_invariant(self);
        }
        let data = self.data.clone();
        assert(data@ =~= self.data@);
        VecStream { data, pos: self.pos }
    }
}

impl ByteStream for VecStream {
    closed spec fn remaining(&self) -> Seq<u8> {
        self.data@.skip(self.pos as int)
    }

    fn next(&mut self) -> (byte: Option<u8>) {
        proof {
            use_type_invariant(&*self);
        }
        if self.pos < self.data.len() {
            let b = self.data[self.pos];
            self.pos = self.pos + 1;
            Some(b)
        } else {
            None
        }
    }
}

/// A source that owns a fixed number of bytes and reads them from front to
/// back.
#[derive(Clone, Copy, Debug)]
pub struct ArrayStream<const N: usize> {
    data: [u8; N],
    pos: usize,
}

impl<const N: usize> ArrayStream<N> {
    #[verifier::type_invariant]
    spec fn in_bounds(self) -> bool {
        self.pos <= N
    }

    /// A source that will produce exactly the bytes of `data`.
    pub fn new(data: [u8; N]) -> (s: Self)
        ensures
            s.remaining() == data@,
    {
        ArrayStream { data, pos: 0 }
    }
}

impl<const N: usize> ByteStream for ArrayStream<N> {
    closed spec fn remaining(&self) -> Seq<u8> {
        self.data@.skip(self.pos as int)
    }

    fn next(&mut self) -> (byte: Option<u8>) {
        proof {
            use_type_invariant(&*self);
        }
        if self.pos < N {
            let b = self.data[self.pos];
            self.pos = self.pos + 1;
            Some(b)
        } else {
            None
        }
    }
}

/// A source that produces nothing.
#[derive(Clone, Copy, Debug)]
pub struct Empty;

impl ByteStream for Empty {
    open spec fn remaining(&self) -> Seq<u8> {
        Seq::empty()
    }

    fn next(&mut self) -> (byte: Option<u8>) {
        None
    }
}

/// A source that produces one byte.
#[derive(Clone, Copy, Debug)]
pub struct Once {
    byte: Option<u8>,
}

impl Once {
    /// A source that will produce `byte` and nothing else.
    pub fn new(byte: u8) -> (s: Self)
        ensures
            s.remaining() == seq![byte],
    {
        Once { byte: Some(byte) }
    }
}

impl ByteStream for Once {
    closed spec fn remaining(&self) -> Seq<u8> {
        match self.byte {
            Some(b) => seq![b],
            None => Seq::empty(),
        }
    }

    fn next(&mut self) -> (byte: Option<u8>) {
        let b = self.byte;
        self.byte = None;
        b
    }
}

/// Two sources run one after the other.
#[derive(Clone, Debug)]
pub struct Chain<A: ByteStream, B: ByteStream> {
    first: A,
    second: B,
}

impl<A: ByteStream, B: ByteStream> Chain<A, B> {
    /// A source that produces all of `first` and then all of `second`.
    pub fn new(first: A, second: B) -> (s: Self)
        ensures
            s.remaining() == first.remaining() + second.remaining(),
    {
        Chain { first, second }
    }
}

impl<A: ByteStream, B: ByteStream> ByteStream for Chain<A, B> {
    closed spec fn remaining(&self) -> Seq<u8> {
        self.first.remaining() + self.second.remaining()
    }

    fn next(&mut self) -> (byte: Option<u8>) {
        let ghost a = self.first.remaining();
        let ghost b = self.second.remaining();
        match self.first.next() {
            Some(x) => {
                assert((a + b).drop_first() =~= a.drop_first() + b);
                Some(x)
            },
            None => {
                assert(a + b =~= b);
                self.second.next()
            },
        }
    }
}

/// Runs `source` dry and returns everything it produced.
pub fn collect<S: ByteStream>(source: S) -> (bytes: Vec<u8>)
    ensures
        bytes@ == source.remaining(),
{
    let mut source = source;
    let ghost all = source.remaining();
    let mut bytes: Vec<u8> = Vec::new();
    loop
        invariant
            bytes@ + source.remaining() == all,
        ensures
            bytes@ == all,
        decreases source.remaining().len(),
    {
        let ghost before = source.remaining();
        match source.next() {
            Some(b) => {
                bytes.push(b);
                assert(bytes@ + source.remaining() =~= all) by {
                    assert(before =~= seq![b] + before.drop_first());
                }
            },
            None => {
                assert(bytes@ + source.remaining() =~= bytes@);
                break ;
            },
        }
    }
    bytes
}

} // verus!
