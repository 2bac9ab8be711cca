use crate::error::EndOfInput;
use vstd::prelude::*;

verus! {

/// A source of words read in order.
pub trait WordSource {
    /// The source's internal state is consistent.
    spec fn wf(&self) -> bool;

    /// What reading leaves unchanged.
    type Frame;

    /// What reading leaves unchanged: the words the source was made over.
    spec fn frame(&self) -> Self::Frame;

    /// The words not yet read, oldest first.
    spec fn remaining(&self) -> Seq<u8>;

    /// Reads the next word, or `None` once the source is exhausted.
    fn next_word(&mut self) -> (r: Option<u8>)
        requires
            old(self).wf(),
        ensures
            final(self).wf(),
            final(self).frame() == old(self).frame(),
            old(self).remaining().len() == 0 ==> r is None && final(self).remaining()
                == old(self).remaining(),
            old(self).remaining().len() > 0 ==> r == Some(old(self).remaining()[0])
                && final(self).remaining() == old(self).remaining().drop_first(),
    ;
}

/// A destination of words written in order.
pub trait WordSink {
    /// The sink's internal state is consistent.
    spec fn wf(&self) -> bool;

    /// What writing leaves unchanged.
    type Frame;

    /// What writing leaves unchanged: for a buffer, its contents before the
    /// first write.
    spec fn frame(&self) -> Self::Frame;

    /// The words written so far, in order.
    spec fn written(&self) -> Seq<u8>;

    /// How many more words fit.
    spec fn room(&self) -> nat;

    /// Writes one word, or fails with `EndOfInput` when no room is left.
    fn put(&mut self, w: u8) -> (r: Result<(), EndOfInput>)
        requires
            old(self).wf(),
        ensures
            final(self).wf(),
            final(self).frame() == old(self).frame(),
            r is Ok <==> old(self).room() > 0,
            r is Ok ==> final(self).written() == old(self).written().push(w) && final(self).room()
                == old(self).room() - 1,
            r is Err ==> final(self).written() == old(self).written() && final(self).room()
                == old(self).room(),
    ;
}

/// A sink that fills a fixed array from its first slot on.
pub struct ArraySink<const N: usize> {
    buf: [u8; N],
    pos: usize,
    initial: Ghost<Seq<u8>>,
}

impl<const N: usize> ArraySink<N> {
    /// A sink over `buf`, with all `N` slots free.
    pub fn new(buf: [u8; N]) -> (r: Self)
        ensures
            r.wf(),
            r.frame() == buf@,
            r.written() == Seq::<u8>::empty(),
            r.room() == N,
    {
        let r = ArraySink { buf, pos: 0, initial: Ghost(buf@) };
        assert(r.buf@.skip(0) =~= r.initial@.skip(0));
        r
    }

    /// How many more words fit.
    pub fn room_left(&self) -> (r: usize)
        requires
            self.wf(),
        ensures
            r == self.room(),
    {
        N - self.pos
    }

    /// The array, whose first slots hold the words written.
    pub fn into_inner(self) -> (r: [u8; N])
        requires
            self.wf(),
        ensures
            r@ == self.written() + self.frame().skip(self.written().len() as int),
    {
        assert(self.buf@ =~= self.buf@.take(self.pos as int) + self.buf@.skip(self.pos as int));
        self.buf
    }
}

impl<const N: usize> WordSink for ArraySink<N> {
    type Frame = Seq<u8>;

    /// Every written word lies inside the array, and the slots past them
    /// hold what they held at the start.
    closed spec fn wf(&self) -> bool {
        &&& self.pos <= N
        &&& self.initial@.len() == N
        &&& self.buf@.skip(self.pos as int) == self.initial@.skip(self.pos as int)
    }

    closed spec fn frame(&self) -> Seq<u8> {
        self.initial@
    }

    closed spec fn written(&self) -> Seq<u8> {
        self.buf@.take(self.pos as int)
    }

    closed spec fn room(&self) -> nat {
        (N - self.pos) as nat
    }

    fn put(&mut self, w: u8) -> (r: Result<(), EndOfInput>) {
        if self.pos < N {
            self.buf[self.pos] = w;
            self.pos = self.pos + 1;
            assert(self.buf@.take(self.pos as int)
                =~= old(self).buf@.take(old(self).pos as int).push(w));
            assert(self.buf@.skip(self.pos as int) =~= old(self).buf@.skip(self.pos as int));
            let ghost p = old(self).pos as int;
            assert(old(self).buf@.skip(p).skip(1) =~= old(self).buf@.skip(p + 1));
            assert(self.initial@.skip(p).skip(1) =~= self.initial@.skip(p + 1));
            assert(self.buf@.skip(self.pos as int) =~= self.initial@.skip(self.pos as int));
            Ok(())
        } else {
            Err(EndOfInput)
        }
    }
}

/// A fixed-length container of words that a value can be read from.
pub trait Medium {
    /// The number of words held.
    const SIZE: usize;

    /// The words held, in order.
    spec fn words(&self) -> Seq<u8>;

    /// A source over the words held, first to last.
    fn get_iter(&self) -> (r: SliceSource<'_>)
        ensures
            r.wf(),
            r.remaining() == self.words(),
            self.words().len() == Self::SIZE,
    ;
}

impl<const N: usize> Medium for [u8; N] {
    const SIZE: usize = N;

    open spec fn words(&self) -> Seq<u8> {
        self@
    }

    fn get_iter(&self) -> (r: SliceSource<'_>) {
        let words = self.as_slice();
        assert(words@ == self@);
        assert(Self::SIZE == N);
        assert(self.words() == self@);
        SliceSource::new(words)
    }
}

/// A source that reads a slice from its first word on.
pub struct SliceSource<'a> {
    buf: &'a [u8],
    pos: usize,
}

impl<'a> SliceSource<'a> {
    /// A source over all of `buf`.
    pub fn new(buf: &'a [u8]) -> (r: Self)
        ensures
            r.wf(),
            r.frame() == buf@,
            r.remaining() == buf@,
    {
        let r = SliceSource { buf, pos: 0 };
        assert(r.remaining() =~= buf@);
        r
    }
}

impl<'a> WordSource for SliceSource<'a> {
    type Frame = Seq<u8>;

    closed spec fn frame(&self) -> Seq<u8> {
        self.buf@
    }

    /// The read position lies inside the slice.
    closed spec fn wf(&self) -> bool {
        self.pos <= self.buf@.len()
    }

    closed spec fn remaining(&self) -> Seq<u8> {
        self.buf@.skip(self.pos as int)
    }

    fn next_word(&mut self) -> (r: Option<u8>) {
        if self.pos < self.buf.len() {
            let w = self.buf[self.pos];
            self.pos = self.pos + 1;
            assert(self.remaining() =~= old(self).remaining().drop_first());
            Some(w)
        } else {
            None
        }
    }
}

} // verus!
