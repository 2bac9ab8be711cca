use crate::medium::WordSource;
use vstd::prelude::*;

verus! {

/// Ingesting would exceed the buffer's capacity.
#[derive(Debug, Clone, Copy, PartialEq, Eq, Structural)]
pub struct Overflow;

/// Position of the `i`-th logical element of a ring of `n` slots whose
/// oldest element sits at `start`.
pub open spec fn slot(start: nat, i: nat, n: nat) -> nat {
    if start + i < n {
        start + i
    } else {
        (start + i - n) as nat
    }
}

/// A fixed-capacity circular byte store, fed at its tail and evicted at its
/// head.
pub struct CommandBuffer<const N: usize> {
    buf: [u8; N],
    start_cursor: usize,
    size: usize,
}

impl<const N: usize> View for CommandBuffer<N> {
    type V = Seq<u8>;

    /// The bytes held, oldest first.
    closed spec fn view(&self) -> Seq<u8> {
        Seq::new(
            self.size as nat,
            |i: int| self.buf@[slot(self.start_cursor as nat, i as nat, N as nat) as int],
        )
    }
}

impl<const N: usize> Default for CommandBuffer<N> {
    fn default() -> (r: Self)
        ensures
            r.wf(),
            r@ == Seq::<u8>::empty(),
    {
        Self::new()
    }
}

impl<const N: usize> CommandBuffer<N> {
    /// The cursors stay inside the ring and the content fits the capacity.
    pub closed spec fn wf(&self) -> bool {
        &&& self.size <= N
        &&& (self.start_cursor < N || (N == 0 && self.start_cursor == 0))
    }

    /// An empty buffer.
    pub fn new() -> (r: Self)
        ensures
            r.wf(),
            r@ == Seq::<u8>::empty(),
    {
        let r = CommandBuffer { buf: [0u8; N], start_cursor: 0, size: 0 };
        assert(r@ =~= Seq::<u8>::empty());
        r
    }

    /// Appends the bytes of `src` in order. Fails with `Overflow` at the first
    /// byte that does not fit; the bytes before it stay appended.
    pub fn ingest(&mut self, src: &[u8]) -> (r: Result<(), Overflow>)
        requires
            old(self).wf(),
        ensures
            final(self).wf(),
            r is Ok <==> old(self)@.len() + src@.len() <= N,
            r is Ok ==> final(self)@ == old(self)@ + src@,
            r is Err ==> final(self)@ == old(self)@ + src@.take(N - old(self)@.len())
                && final(self)@.len() == N,
    {
        let mut i: usize = 0;
        while i < src.len()
            invariant
                self.wf(),
                i <= src@.len(),
                self@.len() == old(self)@.len() + i,
                self@ == old(self)@ + src@.take(i as int),
            decreases src@.len() - i,
        {
            if self.size >= N {
                assert(src@.take(i as int) == src@.take(N - old(self)@.len()));
                return Err(Overflow);
            }
            let write_cursor = self.end_cursor();
            let ghost before = self@;
            self.buf[write_cursor] = src[i];
            self.size = self.size + 1;
            assert(self@ =~= before.push(src@[i as int]));
            assert(src@.take(i + 1) =~= src@.take(i as int).push(src@[i as int]));
            i = i + 1;
        }
        assert(src@.take(i as int) =~= src@);
        Ok(())
    }

    /// Drops the `count` oldest bytes.
    fn evict(&mut self, count: usize)
        requires
            old(self).wf(),
            count <= old(self)@.len(),
        ensures
            final(self).wf(),
            final(self)@ == old(self)@.skip(count as int),
    {
        if count > 0 {
            self.start_cursor = Self::wrap(self.start_cursor, count);
            self.size = self.size - count;
            assert(self@ =~= old(self)@.skip(count as int));
        }
    }

    /// The slot `offset` places past `cursor`, going round the ring at most
    /// once.
    fn wrap(cursor: usize, offset: usize) -> (r: usize)
        requires
            cursor < N,
            offset <= N,
        ensures
            r == slot(cursor as nat, offset as nat, N as nat),
            offset < N ==> r < N,
    {
        if offset < N - cursor {
            cursor + offset
        } else {
            offset - (N - cursor)
        }
    }

    /// The slot just past the newest byte.
    fn end_cursor(&self) -> (r: usize)
        requires
            self.wf(),
            self.size < N,
        ensures
            r == slot(self.start_cursor as nat, self.size as nat, N as nat),
    {
        Self::wrap(self.start_cursor, self.size)
    }

    /// The capacity `N`.
    pub fn capacity(&self) -> (r: usize)
        ensures
            r == N,
    {
        N
    }

    /// The number of bytes held.
    pub fn len(&self) -> (r: usize)
        ensures
            r == self@.len(),
    {
        self.size
    }

    /// Whether no byte is held.
    pub fn is_empty(&self) -> (r: bool)
        ensures
            r <==> self@.len() == 0,
    {
        self.size == 0
    }

    /// A cursor over the bytes held, oldest first. Reading through it never
    /// changes the buffer.
    pub fn iter(&mut self) -> (r: CommandBufferIter<'_, N>)
        requires
            old(self).wf(),
        ensures
            final(self)@ == old(self)@,
            final(self).wf(),
            r.wf(),
            r.source() == old(self)@,
            r.progress() == 0,
            r.remaining() == old(self)@,
    {
        CommandBufferIter::new(self)
    }

    /// Evicts the bytes that the captured cursor read.
    pub fn flush(&mut self, memento: IterMemento)
        requires
            old(self).wf(),
            memento.count() <= old(self)@.len(),
        ensures
            final(self).wf(),
            final(self)@ == old(self)@.skip(memento.count() as int),
    {
        let IterMemento(count) = memento;
        self.evict(count);
    }
}

/// How far a cursor advanced before it was captured; redeemable once with
/// `CommandBuffer::flush`.
pub struct IterMemento(usize);

impl IterMemento {
    /// The number of bytes the cursor read.
    pub closed spec fn count(&self) -> nat {
        self.0 as nat
    }
}

struct Counter {
    count: usize,
}

impl Counter {
    fn new() -> (r: Self)
        ensures
            r.count == 0,
    {
        Counter { count: 0 }
    }

    /// Adds one.
    fn increment(&mut self)
        requires
            old(self).count < usize::MAX,
        ensures
            final(self).count == old(self).count + 1,
    {
        self.count = self.count + 1;
    }

    /// The current count.
    fn read(&self) -> (r: &usize)
        ensures
            *r == self.count,
    {
        &self.count
    }
}

/// A one-shot forward cursor over a `CommandBuffer`'s content.
pub struct CommandBufferIter<'a, const N: usize> {
    parent: &'a CommandBuffer<N>,
    counter: Counter,
}

impl<'a, const N: usize> CommandBufferIter<'a, N> {
    /// The buffer content the cursor walks.
    pub closed spec fn source(&self) -> Seq<u8> {
        self.parent@
    }

    /// How many bytes have been read.
    pub closed spec fn progress(&self) -> nat {
        self.counter.count as nat
    }

    /// The bytes not yet read are those of the buffer past the ones read.
    pub proof fn lemma_remaining(&self)
        requires
            self.wf(),
        ensures
            self.progress() <= self.source().len(),
            self.remaining() == self.source().skip(self.progress() as int),
            self.frame() == self.source(),
    {
    }

    fn new(parent: &'a CommandBuffer<N>) -> (r: Self)
        requires
            parent.wf(),
        ensures
            r.wf(),
            r.source() == parent@,
            r.progress() == 0,
            r.remaining() == parent@,
    {
        let r = CommandBufferIter { parent, counter: Counter::new() };
        assert(r.remaining() =~= parent@);
        r
    }

    /// The slot under the cursor.
    fn cursor(&self) -> (r: usize)
        requires
            self.wf(),
            self.counter.count < self.parent.size,
        ensures
            r == slot(self.parent.start_cursor as nat, self.counter.count as nat, N as nat),
            r < N,
    {
        CommandBuffer::<N>::wrap(self.parent.start_cursor, *self.counter.read())
    }

    /// Whether a byte is under the cursor.
    fn cursor_is_valid(&self) -> (r: bool)
        ensures
            r <==> self.counter.count < self.parent.size,
    {
        *self.counter.read() < self.parent.len()
    }

    /// Moves the cursor one byte on.
    fn move_cursor(&mut self)
        requires
            old(self).wf(),
            old(self).counter.count < old(self).parent.size,
        ensures
            final(self).wf(),
            final(self).parent == old(self).parent,
            final(self).counter.count == old(self).counter.count + 1,
    {
        self.counter.increment();
    }

    /// The byte under the cursor, which must be valid.
    fn read_unchecked(&self) -> (r: &'a u8)
        requires
            self.wf(),
            self.counter.count < self.parent.size,
        ensures
            *r == self.remaining()[0],
    {
        let c = self.cursor();
        &self.parent.buf[c]
    }

    /// Reads the byte under the cursor and moves past it; `None` once every
    /// byte has been read.
    fn read(&mut self) -> (r: Option<&'a u8>)
        requires
            old(self).wf(),
        ensures
            final(self).wf(),
            final(self).source() == old(self).source(),
            old(self).remaining().len() == 0 ==> r is None && final(self).progress()
                == old(self).progress(),
            old(self).remaining().len() > 0 ==> r == Some(&old(self).remaining()[0])
                && final(self).progress() == old(self).progress() + 1,
            final(self).remaining() == if old(self).remaining().len() == 0 {
                old(self).remaining()
            } else {
                old(self).remaining().drop_first()
            },
    {
        if self.cursor_is_valid() {
            let r = self.read_unchecked();
            self.move_cursor();
            assert(self.remaining() =~= old(self).remaining().drop_first());
            Some(r)
        } else {
            None
        }
    }

    /// Reads the byte under the cursor and moves past it; `None` once every
    /// byte has been read.
    pub fn next(&mut self) -> (r: Option<&'a u8>)
        requires
            old(self).wf(),
        ensures
            final(self).wf(),
            final(self).source() == old(self).source(),
            old(self).remaining().len() == 0 ==> r is None && final(self).progress()
                == old(self).progress(),
            old(self).remaining().len() > 0 ==> r == Some(&old(self).remaining()[0])
                && final(self).progress() == old(self).progress() + 1,
            final(self).remaining() == if old(self).remaining().len() == 0 {
                old(self).remaining()
            } else {
                old(self).remaining().drop_first()
            },
    {
        self.read()
    }

    /// Ends the cursor, keeping how far it read.
    pub fn capture(self) -> (r: IterMemento)
        ensures
            r.count() == self.progress(),
    {
        IterMemento(*self.counter.read())
    }
}

impl<'a, const N: usize> WordSource for CommandBufferIter<'a, N> {
    type Frame = Seq<u8>;

    /// The buffer content walked.
    closed spec fn frame(&self) -> Seq<u8> {
        self.parent@
    }

    /// The parent is well formed and the cursor has not run past its content.
    closed spec fn wf(&self) -> bool {
        &&& self.parent.wf()
        &&& self.counter.count <= self.parent.size
    }

    closed spec fn remaining(&self) -> Seq<u8> {
        self.parent@.skip(self.counter.count as int)
    }

    fn next_word(&mut self) -> (r: Option<u8>) {
        match self.next() {
            Some(w) => Some(*w),
            None => None,
        }
    }
}

} // verus!
