use crate::error::{EndOfInput, Error, Invalid};
use crate::medium::{ArraySink, Medium, WordSink, WordSource};
use vstd::prelude::*;

verus! {

/// A value with a canonical encoding as a sequence of words.
pub trait SerializeIter: Sized {
    /// The canonical encoding of this value.
    spec fn spec_encode(&self) -> Seq<u8>;

    /// Decoding from the front of `s`: the value and the number of words it
    /// took, or why that failed.
    spec fn spec_decode(s: Seq<u8>) -> Result<(Self, nat), Error>;

    /// How many words a failed decode from the front of `s` reads before it
    /// gives up.
    spec fn spec_consumed(s: Seq<u8>) -> nat;

    /// Decoding the encoding of a value, whatever follows it, gives that value
    /// back and takes exactly its words.
    proof fn lemma_decode_encode(&self, rest: Seq<u8>)
        ensures
            Self::spec_decode(self.spec_encode() + rest) == Ok::<(Self, nat), Error>(
                (*self, self.spec_encode().len()),
            ),
    ;

    /// Writes the canonical encoding into `dst`. Fails with `EndOfInput` when
    /// `dst` runs out; the words written before that stay written.
    fn serialize_iter<S: WordSink>(&self, dst: &mut S) -> (r: Result<(), EndOfInput>)
        requires
            old(dst).wf(),
        ensures
            final(dst).wf(),
            final(dst).frame() == old(dst).frame(),
            r is Ok <==> self.spec_encode().len() <= old(dst).room(),
            r is Ok ==> final(dst).written() == old(dst).written() + self.spec_encode()
                && final(dst).room() == old(dst).room() - self.spec_encode().len(),
            r is Err ==> final(dst).written() == old(dst).written() + self.spec_encode().take(
                old(dst).room() as int,
            ) && final(dst).room() == 0,
    ;

    /// Reads one value from the front of `src`.
    fn deserialize_iter<S: WordSource>(src: &mut S) -> (r: Result<Self, Error>)
        requires
            old(src).wf(),
        ensures
            final(src).wf(),
            final(src).frame() == old(src).frame(),
            match Self::spec_decode(old(src).remaining()) {
                Ok((v, n)) => r == Ok::<Self, Error>(v) && n <= old(src).remaining().len()
                    && final(src).remaining() == old(src).remaining().skip(n as int),
                Err(e) => r == Err::<Self, Error>(e) && Self::spec_consumed(old(src).remaining())
                    <= old(src).remaining().len() && final(src).remaining() == old(
                    src,
                ).remaining().skip(Self::spec_consumed(old(src).remaining()) as int),
            },
    ;
}

/// A value whose every encoding takes the same, statically known, number of
/// words.
pub trait SerializeBuf: SerializeIter {
    /// The number of words of every encoding of this type.
    spec fn spec_exact_len() -> nat;

    /// The number of words of every encoding of this type.
    fn exact_len() -> (r: usize)
        ensures
            r == Self::spec_exact_len(),
    ;

    /// Every value encodes to exactly `spec_exact_len()` words.
    proof fn lemma_exact_len(&self)
        ensures
            self.spec_encode().len() == Self::spec_exact_len(),
    ;

    /// Decoding from at least `spec_exact_len()` words never runs out.
    proof fn lemma_decode_within(s: Seq<u8>)
        requires
            s.len() >= Self::spec_exact_len(),
        ensures
            Self::spec_decode(s) != Err::<(Self, nat), Error>(Error::EndOfInput),
    ;

    /// Writes the encoding into a buffer of exactly the type's length.
    fn serialize_buf<const N: usize>(&self, dest: &mut [u8; N])
        requires
            N == Self::spec_exact_len(),
        ensures
            final(dest)@ == self.spec_encode(),
    {
        proof {
            self.lemma_exact_len();
        }
        let mut sink = ArraySink::new(*dest);
        let r = self.serialize_iter(&mut sink);
        assert(r is Ok);
        *dest = sink.into_inner();
    }

    /// Reads a value from a buffer of exactly the type's length, which never
    /// runs out: the only failure is `Invalid`.
    fn deserialize_buf<const N: usize>(src: &[u8; N]) -> (r: Result<Self, Invalid>)
        requires
            N == Self::spec_exact_len(),
        ensures
            match Self::spec_decode(src@) {
                Ok((v, _)) => r == Ok::<Self, Invalid>(v),
                Err(e) => e == Error::Invalid && r == Err::<Self, Invalid>(Invalid),
            },
    {
        proof {
            Self::lemma_decode_within(src@);
        }
        let mut source = src.get_iter();
        match Self::deserialize_iter(&mut source) {
            Ok(v) => Ok(v),
            Err(_) => Err(Invalid),
        }
    }
}

/// Encoding into a buffer of exactly the type's length always has room, and
/// into one word less never has.
pub proof fn lemma_exact_sizing<T: SerializeBuf>(v: T)
    ensures
        v.spec_encode().len() <= T::spec_exact_len(),
        T::spec_exact_len() >= 1 ==> v.spec_encode().len() > T::spec_exact_len() - 1,
{
    v.lemma_exact_len();
}

/// Decoding what a value encodes to gives the value back.
pub proof fn lemma_round_trip<T: SerializeIter>(v: T, rest: Seq<u8>)
    ensures
        T::spec_decode(v.spec_encode() + rest) == Ok::<(T, nat), Error>(
            (v, v.spec_encode().len()),
        ),
{
    v.lemma_decode_encode(rest);
}

/// Writes `v` as one field of a sequence whose encoding is `pre + v + post`,
/// `pre` having been written already, after `base`, into a sink that had
/// `room0` free slots at the start of the sequence.
pub(crate) fn serialize_field<T: SerializeIter, S: WordSink>(
    v: &T,
    dst: &mut S,
    Ghost(base): Ghost<Seq<u8>>,
    Ghost(pre): Ghost<Seq<u8>>,
    Ghost(post): Ghost<Seq<u8>>,
    Ghost(room0): Ghost<nat>,
) -> (r: Result<(), EndOfInput>)
    requires
        old(dst).wf(),
        old(dst).written() == base + pre,
        pre.len() <= room0,
        old(dst).room() == room0 - pre.len(),
    ensures
        final(dst).wf(),
        final(dst).frame() == old(dst).frame(),
        r is Ok <==> pre.len() + v.spec_encode().len() <= room0,
        r is Ok ==> final(dst).written() == base + (pre + v.spec_encode()) && final(dst).room()
            == room0 - (pre + v.spec_encode()).len(),
        r is Err ==> final(dst).written() == base + (pre + v.spec_encode() + post).take(
            room0 as int,
        ) && final(dst).room() == 0 && room0 < (pre + v.spec_encode() + post).len(),
{
    let r = v.serialize_iter(dst);
    proof {
        let e = v.spec_encode();
        if r is Ok {
            assert(final(dst).written() =~= base + (pre + e));
        } else {
            assert((pre + e + post).take(room0 as int) =~= pre + e.take(room0 - pre.len()));
            assert(final(dst).written() =~= base + (pre + e + post).take(room0 as int));
        }
    }
    r
}

/// Reads one field of a sequence from the source, which holds `s` past its
/// first `off` words.
pub(crate) fn deserialize_field<T: SerializeIter, S: WordSource>(
    src: &mut S,
    Ghost(s): Ghost<Seq<u8>>,
    Ghost(off): Ghost<nat>,
) -> (r: Result<T, Error>)
    requires
        old(src).wf(),
        off <= s.len(),
        old(src).remaining() == s.skip(off as int),
    ensures
        final(src).wf(),
        final(src).frame() == old(src).frame(),
        match T::spec_decode(s.skip(off as int)) {
            Ok((v, n)) => r == Ok::<T, Error>(v) && off + n <= s.len() && final(src).remaining()
                == s.skip((off + n) as int),
            Err(e) => {
                let c = T::spec_consumed(s.skip(off as int));
                r == Err::<T, Error>(e) && off + c <= s.len() && final(src).remaining() == s.skip(
                    (off + c) as int,
                )
            },
        },
{
    let r = T::deserialize_iter(src);
    proof {
        if let Ok((v, n)) = T::spec_decode(s.skip(off as int)) {
            assert(s.skip(off as int).skip(n as int) =~= s.skip((off + n) as int));
        } else {
            let c = T::spec_consumed(s.skip(off as int));
            assert(s.skip(off as int).skip(c as int) =~= s.skip((off + c) as int));
        }
    }
    r
}

/// `256` to the power `w`.
pub open spec fn pow256(w: nat) -> nat
    decreases w,
{
    if w == 0 {
        1
    } else {
        256 * pow256((w - 1) as nat)
    }
}

/// The `w` low bytes of `v`, least significant first.
pub open spec fn le_bytes(v: nat, w: nat) -> Seq<u8>
    decreases w,
{
    if w == 0 {
        Seq::empty()
    } else {
        seq![(v % 256) as u8] + le_bytes(v / 256, (w - 1) as nat)
    }
}

/// The number whose bytes, least significant first, are `s`.
pub open spec fn le_value(s: Seq<u8>) -> nat
    decreases s.len(),
{
    if s.len() == 0 {
        0
    } else {
        s[0] as nat + 256 * le_value(s.drop_first())
    }
}

/// The little-endian decoding of a fixed-width number from the front of `s`.
pub open spec fn decode_le(s: Seq<u8>, w: nat) -> Result<(nat, nat), Error> {
    if s.len() < w {
        Err(Error::EndOfInput)
    } else {
        Ok((le_value(s.take(w as int)), w))
    }
}

pub proof fn lemma_le_bytes_len(v: nat, w: nat)
    ensures
        le_bytes(v, w).len() == w,
    decreases w,
{
    if w > 0 {
        lemma_le_bytes_len(v / 256, (w - 1) as nat);
    }
}

pub proof fn lemma_pow256_positive(w: nat)
    ensures
        pow256(w) >= 1,
    decreases w,
{
    if w > 0 {
        lemma_pow256_positive((w - 1) as nat);
    }
}

/// Bytes read back give the number they were cut from.
pub proof fn lemma_le_value_bytes(v: nat, w: nat)
    requires
        v < pow256(w),
    ensures
        le_value(le_bytes(v, w)) == v,
    decreases w,
{
    if w == 0 {
    } else {
        let p = pow256((w - 1) as nat);
        assert(v / 256 < p) by (nonlinear_arith)
            requires
                v < 256 * p,
        ;
        lemma_le_value_bytes(v / 256, (w - 1) as nat);
        let s = le_bytes(v, w);
        assert(s.drop_first() =~= le_bytes(v / 256, (w - 1) as nat));
        assert(v == v % 256 + 256 * (v / 256)) by (nonlinear_arith);
    }
}

/// A number read from `w` bytes is below `256^w`.
pub proof fn lemma_le_value_bound(s: Seq<u8>)
    ensures
        le_value(s) < pow256(s.len()),
    decreases s.len(),
{
    if s.len() > 0 {
        lemma_le_value_bound(s.drop_first());
        let a = s[0] as nat;
        let b = le_value(s.drop_first());
        let p = pow256((s.len() - 1) as nat);
        assert(a + 256 * b < 256 * p) by (nonlinear_arith)
            requires
                a < 256,
                b < p,
        ;
    }
}

/// Reading the encoding of a fixed-width number back, whatever follows it.
pub proof fn lemma_decode_le_bytes(v: nat, w: nat, rest: Seq<u8>)
    requires
        v < pow256(w),
    ensures
        decode_le(le_bytes(v, w) + rest, w) == Ok::<(nat, nat), Error>((v, w)),
{
    lemma_le_bytes_len(v, w);
    assert((le_bytes(v, w) + rest).take(w as int) =~= le_bytes(v, w));
    lemma_le_value_bytes(v, w);
}

pub proof fn lemma_pow256_values()
    ensures
        pow256(1) == 0x100,
        pow256(2) == 0x1_0000,
        pow256(4) == 0x1_0000_0000,
        pow256(8) == 0x1_0000_0000_0000_0000,
{
    reveal_with_fuel(pow256, 9);
}

/// Writes the `width` low bytes of `v`, least significant first.
pub(crate) fn put_le<S: WordSink>(v: u64, width: usize, dst: &mut S) -> (r: Result<(), EndOfInput>)
    requires
        old(dst).wf(),
        width <= 8,
        v < pow256(width as nat),
    ensures
        final(dst).wf(),
        final(dst).frame() == old(dst).frame(),
        r is Ok <==> width <= old(dst).room(),
        r is Ok ==> final(dst).written() == old(dst).written() + le_bytes(v as nat, width as nat)
            && final(dst).room() == old(dst).room() - width,
        r is Err ==> final(dst).written() == old(dst).written() + le_bytes(
            v as nat,
            width as nat,
        ).take(old(dst).room() as int) && final(dst).room() == 0,
{
    proof {
        lemma_le_bytes_len(v as nat, width as nat);
    }
    let ghost all = old(dst).written() + le_bytes(v as nat, width as nat);
    let mut x: u64 = v;
    let mut i: usize = 0;
    while i < width
        invariant
            dst.wf(),
            dst.frame() == old(dst).frame(),
            i <= width,
            i <= old(dst).room(),
            dst.room() == old(dst).room() - i,
            dst.written().len() == old(dst).written().len() + i,
            all == old(dst).written() + le_bytes(v as nat, width as nat),
            all == dst.written() + le_bytes(x as nat, (width - i) as nat),
        decreases width - i,
    {
        let ghost before = dst.written();
        match dst.put((x % 256) as u8) {
            Ok(()) => {},
            Err(e) => {
                proof {
                    lemma_le_bytes_len(x as nat, (width - i) as nat);
                    assert(i == old(dst).room());
                    assert(dst.written() =~= all.take(old(dst).written().len() + i));
                    assert(dst.written() =~= old(dst).written() + le_bytes(
                        v as nat,
                        width as nat,
                    ).take(old(dst).room() as int));
                }
                return Err(e);
            },
        }
        proof {
            let t = le_bytes(x as nat, (width - i) as nat);
            assert(t =~= seq![(x % 256) as u8] + le_bytes(x as nat / 256, (width - i - 1) as nat));
            assert(all =~= dst.written() + le_bytes(x as nat / 256, (width - i - 1) as nat));
        }
        x = x / 256;
        i = i + 1;
    }
    proof {
        assert(le_bytes(x as nat, 0) =~= Seq::<u8>::empty());
        assert(dst.written() =~= all);
    }
    Ok(())
}

/// Reads a `width`-byte number, least significant byte first.
pub(crate) fn take_le<S: WordSource>(width: usize, src: &mut S) -> (r: Result<u64, Error>)
    requires
        old(src).wf(),
        1 <= width <= 8,
    ensures
        final(src).wf(),
        final(src).frame() == old(src).frame(),
        match decode_le(old(src).remaining(), width as nat) {
            Ok((v, n)) => {
                &&& v < pow256(width as nat)
                &&& r is Ok
                &&& r->Ok_0 == v
                &&& n <= old(src).remaining().len()
                &&& final(src).remaining() == old(src).remaining().skip(n as int)
            },
            Err(e) => r == Err::<u64, Error>(e) && final(src).remaining() == Seq::<u8>::empty(),
        },
{
    let ghost s = old(src).remaining();
    let mut bytes: [u8; 8] = [0u8; 8];
    let mut i: usize = 0;
    while i < width
        invariant
            src.wf(),
            src.frame() == old(src).frame(),
            s == old(src).remaining(),
            i <= width <= 8,
            i <= s.len(),
            src.remaining() == s.skip(i as int),
            forall|j: int| 0 <= j < i ==> bytes@[j] == s[j],
        decreases width - i,
    {
        match src.next_word() {
            Some(w) => {
                bytes[i] = w;
                proof {
                    assert(s.skip(i + 1) =~= s.skip(i as int).drop_first());
                }
                i = i + 1;
            },
            None => {
                assert(s.len() == i);
                assert(src.remaining() =~= Seq::<u8>::empty());
                return Err(Error::EndOfInput);
            },
        }
    }
    let ghost t = s.take(width as int);
    let mut acc: u64 = 0;
    let mut j: usize = width;
    proof {
        lemma_pow256_values();
        assert(t.subrange(width as int, width as int) =~= Seq::<u8>::empty());
    }
    while j > 0
        invariant
            j <= width <= 8,
            s == old(src).remaining(),
            src.frame() == old(src).frame(),
            src.remaining() == s.skip(width as int),
            width <= s.len(),
            t == s.take(width as int),
            forall|k: int| 0 <= k < width ==> bytes@[k] == s[k],
            acc as nat == le_value(t.subrange(j as int, width as int)),
            acc < pow256((width - j) as nat),
            pow256(8) == 0x1_0000_0000_0000_0000,
        decreases j,
    {
        let ghost tail = t.subrange(j as int, width as int);
        let ghost longer = t.subrange(j - 1, width as int);
        proof {
            assert(longer.drop_first() =~= tail);
            lemma_pow256_mono((width - j + 1) as nat, 8);
            assert(acc * 256 + bytes@[j - 1] < pow256((width - j + 1) as nat)) by (nonlinear_arith)
                requires
                    acc < pow256((width - j) as nat),
                    pow256((width - j + 1) as nat) == 256 * pow256((width - j) as nat),
                    bytes@[j - 1] < 256,
            ;
        }
        acc = acc * 256 + bytes[j - 1] as u64;
        j = j - 1;
    }
    proof {
        assert(t.subrange(0, width as int) =~= t);
        lemma_le_value_bound(t);
    }
    Ok(acc)
}

proof fn lemma_pow256_mono(a: nat, b: nat)
    requires
        a <= b,
    ensures
        pow256(a) <= pow256(b),
    decreases b,
{
    if a < b {
        lemma_pow256_mono(a, (b - 1) as nat);
        lemma_pow256_positive((b - 1) as nat);
    }
}

} // verus!
