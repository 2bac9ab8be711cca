use crate::codec::{SerializeBuf, SerializeIter};
use crate::error::{self, EndOfInput};
use crate::medium::{WordSink, WordSource};
use core::marker::PhantomData;
use vstd::prelude::*;
use vstd::std_specs::cmp::PartialEqSpec;

verus! {

/// Why a checksummed packet could not be read.
#[derive(Debug, Clone, Copy, PartialEq, Eq, Structural)]
pub enum Error {
    /// The payload or the digest did not decode.
    Serialize(error::Error),
    /// Both decoded, but the digest read differs from the one computed.
    Crc,
}

impl From<error::Error> for Error {
    fn from(value: error::Error) -> (r: Self)
        ensures
            r == Error::Serialize(value),
    {
        Error::Serialize(value)
    }
}

impl vstd::std_specs::convert::FromSpecImpl<error::Error> for Error {
    open spec fn obeys_from_spec() -> bool {
        true
    }

    open spec fn from_spec(v: error::Error) -> Error {
        Error::Serialize(v)
    }
}

/// A running checksum: fold words in one at a time, then take the digest.
///
/// The model is the words folded in since the accumulator was made or last
/// gave a digest, and the digest as a function of those words. Taking the
/// digest starts the accumulator afresh.
pub trait CRCProvider {
    /// The word folded in.
    type Word;

    /// The digest, written after the payload on the wire.
    type Rep: SerializeBuf + Eq;

    /// The words folded in since creation or the last digest, in order.
    spec fn fed(&self) -> Seq<Self::Word>;

    /// The digest of `words`.
    spec fn digest_of(words: Seq<Self::Word>) -> Self::Rep;

    /// Folds one word into the running state.
    fn update(&mut self, word: &Self::Word)
        ensures
            final(self).fed() == old(self).fed().push(*word),
    ;

    /// The digest of the words folded in; the accumulator starts afresh.
    fn finalize(&mut self) -> (r: Self::Rep)
        ensures
            r == Self::digest_of(old(self).fed()),
            final(self).fed() == Seq::<Self::Word>::empty(),
    ;
}

/// A payload that travels with a trailing digest of its encoding.
#[derive(Debug, PartialEq)]
pub struct CRCPacket<P: SerializeIter, C: CRCProvider> {
    payload: P,
    _crc_provider: PhantomData<C>,
}

impl<P: SerializeIter, C: CRCProvider<Word = u8>> CRCPacket<P, C> {
    /// The payload carried.
    pub closed spec fn payload(&self) -> P {
        self.payload
    }

    /// Packets are equal exactly when their payloads are.
    pub proof fn lemma_payload_determines(a: Self, b: Self)
        ensures
            a.payload() == b.payload() <==> a == b,
    {
        if a.payload() == b.payload() {
            assert(a._crc_provider == b._crc_provider);
        }
    }

    /// A packet around `payload`.
    pub fn new(payload: P) -> (r: Self)
        ensures
            r.payload() == payload,
    {
        CRCPacket { payload, _crc_provider: PhantomData }
    }

    /// The payload carried.
    pub fn get_payload(&self) -> (r: &P)
        ensures
            *r == self.payload(),
    {
        &self.payload
    }

    /// Writes the payload's encoding into `dst`, folding each of its words
    /// into `crc_provider` as it is written, then the encoding of the digest
    /// of those words. Hands `dst` back. Fails with `EndOfInput` where `dst`
    /// runs out; what was written before that stays written.
    pub fn render<S: WordSink>(
        &self,
        dst: S,
        crc_provider: &mut C,
    ) -> (r: (S, Result<(), EndOfInput>))
        requires
            dst.wf(),
        ensures
            ({
                let e = self.payload().spec_encode();
                let g = C::digest_of(old(crc_provider).fed() + e).spec_encode();
                &&& r.0.wf()
                &&& r.0.frame() == dst.frame()
                &&& r.1 is Ok <==> e.len() + C::Rep::spec_exact_len() <= dst.room()
                &&& r.1 is Ok ==> r.0.written() == dst.written() + e + g
                &&& r.1 is Err ==> r.0.room() == 0
                &&& r.1 is Err && e.len() > dst.room() ==> r.0.written() == dst.written()
                    + e.take(dst.room() as int)
                &&& r.1 is Err && e.len() <= dst.room() ==> r.0.written() == dst.written() + e
                    + g.take(dst.room() - e.len())
            }),
    {
        let mut crc_iter = CRCComputeIterMut::new(crc_provider, dst);
        let r = self.payload.serialize_iter(&mut crc_iter);
        proof {
            crc_iter.lemma_fed();
            assert(crc_iter.written().skip(dst.written().len() as int) =~= crc_iter.written().skip(
                dst.written().len() as int,
            ));
        }
        if r.is_err() {
            let dst = crc_iter.into_inner();
            return (dst, r);
        }
        proof {
            let e = self.payload().spec_encode();
            assert((dst.written() + e).skip(dst.written().len() as int) =~= e);
        }
        let crc = crc_iter.finalize();
        let mut dst = crc_iter.into_inner();
        proof {
            crc.lemma_exact_len();
        }
        let r = crc.serialize_iter(&mut dst);
        (dst, r)
    }

    /// Reads a payload from `src`, folding each of its words into
    /// `crc_provider`, then the digest that follows it, and checks it against
    /// the digest of the payload's words.
    pub fn construct<S: WordSource>(src: S, crc_provider: &mut C) -> (r: Result<Self, Error>)
        requires
            src.wf(),
        ensures
            match P::spec_decode(src.remaining()) {
                Err(e) => r == Err::<Self, Error>(Error::Serialize(e)),
                Ok((p, n)) => match C::Rep::spec_decode(src.remaining().skip(n as int)) {
                    Err(e) => r == Err::<Self, Error>(Error::Serialize(e)),
                    Ok((d, m)) => {
                        let computed = C::digest_of(
                            old(crc_provider).fed() + src.remaining().take(n as int),
                        );
                        &&& C::Rep::obeys_eq_spec() ==> (r is Ok <==> computed.eq_spec(&d))
                        &&& r is Ok ==> r->Ok_0.payload() == p
                        &&& r is Err ==> r == Err::<Self, Error>(Error::Crc)
                    },
                },
            },
    {
        let mut crc_iter = CRCComputeIter::new(crc_provider, src);
        let payload = match P::deserialize_iter(&mut crc_iter) {
            Ok(p) => p,
            Err(e) => {
                return Err(Error::Serialize(e));
            },
        };
        proof {
            crc_iter.lemma_fed();
            let n = P::spec_decode(src.remaining())->Ok_0.1;
            assert(src.remaining().len() - crc_iter.remaining().len() == n);
        }
        let computed_crc = crc_iter.finalize();
        let mut src = crc_iter.into_inner();
        let read_crc = match C::Rep::deserialize_iter(&mut src) {
            Ok(d) => d,
            Err(e) => {
                return Err(Error::Serialize(e));
            },
        };
        Self::check_digest(payload, computed_crc, read_crc)
    }

    /// The packet when the digest read equals the one computed, else `Crc`.
    pub fn check_digest(payload: P, computed: C::Rep, read: C::Rep) -> (r: Result<Self, Error>)
        ensures
            C::Rep::obeys_eq_spec() ==> (r is Ok <==> computed.eq_spec(&read)),
            r is Ok ==> r->Ok_0.payload() == payload,
            r is Err ==> r == Err::<Self, Error>(Error::Crc),
    {
        if computed == read {
            Ok(CRCPacket { payload, _crc_provider: PhantomData })
        } else {
            Err(Error::Crc)
        }
    }
}

/// A source that hands on the words of another and folds each of them into
/// a checksum.
pub struct CRCComputeIter<'a, C: CRCProvider, I: WordSource> {
    crc_provider: &'a mut C,
    iter: I,
    fed0: Ghost<Seq<u8>>,
    start: Ghost<Seq<u8>>,
}

impl<'a, C: CRCProvider<Word = u8>, I: WordSource> CRCComputeIter<'a, C, I> {
    /// Taps `iter`, folding into `crc_provider`. Makes no call on either.
    pub fn new(crc_provider: &'a mut C, iter: I) -> (r: Self)
        requires
            iter.wf(),
        ensures
            r.wf(),
            r.inner() == iter,
            r.fed_before() == old(crc_provider).fed(),
            r.start() == iter.remaining(),
            r.provider_fed() == old(crc_provider).fed(),
    {
        let ghost fed0 = crc_provider.fed();
        let r = CRCComputeIter {
            crc_provider,
            iter,
            fed0: Ghost(fed0),
            start: Ghost(iter.remaining()),
        };
        assert(r.start@.skip(0) =~= r.start@);
        assert(fed0 + r.start@.take(0) =~= fed0);
        r
    }

    /// The source tapped.
    pub closed spec fn inner(&self) -> I {
        self.iter
    }

    /// What the checksum held when the tap was made.
    pub closed spec fn fed_before(&self) -> Seq<u8> {
        self.fed0@
    }

    /// The words the tapped source held when the tap was made.
    pub closed spec fn start(&self) -> Seq<u8> {
        self.start@
    }

    /// The words the checksum holds now.
    pub closed spec fn provider_fed(&self) -> Seq<u8> {
        self.crc_provider.fed()
    }

    /// The checksum holds what it held before, then exactly the words read
    /// through the tap, in order.
    pub proof fn lemma_fed(&self)
        requires
            self.wf(),
        ensures
            self.remaining().len() <= self.start().len(),
            self.remaining() == self.start().skip(
                self.start().len() - self.remaining().len(),
            ),
            self.provider_fed() == self.fed_before() + self.start().take(
                self.start().len() - self.remaining().len(),
            ),
    {
    }

    /// Takes the digest of what the checksum holds.
    pub fn finalize(&mut self) -> (r: C::Rep)
        ensures
            r == C::digest_of(old(self).provider_fed()),
            final(self).inner() == old(self).inner(),
    {
        self.crc_provider.finalize()
    }

    /// Ends the tap, handing the source back.
    pub fn into_inner(self) -> (r: I)
        ensures
            r == self.inner(),
    {
        self.iter
    }
}

impl<'a, C: CRCProvider<Word = u8>, I: WordSource> WordSource for CRCComputeIter<'a, C, I> {
    type Frame = (Seq<u8>, Seq<u8>, I::Frame);

    /// The tapped source is consistent, and the checksum holds what it held
    /// before followed by the words read since the tap was made.
    closed spec fn wf(&self) -> bool {
        let k = self.start@.len() - self.iter.remaining().len();
        &&& self.iter.wf()
        &&& self.iter.remaining().len() <= self.start@.len()
        &&& self.start@.skip(k) == self.iter.remaining()
        &&& self.crc_provider.fed() == self.fed0@ + self.start@.take(k)
    }

    closed spec fn frame(&self) -> (Seq<u8>, Seq<u8>, I::Frame) {
        (self.fed0@, self.start@, self.iter.frame())
    }

    closed spec fn remaining(&self) -> Seq<u8> {
        self.iter.remaining()
    }

    fn next_word(&mut self) -> (r: Option<u8>) {
        let ghost k = self.start@.len() - self.iter.remaining().len();
        let r = self.iter.next_word();
        if let Some(w) = r {
            self.crc_provider.update(&w);
            proof {
                assert(self.start@[k] == w);
                assert(self.start@.take(k + 1) =~= self.start@.take(k).push(w));
                assert(self.start@.skip(k + 1) =~= self.start@.skip(k).drop_first());
            }
        }
        r
    }
}

/// A sink that hands on words to another and folds each of them into a
/// checksum as it is written.
pub struct CRCComputeIterMut<'a, C: CRCProvider, I: WordSink> {
    crc_provider: &'a mut C,
    iter: I,
    fed0: Ghost<Seq<u8>>,
    start: Ghost<Seq<u8>>,
}

impl<'a, C: CRCProvider<Word = u8>, I: WordSink> CRCComputeIterMut<'a, C, I> {
    /// Taps `iter`, folding into `crc_provider`. Makes no call on either.
    pub fn new(crc_provider: &'a mut C, iter: I) -> (r: Self)
        requires
            iter.wf(),
        ensures
            r.wf(),
            r.inner() == iter,
            r.fed_before() == old(crc_provider).fed(),
            r.start() == iter.written(),
            r.provider_fed() == old(crc_provider).fed(),
    {
        let ghost fed0 = crc_provider.fed();
        let r = CRCComputeIterMut {
            crc_provider,
            iter,
            fed0: Ghost(fed0),
            start: Ghost(iter.written()),
        };
        assert(iter.written().take(iter.written().len() as int) =~= iter.written());
        assert(fed0 + iter.written().skip(iter.written().len() as int) =~= fed0);
        r
    }

    /// The sink tapped.
    pub closed spec fn inner(&self) -> I {
        self.iter
    }

    /// What the checksum held when the tap was made.
    pub closed spec fn fed_before(&self) -> Seq<u8> {
        self.fed0@
    }

    /// The words the tapped sink had written when the tap was made.
    pub closed spec fn start(&self) -> Seq<u8> {
        self.start@
    }

    /// The words the checksum holds now.
    pub closed spec fn provider_fed(&self) -> Seq<u8> {
        self.crc_provider.fed()
    }

    /// The checksum holds what it held before, then exactly the words
    /// written through the tap, in order.
    pub proof fn lemma_fed(&self)
        requires
            self.wf(),
        ensures
            self.start().len() <= self.written().len(),
            self.written().take(self.start().len() as int) == self.start(),
            self.provider_fed() == self.fed_before() + self.written().skip(
                self.start().len() as int,
            ),
    {
    }

    /// Takes the digest of what the checksum holds.
    pub fn finalize(&mut self) -> (r: C::Rep)
        ensures
            r == C::digest_of(old(self).provider_fed()),
            final(self).inner() == old(self).inner(),
    {
        self.crc_provider.finalize()
    }

    /// Ends the tap, handing the sink back.
    pub fn into_inner(self) -> (r: I)
        ensures
            r == self.inner(),
    {
        self.iter
    }
}

impl<'a, C: CRCProvider<Word = u8>, I: WordSink> WordSink for CRCComputeIterMut<'a, C, I> {
    type Frame = (Seq<u8>, Seq<u8>, I::Frame);

    /// The tapped sink is consistent, and the checksum holds what it held
    /// before followed by the words written since the tap was made.
    closed spec fn wf(&self) -> bool {
        &&& self.iter.wf()
        &&& self.start@.len() <= self.iter.written().len()
        &&& self.iter.written().take(self.start@.len() as int) == self.start@
        &&& self.crc_provider.fed() == self.fed0@ + self.iter.written().skip(
            self.start@.len() as int,
        )
    }

    closed spec fn frame(&self) -> (Seq<u8>, Seq<u8>, I::Frame) {
        (self.fed0@, self.start@, self.iter.frame())
    }

    closed spec fn written(&self) -> Seq<u8> {
        self.iter.written()
    }

    closed spec fn room(&self) -> nat {
        self.iter.room()
    }

    fn put(&mut self, w: u8) -> (r: Result<(), EndOfInput>) {
        let r = self.iter.put(w);
        if r.is_ok() {
            self.crc_provider.update(&w);
            proof {
                let l = self.start@.len() as int;
                assert(self.iter.written().take(l) =~= old(self).iter.written().take(l));
                assert(self.iter.written().skip(l) =~= old(self).iter.written().skip(l).push(w));
            }
        }
        r
    }
}

} // verus!
