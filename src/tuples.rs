use crate::codec::{deserialize_field, serialize_field, SerializeIter};
use crate::error::{EndOfInput, Error};
use crate::medium::{WordSink, WordSource};
use vstd::prelude::*;

verus! {

// A tuple encodes as its elements one after another, in order, with nothing
// between them: the layout of a record's fields.

impl<A: SerializeIter> SerializeIter for (A,) {
    open spec fn spec_encode(&self) -> Seq<u8> {
        self.0.spec_encode()
    }

    open spec fn spec_decode(s: Seq<u8>) -> Result<((A,), nat), Error> {
        match A::spec_decode(s) {
            Err(e) => Err(e),
            Ok((v0, n0)) => Ok(((v0,), n0)),
        }
    }

    open spec fn spec_consumed(s: Seq<u8>) -> nat {
        match A::spec_decode(s) {
            Err(_) => A::spec_consumed(s),
            Ok((_, n0)) => n0,
        }
    }

    proof fn lemma_decode_encode(&self, rest: Seq<u8>) {
        let e0 = self.0.spec_encode();
        let s = self.spec_encode() + rest;
        assert(s =~= e0 + rest);
        self.0.lemma_decode_encode(rest);
    }

    fn serialize_iter<S: WordSink>(&self, dst: &mut S) -> (r: Result<(), EndOfInput>) {
        let ghost base = old(dst).written();
        let ghost room0 = old(dst).room();
        let ghost e0 = self.0.spec_encode();
        proof {
            assert(base + Seq::<u8>::empty() =~= base);
        }
        proof {
            assert(Seq::<u8>::empty() + e0 + Seq::<u8>::empty() =~= self.spec_encode());
        }
        serialize_field(
            &self.0,
            dst,
            Ghost(base),
            Ghost(Seq::<u8>::empty()),
            Ghost(Seq::<u8>::empty()),
            Ghost(room0),
        )?;
        proof {
            assert(base + (e0) =~= base + self.spec_encode());
        }
        Ok(())
    }

    fn deserialize_iter<S: WordSource>(src: &mut S) -> (r: Result<(A,), Error>) {
        let ghost s = old(src).remaining();
        proof {
            assert(s.skip(0) =~= s);
        }
        let v0 = deserialize_field::<A, S>(src, Ghost(s), Ghost(0nat))?;
        Ok((v0,))
    }
}

impl<A: SerializeIter, B: SerializeIter> SerializeIter for (A, B) {
    open spec fn spec_encode(&self) -> Seq<u8> {
        self.0.spec_encode() + self.1.spec_encode()
    }

    open spec fn spec_decode(s: Seq<u8>) -> Result<((A, B), nat), Error> {
        match A::spec_decode(s) {
            Err(e) => Err(e),
            Ok((v0, n0)) => match B::spec_decode(s.skip(n0 as int)) {
                Err(e) => Err(e),
                Ok((v1, n1)) => Ok(((v0, v1), n0 + n1)),
            },
        }
    }

    open spec fn spec_consumed(s: Seq<u8>) -> nat {
        match A::spec_decode(s) {
            Err(_) => A::spec_consumed(s),
            Ok((_, n0)) => match B::spec_decode(s.skip(n0 as int)) {
                Err(_) => n0 + B::spec_consumed(s.skip(n0 as int)),
                Ok((_, n1)) => n0 + n1,
            },
        }
    }

    proof fn lemma_decode_encode(&self, rest: Seq<u8>) {
        let e0 = self.0.spec_encode();
        let e1 = self.1.spec_encode();
        let s = self.spec_encode() + rest;
        assert(s =~= e0 + (e1 + rest));
        self.0.lemma_decode_encode(e1 + rest);
        assert(s.skip(e0.len() as int) =~= e1 + rest);
        self.1.lemma_decode_encode(rest);
        assert(self.spec_encode().len() == e0.len() + e1.len());
    }

    fn serialize_iter<S: WordSink>(&self, dst: &mut S) -> (r: Result<(), EndOfInput>) {
        let ghost base = old(dst).written();
        let ghost room0 = old(dst).room();
        let ghost e0 = self.0.spec_encode();
        let ghost e1 = self.1.spec_encode();
        proof {
            assert(base + Seq::<u8>::empty() =~= base);
        }
        proof {
            assert(Seq::<u8>::empty() + e0 + e1 =~= self.spec_encode());
        }
        serialize_field(
            &self.0,
            dst,
            Ghost(base),
            Ghost(Seq::<u8>::empty()),
            Ghost(e1),
            Ghost(room0),
        )?;
        proof {
            assert(e0 + e1 + Seq::<u8>::empty() =~= self.spec_encode());
        }
        serialize_field(
            &self.1,
            dst,
            Ghost(base),
            Ghost(e0),
            Ghost(Seq::<u8>::empty()),
            Ghost(room0),
        )?;
        proof {
            assert(base + (e0 + e1) =~= base + self.spec_encode());
        }
        Ok(())
    }

    fn deserialize_iter<S: WordSource>(src: &mut S) -> (r: Result<(A, B), Error>) {
        let ghost s = old(src).remaining();
        proof {
            assert(s.skip(0) =~= s);
        }
        let v0 = deserialize_field::<A, S>(src, Ghost(s), Ghost(0nat))?;
        let ghost n0 = A::spec_decode(s)->Ok_0.1;
        let v1 = deserialize_field::<B, S>(src, Ghost(s), Ghost(n0))?;
        Ok((v0, v1))
    }
}

impl<A: SerializeIter, B: SerializeIter, C: SerializeIter> SerializeIter for (A, B, C) {
    open spec fn spec_encode(&self) -> Seq<u8> {
        self.0.spec_encode() + self.1.spec_encode() + self.2.spec_encode()
    }

    open spec fn spec_decode(s: Seq<u8>) -> Result<((A, B, C), nat), Error> {
        match A::spec_decode(s) {
            Err(e) => Err(e),
            Ok((v0, n0)) => match B::spec_decode(s.skip(n0 as int)) {
                Err(e) => Err(e),
                Ok((v1, n1)) => match C::spec_decode(s.skip((n0 + n1) as int)) {
                    Err(e) => Err(e),
                    Ok((v2, n2)) => Ok(((v0, v1, v2), n0 + n1 + n2)),
                },
            },
        }
    }

    open spec fn spec_consumed(s: Seq<u8>) -> nat {
        match A::spec_decode(s) {
            Err(_) => A::spec_consumed(s),
            Ok((_, n0)) => match B::spec_decode(s.skip(n0 as int)) {
                Err(_) => n0 + B::spec_consumed(s.skip(n0 as int)),
                Ok((_, n1)) => match C::spec_decode(s.skip((n0 + n1) as int)) {
                    Err(_) => n0 + n1 + C::spec_consumed(s.skip((n0 + n1) as int)),
                    Ok((_, n2)) => n0 + n1 + n2,
                },
            },
        }
    }

    proof fn lemma_decode_encode(&self, rest: Seq<u8>) {
        let e0 = self.0.spec_encode();
        let e1 = self.1.spec_encode();
        let e2 = self.2.spec_encode();
        let s = self.spec_encode() + rest;
        assert(s =~= e0 + (e1 + e2 + rest));
        self.0.lemma_decode_encode(e1 + e2 + rest);
        assert(s.skip(e0.len() as int) =~= e1 + (e2 + rest));
        self.1.lemma_decode_encode(e2 + rest);
        assert(s.skip((e0.len() + e1.len()) as int) =~= e2 + rest);
        self.2.lemma_decode_encode(rest);
        assert(self.spec_encode().len() == e0.len() + e1.len() + e2.len());
    }

    fn serialize_iter<S: WordSink>(&self, dst: &mut S) -> (r: Result<(), EndOfInput>) {
        let ghost base = old(dst).written();
        let ghost room0 = old(dst).room();
        let ghost e0 = self.0.spec_encode();
        let ghost e1 = self.1.spec_encode();
        let ghost e2 = self.2.spec_encode();
        proof {
            assert(base + Seq::<u8>::empty() =~= base);
        }
        proof {
            assert(Seq::<u8>::empty() + e0 + e1 + e2 =~= self.spec_encode());
        }
        serialize_field(
            &self.0,
            dst,
            Ghost(base),
            Ghost(Seq::<u8>::empty()),
            Ghost(e1 + e2),
            Ghost(room0),
        )?;
        proof {
            assert(e0 + e1 + e2 =~= self.spec_encode());
        }
        serialize_field(
            &self.1,
            dst,
            Ghost(base),
            Ghost(e0),
            Ghost(e2),
            Ghost(room0),
        )?;
        proof {
            assert(e0 + e1 + e2 + Seq::<u8>::empty() =~= self.spec_encode());
        }
        serialize_field(
            &self.2,
            dst,
            Ghost(base),
            Ghost(e0 + e1),
            Ghost(Seq::<u8>::empty()),
            Ghost(room0),
        )?;
        proof {
            assert(base + (e0 + e1 + e2) =~= base + self.spec_encode());
        }
        Ok(())
    }

    fn deserialize_iter<S: WordSource>(src: &mut S) -> (r: Result<(A, B, C), Error>) {
        let ghost s = old(src).remaining();
        proof {
            assert(s.skip(0) =~= s);
        }
        let v0 = deserialize_field::<A, S>(src, Ghost(s), Ghost(0nat))?;
        let ghost n0 = A::spec_decode(s)->Ok_0.1;
        let v1 = deserialize_field::<B, S>(src, Ghost(s), Ghost(n0))?;
        let ghost n1 = B::spec_decode(s.skip(n0 as int))->Ok_0.1;
        let v2 = deserialize_field::<C, S>(src, Ghost(s), Ghost(n0 + n1))?;
        Ok((v0, v1, v2))
    }
}

impl<
    A: SerializeIter,
    B: SerializeIter,
    C: SerializeIter,
    D: SerializeIter,
> SerializeIter for (A, B, C, D) {
    open spec fn spec_encode(&self) -> Seq<u8> {
        self.0.spec_encode() + self.1.spec_encode() + self.2.spec_encode() + self.3.spec_encode()
    }

    open spec fn spec_decode(s: Seq<u8>) -> Result<((A, B, C, D), nat), Error> {
        match A::spec_decode(s) {
            Err(e) => Err(e),
            Ok((v0, n0)) => match B::spec_decode(s.skip(n0 as int)) {
                Err(e) => Err(e),
                Ok((v1, n1)) => match C::spec_decode(s.skip((n0 + n1) as int)) {
                    Err(e) => Err(e),
                    Ok((v2, n2)) => match D::spec_decode(s.skip((n0 + n1 + n2) as int)) {
                        Err(e) => Err(e),
                        Ok((v3, n3)) => Ok(((v0, v1, v2, v3), n0 + n1 + n2 + n3)),
                    },
                },
            },
        }
    }

    open spec fn spec_consumed(s: Seq<u8>) -> nat {
        match A::spec_decode(s) {
            Err(_) => A::spec_consumed(s),
            Ok((_, n0)) => match B::spec_decode(s.skip(n0 as int)) {
                Err(_) => n0 + B::spec_consumed(s.skip(n0 as int)),
                Ok((_, n1)) => match C::spec_decode(s.skip((n0 + n1) as int)) {
                    Err(_) => n0 + n1 + C::spec_consumed(s.skip((n0 + n1) as int)),
                    Ok((_, n2)) => match D::spec_decode(s.skip((n0 + n1 + n2) as int)) {
                        Err(_) => n0 + n1 + n2 + D::spec_consumed(s.skip((n0 + n1 + n2) as int)),
                        Ok((_, n3)) => n0 + n1 + n2 + n3,
                    },
                },
            },
        }
    }

    proof fn lemma_decode_encode(&self, rest: Seq<u8>) {
        let e0 = self.0.spec_encode();
        let e1 = self.1.spec_encode();
        let e2 = self.2.spec_encode();
        let e3 = self.3.spec_encode();
        let s = self.spec_encode() + rest;
        assert(s =~= e0 + (e1 + e2 + e3 + rest));
        self.0.lemma_decode_encode(e1 + e2 + e3 + rest);
        assert(s.skip(e0.len() as int) =~= e1 + (e2 + e3 + rest));
        self.1.lemma_decode_encode(e2 + e3 + rest);
        assert(s.skip((e0.len() + e1.len()) as int) =~= e2 + (e3 + rest));
        self.2.lemma_decode_encode(e3 + rest);
        assert(s.skip((e0.len() + e1.len() + e2.len()) as int) =~= e3 + rest);
        self.3.lemma_decode_encode(rest);
        assert(self.spec_encode().len() == e0.len() + e1.len() + e2.len() + e3.len());
    }

    fn serialize_iter<S: WordSink>(&self, dst: &mut S) -> (r: Result<(), EndOfInput>) {
        let ghost base = old(dst).written();
        let ghost room0 = old(dst).room();
        let ghost e0 = self.0.spec_encode();
        let ghost e1 = self.1.spec_encode();
        let ghost e2 = self.2.spec_encode();
        let ghost e3 = self.3.spec_encode();
        proof {
            assert(base + Seq::<u8>::empty() =~= base);
        }
        proof {
            assert(Seq::<u8>::empty() + e0 + e1 + e2 + e3 =~= self.spec_encode());
        }
        serialize_field(
            &self.0,
            dst,
            Ghost(base),
            Ghost(Seq::<u8>::empty()),
            Ghost(e1 + e2 + e3),
            Ghost(room0),
        )?;
        proof {
            assert(e0 + e1 + e2 + e3 =~= self.spec_encode());
        }
        serialize_field(
            &self.1,
            dst,
            Ghost(base),
            Ghost(e0),
            Ghost(e2 + e3),
            Ghost(room0),
        )?;
        proof {
            assert(e0 + e1 + e2 + e3 =~= self.spec_encode());
        }
        serialize_field(
            &self.2,
            dst,
            Ghost(base),
            Ghost(e0 + e1),
            Ghost(e3),
            Ghost(room0),
        )?;
        proof {
            assert(e0 + e1 + e2 + e3 + Seq::<u8>::empty() =~= self.spec_encode());
        }
        serialize_field(
            &self.3,
            dst,
            Ghost(base),
            Ghost(e0 + e1 + e2),
            Ghost(Seq::<u8>::empty()),
            Ghost(room0),
        )?;
        proof {
            assert(base + (e0 + e1 + e2 + e3) =~= base + self.spec_encode());
        }
        Ok(())
    }

    fn deserialize_iter<S: WordSource>(src: &mut S) -> (r: Result<(A, B, C, D), Error>) {
        let ghost s = old(src).remaining();
        proof {
            assert(s.skip(0) =~= s);
        }
        let v0 = deserialize_field::<A, S>(src, Ghost(s), Ghost(0nat))?;
        let ghost n0 = A::spec_decode(s)->Ok_0.1;
        let v1 = deserialize_field::<B, S>(src, Ghost(s), Ghost(n0))?;
        let ghost n1 = B::spec_decode(s.skip(n0 as int))->Ok_0.1;
        let v2 = deserialize_field::<C, S>(src, Ghost(s), Ghost(n0 + n1))?;
        let ghost n2 = C::spec_decode(s.skip((n0 + n1) as int))->Ok_0.1;
        let v3 = deserialize_field::<D, S>(src, Ghost(s), Ghost(n0 + n1 + n2))?;
        Ok((v0, v1, v2, v3))
    }
}

impl<
    A: SerializeIter,
    B: SerializeIter,
    C: SerializeIter,
    D: SerializeIter,
    E: SerializeIter,
> SerializeIter for (A, B, C, D, E) {
    open spec fn spec_encode(&self) -> Seq<u8> {
        self.0.spec_encode()
            + self.1.spec_encode()
            + self.2.spec_encode()
            + self.3.spec_encode()
            + self.4.spec_encode()
    }

    open spec fn spec_decode(s: Seq<u8>) -> Result<((A, B, C, D, E), nat), Error> {
        match A::spec_decode(s) {
            Err(e) => Err(e),
            Ok((v0, n0)) => match B::spec_decode(s.skip(n0 as int)) {
                Err(e) => Err(e),
                Ok((v1, n1)) => match C::spec_decode(s.skip((n0 + n1) as int)) {
                    Err(e) => Err(e),
                    Ok((v2, n2)) => match D::spec_decode(s.skip((n0 + n1 + n2) as int)) {
                        Err(e) => Err(e),
                        Ok((v3, n3)) => match E::spec_decode(s.skip((n0 + n1 + n2 + n3) as int)) {
                            Err(e) => Err(e),
                            Ok((v4, n4)) => Ok(((v0, v1, v2, v3, v4), n0 + n1 + n2 + n3 + n4)),
                        },
                    },
                },
            },
        }
    }

    open spec fn spec_consumed(s: Seq<u8>) -> nat {
        match A::spec_decode(s) {
            Err(_) => A::spec_consumed(s),
            Ok((_, n0)) => match B::spec_decode(s.skip(n0 as int)) {
                Err(_) => n0 + B::spec_consumed(s.skip(n0 as int)),
                Ok((_, n1)) => match C::spec_decode(s.skip((n0 + n1) as int)) {
                    Err(_) => n0 + n1 + C::spec_consumed(s.skip((n0 + n1) as int)),
                    Ok((_, n2)) => match D::spec_decode(s.skip((n0 + n1 + n2) as int)) {
                        Err(_) => n0 + n1 + n2 + D::spec_consumed(s.skip((n0 + n1 + n2) as int)),
                        Ok((_, n3)) => match E::spec_decode(s.skip((n0 + n1 + n2 + n3) as int)) {
                            Err(_) => n0 + n1 + n2 + n3 + E::spec_consumed(
                                s.skip((n0 + n1 + n2 + n3) as int),
                            ),
                            Ok((_, n4)) => n0 + n1 + n2 + n3 + n4,
                        },
                    },
                },
            },
        }
    }

    proof fn lemma_decode_encode(&self, rest: Seq<u8>) {
        let e0 = self.0.spec_encode();
        let e1 = self.1.spec_encode();
        let e2 = self.2.spec_encode();
        let e3 = self.3.spec_encode();
        let e4 = self.4.spec_encode();
        let s = self.spec_encode() + rest;
        assert(s =~= e0 + (e1 + e2 + e3 + e4 + rest));
        self.0.lemma_decode_encode(e1 + e2 + e3 + e4 + rest);
        assert(s.skip(e0.len() as int) =~= e1 + (e2 + e3 + e4 + rest));
        self.1.lemma_decode_encode(e2 + e3 + e4 + rest);
        assert(s.skip((e0.len() + e1.len()) as int) =~= e2 + (e3 + e4 + rest));
        self.2.lemma_decode_encode(e3 + e4 + rest);
        assert(s.skip((e0.len() + e1.len() + e2.len()) as int) =~= e3 + (e4 + rest));
        self.3.lemma_decode_encode(e4 + rest);
        assert(s.skip((e0.len() + e1.len() + e2.len() + e3.len()) as int) =~= e4 + rest);
        self.4.lemma_decode_encode(rest);
        assert(self.spec_encode().len() == e0.len() + e1.len() + e2.len() + e3.len() + e4.len());
    }

    fn serialize_iter<S: WordSink>(&self, dst: &mut S) -> (r: Result<(), EndOfInput>) {
        let ghost base = old(dst).written();
        let ghost room0 = old(dst).room();
        let ghost e0 = self.0.spec_encode();
        let ghost e1 = self.1.spec_encode();
        let ghost e2 = self.2.spec_encode();
        let ghost e3 = self.3.spec_encode();
        let ghost e4 = self.4.spec_encode();
        proof {
            assert(base + Seq::<u8>::empty() =~= base);
        }
        proof {
            assert(Seq::<u8>::empty() + e0 + e1 + e2 + e3 + e4 =~= self.spec_encode());
        }
        serialize_field(
            &self.0,
            dst,
            Ghost(base),
            Ghost(Seq::<u8>::empty()),
            Ghost(e1 + e2 + e3 + e4),
            Ghost(room0),
        )?;
        proof {
            assert(e0 + e1 + e2 + e3 + e4 =~= self.spec_encode());
        }
        serialize_field(
            &self.1,
            dst,
            Ghost(base),
            Ghost(e0),
            Ghost(e2 + e3 + e4),
            Ghost(room0),
        )?;
        proof {
            assert(e0 + e1 + e2 + e3 + e4 =~= self.spec_encode());
        }
        serialize_field(
            &self.2,
            dst,
            Ghost(base),
            Ghost(e0 + e1),
            Ghost(e3 + e4),
            Ghost(room0),
        )?;
        proof {
            assert(e0 + e1 + e2 + e3 + e4 =~= self.spec_encode());
        }
        serialize_field(
            &self.3,
            dst,
            Ghost(base),
            Ghost(e0 + e1 + e2),
            Ghost(e4),
            Ghost(room0),
        )?;
        proof {
            assert(e0 + e1 + e2 + e3 + e4 + Seq::<u8>::empty() =~= self.spec_encode());
        }
        serialize_field(
            &self.4,
            dst,
            Ghost(base),
            Ghost(e0 + e1 + e2 + e3),
            Ghost(Seq::<u8>::empty()),
            Ghost(room0),
        )?;
        proof {
            assert(base + (e0 + e1 + e2 + e3 + e4) =~= base + self.spec_encode());
        }
        Ok(())
    }

    fn deserialize_iter<S: WordSource>(src: &mut S) -> (r: Result<(A, B, C, D, E), Error>) {
        let ghost s = old(src).remaining();
        proof {
            assert(s.skip(0) =~= s);
        }
        let v0 = deserialize_field::<A, S>(src, Ghost(s), Ghost(0nat))?;
        let ghost n0 = A::spec_decode(s)->Ok_0.1;
        let v1 = deserialize_field::<B, S>(src, Ghost(s), Ghost(n0))?;
        let ghost n1 = B::spec_decode(s.skip(n0 as int))->Ok_0.1;
        let v2 = deserialize_field::<C, S>(src, Ghost(s), Ghost(n0 + n1))?;
        let ghost n2 = C::spec_decode(s.skip((n0 + n1) as int))->Ok_0.1;
        let v3 = deserialize_field::<D, S>(src, Ghost(s), Ghost(n0 + n1 + n2))?;
        let ghost n3 = D::spec_decode(s.skip((n0 + n1 + n2) as int))->Ok_0.1;
        let v4 = deserialize_field::<E, S>(src, Ghost(s), Ghost(n0 + n1 + n2 + n3))?;
        Ok((v0, v1, v2, v3, v4))
    }
}

impl<
    A: SerializeIter,
    B: SerializeIter,
    C: SerializeIter,
    D: SerializeIter,
    E: SerializeIter,
    F: SerializeIter,
> SerializeIter for (A, B, C, D, E, F) {
    open spec fn spec_encode(&self) -> Seq<u8> {
        self.0.spec_encode()
            + self.1.spec_encode()
            + self.2.spec_encode()
            + self.3.spec_encode()
            + self.4.spec_encode()
            + self.5.spec_encode()
    }

    open spec fn spec_decode(s: Seq<u8>) -> Result<((A, B, C, D, E, F), nat), Error> {
        match A::spec_decode(s) {
            Err(e) => Err(e),
            Ok((v0, n0)) => match B::spec_decode(s.skip(n0 as int)) {
                Err(e) => Err(e),
                Ok((v1, n1)) => match C::spec_decode(s.skip((n0 + n1) as int)) {
                    Err(e) => Err(e),
                    Ok((v2, n2)) => match D::spec_decode(s.skip((n0 + n1 + n2) as int)) {
                        Err(e) => Err(e),
                        Ok((v3, n3)) => match E::spec_decode(s.skip((n0 + n1 + n2 + n3) as int)) {
                            Err(e) => Err(e),
                            Ok((v4, n4)) => match F::spec_decode(
                                s.skip((n0 + n1 + n2 + n3 + n4) as int),
                            ) {
                                Err(e) => Err(e),
                                Ok((v5, n5)) => Ok(
                                    ((v0, v1, v2, v3, v4, v5), n0 + n1 + n2 + n3 + n4 + n5),
                                ),
                            },
                        },
                    },
                },
            },
        }
    }

    open spec fn spec_consumed(s: Seq<u8>) -> nat {
        match A::spec_decode(s) {
            Err(_) => A::spec_consumed(s),
            Ok((_, n0)) => match B::spec_decode(s.skip(n0 as int)) {
                Err(_) => n0 + B::spec_consumed(s.skip(n0 as int)),
                Ok((_, n1)) => match C::spec_decode(s.skip((n0 + n1) as int)) {
                    Err(_) => n0 + n1 + C::spec_consumed(s.skip((n0 + n1) as int)),
                    Ok((_, n2)) => match D::spec_decode(s.skip((n0 + n1 + n2) as int)) {
                        Err(_) => n0 + n1 + n2 + D::spec_consumed(s.skip((n0 + n1 + n2) as int)),
                        Ok((_, n3)) => match E::spec_decode(s.skip((n0 + n1 + n2 + n3) as int)) {
                            Err(_) => n0 + n1 + n2 + n3 + E::spec_consumed(
                                s.skip((n0 + n1 + n2 + n3) as int),
                            ),
                            Ok((_, n4)) => match F::spec_decode(
                                s.skip((n0 + n1 + n2 + n3 + n4) as int),
                            ) {
                                Err(_) => n0 + n1 + n2 + n3 + n4 + F::spec_consumed(
                                    s.skip((n0 + n1 + n2 + n3 + n4) as int),
                                ),
                                Ok((_, n5)) => n0 + n1 + n2 + n3 + n4 + n5,
                            },
                        },
                    },
                },
            },
        }
    }

    proof fn lemma_decode_encode(&self, rest: Seq<u8>) {
        let e0 = self.0.spec_encode();
        let e1 = self.1.spec_encode();
        let e2 = self.2.spec_encode();
        let e3 = self.3.spec_encode();
        let e4 = self.4.spec_encode();
        let e5 = self.5.spec_encode();
        let s = self.spec_encode() + rest;
        assert(s =~= e0 + (e1 + e2 + e3 + e4 + e5 + rest));
        self.0.lemma_decode_encode(e1 + e2 + e3 + e4 + e5 + rest);
        assert(s.skip(e0.len() as int) =~= e1 + (e2 + e3 + e4 + e5 + rest));
        self.1.lemma_decode_encode(e2 + e3 + e4 + e5 + rest);
        assert(s.skip((e0.len() + e1.len()) as int) =~= e2 + (e3 + e4 + e5 + rest));
        self.2.lemma_decode_encode(e3 + e4 + e5 + rest);
        assert(s.skip((e0.len() + e1.len() + e2.len()) as int) =~= e3 + (e4 + e5 + rest));
        self.3.lemma_decode_encode(e4 + e5 + rest);
        assert(s.skip((e0.len() + e1.len() + e2.len() + e3.len()) as int) =~= e4 + (e5 + rest));
        self.4.lemma_decode_encode(e5 + rest);
        assert(s.skip((e0.len() + e1.len() + e2.len() + e3.len() + e4.len()) as int) =~= e5 + rest);
        self.5.lemma_decode_encode(rest);
        assert(self.spec_encode().len() == e0.len()
            + e1.len()
            + e2.len()
            + e3.len()
            + e4.len()
            + e5.len());
    }

    fn serialize_iter<S: WordSink>(&self, dst: &mut S) -> (r: Result<(), EndOfInput>) {
        let ghost base = old(dst).written();
        let ghost room0 = old(dst).room();
        let ghost e0 = self.0.spec_encode();
        let ghost e1 = self.1.spec_encode();
        let ghost e2 = self.2.spec_encode();
        let ghost e3 = self.3.spec_encode();
        let ghost e4 = self.4.spec_encode();
        let ghost e5 = self.5.spec_encode();
        proof {
            assert(base + Seq::<u8>::empty() =~= base);
        }
        proof {
            assert(Seq::<u8>::empty() + e0 + e1 + e2 + e3 + e4 + e5 =~= self.spec_encode());
        }
        serialize_field(
            &self.0,
            dst,
            Ghost(base),
            Ghost(Seq::<u8>::empty()),
            Ghost(e1 + e2 + e3 + e4 + e5),
            Ghost(room0),
        )?;
        proof {
            assert(e0 + e1 + e2 + e3 + e4 + e5 =~= self.spec_encode());
        }
        serialize_field(
            &self.1,
            dst,
            Ghost(base),
            Ghost(e0),
            Ghost(e2 + e3 + e4 + e5),
            Ghost(room0),
        )?;
        proof {
            assert(e0 + e1 + e2 + e3 + e4 + e5 =~= self.spec_encode());
        }
        serialize_field(
            &self.2,
            dst,
            Ghost(base),
            Ghost(e0 + e1),
            Ghost(e3 + e4 + e5),
            Ghost(room0),
        )?;
        proof {
            assert(e0 + e1 + e2 + e3 + e4 + e5 =~= self.spec_encode());
        }
        serialize_field(
            &self.3,
            dst,
            Ghost(base),
            Ghost(e0 + e1 + e2),
            Ghost(e4 + e5),
            Ghost(room0),
        )?;
        proof {
            assert(e0 + e1 + e2 + e3 + e4 + e5 =~= self.spec_encode());
        }
        serialize_field(
            &self.4,
            dst,
            Ghost(base),
            Ghost(e0 + e1 + e2 + e3),
            Ghost(e5),
            Ghost(room0),
        )?;
        proof {
            assert(e0 + e1 + e2 + e3 + e4 + e5 + Seq::<u8>::empty() =~= self.spec_encode());
        }
        serialize_field(
            &self.5,
            dst,
            Ghost(base),
            Ghost(e0 + e1 + e2 + e3 + e4),
            Ghost(Seq::<u8>::empty()),
            Ghost(room0),
        )?;
        proof {
            assert(base + (e0 + e1 + e2 + e3 + e4 + e5) =~= base + self.spec_encode());
        }
        Ok(())
    }

    fn deserialize_iter<S: WordSource>(src: &mut S) -> (r: Result<(A, B, C, D, E, F), Error>) {
        let ghost s = old(src).remaining();
        proof {
            assert(s.skip(0) =~= s);
        }
        let v0 = deserialize_field::<A, S>(src, Ghost(s), Ghost(0nat))?;
        let ghost n0 = A::spec_decode(s)->Ok_0.1;
        let v1 = deserialize_field::<B, S>(src, Ghost(s), Ghost(n0))?;
        let ghost n1 = B::spec_decode(s.skip(n0 as int))->Ok_0.1;
        let v2 = deserialize_field::<C, S>(src, Ghost(s), Ghost(n0 + n1))?;
        let ghost n2 = C::spec_decode(s.skip((n0 + n1) as int))->Ok_0.1;
        let v3 = deserialize_field::<D, S>(src, Ghost(s), Ghost(n0 + n1 + n2))?;
        let ghost n3 = D::spec_decode(s.skip((n0 + n1 + n2) as int))->Ok_0.1;
        let v4 = deserialize_field::<E, S>(src, Ghost(s), Ghost(n0 + n1 + n2 + n3))?;
        let ghost n4 = E::spec_decode(s.skip((n0 + n1 + n2 + n3) as int))->Ok_0.1;
        let v5 = deserialize_field::<F, S>(src, Ghost(s), Ghost(n0 + n1 + n2 + n3 + n4))?;
        Ok((v0, v1, v2, v3, v4, v5))
    }
}

impl<
    A: SerializeIter,
    B: SerializeIter,
    C: SerializeIter,
    D: SerializeIter,
    E: SerializeIter,
    F: SerializeIter,
    G: SerializeIter,
> SerializeIter for (A, B, C, D, E, F, G) {
    open spec fn spec_encode(&self) -> Seq<u8> {
        self.0.spec_encode()
            + self.1.spec_encode()
            + self.2.spec_encode()
            + self.3.spec_encode()
            + self.4.spec_encode()
            + self.5.spec_encode()
            + self.6.spec_encode()
    }

    open spec fn spec_decode(s: Seq<u8>) -> Result<((A, B, C, D, E, F, G), nat), Error> {
        match A::spec_decode(s) {
            Err(e) => Err(e),
            Ok((v0, n0)) => match B::spec_decode(s.skip(n0 as int)) {
                Err(e) => Err(e),
                Ok((v1, n1)) => match C::spec_decode(s.skip((n0 + n1) as int)) {
                    Err(e) => Err(e),
                    Ok((v2, n2)) => match D::spec_decode(s.skip((n0 + n1 + n2) as int)) {
                        Err(e) => Err(e),
                        Ok((v3, n3)) => match E::spec_decode(s.skip((n0 + n1 + n2 + n3) as int)) {
                            Err(e) => Err(e),
                            Ok((v4, n4)) => match F::spec_decode(
                                s.skip((n0 + n1 + n2 + n3 + n4) as int),
                            ) {
                                Err(e) => Err(e),
                                Ok((v5, n5)) => match G::spec_decode(
                                    s.skip((n0 + n1 + n2 + n3 + n4 + n5) as int),
                                ) {
                                    Err(e) => Err(e),
                                    Ok((v6, n6)) => Ok(
                                        (
                                            (v0, v1, v2, v3, v4, v5, v6),
                                            n0 + n1 + n2 + n3 + n4 + n5 + n6,
                                        ),
                                    ),
                                },
                            },
                        },
                    },
                },
            },
        }
    }

    open spec fn spec_consumed(s: Seq<u8>) -> nat {
        match A::spec_decode(s) {
            Err(_) => A::spec_consumed(s),
            Ok((_, n0)) => match B::spec_decode(s.skip(n0 as int)) {
                Err(_) => n0 + B::spec_consumed(s.skip(n0 as int)),
                Ok((_, n1)) => match C::spec_decode(s.skip((n0 + n1) as int)) {
                    Err(_) => n0 + n1 + C::spec_consumed(s.skip((n0 + n1) as int)),
                    Ok((_, n2)) => match D::spec_decode(s.skip((n0 + n1 + n2) as int)) {
                        Err(_) => n0 + n1 + n2 + D::spec_consumed(s.skip((n0 + n1 + n2) as int)),
                        Ok((_, n3)) => match E::spec_decode(s.skip((n0 + n1 + n2 + n3) as int)) {
                            Err(_) => n0 + n1 + n2 + n3 + E::spec_consumed(
                                s.skip((n0 + n1 + n2 + n3) as int),
                            ),
                            Ok((_, n4)) => match F::spec_decode(
                                s.skip((n0 + n1 + n2 + n3 + n4) as int),
                            ) {
                                Err(_) => n0 + n1 + n2 + n3 + n4 + F::spec_consumed(
                                    s.skip((n0 + n1 + n2 + n3 + n4) as int),
                                ),
                                Ok((_, n5)) => match G::spec_decode(
                                    s.skip((n0 + n1 + n2 + n3 + n4 + n5) as int),
                                ) {
                                    Err(_) => n0 + n1 + n2 + n3 + n4 + n5 + G::spec_consumed(
                                        s.skip((n0 + n1 + n2 + n3 + n4 + n5) as int),
                                    ),
                                    Ok((_, n6)) => n0 + n1 + n2 + n3 + n4 + n5 + n6,
                                },
                            },
                        },
                    },
                },
            },
        }
    }

    proof fn lemma_decode_encode(&self, rest: Seq<u8>) {
        let e0 = self.0.spec_encode();
        let e1 = self.1.spec_encode();
        let e2 = self.2.spec_encode();
        let e3 = self.3.spec_encode();
        let e4 = self.4.spec_encode();
        let e5 = self.5.spec_encode();
        let e6 = self.6.spec_encode();
        let s = self.spec_encode() + rest;
        assert(s =~= e0 + (e1 + e2 + e3 + e4 + e5 + e6 + rest));
        self.0.lemma_decode_encode(e1 + e2 + e3 + e4 + e5 + e6 + rest);
        assert(s.skip(e0.len() as int) =~= e1 + (e2 + e3 + e4 + e5 + e6 + rest));
        self.1.lemma_decode_encode(e2 + e3 + e4 + e5 + e6 + rest);
        assert(s.skip((e0.len() + e1.len()) as int) =~= e2 + (e3 + e4 + e5 + e6 + rest));
        self.2.lemma_decode_encode(e3 + e4 + e5 + e6 + rest);
        assert(s.skip((e0.len() + e1.len() + e2.len()) as int) =~= e3 + (e4 + e5 + e6 + rest));
        self.3.lemma_decode_encode(e4 + e5 + e6 + rest);
        assert(s.skip((e0.len() + e1.len() + e2.len() + e3.len()) as int)
            =~= e4 + (e5 + e6 + rest));
        self.4.lemma_decode_encode(e5 + e6 + rest);
        assert(s.skip((e0.len() + e1.len() + e2.len() + e3.len() + e4.len()) as int)
            =~= e5 + (e6 + rest));
        self.5.lemma_decode_encode(e6 + rest);
        assert(s.skip((e0.len() + e1.len() + e2.len() + e3.len() + e4.len() + e5.len()) as int)
            =~= e6 + rest);
        self.6.lemma_decode_encode(rest);
        assert(self.spec_encode().len() == e0.len()
            + e1.len()
            + e2.len()
            + e3.len()
            + e4.len()
            + e5.len()
            + e6.len());
    }

    fn serialize_iter<S: WordSink>(&self, dst: &mut S) -> (r: Result<(), EndOfInput>) {
        let ghost base = old(dst).written();
        let ghost room0 = old(dst).room();
        let ghost e0 = self.0.spec_encode();
        let ghost e1 = self.1.spec_encode();
        let ghost e2 = self.2.spec_encode();
        let ghost e3 = self.3.spec_encode();
        let ghost e4 = self.4.spec_encode();
        let ghost e5 = self.5.spec_encode();
        let ghost e6 = self.6.spec_encode();
        proof {
            assert(base + Seq::<u8>::empty() =~= base);
        }
        proof {
            assert(Seq::<u8>::empty() + e0 + e1 + e2 + e3 + e4 + e5 + e6 =~= self.spec_encode());
        }
        serialize_field(
            &self.0,
            dst,
            Ghost(base),
            Ghost(Seq::<u8>::empty()),
            Ghost(e1 + e2 + e3 + e4 + e5 + e6),
            Ghost(room0),
        )?;
        proof {
            assert(e0 + e1 + e2 + e3 + e4 + e5 + e6 =~= self.spec_encode());
        }
        serialize_field(
            &self.1,
            dst,
            Ghost(base),
            Ghost(e0),
            Ghost(e2 + e3 + e4 + e5 + e6),
            Ghost(room0),
        )?;
        proof {
            assert(e0 + e1 + e2 + e3 + e4 + e5 + e6 =~= self.spec_encode());
        }
        serialize_field(
            &self.2,
            dst,
            Ghost(base),
            Ghost(e0 + e1),
            Ghost(e3 + e4 + e5 + e6),
            Ghost(room0),
        )?;
        proof {
            assert(e0 + e1 + e2 + e3 + e4 + e5 + e6 =~= self.spec_encode());
        }
        serialize_field(
            &self.3,
            dst,
            Ghost(base),
            Ghost(e0 + e1 + e2),
            Ghost(e4 + e5 + e6),
            Ghost(room0),
        )?;
        proof {
            assert(e0 + e1 + e2 + e3 + e4 + e5 + e6 =~= self.spec_encode());
        }
        serialize_field(
            &self.4,
            dst,
            Ghost(base),
            Ghost(e0 + e1 + e2 + e3),
            Ghost(e5 + e6),
            Ghost(room0),
        )?;
        proof {
            assert(e0 + e1 + e2 + e3 + e4 + e5 + e6 =~= self.spec_encode());
        }
        serialize_field(
            &self.5,
            dst,
            Ghost(base),
            Ghost(e0 + e1 + e2 + e3 + e4),
            Ghost(e6),
            Ghost(room0),
        )?;
        proof {
            assert(e0 + e1 + e2 + e3 + e4 + e5 + e6 + Seq::<u8>::empty() =~= self.spec_encode());
        }
        serialize_field(
            &self.6,
            dst,
            Ghost(base),
            Ghost(e0 + e1 + e2 + e3 + e4 + e5),
            Ghost(Seq::<u8>::empty()),
            Ghost(room0),
        )?;
        proof {
            assert(base + (e0 + e1 + e2 + e3 + e4 + e5 + e6) =~= base + self.spec_encode());
        }
        Ok(())
    }

    fn deserialize_iter<S: WordSource>(src: &mut S) -> (r: Result<(A, B, C, D, E, F, G), Error>) {
        let ghost s = old(src).remaining();
        proof {
            assert(s.skip(0) =~= s);
        }
        let v0 = deserialize_field::<A, S>(src, Ghost(s), Ghost(0nat))?;
        let ghost n0 = A::spec_decode(s)->Ok_0.1;
        let v1 = deserialize_field::<B, S>(src, Ghost(s), Ghost(n0))?;
        let ghost n1 = B::spec_decode(s.skip(n0 as int))->Ok_0.1;
        let v2 = deserialize_field::<C, S>(src, Ghost(s), Ghost(n0 + n1))?;
        let ghost n2 = C::spec_decode(s.skip((n0 + n1) as int))->Ok_0.1;
        let v3 = deserialize_field::<D, S>(src, Ghost(s), Ghost(n0 + n1 + n2))?;
        let ghost n3 = D::spec_decode(s.skip((n0 + n1 + n2) as int))->Ok_0.1;
        let v4 = deserialize_field::<E, S>(src, Ghost(s), Ghost(n0 + n1 + n2 + n3))?;
        let ghost n4 = E::spec_decode(s.skip((n0 + n1 + n2 + n3) as int))->Ok_0.1;
        let v5 = deserialize_field::<F, S>(src, Ghost(s), Ghost(n0 + n1 + n2 + n3 + n4))?;
        let ghost n5 = F::spec_decode(s.skip((n0 + n1 + n2 + n3 + n4) as int))->Ok_0.1;
        let v6 = deserialize_field::<G, S>(src, Ghost(s), Ghost(n0 + n1 + n2 + n3 + n4 + n5))?;
        Ok((v0, v1, v2, v3, v4, v5, v6))
    }
}

} // verus!
