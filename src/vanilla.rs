use crate::codec::{
    decode_le, le_bytes, lemma_decode_le_bytes, lemma_le_bytes_len, lemma_pow256_values, put_le,
    take_le, SerializeBuf, SerializeIter,
};
use crate::encoding::Encoding;
use crate::error::{EndOfInput, Error};
use crate::medium::{WordSink, WordSource};
use core::marker::PhantomData;
use vstd::prelude::*;

verus! {

/// The plain encoding: one-byte words, numbers little-endian at their
/// natural width, `bool` as one word that is `0` or `1`.
pub struct Vanilla;

impl Encoding for Vanilla {
    type Word = u8;
}

impl SerializeIter for u8 {
    open spec fn spec_encode(&self) -> Seq<u8> {
        le_bytes(*self as nat, 1)
    }

    open spec fn spec_decode(s: Seq<u8>) -> Result<(u8, nat), Error> {
        match decode_le(s, 1) {
            Ok((v, n)) => Ok((v as u8, n)),
            Err(e) => Err(e),
        }
    }

    open spec fn spec_consumed(s: Seq<u8>) -> nat {
        if s.len() < 1 {
            s.len()
        } else {
            1
        }
    }

    proof fn lemma_decode_encode(&self, rest: Seq<u8>) {
        lemma_pow256_values();
        lemma_decode_le_bytes(*self as nat, 1, rest);
        lemma_le_bytes_len(*self as nat, 1);
    }

    fn serialize_iter<S: WordSink>(&self, dst: &mut S) -> (r: Result<(), EndOfInput>) {
        proof {
            lemma_pow256_values();
            lemma_le_bytes_len(*self as nat, 1);
        }
        put_le(*self as u64, 1, dst)
    }

    fn deserialize_iter<S: WordSource>(src: &mut S) -> (r: Result<u8, Error>) {
        proof {
            lemma_pow256_values();
        }
        proof {
            assert(src.remaining().skip(src.remaining().len() as int) =~= Seq::<u8>::empty());
        }
        match take_le(1, src) {
            Ok(v) => Ok(v as u8),
            Err(e) => Err(e),
        }
    }
}

impl SerializeBuf for u8 {
    open spec fn spec_exact_len() -> nat {
        1
    }

    fn exact_len() -> (r: usize) {
        1
    }

    proof fn lemma_exact_len(&self) {
        lemma_le_bytes_len(*self as nat, 1);
    }

    proof fn lemma_decode_within(s: Seq<u8>) {
    }
}

impl SerializeIter for u16 {
    open spec fn spec_encode(&self) -> Seq<u8> {
        le_bytes(*self as nat, 2)
    }

    open spec fn spec_decode(s: Seq<u8>) -> Result<(u16, nat), Error> {
        match decode_le(s, 2) {
            Ok((v, n)) => Ok((v as u16, n)),
            Err(e) => Err(e),
        }
    }

    open spec fn spec_consumed(s: Seq<u8>) -> nat {
        if s.len() < 2 {
            s.len()
        } else {
            2
        }
    }

    proof fn lemma_decode_encode(&self, rest: Seq<u8>) {
        lemma_pow256_values();
        lemma_decode_le_bytes(*self as nat, 2, rest);
        lemma_le_bytes_len(*self as nat, 2);
    }

    fn serialize_iter<S: WordSink>(&self, dst: &mut S) -> (r: Result<(), EndOfInput>) {
        proof {
            lemma_pow256_values();
            lemma_le_bytes_len(*self as nat, 2);
        }
        put_le(*self as u64, 2, dst)
    }

    fn deserialize_iter<S: WordSource>(src: &mut S) -> (r: Result<u16, Error>) {
        proof {
            lemma_pow256_values();
        }
        proof {
            assert(src.remaining().skip(src.remaining().len() as int) =~= Seq::<u8>::empty());
        }
        match take_le(2, src) {
            Ok(v) => Ok(v as u16),
            Err(e) => Err(e),
        }
    }
}

impl SerializeBuf for u16 {
    open spec fn spec_exact_len() -> nat {
        2
    }

    fn exact_len() -> (r: usize) {
        2
    }

    proof fn lemma_exact_len(&self) {
        lemma_le_bytes_len(*self as nat, 2);
    }

    proof fn lemma_decode_within(s: Seq<u8>) {
    }
}

impl SerializeIter for u32 {
    open spec fn spec_encode(&self) -> Seq<u8> {
        le_bytes(*self as nat, 4)
    }

    open spec fn spec_decode(s: Seq<u8>) -> Result<(u32, nat), Error> {
        match decode_le(s, 4) {
            Ok((v, n)) => Ok((v as u32, n)),
            Err(e) => Err(e),
        }
    }

    open spec fn spec_consumed(s: Seq<u8>) -> nat {
        if s.len() < 4 {
            s.len()
        } else {
            4
        }
    }

    proof fn lemma_decode_encode(&self, rest: Seq<u8>) {
        lemma_pow256_values();
        lemma_decode_le_bytes(*self as nat, 4, rest);
        lemma_le_bytes_len(*self as nat, 4);
    }

    fn serialize_iter<S: WordSink>(&self, dst: &mut S) -> (r: Result<(), EndOfInput>) {
        proof {
            lemma_pow256_values();
            lemma_le_bytes_len(*self as nat, 4);
        }
        put_le(*self as u64, 4, dst)
    }

    fn deserialize_iter<S: WordSource>(src: &mut S) -> (r: Result<u32, Error>) {
        proof {
            lemma_pow256_values();
        }
        proof {
            assert(src.remaining().skip(src.remaining().len() as int) =~= Seq::<u8>::empty());
        }
        match take_le(4, src) {
            Ok(v) => Ok(v as u32),
            Err(e) => Err(e),
        }
    }
}

impl SerializeBuf for u32 {
    open spec fn spec_exact_len() -> nat {
        4
    }

    fn exact_len() -> (r: usize) {
        4
    }

    proof fn lemma_exact_len(&self) {
        lemma_le_bytes_len(*self as nat, 4);
    }

    proof fn lemma_decode_within(s: Seq<u8>) {
    }
}

impl SerializeIter for u64 {
    open spec fn spec_encode(&self) -> Seq<u8> {
        le_bytes(*self as nat, 8)
    }

    open spec fn spec_decode(s: Seq<u8>) -> Result<(u64, nat), Error> {
        match decode_le(s, 8) {
            Ok((v, n)) => Ok((v as u64, n)),
            Err(e) => Err(e),
        }
    }

    open spec fn spec_consumed(s: Seq<u8>) -> nat {
        if s.len() < 8 {
            s.len()
        } else {
            8
        }
    }

    proof fn lemma_decode_encode(&self, rest: Seq<u8>) {
        lemma_pow256_values();
        lemma_decode_le_bytes(*self as nat, 8, rest);
        lemma_le_bytes_len(*self as nat, 8);
    }

    fn serialize_iter<S: WordSink>(&self, dst: &mut S) -> (r: Result<(), EndOfInput>) {
        proof {
            lemma_pow256_values();
            lemma_le_bytes_len(*self as nat, 8);
        }
        put_le(*self as u64, 8, dst)
    }

    fn deserialize_iter<S: WordSource>(src: &mut S) -> (r: Result<u64, Error>) {
        proof {
            lemma_pow256_values();
        }
        proof {
            assert(src.remaining().skip(src.remaining().len() as int) =~= Seq::<u8>::empty());
        }
        match take_le(8, src) {
            Ok(v) => Ok(v as u64),
            Err(e) => Err(e),
        }
    }
}

impl SerializeBuf for u64 {
    open spec fn spec_exact_len() -> nat {
        8
    }

    fn exact_len() -> (r: usize) {
        8
    }

    proof fn lemma_exact_len(&self) {
        lemma_le_bytes_len(*self as nat, 8);
    }

    proof fn lemma_decode_within(s: Seq<u8>) {
    }
}

impl SerializeIter for i8 {
    open spec fn spec_encode(&self) -> Seq<u8> {
        le_bytes((*self as u8) as nat, 1)
    }

    open spec fn spec_decode(s: Seq<u8>) -> Result<(i8, nat), Error> {
        match decode_le(s, 1) {
            Ok((v, n)) => Ok(((v as u8) as i8, n)),
            Err(e) => Err(e),
        }
    }

    open spec fn spec_consumed(s: Seq<u8>) -> nat {
        if s.len() < 1 {
            s.len()
        } else {
            1
        }
    }

    proof fn lemma_decode_encode(&self, rest: Seq<u8>) {
        lemma_pow256_values();
        let x = *self;
        assert(((x as u8) as i8) == x) by (bit_vector);
        lemma_decode_le_bytes((*self as u8) as nat, 1, rest);
        lemma_le_bytes_len((*self as u8) as nat, 1);
    }

    fn serialize_iter<S: WordSink>(&self, dst: &mut S) -> (r: Result<(), EndOfInput>) {
        proof {
            lemma_pow256_values();
            lemma_le_bytes_len((*self as u8) as nat, 1);
        }
        put_le((*self as u8) as u64, 1, dst)
    }

    fn deserialize_iter<S: WordSource>(src: &mut S) -> (r: Result<i8, Error>) {
        proof {
            lemma_pow256_values();
        }
        proof {
            assert(src.remaining().skip(src.remaining().len() as int) =~= Seq::<u8>::empty());
        }
        match take_le(1, src) {
            Ok(v) => Ok((v as u8) as i8),
            Err(e) => Err(e),
        }
    }
}

impl SerializeBuf for i8 {
    open spec fn spec_exact_len() -> nat {
        1
    }

    fn exact_len() -> (r: usize) {
        1
    }

    proof fn lemma_exact_len(&self) {
        lemma_le_bytes_len((*self as u8) as nat, 1);
    }

    proof fn lemma_decode_within(s: Seq<u8>) {
    }
}

impl SerializeIter for i16 {
    open spec fn spec_encode(&self) -> Seq<u8> {
        le_bytes((*self as u16) as nat, 2)
    }

    open spec fn spec_decode(s: Seq<u8>) -> Result<(i16, nat), Error> {
        match decode_le(s, 2) {
            Ok((v, n)) => Ok(((v as u16) as i16, n)),
            Err(e) => Err(e),
        }
    }

    open spec fn spec_consumed(s: Seq<u8>) -> nat {
        if s.len() < 2 {
            s.len()
        } else {
            2
        }
    }

    proof fn lemma_decode_encode(&self, rest: Seq<u8>) {
        lemma_pow256_values();
        let x = *self;
        assert(((x as u16) as i16) == x) by (bit_vector);
        lemma_decode_le_bytes((*self as u16) as nat, 2, rest);
        lemma_le_bytes_len((*self as u16) as nat, 2);
    }

    fn serialize_iter<S: WordSink>(&self, dst: &mut S) -> (r: Result<(), EndOfInput>) {
        proof {
            lemma_pow256_values();
            lemma_le_bytes_len((*self as u16) as nat, 2);
        }
        put_le((*self as u16) as u64, 2, dst)
    }

    fn deserialize_iter<S: WordSource>(src: &mut S) -> (r: Result<i16, Error>) {
        proof {
            lemma_pow256_values();
        }
        proof {
            assert(src.remaining().skip(src.remaining().len() as int) =~= Seq::<u8>::empty());
        }
        match take_le(2, src) {
            Ok(v) => Ok((v as u16) as i16),
            Err(e) => Err(e),
        }
    }
}

impl SerializeBuf for i16 {
    open spec fn spec_exact_len() -> nat {
        2
    }

    fn exact_len() -> (r: usize) {
        2
    }

    proof fn lemma_exact_len(&self) {
        lemma_le_bytes_len((*self as u16) as nat, 2);
    }

    proof fn lemma_decode_within(s: Seq<u8>) {
    }
}

impl SerializeIter for i32 {
    open spec fn spec_encode(&self) -> Seq<u8> {
        le_bytes((*self as u32) as nat, 4)
    }

    open spec fn spec_decode(s: Seq<u8>) -> Result<(i32, nat), Error> {
        match decode_le(s, 4) {
            Ok((v, n)) => Ok(((v as u32) as i32, n)),
            Err(e) => Err(e),
        }
    }

    open spec fn spec_consumed(s: Seq<u8>) -> nat {
        if s.len() < 4 {
            s.len()
        } else {
            4
        }
    }

    proof fn lemma_decode_encode(&self, rest: Seq<u8>) {
        lemma_pow256_values();
        let x = *self;
        assert(((x as u32) as i32) == x) by (bit_vector);
        lemma_decode_le_bytes((*self as u32) as nat, 4, rest);
        lemma_le_bytes_len((*self as u32) as nat, 4);
    }

    fn serialize_iter<S: WordSink>(&self, dst: &mut S) -> (r: Result<(), EndOfInput>) {
        proof {
            lemma_pow256_values();
            lemma_le_bytes_len((*self as u32) as nat, 4);
        }
        put_le((*self as u32) as u64, 4, dst)
    }

    fn deserialize_iter<S: WordSource>(src: &mut S) -> (r: Result<i32, Error>) {
        proof {
            lemma_pow256_values();
        }
        proof {
            assert(src.remaining().skip(src.remaining().len() as int) =~= Seq::<u8>::empty());
        }
        match take_le(4, src) {
            Ok(v) => Ok((v as u32) as i32),
            Err(e) => Err(e),
        }
    }
}

impl SerializeBuf for i32 {
    open spec fn spec_exact_len() -> nat {
        4
    }

    fn exact_len() -> (r: usize) {
        4
    }

    proof fn lemma_exact_len(&self) {
        lemma_le_bytes_len((*self as u32) as nat, 4);
    }

    proof fn lemma_decode_within(s: Seq<u8>) {
    }
}

impl SerializeIter for i64 {
    open spec fn spec_encode(&self) -> Seq<u8> {
        le_bytes((*self as u64) as nat, 8)
    }

    open spec fn spec_decode(s: Seq<u8>) -> Result<(i64, nat), Error> {
        match decode_le(s, 8) {
            Ok((v, n)) => Ok(((v as u64) as i64, n)),
            Err(e) => Err(e),
        }
    }

    open spec fn spec_consumed(s: Seq<u8>) -> nat {
        if s.len() < 8 {
            s.len()
        } else {
            8
        }
    }

    proof fn lemma_decode_encode(&self, rest: Seq<u8>) {
        lemma_pow256_values();
        let x = *self;
        assert(((x as u64) as i64) == x) by (bit_vector);
        lemma_decode_le_bytes((*self as u64) as nat, 8, rest);
        lemma_le_bytes_len((*self as u64) as nat, 8);
    }

    fn serialize_iter<S: WordSink>(&self, dst: &mut S) -> (r: Result<(), EndOfInput>) {
        proof {
            lemma_pow256_values();
            lemma_le_bytes_len((*self as u64) as nat, 8);
        }
        put_le(*self as u64, 8, dst)
    }

    fn deserialize_iter<S: WordSource>(src: &mut S) -> (r: Result<i64, Error>) {
        proof {
            lemma_pow256_values();
        }
        proof {
            assert(src.remaining().skip(src.remaining().len() as int) =~= Seq::<u8>::empty());
        }
        match take_le(8, src) {
            Ok(v) => Ok((v as u64) as i64),
            Err(e) => Err(e),
        }
    }
}

impl SerializeBuf for i64 {
    open spec fn spec_exact_len() -> nat {
        8
    }

    fn exact_len() -> (r: usize) {
        8
    }

    proof fn lemma_exact_len(&self) {
        lemma_le_bytes_len((*self as u64) as nat, 8);
    }

    proof fn lemma_decode_within(s: Seq<u8>) {
    }
}

impl SerializeIter for bool {
    open spec fn spec_encode(&self) -> Seq<u8> {
        seq![if *self { 1u8 } else { 0u8 }]
    }

    open spec fn spec_decode(s: Seq<u8>) -> Result<(bool, nat), Error> {
        if s.len() == 0 {
            Err(Error::EndOfInput)
        } else if s[0] == 0 {
            Ok((false, 1))
        } else if s[0] == 1 {
            Ok((true, 1))
        } else {
            Err(Error::Invalid)
        }
    }

    open spec fn spec_consumed(s: Seq<u8>) -> nat {
        if s.len() == 0 {
            0
        } else {
            1
        }
    }

    proof fn lemma_decode_encode(&self, rest: Seq<u8>) {
        assert((self.spec_encode() + rest)[0] == self.spec_encode()[0]);
    }

    fn serialize_iter<S: WordSink>(&self, dst: &mut S) -> (r: Result<(), EndOfInput>) {
        let r = dst.put(if *self { 1 } else { 0 });
        proof {
            if r is Err {
                assert(self.spec_encode().take(0) =~= Seq::<u8>::empty());
                assert(old(dst).written() + Seq::<u8>::empty() =~= old(dst).written());
            }
        }
        r
    }

    fn deserialize_iter<S: WordSource>(src: &mut S) -> (r: Result<bool, Error>) {
        proof {
            assert(src.remaining().skip(0) =~= src.remaining());
            if src.remaining().len() > 0 {
                assert(src.remaining().skip(1) =~= src.remaining().drop_first());
            }
        }
        match src.next_word() {
            None => Err(Error::EndOfInput),
            Some(0) => Ok(false),
            Some(1) => Ok(true),
            Some(_) => Err(Error::Invalid),
        }
    }
}

impl SerializeBuf for bool {
    open spec fn spec_exact_len() -> nat {
        1
    }

    fn exact_len() -> (r: usize) {
        1
    }

    proof fn lemma_exact_len(&self) {
    }

    proof fn lemma_decode_within(s: Seq<u8>) {
    }
}

/// A zero-sized marker: no words either way.
impl<T> SerializeIter for PhantomData<T> {
    open spec fn spec_encode(&self) -> Seq<u8> {
        Seq::empty()
    }

    open spec fn spec_decode(s: Seq<u8>) -> Result<(PhantomData<T>, nat), Error> {
        Ok((PhantomData, 0))
    }

    open spec fn spec_consumed(s: Seq<u8>) -> nat {
        0
    }

    proof fn lemma_decode_encode(&self, rest: Seq<u8>) {
    }

    fn serialize_iter<S: WordSink>(&self, dst: &mut S) -> (r: Result<(), EndOfInput>) {
        assert(old(dst).written() + Seq::<u8>::empty() =~= old(dst).written());
        Ok(())
    }

    fn deserialize_iter<S: WordSource>(src: &mut S) -> (r: Result<PhantomData<T>, Error>) {
        assert(src.remaining().skip(0) =~= src.remaining());
        Ok(PhantomData)
    }
}

impl<T> SerializeBuf for PhantomData<T> {
    open spec fn spec_exact_len() -> nat {
        0
    }

    fn exact_len() -> (r: usize) {
        0
    }

    proof fn lemma_exact_len(&self) {
    }

    proof fn lemma_decode_within(s: Seq<u8>) {
    }
}

} // verus!
