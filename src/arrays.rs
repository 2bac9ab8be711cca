use crate::codec::{deserialize_field, serialize_field, SerializeIter};
use crate::error::{EndOfInput, Error};
use crate::medium::{WordSink, WordSource};
use vstd::array::{axiom_spec_array_update, spec_array_update};
use vstd::pervasive::arbitrary;
use vstd::prelude::*;

verus! {

/// The encodings of `s`'s elements, one after another.
pub open spec fn encode_all<T: SerializeIter>(s: Seq<T>) -> Seq<u8>
    decreases s.len(),
{
    if s.len() == 0 {
        Seq::empty()
    } else {
        encode_all(s.drop_last()) + s.last().spec_encode()
    }
}

/// Decoding `k` elements one after another from the front of `s`.
pub open spec fn decode_all<T: SerializeIter>(s: Seq<u8>, k: nat) -> Result<(Seq<T>, nat), Error>
    decreases k,
{
    if k == 0 {
        Ok((Seq::empty(), 0))
    } else {
        match decode_all::<T>(s, (k - 1) as nat) {
            Err(e) => Err(e),
            Ok((vs, n)) => match T::spec_decode(s.skip(n as int)) {
                Err(e) => Err(e),
                Ok((v, m)) => Ok((vs.push(v), n + m)),
            },
        }
    }
}

/// How many words decoding `k` elements from the front of `s` reads before
/// it gives up.
pub open spec fn consumed_all<T: SerializeIter>(s: Seq<u8>, k: nat) -> nat
    decreases k,
{
    if k == 0 {
        0
    } else {
        match decode_all::<T>(s, (k - 1) as nat) {
            Err(_) => consumed_all::<T>(s, (k - 1) as nat),
            Ok((_, n)) => match T::spec_decode(s.skip(n as int)) {
                Err(_) => n + T::spec_consumed(s.skip(n as int)),
                Ok((_, m)) => n + m,
            },
        }
    }
}

/// An array whose first `k` slots hold the first `k` elements of `vs`.
pub open spec fn array_prefix<T, const N: usize>(vs: Seq<T>, k: nat) -> [T; N]
    decreases k,
{
    if k == 0 {
        arbitrary()
    } else {
        spec_array_update(array_prefix::<T, N>(vs, (k - 1) as nat), k - 1, vs[k - 1])
    }
}

/// The array holding the `N` elements of `vs`, in order.
pub open spec fn array_of<T, const N: usize>(vs: Seq<T>) -> [T; N] {
    array_prefix::<T, N>(vs, N as nat)
}

proof fn lemma_array_prefix<T, const N: usize>(vs: Seq<T>, k: nat)
    requires
        k <= N,
        k <= vs.len(),
    ensures
        array_prefix::<T, N>(vs, k)@.len() == N,
        forall|i: int| 0 <= i < k ==> array_prefix::<T, N>(vs, k)@[i] == vs[i],
    decreases k,
{
    if k > 0 {
        lemma_array_prefix::<T, N>(vs, (k - 1) as nat);
        axiom_spec_array_update(array_prefix::<T, N>(vs, (k - 1) as nat), k - 1, vs[k - 1]);
    }
}

/// The array made of `N` elements holds exactly those elements.
pub proof fn lemma_array_of<T, const N: usize>(vs: Seq<T>)
    requires
        vs.len() == N,
    ensures
        array_of::<T, N>(vs)@ == vs,
{
    lemma_array_prefix::<T, N>(vs, N as nat);
    assert(array_of::<T, N>(vs)@ =~= vs);
}

proof fn lemma_decode_all_len<T: SerializeIter>(s: Seq<u8>, k: nat)
    ensures
        decode_all::<T>(s, k) is Ok ==> decode_all::<T>(s, k)->Ok_0.0.len() == k,
    decreases k,
{
    if k > 0 {
        lemma_decode_all_len::<T>(s, (k - 1) as nat);
    }
}

/// A decoded array holds exactly the elements decoded one after another.
pub proof fn lemma_decoded_array<T: SerializeIter, const N: usize>(s: Seq<u8>)
    requires
        decode_all::<T>(s, N as nat) is Ok,
    ensures
        <[T; N]>::spec_decode(s) is Ok,
        <[T; N]>::spec_decode(s)->Ok_0.0@ == decode_all::<T>(s, N as nat)->Ok_0.0,
{
    lemma_decode_all_len::<T>(s, N as nat);
    lemma_array_of::<T, N>(decode_all::<T>(s, N as nat)->Ok_0.0);
}

proof fn lemma_encode_all_concat<T: SerializeIter>(x: Seq<T>, y: Seq<T>)
    ensures
        encode_all(x + y) == encode_all(x) + encode_all(y),
    decreases y.len(),
{
    if y.len() == 0 {
        assert(x + y =~= x);
        assert(encode_all(x) + encode_all(y) =~= encode_all(x));
    } else {
        assert((x + y).drop_last() =~= x + y.drop_last());
        lemma_encode_all_concat(x, y.drop_last());
        assert(encode_all(x + y) =~= encode_all(x) + encode_all(y));
    }
}

proof fn lemma_decode_all_encode<T: SerializeIter>(v: Seq<T>, k: nat, t: Seq<u8>)
    requires
        k <= v.len(),
    ensures
        decode_all::<T>(encode_all(v.take(k as int)) + t, k) == Ok::<(Seq<T>, nat), Error>(
            (v.take(k as int), encode_all(v.take(k as int)).len()),
        ),
    decreases k,
{
    if k == 0 {
        assert(v.take(0) =~= Seq::<T>::empty());
    } else {
        let e = v[k - 1].spec_encode();
        let pre = encode_all(v.take(k - 1));
        assert(v.take(k as int).drop_last() =~= v.take(k - 1));
        assert(encode_all(v.take(k as int)) + t =~= pre + (e + t));
        lemma_decode_all_encode(v, (k - 1) as nat, e + t);
        assert((pre + (e + t)).skip(pre.len() as int) =~= e + t);
        v[k - 1].lemma_decode_encode(t);
        assert(v.take(k - 1).push(v[k - 1]) =~= v.take(k as int));
    }
}

proof fn lemma_decode_all_err<T: SerializeIter>(s: Seq<u8>, k: nat, j: nat)
    requires
        k <= j,
        decode_all::<T>(s, k) is Err,
    ensures
        decode_all::<T>(s, j) == decode_all::<T>(s, k),
        consumed_all::<T>(s, j) == consumed_all::<T>(s, k),
    decreases j - k,
{
    if k < j {
        lemma_decode_all_err::<T>(s, k, (j - 1) as nat);
    }
}

/// Relies on std's `TryFrom<Vec<T>> for [T; N]`: it hands back the vector's
/// elements, in order, as an array exactly when the vector holds `N` of them.
#[verifier::external_body]
fn array_from_vec<T, const N: usize>(v: Vec<T>) -> (r: Option<[T; N]>)
    ensures
        r is Some <==> v@.len() == N,
        r is Some ==> r->Some_0@ == v@,
{
    <[T; N]>::try_from(v).ok()
}

/// `N` elements one after another, with no length prefix.
impl<T: SerializeIter, const N: usize> SerializeIter for [T; N] {
    open spec fn spec_encode(&self) -> Seq<u8> {
        encode_all(self@)
    }

    open spec fn spec_decode(s: Seq<u8>) -> Result<([T; N], nat), Error> {
        match decode_all::<T>(s, N as nat) {
            Ok((vs, n)) => Ok((array_of::<T, N>(vs), n)),
            Err(e) => Err(e),
        }
    }

    open spec fn spec_consumed(s: Seq<u8>) -> nat {
        consumed_all::<T>(s, N as nat)
    }

    proof fn lemma_decode_encode(&self, rest: Seq<u8>) {
        assert(self@.take(N as int) =~= self@);
        lemma_decode_all_encode(self@, N as nat, rest);
        lemma_array_of::<T, N>(self@);
        assert(array_of::<T, N>(self@) =~= *self);
    }

    fn serialize_iter<S: WordSink>(&self, dst: &mut S) -> (r: Result<(), EndOfInput>) {
        let ghost base = old(dst).written();
        let ghost room0 = old(dst).room();
        let mut i: usize = 0;
        proof {
            assert(self@.take(0) =~= Seq::<T>::empty());
            assert(base + Seq::<u8>::empty() =~= base);
        }
        while i < N
            invariant
                dst.wf(),
                dst.frame() == old(dst).frame(),
                i <= N,
                base == old(dst).written(),
                room0 == old(dst).room(),
                encode_all(self@.take(i as int)).len() <= room0,
                dst.written() == base + encode_all(self@.take(i as int)),
                dst.room() == room0 - encode_all(self@.take(i as int)).len(),
            decreases N - i,
        {
            let ghost pre = encode_all(self@.take(i as int));
            let ghost post = encode_all(self@.skip(i + 1));
            proof {
                assert(self@.take(i + 1).drop_last() =~= self@.take(i as int));
                assert(self@.take(i + 1) + self@.skip(i + 1) =~= self@);
                lemma_encode_all_concat(self@.take(i + 1), self@.skip(i + 1));
                assert(pre + self@[i as int].spec_encode() + post =~= self.spec_encode());
            }
            let r = serialize_field(
                &self[i],
                dst,
                Ghost(base),
                Ghost(pre),
                Ghost(post),
                Ghost(room0),
            );
            if r.is_err() {
                return r;
            }
            i = i + 1;
        }
        assert(self@.take(N as int) =~= self@);
        Ok(())
    }

    fn deserialize_iter<S: WordSource>(src: &mut S) -> (r: Result<[T; N], Error>) {
        let ghost s = old(src).remaining();
        let ghost mut off: nat = 0;
        let mut items: Vec<T> = Vec::new();
        let mut i: usize = 0;
        proof {
            assert(s.skip(0) =~= s);
        }
        while i < N
            invariant
                src.wf(),
                src.frame() == old(src).frame(),
                i <= N,
                s == old(src).remaining(),
                items@.len() == i,
                decode_all::<T>(s, i as nat) == Ok::<(Seq<T>, nat), Error>((items@, off)),
                off <= s.len(),
                src.remaining() == s.skip(off as int),
            decreases N - i,
        {
            match deserialize_field::<T, S>(src, Ghost(s), Ghost(off)) {
                Ok(v) => {
                    proof {
                        off = off + T::spec_decode(s.skip(off as int))->Ok_0.1;
                    }
                    items.push(v);
                },
                Err(e) => {
                    proof {
                        lemma_decode_all_err::<T>(s, (i + 1) as nat, N as nat);
                    }
                    return Err(e);
                },
            }
            i = i + 1;
        }
        match array_from_vec::<T, N>(items) {
            Some(a) => {
                proof {
                    lemma_array_of::<T, N>(items@);
                    assert(array_of::<T, N>(items@) =~= a);
                }
                Ok(a)
            },
            None => Err(Error::Invalid),
        }
    }
}

} // verus!
