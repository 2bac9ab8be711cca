use crate::codec::{decode_le, take_le};
use crate::error::{Error, Invalid};
use crate::medium::WordSource;
use vstd::prelude::*;

verus! {

/// The tag of variant `i` of a tagged union whose variants declare the tags
/// `declared` (`None` where a variant declares none): a declared tag stands
/// as it is, and a variant without one takes its predecessor's tag plus one,
/// the first variant `0`.
pub open spec fn resolved_tag(declared: Seq<Option<u64>>, i: nat) -> int
    decreases i,
{
    match declared[i as int] {
        Some(t) => t as int,
        None => if i == 0 {
            0
        } else {
            resolved_tag(declared, (i - 1) as nat) + 1
        },
    }
}

/// The sum of `s`.
pub open spec fn sum(s: Seq<usize>) -> int
    decreases s.len(),
{
    if s.len() == 0 {
        0
    } else {
        sum(s.drop_last()) + s.last()
    }
}

/// The largest field-length sum over `variants`, or `0` where there is none.
pub open spec fn max_sum(variants: Seq<Seq<usize>>) -> int
    decreases variants.len(),
{
    if variants.len() == 0 {
        0
    } else {
        let m = max_sum(variants.drop_last());
        let l = sum(variants.last());
        if l > m {
            l
        } else {
            m
        }
    }
}

proof fn lemma_sum_nonneg(s: Seq<usize>)
    ensures
        sum(s) >= 0,
    decreases s.len(),
{
    if s.len() > 0 {
        lemma_sum_nonneg(s.drop_last());
    }
}

proof fn lemma_sum_prefix_mono(s: Seq<usize>, i: int, j: int)
    requires
        0 <= i <= j <= s.len(),
    ensures
        sum(s.take(i)) <= sum(s.take(j)),
    decreases j - i,
{
    if i < j {
        lemma_sum_prefix_mono(s, i, j - 1);
        assert(s.take(j).drop_last() =~= s.take(j - 1));
    }
}

/// Resolves the tag of every variant, in order. `None` where a tag would
/// exceed `max_tag`, the largest value of the tag's type.
pub fn build_tags(declared: &[Option<u64>], max_tag: u64) -> (r: Option<Vec<u64>>)
    ensures
        r is Some <==> forall|i: nat|
            i < declared@.len() ==> #[trigger] resolved_tag(declared@, i) <= max_tag,
        r is Some ==> r->Some_0@.len() == declared@.len() && forall|i: nat|
            i < declared@.len() ==> r->Some_0@[i as int] == #[trigger] resolved_tag(declared@, i),
{
    let mut tags: Vec<u64> = Vec::new();
    let mut i: usize = 0;
    while i < declared.len()
        invariant
            i <= declared@.len(),
            tags@.len() == i,
            forall|j: nat| j < i ==> tags@[j as int] == #[trigger] resolved_tag(declared@, j),
            forall|j: nat| j < i ==> #[trigger] resolved_tag(declared@, j) <= max_tag,
        decreases declared@.len() - i,
    {
        let tag = match declared[i] {
            Some(t) => t,
            None => {
                assert(i > 0 ==> tags@[i - 1] == resolved_tag(declared@, (i - 1) as nat));
                if i == 0 {
                    0
                } else if tags[i - 1] < max_tag {
                    tags[i - 1] + 1
                } else {
                    assert(resolved_tag(declared@, i as nat) > max_tag);
                    return None;
                }
            },
        };
        if tag > max_tag {
            assert(resolved_tag(declared@, i as nat) > max_tag);
            return None;
        }
        assert(tag == resolved_tag(declared@, i as nat));
        tags.push(tag);
        i = i + 1;
    }
    Some(tags)
}

/// The exact length of a record: the sum of its fields' exact lengths.
/// `None` where that does not fit a `usize`.
pub fn size_of_struct(fields: &[usize]) -> (r: Option<usize>)
    ensures
        r is Some <==> sum(fields@) <= usize::MAX,
        r is Some ==> r->Some_0 == sum(fields@),
{
    let mut total: usize = 0;
    let mut i: usize = 0;
    while i < fields.len()
        invariant
            i <= fields@.len(),
            total == sum(fields@.take(i as int)),
        decreases fields@.len() - i,
    {
        assert(fields@.take(i + 1).drop_last() =~= fields@.take(i as int));
        if fields[i] > usize::MAX - total {
            proof {
                lemma_sum_prefix_mono(fields@, i + 1, fields@.len() as int);
                assert(fields@.take(fields@.len() as int) =~= fields@);
            }
            return None;
        }
        total = total + fields[i];
        i = i + 1;
    }
    assert(fields@.take(fields@.len() as int) =~= fields@);
    Some(total)
}

/// The exact length of a tagged union: the tag's length plus the largest
/// sum of one variant's field lengths, so that one buffer fits every
/// variant. `None` where that does not fit a `usize`.
pub fn size_of_enum(tag_len: usize, variants: &[Vec<usize>]) -> (r: Option<usize>)
    ensures
        r is Some <==> tag_len + max_sum(variants@.map_values(|v: Vec<usize>| v@)) <= usize::MAX,
        r is Some ==> r->Some_0 == tag_len + max_sum(variants@.map_values(|v: Vec<usize>| v@)),
{
    let ghost vs = variants@.map_values(|v: Vec<usize>| v@);
    let mut max: usize = 0;
    let mut i: usize = 0;
    while i < variants.len()
        invariant
            i <= variants@.len(),
            vs == variants@.map_values(|v: Vec<usize>| v@),
            max == max_sum(vs.take(i as int)),
        decreases variants@.len() - i,
    {
        assert(vs.take(i + 1).drop_last() =~= vs.take(i as int));
        match size_of_struct(variants[i].as_slice()) {
            Some(size) => {
                if size > max {
                    max = size;
                }
            },
            None => {
                proof {
                    lemma_max_sum_ge(vs, i as int);
                }
                return None;
            },
        }
        i = i + 1;
    }
    assert(vs.take(variants@.len() as int) =~= vs);
    if max > usize::MAX - tag_len {
        return None;
    }
    Some(tag_len + max)
}

/// The variant that a tag read from the wire selects: the first whose
/// resolved tag it is, or `Invalid` where no variant has it.
pub fn variant_index(tags: &[u64], tag: u64) -> (r: Result<usize, Invalid>)
    ensures
        r is Err <==> forall|i: int| 0 <= i < tags@.len() ==> tags@[i] != tag,
        r is Ok ==> r->Ok_0 < tags@.len() && tags@[r->Ok_0 as int] == tag && forall|i: int|
            0 <= i < r->Ok_0 ==> tags@[i] != tag,
{
    let mut i: usize = 0;
    while i < tags.len()
        invariant
            i <= tags@.len(),
            forall|j: int| 0 <= j < i ==> tags@[j] != tag,
        decreases tags@.len() - i,
    {
        if tags[i] == tag {
            return Ok(i);
        }
        i = i + 1;
    }
    Err(Invalid)
}

/// Reads a union's tag, `width` words little-endian, from the front of `src`
/// and finds the variant it selects: the first whose resolved tag it is.
/// Fails with what reading the tag fails with, or `Invalid` where no variant
/// has the tag.
pub fn read_variant<S: WordSource>(src: &mut S, width: usize, tags: &[u64]) -> (r: Result<
    usize,
    Error,
>)
    requires
        old(src).wf(),
        1 <= width <= 8,
    ensures
        final(src).wf(),
        final(src).frame() == old(src).frame(),
        match decode_le(old(src).remaining(), width as nat) {
            Err(e) => r == Err::<usize, Error>(e) && final(src).remaining() == Seq::<u8>::empty(),
            Ok((t, n)) => {
                &&& final(src).remaining() == old(src).remaining().skip(n as int)
                &&& r is Err <==> forall|i: int| 0 <= i < tags@.len() ==> tags@[i] != t
                &&& r is Err ==> r == Err::<usize, Error>(Error::Invalid)
                &&& r is Ok ==> r->Ok_0 < tags@.len() && tags@[r->Ok_0 as int] == t && forall|
                    i: int,
                | 0 <= i < r->Ok_0 ==> tags@[i] != t
            },
        },
{
    let tag = match take_le(width, src) {
        Ok(t) => t,
        Err(e) => {
            return Err(e);
        },
    };
    match variant_index(tags, tag) {
        Ok(i) => Ok(i),
        Err(_) => Err(Error::Invalid),
    }
}

proof fn lemma_max_sum_ge(vs: Seq<Seq<usize>>, j: int)
    requires
        0 <= j < vs.len(),
    ensures
        max_sum(vs) >= sum(vs[j]),
    decreases vs.len(),
{
    if j < vs.len() - 1 {
        lemma_max_sum_ge(vs.drop_last(), j);
    }
}

} // verus!
