use core::marker::PhantomData;
use embedded_command::codec::{SerializeBuf, SerializeIter};
use embedded_command::error::{EndOfInput, Error, Invalid};
use embedded_command::medium::{ArraySink, SliceSource};

fn encode<T: SerializeIter, const N: usize>(v: &T) -> ([u8; N], Result<(), EndOfInput>) {
    let mut sink = ArraySink::new([0u8; N]);
    let r = v.serialize_iter(&mut sink);
    (sink.into_inner(), r)
}

fn decode<T: SerializeIter>(buf: &[u8]) -> Result<T, Error> {
    let mut src = SliceSource::new(buf);
    T::deserialize_iter(&mut src)
}

fn iter_round_trip<T: SerializeIter + PartialEq + core::fmt::Debug>(v: T) {
    let (buf, r) = encode::<T, 8>(&v);
    r.unwrap();
    assert_eq!(v, decode::<T>(&buf).unwrap());
}

#[test]
fn vanilla_iter() {
    iter_round_trip(u8::MAX / 0xa);
    iter_round_trip(u16::MAX / 0xa);
    iter_round_trip(u32::MAX / 0xa);
    iter_round_trip(u64::MAX / 0xa);
    iter_round_trip(i8::MAX / 0xa);
    iter_round_trip(i16::MAX / 0xa);
    iter_round_trip(i32::MAX / 0xa);
    iter_round_trip(i64::MAX / 0xa);

    // check valid values
    for val in [false, true] {
        let (buf, r) = encode::<bool, 1>(&val);
        r.unwrap();
        assert_eq!(val, decode::<bool>(&buf).unwrap());
    }

    // check invalid values
    for num in 2..=u8::MAX {
        let (buf, r) = encode::<u8, 1>(&num);
        r.unwrap();
        match decode::<bool>(&buf) {
            Err(Error::Invalid) => {}
            _ => panic!(),
        }
    }
}

fn buf_round_trip<T: SerializeBuf + PartialEq + core::fmt::Debug, const N: usize>(v: T) {
    assert_eq!(N, T::exact_len());
    let mut buf = [0u8; N];
    v.serialize_buf(&mut buf);
    assert_eq!(v, T::deserialize_buf(&buf).unwrap());
}

#[test]
fn vanilla_buf() {
    buf_round_trip::<u8, 1>(u8::MAX / 0xa);
    buf_round_trip::<u16, 2>(u16::MAX / 0xa);
    buf_round_trip::<u32, 4>(u32::MAX / 0xa);
    buf_round_trip::<u64, 8>(u64::MAX / 0xa);
    buf_round_trip::<i8, 1>(i8::MAX / 0xa);
    buf_round_trip::<i16, 2>(i16::MAX / 0xa);
    buf_round_trip::<i32, 4>(i32::MAX / 0xa);
    buf_round_trip::<i64, 8>(i64::MAX / 0xa);

    let mut buf = [0u8; 1];
    for val in [false, true] {
        val.serialize_buf(&mut buf);
        assert_eq!(val, bool::deserialize_buf(&buf).unwrap());
    }
    for num in 2..=u8::MAX {
        num.serialize_buf(&mut buf);
        assert!(bool::deserialize_buf(&buf).is_err());
        assert_eq!(Err(Invalid), bool::deserialize_buf(&buf));
    }
}

#[test]
fn boundary_values_round_trip() {
    for v in [0u8, 1, u8::MAX] {
        iter_round_trip(v);
    }
    for v in [0u16, u16::MAX, 0x1234] {
        iter_round_trip(v);
    }
    for v in [0u32, u32::MAX, 0xdeadbeef] {
        iter_round_trip(v);
    }
    for v in [0u64, u64::MAX, 0x0123_4567_89ab_cdef] {
        iter_round_trip(v);
    }
    for v in [0i8, i8::MIN, i8::MAX, -1] {
        iter_round_trip(v);
    }
    for v in [0i16, i16::MIN, i16::MAX, -1] {
        iter_round_trip(v);
    }
    for v in [0i32, i32::MIN, i32::MAX, -1] {
        iter_round_trip(v);
    }
    for v in [0i64, i64::MIN, i64::MAX, -1] {
        iter_round_trip(v);
    }
    iter_round_trip(PhantomData::<u32>);
    iter_round_trip(((1u8, true), (-5i16, PhantomData::<u8>, 7u32)));
}

#[test]
fn little_endian_layout() {
    let (buf, r) = encode::<u32, 4>(&0xdeadbeef);
    r.unwrap();
    assert_eq!([0xef, 0xbe, 0xad, 0xde], buf);
    let (buf, r) = encode::<i16, 2>(&-2);
    r.unwrap();
    assert_eq!([0xfe, 0xff], buf);
    let (buf, r) = encode::<u64, 8>(&0x0102_0304_0506_0708);
    r.unwrap();
    assert_eq!([8, 7, 6, 5, 4, 3, 2, 1], buf);
    assert_eq!(0x0201u16, decode::<u16>(&[1, 2, 3]).unwrap());
    assert_eq!(-1i32, decode::<i32>(&[0xff; 4]).unwrap());
}

#[test]
fn exact_sizing() {
    let (_, r) = encode::<u32, 4>(&7);
    assert!(r.is_ok());
    let (buf, r) = encode::<u32, 3>(&0x00a0b0c0);
    assert_eq!(Err(EndOfInput), r);
    // encoding is not atomic: the words that fit stay written
    assert_eq!([0xc0, 0xb0, 0xa0], buf);
    let (_, r) = encode::<bool, 0>(&true);
    assert_eq!(Err(EndOfInput), r);
    let (_, r) = encode::<(u8, i16), 2>(&(1, 2));
    assert_eq!(Err(EndOfInput), r);
}

#[test]
fn short_source_is_end_of_input() {
    assert_eq!(Err(Error::EndOfInput), decode::<u32>(&[1, 2, 3]));
    assert_eq!(Err(Error::EndOfInput), decode::<bool>(&[]));
    assert_eq!(Err(Error::EndOfInput), decode::<(u8, u16)>(&[1, 2]));
    assert_eq!(Err(Error::Invalid), decode::<(u8, bool)>(&[1, 2]));
    assert_eq!(Ok(PhantomData), decode::<PhantomData<u64>>(&[]));
}

/// A record `{ a: u8, b: i16 }` encodes as its fields in declaration order.
#[test]
fn vanilla_struct_iter() {
    let test_foo: (u8, i16) = (0xaa, -1);
    let (buf, r) = encode::<(u8, i16), 3>(&test_foo);
    r.unwrap();
    assert_eq!([0xaa, 0xff, 0xff], buf);
    assert_eq!(test_foo, decode::<(u8, i16)>(&buf).unwrap());

    // a unit-like field takes no words
    let test_bar: (u8, PhantomData<()>, i16) = (0xaa, PhantomData, -1);
    let (buf, r) = encode::<(u8, PhantomData<()>, i16), 3>(&test_bar);
    r.unwrap();
    assert_eq!(test_bar, decode::<(u8, PhantomData<()>, i16)>(&buf).unwrap());
}

/// `D { bar: 0xaa, t: -1 }` of a union whose `D` carries the tag `0xbe`.
#[test]
fn vanilla_enum_iter() {
    let test_foo: (u8, u16, i8) = (0xbe, 0xaa, -1);
    let (buf, r) = encode::<(u8, u16, i8), 4>(&test_foo);
    r.unwrap();
    assert_eq!([0xbe, 0xaa, 0x00, 0xff], buf);
    assert_eq!(test_foo, decode::<(u8, u16, i8)>(&buf).unwrap());
}

/// `BarGen { a: -1i16, b: FooGen::A(0xaa, false), c: PhantomData }` with a
/// `u16` tag.
#[test]
fn vanilla_generics() {
    type Bar = (i16, (u16, u8, bool), PhantomData<i16>);
    let test_bar: Bar = (-1, (0, 0xaa, false), PhantomData);

    // buf is too small
    let (_, r) = encode::<Bar, 4>(&test_bar);
    assert!(r.is_err());

    let (buf, r) = encode::<Bar, 8>(&test_bar);
    r.unwrap();
    assert_eq!([0xff, 0xff, 0, 0, 0xaa, 0, 0, 0], buf);
    assert_eq!(test_bar, decode::<Bar>(&buf).unwrap());
}

#[test]
fn seven_field_tuple() {
    let v = (1u8, 2u16, 3u32, 4u64, -5i8, true, -7i64);
    let (buf, r) = encode::<_, 25>(&v);
    r.unwrap();
    assert_eq!(v, decode::<(u8, u16, u32, u64, i8, bool, i64)>(&buf).unwrap());
}

#[test]
fn arrays_round_trip() {
    let v: [u16; 3] = [0x0102, 0xffff, 0];
    let (buf, r) = encode::<[u16; 3], 6>(&v);
    r.unwrap();
    assert_eq!([0x02, 0x01, 0xff, 0xff, 0, 0], buf);
    assert_eq!(v, decode::<[u16; 3]>(&buf).unwrap());

    let nested: [(bool, i8); 2] = [(true, -1), (false, 5)];
    let (buf, r) = encode::<[(bool, i8); 2], 4>(&nested);
    r.unwrap();
    assert_eq!([1, 0xff, 0, 5], buf);
    assert_eq!(nested, decode::<[(bool, i8); 2]>(&buf).unwrap());

    let empty: [u64; 0] = [];
    let (_, r) = encode::<[u64; 0], 0>(&empty);
    r.unwrap();
    assert_eq!(empty, decode::<[u64; 0]>(&[]).unwrap());
}

#[test]
fn array_errors() {
    assert_eq!(Err(Error::Invalid), decode::<[bool; 3]>(&[1, 0, 2]));
    assert_eq!(Err(Error::EndOfInput), decode::<[bool; 3]>(&[1, 0]));
    let (buf, r) = encode::<[u8; 4], 3>(&[1, 2, 3, 4]);
    assert_eq!(Err(EndOfInput), r);
    assert_eq!([1, 2, 3], buf);
}

#[test]
fn float_bit_patterns_round_trip() {
    let v = f32::MAX / 10.0;
    let (buf, r) = encode::<u32, 4>(&v.to_bits());
    r.unwrap();
    assert_eq!(v, f32::from_bits(decode::<u32>(&buf).unwrap()));
    let w = f64::MAX / 10.0;
    let (buf, r) = encode::<u64, 8>(&w.to_bits());
    r.unwrap();
    assert_eq!(w, f64::from_bits(decode::<u64>(&buf).unwrap()));
}

#[test]
fn slots_past_the_encoding_keep_their_contents() {
    let mut sink = ArraySink::new([0x11u8; 5]);
    0x0a0bu16.serialize_iter(&mut sink).unwrap();
    true.serialize_iter(&mut sink).unwrap();
    assert_eq!([0x0b, 0x0a, 1, 0x11, 0x11], sink.into_inner());
}

#[test]
fn failed_decodes_consume_what_they_read() {
    let buf = [2u8, 5];
    let mut src = SliceSource::new(&buf);
    assert_eq!(Err(Error::Invalid), bool::deserialize_iter(&mut src));
    assert_eq!(Ok(5u8), u8::deserialize_iter(&mut src));

    let buf = [1u8, 7, 9];
    let mut src = SliceSource::new(&buf);
    assert_eq!(Err(Error::Invalid), <(u8, bool)>::deserialize_iter(&mut src));
    assert_eq!(Ok(9u8), u8::deserialize_iter(&mut src));

    let buf = [1u8, 2, 3];
    let mut src = SliceSource::new(&buf);
    assert_eq!(Err(Error::EndOfInput), u32::deserialize_iter(&mut src));
    assert_eq!(Err(Error::EndOfInput), u8::deserialize_iter(&mut src));
}
