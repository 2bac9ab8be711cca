use embedded_command::codec::SerializeIter;
use embedded_command::error::{Error, Invalid};
use embedded_command::layout::{
    build_tags, read_variant, size_of_enum, size_of_struct, variant_index,
};
use embedded_command::medium::{ArraySink, SliceSource};

#[test]
fn tag_numbering() {
    // A, B(u8, i16) = 0xde, C, D { bar: u16, t: i8 } = 0xbe
    let tags = build_tags(&[None, Some(0xde), None, Some(0xbe)], u8::MAX as u64).unwrap();
    assert_eq!(vec![0x00, 0xde, 0xdf, 0xbe], tags);
}

#[test]
fn tag_numbering_restarts_at_each_anchor() {
    let tags = build_tags(&[Some(5), None, None, Some(1), None], u16::MAX as u64).unwrap();
    assert_eq!(vec![5, 6, 7, 1, 2], tags);
    assert_eq!(Some(vec![]), build_tags(&[], 0));
}

#[test]
fn tag_past_the_tag_width() {
    assert_eq!(None, build_tags(&[Some(0xff), None], u8::MAX as u64));
    assert_eq!(None, build_tags(&[Some(0x100)], u8::MAX as u64));
    assert_eq!(Some(vec![0xfe, 0xff]), build_tags(&[Some(0xfe), None], u8::MAX as u64));
}

#[test]
fn record_length() {
    assert_eq!(Some(3), size_of_struct(&[1, 0, 2]));
    assert_eq!(Some(0), size_of_struct(&[]));
    assert_eq!(None, size_of_struct(&[usize::MAX, 1]));
}

#[test]
fn union_length() {
    // tag u8; A has no field, B(u8, i16), C none, D { u16, i8 }
    assert_eq!(Some(4), size_of_enum(1, &[vec![], vec![1, 2], vec![], vec![2, 1]]));
    // BarGen's FooGen<bool, i16> with a u16 tag: A(u8, bool), B { woah: i16 }
    assert_eq!(Some(4), size_of_enum(2, &[vec![1, 1], vec![2]]));
    assert_eq!(Some(2), size_of_enum(2, &[]));
    assert_eq!(None, size_of_enum(1, &[vec![usize::MAX]]));
}


#[test]
fn unknown_tag_is_invalid() {
    let tags = build_tags(&[None, Some(0xde), None, Some(0xbe)], u8::MAX as u64).unwrap();
    assert_eq!(Ok(3), variant_index(&tags, 0xbe));
    assert_eq!(Ok(2), variant_index(&tags, 0xdf));
    assert_eq!(Ok(0), variant_index(&tags, 0));
    assert_eq!(Err(Invalid), variant_index(&tags, 0x01));
    assert_eq!(Err(Invalid), variant_index(&[], 0));
    assert_eq!(Ok(0), variant_index(&[4, 4], 4));
}

/// A union `A(A), B(B), C(C) = 10` whose `C { val: 15, other: A { val: 20 } }`
/// is written into a buffer of the union's exact length.
#[test]
fn cookie_cutter() {
    let tags = build_tags(&[None, None, Some(10)], u8::MAX as u64).unwrap();
    assert_eq!(vec![0, 1, 10], tags);
    // A { val: u8 }, B { val: u16 }, C { val: u8, other: A }
    let len = size_of_enum(1, &[vec![1], vec![2], vec![1, 1]]).unwrap();
    assert_eq!(3, len);
    let mut sink = ArraySink::new([0u8; 3]);
    (tags[2] as u8, 15u8, (20u8,)).serialize_iter(&mut sink).unwrap();
    assert_eq!([10, 15, 20], sink.into_inner());
}

#[test]
fn reading_a_union_tag() {
    let tags = build_tags(&[None, Some(0xde), None, Some(0xbe)], u8::MAX as u64).unwrap();
    let buf = [0xbe, 0xaa, 0x00, 0xff];
    let mut src = SliceSource::new(&buf);
    assert_eq!(Ok(3), read_variant(&mut src, 1, &tags));
    let mut src = SliceSource::new(&[0x01, 0x00]);
    assert_eq!(Err(Error::Invalid), read_variant(&mut src, 1, &tags));
    let mut src = SliceSource::new(&[0xbe]);
    assert_eq!(Err(Error::EndOfInput), read_variant(&mut src, 2, &[0xbe]));
    let mut src = SliceSource::new(&[0xbe, 0x00]);
    assert_eq!(Ok(0), read_variant(&mut src, 2, &[0xbe]));
}
