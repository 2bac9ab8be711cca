use embedded_command::codec::SerializeIter;
use embedded_command::crc::{CRCComputeIterMut, CRCPacket, CRCProvider, Error};
use embedded_command::error::{self, EndOfInput};
use embedded_command::medium::{ArraySink, SliceSource};
use vstd::seq::Seq;

#[derive(Debug, PartialEq)]
struct DummyCRC;

// `fed` and `digest_of` are the accumulator's model for the verifier; they are
// never called at run time. Here nothing is kept and every digest is 0xbeef.
impl CRCProvider for DummyCRC {
    type Word = u8;
    type Rep = u16;

    fn fed(&self) -> Seq<u8> {
        unreachable!()
    }

    fn digest_of(_words: Seq<u8>) -> u16 {
        unreachable!()
    }

    fn update(&mut self, _word: &Self::Word) {}

    fn finalize(&mut self) -> Self::Rep {
        0xbeef
    }
}

/// Sums the words folded in, and starts again after each digest.
#[derive(Debug, PartialEq)]
struct SumCRC(u8);

// The digest of some words is their sum, wrapping at 256.
impl CRCProvider for SumCRC {
    type Word = u8;
    type Rep = u8;

    fn fed(&self) -> Seq<u8> {
        unreachable!()
    }

    fn digest_of(_words: Seq<u8>) -> u8 {
        unreachable!()
    }

    fn update(&mut self, word: &Self::Word) {
        self.0 = self.0.wrapping_add(*word);
    }

    fn finalize(&mut self) -> Self::Rep {
        let r = self.0;
        self.0 = 0;
        r
    }
}

#[test]
fn crc_basic() {
    let test_packet = CRCPacket::<(i8, u32), DummyCRC>::new((-1, 0xdeadbeef));
    let mut crc_provider = DummyCRC;
    let (sink, r) = test_packet.render(ArraySink::new([0u8; 7]), &mut crc_provider);
    assert!(r.is_ok());
    let buf = sink.into_inner();
    assert_eq!(buf, [-1i8 as u8, 0xef, 0xbe, 0xad, 0xde, /* crc -> */ 0xef, 0xbe]);
    let read_packet = CRCPacket::construct(SliceSource::new(&buf), &mut crc_provider).unwrap();
    assert_eq!(test_packet, read_packet);
}

#[test]
fn bad_crc() {
    let test_packet = CRCPacket::<(i8, u32), DummyCRC>::new((-1, 0xdeadbeef));
    let mut crc_provider = DummyCRC;
    let (sink, r) = test_packet.render(ArraySink::new([0u8; 7]), &mut crc_provider);
    assert!(r.is_ok());
    let mut buf = sink.into_inner();

    // bad crc
    buf[6] += 1;

    match CRCPacket::<(i8, u32), DummyCRC>::construct(SliceSource::new(&buf), &mut crc_provider) {
        Err(e) => match e {
            Error::Crc => {}
            _ => panic!("Error should be CRC mismatch."),
        },
        _ => panic!("CRCPacket construction should fail."),
    }
}

#[test]
fn digest_covers_the_payload_words_only() {
    let packet = CRCPacket::<(u8, u16), SumCRC>::new((3, 0x0102));
    let mut crc = SumCRC(0);
    let (sink, r) = packet.render(ArraySink::new([0u8; 4]), &mut crc);
    assert!(r.is_ok());
    let buf = sink.into_inner();
    assert_eq!([3, 0x02, 0x01, 6], buf);
    let read = CRCPacket::<(u8, u16), SumCRC>::construct(SliceSource::new(&buf), &mut crc).unwrap();
    assert_eq!(&(3, 0x0102), read.get_payload());
    let corrupted = [3, 0x02, 0x02, 6];
    assert_eq!(
        Err(Error::Crc),
        CRCPacket::<(u8, u16), SumCRC>::construct(SliceSource::new(&corrupted), &mut crc)
    );
}

#[test]
fn render_into_too_small_destination() {
    let packet = CRCPacket::<(i8, u32), DummyCRC>::new((-1, 0xdeadbeef));
    let mut crc = DummyCRC;
    let (sink, r) = packet.render(ArraySink::new([0u8; 6]), &mut crc);
    assert_eq!(Err(EndOfInput), r);
    assert_eq!(0, sink.room_left());
    assert_eq!([0xff, 0xef, 0xbe, 0xad, 0xde, 0xef], sink.into_inner());
    let (_, r) = packet.render(ArraySink::new([0u8; 3]), &mut crc);
    assert_eq!(Err(EndOfInput), r);
}

#[test]
fn construct_reports_payload_errors() {
    let short = [0xff, 0xef, 0xbe];
    assert_eq!(
        Err(Error::Serialize(error::Error::EndOfInput)),
        CRCPacket::<(i8, u32), DummyCRC>::construct(SliceSource::new(&short), &mut DummyCRC)
    );
    let no_digest = [0xff, 0xef, 0xbe, 0xad, 0xde, 0xef];
    assert_eq!(
        Err(Error::Serialize(error::Error::EndOfInput)),
        CRCPacket::<(i8, u32), DummyCRC>::construct(SliceSource::new(&no_digest), &mut DummyCRC)
    );
    let bad_bool = [7, 0xef, 0xbe];
    assert_eq!(
        Err(Error::Serialize(error::Error::Invalid)),
        CRCPacket::<(bool, u16), DummyCRC>::construct(SliceSource::new(&bad_bool), &mut DummyCRC)
    );
}

#[test]
fn tap_feeds_written_words() {
    let mut crc = SumCRC(0);
    let mut tap = CRCComputeIterMut::new(&mut crc, ArraySink::new([0u8; 2]));
    (5u8, 9u8).serialize_iter(&mut tap).unwrap();
    let sink = tap.into_inner();
    assert_eq!([5, 9], sink.into_inner());
    assert_eq!(14, crc.finalize());
}

#[test]
fn check_digest_compares_the_digests() {
    let ok = CRCPacket::<(u8,), SumCRC>::check_digest((7,), 3, 3).unwrap();
    assert_eq!(&(7,), ok.get_payload());
    assert_eq!(Err(Error::Crc), CRCPacket::<(u8,), SumCRC>::check_digest((7,), 3, 4));
}

#[test]
fn render_keeps_the_slots_past_the_packet() {
    let packet = CRCPacket::<(u8,), SumCRC>::new((5,));
    let mut crc = SumCRC(0);
    let (sink, r) = packet.render(ArraySink::new([0xaa; 4]), &mut crc);
    assert!(r.is_ok());
    assert_eq!([5, 5, 0xaa, 0xaa], sink.into_inner());
}
