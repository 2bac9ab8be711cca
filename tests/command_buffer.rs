use embedded_command::command_buffer::{CommandBuffer, Overflow};

#[test]
fn command_buffer_basic() {
    let mut cmd_buf = CommandBuffer::<10>::new();
    let test_buf = [0xde, 0xad, 0xbe, 0xef];
    cmd_buf.ingest(&test_buf).unwrap();
    assert_eq!(cmd_buf.len(), test_buf.len());
    let mut buf_iter = cmd_buf.iter();
    for left in test_buf.iter() {
        assert_eq!(Some(left), buf_iter.next());
    }
    assert!(buf_iter.next().is_none());
}

#[test]
fn exact() {
    let mut cmd_buf = CommandBuffer::<10>::new();
    let test_buf = [0xde, 0xad, 0xbe, 0xef, 0x15, 0xba, 0xdb, 0xad, 0xf0, 0x0d];
    cmd_buf.ingest(&test_buf).unwrap();
    assert_eq!(cmd_buf.len(), test_buf.len());
    let mut buf_iter = cmd_buf.iter();
    for left in test_buf.iter() {
        assert_eq!(Some(left), buf_iter.next());
    }
    assert!(buf_iter.next().is_none());
}

#[test]
fn overflow() {
    let mut cmd_buf = CommandBuffer::<8>::new();
    let test_buf = [0xde, 0xad, 0xbe, 0xef, 0x15, 0xba, 0xdb, 0xad, 0xf0, 0x0d];
    assert!(cmd_buf.ingest(&test_buf).is_err());
    assert_eq!(cmd_buf.len(), cmd_buf.capacity());
}

#[test]
fn flush() {
    let mut cmd_buf = CommandBuffer::<10>::new();
    let test_buf = [0xde, 0xad, 0xbe, 0xef];
    cmd_buf.ingest(&test_buf).unwrap();
    assert_eq!(cmd_buf.len(), test_buf.len());
    let mut buf_iter = cmd_buf.iter();
    for left in test_buf.iter() {
        assert_eq!(Some(left), buf_iter.next());
    }
    assert!(buf_iter.next().is_none());
    let memento = buf_iter.capture();
    cmd_buf.flush(memento);
    assert_eq!(0, cmd_buf.len());
    let test_buf = [0x15, 0xba, 0xdb, 0xad, 0xf0, 0x0d];
    cmd_buf.ingest(&test_buf).unwrap();
    assert_eq!(6, cmd_buf.len());
}

#[test]
fn cycle() {
    let mut cmd_buf = CommandBuffer::<10>::new();
    let test_buf = [0xde, 0xad, 0xbe, 0xef];
    for _ in 0..10 {
        cmd_buf.ingest(&test_buf).unwrap();
        assert_eq!(cmd_buf.len(), test_buf.len());
        let mut buf_iter = cmd_buf.iter();
        for left in test_buf.iter() {
            assert_eq!(Some(left), buf_iter.next());
        }
        assert!(buf_iter.next().is_none());
        let memento = buf_iter.capture();
        cmd_buf.flush(memento);
        assert_eq!(0, cmd_buf.len());
    }
}

#[test]
fn overflow_keeps_the_prefix_that_fit() {
    let mut cmd_buf = CommandBuffer::<8>::new();
    cmd_buf.ingest(&[1, 2, 3, 4, 5]).unwrap();
    assert_eq!(Err(Overflow), cmd_buf.ingest(&[6, 7, 8, 9, 10]));
    assert_eq!(8, cmd_buf.len());
    let mut it = cmd_buf.iter();
    for expected in 1u8..=8 {
        assert_eq!(Some(&expected), it.next());
    }
    assert!(it.next().is_none());
    assert_eq!(Err(Overflow), cmd_buf.ingest(&[11]));
    assert_eq!(8, cmd_buf.len());
}

#[test]
fn abandoned_read_leaves_the_buffer_unchanged() {
    let mut cmd_buf = CommandBuffer::<6>::new();
    cmd_buf.ingest(&[9, 8, 7, 6, 5]).unwrap();
    {
        let mut it = cmd_buf.iter();
        assert_eq!(Some(&9), it.next());
        assert_eq!(Some(&8), it.next());
    }
    assert_eq!(5, cmd_buf.len());
    let mut it = cmd_buf.iter();
    for expected in [9u8, 8, 7, 6, 5] {
        assert_eq!(Some(&expected), it.next());
    }
    assert!(it.next().is_none());
}

#[test]
fn partial_flush_then_wraparound() {
    let mut cmd_buf = CommandBuffer::<5>::new();
    cmd_buf.ingest(&[1, 2, 3, 4]).unwrap();
    let mut it = cmd_buf.iter();
    it.next();
    it.next();
    it.next();
    let memento = it.capture();
    cmd_buf.flush(memento);
    assert_eq!(1, cmd_buf.len());
    cmd_buf.ingest(&[5, 6, 7, 8]).unwrap();
    assert_eq!(5, cmd_buf.len());
    assert!(!cmd_buf.is_empty());
    let mut it = cmd_buf.iter();
    for expected in [4u8, 5, 6, 7, 8] {
        assert_eq!(Some(&expected), it.next());
    }
    assert!(it.next().is_none());
}

#[test]
fn empty_buffer_default() {
    let mut cmd_buf = CommandBuffer::<3>::default();
    assert!(cmd_buf.is_empty());
    assert_eq!(3, cmd_buf.capacity());
    let mut it = cmd_buf.iter();
    assert!(it.next().is_none());
    let memento = it.capture();
    cmd_buf.flush(memento);
    assert!(cmd_buf.is_empty());
}
