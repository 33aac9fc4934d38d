use piccp::frame::{
    Frame, SequenceCounter, CTS_LEN, FRAME_TYPE_CTS, FRAME_TYPE_DONE, FRAME_TYPE_SEGMENT,
    HEADER_LEN, SEGMENT_HEADER_LEN,
};
use piccp::wire::{read_u32, truncate32};

#[test]
fn cts_layout_is_big_endian() {
    let mut counter = SequenceCounter::starting_at(0x0102_0304);
    let frame = Frame::new_cts(&mut counter, 0x0A0B_0C0D);
    assert_eq!(frame.as_bytes(), &[1, 2, 3, 4, 0x01, 0x0A, 0x0B, 0x0C, 0x0D]);
    assert_eq!(frame.as_bytes().len(), CTS_LEN);
    assert_eq!(frame.get_sequence(), 0x0102_0304);
    assert_eq!(frame.get_type(), FRAME_TYPE_CTS);
    assert!(frame.is_cts());
    assert!(!frame.is_done());
    assert!(!frame.is_segment());
    assert_eq!(frame.get_segment_offset(), 0x0A0B_0C0D);
    assert_eq!(counter.peek(), 0x0102_0305);
}

#[test]
fn done_layout() {
    let mut counter = SequenceCounter::new();
    let frame = Frame::new_done(&mut counter);
    assert_eq!(frame.as_bytes(), &[0, 0, 0, 0, 0x02]);
    assert_eq!(frame.as_bytes().len(), HEADER_LEN);
    assert!(frame.is_done());
    assert_eq!(frame.get_type(), FRAME_TYPE_DONE);
    assert_eq!(frame.get_sequence(), 0);
}

#[test]
fn segment_layout() {
    let mut counter = SequenceCounter::starting_at(7);
    let frame = Frame::new_segment(&mut counter, 3, 9, b"hi\n");
    assert_eq!(
        frame.as_bytes(),
        &[0, 0, 0, 7, 0x03, 0, 0, 0, 3, 0, 0, 0, 9, b'h', b'i', b'\n']
    );
    assert_eq!(frame.as_bytes().len(), SEGMENT_HEADER_LEN + 3);
    assert_eq!(frame.get_type(), FRAME_TYPE_SEGMENT);
    assert!(frame.is_segment());
    assert_eq!(frame.get_sequence(), 7);
    assert_eq!(frame.get_segment_offset(), 3);
    assert_eq!(frame.get_segment_count(), 9);
    assert_eq!(frame.get_data(), b"hi\n");
}

#[test]
fn segment_without_data() {
    let mut counter = SequenceCounter::new();
    let frame = Frame::new_segment(&mut counter, 0, 0, b"");
    assert_eq!(frame.as_bytes().len(), SEGMENT_HEADER_LEN);
    assert!(frame.is_well_formed());
    assert_eq!(frame.get_data(), b"");
}

#[test]
fn frames_take_consecutive_numbers() {
    let mut counter = SequenceCounter::new();
    let first = Frame::new_cts(&mut counter, 0);
    let second = Frame::new_segment(&mut counter, 0, 0, b"x");
    let third = Frame::new_done(&mut counter);
    assert_eq!(first.get_sequence(), 0);
    assert_eq!(second.get_sequence(), 1);
    assert_eq!(third.get_sequence(), 2);
    assert_eq!(counter.peek(), 3);
}

#[test]
fn counter_starts_again_after_the_largest_number() {
    let mut counter = SequenceCounter::starting_at(u32::MAX);
    assert_eq!(counter.take(), u32::MAX);
    assert_eq!(counter.take(), 0);
    assert_eq!(counter.take(), 1);
}

#[test]
fn raw_bytes_are_kept() {
    let frame = Frame::new(vec![0, 0, 1, 0, 0x01, 0, 0, 0, 5]);
    assert_eq!(frame.get_sequence(), 256);
    assert_eq!(frame.get_segment_offset(), 5);
    assert_eq!(frame.as_bytes(), &[0, 0, 1, 0, 0x01, 0, 0, 0, 5]);
    let copy = frame.clone();
    assert_eq!(copy.as_bytes(), frame.as_bytes());
}

#[test]
fn short_or_unknown_bytes_are_no_frame() {
    assert!(!Frame::new(vec![]).is_well_formed());
    assert!(!Frame::new(vec![0, 0, 0, 0]).is_well_formed());
    assert!(!Frame::new(vec![0, 0, 0, 0, 0x00]).is_well_formed());
    assert!(!Frame::new(vec![0, 0, 0, 0, 0x04]).is_well_formed());
    assert!(!Frame::new(vec![0, 0, 0, 0, 0x01, 0, 0, 0]).is_well_formed());
    assert!(!Frame::new(vec![0, 0, 0, 0, 0x03, 0, 0, 0, 0, 0, 0, 0]).is_well_formed());
    assert!(Frame::new(vec![0, 0, 0, 0, 0x02]).is_well_formed());
    assert!(Frame::new(vec![0, 0, 0, 0, 0x01, 0, 0, 0, 0]).is_well_formed());
    assert!(Frame::new(vec![0, 0, 0, 0, 0x03, 0, 0, 0, 0, 0, 0, 0, 0]).is_well_formed());
}

#[test]
fn offsets_keep_their_low_32_bits() {
    assert_eq!(truncate32(5), 5);
    assert_eq!(truncate32(u32::MAX as usize), u32::MAX);
    if usize::BITS > 32 {
        let wide = (1u64 << 32) as usize + 9;
        assert_eq!(truncate32(wide), 9);
        let mut counter = SequenceCounter::new();
        let frame = Frame::new_cts(&mut counter, wide);
        assert_eq!(frame.get_segment_offset(), 9);
    }
}

#[test]
fn read_u32_reads_at_an_offset() {
    let bytes = vec![9, 0x12, 0x34, 0x56, 0x78, 9];
    assert_eq!(read_u32(&bytes, 1), 0x1234_5678);
    assert_eq!(read_u32(&vec![0xFF, 0xFF, 0xFF, 0xFF], 0), u32::MAX);
}

#[test]
fn a_frame_lends_its_bytes() {
    let mut counter = SequenceCounter::starting_at(1);
    let frame = Frame::new_done(&mut counter);
    let bytes: &[u8] = frame.as_ref();
    assert_eq!(bytes, &[0, 0, 0, 1, 0x02]);
}
