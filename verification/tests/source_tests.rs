use piccp::source::{
    classify_read, segment_position, MemorySource, MemorySourceFactory, ReadError, SegmentSource,
    SegmentSourceFactory, Sequential,
};

struct Countdown {
    left: usize,
}

impl SegmentSource for Countdown {
    fn size(&self) -> Option<usize> {
        None
    }

    fn read_segment(&mut self, _offset: usize, buf: &mut Vec<u8>) -> Result<usize, ReadError> {
        if self.left == 0 {
            return Err(ReadError::EndOfInput);
        }
        self.left -= 1;
        buf[0] = 7;
        Ok(1)
    }
}

#[test]
fn a_source_of_the_caller() {
    let mut source = Countdown { left: 1 };
    let mut buf = vec![0u8; 4];
    assert_eq!(source.read_segment(0, &mut buf), Ok(1));
    assert_eq!(source.read_segment(1, &mut buf), Err(ReadError::EndOfInput));
}

#[test]
fn memory_source_cuts_segments() {
    let mut source = MemorySource::new(vec![1, 2, 3, 4, 5]);
    let mut buf = vec![0u8; 2];
    assert_eq!(source.size(), Some(5));
    assert_eq!(source.read_segment(2, &mut buf), Ok(1));
    assert_eq!(buf[0], 5);
    assert_eq!(source.read_segment(1, &mut buf), Ok(2));
    assert_eq!(buf, vec![3, 4]);
    assert_eq!(source.read_segment(0, &mut buf), Ok(2));
    assert_eq!(buf, vec![1, 2]);
    assert_eq!(source.read_segment(3, &mut buf), Err(ReadError::EndOfInput));
    assert_eq!(source.read_segment(usize::MAX, &mut buf), Err(ReadError::EndOfInput));
}

#[test]
fn memory_source_ends_at_a_fragment_boundary() {
    let mut source = MemorySource::new(vec![9; 4]);
    let mut buf = vec![0u8; 4];
    assert_eq!(source.read_segment(0, &mut buf), Ok(4));
    assert_eq!(buf, vec![9; 4]);
    assert_eq!(source.read_segment(1, &mut buf), Err(ReadError::EndOfInput));
}

#[test]
fn empty_memory_source_has_no_segment() {
    let mut source = MemorySource::new(vec![]);
    let mut buf = vec![0u8; 8];
    assert_eq!(source.size(), Some(0));
    assert_eq!(source.read_segment(0, &mut buf), Err(ReadError::EndOfInput));
}

#[test]
fn stream_does_not_tell_its_size() {
    let source = MemorySource::unsized_stream(vec![1, 2, 3]);
    assert_eq!(source.size(), None);
}

#[test]
fn factory_makes_sources_over_its_input() {
    let factory = MemorySourceFactory::new(vec![4, 5, 6], true);
    let mut source = factory.create_segment_source();
    let mut buf = vec![0u8; 3];
    assert_eq!(source.size(), Some(3));
    assert_eq!(source.read_segment(0, &mut buf), Ok(3));
    assert_eq!(buf, vec![4, 5, 6]);
    let hidden = MemorySourceFactory::new(vec![4, 5, 6], false).create_segment_source();
    assert_eq!(hidden.size(), None);
}

#[test]
fn sequential_source_refuses_other_offsets() {
    let mut source = Sequential::new(MemorySource::unsized_stream(vec![1, 2, 3, 4, 5]));
    let mut buf = vec![0u8; 2];
    assert_eq!(source.size(), None);
    buf[0] = 9;
    assert_eq!(source.read_segment(1, &mut buf), Err(ReadError::OutOfOrder));
    assert_eq!(buf, vec![9, 0]);
    assert_eq!(source.read_segment(0, &mut buf), Ok(2));
    assert_eq!(buf, vec![1, 2]);
    assert_eq!(source.read_segment(0, &mut buf), Err(ReadError::OutOfOrder));
    assert_eq!(source.read_segment(1, &mut buf), Ok(2));
    assert_eq!(source.read_segment(2, &mut buf), Ok(1));
    assert_eq!(buf[0], 5);
    assert_eq!(source.read_segment(3, &mut buf), Err(ReadError::EndOfInput));
    assert_eq!(source.read_segment(3, &mut buf), Err(ReadError::OutOfOrder));
}

#[test]
fn sequential_source_over_a_source_of_the_caller() {
    let mut source = Sequential::new(Countdown { left: 2 });
    let mut buf = vec![0u8; 1];
    assert_eq!(source.read_segment(0, &mut buf), Ok(1));
    assert_eq!(source.read_segment(2, &mut buf), Err(ReadError::OutOfOrder));
    assert_eq!(source.read_segment(1, &mut buf), Ok(1));
    assert_eq!(source.read_segment(2, &mut buf), Err(ReadError::EndOfInput));
}

#[test]
fn segment_position_is_the_product() {
    assert_eq!(segment_position(0, 128), Some(0));
    assert_eq!(segment_position(3, 128), Some(384));
    assert_eq!(segment_position(u32::MAX as usize, 65535), Some(u32::MAX as u64 * 65535));
    if usize::BITS == 64 {
        assert_eq!(segment_position(usize::MAX, 2), None);
        assert_eq!(segment_position(usize::MAX, 1), Some(u64::MAX));
    }
}

#[test]
fn plain_reads_become_segments_or_errors() {
    assert_eq!(classify_read(Some(5), 8), Ok(5));
    assert_eq!(classify_read(Some(8), 8), Ok(8));
    assert_eq!(classify_read(Some(0), 8), Err(ReadError::EndOfInput));
    assert_eq!(classify_read(Some(0), 0), Ok(0));
    assert_eq!(classify_read(Some(9), 8), Err(ReadError::Unreadable));
    assert_eq!(classify_read(None, 8), Err(ReadError::Unreadable));
}

#[test]
fn a_forward_only_source_tells_no_size() {
    let source = Sequential::new(MemorySource::new(vec![1, 2, 3]));
    assert_eq!(source.size(), None);
}
