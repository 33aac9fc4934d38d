//! Segment sources: where the sender gets the bytes of a segment.

use vstd::prelude::*;

verus! {

/// Why a source gave no segment.
#[derive(Clone, Copy, Debug, PartialEq, Eq, Structural)]
pub enum ReadError {
    /// The segment starts at or after the end of the input.
    EndOfInput,
    /// A source that only reads forward was asked for another segment than
    /// the next one.
    OutOfOrder,
    /// The input could not be read.
    Unreadable,
}

/// A source of segments: the input cut into pieces of the buffer's length,
/// the piece at `offset` starting at byte `offset * buf.len()`.
///
/// The sender relies on two things that every source has to keep: a read
/// leaves the buffer as long as it was, and it returns no larger count than
/// the buffer holds. What else a source promises it says in `may_report`
/// and `may_read`.
pub trait SegmentSource: Sized + Send {
    /// Whether the source may give `size` as its total length in bytes.
    /// A source says here what its `size` promises; one that says nothing
    /// promises nothing.
    open spec fn may_report(&self, size: Option<usize>) -> bool {
        true
    }

    /// Whether this source, read at `offset` into a buffer of `len` bytes,
    /// may end up as `after` and give `outcome`: the bytes that it wrote to
    /// the front of the buffer, or the reason why it wrote none.
    open spec fn may_read(
        &self,
        offset: usize,
        len: usize,
        after: Self,
        outcome: Result<Seq<u8>, ReadError>,
    ) -> bool {
        true
    }

    /// The total length in bytes, where the source knows it.
    fn size(&self) -> (size: Option<usize>)
        ensures
            self.may_report(size),
    ;

    /// Fills the front of `buf` with the segment at `offset` and returns how
    /// many bytes that were: fewer than `buf` holds only at the end of the
    /// input. Fails where the input has no such segment.
    fn read_segment(&mut self, offset: usize, buf: &mut Vec<u8>) -> (read: Result<
        usize,
        ReadError,
    >)
        ensures
            final(buf)@.len() == old(buf)@.len(),
            match read {
                Ok(count) => count <= old(buf)@.len() && old(self).may_read(
                    offset,
                    old(buf)@.len() as usize,
                    *final(self),
                    Ok(final(buf)@.subrange(0, count as int)),
                ),
                Err(error) => old(self).may_read(
                    offset,
                    old(buf)@.len() as usize,
                    *final(self),
                    Err(error),
                ),
            },
    ;
}

/// Makes the source that a sender reads from.
pub trait SegmentSourceFactory: Send {
    type SegmentSourceType: SegmentSource;

    /// Whether `source` is one that this factory may make.
    open spec fn makes(&self, source: Self::SegmentSourceType) -> bool {
        true
    }

    fn create_segment_source(&self) -> (source: Self::SegmentSourceType)
        ensures
            self.makes(source),
    ;
}

/// The byte at which the segment at `offset` starts, for segments of `len`
/// bytes: `None` where that is more than 64 bits hold.
pub fn segment_position(offset: usize, len: usize) -> (position: Option<u64>)
    ensures
        match position {
            Some(at) => at == offset * len,
            None => offset * len > u64::MAX,
        },
{
    let wide_offset: u64 = offset as u64;
    let wide_len: u64 = len as u64;
    let product = wide_offset.checked_mul(wide_len);
    product
}

/// What a source returns for a plain read into a buffer of `len` bytes that
/// gave `read`, the number of bytes read, or nothing where the read failed.
/// A read that gave no byte found the end of the input, unless the buffer
/// has no room at all; a count beyond the buffer is no count.
pub open spec fn classified(read: Option<usize>, len: usize) -> Result<usize, ReadError> {
    match read {
        Some(count) => if count > len {
            Err(ReadError::Unreadable)
        } else if count == 0 && len > 0 {
            Err(ReadError::EndOfInput)
        } else {
            Ok(count)
        },
        None => Err(ReadError::Unreadable),
    }
}

/// Turns what a plain read gave into what a source returns.
pub fn classify_read(read: Option<usize>, len: usize) -> (result: Result<usize, ReadError>)
    ensures
        result == classified(read, len),
        result matches Ok(count) ==> count <= len,
{
    match read {
        Some(count) => {
            if count > len {
                Err(ReadError::Unreadable)
            } else if count == 0 && len > 0 {
                Err(ReadError::EndOfInput)
            } else {
                Ok(count)
            }
        },
        None => Err(ReadError::Unreadable),
    }
}

/// The segment at `offset` of `data` cut into pieces of `len` bytes.
pub open spec fn segment_of(data: Seq<u8>, offset: usize, len: usize) -> Result<
    Seq<u8>,
    ReadError,
> {
    if offset * len < data.len() {
        Ok(data.subrange(offset * len, segment_end(data, offset, len)))
    } else {
        Err(ReadError::EndOfInput)
    }
}

/// Where the segment at `offset` ends: a full piece on, or at the end of `data`.
pub open spec fn segment_end(data: Seq<u8>, offset: usize, len: usize) -> int {
    if offset * len + len <= data.len() {
        offset * len + len
    } else {
        data.len() as int
    }
}

/// The number of segments of `len` bytes cut into fragments of
/// `fragment_size` bytes.
pub open spec fn segments(len: nat, fragment_size: u16) -> nat
    recommends
        fragment_size > 0,
{
    ((len + fragment_size - 1) / (fragment_size as int)) as nat
}

/// The first `count` segments of `data`, joined.
pub open spec fn first_segments(data: Seq<u8>, fragment_size: u16, count: nat) -> Seq<u8> {
    if count * fragment_size <= data.len() {
        data.subrange(0, count * fragment_size)
    } else {
        data
    }
}

/// The segment of `data` at `offset`, for an offset below the number of
/// segments.
pub open spec fn segment_at(data: Seq<u8>, fragment_size: u16, offset: nat) -> Seq<u8> {
    data.subrange(
        offset * fragment_size,
        if (offset + 1) * fragment_size <= data.len() {
            (offset + 1) * fragment_size
        } else {
            data.len() as int
        },
    )
}

/// An offset is below the number of segments exactly when its segment
/// starts inside the stream.
pub proof fn lemma_segment_starts_inside(len: nat, fragment_size: u16, offset: nat)
    requires
        fragment_size > 0,
    ensures
        offset < segments(len, fragment_size) <==> offset * fragment_size < len,
{
    let size = fragment_size as int;
    let count = (len + size - 1) / size;
    assert(count * size <= len + size - 1 < (count + 1) * size) by (nonlinear_arith)
        requires
            size > 0,
            count == (len + size - 1) / size,
    ;
    assert(offset < count <==> offset * size < len) by (nonlinear_arith)
        requires
            size > 0,
            count * size <= len + size - 1 < (count + 1) * size,
    ;
}

/// A source that holds its whole input in memory.
pub struct MemorySource {
    data: Vec<u8>,
    sized: bool,
}

impl MemorySource {
    /// The input.
    pub closed spec fn data(&self) -> Seq<u8> {
        self.data@
    }

    /// Whether the source tells its size.
    pub closed spec fn is_sized(&self) -> bool {
        self.sized
    }

    /// A source of known size, as a file is.
    pub fn new(data: Vec<u8>) -> (source: Self)
        ensures
            source.data() == data@,
            source.is_sized(),
    {
        MemorySource { data, sized: true }
    }

    /// A source that does not tell its size, as a stream does not.
    pub fn unsized_stream(data: Vec<u8>) -> (source: Self)
        ensures
            source.data() == data@,
            !source.is_sized(),
    {
        MemorySource { data, sized: false }
    }
}

impl SegmentSource for MemorySource {
    open spec fn may_report(&self, size: Option<usize>) -> bool {
        size == if self.is_sized() {
            Some(self.data().len() as usize)
        } else {
            None
        }
    }

    open spec fn may_read(
        &self,
        offset: usize,
        len: usize,
        after: Self,
        outcome: Result<Seq<u8>, ReadError>,
    ) -> bool {
        &&& after == *self
        &&& outcome == segment_of(self.data(), offset, len)
    }

    fn size(&self) -> (size: Option<usize>) {
        if self.sized {
            Some(self.data.len())
        } else {
            None
        }
    }

    fn read_segment(&mut self, offset: usize, buf: &mut Vec<u8>) -> (read: Result<
        usize,
        ReadError,
    >)
        ensures
            read == match segment_of(old(self).data(), offset, old(buf)@.len() as usize) {
                Ok(part) => Ok(part.len() as usize),
                Err(error) => Err(error),
            },
    {
        let len = buf.len();
        let total = self.data.len();
        let start: usize = match segment_position(offset, len) {
            Some(at) => {
                if at >= total as u64 {
                    return Err(ReadError::EndOfInput);
                }
                at as usize
            },
            None => {
                return Err(ReadError::EndOfInput);
            },
        };
        let count: usize = if total - start < len {
            total - start
        } else {
            len
        };
        let mut i: usize = 0;
        while i < count
            invariant
                i <= count,
                start + count <= total,
                total == self.data@.len(),
                count <= len,
                buf@.len() == len,
                buf@.subrange(0, i as int) == self.data@.subrange(
                    start as int,
                    start + i,
                ),
            decreases count - i,
        {
            buf.set(i, self.data[start + i]);
            i += 1;
            assert(buf@.subrange(0, i as int) == self.data@.subrange(start as int, start + i));
        }
        Ok(count)
    }
}

/// Makes memory sources over one input.
pub struct MemorySourceFactory {
    data: Vec<u8>,
    sized: bool,
}

impl MemorySourceFactory {
    /// The input of the sources that the factory makes.
    pub closed spec fn data(&self) -> Seq<u8> {
        self.data@
    }

    /// Whether those sources tell their size.
    pub closed spec fn is_sized(&self) -> bool {
        self.sized
    }

    /// A factory of sources over `data`, which tell their size or not.
    pub fn new(data: Vec<u8>, sized: bool) -> (factory: Self)
        ensures
            factory.data() == data@,
            factory.is_sized() == sized,
    {
        MemorySourceFactory { data, sized }
    }
}

impl SegmentSourceFactory for MemorySourceFactory {
    type SegmentSourceType = MemorySource;

    open spec fn makes(&self, source: MemorySource) -> bool {
        source.data() == self.data() && source.is_sized() == self.is_sized()
    }

    fn create_segment_source(&self) -> (source: MemorySource) {
        MemorySource { data: self.data.clone(), sized: self.sized }
    }
}

/// A source that only reads forward, as a stream does: it takes the segments
/// of `inner` in their order, refuses any other offset than the next one, and
/// does not tell a size.
pub struct Sequential<S: SegmentSource> {
    inner: S,
    next_offset: usize,
}

impl<S: SegmentSource> Sequential<S> {
    /// The source underneath.
    pub closed spec fn inner(&self) -> S {
        self.inner
    }

    /// The one offset that the next read may ask for.
    pub closed spec fn next_offset(&self) -> usize {
        self.next_offset
    }

    /// A forward-only source over `inner` that expects the first segment.
    pub fn new(inner: S) -> (source: Self)
        ensures
            source.inner() == inner,
            source.next_offset() == 0,
    {
        Sequential { inner, next_offset: 0 }
    }
}

/// The offset after `offset`; after the largest one, 0.
pub open spec fn offset_after(offset: usize) -> usize {
    if offset == usize::MAX {
        0
    } else {
        (offset + 1) as usize
    }
}

impl<S: SegmentSource> SegmentSource for Sequential<S> {
    open spec fn may_report(&self, size: Option<usize>) -> bool {
        size is None
    }

    open spec fn may_read(
        &self,
        offset: usize,
        len: usize,
        after: Self,
        outcome: Result<Seq<u8>, ReadError>,
    ) -> bool {
        if offset == self.next_offset() {
            &&& self.inner().may_read(offset, len, after.inner(), outcome)
            &&& after.next_offset() == offset_after(offset)
        } else {
            &&& after == *self
            &&& outcome == Err::<Seq<u8>, ReadError>(ReadError::OutOfOrder)
        }
    }

    fn size(&self) -> (size: Option<usize>) {
        None
    }

    fn read_segment(&mut self, offset: usize, buf: &mut Vec<u8>) -> (read: Result<
        usize,
        ReadError,
    >)
        ensures
            offset != old(self).next_offset() ==> final(buf)@ == old(buf)@,
    {
        if offset != self.next_offset {
            return Err(ReadError::OutOfOrder);
        }
        let read = self.inner.read_segment(offset, buf);
        self.next_offset = if offset == usize::MAX {
            0
        } else {
            offset + 1
        };
        read
    }
}

} // verus!
