//! The frame: the unit that is shown on screen and filmed.
//!
//! ```text
//! 0..4    sequence        u32, big-endian
//! 4..5    type            0x01 CTS, 0x02 DONE, 0x03 SEGMENT
//! 5..9    segment offset  u32, CTS and SEGMENT
//! 9..13   segment count   u32, SEGMENT; 0 when unknown
//! 13..    segment bytes   SEGMENT
//! ```

use vstd::prelude::*;
use vstd::slice::slice_subrange;
use crate::wire::{
    be_bytes, be_value, lemma_be_round_trip, lemma_be_value_at, low32, put_slice, put_u32, put_u8,
    read_u32, truncate32,
};

verus! {

/// The type tag of a clear-to-send frame.
pub const FRAME_TYPE_CTS: u8 = 0x01;

/// The type tag of a done frame.
pub const FRAME_TYPE_DONE: u8 = 0x02;

/// The type tag of a segment frame.
pub const FRAME_TYPE_SEGMENT: u8 = 0x03;

/// Bytes of a DONE frame, and of the part that every frame starts with.
pub const HEADER_LEN: usize = 5;

/// Bytes of a CTS frame.
pub const CTS_LEN: usize = 9;

/// Bytes of a SEGMENT frame before its data.
pub const SEGMENT_HEADER_LEN: usize = 13;

/// The layout of a CTS frame.
pub open spec fn cts_bytes(sequence: u32, segment_offset: u32) -> Seq<u8> {
    be_bytes(sequence).push(FRAME_TYPE_CTS) + be_bytes(segment_offset)
}

/// The layout of a DONE frame.
pub open spec fn done_bytes(sequence: u32) -> Seq<u8> {
    be_bytes(sequence).push(FRAME_TYPE_DONE)
}

/// The layout of a SEGMENT frame.
pub open spec fn segment_bytes(
    sequence: u32,
    segment_offset: u32,
    segment_count: u32,
    data: Seq<u8>,
) -> Seq<u8> {
    be_bytes(sequence).push(FRAME_TYPE_SEGMENT) + be_bytes(segment_offset) + be_bytes(
        segment_count,
    ) + data
}

/// The sequence field of a frame's bytes.
pub open spec fn sequence_of(bytes: Seq<u8>) -> usize
    recommends
        bytes.len() >= 4,
{
    be_value(bytes, 0) as usize
}

/// The type tag of a frame's bytes.
pub open spec fn type_of(bytes: Seq<u8>) -> u8
    recommends
        bytes.len() >= HEADER_LEN,
{
    bytes[4]
}

/// The segment offset field of a frame's bytes.
pub open spec fn segment_offset_of(bytes: Seq<u8>) -> usize
    recommends
        bytes.len() >= CTS_LEN,
{
    be_value(bytes, 5) as usize
}

/// The segment count field of a frame's bytes.
pub open spec fn segment_count_of(bytes: Seq<u8>) -> usize
    recommends
        bytes.len() >= SEGMENT_HEADER_LEN,
{
    be_value(bytes, 9) as usize
}

/// The segment data of a frame's bytes.
pub open spec fn data_of(bytes: Seq<u8>) -> Seq<u8>
    recommends
        bytes.len() >= SEGMENT_HEADER_LEN,
{
    bytes.subrange(SEGMENT_HEADER_LEN as int, bytes.len() as int)
}

/// A byte string is a frame when its tag is one of the three and it is at
/// least as long as that tag's fields.
pub open spec fn well_formed(bytes: Seq<u8>) -> bool {
    &&& bytes.len() >= HEADER_LEN
    &&& type_of(bytes) == FRAME_TYPE_CTS ==> bytes.len() >= CTS_LEN
    &&& type_of(bytes) == FRAME_TYPE_SEGMENT ==> bytes.len() >= SEGMENT_HEADER_LEN
    &&& type_of(bytes) == FRAME_TYPE_CTS || type_of(bytes) == FRAME_TYPE_DONE || type_of(bytes)
        == FRAME_TYPE_SEGMENT
}

/// What a CTS frame was built from is what its accessors give back.
pub proof fn lemma_cts_fields(sequence: u32, segment_offset: u32)
    ensures
        well_formed(cts_bytes(sequence, segment_offset)),
        cts_bytes(sequence, segment_offset).len() == CTS_LEN,
        sequence_of(cts_bytes(sequence, segment_offset)) == sequence,
        type_of(cts_bytes(sequence, segment_offset)) == FRAME_TYPE_CTS,
        segment_offset_of(cts_bytes(sequence, segment_offset)) == segment_offset,
{
    let bytes = cts_bytes(sequence, segment_offset);
    lemma_be_round_trip(sequence);
    lemma_be_round_trip(segment_offset);
    assert(bytes.subrange(0, 4) == be_bytes(sequence));
    assert(bytes.subrange(5, 9) == be_bytes(segment_offset));
    lemma_be_value_at(bytes, 0, sequence);
    lemma_be_value_at(bytes, 5, segment_offset);
}

/// What a DONE frame was built from is what its accessors give back.
pub proof fn lemma_done_fields(sequence: u32)
    ensures
        well_formed(done_bytes(sequence)),
        done_bytes(sequence).len() == HEADER_LEN,
        sequence_of(done_bytes(sequence)) == sequence,
        type_of(done_bytes(sequence)) == FRAME_TYPE_DONE,
{
    let bytes = done_bytes(sequence);
    lemma_be_round_trip(sequence);
    assert(bytes.subrange(0, 4) == be_bytes(sequence));
    lemma_be_value_at(bytes, 0, sequence);
}

/// What a SEGMENT frame was built from is what its accessors give back.
pub proof fn lemma_segment_fields(
    sequence: u32,
    segment_offset: u32,
    segment_count: u32,
    data: Seq<u8>,
)
    ensures
        well_formed(segment_bytes(sequence, segment_offset, segment_count, data)),
        segment_bytes(sequence, segment_offset, segment_count, data).len() == SEGMENT_HEADER_LEN
            + data.len(),
        sequence_of(segment_bytes(sequence, segment_offset, segment_count, data)) == sequence,
        type_of(segment_bytes(sequence, segment_offset, segment_count, data))
            == FRAME_TYPE_SEGMENT,
        segment_offset_of(segment_bytes(sequence, segment_offset, segment_count, data))
            == segment_offset,
        segment_count_of(segment_bytes(sequence, segment_offset, segment_count, data))
            == segment_count,
        data_of(segment_bytes(sequence, segment_offset, segment_count, data)) == data,
{
    let bytes = segment_bytes(sequence, segment_offset, segment_count, data);
    lemma_be_round_trip(sequence);
    lemma_be_round_trip(segment_offset);
    lemma_be_round_trip(segment_count);
    assert(bytes.subrange(0, 4) == be_bytes(sequence));
    assert(bytes.subrange(5, 9) == be_bytes(segment_offset));
    assert(bytes.subrange(9, 13) == be_bytes(segment_count));
    lemma_be_value_at(bytes, 0, sequence);
    lemma_be_value_at(bytes, 5, segment_offset);
    lemma_be_value_at(bytes, 9, segment_count);
}

/// Hands out the sequence numbers of the frames that one process builds.
///
/// The numbers are 32 bits wide and start again at 0 after `u32::MAX`.
pub struct SequenceCounter {
    next: u32,
}

impl SequenceCounter {
    /// The number that the next frame gets.
    pub closed spec fn upcoming(&self) -> u32 {
        self.next
    }

    /// A counter at the start of a process: the first frame gets 0.
    pub fn new() -> (counter: Self)
        ensures
            counter.upcoming() == 0,
    {
        SequenceCounter { next: 0 }
    }

    /// A counter whose next number is `next`.
    pub fn starting_at(next: u32) -> (counter: Self)
        ensures
            counter.upcoming() == next,
    {
        SequenceCounter { next }
    }

    /// The number that the next frame gets.
    pub fn peek(&self) -> (next: u32)
        ensures
            next == self.upcoming(),
    {
        self.next
    }

    /// Takes the next number.
    pub fn take(&mut self) -> (sequence: u32)
        ensures
            sequence == old(self).upcoming(),
            final(self).upcoming() == following(old(self).upcoming()),
    {
        let sequence = self.next;
        self.next = if sequence == u32::MAX {
            0
        } else {
            sequence + 1
        };
        sequence
    }
}

/// The number that comes after `sequence`.
pub open spec fn following(sequence: u32) -> u32 {
    if sequence == u32::MAX {
        0
    } else {
        (sequence + 1) as u32
    }
}

/// The thing that is exchanged: a byte string in the frame layout.
#[derive(Debug)]
pub struct Frame {
    encoded: Vec<u8>,
}

impl View for Frame {
    type V = Seq<u8>;

    closed spec fn view(&self) -> Seq<u8> {
        self.encoded@
    }
}

impl Clone for Frame {
    fn clone(&self) -> (copy: Self)
        ensures
            copy@ == self@,
    {
        Frame { encoded: self.encoded.clone() }
    }
}

impl Frame {
    /// Takes bytes as they came off the channel. Nothing is checked here:
    /// `is_well_formed` says whether the accessors may be used.
    pub fn new(encoded: Vec<u8>) -> (frame: Self)
        ensures
            frame@ == encoded@,
    {
        Frame { encoded }
    }

    /// A clear-to-send frame that asks for the segment at `segment_offset`.
    pub fn new_cts(counter: &mut SequenceCounter, segment_offset: usize) -> (frame: Self)
        ensures
            frame@ == cts_bytes(old(counter).upcoming(), low32(segment_offset)),
            final(counter).upcoming() == following(old(counter).upcoming()),
    {
        let mut encoded: Vec<u8> = Vec::with_capacity(4 + 1 + 4);
        put_u32(&mut encoded, counter.take());
        put_u8(&mut encoded, FRAME_TYPE_CTS);
        put_u32(&mut encoded, truncate32(segment_offset));
        Frame { encoded }
    }

    /// The frame that ends the stream.
    pub fn new_done(counter: &mut SequenceCounter) -> (frame: Self)
        ensures
            frame@ == done_bytes(old(counter).upcoming()),
            final(counter).upcoming() == following(old(counter).upcoming()),
    {
        let mut encoded: Vec<u8> = Vec::with_capacity(4 + 1);
        put_u32(&mut encoded, counter.take());
        put_u8(&mut encoded, FRAME_TYPE_DONE);
        Frame { encoded }
    }

    /// A frame that carries `data` as the segment at `segment_offset`.
    pub fn new_segment(
        counter: &mut SequenceCounter,
        segment_offset: usize,
        segment_count: usize,
        data: &[u8],
    ) -> (frame: Self)
        requires
            SEGMENT_HEADER_LEN + data@.len() <= isize::MAX,
        ensures
            frame@ == segment_bytes(
                old(counter).upcoming(),
                low32(segment_offset),
                low32(segment_count),
                data@,
            ),
            final(counter).upcoming() == following(old(counter).upcoming()),
    {
        let mut encoded: Vec<u8> = Vec::with_capacity(4 + 1 + 4 + 4 + data.len());
        put_u32(&mut encoded, counter.take());
        put_u8(&mut encoded, FRAME_TYPE_SEGMENT);
        put_u32(&mut encoded, truncate32(segment_offset));
        put_u32(&mut encoded, truncate32(segment_count));
        put_slice(&mut encoded, data);
        Frame { encoded }
    }

    /// Whether the bytes are a frame of one of the three types, long enough
    /// for that type's fields. A frame that is not one is to be dropped.
    pub fn is_well_formed(&self) -> (ok: bool)
        ensures
            ok == well_formed(self@),
    {
        let len = self.encoded.len();
        if len < HEADER_LEN {
            return false;
        }
        let tag = self.encoded[4];
        if tag == FRAME_TYPE_CTS {
            len >= CTS_LEN
        } else if tag == FRAME_TYPE_SEGMENT {
            len >= SEGMENT_HEADER_LEN
        } else {
            tag == FRAME_TYPE_DONE
        }
    }

    /// The frame's sequence number.
    pub fn get_sequence(&self) -> (sequence: usize)
        requires
            self@.len() >= 4,
        ensures
            sequence == sequence_of(self@),
    {
        read_u32(&self.encoded, 0) as usize
    }

    /// The frame's type tag.
    pub fn get_type(&self) -> (tag: u8)
        requires
            self@.len() >= HEADER_LEN,
        ensures
            tag == type_of(self@),
    {
        self.encoded[4]
    }

    /// The segment offset of a CTS or SEGMENT frame.
    pub fn get_segment_offset(&self) -> (segment_offset: usize)
        requires
            self@.len() >= CTS_LEN,
        ensures
            segment_offset == segment_offset_of(self@),
    {
        read_u32(&self.encoded, 5) as usize
    }

    /// The segment count that a SEGMENT frame announces; 0 when unknown.
    pub fn get_segment_count(&self) -> (segment_count: usize)
        requires
            self@.len() >= SEGMENT_HEADER_LEN,
        ensures
            segment_count == segment_count_of(self@),
    {
        read_u32(&self.encoded, 9) as usize
    }

    /// The segment bytes of a SEGMENT frame.
    pub fn get_data(&self) -> (data: &[u8])
        requires
            self@.len() >= SEGMENT_HEADER_LEN,
        ensures
            data@ == data_of(self@),
    {
        slice_subrange(self.encoded.as_slice(), SEGMENT_HEADER_LEN, self.encoded.len())
    }

    /// Whether the frame is a clear-to-send frame.
    pub fn is_cts(&self) -> (yes: bool)
        requires
            self@.len() >= HEADER_LEN,
        ensures
            yes == (type_of(self@) == FRAME_TYPE_CTS),
    {
        self.get_type() == FRAME_TYPE_CTS
    }

    /// Whether the frame ends the stream.
    pub fn is_done(&self) -> (yes: bool)
        requires
            self@.len() >= HEADER_LEN,
        ensures
            yes == (type_of(self@) == FRAME_TYPE_DONE),
    {
        self.get_type() == FRAME_TYPE_DONE
    }

    /// Whether the frame carries a segment.
    pub fn is_segment(&self) -> (yes: bool)
        requires
            self@.len() >= HEADER_LEN,
        ensures
            yes == (type_of(self@) == FRAME_TYPE_SEGMENT),
    {
        self.get_type() == FRAME_TYPE_SEGMENT
    }

    /// The bytes as they go on the channel.
    pub fn as_bytes(&self) -> (bytes: &[u8])
        ensures
            bytes@ == self@,
    {
        self.encoded.as_slice()
    }
}

impl AsRef<[u8]> for Frame {
    /// The bytes as they go on the channel.
    fn as_ref(&self) -> (bytes: &[u8])
        ensures
            bytes@ == self@,
    {
        self.encoded.as_slice()
    }
}

} // verus!
