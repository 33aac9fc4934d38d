//! The sender task: it shows the segment that it is asked for, or the end of
//! the stream where the source has no such segment.

use vstd::prelude::*;
use vstd::slice::slice_subrange;
use crate::frame::{done_bytes, following, segment_bytes, Frame, SequenceCounter};
use crate::message::{views, Delivery, DeliveryView, Message, MessageView, Port};
use crate::receiver::to_display;
use crate::source::{ReadError, SegmentSource};
use crate::wire::low32;

verus! {

/// The state of the sender task, but for its source.
#[derive(Clone, Copy, Debug, PartialEq, Eq, Structural)]
pub struct SenderState {
    /// The largest number of bytes that a segment carries.
    pub fragment_size: u16,
    /// The number of segments that the frames announce; 0 when unknown.
    pub segment_count: usize,
    /// Whether the task still takes messages.
    pub running: bool,
}

/// What the sender task does with one message.
pub struct Emission {
    /// The task afterwards.
    pub sender: SenderState,
    /// The number of the next frame that the process builds.
    pub sequence: u32,
    /// What the task sends, in the order in which it sends it.
    pub deliveries: Seq<DeliveryView>,
}

/// The count that the frames announce for a source of `size` bytes.
pub open spec fn announced_count(size: Option<usize>, fragment_size: u16) -> usize {
    match size {
        Some(total) => (total / (fragment_size as usize)) as usize,
        None => 0,
    }
}

/// The bytes of the frame for a read at `offset` that ended with `outcome`:
/// the segment that was read, or the end of the stream.
pub open spec fn published(
    sequence: u32,
    offset: usize,
    segment_count: usize,
    outcome: Result<Seq<u8>, ReadError>,
) -> Seq<u8> {
    match outcome {
        Ok(data) => segment_bytes(sequence, low32(offset), low32(segment_count), data),
        Err(_) => done_bytes(sequence),
    }
}

impl SenderState {
    /// Whether the task reads its source when it gets `message`.
    pub open spec fn reads(self, message: MessageView) -> bool {
        self.running && message is SendFrame
    }

    /// What the task does with `message` when the next frame of the process
    /// gets the number `sequence` and the read that the message may cause
    /// ends with `outcome`.
    pub open spec fn react(
        self,
        sequence: u32,
        message: MessageView,
        outcome: Result<Seq<u8>, ReadError>,
    ) -> Emission {
        if !self.running {
            Emission { sender: self, sequence, deliveries: seq![] }
        } else {
            match message {
                MessageView::SendFrame(offset) => Emission {
                    sender: SenderState {
                        fragment_size: self.fragment_size,
                        segment_count: self.segment_count,
                        running: outcome is Ok,
                    },
                    sequence: following(sequence),
                    deliveries: seq![
                        to_display(
                            MessageView::WriteData(
                                published(sequence, offset, self.segment_count, outcome),
                            ),
                        ),
                    ],
                },
                MessageView::Donzo => Emission {
                    sender: SenderState {
                        fragment_size: self.fragment_size,
                        segment_count: self.segment_count,
                        running: false,
                    },
                    sequence,
                    deliveries: seq![],
                },
                _ => Emission { sender: self, sequence, deliveries: seq![] },
            }
        }
    }
}

/// The sender task with its source and its segment buffer.
pub struct Sender<S: SegmentSource> {
    input: S,
    buf: Vec<u8>,
    num_segments: usize,
    running: bool,
}

impl<S: SegmentSource> Sender<S> {
    /// The buffer is as long as a fragment, which 16 bits count.
    pub closed spec fn wf(&self) -> bool {
        self.buf@.len() <= u16::MAX
    }

    /// The task's state.
    pub closed spec fn state(&self) -> SenderState {
        SenderState {
            fragment_size: self.buf@.len() as u16,
            segment_count: self.num_segments,
            running: self.running,
        }
    }

    /// The source that the task reads.
    pub closed spec fn source(&self) -> S {
        self.input
    }

    /// What the segment buffer holds.
    pub closed spec fn buffer(&self) -> Seq<u8> {
        self.buf@
    }

    /// Whether the sender, given `message`, may end up as `after`, the read
    /// that the message causes ending with `outcome`.
    pub open spec fn may_become(
        &self,
        message: MessageView,
        after: Self,
        outcome: Result<Seq<u8>, ReadError>,
    ) -> bool {
        match message {
            MessageView::SendFrame(offset) if self.state().running => {
                &&& self.source().may_read(
                    offset,
                    self.state().fragment_size as usize,
                    after.source(),
                    outcome,
                )
                &&& outcome matches Ok(data) ==> data.len() <= self.state().fragment_size
            },
            _ => after.source() == self.source(),
        }
    }

    /// A task that reads `input` in segments of `fragment_size` bytes.
    pub fn new(input: S, fragment_size: u16) -> (sender: Self)
        requires
            fragment_size > 0 || forall|total: usize| !input.may_report(Some(total)),
        ensures
            sender.wf(),
            sender.buffer().len() == fragment_size,
            sender.source() == input,
            sender.state().fragment_size == fragment_size,
            sender.state().running,
            exists|size: Option<usize>|
                #![trigger input.may_report(size)]
                input.may_report(size) && sender.state().segment_count == announced_count(
                    size,
                    fragment_size,
                ),
    {
        let buf = vec![0u8; fragment_size as usize];
        let size = input.size();
        let num_segments = match size {
            None => 0,
            Some(total) => total / (fragment_size as usize),
        };
        Sender { input, buf, num_segments, running: true }
    }

    /// Takes one message off the task's queue and returns what the task
    /// sends in answer. The frame that the task builds draws its number
    /// from `counter`.
    pub fn handle(&mut self, counter: &mut SequenceCounter, message: Message) -> (deliveries: Vec<
        Delivery,
    >)
        requires
            old(self).wf(),
        ensures
            final(self).wf(),
            final(self).buffer().len() == old(self).buffer().len(),
            exists|outcome: Result<Seq<u8>, ReadError>|
                #![trigger old(self).may_become(message@, *final(self), outcome)]
                {
                    &&& old(self).may_become(message@, *final(self), outcome)
                    &&& final(self).state() == old(self).state().react(
                        old(counter).upcoming(),
                        message@,
                        outcome,
                    ).sender
                    &&& final(counter).upcoming() == old(self).state().react(
                        old(counter).upcoming(),
                        message@,
                        outcome,
                    ).sequence
                    &&& views(deliveries@) == old(self).state().react(
                        old(counter).upcoming(),
                        message@,
                        outcome,
                    ).deliveries
                },
    {
        let mut deliveries: Vec<Delivery> = Vec::new();
        let ghost idle: Result<Seq<u8>, ReadError> = Err(ReadError::EndOfInput);
        if !self.running {
            assert(old(self).may_become(message@, *self, idle));
            return deliveries;
        }
        match message {
            Message::SendFrame(offset) => {
                let read = self.input.read_segment(offset, &mut self.buf);
                let ghost outcome = outcome_of(read, self.buf@);
                let frame = self.publish(counter, offset, read);
                deliveries.push(Delivery { to: Port::Display, message: Message::WriteData(frame) });
                assert(old(self).may_become(message@, *self, outcome));
            },
            Message::Donzo => {
                self.running = false;
                assert(old(self).may_become(message@, *self, idle));
            },
            _ => {
                assert(old(self).may_become(message@, *self, idle));
            },
        }
        deliveries
    }

    /// Builds the frame for a read at `offset` that returned `read`: the
    /// segment in the front of the buffer, or the end of the stream, after
    /// which the task takes no more messages.
    pub fn publish(
        &mut self,
        counter: &mut SequenceCounter,
        offset: usize,
        read: Result<usize, ReadError>,
    ) -> (frame: Frame)
        requires
            old(self).wf(),
            read matches Ok(count) ==> count <= old(self).buffer().len(),
        ensures
            final(self).wf(),
            frame@ == published(
                old(counter).upcoming(),
                offset,
                old(self).state().segment_count,
                outcome_of(read, old(self).buffer()),
            ),
            final(counter).upcoming() == following(old(counter).upcoming()),
            final(self).state() == (SenderState {
                fragment_size: old(self).state().fragment_size,
                segment_count: old(self).state().segment_count,
                running: old(self).state().running && read is Ok,
            }),
            final(self).source() == old(self).source(),
            final(self).buffer() == old(self).buffer(),
    {
        match read {
            Ok(count) => {
                let data = slice_subrange(self.buf.as_slice(), 0, count);
                Frame::new_segment(counter, offset, self.num_segments, data)
            },
            Err(_) => {
                self.running = false;
                Frame::new_done(counter)
            },
        }
    }
}

/// What a read that returned `read` gave, `buffer` being the buffer after it.
pub open spec fn outcome_of(read: Result<usize, ReadError>, buffer: Seq<u8>) -> Result<
    Seq<u8>,
    ReadError,
> {
    match read {
        Ok(count) => Ok(buffer.subrange(0, count as int)),
        Err(error) => Err(error),
    }
}

} // verus!
