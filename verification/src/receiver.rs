//! The receiver task: the flow control of an endpoint.
//!
//! It asks the peer for segments with CTS frames, drops what the camera reads
//! twice, tells the local sender what the peer asked for, and hands the
//! segments on in their order.

use vstd::prelude::*;
use crate::frame::{
    cts_bytes, done_bytes, following, segment_offset_of, sequence_of, type_of, well_formed, Frame,
    SequenceCounter, FRAME_TYPE_CTS, FRAME_TYPE_DONE,
};
use crate::message::{views, Delivery, DeliveryView, Message, MessageView, Port};
use crate::source::offset_after;
use crate::text::{label_number, labelled};
use crate::wire::low32;

verus! {

/// The state of the receiver task.
#[derive(Clone, Copy, Debug, PartialEq, Eq, Structural)]
pub struct Receiver {
    /// The sequence number of the one frame that is taken next.
    pub expected_frame_sequence: usize,
    /// The offset of the segment that is appended to the output next.
    pub expected_segment_offset: usize,
    /// Whether the task still takes messages.
    pub running: bool,
}

/// What the receiver task does with one message.
pub struct Reaction {
    /// The task afterwards.
    pub receiver: Receiver,
    /// The number of the next frame that the process builds.
    pub sequence: u32,
    /// What the task sends, in the order in which it sends it.
    pub deliveries: Seq<DeliveryView>,
}

/// A message on its way to the display.
pub open spec fn to_display(message: MessageView) -> DeliveryView {
    DeliveryView { to: Port::Display, message }
}

/// A message on its way to the receiver task.
pub open spec fn to_receiver(message: MessageView) -> DeliveryView {
    DeliveryView { to: Port::Receiver, message }
}

/// A message on its way to the sender task.
pub open spec fn to_sender(message: MessageView) -> DeliveryView {
    DeliveryView { to: Port::Sender, message }
}

/// The log line for bytes that are no frame.
pub open spec fn malformed_text() -> Seq<char> {
    "Malformed frame"@
}

/// The log line for a frame whose sequence number is not the expected one.
pub open spec fn unexpected_frame_text(sequence: usize) -> Seq<char> {
    labelled("Unexpected frame "@, sequence as nat)
}

/// The log line for a segment whose offset is not the expected one.
pub open spec fn unexpected_segment_text(offset: usize) -> Seq<char> {
    labelled("Unexpected segment "@, offset as nat)
}

impl Receiver {
    /// What the task does with `message` when the next frame of the process
    /// gets the number `sequence`.
    pub open spec fn react(self, sequence: u32, message: MessageView) -> Reaction {
        if !self.running {
            Reaction { receiver: self, sequence, deliveries: seq![] }
        } else {
            match message {
                MessageView::ReceiveNextFrame => Reaction {
                    receiver: self,
                    sequence: following(sequence),
                    deliveries: seq![
                        to_display(
                            MessageView::WriteData(
                                cts_bytes(sequence, low32(self.expected_segment_offset)),
                            ),
                        ),
                    ],
                },
                MessageView::ReceiveFrame(frame) => self.react_to_frame(sequence, frame),
                MessageView::Donzo => Reaction {
                    receiver: Receiver {
                        expected_frame_sequence: self.expected_frame_sequence,
                        expected_segment_offset: self.expected_segment_offset,
                        running: false,
                    },
                    sequence,
                    deliveries: seq![],
                },
                _ => Reaction { receiver: self, sequence, deliveries: seq![] },
            }
        }
    }

    /// What a running task does with the bytes of a frame off the camera.
    pub open spec fn react_to_frame(self, sequence: u32, frame: Seq<u8>) -> Reaction {
        if !well_formed(frame) {
            Reaction {
                receiver: self,
                sequence,
                deliveries: seq![to_display(MessageView::Log(malformed_text()))],
            }
        } else if sequence_of(frame) != self.expected_frame_sequence {
            Reaction {
                receiver: self,
                sequence,
                deliveries: seq![
                    to_display(MessageView::Log(unexpected_frame_text(sequence_of(frame)))),
                ],
            }
        } else if type_of(frame) == FRAME_TYPE_CTS {
            Reaction {
                receiver: Receiver {
                    expected_frame_sequence: offset_after(self.expected_frame_sequence),
                    expected_segment_offset: segment_offset_of(frame),
                    running: true,
                },
                sequence,
                deliveries: seq![to_sender(MessageView::SendFrame(segment_offset_of(frame)))],
            }
        } else if type_of(frame) == FRAME_TYPE_DONE {
            Reaction {
                receiver: Receiver {
                    expected_frame_sequence: offset_after(self.expected_frame_sequence),
                    expected_segment_offset: self.expected_segment_offset,
                    running: true,
                },
                sequence: following(sequence),
                deliveries: seq![
                    to_display(MessageView::WriteData(done_bytes(sequence))),
                    to_display(MessageView::Donzo),
                    to_receiver(MessageView::Donzo),
                    to_sender(MessageView::Donzo),
                ],
            }
        } else if segment_offset_of(frame) == self.expected_segment_offset {
            Reaction {
                receiver: Receiver {
                    expected_frame_sequence: offset_after(self.expected_frame_sequence),
                    expected_segment_offset: offset_after(self.expected_segment_offset),
                    running: true,
                },
                sequence,
                deliveries: seq![
                    to_display(MessageView::AppendToOutput(frame)),
                    to_receiver(MessageView::ReceiveNextFrame),
                ],
            }
        } else {
            Reaction {
                receiver: Receiver {
                    expected_frame_sequence: offset_after(self.expected_frame_sequence),
                    expected_segment_offset: self.expected_segment_offset,
                    running: true,
                },
                sequence,
                deliveries: seq![
                    to_display(
                        MessageView::Log(unexpected_segment_text(segment_offset_of(frame))),
                    ),
                ],
            }
        }
    }

    /// A task that expects the first frame and the first segment.
    pub fn new() -> (receiver: Self)
        ensures
            receiver == (Receiver {
                expected_frame_sequence: 0,
                expected_segment_offset: 0,
                running: true,
            }),
    {
        Receiver { expected_frame_sequence: 0, expected_segment_offset: 0, running: true }
    }

    /// Takes one message off the task's queue and returns what the task
    /// sends in answer. Frames that the task builds draw their numbers from
    /// `counter`.
    pub fn handle(&mut self, counter: &mut SequenceCounter, message: Message) -> (deliveries: Vec<
        Delivery,
    >)
        ensures
            *final(self) == old(self).react(old(counter).upcoming(), message@).receiver,
            final(counter).upcoming() == old(self).react(
                old(counter).upcoming(),
                message@,
            ).sequence,
            views(deliveries@) == old(self).react(old(counter).upcoming(), message@).deliveries,
    {
        let mut deliveries: Vec<Delivery> = Vec::new();
        if !self.running {
            return deliveries;
        }
        match message {
            Message::ReceiveNextFrame => {
                let frame = Frame::new_cts(counter, self.expected_segment_offset);
                deliveries.push(Delivery { to: Port::Display, message: Message::WriteData(frame) });
            },
            Message::ReceiveFrame(frame) => {
                self.handle_frame(counter, frame, &mut deliveries);
            },
            Message::Donzo => {
                self.running = false;
            },
            _ => {},
        }
        deliveries
    }

    fn handle_frame(
        &mut self,
        counter: &mut SequenceCounter,
        frame: Frame,
        deliveries: &mut Vec<Delivery>,
    )
        requires
            old(self).running,
            old(deliveries)@.len() == 0,
        ensures
            *final(self) == old(self).react_to_frame(old(counter).upcoming(), frame@).receiver,
            final(counter).upcoming() == old(self).react_to_frame(
                old(counter).upcoming(),
                frame@,
            ).sequence,
            views(final(deliveries)@) == old(self).react_to_frame(
                old(counter).upcoming(),
                frame@,
            ).deliveries,
    {
        if !frame.is_well_formed() {
            deliveries.push(
                Delivery {
                    to: Port::Display,
                    message: Message::Log(String::from_str("Malformed frame")),
                },
            );
        } else if frame.get_sequence() != self.expected_frame_sequence {
            let text = label_number("Unexpected frame ", frame.get_sequence());
            deliveries.push(Delivery { to: Port::Display, message: Message::Log(text) });
        } else {
            self.expected_frame_sequence = next_offset(self.expected_frame_sequence);
            if frame.is_cts() {
                let offset = frame.get_segment_offset();
                self.expected_segment_offset = offset;
                deliveries.push(
                    Delivery { to: Port::Sender, message: Message::SendFrame(offset) },
                );
            } else if frame.is_done() {
                let done = Frame::new_done(counter);
                deliveries.push(Delivery { to: Port::Display, message: Message::WriteData(done) });
                deliveries.push(Delivery { to: Port::Display, message: Message::Donzo });
                deliveries.push(Delivery { to: Port::Receiver, message: Message::Donzo });
                deliveries.push(Delivery { to: Port::Sender, message: Message::Donzo });
            } else {
                let offset = frame.get_segment_offset();
                if offset == self.expected_segment_offset {
                    self.expected_segment_offset = next_offset(offset);
                    deliveries.push(
                        Delivery { to: Port::Display, message: Message::AppendToOutput(frame) },
                    );
                    deliveries.push(
                        Delivery { to: Port::Receiver, message: Message::ReceiveNextFrame },
                    );
                } else {
                    let text = label_number("Unexpected segment ", offset);
                    deliveries.push(Delivery { to: Port::Display, message: Message::Log(text) });
                }
            }
        }
    }
}

/// The offset after `offset`; after the largest one, 0.
pub fn next_offset(offset: usize) -> (next: usize)
    ensures
        next == offset_after(offset),
{
    if offset == usize::MAX {
        0
    } else {
        offset + 1
    }
}

} // verus!
