//! What holds of every endpoint: how it answers each kind of frame, how it
//! numbers its own frames, and that a frame read twice counts once.

use vstd::prelude::*;
use crate::frame::{
    cts_bytes, data_of, done_bytes, following, lemma_cts_fields, lemma_done_fields,
    lemma_segment_fields, segment_bytes, segment_offset_of, sequence_of, type_of, well_formed,
    FRAME_TYPE_CTS, FRAME_TYPE_DONE, FRAME_TYPE_SEGMENT,
};
use crate::message::{DeliveryView, MessageView, Port};
use crate::receiver::{Reaction, Receiver};
use crate::sender::{published, Emission, SenderState};
use crate::source::{
    first_segments, lemma_segment_starts_inside, offset_after, segment_at, segment_of, segments,
    ReadError,
};
use crate::transport::{
    display_of, lemma_receiver_asks_once, lemma_route_without_read, send_frames, Endpoint, Event,
    Turn,
};
use crate::wire::low32;

verus! {

/// The frames that the display is told to show, in order.
pub open spec fn written(shown: Seq<MessageView>) -> Seq<Seq<u8>>
    decreases shown.len(),
{
    if shown.len() == 0 {
        seq![]
    } else {
        match shown.last() {
            MessageView::WriteData(frame) => written(shown.drop_last()).push(frame),
            _ => written(shown.drop_last()),
        }
    }
}

/// The bytes that the display is told to append to the output, in order.
pub open spec fn appended(shown: Seq<MessageView>) -> Seq<u8>
    decreases shown.len(),
{
    if shown.len() == 0 {
        seq![]
    } else {
        match shown.last() {
            MessageView::AppendToOutput(frame) => appended(shown.drop_last()) + data_of(frame),
            _ => appended(shown.drop_last()),
        }
    }
}

/// Whether the display is told to stop.
pub open spec fn stops(shown: Seq<MessageView>) -> bool {
    exists|i: int| 0 <= i < shown.len() && shown[i] is Donzo
}

/// Asked to receive, a running receiver shows a CTS frame for the segment
/// that it expects, and nothing else changes.
pub proof fn lemma_receive_asks(endpoint: Endpoint, outcome: Result<Seq<u8>, ReadError>)
    requires
        endpoint.receiver.running,
    ensures
        endpoint.step(Event::Receive, outcome) == (Turn {
            endpoint: Endpoint {
                sequence: following(endpoint.sequence),
                receiver: endpoint.receiver,
                sender: endpoint.sender,
            },
            shown: seq![
                MessageView::WriteData(
                    cts_bytes(endpoint.sequence, low32(endpoint.receiver.expected_segment_offset)),
                ),
            ],
        }),
{
    reveal_with_fuel(Endpoint::route, 3);
    reveal_with_fuel(display_of, 3);
}

/// The receiver of `endpoint` after it took a frame: it expects the next
/// sequence number and the segment `expected_segment_offset`.
pub open spec fn advanced(endpoint: Endpoint, expected_segment_offset: usize) -> Receiver {
    Receiver {
        expected_frame_sequence: offset_after(endpoint.receiver.expected_frame_sequence),
        expected_segment_offset,
        running: true,
    }
}

/// Whether `frame` is the one that the receiver of `endpoint` takes next.
pub open spec fn awaited(endpoint: Endpoint, frame: Seq<u8>) -> bool {
    &&& endpoint.receiver.running
    &&& well_formed(frame)
    &&& sequence_of(frame) == endpoint.receiver.expected_frame_sequence
}

/// An awaited CTS frame makes the sender show the segment that it asks for,
/// or the end of the stream where the source has no such segment.
pub proof fn lemma_cts_is_served(
    endpoint: Endpoint,
    frame: Seq<u8>,
    outcome: Result<Seq<u8>, ReadError>,
)
    requires
        awaited(endpoint, frame),
        type_of(frame) == FRAME_TYPE_CTS,
        endpoint.sender.running,
    ensures
        endpoint.reads(Event::ReceiveFrame(frame)) == Some(segment_offset_of(frame)),
        endpoint.step(Event::ReceiveFrame(frame), outcome) == (Turn {
            endpoint: Endpoint {
                sequence: following(endpoint.sequence),
                receiver: advanced(endpoint, segment_offset_of(frame)),
                sender: SenderState {
                    fragment_size: endpoint.sender.fragment_size,
                    segment_count: endpoint.sender.segment_count,
                    running: outcome is Ok,
                },
            },
            shown: seq![
                MessageView::WriteData(
                    published(
                        endpoint.sequence,
                        segment_offset_of(frame),
                        endpoint.sender.segment_count,
                        outcome,
                    ),
                ),
            ],
        }),
{
    reveal_with_fuel(Endpoint::route, 3);
    reveal_with_fuel(display_of, 3);
}

/// An awaited segment at the expected offset is appended to the output, and
/// in the same turn the receiver asks for the segment after it.
pub proof fn lemma_segment_is_answered(
    endpoint: Endpoint,
    frame: Seq<u8>,
    outcome: Result<Seq<u8>, ReadError>,
)
    requires
        awaited(endpoint, frame),
        type_of(frame) == FRAME_TYPE_SEGMENT,
        segment_offset_of(frame) == endpoint.receiver.expected_segment_offset,
    ensures
        endpoint.step(Event::ReceiveFrame(frame), outcome) == (Turn {
            endpoint: Endpoint {
                sequence: following(endpoint.sequence),
                receiver: advanced(
                    endpoint,
                    offset_after(endpoint.receiver.expected_segment_offset),
                ),
                sender: endpoint.sender,
            },
            shown: seq![
                MessageView::AppendToOutput(frame),
                MessageView::WriteData(
                    cts_bytes(
                        endpoint.sequence,
                        low32(offset_after(endpoint.receiver.expected_segment_offset)),
                    ),
                ),
            ],
        }),
{
    reveal_with_fuel(Endpoint::route, 3);
    reveal_with_fuel(display_of, 3);
    let turn = endpoint.step(Event::ReceiveFrame(frame), outcome);
    assert(turn.shown =~= seq![
        MessageView::AppendToOutput(frame),
        MessageView::WriteData(
            cts_bytes(
                endpoint.sequence,
                low32(offset_after(endpoint.receiver.expected_segment_offset)),
            ),
        ),
    ]);
}

/// An awaited DONE frame is confirmed with a DONE frame, the display is told
/// to stop, and both tasks stop.
pub proof fn lemma_done_shuts_down(
    endpoint: Endpoint,
    frame: Seq<u8>,
    outcome: Result<Seq<u8>, ReadError>,
)
    requires
        awaited(endpoint, frame),
        type_of(frame) == FRAME_TYPE_DONE,
    ensures
        endpoint.step(Event::ReceiveFrame(frame), outcome) == (Turn {
            endpoint: Endpoint {
                sequence: following(endpoint.sequence),
                receiver: Receiver {
                    expected_frame_sequence: offset_after(
                        endpoint.receiver.expected_frame_sequence,
                    ),
                    expected_segment_offset: endpoint.receiver.expected_segment_offset,
                    running: false,
                },
                sender: SenderState {
                    fragment_size: endpoint.sender.fragment_size,
                    segment_count: endpoint.sender.segment_count,
                    running: false,
                },
            },
            shown: seq![MessageView::WriteData(done_bytes(endpoint.sequence)), MessageView::Donzo],
        }),
{
    reveal_with_fuel(Endpoint::route, 5);
    reveal_with_fuel(display_of, 3);
    let turn = endpoint.step(Event::ReceiveFrame(frame), outcome);
    assert(turn.shown =~= seq![
        MessageView::WriteData(done_bytes(endpoint.sequence)),
        MessageView::Donzo,
    ]);
}

/// A frame that is not awaited changes nothing: a stopped receiver says
/// nothing, a running one writes a line to the log.
pub proof fn lemma_other_frame_is_dropped(
    endpoint: Endpoint,
    frame: Seq<u8>,
    outcome: Result<Seq<u8>, ReadError>,
)
    requires
        !awaited(endpoint, frame),
    ensures
        endpoint.step(Event::ReceiveFrame(frame), outcome).endpoint == endpoint,
        !endpoint.receiver.running ==> endpoint.step(Event::ReceiveFrame(frame), outcome).shown
            == Seq::<MessageView>::empty(),
        endpoint.receiver.running ==> endpoint.step(
            Event::ReceiveFrame(frame),
            outcome,
        ).shown.len() == 1 && endpoint.step(Event::ReceiveFrame(frame), outcome).shown[0] is Log,
        endpoint.reads(Event::ReceiveFrame(frame)) is None,
{
    reveal_with_fuel(Endpoint::route, 3);
    reveal_with_fuel(display_of, 3);
}

/// Whatever an awaited frame holds, the receiver then expects the next
/// sequence number.
pub proof fn lemma_awaited_frame_advances(
    endpoint: Endpoint,
    frame: Seq<u8>,
    outcome: Result<Seq<u8>, ReadError>,
)
    requires
        awaited(endpoint, frame),
    ensures
        endpoint.step(
            Event::ReceiveFrame(frame),
            outcome,
        ).endpoint.receiver.expected_frame_sequence == offset_after(
            endpoint.receiver.expected_frame_sequence,
        ),
{
    reveal_with_fuel(Endpoint::route, 5);
}

/// A frame that the camera reads a second time changes nothing and shows
/// nothing but, at most, a line in the log.
pub proof fn lemma_frame_counts_once(
    endpoint: Endpoint,
    frame: Seq<u8>,
    first: Result<Seq<u8>, ReadError>,
    second: Result<Seq<u8>, ReadError>,
)
    ensures
        ({
            let once = endpoint.step(Event::ReceiveFrame(frame), first);
            let twice = once.endpoint.step(Event::ReceiveFrame(frame), second);
            &&& twice.endpoint == once.endpoint
            &&& written(twice.shown) == Seq::<Seq<u8>>::empty()
            &&& appended(twice.shown) == Seq::<u8>::empty()
            &&& !stops(twice.shown)
            &&& once.endpoint.reads(Event::ReceiveFrame(frame)) is None
        }),
{
    let once = endpoint.step(Event::ReceiveFrame(frame), first);
    if awaited(endpoint, frame) {
        lemma_awaited_frame_advances(endpoint, frame, first);
    } else {
        lemma_other_frame_is_dropped(endpoint, frame, first);
    }
    lemma_other_frame_is_dropped(once.endpoint, frame, second);
    reveal_with_fuel(written, 2);
    reveal_with_fuel(appended, 2);
}

impl Endpoint {
    /// What the endpoint does on a row of events, the read of each ending
    /// with the outcome at the same place in `outcomes`.
    pub open spec fn run(
        self,
        events: Seq<Event>,
        outcomes: Seq<Result<Seq<u8>, ReadError>>,
    ) -> Turn
        recommends
            events.len() == outcomes.len(),
        decreases events.len(),
    {
        if events.len() == 0 {
            Turn { endpoint: self, shown: seq![] }
        } else {
            let before = self.run(events.drop_last(), outcomes.drop_last());
            let last = before.endpoint.step(events.last(), outcomes.last());
            Turn { endpoint: last.endpoint, shown: before.shown + last.shown }
        }
    }
}

/// What is written over two stretches is what is written over the first,
/// then over the second.
pub proof fn lemma_written_in_parts(first: Seq<MessageView>, second: Seq<MessageView>)
    ensures
        written(first + second) == written(first) + written(second),
    decreases second.len(),
{
    if second.len() > 0 {
        assert((first + second).drop_last() == first + second.drop_last());
        lemma_written_in_parts(first, second.drop_last());
    }
}

/// What is appended over two stretches is what is appended over the first,
/// then over the second.
pub proof fn lemma_appended_in_parts(first: Seq<MessageView>, second: Seq<MessageView>)
    ensures
        appended(first + second) == appended(first) + appended(second),
    decreases second.len(),
{
    if second.len() > 0 {
        assert((first + second).drop_last() == first + second.drop_last());
        lemma_appended_in_parts(first, second.drop_last());
    }
}

/// The same frame read by the camera any number of times, at least once,
/// leaves the endpoint as one reading does, with the same frames written
/// and the same bytes appended.
pub proof fn lemma_repeated_frame_counts_once(
    endpoint: Endpoint,
    frame: Seq<u8>,
    outcomes: Seq<Result<Seq<u8>, ReadError>>,
)
    requires
        outcomes.len() >= 1,
    ensures
        ({
            let once = endpoint.step(Event::ReceiveFrame(frame), outcomes[0]);
            let often = endpoint.run(
                Seq::new(outcomes.len(), |i: int| Event::ReceiveFrame(frame)),
                outcomes,
            );
            &&& often.endpoint == once.endpoint
            &&& written(often.shown) == written(once.shown)
            &&& appended(often.shown) == appended(once.shown)
        }),
    decreases outcomes.len(),
{
    let events = Seq::new(outcomes.len(), |i: int| Event::ReceiveFrame(frame));
    let fewer = Seq::new((outcomes.len() - 1) as nat, |i: int| Event::ReceiveFrame(frame));
    assert(events.drop_last() == fewer);
    if outcomes.len() == 1 {
        reveal_with_fuel(Endpoint::run, 2);
    } else {
        lemma_repeated_frame_counts_once(endpoint, frame, outcomes.drop_last());
        let before = endpoint.run(fewer, outcomes.drop_last());
        lemma_frame_counts_once(endpoint, frame, outcomes[0], outcomes.last());
        let last = before.endpoint.step(Event::ReceiveFrame(frame), outcomes.last());
        lemma_written_in_parts(before.shown, last.shown);
        lemma_appended_in_parts(before.shown, last.shown);
    }
}

/// In one turn an endpoint writes at most one frame. The frame has the
/// number that was next, and the number after it is next then.
pub proof fn lemma_turn_numbers_its_frame(
    endpoint: Endpoint,
    event: Event,
    outcome: Result<Seq<u8>, ReadError>,
)
    ensures
        ({
            let turn = endpoint.step(event, outcome);
            let frames = written(turn.shown);
            &&& frames.len() <= 1
            &&& frames.len() == 0 ==> turn.endpoint.sequence == endpoint.sequence
            &&& frames.len() == 1 ==> {
                &&& well_formed(frames[0])
                &&& sequence_of(frames[0]) == endpoint.sequence
                &&& turn.endpoint.sequence == following(endpoint.sequence)
            }
        }),
{
    reveal_with_fuel(Endpoint::route, 5);
    reveal_with_fuel(display_of, 3);
    reveal_with_fuel(written, 3);
    lemma_done_fields(endpoint.sequence);
    match event {
        Event::Receive => {
            if endpoint.receiver.running {
                lemma_receive_asks(endpoint, outcome);
                lemma_cts_fields(
                    endpoint.sequence,
                    low32(endpoint.receiver.expected_segment_offset),
                );
            }
        },
        Event::Send => {
            if endpoint.sender.running {
                lemma_published_fields(endpoint.sequence, 0, endpoint.sender.segment_count, outcome);
            }
        },
        Event::ReceiveFrame(frame) => {
            if !awaited(endpoint, frame) {
                lemma_other_frame_is_dropped(endpoint, frame, outcome);
            } else if type_of(frame) == FRAME_TYPE_CTS {
                if endpoint.sender.running {
                    lemma_cts_is_served(endpoint, frame, outcome);
                    lemma_published_fields(
                        endpoint.sequence,
                        segment_offset_of(frame),
                        endpoint.sender.segment_count,
                        outcome,
                    );
                }
            } else if type_of(frame) == FRAME_TYPE_DONE {
                lemma_done_shuts_down(endpoint, frame, outcome);
            } else if segment_offset_of(frame) == endpoint.receiver.expected_segment_offset {
                lemma_segment_is_answered(endpoint, frame, outcome);
                lemma_cts_fields(
                    endpoint.sequence,
                    low32(offset_after(endpoint.receiver.expected_segment_offset)),
                );
            }
        },
    }
}

/// The frame that the sender shows for a read is a frame, and it has the
/// number that it was given.
pub proof fn lemma_published_fields(
    sequence: u32,
    offset: usize,
    segment_count: usize,
    outcome: Result<Seq<u8>, ReadError>,
)
    ensures
        well_formed(published(sequence, offset, segment_count, outcome)),
        sequence_of(published(sequence, offset, segment_count, outcome)) == sequence,
{
    match outcome {
        Ok(data) => {
            lemma_segment_fields(
                sequence,
                low32(offset),
                low32(segment_count),
                data,
            );
        },
        Err(_) => {
            lemma_done_fields(sequence);
        },
    }
}

/// Over any row of events the frames that an endpoint writes are numbered
/// one after the other from the number that was next at the start, so each
/// has a larger number than the one before it, as long as the numbers stay
/// within 32 bits.
pub proof fn lemma_sequences_increase(
    endpoint: Endpoint,
    events: Seq<Event>,
    outcomes: Seq<Result<Seq<u8>, ReadError>>,
)
    requires
        events.len() == outcomes.len(),
        endpoint.sequence + written(endpoint.run(events, outcomes).shown).len() <= u32::MAX,
    ensures
        ({
            let frames = written(endpoint.run(events, outcomes).shown);
            &&& endpoint.run(events, outcomes).endpoint.sequence == endpoint.sequence + frames.len()
            &&& forall|i: int|
                0 <= i < frames.len() ==> sequence_of(#[trigger] frames[i]) == endpoint.sequence
                    + i
            &&& forall|i: int, j: int|
                0 <= i < j < frames.len() ==> sequence_of(#[trigger] frames[i]) < sequence_of(
                    #[trigger] frames[j],
                )
        }),
    decreases events.len(),
{
    if events.len() > 0 {
        let before = endpoint.run(events.drop_last(), outcomes.drop_last());
        let last = before.endpoint.step(events.last(), outcomes.last());
        lemma_written_in_parts(before.shown, last.shown);
        lemma_sequences_increase(endpoint, events.drop_last(), outcomes.drop_last());
        lemma_turn_numbers_its_frame(before.endpoint, events.last(), outcomes.last());
    }
}

/// What an endpoint does on an event that causes no read does not depend
/// on how a read would end.
pub proof fn lemma_step_without_read(
    endpoint: Endpoint,
    event: Event,
    one: Result<Seq<u8>, ReadError>,
    other: Result<Seq<u8>, ReadError>,
)
    requires
        endpoint.reads(event) is None,
    ensures
        endpoint.step(event, one) == endpoint.step(event, other),
{
    reveal_with_fuel(Endpoint::route, 2);
    reveal_with_fuel(send_frames, 2);
    match event {
        Event::Receive => {
            lemma_receiver_asks_once(endpoint.receiver, endpoint.sequence, MessageView::ReceiveNextFrame);
        },
        Event::Send => {},
        Event::ReceiveFrame(frame) => {
            let message = MessageView::ReceiveFrame(frame);
            let handover = endpoint.hand(Port::Receiver, message, one);
            lemma_receiver_asks_once(endpoint.receiver, endpoint.sequence, message);
            if send_frames(handover.deliveries) == 0 {
                lemma_route_without_read(handover.endpoint, handover.deliveries, one, other);
            }
        },
    }
}

/// The frames that the display is told to append to the output, in order.
pub open spec fn appended_frames(shown: Seq<MessageView>) -> Seq<Seq<u8>>
    decreases shown.len(),
{
    if shown.len() == 0 {
        seq![]
    } else {
        match shown.last() {
            MessageView::AppendToOutput(frame) => appended_frames(shown.drop_last()).push(frame),
            _ => appended_frames(shown.drop_last()),
        }
    }
}

/// The segment bytes of the frames, joined in the order of the frames.
pub open spec fn joined(frames: Seq<Seq<u8>>) -> Seq<u8>
    decreases frames.len(),
{
    if frames.len() == 0 {
        seq![]
    } else {
        joined(frames.drop_last()) + data_of(frames.last())
    }
}

/// The bytes that the display is told to append are the segment bytes of
/// the frames that it is told to append.
pub proof fn lemma_appended_is_joined(shown: Seq<MessageView>)
    ensures
        appended(shown) == joined(appended_frames(shown)),
    decreases shown.len(),
{
    if shown.len() > 0 {
        lemma_appended_is_joined(shown.drop_last());
        match shown.last() {
            MessageView::AppendToOutput(frame) => {
                assert(appended_frames(shown).drop_last() == appended_frames(shown.drop_last()));
            },
            _ => {},
        }
    }
}

/// What goes to the display over two stretches of deliveries is what goes
/// there over the first, then over the second.
pub proof fn lemma_display_in_parts(first: Seq<DeliveryView>, second: Seq<DeliveryView>)
    ensures
        display_of(first + second) == display_of(first) + display_of(second),
    decreases second.len(),
{
    if second.len() == 0 {
        assert(first + second == first);
    } else {
        assert((first + second).drop_last() == first + second.drop_last());
        lemma_display_in_parts(first, second.drop_last());
    }
}

/// The frames appended over two stretches are those of the first, then
/// those of the second.
pub proof fn lemma_appended_frames_in_parts(first: Seq<MessageView>, second: Seq<MessageView>)
    ensures
        appended_frames(first + second) == appended_frames(first) + appended_frames(second),
    decreases second.len(),
{
    if second.len() == 0 {
        assert(first + second == first);
    } else {
        assert((first + second).drop_last() == first + second.drop_last());
        lemma_appended_frames_in_parts(first, second.drop_last());
    }
}

impl Receiver {
    /// What the receiver task does with a row of messages, the first frame
    /// that the process builds getting the number `sequence`.
    pub open spec fn run(self, sequence: u32, messages: Seq<MessageView>) -> Reaction
        decreases messages.len(),
    {
        if messages.len() == 0 {
            Reaction { receiver: self, sequence, deliveries: seq![] }
        } else {
            let before = self.run(sequence, messages.drop_last());
            let last = before.receiver.react(before.sequence, messages.last());
            Reaction {
                receiver: last.receiver,
                sequence: last.sequence,
                deliveries: before.deliveries + last.deliveries,
            }
        }
    }
}

/// Whether the frames are segments as a peer sends them from its start: the
/// frame at each place has that place as its sequence number and as its
/// segment offset.
pub open spec fn numbered_segments(frames: Seq<Seq<u8>>) -> bool {
    forall|k: int|
        0 <= k < frames.len() ==> {
            &&& well_formed(#[trigger] frames[k])
            &&& type_of(frames[k]) == FRAME_TYPE_SEGMENT
            &&& sequence_of(frames[k]) == k
            &&& segment_offset_of(frames[k]) == k
        }
}

/// How many of `frames` the row of `messages` has brought, where it brings
/// them in their order: each message asks for the next frame, or is the
/// frame that came last once more, or is the frame after it. `None` for any
/// other row.
pub open spec fn brought(frames: Seq<Seq<u8>>, messages: Seq<MessageView>) -> Option<nat>
    decreases messages.len(),
{
    if messages.len() == 0 {
        Some(0)
    } else {
        match brought(frames, messages.drop_last()) {
            Some(count) => match messages.last() {
                MessageView::ReceiveNextFrame => Some(count),
                MessageView::ReceiveFrame(frame) => if count > 0 && frame == frames[count - 1] {
                    Some(count)
                } else if count < frames.len() && frame == frames[count as int] {
                    Some((count + 1) as nat)
                } else {
                    None
                },
                _ => None,
            },
            None => None,
        }
    }
}

/// A receiver task at its start that gets the segments of a peer in their
/// order, each of them any number of times and with requests for the next
/// frame in between, hands on each segment once and in order: nothing is
/// lost, repeated, reordered or altered.
pub proof fn lemma_receiver_hands_on_in_order(
    frames: Seq<Seq<u8>>,
    messages: Seq<MessageView>,
    sequence: u32,
)
    requires
        numbered_segments(frames),
        frames.len() <= u32::MAX,
    ensures
        brought(frames, messages) matches Some(count) ==> ({
            let start = Receiver {
                expected_frame_sequence: 0,
                expected_segment_offset: 0,
                running: true,
            };
            let reaction = start.run(sequence, messages);
            let shown = display_of(reaction.deliveries);
            &&& count <= frames.len()
            &&& appended_frames(shown) == frames.subrange(0, count as int)
            &&& appended(shown) == joined(frames.subrange(0, count as int))
            &&& reaction.receiver == (Receiver {
                expected_frame_sequence: count as usize,
                expected_segment_offset: count as usize,
                running: true,
            })
        }),
    decreases messages.len(),
{
    let start = Receiver { expected_frame_sequence: 0, expected_segment_offset: 0, running: true };
    if messages.len() == 0 {
        assert(frames.subrange(0, 0) == Seq::<Seq<u8>>::empty());
    } else {
        let earlier = messages.drop_last();
        lemma_receiver_hands_on_in_order(frames, earlier, sequence);
        match brought(frames, earlier) {
            Some(count) => {
                let before = start.run(sequence, earlier);
                let last = before.receiver.react(before.sequence, messages.last());
                let shown_before = display_of(before.deliveries);
                lemma_display_in_parts(before.deliveries, last.deliveries);
                lemma_appended_frames_in_parts(shown_before, display_of(last.deliveries));
                lemma_appended_is_joined(display_of(before.deliveries + last.deliveries));
                reveal_with_fuel(display_of, 3);
                reveal_with_fuel(appended_frames, 3);
                match messages.last() {
                    MessageView::ReceiveNextFrame => {
                        assert(appended_frames(shown_before) + Seq::<Seq<u8>>::empty()
                            == appended_frames(shown_before));
                    },
                    MessageView::ReceiveFrame(frame) => {
                        if count > 0 && frame == frames[count - 1] {
                            assert(appended_frames(shown_before) + Seq::<Seq<u8>>::empty()
                                == appended_frames(shown_before));
                        } else if count < frames.len() && frame == frames[count as int] {
                            assert(last.deliveries.drop_last().drop_last().len() == 0);
                            assert(display_of(last.deliveries) == seq![
                                MessageView::AppendToOutput(frame),
                            ]);
                            assert(appended_frames(display_of(last.deliveries)) == seq![frame]);
                            assert(frames.subrange(0, count as int) + seq![frame]
                                == frames.subrange(0, (count + 1) as int));
                        }
                    },
                    _ => {},
                }
            },
            None => {},
        }
    }
}

impl SenderState {
    /// What the sender task does with a row of messages, the read that each
    /// may cause ending with the outcome at the same place in `outcomes`,
    /// and the first frame that the process builds getting the number
    /// `sequence`.
    pub open spec fn run(
        self,
        sequence: u32,
        messages: Seq<MessageView>,
        outcomes: Seq<Result<Seq<u8>, ReadError>>,
    ) -> Emission
        recommends
            messages.len() == outcomes.len(),
        decreases messages.len(),
    {
        if messages.len() == 0 {
            Emission { sender: self, sequence, deliveries: seq![] }
        } else {
            let before = self.run(sequence, messages.drop_last(), outcomes.drop_last());
            let last = before.sender.react(before.sequence, messages.last(), outcomes.last());
            Emission {
                sender: last.sender,
                sequence: last.sequence,
                deliveries: before.deliveries + last.deliveries,
            }
        }
    }
}

/// Requests for the first `count` segments, in their order.
pub open spec fn requests(count: nat) -> Seq<MessageView> {
    Seq::new(count, |k: int| MessageView::SendFrame(k as usize))
}

/// How the reads for the first `count` segments end at a source that holds
/// `data` and cuts it into fragments of `fragment_size` bytes.
pub open spec fn reads_of(data: Seq<u8>, fragment_size: u16, count: nat) -> Seq<
    Result<Seq<u8>, ReadError>,
> {
    Seq::new(count, |k: int| segment_of(data, k as usize, fragment_size as usize))
}

/// The frames that a sender task shows when it is asked for the first
/// `count` segments of `data`: one frame for each segment that there is,
/// and after the last of them the end of the stream.
pub open spec fn shown_for(
    state: SenderState,
    sequence: u32,
    data: Seq<u8>,
    count: nat,
) -> Seq<Seq<u8>> {
    Seq::new(
        if count <= segments(data.len(), state.fragment_size) {
            count
        } else {
            segments(data.len(), state.fragment_size) + 1
        },
        |k: int|
            if k < segments(data.len(), state.fragment_size) {
                segment_bytes(
                    (sequence + k) as u32,
                    k as u32,
                    low32(state.segment_count),
                    segment_at(data, state.fragment_size, k as nat),
                )
            } else {
                done_bytes((sequence + k) as u32)
            },
    )
}

/// A sender task that is asked for the segments of its source one after the
/// other shows each segment of the source's input in its order, then the
/// end of the stream once, and then nothing.
pub proof fn lemma_sender_shows_the_stream(
    state: SenderState,
    sequence: u32,
    data: Seq<u8>,
    count: nat,
)
    requires
        state.running,
        state.fragment_size > 0,
        sequence + count <= u32::MAX,
    ensures
        ({
            let emission = state.run(
                sequence,
                requests(count),
                reads_of(data, state.fragment_size, count),
            );
            let frames = shown_for(state, sequence, data, count);
            &&& written(display_of(emission.deliveries)) == frames
            &&& emission.deliveries.len() == frames.len()
            &&& emission.sequence == sequence + frames.len()
            &&& emission.sender == (SenderState {
                fragment_size: state.fragment_size,
                segment_count: state.segment_count,
                running: count <= segments(data.len(), state.fragment_size),
            })
        }),
    decreases count,
{
    let size = state.fragment_size;
    let total = segments(data.len(), size);
    if count == 0 {
        assert(requests(0).len() == 0);
    } else {
        let fewer = (count - 1) as nat;
        lemma_sender_shows_the_stream(state, sequence, data, fewer);
        assert(requests(count).drop_last() == requests(fewer));
        assert(reads_of(data, size, count).drop_last() == reads_of(data, size, fewer));
        let before = state.run(sequence, requests(fewer), reads_of(data, size, fewer));
        let outcome = segment_of(data, fewer as usize, size as usize);
        assert(reads_of(data, size, count).last() == outcome);
        assert(requests(count).last() == MessageView::SendFrame(fewer as usize));
        let last = before.sender.react(
            before.sequence,
            MessageView::SendFrame(fewer as usize),
            outcome,
        );
        lemma_display_in_parts(before.deliveries, last.deliveries);
        lemma_written_in_parts(display_of(before.deliveries), display_of(last.deliveries));
        lemma_segment_starts_inside(data.len(), size, fewer);
        reveal_with_fuel(display_of, 2);
        reveal_with_fuel(written, 2);
        let earlier = shown_for(state, sequence, data, fewer);
        let frames = shown_for(state, sequence, data, count);
        if fewer <= total {
            assert((fewer + 1) * (size as int) == fewer * (size as int) + size) by (nonlinear_arith);
            assert((fewer as usize) * (size as usize) == fewer * (size as int));
            assert(last.deliveries.drop_last().len() == 0);
            assert(frames == earlier.push(frames[fewer as int]));
        } else {
            assert(frames == earlier);
            assert(earlier + Seq::<Seq<u8>>::empty() == earlier);
        }
    }
}

/// The segments that a sender task shows for a stream carry the stream: the
/// segment bytes of the frames for the first `count` segments, joined, are
/// the stream up to the end of those segments, and the whole stream where
/// these are all its segments.
pub proof fn lemma_shown_segments_carry_the_stream(
    state: SenderState,
    sequence: u32,
    data: Seq<u8>,
    count: nat,
)
    requires
        state.fragment_size > 0,
        count <= segments(data.len(), state.fragment_size),
    ensures
        joined(shown_for(state, sequence, data, count)) == first_segments(
            data,
            state.fragment_size,
            count,
        ),
        count == segments(data.len(), state.fragment_size) ==> joined(
            shown_for(state, sequence, data, count),
        ) == data,
    decreases count,
{
    let size = state.fragment_size;
    if count == 0 {
        assert(first_segments(data, size, 0) == Seq::<u8>::empty());
        lemma_segment_starts_inside(data.len(), size, 0);
    } else {
        let fewer = (count - 1) as nat;
        lemma_shown_segments_carry_the_stream(state, sequence, data, fewer);
        let frames = shown_for(state, sequence, data, count);
        assert(frames.drop_last() == shown_for(state, sequence, data, fewer));
        lemma_segment_fields(
            (sequence + fewer) as u32,
            fewer as u32,
            low32(state.segment_count),
            segment_at(data, size, fewer),
        );
        lemma_segment_starts_inside(data.len(), size, fewer);
        lemma_segment_starts_inside(data.len(), size, count);
        assert((fewer + 1) * (size as int) == fewer * (size as int) + size) by (nonlinear_arith);
        assert(first_segments(data, size, fewer) + segment_at(data, size, fewer)
            == first_segments(data, size, count));
    }
}

/// Each frame that a sender task shows for a segment of its stream is a
/// segment frame for that offset with that segment as its data, no longer
/// than a fragment.
pub proof fn lemma_shown_segment_fields(
    state: SenderState,
    sequence: u32,
    data: Seq<u8>,
    count: nat,
    offset: nat,
)
    requires
        state.fragment_size > 0,
        offset < count <= segments(data.len(), state.fragment_size),
        sequence + count <= u32::MAX,
    ensures
        ({
            let frame = shown_for(state, sequence, data, count)[offset as int];
            &&& well_formed(frame)
            &&& type_of(frame) == FRAME_TYPE_SEGMENT
            &&& sequence_of(frame) == sequence + offset
            &&& segment_offset_of(frame) == offset
            &&& data_of(frame) == segment_at(data, state.fragment_size, offset)
            &&& data_of(frame).len() <= state.fragment_size
        }),
{
    let size = state.fragment_size as int;
    lemma_segment_fields(
        (sequence + offset) as u32,
        offset as u32,
        low32(state.segment_count),
        segment_at(data, state.fragment_size, offset),
    );
    lemma_segment_starts_inside(data.len(), state.fragment_size, offset);
    assert((offset + 1) * size == offset * size + size) by (nonlinear_arith);
}

} // verus!
