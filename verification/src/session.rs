//! Two endpoints that film each other: one holds the stream, the other asks
//! for it. The model of a whole transfer, and what holds of it.

use vstd::prelude::*;
use crate::flow::{
    appended, lemma_cts_is_served, lemma_frame_counts_once, lemma_step_without_read, lemma_done_shuts_down, lemma_other_frame_is_dropped,
    lemma_receive_asks, lemma_segment_is_answered, stops, written,
};
use crate::frame::{
    cts_bytes, done_bytes, lemma_cts_fields, lemma_done_fields, lemma_segment_fields,
    segment_bytes,
};
use crate::message::MessageView;
use crate::receiver::Receiver;
use crate::sender::SenderState;
use crate::source::{
    first_segments, lemma_segment_starts_inside, segment_at, segment_of, segments, MemorySource,
    ReadError,
};
use crate::transport::{Endpoint, Event, Transport, Turn};
use crate::wire::low32;

verus! {

/// A transfer under way.
pub struct Session {
    /// The endpoint that holds the stream.
    pub sending: Endpoint,
    /// The endpoint that asks for the stream.
    pub receiving: Endpoint,
    /// The frame on the screen of the sending endpoint, if it has shown one.
    pub sending_screen: Option<Seq<u8>>,
    /// The frame on the screen of the receiving endpoint.
    pub receiving_screen: Option<Seq<u8>>,
    /// The bytes that the receiving endpoint has appended to its output.
    pub output: Seq<u8>,
    /// Whether the display of the sending endpoint was told to stop.
    pub sending_stopped: bool,
    /// Whether the display of the receiving endpoint was told to stop.
    pub receiving_stopped: bool,
}

/// A source without input: every read finds the end.
pub open spec fn nothing() -> Result<Seq<u8>, ReadError> {
    Err(ReadError::EndOfInput)
}

/// The frame on a screen after the display got `shown`: the last frame
/// written, or what was there.
pub open spec fn screen_after(screen: Option<Seq<u8>>, shown: Seq<MessageView>) -> Option<
    Seq<u8>,
> {
    if written(shown).len() == 0 {
        screen
    } else {
        Some(written(shown).last())
    }
}

/// How a read of `endpoint` on `event` ends when its source holds `data`.
pub open spec fn served(endpoint: Endpoint, event: Event, data: Seq<u8>) -> Result<
    Seq<u8>,
    ReadError,
> {
    match endpoint.reads(event) {
        Some(offset) => segment_of(data, offset, endpoint.sender.fragment_size as usize),
        None => nothing(),
    }
}

impl Session {
    /// The start of a transfer: two fresh endpoints that cut their streams
    /// into fragments of `fragment_size` bytes, the sending one announcing
    /// `announced` segments, and the receiving one asked to receive.
    pub open spec fn opened(fragment_size: u16, announced: usize) -> Session {
        let turn = Endpoint::initial(fragment_size, 0).step(Event::Receive, nothing());
        Session {
            sending: Endpoint::initial(fragment_size, announced),
            receiving: turn.endpoint,
            sending_screen: None,
            receiving_screen: screen_after(None, turn.shown),
            output: appended(turn.shown),
            sending_stopped: false,
            receiving_stopped: stops(turn.shown),
        }
    }

    /// The sending endpoint films the screen of the receiving one. Its
    /// source holds `data`.
    pub open spec fn sender_films(self, data: Seq<u8>) -> Session {
        match self.receiving_screen {
            Some(frame) => {
                let event = Event::ReceiveFrame(frame);
                let turn = self.sending.step(event, served(self.sending, event, data));
                Session {
                    sending: turn.endpoint,
                    receiving: self.receiving,
                    sending_screen: screen_after(self.sending_screen, turn.shown),
                    receiving_screen: self.receiving_screen,
                    output: self.output,
                    sending_stopped: self.sending_stopped || stops(turn.shown),
                    receiving_stopped: self.receiving_stopped,
                }
            },
            None => self,
        }
    }

    /// The receiving endpoint films the screen of the sending one. It has
    /// nothing to send itself.
    pub open spec fn receiver_films(self) -> Session {
        match self.sending_screen {
            Some(frame) => {
                let turn = self.receiving.step(Event::ReceiveFrame(frame), nothing());
                Session {
                    sending: self.sending,
                    receiving: turn.endpoint,
                    sending_screen: self.sending_screen,
                    receiving_screen: screen_after(self.receiving_screen, turn.shown),
                    output: self.output + appended(turn.shown),
                    sending_stopped: self.sending_stopped,
                    receiving_stopped: self.receiving_stopped || stops(turn.shown),
                }
            },
            None => self,
        }
    }

    /// One round trip: each endpoint films the other once, the sending one
    /// first.
    pub open spec fn round(self, data: Seq<u8>) -> Session {
        self.sender_films(data).receiver_films()
    }

    /// The transfer of `data` after `rounds` round trips.
    pub open spec fn after(data: Seq<u8>, fragment_size: u16, announced: usize, rounds: nat) -> Session
        decreases rounds,
    {
        if rounds == 0 {
            Session::opened(fragment_size, announced)
        } else {
            Session::after(data, fragment_size, announced, (rounds - 1) as nat).round(data)
        }
    }

    /// Whether all four tasks have stopped and both displays were told so.
    pub open spec fn ended(self) -> bool {
        &&& !self.sending.receiver.running
        &&& !self.sending.sender.running
        &&& !self.receiving.receiver.running
        &&& !self.receiving.sender.running
        &&& self.sending_stopped
        &&& self.receiving_stopped
    }
}

/// The transfer while segments are still asked for: `done` segments have
/// arrived, and the receiving endpoint asks for the next one.
pub open spec fn under_way(data: Seq<u8>, fragment_size: u16, announced: usize, done: nat) -> Session {
    Session {
        sending: Endpoint {
            sequence: done as u32,
            receiver: Receiver {
                expected_frame_sequence: done as usize,
                expected_segment_offset: if done == 0 {
                    0
                } else {
                    (done - 1) as usize
                },
                running: true,
            },
            sender: SenderState { fragment_size, segment_count: announced, running: true },
        },
        receiving: Endpoint {
            sequence: (done + 1) as u32,
            receiver: Receiver {
                expected_frame_sequence: done as usize,
                expected_segment_offset: done as usize,
                running: true,
            },
            sender: SenderState { fragment_size, segment_count: 0, running: true },
        },
        sending_screen: if done == 0 {
            None
        } else {
            Some(
                segment_bytes(
                    (done - 1) as u32,
                    (done - 1) as u32,
                    low32(announced),
                    segment_at(data, fragment_size, (done - 1) as nat),
                ),
            )
        },
        receiving_screen: Some(cts_bytes(done as u32, done as u32)),
        output: first_segments(data, fragment_size, done),
        sending_stopped: false,
        receiving_stopped: false,
    }
}

/// While segments are left, a round trip brings the next one.
proof fn lemma_round_brings_a_segment(
    data: Seq<u8>,
    fragment_size: u16,
    announced: usize,
    done: nat,
)
    requires
        fragment_size > 0,
        done < segments(data.len(), fragment_size),
        segments(data.len(), fragment_size) + 2 <= u32::MAX,
    ensures
        under_way(data, fragment_size, announced, done).round(data) == under_way(
            data,
            fragment_size,
            announced,
            done + 1,
        ),
{
    let start = under_way(data, fragment_size, announced, done);
    let number = done as u32;
    lemma_segment_starts_inside(data.len(), fragment_size, done);
    let request = cts_bytes(number, number);
    lemma_cts_fields(number, number);
    let event = Event::ReceiveFrame(request);
    let outcome = served(start.sending, event, data);
    lemma_cts_is_served(start.sending, request, outcome);
    let part = segment_at(data, fragment_size, done);
    let size = fragment_size as int;
    assert((done + 1) * size == done * size + size) by (nonlinear_arith);
    let filmed = start.sender_films(data);
    let answer = segment_bytes(number, number, low32(announced), part);
    let shown = start.sending.step(event, outcome).shown;
    assert(written(shown) == seq![answer]) by {
        reveal_with_fuel(written, 2);
    }
    lemma_segment_fields(number, number, low32(announced), part);
    lemma_segment_is_answered(filmed.receiving, answer, nothing());
    let next = cts_bytes((done + 1) as u32, (done + 1) as u32);
    let seen = filmed.receiving.step(Event::ReceiveFrame(answer), nothing()).shown;
    assert(written(seen) == seq![next] && appended(seen) == part) by {
        reveal_with_fuel(written, 3);
        reveal_with_fuel(appended, 3);
    }
    assert(first_segments(data, fragment_size, done) + part == first_segments(
        data,
        fragment_size,
        done + 1,
    ));
}

/// While segments are left, the transfer is where `under_way` says.
proof fn lemma_transfer_under_way(
    data: Seq<u8>,
    fragment_size: u16,
    announced: usize,
    rounds: nat,
)
    requires
        fragment_size > 0,
        rounds <= segments(data.len(), fragment_size),
        segments(data.len(), fragment_size) + 2 <= u32::MAX,
    ensures
        Session::after(data, fragment_size, announced, rounds) == under_way(
            data,
            fragment_size,
            announced,
            rounds,
        ),
    decreases rounds,
{
    if rounds == 0 {
        let fresh = Endpoint::initial(fragment_size, 0);
        lemma_receive_asks(fresh, nothing());
        let shown = fresh.step(Event::Receive, nothing()).shown;
        assert(written(shown) == seq![cts_bytes(0, 0)] && appended(shown) == Seq::<u8>::empty()) by {
            reveal_with_fuel(written, 2);
            reveal_with_fuel(appended, 2);
        }
        assert(first_segments(data, fragment_size, 0) == Seq::<u8>::empty());
    } else {
        lemma_transfer_under_way(data, fragment_size, announced, (rounds - 1) as nat);
        lemma_round_brings_a_segment(data, fragment_size, announced, (rounds - 1) as nat);
    }
}

/// The transfer one round trip after the last segment arrived: the sending
/// endpoint has shown the end of the stream, and the receiving endpoint has
/// confirmed it and stopped.
pub open spec fn closing(data: Seq<u8>, fragment_size: u16, announced: usize) -> Session {
    let count = segments(data.len(), fragment_size);
    Session {
        sending: Endpoint {
            sequence: (count + 1) as u32,
            receiver: Receiver {
                expected_frame_sequence: (count + 1) as usize,
                expected_segment_offset: count as usize,
                running: true,
            },
            sender: SenderState { fragment_size, segment_count: announced, running: false },
        },
        receiving: Endpoint {
            sequence: (count + 2) as u32,
            receiver: Receiver {
                expected_frame_sequence: (count + 1) as usize,
                expected_segment_offset: count as usize,
                running: false,
            },
            sender: SenderState { fragment_size, segment_count: 0, running: false },
        },
        sending_screen: Some(done_bytes(count as u32)),
        receiving_screen: Some(done_bytes((count + 1) as u32)),
        output: data,
        sending_stopped: false,
        receiving_stopped: true,
    }
}

/// The transfer at its end: the sending endpoint has seen the confirmation
/// and stopped as well.
pub open spec fn finished(data: Seq<u8>, fragment_size: u16, announced: usize) -> Session {
    let count = segments(data.len(), fragment_size);
    Session {
        sending: Endpoint {
            sequence: (count + 2) as u32,
            receiver: Receiver {
                expected_frame_sequence: (count + 2) as usize,
                expected_segment_offset: count as usize,
                running: false,
            },
            sender: SenderState { fragment_size, segment_count: announced, running: false },
        },
        receiving: closing(data, fragment_size, announced).receiving,
        sending_screen: Some(done_bytes((count + 1) as u32)),
        receiving_screen: Some(done_bytes((count + 1) as u32)),
        output: data,
        sending_stopped: true,
        receiving_stopped: true,
    }
}

/// When all segments have arrived, the next round trip closes the stream.
proof fn lemma_round_closes(data: Seq<u8>, fragment_size: u16, announced: usize)
    requires
        fragment_size > 0,
        segments(data.len(), fragment_size) + 2 <= u32::MAX,
    ensures
        under_way(
            data,
            fragment_size,
            announced,
            segments(data.len(), fragment_size),
        ).round(data) == closing(data, fragment_size, announced),
{
    let count = segments(data.len(), fragment_size);
    let start = under_way(data, fragment_size, announced, count);
    let number = count as u32;
    lemma_segment_starts_inside(data.len(), fragment_size, count);
    let request = cts_bytes(number, number);
    lemma_cts_fields(number, number);
    let event = Event::ReceiveFrame(request);
    let outcome = served(start.sending, event, data);
    lemma_cts_is_served(start.sending, request, outcome);
    let filmed = start.sender_films(data);
    let end = done_bytes(number);
    let shown = start.sending.step(event, outcome).shown;
    assert(written(shown) == seq![end]) by {
        reveal_with_fuel(written, 2);
    }
    lemma_done_fields(number);
    lemma_done_shuts_down(filmed.receiving, end, nothing());
    let confirmation = done_bytes((count + 1) as u32);
    let seen = filmed.receiving.step(Event::ReceiveFrame(end), nothing()).shown;
    assert(written(seen) == seq![confirmation] && appended(seen) == Seq::<u8>::empty()) by {
        reveal_with_fuel(written, 3);
        reveal_with_fuel(appended, 3);
    }
    assert(stops(seen));
    assert(first_segments(data, fragment_size, count) + Seq::<u8>::empty() == data);
}

/// When the stream is closed, the next round trip stops the sending
/// endpoint.
proof fn lemma_round_finishes(data: Seq<u8>, fragment_size: u16, announced: usize)
    requires
        fragment_size > 0,
        segments(data.len(), fragment_size) + 2 <= u32::MAX,
    ensures
        closing(data, fragment_size, announced).round(data) == finished(
            data,
            fragment_size,
            announced,
        ),
{
    let count = segments(data.len(), fragment_size);
    let start = closing(data, fragment_size, announced);
    let confirmation = done_bytes((count + 1) as u32);
    lemma_done_fields((count + 1) as u32);
    let event = Event::ReceiveFrame(confirmation);
    let outcome = served(start.sending, event, data);
    lemma_done_shuts_down(start.sending, confirmation, outcome);
    let shown = start.sending.step(event, outcome).shown;
    assert(written(shown) == seq![confirmation]) by {
        reveal_with_fuel(written, 3);
    }
    assert(stops(shown));
    let filmed = start.sender_films(data);
    lemma_other_frame_is_dropped(filmed.receiving, confirmation, nothing());
}

/// At its end a transfer stays as it is.
proof fn lemma_round_after_the_end(data: Seq<u8>, fragment_size: u16, announced: usize)
    ensures
        finished(data, fragment_size, announced).round(data) == finished(
            data,
            fragment_size,
            announced,
        ),
{
    let count = segments(data.len(), fragment_size);
    let start = finished(data, fragment_size, announced);
    let confirmation = done_bytes((count + 1) as u32);
    let event = Event::ReceiveFrame(confirmation);
    let outcome = served(start.sending, event, data);
    lemma_other_frame_is_dropped(start.sending, confirmation, outcome);
    let filmed = start.sender_films(data);
    lemma_other_frame_is_dropped(filmed.receiving, confirmation, nothing());
}

/// From two round trips after the last segment on, the transfer is at its
/// end.
proof fn lemma_transfer_finished(
    data: Seq<u8>,
    fragment_size: u16,
    announced: usize,
    rounds: nat,
)
    requires
        fragment_size > 0,
        segments(data.len(), fragment_size) + 2 <= u32::MAX,
        rounds >= segments(data.len(), fragment_size) + 2,
    ensures
        Session::after(data, fragment_size, announced, rounds) == finished(
            data,
            fragment_size,
            announced,
        ),
    decreases rounds,
{
    let count = segments(data.len(), fragment_size);
    if rounds == count + 2 {
        lemma_transfer_under_way(data, fragment_size, announced, count);
        lemma_round_closes(data, fragment_size, announced);
        lemma_round_finishes(data, fragment_size, announced);
        assert(Session::after(data, fragment_size, announced, count + 1) == closing(
            data,
            fragment_size,
            announced,
        ));
    } else {
        lemma_transfer_finished(data, fragment_size, announced, (rounds - 1) as nat);
        lemma_round_after_the_end(data, fragment_size, announced);
    }
}

/// While segments are left, the output after each round trip is the stream
/// up to the end of the segments that have arrived, one more with each
/// round trip.
pub proof fn lemma_output_grows_by_segments(
    data: Seq<u8>,
    fragment_size: u16,
    announced: usize,
    rounds: nat,
)
    requires
        fragment_size > 0,
        segments(data.len(), fragment_size) + 2 <= u32::MAX,
        rounds <= segments(data.len(), fragment_size),
    ensures
        Session::after(data, fragment_size, announced, rounds).output == first_segments(
            data,
            fragment_size,
            rounds,
        ),
        !Session::after(data, fragment_size, announced, rounds).receiving_stopped,
{
    lemma_transfer_under_way(data, fragment_size, announced, rounds);
}

/// A stream that is sent arrives as it was: once one round trip more than
/// the stream has segments is over, the output of the receiving endpoint is
/// the stream, and it stays so.
pub proof fn lemma_stream_arrives(
    data: Seq<u8>,
    fragment_size: u16,
    announced: usize,
    rounds: nat,
)
    requires
        fragment_size > 0,
        segments(data.len(), fragment_size) + 2 <= u32::MAX,
        rounds > segments(data.len(), fragment_size),
    ensures
        Session::after(data, fragment_size, announced, rounds).output == data,
{
    let count = segments(data.len(), fragment_size);
    if rounds == count + 1 {
        lemma_transfer_under_way(data, fragment_size, announced, count);
        lemma_round_closes(data, fragment_size, announced);
    } else {
        lemma_transfer_finished(data, fragment_size, announced, rounds);
    }
}

/// A stream of at most ten megabytes arrives as it was, whatever the
/// fragment size.
pub proof fn lemma_ten_megabytes_arrive(
    data: Seq<u8>,
    fragment_size: u16,
    announced: usize,
    rounds: nat,
)
    requires
        fragment_size > 0,
        data.len() <= 10 * 1024 * 1024,
        rounds > segments(data.len(), fragment_size),
    ensures
        Session::after(data, fragment_size, announced, rounds).output == data,
{
    let size = fragment_size as int;
    let len = data.len() as int;
    assert((len + size - 1) / size <= len + size - 1) by (nonlinear_arith)
        requires
            size > 0,
            len >= 0,
    ;
    lemma_stream_arrives(data, fragment_size, announced, rounds);
}

/// When the source is exhausted the transfer ends: two round trips after
/// the last segment arrived, all four tasks have stopped and both displays
/// were told to stop, and so it stays.
pub proof fn lemma_transfer_ends(
    data: Seq<u8>,
    fragment_size: u16,
    announced: usize,
    rounds: nat,
)
    requires
        fragment_size > 0,
        segments(data.len(), fragment_size) + 2 <= u32::MAX,
        rounds >= segments(data.len(), fragment_size) + 2,
    ensures
        Session::after(data, fragment_size, announced, rounds).ended(),
        Session::after(data, fragment_size, announced, rounds).output == data,
{
    lemma_transfer_finished(data, fragment_size, announced, rounds);
}

/// Which endpoint films the other's screen.
pub enum Filming {
    /// The endpoint that holds the stream.
    Sender,
    /// The endpoint that asks for the stream.
    Receiver,
}

/// How far a row of filmings has brought a transfer.
pub struct Headway {
    /// The round trips that are over.
    pub rounds: nat,
    /// Whether the sending endpoint has filmed the screen of the receiving
    /// one since the last round trip was over.
    pub halfway: bool,
}

/// The headway of a row of filmings: a round trip is over when the receiving
/// endpoint films after the sending one has.
pub open spec fn headway(filmings: Seq<Filming>) -> Headway
    decreases filmings.len(),
{
    if filmings.len() == 0 {
        Headway { rounds: 0, halfway: false }
    } else {
        let before = headway(filmings.drop_last());
        match filmings.last() {
            Filming::Sender => Headway { rounds: before.rounds, halfway: true },
            Filming::Receiver => Headway {
                rounds: if before.halfway {
                    before.rounds + 1
                } else {
                    before.rounds
                },
                halfway: false,
            },
        }
    }
}

impl Session {
    /// The transfer after the endpoints have filmed each other in the order
    /// of `filmings`: any endpoint any number of times in a row.
    pub open spec fn filmed(self, data: Seq<u8>, filmings: Seq<Filming>) -> Session
        decreases filmings.len(),
    {
        if filmings.len() == 0 {
            self
        } else {
            let before = self.filmed(data, filmings.drop_last());
            match filmings.last() {
                Filming::Sender => before.sender_films(data),
                Filming::Receiver => before.receiver_films(),
            }
        }
    }
}

/// The sending endpoint filming the same screen again changes nothing.
pub proof fn lemma_sender_films_once(session: Session, data: Seq<u8>)
    ensures
        session.sender_films(data).sender_films(data) == session.sender_films(data),
{
    match session.receiving_screen {
        Some(frame) => {
            let event = Event::ReceiveFrame(frame);
            let once = session.sender_films(data);
            lemma_frame_counts_once(
                session.sending,
                frame,
                served(session.sending, event, data),
                served(once.sending, event, data),
            );
        },
        None => {},
    }
}

/// The receiving endpoint filming the same screen again changes nothing.
pub proof fn lemma_receiver_films_once(session: Session)
    ensures
        session.receiver_films().receiver_films() == session.receiver_films(),
{
    match session.sending_screen {
        Some(frame) => {
            lemma_frame_counts_once(session.receiving, frame, nothing(), nothing());
        },
        None => {},
    }
}

/// However often and in whatever order the endpoints film each other, the
/// transfer is where its round trips have brought it: photographs of a frame
/// that was filmed before do not count.
pub proof fn lemma_only_round_trips_count(
    data: Seq<u8>,
    fragment_size: u16,
    announced: usize,
    filmings: Seq<Filming>,
)
    ensures
        ({
            let reached = Session::opened(fragment_size, announced).filmed(data, filmings);
            let whole = Session::after(
                data,
                fragment_size,
                announced,
                headway(filmings).rounds,
            );
            reached == if headway(filmings).halfway {
                whole.sender_films(data)
            } else {
                whole
            }
        }),
    decreases filmings.len(),
{
    if filmings.len() > 0 {
        let earlier = filmings.drop_last();
        lemma_only_round_trips_count(data, fragment_size, announced, earlier);
        let rounds = headway(earlier).rounds;
        let whole = Session::after(data, fragment_size, announced, rounds);
        match filmings.last() {
            Filming::Sender => {
                lemma_sender_films_once(whole, data);
            },
            Filming::Receiver => {
                if !headway(earlier).halfway && rounds > 0 {
                    let previous = Session::after(
                        data,
                        fragment_size,
                        announced,
                        (rounds - 1) as nat,
                    );
                    lemma_receiver_films_once(previous.sender_films(data));
                }
            },
        }
    }
}

/// Whatever the camera of either endpoint misses or takes twice, the output
/// of the receiving endpoint is always the stream up to the end of a
/// segment, one segment more with each round trip, and the whole stream
/// once the round trips are more than the segments.
pub proof fn lemma_output_is_what_arrived(
    data: Seq<u8>,
    fragment_size: u16,
    announced: usize,
    filmings: Seq<Filming>,
)
    requires
        fragment_size > 0,
        segments(data.len(), fragment_size) + 2 <= u32::MAX,
    ensures
        Session::opened(fragment_size, announced).filmed(data, filmings).output
            == first_segments(data, fragment_size, headway(filmings).rounds),
        headway(filmings).rounds > segments(data.len(), fragment_size) ==> Session::opened(
            fragment_size,
            announced,
        ).filmed(data, filmings).output == data,
{
    let rounds = headway(filmings).rounds;
    let count = segments(data.len(), fragment_size);
    lemma_only_round_trips_count(data, fragment_size, announced, filmings);
    if rounds <= count {
        lemma_output_grows_by_segments(data, fragment_size, announced, rounds);
    } else {
        lemma_stream_arrives(data, fragment_size, announced, rounds);
        lemma_segment_starts_inside(data.len(), fragment_size, rounds);
    }
}

/// Whatever the camera of either endpoint misses or takes twice, two round
/// trips after the last segment arrived the transfer has ended, and it
/// stays ended.
pub proof fn lemma_transfer_ends_whatever_is_filmed(
    data: Seq<u8>,
    fragment_size: u16,
    announced: usize,
    filmings: Seq<Filming>,
)
    requires
        fragment_size > 0,
        segments(data.len(), fragment_size) + 2 <= u32::MAX,
        headway(filmings).rounds >= segments(data.len(), fragment_size) + 2,
    ensures
        Session::opened(fragment_size, announced).filmed(data, filmings).ended(),
        Session::opened(fragment_size, announced).filmed(data, filmings).output == data,
{
    let rounds = headway(filmings).rounds;
    lemma_only_round_trips_count(data, fragment_size, announced, filmings);
    lemma_transfer_finished(data, fragment_size, announced, rounds);
    let end = finished(data, fragment_size, announced);
    match end.receiving_screen {
        Some(frame) => {
            lemma_other_frame_is_dropped(
                end.sending,
                frame,
                served(end.sending, Event::ReceiveFrame(frame), data),
            );
        },
        None => {},
    }
}

/// An endpoint whose source is a memory source does on each event what the
/// model of a transfer takes it to do: its read gives the segment of the
/// source's input, and the input stays as it is.
pub proof fn lemma_memory_endpoint_is_modelled(
    before: Transport<MemorySource>,
    event: Event,
    after: Transport<MemorySource>,
    shown: Seq<MessageView>,
    outcome: Result<Seq<u8>, ReadError>,
)
    requires
        before.may_turn(event, after, shown, outcome),
    ensures
        before.endpoint().step(event, served(before.endpoint(), event, before.source().data()))
            == (Turn { endpoint: after.endpoint(), shown }),
        after.source().data() == before.source().data(),
{
    if before.endpoint().reads(event) is None {
        lemma_step_without_read(
            before.endpoint(),
            event,
            outcome,
            served(before.endpoint(), event, before.source().data()),
        );
    }
}

} // verus!
