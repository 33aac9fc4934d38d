//! An endpoint: one sequence counter, one receiver task and one sender task,
//! with the messages between the two tasks carried until none is left.

use vstd::prelude::*;
use crate::frame::{Frame, SequenceCounter};
use crate::message::{views, Delivery, DeliveryView, Message, MessageView, Port};
use crate::receiver::Receiver;
use crate::sender::{announced_count, Sender, SenderState};
use crate::source::{ReadError, SegmentSource, SegmentSourceFactory};

verus! {

/// The state of an endpoint, but for the sender's source.
pub struct Endpoint {
    /// The number of the next frame that the process builds.
    pub sequence: u32,
    pub receiver: Receiver,
    pub sender: SenderState,
}

/// What a task answers to one message: the endpoint afterwards and what the
/// task sends.
pub struct Handover {
    pub endpoint: Endpoint,
    pub deliveries: Seq<DeliveryView>,
}

/// What an endpoint does until its tasks have no message left: the endpoint
/// afterwards and what reached the display, in order.
pub struct Turn {
    pub endpoint: Endpoint,
    pub shown: Seq<MessageView>,
}

/// What sets an endpoint going from outside.
pub enum Event {
    /// The endpoint is to ask the peer for the next segment.
    Receive,
    /// The camera read the bytes of a frame.
    ReceiveFrame(Seq<u8>),
    /// The endpoint is to show its first segment unasked.
    Send,
}

/// The messages of those deliveries that go to the display, in order.
pub open spec fn display_of(deliveries: Seq<DeliveryView>) -> Seq<MessageView>
    decreases deliveries.len(),
{
    if deliveries.len() == 0 {
        seq![]
    } else if deliveries.last().to == Port::Display {
        display_of(deliveries.drop_last()).push(deliveries.last().message)
    } else {
        display_of(deliveries.drop_last())
    }
}

/// How many of the deliveries ask the sender task for a segment.
pub open spec fn send_frames(deliveries: Seq<DeliveryView>) -> nat
    decreases deliveries.len(),
{
    if deliveries.len() == 0 {
        0
    } else if deliveries.last().to == Port::Sender && deliveries.last().message is SendFrame {
        send_frames(deliveries.drop_last()) + 1
    } else {
        send_frames(deliveries.drop_last())
    }
}

impl Endpoint {
    /// An endpoint at its start, sending fragments of `fragment_size` bytes
    /// and announcing `segment_count` segments.
    pub open spec fn initial(fragment_size: u16, segment_count: usize) -> Endpoint {
        Endpoint {
            sequence: 0,
            receiver: Receiver {
                expected_frame_sequence: 0,
                expected_segment_offset: 0,
                running: true,
            },
            sender: SenderState { fragment_size, segment_count, running: true },
        }
    }

    /// The task at `port` takes `message`. A read that this causes ends with
    /// `outcome`. The display only passes the message on.
    pub open spec fn hand(
        self,
        port: Port,
        message: MessageView,
        outcome: Result<Seq<u8>, ReadError>,
    ) -> Handover {
        match port {
            Port::Display => Handover {
                endpoint: self,
                deliveries: seq![DeliveryView { to: Port::Display, message }],
            },
            Port::Receiver => {
                let reaction = self.receiver.react(self.sequence, message);
                Handover {
                    endpoint: Endpoint {
                        sequence: reaction.sequence,
                        receiver: reaction.receiver,
                        sender: self.sender,
                    },
                    deliveries: reaction.deliveries,
                }
            },
            Port::Sender => {
                let emission = self.sender.react(self.sequence, message, outcome);
                Handover {
                    endpoint: Endpoint {
                        sequence: emission.sequence,
                        receiver: self.receiver,
                        sender: emission.sender,
                    },
                    deliveries: emission.deliveries,
                }
            },
        }
    }

    /// One delivery reaches its port, and what the task there sends to the
    /// display reaches the display.
    pub open spec fn settle(
        self,
        delivery: DeliveryView,
        outcome: Result<Seq<u8>, ReadError>,
    ) -> Turn {
        let handover = self.hand(delivery.to, delivery.message, outcome);
        Turn { endpoint: handover.endpoint, shown: display_of(handover.deliveries) }
    }

    /// The deliveries reach their ports one after the other.
    pub open spec fn route(
        self,
        deliveries: Seq<DeliveryView>,
        outcome: Result<Seq<u8>, ReadError>,
    ) -> Turn
        decreases deliveries.len(),
    {
        if deliveries.len() == 0 {
            Turn { endpoint: self, shown: seq![] }
        } else {
            let before = self.route(deliveries.drop_last(), outcome);
            let last = before.endpoint.settle(deliveries.last(), outcome);
            Turn { endpoint: last.endpoint, shown: before.shown + last.shown }
        }
    }

    /// A message from outside reaches the task at `port`, and what that task
    /// sends reaches its ports.
    pub open spec fn post(
        self,
        port: Port,
        message: MessageView,
        outcome: Result<Seq<u8>, ReadError>,
    ) -> Turn {
        let handover = self.hand(port, message, outcome);
        handover.endpoint.route(handover.deliveries, outcome)
    }

    /// What the endpoint does on `event`, where the one read that the event
    /// may cause ends with `outcome`.
    pub open spec fn step(self, event: Event, outcome: Result<Seq<u8>, ReadError>) -> Turn {
        match event {
            Event::Receive => self.post(Port::Receiver, MessageView::ReceiveNextFrame, outcome),
            Event::ReceiveFrame(frame) => self.post(
                Port::Receiver,
                MessageView::ReceiveFrame(frame),
                outcome,
            ),
            Event::Send => self.post(Port::Sender, MessageView::SendFrame(0), outcome),
        }
    }

    /// The offset that the sender task reads when `delivery` reaches it, if
    /// it reads then.
    pub open spec fn read_at(self, delivery: DeliveryView) -> Option<usize> {
        match delivery.message {
            MessageView::SendFrame(offset) if delivery.to == Port::Sender
                && self.sender.running => Some(offset),
            _ => None,
        }
    }

    /// The offset that the sender task reads while the deliveries are
    /// routed, where they are a lone request for a segment.
    pub open spec fn route_reads(self, deliveries: Seq<DeliveryView>) -> Option<usize> {
        if deliveries.len() == 1 {
            self.read_at(deliveries[0])
        } else {
            None
        }
    }

    /// The offset that the sender task reads on a message from outside to
    /// the task at `port`, if it reads then.
    pub open spec fn post_reads(self, port: Port, message: MessageView) -> Option<usize> {
        match self.read_at(DeliveryView { to: port, message }) {
            Some(offset) => Some(offset),
            None => {
                let handover = self.hand(port, message, Err(ReadError::EndOfInput));
                handover.endpoint.route_reads(handover.deliveries)
            },
        }
    }

    /// The offset that the sender task reads on `event`, if it reads then.
    pub open spec fn reads(self, event: Event) -> Option<usize> {
        match event {
            Event::Receive => self.post_reads(Port::Receiver, MessageView::ReceiveNextFrame),
            Event::ReceiveFrame(frame) => self.post_reads(
                Port::Receiver,
                MessageView::ReceiveFrame(frame),
            ),
            Event::Send => self.post_reads(Port::Sender, MessageView::SendFrame(0)),
        }
    }
}

/// Routing deliveries among which none asks for a segment does not depend on
/// how a read would end.
pub proof fn lemma_route_without_read(
    endpoint: Endpoint,
    deliveries: Seq<DeliveryView>,
    one: Result<Seq<u8>, ReadError>,
    other: Result<Seq<u8>, ReadError>,
)
    requires
        send_frames(deliveries) == 0,
    ensures
        endpoint.route(deliveries, one) == endpoint.route(deliveries, other),
    decreases deliveries.len(),
{
    if deliveries.len() > 0 {
        lemma_route_without_read(endpoint, deliveries.drop_last(), one, other);
    }
}

/// What the receiver task sends holds at most one request for a segment,
/// and then nothing else.
pub proof fn lemma_receiver_asks_once(receiver: Receiver, sequence: u32, message: MessageView)
    ensures
        send_frames(receiver.react(sequence, message).deliveries) == 0 || receiver.react(
            sequence,
            message,
        ).deliveries.len() == 1,
{
    reveal_with_fuel(send_frames, 5);
}

/// What the sender task sends asks for no segment.
pub proof fn lemma_sender_asks_never(
    sender: SenderState,
    sequence: u32,
    message: MessageView,
    outcome: Result<Seq<u8>, ReadError>,
)
    ensures
        send_frames(sender.react(sequence, message, outcome).deliveries) == 0,
{
    reveal_with_fuel(send_frames, 3);
}

/// Among deliveries that ask for no segment, no single one asks for one.
pub proof fn lemma_no_request_among(deliveries: Seq<DeliveryView>, at: int)
    requires
        send_frames(deliveries) == 0,
        0 <= at < deliveries.len(),
    ensures
        !(deliveries[at].to == Port::Sender && deliveries[at].message is SendFrame),
    decreases deliveries.len(),
{
    if at < deliveries.len() - 1 {
        lemma_no_request_among(deliveries.drop_last(), at);
    }
}

/// An endpoint: the tasks of the transport and the counter that numbers
/// their frames.
pub struct Transport<S: SegmentSource> {
    counter: SequenceCounter,
    receiver: Receiver,
    sender: Sender<S>,
}

impl<S: SegmentSource> Transport<S> {
    /// The sender's buffer is as long as a fragment.
    pub closed spec fn wf(&self) -> bool {
        self.sender.wf()
    }

    /// The state of the endpoint.
    pub closed spec fn endpoint(&self) -> Endpoint {
        Endpoint {
            sequence: self.counter.upcoming(),
            receiver: self.receiver,
            sender: self.sender.state(),
        }
    }

    /// The source that the sender task reads.
    pub closed spec fn source(&self) -> S {
        self.sender.source()
    }

    /// Whether the source may have turned into that of `after`: by a read at
    /// `request` that ended with `outcome`, or, without a request, not at all.
    pub open spec fn may_read_to(
        &self,
        request: Option<usize>,
        after: Self,
        outcome: Result<Seq<u8>, ReadError>,
    ) -> bool {
        match request {
            Some(offset) => {
                &&& self.source().may_read(
                    offset,
                    self.endpoint().sender.fragment_size as usize,
                    after.source(),
                    outcome,
                )
                &&& outcome matches Ok(data) ==> data.len()
                    <= self.endpoint().sender.fragment_size
            },
            None => after.source() == self.source(),
        }
    }

    /// Whether the task at `port`, given `message`, may leave the endpoint
    /// as `after` and send `deliveries`, its read ending with `outcome`.
    pub open spec fn may_hand(
        &self,
        port: Port,
        message: MessageView,
        after: Self,
        deliveries: Seq<DeliveryView>,
        outcome: Result<Seq<u8>, ReadError>,
    ) -> bool {
        &&& self.endpoint().hand(port, message, outcome) == (Handover {
            endpoint: after.endpoint(),
            deliveries,
        })
        &&& self.may_read_to(
            self.endpoint().read_at(DeliveryView { to: port, message }),
            after,
            outcome,
        )
    }

    /// Whether routing `deliveries` may leave the endpoint as `after` with
    /// `shown` on the display, the read ending with `outcome`.
    pub open spec fn may_route(
        &self,
        deliveries: Seq<DeliveryView>,
        after: Self,
        shown: Seq<MessageView>,
        outcome: Result<Seq<u8>, ReadError>,
    ) -> bool {
        &&& self.endpoint().route(deliveries, outcome) == (Turn {
            endpoint: after.endpoint(),
            shown,
        })
        &&& self.may_read_to(self.endpoint().route_reads(deliveries), after, outcome)
    }

    /// Whether `event` may leave the endpoint as `after` with `shown` on the
    /// display, the read that the event causes ending with `outcome`.
    pub open spec fn may_turn(
        &self,
        event: Event,
        after: Self,
        shown: Seq<MessageView>,
        outcome: Result<Seq<u8>, ReadError>,
    ) -> bool {
        &&& self.endpoint().step(event, outcome) == (Turn { endpoint: after.endpoint(), shown })
        &&& self.may_read_to(self.endpoint().reads(event), after, outcome)
    }

    /// Appends to `shown` the messages that `deliveries` hold for the display.
    fn forward(deliveries: Vec<Delivery>, shown: &mut Vec<Message>)
        ensures
            views(final(shown)@) == views(old(shown)@) + display_of(views(deliveries@)),
    {
        let ghost all = views(deliveries@);
        let mut queue = deliveries;
        let ghost mut taken: int = 0;
        assert(all.subrange(0, all.len() as int) == all);
        while queue.len() > 0
            invariant
                0 <= taken <= all.len(),
                views(queue@) == all.subrange(taken, all.len() as int),
                views(shown@) == views(old(shown)@) + display_of(all.subrange(0, taken)),
            decreases queue.len(),
        {
            let ghost waiting = views(queue@);
            assert(waiting.len() == queue@.len());
            let delivery = queue.remove(0);
            proof {
                assert(delivery@ == waiting[0]);
                assert forall|j: int| 0 <= j < queue@.len() implies #[trigger] views(queue@)[j]
                    == all[taken + 1 + j] by {
                    assert(views(queue@)[j] == waiting[j + 1]);
                }
                assert(all.subrange(0, taken + 1).drop_last() == all.subrange(0, taken));
            }
            let ghost shown_before = views(shown@);
            let Delivery { to, message } = delivery;
            match to {
                Port::Display => {
                    shown.push(message);
                    assert(views(shown@) == shown_before.push(message@));
                },
                _ => {},
            }
            proof {
                taken = taken + 1;
            }
        }
    }

    /// Gives `message` to the task at `port` and returns what the task sends.
    fn hand(&mut self, port: Port, message: Message) -> (deliveries: Vec<Delivery>)
        requires
            old(self).wf(),
        ensures
            final(self).wf(),
            exists|outcome: Result<Seq<u8>, ReadError>|
                #![trigger old(self).may_hand(port, message@, *final(self), views(deliveries@), outcome)]
                old(self).may_hand(port, message@, *final(self), views(deliveries@), outcome),
    {
        let ghost idle: Result<Seq<u8>, ReadError> = Err(ReadError::EndOfInput);
        match port {
            Port::Display => {
                let mut deliveries: Vec<Delivery> = Vec::new();
                deliveries.push(Delivery { to: Port::Display, message });
                assert(views(deliveries@) == seq![DeliveryView { to: Port::Display, message: message@ }]);
                assert(old(self).may_hand(port, message@, *self, views(deliveries@), idle));
                deliveries
            },
            Port::Receiver => {
                let deliveries = self.receiver.handle(&mut self.counter, message);
                assert(old(self).may_hand(port, message@, *self, views(deliveries@), idle));
                deliveries
            },
            Port::Sender => {
                let ghost before = self.sender;
                let deliveries = self.sender.handle(&mut self.counter, message);
                proof {
                    let outcome = choose|outcome: Result<Seq<u8>, ReadError>|
                        {
                            &&& #[trigger] before.may_become(message@, self.sender, outcome)
                            &&& self.sender.state() == before.state().react(
                                old(self).counter.upcoming(),
                                message@,
                                outcome,
                            ).sender
                            &&& self.counter.upcoming() == before.state().react(
                                old(self).counter.upcoming(),
                                message@,
                                outcome,
                            ).sequence
                            &&& views(deliveries@) == before.state().react(
                                old(self).counter.upcoming(),
                                message@,
                                outcome,
                            ).deliveries
                        };
                    assert(old(self).may_hand(port, message@, *self, views(deliveries@), outcome));
                }
                deliveries
            },
        }
    }

    /// Carries `deliveries` to their ports, one after the other, and returns
    /// what reached the display.
    fn route(&mut self, deliveries: Vec<Delivery>) -> (shown: Vec<Message>)
        requires
            old(self).wf(),
            send_frames(views(deliveries@)) == 0 || deliveries@.len() == 1,
        ensures
            final(self).wf(),
            exists|outcome: Result<Seq<u8>, ReadError>|
                #![trigger old(self).may_route(views(deliveries@), *final(self), views(shown@), outcome)]
                old(self).may_route(views(deliveries@), *final(self), views(shown@), outcome),
    {
        let ghost all = views(deliveries@);
        let ghost start = *self;
        let ghost mut chosen: Result<Seq<u8>, ReadError> = Err(ReadError::EndOfInput);
        let ghost mut has_read = false;
        let ghost mut taken: int = 0;
        let mut queue = deliveries;
        let mut shown: Vec<Message> = Vec::new();
        assert(all.subrange(0, all.len() as int) == all);
        assert(views(shown@) == Seq::<MessageView>::empty());
        while queue.len() > 0
            invariant
                self.wf(),
                0 <= taken <= all.len(),
                views(queue@) == all.subrange(taken, all.len() as int),
                send_frames(all) == 0 || all.len() == 1,
                start.endpoint().route(all.subrange(0, taken), chosen) == (Turn {
                    endpoint: self.endpoint(),
                    shown: views(shown@),
                }),
                has_read ==> taken == 1 && all.len() == 1 && start.endpoint().read_at(all[0])
                    is Some && start.may_read_to(start.endpoint().read_at(all[0]), *self, chosen),
                !has_read ==> self.source() == start.source(),
                !has_read && taken > 0 ==> start.endpoint().route_reads(all) is None,
            decreases queue.len(),
        {
            let ghost waiting = views(queue@);
            assert(waiting.len() == queue@.len());
            let delivery = queue.remove(0);
            proof {
                assert(delivery@ == waiting[0]);
                assert forall|j: int| 0 <= j < queue@.len() implies #[trigger] views(queue@)[j]
                    == all[taken + 1 + j] by {
                    assert(views(queue@)[j] == waiting[j + 1]);
                }
                assert(all.subrange(0, taken + 1).drop_last() == all.subrange(0, taken));
            }
            let ghost before = *self;
            let ghost shown_before = views(shown@);
            let Delivery { to, message } = delivery;
            let answers = self.hand(to, message);
            Self::forward(answers, &mut shown);
            proof {
                let outcome = choose|outcome: Result<Seq<u8>, ReadError>|
                    before.may_hand(to, message@, *self, views(answers@), outcome);
                if before.endpoint().read_at(all[taken]) is Some {
                    if send_frames(all) == 0 {
                        lemma_no_request_among(all, taken);
                    }
                    chosen = outcome;
                    has_read = true;
                }
                assert(start.endpoint().route(all.subrange(0, taken), chosen) == (Turn {
                    endpoint: before.endpoint(),
                    shown: shown_before,
                }));
                taken = taken + 1;
            }
        }
        assert(old(self).may_route(all, *self, views(shown@), chosen));
        shown
    }

    /// Gives a message from outside to the task at `port`, carries what the
    /// tasks then send each other, and returns what reached the display.
    fn post(&mut self, port: Port, message: Message) -> (shown: Vec<Message>)
        requires
            old(self).wf(),
            port != Port::Display,
        ensures
            final(self).wf(),
            exists|outcome: Result<Seq<u8>, ReadError>|
                #![trigger old(self).endpoint().post(port, message@, outcome)]
                {
                    &&& old(self).endpoint().post(port, message@, outcome) == (Turn {
                        endpoint: final(self).endpoint(),
                        shown: views(shown@),
                    })
                    &&& old(self).may_read_to(
                        old(self).endpoint().post_reads(port, message@),
                        *final(self),
                        outcome,
                    )
                },
    {
        let deliveries = self.hand(port, message);
        let ghost handed = *self;
        let ghost first = choose|outcome: Result<Seq<u8>, ReadError>|
            old(self).may_hand(port, message@, handed, views(deliveries@), outcome);
        proof {
            match port {
                Port::Receiver => {
                    lemma_receiver_asks_once(
                        old(self).endpoint().receiver,
                        old(self).endpoint().sequence,
                        message@,
                    );
                },
                _ => {
                    lemma_sender_asks_never(
                        old(self).endpoint().sender,
                        old(self).endpoint().sequence,
                        message@,
                        first,
                    );
                },
            }
        }
        let shown = self.route(deliveries);
        proof {
            let second = choose|outcome: Result<Seq<u8>, ReadError>|
                handed.may_route(views(deliveries@), *self, views(shown@), outcome);
            let request = old(self).endpoint().read_at(DeliveryView { to: port, message: message@ });
            if request is Some {
                lemma_route_without_read(handed.endpoint(), views(deliveries@), first, second);
                assert(old(self).endpoint().post(port, message@, first) == (Turn {
                    endpoint: self.endpoint(),
                    shown: views(shown@),
                }));
            } else {
                assert(old(self).endpoint().post(port, message@, second) == (Turn {
                    endpoint: self.endpoint(),
                    shown: views(shown@),
                }));
            }
        }
        shown
    }

    /// An endpoint at its start. Its sender reads the source that the
    /// factory makes, in segments of `fragment_size` bytes.
    pub fn new<I: SegmentSourceFactory<SegmentSourceType = S>>(
        segment_source_factory: I,
        fragment_size: u16,
    ) -> (transport: Self)
        requires
            fragment_size > 0 || forall|source: S, total: usize|
                segment_source_factory.makes(source) ==> !#[trigger] source.may_report(
                    Some(total),
                ),
        ensures
            transport.wf(),
            segment_source_factory.makes(transport.source()),
            exists|size: Option<usize>|
                #![trigger transport.source().may_report(size)]
                {
                    &&& transport.source().may_report(size)
                    &&& transport.endpoint() == Endpoint::initial(
                        fragment_size,
                        announced_count(size, fragment_size),
                    )
                },
    {
        let input = segment_source_factory.create_segment_source();
        let sender = Sender::new(input, fragment_size);
        Transport { counter: SequenceCounter::new(), receiver: Receiver::new(), sender }
    }

    /// Asks the peer for the next segment: a CTS frame for the segment that
    /// is expected goes to the display. Returns what reached the display.
    pub fn receive(&mut self) -> (shown: Vec<Message>)
        requires
            old(self).wf(),
        ensures
            final(self).wf(),
            exists|outcome: Result<Seq<u8>, ReadError>|
                #![trigger old(self).may_turn(Event::Receive, *final(self), views(shown@), outcome)]
                old(self).may_turn(Event::Receive, *final(self), views(shown@), outcome),
    {
        let shown = self.post(Port::Receiver, Message::ReceiveNextFrame);
        proof {
            let outcome = choose|outcome: Result<Seq<u8>, ReadError>|
                {
                    &&& #[trigger] old(self).endpoint().post(
                        Port::Receiver,
                        MessageView::ReceiveNextFrame,
                        outcome,
                    ) == (Turn { endpoint: self.endpoint(), shown: views(shown@) })
                    &&& old(self).may_read_to(
                        old(self).endpoint().post_reads(
                            Port::Receiver,
                            MessageView::ReceiveNextFrame,
                        ),
                        *self,
                        outcome,
                    )
                };
            assert(old(self).may_turn(Event::Receive, *self, views(shown@), outcome));
        }
        shown
    }

    /// Takes a frame that the camera read. Returns what reached the display:
    /// the frame that answers it, the segment to append, or a log line.
    pub fn receive_frame(&mut self, frame: Frame) -> (shown: Vec<Message>)
        requires
            old(self).wf(),
        ensures
            final(self).wf(),
            exists|outcome: Result<Seq<u8>, ReadError>|
                #![trigger old(self).may_turn(Event::ReceiveFrame(frame@), *final(self), views(shown@), outcome)]
                old(self).may_turn(
                    Event::ReceiveFrame(frame@),
                    *final(self),
                    views(shown@),
                    outcome,
                ),
    {
        let ghost bytes = frame@;
        let shown = self.post(Port::Receiver, Message::ReceiveFrame(frame));
        proof {
            let outcome = choose|outcome: Result<Seq<u8>, ReadError>|
                {
                    &&& #[trigger] old(self).endpoint().post(
                        Port::Receiver,
                        MessageView::ReceiveFrame(bytes),
                        outcome,
                    ) == (Turn { endpoint: self.endpoint(), shown: views(shown@) })
                    &&& old(self).may_read_to(
                        old(self).endpoint().post_reads(
                            Port::Receiver,
                            MessageView::ReceiveFrame(bytes),
                        ),
                        *self,
                        outcome,
                    )
                };
            assert(old(self).may_turn(Event::ReceiveFrame(bytes), *self, views(shown@), outcome));
        }
        shown
    }

    /// Shows the first segment without waiting for the peer to ask.
    pub fn send(&mut self) -> (shown: Vec<Message>)
        requires
            old(self).wf(),
        ensures
            final(self).wf(),
            exists|outcome: Result<Seq<u8>, ReadError>|
                #![trigger old(self).may_turn(Event::Send, *final(self), views(shown@), outcome)]
                old(self).may_turn(Event::Send, *final(self), views(shown@), outcome),
    {
        let shown = self.post(Port::Sender, Message::SendFrame(0));
        proof {
            let outcome = choose|outcome: Result<Seq<u8>, ReadError>|
                {
                    &&& #[trigger] old(self).endpoint().post(
                        Port::Sender,
                        MessageView::SendFrame(0),
                        outcome,
                    ) == (Turn { endpoint: self.endpoint(), shown: views(shown@) })
                    &&& old(self).may_read_to(
                        old(self).endpoint().post_reads(Port::Sender, MessageView::SendFrame(0)),
                        *self,
                        outcome,
                    )
                };
            assert(old(self).may_turn(Event::Send, *self, views(shown@), outcome));
        }
        shown
    }
}

} // verus!
