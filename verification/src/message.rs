//! What the tasks of an endpoint say to each other and to the display.

use vstd::prelude::*;
use crate::frame::Frame;

verus! {

/// A message between the tasks of an endpoint, or to the display.
#[derive(Debug)]
pub enum Message {
    /// To the sender task: show the segment at this offset.
    SendFrame(usize),
    /// To the receiver task: ask the peer for the next segment.
    ReceiveNextFrame,
    /// To the receiver task: this frame was read off the camera.
    ReceiveFrame(Frame),
    /// To the display: show this frame.
    WriteData(Frame),
    /// To the display: append this frame's segment to the output.
    AppendToOutput(Frame),
    /// To the display: show this line in the log pane.
    Log(String),
    /// To any task: stop.
    Donzo,
}

/// A message with its frame as bytes and its text as characters.
pub enum MessageView {
    SendFrame(usize),
    ReceiveNextFrame,
    ReceiveFrame(Seq<u8>),
    WriteData(Seq<u8>),
    AppendToOutput(Seq<u8>),
    Log(Seq<char>),
    Donzo,
}

impl View for Message {
    type V = MessageView;

    open spec fn view(&self) -> MessageView {
        match self {
            Message::SendFrame(offset) => MessageView::SendFrame(*offset),
            Message::ReceiveNextFrame => MessageView::ReceiveNextFrame,
            Message::ReceiveFrame(frame) => MessageView::ReceiveFrame(frame@),
            Message::WriteData(frame) => MessageView::WriteData(frame@),
            Message::AppendToOutput(frame) => MessageView::AppendToOutput(frame@),
            Message::Log(text) => MessageView::Log(text@),
            Message::Donzo => MessageView::Donzo,
        }
    }
}

impl Clone for Message {
    fn clone(&self) -> (copy: Self)
        ensures
            copy@ == self@,
    {
        match self {
            Message::SendFrame(offset) => Message::SendFrame(*offset),
            Message::ReceiveNextFrame => Message::ReceiveNextFrame,
            Message::ReceiveFrame(frame) => Message::ReceiveFrame(frame.clone()),
            Message::WriteData(frame) => Message::WriteData(frame.clone()),
            Message::AppendToOutput(frame) => Message::AppendToOutput(frame.clone()),
            Message::Log(text) => Message::Log(text.clone()),
            Message::Donzo => Message::Donzo,
        }
    }
}

/// Who takes a message.
#[derive(Clone, Copy, Debug, PartialEq, Eq, Structural)]
pub enum Port {
    /// The display and output sink.
    Display,
    /// The receiver task of this endpoint.
    Receiver,
    /// The sender task of this endpoint.
    Sender,
}

/// A message on its way to a port.
#[derive(Debug)]
pub struct Delivery {
    pub to: Port,
    pub message: Message,
}

/// A delivery with its message as a view.
pub struct DeliveryView {
    pub to: Port,
    pub message: MessageView,
}

impl View for Delivery {
    type V = DeliveryView;

    open spec fn view(&self) -> DeliveryView {
        DeliveryView { to: self.to, message: self.message@ }
    }
}

/// The views of the items of `items`, in their order.
pub open spec fn views<T: View>(items: Seq<T>) -> Seq<T::V> {
    Seq::new(items.len(), |i: int| items[i]@)
}

} // verus!
