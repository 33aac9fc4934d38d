//! What the display shows: the glyph block of the frame on screen, the
//! progress of the transfer and the last line of the log.

use vstd::prelude::*;
use crate::frame::{
    data_of, Frame, segment_count_of, segment_offset_of, type_of, well_formed, FRAME_TYPE_CTS,
    FRAME_TYPE_SEGMENT, SEGMENT_HEADER_LEN,
};
use crate::message::{Message, MessageView};
use crate::text::{label_number, labelled, two_numbers, write_two_numbers};

verus! {

/// The state of the display.
#[derive(Debug)]
pub struct UiState {
    /// The glyph block of the frame on screen.
    pub block_text: String,
    /// The offset of the segment that was last shown or appended.
    pub segment_offset: usize,
    /// The number of segments that this segment's frame announced.
    pub segment_count: usize,
    /// The line in the log pane.
    pub message: String,
    /// Whether the display is to close.
    pub done: bool,
}

/// The state of the display with its texts as characters.
pub struct UiStateView {
    pub block_text: Seq<char>,
    pub segment_offset: usize,
    pub segment_count: usize,
    pub message: Seq<char>,
    pub done: bool,
}

impl View for UiState {
    type V = UiStateView;

    open spec fn view(&self) -> UiStateView {
        UiStateView {
            block_text: self.block_text@,
            segment_offset: self.segment_offset,
            segment_count: self.segment_count,
            message: self.message@,
            done: self.done,
        }
    }
}

impl Clone for UiState {
    fn clone(&self) -> (copy: Self)
        ensures
            copy@ == self@,
    {
        UiState {
            block_text: self.block_text.clone(),
            segment_offset: self.segment_offset,
            segment_count: self.segment_count,
            message: self.message.clone(),
            done: self.done,
        }
    }
}

/// Why the display could not take a message.
#[derive(Clone, Copy, Debug, PartialEq, Eq, Structural)]
pub enum DisplayError {
    /// No QR code holds the frame that was to be shown.
    Unencodable,
}

/// The line for a segment of `len` bytes that is shown.
pub open spec fn sending_text(len: nat, offset: usize) -> Seq<char> {
    two_numbers("Sending "@, len, "b segment #"@, offset as nat)
}

/// The line for a CTS frame that is shown.
pub open spec fn clear_to_send_text(offset: usize) -> Seq<char> {
    labelled("Clear to send segment #"@, offset as nat)
}

/// The line for the end of the stream.
pub open spec fn done_text() -> Seq<char> {
    "Done"@
}

/// The line for a segment of `len` bytes that is appended to the output.
pub open spec fn append_text(len: nat) -> Seq<char> {
    labelled("Append "@, len) + " bytes"@
}

/// Whether the display can take `message`: a frame to show is well formed,
/// and a frame to append has the fields of a segment.
pub open spec fn displayable(message: MessageView) -> bool {
    match message {
        MessageView::WriteData(frame) => well_formed(frame),
        MessageView::AppendToOutput(frame) => frame.len() >= SEGMENT_HEADER_LEN,
        _ => true,
    }
}

/// The bytes that `message` adds to the output.
pub open spec fn output_of(message: MessageView) -> Seq<u8> {
    match message {
        MessageView::AppendToOutput(frame) => data_of(frame),
        _ => seq![],
    }
}

/// The state of the display after `message`, where `glyphs` is the glyph
/// block of the frame that the message shows.
pub open spec fn displayed(
    state: UiStateView,
    message: MessageView,
    glyphs: Seq<char>,
) -> UiStateView {
    match message {
        MessageView::Log(text) => UiStateView {
            block_text: state.block_text,
            segment_offset: state.segment_offset,
            segment_count: state.segment_count,
            message: text,
            done: state.done,
        },
        MessageView::WriteData(frame) => {
            if type_of(frame) == FRAME_TYPE_SEGMENT {
                UiStateView {
                    block_text: glyphs,
                    segment_offset: segment_offset_of(frame),
                    segment_count: segment_count_of(frame),
                    message: sending_text(data_of(frame).len(), segment_offset_of(frame)),
                    done: state.done,
                }
            } else if type_of(frame) == FRAME_TYPE_CTS {
                UiStateView {
                    block_text: glyphs,
                    segment_offset: state.segment_offset,
                    segment_count: state.segment_count,
                    message: clear_to_send_text(segment_offset_of(frame)),
                    done: state.done,
                }
            } else {
                UiStateView {
                    block_text: glyphs,
                    segment_offset: state.segment_offset,
                    segment_count: state.segment_count,
                    message: done_text(),
                    done: state.done,
                }
            }
        },
        MessageView::AppendToOutput(frame) => UiStateView {
            block_text: state.block_text,
            segment_offset: segment_offset_of(frame),
            segment_count: segment_count_of(frame),
            message: append_text(data_of(frame).len()),
            done: state.done,
        },
        MessageView::Donzo => UiStateView {
            block_text: state.block_text,
            segment_offset: state.segment_offset,
            segment_count: state.segment_count,
            message: state.message,
            done: true,
        },
        _ => state,
    }
}

impl UiState {
    /// An empty display.
    pub fn new() -> (state: Self)
        ensures
            state@ == (UiStateView {
                block_text: Seq::<char>::empty(),
                segment_offset: 0,
                segment_count: 0,
                message: Seq::<char>::empty(),
                done: false,
            }),
    {
        UiState {
            block_text: String::new(),
            message: String::new(),
            segment_offset: 0,
            segment_count: 0,
            done: false,
        }
    }
}

/// The display after `message`. `glyphs` is the glyph block of the frame
/// that a `WriteData` message shows, or `None` where no QR code holds that
/// frame; with any other message it is not looked at. The segment of a frame
/// to append goes to the end of `output`. Fails, with nothing changed, where
/// a frame to show has no glyph block.
pub fn next_message(
    ui_state: UiState,
    message: Message,
    glyphs: Option<String>,
    output: &mut Vec<u8>,
) -> (next: Result<UiState, DisplayError>)
    requires
        displayable(message@),
    ensures
        match message@ {
            MessageView::WriteData(frame) => match glyphs {
                Some(text) => next matches Ok(state) && state@ == displayed(
                    ui_state@,
                    message@,
                    text@,
                ),
                None => next == Err::<UiState, DisplayError>(DisplayError::Unencodable),
            },
            _ => next matches Ok(state) && state@ == displayed(
                ui_state@,
                message@,
                Seq::<char>::empty(),
            ),
        },
        final(output)@ == if next is Ok {
            old(output)@ + output_of(message@)
        } else {
            old(output)@
        },
{
    match message {
        Message::Log(text) => {
            Ok(
                UiState {
                    block_text: ui_state.block_text,
                    segment_offset: ui_state.segment_offset,
                    segment_count: ui_state.segment_count,
                    message: text,
                    done: ui_state.done,
                },
            )
        },
        Message::WriteData(frame) => {
            match glyphs {
                Some(text) => Ok(show(ui_state, &frame, text)),
                None => Err(DisplayError::Unencodable),
            }
        },
        Message::AppendToOutput(frame) => {
            let data = frame.get_data();
            output.extend_from_slice(data);
            let line = label_number("Append ", data.len()).concat(" bytes");
            Ok(
                UiState {
                    block_text: ui_state.block_text,
                    segment_offset: frame.get_segment_offset(),
                    segment_count: frame.get_segment_count(),
                    message: line,
                    done: ui_state.done,
                },
            )
        },
        Message::Donzo => {
            Ok(
                UiState {
                    block_text: ui_state.block_text,
                    segment_offset: ui_state.segment_offset,
                    segment_count: ui_state.segment_count,
                    message: ui_state.message,
                    done: true,
                },
            )
        },
        _ => {
            Ok(ui_state)
        },
    }
}

/// The display with `frame` on screen as `glyphs`.
pub fn show(ui_state: UiState, frame: &Frame, glyphs: String) -> (next: UiState)
    requires
        well_formed(frame@),
    ensures
        next@ == displayed(ui_state@, MessageView::WriteData(frame@), glyphs@),
{
    if frame.is_segment() {
        let offset = frame.get_segment_offset();
        UiState {
            block_text: glyphs,
            segment_offset: offset,
            segment_count: frame.get_segment_count(),
            message: write_two_numbers(
                "Sending ",
                frame.get_data().len(),
                "b segment #",
                offset,
            ),
            done: ui_state.done,
        }
    } else if frame.is_cts() {
        UiState {
            block_text: glyphs,
            segment_offset: ui_state.segment_offset,
            segment_count: ui_state.segment_count,
            message: label_number("Clear to send segment #", frame.get_segment_offset()),
            done: ui_state.done,
        }
    } else {
        UiState {
            block_text: glyphs,
            segment_offset: ui_state.segment_offset,
            segment_count: ui_state.segment_count,
            message: String::from_str("Done"),
            done: ui_state.done,
        }
    }
}

/// The display after a key: the escape key closes it.
pub fn next_input(ui_state: UiState, escape: bool) -> (next: UiState)
    ensures
        next@ == (UiStateView {
            block_text: ui_state@.block_text,
            segment_offset: ui_state@.segment_offset,
            segment_count: ui_state@.segment_count,
            message: ui_state@.message,
            done: ui_state@.done || escape,
        }),
{
    if escape {
        UiState {
            block_text: ui_state.block_text,
            segment_offset: ui_state.segment_offset,
            segment_count: ui_state.segment_count,
            message: ui_state.message,
            done: true,
        }
    } else {
        ui_state
    }
}

/// What the progress gauge shows.
pub fn progress(ui_state: &UiState) -> (gauge: Progress)
    requires
        ui_state@.segment_offset < usize::MAX,
    ensures
        gauge@ == gauged(ui_state@.segment_offset, ui_state@.segment_count),
{
    let number = ui_state.segment_offset + 1;
    if ui_state.segment_count >= number {
        Progress {
            label: write_two_numbers("Segment ", number, "/", ui_state.segment_count),
            part: number,
            whole: ui_state.segment_count,
        }
    } else {
        Progress { label: label_number("Segment ", number), part: 0, whole: 1 }
    }
}

/// The progress gauge: its label, and the ratio that it is filled to.
#[derive(Debug)]
pub struct Progress {
    pub label: String,
    /// The ratio's numerator.
    pub part: usize,
    /// The ratio's denominator, never 0.
    pub whole: usize,
}

/// The progress gauge with its label as characters.
pub struct ProgressView {
    pub label: Seq<char>,
    pub part: usize,
    pub whole: usize,
}

impl View for Progress {
    type V = ProgressView;

    open spec fn view(&self) -> ProgressView {
        ProgressView { label: self.label@, part: self.part, whole: self.whole }
    }
}

/// The gauge for the segment at `segment_offset` of `segment_count`
/// announced: the segment's number of the count where the count reaches it,
/// else the number alone and an empty gauge.
pub open spec fn gauged(segment_offset: usize, segment_count: usize) -> ProgressView {
    if segment_count >= segment_offset + 1 {
        ProgressView {
            label: two_numbers(
                "Segment "@,
                (segment_offset + 1) as nat,
                "/"@,
                segment_count as nat,
            ),
            part: (segment_offset + 1) as usize,
            whole: segment_count,
        }
    } else {
        ProgressView {
            label: labelled("Segment "@, (segment_offset + 1) as nat),
            part: 0,
            whole: 1,
        }
    }
}

} // verus!
