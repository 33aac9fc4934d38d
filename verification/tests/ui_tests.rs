use piccp::frame::{Frame, SequenceCounter};
use piccp::message::Message;
use piccp::ui::{next_input, next_message, progress, show, DisplayError, UiState};

#[test]
fn a_new_display_is_empty() {
    let state = UiState::new();
    assert_eq!(state.block_text, "");
    assert_eq!(state.message, "");
    assert_eq!(state.segment_offset, 0);
    assert_eq!(state.segment_count, 0);
    assert!(!state.done);
}

#[test]
fn a_log_line_replaces_the_message() {
    let mut output = Vec::new();
    let state = next_message(UiState::new(), Message::Log("hello".to_string()), None, &mut output).unwrap();
    assert_eq!(state.message, "hello");
    assert_eq!(state.block_text, "");
    assert!(output.is_empty());
}

#[test]
fn a_segment_on_screen() {
    let mut counter = SequenceCounter::new();
    let frame = Frame::new_segment(&mut counter, 4, 9, b"hello");
    let mut output = Vec::new();
    let state =
        next_message(UiState::new(), Message::WriteData(frame), Some("block".to_string()), &mut output).unwrap();
    assert_eq!(state.block_text, "block");
    assert_eq!(state.segment_offset, 4);
    assert_eq!(state.segment_count, 9);
    assert_eq!(state.message, "Sending 5b segment #4");
    assert!(output.is_empty());
}

#[test]
fn a_request_or_the_end_on_screen() {
    let mut counter = SequenceCounter::new();
    let mut output = Vec::new();
    let mut state = UiState::new();
    state.segment_offset = 2;
    state.segment_count = 5;
    let state = next_message(
        state,
        Message::WriteData(Frame::new_cts(&mut counter, 3)),
        Some("request".to_string()),
        &mut output,
    )
    .unwrap();
    assert_eq!(state.message, "Clear to send segment #3");
    assert_eq!(state.segment_offset, 2);
    assert_eq!(state.segment_count, 5);
    assert_eq!(state.block_text, "request");
    let state = next_message(
        state,
        Message::WriteData(Frame::new_done(&mut counter)),
        Some("end".to_string()),
        &mut output,
    )
    .unwrap();
    assert_eq!(state.block_text, "end");
    assert_eq!(state.message, "Done");
    assert!(!state.done);
}

#[test]
fn a_segment_is_appended_to_the_output() {
    let mut counter = SequenceCounter::new();
    let mut output = b"so far ".to_vec();
    let frame = Frame::new_segment(&mut counter, 1, 0, b"and more");
    let state = next_message(
        UiState::new(),
        Message::AppendToOutput(frame),
        Some("not looked at".to_string()),
        &mut output,
    )
    .unwrap();
    assert_eq!(output, b"so far and more");
    assert_eq!(state.message, "Append 8 bytes");
    assert_eq!(state.segment_offset, 1);
    assert_eq!(state.segment_count, 0);
    assert_eq!(state.block_text, "");
}

#[test]
fn stop_closes_the_display() {
    let mut output = Vec::new();
    let state = next_message(UiState::new(), Message::Donzo, None, &mut output).unwrap();
    assert!(state.done);
}

#[test]
fn other_messages_change_nothing() {
    let mut output = Vec::new();
    let mut state = UiState::new();
    state.message = "kept".to_string();
    for message in [Message::SendFrame(3), Message::ReceiveNextFrame, Message::ReceiveFrame(Frame::new(vec![]))] {
        state = next_message(state, message, None, &mut output).unwrap();
    }
    assert_eq!(state.message, "kept");
    assert!(!state.done);
    assert!(output.is_empty());
}

#[test]
fn a_frame_without_a_glyph_block_is_an_error() {
    let mut counter = SequenceCounter::new();
    let frame = Frame::new_cts(&mut counter, 0);
    let mut output = b"kept".to_vec();
    let next = next_message(UiState::new(), Message::WriteData(frame), None, &mut output);
    assert_eq!(next.err(), Some(DisplayError::Unencodable));
    assert_eq!(output, b"kept");
}

#[test]
fn show_keeps_the_glyphs_it_is_given() {
    let mut counter = SequenceCounter::new();
    let frame = Frame::new_cts(&mut counter, 12);
    let state = show(UiState::new(), &frame, "glyphs".to_string());
    assert_eq!(state.block_text, "glyphs");
    assert_eq!(state.message, "Clear to send segment #12");
}

#[test]
fn escape_closes_the_display() {
    assert!(!next_input(UiState::new(), false).done);
    assert!(next_input(UiState::new(), true).done);
    let mut closed = UiState::new();
    closed.done = true;
    assert!(next_input(closed, false).done);
}

#[test]
fn progress_of_known_and_unknown_counts() {
    let mut state = UiState::new();
    let gauge = progress(&state);
    assert_eq!(gauge.label, "Segment 1");
    assert_eq!((gauge.part, gauge.whole), (0, 1));
    state.segment_offset = 2;
    state.segment_count = 8;
    let gauge = progress(&state);
    assert_eq!(gauge.label, "Segment 3/8");
    assert_eq!((gauge.part, gauge.whole), (3, 8));
    state.segment_offset = 7;
    let gauge = progress(&state);
    assert_eq!(gauge.label, "Segment 8/8");
    assert_eq!((gauge.part, gauge.whole), (8, 8));
    state.segment_offset = 8;
    let gauge = progress(&state);
    assert_eq!(gauge.label, "Segment 9");
    assert_eq!((gauge.part, gauge.whole), (0, 1));
}
