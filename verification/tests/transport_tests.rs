use piccp::frame::{Frame, SequenceCounter};
use piccp::message::{Delivery, Message, Port};
use piccp::receiver::Receiver;
use piccp::sender::Sender;
use piccp::source::{MemorySource, MemorySourceFactory, ReadError, SegmentSource};
use piccp::transport::Transport;

fn endpoint(data: &[u8], sized: bool, fragment_size: u16) -> Transport<MemorySource> {
    Transport::new(MemorySourceFactory::new(data.to_vec(), sized), fragment_size)
}

fn describe(message: &Message) -> String {
    match message {
        Message::SendFrame(offset) => format!("send {}", offset),
        Message::ReceiveNextFrame => "receive next".to_string(),
        Message::ReceiveFrame(frame) => format!("received {}", describe_frame(frame)),
        Message::WriteData(frame) => format!("show {}", describe_frame(frame)),
        Message::AppendToOutput(frame) => format!("append {:?}", frame.get_data()),
        Message::Log(text) => format!("log {}", text),
        Message::Donzo => "stop".to_string(),
    }
}

fn describe_frame(frame: &Frame) -> String {
    if frame.is_cts() {
        format!("#{} CTS({})", frame.get_sequence(), frame.get_segment_offset())
    } else if frame.is_done() {
        format!("#{} DONE", frame.get_sequence())
    } else {
        format!(
            "#{} SEGMENT({}, count={}, {:?})",
            frame.get_sequence(),
            frame.get_segment_offset(),
            frame.get_segment_count(),
            frame.get_data()
        )
    }
}

fn describe_all(messages: &[Message]) -> Vec<String> {
    messages.iter().map(describe).collect()
}

fn describe_deliveries(deliveries: &[Delivery]) -> Vec<String> {
    deliveries
        .iter()
        .map(|delivery| format!("{:?}: {}", delivery.to, describe(&delivery.message)))
        .collect()
}

fn shown_frame(messages: &[Message]) -> Option<Frame> {
    let mut last = None;
    for message in messages {
        if let Message::WriteData(frame) = message {
            last = Some(frame.clone());
        }
    }
    last
}

fn appended(messages: &[Message]) -> Vec<u8> {
    let mut bytes = Vec::new();
    for message in messages {
        if let Message::AppendToOutput(frame) = message {
            bytes.extend_from_slice(frame.get_data());
        }
    }
    bytes
}

fn stops(messages: &[Message]) -> bool {
    messages.iter().any(|message| matches!(message, Message::Donzo))
}

struct Transfer {
    output: Vec<u8>,
    trace: Vec<String>,
    rounds: usize,
    sender_stopped: bool,
    receiver_stopped: bool,
}

fn transfer(data: &[u8], sized: bool, fragment_size: u16, photos: usize) -> Transfer {
    let mut sending = endpoint(data, sized, fragment_size);
    let mut receiving = endpoint(b"", false, fragment_size);
    let mut trace = Vec::new();
    let mut output = Vec::new();
    let mut sender_stopped = false;
    let mut receiver_stopped = false;
    let first = receiving.receive();
    trace.extend(describe_all(&first).into_iter().map(|line| format!("R {}", line)));
    let mut receiver_screen = shown_frame(&first);
    let mut sender_screen: Option<Frame> = None;
    let mut rounds = 0;
    while !(sender_stopped && receiver_stopped) {
        rounds += 1;
        assert!(rounds < 100_000);
        if let Some(frame) = &receiver_screen {
            for _ in 0..photos {
                let shown = sending.receive_frame(frame.clone());
                for message in &shown {
                    if !matches!(message, Message::Log(_)) {
                        trace.push(format!("S {}", describe(message)));
                    }
                }
                sender_stopped = sender_stopped || stops(&shown);
                if let Some(next) = shown_frame(&shown) {
                    sender_screen = Some(next);
                }
            }
        }
        if let Some(frame) = &sender_screen {
            for _ in 0..photos {
                let shown = receiving.receive_frame(frame.clone());
                for message in &shown {
                    if !matches!(message, Message::Log(_)) {
                        trace.push(format!("R {}", describe(message)));
                    }
                }
                output.extend(appended(&shown));
                receiver_stopped = receiver_stopped || stops(&shown);
                if let Some(next) = shown_frame(&shown) {
                    receiver_screen = Some(next);
                }
            }
        }
    }
    Transfer { output, trace, rounds, sender_stopped, receiver_stopped }
}

#[test]
fn trivial_stream() {
    let done = transfer(b"hi\n", false, 128, 1);
    assert_eq!(
        done.trace,
        vec![
            "R show #0 CTS(0)",
            "S show #0 SEGMENT(0, count=0, [104, 105, 10])",
            "R append [104, 105, 10]",
            "R show #1 CTS(1)",
            "S show #1 DONE",
            "R show #2 DONE",
            "R stop",
            "S show #2 DONE",
            "S stop",
        ]
    );
    assert_eq!(done.output, b"hi\n");
    assert!(done.sender_stopped && done.receiver_stopped);
}

#[test]
fn two_segment_stream() {
    let data = vec![0x41u8; 256];
    let done = transfer(&data, true, 128, 1);
    let segment = format!("{:?}", vec![0x41u8; 128]);
    assert_eq!(
        done.trace,
        vec![
            "R show #0 CTS(0)".to_string(),
            format!("S show #0 SEGMENT(0, count=2, {})", segment),
            format!("R append {}", segment),
            "R show #1 CTS(1)".to_string(),
            format!("S show #1 SEGMENT(1, count=2, {})", segment),
            format!("R append {}", segment),
            "R show #2 CTS(2)".to_string(),
            "S show #2 DONE".to_string(),
            "R show #3 DONE".to_string(),
            "R stop".to_string(),
            "S show #3 DONE".to_string(),
            "S stop".to_string(),
        ]
    );
    assert_eq!(done.output, data);
}

#[test]
fn photo_duplication() {
    let mut receiving = endpoint(b"", false, 128);
    receiving.receive();
    let mut peer = SequenceCounter::new();
    let segment = Frame::new_segment(&mut peer, 0, 0, b"abc");
    let mut output = Vec::new();
    let mut log_lines = Vec::new();
    let mut frames_shown = 0;
    for _ in 0..10 {
        for message in receiving.receive_frame(segment.clone()) {
            match message {
                Message::AppendToOutput(frame) => output.extend_from_slice(frame.get_data()),
                Message::Log(text) => log_lines.push(text),
                Message::WriteData(_) => frames_shown += 1,
                other => panic!("unexpected message {:?}", other),
            }
        }
    }
    assert_eq!(output, b"abc");
    assert_eq!(frames_shown, 1);
    assert_eq!(log_lines, vec!["Unexpected frame 0".to_string(); 9]);
}

#[test]
fn cts_retry() {
    let mut sending = endpoint(&[7u8; 40], true, 10);
    let mut receiving = endpoint(b"", false, 10);
    let mut peer = SequenceCounter::new();
    let old_requests: Vec<Frame> = (0..3).map(|k| Frame::new_cts(&mut peer, k)).collect();
    for frame in old_requests {
        sending.receive_frame(frame);
    }
    let mut own = SequenceCounter::new();
    for k in 0..3 {
        let shown = receiving.receive_frame(Frame::new_segment(&mut own, k, 4, &[7u8; 10]));
        assert_eq!(appended(&shown), vec![7u8; 10]);
    }
    let request = Frame::new_cts(&mut peer, 3);
    let shown = sending.receive_frame(request.clone());
    let on_screen = shown_frame(&shown).unwrap();
    assert_eq!(describe_frame(&on_screen), format!("#3 SEGMENT(3, count=4, {:?})", [7u8; 10]));
    for _ in 0..5 {
        let again = sending.receive_frame(request.clone());
        assert!(shown_frame(&again).is_none());
        assert_eq!(describe_all(&again), vec!["log Unexpected frame 3"]);
    }
    let answer = receiving.receive_frame(on_screen);
    assert_eq!(
        describe_all(&answer),
        vec![format!("append {:?}", [7u8; 10]), "show #3 CTS(4)".to_string()]
    );
}

#[test]
fn empty_stream() {
    let done = transfer(b"", true, 128, 1);
    assert_eq!(
        done.trace,
        vec![
            "R show #0 CTS(0)",
            "S show #0 DONE",
            "R show #1 DONE",
            "R stop",
            "S show #1 DONE",
            "S stop",
        ]
    );
    assert!(done.output.is_empty());
    assert_eq!(done.rounds, 2);
}

#[test]
fn fragment_boundary() {
    let data: Vec<u8> = (0..128).collect();
    let done = transfer(&data, true, 128, 1);
    assert_eq!(
        done.trace,
        vec![
            "R show #0 CTS(0)".to_string(),
            format!("S show #0 SEGMENT(0, count=1, {:?})", data),
            format!("R append {:?}", data),
            "R show #1 CTS(1)".to_string(),
            "S show #1 DONE".to_string(),
            "R show #2 DONE".to_string(),
            "R stop".to_string(),
            "S show #2 DONE".to_string(),
            "S stop".to_string(),
        ]
    );
    assert_eq!(done.output, data);
}

#[test]
fn streams_arrive_as_they_were() {
    for (len, fragment_size) in [(0usize, 1u16), (1, 1), (5, 2), (1000, 7), (1000, 1000), (4096, 512), (300, 65535)] {
        let data: Vec<u8> = (0..len).map(|i| (i * 31 % 251) as u8).collect();
        let done = transfer(&data, len % 2 == 0, fragment_size, 1);
        assert_eq!(done.output, data);
        let segments = (len + fragment_size as usize - 1) / fragment_size as usize;
        assert_eq!(done.rounds, segments + 2);
    }
}

#[test]
fn many_photos_of_each_frame_change_nothing() {
    let data: Vec<u8> = (0..100).collect();
    let once = transfer(&data, true, 16, 1);
    let often = transfer(&data, true, 16, 4);
    assert_eq!(often.output, data);
    assert_eq!(often.trace, once.trace);
}

#[test]
fn written_frames_have_rising_numbers() {
    let mut sending = endpoint(&[1u8; 30], true, 10);
    let mut peer = SequenceCounter::new();
    let mut numbers = Vec::new();
    for message in sending.send() {
        if let Message::WriteData(frame) = message {
            numbers.push(frame.get_sequence());
        }
    }
    for message in sending.receive() {
        if let Message::WriteData(frame) = message {
            numbers.push(frame.get_sequence());
        }
    }
    for k in 0..5 {
        for message in sending.receive_frame(Frame::new_cts(&mut peer, k)) {
            if let Message::WriteData(frame) = message {
                numbers.push(frame.get_sequence());
            }
        }
    }
    assert_eq!(numbers, vec![0, 1, 2, 3, 4, 5]);
}

#[test]
fn send_shows_the_first_segment() {
    let mut sending = endpoint(b"abcdef", true, 4);
    assert_eq!(describe_all(&sending.send()), vec!["show #0 SEGMENT(0, count=1, [97, 98, 99, 100])"]);
    let mut empty = endpoint(b"", true, 4);
    assert_eq!(describe_all(&empty.send()), vec!["show #0 DONE"]);
    assert!(empty.send().is_empty());
}

#[test]
fn receive_asks_again_for_the_same_segment() {
    let mut receiving = endpoint(b"", false, 128);
    assert_eq!(describe_all(&receiving.receive()), vec!["show #0 CTS(0)"]);
    assert_eq!(describe_all(&receiving.receive()), vec!["show #1 CTS(0)"]);
}

#[test]
fn receiver_task_answers_each_kind_of_frame() {
    let mut own = SequenceCounter::starting_at(100);
    let mut peer = SequenceCounter::new();
    let mut receiver = Receiver::new();
    let request = Frame::new_cts(&mut peer, 6);
    let out = receiver.handle(&mut own, Message::ReceiveFrame(request));
    assert_eq!(describe_deliveries(&out), vec!["Sender: send 6"]);
    assert_eq!(receiver.expected_frame_sequence, 1);
    assert_eq!(receiver.expected_segment_offset, 6);
    let segment = Frame::new_segment(&mut peer, 6, 0, b"z");
    let out = receiver.handle(&mut own, Message::ReceiveFrame(segment));
    assert_eq!(describe_deliveries(&out), vec!["Display: append [122]", "Receiver: receive next"]);
    assert_eq!(receiver.expected_segment_offset, 7);
    let out = receiver.handle(&mut own, Message::ReceiveNextFrame);
    assert_eq!(describe_deliveries(&out), vec!["Display: show #100 CTS(7)"]);
    let misplaced = Frame::new_segment(&mut peer, 9, 0, b"z");
    let out = receiver.handle(&mut own, Message::ReceiveFrame(misplaced));
    assert_eq!(describe_deliveries(&out), vec!["Display: log Unexpected segment 9"]);
    assert_eq!(receiver.expected_frame_sequence, 3);
    assert_eq!(receiver.expected_segment_offset, 7);
    let out = receiver.handle(&mut own, Message::ReceiveFrame(Frame::new(vec![0, 0, 0, 3, 9])));
    assert_eq!(describe_deliveries(&out), vec!["Display: log Malformed frame"]);
    let out = receiver.handle(&mut own, Message::ReceiveFrame(Frame::new(vec![0, 0])));
    assert_eq!(describe_deliveries(&out), vec!["Display: log Malformed frame"]);
    assert!(receiver.handle(&mut own, Message::SendFrame(1)).is_empty());
    let end = Frame::new_done(&mut peer);
    let out = receiver.handle(&mut own, Message::ReceiveFrame(end));
    assert_eq!(
        describe_deliveries(&out),
        vec!["Display: show #101 DONE", "Display: stop", "Receiver: stop", "Sender: stop"]
    );
    assert!(receiver.running);
    assert!(receiver.handle(&mut own, Message::Donzo).is_empty());
    assert!(!receiver.running);
    assert!(receiver.handle(&mut own, Message::ReceiveNextFrame).is_empty());
    assert_eq!(own.peek(), 102);
}

struct Broken;

impl SegmentSource for Broken {
    fn size(&self) -> Option<usize> {
        Some(1000)
    }

    fn read_segment(&mut self, _offset: usize, _buf: &mut Vec<u8>) -> Result<usize, ReadError> {
        Err(ReadError::Unreadable)
    }
}

#[test]
fn sender_task_shows_segments_until_a_read_fails() {
    let mut counter = SequenceCounter::new();
    let mut sender = Sender::new(MemorySource::new(vec![5u8; 25]), 10);
    let out = sender.handle(&mut counter, Message::SendFrame(2));
    assert_eq!(describe_deliveries(&out), vec!["Display: show #0 SEGMENT(2, count=2, [5, 5, 5, 5, 5])"]);
    assert!(sender.handle(&mut counter, Message::ReceiveNextFrame).is_empty());
    let out = sender.handle(&mut counter, Message::SendFrame(3));
    assert_eq!(describe_deliveries(&out), vec!["Display: show #1 DONE"]);
    assert!(sender.handle(&mut counter, Message::SendFrame(0)).is_empty());
    assert_eq!(counter.peek(), 2);

    let mut broken = Sender::new(Broken, 100);
    let out = broken.handle(&mut counter, Message::SendFrame(0));
    assert_eq!(describe_deliveries(&out), vec!["Display: show #2 DONE"]);

    let mut stopped = Sender::new(MemorySource::new(vec![5u8; 25]), 10);
    assert!(stopped.handle(&mut counter, Message::Donzo).is_empty());
    assert!(stopped.handle(&mut counter, Message::SendFrame(0)).is_empty());
}

#[test]
fn sender_publishes_what_a_read_returned() {
    let mut counter = SequenceCounter::starting_at(9);
    let mut sender = Sender::new(MemorySource::unsized_stream(vec![]), 4);
    let frame = sender.publish(&mut counter, 1, Ok(0));
    assert_eq!(describe_frame(&frame), "#9 SEGMENT(1, count=0, [])");
    let frame = sender.publish(&mut counter, 2, Ok(3));
    assert_eq!(describe_frame(&frame), "#10 SEGMENT(2, count=0, [0, 0, 0])");
    let frame = sender.publish(&mut counter, 3, Err(ReadError::OutOfOrder));
    assert_eq!(describe_frame(&frame), "#11 DONE");
}

#[test]
fn delivery_ports_are_told_apart() {
    assert_ne!(Port::Display, Port::Receiver);
    assert_ne!(Port::Receiver, Port::Sender);
}

#[test]
fn a_missed_sequence_number_stalls_the_receiver() {
    let mut receiving = endpoint(b"", false, 128);
    receiving.receive();
    let mut peer = SequenceCounter::new();
    let _missed = Frame::new_segment(&mut peer, 0, 0, b"a");
    let later = Frame::new_segment(&mut peer, 1, 0, b"b");
    for _ in 0..3 {
        assert_eq!(describe_all(&receiving.receive_frame(later.clone())), vec!["log Unexpected frame 1"]);
    }
}

#[test]
fn the_announced_count_is_the_size_over_the_fragment_size() {
    let mut sending = endpoint(&[0u8; 300], true, 128);
    let shown = sending.send();
    assert_eq!(shown_frame(&shown).unwrap().get_segment_count(), 2);
    let mut hidden = endpoint(&[0u8; 300], false, 128);
    let shown = hidden.send();
    assert_eq!(shown_frame(&shown).unwrap().get_segment_count(), 0);
    let mut small = endpoint(&[0u8; 100], true, 128);
    let shown = small.send();
    assert_eq!(shown_frame(&shown).unwrap().get_segment_count(), 0);
}

#[test]
fn a_stopped_endpoint_says_nothing() {
    let mut receiving = endpoint(b"", false, 128);
    let mut peer = SequenceCounter::new();
    let end = Frame::new_done(&mut peer);
    assert_eq!(describe_all(&receiving.receive_frame(end.clone())), vec!["show #0 DONE", "stop"]);
    assert!(receiving.receive_frame(end).is_empty());
    assert!(receiving.receive().is_empty());
    assert!(receiving.send().is_empty());
}

#[test]
fn the_receiver_task_alone_hands_on_each_segment_once() {
    let mut own = SequenceCounter::new();
    let mut peer = SequenceCounter::new();
    let mut receiver = Receiver::new();
    let parts: [&[u8]; 4] = [b"one ", b"", b"two ", b"three"];
    let frames: Vec<Frame> = parts
        .iter()
        .enumerate()
        .map(|(k, part)| Frame::new_segment(&mut peer, k, 0, part))
        .collect();
    let mut output = Vec::new();
    let mut appended = 0;
    for (k, frame) in frames.iter().enumerate() {
        for _ in 0..(1 + k % 3) {
            for delivery in receiver.handle(&mut own, Message::ReceiveFrame(frame.clone())) {
                if let Message::AppendToOutput(taken) = delivery.message {
                    assert_eq!(delivery.to, Port::Display);
                    assert_eq!(taken.as_bytes(), frame.as_bytes());
                    output.extend_from_slice(taken.get_data());
                    appended += 1;
                }
            }
            receiver.handle(&mut own, Message::ReceiveNextFrame);
        }
    }
    assert_eq!(appended, 4);
    assert_eq!(output, b"one two three");
    assert_eq!(receiver.expected_frame_sequence, 4);
    assert_eq!(receiver.expected_segment_offset, 4);
}

#[test]
fn the_sender_task_alone_shows_the_stream_and_its_end_once() {
    let data: Vec<u8> = (0..23).collect();
    let mut counter = SequenceCounter::starting_at(40);
    let mut sender = Sender::new(MemorySource::new(data.clone()), 5);
    let mut carried = Vec::new();
    let mut shown = Vec::new();
    for k in 0..8 {
        for delivery in sender.handle(&mut counter, Message::SendFrame(k)) {
            if let Message::WriteData(frame) = delivery.message {
                if frame.is_segment() {
                    assert_eq!(frame.get_segment_offset(), k);
                    assert_eq!(frame.get_sequence(), 40 + k);
                    carried.extend_from_slice(frame.get_data());
                }
                shown.push(describe_frame(&frame));
            }
        }
    }
    assert_eq!(carried, data);
    assert_eq!(shown.len(), 6);
    assert_eq!(shown[4], "#44 SEGMENT(4, count=4, [20, 21, 22])");
    assert_eq!(shown[5], "#45 DONE");
    assert_eq!(counter.peek(), 46);
}
