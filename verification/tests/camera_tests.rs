use piccp::camera::{
    max_frame_rate, pixels, select_format, Camera, CameraFormat, CameraMode, Resolution,
    MIN_FRAME_RATE,
};
use piccp::codec::Decoder;
use piccp::frame::{Frame, SequenceCounter};
use piccp::log::Log;

fn mode(width: u32, height: u32, frame_rates: &[u32]) -> CameraMode {
    CameraMode { resolution: Resolution { width, height }, frame_rates: frame_rates.to_vec() }
}

#[test]
fn largest_rate_of_a_mode() {
    assert_eq!(max_frame_rate(&vec![]), None);
    assert_eq!(max_frame_rate(&vec![15]), Some(15));
    assert_eq!(max_frame_rate(&vec![15, 60, 30]), Some(60));
    assert_eq!(max_frame_rate(&vec![0]), Some(0));
}

#[test]
fn pixels_of_a_resolution() {
    assert_eq!(pixels(Resolution { width: 640, height: 480 }), 307_200);
    assert_eq!(
        pixels(Resolution { width: u32::MAX, height: u32::MAX }),
        u32::MAX as u64 * u32::MAX as u64
    );
}

#[test]
fn the_largest_fast_mode_is_chosen() {
    let modes = vec![
        mode(640, 480, &[30, 60]),
        mode(1920, 1080, &[15, 30]),
        mode(3840, 2160, &[15]),
        mode(1280, 720, &[60]),
    ];
    assert_eq!(
        select_format(&modes),
        Some(CameraFormat { resolution: Resolution { width: 1920, height: 1080 }, frame_rate: 30 })
    );
}

#[test]
fn the_threshold_is_thirty_pictures_a_second() {
    assert_eq!(MIN_FRAME_RATE, 30);
    assert_eq!(select_format(&vec![mode(640, 480, &[29])]), None);
    assert_eq!(
        select_format(&vec![mode(640, 480, &[30])]),
        Some(CameraFormat { resolution: Resolution { width: 640, height: 480 }, frame_rate: 30 })
    );
}

#[test]
fn of_equally_large_modes_the_first_is_chosen() {
    let modes = vec![mode(800, 600, &[30]), mode(600, 800, &[60]), mode(800, 600, &[120])];
    assert_eq!(
        select_format(&modes),
        Some(CameraFormat { resolution: Resolution { width: 800, height: 600 }, frame_rate: 30 })
    );
}

#[test]
fn no_mode_no_choice() {
    assert_eq!(select_format(&vec![]), None);
    assert_eq!(select_format(&vec![mode(1920, 1080, &[]), mode(640, 480, &[5, 10])]), None);
}

#[test]
fn a_picture_without_codes_gives_nothing() {
    let mut camera = Camera::new(Decoder::new(Log::new()));
    assert!(camera.ingest(vec![]).is_none());
    assert!(!camera.is_done());
    camera.stop();
    assert!(camera.is_done());
    assert!(camera.drain_log().is_empty());
}

#[test]
fn the_ingest_hands_on_what_the_decoder_lets_through() {
    let mut counter = SequenceCounter::new();
    let first = Frame::new_cts(&mut counter, 0);
    let second = Frame::new_cts(&mut counter, 1);
    let mut camera = Camera::new(Decoder::new(Log::new()));
    let found = camera
        .ingest(vec![
            Ok(second.as_bytes().to_vec()),
            Err("FormatEcc".to_string()),
            Ok(first.as_bytes().to_vec()),
            Ok(second.as_bytes().to_vec()),
        ])
        .unwrap();
    assert_eq!(found.len(), 2);
    assert_eq!(found[0].as_bytes(), first.as_bytes());
    assert_eq!(found[1].as_bytes(), second.as_bytes());
    assert_eq!(camera.drain_log(), vec!["Unexpected frame 1", "FormatEcc"]);
    assert!(camera.ingest(vec![Ok(first.as_bytes().to_vec())]).is_none());
    assert_eq!(camera.drain_log(), vec!["Unexpected frame 0"]);
}
