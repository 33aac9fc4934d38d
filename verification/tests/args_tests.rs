use piccp::args::Args;

fn args(send: bool, input_file: &str) -> Args {
    Args {
        send,
        input_file: input_file.to_string(),
        fragment_size: 128,
        scale_width: 4,
        scale_height: 2,
        hide_quiet_zone: false,
        receive: false,
        output_file: String::new(),
    }
}

#[test]
fn sender_by_flag_or_by_file() {
    assert!(!args(false, "").is_sender());
    assert!(args(true, "").is_sender());
    assert!(args(false, "data.bin").is_sender());
    assert!(args(true, "data.bin").is_sender());
}

#[test]
fn file_input_only_with_a_path() {
    assert!(!args(true, "").reads_file());
    assert!(args(false, "data.bin").reads_file());
}

#[test]
fn encoder_follows_the_settings() {
    let settings = args(true, "");
    assert!(settings.encoder().fits());
}
