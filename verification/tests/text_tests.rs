use piccp::text::{label_number, to_decimal, write_two_numbers};

#[test]
fn decimal_of_small_and_large_numbers() {
    assert_eq!(to_decimal(0), "0");
    assert_eq!(to_decimal(7), "7");
    assert_eq!(to_decimal(10), "10");
    assert_eq!(to_decimal(109), "109");
    assert_eq!(to_decimal(4_294_967_295), "4294967295");
    assert_eq!(to_decimal(usize::MAX), format!("{}", usize::MAX));
}

#[test]
fn numbers_behind_labels() {
    assert_eq!(label_number("Unexpected frame ", 12), "Unexpected frame 12");
    assert_eq!(label_number("", 0), "0");
    assert_eq!(write_two_numbers("Segment ", 3, "/", 20), "Segment 3/20");
}
