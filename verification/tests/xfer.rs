use hotline::xfer::{remaining, RangeError};

#[test]
fn resumed_ranges_are_checked() {
    assert_eq!(remaining(9, 4), Ok(5));
    assert_eq!(remaining(9, 9), Ok(0));
    assert_eq!(
        remaining(9, 10),
        Err(RangeError {
            total: 9,
            offset: 10
        })
    );
}

#[test]
fn a_range_error_names_both_numbers() {
    let e = RangeError { total: 9, offset: 10 };
    assert!(e.message().contains("9"));
    assert!(e.message().contains("10"));
}
