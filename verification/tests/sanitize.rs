use hotline::sanitize::{cr2lf, strip_ansi};

#[test]
fn cr2lf_swaps_only_cr() {
    let mut v = b"a\rb\r\nc".to_vec();
    cr2lf(&mut v);
    assert_eq!(v, b"a\nb\n\nc");
}

#[test]
fn strip_ansi_folds_control_band() {
    let mut v = vec![14u8, 30u8];
    strip_ansi(&mut v);
    assert_eq!(v, vec![78u8, 94u8]);
}

#[test]
fn strip_ansi_preserves_boundaries_and_exceptions() {
    let mut v = vec![13u8, 31u8, 15u8, 22u8, b'A', 0x80, 0xFF, b'\n', b'\t'];
    let expect = v.clone();
    strip_ansi(&mut v);
    assert_eq!(v, expect);
}

#[test]
fn sanitising_twice_changes_nothing() {
    let mut once: Vec<u8> = (0..=255).collect();
    cr2lf(&mut once);
    strip_ansi(&mut once);
    let mut twice = once.clone();
    strip_ansi(&mut twice);
    cr2lf(&mut twice);
    assert_eq!(once, twice);
    assert!(!once.contains(&0x0d));
}
