use hotline::xfer::rflt::{encode, parse_compatible, Resume};

#[test]
fn canonical_vector_round_trips() {
    let value = Resume {
        data: 0x1122_3344,
        resource: 0x5566_7788,
    };
    let bytes = encode(value);
    assert_eq!(&bytes[..4], b"RFLT");
    assert_eq!(bytes.len(), 74);
    assert_eq!(parse_compatible(&bytes), value);
}

#[test]
fn historical_short_and_malformed_records_are_bounded() {
    let mut short = [0; 50];
    short[46..50].copy_from_slice(&7u32.to_be_bytes());
    assert_eq!(
        parse_compatible(&short),
        Resume {
            data: 7,
            resource: 0
        }
    );
    short[..4].copy_from_slice(b"oops");
    assert_eq!(parse_compatible(&short).data, 7);
    assert_eq!(parse_compatible(&short[..49]), Resume::default());
}
