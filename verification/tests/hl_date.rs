use hotline::hl_date::{parse_hl_date, HlDate, MAC_TO_UNIX_EPOCH_OFFSET};

fn pack(year: u16, msecs: u16, secs: u32) -> [u8; 8] {
    let mut b = [0u8; 8];
    b[0..2].copy_from_slice(&year.to_be_bytes());
    b[2..4].copy_from_slice(&msecs.to_be_bytes());
    b[4..8].copy_from_slice(&secs.to_be_bytes());
    b
}

#[test]
fn mac_1904_epoch_decodes_to_secs() {
    assert_eq!(
        parse_hl_date(&pack(1904, 0, MAC_TO_UNIX_EPOCH_OFFSET)),
        Some(HlDate::Mac1904 {
            secs: MAC_TO_UNIX_EPOCH_OFFSET
        })
    );
    assert_eq!(
        parse_hl_date(&pack(1904, 0, MAC_TO_UNIX_EPOCH_OFFSET + 86400)),
        Some(HlDate::Mac1904 {
            secs: MAC_TO_UNIX_EPOCH_OFFSET + 86400
        })
    );
}

#[test]
fn modern_format_decodes_year_and_secs() {
    assert_eq!(
        parse_hl_date(&pack(2026, 0, 1)),
        Some(HlDate::Modern {
            year: 2026,
            secs: 1
        })
    );
    assert_eq!(
        parse_hl_date(&pack(1990, 0, 30 * 86400 + 3600)),
        Some(HlDate::Modern {
            year: 1990,
            secs: 30 * 86400 + 3600
        })
    );
}

#[test]
fn zero_seconds_is_the_no_timestamp_sentinel() {
    assert_eq!(parse_hl_date(&pack(1904, 0, 0)), None);
    assert_eq!(parse_hl_date(&pack(2026, 0, 0)), None);
    assert_eq!(parse_hl_date(&[0u8; 8]), None);
}

#[test]
fn year_out_of_range_refused() {
    assert_eq!(parse_hl_date(&pack(1969, 0, 1)), None);
    assert_eq!(parse_hl_date(&pack(2201, 0, 1)), None);
    assert_eq!(parse_hl_date(&pack(0, 0, 1)), None);
}

#[test]
fn short_buffer_refused() {
    assert_eq!(parse_hl_date(&[0u8; 7]), None);
    assert_eq!(parse_hl_date(&[]), None);
}

#[test]
fn bounds_of_the_modern_years() {
    assert_eq!(parse_hl_date(&pack(1970, 0, 1)), Some(HlDate::Modern { year: 1970, secs: 1 }));
    assert_eq!(parse_hl_date(&pack(2200, 0, 1)), Some(HlDate::Modern { year: 2200, secs: 1 }));
}
