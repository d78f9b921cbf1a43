use hotline::xfer::ffo::{
    encode, fork_len, hfs_h_to_mtime, hfs_m_to_htime, info_block_len, pack_fork_header,
    parse_filp_info, parse_fork_header, parse_info, Error, ForkHeader, Forks, Metadata,
    FORK_HEADER_LEN, INFO_FIXED_LEN, MAX_INFO_LEN,
};

fn metadata<'a>(name: &'a [u8], comment: &'a [u8]) -> Metadata<'a> {
    Metadata {
        name,
        type_code: *b"TEXT",
        creator: *b"ttxt",
        comment,
        create_time: 7,
        modify_time: 9,
    }
}

const NO_FORKS: Forks = Forks {
    data_len: 0,
    data_offset: 0,
    resource_len: 0,
    resource_offset: 0,
};

#[test]
fn legacy_filp_vector_has_variable_name_and_trailing_macr() {
    let encoded = encode(
        &metadata(b"notes.txt", b"source"),
        Forks {
            data_len: 5,
            ..NO_FORKS
        },
        false,
    )
    .unwrap();
    assert_eq!(&encoded.prefix[..4], b"FILP");
    assert_eq!(&encoded.prefix[24..28], b"INFO");
    let info_len = INFO_FIXED_LEN + 9 + 6;
    assert_eq!(
        parse_fork_header(&encoded.prefix[24..40], false)
            .unwrap()
            .length,
        info_len as u64
    );
    let info = parse_info(&encoded.prefix[40..40 + info_len]).unwrap();
    assert_eq!(info.platform, *b"AMAC");
    assert_eq!(info.name, b"notes.txt");
    assert_eq!(info.comment, b"source");
    assert_eq!(&encoded.prefix[40 + info_len..44 + info_len], b"DATA");
    assert_eq!(&encoded.resource_header[..4], b"MACR");
    assert_eq!(encoded.transfer_len, encoded.prefix.len() as u64 + 5 + 16);
}

#[test]
fn info_length_agrees_with_period_readers_and_is_bounded() {
    assert_eq!(info_block_len(0, 0x5a), Ok(0x5a + FORK_HEADER_LEN));
    assert_eq!(info_block_len(1, 0x23), Ok(0x123 + FORK_HEADER_LEN));
    assert_eq!(
        info_block_len(0x01, 0xc9),
        Ok(MAX_INFO_LEN + FORK_HEADER_LEN)
    );
    assert_eq!(info_block_len(0x01, 0xca), Err(Error::InfoTooLong));
    assert_eq!(info_block_len(0xb8, 0xb9), Err(Error::InfoTooLong));
}

#[test]
fn windows_platform_info_parses() {
    let encoded = encode(&metadata(b"notes.txt", b"source"), NO_FORKS, false).unwrap();
    let info_len = INFO_FIXED_LEN + b"notes.txt".len() + b"source".len();
    let mut info = encoded.prefix[40..40 + info_len].to_vec();
    info[..4].copy_from_slice(b"MWIN");

    let parsed = parse_info(&info).unwrap();
    assert_eq!(parsed.platform, *b"MWIN");
    assert_eq!(parsed.name, b"notes.txt");
    assert_eq!(parsed.comment, b"source");
}

#[test]
fn legacy_fork_headers_ignore_what_period_readers_ignore() {
    let mut header = pack_fork_header(b"DATA", 5, false).unwrap();
    header[4..12].copy_from_slice(&[0xa5; 8]);
    assert_eq!(
        parse_fork_header(&header, false),
        Ok(ForkHeader {
            tag: *b"DATA",
            length: 5
        })
    );
    assert_eq!(parse_fork_header(&header, true), Err(Error::BadFork));
}

#[test]
fn size_overflow_message_describes_the_selected_encoding() {
    assert_eq!(
        Error::SizeOverflow.message(),
        "FILP size exceeds the selected wire encoding"
    );
}

#[test]
fn large_fork_vector_reconstructs_high_and_low_halves() {
    let length = 0x1_4000_0005;
    let header = pack_fork_header(b"DATA", length, true).unwrap();
    assert_eq!(&header[4..8], &1u32.to_be_bytes());
    assert_eq!(&header[12..16], &0x4000_0005u32.to_be_bytes());
    assert_eq!(parse_fork_header(&header, true).unwrap().length, length);
    assert_eq!(
        parse_fork_header(&header, false).unwrap().length,
        0x4000_0005
    );
}

#[test]
fn legacy_fork_headers_reject_lengths_the_wire_cannot_carry() {
    assert_eq!(
        pack_fork_header(b"DATA", u32::MAX as u64 + 1, false),
        Err(Error::SizeOverflow)
    );
}

#[test]
fn sparse_large_fixture_needs_no_large_allocation() {
    let encoded = encode(
        &metadata(b"huge.bin", b""),
        Forks {
            data_len: 0x1_0000_0020,
            data_offset: 0x1_0000_0000,
            ..NO_FORKS
        },
        true,
    )
    .unwrap();
    assert_eq!(encoded.data_remaining, 32);
    assert!(encoded.prefix.len() < 256);
}

#[test]
fn legacy_transfer_size_includes_container_overhead() {
    assert_eq!(
        encode(
            &metadata(b"x", b""),
            Forks {
                data_len: u32::MAX as u64,
                ..NO_FORKS
            },
            false,
        )
        .unwrap_err(),
        Error::SizeOverflow
    );
}

#[test]
fn lengths_and_ranges_fail_closed() {
    assert!(matches!(
        encode(&metadata(&[b'x'; 129], b""), NO_FORKS, false),
        Err(Error::NameTooLong)
    ));
    assert!(matches!(
        encode(&metadata(b"x", &[b'x'; 256]), NO_FORKS, false),
        Err(Error::CommentTooLong)
    ));
    assert!(matches!(
        encode(
            &metadata(b"x", b""),
            Forks {
                data_len: 1,
                data_offset: 2,
                ..NO_FORKS
            },
            false
        ),
        Err(Error::Range(_))
    ));
    assert!(matches!(
        encode(
            &metadata(b"x", b""),
            Forks {
                data_len: u32::MAX as u64 + 1,
                ..NO_FORKS
            },
            false
        ),
        Err(Error::SizeOverflow)
    ));
}

#[test]
fn errors_say_what_is_wrong() {
    assert_eq!(parse_fork_header(b"DATA", false), Err(Error::Truncated));
    assert_ne!(Error::Truncated.message(), Error::BadFork.message());
    assert!(parse_info(&[0; 10]).is_err());
    assert!(parse_filp_info(&[0; 10], false).is_err());
}

#[test]
fn times_go_there_and_back() {
    let mac = 3_500_000_000u32.to_be_bytes();
    assert_eq!(hfs_h_to_mtime(hfs_m_to_htime(mac)), mac);
    assert_eq!(hfs_m_to_htime(3_029_529_600u32.to_be_bytes()), [0; 4]);
    assert_eq!(hfs_m_to_htime([0; 4]), 1_265_437_696u32.to_be_bytes());
}

#[test]
fn marker_gives_the_fork_length() {
    let header = pack_fork_header(b"MACR", 0x2_0000_0007, true).unwrap();
    assert_eq!(fork_len(&header, true), 0x2_0000_0007);
    assert_eq!(fork_len(&header, false), 7);
}
