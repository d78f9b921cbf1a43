use hotline::xfer::htxf::{
    encoded_len, parse, Error, Preamble, FLAG_LARGE_FILE, FLAG_RESUME, FLAG_SIZE64,
    RESUME_DIGEST_LEN,
};

#[test]
fn golden_legacy_and_large_vectors() {
    let legacy = Preamble {
        reference: 0x1122_3344,
        transfer_len: 5,
        type_code: 1,
        flags: 0,
        resume_digest: None,
    }
    .encode()
    .unwrap();
    assert_eq!(
        legacy,
        [
            b"HTXF".as_slice(),
            &0x1122_3344u32.to_be_bytes(),
            &5u32.to_be_bytes(),
            &1u16.to_be_bytes(),
            &0u16.to_be_bytes()
        ]
        .concat()
    );
    assert_eq!(parse(&legacy).unwrap().0.transfer_len, 5);

    let big = 0x1_0000_0005;
    let large = Preamble {
        reference: 7,
        transfer_len: big,
        type_code: 1,
        flags: FLAG_LARGE_FILE | FLAG_SIZE64,
        resume_digest: None,
    }
    .encode()
    .unwrap();
    assert_eq!(large.len(), 24);
    assert_eq!(&large[8..12], &[0; 4]);
    assert_eq!(&large[16..24], &big.to_be_bytes());
    assert_eq!(parse(&large).unwrap().0.transfer_len, big);
}

#[test]
fn extension_lengths_and_flag_relationships_are_strict() {
    let digest = [0x5a; RESUME_DIGEST_LEN];
    let p = Preamble {
        reference: 1,
        transfer_len: 9,
        type_code: 2,
        flags: FLAG_LARGE_FILE | FLAG_SIZE64 | FLAG_RESUME,
        resume_digest: Some(digest),
    }
    .encode()
    .unwrap();
    assert_eq!(p.len(), 64);
    assert_eq!(parse(&p).unwrap().0.resume_digest, Some(digest));
    assert_eq!(parse(&p[..63]), Err(Error::Truncated));
    assert_eq!(encoded_len(0x8000), Err(Error::UnsupportedFlags(0x8000)));
    assert_eq!(
        Preamble {
            reference: 1,
            transfer_len: 1,
            type_code: 0,
            flags: FLAG_SIZE64,
            resume_digest: None
        }
        .encode(),
        Err(Error::FlagRelationship)
    );
}

#[test]
fn every_refusal_has_a_message() {
    assert!(parse(b"short").is_err());
    assert!(parse(b"NOPE000000000000").is_err());
    assert_ne!(Error::Truncated.message(), Error::FlagRelationship.message());
    assert_ne!(Error::UnsupportedFlags(1).message(), Error::UnsupportedFlags(2).message());
    assert_eq!(encoded_len(0), Ok(16));
    assert_eq!(encoded_len(FLAG_LARGE_FILE | FLAG_SIZE64), Ok(24));
}

#[test]
fn a_large_transfer_is_told_by_its_flag() {
    let mut p = Preamble {
        reference: 1,
        transfer_len: 1,
        type_code: 0,
        flags: FLAG_LARGE_FILE,
        resume_digest: None,
    };
    assert!(p.large());
    p.flags = 0;
    assert!(!p.large());
}

#[test]
fn every_cut_preamble_is_truncated() {
    let bytes = Preamble {
        reference: 1,
        transfer_len: 0x1_0000_0000,
        type_code: 2,
        flags: FLAG_LARGE_FILE | FLAG_SIZE64 | FLAG_RESUME,
        resume_digest: Some([9; RESUME_DIGEST_LEN]),
    }
    .encode()
    .unwrap();
    for n in 0..bytes.len() {
        assert_eq!(parse(&bytes[..n]).unwrap_err(), Error::Truncated, "{n}");
    }
    assert!(parse(&bytes).is_ok());
}
