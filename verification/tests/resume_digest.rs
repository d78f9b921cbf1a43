use hotline::xfer::resume_digest::{encode, frame, hash_input, window_len, Error, DEFAULT_WINDOW};
use sha2::{Digest, Sha256};

#[test]
fn digest_binds_offset_and_exact_window() {
    let digest = encode(3, b"abc").unwrap();
    assert_eq!(&digest[..8], &3u64.to_be_bytes());
    assert!(hotline::xfer::resume_digest::matches(&digest, &digest));
    assert!(!hotline::xfer::resume_digest::matches(&digest, &encode(3, b"abd").unwrap()));
    assert_eq!(encode(4, b"abc"), Err(Error::WindowMismatch));
}

#[test]
fn long_partial_uses_only_the_declared_window() {
    let window = vec![0x5a; DEFAULT_WINDOW as usize];
    let digest = encode(DEFAULT_WINDOW + 10, &window).unwrap();
    assert_eq!(window_len(&digest), DEFAULT_WINDOW);
}

#[test]
fn a_server_may_state_a_larger_window() {
    let window = vec![0x5a; DEFAULT_WINDOW as usize + 1];
    let digest = encode(DEFAULT_WINDOW + 10, &window).unwrap();
    assert_eq!(window_len(&digest), DEFAULT_WINDOW + 1);
    assert_eq!(
        encode(DEFAULT_WINDOW + 10, &window[..DEFAULT_WINDOW as usize - 1]),
        Err(Error::WindowMismatch)
    );
    assert_eq!(encode(3, b"abcd"), Err(Error::WindowMismatch));
}

#[test]
fn error_implements_standard_error_traits() {
    assert_eq!(
        Error::WindowMismatch.message(),
        "resume digest window does not fit the upload offset"
    );
}

#[test]
fn digest_is_the_window_and_its_hash() {
    let digest = encode(3, b"abc").unwrap();
    let hashed: [u8; 32] = Sha256::digest(hash_input(3, b"abc")).into();
    assert_eq!(&digest[8..], &hashed[..]);
    assert_eq!(digest, frame(3, &hashed));
    assert_ne!(&digest[8..], &hash_input(3, b"abc")[..]);
}
