//! The resume digest of the large-file extension: it binds a resumed raw upload to the exact
//! partial file, at the exact length, that the server holds.
use crate::bytes;
use crate::bytes::{array_of, get64, put64, put_bytes};
use sha2::{Digest, Sha256};
use vstd::prelude::*;
use vstd::string::*;

verus! {

/// The window a server hashes unless it states a larger one.
pub const DEFAULT_WINDOW: u64 = 65_536;

pub const ENCODED_LEN: usize = 40;

/// Why no digest can be made.
#[derive(Debug, Clone, Copy, PartialEq, Eq, Structural)]
pub enum Error {
    WindowMismatch,
}

impl Error {
    /// What [`Error::message`] says.
    pub open spec fn message_text(&self) -> Seq<char> {
        "resume digest window does not fit the upload offset"@
    }

    /// The error in words.
    pub fn message(&self) -> (r: String)
        ensures
            r@ == self.message_text(),
    {
        "resume digest window does not fit the upload offset".to_owned()
    }
}

/// The SHA-256 digest of a byte string.
pub uninterp spec fn sha256(data: Seq<u8>) -> Seq<u8>;

/// Calls `sha2::Sha256::digest`. Its result is the SHA-256 digest of the bytes, which depends on
/// them alone.
#[verifier::external_body]
fn sha256_digest(data: &[u8]) -> (r: [u8; 32])
    ensures
        r@ == sha256(data@),
{
    Sha256::digest(data).into()
}

/// A window of `len` bytes fits an upload that resumes at `offset`: it holds at least the smaller
/// of the offset and the default window, and no more than the offset.
pub open spec fn window_fits(offset: u64, len: int) -> bool {
    &&& len <= offset
    &&& len >= offset || len >= DEFAULT_WINDOW
}

/// The digest of a window, on the wire: its length and the hash of offset and window.
pub open spec fn wire(offset: u64, window: Seq<u8>) -> Seq<u8> {
    bytes::be64_bytes(window.len() as u64) + sha256(bytes::be64_bytes(offset) + window)
}

/// What is hashed: the offset and the window.
pub fn hash_input(offset: u64, window: &[u8]) -> (r: Vec<u8>)
    ensures
        r@ == bytes::be64_bytes(offset) + window@,
{
    let mut out: Vec<u8> = Vec::new();
    put64(&mut out, offset);
    put_bytes(&mut out, window);
    assert(out@ =~= bytes::be64_bytes(offset) + window@);
    out
}

/// The length of a window and its hash, as they are sent.
pub fn frame(len: u64, hash: &[u8; 32]) -> (r: [u8; ENCODED_LEN])
    ensures
        r@ == bytes::be64_bytes(len) + hash@,
{
    let mut out: Vec<u8> = Vec::with_capacity(ENCODED_LEN);
    put64(&mut out, len);
    put_bytes(&mut out, hash);
    assert(out@ =~= bytes::be64_bytes(len) + hash@);
    proof {
        bytes::be64_round_trip(len, Seq::empty());
    }
    array_of::<40>(out.as_slice())
}

/// Builds the resume digest over `window`, the last bytes of the partial file before `offset`.
/// The server picks the window; a client that checks a server's digest hashes the length that the
/// server stated (see [`window_len`]).
pub fn encode(offset: u64, window: &[u8]) -> (r: Result<[u8; ENCODED_LEN], Error>)
    ensures
        match r {
            Ok(out) => window_fits(offset, window@.len() as int) && out@ == wire(offset, window@),
            Err(e) => !window_fits(offset, window@.len() as int) && e == Error::WindowMismatch,
        },
{
    let len: u64 = window.len() as u64;
    if len > offset || (len < offset && len < DEFAULT_WINDOW) {
        return Err(Error::WindowMismatch);
    }
    let input = hash_input(offset, window);
    let hash: [u8; 32] = sha256_digest(input.as_slice());
    Ok(frame(len, &hash))
}

/// The window length that a digest states.
pub fn window_len(digest: &[u8; ENCODED_LEN]) -> (r: u64)
    ensures
        r == bytes::be64_at(digest@, 0),
{
    get64(digest, 0)
}

/// Compares a digest that a peer echoed with one that was recomputed from the partial file. The
/// work does not depend on where they differ.
pub fn matches(expected: &[u8; ENCODED_LEN], echoed: &[u8; ENCODED_LEN]) -> (r: bool)
    ensures
        r == (expected@ == echoed@),
{
    let mut difference: u8 = 0;
    let mut i: usize = 0;
    while i < 40
        invariant
            i <= 40,
            difference == 0 <==> (forall|k: int| 0 <= k < i ==> expected[k] == echoed[k]),
        decreases 40 - i,
    {
        let a: u8 = expected[i];
        let b: u8 = echoed[i];
        let next: u8 = difference | (a ^ b);
        assert(next == 0 <==> difference == 0 && a == b) by (bit_vector)
            requires
                next == difference | (a ^ b),
        ;
        assert(expected[i as int] == a && echoed[i as int] == b);
        difference = next;
        i = i + 1;
    }
    if difference == 0 {
        assert(expected@ =~= echoed@);
    }
    difference == 0
}

/// A digest states the length of the window it was made over, and two digests agree exactly when
/// the stated lengths and the hashes do.
pub proof fn digest_states_window(
    offset: u64,
    window: Seq<u8>,
    other_offset: u64,
    other: Seq<u8>,
)
    requires
        window_fits(offset, window.len() as int),
        window_fits(other_offset, other.len() as int),
    ensures
        bytes::be64_at(wire(offset, window), 0) == window.len(),
        wire(offset, window) == wire(other_offset, other) <==> window.len() == other.len()
            && sha256(bytes::be64_bytes(offset) + window) == sha256(
            bytes::be64_bytes(other_offset) + other,
        ),
{
    let a = wire(offset, window);
    let b = wire(other_offset, other);
    bytes::be64_round_trip(window.len() as u64, Seq::empty());
    bytes::be64_round_trip(other.len() as u64, Seq::empty());
    let ah = sha256(bytes::be64_bytes(offset) + window);
    let bh = sha256(bytes::be64_bytes(other_offset) + other);
    assert(a.subrange(0, 8) =~= bytes::be64_bytes(window.len() as u64));
    assert(b.subrange(0, 8) =~= bytes::be64_bytes(other.len() as u64));
    assert(a.subrange(8, a.len() as int) =~= ah);
    assert(b.subrange(8, b.len() as int) =~= bh);
}

/// What is hashed is the offset in eight bytes and the window behind it, and what is sent is the
/// length in eight bytes and the hash behind it.
pub proof fn pieces_stand_in_order(
    offset: u64,
    window: &[u8],
    input: Vec<u8>,
    len: u64,
    hash: &[u8; 32],
    sent: [u8; 40],
    stated: u64,
)
    requires
        call_ensures(hash_input, (offset, window), input),
        call_ensures(frame, (len, hash), sent),
        call_ensures(window_len, (&sent,), stated),
    ensures
        input@.len() == 8 + window@.len(),
        bytes::be64_at(input@, 0) == offset,
        input@.skip(8) == window@,
        bytes::be64_at(sent@, 0) == len,
        sent@.skip(8) == hash@,
        stated == len,
{
    bytes::be64_round_trip(offset, Seq::empty());
    bytes::be64_round_trip(len, Seq::empty());
    assert(input@.subrange(0, 8) =~= bytes::be64_bytes(offset));
    assert(input@.skip(8) =~= window@);
    assert(sent@.subrange(0, 8) =~= bytes::be64_bytes(len));
    assert(sent@.skip(8) =~= hash@);
}

/// A window is refused exactly if it is longer than what was uploaded, or shorter than both that and
/// 65536 bytes. One that is not states its length and holds the hash of what is hashed.
pub proof fn fitting_windows(
    offset: u64,
    window: &[u8],
    input: Vec<u8>,
    r: Result<[u8; 40], Error>,
)
    requires
        call_ensures(hash_input, (offset, window), input),
        call_ensures(encode, (offset, window), r),
    ensures
        r is Err <==> window@.len() > offset || (window@.len() < offset && window@.len() < 65536),
        r matches Ok(d) ==> bytes::be64_at(d@, 0) == window@.len() && d@.skip(8) == sha256(input@),
{
    if let Ok(d) = r {
        bytes::be64_round_trip(window@.len() as u64, Seq::empty());
        assert(d@.subrange(0, 8) =~= bytes::be64_bytes(window@.len() as u64));
        assert(d@.skip(8) =~= sha256(input@));
    }
}

/// Two digests match exactly if they are the same in each of their forty bytes.
pub proof fn every_byte_counts(a: &[u8; 40], b: &[u8; 40], r: bool)
    requires
        call_ensures(matches, (a, b), r),
    ensures
        r <==> forall|i: int| 0 <= i < 40 ==> #[trigger] a@[i] == b@[i],
{
    if forall|i: int| 0 <= i < 40 ==> #[trigger] a@[i] == b@[i] {
        assert(a@ =~= b@);
    }
}

/// The error in words.
pub proof fn error_in_words(e: Error, r: String)
    requires
        call_ensures(Error::message, (&e,), r),
    ensures
        r@ == "resume digest window does not fit the upload offset"@,
{
}

} // verus!
