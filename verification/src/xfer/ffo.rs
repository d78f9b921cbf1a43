//! Flattened File Object (`FILP`) encoding and parsing.
use crate::bytes;
use crate::bytes::{array32, array_of, get16, get32, put16, put_bytes, put_zeros};
use crate::xfer::{remaining, RangeError};
use vstd::prelude::*;
use vstd::slice::slice_subrange;
use vstd::slice::slice_to_vec;
use vstd::string::*;

verus! {

pub const FFO_HEADER_LEN: usize = 24;

pub const FORK_HEADER_LEN: usize = 16;

pub const INFO_FIXED_LEN: usize = 74;

pub const MAX_NAME_LEN: usize = 128;

pub const MAX_COMMENT_LEN: usize = 255;

/// The largest INFO fork [`parse_info`] accepts: the fixed fields, a maximal name and a maximal
/// comment.
pub const MAX_INFO_LEN: usize = INFO_FIXED_LEN + MAX_NAME_LEN + MAX_COMMENT_LEN;

/// Seconds between the Hotline header epoch and the Macintosh epoch.
pub const HFS_MAC_HEADER_DELTA: u32 = 3_029_529_600;

/// Why a file object is refused.
#[derive(Debug, Clone, PartialEq, Eq)]
pub enum Error {
    Truncated,
    BadVersion,
    BadFork,
    NameTooLong,
    CommentTooLong,
    InfoTooLong,
    SizeOverflow,
    Range(RangeError),
}

impl Error {
    /// What [`Error::message`] says.
    pub open spec fn message_text(&self) -> Seq<char> {
        match self {
            Error::Truncated => "truncated FILP data"@,
            Error::BadVersion => "unsupported FILP version"@,
            Error::BadFork => "invalid FILP fork header"@,
            Error::NameTooLong => "FILP filename exceeds 128 bytes"@,
            Error::CommentTooLong => "FILP comment exceeds 255 bytes"@,
            Error::InfoTooLong => "FILP INFO fork exceeds 457 bytes"@,
            Error::SizeOverflow => "FILP size exceeds the selected wire encoding"@,
            Error::Range(e) => e.message_text(),
        }
    }

    /// The error in words.
    pub fn message(&self) -> (r: String)
        ensures
            r@ == self.message_text(),
    {
        match self {
            Error::Truncated => "truncated FILP data".to_owned(),
            Error::BadVersion => "unsupported FILP version".to_owned(),
            Error::BadFork => "invalid FILP fork header".to_owned(),
            Error::NameTooLong => "FILP filename exceeds 128 bytes".to_owned(),
            Error::CommentTooLong => "FILP comment exceeds 255 bytes".to_owned(),
            Error::InfoTooLong => "FILP INFO fork exceeds 457 bytes".to_owned(),
            Error::SizeOverflow => "FILP size exceeds the selected wire encoding".to_owned(),
            Error::Range(e) => e.message(),
        }
    }
}

impl From<RangeError> for Error {
    fn from(value: RangeError) -> (r: Self) {
        Error::Range(value)
    }
}

impl vstd::std_specs::convert::FromSpecImpl<RangeError> for Error {
    open spec fn obeys_from_spec() -> bool {
        true
    }

    open spec fn from_spec(value: RangeError) -> Error {
        Error::Range(value)
    }
}

/// `n` zero bytes.
pub open spec fn zeros(n: nat) -> Seq<u8> {
    Seq::new(n, |i: int| 0u8)
}

// ---------------------------------------------------------------------------------------------
// Fork headers.
// ---------------------------------------------------------------------------------------------
/// What a fork header says.
#[derive(Debug, Clone, Copy, PartialEq, Eq)]
pub struct ForkHeader {
    pub tag: [u8; 4],
    pub length: u64,
}

/// A fork header: the tag, the high half of the length where the large-file extension puts it,
/// four reserved bytes and the low half.
#[verifier::opaque]
pub open spec fn fork_header(tag: Seq<u8>, length: u64, large: bool) -> Seq<u8> {
    tag + (if large {
        bytes::be32_bytes((length / 0x1_0000_0000) as u32)
    } else {
        zeros(4)
    }) + zeros(4) + bytes::be32_bytes((length % 0x1_0000_0000) as u32)
}

/// The length that a fork header states.
pub open spec fn stated_len(marker: Seq<u8>, large: bool) -> u64 {
    if large {
        (bytes::be32_at(marker, 4) * 0x1_0000_0000 + bytes::be32_at(marker, 12)) as u64
    } else {
        bytes::be32_at(marker, 12) as u64
    }
}

/// A length that the selected encoding cannot carry.
pub open spec fn too_long_for_wire(length: u64, large: bool) -> bool {
    !large && length > u32::MAX
}

/// Builds a fork header.
pub fn pack_fork_header(tag: &[u8; 4], length: u64, large: bool) -> (r: Result<
    [u8; FORK_HEADER_LEN],
    Error,
>)
    ensures
        match r {
            Ok(h) => !too_long_for_wire(length, large) && h@ == fork_header(tag@, length, large),
            Err(e) => too_long_for_wire(length, large) && e == Error::SizeOverflow,
        },
{
    if !large && length > u32::MAX as u64 {
        return Err(Error::SizeOverflow);
    }
    let high: [u8; 4] = if large {
        array32((length / 0x1_0000_0000) as u32)
    } else {
        [0, 0, 0, 0]
    };
    let low: [u8; 4] = array32((length % 0x1_0000_0000) as u32);
    let out: [u8; 16] = [
        tag[0],
        tag[1],
        tag[2],
        tag[3],
        high[0],
        high[1],
        high[2],
        high[3],
        0,
        0,
        0,
        0,
        low[0],
        low[1],
        low[2],
        low[3],
    ];
    proof {
        reveal(fork_header);
        bytes::be32_round_trip((length / 0x1_0000_0000) as u32, Seq::empty());
        bytes::be32_round_trip((length % 0x1_0000_0000) as u32, Seq::empty());
    }
    assert(out@ =~= fork_header(tag@, length, large));
    Ok(out)
}

/// Decodes a fork length the way period clients do: in legacy mode the reserved bytes and a large
/// high half are ignored.
pub fn fork_len(marker: &[u8; FORK_HEADER_LEN], large: bool) -> (r: u64)
    ensures
        r == stated_len(marker@, large),
{
    let low: u64 = get32(marker, 12) as u64;
    if large {
        get32(marker, 4) as u64 * 0x1_0000_0000 + low
    } else {
        low
    }
}

/// Parses a fork header.
///
/// In legacy mode only the tag and the 32-bit length are read, so a peer that leaves junk in the
/// compression and reserved fields still transfers. Large-file mode uses the compression field as
/// the high half of the length and keeps the reserved field zero.
pub fn parse_fork_header(bytes: &[u8], large: bool) -> (r: Result<ForkHeader, Error>)
    ensures
        match r {
            Ok(h) => {
                &&& bytes@.len() >= 16
                &&& large ==> bytes@.subrange(8, 12) == zeros(4)
                &&& h.tag@ == bytes@.subrange(0, 4)
                &&& h.length == stated_len(bytes@.subrange(0, 16), large)
            },
            Err(e) => if bytes@.len() < 16 {
                e == Error::Truncated
            } else {
                &&& e == Error::BadFork
                &&& large
                &&& bytes@.subrange(8, 12) != zeros(4)
            },
        },
{
    if bytes.len() < FORK_HEADER_LEN {
        return Err(Error::Truncated);
    }
    let marker: [u8; 16] = array_of::<16>(slice_subrange(bytes, 0, 16));
    assert(bytes@.subrange(8, 12) == zeros(4) <==> marker[8] == 0 && marker[9] == 0 && marker[10]
        == 0 && marker[11] == 0) by {
        let s = bytes@.subrange(8, 12);
        assert(s[0] == marker[8] && s[1] == marker[9] && s[2] == marker[10] && s[3] == marker[11]);
        if marker[8] == 0 && marker[9] == 0 && marker[10] == 0 && marker[11] == 0 {
            assert(s =~= zeros(4));
        } else {
            assert(zeros(4)[0] == 0 && zeros(4)[1] == 0 && zeros(4)[2] == 0 && zeros(4)[3] == 0);
        }
    }
    if large && !(marker[8] == 0 && marker[9] == 0 && marker[10] == 0 && marker[11] == 0) {
        return Err(Error::BadFork);
    }
    let tag: [u8; 4] = [marker[0], marker[1], marker[2], marker[3]];
    assert(tag@ =~= bytes@.subrange(0, 4));
    Ok(ForkHeader { tag, length: fork_len(&marker, large) })
}

/// A packed fork header states the length it was packed with. One packed in legacy mode is read
/// the same way by both kinds of reader; of one packed in large-file mode a legacy reader sees the
/// low half.
pub proof fn fork_header_round_trip(tag: Seq<u8>, length: u64, large: bool)
    requires
        tag.len() == 4,
        !too_long_for_wire(length, large),
    ensures
        fork_header(tag, length, large).len() == 16,
        fork_header(tag, length, large).subrange(0, 4) == tag,
        fork_header(tag, length, large).subrange(8, 12) == zeros(4),
        stated_len(fork_header(tag, length, large), large) == length,
        !large ==> stated_len(fork_header(tag, length, large), true) == length,
        large ==> stated_len(fork_header(tag, length, large), false) == length % 0x1_0000_0000,
{
    reveal(fork_header);
    let h = fork_header(tag, length, large);
    let high = (length / 0x1_0000_0000) as u32;
    let low = (length % 0x1_0000_0000) as u32;
    bytes::be32_round_trip(high, Seq::empty());
    bytes::be32_round_trip(low, Seq::empty());
    bytes::be32_round_trip(0, zeros(4));
    assert(h.subrange(0, 4) =~= tag);
    assert(h.subrange(8, 12) =~= zeros(4));
    assert(h.subrange(12, 16) =~= bytes::be32_bytes(low));
    if large {
        assert(h.subrange(4, 8) =~= bytes::be32_bytes(high));
    } else {
        assert(h.subrange(4, 8) =~= zeros(4));
        assert(bytes::be32(zeros(4)) == 0) by {
            reveal(bytes::be32);
        }
    }
}

// ---------------------------------------------------------------------------------------------
// Times.
// ---------------------------------------------------------------------------------------------
/// Header seconds for Macintosh seconds, modulo 2^32.
pub open spec fn m_to_h(seconds: u32) -> u32 {
    if seconds >= HFS_MAC_HEADER_DELTA {
        (seconds - HFS_MAC_HEADER_DELTA) as u32
    } else {
        (seconds + 0x1_0000_0000 - HFS_MAC_HEADER_DELTA) as u32
    }
}

/// Macintosh seconds for header seconds, modulo 2^32.
pub open spec fn h_to_m(seconds: u32) -> u32 {
    if seconds + HFS_MAC_HEADER_DELTA < 0x1_0000_0000 {
        (seconds + HFS_MAC_HEADER_DELTA) as u32
    } else {
        (seconds + HFS_MAC_HEADER_DELTA - 0x1_0000_0000) as u32
    }
}

/// Converts a time from the Macintosh epoch to that of the header.
pub fn hfs_m_to_htime(wire: [u8; 4]) -> (r: [u8; 4])
    ensures
        r@ == bytes::be32_bytes(m_to_h(bytes::be32(wire@))),
{
    assert(wire@.subrange(0, 4) =~= wire@);
    array32(get32(&wire, 0).wrapping_sub(HFS_MAC_HEADER_DELTA))
}

/// Converts a time from the epoch of the header to that of the Macintosh.
pub fn hfs_h_to_mtime(wire: [u8; 4]) -> (r: [u8; 4])
    ensures
        r@ == bytes::be32_bytes(h_to_m(bytes::be32(wire@))),
{
    assert(wire@.subrange(0, 4) =~= wire@);
    array32(get32(&wire, 0).wrapping_add(HFS_MAC_HEADER_DELTA))
}

/// The two conversions undo each other.
pub proof fn time_conversions_are_inverse(seconds: u32)
    ensures
        m_to_h(h_to_m(seconds)) == seconds,
        h_to_m(m_to_h(seconds)) == seconds,
{
}

/// Bytes to read behind the file object header and the INFO fork header: the INFO fork and the
/// DATA fork header that follows it. `b38` and `b39` are the low half of the INFO fork's length.
pub fn info_block_len(b38: u8, b39: u8) -> (r: Result<usize, Error>)
    ensures
        match r {
            Ok(n) => b38 * 256 + b39 <= MAX_INFO_LEN && n == b38 * 256 + b39 + FORK_HEADER_LEN,
            Err(e) => b38 * 256 + b39 > MAX_INFO_LEN && e == Error::InfoTooLong,
        },
{
    let info_len: usize = b38 as usize * 256 + b39 as usize;
    if info_len > MAX_INFO_LEN {
        return Err(Error::InfoTooLong);
    }
    Ok(info_len + FORK_HEADER_LEN)
}

// ---------------------------------------------------------------------------------------------
// The container.
// ---------------------------------------------------------------------------------------------
/// What is sent of a file besides its forks.
#[derive(Debug, Clone, PartialEq, Eq)]
pub struct Metadata<'a> {
    pub name: &'a [u8],
    pub type_code: [u8; 4],
    pub creator: [u8; 4],
    pub comment: &'a [u8],
    /// Seconds in Hotline's header epoch; the file object holds them in the Macintosh epoch.
    pub create_time: u32,
    pub modify_time: u32,
}

/// The lengths of the forks, and from where in them a resumed transfer goes on.
#[derive(Debug, Clone, Copy, PartialEq, Eq)]
pub struct Forks {
    pub data_len: u64,
    pub data_offset: u64,
    pub resource_len: u64,
    pub resource_offset: u64,
}

/// A file object, ready to be sent around the bytes of the forks.
#[derive(Debug, Clone, PartialEq, Eq)]
pub struct Encoded {
    /// File object header, INFO header and data, and DATA header.
    pub prefix: Vec<u8>,
    /// MACR header; callers append the remaining resource bytes behind it.
    pub resource_header: [u8; FORK_HEADER_LEN],
    pub data_remaining: u64,
    pub resource_remaining: u64,
    pub transfer_len: u64,
}

/// `FILP`.
pub open spec fn tag_filp() -> Seq<u8> {
    seq![0x46u8, 0x49, 0x4c, 0x50]
}

/// `INFO`.
pub open spec fn tag_info() -> Seq<u8> {
    seq![0x49u8, 0x4e, 0x46, 0x4f]
}

/// `DATA`.
pub open spec fn tag_data() -> Seq<u8> {
    seq![0x44u8, 0x41, 0x54, 0x41]
}

/// `MACR`.
pub open spec fn tag_macr() -> Seq<u8> {
    seq![0x4du8, 0x41, 0x43, 0x52]
}

/// `AMAC`.
pub open spec fn platform_amac() -> Seq<u8> {
    seq![0x41u8, 0x4d, 0x41, 0x43]
}

/// The INFO fork in front of the name: platform, type, creator, the two dates and the length of
/// the name.
pub open spec fn info_head(m: &Metadata<'_>) -> Seq<u8> {
    platform_amac() + m.type_code@ + m.creator@ + zeros(44) + bytes::be32_bytes(
        h_to_m(m.create_time),
    ) + zeros(4) + bytes::be32_bytes(h_to_m(m.modify_time)) + zeros(2) + bytes::be16_bytes(
        m.name@.len() as u16,
    )
}

/// The INFO fork of a file.
#[verifier::opaque]
pub open spec fn info_bytes(m: &Metadata<'_>) -> Seq<u8> {
    info_head(m) + m.name@ + bytes::be16_bytes(m.comment@.len() as u16) + m.comment@
}

/// Length of the INFO fork of a file.
pub open spec fn info_len(m: &Metadata<'_>) -> int {
    INFO_FIXED_LEN + m.name@.len() + m.comment@.len()
}

/// How many forks the header declares: an empty resource fork is not counted.
pub open spec fn fork_count(resource_remaining: u64) -> u16 {
    if resource_remaining == 0 {
        2
    } else {
        3
    }
}

/// Everything in front of the data fork's bytes.
pub open spec fn prefix_bytes(
    m: &Metadata<'_>,
    data_remaining: u64,
    resource_remaining: u64,
    large: bool,
) -> Seq<u8> {
    tag_filp() + bytes::be16_bytes(1) + zeros(16) + bytes::be16_bytes(
        fork_count(resource_remaining),
    ) + fork_header(tag_info(), info_len(m) as u64, large) + info_bytes(m) + fork_header(
        tag_data(),
        data_remaining,
        large,
    )
}

/// Bytes of the whole transfer: the prefix, what is left of the data fork, the resource header and
/// what is left of the resource fork.
pub open spec fn total_len(m: &Metadata<'_>, forks: Forks) -> int {
    FFO_HEADER_LEN + FORK_HEADER_LEN + info_len(m) + FORK_HEADER_LEN + (forks.data_len
        - forks.data_offset) + FORK_HEADER_LEN + (forks.resource_len - forks.resource_offset)
}

/// Why a file cannot be encoded, if it cannot.
pub open spec fn encode_error(m: &Metadata<'_>, forks: Forks, large: bool) -> Option<Error> {
    if m.name@.len() > MAX_NAME_LEN {
        Some(Error::NameTooLong)
    } else if m.comment@.len() > MAX_COMMENT_LEN {
        Some(Error::CommentTooLong)
    } else if forks.data_offset > forks.data_len {
        Some(Error::Range(RangeError { total: forks.data_len, offset: forks.data_offset }))
    } else if forks.resource_offset > forks.resource_len {
        Some(Error::Range(RangeError { total: forks.resource_len, offset: forks.resource_offset }))
    } else if total_len(m, forks) > (if large {
        u64::MAX as int
    } else {
        u32::MAX as int
    }) {
        Some(Error::SizeOverflow)
    } else {
        None
    }
}

/// The encoding of a file.
pub open spec fn is_encoding(e: Encoded, m: &Metadata<'_>, forks: Forks, large: bool) -> bool {
    &&& e.data_remaining == forks.data_len - forks.data_offset
    &&& e.resource_remaining == forks.resource_len - forks.resource_offset
    &&& e.transfer_len == total_len(m, forks)
    &&& e.prefix@ == prefix_bytes(m, e.data_remaining, e.resource_remaining, large)
    &&& e.resource_header@ == fork_header(tag_macr(), e.resource_remaining, large)
}

/// Builds the INFO fork.
fn encode_info(m: &Metadata<'_>) -> (out: Vec<u8>)
    requires
        m.name@.len() <= MAX_NAME_LEN,
        m.comment@.len() <= MAX_COMMENT_LEN,
    ensures
        out@ == info_bytes(m),
{
    proof {
        reveal(info_bytes);
    }
    let mut out: Vec<u8> = Vec::new();
    put_bytes(&mut out, &[0x41, 0x4d, 0x41, 0x43]);
    assert(out@ =~= platform_amac());
    put_bytes(&mut out, &m.type_code);
    put_bytes(&mut out, &m.creator);
    put_zeros(&mut out, 44);
    let create: [u8; 4] = array32(m.create_time);
    let modify: [u8; 4] = array32(m.modify_time);
    proof {
        bytes::be32_round_trip(m.create_time, Seq::empty());
        bytes::be32_round_trip(m.modify_time, Seq::empty());
    }
    put_bytes(&mut out, &hfs_h_to_mtime(create));
    put_zeros(&mut out, 4);
    put_bytes(&mut out, &hfs_h_to_mtime(modify));
    put_zeros(&mut out, 2);
    put16(&mut out, m.name.len() as u16);
    assert(out@ =~= info_head(m));
    put_bytes(&mut out, m.name);
    put16(&mut out, m.comment.len() as u16);
    put_bytes(&mut out, m.comment);
    out
}

/// Builds the file object of a file.
pub fn encode(metadata: &Metadata<'_>, forks: Forks, large: bool) -> (r: Result<Encoded, Error>)
    ensures
        match r {
            Ok(e) => encode_error(metadata, forks, large) is None && is_encoding(
                e,
                metadata,
                forks,
                large,
            ),
            Err(e) => encode_error(metadata, forks, large) == Some(e),
        },
{
    if metadata.name.len() > MAX_NAME_LEN {
        return Err(Error::NameTooLong);
    }
    if metadata.comment.len() > MAX_COMMENT_LEN {
        return Err(Error::CommentTooLong);
    }
    let data_remaining: u64 = match remaining(forks.data_len, forks.data_offset) {
        Ok(n) => n,
        Err(e) => return Err(Error::from(e)),
    };
    let resource_remaining: u64 = match remaining(forks.resource_len, forks.resource_offset) {
        Ok(n) => n,
        Err(e) => return Err(Error::from(e)),
    };
    if !large && (data_remaining > u32::MAX as u64 || resource_remaining > u32::MAX as u64) {
        return Err(Error::SizeOverflow);
    }
    let info_len: usize = INFO_FIXED_LEN + metadata.name.len() + metadata.comment.len();
    let prefix_len: usize = FFO_HEADER_LEN + FORK_HEADER_LEN + info_len + FORK_HEADER_LEN;
    let with_data: u64 = match (prefix_len as u64).checked_add(data_remaining) {
        Some(n) => n,
        None => return Err(Error::SizeOverflow),
    };
    let with_header: u64 = match with_data.checked_add(FORK_HEADER_LEN as u64) {
        Some(n) => n,
        None => return Err(Error::SizeOverflow),
    };
    let transfer_len: u64 = match with_header.checked_add(resource_remaining) {
        Some(n) => n,
        None => return Err(Error::SizeOverflow),
    };
    if !large && transfer_len > u32::MAX as u64 {
        return Err(Error::SizeOverflow);
    }
    let info_tag: [u8; 4] = [0x49, 0x4e, 0x46, 0x4f];
    let data_tag: [u8; 4] = [0x44, 0x41, 0x54, 0x41];
    let macr_tag: [u8; 4] = [0x4d, 0x41, 0x43, 0x52];
    assert(info_tag@ =~= tag_info());
    assert(data_tag@ =~= tag_data());
    assert(macr_tag@ =~= tag_macr());
    let info_header: [u8; 16] = match pack_fork_header(&info_tag, info_len as u64, large) {
        Ok(h) => h,
        Err(e) => return Err(e),
    };
    let data_header: [u8; 16] = match pack_fork_header(&data_tag, data_remaining, large) {
        Ok(h) => h,
        Err(e) => return Err(e),
    };
    let resource_header: [u8; 16] = match pack_fork_header(&macr_tag, resource_remaining, large) {
        Ok(h) => h,
        Err(e) => return Err(e),
    };
    let mut out: Vec<u8> = Vec::with_capacity(prefix_len);
    put_bytes(&mut out, &[0x46, 0x49, 0x4c, 0x50]);
    assert(out@ =~= tag_filp());
    put16(&mut out, 1);
    put_zeros(&mut out, 16);
    // Period clients expect a trailing MACR marker even where only INFO and DATA are declared.
    put16(
        &mut out,
        if resource_remaining == 0 {
            2
        } else {
            3
        },
    );
    put_bytes(&mut out, &info_header);
    let info = encode_info(metadata);
    put_bytes(&mut out, info.as_slice());
    put_bytes(&mut out, &data_header);
    Ok(Encoded { prefix: out, resource_header, data_remaining, resource_remaining, transfer_len })
}

// ---------------------------------------------------------------------------------------------
// Parsing.
// ---------------------------------------------------------------------------------------------
/// What an INFO fork says.
#[derive(Debug, Clone, PartialEq, Eq)]
pub struct ParsedInfo {
    /// The sender's platform tag, `AMAC` or `MWIN` from period peers. Reported, never checked.
    pub platform: [u8; 4],
    pub type_creator: [u8; 8],
    pub create_time: u32,
    pub modify_time: u32,
    pub name: Vec<u8>,
    pub comment: Vec<u8>,
}

/// The length of the name that an INFO fork states.
pub open spec fn info_name_len(info: Seq<u8>) -> int {
    bytes::be16_at(info, 70) as int
}

/// The length of the comment that an INFO fork states.
pub open spec fn info_comment_len(info: Seq<u8>) -> int {
    bytes::be16_at(info, 72 + info_name_len(info)) as int
}

/// Where the comment of an INFO fork starts.
pub open spec fn info_comment_at(info: Seq<u8>) -> int {
    74 + info_name_len(info)
}

/// Why an INFO fork cannot be read, if it cannot.
pub open spec fn info_error(info: Seq<u8>) -> Option<Error> {
    if info.len() < INFO_FIXED_LEN {
        Some(Error::Truncated)
    } else if info_name_len(info) > MAX_NAME_LEN {
        Some(Error::NameTooLong)
    } else if info.len() < info_comment_at(info) {
        Some(Error::Truncated)
    } else if info_comment_len(info) > MAX_COMMENT_LEN {
        Some(Error::CommentTooLong)
    } else if info.len() < info_comment_at(info) + info_comment_len(info) {
        Some(Error::Truncated)
    } else {
        None
    }
}

/// The fields of an INFO fork. Bytes behind the comment are ignored.
pub open spec fn is_info(p: ParsedInfo, info: Seq<u8>) -> bool {
    &&& p.platform@ == info.subrange(0, 4)
    &&& p.type_creator@ == info.subrange(4, 12)
    &&& p.create_time == m_to_h(bytes::be32_at(info, 56))
    &&& p.modify_time == m_to_h(bytes::be32_at(info, 64))
    &&& p.name@ == info.subrange(72, 72 + info_name_len(info))
    &&& p.comment@ == info.subrange(
        info_comment_at(info),
        info_comment_at(info) + info_comment_len(info),
    )
}

/// Parses an INFO fork. The platform tag is not checked: Windows peers send `MWIN`.
pub fn parse_info(info: &[u8]) -> (r: Result<ParsedInfo, Error>)
    ensures
        match r {
            Ok(p) => info_error(info@) is None && is_info(p, info@),
            Err(e) => info_error(info@) == Some(e),
        },
{
    if info.len() < INFO_FIXED_LEN {
        return Err(Error::Truncated);
    }
    let name_len: usize = get16(info, 70) as usize;
    if name_len > MAX_NAME_LEN {
        return Err(Error::NameTooLong);
    }
    let comment_at: usize = 72 + name_len;
    if info.len() < comment_at + 2 {
        return Err(Error::Truncated);
    }
    let comment_len: usize = get16(info, comment_at) as usize;
    if comment_len > MAX_COMMENT_LEN {
        return Err(Error::CommentTooLong);
    }
    let comment_start: usize = comment_at + 2;
    let comment_end: usize = comment_start + comment_len;
    if info.len() < comment_end {
        return Err(Error::Truncated);
    }
    let create: [u8; 4] = array_of::<4>(slice_subrange(info, 56, 60));
    let modify: [u8; 4] = array_of::<4>(slice_subrange(info, 64, 68));
    let create_h: [u8; 4] = hfs_m_to_htime(create);
    let modify_h: [u8; 4] = hfs_m_to_htime(modify);
    proof {
        bytes::be32_round_trip(m_to_h(bytes::be32_at(info@, 56)), Seq::empty());
        bytes::be32_round_trip(m_to_h(bytes::be32_at(info@, 64)), Seq::empty());
        assert(create_h@.subrange(0, 4) =~= create_h@);
        assert(modify_h@.subrange(0, 4) =~= modify_h@);
    }
    Ok(
        ParsedInfo {
            platform: array_of::<4>(slice_subrange(info, 0, 4)),
            type_creator: array_of::<8>(slice_subrange(info, 4, 12)),
            create_time: get32(&create_h, 0),
            modify_time: get32(&modify_h, 0),
            name: slice_to_vec(slice_subrange(info, 72, comment_at)),
            comment: slice_to_vec(slice_subrange(info, comment_start, comment_end)),
        },
    )
}

/// The fields that a receiver takes from an INFO block followed by its DATA fork header.
#[derive(Debug, Clone, PartialEq, Eq)]
pub struct FilpInfo {
    pub type_creator: [u8; 8],
    pub create_time: [u8; 4],
    pub modify_time: [u8; 4],
    pub comment: Vec<u8>,
    pub data_fork_len: u64,
}

/// Why an INFO block cannot be read, if it cannot.
pub open spec fn filp_info_error(b: Seq<u8>) -> Option<Error> {
    if b.len() < FORK_HEADER_LEN {
        Some(Error::Truncated)
    } else if info_error(b.subrange(0, b.len() - FORK_HEADER_LEN)) is Some {
        info_error(b.subrange(0, b.len() - FORK_HEADER_LEN))
    } else if b.subrange(b.len() - FORK_HEADER_LEN, b.len() - 12) != tag_data() {
        Some(Error::BadFork)
    } else {
        None
    }
}

/// The fields of an INFO block: those of the INFO fork, with the times in header seconds, and the
/// length that the DATA fork header states.
pub open spec fn is_filp_info(f: FilpInfo, b: Seq<u8>, large: bool) -> bool {
    let info = b.subrange(0, b.len() - FORK_HEADER_LEN);
    &&& f.type_creator@ == info.subrange(4, 12)
    &&& f.create_time@ == bytes::be32_bytes(m_to_h(bytes::be32_at(info, 56)))
    &&& f.modify_time@ == bytes::be32_bytes(m_to_h(bytes::be32_at(info, 64)))
    &&& f.comment@ == info.subrange(
        info_comment_at(info),
        info_comment_at(info) + info_comment_len(info),
    )
    &&& f.data_fork_len == stated_len(
        b.subrange(b.len() - FORK_HEADER_LEN, b.len() as int),
        large,
    )
}

/// Parses an INFO fork and the DATA fork header that follows it.
pub fn parse_filp_info(info_and_data_header: &[u8], large: bool) -> (r: Result<FilpInfo, Error>)
    ensures
        match r {
            Ok(f) => filp_info_error(info_and_data_header@) is None && is_filp_info(
                f,
                info_and_data_header@,
                large,
            ),
            Err(e) => filp_info_error(info_and_data_header@) == Some(e),
        },
{
    let total: usize = info_and_data_header.len();
    if total < FORK_HEADER_LEN {
        return Err(Error::Truncated);
    }
    let data_header_at: usize = total - FORK_HEADER_LEN;
    let info = match parse_info(slice_subrange(info_and_data_header, 0, data_header_at)) {
        Ok(p) => p,
        Err(e) => return Err(e),
    };
    let marker: [u8; 16] = array_of::<16>(
        slice_subrange(info_and_data_header, data_header_at, total),
    );
    proof {
        let tag = info_and_data_header@.subrange(data_header_at as int, total - 12);
        assert(tag[0] == marker[0] && tag[1] == marker[1] && tag[2] == marker[2] && tag[3]
            == marker[3]);
        if marker[0] == 0x44 && marker[1] == 0x41 && marker[2] == 0x54 && marker[3] == 0x41 {
            assert(tag =~= tag_data());
        } else {
            assert(tag_data()[0] == 0x44 && tag_data()[1] == 0x41 && tag_data()[2] == 0x54
                && tag_data()[3] == 0x41);
        }
    }
    if !(marker[0] == 0x44 && marker[1] == 0x41 && marker[2] == 0x54 && marker[3] == 0x41) {
        return Err(Error::BadFork);
    }
    Ok(
        FilpInfo {
            type_creator: info.type_creator,
            create_time: array32(info.create_time),
            modify_time: array32(info.modify_time),
            comment: info.comment,
            data_fork_len: fork_len(&marker, large),
        },
    )
}

// ---------------------------------------------------------------------------------------------
// Laws.
// ---------------------------------------------------------------------------------------------
/// Reading the INFO fork of a file gives back its metadata.
pub proof fn info_round_trip(m: &Metadata<'_>)
    requires
        m.name@.len() <= MAX_NAME_LEN,
        m.comment@.len() <= MAX_COMMENT_LEN,
    ensures
        info_bytes(m).len() == info_len(m),
        info_error(info_bytes(m)) is None,
        info_bytes(m).subrange(0, 4) == platform_amac(),
        info_bytes(m).subrange(4, 12) == m.type_code@ + m.creator@,
        m_to_h(bytes::be32_at(info_bytes(m), 56)) == m.create_time,
        m_to_h(bytes::be32_at(info_bytes(m), 64)) == m.modify_time,
        info_name_len(info_bytes(m)) == m.name@.len(),
        info_bytes(m).subrange(72, 72 + m.name@.len() as int) == m.name@,
        info_comment_len(info_bytes(m)) == m.comment@.len(),
        info_bytes(m).subrange(
            info_comment_at(info_bytes(m)),
            info_comment_at(info_bytes(m)) + info_comment_len(info_bytes(m)),
        ) == m.comment@,
{
    reveal(info_bytes);
    let b = info_bytes(m);
    let n = m.name@.len() as int;
    let c = m.comment@.len() as int;
    bytes::be32_round_trip(h_to_m(m.create_time), Seq::empty());
    bytes::be32_round_trip(h_to_m(m.modify_time), Seq::empty());
    bytes::be16_round_trip(n as u16, Seq::empty());
    bytes::be16_round_trip(c as u16, Seq::empty());
    assert(info_head(m).len() == 72);
    assert(b.subrange(0, 4) =~= platform_amac());
    assert(b.subrange(4, 12) =~= m.type_code@ + m.creator@);
    assert(b.subrange(56, 60) =~= bytes::be32_bytes(h_to_m(m.create_time)));
    assert(b.subrange(64, 68) =~= bytes::be32_bytes(h_to_m(m.modify_time)));
    assert(b.subrange(70, 72) =~= bytes::be16_bytes(n as u16));
    assert(b.subrange(72, 72 + n) =~= m.name@);
    assert(b.subrange(72 + n, 74 + n) =~= bytes::be16_bytes(c as u16));
    assert(b.subrange(74 + n, 74 + n + c) =~= m.comment@);
}

proof fn lemma_prefix_pieces(
    tag: Seq<u8>,
    version: Seq<u8>,
    reserved: Seq<u8>,
    count: Seq<u8>,
    info_header: Seq<u8>,
    info: Seq<u8>,
    data_header: Seq<u8>,
)
    requires
        tag.len() == 4,
        version.len() == 2,
        reserved.len() == 16,
        count.len() == 2,
        info_header.len() == 16,
        data_header.len() == 16,
    ensures
        ({
            let b = tag + version + reserved + count + info_header + info + data_header;
            let block = b.subrange(40, b.len() as int);
            &&& b.len() == 56 + info.len()
            &&& b.subrange(0, 4) == tag
            &&& b.subrange(22, 24) == count
            &&& b.subrange(24, 40) == info_header
            &&& b.subrange(40, 40 + info.len() as int) == info
            &&& b.subrange(40 + info.len() as int, b.len() as int) == data_header
            &&& block.len() == info.len() + 16
            &&& block.subrange(0, block.len() - 16) == info
            &&& block.subrange(block.len() - 16, block.len() - 12) == data_header.subrange(0, 4)
        }),
{
    let b = tag + version + reserved + count + info_header + info + data_header;
    let block = b.subrange(40, b.len() as int);
    assert(b.subrange(0, 4) =~= tag);
    assert(b.subrange(22, 24) =~= count);
    assert(b.subrange(24, 40) =~= info_header);
    assert(b.subrange(40, 40 + info.len() as int) =~= info);
    assert(b.subrange(40 + info.len() as int, b.len() as int) =~= data_header);
    assert(block.subrange(0, block.len() - 16) =~= info);
    assert(block.subrange(block.len() - 16, block.len() - 12) =~= data_header.subrange(0, 4));
}

/// The prefix of an encoded file is its header, the INFO fork header, the INFO fork and the DATA
/// fork header: what follows the first forty bytes is a block that [`parse_filp_info`] reads, and
/// the transfer length counts the prefix, both fork remainders and the resource header.
pub proof fn prefix_layout(m: &Metadata<'_>, forks: Forks, large: bool, e: Encoded)
    requires
        encode_error(m, forks, large) is None,
        is_encoding(e, m, forks, large),
    ensures
        e.prefix@.len() == FFO_HEADER_LEN + FORK_HEADER_LEN + info_len(m) + FORK_HEADER_LEN,
        e.prefix@.subrange(0, 4) == tag_filp(),
        bytes::be16_at(e.prefix@, 22) == fork_count(e.resource_remaining),
        e.prefix@.subrange(24, 40) == fork_header(tag_info(), info_len(m) as u64, large),
        e.prefix@.subrange(40, 40 + info_len(m)) == info_bytes(m),
        filp_info_error(e.prefix@.subrange(40, e.prefix@.len() as int)) is None,
        stated_len(
            e.prefix@.subrange(40 + info_len(m), e.prefix@.len() as int),
            large,
        ) == e.data_remaining,
        e.transfer_len == e.prefix@.len() + e.data_remaining + FORK_HEADER_LEN
            + e.resource_remaining,
{
    let b = e.prefix@;
    let n = info_len(m);
    let count = bytes::be16_bytes(fork_count(e.resource_remaining));
    let info_header = fork_header(tag_info(), n as u64, large);
    let data_header = fork_header(tag_data(), e.data_remaining, large);
    info_round_trip(m);
    fork_header_round_trip(tag_info(), n as u64, large);
    fork_header_round_trip(tag_data(), e.data_remaining, large);
    bytes::be16_round_trip(fork_count(e.resource_remaining), Seq::empty());
    lemma_prefix_pieces(
        tag_filp(),
        bytes::be16_bytes(1),
        zeros(16),
        count,
        info_header,
        info_bytes(m),
        data_header,
    );
}

// ---------------------------------------------------------------------------------------------
// What every call does, in numbers.
// ---------------------------------------------------------------------------------------------
/// The bytes in front of the INFO fork of every encoding: magic, version, reserved bytes, the
/// number of forks, and the INFO fork header. Three forks are declared exactly if some of the
/// resource fork is left to send, and two if none is.
#[verifier::spinoff_prover]
pub proof fn header_declares_what_follows(
    m: &Metadata<'_>,
    forks: Forks,
    large: bool,
    e: Encoded,
)
    requires
        call_ensures(encode, (m, forks, large), Ok(e)),
    ensures
        ({
            let b = e.prefix@;
            &&& b.subrange(0, 6) == seq![0x46u8, 0x49, 0x4c, 0x50, 0, 1]
            &&& forall|i: int| 6 <= i < 22 ==> #[trigger] b[i] == 0
            &&& forks.resource_len > forks.resource_offset ==> bytes::be16_at(b, 22) == 3
            &&& forks.resource_len == forks.resource_offset ==> bytes::be16_at(b, 22) == 2
            &&& b.subrange(24, 28) == seq![0x49u8, 0x4e, 0x46, 0x4f]
            &&& bytes::be32_at(b, 28) == 0
            &&& bytes::be32_at(b, 32) == 0
            &&& bytes::be32_at(b, 36) == 74 + m.name@.len() + m.comment@.len()
            &&& b.len() == 130 + m.name@.len() + m.comment@.len()
        }),
{
    let b = e.prefix@;
    let n = info_len(m);
    assert(b == prefix_bytes(m, e.data_remaining, e.resource_remaining, large));
    assert({
        &&& bytes::be16_at(b, 22) == fork_count(e.resource_remaining)
        &&& b.subrange(24, 40) == fork_header(tag_info(), n as u64, large)
    }) by {
        prefix_layout(m, forks, large, e);
    }
    lemma_fork_header_bytes(tag_info(), n as u64, large);
    lemma_prefix_parts(m, e.data_remaining, e.resource_remaining, large);
    lemma_front(b, fork_header(tag_info(), n as u64, large));
}

/// The parts of the bytes in front of the INFO fork.
proof fn lemma_front(b: Seq<u8>, h: Seq<u8>)
    requires
        b.len() >= 40,
        b.subrange(24, 40) == h,
        b.subrange(6, 22) == zeros(16),
        b[0] == 0x46 && b[1] == 0x49 && b[2] == 0x4c && b[3] == 0x50,
        b[4] == 0 && b[5] == 1,
    ensures
        b.subrange(0, 6) == seq![0x46u8, 0x49, 0x4c, 0x50, 0, 1],
        forall|i: int| 6 <= i < 22 ==> #[trigger] b[i] == 0,
        b.subrange(24, 28) == h.subrange(0, 4),
        bytes::be32_at(b, 28) == bytes::be32_at(h, 4),
        bytes::be32_at(b, 32) == bytes::be32_at(h, 8),
        bytes::be32_at(b, 36) == bytes::be32_at(h, 12),
{
    assert(b.subrange(24, 28) =~= h.subrange(0, 4));
    assert(b.subrange(28, 32) =~= h.subrange(4, 8));
    assert(b.subrange(32, 36) =~= h.subrange(8, 12));
    assert(b.subrange(36, 40) =~= h.subrange(12, 16));
    assert(b.subrange(0, 6) =~= seq![0x46u8, 0x49, 0x4c, 0x50, 0, 1]);
    assert forall|i: int| 6 <= i < 22 implies #[trigger] b[i] == 0 by {
        assert(b.subrange(6, 22)[i - 6] == 0);
    }
}

/// Where the pieces of a prefix stand.
proof fn lemma_prefix_parts(
    m: &Metadata<'_>,
    data_remaining: u64,
    resource_remaining: u64,
    large: bool,
)
    requires
        m.name@.len() <= 128,
        m.comment@.len() <= 255,
    ensures
        ({
            let b = prefix_bytes(m, data_remaining, resource_remaining, large);
            &&& b.subrange(0, 4) == tag_filp()
            &&& b.subrange(4, 6) == bytes::be16_bytes(1)
            &&& b.subrange(6, 22) == zeros(16)
            &&& b[0] == 0x46 && b[1] == 0x49 && b[2] == 0x4c && b[3] == 0x50
            &&& b[4] == 0 && b[5] == 1
            &&& b.len() == 56 + info_len(m)
            &&& b.subrange(40 + info_len(m), b.len() as int) == fork_header(
                tag_data(),
                data_remaining,
                large,
            )
            &&& b.subrange(40, 40 + info_len(m)) == info_bytes(m)
        }),
{
    info_round_trip(m);
    lemma_fork_header_bytes(tag_info(), info_len(m) as u64, large);
    lemma_fork_header_bytes(tag_data(), data_remaining, large);
    let count = bytes::be16_bytes(fork_count(resource_remaining));
    let info_header = fork_header(tag_info(), info_len(m) as u64, large);
    let data_header = fork_header(tag_data(), data_remaining, large);
    let b = prefix_bytes(m, data_remaining, resource_remaining, large);
    lemma_prefix_pieces(
        tag_filp(),
        bytes::be16_bytes(1),
        zeros(16),
        count,
        info_header,
        info_bytes(m),
        data_header,
    );
    assert(b.subrange(4, 6) =~= bytes::be16_bytes(1));
    assert(b.subrange(6, 22) =~= zeros(16));
    assert(b.subrange(0, 4)[0] == b[0] && b.subrange(0, 4)[1] == b[1]);
    assert(b.subrange(0, 4)[2] == b[2] && b.subrange(0, 4)[3] == b[3]);
    assert(bytes::be16_bytes(1)[0] == 0 && bytes::be16_bytes(1)[1] == 1);
    assert(b.subrange(4, 6)[0] == b[4] && b.subrange(4, 6)[1] == b[5]);
}

/// What a fork header holds, byte for byte.
proof fn lemma_fork_header_bytes(tag: Seq<u8>, length: u64, large: bool)
    requires
        tag.len() == 4,
    ensures
        ({
            let h = fork_header(tag, length, large);
            &&& h.len() == 16
            &&& h.subrange(0, 4) == tag
            &&& bytes::be32_at(h, 4) == (if large {
                length / 0x1_0000_0000
            } else {
                0
            })
            &&& h.subrange(8, 12) == seq![0u8, 0, 0, 0]
            &&& bytes::be32_at(h, 8) == 0
            &&& bytes::be32_at(h, 12) == length % 0x1_0000_0000
        }),
{
    reveal(fork_header);
    reveal(bytes::be32);
    let h = fork_header(tag, length, large);
    let high = (length / 0x1_0000_0000) as u32;
    let low = (length % 0x1_0000_0000) as u32;
    bytes::be32_round_trip(high, Seq::empty());
    bytes::be32_round_trip(low, Seq::empty());
    assert(h.subrange(0, 4) =~= tag);
    assert(h.subrange(8, 12) =~= seq![0u8, 0, 0, 0]);
    assert(h.subrange(12, 16) =~= bytes::be32_bytes(low));
    if large {
        assert(h.subrange(4, 8) =~= bytes::be32_bytes(high));
    } else {
        assert(h.subrange(4, 8) =~= zeros(4));
    }
}

/// A fork header holds its tag, the upper half of the length (in large-file mode, and zero
/// otherwise), zero, and the lower half. A length is refused exactly if it has an upper half that
/// the mode has no place for.
pub proof fn packed_fork_header(
    tag: &[u8; 4],
    length: u64,
    large: bool,
    r: Result<[u8; FORK_HEADER_LEN], Error>,
)
    requires
        call_ensures(pack_fork_header, (tag, length, large), r),
    ensures
        r is Err <==> !large && length > 0xffff_ffff,
        r matches Err(e) ==> e == Error::SizeOverflow,
        r matches Ok(h) ==> {
            &&& h@.len() == 16
            &&& h@.subrange(0, 4) == tag@
            &&& bytes::be32_at(h@, 4) == length / 0x1_0000_0000
            &&& bytes::be32_at(h@, 8) == 0
            &&& bytes::be32_at(h@, 12) == length % 0x1_0000_0000
        },
{
    lemma_fork_header_bytes(tag@, length, large);
}

/// A fork header that was packed is parsed as what it was packed from, and a file with more than
/// four gibibytes in large-file mode is no exception.
pub proof fn fork_header_comes_back(
    tag: &[u8; 4],
    length: u64,
    large: bool,
    h: [u8; FORK_HEADER_LEN],
    b: &[u8],
    r: Result<ForkHeader, Error>,
    n: u64,
)
    requires
        call_ensures(pack_fork_header, (tag, length, large), Ok(h)),
        b@.len() >= 16,
        b@.subrange(0, 16) == h@,
        call_ensures(parse_fork_header, (b, large), r),
        call_ensures(fork_len, (&h, large), n),
    ensures
        r matches Ok(f) && f.tag@ == tag@ && f.length == length,
        n == length,
{
    lemma_fork_header_bytes(tag@, length, large);
    assert(b@.subrange(8, 12) =~= h@.subrange(8, 12));
    assert(b@.subrange(0, 4) =~= h@.subrange(0, 4));
    assert(zeros(4) =~= seq![0u8, 0, 0, 0]);
}

/// Any sixteen bytes are a fork header in legacy mode: four of them are the tag and the last four
/// the length, and the others do not matter. In large-file mode bytes four to seven are the upper
/// half of the length, and bytes eight to eleven have to be zero.
pub proof fn parsed_fork_header(b: &[u8], large: bool, r: Result<ForkHeader, Error>)
    requires
        call_ensures(parse_fork_header, (b, large), r),
    ensures
        b@.len() < 16 <==> r == Err::<ForkHeader, Error>(Error::Truncated),
        r is Ok <==> b@.len() >= 16 && (!large || (b@[8] == 0 && b@[9] == 0 && b@[10] == 0
            && b@[11] == 0)),
        r matches Ok(f) ==> {
            &&& f.tag@ == b@.subrange(0, 4)
            &&& f.length == bytes::be32_at(b@, 12) + (if large {
                0x1_0000_0000 * bytes::be32_at(b@, 4)
            } else {
                0
            })
        },
        r matches Err(e) ==> e == Error::Truncated || e == Error::BadFork,
{
    if b@.len() >= 16 {
        let s = b@.subrange(8, 12);
        assert(s[0] == b@[8] && s[1] == b@[9] && s[2] == b@[10] && s[3] == b@[11]);
        if b@[8] == 0 && b@[9] == 0 && b@[10] == 0 && b@[11] == 0 {
            assert(s =~= zeros(4));
        } else {
            assert(zeros(4)[0] == 0 && zeros(4)[1] == 0 && zeros(4)[2] == 0 && zeros(4)[3] == 0);
        }
        let m = b@.subrange(0, 16);
        assert(m.subrange(12, 16) =~= b@.subrange(12, 16));
        assert(m.subrange(4, 8) =~= b@.subrange(4, 8));
    }
}

/// The two epochs lie 3 029 529 600 seconds apart, and times wrap round.
pub proof fn epochs_lie_apart(wire: [u8; 4], m: [u8; 4], h: [u8; 4])
    requires
        call_ensures(hfs_h_to_mtime, (wire,), m),
        call_ensures(hfs_m_to_htime, (wire,), h),
    ensures
        bytes::be32(m@) == (bytes::be32(wire@) + 3_029_529_600) % 0x1_0000_0000,
        (bytes::be32(h@) + 3_029_529_600) % 0x1_0000_0000 == bytes::be32(wire@),
{
    let v = bytes::be32(wire@);
    bytes::be32_round_trip(h_to_m(v), Seq::empty());
    bytes::be32_round_trip(m_to_h(v), Seq::empty());
}

/// What an INFO fork holds, byte for byte.
#[verifier::spinoff_prover]
proof fn lemma_info_parts(m: &Metadata<'_>)
    requires
        m.name@.len() <= 128,
        m.comment@.len() <= 255,
    ensures
        ({
            let b = info_bytes(m);
            let n = m.name@.len() as int;
            let c = m.comment@.len() as int;
            &&& b.len() == 74 + n + c
            &&& b.subrange(0, 4) == seq![0x41u8, 0x4d, 0x41, 0x43]
            &&& b.subrange(4, 8) == m.type_code@
            &&& b.subrange(8, 12) == m.creator@
            &&& b.subrange(12, 56) == zeros(44)
            &&& bytes::be32_at(b, 56) == h_to_m(m.create_time)
            &&& bytes::be32_at(b, 64) == h_to_m(m.modify_time)
            &&& bytes::be16_at(b, 70) == n
            &&& b.subrange(72, 72 + n) == m.name@
            &&& bytes::be16_at(b, 72 + n) == c
            &&& b.subrange(74 + n, 74 + n + c) == m.comment@
        }),
{
    info_round_trip(m);
    reveal(info_bytes);
    let b = info_bytes(m);
    bytes::be32_round_trip(h_to_m(m.create_time), Seq::empty());
    bytes::be32_round_trip(h_to_m(m.modify_time), Seq::empty());
    assert(info_head(m).len() == 72);
    assert(b.subrange(4, 8) =~= m.type_code@);
    assert(b.subrange(8, 12) =~= m.creator@);
    assert(b.subrange(12, 56) =~= zeros(44));
    assert(b.subrange(56, 60) =~= bytes::be32_bytes(h_to_m(m.create_time)));
    assert(b.subrange(64, 68) =~= bytes::be32_bytes(h_to_m(m.modify_time)));
}

/// A piece of a piece stands in the whole.
proof fn lemma_inner(b: Seq<u8>, from: int, to: int, p: Seq<u8>, i: int, j: int)
    requires
        0 <= from <= to <= b.len(),
        b.subrange(from, to) == p,
        0 <= i <= j <= p.len(),
    ensures
        b.subrange(from + i, from + j) == p.subrange(i, j),
{
    assert(b.subrange(from + i, from + j) =~= b.subrange(from, to).subrange(i, j));
}

/// What stands behind the INFO fork header of every encoding: the fields of the INFO fork, the name
/// and the comment with their lengths in front of them, and the DATA fork header.
#[verifier::spinoff_prover]
pub proof fn encoding_holds_metadata(m: &Metadata<'_>, forks: Forks, large: bool, e: Encoded)
    requires
        call_ensures(encode, (m, forks, large), Ok(e)),
    ensures
        ({
            let b = e.prefix@;
            let n = m.name@.len() as int;
            let c = m.comment@.len() as int;
            let left = forks.data_len - forks.data_offset;
            &&& b.subrange(40, 44) == seq![0x41u8, 0x4d, 0x41, 0x43]
            &&& b.subrange(44, 48) == m.type_code@
            &&& b.subrange(48, 52) == m.creator@
            &&& forall|i: int| 52 <= i < 96 ==> #[trigger] b[i] == 0
            &&& bytes::be32_at(b, 96) == (m.create_time + 3_029_529_600) % 0x1_0000_0000
            &&& bytes::be32_at(b, 104) == (m.modify_time + 3_029_529_600) % 0x1_0000_0000
            &&& bytes::be16_at(b, 110) == n
            &&& b.subrange(112, 112 + n) == m.name@
            &&& bytes::be16_at(b, 112 + n) == c
            &&& b.subrange(114 + n, 114 + n + c) == m.comment@
            &&& b.subrange(114 + n + c, 118 + n + c) == seq![0x44u8, 0x41, 0x54, 0x41]
            &&& bytes::be32_at(b, 118 + n + c) == left / 0x1_0000_0000
            &&& bytes::be32_at(b, 122 + n + c) == 0
            &&& bytes::be32_at(b, 126 + n + c) == left % 0x1_0000_0000
        }),
{
    let b = e.prefix@;
    let n = m.name@.len() as int;
    let c = m.comment@.len() as int;
    let info = info_bytes(m);
    let h = fork_header(tag_data(), e.data_remaining, large);
    let at = 114 + n + c;
    assert(b.len() == 130 + n + c && b.subrange(40, at) == info && b.subrange(at, at + 16) == h)
        by {
        assert(b == prefix_bytes(m, e.data_remaining, e.resource_remaining, large));
        lemma_prefix_parts(m, e.data_remaining, e.resource_remaining, large);
    }
    lemma_fork_header_bytes(tag_data(), e.data_remaining, large);
    lemma_info_parts(m);
    lemma_inner(b, 40, at, info, 0, 4);
    lemma_inner(b, 40, at, info, 4, 8);
    lemma_inner(b, 40, at, info, 8, 12);
    lemma_inner(b, 40, at, info, 12, 56);
    assert forall|i: int| 52 <= i < 96 implies #[trigger] b[i] == 0 by {
        assert(b.subrange(52, 96)[i - 52] == zeros(44)[i - 52]);
    }
    lemma_inner(b, 40, at, info, 56, 60);
    lemma_inner(b, 40, at, info, 64, 68);
    lemma_inner(b, 40, at, info, 70, 72);
    lemma_inner(b, 40, at, info, 72, 72 + n);
    lemma_inner(b, 40, at, info, 72 + n, 74 + n);
    lemma_inner(b, 40, at, info, 74 + n, 74 + n + c);
    lemma_inner(b, at, at + 16, h, 0, 4);
    lemma_inner(b, at, at + 16, h, 4, 8);
    lemma_inner(b, at, at + 16, h, 8, 12);
    lemma_inner(b, at, at + 16, h, 12, 16);
}

/// What is left of the forks is what lies behind the offsets; the MACR header states what is left
/// of the resource fork; and the transfer is as long as everything that is sent.
#[verifier::spinoff_prover]
pub proof fn encoding_counts_what_is_left(m: &Metadata<'_>, forks: Forks, large: bool, e: Encoded)
    requires
        call_ensures(encode, (m, forks, large), Ok(e)),
    ensures
        e.data_remaining + forks.data_offset == forks.data_len,
        e.resource_remaining + forks.resource_offset == forks.resource_len,
        e.transfer_len == e.prefix@.len() + e.data_remaining + 16 + e.resource_remaining,
        !large ==> e.transfer_len <= 0xffff_ffff,
        e.resource_header@.subrange(0, 4) == seq![0x4du8, 0x41, 0x43, 0x52],
        bytes::be32_at(e.resource_header@, 4) == e.resource_remaining / 0x1_0000_0000,
        bytes::be32_at(e.resource_header@, 8) == 0,
        bytes::be32_at(e.resource_header@, 12) == e.resource_remaining % 0x1_0000_0000,
{
    assert(e.prefix@.len() == 130 + m.name@.len() + m.comment@.len()) by {
        prefix_layout(m, forks, large, e);
    }
    assert(e.resource_header@ == fork_header(tag_macr(), e.resource_remaining, large));
    lemma_fork_header_bytes(tag_macr(), e.resource_remaining, large);
}

/// Which files are refused, and why: the first of these that holds.
pub proof fn encode_refuses(
    m: &Metadata<'_>,
    forks: Forks,
    large: bool,
    r: Result<Encoded, Error>,
)
    requires
        call_ensures(encode, (m, forks, large), r),
    ensures
        ({
            let total = 146 + m.name@.len() + m.comment@.len() + (forks.data_len
                - forks.data_offset) + (forks.resource_len - forks.resource_offset);
            let named = m.name@.len() <= 128;
            let texts = named && m.comment@.len() <= 255;
            let data = texts && forks.data_offset <= forks.data_len;
            let ranges = data && forks.resource_offset <= forks.resource_len;
            let most: int = if large {
                0xffff_ffff_ffff_ffff
            } else {
                0xffff_ffff
            };
            &&& r is Ok <==> ranges && total <= most
            &&& r == Err::<Encoded, Error>(Error::NameTooLong) <==> !named
            &&& r == Err::<Encoded, Error>(Error::CommentTooLong) <==> named && !texts
            &&& texts && !data ==> r == Err::<Encoded, Error>(
                Error::Range(
                    RangeError { total: forks.data_len, offset: forks.data_offset },
                ),
            )
            &&& data && !ranges ==> r == Err::<Encoded, Error>(
                Error::Range(
                    RangeError { total: forks.resource_len, offset: forks.resource_offset },
                ),
            )
            &&& r == Err::<Encoded, Error>(Error::SizeOverflow) <==> ranges && total > most
        }),
{
}

/// What an INFO fork has to be to be accepted, and what is read from it: the name and the comment
/// stand behind their lengths, and bytes behind the comment do not matter.
pub proof fn parsed_info_fork(info: &[u8], r: Result<ParsedInfo, Error>)
    requires
        call_ensures(parse_info, (info,), r),
    ensures
        ({
            let b = info@;
            let n = bytes::be16_at(b, 70) as int;
            let c = bytes::be16_at(b, 72 + n) as int;
            &&& r is Ok <==> b.len() >= 74 && n <= 128 && b.len() >= 74 + n && c <= 255 && b.len()
                >= 74 + n + c
            &&& r == Err::<ParsedInfo, Error>(Error::NameTooLong) <==> b.len() >= 74 && n > 128
            &&& r == Err::<ParsedInfo, Error>(Error::CommentTooLong) <==> b.len() >= 74 + n && n
                <= 128 && c > 255
            &&& r matches Err(e) ==> e == Error::NameTooLong || e == Error::CommentTooLong || e
                == Error::Truncated
            &&& r matches Ok(p) ==> {
                &&& p.platform@ == b.subrange(0, 4)
                &&& p.type_creator@ == b.subrange(4, 12)
                &&& (p.create_time + 3_029_529_600) % 0x1_0000_0000 == bytes::be32_at(b, 56)
                &&& (p.modify_time + 3_029_529_600) % 0x1_0000_0000 == bytes::be32_at(b, 64)
                &&& p.name@ == b.subrange(72, 72 + n)
                &&& p.comment@ == b.subrange(74 + n, 74 + n + c)
            }
        }),
{
}

/// A block that was encoded is read back: the receiver gets type, creator, dates and comment as the
/// sender had them, and as the length of the DATA fork what is left of it to send.
pub proof fn encoding_is_read_back(
    m: &Metadata<'_>,
    forks: Forks,
    large: bool,
    e: Encoded,
    block: &[u8],
    r: Result<FilpInfo, Error>,
)
    requires
        call_ensures(encode, (m, forks, large), Ok(e)),
        block@ == e.prefix@.subrange(40, e.prefix@.len() as int),
        call_ensures(parse_filp_info, (block, large), r),
    ensures
        r matches Ok(f) && {
            &&& f.type_creator@ == m.type_code@ + m.creator@
            &&& bytes::be32(f.create_time@) == m.create_time
            &&& bytes::be32(f.modify_time@) == m.modify_time
            &&& f.comment@ == m.comment@
            &&& f.data_fork_len + forks.data_offset == forks.data_len
        },
{
    prefix_layout(m, forks, large, e);
    info_round_trip(m);
    let info = block@.subrange(0, block@.len() - 16);
    assert(info =~= info_bytes(m));
    bytes::be32_round_trip(m_to_h(bytes::be32_at(info, 56)), Seq::empty());
    bytes::be32_round_trip(m_to_h(bytes::be32_at(info, 64)), Seq::empty());
    assert(block@.subrange(block@.len() - 16, block@.len() as int) =~= e.prefix@.subrange(
        40 + info_len(m),
        e.prefix@.len() as int,
    ));
}

/// An INFO block is accepted exactly if its INFO fork is and the header behind it, in the last
/// sixteen bytes, has the tag `DATA`.
pub proof fn parsed_info_block(
    b: &[u8],
    large: bool,
    r: Result<FilpInfo, Error>,
    info: &[u8],
    p: Result<ParsedInfo, Error>,
)
    requires
        call_ensures(parse_filp_info, (b, large), r),
        b@.len() >= 16,
        info@ == b@.subrange(0, b@.len() - 16),
        call_ensures(parse_info, (info,), p),
    ensures
        ({
            let n = b@.len() as int;
            &&& p matches Err(e) ==> r == Err::<FilpInfo, Error>(e)
            &&& r is Ok <==> p is Ok && b@.subrange(n - 16, n - 12) == seq![
                0x44u8,
                0x41,
                0x54,
                0x41,
            ]
            &&& p is Ok && r is Err ==> r == Err::<FilpInfo, Error>(Error::BadFork)
            &&& r matches Ok(f) ==> {
                &&& f.type_creator@ == p->Ok_0.type_creator@
                &&& bytes::be32(f.create_time@) == p->Ok_0.create_time
                &&& bytes::be32(f.modify_time@) == p->Ok_0.modify_time
                &&& f.comment@ == p->Ok_0.comment@
                &&& f.data_fork_len == bytes::be32_at(b@, n - 4) + (if large {
                    0x1_0000_0000 * bytes::be32_at(b@, n - 12)
                } else {
                    0
                })
            }
        }),
{
    let n = b@.len() as int;
    bytes::be32_round_trip(m_to_h(bytes::be32_at(info@, 56)), Seq::empty());
    bytes::be32_round_trip(m_to_h(bytes::be32_at(info@, 64)), Seq::empty());
    let h = b@.subrange(n - 16, n);
    assert(h.subrange(12, 16) =~= b@.subrange(n - 4, n));
    assert(h.subrange(4, 8) =~= b@.subrange(n - 12, n - 8));
}

/// How much is to be read behind the first forty bytes: what the INFO fork header says and the
/// sixteen bytes of the DATA fork header. More than 457 bytes of INFO are refused.
pub proof fn info_block_is_bounded(b38: u8, b39: u8, r: Result<usize, Error>)
    requires
        call_ensures(info_block_len, (b38, b39), r),
    ensures
        r is Ok <==> 256 * b38 + b39 <= 457,
        r matches Ok(n) ==> n == 256 * b38 + b39 + 16,
        r matches Err(e) ==> e == Error::InfoTooLong,
{
}

/// The errors in words. One about a range names the offset and the length.
pub proof fn errors_in_words(e: Error, r: String)
    requires
        call_ensures(Error::message, (&e,), r),
    ensures
        e is Truncated ==> r@ == "truncated FILP data"@,
        e is BadVersion ==> r@ == "unsupported FILP version"@,
        e is BadFork ==> r@ == "invalid FILP fork header"@,
        e is NameTooLong ==> r@ == "FILP filename exceeds 128 bytes"@,
        e is CommentTooLong ==> r@ == "FILP comment exceeds 255 bytes"@,
        e is InfoTooLong ==> r@ == "FILP INFO fork exceeds 457 bytes"@,
        e is SizeOverflow ==> r@ == "FILP size exceeds the selected wire encoding"@,
        e matches Error::Range(x) ==> r@ == x.message_text(),
{
}

} // verus!
