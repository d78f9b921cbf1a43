//! HTXF transfer-subchannel handshake framing.
use crate::bytes;
use crate::bytes::{array_of, get16, get32, get64, put16, put32, put64, put_bytes};
use crate::text;
use crate::text::push_hex4;
use vstd::prelude::*;
use vstd::slice::slice_subrange;
use vstd::string::*;

verus! {

/// `HTXF`.
pub const MAGIC: [u8; 4] = [0x48, 0x54, 0x58, 0x46];

pub const BASE_LEN: usize = 16;

pub const SIZE64_LEN: usize = 8;

pub const RESUME_DIGEST_LEN: usize = 40;

pub const FLAG_LARGE_FILE: u16 = 0x0001;

pub const FLAG_SIZE64: u16 = 0x0002;

pub const FLAG_RESUME: u16 = 0x0004;

pub const KNOWN_FLAGS: u16 = FLAG_LARGE_FILE | FLAG_SIZE64 | FLAG_RESUME;

/// Why a preamble is refused.
#[derive(Debug, Clone, Copy, PartialEq, Eq, Structural)]
pub enum Error {
    Truncated,
    BadMagic,
    UnsupportedFlags(u16),
    FlagRelationship,
    LengthOverflow,
    LengthMismatch,
}

impl Error {
    /// What [`Error::message`] says.
    pub open spec fn message_text(&self) -> Seq<char> {
        match self {
            Error::Truncated => "truncated HTXF preamble"@,
            Error::BadMagic => "invalid HTXF magic"@,
            Error::UnsupportedFlags(flags) => "unsupported HTXF flags: 0x"@ + text::hex4_text(
                *flags as nat,
            ),
            Error::FlagRelationship => "invalid HTXF flag relationship"@,
            Error::LengthOverflow => "HTXF length exceeds the selected encoding"@,
            Error::LengthMismatch => "HTXF legacy and extended lengths disagree"@,
        }
    }

    /// The error in words.
    pub fn message(&self) -> (r: String)
        ensures
            r@ == self.message_text(),
    {
        match self {
            Error::Truncated => "truncated HTXF preamble".to_owned(),
            Error::BadMagic => "invalid HTXF magic".to_owned(),
            Error::UnsupportedFlags(flags) => {
                let mut s = "unsupported HTXF flags: 0x".to_owned();
                push_hex4(&mut s, *flags);
                s
            },
            Error::FlagRelationship => "invalid HTXF flag relationship".to_owned(),
            Error::LengthOverflow => "HTXF length exceeds the selected encoding".to_owned(),
            Error::LengthMismatch => "HTXF legacy and extended lengths disagree".to_owned(),
        }
    }
}

/// What is sent first on a transfer connection.
#[derive(Debug, Clone, PartialEq, Eq)]
pub struct Preamble {
    pub reference: u32,
    pub transfer_len: u64,
    pub type_code: u16,
    pub flags: u16,
    pub resume_digest: Option<[u8; RESUME_DIGEST_LEN]>,
}

/// The flags that this side does not know.
pub open spec fn unknown_flags(flags: u16) -> u16 {
    flags & !KNOWN_FLAGS
}

/// The preamble carries a 64-bit length.
pub open spec fn has_size64(flags: u16) -> bool {
    flags & FLAG_SIZE64 != 0
}

/// The preamble carries a resume digest.
pub open spec fn has_resume(flags: u16) -> bool {
    flags & FLAG_RESUME != 0
}

/// What is wrong with a set of flags, if anything: unknown ones, an extension without the
/// large-file flag, or a digest that the flags do not announce.
pub open spec fn flags_error(flags: u16, has_digest: bool) -> Option<Error> {
    if unknown_flags(flags) != 0 {
        Some(Error::UnsupportedFlags(unknown_flags(flags)))
    } else if (has_size64(flags) || has_resume(flags)) && flags & FLAG_LARGE_FILE == 0 {
        Some(Error::FlagRelationship)
    } else if has_digest != has_resume(flags) {
        Some(Error::FlagRelationship)
    } else {
        None
    }
}

/// Length of a preamble with the given flags.
pub open spec fn preamble_len(flags: u16) -> int {
    BASE_LEN + (if has_size64(flags) {
        SIZE64_LEN as int
    } else {
        0
    }) + (if has_resume(flags) {
        RESUME_DIGEST_LEN as int
    } else {
        0
    })
}

impl Preamble {
    /// Why this preamble cannot be sent, if it cannot.
    pub open spec fn encode_error(&self) -> Option<Error> {
        if flags_error(self.flags, self.resume_digest is Some) is Some {
            flags_error(self.flags, self.resume_digest is Some)
        } else if !has_size64(self.flags) && self.transfer_len > u32::MAX {
            Some(Error::LengthOverflow)
        } else {
            None
        }
    }

    /// The 32-bit length field: zero where the 64-bit one takes over.
    pub open spec fn legacy_len(&self) -> u32 {
        if has_size64(self.flags) {
            0
        } else {
            self.transfer_len as u32
        }
    }

    /// The preamble on the wire.
    pub open spec fn wire(&self) -> Seq<u8> {
        MAGIC@ + bytes::be32_bytes(self.reference) + bytes::be32_bytes(self.legacy_len())
            + bytes::be16_bytes(self.type_code) + bytes::be16_bytes(self.flags) + (if has_size64(
            self.flags,
        ) {
            bytes::be64_bytes(self.transfer_len)
        } else {
            seq![]
        }) + (match self.resume_digest {
            Some(digest) => digest@,
            None => seq![],
        })
    }

    /// The transfer uses the large-file extension.
    pub fn large(&self) -> (r: bool)
        ensures
            r == (self.flags & FLAG_LARGE_FILE != 0),
    {
        self.flags & FLAG_LARGE_FILE != 0
    }

    /// The bytes of the preamble.
    pub fn encode(&self) -> (r: Result<Vec<u8>, Error>)
        ensures
            match r {
                Ok(out) => self.encode_error() is None && out@ == self.wire(),
                Err(e) => self.encode_error() == Some(e),
            },
    {
        validate_flags(self.flags, self.resume_digest.is_some())?;
        let size64 = self.flags & FLAG_SIZE64 != 0;
        if !size64 && self.transfer_len > u32::MAX as u64 {
            return Err(Error::LengthOverflow);
        }
        let capacity: usize = encoded_len(self.flags)?;
        let mut out: Vec<u8> = Vec::with_capacity(capacity);
        put_bytes(&mut out, &MAGIC);
        assert(out@ =~= MAGIC@);
        put32(&mut out, self.reference);
        let legacy_len: u32 = if size64 {
            0
        } else {
            self.transfer_len as u32
        };
        put32(&mut out, legacy_len);
        put16(&mut out, self.type_code);
        put16(&mut out, self.flags);
        let ghost base = out@;
        if size64 {
            put64(&mut out, self.transfer_len);
        } else {
            assert(base + Seq::<u8>::empty() =~= base);
        }
        let ghost middle = out@;
        match &self.resume_digest {
            Some(digest) => {
                put_bytes(&mut out, digest);
            },
            None => {
                assert(middle + Seq::<u8>::empty() =~= middle);
            },
        }
        Ok(out)
    }
}

/// Length of a preamble with the given flags. Each flag announces a block of fixed size, so one
/// that is not known cannot be skipped.
pub fn encoded_len(flags: u16) -> (r: Result<usize, Error>)
    ensures
        r == (if unknown_flags(flags) != 0 {
            Err::<usize, Error>(Error::UnsupportedFlags(unknown_flags(flags)))
        } else {
            Ok::<usize, Error>(preamble_len(flags) as usize)
        }),
        r is Ok ==> r->Ok_0 == preamble_len(flags),
{
    if flags & !KNOWN_FLAGS != 0 {
        return Err(Error::UnsupportedFlags(flags & !KNOWN_FLAGS));
    }
    let size: usize = if flags & FLAG_SIZE64 != 0 {
        SIZE64_LEN
    } else {
        0
    };
    let digest: usize = if flags & FLAG_RESUME != 0 {
        RESUME_DIGEST_LEN
    } else {
        0
    };
    Ok(BASE_LEN + size + digest)
}

fn validate_flags(flags: u16, has_digest: bool) -> (r: Result<(), Error>)
    ensures
        match r {
            Ok(_) => flags_error(flags, has_digest) is None,
            Err(e) => flags_error(flags, has_digest) == Some(e),
        },
{
    if flags & !KNOWN_FLAGS != 0 {
        return Err(Error::UnsupportedFlags(flags & !KNOWN_FLAGS));
    }
    let extended = flags & FLAG_SIZE64 != 0 || flags & FLAG_RESUME != 0;
    if extended && flags & FLAG_LARGE_FILE == 0 {
        return Err(Error::FlagRelationship);
    }
    if has_digest != (flags & FLAG_RESUME != 0) {
        return Err(Error::FlagRelationship);
    }
    Ok(())
}

/// The flags that a preamble carries.
pub open spec fn wire_flags(b: Seq<u8>) -> u16 {
    bytes::be16_at(b, 14)
}

/// The 32-bit length and the 64-bit one differ, and the former is not the zero that leaves the
/// word to the latter.
pub open spec fn lengths_disagree(b: Seq<u8>) -> bool {
    has_size64(wire_flags(b)) && bytes::be32_at(b, 8) != 0 && bytes::be32_at(b, 8)
        != bytes::be64_at(b, 16)
}

/// Why the bytes are no preamble, if they are none.
pub open spec fn parse_error(b: Seq<u8>) -> Option<Error> {
    if b.len() < BASE_LEN {
        Some(Error::Truncated)
    } else if b.subrange(0, 4) != MAGIC@ {
        Some(Error::BadMagic)
    } else if unknown_flags(wire_flags(b)) != 0 {
        Some(Error::UnsupportedFlags(unknown_flags(wire_flags(b))))
    } else if b.len() < preamble_len(wire_flags(b)) {
        Some(Error::Truncated)
    } else if flags_error(wire_flags(b), has_resume(wire_flags(b))) is Some {
        Some(Error::FlagRelationship)
    } else if lengths_disagree(b) {
        Some(Error::LengthMismatch)
    } else {
        None
    }
}

/// Where the resume digest of a preamble starts.
pub open spec fn digest_at(flags: u16) -> int {
    if has_size64(flags) {
        24
    } else {
        16
    }
}

/// The preamble at the start of `b`.
pub open spec fn is_preamble(p: Preamble, b: Seq<u8>) -> bool {
    &&& p.reference == bytes::be32_at(b, 4)
    &&& p.transfer_len == (if has_size64(wire_flags(b)) {
        bytes::be64_at(b, 16)
    } else {
        bytes::be32_at(b, 8) as u64
    })
    &&& p.type_code == bytes::be16_at(b, 12)
    &&& p.flags == wire_flags(b)
    &&& match p.resume_digest {
        Some(digest) => has_resume(p.flags) && digest@ == b.subrange(
            digest_at(p.flags),
            digest_at(p.flags) + RESUME_DIGEST_LEN,
        ),
        None => !has_resume(p.flags),
    }
}

/// Parses the preamble at the start of `bytes` and says how long it is.
pub fn parse(bytes: &[u8]) -> (r: Result<(Preamble, usize), Error>)
    ensures
        match r {
            Ok((p, n)) => {
                &&& parse_error(bytes@) is None
                &&& is_preamble(p, bytes@)
                &&& n == preamble_len(p.flags)
            },
            Err(e) => parse_error(bytes@) == Some(e),
        },
{
    if bytes.len() < BASE_LEN {
        return Err(Error::Truncated);
    }
    proof {
        let m = bytes@.subrange(0, 4);
        assert(m[0] == bytes[0] && m[1] == bytes[1] && m[2] == bytes[2] && m[3] == bytes[3]);
        if bytes[0] == MAGIC@[0] && bytes[1] == MAGIC@[1] && bytes[2] == MAGIC@[2] && bytes[3]
            == MAGIC@[3] {
            assert(m =~= MAGIC@);
        }
    }
    if bytes[0] != 0x48 || bytes[1] != 0x54 || bytes[2] != 0x58 || bytes[3] != 0x46 {
        return Err(Error::BadMagic);
    }
    let flags: u16 = get16(bytes, 14);
    let need: usize = encoded_len(flags)?;
    if bytes.len() < need {
        return Err(Error::Truncated);
    }
    validate_flags(flags, flags & FLAG_RESUME != 0)?;
    let legacy_len: u32 = get32(bytes, 8);
    let mut at: usize = BASE_LEN;
    let transfer_len: u64 = if flags & FLAG_SIZE64 != 0 {
        let n: u64 = get64(bytes, at);
        at = at + 8;
        if legacy_len != 0 && legacy_len as u64 != n {
            return Err(Error::LengthMismatch);
        }
        n
    } else {
        legacy_len as u64
    };
    let resume_digest: Option<[u8; 40]> = if flags & FLAG_RESUME != 0 {
        Some(array_of::<40>(slice_subrange(bytes, at, at + RESUME_DIGEST_LEN)))
    } else {
        None
    };
    Ok(
        (
            Preamble {
                reference: get32(bytes, 4),
                transfer_len,
                type_code: get16(bytes, 12),
                flags,
                resume_digest,
            },
            need,
        ),
    )
}

proof fn lemma_wire_pieces(
    magic: Seq<u8>,
    reference: Seq<u8>,
    legacy: Seq<u8>,
    code: Seq<u8>,
    flags: Seq<u8>,
    size: Seq<u8>,
    digest: Seq<u8>,
    rest: Seq<u8>,
)
    requires
        magic.len() == 4,
        reference.len() == 4,
        legacy.len() == 4,
        code.len() == 2,
        flags.len() == 2,
    ensures
        ({
            let b = magic + reference + legacy + code + flags + size + digest + rest;
            let n = 16 + size.len() as int;
            &&& b.len() == n + digest.len() + rest.len()
            &&& b.subrange(0, 4) == magic
            &&& b.subrange(4, 8) == reference
            &&& b.subrange(8, 12) == legacy
            &&& b.subrange(12, 14) == code
            &&& b.subrange(14, 16) == flags
            &&& b.subrange(16, n) == size
            &&& b.subrange(n, n + digest.len()) == digest
        }),
{
    let b = magic + reference + legacy + code + flags + size + digest + rest;
    let n = 16 + size.len() as int;
    assert(b.subrange(0, 4) =~= magic);
    assert(b.subrange(4, 8) =~= reference);
    assert(b.subrange(8, 12) =~= legacy);
    assert(b.subrange(12, 14) =~= code);
    assert(b.subrange(14, 16) =~= flags);
    assert(b.subrange(16, n) =~= size);
    assert(b.subrange(n, n + digest.len()) =~= digest);
}

/// Parsing an encoded preamble gives it back, whatever bytes follow it, and finds its length.
pub proof fn preamble_round_trip(p: Preamble, q: Preamble, rest: Seq<u8>)
    requires
        p.encode_error() is None,
    ensures
        p.wire().len() == preamble_len(p.flags),
        parse_error(p.wire() + rest) is None,
        is_preamble(q, p.wire() + rest) ==> {
            &&& q.reference == p.reference
            &&& q.transfer_len == p.transfer_len
            &&& q.type_code == p.type_code
            &&& q.flags == p.flags
            &&& q.resume_digest is Some == p.resume_digest is Some
            &&& q.resume_digest is Some ==> q.resume_digest->0@ == p.resume_digest->0@
        },
{
    let size: Seq<u8> = if has_size64(p.flags) {
        bytes::be64_bytes(p.transfer_len)
    } else {
        seq![]
    };
    let digest: Seq<u8> = match p.resume_digest {
        Some(d) => d@,
        None => seq![],
    };
    bytes::be32_round_trip(p.reference, Seq::empty());
    bytes::be32_round_trip(p.legacy_len(), Seq::empty());
    bytes::be16_round_trip(p.type_code, Seq::empty());
    bytes::be16_round_trip(p.flags, Seq::empty());
    bytes::be64_round_trip(p.transfer_len, Seq::empty());
    lemma_wire_pieces(
        MAGIC@,
        bytes::be32_bytes(p.reference),
        bytes::be32_bytes(p.legacy_len()),
        bytes::be16_bytes(p.type_code),
        bytes::be16_bytes(p.flags),
        size,
        digest,
        rest,
    );
}

/// Of a preamble that is cut short it is said that it is cut short, wherever that is.
pub proof fn cut_preamble_is_truncated(b: Seq<u8>, n: int)
    requires
        parse_error(b) is None,
        0 <= n < preamble_len(wire_flags(b)),
    ensures
        parse_error(b.take(n)) == Some(Error::Truncated),
{
    if n >= BASE_LEN {
        assert(b.take(n).subrange(0, 4) =~= b.subrange(0, 4));
        assert(b.take(n).subrange(14, 16) =~= b.subrange(14, 16));
    }
}

// ---------------------------------------------------------------------------------------------
// What every call does, in numbers.
// ---------------------------------------------------------------------------------------------
proof fn lemma_flags(flags: u16)
    ensures
        unknown_flags(flags) == flags - flags % 8,
        unknown_flags(flags) == 0 <==> flags <= 7,
        flags & FLAG_LARGE_FILE != 0 <==> flags % 2 == 1,
        flags <= 7 ==> (has_size64(flags) <==> flags == 2 || flags == 3 || flags == 6 || flags
            == 7),
        flags <= 7 ==> (has_resume(flags) <==> flags >= 4),
{
    assert(flags & !(1u16 | 2u16 | 4u16) == flags - flags % 8) by (bit_vector);
    assert(flags & 1u16 != 0 <==> flags % 2 == 1) by (bit_vector);
    assert(flags <= 7 ==> (flags & 2u16 != 0 <==> flags == 2 || flags == 3 || flags == 6 || flags
        == 7)) by (bit_vector);
    assert(flags <= 7 ==> (flags & 4u16 != 0 <==> flags >= 4)) by (bit_vector);
}

/// The lowest flag is that of large files; with the next one eight bytes follow the sixteen of every
/// preamble, with the third forty. Higher flags are not known, and are reported.
pub proof fn flags_announce_lengths(p: Preamble, flags: u16, large: bool, r: Result<usize, Error>)
    requires
        call_ensures(Preamble::large, (&p,), large),
        call_ensures(encoded_len, (flags,), r),
    ensures
        large == (p.flags % 2 == 1),
        flags == 0 || flags == 1 ==> r == Ok::<usize, Error>(16),
        flags == 2 || flags == 3 ==> r == Ok::<usize, Error>(24),
        flags == 4 || flags == 5 ==> r == Ok::<usize, Error>(56),
        flags == 6 || flags == 7 ==> r == Ok::<usize, Error>(64),
        flags > 7 ==> r == Err::<usize, Error>(
            Error::UnsupportedFlags((flags - flags % 8) as u16),
        ),
{
    lemma_flags(p.flags);
    lemma_flags(flags);
}

/// A preamble can be sent if its flags are known, those of the two extensions come with that of
/// large files, the digest is there exactly if its flag is, and the length fits the field that the
/// flags choose for it.
pub proof fn sendable_preambles(p: Preamble, r: Result<Vec<u8>, Error>)
    requires
        call_ensures(Preamble::encode, (&p,), r),
    ensures
        ({
            let plain = p.flags == 0 || p.flags == 1 || p.flags == 3;
            let resumed = p.flags == 5 || p.flags == 7;
            let related = (plain && p.resume_digest is None) || (resumed && p.resume_digest is Some);
            let fits = p.flags == 3 || p.flags == 7 || p.transfer_len <= 0xffff_ffff;
            &&& r is Ok <==> related && fits
            &&& p.flags > 7 ==> r == Err::<Vec<u8>, Error>(
                Error::UnsupportedFlags((p.flags - p.flags % 8) as u16),
            )
            &&& p.flags <= 7 && !related ==> r == Err::<Vec<u8>, Error>(Error::FlagRelationship)
            &&& related && !fits ==> r == Err::<Vec<u8>, Error>(Error::LengthOverflow)
        }),
{
    lemma_flags(p.flags);
}

/// What a preamble looks like: `HTXF`, the reference, a length of 32 bits, the kind, the flags, and
/// as the flags say a length of 64 bits and a digest. The first length is zero where the second
/// is there.
pub proof fn sent_preamble(p: Preamble, out: Vec<u8>)
    requires
        call_ensures(Preamble::encode, (&p,), Ok(out)),
    ensures
        out@.len() >= 16,
        out@[0] == 0x48 && out@[1] == 0x54 && out@[2] == 0x58 && out@[3] == 0x46,
        bytes::be32_at(out@, 4) == p.reference,
        bytes::be16_at(out@, 12) == p.type_code,
        bytes::be16_at(out@, 14) == p.flags,
        p.flags == 0 || p.flags == 1 ==> out@.len() == 16 && bytes::be32_at(out@, 8)
            == p.transfer_len,
        p.flags == 3 ==> out@.len() == 24 && bytes::be32_at(out@, 8) == 0 && bytes::be64_at(out@, 16)
            == p.transfer_len,
        p.flags == 5 ==> out@.len() == 56 && bytes::be32_at(out@, 8) == p.transfer_len
            && p.resume_digest is Some && out@.skip(16) == p.resume_digest->0@,
        p.flags == 7 ==> out@.len() == 64 && bytes::be32_at(out@, 8) == 0 && bytes::be64_at(out@, 16)
            == p.transfer_len && p.resume_digest is Some && out@.skip(24) == p.resume_digest->0@,
{
    lemma_flags(p.flags);
    let size: Seq<u8> = if has_size64(p.flags) {
        bytes::be64_bytes(p.transfer_len)
    } else {
        seq![]
    };
    let digest: Seq<u8> = match p.resume_digest {
        Some(d) => d@,
        None => seq![],
    };
    bytes::be32_round_trip(p.reference, Seq::empty());
    bytes::be32_round_trip(p.legacy_len(), Seq::empty());
    bytes::be16_round_trip(p.type_code, Seq::empty());
    bytes::be16_round_trip(p.flags, Seq::empty());
    bytes::be64_round_trip(p.transfer_len, Seq::empty());
    lemma_wire_pieces(
        MAGIC@,
        bytes::be32_bytes(p.reference),
        bytes::be32_bytes(p.legacy_len()),
        bytes::be16_bytes(p.type_code),
        bytes::be16_bytes(p.flags),
        size,
        digest,
        Seq::empty(),
    );
    let b = out@;
    assert(b =~= b + Seq::<u8>::empty());
    assert(b.subrange(0, 4)[0] == b[0] && b.subrange(0, 4)[1] == b[1]);
    assert(b.subrange(0, 4)[2] == b[2] && b.subrange(0, 4)[3] == b[3]);
    assert(b.skip(16) =~= b.subrange(16, b.len() as int));
    assert(b.skip(24) =~= b.subrange(24, b.len() as int));
}

/// What is read of a preamble, and how long it is: each field from its place, the length from the
/// field that the flags choose.
pub proof fn read_preamble(b: &[u8], p: Preamble, n: usize)
    requires
        call_ensures(parse, (b,), Ok((p, n))),
    ensures
        n <= b@.len(),
        b@[0] == 0x48 && b@[1] == 0x54 && b@[2] == 0x58 && b@[3] == 0x46,
        p.reference == bytes::be32_at(b@, 4),
        p.type_code == bytes::be16_at(b@, 12),
        p.flags == bytes::be16_at(b@, 14),
        p.flags == 0 || p.flags == 1 || p.flags == 3 || p.flags == 5 || p.flags == 7,
        p.flags == 0 || p.flags == 1 ==> n == 16 && p.transfer_len == bytes::be32_at(b@, 8)
            && p.resume_digest is None,
        p.flags == 3 ==> n == 24 && p.transfer_len == bytes::be64_at(b@, 16) && p.resume_digest
            is None,
        p.flags == 5 ==> n == 56 && p.transfer_len == bytes::be32_at(b@, 8)
            && p.resume_digest is Some && p.resume_digest->0@ == b@.subrange(16, 56),
        p.flags == 7 ==> n == 64 && p.transfer_len == bytes::be64_at(b@, 16)
            && p.resume_digest is Some && p.resume_digest->0@ == b@.subrange(24, 64),
        p.flags == 3 || p.flags == 7 ==> bytes::be32_at(b@, 8) == 0 || bytes::be32_at(b@, 8)
            == p.transfer_len,
{
    lemma_flags(bytes::be16_at(b@, 14));
    assert(b@.subrange(0, 4)[0] == b@[0] && b@.subrange(0, 4)[1] == b@[1]);
    assert(b@.subrange(0, 4)[2] == b@[2] && b@.subrange(0, 4)[3] == b@[3]);
}

/// Which bytes are no preamble: fewer than sixteen, others than `HTXF` first, unknown flags, fewer
/// than the flags announce, an extension without the flag of large files, and two lengths that
/// differ.
pub proof fn refused_preambles(b: &[u8], r: Result<(Preamble, usize), Error>)
    requires
        call_ensures(parse, (b,), r),
    ensures
        b@.len() < 16 ==> r == Err::<(Preamble, usize), Error>(Error::Truncated),
        b@.len() >= 16 ==> {
            let flags = bytes::be16_at(b@, 14);
            let magic = b@[0] == 0x48 && b@[1] == 0x54 && b@[2] == 0x58 && b@[3] == 0x46;
            let need = if flags < 2 {
                16int
            } else if flags < 4 {
                24
            } else if flags < 6 {
                56
            } else {
                64
            };
            let odd = flags == 2 || flags == 4 || flags == 6;
            let differ = (flags == 3 || flags == 7) && bytes::be32_at(b@, 8) != 0 && bytes::be32_at(
                b@,
                8,
            ) != bytes::be64_at(b@, 16);
            &&& !magic ==> r == Err::<(Preamble, usize), Error>(Error::BadMagic)
            &&& magic && flags > 7 ==> r == Err::<(Preamble, usize), Error>(
                Error::UnsupportedFlags((flags - flags % 8) as u16),
            )
            &&& magic && flags <= 7 && b@.len() < need ==> r == Err::<(Preamble, usize), Error>(
                Error::Truncated,
            )
            &&& magic && b@.len() >= need && odd ==> r == Err::<(Preamble, usize), Error>(
                Error::FlagRelationship,
            )
            &&& magic && b@.len() >= need && differ ==> r == Err::<(Preamble, usize), Error>(
                Error::LengthMismatch,
            )
            &&& magic && flags <= 7 && b@.len() >= need && !odd && !differ ==> r is Ok
        },
{
    lemma_flags(bytes::be16_at(b@, 14));
    if b@.len() >= 16 {
        let m = b@.subrange(0, 4);
        assert(m[0] == b@[0] && m[1] == b@[1] && m[2] == b@[2] && m[3] == b@[3]);
        if b@[0] == 0x48 && b@[1] == 0x54 && b@[2] == 0x58 && b@[3] == 0x46 {
            assert(m =~= MAGIC@);
        }
    }
}

/// A preamble that is sent is read back by the other side, field by field, whatever follows it.
pub proof fn sent_preamble_is_read(
    p: Preamble,
    out: Vec<u8>,
    b: &[u8],
    r: Result<(Preamble, usize), Error>,
)
    requires
        call_ensures(Preamble::encode, (&p,), Ok(out)),
        out@.is_prefix_of(b@),
        call_ensures(parse, (b,), r),
    ensures
        r matches Ok((q, n)) && q.reference == p.reference && q.transfer_len == p.transfer_len
            && q.type_code == p.type_code && q.flags == p.flags && n == out@.len() && (
        q.resume_digest is Some <==> p.resume_digest is Some) && (q.resume_digest is Some
            ==> q.resume_digest->0@ == p.resume_digest->0@),
{
    let rest = b@.skip(out@.len() as int);
    assert(b@ =~= out@ + rest);
    preamble_round_trip(p, r->Ok_0.0, rest);
}

/// The errors in words.
pub proof fn errors_in_words(e: Error, r: String)
    requires
        call_ensures(Error::message, (&e,), r),
    ensures
        e is Truncated ==> r@ == "truncated HTXF preamble"@,
        e is BadMagic ==> r@ == "invalid HTXF magic"@,
        e matches Error::UnsupportedFlags(flags) ==> r@ == "unsupported HTXF flags: 0x"@
            + text::hex4_text(flags as nat),
        e is FlagRelationship ==> r@ == "invalid HTXF flag relationship"@,
        e is LengthOverflow ==> r@ == "HTXF length exceeds the selected encoding"@,
        e is LengthMismatch ==> r@ == "HTXF legacy and extended lengths disagree"@,
{
}

} // verus!
