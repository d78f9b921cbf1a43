//! Resume Fork List encoding and compatibility parsing.
use crate::bytes;
use crate::bytes::{array_of, get32, put16, put32, put_bytes, put_zeros};
use crate::xfer::ffo;
use vstd::prelude::*;

verus! {

pub const HEADER_LEN: usize = 42;

pub const ENTRY_LEN: usize = 16;

pub const CANONICAL_LEN: usize = HEADER_LEN + 2 * ENTRY_LEN;

/// From where the forks are to be sent.
#[derive(Debug, Clone, Copy, PartialEq, Eq, Structural)]
pub struct Resume {
    pub data: u32,
    pub resource: u32,
}

impl Default for Resume {
    fn default() -> (r: Self)
        ensures
            r == (Resume { data: 0, resource: 0 }),
    {
        Resume { data: 0, resource: 0 }
    }
}

/// The offset in the four bytes at `at`, or zero when the record does not hold all of them.
pub open spec fn offset_at(b: Seq<u8>, at: int) -> u32 {
    if at + 4 <= b.len() {
        bytes::be32_at(b, at)
    } else {
        0
    }
}

/// Parses the fixed offsets that deployed clients use. Magic, version and fork count are not
/// checked: old clients sent imperfect headers.
pub fn parse_compatible(bytes: &[u8]) -> (r: Resume)
    ensures
        r == (Resume { data: offset_at(bytes@, 46), resource: offset_at(bytes@, 62) }),
{
    let data: u32 = if bytes.len() >= 50 {
        get32(bytes, 46)
    } else {
        0
    };
    let resource: u32 = if bytes.len() >= 66 {
        get32(bytes, 62)
    } else {
        0
    };
    Resume { data, resource }
}

/// `RFLT`.
pub open spec fn tag_rflt() -> Seq<u8> {
    seq![0x52u8, 0x46, 0x4c, 0x54]
}

/// The list on the wire: magic, version, a fork count of two, and an entry for each fork.
pub open spec fn wire(resume: Resume) -> Seq<u8> {
    tag_rflt() + bytes::be16_bytes(1) + ffo::zeros(34) + bytes::be16_bytes(2) + (ffo::tag_data()
        + bytes::be32_bytes(resume.data) + ffo::zeros(8)) + (ffo::tag_macr() + bytes::be32_bytes(
        resume.resource,
    ) + ffo::zeros(8))
}

/// Builds a resume record for both forks.
pub fn encode(resume: Resume) -> (r: [u8; CANONICAL_LEN])
    ensures
        r@ == wire(resume),
{
    let mut out: Vec<u8> = Vec::with_capacity(CANONICAL_LEN);
    put_bytes(&mut out, &[0x52, 0x46, 0x4c, 0x54]);
    put16(&mut out, 1);
    put_zeros(&mut out, 34);
    put16(&mut out, 2);
    put_bytes(&mut out, &[0x44, 0x41, 0x54, 0x41]);
    put32(&mut out, resume.data);
    put_zeros(&mut out, 8);
    put_bytes(&mut out, &[0x4d, 0x41, 0x43, 0x52]);
    put32(&mut out, resume.resource);
    put_zeros(&mut out, 8);
    assert(out@ =~= wire(resume));
    proof {
        bytes::be32_round_trip(resume.data, Seq::empty());
        bytes::be32_round_trip(resume.resource, Seq::empty());
    }
    array_of::<74>(out.as_slice())
}

/// A list that was encoded is read back, as far as it arrived: the data offset from fifty bytes
/// on, the resource offset from sixty-six bytes on.
pub proof fn resume_round_trip(resume: Resume, n: int)
    requires
        0 <= n <= CANONICAL_LEN,
    ensures
        wire(resume).len() == CANONICAL_LEN,
        offset_at(wire(resume).take(n), 46) == (if n >= 50 {
            resume.data
        } else {
            0
        }),
        offset_at(wire(resume).take(n), 62) == (if n >= 66 {
            resume.resource
        } else {
            0
        }),
{
    let b = wire(resume);
    bytes::be32_round_trip(resume.data, Seq::empty());
    bytes::be32_round_trip(resume.resource, Seq::empty());
    if n >= 50 {
        assert(b.take(n).subrange(46, 50) =~= bytes::be32_bytes(resume.data));
    }
    if n >= 66 {
        assert(b.take(n).subrange(62, 66) =~= bytes::be32_bytes(resume.resource));
    }
}

/// A record of 74 bytes: `RFLT`, version 1, two forks, and of each its name and its offset. All
/// other bytes are zero.
pub proof fn record_has_its_places(resume: Resume, b: [u8; 74], i: int)
    requires
        call_ensures(encode, (resume,), b),
    ensures
        b@[0] == 0x52 && b@[1] == 0x46 && b@[2] == 0x4c && b@[3] == 0x54,
        bytes::be16_at(b@, 4) == 1,
        bytes::be16_at(b@, 40) == 2,
        b@[42] == 0x44 && b@[43] == 0x41 && b@[44] == 0x54 && b@[45] == 0x41,
        bytes::be32_at(b@, 46) == resume.data,
        b@[58] == 0x4d && b@[59] == 0x41 && b@[60] == 0x43 && b@[61] == 0x52,
        bytes::be32_at(b@, 62) == resume.resource,
        6 <= i < 40 || 50 <= i < 58 || 66 <= i < 74 ==> b@[i] == 0,
{
    bytes::be16_round_trip(1, Seq::empty());
    bytes::be16_round_trip(2, Seq::empty());
    bytes::be32_round_trip(resume.data, Seq::empty());
    bytes::be32_round_trip(resume.resource, Seq::empty());
    assert(b@.subrange(4, 6) =~= bytes::be16_bytes(1));
    assert(b@.subrange(40, 42) =~= bytes::be16_bytes(2));
    assert(b@.subrange(46, 50) =~= bytes::be32_bytes(resume.data));
    assert(b@.subrange(62, 66) =~= bytes::be32_bytes(resume.resource));
}

/// What is read: the two offsets, from bytes 46 and 62, each if all of its four bytes are there. No
/// other byte counts.
pub proof fn only_offsets_are_read(b: &[u8], c: &[u8], r: Resume, s: Resume)
    requires
        call_ensures(parse_compatible, (b,), r),
        call_ensures(parse_compatible, (c,), s),
    ensures
        b@.len() >= 50 ==> r.data == bytes::be32_at(b@, 46),
        b@.len() < 50 ==> r.data == 0,
        b@.len() >= 66 ==> r.resource == bytes::be32_at(b@, 62),
        b@.len() < 66 ==> r.resource == 0,
        b@.len() == c@.len() && (forall|i: int|
            46 <= i < 50 || 62 <= i < 66 ==> #[trigger] b@[i] == c@[i]) ==> r == s,
{
    if b@.len() == c@.len() && (forall|i: int|
        46 <= i < 50 || 62 <= i < 66 ==> #[trigger] b@[i] == c@[i]) {
        if b@.len() >= 50 {
            assert(b@.subrange(46, 50) =~= c@.subrange(46, 50));
        }
        if b@.len() >= 66 {
            assert(b@.subrange(62, 66) =~= c@.subrange(62, 66));
        }
    }
}

} // verus!
