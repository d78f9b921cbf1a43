//! Listings of a tracker.
use crate::bytes;
use crate::bytes::{copy_into, get16, get32, put16, put_bytes};
use crate::sanitize;
use crate::sanitize::{cr2lf, strip_ansi};
use vstd::prelude::*;

verus! {

// ---------------------------------------------------------------------------------------------
// The handshake.
// ---------------------------------------------------------------------------------------------
/// The four bytes that every handshake starts with: `HTRK`.
pub const MAGIC: [u8; 4] = [0x48, 0x54, 0x52, 0x4b];

/// The version in which a listing has records with trailers.
pub const VERSION: u16 = 3;

/// The length of a handshake that states features.
pub const HANDSHAKE_LEN: usize = 8;

/// A handshake: the magic bytes, a version and the features.
pub open spec fn handshake_bytes(version: u16, features: u16) -> Seq<u8> {
    MAGIC@ + bytes::be16_bytes(version) + bytes::be16_bytes(features)
}

/// Puts the handshake of a client at the front of a buffer. If it has no room, nothing is written.
pub fn gtkhx_proto_tracker_v3_pack_handshake(out: &mut [u8], features: u16) -> (r: bool)
    ensures
        r == (old(out)@.len() >= 8),
        final(out)@ == (if r {
            bytes::overwrite(old(out)@, 0, handshake_bytes(3, features))
        } else {
            old(out)@
        }),
{
    if out.len() < HANDSHAKE_LEN {
        return false;
    }
    let mut b: Vec<u8> = Vec::new();
    put_bytes(&mut b, &MAGIC);
    put16(&mut b, VERSION);
    put16(&mut b, features);
    assert(b@ =~= handshake_bytes(3, features));
    copy_into(out, 0, b.as_slice());
    true
}

/// What a tracker answers to a handshake.
#[derive(Debug, Clone, Copy, PartialEq, Eq, Structural)]
pub struct HandshakeResponse {
    pub version: u16,
    /// Zero from a tracker that knows of none.
    pub features: u16,
}

/// The answer in these bytes. `None` if they are neither six nor eight, or the magic bytes are
/// others.
pub open spec fn handshake_of(b: Seq<u8>) -> Option<HandshakeResponse> {
    if (b.len() == 6 || b.len() == 8) && b.take(4) == MAGIC@ {
        Some(
            HandshakeResponse {
                version: bytes::be16_at(b, 4),
                features: if b.len() == 8 {
                    bytes::be16_at(b, 6)
                } else {
                    0
                },
            },
        )
    } else {
        None
    }
}

/// Parses what a tracker answers to a handshake.
pub fn gtkhx_proto_tracker_v3_parse_handshake_response(buf: &[u8]) -> (r: Option<HandshakeResponse>)
    ensures
        r == handshake_of(buf@),
{
    if buf.len() != 6 && buf.len() != 8 {
        return None;
    }
    let same: bool = buf[0] == MAGIC[0] && buf[1] == MAGIC[1] && buf[2] == MAGIC[2] && buf[3]
        == MAGIC[3];
    proof {
        assert(buf@.take(4)[0] == buf@[0]);
        assert(buf@.take(4)[1] == buf@[1]);
        assert(buf@.take(4)[2] == buf@[2]);
        assert(buf@.take(4)[3] == buf@[3]);
        if same {
            assert(buf@.take(4) =~= MAGIC@);
        }
    }
    if !same {
        return None;
    }
    let features: u16 = if buf.len() == 8 {
        get16(buf, 6)
    } else {
        0
    };
    Some(HandshakeResponse { version: get16(buf, 4), features })
}

/// A handshake is read back, with the features if they were sent.
pub proof fn handshake_round_trip(version: u16, features: u16)
    ensures
        handshake_of(handshake_bytes(version, features)) == Some(
            HandshakeResponse { version, features },
        ),
        handshake_of(handshake_bytes(version, features).take(6)) == Some(
            HandshakeResponse { version, features: 0 },
        ),
{
    let b = handshake_bytes(version, features);
    bytes::be16_round_trip(version, Seq::empty());
    bytes::be16_round_trip(features, Seq::empty());
    assert(b.take(4) =~= MAGIC@);
    assert(b.take(6).take(4) =~= MAGIC@);
    assert(b.subrange(4, 6) =~= bytes::be16_bytes(version));
    assert(b.take(6).subrange(4, 6) =~= bytes::be16_bytes(version));
    assert(b.subrange(6, 8) =~= bytes::be16_bytes(features));
}

// ---------------------------------------------------------------------------------------------
// The listing.
// ---------------------------------------------------------------------------------------------
/// What a listing starts with.
#[derive(Debug, Clone, Copy, PartialEq, Eq, Structural)]
pub struct ResponseHeader {
    pub response_type: u16,
    pub total_size: u32,
    pub total_servers: u16,
    /// How many records this part of the listing has.
    pub record_count: u16,
}

/// What the listing starts with. `None` if it is cut short, or is no response of the type that is
/// asked for.
pub open spec fn response_header_of(b: Seq<u8>, listing: u16) -> Option<ResponseHeader> {
    if b.len() < 10 || bytes::be16_at(b, 0) != listing {
        None
    } else {
        Some(
            ResponseHeader {
                response_type: listing,
                total_size: bytes::be32_at(b, 2),
                total_servers: bytes::be16_at(b, 6),
                record_count: bytes::be16_at(b, 8),
            },
        )
    }
}

/// Parses the ten bytes that a listing starts with; `listing` is the type that it has to have.
pub fn gtkhx_proto_tracker_v3_parse_response_header(buf: &[u8], listing: u16) -> (r: Option<
    ResponseHeader,
>)
    ensures
        r == response_header_of(buf@, listing),
{
    if buf.len() < 10 {
        return None;
    }
    let response_type: u16 = get16(buf, 0);
    if response_type != listing {
        return None;
    }
    Some(
        ResponseHeader {
            response_type,
            total_size: get32(buf, 2),
            total_servers: get16(buf, 6),
            record_count: get16(buf, 8),
        },
    )
}

/// A record that starts with a zero only fills up the listing.
pub fn gtkhx_proto_tracker_record_is_padding(buf: &[u8]) -> (r: bool)
    ensures
        r == (buf@.len() > 0 && buf@[0] == 0),
{
    buf.len() > 0 && buf[0] == 0
}

/// Makes the name or the description of a server fit to be displayed.
pub fn gtkhx_proto_tracker_normalize_text(buf: &mut [u8])
    ensures
        final(buf)@ == sanitize::sanitised(old(buf)@),
{
    cr2lf(buf);
    strip_ansi(buf);
}

/// A field of the trailer of a record. The value is a place in the trailer.
#[derive(Debug, Clone, Copy, PartialEq, Eq, Structural)]
pub struct TrackerV3TlvOut {
    pub value_off: usize,
    pub value_len: usize,
    /// Where the next field is.
    pub next_off: usize,
    pub id: u16,
}

/// A field on the wire: its number, the length of its value and its value.
pub open spec fn tlv_bytes(id: u16, value: Seq<u8>) -> Seq<u8> {
    bytes::be16_bytes(id) + bytes::be16_bytes(value.len() as u16) + value
}

/// The field at this place. `None` if its head or its value is cut short.
pub open spec fn tlv_at(b: Seq<u8>, off: int) -> Option<TrackerV3TlvOut> {
    let len = bytes::be16_at(b, off + 2);
    if off + 4 > b.len() || off + 4 + len > b.len() {
        None
    } else {
        Some(
            TrackerV3TlvOut {
                value_off: (off + 4) as usize,
                value_len: len as usize,
                next_off: (off + 4 + len) as usize,
                id: bytes::be16_at(b, off),
            },
        )
    }
}

/// Parses the field at a place in the trailer of a record.
pub fn gtkhx_proto_tracker_v3_parse_tlv_at(buf: &[u8], off: usize) -> (r: Option<TrackerV3TlvOut>)
    ensures
        r == tlv_at(buf@, off as int),
{
    if buf.len() < 4 || off > buf.len() - 4 {
        return None;
    }
    let id: u16 = get16(buf, off);
    let len: usize = get16(buf, off + 2) as usize;
    let at: usize = off + 4;
    if len > buf.len() - at {
        return None;
    }
    Some(TrackerV3TlvOut { value_off: at, value_len: len, next_off: at + len, id })
}

/// A field is read back wherever it was written, and the next one starts where it ends.
pub proof fn tlv_round_trip(head: Seq<u8>, id: u16, value: Seq<u8>, rest: Seq<u8>)
    requires
        value.len() <= u16::MAX,
        head.len() + 4 + value.len() <= usize::MAX,
    ensures
        ({
            let b = head + tlv_bytes(id, value) + rest;
            let at = head.len() as int;
            match tlv_at(b, at) {
                Some(t) => {
                    &&& t.id == id
                    &&& b.subrange(t.value_off as int, t.value_off + t.value_len) == value
                    &&& t.next_off == at + tlv_bytes(id, value).len()
                },
                None => false,
            }
        }),
{
    let b = head + tlv_bytes(id, value) + rest;
    let at = head.len() as int;
    let len = value.len() as u16;
    bytes::be16_round_trip(id, Seq::empty());
    bytes::be16_round_trip(len, Seq::empty());
    assert(b.subrange(at, at + 2) =~= bytes::be16_bytes(id));
    assert(b.subrange(at + 2, at + 4) =~= bytes::be16_bytes(len));
    assert(b.subrange(at + 4, at + 4 + len) =~= value);
}

/// A value of one byte; another length gives the default.
pub fn gtkhx_proto_tracker_v3_meta_read_u8(value: &[u8], default: u8) -> (r: u8)
    ensures
        r == (if value@.len() == 1 {
            value@[0]
        } else {
            default
        }),
{
    if value.len() == 1 {
        value[0]
    } else {
        default
    }
}

/// A value of two bytes; another length gives the default.
pub fn gtkhx_proto_tracker_v3_meta_read_u16(value: &[u8], default: u16) -> (r: u16)
    ensures
        r == (if value@.len() == 2 {
            bytes::be16(value@)
        } else {
            default
        }),
{
    if value.len() == 2 {
        assert(value@.subrange(0, 2) =~= value@);
        get16(value, 0)
    } else {
        default
    }
}

/// Two bytes in two's complement.
pub open spec fn signed16(v: u16) -> i16 {
    if v < 0x8000 {
        v as i16
    } else {
        (v - 0x1_0000) as i16
    }
}

/// A value of two bytes with a sign; another length gives the default.
pub fn gtkhx_proto_tracker_v3_meta_read_i16(value: &[u8], default: i16) -> (r: i16)
    ensures
        r == (if value@.len() == 2 {
            signed16(bytes::be16(value@))
        } else {
            default
        }),
{
    if value.len() == 2 {
        assert(value@.subrange(0, 2) =~= value@);
        let v: u16 = get16(value, 0);
        if v < 0x8000 {
            v as i16
        } else {
            (v as i32 - 0x1_0000) as i16
        }
    } else {
        default
    }
}

/// A value of four bytes; another length gives the default.
pub fn gtkhx_proto_tracker_v3_meta_read_u32(value: &[u8], default: u32) -> (r: u32)
    ensures
        r == (if value@.len() == 4 {
            bytes::be32(value@)
        } else {
            default
        }),
{
    if value.len() == 4 {
        assert(value@.subrange(0, 4) =~= value@);
        get32(value, 0)
    } else {
        default
    }
}

/// One of the bytes is not zero.
pub open spec fn any_set(v: Seq<u8>) -> bool {
    exists|i: int| 0 <= i < v.len() && #[trigger] v[i] != 0
}

/// A truth value: some byte is not zero.
pub fn gtkhx_proto_tracker_v3_meta_read_bool(value: &[u8]) -> (r: bool)
    ensures
        r == exists|i: int| 0 <= i < value@.len() && value@[i] != 0,
        r == any_set(value@),
{
    let mut i: usize = 0;
    while i < value.len()
        invariant
            i <= value@.len(),
            forall|k: int| 0 <= k < i ==> value@[k] == 0,
        decreases value@.len() - i,
    {
        if value[i] != 0 {
            return true;
        }
        i = i + 1;
    }
    false
}

/// How mature a server is: 0 to 3. Anything else counts as 0, general.
pub fn gtkhx_proto_tracker_v3_meta_clamp_maturity(raw: u8) -> (r: u8)
    ensures
        r == (if raw <= 3 {
            raw
        } else {
            0
        }),
{
    if raw <= 3 {
        raw
    } else {
        0
    }
}

/// What kind of server it is: 0 to 12. Anything else counts as 0, unspecified.
pub fn gtkhx_proto_tracker_v3_meta_clamp_listing_category(raw: u8) -> (r: u8)
    ensures
        r == (if raw <= 12 {
            raw
        } else {
            0
        }),
{
    if raw <= 12 {
        raw
    } else {
        0
    }
}

// ---------------------------------------------------------------------------------------------
// What every call does, in numbers.
// ---------------------------------------------------------------------------------------------
/// A handshake takes eight bytes: `HTRK`, version 3, and the features. With less room nothing is
/// written.
pub proof fn handshakes_are_written(out: &mut [u8], features: u16, r: bool, i: int)
    requires
        call_ensures(gtkhx_proto_tracker_v3_pack_handshake, (out, features), r),
    ensures
        r <==> old(out)@.len() >= 8,
        final(out)@.len() == old(out)@.len(),
        !r ==> final(out)@ == old(out)@,
        r ==> {
            let b = final(out)@;
            &&& b[0] == 0x48 && b[1] == 0x54 && b[2] == 0x52 && b[3] == 0x4b
            &&& bytes::be16_at(b, 4) == 3
            &&& bytes::be16_at(b, 6) == features
            &&& 8 <= i < b.len() ==> b[i] == old(out)@[i]
        },
{
    if r {
        let b = final(out)@;
        bytes::be16_round_trip(3, Seq::empty());
        bytes::be16_round_trip(features, Seq::empty());
        assert(b.subrange(4, 6) =~= bytes::be16_bytes(3));
        assert(b.subrange(6, 8) =~= bytes::be16_bytes(features));
    }
}

/// A response has six bytes or eight: `HTRK`, a version, and the features, which are none if there
/// are six.
pub proof fn handshakes_are_read(b: &[u8], r: Option<HandshakeResponse>)
    requires
        call_ensures(gtkhx_proto_tracker_v3_parse_handshake_response, (b,), r),
    ensures
        r is Some <==> (b@.len() == 6 || b@.len() == 8) && b@[0] == 0x48 && b@[1] == 0x54 && b@[2]
            == 0x52 && b@[3] == 0x4b,
        r matches Some(h) ==> h.version == bytes::be16_at(b@, 4) && h.features == (if b@.len() == 8 {
            bytes::be16_at(b@, 6) as int
        } else {
            0
        }),
{
    if b@.len() >= 4 {
        let m = b@.take(4);
        assert(m[0] == b@[0] && m[1] == b@[1] && m[2] == b@[2] && m[3] == b@[3]);
        if b@[0] == 0x48 && b@[1] == 0x54 && b@[2] == 0x52 && b@[3] == 0x4b {
            assert(m =~= MAGIC@);
        }
    }
}

/// A header has ten bytes: the type, which is that of a listing, the size in four, the number of
/// servers, and the number of records.
pub proof fn headers_are_read(b: &[u8], listing: u16, r: Option<ResponseHeader>)
    requires
        call_ensures(gtkhx_proto_tracker_v3_parse_response_header, (b, listing), r),
    ensures
        r is Some <==> b@.len() >= 10 && bytes::be16_at(b@, 0) == listing,
        r matches Some(h) ==> h.response_type == bytes::be16_at(b@, 0) && h.total_size
            == bytes::be32_at(b@, 2) && h.total_servers == bytes::be16_at(b@, 6) && h.record_count
            == bytes::be16_at(b@, 8),
{
}

/// A record that starts with zero is padding. Text of a tracker is displayed with line feeds for
/// carriage returns and without control bytes that a terminal might act on.
pub proof fn records_and_text(
    b: &[u8],
    padding: bool,
    text: &mut [u8],
    cr: &mut [u8],
    ansi: &mut [u8],
)
    requires
        call_ensures(gtkhx_proto_tracker_record_is_padding, (b,), padding),
        call_ensures(gtkhx_proto_tracker_normalize_text, (text,), ()),
        call_ensures(cr2lf, (cr,), ()),
        call_ensures(strip_ansi, (ansi,), ()),
        text@ == cr@,
    ensures
        padding <==> b@.len() > 0 && b@[0] == 0,
        final(cr)@ == old(ansi)@ ==> final(text)@ == final(ansi)@,
{
}

/// A field has two bytes of id, two of length, and a value of that length. The next one starts
/// behind it. One that is not all there is none.
pub proof fn fields_stand_one_behind_the_other(b: &[u8], off: usize, r: Option<TrackerV3TlvOut>)
    requires
        call_ensures(gtkhx_proto_tracker_v3_parse_tlv_at, (b, off), r),
        b@.len() <= usize::MAX,
    ensures
        r is Some <==> off + 4 <= b@.len() && off + 4 + bytes::be16_at(b@, off + 2) <= b@.len(),
        r matches Some(t) ==> t.id == bytes::be16_at(b@, off as int) && t.value_off == off + 4
            && t.value_len == bytes::be16_at(b@, off + 2) && t.next_off == t.value_off
            + t.value_len,
{
}

/// A value of the right length is read, and any other is what it is taken for by default. Numbers
/// of sixteen bits from 0x8000 on are negative where they have a sign.
pub proof fn values_are_read(
    v: &[u8],
    d8: u8,
    r8: u8,
    d16: u16,
    r16: u16,
    di: i16,
    ri: i16,
    d32: u32,
    r32: u32,
)
    requires
        call_ensures(gtkhx_proto_tracker_v3_meta_read_u8, (v, d8), r8),
        call_ensures(gtkhx_proto_tracker_v3_meta_read_u16, (v, d16), r16),
        call_ensures(gtkhx_proto_tracker_v3_meta_read_i16, (v, di), ri),
        call_ensures(gtkhx_proto_tracker_v3_meta_read_u32, (v, d32), r32),
    ensures
        v@.len() == 1 ==> r8 == v@[0],
        v@.len() != 1 ==> r8 == d8,
        v@.len() == 2 ==> r16 == bytes::be16_at(v@, 0),
        v@.len() != 2 ==> r16 == d16,
        v@.len() == 2 && bytes::be16_at(v@, 0) < 0x8000 ==> ri == bytes::be16_at(v@, 0),
        v@.len() == 2 && bytes::be16_at(v@, 0) >= 0x8000 ==> ri == bytes::be16_at(v@, 0) - 0x1_0000,
        v@.len() != 2 ==> ri == di,
        v@.len() == 4 ==> r32 == bytes::be32_at(v@, 0),
        v@.len() != 4 ==> r32 == d32,
{
    if v@.len() == 2 {
        assert(v@.subrange(0, 2) =~= v@);
    }
    if v@.len() == 4 {
        assert(v@.subrange(0, 4) =~= v@);
    }
}

/// A value means yes if one of its bytes is not zero.
pub proof fn any_byte_means_yes(v: &[u8], yes: bool, i: int)
    requires
        call_ensures(gtkhx_proto_tracker_v3_meta_read_bool, (v,), yes),
    ensures
        yes ==> exists|k: int| 0 <= k < v@.len() && #[trigger] v@[k] != 0,
        0 <= i < v@.len() && v@[i] != 0 ==> yes,
{
    if 0 <= i < v@.len() && v@[i] != 0 {
        assert(exists|k: int| 0 <= k < v@.len() && v@[k] != 0);
    }
}

/// A maturity above 3 and a category above 12 are not known, and count as zero.
pub proof fn unknown_values_are_zero(raw: u8, m: u8, c: u8)
    requires
        call_ensures(gtkhx_proto_tracker_v3_meta_clamp_maturity, (raw,), m),
        call_ensures(gtkhx_proto_tracker_v3_meta_clamp_listing_category, (raw,), c),
    ensures
        raw <= 3 ==> m == raw,
        raw > 3 ==> m == 0,
        raw <= 12 ==> c == raw,
        raw > 12 ==> c == 0,
{
}

} // verus!
