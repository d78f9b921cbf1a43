//! Timestamps on the wire: a year, milliseconds that are ignored, and seconds.
//!
//! With the year 1904 the seconds count from the start of 1904, in UTC. With any other year they
//! count from the start of that year, in local time. To make an instant of it takes a calendar, and
//! is not done here.
use crate::bytes;
use crate::bytes::{get16, get32};
use vstd::prelude::*;

verus! {

/// Seconds from the start of 1904 to the start of 1970.
pub const MAC_TO_UNIX_EPOCH_OFFSET: u32 = 2_082_844_800;

/// A timestamp.
#[derive(Debug, Clone, Copy, PartialEq, Eq, Structural)]
pub enum HlDate {
    /// Seconds since the start of 1904, in UTC.
    Mac1904 { secs: u32 },
    /// Seconds since the start of a year, in local time.
    Modern { year: u16, secs: u32 },
}

/// The timestamp that eight bytes stand for. Zero seconds mean that none is set, and a year outside
/// of 1970 to 2200 makes no sense.
pub open spec fn date_of(b: Seq<u8>) -> Option<HlDate> {
    let year = bytes::be16_at(b, 0);
    let secs = bytes::be32_at(b, 4);
    if b.len() < 8 || secs == 0 {
        None
    } else if year == 1904 {
        Some(HlDate::Mac1904 { secs })
    } else if 1970 <= year <= 2200 {
        Some(HlDate::Modern { year, secs })
    } else {
        None
    }
}

/// Decodes a timestamp. `None` if none is set, if the year makes no sense, or if there are fewer
/// than eight bytes.
pub fn parse_hl_date(bytes: &[u8]) -> (r: Option<HlDate>)
    ensures
        r == date_of(bytes@),
{
    if bytes.len() < 8 {
        return None;
    }
    let year: u16 = get16(bytes, 0);
    let secs: u32 = get32(bytes, 4);
    if secs == 0 {
        return None;
    }
    if year == 1904 {
        return Some(HlDate::Mac1904 { secs });
    }
    if year < 1970 || year > 2200 {
        return None;
    }
    Some(HlDate::Modern { year, secs })
}

/// The bytes of a timestamp.
pub open spec fn packed(year: u16, msecs: u16, secs: u32) -> Seq<u8> {
    bytes::be16_bytes(year) + bytes::be16_bytes(msecs) + bytes::be32_bytes(secs)
}

/// A timestamp that was packed reads back, whatever its milliseconds and whatever follows it.
pub proof fn date_round_trip(year: u16, msecs: u16, secs: u32, rest: Seq<u8>)
    ensures
        date_of(packed(year, msecs, secs) + rest) == (if secs == 0 {
            None
        } else if year == 1904 {
            Some(HlDate::Mac1904 { secs })
        } else if 1970 <= year <= 2200 {
            Some(HlDate::Modern { year, secs })
        } else {
            None
        }),
{
    let b = packed(year, msecs, secs) + rest;
    bytes::be16_round_trip(year, Seq::empty());
    bytes::be32_round_trip(secs, Seq::empty());
    assert(b.subrange(0, 2) =~= bytes::be16_bytes(year));
    assert(b.subrange(4, 8) =~= bytes::be32_bytes(secs));
}

/// Eight bytes say a date if their seconds are not zero and their year is 1904 or lies between 1970
/// and 2200; the seconds stand in the last four of them, and what stands in the two between does
/// not matter.
pub proof fn year_and_seconds_say_a_date(b: &[u8], r: Option<HlDate>)
    requires
        call_ensures(parse_hl_date, (b,), r),
    ensures
        b@.len() < 8 ==> r is None,
        b@.len() >= 8 ==> {
            let year = 256 * b@[0] + b@[1];
            let zero = b@[4] == 0 && b@[5] == 0 && b@[6] == 0 && b@[7] == 0;
            &&& r is Some <==> !zero && (year == 1904 || 1970 <= year <= 2200)
            &&& r matches Some(HlDate::Mac1904 { secs }) ==> year == 1904 && secs == 256 * (256 * (
            256 * b@[4] + b@[5]) + b@[6]) + b@[7]
            &&& r matches Some(HlDate::Modern { year: y, secs }) ==> year != 1904 && y == year
                && secs == 256 * (256 * (256 * b@[4] + b@[5]) + b@[6]) + b@[7]
        },
{
    reveal(bytes::be32);
}

} // verus!
