//! The record of 300 bytes of the CAP layout.
use crate::bytes;
use crate::bytes::{array_of, put_bytes, put_zeros};
use crate::hfs;
use crate::hfs::{HfsInfo, MAX_COMMENT};
use crate::suffix;
use crate::suffix::suffix_type_creator;
use vstd::prelude::*;
use vstd::slice::{slice_subrange, slice_to_vec};

verus! {

/// How long a record is.
pub const SIZEOF_CAP_INFO: usize = 300;

pub const CAP_MAGIC1: u8 = 0xFF;

pub const CAP_VERSION: u8 = 0x10;

pub const CAP_MAGIC: u8 = 0xDA;

/// Says that the dates may be valid.
pub const CAP_DMAGIC: u8 = 0xDA;

/// The date of the last change is valid.
pub const CAP_MDATE: u8 = 0x01;

/// The date of creation is valid.
pub const CAP_CDATE: u8 = 0x02;

/// Type and creator.
pub const CAP_OFF_FNDR: usize = 0;

pub const CAP_OFF_MAGIC1: usize = 34;

pub const CAP_OFF_VERSION: usize = 35;

pub const CAP_OFF_MAGIC: usize = 36;

/// The length of the comment.
pub const CAP_OFF_COMLN: usize = 84;

/// The comment.
pub const CAP_OFF_COMNT: usize = 85;

pub const CAP_OFF_DATEMAGIC: usize = 285;

/// Which dates are valid.
pub const CAP_OFF_DATEVALID: usize = 286;

/// The dates, of creation and of the last change.
pub const CAP_OFF_CTIME: usize = 287;

/// The bytes start with a record.
pub open spec fn is_record(b: Seq<u8>) -> bool {
    b.len() >= 300 && b[34] == CAP_MAGIC1 && b[35] == CAP_VERSION && b[36] == CAP_MAGIC
}

/// Which dates of a record are valid.
pub open spec fn dates_valid(b: Seq<u8>) -> u8 {
    if b[285] == CAP_DMAGIC {
        b[286]
    } else {
        0
    }
}

/// What a record says. The fork stands elsewhere, and so does its length.
pub open spec fn info_of(b: Seq<u8>) -> hfs::HfsView {
    hfs::HfsView {
        type_creator: b.subrange(0, 8),
        create_time: if dates_valid(b) & CAP_CDATE != 0 {
            b.subrange(287, 291)
        } else {
            hfs::zeros(4)
        },
        modify_time: if dates_valid(b) & CAP_MDATE != 0 {
            b.subrange(291, 295)
        } else {
            hfs::zeros(4)
        },
        rsrclen: 0,
        comment: b.subrange(85, 85 + hfs::kept_len(b[84] as int)),
    }
}

/// The record of some metadata.
pub open spec fn record_of(fi: hfs::HfsView) -> Seq<u8> {
    let comment = hfs::kept(fi.comment);
    fi.type_creator + hfs::zeros(26) + seq![CAP_MAGIC1, CAP_VERSION, CAP_MAGIC] + hfs::zeros(47)
        + seq![comment.len() as u8] + comment + hfs::zeros((200 - comment.len()) as nat) + seq![
        CAP_DMAGIC,
        3u8,
    ] + fi.create_time + fi.modify_time + hfs::zeros(5)
}

/// A record reads back as what was written, whatever follows it, but for the part of the comment
/// that a record cannot hold and for the length of the fork, which it does not hold.
pub proof fn record_round_trip(fi: hfs::HfsView, rest: Seq<u8>)
    requires
        fi.wf(),
    ensures
        record_of(fi).len() == 300,
        is_record(record_of(fi) + rest),
        info_of(record_of(fi) + rest) == (hfs::HfsView {
            rsrclen: 0,
            comment: hfs::kept(fi.comment),
            ..fi
        }),
{
    let b = record_of(fi) + rest;
    let comment = hfs::kept(fi.comment);
    assert(3u8 & 2u8 != 0 && 3u8 & 1u8 != 0) by (bit_vector);
    assert(b.subrange(0, 8) =~= fi.type_creator);
    assert(b.subrange(287, 291) =~= fi.create_time);
    assert(b.subrange(291, 295) =~= fi.modify_time);
    assert(b[84] == comment.len());
    assert(b.subrange(85, 85 + comment.len() as int) =~= comment);
}

/// Decodes a record. `None` if it is too short or is none.
pub fn decode_cap_info(buf: &[u8]) -> (r: Option<HfsInfo>)
    ensures
        match r {
            Some(fi) => is_record(buf@) && fi@ == info_of(buf@),
            None => !is_record(buf@),
        },
{
    if buf.len() < SIZEOF_CAP_INFO || buf[CAP_OFF_MAGIC1] != CAP_MAGIC1 || buf[CAP_OFF_VERSION]
        != CAP_VERSION || buf[CAP_OFF_MAGIC] != CAP_MAGIC {
        return None;
    }
    let mut fi = HfsInfo::default();
    fi.type_creator = array_of::<8>(slice_subrange(buf, CAP_OFF_FNDR, CAP_OFF_FNDR + 8));
    let valid: u8 = if buf[CAP_OFF_DATEMAGIC] == CAP_DMAGIC {
        buf[CAP_OFF_DATEVALID]
    } else {
        0
    };
    if valid & CAP_CDATE != 0 {
        fi.create_time = array_of::<4>(slice_subrange(buf, CAP_OFF_CTIME, CAP_OFF_CTIME + 4));
    }
    if valid & CAP_MDATE != 0 {
        fi.modify_time = array_of::<4>(slice_subrange(buf, CAP_OFF_CTIME + 4, CAP_OFF_CTIME + 8));
    }
    let stated: usize = buf[CAP_OFF_COMLN] as usize;
    let n: usize = if stated < MAX_COMMENT {
        stated
    } else {
        MAX_COMMENT
    };
    fi.comment = slice_to_vec(slice_subrange(buf, CAP_OFF_COMNT, CAP_OFF_COMNT + n));
    Some(fi)
}

/// Encodes a record.
pub fn encode_cap_info(fi: &HfsInfo) -> (r: [u8; 300])
    ensures
        r@ == record_of(fi@),
{
    let n: usize = if fi.comment.len() < MAX_COMMENT {
        fi.comment.len()
    } else {
        MAX_COMMENT
    };
    let comment = slice_subrange(fi.comment.as_slice(), 0, n);
    assert(comment@ =~= hfs::kept(fi@.comment));
    let mut out: Vec<u8> = Vec::new();
    put_bytes(&mut out, &fi.type_creator);
    put_zeros(&mut out, 26);
    put_bytes(&mut out, &[CAP_MAGIC1, CAP_VERSION, CAP_MAGIC]);
    put_zeros(&mut out, 47);
    out.push(n as u8);
    put_bytes(&mut out, comment);
    put_zeros(&mut out, MAX_COMMENT - n);
    put_bytes(&mut out, &[CAP_DMAGIC, 3]);
    put_bytes(&mut out, &fi.create_time);
    put_bytes(&mut out, &fi.modify_time);
    put_zeros(&mut out, 5);
    assert(out@ =~= record_of(fi@));
    array_of::<300>(out.as_slice())
}

/// A record of which only type and creator are known.
pub open spec fn fresh_record(type_creator: Seq<u8>) -> Seq<u8> {
    type_creator + hfs::zeros(26) + seq![CAP_MAGIC1, CAP_VERSION, CAP_MAGIC] + hfs::zeros(248)
        + seq![CAP_DMAGIC] + hfs::zeros(14)
}

/// The record into which a comment is written: the one that is there, or a fresh one.
pub open spec fn comment_base(path: Seq<u8>, existing: Seq<u8>) -> Seq<u8> {
    if is_record(existing) {
        existing.take(300)
    } else {
        fresh_record(suffix::type_creator_of(path))
    }
}

/// The record once a comment has been written into it. Of a longer comment that was there before,
/// the rest stays, behind what the length covers.
pub open spec fn commented(path: Seq<u8>, existing: Seq<u8>, comment: Seq<u8>) -> Seq<u8> {
    let c = hfs::kept(comment);
    bytes::overwrite(
        bytes::overwrite(comment_base(path, existing), 84, seq![c.len() as u8]),
        85,
        c,
    )
}

/// Writes a comment into the record that a sidecar holds.
pub fn comment_record(path: &[u8], existing: &[u8], comment: &[u8]) -> (r: [u8; 300])
    ensures
        r@ == commented(path@, existing@, comment@),
{
    let n: usize = if comment.len() < MAX_COMMENT {
        comment.len()
    } else {
        MAX_COMMENT
    };
    let kept = slice_subrange(comment, 0, n);
    assert(kept@ =~= hfs::kept(comment@));
    let mut base: Vec<u8> = Vec::new();
    if decode_cap_info(existing).is_some() {
        put_bytes(&mut base, slice_subrange(existing, 0, SIZEOF_CAP_INFO));
    } else {
        put_bytes(&mut base, &suffix_type_creator(path));
        put_zeros(&mut base, 26);
        put_bytes(&mut base, &[CAP_MAGIC1, CAP_VERSION, CAP_MAGIC]);
        put_zeros(&mut base, 248);
        put_bytes(&mut base, &[CAP_DMAGIC]);
        put_zeros(&mut base, 14);
    }
    assert(base@ =~= comment_base(path@, existing@));
    assert(base@.len() == 300);
    let mut out: Vec<u8> = Vec::new();
    put_bytes(&mut out, slice_subrange(base.as_slice(), 0, CAP_OFF_COMLN));
    out.push(n as u8);
    put_bytes(&mut out, kept);
    put_bytes(&mut out, slice_subrange(base.as_slice(), CAP_OFF_COMNT + n, SIZEOF_CAP_INFO));
    assert(out@ =~= commented(path@, existing@, comment@));
    array_of::<300>(out.as_slice())
}

/// A comment that was written reads back, as far as it is kept. Whatever else the record said
/// stays; a record that was not there before says the type and creator that the extension gives,
/// and no dates.
pub proof fn comment_round_trip(path: Seq<u8>, existing: Seq<u8>, comment: Seq<u8>)
    ensures
        commented(path, existing, comment).len() == 300,
        is_record(commented(path, existing, comment)),
        is_record(existing) ==> info_of(commented(path, existing, comment)) == (hfs::HfsView {
            comment: hfs::kept(comment),
            ..info_of(existing)
        }),
        !is_record(existing) ==> info_of(commented(path, existing, comment)) == (hfs::HfsView {
            comment: hfs::kept(comment),
            type_creator: suffix::type_creator_of(path),
            ..hfs::blank()
        }),
{
    let base = comment_base(path, existing);
    let b = commented(path, existing, comment);
    let c = hfs::kept(comment);
    suffix::type_creator_len(path);
    assert(base.len() == 300);
    assert(b[84] == c.len());
    assert(b.subrange(85, 85 + c.len() as int) =~= c);
    assert(b.subrange(0, 8) =~= base.subrange(0, 8));
    assert(b.subrange(287, 291) =~= base.subrange(287, 291));
    assert(b.subrange(291, 295) =~= base.subrange(291, 295));
    if is_record(existing) {
        assert(base.subrange(0, 8) =~= existing.subrange(0, 8));
        assert(base.subrange(287, 291) =~= existing.subrange(287, 291));
        assert(base.subrange(291, 295) =~= existing.subrange(291, 295));
    } else {
        assert(base.subrange(0, 8) =~= suffix::type_creator_of(path));
        assert(base[286] == 0);
        assert(0u8 & 2u8 == 0 && 0u8 & 1u8 == 0) by (bit_vector);
    }
}

// ---------------------------------------------------------------------------------------------
// What every call does, byte for byte.
// ---------------------------------------------------------------------------------------------
/// Where in a record the metadata stand: type and creator first, the length of the comment in byte
/// 84 and the comment behind it, the dates from byte 287 on, both marked as valid. Of the comment,
/// the first two hundred bytes are kept. All other bytes are marks or zero.
pub proof fn record_has_its_places(fi: HfsInfo, r: [u8; 300], i: int)
    requires
        call_ensures(encode_cap_info, (&fi,), r),
        0 <= i < 300,
    ensures
        ({
            let n = fi.comment@.len() as int;
            let kept = if n <= 200 {
                n
            } else {
                200
            };
            &&& i < 8 ==> r@[i] == fi.type_creator@[i]
            &&& r@[34] == 0xff && r@[35] == 0x10 && r@[36] == 0xda
            &&& r@[84] == kept
            &&& 85 <= i < 85 + kept ==> r@[i] == fi.comment@[i - 85]
            &&& r@[285] == 0xda && r@[286] == 3
            &&& 287 <= i < 291 ==> r@[i] == fi.create_time@[i - 287]
            &&& 291 <= i < 295 ==> r@[i] == fi.modify_time@[i - 291]
            &&& 8 <= i < 34 || 37 <= i < 84 || 85 + kept <= i < 285 || 295 <= i ==> r@[i] == 0
        }),
{
    let c = hfs::kept(fi@.comment);
    assert(r@ == record_of(fi@));
}

/// What is read of a record: the bytes from which it is read, and no date that is not marked as
/// valid. Fewer than 300 bytes, or other marks, are no record.
pub proof fn record_is_read_from_its_places(b: &[u8], r: Option<HfsInfo>)
    requires
        call_ensures(decode_cap_info, (b,), r),
    ensures
        r is Some <==> b@.len() >= 300 && b@[34] == 0xff && b@[35] == 0x10 && b@[36] == 0xda,
        r matches Some(fi) ==> {
            let n = if b@[84] <= 200 {
                b@[84] as int
            } else {
                200
            };
            &&& fi.type_creator@ == b@.subrange(0, 8)
            &&& fi.comment@ == b@.subrange(85, 85 + n)
            &&& b@[285] == 0xda && (b@[286] / 2) % 2 == 1 ==> fi.create_time@ == b@.subrange(
                287,
                291,
            )
            &&& b@[285] == 0xda && b@[286] % 2 == 1 ==> fi.modify_time@ == b@.subrange(291, 295)
            &&& b@[285] != 0xda || (b@[286] / 2) % 2 == 0 ==> fi.create_time@ == seq![0u8, 0, 0, 0]
            &&& b@[285] != 0xda || b@[286] % 2 == 0 ==> fi.modify_time@ == seq![0u8, 0, 0, 0]
            &&& fi.rsrclen == 0
        },
{
    if r is Some {
        let v = b@[286];
        assert((v & 2u8 != 0) == ((v / 2) % 2 == 1)) by (bit_vector);
        assert((v & 1u8 != 0) == (v % 2 == 1)) by (bit_vector);
        assert(0u8 & 2u8 == 0 && 0u8 & 1u8 == 0) by (bit_vector);
        assert(hfs::zeros(4) =~= seq![0u8, 0, 0, 0]);
        let fi = r->0;
        assert(fi@ == info_of(b@));
        assert(fi@.create_time == fi.create_time@ && fi@.modify_time == fi.modify_time@);
        assert(fi@.type_creator == fi.type_creator@ && fi@.comment == fi.comment@);
        assert(fi@.rsrclen == fi.rsrclen);
    }
}

/// A comment that is written changes byte 84, which says how long it is, and the bytes behind that
/// which hold it; every other byte of a record that is there stays. A record that was not there has
/// the type and creator of the extension, and no valid date.
pub proof fn comment_changes_its_place_only(
    path: &[u8],
    existing: &[u8],
    comment: &[u8],
    r: [u8; 300],
    tc: [u8; 8],
    i: int,
)
    requires
        call_ensures(comment_record, (path, existing, comment), r),
        call_ensures(suffix_type_creator, (path,), tc),
        0 <= i < 300,
    ensures
        ({
            let n = comment@.len() as int;
            let kept = if n <= 200 {
                n
            } else {
                200
            };
            let there = existing@.len() >= 300 && existing@[34] == 0xff && existing@[35] == 0x10
                && existing@[36] == 0xda;
            &&& r@[84] == kept
            &&& 85 <= i < 85 + kept ==> r@[i] == comment@[i - 85]
            &&& there && (i < 84 || 85 + kept <= i) ==> r@[i] == existing@[i]
            &&& !there && i < 8 ==> r@[i] == tc@[i]
            &&& !there ==> r@[34] == 0xff && r@[35] == 0x10 && r@[36] == 0xda && r@[286] == 0
        }),
{
    suffix::type_creator_len(path@);
    let base = comment_base(path@, existing@);
    let c = hfs::kept(comment@);
    assert(base.len() == 300);
    assert(r@ == commented(path@, existing@, comment@));
}

} // verus!
