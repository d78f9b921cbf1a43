//! The container of the AppleDouble layouts.
//!
//! A container starts with a header: a magic number, a version, and a table of descriptors. Each
//! descriptor says where in the container an entry stands: the comment, the dates, type and
//! creator, the resource fork, or something that is not known here and is left alone.
pub mod laws;

use crate::bytes;
use crate::bytes::{array_of, get16, get32, put16, put32, put_bytes, put_zeros};
use crate::hfs;
use crate::hfs::{Fork, HfsError, HfsInfo, MAX_COMMENT};
use vstd::prelude::*;
use vstd::slice::{slice_subrange, slice_to_vec};

verus! {

/// The resource fork.
pub const HDR_RSRC: u32 = 2;

/// The comment.
pub const HDR_COMNT: u32 = 4;

/// The dates, in containers of the first version.
pub const HDR_OLDI: u32 = 7;

/// The dates.
pub const HDR_DATES: u32 = 8;

/// Type and creator.
pub const HDR_FINFO: u32 = 9;

/// How many descriptors a container may have.
pub const HDR_MAX: u16 = 16;

pub const DBL_MAGIC: u32 = 0x0005_1607;

pub const HDR_VERSION_1: u32 = 0x0001_0000;

pub const HDR_VERSION_2: u32 = 0x0002_0000;

/// How long a descriptor is.
pub const SIZEOF_HDR_DESCR: usize = 12;

/// How long the header is, without the table.
pub const SIZEOF_DBL_HDR: usize = 26;

/// How many bytes at the start of a container hold its header, whatever its table.
pub const HEAD_LEN: usize = 218;

// ---------------------------------------------------------------------------------------------
// The table.
// ---------------------------------------------------------------------------------------------
/// Where an entry stands.
#[derive(Debug, Clone, Copy, PartialEq, Eq, Structural)]
pub struct Descr {
    pub id: u32,
    pub offset: u32,
    pub length: u32,
}

/// The bytes of a descriptor.
pub open spec fn descr_bytes(d: Descr) -> Seq<u8> {
    bytes::be32_bytes(d.id) + bytes::be32_bytes(d.offset) + bytes::be32_bytes(d.length)
}

/// The descriptor at `at`.
pub open spec fn descr_at(b: Seq<u8>, at: int) -> Descr {
    Descr {
        id: bytes::be32_at(b, at),
        offset: bytes::be32_at(b, at + 4),
        length: bytes::be32_at(b, at + 8),
    }
}

impl Descr {
    /// The descriptor that the bytes start with.
    pub fn from_bytes(b: &[u8]) -> (r: Descr)
        requires
            b@.len() >= 12,
        ensures
            r == descr_at(b@, 0),
    {
        Descr { id: get32(b, 0), offset: get32(b, 4), length: get32(b, 8) }
    }

    /// Appends the bytes of the descriptor.
    pub fn write_bytes(&self, out: &mut Vec<u8>)
        ensures
            final(out)@ == old(out)@ + descr_bytes(*self),
    {
        put32(out, self.id);
        put32(out, self.offset);
        put32(out, self.length);
        assert(out@ =~= old(out)@ + descr_bytes(*self));
    }

    /// Where the entry ends.
    pub open spec fn end(self) -> int {
        self.offset + self.length
    }
}

/// Where the header of a container with `n` descriptors ends.
pub open spec fn table_end(n: int) -> int {
    26 + 12 * n
}

/// An entry with dates, or with type and creator.
pub open spec fn is_metadata(id: u32) -> bool {
    id == HDR_OLDI || id == HDR_DATES || id == HDR_FINFO
}

/// What is wrong with a descriptor in a table of `n`, in a container of `file_len` bytes. An empty
/// entry may point anywhere: it has no bytes.
pub open spec fn entry_error(d: Descr, n: int, file_len: int) -> Option<HfsError> {
    if is_metadata(d.id) && d.length < 8 {
        Some(HfsError::MetadataTooShort)
    } else if d.length > 0 && (d.offset < table_end(n) || d.end() > file_len) {
        Some(HfsError::OutsideContainer)
    } else {
        None
    }
}

/// The first error among the first `k` descriptors.
pub open spec fn first_error(t: Seq<Descr>, k: int, file_len: int) -> Option<HfsError>
    decreases k,
{
    if k <= 0 {
        None
    } else {
        match first_error(t, k - 1, file_len) {
            Some(e) => Some(e),
            None => entry_error(t[k - 1], t.len() as int, file_len),
        }
    }
}

/// Two entries share no byte.
pub open spec fn apart(a: Descr, b: Descr) -> bool {
    a.length == 0 || b.length == 0 || a.end() <= b.offset || b.end() <= a.offset
}

/// No two entries share a byte.
pub open spec fn all_apart(t: Seq<Descr>) -> bool {
    forall|i: int, j: int| #![trigger t[i], t[j]] 0 <= i < j < t.len() ==> apart(t[i], t[j])
}

/// What is wrong with a table.
pub open spec fn table_error(t: Seq<Descr>, file_len: int) -> Option<HfsError> {
    match first_error(t, t.len() as int, file_len) {
        Some(e) => Some(e),
        None => if all_apart(t) {
            None
        } else {
            Some(HfsError::Overlap)
        },
    }
}

proof fn lemma_first_error(t: Seq<Descr>, k: int, file_len: int)
    requires
        0 <= k <= t.len(),
    ensures
        first_error(t, k, file_len) is None <==> (forall|i: int|
            #![trigger t[i]]
            0 <= i < k ==> entry_error(t[i], t.len() as int, file_len) is None),
    decreases k,
{
    if k > 0 {
        lemma_first_error(t, k - 1, file_len);
        assert(first_error(t, k, file_len) is None ==> entry_error(
            t[k - 1],
            t.len() as int,
            file_len,
        ) is None);
    }
}

/// A table is in order exactly if each entry is, on its own, and no two share a byte.
pub proof fn table_in_order(t: Seq<Descr>, file_len: int)
    ensures
        table_error(t, file_len) is None <==> all_apart(t) && forall|i: int|
            #![trigger t[i]]
            0 <= i < t.len() ==> entry_error(t[i], t.len() as int, file_len) is None,
{
    lemma_first_error(t, t.len() as int, file_len);
}

fn are_apart(a: &Descr, b: &Descr) -> (r: bool)
    ensures
        r == apart(*a, *b),
{
    a.length == 0 || b.length == 0 || a.offset as u64 + a.length as u64 <= b.offset as u64
        || b.offset as u64 + b.length as u64 <= a.offset as u64
}

/// Checks a table against the container that it describes. Entries of metadata must be long enough;
/// every entry that has bytes must have them behind the table and inside the container, and share
/// none.
pub fn validate_descrs(descrs: &[Descr], file_len: u64) -> (r: Result<(), HfsError>)
    ensures
        match r {
            Ok(_) => table_error(descrs@, file_len as int) is None,
            Err(e) => table_error(descrs@, file_len as int) == Some(e),
        },
{
    let ghost n = descrs@.len() as int;
    let end: u128 = SIZEOF_DBL_HDR as u128 + SIZEOF_HDR_DESCR as u128 * descrs.len() as u128;
    let mut k: usize = 0;
    while k < descrs.len()
        invariant
            n == descrs@.len(),
            k <= n,
            end == table_end(n),
            first_error(descrs@, k as int, file_len as int) is None,
        decreases n - k,
    {
        let d = descrs[k];
        let ghost e = entry_error(d, n, file_len as int);
        proof {
            assert(first_error(descrs@, k + 1, file_len as int) == e);
            if e is Some {
                lemma_first_stays(descrs@, k + 1, n, file_len as int);
            }
        }
        if (d.id == HDR_OLDI || d.id == HDR_DATES || d.id == HDR_FINFO) && d.length < 8 {
            return Err(HfsError::MetadataTooShort);
        }
        if d.length > 0 && ((d.offset as u128) < end || d.offset as u64 + d.length as u64
            > file_len) {
            return Err(HfsError::OutsideContainer);
        }
        k = k + 1;
    }
    let mut i: usize = 0;
    while i < descrs.len()
        invariant
            n == descrs@.len(),
            i <= n,
            first_error(descrs@, n, file_len as int) is None,
            forall|a: int, b: int|
                #![trigger descrs@[a], descrs@[b]]
                0 <= a < i && a < b < n ==> apart(descrs@[a], descrs@[b]),
        decreases n - i,
    {
        let mut j: usize = i + 1;
        while j < descrs.len()
            invariant
                n == descrs@.len(),
                i < j <= n,
                first_error(descrs@, n, file_len as int) is None,
                forall|b: int|
                    #![trigger descrs@[b]]
                    i < b < j ==> apart(descrs@[i as int], descrs@[b]),
            decreases n - j,
        {
            if !are_apart(&descrs[i], &descrs[j]) {
                assert(!apart(descrs@[i as int], descrs@[j as int]));
                return Err(HfsError::Overlap);
            }
            j = j + 1;
        }
        i = i + 1;
    }
    Ok(())
}

proof fn lemma_first_stays(t: Seq<Descr>, k: int, n: int, file_len: int)
    requires
        0 <= k <= n,
        first_error(t, k, file_len) is Some,
    ensures
        first_error(t, n, file_len) == first_error(t, k, file_len),
    decreases n - k,
{
    if k < n {
        lemma_first_stays(t, k, n - 1, file_len);
    }
}

/// The table that the bytes at the start of a container hold.
pub open spec fn table_at(head: Seq<u8>) -> Seq<Descr> {
    Seq::new(bytes::be16_at(head, 24) as nat, |i: int| descr_at(head, table_end(i)))
}

/// The table of a container of `file_len` bytes that starts with `head`. An empty file has none.
pub open spec fn table_of(head: Seq<u8>, file_len: int) -> Result<Option<Seq<Descr>>, HfsError> {
    if file_len == 0 {
        Ok(None)
    } else if file_len < 26 || head.len() < 26 {
        Err(HfsError::TruncatedHeader)
    } else if bytes::be32_at(head, 0) != DBL_MAGIC || (bytes::be32_at(head, 4) != HDR_VERSION_1
        && bytes::be32_at(head, 4) != HDR_VERSION_2) {
        Err(HfsError::BadMagicOrVersion)
    } else if bytes::be16_at(head, 24) > 16 {
        Err(HfsError::TooManyDescriptors)
    } else if file_len < table_end(bytes::be16_at(head, 24) as int) || head.len() < table_end(
        bytes::be16_at(head, 24) as int,
    ) {
        Err(HfsError::TruncatedTable)
    } else {
        match table_error(table_at(head), file_len) {
            Some(e) => Err(e),
            None => Ok(Some(table_at(head))),
        }
    }
}

/// Reads and checks the table of a container of `file_len` bytes. `head` is what the container
/// starts with: [`HEAD_LEN`] bytes of it, or all if it is shorter.
pub fn read_dbl_descrs(head: &[u8], file_len: u64) -> (r: Result<Option<Vec<Descr>>, HfsError>)
    ensures
        table_of(head@, file_len as int) == (match r {
            Ok(Some(t)) => Ok(Some(t@)),
            Ok(None) => Ok(None),
            Err(e) => Err(e),
        }),
        r matches Ok(Some(t)) ==> t@.len() <= 16,
{
    if file_len == 0 {
        return Ok(None);
    }
    if file_len < SIZEOF_DBL_HDR as u64 || head.len() < SIZEOF_DBL_HDR {
        return Err(HfsError::TruncatedHeader);
    }
    let version: u32 = get32(head, 4);
    if get32(head, 0) != DBL_MAGIC || (version != HDR_VERSION_1 && version != HDR_VERSION_2) {
        return Err(HfsError::BadMagicOrVersion);
    }
    let entries: u16 = get16(head, 24);
    if entries > HDR_MAX {
        return Err(HfsError::TooManyDescriptors);
    }
    let end: usize = SIZEOF_DBL_HDR + SIZEOF_HDR_DESCR * entries as usize;
    if file_len < end as u64 || head.len() < end {
        return Err(HfsError::TruncatedTable);
    }
    let mut out: Vec<Descr> = Vec::new();
    let mut i: usize = 0;
    while i < entries as usize
        invariant
            i <= entries <= 16,
            head@.len() >= table_end(entries as int),
            out@ =~= Seq::new(i as nat, |k: int| descr_at(head@, table_end(k))),
        decreases entries - i,
    {
        let at: usize = SIZEOF_DBL_HDR + SIZEOF_HDR_DESCR * i;
        let entry = slice_subrange(head, at, at + SIZEOF_HDR_DESCR);
        proof {
            assert(entry@.subrange(0, 4) =~= head@.subrange(at as int, at + 4));
            assert(entry@.subrange(4, 8) =~= head@.subrange(at + 4, at + 8));
            assert(entry@.subrange(8, 12) =~= head@.subrange(at + 8, at + 12));
        }
        out.push(Descr::from_bytes(entry));
        i = i + 1;
    }
    assert(out@ =~= table_at(head@));
    match validate_descrs(out.as_slice(), file_len) {
        Ok(_) => Ok(Some(out)),
        Err(e) => Err(e),
    }
}

// ---------------------------------------------------------------------------------------------
// Reading.
// ---------------------------------------------------------------------------------------------
/// How many bytes of an entry are read.
pub open spec fn wanted_of(d: Descr) -> int {
    if d.id == HDR_COMNT {
        hfs::kept_len(d.length as int)
    } else if is_metadata(d.id) {
        8
    } else {
        0
    }
}

/// How many bytes of an entry are read.
pub fn wanted(d: &Descr) -> (r: usize)
    ensures
        r == wanted_of(*d),
{
    if d.id == HDR_COMNT {
        if (d.length as u64) < MAX_COMMENT as u64 {
            d.length as usize
        } else {
            MAX_COMMENT
        }
    } else if d.id == HDR_OLDI || d.id == HDR_DATES || d.id == HDR_FINFO {
        8
    } else {
        0
    }
}

/// What was read of the entries, one after the other; `None` for one that was cut short.
pub open spec fn piece_views(pieces: Seq<Option<Vec<u8>>>) -> Seq<Option<Seq<u8>>> {
    Seq::new(
        pieces.len(),
        |i: int|
            match pieces[i] {
                Some(v) => Some(v@),
                None => None,
            },
    )
}

/// What was read of an entry, if it is all that was wanted.
pub open spec fn piece(t: Seq<Descr>, pieces: Seq<Option<Seq<u8>>>, i: int) -> Option<Seq<u8>> {
    if i < pieces.len() {
        match pieces[i] {
            Some(p) => if p.len() == wanted_of(t[i]) {
                Some(p)
            } else {
                None
            },
            None => None,
        }
    } else {
        None
    }
}

/// What an entry adds to what is known.
pub open spec fn told(fi: hfs::HfsView, d: Descr, p: Option<Seq<u8>>) -> hfs::HfsView {
    if d.id == HDR_RSRC {
        hfs::HfsView { rsrclen: d.length as u64, ..fi }
    } else {
        match p {
            Some(p) => if d.id == HDR_COMNT {
                hfs::HfsView { comment: p, ..fi }
            } else if d.id == HDR_OLDI || d.id == HDR_DATES {
                hfs::HfsView {
                    create_time: p.subrange(0, 4),
                    modify_time: p.subrange(4, 8),
                    ..fi
                }
            } else if d.id == HDR_FINFO {
                hfs::HfsView { type_creator: p, ..fi }
            } else {
                fi
            },
            None => fi,
        }
    }
}

/// What the first `k` entries say.
pub open spec fn told_by(t: Seq<Descr>, pieces: Seq<Option<Seq<u8>>>, k: int) -> hfs::HfsView
    decreases k,
{
    if k <= 0 {
        hfs::blank()
    } else {
        told(told_by(t, pieces, k - 1), t[k - 1], piece(t, pieces, k - 1))
    }
}

fn usable<'a>(descrs: &[Descr], pieces: &'a [Option<Vec<u8>>], i: usize) -> (r: Option<&'a [u8]>)
    requires
        i < descrs@.len(),
    ensures
        piece(descrs@, piece_views(pieces@), i as int) == (match r {
            Some(p) => Some(p@),
            None => None,
        }),
{
    if i >= pieces.len() {
        return None;
    }
    match &pieces[i] {
        Some(v) => {
            if v.len() == wanted(&descrs[i]) {
                Some(v.as_slice())
            } else {
                None
            }
        },
        None => None,
    }
}

/// What the entries say, given what was read of each.
pub fn read_dbl_info(descrs: &[Descr], pieces: &[Option<Vec<u8>>]) -> (r: HfsInfo)
    ensures
        r@ == told_by(descrs@, piece_views(pieces@), descrs@.len() as int),
{
    let mut fi = HfsInfo::default();
    let mut i: usize = 0;
    while i < descrs.len()
        invariant
            i <= descrs@.len(),
            fi@ == told_by(descrs@, piece_views(pieces@), i as int),
        decreases descrs@.len() - i,
    {
        let d = descrs[i];
        let p = usable(descrs, pieces, i);
        i = i + 1;
        if d.id == HDR_RSRC {
            fi.rsrclen = d.length as u64;
        } else if let Some(p) = p {
            if d.id == HDR_COMNT {
                fi.comment = slice_to_vec(p);
            } else if d.id == HDR_OLDI || d.id == HDR_DATES {
                fi.create_time = array_of::<4>(slice_subrange(p, 0, 4));
                fi.modify_time = array_of::<4>(slice_subrange(p, 4, 8));
            } else if d.id == HDR_FINFO {
                fi.type_creator = array_of::<8>(p);
            }
        }
    }
    fi
}

/// The first descriptor with this id from `from` on, or -1.
pub open spec fn first_with(t: Seq<Descr>, id: u32, from: int) -> int
    decreases t.len() - from,
{
    if from >= t.len() {
        -1
    } else if t[from].id == id {
        from
    } else {
        first_with(t, id, from + 1)
    }
}

/// The first descriptor with this id.
pub fn find_descr(descrs: &[Descr], id: u32) -> (r: Option<usize>)
    ensures
        match r {
            Some(i) => i < descrs@.len() && i == first_with(descrs@, id, 0),
            None => first_with(descrs@, id, 0) == -1,
        },
{
    let mut i: usize = 0;
    while i < descrs.len()
        invariant
            i <= descrs@.len(),
            first_with(descrs@, id, i as int) == first_with(descrs@, id, 0),
        decreases descrs@.len() - i,
    {
        if descrs[i].id == id {
            return Some(i);
        }
        i = i + 1;
    }
    None
}

/// The type and creator that a container holds, if it does.
pub open spec fn type_creator_in(t: Seq<Descr>, pieces: Seq<Option<Seq<u8>>>) -> Option<Seq<u8>> {
    let i = first_with(t, HDR_FINFO, 0);
    if i < 0 {
        None
    } else {
        piece(t, pieces, i)
    }
}

/// The type and creator that a container holds, if it does.
pub fn dbl_type_creator(descrs: &[Descr], pieces: &[Option<Vec<u8>>]) -> (r: Option<[u8; 8]>)
    ensures
        type_creator_in(descrs@, piece_views(pieces@)) == (match r {
            Some(tc) => Some(tc@),
            None => None,
        }),
{
    proof {
        lemma_first_with(descrs@, HDR_FINFO, 0);
    }
    let i: usize = find_descr(descrs, HDR_FINFO)?;
    let p = usable(descrs, pieces, i)?;
    Some(array_of::<8>(p))
}

proof fn lemma_first_with(t: Seq<Descr>, id: u32, from: int)
    requires
        0 <= from <= t.len(),
    ensures
        first_with(t, id, from) == -1 || (from <= first_with(t, id, from) < t.len() && t[first_with(
            t,
            id,
            from,
        )].id == id),
    decreases t.len() - from,
{
    if from < t.len() && t[from].id != id {
        lemma_first_with(t, id, from + 1);
    }
}

/// The length of the comment by the last descriptor that has one, in the first `k`.
pub open spec fn comment_len_in(t: Seq<Descr>, k: int) -> int
    decreases k,
{
    if k <= 0 {
        0
    } else if t[k - 1].id == HDR_COMNT {
        hfs::kept_len(t[k - 1].length as int)
    } else {
        comment_len_in(t, k - 1)
    }
}

/// The length of the comment by the last descriptor that has one.
pub fn dbl_comment_len(descrs: &[Descr]) -> (r: usize)
    ensures
        r == comment_len_in(descrs@, descrs@.len() as int),
{
    let mut k: usize = descrs.len();
    while k > 0
        invariant
            k <= descrs@.len(),
            comment_len_in(descrs@, k as int) == comment_len_in(descrs@, descrs@.len() as int),
        decreases k,
    {
        k = k - 1;
        if descrs[k].id == HDR_COMNT {
            return wanted(&descrs[k]);
        }
    }
    0
}

// ---------------------------------------------------------------------------------------------
// Writing.
// ---------------------------------------------------------------------------------------------
/// Bytes to write, and where.
#[derive(Debug, Clone, PartialEq, Eq)]
pub struct Edit {
    pub offset: u64,
    pub data: Vec<u8>,
}

/// What an [`Edit`] says.
pub struct EditView {
    pub offset: int,
    pub data: Seq<u8>,
}

impl View for Edit {
    type V = EditView;

    open spec fn view(&self) -> EditView {
        EditView { offset: self.offset as int, data: self.data@ }
    }
}

/// What the edits say.
pub open spec fn edit_views(edits: Seq<Edit>) -> Seq<EditView> {
    Seq::new(edits.len(), |i: int| edits[i]@)
}

/// Bytes to copy from the old container to the new one.
#[derive(Debug, Clone, Copy, PartialEq, Eq, Structural)]
pub struct CopyRange {
    pub from: u64,
    pub to: u64,
    pub len: u64,
}

/// The version of a layout.
pub open spec fn version_of(fork: Fork) -> u32 {
    if fork == Fork::Netatalk {
        HDR_VERSION_1
    } else {
        HDR_VERSION_2
    }
}

/// The bytes of a table.
pub open spec fn table_bytes(t: Seq<Descr>) -> Seq<u8>
    decreases t.len(),
{
    if t.len() == 0 {
        Seq::empty()
    } else {
        table_bytes(t.drop_last()) + descr_bytes(t.last())
    }
}

/// The first bytes of a header.
pub open spec fn header_front(fork: Fork, n: u16) -> Seq<u8> {
    bytes::be32_bytes(DBL_MAGIC) + bytes::be32_bytes(version_of(fork)) + hfs::zeros(16)
        + bytes::be16_bytes(n)
}

/// The header of a container.
pub open spec fn header_bytes(fork: Fork, t: Seq<Descr>) -> Seq<u8> {
    header_front(fork, t.len() as u16) + table_bytes(t)
}

/// What is written into an entry: nothing, where it is the fork or is not known here.
pub open spec fn payload_of(d: Descr, fi: hfs::HfsView) -> Seq<u8> {
    if d.id == HDR_COMNT {
        hfs::kept(fi.comment)
    } else if d.id == HDR_OLDI || d.id == HDR_DATES {
        fi.create_time + fi.modify_time
    } else if d.id == HDR_FINFO {
        fi.type_creator
    } else {
        Seq::empty()
    }
}

/// An entry into which something is written.
pub open spec fn is_written(id: u32) -> bool {
    id == HDR_COMNT || is_metadata(id)
}

/// What is written into the first `k` entries, in order.
pub open spec fn payload_edits(t: Seq<Descr>, fi: hfs::HfsView, k: int) -> Seq<EditView>
    decreases k,
{
    if k <= 0 {
        Seq::empty()
    } else if is_written(t[k - 1].id) {
        payload_edits(t, fi, k - 1).push(
            EditView { offset: t[k - 1].offset as int, data: payload_of(t[k - 1], fi) },
        )
    } else {
        payload_edits(t, fi, k - 1)
    }
}

/// What is written into the entries, and at last the header.
pub open spec fn entry_edits(fork: Fork, t: Seq<Descr>, fi: hfs::HfsView) -> Seq<EditView> {
    payload_edits(t, fi, t.len() as int).push(EditView { offset: 0, data: header_bytes(fork, t) })
}

fn header(fork: Fork, descrs: &[Descr]) -> (r: Vec<u8>)
    requires
        descrs@.len() <= 16,
    ensures
        r@ == header_bytes(fork, descrs@),
{
    let version: u32 = if fork == Fork::Netatalk {
        HDR_VERSION_1
    } else {
        HDR_VERSION_2
    };
    let mut out: Vec<u8> = Vec::new();
    put32(&mut out, DBL_MAGIC);
    put32(&mut out, version);
    put_zeros(&mut out, 16);
    put16(&mut out, descrs.len() as u16);
    let ghost front = header_front(fork, descrs@.len() as u16);
    assert(out@ =~= front);
    let mut i: usize = 0;
    assert(descrs@.take(0) =~= Seq::<Descr>::empty());
    assert(out@ =~= front + table_bytes(descrs@.take(0)));
    while i < descrs.len()
        invariant
            i <= descrs@.len(),
            out@ == front + table_bytes(descrs@.take(i as int)),
        decreases descrs@.len() - i,
    {
        descrs[i].write_bytes(&mut out);
        i = i + 1;
        assert(descrs@.take(i as int).drop_last() =~= descrs@.take(i - 1));
        assert(out@ =~= front + table_bytes(descrs@.take(i as int)));
    }
    assert(descrs@.take(descrs@.len() as int) =~= descrs@);
    out
}

/// What of the comment is written.
fn comment_kept(fi: &HfsInfo) -> (r: &[u8])
    ensures
        r@ == hfs::kept(fi@.comment),
{
    let n: usize = if fi.comment.len() < MAX_COMMENT {
        fi.comment.len()
    } else {
        MAX_COMMENT
    };
    let r = slice_subrange(fi.comment.as_slice(), 0, n);
    assert(r@ =~= hfs::kept(fi@.comment));
    r
}

/// What to write into the entries, and at last the header.
pub fn write_dbl_entries(fork: Fork, descrs: &[Descr], fi: &HfsInfo) -> (r: Vec<Edit>)
    requires
        descrs@.len() <= 16,
    ensures
        edit_views(r@) == entry_edits(fork, descrs@, fi@),
{
    let mut out: Vec<Edit> = Vec::new();
    assert(edit_views(out@) =~= payload_edits(descrs@, fi@, 0));
    let mut i: usize = 0;
    while i < descrs.len()
        invariant
            i <= descrs@.len(),
            edit_views(out@) == payload_edits(descrs@, fi@, i as int),
        decreases descrs@.len() - i,
    {
        let d = descrs[i];
        let ghost before = out@;
        let mut data: Vec<u8> = Vec::new();
        if d.id == HDR_COMNT {
            put_bytes(&mut data, comment_kept(fi));
        } else if d.id == HDR_OLDI || d.id == HDR_DATES {
            put_bytes(&mut data, &fi.create_time);
            put_bytes(&mut data, &fi.modify_time);
        } else if d.id == HDR_FINFO {
            put_bytes(&mut data, &fi.type_creator);
        }
        assert(data@ =~= payload_of(d, fi@));
        if d.id == HDR_COMNT || d.id == HDR_OLDI || d.id == HDR_DATES || d.id == HDR_FINFO {
            let e = Edit { offset: d.offset as u64, data };
            out.push(e);
            assert(edit_views(out@) =~= edit_views(before).push(e@));
        }
        i = i + 1;
    }
    let ghost before = out@;
    let e = Edit { offset: 0, data: header(fork, descrs) };
    out.push(e);
    assert(edit_views(out@) =~= edit_views(before).push(e@));
    out
}

/// The table of a new container: comment, dates, type and creator one after the other, and at the
/// end, where it can grow, an empty fork.
pub open spec fn fresh_table(comlen: u32) -> Seq<Descr> {
    seq![
        Descr { id: HDR_COMNT, offset: 74, length: comlen },
        Descr { id: HDR_DATES, offset: (74 + comlen) as u32, length: 8 },
        Descr { id: HDR_FINFO, offset: (82 + comlen) as u32, length: 8 },
        Descr { id: HDR_RSRC, offset: (90 + comlen) as u32, length: 0 },
    ]
}

/// The table of a new container.
pub fn fresh_dbl_descrs(comlen: u32) -> (r: Vec<Descr>)
    requires
        comlen <= 200,
    ensures
        r@ == fresh_table(comlen),
{
    let base: u32 = 74;
    let mut out: Vec<Descr> = Vec::new();
    out.push(Descr { id: HDR_COMNT, offset: base, length: comlen });
    out.push(Descr { id: HDR_DATES, offset: base + comlen, length: 8 });
    out.push(Descr { id: HDR_FINFO, offset: base + comlen + 8, length: 8 });
    out.push(Descr { id: HDR_RSRC, offset: base + comlen + 8 + 8, length: 0 });
    assert(out@ =~= fresh_table(comlen));
    out
}

// ---------------------------------------------------------------------------------------------
// A new layout.
// ---------------------------------------------------------------------------------------------
/// The length of an entry once the comment has another one.
pub open spec fn new_length(d: Descr, comlen: u32) -> u32 {
    if d.id == HDR_COMNT {
        comlen
    } else {
        d.length
    }
}

/// How long those of the first `k` entries are that are forks, or that are not.
pub open spec fn packed_len(t: Seq<Descr>, comlen: u32, forks: bool, k: int) -> int
    decreases k,
{
    if k <= 0 {
        0
    } else if (t[k - 1].id == HDR_RSRC) == forks {
        packed_len(t, comlen, forks, k - 1) + new_length(t[k - 1], comlen)
    } else {
        packed_len(t, comlen, forks, k - 1)
    }
}

/// Where an entry is packed: in the order of the table, but the forks last, so that they can grow.
pub open spec fn packed_offset(t: Seq<Descr>, comlen: u32, i: int) -> int {
    let n = t.len() as int;
    if t[i].id == HDR_RSRC {
        table_end(n) + packed_len(t, comlen, false, n) + packed_len(t, comlen, true, i)
    } else {
        table_end(n) + packed_len(t, comlen, false, i)
    }
}

/// Every entry can be placed.
pub open spec fn can_pack(t: Seq<Descr>, comlen: u32) -> bool {
    forall|i: int|
        #![trigger t[i]]
        0 <= i < t.len() ==> packed_offset(t, comlen, i) <= u32::MAX
}

/// The table of the new layout.
pub open spec fn packed_table(t: Seq<Descr>, comlen: u32) -> Seq<Descr> {
    Seq::new(
        t.len(),
        |i: int|
            Descr {
                id: t[i].id,
                offset: packed_offset(t, comlen, i) as u32,
                length: new_length(t[i], comlen),
            },
    )
}

/// What is copied of the first `k` entries: all but the comment, which is written anew.
pub open spec fn copies_of(t: Seq<Descr>, placed: Seq<Descr>, k: int) -> Seq<CopyRange>
    decreases k,
{
    if k <= 0 {
        Seq::empty()
    } else if placed[k - 1].id == HDR_COMNT || placed[k - 1].length == 0 {
        copies_of(t, placed, k - 1)
    } else {
        copies_of(t, placed, k - 1).push(
            CopyRange {
                from: t[k - 1].offset as u64,
                to: placed[k - 1].offset as u64,
                len: placed[k - 1].length as u64,
            },
        )
    }
}

/// Packing more entries takes no less room.
pub proof fn lemma_packed_len(t: Seq<Descr>, comlen: u32, forks: bool, j: int, k: int)
    requires
        0 <= j <= k <= t.len(),
    ensures
        0 <= packed_len(t, comlen, forks, j) <= packed_len(t, comlen, forks, k),
        packed_len(t, comlen, forks, k) <= k * u32::MAX,
    decreases k,
{
    if k > 0 {
        if j < k {
            lemma_packed_len(t, comlen, forks, j, k - 1);
        } else {
            lemma_packed_len(t, comlen, forks, k - 1, k - 1);
        }
        assert(k * u32::MAX == (k - 1) * u32::MAX + u32::MAX) by (nonlinear_arith);
    }
}

/// Places the entries for a comment of `comlen` bytes.
pub fn pack_descrs(descrs: &[Descr], comlen: u32) -> (r: Result<Vec<Descr>, HfsError>)
    requires
        descrs@.len() <= 16,
    ensures
        match r {
            Ok(t) => can_pack(descrs@, comlen) && t@ == packed_table(descrs@, comlen),
            Err(e) => !can_pack(descrs@, comlen) && e == HfsError::RelayoutTooLong,
        },
{
    let ghost t = descrs@;
    let ghost n = t.len() as int;
    // How far the entries before the forks reach.
    let mut plain: u64 = (SIZEOF_DBL_HDR + SIZEOF_HDR_DESCR * descrs.len()) as u64;
    let mut k: usize = 0;
    while k < descrs.len()
        invariant
            t == descrs@,
            n == t.len() <= 16,
            k <= n,
            plain == table_end(n) + packed_len(t, comlen, false, k as int),
        decreases n - k,
    {
        proof {
            lemma_packed_len(t, comlen, false, k as int, k as int);
        }
        let d = descrs[k];
        if d.id == HDR_COMNT {
            plain = plain + comlen as u64;
        } else if d.id != HDR_RSRC {
            plain = plain + d.length as u64;
        }
        k = k + 1;
    }
    let mut out: Vec<Descr> = Vec::new();
    let mut next: u64 = (SIZEOF_DBL_HDR + SIZEOF_HDR_DESCR * descrs.len()) as u64;
    let mut next_fork: u64 = plain;
    let mut i: usize = 0;
    while i < descrs.len()
        invariant
            t == descrs@,
            n == t.len() <= 16,
            i <= n,
            plain == table_end(n) + packed_len(t, comlen, false, n),
            next == table_end(n) + packed_len(t, comlen, false, i as int),
            next_fork == plain + packed_len(t, comlen, true, i as int),
            out@.len() == i,
            forall|j: int| 0 <= j < i ==> out@[j] == packed_table(t, comlen)[j],
            forall|j: int| #![trigger t[j]] 0 <= j < i ==> packed_offset(t, comlen, j) <= u32::MAX,
        decreases n - i,
    {
        proof {
            lemma_packed_len(t, comlen, false, i as int, i as int);
            lemma_packed_len(t, comlen, false, n, n);
            lemma_packed_len(t, comlen, true, i as int, i as int);
        }
        let d = descrs[i];
        let at: u64 = if d.id == HDR_RSRC {
            next_fork
        } else {
            next
        };
        assert(at == packed_offset(t, comlen, i as int));
        if at > u32::MAX as u64 {
            assert(packed_offset(t, comlen, i as int) > u32::MAX);
            assert(!can_pack(t, comlen)) by {
                assert(t[i as int] == d);
            }
            return Err(HfsError::RelayoutTooLong);
        }
        let length: u32 = if d.id == HDR_COMNT {
            comlen
        } else {
            d.length
        };
        out.push(Descr { id: d.id, offset: at as u32, length });
        if d.id == HDR_RSRC {
            next_fork = next_fork + length as u64;
        } else {
            next = next + length as u64;
        }
        i = i + 1;
    }
    assert(out@ =~= packed_table(t, comlen));
    Ok(out)
}

fn copies(descrs: &[Descr], placed: &[Descr]) -> (r: Vec<CopyRange>)
    requires
        descrs@.len() == placed@.len(),
    ensures
        r@ == copies_of(descrs@, placed@, descrs@.len() as int),
{
    let mut out: Vec<CopyRange> = Vec::new();
    let mut k: usize = 0;
    while k < descrs.len()
        invariant
            descrs@.len() == placed@.len(),
            k <= descrs@.len(),
            out@ == copies_of(descrs@, placed@, k as int),
        decreases descrs@.len() - k,
    {
        let to = placed[k];
        if to.id != HDR_COMNT && to.length != 0 {
            out.push(
                CopyRange {
                    from: descrs[k].offset as u64,
                    to: to.offset as u64,
                    len: to.length as u64,
                },
            );
        }
        k = k + 1;
    }
    out
}

// ---------------------------------------------------------------------------------------------
// What to write.
// ---------------------------------------------------------------------------------------------
/// How a sidecar is brought up to date.
#[derive(Debug, Clone, PartialEq, Eq)]
pub enum SidecarWrite {
    /// By these writes, in order, into the file as it is.
    InPlace(Vec<Edit>),
    /// By a new file, which takes these copies out of the old one and then these writes, and which
    /// replaces the old one once it is complete.
    Rewrite { copies: Vec<CopyRange>, edits: Vec<Edit> },
}

/// The length of the fork, if a descriptor can state it.
pub fn descriptor_rsrclen(fi: &HfsInfo) -> (r: Result<u32, HfsError>)
    ensures
        match r {
            Ok(n) => n == fi.rsrclen,
            Err(e) => fi.rsrclen > u32::MAX && e == HfsError::ForkTooLong,
        },
{
    if fi.rsrclen > u32::MAX as u64 {
        return Err(HfsError::ForkTooLong);
    }
    Ok(fi.rsrclen as u32)
}

/// The table with the new length of the fork.
pub open spec fn with_rsrclen(t: Seq<Descr>, rsrclen: u32) -> Seq<Descr> {
    Seq::new(
        t.len(),
        |i: int|
            if t[i].id == HDR_RSRC {
                Descr { length: rsrclen, ..t[i] }
            } else {
                t[i]
            },
    )
}

/// Some comment of the table has another length than `comlen`.
pub open spec fn comment_moves(t: Seq<Descr>, comlen: u32) -> bool {
    exists|i: int|
        #![trigger t[i]]
        0 <= i < t.len() && t[i].id == HDR_COMNT && t[i].length != comlen
}

/// Why metadata cannot be written into a container with this table, or into a new one.
pub open spec fn write_error(
    stored: Option<Seq<Descr>>,
    file_len: int,
    fi: hfs::HfsView,
) -> Option<HfsError> {
    let comlen = hfs::kept(fi.comment).len() as u32;
    if fi.rsrclen > u32::MAX {
        Some(HfsError::ForkTooLong)
    } else {
        match stored {
            None => if fi.rsrclen != 0 {
                Some(HfsError::NoBackingBytes)
            } else {
                None
            },
            Some(t) => {
                let t = with_rsrclen(t, fi.rsrclen as u32);
                if fi.rsrclen != 0 && first_with(t, HDR_RSRC, 0) < 0 {
                    Some(HfsError::NoForkDescriptor)
                } else {
                    match table_error(t, file_len) {
                        Some(e) => Some(e),
                        None => if comment_moves(t, comlen) && !can_pack(t, comlen) {
                            Some(HfsError::RelayoutTooLong)
                        } else {
                            None
                        },
                    }
                }
            },
        }
    }
}

/// The table of a container into which metadata have been written.
pub open spec fn written_table(stored: Option<Seq<Descr>>, fi: hfs::HfsView) -> Seq<Descr> {
    let comlen = hfs::kept(fi.comment).len() as u32;
    match stored {
        None => fresh_table(comlen),
        Some(t) => {
            let t = with_rsrclen(t, fi.rsrclen as u32);
            if comment_moves(t, comlen) {
                packed_table(t, comlen)
            } else {
                t
            }
        },
    }
}

/// `w` writes metadata into a container with this table, or into a new one.
pub open spec fn is_write(
    w: SidecarWrite,
    fork: Fork,
    stored: Option<Seq<Descr>>,
    fi: hfs::HfsView,
) -> bool {
    let comlen = hfs::kept(fi.comment).len() as u32;
    let placed = written_table(stored, fi);
    let moves = match stored {
        None => false,
        Some(t) => comment_moves(with_rsrclen(t, fi.rsrclen as u32), comlen),
    };
    match w {
        SidecarWrite::InPlace(edits) => !moves && edit_views(edits@) == entry_edits(
            fork,
            placed,
            fi,
        ),
        SidecarWrite::Rewrite { copies, edits } => {
            &&& moves
            &&& stored is Some
            &&& copies@ == copies_of(stored->0, placed, placed.len() as int)
            &&& edit_views(edits@) == entry_edits(fork, placed, fi)
        },
    }
}

fn moves_comment(descrs: &[Descr], comlen: u32) -> (r: bool)
    ensures
        r == comment_moves(descrs@, comlen),
{
    let mut i: usize = 0;
    while i < descrs.len()
        invariant
            i <= descrs@.len(),
            forall|j: int|
                #![trigger descrs@[j]]
                0 <= j < i ==> !(descrs@[j].id == HDR_COMNT && descrs@[j].length != comlen),
        decreases descrs@.len() - i,
    {
        if descrs[i].id == HDR_COMNT && descrs[i].length != comlen {
            assert(descrs@[i as int].id == HDR_COMNT);
            return true;
        }
        i = i + 1;
    }
    false
}

/// Lays a container out anew, since its comment changes in length and what follows it cannot move
/// in place. Entries that are not known here, and what the known ones hold beyond what is written,
/// are copied as they are.
pub fn relayout_dbl(fork: Fork, descrs: &[Descr], fi: &HfsInfo, comlen: u32) -> (r: Result<
    SidecarWrite,
    HfsError,
>)
    requires
        descrs@.len() <= 16,
    ensures
        match r {
            Ok(SidecarWrite::Rewrite { copies, edits }) => {
                let placed = packed_table(descrs@, comlen);
                &&& can_pack(descrs@, comlen)
                &&& copies@ == copies_of(descrs@, placed, placed.len() as int)
                &&& edit_views(edits@) == entry_edits(fork, placed, fi@)
            },
            Ok(_) => false,
            Err(e) => !can_pack(descrs@, comlen) && e == HfsError::RelayoutTooLong,
        },
{
    match pack_descrs(descrs, comlen) {
        Ok(placed) => Ok(
            SidecarWrite::Rewrite {
                copies: copies(descrs, placed.as_slice()),
                edits: write_dbl_entries(fork, placed.as_slice(), fi),
            },
        ),
        Err(e) => Err(e),
    }
}

/// What to write into a container of `file_len` bytes with this table, or into a new one, so that
/// it holds the metadata. The length of the fork is taken as it is: a fork is recorded once its
/// bytes are there.
pub fn write_dbl_info(
    fork: Fork,
    stored: Option<&[Descr]>,
    file_len: u64,
    fi: &HfsInfo,
) -> (r: Result<SidecarWrite, HfsError>)
    requires
        stored matches Some(t) ==> t@.len() <= 16,
    ensures
        ({
            let t = match stored {
                Some(t) => Some(t@),
                None => None,
            };
            match r {
                Ok(w) => write_error(t, file_len as int, fi@) is None && is_write(
                    w,
                    fork,
                    t,
                    fi@,
                ),
                Err(e) => write_error(t, file_len as int, fi@) == Some(e),
            }
        }),
{
    let rsrclen: u32 = match descriptor_rsrclen(fi) {
        Ok(n) => n,
        Err(e) => {
            return Err(e);
        },
    };
    let comlen: u32 = comment_kept(fi).len() as u32;
    let old = match stored {
        Some(t) => t,
        None => {
            if rsrclen != 0 {
                return Err(HfsError::NoBackingBytes);
            }
            let fresh = fresh_dbl_descrs(comlen);
            return Ok(SidecarWrite::InPlace(write_dbl_entries(fork, fresh.as_slice(), fi)));
        },
    };
    let mut descrs: Vec<Descr> = Vec::new();
    let mut i: usize = 0;
    while i < old.len()
        invariant
            i <= old@.len(),
            descrs@.len() == i,
            forall|j: int| 0 <= j < i ==> descrs@[j] == with_rsrclen(old@, rsrclen)[j],
        decreases old@.len() - i,
    {
        let mut d = old[i];
        if d.id == HDR_RSRC {
            d.length = rsrclen;
        }
        descrs.push(d);
        i = i + 1;
    }
    assert(descrs@ =~= with_rsrclen(old@, rsrclen));
    proof {
        lemma_first_with(descrs@, HDR_RSRC, 0);
    }
    if rsrclen != 0 && find_descr(descrs.as_slice(), HDR_RSRC).is_none() {
        return Err(HfsError::NoForkDescriptor);
    }
    match validate_descrs(descrs.as_slice(), file_len) {
        Ok(_) => {},
        Err(e) => {
            return Err(e);
        },
    }
    if moves_comment(descrs.as_slice(), comlen) {
        proof {
            lemma_copies(old@, descrs@, packed_table(descrs@, comlen), descrs@.len() as int);
        }
        return relayout_dbl(fork, descrs.as_slice(), fi, comlen);
    }
    Ok(SidecarWrite::InPlace(write_dbl_entries(fork, descrs.as_slice(), fi)))
}

proof fn lemma_copies(a: Seq<Descr>, b: Seq<Descr>, placed: Seq<Descr>, k: int)
    requires
        k <= a.len(),
        a.len() == b.len(),
        forall|i: int| #![trigger a[i]] 0 <= i < a.len() ==> a[i].offset == b[i].offset,
    ensures
        copies_of(a, placed, k) == copies_of(b, placed, k),
    decreases k,
{
    if k > 0 {
        lemma_copies(a, b, placed, k - 1);
        assert(a[k - 1].offset == b[k - 1].offset);
    }
}

// ---------------------------------------------------------------------------------------------
// What every call does, in numbers.
// ---------------------------------------------------------------------------------------------
/// A descriptor is three numbers of four bytes: id, offset and length.
pub proof fn descriptors_are_three_numbers(b: &[u8], r: Descr, d: Descr, out: &mut Vec<u8>)
    requires
        b@.len() >= 12,
        call_ensures(Descr::from_bytes, (b,), r),
        call_ensures(Descr::write_bytes, (&d, out), ()),
    ensures
        r.id == bytes::be32_at(b@, 0),
        r.offset == bytes::be32_at(b@, 4),
        r.length == bytes::be32_at(b@, 8),
        final(out)@ == old(out)@ + bytes::be32_bytes(d.id) + bytes::be32_bytes(d.offset)
            + bytes::be32_bytes(d.length),
{
    assert(old(out)@ + descr_bytes(d) =~= old(out)@ + bytes::be32_bytes(d.id) + bytes::be32_bytes(
        d.offset,
    ) + bytes::be32_bytes(d.length));
}

/// A table is accepted exactly if entries of dates, type and creator have eight bytes at least, and
/// entries that have bytes have them behind the header, inside the file and to themselves.
pub proof fn accepted_tables(t: &[Descr], file_len: u64, r: Result<(), HfsError>)
    requires
        call_ensures(validate_descrs, (t, file_len), r),
    ensures
        r is Ok <==> {
            &&& forall|i: int|
                #![trigger t@[i]]
                0 <= i < t@.len() ==> {
                    &&& t@[i].id == 7 || t@[i].id == 8 || t@[i].id == 9 ==> t@[i].length >= 8
                    &&& t@[i].length > 0 ==> 26 + 12 * t@.len() <= t@[i].offset && t@[i].offset
                        + t@[i].length <= file_len
                }
            &&& forall|i: int, j: int|
                #![trigger t@[i], t@[j]]
                0 <= i < j < t@.len() && t@[i].length > 0 && t@[j].length > 0 ==> t@[i].offset
                    + t@[i].length <= t@[j].offset || t@[j].offset + t@[j].length <= t@[i].offset
        },
        r matches Err(e) ==> e == HfsError::MetadataTooShort || e == HfsError::OutsideContainer
            || e == HfsError::Overlap,
{
    table_in_order(t@, file_len as int);
    lemma_errors(t@, t@.len() as int, file_len as int);
    if r is Ok {
        assert forall|i: int| #![trigger t@[i]] 0 <= i < t@.len() implies {
            &&& t@[i].id == 7 || t@[i].id == 8 || t@[i].id == 9 ==> t@[i].length >= 8
            &&& t@[i].length > 0 ==> 26 + 12 * t@.len() <= t@[i].offset && t@[i].offset
                + t@[i].length <= file_len
        } by {
            assert(entry_error(t@[i], t@.len() as int, file_len as int) is None);
        }
        assert forall|i: int, j: int|
            #![trigger t@[i], t@[j]]
            0 <= i < j < t@.len() && t@[i].length > 0 && t@[j].length > 0 implies t@[i].offset
            + t@[i].length <= t@[j].offset || t@[j].offset + t@[j].length <= t@[i].offset by {
            assert(apart(t@[i], t@[j]));
        }
    }
}

proof fn lemma_errors(t: Seq<Descr>, k: int, file_len: int)
    ensures
        first_error(t, k, file_len) matches Some(e) ==> e == HfsError::MetadataTooShort || e
            == HfsError::OutsideContainer,
    decreases k,
{
    if k > 0 {
        lemma_errors(t, k - 1, file_len);
    }
}

/// What a container has to start with: the magic number, one of two versions, the number of its
/// descriptors in bytes 24 and 25, at most sixteen, and from byte 26 on the descriptors, twelve
/// bytes each. An empty file has no table.
pub proof fn tables_are_read(head: &[u8], file_len: u64, r: Result<Option<Vec<Descr>>, HfsError>)
    requires
        call_ensures(read_dbl_descrs, (head, file_len), r),
    ensures
        file_len == 0 <==> r matches Ok(None),
        r matches Ok(Some(t)) ==> {
            &&& head@.len() >= 26 + 12 * t@.len() && file_len >= 26 + 12 * t@.len()
            &&& bytes::be32_at(head@, 0) == 0x0005_1607
            &&& bytes::be32_at(head@, 4) == 0x0001_0000 || bytes::be32_at(head@, 4) == 0x0002_0000
            &&& t@.len() == bytes::be16_at(head@, 24) && t@.len() <= 16
            &&& forall|i: int|
                #![trigger t@[i]]
                0 <= i < t@.len() ==> {
                    &&& t@[i].id == bytes::be32_at(head@, 26 + 12 * i)
                    &&& t@[i].offset == bytes::be32_at(head@, 30 + 12 * i)
                    &&& t@[i].length == bytes::be32_at(head@, 34 + 12 * i)
                }
        },
        file_len > 0 && (file_len < 26 || head@.len() < 26) <==> r == Err::<
            Option<Vec<Descr>>,
            HfsError,
        >(HfsError::TruncatedHeader),
        file_len >= 26 && head@.len() >= 26 && bytes::be32_at(head@, 0) != 0x0005_1607 ==> r
            == Err::<Option<Vec<Descr>>, HfsError>(HfsError::BadMagicOrVersion),
        r == Err::<Option<Vec<Descr>>, HfsError>(HfsError::TooManyDescriptors) ==> bytes::be16_at(
            head@,
            24,
        ) > 16,
{
    if file_len >= 26 && head@.len() >= 26 {
        table_in_order(table_at(head@), file_len as int);
        lemma_errors(table_at(head@), table_at(head@).len() as int, file_len as int);
    }
    if let Ok(Some(t)) = r {
        assert(t@ == table_at(head@));
        assert forall|i: int| #![trigger t@[i]] 0 <= i < t@.len() implies {
            &&& t@[i].id == bytes::be32_at(head@, 26 + 12 * i)
            &&& t@[i].offset == bytes::be32_at(head@, 30 + 12 * i)
            &&& t@[i].length == bytes::be32_at(head@, 34 + 12 * i)
        } by {
            assert(t@[i] == descr_at(head@, table_end(i)));
        }
    }
}

/// What entries say, each by the last of its kind: the comment by entry 4, the dates by entry 7 or
/// 8, the date of creation first, type and creator by entry 9, and the length of the fork by the
/// length of entry 2. What no entry says is zero or empty.
pub proof fn last_entry_says(
    t: &[Descr],
    pieces: &[Option<Vec<u8>>],
    r: HfsInfo,
    i: int,
)
    requires
        call_ensures(read_dbl_info, (t, pieces), r),
        0 <= i < t@.len(),
    ensures
        ({
            let said = i < pieces@.len() && pieces@[i] is Some;
            let p = pieces@[i]->0@;
            &&& t@[i].id == 2 && only(t@, i, 2, 2) ==> r.rsrclen == t@[i].length
            &&& t@[i].id == 4 && only(t@, i, 4, 4) && said && p.len() == t@[i].length && p.len()
                <= 200 ==> r.comment@ == p
            &&& t@[i].id == 4 && only(t@, i, 4, 4) && said && p.len() == 200 && t@[i].length > 200
                ==> r.comment@ == p
            &&& (t@[i].id == 7 || t@[i].id == 8) && only(t@, i, 7, 8) && said && p.len() == 8
                ==> r.create_time@ == p.subrange(0, 4) && r.modify_time@ == p.subrange(4, 8)
            &&& t@[i].id == 9 && only(t@, i, 9, 9) && said && p.len() == 8 ==> r.type_creator@ == p
        }),
{
    let n = t@.len() as int;
    let ps = piece_views(pieces@);
    assert(r@.create_time == r.create_time@ && r@.modify_time == r.modify_time@);
    assert(r@.type_creator == r.type_creator@ && r@.comment == r.comment@);
    assert(r@.rsrclen == r.rsrclen);
    lemma_told(t@, ps, i, n);
    if i < pieces@.len() {
        assert(ps[i] == (match pieces@[i] {
            Some(v) => Some(v@),
            None => None,
        }));
    }
}

/// Behind entry `i` no entry has one of two ids.
pub open spec fn only(t: Seq<Descr>, i: int, a: u32, b: u32) -> bool {
    forall|j: int| i < j < t.len() ==> (#[trigger] t[j]).id != a && t[j].id != b
}

proof fn lemma_told(t: Seq<Descr>, ps: Seq<Option<Seq<u8>>>, i: int, k: int)
    requires
        0 <= i < k <= t.len(),
    ensures
        ({
            let seen = told_by(t, ps, k);
            let at = told(told_by(t, ps, i), t[i], piece(t, ps, i));
            &&& only(t, i, 2, 2) ==> seen.rsrclen == at.rsrclen
            &&& only(t, i, 4, 4) ==> seen.comment == at.comment
            &&& only(t, i, 7, 8) ==> seen.create_time == at.create_time && seen.modify_time
                == at.modify_time
            &&& only(t, i, 9, 9) ==> seen.type_creator == at.type_creator
        }),
    decreases k,
{
    if k > i + 1 {
        lemma_told(t, ps, i, k - 1);
        assert(only(t, i, 2, 2) ==> t[k - 1].id != 2);
        assert(only(t, i, 4, 4) ==> t[k - 1].id != 4);
        assert(only(t, i, 7, 8) ==> t[k - 1].id != 7 && t[k - 1].id != 8);
        assert(only(t, i, 9, 9) ==> t[k - 1].id != 9);
    }
}

/// A container without entries says nothing, and an entry that could not be read adds nothing.
pub proof fn unread_entries_say_nothing(t: &[Descr], pieces: &[Option<Vec<u8>>], r: HfsInfo)
    requires
        call_ensures(read_dbl_info, (t, pieces), r),
    ensures
        pieces@.len() == 0 ==> r.comment@.len() == 0 && r.create_time@ == seq![0u8, 0, 0, 0]
            && r.modify_time@ == seq![0u8, 0, 0, 0] && r.type_creator@ == seq![
            0u8,
            0,
            0,
            0,
            0,
            0,
            0,
            0,
        ],
        (forall|i: int| 0 <= i < t@.len() ==> (#[trigger] t@[i]).id != 2) ==> r.rsrclen == 0,
{
    assert(r@.create_time == r.create_time@ && r@.modify_time == r.modify_time@);
    assert(r@.type_creator == r.type_creator@ && r@.comment == r.comment@);
    assert(r@.rsrclen == r.rsrclen);
    assert(hfs::zeros(4) =~= seq![0u8, 0, 0, 0]);
    assert(hfs::zeros(8) =~= seq![0u8, 0, 0, 0, 0, 0, 0, 0]);
    lemma_unread(t@, piece_views(pieces@), t@.len() as int);
}

proof fn lemma_unread(t: Seq<Descr>, ps: Seq<Option<Seq<u8>>>, k: int)
    requires
        0 <= k <= t.len(),
    ensures
        ({
            let seen = told_by(t, ps, k);
            &&& ps.len() == 0 ==> seen.comment == Seq::<u8>::empty() && seen.create_time
                == hfs::zeros(4) && seen.modify_time == hfs::zeros(4) && seen.type_creator
                == hfs::zeros(8)
            &&& (forall|i: int| 0 <= i < t.len() ==> (#[trigger] t[i]).id != 2) ==> seen.rsrclen
                == 0
        }),
    decreases k,
{
    if k > 0 {
        lemma_unread(t, ps, k - 1);
        assert((forall|i: int| 0 <= i < t.len() ==> (#[trigger] t[i]).id != 2) ==> t[k - 1].id
            != 2);
    }
}

/// How much of an entry is read: eight bytes of dates, type and creator, of a comment what it has
/// and at most two hundred bytes, and nothing of the fork or of what is not known.
pub proof fn bytes_of_entries(d: Descr, r: usize)
    requires
        call_ensures(wanted, (&d,), r),
    ensures
        d.id == 7 || d.id == 8 || d.id == 9 ==> r == 8,
        d.id == 4 && d.length <= 200 ==> r == d.length,
        d.id == 4 && d.length > 200 ==> r == 200,
        d.id != 4 && d.id != 7 && d.id != 8 && d.id != 9 ==> r == 0,
{
}

/// The type and creator of a container are the eight bytes of its first entry for them.
pub proof fn first_type_entry_says(
    t: &[Descr],
    pieces: &[Option<Vec<u8>>],
    r: Option<[u8; 8]>,
    i: int,
)
    requires
        call_ensures(dbl_type_creator, (t, pieces), r),
    ensures
        (forall|k: int| 0 <= k < t@.len() ==> (#[trigger] t@[k]).id != 9) ==> r is None,
        0 <= i < t@.len() && t@[i].id == 9 && (forall|k: int|
            0 <= k < i ==> (#[trigger] t@[k]).id != 9) ==> {
            let said = i < pieces@.len() && pieces@[i] is Some && pieces@[i]->0@.len() == 8;
            &&& r is Some <==> said
            &&& r matches Some(tc) ==> tc@ == pieces@[i]->0@
        },
{
    lemma_first_type(t@, i, 0);
    let ps = piece_views(pieces@);
    if 0 <= i < pieces@.len() {
        assert(ps[i] == (match pieces@[i] {
            Some(v) => Some(v@),
            None => None,
        }));
    }
}

proof fn lemma_first_type(t: Seq<Descr>, i: int, from: int)
    requires
        0 <= from <= t.len(),
    ensures
        (forall|k: int| from <= k < t.len() ==> (#[trigger] t[k]).id != 9) ==> first_with(
            t,
            HDR_FINFO,
            from,
        ) < 0,
        from <= i < t.len() && t[i].id == 9 && (forall|k: int|
            from <= k < i ==> (#[trigger] t[k]).id != 9) ==> first_with(t, HDR_FINFO, from) == i,
    decreases t.len() - from,
{
    if from < t.len() {
        lemma_first_type(t, i, from + 1);
    }
}

/// The comment of a container is as long as its last entry for one says, two hundred bytes at most,
/// and zero without such an entry.
pub proof fn last_comment_entry_says(t: &[Descr], r: usize, i: int)
    requires
        call_ensures(dbl_comment_len, (t,), r),
    ensures
        (forall|k: int| 0 <= k < t@.len() ==> (#[trigger] t@[k]).id != 4) ==> r == 0,
        0 <= i < t@.len() && t@[i].id == 4 && only(t@, i, 4, 4) ==> r == (if t@[i].length <= 200 {
            t@[i].length as int
        } else {
            200
        }),
{
    lemma_last_comment(t@, i, t@.len() as int);
}

proof fn lemma_last_comment(t: Seq<Descr>, i: int, k: int)
    requires
        0 <= k <= t.len(),
    ensures
        (forall|j: int| 0 <= j < t.len() ==> (#[trigger] t[j]).id != 4) ==> comment_len_in(t, k)
            == 0,
        0 <= i < k && t[i].id == 4 && only(t, i, 4, 4) ==> comment_len_in(t, k) == hfs::kept_len(
            t[i].length as int,
        ),
    decreases k,
{
    if k > 0 {
        lemma_last_comment(t, i, k - 1);
        assert(i < k - 1 && only(t, i, 4, 4) ==> t[k - 1].id != 4);
    }
}

/// A new container: comment, dates, type and creator follow each other without gaps behind the
/// header of four descriptors, and an empty fork ends it.
pub proof fn new_containers_are_packed(comlen: u32, r: Vec<Descr>)
    requires
        comlen <= 200,
        call_ensures(fresh_dbl_descrs, (comlen,), r),
    ensures
        r@.len() == 4,
        r@[0].id == 4 && r@[1].id == 8 && r@[2].id == 9 && r@[3].id == 2,
        r@[0].offset == 26 + 12 * 4,
        r@[0].length == comlen && r@[1].length == 8 && r@[2].length == 8 && r@[3].length == 0,
        r@[1].offset == r@[0].offset + r@[0].length,
        r@[2].offset == r@[1].offset + r@[1].length,
        r@[3].offset == r@[2].offset + r@[2].length,
{
}

/// What is written into entries: at the offset of each known entry what it is for, and at last, at
/// the start, the header. Nothing is written into the fork or into what is not known.
pub proof fn entries_are_written(fork: Fork, t: &[Descr], fi: HfsInfo, r: Vec<Edit>, i: int)
    requires
        t@.len() <= 16,
        call_ensures(write_dbl_entries, (fork, t, &fi), r),
        0 <= i < t@.len(),
    ensures
        ({
            let id = t@[i].id;
            let known = id == 4 || id == 7 || id == 8 || id == 9;
            &&& known ==> exists|k: int|
                0 <= k < r@.len() - 1 && (#[trigger] r@[k]).offset == t@[i].offset && {
                    &&& id == 4 && fi.comment@.len() <= 200 ==> r@[k].data@ == fi.comment@
                    &&& id == 4 && fi.comment@.len() > 200 ==> r@[k].data@ == fi.comment@.take(200)
                    &&& id == 7 || id == 8 ==> r@[k].data@ == fi.create_time@ + fi.modify_time@
                    &&& id == 9 ==> r@[k].data@ == fi.type_creator@
                }
            &&& r@.len() > 0 && r@.last().offset == 0
        }),
{
    let v = edit_views(r@);
    let n = t@.len() as int;
    assert(v == entry_edits(fork, t@, fi@));
    assert(v.len() == r@.len());
    assert(fi@.create_time == fi.create_time@ && fi@.modify_time == fi.modify_time@);
    assert(fi@.type_creator == fi.type_creator@ && fi@.comment == fi.comment@);
    if fi.comment@.len() <= 200 {
        assert(hfs::kept(fi.comment@) =~= fi.comment@);
    }
    assert(v.last() == r@.last()@);
    if is_written(t@[i].id) {
        lemma_written(t@, fi@, i, n);
        let k = choose|k: int|
            0 <= k < payload_edits(t@, fi@, n).len() && (#[trigger] payload_edits(t@, fi@, n)[k])
                == (EditView { offset: t@[i].offset as int, data: payload_of(t@[i], fi@) });
        assert(v[k] == payload_edits(t@, fi@, n)[k]);
        assert(v[k] == r@[k]@);
        assert(r@[k].offset == t@[i].offset);
    }
}

proof fn lemma_written(t: Seq<Descr>, fi: hfs::HfsView, i: int, k: int)
    requires
        0 <= i < k <= t.len(),
        is_written(t[i].id),
    ensures
        exists|j: int|
            0 <= j < payload_edits(t, fi, k).len() && (#[trigger] payload_edits(t, fi, k)[j]) == (
            EditView { offset: t[i].offset as int, data: payload_of(t[i], fi) }),
    decreases k,
{
    let now = payload_edits(t, fi, k);
    let before = payload_edits(t, fi, k - 1);
    if i == k - 1 {
        assert(now[before.len() as int] == (EditView {
            offset: t[i].offset as int,
            data: payload_of(t[i], fi),
        }));
    } else {
        lemma_written(t, fi, i, k - 1);
        let j = choose|j: int|
            0 <= j < before.len() && (#[trigger] before[j]) == (EditView {
                offset: t[i].offset as int,
                data: payload_of(t[i], fi),
            });
        assert(now[j] == before[j]);
    }
}

/// The header that is written: magic number, version by the layout, sixteen zero bytes, the number
/// of descriptors, and the descriptors in their order.
pub proof fn headers_are_written(fork: Fork, t: &[Descr], fi: HfsInfo, r: Vec<Edit>, i: int)
    requires
        t@.len() <= 16,
        call_ensures(write_dbl_entries, (fork, t, &fi), r),
        0 <= i < t@.len(),
    ensures
        ({
            let h = r@.last().data@;
            &&& h.len() == 26 + 12 * t@.len()
            &&& bytes::be32_at(h, 0) == 0x0005_1607
            &&& fork == Fork::Netatalk ==> bytes::be32_at(h, 4) == 0x0001_0000
            &&& fork != Fork::Netatalk ==> bytes::be32_at(h, 4) == 0x0002_0000
            &&& forall|k: int| 8 <= k < 24 ==> #[trigger] h[k] == 0
            &&& bytes::be16_at(h, 24) == t@.len()
            &&& bytes::be32_at(h, 26 + 12 * i) == t@[i].id
            &&& bytes::be32_at(h, 30 + 12 * i) == t@[i].offset
            &&& bytes::be32_at(h, 34 + 12 * i) == t@[i].length
        }),
{
    let v = edit_views(r@);
    let n = t@.len() as int;
    assert(v == entry_edits(fork, t@, fi@));
    assert(v.len() == r@.len());
    assert(v.last() == r@.last()@);
    let h = r@.last().data@;
    assert(h == header_bytes(fork, t@));
    let front = header_front(fork, n as u16);
    lemma_front(fork, n as u16);
    lemma_table_bytes(t@, i, n);
    assert(t@.take(n) =~= t@);
    let tb = table_bytes(t@);
    assert(h.subrange(0, 4) =~= front.subrange(0, 4));
    assert(h.subrange(4, 8) =~= front.subrange(4, 8));
    assert(h.subrange(24, 26) =~= front.subrange(24, 26));
    assert forall|k: int| 8 <= k < 24 implies #[trigger] h[k] == 0 by {
        assert(h[k] == front[k]);
    }
    let d = tb.subrange(12 * i, 12 * i + 12);
    let w = descr_bytes(t@[i]);
    bytes::be32_round_trip(t@[i].id, Seq::empty());
    bytes::be32_round_trip(t@[i].offset, Seq::empty());
    bytes::be32_round_trip(t@[i].length, Seq::empty());
    assert(h.subrange(26 + 12 * i, 30 + 12 * i) =~= d.subrange(0, 4));
    assert(h.subrange(30 + 12 * i, 34 + 12 * i) =~= d.subrange(4, 8));
    assert(h.subrange(34 + 12 * i, 38 + 12 * i) =~= d.subrange(8, 12));
    assert(w.subrange(0, 4) =~= bytes::be32_bytes(t@[i].id));
    assert(w.subrange(4, 8) =~= bytes::be32_bytes(t@[i].offset));
    assert(w.subrange(8, 12) =~= bytes::be32_bytes(t@[i].length));
}

proof fn lemma_front(fork: Fork, n: u16)
    ensures
        ({
            let f = header_front(fork, n);
            &&& f.len() == 26
            &&& bytes::be32_at(f, 0) == 0x0005_1607
            &&& bytes::be32_at(f, 4) == version_of(fork)
            &&& bytes::be16_at(f, 24) == n
            &&& forall|k: int| 8 <= k < 24 ==> #[trigger] f[k] == 0
        }),
{
    let f = header_front(fork, n);
    bytes::be32_round_trip(DBL_MAGIC, Seq::empty());
    bytes::be32_round_trip(version_of(fork), Seq::empty());
    bytes::be16_round_trip(n, Seq::empty());
    assert(f.subrange(0, 4) =~= bytes::be32_bytes(DBL_MAGIC));
    assert(f.subrange(4, 8) =~= bytes::be32_bytes(version_of(fork)));
    assert(f.subrange(24, 26) =~= bytes::be16_bytes(n));
}

proof fn lemma_table_bytes(t: Seq<Descr>, i: int, k: int)
    requires
        0 <= i < k <= t.len(),
    ensures
        table_bytes(t.take(k)).len() == 12 * k,
        table_bytes(t.take(k)).subrange(12 * i, 12 * i + 12) == descr_bytes(t[i]),
    decreases k,
{
    let now = t.take(k);
    let before = t.take(k - 1);
    assert(now.drop_last() =~= before);
    bytes::be32_round_trip(t[k - 1].id, Seq::empty());
    bytes::be32_round_trip(t[k - 1].offset, Seq::empty());
    bytes::be32_round_trip(t[k - 1].length, Seq::empty());
    let b = table_bytes(now);
    if i < k - 1 {
        lemma_table_bytes(t, i, k - 1);
        assert(b.subrange(12 * i, 12 * i + 12) =~= table_bytes(before).subrange(
            12 * i,
            12 * i + 12,
        ));
    } else {
        if k > 1 {
            lemma_table_bytes(t, 0, k - 1);
        } else {
            assert(table_bytes(before) =~= Seq::<u8>::empty());
        }
        assert(b.subrange(12 * i, 12 * i + 12) =~= descr_bytes(t[i]));
    }
}

/// A new layout keeps the entries, their order in the table and their lengths, but for the comment,
/// which gets its new one. In the file they follow the header without gaps, in their order, and the
/// forks stand behind all others, so that they can grow.
pub proof fn new_layouts_are_packed(
    t: &[Descr],
    comlen: u32,
    p: Vec<Descr>,
    i: int,
    j: int,
)
    requires
        t@.len() <= 16,
        call_ensures(pack_descrs, (t, comlen), Ok(p)),
        0 <= i < t@.len(),
        0 <= j < t@.len(),
        i != j,
    ensures
        p@.len() == t@.len(),
        p@[i].id == t@[i].id,
        t@[i].id == 4 ==> p@[i].length == comlen,
        t@[i].id != 4 ==> p@[i].length == t@[i].length,
        p@[i].offset >= 26 + 12 * t@.len(),
        i < j && (t@[i].id == 2 <==> t@[j].id == 2) ==> p@[i].offset + p@[i].length
            <= p@[j].offset,
        t@[i].id != 2 && t@[j].id == 2 ==> p@[i].offset + p@[i].length <= p@[j].offset,
        p@[i].offset == 26 + 12 * t@.len() || exists|k: int|
            0 <= k < p@.len() && k != i && (#[trigger] p@[k]).offset + p@[k].length
                == p@[i].offset,
{
    let n = t@.len() as int;
    let s = t@;
    assert(p@ == packed_table(s, comlen));
    assert(packed_offset(s, comlen, i) <= u32::MAX) by {
        assert(s[i] == t@[i]);
    }
    assert(packed_offset(s, comlen, j) <= u32::MAX) by {
        assert(s[j] == t@[j]);
    }
    let fi = s[i].id == 2;
    let fj = s[j].id == 2;
    lemma_packed_len(s, comlen, false, 0, i);
    lemma_packed_len(s, comlen, true, 0, i);
    lemma_packed_len(s, comlen, false, i, n);
    lemma_packed_len(s, comlen, false, i + 1, n);
    lemma_packed_len(s, comlen, true, 0, j);
    if i < j {
        lemma_packed_len(s, comlen, false, i + 1, j);
        lemma_packed_len(s, comlen, true, i + 1, j);
    }
    lemma_no_gap(s, comlen, i);
    if packed_offset(s, comlen, i) != table_end(n) {
        let k = choose|k: int|
            0 <= k < n && k != i && packed_offset(s, comlen, k) + new_length(
                #[trigger] s[k],
                comlen,
            ) == packed_offset(s, comlen, i);
        assert(packed_offset(s, comlen, k) <= u32::MAX) by {
            assert(s[k] == t@[k]);
        }
        lemma_packed_len(s, comlen, false, 0, k);
        lemma_packed_len(s, comlen, false, 0, n);
        lemma_packed_len(s, comlen, true, 0, k);
        assert(p@[k].offset == packed_offset(s, comlen, k));
        assert(p@[k].length == new_length(s[k], comlen));
        assert(p@[i].offset == packed_offset(s, comlen, i));
        assert(p@[k].offset + p@[k].length == p@[i].offset);
    }
}

/// The last entry of a kind in the first `k` ends where that many take up their room.
proof fn lemma_previous(s: Seq<Descr>, comlen: u32, forks: bool, k: int)
    requires
        0 <= k <= s.len(),
    ensures
        packed_len(s, comlen, forks, k) == 0 || exists|j: int|
            0 <= j < k && (#[trigger] s[j].id == HDR_RSRC) == forks && packed_len(
                s,
                comlen,
                forks,
                j,
            ) + new_length(s[j], comlen) == packed_len(s, comlen, forks, k),
    decreases k,
{
    if k > 0 {
        if (s[k - 1].id == HDR_RSRC) == forks {
            assert(packed_len(s, comlen, forks, k - 1) + new_length(s[k - 1], comlen)
                == packed_len(s, comlen, forks, k));
        } else {
            lemma_previous(s, comlen, forks, k - 1);
        }
    }
}

proof fn lemma_no_gap(s: Seq<Descr>, comlen: u32, i: int)
    requires
        0 <= i < s.len(),
    ensures
        packed_offset(s, comlen, i) == table_end(s.len() as int) || exists|k: int|
            0 <= k < s.len() && k != i && packed_offset(s, comlen, k) + new_length(
                #[trigger] s[k],
                comlen,
            ) == packed_offset(s, comlen, i),
{
    let n = s.len() as int;
    let fork = s[i].id == HDR_RSRC;
    lemma_previous(s, comlen, fork, i);
    if packed_len(s, comlen, fork, i) != 0 {
        let j = choose|j: int|
            0 <= j < i && (#[trigger] s[j].id == HDR_RSRC) == fork && packed_len(
                s,
                comlen,
                fork,
                j,
            ) + new_length(s[j], comlen) == packed_len(s, comlen, fork, i);
        assert(packed_offset(s, comlen, j) + new_length(s[j], comlen) == packed_offset(
            s,
            comlen,
            i,
        ));
    } else if fork {
        lemma_previous(s, comlen, false, n);
        if packed_len(s, comlen, false, n) != 0 {
            let j = choose|j: int|
                0 <= j < n && (#[trigger] s[j].id == HDR_RSRC) == false && packed_len(
                    s,
                    comlen,
                    false,
                    j,
                ) + new_length(s[j], comlen) == packed_len(s, comlen, false, n);
            assert(packed_offset(s, comlen, j) + new_length(s[j], comlen) == packed_offset(
                s,
                comlen,
                i,
            ));
        }
    }
}

/// A rewrite copies every entry but the comment from where it stood to where it will stand, in full,
/// and copies nothing else.
pub proof fn rewrites_copy_entries(
    fork: Fork,
    t: &[Descr],
    fi: HfsInfo,
    comlen: u32,
    copies: Vec<CopyRange>,
    edits: Vec<Edit>,
    p: Vec<Descr>,
    i: int,
    c: int,
)
    requires
        t@.len() <= 16,
        call_ensures(
            relayout_dbl,
            (fork, t, &fi, comlen),
            Ok(SidecarWrite::Rewrite { copies, edits }),
        ),
        call_ensures(pack_descrs, (t, comlen), Ok(p)),
        0 <= i < t@.len(),
        0 <= c < copies@.len(),
    ensures
        t@[i].id != 4 && t@[i].length > 0 ==> copies@.contains(
            CopyRange {
                from: t@[i].offset as u64,
                to: p@[i].offset as u64,
                len: t@[i].length as u64,
            },
        ),
        exists|k: int|
            0 <= k < t@.len() && (#[trigger] t@[k]).id != 4 && copies@[c].from == t@[k].offset
                && copies@[c].to == p@[k].offset && copies@[c].len == t@[k].length,
{
    let n = t@.len() as int;
    assert(p@ == packed_table(t@, comlen));
    lemma_copied_ranges(t@, p@, n, i, c);
}

proof fn lemma_copied_ranges(t: Seq<Descr>, p: Seq<Descr>, k: int, i: int, c: int)
    requires
        0 <= k <= t.len(),
        t.len() == p.len(),
        forall|j: int| #![trigger p[j]] 0 <= j < t.len() ==> p[j].id == t[j].id,
        forall|j: int|
            #![trigger p[j]]
            0 <= j < t.len() && p[j].id != 4 ==> p[j].length == t[j].length,
    ensures
        0 <= i < k && t[i].id != 4 && t[i].length > 0 ==> copies_of(t, p, k).contains(
            CopyRange {
                from: t[i].offset as u64,
                to: p[i].offset as u64,
                len: t[i].length as u64,
            },
        ),
        0 <= c < copies_of(t, p, k).len() ==> exists|j: int|
            0 <= j < k && (#[trigger] t[j]).id != 4 && copies_of(t, p, k)[c].from == t[j].offset
                && copies_of(t, p, k)[c].to == p[j].offset && copies_of(t, p, k)[c].len
                == t[j].length,
    decreases k,
{
    if k > 0 {
        let now = copies_of(t, p, k);
        let before = copies_of(t, p, k - 1);
        lemma_copied_ranges(t, p, k - 1, i, c);
        assert(p[k - 1].id == t[k - 1].id);
        if 0 <= i < k - 1 && t[i].id != 4 && t[i].length > 0 {
            let want = CopyRange {
                from: t[i].offset as u64,
                to: p[i].offset as u64,
                len: t[i].length as u64,
            };
            let x = choose|x: int| 0 <= x < before.len() && before[x] == want;
            assert(now[x] == want);
        } else if i == k - 1 && t[i].id != 4 && t[i].length > 0 {
            assert(now[before.len() as int].from == t[i].offset);
            assert(now.contains(now[before.len() as int]));
        }
        if 0 <= c < now.len() {
            if c < before.len() {
                assert(now[c] == before[c]);
            } else {
                assert(t[k - 1].id != 4);
            }
        }
    }
}

/// What cannot be written: a fork that 32 bits cannot count, a fork in a new container, which has
/// no bytes of it yet, and a fork in a container that has no entry for it.
pub proof fn forks_have_to_be_there(
    fork: Fork,
    stored: Option<&[Descr]>,
    file_len: u64,
    fi: HfsInfo,
    r: Result<SidecarWrite, HfsError>,
    n: Result<u32, HfsError>,
)
    requires
        stored matches Some(t) ==> t@.len() <= 16,
        call_ensures(write_dbl_info, (fork, stored, file_len, &fi), r),
        call_ensures(descriptor_rsrclen, (&fi,), n),
    ensures
        n is Err <==> fi.rsrclen > 0xffff_ffff,
        n matches Ok(v) ==> v == fi.rsrclen,
        fi.rsrclen > 0xffff_ffff ==> r == Err::<SidecarWrite, HfsError>(HfsError::ForkTooLong),
        stored is None && 0 < fi.rsrclen <= 0xffff_ffff ==> r == Err::<SidecarWrite, HfsError>(
            HfsError::NoBackingBytes,
        ),
        stored is None && fi.rsrclen == 0 ==> r is Ok,
        stored matches Some(t) ==> {
            (forall|k: int| 0 <= k < t@.len() ==> (#[trigger] t@[k]).id != 2) && 0 < fi.rsrclen
                <= 0xffff_ffff ==> r == Err::<SidecarWrite, HfsError>(HfsError::NoForkDescriptor)
        },
{
    if let Some(t) = stored {
        let u = with_rsrclen(t@, fi.rsrclen as u32);
        if forall|k: int| 0 <= k < t@.len() ==> (#[trigger] t@[k]).id != 2 {
            lemma_no_fork(u, 0);
        }
    }
}

proof fn lemma_no_fork(t: Seq<Descr>, from: int)
    requires
        0 <= from <= t.len(),
        forall|k: int| 0 <= k < t.len() ==> (#[trigger] t[k]).id != 2,
    ensures
        first_with(t, HDR_RSRC, from) < 0,
    decreases t.len() - from,
{
    if from < t.len() {
        lemma_no_fork(t, from + 1);
    }
}

/// The first entry with an id is found, if there is one.
pub proof fn first_entries_are_found(t: &[Descr], id: u32, r: Option<usize>, k: int)
    requires
        call_ensures(find_descr, (t, id), r),
    ensures
        r matches Some(i) ==> i < t@.len() && t@[i as int].id == id,
        r matches Some(i) ==> (0 <= k < i ==> t@[k].id != id),
        r is None ==> (0 <= k < t@.len() ==> t@[k].id != id),
{
    lemma_first_found(t@, id, 0, k);
}

proof fn lemma_first_found(t: Seq<Descr>, id: u32, from: int, k: int)
    requires
        0 <= from <= t.len(),
    ensures
        first_with(t, id, from) < 0 ==> (from <= k < t.len() ==> t[k].id != id),
        first_with(t, id, from) >= 0 ==> {
            let i = first_with(t, id, from);
            from <= i < t.len() && t[i].id == id && (from <= k < i ==> t[k].id != id)
        },
    decreases t.len() - from,
{
    if from < t.len() && t[from].id != id {
        lemma_first_found(t, id, from + 1, k);
    }
}

} // verus!
