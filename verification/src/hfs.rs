//! Mac file metadata in sidecar files.
//!
//! A file that came from a Mac has more than its data: a type and a creator, dates, a comment and a
//! resource fork. On other systems these stand in files beside it. Three layouts are in use: CAP,
//! with a fixed record and a plain file for the fork; AppleDouble, with one container for
//! everything; and Netatalk, the first version of AppleDouble.
//!
//! What is computed here is computed from the bytes that the sidecars hold, and comes out as what
//! to read and what to write; no file is opened.
pub mod cap;
pub mod double;
pub mod fork;

use crate::bytes;
use crate::bytes::{array32, array_of};
use crate::hfs::cap::{
    comment_record, decode_cap_info, encode_cap_info, CAP_OFF_COMLN, SIZEOF_CAP_INFO,
};
use crate::hfs::double::{
    dbl_comment_len, dbl_type_creator, read_dbl_info, write_dbl_info, Descr, Edit, SidecarWrite,
};
use crate::suffix;
use crate::suffix::suffix_type_creator;
use crate::text;
use crate::text::ascii_bytes;
use vstd::prelude::*;
use vstd::slice::{slice_subrange, slice_to_vec};

verus! {

/// How long a comment may be.
pub const MAX_COMMENT: usize = 200;

/// How long a path may be.
pub const MAXPATHLEN: usize = 4095;

/// Seconds from 1970 to 2000, where the dates in sidecars start.
pub const HTIME_OFFSET: i64 = 946_684_800;

// ---------------------------------------------------------------------------------------------
// Errors.
// ---------------------------------------------------------------------------------------------
/// What an error is about.
#[derive(Debug, Clone, Copy, PartialEq, Eq, Structural)]
pub enum ErrorKind {
    /// What was asked for cannot be.
    InvalidInput,
    /// A sidecar is malformed.
    InvalidData,
    /// A fork was not opened for this.
    PermissionDenied,
}

/// Why a sidecar cannot be read or written.
#[derive(Debug, Clone, Copy, PartialEq, Eq, Structural)]
pub enum HfsError {
    /// The path leaves no room for the name of a sidecar.
    PathTooLong,
    /// The container is shorter than its header.
    TruncatedHeader,
    /// The container has another magic number or an unknown version.
    BadMagicOrVersion,
    /// The container has more than sixteen descriptors.
    TooManyDescriptors,
    /// The container ends before its descriptors do.
    TruncatedTable,
    /// A descriptor of metadata is for fewer than eight bytes.
    MetadataTooShort,
    /// A descriptor points into the header or past the end.
    OutsideContainer,
    /// Two descriptors share bytes.
    Overlap,
    /// The fork is longer than a descriptor can say.
    ForkTooLong,
    /// A new container holds no bytes of a fork yet.
    NoBackingBytes,
    /// The container has no descriptor for a fork.
    NoForkDescriptor,
    /// The new layout does not fit into 32 bits.
    RelayoutTooLong,
    /// These options would change the container as a whole.
    WholeFileOptions,
    /// The fork is longer than its storage admits.
    LengthExceedsFormat,
    /// A position in the file overflows.
    SeekOverflows,
    /// A position lies before the fork, or overflows.
    SeekOutOfRange,
    /// A position lies behind what the storage admits.
    SeekExceedsFormat,
    /// The fork was not opened for reading.
    NotReadable,
    /// The fork was not opened for writing.
    NotWritable,
}

impl HfsError {
    /// What the error is about.
    pub open spec fn kind_of(self) -> ErrorKind {
        match self {
            HfsError::TruncatedHeader
            | HfsError::BadMagicOrVersion
            | HfsError::TooManyDescriptors
            | HfsError::TruncatedTable
            | HfsError::MetadataTooShort
            | HfsError::OutsideContainer
            | HfsError::Overlap => ErrorKind::InvalidData,
            HfsError::NotReadable | HfsError::NotWritable => ErrorKind::PermissionDenied,
            _ => ErrorKind::InvalidInput,
        }
    }

    /// What the error is about.
    pub fn kind(self) -> (r: ErrorKind)
        ensures
            r == self.kind_of(),
    {
        match self {
            HfsError::TruncatedHeader => ErrorKind::InvalidData,
            HfsError::BadMagicOrVersion => ErrorKind::InvalidData,
            HfsError::TooManyDescriptors => ErrorKind::InvalidData,
            HfsError::TruncatedTable => ErrorKind::InvalidData,
            HfsError::MetadataTooShort => ErrorKind::InvalidData,
            HfsError::OutsideContainer => ErrorKind::InvalidData,
            HfsError::Overlap => ErrorKind::InvalidData,
            HfsError::NotReadable => ErrorKind::PermissionDenied,
            HfsError::NotWritable => ErrorKind::PermissionDenied,
            _ => ErrorKind::InvalidInput,
        }
    }

    /// The message.
    pub open spec fn message_text(self) -> Seq<char> {
        match self {
            HfsError::PathTooLong => "path too long for HFS sidecar"@,
            HfsError::TruncatedHeader => "truncated AppleDouble header"@,
            HfsError::BadMagicOrVersion => "invalid AppleDouble magic or version"@,
            HfsError::TooManyDescriptors => "too many AppleDouble descriptors"@,
            HfsError::TruncatedTable => "truncated AppleDouble descriptor table"@,
            HfsError::MetadataTooShort => "AppleDouble metadata descriptor is too short"@,
            HfsError::OutsideContainer => "AppleDouble descriptor lies outside the container"@,
            HfsError::Overlap => "AppleDouble descriptors overlap"@,
            HfsError::ForkTooLong => "AppleDouble resource fork exceeds its 32-bit descriptor"@,
            HfsError::NoBackingBytes => "new AppleDouble resource fork has no backing bytes"@,
            HfsError::NoForkDescriptor => "AppleDouble container has no resource-fork descriptor"@,
            HfsError::RelayoutTooLong =>
                "relaid-out AppleDouble container exceeds its 32-bit offsets"@,
            HfsError::WholeFileOptions =>
                "whole-file or raw open options are not valid for an embedded resource fork"@,
            HfsError::LengthExceedsFormat => "resource-fork length exceeds its storage format"@,
            HfsError::SeekOverflows => "resource-fork seek overflows"@,
            HfsError::SeekOutOfRange => "resource-fork seek is out of range"@,
            HfsError::SeekExceedsFormat => "resource-fork seek exceeds its storage format"@,
            HfsError::NotReadable => "resource fork was not opened for reading"@,
            HfsError::NotWritable => "resource fork was not opened for writing"@,
        }
    }

    /// The message.
    pub fn message(self) -> (r: String)
        ensures
            r@ == self.message_text(),
    {
        let m: &str = match self {
            HfsError::PathTooLong => "path too long for HFS sidecar",
            HfsError::TruncatedHeader => "truncated AppleDouble header",
            HfsError::BadMagicOrVersion => "invalid AppleDouble magic or version",
            HfsError::TooManyDescriptors => "too many AppleDouble descriptors",
            HfsError::TruncatedTable => "truncated AppleDouble descriptor table",
            HfsError::MetadataTooShort => "AppleDouble metadata descriptor is too short",
            HfsError::OutsideContainer => "AppleDouble descriptor lies outside the container",
            HfsError::Overlap => "AppleDouble descriptors overlap",
            HfsError::ForkTooLong => "AppleDouble resource fork exceeds its 32-bit descriptor",
            HfsError::NoBackingBytes => "new AppleDouble resource fork has no backing bytes",
            HfsError::NoForkDescriptor => "AppleDouble container has no resource-fork descriptor",
            HfsError::RelayoutTooLong =>
                "relaid-out AppleDouble container exceeds its 32-bit offsets",
            HfsError::WholeFileOptions =>
                "whole-file or raw open options are not valid for an embedded resource fork",
            HfsError::LengthExceedsFormat => "resource-fork length exceeds its storage format",
            HfsError::SeekOverflows => "resource-fork seek overflows",
            HfsError::SeekOutOfRange => "resource-fork seek is out of range",
            HfsError::SeekExceedsFormat => "resource-fork seek exceeds its storage format",
            HfsError::NotReadable => "resource fork was not opened for reading",
            HfsError::NotWritable => "resource fork was not opened for writing",
        };
        m.to_owned()
    }
}

// ---------------------------------------------------------------------------------------------
// Configuration and metadata.
// ---------------------------------------------------------------------------------------------
/// The layout of the sidecars.
#[derive(Debug, Clone, Copy, PartialEq, Eq, Structural)]
pub enum Fork {
    /// A file for the fork, and a record of 300 bytes.
    Cap,
    /// AppleDouble, version 2: one container for everything.
    Double,
    /// AppleDouble, version 1.
    Netatalk,
}

/// How sidecars are read and written.
#[derive(Debug, Clone)]
pub struct Config {
    pub fork: Fork,
    /// The mode of files that are made.
    pub file_perm: u32,
    /// The mode of directories that are made.
    pub dir_perm: u32,
    /// The comment of files that have none.
    pub comment: Option<Vec<u8>>,
    /// What separates a directory from a name.
    pub dir_char: u8,
}

impl Default for Config {
    fn default() -> (r: Self)
        ensures
            r.fork == Fork::Cap,
            r.file_perm == 0o600,
            r.dir_perm == 0o700,
            r.comment is None,
            r.dir_char == 0x2f,
    {
        Config {
            fork: Fork::Cap,
            file_perm: 0o600,
            dir_perm: 0o700,
            comment: None,
            dir_char: 0x2f,
        }
    }
}

/// The metadata of a file. Dates are seconds since 2000, as they stand in a sidecar.
#[derive(Debug, Clone, PartialEq, Eq)]
pub struct HfsInfo {
    pub type_creator: [u8; 8],
    pub create_time: [u8; 4],
    pub modify_time: [u8; 4],
    /// The length of the resource fork. A container can state 32 bits of it.
    pub rsrclen: u64,
    /// At most [`MAX_COMMENT`] bytes of it are kept.
    pub comment: Vec<u8>,
}

/// What an [`HfsInfo`] holds.
pub struct HfsView {
    pub type_creator: Seq<u8>,
    pub create_time: Seq<u8>,
    pub modify_time: Seq<u8>,
    pub rsrclen: u64,
    pub comment: Seq<u8>,
}

impl View for HfsInfo {
    type V = HfsView;

    open spec fn view(&self) -> HfsView {
        HfsView {
            type_creator: self.type_creator@,
            create_time: self.create_time@,
            modify_time: self.modify_time@,
            rsrclen: self.rsrclen,
            comment: self.comment@,
        }
    }
}

impl HfsView {
    /// The fixed fields have their sizes.
    pub open spec fn wf(self) -> bool {
        &&& self.type_creator.len() == 8
        &&& self.create_time.len() == 4
        &&& self.modify_time.len() == 4
    }
}

/// `n` bytes of zero.
pub open spec fn zeros(n: nat) -> Seq<u8> {
    Seq::new(n, |i: int| 0u8)
}

/// Nothing known.
pub open spec fn blank() -> HfsView {
    HfsView {
        type_creator: zeros(8),
        create_time: zeros(4),
        modify_time: zeros(4),
        rsrclen: 0,
        comment: Seq::empty(),
    }
}

impl Default for HfsInfo {
    fn default() -> (r: Self)
        ensures
            r@ == blank(),
    {
        let r = HfsInfo {
            type_creator: [0;8],
            create_time: [0;4],
            modify_time: [0;4],
            rsrclen: 0,
            comment: Vec::new(),
        };
        assert(r.type_creator@ =~= zeros(8));
        assert(r.create_time@ =~= zeros(4));
        assert(r.modify_time@ =~= zeros(4));
        r
    }
}

/// What of a comment is kept.
pub open spec fn kept(comment: Seq<u8>) -> Seq<u8> {
    comment.take(kept_len(comment.len() as int))
}

/// How much of a comment is kept.
pub open spec fn kept_len(n: int) -> int {
    if n < 200 {
        n
    } else {
        200
    }
}

// ---------------------------------------------------------------------------------------------
// Paths.
// ---------------------------------------------------------------------------------------------
/// A byte that separates a directory from a name: `dir_char`, and where the system has separators
/// of its own, `/` and `\`. There, a `dir_char` outside ASCII separates nothing.
pub open spec fn separates(b: u8, dir_char: u8, native: bool) -> bool {
    if native {
        (dir_char < 0x80 && b == dir_char) || b == 0x2f || b == 0x5c
    } else {
        b == dir_char
    }
}

fn is_sep(b: u8, dir_char: u8, native: bool) -> (r: bool)
    ensures
        r == separates(b, dir_char, native),
{
    if native {
        (dir_char < 0x80 && b == dir_char) || b == 0x2f || b == 0x5c
    } else {
        b == dir_char
    }
}

/// The last separator in the first `n` bytes, or -1.
pub open spec fn last_separator(p: Seq<u8>, dir_char: u8, native: bool, n: int) -> int
    decreases n,
{
    if n <= 0 {
        -1
    } else if separates(p[n - 1], dir_char, native) {
        n - 1
    } else {
        last_separator(p, dir_char, native, n - 1)
    }
}

/// The path of a sidecar: the directory (`.` if the path has none), `/`, the name and the suffix.
pub open spec fn sidecar_of(p: Seq<u8>, dir_char: u8, native: bool, suffix: Seq<u8>) -> Seq<u8> {
    let i = last_separator(p, dir_char, native, p.len() as int);
    if i >= 0 {
        p.take(i) + seq![0x2fu8] + p.skip(i + 1) + suffix
    } else {
        seq![0x2eu8, 0x2f] + p + suffix
    }
}

/// The path of the sidecar with the given suffix. `native` says that the system has separators of
/// its own.
pub fn sidecar(path: &[u8], dir_char: u8, native: bool, suffix: &[u8]) -> (r: Result<
    Vec<u8>,
    HfsError,
>)
    ensures
        match r {
            Ok(s) => path@.len() + 16 < 4095 && s@ == sidecar_of(
                path@,
                dir_char,
                native,
                suffix@,
            ),
            Err(e) => path@.len() + 16 >= 4095 && e == HfsError::PathTooLong,
        },
{
    if path.len() >= MAXPATHLEN - 16 {
        return Err(HfsError::PathTooLong);
    }
    let mut i: usize = path.len();
    while i > 0 && !is_sep(path[i - 1], dir_char, native)
        invariant
            i <= path@.len(),
            last_separator(path@, dir_char, native, i as int) == last_separator(
                path@,
                dir_char,
                native,
                path@.len() as int,
            ),
        decreases i,
    {
        i = i - 1;
    }
    let mut out: Vec<u8> = Vec::new();
    if i > 0 {
        out.extend_from_slice(slice_subrange(path, 0, i - 1));
        out.push(0x2f);
        out.extend_from_slice(slice_subrange(path, i, path.len()));
    } else {
        out.push(0x2e);
        out.push(0x2f);
        out.extend_from_slice(path);
    }
    out.extend_from_slice(suffix);
    assert(out@ =~= sidecar_of(path@, dir_char, native, suffix@));
    Ok(out)
}

/// The sidecar with the metadata of a file, where only `dir_char` separates.
pub fn finderinfo_path(path: &[u8], dir_char: u8) -> (r: Result<Vec<u8>, HfsError>)
    ensures
        match r {
            Ok(s) => path@.len() + 16 < 4095 && s@ == sidecar_of(
                path@,
                dir_char,
                false,
                text::ascii(".fndrinfo"@),
            ),
            Err(e) => path@.len() + 16 >= 4095 && e == HfsError::PathTooLong,
        },
{
    proof {
        reveal_strlit(".fndrinfo");
    }
    sidecar(path, dir_char, false, ascii_bytes(".fndrinfo"))
}

/// The sidecar with the resource fork of a file, where only `dir_char` separates.
pub fn resource_path(path: &[u8], dir_char: u8) -> (r: Result<Vec<u8>, HfsError>)
    ensures
        match r {
            Ok(s) => path@.len() + 16 < 4095 && s@ == sidecar_of(
                path@,
                dir_char,
                false,
                text::ascii(".rsrc"@),
            ),
            Err(e) => path@.len() + 16 >= 4095 && e == HfsError::PathTooLong,
        },
{
    proof {
        reveal_strlit(".rsrc");
    }
    sidecar(path, dir_char, false, ascii_bytes(".rsrc"))
}

proof fn lemma_last_separator(p: Seq<u8>, dir_char: u8, native: bool, n: int)
    requires
        0 <= n <= p.len(),
    ensures
        -1 <= last_separator(p, dir_char, native, n) < n || n == 0,
        last_separator(p, dir_char, native, n) >= 0 ==> separates(
            p[last_separator(p, dir_char, native, n)],
            dir_char,
            native,
        ),
        forall|j: int|
            last_separator(p, dir_char, native, n) < j < n ==> !separates(p[j], dir_char, native),
    decreases n,
{
    if n > 0 {
        lemma_last_separator(p, dir_char, native, n - 1);
    }
}

/// Where `/` is the one separator, a sidecar stands beside its file: its path is that of the file
/// with the suffix at the end, behind `./` if the file has no directory.
pub proof fn sidecar_stands_beside(p: Seq<u8>, suffix: Seq<u8>)
    ensures
        p.contains(0x2f) ==> sidecar_of(p, 0x2f, false, suffix) == p + suffix,
        !p.contains(0x2f) ==> sidecar_of(p, 0x2f, false, suffix) == seq![0x2eu8, 0x2f] + p + suffix,
{
    lemma_last_separator(p, 0x2f, false, p.len() as int);
    let i = last_separator(p, 0x2f, false, p.len() as int);
    if i >= 0 {
        assert(p[i] == 0x2f);
        assert(p.take(i) + seq![0x2fu8] + p.skip(i + 1) + suffix =~= p + suffix);
    } else {
        assert(!p.contains(0x2f));
    }
}

// ---------------------------------------------------------------------------------------------
// Dates.
// ---------------------------------------------------------------------------------------------
/// A date, given in seconds since 1970, as it stands in a sidecar: seconds since 2000, signed, in
/// 32 bits. `None` if it does not fit.
pub open spec fn header_time_of(unix_secs: i64) -> Option<Seq<u8>> {
    let s = unix_secs - 946_684_800;
    if -0x8000_0000 <= s < 0 {
        Some(bytes::be32_bytes((s + 0x1_0000_0000) as u32))
    } else if 0 <= s <= 0x7fff_ffff {
        Some(bytes::be32_bytes(s as u32))
    } else {
        None
    }
}

/// A date, given in seconds since 1970, as it stands in a sidecar. `None` if it does not fit.
pub fn header_time(unix_secs: i64) -> (r: Option<[u8; 4]>)
    ensures
        header_time_of(unix_secs) == (match r {
            Some(t) => Some(t@),
            None => None,
        }),
{
    let s: i64 = unix_secs.checked_sub(HTIME_OFFSET)?;
    if s < -0x8000_0000 || s > 0x7fff_ffff {
        return None;
    }
    let v: u32 = if s < 0 {
        (s + 0x1_0000_0000) as u32
    } else {
        s as u32
    };
    Some(array32(v))
}

// ---------------------------------------------------------------------------------------------
// Reading and writing metadata.
// ---------------------------------------------------------------------------------------------
/// What was found of the sidecar of a file.
#[derive(Debug, Clone)]
pub enum Stored {
    /// Nothing that could be used.
    Missing,
    /// What a record file starts with: 300 bytes, or all if it is shorter.
    Record(Vec<u8>),
    /// The table of a container, and what was read of each of its entries, which is `None` for an
    /// entry that was cut short.
    Container { descrs: Vec<Descr>, pieces: Vec<Option<Vec<u8>>> },
}

impl Stored {
    /// What the sidecar says.
    pub open spec fn info(self) -> HfsView {
        match self {
            Stored::Missing => blank(),
            Stored::Record(b) => if cap::is_record(b@) {
                cap::info_of(b@)
            } else {
                blank()
            },
            Stored::Container { descrs, pieces } => double::told_by(
                descrs@,
                double::piece_views(pieces@),
                descrs@.len() as int,
            ),
        }
    }

    /// The type and creator in the sidecar. Those of a record are its first bytes, whatever
    /// follows.
    pub open spec fn type_creator(self) -> Option<Seq<u8>> {
        match self {
            Stored::Missing => None,
            Stored::Record(b) => if b@.len() >= 8 {
                Some(b@.take(8))
            } else {
                None
            },
            Stored::Container { descrs, pieces } => double::type_creator_in(
                descrs@,
                double::piece_views(pieces@),
            ),
        }
    }

    /// The length of the comment in the sidecar. Of a record it is what the length byte says.
    pub open spec fn comment_len(self) -> int {
        match self {
            Stored::Missing => 0,
            Stored::Record(b) => if b@.len() >= 300 {
                kept_len(b@[84] as int)
            } else {
                0
            },
            Stored::Container { descrs, pieces } => double::comment_len_in(
                descrs@,
                descrs@.len() as int,
            ),
        }
    }
}

/// Neither type nor creator is all zero.
pub open spec fn is_known(type_creator: Seq<u8>) -> bool {
    type_creator.subrange(0, 4) != zeros(4) && type_creator.subrange(4, 8) != zeros(4)
}

fn is_zero(b: &[u8; 4]) -> (r: bool)
    ensures
        r == (b@ == zeros(4)),
{
    let r = b[0] == 0 && b[1] == 0 && b[2] == 0 && b[3] == 0;
    if r {
        assert(b@ =~= zeros(4));
    } else {
        assert(b@[0] != 0 || b@[1] != 0 || b@[2] != 0 || b@[3] != 0);
    }
    r
}

fn known_code(tc: &[u8; 8]) -> (r: bool)
    ensures
        r == is_known(tc@),
{
    let ty = array_of::<4>(slice_subrange(tc, 0, 4));
    let creator = array_of::<4>(slice_subrange(tc, 4, 8));
    !is_zero(&ty) && !is_zero(&creator)
}

/// The type and creator of a file: what its sidecar says, or if that is nothing, what its extension
/// says.
pub fn type_creator(path: &[u8], stored: &Stored) -> (r: [u8; 8])
    ensures
        r@ == (match stored.type_creator() {
            Some(tc) => if is_known(tc) {
                tc
            } else {
                suffix::type_creator_of(path@)
            },
            None => suffix::type_creator_of(path@),
        }),
{
    let found: Option<[u8; 8]> = match stored {
        Stored::Missing => None,
        Stored::Record(b) => {
            if b.len() >= 8 {
                Some(array_of::<8>(slice_subrange(b.as_slice(), 0, 8)))
            } else {
                None
            }
        },
        Stored::Container { descrs, pieces } => dbl_type_creator(
            descrs.as_slice(),
            pieces.as_slice(),
        ),
    };
    match found {
        Some(tc) => {
            if known_code(&tc) {
                tc
            } else {
                suffix_type_creator(path)
            }
        },
        None => suffix_type_creator(path),
    }
}

/// A date, or where it is missing, that of the last change of the data.
pub open spec fn date_or(date: Seq<u8>, modified: Option<i64>) -> Seq<u8> {
    if date != zeros(4) {
        date
    } else {
        match modified {
            Some(secs) => match header_time_of(secs) {
                Some(t) => t,
                None => date,
            },
            None => date,
        }
    }
}

/// The comment of files that have none.
pub open spec fn default_comment(cfg: Config) -> Seq<u8> {
    match cfg.comment {
        Some(c) => kept(c@),
        None => Seq::empty(),
    }
}

/// The metadata of a file, with what stands in for what is missing.
pub open spec fn completed(
    cfg: Config,
    path: Seq<u8>,
    found: HfsView,
    own_file: u64,
    modified: Option<i64>,
) -> HfsView {
    HfsView {
        type_creator: if is_known(found.type_creator) {
            found.type_creator
        } else {
            suffix::type_creator_of(path)
        },
        create_time: date_or(found.create_time, modified),
        modify_time: date_or(found.modify_time, modified),
        rsrclen: if cfg.fork == Fork::Cap {
            own_file
        } else {
            found.rsrclen
        },
        comment: if found.comment.len() == 0 {
            default_comment(cfg)
        } else {
            found.comment
        },
    }
}

/// The metadata of a file. Where the sidecar does not say, the extension gives type and creator,
/// the last change of the data gives the dates, and the configuration gives the comment. `own_file`
/// is the length of the file with the fork, for the layout that has one; `modified` is when the
/// data were last changed, in seconds since 1970.
pub fn hfsinfo_read(
    cfg: &Config,
    path: &[u8],
    stored: &Stored,
    own_file: u64,
    modified: Option<i64>,
) -> (r: HfsInfo)
    ensures
        r@ == completed(*cfg, path@, stored.info(), own_file, modified),
{
    let mut fi: HfsInfo = match stored {
        Stored::Missing => HfsInfo::default(),
        Stored::Record(b) => match decode_cap_info(b.as_slice()) {
            Some(fi) => fi,
            None => HfsInfo::default(),
        },
        Stored::Container { descrs, pieces } => read_dbl_info(descrs.as_slice(), pieces.as_slice()),
    };
    let ghost found = stored.info();
    assert(fi@ == found);
    if cfg.fork == Fork::Cap {
        fi.rsrclen = own_file;
    }
    if !known_code(&fi.type_creator) {
        fi.type_creator = suffix_type_creator(path);
    }
    if let Some(secs) = modified {
        if let Some(t) = header_time(secs) {
            if is_zero(&fi.create_time) {
                fi.create_time = t;
            }
            if is_zero(&fi.modify_time) {
                fi.modify_time = t;
            }
        }
    }
    if fi.comment.len() == 0 {
        if let Some(c) = &cfg.comment {
            let n: usize = if c.len() < MAX_COMMENT {
                c.len()
            } else {
                MAX_COMMENT
            };
            fi.comment = slice_to_vec(slice_subrange(c.as_slice(), 0, n));
            assert(fi.comment@ =~= kept(c@));
        } else {
            assert(fi.comment@ =~= Seq::<u8>::empty());
        }
    }
    fi
}

/// The length of the comment of a file: what the sidecar says, or if that is nothing, that of the
/// comment in the configuration.
pub fn comment_len(cfg: &Config, stored: &Stored) -> (r: usize)
    ensures
        r == (if stored.comment_len() == 0 {
            default_comment(*cfg).len() as int
        } else {
            stored.comment_len()
        }),
{
    let found: usize = match stored {
        Stored::Missing => 0,
        Stored::Record(b) => {
            if b.len() >= SIZEOF_CAP_INFO {
                let stated: usize = b[CAP_OFF_COMLN] as usize;
                if stated < MAX_COMMENT {
                    stated
                } else {
                    MAX_COMMENT
                }
            } else {
                0
            }
        },
        Stored::Container { descrs, .. } => dbl_comment_len(descrs.as_slice()),
    };
    if found == 0 {
        if let Some(c) = &cfg.comment {
            return if c.len() < MAX_COMMENT {
                c.len()
            } else {
                MAX_COMMENT
            };
        }
    }
    found
}

/// The record to write for a new comment, given what the sidecar starts with. `None` for
/// containers, into which no comment is written on its own.
pub fn comment_write(cfg: &Config, path: &[u8], existing: &[u8], comment: &[u8]) -> (r: Option<
    [u8; 300],
>)
    ensures
        match r {
            Some(b) => cfg.fork == Fork::Cap && b@ == cap::commented(path@, existing@, comment@),
            None => cfg.fork != Fork::Cap,
        },
{
    if cfg.fork != Fork::Cap {
        return None;
    }
    Some(comment_record(path, existing, comment))
}

/// What to write so that the sidecar holds the metadata. For a container, `stored` is its table,
/// `None` if it is new, and `file_len` its length. A record is written over the start of its file,
/// and what follows it stays.
pub fn hfsinfo_write(
    cfg: &Config,
    stored: Option<&[Descr]>,
    file_len: u64,
    fi: &HfsInfo,
) -> (r: Result<SidecarWrite, HfsError>)
    requires
        stored matches Some(t) ==> t@.len() <= 16,
    ensures
        ({
            let t = match stored {
                Some(t) => Some(t@),
                None => None,
            };
            if cfg.fork == Fork::Cap {
                r matches Ok(SidecarWrite::InPlace(edits)) && double::edit_views(edits@) == seq![
                    double::EditView { offset: 0, data: cap::record_of(fi@) },
                ]
            } else {
                match r {
                    Ok(w) => double::write_error(t, file_len as int, fi@) is None
                        && double::is_write(w, cfg.fork, t, fi@),
                    Err(e) => double::write_error(t, file_len as int, fi@) == Some(e),
                }
            }
        }),
{
    if cfg.fork == Fork::Cap {
        let record = encode_cap_info(fi);
        let mut edits: Vec<Edit> = Vec::new();
        edits.push(Edit { offset: 0, data: slice_to_vec(&record) });
        assert(double::edit_views(edits@) =~= seq![
            double::EditView { offset: 0, data: cap::record_of(fi@) },
        ]);
        return Ok(SidecarWrite::InPlace(edits));
    }
    write_dbl_info(cfg.fork, stored, file_len, fi)
}

/// In the layout with records, metadata that were written read back, whatever the sidecar held
/// before; of the comment, what is kept. What followed the record stays.
pub proof fn record_write_reads_back(old: Seq<u8>, fi: HfsView)
    requires
        fi.wf(),
    ensures
        ({
            let r = double::laws::write_at(old, 0, cap::record_of(fi));
            &&& cap::is_record(r)
            &&& cap::info_of(r) == (HfsView { rsrclen: 0, comment: kept(fi.comment), ..fi })
            &&& old.len() > 300 ==> r.skip(300) == old.skip(300)
        }),
{
    let b = cap::record_of(fi);
    let r = double::laws::write_at(old, 0, b);
    cap::record_round_trip(fi, r.skip(300));
    assert(r =~= b + r.skip(300));
    if old.len() > 300 {
        assert(r.skip(300) =~= old.skip(300));
    }
}

// ---------------------------------------------------------------------------------------------
// What every call does with what it finds.
// ---------------------------------------------------------------------------------------------
/// A date that the sidecar states is read as it is, whenever the data were last changed: that only
/// stands in for a date that is missing. Seen by two reads of one sidecar, of which one knows of no
/// change: what that one finds, the other finds too, unless it is nothing.
pub proof fn stated_dates_are_kept(
    cfg: Config,
    path: &[u8],
    stored: Stored,
    own: u64,
    secs: i64,
    bare: HfsInfo,
    r: HfsInfo,
)
    requires
        call_ensures(hfsinfo_read, (&cfg, path, &stored, own, None::<i64>), bare),
        call_ensures(hfsinfo_read, (&cfg, path, &stored, own, Some(secs)), r),
    ensures
        ({
            let since = secs - 946_684_800;
            let fits = -0x8000_0000 <= since <= 0x7fff_ffff;
            let none = seq![0u8, 0, 0, 0];
            &&& bare.create_time@ != none ==> r.create_time@ == bare.create_time@
            &&& bare.modify_time@ != none ==> r.modify_time@ == bare.modify_time@
            &&& bare.create_time@ == none && fits ==> bytes::be32(r.create_time@) == (since
                + 0x1_0000_0000) % 0x1_0000_0000
            &&& bare.modify_time@ == none && fits ==> bytes::be32(r.modify_time@) == (since
                + 0x1_0000_0000) % 0x1_0000_0000
            &&& !fits ==> r.create_time@ == bare.create_time@ && r.modify_time@
                == bare.modify_time@
            &&& r.type_creator@ == bare.type_creator@
            &&& r.rsrclen == bare.rsrclen
            &&& r.comment@ == bare.comment@
        }),
{
    let since = secs - 946_684_800;
    assert(zeros(4) =~= seq![0u8, 0, 0, 0]);
    assert(r@.create_time == r.create_time@ && r@.modify_time == r.modify_time@);
    assert(bare@.create_time == bare.create_time@ && bare@.modify_time == bare.modify_time@);
    assert(r@.type_creator == r.type_creator@ && bare@.type_creator == bare.type_creator@);
    assert(r@.comment == r.comment@ && bare@.comment == bare.comment@);
    assert(r@.rsrclen == r.rsrclen && bare@.rsrclen == bare.rsrclen);
    if -0x8000_0000 <= since < 0 {
        bytes::be32_round_trip((since + 0x1_0000_0000) as u32, Seq::empty());
    } else if 0 <= since <= 0x7fff_ffff {
        bytes::be32_round_trip(since as u32, Seq::empty());
    }
}

/// What a record states is what is read, byte for byte: its dates if they are marked as valid and
/// are not zero, its type and creator unless one of them is zero, and its comment unless it is
/// empty. The length of the fork is that of the file of its own.
pub proof fn records_are_read(
    cfg: Config,
    path: &[u8],
    b: Vec<u8>,
    own: u64,
    modified: Option<i64>,
    r: HfsInfo,
)
    requires
        cfg.fork == Fork::Cap,
        b@.len() >= 300,
        b@[34] == 0xff && b@[35] == 0x10 && b@[36] == 0xda,
        call_ensures(hfsinfo_read, (&cfg, path, &Stored::Record(b), own, modified), r),
    ensures
        ({
            let none = seq![0u8, 0, 0, 0];
            let create = b@.subrange(287, 291);
            let modify = b@.subrange(291, 295);
            &&& b@[285] == 0xda && (b@[286] / 2) % 2 == 1 && create != none ==> r.create_time@
                == create
            &&& b@[285] == 0xda && b@[286] % 2 == 1 && modify != none ==> r.modify_time@ == modify
            &&& b@.subrange(0, 4) != none && b@.subrange(4, 8) != none ==> r.type_creator@
                == b@.subrange(0, 8)
            &&& 0 < b@[84] <= 200 ==> r.comment@ == b@.subrange(85, 85 + b@[84] as int)
            &&& b@[84] > 200 ==> r.comment@ == b@.subrange(85, 285)
            &&& r.rsrclen == own
        }),
{
    let v = b@[286];
    assert((v & 2u8 != 0) == ((v / 2) % 2 == 1)) by (bit_vector);
    assert((v & 1u8 != 0) == (v % 2 == 1)) by (bit_vector);
    assert(zeros(4) =~= seq![0u8, 0, 0, 0]);
    assert(r@ == completed(cfg, path@, cap::info_of(b@), own, modified));
    assert(r@.create_time == r.create_time@ && r@.modify_time == r.modify_time@);
    assert(r@.type_creator == r.type_creator@ && r@.comment == r.comment@);
    assert(r@.rsrclen == r.rsrclen);
    let tc = b@.subrange(0, 8);
    assert(tc.subrange(0, 4) =~= b@.subrange(0, 4));
    assert(tc.subrange(4, 8) =~= b@.subrange(4, 8));
}

/// Metadata that were written into a record are read back: type and creator, the dates that are not
/// zero, and the first two hundred bytes of the comment, whatever the data's last change.
pub proof fn record_write_is_read(
    cfg: Config,
    path: &[u8],
    fi: HfsInfo,
    record: [u8; 300],
    b: Vec<u8>,
    own: u64,
    modified: Option<i64>,
    r: HfsInfo,
)
    requires
        cfg.fork == Fork::Cap,
        call_ensures(encode_cap_info, (&fi,), record),
        b@ == record@,
        call_ensures(hfsinfo_read, (&cfg, path, &Stored::Record(b), own, modified), r),
    ensures
        ({
            let none = seq![0u8, 0, 0, 0];
            &&& fi.create_time@ != none ==> r.create_time@ == fi.create_time@
            &&& fi.modify_time@ != none ==> r.modify_time@ == fi.modify_time@
            &&& fi.type_creator@.subrange(0, 4) != none && fi.type_creator@.subrange(4, 8) != none
                ==> r.type_creator@ == fi.type_creator@
            &&& 0 < fi.comment@.len() <= 200 ==> r.comment@ == fi.comment@
            &&& fi.comment@.len() > 200 ==> r.comment@ == fi.comment@.take(200)
            &&& r.rsrclen == own
        }),
{
    cap::record_round_trip(fi@, Seq::empty());
    assert(record@ + Seq::<u8>::empty() =~= b@);
    assert(zeros(4) =~= seq![0u8, 0, 0, 0]);
    assert(r@.create_time == r.create_time@ && r@.modify_time == r.modify_time@);
    assert(r@.type_creator == r.type_creator@ && r@.comment == r.comment@);
    assert(fi@.create_time == fi.create_time@ && fi@.modify_time == fi.modify_time@);
    assert(fi@.type_creator == fi.type_creator@ && fi@.comment == fi.comment@);
    assert(r@.rsrclen == r.rsrclen);
    if fi.comment@.len() <= 200 {
        assert(kept(fi.comment@) =~= fi.comment@);
    }
}

/// What stands in for what a sidecar does not say: the extension for type and creator, and the
/// configuration for the comment, of which the first two hundred bytes are taken. Without a sidecar
/// nothing is said.
pub proof fn missing_sidecar_leaves_defaults(
    cfg: Config,
    path: &[u8],
    own: u64,
    modified: Option<i64>,
    r: HfsInfo,
    tc: [u8; 8],
)
    requires
        call_ensures(hfsinfo_read, (&cfg, path, &Stored::Missing, own, modified), r),
        call_ensures(suffix_type_creator, (path,), tc),
    ensures
        r.type_creator@ == tc@,
        modified is None ==> r.create_time@ == seq![0u8, 0, 0, 0] && r.modify_time@ == seq![
            0u8,
            0,
            0,
            0,
        ],
        cfg.comment is None ==> r.comment@.len() == 0,
        cfg.comment matches Some(c) ==> r.comment@ == (if c@.len() <= 200 {
            c@
        } else {
            c@.take(200)
        }),
        cfg.fork == Fork::Cap ==> r.rsrclen == own,
        cfg.fork != Fork::Cap ==> r.rsrclen == 0,
{
    assert(zeros(4) =~= seq![0u8, 0, 0, 0]);
    assert(r@.create_time == r.create_time@ && r@.modify_time == r.modify_time@);
    assert(r@.type_creator == r.type_creator@ && r@.comment == r.comment@);
    assert(r@.rsrclen == r.rsrclen);
    let z = zeros(8);
    assert(z.subrange(0, 4) =~= zeros(4));
    if let Some(c) = cfg.comment {
        if c@.len() <= 200 {
            assert(kept(c@) =~= c@);
        }
    }
}

/// What a container states is what is read: the metadata of its entries, but for what is missing
/// among them, for which the same stands in as without a sidecar.
pub proof fn containers_are_read(
    cfg: Config,
    path: &[u8],
    descrs: Vec<Descr>,
    pieces: Vec<Option<Vec<u8>>>,
    own: u64,
    modified: Option<i64>,
    r: HfsInfo,
    found: HfsInfo,
    bare: HfsInfo,
)
    requires
        cfg.fork != Fork::Cap,
        call_ensures(
            hfsinfo_read,
            (&cfg, path, &Stored::Container { descrs, pieces }, own, modified),
            r,
        ),
        call_ensures(hfsinfo_read, (&cfg, path, &Stored::Missing, own, modified), bare),
        found@ == double::told_by(
            descrs@,
            double::piece_views(pieces@),
            descrs@.len() as int,
        ),
    ensures
        ({
            let none = seq![0u8, 0, 0, 0];
            let tc = found.type_creator@;
            &&& found.create_time@ != none ==> r.create_time@ == found.create_time@
            &&& found.create_time@ == none ==> r.create_time@ == bare.create_time@
            &&& found.modify_time@ != none ==> r.modify_time@ == found.modify_time@
            &&& found.modify_time@ == none ==> r.modify_time@ == bare.modify_time@
            &&& tc.subrange(0, 4) != none && tc.subrange(4, 8) != none ==> r.type_creator@ == tc
            &&& tc.subrange(0, 4) == none || tc.subrange(4, 8) == none ==> r.type_creator@
                == bare.type_creator@
            &&& found.comment@.len() > 0 ==> r.comment@ == found.comment@
            &&& found.comment@.len() == 0 ==> r.comment@ == bare.comment@
            &&& r.rsrclen == found.rsrclen
        }),
{
    assert(zeros(4) =~= seq![0u8, 0, 0, 0]);
    let z = zeros(8);
    assert(z.subrange(0, 4) =~= zeros(4));
    assert(r@.create_time == r.create_time@ && r@.modify_time == r.modify_time@);
    assert(r@.type_creator == r.type_creator@ && r@.comment == r.comment@);
    assert(r@.rsrclen == r.rsrclen);
    assert(bare@.create_time == bare.create_time@ && bare@.modify_time == bare.modify_time@);
    assert(bare@.type_creator == bare.type_creator@ && bare@.comment == bare.comment@);
    assert(found@.create_time == found.create_time@ && found@.modify_time == found.modify_time@);
    assert(found@.type_creator == found.type_creator@ && found@.comment == found.comment@);
    assert(found@.rsrclen == found.rsrclen);
}

/// The type and creator of a file are the first eight bytes of its record, unless one of the two is
/// zero or the record is shorter; then the extension gives them.
pub proof fn type_comes_from_the_record(
    path: &[u8],
    b: Vec<u8>,
    r: [u8; 8],
    tc: [u8; 8],
    bare: [u8; 8],
)
    requires
        call_ensures(type_creator, (path, &Stored::Record(b)), r),
        call_ensures(suffix_type_creator, (path,), tc),
        call_ensures(type_creator, (path, &Stored::Missing), bare),
    ensures
        ({
            let none = seq![0u8, 0, 0, 0];
            let said = b@.len() >= 8 && b@.subrange(0, 4) != none && b@.subrange(4, 8) != none;
            &&& said ==> r@ == b@.subrange(0, 8)
            &&& !said ==> r@ == tc@
            &&& bare@ == tc@
        }),
{
    assert(zeros(4) =~= seq![0u8, 0, 0, 0]);
    if b@.len() >= 8 {
        assert(b@.take(8) =~= b@.subrange(0, 8));
        assert(b@.take(8).subrange(0, 4) =~= b@.subrange(0, 4));
        assert(b@.take(8).subrange(4, 8) =~= b@.subrange(4, 8));
    }
}

/// The length of a comment is that of the comment which a read gives, for a record that is one.
pub proof fn comment_is_as_long_as_stated(
    cfg: Config,
    path: &[u8],
    b: Vec<u8>,
    own: u64,
    n: usize,
    r: HfsInfo,
    none: usize,
)
    requires
        cfg.fork == Fork::Cap,
        call_ensures(comment_len, (&cfg, &Stored::Record(b)), n),
        call_ensures(comment_len, (&cfg, &Stored::Missing), none),
        call_ensures(hfsinfo_read, (&cfg, path, &Stored::Record(b), own, None::<i64>), r),
        b@.len() >= 300,
        b@[34] == 0xff && b@[35] == 0x10 && b@[36] == 0xda,
    ensures
        n == r.comment@.len(),
        n <= 200,
        b@[84] > 0 ==> n == (if b@[84] <= 200 {
            b@[84] as int
        } else {
            200
        }),
        b@[84] == 0 ==> n == none,
        cfg.comment is None ==> none == 0,
        cfg.comment matches Some(c) ==> none == (if c@.len() <= 200 {
            c@.len() as int
        } else {
            200
        }),
{
    assert(r@.comment == r.comment@);
}

/// The path of a sidecar: what stands in front of the last separator, a slash, the name and the
/// suffix, whatever character separates directories on the other side.
pub proof fn sidecar_path_has_a_slash(
    path: &[u8],
    dir_char: u8,
    suffix: &[u8],
    r: Result<Vec<u8>, HfsError>,
    dir: Seq<u8>,
    name: Seq<u8>,
)
    requires
        call_ensures(sidecar, (path, dir_char, false, suffix), r),
        path@ == dir.push(dir_char) + name,
        !name.contains(dir_char),
    ensures
        r is Ok <==> path@.len() < 4079,
        r matches Err(e) ==> e == HfsError::PathTooLong,
        r matches Ok(s) ==> s@ == dir.push(0x2f) + name + suffix@,
{
    let p = path@;
    let i = dir.len() as int;
    lemma_last_separator(p, dir_char, false, p.len() as int);
    let k = last_separator(p, dir_char, false, p.len() as int);
    assert(p[i] == dir_char);
    if k > i {
        assert(p[k] == name[k - i - 1]);
        assert(name.contains(name[k - i - 1]));
    }
    assert(k == i);
    assert(p.take(i) + seq![0x2fu8] + p.skip(i + 1) + suffix@ =~= dir.push(0x2f) + name + suffix@);
}

/// A path without a separator is one in the current directory.
pub proof fn sidecar_of_a_bare_name(
    path: &[u8],
    dir_char: u8,
    suffix: &[u8],
    r: Result<Vec<u8>, HfsError>,
)
    requires
        call_ensures(sidecar, (path, dir_char, false, suffix), r),
        !path@.contains(dir_char),
    ensures
        r is Ok <==> path@.len() < 4079,
        r matches Ok(s) ==> s@ == seq![0x2eu8, 0x2f] + path@ + suffix@,
{
    let p = path@;
    lemma_last_separator(p, dir_char, false, p.len() as int);
    let k = last_separator(p, dir_char, false, p.len() as int);
    if k >= 0 {
        assert(p.contains(p[k]));
    }
}

/// Where the system has separators of its own, both slashes separate too; a character outside ASCII
/// does not.
pub proof fn native_separators(
    path: &[u8],
    dir_char: u8,
    sep: u8,
    suffix: &[u8],
    r: Result<Vec<u8>, HfsError>,
    dir: Seq<u8>,
    name: Seq<u8>,
)
    requires
        call_ensures(sidecar, (path, dir_char, true, suffix), r),
        path@ == dir.push(sep) + name,
        sep == 0x2f || sep == 0x5c || (sep == dir_char && dir_char < 0x80),
        !name.contains(0x2f),
        !name.contains(0x5c),
        dir_char < 0x80 ==> !name.contains(dir_char),
    ensures
        r matches Ok(s) ==> s@ == dir.push(0x2f) + name + suffix@,
{
    let p = path@;
    let i = dir.len() as int;
    lemma_last_separator(p, dir_char, true, p.len() as int);
    let k = last_separator(p, dir_char, true, p.len() as int);
    assert(p[i] == sep);
    if k > i {
        assert(p[k] == name[k - i - 1]);
        assert(name.contains(name[k - i - 1]));
    }
    assert(k == i);
    assert(p.take(i) + seq![0x2fu8] + p.skip(i + 1) + suffix@ =~= dir.push(0x2f) + name + suffix@);
}

/// The metadata and the fork of a file stand in files with two names: `.fndrinfo` and `.rsrc` are
/// put behind its own.
pub proof fn two_sidecars_have_two_names(
    path: &[u8],
    a: Result<Vec<u8>, HfsError>,
    b: Result<Vec<u8>, HfsError>,
)
    requires
        call_ensures(finderinfo_path, (path, 0x2fu8), a),
        call_ensures(resource_path, (path, 0x2fu8), b),
        path@.contains(0x2f),
    ensures
        a is Ok <==> b is Ok,
        a matches Ok(s) ==> s@ == path@ + seq![
            0x2eu8,
            0x66,
            0x6e,
            0x64,
            0x72,
            0x69,
            0x6e,
            0x66,
            0x6f,
        ],
        b matches Ok(s) ==> s@ == path@ + seq![0x2eu8, 0x72, 0x73, 0x72, 0x63],
{
    reveal_strlit(".fndrinfo");
    reveal_strlit(".rsrc");
    assert(text::ascii(".fndrinfo"@) =~= seq![
        0x2eu8,
        0x66,
        0x6e,
        0x64,
        0x72,
        0x69,
        0x6e,
        0x66,
        0x6f,
    ]);
    assert(text::ascii(".rsrc"@) =~= seq![0x2eu8, 0x72, 0x73, 0x72, 0x63]);
    sidecar_stands_beside(path@, text::ascii(".fndrinfo"@));
    sidecar_stands_beside(path@, text::ascii(".rsrc"@));
}

/// Dates in sidecars count from the start of 2000, which is 946 684 800 seconds behind that of
/// 1970, and have 32 bits with a sign.
pub proof fn dates_count_from_2000(secs: i64, r: Option<[u8; 4]>)
    requires
        call_ensures(header_time, (secs,), r),
    ensures
        r is Some <==> -0x8000_0000 <= secs - 946_684_800 <= 0x7fff_ffff,
        r matches Some(t) ==> bytes::be32(t@) == (secs - 946_684_800 + 0x1_0000_0000)
            % 0x1_0000_0000,
{
    let s = secs - 946_684_800;
    if -0x8000_0000 <= s < 0 {
        bytes::be32_round_trip((s + 0x1_0000_0000) as u32, Seq::empty());
    } else if 0 <= s <= 0x7fff_ffff {
        bytes::be32_round_trip(s as u32, Seq::empty());
    }
}

/// In the layout with records, the record is written over the start of its file, and nothing else;
/// a comment is written on its own only there.
pub proof fn records_are_written_whole(
    cfg: Config,
    stored: Option<&[Descr]>,
    file_len: u64,
    fi: HfsInfo,
    r: Result<SidecarWrite, HfsError>,
    record: [u8; 300],
    path: &[u8],
    existing: &[u8],
    comment: &[u8],
    c: Option<[u8; 300]>,
    d: [u8; 300],
)
    requires
        cfg.fork == Fork::Cap,
        stored matches Some(t) ==> t@.len() <= 16,
        call_ensures(hfsinfo_write, (&cfg, stored, file_len, &fi), r),
        call_ensures(encode_cap_info, (&fi,), record),
        call_ensures(comment_write, (&cfg, path, existing, comment), c),
        call_ensures(comment_record, (path, existing, comment), d),
    ensures
        r matches Ok(SidecarWrite::InPlace(edits)) && edits@.len() == 1 && edits@[0].offset == 0
            && edits@[0].data@ == record@,
        c matches Some(b) && b@ == d@,
{
    if let Ok(SidecarWrite::InPlace(edits)) = r {
        let v = double::edit_views(edits@);
        assert(v.len() == 1);
        assert(v[0] == edits@[0]@);
    }
}

/// What is wrong with the data of a container is told from what was not permitted and from what was
/// asked for wrongly.
pub proof fn errors_have_kinds(e: HfsError, r: ErrorKind)
    requires
        call_ensures(HfsError::kind, (e,), r),
    ensures
        r == ErrorKind::InvalidData <==> e is TruncatedHeader || e is BadMagicOrVersion || e
            is TooManyDescriptors || e is TruncatedTable || e is MetadataTooShort || e
            is OutsideContainer || e is Overlap,
        r == ErrorKind::PermissionDenied <==> e is NotReadable || e is NotWritable,
        r == ErrorKind::InvalidInput <==> e is PathTooLong || e is ForkTooLong || e
            is NoBackingBytes || e is NoForkDescriptor || e is RelayoutTooLong || e
            is WholeFileOptions || e is LengthExceedsFormat || e is SeekOverflows || e
            is SeekOutOfRange || e is SeekExceedsFormat,
{
}

/// The errors in words.
pub proof fn errors_in_words(e: HfsError, r: String)
    requires
        call_ensures(HfsError::message, (e,), r),
    ensures
        e is PathTooLong ==> r@ == "path too long for HFS sidecar"@,
        e is TruncatedHeader ==> r@ == "truncated AppleDouble header"@,
        e is BadMagicOrVersion ==> r@ == "invalid AppleDouble magic or version"@,
        e is TooManyDescriptors ==> r@ == "too many AppleDouble descriptors"@,
        e is TruncatedTable ==> r@ == "truncated AppleDouble descriptor table"@,
        e is MetadataTooShort ==> r@ == "AppleDouble metadata descriptor is too short"@,
        e is OutsideContainer ==> r@ == "AppleDouble descriptor lies outside the container"@,
        e is Overlap ==> r@ == "AppleDouble descriptors overlap"@,
        e is ForkTooLong ==> r@ == "AppleDouble resource fork exceeds its 32-bit descriptor"@,
        e is NoBackingBytes ==> r@ == "new AppleDouble resource fork has no backing bytes"@,
        e is NoForkDescriptor ==> r@ == "AppleDouble container has no resource-fork descriptor"@,
        e is RelayoutTooLong ==> r@ == "relaid-out AppleDouble container exceeds its 32-bit offsets"@,
        e is WholeFileOptions ==> r@ == "whole-file or raw open options are not valid for an embedded resource fork"@,
        e is LengthExceedsFormat ==> r@ == "resource-fork length exceeds its storage format"@,
        e is SeekOverflows ==> r@ == "resource-fork seek overflows"@,
        e is SeekOutOfRange ==> r@ == "resource-fork seek is out of range"@,
        e is SeekExceedsFormat ==> r@ == "resource-fork seek exceeds its storage format"@,
        e is NotReadable ==> r@ == "resource fork was not opened for reading"@,
        e is NotWritable ==> r@ == "resource fork was not opened for writing"@,
{
}

/// The length of a comment is what byte 84 of a record says, two hundred at most. A record that is
/// cut short, and one that says zero, leave it to what files have that have no comment.
pub proof fn records_state_the_length(cfg: Config, b: Vec<u8>, n: usize, none: usize)
    requires
        call_ensures(comment_len, (&cfg, &Stored::Record(b)), n),
        call_ensures(comment_len, (&cfg, &Stored::Missing), none),
    ensures
        b@.len() < 300 ==> n == none,
        b@.len() >= 300 && b@[84] == 0 ==> n == none,
        b@.len() >= 300 && 0 < b@[84] <= 200 ==> n == b@[84],
        b@.len() >= 300 && b@[84] > 200 ==> n == 200,
{
}

/// Of a container, comment and type are what its entries say; a comment that is empty is left to
/// what files have that have none, and a type that is none to the extension.
pub proof fn containers_state_length_and_type(
    cfg: Config,
    path: &[u8],
    descrs: Vec<Descr>,
    pieces: Vec<Option<Vec<u8>>>,
    table: &[Descr],
    parts: &[Option<Vec<u8>>],
    n: usize,
    none: usize,
    said: usize,
    r: [u8; 8],
    tc: Option<[u8; 8]>,
    bare: [u8; 8],
)
    requires
        table@ == descrs@,
        parts@ == pieces@,
        call_ensures(comment_len, (&cfg, &Stored::Container { descrs, pieces }), n),
        call_ensures(comment_len, (&cfg, &Stored::Missing), none),
        call_ensures(double::dbl_comment_len, (table,), said),
        call_ensures(type_creator, (path, &Stored::Container { descrs, pieces }), r),
        call_ensures(double::dbl_type_creator, (table, parts), tc),
        call_ensures(type_creator, (path, &Stored::Missing), bare),
    ensures
        said > 0 ==> n == said,
        said == 0 ==> n == none,
        tc is None ==> r@ == bare@,
        tc matches Some(x) ==> {
            let none = seq![0u8, 0, 0, 0];
            let known = x@.subrange(0, 4) != none && x@.subrange(4, 8) != none;
            (known ==> r@ == x@) && (!known ==> r@ == bare@)
        },
{
    assert(zeros(4) =~= seq![0u8, 0, 0, 0]);
}

} // verus!
