//! What was received, into buffers of the caller's.
//!
//! Texts go into the buffers as C strings: as much as there is room for, and a zero behind it. The
//! lengths that are returned do not count the zero, and have sixteen bits. Where a buffer has no
//! room for even the zero, nothing is done.
use crate::bytes;
use crate::bytes::{copy_into, get16, get32, get64, put64, put_bytes};
use crate::ffi::pack;
use crate::ffi::pack::gtkhx_proto_capabilities_decode;
use crate::ffi::replies;
use crate::ffi::replies::{last_number, last_payload};
use crate::inline_media;
use crate::inline_media::extract_limits_from_message;
use crate::messages::{tag, NICK_COLOR_NONE};
use crate::sanitize;
use crate::sanitize::{cr2lf, strip_ansi};
use crate::wire;
use crate::wire::ChunkIter;
use vstd::prelude::*;
use vstd::slice::slice_subrange;

verus! {

/// How much of a text of `len` bytes a buffer of `cap` bytes takes.
pub open spec fn taken(len: int, cap: int) -> int {
    if cap <= 0 {
        0
    } else if len < cap {
        len
    } else {
        cap - 1
    }
}

/// A buffer with a text in it.
pub open spec fn with_text(buf: Seq<u8>, src: Seq<u8>) -> Seq<u8> {
    if buf.len() == 0 {
        buf
    } else {
        bytes::overwrite(buf, 0, src.take(taken(src.len() as int, buf.len() as int)).push(0))
    }
}

/// The low sixteen bits of a length.
pub open spec fn low16(n: int) -> u16 {
    (n % 0x1_0000) as u16
}

fn narrow16(n: usize) -> (r: u16)
    ensures
        r == low16(n as int),
{
    (n % 0x1_0000) as u16
}

/// A truth value as a number.
pub open spec fn flag8(b: bool) -> u8 {
    if b {
        1
    } else {
        0
    }
}

fn flag8_of(b: bool) -> (r: u8)
    ensures
        r == flag8(b),
{
    if b {
        1
    } else {
        0
    }
}

/// Puts a text into a buffer and returns how much of it was taken.
pub fn write_cstr(dst: &mut [u8], src: &[u8]) -> (r: usize)
    ensures
        r == taken(src@.len() as int, old(dst)@.len() as int),
        final(dst)@ == with_text(old(dst)@, src@),
{
    if dst.len() == 0 {
        return 0;
    }
    let n: usize = if src.len() < dst.len() {
        src.len()
    } else {
        dst.len() - 1
    };
    copy_into(dst, 0, slice_subrange(src, 0, n));
    dst[n] = 0;
    assert(dst@ =~= with_text(old(dst)@, src@));
    n
}

/// A text in a buffer is cut only where there is no room, and is followed by a zero.
pub proof fn text_in_buffer(buf: Seq<u8>, src: Seq<u8>)
    requires
        buf.len() > 0,
    ensures
        ({
            let n = taken(src.len() as int, buf.len() as int);
            &&& with_text(buf, src).len() == buf.len()
            &&& with_text(buf, src).take(n) == src.take(n)
            &&& with_text(buf, src)[n] == 0
            &&& src.len() < buf.len() ==> n == src.len()
        }),
{
    let n = taken(src.len() as int, buf.len() as int);
    assert(with_text(buf, src).take(n) =~= src.take(n));
}

// ---------------------------------------------------------------------------------------------
// Chat and messages.
// ---------------------------------------------------------------------------------------------
/// The bytes of the last chunk with this tag; none if there is no such chunk.
pub open spec fn bytes_of(c: Seq<wire::ChunkView>, tag: u16) -> Seq<u8> {
    match wire::last_with(c, tag) {
        Some(d) => d,
        None => Seq::empty(),
    }
}

/// The bytes of the last chunk with this tag, as they came.
fn raw_text(msg: &[u8], tag: u16) -> (r: Vec<u8>)
    ensures
        r@ == bytes_of(replies::body(msg@), tag),
{
    let mut text: Vec<u8> = Vec::new();
    if let Some(t) = last_payload(msg, tag) {
        put_bytes(&mut text, t);
        assert(text@ =~= t@);
    }
    text
}

/// The bytes of the last chunk with this tag, without control bytes.
fn stripped_text(msg: &[u8], tag: u16) -> (r: Vec<u8>)
    ensures
        r@ == sanitize::stripped(bytes_of(replies::body(msg@), tag)),
{
    let mut text = raw_text(msg, tag);
    strip_ansi(text.as_mut_slice());
    text
}

/// The bytes of the last chunk with this tag, as they are displayed.
fn displayed_text(msg: &[u8], tag: u16) -> (r: Vec<u8>)
    ensures
        r@ == sanitize::sanitised(bytes_of(replies::body(msg@), tag)),
{
    let mut text = raw_text(msg, tag);
    cr2lf(text.as_mut_slice());
    strip_ansi(text.as_mut_slice());
    text
}

/// A chat line in a buffer.
#[derive(Debug, Clone, Copy, PartialEq, Eq, Structural)]
pub struct ChatOut {
    pub cid: u32,
    pub uid: u16,
    /// Where in the buffer the text to display starts.
    pub text_off: u16,
    pub text_len: u16,
}

/// Parses a chat line and puts it into a buffer. A line feed at its start is not displayed.
pub fn gtkhx_proto_parse_chat(msg: &[u8], buf: &mut [u8]) -> (r: Option<ChatOut>)
    ensures
        ({
            let c = replies::body(msg@);
            let line = sanitize::sanitised(bytes_of(c, tag::BODY));
            let n = taken(line.len() as int, old(buf)@.len() as int);
            let off: int = if n > 0 && line[0] == 0x0a {
                1
            } else {
                0
            };
            &&& final(buf)@ == with_text(old(buf)@, line)
            &&& r == (if old(buf)@.len() == 0 {
                None
            } else {
                Some(
                    ChatOut {
                        cid: wire::last_uint(c, tag::CHAT_ID),
                        uid: low16(wire::last_uint(c, tag::UID) as int),
                        text_off: off as u16,
                        text_len: low16(n - off),
                    },
                )
            })
        }),
{
    if buf.len() == 0 {
        return None;
    }
    let line = displayed_text(msg, tag::BODY);
    let n: usize = write_cstr(buf, line.as_slice());
    let off: usize = if n > 0 && line[0] == 0x0a {
        1
    } else {
        0
    };
    Some(
        ChatOut {
            cid: last_number(msg, tag::CHAT_ID),
            uid: (last_number(msg, tag::UID) % 0x1_0000) as u16,
            text_off: off as u16,
            text_len: narrow16(n - off),
        },
    )
}

/// The subject of a chat in a buffer.
#[derive(Debug, Clone, Copy, PartialEq, Eq, Structural)]
pub struct ChatSubjectOut {
    pub cid: u32,
    pub subject_len: u16,
}

/// Parses the subject of a chat and puts it into a buffer.
pub fn gtkhx_proto_parse_chat_subject(msg: &[u8], buf: &mut [u8]) -> (r: Option<ChatSubjectOut>)
    ensures
        ({
            let c = replies::body(msg@);
            let room = old(buf)@.len() > 0;
            let subject_text = bytes_of(c, tag::CHAT_SUBJECT);
            &&& final(buf)@ == (if room {
                with_text(old(buf)@, subject_text)
            } else {
                old(buf)@
            })
            &&& r == (if room {
                Some(
                    ChatSubjectOut {
                        cid: wire::last_uint(c, tag::CHAT_ID),
                        subject_len: low16(
                            taken(subject_text.len() as int, old(buf)@.len() as int),
                        ),
                    },
                )
            } else {
                None
            })
        }),
{
    if buf.len() == 0 {
        return None;
    }
    let subject_text = raw_text(msg, tag::CHAT_SUBJECT);
    let subject_len: usize = write_cstr(buf, subject_text.as_slice());
    Some(
        ChatSubjectOut {
            cid: last_number(msg, tag::CHAT_ID),
            subject_len: narrow16(subject_len),
        },
    )
}

/// An invitation; the name is in a buffer.
#[derive(Debug, Clone, Copy, PartialEq, Eq, Structural)]
pub struct ChatInviteOut {
    pub cid: u32,
    pub uid: u16,
    pub name_len: u16,
}

/// Parses an invitation into a chat and puts the name of who invites into a buffer.
pub fn gtkhx_proto_parse_chat_invite(msg: &[u8], buf: &mut [u8]) -> (r: Option<ChatInviteOut>)
    ensures
        ({
            let c = replies::body(msg@);
            let room = old(buf)@.len() > 0;
            let name_text = bytes_of(c, tag::NAME);
            &&& final(buf)@ == (if room {
                with_text(old(buf)@, name_text)
            } else {
                old(buf)@
            })
            &&& r == (if room {
                Some(
                    ChatInviteOut {
                        cid: wire::last_uint(c, tag::CHAT_ID),
                        uid: low16(wire::last_uint(c, tag::UID) as int),
                        name_len: low16(taken(name_text.len() as int, old(buf)@.len() as int)),
                    },
                )
            } else {
                None
            })
        }),
{
    if buf.len() == 0 {
        return None;
    }
    let name_text = raw_text(msg, tag::NAME);
    let name_len: usize = write_cstr(buf, name_text.as_slice());
    Some(
        ChatInviteOut {
            cid: last_number(msg, tag::CHAT_ID),
            uid: (last_number(msg, tag::UID) % 0x1_0000) as u16,
            name_len: narrow16(name_len),
        },
    )
}

/// A private message; name and text are in buffers.
#[derive(Debug, Clone, Copy, PartialEq, Eq, Structural)]
pub struct MsgOut {
    pub uid: u16,
    pub name_len: u16,
    pub msg_len: u16,
}

/// Parses a private message and puts the name of the sender and the text into buffers.
pub fn gtkhx_proto_parse_msg(
    msg: &[u8],
    name_buf: &mut [u8],
    msg_buf: &mut [u8],
) -> (r: Option<MsgOut>)
    ensures
        ({
            let c = replies::body(msg@);
            let room = old(name_buf)@.len() > 0 && old(msg_buf)@.len() > 0;
            let name_text = sanitize::stripped(bytes_of(c, tag::NAME));
            let msg_text = sanitize::sanitised(bytes_of(c, tag::BODY));
            &&& final(name_buf)@ == (if room {
                with_text(old(name_buf)@, name_text)
            } else {
                old(name_buf)@
            })
            &&& final(msg_buf)@ == (if room {
                with_text(old(msg_buf)@, msg_text)
            } else {
                old(msg_buf)@
            })
            &&& r == (if room {
                Some(
                    MsgOut {
                        uid: low16(wire::last_uint(c, tag::UID) as int),
                        name_len: low16(taken(name_text.len() as int, old(name_buf)@.len() as int)),
                        msg_len: low16(taken(msg_text.len() as int, old(msg_buf)@.len() as int)),
                    },
                )
            } else {
                None
            })
        }),
{
    if name_buf.len() == 0 || msg_buf.len() == 0 {
        return None;
    }
    let name_text = stripped_text(msg, tag::NAME);
    let name_len: usize = write_cstr(name_buf, name_text.as_slice());
    let msg_text = displayed_text(msg, tag::BODY);
    let msg_len: usize = write_cstr(msg_buf, msg_text.as_slice());
    Some(
        MsgOut {
            uid: (last_number(msg, tag::UID) % 0x1_0000) as u16,
            name_len: narrow16(name_len),
            msg_len: narrow16(msg_len),
        },
    )
}

/// The payload of the first chunk of a message with this tag.
fn first_payload(msg: &[u8], tag: u16) -> (r: Option<&[u8]>)
    ensures
        wire::opt_view(r) == wire::first_with(wire::message_chunks(msg@, msg@.len() as int), tag),
{
    let mut it = ChunkIter::over_message(msg, msg.len());
    let ghost all = it.rest();
    loop
        invariant
            wire::first_with(it.rest(), tag) == wire::first_with(all, tag),
            all == wire::message_chunks(msg@, msg@.len() as int),
        decreases it.rest().len(),
    {
        match it.next() {
            Some(c) => {
                if c.tag == tag {
                    return Some(c.data);
                }
            },
            None => {
                return None;
            },
        }
    }
}

/// Puts the text of the first chunk with a tag into a buffer, as it is displayed, and returns how
/// much of it was taken: zero if there is no room, and `usize::MAX` if there is no such chunk,
/// which leaves the buffer as it is.
fn write_first(msg: &[u8], tag: u16, out: &mut [u8]) -> (r: usize)
    ensures
        ({
            let text = wire::first_with(wire::message_chunks(msg@, msg@.len() as int), tag);
            &&& r == (if old(out)@.len() == 0 {
                0
            } else {
                match text {
                    Some(t) => taken(t.len() as int, old(out)@.len() as int),
                    None => usize::MAX as int,
                }
            })
            &&& final(out)@ == (match text {
                Some(t) => with_text(old(out)@, sanitize::sanitised(t)),
                None => old(out)@,
            })
        }),
{
    if out.len() == 0 {
        return 0;
    }
    match first_payload(msg, tag) {
        Some(t) => {
            let text = displayed(t);
            write_cstr(out, text.as_slice())
        },
        None => usize::MAX,
    }
}

/// A text as it is displayed.
fn displayed(t: &[u8]) -> (r: Vec<u8>)
    ensures
        r@ == sanitize::sanitised(t@),
{
    let mut text: Vec<u8> = Vec::new();
    put_bytes(&mut text, t);
    assert(text@ =~= t@);
    cr2lf(text.as_mut_slice());
    strip_ansi(text.as_mut_slice());
    text
}

/// Puts the text of an error, as it is displayed, into a buffer and returns how much of it was
/// taken: zero if there is no room, and `usize::MAX` if the message carries none, which leaves the
/// buffer as it is.
pub fn gtkhx_proto_parse_task_error(msg: &[u8], out: &mut [u8]) -> (r: usize)
    ensures
        ({
            let text = wire::first_with(
                wire::message_chunks(msg@, msg@.len() as int),
                tag::TASK_ERROR,
            );
            &&& r == (if old(out)@.len() == 0 {
                0
            } else {
                match text {
                    Some(t) => taken(t.len() as int, old(out)@.len() as int),
                    None => usize::MAX as int,
                }
            })
            &&& final(out)@ == (match text {
                Some(t) => with_text(old(out)@, sanitize::sanitised(t)),
                None => old(out)@,
            })
        }),
{
    write_first(msg, tag::TASK_ERROR, out)
}

/// Puts the flat news, as it is displayed, into a buffer and returns how much of it was
/// taken: zero if there is no room, and `usize::MAX` if the message carries none, which leaves the
/// buffer as it is.
pub fn gtkhx_proto_parse_news_file(msg: &[u8], out: &mut [u8]) -> (r: usize)
    ensures
        ({
            let text = wire::first_with(
                wire::message_chunks(msg@, msg@.len() as int),
                tag::NEWS,
            );
            &&& r == (if old(out)@.len() == 0 {
                0
            } else {
                match text {
                    Some(t) => taken(t.len() as int, old(out)@.len() as int),
                    None => usize::MAX as int,
                }
            })
            &&& final(out)@ == (match text {
                Some(t) => with_text(old(out)@, sanitize::sanitised(t)),
                None => old(out)@,
            })
        }),
{
    write_first(msg, tag::NEWS, out)
}

/// The news in some chunks, one C string for each, as they are displayed.
pub open spec fn news_of(chunks: Seq<wire::ChunkView>) -> Seq<Seq<u8>>
    decreases chunks.len(),
{
    if chunks.len() == 0 {
        Seq::empty()
    } else if chunks.last().tag == tag::NEWS {
        news_of(chunks.drop_last()).push(sanitize::sanitised(chunks.last().data).push(0))
    } else {
        news_of(chunks.drop_last())
    }
}

/// The news in a message: a C string for each chunk that holds some, in their order.
pub fn gtkhx_proto_walk_news_post(msg: &[u8]) -> (r: Vec<Vec<u8>>)
    ensures
        r@.map_values(|v: Vec<u8>| v@) == news_of(
            wire::message_chunks(msg@, msg@.len() as int),
        ),
{
    let mut it = ChunkIter::over_message(msg, msg.len());
    let ghost all = it.rest();
    let ghost mut n: int = 0;
    let mut out: Vec<Vec<u8>> = Vec::new();
    assert(out@.map_values(|v: Vec<u8>| v@) =~= news_of(all.take(0)));
    loop
        invariant
            0 <= n <= all.len(),
            it.rest() =~= all.skip(n),
            out@.map_values(|v: Vec<u8>| v@) == news_of(all.take(n)),
        ensures
            n == all.len(),
            out@.map_values(|v: Vec<u8>| v@) == news_of(all.take(n)),
        decreases it.rest().len(),
    {
        match it.next() {
            Some(c) => {
                proof {
                    wire::lemma_walk_step(all, n, c@);
                    n = n + 1;
                }
                if c.tag == tag::NEWS {
                    let mut text = displayed(c.data);
                    text.push(0);
                    let ghost before = out@;
                    out.push(text);
                    assert(out@.map_values(|v: Vec<u8>| v@) =~= before.map_values(
                        |v: Vec<u8>| v@,
                    ).push(text@));
                }
            },
            None => {
                break ;
            },
        }
    }
    assert(all.take(n) =~= all);
    out
}

/// The last chunk with this tag has a payload of `n` bytes.
pub open spec fn is_sized(c: Seq<wire::ChunkView>, tag: u16, n: nat) -> bool {
    wire::last_with(c, tag) matches Some(d) && d.len() == n
}

/// The payload of the last chunk with this tag, or zeros if that is not of `n` bytes.
pub open spec fn sized_or_zeros(c: Seq<wire::ChunkView>, tag: u16, n: nat) -> Seq<u8> {
    if is_sized(c, tag, n) {
        bytes_of(c, tag)
    } else {
        Seq::new(n, |i: int| 0u8)
    }
}

fn sized_array<const N: usize>(msg: &[u8], tag: u16) -> (r: ([u8; N], bool))
    ensures
        r.0@ == sized_or_zeros(replies::body(msg@), tag, N as nat),
        r.1 == is_sized(replies::body(msg@), tag, N as nat),
{
    if let Some(d) = last_payload(msg, tag) {
        if d.len() == N {
            return (bytes::array_of::<N>(d), true);
        }
    }
    let mut blank: Vec<u8> = Vec::new();
    bytes::put_zeros(&mut blank, N);
    assert(blank@ =~= Seq::new(N as nat, |i: int| 0u8));
    (bytes::array_of::<N>(blank.as_slice()), false)
}

/// A banner; its address is in a buffer.
#[derive(Debug, Clone, Copy, PartialEq, Eq)]
pub struct BannerOut {
    pub type_code: [u8; 4],
    pub url_len: u16,
    pub got_type: u8,
    pub has_url: u8,
}

/// A buffer with a text in it, or, if that is missing, with a zero at its start.
pub open spec fn with_optional(buf: Seq<u8>, t: Option<Seq<u8>>) -> Seq<u8> {
    match t {
        Some(t) => with_text(buf, t),
        None => if buf.len() == 0 {
            buf
        } else {
            buf.update(0, 0)
        },
    }
}

/// How much of a text that may be missing is taken.
pub open spec fn optional_taken(t: Option<Seq<u8>>, cap: int) -> int {
    match t {
        Some(t) => taken(t.len() as int, cap),
        None => 0,
    }
}

/// Parses a banner and puts its address into a buffer; without one, the buffer holds an empty text.
/// The kind of a banner has four bytes; another length is as if it were missing.
pub fn gtkhx_proto_parse_banner(msg: &[u8], url_buf: &mut [u8]) -> (r: Option<BannerOut>)
    ensures
        ({
            let kind = sized_or_zeros(replies::body(msg@), tag::BANNER_TYPE, 4);
            let url = wire::last_with(replies::body(msg@), tag::BANNER_URL);
            &&& final(url_buf)@ == with_optional(old(url_buf)@, url)
            &&& match r {
                Some(o) => {
                    &&& old(url_buf)@.len() > 0
                    &&& o.type_code@ == kind
                    &&& o.got_type == flag8(is_sized(replies::body(msg@), tag::BANNER_TYPE, 4))
                    &&& o.has_url == flag8(url is Some)
                    &&& o.url_len == low16(optional_taken(url, old(url_buf)@.len() as int))
                },
                None => old(url_buf)@.len() == 0,
            }
        }),
{
    if url_buf.len() == 0 {
        return None;
    }
    let (type_code, got_type) = sized_array::<4>(msg, tag::BANNER_TYPE);
    let url = last_payload(msg, tag::BANNER_URL);
    let n: usize = match url {
        Some(url) => write_cstr(url_buf, url),
        None => {
            url_buf[0] = 0;
            0
        },
    };
    Some(
        BannerOut {
            type_code,
            url_len: narrow16(n),
            got_type: flag8_of(got_type),
            has_url: flag8_of(url.is_some()),
        },
    )
}

/// There are rules.
pub const HX_AGREEMENT_OK_FFI: u32 = 0;

/// The server says that there are no rules.
pub const HX_AGREEMENT_NONE_FFI: u32 = 1;

/// The server says nothing of rules.
pub const HX_AGREEMENT_MISSING_FFI: u32 = 2;

/// Parses the rules of a server and puts them into a buffer, if there are such and there is room.
/// The length comes back only if something was written.
pub fn gtkhx_proto_parse_agreement(msg: &[u8], out: &mut [u8]) -> (r: (u32, Option<usize>))
    ensures
        ({
            let c = replies::body(msg@);
            match wire::last_with(c, tag::BODY) {
                Some(t) => {
                    &&& r.0 == HX_AGREEMENT_OK_FFI
                    &&& final(out)@ == with_text(old(out)@, sanitize::sanitised(t))
                    &&& match r.1 {
                        Some(n) => old(out)@.len() > 0 && n == taken(
                            t.len() as int,
                            old(out)@.len() as int,
                        ),
                        None => old(out)@.len() == 0,
                    }
                },
                None => {
                    &&& r.0 == (if wire::last_with(c, tag::NOAGREEMENT) is Some {
                        HX_AGREEMENT_NONE_FFI
                    } else {
                        HX_AGREEMENT_MISSING_FFI
                    })
                    &&& r.1 is None
                    &&& final(out)@ == old(out)@
                },
            }
        }),
{
    match last_payload(msg, tag::BODY) {
        Some(t) => {
            if out.len() > 0 {
                let text = displayed(t);
                let n: usize = write_cstr(out, text.as_slice());
                (HX_AGREEMENT_OK_FFI, Some(n))
            } else {
                (HX_AGREEMENT_OK_FFI, None)
            }
        },
        None => {
            if last_payload(msg, tag::NOAGREEMENT).is_some() {
                (HX_AGREEMENT_NONE_FFI, None)
            } else {
                (HX_AGREEMENT_MISSING_FFI, None)
            }
        },
    }
}

// ---------------------------------------------------------------------------------------------
// News.
// ---------------------------------------------------------------------------------------------
/// What a news folder lists.
#[derive(Debug, Clone, Copy, PartialEq, Eq, Structural)]
pub enum NewsDirKind {
    Folder,
    Category,
}

/// An entry of a news folder, as it was parsed.
pub struct NewsDirEntry {
    pub kind: NewsDirKind,
    pub name: Vec<u8>,
}

/// An entry of a news folder; its name is in a buffer.
#[derive(Debug, Clone, Copy, PartialEq, Eq, Structural)]
pub struct NewsDirEntryOut {
    /// 1 for a folder, 2 for a category.
    pub kind: i32,
    pub name_len: u16,
}

/// The number of a kind of entry.
pub open spec fn dir_kind(k: NewsDirKind) -> i32 {
    match k {
        NewsDirKind::Folder => 1,
        NewsDirKind::Category => 2,
    }
}

fn news_dir_kind_to_c(k: NewsDirKind) -> (r: i32)
    ensures
        r == dir_kind(k),
{
    match k {
        NewsDirKind::Folder => 1,
        NewsDirKind::Category => 2,
    }
}

/// Puts the name of an entry of a news folder into a buffer. `None`, and nothing is written, if the
/// entry was rejected or there is no room.
pub fn write_news_dir(e: Option<&NewsDirEntry>, name_buf: &mut [u8]) -> (r: Option<NewsDirEntryOut>)
    ensures
        match e {
            Some(e) => {
                &&& final(name_buf)@ == with_text(old(name_buf)@, e.name@)
                &&& r == (if old(name_buf)@.len() == 0 {
                    None
                } else {
                    Some(
                        NewsDirEntryOut {
                            kind: dir_kind(e.kind),
                            name_len: low16(
                                taken(e.name@.len() as int, old(name_buf)@.len() as int),
                            ),
                        },
                    )
                })
            },
            None => r is None && final(name_buf)@ == old(name_buf)@,
        },
{
    if name_buf.len() == 0 {
        return None;
    }
    match e {
        Some(e) => {
            let n: usize = write_cstr(name_buf, e.name.as_slice());
            Some(NewsDirEntryOut { kind: news_dir_kind_to_c(e.kind), name_len: narrow16(n) })
        },
        None => None,
    }
}

/// A part of a post.
pub struct CatListPart {
    pub mime_type: Vec<u8>,
    pub size: u16,
}

/// A post in the listing of a category.
pub struct CatListPost {
    pub postid: u32,
    pub parentid: u32,
    pub date_seconds: u32,
    pub date_base_year: u16,
    pub date_pad: u16,
    pub partcount: u16,
    pub size_total: u16,
    pub subject: Vec<u8>,
    pub sender: Vec<u8>,
    pub parts: Vec<CatListPart>,
}

/// The listing of a category.
pub struct CatList {
    pub posts: Vec<CatListPost>,
}

/// A post, to look at. Subject and sender are `None` where they are empty.
#[derive(Debug, Clone, Copy)]
pub struct CatListPostView<'a> {
    pub postid: u32,
    pub parentid: u32,
    pub date_seconds: u32,
    pub date_base_year: u16,
    pub date_pad: u16,
    pub partcount: u16,
    pub size_total: u16,
    pub subject: Option<&'a [u8]>,
    pub sender: Option<&'a [u8]>,
}

/// A part of a post, to look at. The type is `None` where it is empty.
#[derive(Debug, Clone, Copy)]
pub struct CatListPartView<'a> {
    pub mime_type: Option<&'a [u8]>,
    pub size: u16,
}

/// A byte string, or `None` if it is empty.
pub open spec fn unless_empty(b: Seq<u8>) -> Option<Seq<u8>> {
    if b.len() == 0 {
        None
    } else {
        Some(b)
    }
}

fn empty_view_ptr(b: &[u8]) -> (r: Option<&[u8]>)
    ensures
        wire::opt_view(r) == unless_empty(b@),
{
    if b.is_empty() {
        None
    } else {
        Some(b)
    }
}

/// How many posts there are, in 32 bits. Without a listing there are none.
pub fn gtkhx_proto_catlist_post_count(cl: Option<&CatList>) -> (r: u32)
    ensures
        r == (match cl {
            Some(cl) => (cl.posts@.len() % 0x1_0000_0000) as u32,
            None => 0,
        }),
{
    match cl {
        Some(cl) => (cl.posts.len() as u64 % 0x1_0000_0000) as u32,
        None => 0,
    }
}

impl CatListPostView<'_> {
    /// The view shows this post.
    pub open spec fn shows(&self, p: CatListPost) -> bool {
        &&& self.postid == p.postid
        &&& self.parentid == p.parentid
        &&& self.date_seconds == p.date_seconds
        &&& self.date_base_year == p.date_base_year
        &&& self.date_pad == p.date_pad
        &&& self.partcount == p.partcount
        &&& self.size_total == p.size_total
        &&& wire::opt_view(self.subject) == unless_empty(p.subject@)
        &&& wire::opt_view(self.sender) == unless_empty(p.sender@)
    }
}

/// The post with this index. `None` if there is none.
pub fn gtkhx_proto_catlist_post_get(
    cl: Option<&CatList>,
    idx: u32,
) -> (r: Option<CatListPostView<'_>>)
    ensures
        match r {
            Some(v) => cl is Some && idx < cl->0.posts@.len() && v.shows(cl->0.posts@[idx as int]),
            None => cl is None || idx >= cl->0.posts@.len(),
        },
{
    let cl = cl?;
    if idx as u64 >= cl.posts.len() as u64 {
        return None;
    }
    let p = &cl.posts[idx as usize];
    Some(
        CatListPostView {
            postid: p.postid,
            parentid: p.parentid,
            date_seconds: p.date_seconds,
            date_base_year: p.date_base_year,
            date_pad: p.date_pad,
            partcount: p.partcount,
            size_total: p.size_total,
            subject: empty_view_ptr(p.subject.as_slice()),
            sender: empty_view_ptr(p.sender.as_slice()),
        },
    )
}

/// The part with this index of the post with that. `None` if there is none.
pub fn gtkhx_proto_catlist_part_get(cl: Option<&CatList>, post_idx: u32, part_idx: u16) -> (r:
    Option<CatListPartView<'_>>)
    ensures
        match r {
            Some(v) => {
                &&& cl is Some
                &&& post_idx < cl->0.posts@.len()
                &&& part_idx < cl->0.posts@[post_idx as int].parts@.len()
                &&& wire::opt_view(v.mime_type) == unless_empty(
                    cl->0.posts@[post_idx as int].parts@[part_idx as int].mime_type@,
                )
                &&& v.size == cl->0.posts@[post_idx as int].parts@[part_idx as int].size
            },
            None => cl is None || post_idx >= cl->0.posts@.len() || part_idx
                >= cl->0.posts@[post_idx as int].parts@.len(),
        },
{
    let cl = cl?;
    if post_idx as u64 >= cl.posts.len() as u64 {
        return None;
    }
    let parts = &cl.posts[post_idx as usize].parts;
    if part_idx as usize >= parts.len() {
        return None;
    }
    let q = &parts[part_idx as usize];
    Some(CatListPartView { mime_type: empty_view_ptr(q.mime_type.as_slice()), size: q.size })
}

/// The reply to a request for a post; the text is in a buffer.
#[derive(Debug, Clone, Copy, PartialEq, Eq, Structural)]
pub struct NewsThreadReplyOut {
    pub thread_id: u32,
    pub text_len: u16,
    pub has_text: u8,
    pub has_task_error: u8,
}

/// The chunks in front of the first one that reports an error.
pub open spec fn until_error(c: Seq<wire::ChunkView>) -> Seq<wire::ChunkView>
    decreases c.len(),
{
    if c.len() == 0 || c[0].tag == tag::TASK_ERROR {
        Seq::empty()
    } else {
        seq![c[0]] + until_error(c.drop_first())
    }
}

/// The text of a post. A reply that reports an error carries none.
pub open spec fn post_text(c: Seq<wire::ChunkView>) -> Option<Seq<u8>> {
    if wire::first_with(c, tag::TASK_ERROR) is Some {
        None
    } else {
        match wire::last_with(c, tag::NEWSDATA) {
            Some(t) => Some(sanitize::sanitised(t)),
            None => None,
        }
    }
}

/// Parses the reply to a request for a post and puts its text into a buffer; without one, the
/// buffer holds an empty text.
pub fn gtkhx_proto_parse_news_thread_reply(msg: &[u8], text_buf: &mut [u8]) -> (r: Option<
    NewsThreadReplyOut,
>)
    ensures
        ({
            let c = replies::body(msg@);
            let text = post_text(c);
            &&& final(text_buf)@ == with_optional(old(text_buf)@, text)
            &&& r == (if old(text_buf)@.len() == 0 {
                None
            } else {
                Some(
                    NewsThreadReplyOut {
                        thread_id: wire::last_uint(until_error(c), tag::THREADID),
                        text_len: low16(optional_taken(text, old(text_buf)@.len() as int)),
                        has_text: flag8(text is Some),
                        has_task_error: flag8(wire::first_with(c, tag::TASK_ERROR) is Some),
                    },
                )
            })
        }),
{
    if text_buf.len() == 0 {
        return None;
    }
    let mut it = ChunkIter::over_message(msg, msg.len());
    let ghost all = it.rest();
    let ghost mut n: int = 0;
    let mut thread_id: u32 = 0;
    let mut failed: bool = false;
    assert(all.skip(0) =~= all);
    assert(all.take(0) + until_error(all) =~= until_error(all));
    loop
        invariant_except_break
            it.rest() == all.skip(n),
            until_error(all) == all.take(n) + until_error(all.skip(n)),
            wire::first_with(all, tag::TASK_ERROR) == wire::first_with(
                all.skip(n),
                tag::TASK_ERROR,
            ),
            !failed,
        invariant
            0 <= n <= all.len(),
            thread_id == wire::last_uint(all.take(n), tag::THREADID),
        ensures
            until_error(all) == all.take(n),
            failed == (wire::first_with(all, tag::TASK_ERROR) is Some),
        decreases all.len() - n,
    {
        let chunk = match it.next() {
            Some(c) => c,
            None => {
                assert(all.take(n) + until_error(all.skip(n)) =~= all.take(n));
                break ;
            },
        };
        if chunk.tag == tag::TASK_ERROR {
            assert(all.take(n) + until_error(all.skip(n)) =~= all.take(n));
            failed = true;
            break ;
        }
        proof {
            wire::lemma_walk_step(all, n, chunk@);
            assert(all.take(n) + (seq![chunk@] + until_error(all.skip(n + 1))) =~= all.take(n + 1)
                + until_error(all.skip(n + 1)));
            n = n + 1;
        }
        if chunk.tag == tag::THREADID {
            thread_id = chunk.as_uint();
        }
    }
    let mut text_len: usize = 0;
    let mut known: bool = false;
    let text = last_payload(msg, tag::NEWSDATA);
    if failed || text.is_none() {
        text_buf[0] = 0;
    } else if let Some(t) = text {
        let shown = displayed(t);
        text_len = write_cstr(text_buf, shown.as_slice());
        known = true;
    }
    Some(
        NewsThreadReplyOut {
            thread_id,
            text_len: narrow16(text_len),
            has_text: flag8_of(known),
            has_task_error: flag8_of(failed),
        },
    )
}

// ---------------------------------------------------------------------------------------------
// Users and accounts.
// ---------------------------------------------------------------------------------------------
/// What a server says of the client itself, as it was parsed.
pub struct SelfInfo<'a> {
    pub access: u64,
    pub nick_color: u32,
    pub uid: u16,
    pub icon: u16,
    pub cached_name: &'a [u8],
    /// Which of the fields were there.
    pub seen: u32,
}

/// What a server says of the client itself. The rights are as they came; the name is `None` where
/// it is empty.
#[derive(Debug, Clone, Copy)]
pub struct SelfInfoC<'a> {
    pub access: [u8; 8],
    pub nick_color: u32,
    pub uid: u16,
    pub icon: u16,
    pub cached_name: Option<&'a [u8]>,
}

/// What a server says of the client itself, and which of it was there.
pub fn gtkhx_proto_parse_selfinfo<'a>(si: &SelfInfo<'a>) -> (r: (SelfInfoC<'a>, u32))
    ensures
        r.0.access@ == bytes::be64_bytes(si.access),
        r.0.nick_color == si.nick_color,
        r.0.uid == si.uid,
        r.0.icon == si.icon,
        wire::opt_view(r.0.cached_name) == unless_empty(si.cached_name@),
        r.1 == si.seen,
{
    let mut access: Vec<u8> = Vec::new();
    put64(&mut access, si.access);
    proof {
        bytes::be64_round_trip(si.access, Seq::empty());
        assert(access@ =~= bytes::be64_bytes(si.access));
    }
    (
        SelfInfoC {
            access: bytes::array_of::<8>(access.as_slice()),
            nick_color: si.nick_color,
            uid: si.uid,
            icon: si.icon,
            cached_name: empty_view_ptr(si.cached_name),
        },
        si.seen,
    )
}

/// What the reply to a login says, but for the name of the server, which is in a buffer. A field is
/// `None` where the server did not send it.
#[derive(Debug, Clone, Copy, PartialEq, Eq, Structural)]
pub struct LoginOut {
    pub caps: Option<u64>,
    pub media_max_bytes: Option<u32>,
    pub media_max_dimension: Option<u32>,
    pub media_max_pixels: Option<u32>,
    pub media_chunk_size: Option<u32>,
    pub media_max_frames: Option<u32>,
    pub media_max_duration_ms: Option<u32>,
    pub history_max_msgs: Option<u32>,
    pub history_max_days: Option<u32>,
    pub uid: Option<u16>,
    pub version: Option<u16>,
    /// The server has sent a name.
    pub named: bool,
}

/// The number in the last chunk with this tag, if there is one.
pub open spec fn sent_number(c: Seq<wire::ChunkView>, tag: u16) -> Option<u32> {
    match wire::last_with(c, tag) {
        Some(_) => Some(wire::last_uint(c, tag)),
        None => None,
    }
}

/// The low sixteen bits of a number that was sent.
pub open spec fn sent_low16(n: Option<u32>) -> Option<u16> {
    match n {
        Some(n) => Some(low16(n as int)),
        None => None,
    }
}

/// What the reply to a login with these chunks says.
pub open spec fn login_of(c: Seq<wire::ChunkView>) -> LoginOut {
    let limits = inline_media::limits_of(c);
    LoginOut {
        caps: match wire::last_with(c, tag::CAPABILITIES) {
            Some(d) => Some(pack::spelled(pack::capability_bytes(d)) as u64),
            None => None,
        },
        media_max_bytes: limits.max_bytes,
        media_max_dimension: limits.max_dimension,
        media_max_pixels: limits.max_pixels,
        media_chunk_size: limits.chunk_size,
        media_max_frames: limits.max_frames,
        media_max_duration_ms: limits.max_duration_ms,
        history_max_msgs: sent_number(c, tag::HISTORY_MAX_MSGS),
        history_max_days: sent_number(c, tag::HISTORY_MAX_DAYS),
        uid: sent_low16(sent_number(c, tag::UID)),
        version: sent_low16(sent_number(c, tag::VERSION)),
        named: wire::last_with(c, tag::SERVERNAME) is Some,
    }
}

fn number_sent(msg: &[u8], tag: u16) -> (r: Option<u32>)
    ensures
        r == sent_number(replies::body(msg@), tag),
{
    match last_payload(msg, tag) {
        Some(_) => Some(last_number(msg, tag)),
        None => None,
    }
}

fn low16_sent(n: Option<u32>) -> (r: Option<u16>)
    ensures
        r == sent_low16(n),
{
    match n {
        Some(n) => Some((n % 0x1_0000) as u16),
        None => None,
    }
}

/// Parses the reply to a login and puts the name of the server into a buffer, which need not have
/// room.
pub fn gtkhx_proto_parse_login(msg: &[u8], servername: &mut [u8]) -> (r: LoginOut)
    ensures
        r == login_of(replies::body(msg@)),
        final(servername)@ == with_text(
            old(servername)@,
            sanitize::sanitised(bytes_of(replies::body(msg@), tag::SERVERNAME)),
        ),
{
    let name = displayed_text(msg, tag::SERVERNAME);
    let _ = write_cstr(servername, name.as_slice());
    let limits = extract_limits_from_message(msg, msg.len());
    let caps: Option<u64> = match last_payload(msg, tag::CAPABILITIES) {
        Some(d) => Some(gtkhx_proto_capabilities_decode(d)),
        None => None,
    };
    LoginOut {
        caps,
        media_max_bytes: limits.max_bytes,
        media_max_dimension: limits.max_dimension,
        media_max_pixels: limits.max_pixels,
        media_chunk_size: limits.chunk_size,
        media_max_frames: limits.max_frames,
        media_max_duration_ms: limits.max_duration_ms,
        history_max_msgs: number_sent(msg, tag::HISTORY_MAX_MSGS),
        history_max_days: number_sent(msg, tag::HISTORY_MAX_DAYS),
        uid: low16_sent(number_sent(msg, tag::UID)),
        version: low16_sent(number_sent(msg, tag::VERSION)),
        named: last_payload(msg, tag::SERVERNAME).is_some(),
    }
}

/// A change of a user; the name is in a buffer. Without a colour of the name there is the one that
/// stands for none.
#[derive(Debug, Clone, Copy, PartialEq, Eq, Structural)]
pub struct UserChangeOut {
    pub cid: u32,
    pub nick_color: u32,
    pub uid: u16,
    pub icon: u16,
    pub color: u16,
    pub got_color: u8,
    pub got_nick_color: u8,
    pub name_len: u16,
}

/// Parses a change of a user and puts their name into a buffer.
pub fn gtkhx_proto_parse_user_change(msg: &[u8], buf: &mut [u8]) -> (r: Option<UserChangeOut>)
    ensures
        ({
            let c = replies::body(msg@);
            let room = old(buf)@.len() > 0;
            let name_text = sanitize::stripped(bytes_of(c, tag::NAME));
            &&& final(buf)@ == (if room {
                with_text(old(buf)@, name_text)
            } else {
                old(buf)@
            })
            &&& r == (if room {
                Some(
                    UserChangeOut {
                        cid: wire::last_uint(c, tag::CHAT_ID),
                        nick_color: nick_color_of(c),
                        uid: low16(wire::last_uint(c, tag::UID) as int),
                        icon: low16(wire::last_uint(c, tag::ICON) as int),
                        color: low16(wire::last_uint(c, tag::COLOUR) as int),
                        got_color: flag8(wire::last_with(c, tag::COLOUR) is Some),
                        got_nick_color: flag8(wire::last_with(c, tag::COLOR) is Some),
                        name_len: low16(taken(name_text.len() as int, old(buf)@.len() as int)),
                    },
                )
            } else {
                None
            })
        }),
{
    if buf.len() == 0 {
        return None;
    }
    let name_text = stripped_text(msg, tag::NAME);
    let name_len: usize = write_cstr(buf, name_text.as_slice());
    Some(
        UserChangeOut {
            cid: last_number(msg, tag::CHAT_ID),
            nick_color: last_nick_color(msg),
            uid: (last_number(msg, tag::UID) % 0x1_0000) as u16,
            icon: (last_number(msg, tag::ICON) % 0x1_0000) as u16,
            color: (last_number(msg, tag::COLOUR) % 0x1_0000) as u16,
            got_color: flag8_of(last_payload(msg, tag::COLOUR).is_some()),
            got_nick_color: flag8_of(last_payload(msg, tag::COLOR).is_some()),
            name_len: narrow16(name_len),
        },
    )
}

/// The colour of a name, or the one that stands for none.
pub open spec fn nick_color_of(c: Seq<wire::ChunkView>) -> u32 {
    match wire::last_with(c, tag::COLOR) {
        Some(d) => wire::uint_of(d),
        None => NICK_COLOR_NONE,
    }
}

fn last_nick_color(msg: &[u8]) -> (r: u32)
    ensures
        r == nick_color_of(replies::body(msg@)),
{
    match last_payload(msg, tag::COLOR) {
        Some(data) => (wire::Chunk { tag: tag::COLOR, data }).as_uint(),
        None => NICK_COLOR_NONE,
    }
}

/// How much of the stated name of a user in a list is there.
pub open spec fn listed_name_len(d: Seq<u8>) -> int {
    if 8 + bytes::be16_at(d, 6) <= d.len() {
        bytes::be16_at(d, 6) as int
    } else {
        d.len() - 8
    }
}

/// The colour behind the name of a user in a list, if there is one.
pub open spec fn listed_color(d: Seq<u8>) -> Option<u32> {
    if 12 + bytes::be16_at(d, 6) <= d.len() {
        Some(bytes::be32_at(d, 8 + bytes::be16_at(d, 6)))
    } else {
        None
    }
}

/// A user in a list; the name is in a buffer.
#[derive(Debug, Clone, Copy, PartialEq, Eq, Structural)]
pub struct UserListRecordOut {
    /// The colour of the name, or the one that stands for none.
    pub nick_color: u32,
    pub uid: u16,
    pub icon: u16,
    pub color: u16,
    pub got_nick_color: u8,
    pub name_len: u16,
}

/// Parses a user in a list and puts their name into a buffer: number, icon, status and the length
/// of the name, then the name and, maybe, its colour. A name that is cut short is taken as far as
/// it goes. `None`, and nothing is written, if even the lengths are cut short or there is no room.
pub fn gtkhx_proto_parse_user_list_record(data: &[u8], name_buf: &mut [u8]) -> (r: Option<
    UserListRecordOut,
>)
    ensures
        ({
            let d = data@;
            let name = sanitize::stripped(d.subrange(8, 8 + listed_name_len(d)));
            if d.len() < 8 || old(name_buf)@.len() == 0 {
                r is None && final(name_buf)@ == old(name_buf)@
            } else {
                &&& final(name_buf)@ == with_text(old(name_buf)@, name)
                &&& r == Some(
                    UserListRecordOut {
                        nick_color: match listed_color(d) {
                            Some(c) => c,
                            None => NICK_COLOR_NONE,
                        },
                        uid: bytes::be16_at(d, 0),
                        icon: bytes::be16_at(d, 2),
                        color: bytes::be16_at(d, 4),
                        got_nick_color: flag8(listed_color(d) is Some),
                        name_len: low16(taken(name.len() as int, old(name_buf)@.len() as int)),
                    },
                )
            }
        }),
{
    if name_buf.len() == 0 || data.len() < 8 {
        return None;
    }
    let stated: usize = get16(data, 6) as usize;
    let there: usize = if stated <= data.len() - 8 {
        stated
    } else {
        data.len() - 8
    };
    let mut name: Vec<u8> = Vec::new();
    put_bytes(&mut name, slice_subrange(data, 8, 8 + there));
    assert(name@ =~= data@.subrange(8, 8 + there));
    strip_ansi(name.as_mut_slice());
    let n: usize = write_cstr(name_buf, name.as_slice());
    let nick_color: Option<u32> = if data.len() - 8 >= 4 && stated <= data.len() - 12 {
        Some(get32(data, 8 + stated))
    } else {
        None
    };
    Some(
        UserListRecordOut {
            nick_color: match nick_color {
                Some(c) => c,
                None => NICK_COLOR_NONE,
            },
            uid: get16(data, 0),
            icon: get16(data, 2),
            color: get16(data, 4),
            got_nick_color: flag8_of(nick_color.is_some()),
            name_len: narrow16(n),
        },
    )
}

/// What is known of a user; the texts are in buffers.
#[derive(Debug, Clone, Copy, PartialEq, Eq, Structural)]
pub struct UserInfoOut {
    pub name_len: u16,
    pub info_len: u16,
}

/// Parses what is known of a user and puts their name and the rest into buffers.
pub fn gtkhx_proto_parse_user_info(
    msg: &[u8],
    name_buf: &mut [u8],
    info_buf: &mut [u8],
) -> (r: Option<UserInfoOut>)
    ensures
        ({
            let c = replies::body(msg@);
            let room = old(name_buf)@.len() > 0 && old(info_buf)@.len() > 0;
            let name_text = sanitize::stripped(bytes_of(c, tag::NAME));
            let info_text = sanitize::sanitised(bytes_of(c, tag::BODY));
            &&& final(name_buf)@ == (if room {
                with_text(old(name_buf)@, name_text)
            } else {
                old(name_buf)@
            })
            &&& final(info_buf)@ == (if room {
                with_text(old(info_buf)@, info_text)
            } else {
                old(info_buf)@
            })
            &&& r == (if room {
                Some(
                    UserInfoOut {
                        name_len: low16(taken(name_text.len() as int, old(name_buf)@.len() as int)),
                        info_len: low16(taken(info_text.len() as int, old(info_buf)@.len() as int)),
                    },
                )
            } else {
                None
            })
        }),
{
    if name_buf.len() == 0 || info_buf.len() == 0 {
        return None;
    }
    let name_text = stripped_text(msg, tag::NAME);
    let name_len: usize = write_cstr(name_buf, name_text.as_slice());
    let info_text = displayed_text(msg, tag::BODY);
    let info_len: usize = write_cstr(info_buf, info_text.as_slice());
    Some(
        UserInfoOut {
            name_len: narrow16(name_len),
            info_len: narrow16(info_len),
        },
    )
}

/// A text with every bit turned over, which is how logins and passwords travel.
pub open spec fn turned_over(s: Seq<u8>) -> Seq<u8> {
    s.map_values(|b: u8| b ^ 0xffu8)
}

/// Turning a text over twice gives it back.
pub proof fn turned_over_twice(s: Seq<u8>)
    ensures
        turned_over(turned_over(s)) == s,
{
    assert forall|i: int| 0 <= i < s.len() implies turned_over(turned_over(s))[i] == s[i] by {
        let b = s[i];
        assert((b ^ 0xffu8) ^ 0xffu8 == b) by (bit_vector);
    }
    assert(turned_over(turned_over(s)) =~= s);
}

/// A password. A single byte, or one that starts with a zero, stands for none.
pub open spec fn password_of(s: Seq<u8>) -> Seq<u8> {
    if s.len() > 1 && s[0] != 0 {
        turned_over(s)
    } else {
        Seq::empty()
    }
}

fn turn_over(s: &[u8]) -> (r: Vec<u8>)
    ensures
        r@ == turned_over(s@),
{
    let mut out: Vec<u8> = Vec::new();
    let mut i: usize = 0;
    while i < s.len()
        invariant
            i <= s@.len(),
            out@ =~= turned_over(s@.take(i as int)),
        decreases s@.len() - i,
    {
        out.push(s[i] ^ 0xff);
        i = i + 1;
    }
    assert(s@.take(i as int) =~= s@);
    out
}

fn login_text(msg: &[u8], tag: u16) -> (r: Vec<u8>)
    ensures
        r@ == turned_over(bytes_of(replies::body(msg@), tag)),
{
    let text = raw_text(msg, tag);
    turn_over(text.as_slice())
}

fn password_text(msg: &[u8], tag: u16) -> (r: Vec<u8>)
    ensures
        r@ == password_of(bytes_of(replies::body(msg@), tag)),
{
    let text = raw_text(msg, tag);
    if text.len() > 1 && text[0] != 0 {
        turn_over(text.as_slice())
    } else {
        Vec::new()
    }
}

/// An account; the texts are in buffers.
#[derive(Debug, Clone, Copy, PartialEq, Eq)]
pub struct AccountReadOut {
    pub access: [u8; 8],
    pub got_access: u8,
    pub name_len: u16,
    pub login_len: u16,
    pub pass_len: u16,
}

/// Parses an account and puts its name, login and password into buffers. The rights have eight
/// bytes; another length is as if they were missing.
pub fn gtkhx_proto_parse_account_read(
    msg: &[u8],
    name_buf: &mut [u8],
    login_buf: &mut [u8],
    pass_buf: &mut [u8],
) -> (r: Option<AccountReadOut>)
    ensures
        ({
            let c = replies::body(msg@);
            let room = old(name_buf)@.len() > 0 && old(login_buf)@.len() > 0
                && old(pass_buf)@.len() > 0;
            let name_text = bytes_of(c, tag::NAME);
            let login_text = turned_over(bytes_of(c, tag::LOGIN));
            let pass_text = password_of(bytes_of(c, tag::PASSWORD));
            &&& final(name_buf)@ == (if room {
                with_text(old(name_buf)@, name_text)
            } else {
                old(name_buf)@
            })
            &&& final(login_buf)@ == (if room {
                with_text(old(login_buf)@, login_text)
            } else {
                old(login_buf)@
            })
            &&& final(pass_buf)@ == (if room {
                with_text(old(pass_buf)@, pass_text)
            } else {
                old(pass_buf)@
            })
            &&& match r {
                Some(o) => {
                    &&& room
                    &&& o.access@ == sized_or_zeros(c, tag::ACCESS, 8)
                    &&& o.got_access == flag8(is_sized(c, tag::ACCESS, 8))
                    &&& o.name_len == low16(
                        taken(name_text.len() as int, old(name_buf)@.len() as int),
                    )
                    &&& o.login_len == low16(
                        taken(login_text.len() as int, old(login_buf)@.len() as int),
                    )
                    &&& o.pass_len == low16(
                        taken(pass_text.len() as int, old(pass_buf)@.len() as int),
                    )
                },
                None => !room,
            }
        }),
{
    if name_buf.len() == 0 || login_buf.len() == 0 || pass_buf.len() == 0 {
        return None;
    }
    let name_text = raw_text(msg, tag::NAME);
    let name_len: usize = write_cstr(name_buf, name_text.as_slice());
    let login_text = login_text(msg, tag::LOGIN);
    let login_len: usize = write_cstr(login_buf, login_text.as_slice());
    let pass_text = password_text(msg, tag::PASSWORD);
    let pass_len: usize = write_cstr(pass_buf, pass_text.as_slice());
    Some(
        AccountReadOut {
            access: sized_array::<8>(msg, tag::ACCESS).0,
            got_access: flag8_of(sized_array::<8>(msg, tag::ACCESS).1),
            name_len: narrow16(name_len),
            login_len: narrow16(login_len),
            pass_len: narrow16(pass_len),
        },
    )
}

// ---------------------------------------------------------------------------------------------
// Files.
// ---------------------------------------------------------------------------------------------
/// A size in up to four bytes, the most significant first. Other lengths count as zero.
pub open spec fn short_size(d: Seq<u8>) -> u32 {
    if d.len() == 1 {
        d[0] as u32
    } else if d.len() == 2 {
        bytes::be16(d) as u32
    } else if d.len() == 3 {
        (d[0] * 0x1_0000 + bytes::be16_at(d, 1)) as u32
    } else if d.len() == 4 {
        bytes::be32(d)
    } else {
        0
    }
}

fn last_short_size(msg: &[u8]) -> (r: u32)
    ensures
        r == short_size(bytes_of(replies::body(msg@), tag::FILE_SIZE)),
{
    let d = match last_payload(msg, tag::FILE_SIZE) {
        Some(d) => d,
        None => {
            return 0;
        },
    };
    if d.len() == 1 {
        d[0] as u32
    } else if d.len() == 2 {
        assert(d@.subrange(0, 2) =~= d@);
        get16(d, 0) as u32
    } else if d.len() == 3 {
        d[0] as u32 * 0x1_0000 + get16(d, 1) as u32
    } else if d.len() == 4 {
        assert(d@.subrange(0, 4) =~= d@);
        get32(d, 0)
    } else {
        0
    }
}

/// A size in eight bytes, or zero.
pub open spec fn size64_in(c: Seq<wire::ChunkView>) -> u64 {
    if is_sized(c, tag::FILESIZE64, 8) {
        bytes::be64(bytes_of(c, tag::FILESIZE64))
    } else {
        0
    }
}

fn last_size64(msg: &[u8]) -> (r: u64)
    ensures
        r == size64_in(replies::body(msg@)),
{
    let (d, known) = sized_array::<8>(msg, tag::FILESIZE64);
    if known {
        assert(d@.subrange(0, 8) =~= d@);
        get64(&d, 0)
    } else {
        0
    }
}

/// What is known of a file; the texts are in buffers.
#[derive(Debug, Clone, Copy, PartialEq, Eq)]
pub struct FileGetInfoOut {
    pub icon: [u8; 4],
    pub date_create: [u8; 8],
    pub date_modify: [u8; 8],
    pub size: u32,
    pub size64: u64,
    pub size64_seen: u8,
    pub got_icon: u8,
    pub name_len: u16,
    pub type_len: u16,
    pub creator_len: u16,
    pub comment_len: u16,
}

/// Parses what is known of a file and puts its name, type, creator and comment into buffers.
pub fn gtkhx_proto_parse_file_getinfo(
    msg: &[u8],
    name_buf: &mut [u8],
    type_buf: &mut [u8],
    creator_buf: &mut [u8],
    comment_buf: &mut [u8],
) -> (r: Option<FileGetInfoOut>)
    ensures
        ({
            let c = replies::body(msg@);
            let room = old(name_buf)@.len() > 0 && old(type_buf)@.len() > 0
                && old(creator_buf)@.len() > 0 && old(comment_buf)@.len() > 0;
            let name_text = sanitize::stripped(bytes_of(c, tag::FILE_NAME));
            let type_text = bytes_of(c, tag::FILE_TYPE);
            let creator_text = bytes_of(c, tag::FILE_CREATOR);
            let comment_text = sanitize::sanitised(bytes_of(c, tag::FILE_COMMENT));
            &&& final(name_buf)@ == (if room {
                with_text(old(name_buf)@, name_text)
            } else {
                old(name_buf)@
            })
            &&& final(type_buf)@ == (if room {
                with_text(old(type_buf)@, type_text)
            } else {
                old(type_buf)@
            })
            &&& final(creator_buf)@ == (if room {
                with_text(old(creator_buf)@, creator_text)
            } else {
                old(creator_buf)@
            })
            &&& final(comment_buf)@ == (if room {
                with_text(old(comment_buf)@, comment_text)
            } else {
                old(comment_buf)@
            })
            &&& match r {
                Some(o) => {
                    &&& room
                    &&& o.icon@ == sized_or_zeros(c, tag::FILE_ICON, 4)
                    &&& o.date_create@ == sized_or_zeros(c, tag::FILE_DATE_CREATE, 8)
                    &&& o.date_modify@ == sized_or_zeros(c, tag::FILE_DATE_MODIFY, 8)
                    &&& o.size == short_size(bytes_of(c, tag::FILE_SIZE))
                    &&& o.size64 == size64_in(c)
                    &&& o.size64_seen == flag8(is_sized(c, tag::FILESIZE64, 8))
                    &&& o.got_icon == flag8(is_sized(c, tag::FILE_ICON, 4))
                    &&& o.name_len == low16(
                        taken(name_text.len() as int, old(name_buf)@.len() as int),
                    )
                    &&& o.type_len == low16(
                        taken(type_text.len() as int, old(type_buf)@.len() as int),
                    )
                    &&& o.creator_len == low16(
                        taken(creator_text.len() as int, old(creator_buf)@.len() as int),
                    )
                    &&& o.comment_len == low16(
                        taken(comment_text.len() as int, old(comment_buf)@.len() as int),
                    )
                },
                None => !room,
            }
        }),
{
    if name_buf.len() == 0 || type_buf.len() == 0 || creator_buf.len() == 0
        || comment_buf.len() == 0 {
        return None;
    }
    let name_text = stripped_text(msg, tag::FILE_NAME);
    let name_len: usize = write_cstr(name_buf, name_text.as_slice());
    let type_text = raw_text(msg, tag::FILE_TYPE);
    let type_len: usize = write_cstr(type_buf, type_text.as_slice());
    let creator_text = raw_text(msg, tag::FILE_CREATOR);
    let creator_len: usize = write_cstr(creator_buf, creator_text.as_slice());
    let comment_text = displayed_text(msg, tag::FILE_COMMENT);
    let comment_len: usize = write_cstr(comment_buf, comment_text.as_slice());
    Some(
        FileGetInfoOut {
            icon: sized_array::<4>(msg, tag::FILE_ICON).0,
            date_create: sized_array::<8>(msg, tag::FILE_DATE_CREATE).0,
            date_modify: sized_array::<8>(msg, tag::FILE_DATE_MODIFY).0,
            size: last_short_size(msg),
            size64: last_size64(msg),
            size64_seen: flag8_of(sized_array::<8>(msg, tag::FILESIZE64).1),
            got_icon: flag8_of(sized_array::<4>(msg, tag::FILE_ICON).1),
            name_len: narrow16(name_len),
            type_len: narrow16(type_len),
            creator_len: narrow16(creator_len),
            comment_len: narrow16(comment_len),
        },
    )
}

// ---------------------------------------------------------------------------------------------
// History.
// ---------------------------------------------------------------------------------------------
/// A line of the history of a channel. Name and text are places in the entry.
#[derive(Debug, Clone, Copy, PartialEq, Eq, Structural)]
pub struct HistoryEntryOut {
    pub message_id: u64,
    /// Seconds since 1970, negative before.
    pub timestamp: i64,
    pub flags: u16,
    pub icon_id: u16,
    pub nick_off: u16,
    pub nick_len: u16,
    pub msg_off: u16,
    pub msg_len: u16,
}

/// A number in two's complement.
pub open spec fn signed64(v: u64) -> i64 {
    if v < 0x8000_0000_0000_0000 {
        v as i64
    } else {
        (v - 0x1_0000_0000_0000_0000) as i64
    }
}

/// The entry that the bytes hold: number, time, flags and icon, then the length of the name and the
/// name, then the length of the text and the text. `None` if it is cut short, or if a place in it
/// does not fit into sixteen bits.
pub open spec fn history_entry_of(b: Seq<u8>) -> Option<HistoryEntryOut> {
    let nick_len = bytes::be16_at(b, 20);
    let msg_len = bytes::be16_at(b, 22 + nick_len);
    if b.len() < 24 || 24 + nick_len > b.len() || 24 + nick_len + msg_len > b.len() || 24 + nick_len
        > u16::MAX {
        None
    } else {
        Some(
            HistoryEntryOut {
                message_id: bytes::be64_at(b, 0),
                timestamp: signed64(bytes::be64_at(b, 8)),
                flags: bytes::be16_at(b, 16),
                icon_id: bytes::be16_at(b, 18),
                nick_off: 22,
                nick_len,
                msg_off: (24 + nick_len) as u16,
                msg_len,
            },
        )
    }
}

/// Parses an entry of the history of a channel.
pub fn gtkhx_proto_parse_history_entry(data: &[u8]) -> (r: Option<HistoryEntryOut>)
    ensures
        r == history_entry_of(data@),
{
    if data.len() < 24 {
        return None;
    }
    let nick_len: u16 = get16(data, 20);
    if data.len() - 24 < nick_len as usize {
        return None;
    }
    let msg_len: u16 = get16(data, 22 + nick_len as usize);
    if data.len() - 24 - (nick_len as usize) < msg_len as usize {
        return None;
    }
    if nick_len > u16::MAX - 24 {
        return None;
    }
    let time: u64 = get64(data, 8);
    let timestamp: i64 = if time < 0x8000_0000_0000_0000 {
        time as i64
    } else {
        (time as i128 - 0x1_0000_0000_0000_0000i128) as i64
    };
    Some(
        HistoryEntryOut {
            message_id: get64(data, 0),
            timestamp,
            flags: get16(data, 16),
            icon_id: get16(data, 18),
            nick_off: 22,
            nick_len,
            msg_off: 24 + nick_len,
            msg_len,
        },
    )
}

/// The bytes of an entry.
pub open spec fn history_bytes(
    message_id: u64,
    timestamp: u64,
    flags: u16,
    icon_id: u16,
    nick: Seq<u8>,
    msg: Seq<u8>,
) -> Seq<u8> {
    bytes::be64_bytes(message_id) + bytes::be64_bytes(timestamp) + bytes::be16_bytes(flags)
        + bytes::be16_bytes(icon_id) + bytes::be16_bytes(nick.len() as u16) + nick
        + bytes::be16_bytes(msg.len() as u16) + msg
}

proof fn lemma_history_pieces(
    id: Seq<u8>,
    time: Seq<u8>,
    flags: Seq<u8>,
    icon: Seq<u8>,
    n: Seq<u8>,
    nick: Seq<u8>,
    m: Seq<u8>,
    msg: Seq<u8>,
)
    requires
        id.len() == 8,
        time.len() == 8,
        flags.len() == 2,
        icon.len() == 2,
        n.len() == 2,
        m.len() == 2,
    ensures
        ({
            let b = id + time + flags + icon + n + nick + m + msg;
            &&& b.len() == 24 + nick.len() + msg.len()
            &&& b.subrange(0, 8) == id
            &&& b.subrange(8, 16) == time
            &&& b.subrange(16, 18) == flags
            &&& b.subrange(18, 20) == icon
            &&& b.subrange(20, 22) == n
            &&& b.subrange(22, 22 + nick.len() as int) == nick
            &&& b.subrange(22 + nick.len() as int, 24 + nick.len() as int) == m
            &&& b.subrange(24 + nick.len() as int, 24 + (nick.len() + msg.len()) as int) == msg
        }),
{
    let b = id + time + flags + icon + n + nick + m + msg;
    assert(b.subrange(0, 8) =~= id);
    assert(b.subrange(8, 16) =~= time);
    assert(b.subrange(16, 18) =~= flags);
    assert(b.subrange(18, 20) =~= icon);
    assert(b.subrange(20, 22) =~= n);
    assert(b.subrange(22, 22 + nick.len() as int) =~= nick);
    assert(b.subrange(22 + nick.len() as int, 24 + nick.len() as int) =~= m);
    assert(b.subrange(24 + nick.len() as int, 24 + (nick.len() + msg.len()) as int) =~= msg);
}

/// An entry is read back as it was written, and its places are those of the name and of the text.
pub proof fn history_round_trip(
    message_id: u64,
    timestamp: u64,
    flags: u16,
    icon_id: u16,
    nick: Seq<u8>,
    msg: Seq<u8>,
)
    requires
        24 + nick.len() <= u16::MAX,
        msg.len() <= u16::MAX,
    ensures
        ({
            let b = history_bytes(message_id, timestamp, flags, icon_id, nick, msg);
            let e = HistoryEntryOut {
                message_id,
                timestamp: signed64(timestamp),
                flags,
                icon_id,
                nick_off: 22,
                nick_len: nick.len() as u16,
                msg_off: (24 + nick.len()) as u16,
                msg_len: msg.len() as u16,
            };
            &&& history_entry_of(b) == Some(e)
            &&& b.subrange(e.nick_off as int, e.nick_off + e.nick_len) == nick
            &&& b.subrange(e.msg_off as int, e.msg_off + e.msg_len) == msg
        }),
{
    bytes::be64_round_trip(message_id, Seq::empty());
    bytes::be64_round_trip(timestamp, Seq::empty());
    bytes::be16_round_trip(flags, Seq::empty());
    bytes::be16_round_trip(icon_id, Seq::empty());
    bytes::be16_round_trip(nick.len() as u16, Seq::empty());
    bytes::be16_round_trip(msg.len() as u16, Seq::empty());
    lemma_history_pieces(
        bytes::be64_bytes(message_id),
        bytes::be64_bytes(timestamp),
        bytes::be16_bytes(flags),
        bytes::be16_bytes(icon_id),
        bytes::be16_bytes(nick.len() as u16),
        nick,
        bytes::be16_bytes(msg.len() as u16),
        msg,
    );
}

// ---------------------------------------------------------------------------------------------
// What every call does, in numbers.
// ---------------------------------------------------------------------------------------------
/// What the last field with a tag says; nothing if there is none.
pub open spec fn said(c: Seq<wire::ChunkView>, tag: u16, t: Seq<u8>) -> bool {
    match wire::last_with(c, tag) {
        Some(d) => t == d,
        None => t.len() == 0,
    }
}

/// How a byte is displayed: bytes above 13 and below 31 that a terminal might act on are moved up by
/// 64.
pub open spec fn displayed_byte(b: u8) -> int {
    if 13 < b < 31 && b != 15 && b != 22 {
        b + 64
    } else {
        b as int
    }
}

/// A name as it is displayed.
pub open spec fn name_shown(t: Seq<u8>, d: Seq<u8>) -> bool {
    d.len() == t.len() && forall|i: int|
        0 <= i < t.len() ==> (#[trigger] d[i]) as int == displayed_byte(t[i])
}

/// A text as it is displayed: like a name, and with line feeds for carriage returns.
pub open spec fn text_shown(t: Seq<u8>, d: Seq<u8>) -> bool {
    d.len() == t.len() && forall|i: int|
        0 <= i < t.len() ==> (#[trigger] d[i]) as int == (if t[i] == 0x0d {
            0x0a
        } else {
            displayed_byte(t[i])
        })
}

/// How much of a text has room in a buffer: all of it, or all but the byte for the end.
pub open spec fn cut(len: nat, cap: nat, k: int) -> bool {
    cap > 0 ==> 0 <= k <= len && k < cap && (k == len || k == cap - 1)
}

/// A buffer got the first bytes of a text and a zero behind them, and is as it was behind that.
pub open spec fn placed(before: Seq<u8>, after: Seq<u8>, t: Seq<u8>, k: int) -> bool {
    &&& after.len() == before.len()
    &&& after.take(k) == t.take(k)
    &&& after[k] == 0
    &&& forall|i: int| k < i < after.len() ==> #[trigger] after[i] == before[i]
}

proof fn lemma_placed(before: Seq<u8>, t: Seq<u8>, k: int)
    requires
        before.len() > 0,
        cut(t.len(), before.len(), k),
    ensures
        taken(t.len() as int, before.len() as int) == k,
        placed(before, with_text(before, t), t, k),
{
    assert(with_text(before, t).take(k) =~= t.take(k));
}

proof fn lemma_name_shown(t: Seq<u8>, d: Seq<u8>)
    requires
        name_shown(t, d),
    ensures
        d == sanitize::stripped(t),
{
    assert(d =~= sanitize::stripped(t));
}

proof fn lemma_text_shown(t: Seq<u8>, d: Seq<u8>)
    requires
        text_shown(t, d),
    ensures
        d == sanitize::sanitised(t),
{
    assert(d =~= sanitize::sanitised(t));
}

proof fn lemma_said(c: Seq<wire::ChunkView>, tag: u16, t: Seq<u8>)
    requires
        said(c, tag, t),
    ensures
        bytes_of(c, tag) == t,
{
    if wire::last_with(c, tag) is None {
        assert(t =~= Seq::<u8>::empty());
    }
}

/// A text is written into a buffer as far as there is room, with a zero behind it, and how long it
/// is there is said. A buffer without room stays.
pub proof fn texts_end_in_zero(dst: &mut [u8], src: &[u8], r: usize, k: int)
    requires
        call_ensures(write_cstr, (dst, src), r),
        cut(src@.len(), dst@.len(), k),
    ensures
        old(dst)@.len() == 0 ==> r == 0 && final(dst)@ == old(dst)@,
        old(dst)@.len() > 0 ==> r == k && placed(old(dst)@, final(dst)@, src@, k),
{
    if old(dst)@.len() > 0 {
        lemma_placed(old(dst)@, src@, k);
    }
}

/// A subject comes with its room, from field 0x73, as it is.
pub proof fn subjects_are_read(
    msg: &[u8],
    n: usize,
    it: ChunkIter<'_>,
    buf: &mut [u8],
    r: Option<ChatSubjectOut>,
    t0: Seq<u8>,
    k0: int,
)
    requires
        n == msg@.len(),
        call_ensures(ChunkIter::over_message, (msg, n), it),
        call_ensures(gtkhx_proto_parse_chat_subject, (msg, buf), r),
        said(it.rest(), 0x73, t0),
        cut(t0.len(), buf@.len(), k0),
    ensures
        ({
            let room = old(buf)@.len() > 0;
            &&& !room ==> r is None && final(buf)@ == old(buf)@
            &&& room ==> r is Some
            &&& room ==> placed(old(buf)@, final(buf)@, t0, k0)
            &&& r matches Some(o) ==> o.subject_len == k0 % 0x1_0000
            &&& r matches Some(o) ==> o.cid == wire::last_uint(it.rest(), 0x72)
        }),
{
    lemma_said(it.rest(), 0x73, t0);
    if old(buf)@.len() > 0 {
        lemma_placed(old(buf)@, t0, k0);
    }
}

/// An invitation comes with its room and its user, whose name is in field 0x66, as it is.
pub proof fn invitations_are_read(
    msg: &[u8],
    n: usize,
    it: ChunkIter<'_>,
    buf: &mut [u8],
    r: Option<ChatInviteOut>,
    t0: Seq<u8>,
    k0: int,
)
    requires
        n == msg@.len(),
        call_ensures(ChunkIter::over_message, (msg, n), it),
        call_ensures(gtkhx_proto_parse_chat_invite, (msg, buf), r),
        said(it.rest(), 0x66, t0),
        cut(t0.len(), buf@.len(), k0),
    ensures
        ({
            let room = old(buf)@.len() > 0;
            &&& !room ==> r is None && final(buf)@ == old(buf)@
            &&& room ==> r is Some
            &&& room ==> placed(old(buf)@, final(buf)@, t0, k0)
            &&& r matches Some(o) ==> o.name_len == k0 % 0x1_0000
            &&& r matches Some(o) ==> o.cid == wire::last_uint(it.rest(), 0x72)
            &&& r matches Some(o) ==> o.uid == wire::last_uint(it.rest(), 0x67) % 0x1_0000
        }),
{
    lemma_said(it.rest(), 0x66, t0);
    if old(buf)@.len() > 0 {
        lemma_placed(old(buf)@, t0, k0);
    }
}

/// A message comes with its user, whose name is in field 0x66, and its text is in field 0x65.
pub proof fn messages_are_read(
    msg: &[u8],
    n: usize,
    it: ChunkIter<'_>,
    name_buf: &mut [u8],
    msg_buf: &mut [u8],
    r: Option<MsgOut>,
    t0: Seq<u8>,
    d0: Seq<u8>,
    k0: int,
    t1: Seq<u8>,
    d1: Seq<u8>,
    k1: int,
)
    requires
        n == msg@.len(),
        call_ensures(ChunkIter::over_message, (msg, n), it),
        call_ensures(gtkhx_proto_parse_msg, (msg, name_buf, msg_buf), r),
        said(it.rest(), 0x66, t0),
        name_shown(t0, d0),
        cut(d0.len(), name_buf@.len(), k0),
        said(it.rest(), 0x65, t1),
        text_shown(t1, d1),
        cut(d1.len(), msg_buf@.len(), k1),
    ensures
        ({
            let room = old(name_buf)@.len() > 0 && old(msg_buf)@.len() > 0;
            &&& !room ==> r is None && final(name_buf)@ == old(name_buf)@ && final(msg_buf)@ == old(msg_buf)@
            &&& room ==> r is Some
            &&& room ==> placed(old(name_buf)@, final(name_buf)@, d0, k0)
            &&& r matches Some(o) ==> o.name_len == k0 % 0x1_0000
            &&& room ==> placed(old(msg_buf)@, final(msg_buf)@, d1, k1)
            &&& r matches Some(o) ==> o.msg_len == k1 % 0x1_0000
            &&& r matches Some(o) ==> o.uid == wire::last_uint(it.rest(), 0x67) % 0x1_0000
        }),
{
    lemma_said(it.rest(), 0x66, t0);
    lemma_name_shown(t0, d0);
    if old(name_buf)@.len() > 0 {
        lemma_placed(old(name_buf)@, d0, k0);
    }
    lemma_said(it.rest(), 0x65, t1);
    lemma_text_shown(t1, d1);
    if old(msg_buf)@.len() > 0 {
        lemma_placed(old(msg_buf)@, d1, k1);
    }
}

/// What is known of a user: the name in field 0x66 and a text in field 0x65.
pub proof fn user_info_is_read(
    msg: &[u8],
    n: usize,
    it: ChunkIter<'_>,
    name_buf: &mut [u8],
    info_buf: &mut [u8],
    r: Option<UserInfoOut>,
    t0: Seq<u8>,
    d0: Seq<u8>,
    k0: int,
    t1: Seq<u8>,
    d1: Seq<u8>,
    k1: int,
)
    requires
        n == msg@.len(),
        call_ensures(ChunkIter::over_message, (msg, n), it),
        call_ensures(gtkhx_proto_parse_user_info, (msg, name_buf, info_buf), r),
        said(it.rest(), 0x66, t0),
        name_shown(t0, d0),
        cut(d0.len(), name_buf@.len(), k0),
        said(it.rest(), 0x65, t1),
        text_shown(t1, d1),
        cut(d1.len(), info_buf@.len(), k1),
    ensures
        ({
            let room = old(name_buf)@.len() > 0 && old(info_buf)@.len() > 0;
            &&& !room ==> r is None && final(name_buf)@ == old(name_buf)@ && final(info_buf)@ == old(info_buf)@
            &&& room ==> r is Some
            &&& room ==> placed(old(name_buf)@, final(name_buf)@, d0, k0)
            &&& r matches Some(o) ==> o.name_len == k0 % 0x1_0000
            &&& room ==> placed(old(info_buf)@, final(info_buf)@, d1, k1)
            &&& r matches Some(o) ==> o.info_len == k1 % 0x1_0000
        }),
{
    lemma_said(it.rest(), 0x66, t0);
    lemma_name_shown(t0, d0);
    if old(name_buf)@.len() > 0 {
        lemma_placed(old(name_buf)@, d0, k0);
    }
    lemma_said(it.rest(), 0x65, t1);
    lemma_text_shown(t1, d1);
    if old(info_buf)@.len() > 0 {
        lemma_placed(old(info_buf)@, d1, k1);
    }
}

/// A change of a user: room, user, icon in field 0x68, colour in 0x70 and nickname colour in 0x500,
/// which is all ones if there is none. Whether the two colours were sent is said.
pub proof fn user_changes_are_read(
    msg: &[u8],
    n: usize,
    it: ChunkIter<'_>,
    buf: &mut [u8],
    r: Option<UserChangeOut>,
    t0: Seq<u8>,
    d0: Seq<u8>,
    k0: int,
)
    requires
        n == msg@.len(),
        call_ensures(ChunkIter::over_message, (msg, n), it),
        call_ensures(gtkhx_proto_parse_user_change, (msg, buf), r),
        said(it.rest(), 0x66, t0),
        name_shown(t0, d0),
        cut(d0.len(), buf@.len(), k0),
    ensures
        ({
            let room = old(buf)@.len() > 0;
            &&& !room ==> r is None && final(buf)@ == old(buf)@
            &&& room ==> r is Some
            &&& room ==> placed(old(buf)@, final(buf)@, d0, k0)
            &&& r matches Some(o) ==> o.name_len == k0 % 0x1_0000
            &&& r matches Some(o) ==> o.cid == wire::last_uint(it.rest(), 0x72)
            &&& r matches Some(o) ==> o.uid == wire::last_uint(it.rest(), 0x67) % 0x1_0000
            &&& r matches Some(o) ==> o.icon == wire::last_uint(it.rest(), 0x68) % 0x1_0000
            &&& r matches Some(o) ==> o.color == wire::last_uint(it.rest(), 0x70) % 0x1_0000
            &&& r matches Some(o) ==> (o.got_color == 1 <==> wire::last_with(it.rest(), 0x70) is Some)
            &&& r matches Some(o) ==> o.got_color <= 1
            &&& r matches Some(o) ==> (o.got_nick_color == 1 <==> wire::last_with(it.rest(), 0x0500) is Some)
            &&& r matches Some(o) ==> o.got_nick_color <= 1
            &&& r matches Some(o) ==> (wire::last_with(it.rest(), 0x0500) is None ==> o.nick_color == 0xffff_ffff)
            &&& r matches Some(o) ==> (wire::last_with(it.rest(), 0x0500) is Some ==> o.nick_color == wire::last_uint(it.rest(), 0x0500))
        }),
{
    lemma_said(it.rest(), 0x66, t0);
    lemma_name_shown(t0, d0);
    if old(buf)@.len() > 0 {
        lemma_placed(old(buf)@, d0, k0);
    }
}

/// A field of so many bytes, or zeros if the last field with its tag has another length.
pub open spec fn exactly(
    c: Seq<wire::ChunkView>,
    tag: u16,
    n: nat,
    b: Seq<u8>,
    got: u8,
) -> bool {
    match wire::last_with(c, tag) {
        Some(d) => if d.len() == n {
            b == d && got == 1
        } else {
            b == Seq::new(n, |i: int| 0u8) && got == 0
        },
        None => b == Seq::new(n, |i: int| 0u8) && got == 0,
    }
}

proof fn lemma_exactly(c: Seq<wire::ChunkView>, tag: u16, n: nat)
    ensures
        exactly(c, tag, n, sized_or_zeros(c, tag, n), flag8(is_sized(c, tag, n))),
{
}

/// Logins and passwords are sent with every bit turned over.
pub open spec fn turned(t: Seq<u8>, d: Seq<u8>) -> bool {
    d.len() == t.len() && forall|i: int| 0 <= i < t.len() ==> (#[trigger] d[i]) == t[i] ^ 0xff
}

/// A password of one byte, or one that starts with zero, is none.
pub open spec fn unlocked(t: Seq<u8>, d: Seq<u8>) -> bool {
    if t.len() > 1 && t[0] != 0 {
        turned(t, d)
    } else {
        d.len() == 0
    }
}

proof fn lemma_unlocked(t: Seq<u8>, d: Seq<u8>)
    requires
        unlocked(t, d),
    ensures
        d == password_of(t),
{
    if t.len() > 1 && t[0] != 0 {
        assert(d =~= turned_over(t));
    } else {
        assert(d =~= Seq::<u8>::empty());
    }
}

/// Turning every bit over makes 255 of zero, and gives a byte and its counterpart a sum of 255.
pub proof fn turned_bytes_add_up(b: u8)
    ensures
        (b ^ 0xff) + b == 255,
{
    assert((b ^ 0xffu8) + b == 255) by (bit_vector);
}

/// An account: the name in field 0x66 as it is, login and password in 0x69 and 0x6a with their bits
/// turned over, and the eight bytes of access in 0x6e.
pub proof fn accounts_are_read(
    msg: &[u8],
    n: usize,
    it: ChunkIter<'_>,
    name_buf: &mut [u8],
    login_buf: &mut [u8],
    pass_buf: &mut [u8],
    r: Option<AccountReadOut>,
    t0: Seq<u8>,
    k0: int,
    t1: Seq<u8>,
    d1: Seq<u8>,
    k1: int,
    t2: Seq<u8>,
    d2: Seq<u8>,
    k2: int,
)
    requires
        n == msg@.len(),
        call_ensures(ChunkIter::over_message, (msg, n), it),
        call_ensures(gtkhx_proto_parse_account_read, (msg, name_buf, login_buf, pass_buf), r),
        said(it.rest(), 0x66, t0),
        cut(t0.len(), name_buf@.len(), k0),
        said(it.rest(), 0x69, t1),
        turned(t1, d1),
        cut(d1.len(), login_buf@.len(), k1),
        said(it.rest(), 0x6a, t2),
        unlocked(t2, d2),
        cut(d2.len(), pass_buf@.len(), k2),
    ensures
        ({
            let room = old(name_buf)@.len() > 0 && old(login_buf)@.len() > 0 && old(pass_buf)@.len() > 0;
            &&& !room ==> r is None && final(name_buf)@ == old(name_buf)@ && final(login_buf)@ == old(login_buf)@ && final(pass_buf)@ == old(pass_buf)@
            &&& room ==> r is Some
            &&& room ==> placed(old(name_buf)@, final(name_buf)@, t0, k0)
            &&& r matches Some(o) ==> o.name_len == k0 % 0x1_0000
            &&& room ==> placed(old(login_buf)@, final(login_buf)@, d1, k1)
            &&& r matches Some(o) ==> o.login_len == k1 % 0x1_0000
            &&& room ==> placed(old(pass_buf)@, final(pass_buf)@, d2, k2)
            &&& r matches Some(o) ==> o.pass_len == k2 % 0x1_0000
            &&& r matches Some(o) ==> exactly(it.rest(), 0x6e, 8, o.access@, o.got_access)
        }),
{
    lemma_said(it.rest(), 0x66, t0);
    if old(name_buf)@.len() > 0 {
        lemma_placed(old(name_buf)@, t0, k0);
    }
    lemma_said(it.rest(), 0x69, t1);
    assert(d1 =~= turned_over(t1));
    if old(login_buf)@.len() > 0 {
        lemma_placed(old(login_buf)@, d1, k1);
    }
    lemma_said(it.rest(), 0x6a, t2);
    lemma_unlocked(t2, d2);
    if old(pass_buf)@.len() > 0 {
        lemma_placed(old(pass_buf)@, d2, k2);
    }
    lemma_exactly(it.rest(), 0x6e, 8);
}

/// The number in one to four bytes, the highest first; other lengths are no number.
pub open spec fn short_number(t: Seq<u8>, size: u32) -> bool {
    &&& t.len() == 1 ==> size == t[0]
    &&& t.len() == 2 ==> size == t[0] * 0x100 + t[1]
    &&& t.len() == 3 ==> size == t[0] * 0x1_0000 + t[1] * 0x100 + t[2]
    &&& t.len() == 4 ==> size == t[0] * 0x100_0000 + t[1] * 0x1_0000 + t[2] * 0x100 + t[3]
    &&& t.len() == 0 || t.len() > 4 ==> size == 0
}

proof fn lemma_short_number(t: Seq<u8>)
    ensures
        short_number(t, short_size(t)),
{
    reveal(bytes::be32);
    if t.len() == 3 {
        assert(t.subrange(1, 3)[0] == t[1] && t.subrange(1, 3)[1] == t[2]);
    }
}

/// What is known of a file: name, type, creator and comment in fields 0xc9, 0xcd, 0xce and 0xd2, the
/// icon in 0xd5, the two dates in 0xd0 and 0xd1, the size in 0xcf, and in eight bytes in 0x1f1.
pub proof fn file_info_is_read(
    msg: &[u8],
    n: usize,
    it: ChunkIter<'_>,
    name_buf: &mut [u8],
    type_buf: &mut [u8],
    creator_buf: &mut [u8],
    comment_buf: &mut [u8],
    r: Option<FileGetInfoOut>,
    t0: Seq<u8>,
    d0: Seq<u8>,
    k0: int,
    t1: Seq<u8>,
    k1: int,
    t2: Seq<u8>,
    k2: int,
    t3: Seq<u8>,
    d3: Seq<u8>,
    k3: int,
)
    requires
        n == msg@.len(),
        call_ensures(ChunkIter::over_message, (msg, n), it),
        call_ensures(gtkhx_proto_parse_file_getinfo, (msg, name_buf, type_buf, creator_buf, comment_buf), r),
        said(it.rest(), 0xc9, t0),
        name_shown(t0, d0),
        cut(d0.len(), name_buf@.len(), k0),
        said(it.rest(), 0xcd, t1),
        cut(t1.len(), type_buf@.len(), k1),
        said(it.rest(), 0xce, t2),
        cut(t2.len(), creator_buf@.len(), k2),
        said(it.rest(), 0xd2, t3),
        text_shown(t3, d3),
        cut(d3.len(), comment_buf@.len(), k3),
    ensures
        ({
            let room = old(name_buf)@.len() > 0 && old(type_buf)@.len() > 0 && old(creator_buf)@.len() > 0 && old(comment_buf)@.len() > 0;
            &&& !room ==> r is None && final(name_buf)@ == old(name_buf)@ && final(type_buf)@ == old(type_buf)@ && final(creator_buf)@ == old(creator_buf)@ && final(comment_buf)@ == old(comment_buf)@
            &&& room ==> r is Some
            &&& room ==> placed(old(name_buf)@, final(name_buf)@, d0, k0)
            &&& r matches Some(o) ==> o.name_len == k0 % 0x1_0000
            &&& room ==> placed(old(type_buf)@, final(type_buf)@, t1, k1)
            &&& r matches Some(o) ==> o.type_len == k1 % 0x1_0000
            &&& room ==> placed(old(creator_buf)@, final(creator_buf)@, t2, k2)
            &&& r matches Some(o) ==> o.creator_len == k2 % 0x1_0000
            &&& room ==> placed(old(comment_buf)@, final(comment_buf)@, d3, k3)
            &&& r matches Some(o) ==> o.comment_len == k3 % 0x1_0000
            &&& r matches Some(o) ==> exactly(it.rest(), 0xd5, 4, o.icon@, o.got_icon)
        }),
{
    lemma_said(it.rest(), 0xc9, t0);
    lemma_name_shown(t0, d0);
    if old(name_buf)@.len() > 0 {
        lemma_placed(old(name_buf)@, d0, k0);
    }
    lemma_said(it.rest(), 0xcd, t1);
    if old(type_buf)@.len() > 0 {
        lemma_placed(old(type_buf)@, t1, k1);
    }
    lemma_said(it.rest(), 0xce, t2);
    if old(creator_buf)@.len() > 0 {
        lemma_placed(old(creator_buf)@, t2, k2);
    }
    lemma_said(it.rest(), 0xd2, t3);
    lemma_text_shown(t3, d3);
    if old(comment_buf)@.len() > 0 {
        lemma_placed(old(comment_buf)@, d3, k3);
    }
    lemma_exactly(it.rest(), 0xd5, 4);
}

/// The dates and sizes of a file, and their fields.
pub proof fn file_numbers_are_read(
    msg: &[u8],
    n: usize,
    it: ChunkIter<'_>,
    name_buf: &mut [u8],
    type_buf: &mut [u8],
    creator_buf: &mut [u8],
    comment_buf: &mut [u8],
    o: FileGetInfoOut,
    t: Seq<u8>,
)
    requires
        n == msg@.len(),
        call_ensures(ChunkIter::over_message, (msg, n), it),
        call_ensures(
            gtkhx_proto_parse_file_getinfo,
            (msg, name_buf, type_buf, creator_buf, comment_buf),
            Some(o),
        ),
        said(it.rest(), 0xcf, t),
    ensures
        exists|got: u8| exactly(it.rest(), 0xd0, 8, o.date_create@, got),
        exists|got: u8| exactly(it.rest(), 0xd1, 8, o.date_modify@, got),
        short_number(t, o.size),
        ({
            let large = wire::last_with(it.rest(), 0x01f1);
            let sent = large is Some && large->0.len() == 8;
            &&& sent ==> o.size64_seen == 1 && o.size64 == bytes::be64_at(large->0, 0)
            &&& !sent ==> o.size64_seen == 0 && o.size64 == 0
        }),
{
    lemma_said(it.rest(), 0xcf, t);
    lemma_short_number(t);
    lemma_exactly(it.rest(), 0xd0, 8);
    lemma_exactly(it.rest(), 0xd1, 8);
    if let Some(d) = wire::last_with(it.rest(), 0x01f1) {
        if d.len() == 8 {
            assert(d.subrange(0, 8) =~= d);
        }
    }
}

/// A chat line comes with its room and its user, and its text from field 0x65. A line feed in front
/// of it is passed over.
pub proof fn chat_lines_are_read(
    msg: &[u8],
    n: usize,
    it: ChunkIter<'_>,
    buf: &mut [u8],
    r: Option<ChatOut>,
    t: Seq<u8>,
    d: Seq<u8>,
    k: int,
)
    requires
        n == msg@.len(),
        call_ensures(ChunkIter::over_message, (msg, n), it),
        call_ensures(gtkhx_proto_parse_chat, (msg, buf), r),
        said(it.rest(), 0x65, t),
        text_shown(t, d),
        cut(d.len(), buf@.len(), k),
    ensures
        old(buf)@.len() == 0 ==> r is None && final(buf)@ == old(buf)@,
        old(buf)@.len() > 0 ==> r is Some && placed(old(buf)@, final(buf)@, d, k),
        r matches Some(o) ==> {
            &&& o.cid == wire::last_uint(it.rest(), 0x72)
            &&& o.uid == wire::last_uint(it.rest(), 0x67) % 0x1_0000
            &&& k > 0 && d[0] == 0x0a ==> o.text_off == 1 && o.text_len == (k - 1) % 0x1_0000
            &&& k == 0 || d[0] != 0x0a ==> o.text_off == 0 && o.text_len == k % 0x1_0000
        },
{
    lemma_said(it.rest(), 0x65, t);
    lemma_text_shown(t, d);
    if old(buf)@.len() > 0 {
        lemma_placed(old(buf)@, d, k);
    }
}

/// The text of an error is in the first field 0x64, and the news in the first field 0x65. Without
/// such a field nothing is written.
pub proof fn errors_and_news_are_read(
    msg: &[u8],
    n: usize,
    it: ChunkIter<'_>,
    out: &mut [u8],
    r: usize,
    tag: u16,
    d: Seq<u8>,
    k: int,
)
    requires
        n == msg@.len(),
        call_ensures(ChunkIter::over_message, (msg, n), it),
        (tag == 0x64 && call_ensures(gtkhx_proto_parse_task_error, (msg, out), r)) || (tag == 0x65
            && call_ensures(gtkhx_proto_parse_news_file, (msg, out), r)),
        wire::first_with(it.rest(), tag) matches Some(t) ==> text_shown(t, d) && cut(
            t.len(),
            out@.len(),
            k,
        ),
    ensures
        wire::first_with(it.rest(), tag) is None ==> final(out)@ == old(out)@,
        old(out)@.len() == 0 ==> r == 0 && final(out)@ == old(out)@,
        wire::first_with(it.rest(), tag) is None && old(out)@.len() > 0 ==> r == usize::MAX,
        wire::first_with(it.rest(), tag) is Some && old(out)@.len() > 0 ==> r == k && placed(
            old(out)@,
            final(out)@,
            d,
            k,
        ),
{
    if let Some(t) = wire::first_with(it.rest(), tag) {
        lemma_text_shown(t, d);
        if old(out)@.len() > 0 {
            lemma_placed(old(out)@, d, k);
        }
    }
}

/// Posts come in the order of their fields 0x65, each with a zero behind it, and other fields are
/// none.
pub proof fn posts_come_in_order(chunks: Seq<wire::ChunkView>, c: wire::ChunkView, d: Seq<u8>)
    requires
        text_shown(c.data, d),
    ensures
        news_of(Seq::empty()).len() == 0,
        c.tag == 0x65 ==> news_of(chunks.push(c)) == news_of(chunks).push(d.push(0)),
        c.tag != 0x65 ==> news_of(chunks.push(c)) == news_of(chunks),
{
    lemma_text_shown(c.data, d);
    assert(chunks.push(c).drop_last() =~= chunks);
}

/// The posts of a message are those of its chunks.
pub proof fn posts_are_read(msg: &[u8], n: usize, it: ChunkIter<'_>, r: Vec<Vec<u8>>, i: int)
    requires
        n == msg@.len(),
        call_ensures(ChunkIter::over_message, (msg, n), it),
        call_ensures(gtkhx_proto_walk_news_post, (msg,), r),
    ensures
        r@.len() == news_of(it.rest()).len(),
        0 <= i < r@.len() ==> r@[i]@ == news_of(it.rest())[i],
{
    let views = r@.map_values(|v: Vec<u8>| v@);
    assert(views.len() == r@.len());
    if 0 <= i < r@.len() {
        assert(views[i] == r@[i]@);
    }
}

/// A banner: its kind in the four bytes of field 0x98, and its address in field 0x99, without which
/// the buffer holds an empty text.
pub proof fn banners_are_read(
    msg: &[u8],
    n: usize,
    it: ChunkIter<'_>,
    buf: &mut [u8],
    r: Option<BannerOut>,
    t: Seq<u8>,
    k: int,
)
    requires
        n == msg@.len(),
        call_ensures(ChunkIter::over_message, (msg, n), it),
        call_ensures(gtkhx_proto_parse_banner, (msg, buf), r),
        said(it.rest(), 0x99, t),
        cut(t.len(), buf@.len(), k),
    ensures
        old(buf)@.len() == 0 ==> r is None && final(buf)@ == old(buf)@,
        old(buf)@.len() > 0 ==> r is Some && placed(old(buf)@, final(buf)@, t, k),
        r matches Some(o) ==> {
            &&& exactly(it.rest(), 0x98, 4, o.type_code@, o.got_type)
            &&& o.has_url <= 1 && (o.has_url == 1 <==> wire::last_with(it.rest(), 0x99) is Some)
            &&& o.url_len == k % 0x1_0000
        },
{
    lemma_said(it.rest(), 0x99, t);
    lemma_exactly(it.rest(), 0x98, 4);
    if old(buf)@.len() > 0 {
        lemma_placed(old(buf)@, t, k);
        if wire::last_with(it.rest(), 0x99) is None {
            assert(k == 0);
            assert(final(buf)@.take(0) =~= t.take(0));
        }
    }
}

/// An agreement is in field 0x65. Without one, field 0x9a says that there is none; if that is missing
/// too, so is the agreement.
pub proof fn agreements_are_read(
    msg: &[u8],
    n: usize,
    it: ChunkIter<'_>,
    out: &mut [u8],
    r: (u32, Option<usize>),
    d: Seq<u8>,
    k: int,
)
    requires
        n == msg@.len(),
        call_ensures(ChunkIter::over_message, (msg, n), it),
        call_ensures(gtkhx_proto_parse_agreement, (msg, out), r),
        wire::last_with(it.rest(), 0x65) matches Some(t) ==> text_shown(t, d) && cut(
            t.len(),
            out@.len(),
            k,
        ),
    ensures
        ({
            let text = wire::last_with(it.rest(), 0x65) is Some;
            let none = wire::last_with(it.rest(), 0x9a) is Some;
            &&& text ==> r.0 == 0
            &&& !text && none ==> r.0 == 1
            &&& !text && !none ==> r.0 == 2
            &&& r.1 is Some <==> text && old(out)@.len() > 0
            &&& r.1 is Some ==> r.1 == Some(k as usize) && placed(old(out)@, final(out)@, d, k)
            &&& r.1 is None ==> final(out)@ == old(out)@
        }),
{
    if let Some(t) = wire::last_with(it.rest(), 0x65) {
        lemma_text_shown(t, d);
        if old(out)@.len() > 0 {
            lemma_placed(old(out)@, d, k);
        }
    }
}

/// An entry of the news: 1 for a folder and 2 for a category, and its name as it is.
pub proof fn news_entries_are_written(
    e: Option<&NewsDirEntry>,
    buf: &mut [u8],
    r: Option<NewsDirEntryOut>,
    k: int,
)
    requires
        call_ensures(write_news_dir, (e, buf), r),
        e matches Some(x) ==> cut(x.name@.len(), buf@.len(), k),
    ensures
        r is Some <==> e is Some && old(buf)@.len() > 0,
        r is None ==> final(buf)@ == old(buf)@,
        r matches Some(o) ==> {
            &&& e->0.kind is Folder ==> o.kind == 1
            &&& e->0.kind is Category ==> o.kind == 2
            &&& o.name_len == k % 0x1_0000
            &&& placed(old(buf)@, final(buf)@, e->0.name@, k)
        },
{
    if let Some(x) = e {
        if old(buf)@.len() > 0 {
            lemma_placed(old(buf)@, x.name@, k);
        }
    }
}

/// A list of posts gives each by its place, and each part of a post by its own. Texts that are empty
/// are not shown.
pub proof fn posts_are_got(
    cl: &CatList,
    i: u32,
    j: u16,
    count: u32,
    r: Option<CatListPostView<'_>>,
    p: Option<CatListPartView<'_>>,
)
    requires
        cl.posts@.len() <= 0xffff_ffff,
        call_ensures(gtkhx_proto_catlist_post_count, (Some(cl),), count),
        call_ensures(gtkhx_proto_catlist_post_get, (Some(cl), i), r),
        call_ensures(gtkhx_proto_catlist_part_get, (Some(cl), i, j), p),
    ensures
        count == cl.posts@.len(),
        r is Some <==> i < cl.posts@.len(),
        r matches Some(v) ==> {
            let post = cl.posts@[i as int];
            &&& v.postid == post.postid && v.parentid == post.parentid
            &&& v.date_seconds == post.date_seconds && v.date_base_year == post.date_base_year
            &&& v.date_pad == post.date_pad && v.partcount == post.partcount
            &&& v.size_total == post.size_total
            &&& post.subject@.len() == 0 ==> v.subject is None
            &&& post.subject@.len() > 0 ==> v.subject is Some && v.subject->0@ == post.subject@
            &&& post.sender@.len() == 0 ==> v.sender is None
            &&& post.sender@.len() > 0 ==> v.sender is Some && v.sender->0@ == post.sender@
        },
        p is Some <==> i < cl.posts@.len() && j < cl.posts@[i as int].parts@.len(),
        p matches Some(v) ==> {
            let part = cl.posts@[i as int].parts@[j as int];
            &&& v.size == part.size
            &&& part.mime_type@.len() == 0 ==> v.mime_type is None
            &&& part.mime_type@.len() > 0 ==> v.mime_type is Some && v.mime_type->0@
                == part.mime_type@
        },
{
}

/// The reply with a post: an error in field 0x64 hides the text, and the thread counts only if it
/// stands before one. The text is in field 0x14d and the thread in field 0x146.
pub proof fn post_replies_are_read(
    msg: &[u8],
    n: usize,
    it: ChunkIter<'_>,
    buf: &mut [u8],
    r: Option<NewsThreadReplyOut>,
    t: Seq<u8>,
    d: Seq<u8>,
    k: int,
)
    requires
        n == msg@.len(),
        call_ensures(ChunkIter::over_message, (msg, n), it),
        call_ensures(gtkhx_proto_parse_news_thread_reply, (msg, buf), r),
        wire::first_with(it.rest(), 0x64) is None ==> said(it.rest(), 0x014d, t),
        wire::first_with(it.rest(), 0x64) is Some ==> t.len() == 0,
        text_shown(t, d),
        cut(d.len(), buf@.len(), k),
    ensures
        old(buf)@.len() == 0 ==> r is None && final(buf)@ == old(buf)@,
        old(buf)@.len() > 0 ==> r is Some && placed(old(buf)@, final(buf)@, d, k),
        r matches Some(o) ==> {
            let error = wire::first_with(it.rest(), 0x64) is Some;
            &&& o.has_task_error <= 1 && (o.has_task_error == 1 <==> error)
            &&& o.has_text <= 1 && (o.has_text == 1 <==> !error && wire::last_with(
                it.rest(),
                0x014d,
            ) is Some)
            &&& o.text_len == k % 0x1_0000
            &&& !error ==> o.thread_id == wire::last_uint(it.rest(), 0x0146)
        },
{
    let c = it.rest();
    lemma_text_shown(t, d);
    if wire::first_with(c, 0x64) is None {
        lemma_no_error(c);
        lemma_said(c, 0x014d, t);
    }
    if old(buf)@.len() > 0 {
        lemma_placed(old(buf)@, d, k);
        if post_text(c) is None {
            assert(k == 0);
            assert(final(buf)@.take(0) =~= d.take(0));
        }
    }
}

proof fn lemma_no_error(c: Seq<wire::ChunkView>)
    requires
        wire::first_with(c, 0x64) is None,
    ensures
        until_error(c) == c,
    decreases c.len(),
{
    if c.len() > 0 {
        lemma_no_error(c.drop_first());
        assert(seq![c[0]] + c.drop_first() =~= c);
    } else {
        assert(c =~= Seq::<wire::ChunkView>::empty());
    }
}

/// Behind an error nothing of a reply counts.
pub proof fn errors_end_replies(c: Seq<wire::ChunkView>, i: int)
    requires
        0 <= i < c.len(),
        c[i].tag == 0x64,
        forall|j: int| 0 <= j < i ==> (#[trigger] c[j]).tag != 0x64,
    ensures
        until_error(c) == c.take(i),
    decreases i,
{
    if i > 0 {
        let rest = c.drop_first();
        assert(c[0].tag != 0x64);
        assert forall|j: int| 0 <= j < i - 1 implies (#[trigger] rest[j]).tag != 0x64 by {
            assert(rest[j] == c[j + 1]);
        }
        errors_end_replies(rest, i - 1);
        assert(seq![c[0]] + rest.take(i - 1) =~= c.take(i));
    } else {
        assert(c.take(0) =~= Seq::<wire::ChunkView>::empty());
    }
}

/// What a client knows of itself is handed on, access in eight bytes, the highest first, and an
/// empty name not at all.
pub proof fn own_info_is_handed_on(si: &SelfInfo<'_>, r: (SelfInfoC<'_>, u32))
    requires
        call_ensures(gtkhx_proto_parse_selfinfo, (si,), r),
    ensures
        bytes::be64_at(r.0.access@, 0) == si.access,
        r.0.nick_color == si.nick_color && r.0.uid == si.uid && r.0.icon == si.icon,
        si.cached_name@.len() == 0 ==> r.0.cached_name is None,
        si.cached_name@.len() > 0 ==> r.0.cached_name is Some && r.0.cached_name->0@
            == si.cached_name@,
        r.1 == si.seen,
{
    bytes::be64_round_trip(si.access, Seq::empty());
    assert(r.0.access@.subrange(0, 8) =~= r.0.access@);
}

/// The reply to a login: capabilities in field 0x1f0, what is kept of the history in 0xf07 and 0xf08,
/// the user in 0x67 and the version in 0xa0, each if it was sent, and the name of the server in
/// 0xa2.
pub proof fn logins_are_read(
    msg: &[u8],
    n: usize,
    it: ChunkIter<'_>,
    buf: &mut [u8],
    r: LoginOut,
    t: Seq<u8>,
    d: Seq<u8>,
    k: int,
    caps: &[u8],
    decoded: u64,
    limits: inline_media::LimitsAdvertisement,
)
    requires
        n == msg@.len(),
        call_ensures(ChunkIter::over_message, (msg, n), it),
        call_ensures(gtkhx_proto_parse_login, (msg, buf), r),
        said(it.rest(), 0xa2, t),
        text_shown(t, d),
        cut(d.len(), buf@.len(), k),
        wire::last_with(it.rest(), 0x01f0) matches Some(b) ==> caps@ == b,
        call_ensures(gtkhx_proto_capabilities_decode, (caps,), decoded),
        call_ensures(extract_limits_from_message, (msg, n), limits),
    ensures
        old(buf)@.len() > 0 ==> placed(old(buf)@, final(buf)@, d, k),
        old(buf)@.len() == 0 ==> final(buf)@ == old(buf)@,
        r.named <==> wire::last_with(it.rest(), 0xa2) is Some,
        r.caps is Some <==> wire::last_with(it.rest(), 0x01f0) is Some,
        r.caps matches Some(c) ==> c == decoded,
        r.history_max_msgs is Some <==> wire::last_with(it.rest(), 0x0f07) is Some,
        r.history_max_msgs matches Some(m) ==> m == wire::last_uint(it.rest(), 0x0f07),
        r.history_max_days is Some <==> wire::last_with(it.rest(), 0x0f08) is Some,
        r.history_max_days matches Some(m) ==> m == wire::last_uint(it.rest(), 0x0f08),
        r.uid is Some <==> wire::last_with(it.rest(), 0x67) is Some,
        r.uid matches Some(m) ==> m == wire::last_uint(it.rest(), 0x67) % 0x1_0000,
        r.version is Some <==> wire::last_with(it.rest(), 0xa0) is Some,
        r.version matches Some(m) ==> m == wire::last_uint(it.rest(), 0xa0) % 0x1_0000,
        r.media_max_bytes == limits.max_bytes && r.media_max_dimension == limits.max_dimension,
        r.media_max_pixels == limits.max_pixels && r.media_chunk_size == limits.chunk_size,
        r.media_max_frames == limits.max_frames && r.media_max_duration_ms
            == limits.max_duration_ms,
{
    lemma_said(it.rest(), 0xa2, t);
    lemma_text_shown(t, d);
    if old(buf)@.len() > 0 {
        lemma_placed(old(buf)@, d, k);
    }
}

/// A record of the user list: id, icon, colour and the length of the name, two bytes each, the name,
/// and perhaps four bytes of nickname colour. A name that is cut short is taken as far as it goes.
pub proof fn user_records_are_read(
    data: &[u8],
    buf: &mut [u8],
    r: Option<UserListRecordOut>,
    len: int,
    t: Seq<u8>,
    d: Seq<u8>,
    k: int,
)
    requires
        call_ensures(gtkhx_proto_parse_user_list_record, (data, buf), r),
        data@.len() >= 8 ==> len == (if 8 + bytes::be16_at(data@, 6) <= data@.len() {
            bytes::be16_at(data@, 6) as int
        } else {
            data@.len() - 8
        }) && t == data@.subrange(8, 8 + len),
        name_shown(t, d),
        cut(d.len(), buf@.len(), k),
    ensures
        r is Some <==> data@.len() >= 8 && old(buf)@.len() > 0,
        r is None ==> final(buf)@ == old(buf)@,
        r matches Some(o) ==> {
            let color = data@.len() >= 12 + bytes::be16_at(data@, 6);
            &&& placed(old(buf)@, final(buf)@, d, k)
            &&& o.uid == bytes::be16_at(data@, 0)
            &&& o.icon == bytes::be16_at(data@, 2)
            &&& o.color == bytes::be16_at(data@, 4)
            &&& o.name_len == k % 0x1_0000
            &&& color ==> o.got_nick_color == 1 && o.nick_color == bytes::be32_at(
                data@,
                8 + bytes::be16_at(data@, 6),
            )
            &&& !color ==> o.got_nick_color == 0 && o.nick_color == 0xffff_ffff
        },
{
    lemma_name_shown(t, d);
    if data@.len() >= 8 && old(buf)@.len() > 0 {
        lemma_placed(old(buf)@, d, k);
    }
}

/// An entry of the history: id and time in eight bytes each, flags, icon, and nickname and line, each
/// behind its length. A time from the middle on is negative. An entry that is cut short is none.
pub proof fn history_entries_are_read(b: &[u8], r: Option<HistoryEntryOut>)
    requires
        call_ensures(gtkhx_proto_parse_history_entry, (b,), r),
    ensures
        r is Some <==> b@.len() >= 24 && 24 + bytes::be16_at(b@, 20) <= b@.len() && 24
            + bytes::be16_at(b@, 20) + bytes::be16_at(b@, 22 + bytes::be16_at(b@, 20)) <= b@.len()
            && 24 + bytes::be16_at(b@, 20) <= 0xffff,
        r matches Some(o) ==> {
            let time = bytes::be64_at(b@, 8);
            &&& o.message_id == bytes::be64_at(b@, 0)
            &&& time < 0x8000_0000_0000_0000 ==> o.timestamp == time
            &&& time >= 0x8000_0000_0000_0000 ==> o.timestamp == time - 0x1_0000_0000_0000_0000
            &&& o.flags == bytes::be16_at(b@, 16)
            &&& o.icon_id == bytes::be16_at(b@, 18)
            &&& o.nick_off == 22
            &&& o.nick_len == bytes::be16_at(b@, 20)
            &&& o.msg_off == o.nick_off + o.nick_len + 2
            &&& o.msg_len == bytes::be16_at(b@, o.msg_off - 2)
        },
{
}

} // verus!
