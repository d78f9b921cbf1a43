//! Replies on transfers, and other notices that carry only numbers.
//!
//! Each number comes from the last chunk that carries it, and is zero if none does.
use crate::bytes;
use crate::bytes::{get32, get64};
use crate::messages::tag;
use crate::wire;
use crate::wire::ChunkIter;
use vstd::prelude::*;

verus! {

/// The chunks of a message.
pub open spec fn body(msg: Seq<u8>) -> Seq<wire::ChunkView> {
    wire::message_chunks(msg, msg.len() as int)
}

/// The payload of the last chunk of a message with this tag.
pub(crate) fn last_payload(msg: &[u8], tag: u16) -> (r: Option<&[u8]>)
    ensures
        wire::opt_view(r) == wire::last_with(body(msg@), tag),
{
    let mut it = ChunkIter::over_message(msg, msg.len());
    let ghost all = it.rest();
    let ghost mut n: int = 0;
    let mut found: Option<&[u8]> = None;
    assert(all.skip(0) =~= all);
    loop
        invariant
            0 <= n <= all.len(),
            it.rest() == all.skip(n),
            wire::opt_view(found) == wire::last_with(all.take(n), tag),
        ensures
            n == all.len(),
        decreases all.len() - n,
    {
        let chunk = match it.next() {
            Some(c) => c,
            None => {
                break ;
            },
        };
        proof {
            wire::lemma_walk_step(all, n, chunk@);
            n = n + 1;
        }
        if chunk.tag == tag {
            found = Some(chunk.data);
        }
    }
    assert(all.take(n) =~= all);
    found
}

/// The number in the last chunk of a message with this tag.
pub(crate) fn last_number(msg: &[u8], tag: u16) -> (r: u32)
    ensures
        r == wire::last_uint(body(msg@), tag),
{
    match last_payload(msg, tag) {
        Some(data) => (wire::Chunk { tag, data }).as_uint(),
        None => 0,
    }
}

/// The size in eight bytes, if the last chunk for it has that many.
pub open spec fn size64_of(chunks: Seq<wire::ChunkView>) -> Option<u64> {
    match wire::last_with(chunks, tag::XFERSIZE64) {
        Some(data) => if data.len() == 8 {
            Some(bytes::be64(data))
        } else {
            None
        },
        None => None,
    }
}

fn last_size64(msg: &[u8]) -> (r: Option<u64>)
    ensures
        r == size64_of(body(msg@)),
{
    let data = last_payload(msg, tag::XFERSIZE64)?;
    if data.len() != 8 {
        return None;
    }
    assert(data@.subrange(0, 8) =~= data@);
    Some(get64(data, 0))
}

/// A place in the queue for a transfer; zero means that it can start.
#[derive(Debug, Clone, Copy, PartialEq, Eq, Structural)]
pub struct XferQueueOut {
    pub htxf_ref: u32,
    pub queueid: u32,
}

/// Parses a place in the queue for a transfer.
pub fn gtkhx_proto_parse_xfer_queue(msg: &[u8]) -> (r: XferQueueOut)
    ensures
        r.htxf_ref == wire::last_uint(body(msg@), tag::HTXF_REF),
        r.queueid == wire::last_uint(body(msg@), tag::QUEUE),
{
    XferQueueOut {
        htxf_ref: last_number(msg, tag::HTXF_REF),
        queueid: last_number(msg, tag::QUEUE),
    }
}

/// A user has left.
#[derive(Debug, Clone, Copy, PartialEq, Eq, Structural)]
pub struct UserPartOut {
    pub cid: u32,
    pub uid: u16,
}

/// Parses that a user has left.
pub fn gtkhx_proto_parse_user_part(msg: &[u8]) -> (r: UserPartOut)
    ensures
        r.cid == wire::last_uint(body(msg@), tag::CHAT_ID),
        r.uid == wire::last_uint(body(msg@), tag::UID) % 0x1_0000,
{
    UserPartOut {
        cid: last_number(msg, tag::CHAT_ID),
        uid: (last_number(msg, tag::UID) % 0x1_0000) as u16,
    }
}

/// The reply to a request for a file.
#[derive(Debug, Clone, Copy, PartialEq, Eq, Structural)]
pub struct FileGetReplyOut {
    pub ref_: u32,
    pub size: u32,
    pub size64: u64,
    pub queue: u32,
    pub size64_seen: u8,
}

/// Parses the reply to a request for a file.
pub fn gtkhx_proto_parse_file_get_reply(msg: &[u8]) -> (r: FileGetReplyOut)
    ensures
        r.ref_ == wire::last_uint(body(msg@), tag::HTXF_REF),
        r.size == wire::last_uint(body(msg@), tag::HTXF_SIZE),
        r.size64 == (match size64_of(body(msg@)) {
            Some(n) => n,
            None => 0,
        }),
        r.queue == wire::last_uint(body(msg@), tag::QUEUE),
        r.size64_seen == (if size64_of(body(msg@)) is Some {
            1u8
        } else {
            0u8
        }),
{
    let size64: Option<u64> = last_size64(msg);
    FileGetReplyOut {
        ref_: last_number(msg, tag::HTXF_REF),
        size: last_number(msg, tag::HTXF_SIZE),
        size64: match size64 {
            Some(n) => n,
            None => 0,
        },
        queue: last_number(msg, tag::QUEUE),
        size64_seen: if size64.is_some() {
            1
        } else {
            0
        },
    }
}

/// The reply to a request for a folder.
#[derive(Debug, Clone, Copy, PartialEq, Eq, Structural)]
pub struct FolderGetReplyOut {
    pub ref_: u32,
    pub size: u32,
    pub size64: u64,
    pub queue: u32,
    pub nfiles: u32,
    pub size64_seen: u8,
}

/// Parses the reply to a request for a folder.
pub fn gtkhx_proto_parse_folder_get_reply(msg: &[u8]) -> (r: FolderGetReplyOut)
    ensures
        r.ref_ == wire::last_uint(body(msg@), tag::HTXF_REF),
        r.size == wire::last_uint(body(msg@), tag::HTXF_SIZE),
        r.size64 == (match size64_of(body(msg@)) {
            Some(n) => n,
            None => 0,
        }),
        r.queue == wire::last_uint(body(msg@), tag::QUEUE),
        r.nfiles == wire::last_uint(body(msg@), tag::FILE_NFILES),
        r.size64_seen == (if size64_of(body(msg@)) is Some {
            1u8
        } else {
            0u8
        }),
{
    let size64: Option<u64> = last_size64(msg);
    FolderGetReplyOut {
        ref_: last_number(msg, tag::HTXF_REF),
        size: last_number(msg, tag::HTXF_SIZE),
        size64: match size64 {
            Some(n) => n,
            None => 0,
        },
        queue: last_number(msg, tag::QUEUE),
        nfiles: last_number(msg, tag::FILE_NFILES),
        size64_seen: if size64.is_some() {
            1
        } else {
            0
        },
    }
}

/// The place in a resume record from which a fork is to be sent, if the record is long enough for
/// both.
pub open spec fn resume_at(chunks: Seq<wire::ChunkView>, at: int) -> u32 {
    match wire::last_with(chunks, tag::RFLT) {
        Some(data) => if data.len() >= 66 {
            bytes::be32_at(data, at)
        } else {
            0
        },
        None => 0,
    }
}

fn last_resume(msg: &[u8]) -> (r: (u32, u32))
    ensures
        r.0 == resume_at(body(msg@), 46),
        r.1 == resume_at(body(msg@), 62),
{
    match last_payload(msg, tag::RFLT) {
        Some(data) => {
            if data.len() >= 66 {
                (get32(data, 46), get32(data, 62))
            } else {
                (0, 0)
            }
        },
        None => (0, 0),
    }
}

/// The reply to an offer of a file, with the places from which its forks are to be sent.
#[derive(Debug, Clone, Copy, PartialEq, Eq, Structural)]
pub struct FilePutReplyOut {
    pub ref_: u32,
    pub queue: u32,
    pub data_pos: u32,
    pub rsrc_pos: u32,
}

/// Parses the reply to an offer of a file.
pub fn gtkhx_proto_parse_file_put_reply(msg: &[u8]) -> (r: FilePutReplyOut)
    ensures
        r.ref_ == wire::last_uint(body(msg@), tag::HTXF_REF),
        r.queue == wire::last_uint(body(msg@), tag::QUEUE),
        r.data_pos == resume_at(body(msg@), 46),
        r.rsrc_pos == resume_at(body(msg@), 62),
{
    let (data_pos, rsrc_pos): (u32, u32) = last_resume(msg);
    FilePutReplyOut {
        ref_: last_number(msg, tag::HTXF_REF),
        queue: last_number(msg, tag::QUEUE),
        data_pos,
        rsrc_pos,
    }
}

/// The reply to an offer of a folder.
#[derive(Debug, Clone, Copy, PartialEq, Eq, Structural)]
pub struct FolderPutReplyOut {
    pub ref_: u32,
    pub queue: u32,
}

/// Parses the reply to an offer of a folder.
pub fn gtkhx_proto_parse_folder_put_reply(msg: &[u8]) -> (r: FolderPutReplyOut)
    ensures
        r.ref_ == wire::last_uint(body(msg@), tag::HTXF_REF),
        r.queue == wire::last_uint(body(msg@), tag::QUEUE),
{
    FolderPutReplyOut {
        ref_: last_number(msg, tag::HTXF_REF),
        queue: last_number(msg, tag::QUEUE),
    }
}

/// The reply to a request for the banner.
#[derive(Debug, Clone, Copy, PartialEq, Eq, Structural)]
pub struct BannerGetReplyOut {
    pub ref_: u32,
    pub size: u32,
}

/// Parses the reply to a request for the banner.
pub fn gtkhx_proto_parse_banner_get_reply(msg: &[u8]) -> (r: BannerGetReplyOut)
    ensures
        r.ref_ == wire::last_uint(body(msg@), tag::HTXF_REF),
        r.size == wire::last_uint(body(msg@), tag::HTXF_SIZE),
{
    BannerGetReplyOut {
        ref_: last_number(msg, tag::HTXF_REF),
        size: last_number(msg, tag::HTXF_SIZE),
    }
}

// ---------------------------------------------------------------------------------------------
// What every call does, in numbers.
// ---------------------------------------------------------------------------------------------
/// Which number of a reply comes from which field: the reference from 0x6b, the size from 0x6c, the
/// place in the queue from 0x74, the room from 0x72, the user from the low half of 0x67, and the
/// number of files from 0xdc.
pub proof fn numbers_have_their_tags(
    msg: &[u8],
    n: usize,
    it: ChunkIter<'_>,
    queue: XferQueueOut,
    part: UserPartOut,
    folder: FolderPutReplyOut,
    banner: BannerGetReplyOut,
    put: FilePutReplyOut,
    get: FileGetReplyOut,
    tree: FolderGetReplyOut,
)
    requires
        n == msg@.len(),
        call_ensures(ChunkIter::over_message, (msg, n), it),
        call_ensures(gtkhx_proto_parse_xfer_queue, (msg,), queue),
        call_ensures(gtkhx_proto_parse_user_part, (msg,), part),
        call_ensures(gtkhx_proto_parse_folder_put_reply, (msg,), folder),
        call_ensures(gtkhx_proto_parse_banner_get_reply, (msg,), banner),
        call_ensures(gtkhx_proto_parse_file_put_reply, (msg,), put),
        call_ensures(gtkhx_proto_parse_file_get_reply, (msg,), get),
        call_ensures(gtkhx_proto_parse_folder_get_reply, (msg,), tree),
    ensures
        ({
            let c = it.rest();
            let reference = wire::last_uint(c, 0x6b);
            let size = wire::last_uint(c, 0x6c);
            let place = wire::last_uint(c, 0x74);
            &&& queue.htxf_ref == reference && queue.queueid == place
            &&& part.cid == wire::last_uint(c, 0x72) && part.uid == wire::last_uint(c, 0x67)
                % 0x1_0000
            &&& folder.ref_ == reference && folder.queue == place
            &&& banner.ref_ == reference && banner.size == size
            &&& put.ref_ == reference && put.queue == place
            &&& get.ref_ == reference && get.size == size && get.queue == place
            &&& tree.ref_ == reference && tree.size == size && tree.queue == place
            &&& tree.nfiles == wire::last_uint(c, 0xdc)
        }),
{
}

/// A size of 64 bits is in the last field 0x1f3, if that has eight bytes; if not, it was not sent.
pub proof fn large_sizes_have_their_tag(
    msg: &[u8],
    n: usize,
    it: ChunkIter<'_>,
    get: FileGetReplyOut,
    tree: FolderGetReplyOut,
)
    requires
        n == msg@.len(),
        call_ensures(ChunkIter::over_message, (msg, n), it),
        call_ensures(gtkhx_proto_parse_file_get_reply, (msg,), get),
        call_ensures(gtkhx_proto_parse_folder_get_reply, (msg,), tree),
    ensures
        ({
            let large = wire::last_with(it.rest(), 0x01f3);
            let sent = large is Some && large->0.len() == 8;
            &&& sent ==> get.size64_seen == 1 && get.size64 == bytes::be64_at(large->0, 0)
            &&& !sent ==> get.size64_seen == 0 && get.size64 == 0
            &&& tree.size64_seen == get.size64_seen && tree.size64 == get.size64
        }),
{
    if let Some(d) = wire::last_with(it.rest(), 0x01f3) {
        if d.len() == 8 {
            assert(d.subrange(0, 8) =~= d);
        }
    }
}

/// Where an upload goes on: at the offsets in bytes 46 and 62 of the last field 0xcb, if that has 66
/// bytes at least, and else at the start.
pub proof fn uploads_go_on(msg: &[u8], n: usize, it: ChunkIter<'_>, put: FilePutReplyOut)
    requires
        n == msg@.len(),
        call_ensures(ChunkIter::over_message, (msg, n), it),
        call_ensures(gtkhx_proto_parse_file_put_reply, (msg,), put),
    ensures
        ({
            let list = wire::last_with(it.rest(), 0xcb);
            let sent = list is Some && list->0.len() >= 66;
            &&& sent ==> put.data_pos == bytes::be32_at(list->0, 46) && put.rsrc_pos
                == bytes::be32_at(list->0, 62)
            &&& !sent ==> put.data_pos == 0 && put.rsrc_pos == 0
        }),
{
}

} // verus!
