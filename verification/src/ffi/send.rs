//! Outgoing requests.
//!
//! Each function fills chunks, as [`crate::outgoing`] describes, and returns how many it filled.
//! Zero means that nothing was done: a field is longer than a chunk can carry, or a buffer is too
//! small. Integer fields stand one after the other at the start of the scratch buffer.
pub mod laws;

use crate::bytes;
use crate::bytes::copy_into;
use crate::messages::tag;
use crate::outgoing;
use crate::outgoing::{fits, put_data, put_opt, put_scratch, scratch16, scratch32, HxChunk};
use crate::wire::ChunkView;
use vstd::prelude::*;

verus! {

/// The mark that an existing file is replaced.
pub open spec fn preview_mark() -> Seq<u8> {
    seq![0u8, 1]
}

/// Writes a `u64` into the scratch buffer.
fn scratch64(scratch: &mut [u8], at: usize, v: u64)
    requires
        at + 8 <= old(scratch)@.len(),
    ensures
        final(scratch)@ == bytes::overwrite(old(scratch)@, at as int, bytes::be64_bytes(v)),
{
    proof {
        bytes::be64_round_trip(v, Seq::empty());
        bytes::be32_round_trip((v / 0x1_0000_0000) as u32, Seq::empty());
        bytes::be32_round_trip((v % 0x1_0000_0000) as u32, Seq::empty());
    }
    assert(at + 8 <= scratch.len());
    scratch32(scratch, at, (v / 0x1_0000_0000) as u32);
    scratch32(scratch, at + 4, (v % 0x1_0000_0000) as u32);
    assert(scratch@ =~= bytes::overwrite(old(scratch)@, at as int, bytes::be64_bytes(v)));
}

/// A request with a single field.
fn one_field_chunks<'a>(
    tag: u16,
    data: &'a [u8],
    chunks: &mut [HxChunk<'a>],
) -> (r: i32)
    ensures
        outgoing::built(
            old(chunks)@.len() >= 1 && data@.len() <= u16::MAX,
            old(chunks)@,
            final(chunks)@,
            Seq::empty(),
            Seq::empty(),
            r as int,
            Seq::empty(),
            seq![outgoing::field(tag, data@)],
        ),
{
    if chunks.len() < 1 || data.len() > u16::MAX as usize {
        return 0;
    }
    let ghost sc = Seq::<u8>::empty();
    let ghost mut sent: Seq<ChunkView> = Seq::empty();
    let mut n: usize = 0;
    n = put_data(chunks, n, tag, data, Ghost(sc), Ghost(sent));
    proof {
        sent = sent.push(outgoing::field(tag, data@));
        assert(sent =~= seq![outgoing::field(tag, data@)]);
        assert(Seq::<u8>::empty() =~= bytes::overwrite(Seq::empty(), 0, Seq::empty()));
        assert(chunks@.skip(n as int) =~= old(chunks)@.skip(n as int));
    }
    n as i32
}

/// A request that names a private chat.
fn chat_id_chunks<'a>(
    cid: u32,
    chunks: &mut [HxChunk<'a>],
    scratch: &mut [u8],
) -> (r: i32)
    ensures
        outgoing::built(
            old(chunks)@.len() >= 1 && old(scratch)@.len() >= 4,
            old(chunks)@,
            final(chunks)@,
            old(scratch)@,
            final(scratch)@,
            r as int,
            bytes::be32_bytes(cid),
            seq![outgoing::field(tag::CHAT_ID, bytes::be32_bytes(cid))],
        ),
{
    if chunks.len() < 1 || scratch.len() < 4 {
        return 0;
    }
    scratch32(scratch, 0, cid);
    let ghost fixed = bytes::be32_bytes(cid);
    let ghost sc = scratch@;
    proof {
        bytes::be32_round_trip(cid, Seq::empty());
        assert(sc =~= bytes::overwrite(old(scratch)@, 0, fixed));
        assert(sc.subrange(0, 4) =~= bytes::be32_bytes(cid));
    }
    let ghost mut sent: Seq<ChunkView> = Seq::empty();
    let mut n: usize = 0;
    n = put_scratch(chunks, n, tag::CHAT_ID, 0, 4, Ghost(sc), Ghost(sent));
    proof {
        sent = sent.push(outgoing::field(tag::CHAT_ID, bytes::be32_bytes(cid)));
        assert(sent =~= seq![outgoing::field(tag::CHAT_ID, bytes::be32_bytes(cid))]);
        assert(chunks@.skip(n as int) =~= old(chunks)@.skip(n as int));
    }
    n as i32
}

/// A request that names a user.
fn uid_chunks<'a>(
    uid: u16,
    chunks: &mut [HxChunk<'a>],
    scratch: &mut [u8],
) -> (r: i32)
    ensures
        outgoing::built(
            old(chunks)@.len() >= 1 && old(scratch)@.len() >= 2,
            old(chunks)@,
            final(chunks)@,
            old(scratch)@,
            final(scratch)@,
            r as int,
            bytes::be16_bytes(uid),
            seq![outgoing::field(tag::UID, bytes::be16_bytes(uid))],
        ),
{
    if chunks.len() < 1 || scratch.len() < 2 {
        return 0;
    }
    scratch16(scratch, 0, uid);
    let ghost fixed = bytes::be16_bytes(uid);
    let ghost sc = scratch@;
    proof {
        assert(sc =~= bytes::overwrite(old(scratch)@, 0, fixed));
        assert(sc.subrange(0, 2) =~= bytes::be16_bytes(uid));
    }
    let ghost mut sent: Seq<ChunkView> = Seq::empty();
    let mut n: usize = 0;
    n = put_scratch(chunks, n, tag::UID, 0, 2, Ghost(sc), Ghost(sent));
    proof {
        sent = sent.push(outgoing::field(tag::UID, bytes::be16_bytes(uid)));
        assert(sent =~= seq![outgoing::field(tag::UID, bytes::be16_bytes(uid))]);
        assert(chunks@.skip(n as int) =~= old(chunks)@.skip(n as int));
    }
    n as i32
}

/// A request that names a file, and its folder if there is one.
fn name_and_dir_chunks<'a>(
    name: &'a [u8],
    dir: Option<&'a [u8]>,
    chunks: &mut [HxChunk<'a>],
) -> (r: i32)
    ensures
        outgoing::built(
            old(chunks)@.len() >= 2 && name@.len() <= u16::MAX && outgoing::opt_fits(dir),
            old(chunks)@,
            final(chunks)@,
            Seq::empty(),
            Seq::empty(),
            r as int,
            Seq::empty(),
            seq![outgoing::field(tag::FILE_NAME, name@)] + outgoing::opt_field(tag::DIR, dir),
        ),
{
    if chunks.len() < 2 || name.len() > u16::MAX as usize || !fits(dir) {
        return 0;
    }
    let ghost sc = Seq::<u8>::empty();
    let ghost mut sent: Seq<ChunkView> = Seq::empty();
    let mut n: usize = 0;
    n = put_data(chunks, n, tag::FILE_NAME, name, Ghost(sc), Ghost(sent));
    proof {
        sent = sent.push(outgoing::field(tag::FILE_NAME, name@));
    }
    n = put_opt(chunks, n, tag::DIR, dir, Ghost(sc), Ghost(sent));
    proof {
        sent = sent + outgoing::opt_field(tag::DIR, dir);
        assert(sent =~= seq![
            outgoing::field(tag::FILE_NAME, name@),
        ] + outgoing::opt_field(tag::DIR, dir));
        assert(Seq::<u8>::empty() =~= bytes::overwrite(Seq::empty(), 0, Seq::empty()));
        assert(chunks@.skip(n as int) =~= old(chunks)@.skip(n as int));
    }
    n as i32
}

/// Chat: style, line, and the room unless it is the public one, which is room zero.
pub fn gtkhx_proto_build_chat_chunks<'a>(
    cid: u32,
    style: u16,
    body: &'a [u8],
    chunks: &mut [HxChunk<'a>],
    scratch: &mut [u8],
) -> (r: i32)
    ensures
        outgoing::built(
            old(chunks)@.len() >= 3 && old(scratch)@.len() >= 6 && body@.len() <= u16::MAX,
            old(chunks)@,
            final(chunks)@,
            old(scratch)@,
            final(scratch)@,
            r as int,
            bytes::be16_bytes(style) + bytes::be32_bytes(cid),
            seq![
                outgoing::field(tag::STYLE, bytes::be16_bytes(style)),
                outgoing::field(tag::BODY, body@),
            ] + outgoing::field_if(cid != 0, tag::CHAT_ID, bytes::be32_bytes(cid)),
        ),
{
    if chunks.len() < 3 || scratch.len() < 6 || body.len() > u16::MAX as usize {
        return 0;
    }
    scratch16(scratch, 0, style);
    scratch32(scratch, 2, cid);
    let ghost fixed = bytes::be16_bytes(style) + bytes::be32_bytes(cid);
    let ghost sc = scratch@;
    proof {
        bytes::be32_round_trip(cid, Seq::empty());
        assert(sc =~= bytes::overwrite(old(scratch)@, 0, fixed));
        assert(sc.subrange(0, 2) =~= bytes::be16_bytes(style));
        assert(sc.subrange(2, 6) =~= bytes::be32_bytes(cid));
    }
    let ghost mut sent: Seq<ChunkView> = Seq::empty();
    let mut n: usize = 0;
    n = put_scratch(chunks, n, tag::STYLE, 0, 2, Ghost(sc), Ghost(sent));
    proof {
        sent = sent.push(outgoing::field(tag::STYLE, bytes::be16_bytes(style)));
    }
    n = put_data(chunks, n, tag::BODY, body, Ghost(sc), Ghost(sent));
    proof {
        sent = sent.push(outgoing::field(tag::BODY, body@));
    }
    if cid != 0 {
        n = put_scratch(chunks, n, tag::CHAT_ID, 2, 4, Ghost(sc), Ghost(sent));
        proof {
            sent = sent.push(outgoing::field(tag::CHAT_ID, bytes::be32_bytes(cid)));
        }
    }
    proof {
        assert(sent =~= seq![
            outgoing::field(tag::STYLE, bytes::be16_bytes(style)),
            outgoing::field(tag::BODY, body@),
        ] + outgoing::field_if(cid != 0, tag::CHAT_ID, bytes::be32_bytes(cid)));
        assert(chunks@.skip(n as int) =~= old(chunks)@.skip(n as int));
    }
    n as i32
}

/// A request for the history of a channel: channel, and of the cursors and the limit those that
/// are not zero.
pub fn hx_get_chat_history_build_chunks<'a>(
    channel_id: u32,
    before: u64,
    after: u64,
    limit: u16,
    chunks: &mut [HxChunk<'a>],
    scratch: &mut [u8],
) -> (r: i32)
    ensures
        outgoing::built(
            old(chunks)@.len() >= 4 && old(scratch)@.len() >= 22,
            old(chunks)@,
            final(chunks)@,
            old(scratch)@,
            final(scratch)@,
            r as int,
            bytes::be32_bytes(channel_id) + bytes::be64_bytes(before) + bytes::be64_bytes(after)
                + bytes::be16_bytes(limit),
            seq![
                outgoing::field(tag::CHANNEL_ID, bytes::be32_bytes(channel_id)),
            ] + outgoing::field_if(
                before != 0,
                tag::HISTORY_BEFORE,
                bytes::be64_bytes(before),
            ) + outgoing::field_if(
                after != 0,
                tag::HISTORY_AFTER,
                bytes::be64_bytes(after),
            ) + outgoing::field_if(limit != 0, tag::HISTORY_LIMIT, bytes::be16_bytes(limit)),
        ),
{
    if chunks.len() < 4 || scratch.len() < 22 {
        return 0;
    }
    scratch32(scratch, 0, channel_id);
    scratch64(scratch, 4, before);
    scratch64(scratch, 12, after);
    scratch16(scratch, 20, limit);
    let ghost fixed = bytes::be32_bytes(channel_id) + bytes::be64_bytes(before)
        + bytes::be64_bytes(after) + bytes::be16_bytes(limit);
    let ghost sc = scratch@;
    proof {
        bytes::be32_round_trip(channel_id, Seq::empty());
        bytes::be64_round_trip(before, Seq::empty());
        bytes::be64_round_trip(after, Seq::empty());
        assert(sc =~= bytes::overwrite(old(scratch)@, 0, fixed));
        assert(sc.subrange(0, 4) =~= bytes::be32_bytes(channel_id));
        assert(sc.subrange(4, 12) =~= bytes::be64_bytes(before));
        assert(sc.subrange(12, 20) =~= bytes::be64_bytes(after));
        assert(sc.subrange(20, 22) =~= bytes::be16_bytes(limit));
    }
    let ghost mut sent: Seq<ChunkView> = Seq::empty();
    let mut n: usize = 0;
    n = put_scratch(chunks, n, tag::CHANNEL_ID, 0, 4, Ghost(sc), Ghost(sent));
    proof {
        sent = sent.push(outgoing::field(tag::CHANNEL_ID, bytes::be32_bytes(channel_id)));
    }
    if before != 0 {
        n = put_scratch(chunks, n, tag::HISTORY_BEFORE, 4, 8, Ghost(sc), Ghost(sent));
        proof {
            sent = sent.push(outgoing::field(tag::HISTORY_BEFORE, bytes::be64_bytes(before)));
        }
    }
    if after != 0 {
        n = put_scratch(chunks, n, tag::HISTORY_AFTER, 12, 8, Ghost(sc), Ghost(sent));
        proof {
            sent = sent.push(outgoing::field(tag::HISTORY_AFTER, bytes::be64_bytes(after)));
        }
    }
    if limit != 0 {
        n = put_scratch(chunks, n, tag::HISTORY_LIMIT, 20, 2, Ghost(sc), Ghost(sent));
        proof {
            sent = sent.push(outgoing::field(tag::HISTORY_LIMIT, bytes::be16_bytes(limit)));
        }
    }
    proof {
        assert(sent =~= seq![
            outgoing::field(tag::CHANNEL_ID, bytes::be32_bytes(channel_id)),
        ] + outgoing::field_if(
            before != 0,
            tag::HISTORY_BEFORE,
            bytes::be64_bytes(before),
        ) + outgoing::field_if(
            after != 0,
            tag::HISTORY_AFTER,
            bytes::be64_bytes(after),
        ) + outgoing::field_if(limit != 0, tag::HISTORY_LIMIT, bytes::be16_bytes(limit)));
        assert(chunks@.skip(n as int) =~= old(chunks)@.skip(n as int));
    }
    n as i32
}

/// A private message: user and text.
pub fn gtkhx_proto_build_msg_chunks<'a>(
    uid: u16,
    body: &'a [u8],
    chunks: &mut [HxChunk<'a>],
    scratch: &mut [u8],
) -> (r: i32)
    ensures
        outgoing::built(
            old(chunks)@.len() >= 2 && old(scratch)@.len() >= 2 && body@.len() <= u16::MAX,
            old(chunks)@,
            final(chunks)@,
            old(scratch)@,
            final(scratch)@,
            r as int,
            bytes::be16_bytes(uid),
            seq![
                outgoing::field(tag::UID, bytes::be16_bytes(uid)),
                outgoing::field(tag::BODY, body@),
            ],
        ),
{
    if chunks.len() < 2 || scratch.len() < 2 || body.len() > u16::MAX as usize {
        return 0;
    }
    scratch16(scratch, 0, uid);
    let ghost fixed = bytes::be16_bytes(uid);
    let ghost sc = scratch@;
    proof {
        assert(sc =~= bytes::overwrite(old(scratch)@, 0, fixed));
        assert(sc.subrange(0, 2) =~= bytes::be16_bytes(uid));
    }
    let ghost mut sent: Seq<ChunkView> = Seq::empty();
    let mut n: usize = 0;
    n = put_scratch(chunks, n, tag::UID, 0, 2, Ghost(sc), Ghost(sent));
    proof {
        sent = sent.push(outgoing::field(tag::UID, bytes::be16_bytes(uid)));
    }
    n = put_data(chunks, n, tag::BODY, body, Ghost(sc), Ghost(sent));
    proof {
        sent = sent.push(outgoing::field(tag::BODY, body@));
        assert(sent =~= seq![
            outgoing::field(tag::UID, bytes::be16_bytes(uid)),
            outgoing::field(tag::BODY, body@),
        ]);
        assert(chunks@.skip(n as int) =~= old(chunks)@.skip(n as int));
    }
    n as i32
}

/// A message to everyone.
pub fn gtkhx_proto_build_broadcast_chunks<'a>(
    body: &'a [u8],
    chunks: &mut [HxChunk<'a>],
) -> (r: i32)
    ensures
        outgoing::built(
            old(chunks)@.len() >= 1 && body@.len() <= u16::MAX,
            old(chunks)@,
            final(chunks)@,
            Seq::empty(),
            Seq::empty(),
            r as int,
            Seq::empty(),
            seq![outgoing::field(tag::BODY, body@)],
        ),
{
    one_field_chunks(tag::BODY, body, chunks)
}

/// A new private chat with a user.
pub fn gtkhx_proto_build_chat_create_chunks<'a>(
    uid: u16,
    chunks: &mut [HxChunk<'a>],
    scratch: &mut [u8],
) -> (r: i32)
    ensures
        outgoing::built(
            old(chunks)@.len() >= 1 && old(scratch)@.len() >= 2,
            old(chunks)@,
            final(chunks)@,
            old(scratch)@,
            final(scratch)@,
            r as int,
            bytes::be16_bytes(uid),
            seq![outgoing::field(tag::UID, bytes::be16_bytes(uid))],
        ),
{
    uid_chunks(uid, chunks, scratch)
}

/// An invitation into a private chat: room and user.
pub fn gtkhx_proto_build_chat_invite_chunks<'a>(
    cid: u32,
    uid: u16,
    chunks: &mut [HxChunk<'a>],
    scratch: &mut [u8],
) -> (r: i32)
    ensures
        outgoing::built(
            old(chunks)@.len() >= 2 && old(scratch)@.len() >= 6,
            old(chunks)@,
            final(chunks)@,
            old(scratch)@,
            final(scratch)@,
            r as int,
            bytes::be32_bytes(cid) + bytes::be16_bytes(uid),
            seq![
                outgoing::field(tag::CHAT_ID, bytes::be32_bytes(cid)),
                outgoing::field(tag::UID, bytes::be16_bytes(uid)),
            ],
        ),
{
    if chunks.len() < 2 || scratch.len() < 6 {
        return 0;
    }
    scratch32(scratch, 0, cid);
    scratch16(scratch, 4, uid);
    let ghost fixed = bytes::be32_bytes(cid) + bytes::be16_bytes(uid);
    let ghost sc = scratch@;
    proof {
        bytes::be32_round_trip(cid, Seq::empty());
        assert(sc =~= bytes::overwrite(old(scratch)@, 0, fixed));
        assert(sc.subrange(0, 4) =~= bytes::be32_bytes(cid));
        assert(sc.subrange(4, 6) =~= bytes::be16_bytes(uid));
    }
    let ghost mut sent: Seq<ChunkView> = Seq::empty();
    let mut n: usize = 0;
    n = put_scratch(chunks, n, tag::CHAT_ID, 0, 4, Ghost(sc), Ghost(sent));
    proof {
        sent = sent.push(outgoing::field(tag::CHAT_ID, bytes::be32_bytes(cid)));
    }
    n = put_scratch(chunks, n, tag::UID, 4, 2, Ghost(sc), Ghost(sent));
    proof {
        sent = sent.push(outgoing::field(tag::UID, bytes::be16_bytes(uid)));
        assert(sent =~= seq![
            outgoing::field(tag::CHAT_ID, bytes::be32_bytes(cid)),
            outgoing::field(tag::UID, bytes::be16_bytes(uid)),
        ]);
        assert(chunks@.skip(n as int) =~= old(chunks)@.skip(n as int));
    }
    n as i32
}

/// Joining a private chat.
pub fn gtkhx_proto_build_chat_join_chunks<'a>(
    cid: u32,
    chunks: &mut [HxChunk<'a>],
    scratch: &mut [u8],
) -> (r: i32)
    ensures
        outgoing::built(
            old(chunks)@.len() >= 1 && old(scratch)@.len() >= 4,
            old(chunks)@,
            final(chunks)@,
            old(scratch)@,
            final(scratch)@,
            r as int,
            bytes::be32_bytes(cid),
            seq![outgoing::field(tag::CHAT_ID, bytes::be32_bytes(cid))],
        ),
{
    chat_id_chunks(cid, chunks, scratch)
}

/// Leaving a private chat.
pub fn gtkhx_proto_build_chat_part_chunks<'a>(
    cid: u32,
    chunks: &mut [HxChunk<'a>],
    scratch: &mut [u8],
) -> (r: i32)
    ensures
        outgoing::built(
            old(chunks)@.len() >= 1 && old(scratch)@.len() >= 4,
            old(chunks)@,
            final(chunks)@,
            old(scratch)@,
            final(scratch)@,
            r as int,
            bytes::be32_bytes(cid),
            seq![outgoing::field(tag::CHAT_ID, bytes::be32_bytes(cid))],
        ),
{
    chat_id_chunks(cid, chunks, scratch)
}

/// Declining an invitation to a private chat.
pub fn gtkhx_proto_build_chat_decline_chunks<'a>(
    cid: u32,
    chunks: &mut [HxChunk<'a>],
    scratch: &mut [u8],
) -> (r: i32)
    ensures
        outgoing::built(
            old(chunks)@.len() >= 1 && old(scratch)@.len() >= 4,
            old(chunks)@,
            final(chunks)@,
            old(scratch)@,
            final(scratch)@,
            r as int,
            bytes::be32_bytes(cid),
            seq![outgoing::field(tag::CHAT_ID, bytes::be32_bytes(cid))],
        ),
{
    chat_id_chunks(cid, chunks, scratch)
}

/// The subject of a private chat: room and subject.
pub fn gtkhx_proto_build_chat_subject_chunks<'a>(
    cid: u32,
    subject: &'a [u8],
    chunks: &mut [HxChunk<'a>],
    scratch: &mut [u8],
) -> (r: i32)
    ensures
        outgoing::built(
            old(chunks)@.len() >= 2 && old(scratch)@.len() >= 4 && subject@.len() <= u16::MAX,
            old(chunks)@,
            final(chunks)@,
            old(scratch)@,
            final(scratch)@,
            r as int,
            bytes::be32_bytes(cid),
            seq![
                outgoing::field(tag::CHAT_ID, bytes::be32_bytes(cid)),
                outgoing::field(tag::CHAT_SUBJECT, subject@),
            ],
        ),
{
    if chunks.len() < 2 || scratch.len() < 4 || subject.len() > u16::MAX as usize {
        return 0;
    }
    scratch32(scratch, 0, cid);
    let ghost fixed = bytes::be32_bytes(cid);
    let ghost sc = scratch@;
    proof {
        bytes::be32_round_trip(cid, Seq::empty());
        assert(sc =~= bytes::overwrite(old(scratch)@, 0, fixed));
        assert(sc.subrange(0, 4) =~= bytes::be32_bytes(cid));
    }
    let ghost mut sent: Seq<ChunkView> = Seq::empty();
    let mut n: usize = 0;
    n = put_scratch(chunks, n, tag::CHAT_ID, 0, 4, Ghost(sc), Ghost(sent));
    proof {
        sent = sent.push(outgoing::field(tag::CHAT_ID, bytes::be32_bytes(cid)));
    }
    n = put_data(chunks, n, tag::CHAT_SUBJECT, subject, Ghost(sc), Ghost(sent));
    proof {
        sent = sent.push(outgoing::field(tag::CHAT_SUBJECT, subject@));
        assert(sent =~= seq![
            outgoing::field(tag::CHAT_ID, bytes::be32_bytes(cid)),
            outgoing::field(tag::CHAT_SUBJECT, subject@),
        ]);
        assert(chunks@.skip(n as int) =~= old(chunks)@.skip(n as int));
    }
    n as i32
}

/// Agreeing to the rules of a server: icon, name and options, all of which servers need.
pub fn gtkhx_proto_build_agreement_agree_chunks<'a>(
    icon: u16,
    name: &'a [u8],
    options: u16,
    chunks: &mut [HxChunk<'a>],
    scratch: &mut [u8],
) -> (r: i32)
    ensures
        outgoing::built(
            old(chunks)@.len() >= 3 && old(scratch)@.len() >= 4 && name@.len() <= u16::MAX,
            old(chunks)@,
            final(chunks)@,
            old(scratch)@,
            final(scratch)@,
            r as int,
            bytes::be16_bytes(icon) + bytes::be16_bytes(options),
            seq![
                outgoing::field(tag::ICON, bytes::be16_bytes(icon)),
                outgoing::field(tag::NAME, name@),
                outgoing::field(tag::OPTIONS, bytes::be16_bytes(options)),
            ],
        ),
{
    if chunks.len() < 3 || scratch.len() < 4 || name.len() > u16::MAX as usize {
        return 0;
    }
    scratch16(scratch, 0, icon);
    scratch16(scratch, 2, options);
    let ghost fixed = bytes::be16_bytes(icon) + bytes::be16_bytes(options);
    let ghost sc = scratch@;
    proof {
        assert(sc =~= bytes::overwrite(old(scratch)@, 0, fixed));
        assert(sc.subrange(0, 2) =~= bytes::be16_bytes(icon));
        assert(sc.subrange(2, 4) =~= bytes::be16_bytes(options));
    }
    let ghost mut sent: Seq<ChunkView> = Seq::empty();
    let mut n: usize = 0;
    n = put_scratch(chunks, n, tag::ICON, 0, 2, Ghost(sc), Ghost(sent));
    proof {
        sent = sent.push(outgoing::field(tag::ICON, bytes::be16_bytes(icon)));
    }
    n = put_data(chunks, n, tag::NAME, name, Ghost(sc), Ghost(sent));
    proof {
        sent = sent.push(outgoing::field(tag::NAME, name@));
    }
    n = put_scratch(chunks, n, tag::OPTIONS, 2, 2, Ghost(sc), Ghost(sent));
    proof {
        sent = sent.push(outgoing::field(tag::OPTIONS, bytes::be16_bytes(options)));
        assert(sent =~= seq![
            outgoing::field(tag::ICON, bytes::be16_bytes(icon)),
            outgoing::field(tag::NAME, name@),
            outgoing::field(tag::OPTIONS, bytes::be16_bytes(options)),
        ]);
        assert(chunks@.skip(n as int) =~= old(chunks)@.skip(n as int));
    }
    n as i32
}

/// The own icon and name, and the colour of the name if there is one.
pub fn gtkhx_proto_build_user_change_chunks<'a>(
    icon: u16,
    name: &'a [u8],
    has_nick_color: bool,
    nick_color: u32,
    chunks: &mut [HxChunk<'a>],
    scratch: &mut [u8],
) -> (r: i32)
    ensures
        outgoing::built(
            old(chunks)@.len() >= 3 && old(scratch)@.len() >= 6 && name@.len() <= u16::MAX,
            old(chunks)@,
            final(chunks)@,
            old(scratch)@,
            final(scratch)@,
            r as int,
            bytes::be16_bytes(icon) + bytes::be32_bytes(nick_color),
            seq![
                outgoing::field(tag::ICON, bytes::be16_bytes(icon)),
                outgoing::field(tag::NAME, name@),
            ] + outgoing::field_if(has_nick_color, tag::COLOR, bytes::be32_bytes(nick_color)),
        ),
{
    if chunks.len() < 3 || scratch.len() < 6 || name.len() > u16::MAX as usize {
        return 0;
    }
    scratch16(scratch, 0, icon);
    scratch32(scratch, 2, nick_color);
    let ghost fixed = bytes::be16_bytes(icon) + bytes::be32_bytes(nick_color);
    let ghost sc = scratch@;
    proof {
        bytes::be32_round_trip(nick_color, Seq::empty());
        assert(sc =~= bytes::overwrite(old(scratch)@, 0, fixed));
        assert(sc.subrange(0, 2) =~= bytes::be16_bytes(icon));
        assert(sc.subrange(2, 6) =~= bytes::be32_bytes(nick_color));
    }
    let ghost mut sent: Seq<ChunkView> = Seq::empty();
    let mut n: usize = 0;
    n = put_scratch(chunks, n, tag::ICON, 0, 2, Ghost(sc), Ghost(sent));
    proof {
        sent = sent.push(outgoing::field(tag::ICON, bytes::be16_bytes(icon)));
    }
    n = put_data(chunks, n, tag::NAME, name, Ghost(sc), Ghost(sent));
    proof {
        sent = sent.push(outgoing::field(tag::NAME, name@));
    }
    if has_nick_color {
        n = put_scratch(chunks, n, tag::COLOR, 2, 4, Ghost(sc), Ghost(sent));
        proof {
            sent = sent.push(outgoing::field(tag::COLOR, bytes::be32_bytes(nick_color)));
        }
    }
    proof {
        assert(sent =~= seq![
            outgoing::field(tag::ICON, bytes::be16_bytes(icon)),
            outgoing::field(tag::NAME, name@),
        ] + outgoing::field_if(has_nick_color, tag::COLOR, bytes::be32_bytes(nick_color)));
        assert(chunks@.skip(n as int) =~= old(chunks)@.skip(n as int));
    }
    n as i32
}

/// Throwing a user out, and keeping them out if `ban` is not zero.
pub fn gtkhx_proto_build_user_kick_chunks<'a>(
    uid: u16,
    ban: u16,
    chunks: &mut [HxChunk<'a>],
    scratch: &mut [u8],
) -> (r: i32)
    ensures
        outgoing::built(
            old(chunks)@.len() >= 2 && old(scratch)@.len() >= 4,
            old(chunks)@,
            final(chunks)@,
            old(scratch)@,
            final(scratch)@,
            r as int,
            bytes::be16_bytes(ban) + bytes::be16_bytes(uid),
            outgoing::field_if(ban != 0, tag::BAN, bytes::be16_bytes(ban)) + seq![
                outgoing::field(tag::UID, bytes::be16_bytes(uid)),
            ],
        ),
{
    if chunks.len() < 2 || scratch.len() < 4 {
        return 0;
    }
    scratch16(scratch, 0, ban);
    scratch16(scratch, 2, uid);
    let ghost fixed = bytes::be16_bytes(ban) + bytes::be16_bytes(uid);
    let ghost sc = scratch@;
    proof {
        assert(sc =~= bytes::overwrite(old(scratch)@, 0, fixed));
        assert(sc.subrange(0, 2) =~= bytes::be16_bytes(ban));
        assert(sc.subrange(2, 4) =~= bytes::be16_bytes(uid));
    }
    let ghost mut sent: Seq<ChunkView> = Seq::empty();
    let mut n: usize = 0;
    if ban != 0 {
        n = put_scratch(chunks, n, tag::BAN, 0, 2, Ghost(sc), Ghost(sent));
        proof {
            sent = sent.push(outgoing::field(tag::BAN, bytes::be16_bytes(ban)));
        }
    }
    n = put_scratch(chunks, n, tag::UID, 2, 2, Ghost(sc), Ghost(sent));
    proof {
        sent = sent.push(outgoing::field(tag::UID, bytes::be16_bytes(uid)));
        assert(sent =~= outgoing::field_if(ban != 0, tag::BAN, bytes::be16_bytes(ban)) + seq![
            outgoing::field(tag::UID, bytes::be16_bytes(uid)),
        ]);
        assert(chunks@.skip(n as int) =~= old(chunks)@.skip(n as int));
    }
    n as i32
}

/// A request for what is known of a user.
pub fn gtkhx_proto_build_user_getinfo_chunks<'a>(
    uid: u16,
    chunks: &mut [HxChunk<'a>],
    scratch: &mut [u8],
) -> (r: i32)
    ensures
        outgoing::built(
            old(chunks)@.len() >= 1 && old(scratch)@.len() >= 2,
            old(chunks)@,
            final(chunks)@,
            old(scratch)@,
            final(scratch)@,
            r as int,
            bytes::be16_bytes(uid),
            seq![outgoing::field(tag::UID, bytes::be16_bytes(uid))],
        ),
{
    uid_chunks(uid, chunks, scratch)
}

/// A request for an account: its login.
pub fn gtkhx_proto_build_account_read_chunks<'a>(
    login: &'a [u8],
    chunks: &mut [HxChunk<'a>],
) -> (r: i32)
    ensures
        outgoing::built(
            old(chunks)@.len() >= 1 && login@.len() <= u16::MAX,
            old(chunks)@,
            final(chunks)@,
            Seq::empty(),
            Seq::empty(),
            r as int,
            Seq::empty(),
            seq![outgoing::field(tag::LOGIN, login@)],
        ),
{
    one_field_chunks(tag::LOGIN, login, chunks)
}

/// Deleting an account: its login.
pub fn gtkhx_proto_build_account_delete_chunks<'a>(
    login: &'a [u8],
    chunks: &mut [HxChunk<'a>],
) -> (r: i32)
    ensures
        outgoing::built(
            old(chunks)@.len() >= 1 && login@.len() <= u16::MAX,
            old(chunks)@,
            final(chunks)@,
            Seq::empty(),
            Seq::empty(),
            r as int,
            Seq::empty(),
            seq![outgoing::field(tag::LOGIN, login@)],
        ),
{
    one_field_chunks(tag::LOGIN, login, chunks)
}

/// Changing an account: login, password, name and rights.
pub fn gtkhx_proto_build_account_modify_chunks<'a>(
    login: &'a [u8],
    password: &'a [u8],
    name: &'a [u8],
    access: &[u8; 8],
    chunks: &mut [HxChunk<'a>],
    scratch: &mut [u8],
) -> (r: i32)
    ensures
        outgoing::built(
            old(chunks)@.len() >= 4 && old(scratch)@.len() >= 8 && login@.len() <= u16::MAX
                && password@.len() <= u16::MAX && name@.len() <= u16::MAX,
            old(chunks)@,
            final(chunks)@,
            old(scratch)@,
            final(scratch)@,
            r as int,
            access@,
            seq![
                outgoing::field(tag::LOGIN, login@),
                outgoing::field(tag::PASSWORD, password@),
                outgoing::field(tag::NAME, name@),
                outgoing::field(tag::ACCESS, access@),
            ],
        ),
{
    if chunks.len() < 4 || scratch.len() < 8 || login.len() > u16::MAX as usize
        || password.len() > u16::MAX as usize || name.len() > u16::MAX as usize {
        return 0;
    }
    copy_into(scratch, 0, access);
    let ghost fixed = access@;
    let ghost sc = scratch@;
    proof {
        assert(sc =~= bytes::overwrite(old(scratch)@, 0, fixed));
        assert(sc.subrange(0, 8) =~= access@);
    }
    let ghost mut sent: Seq<ChunkView> = Seq::empty();
    let mut n: usize = 0;
    n = put_data(chunks, n, tag::LOGIN, login, Ghost(sc), Ghost(sent));
    proof {
        sent = sent.push(outgoing::field(tag::LOGIN, login@));
    }
    n = put_data(chunks, n, tag::PASSWORD, password, Ghost(sc), Ghost(sent));
    proof {
        sent = sent.push(outgoing::field(tag::PASSWORD, password@));
    }
    n = put_data(chunks, n, tag::NAME, name, Ghost(sc), Ghost(sent));
    proof {
        sent = sent.push(outgoing::field(tag::NAME, name@));
    }
    n = put_scratch(chunks, n, tag::ACCESS, 0, 8, Ghost(sc), Ghost(sent));
    proof {
        sent = sent.push(outgoing::field(tag::ACCESS, access@));
        assert(sent =~= seq![
            outgoing::field(tag::LOGIN, login@),
            outgoing::field(tag::PASSWORD, password@),
            outgoing::field(tag::NAME, name@),
            outgoing::field(tag::ACCESS, access@),
        ]);
        assert(chunks@.skip(n as int) =~= old(chunks)@.skip(n as int));
    }
    n as i32
}

/// Posting to the flat news.
pub fn gtkhx_proto_build_news_post_chunks<'a>(
    body: &'a [u8],
    chunks: &mut [HxChunk<'a>],
) -> (r: i32)
    ensures
        outgoing::built(
            old(chunks)@.len() >= 1 && body@.len() <= u16::MAX,
            old(chunks)@,
            final(chunks)@,
            Seq::empty(),
            Seq::empty(),
            r as int,
            Seq::empty(),
            seq![outgoing::field(tag::NEWS, body@)],
        ),
{
    one_field_chunks(tag::NEWS, body, chunks)
}

/// Listing the posts of a category: its path.
pub fn gtkhx_proto_build_news_catlist_chunks<'a>(
    path: &'a [u8],
    chunks: &mut [HxChunk<'a>],
) -> (r: i32)
    ensures
        outgoing::built(
            old(chunks)@.len() >= 1 && path@.len() <= u16::MAX,
            old(chunks)@,
            final(chunks)@,
            Seq::empty(),
            Seq::empty(),
            r as int,
            Seq::empty(),
            seq![outgoing::field(tag::NEWSPATH, path@)],
        ),
{
    one_field_chunks(tag::NEWSPATH, path, chunks)
}

/// Listing a news folder: its path.
pub fn gtkhx_proto_build_news_dirlist_chunks<'a>(
    path: &'a [u8],
    chunks: &mut [HxChunk<'a>],
) -> (r: i32)
    ensures
        outgoing::built(
            old(chunks)@.len() >= 1 && path@.len() <= u16::MAX,
            old(chunks)@,
            final(chunks)@,
            Seq::empty(),
            Seq::empty(),
            r as int,
            Seq::empty(),
            seq![outgoing::field(tag::NEWSPATH, path@)],
        ),
{
    one_field_chunks(tag::NEWSPATH, path, chunks)
}

/// Deleting a news folder or category: its path.
pub fn gtkhx_proto_build_news_delete_chunks<'a>(
    path: &'a [u8],
    chunks: &mut [HxChunk<'a>],
) -> (r: i32)
    ensures
        outgoing::built(
            old(chunks)@.len() >= 1 && path@.len() <= u16::MAX,
            old(chunks)@,
            final(chunks)@,
            Seq::empty(),
            Seq::empty(),
            r as int,
            Seq::empty(),
            seq![outgoing::field(tag::NEWSPATH, path@)],
        ),
{
    one_field_chunks(tag::NEWSPATH, path, chunks)
}

/// Making a news folder: its path.
pub fn gtkhx_proto_build_news_mkdir_chunks<'a>(
    path: &'a [u8],
    chunks: &mut [HxChunk<'a>],
) -> (r: i32)
    ensures
        outgoing::built(
            old(chunks)@.len() >= 1 && path@.len() <= u16::MAX,
            old(chunks)@,
            final(chunks)@,
            Seq::empty(),
            Seq::empty(),
            r as int,
            Seq::empty(),
            seq![outgoing::field(tag::NEWSPATH, path@)],
        ),
{
    one_field_chunks(tag::NEWSPATH, path, chunks)
}

/// Deleting a post: path and number.
pub fn gtkhx_proto_build_news_delete_thread_chunks<'a>(
    path: &'a [u8],
    threadid: u32,
    chunks: &mut [HxChunk<'a>],
    scratch: &mut [u8],
) -> (r: i32)
    ensures
        outgoing::built(
            old(chunks)@.len() >= 2 && old(scratch)@.len() >= 4 && path@.len() <= u16::MAX,
            old(chunks)@,
            final(chunks)@,
            old(scratch)@,
            final(scratch)@,
            r as int,
            bytes::be32_bytes(threadid),
            seq![
                outgoing::field(tag::NEWSPATH, path@),
                outgoing::field(tag::THREADID, bytes::be32_bytes(threadid)),
            ],
        ),
{
    if chunks.len() < 2 || scratch.len() < 4 || path.len() > u16::MAX as usize {
        return 0;
    }
    scratch32(scratch, 0, threadid);
    let ghost fixed = bytes::be32_bytes(threadid);
    let ghost sc = scratch@;
    proof {
        bytes::be32_round_trip(threadid, Seq::empty());
        assert(sc =~= bytes::overwrite(old(scratch)@, 0, fixed));
        assert(sc.subrange(0, 4) =~= bytes::be32_bytes(threadid));
    }
    let ghost mut sent: Seq<ChunkView> = Seq::empty();
    let mut n: usize = 0;
    n = put_data(chunks, n, tag::NEWSPATH, path, Ghost(sc), Ghost(sent));
    proof {
        sent = sent.push(outgoing::field(tag::NEWSPATH, path@));
    }
    n = put_scratch(chunks, n, tag::THREADID, 0, 4, Ghost(sc), Ghost(sent));
    proof {
        sent = sent.push(outgoing::field(tag::THREADID, bytes::be32_bytes(threadid)));
        assert(sent =~= seq![
            outgoing::field(tag::NEWSPATH, path@),
            outgoing::field(tag::THREADID, bytes::be32_bytes(threadid)),
        ]);
        assert(chunks@.skip(n as int) =~= old(chunks)@.skip(n as int));
    }
    n as i32
}

/// Fetching a post: path, number and type.
pub fn gtkhx_proto_build_news_getthread_chunks<'a>(
    path: &'a [u8],
    threadid: u32,
    mime_type: &'a [u8],
    chunks: &mut [HxChunk<'a>],
    scratch: &mut [u8],
) -> (r: i32)
    ensures
        outgoing::built(
            old(chunks)@.len() >= 3 && old(scratch)@.len() >= 4 && path@.len() <= u16::MAX
                && mime_type@.len() <= u16::MAX,
            old(chunks)@,
            final(chunks)@,
            old(scratch)@,
            final(scratch)@,
            r as int,
            bytes::be32_bytes(threadid),
            seq![
                outgoing::field(tag::NEWSPATH, path@),
                outgoing::field(tag::THREADID, bytes::be32_bytes(threadid)),
                outgoing::field(tag::NEWSTYPE, mime_type@),
            ],
        ),
{
    if chunks.len() < 3 || scratch.len() < 4 || path.len() > u16::MAX as usize
        || mime_type.len() > u16::MAX as usize {
        return 0;
    }
    scratch32(scratch, 0, threadid);
    let ghost fixed = bytes::be32_bytes(threadid);
    let ghost sc = scratch@;
    proof {
        bytes::be32_round_trip(threadid, Seq::empty());
        assert(sc =~= bytes::overwrite(old(scratch)@, 0, fixed));
        assert(sc.subrange(0, 4) =~= bytes::be32_bytes(threadid));
    }
    let ghost mut sent: Seq<ChunkView> = Seq::empty();
    let mut n: usize = 0;
    n = put_data(chunks, n, tag::NEWSPATH, path, Ghost(sc), Ghost(sent));
    proof {
        sent = sent.push(outgoing::field(tag::NEWSPATH, path@));
    }
    n = put_scratch(chunks, n, tag::THREADID, 0, 4, Ghost(sc), Ghost(sent));
    proof {
        sent = sent.push(outgoing::field(tag::THREADID, bytes::be32_bytes(threadid)));
    }
    n = put_data(chunks, n, tag::NEWSTYPE, mime_type, Ghost(sc), Ghost(sent));
    proof {
        sent = sent.push(outgoing::field(tag::NEWSTYPE, mime_type@));
        assert(sent =~= seq![
            outgoing::field(tag::NEWSPATH, path@),
            outgoing::field(tag::THREADID, bytes::be32_bytes(threadid)),
            outgoing::field(tag::NEWSTYPE, mime_type@),
        ]);
        assert(chunks@.skip(n as int) =~= old(chunks)@.skip(n as int));
    }
    n as i32
}

/// Making a news category: path and name.
pub fn gtkhx_proto_build_news_mkcat_chunks<'a>(
    path: &'a [u8],
    name: &'a [u8],
    chunks: &mut [HxChunk<'a>],
) -> (r: i32)
    ensures
        outgoing::built(
            old(chunks)@.len() >= 2 && path@.len() <= u16::MAX && name@.len() <= u16::MAX,
            old(chunks)@,
            final(chunks)@,
            Seq::empty(),
            Seq::empty(),
            r as int,
            Seq::empty(),
            seq![outgoing::field(tag::NEWSPATH, path@), outgoing::field(tag::CATEGORY, name@)],
        ),
{
    if chunks.len() < 2 || path.len() > u16::MAX as usize || name.len() > u16::MAX as usize {
        return 0;
    }
    let ghost sc = Seq::<u8>::empty();
    let ghost mut sent: Seq<ChunkView> = Seq::empty();
    let mut n: usize = 0;
    n = put_data(chunks, n, tag::NEWSPATH, path, Ghost(sc), Ghost(sent));
    proof {
        sent = sent.push(outgoing::field(tag::NEWSPATH, path@));
    }
    n = put_data(chunks, n, tag::CATEGORY, name, Ghost(sc), Ghost(sent));
    proof {
        sent = sent.push(outgoing::field(tag::CATEGORY, name@));
        assert(sent =~= seq![
            outgoing::field(tag::NEWSPATH, path@),
            outgoing::field(tag::CATEGORY, name@),
        ]);
        assert(Seq::<u8>::empty() =~= bytes::overwrite(Seq::empty(), 0, Seq::empty()));
        assert(chunks@.skip(n as int) =~= old(chunks)@.skip(n as int));
    }
    n as i32
}

/// Posting to a category: path, parent, type, subject, text and number.
pub fn gtkhx_proto_build_news_post_thread_chunks<'a>(
    path: &'a [u8],
    parent_thread: u32,
    mime_type: &'a [u8],
    subject: &'a [u8],
    text: &'a [u8],
    thread_id: u32,
    chunks: &mut [HxChunk<'a>],
    scratch: &mut [u8],
) -> (r: i32)
    ensures
        outgoing::built(
            old(chunks)@.len() >= 6 && old(scratch)@.len() >= 8 && path@.len() <= u16::MAX
                && mime_type@.len() <= u16::MAX && subject@.len() <= u16::MAX
                    && text@.len() <= u16::MAX,
            old(chunks)@,
            final(chunks)@,
            old(scratch)@,
            final(scratch)@,
            r as int,
            bytes::be32_bytes(parent_thread) + bytes::be32_bytes(thread_id),
            seq![
                outgoing::field(tag::NEWSPATH, path@),
                outgoing::field(tag::PARENTTHREAD, bytes::be32_bytes(parent_thread)),
                outgoing::field(tag::NEWSTYPE, mime_type@),
                outgoing::field(tag::NEWSSUBJECT, subject@),
                outgoing::field(tag::NEWSDATA, text@),
                outgoing::field(tag::THREADID, bytes::be32_bytes(thread_id)),
            ],
        ),
{
    if chunks.len() < 6 || scratch.len() < 8 || path.len() > u16::MAX as usize
        || mime_type.len() > u16::MAX as usize || subject.len() > u16::MAX as usize
            || text.len() > u16::MAX as usize {
        return 0;
    }
    scratch32(scratch, 0, parent_thread);
    scratch32(scratch, 4, thread_id);
    let ghost fixed = bytes::be32_bytes(parent_thread) + bytes::be32_bytes(thread_id);
    let ghost sc = scratch@;
    proof {
        bytes::be32_round_trip(parent_thread, Seq::empty());
        bytes::be32_round_trip(thread_id, Seq::empty());
        assert(sc =~= bytes::overwrite(old(scratch)@, 0, fixed));
        assert(sc.subrange(0, 4) =~= bytes::be32_bytes(parent_thread));
        assert(sc.subrange(4, 8) =~= bytes::be32_bytes(thread_id));
    }
    let ghost mut sent: Seq<ChunkView> = Seq::empty();
    let mut n: usize = 0;
    n = put_data(chunks, n, tag::NEWSPATH, path, Ghost(sc), Ghost(sent));
    proof {
        sent = sent.push(outgoing::field(tag::NEWSPATH, path@));
    }
    n = put_scratch(chunks, n, tag::PARENTTHREAD, 0, 4, Ghost(sc), Ghost(sent));
    proof {
        sent = sent.push(outgoing::field(tag::PARENTTHREAD, bytes::be32_bytes(parent_thread)));
    }
    n = put_data(chunks, n, tag::NEWSTYPE, mime_type, Ghost(sc), Ghost(sent));
    proof {
        sent = sent.push(outgoing::field(tag::NEWSTYPE, mime_type@));
    }
    n = put_data(chunks, n, tag::NEWSSUBJECT, subject, Ghost(sc), Ghost(sent));
    proof {
        sent = sent.push(outgoing::field(tag::NEWSSUBJECT, subject@));
    }
    n = put_data(chunks, n, tag::NEWSDATA, text, Ghost(sc), Ghost(sent));
    proof {
        sent = sent.push(outgoing::field(tag::NEWSDATA, text@));
    }
    n = put_scratch(chunks, n, tag::THREADID, 4, 4, Ghost(sc), Ghost(sent));
    proof {
        sent = sent.push(outgoing::field(tag::THREADID, bytes::be32_bytes(thread_id)));
        assert(sent =~= seq![
            outgoing::field(tag::NEWSPATH, path@),
            outgoing::field(tag::PARENTTHREAD, bytes::be32_bytes(parent_thread)),
            outgoing::field(tag::NEWSTYPE, mime_type@),
            outgoing::field(tag::NEWSSUBJECT, subject@),
            outgoing::field(tag::NEWSDATA, text@),
            outgoing::field(tag::THREADID, bytes::be32_bytes(thread_id)),
        ]);
        assert(chunks@.skip(n as int) =~= old(chunks)@.skip(n as int));
    }
    n as i32
}

/// Making a folder.
pub fn gtkhx_proto_build_file_mkdir_chunks<'a>(
    dir: &'a [u8],
    chunks: &mut [HxChunk<'a>],
) -> (r: i32)
    ensures
        outgoing::built(
            old(chunks)@.len() >= 1 && dir@.len() <= u16::MAX,
            old(chunks)@,
            final(chunks)@,
            Seq::empty(),
            Seq::empty(),
            r as int,
            Seq::empty(),
            seq![outgoing::field(tag::DIR, dir@)],
        ),
{
    one_field_chunks(tag::DIR, dir, chunks)
}

/// Listing a folder.
pub fn gtkhx_proto_build_file_list_chunks<'a>(
    dir: &'a [u8],
    chunks: &mut [HxChunk<'a>],
) -> (r: i32)
    ensures
        outgoing::built(
            old(chunks)@.len() >= 1 && dir@.len() <= u16::MAX,
            old(chunks)@,
            final(chunks)@,
            Seq::empty(),
            Seq::empty(),
            r as int,
            Seq::empty(),
            seq![outgoing::field(tag::DIR, dir@)],
        ),
{
    one_field_chunks(tag::DIR, dir, chunks)
}

/// Deleting a file: name, and folder if there is one.
pub fn gtkhx_proto_build_file_delete_chunks<'a>(
    name: &'a [u8],
    dir: Option<&'a [u8]>,
    chunks: &mut [HxChunk<'a>],
) -> (r: i32)
    ensures
        outgoing::built(
            old(chunks)@.len() >= 2 && name@.len() <= u16::MAX && outgoing::opt_fits(dir),
            old(chunks)@,
            final(chunks)@,
            Seq::empty(),
            Seq::empty(),
            r as int,
            Seq::empty(),
            seq![outgoing::field(tag::FILE_NAME, name@)] + outgoing::opt_field(tag::DIR, dir),
        ),
{
    name_and_dir_chunks(name, dir, chunks)
}

/// A request for what is known of a file: name, and folder if there is one.
pub fn gtkhx_proto_build_file_getinfo_chunks<'a>(
    name: &'a [u8],
    dir: Option<&'a [u8]>,
    chunks: &mut [HxChunk<'a>],
) -> (r: i32)
    ensures
        outgoing::built(
            old(chunks)@.len() >= 2 && name@.len() <= u16::MAX && outgoing::opt_fits(dir),
            old(chunks)@,
            final(chunks)@,
            Seq::empty(),
            Seq::empty(),
            r as int,
            Seq::empty(),
            seq![outgoing::field(tag::FILE_NAME, name@)] + outgoing::opt_field(tag::DIR, dir),
        ),
{
    name_and_dir_chunks(name, dir, chunks)
}

/// Fetching a folder: name, and folder if there is one.
pub fn gtkhx_proto_build_file_getfolder_chunks<'a>(
    name: &'a [u8],
    dir: Option<&'a [u8]>,
    chunks: &mut [HxChunk<'a>],
) -> (r: i32)
    ensures
        outgoing::built(
            old(chunks)@.len() >= 2 && name@.len() <= u16::MAX && outgoing::opt_fits(dir),
            old(chunks)@,
            final(chunks)@,
            Seq::empty(),
            Seq::empty(),
            r as int,
            Seq::empty(),
            seq![outgoing::field(tag::FILE_NAME, name@)] + outgoing::opt_field(tag::DIR, dir),
        ),
{
    name_and_dir_chunks(name, dir, chunks)
}

/// Changing what is known of a file: name and new name, and comment and folder if there are such.
pub fn gtkhx_proto_build_file_setinfo_chunks<'a>(
    name: &'a [u8],
    rename: &'a [u8],
    comment: Option<&'a [u8]>,
    dir: Option<&'a [u8]>,
    chunks: &mut [HxChunk<'a>],
) -> (r: i32)
    ensures
        outgoing::built(
            old(chunks)@.len() >= 4 && name@.len() <= u16::MAX && rename@.len() <= u16::MAX
                && outgoing::opt_fits(comment) && outgoing::opt_fits(dir),
            old(chunks)@,
            final(chunks)@,
            Seq::empty(),
            Seq::empty(),
            r as int,
            Seq::empty(),
            seq![
                outgoing::field(tag::FILE_NAME, name@),
                outgoing::field(tag::FILE_RENAME, rename@),
            ] + outgoing::opt_field(
                tag::FILE_COMMENT,
                comment,
            ) + outgoing::opt_field(tag::DIR, dir),
        ),
{
    if chunks.len() < 4 || name.len() > u16::MAX as usize || rename.len() > u16::MAX as usize
        || !fits(comment) || !fits(dir) {
        return 0;
    }
    let ghost sc = Seq::<u8>::empty();
    let ghost mut sent: Seq<ChunkView> = Seq::empty();
    let mut n: usize = 0;
    n = put_data(chunks, n, tag::FILE_NAME, name, Ghost(sc), Ghost(sent));
    proof {
        sent = sent.push(outgoing::field(tag::FILE_NAME, name@));
    }
    n = put_data(chunks, n, tag::FILE_RENAME, rename, Ghost(sc), Ghost(sent));
    proof {
        sent = sent.push(outgoing::field(tag::FILE_RENAME, rename@));
    }
    n = put_opt(chunks, n, tag::FILE_COMMENT, comment, Ghost(sc), Ghost(sent));
    proof {
        sent = sent + outgoing::opt_field(tag::FILE_COMMENT, comment);
    }
    n = put_opt(chunks, n, tag::DIR, dir, Ghost(sc), Ghost(sent));
    proof {
        sent = sent + outgoing::opt_field(tag::DIR, dir);
        assert(sent =~= seq![
            outgoing::field(tag::FILE_NAME, name@),
            outgoing::field(tag::FILE_RENAME, rename@),
        ] + outgoing::opt_field(tag::FILE_COMMENT, comment) + outgoing::opt_field(tag::DIR, dir));
        assert(Seq::<u8>::empty() =~= bytes::overwrite(Seq::empty(), 0, Seq::empty()));
        assert(chunks@.skip(n as int) =~= old(chunks)@.skip(n as int));
    }
    n as i32
}

/// Moving a file: name, folder and new folder.
pub fn gtkhx_proto_build_file_move_chunks<'a>(
    name: &'a [u8],
    dir: &'a [u8],
    dir_rename: &'a [u8],
    chunks: &mut [HxChunk<'a>],
) -> (r: i32)
    ensures
        outgoing::built(
            old(chunks)@.len() >= 3 && name@.len() <= u16::MAX && dir@.len() <= u16::MAX
                && dir_rename@.len() <= u16::MAX,
            old(chunks)@,
            final(chunks)@,
            Seq::empty(),
            Seq::empty(),
            r as int,
            Seq::empty(),
            seq![
                outgoing::field(tag::FILE_NAME, name@),
                outgoing::field(tag::DIR, dir@),
                outgoing::field(tag::DIR_RENAME, dir_rename@),
            ],
        ),
{
    if chunks.len() < 3 || name.len() > u16::MAX as usize || dir.len() > u16::MAX as usize
        || dir_rename.len() > u16::MAX as usize {
        return 0;
    }
    let ghost sc = Seq::<u8>::empty();
    let ghost mut sent: Seq<ChunkView> = Seq::empty();
    let mut n: usize = 0;
    n = put_data(chunks, n, tag::FILE_NAME, name, Ghost(sc), Ghost(sent));
    proof {
        sent = sent.push(outgoing::field(tag::FILE_NAME, name@));
    }
    n = put_data(chunks, n, tag::DIR, dir, Ghost(sc), Ghost(sent));
    proof {
        sent = sent.push(outgoing::field(tag::DIR, dir@));
    }
    n = put_data(chunks, n, tag::DIR_RENAME, dir_rename, Ghost(sc), Ghost(sent));
    proof {
        sent = sent.push(outgoing::field(tag::DIR_RENAME, dir_rename@));
        assert(sent =~= seq![
            outgoing::field(tag::FILE_NAME, name@),
            outgoing::field(tag::DIR, dir@),
            outgoing::field(tag::DIR_RENAME, dir_rename@),
        ]);
        assert(Seq::<u8>::empty() =~= bytes::overwrite(Seq::empty(), 0, Seq::empty()));
        assert(chunks@.skip(n as int) =~= old(chunks)@.skip(n as int));
    }
    n as i32
}

/// Making an alias of a file: name, folder, folder of the alias and its name.
pub fn gtkhx_proto_build_file_symlink_chunks<'a>(
    name: &'a [u8],
    dir: &'a [u8],
    dir_rename: &'a [u8],
    rename: &'a [u8],
    chunks: &mut [HxChunk<'a>],
) -> (r: i32)
    ensures
        outgoing::built(
            old(chunks)@.len() >= 4 && name@.len() <= u16::MAX && dir@.len() <= u16::MAX
                && dir_rename@.len() <= u16::MAX && rename@.len() <= u16::MAX,
            old(chunks)@,
            final(chunks)@,
            Seq::empty(),
            Seq::empty(),
            r as int,
            Seq::empty(),
            seq![
                outgoing::field(tag::FILE_NAME, name@),
                outgoing::field(tag::DIR, dir@),
                outgoing::field(tag::DIR_RENAME, dir_rename@),
                outgoing::field(tag::FILE_RENAME, rename@),
            ],
        ),
{
    if chunks.len() < 4 || name.len() > u16::MAX as usize || dir.len() > u16::MAX as usize
        || dir_rename.len() > u16::MAX as usize || rename.len() > u16::MAX as usize {
        return 0;
    }
    let ghost sc = Seq::<u8>::empty();
    let ghost mut sent: Seq<ChunkView> = Seq::empty();
    let mut n: usize = 0;
    n = put_data(chunks, n, tag::FILE_NAME, name, Ghost(sc), Ghost(sent));
    proof {
        sent = sent.push(outgoing::field(tag::FILE_NAME, name@));
    }
    n = put_data(chunks, n, tag::DIR, dir, Ghost(sc), Ghost(sent));
    proof {
        sent = sent.push(outgoing::field(tag::DIR, dir@));
    }
    n = put_data(chunks, n, tag::DIR_RENAME, dir_rename, Ghost(sc), Ghost(sent));
    proof {
        sent = sent.push(outgoing::field(tag::DIR_RENAME, dir_rename@));
    }
    n = put_data(chunks, n, tag::FILE_RENAME, rename, Ghost(sc), Ghost(sent));
    proof {
        sent = sent.push(outgoing::field(tag::FILE_RENAME, rename@));
        assert(sent =~= seq![
            outgoing::field(tag::FILE_NAME, name@),
            outgoing::field(tag::DIR, dir@),
            outgoing::field(tag::DIR_RENAME, dir_rename@),
            outgoing::field(tag::FILE_RENAME, rename@),
        ]);
        assert(Seq::<u8>::empty() =~= bytes::overwrite(Seq::empty(), 0, Seq::empty()));
        assert(chunks@.skip(n as int) =~= old(chunks)@.skip(n as int));
    }
    n as i32
}

/// Sending a folder: name, folder if there is one, size and number of files.
pub fn gtkhx_proto_build_file_putfolder_chunks<'a>(
    name: &'a [u8],
    dir: Option<&'a [u8]>,
    size: u32,
    nfiles: u32,
    chunks: &mut [HxChunk<'a>],
    scratch: &mut [u8],
) -> (r: i32)
    ensures
        outgoing::built(
            old(chunks)@.len() >= 4 && old(scratch)@.len() >= 8 && name@.len() <= u16::MAX
                && outgoing::opt_fits(dir),
            old(chunks)@,
            final(chunks)@,
            old(scratch)@,
            final(scratch)@,
            r as int,
            bytes::be32_bytes(size) + bytes::be32_bytes(nfiles),
            seq![outgoing::field(tag::FILE_NAME, name@)] + outgoing::opt_field(tag::DIR, dir)
                + seq![
                    outgoing::field(tag::HTXF_SIZE, bytes::be32_bytes(size)),
                    outgoing::field(tag::FILE_NFILES, bytes::be32_bytes(nfiles)),
                ],
        ),
{
    if chunks.len() < 4 || scratch.len() < 8 || name.len() > u16::MAX as usize || !fits(dir) {
        return 0;
    }
    scratch32(scratch, 0, size);
    scratch32(scratch, 4, nfiles);
    let ghost fixed = bytes::be32_bytes(size) + bytes::be32_bytes(nfiles);
    let ghost sc = scratch@;
    proof {
        bytes::be32_round_trip(size, Seq::empty());
        bytes::be32_round_trip(nfiles, Seq::empty());
        assert(sc =~= bytes::overwrite(old(scratch)@, 0, fixed));
        assert(sc.subrange(0, 4) =~= bytes::be32_bytes(size));
        assert(sc.subrange(4, 8) =~= bytes::be32_bytes(nfiles));
    }
    let ghost mut sent: Seq<ChunkView> = Seq::empty();
    let mut n: usize = 0;
    n = put_data(chunks, n, tag::FILE_NAME, name, Ghost(sc), Ghost(sent));
    proof {
        sent = sent.push(outgoing::field(tag::FILE_NAME, name@));
    }
    n = put_opt(chunks, n, tag::DIR, dir, Ghost(sc), Ghost(sent));
    proof {
        sent = sent + outgoing::opt_field(tag::DIR, dir);
    }
    n = put_scratch(chunks, n, tag::HTXF_SIZE, 0, 4, Ghost(sc), Ghost(sent));
    proof {
        sent = sent.push(outgoing::field(tag::HTXF_SIZE, bytes::be32_bytes(size)));
    }
    n = put_scratch(chunks, n, tag::FILE_NFILES, 4, 4, Ghost(sc), Ghost(sent));
    proof {
        sent = sent.push(outgoing::field(tag::FILE_NFILES, bytes::be32_bytes(nfiles)));
        assert(sent =~= seq![outgoing::field(tag::FILE_NAME, name@)]
            + outgoing::opt_field(tag::DIR, dir) + seq![
                outgoing::field(tag::HTXF_SIZE, bytes::be32_bytes(size)),
                outgoing::field(tag::FILE_NFILES, bytes::be32_bytes(nfiles)),
            ]);
        assert(chunks@.skip(n as int) =~= old(chunks)@.skip(n as int));
    }
    n as i32
}

/// Fetching a file: name, and folder and resume record if there are such. A resume record has 74
/// bytes.
pub fn gtkhx_proto_build_file_get_chunks<'a>(
    name: &'a [u8],
    dir: Option<&'a [u8]>,
    rflt: Option<&'a [u8]>,
    chunks: &mut [HxChunk<'a>],
) -> (r: i32)
    ensures
        outgoing::built(
            old(chunks)@.len() >= 3 && name@.len() <= u16::MAX && outgoing::opt_fits(dir)
                && (rflt matches Some(d) ==> d@.len() == 74),
            old(chunks)@,
            final(chunks)@,
            Seq::empty(),
            Seq::empty(),
            r as int,
            Seq::empty(),
            seq![
                outgoing::field(tag::FILE_NAME, name@),
            ] + outgoing::opt_field(tag::DIR, dir) + outgoing::opt_field(tag::RFLT, rflt),
        ),
{
    if chunks.len() < 3 || name.len() > u16::MAX as usize || !fits(dir) {
        return 0;
    }
    if let Some(d) = rflt {
        if d.len() != 74 {
            return 0;
        }
    }
    let ghost sc = Seq::<u8>::empty();
    let ghost mut sent: Seq<ChunkView> = Seq::empty();
    let mut n: usize = 0;
    n = put_data(chunks, n, tag::FILE_NAME, name, Ghost(sc), Ghost(sent));
    proof {
        sent = sent.push(outgoing::field(tag::FILE_NAME, name@));
    }
    n = put_opt(chunks, n, tag::DIR, dir, Ghost(sc), Ghost(sent));
    proof {
        sent = sent + outgoing::opt_field(tag::DIR, dir);
    }
    n = put_opt(chunks, n, tag::RFLT, rflt, Ghost(sc), Ghost(sent));
    proof {
        sent = sent + outgoing::opt_field(tag::RFLT, rflt);
        assert(sent =~= seq![
            outgoing::field(tag::FILE_NAME, name@),
        ] + outgoing::opt_field(tag::DIR, dir) + outgoing::opt_field(tag::RFLT, rflt));
        assert(Seq::<u8>::empty() =~= bytes::overwrite(Seq::empty(), 0, Seq::empty()));
        assert(chunks@.skip(n as int) =~= old(chunks)@.skip(n as int));
    }
    n as i32
}

/// Sending a file: name, folder if there is one, the mark that an existing file is replaced, the
/// size as far as 32 bits hold it, and the full size if asked for.
pub fn gtkhx_proto_build_file_put_chunks<'a>(
    name: &'a [u8],
    dir: Option<&'a [u8]>,
    has_preview: bool,
    size: u32,
    has_size64: bool,
    size64: u64,
    chunks: &mut [HxChunk<'a>],
    scratch: &mut [u8],
) -> (r: i32)
    ensures
        outgoing::built(
            old(chunks)@.len() >= 5 && old(scratch)@.len() >= 12 && name@.len() <= u16::MAX
                && outgoing::opt_fits(dir),
            old(chunks)@,
            final(chunks)@,
            old(scratch)@,
            final(scratch)@,
            r as int,
            bytes::be32_bytes(size) + bytes::be64_bytes(size64),
            seq![outgoing::field(tag::FILE_NAME, name@)] + outgoing::opt_field(tag::DIR, dir)
                + outgoing::field_if(has_preview, tag::FILE_PREVIEW, preview_mark()) + seq![
                    outgoing::field(tag::HTXF_SIZE, bytes::be32_bytes(size)),
                ] + outgoing::field_if(has_size64, tag::XFERSIZE64, bytes::be64_bytes(size64)),
        ),
{
    if chunks.len() < 5 || scratch.len() < 12 || name.len() > u16::MAX as usize || !fits(dir) {
        return 0;
    }
    scratch32(scratch, 0, size);
    scratch64(scratch, 4, size64);
    let ghost fixed = bytes::be32_bytes(size) + bytes::be64_bytes(size64);
    let ghost sc = scratch@;
    proof {
        bytes::be32_round_trip(size, Seq::empty());
        bytes::be64_round_trip(size64, Seq::empty());
        assert(sc =~= bytes::overwrite(old(scratch)@, 0, fixed));
        assert(sc.subrange(0, 4) =~= bytes::be32_bytes(size));
        assert(sc.subrange(4, 12) =~= bytes::be64_bytes(size64));
    }
    let ghost mut sent: Seq<ChunkView> = Seq::empty();
    let mut n: usize = 0;
    n = put_data(chunks, n, tag::FILE_NAME, name, Ghost(sc), Ghost(sent));
    proof {
        sent = sent.push(outgoing::field(tag::FILE_NAME, name@));
    }
    n = put_opt(chunks, n, tag::DIR, dir, Ghost(sc), Ghost(sent));
    proof {
        sent = sent + outgoing::opt_field(tag::DIR, dir);
    }
    if has_preview {
        let mark: &'a [u8] = &[0u8, 1];
        assert(mark@ =~= preview_mark());
        n = put_data(chunks, n, tag::FILE_PREVIEW, mark, Ghost(sc), Ghost(sent));
        proof {
            sent = sent.push(outgoing::field(tag::FILE_PREVIEW, preview_mark()));
        }
    }
    n = put_scratch(chunks, n, tag::HTXF_SIZE, 0, 4, Ghost(sc), Ghost(sent));
    proof {
        sent = sent.push(outgoing::field(tag::HTXF_SIZE, bytes::be32_bytes(size)));
    }
    if has_size64 {
        n = put_scratch(chunks, n, tag::XFERSIZE64, 4, 8, Ghost(sc), Ghost(sent));
        proof {
            sent = sent.push(outgoing::field(tag::XFERSIZE64, bytes::be64_bytes(size64)));
        }
    }
    proof {
        assert(sent =~= seq![outgoing::field(tag::FILE_NAME, name@)]
            + outgoing::opt_field(tag::DIR, dir)
                + outgoing::field_if(has_preview, tag::FILE_PREVIEW, preview_mark()) + seq![
                    outgoing::field(tag::HTXF_SIZE, bytes::be32_bytes(size)),
                ] + outgoing::field_if(has_size64, tag::XFERSIZE64, bytes::be64_bytes(size64)));
        assert(chunks@.skip(n as int) =~= old(chunks)@.skip(n as int));
    }
    n as i32
}

} // verus!
