//! What every request carries, field by field.
use crate::bytes;
use crate::ffi::send::{
    gtkhx_proto_build_account_delete_chunks, gtkhx_proto_build_account_modify_chunks,
    gtkhx_proto_build_account_read_chunks, gtkhx_proto_build_agreement_agree_chunks,
    gtkhx_proto_build_broadcast_chunks, gtkhx_proto_build_chat_chunks,
    gtkhx_proto_build_chat_create_chunks, gtkhx_proto_build_chat_decline_chunks,
    gtkhx_proto_build_chat_invite_chunks, gtkhx_proto_build_chat_join_chunks,
    gtkhx_proto_build_chat_part_chunks, gtkhx_proto_build_chat_subject_chunks,
    gtkhx_proto_build_file_delete_chunks, gtkhx_proto_build_file_get_chunks,
    gtkhx_proto_build_file_getfolder_chunks, gtkhx_proto_build_file_getinfo_chunks,
    gtkhx_proto_build_file_list_chunks, gtkhx_proto_build_file_mkdir_chunks,
    gtkhx_proto_build_file_move_chunks, gtkhx_proto_build_file_put_chunks,
    gtkhx_proto_build_file_putfolder_chunks, gtkhx_proto_build_file_setinfo_chunks,
    gtkhx_proto_build_file_symlink_chunks, gtkhx_proto_build_msg_chunks,
    gtkhx_proto_build_news_catlist_chunks, gtkhx_proto_build_news_delete_chunks,
    gtkhx_proto_build_news_delete_thread_chunks, gtkhx_proto_build_news_dirlist_chunks,
    gtkhx_proto_build_news_getthread_chunks, gtkhx_proto_build_news_mkcat_chunks,
    gtkhx_proto_build_news_mkdir_chunks, gtkhx_proto_build_news_post_chunks,
    gtkhx_proto_build_news_post_thread_chunks, gtkhx_proto_build_user_change_chunks,
    gtkhx_proto_build_user_getinfo_chunks, gtkhx_proto_build_user_kick_chunks,
    hx_get_chat_history_build_chunks,
};
use crate::outgoing::HxChunk;
use vstd::prelude::*;

verus! {

/// A chat line carries its style and its text, and the room unless it is the public one.
pub proof fn chat_line<'a>(
    cid: u32,
    style: u16,
    body: &'a [u8],
    chunks: &mut [HxChunk<'a>],
    scratch: &mut [u8],
    r: i32,
)
    requires
        call_ensures(gtkhx_proto_build_chat_chunks, (cid, style, body, chunks, scratch), r),
    ensures
        ({
            let c = final(chunks)@;
            let s = final(scratch)@;
            let room = old(chunks)@.len() >= 3
                && old(scratch)@.len() >= 6
                && body@.len() <= 0xffff;
            let n1 = if cid != 0 {
                2 + 1int
            } else {
                2 + 0int
            };
            &&& c.len() == old(chunks)@.len()
            &&& !room ==> r == 0 && c == old(chunks)@ && s == old(scratch)@
            &&& room ==> r == n1
            &&& room ==> c[0].valid(s) && c[0].sent(s).tag == 0x6d && c[0].sent(
                s,
            ).data == bytes::be16_bytes(style)
            &&& room ==> c[1].valid(s) && c[1].sent(s).tag == 0x65 && c[1].sent(
                s,
            ).data == body@
            &&& room && cid != 0 ==> c[2].valid(s) && c[2].sent(s).tag == 0x72 && c[2].sent(
                s,
            ).data == bytes::be32_bytes(cid)
            &&& room ==> forall|i: int| r <= i < c.len() ==> #[trigger] c[i] == old(chunks)@[i]
        }),
{
    let c = final(chunks)@;
    assert forall|i: int| r <= i < c.len() && c.skip(r as int) == old(chunks)@.skip(
        r as int,
    ) implies #[trigger] c[i] == old(chunks)@[i] by {
        assert(c[i] == c.skip(r as int)[i - r]);
        assert(old(chunks)@[i] == old(chunks)@.skip(r as int)[i - r]);
    }
}

/// A request for the history names the channel, and of the bounds those that are not zero.
pub proof fn chat_history<'a>(
    channel_id: u32,
    before: u64,
    after: u64,
    limit: u16,
    chunks: &mut [HxChunk<'a>],
    scratch: &mut [u8],
    r: i32,
)
    requires
        call_ensures(hx_get_chat_history_build_chunks, (channel_id, before, after, limit, chunks, scratch), r),
    ensures
        ({
            let c = final(chunks)@;
            let s = final(scratch)@;
            let room = old(chunks)@.len() >= 4
                && old(scratch)@.len() >= 22;
            let n1 = if before != 0 {
                1 + 1int
            } else {
                1 + 0int
            };
            let n2 = if after != 0 {
                n1 + 1int
            } else {
                n1 + 0int
            };
            let n3 = if limit != 0 {
                n2 + 1int
            } else {
                n2 + 0int
            };
            &&& c.len() == old(chunks)@.len()
            &&& !room ==> r == 0 && c == old(chunks)@ && s == old(scratch)@
            &&& room ==> r == n3
            &&& room ==> c[0].valid(s) && c[0].sent(s).tag == 0x0f01 && c[0].sent(
                s,
            ).data == bytes::be32_bytes(channel_id)
            &&& room && before != 0 ==> c[1].valid(s) && c[1].sent(s).tag == 0x0f02 && c[1].sent(
                s,
            ).data == bytes::be64_bytes(before)
            &&& room && after != 0 ==> c[n1].valid(s) && c[n1].sent(s).tag == 0x0f03 && c[n1].sent(
                s,
            ).data == bytes::be64_bytes(after)
            &&& room && limit != 0 ==> c[n2].valid(s) && c[n2].sent(s).tag == 0x0f04 && c[n2].sent(
                s,
            ).data == bytes::be16_bytes(limit)
            &&& room ==> forall|i: int| r <= i < c.len() ==> #[trigger] c[i] == old(chunks)@[i]
        }),
{
    let c = final(chunks)@;
    assert forall|i: int| r <= i < c.len() && c.skip(r as int) == old(chunks)@.skip(
        r as int,
    ) implies #[trigger] c[i] == old(chunks)@[i] by {
        assert(c[i] == c.skip(r as int)[i - r]);
        assert(old(chunks)@[i] == old(chunks)@.skip(r as int)[i - r]);
    }
}

/// A message carries the user and the text.
pub proof fn message<'a>(
    uid: u16,
    body: &'a [u8],
    chunks: &mut [HxChunk<'a>],
    scratch: &mut [u8],
    r: i32,
)
    requires
        call_ensures(gtkhx_proto_build_msg_chunks, (uid, body, chunks, scratch), r),
    ensures
        ({
            let c = final(chunks)@;
            let s = final(scratch)@;
            let room = old(chunks)@.len() >= 2
                && old(scratch)@.len() >= 2
                && body@.len() <= 0xffff;
            &&& c.len() == old(chunks)@.len()
            &&& !room ==> r == 0 && c == old(chunks)@ && s == old(scratch)@
            &&& room ==> r == 2
            &&& room ==> c[0].valid(s) && c[0].sent(s).tag == 0x67 && c[0].sent(
                s,
            ).data == bytes::be16_bytes(uid)
            &&& room ==> c[1].valid(s) && c[1].sent(s).tag == 0x65 && c[1].sent(
                s,
            ).data == body@
            &&& room ==> forall|i: int| r <= i < c.len() ==> #[trigger] c[i] == old(chunks)@[i]
        }),
{
    let c = final(chunks)@;
    assert forall|i: int| r <= i < c.len() && c.skip(r as int) == old(chunks)@.skip(
        r as int,
    ) implies #[trigger] c[i] == old(chunks)@[i] by {
        assert(c[i] == c.skip(r as int)[i - r]);
        assert(old(chunks)@[i] == old(chunks)@.skip(r as int)[i - r]);
    }
}

/// A broadcast and a news post carry the text.
pub proof fn broadcast_and_news<'a>(
    body: &'a [u8],
    chunks: &mut [HxChunk<'a>],
    r: i32,
)
    requires
        call_ensures(gtkhx_proto_build_broadcast_chunks, (body, chunks), r)
            || call_ensures(gtkhx_proto_build_news_post_chunks, (body, chunks), r),
    ensures
        ({
            let c = final(chunks)@;
            let s = Seq::<u8>::empty();
            let room = old(chunks)@.len() >= 1
                && body@.len() <= 0xffff;
            &&& c.len() == old(chunks)@.len()
            &&& !room ==> r == 0 && c == old(chunks)@
            &&& room ==> r == 1
            &&& room ==> c[0].valid(s) && c[0].sent(s).tag == 0x65 && c[0].sent(
                s,
            ).data == body@
            &&& room ==> forall|i: int| r <= i < c.len() ==> #[trigger] c[i] == old(chunks)@[i]
        }),
{
    let c = final(chunks)@;
    assert forall|i: int| r <= i < c.len() && c.skip(r as int) == old(chunks)@.skip(
        r as int,
    ) implies #[trigger] c[i] == old(chunks)@[i] by {
        assert(c[i] == c.skip(r as int)[i - r]);
        assert(old(chunks)@[i] == old(chunks)@.skip(r as int)[i - r]);
    }
}

/// Making a room and asking about a user carry the user.
pub proof fn user_alone<'a>(
    uid: u16,
    chunks: &mut [HxChunk<'a>],
    scratch: &mut [u8],
    r: i32,
)
    requires
        call_ensures(gtkhx_proto_build_chat_create_chunks, (uid, chunks, scratch), r)
            || call_ensures(gtkhx_proto_build_user_getinfo_chunks, (uid, chunks, scratch), r),
    ensures
        ({
            let c = final(chunks)@;
            let s = final(scratch)@;
            let room = old(chunks)@.len() >= 1
                && old(scratch)@.len() >= 2;
            &&& c.len() == old(chunks)@.len()
            &&& !room ==> r == 0 && c == old(chunks)@ && s == old(scratch)@
            &&& room ==> r == 1
            &&& room ==> c[0].valid(s) && c[0].sent(s).tag == 0x67 && c[0].sent(
                s,
            ).data == bytes::be16_bytes(uid)
            &&& room ==> forall|i: int| r <= i < c.len() ==> #[trigger] c[i] == old(chunks)@[i]
        }),
{
    let c = final(chunks)@;
    assert forall|i: int| r <= i < c.len() && c.skip(r as int) == old(chunks)@.skip(
        r as int,
    ) implies #[trigger] c[i] == old(chunks)@[i] by {
        assert(c[i] == c.skip(r as int)[i - r]);
        assert(old(chunks)@[i] == old(chunks)@.skip(r as int)[i - r]);
    }
}

/// An invitation carries the room and the user.
pub proof fn invitation<'a>(
    cid: u32,
    uid: u16,
    chunks: &mut [HxChunk<'a>],
    scratch: &mut [u8],
    r: i32,
)
    requires
        call_ensures(gtkhx_proto_build_chat_invite_chunks, (cid, uid, chunks, scratch), r),
    ensures
        ({
            let c = final(chunks)@;
            let s = final(scratch)@;
            let room = old(chunks)@.len() >= 2
                && old(scratch)@.len() >= 6;
            &&& c.len() == old(chunks)@.len()
            &&& !room ==> r == 0 && c == old(chunks)@ && s == old(scratch)@
            &&& room ==> r == 2
            &&& room ==> c[0].valid(s) && c[0].sent(s).tag == 0x72 && c[0].sent(
                s,
            ).data == bytes::be32_bytes(cid)
            &&& room ==> c[1].valid(s) && c[1].sent(s).tag == 0x67 && c[1].sent(
                s,
            ).data == bytes::be16_bytes(uid)
            &&& room ==> forall|i: int| r <= i < c.len() ==> #[trigger] c[i] == old(chunks)@[i]
        }),
{
    let c = final(chunks)@;
    assert forall|i: int| r <= i < c.len() && c.skip(r as int) == old(chunks)@.skip(
        r as int,
    ) implies #[trigger] c[i] == old(chunks)@[i] by {
        assert(c[i] == c.skip(r as int)[i - r]);
        assert(old(chunks)@[i] == old(chunks)@.skip(r as int)[i - r]);
    }
}

/// Joining, leaving and declining carry the room.
pub proof fn room_alone<'a>(
    cid: u32,
    chunks: &mut [HxChunk<'a>],
    scratch: &mut [u8],
    r: i32,
)
    requires
        call_ensures(gtkhx_proto_build_chat_join_chunks, (cid, chunks, scratch), r)
            || call_ensures(gtkhx_proto_build_chat_part_chunks, (cid, chunks, scratch), r)
            || call_ensures(gtkhx_proto_build_chat_decline_chunks, (cid, chunks, scratch), r),
    ensures
        ({
            let c = final(chunks)@;
            let s = final(scratch)@;
            let room = old(chunks)@.len() >= 1
                && old(scratch)@.len() >= 4;
            &&& c.len() == old(chunks)@.len()
            &&& !room ==> r == 0 && c == old(chunks)@ && s == old(scratch)@
            &&& room ==> r == 1
            &&& room ==> c[0].valid(s) && c[0].sent(s).tag == 0x72 && c[0].sent(
                s,
            ).data == bytes::be32_bytes(cid)
            &&& room ==> forall|i: int| r <= i < c.len() ==> #[trigger] c[i] == old(chunks)@[i]
        }),
{
    let c = final(chunks)@;
    assert forall|i: int| r <= i < c.len() && c.skip(r as int) == old(chunks)@.skip(
        r as int,
    ) implies #[trigger] c[i] == old(chunks)@[i] by {
        assert(c[i] == c.skip(r as int)[i - r]);
        assert(old(chunks)@[i] == old(chunks)@.skip(r as int)[i - r]);
    }
}

/// A subject comes with its room.
pub proof fn subject<'a>(
    cid: u32,
    subject: &'a [u8],
    chunks: &mut [HxChunk<'a>],
    scratch: &mut [u8],
    r: i32,
)
    requires
        call_ensures(gtkhx_proto_build_chat_subject_chunks, (cid, subject, chunks, scratch), r),
    ensures
        ({
            let c = final(chunks)@;
            let s = final(scratch)@;
            let room = old(chunks)@.len() >= 2
                && old(scratch)@.len() >= 4
                && subject@.len() <= 0xffff;
            &&& c.len() == old(chunks)@.len()
            &&& !room ==> r == 0 && c == old(chunks)@ && s == old(scratch)@
            &&& room ==> r == 2
            &&& room ==> c[0].valid(s) && c[0].sent(s).tag == 0x72 && c[0].sent(
                s,
            ).data == bytes::be32_bytes(cid)
            &&& room ==> c[1].valid(s) && c[1].sent(s).tag == 0x73 && c[1].sent(
                s,
            ).data == subject@
            &&& room ==> forall|i: int| r <= i < c.len() ==> #[trigger] c[i] == old(chunks)@[i]
        }),
{
    let c = final(chunks)@;
    assert forall|i: int| r <= i < c.len() && c.skip(r as int) == old(chunks)@.skip(
        r as int,
    ) implies #[trigger] c[i] == old(chunks)@[i] by {
        assert(c[i] == c.skip(r as int)[i - r]);
        assert(old(chunks)@[i] == old(chunks)@.skip(r as int)[i - r]);
    }
}

/// Agreeing carries icon, name and options.
pub proof fn agreement<'a>(
    icon: u16,
    name: &'a [u8],
    options: u16,
    chunks: &mut [HxChunk<'a>],
    scratch: &mut [u8],
    r: i32,
)
    requires
        call_ensures(gtkhx_proto_build_agreement_agree_chunks, (icon, name, options, chunks, scratch), r),
    ensures
        ({
            let c = final(chunks)@;
            let s = final(scratch)@;
            let room = old(chunks)@.len() >= 3
                && old(scratch)@.len() >= 4
                && name@.len() <= 0xffff;
            &&& c.len() == old(chunks)@.len()
            &&& !room ==> r == 0 && c == old(chunks)@ && s == old(scratch)@
            &&& room ==> r == 3
            &&& room ==> c[0].valid(s) && c[0].sent(s).tag == 0x68 && c[0].sent(
                s,
            ).data == bytes::be16_bytes(icon)
            &&& room ==> c[1].valid(s) && c[1].sent(s).tag == 0x66 && c[1].sent(
                s,
            ).data == name@
            &&& room ==> c[2].valid(s) && c[2].sent(s).tag == 0x71 && c[2].sent(
                s,
            ).data == bytes::be16_bytes(options)
            &&& room ==> forall|i: int| r <= i < c.len() ==> #[trigger] c[i] == old(chunks)@[i]
        }),
{
    let c = final(chunks)@;
    assert forall|i: int| r <= i < c.len() && c.skip(r as int) == old(chunks)@.skip(
        r as int,
    ) implies #[trigger] c[i] == old(chunks)@[i] by {
        assert(c[i] == c.skip(r as int)[i - r]);
        assert(old(chunks)@[i] == old(chunks)@.skip(r as int)[i - r]);
    }
}

/// A change of oneself carries icon and name, and the colour if there is one.
pub proof fn own_change<'a>(
    icon: u16,
    name: &'a [u8],
    has_nick_color: bool,
    nick_color: u32,
    chunks: &mut [HxChunk<'a>],
    scratch: &mut [u8],
    r: i32,
)
    requires
        call_ensures(gtkhx_proto_build_user_change_chunks, (icon, name, has_nick_color, nick_color, chunks, scratch), r),
    ensures
        ({
            let c = final(chunks)@;
            let s = final(scratch)@;
            let room = old(chunks)@.len() >= 3
                && old(scratch)@.len() >= 6
                && name@.len() <= 0xffff;
            let n1 = if has_nick_color {
                2 + 1int
            } else {
                2 + 0int
            };
            &&& c.len() == old(chunks)@.len()
            &&& !room ==> r == 0 && c == old(chunks)@ && s == old(scratch)@
            &&& room ==> r == n1
            &&& room ==> c[0].valid(s) && c[0].sent(s).tag == 0x68 && c[0].sent(
                s,
            ).data == bytes::be16_bytes(icon)
            &&& room ==> c[1].valid(s) && c[1].sent(s).tag == 0x66 && c[1].sent(
                s,
            ).data == name@
            &&& room && has_nick_color ==> c[2].valid(s) && c[2].sent(s).tag == 0x0500 && c[2].sent(
                s,
            ).data == bytes::be32_bytes(nick_color)
            &&& room ==> forall|i: int| r <= i < c.len() ==> #[trigger] c[i] == old(chunks)@[i]
        }),
{
    let c = final(chunks)@;
    assert forall|i: int| r <= i < c.len() && c.skip(r as int) == old(chunks)@.skip(
        r as int,
    ) implies #[trigger] c[i] == old(chunks)@[i] by {
        assert(c[i] == c.skip(r as int)[i - r]);
        assert(old(chunks)@[i] == old(chunks)@.skip(r as int)[i - r]);
    }
}

/// A kick carries a ban if there is one, and the user.
pub proof fn kick<'a>(
    uid: u16,
    ban: u16,
    chunks: &mut [HxChunk<'a>],
    scratch: &mut [u8],
    r: i32,
)
    requires
        call_ensures(gtkhx_proto_build_user_kick_chunks, (uid, ban, chunks, scratch), r),
    ensures
        ({
            let c = final(chunks)@;
            let s = final(scratch)@;
            let room = old(chunks)@.len() >= 2
                && old(scratch)@.len() >= 4;
            let n1 = if ban != 0 {
                0 + 1int
            } else {
                0 + 0int
            };
            &&& c.len() == old(chunks)@.len()
            &&& !room ==> r == 0 && c == old(chunks)@ && s == old(scratch)@
            &&& room ==> r == n1 + 1
            &&& room && ban != 0 ==> c[0].valid(s) && c[0].sent(s).tag == 0x71 && c[0].sent(
                s,
            ).data == bytes::be16_bytes(ban)
            &&& room ==> c[n1].valid(s) && c[n1].sent(s).tag == 0x67 && c[n1].sent(
                s,
            ).data == bytes::be16_bytes(uid)
            &&& room ==> forall|i: int| r <= i < c.len() ==> #[trigger] c[i] == old(chunks)@[i]
        }),
{
    let c = final(chunks)@;
    assert forall|i: int| r <= i < c.len() && c.skip(r as int) == old(chunks)@.skip(
        r as int,
    ) implies #[trigger] c[i] == old(chunks)@[i] by {
        assert(c[i] == c.skip(r as int)[i - r]);
        assert(old(chunks)@[i] == old(chunks)@.skip(r as int)[i - r]);
    }
}

/// Reading and deleting an account carry the login.
pub proof fn login_alone<'a>(
    login: &'a [u8],
    chunks: &mut [HxChunk<'a>],
    r: i32,
)
    requires
        call_ensures(gtkhx_proto_build_account_read_chunks, (login, chunks), r)
            || call_ensures(gtkhx_proto_build_account_delete_chunks, (login, chunks), r),
    ensures
        ({
            let c = final(chunks)@;
            let s = Seq::<u8>::empty();
            let room = old(chunks)@.len() >= 1
                && login@.len() <= 0xffff;
            &&& c.len() == old(chunks)@.len()
            &&& !room ==> r == 0 && c == old(chunks)@
            &&& room ==> r == 1
            &&& room ==> c[0].valid(s) && c[0].sent(s).tag == 0x69 && c[0].sent(
                s,
            ).data == login@
            &&& room ==> forall|i: int| r <= i < c.len() ==> #[trigger] c[i] == old(chunks)@[i]
        }),
{
    let c = final(chunks)@;
    assert forall|i: int| r <= i < c.len() && c.skip(r as int) == old(chunks)@.skip(
        r as int,
    ) implies #[trigger] c[i] == old(chunks)@[i] by {
        assert(c[i] == c.skip(r as int)[i - r]);
        assert(old(chunks)@[i] == old(chunks)@.skip(r as int)[i - r]);
    }
}

/// An account carries login, password, name and access.
pub proof fn account<'a>(
    login: &'a [u8],
    password: &'a [u8],
    name: &'a [u8],
    access: &[u8; 8],
    chunks: &mut [HxChunk<'a>],
    scratch: &mut [u8],
    r: i32,
)
    requires
        call_ensures(gtkhx_proto_build_account_modify_chunks, (login, password, name, access, chunks, scratch), r),
    ensures
        ({
            let c = final(chunks)@;
            let s = final(scratch)@;
            let room = old(chunks)@.len() >= 4
                && old(scratch)@.len() >= 8
                && login@.len() <= 0xffff
                && password@.len() <= 0xffff
                && name@.len() <= 0xffff;
            &&& c.len() == old(chunks)@.len()
            &&& !room ==> r == 0 && c == old(chunks)@ && s == old(scratch)@
            &&& room ==> r == 4
            &&& room ==> c[0].valid(s) && c[0].sent(s).tag == 0x69 && c[0].sent(
                s,
            ).data == login@
            &&& room ==> c[1].valid(s) && c[1].sent(s).tag == 0x6a && c[1].sent(
                s,
            ).data == password@
            &&& room ==> c[2].valid(s) && c[2].sent(s).tag == 0x66 && c[2].sent(
                s,
            ).data == name@
            &&& room ==> c[3].valid(s) && c[3].sent(s).tag == 0x6e && c[3].sent(
                s,
            ).data == access@
            &&& room ==> forall|i: int| r <= i < c.len() ==> #[trigger] c[i] == old(chunks)@[i]
        }),
{
    let c = final(chunks)@;
    assert forall|i: int| r <= i < c.len() && c.skip(r as int) == old(chunks)@.skip(
        r as int,
    ) implies #[trigger] c[i] == old(chunks)@[i] by {
        assert(c[i] == c.skip(r as int)[i - r]);
        assert(old(chunks)@[i] == old(chunks)@.skip(r as int)[i - r]);
    }
}

/// Listing, deleting and making folders of news carry the path.
pub proof fn news_path_alone<'a>(
    path: &'a [u8],
    chunks: &mut [HxChunk<'a>],
    r: i32,
)
    requires
        call_ensures(gtkhx_proto_build_news_catlist_chunks, (path, chunks), r)
            || call_ensures(gtkhx_proto_build_news_dirlist_chunks, (path, chunks), r)
            || call_ensures(gtkhx_proto_build_news_delete_chunks, (path, chunks), r)
            || call_ensures(gtkhx_proto_build_news_mkdir_chunks, (path, chunks), r),
    ensures
        ({
            let c = final(chunks)@;
            let s = Seq::<u8>::empty();
            let room = old(chunks)@.len() >= 1
                && path@.len() <= 0xffff;
            &&& c.len() == old(chunks)@.len()
            &&& !room ==> r == 0 && c == old(chunks)@
            &&& room ==> r == 1
            &&& room ==> c[0].valid(s) && c[0].sent(s).tag == 0x0145 && c[0].sent(
                s,
            ).data == path@
            &&& room ==> forall|i: int| r <= i < c.len() ==> #[trigger] c[i] == old(chunks)@[i]
        }),
{
    let c = final(chunks)@;
    assert forall|i: int| r <= i < c.len() && c.skip(r as int) == old(chunks)@.skip(
        r as int,
    ) implies #[trigger] c[i] == old(chunks)@[i] by {
        assert(c[i] == c.skip(r as int)[i - r]);
        assert(old(chunks)@[i] == old(chunks)@.skip(r as int)[i - r]);
    }
}

/// Deleting a thread carries path and thread.
pub proof fn news_thread_is_deleted<'a>(
    path: &'a [u8],
    threadid: u32,
    chunks: &mut [HxChunk<'a>],
    scratch: &mut [u8],
    r: i32,
)
    requires
        call_ensures(gtkhx_proto_build_news_delete_thread_chunks, (path, threadid, chunks, scratch), r),
    ensures
        ({
            let c = final(chunks)@;
            let s = final(scratch)@;
            let room = old(chunks)@.len() >= 2
                && old(scratch)@.len() >= 4
                && path@.len() <= 0xffff;
            &&& c.len() == old(chunks)@.len()
            &&& !room ==> r == 0 && c == old(chunks)@ && s == old(scratch)@
            &&& room ==> r == 2
            &&& room ==> c[0].valid(s) && c[0].sent(s).tag == 0x0145 && c[0].sent(
                s,
            ).data == path@
            &&& room ==> c[1].valid(s) && c[1].sent(s).tag == 0x0146 && c[1].sent(
                s,
            ).data == bytes::be32_bytes(threadid)
            &&& room ==> forall|i: int| r <= i < c.len() ==> #[trigger] c[i] == old(chunks)@[i]
        }),
{
    let c = final(chunks)@;
    assert forall|i: int| r <= i < c.len() && c.skip(r as int) == old(chunks)@.skip(
        r as int,
    ) implies #[trigger] c[i] == old(chunks)@[i] by {
        assert(c[i] == c.skip(r as int)[i - r]);
        assert(old(chunks)@[i] == old(chunks)@.skip(r as int)[i - r]);
    }
}

/// Getting a thread carries path, thread and the kind of text.
pub proof fn news_thread_is_fetched<'a>(
    path: &'a [u8],
    threadid: u32,
    mime_type: &'a [u8],
    chunks: &mut [HxChunk<'a>],
    scratch: &mut [u8],
    r: i32,
)
    requires
        call_ensures(gtkhx_proto_build_news_getthread_chunks, (path, threadid, mime_type, chunks, scratch), r),
    ensures
        ({
            let c = final(chunks)@;
            let s = final(scratch)@;
            let room = old(chunks)@.len() >= 3
                && old(scratch)@.len() >= 4
                && path@.len() <= 0xffff
                && mime_type@.len() <= 0xffff;
            &&& c.len() == old(chunks)@.len()
            &&& !room ==> r == 0 && c == old(chunks)@ && s == old(scratch)@
            &&& room ==> r == 3
            &&& room ==> c[0].valid(s) && c[0].sent(s).tag == 0x0145 && c[0].sent(
                s,
            ).data == path@
            &&& room ==> c[1].valid(s) && c[1].sent(s).tag == 0x0146 && c[1].sent(
                s,
            ).data == bytes::be32_bytes(threadid)
            &&& room ==> c[2].valid(s) && c[2].sent(s).tag == 0x0147 && c[2].sent(
                s,
            ).data == mime_type@
            &&& room ==> forall|i: int| r <= i < c.len() ==> #[trigger] c[i] == old(chunks)@[i]
        }),
{
    let c = final(chunks)@;
    assert forall|i: int| r <= i < c.len() && c.skip(r as int) == old(chunks)@.skip(
        r as int,
    ) implies #[trigger] c[i] == old(chunks)@[i] by {
        assert(c[i] == c.skip(r as int)[i - r]);
        assert(old(chunks)@[i] == old(chunks)@.skip(r as int)[i - r]);
    }
}

/// Making a category carries path and name.
pub proof fn news_category<'a>(
    path: &'a [u8],
    name: &'a [u8],
    chunks: &mut [HxChunk<'a>],
    r: i32,
)
    requires
        call_ensures(gtkhx_proto_build_news_mkcat_chunks, (path, name, chunks), r),
    ensures
        ({
            let c = final(chunks)@;
            let s = Seq::<u8>::empty();
            let room = old(chunks)@.len() >= 2
                && path@.len() <= 0xffff
                && name@.len() <= 0xffff;
            &&& c.len() == old(chunks)@.len()
            &&& !room ==> r == 0 && c == old(chunks)@
            &&& room ==> r == 2
            &&& room ==> c[0].valid(s) && c[0].sent(s).tag == 0x0145 && c[0].sent(
                s,
            ).data == path@
            &&& room ==> c[1].valid(s) && c[1].sent(s).tag == 0x0142 && c[1].sent(
                s,
            ).data == name@
            &&& room ==> forall|i: int| r <= i < c.len() ==> #[trigger] c[i] == old(chunks)@[i]
        }),
{
    let c = final(chunks)@;
    assert forall|i: int| r <= i < c.len() && c.skip(r as int) == old(chunks)@.skip(
        r as int,
    ) implies #[trigger] c[i] == old(chunks)@[i] by {
        assert(c[i] == c.skip(r as int)[i - r]);
        assert(old(chunks)@[i] == old(chunks)@.skip(r as int)[i - r]);
    }
}

/// Posting to a thread carries path, parent, kind of text, subject, text and thread.
pub proof fn news_thread_is_posted<'a>(
    path: &'a [u8],
    parent_thread: u32,
    mime_type: &'a [u8],
    subject: &'a [u8],
    text: &'a [u8],
    thread_id: u32,
    chunks: &mut [HxChunk<'a>],
    scratch: &mut [u8],
    r: i32,
)
    requires
        call_ensures(gtkhx_proto_build_news_post_thread_chunks, (path, parent_thread, mime_type, subject, text, thread_id, chunks, scratch), r),
    ensures
        ({
            let c = final(chunks)@;
            let s = final(scratch)@;
            let room = old(chunks)@.len() >= 6
                && old(scratch)@.len() >= 8
                && path@.len() <= 0xffff
                && mime_type@.len() <= 0xffff
                && subject@.len() <= 0xffff
                && text@.len() <= 0xffff;
            &&& c.len() == old(chunks)@.len()
            &&& !room ==> r == 0 && c == old(chunks)@ && s == old(scratch)@
            &&& room ==> r == 6
            &&& room ==> c[0].valid(s) && c[0].sent(s).tag == 0x0145 && c[0].sent(
                s,
            ).data == path@
            &&& room ==> c[1].valid(s) && c[1].sent(s).tag == 0x014e && c[1].sent(
                s,
            ).data == bytes::be32_bytes(parent_thread)
            &&& room ==> c[2].valid(s) && c[2].sent(s).tag == 0x0147 && c[2].sent(
                s,
            ).data == mime_type@
            &&& room ==> c[3].valid(s) && c[3].sent(s).tag == 0x0148 && c[3].sent(
                s,
            ).data == subject@
            &&& room ==> c[4].valid(s) && c[4].sent(s).tag == 0x014d && c[4].sent(
                s,
            ).data == text@
            &&& room ==> c[5].valid(s) && c[5].sent(s).tag == 0x0146 && c[5].sent(
                s,
            ).data == bytes::be32_bytes(thread_id)
            &&& room ==> forall|i: int| r <= i < c.len() ==> #[trigger] c[i] == old(chunks)@[i]
        }),
{
    let c = final(chunks)@;
    assert forall|i: int| r <= i < c.len() && c.skip(r as int) == old(chunks)@.skip(
        r as int,
    ) implies #[trigger] c[i] == old(chunks)@[i] by {
        assert(c[i] == c.skip(r as int)[i - r]);
        assert(old(chunks)@[i] == old(chunks)@.skip(r as int)[i - r]);
    }
}

/// Making and listing a folder carry the directory.
pub proof fn directory_alone<'a>(
    dir: &'a [u8],
    chunks: &mut [HxChunk<'a>],
    r: i32,
)
    requires
        call_ensures(gtkhx_proto_build_file_mkdir_chunks, (dir, chunks), r)
            || call_ensures(gtkhx_proto_build_file_list_chunks, (dir, chunks), r),
    ensures
        ({
            let c = final(chunks)@;
            let s = Seq::<u8>::empty();
            let room = old(chunks)@.len() >= 1
                && dir@.len() <= 0xffff;
            &&& c.len() == old(chunks)@.len()
            &&& !room ==> r == 0 && c == old(chunks)@
            &&& room ==> r == 1
            &&& room ==> c[0].valid(s) && c[0].sent(s).tag == 0xca && c[0].sent(
                s,
            ).data == dir@
            &&& room ==> forall|i: int| r <= i < c.len() ==> #[trigger] c[i] == old(chunks)@[i]
        }),
{
    let c = final(chunks)@;
    assert forall|i: int| r <= i < c.len() && c.skip(r as int) == old(chunks)@.skip(
        r as int,
    ) implies #[trigger] c[i] == old(chunks)@[i] by {
        assert(c[i] == c.skip(r as int)[i - r]);
        assert(old(chunks)@[i] == old(chunks)@.skip(r as int)[i - r]);
    }
}

/// Deleting a file, asking about it and getting a folder carry the name, and the directory if there is
/// one.
pub proof fn name_and_directory<'a>(
    name: &'a [u8],
    dir: Option<&'a [u8]>,
    chunks: &mut [HxChunk<'a>],
    r: i32,
)
    requires
        call_ensures(gtkhx_proto_build_file_delete_chunks, (name, dir, chunks), r)
            || call_ensures(gtkhx_proto_build_file_getinfo_chunks, (name, dir, chunks), r)
            || call_ensures(gtkhx_proto_build_file_getfolder_chunks, (name, dir, chunks), r),
    ensures
        ({
            let c = final(chunks)@;
            let s = Seq::<u8>::empty();
            let room = old(chunks)@.len() >= 2
                && name@.len() <= 0xffff
                && (dir matches Some(d) ==> d@.len() <= 0xffff);
            let n1 = if dir is Some {
                1 + 1int
            } else {
                1 + 0int
            };
            &&& c.len() == old(chunks)@.len()
            &&& !room ==> r == 0 && c == old(chunks)@
            &&& room ==> r == n1
            &&& room ==> c[0].valid(s) && c[0].sent(s).tag == 0xc9 && c[0].sent(
                s,
            ).data == name@
            &&& room && dir is Some ==> c[1].valid(s) && c[1].sent(s).tag == 0xca && c[1].sent(
                s,
            ).data == dir->0@
            &&& room ==> forall|i: int| r <= i < c.len() ==> #[trigger] c[i] == old(chunks)@[i]
        }),
{
    let c = final(chunks)@;
    assert forall|i: int| r <= i < c.len() && c.skip(r as int) == old(chunks)@.skip(
        r as int,
    ) implies #[trigger] c[i] == old(chunks)@[i] by {
        assert(c[i] == c.skip(r as int)[i - r]);
        assert(old(chunks)@[i] == old(chunks)@.skip(r as int)[i - r]);
    }
}

/// Changing a file carries both names, and comment and directory if they are there.
pub proof fn file_change<'a>(
    name: &'a [u8],
    rename: &'a [u8],
    comment: Option<&'a [u8]>,
    dir: Option<&'a [u8]>,
    chunks: &mut [HxChunk<'a>],
    r: i32,
)
    requires
        call_ensures(gtkhx_proto_build_file_setinfo_chunks, (name, rename, comment, dir, chunks), r),
    ensures
        ({
            let c = final(chunks)@;
            let s = Seq::<u8>::empty();
            let room = old(chunks)@.len() >= 4
                && name@.len() <= 0xffff
                && rename@.len() <= 0xffff
                && (comment matches Some(d) ==> d@.len() <= 0xffff)
                && (dir matches Some(d) ==> d@.len() <= 0xffff);
            let n1 = if comment is Some {
                2 + 1int
            } else {
                2 + 0int
            };
            let n2 = if dir is Some {
                n1 + 1int
            } else {
                n1 + 0int
            };
            &&& c.len() == old(chunks)@.len()
            &&& !room ==> r == 0 && c == old(chunks)@
            &&& room ==> r == n2
            &&& room ==> c[0].valid(s) && c[0].sent(s).tag == 0xc9 && c[0].sent(
                s,
            ).data == name@
            &&& room ==> c[1].valid(s) && c[1].sent(s).tag == 0xd3 && c[1].sent(
                s,
            ).data == rename@
            &&& room && comment is Some ==> c[2].valid(s) && c[2].sent(s).tag == 0xd2 && c[2].sent(
                s,
            ).data == comment->0@
            &&& room && dir is Some ==> c[n1].valid(s) && c[n1].sent(s).tag == 0xca && c[n1].sent(
                s,
            ).data == dir->0@
            &&& room ==> forall|i: int| r <= i < c.len() ==> #[trigger] c[i] == old(chunks)@[i]
        }),
{
    let c = final(chunks)@;
    assert forall|i: int| r <= i < c.len() && c.skip(r as int) == old(chunks)@.skip(
        r as int,
    ) implies #[trigger] c[i] == old(chunks)@[i] by {
        assert(c[i] == c.skip(r as int)[i - r]);
        assert(old(chunks)@[i] == old(chunks)@.skip(r as int)[i - r]);
    }
}

/// Moving a file carries its name and both directories.
pub proof fn file_move<'a>(
    name: &'a [u8],
    dir: &'a [u8],
    dir_rename: &'a [u8],
    chunks: &mut [HxChunk<'a>],
    r: i32,
)
    requires
        call_ensures(gtkhx_proto_build_file_move_chunks, (name, dir, dir_rename, chunks), r),
    ensures
        ({
            let c = final(chunks)@;
            let s = Seq::<u8>::empty();
            let room = old(chunks)@.len() >= 3
                && name@.len() <= 0xffff
                && dir@.len() <= 0xffff
                && dir_rename@.len() <= 0xffff;
            &&& c.len() == old(chunks)@.len()
            &&& !room ==> r == 0 && c == old(chunks)@
            &&& room ==> r == 3
            &&& room ==> c[0].valid(s) && c[0].sent(s).tag == 0xc9 && c[0].sent(
                s,
            ).data == name@
            &&& room ==> c[1].valid(s) && c[1].sent(s).tag == 0xca && c[1].sent(
                s,
            ).data == dir@
            &&& room ==> c[2].valid(s) && c[2].sent(s).tag == 0xd4 && c[2].sent(
                s,
            ).data == dir_rename@
            &&& room ==> forall|i: int| r <= i < c.len() ==> #[trigger] c[i] == old(chunks)@[i]
        }),
{
    let c = final(chunks)@;
    assert forall|i: int| r <= i < c.len() && c.skip(r as int) == old(chunks)@.skip(
        r as int,
    ) implies #[trigger] c[i] == old(chunks)@[i] by {
        assert(c[i] == c.skip(r as int)[i - r]);
        assert(old(chunks)@[i] == old(chunks)@.skip(r as int)[i - r]);
    }
}

/// Making an alias carries the name, both directories and the new name.
pub proof fn file_alias<'a>(
    name: &'a [u8],
    dir: &'a [u8],
    dir_rename: &'a [u8],
    rename: &'a [u8],
    chunks: &mut [HxChunk<'a>],
    r: i32,
)
    requires
        call_ensures(gtkhx_proto_build_file_symlink_chunks, (name, dir, dir_rename, rename, chunks), r),
    ensures
        ({
            let c = final(chunks)@;
            let s = Seq::<u8>::empty();
            let room = old(chunks)@.len() >= 4
                && name@.len() <= 0xffff
                && dir@.len() <= 0xffff
                && dir_rename@.len() <= 0xffff
                && rename@.len() <= 0xffff;
            &&& c.len() == old(chunks)@.len()
            &&& !room ==> r == 0 && c == old(chunks)@
            &&& room ==> r == 4
            &&& room ==> c[0].valid(s) && c[0].sent(s).tag == 0xc9 && c[0].sent(
                s,
            ).data == name@
            &&& room ==> c[1].valid(s) && c[1].sent(s).tag == 0xca && c[1].sent(
                s,
            ).data == dir@
            &&& room ==> c[2].valid(s) && c[2].sent(s).tag == 0xd4 && c[2].sent(
                s,
            ).data == dir_rename@
            &&& room ==> c[3].valid(s) && c[3].sent(s).tag == 0xd3 && c[3].sent(
                s,
            ).data == rename@
            &&& room ==> forall|i: int| r <= i < c.len() ==> #[trigger] c[i] == old(chunks)@[i]
        }),
{
    let c = final(chunks)@;
    assert forall|i: int| r <= i < c.len() && c.skip(r as int) == old(chunks)@.skip(
        r as int,
    ) implies #[trigger] c[i] == old(chunks)@[i] by {
        assert(c[i] == c.skip(r as int)[i - r]);
        assert(old(chunks)@[i] == old(chunks)@.skip(r as int)[i - r]);
    }
}

/// Putting a folder carries the name, the directory if there is one, the size and the number of files.
pub proof fn folder_is_put<'a>(
    name: &'a [u8],
    dir: Option<&'a [u8]>,
    size: u32,
    nfiles: u32,
    chunks: &mut [HxChunk<'a>],
    scratch: &mut [u8],
    r: i32,
)
    requires
        call_ensures(gtkhx_proto_build_file_putfolder_chunks, (name, dir, size, nfiles, chunks, scratch), r),
    ensures
        ({
            let c = final(chunks)@;
            let s = final(scratch)@;
            let room = old(chunks)@.len() >= 4
                && old(scratch)@.len() >= 8
                && name@.len() <= 0xffff
                && (dir matches Some(d) ==> d@.len() <= 0xffff);
            let n1 = if dir is Some {
                1 + 1int
            } else {
                1 + 0int
            };
            &&& c.len() == old(chunks)@.len()
            &&& !room ==> r == 0 && c == old(chunks)@ && s == old(scratch)@
            &&& room ==> r == n1 + 2
            &&& room ==> c[0].valid(s) && c[0].sent(s).tag == 0xc9 && c[0].sent(
                s,
            ).data == name@
            &&& room && dir is Some ==> c[1].valid(s) && c[1].sent(s).tag == 0xca && c[1].sent(
                s,
            ).data == dir->0@
            &&& room ==> c[n1].valid(s) && c[n1].sent(s).tag == 0x6c && c[n1].sent(
                s,
            ).data == bytes::be32_bytes(size)
            &&& room ==> c[n1 + 1].valid(s) && c[n1 + 1].sent(s).tag == 0xdc && c[n1 + 1].sent(
                s,
            ).data == bytes::be32_bytes(nfiles)
            &&& room ==> forall|i: int| r <= i < c.len() ==> #[trigger] c[i] == old(chunks)@[i]
        }),
{
    let c = final(chunks)@;
    assert forall|i: int| r <= i < c.len() && c.skip(r as int) == old(chunks)@.skip(
        r as int,
    ) implies #[trigger] c[i] == old(chunks)@[i] by {
        assert(c[i] == c.skip(r as int)[i - r]);
        assert(old(chunks)@[i] == old(chunks)@.skip(r as int)[i - r]);
    }
}

/// Getting a file carries the name, the directory if there is one, and where to go on if that is said,
/// in 74 bytes.
pub proof fn file_is_got<'a>(
    name: &'a [u8],
    dir: Option<&'a [u8]>,
    rflt: Option<&'a [u8]>,
    chunks: &mut [HxChunk<'a>],
    r: i32,
)
    requires
        call_ensures(gtkhx_proto_build_file_get_chunks, (name, dir, rflt, chunks), r),
    ensures
        ({
            let c = final(chunks)@;
            let s = Seq::<u8>::empty();
            let room = old(chunks)@.len() >= 3
                && name@.len() <= 0xffff
                && (dir matches Some(d) ==> d@.len() <= 0xffff)
                && (rflt matches Some(d) ==> d@.len() == 74);
            let n1 = if dir is Some {
                1 + 1int
            } else {
                1 + 0int
            };
            let n2 = if rflt is Some {
                n1 + 1int
            } else {
                n1 + 0int
            };
            &&& c.len() == old(chunks)@.len()
            &&& !room ==> r == 0 && c == old(chunks)@
            &&& room ==> r == n2
            &&& room ==> c[0].valid(s) && c[0].sent(s).tag == 0xc9 && c[0].sent(
                s,
            ).data == name@
            &&& room && dir is Some ==> c[1].valid(s) && c[1].sent(s).tag == 0xca && c[1].sent(
                s,
            ).data == dir->0@
            &&& room && rflt is Some ==> c[n1].valid(s) && c[n1].sent(s).tag == 0xcb && c[n1].sent(
                s,
            ).data == rflt->0@
            &&& room ==> forall|i: int| r <= i < c.len() ==> #[trigger] c[i] == old(chunks)@[i]
        }),
{
    let c = final(chunks)@;
    assert forall|i: int| r <= i < c.len() && c.skip(r as int) == old(chunks)@.skip(
        r as int,
    ) implies #[trigger] c[i] == old(chunks)@[i] by {
        assert(c[i] == c.skip(r as int)[i - r]);
        assert(old(chunks)@[i] == old(chunks)@.skip(r as int)[i - r]);
    }
}

/// Putting a file carries the name, the directory if there is one, a mark for a preview, the size, and
/// the size in 64 bits if that is known.
pub proof fn file_is_put<'a>(
    name: &'a [u8],
    dir: Option<&'a [u8]>,
    has_preview: bool,
    size: u32,
    has_size64: bool,
    size64: u64,
    chunks: &mut [HxChunk<'a>],
    scratch: &mut [u8],
    r: i32,
)
    requires
        call_ensures(gtkhx_proto_build_file_put_chunks, (name, dir, has_preview, size, has_size64, size64, chunks, scratch), r),
    ensures
        ({
            let c = final(chunks)@;
            let s = final(scratch)@;
            let room = old(chunks)@.len() >= 5
                && old(scratch)@.len() >= 12
                && name@.len() <= 0xffff
                && (dir matches Some(d) ==> d@.len() <= 0xffff);
            let n1 = if dir is Some {
                1 + 1int
            } else {
                1 + 0int
            };
            let n2 = if has_preview {
                n1 + 1int
            } else {
                n1 + 0int
            };
            let n3 = if has_size64 {
                n2 + 1 + 1int
            } else {
                n2 + 1 + 0int
            };
            &&& c.len() == old(chunks)@.len()
            &&& !room ==> r == 0 && c == old(chunks)@ && s == old(scratch)@
            &&& room ==> r == n3
            &&& room ==> c[0].valid(s) && c[0].sent(s).tag == 0xc9 && c[0].sent(
                s,
            ).data == name@
            &&& room && dir is Some ==> c[1].valid(s) && c[1].sent(s).tag == 0xca && c[1].sent(
                s,
            ).data == dir->0@
            &&& room && has_preview ==> c[n1].valid(s) && c[n1].sent(s).tag == 0xcc && c[n1].sent(
                s,
            ).data == seq![0u8, 1]
            &&& room ==> c[n2].valid(s) && c[n2].sent(s).tag == 0x6c && c[n2].sent(
                s,
            ).data == bytes::be32_bytes(size)
            &&& room && has_size64 ==> c[n2 + 1].valid(s) && c[n2 + 1].sent(s).tag == 0x01f3 && c[n2 + 1].sent(
                s,
            ).data == bytes::be64_bytes(size64)
            &&& room ==> forall|i: int| r <= i < c.len() ==> #[trigger] c[i] == old(chunks)@[i]
        }),
{
    let c = final(chunks)@;
    assert forall|i: int| r <= i < c.len() && c.skip(r as int) == old(chunks)@.skip(
        r as int,
    ) implies #[trigger] c[i] == old(chunks)@[i] by {
        assert(c[i] == c.skip(r as int)[i - r]);
        assert(old(chunks)@[i] == old(chunks)@.skip(r as int)[i - r]);
    }
}

} // verus!
