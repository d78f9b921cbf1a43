//! Voice chat: the outgoing requests, and the payloads that come in.
//!
//! | Opcode | Direction | Fields |
//! |---|---|---|
//! | 600 `VOICE_JOIN` | to the server | `CHAT_ID` |
//! | 601 `VOICE_LEAVE` | to the server | `CHAT_ID` |
//! | 602 `VOICE_SDP_OFFER` | to the client | `CHAT_ID`, `VOICE_SDP` |
//! | 603 `VOICE_SDP_ANSWER` | to the server | `CHAT_ID`, `VOICE_SDP` |
//! | 604 `VOICE_ICE` | both | `CHAT_ID`, `VOICE_ICE` |
//! | 605 `VOICE_ROOM_STATUS` | to the client | `CHAT_ID`, `VOICE_PARTICIPANTS` |
//! | 606 `VOICE_MUTE` | to the server | `CHAT_ID`, `VOICE_MUTED` |
//!
//! The reply to a join also carries `VOICE_SDP`, `VOICE_CODEC` and `VOICE_PARTICIPANTS`.
pub mod ice;
pub mod sdp;

use crate::bytes;
use crate::bytes::get16;
use crate::messages::tag;
use crate::outgoing;
use crate::outgoing::{scratch16, scratch32, HxChunk};
use crate::text;
use crate::text::{same_bytes, strip_prefix};
use crate::wire;
use crate::wire::ChunkIter;
use vstd::prelude::*;

verus! {

// ---------------------------------------------------------------------------------------------
// Outgoing requests.
// ---------------------------------------------------------------------------------------------
/// Builds the single chunk that names a chat room.
fn build_chat_id_only<'a>(cid: u32, chunks: &mut [HxChunk<'a>], scratch: &mut [u8]) -> (r: usize)
    ensures
        outgoing::built(
            old(chunks)@.len() >= 1 && old(scratch)@.len() >= 4,
            old(chunks)@,
            final(chunks)@,
            old(scratch)@,
            final(scratch)@,
            r as int,
            bytes::be32_bytes(cid),
            seq![outgoing::field(tag::CHAT_ID, bytes::be32_bytes(cid))],
        ),
{
    if chunks.len() < 1 || scratch.len() < 4 {
        return 0;
    }
    let ghost fixed = bytes::be32_bytes(cid);
    proof {
        bytes::be32_round_trip(cid, Seq::empty());
        assert(fixed.subrange(0, 4) =~= fixed);
    }
    scratch32(scratch, 0, cid);
    chunks[0] = HxChunk::in_scratch(tag::CHAT_ID, 0, 4);
    proof {
        outgoing::lemma_scratch_chunk(chunks@[0], old(scratch)@, fixed, 0, fixed);
    }
    assert(chunks@.skip(1) =~= old(chunks)@.skip(1));
    1
}

/// Builds the chunks that ask to join voice in a chat room. The public chat (room zero) is named
/// like any other.
pub fn build_voice_join_chunks<'a>(
    cid: u32,
    chunks: &mut [HxChunk<'a>],
    scratch: &mut [u8],
) -> (r: usize)
    ensures
        outgoing::built(
            old(chunks)@.len() >= 1 && old(scratch)@.len() >= 4,
            old(chunks)@,
            final(chunks)@,
            old(scratch)@,
            final(scratch)@,
            r as int,
            bytes::be32_bytes(cid),
            seq![outgoing::field(tag::CHAT_ID, bytes::be32_bytes(cid))],
        ),
{
    build_chat_id_only(cid, chunks, scratch)
}

/// Builds the chunks that leave voice in a chat room.
pub fn build_voice_leave_chunks<'a>(
    cid: u32,
    chunks: &mut [HxChunk<'a>],
    scratch: &mut [u8],
) -> (r: usize)
    ensures
        outgoing::built(
            old(chunks)@.len() >= 1 && old(scratch)@.len() >= 4,
            old(chunks)@,
            final(chunks)@,
            old(scratch)@,
            final(scratch)@,
            r as int,
            bytes::be32_bytes(cid),
            seq![outgoing::field(tag::CHAT_ID, bytes::be32_bytes(cid))],
        ),
{
    build_chat_id_only(cid, chunks, scratch)
}

/// Builds the chunks of an SDP answer. An empty answer is refused, and so is one whose length does
/// not fit sixteen bits.
pub fn build_voice_answer_chunks<'a>(
    cid: u32,
    sdp: &'a [u8],
    chunks: &mut [HxChunk<'a>],
    scratch: &mut [u8],
) -> (r: usize)
    ensures
        outgoing::built(
            old(chunks)@.len() >= 2 && old(scratch)@.len() >= 4 && 0 < sdp@.len() <= u16::MAX,
            old(chunks)@,
            final(chunks)@,
            old(scratch)@,
            final(scratch)@,
            r as int,
            bytes::be32_bytes(cid),
            seq![
                outgoing::field(tag::CHAT_ID, bytes::be32_bytes(cid)),
                outgoing::field(tag::VOICE_SDP, sdp@),
            ],
        ),
{
    if chunks.len() < 2 || scratch.len() < 4 || sdp.is_empty() || sdp.len() > u16::MAX as usize {
        return 0;
    }
    let ghost fixed = bytes::be32_bytes(cid);
    proof {
        bytes::be32_round_trip(cid, Seq::empty());
        assert(fixed.subrange(0, 4) =~= fixed);
    }
    scratch32(scratch, 0, cid);
    chunks[0] = HxChunk::in_scratch(tag::CHAT_ID, 0, 4);
    chunks[1] = HxChunk::of_bytes(tag::VOICE_SDP, sdp);
    proof {
        outgoing::lemma_scratch_chunk(chunks@[0], old(scratch)@, fixed, 0, fixed);
    }
    assert(chunks@.skip(2) =~= old(chunks)@.skip(2));
    2
}

/// Builds the chunks that trickle an ICE candidate. An empty payload is the end-of-candidates
/// marker.
pub fn build_voice_ice_chunks<'a>(
    cid: u32,
    ice: &'a [u8],
    chunks: &mut [HxChunk<'a>],
    scratch: &mut [u8],
) -> (r: usize)
    ensures
        outgoing::built(
            old(chunks)@.len() >= 2 && old(scratch)@.len() >= 4 && ice@.len() <= u16::MAX,
            old(chunks)@,
            final(chunks)@,
            old(scratch)@,
            final(scratch)@,
            r as int,
            bytes::be32_bytes(cid),
            seq![
                outgoing::field(tag::CHAT_ID, bytes::be32_bytes(cid)),
                outgoing::field(tag::VOICE_ICE, ice@),
            ],
        ),
{
    if chunks.len() < 2 || scratch.len() < 4 || ice.len() > u16::MAX as usize {
        return 0;
    }
    let ghost fixed = bytes::be32_bytes(cid);
    proof {
        bytes::be32_round_trip(cid, Seq::empty());
        assert(fixed.subrange(0, 4) =~= fixed);
    }
    scratch32(scratch, 0, cid);
    chunks[0] = HxChunk::in_scratch(tag::CHAT_ID, 0, 4);
    chunks[1] = HxChunk::of_bytes(tag::VOICE_ICE, ice);
    proof {
        outgoing::lemma_scratch_chunk(chunks@[0], old(scratch)@, fixed, 0, fixed);
    }
    assert(chunks@.skip(2) =~= old(chunks)@.skip(2));
    2
}

/// Builds the chunks that mute or unmute this client in a room. Values other than zero and one are
/// reserved; they are sent as they are.
pub fn build_voice_mute_chunks<'a>(
    cid: u32,
    muted: u16,
    chunks: &mut [HxChunk<'a>],
    scratch: &mut [u8],
) -> (r: usize)
    ensures
        outgoing::built(
            old(chunks)@.len() >= 2 && old(scratch)@.len() >= 6,
            old(chunks)@,
            final(chunks)@,
            old(scratch)@,
            final(scratch)@,
            r as int,
            bytes::be32_bytes(cid) + bytes::be16_bytes(muted),
            seq![
                outgoing::field(tag::CHAT_ID, bytes::be32_bytes(cid)),
                outgoing::field(tag::VOICE_MUTED, bytes::be16_bytes(muted)),
            ],
        ),
{
    if chunks.len() < 2 || scratch.len() < 6 {
        return 0;
    }
    let ghost room = bytes::be32_bytes(cid);
    let ghost word = bytes::be16_bytes(muted);
    let ghost fixed = room + word;
    proof {
        bytes::be32_round_trip(cid, Seq::empty());
        assert(fixed.subrange(0, 4) =~= room);
        assert(fixed.subrange(4, 6) =~= word);
    }
    scratch32(scratch, 0, cid);
    scratch16(scratch, 4, muted);
    assert(scratch@ =~= bytes::overwrite(old(scratch)@, 0, fixed));
    chunks[0] = HxChunk::in_scratch(tag::CHAT_ID, 0, 4);
    chunks[1] = HxChunk::in_scratch(tag::VOICE_MUTED, 4, 2);
    proof {
        outgoing::lemma_scratch_chunk(chunks@[0], old(scratch)@, fixed, 0, room);
        outgoing::lemma_scratch_chunk(chunks@[1], old(scratch)@, fixed, 4, word);
    }
    assert(chunks@.skip(2) =~= old(chunks)@.skip(2));
    2
}

// ---------------------------------------------------------------------------------------------
// Payloads that come in.
// ---------------------------------------------------------------------------------------------
/// One voice participant: an entry of six bytes in the packed participant list.
#[derive(Debug, Clone, Copy, PartialEq, Eq, Structural)]
pub struct Participant {
    pub user_id: u16,
    pub flags: u16,
    pub codec_id: u16,
}

impl Participant {
    /// Bit 0 of the flags.
    pub fn is_muted(&self) -> (r: bool)
        ensures
            r == (self.flags & 0x0001 != 0),
    {
        self.flags & 0x0001 != 0
    }
}

/// The participant whose entry starts at `at`.
pub open spec fn participant_at(b: Seq<u8>, at: int) -> Participant {
    Participant {
        user_id: bytes::be16_at(b, at),
        flags: bytes::be16_at(b, at + 2),
        codec_id: bytes::be16_at(b, at + 4),
    }
}

/// The participants of a packed list. A trailing partial entry is ignored.
pub fn parse_voice_participants(blob: &[u8]) -> (r: Vec<Participant>)
    ensures
        r@ == Seq::new((blob@.len() / 6) as nat, |i: int| participant_at(blob@, 6 * i)),
{
    let mut out: Vec<Participant> = Vec::new();
    let mut at: usize = 0;
    while blob.len() - at >= 6
        invariant
            at <= blob@.len(),
            at == 6 * out@.len(),
            forall|i: int| 0 <= i < out@.len() ==> out@[i] == participant_at(blob@, 6 * i),
        decreases blob@.len() - at,
    {
        out.push(
            Participant {
                user_id: get16(blob, at),
                flags: get16(blob, at + 2),
                codec_id: get16(blob, at + 4),
            },
        );
        at = at + 6;
    }
    assert(out@ =~= Seq::new((blob@.len() / 6) as nat, |i: int| participant_at(blob@, 6 * i)));
    out
}

/// What an SDP `a=mid:` label names.
#[derive(Debug, Clone, Copy, PartialEq, Eq, Structural)]
pub enum MidLabel {
    /// The local client's send track.
    Send,
    /// The receive track for the user with this id, which is not zero.
    User(u16),
}

/// `send`.
pub open spec fn label_send() -> Seq<u8> {
    seq![0x73u8, 0x65, 0x6e, 0x64]
}

/// `user-`.
pub open spec fn label_user() -> Seq<u8> {
    seq![0x75u8, 0x73, 0x65, 0x72, 0x2d]
}

/// The label of a user: the id in decimal, without leading zeros.
pub open spec fn user_label(uid: u16) -> Seq<u8> {
    label_user() + text::decimal_bytes(uid as nat)
}

/// The user with id `uid` is the one that the label names.
pub open spec fn names_user(s: Seq<u8>, uid: u16) -> bool {
    uid != 0 && s == user_label(uid)
}

/// What a label names, if it is well formed.
pub open spec fn mid_label(s: Seq<u8>) -> Option<MidLabel> {
    if s == label_send() {
        Some(MidLabel::Send)
    } else if exists|uid: u16| names_user(s, uid) {
        Some(MidLabel::User(choose|uid: u16| names_user(s, uid)))
    } else {
        None
    }
}

/// A label names at most one user.
pub proof fn user_labels_are_distinct(a: u16, b: u16)
    ensures
        user_label(a) == user_label(b) ==> a == b,
        user_label(a) != label_send(),
{
    text::lemma_decimal_bytes(a as nat);
    text::lemma_decimal_bytes(b as nat);
    let x = user_label(a);
    let y = user_label(b);
    assert(x.subrange(5, x.len() as int) =~= text::decimal_bytes(a as nat));
    assert(y.subrange(5, y.len() as int) =~= text::decimal_bytes(b as nat));
    assert(x[0] == 0x75 && label_send()[0] == 0x73);
}

/// Parses an SDP `a=mid:` label.
pub fn parse_voice_mid_label(s: &[u8]) -> (r: Option<MidLabel>)
    ensures
        r == mid_label(s@),
{
    let send: [u8; 4] = [0x73, 0x65, 0x6e, 0x64];
    let user: [u8; 5] = [0x75, 0x73, 0x65, 0x72, 0x2d];
    assert(send@ =~= label_send());
    assert(user@ =~= label_user());
    if same_bytes(s, &send) {
        return Some(MidLabel::Send);
    }
    proof {
        assert forall|uid: u16| names_user(s@, uid) implies text::starts_with(s@, label_user())
            && text::behind(s@, 5) == text::decimal_bytes(uid as nat) && text::is_canonical(
            text::behind(s@, 5),
        ) && text::decimal(text::behind(s@, 5)) == uid && text::behind(s@, 5)[0] != 0x30 by {
            text::lemma_decimal_bytes(uid as nat);
            assert(s@.take(5) =~= label_user());
            assert(text::behind(s@, 5) =~= text::decimal_bytes(uid as nat));
        }
    }
    let rest = match strip_prefix(s, &user) {
        Some(rest) => rest,
        None => return None,
    };
    if rest.len() == 0 {
        return None;
    }
    // Neither a leading zero nor the reserved id zero.
    if rest[0] == 0x30 {
        return None;
    }
    let mut acc: u32 = 0;
    let mut i: usize = 0;
    assert(rest@.subrange(0, 0) =~= Seq::<u8>::empty());
    while i < rest.len()
        invariant
            i <= rest@.len(),
            rest@ == text::behind(s@, 5),
            rest@.len() > 0,
            rest@[0] != 0x30,
            forall|k: int| 0 <= k < i ==> text::is_digit(#[trigger] rest@[k]),
            acc == text::decimal(rest@.subrange(0, i as int)),
            acc <= u16::MAX,
            forall|uid: u16|
                #[trigger] names_user(s@, uid) ==> text::is_canonical(rest@) && text::decimal(
                    rest@,
                ) == uid,
            s@ != label_send(),
        decreases rest@.len() - i,
    {
        let d: u8 = rest[i];
        if !(0x30 <= d && d <= 0x39) {
            assert(!text::is_digit(rest@[i as int]));
            return None;
        }
        assert(text::is_digit(rest@[i as int]));
        proof {
            let next = rest@.subrange(0, i + 1);
            assert(next.drop_last() =~= rest@.subrange(0, i as int));
        }
        acc = acc * 10 + (d - 0x30) as u32;
        i = i + 1;
        if acc > u16::MAX as u32 {
            proof {
                assert forall|uid: u16| !names_user(s@, uid) by {
                    if names_user(s@, uid) {
                        text::lemma_decimal_grows(rest@, 0, i as int, rest@.len() as int);
                        assert(rest@.subrange(0, rest@.len() as int) =~= rest@);
                    }
                }
            }
            return None;
        }
    }
    proof {
        assert(rest@.subrange(0, rest@.len() as int) =~= rest@);
        text::lemma_canonical(rest@);
        let uid = acc as u16;
        assert(s@ =~= label_user() + rest@) by {
            assert(s@.take(5) == label_user());
            assert(s@ =~= s@.take(5) + text::behind(s@, 5));
        }
        assert(names_user(s@, uid));
        let other = choose|u: u16| names_user(s@, u);
        user_labels_are_distinct(uid, other);
    }
    Some(MidLabel::User(acc as u16))
}

/// The fields of a reply or notification on voice. What was not on the wire is absent.
#[derive(Debug, Clone, Copy, PartialEq, Eq)]
pub struct VoiceReply<'a> {
    pub cid: u32,
    pub sdp: Option<&'a [u8]>,
    pub ice: Option<&'a [u8]>,
    pub codec: Option<&'a [u8]>,
    pub muted: Option<u16>,
    pub participants: Option<&'a [u8]>,
}

impl<'a> Default for VoiceReply<'a> {
    fn default() -> (r: Self)
        ensures
            r.is_reply(Seq::empty()),
    {
        VoiceReply { cid: 0, sdp: None, ice: None, codec: None, muted: None, participants: None }
    }
}

/// The mute state that the chunks carry.
pub open spec fn muted_of(chunks: Seq<wire::ChunkView>) -> Option<u16> {
    match wire::last_with(chunks, tag::VOICE_MUTED) {
        Some(data) => Some((wire::uint_of(data) % 0x1_0000) as u16),
        None => None,
    }
}

impl<'a> VoiceReply<'a> {
    /// Each field comes from the last chunk that carries it.
    pub open spec fn is_reply(&self, chunks: Seq<wire::ChunkView>) -> bool {
        &&& self.cid == wire::last_uint(chunks, tag::CHAT_ID)
        &&& wire::opt_view(self.sdp) == wire::last_with(chunks, tag::VOICE_SDP)
        &&& wire::opt_view(self.ice) == wire::last_with(chunks, tag::VOICE_ICE)
        &&& wire::opt_view(self.codec) == wire::last_with(chunks, tag::VOICE_CODEC)
        &&& self.muted == muted_of(chunks)
        &&& wire::opt_view(self.participants) == wire::last_with(chunks, tag::VOICE_PARTICIPANTS)
    }
}

/// Parses the body of a reply or notification on voice. Unknown fields are ignored.
pub fn parse_voice_reply(buf: &[u8], len: usize) -> (r: VoiceReply<'_>)
    ensures
        r.is_reply(wire::message_chunks(buf@, len as int)),
{
    let mut out = VoiceReply::default();
    let mut it = ChunkIter::over_message(buf, len);
    let ghost all = it.rest();
    let ghost mut n: int = 0;
    proof {
        assert(all.take(0) =~= Seq::<wire::ChunkView>::empty());
        assert(all.skip(0) =~= all);
    }
    loop
        invariant
            0 <= n <= all.len(),
            it.rest() == all.skip(n),
            out.is_reply(all.take(n)),
        ensures
            n == all.len(),
        decreases all.len() - n,
    {
        let chunk = match it.next() {
            Some(c) => c,
            None => {
                break ;
            },
        };
        proof {
            wire::lemma_walk_step(all, n, chunk@);
            n = n + 1;
        }
        if chunk.tag == tag::CHAT_ID {
            out.cid = chunk.as_uint();
        } else if chunk.tag == tag::VOICE_SDP {
            out.sdp = Some(chunk.data);
        } else if chunk.tag == tag::VOICE_ICE {
            out.ice = Some(chunk.data);
        } else if chunk.tag == tag::VOICE_CODEC {
            out.codec = Some(chunk.data);
        } else if chunk.tag == tag::VOICE_MUTED {
            out.muted = Some((chunk.as_uint() % 0x1_0000) as u16);
        } else if chunk.tag == tag::VOICE_PARTICIPANTS {
            out.participants = Some(chunk.data);
        }
    }
    assert(all.take(n) =~= all);
    out
}

/// Parses the reply to a join, in which `sdp`, `codec` and `participants` are to be expected.
pub fn parse_voice_join_reply(buf: &[u8], len: usize) -> (r: VoiceReply<'_>)
    ensures
        r.is_reply(wire::message_chunks(buf@, len as int)),
{
    parse_voice_reply(buf, len)
}

// ---------------------------------------------------------------------------------------------
// What every call does, in numbers.
// ---------------------------------------------------------------------------------------------
/// Joining names the room, in field 0x72.
pub proof fn join_names_the_room<'a>(
    cid: u32,
    chunks: &mut [HxChunk<'a>],
    scratch: &mut [u8],
    r: usize,
)
    requires
        call_ensures(build_voice_join_chunks, (cid, chunks, scratch), r),
    ensures
        ({
            let c = final(chunks)@;
            let s = final(scratch)@;
            let room = old(chunks)@.len() >= 1
                && old(scratch)@.len() >= 4;
            &&& c.len() == old(chunks)@.len()
            &&& !room ==> r == 0 && c == old(chunks)@ && s == old(scratch)@
            &&& room ==> r == 1
            &&& room ==> c[0].valid(s) && c[0].sent(s).tag == 0x72 && c[0].sent(
                s,
            ).data == bytes::be32_bytes(cid)
            &&& room ==> forall|i: int| r <= i < c.len() ==> #[trigger] c[i] == old(chunks)@[i]
        }),
{
    let c = final(chunks)@;
    assert forall|i: int| r <= i < c.len() && c.skip(r as int) == old(chunks)@.skip(
        r as int,
    ) implies #[trigger] c[i] == old(chunks)@[i] by {
        assert(c[i] == c.skip(r as int)[i - r]);
        assert(old(chunks)@[i] == old(chunks)@.skip(r as int)[i - r]);
    }
}

/// Leaving names the room, in field 0x72.
pub proof fn leave_names_the_room<'a>(
    cid: u32,
    chunks: &mut [HxChunk<'a>],
    scratch: &mut [u8],
    r: usize,
)
    requires
        call_ensures(build_voice_leave_chunks, (cid, chunks, scratch), r),
    ensures
        ({
            let c = final(chunks)@;
            let s = final(scratch)@;
            let room = old(chunks)@.len() >= 1
                && old(scratch)@.len() >= 4;
            &&& c.len() == old(chunks)@.len()
            &&& !room ==> r == 0 && c == old(chunks)@ && s == old(scratch)@
            &&& room ==> r == 1
            &&& room ==> c[0].valid(s) && c[0].sent(s).tag == 0x72 && c[0].sent(
                s,
            ).data == bytes::be32_bytes(cid)
            &&& room ==> forall|i: int| r <= i < c.len() ==> #[trigger] c[i] == old(chunks)@[i]
        }),
{
    let c = final(chunks)@;
    assert forall|i: int| r <= i < c.len() && c.skip(r as int) == old(chunks)@.skip(
        r as int,
    ) implies #[trigger] c[i] == old(chunks)@[i] by {
        assert(c[i] == c.skip(r as int)[i - r]);
        assert(old(chunks)@[i] == old(chunks)@.skip(r as int)[i - r]);
    }
}

/// An answer names the room and carries the description, which is neither empty nor longer than
/// a field can be.
pub proof fn answer_carries_the_description<'a>(
    cid: u32,
    sdp: &'a [u8],
    chunks: &mut [HxChunk<'a>],
    scratch: &mut [u8],
    r: usize,
)
    requires
        call_ensures(build_voice_answer_chunks, (cid, sdp, chunks, scratch), r),
    ensures
        ({
            let c = final(chunks)@;
            let s = final(scratch)@;
            let room = old(chunks)@.len() >= 2
                && old(scratch)@.len() >= 4
                && 0 < sdp@.len() <= 0xffff;
            &&& c.len() == old(chunks)@.len()
            &&& !room ==> r == 0 && c == old(chunks)@ && s == old(scratch)@
            &&& room ==> r == 2
            &&& room ==> c[0].valid(s) && c[0].sent(s).tag == 0x72 && c[0].sent(
                s,
            ).data == bytes::be32_bytes(cid)
            &&& room ==> c[1].valid(s) && c[1].sent(s).tag == 0x01f5 && c[1].sent(
                s,
            ).data == sdp@
            &&& room ==> forall|i: int| r <= i < c.len() ==> #[trigger] c[i] == old(chunks)@[i]
        }),
{
    let c = final(chunks)@;
    assert forall|i: int| r <= i < c.len() && c.skip(r as int) == old(chunks)@.skip(
        r as int,
    ) implies #[trigger] c[i] == old(chunks)@[i] by {
        assert(c[i] == c.skip(r as int)[i - r]);
        assert(old(chunks)@[i] == old(chunks)@.skip(r as int)[i - r]);
    }
}

/// A candidate goes out with its room, and may be empty.
pub proof fn candidate_is_trickled<'a>(
    cid: u32,
    ice: &'a [u8],
    chunks: &mut [HxChunk<'a>],
    scratch: &mut [u8],
    r: usize,
)
    requires
        call_ensures(build_voice_ice_chunks, (cid, ice, chunks, scratch), r),
    ensures
        ({
            let c = final(chunks)@;
            let s = final(scratch)@;
            let room = old(chunks)@.len() >= 2
                && old(scratch)@.len() >= 4
                && ice@.len() <= 0xffff;
            &&& c.len() == old(chunks)@.len()
            &&& !room ==> r == 0 && c == old(chunks)@ && s == old(scratch)@
            &&& room ==> r == 2
            &&& room ==> c[0].valid(s) && c[0].sent(s).tag == 0x72 && c[0].sent(
                s,
            ).data == bytes::be32_bytes(cid)
            &&& room ==> c[1].valid(s) && c[1].sent(s).tag == 0x01f6 && c[1].sent(
                s,
            ).data == ice@
            &&& room ==> forall|i: int| r <= i < c.len() ==> #[trigger] c[i] == old(chunks)@[i]
        }),
{
    let c = final(chunks)@;
    assert forall|i: int| r <= i < c.len() && c.skip(r as int) == old(chunks)@.skip(
        r as int,
    ) implies #[trigger] c[i] == old(chunks)@[i] by {
        assert(c[i] == c.skip(r as int)[i - r]);
        assert(old(chunks)@[i] == old(chunks)@.skip(r as int)[i - r]);
    }
}

/// Muting names the room and says how.
pub proof fn mute_says_how<'a>(
    cid: u32,
    muted: u16,
    chunks: &mut [HxChunk<'a>],
    scratch: &mut [u8],
    r: usize,
)
    requires
        call_ensures(build_voice_mute_chunks, (cid, muted, chunks, scratch), r),
    ensures
        ({
            let c = final(chunks)@;
            let s = final(scratch)@;
            let room = old(chunks)@.len() >= 2
                && old(scratch)@.len() >= 6;
            &&& c.len() == old(chunks)@.len()
            &&& !room ==> r == 0 && c == old(chunks)@ && s == old(scratch)@
            &&& room ==> r == 2
            &&& room ==> c[0].valid(s) && c[0].sent(s).tag == 0x72 && c[0].sent(
                s,
            ).data == bytes::be32_bytes(cid)
            &&& room ==> c[1].valid(s) && c[1].sent(s).tag == 0x01f8 && c[1].sent(
                s,
            ).data == bytes::be16_bytes(muted)
            &&& room ==> forall|i: int| r <= i < c.len() ==> #[trigger] c[i] == old(chunks)@[i]
        }),
{
    let c = final(chunks)@;
    assert forall|i: int| r <= i < c.len() && c.skip(r as int) == old(chunks)@.skip(
        r as int,
    ) implies #[trigger] c[i] == old(chunks)@[i] by {
        assert(c[i] == c.skip(r as int)[i - r]);
        assert(old(chunks)@[i] == old(chunks)@.skip(r as int)[i - r]);
    }
}

/// A list holds one participant for each six whole bytes: id, flags and codec, two bytes each. The
/// lowest flag says that the participant is muted.
pub proof fn participants_take_six_bytes(
    b: &[u8],
    r: Vec<Participant>,
    i: int,
    p: Participant,
    muted: bool,
)
    requires
        call_ensures(parse_voice_participants, (b,), r),
        call_ensures(Participant::is_muted, (&p,), muted),
    ensures
        6 * r@.len() <= b@.len() < 6 * r@.len() + 6,
        0 <= i < r@.len() ==> r@[i].user_id == bytes::be16_at(b@, 6 * i) && r@[i].flags
            == bytes::be16_at(b@, 6 * i + 2) && r@[i].codec_id == bytes::be16_at(b@, 6 * i + 4),
        muted == (p.flags % 2 == 1),
{
    let f = p.flags;
    assert(f & 1u16 != 0 <==> f % 2 == 1) by (bit_vector);
}

/// The label `send` is that of the own track. Any other that means something is `user-` and the
/// number of a user, from 1 to 65535, in decimal digits of which the first is not zero.
pub proof fn labels_name_tracks(s: &[u8], r: Option<MidLabel>)
    requires
        call_ensures(parse_voice_mid_label, (s,), r),
    ensures
        r == Some(MidLabel::Send) <==> s@ == seq![0x73u8, 0x65, 0x6e, 0x64],
        r matches Some(MidLabel::User(uid)) ==> {
            &&& uid != 0
            &&& s@.len() > 5
            &&& s@.take(5) == seq![0x75u8, 0x73, 0x65, 0x72, 0x2d]
            &&& s@[5] != 0x30
            &&& forall|i: int| 5 <= i < s@.len() ==> 0x30 <= #[trigger] s@[i] <= 0x39
            &&& text::decimal(s@.skip(5)) == uid
        },
{
    if let Some(MidLabel::User(uid)) = r {
        assert(names_user(s@, uid));
        text::lemma_decimal_bytes(uid as nat);
        let d = text::decimal_bytes(uid as nat);
        assert(s@.take(5) =~= label_user());
        assert(s@.skip(5) =~= d);
        assert(s@[5] == d[0]);
        assert forall|i: int| 5 <= i < s@.len() implies 0x30 <= #[trigger] s@[i] <= 0x39 by {
            assert(text::is_digit(d[i - 5]));
        }
    }
}

/// Every such label names its user.
pub proof fn users_have_labels(s: &[u8], r: Option<MidLabel>)
    requires
        call_ensures(parse_voice_mid_label, (s,), r),
        s@.len() > 5,
        s@.take(5) == seq![0x75u8, 0x73, 0x65, 0x72, 0x2d],
        s@[5] != 0x30,
        forall|i: int| 5 <= i < s@.len() ==> 0x30 <= #[trigger] s@[i] <= 0x39,
        text::decimal(s@.skip(5)) <= 0xffff,
    ensures
        r == Some(MidLabel::User(text::decimal(s@.skip(5)) as u16)),
{
    let d = s@.skip(5);
    assert forall|k: int| 0 <= k < d.len() implies text::is_digit(#[trigger] d[k]) by {
        assert(d[k] == s@[k + 5]);
    }
    text::lemma_canonical(d);
    let uid = text::decimal(d) as u16;
    assert(s@ =~= label_user() + d);
    assert(names_user(s@, uid));
    assert(s@[0] == s@.take(5)[0]);
    let other = choose|u: u16| names_user(s@, u);
    user_labels_are_distinct(uid, other);
}

/// Decimal digits weigh ten times as much for each digit behind them.
pub proof fn digits_weigh_by_their_place(d: Seq<u8>, c: u8)
    requires
        0x30 <= c <= 0x39,
    ensures
        text::decimal(Seq::<u8>::empty()) == 0,
        text::decimal(d.push(c)) == 10 * text::decimal(d) + (c - 0x30),
{
    assert(d.push(c).drop_last() =~= d);
}

/// Which field of a reply comes from where: each from the last chunk with its tag.
pub proof fn reply_fields_have_their_tags(
    b: &[u8],
    len: usize,
    it: ChunkIter<'_>,
    r: VoiceReply<'_>,
)
    requires
        call_ensures(ChunkIter::over_message, (b, len), it),
        call_ensures(parse_voice_reply, (b, len), r) || call_ensures(
            parse_voice_join_reply,
            (b, len),
            r,
        ),
    ensures
        r.cid == wire::last_uint(it.rest(), 0x72),
        r.sdp is None <==> wire::last_with(it.rest(), 0x01f5) is None,
        r.sdp matches Some(d) ==> wire::last_with(it.rest(), 0x01f5) == Some(d@),
        r.ice is None <==> wire::last_with(it.rest(), 0x01f6) is None,
        r.ice matches Some(d) ==> wire::last_with(it.rest(), 0x01f6) == Some(d@),
        r.codec is None <==> wire::last_with(it.rest(), 0x01f7) is None,
        r.codec matches Some(d) ==> wire::last_with(it.rest(), 0x01f7) == Some(d@),
        r.participants is None <==> wire::last_with(it.rest(), 0x01f9) is None,
        r.participants matches Some(d) ==> wire::last_with(it.rest(), 0x01f9) == Some(d@),
        r.muted is None <==> wire::last_with(it.rest(), 0x01f8) is None,
        r.muted matches Some(m) ==> m == wire::last_uint(it.rest(), 0x01f8) % 0x1_0000,
{
}

} // verus!
