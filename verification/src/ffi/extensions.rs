//! Voice, media, avatars, dates and emoji, for callers that hold plain buffers.
use crate::bytes;
use crate::bytes::{copy_into, put_bytes};
use crate::emoji;
use crate::emoji::{shortcode_matches, EmojiTable};
use crate::gif_icons;
use crate::gif_icons::{
    parse_icon_change, parse_icon_get_reply, parse_icon_list, IconEntry,
};
use crate::hl_date;
use crate::hl_date::{parse_hl_date, HlDate};
use crate::inline_media;
use crate::inline_media::{
    extract_chat_media_meta, extract_error_code, extract_limits_from_message,
    parse_download_reply, parse_upload_final_reply, parse_upload_token_reply,
};
use crate::messages::tag;
use crate::text;
use crate::text::text_of;
use crate::voice;
use crate::voice::ice;
use crate::voice::ice::IceCandidate;
use crate::voice::sdp;
use crate::voice::{parse_voice_mid_label, parse_voice_participants, parse_voice_reply, MidLabel};
use crate::wire;
use crate::wire::ChunkIter;
use vstd::prelude::*;
use vstd::string::*;
use vstd::utf8::*;

verus! {

/// The low 32 bits of a length.
pub open spec fn low32(n: nat) -> u32 {
    (n % 0x1_0000_0000) as u32
}

fn narrow(n: usize) -> (r: u32)
    ensures
        r == low32(n as nat),
{
    (n as u64 % 0x1_0000_0000) as u32
}

/// A value, or zero.
pub open spec fn or_zero(v: Option<u32>) -> u32 {
    match v {
        Some(n) => n,
        None => 0,
    }
}

fn value_or_zero(v: Option<u32>) -> (r: u32)
    ensures
        r == or_zero(v),
{
    match v {
        Some(n) => n,
        None => 0,
    }
}

// ---------------------------------------------------------------------------------------------
// Voice.
// ---------------------------------------------------------------------------------------------
/// A participant of a voice room.
#[derive(Debug, Clone, Copy, PartialEq, Eq, Structural)]
pub struct VoiceParticipantOut {
    pub user_id: u16,
    pub flags: u16,
    pub codec_id: u16,
}

/// The participant at `at` in a packed list.
pub open spec fn participant_out(blob: Seq<u8>, at: int) -> VoiceParticipantOut {
    VoiceParticipantOut {
        user_id: bytes::be16_at(blob, at),
        flags: bytes::be16_at(blob, at + 2),
        codec_id: bytes::be16_at(blob, at + 4),
    }
}

/// Writes the participants of a packed list into `out`, as many as there is room for, and returns
/// how many.
pub fn gtkhx_proto_parse_voice_participants(blob: &[u8], out: &mut [VoiceParticipantOut]) -> (r:
    usize)
    ensures
        r == (if blob@.len() / 6 < old(out)@.len() {
            blob@.len() / 6
        } else {
            old(out)@.len()
        }),
        final(out)@ == bytes::overwrite(
            old(out)@,
            0,
            Seq::new(r as nat, |i: int| participant_out(blob@, 6 * i)),
        ),
{
    let all = parse_voice_participants(blob);
    let mut n: usize = 0;
    while n < all.len() && n < out.len()
        invariant
            all@ == Seq::new(
                (blob@.len() / 6) as nat,
                |i: int| voice::participant_at(blob@, 6 * i),
            ),
            n <= all@.len(),
            n <= out@.len(),
            out@.len() == old(out)@.len(),
            forall|i: int| 0 <= i < n ==> out@[i] == participant_out(blob@, 6 * i),
            forall|i: int| n <= i < out@.len() ==> out@[i] == old(out)@[i],
        decreases all@.len() - n,
    {
        let p = all[n];
        out[n] =
        VoiceParticipantOut { user_id: p.user_id, flags: p.flags, codec_id: p.codec_id };
        n = n + 1;
    }
    assert(out@ =~= bytes::overwrite(
        old(out)@,
        0,
        Seq::new(n as nat, |i: int| participant_out(blob@, 6 * i)),
    ));
    n
}

pub const GTKHX_PROTO_VOICE_MID_INVALID: u32 = 0;

pub const GTKHX_PROTO_VOICE_MID_SEND: u32 = 1;

pub const GTKHX_PROTO_VOICE_MID_USER: u32 = 2;

/// What an SDP label names, as a number. If it names a user, `out_uid` is set.
pub fn gtkhx_proto_parse_voice_mid_label(label: &[u8], out_uid: &mut u16) -> (r: u32)
    ensures
        match voice::mid_label(label@) {
            Some(MidLabel::Send) => r == GTKHX_PROTO_VOICE_MID_SEND && *final(out_uid) == *old(
                out_uid,
            ),
            Some(MidLabel::User(uid)) => r == GTKHX_PROTO_VOICE_MID_USER && *final(out_uid) == uid,
            None => r == GTKHX_PROTO_VOICE_MID_INVALID && *final(out_uid) == *old(out_uid),
        },
{
    match parse_voice_mid_label(label) {
        Some(MidLabel::Send) => GTKHX_PROTO_VOICE_MID_SEND,
        Some(MidLabel::User(uid)) => {
            *out_uid = uid;
            GTKHX_PROTO_VOICE_MID_USER
        },
        None => GTKHX_PROTO_VOICE_MID_INVALID,
    }
}

/// An SDP session in numbers.
#[derive(Debug, Clone, Copy, PartialEq, Eq, Structural)]
pub struct VoiceSdpSummaryOut {
    /// How many labels there are, well-formed or not.
    pub mid_count: u32,
    /// How many of them are not well-formed.
    pub unknown_mid_count: u32,
    pub bundle_count: u32,
    pub has_disabled_slot: bool,
    pub has_pcmu: bool,
}

/// The sum of two lengths, as far as a `usize` holds it.
pub open spec fn sum_of(a: nat, b: nat) -> nat {
    if a + b <= usize::MAX {
        a + b
    } else {
        usize::MAX as nat
    }
}

/// A summary in numbers.
pub open spec fn summary_out(lines: Seq<Seq<u8>>) -> VoiceSdpSummaryOut {
    let mids = sdp::values_of(lines, sdp::mid_prefix());
    let known = sdp::known_mids(mids).len();
    let other = sdp::other_mids(mids).len();
    VoiceSdpSummaryOut {
        mid_count: low32(sum_of(known, other)),
        unknown_mid_count: low32(other),
        bundle_count: low32(
            sdp::bundle_tokens(sdp::values_of(lines, sdp::bundle_prefix())).len(),
        ),
        has_disabled_slot: sdp::values_of(lines, sdp::disabled_prefix()).len() > 0,
        has_pcmu: sdp::values_of(lines, sdp::pcmu_prefix()).len() > 0,
    }
}

/// Summarises an SDP session.
pub fn gtkhx_proto_parse_voice_sdp_summary(s: &[u8]) -> (r: VoiceSdpSummaryOut)
    ensures
        r == summary_out(text::split_from(s@, 0, 0x0a)),
{
    let summary = sdp::summarize(s);
    assert(sdp::texts(summary.unknown_mids@).len() == summary.unknown_mids@.len());
    assert(sdp::texts(summary.bundle@).len() == summary.bundle@.len());
    let total: usize = summary.mids.len().saturating_add(summary.unknown_mids.len());
    VoiceSdpSummaryOut {
        mid_count: narrow(total),
        unknown_mid_count: narrow(summary.unknown_mids.len()),
        bundle_count: narrow(summary.bundle.len()),
        has_disabled_slot: summary.has_disabled_slot,
        has_pcmu: summary.has_pcmu,
    }
}

/// A parsed ICE candidate, for callers that keep it and look at its parts.
pub struct VoiceIceCandidate {
    pub inner: IceCandidate,
}

/// The parts of an ICE candidate, in UTF-8.
#[derive(Debug, Clone, Copy)]
pub struct VoiceIceCandidateOut<'a> {
    pub candidate: Option<&'a [u8]>,
    pub sdp_mid: Option<&'a [u8]>,
    pub username_fragment: Option<&'a [u8]>,
    pub sdp_mline_index: u32,
    pub sdp_mline_index_present: bool,
    pub is_end_of_candidates: bool,
}

/// A text in UTF-8, if there is one.
pub open spec fn utf8_of(s: Option<Seq<char>>) -> Option<Seq<u8>> {
    match s {
        Some(t) => Some(encode_utf8(t)),
        None => None,
    }
}

fn bytes_of(s: &Option<String>) -> (r: Option<&[u8]>)
    ensures
        wire::opt_view(r) == utf8_of(ice::text_view(*s)),
{
    match s {
        Some(t) => Some(t.as_str().as_bytes()),
        None => None,
    }
}

impl VoiceIceCandidate {
    /// The parts of the candidate.
    pub fn parts(&self) -> (r: VoiceIceCandidateOut<'_>)
        ensures
            wire::opt_view(r.candidate) == utf8_of(self.inner@.candidate),
            wire::opt_view(r.sdp_mid) == utf8_of(self.inner@.sdp_mid),
            wire::opt_view(r.username_fragment) == utf8_of(self.inner@.username_fragment),
            r.sdp_mline_index == or_zero(self.inner@.sdp_mline_index),
            r.sdp_mline_index_present == (self.inner@.sdp_mline_index is Some),
            r.is_end_of_candidates == (self.inner@.candidate == Some(Seq::<char>::empty())),
    {
        VoiceIceCandidateOut {
            candidate: bytes_of(&self.inner.candidate),
            sdp_mid: bytes_of(&self.inner.sdp_mid),
            username_fragment: bytes_of(&self.inner.username_fragment),
            sdp_mline_index: value_or_zero(self.inner.sdp_mline_index),
            sdp_mline_index_present: self.inner.sdp_mline_index.is_some(),
            is_end_of_candidates: self.inner.is_end_of_candidates(),
        }
    }
}

/// Parses the JSON of an ICE candidate. The parts of the result are its
/// [`VoiceIceCandidate::parts`]; `candidate` and `sdp_mid` are always among them.
pub fn gtkhx_proto_parse_voice_ice_json(json: &[u8]) -> (r: Option<VoiceIceCandidate>)
    ensures
        match r {
            Some(c) => ice::parsed(json@) == Some(c.inner@) && c.inner@.candidate is Some
                && c.inner@.sdp_mid is Some,
            None => ice::parsed(json@) is None,
        },
{
    match ice::parse(json) {
        Some(inner) => Some(VoiceIceCandidate { inner }),
        None => None,
    }
}

/// The JSON of a candidate with these parts, if they are texts.
pub open spec fn candidate_json(
    candidate: Seq<u8>,
    sdp_mid: Seq<u8>,
    sdp_mline_index: Option<u32>,
    username_fragment: Option<Seq<u8>>,
) -> Option<Seq<u8>> {
    let fragment_ok = match username_fragment {
        Some(b) => valid_utf8(b),
        None => true,
    };
    if valid_utf8(candidate) && valid_utf8(sdp_mid) && fragment_ok {
        Some(
            encode_utf8(
                ice::json_text(
                    ice::IceView {
                        candidate: Some(decode_utf8(candidate)),
                        sdp_mid: Some(decode_utf8(sdp_mid)),
                        sdp_mline_index,
                        username_fragment: match username_fragment {
                            Some(b) => Some(decode_utf8(b)),
                            None => None,
                        },
                    },
                ),
            ),
        )
    } else {
        None
    }
}

/// Writes the JSON of an ICE candidate into `out_buf` and returns its length. Zero, and nothing is
/// written, if `candidate` or `sdp_mid` is missing (either may be empty), if a part is no UTF-8, or
/// if there is too little room.
pub fn gtkhx_proto_build_voice_ice_json(
    candidate: Option<&[u8]>,
    sdp_mid: Option<&[u8]>,
    sdp_mline_index: u32,
    sdp_mline_index_present: bool,
    username_fragment: Option<&[u8]>,
    out_buf: &mut [u8],
) -> (r: usize)
    ensures
        ({
            let index = if sdp_mline_index_present {
                Some(sdp_mline_index)
            } else {
                None
            };
            let json = match (wire::opt_view(candidate), wire::opt_view(sdp_mid)) {
                (Some(c), Some(m)) => candidate_json(
                    c,
                    m,
                    index,
                    wire::opt_view(username_fragment),
                ),
                _ => None,
            };
            match json {
                Some(j) => if 0 < old(out_buf)@.len() && j.len() <= old(out_buf)@.len() {
                    &&& r == j.len()
                    &&& final(out_buf)@ == bytes::overwrite(old(out_buf)@, 0, j)
                } else {
                    &&& r == 0
                    &&& final(out_buf)@ == old(out_buf)@
                },
                None => {
                    &&& r == 0
                    &&& final(out_buf)@ == old(out_buf)@
                },
            }
        }),
{
    if out_buf.len() == 0 {
        return 0;
    }
    let (candidate, sdp_mid) = match (candidate, sdp_mid) {
        (Some(c), Some(m)) => (c, m),
        _ => {
            return 0;
        },
    };
    let mut c = IceCandidate::default();
    match text_of(candidate) {
        Some(t) => {
            c.candidate = Some(t.to_owned());
        },
        None => {
            return 0;
        },
    }
    match text_of(sdp_mid) {
        Some(t) => {
            c.sdp_mid = Some(t.to_owned());
        },
        None => {
            return 0;
        },
    }
    if sdp_mline_index_present {
        c.sdp_mline_index = Some(sdp_mline_index);
    }
    if let Some(b) = username_fragment {
        match text_of(b) {
            Some(t) => {
                c.username_fragment = Some(t.to_owned());
            },
            None => {
                return 0;
            },
        }
    }
    let json = ice::build(&c);
    let b = json.as_str().as_bytes();
    if b.len() > out_buf.len() {
        return 0;
    }
    copy_into(out_buf, 0, b);
    b.len()
}

/// The numbers in a reply or notification on voice. The other fields are fetched one by one.
#[derive(Debug, Clone, Copy, PartialEq, Eq, Structural)]
pub struct VoiceReplyOut {
    pub cid: u32,
    pub muted: u16,
    pub muted_present: bool,
    pub sdp_present: bool,
    pub ice_present: bool,
    pub codec_present: bool,
    pub participants_present: bool,
    pub sdp_len: u32,
    pub ice_len: u32,
    pub codec_len: u32,
    pub participants_len: u32,
}

/// The length of a field, zero if it is missing.
pub open spec fn len_of(data: Option<Seq<u8>>) -> u32 {
    match data {
        Some(d) => low32(d.len()),
        None => 0,
    }
}

fn field_len(data: Option<&[u8]>) -> (r: u32)
    ensures
        r == len_of(wire::opt_view(data)),
{
    match data {
        Some(d) => narrow(d.len()),
        None => 0,
    }
}

/// Parses the numbers in a reply or notification on voice.
pub fn gtkhx_proto_parse_voice_reply(buf: &[u8]) -> (r: VoiceReplyOut)
    ensures
        ({
            let cs = wire::message_chunks(buf@, buf@.len() as int);
            let sdp = wire::last_with(cs, tag::VOICE_SDP);
            let ice = wire::last_with(cs, tag::VOICE_ICE);
            let codec = wire::last_with(cs, tag::VOICE_CODEC);
            let participants = wire::last_with(cs, tag::VOICE_PARTICIPANTS);
            r == VoiceReplyOut {
                cid: wire::last_uint(cs, tag::CHAT_ID),
                muted: match voice::muted_of(cs) {
                    Some(m) => m,
                    None => 0,
                },
                muted_present: voice::muted_of(cs) is Some,
                sdp_present: sdp is Some,
                ice_present: ice is Some,
                codec_present: codec is Some,
                participants_present: participants is Some,
                sdp_len: len_of(sdp),
                ice_len: len_of(ice),
                codec_len: len_of(codec),
                participants_len: len_of(participants),
            }
        }),
{
    let r = parse_voice_reply(buf, buf.len());
    VoiceReplyOut {
        cid: r.cid,
        muted: match r.muted {
            Some(m) => m,
            None => 0,
        },
        muted_present: r.muted.is_some(),
        sdp_present: r.sdp.is_some(),
        ice_present: r.ice.is_some(),
        codec_present: r.codec.is_some(),
        participants_present: r.participants.is_some(),
        sdp_len: field_len(r.sdp),
        ice_len: field_len(r.ice),
        codec_len: field_len(r.codec),
        participants_len: field_len(r.participants),
    }
}

/// A field of a reply or notification on voice: 0 is the SDP session, 1 the ICE candidate, 2 the
/// codec, 3 the participants.
pub fn gtkhx_proto_voice_reply_field(buf: &[u8], field: u32) -> (r: Option<&[u8]>)
    ensures
        ({
            let cs = wire::message_chunks(buf@, buf@.len() as int);
            wire::opt_view(r) == (if field == 0 {
                wire::last_with(cs, tag::VOICE_SDP)
            } else if field == 1 {
                wire::last_with(cs, tag::VOICE_ICE)
            } else if field == 2 {
                wire::last_with(cs, tag::VOICE_CODEC)
            } else if field == 3 {
                wire::last_with(cs, tag::VOICE_PARTICIPANTS)
            } else {
                None
            })
        }),
{
    let r = parse_voice_reply(buf, buf.len());
    if field == 0 {
        r.sdp
    } else if field == 1 {
        r.ice
    } else if field == 2 {
        r.codec
    } else if field == 3 {
        r.participants
    } else {
        None
    }
}

// ---------------------------------------------------------------------------------------------
// Media.
// ---------------------------------------------------------------------------------------------
/// The limits that a server advertises; a value that is not there is zero.
#[derive(Debug, Clone, Copy, PartialEq, Eq, Structural)]
pub struct InlineMediaLimitsOut {
    pub max_bytes: u32,
    pub max_dimension: u32,
    pub max_pixels: u32,
    pub chunk_size: u32,
    pub max_frames: u32,
    pub max_duration_ms: u32,
    pub max_bytes_present: bool,
    pub max_dimension_present: bool,
    pub max_pixels_present: bool,
    pub chunk_size_present: bool,
    pub max_frames_present: bool,
    pub max_duration_ms_present: bool,
}

/// The limits, with a mark for each that is there.
pub open spec fn limits_out(l: inline_media::LimitsAdvertisement) -> InlineMediaLimitsOut {
    InlineMediaLimitsOut {
        max_bytes: or_zero(l.max_bytes),
        max_dimension: or_zero(l.max_dimension),
        max_pixels: or_zero(l.max_pixels),
        chunk_size: or_zero(l.chunk_size),
        max_frames: or_zero(l.max_frames),
        max_duration_ms: or_zero(l.max_duration_ms),
        max_bytes_present: l.max_bytes is Some,
        max_dimension_present: l.max_dimension is Some,
        max_pixels_present: l.max_pixels is Some,
        chunk_size_present: l.chunk_size is Some,
        max_frames_present: l.max_frames is Some,
        max_duration_ms_present: l.max_duration_ms is Some,
    }
}

/// The limits in the reply to a login.
pub fn gtkhx_proto_extract_inline_media_limits(buf: &[u8]) -> (r: InlineMediaLimitsOut)
    ensures
        r == limits_out(
            inline_media::limits_of(wire::message_chunks(buf@, buf@.len() as int)),
        ),
{
    let l = extract_limits_from_message(buf, buf.len());
    InlineMediaLimitsOut {
        max_bytes: value_or_zero(l.max_bytes),
        max_dimension: value_or_zero(l.max_dimension),
        max_pixels: value_or_zero(l.max_pixels),
        chunk_size: value_or_zero(l.chunk_size),
        max_frames: value_or_zero(l.max_frames),
        max_duration_ms: value_or_zero(l.max_duration_ms),
        max_bytes_present: l.max_bytes.is_some(),
        max_dimension_present: l.max_dimension.is_some(),
        max_pixels_present: l.max_pixels.is_some(),
        chunk_size_present: l.chunk_size.is_some(),
        max_frames_present: l.max_frames.is_some(),
        max_duration_ms_present: l.max_duration_ms.is_some(),
    }
}

/// The medium of a chat line.
#[derive(Debug, Clone, Copy)]
pub struct ChatMediaMetaOut<'a> {
    pub id: &'a [u8],
    pub type_: &'a [u8],
    pub width: u32,
    pub height: u32,
    pub bytes: u32,
    pub width_present: bool,
    pub height_present: bool,
    pub bytes_present: bool,
}

/// Whether a chat line carries a medium.
#[derive(Debug, Clone, Copy)]
pub enum ChatMediaMetaStatus<'a> {
    /// It does not.
    Absent,
    /// It does.
    Present(ChatMediaMetaOut<'a>),
    /// It carries half of what belongs together, and must be dropped.
    Orphan,
}

/// The handle, the type and the hints of a medium, as the chunks give them.
pub open spec fn is_media(
    cs: Seq<wire::ChunkView>,
    id: Seq<u8>,
    type_: Seq<u8>,
    width: (u32, bool),
    height: (u32, bool),
    size: (u32, bool),
) -> bool {
    let w = inline_media::hint_of(cs, tag::CHAT_MEDIA_WIDTH);
    let h = inline_media::hint_of(cs, tag::CHAT_MEDIA_HEIGHT);
    let b = inline_media::hint_of(cs, tag::CHAT_MEDIA_BYTES);
    &&& wire::last_with(cs, tag::CHAT_MEDIA_ID) == Some(id)
    &&& wire::last_with(cs, tag::CHAT_MEDIA_TYPE) == Some(type_)
    &&& width == (or_zero(w), w is Some)
    &&& height == (or_zero(h), h is Some)
    &&& size == (or_zero(b), b is Some)
}

/// The medium of a chat line.
pub fn gtkhx_proto_extract_chat_media_meta(buf: &[u8]) -> (r: ChatMediaMetaStatus<'_>)
    ensures
        ({
            let cs = wire::message_chunks(buf@, buf@.len() as int);
            let id = wire::last_with(cs, tag::CHAT_MEDIA_ID) is Some;
            let type_ = wire::last_with(cs, tag::CHAT_MEDIA_TYPE) is Some;
            match r {
                ChatMediaMetaStatus::Absent => !id && !type_,
                ChatMediaMetaStatus::Present(m) => is_media(
                    cs,
                    m.id@,
                    m.type_@,
                    (m.width, m.width_present),
                    (m.height, m.height_present),
                    (m.bytes, m.bytes_present),
                ),
                ChatMediaMetaStatus::Orphan => id != type_,
            }
        }),
{
    match extract_chat_media_meta(ChunkIter::over_message(buf, buf.len())) {
        Ok(None) => ChatMediaMetaStatus::Absent,
        Err(_) => ChatMediaMetaStatus::Orphan,
        Ok(Some(m)) => ChatMediaMetaStatus::Present(
            ChatMediaMetaOut {
                id: m.id,
                type_: m.type_,
                width: value_or_zero(m.width),
                height: value_or_zero(m.height),
                bytes: value_or_zero(m.bytes),
                width_present: m.width.is_some(),
                height_present: m.height.is_some(),
                bytes_present: m.bytes.is_some(),
            },
        ),
    }
}

/// The reply to the last chunk of an upload.
#[derive(Debug, Clone, Copy)]
pub struct UploadFinalReplyOut<'a> {
    pub id: &'a [u8],
    pub type_: &'a [u8],
    pub width: u32,
    pub height: u32,
    pub bytes: u32,
    pub width_present: bool,
    pub height_present: bool,
    pub bytes_present: bool,
}

/// Parses the reply to the last chunk of an upload. `None` if handle or type is missing.
pub fn gtkhx_proto_parse_upload_final_reply(buf: &[u8]) -> (r: Option<UploadFinalReplyOut<'_>>)
    ensures
        ({
            let cs = wire::message_chunks(buf@, buf@.len() as int);
            match r {
                Some(m) => is_media(
                    cs,
                    m.id@,
                    m.type_@,
                    (m.width, m.width_present),
                    (m.height, m.height_present),
                    (m.bytes, m.bytes_present),
                ),
                None => wire::last_with(cs, tag::CHAT_MEDIA_ID) is None || wire::last_with(
                    cs,
                    tag::CHAT_MEDIA_TYPE,
                ) is None,
            }
        }),
{
    match parse_upload_final_reply(ChunkIter::over_message(buf, buf.len())) {
        Some(m) => Some(
            UploadFinalReplyOut {
                id: m.media_id,
                type_: m.media_type,
                width: value_or_zero(m.width),
                height: value_or_zero(m.height),
                bytes: value_or_zero(m.bytes),
                width_present: m.width.is_some(),
                height_present: m.height.is_some(),
                bytes_present: m.bytes.is_some(),
            },
        ),
        None => None,
    }
}

/// The token in the reply to a chunk of an upload.
pub fn gtkhx_proto_parse_upload_token_reply(buf: &[u8]) -> (r: Option<&[u8]>)
    ensures
        wire::opt_view(r) == wire::first_with(
            wire::message_chunks(buf@, buf@.len() as int),
            tag::CHAT_MEDIA_UPLOAD_TOKEN,
        ),
{
    parse_upload_token_reply(ChunkIter::over_message(buf, buf.len()))
}

/// The reply to a download.
#[derive(Debug, Clone, Copy)]
pub struct DownloadReplyOut<'a> {
    pub payload: &'a [u8],
    pub type_: &'a [u8],
    pub part_count: u16,
    pub final_chunk: bool,
}

/// Parses the reply to a download. `None` if payload or type is missing.
pub fn gtkhx_proto_parse_download_reply(buf: &[u8]) -> (r: Option<DownloadReplyOut<'_>>)
    ensures
        ({
            let cs = wire::message_chunks(buf@, buf@.len() as int);
            let payload = wire::last_with(cs, tag::CHAT_MEDIA_PAYLOAD);
            let type_ = wire::last_with(cs, tag::CHAT_MEDIA_TYPE);
            match r {
                Some(m) => {
                    &&& payload == Some(m.payload@)
                    &&& type_ == Some(m.type_@)
                    &&& m.part_count == inline_media::part_count_of(cs)
                    &&& m.final_chunk == inline_media::final_of(cs)
                },
                None => payload is None || type_ is None,
            }
        }),
{
    match parse_download_reply(ChunkIter::over_message(buf, buf.len())) {
        Some(m) => Some(
            DownloadReplyOut {
                payload: m.payload,
                type_: m.media_type,
                part_count: m.part_count,
                final_chunk: m.final_chunk,
            },
        ),
        None => None,
    }
}

/// The error code of a refusal, as a number from 0 to 5.
pub fn gtkhx_proto_extract_media_error_code(buf: &[u8]) -> (r: u16)
    ensures
        r == inline_media::error_code_of(wire::message_chunks(buf@, buf@.len() as int)).wire(),
        r <= 5,
{
    extract_error_code(ChunkIter::over_message(buf, buf.len())).as_u16()
}

// ---------------------------------------------------------------------------------------------
// Avatars.
// ---------------------------------------------------------------------------------------------
/// The avatar of a user; without a GIF if it is empty.
#[derive(Debug, Clone, Copy)]
pub struct IconEntryOut<'a> {
    pub uid: u16,
    pub gif: Option<&'a [u8]>,
}

impl IconEntryOut<'_> {
    /// The entry gives this avatar.
    pub open spec fn gives(&self, e: gif_icons::IconView) -> bool {
        &&& self.uid == e.uid
        &&& wire::opt_view(self.gif) == (if e.gif.len() == 0 {
            None
        } else {
            Some(e.gif)
        })
    }
}

fn icon_out<'a>(e: IconEntry<'a>) -> (r: IconEntryOut<'a>)
    ensures
        r.gives(e@),
{
    IconEntryOut {
        uid: e.uid,
        gif: if e.gif.is_empty() {
            None
        } else {
            Some(e.gif)
        },
    }
}

/// Parses the reply to a request for the avatar of one user. `None` if no user is given.
pub fn gtkhx_proto_parse_icon_get_reply(buf: &[u8]) -> (r: Option<IconEntryOut<'_>>)
    ensures
        ({
            let cs = wire::message_chunks(buf@, buf@.len() as int);
            let uid = wire::exact16(wire::last_sized(cs, tag::UID, 2));
            match r {
                Some(e) => uid is Some && e.gives(
                    gif_icons::IconView {
                        uid: uid->0,
                        gif: match wire::last_with(cs, tag::ICON_GIF) {
                            Some(gif) => gif,
                            None => Seq::empty(),
                        },
                    },
                ),
                None => uid is None,
            }
        }),
{
    match parse_icon_get_reply(ChunkIter::over_message(buf, buf.len())) {
        Some(e) => Some(icon_out(e)),
        None => None,
    }
}

/// The user whose avatar has changed.
pub fn gtkhx_proto_parse_icon_change(buf: &[u8]) -> (r: Option<u16>)
    ensures
        r == wire::exact16(
            wire::first_sized(wire::message_chunks(buf@, buf@.len() as int), tag::UID, 2),
        ),
{
    parse_icon_change(ChunkIter::over_message(buf, buf.len()))
}

/// Writes the avatars in a reply into `out`, as many as there is room for, and returns how many
/// there are.
pub fn gtkhx_proto_parse_icon_list<'a>(buf: &'a [u8], out: &mut [IconEntryOut<'a>]) -> (r: usize)
    ensures
        ({
            let icons = gif_icons::icons_of(wire::message_chunks(buf@, buf@.len() as int));
            &&& r == icons.len()
            &&& final(out)@.len() == old(out)@.len()
            &&& forall|i: int|
                #![trigger final(out)@[i]]
                0 <= i < old(out)@.len() ==> if i < r {
                    final(out)@[i].gives(icons[i])
                } else {
                    final(out)@[i] == old(out)@[i]
                }
        }),
{
    let all = parse_icon_list(ChunkIter::over_message(buf, buf.len()));
    let ghost icons = gif_icons::icon_views(all@);
    let mut n: usize = 0;
    while n < all.len() && n < out.len()
        invariant
            icons == gif_icons::icon_views(all@),
            n <= all@.len(),
            n <= out@.len(),
            out@.len() == old(out)@.len(),
            forall|i: int| #![trigger out@[i]] 0 <= i < n ==> out@[i].gives(icons[i]),
            forall|i: int| #![trigger out@[i]] n <= i < out@.len() ==> out@[i] == old(out)@[i],
        decreases all@.len() - n,
    {
        assert(icons[n as int] == all@[n as int]@);
        out[n] = icon_out(all[n]);
        n = n + 1;
    }
    all.len()
}

// ---------------------------------------------------------------------------------------------
// Dates.
// ---------------------------------------------------------------------------------------------
/// A timestamp in numbers.
#[derive(Debug, Clone, Copy, PartialEq, Eq, Structural)]
pub struct GtkhxProtoHlDate {
    /// 0 if the seconds count from 1904, 1 if they count from the start of the year.
    pub kind: u8,
    pub year: u16,
    pub secs: u32,
}

/// A timestamp in numbers.
pub open spec fn date_out(d: HlDate) -> GtkhxProtoHlDate {
    match d {
        HlDate::Mac1904 { secs } => GtkhxProtoHlDate { kind: 0, year: 0, secs },
        HlDate::Modern { year, secs } => GtkhxProtoHlDate { kind: 1, year, secs },
    }
}

/// Decodes a timestamp into `out`. False, and `out` stays, if there is none.
pub fn gtkhx_proto_hl_date_decode(bytes: &[u8], out: &mut GtkhxProtoHlDate) -> (r: bool)
    ensures
        match hl_date::date_of(bytes@) {
            Some(d) => r && *final(out) == date_out(d),
            None => !r && *final(out) == *old(out),
        },
{
    match parse_hl_date(bytes) {
        Some(HlDate::Mac1904 { secs }) => {
            *out = GtkhxProtoHlDate { kind: 0, year: 0, secs };
            true
        },
        Some(HlDate::Modern { year, secs }) => {
            *out = GtkhxProtoHlDate { kind: 1, year, secs };
            true
        },
        None => false,
    }
}

// ---------------------------------------------------------------------------------------------
// Emoji.
// ---------------------------------------------------------------------------------------------
/// A shortcode and its emoji on a line: name, tab, emoji, newline.
pub open spec fn match_line(name: Seq<char>, emoji: Seq<char>) -> Seq<u8> {
    encode_utf8(name) + seq![0x09u8] + encode_utf8(emoji) + seq![0x0au8]
}

/// The lines of the first `k` matches.
pub open spec fn match_lines(ms: Seq<(Seq<char>, Seq<char>)>, k: int) -> Seq<u8>
    decreases k,
{
    if k <= 0 {
        Seq::empty()
    } else {
        match_lines(ms, k - 1) + match_line(ms[k - 1].0, ms[k - 1].1)
    }
}

/// `n` is how many of the matches fit into `room` bytes, each with its whole line: all, or as many
/// as come before the first that does not fit.
pub open spec fn is_fitting(ms: Seq<(Seq<char>, Seq<char>)>, room: int, n: int) -> bool {
    &&& 0 <= n <= ms.len()
    &&& match_lines(ms, n).len() <= room
    &&& n == ms.len() || match_lines(ms, n + 1).len() > room
}

fn line_of(name: &str, emoji: &str) -> (r: Vec<u8>)
    ensures
        r@ == match_line(name@, emoji@),
{
    let mut line: Vec<u8> = Vec::new();
    put_bytes(&mut line, name.as_bytes());
    line.push(0x09);
    put_bytes(&mut line, emoji.as_bytes());
    line.push(0x0a);
    assert(line@ =~= match_line(name@, emoji@));
    line
}

/// Writes the given matches into `dst`, a line for each, as many as fit, and returns how many.
pub fn write_matches(matches: &[(String, String)], dst: &mut [u8]) -> (r: usize)
    ensures
        is_fitting(emoji::pair_views(matches@), old(dst)@.len() as int, r as int),
        final(dst)@ == bytes::overwrite(
            old(dst)@,
            0,
            match_lines(emoji::pair_views(matches@), r as int),
        ),
{
    let ghost ms = emoji::pair_views(matches@);
    let mut pos: usize = 0;
    let mut n: usize = 0;
    assert(dst@ =~= bytes::overwrite(old(dst)@, 0, match_lines(ms, 0)));
    while n < matches.len()
        invariant
            ms == emoji::pair_views(matches@),
            n <= matches@.len(),
            pos == match_lines(ms, n as int).len(),
            pos <= dst@.len(),
            dst@.len() == old(dst)@.len(),
            dst@ == bytes::overwrite(old(dst)@, 0, match_lines(ms, n as int)),
        decreases matches@.len() - n,
    {
        let line = line_of(matches[n].0.as_str(), matches[n].1.as_str());
        assert(ms[n as int] == (matches@[n as int].0@, matches@[n as int].1@));
        assert(match_lines(ms, n + 1) == match_lines(ms, n as int) + line@);
        if line.len() > dst.len() - pos {
            return n;
        }
        copy_into(dst, pos, line.as_slice());
        pos = pos + line.len();
        n = n + 1;
        assert(dst@ =~= bytes::overwrite(old(dst)@, 0, match_lines(ms, n as int)));
    }
    n
}

/// Writes what to offer to who has typed `prefix` into `dst`, a line for each, as many as fit but
/// at most `max`, and returns how many. Nothing is offered if `prefix` is no UTF-8.
pub fn gtkhx_proto_shortcode_matches(
    table: &EmojiTable,
    prefix: &[u8],
    dst: &mut [u8],
    max: usize,
) -> (r: usize)
    requires
        table.wf(),
    ensures
        if valid_utf8(prefix@) && old(dst)@.len() > 0 {
            exists|ms: Seq<(Seq<char>, Seq<char>)>|
                #![trigger match_lines(ms, r as int)]
                {
                    &&& if decode_utf8(prefix@).len() == 0 {
                        ms.len() == 0
                    } else {
                        emoji::is_best(table.codes(), decode_utf8(prefix@), max as int, ms)
                    }
                    &&& is_fitting(ms, old(dst)@.len() as int, r as int)
                    &&& final(dst)@ == bytes::overwrite(old(dst)@, 0, match_lines(ms, r as int))
                }
        } else {
            r == 0 && final(dst)@ == old(dst)@
        },
{
    if dst.len() == 0 {
        return 0;
    }
    match text_of(prefix) {
        Some(p) => {
            let ms = shortcode_matches(table, p, max);
            let n: usize = write_matches(ms.as_slice(), dst);
            assert(emoji::pair_views(ms@).len() == ms@.len());
            n
        },
        None => 0,
    }
}

// ---------------------------------------------------------------------------------------------
// How these calls relate to what they pass on.
// ---------------------------------------------------------------------------------------------
/// As many participants are put into the slots as there are of both, in their order, and further
/// slots stay.
pub proof fn participants_fill_slots(
    blob: &[u8],
    out: &mut [VoiceParticipantOut],
    r: usize,
    ps: Vec<voice::Participant>,
    i: int,
)
    requires
        call_ensures(gtkhx_proto_parse_voice_participants, (blob, out), r),
        call_ensures(parse_voice_participants, (blob,), ps),
    ensures
        r <= ps@.len() && r <= old(out)@.len() && (r == ps@.len() || r == old(out)@.len()),
        final(out)@.len() == old(out)@.len(),
        0 <= i < r ==> final(out)@[i].user_id == ps@[i].user_id && final(out)@[i].flags
            == ps@[i].flags && final(out)@[i].codec_id == ps@[i].codec_id,
        r <= i < old(out)@.len() ==> final(out)@[i] == old(out)@[i],
{
}

/// A label is 1 for the own track, 2 for that of a user, whose id is handed out, and 0 if it is none.
pub proof fn labels_have_numbers(
    label: &[u8],
    out: &mut u16,
    r: u32,
    known: Option<MidLabel>,
)
    requires
        call_ensures(gtkhx_proto_parse_voice_mid_label, (label, out), r),
        call_ensures(parse_voice_mid_label, (label,), known),
    ensures
        known is None ==> r == 0 && *final(out) == *old(out),
        known == Some(MidLabel::Send) ==> r == 1 && *final(out) == *old(out),
        known matches Some(MidLabel::User(uid)) ==> r == 2 && *final(out) == uid,
{
}

/// A summary counts the labels, those that are none among them, and the names of the group.
pub proof fn summaries_count(s: &[u8], r: VoiceSdpSummaryOut, full: sdp::SdpSummary)
    requires
        call_ensures(gtkhx_proto_parse_voice_sdp_summary, (s,), r),
        call_ensures(sdp::summarize, (s,), full),
        full.mids@.len() + full.unknown_mids@.len() <= 0xffff_ffff,
        full.bundle@.len() <= 0xffff_ffff,
    ensures
        r.mid_count == full.mids@.len() + full.unknown_mids@.len(),
        r.unknown_mid_count == full.unknown_mids@.len(),
        r.bundle_count == full.bundle@.len(),
        r.has_disabled_slot == full.has_disabled_slot,
        r.has_pcmu == full.has_pcmu,
{
    assert(sdp::texts(full.unknown_mids@).len() == full.unknown_mids@.len());
    assert(sdp::texts(full.bundle@).len() == full.bundle@.len());
}

/// The parts of a candidate are its strings in UTF-8, and its index, which is zero if there is none.
pub proof fn candidates_are_handed_out(c: VoiceIceCandidate, r: VoiceIceCandidateOut<'_>)
    requires
        call_ensures(VoiceIceCandidate::parts, (&c,), r),
    ensures
        r.candidate is Some <==> c.inner.candidate is Some,
        r.candidate matches Some(b) ==> b@ == encode_utf8(c.inner.candidate->0@),
        r.sdp_mid is Some <==> c.inner.sdp_mid is Some,
        r.sdp_mid matches Some(b) ==> b@ == encode_utf8(c.inner.sdp_mid->0@),
        r.username_fragment is Some <==> c.inner.username_fragment is Some,
        r.username_fragment matches Some(b) ==> b@ == encode_utf8(c.inner.username_fragment->0@),
        r.sdp_mline_index_present <==> c.inner.sdp_mline_index is Some,
        c.inner.sdp_mline_index matches Some(n) ==> r.sdp_mline_index == n,
        c.inner.sdp_mline_index is None ==> r.sdp_mline_index == 0,
        r.is_end_of_candidates <==> c.inner.candidate is Some && c.inner.candidate->0@.len() == 0,
{
    if let Some(t) = c.inner.candidate {
        if t@.len() == 0 {
            assert(t@ =~= Seq::<char>::empty());
        }
    }
}

/// A candidate is read as it is read elsewhere.
pub proof fn candidates_are_read(
    json: &[u8],
    r: Option<VoiceIceCandidate>,
    q: Option<IceCandidate>,
)
    requires
        call_ensures(gtkhx_proto_parse_voice_ice_json, (json,), r),
        call_ensures(ice::parse, (json,), q),
    ensures
        r is Some <==> q is Some,
        r matches Some(c) ==> c.inner@ == q->0@,
{
}

/// A candidate is written as it is written elsewhere, if it is there, is UTF-8 and has room. The
/// index counts only if it is said to be there.
pub proof fn candidates_are_written(
    candidate: &[u8],
    mid: &[u8],
    index: u32,
    present: bool,
    fragment: Option<&[u8]>,
    out: &mut [u8],
    r: usize,
    c: IceCandidate,
    json: String,
)
    requires
        call_ensures(
            gtkhx_proto_build_voice_ice_json,
            (Some(candidate), Some(mid), index, present, fragment, out),
            r,
        ),
        call_ensures(ice::build, (&c,), json),
        c.candidate is Some && c.candidate->0@ == decode_utf8(candidate@),
        c.sdp_mid is Some && c.sdp_mid->0@ == decode_utf8(mid@),
        c.sdp_mline_index == (if present {
            Some(index)
        } else {
            None
        }),
        fragment is None ==> c.username_fragment is None,
        fragment matches Some(f) ==> c.username_fragment is Some && c.username_fragment->0@
            == decode_utf8(f@),
    ensures
        ({
            let text = valid_utf8(candidate@) && valid_utf8(mid@) && (fragment matches Some(f)
                ==> valid_utf8(f@));
            let b = encode_utf8(json@);
            let room = 0 < old(out)@.len() && b.len() <= old(out)@.len();
            &&& final(out)@.len() == old(out)@.len()
            &&& text && room ==> r == b.len() && final(out)@.take(r as int) == b && final(out)@.skip(
                r as int,
            ) == old(out)@.skip(r as int)
            &&& !text || !room ==> r == 0 && final(out)@ == old(out)@
        }),
{
    let v = c@;
    let b = encode_utf8(json@);
    if b.len() <= old(out)@.len() {
        let w = bytes::overwrite(old(out)@, 0, b);
        assert(w.take(b.len() as int) =~= b);
        assert(w.skip(b.len() as int) =~= old(out)@.skip(b.len() as int));
    }
}

/// Without a candidate or a section nothing is written.
pub proof fn candidates_must_be_whole(
    candidate: Option<&[u8]>,
    mid: Option<&[u8]>,
    index: u32,
    present: bool,
    fragment: Option<&[u8]>,
    out: &mut [u8],
    r: usize,
)
    requires
        call_ensures(
            gtkhx_proto_build_voice_ice_json,
            (candidate, mid, index, present, fragment, out),
            r,
        ),
        candidate is None || mid is None,
    ensures
        r == 0 && final(out)@ == old(out)@,
{
}

/// A reply on voice says which fields it has and how long they are, and gives them by number: 0 for
/// the description, 1 for the candidate, 2 for the codec and 3 for the participants.
pub proof fn voice_fields_have_numbers(
    b: &[u8],
    n: usize,
    full: voice::VoiceReply<'_>,
    r: VoiceReplyOut,
    field: u32,
    f: Option<&[u8]>,
)
    requires
        n == b@.len(),
        call_ensures(parse_voice_reply, (b, n), full),
        call_ensures(gtkhx_proto_parse_voice_reply, (b,), r),
        call_ensures(gtkhx_proto_voice_reply_field, (b, field), f),
    ensures
        r.cid == full.cid,
        r.muted_present == full.muted is Some,
        full.muted matches Some(m) ==> r.muted == m,
        full.muted is None ==> r.muted == 0,
        r.sdp_present == full.sdp is Some,
        full.sdp matches Some(d) ==> r.sdp_len == d@.len() % 0x1_0000_0000,
        full.sdp is None ==> r.sdp_len == 0,
        r.ice_present == full.ice is Some,
        full.ice matches Some(d) ==> r.ice_len == d@.len() % 0x1_0000_0000,
        full.ice is None ==> r.ice_len == 0,
        r.codec_present == full.codec is Some,
        full.codec matches Some(d) ==> r.codec_len == d@.len() % 0x1_0000_0000,
        full.codec is None ==> r.codec_len == 0,
        r.participants_present == full.participants is Some,
        full.participants matches Some(d) ==> r.participants_len == d@.len() % 0x1_0000_0000,
        full.participants is None ==> r.participants_len == 0,
        field == 0 ==> wire::opt_view(f) == wire::opt_view(full.sdp),
        field == 1 ==> wire::opt_view(f) == wire::opt_view(full.ice),
        field == 2 ==> wire::opt_view(f) == wire::opt_view(full.codec),
        field == 3 ==> wire::opt_view(f) == wire::opt_view(full.participants),
        field > 3 ==> f is None,
{
}

/// A number that may be missing is handed out as it is, or as zero, and it is said which.
pub open spec fn handed(v: Option<u32>, n: u32, present: bool) -> bool {
    match v {
        Some(x) => n == x && present,
        None => n == 0 && !present,
    }
}

/// The limits on media are handed out, each on its own.
pub proof fn limits_are_handed_out(
    b: &[u8],
    n: usize,
    l: inline_media::LimitsAdvertisement,
    r: InlineMediaLimitsOut,
)
    requires
        n == b@.len(),
        call_ensures(inline_media::extract_limits_from_message, (b, n), l),
        call_ensures(gtkhx_proto_extract_inline_media_limits, (b,), r),
    ensures
        handed(l.max_bytes, r.max_bytes, r.max_bytes_present),
        handed(l.max_dimension, r.max_dimension, r.max_dimension_present),
        handed(l.max_pixels, r.max_pixels, r.max_pixels_present),
        handed(l.chunk_size, r.chunk_size, r.chunk_size_present),
        handed(l.max_frames, r.max_frames, r.max_frames_present),
        handed(l.max_duration_ms, r.max_duration_ms, r.max_duration_ms_present),
{
}

/// The medium of a chat line is handed out, or that there is none, or that only a part of it is
/// there.
pub proof fn chat_media_are_handed_out<'a>(
    b: &'a [u8],
    n: usize,
    it: ChunkIter<'a>,
    m: Result<Option<inline_media::ChatMediaMeta<'a>>, inline_media::MediaMetaError>,
    r: ChatMediaMetaStatus<'a>,
)
    requires
        n == b@.len(),
        call_ensures(ChunkIter::over_message, (b, n), it),
        call_ensures(inline_media::extract_chat_media_meta, (it,), m),
        call_ensures(gtkhx_proto_extract_chat_media_meta, (b,), r),
    ensures
        m is Err <==> r is Orphan,
        r is Absent <==> m is Ok && m->Ok_0 is None,
        r matches ChatMediaMetaStatus::Present(o) ==> m is Ok && m->Ok_0 is Some && {
            let x = m->Ok_0->0;
            &&& o.id@ == x.id@ && o.type_@ == x.type_@
            &&& handed(x.width, o.width, o.width_present)
            &&& handed(x.height, o.height, o.height_present)
            &&& handed(x.bytes, o.bytes, o.bytes_present)
        },
{
}

/// The replies to uploads and downloads are handed out.
pub proof fn media_replies_are_handed_out<'a>(
    b: &'a [u8],
    n: usize,
    it: ChunkIter<'a>,
    up: Option<inline_media::UploadFinalReply<'a>>,
    r: Option<UploadFinalReplyOut<'a>>,
    token: Option<&'a [u8]>,
    t: Option<&'a [u8]>,
    down: Option<inline_media::DownloadReply<'a>>,
    d: Option<DownloadReplyOut<'a>>,
)
    requires
        n == b@.len(),
        call_ensures(ChunkIter::over_message, (b, n), it),
        call_ensures(inline_media::parse_upload_final_reply, (it,), up),
        call_ensures(gtkhx_proto_parse_upload_final_reply, (b,), r),
        call_ensures(inline_media::parse_upload_token_reply, (it,), token),
        call_ensures(gtkhx_proto_parse_upload_token_reply, (b,), t),
        call_ensures(inline_media::parse_download_reply, (it,), down),
        call_ensures(gtkhx_proto_parse_download_reply, (b,), d),
    ensures
        r is Some <==> up is Some,
        r matches Some(o) ==> {
            let x = up->0;
            &&& o.id@ == x.media_id@ && o.type_@ == x.media_type@
            &&& handed(x.width, o.width, o.width_present)
            &&& handed(x.height, o.height, o.height_present)
            &&& handed(x.bytes, o.bytes, o.bytes_present)
        },
        t is Some <==> token is Some,
        t matches Some(x) ==> x@ == token->0@,
        d is Some <==> down is Some,
        d matches Some(o) ==> {
            let x = down->0;
            &&& o.payload@ == x.payload@ && o.type_@ == x.media_type@
            &&& o.part_count == x.part_count && o.final_chunk == x.final_chunk
        },
{
}

/// A reason is handed out by its number.
pub proof fn reasons_are_handed_out(
    b: &[u8],
    n: usize,
    it: ChunkIter<'_>,
    code: inline_media::MediaErrorCode,
    number: u16,
    r: u16,
)
    requires
        n == b@.len(),
        call_ensures(ChunkIter::over_message, (b, n), it),
        call_ensures(inline_media::extract_error_code, (it,), code),
        call_ensures(inline_media::MediaErrorCode::as_u16, (code,), number),
        call_ensures(gtkhx_proto_extract_media_error_code, (b,), r),
    ensures
        r == number,
{
}

/// Avatars are handed out, an empty one as none. All of a list are counted, and as many are put into
/// the slots as there are slots.
pub proof fn avatars_are_handed_out<'a>(
    b: &'a [u8],
    n: usize,
    it: ChunkIter<'a>,
    one: Option<gif_icons::IconEntry<'a>>,
    r: Option<IconEntryOut<'a>>,
    uid: Option<u16>,
    u: Option<u16>,
)
    requires
        n == b@.len(),
        call_ensures(ChunkIter::over_message, (b, n), it),
        call_ensures(gif_icons::parse_icon_get_reply, (it,), one),
        call_ensures(gtkhx_proto_parse_icon_get_reply, (b,), r),
        call_ensures(gif_icons::parse_icon_change, (it,), uid),
        call_ensures(gtkhx_proto_parse_icon_change, (b,), u),
    ensures
        r is Some <==> one is Some,
        r matches Some(o) ==> {
            &&& o.uid == one->0.uid
            &&& one->0.gif@.len() == 0 ==> o.gif is None
            &&& one->0.gif@.len() > 0 ==> o.gif is Some && o.gif->0@ == one->0.gif@
        },
        u == uid,
{
}

/// All avatars of a list are counted, and as many are put into the slots as there are slots.
pub proof fn avatars_fill_slots<'a>(
    b: &'a [u8],
    n: usize,
    it: ChunkIter<'a>,
    all: Vec<gif_icons::IconEntry<'a>>,
    out: &mut [IconEntryOut<'a>],
    r: usize,
    i: int,
)
    requires
        n == b@.len(),
        call_ensures(ChunkIter::over_message, (b, n), it),
        call_ensures(gif_icons::parse_icon_list, (it,), all),
        call_ensures(gtkhx_proto_parse_icon_list, (b, out), r),
    ensures
        r == all@.len(),
        final(out)@.len() == old(out)@.len(),
        0 <= i < r && i < old(out)@.len() ==> {
            &&& final(out)@[i].uid == all@[i].uid
            &&& all@[i].gif@.len() == 0 ==> final(out)@[i].gif is None
            &&& all@[i].gif@.len() > 0 ==> final(out)@[i].gif is Some && final(out)@[i].gif->0@
                == all@[i].gif@
        },
        r <= i < old(out)@.len() ==> final(out)@[i] == old(out)@[i],
{
    let views = gif_icons::icon_views(all@);
    assert(views.len() == all@.len());
    if 0 <= i < all@.len() {
        assert(views[i] == all@[i]@);
    }
    if 0 <= i < old(out)@.len() {
        let x = final(out)@[i];
        assert(i < r ==> x.gives(views[i]));
    }
}

/// A date is handed out as 0 and the seconds since 1904, or as 1, the year and the seconds since its
/// start. Without a date nothing changes.
pub proof fn dates_are_handed_out(
    b: &[u8],
    out: &mut GtkhxProtoHlDate,
    r: bool,
    d: Option<HlDate>,
)
    requires
        call_ensures(gtkhx_proto_hl_date_decode, (b, out), r),
        call_ensures(parse_hl_date, (b,), d),
    ensures
        r == d is Some,
        !r ==> *final(out) == *old(out),
        d matches Some(HlDate::Mac1904 { secs }) ==> final(out).kind == 0 && final(out).year == 0
            && final(out).secs == secs,
        d matches Some(HlDate::Modern { year, secs }) ==> final(out).kind == 1 && final(out).year
            == year && final(out).secs == secs,
{
}

/// Offers are written one behind the other, each a name, a tab, the emoji and a line feed, as many
/// as there is room for. What lies behind them stays.
pub proof fn offers_are_written(
    ms: &[(String, String)],
    dst: &mut [u8],
    r: usize,
    fewer: &[(String, String)],
    other: &mut [u8],
    q: usize,
)
    requires
        call_ensures(write_matches, (ms, dst), r),
        call_ensures(write_matches, (fewer, other), q),
        ms@.len() > 0,
        fewer@ == ms@.drop_last(),
        dst@ == other@,
    ensures
        final(dst)@.len() == old(dst)@.len(),
        q < fewer@.len() ==> r == q && final(dst)@ == final(other)@,
        q == fewer@.len() ==> {
            let n = match_lines(emoji::pair_views(fewer@), q as int).len() as int;
            let name = encode_utf8(ms@.last().0@);
            let emoji = encode_utf8(ms@.last().1@);
            let line = name + seq![0x09u8] + emoji + seq![0x0au8];
            &&& n + line.len() <= old(dst)@.len() ==> r == q + 1 && final(dst)@.take(n)
                == final(other)@.take(n) && final(dst)@.subrange(n, n + line.len()) == line
            &&& n + line.len() > old(dst)@.len() ==> r == q && final(dst)@ == final(other)@
        },
{
    let all = emoji::pair_views(ms@);
    let few = emoji::pair_views(fewer@);
    let k = few.len() as int;
    assert(all.drop_last() =~= few);
    lemma_lines_of(all, few, q as int);
    lemma_lines_of(all, few, k);
    assert(all[k] == (ms@.last().0@, ms@.last().1@));
    if q < k {
        lemma_lines_of(all, few, q + 1);
        lemma_lines_grow(all, q + 1, r as int);
        lemma_lines_grow(all, r + 1, q as int);
    } else {
        let n = match_lines(few, k).len() as int;
        let line = match_line(all[k].0, all[k].1);
        assert(match_lines(all, k + 1) == match_lines(all, k) + line);
        if n + line.len() <= old(dst)@.len() {
            lemma_lines_grow(all, r + 1, k + 1);
            assert(r == k + 1);
            assert(final(dst)@.take(n) =~= final(other)@.take(n));
            assert(final(dst)@.subrange(n, n + line.len()) =~= line);
        } else {
            lemma_lines_grow(all, k + 1, r as int);
            lemma_lines_grow(all, r + 1, k);
        }
    }
}

proof fn lemma_lines_of(
    all: Seq<(Seq<char>, Seq<char>)>,
    few: Seq<(Seq<char>, Seq<char>)>,
    k: int,
)
    requires
        0 <= k <= few.len(),
        all.len() > 0,
        all.drop_last() == few,
    ensures
        match_lines(all, k) == match_lines(few, k),
    decreases k,
{
    if k > 0 {
        lemma_lines_of(all, few, k - 1);
        assert(all[k - 1] == few[k - 1]);
    }
}

proof fn lemma_lines_grow(ms: Seq<(Seq<char>, Seq<char>)>, j: int, k: int)
    requires
        0 <= j,
    ensures
        j <= k ==> match_lines(ms, j).len() <= match_lines(ms, k).len(),
    decreases k - j,
{
    if j < k {
        lemma_lines_grow(ms, j, k - 1);
    }
}

/// Without offers nothing is written.
pub proof fn no_offers(ms: &[(String, String)], dst: &mut [u8], r: usize)
    requires
        call_ensures(write_matches, (ms, dst), r),
        ms@.len() == 0,
    ensures
        r == 0 && final(dst)@ == old(dst)@,
{
    assert(final(dst)@ =~= old(dst)@);
}

/// What is offered to who has typed the start of a shortcode is looked up and written as it is
/// elsewhere. What is no text gets no offers, and nothing is written where there is no room.
pub proof fn offers_are_looked_up_and_written(
    table: &EmojiTable,
    prefix: &[u8],
    dst: &mut [u8],
    max: usize,
    r: usize,
    typed: &str,
    ms: Vec<(String, String)>,
    list: &[(String, String)],
    other: &mut [u8],
    n: usize,
)
    requires
        table.wf(),
        call_ensures(gtkhx_proto_shortcode_matches, (table, prefix, dst, max), r),
        typed@ == decode_utf8(prefix@),
        call_ensures(shortcode_matches, (table, typed, max), ms),
        list@ == ms@,
        dst@ == other@,
        call_ensures(write_matches, (list, other), n),
    ensures
        !valid_utf8(prefix@) || old(dst)@.len() == 0 ==> r == 0 && final(dst)@ == old(dst)@,
        valid_utf8(prefix@) && old(dst)@.len() > 0 ==> r == n && final(dst)@ == final(other)@,
{
    if valid_utf8(prefix@) && old(dst)@.len() > 0 {
        let room = old(dst)@.len() as int;
        let all = emoji::pair_views(ms@);
        let found = choose|found: Seq<(Seq<char>, Seq<char>)>|
            #![trigger match_lines(found, r as int)]
            {
                &&& if decode_utf8(prefix@).len() == 0 {
                    found.len() == 0
                } else {
                    emoji::is_best(table.codes(), decode_utf8(prefix@), max as int, found)
                }
                &&& is_fitting(found, room, r as int)
                &&& final(dst)@ == bytes::overwrite(old(dst)@, 0, match_lines(found, r as int))
            };
        if typed@.len() == 0 {
            assert(all =~= found);
        } else {
            emoji::offers_are_determined(table.codes(), typed@, max as int, all, found);
        }
        lemma_lines_grow(all, r + 1, n as int);
        lemma_lines_grow(all, n + 1, r as int);
        assert(r == n);
    }
}

} // verus!
