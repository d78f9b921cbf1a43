//! Video in voice rooms.
//!
//! Video rides on voice: the same room and the same connection. A client starts, stops and pauses
//! what it publishes, its camera or its screen, and tells the server which streams of others it
//! wants. The server tells everyone in the room who publishes what, and states in the reply to a
//! login how much it admits of each kind.
//!
//! The numbers of the fields are those of the server's revision of the extension and come in from
//! outside, as [`VideoTags`].
use crate::bytes;
use crate::bytes::{array_of, get16, get32, put16, put32};
use crate::messages::tag;
use crate::outgoing;
use crate::outgoing::{scratch16, scratch32, HxChunk};
use crate::wire;
use crate::wire::ChunkIter;
use vstd::prelude::*;

verus! {

/// The capability bit for video, as a mask. It is never set without that for voice.
pub const CAP_VIDEO: u64 = 0x0400;

/// The access bit of who may publish a camera.
pub const ACCESS_VIDEO_CHAT: u32 = 59;

/// The access bit of who may publish a screen.
pub const ACCESS_SCREEN_SHARE: u32 = 60;

/// The id of VP8. The ids of video codecs are a number space of their own.
pub const CODEC_VP8: u16 = 0;

/// The payload type of every video section.
pub const VP8_PAYLOAD_TYPE: u8 = 96;

/// The bit in the flags of a publication that says it is paused.
pub const FLAG_PAUSED: u16 = 0x0001;

/// Bytes per publication.
pub const PUBLISHER_STRIDE: usize = 8;

/// Bytes per subscription.
pub const SUBSCRIPTION_STRIDE: usize = 4;

/// Bytes in a limits field. A longer one is accepted, and the rest of it ignored.
pub const LIMITS_LEN: usize = 16;

/// The numbers of the fields of the extension.
#[derive(Debug, Clone, Copy, PartialEq, Eq, Structural)]
pub struct VideoTags {
    pub kind: u16,
    pub paused: u16,
    pub subscriptions: u16,
    pub codec: u16,
    pub publishers: u16,
}

impl VideoTags {
    /// The fields of a reply can be told apart.
    pub open spec fn distinct(self) -> bool {
        &&& self.kind != tag::CHAT_ID
        &&& self.codec != tag::CHAT_ID
        &&& self.publishers != tag::CHAT_ID
        &&& self.kind != self.codec
        &&& self.kind != self.publishers
        &&& self.codec != self.publishers
    }
}

/// What a stream shows. Zero stands for neither, so that a zeroed field is not read as a camera.
#[derive(Debug, Clone, Copy, PartialEq, Eq, Hash, PartialOrd, Ord, Structural)]
pub enum VideoKind {
    Camera,
    Screen,
}

impl VideoKind {
    /// Both kinds, in the order of their numbers.
    pub const ALL: [VideoKind; 2] = [VideoKind::Camera, VideoKind::Screen];

    /// The number on the wire.
    pub open spec fn number(self) -> u16 {
        match self {
            VideoKind::Camera => 1,
            VideoKind::Screen => 2,
        }
    }

    /// The kind that a number stands for.
    pub open spec fn of_number(v: u16) -> Option<VideoKind> {
        if v == 1 {
            Some(VideoKind::Camera)
        } else if v == 2 {
            Some(VideoKind::Screen)
        } else {
            None
        }
    }

    /// The kind that a number stands for. `None` for zero and everything that is not defined.
    pub fn from_wire(v: u16) -> (r: Option<VideoKind>)
        ensures
            r == VideoKind::of_number(v),
    {
        if v == 1 {
            Some(VideoKind::Camera)
        } else if v == 2 {
            Some(VideoKind::Screen)
        } else {
            None
        }
    }

    /// The number on the wire.
    pub fn wire(self) -> (r: u16)
        ensures
            r == self.number(),
    {
        match self {
            VideoKind::Camera => 1,
            VideoKind::Screen => 2,
        }
    }
}

/// A kind is read back from its number, and no other number is read as it.
pub proof fn kind_round_trip(kind: VideoKind, v: u16)
    ensures
        VideoKind::of_number(kind.number()) == Some(kind),
        VideoKind::of_number(v) == Some(kind) ==> v == kind.number(),
{
}

/// A stream that someone publishes, live or paused.
#[derive(Debug, Clone, Copy, PartialEq, Eq, Structural)]
pub struct Publication {
    pub user_id: u16,
    pub kind: VideoKind,
    pub flags: u16,
    pub codec_id: u16,
}

/// The bytes of a publication: user, kind, flags, codec.
pub open spec fn publication_bytes(p: Publication) -> Seq<u8> {
    bytes::be16_bytes(p.user_id) + bytes::be16_bytes(p.kind.number()) + bytes::be16_bytes(p.flags)
        + bytes::be16_bytes(p.codec_id)
}

/// The publication at `at`, if it is of a kind that is defined.
pub open spec fn publication_at(b: Seq<u8>, at: int) -> Option<Publication> {
    match VideoKind::of_number(bytes::be16_at(b, at + 2)) {
        Some(kind) => Some(
            Publication {
                user_id: bytes::be16_at(b, at),
                kind,
                flags: bytes::be16_at(b, at + 4),
                codec_id: bytes::be16_at(b, at + 6),
            },
        ),
        None => None,
    }
}

/// The publications in a list from `at` on. A trailing partial entry is ignored, and so is one of a
/// kind that is not defined.
pub open spec fn publications(b: Seq<u8>, at: int) -> Seq<Publication>
    decreases b.len() - at,
{
    if 0 <= at && at + 8 <= b.len() {
        match publication_at(b, at) {
            Some(p) => seq![p] + publications(b, at + 8),
            None => publications(b, at + 8),
        }
    } else {
        Seq::empty()
    }
}

/// The bytes of a list of publications.
pub open spec fn publications_bytes(ps: Seq<Publication>) -> Seq<u8>
    decreases ps.len(),
{
    if ps.len() == 0 {
        Seq::empty()
    } else {
        publications_bytes(ps.drop_last()) + publication_bytes(ps.last())
    }
}

impl Publication {
    /// The publication is paused: it still holds its place.
    pub fn is_paused(&self) -> (r: bool)
        ensures
            r == (self.flags & FLAG_PAUSED != 0),
    {
        self.flags & FLAG_PAUSED != 0
    }

    /// The bytes of this entry. A list is its entries one after the other.
    pub fn to_bytes(&self) -> (r: [u8; 8])
        ensures
            r@ == publication_bytes(*self),
    {
        let mut out: Vec<u8> = Vec::new();
        put16(&mut out, self.user_id);
        put16(&mut out, self.kind.wire());
        put16(&mut out, self.flags);
        put16(&mut out, self.codec_id);
        assert(out@ =~= publication_bytes(*self));
        array_of::<8>(out.as_slice())
    }
}

proof fn lemma_publication(b: Seq<u8>, at: int, p: Publication)
    requires
        0 <= at,
        at + 8 <= b.len(),
        b.subrange(at, at + 8) == publication_bytes(p),
    ensures
        publication_at(b, at) == Some(p),
{
    let s = b.subrange(at, at + 8);
    assert(b.subrange(at, at + 2) =~= s.subrange(0, 2));
    assert(s.subrange(0, 2) =~= bytes::be16_bytes(p.user_id));
    assert(b.subrange(at + 2, at + 4) =~= s.subrange(2, 4));
    assert(s.subrange(2, 4) =~= bytes::be16_bytes(p.kind.number()));
    assert(b.subrange(at + 4, at + 6) =~= s.subrange(4, 6));
    assert(s.subrange(4, 6) =~= bytes::be16_bytes(p.flags));
    assert(b.subrange(at + 6, at + 8) =~= s.subrange(6, 8));
    assert(s.subrange(6, 8) =~= bytes::be16_bytes(p.codec_id));
    bytes::be16_round_trip(p.user_id, Seq::empty());
    bytes::be16_round_trip(p.kind.number(), Seq::empty());
    bytes::be16_round_trip(p.flags, Seq::empty());
    bytes::be16_round_trip(p.codec_id, Seq::empty());
}

proof fn lemma_publications_len(ps: Seq<Publication>)
    ensures
        publications_bytes(ps).len() == 8 * ps.len(),
    decreases ps.len(),
{
    if ps.len() > 0 {
        lemma_publications_len(ps.drop_last());
    }
}

proof fn lemma_publications_entry(ps: Seq<Publication>, i: int)
    requires
        0 <= i < ps.len(),
    ensures
        publications_bytes(ps).len() == 8 * ps.len(),
        publications_bytes(ps).subrange(8 * i, 8 * i + 8) == publication_bytes(ps[i]),
    decreases ps.len(),
{
    lemma_publications_len(ps);
    lemma_publications_len(ps.drop_last());
    let b = publications_bytes(ps);
    let front = publications_bytes(ps.drop_last());
    if i == ps.len() - 1 {
        assert(b.subrange(8 * i, 8 * i + 8) =~= publication_bytes(ps.last()));
    } else {
        lemma_publications_entry(ps.drop_last(), i);
        assert(b.subrange(8 * i, 8 * i + 8) =~= front.subrange(8 * i, 8 * i + 8));
    }
}

proof fn lemma_publications_from(ps: Seq<Publication>, stray: Seq<u8>, i: int)
    requires
        0 <= i <= ps.len(),
        stray.len() < 8,
    ensures
        publications(publications_bytes(ps) + stray, 8 * i) == ps.skip(i),
    decreases ps.len() - i,
{
    let b = publications_bytes(ps) + stray;
    lemma_publications_len(ps);
    if i < ps.len() {
        lemma_publications_from(ps, stray, i + 1);
        lemma_publications_entry(ps, i);
        assert(b.subrange(8 * i, 8 * i + 8) =~= publications_bytes(ps).subrange(8 * i, 8 * i + 8));
        lemma_publication(b, 8 * i, ps[i]);
        assert(8 * i + 8 == 8 * (i + 1));
        assert(ps.skip(i) =~= seq![ps[i]] + ps.skip(i + 1));
    } else {
        assert(ps.skip(i) =~= Seq::empty());
    }
}

/// A list of publications reads back as what was written, whatever part of an entry trails it.
pub proof fn publications_round_trip(ps: Seq<Publication>, stray: Seq<u8>)
    requires
        stray.len() < 8,
    ensures
        publications(publications_bytes(ps) + stray, 0) == ps,
{
    lemma_publications_from(ps, stray, 0);
    assert(ps.skip(0) =~= ps);
}

proof fn lemma_publications_skip(b: Seq<u8>, at: int)
    requires
        0 <= at <= b.len(),
    ensures
        publications(b, at) == publications(b.skip(at), 0),
    decreases b.len() - at,
{
    let t = b.skip(at);
    if at + 8 <= b.len() {
        lemma_publications_skip(b, at + 8);
        lemma_publications_skip(t, 8);
        assert(t.skip(8) =~= b.skip(at + 8));
        assert(t.subrange(0, 2) =~= b.subrange(at, at + 2));
        assert(t.subrange(2, 4) =~= b.subrange(at + 2, at + 4));
        assert(t.subrange(4, 6) =~= b.subrange(at + 4, at + 6));
        assert(t.subrange(6, 8) =~= b.subrange(at + 6, at + 8));
    }
}

proof fn lemma_publications_split(front: Seq<u8>, back: Seq<u8>)
    requires
        front.len() % 8 == 0,
    ensures
        publications(front + back, 0) == publications(front, 0) + publications(back, 0),
    decreases front.len(),
{
    let b = front + back;
    if front.len() == 0 {
        assert(b =~= back);
        assert(publications(front, 0) + publications(back, 0) =~= publications(back, 0));
    } else {
        let others = front.skip(8);
        lemma_publications_split(others, back);
        lemma_publications_skip(b, 8);
        lemma_publications_skip(front, 8);
        assert(b.skip(8) =~= others + back);
        assert(b.subrange(0, 2) =~= front.subrange(0, 2));
        assert(b.subrange(2, 4) =~= front.subrange(2, 4));
        assert(b.subrange(4, 6) =~= front.subrange(4, 6));
        assert(b.subrange(6, 8) =~= front.subrange(6, 8));
        assert(publications(b, 0) =~= publications(front, 0) + publications(back, 0));
    }
}

/// An entry of a kind that is not defined changes nothing, wherever in the list it stands.
pub proof fn undefined_kind_changes_nothing(front: Seq<u8>, entry: Seq<u8>, back: Seq<u8>)
    requires
        front.len() % 8 == 0,
        entry.len() == 8,
        VideoKind::of_number(bytes::be16_at(entry, 2)) is None,
    ensures
        publications(front + entry + back, 0) == publications(front + back, 0),
{
    lemma_publications_split(front, back);
    lemma_publications_split(front + entry, back);
    lemma_publications_split(front, entry);
    assert(publications(entry, 8) =~= Seq::<Publication>::empty());
    assert(publications(entry, 0) =~= Seq::<Publication>::empty());
    assert(publications(front, 0) + Seq::<Publication>::empty() =~= publications(front, 0));
}

/// The publications in a list: entries of eight bytes. A trailing partial entry is ignored, and so
/// is one of a kind that is not defined.
pub fn parse_video_publishers(blob: &[u8]) -> (r: Vec<Publication>)
    ensures
        r@ == publications(blob@, 0),
{
    let mut out: Vec<Publication> = Vec::new();
    let mut at: usize = 0;
    while blob.len() - at >= PUBLISHER_STRIDE
        invariant
            at <= blob@.len(),
            out@ + publications(blob@, at as int) == publications(blob@, 0),
        decreases blob@.len() - at,
    {
        let ghost before = out@;
        if let Some(kind) = VideoKind::from_wire(get16(blob, at + 2)) {
            let p = Publication {
                user_id: get16(blob, at),
                kind,
                flags: get16(blob, at + 4),
                codec_id: get16(blob, at + 6),
            };
            out.push(p);
            assert(out@ + publications(blob@, at + 8) =~= before + (seq![p] + publications(
                blob@,
                at + 8,
            )));
        }
        at = at + PUBLISHER_STRIDE;
    }
    assert(out@ + publications(blob@, at as int) =~= out@);
    out
}

/// A stream that a client wants to receive.
#[derive(Debug, Clone, Copy, PartialEq, Eq, Hash, PartialOrd, Ord, Structural)]
pub struct Stream {
    pub user_id: u16,
    pub kind: VideoKind,
}

/// The bytes of a subscription: user, kind.
pub open spec fn stream_bytes(s: Stream) -> Seq<u8> {
    bytes::be16_bytes(s.user_id) + bytes::be16_bytes(s.kind.number())
}

/// The subscription at `at`, if it is of a kind that is defined.
pub open spec fn stream_at(b: Seq<u8>, at: int) -> Option<Stream> {
    match VideoKind::of_number(bytes::be16_at(b, at + 2)) {
        Some(kind) => Some(Stream { user_id: bytes::be16_at(b, at), kind }),
        None => None,
    }
}

/// The subscriptions in a list from `at` on. A trailing partial entry is ignored, and so is one of
/// a kind that is not defined.
pub open spec fn streams_from(b: Seq<u8>, at: int) -> Seq<Stream>
    decreases b.len() - at,
{
    if 0 <= at && at + 4 <= b.len() {
        match stream_at(b, at) {
            Some(s) => seq![s] + streams_from(b, at + 4),
            None => streams_from(b, at + 4),
        }
    } else {
        Seq::empty()
    }
}

/// The bytes of a list of subscriptions.
pub open spec fn streams_bytes(streams: Seq<Stream>) -> Seq<u8>
    decreases streams.len(),
{
    if streams.len() == 0 {
        Seq::empty()
    } else {
        streams_bytes(streams.drop_last()) + stream_bytes(streams.last())
    }
}

proof fn lemma_stream(b: Seq<u8>, at: int, s: Stream)
    requires
        0 <= at,
        at + 4 <= b.len(),
        b.subrange(at, at + 4) == stream_bytes(s),
    ensures
        stream_at(b, at) == Some(s),
{
    let e = b.subrange(at, at + 4);
    assert(b.subrange(at, at + 2) =~= e.subrange(0, 2));
    assert(e.subrange(0, 2) =~= bytes::be16_bytes(s.user_id));
    assert(b.subrange(at + 2, at + 4) =~= e.subrange(2, 4));
    assert(e.subrange(2, 4) =~= bytes::be16_bytes(s.kind.number()));
    bytes::be16_round_trip(s.user_id, Seq::empty());
    bytes::be16_round_trip(s.kind.number(), Seq::empty());
}

proof fn lemma_streams_len(streams: Seq<Stream>)
    ensures
        streams_bytes(streams).len() == 4 * streams.len(),
    decreases streams.len(),
{
    if streams.len() > 0 {
        lemma_streams_len(streams.drop_last());
    }
}

proof fn lemma_streams_entry(streams: Seq<Stream>, i: int)
    requires
        0 <= i < streams.len(),
    ensures
        streams_bytes(streams).len() == 4 * streams.len(),
        streams_bytes(streams).subrange(4 * i, 4 * i + 4) == stream_bytes(streams[i]),
    decreases streams.len(),
{
    lemma_streams_len(streams);
    lemma_streams_len(streams.drop_last());
    let b = streams_bytes(streams);
    let front = streams_bytes(streams.drop_last());
    if i == streams.len() - 1 {
        assert(b.subrange(4 * i, 4 * i + 4) =~= stream_bytes(streams.last()));
    } else {
        lemma_streams_entry(streams.drop_last(), i);
        assert(b.subrange(4 * i, 4 * i + 4) =~= front.subrange(4 * i, 4 * i + 4));
    }
}

proof fn lemma_streams_from(streams: Seq<Stream>, stray: Seq<u8>, i: int)
    requires
        0 <= i <= streams.len(),
        stray.len() < 4,
    ensures
        streams_from(streams_bytes(streams) + stray, 4 * i) == streams.skip(i),
    decreases streams.len() - i,
{
    let b = streams_bytes(streams) + stray;
    lemma_streams_len(streams);
    if i < streams.len() {
        lemma_streams_from(streams, stray, i + 1);
        lemma_streams_entry(streams, i);
        assert(b.subrange(4 * i, 4 * i + 4) =~= streams_bytes(streams).subrange(4 * i, 4 * i + 4));
        lemma_stream(b, 4 * i, streams[i]);
        assert(4 * i + 4 == 4 * (i + 1));
        assert(streams.skip(i) =~= seq![streams[i]] + streams.skip(i + 1));
    } else {
        assert(streams.skip(i) =~= Seq::empty());
    }
}

/// A list of subscriptions reads back as what was written, whatever part of an entry trails it.
pub proof fn subscriptions_round_trip(streams: Seq<Stream>, stray: Seq<u8>)
    requires
        stray.len() < 4,
    ensures
        streams_from(streams_bytes(streams) + stray, 0) == streams,
{
    lemma_streams_from(streams, stray, 0);
    assert(streams.skip(0) =~= streams);
}

/// The subscriptions in a list: entries of four bytes. A trailing partial entry is ignored, and so
/// is one of a kind that is not defined.
pub fn parse_video_subscriptions(blob: &[u8]) -> (r: Vec<Stream>)
    ensures
        r@ == streams_from(blob@, 0),
{
    let mut out: Vec<Stream> = Vec::new();
    let mut at: usize = 0;
    while blob.len() - at >= SUBSCRIPTION_STRIDE
        invariant
            at <= blob@.len(),
            out@ + streams_from(blob@, at as int) == streams_from(blob@, 0),
        decreases blob@.len() - at,
    {
        let ghost before = out@;
        if let Some(kind) = VideoKind::from_wire(get16(blob, at + 2)) {
            let s = Stream { user_id: get16(blob, at), kind };
            out.push(s);
            assert(out@ + streams_from(blob@, at + 4) =~= before + (seq![s] + streams_from(
                blob@,
                at + 4,
            )));
        }
        at = at + SUBSCRIPTION_STRIDE;
    }
    assert(out@ + streams_from(blob@, at as int) =~= out@);
    out
}

/// How much the server admits of one kind.
#[derive(Debug, Clone, Copy, PartialEq, Eq, Structural)]
pub struct Limits {
    pub kind: VideoKind,
    pub max_width: u16,
    pub max_height: u16,
    pub max_fps: u16,
    /// Bits per second.
    pub max_bitrate: u32,
    /// Publications of this kind per room.
    pub max_per_room: u16,
}

/// The bytes of a limits field; the last two are reserved.
pub open spec fn limits_bytes(l: Limits) -> Seq<u8> {
    bytes::be16_bytes(l.kind.number()) + bytes::be16_bytes(l.max_width) + bytes::be16_bytes(
        l.max_height,
    ) + bytes::be16_bytes(l.max_fps) + bytes::be32_bytes(l.max_bitrate) + bytes::be16_bytes(
        l.max_per_room,
    ) + seq![0u8, 0]
}

/// The limits that a field states.
pub open spec fn limits_of(b: Seq<u8>) -> Option<Limits> {
    if b.len() < 16 {
        None
    } else {
        match VideoKind::of_number(bytes::be16_at(b, 0)) {
            Some(kind) => Some(
                Limits {
                    kind,
                    max_width: bytes::be16_at(b, 2),
                    max_height: bytes::be16_at(b, 4),
                    max_fps: bytes::be16_at(b, 6),
                    max_bitrate: bytes::be32_at(b, 8),
                    max_per_room: bytes::be16_at(b, 12),
                },
            ),
            None => None,
        }
    }
}

/// Limits read back as what was written, whatever a later revision adds behind them.
pub proof fn limits_round_trip(l: Limits, later: Seq<u8>)
    ensures
        limits_bytes(l).len() == 16,
        limits_of(limits_bytes(l) + later) == Some(l),
{
    let b = limits_bytes(l) + later;
    bytes::be32_round_trip(l.max_bitrate, Seq::empty());
    assert(b.subrange(0, 2) =~= bytes::be16_bytes(l.kind.number()));
    assert(b.subrange(2, 4) =~= bytes::be16_bytes(l.max_width));
    assert(b.subrange(4, 6) =~= bytes::be16_bytes(l.max_height));
    assert(b.subrange(6, 8) =~= bytes::be16_bytes(l.max_fps));
    assert(b.subrange(8, 12) =~= bytes::be32_bytes(l.max_bitrate));
    assert(b.subrange(12, 14) =~= bytes::be16_bytes(l.max_per_room));
    bytes::be16_round_trip(l.kind.number(), Seq::empty());
    bytes::be16_round_trip(l.max_width, Seq::empty());
    bytes::be16_round_trip(l.max_height, Seq::empty());
    bytes::be16_round_trip(l.max_fps, Seq::empty());
    bytes::be16_round_trip(l.max_per_room, Seq::empty());
}

impl Limits {
    /// Decodes a field. `None` if it is too short or of a kind that is not defined; what follows
    /// the sixteenth byte is ignored.
    pub fn parse(data: &[u8]) -> (r: Option<Limits>)
        ensures
            r == limits_of(data@),
    {
        if data.len() < LIMITS_LEN {
            return None;
        }
        Some(
            Limits {
                kind: VideoKind::from_wire(get16(data, 0))?,
                max_width: get16(data, 2),
                max_height: get16(data, 4),
                max_fps: get16(data, 6),
                max_bitrate: get32(data, 8),
                max_per_room: get16(data, 12),
            },
        )
    }

    /// The bytes of the field.
    pub fn to_bytes(&self) -> (r: [u8; 16])
        ensures
            r@ == limits_bytes(*self),
    {
        let mut out: Vec<u8> = Vec::new();
        put16(&mut out, self.kind.wire());
        put16(&mut out, self.max_width);
        put16(&mut out, self.max_height);
        put16(&mut out, self.max_fps);
        put32(&mut out, self.max_bitrate);
        put16(&mut out, self.max_per_room);
        put16(&mut out, 0);
        proof {
            bytes::be32_round_trip(self.max_bitrate, Seq::empty());
            assert(bytes::be16_bytes(0) =~= seq![0u8, 0]);
            assert(out@ =~= limits_bytes(*self));
        }
        array_of::<16>(out.as_slice())
    }
}

/// Builds the chunks that start publishing: room and kind.
pub fn build_video_start_chunks(
    tags: &VideoTags,
    cid: u32,
    kind: VideoKind,
    chunks: &mut [HxChunk<'_>],
    scratch: &mut [u8],
) -> (r: usize)
    ensures
        outgoing::built(
            old(chunks)@.len() >= 2 && old(scratch)@.len() >= 6,
            old(chunks)@,
            final(chunks)@,
            old(scratch)@,
            final(scratch)@,
            r as int,
            bytes::be32_bytes(cid) + bytes::be16_bytes(kind.number()),
            seq![
                outgoing::field(tag::CHAT_ID, bytes::be32_bytes(cid)),
                outgoing::field(tags.kind, bytes::be16_bytes(kind.number())),
            ],
        ),
{
    if chunks.len() < 2 || scratch.len() < 6 {
        return 0;
    }
    scratch32(scratch, 0, cid);
    scratch16(scratch, 4, kind.wire());
    chunks[0] = HxChunk::in_scratch(tag::CHAT_ID, 0, 4);
    chunks[1] = HxChunk::in_scratch(tags.kind, 4, 2);
    proof {
        bytes::be32_round_trip(cid, Seq::empty());
        let room = bytes::be32_bytes(cid);
        let number = bytes::be16_bytes(kind.number());
        let fixed = room + number;
        assert(scratch@ =~= bytes::overwrite(old(scratch)@, 0, fixed));
        assert(fixed.subrange(0, 4) =~= room);
        assert(fixed.subrange(4, 6) =~= number);
        outgoing::lemma_scratch_chunk(chunks@[0], old(scratch)@, fixed, 0, room);
        outgoing::lemma_scratch_chunk(chunks@[1], old(scratch)@, fixed, 4, number);
        assert(chunks@.skip(2) =~= old(chunks)@.skip(2));
    }
    2
}

/// What a kind, if one is given, adds to the scratch buffer.
pub open spec fn kind_bytes(kind: Option<VideoKind>) -> Seq<u8> {
    match kind {
        Some(k) => bytes::be16_bytes(k.number()),
        None => seq![],
    }
}

/// The field of a kind, if one is given.
pub open spec fn kind_fields(tags: VideoTags, kind: Option<VideoKind>) -> Seq<wire::ChunkView> {
    match kind {
        Some(k) => seq![outgoing::field(tags.kind, bytes::be16_bytes(k.number()))],
        None => seq![],
    }
}

/// Builds the chunks that stop publishing: the room, and the kind if one is given. Without a kind,
/// everything that the client publishes in the room stops.
pub fn build_video_stop_chunks(
    tags: &VideoTags,
    cid: u32,
    kind: Option<VideoKind>,
    chunks: &mut [HxChunk<'_>],
    scratch: &mut [u8],
) -> (r: usize)
    ensures
        outgoing::built(
            old(chunks)@.len() >= 1 + kind_fields(*tags, kind).len() && old(scratch)@.len() >= 6,
            old(chunks)@,
            final(chunks)@,
            old(scratch)@,
            final(scratch)@,
            r as int,
            bytes::be32_bytes(cid) + kind_bytes(kind),
            seq![outgoing::field(tag::CHAT_ID, bytes::be32_bytes(cid))] + kind_fields(*tags, kind),
        ),
{
    let need: usize = if kind.is_some() {
        2
    } else {
        1
    };
    if chunks.len() < need || scratch.len() < 6 {
        return 0;
    }
    scratch32(scratch, 0, cid);
    chunks[0] = HxChunk::in_scratch(tag::CHAT_ID, 0, 4);
    if let Some(k) = kind {
        scratch16(scratch, 4, k.wire());
        chunks[1] = HxChunk::in_scratch(tags.kind, 4, 2);
    }
    proof {
        bytes::be32_round_trip(cid, Seq::empty());
        let room = bytes::be32_bytes(cid);
        let number = kind_bytes(kind);
        let fixed = room + number;
        assert(scratch@ =~= bytes::overwrite(old(scratch)@, 0, fixed));
        assert(fixed.subrange(0, 4) =~= room);
        outgoing::lemma_scratch_chunk(chunks@[0], old(scratch)@, fixed, 0, room);
        if kind is Some {
            assert(fixed.subrange(4, 6) =~= number);
            outgoing::lemma_scratch_chunk(chunks@[1], old(scratch)@, fixed, 4, number);
        }
        assert(chunks@.skip(need as int) =~= old(chunks)@.skip(need as int));
    }
    need
}

/// A truth value as a number.
pub open spec fn word(b: bool) -> u16 {
    if b {
        1
    } else {
        0
    }
}

/// Builds the chunks that pause or resume a publication: room, kind, and whether it is paused.
pub fn build_video_state_chunks(
    tags: &VideoTags,
    cid: u32,
    kind: VideoKind,
    paused: bool,
    chunks: &mut [HxChunk<'_>],
    scratch: &mut [u8],
) -> (r: usize)
    ensures
        outgoing::built(
            old(chunks)@.len() >= 3 && old(scratch)@.len() >= 8,
            old(chunks)@,
            final(chunks)@,
            old(scratch)@,
            final(scratch)@,
            r as int,
            bytes::be32_bytes(cid) + bytes::be16_bytes(kind.number()) + bytes::be16_bytes(
                word(paused),
            ),
            seq![
                outgoing::field(tag::CHAT_ID, bytes::be32_bytes(cid)),
                outgoing::field(tags.kind, bytes::be16_bytes(kind.number())),
                outgoing::field(tags.paused, bytes::be16_bytes(word(paused))),
            ],
        ),
{
    if chunks.len() < 3 || scratch.len() < 8 {
        return 0;
    }
    let state: u16 = if paused {
        1
    } else {
        0
    };
    scratch32(scratch, 0, cid);
    scratch16(scratch, 4, kind.wire());
    scratch16(scratch, 6, state);
    chunks[0] = HxChunk::in_scratch(tag::CHAT_ID, 0, 4);
    chunks[1] = HxChunk::in_scratch(tags.kind, 4, 2);
    chunks[2] = HxChunk::in_scratch(tags.paused, 6, 2);
    proof {
        bytes::be32_round_trip(cid, Seq::empty());
        let room = bytes::be32_bytes(cid);
        let number = bytes::be16_bytes(kind.number());
        let flag = bytes::be16_bytes(word(paused));
        let fixed = room + number + flag;
        assert(scratch@ =~= bytes::overwrite(old(scratch)@, 0, fixed));
        assert(fixed.subrange(0, 4) =~= room);
        assert(fixed.subrange(4, 6) =~= number);
        assert(fixed.subrange(6, 8) =~= flag);
        outgoing::lemma_scratch_chunk(chunks@[0], old(scratch)@, fixed, 0, room);
        outgoing::lemma_scratch_chunk(chunks@[1], old(scratch)@, fixed, 4, number);
        outgoing::lemma_scratch_chunk(chunks@[2], old(scratch)@, fixed, 6, flag);
        assert(chunks@.skip(3) =~= old(chunks)@.skip(3));
    }
    3
}

/// How many bytes of scratch [`build_video_subscribe_chunks`] needs for `n` streams.
pub fn video_subscribe_scratch_len(n: usize) -> (r: usize)
    requires
        4 + 4 * n <= usize::MAX,
    ensures
        r == 4 + 4 * n,
{
    4 + n * SUBSCRIPTION_STRIDE
}

/// Builds the chunks that subscribe to streams: the room, and all that the client wants. An empty
/// list is sent as an empty field. A list that one field cannot hold is rejected.
pub fn build_video_subscribe_chunks(
    tags: &VideoTags,
    cid: u32,
    streams: &[Stream],
    chunks: &mut [HxChunk<'_>],
    scratch: &mut [u8],
) -> (r: usize)
    ensures
        outgoing::built(
            old(chunks)@.len() >= 2 && 4 * streams@.len() <= u16::MAX && old(scratch)@.len() >= 4
                + 4 * streams@.len(),
            old(chunks)@,
            final(chunks)@,
            old(scratch)@,
            final(scratch)@,
            r as int,
            bytes::be32_bytes(cid) + streams_bytes(streams@),
            seq![
                outgoing::field(tag::CHAT_ID, bytes::be32_bytes(cid)),
                outgoing::field(tags.subscriptions, streams_bytes(streams@)),
            ],
        ),
{
    if chunks.len() < 2 || streams.len() > u16::MAX as usize / SUBSCRIPTION_STRIDE || scratch.len()
        < video_subscribe_scratch_len(streams.len()) {
        return 0;
    }
    let ghost room = bytes::be32_bytes(cid);
    proof {
        bytes::be32_round_trip(cid, Seq::empty());
        lemma_streams_len(streams@);
        assert(streams@.take(0) =~= Seq::<Stream>::empty());
    }
    scratch32(scratch, 0, cid);
    assert(scratch@ =~= bytes::overwrite(old(scratch)@, 0, room + streams_bytes(streams@.take(0))));
    let mut i: usize = 0;
    while i < streams.len()
        invariant
            i <= streams@.len(),
            4 * streams@.len() <= u16::MAX,
            room.len() == 4,
            old(scratch)@.len() >= 4 + 4 * streams@.len(),
            scratch@.len() == old(scratch)@.len(),
            scratch@ == bytes::overwrite(
                old(scratch)@,
                0,
                room + streams_bytes(streams@.take(i as int)),
            ),
        decreases streams@.len() - i,
    {
        let s = streams[i];
        proof {
            lemma_streams_len(streams@.take(i as int));
            assert(streams@.take(i + 1).drop_last() =~= streams@.take(i as int));
        }
        let at: usize = 4 + i * SUBSCRIPTION_STRIDE;
        scratch16(scratch, at, s.user_id);
        scratch16(scratch, at + 2, s.kind.wire());
        i = i + 1;
        assert(scratch@ =~= bytes::overwrite(
            old(scratch)@,
            0,
            room + streams_bytes(streams@.take(i as int)),
        ));
    }
    chunks[0] = HxChunk::in_scratch(tag::CHAT_ID, 0, 4);
    chunks[1] = HxChunk::in_scratch(
        tags.subscriptions,
        4,
        (streams.len() * SUBSCRIPTION_STRIDE) as u16,
    );
    proof {
        assert(streams@.take(streams@.len() as int) =~= streams@);
        let list = streams_bytes(streams@);
        let fixed = room + list;
        assert(fixed.subrange(0, 4) =~= room);
        assert(fixed.subrange(4, 4 + list.len() as int) =~= list);
        outgoing::lemma_scratch_chunk(chunks@[0], old(scratch)@, fixed, 0, room);
        outgoing::lemma_scratch_chunk(chunks@[1], old(scratch)@, fixed, 4, list);
        assert(chunks@.skip(2) =~= old(chunks)@.skip(2));
    }
    2
}

/// The fields of a notification, or of the reply to a start. Fields that are absent are `None`.
#[derive(Debug, Clone, Copy, PartialEq, Eq)]
pub struct VideoReply<'a> {
    pub cid: u32,
    pub kind: Option<u16>,
    pub codec: Option<&'a [u8]>,
    pub publishers: Option<&'a [u8]>,
}

impl<'a> Default for VideoReply<'a> {
    fn default() -> (r: Self)
        ensures
            forall|tags: VideoTags| #[trigger] r.is_reply(tags, Seq::empty()),
    {
        VideoReply { cid: 0, kind: None, codec: None, publishers: None }
    }
}

impl<'a> VideoReply<'a> {
    /// Each field comes from the last chunk that carries it. A kind that is not two bytes wide is
    /// malformed, and counts as absent.
    pub open spec fn is_reply(&self, tags: VideoTags, chunks: Seq<wire::ChunkView>) -> bool {
        &&& self.cid == wire::last_uint(chunks, tag::CHAT_ID)
        &&& self.kind == wire::exact16(wire::last_with(chunks, tags.kind))
        &&& wire::opt_view(self.codec) == wire::last_with(chunks, tags.codec)
        &&& wire::opt_view(self.publishers) == wire::last_with(chunks, tags.publishers)
    }
}

/// Parses the body of a notification, or of the reply to a start. Unknown fields are ignored.
pub fn parse_video_reply<'a>(tags: &VideoTags, buf: &'a [u8], len: usize) -> (r: VideoReply<'a>)
    requires
        tags.distinct(),
    ensures
        r.is_reply(*tags, wire::message_chunks(buf@, len as int)),
{
    let mut out = VideoReply::default();
    let mut it = ChunkIter::over_message(buf, len);
    let ghost all = it.rest();
    let ghost mut n: int = 0;
    proof {
        assert(all.take(0) =~= Seq::<wire::ChunkView>::empty());
        assert(all.skip(0) =~= all);
        assert(out.is_reply(*tags, Seq::empty()));
    }
    loop
        invariant
            tags.distinct(),
            0 <= n <= all.len(),
            it.rest() == all.skip(n),
            out.is_reply(*tags, all.take(n)),
        ensures
            n == all.len(),
        decreases all.len() - n,
    {
        let chunk = match it.next() {
            Some(c) => c,
            None => {
                break ;
            },
        };
        proof {
            wire::lemma_walk_step(all, n, chunk@);
            n = n + 1;
        }
        if chunk.tag == tag::CHAT_ID {
            out.cid = chunk.as_uint();
        } else if chunk.tag == tags.kind {
            if chunk.data.len() == 2 {
                assert(chunk.data@.subrange(0, 2) =~= chunk.data@);
                out.kind = Some(get16(chunk.data, 0));
            } else {
                out.kind = None;
            }
        } else if chunk.tag == tags.codec {
            out.codec = Some(chunk.data);
        } else if chunk.tag == tags.publishers {
            out.publishers = Some(chunk.data);
        }
    }
    assert(all.take(n) =~= all);
    out
}

// ---------------------------------------------------------------------------------------------
// What every call does, in numbers.
// ---------------------------------------------------------------------------------------------
/// A camera is 1, a screen is 2, and other numbers are neither.
pub proof fn kinds_have_numbers(v: u16, r: Option<VideoKind>, kind: VideoKind, w: u16)
    requires
        call_ensures(VideoKind::from_wire, (v,), r),
        call_ensures(VideoKind::wire, (kind,), w),
    ensures
        r == Some(VideoKind::Camera) <==> v == 1,
        r == Some(VideoKind::Screen) <==> v == 2,
        kind is Camera ==> w == 1,
        kind is Screen ==> w == 2,
{
}

/// A publication takes eight bytes: user, kind, flags and codec. The lowest flag says that it is
/// paused.
pub proof fn publications_take_eight_bytes(p: Publication, b: [u8; 8], paused: bool)
    requires
        call_ensures(Publication::to_bytes, (&p,), b),
        call_ensures(Publication::is_paused, (&p,), paused),
    ensures
        bytes::be16_at(b@, 0) == p.user_id,
        p.kind is Camera ==> bytes::be16_at(b@, 2) == 1,
        p.kind is Screen ==> bytes::be16_at(b@, 2) == 2,
        bytes::be16_at(b@, 4) == p.flags,
        bytes::be16_at(b@, 6) == p.codec_id,
        paused == (p.flags % 2 == 1),
{
    bytes::be16_round_trip(p.user_id, Seq::empty());
    bytes::be16_round_trip(p.kind.number(), Seq::empty());
    bytes::be16_round_trip(p.flags, Seq::empty());
    bytes::be16_round_trip(p.codec_id, Seq::empty());
    assert(b@.subrange(0, 2) =~= bytes::be16_bytes(p.user_id));
    assert(b@.subrange(2, 4) =~= bytes::be16_bytes(p.kind.number()));
    assert(b@.subrange(4, 6) =~= bytes::be16_bytes(p.flags));
    assert(b@.subrange(6, 8) =~= bytes::be16_bytes(p.codec_id));
    let f = p.flags;
    assert(f & 1u16 != 0 <==> f % 2 == 1) by (bit_vector);
}

/// A list of publications is read eight bytes at a time: one that is a camera or a screen comes
/// first, and behind it what the rest gives; one that is neither is passed over. Fewer than eight
/// bytes give nothing.
pub proof fn publications_are_read_in_order(
    b: &[u8],
    rest: &[u8],
    r: Vec<Publication>,
    q: Vec<Publication>,
)
    requires
        call_ensures(parse_video_publishers, (b,), r),
        call_ensures(parse_video_publishers, (rest,), q),
    ensures
        b@.len() < 8 ==> r@.len() == 0,
        b@.len() >= 8 && rest@ == b@.skip(8) ==> {
            let kind = bytes::be16_at(b@, 2);
            let of = |k: VideoKind|
                Publication {
                    user_id: bytes::be16_at(b@, 0),
                    kind: k,
                    flags: bytes::be16_at(b@, 4),
                    codec_id: bytes::be16_at(b@, 6),
                };
            &&& kind == 1 ==> r@ == seq![of(VideoKind::Camera)] + q@
            &&& kind == 2 ==> r@ == seq![of(VideoKind::Screen)] + q@
            &&& kind != 1 && kind != 2 ==> r@ == q@
        },
{
    if b@.len() >= 8 && rest@ == b@.skip(8) {
        lemma_publications_skip(b@, 8);
    }
}

proof fn lemma_streams_skip(b: Seq<u8>, at: int)
    requires
        0 <= at <= b.len(),
    ensures
        streams_from(b, at) == streams_from(b.skip(at), 0),
    decreases b.len() - at,
{
    let t = b.skip(at);
    if at + 4 <= b.len() {
        lemma_streams_skip(b, at + 4);
        lemma_streams_skip(t, 4);
        assert(t.skip(4) =~= b.skip(at + 4));
        assert(t.subrange(0, 2) =~= b.subrange(at, at + 2));
        assert(t.subrange(2, 4) =~= b.subrange(at + 2, at + 4));
    }
}

/// A list of subscriptions is read four bytes at a time, user and kind: one that is a camera or a
/// screen comes first, and behind it what the rest gives; one that is neither is passed over. Fewer
/// than four bytes give nothing.
pub proof fn subscriptions_are_read_in_order(
    b: &[u8],
    rest: &[u8],
    r: Vec<Stream>,
    q: Vec<Stream>,
)
    requires
        call_ensures(parse_video_subscriptions, (b,), r),
        call_ensures(parse_video_subscriptions, (rest,), q),
    ensures
        b@.len() < 4 ==> r@.len() == 0,
        b@.len() >= 4 && rest@ == b@.skip(4) ==> {
            let kind = bytes::be16_at(b@, 2);
            let of = |k: VideoKind| Stream { user_id: bytes::be16_at(b@, 0), kind: k };
            &&& kind == 1 ==> r@ == seq![of(VideoKind::Camera)] + q@
            &&& kind == 2 ==> r@ == seq![of(VideoKind::Screen)] + q@
            &&& kind != 1 && kind != 2 ==> r@ == q@
        },
{
    if b@.len() >= 4 && rest@ == b@.skip(4) {
        lemma_streams_skip(b@, 4);
    }
}

/// Limits are read from sixteen bytes: kind, width, height, frames per second, bits per second in
/// four bytes, and publications per room. They must be of a camera or a screen.
pub proof fn limits_are_read(b: &[u8], r: Option<Limits>)
    requires
        call_ensures(Limits::parse, (b,), r),
    ensures
        r is Some <==> b@.len() >= 16 && (bytes::be16_at(b@, 0) == 1 || bytes::be16_at(b@, 0) == 2),
        r matches Some(l) ==> {
            &&& l.kind is Camera <==> bytes::be16_at(b@, 0) == 1
            &&& l.kind is Screen <==> bytes::be16_at(b@, 0) == 2
            &&& l.max_width == bytes::be16_at(b@, 2)
            &&& l.max_height == bytes::be16_at(b@, 4)
            &&& l.max_fps == bytes::be16_at(b@, 6)
            &&& l.max_bitrate == bytes::be32_at(b@, 8)
            &&& l.max_per_room == bytes::be16_at(b@, 12)
        },
{
}

/// Limits are written where they are read, and the last two bytes are zero.
pub proof fn limits_are_written(l: Limits, b: [u8; 16], slice: &[u8], r: Option<Limits>)
    requires
        call_ensures(Limits::to_bytes, (&l,), b),
        slice@ == b@,
        call_ensures(Limits::parse, (slice,), r),
    ensures
        r == Some(l),
        b@[14] == 0 && b@[15] == 0,
{
    bytes::be16_round_trip(l.max_width, Seq::empty());
    bytes::be32_round_trip(l.max_bitrate, Seq::empty());
    limits_round_trip(l, Seq::empty());
    assert(limits_bytes(l) + Seq::<u8>::empty() =~= b@);
}

/// Publishing names the room and says what is shown.
pub proof fn start_says_what_is_shown<'a>(
    tags: &VideoTags,
    cid: u32,
    kind: VideoKind,
    chunks: &mut [HxChunk<'a>],
    scratch: &mut [u8],
    r: usize,
)
    requires
        call_ensures(build_video_start_chunks, (tags, cid, kind, chunks, scratch), r),
    ensures
        ({
            let c = final(chunks)@;
            let s = final(scratch)@;
            let room = old(chunks)@.len() >= 2
                && old(scratch)@.len() >= 6;
            &&& c.len() == old(chunks)@.len()
            &&& !room ==> r == 0 && c == old(chunks)@ && s == old(scratch)@
            &&& room ==> r == 2
            &&& room ==> c[0].valid(s) && c[0].sent(s).tag == 0x72 && c[0].sent(
                s,
            ).data == bytes::be32_bytes(cid)
            &&& room ==> c[1].valid(s) && c[1].sent(s).tag == tags.kind && c[1].sent(
                s,
            ).data == bytes::be16_bytes(if kind is Camera { 1u16 } else { 2u16 })
            &&& room ==> forall|i: int| r <= i < c.len() ==> #[trigger] c[i] == old(chunks)@[i]
        }),
{
    let c = final(chunks)@;
    assert forall|i: int| r <= i < c.len() && c.skip(r as int) == old(chunks)@.skip(
        r as int,
    ) implies #[trigger] c[i] == old(chunks)@[i] by {
        assert(c[i] == c.skip(r as int)[i - r]);
        assert(old(chunks)@[i] == old(chunks)@.skip(r as int)[i - r]);
    }
}

/// Ending names the room, and says what is no longer shown if it is not everything.
pub proof fn stop_may_say_what<'a>(
    tags: &VideoTags,
    cid: u32,
    kind: Option<VideoKind>,
    chunks: &mut [HxChunk<'a>],
    scratch: &mut [u8],
    r: usize,
)
    requires
        call_ensures(build_video_stop_chunks, (tags, cid, kind, chunks, scratch), r),
    ensures
        ({
            let c = final(chunks)@;
            let s = final(scratch)@;
            let room = old(chunks)@.len() >= 1
                && old(scratch)@.len() >= 6
                && (kind is Some ==> old(chunks)@.len() >= 2);
            let n1 = if kind is Some {
                1 + 1int
            } else {
                1 + 0int
            };
            &&& c.len() == old(chunks)@.len()
            &&& !room ==> r == 0 && c == old(chunks)@ && s == old(scratch)@
            &&& room ==> r == n1
            &&& room ==> c[0].valid(s) && c[0].sent(s).tag == 0x72 && c[0].sent(
                s,
            ).data == bytes::be32_bytes(cid)
            &&& room && kind is Some ==> c[1].valid(s) && c[1].sent(s).tag == tags.kind && c[1].sent(
                s,
            ).data == bytes::be16_bytes(if kind->0 is Camera { 1u16 } else { 2u16 })
            &&& room ==> forall|i: int| r <= i < c.len() ==> #[trigger] c[i] == old(chunks)@[i]
        }),
{
    let c = final(chunks)@;
    assert forall|i: int| r <= i < c.len() && c.skip(r as int) == old(chunks)@.skip(
        r as int,
    ) implies #[trigger] c[i] == old(chunks)@[i] by {
        assert(c[i] == c.skip(r as int)[i - r]);
        assert(old(chunks)@[i] == old(chunks)@.skip(r as int)[i - r]);
    }
}

/// Pausing names the room, says what is shown, and 1 for paused or 0 for not.
pub proof fn state_says_paused<'a>(
    tags: &VideoTags,
    cid: u32,
    kind: VideoKind,
    paused: bool,
    chunks: &mut [HxChunk<'a>],
    scratch: &mut [u8],
    r: usize,
)
    requires
        call_ensures(build_video_state_chunks, (tags, cid, kind, paused, chunks, scratch), r),
    ensures
        ({
            let c = final(chunks)@;
            let s = final(scratch)@;
            let room = old(chunks)@.len() >= 3
                && old(scratch)@.len() >= 8;
            &&& c.len() == old(chunks)@.len()
            &&& !room ==> r == 0 && c == old(chunks)@ && s == old(scratch)@
            &&& room ==> r == 3
            &&& room ==> c[0].valid(s) && c[0].sent(s).tag == 0x72 && c[0].sent(
                s,
            ).data == bytes::be32_bytes(cid)
            &&& room ==> c[1].valid(s) && c[1].sent(s).tag == tags.kind && c[1].sent(
                s,
            ).data == bytes::be16_bytes(if kind is Camera { 1u16 } else { 2u16 })
            &&& room ==> c[2].valid(s) && c[2].sent(s).tag == tags.paused && c[2].sent(
                s,
            ).data == bytes::be16_bytes(if paused { 1u16 } else { 0u16 })
            &&& room ==> forall|i: int| r <= i < c.len() ==> #[trigger] c[i] == old(chunks)@[i]
        }),
{
    let c = final(chunks)@;
    assert forall|i: int| r <= i < c.len() && c.skip(r as int) == old(chunks)@.skip(
        r as int,
    ) implies #[trigger] c[i] == old(chunks)@[i] by {
        assert(c[i] == c.skip(r as int)[i - r]);
        assert(old(chunks)@[i] == old(chunks)@.skip(r as int)[i - r]);
    }
}

/// Subscribing names the room and carries four bytes for each stream.
pub proof fn subscribe_carries_streams<'a>(
    tags: &VideoTags,
    cid: u32,
    streams: &[Stream],
    chunks: &mut [HxChunk<'a>],
    scratch: &mut [u8],
    r: usize,
)
    requires
        call_ensures(build_video_subscribe_chunks, (tags, cid, streams, chunks, scratch), r),
    ensures
        ({
            let c = final(chunks)@;
            let s = final(scratch)@;
            let room = old(chunks)@.len() >= 2
                && old(scratch)@.len() >= 4
                && 4 * streams@.len() <= 0xffff
                && old(scratch)@.len() >= 4 + 4 * streams@.len();
            &&& c.len() == old(chunks)@.len()
            &&& !room ==> r == 0 && c == old(chunks)@ && s == old(scratch)@
            &&& room ==> r == 2
            &&& room ==> c[0].valid(s) && c[0].sent(s).tag == 0x72 && c[0].sent(
                s,
            ).data == bytes::be32_bytes(cid)
            &&& room ==> c[1].valid(s) && c[1].sent(s).tag == tags.subscriptions && c[1].sent(
                s,
            ).data == streams_bytes(streams@)
            &&& room ==> forall|i: int| r <= i < c.len() ==> #[trigger] c[i] == old(chunks)@[i]
        }),
{
    let c = final(chunks)@;
    assert forall|i: int| r <= i < c.len() && c.skip(r as int) == old(chunks)@.skip(
        r as int,
    ) implies #[trigger] c[i] == old(chunks)@[i] by {
        assert(c[i] == c.skip(r as int)[i - r]);
        assert(old(chunks)@[i] == old(chunks)@.skip(r as int)[i - r]);
    }
}

/// Each stream of a subscription takes four bytes: the user and 1 for a camera or 2 for a screen.
pub proof fn streams_take_four_bytes(streams: Seq<Stream>, i: int, n: usize, r: usize)
    requires
        0 <= i < streams.len(),
        4 + 4 * n <= usize::MAX,
        call_ensures(video_subscribe_scratch_len, (n,), r),
    ensures
        streams_bytes(streams).len() == 4 * streams.len(),
        bytes::be16_at(streams_bytes(streams), 4 * i) == streams[i].user_id,
        bytes::be16_at(streams_bytes(streams), 4 * i + 2) == (if streams[i].kind is Camera {
            1int
        } else {
            2
        }),
        r == 4 + 4 * n,
{
    lemma_streams_entry(streams, i);
    let b = streams_bytes(streams);
    let s = streams[i];
    bytes::be16_round_trip(s.user_id, Seq::empty());
    bytes::be16_round_trip(s.kind.number(), Seq::empty());
    let e = b.subrange(4 * i, 4 * i + 4);
    assert(b.subrange(4 * i, 4 * i + 2) =~= e.subrange(0, 2));
    assert(b.subrange(4 * i + 2, 4 * i + 4) =~= e.subrange(2, 4));
    assert(e.subrange(0, 2) =~= bytes::be16_bytes(s.user_id));
    assert(e.subrange(2, 4) =~= bytes::be16_bytes(s.kind.number()));
}

/// Which field of a reply comes from where: each from the last chunk with its tag. A kind has to
/// have two bytes.
pub proof fn reply_fields_have_their_tags(
    tags: &VideoTags,
    b: &[u8],
    len: usize,
    it: ChunkIter<'_>,
    r: VideoReply<'_>,
)
    requires
        tags.distinct(),
        call_ensures(ChunkIter::over_message, (b, len), it),
        call_ensures(parse_video_reply, (tags, b, len), r),
    ensures
        r.cid == wire::last_uint(it.rest(), 0x72),
        r.kind is Some <==> wire::last_with(it.rest(), tags.kind) is Some && wire::last_with(
            it.rest(),
            tags.kind,
        )->0.len() == 2,
        r.kind matches Some(k) ==> k == bytes::be16_at(
            wire::last_with(it.rest(), tags.kind)->0,
            0,
        ),
        r.codec is None <==> wire::last_with(it.rest(), tags.codec) is None,
        r.codec matches Some(d) ==> wire::last_with(it.rest(), tags.codec) == Some(d@),
        r.publishers is None <==> wire::last_with(it.rest(), tags.publishers) is None,
        r.publishers matches Some(d) ==> wire::last_with(it.rest(), tags.publishers) == Some(d@),
{
    if let Some(d) = wire::last_with(it.rest(), tags.kind) {
        if d.len() == 2 {
            assert(d.subrange(0, 2) =~= d);
        }
    }
}

} // verus!
