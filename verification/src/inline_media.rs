//! Inline media: images that travel with a chat line.
//!
//! An image is uploaded in one chunk or in several; the server answers the last one with a handle,
//! which a chat line then carries together with the type of the image. Whoever sees the line
//! fetches the bytes behind the handle, again in one chunk or in several.
use crate::bytes;
use crate::bytes::{get16, get32};
use crate::messages::tag;
use crate::outgoing;
use crate::outgoing::{scratch16, HxChunk};
use crate::wire;
use crate::wire::{Chunk, ChunkIter};
use vstd::prelude::*;

verus! {

// ---------------------------------------------------------------------------------------------
// Error codes.
// ---------------------------------------------------------------------------------------------
/// Why a medium was refused. The text of the error remains what is displayed.
#[derive(Debug, Clone, Copy, PartialEq, Eq, Structural)]
pub enum MediaErrorCode {
    /// No other code applies.
    Generic,
    /// Size, dimensions, pixel count, frame count or duration exceed a cap of the server.
    PayloadTooLarge,
    /// The bytes are of no format that the server takes.
    UnsupportedFormat,
    /// A rate or volume cap was hit.
    RateLimited,
    /// The sender or the recipient may not, or the handle has expired.
    NotAuthorized,
    /// The server has no resources for it now.
    ServerBusy,
}

impl MediaErrorCode {
    /// The code on the wire.
    pub open spec fn wire(self) -> u16 {
        match self {
            MediaErrorCode::Generic => 0,
            MediaErrorCode::PayloadTooLarge => 1,
            MediaErrorCode::UnsupportedFormat => 2,
            MediaErrorCode::RateLimited => 3,
            MediaErrorCode::NotAuthorized => 4,
            MediaErrorCode::ServerBusy => 5,
        }
    }

    /// The code that a value stands for; an unknown value is a generic error.
    pub open spec fn of_wire(v: u16) -> MediaErrorCode {
        if v == 1 {
            MediaErrorCode::PayloadTooLarge
        } else if v == 2 {
            MediaErrorCode::UnsupportedFormat
        } else if v == 3 {
            MediaErrorCode::RateLimited
        } else if v == 4 {
            MediaErrorCode::NotAuthorized
        } else if v == 5 {
            MediaErrorCode::ServerBusy
        } else {
            MediaErrorCode::Generic
        }
    }

    /// The code that a value stands for; an unknown value is a generic error.
    pub fn from_u16(v: u16) -> (r: MediaErrorCode)
        ensures
            r == MediaErrorCode::of_wire(v),
    {
        if v == 1 {
            MediaErrorCode::PayloadTooLarge
        } else if v == 2 {
            MediaErrorCode::UnsupportedFormat
        } else if v == 3 {
            MediaErrorCode::RateLimited
        } else if v == 4 {
            MediaErrorCode::NotAuthorized
        } else if v == 5 {
            MediaErrorCode::ServerBusy
        } else {
            MediaErrorCode::Generic
        }
    }

    /// The code on the wire.
    pub fn as_u16(self) -> (r: u16)
        ensures
            r == self.wire(),
    {
        match self {
            MediaErrorCode::Generic => 0,
            MediaErrorCode::PayloadTooLarge => 1,
            MediaErrorCode::UnsupportedFormat => 2,
            MediaErrorCode::RateLimited => 3,
            MediaErrorCode::NotAuthorized => 4,
            MediaErrorCode::ServerBusy => 5,
        }
    }
}

/// A code survives the wire, and every value that is no code is read as a generic error.
pub proof fn error_code_round_trip(code: MediaErrorCode, v: u16)
    ensures
        MediaErrorCode::of_wire(code.wire()) == code,
        v > 5 ==> MediaErrorCode::of_wire(v) == MediaErrorCode::Generic,
        MediaErrorCode::of_wire(v).wire() == (if v <= 5 {
            v
        } else {
            0
        }),
{
}

// ---------------------------------------------------------------------------------------------
// Limits that the server advertises.
// ---------------------------------------------------------------------------------------------
/// The limits in the reply to a login. A field is `None` where the server did not advertise it.
#[derive(Debug, Clone, Copy, PartialEq, Eq, Structural)]
pub struct LimitsAdvertisement {
    pub max_bytes: Option<u32>,
    pub max_dimension: Option<u32>,
    pub max_pixels: Option<u32>,
    pub chunk_size: Option<u32>,
    pub max_frames: Option<u32>,
    pub max_duration_ms: Option<u32>,
}

impl Default for LimitsAdvertisement {
    fn default() -> (r: Self)
        ensures
            r == no_limits(),
    {
        LimitsAdvertisement {
            max_bytes: None,
            max_dimension: None,
            max_pixels: None,
            chunk_size: None,
            max_frames: None,
            max_duration_ms: None,
        }
    }
}

/// The advertisement in which nothing is set.
pub open spec fn no_limits() -> LimitsAdvertisement {
    LimitsAdvertisement {
        max_bytes: None,
        max_dimension: None,
        max_pixels: None,
        chunk_size: None,
        max_frames: None,
        max_duration_ms: None,
    }
}

/// The `u32` in the last chunk that has this tag and four bytes.
pub open spec fn limit_of(chunks: Seq<wire::ChunkView>, tag: u16) -> Option<u32> {
    wire::exact32(wire::last_sized(chunks, tag, 4))
}

/// The limits that the chunks advertise. A field of the wrong width counts as absent.
pub open spec fn limits_of(chunks: Seq<wire::ChunkView>) -> LimitsAdvertisement {
    LimitsAdvertisement {
        max_bytes: limit_of(chunks, tag::CHAT_MEDIA_MAX_BYTES),
        max_dimension: limit_of(chunks, tag::CHAT_MEDIA_MAX_DIMENSION),
        max_pixels: limit_of(chunks, tag::CHAT_MEDIA_MAX_PIXELS),
        chunk_size: limit_of(chunks, tag::CHAT_MEDIA_CHUNK_SIZE),
        max_frames: limit_of(chunks, tag::CHAT_MEDIA_MAX_FRAMES),
        max_duration_ms: limit_of(chunks, tag::CHAT_MEDIA_MAX_DURATION_MS),
    }
}

impl LimitsAdvertisement {
    /// The advertisement in which nothing is set.
    pub fn empty() -> (r: LimitsAdvertisement)
        ensures
            r == no_limits(),
    {
        LimitsAdvertisement::default()
    }

    /// True if any field is set.
    pub fn any(&self) -> (r: bool)
        ensures
            r == (*self != no_limits()),
    {
        self.max_bytes.is_some()
            || self.max_dimension.is_some()
            || self.max_pixels.is_some()
            || self.chunk_size.is_some()
            || self.max_frames.is_some()
            || self.max_duration_ms.is_some()
    }
}

/// The limits that the body of a reply to a login advertises. Other fields are ignored.
pub fn extract_limits_from_message(body: &[u8], body_len: usize) -> (r: LimitsAdvertisement)
    ensures
        r == limits_of(wire::message_chunks(body@, body_len as int)),
{
    extract_limits(ChunkIter::over_message(body, body_len))
}

/// The limits that the chunks advertise.
pub fn extract_limits<'a>(chunks: ChunkIter<'a>) -> (r: LimitsAdvertisement)
    ensures
        r == limits_of(chunks.rest()),
{
    let mut out = LimitsAdvertisement::default();
    let mut it = chunks;
    let ghost all = it.rest();
    let ghost mut n: int = 0;
    proof {
        assert(all.take(0) =~= Seq::<wire::ChunkView>::empty());
        assert(all.skip(0) =~= all);
    }
    loop
        invariant
            0 <= n <= all.len(),
            it.rest() == all.skip(n),
            out == limits_of(all.take(n)),
        ensures
            n == all.len(),
        decreases all.len() - n,
    {
        let c = match it.next() {
            Some(c) => c,
            None => {
                break ;
            },
        };
        proof {
            wire::lemma_walk_step(all, n, c@);
            n = n + 1;
        }
        if c.tag == tag::CHAT_MEDIA_MAX_BYTES {
            if let Some(v) = u32_from_chunk(&c) {
                out.max_bytes = Some(v);
            }
        } else if c.tag == tag::CHAT_MEDIA_MAX_DIMENSION {
            if let Some(v) = u32_from_chunk(&c) {
                out.max_dimension = Some(v);
            }
        } else if c.tag == tag::CHAT_MEDIA_MAX_PIXELS {
            if let Some(v) = u32_from_chunk(&c) {
                out.max_pixels = Some(v);
            }
        } else if c.tag == tag::CHAT_MEDIA_CHUNK_SIZE {
            if let Some(v) = u32_from_chunk(&c) {
                out.chunk_size = Some(v);
            }
        } else if c.tag == tag::CHAT_MEDIA_MAX_FRAMES {
            if let Some(v) = u32_from_chunk(&c) {
                out.max_frames = Some(v);
            }
        } else if c.tag == tag::CHAT_MEDIA_MAX_DURATION_MS {
            if let Some(v) = u32_from_chunk(&c) {
                out.max_duration_ms = Some(v);
            }
        }
    }
    assert(all.take(n) =~= all);
    out
}

fn u32_from_chunk(c: &Chunk<'_>) -> (r: Option<u32>)
    ensures
        r == wire::exact32(Some(c.data@)),
{
    if c.data.len() != 4 {
        return None;
    }
    assert(c.data@.subrange(0, 4) =~= c.data@);
    Some(get32(c.data, 0))
}

fn u16_from_chunk(c: &Chunk<'_>) -> (r: Option<u16>)
    ensures
        r == wire::exact16(Some(c.data@)),
{
    if c.data.len() != 2 {
        return None;
    }
    assert(c.data@.subrange(0, 2) =~= c.data@);
    Some(get16(c.data, 0))
}

// ---------------------------------------------------------------------------------------------
// What a chat line carries.
// ---------------------------------------------------------------------------------------------
/// The medium that an incoming chat line carries. Width, height and size are hints.
#[derive(Debug, Clone, Copy, PartialEq, Eq)]
pub struct ChatMediaMeta<'a> {
    /// The handle.
    pub id: &'a [u8],
    /// The MIME type, as the server found it.
    pub type_: &'a [u8],
    pub width: Option<u32>,
    pub height: Option<u32>,
    pub bytes: Option<u32>,
}

/// Why the media fields of a chat line cannot be used.
#[derive(Debug, Clone, Copy, PartialEq, Eq, Structural)]
pub enum MediaMetaError {
    /// Of handle and type exactly one was there.
    OnlyOnePresent,
}

/// The `u32` in the last chunk with this tag, if that one has four bytes.
pub open spec fn hint_of(chunks: Seq<wire::ChunkView>, tag: u16) -> Option<u32> {
    wire::exact32(wire::last_with(chunks, tag))
}

/// Extracts the media fields of a chat line. Either handle and type are both there, or neither.
pub fn extract_chat_media_meta<'a>(chunks: ChunkIter<'a>) -> (r: Result<
    Option<ChatMediaMeta<'a>>,
    MediaMetaError,
>)
    ensures
        ({
            let id = wire::last_with(chunks.rest(), tag::CHAT_MEDIA_ID);
            let type_ = wire::last_with(chunks.rest(), tag::CHAT_MEDIA_TYPE);
            match r {
                Ok(Some(m)) => {
                    &&& id == Some(m.id@)
                    &&& type_ == Some(m.type_@)
                    &&& m.width == hint_of(chunks.rest(), tag::CHAT_MEDIA_WIDTH)
                    &&& m.height == hint_of(chunks.rest(), tag::CHAT_MEDIA_HEIGHT)
                    &&& m.bytes == hint_of(chunks.rest(), tag::CHAT_MEDIA_BYTES)
                },
                Ok(None) => id is None && type_ is None,
                Err(e) => id is Some != type_ is Some && e == MediaMetaError::OnlyOnePresent,
            }
        }),
{
    let mut id: Option<&'a [u8]> = None;
    let mut type_: Option<&'a [u8]> = None;
    let mut width: Option<u32> = None;
    let mut height: Option<u32> = None;
    let mut bytes: Option<u32> = None;
    let mut it = chunks;
    let ghost all = it.rest();
    let ghost mut n: int = 0;
    proof {
        assert(all.take(0) =~= Seq::<wire::ChunkView>::empty());
        assert(all.skip(0) =~= all);
    }
    loop
        invariant
            0 <= n <= all.len(),
            it.rest() == all.skip(n),
            wire::opt_view(id) == wire::last_with(all.take(n), tag::CHAT_MEDIA_ID),
            wire::opt_view(type_) == wire::last_with(all.take(n), tag::CHAT_MEDIA_TYPE),
            width == hint_of(all.take(n), tag::CHAT_MEDIA_WIDTH),
            height == hint_of(all.take(n), tag::CHAT_MEDIA_HEIGHT),
            bytes == hint_of(all.take(n), tag::CHAT_MEDIA_BYTES),
        ensures
            n == all.len(),
        decreases all.len() - n,
    {
        let c = match it.next() {
            Some(c) => c,
            None => {
                break ;
            },
        };
        proof {
            wire::lemma_walk_step(all, n, c@);
            n = n + 1;
        }
        if c.tag == tag::CHAT_MEDIA_ID {
            id = Some(c.data);
        } else if c.tag == tag::CHAT_MEDIA_TYPE {
            type_ = Some(c.data);
        } else if c.tag == tag::CHAT_MEDIA_WIDTH {
            width = u32_from_chunk(&c);
        } else if c.tag == tag::CHAT_MEDIA_HEIGHT {
            height = u32_from_chunk(&c);
        } else if c.tag == tag::CHAT_MEDIA_BYTES {
            bytes = u32_from_chunk(&c);
        }
    }
    assert(all.take(n) =~= all);
    match (id, type_) {
        (Some(id), Some(type_)) => Ok(Some(ChatMediaMeta { id, type_, width, height, bytes })),
        (None, None) => Ok(None),
        _ => Err(MediaMetaError::OnlyOnePresent),
    }
}

// ---------------------------------------------------------------------------------------------
// Uploads.
// ---------------------------------------------------------------------------------------------
/// An upload in one chunk.
pub struct UploadMediaSingle<'a> {
    /// The image bytes; not empty.
    pub payload: &'a [u8],
    /// The MIME type that the sender claims. An empty one counts as none.
    pub declared_type: Option<&'a [u8]>,
}

/// A payload that fits one chunk: not empty, and of a length of at most sixteen bits.
pub open spec fn fits_chunk(data: Seq<u8>) -> bool {
    0 < data.len() <= u16::MAX
}

/// The declared type does not exceed what a chunk can carry.
pub open spec fn declared_fits(declared: Option<&[u8]>) -> bool {
    match declared {
        Some(d) => d@.len() <= u16::MAX,
        None => true,
    }
}

/// The chunk for the declared type: none where it is absent or empty.
pub open spec fn declared_fields(declared: Option<&[u8]>) -> Seq<wire::ChunkView> {
    match declared {
        Some(d) => if d@.len() > 0 {
            seq![outgoing::field(tag::CHAT_MEDIA_DECLARED_TYPE, d@)]
        } else {
            seq![]
        },
        None => seq![],
    }
}

/// Builds the chunks of an upload in one chunk: the payload, the declared type if there is one, and
/// the mark of the last chunk.
pub fn build_upload_media_single_chunks<'a>(
    req: &UploadMediaSingle<'a>,
    chunks: &mut [HxChunk<'a>],
    scratch: &mut [u8],
) -> (r: usize)
    ensures
        outgoing::built(
            old(chunks)@.len() >= 3 && old(scratch)@.len() >= 1 && fits_chunk(req.payload@)
                && declared_fits(req.declared_type),
            old(chunks)@,
            final(chunks)@,
            old(scratch)@,
            final(scratch)@,
            r as int,
            seq![1u8],
            seq![outgoing::field(tag::CHAT_MEDIA_PAYLOAD, req.payload@)] + declared_fields(
                req.declared_type,
            ) + seq![outgoing::field(tag::CHAT_MEDIA_PART_FINAL, seq![1u8])],
        ),
{
    if chunks.len() < 3 || scratch.len() < 1 {
        return 0;
    }
    if req.payload.is_empty() || req.payload.len() > u16::MAX as usize {
        return 0;
    }
    let ghost expected = seq![outgoing::field(tag::CHAT_MEDIA_PAYLOAD, req.payload@)]
        + declared_fields(req.declared_type) + seq![
        outgoing::field(tag::CHAT_MEDIA_PART_FINAL, seq![1u8]),
    ];
    let mut n: usize = 1;
    if let Some(d) = req.declared_type {
        if d.len() > u16::MAX as usize {
            return 0;
        }
        if d.len() > 0 {
            chunks[1] = HxChunk::of_bytes(tag::CHAT_MEDIA_DECLARED_TYPE, d);
            n = 2;
        }
    }
    chunks[0] = HxChunk::of_bytes(tag::CHAT_MEDIA_PAYLOAD, req.payload);
    scratch[0] = 1;
    chunks[n] = HxChunk::in_scratch(tag::CHAT_MEDIA_PART_FINAL, 0, 1);
    proof {
        let fixed = seq![1u8];
        assert(scratch@ =~= bytes::overwrite(old(scratch)@, 0, fixed));
        assert(fixed.subrange(0, 1) =~= fixed);
        outgoing::lemma_scratch_chunk(chunks@[n as int], old(scratch)@, fixed, 0, fixed);
        assert(chunks@.skip(n + 1) =~= old(chunks)@.skip(n + 1));
        assert(expected.len() == n + 1);
    }
    n + 1
}

/// The first chunk of an upload in several.
pub struct UploadMediaFirst<'a> {
    /// The bytes of this chunk.
    pub payload: &'a [u8],
    /// The MIME type that the sender claims.
    pub declared_type: Option<&'a [u8]>,
    /// How many chunks there will be.
    pub part_count: u16,
}

/// Builds the first chunk of an upload in several: the payload, the declared type if there is one,
/// index zero, the number of chunks, and the mark that more follow. With fewer than two chunks it
/// would be an upload in one.
pub fn build_upload_media_first_chunks<'a>(
    req: &UploadMediaFirst<'a>,
    chunks: &mut [HxChunk<'a>],
    scratch: &mut [u8],
) -> (r: usize)
    ensures
        outgoing::built(
            old(chunks)@.len() >= 5 && old(scratch)@.len() >= 5 && fits_chunk(req.payload@)
                && declared_fits(req.declared_type) && req.part_count >= 2,
            old(chunks)@,
            final(chunks)@,
            old(scratch)@,
            final(scratch)@,
            r as int,
            bytes::be16_bytes(0) + bytes::be16_bytes(req.part_count) + seq![0u8],
            seq![outgoing::field(tag::CHAT_MEDIA_PAYLOAD, req.payload@)] + declared_fields(
                req.declared_type,
            ) + seq![
                outgoing::field(tag::CHAT_MEDIA_PART_INDEX, bytes::be16_bytes(0)),
                outgoing::field(tag::CHAT_MEDIA_PART_COUNT, bytes::be16_bytes(req.part_count)),
                outgoing::field(tag::CHAT_MEDIA_PART_FINAL, seq![0u8]),
            ],
        ),
{
    if chunks.len() < 5 || scratch.len() < 5 {
        return 0;
    }
    if req.payload.is_empty() || req.payload.len() > u16::MAX as usize {
        return 0;
    }
    if req.part_count < 2 {
        return 0;
    }
    let ghost expected = seq![outgoing::field(tag::CHAT_MEDIA_PAYLOAD, req.payload@)]
        + declared_fields(req.declared_type) + seq![
        outgoing::field(tag::CHAT_MEDIA_PART_INDEX, bytes::be16_bytes(0)),
        outgoing::field(tag::CHAT_MEDIA_PART_COUNT, bytes::be16_bytes(req.part_count)),
        outgoing::field(tag::CHAT_MEDIA_PART_FINAL, seq![0u8]),
    ];
    let mut n: usize = 1;
    if let Some(d) = req.declared_type {
        if d.len() > u16::MAX as usize {
            return 0;
        }
        if d.len() > 0 {
            chunks[1] = HxChunk::of_bytes(tag::CHAT_MEDIA_DECLARED_TYPE, d);
            n = 2;
        }
    }
    chunks[0] = HxChunk::of_bytes(tag::CHAT_MEDIA_PAYLOAD, req.payload);
    scratch16(scratch, 0, 0);
    scratch16(scratch, 2, req.part_count);
    scratch[4] = 0;
    chunks[n] = HxChunk::in_scratch(tag::CHAT_MEDIA_PART_INDEX, 0, 2);
    chunks[n + 1] = HxChunk::in_scratch(tag::CHAT_MEDIA_PART_COUNT, 2, 2);
    chunks[n + 2] = HxChunk::in_scratch(tag::CHAT_MEDIA_PART_FINAL, 4, 1);
    proof {
        let index = bytes::be16_bytes(0);
        let count = bytes::be16_bytes(req.part_count);
        let last = seq![0u8];
        let fixed = index + count + last;
        assert(scratch@ =~= bytes::overwrite(old(scratch)@, 0, fixed));
        assert(fixed.subrange(0, 2) =~= index);
        assert(fixed.subrange(2, 4) =~= count);
        assert(fixed.subrange(4, 5) =~= last);
        outgoing::lemma_scratch_chunk(chunks@[n as int], old(scratch)@, fixed, 0, index);
        outgoing::lemma_scratch_chunk(chunks@[n + 1], old(scratch)@, fixed, 2, count);
        outgoing::lemma_scratch_chunk(chunks@[n + 2], old(scratch)@, fixed, 4, last);
        assert(chunks@.skip(n + 3) =~= old(chunks)@.skip(n + 3));
        assert(expected.len() == n + 3);
    }
    n + 3
}

/// A later chunk of an upload in several.
pub struct UploadMediaFollowup<'a> {
    /// The token from the reply to the first chunk; not empty.
    pub upload_token: &'a [u8],
    /// The bytes of this chunk.
    pub payload: &'a [u8],
    /// The index of this chunk; at least one.
    pub part_index: u16,
    /// This is the last chunk.
    pub final_chunk: bool,
}

/// Zero or one.
pub open spec fn bit(b: bool) -> u8 {
    if b {
        1
    } else {
        0
    }
}

/// Builds a later chunk of an upload in several: the token, the index, the payload, and whether it
/// is the last.
pub fn build_upload_media_followup_chunks<'a>(
    req: &UploadMediaFollowup<'a>,
    chunks: &mut [HxChunk<'a>],
    scratch: &mut [u8],
) -> (r: usize)
    ensures
        outgoing::built(
            old(chunks)@.len() >= 4 && old(scratch)@.len() >= 3 && fits_chunk(req.upload_token@)
                && fits_chunk(req.payload@) && req.part_index != 0,
            old(chunks)@,
            final(chunks)@,
            old(scratch)@,
            final(scratch)@,
            r as int,
            bytes::be16_bytes(req.part_index) + seq![bit(req.final_chunk)],
            seq![
                outgoing::field(tag::CHAT_MEDIA_UPLOAD_TOKEN, req.upload_token@),
                outgoing::field(tag::CHAT_MEDIA_PART_INDEX, bytes::be16_bytes(req.part_index)),
                outgoing::field(tag::CHAT_MEDIA_PAYLOAD, req.payload@),
                outgoing::field(tag::CHAT_MEDIA_PART_FINAL, seq![bit(req.final_chunk)]),
            ],
        ),
{
    if chunks.len() < 4 || scratch.len() < 3 {
        return 0;
    }
    if req.upload_token.is_empty() || req.upload_token.len() > u16::MAX as usize {
        return 0;
    }
    if req.payload.is_empty() || req.payload.len() > u16::MAX as usize {
        return 0;
    }
    if req.part_index == 0 {
        return 0;
    }
    scratch16(scratch, 0, req.part_index);
    scratch[2] = if req.final_chunk {
        1
    } else {
        0
    };
    chunks[0] = HxChunk::of_bytes(tag::CHAT_MEDIA_UPLOAD_TOKEN, req.upload_token);
    chunks[1] = HxChunk::in_scratch(tag::CHAT_MEDIA_PART_INDEX, 0, 2);
    chunks[2] = HxChunk::of_bytes(tag::CHAT_MEDIA_PAYLOAD, req.payload);
    chunks[3] = HxChunk::in_scratch(tag::CHAT_MEDIA_PART_FINAL, 2, 1);
    proof {
        let index = bytes::be16_bytes(req.part_index);
        let last = seq![bit(req.final_chunk)];
        let fixed = index + last;
        assert(scratch@ =~= bytes::overwrite(old(scratch)@, 0, fixed));
        assert(fixed.subrange(0, 2) =~= index);
        assert(fixed.subrange(2, 3) =~= last);
        outgoing::lemma_scratch_chunk(chunks@[1], old(scratch)@, fixed, 0, index);
        outgoing::lemma_scratch_chunk(chunks@[3], old(scratch)@, fixed, 2, last);
        assert(chunks@.skip(4) =~= old(chunks)@.skip(4));
    }
    4
}

// ---------------------------------------------------------------------------------------------
// Downloads.
// ---------------------------------------------------------------------------------------------
/// A request for the bytes behind a handle.
pub struct DownloadMedia<'a> {
    /// The handle; not empty.
    pub media_id: &'a [u8],
    /// The index of the chunk to fetch; `None` on the first request.
    pub part_index: Option<u16>,
}

/// The chunk for the index, if there is one.
pub open spec fn index_fields(part_index: Option<u16>) -> Seq<wire::ChunkView> {
    match part_index {
        Some(i) => seq![outgoing::field(tag::CHAT_MEDIA_PART_INDEX, bytes::be16_bytes(i))],
        None => seq![],
    }
}

/// What the index leaves in the scratch buffer.
pub open spec fn index_bytes(part_index: Option<u16>) -> Seq<u8> {
    match part_index {
        Some(i) => bytes::be16_bytes(i),
        None => seq![],
    }
}

/// Builds the chunks that fetch a medium: the handle, and the index of the chunk if there is one.
/// Where there is room for the handle but not for the index, the result is zero and the first chunk
/// holds the handle.
pub fn build_download_media_chunks<'a>(
    req: &DownloadMedia<'a>,
    chunks: &mut [HxChunk<'a>],
    scratch: &mut [u8],
) -> (r: usize)
    ensures
        ({
            let asked = old(chunks)@.len() >= 1 && fits_chunk(req.media_id@);
            let room = old(chunks)@.len() >= 2 && old(scratch)@.len() >= 2;
            if asked && req.part_index is Some && !room {
                &&& r == 0
                &&& outgoing::sends(
                    final(chunks)@,
                    1,
                    final(scratch)@,
                    seq![outgoing::field(tag::CHAT_MEDIA_ID, req.media_id@)],
                )
                &&& final(chunks)@.len() == old(chunks)@.len()
                &&& final(chunks)@.skip(1) == old(chunks)@.skip(1)
                &&& final(scratch)@ == old(scratch)@
            } else {
                outgoing::built(
                    asked,
                    old(chunks)@,
                    final(chunks)@,
                    old(scratch)@,
                    final(scratch)@,
                    r as int,
                    index_bytes(req.part_index),
                    seq![outgoing::field(tag::CHAT_MEDIA_ID, req.media_id@)] + index_fields(
                        req.part_index,
                    ),
                )
            }
        }),
{
    if chunks.len() < 1 {
        return 0;
    }
    if req.media_id.is_empty() || req.media_id.len() > u16::MAX as usize {
        return 0;
    }
    chunks[0] = HxChunk::of_bytes(tag::CHAT_MEDIA_ID, req.media_id);
    assert(chunks@.skip(1) =~= old(chunks)@.skip(1));
    if let Some(idx) = req.part_index {
        if chunks.len() < 2 || scratch.len() < 2 {
            return 0;
        }
        scratch16(scratch, 0, idx);
        chunks[1] = HxChunk::in_scratch(tag::CHAT_MEDIA_PART_INDEX, 0, 2);
        proof {
            let fixed = bytes::be16_bytes(idx);
            assert(fixed.subrange(0, 2) =~= fixed);
            outgoing::lemma_scratch_chunk(chunks@[1], old(scratch)@, fixed, 0, fixed);
            assert(chunks@.skip(2) =~= old(chunks)@.skip(2));
        }
        return 2;
    }
    assert(scratch@ =~= bytes::overwrite(old(scratch)@, 0, seq![]));
    1
}

// ---------------------------------------------------------------------------------------------
// Replies.
// ---------------------------------------------------------------------------------------------
/// The reply to the last chunk of an upload.
#[derive(Debug, Clone, Copy, PartialEq, Eq)]
pub struct UploadFinalReply<'a> {
    /// The handle.
    pub media_id: &'a [u8],
    /// The MIME type, as the server found it.
    pub media_type: &'a [u8],
    pub width: Option<u32>,
    pub height: Option<u32>,
    pub bytes: Option<u32>,
}

/// Parses the reply to the last chunk of an upload. `None` if handle or type is missing.
pub fn parse_upload_final_reply<'a>(chunks: ChunkIter<'a>) -> (r: Option<UploadFinalReply<'a>>)
    ensures
        ({
            let id = wire::last_with(chunks.rest(), tag::CHAT_MEDIA_ID);
            let type_ = wire::last_with(chunks.rest(), tag::CHAT_MEDIA_TYPE);
            match r {
                Some(m) => {
                    &&& id == Some(m.media_id@)
                    &&& type_ == Some(m.media_type@)
                    &&& m.width == hint_of(chunks.rest(), tag::CHAT_MEDIA_WIDTH)
                    &&& m.height == hint_of(chunks.rest(), tag::CHAT_MEDIA_HEIGHT)
                    &&& m.bytes == hint_of(chunks.rest(), tag::CHAT_MEDIA_BYTES)
                },
                None => id is None || type_ is None,
            }
        }),
{
    let mut id: Option<&'a [u8]> = None;
    let mut type_: Option<&'a [u8]> = None;
    let mut width: Option<u32> = None;
    let mut height: Option<u32> = None;
    let mut bytes: Option<u32> = None;
    let mut it = chunks;
    let ghost all = it.rest();
    let ghost mut n: int = 0;
    proof {
        assert(all.take(0) =~= Seq::<wire::ChunkView>::empty());
        assert(all.skip(0) =~= all);
    }
    loop
        invariant
            0 <= n <= all.len(),
            it.rest() == all.skip(n),
            wire::opt_view(id) == wire::last_with(all.take(n), tag::CHAT_MEDIA_ID),
            wire::opt_view(type_) == wire::last_with(all.take(n), tag::CHAT_MEDIA_TYPE),
            width == hint_of(all.take(n), tag::CHAT_MEDIA_WIDTH),
            height == hint_of(all.take(n), tag::CHAT_MEDIA_HEIGHT),
            bytes == hint_of(all.take(n), tag::CHAT_MEDIA_BYTES),
        ensures
            n == all.len(),
        decreases all.len() - n,
    {
        let c = match it.next() {
            Some(c) => c,
            None => {
                break ;
            },
        };
        proof {
            wire::lemma_walk_step(all, n, c@);
            n = n + 1;
        }
        if c.tag == tag::CHAT_MEDIA_ID {
            id = Some(c.data);
        } else if c.tag == tag::CHAT_MEDIA_TYPE {
            type_ = Some(c.data);
        } else if c.tag == tag::CHAT_MEDIA_WIDTH {
            width = u32_from_chunk(&c);
        } else if c.tag == tag::CHAT_MEDIA_HEIGHT {
            height = u32_from_chunk(&c);
        } else if c.tag == tag::CHAT_MEDIA_BYTES {
            bytes = u32_from_chunk(&c);
        }
    }
    assert(all.take(n) =~= all);
    Some(UploadFinalReply { media_id: id?, media_type: type_?, width, height, bytes })
}

/// The token in the reply to a chunk of an upload.
pub fn parse_upload_token_reply<'a>(chunks: ChunkIter<'a>) -> (r: Option<&'a [u8]>)
    ensures
        wire::opt_view(r) == wire::first_with(chunks.rest(), tag::CHAT_MEDIA_UPLOAD_TOKEN),
{
    let mut it = chunks;
    loop
        invariant
            wire::first_with(it.rest(), tag::CHAT_MEDIA_UPLOAD_TOKEN) == wire::first_with(
                chunks.rest(),
                tag::CHAT_MEDIA_UPLOAD_TOKEN,
            ),
        decreases it.rest().len(),
    {
        match it.next() {
            Some(c) => {
                if c.tag == tag::CHAT_MEDIA_UPLOAD_TOKEN {
                    return Some(c.data);
                }
            },
            None => {
                return None;
            },
        }
    }
}

/// The reply to a download.
#[derive(Debug, Clone, Copy, PartialEq, Eq)]
pub struct DownloadReply<'a> {
    /// The bytes of this chunk.
    pub payload: &'a [u8],
    /// The MIME type.
    pub media_type: &'a [u8],
    /// How many chunks there are.
    pub part_count: u16,
    /// This is the last chunk.
    pub final_chunk: bool,
}

/// How many chunks a reply announces: one where it does not say.
pub open spec fn part_count_of(chunks: Seq<wire::ChunkView>) -> u16 {
    match wire::exact16(wire::last_sized(chunks, tag::CHAT_MEDIA_PART_COUNT, 2)) {
        Some(n) => n,
        None => 1,
    }
}

/// Some byte is not zero.
pub open spec fn any_nonzero(data: Seq<u8>) -> bool {
    exists|i: int| 0 <= i < data.len() && data[i] != 0
}

/// Whether a reply is marked as the last one.
pub open spec fn final_of(chunks: Seq<wire::ChunkView>) -> bool {
    match wire::last_with(chunks, tag::CHAT_MEDIA_PART_FINAL) {
        Some(data) => any_nonzero(data),
        None => false,
    }
}

fn has_nonzero(data: &[u8]) -> (r: bool)
    ensures
        r == any_nonzero(data@),
{
    let mut i: usize = 0;
    while i < data.len()
        invariant
            i <= data@.len(),
            forall|k: int| 0 <= k < i ==> data@[k] == 0,
        decreases data@.len() - i,
    {
        if data[i] != 0 {
            assert(data@[i as int] != 0);
            return true;
        }
        i = i + 1;
    }
    false
}

/// Parses the reply to a download. `None` if payload or type is missing.
pub fn parse_download_reply<'a>(chunks: ChunkIter<'a>) -> (r: Option<DownloadReply<'a>>)
    ensures
        ({
            let payload = wire::last_with(chunks.rest(), tag::CHAT_MEDIA_PAYLOAD);
            let type_ = wire::last_with(chunks.rest(), tag::CHAT_MEDIA_TYPE);
            match r {
                Some(m) => {
                    &&& payload == Some(m.payload@)
                    &&& type_ == Some(m.media_type@)
                    &&& m.part_count == part_count_of(chunks.rest())
                    &&& m.final_chunk == final_of(chunks.rest())
                },
                None => payload is None || type_ is None,
            }
        }),
{
    let mut payload: Option<&'a [u8]> = None;
    let mut media_type: Option<&'a [u8]> = None;
    let mut part_count: u16 = 1;
    let mut final_chunk = false;
    let mut it = chunks;
    let ghost all = it.rest();
    let ghost mut n: int = 0;
    proof {
        assert(all.take(0) =~= Seq::<wire::ChunkView>::empty());
        assert(all.skip(0) =~= all);
    }
    loop
        invariant
            0 <= n <= all.len(),
            it.rest() == all.skip(n),
            wire::opt_view(payload) == wire::last_with(all.take(n), tag::CHAT_MEDIA_PAYLOAD),
            wire::opt_view(media_type) == wire::last_with(all.take(n), tag::CHAT_MEDIA_TYPE),
            part_count == part_count_of(all.take(n)),
            final_chunk == final_of(all.take(n)),
        ensures
            n == all.len(),
        decreases all.len() - n,
    {
        let c = match it.next() {
            Some(c) => c,
            None => {
                break ;
            },
        };
        proof {
            wire::lemma_walk_step(all, n, c@);
            n = n + 1;
        }
        if c.tag == tag::CHAT_MEDIA_PAYLOAD {
            payload = Some(c.data);
        } else if c.tag == tag::CHAT_MEDIA_TYPE {
            media_type = Some(c.data);
        } else if c.tag == tag::CHAT_MEDIA_PART_COUNT {
            if let Some(v) = u16_from_chunk(&c) {
                part_count = v;
            }
        } else if c.tag == tag::CHAT_MEDIA_PART_FINAL {
            final_chunk = has_nonzero(c.data);
        }
    }
    assert(all.take(n) =~= all);
    Some(DownloadReply { payload: payload?, media_type: media_type?, part_count, final_chunk })
}

/// The error code that the chunks carry, if any.
pub open spec fn error_code_of(chunks: Seq<wire::ChunkView>) -> MediaErrorCode {
    match wire::exact16(wire::first_sized(chunks, tag::CHAT_MEDIA_ERROR_CODE, 2)) {
        Some(v) => MediaErrorCode::of_wire(v),
        None => MediaErrorCode::Generic,
    }
}

/// The error code of a refusal.
pub fn extract_error_code<'a>(chunks: ChunkIter<'a>) -> (r: MediaErrorCode)
    ensures
        r == error_code_of(chunks.rest()),
{
    let mut it = chunks;
    loop
        invariant
            wire::first_sized(it.rest(), tag::CHAT_MEDIA_ERROR_CODE, 2) == wire::first_sized(
                chunks.rest(),
                tag::CHAT_MEDIA_ERROR_CODE,
                2,
            ),
        decreases it.rest().len(),
    {
        match it.next() {
            Some(c) => {
                if c.tag == tag::CHAT_MEDIA_ERROR_CODE {
                    if let Some(v) = u16_from_chunk(&c) {
                        return MediaErrorCode::from_u16(v);
                    }
                }
            },
            None => {
                return MediaErrorCode::Generic;
            },
        }
    }
}

// ---------------------------------------------------------------------------------------------
// What every call does, in numbers.
// ---------------------------------------------------------------------------------------------
/// The numbers of the reasons. One that is not known counts as no particular reason.
pub proof fn reasons_have_numbers(v: u16, r: MediaErrorCode, code: MediaErrorCode, w: u16)
    requires
        call_ensures(MediaErrorCode::from_u16, (v,), r),
        call_ensures(MediaErrorCode::as_u16, (code,), w),
    ensures
        r is PayloadTooLarge <==> v == 1,
        r is UnsupportedFormat <==> v == 2,
        r is RateLimited <==> v == 3,
        r is NotAuthorized <==> v == 4,
        r is ServerBusy <==> v == 5,
        r is Generic <==> v == 0 || v > 5,
        code is Generic ==> w == 0,
        code is PayloadTooLarge ==> w == 1,
        code is UnsupportedFormat ==> w == 2,
        code is RateLimited ==> w == 3,
        code is NotAuthorized ==> w == 4,
        code is ServerBusy ==> w == 5,
{
}

/// A limit is stated by the last field of four bytes with its tag.
pub open spec fn states(chunks: Seq<wire::ChunkView>, tag: u16, limit: Option<u32>) -> bool {
    match wire::last_sized(chunks, tag, 4) {
        Some(d) => limit == Some(bytes::be32_at(d, 0)),
        None => limit is None,
    }
}

proof fn lemma_limit(chunks: Seq<wire::ChunkView>, tag: u16)
    ensures
        states(chunks, tag, limit_of(chunks, tag)),
    decreases chunks.len(),
{
    lemma_four(chunks, tag);
    if let Some(d) = wire::last_sized(chunks, tag, 4) {
        assert(d.subrange(0, 4) =~= d);
    }
}

proof fn lemma_four(chunks: Seq<wire::ChunkView>, tag: u16)
    ensures
        wire::last_sized(chunks, tag, 4) matches Some(d) ==> d.len() == 4,
    decreases chunks.len(),
{
    if chunks.len() > 0 {
        lemma_four(chunks.drop_last(), tag);
    }
}

proof fn lemma_two(chunks: Seq<wire::ChunkView>, tag: u16)
    ensures
        wire::last_sized(chunks, tag, 2) matches Some(d) ==> d.len() == 2,
        wire::first_sized(chunks, tag, 2) matches Some(d) ==> d.len() == 2,
    decreases chunks.len(),
{
    if chunks.len() > 0 {
        lemma_two(chunks.drop_last(), tag);
        lemma_two(chunks.drop_first(), tag);
    }
}

/// The limits of a server and their tags. Some are stated if one of them is.
pub proof fn limits_have_their_tags(
    b: &[u8],
    len: usize,
    it: ChunkIter<'_>,
    r: LimitsAdvertisement,
    q: LimitsAdvertisement,
    any: bool,
)
    requires
        call_ensures(ChunkIter::over_message, (b, len), it),
        call_ensures(extract_limits_from_message, (b, len), r),
        call_ensures(extract_limits, (it,), q),
        call_ensures(LimitsAdvertisement::any, (&r,), any),
    ensures
        states(it.rest(), 0x020c, r.max_bytes),
        states(it.rest(), 0x020d, r.max_dimension),
        states(it.rest(), 0x020e, r.max_pixels),
        states(it.rest(), 0x020f, r.chunk_size),
        states(it.rest(), 0x0210, r.max_frames),
        states(it.rest(), 0x0211, r.max_duration_ms),
        q == r,
        any <==> r.max_bytes is Some || r.max_dimension is Some || r.max_pixels is Some
            || r.chunk_size is Some || r.max_frames is Some || r.max_duration_ms is Some,
{
    lemma_limit(it.rest(), 0x020c);
    lemma_limit(it.rest(), 0x020d);
    lemma_limit(it.rest(), 0x020e);
    lemma_limit(it.rest(), 0x020f);
    lemma_limit(it.rest(), 0x0210);
    lemma_limit(it.rest(), 0x0211);
}

/// A hint is given by the last field with its tag, if that has four bytes.
pub open spec fn hints(chunks: Seq<wire::ChunkView>, tag: u16, hint: Option<u32>) -> bool {
    match wire::last_with(chunks, tag) {
        Some(d) => if d.len() == 4 {
            hint == Some(bytes::be32_at(d, 0))
        } else {
            hint is None
        },
        None => hint is None,
    }
}

proof fn lemma_hint(chunks: Seq<wire::ChunkView>, tag: u16)
    ensures
        hints(chunks, tag, hint_of(chunks, tag)),
{
    if let Some(d) = wire::last_with(chunks, tag) {
        if d.len() == 4 {
            assert(d.subrange(0, 4) =~= d);
        }
    }
}

/// A chat line has a medium if it has both a handle and a type, and none if it has neither; one
/// without the other is an error. Width, height and size are hints.
pub proof fn lines_with_media(
    it: ChunkIter<'_>,
    r: Result<Option<ChatMediaMeta<'_>>, MediaMetaError>,
)
    requires
        call_ensures(extract_chat_media_meta, (it,), r),
    ensures
        ({
            let id = wire::last_with(it.rest(), 0x0202);
            let kind = wire::last_with(it.rest(), 0x0201);
            &&& r is Err <==> (id is Some <==> kind is None)
            &&& (id is None && kind is None) <==> r == Ok::<Option<ChatMediaMeta<'_>>, MediaMetaError>(None)
            &&& r matches Ok(Some(m)) ==> id == Some(m.id@) && kind == Some(m.type_@) && hints(
                it.rest(),
                0x0205,
                m.width,
            ) && hints(it.rest(), 0x0206, m.height) && hints(it.rest(), 0x0207, m.bytes)
        }),
{
    lemma_hint(it.rest(), 0x0205);
    lemma_hint(it.rest(), 0x0206);
    lemma_hint(it.rest(), 0x0207);
}

/// The reply to the end of an upload has a handle and a type, and hints like those of a chat line.
pub proof fn finished_uploads(it: ChunkIter<'_>, r: Option<UploadFinalReply<'_>>)
    requires
        call_ensures(parse_upload_final_reply, (it,), r),
    ensures
        ({
            let id = wire::last_with(it.rest(), 0x0202);
            let kind = wire::last_with(it.rest(), 0x0201);
            &&& r is Some <==> id is Some && kind is Some
            &&& r matches Some(m) ==> id == Some(m.media_id@) && kind == Some(m.media_type@)
                && hints(it.rest(), 0x0205, m.width) && hints(it.rest(), 0x0206, m.height) && hints(
                it.rest(),
                0x0207,
                m.bytes,
            )
        }),
{
    lemma_hint(it.rest(), 0x0205);
    lemma_hint(it.rest(), 0x0206);
    lemma_hint(it.rest(), 0x0207);
}

/// A token is what the first field 0x208 holds, and a reason the number in the first field 0x212 of
/// two bytes; without one it is no particular reason.
pub proof fn tokens_and_reasons(
    it: ChunkIter<'_>,
    token: Option<&[u8]>,
    code: MediaErrorCode,
    v: u16,
    named: MediaErrorCode,
)
    requires
        call_ensures(parse_upload_token_reply, (it,), token),
        call_ensures(extract_error_code, (it,), code),
        call_ensures(MediaErrorCode::from_u16, (v,), named),
    ensures
        token is None <==> wire::first_with(it.rest(), 0x0208) is None,
        token matches Some(t) ==> wire::first_with(it.rest(), 0x0208) == Some(t@),
        wire::first_sized(it.rest(), 0x0212, 2) is None ==> code is Generic,
        wire::first_sized(it.rest(), 0x0212, 2) matches Some(d) ==> (v == bytes::be16_at(d, 0)
            ==> code == named),
{
    lemma_two(it.rest(), 0x0212);
    if let Some(d) = wire::first_sized(it.rest(), 0x0212, 2) {
        assert(d.subrange(0, 2) =~= d);
    }
}

/// The reply to a download has a payload and a type. It is one of as many parts as the last field
/// 0x20a of two bytes says, or of one, and the last part if the last field 0x20b has a byte that is
/// not zero.
pub proof fn downloaded_parts(it: ChunkIter<'_>, r: Option<DownloadReply<'_>>)
    requires
        call_ensures(parse_download_reply, (it,), r),
    ensures
        ({
            let payload = wire::last_with(it.rest(), 0x0203);
            let kind = wire::last_with(it.rest(), 0x0201);
            let count = wire::last_sized(it.rest(), 0x020a, 2);
            let mark = wire::last_with(it.rest(), 0x020b);
            &&& r is Some <==> payload is Some && kind is Some
            &&& r matches Some(m) ==> {
                &&& payload == Some(m.payload@) && kind == Some(m.media_type@)
                &&& count is None ==> m.part_count == 1
                &&& count is Some ==> m.part_count == bytes::be16_at(count->0, 0)
                &&& m.final_chunk <==> mark is Some && exists|i: int|
                    0 <= i < mark->0.len() && (#[trigger] mark->0[i]) != 0
            }
        }),
{
    lemma_two(it.rest(), 0x020a);
    if let Some(d) = wire::last_sized(it.rest(), 0x020a, 2) {
        assert(d.subrange(0, 2) =~= d);
    }
    if let Some(d) = wire::last_with(it.rest(), 0x020b) {
        if any_nonzero(d) {
            let i = choose|i: int| 0 <= i < d.len() && d[i] != 0;
            assert(d[i] != 0);
        }
    }
}

/// An upload in one part: the bytes, the type if one is given that is not empty, and the mark of the
/// last part.
pub proof fn single_upload_is_built<'a>(
    req: &UploadMediaSingle<'a>,
    chunks: &mut [HxChunk<'a>],
    scratch: &mut [u8],
    r: usize,
)
    requires
        call_ensures(build_upload_media_single_chunks, (req, chunks, scratch), r),
    ensures
        ({
            let c = final(chunks)@;
            let s = final(scratch)@;
            let room = old(chunks)@.len() >= 3
                && old(scratch)@.len() >= 1
                && 0 < req.payload@.len() <= 0xffff
                && (req.declared_type matches Some(d) ==> d@.len() <= 0xffff);
            let n1 = if req.declared_type is Some && req.declared_type->0@.len() > 0 {
                1 + 1int
            } else {
                1 + 0int
            };
            &&& c.len() == old(chunks)@.len()
            &&& !room ==> r == 0 && c == old(chunks)@ && s == old(scratch)@
            &&& room ==> r == n1 + 1
            &&& room ==> c[0].valid(s) && c[0].sent(s).tag == 0x0203 && c[0].sent(
                s,
            ).data == req.payload@
            &&& room && req.declared_type is Some && req.declared_type->0@.len() > 0 ==> c[1].valid(s) && c[1].sent(s).tag == 0x0204 && c[1].sent(
                s,
            ).data == req.declared_type->0@
            &&& room ==> c[n1].valid(s) && c[n1].sent(s).tag == 0x020b && c[n1].sent(
                s,
            ).data == seq![1u8]
            &&& room ==> forall|i: int| r <= i < c.len() ==> #[trigger] c[i] == old(chunks)@[i]
        }),
{
    let c = final(chunks)@;
    assert forall|i: int| r <= i < c.len() && c.skip(r as int) == old(chunks)@.skip(
        r as int,
    ) implies #[trigger] c[i] == old(chunks)@[i] by {
        assert(c[i] == c.skip(r as int)[i - r]);
        assert(old(chunks)@[i] == old(chunks)@.skip(r as int)[i - r]);
    }
}

/// The first of several parts: the bytes, the type if one is given that is not empty, index zero, the
/// number of parts, which is two at least, and no mark.
pub proof fn first_part_is_built<'a>(
    req: &UploadMediaFirst<'a>,
    chunks: &mut [HxChunk<'a>],
    scratch: &mut [u8],
    r: usize,
)
    requires
        call_ensures(build_upload_media_first_chunks, (req, chunks, scratch), r),
    ensures
        ({
            let c = final(chunks)@;
            let s = final(scratch)@;
            let room = old(chunks)@.len() >= 5
                && old(scratch)@.len() >= 5
                && 0 < req.payload@.len() <= 0xffff
                && (req.declared_type matches Some(d) ==> d@.len() <= 0xffff)
                && req.part_count >= 2;
            let n1 = if req.declared_type is Some && req.declared_type->0@.len() > 0 {
                1 + 1int
            } else {
                1 + 0int
            };
            &&& c.len() == old(chunks)@.len()
            &&& !room ==> r == 0 && c == old(chunks)@ && s == old(scratch)@
            &&& room ==> r == n1 + 3
            &&& room ==> c[0].valid(s) && c[0].sent(s).tag == 0x0203 && c[0].sent(
                s,
            ).data == req.payload@
            &&& room && req.declared_type is Some && req.declared_type->0@.len() > 0 ==> c[1].valid(s) && c[1].sent(s).tag == 0x0204 && c[1].sent(
                s,
            ).data == req.declared_type->0@
            &&& room ==> c[n1].valid(s) && c[n1].sent(s).tag == 0x0209 && c[n1].sent(
                s,
            ).data == bytes::be16_bytes(0)
            &&& room ==> c[n1 + 1].valid(s) && c[n1 + 1].sent(s).tag == 0x020a && c[n1 + 1].sent(
                s,
            ).data == bytes::be16_bytes(req.part_count)
            &&& room ==> c[n1 + 2].valid(s) && c[n1 + 2].sent(s).tag == 0x020b && c[n1 + 2].sent(
                s,
            ).data == seq![0u8]
            &&& room ==> forall|i: int| r <= i < c.len() ==> #[trigger] c[i] == old(chunks)@[i]
        }),
{
    let c = final(chunks)@;
    assert forall|i: int| r <= i < c.len() && c.skip(r as int) == old(chunks)@.skip(
        r as int,
    ) implies #[trigger] c[i] == old(chunks)@[i] by {
        assert(c[i] == c.skip(r as int)[i - r]);
        assert(old(chunks)@[i] == old(chunks)@.skip(r as int)[i - r]);
    }
}

/// A further part: the token, the index, which is not zero, the bytes, and whether it is the last.
pub proof fn further_part_is_built<'a>(
    req: &UploadMediaFollowup<'a>,
    chunks: &mut [HxChunk<'a>],
    scratch: &mut [u8],
    r: usize,
)
    requires
        call_ensures(build_upload_media_followup_chunks, (req, chunks, scratch), r),
    ensures
        ({
            let c = final(chunks)@;
            let s = final(scratch)@;
            let room = old(chunks)@.len() >= 4
                && old(scratch)@.len() >= 3
                && 0 < req.upload_token@.len() <= 0xffff
                && 0 < req.payload@.len() <= 0xffff
                && req.part_index != 0;
            &&& c.len() == old(chunks)@.len()
            &&& !room ==> r == 0 && c == old(chunks)@ && s == old(scratch)@
            &&& room ==> r == 4
            &&& room ==> c[0].valid(s) && c[0].sent(s).tag == 0x0208 && c[0].sent(
                s,
            ).data == req.upload_token@
            &&& room ==> c[1].valid(s) && c[1].sent(s).tag == 0x0209 && c[1].sent(
                s,
            ).data == bytes::be16_bytes(req.part_index)
            &&& room ==> c[2].valid(s) && c[2].sent(s).tag == 0x0203 && c[2].sent(
                s,
            ).data == req.payload@
            &&& room ==> c[3].valid(s) && c[3].sent(s).tag == 0x020b && c[3].sent(
                s,
            ).data == seq![if req.final_chunk { 1u8 } else { 0u8 }]
            &&& room ==> forall|i: int| r <= i < c.len() ==> #[trigger] c[i] == old(chunks)@[i]
        }),
{
    let c = final(chunks)@;
    assert forall|i: int| r <= i < c.len() && c.skip(r as int) == old(chunks)@.skip(
        r as int,
    ) implies #[trigger] c[i] == old(chunks)@[i] by {
        assert(c[i] == c.skip(r as int)[i - r]);
        assert(old(chunks)@[i] == old(chunks)@.skip(r as int)[i - r]);
    }
}

/// A download names the medium, and the part if one is asked for.
pub proof fn download_is_built<'a>(
    req: &DownloadMedia<'a>,
    chunks: &mut [HxChunk<'a>],
    scratch: &mut [u8],
    r: usize,
)
    requires
        call_ensures(build_download_media_chunks, (req, chunks, scratch), r),
    ensures
        ({
            let c = final(chunks)@;
            let s = final(scratch)@;
            let room = old(chunks)@.len() >= 1
                && old(scratch)@.len() >= 0
                && 0 < req.media_id@.len() <= 0xffff
                && (req.part_index is Some ==> old(chunks)@.len() >= 2 && old(scratch)@.len() >= 2);
            let n1 = if req.part_index is Some {
                1 + 1int
            } else {
                1 + 0int
            };
            &&& c.len() == old(chunks)@.len()
            &&& !room ==> r == 0
            &&& room ==> r == n1
            &&& room ==> c[0].valid(s) && c[0].sent(s).tag == 0x0202 && c[0].sent(
                s,
            ).data == req.media_id@
            &&& room && req.part_index is Some ==> c[1].valid(s) && c[1].sent(s).tag == 0x0209 && c[1].sent(
                s,
            ).data == bytes::be16_bytes(req.part_index->0)
            &&& room ==> forall|i: int| r <= i < c.len() ==> #[trigger] c[i] == old(chunks)@[i]
        }),
{
    let c = final(chunks)@;
    assert forall|i: int| r <= i < c.len() && c.skip(r as int) == old(chunks)@.skip(
        r as int,
    ) implies #[trigger] c[i] == old(chunks)@[i] by {
        assert(c[i] == c.skip(r as int)[i - r]);
        assert(old(chunks)@[i] == old(chunks)@.skip(r as int)[i - r]);
    }
}

/// No limits are those of which none is stated.
pub proof fn no_limits_are_none(r: LimitsAdvertisement, any: bool)
    requires
        call_ensures(LimitsAdvertisement::empty, (), r),
        call_ensures(LimitsAdvertisement::any, (&r,), any),
    ensures
        r.max_bytes is None && r.max_dimension is None && r.max_pixels is None,
        r.chunk_size is None && r.max_frames is None && r.max_duration_ms is None,
        !any,
{
}

} // verus!
