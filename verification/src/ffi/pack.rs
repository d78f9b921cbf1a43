//! Headers and whole messages, into buffers of the caller's.
use crate::bytes;
use crate::bytes::{copy_into, get16, get32, put16, put32, put_bytes};
use crate::outgoing::{ChunkData, HxChunk};
use crate::wire;
use crate::xfer::htxf::MAGIC;
use crate::HL_HDR_LEN;
use vstd::prelude::*;
use vstd::slice::slice_subrange;

verus! {

// ---------------------------------------------------------------------------------------------
// The header of a message.
// ---------------------------------------------------------------------------------------------
/// The header of a message: type, transaction, flag, the length of the body and of the chunk count
/// twice, and the chunk count.
pub open spec fn header_bytes(
    type_: u32,
    trans: u32,
    flag: u32,
    hc: u16,
    body_len: int,
) -> Seq<u8> {
    bytes::be32_bytes(type_) + bytes::be32_bytes(trans) + bytes::be32_bytes(flag)
        + bytes::be32_bytes((body_len + 2) as u32) + bytes::be32_bytes((body_len + 2) as u32)
        + bytes::be16_bytes(hc)
}

fn header(type_: u32, trans: u32, flag: u32, hc: u16, body_len: u32) -> (r: Vec<u8>)
    requires
        body_len + 2 <= u32::MAX,
    ensures
        r@ == header_bytes(type_, trans, flag, hc, body_len as int),
        r@.len() == 22,
{
    proof {
        lemma_header_len(type_, trans, flag, hc, body_len as int);
    }
    let mut out: Vec<u8> = Vec::new();
    put32(&mut out, type_);
    put32(&mut out, trans);
    put32(&mut out, flag);
    put32(&mut out, body_len + 2);
    put32(&mut out, body_len + 2);
    put16(&mut out, hc);
    assert(out@ =~= header_bytes(type_, trans, flag, hc, body_len as int));
    out
}

proof fn lemma_header_len(type_: u32, trans: u32, flag: u32, hc: u16, body_len: int)
    ensures
        header_bytes(type_, trans, flag, hc, body_len).len() == 22,
{
    bytes::be32_round_trip(type_, Seq::empty());
    bytes::be32_round_trip(trans, Seq::empty());
    bytes::be32_round_trip(flag, Seq::empty());
    bytes::be32_round_trip((body_len + 2) as u32, Seq::empty());
}

/// Packs the header of a message with a body of `body_len` bytes.
pub fn gtkhx_proto_pack_header(
    dst: &mut [u8],
    type_: u32,
    trans: u32,
    flag: u32,
    hc: u16,
    body_len: u32,
)
    requires
        old(dst)@.len() >= 22,
        body_len + 2 <= u32::MAX,
    ensures
        final(dst)@ == bytes::overwrite(
            old(dst)@,
            0,
            header_bytes(type_, trans, flag, hc, body_len as int),
        ),
{
    let h = header(type_, trans, flag, hc, body_len);
    copy_into(dst, 0, h.as_slice());
}

/// A header, taken apart.
#[derive(Debug, Clone, Copy, PartialEq, Eq, Structural)]
pub struct HeaderDecodedOut {
    pub type_: u32,
    pub trans: u32,
    pub flag: u32,
    /// The length as the sender states it.
    pub wire_len: u32,
    /// The length of the body: what is stated without the chunk count, and no more than is
    /// admitted.
    pub body_len: u32,
    pub hc: u16,
}

/// The length of a body.
pub open spec fn body_len_of(wire_len: u32, max_packet_len: u32) -> u32 {
    let n = if wire_len < 2 {
        0
    } else {
        wire_len - 2
    };
    if n < max_packet_len {
        n as u32
    } else {
        max_packet_len
    }
}

/// The header that the bytes start with.
pub open spec fn header_of(b: Seq<u8>, max_packet_len: u32) -> Option<HeaderDecodedOut> {
    if b.len() < 22 {
        None
    } else {
        Some(
            HeaderDecodedOut {
                type_: bytes::be32_at(b, 0),
                trans: bytes::be32_at(b, 4),
                flag: bytes::be32_at(b, 8),
                wire_len: bytes::be32_at(b, 12),
                body_len: body_len_of(bytes::be32_at(b, 12), max_packet_len),
                hc: bytes::be16_at(b, 20),
            },
        )
    }
}

/// Takes a header apart. `None` if there are too few bytes.
pub fn gtkhx_proto_decode_header(buf: &[u8], max_packet_len: u32) -> (r: Option<HeaderDecodedOut>)
    ensures
        r == header_of(buf@, max_packet_len),
{
    if buf.len() < HL_HDR_LEN {
        return None;
    }
    let wire_len: u32 = get32(buf, 12);
    let n: u32 = if wire_len < 2 {
        0
    } else {
        wire_len - 2
    };
    Some(
        HeaderDecodedOut {
            type_: get32(buf, 0),
            trans: get32(buf, 4),
            flag: get32(buf, 8),
            wire_len,
            body_len: if n < max_packet_len {
                n
            } else {
                max_packet_len
            },
            hc: get16(buf, 20),
        },
    )
}

/// The transaction that a header names. `None` if there are too few bytes.
pub fn gtkhx_proto_header_trans(buf: &[u8]) -> (r: Option<u32>)
    ensures
        r == (if buf@.len() < 22 {
            None
        } else {
            Some(bytes::be32_at(buf@, 4))
        }),
{
    if buf.len() < HL_HDR_LEN {
        return None;
    }
    Some(get32(buf, 4))
}

/// A header says that a task failed: one of the bits that say so is set. A header that is cut short
/// says nothing.
pub fn gtkhx_proto_header_in_error(buf: &[u8], error_bits: u32) -> (r: bool)
    ensures
        r == (buf@.len() >= 22 && bytes::be32_at(buf@, 8) & error_bits != 0),
{
    if buf.len() < HL_HDR_LEN {
        return false;
    }
    get32(buf, 8) & error_bits != 0
}

/// A header that was packed is taken apart again, whatever follows it.
pub proof fn header_round_trip(
    type_: u32,
    trans: u32,
    flag: u32,
    hc: u16,
    body_len: u32,
    max_packet_len: u32,
    rest: Seq<u8>,
)
    requires
        body_len + 2 <= u32::MAX,
    ensures
        header_of(header_bytes(type_, trans, flag, hc, body_len as int) + rest, max_packet_len)
            == Some(
            HeaderDecodedOut {
                type_,
                trans,
                flag,
                wire_len: (body_len + 2) as u32,
                body_len: if body_len < max_packet_len {
                    body_len
                } else {
                    max_packet_len
                },
                hc,
            },
        ),
{
    let h = header_bytes(type_, trans, flag, hc, body_len as int);
    let b = h + rest;
    let len = (body_len + 2) as u32;
    lemma_header_len(type_, trans, flag, hc, body_len as int);
    bytes::be32_round_trip(type_, Seq::empty());
    bytes::be32_round_trip(trans, Seq::empty());
    bytes::be32_round_trip(flag, Seq::empty());
    bytes::be32_round_trip(len, Seq::empty());
    bytes::be16_round_trip(hc, Seq::empty());
    assert(b.subrange(0, 4) =~= bytes::be32_bytes(type_));
    assert(b.subrange(4, 8) =~= bytes::be32_bytes(trans));
    assert(b.subrange(8, 12) =~= bytes::be32_bytes(flag));
    assert(b.subrange(12, 16) =~= bytes::be32_bytes(len));
    assert(b.subrange(20, 22) =~= bytes::be16_bytes(hc));
}

// ---------------------------------------------------------------------------------------------
// Whole messages.
// ---------------------------------------------------------------------------------------------
/// What the chunks send.
pub open spec fn sent_views(chunks: Seq<HxChunk<'_>>, scratch: Seq<u8>) -> Seq<wire::ChunkView> {
    Seq::new(chunks.len(), |i: int| chunks[i].sent(scratch))
}

/// How long the body of a message is with the first `k` chunks.
pub open spec fn body_size(chunks: Seq<HxChunk<'_>>, k: int) -> int
    decreases k,
{
    if k <= 0 {
        0
    } else {
        body_size(chunks, k - 1) + 4 + chunks[k - 1].len
    }
}

proof fn lemma_body_size(chunks: Seq<HxChunk<'_>>, j: int, k: int)
    requires
        0 <= j <= k <= chunks.len(),
    ensures
        0 <= body_size(chunks, j) <= body_size(chunks, k) <= k * 65539,
    decreases k,
{
    if k > 0 {
        if j < k {
            lemma_body_size(chunks, j, k - 1);
        } else {
            lemma_body_size(chunks, k - 1, k - 1);
        }
        assert(k * 65539 == (k - 1) * 65539 + 65539) by (nonlinear_arith);
    }
}

/// How long a message with these chunks is. Zero if there are more chunks than `max_chunks`.
pub fn gtkhx_proto_pack_message_size(chunks: &[HxChunk<'_>], max_chunks: u16) -> (r: usize)
    requires
        chunks@.len() <= max_chunks ==> 22 + body_size(chunks@, chunks@.len() as int) <= usize::MAX,
    ensures
        r == (if chunks@.len() > max_chunks {
            0
        } else {
            22 + body_size(chunks@, chunks@.len() as int)
        }),
{
    if chunks.len() > max_chunks as usize {
        return 0;
    }
    let mut total: usize = HL_HDR_LEN;
    let mut i: usize = 0;
    while i < chunks.len()
        invariant
            i <= chunks@.len(),
            total == 22 + body_size(chunks@, i as int),
            22 + body_size(chunks@, chunks@.len() as int) <= usize::MAX,
        decreases chunks@.len() - i,
    {
        proof {
            lemma_body_size(chunks@, i + 1, chunks@.len() as int);
        }
        total = total + (4 + chunks[i].len as usize);
        i = i + 1;
    }
    total
}

/// The payload of each chunk is all there.
pub open spec fn all_valid(chunks: Seq<HxChunk<'_>>, scratch: Seq<u8>) -> bool {
    forall|i: int| #![trigger chunks[i]] 0 <= i < chunks.len() ==> chunks[i].valid(scratch)
}

/// A whole message.
pub open spec fn message_bytes(
    type_: u32,
    trans: u32,
    flag: u32,
    chunks: Seq<wire::ChunkView>,
) -> Seq<u8> {
    header_bytes(
        type_,
        trans,
        flag,
        chunks.len() as u16,
        wire::chunks_bytes(chunks).len() as int,
    ) + wire::chunks_bytes(chunks)
}

/// A message can be packed: there are not too many chunks, their payloads are there, the header can
/// state the length, and there is room.
pub open spec fn can_pack(
    chunks: Seq<HxChunk<'_>>,
    scratch: Seq<u8>,
    max_chunks: u16,
    room: int,
) -> bool {
    &&& chunks.len() <= max_chunks
    &&& all_valid(chunks, scratch)
    &&& body_size(chunks, chunks.len() as int) + 2 <= u32::MAX
    &&& 22 + body_size(chunks, chunks.len() as int) <= room
}

fn is_valid(c: &HxChunk<'_>, scratch: &[u8]) -> (r: bool)
    ensures
        r == c.valid(scratch@),
{
    c.len == 0 || match c.data {
        ChunkData::Null => false,
        ChunkData::Scratch(at) => at <= scratch.len() && c.len as usize <= scratch.len() - at,
        ChunkData::Bytes(b) => c.len as usize <= b.len(),
    }
}

proof fn lemma_chunks_bytes_push(chunks: Seq<wire::ChunkView>, c: wire::ChunkView)
    ensures
        wire::chunks_bytes(chunks.push(c)) == wire::chunks_bytes(chunks) + wire::chunk_bytes(
            c.tag,
            c.data,
        ),
    decreases chunks.len(),
{
    let all = chunks.push(c);
    let one = wire::chunk_bytes(c.tag, c.data);
    if chunks.len() == 0 {
        assert(all.drop_first() =~= Seq::<wire::ChunkView>::empty());
        assert(wire::chunks_bytes(all.drop_first()) =~= Seq::<u8>::empty());
        assert(wire::chunks_bytes(chunks) =~= Seq::<u8>::empty());
        assert(all[0] == c);
        assert(wire::chunks_bytes(all) =~= wire::chunks_bytes(chunks) + one);
    } else {
        lemma_chunks_bytes_push(chunks.drop_first(), c);
        assert(all.drop_first() =~= chunks.drop_first().push(c));
        assert(all[0] == chunks[0]);
        assert(wire::chunks_bytes(all) =~= wire::chunks_bytes(chunks) + one);
    }
}

proof fn lemma_sent_len(chunks: Seq<HxChunk<'_>>, scratch: Seq<u8>, k: int)
    requires
        0 <= k <= chunks.len(),
        all_valid(chunks, scratch),
    ensures
        wire::chunks_bytes(sent_views(chunks, scratch).take(k)).len() == body_size(chunks, k),
    decreases k,
{
    let views = sent_views(chunks, scratch);
    if k > 0 {
        lemma_sent_len(chunks, scratch, k - 1);
        assert(views.take(k) =~= views.take(k - 1).push(views[k - 1]));
        lemma_chunks_bytes_push(views.take(k - 1), views[k - 1]);
        assert(chunks[k - 1].valid(scratch));
        assert(views[k - 1].data.len() == chunks[k - 1].len);
    } else {
        assert(views.take(0) =~= Seq::<wire::ChunkView>::empty());
    }
}

/// Packs a message into `out` and returns its length. Zero, and nothing is written, if it cannot be
/// packed. `scratch` is the buffer that the chunks were built with.
pub fn gtkhx_proto_pack_message(
    out: &mut [u8],
    type_: u32,
    trans: u32,
    flag: u32,
    chunks: &[HxChunk<'_>],
    scratch: &[u8],
    max_chunks: u16,
) -> (r: usize)
    ensures
        ({
            let b = message_bytes(type_, trans, flag, sent_views(chunks@, scratch@));
            if can_pack(chunks@, scratch@, max_chunks, old(out)@.len() as int) {
                &&& r == b.len()
                &&& final(out)@ == bytes::overwrite(old(out)@, 0, b)
            } else {
                &&& r == 0
                &&& final(out)@ == old(out)@
            }
        }),
{
    if chunks.len() > max_chunks as usize {
        return 0;
    }
    let ghost n = chunks@.len() as int;
    let mut size: u64 = 0;
    let mut i: usize = 0;
    while i < chunks.len()
        invariant
            n == chunks@.len(),
            n <= 65535,
            i <= n,
            out@ == old(out)@,
            size == body_size(chunks@, i as int),
            forall|k: int| #![trigger chunks@[k]] 0 <= k < i ==> chunks@[k].valid(scratch@),
        decreases n - i,
    {
        proof {
            lemma_body_size(chunks@, i as int, i as int);
        }
        if !is_valid(&chunks[i], scratch) {
            assert(!chunks@[i as int].valid(scratch@));
            return 0;
        }
        size = size + 4 + chunks[i].len as u64;
        i = i + 1;
    }
    proof {
        lemma_body_size(chunks@, n, n);
    }
    if size + 2 > u32::MAX as u64 || (out.len() as u64) < 22 + size {
        return 0;
    }
    let ghost views = sent_views(chunks@, scratch@);
    let mut body: Vec<u8> = Vec::new();
    let mut k: usize = 0;
    assert(views.take(0) =~= Seq::<wire::ChunkView>::empty());
    while k < chunks.len()
        invariant
            n == chunks@.len(),
            k <= n,
            views == sent_views(chunks@, scratch@),
            all_valid(chunks@, scratch@),
            body@ == wire::chunks_bytes(views.take(k as int)),
        decreases n - k,
    {
        let c = chunks[k];
        proof {
            assert(chunks@[k as int].valid(scratch@));
            assert(views.take(k + 1) =~= views.take(k as int).push(views[k as int]));
            lemma_chunks_bytes_push(views.take(k as int), views[k as int]);
        }
        let ghost before = body@;
        let data = c.bytes(scratch);
        put16(&mut body, c.tag);
        put16(&mut body, c.len);
        put_bytes(&mut body, data);
        assert(body@ =~= before + wire::chunk_bytes(c.tag, data@));
        k = k + 1;
    }
    proof {
        assert(views.take(n) =~= views);
        lemma_sent_len(chunks@, scratch@, n);
    }
    let mut msg = header(type_, trans, flag, chunks.len() as u16, size as u32);
    put_bytes(&mut msg, body.as_slice());
    assert(msg@ == message_bytes(type_, trans, flag, views));
    copy_into(out, 0, msg.as_slice());
    msg.len()
}

/// A message that was packed is read back: its header states its length and the number of its
/// chunks, and its body holds the chunks.
pub proof fn message_reads_back(
    type_: u32,
    trans: u32,
    flag: u32,
    chunks: Seq<wire::ChunkView>,
    max_packet_len: u32,
)
    requires
        chunks.len() <= u16::MAX,
        wire::chunks_bytes(chunks).len() + 2 <= u32::MAX,
        wire::chunks_bytes(chunks).len() <= max_packet_len,
        forall|i: int| 0 <= i < chunks.len() ==> (#[trigger] chunks[i]).data.len() <= u16::MAX,
    ensures
        ({
            let b = message_bytes(type_, trans, flag, chunks);
            &&& header_of(b, max_packet_len) == Some(
                HeaderDecodedOut {
                    type_,
                    trans,
                    flag,
                    wire_len: (wire::chunks_bytes(chunks).len() + 2) as u32,
                    body_len: wire::chunks_bytes(chunks).len() as u32,
                    hc: chunks.len() as u16,
                },
            )
            &&& wire::message_chunks(b, b.len() as int) == chunks
        }),
{
    let body = wire::chunks_bytes(chunks);
    let h = header_bytes(type_, trans, flag, chunks.len() as u16, body.len() as int);
    let b = message_bytes(type_, trans, flag, chunks);
    header_round_trip(
        type_,
        trans,
        flag,
        chunks.len() as u16,
        body.len() as u32,
        max_packet_len,
        body,
    );
    lemma_header_len(type_, trans, flag, chunks.len() as u16, body.len() as int);
    wire::chunk_walk_reads_back(h, chunks);
    assert(b.take(b.len() as int) =~= b);
}

// ---------------------------------------------------------------------------------------------
// Headers on a transfer connection.
// ---------------------------------------------------------------------------------------------
/// How long the header of a transfer is.
pub const HTXF_HDR_SIZE: usize = 16;

/// The header of a transfer: a magic number, the reference, the length, and type and flags.
pub open spec fn htxf_header(ref_id: u32, payload_len: u32, type_code: u16, flags: u16) -> Seq<u8> {
    MAGIC@ + bytes::be32_bytes(ref_id) + bytes::be32_bytes(payload_len) + bytes::be16_bytes(
        type_code,
    ) + bytes::be16_bytes(flags)
}

/// Packs the header of a transfer. False, and nothing is written, if there is no room for it.
pub fn gtkhx_proto_htxf_hdr_pack(
    out: &mut [u8],
    ref_id: u32,
    payload_len: u32,
    type_code: u16,
    flags: u16,
) -> (r: bool)
    ensures
        r == (old(out)@.len() >= 16),
        final(out)@ == (if r {
            bytes::overwrite(old(out)@, 0, htxf_header(ref_id, payload_len, type_code, flags))
        } else {
            old(out)@
        }),
{
    if out.len() < HTXF_HDR_SIZE {
        return false;
    }
    let mut h: Vec<u8> = Vec::new();
    put_bytes(&mut h, &MAGIC);
    put32(&mut h, ref_id);
    put32(&mut h, payload_len);
    put16(&mut h, type_code);
    put16(&mut h, flags);
    proof {
        bytes::be32_round_trip(ref_id, Seq::empty());
        bytes::be32_round_trip(payload_len, Seq::empty());
        assert(h@ =~= htxf_header(ref_id, payload_len, type_code, flags));
    }
    copy_into(out, 0, h.as_slice());
    true
}

// ---------------------------------------------------------------------------------------------
// Capabilities.
// ---------------------------------------------------------------------------------------------
/// The number that some bytes spell, the highest first.
pub open spec fn spelled(b: Seq<u8>) -> nat
    decreases b.len(),
{
    if b.len() == 0 {
        0
    } else {
        spelled(b.drop_last()) * 256 + b.last() as nat
    }
}

spec fn pow256(n: nat) -> nat
    decreases n,
{
    if n == 0 {
        1
    } else {
        256 * pow256((n - 1) as nat)
    }
}

proof fn lemma_spelled(b: Seq<u8>)
    ensures
        spelled(b) < pow256(b.len()),
    decreases b.len(),
{
    if b.len() > 0 {
        lemma_spelled(b.drop_last());
    }
}

proof fn lemma_eight_bytes(b: Seq<u8>)
    requires
        b.len() <= 8,
    ensures
        spelled(b) <= u64::MAX,
{
    lemma_spelled(b);
    reveal_with_fuel(pow256, 9);
    assert(pow256(0) <= pow256(1) <= pow256(2) <= pow256(3) <= pow256(4) <= pow256(5) <= pow256(6)
        <= pow256(7) <= pow256(8));
    assert(pow256(8) == 0x1_0000_0000_0000_0000);
}

/// What of a capabilities field counts: its first eight bytes.
pub open spec fn capability_bytes(b: Seq<u8>) -> Seq<u8> {
    if b.len() <= 8 {
        b
    } else {
        b.take(8)
    }
}

/// Decodes a capabilities field: a number of up to eight bytes. An empty field means none.
pub fn gtkhx_proto_capabilities_decode(bytes: &[u8]) -> (r: u64)
    ensures
        r == spelled(capability_bytes(bytes@)),
{
    let n: usize = if bytes.len() < 8 {
        bytes.len()
    } else {
        8
    };
    let b = slice_subrange(bytes, 0, n);
    assert(b@ =~= capability_bytes(bytes@));
    let mut v: u64 = 0;
    let mut i: usize = 0;
    assert(b@.take(0) =~= Seq::<u8>::empty());
    while i < b.len()
        invariant
            i <= b@.len() <= 8,
            v == spelled(b@.take(i as int)),
        decreases b@.len() - i,
    {
        proof {
            assert(b@.take(i + 1).drop_last() =~= b@.take(i as int));
            lemma_eight_bytes(b@.take(i + 1));
        }
        v = v * 256 + b[i] as u64;
        i = i + 1;
    }
    assert(b@.take(i as int) =~= b@);
    v
}

// ---------------------------------------------------------------------------------------------
// What every call does, in numbers.
// ---------------------------------------------------------------------------------------------
/// A header has 22 bytes: type, transaction, flag and twice the length, four bytes each, and the
/// number of chunks. The length counts that number as well.
pub proof fn headers_are_written(
    dst: &mut [u8],
    type_: u32,
    trans: u32,
    flag: u32,
    hc: u16,
    body_len: u32,
    i: int,
)
    requires
        dst@.len() >= 22,
        body_len + 2 <= 0xffff_ffff,
        call_ensures(gtkhx_proto_pack_header, (dst, type_, trans, flag, hc, body_len), ()),
    ensures
        ({
            let b = final(dst)@;
            &&& b.len() == old(dst)@.len()
            &&& bytes::be32_at(b, 0) == type_
            &&& bytes::be32_at(b, 4) == trans
            &&& bytes::be32_at(b, 8) == flag
            &&& bytes::be32_at(b, 12) == body_len + 2
            &&& bytes::be32_at(b, 16) == body_len + 2
            &&& bytes::be16_at(b, 20) == hc
            &&& 22 <= i < b.len() ==> b[i] == old(dst)@[i]
        }),
{
    let b = final(dst)@;
    let n = (body_len + 2) as u32;
    bytes::be32_round_trip(type_, Seq::empty());
    bytes::be32_round_trip(trans, Seq::empty());
    bytes::be32_round_trip(flag, Seq::empty());
    bytes::be32_round_trip(n, Seq::empty());
    bytes::be16_round_trip(hc, Seq::empty());
    lemma_header_len(type_, trans, flag, hc, body_len as int);
    assert(b.subrange(0, 4) =~= bytes::be32_bytes(type_));
    assert(b.subrange(4, 8) =~= bytes::be32_bytes(trans));
    assert(b.subrange(8, 12) =~= bytes::be32_bytes(flag));
    assert(b.subrange(12, 16) =~= bytes::be32_bytes(n));
    assert(b.subrange(16, 20) =~= bytes::be32_bytes(n));
    assert(b.subrange(20, 22) =~= bytes::be16_bytes(hc));
}

/// A header is read from its 22 bytes. The body is two bytes shorter than the length says, but never
/// longer than allowed nor shorter than nothing.
pub proof fn headers_are_read(
    b: &[u8],
    most: u32,
    bits: u32,
    r: Option<HeaderDecodedOut>,
    trans: Option<u32>,
    error: bool,
)
    requires
        call_ensures(gtkhx_proto_decode_header, (b, most), r),
        call_ensures(gtkhx_proto_header_trans, (b,), trans),
        call_ensures(gtkhx_proto_header_in_error, (b, bits), error),
    ensures
        r is Some <==> b@.len() >= 22,
        r matches Some(h) ==> {
            &&& h.type_ == bytes::be32_at(b@, 0)
            &&& h.trans == bytes::be32_at(b@, 4)
            &&& h.flag == bytes::be32_at(b@, 8)
            &&& h.wire_len == bytes::be32_at(b@, 12)
            &&& h.hc == bytes::be16_at(b@, 20)
            &&& h.wire_len < 2 ==> h.body_len == 0
            &&& 2 <= h.wire_len && h.wire_len - 2 <= most ==> h.body_len == h.wire_len - 2
            &&& h.wire_len - 2 > most ==> h.body_len == most
        },
        trans is Some <==> b@.len() >= 22,
        trans matches Some(t) ==> t == bytes::be32_at(b@, 4),
        error <==> b@.len() >= 22 && bytes::be32_at(b@, 8) & bits != 0,
{
}

/// A message takes 22 bytes, and four more and its payload for each chunk. One of too many chunks
/// takes none.
pub proof fn every_chunk_adds_to_the_size(
    a: &[HxChunk<'_>],
    b: &[HxChunk<'_>],
    max: u16,
    n: usize,
    m: usize,
)
    requires
        22 + body_size(b@, b@.len() as int) <= usize::MAX,
        call_ensures(gtkhx_proto_pack_message_size, (a, max), n),
        call_ensures(gtkhx_proto_pack_message_size, (b, max), m),
        b@.len() > 0 ==> a@ == b@.drop_last(),
    ensures
        b@.len() > max ==> m == 0,
        b@.len() == 0 ==> m == 22,
        0 < b@.len() <= max ==> m == n + 4 + b@.last().len,
{
    if b@.len() > 0 {
        lemma_body_size_of(a@, b@, a@.len() as int);
    }
}

proof fn lemma_body_size_of(a: Seq<HxChunk<'_>>, b: Seq<HxChunk<'_>>, k: int)
    requires
        0 <= k <= a.len(),
        b.len() > 0,
        a == b.drop_last(),
    ensures
        body_size(a, k) == body_size(b, k),
    decreases k,
{
    if k > 0 {
        lemma_body_size_of(a, b, k - 1);
        assert(a[k - 1] == b[k - 1]);
    }
}

/// A message is packed exactly if it has no more chunks than allowed, each payload is all there, and
/// all of it has room. Then it is as long as said, and as it was behind that.
pub proof fn messages_are_packed(
    out: &mut [u8],
    type_: u32,
    trans: u32,
    flag: u32,
    chunks: &[HxChunk<'_>],
    scratch: &[u8],
    max: u16,
    r: usize,
    size: usize,
    i: int,
)
    requires
        22 + body_size(chunks@, chunks@.len() as int) <= usize::MAX,
        call_ensures(
            gtkhx_proto_pack_message,
            (out, type_, trans, flag, chunks, scratch, max),
            r,
        ),
        call_ensures(gtkhx_proto_pack_message_size, (chunks, max), size),
    ensures
        ({
            let whole = forall|k: int|
                #![trigger chunks@[k]]
                0 <= k < chunks@.len() ==> chunks@[k].valid(scratch@);
            let fits = chunks@.len() <= max && whole && size - 20 <= 0xffff_ffff && size <= old(out)@.len();
            &&& !fits ==> r == 0 && final(out)@ == old(out)@
            &&& fits ==> {
                let b = final(out)@;
                &&& r == size
                &&& b.len() == old(out)@.len()
                &&& bytes::be32_at(b, 0) == type_
                &&& bytes::be32_at(b, 4) == trans
                &&& bytes::be32_at(b, 8) == flag
                &&& bytes::be32_at(b, 12) == r - 20
                &&& bytes::be32_at(b, 16) == r - 20
                &&& bytes::be16_at(b, 20) == chunks@.len()
                &&& r <= i < b.len() ==> b[i] == old(out)@[i]
            }
        }),
{
    let views = sent_views(chunks@, scratch@);
    let b = final(out)@;
    let n = chunks@.len() as int;
    if can_pack(chunks@, scratch@, max, old(out)@.len() as int) {
        lemma_sent_len(chunks@, scratch@, n);
        assert(views.take(n) =~= views);
        let body = wire::chunks_bytes(views);
        let len = (body.len() + 2) as u32;
        let h = header_bytes(type_, trans, flag, n as u16, body.len() as int);
        lemma_header_len(type_, trans, flag, n as u16, body.len() as int);
        bytes::be32_round_trip(type_, Seq::empty());
        bytes::be32_round_trip(trans, Seq::empty());
        bytes::be32_round_trip(flag, Seq::empty());
        bytes::be32_round_trip(len, Seq::empty());
        bytes::be16_round_trip(n as u16, Seq::empty());
        assert(h.subrange(0, 4) =~= bytes::be32_bytes(type_));
        assert(h.subrange(4, 8) =~= bytes::be32_bytes(trans));
        assert(h.subrange(8, 12) =~= bytes::be32_bytes(flag));
        assert(h.subrange(12, 16) =~= bytes::be32_bytes(len));
        assert(h.subrange(16, 20) =~= bytes::be32_bytes(len));
        assert(h.subrange(20, 22) =~= bytes::be16_bytes(n as u16));
        assert(b.subrange(0, 4) =~= h.subrange(0, 4));
        assert(b.subrange(4, 8) =~= h.subrange(4, 8));
        assert(b.subrange(8, 12) =~= h.subrange(8, 12));
        assert(b.subrange(12, 16) =~= h.subrange(12, 16));
        assert(b.subrange(16, 20) =~= h.subrange(16, 20));
        assert(b.subrange(20, 22) =~= h.subrange(20, 22));
    }
}

/// The chunks of a message that was packed are found in it, in their order, each with its tag and
/// its payload.
pub proof fn packed_chunks_are_found(
    out: &mut [u8],
    type_: u32,
    trans: u32,
    flag: u32,
    chunks: &[HxChunk<'_>],
    scratch: &[u8],
    max: u16,
    r: usize,
    it: wire::ChunkIter<'_>,
    b: &[u8],
    i: int,
)
    requires
        r > 0,
        call_ensures(
            gtkhx_proto_pack_message,
            (out, type_, trans, flag, chunks, scratch, max),
            r,
        ),
        b@ == final(out)@,
        call_ensures(wire::ChunkIter::over_message, (b, r), it),
    ensures
        it.rest().len() == chunks@.len(),
        0 <= i < chunks@.len() ==> it.rest()[i].tag == chunks@[i].tag && it.rest()[i].data
            == chunks@[i].payload(scratch@),
{
    let views = sent_views(chunks@, scratch@);
    let n = chunks@.len() as int;
    lemma_sent_len(chunks@, scratch@, n);
    assert(views.take(n) =~= views);
    assert forall|k: int| 0 <= k < views.len() implies (#[trigger] views[k]).data.len()
        <= u16::MAX by {
        assert(chunks@[k].valid(scratch@));
        assert(views[k].data.len() == chunks@[k].len);
    }
    message_reads_back(type_, trans, flag, views, u32::MAX);
    let m = message_bytes(type_, trans, flag, views);
    assert(b@.take(r as int) =~= m);
    assert(m.take(m.len() as int) =~= m);
}

/// The header of a transfer takes sixteen bytes: `HTXF`, the reference, the length, the type and the
/// flags. With less room nothing is written.
pub proof fn transfer_headers_are_written(
    out: &mut [u8],
    ref_id: u32,
    len: u32,
    code: u16,
    flags: u16,
    r: bool,
    i: int,
)
    requires
        call_ensures(gtkhx_proto_htxf_hdr_pack, (out, ref_id, len, code, flags), r),
    ensures
        r <==> old(out)@.len() >= 16,
        final(out)@.len() == old(out)@.len(),
        !r ==> final(out)@ == old(out)@,
        r ==> {
            let b = final(out)@;
            &&& b[0] == 0x48 && b[1] == 0x54 && b[2] == 0x58 && b[3] == 0x46
            &&& bytes::be32_at(b, 4) == ref_id
            &&& bytes::be32_at(b, 8) == len
            &&& bytes::be16_at(b, 12) == code
            &&& bytes::be16_at(b, 14) == flags
            &&& 16 <= i < b.len() ==> b[i] == old(out)@[i]
        },
{
    if r {
        let b = final(out)@;
        bytes::be32_round_trip(ref_id, Seq::empty());
        bytes::be32_round_trip(len, Seq::empty());
        bytes::be16_round_trip(code, Seq::empty());
        bytes::be16_round_trip(flags, Seq::empty());
        assert(b.subrange(4, 8) =~= bytes::be32_bytes(ref_id));
        assert(b.subrange(8, 12) =~= bytes::be32_bytes(len));
        assert(b.subrange(12, 14) =~= bytes::be16_bytes(code));
        assert(b.subrange(14, 16) =~= bytes::be16_bytes(flags));
    }
}

/// Capabilities are a number of up to eight bytes, the highest first: each further byte makes those
/// before it weigh 256 times as much. Bytes behind the eighth do not count.
pub proof fn capabilities_are_a_number(a: &[u8], b: &[u8], x: u8, n: u64, m: u64)
    requires
        call_ensures(gtkhx_proto_capabilities_decode, (a,), n),
        call_ensures(gtkhx_proto_capabilities_decode, (b,), m),
        b@ == a@.push(x),
    ensures
        a@.len() == 0 ==> n == 0,
        a@.len() < 8 ==> m == n * 256 + x,
        a@.len() >= 8 ==> m == n,
{
    if a@.len() < 8 {
        assert(b@.drop_last() =~= a@);
    } else {
        assert(b@.take(8) =~= a@.take(8));
        assert(a@.len() == 8 ==> a@.take(8) =~= a@);
    }
}

} // verus!
