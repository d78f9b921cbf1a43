//! Outgoing messages.
//!
//! A builder fills chunks that the caller provides and returns how many it filled, or zero when a
//! field does not fit the wire or there is too little room. Integer fields are written into a
//! scratch buffer of the caller's, and their chunks refer to it; longer fields stay where they are.
use crate::bytes;
use crate::bytes::{array16, array32, copy_into};
use crate::wire::ChunkView;
use vstd::prelude::*;
use vstd::slice::slice_subrange;

verus! {

/// Where the payload of a chunk stands.
#[derive(Debug, Clone, Copy)]
pub enum ChunkData<'a> {
    /// Nowhere: the payload is empty.
    Null,
    /// In the scratch buffer, from this offset on.
    Scratch(usize),
    /// In memory of its own.
    Bytes(&'a [u8]),
}

/// A chunk that is about to be sent.
#[derive(Debug, Clone, Copy)]
pub struct HxChunk<'a> {
    pub tag: u16,
    pub len: u16,
    pub data: ChunkData<'a>,
}

impl<'a> HxChunk<'a> {
    /// The payload is all there, given the scratch buffer that the chunk was built with. An empty
    /// payload is, wherever it is said to stand.
    pub open spec fn valid(&self, scratch: Seq<u8>) -> bool {
        self.len == 0 || match self.data {
            ChunkData::Null => false,
            ChunkData::Scratch(at) => at + self.len <= scratch.len(),
            ChunkData::Bytes(b) => self.len <= b@.len(),
        }
    }

    /// The payload, given the scratch buffer that the chunk was built with.
    pub open spec fn payload(&self, scratch: Seq<u8>) -> Seq<u8> {
        if self.len == 0 {
            Seq::empty()
        } else {
            match self.data {
                ChunkData::Null => Seq::empty(),
                ChunkData::Scratch(at) => scratch.subrange(at as int, at + self.len),
                ChunkData::Bytes(b) => b@.subrange(0, self.len as int),
            }
        }
    }

    /// The chunk that will be sent.
    pub open spec fn sent(&self, scratch: Seq<u8>) -> ChunkView {
        ChunkView { tag: self.tag, data: self.payload(scratch) }
    }

    /// A chunk with nothing in it, to make room for others.
    pub fn empty() -> (r: Self)
        ensures
            r == (HxChunk { tag: 0, len: 0, data: ChunkData::Null }),
    {
        HxChunk { tag: 0, len: 0, data: ChunkData::Null }
    }

    /// A chunk whose payload stands in the scratch buffer.
    pub fn in_scratch(tag: u16, at: usize, len: u16) -> (r: Self)
        ensures
            r == (HxChunk { tag, len, data: ChunkData::Scratch(at) }),
    {
        HxChunk { tag, len, data: ChunkData::Scratch(at) }
    }

    /// A chunk that sends all of `data`.
    pub fn of_bytes(tag: u16, data: &'a [u8]) -> (r: Self)
        requires
            data@.len() <= u16::MAX,
        ensures
            r.tag == tag,
            r.len == data@.len(),
            r.data == ChunkData::Bytes(data),
            forall|scratch: Seq<u8>| #[trigger] r.valid(scratch),
            forall|scratch: Seq<u8>| #[trigger]
                r.sent(scratch) == (ChunkView { tag, data: data@ }),
    {
        assert(data@.subrange(0, data@.len() as int) =~= data@);
        assert(data@.len() == 0 ==> data@ =~= Seq::<u8>::empty());
        HxChunk { tag, len: data.len() as u16, data: ChunkData::Bytes(data) }
    }

    /// The payload.
    pub fn bytes<'b>(&self, scratch: &'b [u8]) -> (r: &'b [u8]) where 'a: 'b
        requires
            self.valid(scratch@),
        ensures
            r@ == self.payload(scratch@),
    {
        assert(scratch@.subrange(0, 0) =~= Seq::<u8>::empty());
        if self.len == 0 {
            return slice_subrange(scratch, 0, 0);
        }
        match self.data {
            ChunkData::Null => slice_subrange(scratch, 0, 0),
            ChunkData::Scratch(at) => {
                assert(at + self.len <= scratch.len());
                slice_subrange(scratch, at, at + self.len as usize)
            },
            ChunkData::Bytes(b) => slice_subrange(b, 0, self.len as usize),
        }
    }
}

/// A chunk with the given content.
pub open spec fn field(tag: u16, data: Seq<u8>) -> ChunkView {
    ChunkView { tag, data }
}

/// The first `n` chunks send `expected`.
pub open spec fn sends(
    chunks: Seq<HxChunk<'_>>,
    n: int,
    scratch: Seq<u8>,
    expected: Seq<ChunkView>,
) -> bool {
    &&& n == expected.len()
    &&& n <= chunks.len()
    &&& forall|i: int|
        #![trigger chunks[i]]
        0 <= i < n ==> chunks[i].valid(scratch) && chunks[i].sent(scratch) == expected[i]
}

/// What a builder does with its buffers. If `accepted`, its first `n` chunks send `expected`, the
/// scratch buffer starts with `fixed`, and the rest of both is as it was. If not, it returns zero
/// and touches nothing.
pub open spec fn built(
    accepted: bool,
    old_chunks: Seq<HxChunk<'_>>,
    chunks: Seq<HxChunk<'_>>,
    old_scratch: Seq<u8>,
    scratch: Seq<u8>,
    n: int,
    fixed: Seq<u8>,
    expected: Seq<ChunkView>,
) -> bool {
    if accepted {
        &&& sends(chunks, n, scratch, expected)
        &&& chunks.len() == old_chunks.len()
        &&& chunks.skip(n) == old_chunks.skip(n)
        &&& scratch == bytes::overwrite(old_scratch, 0, fixed)
    } else {
        &&& n == 0
        &&& chunks == old_chunks
        &&& scratch == old_scratch
    }
}

/// The payload of a chunk in a scratch buffer that starts with `fixed`.
pub proof fn lemma_scratch_chunk(
    c: HxChunk<'_>,
    old_scratch: Seq<u8>,
    fixed: Seq<u8>,
    at: int,
    data: Seq<u8>,
)
    requires
        fixed.len() <= old_scratch.len(),
        0 <= at,
        at + data.len() <= fixed.len(),
        fixed.subrange(at, at + data.len()) == data,
        c.data == ChunkData::<'_>::Scratch(at as usize),
        at <= usize::MAX,
        c.len == data.len(),
    ensures
        c.valid(bytes::overwrite(old_scratch, 0, fixed)),
        c.sent(bytes::overwrite(old_scratch, 0, fixed)) == field(c.tag, data),
{
    let s = bytes::overwrite(old_scratch, 0, fixed);
    assert(s.subrange(at, at + data.len()) =~= fixed.subrange(at, at + data.len()));
    if data.len() == 0 {
        assert(data =~= Seq::<u8>::empty());
    }
}

/// Writes a `u16` into the scratch buffer.
pub fn scratch16(scratch: &mut [u8], at: usize, v: u16)
    requires
        at + 2 <= old(scratch)@.len(),
    ensures
        final(scratch)@ == bytes::overwrite(old(scratch)@, at as int, bytes::be16_bytes(v)),
{
    copy_into(scratch, at, &array16(v));
}

/// Writes a `u32` into the scratch buffer.
pub fn scratch32(scratch: &mut [u8], at: usize, v: u32)
    requires
        at + 4 <= old(scratch)@.len(),
    ensures
        final(scratch)@ == bytes::overwrite(old(scratch)@, at as int, bytes::be32_bytes(v)),
{
    proof {
        bytes::be32_round_trip(v, Seq::empty());
    }
    copy_into(scratch, at, &array32(v));
}

/// The chunk of a field that may be missing.
pub open spec fn opt_field(tag: u16, data: Option<&[u8]>) -> Seq<ChunkView> {
    match data {
        Some(d) => seq![field(tag, d@)],
        None => seq![],
    }
}

/// The chunk of a field that is sent only if `there`.
pub open spec fn field_if(there: bool, tag: u16, data: Seq<u8>) -> Seq<ChunkView> {
    if there {
        seq![field(tag, data)]
    } else {
        seq![]
    }
}

/// A field that may be missing fits a chunk.
pub open spec fn opt_fits(data: Option<&[u8]>) -> bool {
    match data {
        Some(d) => d@.len() <= u16::MAX,
        None => true,
    }
}

/// A field that may be missing fits a chunk.
pub fn fits(data: Option<&[u8]>) -> (r: bool)
    ensures
        r == opt_fits(data),
{
    match data {
        Some(d) => d.len() <= u16::MAX as usize,
        None => true,
    }
}

/// Fills the next chunk, and says what the chunks send then.
fn put<'a>(
    chunks: &mut [HxChunk<'a>],
    n: usize,
    c: HxChunk<'a>,
    Ghost(scratch): Ghost<Seq<u8>>,
    Ghost(sent): Ghost<Seq<ChunkView>>,
) -> (r: usize)
    requires
        n < old(chunks)@.len(),
        sends(old(chunks)@, n as int, scratch, sent),
        c.valid(scratch),
    ensures
        r == n + 1,
        final(chunks)@.len() == old(chunks)@.len(),
        sends(final(chunks)@, r as int, scratch, sent.push(c.sent(scratch))),
        forall|i: int|
            #![trigger final(chunks)@[i]]
            r <= i < old(chunks)@.len() ==> final(chunks)@[i] == old(chunks)@[i],
{
    chunks[n] = c;
    assert(n + 1 <= chunks.len());
    n + 1
}

/// Fills the next chunk with a field that stands in memory of its own.
pub(crate) fn put_data<'a>(
    chunks: &mut [HxChunk<'a>],
    n: usize,
    tag: u16,
    data: &'a [u8],
    Ghost(scratch): Ghost<Seq<u8>>,
    Ghost(sent): Ghost<Seq<ChunkView>>,
) -> (r: usize)
    requires
        n < old(chunks)@.len(),
        sends(old(chunks)@, n as int, scratch, sent),
        data@.len() <= u16::MAX,
    ensures
        r == n + 1,
        final(chunks)@.len() == old(chunks)@.len(),
        sends(final(chunks)@, r as int, scratch, sent.push(field(tag, data@))),
        forall|i: int|
            #![trigger final(chunks)@[i]]
            r <= i < old(chunks)@.len() ==> final(chunks)@[i] == old(chunks)@[i],
{
    let c = HxChunk::of_bytes(tag, data);
    assert(c.valid(scratch));
    assert(c.sent(scratch) == field(tag, data@));
    put(chunks, n, c, Ghost(scratch), Ghost(sent))
}

/// Fills the next chunk with a field that may be missing.
pub(crate) fn put_opt<'a>(
    chunks: &mut [HxChunk<'a>],
    n: usize,
    tag: u16,
    data: Option<&'a [u8]>,
    Ghost(scratch): Ghost<Seq<u8>>,
    Ghost(sent): Ghost<Seq<ChunkView>>,
) -> (r: usize)
    requires
        n < old(chunks)@.len(),
        sends(old(chunks)@, n as int, scratch, sent),
        opt_fits(data),
    ensures
        r == n + opt_field(tag, data).len(),
        final(chunks)@.len() == old(chunks)@.len(),
        sends(final(chunks)@, r as int, scratch, sent + opt_field(tag, data)),
        forall|i: int|
            #![trigger final(chunks)@[i]]
            r <= i < old(chunks)@.len() ==> final(chunks)@[i] == old(chunks)@[i],
{
    match data {
        Some(d) => {
            assert(sent + opt_field(tag, data) =~= sent.push(field(tag, d@)));
            put_data(chunks, n, tag, d, Ghost(scratch), Ghost(sent))
        },
        None => {
            assert(sent + opt_field(tag, data) =~= sent);
            n
        },
    }
}

/// Fills the next chunk with a field that stands in the scratch buffer.
pub(crate) fn put_scratch<'a>(
    chunks: &mut [HxChunk<'a>],
    n: usize,
    tag: u16,
    at: usize,
    len: u16,
    Ghost(scratch): Ghost<Seq<u8>>,
    Ghost(sent): Ghost<Seq<ChunkView>>,
) -> (r: usize)
    requires
        n < old(chunks)@.len(),
        sends(old(chunks)@, n as int, scratch, sent),
        at + len <= scratch.len(),
    ensures
        r == n + 1,
        final(chunks)@.len() == old(chunks)@.len(),
        sends(
            final(chunks)@,
            r as int,
            scratch,
            sent.push(field(tag, scratch.subrange(at as int, at + len))),
        ),
        forall|i: int|
            #![trigger final(chunks)@[i]]
            r <= i < old(chunks)@.len() ==> final(chunks)@[i] == old(chunks)@[i],
{
    let c = HxChunk::in_scratch(tag, at, len);
    assert(c.payload(scratch) =~= scratch.subrange(at as int, at + len));
    put(chunks, n, c, Ghost(scratch), Ghost(sent))
}

/// What a chunk sends: nothing if its length is zero, and else that many bytes of the scratch
/// buffer from its place on, or of its own memory from the start.
pub proof fn payloads_lie_where_they_are_said(
    c: HxChunk<'_>,
    scratch: &[u8],
    r: &[u8],
    at: usize,
    b: &[u8],
)
    requires
        call_ensures(HxChunk::bytes, (&c, scratch), r),
    ensures
        c.len == 0 ==> r@.len() == 0,
        c.len > 0 && c.data == ChunkData::<'_>::Scratch(at) ==> r@ == scratch@.subrange(
            at as int,
            at + c.len,
        ),
        c.len > 0 && c.data == ChunkData::<'_>::Bytes(b) ==> r@ == b@.take(c.len as int),
        c.sent(scratch@).tag == c.tag && c.sent(scratch@).data == r@,
{
    if c.len > 0 && c.data == ChunkData::<'_>::Bytes(b) {
        assert(b@.subrange(0, c.len as int) =~= b@.take(c.len as int));
    }
}

/// Chunks are made with the tag, the place and the length that they are given, and empty ones with
/// nothing.
pub proof fn chunks_are_made(
    tag: u16,
    at: usize,
    len: u16,
    data: &[u8],
    c: HxChunk<'_>,
    d: HxChunk<'_>,
    e: HxChunk<'_>,
)
    requires
        data@.len() <= 0xffff,
        call_ensures(HxChunk::in_scratch, (tag, at, len), c),
        call_ensures(HxChunk::of_bytes, (tag, data), d),
        call_ensures(HxChunk::empty, (), e),
    ensures
        c.tag == tag && c.len == len && c.data == ChunkData::<'_>::Scratch(at),
        d.tag == tag && d.len == data@.len() && d.data == ChunkData::<'_>::Bytes(data),
        e.tag == 0 && e.len == 0 && e.data is Null,
{
}

/// Numbers are put into the scratch buffer with their high byte first, and nothing else changes.
pub proof fn numbers_are_put_in_place(
    s: &mut [u8],
    t: &mut [u8],
    at: usize,
    v: u16,
    w: u32,
    i: int,
)
    requires
        at + 2 <= s@.len(),
        at + 4 <= t@.len(),
        call_ensures(scratch16, (s, at, v), ()),
        call_ensures(scratch32, (t, at, w), ()),
    ensures
        final(s)@.len() == old(s)@.len(),
        final(t)@.len() == old(t)@.len(),
        bytes::be16_at(final(s)@, at as int) == v,
        bytes::be32_at(final(t)@, at as int) == w,
        0 <= i < at || at + 2 <= i < old(s)@.len() ==> final(s)@[i] == old(s)@[i],
        0 <= i < at || at + 4 <= i < old(t)@.len() ==> final(t)@[i] == old(t)@[i],
{
    bytes::be16_round_trip(v, Seq::empty());
    bytes::be32_round_trip(w, Seq::empty());
    assert(final(s)@.subrange(at as int, at + 2) =~= bytes::be16_bytes(v));
    assert(final(t)@.subrange(at as int, at + 4) =~= bytes::be32_bytes(w));
}

/// A field that may be missing fits exactly if it is missing or has at most 65535 bytes.
pub proof fn fields_fit(data: Option<&[u8]>, r: bool)
    requires
        call_ensures(fits, (data,), r),
    ensures
        data is None ==> r,
        data matches Some(d) ==> r == (d@.len() <= 0xffff),
{
}

/// A payload is all there if it is empty, or if the scratch buffer or the memory of its own reaches
/// far enough.
pub proof fn payloads_are_all_there(c: HxChunk<'_>, scratch: Seq<u8>, at: usize, b: &[u8])
    ensures
        c.len == 0 ==> c.valid(scratch),
        c.len > 0 && c.data is Null ==> !c.valid(scratch),
        c.len > 0 && c.data == ChunkData::<'_>::Scratch(at) ==> (c.valid(scratch) <==> at + c.len
            <= scratch.len()),
        c.len > 0 && c.data == ChunkData::<'_>::Bytes(b) ==> (c.valid(scratch) <==> c.len
            <= b@.len()),
{
}

} // verus!
