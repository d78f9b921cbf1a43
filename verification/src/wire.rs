//! Big-endian reads and writes over byte slices, and the data-chunk framing.
use crate::bytes;
use crate::bytes::{get16, get32, get64, put16, put32};
use crate::{HL_DATA_HDR_LEN, HL_HDR_LEN};
use vstd::prelude::*;
use vstd::slice::slice_subrange;

verus! {

/// A cursor over a borrowed buffer that reads big-endian integers and byte runs, and checks the
/// bounds of every read.
#[derive(Debug)]
pub struct Decoder<'a> {
    buf: &'a [u8],
    pos: usize,
}

impl<'a> Clone for Decoder<'a> {
    fn clone(&self) -> (r: Self)
        ensures
            r.data() == self.data(),
            r.cursor() == self.cursor(),
    {
        proof {
            use_type_invariant(self);
        }
        Decoder { buf: self.buf, pos: self.pos }
    }
}

impl<'a> Decoder<'a> {
    #[verifier::type_invariant]
    spec fn inv(&self) -> bool {
        self.pos <= self.buf@.len()
    }

    /// The buffer.
    pub closed spec fn data(&self) -> Seq<u8> {
        self.buf@
    }

    /// Where the cursor stands.
    pub closed spec fn cursor(&self) -> int {
        self.pos as int
    }

    /// At least `n` bytes are left.
    pub open spec fn holds(&self, n: int) -> bool {
        self.cursor() + n <= self.data().len()
    }

    /// The cursor moved `n` bytes ahead of where `before` had it.
    pub open spec fn advanced(&self, before: &Self, n: int) -> bool {
        self.data() == before.data() && self.cursor() == before.cursor() + n
    }

    /// Wraps a buffer with the cursor at its start.
    pub fn new(buf: &'a [u8]) -> (d: Self)
        ensures
            d.data() == buf@,
            d.cursor() == 0,
    {
        Decoder { buf, pos: 0 }
    }

    /// Wraps a buffer with the cursor at `pos`, or at its end where it is shorter.
    pub fn at(buf: &'a [u8], pos: usize) -> (d: Self)
        ensures
            d.data() == buf@,
            d.cursor() == (if pos <= buf@.len() {
                pos as int
            } else {
                buf@.len() as int
            }),
    {
        Decoder {
            buf,
            pos: if pos <= buf.len() {
                pos
            } else {
                buf.len()
            },
        }
    }

    /// Where the cursor stands.
    pub fn pos(&self) -> (r: usize)
        ensures
            r == self.cursor(),
    {
        self.pos
    }

    /// Bytes behind the cursor.
    pub fn remaining(&self) -> (r: usize)
        ensures
            r == self.data().len() - self.cursor(),
    {
        proof {
            use_type_invariant(self);
        }
        self.buf.len() - self.pos
    }

    /// Reads a `u16`. `None`, with the cursor unmoved, if fewer than two bytes remain.
    pub fn u16(&mut self) -> (r: Option<u16>)
        ensures
            match r {
                Some(v) => old(self).holds(2) && v == bytes::be16_at(
                    old(self).data(),
                    old(self).cursor(),
                ) && final(self).advanced(old(self), 2),
                None => !old(self).holds(2) && final(self).advanced(old(self), 0),
            },
    {
        proof {
            use_type_invariant(&*self);
        }
        if self.buf.len() - self.pos < 2 {
            return None;
        }
        let v: u16 = get16(self.buf, self.pos);
        self.pos = self.pos + 2;
        Some(v)
    }

    /// Reads a `u32`. `None`, with the cursor unmoved, if fewer than four bytes remain.
    pub fn u32(&mut self) -> (r: Option<u32>)
        ensures
            match r {
                Some(v) => old(self).holds(4) && v == bytes::be32_at(
                    old(self).data(),
                    old(self).cursor(),
                ) && final(self).advanced(old(self), 4),
                None => !old(self).holds(4) && final(self).advanced(old(self), 0),
            },
    {
        proof {
            use_type_invariant(&*self);
        }
        if self.buf.len() - self.pos < 4 {
            return None;
        }
        let v: u32 = get32(self.buf, self.pos);
        self.pos = self.pos + 4;
        Some(v)
    }

    /// Reads a `u64`. `None`, with the cursor unmoved, if fewer than eight bytes remain.
    pub fn u64(&mut self) -> (r: Option<u64>)
        ensures
            match r {
                Some(v) => old(self).holds(8) && v == bytes::be64_at(
                    old(self).data(),
                    old(self).cursor(),
                ) && final(self).advanced(old(self), 8),
                None => !old(self).holds(8) && final(self).advanced(old(self), 0),
            },
    {
        proof {
            use_type_invariant(&*self);
        }
        if self.buf.len() - self.pos < 8 {
            return None;
        }
        let v: u64 = get64(self.buf, self.pos);
        self.pos = self.pos + 8;
        Some(v)
    }

    /// Borrows `n` bytes. `None`, with the cursor unmoved, if fewer remain.
    pub fn bytes(&mut self, n: usize) -> (r: Option<&'a [u8]>)
        ensures
            match r {
                Some(s) => old(self).holds(n as int) && s@ == old(self).data().subrange(
                    old(self).cursor(),
                    old(self).cursor() + n,
                ) && final(self).advanced(old(self), n as int),
                None => !old(self).holds(n as int) && final(self).advanced(old(self), 0),
            },
    {
        proof {
            use_type_invariant(&*self);
        }
        if self.buf.len() - self.pos < n {
            return None;
        }
        let s = slice_subrange(self.buf, self.pos, self.pos + n);
        self.pos = self.pos + n;
        Some(s)
    }

    /// Reads a length-prefixed byte string: one byte of length and that many bytes. `None`, with
    /// the cursor unmoved, if the length byte or the bytes it promises run off the end.
    pub fn pstring(&mut self) -> (r: Option<&'a [u8]>)
        ensures
            ({
                let b = old(self).data();
                let at = old(self).cursor();
                match r {
                    Some(s) => {
                        &&& old(self).holds(1)
                        &&& old(self).holds(1 + b[at])
                        &&& s@ == b.subrange(at + 1, at + 1 + b[at])
                        &&& final(self).advanced(old(self), 1 + b[at])
                    },
                    None => {
                        &&& old(self).holds(1) ==> !old(self).holds(1 + b[at])
                        &&& final(self).advanced(old(self), 0)
                    },
                }
            }),
    {
        proof {
            use_type_invariant(&*self);
        }
        if self.pos >= self.buf.len() {
            return None;
        }
        let len: usize = self.buf[self.pos] as usize;
        if self.buf.len() - self.pos - 1 < len {
            return None;
        }
        let s = slice_subrange(self.buf, self.pos + 1, self.pos + 1 + len);
        self.pos = self.pos + 1 + len;
        Some(s)
    }
}

/// One data chunk: a type tag and the payload bytes.
#[derive(Debug, Clone, Copy)]
pub struct Chunk<'a> {
    /// The chunk type tag.
    pub tag: u16,
    /// The payload bytes.
    pub data: &'a [u8],
}

/// What a [`Chunk`] holds.
pub struct ChunkView {
    pub tag: u16,
    pub data: Seq<u8>,
}

impl<'a> View for Chunk<'a> {
    type V = ChunkView;

    open spec fn view(&self) -> ChunkView {
        ChunkView { tag: self.tag, data: self.data@ }
    }
}

/// The integer that a payload spells: of four bytes a `u32`, of two a `u16`, of any other number
/// zero.
pub open spec fn uint_of(data: Seq<u8>) -> u32 {
    if data.len() == 4 {
        bytes::be32(data)
    } else if data.len() == 2 {
        bytes::be16(data) as u32
    } else {
        0
    }
}

impl<'a> Chunk<'a> {
    /// The payload as a big-endian integer; zero if it has neither two nor four bytes.
    pub fn as_uint(&self) -> (r: u32)
        ensures
            r == uint_of(self.data@),
    {
        if self.data.len() == 4 {
            assert(self.data@.subrange(0, 4) =~= self.data@);
            get32(self.data, 0)
        } else if self.data.len() == 2 {
            assert(self.data@.subrange(0, 2) =~= self.data@);
            get16(self.data, 0) as u32
        } else {
            0
        }
    }
}

/// A chunk header and all of its payload stand at `pos`.
pub open spec fn chunk_at(b: Seq<u8>, pos: int) -> bool {
    0 <= pos && pos + 4 <= b.len() && pos + 4 + bytes::be16_at(b, pos + 2) <= b.len()
}

/// The chunks that stand one behind the other from `pos` on. A chunk whose declared length runs
/// past the end stops the walk.
pub open spec fn chunks_from(b: Seq<u8>, pos: int) -> Seq<ChunkView>
    decreases b.len() - pos,
{
    if chunk_at(b, pos) {
        let end = pos + 4 + bytes::be16_at(b, pos + 2);
        seq![ChunkView { tag: bytes::be16_at(b, pos), data: b.subrange(pos + 4, end) }]
            + chunks_from(b, end)
    } else {
        seq![]
    }
}

/// The chunks of a whole message of which `len` bytes are valid: they start behind the transaction
/// header.
pub open spec fn message_chunks(b: Seq<u8>, len: int) -> Seq<ChunkView> {
    let valid = if len <= b.len() {
        b.take(len)
    } else {
        b
    };
    chunks_from(valid, HL_HDR_LEN as int)
}

/// A walk over the data chunks of a message body.
#[derive(Debug, Clone)]
pub struct ChunkIter<'a> {
    buf: &'a [u8],
    pos: usize,
}

impl<'a> ChunkIter<'a> {
    /// The chunks that are still to come.
    pub closed spec fn rest(&self) -> Seq<ChunkView> {
        chunks_from(self.buf@, self.pos as int)
    }

    /// Walks the chunks of a full message, its transaction header included. `len` is the number of
    /// valid bytes in `buf`; the others are ignored.
    pub fn over_message(buf: &'a [u8], len: usize) -> (it: Self)
        ensures
            it.rest() == message_chunks(buf@, len as int),
    {
        let end: usize = if len <= buf.len() {
            len
        } else {
            buf.len()
        };
        assert(buf@.subrange(0, end as int) =~= buf@.take(end as int));
        assert(buf@.take(buf@.len() as int) =~= buf@);
        ChunkIter { buf: slice_subrange(buf, 0, end), pos: HL_HDR_LEN }
    }

    /// Walks chunks from an arbitrary offset.
    pub fn at(buf: &'a [u8], start: usize) -> (it: Self)
        ensures
            it.rest() == chunks_from(buf@, start as int),
    {
        proof {
            if start > buf@.len() {
                assert(chunks_from(buf@, start as int) =~= chunks_from(
                    buf@,
                    buf@.len() as int,
                ));
            }
        }
        ChunkIter {
            buf,
            pos: if start <= buf.len() {
                start
            } else {
                buf.len()
            },
        }
    }

    /// The next chunk.
    pub fn next(&mut self) -> (r: Option<Chunk<'a>>)
        ensures
            match r {
                Some(c) => old(self).rest().len() > 0 && c@ == old(self).rest()[0]
                    && final(self).rest() == old(self).rest().drop_first(),
                None => old(self).rest().len() == 0 && final(self).rest() == old(self).rest(),
            },
    {
        if self.buf.len() < HL_DATA_HDR_LEN || self.pos > self.buf.len() - HL_DATA_HDR_LEN {
            return None;
        }
        let tag: u16 = get16(self.buf, self.pos);
        let len: usize = get16(self.buf, self.pos + 2) as usize;
        let data_start: usize = self.pos + HL_DATA_HDR_LEN;
        if len > self.buf.len() - data_start {
            return None;
        }
        let data = slice_subrange(self.buf, data_start, data_start + len);
        let ghost before = self.rest();
        self.pos = data_start + len;
        assert(before.drop_first() =~= self.rest());
        Some(Chunk { tag, data })
    }

    /// All the chunks that are still to come.
    pub fn collect(self) -> (r: Vec<Chunk<'a>>)
        ensures
            r@.len() == self.rest().len(),
            forall|i: int| 0 <= i < r@.len() ==> #[trigger] r@[i]@ == self.rest()[i],
    {
        let ghost all = self.rest();
        let mut it = self;
        let mut out: Vec<Chunk<'a>> = Vec::new();
        loop
            invariant
                out@.len() + it.rest().len() == all.len(),
                forall|i: int| 0 <= i < out@.len() ==> #[trigger] out@[i]@ == all[i],
                it.rest() =~= all.skip(out@.len() as int),
            ensures
                it.rest().len() == 0,
            decreases it.rest().len(),
        {
            match it.next() {
                Some(c) => {
                    out.push(c);
                },
                None => {
                    break ;
                },
            }
        }
        out
    }
}

/// A growable big-endian message builder.
#[derive(Debug, Clone)]
pub struct Encoder {
    buf: Vec<u8>,
}

impl View for Encoder {
    type V = Seq<u8>;

    closed spec fn view(&self) -> Seq<u8> {
        self.buf@
    }
}

impl Default for Encoder {
    fn default() -> (e: Self)
        ensures
            e@ == Seq::<u8>::empty(),
    {
        Encoder { buf: Vec::new() }
    }
}

/// A chunk on the wire: tag, length and payload.
pub open spec fn chunk_bytes(tag: u16, data: Seq<u8>) -> Seq<u8> {
    bytes::be16_bytes(tag) + bytes::be16_bytes(data.len() as u16) + data
}

impl Encoder {
    /// A fresh, empty encoder.
    pub fn new() -> (e: Self)
        ensures
            e@ == Seq::<u8>::empty(),
    {
        Encoder { buf: Vec::new() }
    }

    /// Appends a `u16`.
    pub fn put_u16(&mut self, v: u16) -> (r: &mut Self)
        ensures
            r@ == old(self)@ + bytes::be16_bytes(v),
            *final(self) == *final(r),
    {
        put16(&mut self.buf, v);
        self
    }

    /// Appends a `u32`.
    pub fn put_u32(&mut self, v: u32) -> (r: &mut Self)
        ensures
            r@ == old(self)@ + bytes::be32_bytes(v),
            *final(self) == *final(r),
    {
        put32(&mut self.buf, v);
        self
    }

    /// Appends raw bytes.
    pub fn put_bytes(&mut self, b: &[u8]) -> (r: &mut Self)
        ensures
            r@ == old(self)@ + b@,
            *final(self) == *final(r),
    {
        bytes::put_bytes(&mut self.buf, b);
        self
    }

    /// Appends a data chunk. Chunk lengths have sixteen bits on the wire.
    pub fn put_chunk(&mut self, tag: u16, data: &[u8]) -> (r: &mut Self)
        requires
            data@.len() <= u16::MAX,
        ensures
            r@ == old(self)@ + chunk_bytes(tag, data@),
            *final(self) == *final(r),
    {
        let ghost before = self@;
        self.put_u16(tag);
        self.put_u16(data.len() as u16);
        self.put_bytes(data);
        assert(self@ =~= before + chunk_bytes(tag, data@));
        self
    }

    /// The assembled bytes.
    pub fn into_vec(self) -> (r: Vec<u8>)
        ensures
            r@ == self@,
    {
        self.buf
    }

    /// Borrows the assembled bytes.
    pub fn as_slice(&self) -> (r: &[u8])
        ensures
            r@ == self@,
    {
        self.buf.as_slice()
    }
}

proof fn lemma_cut_walk(b: Seq<u8>, n: int, pos: int)
    requires
        0 <= n <= b.len(),
        0 <= pos,
    ensures
        chunks_from(b.take(n), pos).is_prefix_of(chunks_from(b, pos)),
    decreases b.len() - pos,
{
    let cut = b.take(n);
    if pos + 4 <= n {
        assert(cut.subrange(pos, pos + 2) =~= b.subrange(pos, pos + 2));
        assert(cut.subrange(pos + 2, pos + 4) =~= b.subrange(pos + 2, pos + 4));
        let end = pos + 4 + bytes::be16_at(b, pos + 2);
        if end <= n {
            lemma_cut_walk(b, n, end);
            assert(cut.subrange(pos + 4, end) =~= b.subrange(pos + 4, end));
            let first = seq![
                ChunkView { tag: bytes::be16_at(b, pos), data: b.subrange(pos + 4, end) },
            ];
            let have = chunks_from(cut, end);
            let all = chunks_from(b, end);
            assert(chunks_from(cut, pos) =~= first + have);
            assert(chunks_from(b, pos) =~= first + all);
            assert((first + have) =~= (first + all).take((first + have).len() as int));
        } else {
            assert(chunks_from(cut, pos) =~= Seq::<ChunkView>::empty());
        }
    } else {
        assert(chunks_from(cut, pos) =~= Seq::<ChunkView>::empty());
    }
}

/// A message that is cut short yields the first of its chunks, each of them whole: none is
/// shortened, and none is there that the message does not have.
pub proof fn cut_message_yields_whole_chunks(b: Seq<u8>, n: int)
    requires
        0 <= n <= b.len(),
    ensures
        message_chunks(b, n).is_prefix_of(message_chunks(b, b.len() as int)),
        message_chunks(b.take(n), n) == message_chunks(b, n),
{
    lemma_cut_walk(b, n, HL_HDR_LEN as int);
    assert(b.take(b.len() as int) =~= b);
    assert(b.take(n).take(n) =~= b.take(n));
}

/// Chunks that were written one behind the other are read back in their order, whatever stands in
/// front of them.
pub proof fn chunk_walk_reads_back(head: Seq<u8>, chunks: Seq<ChunkView>)
    requires
        forall|i: int| 0 <= i < chunks.len() ==> (#[trigger] chunks[i]).data.len() <= u16::MAX,
    ensures
        chunks_from(head + chunks_bytes(chunks), head.len() as int) == chunks,
    decreases chunks.len(),
{
    let b = head + chunks_bytes(chunks);
    let pos = head.len() as int;
    if chunks.len() == 0 {
        assert(chunks_from(b, pos) =~= chunks);
    } else {
        let c = chunks[0];
        let first = chunk_bytes(c.tag, c.data);
        let others = chunks.drop_first();
        assert forall|i: int| 0 <= i < others.len() implies (#[trigger] others[i]).data.len()
            <= u16::MAX by {
            assert(others[i] == chunks[i + 1]);
        }
        chunk_walk_reads_back(head + first, others);
        assert(b =~= (head + first) + chunks_bytes(others));
        bytes::be16_round_trip(c.tag, Seq::empty());
        bytes::be16_round_trip(c.data.len() as u16, Seq::empty());
        assert(b.subrange(pos, pos + 2) =~= bytes::be16_bytes(c.tag));
        assert(b.subrange(pos + 2, pos + 4) =~= bytes::be16_bytes(c.data.len() as u16));
        let end = pos + 4 + c.data.len();
        assert(b.subrange(pos + 4, end) =~= c.data);
        assert(seq![c] + others =~= chunks);
    }
}

/// Chunks on the wire, one behind the other.
pub open spec fn chunks_bytes(chunks: Seq<ChunkView>) -> Seq<u8>
    decreases chunks.len(),
{
    if chunks.len() == 0 {
        seq![]
    } else {
        chunk_bytes(chunks[0].tag, chunks[0].data) + chunks_bytes(chunks.drop_first())
    }
}

/// The payload of the last chunk with this tag.
pub open spec fn last_with(chunks: Seq<ChunkView>, tag: u16) -> Option<Seq<u8>>
    decreases chunks.len(),
{
    if chunks.len() == 0 {
        None
    } else if chunks.last().tag == tag {
        Some(chunks.last().data)
    } else {
        last_with(chunks.drop_last(), tag)
    }
}

/// The payload of the first chunk with this tag.
pub open spec fn first_with(chunks: Seq<ChunkView>, tag: u16) -> Option<Seq<u8>>
    decreases chunks.len(),
{
    if chunks.len() == 0 {
        None
    } else if chunks[0].tag == tag {
        Some(chunks[0].data)
    } else {
        first_with(chunks.drop_first(), tag)
    }
}

/// The integer in the last chunk with this tag, or zero.
pub open spec fn last_uint(chunks: Seq<ChunkView>, tag: u16) -> u32 {
    match last_with(chunks, tag) {
        Some(data) => uint_of(data),
        None => 0,
    }
}

/// The bytes of an optional slice.
pub open spec fn opt_view(s: Option<&[u8]>) -> Option<Seq<u8>> {
    match s {
        Some(b) => Some(b@),
        None => None,
    }
}

/// One step of a walk over `all` chunks: `n` of them are behind it, and the next one is `c`.
pub proof fn lemma_walk_step(all: Seq<ChunkView>, n: int, c: ChunkView)
    requires
        0 <= n < all.len(),
        c == all[n],
    ensures
        all.take(n + 1) == all.take(n).push(c),
        all.take(n + 1).drop_last() == all.take(n),
        all.take(n + 1).last() == c,
        all.skip(n).drop_first() == all.skip(n + 1),
{
    assert(all.take(n + 1) =~= all.take(n).push(c));
    assert(all.take(n + 1).drop_last() =~= all.take(n));
    assert(all.skip(n).drop_first() =~= all.skip(n + 1));
}

/// The payload of the last chunk with this tag and a payload of `n` bytes.
pub open spec fn last_sized(chunks: Seq<ChunkView>, tag: u16, n: nat) -> Option<Seq<u8>>
    decreases chunks.len(),
{
    if chunks.len() == 0 {
        None
    } else if chunks.last().tag == tag && chunks.last().data.len() == n {
        Some(chunks.last().data)
    } else {
        last_sized(chunks.drop_last(), tag, n)
    }
}

/// The payload of the first chunk with this tag and a payload of `n` bytes.
pub open spec fn first_sized(chunks: Seq<ChunkView>, tag: u16, n: nat) -> Option<Seq<u8>>
    decreases chunks.len(),
{
    if chunks.len() == 0 {
        None
    } else if chunks[0].tag == tag && chunks[0].data.len() == n {
        Some(chunks[0].data)
    } else {
        first_sized(chunks.drop_first(), tag, n)
    }
}

/// A `u32` from a payload of exactly four bytes.
pub open spec fn exact32(data: Option<Seq<u8>>) -> Option<u32> {
    match data {
        Some(d) => if d.len() == 4 {
            Some(bytes::be32(d))
        } else {
            None
        },
        None => None,
    }
}

/// A `u16` from a payload of exactly two bytes.
pub open spec fn exact16(data: Option<Seq<u8>>) -> Option<u16> {
    match data {
        Some(d) => if d.len() == 2 {
            Some(bytes::be16(d))
        } else {
            None
        },
        None => None,
    }
}

// ---------------------------------------------------------------------------------------------
// What every call does, in numbers.
// ---------------------------------------------------------------------------------------------
/// A decoder starts where it is told to, at the end at the latest; where it stands and what is left
/// make up the buffer.
pub proof fn decoders_start(
    b: &[u8],
    at: usize,
    d: Decoder<'_>,
    e: Decoder<'_>,
    pos: usize,
    left: usize,
)
    requires
        call_ensures(Decoder::new, (b,), d),
        call_ensures(Decoder::at, (b, at), e),
        call_ensures(Decoder::pos, (&e,), pos),
        call_ensures(Decoder::remaining, (&e,), left),
    ensures
        d.data() == b@ && d.cursor() == 0,
        e.data() == b@,
        at <= b@.len() ==> pos == at,
        at > b@.len() ==> pos == b@.len(),
        pos == e.cursor(),
        pos + left == b@.len(),
{
}

/// Numbers are read from where the decoder stands and moved over, if they are all there. If not,
/// nothing moves. The buffer stays.
pub proof fn numbers_are_read(
    d: &mut Decoder<'_>,
    e: &mut Decoder<'_>,
    f: &mut Decoder<'_>,
    r: Option<u16>,
    s: Option<u32>,
    t: Option<u64>,
)
    requires
        call_ensures(Decoder::u16, (d,), r),
        call_ensures(Decoder::u32, (e,), s),
        call_ensures(Decoder::u64, (f,), t),
    ensures
        r is Some <==> old(d).cursor() + 2 <= old(d).data().len(),
        r matches Some(v) ==> v == bytes::be16_at(old(d).data(), old(d).cursor())
            && final(d).cursor() == old(d).cursor() + 2,
        r is None ==> final(d).cursor() == old(d).cursor(),
        s is Some <==> old(e).cursor() + 4 <= old(e).data().len(),
        s matches Some(v) ==> v == bytes::be32_at(old(e).data(), old(e).cursor())
            && final(e).cursor() == old(e).cursor() + 4,
        s is None ==> final(e).cursor() == old(e).cursor(),
        t is Some <==> old(f).cursor() + 8 <= old(f).data().len(),
        t matches Some(v) ==> v == bytes::be64_at(old(f).data(), old(f).cursor())
            && final(f).cursor() == old(f).cursor() + 8,
        t is None ==> final(f).cursor() == old(f).cursor(),
        final(d).data() == old(d).data(),
        final(e).data() == old(e).data(),
        final(f).data() == old(f).data(),
{
}

/// Runs of bytes are read from where the decoder stands and moved over, if they are all there: as
/// many as asked for, or as the first of them says. If not, nothing moves. The buffer stays.
pub proof fn runs_are_read(
    d: &mut Decoder<'_>,
    e: &mut Decoder<'_>,
    n: usize,
    r: Option<&[u8]>,
    s: Option<&[u8]>,
)
    requires
        call_ensures(Decoder::bytes, (d, n), r),
        call_ensures(Decoder::pstring, (e,), s),
        0 <= e.cursor() <= e.data().len(),
    ensures
        r is Some <==> old(d).cursor() + n <= old(d).data().len(),
        r matches Some(v) ==> v@ == old(d).data().subrange(
            old(d).cursor(),
            old(d).cursor() + n,
        ) && final(d).cursor() == old(d).cursor() + n,
        r is None ==> final(d).cursor() == old(d).cursor(),
        s is Some <==> old(e).cursor() < old(e).data().len() && old(e).cursor() + 1 + old(e).data()[old(e).cursor()] <= old(e).data().len(),
        s matches Some(v) ==> v@.len() == old(e).data()[old(e).cursor()] && v@ == old(e).data().subrange(old(e).cursor() + 1, old(e).cursor() + 1 + v@.len())
            && final(e).cursor() == old(e).cursor() + 1 + v@.len(),
        s is None ==> final(e).cursor() == old(e).cursor(),
        final(d).data() == old(d).data(),
        final(e).data() == old(e).data(),
{
}

/// Four bytes are a number of 32 bits, two bytes one of 16 bits, and any others zero.
pub proof fn payloads_are_numbers(c: Chunk<'_>, r: u32)
    requires
        call_ensures(Chunk::as_uint, (&c,), r),
    ensures
        c.data@.len() == 4 ==> r == bytes::be32_at(c.data@, 0),
        c.data@.len() == 2 ==> r == bytes::be16_at(c.data@, 0),
        c.data@.len() != 4 && c.data@.len() != 2 ==> r == 0,
{
    if c.data@.len() == 4 {
        assert(c.data@.subrange(0, 4) =~= c.data@);
    } else if c.data@.len() == 2 {
        assert(c.data@.subrange(0, 2) =~= c.data@);
    }
}

/// A walk from some place yields the chunk that stands there: two bytes of tag, two of length, and
/// as many of payload. It goes on behind that chunk. Where a chunk is not all there, it ends.
pub proof fn chunks_stand_one_behind_the_other(
    b: &[u8],
    start: usize,
    it: &mut ChunkIter<'_>,
    next: usize,
    other: ChunkIter<'_>,
    r: Option<Chunk<'_>>,
)
    requires
        call_ensures(ChunkIter::at, (b, start), *it),
        call_ensures(ChunkIter::next, (it,), r),
        call_ensures(ChunkIter::at, (b, next), other),
    ensures
        r is Some <==> start + 4 <= b@.len() && start + 4 + bytes::be16_at(b@, start + 2)
            <= b@.len(),
        r matches Some(c) ==> {
            let end = start + 4 + bytes::be16_at(b@, start + 2);
            &&& c.tag == bytes::be16_at(b@, start as int)
            &&& c.data@ == b@.subrange(start + 4, end)
            &&& next == end ==> final(it).rest() == other.rest()
        },
        r is None ==> final(it).rest().len() == 0,
{
    if chunk_at(b@, start as int) {
        let end = start + 4 + bytes::be16_at(b@, start + 2);
        let tail = chunks_from(b@, end);
        let all = chunks_from(b@, start as int);
        assert(all[0] == (ChunkView {
            tag: bytes::be16_at(b@, start as int),
            data: b@.subrange(start + 4, end),
        }));
        assert(all.drop_first() =~= tail);
    }
}

/// The chunks of a message start behind the 22 bytes of its header and lie in its valid bytes.
pub proof fn chunks_start_behind_the_header(
    b: &[u8],
    len: usize,
    valid: &[u8],
    it: ChunkIter<'_>,
    other: ChunkIter<'_>,
)
    requires
        call_ensures(ChunkIter::over_message, (b, len), it),
        valid@ == b@.take(
            if len <= b@.len() {
                len as int
            } else {
                b@.len() as int
            },
        ),
        call_ensures(ChunkIter::at, (valid, 22), other),
    ensures
        it.rest() == other.rest(),
{
    assert(b@.take(b@.len() as int) =~= b@);
}

/// A walk is collected in its order, and all of it.
pub proof fn walks_are_collected(it: &mut ChunkIter<'_>, r: Vec<Chunk<'_>>, first: Option<Chunk<'_>>)
    requires
        call_ensures(ChunkIter::collect, (*it,), r),
        call_ensures(ChunkIter::next, (it,), first),
    ensures
        first is None <==> r@.len() == 0,
        first matches Some(c) ==> c.tag == r@[0].tag && c.data@ == r@[0].data@ && final(it).rest().len() == r@.len() - 1,
{
    if r@.len() > 0 {
        assert(r@[0]@ == old(it).rest()[0]);
    }
}

/// A chunk is written as two bytes of tag, two of length, and the payload, behind what was there.
pub proof fn chunks_are_written(
    e: &mut Encoder,
    r: &mut Encoder,
    tag: u16,
    data: &[u8],
    f: &mut Encoder,
    s: &mut Encoder,
    w: u32,
)
    requires
        data@.len() <= 0xffff,
        call_ensures(Encoder::put_chunk, (e, tag, data), r),
        call_ensures(Encoder::put_u32, (f, w), s),
    ensures
        old(r)@.len() == old(e)@.len() + 4 + data@.len(),
        old(r)@.take(old(e)@.len() as int) == old(e)@,
        bytes::be16_at(old(r)@, old(e)@.len() as int) == tag,
        bytes::be16_at(old(r)@, old(e)@.len() as int + 2) == data@.len(),
        old(r)@.skip(old(e)@.len() as int + 4) == data@,
        *final(e) == *final(r),
        old(s)@.take(old(f)@.len() as int) == old(f)@,
        old(s)@.len() == old(f)@.len() + 4,
        bytes::be32_at(old(s)@, old(f)@.len() as int) == w,
{
    let b = old(r)@;
    let n = old(e)@.len() as int;
    bytes::be16_round_trip(tag, Seq::empty());
    bytes::be16_round_trip(data@.len() as u16, Seq::empty());
    assert(b.subrange(n, n + 2) =~= bytes::be16_bytes(tag));
    assert(b.subrange(n + 2, n + 4) =~= bytes::be16_bytes(data@.len() as u16));
    assert(b.skip(n + 4) =~= data@);
    assert(b.take(n) =~= old(e)@);
    let c = old(s)@;
    let m = old(f)@.len() as int;
    bytes::be32_round_trip(w, Seq::empty());
    assert(c.take(m) =~= old(f)@);
    assert(c.subrange(m, m + 4) =~= bytes::be32_bytes(w));
}

/// Where a tag is there more than once, the last chunk with it counts; the first counts for those
/// who ask for the first.
pub proof fn last_and_first_chunk(chunks: Seq<ChunkView>, tag: u16, i: int)
    requires
        0 <= i < chunks.len() ==> chunks[i].tag == tag,
    ensures
        0 <= i < chunks.len() && (forall|j: int|
            i < j < chunks.len() ==> (#[trigger] chunks[j]).tag != tag) ==> last_with(chunks, tag)
            == Some(chunks[i].data),
        0 <= i < chunks.len() && (forall|j: int| 0 <= j < i ==> (#[trigger] chunks[j]).tag != tag)
            ==> first_with(chunks, tag) == Some(chunks[i].data),
        (forall|j: int| 0 <= j < chunks.len() ==> (#[trigger] chunks[j]).tag != tag) ==> last_with(
            chunks,
            tag,
        ) is None && first_with(chunks, tag) is None,
    decreases chunks.len(),
{
    if chunks.len() > 0 {
        let front = chunks.drop_last();
        let back = chunks.drop_first();
        if i < chunks.len() - 1 {
            assert(0 <= i ==> front[i] == chunks[i]);
            last_and_first_chunk(front, tag, i);
        } else {
            last_and_first_chunk(front, tag, -1);
        }
        if i > 0 {
            assert(i < chunks.len() ==> back[i - 1] == chunks[i]);
            last_and_first_chunk(back, tag, i - 1);
        } else {
            last_and_first_chunk(back, tag, -1);
        }
        assert forall|j: int| 0 <= j < front.len() implies (#[trigger] front[j]) == chunks[j] by {}
        assert forall|j: int| 0 <= j < back.len() implies (#[trigger] back[j]) == chunks[j + 1] by {}
    }
}

/// Where only payloads of some length count, chunks of another length are passed over.
pub proof fn last_and_first_sized_chunk(chunks: Seq<ChunkView>, tag: u16, n: nat, i: int)
    requires
        0 <= i < chunks.len() ==> chunks[i].tag == tag && chunks[i].data.len() == n,
    ensures
        0 <= i < chunks.len() && (forall|j: int|
            i < j < chunks.len() ==> (#[trigger] chunks[j]).tag != tag || chunks[j].data.len() != n)
            ==> last_sized(chunks, tag, n) == Some(chunks[i].data),
        0 <= i < chunks.len() && (forall|j: int|
            0 <= j < i ==> (#[trigger] chunks[j]).tag != tag || chunks[j].data.len() != n)
            ==> first_sized(chunks, tag, n) == Some(chunks[i].data),
        (forall|j: int|
            0 <= j < chunks.len() ==> (#[trigger] chunks[j]).tag != tag || chunks[j].data.len()
                != n) ==> last_sized(chunks, tag, n) is None && first_sized(chunks, tag, n) is None,
    decreases chunks.len(),
{
    if chunks.len() > 0 {
        let front = chunks.drop_last();
        let back = chunks.drop_first();
        if i < chunks.len() - 1 {
            assert(0 <= i ==> front[i] == chunks[i]);
            last_and_first_sized_chunk(front, tag, n, i);
        } else {
            last_and_first_sized_chunk(front, tag, n, -1);
        }
        if i > 0 {
            assert(i < chunks.len() ==> back[i - 1] == chunks[i]);
            last_and_first_sized_chunk(back, tag, n, i - 1);
        } else {
            last_and_first_sized_chunk(back, tag, n, -1);
        }
        assert forall|j: int| 0 <= j < front.len() implies (#[trigger] front[j]) == chunks[j] by {}
        assert forall|j: int| 0 <= j < back.len() implies (#[trigger] back[j]) == chunks[j + 1] by {}
    }
}

/// Which payloads count as numbers: of four bytes, of two bytes, and of the length that is asked
/// for. A tag that is not there counts as zero.
pub proof fn numbers_of_fields(chunks: Seq<ChunkView>, tag: u16)
    ensures
        last_with(chunks, tag) is None ==> last_uint(chunks, tag) == 0,
        last_with(chunks, tag) matches Some(d) ==> last_uint(chunks, tag) == (if d.len() == 4 {
            bytes::be32_at(d, 0) as int
        } else if d.len() == 2 {
            bytes::be16_at(d, 0) as int
        } else {
            0
        }),
        last_with(chunks, tag) matches Some(d) ==> exact32(Some(d)) == (if d.len() == 4 {
            Some(bytes::be32_at(d, 0))
        } else {
            None
        }) && exact16(Some(d)) == (if d.len() == 2 {
            Some(bytes::be16_at(d, 0))
        } else {
            None
        }),
        exact32(None) is None,
        exact16(None) is None,
{
    if let Some(d) = last_with(chunks, tag) {
        if d.len() == 4 {
            assert(d.subrange(0, 4) =~= d);
        } else if d.len() == 2 {
            assert(d.subrange(0, 2) =~= d);
        }
    }
}

/// Numbers of sixteen bits and runs of bytes are written behind what was there, and what was written
/// is handed out as it is.
pub proof fn runs_are_written(
    e: &mut Encoder,
    r: &mut Encoder,
    v: u16,
    f: &mut Encoder,
    s: &mut Encoder,
    b: &[u8],
    g: Encoder,
    slice: &[u8],
    vec: Vec<u8>,
)
    requires
        call_ensures(Encoder::put_u16, (e, v), r),
        call_ensures(Encoder::put_bytes, (f, b), s),
        call_ensures(Encoder::as_slice, (&g,), slice),
        call_ensures(Encoder::into_vec, (g,), vec),
    ensures
        old(r)@.len() == old(e)@.len() + 2 && old(r)@.take(old(e)@.len() as int) == old(e)@,
        bytes::be16_at(old(r)@, old(e)@.len() as int) == v,
        *final(e) == *final(r),
        old(s)@.take(old(f)@.len() as int) == old(f)@,
        old(s)@.skip(old(f)@.len() as int) == b@,
        *final(f) == *final(s),
        slice@ == g@ && vec@ == g@,
{
    let x = old(r)@;
    let n = old(e)@.len() as int;
    bytes::be16_round_trip(v, Seq::empty());
    assert(x.take(n) =~= old(e)@);
    assert(x.subrange(n, n + 2) =~= bytes::be16_bytes(v));
    assert(old(s)@.take(old(f)@.len() as int) =~= old(f)@);
    assert(old(s)@.skip(old(f)@.len() as int) =~= b@);
}

} // verus!
