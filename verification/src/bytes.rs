//! Big-endian integers in byte strings.
use vstd::prelude::*;

verus! {

/// The two bytes of `v`, most significant first.
pub open spec fn be16_bytes(v: u16) -> Seq<u8> {
    seq![(v / 256) as u8, (v % 256) as u8]
}

/// The four bytes of `v`, most significant first.
#[verifier::opaque]
pub open spec fn be32_bytes(v: u32) -> Seq<u8> {
    seq![
        (v / 0x100_0000) as u8,
        (v / 0x1_0000 % 256) as u8,
        (v / 256 % 256) as u8,
        (v % 256) as u8,
    ]
}

/// The eight bytes of `v`, most significant first.
pub open spec fn be64_bytes(v: u64) -> Seq<u8> {
    be32_bytes((v / 0x1_0000_0000) as u32) + be32_bytes((v % 0x1_0000_0000) as u32)
}

/// The number that two bytes spell.
pub open spec fn be16(b: Seq<u8>) -> u16 {
    (b[0] * 256 + b[1]) as u16
}

/// The number that four bytes spell.
#[verifier::opaque]
pub open spec fn be32(b: Seq<u8>) -> u32 {
    (b[0] * 0x100_0000 + b[1] * 0x1_0000 + b[2] * 256 + b[3]) as u32
}

/// The number that eight bytes spell.
pub open spec fn be64(b: Seq<u8>) -> u64 {
    (be32(b.subrange(0, 4)) * 0x1_0000_0000 + be32(b.subrange(4, 8))) as u64
}

/// The number in the two bytes at `at`.
pub open spec fn be16_at(b: Seq<u8>, at: int) -> u16 {
    be16(b.subrange(at, at + 2))
}

/// The number in the four bytes at `at`.
pub open spec fn be32_at(b: Seq<u8>, at: int) -> u32 {
    be32(b.subrange(at, at + 4))
}

/// The number in the eight bytes at `at`.
pub open spec fn be64_at(b: Seq<u8>, at: int) -> u64 {
    be64(b.subrange(at, at + 8))
}

/// Two bytes and the number they spell determine each other.
pub proof fn be16_round_trip(v: u16, b: Seq<u8>)
    ensures
        be16(be16_bytes(v)) == v,
        b.len() == 2 ==> be16_bytes(be16(b)) == b,
{
    if b.len() == 2 {
        assert(be16_bytes(be16(b)) =~= b);
    }
}

/// Four bytes and the number they spell determine each other.
pub proof fn be32_round_trip(v: u32, b: Seq<u8>)
    ensures
        be32_bytes(v).len() == 4,
        be32(be32_bytes(v)) == v,
        b.len() == 4 ==> be32_bytes(be32(b)) == b,
{
    reveal(be32);
    reveal(be32_bytes);
    assert((v / 0x100_0000) * 0x100_0000 + (v / 0x1_0000 % 256) * 0x1_0000 + (v / 256 % 256) * 256
        + v % 256 == v && v / 0x100_0000 < 256) by (bit_vector);
    if b.len() == 4 {
        let b0 = b[0];
        let b1 = b[1];
        let b2 = b[2];
        let b3 = b[3];
        let w = be32(b);
        assert(w / 0x100_0000 == b0 && w / 0x1_0000 % 256 == b1 && w / 256 % 256 == b2 && w % 256
            == b3) by (bit_vector)
            requires
                w == b0 * 0x100_0000 + b1 * 0x1_0000 + b2 * 256 + b3,
        ;
        assert(be32_bytes(be32(b)) =~= b);
    }
}

proof fn lemma_be64_of_halves(hi: u32, lo: u32)
    ensures
        (hi * 0x1_0000_0000 + lo) / 0x1_0000_0000 == hi,
        (hi * 0x1_0000_0000 + lo) % 0x1_0000_0000 == lo,
        hi * 0x1_0000_0000 + lo <= u64::MAX,
{
}

proof fn lemma_be64_bytes_halves(v: u64)
    ensures
        be64_bytes(v).len() == 8,
        be64_bytes(v).subrange(0, 4) == be32_bytes((v / 0x1_0000_0000) as u32),
        be64_bytes(v).subrange(4, 8) == be32_bytes((v % 0x1_0000_0000) as u32),
{
    let a = be32_bytes((v / 0x1_0000_0000) as u32);
    let b = be32_bytes((v % 0x1_0000_0000) as u32);
    be32_round_trip((v / 0x1_0000_0000) as u32, Seq::empty());
    be32_round_trip((v % 0x1_0000_0000) as u32, Seq::empty());
    assert((a + b).subrange(0, 4) =~= a);
    assert((a + b).subrange(4, 8) =~= b);
}

/// Eight bytes and the number they spell determine each other.
#[verifier::spinoff_prover]
pub proof fn be64_round_trip(v: u64, b: Seq<u8>)
    ensures
        be64_bytes(v).len() == 8,
        be64(be64_bytes(v)) == v,
        b.len() == 8 ==> be64_bytes(be64(b)) == b,
{
    let hi = (v / 0x1_0000_0000) as u32;
    let lo = (v % 0x1_0000_0000) as u32;
    assert(be32(be32_bytes(hi)) == hi) by {
        be32_round_trip(hi, Seq::empty());
    }
    assert(be32(be32_bytes(lo)) == lo) by {
        be32_round_trip(lo, Seq::empty());
    }
    lemma_be64_bytes_halves(v);
    if b.len() == 8 {
        let x = b.subrange(0, 4);
        let y = b.subrange(4, 8);
        let h = be32(x);
        let l = be32(y);
        assert(be32_bytes(h) == x) by {
            be32_round_trip(0, x);
        }
        assert(be32_bytes(l) == y) by {
            be32_round_trip(0, y);
        }
        lemma_be64_of_halves(h, l);
        assert(be64_bytes(be64(b)) == be32_bytes(h) + be32_bytes(l));
        assert(x + y =~= b);
    }
}

/// `s` with the bytes from `at` on replaced by `p`.
pub open spec fn overwrite<T>(s: Seq<T>, at: int, p: Seq<T>) -> Seq<T> {
    s.subrange(0, at) + p + s.subrange(at + p.len(), s.len() as int)
}

/// Reads the two bytes at `at`.
pub fn get16(b: &[u8], at: usize) -> (v: u16)
    requires
        at + 2 <= b.len(),
    ensures
        v == be16_at(b@, at as int),
{
    b[at] as u16 * 256 + b[at + 1] as u16
}

/// Reads the four bytes at `at`.
pub fn get32(b: &[u8], at: usize) -> (v: u32)
    requires
        at + 4 <= b.len(),
    ensures
        v == be32_at(b@, at as int),
{
    proof {
        reveal(be32);
    }
    b[at] as u32 * 0x100_0000 + b[at + 1] as u32 * 0x1_0000 + b[at + 2] as u32 * 256 + b[at
        + 3] as u32
}

/// Reads the eight bytes at `at`.
pub fn get64(b: &[u8], at: usize) -> (v: u64)
    requires
        at + 8 <= b.len(),
    ensures
        v == be64_at(b@, at as int),
{
    proof {
        let s = b@.subrange(at as int, at + 8);
        assert(s.subrange(0, 4) =~= b@.subrange(at as int, at + 4));
        assert(s.subrange(4, 8) =~= b@.subrange(at + 4, at + 8));
    }
    get32(b, at) as u64 * 0x1_0000_0000 + get32(b, at + 4) as u64
}

/// The two bytes of `v`.
pub fn array16(v: u16) -> (r: [u8; 2])
    ensures
        r@ == be16_bytes(v),
{
    [(v / 256) as u8, (v % 256) as u8]
}

/// The four bytes of `v`.
pub fn array32(v: u32) -> (r: [u8; 4])
    ensures
        r@ == be32_bytes(v),
{
    proof {
        reveal(be32_bytes);
    }
    [
        (v / 0x100_0000) as u8,
        (v / 0x1_0000 % 256) as u8,
        (v / 256 % 256) as u8,
        (v % 256) as u8,
    ]
}

/// Appends the bytes of `b`.
pub fn put_bytes(out: &mut Vec<u8>, b: &[u8])
    ensures
        final(out)@ == old(out)@ + b@,
{
    out.extend_from_slice(b);
    assert(out@ =~= old(out)@ + b@);
}

/// Appends the two bytes of `v`.
pub fn put16(out: &mut Vec<u8>, v: u16)
    ensures
        final(out)@ == old(out)@ + be16_bytes(v),
{
    put_bytes(out, &array16(v));
}

/// Appends the four bytes of `v`.
pub fn put32(out: &mut Vec<u8>, v: u32)
    ensures
        final(out)@ == old(out)@ + be32_bytes(v),
{
    put_bytes(out, &array32(v));
}

/// Appends the eight bytes of `v`.
pub fn put64(out: &mut Vec<u8>, v: u64)
    ensures
        final(out)@ == old(out)@ + be64_bytes(v),
{
    put32(out, (v / 0x1_0000_0000) as u32);
    put32(out, (v % 0x1_0000_0000) as u32);
    assert(out@ =~= old(out)@ + be64_bytes(v));
}

/// Appends `n` zero bytes.
pub fn put_zeros(out: &mut Vec<u8>, n: usize)
    ensures
        final(out)@ == old(out)@ + Seq::new(n as nat, |i: int| 0u8),
{
    let mut i: usize = 0;
    while i < n
        invariant
            i <= n,
            out@ == old(out)@ + Seq::new(i as nat, |k: int| 0u8),
        decreases n - i,
    {
        out.push(0);
        i = i + 1;
        assert(out@ =~= old(out)@ + Seq::new(i as nat, |k: int| 0u8));
    }
}

/// The bytes of `b` as an array.
pub fn array_of<const N: usize>(b: &[u8]) -> (r: [u8; N])
    requires
        b.len() == N,
    ensures
        r@ == b@,
{
    let mut out: [u8; N] = [0u8; N];
    let mut i: usize = 0;
    while i < N
        invariant
            i <= N,
            b.len() == N,
            forall|k: int| 0 <= k < i ==> out[k] == b[k],
        decreases N - i,
    {
        out[i] = b[i];
        i = i + 1;
    }
    assert(out@ =~= b@);
    out
}

/// Copies the bytes of `b` into `out`, from `at` on.
pub fn copy_into(out: &mut [u8], at: usize, b: &[u8])
    requires
        at + b.len() <= old(out).len(),
    ensures
        final(out)@ == overwrite(old(out)@, at as int, b@),
{
    let mut i: usize = 0;
    while i < b.len()
        invariant
            i <= b.len(),
            at + b.len() <= out.len(),
            out.len() == old(out).len(),
            out@ == overwrite(old(out)@, at as int, b@.take(i as int)),
        decreases b.len() - i,
    {
        out[at + i] = b[i];
        i = i + 1;
        assert(out@ =~= overwrite(old(out)@, at as int, b@.take(i as int)));
    }
    assert(b@.take(b@.len() as int) =~= b@);
    assert(out@ =~= overwrite(old(out)@, at as int, b@));
}

// ---------------------------------------------------------------------------------------------
// What every call does, byte for byte.
// ---------------------------------------------------------------------------------------------
/// The first of two bytes weighs 256 times as much as the second.
pub proof fn big_end_first_of_two(b: &[u8], at: usize, v: u16, w: u16, a: [u8; 2])
    requires
        at + 2 <= b@.len(),
        call_ensures(get16, (b, at), v),
        call_ensures(array16, (w,), a),
    ensures
        v == 256 * b@[at as int] + b@[at + 1],
        256 * a@[0] + a@[1] == w,
        be16_at(b@, at as int) == v,
        be16_bytes(w) == a@,
{
}

/// The first of four bytes weighs most, and each 256 times as much as the next.
pub proof fn big_end_first_of_four(b: &[u8], at: usize, v: u32, w: u32, a: [u8; 4])
    requires
        at + 4 <= b@.len(),
        call_ensures(get32, (b, at), v),
        call_ensures(array32, (w,), a),
    ensures
        v == 256 * (256 * (256 * b@[at as int] + b@[at + 1]) + b@[at + 2]) + b@[at + 3],
        256 * (256 * (256 * a@[0] + a@[1]) + a@[2]) + a@[3] == w,
        be32_at(b@, at as int) == v,
        be32_bytes(w) == a@,
{
    reveal(be32);
    be32_round_trip(w, Seq::empty());
}

/// Eight bytes are two numbers of four bytes, the upper one first.
pub proof fn big_end_first_of_eight(b: &[u8], at: usize, v: u64, hi: u32, lo: u32)
    requires
        at + 8 <= b@.len(),
        call_ensures(get64, (b, at), v),
        call_ensures(get32, (b, at), hi),
        at + 4 <= usize::MAX,
        call_ensures(get32, (b, (at + 4) as usize), lo),
    ensures
        v == 0x1_0000_0000 * hi + lo,
        be64_at(b@, at as int) == v,
{
    let s = b@.subrange(at as int, at + 8);
    assert(s.subrange(0, 4) =~= b@.subrange(at as int, at + 4));
    assert(s.subrange(4, 8) =~= b@.subrange(at + 4, at + 8));
}

/// What is appended stands behind what was there, and a number is appended in its bytes, the
/// weightiest first.
pub proof fn appended_stands_behind(out: &mut Vec<u8>, v: u16, a: [u8; 2])
    requires
        call_ensures(put16, (out, v), ()),
        call_ensures(array16, (v,), a),
    ensures
        final(out)@.len() == old(out)@.len() + 2,
        final(out)@.take(old(out)@.len() as int) == old(out)@,
        final(out)@[old(out)@.len() as int] == a@[0],
        final(out)@[old(out)@.len() as int + 1] == a@[1],
{
    assert(final(out)@.take(old(out)@.len() as int) =~= old(out)@);
}

/// Overwriting puts the new bytes in place and leaves all others.
pub proof fn overwriting_leaves_the_rest(out: &mut [u8], at: usize, b: &[u8], i: int)
    requires
        at + b@.len() <= out@.len(),
        call_ensures(copy_into, (out, at, b), ()),
        0 <= i < out@.len(),
    ensures
        final(out)@.len() == old(out)@.len(),
        at <= i < at + b@.len() ==> final(out)@[i] == b@[i - at],
        !(at <= i < at + b@.len()) ==> final(out)@[i] == old(out)@[i],
        overwrite(old(out)@, at as int, b@) == final(out)@,
{
}

/// Larger numbers and runs of bytes are appended in the same way, and zeros are.
pub proof fn more_is_appended(
    a: &mut Vec<u8>,
    v: u32,
    b: &mut Vec<u8>,
    w: u64,
    c: &mut Vec<u8>,
    run: &[u8],
    d: &mut Vec<u8>,
    n: usize,
    i: int,
)
    requires
        call_ensures(put32, (a, v), ()),
        call_ensures(put64, (b, w), ()),
        call_ensures(put_bytes, (c, run), ()),
        call_ensures(put_zeros, (d, n), ()),
    ensures
        final(a)@.len() == old(a)@.len() + 4 && final(a)@.take(old(a)@.len() as int) == old(a)@,
        be32_at(final(a)@, old(a)@.len() as int) == v,
        final(b)@.len() == old(b)@.len() + 8 && final(b)@.take(old(b)@.len() as int) == old(b)@,
        be64_at(final(b)@, old(b)@.len() as int) == w,
        final(c)@.take(old(c)@.len() as int) == old(c)@,
        final(c)@.skip(old(c)@.len() as int) == run@,
        final(d)@.len() == old(d)@.len() + n && final(d)@.take(old(d)@.len() as int) == old(d)@,
        old(d)@.len() <= i < final(d)@.len() ==> final(d)@[i] == 0,
{
    be32_round_trip(v, Seq::empty());
    be64_round_trip(w, Seq::empty());
    let x = final(a)@;
    let k = old(a)@.len() as int;
    assert(x.take(k) =~= old(a)@);
    assert(x.subrange(k, k + 4) =~= be32_bytes(v));
    let y = final(b)@;
    let l = old(b)@.len() as int;
    assert(y.take(l) =~= old(b)@);
    assert(y.subrange(l, l + 8) =~= be64_bytes(w));
    assert(final(c)@.take(old(c)@.len() as int) =~= old(c)@);
    assert(final(c)@.skip(old(c)@.len() as int) =~= run@);
    assert(final(d)@.take(old(d)@.len() as int) =~= old(d)@);
}

} // verus!
