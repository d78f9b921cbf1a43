//! Text: the bridge between UTF-8 bytes, characters and Rust strings.
use vstd::prelude::*;
use vstd::string::*;
use vstd::utf8::*;

verus! {

/// `String::push` of std: appends one character to the end of the string.
pub assume_specification[ String::push ](s: &mut String, c: char)
    ensures
        final(s)@ == old(s)@.push(c),
;

/// `char::from_u32` of std: the character with the given number, or `None` for a number that is
/// no Unicode scalar value.
pub assume_specification[ char::from_u32 ](i: u32) -> (r: Option<char>)
    ensures
        r == (if is_scalar(i) {
            Some(i as char)
        } else {
            None::<char>
        }),
;

/// Calls `std::str::from_utf8`: the text that `v` encodes, or `None` when `v` is not well-formed
/// UTF-8.
#[verifier::external_body]
pub(crate) fn text_of(v: &[u8]) -> (r: Option<&str>)
    ensures
        r is Some <==> valid_utf8(v@),
        r matches Some(s) ==> s@ == decode_utf8(v@),
{
    std::str::from_utf8(v).ok()
}

/// UTF-8 encodes a concatenation piece by piece.
pub proof fn lemma_encode_concat(a: Seq<char>, b: Seq<char>)
    ensures
        encode_utf8(a + b) == encode_utf8(a) + encode_utf8(b),
    decreases a.len(),
{
    if a.len() == 0 {
        assert(a + b =~= b);
        assert(encode_utf8(a) + encode_utf8(b) =~= encode_utf8(b));
    } else {
        assert((a + b).drop_first() =~= a.drop_first() + b);
        lemma_encode_concat(a.drop_first(), b);
        assert(encode_utf8(a + b) =~= encode_utf8(a) + encode_utf8(b));
    }
}

/// Two texts are equal exactly when their UTF-8 encodings are.
pub proof fn lemma_encode_injective(a: Seq<char>, b: Seq<char>)
    ensures
        encode_utf8(a) == encode_utf8(b) <==> a == b,
{
    encode_utf8_decode_utf8(a);
    encode_utf8_decode_utf8(b);
}

/// True when two byte strings hold the same bytes.
pub fn same_bytes(a: &[u8], b: &[u8]) -> (r: bool)
    ensures
        r == (a@ == b@),
{
    if a.len() != b.len() {
        return false;
    }
    let mut i: usize = 0;
    while i < a.len()
        invariant
            i <= a.len(),
            a.len() == b.len(),
            forall|k: int| 0 <= k < i ==> a[k] == b[k],
        decreases a.len() - i,
    {
        if a[i] != b[i] {
            return false;
        }
        i = i + 1;
    }
    assert(a@ =~= b@);
    true
}

/// True when two strings hold the same characters.
pub fn same_text(a: &str, b: &str) -> (r: bool)
    ensures
        r == (a@ == b@),
{
    proof {
        lemma_encode_injective(a@, b@);
    }
    same_bytes(a.as_bytes(), b.as_bytes())
}

/// A number in decimal.
pub open spec fn decimal_text(n: nat) -> Seq<char>
    decreases n,
{
    if n < 10 {
        seq![(0x30 + n) as char]
    } else {
        decimal_text(n / 10).push((0x30 + n % 10) as char)
    }
}

/// A hexadecimal digit in lower case.
pub open spec fn hex_char(d: nat) -> char {
    if d < 10 {
        (0x30 + d) as char
    } else {
        (0x57 + d) as char
    }
}

/// The lower-case hexadecimal digit for `d`.
pub fn hex_digit_char(d: u8) -> (c: char)
    requires
        d < 16,
    ensures
        c == hex_char(d as nat),
{
    if d < 10 {
        (0x30 + d) as char
    } else {
        (0x57 + d) as char
    }
}

/// Appends `n` in decimal.
pub fn push_decimal(s: &mut String, n: u64)
    ensures
        final(s)@ == old(s)@ + decimal_text(n as nat),
    decreases n,
{
    if n < 10 {
        s.push((0x30 + n as u8) as char);
        assert(s@ =~= old(s)@ + decimal_text(n as nat));
    } else {
        push_decimal(s, n / 10);
        s.push((0x30 + (n % 10) as u8) as char);
        assert(s@ =~= old(s)@ + decimal_text(n as nat));
    }
}

/// A number below 65536 as four hexadecimal digits.
pub open spec fn hex4_text(n: nat) -> Seq<char> {
    seq![
        hex_char(n / 4096),
        hex_char(n / 256 % 16),
        hex_char(n / 16 % 16),
        hex_char(n % 16),
    ]
}

/// Appends `n` as four hexadecimal digits.
pub fn push_hex4(s: &mut String, n: u16)
    ensures
        final(s)@ == old(s)@ + hex4_text(n as nat),
{
    s.push(hex_digit_char((n / 4096) as u8));
    s.push(hex_digit_char((n / 256 % 16) as u8));
    s.push(hex_digit_char((n / 16 % 16) as u8));
    s.push(hex_digit_char((n % 16) as u8));
    assert(s@ =~= old(s)@ + hex4_text(n as nat));
}

/// A decimal digit.
pub open spec fn is_digit(c: u8) -> bool {
    0x30 <= c <= 0x39
}

/// The number that decimal digits spell.
pub open spec fn decimal(d: Seq<u8>) -> nat
    decreases d.len(),
{
    if d.len() == 0 {
        0
    } else {
        (decimal(d.drop_last()) * 10 + (d.last() - 0x30)) as nat
    }
}

/// A longer row of digits spells no smaller number.
pub proof fn lemma_decimal_grows(b: Seq<u8>, i: int, j: int, k: int)
    requires
        0 <= i <= j <= k <= b.len(),
        forall|m: int| i <= m < k ==> is_digit(#[trigger] b[m]),
    ensures
        decimal(b.subrange(i, j)) <= decimal(b.subrange(i, k)),
    decreases k - j,
{
    if j < k {
        lemma_decimal_grows(b, i, j, k - 1);
        assert(b.subrange(i, k).drop_last() =~= b.subrange(i, k - 1));
        assert(is_digit(b[k - 1]));
    }
}

/// A number in decimal, in bytes.
pub open spec fn decimal_bytes(n: nat) -> Seq<u8>
    decreases n,
{
    if n < 10 {
        seq![(0x30 + n) as u8]
    } else {
        decimal_bytes(n / 10).push((0x30 + n % 10) as u8)
    }
}

/// Decimal digits without a leading zero.
pub open spec fn is_canonical(d: Seq<u8>) -> bool {
    &&& d.len() > 0
    &&& d.len() > 1 ==> d[0] != 0x30
    &&& forall|k: int| 0 <= k < d.len() ==> is_digit(#[trigger] d[k])
}

/// Digits without a leading zero are the decimal text of the number they spell.
pub proof fn lemma_canonical(d: Seq<u8>)
    requires
        is_canonical(d),
    ensures
        decimal_bytes(decimal(d)) == d,
        d.len() > 1 ==> decimal(d) >= 10,
        d[0] != 0x30 ==> decimal(d) > 0,
    decreases d.len(),
{
    let front = d.drop_last();
    assert(is_digit(d[0]) && is_digit(d.last()));
    if d.len() == 1 {
        assert(front =~= Seq::<u8>::empty());
        assert(decimal(front) == 0);
        assert(decimal_bytes(decimal(d)) =~= d);
    } else {
        assert forall|k: int| 0 <= k < front.len() implies is_digit(#[trigger] front[k]) by {
            assert(front[k] == d[k]);
        }
        lemma_canonical(front);
        let m = decimal(front);
        assert(decimal(d) == m * 10 + (d.last() - 0x30));
        assert(front.push(d.last()) =~= d);
    }
}

/// The decimal text of a number spells that number, without a leading zero.
pub proof fn lemma_decimal_bytes(n: nat)
    ensures
        is_canonical(decimal_bytes(n)),
        decimal(decimal_bytes(n)) == n,
        n > 0 ==> decimal_bytes(n)[0] != 0x30,
    decreases n,
{
    let d = decimal_bytes(n);
    if n < 10 {
        assert(d.drop_last() =~= Seq::<u8>::empty());
        assert(decimal(d.drop_last()) == 0);
    } else {
        lemma_decimal_bytes(n / 10);
        let front = decimal_bytes(n / 10);
        assert(d.drop_last() =~= front);
        assert(d[0] == front[0]);
        assert forall|k: int| 0 <= k < d.len() implies is_digit(#[trigger] d[k]) by {
            if k < front.len() {
                assert(d[k] == front[k]);
            }
        }
    }
}

/// `b` starts with `p`.
pub open spec fn starts_with(b: Seq<u8>, p: Seq<u8>) -> bool {
    p.len() <= b.len() && b.take(p.len() as int) == p
}

/// What follows the first `n` bytes of `b`.
pub open spec fn behind(b: Seq<u8>, n: nat) -> Seq<u8> {
    b.subrange(n as int, b.len() as int)
}

/// The rest of `b` behind the prefix `p`, if it starts with it.
pub fn strip_prefix<'a>(b: &'a [u8], p: &[u8]) -> (r: Option<&'a [u8]>)
    ensures
        match r {
            Some(rest) => starts_with(b@, p@) && rest@ == behind(b@, p@.len()),
            None => !starts_with(b@, p@),
        },
{
    if b.len() < p.len() {
        return None;
    }
    let head = vstd::slice::slice_subrange(b, 0, p.len());
    assert(head@ =~= b@.take(p@.len() as int));
    if !same_bytes(head, p) {
        return None;
    }
    Some(vstd::slice::slice_subrange(b, p.len(), b.len()))
}

/// The first position from `pos` on that holds `sep`, or the end of `b`.
pub open spec fn find_from(b: Seq<u8>, pos: int, sep: u8) -> int
    decreases b.len() - pos,
{
    if 0 <= pos < b.len() && b[pos] != sep {
        find_from(b, pos + 1, sep)
    } else {
        pos
    }
}

/// The pieces of `b` from `pos` on, between separators.
pub open spec fn split_from(b: Seq<u8>, pos: int, sep: u8) -> Seq<Seq<u8>>
    decreases b.len() - pos,
{
    let end = find_from(b, pos, sep);
    if 0 <= pos <= end < b.len() {
        seq![b.subrange(pos, end)] + split_from(b, end + 1, sep)
    } else {
        seq![b.subrange(pos, b.len() as int)]
    }
}

/// The search ends inside the text or at its end.
pub proof fn lemma_find_from(b: Seq<u8>, pos: int, sep: u8)
    requires
        0 <= pos <= b.len(),
    ensures
        pos <= find_from(b, pos, sep) <= b.len(),
    decreases b.len() - pos,
{
    if pos < b.len() && b[pos] != sep {
        lemma_find_from(b, pos + 1, sep);
    }
}

/// The first position from `pos` on that holds `sep`, or the end of `b`.
pub fn find_byte(b: &[u8], pos: usize, sep: u8) -> (r: usize)
    requires
        pos <= b@.len(),
    ensures
        r == find_from(b@, pos as int, sep),
        pos <= r <= b@.len(),
{
    let mut at: usize = pos;
    while at < b.len() && b[at] != sep
        invariant
            pos <= at <= b@.len(),
            find_from(b@, at as int, sep) == find_from(b@, pos as int, sep),
        decreases b@.len() - at,
    {
        at = at + 1;
    }
    at
}

/// The text that `String::from_utf8_lossy` of std makes of a byte string.
pub uninterp spec fn utf8_lossy(b: Seq<u8>) -> Seq<char>;

/// Calls `String::from_utf8_lossy`. Its result depends on the bytes alone; of well-formed UTF-8 it
/// is the text, and of other bytes nothing is said here.
#[verifier::external_body]
pub(crate) fn lossy_text(b: &[u8]) -> (r: String)
    ensures
        r@ == utf8_lossy(b@),
        valid_utf8(b@) ==> r@ == decode_utf8(b@),
{
    String::from_utf8_lossy(b).into_owned()
}

/// The bytes of a text in ASCII.
pub open spec fn ascii(s: Seq<char>) -> Seq<u8> {
    Seq::new(s.len(), |i: int| s[i] as u8)
}

/// The bytes of a text in ASCII.
pub fn ascii_bytes(s: &str) -> (r: &[u8])
    requires
        s.is_ascii(),
    ensures
        r@ == ascii(s@),
{
    proof {
        vstd::string::is_ascii_spec_bytes(s);
    }
    let r = s.as_bytes();
    assert(r@ =~= ascii(s@));
    r
}

/// The characters of a text.
pub fn chars_of(s: &str) -> (r: Vec<char>)
    ensures
        r@ == s@,
{
    let mut out: Vec<char> = Vec::new();
    for c in it: s.chars()
        invariant
            it.seq() == s@,
            out@ == s@.take(it.index()),
    {
        out.push(c);
    }
    assert(out@ =~= s@);
    out
}

/// The text made of some characters.
pub fn text_of_chars(cs: &[char]) -> (r: String)
    ensures
        r@ == cs@,
{
    let mut out = String::new();
    let mut i: usize = 0;
    while i < cs.len()
        invariant
            i <= cs@.len(),
            out@ == cs@.take(i as int),
        decreases cs@.len() - i,
    {
        out.push(cs[i]);
        i = i + 1;
        assert(out@ =~= cs@.take(i as int));
    }
    assert(out@ =~= cs@);
    out
}

// ---------------------------------------------------------------------------------------------
// What every call does, character by character.
// ---------------------------------------------------------------------------------------------
/// Two byte strings are the same if they are equally long and agree byte by byte, and two texts if
/// they do so character by character.
pub proof fn same_means_the_same(a: &[u8], b: &[u8], r: bool, s: &str, t: &str, q: bool)
    requires
        call_ensures(same_bytes, (a, b), r),
        call_ensures(same_text, (s, t), q),
    ensures
        r <==> a@.len() == b@.len() && forall|i: int| 0 <= i < a@.len() ==> #[trigger] a@[i] == b@[i],
        q <==> s@.len() == t@.len() && forall|i: int| 0 <= i < s@.len() ==> #[trigger] s@[i] == t@[i],
{
    if a@.len() == b@.len() && forall|i: int| 0 <= i < a@.len() ==> #[trigger] a@[i] == b@[i] {
        assert(a@ =~= b@);
    }
    if s@.len() == t@.len() && forall|i: int| 0 <= i < s@.len() ==> #[trigger] s@[i] == t@[i] {
        assert(s@ =~= t@);
    }
}

/// A number of one digit is that digit, and one of more is all but its last digit with that digit
/// behind it.
pub proof fn numbers_are_written_digit_by_digit(
    n: u64,
    m: u64,
    s: &mut String,
    t: &mut String,
)
    requires
        call_ensures(push_decimal, (s, n), ()),
        call_ensures(push_decimal, (t, m), ()),
        s@ == t@,
    ensures
        n < 10 ==> final(s)@ == old(s)@.push((('0' as u32) + n) as char),
        n >= 10 && m == n / 10 ==> final(s)@ == final(t)@.push((('0' as u32) + n % 10) as char),
{
    if n < 10 {
        assert(old(s)@ + decimal_text(n as nat) =~= old(s)@.push((0x30 + n) as char));
    } else if m == n / 10 {
        let front = decimal_text((n / 10) as nat);
        assert(decimal_text(n as nat) == front.push((0x30 + n as nat % 10) as char));
        assert(old(s)@ + front.push((0x30 + n % 10) as char) =~= (old(s)@ + front).push(
            (0x30 + n % 10) as char,
        ));
    }
}

/// Hexadecimal digits are `0` to `9` and `a` to `f`; a number of sixteen bits is four of them, the
/// highest first.
pub proof fn hexadecimal_digits(d: u8, c: char, n: u16, s: &mut String, i: int)
    requires
        d < 16,
        call_ensures(hex_digit_char, (d,), c),
        call_ensures(push_hex4, (s, n), ()),
        0 <= i < 4,
        d == (if i == 0 {
            n as int / 4096
        } else if i == 1 {
            n as int / 256 % 16
        } else if i == 2 {
            n as int / 16 % 16
        } else {
            n as int % 16
        }),
    ensures
        d < 10 ==> c == (('0' as u32) + d) as char,
        d >= 10 ==> c == (('a' as u32) + (d - 10)) as char,
        final(s)@.len() == old(s)@.len() + 4,
        final(s)@.take(old(s)@.len() as int) == old(s)@,
        final(s)@[old(s)@.len() + i] == c,
{
    assert(final(s)@.take(old(s)@.len() as int) =~= old(s)@);
}

/// What starts with something else is that and the rest. The end of a piece is the first place that
/// holds what ends it, or the end of all.
pub proof fn prefixes_and_separators(
    b: &[u8],
    p: &[u8],
    r: Option<&[u8]>,
    pos: usize,
    sep: u8,
    end: usize,
    i: int,
)
    requires
        call_ensures(strip_prefix, (b, p), r),
        pos <= b@.len(),
        call_ensures(find_byte, (b, pos, sep), end),
    ensures
        r matches Some(rest) ==> b@ == p@ + rest@,
        r is None ==> !p@.is_prefix_of(b@),
        pos <= end <= b@.len(),
        end < b@.len() ==> b@[end as int] == sep,
        pos <= i < end ==> b@[i] != sep,
{
    if let Some(rest) = r {
        assert(b@ =~= b@.take(p@.len() as int) + behind(b@, p@.len()));
    } else if p@.is_prefix_of(b@) {
        assert(b@.take(p@.len() as int) =~= p@);
    }
    lemma_found(b@, pos as int, sep, i);
}

proof fn lemma_found(b: Seq<u8>, pos: int, sep: u8, i: int)
    requires
        0 <= pos <= b.len(),
    ensures
        find_from(b, pos, sep) < b.len() ==> b[find_from(b, pos, sep)] == sep,
        pos <= i < find_from(b, pos, sep) ==> b[i] != sep,
    decreases b.len() - pos,
{
    if pos < b.len() && b[pos] != sep {
        lemma_found(b, pos + 1, sep, i);
    }
}

/// Pieces are cut at every separator: what stands before the first is the first piece, and what
/// stands behind it is cut further.
pub proof fn pieces_are_cut_at_separators(b: Seq<u8>, pos: int, end: int, sep: u8)
    requires
        0 <= pos <= end <= b.len(),
        forall|i: int| pos <= i < end ==> #[trigger] b[i] != sep,
        end < b.len() ==> b[end] == sep,
    ensures
        end == b.len() ==> split_from(b, pos, sep) == seq![b.subrange(pos, end)],
        end < b.len() ==> split_from(b, pos, sep) == seq![b.subrange(pos, end)] + split_from(
            b,
            end + 1,
            sep,
        ),
{
    lemma_find_from(b, pos, sep);
    let f = find_from(b, pos, sep);
    lemma_found(b, pos, sep, end);
    if f < end {
        assert(b[f] != sep);
    }
}

/// The characters of a text, and the text of some characters, are the same in the same order; the
/// bytes of a text in ASCII are the numbers of its characters.
pub proof fn characters_are_kept(
    s: &str,
    cs: Vec<char>,
    list: &[char],
    t: String,
    plain: &str,
    b: &[u8],
    i: int,
)
    requires
        call_ensures(chars_of, (s,), cs),
        call_ensures(text_of_chars, (list,), t),
        call_ensures(ascii_bytes, (plain,), b),
    ensures
        cs@ == s@,
        t@ == list@,
        b@.len() == plain@.len(),
        0 <= i < b@.len() ==> b@[i] == plain@[i] as u8,
{
}

} // verus!
