//! What is done to incoming text before it is displayed.
use vstd::prelude::*;

verus! {

/// Lines end in CR on the wire and in LF here.
pub open spec fn lf_of(b: u8) -> u8 {
    if b == 0x0d {
        0x0a
    } else {
        b
    }
}

/// Control bytes that a terminal might act on are moved to where letters are. Those below 14, 15,
/// 22 and 31 stay.
pub open spec fn folded(b: u8) -> u8 {
    if 13 < b < 31 && b != 15 && b != 22 {
        (b + 64) as u8
    } else {
        b
    }
}

/// Text without the control bytes that a terminal might act on.
pub open spec fn stripped(s: Seq<u8>) -> Seq<u8> {
    s.map_values(|b: u8| folded(b))
}

/// Text as it is displayed.
pub open spec fn sanitised(s: Seq<u8>) -> Seq<u8> {
    stripped(s.map_values(|b: u8| lf_of(b)))
}

/// Replaces every CR by LF.
pub fn cr2lf(buf: &mut [u8])
    ensures
        final(buf)@ == old(buf)@.map_values(|b: u8| lf_of(b)),
{
    let mut i: usize = 0;
    while i < buf.len()
        invariant
            i <= buf@.len(),
            buf@.len() == old(buf)@.len(),
            forall|k: int| 0 <= k < i ==> buf@[k] == lf_of(old(buf)@[k]),
            forall|k: int| i <= k < buf@.len() ==> buf@[k] == old(buf)@[k],
        decreases buf@.len() - i,
    {
        if buf[i] == 0x0d {
            buf[i] = 0x0a;
        }
        i = i + 1;
    }
    assert(buf@ =~= old(buf)@.map_values(|b: u8| lf_of(b)));
}

/// Moves control bytes to where letters are.
pub fn strip_ansi(buf: &mut [u8])
    ensures
        final(buf)@ == stripped(old(buf)@),
{
    let mut i: usize = 0;
    while i < buf.len()
        invariant
            i <= buf@.len(),
            buf@.len() == old(buf)@.len(),
            forall|k: int| 0 <= k < i ==> buf@[k] == folded(old(buf)@[k]),
            forall|k: int| i <= k < buf@.len() ==> buf@[k] == old(buf)@[k],
        decreases buf@.len() - i,
    {
        let b: u8 = buf[i];
        if b > 13 && b < 31 && b != 15 && b != 22 {
            assert((b & 0x7f) | 0x40 == b + 64) by (bit_vector)
                requires
                    b < 31,
            ;
            buf[i] = (b & 0x7f) | 0x40;
        }
        i = i + 1;
    }
    assert(buf@ =~= stripped(old(buf)@));
}

/// Text that has been sanitised stays as it is when it is sanitised again, and the two steps may be
/// taken in either order. No CR is left, and of the control bytes that are moved, none.
pub proof fn sanitised_is_stable(s: Seq<u8>)
    ensures
        ({
            let lf = |t: Seq<u8>| t.map_values(|b: u8| lf_of(b));
            let fold = |t: Seq<u8>| t.map_values(|b: u8| folded(b));
            &&& lf(lf(s)) == lf(s)
            &&& fold(fold(s)) == fold(s)
            &&& lf(fold(s)) == fold(lf(s))
            &&& !lf(s).contains(0x0d)
            &&& forall|i: int|
                0 <= i < s.len() ==> folded(#[trigger] fold(s)[i]) == fold(s)[i]
        }),
{
    let lf = |t: Seq<u8>| t.map_values(|b: u8| lf_of(b));
    let fold = |t: Seq<u8>| t.map_values(|b: u8| folded(b));
    assert(lf(lf(s)) =~= lf(s));
    assert(fold(fold(s)) =~= fold(s));
    assert(lf(fold(s)) =~= fold(lf(s)));
}

/// Of the bytes of a text, CR becomes LF, and nothing else changes.
pub proof fn only_cr_becomes_lf(s: &mut [u8], i: int)
    requires
        call_ensures(cr2lf, (s,), ()),
        0 <= i < s@.len(),
    ensures
        final(s)@.len() == old(s)@.len(),
        old(s)@[i] == 13 ==> final(s)@[i] == 10,
        old(s)@[i] != 13 ==> final(s)@[i] == old(s)@[i],
{
}

/// Of the bytes of a text, those from 14 to 30 but 15 and 22 move up by 64, and nothing else
/// changes: tabs, line ends, letters and whatever is not ASCII stay.
pub proof fn only_control_bytes_move(s: &mut [u8], i: int)
    requires
        call_ensures(strip_ansi, (s,), ()),
        0 <= i < s@.len(),
    ensures
        final(s)@.len() == old(s)@.len(),
        14 <= old(s)@[i] <= 30 && old(s)@[i] != 15 && old(s)@[i] != 22 ==> {
            final(s)@[i] == old(s)@[i] + 64
        },
        old(s)@[i] < 14 || old(s)@[i] > 30 || old(s)@[i] == 15 || old(s)@[i] == 22 ==> {
            final(s)@[i] == old(s)@[i]
        },
{
}

/// Text that is displayed has no CR and no control byte that moves, and has LF where CR was.
pub proof fn displayed_text_is_clean(s: Seq<u8>, i: int)
    requires
        0 <= i < s.len(),
    ensures
        sanitised(s).len() == s.len(),
        stripped(s).len() == s.len(),
        s[i] == 13 ==> sanitised(s)[i] == 10 && stripped(s)[i] == 13,
        s[i] != 13 ==> sanitised(s)[i] == stripped(s)[i],
        14 <= s[i] <= 30 && s[i] != 15 && s[i] != 22 ==> stripped(s)[i] == s[i] + 64,
        s[i] < 14 || s[i] > 30 || s[i] == 15 || s[i] == 22 ==> stripped(s)[i] == s[i],
{
}

} // verus!
