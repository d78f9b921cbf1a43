//! Custom GIF avatars.
//!
//! A user may have a small GIF beside the numbered icon. A client asks for the avatars of all
//! users, for that of one user, or sets its own; the server tells everyone when an avatar has
//! changed.
use crate::bytes;
use crate::bytes::get16;
use crate::messages::tag;
use crate::outgoing;
use crate::outgoing::{scratch16, ChunkData, HxChunk};
use crate::text::same_bytes;
use crate::wire;
use crate::wire::ChunkIter;
use vstd::prelude::*;
use vstd::slice::slice_subrange;

verus! {

/// `GIF87a`.
pub open spec fn signature_87a() -> Seq<u8> {
    seq![0x47u8, 0x49, 0x46, 0x38, 0x37, 0x61]
}

/// `GIF89a`.
pub open spec fn signature_89a() -> Seq<u8> {
    seq![0x47u8, 0x49, 0x46, 0x38, 0x39, 0x61]
}

/// The data start with the signature of a GIF, of either version.
pub fn is_gif(data: &[u8]) -> (r: bool)
    ensures
        r == (signature_87a().is_prefix_of(data@) || signature_89a().is_prefix_of(data@)),
{
    if data.len() < 6 {
        return false;
    }
    let head = slice_subrange(data, 0, 6);
    let v87: [u8; 6] = [0x47, 0x49, 0x46, 0x38, 0x37, 0x61];
    let v89: [u8; 6] = [0x47, 0x49, 0x46, 0x38, 0x39, 0x61];
    assert(v87@ =~= signature_87a());
    assert(v89@ =~= signature_89a());
    same_bytes(head, &v87) || same_bytes(head, &v89)
}

/// The avatar of one user.
#[derive(Debug, Clone, Copy, PartialEq, Eq)]
pub struct IconEntry<'a> {
    pub uid: u16,
    /// The GIF; empty for a user without an avatar.
    pub gif: &'a [u8],
}

/// What an [`IconEntry`] holds.
pub struct IconView {
    pub uid: u16,
    pub gif: Seq<u8>,
}

impl View for IconEntry<'_> {
    type V = IconView;

    open spec fn view(&self) -> IconView {
        IconView { uid: self.uid, gif: self.gif@ }
    }
}

/// The two bytes from `off` on.
fn u16_at(d: &[u8], off: usize) -> (r: Option<u16>)
    ensures
        r == (if off + 2 <= d@.len() {
            Some(bytes::be16_at(d@, off as int))
        } else {
            None
        }),
{
    if d.len() < 2 || off > d.len() - 2 {
        return None;
    }
    Some(get16(d, off))
}

/// The bytes of an entry in a list: the user, the length of the GIF, and the GIF.
pub open spec fn packed_entry(e: IconView) -> Seq<u8> {
    bytes::be16_bytes(e.uid) + bytes::be16_bytes(e.gif.len() as u16) + e.gif
}

/// The entry that the data start with, if they hold a whole one.
pub open spec fn entry_of(d: Seq<u8>) -> Option<IconView> {
    if d.len() >= 4 && 4 + bytes::be16_at(d, 2) <= d.len() {
        Some(
            IconView {
                uid: bytes::be16_at(d, 0),
                gif: d.subrange(4, 4 + bytes::be16_at(d, 2)),
            },
        )
    } else {
        None
    }
}

/// A packed entry reads back as what was packed, whatever follows it.
pub proof fn entry_round_trip(e: IconView, tail: Seq<u8>)
    requires
        e.gif.len() <= u16::MAX,
    ensures
        entry_of(packed_entry(e) + tail) == Some(e),
{
    let uid = bytes::be16_bytes(e.uid);
    let len = bytes::be16_bytes(e.gif.len() as u16);
    let d = packed_entry(e) + tail;
    assert(d.subrange(0, 2) =~= uid);
    assert(d.subrange(2, 4) =~= len);
    bytes::be16_round_trip(e.uid, uid);
    bytes::be16_round_trip(e.gif.len() as u16, len);
    assert(d.subrange(4, 4 + e.gif.len() as int) =~= e.gif);
}

/// Unpacks an entry of a list. `None` if it is cut short.
pub fn parse_icon_list_entry(data: &[u8]) -> (r: Option<IconEntry<'_>>)
    ensures
        entry_of(data@) == (match r {
            Some(e) => Some(e@),
            None => None,
        }),
{
    let uid: u16 = u16_at(data, 0)?;
    let len: usize = u16_at(data, 2)? as usize;
    if data.len() - 4 < len {
        return None;
    }
    Some(IconEntry { uid, gif: slice_subrange(data, 4, 4 + len) })
}

/// The entries that the chunks carry, in order. Entries that are cut short do not count.
pub open spec fn icons_of(chunks: Seq<wire::ChunkView>) -> Seq<IconView>
    decreases chunks.len(),
{
    if chunks.len() == 0 {
        Seq::empty()
    } else {
        let earlier = icons_of(chunks.drop_last());
        let last = chunks.last();
        match entry_of(last.data) {
            Some(e) => if last.tag == tag::ICON_LIST {
                earlier.push(e)
            } else {
                earlier
            },
            None => earlier,
        }
    }
}

/// What the entries hold.
pub open spec fn icon_views(entries: Seq<IconEntry<'_>>) -> Seq<IconView> {
    Seq::new(entries.len(), |i: int| entries[i]@)
}

/// The avatars in the reply to a request for all of them.
pub fn parse_icon_list<'a>(chunks: ChunkIter<'a>) -> (r: Vec<IconEntry<'a>>)
    ensures
        icon_views(r@) == icons_of(chunks.rest()),
{
    let mut out: Vec<IconEntry<'a>> = Vec::new();
    let mut it = chunks;
    let ghost all = it.rest();
    let ghost mut n: int = 0;
    proof {
        assert(all.take(0) =~= Seq::<wire::ChunkView>::empty());
        assert(all.skip(0) =~= all);
        assert(icon_views(out@) =~= Seq::<IconView>::empty());
    }
    loop
        invariant
            0 <= n <= all.len(),
            it.rest() == all.skip(n),
            icon_views(out@) == icons_of(all.take(n)),
        ensures
            n == all.len(),
        decreases all.len() - n,
    {
        let c = match it.next() {
            Some(c) => c,
            None => {
                break ;
            },
        };
        let ghost before = out@;
        proof {
            wire::lemma_walk_step(all, n, c@);
            n = n + 1;
        }
        if c.tag == tag::ICON_LIST {
            if let Some(e) = parse_icon_list_entry(c.data) {
                out.push(e);
                assert(icon_views(out@) =~= icon_views(before).push(e@));
            }
        }
    }
    assert(all.take(n) =~= all);
    out
}

/// The avatar in the reply to a request for that of one user. The user must be given; a reply
/// without a GIF says that there is none.
pub fn parse_icon_get_reply<'a>(chunks: ChunkIter<'a>) -> (r: Option<IconEntry<'a>>)
    ensures
        ({
            let uid = wire::exact16(wire::last_sized(chunks.rest(), tag::UID, 2));
            match r {
                Some(e) => {
                    &&& uid == Some(e.uid)
                    &&& match wire::last_with(chunks.rest(), tag::ICON_GIF) {
                        Some(gif) => e.gif@ == gif,
                        None => e.gif@.len() == 0,
                    }
                },
                None => uid is None,
            }
        }),
{
    let mut uid: Option<u16> = None;
    let mut gif: Option<&'a [u8]> = None;
    let mut it = chunks;
    let ghost all = it.rest();
    let ghost mut n: int = 0;
    proof {
        assert(all.take(0) =~= Seq::<wire::ChunkView>::empty());
        assert(all.skip(0) =~= all);
    }
    loop
        invariant
            0 <= n <= all.len(),
            it.rest() == all.skip(n),
            uid == wire::exact16(wire::last_sized(all.take(n), tag::UID, 2)),
            wire::opt_view(gif) == wire::last_with(all.take(n), tag::ICON_GIF),
        ensures
            n == all.len(),
        decreases all.len() - n,
    {
        let c = match it.next() {
            Some(c) => c,
            None => {
                break ;
            },
        };
        proof {
            wire::lemma_walk_step(all, n, c@);
            n = n + 1;
        }
        if c.tag == tag::UID && c.data.len() == 2 {
            assert(c.data@.subrange(0, 2) =~= c.data@);
            uid = u16_at(c.data, 0);
        } else if c.tag == tag::ICON_GIF {
            gif = Some(c.data);
        }
    }
    assert(all.take(n) =~= all);
    let uid: u16 = uid?;
    match gif {
        Some(gif) => Some(IconEntry { uid, gif }),
        None => Some(IconEntry { uid, gif: &[] }),
    }
}

/// The user whose avatar has changed. `None` if no field of two bytes names one.
pub fn parse_icon_change<'a>(chunks: ChunkIter<'a>) -> (r: Option<u16>)
    ensures
        r == wire::exact16(wire::first_sized(chunks.rest(), tag::UID, 2)),
{
    let mut it = chunks;
    loop
        invariant
            wire::first_sized(it.rest(), tag::UID, 2) == wire::first_sized(
                chunks.rest(),
                tag::UID,
                2,
            ),
        decreases it.rest().len(),
    {
        match it.next() {
            Some(c) => {
                if c.tag == tag::UID && c.data.len() == 2 {
                    assert(c.data@.subrange(0, 2) =~= c.data@);
                    return u16_at(c.data, 0);
                }
            },
            None => {
                return None;
            },
        }
    }
}

/// Builds the chunk that sets the own avatar. An empty GIF clears it: the field is sent, without a
/// payload. Whether the data are a GIF is for the caller to check.
pub fn build_icon_set_chunks<'a>(gif: &'a [u8], chunks: &mut [HxChunk<'a>]) -> (r: usize)
    ensures
        outgoing::built(
            old(chunks)@.len() >= 1 && gif@.len() <= u16::MAX,
            old(chunks)@,
            final(chunks)@,
            Seq::empty(),
            Seq::empty(),
            r as int,
            Seq::empty(),
            seq![outgoing::field(tag::ICON_GIF, gif@)],
        ),
        r == 1 && gif@.len() == 0 ==> final(chunks)@[0].data is Null,
{
    if chunks.len() == 0 || gif.len() > u16::MAX as usize {
        return 0;
    }
    if gif.is_empty() {
        chunks[0] = HxChunk { tag: tag::ICON_GIF, len: 0, data: ChunkData::Null };
        assert(gif@ =~= Seq::<u8>::empty());
    } else {
        chunks[0] = HxChunk::of_bytes(tag::ICON_GIF, gif);
    }
    proof {
        assert(chunks@.skip(1) =~= old(chunks)@.skip(1));
        assert(Seq::<u8>::empty() =~= bytes::overwrite(Seq::empty(), 0, Seq::empty()));
    }
    1
}

/// Builds the chunk that asks for the avatar of one user.
pub fn build_icon_get_chunks(uid: u16, chunks: &mut [HxChunk<'_>], scratch: &mut [u8]) -> (r: usize)
    ensures
        outgoing::built(
            old(chunks)@.len() >= 1 && old(scratch)@.len() >= 2,
            old(chunks)@,
            final(chunks)@,
            old(scratch)@,
            final(scratch)@,
            r as int,
            bytes::be16_bytes(uid),
            seq![outgoing::field(tag::UID, bytes::be16_bytes(uid))],
        ),
{
    if chunks.len() == 0 || scratch.len() < 2 {
        return 0;
    }
    scratch16(scratch, 0, uid);
    chunks[0] = HxChunk::in_scratch(tag::UID, 0, 2);
    proof {
        let fixed = bytes::be16_bytes(uid);
        assert(fixed.subrange(0, 2) =~= fixed);
        outgoing::lemma_scratch_chunk(chunks@[0], old(scratch)@, fixed, 0, fixed);
        assert(chunks@.skip(1) =~= old(chunks)@.skip(1));
    }
    1
}

// ---------------------------------------------------------------------------------------------
// What every call does, in numbers.
// ---------------------------------------------------------------------------------------------
/// A GIF starts with `GIF8`, `7` or `9`, and `a`.
pub proof fn signatures(data: &[u8], r: bool)
    requires
        call_ensures(is_gif, (data,), r),
    ensures
        r <==> data@.len() >= 6 && data@[0] == 0x47 && data@[1] == 0x49 && data@[2] == 0x46
            && data@[3] == 0x38 && (data@[4] == 0x37 || data@[4] == 0x39) && data@[5] == 0x61,
{
    let d = data@;
    if d.len() >= 6 && d[0] == 0x47 && d[1] == 0x49 && d[2] == 0x46 && d[3] == 0x38 && d[5] == 0x61 {
        if d[4] == 0x37 {
            assert(signature_87a() =~= d.subrange(0, 6));
        } else if d[4] == 0x39 {
            assert(signature_89a() =~= d.subrange(0, 6));
        }
    }
    if signature_87a().is_prefix_of(d) {
        let h = d.subrange(0, 6);
        assert(h[0] == d[0] && h[1] == d[1] && h[2] == d[2] && h[3] == d[3] && h[4] == d[4]
            && h[5] == d[5]);
    }
    if signature_89a().is_prefix_of(d) {
        let h = d.subrange(0, 6);
        assert(h[0] == d[0] && h[1] == d[1] && h[2] == d[2] && h[3] == d[3] && h[4] == d[4]
            && h[5] == d[5]);
    }
}

/// An entry is two bytes of user, two of length, and the GIF of that length. What follows is not
/// read.
pub proof fn entries_state_their_length(data: &[u8], r: Option<IconEntry<'_>>)
    requires
        call_ensures(parse_icon_list_entry, (data,), r),
    ensures
        r is Some <==> data@.len() >= 4 && data@.len() >= 4 + bytes::be16_at(data@, 2),
        r matches Some(e) ==> e.uid == bytes::be16_at(data@, 0) && e.gif@ == data@.subrange(
            4,
            4 + bytes::be16_at(data@, 2),
        ),
{
    if let Some(e) = r {
        assert(e@.uid == e.uid && e@.gif == e.gif@);
    }
}

/// A chunk behind others adds its entry to the list if it has the tag 0x301 and holds a whole one,
/// and nothing else. No chunks give no entries.
pub proof fn entries_come_chunk_by_chunk<'a>(
    it: ChunkIter<'a>,
    jt: ChunkIter<'a>,
    c: wire::ChunkView,
    data: &'a [u8],
    e: Option<IconEntry<'a>>,
    r: Vec<IconEntry<'a>>,
    q: Vec<IconEntry<'a>>,
)
    requires
        jt.rest() == it.rest().push(c),
        c.data == data@,
        call_ensures(parse_icon_list_entry, (data,), e),
        call_ensures(parse_icon_list, (it,), r),
        call_ensures(parse_icon_list, (jt,), q),
    ensures
        it.rest().len() == 0 ==> r@.len() == 0,
        c.tag == 0x0301 && e is Some ==> icon_views(q@) == icon_views(r@).push(e->0@),
        c.tag != 0x0301 || e is None ==> icon_views(q@) == icon_views(r@),
{
    assert(it.rest().push(c).drop_last() =~= it.rest());
    assert(icon_views(r@).len() == r@.len());
}

/// The reply with one avatar names the user in the last field 0x67 of two bytes, and must. The GIF
/// is in the last field 0x300, and without one it is empty.
pub proof fn one_avatar(it: ChunkIter<'_>, r: Option<IconEntry<'_>>)
    requires
        call_ensures(parse_icon_get_reply, (it,), r),
    ensures
        r is None <==> wire::last_sized(it.rest(), 0x67, 2) is None,
        r matches Some(e) ==> wire::last_sized(it.rest(), 0x67, 2) is Some && e.uid
            == bytes::be16_at(wire::last_sized(it.rest(), 0x67, 2)->0, 0) && (wire::last_with(
            it.rest(),
            0x0300,
        ) is None ==> e.gif@.len() == 0) && (wire::last_with(it.rest(), 0x0300) is Some ==> e.gif@
            == wire::last_with(it.rest(), 0x0300)->0),
{
    lemma_sized(it.rest(), 0x67, 2);
    if let Some(d) = wire::last_sized(it.rest(), 0x67, 2) {
        assert(d.subrange(0, 2) =~= d);
    }
}

proof fn lemma_sized(chunks: Seq<wire::ChunkView>, tag: u16, n: nat)
    ensures
        wire::last_sized(chunks, tag, n) matches Some(d) ==> d.len() == n,
        wire::first_sized(chunks, tag, n) matches Some(d) ==> d.len() == n,
    decreases chunks.len(),
{
    if chunks.len() > 0 {
        lemma_sized(chunks.drop_last(), tag, n);
        lemma_sized(chunks.drop_first(), tag, n);
    }
}

/// The user whose avatar has changed stands in the first field 0x67 of two bytes.
pub proof fn changed_avatar(it: ChunkIter<'_>, r: Option<u16>)
    requires
        call_ensures(parse_icon_change, (it,), r),
    ensures
        r is None <==> wire::first_sized(it.rest(), 0x67, 2) is None,
        r matches Some(uid) ==> wire::first_sized(it.rest(), 0x67, 2) is Some && uid
            == bytes::be16_at(wire::first_sized(it.rest(), 0x67, 2)->0, 0),
{
    lemma_sized(it.rest(), 0x67, 2);
    if let Some(d) = wire::first_sized(it.rest(), 0x67, 2) {
        assert(d.subrange(0, 2) =~= d);
    }
}

/// The own avatar is sent in field 0x300; an empty one clears it.
pub proof fn own_avatar_is_sent<'a>(
    gif: &'a [u8],
    chunks: &mut [HxChunk<'a>],
    r: usize,
)
    requires
        call_ensures(build_icon_set_chunks, (gif, chunks), r),
    ensures
        ({
            let c = final(chunks)@;
            let s = Seq::<u8>::empty();
            let room = old(chunks)@.len() >= 1
                && gif@.len() <= 0xffff;
            &&& c.len() == old(chunks)@.len()
            &&& !room ==> r == 0 && c == old(chunks)@
            &&& room ==> r == 1
            &&& room ==> c[0].valid(s) && c[0].sent(s).tag == 0x0300 && c[0].sent(
                s,
            ).data == gif@
            &&& room ==> forall|i: int| r <= i < c.len() ==> #[trigger] c[i] == old(chunks)@[i]
        }),
{
    let c = final(chunks)@;
    assert forall|i: int| r <= i < c.len() && c.skip(r as int) == old(chunks)@.skip(
        r as int,
    ) implies #[trigger] c[i] == old(chunks)@[i] by {
        assert(c[i] == c.skip(r as int)[i - r]);
        assert(old(chunks)@[i] == old(chunks)@.skip(r as int)[i - r]);
    }
}

/// An avatar is asked for by the user, in field 0x67.
pub proof fn avatar_is_asked_for<'a>(
    uid: u16,
    chunks: &mut [HxChunk<'a>],
    scratch: &mut [u8],
    r: usize,
)
    requires
        call_ensures(build_icon_get_chunks, (uid, chunks, scratch), r),
    ensures
        ({
            let c = final(chunks)@;
            let s = final(scratch)@;
            let room = old(chunks)@.len() >= 1
                && old(scratch)@.len() >= 2;
            &&& c.len() == old(chunks)@.len()
            &&& !room ==> r == 0 && c == old(chunks)@ && s == old(scratch)@
            &&& room ==> r == 1
            &&& room ==> c[0].valid(s) && c[0].sent(s).tag == 0x67 && c[0].sent(
                s,
            ).data == bytes::be16_bytes(uid)
            &&& room ==> forall|i: int| r <= i < c.len() ==> #[trigger] c[i] == old(chunks)@[i]
        }),
{
    let c = final(chunks)@;
    assert forall|i: int| r <= i < c.len() && c.skip(r as int) == old(chunks)@.skip(
        r as int,
    ) implies #[trigger] c[i] == old(chunks)@[i] by {
        assert(c[i] == c.skip(r as int)[i - r]);
        assert(old(chunks)@[i] == old(chunks)@.skip(r as int)[i - r]);
    }
}

} // verus!
