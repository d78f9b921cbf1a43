//! What a container holds once it has been written.
//!
//! A file is the sequence of its bytes. Writing behind its end makes it longer, with zeros in
//! between.
use crate::bytes;
use crate::hfs;
use crate::hfs::double;
use crate::hfs::double::{
    CopyRange, Descr, EditView, DBL_MAGIC, HDR_COMNT, HDR_DATES, HDR_FINFO, HDR_OLDI, HDR_RSRC,
};
use crate::hfs::Fork;
use vstd::prelude::*;

verus! {

/// A byte of a file, or zero behind its end.
pub open spec fn byte(s: Seq<u8>, i: int) -> u8 {
    if 0 <= i < s.len() {
        s[i]
    } else {
        0
    }
}

/// A file into which some bytes have been written.
pub open spec fn write_at(s: Seq<u8>, at: int, data: Seq<u8>) -> Seq<u8> {
    if data.len() == 0 {
        s
    } else {
        Seq::new(
            if s.len() < at + data.len() {
                (at + data.len()) as nat
            } else {
                s.len()
            },
            |i: int|
                if at <= i < at + data.len() {
                    data[i - at]
                } else {
                    byte(s, i)
                },
        )
    }
}

/// A file after some writes.
pub open spec fn after_edits(s: Seq<u8>, edits: Seq<EditView>) -> Seq<u8>
    decreases edits.len(),
{
    if edits.len() == 0 {
        s
    } else {
        write_at(after_edits(s, edits.drop_last()), edits.last().offset, edits.last().data)
    }
}

/// A new file after some copies out of the old one.
pub open spec fn after_copies(old: Seq<u8>, copies: Seq<CopyRange>) -> Seq<u8>
    decreases copies.len(),
{
    if copies.len() == 0 {
        Seq::empty()
    } else {
        let c = copies.last();
        write_at(
            after_copies(old, copies.drop_last()),
            c.to as int,
            old.subrange(c.from as int, c.from + c.len),
        )
    }
}

/// The container once a write has been carried out.
pub open spec fn after_write(old: Seq<u8>, w: double::SidecarWrite) -> Seq<u8> {
    match w {
        double::SidecarWrite::InPlace(edits) => after_edits(old, double::edit_views(edits@)),
        double::SidecarWrite::Rewrite { copies, edits } => after_edits(
            after_copies(old, copies@),
            double::edit_views(edits@),
        ),
    }
}

/// What is read of an entry of a container.
pub open spec fn piece_in(s: Seq<u8>, d: Descr) -> Option<Seq<u8>> {
    let n = double::wanted_of(d);
    if n == 0 {
        Some(Seq::empty())
    } else if d.offset + n <= s.len() {
        Some(s.subrange(d.offset as int, d.offset + n))
    } else {
        None
    }
}

/// What is read of the entries of a container.
pub open spec fn pieces_in(s: Seq<u8>, t: Seq<Descr>) -> Seq<Option<Seq<u8>>> {
    Seq::new(t.len(), |i: int| piece_in(s, t[i]))
}

/// What a container says.
pub open spec fn info_in(s: Seq<u8>, t: Seq<Descr>) -> hfs::HfsView {
    double::told_by(t, pieces_in(s, t), t.len() as int)
}

/// How much is written into an entry.
pub open spec fn payload_len(d: Descr, fi: hfs::HfsView) -> int {
    double::payload_of(d, fi).len() as int
}

proof fn lemma_write_at(s: Seq<u8>, at: int, data: Seq<u8>)
    requires
        0 <= at,
    ensures
        s.len() <= write_at(s, at, data).len(),
        data.len() > 0 ==> at + data.len() <= write_at(s, at, data).len(),
        at + data.len() <= s.len() ==> write_at(s, at, data).len() == s.len(),
        forall|x: int|
            0 <= x ==> #[trigger] byte(write_at(s, at, data), x) == (if at <= x < at + data.len() {
                data[x - at]
            } else {
                byte(s, x)
            }),
{
}

/// A table whose entries have room for what is written, behind the header and apart from each
/// other.
pub open spec fn roomy(t: Seq<Descr>, fi: hfs::HfsView) -> bool {
    &&& t.len() <= 16
    &&& fi.wf()
    &&& double::all_apart(t)
    &&& forall|i: int|
        #![trigger t[i]]
        0 <= i < t.len() ==> {
            &&& payload_len(t[i], fi) <= t[i].length
            &&& t[i].id == HDR_COMNT ==> payload_len(t[i], fi) == t[i].length
            &&& t[i].length > 0 ==> double::table_end(t.len() as int) <= t[i].offset
        }
}

/// `x` lies in what is written into the entry.
pub open spec fn in_payload(d: Descr, fi: hfs::HfsView, x: int) -> bool {
    double::is_written(d.id) && d.offset <= x < d.offset + payload_len(d, fi)
}

proof fn lemma_payloads(s: Seq<u8>, t: Seq<Descr>, fi: hfs::HfsView, k: int)
    requires
        roomy(t, fi),
        0 <= k <= t.len(),
    ensures
        ({
            let r = after_edits(s, double::payload_edits(t, fi, k));
            &&& s.len() <= r.len()
            &&& forall|i: int, x: int|
                #![trigger t[i], byte(r, x)]
                0 <= i < k && in_payload(t[i], fi, x) ==> byte(r, x) == double::payload_of(
                    t[i],
                    fi,
                )[x - t[i].offset]
            &&& forall|i: int|
                #![trigger t[i]]
                0 <= i < k && double::is_written(t[i].id) && payload_len(t[i], fi) > 0
                    ==> t[i].offset + payload_len(t[i], fi) <= r.len()
            &&& forall|x: int|
                #![trigger byte(r, x)]
                0 <= x && (forall|i: int| #![trigger t[i]] 0 <= i < k ==> !in_payload(t[i], fi, x))
                    ==> byte(r, x) == byte(s, x)
            &&& (forall|i: int|
                #![trigger t[i]]
                0 <= i < k && t[i].length > 0 ==> t[i].end() <= s.len()) ==> r.len() == s.len()
        }),
    decreases k,
{
    let r = after_edits(s, double::payload_edits(t, fi, k));
    if k > 0 {
        lemma_payloads(s, t, fi, k - 1);
        let edits = double::payload_edits(t, fi, k - 1);
        let before = after_edits(s, edits);
        let d = t[k - 1];
        if double::is_written(d.id) {
            let e = EditView { offset: d.offset as int, data: double::payload_of(d, fi) };
            assert(edits.push(e).drop_last() =~= edits);
            assert(r == write_at(before, e.offset, e.data));
            lemma_write_at(before, e.offset, e.data);
            assert forall|i: int, x: int|
                #![trigger t[i], byte(r, x)]
                0 <= i < k && in_payload(t[i], fi, x) implies byte(r, x) == double::payload_of(
                t[i],
                fi,
            )[x - t[i].offset] by {
                if i < k - 1 {
                    assert(double::apart(t[i], t[k - 1]));
                    assert(byte(before, x) == double::payload_of(t[i], fi)[x - t[i].offset]);
                }
            }
            assert forall|x: int|
                #![trigger byte(r, x)]
                0 <= x && (forall|i: int| #![trigger t[i]] 0 <= i < k ==> !in_payload(t[i], fi, x))
                implies byte(r, x) == byte(s, x) by {
                assert(!in_payload(t[k - 1], fi, x));
                assert(byte(before, x) == byte(s, x));
            }
        } else {
            assert(r == before);
            assert forall|i: int, x: int|
                #![trigger t[i], byte(r, x)]
                0 <= i < k && in_payload(t[i], fi, x) implies byte(r, x) == double::payload_of(
                t[i],
                fi,
            )[x - t[i].offset] by {
                assert(byte(before, x) == double::payload_of(t[i], fi)[x - t[i].offset]);
            }
            assert forall|x: int|
                #![trigger byte(r, x)]
                0 <= x && (forall|i: int| #![trigger t[i]] 0 <= i < k ==> !in_payload(t[i], fi, x))
                implies byte(r, x) == byte(s, x) by {
                assert(byte(before, x) == byte(s, x));
            }
        }
    }
}

proof fn lemma_table_len(t: Seq<Descr>)
    ensures
        double::table_bytes(t).len() == 12 * t.len(),
    decreases t.len(),
{
    if t.len() > 0 {
        lemma_table_len(t.drop_last());
        lemma_descr(t.last());
    }
}

proof fn lemma_descr(d: Descr)
    ensures
        double::descr_bytes(d).len() == 12,
        double::descr_at(double::descr_bytes(d), 0) == d,
{
    bytes::be32_round_trip(d.id, Seq::empty());
    bytes::be32_round_trip(d.offset, Seq::empty());
    bytes::be32_round_trip(d.length, Seq::empty());
    let b = double::descr_bytes(d);
    assert(b.subrange(0, 4) =~= bytes::be32_bytes(d.id));
    assert(b.subrange(4, 8) =~= bytes::be32_bytes(d.offset));
    assert(b.subrange(8, 12) =~= bytes::be32_bytes(d.length));
}

proof fn lemma_table_entry(t: Seq<Descr>, i: int)
    requires
        0 <= i < t.len(),
    ensures
        double::table_bytes(t).len() == 12 * t.len(),
        double::table_bytes(t).subrange(12 * i, 12 * i + 12) == double::descr_bytes(t[i]),
    decreases t.len(),
{
    lemma_table_len(t);
    lemma_table_len(t.drop_last());
    lemma_descr(t.last());
    let b = double::table_bytes(t);
    let front = double::table_bytes(t.drop_last());
    if i == t.len() - 1 {
        assert(b.subrange(12 * i, 12 * i + 12) =~= double::descr_bytes(t.last()));
    } else {
        lemma_table_entry(t.drop_last(), i);
        assert(b.subrange(12 * i, 12 * i + 12) =~= front.subrange(12 * i, 12 * i + 12));
    }
}

/// A header reads back as the table that was written, whatever follows it.
pub proof fn header_round_trip(fork: Fork, t: Seq<Descr>, rest: Seq<u8>)
    requires
        t.len() <= 16,
    ensures
        double::header_bytes(fork, t).len() == double::table_end(t.len() as int),
        double::table_of(double::header_bytes(fork, t) + rest, double::table_end(t.len() as int)
            + rest.len()) == (match double::table_error(
            t,
            double::table_end(t.len() as int) + rest.len(),
        ) {
            Some(e) => Err(e),
            None => Ok(Some(t)),
        }),
{
    let n = t.len() as u16;
    let front = double::header_front(fork, n);
    let version = double::version_of(fork);
    bytes::be32_round_trip(DBL_MAGIC, Seq::empty());
    bytes::be32_round_trip(version, Seq::empty());
    bytes::be16_round_trip(n, Seq::empty());
    lemma_table_len(t);
    let h = double::header_bytes(fork, t) + rest;
    assert(h.subrange(0, 4) =~= bytes::be32_bytes(DBL_MAGIC));
    assert(h.subrange(4, 8) =~= bytes::be32_bytes(version));
    assert(h.subrange(24, 26) =~= bytes::be16_bytes(n));
    assert(double::table_at(h) =~= t) by {
        assert forall|i: int| 0 <= i < t.len() implies #[trigger] double::table_at(h)[i]
            == t[i] by {
            lemma_table_entry(t, i);
            lemma_descr(t[i]);
            let at = double::table_end(i);
            let b = double::descr_bytes(t[i]);
            assert(h.subrange(at, at + 12) =~= double::table_bytes(t).subrange(
                12 * i,
                12 * i + 12,
            ));
            assert(h.subrange(at, at + 4) =~= b.subrange(0, 4)) by {
                assert(h.subrange(at, at + 12).subrange(0, 4) =~= h.subrange(at, at + 4));
            }
            assert(h.subrange(at + 4, at + 8) =~= b.subrange(4, 8)) by {
                assert(h.subrange(at, at + 12).subrange(4, 8) =~= h.subrange(at + 4, at + 8));
            }
            assert(h.subrange(at + 8, at + 12) =~= b.subrange(8, 12)) by {
                assert(h.subrange(at, at + 12).subrange(8, 12) =~= h.subrange(at + 8, at + 12));
            }
        }
    }
}

/// Writing metadata into the entries of a roomy table, in a file that already holds whatever is not
/// written.
proof fn lemma_entries(s: Seq<u8>, fork: Fork, t: Seq<Descr>, fi: hfs::HfsView)
    requires
        roomy(t, fi),
        forall|i: int|
            #![trigger t[i]]
            0 <= i < t.len() && payload_len(t[i], fi) < t[i].length ==> t[i].end() <= s.len(),
        forall|i: int|
            #![trigger t[i]]
            0 <= i < t.len() && double::is_metadata(t[i].id) ==> t[i].length >= 8,
    ensures
        ({
            let r = after_edits(s, double::entry_edits(fork, t, fi));
            &&& double::table_of(r, r.len() as int) == Ok::<_, hfs::HfsError>(Some(t))
            &&& forall|i: int, j: int|
                #![trigger t[i], byte(r, j)]
                0 <= i < t.len() && t[i].offset <= j < t[i].end() ==> byte(r, j) == (if j
                    < t[i].offset + payload_len(t[i], fi) {
                    double::payload_of(t[i], fi)[j - t[i].offset]
                } else {
                    byte(s, j)
                })
            &&& forall|i: int| #![trigger t[i]]
                0 <= i < t.len() && t[i].length > 0 ==> t[i].end() <= r.len()
            &&& double::table_end(t.len() as int) <= s.len() && (forall|i: int|
                #![trigger t[i]]
                0 <= i < t.len() && t[i].length > 0 ==> t[i].end() <= s.len()) ==> r.len()
                == s.len()
        }),
{
    let n = t.len() as int;
    let edits = double::payload_edits(t, fi, n);
    let h = double::header_bytes(fork, t);
    let e = EditView { offset: 0, data: h };
    let mid = after_edits(s, edits);
    let r = after_edits(s, double::entry_edits(fork, t, fi));
    assert(edits.push(e).drop_last() =~= edits);
    assert(r == write_at(mid, 0, h));
    lemma_payloads(s, t, fi, n);
    header_round_trip(fork, t, Seq::empty());
    lemma_write_at(mid, 0, h);
    assert forall|i: int, j: int|
        #![trigger t[i], byte(r, j)]
        0 <= i < t.len() && t[i].offset <= j < t[i].end() implies byte(r, j) == (if j < t[i].offset
        + payload_len(t[i], fi) {
        double::payload_of(t[i], fi)[j - t[i].offset]
    } else {
        byte(s, j)
    }) by {
        assert(byte(r, j) == byte(mid, j));
        if j < t[i].offset + payload_len(t[i], fi) {
            assert(in_payload(t[i], fi, j));
        } else {
            assert forall|m: int| #![trigger t[m]] 0 <= m < n implies !in_payload(t[m], fi, j) by {
                if m < i {
                    assert(double::apart(t[m], t[i]));
                } else if i < m {
                    assert(double::apart(t[i], t[m]));
                }
            }
        }
    }
    assert forall|i: int| #![trigger t[i]] 0 <= i < t.len() && t[i].length > 0 implies t[i].end()
        <= r.len() by {
        if payload_len(t[i], fi) == t[i].length {
            assert(double::is_written(t[i].id));
        }
    }
    let rest = r.skip(h.len() as int);
    assert(r =~= h + rest) by {
        assert forall|x: int| 0 <= x < h.len() implies r[x] == h[x] by {
            assert(byte(r, x) == h[x]);
        }
    }
    header_round_trip(fork, t, rest);
    double::table_in_order(t, r.len() as int);
    assert forall|i: int| #![trigger t[i]] 0 <= i < t.len() implies double::entry_error(
        t[i],
        n,
        r.len() as int,
    ) is None by {
        if t[i].length > 0 {
            assert(t[i].end() <= r.len());
        }
    }
}

// ---------------------------------------------------------------------------------------------
// The three ways to write.
// ---------------------------------------------------------------------------------------------
/// A container holds the metadata: its table is `t`, and each entry that is known here starts with
/// what was to be written.
pub open spec fn holds(r: Seq<u8>, t: Seq<Descr>, fi: hfs::HfsView) -> bool {
    &&& double::table_of(r, r.len() as int) == Ok::<_, hfs::HfsError>(Some(t))
    &&& forall|i: int|
        #![trigger t[i]]
        0 <= i < t.len() ==> t[i].offset + payload_len(t[i], fi) <= r.len() && r.subrange(
            t[i].offset as int,
            t[i].offset + payload_len(t[i], fi),
        ) == double::payload_of(t[i], fi) || payload_len(t[i], fi) == 0
}

/// What the entries held beyond what is written, they still hold: `t` is the table before and `p`
/// the table after.
pub open spec fn keeps(
    old: Seq<u8>,
    t: Seq<Descr>,
    r: Seq<u8>,
    p: Seq<Descr>,
    fi: hfs::HfsView,
) -> bool {
    &&& p.len() == t.len()
    &&& forall|i: int, k: int|
        #![trigger p[i], byte(r, p[i].offset + k)]
        0 <= i < p.len() && payload_len(p[i], fi) <= k < p[i].length ==> {
            &&& p[i].id == t[i].id
            &&& byte(r, p[i].offset + k) == byte(old, t[i].offset + k)
        }
}

proof fn lemma_holds(s: Seq<u8>, fork: Fork, t: Seq<Descr>, fi: hfs::HfsView)
    requires
        roomy(t, fi),
        forall|i: int|
            #![trigger t[i]]
            0 <= i < t.len() && payload_len(t[i], fi) < t[i].length ==> t[i].end() <= s.len(),
        forall|i: int|
            #![trigger t[i]]
            0 <= i < t.len() && double::is_metadata(t[i].id) ==> t[i].length >= 8,
    ensures
        holds(after_edits(s, double::entry_edits(fork, t, fi)), t, fi),
{
    lemma_entries(s, fork, t, fi);
    let r = after_edits(s, double::entry_edits(fork, t, fi));
    assert forall|i: int| #![trigger t[i]] 0 <= i < t.len()
        && payload_len(t[i], fi) != 0 implies t[i].offset
        + payload_len(t[i], fi) <= r.len() && r.subrange(
        t[i].offset as int,
        t[i].offset + payload_len(t[i], fi),
    ) == double::payload_of(t[i], fi) by {
        let d = t[i];
        let p = double::payload_of(d, fi);
        assert(d.end() <= r.len());
        assert forall|j: int| 0 <= j < p.len() implies r.subrange(
            d.offset as int,
            d.offset + payload_len(d, fi),
        )[j] == p[j] by {
            assert(byte(r, d.offset + j) == p[j]);
        }
        assert(r.subrange(d.offset as int, d.offset + payload_len(d, fi)) =~= p);
    }
}

/// A table that is in order, and whose comment has the length of what is written, is roomy.
proof fn lemma_roomy(t: Seq<Descr>, file_len: int, fi: hfs::HfsView)
    requires
        t.len() <= 16,
        fi.wf(),
        double::table_error(t, file_len) is None,
        !double::comment_moves(t, hfs::kept(fi.comment).len() as u32),
    ensures
        roomy(t, fi),
{
    double::table_in_order(t, file_len);
    let comlen = hfs::kept(fi.comment).len() as u32;
    assert forall|i: int| #![trigger t[i]] 0 <= i < t.len() implies {
        &&& payload_len(t[i], fi) <= t[i].length
        &&& t[i].id == HDR_COMNT ==> payload_len(t[i], fi) == t[i].length
        &&& t[i].length > 0 ==> double::table_end(t.len() as int) <= t[i].offset
    } by {
        assert(double::entry_error(t[i], t.len() as int, file_len) is None);
        if t[i].id == HDR_COMNT {
            assert(t[i].length == comlen);
        }
    }
}

/// A new container holds the metadata.
pub proof fn fresh_container(fork: Fork, fi: hfs::HfsView)
    requires
        fi.wf(),
    ensures
        ({
            let t = double::fresh_table(hfs::kept(fi.comment).len() as u32);
            holds(after_edits(Seq::empty(), double::entry_edits(fork, t, fi)), t, fi)
        }),
{
    let comlen = hfs::kept(fi.comment).len() as u32;
    let t = double::fresh_table(comlen);
    assert(roomy(t, fi));
    lemma_holds(Seq::empty(), fork, t, fi);
}

/// Metadata written in place are held; what the entries held beyond them stays, and so does the
/// length of the container.
pub proof fn in_place_write(fork: Fork, old: Seq<u8>, t: Seq<Descr>, fi: hfs::HfsView)
    requires
        fi.wf(),
        double::table_of(old, old.len() as int) == Ok::<_, hfs::HfsError>(Some(t)),
        double::write_error(Some(t), old.len() as int, fi) is None,
        !double::comment_moves(
            double::with_rsrclen(t, fi.rsrclen as u32),
            hfs::kept(fi.comment).len() as u32,
        ),
    ensures
        ({
            let p = double::written_table(Some(t), fi);
            let r = after_edits(old, double::entry_edits(fork, p, fi));
            &&& holds(r, p, fi)
            &&& keeps(old, t, r, p, fi)
            &&& r.len() == old.len()
        }),
{
    let p = double::with_rsrclen(t, fi.rsrclen as u32);
    let r = after_edits(old, double::entry_edits(fork, p, fi));
    let n = old.len() as int;
    lemma_roomy(p, n, fi);
    double::table_in_order(p, n);
    assert forall|i: int| #![trigger p[i]] 0 <= i < p.len() implies {
        &&& p[i].length > 0 ==> p[i].end() <= old.len()
        &&& double::is_metadata(p[i].id) ==> p[i].length >= 8
    } by {
        assert(double::entry_error(p[i], p.len() as int, n) is None);
    }
    lemma_entries(old, fork, p, fi);
    lemma_holds(old, fork, p, fi);
    assert forall|i: int, k: int|
        #![trigger p[i], byte(r, p[i].offset + k)]
        0 <= i < p.len() && payload_len(p[i], fi) <= k < p[i].length implies p[i].id == t[i].id
        && byte(r, p[i].offset + k) == byte(old, t[i].offset + k) by {
        let j = p[i].offset + k;
        assert(byte(r, j) == byte(old, j));
    }
}

proof fn lemma_packed_apart(t: Seq<Descr>, comlen: u32)
    requires
        double::can_pack(t, comlen),
    ensures
        double::all_apart(double::packed_table(t, comlen)),
        forall|i: int|
            #![trigger t[i]]
            0 <= i < t.len() ==> double::table_end(t.len() as int) <= double::packed_table(
                t,
                comlen,
            )[i].offset && double::packed_table(t, comlen)[i].offset == double::packed_offset(
                t,
                comlen,
                i,
            ),
{
    let p = double::packed_table(t, comlen);
    let n = t.len() as int;
    assert forall|i: int| #![trigger t[i]] 0 <= i < n implies double::table_end(n) <= p[i].offset
        && p[i].offset == double::packed_offset(t, comlen, i) by {
        double::lemma_packed_len(t, comlen, false, i, n);
        double::lemma_packed_len(t, comlen, true, i, n);
    }
    assert forall|i: int, j: int| #![trigger p[i], p[j]] 0 <= i < j < n implies double::apart(
        p[i],
        p[j],
    ) by {
        assert(t[i].id == p[i].id && t[j].id == p[j].id);
        double::lemma_packed_len(t, comlen, false, i + 1, j);
        double::lemma_packed_len(t, comlen, false, i + 1, n);
        double::lemma_packed_len(t, comlen, false, j + 1, n);
        double::lemma_packed_len(t, comlen, true, i + 1, j);
        double::lemma_packed_len(t, comlen, true, 0, i);
        double::lemma_packed_len(t, comlen, true, 0, j);
    }
}

/// What the copies bring over: each entry but the comment.
proof fn lemma_copied(old: Seq<u8>, t: Seq<Descr>, p: Seq<Descr>, k: int)
    requires
        t.len() == p.len(),
        double::all_apart(p),
        0 <= k <= t.len(),
        forall|i: int|
            #![trigger t[i]]
            0 <= i < t.len() && p[i].id != HDR_COMNT && p[i].length > 0 ==> t[i].offset
                + p[i].length <= old.len(),
    ensures
        forall|i: int, x: int|
            #![trigger p[i], byte(after_copies(old, double::copies_of(t, p, k)), x)]
            0 <= i < k && p[i].id != HDR_COMNT && p[i].offset <= x < p[i].end() ==> byte(
                after_copies(old, double::copies_of(t, p, k)),
                x,
            ) == old[t[i].offset + (x - p[i].offset)],
        forall|i: int|
            #![trigger p[i]]
            0 <= i < k && p[i].id != HDR_COMNT && p[i].length > 0 ==> p[i].end() <= after_copies(
                old,
                double::copies_of(t, p, k),
            ).len(),
    decreases k,
{
    let r = after_copies(old, double::copies_of(t, p, k));
    if k > 0 {
        lemma_copied(old, t, p, k - 1);
        let copies = double::copies_of(t, p, k - 1);
        let before = after_copies(old, copies);
        let to = p[k - 1];
        if to.id != HDR_COMNT && to.length != 0 {
            let c = CopyRange {
                from: t[k - 1].offset as u64,
                to: to.offset as u64,
                len: to.length as u64,
            };
            let data = old.subrange(c.from as int, c.from + c.len);
            assert(t[k - 1].offset + p[k - 1].length <= old.len());
            assert(copies.push(c).drop_last() =~= copies);
            assert(r == write_at(before, c.to as int, data));
            lemma_write_at(before, c.to as int, data);
            assert forall|i: int, x: int|
                #![trigger p[i], byte(r, x)]
                0 <= i < k && p[i].id != HDR_COMNT && p[i].offset <= x < p[i].end() implies byte(
                r,
                x,
            ) == old[t[i].offset + (x - p[i].offset)] by {
                if i < k - 1 {
                    assert(double::apart(p[i], p[k - 1]));
                    assert(byte(before, x) == old[t[i].offset + (x - p[i].offset)]);
                }
            }
        } else {
            assert(r == before);
            assert forall|i: int, x: int|
                #![trigger p[i], byte(r, x)]
                0 <= i < k && p[i].id != HDR_COMNT && p[i].offset <= x < p[i].end() implies byte(
                r,
                x,
            ) == old[t[i].offset + (x - p[i].offset)] by {
                assert(byte(before, x) == old[t[i].offset + (x - p[i].offset)]);
            }
        }
    }
}

/// A new layout has room for what is written, and its entries are those that were there.
#[verifier::spinoff_prover]
proof fn lemma_relaid(old: Seq<u8>, t: Seq<Descr>, fi: hfs::HfsView, p: Seq<Descr>)
    requires
        fi.wf(),
        double::table_of(old, old.len() as int) == Ok::<_, hfs::HfsError>(Some(t)),
        double::write_error(Some(t), old.len() as int, fi) is None,
        double::comment_moves(
            double::with_rsrclen(t, fi.rsrclen as u32),
            hfs::kept(fi.comment).len() as u32,
        ),
        p == double::written_table(Some(t), fi),
    ensures
        p.len() == t.len(),
        roomy(p, fi),
        forall|i: int| #![trigger p[i]] 0 <= i < p.len() ==> p[i].id == t[i].id,
        forall|i: int|
            #![trigger p[i]]
            0 <= i < p.len() && double::is_metadata(p[i].id) ==> p[i].length >= 8,
        forall|i: int|
            #![trigger t[i]]
            0 <= i < t.len() && p[i].id != HDR_COMNT && p[i].length > 0 ==> t[i].offset
                + p[i].length <= old.len(),
{
    let comlen = hfs::kept(fi.comment).len() as u32;
    let u = double::with_rsrclen(t, fi.rsrclen as u32);
    let n = t.len() as int;
    assert(p == double::packed_table(u, comlen));
    double::table_in_order(u, old.len() as int);
    lemma_packed_apart(u, comlen);
    assert forall|i: int| #![trigger u[i]] 0 <= i < n implies {
        &&& u[i].length > 0 ==> u[i].end() <= old.len()
        &&& double::is_metadata(u[i].id) ==> u[i].length >= 8
    } by {
        assert(double::entry_error(u[i], n, old.len() as int) is None);
    }
    assert forall|i: int|
        #![trigger t[i]]
        0 <= i < n && p[i].id != HDR_COMNT && p[i].length > 0 implies t[i].offset + p[i].length
        <= old.len() by {
        assert(u[i].end() <= old.len());
    }
    assert forall|i: int| #![trigger p[i]] 0 <= i < p.len() implies {
        &&& p[i].id == t[i].id
        &&& double::is_metadata(p[i].id) ==> p[i].length >= 8
        &&& payload_len(p[i], fi) <= p[i].length
        &&& p[i].id == HDR_COMNT ==> payload_len(p[i], fi) == p[i].length
        &&& p[i].length > 0 ==> double::table_end(p.len() as int) <= p[i].offset
    } by {
        assert(u[i].id == p[i].id);
    }
}

/// Metadata written into a new layout are held, and what the entries held beyond them has been
/// brought over: entries that are not known here, byte for byte, and the fork.
#[verifier::spinoff_prover]
pub proof fn relayout_write(fork: Fork, old: Seq<u8>, t: Seq<Descr>, fi: hfs::HfsView)
    requires
        fi.wf(),
        double::table_of(old, old.len() as int) == Ok::<_, hfs::HfsError>(Some(t)),
        double::write_error(Some(t), old.len() as int, fi) is None,
        double::comment_moves(
            double::with_rsrclen(t, fi.rsrclen as u32),
            hfs::kept(fi.comment).len() as u32,
        ),
    ensures
        ({
            let p = double::written_table(Some(t), fi);
            let s = after_copies(old, double::copies_of(t, p, p.len() as int));
            let r = after_edits(s, double::entry_edits(fork, p, fi));
            &&& holds(r, p, fi)
            &&& keeps(old, t, r, p, fi)
        }),
{
    let p = double::written_table(Some(t), fi);
    lemma_relaid(old, t, fi, p);
    lemma_brought_over(fork, old, t, fi, p);
}

#[verifier::spinoff_prover]
proof fn lemma_brought_over(
    fork: Fork,
    old: Seq<u8>,
    t: Seq<Descr>,
    fi: hfs::HfsView,
    p: Seq<Descr>,
)
    requires
        p.len() == t.len(),
        roomy(p, fi),
        forall|i: int| #![trigger p[i]] 0 <= i < p.len() ==> p[i].id == t[i].id,
        forall|i: int|
            #![trigger p[i]]
            0 <= i < p.len() && double::is_metadata(p[i].id) ==> p[i].length >= 8,
        forall|i: int|
            #![trigger t[i]]
            0 <= i < t.len() && p[i].id != HDR_COMNT && p[i].length > 0 ==> t[i].offset
                + p[i].length <= old.len(),
    ensures
        ({
            let s = after_copies(old, double::copies_of(t, p, p.len() as int));
            let r = after_edits(s, double::entry_edits(fork, p, fi));
            &&& holds(r, p, fi)
            &&& keeps(old, t, r, p, fi)
        }),
{
    let n = t.len() as int;
    let s = after_copies(old, double::copies_of(t, p, n));
    let r = after_edits(s, double::entry_edits(fork, p, fi));
    lemma_copied(old, t, p, n);
    assert forall|i: int|
        #![trigger p[i]]
        0 <= i < p.len() && payload_len(p[i], fi) < p[i].length implies p[i].end() <= s.len() by {
        assert(p[i].id != HDR_COMNT);
        assert(p[i].length > 0);
    }
    lemma_entries(s, fork, p, fi);
    lemma_holds(s, fork, p, fi);
    assert forall|i: int, k: int|
        #![trigger p[i], byte(r, p[i].offset + k)]
        0 <= i < p.len() && payload_len(p[i], fi) <= k < p[i].length implies p[i].id == t[i].id
        && byte(r, p[i].offset + k) == byte(old, t[i].offset + k) by {
        let j = p[i].offset + k;
        assert(p[i].id != HDR_COMNT);
        assert(t[i].offset + p[i].length <= old.len());
        assert(byte(s, j) == old[t[i].offset + k]);
        assert(byte(r, j) == byte(s, j));
    }
}

// ---------------------------------------------------------------------------------------------
// Reading back.
// ---------------------------------------------------------------------------------------------
/// Some entry of the table has this id.
pub open spec fn has_entry(t: Seq<Descr>, id: u32) -> bool {
    exists|i: int| #![trigger t[i]] 0 <= i < t.len() && t[i].id == id
}

/// What a read gives of metadata that a container holds: each of them for which there is an entry.
pub open spec fn reads_back(t: Seq<Descr>, fi: hfs::HfsView, seen: hfs::HfsView) -> bool {
    &&& has_entry(t, HDR_COMNT) ==> seen.comment == hfs::kept(fi.comment)
    &&& has_entry(t, HDR_OLDI) || has_entry(t, HDR_DATES) ==> seen.create_time == fi.create_time
        && seen.modify_time == fi.modify_time
    &&& has_entry(t, HDR_FINFO) ==> seen.type_creator == fi.type_creator
    &&& has_entry(t, HDR_RSRC) ==> seen.rsrclen == fi.rsrclen
}

proof fn lemma_reads_back(r: Seq<u8>, t: Seq<Descr>, fi: hfs::HfsView, k: int)
    requires
        fi.wf(),
        holds(r, t, fi),
        0 <= k <= t.len(),
        forall|i: int|
            #![trigger t[i]]
            0 <= i < t.len() && t[i].id == HDR_RSRC ==> t[i].length == fi.rsrclen,
        forall|i: int|
            #![trigger t[i]]
            0 <= i < t.len() && t[i].id == HDR_COMNT ==> t[i].length == hfs::kept(
                fi.comment,
            ).len(),
    ensures
        reads_back(t.take(k), fi, double::told_by(t, pieces_in(r, t), k)),
    decreases k,
{
    if k > 0 {
        lemma_reads_back(r, t, fi, k - 1);
        let d = t[k - 1];
        let before = t.take(k - 1);
        let now = t.take(k);
        let seen = double::told_by(t, pieces_in(r, t), k - 1);
        assert(now[k - 1] == d);
        assert forall|id: u32| #![trigger has_entry(now, id)] has_entry(now, id) implies has_entry(
            before,
            id,
        ) || id == d.id by {
            let i = choose|i: int| #![trigger now[i]] 0 <= i < now.len() && now[i].id == id;
            if i < k - 1 {
                assert(before[i].id == id);
            }
        }
        if double::is_written(d.id) {
            let payload = double::payload_of(d, fi);
            assert(double::wanted_of(d) == payload.len());
            if payload.len() == 0 {
                assert(payload =~= Seq::<u8>::empty());
            }
            assert(double::piece(t, pieces_in(r, t), k - 1) == Some(payload));
            if d.id == HDR_OLDI || d.id == HDR_DATES {
                assert(payload.subrange(0, 4) =~= fi.create_time);
                assert(payload.subrange(4, 8) =~= fi.modify_time);
            }
        }
    }
}

/// A write reads back. Whether the container is new, is written in place or is laid out anew, its
/// table is then in order, and a read gives the metadata that were written, as far as the table has
/// entries for them; of the comment, what is kept.
pub proof fn write_reads_back(
    fork: Fork,
    old: Seq<u8>,
    stored: Option<Seq<Descr>>,
    fi: hfs::HfsView,
    w: double::SidecarWrite,
)
    requires
        fi.wf(),
        double::table_of(old, old.len() as int) == Ok::<_, hfs::HfsError>(stored),
        double::write_error(stored, old.len() as int, fi) is None,
        double::is_write(w, fork, stored, fi),
    ensures
        ({
            let r = after_write(old, w);
            let p = double::written_table(stored, fi);
            &&& double::table_of(r, r.len() as int) == Ok::<_, hfs::HfsError>(Some(p))
            &&& reads_back(p, fi, info_in(r, p))
            &&& stored matches Some(t) ==> keeps(old, t, r, p, fi)
        }),
{
    let comlen = hfs::kept(fi.comment).len() as u32;
    let r = after_write(old, w);
    let p = double::written_table(stored, fi);
    match stored {
        None => {
            fresh_container(fork, fi);
            assert(old =~= Seq::<u8>::empty());
        },
        Some(t) => {
            let u = double::with_rsrclen(t, fi.rsrclen as u32);
            if double::comment_moves(u, comlen) {
                relayout_write(fork, old, t, fi);
            } else {
                in_place_write(fork, old, t, fi);
                assert forall|i: int| #![trigger p[i]] 0 <= i < p.len()
                    && p[i].id == HDR_COMNT implies p[i].length
                    == comlen by {
                    assert(u[i] == p[i]);
                }
            }
            assert forall|i: int| #![trigger p[i]] 0 <= i < p.len()
                && p[i].id == HDR_RSRC implies p[i].length
                == fi.rsrclen by {
                assert(u[i].id == p[i].id);
            }
        },
    }
    lemma_reads_back(r, p, fi, p.len() as int);
    assert(p.take(p.len() as int) =~= p);
}

/// A container that was written is read back by the same functions: its table is found, and the
/// metadata in it are those that were written, whatever the container held before.
pub proof fn written_container_is_read(
    fork: Fork,
    old: &[u8],
    found: Option<Vec<Descr>>,
    stored: Option<&[Descr]>,
    fi: hfs::HfsInfo,
    w: double::SidecarWrite,
    new: &[u8],
    r: Result<Option<Vec<Descr>>, hfs::HfsError>,
)
    requires
        old@.len() <= u64::MAX,
        call_ensures(double::read_dbl_descrs, (old, old@.len() as u64), Ok(found)),
        (found matches Some(t) ==> stored matches Some(s) && s@ == t@),
        found is None ==> stored is None,
        call_ensures(
            double::write_dbl_info,
            (fork, stored, old@.len() as u64, &fi),
            Ok(w),
        ),
        new@ == after_write(old@, w),
        new@.len() <= u64::MAX,
        call_ensures(double::read_dbl_descrs, (new, new@.len() as u64), r),
    ensures
        r matches Ok(Some(t)) && {
            let seen = info_in(new@, t@);
            let has = |id: u32| exists|i: int| 0 <= i < t@.len() && (#[trigger] t@[i]).id == id;
            &&& has(4) && fi.comment@.len() <= 200 ==> seen.comment == fi.comment@
            &&& has(4) && fi.comment@.len() > 200 ==> seen.comment == fi.comment@.take(200)
            &&& has(7) || has(8) ==> seen.create_time == fi.create_time@ && seen.modify_time
                == fi.modify_time@
            &&& has(9) ==> seen.type_creator == fi.type_creator@
            &&& has(2) ==> seen.rsrclen == fi.rsrclen
            &&& found is None ==> has(2) && has(4) && has(8) && has(9)
            &&& found matches Some(o) ==> o@.len() == t@.len()
        },
{
    let st = match stored {
        Some(s) => Some(s@),
        None => None,
    };
    write_reads_back(fork, old@, st, fi@, w);
    let t = r->Ok_0->0;
    assert(t@ == double::written_table(st, fi@));
    if fi.comment@.len() <= 200 {
        assert(hfs::kept(fi.comment@) =~= fi.comment@);
    }
    assert forall|id: u32| (exists|i: int| 0 <= i < t@.len() && (#[trigger] t@[i]).id == id)
        implies #[trigger] has_entry(t@, id) by {
        let i = choose|i: int| 0 <= i < t@.len() && (#[trigger] t@[i]).id == id;
        assert(t@[i].id == id);
    }
    if found is None {
        assert(t@[0].id == 4 && t@[1].id == 8 && t@[2].id == 9 && t@[3].id == 2);
    }
}

} // verus!
