//! A minimal SDP shape parser: enough to check an offer before it is handed on.
use crate::text;
use crate::text::{find_byte, lossy_text, strip_prefix};
use crate::voice;
use crate::voice::{parse_voice_mid_label, MidLabel};
use vstd::prelude::*;
use vstd::slice::slice_subrange;
use vstd::string::*;

verus! {

/// What matters of an SDP offer or answer.
#[derive(Debug, Clone, PartialEq, Eq)]
pub struct SdpSummary {
    /// The `a=mid:` labels, in document order, repetitions included.
    pub mids: Vec<MidLabel>,
    /// The `a=mid:` values that are no well-formed label.
    pub unknown_mids: Vec<String>,
    /// The tokens of the `a=group:BUNDLE` line.
    pub bundle: Vec<String>,
    /// An `m=audio 0` line was seen: a slot that is disabled.
    pub has_disabled_slot: bool,
    /// The session offers PCMU.
    pub has_pcmu: bool,
}

impl Default for SdpSummary {
    fn default() -> (r: Self)
        ensures
            is_summary(r, Seq::empty()),
    {
        let r = SdpSummary {
            mids: Vec::new(),
            unknown_mids: Vec::new(),
            bundle: Vec::new(),
            has_disabled_slot: false,
            has_pcmu: false,
        };
        assert(texts(r.unknown_mids@) =~= Seq::<Seq<char>>::empty());
        assert(texts(r.bundle@) =~= Seq::<Seq<char>>::empty());
        r
    }
}

/// `a=mid:`.
pub open spec fn mid_prefix() -> Seq<u8> {
    seq![0x61u8, 0x3d, 0x6d, 0x69, 0x64, 0x3a]
}

/// `a=group:BUNDLE `.
pub open spec fn bundle_prefix() -> Seq<u8> {
    seq![
        0x61u8,
        0x3d,
        0x67,
        0x72,
        0x6f,
        0x75,
        0x70,
        0x3a,
        0x42,
        0x55,
        0x4e,
        0x44,
        0x4c,
        0x45,
        0x20,
    ]
}

/// `m=audio 0 `.
pub open spec fn disabled_prefix() -> Seq<u8> {
    seq![0x6du8, 0x3d, 0x61, 0x75, 0x64, 0x69, 0x6f, 0x20, 0x30, 0x20]
}

/// `a=rtpmap:0 PCMU/8000`.
pub open spec fn pcmu_prefix() -> Seq<u8> {
    seq![
        0x61u8,
        0x3d,
        0x72,
        0x74,
        0x70,
        0x6d,
        0x61,
        0x70,
        0x3a,
        0x30,
        0x20,
        0x50,
        0x43,
        0x4d,
        0x55,
        0x2f,
        0x38,
        0x30,
        0x30,
        0x30,
    ]
}

/// A line without the carriage return that may end it.
pub open spec fn chomped(line: Seq<u8>) -> Seq<u8> {
    if line.len() > 0 && line.last() == 0x0d {
        line.drop_last()
    } else {
        line
    }
}

/// What the lines that start with `prefix` hold behind it, in document order.
pub open spec fn values_of(lines: Seq<Seq<u8>>, prefix: Seq<u8>) -> Seq<Seq<u8>>
    decreases lines.len(),
{
    if lines.len() == 0 {
        seq![]
    } else {
        let before = values_of(lines.drop_last(), prefix);
        let line = chomped(lines.last());
        if text::starts_with(line, prefix) {
            before.push(text::behind(line, prefix.len()))
        } else {
            before
        }
    }
}

/// The labels among the values.
pub open spec fn known_mids(values: Seq<Seq<u8>>) -> Seq<MidLabel>
    decreases values.len(),
{
    if values.len() == 0 {
        seq![]
    } else {
        match voice::mid_label(values.last()) {
            Some(m) => known_mids(values.drop_last()).push(m),
            None => known_mids(values.drop_last()),
        }
    }
}

/// The values that are no label, as text.
pub open spec fn other_mids(values: Seq<Seq<u8>>) -> Seq<Seq<char>>
    decreases values.len(),
{
    if values.len() == 0 {
        seq![]
    } else if voice::mid_label(values.last()) is Some {
        other_mids(values.drop_last())
    } else {
        other_mids(values.drop_last()).push(text::utf8_lossy(values.last()))
    }
}

/// The pieces that are not empty, as text.
pub open spec fn tokens(pieces: Seq<Seq<u8>>) -> Seq<Seq<char>>
    decreases pieces.len(),
{
    if pieces.len() == 0 {
        seq![]
    } else if pieces.last().len() == 0 {
        tokens(pieces.drop_last())
    } else {
        tokens(pieces.drop_last()).push(text::utf8_lossy(pieces.last()))
    }
}

/// The tokens of the last bundle line, if there is one.
pub open spec fn bundle_tokens(values: Seq<Seq<u8>>) -> Seq<Seq<char>> {
    if values.len() == 0 {
        seq![]
    } else {
        tokens(text::split_from(values.last(), 0, 0x20))
    }
}

/// The texts of a list of strings.
pub open spec fn texts(v: Seq<String>) -> Seq<Seq<char>> {
    Seq::new(v.len(), |i: int| v[i]@)
}

/// The summary of the lines of a session description.
pub open spec fn is_summary(s: SdpSummary, lines: Seq<Seq<u8>>) -> bool {
    &&& s.mids@ == known_mids(values_of(lines, mid_prefix()))
    &&& texts(s.unknown_mids@) == other_mids(values_of(lines, mid_prefix()))
    &&& texts(s.bundle@) == bundle_tokens(values_of(lines, bundle_prefix()))
    &&& s.has_disabled_slot == (values_of(lines, disabled_prefix()).len() > 0)
    &&& s.has_pcmu == (values_of(lines, pcmu_prefix()).len() > 0)
}

/// The tokens of a bundle line.
fn bundle_of(rest: &[u8]) -> (r: Vec<String>)
    ensures
        texts(r@) == tokens(text::split_from(rest@, 0, 0x20)),
{
    let mut out: Vec<String> = Vec::new();
    let mut pos: usize = 0;
    let ghost all = text::split_from(rest@, 0, 0x20);
    let ghost mut done: Seq<Seq<u8>> = seq![];
    assert(all =~= done + text::split_from(rest@, 0, 0x20));
    assert(texts(out@) =~= tokens(done));
    loop
        invariant_except_break
            pos <= rest@.len(),
            all == done + text::split_from(rest@, pos as int, 0x20),
            texts(out@) == tokens(done),
        ensures
            texts(out@) == tokens(all),
        decreases rest@.len() - pos,
    {
        let end: usize = find_byte(rest, pos, 0x20);
        let piece = slice_subrange(rest, pos, end);
        proof {
            let next = done.push(piece@);
            assert(next.drop_last() =~= done);
            assert(done + seq![piece@] =~= next);
        }
        if piece.len() > 0 {
            let ghost before = out@;
            out.push(lossy_text(piece));
            assert(texts(out@) =~= texts(before).push(text::utf8_lossy(piece@)));
        }
        proof {
            done = done.push(piece@);
        }
        if end == rest.len() {
            assert(done =~= all);
            break ;
        }
        pos = end + 1;
        assert(all =~= done + text::split_from(rest@, pos as int, 0x20));
    }
    out
}

/// Takes one line, without its line feed, into a summary.
fn take_line(line: &[u8], out: &mut SdpSummary, Ghost(done): Ghost<Seq<Seq<u8>>>)
    requires
        is_summary(*old(out), done),
    ensures
        is_summary(*final(out), done.push(line@)),
{
    let n: usize = line.len();
    let text_line = if n > 0 && line[n - 1] == 0x0d {
        slice_subrange(line, 0, n - 1)
    } else {
        line
    };
    assert(text_line@ =~= chomped(line@));
    let mid: [u8; 6] = [0x61, 0x3d, 0x6d, 0x69, 0x64, 0x3a];
    let bundle: [u8; 15] = [
        0x61,
        0x3d,
        0x67,
        0x72,
        0x6f,
        0x75,
        0x70,
        0x3a,
        0x42,
        0x55,
        0x4e,
        0x44,
        0x4c,
        0x45,
        0x20,
    ];
    let disabled: [u8; 10] = [0x6d, 0x3d, 0x61, 0x75, 0x64, 0x69, 0x6f, 0x20, 0x30, 0x20];
    let pcmu: [u8; 20] = [
        0x61,
        0x3d,
        0x72,
        0x74,
        0x70,
        0x6d,
        0x61,
        0x70,
        0x3a,
        0x30,
        0x20,
        0x50,
        0x43,
        0x4d,
        0x55,
        0x2f,
        0x38,
        0x30,
        0x30,
        0x30,
    ];
    assert(mid@ =~= mid_prefix());
    assert(bundle@ =~= bundle_prefix());
    assert(disabled@ =~= disabled_prefix());
    assert(pcmu@ =~= pcmu_prefix());
    proof {
        let next = done.push(line@);
        assert(next.drop_last() =~= done);
        lemma_prefixes_exclude(chomped(line@));
    }
    if let Some(rest) = strip_prefix(text_line, &mid) {
        proof {
            let values = values_of(done, mid_prefix());
            assert(values.push(rest@).drop_last() =~= values);
        }
        match parse_voice_mid_label(rest) {
            Some(m) => {
                out.mids.push(m);
            },
            None => {
                let ghost before = out.unknown_mids@;
                out.unknown_mids.push(lossy_text(rest));
                assert(texts(out.unknown_mids@) =~= texts(before).push(text::utf8_lossy(rest@)));
            },
        }
    } else if let Some(rest) = strip_prefix(text_line, &bundle) {
        out.bundle = bundle_of(rest);
    } else if strip_prefix(text_line, &disabled).is_some() {
        out.has_disabled_slot = true;
    } else if strip_prefix(text_line, &pcmu).is_some() {
        out.has_pcmu = true;
    }
}

/// A line starts with at most one of the four prefixes.
proof fn lemma_prefixes_exclude(line: Seq<u8>)
    ensures
        text::starts_with(line, mid_prefix()) ==> line[2] == 0x6d && line[0] == 0x61,
        text::starts_with(line, bundle_prefix()) ==> line[2] == 0x67 && line[0] == 0x61,
        text::starts_with(line, disabled_prefix()) ==> line[0] == 0x6d,
        text::starts_with(line, pcmu_prefix()) ==> line[2] == 0x72 && line[0] == 0x61,
{
    if text::starts_with(line, mid_prefix()) {
        assert(line.take(6)[2] == line[2] && line.take(6)[0] == line[0]);
    }
    if text::starts_with(line, bundle_prefix()) {
        assert(line.take(15)[2] == line[2] && line.take(15)[0] == line[0]);
    }
    if text::starts_with(line, disabled_prefix()) {
        assert(line.take(10)[0] == line[0]);
    }
    if text::starts_with(line, pcmu_prefix()) {
        assert(line.take(20)[2] == line[2] && line.take(20)[0] == line[0]);
    }
}

/// Walks a session description line by line. Lines end in a line feed, with or without a carriage
/// return in front of it.
pub fn summarize(sdp: &[u8]) -> (r: SdpSummary)
    ensures
        is_summary(r, text::split_from(sdp@, 0, 0x0a)),
{
    let mut out = SdpSummary::default();
    let mut pos: usize = 0;
    let ghost all = text::split_from(sdp@, 0, 0x0a);
    let ghost mut done: Seq<Seq<u8>> = seq![];
    assert(all =~= done + text::split_from(sdp@, 0, 0x0a));
    loop
        invariant_except_break
            pos <= sdp@.len(),
            all == done + text::split_from(sdp@, pos as int, 0x0a),
            is_summary(out, done),
        ensures
            is_summary(out, all),
        decreases sdp@.len() - pos,
    {
        let end: usize = find_byte(sdp, pos, 0x0a);
        let line = slice_subrange(sdp, pos, end);
        take_line(line, &mut out, Ghost(done));
        proof {
            assert(done + seq![line@] =~= done.push(line@));
            done = done.push(line@);
        }
        if end == sdp.len() {
            assert(done =~= all);
            break ;
        }
        pos = end + 1;
        assert(all =~= done + text::split_from(sdp@, pos as int, 0x0a));
    }
    out
}

// ---------------------------------------------------------------------------------------------
// What a summary says of a description as a whole.
// ---------------------------------------------------------------------------------------------
/// The text with a carriage return put in front of each line feed.
pub open spec fn with_crlf(s: Seq<u8>) -> Seq<u8>
    decreases s.len(),
{
    if s.len() == 0 {
        seq![]
    } else {
        let first = if s[0] == 0x0a {
            seq![0x0du8, 0x0a]
        } else {
            seq![s[0]]
        };
        first + with_crlf(s.drop_first())
    }
}

/// Some line feed has a carriage return in front of it already.
pub open spec fn has_crlf(s: Seq<u8>) -> bool {
    exists|i: int| 0 < i < s.len() && #[trigger] s[i] == 0x0a && s[i - 1] == 0x0d
}

/// The lines without the carriage returns that may end them.
pub open spec fn chomped_lines(lines: Seq<Seq<u8>>) -> Seq<Seq<u8>> {
    lines.map_values(|line: Seq<u8>| chomped(line))
}

/// Bytes in front of the first line feed stay where they are.
proof fn lemma_crlf_behind(s: Seq<u8>, n: int)
    requires
        0 <= n <= s.len(),
        forall|i: int| 0 <= i < n ==> #[trigger] s[i] != 0x0a,
    ensures
        with_crlf(s) == s.take(n) + with_crlf(s.skip(n)),
    decreases n,
{
    if n == 0 {
        assert(s.skip(0) =~= s);
        assert(with_crlf(s) =~= s.take(0) + with_crlf(s));
    } else {
        let t = s.drop_first();
        lemma_crlf_behind(t, n - 1);
        assert(s[0] != 0x0a);
        assert(t.skip(n - 1) =~= s.skip(n));
        assert(s.take(n) =~= seq![s[0]] + t.take(n - 1));
        assert(with_crlf(s) =~= s.take(n) + with_crlf(s.skip(n)));
    }
}

/// What the search finds: everything in front of it is something else.
proof fn lemma_first(b: Seq<u8>, pos: int, sep: u8)
    requires
        0 <= pos <= b.len(),
    ensures
        pos <= text::find_from(b, pos, sep) <= b.len(),
        forall|i: int| pos <= i < text::find_from(b, pos, sep) ==> #[trigger] b[i] != sep,
        text::find_from(b, pos, sep) < b.len() ==> b[text::find_from(b, pos, sep)] == sep,
    decreases b.len() - pos,
{
    if pos < b.len() && b[pos] != sep {
        lemma_first(b, pos + 1, sep);
    }
}

/// A position is where the search ends if it is the first that holds the separator.
proof fn lemma_first_is(b: Seq<u8>, pos: int, sep: u8, end: int)
    requires
        0 <= pos <= end <= b.len(),
        forall|i: int| pos <= i < end ==> #[trigger] b[i] != sep,
        end < b.len() ==> b[end] == sep,
    ensures
        text::find_from(b, pos, sep) == end,
{
    lemma_first(b, pos, sep);
}

/// The pieces from a position on are those of what stands there.
proof fn lemma_split_skip(b: Seq<u8>, pos: int, sep: u8)
    requires
        0 <= pos <= b.len(),
    ensures
        text::split_from(b, pos, sep) == text::split_from(b.skip(pos), 0, sep),
    decreases b.len() - pos,
{
    let t = b.skip(pos);
    lemma_first(b, pos, sep);
    let end = text::find_from(b, pos, sep);
    assert forall|i: int| 0 <= i < end - pos implies #[trigger] t[i] != sep by {
        assert(t[i] == b[pos + i]);
    }
    lemma_first_is(t, 0, sep, end - pos);
    if end < b.len() {
        lemma_split_skip(b, end + 1, sep);
        lemma_split_skip(t, end - pos + 1, sep);
        assert(t.skip(end - pos + 1) =~= b.skip(end + 1));
        assert(t.subrange(0, end - pos) =~= b.subrange(pos, end));
    } else {
        assert(t.subrange(0, t.len() as int) =~= b.subrange(pos, b.len() as int));
    }
}

proof fn lemma_same_lines(s: Seq<u8>)
    requires
        !has_crlf(s),
    ensures
        chomped_lines(text::split_from(with_crlf(s), 0, 0x0a)) == chomped_lines(
            text::split_from(s, 0, 0x0a),
        ),
    decreases s.len(),
{
    lemma_first(s, 0, 0x0a);
    let end = text::find_from(s, 0, 0x0a);
    lemma_crlf_behind(s, end);
    let c = with_crlf(s);
    if end < s.len() {
        let line = s.take(end);
        let rest = s.skip(end + 1);
        assert(s.skip(end).drop_first() =~= rest);
        assert(c =~= line + seq![0x0du8, 0x0a] + with_crlf(rest));
        assert forall|i: int| 0 <= i < end + 1 implies #[trigger] c[i] != 0x0a by {
            if i < end {
                assert(c[i] == s[i]);
            }
        }
        lemma_first_is(c, 0, 0x0a, end + 1);
        lemma_split_skip(c, end + 2, 0x0a);
        lemma_split_skip(s, end + 1, 0x0a);
        assert(c.skip(end + 2) =~= with_crlf(rest));
        assert(!has_crlf(rest)) by {
            if has_crlf(rest) {
                let i = choose|i: int|
                    0 < i < rest.len() && #[trigger] rest[i] == 0x0a && rest[i - 1] == 0x0d;
                assert(s[end + 1 + i] == 0x0a && s[end + i] == 0x0d);
            }
        }
        lemma_same_lines(rest);
        let theirs = c.subrange(0, end + 1);
        assert(theirs =~= line.push(0x0d));
        assert(theirs.drop_last() =~= line);
        assert(s.subrange(0, end) =~= line);
        if end > 0 {
            assert(s[end] == 0x0a);
            assert(s[end - 1] != 0x0d);
        }
        assert(chomped(theirs) == chomped(line));
        let a = text::split_from(c, 0, 0x0a);
        let b = text::split_from(s, 0, 0x0a);
        let ra = text::split_from(with_crlf(rest), 0, 0x0a);
        let rb = text::split_from(rest, 0, 0x0a);
        assert(a =~= seq![theirs] + ra);
        assert(b =~= seq![line] + rb);
        assert(chomped_lines(a) =~= seq![chomped(line)] + chomped_lines(ra));
        assert(chomped_lines(b) =~= seq![chomped(line)] + chomped_lines(rb));
    } else {
        assert(s.skip(end) =~= Seq::<u8>::empty());
        assert(c =~= s);
    }
}

/// The values are those of the lines, without their carriage returns, that have the prefix.
proof fn lemma_values(lines: Seq<Seq<u8>>, prefix: Seq<u8>)
    ensures
        values_of(lines, prefix) == chomped_lines(lines).filter(
            |line: Seq<u8>| text::starts_with(line, prefix),
        ).map_values(|line: Seq<u8>| text::behind(line, prefix.len())),
    decreases lines.len(),
{
    reveal(Seq::filter);
    let has = |line: Seq<u8>| text::starts_with(line, prefix);
    let rest = |line: Seq<u8>| text::behind(line, prefix.len());
    let all = chomped_lines(lines);
    if lines.len() > 0 {
        lemma_values(lines.drop_last(), prefix);
        assert(all.drop_last() =~= chomped_lines(lines.drop_last()));
        assert(all.last() == chomped(lines.last()));
        let before = all.drop_last().filter(has);
        if has(all.last()) {
            assert(all.filter(has) == before.push(all.last()));
            assert(before.push(all.last()).map_values(rest) =~= before.map_values(rest).push(
                rest(all.last()),
            ));
        } else {
            assert(all.filter(has) == before);
        }
    } else {
        assert(all.filter(has).map_values(rest) =~= Seq::<Seq<u8>>::empty());
    }
}

/// Line ends do not matter: a description whose lines end in a line feed alone, and the one in
/// which a carriage return stands in front of each, have the same summary.
pub proof fn line_ends_do_not_matter(r: SdpSummary, sdp: Seq<u8>)
    requires
        !has_crlf(sdp),
    ensures
        is_summary(r, text::split_from(with_crlf(sdp), 0, 0x0a)) <==> is_summary(
            r,
            text::split_from(sdp, 0, 0x0a),
        ),
{
    let a = text::split_from(with_crlf(sdp), 0, 0x0a);
    let b = text::split_from(sdp, 0, 0x0a);
    lemma_same_lines(sdp);
    lemma_values(a, mid_prefix());
    lemma_values(b, mid_prefix());
    lemma_values(a, bundle_prefix());
    lemma_values(b, bundle_prefix());
    lemma_values(a, disabled_prefix());
    lemma_values(b, disabled_prefix());
    lemma_values(a, pcmu_prefix());
    lemma_values(b, pcmu_prefix());
}

/// The texts behind `a=mid:`, in document order, repetitions included.
pub open spec fn mid_values(lines: Seq<Seq<u8>>) -> Seq<Seq<u8>> {
    chomped_lines(lines).filter(
        |line: Seq<u8>| text::starts_with(line, mid_prefix()),
    ).map_values(|line: Seq<u8>| text::behind(line, mid_prefix().len()))
}

proof fn lemma_mids(values: Seq<Seq<u8>>)
    ensures
        known_mids(values) == values.filter(
            |v: Seq<u8>| voice::mid_label(v) is Some,
        ).map_values(|v: Seq<u8>| voice::mid_label(v)->0),
        other_mids(values) == values.filter(
            |v: Seq<u8>| voice::mid_label(v) is None,
        ).map_values(|v: Seq<u8>| text::utf8_lossy(v)),
        known_mids(values).len() + other_mids(values).len() == values.len(),
    decreases values.len(),
{
    reveal(Seq::filter);
    let good = |v: Seq<u8>| voice::mid_label(v) is Some;
    let label = |v: Seq<u8>| voice::mid_label(v)->0;
    let bad = |v: Seq<u8>| voice::mid_label(v) is None;
    let lossy = |v: Seq<u8>| text::utf8_lossy(v);
    if values.len() > 0 {
        let v = values.last();
        let before = values.drop_last();
        lemma_mids(before);
        if good(v) {
            assert(values.filter(good) == before.filter(good).push(v));
            assert(values.filter(bad) == before.filter(bad));
            assert(before.filter(good).push(v).map_values(label) =~= before.filter(
                good,
            ).map_values(label).push(label(v)));
        } else {
            assert(bad(v));
            assert(values.filter(good) == before.filter(good));
            assert(values.filter(bad) == before.filter(bad).push(v));
            assert(before.filter(bad).push(v).map_values(lossy) =~= before.filter(bad).map_values(
                lossy,
            ).push(lossy(v)));
        }
    } else {
        assert(values.filter(good).map_values(label) =~= Seq::<MidLabel>::empty());
        assert(values.filter(bad).map_values(lossy) =~= Seq::<Seq<char>>::empty());
    }
}

/// Each `a=mid:` line is listed once, in document order: its label if it has one, and else its
/// text. There is a disabled slot exactly if some line says so.
pub proof fn every_mid_is_listed(r: SdpSummary, lines: Seq<Seq<u8>>)
    requires
        is_summary(r, lines),
    ensures
        r.mids@ == mid_values(lines).filter(
            |v: Seq<u8>| voice::mid_label(v) is Some,
        ).map_values(|v: Seq<u8>| voice::mid_label(v)->0),
        texts(r.unknown_mids@) == mid_values(lines).filter(
            |v: Seq<u8>| voice::mid_label(v) is None,
        ).map_values(|v: Seq<u8>| text::utf8_lossy(v)),
        r.mids@.len() + r.unknown_mids@.len() == chomped_lines(lines).filter(
            |line: Seq<u8>| text::starts_with(line, mid_prefix()),
        ).len(),
        r.has_disabled_slot <==> exists|i: int|
            0 <= i < lines.len() && text::starts_with(
                chomped(#[trigger] lines[i]),
                disabled_prefix(),
            ),
{
    lemma_values(lines, mid_prefix());
    lemma_mids(values_of(lines, mid_prefix()));
    lemma_some_value(lines, disabled_prefix());
    assert(texts(r.unknown_mids@).len() == r.unknown_mids@.len());
}

proof fn lemma_some_value(lines: Seq<Seq<u8>>, prefix: Seq<u8>)
    ensures
        values_of(lines, prefix).len() > 0 <==> exists|i: int|
            0 <= i < lines.len() && text::starts_with(chomped(#[trigger] lines[i]), prefix),
    decreases lines.len(),
{
    if lines.len() > 0 {
        let before = lines.drop_last();
        lemma_some_value(before, prefix);
        if values_of(before, prefix).len() > 0 {
            let i = choose|i: int|
                0 <= i < before.len() && text::starts_with(chomped(#[trigger] before[i]), prefix);
            assert(lines[i] == before[i]);
        } else {
            assert forall|i: int|
                0 <= i < lines.len() - 1 implies !text::starts_with(
                chomped(#[trigger] lines[i]),
                prefix,
            ) by {
                assert(lines[i] == before[i]);
            }
        }
        if text::starts_with(chomped(lines.last()), prefix) {
            assert(lines[lines.len() - 1] == lines.last());
        }
    }
}

// ---------------------------------------------------------------------------------------------
// What every line does.
// ---------------------------------------------------------------------------------------------
/// A line without the carriage return at its end.
pub open spec fn is_line(line: Seq<u8>, l: Seq<u8>) -> bool {
    &&& !line.contains(0x0a)
    &&& line == l || line == l.push(0x0d)
    &&& l.len() == 0 || l.last() != 0x0d || line == l.push(0x0d)
}

proof fn lemma_is_line(line: Seq<u8>, l: Seq<u8>)
    requires
        is_line(line, l),
    ensures
        chomped(line) == l,
{
    if line == l.push(0x0d) {
        assert(l.push(0x0d).drop_last() =~= l);
    }
}

proof fn lemma_split_append(b: Seq<u8>, line: Seq<u8>, pos: int, sep: u8)
    requires
        0 <= pos <= b.len(),
        !line.contains(sep),
    ensures
        text::split_from(b.push(sep) + line, pos, sep) == text::split_from(b, pos, sep).push(line),
    decreases b.len() - pos,
{
    let c = b.push(sep) + line;
    lemma_first(b, pos, sep);
    let end = text::find_from(b, pos, sep);
    assert forall|i: int| pos <= i < end implies #[trigger] c[i] != sep by {
        assert(c[i] == b[i]);
    }
    assert(c[end] == (if end < b.len() {
        b[end]
    } else {
        sep
    }));
    lemma_first_is(c, pos, sep, end);
    assert(c.subrange(pos, end) =~= b.subrange(pos, end));
    if end < b.len() {
        lemma_split_append(b, line, end + 1, sep);
        let first = seq![b.subrange(pos, end)];
        let others = text::split_from(b, end + 1, sep);
        assert(first + others.push(line) =~= (first + others).push(line));
    } else {
        let n = c.len() as int;
        assert forall|i: int| end + 1 <= i < n implies #[trigger] c[i] != sep by {
            assert(c[i] == line[i - end - 1]);
            assert(line.contains(line[i - end - 1]));
        }
        lemma_first_is(c, end + 1, sep, n);
        assert(c.subrange(end + 1, n) =~= line);
        assert(text::split_from(c, end + 1, sep) =~= seq![line]);
        assert(seq![b.subrange(pos, end)] + seq![line] =~= seq![b.subrange(pos, end)].push(line));
    }
}

proof fn lemma_starts(l: Seq<u8>, p: Seq<u8>)
    ensures
        text::starts_with(l, p) <==> p.is_prefix_of(l),
        p.is_prefix_of(l) ==> text::behind(l, p.len()) == l.skip(p.len() as int),
{
    if p.len() <= l.len() {
        assert(l.take(p.len() as int) =~= l.subrange(0, p.len() as int));
        assert(text::behind(l, p.len()) =~= l.skip(p.len() as int));
    }
}

proof fn lemma_values_push(lines: Seq<Seq<u8>>, line: Seq<u8>, l: Seq<u8>, p: Seq<u8>)
    requires
        is_line(line, l),
    ensures
        p.is_prefix_of(l) ==> values_of(lines.push(line), p) == values_of(lines, p).push(
            l.skip(p.len() as int),
        ),
        !p.is_prefix_of(l) ==> values_of(lines.push(line), p) == values_of(lines, p),
{
    lemma_is_line(line, l);
    lemma_starts(l, p);
    assert(lines.push(line).drop_last() =~= lines);
}

proof fn lemma_label_push(values: Seq<Seq<u8>>, x: Seq<u8>)
    ensures
        known_mids(values.push(x)) == (match voice::mid_label(x) {
            Some(m) => known_mids(values).push(m),
            None => known_mids(values),
        }),
        other_mids(values.push(x)) == (match voice::mid_label(x) {
            Some(m) => other_mids(values),
            None => other_mids(values).push(text::utf8_lossy(x)),
        }),
        bundle_tokens(values.push(x)) == tokens(text::split_from(x, 0, 0x20)),
{
    assert(values.push(x).drop_last() =~= values);
}

/// What one more line adds to what was seen before. `a=mid:` adds a label, or a value that is none.
/// `a=group:BUNDLE ` replaces the group, `m=audio 0 ` says that a slot is disabled, and
/// `a=rtpmap:0 PCMU/8000` that PCMU is offered. Whether the line ends in a carriage return does not
/// matter, and any other line changes nothing.
pub proof fn lines_add_up(
    before: &[u8],
    line: Seq<u8>,
    l: Seq<u8>,
    all: &[u8],
    q: SdpSummary,
    r: SdpSummary,
    label: &[u8],
    known: Option<MidLabel>,
)
    requires
        is_line(line, l),
        all@ == before@.push(0x0a) + line,
        call_ensures(summarize, (before,), q),
        call_ensures(summarize, (all,), r),
        l.len() >= 6 ==> label@ == l.skip(6),
        call_ensures(parse_voice_mid_label, (label,), known),
    ensures
        seq![0x61u8, 0x3d, 0x6d, 0x69, 0x64, 0x3a].is_prefix_of(l) ==> match known {
            Some(m) => r.mids@ == q.mids@.push(m) && texts(r.unknown_mids@) == texts(
                q.unknown_mids@,
            ),
            None => r.mids@ == q.mids@ && texts(r.unknown_mids@) == texts(q.unknown_mids@).push(
                text::utf8_lossy(l.skip(6)),
            ),
        },
        !seq![0x61u8, 0x3d, 0x6d, 0x69, 0x64, 0x3a].is_prefix_of(l) ==> r.mids@ == q.mids@
            && texts(r.unknown_mids@) == texts(q.unknown_mids@),
        seq![0x61u8, 0x3d, 0x67, 0x72, 0x6f, 0x75, 0x70, 0x3a, 0x42, 0x55, 0x4e, 0x44, 0x4c, 0x45, 0x20].is_prefix_of(l) ==> texts(r.bundle@) == tokens(text::split_from(l.skip(15), 0, 0x20)),
        !seq![0x61u8, 0x3d, 0x67, 0x72, 0x6f, 0x75, 0x70, 0x3a, 0x42, 0x55, 0x4e, 0x44, 0x4c, 0x45, 0x20].is_prefix_of(l) ==> texts(r.bundle@) == texts(q.bundle@),
        r.has_disabled_slot == (q.has_disabled_slot || seq![0x6du8, 0x3d, 0x61, 0x75, 0x64, 0x69, 0x6f, 0x20, 0x30, 0x20].is_prefix_of(l)),
        r.has_pcmu == (q.has_pcmu || seq![0x61u8, 0x3d, 0x72, 0x74, 0x70, 0x6d, 0x61, 0x70, 0x3a, 0x30, 0x20, 0x50, 0x43, 0x4d, 0x55, 0x2f, 0x38, 0x30, 0x30, 0x30].is_prefix_of(l)),
{
    let lines = text::split_from(before@, 0, 0x0a);
    lemma_split_append(before@, line, 0, 0x0a);
    lemma_values_push(lines, line, l, seq![0x61u8, 0x3d, 0x6d, 0x69, 0x64, 0x3a]);
    lemma_values_push(lines, line, l, seq![0x61u8, 0x3d, 0x67, 0x72, 0x6f, 0x75, 0x70, 0x3a, 0x42, 0x55, 0x4e, 0x44, 0x4c, 0x45, 0x20]);
    lemma_values_push(lines, line, l, seq![0x6du8, 0x3d, 0x61, 0x75, 0x64, 0x69, 0x6f, 0x20, 0x30, 0x20]);
    lemma_values_push(lines, line, l, seq![0x61u8, 0x3d, 0x72, 0x74, 0x70, 0x6d, 0x61, 0x70, 0x3a, 0x30, 0x20, 0x50, 0x43, 0x4d, 0x55, 0x2f, 0x38, 0x30, 0x30, 0x30]);
    if seq![0x61u8, 0x3d, 0x6d, 0x69, 0x64, 0x3a].is_prefix_of(l) {
        lemma_label_push(values_of(lines, mid_prefix()), l.skip(6));
    }
    if seq![0x61u8, 0x3d, 0x67, 0x72, 0x6f, 0x75, 0x70, 0x3a, 0x42, 0x55, 0x4e, 0x44, 0x4c, 0x45, 0x20].is_prefix_of(l) {
        lemma_label_push(values_of(lines, bundle_prefix()), l.skip(15));
    }
}

/// A description of one line says what that line says.
pub proof fn one_line(
    line: Seq<u8>,
    l: Seq<u8>,
    all: &[u8],
    r: SdpSummary,
    label: &[u8],
    known: Option<MidLabel>,
)
    requires
        is_line(line, l),
        all@ == line,
        call_ensures(summarize, (all,), r),
        l.len() >= 6 ==> label@ == l.skip(6),
        call_ensures(parse_voice_mid_label, (label,), known),
    ensures
        seq![0x61u8, 0x3d, 0x6d, 0x69, 0x64, 0x3a].is_prefix_of(l) ==> match known {
            Some(m) => r.mids@ == seq![m] && r.unknown_mids@.len() == 0,
            None => r.mids@.len() == 0 && texts(r.unknown_mids@) == seq![
                text::utf8_lossy(l.skip(6)),
            ],
        },
        !seq![0x61u8, 0x3d, 0x6d, 0x69, 0x64, 0x3a].is_prefix_of(l) ==> r.mids@.len() == 0 && r.unknown_mids@.len() == 0,
        seq![0x61u8, 0x3d, 0x67, 0x72, 0x6f, 0x75, 0x70, 0x3a, 0x42, 0x55, 0x4e, 0x44, 0x4c, 0x45, 0x20].is_prefix_of(l) ==> texts(r.bundle@) == tokens(text::split_from(l.skip(15), 0, 0x20)),
        !seq![0x61u8, 0x3d, 0x67, 0x72, 0x6f, 0x75, 0x70, 0x3a, 0x42, 0x55, 0x4e, 0x44, 0x4c, 0x45, 0x20].is_prefix_of(l) ==> r.bundle@.len() == 0,
        r.has_disabled_slot == seq![0x6du8, 0x3d, 0x61, 0x75, 0x64, 0x69, 0x6f, 0x20, 0x30, 0x20].is_prefix_of(l),
        r.has_pcmu == seq![0x61u8, 0x3d, 0x72, 0x74, 0x70, 0x6d, 0x61, 0x70, 0x3a, 0x30, 0x20, 0x50, 0x43, 0x4d, 0x55, 0x2f, 0x38, 0x30, 0x30, 0x30].is_prefix_of(l),
{
    let none = Seq::<Seq<u8>>::empty();
    assert forall|i: int| 0 <= i < line.len() implies #[trigger] line[i] != 0x0a by {
        assert(line.contains(line[i]));
    }
    lemma_first_is(line, 0, 0x0a, line.len() as int);
    assert(line.subrange(0, line.len() as int) =~= line);
    assert(text::split_from(line, 0, 0x0a) =~= none.push(line));
    lemma_values_push(none, line, l, seq![0x61u8, 0x3d, 0x6d, 0x69, 0x64, 0x3a]);
    lemma_values_push(none, line, l, seq![0x61u8, 0x3d, 0x67, 0x72, 0x6f, 0x75, 0x70, 0x3a, 0x42, 0x55, 0x4e, 0x44, 0x4c, 0x45, 0x20]);
    lemma_values_push(none, line, l, seq![0x6du8, 0x3d, 0x61, 0x75, 0x64, 0x69, 0x6f, 0x20, 0x30, 0x20]);
    lemma_values_push(none, line, l, seq![0x61u8, 0x3d, 0x72, 0x74, 0x70, 0x6d, 0x61, 0x70, 0x3a, 0x30, 0x20, 0x50, 0x43, 0x4d, 0x55, 0x2f, 0x38, 0x30, 0x30, 0x30]);
    lemma_label_push(none, l.skip(6));
    lemma_label_push(none, l.skip(15));
    assert(texts(r.unknown_mids@).len() == r.unknown_mids@.len());
    assert(texts(r.bundle@).len() == r.bundle@.len());
}

/// The names of a group stand between spaces, and empty ones do not count.
pub proof fn groups_name_their_members(pieces: Seq<Seq<u8>>, p: Seq<u8>)
    ensures
        tokens(Seq::empty()).len() == 0,
        p.len() == 0 ==> tokens(pieces.push(p)) == tokens(pieces),
        p.len() > 0 ==> tokens(pieces.push(p)) == tokens(pieces).push(text::utf8_lossy(p)),
{
    assert(pieces.push(p).drop_last() =~= pieces);
}

} // verus!
