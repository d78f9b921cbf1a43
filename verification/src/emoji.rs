//! Emoji and their `:shortcodes:`.
//!
//! Servers that carry text in Mac Roman cannot carry emoji. On the way out, emoji become
//! shortcodes, which are ASCII; when text is displayed, shortcodes that are known become emoji.
//! Both go by tables, which come in from outside.
use crate::bytes;
use crate::bytes::copy_into;
use crate::text;
use crate::text::{chars_of, lossy_text, text_of_chars};
use vstd::prelude::*;
use vstd::slice::slice_subrange;
use vstd::string::*;
use vstd::utf8::*;

verus! {

// ---------------------------------------------------------------------------------------------
// Tables.
// ---------------------------------------------------------------------------------------------
/// One row of a table.
#[derive(Debug, Clone)]
pub struct Entry {
    pub key: Vec<char>,
    pub value: Vec<char>,
}

/// The rows of a table.
pub open spec fn rows(t: Seq<Entry>) -> Seq<(Seq<char>, Seq<char>)> {
    Seq::new(t.len(), |i: int| (t[i].key@, t[i].value@))
}

/// `a` comes before `b` in the dictionary.
pub open spec fn comes_before(a: Seq<char>, b: Seq<char>) -> bool
    decreases a.len(),
{
    if b.len() == 0 {
        false
    } else if a.len() == 0 {
        true
    } else if a[0] != b[0] {
        a[0] < b[0]
    } else {
        comes_before(a.drop_first(), b.drop_first())
    }
}

/// The keys are in the order of the dictionary, and none is there twice.
pub open spec fn sorted(t: Seq<(Seq<char>, Seq<char>)>) -> bool {
    forall|i: int, j: int|
        #![trigger t[i], t[j]]
        0 <= i < j < t.len() ==> comes_before(t[i].0, t[j].0)
}

/// What the table says of a key.
pub open spec fn lookup(t: Seq<(Seq<char>, Seq<char>)>, key: Seq<char>) -> Option<Seq<char>> {
    if exists|i: int| #![trigger t[i]] 0 <= i < t.len() && t[i].0 == key {
        Some(t[choose|i: int| #![trigger t[i]] 0 <= i < t.len() && t[i].0 == key].1)
    } else {
        None
    }
}

proof fn lemma_irreflexive(a: Seq<char>)
    ensures
        !comes_before(a, a),
    decreases a.len(),
{
    if a.len() > 0 {
        lemma_irreflexive(a.drop_first());
    }
}

proof fn lemma_transitive(a: Seq<char>, b: Seq<char>, c: Seq<char>)
    requires
        comes_before(a, b),
        comes_before(b, c),
    ensures
        comes_before(a, c),
    decreases a.len(),
{
    if a.len() > 0 && b.len() > 0 && c.len() > 0 && a[0] == b[0] && b[0] == c[0] {
        lemma_transitive(a.drop_first(), b.drop_first(), c.drop_first());
    }
}

/// In a sorted table, a key has one row at most, and what that says is what the table says.
pub proof fn row_decides(t: Seq<(Seq<char>, Seq<char>)>, i: int)
    requires
        sorted(t),
        0 <= i < t.len(),
    ensures
        lookup(t, t[i].0) == Some(t[i].1),
{
    let j = choose|j: int| #![trigger t[j]] 0 <= j < t.len() && t[j].0 == t[i].0;
    assert(t[i].0 == t[i].0);
    lemma_irreflexive(t[i].0);
    if i < j {
        assert(comes_before(t[i].0, t[j].0));
    } else if j < i {
        assert(comes_before(t[j].0, t[i].0));
    }
}

/// How two keys stand to each other.
#[derive(Clone, Copy, PartialEq, Eq, Structural)]
enum Side {
    Before,
    Same,
    Behind,
}

/// Compares two keys.
fn side(a: &[char], b: &[char]) -> (r: Side)
    ensures
        match r {
            Side::Before => comes_before(a@, b@),
            Side::Same => a@ == b@,
            Side::Behind => comes_before(b@, a@),
        },
{
    let mut i: usize = 0;
    proof {
        assert(a@.skip(0) =~= a@);
        assert(b@.skip(0) =~= b@);
    }
    while i < a.len() && i < b.len() && a[i] == b[i]
        invariant
            i <= a@.len(),
            i <= b@.len(),
            a@.take(i as int) == b@.take(i as int),
            comes_before(a@, b@) == comes_before(a@.skip(i as int), b@.skip(i as int)),
            comes_before(b@, a@) == comes_before(b@.skip(i as int), a@.skip(i as int)),
        decreases a@.len() - i,
    {
        proof {
            assert(a@.skip(i as int).drop_first() =~= a@.skip(i + 1));
            assert(b@.skip(i as int).drop_first() =~= b@.skip(i + 1));
            assert(a@.take(i + 1) =~= a@.take(i as int).push(a@[i as int]));
            assert(b@.take(i + 1) =~= b@.take(i as int).push(b@[i as int]));
        }
        i = i + 1;
    }
    if i < a.len() && i < b.len() {
        if a[i] < b[i] {
            Side::Before
        } else {
            Side::Behind
        }
    } else if i < b.len() {
        Side::Before
    } else if i < a.len() {
        Side::Behind
    } else {
        assert(a@.take(i as int) =~= a@);
        assert(b@.take(i as int) =~= b@);
        Side::Same
    }
}

/// Finds a key in a sorted table.
fn find(t: &[Entry], key: &[char]) -> (r: Option<usize>)
    requires
        sorted(rows(t@)),
    ensures
        match r {
            Some(i) => i < t@.len() && t@[i as int].key@ == key@ && lookup(rows(t@), key@) == Some(
                t@[i as int].value@,
            ),
            None => lookup(rows(t@), key@) is None,
        },
{
    let ghost rs = rows(t@);
    let mut lo: usize = 0;
    let mut hi: usize = t.len();
    while lo < hi
        invariant
            rs == rows(t@),
            sorted(rs),
            lo <= hi <= t@.len(),
            forall|i: int| #![trigger rs[i]] 0 <= i < lo ==> comes_before(rs[i].0, key@),
            forall|i: int| #![trigger rs[i]] hi <= i < rs.len() ==> comes_before(key@, rs[i].0),
        decreases hi - lo,
    {
        let mid: usize = lo + (hi - lo) / 2;
        match side(t[mid].key.as_slice(), key) {
            Side::Same => {
                proof {
                    row_decides(rs, mid as int);
                }
                return Some(mid);
            },
            Side::Before => {
                proof {
                    assert forall|i: int| #![trigger rs[i]] 0 <= i < mid + 1 implies comes_before(
                        rs[i].0,
                        key@,
                    ) by {
                        if i < mid {
                            assert(comes_before(rs[i].0, rs[mid as int].0));
                            lemma_transitive(rs[i].0, rs[mid as int].0, key@);
                        }
                    }
                }
                lo = mid + 1;
            },
            Side::Behind => {
                proof {
                    assert forall|i: int|
                        #![trigger rs[i]]
                        mid <= i < rs.len() implies comes_before(key@, rs[i].0) by {
                        if mid < i {
                            assert(comes_before(rs[mid as int].0, rs[i].0));
                            lemma_transitive(key@, rs[mid as int].0, rs[i].0);
                        }
                    }
                }
                hi = mid;
            },
        }
    }
    proof {
        lemma_irreflexive(key@);
        assert forall|i: int| #![trigger rs[i]] 0 <= i < rs.len() implies rs[i].0 != key@ by {
            if i < lo {
                assert(comes_before(rs[i].0, key@));
            }
        }
    }
    None
}

/// A character of a shortcode.
pub open spec fn shortcode_char(c: char) -> bool {
    ('a' <= c && c <= 'z') || ('0' <= c && c <= '9') || c == '_' || c == '+' || c == '-'
}

fn is_shortcode_char(c: char) -> (r: bool)
    ensures
        r == shortcode_char(c),
{
    ('a' <= c && c <= 'z') || ('0' <= c && c <= '9') || c == '_' || c == '+' || c == '-'
}

/// A shortcode, without its colons.
pub open spec fn is_shortcode(s: Seq<char>) -> bool {
    s.len() > 0 && forall|i: int| 0 <= i < s.len() ==> shortcode_char(#[trigger] s[i])
}

fn all_shortcode(s: &[char]) -> (r: bool)
    ensures
        r == is_shortcode(s@),
{
    let mut i: usize = 0;
    while i < s.len()
        invariant
            i <= s@.len(),
            forall|k: int| 0 <= k < i ==> shortcode_char(#[trigger] s@[k]),
        decreases s@.len() - i,
    {
        if !is_shortcode_char(s[i]) {
            assert(!shortcode_char(s@[i as int]));
            return false;
        }
        i = i + 1;
    }
    s.len() > 0
}

/// Each shortcode of an emoji stands for that emoji.
pub open spec fn agree(
    emoji: Seq<(Seq<char>, Seq<char>)>,
    codes: Seq<(Seq<char>, Seq<char>)>,
) -> bool {
    forall|i: int|
        #![trigger emoji[i]]
        0 <= i < emoji.len() ==> is_shortcode(emoji[i].1) && lookup(codes, emoji[i].1) == Some(
            emoji[i].0,
        )
}

/// The tables: from emoji to their shortcodes, and from shortcodes to emoji.
#[derive(Debug, Clone)]
pub struct EmojiTable {
    pub encode: Vec<Entry>,
    pub decode: Vec<Entry>,
    /// How many characters the longest emoji has.
    pub max_chars: usize,
}

impl EmojiTable {
    /// The rows from emoji to shortcodes.
    pub open spec fn emoji(&self) -> Seq<(Seq<char>, Seq<char>)> {
        rows(self.encode@)
    }

    /// The rows from shortcodes to emoji.
    pub open spec fn codes(&self) -> Seq<(Seq<char>, Seq<char>)> {
        rows(self.decode@)
    }

    /// Both tables can be searched, the second one holds shortcodes, and each shortcode of an emoji
    /// stands for that emoji.
    pub open spec fn wf(&self) -> bool {
        &&& sorted(self.emoji())
        &&& sorted(self.codes())
        &&& forall|i: int|
            #![trigger self.codes()[i]]
            0 <= i < self.codes().len() ==> is_shortcode(self.codes()[i].0)
        &&& longest_key(self.emoji(), self.max_chars as int)
        &&& agree(self.emoji(), self.codes())
    }

    /// The tables with these rows. `None` if they are not sorted, a shortcode is none, or the
    /// shortcode of an emoji does not stand for that emoji.
    pub fn new(encode: &[(&str, &str)], decode: &[(&str, &str)]) -> (r: Option<EmojiTable>)
        ensures
            ({
                let ok = sorted(text_rows(encode@)) && sorted(text_rows(decode@)) && forall|i: int|
                    #![trigger decode@[i]]
                    0 <= i < decode@.len() ==> is_shortcode(decode@[i].0@);
                let ok = ok && agree(text_rows(encode@), text_rows(decode@));
                match r {
                    Some(t) => ok && t.wf() && t.emoji() == text_rows(encode@) && t.codes()
                        == text_rows(decode@),
                    None => !ok,
                }
            }),
    {
        let e = entries(encode);
        let d = entries(decode);
        if !is_sorted(e.as_slice()) || !is_sorted(d.as_slice()) {
            return None;
        }
        let mut i: usize = 0;
        while i < d.len()
            invariant
                i <= d@.len(),
                rows(d@) == text_rows(decode@),
                forall|k: int| #![trigger decode@[k]] 0 <= k < i ==> is_shortcode(decode@[k].0@),
            decreases d@.len() - i,
        {
            assert(rows(d@).len() == text_rows(decode@).len());
            assert(rows(d@)[i as int] == text_rows(decode@)[i as int]);
            if !all_shortcode(d[i].key.as_slice()) {
                assert(!is_shortcode(decode@[i as int].0@));
                return None;
            }
            i = i + 1;
        }
        assert(rows(d@).len() == text_rows(decode@).len());
        if !rows_agree(e.as_slice(), d.as_slice()) {
            return None;
        }
        let m: usize = longest(e.as_slice());
        let t = EmojiTable { encode: e, decode: d, max_chars: m };
        assert forall|k: int|
            #![trigger t.codes()[k]]
            0 <= k < t.codes().len() implies is_shortcode(
            t.codes()[k].0,
        ) by {
            assert(is_shortcode(decode@[k].0@));
        }
        Some(t)
    }
}

/// True if each shortcode of an emoji stands for that emoji.
fn rows_agree(encode: &[Entry], decode: &[Entry]) -> (r: bool)
    requires
        sorted(rows(decode@)),
    ensures
        r == agree(rows(encode@), rows(decode@)),
{
    let ghost es = rows(encode@);
    let ghost ds = rows(decode@);
    let mut i: usize = 0;
    while i < encode.len()
        invariant
            es == rows(encode@),
            ds == rows(decode@),
            sorted(ds),
            i <= encode@.len(),
            forall|k: int|
                #![trigger es[k]]
                0 <= k < i ==> is_shortcode(es[k].1) && lookup(ds, es[k].1) == Some(es[k].0),
        decreases encode@.len() - i,
    {
        let e = &encode[i];
        assert(es[i as int] == (e.key@, e.value@));
        if !all_shortcode(e.value.as_slice()) {
            return false;
        }
        match find(decode, e.value.as_slice()) {
            Some(j) => match side(decode[j].value.as_slice(), e.key.as_slice()) {
                Side::Same => {},
                _ => {
                    proof {
                        lemma_irreflexive(e.key@);
                    }
                    return false;
                },
            },
            None => {
                return false;
            },
        }
        i = i + 1;
    }
    true
}

/// The rows of a table that is given as text.
pub open spec fn text_rows(t: Seq<(&str, &str)>) -> Seq<(Seq<char>, Seq<char>)> {
    Seq::new(t.len(), |i: int| (t[i].0@, t[i].1@))
}

/// `m` is the length of the longest key, zero if there is none.
pub open spec fn longest_key(t: Seq<(Seq<char>, Seq<char>)>, m: int) -> bool {
    &&& forall|i: int| #![trigger t[i]] 0 <= i < t.len() ==> t[i].0.len() <= m
    &&& m == 0 || exists|i: int| #![trigger t[i]] 0 <= i < t.len() && t[i].0.len() == m
}

fn entries(t: &[(&str, &str)]) -> (r: Vec<Entry>)
    ensures
        rows(r@) == text_rows(t@),
{
    let mut out: Vec<Entry> = Vec::new();
    let mut i: usize = 0;
    while i < t.len()
        invariant
            i <= t@.len(),
            out@.len() == i,
            forall|k: int|
                #![trigger out@[k]]
                0 <= k < i ==> out@[k].key@ == t@[k].0@ && out@[k].value@ == t@[k].1@,
        decreases t@.len() - i,
    {
        let row = t[i];
        out.push(Entry { key: chars_of(row.0), value: chars_of(row.1) });
        i = i + 1;
    }
    assert(rows(out@) =~= text_rows(t@));
    out
}

fn is_sorted(t: &[Entry]) -> (r: bool)
    ensures
        r == sorted(rows(t@)),
{
    let ghost rs = rows(t@);
    let mut i: usize = 1;
    while i < t.len()
        invariant
            rs == rows(t@),
            1 <= i,
            forall|a: int, b: int|
                #![trigger rs[a], rs[b]]
                0 <= a < b < i && b < rs.len() ==> comes_before(rs[a].0, rs[b].0),
        decreases t@.len() - i,
    {
        match side(t[i - 1].key.as_slice(), t[i].key.as_slice()) {
            Side::Before => {},
            Side::Same => {
                proof {
                    lemma_irreflexive(rs[i as int].0);
                    assert(!comes_before(rs[i - 1].0, rs[i as int].0));
                }
                return false;
            },
            Side::Behind => {
                proof {
                    if comes_before(rs[i - 1].0, rs[i as int].0) {
                        lemma_transitive(rs[i - 1].0, rs[i as int].0, rs[i - 1].0);
                        lemma_irreflexive(rs[i - 1].0);
                    }
                    assert(!comes_before(rs[i - 1].0, rs[i as int].0));
                }
                return false;
            },
        }
        proof {
            assert forall|a: int, b: int|
                #![trigger rs[a], rs[b]]
                0 <= a < b < i + 1 && b < rs.len() implies comes_before(rs[a].0, rs[b].0) by {
                if b == i && a < i - 1 {
                    assert(comes_before(rs[a].0, rs[i - 1].0));
                    lemma_transitive(rs[a].0, rs[i - 1].0, rs[i as int].0);
                }
            }
        }
        i = i + 1;
    }
    true
}

fn longest(t: &[Entry]) -> (r: usize)
    ensures
        longest_key(rows(t@), r as int),
{
    let ghost rs = rows(t@);
    let mut m: usize = 0;
    let mut i: usize = 0;
    while i < t.len()
        invariant
            rs == rows(t@),
            i <= t@.len(),
            forall|k: int| #![trigger rs[k]] 0 <= k < i ==> rs[k].0.len() <= m,
            m == 0 || exists|k: int| #![trigger rs[k]] 0 <= k < i && rs[k].0.len() == m,
        decreases t@.len() - i,
    {
        assert(rs[i as int].0 == t@[i as int].key@);
        if t[i].key.len() > m {
            m = t[i].key.len();
        }
        i = i + 1;
    }
    m
}

// ---------------------------------------------------------------------------------------------
// From emoji to shortcodes.
// ---------------------------------------------------------------------------------------------
/// An emoji may start with this character: one that is not ASCII, or one of those on a keycap.
pub open spec fn starts_emoji(c: char) -> bool {
    c >= '\u{80}' || c == '#' || c == '*' || ('0' <= c && c <= '9')
}

fn could_start_emoji(c: char) -> (r: bool)
    ensures
        r == starts_emoji(c),
{
    c >= '\u{80}' || c == '#' || c == '*' || ('0' <= c && c <= '9')
}

/// The length of the longest emoji of at most `l` characters that the text starts with, or zero.
pub open spec fn longest_match(t: Seq<(Seq<char>, Seq<char>)>, s: Seq<char>, l: int) -> int
    decreases l,
{
    if l <= 0 {
        0
    } else if lookup(t, s.take(l)) is Some {
        l
    } else {
        longest_match(t, s, l - 1)
    }
}

/// How many characters at the start of the text are an emoji, or zero.
pub open spec fn emoji_len(t: Seq<(Seq<char>, Seq<char>)>, max: int, s: Seq<char>) -> int {
    if starts_emoji(s[0]) {
        longest_match(
            t,
            s,
            if max < s.len() {
                max
            } else {
                s.len() as int
            },
        )
    } else {
        0
    }
}

/// A shortcode with its colons.
pub open spec fn delimited(code: Seq<char>) -> Seq<char> {
    seq![':'] + code + seq![':']
}

/// The text with shortcodes for its emoji. Where several emoji start, the longest counts.
pub open spec fn encoded(t: Seq<(Seq<char>, Seq<char>)>, max: int, s: Seq<char>) -> Seq<char>
    decreases s.len(),
{
    if s.len() == 0 {
        Seq::empty()
    } else {
        let l = emoji_len(t, max, s);
        if 0 < l <= s.len() {
            delimited(lookup(t, s.take(l))->0) + encoded(t, max, s.skip(l))
        } else {
            seq![s[0]] + encoded(t, max, s.skip(1))
        }
    }
}

proof fn lemma_longest_match(t: Seq<(Seq<char>, Seq<char>)>, s: Seq<char>, l: int)
    requires
        0 <= l,
    ensures
        0 <= longest_match(t, s, l) <= l,
        longest_match(t, s, l) > 0 ==> lookup(t, s.take(longest_match(t, s, l))) is Some,
        forall|k: int|
            #![trigger s.take(k)]
            longest_match(t, s, l) < k <= l ==> lookup(t, s.take(k)) is None,
    decreases l,
{
    if l > 0 && lookup(t, s.take(l)) is None {
        lemma_longest_match(t, s, l - 1);
    }
}

/// The shortcode of the longest emoji that `chars` holds from `i` on, and its length.
fn match_emoji(table: &EmojiTable, chars: &[char], i: usize) -> (r: Option<(usize, usize)>)
    requires
        table.wf(),
        i < chars@.len(),
    ensures
        ({
            let s = chars@.skip(i as int);
            let l = emoji_len(table.emoji(), table.max_chars as int, s);
            match r {
                Some((row, n)) => {
                    &&& 0 < n <= s.len()
                    &&& n == l
                    &&& row < table.encode@.len()
                    &&& lookup(table.emoji(), s.take(l)) == Some(table.encode@[row as int].value@)
                },
                None => l == 0,
            }
        }),
{
    let ghost s = chars@.skip(i as int);
    let ghost t = table.emoji();
    if !could_start_emoji(chars[i]) {
        return None;
    }
    let left: usize = chars.len() - i;
    let most: usize = if table.max_chars < left {
        table.max_chars
    } else {
        left
    };
    let mut l: usize = most;
    while l > 0
        invariant
            table.wf(),
            t == table.emoji(),
            s == chars@.skip(i as int),
            i < chars@.len(),
            most <= s.len(),
            l <= most,
            longest_match(t, s, l as int) == emoji_len(t, table.max_chars as int, s),
        decreases l,
    {
        assert(i + l <= chars.len());
        let cluster = slice_subrange(chars, i, i + l);
        assert(cluster@ =~= s.take(l as int));
        if let Some(row) = find(table.encode.as_slice(), cluster) {
            return Some((row, l));
        }
        l = l - 1;
    }
    None
}

/// Appends some characters to a text.
fn push_all(out: &mut Vec<char>, cs: &[char])
    ensures
        final(out)@ == old(out)@ + cs@,
{
    out.extend_from_slice(cs);
    assert(out@ =~= old(out)@ + cs@);
}

/// Replaces emoji by shortcodes. Everything else, emoji that have none included, stays.
pub fn emoji_to_shortcodes(table: &EmojiTable, input: &str) -> (r: String)
    requires
        table.wf(),
    ensures
        r@ == encoded(table.emoji(), table.max_chars as int, input@),
{
    let chars = chars_of(input);
    let ghost t = table.emoji();
    let ghost max = table.max_chars as int;
    let mut out: Vec<char> = Vec::new();
    let mut i: usize = 0;
    assert(chars@.skip(0) =~= chars@);
    assert(out@ + encoded(t, max, chars@) =~= encoded(t, max, chars@));
    while i < chars.len()
        invariant
            table.wf(),
            t == table.emoji(),
            max == table.max_chars,
            chars@ == input@,
            i <= chars@.len(),
            out@ + encoded(t, max, chars@.skip(i as int)) == encoded(t, max, input@),
        decreases chars@.len() - i,
    {
        let ghost s = chars@.skip(i as int);
        let ghost before = out@;
        match match_emoji(table, chars.as_slice(), i) {
            Some((row, n)) => {
                out.push(':');
                push_all(&mut out, table.encode[row].value.as_slice());
                out.push(':');
                proof {
                    let code = table.encode@[row as int].value@;
                    assert(s.skip(n as int) =~= chars@.skip(i + n));
                    assert(out@ =~= before + delimited(code));
                    assert(out@ + encoded(t, max, s.skip(n as int)) =~= before + (delimited(code)
                        + encoded(t, max, s.skip(n as int))));
                }
                i = i + n;
            },
            None => {
                out.push(chars[i]);
                proof {
                    assert(s.skip(1) =~= chars@.skip(i + 1));
                    assert(out@ + encoded(t, max, s.skip(1)) =~= before + (seq![s[0]] + encoded(
                        t,
                        max,
                        s.skip(1),
                    )));
                }
                i = i + 1;
            },
        }
    }
    assert(chars@.skip(i as int) =~= Seq::<char>::empty());
    assert(out@ =~= encoded(t, max, input@));
    text_of_chars(out.as_slice())
}

// ---------------------------------------------------------------------------------------------
// From shortcodes to emoji.
// ---------------------------------------------------------------------------------------------
/// The control character that starts a colour in a chat line.
pub const MIRC_COLOR: char = '\u{3}';

/// A decimal digit.
pub open spec fn digit(c: char) -> bool {
    '0' <= c && c <= '9'
}

/// Where at most `k` digits end that start at `i`.
pub open spec fn digits_end(s: Seq<char>, i: int, k: int) -> int
    decreases k,
{
    if k > 0 && 0 <= i < s.len() && digit(s[i]) {
        digits_end(s, i + 1, k - 1)
    } else {
        i
    }
}

/// Where a colour ends that starts at 0: the control character, at most two digits, and perhaps a
/// comma and at most two digits more.
pub open spec fn color_end(s: Seq<char>) -> int {
    let a = digits_end(s, 1, 2);
    if a + 1 < s.len() && s[a] == ',' && digit(s[a + 1]) {
        digits_end(s, a + 1, 2)
    } else {
        a
    }
}

/// Where the characters of a shortcode end that start at `j`.
pub open spec fn name_end(s: Seq<char>, j: int) -> int
    decreases s.len() - j,
{
    if 0 <= j < s.len() && shortcode_char(s[j]) {
        name_end(s, j + 1)
    } else {
        j
    }
}

/// The emoji that the text starts with as a shortcode, if it does.
pub open spec fn token(t: Seq<(Seq<char>, Seq<char>)>, s: Seq<char>) -> Option<Seq<char>> {
    let j = name_end(s, 1);
    if s[0] == ':' && 1 < j < s.len() && s[j] == ':' {
        lookup(t, s.subrange(1, j))
    } else {
        None
    }
}

/// The text with emoji for the shortcodes that are known. Other tokens and stray colons stay, and a
/// closing colon of what is no shortcode may open one. Colours are passed over.
pub open spec fn decoded(t: Seq<(Seq<char>, Seq<char>)>, s: Seq<char>) -> Seq<char>
    decreases s.len(),
{
    if s.len() == 0 {
        Seq::empty()
    } else if s[0] == MIRC_COLOR && 0 < color_end(s) <= s.len() {
        s.take(color_end(s)) + decoded(t, s.skip(color_end(s)))
    } else {
        match token(t, s) {
            Some(e) => if 0 <= name_end(s, 1) < s.len() {
                e + decoded(t, s.skip(name_end(s, 1) + 1))
            } else {
                seq![s[0]] + decoded(t, s.skip(1))
            },
            None => seq![s[0]] + decoded(t, s.skip(1)),
        }
    }
}

proof fn lemma_digits_end(s: Seq<char>, i: int, k: int)
    requires
        0 <= i <= s.len(),
        0 <= k,
    ensures
        i <= digits_end(s, i, k) <= s.len(),
        forall|x: int| i <= x < digits_end(s, i, k) ==> digit(#[trigger] s[x]),
    decreases k,
{
    if k > 0 && i < s.len() && digit(s[i]) {
        lemma_digits_end(s, i + 1, k - 1);
    }
}

proof fn lemma_color_end(s: Seq<char>)
    requires
        s.len() > 0,
    ensures
        0 < color_end(s) <= s.len(),
        forall|x: int| 1 <= x < color_end(s) ==> #[trigger] s[x] != ':' && s[x] != MIRC_COLOR,
{
    lemma_digits_end(s, 1, 2);
    let a = digits_end(s, 1, 2);
    if a + 1 < s.len() && s[a] == ',' && digit(s[a + 1]) {
        lemma_digits_end(s, a + 1, 2);
    }
}

proof fn lemma_name_end(s: Seq<char>, j: int)
    requires
        0 <= j <= s.len(),
    ensures
        j <= name_end(s, j) <= s.len(),
        forall|x: int| j <= x < name_end(s, j) ==> shortcode_char(#[trigger] s[x]),
        name_end(s, j) < s.len() ==> !shortcode_char(s[name_end(s, j)]),
    decreases s.len() - j,
{
    if j < s.len() && shortcode_char(s[j]) {
        lemma_name_end(s, j + 1);
    }
}

/// Where at most two digits end that start at `i`.
fn skip_digits(chars: &[char], from: usize, i: usize) -> (r: usize)
    requires
        from <= i <= chars@.len(),
    ensures
        i <= r <= chars@.len(),
        r - from == digits_end(chars@.skip(from as int), i - from, 2),
{
    let ghost s = chars@.skip(from as int);
    let mut at: usize = i;
    let mut left: usize = 2;
    while left > 0 && at < chars.len() && '0' <= chars[at] && chars[at] <= '9'
        invariant
            s == chars@.skip(from as int),
            from <= i <= at <= chars@.len(),
            left <= 2,
            digits_end(s, at - from, left as int) == digits_end(s, i - from, 2),
        decreases left,
    {
        at = at + 1;
        left = left - 1;
    }
    at
}

/// Where a colour ends that starts at `i`.
fn skip_color(chars: &[char], i: usize) -> (r: usize)
    requires
        i < chars@.len(),
    ensures
        i < r <= chars@.len(),
        r - i == color_end(chars@.skip(i as int)),
{
    assert(i + 1 <= chars.len());
    let a: usize = skip_digits(chars, i, i + 1);
    if a < chars.len() && chars.len() - a > 1 && chars[a] == ',' && '0' <= chars[a + 1] && chars[a
        + 1] <= '9' {
        return skip_digits(chars, i, a + 1);
    }
    a
}

/// The emoji that `chars` holds as a shortcode from `i` on, and where the shortcode ends.
fn match_token(table: &EmojiTable, chars: &[char], i: usize) -> (r: Option<(usize, usize)>)
    requires
        table.wf(),
        i < chars@.len(),
        chars@[i as int] == ':',
    ensures
        ({
            let s = chars@.skip(i as int);
            match r {
                Some((row, j)) => {
                    &&& i < j < chars@.len()
                    &&& j - i == name_end(s, 1)
                    &&& row < table.decode@.len()
                    &&& token(table.codes(), s) == Some(table.decode@[row as int].value@)
                },
                None => token(table.codes(), s) is None,
            }
        }),
{
    let ghost s = chars@.skip(i as int);
    assert(i + 1 <= chars.len());
    let mut j: usize = i + 1;
    while j < chars.len() && is_shortcode_char(chars[j])
        invariant
            s == chars@.skip(i as int),
            i < j <= chars@.len(),
            name_end(s, j - i) == name_end(s, 1),
        decreases chars@.len() - j,
    {
        j = j + 1;
    }
    if j < chars.len() && j > i + 1 && chars[j] == ':' {
        let name = slice_subrange(chars, i + 1, j);
        assert(name@ =~= s.subrange(1, j - i));
        if let Some(row) = find(table.decode.as_slice(), name) {
            return Some((row, j));
        }
    }
    None
}

/// Replaces shortcodes that are known by emoji. Everything else stays.
pub fn shortcodes_to_emoji(table: &EmojiTable, input: &str) -> (r: String)
    requires
        table.wf(),
    ensures
        r@ == decoded(table.codes(), input@),
{
    let chars = chars_of(input);
    let ghost t = table.codes();
    let mut out: Vec<char> = Vec::new();
    let mut i: usize = 0;
    assert(chars@.skip(0) =~= chars@);
    assert(out@ + decoded(t, chars@) =~= decoded(t, chars@));
    while i < chars.len()
        invariant
            table.wf(),
            t == table.codes(),
            chars@ == input@,
            i <= chars@.len(),
            out@ + decoded(t, chars@.skip(i as int)) == decoded(t, input@),
        decreases chars@.len() - i,
    {
        let ghost s = chars@.skip(i as int);
        let ghost before = out@;
        let c: char = chars[i];
        proof {
            lemma_color_end(s);
        }
        if c == MIRC_COLOR {
            let end: usize = skip_color(chars.as_slice(), i);
            push_all(&mut out, slice_subrange(chars.as_slice(), i, end));
            proof {
                assert(chars@.subrange(i as int, end as int) =~= s.take(end - i));
                assert(s.skip(end - i) =~= chars@.skip(end as int));
                assert(out@ + decoded(t, s.skip(end - i)) =~= before + (s.take(end - i) + decoded(
                    t,
                    s.skip(end - i),
                )));
            }
            i = end;
            continue ;
        }
        if c == ':' {
            if let Some((row, j)) = match_token(table, chars.as_slice(), i) {
                push_all(&mut out, table.decode[row].value.as_slice());
                proof {
                    let e = table.decode@[row as int].value@;
                    assert(s.skip(j - i + 1) =~= chars@.skip(j + 1));
                    assert(out@ + decoded(t, s.skip(j - i + 1)) =~= before + (e + decoded(
                        t,
                        s.skip(j - i + 1),
                    )));
                }
                i = j + 1;
                continue ;
            }
        }
        out.push(c);
        proof {
            assert(token(t, s) is None);
            assert(s.skip(1) =~= chars@.skip(i + 1));
            assert(out@ + decoded(t, s.skip(1)) =~= before + (seq![s[0]] + decoded(t, s.skip(1))));
        }
        i = i + 1;
    }
    assert(chars@.skip(i as int) =~= Seq::<char>::empty());
    assert(out@ =~= decoded(t, input@));
    text_of_chars(out.as_slice())
}

// ---------------------------------------------------------------------------------------------
// There and back.
// ---------------------------------------------------------------------------------------------
/// A colon of the text opens a shortcode once the emoji behind it are encoded.
pub open spec fn colon_opens(table: EmojiTable, s: Seq<char>, p: int) -> bool {
    s[p] == ':' && token(
        table.codes(),
        encoded(table.emoji(), table.max_chars as int, s.skip(p)),
    ) is Some
}

/// No colon of the text opens a shortcode once its emoji are encoded.
pub open spec fn colons_stay(table: EmojiTable, s: Seq<char>) -> bool {
    forall|p: int| 0 <= p < s.len() ==> !#[trigger] colon_opens(table, s, p)
}

proof fn lemma_colons_stay(table: EmojiTable, s: Seq<char>, n: int)
    requires
        colons_stay(table, s),
        0 <= n <= s.len(),
    ensures
        colons_stay(table, s.skip(n)),
{
    assert forall|p: int| 0 <= p < s.skip(n).len() implies !#[trigger] colon_opens(
        table,
        s.skip(n),
        p,
    ) by {
        assert(s.skip(n).skip(p) =~= s.skip(n + p));
        assert(!colon_opens(table, s, n + p));
    }
}

/// Nowhere in the text does a known shortcode start.
pub open spec fn no_token(t: Seq<(Seq<char>, Seq<char>)>, s: Seq<char>) -> bool {
    forall|p: int| 0 <= p < s.len() ==> token(t, #[trigger] s.skip(p)) is None
}

proof fn lemma_no_token(t: Seq<(Seq<char>, Seq<char>)>, s: Seq<char>, n: int)
    requires
        no_token(t, s),
        0 <= n <= s.len(),
    ensures
        no_token(t, s.skip(n)),
{
    assert forall|p: int| 0 <= p < s.skip(n).len() implies token(
        t,
        #[trigger] s.skip(n).skip(p),
    ) is None by {
        assert(s.skip(n).skip(p) =~= s.skip(n + p));
    }
}

proof fn lemma_emoji_len(t: Seq<(Seq<char>, Seq<char>)>, max: int, s: Seq<char>)
    requires
        s.len() > 0,
        0 <= max,
    ensures
        0 <= emoji_len(t, max, s) <= s.len(),
        emoji_len(t, max, s) > 0 ==> lookup(t, s.take(emoji_len(t, max, s))) is Some,
{
    let most = if max < s.len() {
        max
    } else {
        s.len() as int
    };
    lemma_longest_match(t, s, most);
}

/// As far as an encoded text shows no colon, it is the text itself.
proof fn lemma_plain_start(t: Seq<(Seq<char>, Seq<char>)>, max: int, s: Seq<char>, m: int)
    requires
        0 <= max,
        0 <= m <= encoded(t, max, s).len(),
        forall|x: int| 0 <= x < m ==> #[trigger] encoded(t, max, s)[x] != ':',
    ensures
        m <= s.len(),
        encoded(t, max, s).take(m) == s.take(m),
        encoded(t, max, s).skip(m) == encoded(t, max, s.skip(m)),
    decreases m,
{
    let e = encoded(t, max, s);
    if m == 0 {
        assert(e.take(0) =~= s.take(0));
        assert(e.skip(0) =~= e);
        assert(s.skip(0) =~= s);
    } else {
        assert(s.len() > 0);
        lemma_emoji_len(t, max, s);
        let l = emoji_len(t, max, s);
        let tail = encoded(t, max, s.skip(1));
        assert(e[0] != ':');
        if l > 0 {
            assert(delimited(lookup(t, s.take(l))->0)[0] == ':');
        }
        assert(e == seq![s[0]] + tail);
        assert forall|x: int| 0 <= x < m - 1 implies #[trigger] tail[x] != ':' by {
            assert(e[x + 1] != ':');
        }
        lemma_plain_start(t, max, s.skip(1), m - 1);
        assert(e.take(m) =~= seq![s[0]] + tail.take(m - 1));
        assert(s.take(m) =~= seq![s[0]] + s.skip(1).take(m - 1));
        assert(e.skip(m) =~= tail.skip(m - 1));
        assert(s.skip(1).skip(m - 1) =~= s.skip(m));
    }
}

proof fn lemma_name_of_token(code: Seq<char>, tail: Seq<char>, j: int)
    requires
        is_shortcode(code),
        1 <= j <= 1 + code.len(),
    ensures
        name_end(delimited(code) + tail, j) == 1 + code.len(),
    decreases 1 + code.len() - j,
{
    let s = delimited(code) + tail;
    if j <= code.len() {
        assert(s[j] == code[j - 1]);
        assert(shortcode_char(code[j - 1]));
        lemma_name_of_token(code, tail, j + 1);
    } else {
        assert(s[j] == ':');
    }
}

/// A token at the start of a text is decoded, whatever follows it.
proof fn lemma_decode_token(
    t: Seq<(Seq<char>, Seq<char>)>,
    code: Seq<char>,
    emoji: Seq<char>,
    tail: Seq<char>,
)
    requires
        is_shortcode(code),
        lookup(t, code) == Some(emoji),
    ensures
        decoded(t, delimited(code) + tail) == emoji + decoded(t, tail),
{
    let s = delimited(code) + tail;
    lemma_name_of_token(code, tail, 1);
    assert(s.subrange(1, 1 + code.len() as int) =~= code);
    assert(s.skip(2 + code.len() as int) =~= tail);
    assert(s[0] == ':');
    assert(s[1 + code.len() as int] == ':');
}

/// Emoji come back: a text, encoded and decoded again, is what it was, provided that no colon of
/// the text itself opens a shortcode.
pub proof fn decode_undoes_encode(table: EmojiTable, s: Seq<char>)
    requires
        table.wf(),
        colons_stay(table, s),
    ensures
        decoded(table.codes(), encoded(table.emoji(), table.max_chars as int, s)) == s,
    decreases s.len(),
{
    let t = table.emoji();
    let d = table.codes();
    let max = table.max_chars as int;
    if s.len() > 0 {
        lemma_emoji_len(t, max, s);
        let l = emoji_len(t, max, s);
        let e = encoded(t, max, s);
        if l > 0 {
            let key = s.take(l);
            let i = choose|i: int| #![trigger t[i]] 0 <= i < t.len() && t[i].0 == key;
            row_decides(t, i);
            let code = t[i].1;
            let tail = encoded(t, max, s.skip(l));
            assert(e == delimited(code) + tail);
            lemma_decode_token(d, code, key, tail);
            lemma_colons_stay(table, s, l);
            decode_undoes_encode(table, s.skip(l));
            assert(key + s.skip(l) =~= s);
        } else if s[0] == MIRC_COLOR {
            let tail = encoded(t, max, s.skip(1));
            assert(e == seq![s[0]] + tail);
            lemma_color_end(e);
            let m = color_end(e);
            assert forall|x: int| 0 <= x < m implies #[trigger] e[x] != ':' by {
                if x == 0 {
                    assert(e[0] == s[0]);
                }
            }
            lemma_plain_start(t, max, s, m);
            lemma_colons_stay(table, s, m);
            decode_undoes_encode(table, s.skip(m));
            assert(s.take(m) + s.skip(m) =~= s);
        } else {
            let tail = encoded(t, max, s.skip(1));
            assert(e == seq![s[0]] + tail);
            assert(e[0] == s[0]);
            assert(e.skip(1) =~= tail);
            assert(s.skip(0) =~= s);
            assert(!colon_opens(table, s, 0));
            assert(token(d, e) is None);
            lemma_colons_stay(table, s, 1);
            decode_undoes_encode(table, s.skip(1));
            assert(seq![s[0]] + s.skip(1) =~= s);
        }
    }
}

/// A text without colons comes back when it is encoded and decoded again, whatever emoji, digits
/// and colours it holds.
pub proof fn colonless_text_comes_back(table: EmojiTable, s: Seq<char>)
    requires
        table.wf(),
        !s.contains(':'),
    ensures
        decoded(table.codes(), encoded(table.emoji(), table.max_chars as int, s)) == s,
{
    assert forall|p: int| 0 <= p < s.len() implies !#[trigger] colon_opens(table, s, p) by {
        assert(s.contains(s[p]));
    }
    decode_undoes_encode(table, s);
}

/// A text in which no known shortcode starts is displayed as it is, whatever colons it holds.
pub proof fn decode_leaves_plain_text(t: Seq<(Seq<char>, Seq<char>)>, s: Seq<char>)
    requires
        no_token(t, s),
    ensures
        decoded(t, s) == s,
    decreases s.len(),
{
    if s.len() > 0 {
        if s[0] == MIRC_COLOR {
            lemma_color_end(s);
            let m = color_end(s);
            lemma_no_token(t, s, m);
            decode_leaves_plain_text(t, s.skip(m));
            assert(s.take(m) + s.skip(m) =~= s);
        } else {
            assert(s.skip(0) =~= s);
            assert(token(t, s) is None);
            lemma_no_token(t, s, 1);
            decode_leaves_plain_text(t, s.skip(1));
            assert(seq![s[0]] + s.skip(1) =~= s);
        }
    }
}

/// Between no two colons of the text stands a known name.
pub open spec fn no_known_name(t: Seq<(Seq<char>, Seq<char>)>, s: Seq<char>) -> bool {
    forall|a: int, b: int|
        0 <= a < b < s.len() && s[a] == ':' && s[b] == ':' ==> lookup(
            t,
            #[trigger] s.subrange(a + 1, b),
        ) is None
}

/// A text is displayed as it is if between no two of its colons stands a known name: unknown names,
/// stray colons, times of day and colours stay.
pub proof fn decode_leaves_unknown_names(t: Seq<(Seq<char>, Seq<char>)>, s: Seq<char>)
    requires
        no_known_name(t, s),
    ensures
        decoded(t, s) == s,
{
    assert forall|p: int| 0 <= p < s.len() implies token(t, #[trigger] s.skip(p)) is None by {
        let tail = s.skip(p);
        let j = name_end(tail, 1);
        if tail[0] == ':' && 1 < j < tail.len() && tail[j] == ':' {
            assert(s[p] == ':' && s[p + j] == ':');
            assert(tail.subrange(1, j) =~= s.subrange(p + 1, p + j));
        }
    }
    decode_leaves_plain_text(t, s);
}

/// Nowhere in the text does a known emoji start.
pub open spec fn no_emoji(t: Seq<(Seq<char>, Seq<char>)>, max: int, s: Seq<char>) -> bool {
    forall|p: int| 0 <= p < s.len() ==> emoji_len(t, max, #[trigger] s.skip(p)) == 0
}

/// A text in which no known emoji starts is sent as it is, whatever digits and symbols it holds.
pub proof fn encode_leaves_plain_text(t: Seq<(Seq<char>, Seq<char>)>, max: int, s: Seq<char>)
    requires
        no_emoji(t, max, s),
    ensures
        encoded(t, max, s) == s,
    decreases s.len(),
{
    if s.len() > 0 {
        assert(s.skip(0) =~= s);
        assert(emoji_len(t, max, s) == 0);
        assert forall|p: int| 0 <= p < s.skip(1).len() implies emoji_len(
            t,
            max,
            #[trigger] s.skip(1).skip(p),
        ) == 0 by {
            assert(s.skip(1).skip(p) =~= s.skip(1 + p));
        }
        encode_leaves_plain_text(t, max, s.skip(1));
        assert(seq![s[0]] + s.skip(1) =~= s);
    }
}

// ---------------------------------------------------------------------------------------------
// Completion.
// ---------------------------------------------------------------------------------------------
/// `a` is offered before `b` to who has typed `p`: what was typed itself, then the shorter one,
/// then the one that comes first in the dictionary.
pub open spec fn ranks_before(p: Seq<char>, a: Seq<char>, b: Seq<char>) -> bool {
    if (a == p) != (b == p) {
        a == p
    } else if a.len() != b.len() {
        a.len() < b.len()
    } else {
        comes_before(a, b)
    }
}

/// `out` is the best of the rows whose key starts with what was typed: at most `max` of them, in
/// the order of their rank, and none left out that ranks before one of them.
pub open spec fn is_best(
    t: Seq<(Seq<char>, Seq<char>)>,
    p: Seq<char>,
    max: int,
    out: Seq<(Seq<char>, Seq<char>)>,
) -> bool {
    &&& out.len() <= max
    &&& forall|k: int|
        #![trigger out[k]]
        0 <= k < out.len() ==> t.contains(out[k]) && p.is_prefix_of(out[k].0)
    &&& forall|k: int, l: int|
        #![trigger out[k], out[l]]
        0 <= k < l < out.len() ==> ranks_before(p, out[k].0, out[l].0)
    &&& forall|i: int|
        #![trigger t[i]]
        0 <= i < t.len() && p.is_prefix_of(t[i].0) ==> out.contains(t[i]) || (out.len() == max
            && forall|k: int|
            #![trigger out[k]]
            0 <= k < out.len() ==> ranks_before(p, out[k].0, t[i].0))
}

proof fn lemma_total(a: Seq<char>, b: Seq<char>)
    ensures
        a == b || comes_before(a, b) || comes_before(b, a),
    decreases a.len(),
{
    if a.len() > 0 && b.len() > 0 && a[0] == b[0] {
        lemma_total(a.drop_first(), b.drop_first());
        if a.drop_first() == b.drop_first() {
            assert(a =~= seq![a[0]] + a.drop_first());
            assert(b =~= seq![b[0]] + b.drop_first());
        }
    } else if a.len() == 0 && b.len() == 0 {
        assert(a =~= b);
    }
}

proof fn lemma_rank_transitive(p: Seq<char>, a: Seq<char>, b: Seq<char>, c: Seq<char>)
    requires
        ranks_before(p, a, b),
        ranks_before(p, b, c),
    ensures
        ranks_before(p, a, c),
{
    if a.len() == b.len() && b.len() == c.len() && comes_before(a, b) && comes_before(b, c) {
        lemma_transitive(a, b, c);
    }
    if a == p && c == p {
        lemma_irreflexive(p);
    }
}

proof fn lemma_rank_total(p: Seq<char>, a: Seq<char>, b: Seq<char>)
    ensures
        a == b || ranks_before(p, a, b) || ranks_before(p, b, a),
        !ranks_before(p, a, a),
{
    lemma_total(a, b);
    lemma_irreflexive(a);
}

fn same_chars(a: &[char], b: &[char]) -> (r: bool)
    ensures
        r == (a@ == b@),
{
    proof {
        lemma_irreflexive(a@);
    }
    match side(a, b) {
        Side::Same => true,
        _ => false,
    }
}

fn outranks(p: &[char], a: &[char], b: &[char]) -> (r: bool)
    ensures
        r == ranks_before(p@, a@, b@),
{
    let ea = same_chars(a, p);
    let eb = same_chars(b, p);
    if ea != eb {
        return ea;
    }
    if a.len() != b.len() {
        return a.len() < b.len();
    }
    proof {
        lemma_irreflexive(a@);
        if comes_before(a@, b@) && comes_before(b@, a@) {
            lemma_transitive(a@, b@, a@);
        }
    }
    match side(a, b) {
        Side::Before => true,
        _ => false,
    }
}

fn starts_with(s: &[char], p: &[char]) -> (r: bool)
    ensures
        r == p@.is_prefix_of(s@),
{
    if s.len() < p.len() {
        return false;
    }
    same_chars(slice_subrange(s, 0, p.len()), p)
}

/// A row that may still be offered once `out` is.
spec fn remains(
    t: Seq<(Seq<char>, Seq<char>)>,
    p: Seq<char>,
    out: Seq<(Seq<char>, Seq<char>)>,
    i: int,
) -> bool {
    p.is_prefix_of(t[i].0) && (out.len() == 0 || ranks_before(p, out.last().0, t[i].0))
}

/// Every row whose key starts with what was typed is offered, or ranks behind all that are.
spec fn covered(
    t: Seq<(Seq<char>, Seq<char>)>,
    p: Seq<char>,
    out: Seq<(Seq<char>, Seq<char>)>,
) -> bool {
    forall|i: int|
        #![trigger t[i]]
        0 <= i < t.len() && p.is_prefix_of(t[i].0) ==> out.contains(t[i]) || remains(t, p, out, i)
}

proof fn lemma_next(
    t: Seq<(Seq<char>, Seq<char>)>,
    p: Seq<char>,
    out: Seq<(Seq<char>, Seq<char>)>,
    best: int,
)
    requires
        sorted(t),
        covered(t, p, out),
        0 <= best < t.len(),
        remains(t, p, out, best),
        forall|i: int|
            #![trigger t[i]]
            0 <= i < t.len() && remains(t, p, out, i) ==> !ranks_before(p, t[i].0, t[best].0),
    ensures
        covered(t, p, out.push(t[best])),
{
    let next = out.push(t[best]);
    assert forall|i: int| #![trigger t[i]] 0 <= i < t.len()
        && p.is_prefix_of(t[i].0) implies next.contains(
        t[i],
    ) || remains(t, p, next, i) by {
        if out.contains(t[i]) {
            let k = choose|k: int| 0 <= k < out.len() && out[k] == t[i];
            assert(next[k] == t[i]);
        } else {
            assert(remains(t, p, out, i));
            lemma_rank_total(p, t[i].0, t[best].0);
            if t[i].0 == t[best].0 {
                lemma_irreflexive(t[i].0);
                if i < best {
                    assert(comes_before(t[i].0, t[best].0));
                } else if best < i {
                    assert(comes_before(t[best].0, t[i].0));
                }
                assert(next[out.len() as int] == t[i]);
            }
        }
    }
}

/// The rows to offer to who has typed `p`.
fn best_rows(t: &[Entry], p: &[char], max: usize) -> (r: Vec<usize>)
    requires
        sorted(rows(t@)),
    ensures
        forall|k: int| #![trigger r@[k]] 0 <= k < r@.len() ==> r@[k] < t@.len(),
        is_best(rows(t@), p@, max as int, Seq::new(r@.len(), |k: int| rows(t@)[r@[k] as int])),
{
    let ghost rs = rows(t@);
    let ghost mut out: Seq<(Seq<char>, Seq<char>)> = Seq::empty();
    let mut r: Vec<usize> = Vec::new();
    while r.len() < max
        invariant_except_break
            rs == rows(t@),
            sorted(rs),
            r@.len() <= max,
            out.len() == r@.len(),
            forall|k: int|
                #![trigger r@[k]]
                0 <= k < r@.len() ==> r@[k] < t@.len() && out[k] == rs[r@[k] as int],
            forall|k: int| #![trigger out[k]] 0 <= k < out.len() ==> p@.is_prefix_of(out[k].0),
            forall|k: int, l: int|
                #![trigger out[k], out[l]]
                0 <= k < l < out.len() ==> ranks_before(p@, out[k].0, out[l].0),
            covered(rs, p@, out),
        ensures
            rs == rows(t@),
            r@.len() <= max,
            out.len() == r@.len(),
            forall|k: int|
                #![trigger r@[k]]
                0 <= k < r@.len() ==> r@[k] < t@.len() && out[k] == rs[r@[k] as int],
            forall|k: int| #![trigger out[k]] 0 <= k < out.len() ==> p@.is_prefix_of(out[k].0),
            forall|k: int, l: int|
                #![trigger out[k], out[l]]
                0 <= k < l < out.len() ==> ranks_before(p@, out[k].0, out[l].0),
            covered(rs, p@, out),
            r@.len() == max || forall|i: int|
                #![trigger rs[i]]
                0 <= i < rs.len() ==> !remains(rs, p@, out, i),
        decreases max - r@.len(),
    {
        let mut best: Option<usize> = None;
        let mut i: usize = 0;
        while i < t.len()
            invariant
                rs == rows(t@),
                i <= t@.len(),
                out.len() == r@.len(),
                forall|k: int|
                    #![trigger r@[k]]
                    0 <= k < r@.len() ==> r@[k] < t@.len() && out[k] == rs[r@[k] as int],
                match best {
                    Some(b) => b < i && remains(rs, p@, out, b as int) && forall|j: int|
                        #![trigger rs[j]]
                        0 <= j < i && remains(rs, p@, out, j) ==> !ranks_before(
                            p@,
                            rs[j].0,
                            rs[b as int].0,
                        ),
                    None => forall|j: int|
                        #![trigger rs[j]]
                        0 <= j < i ==> !remains(rs, p@, out, j),
                },
            decreases t@.len() - i,
        {
            let key = t[i].key.as_slice();
            let ghost here = rs[i as int];
            let mut left = starts_with(key, p);
            if left && r.len() > 0 {
                let last: usize = r[r.len() - 1];
                left = outranks(p, t[last].key.as_slice(), key);
                assert(out.last() == rs[last as int]);
            }
            assert(left == remains(rs, p@, out, i as int));
            if left {
                match best {
                    Some(b) => {
                        if outranks(p, key, t[b].key.as_slice()) {
                            proof {
                                assert forall|j: int|
                                    #![trigger rs[j]]
                                    0 <= j < i + 1 && remains(rs, p@, out, j) implies !ranks_before(
                                    p@,
                                    rs[j].0,
                                    rs[i as int].0,
                                ) by {
                                    if ranks_before(p@, rs[j].0, rs[i as int].0) {
                                        if j == i {
                                            lemma_rank_total(p@, here.0, here.0);
                                        } else {
                                            lemma_rank_transitive(
                                                p@,
                                                rs[j].0,
                                                rs[i as int].0,
                                                rs[b as int].0,
                                            );
                                        }
                                    }
                                }
                            }
                            best = Some(i);
                        }
                    },
                    None => {
                        proof {
                            lemma_rank_total(p@, here.0, here.0);
                        }
                        best = Some(i);
                    },
                }
            }
            i = i + 1;
        }
        match best {
            Some(b) => {
                proof {
                    lemma_next(rs, p@, out, b as int);
                    let next = out.push(rs[b as int]);
                    assert forall|k: int, l: int|
                        #![trigger next[k], next[l]]
                        0 <= k < l < next.len() implies ranks_before(p@, next[k].0, next[l].0) by {
                        if l == out.len() && k < out.len() - 1 {
                            assert(ranks_before(p@, out[k].0, out.last().0));
                            lemma_rank_transitive(p@, out[k].0, out.last().0, rs[b as int].0);
                        } else if l < out.len() {
                            assert(ranks_before(p@, out[k].0, out[l].0));
                        }
                    }
                    out = next;
                }
                r.push(b);
            },
            None => {
                break ;
            },
        }
    }
    proof {
        let chosen = Seq::new(r@.len(), |k: int| rows(t@)[r@[k] as int]);
        assert(chosen =~= out);
        assert forall|k: int| #![trigger out[k]] 0 <= k < out.len() implies rs.contains(out[k]) by {
            assert(out[k] == rs[r@[k] as int]);
        }
        assert forall|i: int| #![trigger rs[i]] 0 <= i < rs.len()
            && p@.is_prefix_of(rs[i].0) implies out.contains(
            rs[i],
        ) || (out.len() == max && forall|k: int|
            #![trigger out[k]]
            0 <= k < out.len() ==> ranks_before(p@, out[k].0, rs[i].0)) by {
            if !out.contains(rs[i]) {
                assert(remains(rs, p@, out, i));
                assert forall|k: int| #![trigger out[k]] 0 <= k < out.len() implies ranks_before(
                    p@,
                    out[k].0,
                    rs[i].0,
                ) by {
                    if k < out.len() - 1 {
                        assert(ranks_before(p@, out[k].0, out.last().0));
                        lemma_rank_transitive(p@, out[k].0, out.last().0, rs[i].0);
                    }
                }
            }
        }
    }
    r
}

/// What pairs of texts hold.
pub open spec fn pair_views(v: Seq<(String, String)>) -> Seq<(Seq<char>, Seq<char>)> {
    Seq::new(v.len(), |i: int| (v[i].0@, v[i].1@))
}

/// What to offer to who has typed the start of a shortcode: at most `max` shortcodes with their
/// emoji, the best first. Nothing is offered to who has typed nothing.
pub fn shortcode_matches(table: &EmojiTable, prefix: &str, max: usize) -> (r: Vec<(String, String)>)
    requires
        table.wf(),
    ensures
        if prefix@.len() == 0 {
            r@.len() == 0
        } else {
            is_best(table.codes(), prefix@, max as int, pair_views(r@))
        },
{
    let p = chars_of(prefix);
    let mut out: Vec<(String, String)> = Vec::new();
    if p.len() == 0 {
        return out;
    }
    let best = best_rows(table.decode.as_slice(), p.as_slice(), max);
    let ghost chosen = Seq::new(best@.len(), |k: int| table.codes()[best@[k] as int]);
    let mut i: usize = 0;
    while i < best.len()
        invariant
            i <= best@.len(),
            chosen == Seq::new(best@.len(), |k: int| table.codes()[best@[k] as int]),
            forall|k: int|
                #![trigger best@[k]]
                0 <= k < best@.len() ==> best@[k] < table.decode@.len(),
            pair_views(out@) =~= chosen.take(i as int),
        decreases best@.len() - i,
    {
        let row: usize = best[i];
        let ghost before = out@;
        let pair = (
            text_of_chars(table.decode[row].key.as_slice()),
            text_of_chars(table.decode[row].value.as_slice()),
        );
        out.push(pair);
        proof {
            assert(chosen[i as int] == table.codes()[row as int]);
            assert(pair_views(out@) =~= pair_views(before).push((pair.0@, pair.1@)));
            assert(chosen.take(i + 1) =~= chosen.take(i as int).push(chosen[i as int]));
        }
        i = i + 1;
    }
    assert(chosen.take(i as int) =~= chosen);
    out
}

// ---------------------------------------------------------------------------------------------
// Buffers.
// ---------------------------------------------------------------------------------------------
/// The last place at or before `n` where a character starts.
pub open spec fn boundary(b: Seq<u8>, n: int) -> int
    decreases n,
{
    if n > 0 && n < b.len() && is_continuation_byte(b[n]) {
        boundary(b, n - 1)
    } else {
        n
    }
}

/// What of a text is put into a buffer of `room` bytes: all, or what fits without splitting a
/// character.
pub open spec fn fitting(b: Seq<u8>, room: int) -> Seq<u8> {
    if b.len() <= room {
        b
    } else {
        b.take(boundary(b, room))
    }
}

proof fn lemma_boundary(b: Seq<u8>, n: int)
    requires
        0 <= n <= b.len(),
    ensures
        0 <= boundary(b, n) <= n,
        valid_utf8(b) && boundary(b, n) < b.len() ==> !is_continuation_byte(b[boundary(b, n)]),
    decreases n,
{
    if n > 0 && n < b.len() && is_continuation_byte(b[n]) {
        lemma_boundary(b, n - 1);
    }
}

proof fn lemma_cut(b: Seq<u8>, n: int)
    requires
        valid_utf8(b),
        0 <= n <= b.len(),
        n < b.len() ==> !is_continuation_byte(b[n]),
    ensures
        valid_utf8(b.take(n)),
    decreases b.len(),
{
    if n == b.len() {
        assert(b.take(n) =~= b);
    } else if n > 0 {
        let l = length_of_first_scalar(b);
        let rest = pop_first_scalar(b);
        let c = b.take(n);
        assert(l <= n);
        assert(rest.len() == b.len() - l);
        if n < b.len() {
            assert(rest[n - l] == b[n]);
        }
        lemma_cut(rest, n - l);
        assert(valid_first_scalar(c));
        assert(pop_first_scalar(c) =~= rest.take(n - l));
    }
}

/// A buffer that was too small holds whole characters.
pub proof fn fitting_is_text(b: Seq<u8>, room: nat)
    requires
        valid_utf8(b),
    ensures
        valid_utf8(fitting(b, room as int)),
        fitting(b, room as int).len() <= room,
        fitting(b, room as int).is_prefix_of(b),
{
    if b.len() > room {
        lemma_boundary(b, room as int);
        lemma_cut(b, boundary(b, room as int));
    }
}

/// Puts a text into a buffer and returns how many bytes it has. Where the buffer is too small, it
/// takes what fits without splitting a character.
pub fn emit(s: &str, dst: &mut [u8]) -> (r: usize)
    ensures
        r == encode_utf8(s@).len(),
        final(dst)@ == bytes::overwrite(
            old(dst)@,
            0,
            fitting(encode_utf8(s@), old(dst)@.len() as int),
        ),
{
    let b = s.as_bytes();
    let mut n: usize = b.len();
    if n > dst.len() {
        n = dst.len();
        proof {
            lemma_boundary(b@, n as int);
        }
        while n > 0 && b[n] >= 0x80 && b[n] < 0xc0
            invariant
                n <= dst@.len() < b@.len(),
                dst@ == old(dst)@,
                boundary(b@, n as int) == boundary(b@, dst@.len() as int),
            decreases n,
        {
            n = n - 1;
        }
    }
    let head = slice_subrange(b, 0, n);
    assert(head@ =~= fitting(b@, dst@.len() as int));
    copy_into(dst, 0, head);
    b.len()
}

/// Replaces emoji in a byte string by shortcodes, in a buffer, as [`emit`] does. The byte string is
/// taken for UTF-8; what is none of it is replaced first, by `String::from_utf8_lossy`.
pub fn emoji_to_shortcodes_into(table: &EmojiTable, input: &[u8], dst: &mut [u8]) -> (r: usize)
    requires
        table.wf(),
    ensures
        ({
            let b = encode_utf8(
                encoded(table.emoji(), table.max_chars as int, text::utf8_lossy(input@)),
            );
            &&& r == b.len()
            &&& final(dst)@ == bytes::overwrite(old(dst)@, 0, fitting(b, old(dst)@.len() as int))
        }),
{
    let s = emoji_to_shortcodes(table, lossy_text(input).as_str());
    emit(s.as_str(), dst)
}

/// Replaces shortcodes in a byte string by emoji, in a buffer, as [`emit`] does. The byte string is
/// taken for UTF-8; what is none of it is replaced first, by `String::from_utf8_lossy`.
pub fn shortcodes_to_emoji_into(table: &EmojiTable, input: &[u8], dst: &mut [u8]) -> (r: usize)
    requires
        table.wf(),
    ensures
        ({
            let b = encode_utf8(decoded(table.codes(), text::utf8_lossy(input@)));
            &&& r == b.len()
            &&& final(dst)@ == bytes::overwrite(old(dst)@, 0, fitting(b, old(dst)@.len() as int))
        }),
{
    let s = shortcodes_to_emoji(table, lossy_text(input).as_str());
    emit(s.as_str(), dst)
}

// ---------------------------------------------------------------------------------------------
// What every call does, row by row and character by character.
// ---------------------------------------------------------------------------------------------
/// The dictionary goes by the first character in which two words differ; a word stands before those
/// that go on where it ends.
pub proof fn first_difference_decides(a: Seq<char>, b: Seq<char>, p: int)
    requires
        0 <= p <= a.len(),
        p <= b.len(),
        a.take(p) == b.take(p),
    ensures
        p == a.len() && p < b.len() ==> comes_before(a, b),
        p < a.len() && p == b.len() ==> !comes_before(a, b),
        p == a.len() && p == b.len() ==> !comes_before(a, b),
        p < a.len() && p < b.len() && a[p] != b[p] ==> (comes_before(a, b) <==> a[p] < b[p]),
    decreases p,
{
    if p > 0 {
        assert(a[0] == a.take(p)[0] && b[0] == b.take(p)[0]);
        let x = a.drop_first();
        let y = b.drop_first();
        assert forall|k: int| 0 <= k < p - 1 implies x[k] == y[k] by {
            assert(a.take(p)[k + 1] == a[k + 1]);
            assert(b.take(p)[k + 1] == b[k + 1]);
        }
        assert(x.take(p - 1) =~= y.take(p - 1));
        first_difference_decides(x, y, p - 1);
    }
}

/// A table holds the rows that it is made of, in their order, and knows its longest emoji.
pub proof fn tables_hold_their_rows(
    encode: &[(&str, &str)],
    decode: &[(&str, &str)],
    table: EmojiTable,
    i: int,
)
    requires
        call_ensures(EmojiTable::new, (encode, decode), Some(table)),
    ensures
        table.encode@.len() == encode@.len(),
        table.decode@.len() == decode@.len(),
        0 <= i < encode@.len() ==> table.encode@[i].key@ == encode@[i].0@
            && table.encode@[i].value@ == encode@[i].1@ && encode@[i].0@.len() <= table.max_chars,
        0 <= i < decode@.len() ==> table.decode@[i].key@ == decode@[i].0@
            && table.decode@[i].value@ == decode@[i].1@,
        table.max_chars == 0 || exists|k: int|
            0 <= k < encode@.len() && (#[trigger] encode@[k]).0@.len() == table.max_chars,
{
    let t = table.emoji();
    let d = table.codes();
    assert(t.len() == text_rows(encode@).len());
    assert(d.len() == text_rows(decode@).len());
    if 0 <= i < encode@.len() {
        assert(t[i] == text_rows(encode@)[i]);
    }
    if 0 <= i < decode@.len() {
        assert(d[i] == text_rows(decode@)[i]);
    }
    if table.max_chars != 0 {
        let k = choose|k: int| #![trigger t[k]] 0 <= k < t.len() && t[k].0.len() == table.max_chars;
        assert(t[k] == text_rows(encode@)[k]);
        assert(encode@[k].0@.len() == table.max_chars);
    }
}

/// Where keys are in order and none is there twice, where every name has small letters, digits, `_`,
/// `+` and `-` only, and one of them at least, and where the shortcode of each emoji stands for that
/// emoji, a table is accepted.
pub proof fn good_tables_are_accepted(
    encode: &[(&str, &str)],
    decode: &[(&str, &str)],
    r: Option<EmojiTable>,
)
    requires
        call_ensures(EmojiTable::new, (encode, decode), r),
        forall|i: int, j: int|
            #![trigger encode@[i], encode@[j]]
            0 <= i < j < encode@.len() ==> comes_before(encode@[i].0@, encode@[j].0@),
        forall|i: int, j: int|
            #![trigger decode@[i], decode@[j]]
            0 <= i < j < decode@.len() ==> comes_before(decode@[i].0@, decode@[j].0@),
        forall|i: int|
            #![trigger decode@[i]]
            0 <= i < decode@.len() ==> decode@[i].0@.len() > 0 && forall|k: int|
                0 <= k < decode@[i].0@.len() ==> {
                    let c = #[trigger] decode@[i].0@[k];
                    ('a' <= c <= 'z') || ('0' <= c <= '9') || c == '_' || c == '+' || c == '-'
                },
        forall|i: int|
            #![trigger encode@[i]]
            0 <= i < encode@.len() ==> exists|j: int|
                #![trigger decode@[j]]
                0 <= j < decode@.len() && decode@[j].0@ == encode@[i].1@ && decode@[j].1@
                    == encode@[i].0@,
    ensures
        r is Some,
{
    let t = text_rows(encode@);
    let d = text_rows(decode@);
    lemma_text_order(encode@);
    lemma_text_order(decode@);
    assert forall|i: int| #![trigger decode@[i]] 0 <= i < decode@.len() implies is_shortcode(
        decode@[i].0@,
    ) by {
        let s = decode@[i].0@;
        assert forall|k: int| 0 <= k < s.len() implies shortcode_char(#[trigger] s[k]) by {
            assert(decode@[i].0@[k] == s[k]);
        }
    }
    assert forall|i: int| #![trigger t[i]] 0 <= i < t.len() implies is_shortcode(t[i].1) && lookup(
        d,
        t[i].1,
    ) == Some(t[i].0) by {
        let e = encode@[i];
        let j = choose|j: int|
            #![trigger decode@[j]]
            0 <= j < decode@.len() && decode@[j].0@ == e.1@ && decode@[j].1@ == e.0@;
        assert(d[j].0 == t[i].1);
        assert(is_shortcode(decode@[j].0@));
        row_decides(d, j);
    }
}

/// Of a table that is accepted, keys are in order and none is there twice, names have small letters,
/// digits, `_`, `+` and `-` only, and one of them at least, and the shortcode of each emoji stands
/// for that emoji.
pub proof fn accepted_tables_are_good(
    encode: &[(&str, &str)],
    decode: &[(&str, &str)],
    r: Option<EmojiTable>,
    i: int,
    j: int,
)
    requires
        call_ensures(EmojiTable::new, (encode, decode), r),
        r is Some,
    ensures
        0 <= i < j < encode@.len() ==> comes_before(encode@[i].0@, encode@[j].0@),
        0 <= i < j < decode@.len() ==> comes_before(decode@[i].0@, decode@[j].0@),
        0 <= i < decode@.len() ==> decode@[i].0@.len() > 0,
        0 <= i < decode@.len() && 0 <= j < decode@[i].0@.len() ==> {
            let c = decode@[i].0@[j];
            ('a' <= c <= 'z') || ('0' <= c <= '9') || c == '_' || c == '+' || c == '-'
        },
        0 <= i < encode@.len() ==> exists|k: int|
            #![trigger decode@[k]]
            0 <= k < decode@.len() && decode@[k].0@ == encode@[i].1@ && decode@[k].1@
                == encode@[i].0@,
{
    let t = text_rows(encode@);
    let d = text_rows(decode@);
    lemma_text_order(encode@);
    lemma_text_order(decode@);
    if 0 <= i < decode@.len() {
        let s = decode@[i].0@;
        assert(is_shortcode(s));
        if 0 <= j < s.len() {
            assert(shortcode_char(s[j]));
        }
    }
    if 0 <= i < encode@.len() {
        assert(lookup(d, t[i].1) == Some(t[i].0));
        let k = choose|k: int| #![trigger d[k]] 0 <= k < d.len() && d[k].0 == t[i].1;
        assert(d[k].1 == t[i].0);
        assert(decode@[k].0@ == encode@[i].1@);
    }
}

proof fn lemma_text_order(s: Seq<(&str, &str)>)
    ensures
        sorted(text_rows(s)) <==> forall|i: int, j: int|
            #![trigger s[i], s[j]]
            0 <= i < j < s.len() ==> comes_before(s[i].0@, s[j].0@),
{
    let t = text_rows(s);
    if sorted(t) {
        assert forall|i: int, j: int| #![trigger s[i], s[j]] 0 <= i < j
            < s.len() implies comes_before(s[i].0@, s[j].0@) by {
            assert(comes_before(t[i].0, t[j].0));
        }
    }
    if forall|i: int, j: int|
        #![trigger s[i], s[j]]
        0 <= i < j < s.len() ==> comes_before(s[i].0@, s[j].0@) {
        assert forall|i: int, j: int| #![trigger t[i], t[j]] 0 <= i < j
            < t.len() implies comes_before(t[i].0, t[j].0) by {
            assert(comes_before(s[i].0@, s[j].0@));
        }
    }
}

/// Where a text starts with an emoji of the table, the shortcode of that emoji, between colons, is
/// sent in its place, and behind it what the rest of the text gives. Where it starts with several,
/// the longest counts. Emoji start with a character that is not ASCII, or with one of a keycap: a
/// digit, `#` or `*`.
pub proof fn longest_emoji_is_encoded(
    table: &EmojiTable,
    input: &str,
    rest: &str,
    r: String,
    q: String,
    i: int,
)
    requires
        table.wf(),
        0 <= i < table.encode@.len(),
        table.encode@[i].key@.is_prefix_of(input@),
        table.encode@[i].key@.len() > 0,
        ({
            let c = table.encode@[i].key@[0];
            c >= '\u{80}' || c == '#' || c == '*' || ('0' <= c <= '9')
        }),
        forall|k: int|
            #![trigger table.encode@[k]]
            0 <= k < table.encode@.len() && table.encode@[k].key@.is_prefix_of(input@)
                ==> table.encode@[k].key@.len() <= table.encode@[i].key@.len(),
        rest@ == input@.skip(table.encode@[i].key@.len() as int),
        call_ensures(emoji_to_shortcodes, (table, input), r),
        call_ensures(emoji_to_shortcodes, (table, rest), q),
    ensures
        r@ == seq![':'] + table.encode@[i].value@ + seq![':'] + q@,
{
    let t = table.emoji();
    let s = input@;
    let max = table.max_chars as int;
    let key = table.encode@[i].key@;
    assert(t[i] == (key, table.encode@[i].value@));
    row_decides(t, i);
    assert(t[i].0.len() <= max);
    assert(s.take(key.len() as int) =~= key);
    assert(s[0] == key[0]);
    let most = if max < s.len() {
        max
    } else {
        s.len() as int
    };
    lemma_longest_match(t, s, most);
    let l = longest_match(t, s, most);
    assert(l >= key.len());
    if l > key.len() {
        let k = choose|k: int| #![trigger t[k]] 0 <= k < t.len() && t[k].0 == s.take(l);
        assert(t[k].0 == table.encode@[k].key@);
        assert(s.take(l).is_prefix_of(s));
        assert(table.encode@[k].key@.len() <= key.len());
    }
    assert(emoji_len(t, max, s) == key.len());
    assert(delimited(table.encode@[i].value@) + q@ =~= seq![':'] + table.encode@[i].value@ + seq![
        ':',
    ] + q@);
}

/// A character that starts no emoji of the table is sent as it is, and so is one of ASCII that is on
/// no keycap; behind it comes what the rest of the text gives. Nothing gives nothing.
pub proof fn other_characters_are_sent(
    table: &EmojiTable,
    input: &str,
    rest: &str,
    r: String,
    q: String,
)
    requires
        table.wf(),
        call_ensures(emoji_to_shortcodes, (table, input), r),
        call_ensures(emoji_to_shortcodes, (table, rest), q),
    ensures
        input@.len() == 0 ==> r@.len() == 0,
        input@.len() > 0 && rest@ == input@.skip(1) && (forall|k: int|
            #![trigger table.encode@[k]]
            0 <= k < table.encode@.len() && table.encode@[k].key@.is_prefix_of(input@)
                ==> table.encode@[k].key@.len() == 0) ==> r@ == seq![input@[0]] + q@,
        input@.len() > 0 && rest@ == input@.skip(1) && input@[0] < '\u{80}' && input@[0] != '#'
            && input@[0] != '*' && !('0' <= input@[0] <= '9') ==> r@ == seq![input@[0]] + q@,
{
    let t = table.emoji();
    let s = input@;
    let max = table.max_chars as int;
    if s.len() > 0 {
        lemma_emoji_len(t, max, s);
        let l = emoji_len(t, max, s);
        if l > 0 {
            let k = choose|k: int| #![trigger t[k]] 0 <= k < t.len() && t[k].0 == s.take(l);
            assert(t[k].0 == table.encode@[k].key@);
            assert(s.take(l).is_prefix_of(s));
            assert(table.encode@[k].key@.is_prefix_of(s));
        }
    }
}

/// A name of the table between colons is displayed as its emoji, and behind it what the rest of the
/// text gives.
pub proof fn known_names_are_decoded(
    table: &EmojiTable,
    input: &str,
    rest: &str,
    r: String,
    q: String,
    i: int,
)
    requires
        table.wf(),
        0 <= i < table.decode@.len(),
        input@ == seq![':'] + table.decode@[i].key@ + seq![':'] + rest@,
        call_ensures(shortcodes_to_emoji, (table, input), r),
        call_ensures(shortcodes_to_emoji, (table, rest), q),
    ensures
        r@ == table.decode@[i].value@ + q@,
{
    let t = table.codes();
    assert(t[i] == (table.decode@[i].key@, table.decode@[i].value@));
    row_decides(t, i);
    assert(is_shortcode(t[i].0));
    lemma_decode_token(t, t[i].0, t[i].1, rest@);
    assert(delimited(t[i].0) + rest@ =~= input@);
}

/// Any other character is displayed as it is, a colon too if no name of the table with a colon
/// behind it follows; behind it comes what the rest of the text gives. Nothing gives nothing.
pub proof fn other_characters_are_displayed(
    table: &EmojiTable,
    input: &str,
    rest: &str,
    r: String,
    q: String,
)
    requires
        table.wf(),
        call_ensures(shortcodes_to_emoji, (table, input), r),
        call_ensures(shortcodes_to_emoji, (table, rest), q),
    ensures
        input@.len() == 0 ==> r@.len() == 0,
        input@.len() > 0 && rest@ == input@.skip(1) && (input@[0] == ':' ==> forall|k: int|
            #![trigger table.decode@[k]]
            0 <= k < table.decode@.len() ==> !(seq![':'] + table.decode@[k].key@ + seq![
                ':',
            ]).is_prefix_of(input@)) ==> r@ == seq![input@[0]] + q@,
{
    let t = table.codes();
    let s = input@;
    if s.len() > 0 && rest@ == s.skip(1) {
        if s[0] == MIRC_COLOR {
            lemma_color_end(s);
            let m = color_end(s);
            let tail = s.skip(1);
            assert forall|x: int| 0 <= x < m - 1 implies #[trigger] tail[x] != ':' && tail[x]
                != MIRC_COLOR by {
                assert(s[x + 1] != ':');
            }
            lemma_pass(t, tail, m - 1);
            assert(tail.skip(m - 1) =~= s.skip(m));
            assert(seq![s[0]] + tail.take(m - 1) =~= s.take(m));
            assert(s.take(m) + decoded(t, s.skip(m)) =~= seq![s[0]] + (tail.take(m - 1) + decoded(
                t,
                s.skip(m),
            )));
        } else if token(t, s) is Some {
            let j = name_end(s, 1);
            lemma_name_end(s, 1);
            let name = s.subrange(1, j);
            let k = choose|k: int| #![trigger t[k]] 0 <= k < t.len() && t[k].0 == name;
            assert(t[k].0 == table.decode@[k].key@);
            assert((seq![':'] + name + seq![':']) =~= s.take(j + 1));
            assert(s.take(j + 1).is_prefix_of(s));
            assert((seq![':'] + table.decode@[k].key@ + seq![':']).is_prefix_of(s));
        }
    }
}

proof fn lemma_pass(t: Seq<(Seq<char>, Seq<char>)>, s: Seq<char>, m: int)
    requires
        0 <= m <= s.len(),
        forall|x: int| 0 <= x < m ==> #[trigger] s[x] != ':' && s[x] != MIRC_COLOR,
    ensures
        decoded(t, s) == s.take(m) + decoded(t, s.skip(m)),
    decreases m,
{
    if m == 0 {
        assert(s.skip(0) =~= s);
        assert(s.take(0) + decoded(t, s) =~= decoded(t, s));
    } else {
        let tail = s.skip(1);
        assert(s[0] != ':');
        assert forall|x: int| 0 <= x < m - 1 implies #[trigger] tail[x] != ':' && tail[x]
            != MIRC_COLOR by {
            assert(s[x + 1] != ':');
        }
        lemma_pass(t, tail, m - 1);
        assert(token(t, s) is None);
        assert(tail.skip(m - 1) =~= s.skip(m));
        assert(seq![s[0]] + (tail.take(m - 1) + decoded(t, s.skip(m))) =~= s.take(m) + decoded(
            t,
            s.skip(m),
        ));
    }
}

/// What is offered are rows of the table whose name starts with what was typed, `max` at most. What
/// was typed itself comes first, then shorter names, then names in the order of the dictionary.
/// Nothing is offered to who has typed nothing.
pub proof fn offers_are_in_order(
    table: &EmojiTable,
    prefix: &str,
    max: usize,
    r: Vec<(String, String)>,
    k: int,
    l: int,
)
    requires
        table.wf(),
        call_ensures(shortcode_matches, (table, prefix, max), r),
    ensures
        r@.len() <= max,
        prefix@.len() == 0 ==> r@.len() == 0,
        0 <= k < r@.len() ==> prefix@.is_prefix_of(r@[k].0@) && exists|i: int|
            0 <= i < table.decode@.len() && (#[trigger] table.decode@[i]).key@ == r@[k].0@
                && table.decode@[i].value@ == r@[k].1@,
        0 <= k < l < r@.len() ==> {
            let a = r@[k].0@;
            let b = r@[l].0@;
            a != b && b != prefix@ && (a == prefix@ || a.len() < b.len() || (a.len() == b.len()
                && comes_before(a, b)))
        },
{
    let t = table.codes();
    let out = pair_views(r@);
    if prefix@.len() > 0 {
        if 0 <= k < r@.len() {
            assert(out[k] == (r@[k].0@, r@[k].1@));
            assert(t.contains(out[k]));
            let i = choose|i: int| 0 <= i < t.len() && t[i] == out[k];
            assert(table.decode@[i].key@ == r@[k].0@);
        }
        if 0 <= k < l < r@.len() {
            assert(out[k] == (r@[k].0@, r@[k].1@));
            assert(out[l] == (r@[l].0@, r@[l].1@));
            assert(ranks_before(prefix@, out[k].0, out[l].0));
            lemma_irreflexive(out[k].0);
        }
    }
}

/// No row is kept back whose name starts with what was typed while there is room, and where there is
/// none, only rows that come behind all that are offered.
pub proof fn nothing_better_is_kept_back(
    table: &EmojiTable,
    prefix: &str,
    max: usize,
    r: Vec<(String, String)>,
    i: int,
    k: int,
)
    requires
        table.wf(),
        prefix@.len() > 0,
        call_ensures(shortcode_matches, (table, prefix, max), r),
        0 <= i < table.decode@.len(),
        prefix@.is_prefix_of(table.decode@[i].key@),
        forall|x: int| 0 <= x < r@.len() ==> (#[trigger] r@[x]).0@ != table.decode@[i].key@,
    ensures
        r@.len() == max,
        table.decode@[i].key@ == prefix@ ==> max == 0,
        0 <= k < r@.len() && r@[k].0@ != prefix@ ==> {
            let a = r@[k].0@;
            let b = table.decode@[i].key@;
            a.len() < b.len() || (a.len() == b.len() && comes_before(a, b))
        },
{
    let t = table.codes();
    let out = pair_views(r@);
    assert(t[i] == (table.decode@[i].key@, table.decode@[i].value@));
    if out.contains(t[i]) {
        let x = choose|x: int| 0 <= x < out.len() && out[x] == t[i];
        assert(r@[x].0@ == table.decode@[i].key@);
    }
    if t[i].0 == prefix@ && max > 0 {
        assert(ranks_before(prefix@, out[0].0, t[i].0));
        assert(r@[0].0@ == out[0].0);
    }
    if 0 <= k < r@.len() {
        assert(out[k] == (r@[k].0@, r@[k].1@));
        assert(ranks_before(prefix@, out[k].0, t[i].0));
    }
}

/// A buffer that is large enough gets the whole text. One that is not gets as many bytes as there is
/// room for, less those of a character that would be split. What lies behind stays, and how long the
/// text is is always said.
pub proof fn buffers_hold_whole_characters(s: &str, dst: &mut [u8], r: usize, n: int)
    requires
        call_ensures(emit, (s, dst), r),
        encode_utf8(s@).len() <= dst@.len() ==> n == encode_utf8(s@).len(),
        encode_utf8(s@).len() > dst@.len() ==> {
            &&& 0 <= n <= dst@.len()
            &&& n == 0 || !(0x80 <= encode_utf8(s@)[n] <= 0xbf)
            &&& forall|x: int| n < x <= dst@.len() ==> 0x80 <= #[trigger] encode_utf8(s@)[x] <= 0xbf
        },
    ensures
        r == encode_utf8(s@).len(),
        final(dst)@.len() == old(dst)@.len(),
        final(dst)@.take(n) == encode_utf8(s@).take(n),
        forall|x: int| n <= x < final(dst)@.len() ==> #[trigger] final(dst)@[x] == old(dst)@[x],
{
    let b = encode_utf8(s@);
    let room = old(dst)@.len() as int;
    if b.len() > room {
        lemma_boundary_at(b, n, room);
    } else {
        assert(b.take(b.len() as int) =~= b);
    }
    assert(fitting(b, room) =~= b.take(n));
}

proof fn lemma_boundary_at(b: Seq<u8>, n: int, m: int)
    requires
        0 <= n <= m < b.len(),
        n == 0 || !(0x80 <= b[n] <= 0xbf),
        forall|x: int| n < x <= m ==> 0x80 <= #[trigger] b[x] <= 0xbf,
    ensures
        boundary(b, m) == n,
    decreases m,
{
    if n < m {
        assert(0x80 <= b[m] <= 0xbf);
        lemma_boundary_at(b, n, m - 1);
    }
}

/// Bytes are taken for the text that they are read as, and what comes of that is put into the buffer
/// as [`emit`] puts it.
pub proof fn bytes_go_by_their_text(
    table: &EmojiTable,
    input: &[u8],
    seen: &str,
    out: String,
    text: &str,
    dst: &mut [u8],
    other: &mut [u8],
    r: usize,
    n: usize,
)
    requires
        table.wf(),
        text::utf8_lossy(input@) == seen@,
        text@ == out@,
        dst@ == other@,
        call_ensures(emit, (text, other), n),
        (call_ensures(emoji_to_shortcodes, (table, seen), out) && call_ensures(
            emoji_to_shortcodes_into,
            (table, input, dst),
            r,
        )) || (call_ensures(shortcodes_to_emoji, (table, seen), out) && call_ensures(
            shortcodes_to_emoji_into,
            (table, input, dst),
            r,
        )),
    ensures
        r == n,
        final(dst)@ == final(other)@,
{
}

/// What is to be offered is determined by the table and by what was typed.
pub proof fn offers_are_determined(
    t: Seq<(Seq<char>, Seq<char>)>,
    p: Seq<char>,
    max: int,
    a: Seq<(Seq<char>, Seq<char>)>,
    b: Seq<(Seq<char>, Seq<char>)>,
)
    requires
        is_best(t, p, max, a),
        is_best(t, p, max, b),
    ensures
        a == b,
{
    let n = if a.len() < b.len() {
        a.len() as int
    } else {
        b.len() as int
    };
    lemma_same_start(t, p, max, a, b, n);
    lemma_same_length(t, p, max, a, b);
    lemma_same_length(t, p, max, b, a);
    assert(a =~= b);
}

proof fn lemma_not_before(
    t: Seq<(Seq<char>, Seq<char>)>,
    p: Seq<char>,
    max: int,
    a: Seq<(Seq<char>, Seq<char>)>,
    b: Seq<(Seq<char>, Seq<char>)>,
    k: int,
)
    requires
        is_best(t, p, max, a),
        is_best(t, p, max, b),
        0 <= k < a.len(),
        k < b.len(),
        forall|j: int| 0 <= j < k ==> #[trigger] a[j] == b[j],
        a[k] != b[k],
    ensures
        ranks_before(p, b[k].0, a[k].0),
{
    assert(t.contains(a[k]));
    let i = choose|i: int| 0 <= i < t.len() && t[i] == a[k];
    assert(p.is_prefix_of(t[i].0));
    if b.contains(a[k]) {
        let l = choose|l: int| 0 <= l < b.len() && b[l] == a[k];
        if l < k {
            assert(a[l] == b[l]);
            assert(ranks_before(p, a[l].0, a[k].0));
            lemma_rank_total(p, a[k].0, a[k].0);
        }
        assert(l > k);
        assert(ranks_before(p, b[k].0, b[l].0));
    } else {
        assert(ranks_before(p, b[k].0, t[i].0));
    }
}

proof fn lemma_same_start(
    t: Seq<(Seq<char>, Seq<char>)>,
    p: Seq<char>,
    max: int,
    a: Seq<(Seq<char>, Seq<char>)>,
    b: Seq<(Seq<char>, Seq<char>)>,
    n: int,
)
    requires
        is_best(t, p, max, a),
        is_best(t, p, max, b),
        0 <= n <= a.len(),
        n <= b.len(),
    ensures
        forall|j: int| 0 <= j < n ==> #[trigger] a[j] == b[j],
    decreases n,
{
    if n > 0 {
        lemma_same_start(t, p, max, a, b, n - 1);
        let k = n - 1;
        if a[k] != b[k] {
            lemma_not_before(t, p, max, a, b, k);
            assert forall|j: int| 0 <= j < k implies #[trigger] b[j] == a[j] by {
                assert(a[j] == b[j]);
            }
            lemma_not_before(t, p, max, b, a, k);
            lemma_rank_transitive(p, a[k].0, b[k].0, a[k].0);
            lemma_rank_total(p, a[k].0, a[k].0);
        }
    }
}

proof fn lemma_same_length(
    t: Seq<(Seq<char>, Seq<char>)>,
    p: Seq<char>,
    max: int,
    a: Seq<(Seq<char>, Seq<char>)>,
    b: Seq<(Seq<char>, Seq<char>)>,
)
    requires
        is_best(t, p, max, a),
        is_best(t, p, max, b),
    ensures
        a.len() >= b.len(),
{
    if a.len() < b.len() {
        let n = a.len() as int;
        lemma_same_start(t, p, max, a, b, n);
        assert(t.contains(b[n]));
        let i = choose|i: int| 0 <= i < t.len() && t[i] == b[n];
        assert(p.is_prefix_of(t[i].0));
        if a.contains(t[i]) {
            let j = choose|j: int| 0 <= j < a.len() && a[j] == t[i];
            assert(a[j] == b[j]);
            assert(ranks_before(p, b[j].0, b[n].0));
            lemma_rank_total(p, b[n].0, b[n].0);
        }
    }
}

} // verus!
