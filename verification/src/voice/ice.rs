//! Minimal `RTCIceCandidateInit` JSON build and parse.
//!
//! The dictionary has four documented fields, all of them strings or small integers. The build
//! path emits the keys in a stable order (`candidate`, `sdpMid`, `sdpMLineIndex`,
//! `usernameFragment`). The parse path takes the members in any order and lets white space
//! surround every token; beyond that it accepts RFC 8259 input only.
pub mod roundtrip;

use crate::text;
use crate::text::{hex_digit_char, push_decimal, same_bytes, same_text, text_of};
use vstd::prelude::*;
use vstd::string::*;
use vstd::utf8::*;

verus! {

// ---------------------------------------------------------------------------------------------
// The grammar, as functions from a position in the text to what stands there and where it ends.
// ---------------------------------------------------------------------------------------------
/// JSON white space.
pub open spec fn is_ws(c: u8) -> bool {
    c == 0x20 || c == 0x09 || c == 0x0a || c == 0x0d
}

/// Where the white space that starts at `i` ends.
pub open spec fn ws_end(b: Seq<u8>, i: int) -> int
    decreases b.len() - i,
{
    if 0 <= i < b.len() && is_ws(b[i]) {
        ws_end(b, i + 1)
    } else {
        i
    }
}

/// The byte `c` stands at `i`.
pub open spec fn byte_at(b: Seq<u8>, i: int, c: u8) -> bool {
    0 <= i < b.len() && b[i] == c
}

/// A byte that ends a run of literal string content: the closing quote, a backslash or a control
/// byte.
pub open spec fn ends_literal(c: u8) -> bool {
    c == 0x22 || c == 0x5c || c < 0x20
}

/// Where the literal string content that starts at `i` ends.
pub open spec fn literal_end(b: Seq<u8>, i: int) -> int
    decreases b.len() - i,
{
    if 0 <= i < b.len() && !ends_literal(b[i]) {
        literal_end(b, i + 1)
    } else {
        i
    }
}

/// The value of a hexadecimal digit of either case.
pub open spec fn hex_value(c: u8) -> Option<u32> {
    if 0x30 <= c <= 0x39 {
        Some((c - 0x30) as u32)
    } else if 0x61 <= c <= 0x66 {
        Some((c - 0x61 + 10) as u32)
    } else if 0x41 <= c <= 0x46 {
        Some((c - 0x41 + 10) as u32)
    } else {
        None
    }
}

/// The number that the four hexadecimal digits at `i` spell.
pub open spec fn hex4_at(b: Seq<u8>, i: int) -> Option<u32> {
    if 0 <= i && i + 4 <= b.len() {
        match (hex_value(b[i]), hex_value(b[i + 1]), hex_value(b[i + 2]), hex_value(b[i + 3])) {
            (Some(h3), Some(h2), Some(h1), Some(h0)) => Some(
                (h3 * 4096 + h2 * 256 + h1 * 16 + h0) as u32,
            ),
            _ => None,
        }
    } else {
        None
    }
}

/// The character that a one-letter escape stands for.
pub open spec fn short_escape(c: u8) -> Option<char> {
    if c == 0x22 {
        Some('"')
    } else if c == 0x5c {
        Some('\\')
    } else if c == 0x2f {
        Some('/')
    } else if c == 0x6e {
        Some('\n')
    } else if c == 0x72 {
        Some('\r')
    } else if c == 0x74 {
        Some('\t')
    } else if c == 0x62 {
        Some('\u{08}')
    } else if c == 0x66 {
        Some('\u{0c}')
    } else {
        None
    }
}

/// The first half of a UTF-16 surrogate pair.
pub open spec fn is_high_surrogate(u: u32) -> bool {
    0xD800 <= u <= 0xDBFF
}

/// The second half of a UTF-16 surrogate pair.
pub open spec fn is_low_surrogate(u: u32) -> bool {
    0xDC00 <= u <= 0xDFFF
}

/// The character beyond the basic plane that a surrogate pair stands for.
pub open spec fn pair_scalar(high: u32, low: u32) -> u32 {
    (0x10000 + (high - 0xD800) * 0x400 + (low - 0xDC00)) as u32
}

/// The character that the escape sequence whose backslash stands at `i` denotes, and where the
/// sequence ends. A surrogate counts only as part of a pair.
pub open spec fn escape_at(b: Seq<u8>, i: int) -> Option<(char, int)> {
    if !(0 <= i && i + 1 < b.len()) {
        None
    } else if b[i + 1] == 0x75 {
        match hex4_at(b, i + 2) {
            None => None,
            Some(unit) => if is_high_surrogate(unit) {
                if byte_at(b, i + 6, 0x5c) && byte_at(b, i + 7, 0x75) {
                    match hex4_at(b, i + 8) {
                        Some(low) => if is_low_surrogate(low) {
                            Some((pair_scalar(unit, low) as char, i + 12))
                        } else {
                            None
                        },
                        None => None,
                    }
                } else {
                    None
                }
            } else if is_low_surrogate(unit) {
                None
            } else {
                Some((unit as char, i + 6))
            },
        }
    } else {
        match short_escape(b[i + 1]) {
            Some(c) => Some((c, i + 2)),
            None => None,
        }
    }
}

/// The text of the string whose content starts at `i` (behind the opening quote), and the
/// position behind the closing quote.
pub open spec fn string_body(b: Seq<u8>, i: int) -> Option<(Seq<char>, int)>
    decreases b.len() - i,
{
    let j = literal_end(b, i);
    if !(0 <= i <= j < b.len()) || b[j] < 0x20 || !valid_utf8(b.subrange(i, j)) {
        None
    } else if b[j] == 0x22 {
        Some((decode_utf8(b.subrange(i, j)), j + 1))
    } else {
        match escape_at(b, j) {
            None => None,
            Some((c, k)) => match string_body(b, k) {
                None => None,
                Some((tail, end)) => Some((decode_utf8(b.subrange(i, j)).push(c) + tail, end)),
            },
        }
    }
}

/// The text of the quoted string at `i`, and the position behind it.
pub open spec fn string_at(b: Seq<u8>, i: int) -> Option<(Seq<char>, int)> {
    if byte_at(b, i, 0x22) {
        string_body(b, i + 1)
    } else {
        None
    }
}

/// Where the decimal digits that start at `i` end.
pub open spec fn digits_end(b: Seq<u8>, i: int) -> int
    decreases b.len() - i,
{
    if 0 <= i < b.len() && text::is_digit(b[i]) {
        digits_end(b, i + 1)
    } else {
        i
    }
}

/// The unsigned integer at `i` (no leading zero, at most `u64::MAX`), and the position behind it.
pub open spec fn uint_at(b: Seq<u8>, i: int) -> Option<(u64, int)> {
    let j = digits_end(b, i);
    if !(0 <= i < j) || (j > i + 1 && b[i] == 0x30) || text::decimal(b.subrange(i, j)) > u64::MAX {
        None
    } else {
        Some((text::decimal(b.subrange(i, j)) as u64, j))
    }
}

/// Where one or more digits at `i` end.
pub open spec fn digits1_end(b: Seq<u8>, i: int) -> Option<int> {
    if 0 <= i < b.len() && text::is_digit(b[i]) {
        Some(digits_end(b, i))
    } else {
        None
    }
}

/// Where the integer part of a number ends: a single zero, or digits that start with another one.
pub open spec fn int_end(b: Seq<u8>, i: int) -> Option<int> {
    if byte_at(b, i, 0x30) {
        Some(i + 1)
    } else {
        digits1_end(b, i)
    }
}

/// Where the optional fraction of a number ends.
pub open spec fn frac_end(b: Seq<u8>, i: int) -> Option<int> {
    if byte_at(b, i, 0x2e) {
        digits1_end(b, i + 1)
    } else {
        Some(i)
    }
}

/// Where the optional exponent of a number ends.
pub open spec fn exp_end(b: Seq<u8>, i: int) -> Option<int> {
    if byte_at(b, i, 0x65) || byte_at(b, i, 0x45) {
        if byte_at(b, i + 1, 0x2b) || byte_at(b, i + 1, 0x2d) {
            digits1_end(b, i + 2)
        } else {
            digits1_end(b, i + 1)
        }
    } else {
        Some(i)
    }
}

/// Where the number at `i` ends: an optional minus, an integer, an optional fraction and an
/// optional exponent.
pub open spec fn number_end(b: Seq<u8>, i: int) -> Option<int> {
    let start = if byte_at(b, i, 0x2d) {
        i + 1
    } else {
        i
    };
    match int_end(b, start) {
        None => None,
        Some(j) => match frac_end(b, j) {
            None => None,
            Some(k) => exp_end(b, k),
        },
    }
}

/// Where the word `w` at `i` ends.
pub open spec fn word_end(b: Seq<u8>, i: int, w: Seq<u8>) -> Option<int> {
    if 0 <= i && i + w.len() <= b.len() && b.subrange(i, i + w.len()) == w {
        Some(i + w.len())
    } else {
        None
    }
}

/// `true`.
pub open spec fn word_true() -> Seq<u8> {
    seq![0x74u8, 0x72, 0x75, 0x65]
}

/// `false`.
pub open spec fn word_false() -> Seq<u8> {
    seq![0x66u8, 0x61, 0x6c, 0x73, 0x65]
}

/// `null`.
pub open spec fn word_null() -> Seq<u8> {
    seq![0x6eu8, 0x75, 0x6c, 0x6c]
}

/// Where the JSON value at `i` (behind optional white space) ends.
pub open spec fn value_end(b: Seq<u8>, i: int) -> Option<int>
    decreases b.len() - i, 1int,
{
    let k = ws_end(b, i);
    if !(0 <= i <= k < b.len()) {
        None
    } else if b[k] == 0x22 {
        match string_at(b, k) {
            Some((_, end)) => Some(end),
            None => None,
        }
    } else if b[k] == 0x7b {
        if byte_at(b, ws_end(b, k + 1), 0x7d) {
            Some(ws_end(b, k + 1) + 1)
        } else {
            members_end(b, k + 1)
        }
    } else if b[k] == 0x5b {
        if byte_at(b, ws_end(b, k + 1), 0x5d) {
            Some(ws_end(b, k + 1) + 1)
        } else {
            elements_end(b, k + 1)
        }
    } else if b[k] == 0x74 {
        word_end(b, k, word_true())
    } else if b[k] == 0x66 {
        word_end(b, k, word_false())
    } else if b[k] == 0x6e {
        word_end(b, k, word_null())
    } else {
        number_end(b, k)
    }
}

/// Where the members of an object that start at `i` end, the closing brace included: each is a
/// string, a colon and a value, and a comma stands between two of them.
pub open spec fn members_end(b: Seq<u8>, i: int) -> Option<int>
    decreases b.len() - i, 2int,
{
    match string_at(b, ws_end(b, i)) {
        None => None,
        Some((_, p)) => {
            let q = ws_end(b, p);
            if !(i < q && byte_at(b, q, 0x3a)) {
                None
            } else {
                match value_end(b, q + 1) {
                    None => None,
                    Some(r) => {
                        let t = ws_end(b, r);
                        if i <= t && byte_at(b, t, 0x2c) {
                            members_end(b, t + 1)
                        } else if byte_at(b, t, 0x7d) {
                            Some(t + 1)
                        } else {
                            None
                        }
                    },
                }
            }
        },
    }
}

/// Where the elements of an array that start at `i` end, the closing bracket included.
pub open spec fn elements_end(b: Seq<u8>, i: int) -> Option<int>
    decreases b.len() - i, 2int,
{
    match value_end(b, i) {
        None => None,
        Some(r) => {
            let t = ws_end(b, r);
            if i <= t && byte_at(b, t, 0x2c) {
                elements_end(b, t + 1)
            } else if byte_at(b, t, 0x5d) {
                Some(t + 1)
            } else {
                None
            }
        },
    }
}

// ---------------------------------------------------------------------------------------------
// How far each rule reaches.
// ---------------------------------------------------------------------------------------------
proof fn lemma_ws_end(b: Seq<u8>, i: int)
    requires
        0 <= i <= b.len(),
    ensures
        i <= ws_end(b, i) <= b.len(),
        ws_end(b, i) < b.len() ==> !is_ws(b[ws_end(b, i)]),
    decreases b.len() - i,
{
    if i < b.len() && is_ws(b[i]) {
        lemma_ws_end(b, i + 1);
    }
}

proof fn lemma_literal_end(b: Seq<u8>, i: int)
    requires
        0 <= i <= b.len(),
    ensures
        i <= literal_end(b, i) <= b.len(),
        literal_end(b, i) < b.len() ==> ends_literal(b[literal_end(b, i)]),
        forall|k: int| i <= k < literal_end(b, i) ==> !ends_literal(#[trigger] b[k]),
    decreases b.len() - i,
{
    if i < b.len() && !ends_literal(b[i]) {
        lemma_literal_end(b, i + 1);
    }
}

proof fn lemma_digits_end(b: Seq<u8>, i: int)
    requires
        0 <= i <= b.len(),
    ensures
        i <= digits_end(b, i) <= b.len(),
        forall|k: int| i <= k < digits_end(b, i) ==> text::is_digit(#[trigger] b[k]),
        digits_end(b, i) < b.len() ==> !text::is_digit(b[digits_end(b, i)]),
    decreases b.len() - i,
{
    if i < b.len() && text::is_digit(b[i]) {
        lemma_digits_end(b, i + 1);
    }
}

proof fn lemma_string_at(b: Seq<u8>, i: int)
    requires
        0 <= i <= b.len(),
    ensures
        string_at(b, i) matches Some((_, end)) ==> i + 2 <= end <= b.len(),
{
    if byte_at(b, i, 0x22) {
        lemma_string_body(b, i + 1);
    }
}

proof fn lemma_string_body(b: Seq<u8>, i: int)
    requires
        0 <= i <= b.len(),
    ensures
        string_body(b, i) matches Some((_, end)) ==> i < end <= b.len(),
    decreases b.len() - i,
{
    lemma_literal_end(b, i);
    let j = literal_end(b, i);
    if j < b.len() {
        if let Some((c, k)) = escape_at(b, j) {
            if k <= b.len() {
                lemma_string_body(b, k);
            }
        }
    }
}

proof fn lemma_number_end(b: Seq<u8>, i: int)
    requires
        0 <= i <= b.len(),
    ensures
        number_end(b, i) matches Some(end) ==> i < end <= b.len(),
{
    let start = if byte_at(b, i, 0x2d) {
        i + 1
    } else {
        i
    };
    lemma_digits_end(b, start);
    if let Some(j) = int_end(b, start) {
        if j < b.len() {
            lemma_digits_end(b, j + 1);
        }
        if let Some(k) = frac_end(b, j) {
            if k < b.len() {
                lemma_digits_end(b, k + 1);
            }
            if k + 1 < b.len() {
                lemma_digits_end(b, k + 2);
            }
        }
    }
}

proof fn lemma_value_end(b: Seq<u8>, i: int)
    requires
        0 <= i <= b.len(),
    ensures
        value_end(b, i) matches Some(end) ==> i < end <= b.len(),
    decreases b.len() - i, 1int,
{
    lemma_ws_end(b, i);
    let k = ws_end(b, i);
    if k < b.len() {
        lemma_string_at(b, k);
        lemma_number_end(b, k);
        lemma_ws_end(b, k + 1);
        if b[k] == 0x7b {
            lemma_members_end(b, k + 1);
        } else if b[k] == 0x5b {
            lemma_elements_end(b, k + 1);
        }
    }
}

proof fn lemma_members_end(b: Seq<u8>, i: int)
    requires
        0 <= i <= b.len(),
    ensures
        members_end(b, i) matches Some(end) ==> i < end <= b.len(),
    decreases b.len() - i, 2int,
{
    lemma_ws_end(b, i);
    lemma_string_at(b, ws_end(b, i));
    if let Some((_, p)) = string_at(b, ws_end(b, i)) {
        lemma_ws_end(b, p);
        let q = ws_end(b, p);
        if byte_at(b, q, 0x3a) {
            lemma_value_end(b, q + 1);
            if let Some(r) = value_end(b, q + 1) {
                lemma_ws_end(b, r);
                let t = ws_end(b, r);
                if t < b.len() {
                    lemma_members_end(b, t + 1);
                }
            }
        }
    }
}

proof fn lemma_elements_end(b: Seq<u8>, i: int)
    requires
        0 <= i <= b.len(),
    ensures
        elements_end(b, i) matches Some(end) ==> i < end <= b.len(),
    decreases b.len() - i, 2int,
{
    lemma_value_end(b, i);
    if let Some(r) = value_end(b, i) {
        lemma_ws_end(b, r);
        let t = ws_end(b, r);
        if t < b.len() {
            lemma_elements_end(b, t + 1);
        }
    }
}

// ---------------------------------------------------------------------------------------------
// The parser.
// ---------------------------------------------------------------------------------------------
/// The value of a hexadecimal digit.
fn hex_digit(h: u8) -> (r: Option<u32>)
    ensures
        r == hex_value(h),
        r matches Some(v) ==> v < 16,
{
    if 0x30 <= h && h <= 0x39 {
        Some((h - 0x30) as u32)
    } else if 0x61 <= h && h <= 0x66 {
        Some((h - 0x61 + 10) as u32)
    } else if 0x41 <= h && h <= 0x46 {
        Some((h - 0x41 + 10) as u32)
    } else {
        None
    }
}

/// A cursor over JSON text.
struct Parser<'a> {
    buf: &'a [u8],
    pos: usize,
}

/// `r` with `head` in front of its text.
spec fn prefixed(head: Seq<char>, r: Option<(Seq<char>, int)>) -> Option<(Seq<char>, int)> {
    match r {
        Some((tail, end)) => Some((head + tail, end)),
        None => None,
    }
}

impl<'a> Parser<'a> {
    spec fn wf(&self) -> bool {
        self.pos <= self.buf@.len()
    }

    /// The cursor still runs over the same text.
    spec fn moved_from(&self, before: &Self) -> bool {
        self.buf@ == before.buf@ && self.wf()
    }

    /// The cursor stands at `end` of the same text when the rule applied, and `ok` says so.
    spec fn stepped(&self, before: &Self, ok: bool, end: Option<int>) -> bool {
        &&& self.moved_from(before)
        &&& ok == (end is Some)
        &&& end matches Some(e) ==> self.pos == e
    }

    fn new(buf: &'a [u8]) -> (p: Self)
        ensures
            p.wf(),
            p.buf@ == buf@,
            p.pos == 0,
    {
        Parser { buf, pos: 0 }
    }

    fn peek(&self) -> (r: Option<u8>)
        requires
            self.wf(),
        ensures
            r == (if self.pos < self.buf@.len() {
                Some(self.buf@[self.pos as int])
            } else {
                None::<u8>
            }),
            r is Some ==> self.pos < usize::MAX,
    {
        if self.pos < self.buf.len() {
            Some(self.buf[self.pos])
        } else {
            None
        }
    }

    fn next(&mut self) -> (r: Option<u8>)
        requires
            old(self).wf(),
        ensures
            final(self).moved_from(old(self)),
            match r {
                Some(b) => byte_at(old(self).buf@, old(self).pos as int, b) && final(self).pos
                    == old(self).pos + 1,
                None => old(self).pos == old(self).buf@.len() && final(self).pos == old(self).pos,
            },
    {
        if self.pos < self.buf.len() {
            let b = self.buf[self.pos];
            self.pos = self.pos + 1;
            Some(b)
        } else {
            None
        }
    }

    fn skip_ws(&mut self)
        requires
            old(self).wf(),
        ensures
            final(self).moved_from(old(self)),
            final(self).pos == ws_end(old(self).buf@, old(self).pos as int),
    {
        while self.pos < self.buf.len() && (self.buf[self.pos] == 0x20 || self.buf[self.pos] == 0x09
            || self.buf[self.pos] == 0x0a || self.buf[self.pos] == 0x0d)
            invariant
                self.moved_from(old(self)),
                ws_end(self.buf@, self.pos as int) == ws_end(
                    old(self).buf@,
                    old(self).pos as int,
                ),
            decreases self.buf@.len() - self.pos,
        {
            self.pos = self.pos + 1;
        }
    }

    /// Consumes exactly four hexadecimal digits and returns the code unit they spell.
    fn parse_hex4(&mut self) -> (r: Option<u32>)
        requires
            old(self).wf(),
        ensures
            final(self).moved_from(old(self)),
            r == hex4_at(old(self).buf@, old(self).pos as int),
            r is Some ==> final(self).pos == old(self).pos + 4,
    {
        if self.buf.len() - self.pos < 4 {
            return None;
        }
        let at: usize = self.pos;
        let digits = (
            hex_digit(self.buf[at]),
            hex_digit(self.buf[at + 1]),
            hex_digit(self.buf[at + 2]),
            hex_digit(self.buf[at + 3]),
        );
        match digits {
            (Some(h3), Some(h2), Some(h1), Some(h0)) => {
                self.pos = at + 4;
                Some(h3 * 4096 + h2 * 256 + h1 * 16 + h0)
            },
            _ => None,
        }
    }

    /// Consumes the escape sequence whose backslash stands at the cursor.
    fn parse_escape(&mut self) -> (r: Option<char>)
        requires
            old(self).wf(),
            byte_at(old(self).buf@, old(self).pos as int, 0x5c),
        ensures
            final(self).moved_from(old(self)),
            match escape_at(old(self).buf@, old(self).pos as int) {
                Some((c, end)) => r == Some(c) && final(self).pos == end,
                None => r is None,
            },
    {
        let _ = self.next();
        let esc = match self.next() {
            Some(b) => b,
            None => return None,
        };
        if esc == 0x22 {
            Some('"')
        } else if esc == 0x5c {
            Some('\\')
        } else if esc == 0x2f {
            Some('/')
        } else if esc == 0x6e {
            Some('\n')
        } else if esc == 0x72 {
            Some('\r')
        } else if esc == 0x74 {
            Some('\t')
        } else if esc == 0x62 {
            Some('\u{08}')
        } else if esc == 0x66 {
            Some('\u{0c}')
        } else if esc == 0x75 {
            let unit: u32 = match self.parse_hex4() {
                Some(u) => u,
                None => return None,
            };
            let cp: u32 = if 0xD800 <= unit && unit <= 0xDBFF {
                // A high surrogate only stands in front of an escaped low one.
                match self.next() {
                    Some(b) => {
                        if b != 0x5c {
                            return None;
                        }
                    },
                    None => return None,
                }
                match self.next() {
                    Some(b) => {
                        if b != 0x75 {
                            return None;
                        }
                    },
                    None => return None,
                }
                let low: u32 = match self.parse_hex4() {
                    Some(u) => u,
                    None => return None,
                };
                if !(0xDC00 <= low && low <= 0xDFFF) {
                    return None;
                }
                0x10000 + (unit - 0xD800) * 0x400 + (low - 0xDC00)
            } else if 0xDC00 <= unit && unit <= 0xDFFF {
                return None;
            } else {
                unit
            };
            char::from_u32(cp)
        } else {
            None
        }
    }

    fn parse_string(&mut self) -> (r: Option<String>)
        requires
            old(self).wf(),
        ensures
            final(self).moved_from(old(self)),
            match string_at(old(self).buf@, old(self).pos as int) {
                Some((text, end)) => r is Some && r.unwrap()@ == text && final(self).pos == end,
                None => r is None,
            },
    {
        let ghost b = self.buf@;
        match self.next() {
            Some(c) => {
                if c != 0x22 {
                    return None;
                }
            },
            None => return None,
        }
        // Literal bytes are collected up to the next escape or the closing quote and decoded in
        // one go, so that a character of several bytes stays whole.
        let mut s = String::new();
        let mut lit_start: usize = self.pos;
        let ghost body = self.pos as int;
        assert(prefixed(s@, string_body(b, body)) == string_body(b, body)) by {
            if let Some((tail, end)) = string_body(b, body) {
                assert(s@ + tail =~= tail);
            }
        }
        while self.pos < self.buf.len()
            invariant
                self.moved_from(old(self)),
                b == old(self).buf@,
                byte_at(b, old(self).pos as int, 0x22),
                body == old(self).pos + 1,
                lit_start <= self.pos,
                string_body(b, body) == prefixed(s@, string_body(b, lit_start as int)),
                literal_end(b, lit_start as int) == literal_end(b, self.pos as int),
            decreases b.len() - self.pos,
        {
            let c: u8 = self.buf[self.pos];
            if c == 0x22 || c == 0x5c {
                let run = vstd::slice::slice_subrange(self.buf, lit_start, self.pos);
                match text_of(run) {
                    Some(t) => {
                        let ghost before = s@;
                        s.append(t);
                        assert(s@ == before + decode_utf8(
                            b.subrange(lit_start as int, self.pos as int),
                        ));
                    },
                    None => return None,
                }
                if c == 0x22 {
                    self.pos = self.pos + 1;
                    return Some(s);
                }
                let ghost at = self.pos as int;
                let ghost head = s@;
                let ch = match self.parse_escape() {
                    Some(ch) => ch,
                    None => return None,
                };
                s.push(ch);
                proof {
                    let start = lit_start as int;
                    let run = decode_utf8(b.subrange(start, at));
                    if let Some((tail, end)) = string_body(b, self.pos as int) {
                        let before = head.subrange(0, head.len() - run.len());
                        assert(head =~= before + run);
                        assert(before + (run.push(ch) + tail) =~= s@ + tail);
                    }
                }
                lit_start = self.pos;
            } else if c < 0x20 {
                return None;
            } else {
                self.pos = self.pos + 1;
            }
        }
        None
    }

    fn parse_uint(&mut self) -> (r: Option<u64>)
        requires
            old(self).wf(),
        ensures
            final(self).moved_from(old(self)),
            match uint_at(old(self).buf@, old(self).pos as int) {
                Some((n, end)) => r == Some(n) && final(self).pos == end,
                None => r is None,
            },
    {
        let ghost b = self.buf@;
        let start: usize = self.pos;
        self.skip_digits();
        proof {
            lemma_digits_end(b, start as int);
        }
        if self.pos == start {
            return None;
        }
        if self.pos - start > 1 && self.buf[start] == 0x30 {
            return None;
        }
        let mut acc: u64 = 0;
        let mut k: usize = start;
        assert(b.subrange(start as int, start as int) =~= Seq::<u8>::empty());
        while k < self.pos
            invariant
                self.moved_from(old(self)),
                b == old(self).buf@,
                start == old(self).pos,
                start <= k <= self.pos,
                start < self.pos,
                self.pos == digits_end(b, start as int),
                forall|m: int| start <= m < self.pos ==> text::is_digit(#[trigger] b[m]),
                acc == text::decimal(b.subrange(start as int, k as int)),
                !(self.pos > start + 1 && b[start as int] == 0x30),
            decreases self.pos - k,
        {
            let d: u64 = (self.buf[k] - 0x30) as u64;
            proof {
                let next = b.subrange(start as int, k + 1);
                assert(next.drop_last() =~= b.subrange(start as int, k as int));
                assert(text::decimal(next) == acc * 10 + d);
                text::lemma_decimal_grows(b, start as int, k + 1, self.pos as int);
            }
            let scaled: u64 = match acc.checked_mul(10) {
                Some(v) => v,
                None => return None,
            };
            acc = match scaled.checked_add(d) {
                Some(v) => v,
                None => return None,
            };
            k = k + 1;
        }
        Some(acc)
    }

    /// Consumes decimal digits.
    fn skip_digits(&mut self)
        requires
            old(self).wf(),
        ensures
            final(self).moved_from(old(self)),
            final(self).pos == digits_end(old(self).buf@, old(self).pos as int),
    {
        while self.pos < self.buf.len() && 0x30 <= self.buf[self.pos] && self.buf[self.pos] <= 0x39
            invariant
                self.moved_from(old(self)),
                digits_end(self.buf@, self.pos as int) == digits_end(
                    old(self).buf@,
                    old(self).pos as int,
                ),
            decreases self.buf@.len() - self.pos,
        {
            self.pos = self.pos + 1;
        }
    }

    /// Consumes one or more decimal digits.
    fn skip_digits1(&mut self) -> (r: Option<()>)
        requires
            old(self).wf(),
        ensures
            final(self).stepped(
                old(self),
                r is Some,
                digits1_end(old(self).buf@, old(self).pos as int),
            ),
    {
        match self.peek() {
            Some(c) => {
                if !(0x30 <= c && c <= 0x39) {
                    return None;
                }
            },
            None => return None,
        }
        self.skip_digits();
        Some(())
    }

    /// Skips a JSON number. Its value is of no interest, but a malformed one must still fail the
    /// whole text.
    fn skip_number(&mut self) -> (r: Option<()>)
        requires
            old(self).wf(),
        ensures
            final(self).stepped(
                old(self),
                r is Some,
                number_end(old(self).buf@, old(self).pos as int),
            ),
    {
        if self.peek() == Some(0x2du8) {
            self.pos = self.pos + 1;
        }
        if self.peek() == Some(0x30u8) {
            self.pos = self.pos + 1;
        } else {
            self.skip_digits1()?;
        }
        if self.peek() == Some(0x2eu8) {
            self.pos = self.pos + 1;
            self.skip_digits1()?;
        }
        if self.peek() == Some(0x65u8) || self.peek() == Some(0x45u8) {
            self.pos = self.pos + 1;
            if self.peek() == Some(0x2bu8) || self.peek() == Some(0x2du8) {
                self.pos = self.pos + 1;
            }
            self.skip_digits1()?;
        }
        Some(())
    }

    /// Consumes the word `lit`.
    fn consume_lit(&mut self, lit: &[u8]) -> (r: Option<()>)
        requires
            old(self).wf(),
        ensures
            final(self).stepped(
                old(self),
                r is Some,
                word_end(old(self).buf@, old(self).pos as int, lit@),
            ),
    {
        if lit.len() > self.buf.len() - self.pos {
            return None;
        }
        let found = vstd::slice::slice_subrange(self.buf, self.pos, self.pos + lit.len());
        if !same_bytes(found, lit) {
            return None;
        }
        self.pos = self.pos + lit.len();
        Some(())
    }

    /// Skips a JSON value, with the white space in front of it.
    fn skip_value(&mut self) -> (r: Option<()>)
        requires
            old(self).wf(),
        ensures
            final(self).stepped(
                old(self),
                r is Some,
                value_end(old(self).buf@, old(self).pos as int),
            ),
        decreases old(self).buf@.len() - old(self).pos, 1int,
    {
        proof {
            lemma_ws_end(self.buf@, self.pos as int);
        }
        self.skip_ws();
        let c: u8 = self.peek()?;
        if c == 0x22 {
            self.parse_string()?;
            Some(())
        } else if c == 0x7b {
            self.skip_object()
        } else if c == 0x5b {
            self.skip_array()
        } else if c == 0x74 {
            let word: [u8; 4] = [0x74, 0x72, 0x75, 0x65];
            assert(word@ =~= word_true());
            self.consume_lit(&word)
        } else if c == 0x66 {
            let word: [u8; 5] = [0x66, 0x61, 0x6c, 0x73, 0x65];
            assert(word@ =~= word_false());
            self.consume_lit(&word)
        } else if c == 0x6e {
            let word: [u8; 4] = [0x6e, 0x75, 0x6c, 0x6c];
            assert(word@ =~= word_null());
            self.consume_lit(&word)
        } else {
            self.skip_number()
        }
    }

    /// Skips the JSON object that starts at the cursor.
    fn skip_object(&mut self) -> (r: Option<()>)
        requires
            old(self).wf(),
            byte_at(old(self).buf@, old(self).pos as int, 0x7b),
        ensures
            final(self).stepped(old(self), r is Some, ({
                let b = old(self).buf@;
                let inner = old(self).pos + 1;
                if byte_at(b, ws_end(b, inner), 0x7d) {
                    Some(ws_end(b, inner) + 1)
                } else {
                    members_end(b, inner)
                }
            })),
        decreases old(self).buf@.len() - old(self).pos, 0int,
    {
        let ghost b = self.buf@;
        let ghost inner = self.pos + 1;
        let _ = self.next();
        proof {
            lemma_ws_end(b, inner);
            lemma_ws_end_twice(b, inner);
        }
        self.skip_ws();
        if self.peek() == Some(0x7du8) {
            self.pos = self.pos + 1;
            return Some(());
        }
        loop
            invariant
                self.moved_from(old(self)),
                b == old(self).buf@,
                inner == old(self).pos + 1,
                inner <= self.pos,
                !byte_at(b, ws_end(b, inner), 0x7d),
                members_end(b, inner) == members_end(b, self.pos as int),
            decreases b.len() - self.pos,
        {
            let ghost at = self.pos as int;
            proof {
                lemma_ws_end(b, at);
                lemma_string_at(b, ws_end(b, at));
            }
            self.skip_ws();
            self.parse_string()?;
            proof {
                lemma_ws_end(b, self.pos as int);
            }
            self.skip_ws();
            if self.next()? != 0x3a {
                return None;
            }
            proof {
                lemma_value_end(b, self.pos as int);
            }
            self.skip_value()?;
            proof {
                lemma_ws_end(b, self.pos as int);
            }
            self.skip_ws();
            let c: u8 = self.next()?;
            if c == 0x2c {
                continue ;
            }
            if c == 0x7d {
                return Some(());
            }
            return None;
        }
    }

    /// Skips the JSON array that starts at the cursor.
    fn skip_array(&mut self) -> (r: Option<()>)
        requires
            old(self).wf(),
            byte_at(old(self).buf@, old(self).pos as int, 0x5b),
        ensures
            final(self).stepped(old(self), r is Some, ({
                let b = old(self).buf@;
                let inner = old(self).pos + 1;
                if byte_at(b, ws_end(b, inner), 0x5d) {
                    Some(ws_end(b, inner) + 1)
                } else {
                    elements_end(b, inner)
                }
            })),
        decreases old(self).buf@.len() - old(self).pos, 0int,
    {
        let ghost b = self.buf@;
        let ghost inner = self.pos + 1;
        let _ = self.next();
        proof {
            lemma_ws_end(b, inner);
            lemma_ws_end_twice(b, inner);
        }
        self.skip_ws();
        if self.peek() == Some(0x5du8) {
            self.pos = self.pos + 1;
            return Some(());
        }
        loop
            invariant
                self.moved_from(old(self)),
                b == old(self).buf@,
                inner == old(self).pos + 1,
                inner <= self.pos,
                !byte_at(b, ws_end(b, inner), 0x5d),
                elements_end(b, inner) == elements_end(b, self.pos as int),
            decreases b.len() - self.pos,
        {
            proof {
                lemma_value_end(b, self.pos as int);
            }
            self.skip_value()?;
            proof {
                lemma_ws_end(b, self.pos as int);
            }
            self.skip_ws();
            let c: u8 = self.next()?;
            if c == 0x2c {
                continue ;
            }
            if c == 0x5d {
                return Some(());
            }
            return None;
        }
    }
}

/// Behind white space there is no more of it: rules that skip it start as well there.
proof fn lemma_ws_end_twice(b: Seq<u8>, i: int)
    requires
        0 <= i <= b.len(),
    ensures
        ws_end(b, ws_end(b, i)) == ws_end(b, i),
        value_end(b, ws_end(b, i)) == value_end(b, i),
        members_end(b, ws_end(b, i)) == members_end(b, i),
        elements_end(b, ws_end(b, i)) == elements_end(b, i),
{
    lemma_ws_end(b, i);
    let k = ws_end(b, i);
    assert(ws_end(b, k) == k);
    if let Some((_, p)) = string_at(b, k) {
        lemma_string_at(b, k);
        lemma_ws_end(b, p);
        let q = ws_end(b, p);
        if byte_at(b, q, 0x3a) {
            lemma_value_end(b, q + 1);
            if let Some(r) = value_end(b, q + 1) {
                lemma_ws_end(b, r);
            }
        }
    }
    lemma_value_end(b, i);
    if let Some(r) = value_end(b, i) {
        lemma_ws_end(b, r);
        lemma_value_end(b, k);
    }
}

// ---------------------------------------------------------------------------------------------
// The candidate.
// ---------------------------------------------------------------------------------------------
/// A parsed `RTCIceCandidateInit` dictionary.
///
/// On a value that [`parse`] returns, `candidate` and `sdp_mid` are always `Some`. [`build`] also
/// takes partial candidates.
#[derive(Debug, Clone, PartialEq, Eq)]
pub struct IceCandidate {
    pub candidate: Option<String>,
    pub sdp_mid: Option<String>,
    pub sdp_mline_index: Option<u32>,
    pub username_fragment: Option<String>,
}

/// What an [`IceCandidate`] holds.
#[verifier::ext_equal]
pub struct IceView {
    pub candidate: Option<Seq<char>>,
    pub sdp_mid: Option<Seq<char>>,
    pub sdp_mline_index: Option<u32>,
    pub username_fragment: Option<Seq<char>>,
}

/// The characters of an optional string.
pub open spec fn text_view(s: Option<String>) -> Option<Seq<char>> {
    match s {
        Some(t) => Some(t@),
        None => None,
    }
}

impl View for IceCandidate {
    type V = IceView;

    open spec fn view(&self) -> IceView {
        IceView {
            candidate: text_view(self.candidate),
            sdp_mid: text_view(self.sdp_mid),
            sdp_mline_index: self.sdp_mline_index,
            username_fragment: text_view(self.username_fragment),
        }
    }
}

/// The candidate of which nothing is known.
pub open spec fn empty_view() -> IceView {
    IceView { candidate: None, sdp_mid: None, sdp_mline_index: None, username_fragment: None }
}

impl Default for IceCandidate {
    fn default() -> (c: Self)
        ensures
            c@ == empty_view(),
    {
        IceCandidate {
            candidate: None,
            sdp_mid: None,
            sdp_mline_index: None,
            username_fragment: None,
        }
    }
}

impl IceCandidate {
    /// True for the end-of-candidates marker: an empty `candidate` string.
    pub fn is_end_of_candidates(&self) -> (r: bool)
        ensures
            r == (self@.candidate == Some(Seq::<char>::empty())),
    {
        match &self.candidate {
            Some(s) => {
                assert(s@.len() == 0 ==> s@ =~= Seq::<char>::empty());
                s.as_str().is_empty()
            },
            None => false,
        }
    }
}

/// The candidate `acc` after the value at `v` was read for `key`, and the position behind that
/// value. A known key takes a string or an integer that fits 32 bits; any other key takes any
/// value, which is dropped.
pub open spec fn field_at(b: Seq<u8>, v: int, key: Seq<char>, acc: IceView) -> Option<
    (IceView, int),
> {
    if key == "candidate"@ {
        match string_at(b, v) {
            Some((t, end)) => Some((IceView { candidate: Some(t), ..acc }, end)),
            None => None,
        }
    } else if key == "sdpMid"@ {
        match string_at(b, v) {
            Some((t, end)) => Some((IceView { sdp_mid: Some(t), ..acc }, end)),
            None => None,
        }
    } else if key == "sdpMLineIndex"@ {
        match uint_at(b, v) {
            Some((n, end)) => if n <= u32::MAX {
                Some((IceView { sdp_mline_index: Some(n as u32), ..acc }, end))
            } else {
                None
            },
            None => None,
        }
    } else if key == "usernameFragment"@ {
        match string_at(b, v) {
            Some((t, end)) => Some((IceView { username_fragment: Some(t), ..acc }, end)),
            None => None,
        }
    } else {
        match value_end(b, v) {
            Some(end) => Some((acc, end)),
            None => None,
        }
    }
}

/// The candidate `acc` after the member at `i`, and the position behind that member.
pub open spec fn member_at(b: Seq<u8>, i: int, acc: IceView) -> Option<(IceView, int)> {
    match string_at(b, ws_end(b, i)) {
        None => None,
        Some((key, p)) => if byte_at(b, ws_end(b, p), 0x3a) {
            field_at(b, ws_end(b, ws_end(b, p) + 1), key, acc)
        } else {
            None
        },
    }
}

/// The candidate `acc` after the members that start at `i`, and the position behind the closing
/// brace. Of two members with one key the later one counts.
pub open spec fn candidate_members(b: Seq<u8>, i: int, acc: IceView) -> Option<(IceView, int)>
    decreases b.len() - i,
{
    match member_at(b, i, acc) {
        None => None,
        Some((next, r)) => {
            let t = ws_end(b, r);
            if i <= t && byte_at(b, t, 0x2c) {
                candidate_members(b, t + 1, next)
            } else if byte_at(b, t, 0x7d) {
                Some((next, t + 1))
            } else {
                None
            }
        },
    }
}

/// The candidate that a JSON text describes: one object that names at least `candidate` and
/// `sdpMid`, with nothing but white space around it.
pub open spec fn parsed(b: Seq<u8>) -> Option<IceView> {
    let k = ws_end(b, 0);
    if !byte_at(b, k, 0x7b) || byte_at(b, ws_end(b, k + 1), 0x7d) {
        None
    } else {
        match candidate_members(b, k + 1, empty_view()) {
            None => None,
            Some((c, end)) => if ws_end(b, end) == b.len() && c.candidate is Some
                && c.sdp_mid is Some {
                Some(c)
            } else {
                None
            },
        }
    }
}

proof fn lemma_member_at(b: Seq<u8>, i: int, acc: IceView)
    requires
        0 <= i <= b.len(),
    ensures
        member_at(b, i, acc) matches Some((_, end)) ==> i < end <= b.len(),
        member_at(b, ws_end(b, i), acc) == member_at(b, i, acc),
{
    lemma_ws_end(b, i);
    lemma_ws_end_twice(b, i);
    lemma_string_at(b, ws_end(b, i));
    if let Some((key, p)) = string_at(b, ws_end(b, i)) {
        lemma_ws_end(b, p);
        if byte_at(b, ws_end(b, p), 0x3a) {
            let v = ws_end(b, ws_end(b, p) + 1);
            lemma_ws_end(b, ws_end(b, p) + 1);
            lemma_string_at(b, v);
            lemma_digits_end(b, v);
            lemma_value_end(b, v);
        }
    }
}

proof fn lemma_candidate_members(b: Seq<u8>, i: int, acc: IceView)
    requires
        0 <= i <= b.len(),
    ensures
        candidate_members(b, ws_end(b, i), acc) == candidate_members(b, i, acc),
{
    lemma_ws_end(b, i);
    lemma_member_at(b, i, acc);
    lemma_member_at(b, ws_end(b, i), acc);
    if let Some((next, r)) = member_at(b, i, acc) {
        lemma_ws_end(b, r);
    }
}

proof fn lemma_uint_is_number(b: Seq<u8>, v: int)
    requires
        0 <= v <= b.len(),
    ensures
        uint_at(b, v) matches Some((_, end)) ==> (!byte_at(b, end, 0x2e) && !byte_at(b, end, 0x65)
            && !byte_at(b, end, 0x45) ==> number_end(b, v) == Some(end)) && v < end <= b.len()
            && text::is_digit(b[v]),
{
    lemma_digits_end(b, v);
    if v + 1 <= b.len() {
        lemma_digits_end(b, v + 1);
    }
}

/// The members that are read are members of an object.
proof fn lemma_members_are_json(b: Seq<u8>, i: int, acc: IceView)
    requires
        0 <= i <= b.len(),
    ensures
        candidate_members(b, i, acc) matches Some((_, end)) ==> members_end(b, i) == Some(end),
    decreases b.len() - i,
{
    lemma_ws_end(b, i);
    lemma_string_at(b, ws_end(b, i));
    if let Some((key, p)) = string_at(b, ws_end(b, i)) {
        lemma_ws_end(b, p);
        let q = ws_end(b, p);
        if byte_at(b, q, 0x3a) {
            lemma_ws_end(b, q + 1);
            lemma_ws_end_twice(b, q + 1);
            let v = ws_end(b, q + 1);
            lemma_string_at(b, v);
            lemma_uint_is_number(b, v);
            lemma_value_end(b, v);
            if let Some((next, r)) = field_at(b, v, key, acc) {
                lemma_ws_end(b, r);
                let t = ws_end(b, r);
                if byte_at(b, t, 0x2c) || byte_at(b, t, 0x7d) {
                    assert(!byte_at(b, r, 0x2e) && !byte_at(b, r, 0x65) && !byte_at(b, r, 0x45));
                    assert(value_end(b, q + 1) == Some(r));
                }
                if byte_at(b, t, 0x2c) {
                    lemma_members_are_json(b, t + 1, next);
                }
            }
        }
    }
}

/// What is accepted is one complete JSON object: nothing but white space stands around it, and its
/// braces close where the text ends.
pub proof fn accepted_is_one_object(b: Seq<u8>)
    requires
        parsed(b) is Some,
    ensures
        byte_at(b, ws_end(b, 0), 0x7b),
        value_end(b, 0) matches Some(end) && ws_end(b, end) == b.len(),
{
    lemma_ws_end(b, 0);
    lemma_members_are_json(b, ws_end(b, 0) + 1, empty_view());
}

impl<'a> Parser<'a> {
    /// Reads one member of the top-level object into `out`.
    fn parse_member(&mut self, out: &mut IceCandidate) -> (r: Option<()>)
        requires
            old(self).wf(),
        ensures
            final(self).moved_from(old(self)),
            match member_at(old(self).buf@, old(self).pos as int, old(out)@) {
                Some((c, end)) => r is Some && final(out)@ == c && final(self).pos == end,
                None => r is None,
            },
    {
        let ghost b = self.buf@;
        proof {
            lemma_ws_end(b, self.pos as int);
            lemma_string_at(b, ws_end(b, self.pos as int));
        }
        self.skip_ws();
        let key = self.parse_string()?;
        proof {
            lemma_ws_end(b, self.pos as int);
        }
        self.skip_ws();
        if self.next()? != 0x3a {
            return None;
        }
        proof {
            lemma_ws_end(b, self.pos as int);
        }
        self.skip_ws();
        if same_text(key.as_str(), "candidate") {
            out.candidate = Some(self.parse_string()?);
        } else if same_text(key.as_str(), "sdpMid") {
            out.sdp_mid = Some(self.parse_string()?);
        } else if same_text(key.as_str(), "sdpMLineIndex") {
            let n: u64 = self.parse_uint()?;
            if n > u32::MAX as u64 {
                return None;
            }
            out.sdp_mline_index = Some(n as u32);
        } else if same_text(key.as_str(), "usernameFragment") {
            out.username_fragment = Some(self.parse_string()?);
        } else {
            // An unknown key is left to later extensions of the dictionary.
            self.skip_value()?;
        }
        Some(())
    }
}

/// Parses the JSON payload of a voice ICE field.
///
/// Returns `None` if the input is no JSON object, if `candidate` or `sdpMid` is missing, or if
/// any value breaks the JSON grammar.
pub fn parse(json: &[u8]) -> (r: Option<IceCandidate>)
    ensures
        match r {
            Some(c) => parsed(json@) == Some(c@),
            None => parsed(json@) is None,
        },
{
    let mut p = Parser::new(json);
    let ghost b = json@;
    proof {
        lemma_ws_end(b, 0);
    }
    p.skip_ws();
    if p.next()? != 0x7b {
        return None;
    }
    let ghost inner = p.pos as int;
    proof {
        lemma_ws_end(b, inner);
        lemma_ws_end_twice(b, inner);
        lemma_candidate_members(b, inner, empty_view());
    }
    p.skip_ws();
    let mut out = IceCandidate::default();
    if p.peek() == Some(0x7du8) {
        // Without members both required keys are missing.
        return None;
    }
    loop
        invariant_except_break
            p.wf(),
            p.buf@ == b,
            b == json@,
            candidate_members(b, p.pos as int, out@) == candidate_members(b, inner, empty_view()),
            byte_at(b, ws_end(b, 0), 0x7b),
            inner == ws_end(b, 0) + 1,
            !byte_at(b, ws_end(b, inner), 0x7d),
        ensures
            p.wf(),
            p.buf@ == b,
            candidate_members(b, inner, empty_view()) == Some((out@, p.pos as int)),
        decreases b.len() - p.pos,
    {
        let ghost at = p.pos as int;
        let ghost acc = out@;
        proof {
            lemma_member_at(b, at, acc);
        }
        p.parse_member(&mut out)?;
        proof {
            lemma_ws_end(b, p.pos as int);
        }
        p.skip_ws();
        let c: u8 = p.next()?;
        if c == 0x2c {
            continue ;
        }
        if c == 0x7d {
            break ;
        }
        return None;
    }
    proof {
        lemma_ws_end(b, p.pos as int);
    }
    p.skip_ws();
    if p.peek().is_some() {
        return None;
    }
    if out.candidate.is_none() || out.sdp_mid.is_none() {
        return None;
    }
    Some(out)
}

// ---------------------------------------------------------------------------------------------
// Building.
// ---------------------------------------------------------------------------------------------
/// One character of a JSON string, escaped where JSON asks for it.
pub open spec fn escaped_char(c: char) -> Seq<char> {
    if c == '"' {
        seq!['\\', '"']
    } else if c == '\\' {
        seq!['\\', '\\']
    } else if c == '\n' {
        seq!['\\', 'n']
    } else if c == '\r' {
        seq!['\\', 'r']
    } else if c == '\t' {
        seq!['\\', 't']
    } else if (c as u32) < 0x20 {
        seq![
            '\\',
            'u',
            '0',
            '0',
            text::hex_char((c as u32 / 16) as nat),
            text::hex_char((c as u32 % 16) as nat),
        ]
    } else {
        seq![c]
    }
}

/// The content of a JSON string that stands for `t`.
pub open spec fn escaped(t: Seq<char>) -> Seq<char>
    decreases t.len(),
{
    if t.len() == 0 {
        seq![]
    } else {
        escaped_char(t[0]) + escaped(t.drop_first())
    }
}

/// A member whose value is a string.
pub open spec fn string_field(key: Seq<char>, value: Seq<char>) -> Seq<char> {
    seq!['"'] + key + seq!['"', ':', '"'] + escaped(value) + seq!['"']
}

/// A member whose value is a number.
pub open spec fn number_field(key: Seq<char>, value: u32) -> Seq<char> {
    seq!['"'] + key + seq!['"', ':'] + text::decimal_text(value as nat)
}

/// The member for an optional string, if there is one.
pub open spec fn opt_field(key: Seq<char>, value: Option<Seq<char>>) -> Seq<Seq<char>> {
    match value {
        Some(t) => seq![string_field(key, t)],
        None => seq![],
    }
}

/// The members of a candidate, in their fixed order.
pub open spec fn fields(c: IceView) -> Seq<Seq<char>> {
    opt_field("candidate"@, c.candidate) + opt_field("sdpMid"@, c.sdp_mid) + (
    match c.sdp_mline_index {
        Some(n) => seq![number_field("sdpMLineIndex"@, n)],
        None => seq![],
    }) + opt_field("usernameFragment"@, c.username_fragment)
}

/// Texts with a comma between each two.
pub open spec fn joined(fs: Seq<Seq<char>>) -> Seq<char>
    decreases fs.len(),
{
    if fs.len() == 0 {
        seq![]
    } else if fs.len() == 1 {
        fs[0]
    } else {
        joined(fs.drop_last()).push(',') + fs.last()
    }
}

/// The JSON text of a candidate.
pub open spec fn json_text(c: IceView) -> Seq<char> {
    seq!['{'] + joined(fields(c)) + seq!['}']
}

proof fn lemma_escaped_push(t: Seq<char>, c: char)
    ensures
        escaped(t.push(c)) == escaped(t) + escaped_char(c),
    decreases t.len(),
{
    if t.len() == 0 {
        assert(t.push(c).drop_first() =~= t);
        assert(escaped(t.push(c)) =~= escaped(t) + escaped_char(c));
    } else {
        assert(t.push(c).drop_first() =~= t.drop_first().push(c));
        lemma_escaped_push(t.drop_first(), c);
        assert(escaped(t.push(c)) =~= escaped(t) + escaped_char(c));
    }
}

/// Appends `value`, escaped.
fn escape_into(value: &str, s: &mut String)
    ensures
        final(s)@ == old(s)@ + escaped(value@),
{
    assert(s@ + escaped(value@.take(0)) =~= s@);
    for c in it: value.chars()
        invariant
            it.seq() == value@,
            s@ == old(s)@ + escaped(value@.take(it.index())),
    {
        let ghost before = s@;
        let ghost n = it.index();
        proof {
            assert(value@.take(n + 1) =~= value@.take(n).push(c));
            lemma_escaped_push(value@.take(n), c);
        }
        if c == '"' {
            s.push('\\');
            s.push('"');
        } else if c == '\\' {
            s.push('\\');
            s.push('\\');
        } else if c == '\n' {
            s.push('\\');
            s.push('n');
        } else if c == '\r' {
            s.push('\\');
            s.push('r');
        } else if c == '\t' {
            s.push('\\');
            s.push('t');
        } else if (c as u32) < 0x20 {
            s.push('\\');
            s.push('u');
            s.push('0');
            s.push('0');
            s.push(hex_digit_char((c as u32 / 16) as u8));
            s.push(hex_digit_char((c as u32 % 16) as u8));
        } else {
            s.push(c);
        }
        assert(s@ =~= before + escaped_char(c));
        assert(before + escaped_char(c) =~= old(s)@ + (escaped(value@.take(n)) + escaped_char(c)));
    }
    assert(value@.take(value@.len() as int) =~= value@);
}

/// Appends a comma unless this is the first member.
fn push_separator(s: &mut String, first: &mut bool)
    ensures
        final(s)@ == (if *old(first) {
            old(s)@
        } else {
            old(s)@.push(',')
        }),
        !*final(first),
{
    if *first {
        *first = false;
    } else {
        s.push(',');
    }
}

/// Appends a member whose value is a string.
fn push_string_field(s: &mut String, first: &mut bool, key: &str, value: &str)
    ensures
        final(s)@ == (if *old(first) {
            old(s)@
        } else {
            old(s)@.push(',')
        }) + string_field(key@, value@),
        !*final(first),
{
    push_separator(s, first);
    let ghost before = s@;
    s.push('"');
    s.append(key);
    s.push('"');
    s.push(':');
    s.push('"');
    escape_into(value, s);
    s.push('"');
    assert(s@ =~= before + string_field(key@, value@));
}

proof fn lemma_joined_push(fs: Seq<Seq<char>>, f: Seq<char>)
    ensures
        joined(fs.push(f)) == (if fs.len() == 0 {
            joined(fs)
        } else {
            joined(fs).push(',')
        }) + f,
{
    assert(fs.push(f).drop_last() =~= fs);
    if fs.len() == 0 {
        assert(joined(fs) + f =~= f);
    }
}

/// What `build` has written once `fs` are out.
spec fn build_state(s: Seq<char>, first: bool, fs: Seq<Seq<char>>) -> bool {
    s == seq!['{'] + joined(fs) && first == (fs.len() == 0)
}

proof fn lemma_build_step(s: Seq<char>, first: bool, fs: Seq<Seq<char>>, f: Seq<char>)
    requires
        build_state(s, first, fs),
    ensures
        build_state(
            (if first {
                s
            } else {
                s.push(',')
            }) + f,
            false,
            fs.push(f),
        ),
{
    lemma_joined_push(fs, f);
    if first {
        assert(joined(fs) =~= Seq::<char>::empty());
        assert(s + f =~= seq!['{'] + (joined(fs) + f));
    } else {
        assert(s.push(',') + f =~= seq!['{'] + (joined(fs).push(',') + f));
    }
}

/// Builds the JSON for an outgoing ICE candidate.
///
/// `candidate` is the SDP candidate attribute; an empty one is the end-of-candidates marker.
pub fn build(c: &IceCandidate) -> (r: String)
    ensures
        r@ == json_text(c@),
{
    let mut s = String::new();
    s.push('{');
    let mut first = true;
    let ghost mut fs: Seq<Seq<char>> = seq![];
    assert(s@ =~= seq!['{'] + joined(fs));
    if let Some(v) = &c.candidate {
        proof {
            lemma_build_step(s@, first, fs, string_field("candidate"@, v@));
            fs = fs.push(string_field("candidate"@, v@));
        }
        push_string_field(&mut s, &mut first, "candidate", v.as_str());
    }
    assert(fs =~= opt_field("candidate"@, c@.candidate));
    if let Some(v) = &c.sdp_mid {
        proof {
            lemma_build_step(s@, first, fs, string_field("sdpMid"@, v@));
            fs = fs.push(string_field("sdpMid"@, v@));
        }
        push_string_field(&mut s, &mut first, "sdpMid", v.as_str());
    }
    assert(fs =~= opt_field("candidate"@, c@.candidate) + opt_field("sdpMid"@, c@.sdp_mid));
    if let Some(n) = c.sdp_mline_index {
        proof {
            lemma_build_step(s@, first, fs, number_field("sdpMLineIndex"@, n));
            fs = fs.push(number_field("sdpMLineIndex"@, n));
        }
        push_separator(&mut s, &mut first);
        let ghost before = s@;
        s.push('"');
        s.append("sdpMLineIndex");
        s.push('"');
        s.push(':');
        push_decimal(&mut s, n as u64);
        assert(s@ =~= before + number_field("sdpMLineIndex"@, n));
    }
    if let Some(v) = &c.username_fragment {
        proof {
            lemma_build_step(s@, first, fs, string_field("usernameFragment"@, v@));
            fs = fs.push(string_field("usernameFragment"@, v@));
        }
        push_string_field(&mut s, &mut first, "usernameFragment", v.as_str());
    }
    assert(fs =~= fields(c@));
    s.push('}');
    assert(s@ =~= json_text(c@));
    s
}

} // verus!
