//! Reading back what `build` wrote gives the same candidate.
use crate::text;
use crate::voice::ice;
use crate::voice::ice::IceView;
use vstd::prelude::*;
use vstd::string::*;
use vstd::utf8::*;

verus! {

/// The piece `p` stands at `i`.
spec fn occurs(b: Seq<u8>, i: int, p: Seq<u8>) -> bool {
    0 <= i && i + p.len() <= b.len() && b.subrange(i, i + p.len()) == p
}

proof fn lemma_occurs_split(b: Seq<u8>, i: int, p: Seq<u8>, q: Seq<u8>)
    requires
        occurs(b, i, p + q),
    ensures
        occurs(b, i, p),
        occurs(b, i + p.len(), q),
{
    let s = b.subrange(i, i + (p + q).len());
    assert(b.subrange(i, i + p.len()) =~= s.subrange(0, p.len() as int));
    assert(s.subrange(0, p.len() as int) =~= p);
    assert(b.subrange(i + p.len(), i + p.len() + q.len()) =~= s.subrange(
        p.len() as int,
        s.len() as int,
    ));
    assert(s.subrange(p.len() as int, s.len() as int) =~= q);
}

proof fn lemma_occurs_index(b: Seq<u8>, i: int, p: Seq<u8>)
    requires
        occurs(b, i, p),
    ensures
        forall|k: int| 0 <= k < p.len() ==> b[i + k] == #[trigger] p[k],
{
    assert forall|k: int| 0 <= k < p.len() implies b[i + k] == #[trigger] p[k] by {
        assert(b.subrange(i, i + p.len())[k] == b[i + k]);
    }
}

/// The bytes of one character.
proof fn lemma_encode_one(c: char)
    ensures
        encode_utf8(seq![c]) == encode_scalar(c as u32),
        valid_first_scalar(encode_scalar(c as u32)),
        length_of_first_scalar(encode_scalar(c as u32)) == encode_scalar(c as u32).len(),
        decode_first_scalar(encode_scalar(c as u32)) == c as u32,
        (c as u32) < 0x80 ==> encode_scalar(c as u32) =~= seq![c as u8],
        (c as u32) >= 0x80 ==> forall|k: int|
            0 <= k < encode_scalar(c as u32).len() ==> #[trigger] encode_scalar(c as u32)[k]
                >= 0x80,
{
    assert(seq![c].drop_first() =~= Seq::<char>::empty());
    assert(encode_utf8(seq![c].drop_first()) =~= Seq::<u8>::empty());
    assert(encode_utf8(seq![c]) =~= encode_scalar(seq![c][0] as u32));
    encode_utf8_first_scalar(seq![c]);
    if (c as u32) < 0x80 {
        assert(is_ascii_chars(seq![c]));
        is_ascii_chars_encode_utf8(seq![c]);
        assert(seq![c][0] as u8 == encode_utf8(seq![c])[0]);
    }
}

/// A character that needs no escape adds itself to the string.
proof fn lemma_literal_step(b: Seq<u8>, i: int, c: char)
    requires
        occurs(b, i, encode_scalar(c as u32)),
        c as u32 >= 0x20,
        c != '"',
        c != '\\',
    ensures
        ice::string_body(b, i) == ice::prefixed(
            seq![c],
            ice::string_body(b, i + encode_scalar(c as u32).len()),
        ),
{
    let e = encode_scalar(c as u32);
    let w = e.len() as int;
    lemma_encode_one(c);
    lemma_occurs_index(b, i, e);
    assert forall|k: int| 0 <= k < w implies !ice::ends_literal(#[trigger] b[i + k]) by {
        assert(b[i + k] == e[k]);
    }
    assert(ice::literal_end(b, i) == ice::literal_end(b, i + w)) by {
        reveal_with_fuel(ice::literal_end, 5);
        assert(!ice::ends_literal(b[i + 0]));
        if w > 1 {
            assert(!ice::ends_literal(b[i + 1]));
        }
        if w > 2 {
            assert(!ice::ends_literal(b[i + 2]));
        }
        if w > 3 {
            assert(!ice::ends_literal(b[i + 3]));
        }
    }
    ice::lemma_literal_end(b, i + w);
    let j = ice::literal_end(b, i);
    if j < b.len() {
        let run = b.subrange(i, j);
        let rest = b.subrange(i + w, j);
        assert forall|k: int| 0 <= k < w implies run[k] == #[trigger] e[k] by {
            assert(b[i + k] == e[k]);
        }
        assert(e[0] == run[0]);
        assert(valid_first_scalar(run));
        assert(length_of_first_scalar(run) == w);
        assert(decode_first_scalar(run) == c as u32);
        assert(pop_first_scalar(run) =~= rest);
        assert(valid_utf8(run) == valid_utf8(rest));
        if valid_utf8(rest) {
            char_u32_cast(c, c as u32);
            assert(decode_utf8(run) =~= seq![c] + decode_utf8(rest));
            if b[j] == 0x22 {
            } else if let Some((x, k)) = ice::escape_at(b, j) {
                if let Some((tail, end)) = ice::string_body(b, k) {
                    assert(decode_utf8(run).push(x) + tail =~= seq![c] + (decode_utf8(rest).push(x)
                        + tail));
                }
            }
        }
    }
}

/// The bytes of text in the ASCII range.
proof fn lemma_encode_ascii(t: Seq<char>, e: Seq<u8>)
    requires
        is_ascii_chars(t),
        e.len() == t.len(),
        forall|k: int| 0 <= k < t.len() ==> e[k] == #[trigger] t[k] as u8,
    ensures
        encode_utf8(t) == e,
{
    is_ascii_chars_encode_utf8(t);
    assert forall|k: int| 0 <= k < t.len() implies encode_utf8(t)[k] == e[k] by {
        assert(t[k] as u8 == encode_utf8(t)[k]);
    }
    assert(encode_utf8(t) =~= e);
}

/// The parser undoes one escape.
proof fn lemma_escape_step(b: Seq<u8>, i: int, c: char)
    requires
        occurs(b, i, encode_utf8(ice::escaped_char(c))),
        (c as u32) < 0x20 || c == '"' || c == '\\',
    ensures
        ice::byte_at(b, i, 0x5c),
        ice::escape_at(b, i) == Some((c, i + encode_utf8(ice::escaped_char(c)).len())),
{
    let t = ice::escaped_char(c);
    let n = c as u32;
    let high = (n / 16) as nat;
    let low = (n % 16) as nat;
    assert(is_ascii_chars(t));
    let e = Seq::new(t.len(), |k: int| t[k] as u8);
    lemma_encode_ascii(t, e);
    lemma_occurs_index(b, i, e);
    assert(e[0] == 0x5c && b[i + 0] == e[0]);
    assert(b[i + 1] == e[1]);
    if c == '"' || c == '\\' || c == '\n' || c == '\r' || c == '\t' {
    } else {
        assert(t.len() == 6);
        assert(b[i + 2] == e[2] && b[i + 3] == e[3] && b[i + 4] == e[4] && b[i + 5] == e[5]);
        assert(e[1] == 0x75 && e[2] == 0x30 && e[3] == 0x30);
        assert(ice::hex_value(e[4]) == Some(high as u32));
        assert(ice::hex_value(e[5]) == Some(low as u32));
        assert(ice::hex4_at(b, i + 2) == Some(n));
    }
}

/// The parser reads back the content of a string that was escaped.
proof fn lemma_string_body_of_escaped(b: Seq<u8>, i: int, t: Seq<char>)
    requires
        occurs(b, i, encode_utf8(ice::escaped(t)) + seq![0x22u8]),
    ensures
        ice::string_body(b, i) == Some((t, i + encode_utf8(ice::escaped(t)).len() + 1)),
    decreases t.len(),
{
    if t.len() == 0 {
        assert(encode_utf8(ice::escaped(t)) + seq![0x22u8] =~= seq![0x22u8]);
        lemma_occurs_index(b, i, seq![0x22u8]);
        assert(b[i + 0] == seq![0x22u8][0]);
        assert(ice::literal_end(b, i) == i);
        assert(b.subrange(i, i) =~= Seq::<u8>::empty());
        assert(decode_utf8(b.subrange(i, i)) =~= t);
    } else {
        let c = t[0];
        let head = ice::escaped_char(c);
        let rest = ice::escaped(t.drop_first());
        text::lemma_encode_concat(head, rest);
        assert(encode_utf8(ice::escaped(t)) + seq![0x22u8] =~= encode_utf8(head) + (encode_utf8(
            rest,
        ) + seq![0x22u8]));
        lemma_occurs_split(b, i, encode_utf8(head), encode_utf8(rest) + seq![0x22u8]);
        let k = i + encode_utf8(head).len();
        lemma_string_body_of_escaped(b, k, t.drop_first());
        if (c as u32) < 0x20 || c == '"' || c == '\\' {
            lemma_escape_step(b, i, c);
            assert(ice::literal_end(b, i) == i);
            let none = b.subrange(i, i);
            assert(none =~= Seq::<u8>::empty());
            assert(decode_utf8(none) =~= Seq::<char>::empty());
            assert(decode_utf8(none).push(c) + t.drop_first() =~= t);
        } else {
            lemma_encode_one(c);
            assert(head =~= seq![c]);
            lemma_literal_step(b, i, c);
            assert(seq![c] + t.drop_first() =~= t);
        }
    }
}

/// Text that JSON strings carry as it is.
spec fn is_plain(t: Seq<char>) -> bool {
    forall|k: int|
        0 <= k < t.len() ==> (#[trigger] t[k]) as u32 >= 0x20 && t[k] != '"' && t[k] != '\\'
}

proof fn lemma_plain_escaped(t: Seq<char>)
    requires
        is_plain(t),
    ensures
        ice::escaped(t) == t,
    decreases t.len(),
{
    if t.len() > 0 {
        assert(t[0] as u32 >= 0x20);
        assert forall|k: int| 0 <= k < t.drop_first().len() implies (
        #[trigger] t.drop_first()[k]) as u32 >= 0x20 && t.drop_first()[k] != '"'
            && t.drop_first()[k] != '\\' by {
            assert(t.drop_first()[k] == t[k + 1]);
        }
        lemma_plain_escaped(t.drop_first());
        assert(seq![t[0]] + t.drop_first() =~= t);
    }
    assert(ice::escaped(t) =~= t);
}

/// The parser reads back a quoted string.
proof fn lemma_string_at_of_escaped(b: Seq<u8>, i: int, t: Seq<char>)
    requires
        occurs(b, i, seq![0x22u8] + (encode_utf8(ice::escaped(t)) + seq![0x22u8])),
    ensures
        ice::string_at(b, i) == Some((t, i + encode_utf8(ice::escaped(t)).len() + 2)),
        ice::ws_end(b, i) == i,
{
    lemma_occurs_split(b, i, seq![0x22u8], encode_utf8(ice::escaped(t)) + seq![0x22u8]);
    lemma_occurs_index(b, i, seq![0x22u8]);
    assert(b[i + 0] == seq![0x22u8][0]);
    lemma_string_body_of_escaped(b, i + 1, t);
}

/// Decimal digits in front of something else are the whole run.
proof fn lemma_digits_run(b: Seq<u8>, i: int, j: int)
    requires
        0 <= i <= j < b.len(),
        forall|k: int| i <= k < j ==> text::is_digit(#[trigger] b[k]),
        !text::is_digit(b[j]),
    ensures
        ice::digits_end(b, i) == j,
    decreases j - i,
{
    if i < j {
        assert(text::is_digit(b[i]));
        lemma_digits_run(b, i + 1, j);
    }
}

/// What the digits of a number spell.
proof fn lemma_decimal_text(n: nat)
    ensures
        is_ascii_chars(text::decimal_text(n)),
        text::decimal_text(n).len() >= 1,
        forall|k: int|
            0 <= k < text::decimal_text(n).len() ==> text::is_digit(
                #[trigger] encode_utf8(text::decimal_text(n))[k],
            ),
        encode_utf8(text::decimal_text(n)).len() == text::decimal_text(n).len(),
        text::decimal(encode_utf8(text::decimal_text(n))) == n,
        n > 0 ==> encode_utf8(text::decimal_text(n))[0] != 0x30,
        n < 10 ==> text::decimal_text(n).len() == 1,
    decreases n,
{
    let t = text::decimal_text(n);
    if n < 10 {
        let e = seq![(0x30 + n) as u8];
        lemma_encode_ascii(t, e);
        assert(e.drop_last() =~= Seq::<u8>::empty());
        assert(text::decimal(e.drop_last()) == 0);
    } else {
        let m = n / 10;
        lemma_decimal_text(m);
        let front = text::decimal_text(m);
        let last = (0x30 + n % 10) as char;
        assert(t =~= front + seq![last]);
        text::lemma_encode_concat(front, seq![last]);
        lemma_encode_one(last);
        let e = encode_utf8(t);
        assert(e =~= encode_utf8(front).push(last as u8));
        assert(e.drop_last() =~= encode_utf8(front));
        assert(e[0] == encode_utf8(front)[0]);
        assert forall|k: int| 0 <= k < t.len() implies text::is_digit(#[trigger] e[k]) by {
            if k < front.len() {
                assert(e[k] == encode_utf8(front)[k]);
            }
        }
        assert(is_ascii_chars(t));
    }
}

/// The parser reads back a number that something other than a digit follows.
proof fn lemma_uint_at_of_text(b: Seq<u8>, i: int, n: u32)
    requires
        occurs(b, i, encode_utf8(text::decimal_text(n as nat))),
        i + encode_utf8(text::decimal_text(n as nat)).len() < b.len(),
        !text::is_digit(b[i + encode_utf8(text::decimal_text(n as nat)).len()]),
    ensures
        ice::uint_at(b, i) == Some(
            (n as u64, i + encode_utf8(text::decimal_text(n as nat)).len()),
        ),
        ice::ws_end(b, i) == i,
{
    let e = encode_utf8(text::decimal_text(n as nat));
    let j = i + e.len();
    lemma_decimal_text(n as nat);
    lemma_occurs_index(b, i, e);
    assert forall|k: int| i <= k < j implies text::is_digit(#[trigger] b[k]) by {
        assert(b[i + (k - i)] == e[k - i]);
    }
    lemma_digits_run(b, i, j);
    assert(b[i + 0] == e[0]);
    assert(b.subrange(i, j) =~= e);
}

/// A quoted string in bytes.
spec fn quoted(t: Seq<char>) -> Seq<u8> {
    seq![0x22u8] + (encode_utf8(ice::escaped(t)) + seq![0x22u8])
}

proof fn lemma_string_field_bytes(key: Seq<char>, v: Seq<char>)
    requires
        is_plain(key),
    ensures
        encode_utf8(ice::string_field(key, v)) == quoted(key) + (seq![0x3au8] + quoted(v)),
{
    lemma_plain_escaped(key);
    let q = seq!['"'];
    let qcq = seq!['"', ':', '"'];
    lemma_encode_ascii(q, seq![0x22u8]);
    lemma_encode_ascii(qcq, seq![0x22u8, 0x3a, 0x22]);
    text::lemma_encode_concat(q, key);
    text::lemma_encode_concat(q + key, qcq);
    text::lemma_encode_concat(q + key + qcq, ice::escaped(v));
    text::lemma_encode_concat(q + key + qcq + ice::escaped(v), q);
    assert(encode_utf8(ice::string_field(key, v)) =~= quoted(key) + (seq![0x3au8] + quoted(v)));
}

proof fn lemma_number_field_bytes(key: Seq<char>, n: u32)
    requires
        is_plain(key),
    ensures
        encode_utf8(ice::number_field(key, n)) == quoted(key) + (seq![0x3au8] + encode_utf8(
            text::decimal_text(n as nat),
        )),
{
    lemma_plain_escaped(key);
    let q = seq!['"'];
    let qc = seq!['"', ':'];
    lemma_encode_ascii(q, seq![0x22u8]);
    lemma_encode_ascii(qc, seq![0x22u8, 0x3a]);
    text::lemma_encode_concat(q, key);
    text::lemma_encode_concat(q + key, qc);
    text::lemma_encode_concat(q + key + qc, text::decimal_text(n as nat));
    assert(encode_utf8(ice::number_field(key, n)) =~= quoted(key) + (seq![0x3au8] + encode_utf8(
        text::decimal_text(n as nat),
    )));
}

/// Behind a key and its colon stands the value.
proof fn lemma_member_key(b: Seq<u8>, i: int, key: Seq<char>, value: Seq<u8>, acc: IceView)
    requires
        occurs(b, i, quoted(key) + (seq![0x3au8] + value)),
        value.len() > 0,
        !ice::is_ws(value[0]),
    ensures
        ice::member_at(b, i, acc) == ice::field_at(b, i + quoted(key).len() + 1, key, acc),
        occurs(b, i + quoted(key).len() + 1, value),
{
    lemma_occurs_split(b, i, quoted(key), seq![0x3au8] + value);
    lemma_string_at_of_escaped(b, i, key);
    let p = i + quoted(key).len();
    lemma_occurs_split(b, p, seq![0x3au8], value);
    lemma_occurs_index(b, p, seq![0x3au8]);
    assert(b[p + 0] == seq![0x3au8][0]);
    lemma_occurs_index(b, p + 1, value);
    assert(b[p + 1 + 0] == value[0]);
    assert(ice::ws_end(b, p) == p);
    assert(ice::ws_end(b, p + 1) == p + 1);
}

/// The four keys carry no character that needs an escape, and differ from each other.
proof fn lemma_keys()
    ensures
        is_plain("candidate"@),
        is_plain("sdpMid"@),
        is_plain("sdpMLineIndex"@),
        is_plain("usernameFragment"@),
        "candidate"@ != "sdpMid"@,
        "candidate"@ != "sdpMLineIndex"@,
        "candidate"@ != "usernameFragment"@,
        "sdpMid"@ != "sdpMLineIndex"@,
        "sdpMid"@ != "usernameFragment"@,
        "sdpMLineIndex"@ != "usernameFragment"@,
{
    reveal_strlit("candidate");
    reveal_strlit("sdpMid");
    reveal_strlit("sdpMLineIndex");
    reveal_strlit("usernameFragment");
    assert("candidate"@.len() == 9 && "sdpMid"@.len() == 6 && "sdpMLineIndex"@.len() == 13
        && "usernameFragment"@.len() == 16);
}

/// The parser reads back a member whose value is a string.
proof fn lemma_string_member(b: Seq<u8>, i: int, key: Seq<char>, v: Seq<char>, acc: IceView)
    requires
        is_plain(key),
        occurs(b, i, encode_utf8(ice::string_field(key, v))),
        key == "candidate"@ || key == "sdpMid"@ || key == "usernameFragment"@,
    ensures
        ice::member_at(b, i, acc) == Some(
            (
                if key == "candidate"@ {
                    IceView { candidate: Some(v), ..acc }
                } else if key == "sdpMid"@ {
                    IceView { sdp_mid: Some(v), ..acc }
                } else {
                    IceView { username_fragment: Some(v), ..acc }
                },
                i + encode_utf8(ice::string_field(key, v)).len(),
            ),
        ),
{
    lemma_keys();
    lemma_string_field_bytes(key, v);
    lemma_member_key(b, i, key, quoted(v), acc);
    lemma_string_at_of_escaped(b, i + quoted(key).len() + 1, v);
}

/// The parser reads back the member whose value is a number.
proof fn lemma_number_member(b: Seq<u8>, i: int, n: u32, acc: IceView)
    requires
        occurs(b, i, encode_utf8(ice::number_field("sdpMLineIndex"@, n))),
        i + encode_utf8(ice::number_field("sdpMLineIndex"@, n)).len() < b.len(),
        !text::is_digit(b[i + encode_utf8(ice::number_field("sdpMLineIndex"@, n)).len()]),
    ensures
        ice::member_at(b, i, acc) == Some(
            (
                IceView { sdp_mline_index: Some(n), ..acc },
                i + encode_utf8(ice::number_field("sdpMLineIndex"@, n)).len(),
            ),
        ),
{
    let key = "sdpMLineIndex"@;
    lemma_keys();
    lemma_number_field_bytes(key, n);
    lemma_decimal_text(n as nat);
    let e = encode_utf8(text::decimal_text(n as nat));
    assert(text::is_digit(e[0]));
    lemma_member_key(b, i, key, e, acc);
    lemma_uint_at_of_text(b, i + quoted(key).len() + 1, n);
}

/// What follows a member: a comma and more members, or the closing brace.
spec fn after_member(b: Seq<u8>, r: int, acc: IceView) -> Option<(IceView, int)> {
    let t = ice::ws_end(b, r);
    if ice::byte_at(b, t, 0x2c) {
        ice::candidate_members(b, t + 1, acc)
    } else if ice::byte_at(b, t, 0x7d) {
        Some((acc, t + 1))
    } else {
        None
    }
}

/// The last members and the closing brace, in bytes: a comma stands in front of each.
spec fn tail_fragment(c: IceView) -> Seq<u8> {
    match c.username_fragment {
        Some(v) => seq![0x2cu8] + encode_utf8(ice::string_field("usernameFragment"@, v))
            + seq![0x7du8],
        None => seq![0x7du8],
    }
}

spec fn tail_index(c: IceView) -> Seq<u8> {
    match c.sdp_mline_index {
        Some(n) => seq![0x2cu8] + encode_utf8(ice::number_field("sdpMLineIndex"@, n))
            + tail_fragment(c),
        None => tail_fragment(c),
    }
}

proof fn lemma_byte_here(b: Seq<u8>, i: int, p: Seq<u8>, c: u8)
    requires
        occurs(b, i, p),
        p.len() > 0,
        p[0] == c,
        !ice::is_ws(c),
    ensures
        ice::byte_at(b, i, c),
        ice::ws_end(b, i) == i,
{
    lemma_occurs_index(b, i, p);
    assert(b[i + 0] == p[0]);
}

proof fn lemma_tail_fragment(b: Seq<u8>, r: int, c: IceView, acc: IceView)
    requires
        occurs(b, r, tail_fragment(c)),
        acc.username_fragment is None,
    ensures
        after_member(b, r, acc) == Some(
            (
                IceView { username_fragment: c.username_fragment, ..acc },
                r + tail_fragment(c).len(),
            ),
        ),
{
    lemma_keys();
    match c.username_fragment {
        Some(v) => {
            let f = encode_utf8(ice::string_field("usernameFragment"@, v));
            lemma_byte_here(b, r, tail_fragment(c), 0x2c);
            lemma_occurs_split(b, r, seq![0x2cu8] + f, seq![0x7du8]);
            lemma_occurs_split(b, r, seq![0x2cu8], f);
            lemma_string_member(b, r + 1, "usernameFragment"@, v, acc);
            let end = r + 1 + f.len();
            lemma_byte_here(b, end, seq![0x7du8], 0x7d);
        },
        None => {
            lemma_byte_here(b, r, tail_fragment(c), 0x7d);
            assert(IceView { username_fragment: None, ..acc } == acc);
        },
    }
}

proof fn lemma_tail_index(b: Seq<u8>, r: int, c: IceView, acc: IceView)
    requires
        occurs(b, r, tail_index(c)),
        acc.username_fragment is None,
        acc.sdp_mline_index is None,
    ensures
        after_member(b, r, acc) == Some(
            (
                IceView {
                    username_fragment: c.username_fragment,
                    sdp_mline_index: c.sdp_mline_index,
                    ..acc
                },
                r + tail_index(c).len(),
            ),
        ),
{
    match c.sdp_mline_index {
        Some(n) => {
            let f = encode_utf8(ice::number_field("sdpMLineIndex"@, n));
            lemma_byte_here(b, r, tail_index(c), 0x2c);
            lemma_occurs_split(b, r, seq![0x2cu8] + f, tail_fragment(c));
            lemma_occurs_split(b, r, seq![0x2cu8], f);
            let end = r + 1 + f.len();
            lemma_byte_here(b, end, tail_fragment(c), tail_fragment(c)[0]);
            lemma_number_member(b, r + 1, n, acc);
            lemma_tail_fragment(b, end, c, IceView { sdp_mline_index: Some(n), ..acc });
        },
        None => {
            lemma_tail_fragment(b, r, c, acc);
            assert(IceView { sdp_mline_index: None, ..acc } == acc);
        },
    }
}

proof fn lemma_joined_bytes(fs: Seq<Seq<char>>, f: Seq<char>)
    requires
        fs.len() > 0,
    ensures
        encode_utf8(ice::joined(fs.push(f))) == encode_utf8(ice::joined(fs)) + (seq![0x2cu8]
            + encode_utf8(f)),
{
    let comma = seq![','];
    let j = ice::joined(fs);
    ice::lemma_joined_push(fs, f);
    lemma_encode_ascii(comma, seq![0x2cu8]);
    assert(j.push(',') =~= j + comma);
    text::lemma_encode_concat(j, comma);
    text::lemma_encode_concat(j + comma, f);
    assert(encode_utf8(ice::joined(fs.push(f))) =~= encode_utf8(j) + (seq![0x2cu8] + encode_utf8(
        f,
    )));
}

/// The first two members of a complete candidate, and all of them.
spec fn first_fields(v1: Seq<char>, v2: Seq<char>) -> Seq<Seq<char>> {
    let one: Seq<Seq<char>> = seq![ice::string_field("candidate"@, v1)];
    one.push(ice::string_field("sdpMid"@, v2))
}

spec fn with_index(fs: Seq<Seq<char>>, c: IceView) -> Seq<Seq<char>> {
    match c.sdp_mline_index {
        Some(n) => fs.push(ice::number_field("sdpMLineIndex"@, n)),
        None => fs,
    }
}

spec fn with_fragment(fs: Seq<Seq<char>>, c: IceView) -> Seq<Seq<char>> {
    match c.username_fragment {
        Some(v) => fs.push(ice::string_field("usernameFragment"@, v)),
        None => fs,
    }
}

proof fn lemma_fragment_bytes(fs: Seq<Seq<char>>, c: IceView)
    requires
        fs.len() > 0,
    ensures
        encode_utf8(ice::joined(with_fragment(fs, c))) + seq![0x7du8] == encode_utf8(
            ice::joined(fs),
        ) + tail_fragment(c),
{
    let e = encode_utf8(ice::joined(fs));
    if let Some(v) = c.username_fragment {
        let f = encode_utf8(ice::string_field("usernameFragment"@, v));
        lemma_joined_bytes(fs, ice::string_field("usernameFragment"@, v));
        assert(e + (seq![0x2cu8] + f) + seq![0x7du8] =~= e + (seq![0x2cu8] + f + seq![0x7du8]));
    }
}

proof fn lemma_index_bytes(fs: Seq<Seq<char>>, c: IceView)
    requires
        fs.len() > 0,
    ensures
        encode_utf8(ice::joined(with_index(fs, c))) + tail_fragment(c) == encode_utf8(
            ice::joined(fs),
        ) + tail_index(c),
{
    let e = encode_utf8(ice::joined(fs));
    if let Some(n) = c.sdp_mline_index {
        let f = encode_utf8(ice::number_field("sdpMLineIndex"@, n));
        let t = tail_fragment(c);
        lemma_joined_bytes(fs, ice::number_field("sdpMLineIndex"@, n));
        assert(e + (seq![0x2cu8] + f) + t =~= e + (seq![0x2cu8] + f + t));
    }
}

proof fn lemma_first_bytes(v1: Seq<char>, v2: Seq<char>)
    ensures
        encode_utf8(ice::joined(first_fields(v1, v2))) == encode_utf8(
            ice::string_field("candidate"@, v1),
        ) + (seq![0x2cu8] + encode_utf8(ice::string_field("sdpMid"@, v2))),
{
    let one: Seq<Seq<char>> = seq![ice::string_field("candidate"@, v1)];
    lemma_joined_bytes(one, ice::string_field("sdpMid"@, v2));
}

/// The JSON text of a complete candidate, in bytes.
proof fn lemma_json_bytes(c: IceView, v1: Seq<char>, v2: Seq<char>)
    requires
        c.candidate == Some(v1),
        c.sdp_mid == Some(v2),
    ensures
        encode_utf8(ice::json_text(c)) == seq![0x7bu8] + (encode_utf8(
            ice::string_field("candidate"@, v1),
        ) + (seq![0x2cu8] + (encode_utf8(ice::string_field("sdpMid"@, v2)) + tail_index(c)))),
{
    let two = first_fields(v1, v2);
    let three = with_index(two, c);
    let four = with_fragment(three, c);
    assert(ice::fields(c) =~= four);
    let open = seq!['{'];
    let close = seq!['}'];
    let j = ice::joined(four);
    assert(ice::json_text(c) == open + j + close);
    assert(encode_utf8(open + j + close) == seq![0x7bu8] + (encode_utf8(j) + seq![0x7du8])) by {
        lemma_encode_ascii(open, seq![0x7bu8]);
        lemma_encode_ascii(close, seq![0x7du8]);
        text::lemma_encode_concat(open, j);
        text::lemma_encode_concat(open + j, close);
        assert(seq![0x7bu8] + encode_utf8(j) + seq![0x7du8] =~= seq![0x7bu8] + (encode_utf8(j)
            + seq![0x7du8]));
    }
    lemma_fragment_bytes(three, c);
    lemma_index_bytes(two, c);
    lemma_first_bytes(v1, v2);
    let f1 = encode_utf8(ice::string_field("candidate"@, v1));
    let f2 = encode_utf8(ice::string_field("sdpMid"@, v2));
    let t = tail_index(c);
    assert((f1 + (seq![0x2cu8] + f2)) + t =~= f1 + (seq![0x2cu8] + (f2 + t)));
}

proof fn lemma_members_step(b: Seq<u8>, i: int, acc: IceView, next: IceView, end: int)
    requires
        ice::member_at(b, i, acc) == Some((next, end)),
        i <= end,
        ice::ws_end(b, end) == end,
    ensures
        ice::candidate_members(b, i, acc) == after_member(b, end, next),
{
}

/// The members of a complete candidate, read from behind the opening brace.
proof fn lemma_members_of_pieces(
    b: Seq<u8>,
    c: IceView,
    v1: Seq<char>,
    v2: Seq<char>,
    f1: Seq<u8>,
    f2: Seq<u8>,
)
    requires
        c.candidate == Some(v1),
        c.sdp_mid == Some(v2),
        f1 == encode_utf8(ice::string_field("candidate"@, v1)),
        f2 == encode_utf8(ice::string_field("sdpMid"@, v2)),
        occurs(b, 1, f1 + (seq![0x2cu8] + (f2 + tail_index(c)))),
    ensures
        ice::candidate_members(b, 1, ice::empty_view()) == Some(
            (c, 1 + (f1 + (seq![0x2cu8] + (f2 + tail_index(c)))).len() as int),
        ),
{
    let t = tail_index(c);
    let acc0 = ice::empty_view();
    let acc1 = IceView { candidate: Some(v1), ..acc0 };
    let acc2 = IceView { sdp_mid: Some(v2), ..acc1 };
    let p1: int = 1 + f1.len() as int;
    let p2: int = p1 + 1 + f2.len();
    lemma_keys();
    lemma_occurs_split(b, 1, f1, seq![0x2cu8] + (f2 + t));
    lemma_string_member(b, 1, "candidate"@, v1, acc0);
    lemma_byte_here(b, p1, seq![0x2cu8] + (f2 + t), 0x2c);
    lemma_members_step(b, 1, acc0, acc1, p1);
    lemma_occurs_split(b, p1, seq![0x2cu8], f2 + t);
    lemma_occurs_split(b, p1 + 1, f2, t);
    lemma_string_member(b, p1 + 1, "sdpMid"@, v2, acc1);
    lemma_byte_here(b, p2, t, t[0]);
    lemma_members_step(b, p1 + 1, acc1, acc2, p2);
    lemma_tail_index(b, p2, c, acc2);
}

/// Parsing what `build` wrote gives back the candidate, whatever characters its strings hold, as
/// long as the two required fields are there.
pub proof fn parse_undoes_build(c: IceView)
    requires
        c.candidate is Some,
        c.sdp_mid is Some,
    ensures
        ice::parsed(encode_utf8(ice::json_text(c))) == Some(c),
{
    let v1 = c.candidate.unwrap();
    let v2 = c.sdp_mid.unwrap();
    let b = encode_utf8(ice::json_text(c));
    let f1 = encode_utf8(ice::string_field("candidate"@, v1));
    let f2 = encode_utf8(ice::string_field("sdpMid"@, v2));
    let rest = f1 + (seq![0x2cu8] + (f2 + tail_index(c)));
    lemma_json_bytes(c, v1, v2);
    assert(b.subrange(0, b.len() as int) =~= b);
    assert(occurs(b, 0, seq![0x7bu8] + rest));
    lemma_occurs_split(b, 0, seq![0x7bu8], rest);
    lemma_byte_here(b, 0, seq![0x7bu8], 0x7b);
    assert(rest.len() > 0 && rest[0] == 0x22) by {
        lemma_keys();
        lemma_string_field_bytes("candidate"@, v1);
    }
    lemma_byte_here(b, 1, rest, 0x22);
    lemma_members_of_pieces(b, c, v1, v2, f1, f2);
}

// ---------------------------------------------------------------------------------------------
// What is read, byte by byte.
// ---------------------------------------------------------------------------------------------
/// Spaces, tabs, line feeds and carriage returns are passed over, and nothing else.
pub proof fn blanks_are_passed_over(b: Seq<u8>, i: int, j: int)
    requires
        0 <= i <= j <= b.len(),
        forall|k: int|
            i <= k < j ==> #[trigger] b[k] == 0x20 || b[k] == 0x09 || b[k] == 0x0a || b[k] == 0x0d,
        j < b.len() ==> b[j] != 0x20 && b[j] != 0x09 && b[j] != 0x0a && b[j] != 0x0d,
    ensures
        ice::ws_end(b, i) == j,
    decreases j - i,
{
    if i < j {
        assert(b[i] == 0x20 || b[i] == 0x09 || b[i] == 0x0a || b[i] == 0x0d);
        blanks_are_passed_over(b, i + 1, j);
    }
}

/// The rest of a string, with a character in front of it.
pub open spec fn with_first(c: char, rest: Option<(Seq<char>, int)>) -> Option<(Seq<char>, int)> {
    match rest {
        Some((tail, end)) => Some((seq![c] + tail, end)),
        None => None,
    }
}

proof fn lemma_escaped_step(b: Seq<u8>, i: int)
    requires
        ice::byte_at(b, i, 0x5c),
    ensures
        ice::escape_at(b, i) is None ==> ice::string_body(b, i) is None,
        ice::escape_at(b, i) matches Some((c, k)) ==> ice::string_body(b, i) == with_first(
            c,
            ice::string_body(b, k),
        ),
{
    assert(ice::literal_end(b, i) == i);
    let e = b.subrange(i, i);
    assert(e =~= Seq::<u8>::empty());
    assert(valid_utf8(e));
    assert(decode_utf8(e) =~= Seq::<char>::empty());
    if let Some((c, k)) = ice::escape_at(b, i) {
        if let Some((tail, end)) = ice::string_body(b, k) {
            assert(decode_utf8(e).push(c) + tail =~= seq![c] + tail);
        }
    }
}

/// A string ends at a quotation mark. It holds no control character and does not end with the text.
/// Any other character but the backslash stands for itself, in UTF-8.
pub proof fn strings_are_read_by_characters(b: Seq<u8>, i: int, c: char)
    requires
        0 <= i <= b.len(),
    ensures
        i == b.len() ==> ice::string_body(b, i) is None,
        i < b.len() && b[i] == 0x22 ==> ice::string_body(b, i) == Some(
            (Seq::<char>::empty(), i + 1),
        ),
        i < b.len() && b[i] < 0x20 ==> ice::string_body(b, i) is None,
        c as u32 >= 0x20 && c != '"' && c != '\\' && encode_scalar(c as u32).is_prefix_of(b.skip(i))
            ==> ice::string_body(b, i) == with_first(
            c,
            ice::string_body(b, i + encode_scalar(c as u32).len()),
        ),
        ice::string_at(b, i) == (if i < b.len() && b[i] == 0x22 {
            ice::string_body(b, i + 1)
        } else {
            None
        }),
{
    if i < b.len() && (b[i] == 0x22 || b[i] < 0x20) {
        assert(ice::literal_end(b, i) == i);
        let e = b.subrange(i, i);
        assert(e =~= Seq::<u8>::empty());
        assert(valid_utf8(e));
        assert(decode_utf8(e) =~= Seq::<char>::empty());
    }
    let s = encode_scalar(c as u32);
    if c as u32 >= 0x20 && c != '"' && c != '\\' && s.is_prefix_of(b.skip(i)) {
        assert(b.subrange(i, i + s.len()) =~= b.skip(i).subrange(0, s.len() as int));
        assert(occurs(b, i, s));
        lemma_literal_step(b, i, c);
        if let Some((tail, end)) = ice::string_body(b, i + s.len()) {
        }
    }
}

/// What follows a backslash: a quotation mark, a backslash and a slash stand for themselves, `n`,
/// `r`, `t`, `b` and `f` for control characters. Anything else, but a number, spoils the string.
pub proof fn short_escapes(b: Seq<u8>, i: int, c: char)
    requires
        0 <= i < b.len(),
        b[i] == 0x5c,
    ensures
        i + 1 == b.len() ==> ice::string_body(b, i) is None,
        i + 1 < b.len() && ((b[i + 1] == 0x22 && c == '"') || (b[i + 1] == 0x5c && c == '\\') || (b[i
            + 1] == 0x2f && c == '/') || (b[i + 1] == 0x6e && c == '\n') || (b[i + 1] == 0x72 && c
            == '\r') || (b[i + 1] == 0x74 && c == '\t') || (b[i + 1] == 0x62 && c == '\u{8}') || (b[i
            + 1] == 0x66 && c == '\u{c}')) ==> ice::string_body(b, i) == with_first(
            c,
            ice::string_body(b, i + 2),
        ),
        i + 1 < b.len() && b[i + 1] != 0x22 && b[i + 1] != 0x5c && b[i + 1] != 0x2f && b[i + 1]
            != 0x6e && b[i + 1] != 0x72 && b[i + 1] != 0x74 && b[i + 1] != 0x62 && b[i + 1] != 0x66
            && b[i + 1] != 0x75 ==> ice::string_body(b, i) is None,
{
    lemma_escaped_step(b, i);
}

/// The hexadecimal digit at `i` has the value `v`.
pub open spec fn digit_is(b: Seq<u8>, i: int, v: int) -> bool {
    &&& 0 <= i < b.len()
    &&& 0 <= v < 16
    &&& v < 10 ==> b[i] == 0x30 + v
    &&& v >= 10 ==> b[i] == 0x61 + (v - 10) || b[i] == 0x41 + (v - 10)
}

/// The four hexadecimal digits at `i` have the value `v`.
pub open spec fn digits_are(b: Seq<u8>, i: int, v: int) -> bool {
    &&& 0 <= v < 0x10000
    &&& digit_is(b, i, v / 4096)
    &&& digit_is(b, i + 1, v / 256 % 16)
    &&& digit_is(b, i + 2, v / 16 % 16)
    &&& digit_is(b, i + 3, v % 16)
}

proof fn lemma_digit_is(b: Seq<u8>, i: int, v: int)
    requires
        digit_is(b, i, v),
    ensures
        ice::hex_value(b[i]) == Some(v as u32),
{
}

proof fn lemma_four_digits(v: int)
    requires
        0 <= v < 0x10000,
    ensures
        0 <= v / 4096 < 16,
        (v / 4096) * 4096 + (v / 256 % 16) * 256 + (v / 16 % 16) * 16 + v % 16 == v,
{
    let a = v / 16;
    let b = a / 16;
    assert(v == 16 * a + v % 16);
    assert(a == 16 * b + a % 16);
    assert(b == 16 * (b / 16) + b % 16);
    assert(b == v / 256);
    assert(b / 16 == v / 4096);
}

#[verifier::spinoff_prover]
proof fn lemma_digits_are(b: Seq<u8>, i: int, v: int)
    requires
        digits_are(b, i, v),
    ensures
        ice::hex4_at(b, i) == Some(v as u32),
{
    lemma_four_digits(v);
    lemma_digit_is(b, i, v / 4096);
    lemma_digit_is(b, i + 1, v / 256 % 16);
    lemma_digit_is(b, i + 2, v / 16 % 16);
    lemma_digit_is(b, i + 3, v % 16);
}

/// A character may be given by its number in four hexadecimal digits, and one beyond them by two
/// such numbers, of which the first lies in 0xd800 to 0xdbff and the second in 0xdc00 to 0xdfff.
/// Neither of these stands alone.
pub proof fn numbered_escapes(b: Seq<u8>, i: int, u: int, low: int)
    requires
        0 <= i,
        i + 1 < b.len(),
        b[i] == 0x5c,
        b[i + 1] == 0x75,
        digits_are(b, i + 2, u),
    ensures
        u < 0xd800 || u > 0xdfff ==> ice::string_body(b, i) == with_first(
            u as char,
            ice::string_body(b, i + 6),
        ),
        0xdc00 <= u <= 0xdfff ==> ice::string_body(b, i) is None,
        0xd800 <= u < 0xdc00 && (i + 7 >= b.len() || b[i + 6] != 0x5c || b[i + 7] != 0x75)
            ==> ice::string_body(b, i) is None,
        0xd800 <= u < 0xdc00 && i + 7 < b.len() && b[i + 6] == 0x5c && b[i + 7] == 0x75
            && digits_are(b, i + 8, low) ==> {
            &&& 0xdc00 <= low <= 0xdfff ==> ice::string_body(b, i) == with_first(
                (0x10000 + (u - 0xd800) * 1024 + (low - 0xdc00)) as char,
                ice::string_body(b, i + 12),
            )
            &&& low < 0xdc00 || low > 0xdfff ==> ice::string_body(b, i) is None
        },
{
    lemma_escaped_step(b, i);
    lemma_digits_are(b, i + 2, u);
    if digits_are(b, i + 8, low) {
        lemma_digits_are(b, i + 8, low);
    }
}

/// A whole number has digits only, and a zero in front only if it is zero. It ends where the digits
/// end.
pub proof fn whole_numbers(b: Seq<u8>, i: int, j: int)
    requires
        0 <= i <= j <= b.len(),
        forall|k: int| i <= k < j ==> 0x30 <= #[trigger] b[k] <= 0x39,
        j < b.len() ==> !(0x30 <= b[j] <= 0x39),
    ensures
        i == j ==> ice::uint_at(b, i) is None,
        i < j && b[i] == 0x30 && j > i + 1 ==> ice::uint_at(b, i) is None,
        i < j && (b[i] != 0x30 || j == i + 1) && text::decimal(b.subrange(i, j))
            <= 0xffff_ffff_ffff_ffff ==> ice::uint_at(b, i) == Some(
            (text::decimal(b.subrange(i, j)) as u64, j),
        ),
        text::decimal(b.subrange(i, j)) > 0xffff_ffff_ffff_ffff ==> ice::uint_at(b, i) is None,
{
    lemma_run_of_digits(b, i, j);
}

proof fn lemma_run_of_digits(b: Seq<u8>, i: int, j: int)
    requires
        0 <= i <= j <= b.len(),
        forall|k: int| i <= k < j ==> 0x30 <= #[trigger] b[k] <= 0x39,
        j < b.len() ==> !(0x30 <= b[j] <= 0x39),
    ensures
        ice::digits_end(b, i) == j,
    decreases j - i,
{
    if i < j {
        assert(0x30 <= b[i] <= 0x39);
        lemma_run_of_digits(b, i + 1, j);
    }
}

/// A number that is passed over: a minus perhaps, digits without a zero in front, perhaps a point
/// and digits, perhaps an `e` or `E`, a sign perhaps, and digits.
pub proof fn numbers_are_passed_over(b: Seq<u8>, i: int, a: int, m: int, f: int, s: int, e: int)
    requires
        0 <= i <= a < m <= f <= s <= e <= b.len(),
        a == (if b[i] == 0x2d {
            i + 1
        } else {
            i
        }),
        forall|k: int| a <= k < m ==> 0x30 <= #[trigger] b[k] <= 0x39,
        b[a] == 0x30 ==> m == a + 1,
        b[a] != 0x30 && m < b.len() ==> !(0x30 <= b[m] <= 0x39),
        if m < b.len() && b[m] == 0x2e {
            f > m + 1 && (forall|k: int| m < k < f ==> 0x30 <= #[trigger] b[k] <= 0x39) && (f
                < b.len() ==> !(0x30 <= b[f] <= 0x39))
        } else {
            f == m
        },
        if f < b.len() && (b[f] == 0x65 || b[f] == 0x45) {
            s == (if f + 1 < b.len() && (b[f + 1] == 0x2b || b[f + 1] == 0x2d) {
                f + 2
            } else {
                f + 1
            }) && s < e && (forall|k: int| s <= k < e ==> 0x30 <= #[trigger] b[k] <= 0x39) && (e
                < b.len() ==> !(0x30 <= b[e] <= 0x39))
        } else {
            s == f && e == f
        },
    ensures
        ice::number_end(b, i) == Some(e),
{
    if b[a] != 0x30 {
        lemma_run_of_digits(b, a, m);
        assert(0x30 <= b[a] <= 0x39);
    }
    if m < b.len() && b[m] == 0x2e {
        assert(0x30 <= b[m + 1] <= 0x39);
        lemma_run_of_digits(b, m + 1, f);
    }
    if f < b.len() && (b[f] == 0x65 || b[f] == 0x45) {
        assert(0x30 <= b[s] <= 0x39);
        lemma_run_of_digits(b, s, e);
    }
}

/// What a value that is passed over may be: a string, an object, a list, one of three words, or a
/// number. Blanks may stand in front of it.
pub proof fn values_are_passed_over(b: Seq<u8>, i: int, k: int)
    requires
        0 <= i,
        k == ice::ws_end(b, i),
    ensures
        k >= b.len() ==> ice::value_end(b, i) is None,
        i <= k < b.len() ==> {
            let empty = ice::ws_end(b, k + 1);
            &&& b[k] == 0x22 ==> ice::value_end(b, i) == (match ice::string_at(b, k) {
                Some((t, end)) => Some(end),
                None => None,
            })
            &&& b[k] == 0x7b && 0 <= empty < b.len() && b[empty] == 0x7d ==> ice::value_end(b, i)
                == Some(empty + 1)
            &&& b[k] == 0x7b && (empty >= b.len() || empty < 0 || b[empty] != 0x7d)
                ==> ice::value_end(b, i) == ice::members_end(b, k + 1)
            &&& b[k] == 0x5b && 0 <= empty < b.len() && b[empty] == 0x5d ==> ice::value_end(b, i)
                == Some(empty + 1)
            &&& b[k] == 0x5b && (empty >= b.len() || empty < 0 || b[empty] != 0x5d)
                ==> ice::value_end(b, i) == ice::elements_end(b, k + 1)
            &&& seq![0x74u8, 0x72, 0x75, 0x65].is_prefix_of(b.skip(k)) ==> ice::value_end(b, i)
                == Some(k + 4)
            &&& seq![0x66u8, 0x61, 0x6c, 0x73, 0x65].is_prefix_of(b.skip(k)) ==> ice::value_end(b, i)
                == Some(k + 5)
            &&& seq![0x6eu8, 0x75, 0x6c, 0x6c].is_prefix_of(b.skip(k)) ==> ice::value_end(b, i)
                == Some(k + 4)
            &&& b[k] == 0x2d || 0x30 <= b[k] <= 0x39 ==> ice::value_end(b, i) == ice::number_end(
                b,
                k,
            )
            &&& ice::value_end(b, i) is Some ==> b[k] == 0x22 || b[k] == 0x7b || b[k] == 0x5b
                || b[k] == 0x74 || b[k] == 0x66 || b[k] == 0x6e || b[k] == 0x2d || 0x30 <= b[k]
                <= 0x39
        },
{
    if i <= k < b.len() {
        lemma_word_here(b, k, seq![0x74u8, 0x72, 0x75, 0x65]);
        lemma_word_here(b, k, seq![0x66u8, 0x61, 0x6c, 0x73, 0x65]);
        lemma_word_here(b, k, seq![0x6eu8, 0x75, 0x6c, 0x6c]);
    }
}

proof fn lemma_word_here(b: Seq<u8>, k: int, w: Seq<u8>)
    requires
        0 <= k < b.len(),
        w.len() > 0,
    ensures
        w.is_prefix_of(b.skip(k)) ==> b[k] == w[0] && ice::word_end(b, k, w) == Some(k + w.len()),
{
    if w.is_prefix_of(b.skip(k)) {
        assert(b.subrange(k, k + w.len()) =~= b.skip(k).subrange(0, w.len() as int));
        assert(b.subrange(k, k + w.len())[0] == b[k]);
    }
}

/// Members of an object stand between commas, each a string, a colon and a value, and a brace ends
/// them. Elements of a list stand between commas, and a bracket ends them.
pub proof fn members_and_elements(b: Seq<u8>, i: int, p: int, v: int, e: int)
    requires
        0 <= i,
    ensures
        ice::string_at(b, ice::ws_end(b, i)) matches Some((key, q)) ==> (i < p && p == ice::ws_end(
            b,
            q,
        ) && p < b.len() && b[p] == 0x3a && ice::value_end(b, p + 1) == Some(e) && v == ice::ws_end(
            b,
            e,
        ) && i <= v < b.len() ==> {
            &&& b[v] == 0x2c ==> ice::members_end(b, i) == ice::members_end(b, v + 1)
            &&& b[v] == 0x7d ==> ice::members_end(b, i) == Some(v + 1)
            &&& b[v] != 0x2c && b[v] != 0x7d ==> ice::members_end(b, i) is None
        }),
        ice::string_at(b, ice::ws_end(b, i)) is None ==> ice::members_end(b, i) is None,
        ice::value_end(b, i) is None ==> ice::elements_end(b, i) is None,
        ice::value_end(b, i) == Some(e) && v == ice::ws_end(b, e) && i <= v < b.len() ==> {
            &&& b[v] == 0x2c ==> ice::elements_end(b, i) == ice::elements_end(b, v + 1)
            &&& b[v] == 0x5d ==> ice::elements_end(b, i) == Some(v + 1)
            &&& b[v] != 0x2c && b[v] != 0x5d ==> ice::elements_end(b, i) is None
        },
{
}

/// What a member says: `candidate`, `sdpMid` and `usernameFragment` have strings, `sdpMLineIndex` a
/// whole number of 32 bits. Of several with the same name, the last counts, and others are passed
/// over.
pub proof fn members_say(b: Seq<u8>, v: int, key: Seq<char>, acc: IceView)
    ensures
        ({
            let f = ice::field_at(b, v, key, acc);
            let t = ice::string_at(b, v);
            let n = ice::uint_at(b, v);
            &&& key == "candidate"@ || key == "sdpMid"@ || key == "usernameFragment"@ ==> (f is None
                <==> t is None)
            &&& key == "candidate"@ && t is Some ==> f == Some(
                (IceView { candidate: Some((t->0).0), ..acc }, (t->0).1),
            )
            &&& key == "sdpMid"@ && t is Some ==> f == Some(
                (IceView { sdp_mid: Some((t->0).0), ..acc }, (t->0).1),
            )
            &&& key == "usernameFragment"@ && t is Some ==> f == Some(
                (IceView { username_fragment: Some((t->0).0), ..acc }, (t->0).1),
            )
            &&& key == "sdpMLineIndex"@ ==> (f is Some <==> n is Some && (n->0).0 <= 0xffff_ffff)
            &&& key == "sdpMLineIndex"@ && f is Some ==> f == Some(
                (IceView { sdp_mline_index: Some((n->0).0 as u32), ..acc }, (n->0).1),
            )
            &&& key != "candidate"@ && key != "sdpMid"@ && key != "usernameFragment"@ && key
                != "sdpMLineIndex"@ ==> f == (match ice::value_end(b, v) {
                Some(end) => Some((acc, end)),
                None => None,
            })
        }),
{
    lemma_keys();
}

/// Members are read one behind the other: a name, a colon, what it says, and a comma before the next
/// one or a brace at the end. Blanks may stand between them.
pub proof fn members_are_read_in_order(b: Seq<u8>, i: int, p: int, e: int, acc: IceView)
    requires
        0 <= i,
    ensures
        ice::string_at(b, ice::ws_end(b, i)) is None ==> ice::candidate_members(b, i, acc) is None,
        ice::string_at(b, ice::ws_end(b, i)) matches Some((key, q)) ==> (p == ice::ws_end(b, q) ==> {
            let said = ice::field_at(b, ice::ws_end(b, p + 1), key, acc);
            &&& !(0 <= p < b.len()) || b[p] != 0x3a || said is None ==> ice::candidate_members(
                b,
                i,
                acc,
            ) is None
            &&& 0 <= p < b.len() && b[p] == 0x3a && said is Some && e == ice::ws_end(b, (said->0).1)
                && i <= e < b.len() ==> {
                &&& b[e] == 0x2c ==> ice::candidate_members(b, i, acc) == ice::candidate_members(
                    b,
                    e + 1,
                    (said->0).0,
                )
                &&& b[e] == 0x7d ==> ice::candidate_members(b, i, acc) == Some(((said->0).0, e + 1))
                &&& b[e] != 0x2c && b[e] != 0x7d ==> ice::candidate_members(b, i, acc) is None
            }
        }),
{
}

/// A candidate is an object with members and nothing but blanks around it, and must have a candidate
/// and a section.
pub proof fn candidates_are_read(json: &[u8], k: int, r: Option<ice::IceCandidate>)
    requires
        call_ensures(ice::parse, (json,), r),
        k == ice::ws_end(json@, 0),
    ensures
        !(0 <= k < json@.len()) || json@[k] != 0x7b ==> r is None,
        0 <= k < json@.len() && json@[k] == 0x7b ==> {
            let first = ice::ws_end(json@, k + 1);
            let all = ice::candidate_members(
                json@,
                k + 1,
                IceView {
                    candidate: None,
                    sdp_mid: None,
                    sdp_mline_index: None,
                    username_fragment: None,
                },
            );
            &&& 0 <= first < json@.len() && json@[first] == 0x7d ==> r is None
            &&& all is None ==> r is None
            &&& !(0 <= first < json@.len() && json@[first] == 0x7d) && all is Some ==> {
                let c = (all->0).0;
                let whole = ice::ws_end(json@, (all->0).1) == json@.len();
                &&& r is Some <==> whole && c.candidate is Some && c.sdp_mid is Some
                &&& r matches Some(x) ==> x@ == c
            }
        },
{
}

/// What is read of a candidate is in its fields.
pub proof fn candidates_hold_their_fields(c: ice::IceCandidate, ended: bool)
    requires
        call_ensures(ice::IceCandidate::is_end_of_candidates, (&c,), ended),
    ensures
        c.candidate is None <==> c@.candidate is None,
        c.candidate matches Some(t) ==> c@.candidate == Some(t@),
        c.sdp_mid is None <==> c@.sdp_mid is None,
        c.sdp_mid matches Some(t) ==> c@.sdp_mid == Some(t@),
        c@.sdp_mline_index == c.sdp_mline_index,
        c.username_fragment is None <==> c@.username_fragment is None,
        c.username_fragment matches Some(t) ==> c@.username_fragment == Some(t@),
        ended <==> c.candidate is Some && c.candidate->0@.len() == 0,
{
    if let Some(t) = c.candidate {
        if t@.len() == 0 {
            assert(t@ =~= Seq::<char>::empty());
        }
    }
}

/// How characters are written in a string: quotation mark and backslash with a backslash in front,
/// line feed, carriage return and tab by their letters, other control characters by their number in
/// four hexadecimal digits, and any other as it is.
pub proof fn characters_are_written(t: Seq<char>)
    ensures
        t.len() == 0 ==> ice::escaped(t).len() == 0,
        t.len() > 0 ==> {
            let rest = ice::escaped(t.drop_first());
            let c = t[0];
            let n = c as u32 as int;
            &&& c == '"' ==> ice::escaped(t) == seq!['\\', '"'] + rest
            &&& c == '\\' ==> ice::escaped(t) == seq!['\\', '\\'] + rest
            &&& c == '\n' ==> ice::escaped(t) == seq!['\\', 'n'] + rest
            &&& c == '\r' ==> ice::escaped(t) == seq!['\\', 'r'] + rest
            &&& c == '\t' ==> ice::escaped(t) == seq!['\\', 't'] + rest
            &&& n < 0x20 && c != '\n' && c != '\r' && c != '\t' ==> ice::escaped(t) == seq![
                '\\',
                'u',
                '0',
                '0',
                if n < 16 {
                    '0'
                } else {
                    '1'
                },
                text::hex_char((n % 16) as nat),
            ] + rest
            &&& n >= 0x20 && c != '"' && c != '\\' ==> ice::escaped(t) == seq![c] + rest
        },
{
}

proof fn lemma_glue(j: Seq<char>, f: Seq<char>)
    ensures
        seq!['{'] + (j.push(',') + f) == seq!['{'] + j + seq![','] + f,
{
    assert(seq!['{'] + (j.push(',') + f) =~= seq!['{'] + j + seq![','] + f);
}

/// What is written of a candidate: an object with the fields that are there, in a fixed order, and
/// commas between them.
pub proof fn candidates_are_written(c: ice::IceCandidate, r: String)
    requires
        call_ensures(ice::build, (&c,), r),
        c.candidate is Some,
        c.sdp_mid is Some,
    ensures
        ({
            let candidate = seq!['"'] + "candidate"@ + seq!['"', ':', '"'] + ice::escaped(
                c.candidate->0@,
            ) + seq!['"'];
            let mid = seq!['"'] + "sdpMid"@ + seq!['"', ':', '"'] + ice::escaped(c.sdp_mid->0@)
                + seq!['"'];
            let index = seq!['"'] + "sdpMLineIndex"@ + seq!['"', ':'] + text::decimal_text(
                c.sdp_mline_index->0 as nat,
            );
            let fragment = seq!['"'] + "usernameFragment"@ + seq!['"', ':', '"'] + ice::escaped(
                c.username_fragment->0@,
            ) + seq!['"'];
            let first = seq!['{'] + candidate + seq![','] + mid;
            let second = if c.sdp_mline_index is Some {
                first + seq![','] + index
            } else {
                first
            };
            let third = if c.username_fragment is Some {
                second + seq![','] + fragment
            } else {
                second
            };
            r@ == third + seq!['}']
        }),
{
    let v = c@;
    let f1 = ice::string_field("candidate"@, c.candidate->0@);
    let f2 = ice::string_field("sdpMid"@, c.sdp_mid->0@);
    let two = seq![f1].push(f2);
    ice::lemma_joined_push(seq![f1], f2);
    assert(ice::joined(seq![f1]) == f1);
    lemma_glue(f1, f2);
    let three = with_index(two, v);
    if let Some(n) = v.sdp_mline_index {
        let f3 = ice::number_field("sdpMLineIndex"@, n);
        ice::lemma_joined_push(two, f3);
        lemma_glue(ice::joined(two), f3);
    }
    let four = with_fragment(three, v);
    if let Some(u) = v.username_fragment {
        let f4 = ice::string_field("usernameFragment"@, u);
        ice::lemma_joined_push(three, f4);
        lemma_glue(ice::joined(three), f4);
    }
    assert(ice::fields(v) =~= four);
}

} // verus!
