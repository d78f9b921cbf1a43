use hotline::emoji::{
    emit, emoji_to_shortcodes, emoji_to_shortcodes_into, shortcode_matches, shortcodes_to_emoji,
    shortcodes_to_emoji_into, EmojiTable,
};

const ENCODE: &[(&str, &str)] = &[
    ("#\u{fe0f}\u{20e3}", "hash"),
    ("\u{2764}\u{fe0f}", "heart"),
    ("\u{1f389}", "tada"),
    ("\u{1f44d}", "+1"),
    ("\u{1f44e}", "-1"),
    ("\u{1f4af}", "100"),
    ("\u{1f525}", "fire"),
    ("\u{1f600}", "grinning"),
    ("\u{1f602}", "joy"),
    ("\u{1f639}", "joy_cat"),
    ("\u{1f680}", "rocket"),
    ("\u{1f692}", "fire_engine"),
];

const DECODE: &[(&str, &str)] = &[
    ("+1", "\u{1f44d}"),
    ("-1", "\u{1f44e}"),
    ("100", "\u{1f4af}"),
    ("face_with_tears_of_joy", "\u{1f602}"),
    ("fire", "\u{1f525}"),
    ("fire_engine", "\u{1f692}"),
    ("grinning", "\u{1f600}"),
    ("hash", "#\u{fe0f}\u{20e3}"),
    ("heart", "\u{2764}\u{fe0f}"),
    ("joy", "\u{1f602}"),
    ("joy_cat", "\u{1f639}"),
    ("rocket", "\u{1f680}"),
    ("tada", "\u{1f389}"),
    ("thumbsdown", "\u{1f44e}"),
    ("thumbsup", "\u{1f44d}"),
];

fn table() -> EmojiTable {
    EmojiTable::new(ENCODE, DECODE).expect("the rows are in order")
}

#[test]
fn table_sorted_and_searchable() {
    assert!(
        ENCODE.windows(2).all(|w| w[0].0 < w[1].0),
        "ENCODE unsorted"
    );
    assert!(
        DECODE.windows(2).all(|w| w[0].0 < w[1].0),
        "DECODE unsorted"
    );
    assert!(!ENCODE.is_empty() && !DECODE.is_empty());
}

#[test]
fn every_canonical_round_trips() {
    for (emoji, sc) in ENCODE {
        assert_eq!(
            shortcodes_to_emoji(&table(), &format!(":{sc}:")),
            *emoji,
            "canonical :{sc}: does not decode back to {emoji:?}"
        );
    }
}

#[test]
fn encode_basic() {
    assert_eq!(emoji_to_shortcodes(&table(), "😂"), ":joy:");
    assert_eq!(emoji_to_shortcodes(&table(), "hi 😂!"), "hi :joy:!");
    assert_eq!(emoji_to_shortcodes(&table(), "👍 ❤️"), ":+1: :heart:");
}

#[test]
fn encode_passthrough_plain_text() {
    let s = "no emoji here, just text 123 #hash *star C:\\path";
    assert_eq!(emoji_to_shortcodes(&table(), s), s);
}

#[test]
fn decode_basic() {
    assert_eq!(shortcodes_to_emoji(&table(), ":joy:"), "😂");
    assert_eq!(shortcodes_to_emoji(&table(), "hi :joy:!"), "hi 😂!");
    assert_eq!(shortcodes_to_emoji(&table(), ":thumbsup: :heart:"), "👍 ❤️");
}

#[test]
fn decode_accepts_aliases_and_cldr() {
    let joy = shortcodes_to_emoji(&table(), ":joy:");
    assert_eq!(shortcodes_to_emoji(&table(), ":face_with_tears_of_joy:"), joy);
    let up = shortcodes_to_emoji(&table(), ":thumbsup:");
    assert_eq!(shortcodes_to_emoji(&table(), ":+1:"), up);
}

#[test]
fn round_trip_common_set() {
    for e in ["😂", "👍", "🎉", "🔥", "🚀", "😀", "💯"] {
        let sc = emoji_to_shortcodes(&table(), e);
        assert_ne!(sc, e, "{e} did not encode");
        assert_eq!(shortcodes_to_emoji(&table(), &sc), e, "round-trip failed for {e}");
    }
}

#[test]
fn decode_leaves_unknown_and_stray_colons() {
    assert_eq!(
        shortcodes_to_emoji(&table(), ":notareal_shortcode:"),
        ":notareal_shortcode:"
    );
    assert_eq!(shortcodes_to_emoji(&table(), "10:30:00"), "10:30:00");
    assert_eq!(shortcodes_to_emoji(&table(), "C:\\path"), "C:\\path");
    assert_eq!(shortcodes_to_emoji(&table(), "ratio a:b"), "ratio a:b");
    assert_eq!(shortcodes_to_emoji(&table(), "http://x"), "http://x");
    assert_eq!(shortcodes_to_emoji(&table(), "::"), "::");
    assert_eq!(shortcodes_to_emoji(&table(), ""), "");
}

#[test]
fn decode_adjacent_and_recoverable_colons() {
    assert_eq!(shortcodes_to_emoji(&table(), ":zzznope:joy:"), ":zzznope😂");
    assert_eq!(shortcodes_to_emoji(&table(), ":joy::fire:"), "😂🔥");
    assert_eq!(shortcodes_to_emoji(&table(), ":::joy:"), "::😂");
}

#[test]
fn decode_skips_mirc_colour() {
    let input = "\u{3}04:joy:\u{3}";
    assert_eq!(shortcodes_to_emoji(&table(), input), "\u{3}04😂\u{3}");
    let input2 = "\u{3}04,01 hi :fire:";
    assert_eq!(shortcodes_to_emoji(&table(), input2), "\u{3}04,01 hi 🔥");
}

#[test]
fn encode_longest_match_wins() {
    let keycap = "#\u{fe0f}\u{20e3}";
    let sc = emoji_to_shortcodes(&table(), keycap);
    assert!(sc.starts_with(':') && sc.ends_with(':'), "got {sc:?}");
    assert_eq!(shortcodes_to_emoji(&table(), &sc), keycap);
}

#[test]
fn into_reports_full_length_and_truncates_at_boundary() {
    let mut big = [0u8; 64];
    let n = emoji_to_shortcodes_into(&table(), "😂".as_bytes(), &mut big);
    assert_eq!(n, ":joy:".len());
    assert_eq!(&big[..n], b":joy:");

    let mut small = [0u8; 3];
    let need = shortcodes_to_emoji_into(&table(), ":joy:".as_bytes(), &mut small);
    assert_eq!(need, "😂".len());
    assert!(need > small.len());
    assert_eq!(&small, &[0u8; 3]);

    let need2 = emoji_to_shortcodes_into(&table(), "👍".as_bytes(), &mut []);
    assert_eq!(need2, ":+1:".len());
}

#[test]
fn into_handles_invalid_utf8_lossily() {
    let mut buf = [0u8; 16];
    let n = emoji_to_shortcodes_into(&table(), &[0xFF, b'h', b'i'], &mut buf);
    assert!(n > 0);
}

#[test]
fn matches_basic_and_ranked() {
    let m = shortcode_matches(&table(), "joy", 8);
    assert_eq!(m[0].0, "joy");
    assert_eq!(m[0].1, "😂");
    assert!(m.iter().all(|(n, _)| n.starts_with("joy")));

    let m2 = shortcode_matches(&table(), "thumb", 3);
    assert!(m2.len() <= 3 && !m2.is_empty());
    assert!(m2.iter().all(|(n, _)| n.starts_with("thumb")));

    let m3 = shortcode_matches(&table(), "fire", 8);
    assert_eq!(m3[0].0, "fire");
    assert!(m3.windows(2).all(|w| w[0].0.len() <= w[1].0.len()));
}

#[test]
fn matches_empty_and_unknown() {
    assert!(shortcode_matches(&table(), "", 8).is_empty());
    assert!(shortcode_matches(&table(), "joy", 0).is_empty());
    assert!(shortcode_matches(&table(), "zzzznotaprefix", 8).is_empty());
}

#[test]
fn matches_finds_punctuation_aliases() {
    let m = shortcode_matches(&table(), "+", 8);
    assert!(m.iter().any(|(n, e)| *n == "+1" && *e == "👍"));
}

#[test]
fn encode_then_decode_mixed_message() {
    let msg = "great work 🎉 ship it 🚀!";
    let wire = emoji_to_shortcodes(&table(), msg);
    assert!(!wire.contains('🎉') && !wire.contains('🚀'));
    assert!(wire.is_ascii(), "wire form must be ASCII: {wire:?}");
    assert_eq!(shortcodes_to_emoji(&table(), &wire), msg);
}

#[test]
fn rows_out_of_order_make_no_table() {
    assert!(EmojiTable::new(&[("b", "x"), ("a", "y")], &[]).is_none());
    assert!(EmojiTable::new(&[], &[("a", "x"), ("a", "y")]).is_none());
    assert!(EmojiTable::new(&[], &[]).is_some());
}

#[test]
fn a_buffer_holds_whole_characters() {
    let mut dst = [0u8; 3];
    assert_eq!(emit("a\u{e9}\u{e9}", &mut dst), 5);
    assert_eq!(&dst, "a\u{e9}".as_bytes());
}

#[test]
fn bad_bytes_become_replacement_characters() {
    let mut dst = [0u8; 16];
    let n = shortcodes_to_emoji_into(&table(), &[0xff, b'h', b'i'], &mut dst);
    assert_eq!(&dst[..n], "\u{fffd}hi".as_bytes());
}

#[test]
fn colons_of_the_text_stay_unless_they_open_a_shortcode() {
    let said = "at 12:30: 😂 re: #1 :nope: \u{3}04,08fire 🔥::";
    let wire = emoji_to_shortcodes(&table(), said);
    assert_eq!(wire, "at 12:30: :joy: re: #1 :nope: \u{3}04,08fire :fire:::");
    assert_eq!(shortcodes_to_emoji(&table(), &wire), said);

    assert_eq!(emoji_to_shortcodes(&table(), ":joy:"), ":joy:");
    assert_eq!(shortcodes_to_emoji(&table(), ":joy:"), "😂");
}

#[test]
fn a_table_whose_shortcodes_mean_another_emoji_is_none() {
    let other = [("joy", "\u{1f639}")];
    assert!(EmojiTable::new(&[("\u{1f639}", "joy")], &other).is_some());
    assert!(EmojiTable::new(&[("\u{1f602}", "joy")], &other).is_none());
    assert!(EmojiTable::new(&[("\u{1f602}", "glee")], &other).is_none());
    assert!(EmojiTable::new(&[("\u{1f602}", "J O Y")], &other).is_none());
    assert!(EmojiTable::new(&[], &other).is_some());
}
