use hotline::gif_icons::{
    build_icon_get_chunks, build_icon_set_chunks, is_gif, parse_icon_change, parse_icon_get_reply,
    parse_icon_list, parse_icon_list_entry,
};
use hotline::messages::tag;
use hotline::outgoing::HxChunk;
use hotline::wire::{ChunkIter, Encoder};
use hotline::HL_HDR_LEN;

fn header_padded(extra: &[u8]) -> Vec<u8> {
    let mut buf = vec![0u8; HL_HDR_LEN];
    buf.extend_from_slice(extra);
    buf
}

const TINY_GIF: &[u8] = &[
    0x47, 0x49, 0x46, 0x38, 0x39, 0x61, 0x01, 0x00, 0x01, 0x00, 0x80, 0x00, 0x00, 0x00, 0x00,
    0x00, 0xff, 0xff, 0xff, 0x21, 0xf9, 0x04, 0x00, 0x00, 0x00, 0x00, 0x00, 0x2c, 0x00, 0x00,
    0x00, 0x00, 0x01, 0x00, 0x01, 0x00, 0x00, 0x02, 0x02, 0x44, 0x01, 0x00, 0x3b,
];

fn packed_entry(uid: u16, gif: &[u8]) -> Vec<u8> {
    let mut v = Vec::new();
    v.extend_from_slice(&uid.to_be_bytes());
    v.extend_from_slice(&(gif.len() as u16).to_be_bytes());
    v.extend_from_slice(gif);
    v
}

#[test]
fn is_gif_accepts_both_signatures() {
    assert!(is_gif(b"GIF87a\x00\x00"));
    assert!(is_gif(b"GIF89a and more"));
    assert!(is_gif(TINY_GIF));
}

#[test]
fn is_gif_rejects_non_gif_and_short() {
    assert!(!is_gif(b"\x89PNG\r\n\x1a\n"));
    assert!(!is_gif(b"GIF8"));
    assert!(!is_gif(b""));
    assert!(!is_gif(b"GIF99a"));
}

#[test]
fn icon_list_entry_roundtrips() {
    let buf = packed_entry(1707, TINY_GIF);
    let e = parse_icon_list_entry(&buf).expect("valid entry");
    assert_eq!(e.uid, 1707);
    assert_eq!(e.gif, TINY_GIF);
}

#[test]
fn icon_list_entry_rejects_truncated_header() {
    assert!(parse_icon_list_entry(&[0x00, 0x01, 0x00]).is_none());
    assert!(parse_icon_list_entry(&[]).is_none());
}

#[test]
fn icon_list_entry_rejects_len_past_buffer() {
    let mut v = Vec::new();
    v.extend_from_slice(&7u16.to_be_bytes());
    v.extend_from_slice(&100u16.to_be_bytes());
    v.extend_from_slice(&[0xaa, 0xbb]);
    assert!(parse_icon_list_entry(&v).is_none());
}

#[test]
fn icon_list_entry_zero_length_gif_ok() {
    let buf = packed_entry(42, b"");
    let e = parse_icon_list_entry(&buf).expect("zero-len entry valid");
    assert_eq!(e.uid, 42);
    assert!(e.gif.is_empty());
}

#[test]
fn icon_list_walk_collects_every_entry() {
    let mut e = Encoder::new();
    e.put_chunk(tag::ICON_LIST, &packed_entry(1, b"GIF89a-one"));
    e.put_chunk(tag::ICON_LIST, &packed_entry(2, TINY_GIF));
    let buf = header_padded(e.as_slice());
    let got = parse_icon_list(ChunkIter::over_message(&buf, buf.len()));
    assert_eq!(got.len(), 2);
    assert_eq!(got[0].uid, 1);
    assert_eq!(got[0].gif, b"GIF89a-one");
    assert_eq!(got[1].uid, 2);
    assert_eq!(got[1].gif, TINY_GIF);
}

#[test]
fn icon_list_walk_skips_malformed_entries() {
    let mut e = Encoder::new();
    e.put_chunk(tag::ICON_LIST, &packed_entry(1, b"good"));
    e.put_chunk(tag::ICON_LIST, &[0x00, 0x02, 0xff, 0xff, 0x01]);
    e.put_chunk(tag::ICON_LIST, &packed_entry(3, b"also-good"));
    let buf = header_padded(e.as_slice());
    let got = parse_icon_list(ChunkIter::over_message(&buf, buf.len()));
    assert_eq!(got.len(), 2);
    assert_eq!(got[0].uid, 1);
    assert_eq!(got[1].uid, 3);
}

#[test]
fn icon_list_walk_ignores_other_tags() {
    let mut e = Encoder::new();
    e.put_chunk(tag::UID, &7u16.to_be_bytes());
    e.put_chunk(tag::ICON_LIST, &packed_entry(9, b"x"));
    let buf = header_padded(e.as_slice());
    let got = parse_icon_list(ChunkIter::over_message(&buf, buf.len()));
    assert_eq!(got.len(), 1);
    assert_eq!(got[0].uid, 9);
}

#[test]
fn icon_list_walk_empty_reply_is_empty() {
    let buf = header_padded(&[]);
    let got = parse_icon_list(ChunkIter::over_message(&buf, buf.len()));
    assert!(got.is_empty());
}

#[test]
fn icon_get_reply_parses_uid_and_gif() {
    let mut e = Encoder::new();
    e.put_chunk(tag::UID, &1708u16.to_be_bytes());
    e.put_chunk(tag::ICON_GIF, TINY_GIF);
    let buf = header_padded(e.as_slice());
    let r = parse_icon_get_reply(ChunkIter::over_message(&buf, buf.len())).expect("present");
    assert_eq!(r.uid, 1708);
    assert_eq!(r.gif, TINY_GIF);
}

#[test]
fn icon_get_reply_requires_uid_only() {
    let mut only_uid = Encoder::new();
    only_uid.put_chunk(tag::UID, &7u16.to_be_bytes());
    let buf = header_padded(only_uid.as_slice());
    let r = parse_icon_get_reply(ChunkIter::over_message(&buf, buf.len()))
        .expect("uid alone is a valid cleared reply");
    assert_eq!(r.uid, 7);
    assert!(r.gif.is_empty());

    let mut only_gif = Encoder::new();
    only_gif.put_chunk(tag::ICON_GIF, TINY_GIF);
    let buf = header_padded(only_gif.as_slice());
    assert!(parse_icon_get_reply(ChunkIter::over_message(&buf, buf.len())).is_none());
}

#[test]
fn icon_change_parses_uid() {
    let mut e = Encoder::new();
    e.put_chunk(tag::UID, &1706u16.to_be_bytes());
    let buf = header_padded(e.as_slice());
    assert_eq!(
        parse_icon_change(ChunkIter::over_message(&buf, buf.len())),
        Some(1706)
    );
}

#[test]
fn icon_change_none_when_uid_absent_or_malformed() {
    let buf = header_padded(&[]);
    assert!(parse_icon_change(ChunkIter::over_message(&buf, buf.len())).is_none());

    let mut wrong = Encoder::new();
    wrong.put_chunk(tag::UID, &[0x01]);
    let buf = header_padded(wrong.as_slice());
    assert!(parse_icon_change(ChunkIter::over_message(&buf, buf.len())).is_none());
}

#[test]
fn build_set_emits_gif_field() {
    let mut chunks = [HxChunk::empty(); 1];
    let n = build_icon_set_chunks(TINY_GIF, &mut chunks);
    assert_eq!(n, 1);
    assert_eq!(chunks[0].tag, tag::ICON_GIF);
    assert_eq!(chunks[0].len as usize, TINY_GIF.len());
}

#[test]
fn build_set_clear_emits_empty_field() {
    let mut chunks = [HxChunk::empty(); 1];
    let n = build_icon_set_chunks(b"", &mut chunks);
    assert_eq!(n, 1);
    assert_eq!(chunks[0].tag, tag::ICON_GIF);
    assert_eq!(chunks[0].len, 0);
}

#[test]
fn build_set_rejects_oversize_and_no_room() {
    let mut chunks = [HxChunk::empty(); 1];
    let huge = vec![0u8; u16::MAX as usize + 1];
    assert_eq!(build_icon_set_chunks(&huge, &mut chunks), 0);
    let mut empty: [HxChunk; 0] = [];
    assert_eq!(build_icon_set_chunks(TINY_GIF, &mut empty), 0);
}

#[test]
fn build_get_emits_uid_be() {
    let mut chunks = [HxChunk::empty(); 1];
    let mut scratch = [0u8; 2];
    let n = build_icon_get_chunks(0x1234, &mut chunks, &mut scratch);
    assert_eq!(n, 1);
    assert_eq!(chunks[0].tag, tag::UID);
    assert_eq!(chunks[0].len, 2);
    assert_eq!(&scratch, &[0x12, 0x34]);
}

#[test]
fn build_get_rejects_undersized_buffers() {
    let mut chunks = [HxChunk::empty(); 1];
    let mut tiny = [0u8; 1];
    assert_eq!(build_icon_get_chunks(1, &mut chunks, &mut tiny), 0);
}
