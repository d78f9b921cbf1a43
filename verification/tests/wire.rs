use hotline::wire::{Chunk, ChunkIter, Decoder, Encoder};
use hotline::HL_HDR_LEN;

#[test]
fn decoder_reads_big_endian() {
    let buf = [0x12, 0x34, 0x00, 0x00, 0x00, 0x01];
    let mut d = Decoder::new(&buf);
    assert_eq!(d.u16(), Some(0x1234));
    assert_eq!(d.u32(), Some(0x0000_0001));
    assert_eq!(d.u16(), None);
}

#[test]
fn decoder_short_read_is_none_not_panic() {
    let buf = [0x01];
    let mut d = Decoder::new(&buf);
    assert_eq!(d.u16(), None);
    assert_eq!(d.pos(), 0);
}

#[test]
fn chunk_as_uint_matches_dh_getint() {
    assert_eq!(
        Chunk {
            tag: 1,
            data: &[0x00, 0x00, 0x01, 0x02]
        }
        .as_uint(),
        0x102
    );
    assert_eq!(
        Chunk {
            tag: 1,
            data: &[0x01, 0x02]
        }
        .as_uint(),
        0x102
    );
    assert_eq!(
        Chunk {
            tag: 1,
            data: &[0x09]
        }
        .as_uint(),
        0
    );
}

#[test]
fn chunk_iter_walks_body() {
    let mut buf = vec![0u8; HL_HDR_LEN];
    buf.extend_from_slice(&[0x00, 0x67, 0x00, 0x02, 0xAB, 0xCD]);
    buf.extend_from_slice(&[0x00, 0x6e, 0x00, 0x04, 0x00, 0x00, 0x00, 0x01]);
    let chunks = ChunkIter::over_message(&buf, buf.len()).collect();
    assert_eq!(chunks.len(), 2);
    assert_eq!(chunks[0].tag, 0x0067);
    assert_eq!(chunks[0].as_uint(), 0xABCD);
    assert_eq!(chunks[1].tag, 0x006e);
    assert_eq!(chunks[1].as_uint(), 1);
}

#[test]
fn chunk_iter_stops_on_overlong_chunk() {
    let mut buf = vec![0u8; HL_HDR_LEN];
    buf.extend_from_slice(&[0x00, 0x67, 0x00, 0x63, 0xAB, 0xCD]);
    let chunks = ChunkIter::over_message(&buf, buf.len()).collect();
    assert_eq!(chunks.len(), 0);
}

#[test]
fn chunk_iter_respects_len_shorter_than_slice() {
    let mut buf = vec![0u8; HL_HDR_LEN];
    buf.extend_from_slice(&[0x00, 0x67, 0x00, 0x02, 0xAB, 0xCD]);
    let chunks = ChunkIter::over_message(&buf, HL_HDR_LEN).collect();
    assert_eq!(chunks.len(), 0);
}

#[test]
fn encoder_roundtrips_through_decoder() {
    let mut e = Encoder::new();
    e.put_u32(0x0000_0069).put_u16(2).put_chunk(0x0065, b"hi");
    let v = e.into_vec();
    let mut d = Decoder::new(&v);
    assert_eq!(d.u32(), Some(0x69));
    assert_eq!(d.u16(), Some(2));
    assert_eq!(d.u16(), Some(0x0065));
    assert_eq!(d.u16(), Some(2));
    assert_eq!(d.bytes(2), Some(&b"hi"[..]));
}

#[test]
fn decoder_reads_words_strings_and_places() {
    let buf = [0, 0, 0, 0, 0, 0, 1, 2, 3, b'a', b'b', b'c', 9];
    let mut d = Decoder::at(&buf, 0);
    assert_eq!(d.u64(), Some(0x102));
    assert_eq!(d.pstring(), Some(&b"abc"[..]));
    assert_eq!(d.remaining(), 1);
    assert_eq!(d.pstring(), None);
    assert_eq!(d.pos(), 12);
    assert_eq!(Decoder::at(&buf, 99).remaining(), 0);
}

#[test]
fn written_chunks_are_walked_back() {
    let mut e = Encoder::default();
    e.put_bytes(&[7; HL_HDR_LEN]);
    e.put_chunk(1, b"one");
    e.put_chunk(2, b"");
    e.put_chunk(1, b"three");
    let buf = e.into_vec();
    let got = ChunkIter::over_message(&buf, buf.len()).collect();
    assert_eq!(got.len(), 3);
    assert_eq!((got[0].tag, got[0].data), (1, &b"one"[..]));
    assert_eq!((got[1].tag, got[1].data), (2, &b""[..]));
    assert_eq!((got[2].tag, got[2].data), (1, &b"three"[..]));
    let mut from_second = ChunkIter::at(&buf, HL_HDR_LEN + 7);
    assert_eq!(from_second.next().map(|c| c.tag), Some(2));
    assert!(ChunkIter::at(&buf, 1000).next().is_none());
}

#[test]
fn a_cut_message_yields_whole_chunks_only() {
    let mut msg = vec![0u8; HL_HDR_LEN];
    msg.extend_from_slice(&[0, 1, 0, 3, 7, 8, 9, 0, 2, 0, 1, 5]);
    for n in 0..=msg.len() {
        let got = ChunkIter::over_message(&msg, n).collect();
        let whole = [HL_HDR_LEN + 7, HL_HDR_LEN + 12].iter().filter(|end| n >= **end).count();
        assert_eq!(got.len(), whole, "{n}");
        assert!(got.first().map_or(true, |c| c.data == [7, 8, 9]), "{n}");
    }
}
