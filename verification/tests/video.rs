use hotline::messages::tag;
use hotline::outgoing::HxChunk;
use hotline::video::{
    build_video_start_chunks, build_video_state_chunks, build_video_stop_chunks,
    build_video_subscribe_chunks, parse_video_publishers, parse_video_reply,
    parse_video_subscriptions, video_subscribe_scratch_len, Limits, Stream, VideoKind, VideoTags,
    ACCESS_SCREEN_SHARE, ACCESS_VIDEO_CHAT, CAP_VIDEO, CODEC_VP8,
};
use hotline::HL_HDR_LEN;

const TAGS: VideoTags =
    VideoTags {
        kind: 0x0301,
        paused: 0x0302,
        subscriptions: 0x0303,
        codec: 0x0304,
        publishers: 0x0305,
    };

fn frame(payload: &[u8]) -> Vec<u8> {
    let mut v = vec![0u8; HL_HDR_LEN];
    v.extend_from_slice(payload);
    v
}

fn chunk(tag: u16, data: &[u8]) -> Vec<u8> {
    let mut v = Vec::with_capacity(4 + data.len());
    v.extend_from_slice(&tag.to_be_bytes());
    v.extend_from_slice(&(data.len() as u16).to_be_bytes());
    v.extend_from_slice(data);
    v
}

#[test]
fn kind_zero_and_reserved_are_rejected() {
    assert_eq!(VideoKind::from_wire(0), None);
    assert_eq!(VideoKind::from_wire(1), Some(VideoKind::Camera));
    assert_eq!(VideoKind::from_wire(2), Some(VideoKind::Screen));
    assert_eq!(VideoKind::from_wire(3), None, "screen audio is reserved");
    assert_eq!(VideoKind::Camera.wire(), 1);
    assert_eq!(VideoKind::Screen.wire(), 2);
}

#[test]
fn capability_and_access_bits_match_spec() {
    assert_eq!(CAP_VIDEO, 0x0400);
    assert_eq!(ACCESS_VIDEO_CHAT, 59);
    assert_eq!(ACCESS_SCREEN_SHARE, 60);
}

#[test]
fn publishers_blob_matches_the_spec_bytes() {
    let blob = [0, 12, 0, 1, 0, 0, 0, 0, 0, 12, 0, 2, 0, 1, 0, 0];
    let ps = parse_video_publishers(&blob);
    assert_eq!(ps.len(), 2);
    assert_eq!(ps[0].user_id, 12);
    assert_eq!(ps[0].kind, VideoKind::Camera);
    assert!(!ps[0].is_paused());
    assert_eq!(ps[1].kind, VideoKind::Screen);
    assert!(ps[1].is_paused());
    assert_eq!(ps[1].codec_id, CODEC_VP8);
    let back: Vec<u8> = ps.iter().flat_map(|p| p.to_bytes()).collect();
    assert_eq!(back, blob);
}

#[test]
fn publishers_ignore_partial_and_reserved_entries() {
    let blob = [
        0, 7, 0, 1, 0, 0, 0, 0, 0, 8, 0, 3, 0, 0, 0, 0, 0, 9, 0, 1, 0,
    ];
    let ps = parse_video_publishers(&blob);
    assert_eq!(ps.len(), 1);
    assert_eq!(ps[0].user_id, 7);
    assert_eq!(parse_video_publishers(&[]).len(), 0);
}

#[test]
fn limits_parse_accepts_longer_fields() {
    let l = Limits {
        kind: VideoKind::Screen,
        max_width: 1920,
        max_height: 1080,
        max_fps: 15,
        max_bitrate: 2_500_000,
        max_per_room: 1,
    };
    let b = l.to_bytes();
    assert_eq!(&b[14..16], &[0, 0], "reserved pair is zero");
    assert_eq!(Limits::parse(&b), Some(l));
    let mut longer = b.to_vec();
    longer.extend_from_slice(&[0xde, 0xad, 0xbe, 0xef]);
    assert_eq!(Limits::parse(&longer), Some(l));
    assert_eq!(Limits::parse(&b[..15]), None);
    let mut kind0 = b;
    kind0[1] = 0;
    assert_eq!(Limits::parse(&kind0), None);
}

#[test]
fn start_builds_chat_id_and_kind() {
    let mut chunks = [HxChunk::empty(); 2];
    let mut scratch = [0u8; 6];
    let hc = build_video_start_chunks(&TAGS, 42, VideoKind::Screen, &mut chunks, &mut scratch);
    assert_eq!(hc, 2);
    assert_eq!(chunks[0].tag, tag::CHAT_ID);
    assert_eq!(chunks[0].bytes(&scratch), &42u32.to_be_bytes());
    assert_eq!(chunks[1].tag, TAGS.kind);
    assert_eq!(chunks[1].bytes(&scratch), &[0, 2]);
    let mut short = [0u8; 5];
    assert_eq!(
        build_video_start_chunks(&TAGS, 42, VideoKind::Camera, &mut chunks, &mut short),
        0
    );
}

#[test]
fn stop_omits_kind_to_stop_everything() {
    let mut chunks = [HxChunk::empty(); 2];
    let mut scratch = [0u8; 6];
    assert_eq!(
        build_video_stop_chunks(&TAGS, 7, None, &mut chunks, &mut scratch),
        1
    );
    assert_eq!(chunks[0].tag, tag::CHAT_ID);
    let hc = build_video_stop_chunks(&TAGS, 7, Some(VideoKind::Camera), &mut chunks, &mut scratch);
    assert_eq!(hc, 2);
    assert_eq!(chunks[1].bytes(&scratch), &[0, 1]);
}

#[test]
fn state_carries_the_paused_word() {
    let mut chunks = [HxChunk::empty(); 3];
    let mut scratch = [0u8; 8];
    let hc = build_video_state_chunks(&TAGS, 1, VideoKind::Camera, true, &mut chunks, &mut scratch);
    assert_eq!(hc, 3);
    assert_eq!(chunks[2].tag, TAGS.paused);
    assert_eq!(chunks[2].bytes(&scratch), &[0, 1]);
    build_video_state_chunks(&TAGS, 1, VideoKind::Camera, false, &mut chunks, &mut scratch);
    assert_eq!(chunks[2].bytes(&scratch), &[0, 0]);
}

#[test]
fn subscribe_round_trips_through_the_server_reading() {
    let want = [
        Stream {
            user_id: 5,
            kind: VideoKind::Camera,
        },
        Stream {
            user_id: 9,
            kind: VideoKind::Screen,
        },
    ];
    let mut chunks = [HxChunk::empty(); 2];
    let mut scratch = vec![0u8; video_subscribe_scratch_len(want.len())];
    let hc = build_video_subscribe_chunks(&TAGS, 3, &want, &mut chunks, &mut scratch);
    assert_eq!(hc, 2);
    assert_eq!(chunks[1].tag, TAGS.subscriptions);
    assert_eq!(chunks[1].bytes(&scratch), &[0, 5, 0, 1, 0, 9, 0, 2]);
    let back = parse_video_subscriptions(chunks[1].bytes(&scratch));
    assert_eq!(back, want);
}

#[test]
fn subscribe_empty_set_is_a_zero_length_field() {
    let mut chunks = [HxChunk::empty(); 2];
    let mut scratch = [0u8; 4];
    let hc = build_video_subscribe_chunks(&TAGS, 3, &[], &mut chunks, &mut scratch);
    assert_eq!(hc, 2);
    assert_eq!(chunks[1].len, 0);
}

#[test]
fn subscribe_rejects_short_scratch() {
    let one = [Stream {
        user_id: 1,
        kind: VideoKind::Camera,
    }];
    let mut chunks = [HxChunk::empty(); 2];
    let mut scratch = [0u8; 7];
    assert_eq!(
        build_video_subscribe_chunks(&TAGS, 3, &one, &mut chunks, &mut scratch),
        0
    );
}

#[test]
fn status_parse_extracts_every_field() {
    let mut body = Vec::new();
    body.extend(chunk(tag::CHAT_ID, &77u32.to_be_bytes()));
    body.extend(chunk(TAGS.publishers, &[0, 4, 0, 1, 0, 0, 0, 0]));
    body.extend(chunk(TAGS.codec, b"VP8"));
    let buf = frame(&body);
    let r = parse_video_reply(&TAGS, &buf, buf.len());
    assert_eq!(r.cid, 77);
    assert_eq!(r.codec, Some(&b"VP8"[..]));
    assert_eq!(parse_video_publishers(r.publishers.unwrap()).len(), 1);
    assert_eq!(r.kind, None);
}

#[test]
fn reply_kind_must_be_two_bytes() {
    let mut body = Vec::new();
    body.extend(chunk(TAGS.kind, &[0, 2]));
    let buf = frame(&body);
    assert_eq!(parse_video_reply(&TAGS, &buf, buf.len()).kind, Some(2));
    let mut body = Vec::new();
    body.extend(chunk(TAGS.kind, &[0, 1, 0, 1]));
    let buf = frame(&body);
    assert_eq!(parse_video_reply(&TAGS, &buf, buf.len()).kind, None);
}

#[test]
fn an_entry_of_an_undefined_kind_changes_nothing() {
    let a = [0, 1, 0, 1, 0, 0, 0, 1];
    let b = [0, 2, 0, 2, 0, 1, 0, 1];
    let undefined = [0, 3, 0, 9, 0, 0, 0, 1];
    let plain = parse_video_publishers(&[a, b].concat());
    assert_eq!(plain.len(), 2);
    assert_eq!(parse_video_publishers(&[undefined, a, b].concat()), plain);
    assert_eq!(parse_video_publishers(&[a, undefined, b].concat()), plain);
    assert_eq!(parse_video_publishers(&[a, b, undefined].concat()), plain);
}
