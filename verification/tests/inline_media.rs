use hotline::inline_media::{
    build_download_media_chunks, build_upload_media_first_chunks,
    build_upload_media_followup_chunks, build_upload_media_single_chunks, extract_chat_media_meta,
    extract_error_code, extract_limits_from_message, parse_download_reply,
    parse_upload_final_reply, parse_upload_token_reply, DownloadMedia, LimitsAdvertisement,
    MediaErrorCode, MediaMetaError, UploadMediaFirst, UploadMediaFollowup, UploadMediaSingle,
};
use hotline::messages::tag;
use hotline::outgoing::HxChunk;
use hotline::wire::{ChunkIter, Encoder};
use hotline::HL_HDR_LEN;

fn header_padded(extra: &[u8]) -> Vec<u8> {
    let mut buf = vec![0u8; HL_HDR_LEN];
    buf.extend_from_slice(extra);
    buf
}

fn empty_chunks_array<'a, const N: usize>() -> [HxChunk<'a>; N] {
    [HxChunk::empty(); N]
}

#[test]
fn error_code_roundtrip_known_values() {
    assert_eq!(MediaErrorCode::from_u16(0), MediaErrorCode::Generic);
    assert_eq!(MediaErrorCode::from_u16(1), MediaErrorCode::PayloadTooLarge);
    assert_eq!(
        MediaErrorCode::from_u16(2),
        MediaErrorCode::UnsupportedFormat
    );
    assert_eq!(MediaErrorCode::from_u16(3), MediaErrorCode::RateLimited);
    assert_eq!(MediaErrorCode::from_u16(4), MediaErrorCode::NotAuthorized);
    assert_eq!(MediaErrorCode::from_u16(5), MediaErrorCode::ServerBusy);
    assert_eq!(MediaErrorCode::Generic.as_u16(), 0);
    assert_eq!(MediaErrorCode::ServerBusy.as_u16(), 5);
}

#[test]
fn error_code_unknown_collapses_to_generic() {
    assert_eq!(MediaErrorCode::from_u16(6), MediaErrorCode::Generic);
    assert_eq!(MediaErrorCode::from_u16(0xffff), MediaErrorCode::Generic);
}

#[test]
fn limits_walk_picks_up_every_field() {
    let mut e = Encoder::new();
    e.put_chunk(tag::CHAT_MEDIA_MAX_BYTES, &(262_144u32).to_be_bytes());
    e.put_chunk(tag::CHAT_MEDIA_MAX_DIMENSION, &(2048u32).to_be_bytes());
    e.put_chunk(tag::CHAT_MEDIA_MAX_PIXELS, &(4_194_304u32).to_be_bytes());
    e.put_chunk(tag::CHAT_MEDIA_CHUNK_SIZE, &(60_000u32).to_be_bytes());
    e.put_chunk(tag::CHAT_MEDIA_MAX_FRAMES, &(150u32).to_be_bytes());
    e.put_chunk(tag::CHAT_MEDIA_MAX_DURATION_MS, &(15_000u32).to_be_bytes());
    let buf = header_padded(e.as_slice());
    let limits = extract_limits_from_message(&buf, buf.len());
    assert_eq!(limits.max_bytes, Some(262_144));
    assert_eq!(limits.max_dimension, Some(2048));
    assert_eq!(limits.max_pixels, Some(4_194_304));
    assert_eq!(limits.chunk_size, Some(60_000));
    assert_eq!(limits.max_frames, Some(150));
    assert_eq!(limits.max_duration_ms, Some(15_000));
    assert!(limits.any());
}

#[test]
fn limits_walk_tolerates_absent_fields() {
    let mut e = Encoder::new();
    e.put_chunk(tag::CHAT_MEDIA_MAX_BYTES, &(1024u32).to_be_bytes());
    let buf = header_padded(e.as_slice());
    let limits = extract_limits_from_message(&buf, buf.len());
    assert_eq!(limits.max_bytes, Some(1024));
    assert_eq!(limits.max_dimension, None);
    assert_eq!(limits.max_pixels, None);
    assert_eq!(limits.chunk_size, None);
    assert_eq!(limits.max_frames, None);
    assert_eq!(limits.max_duration_ms, None);
    assert!(limits.any());
}

#[test]
fn limits_walk_empty_is_empty_advertisement() {
    let buf = header_padded(&[]);
    let limits = extract_limits_from_message(&buf, buf.len());
    assert_eq!(limits, LimitsAdvertisement::default());
    assert!(!limits.any());
}

#[test]
fn limits_walk_rejects_wrong_width_chunks() {
    let mut e = Encoder::new();
    e.put_chunk(tag::CHAT_MEDIA_MAX_BYTES, &[0x01, 0x02]);
    let buf = header_padded(e.as_slice());
    let limits = extract_limits_from_message(&buf, buf.len());
    assert_eq!(limits.max_bytes, None);
}

#[test]
fn chat_media_meta_with_full_metadata() {
    let mut e = Encoder::new();
    e.put_chunk(tag::BODY, b"hi");
    e.put_chunk(tag::CHAT_MEDIA_ID, b"opaque-handle-bytes");
    e.put_chunk(tag::CHAT_MEDIA_TYPE, b"image/png");
    e.put_chunk(tag::CHAT_MEDIA_WIDTH, &(800u32).to_be_bytes());
    e.put_chunk(tag::CHAT_MEDIA_HEIGHT, &(600u32).to_be_bytes());
    e.put_chunk(tag::CHAT_MEDIA_BYTES, &(124_000u32).to_be_bytes());
    let buf = header_padded(e.as_slice());
    let meta = extract_chat_media_meta(ChunkIter::over_message(&buf, buf.len()))
        .expect("paired fields parse")
        .expect("media present");
    assert_eq!(meta.id, b"opaque-handle-bytes");
    assert_eq!(meta.type_, b"image/png");
    assert_eq!(meta.width, Some(800));
    assert_eq!(meta.height, Some(600));
    assert_eq!(meta.bytes, Some(124_000));
}

#[test]
fn chat_media_meta_absent_when_neither_present() {
    let mut e = Encoder::new();
    e.put_chunk(tag::BODY, b"plain chat");
    let buf = header_padded(e.as_slice());
    let meta = extract_chat_media_meta(ChunkIter::over_message(&buf, buf.len()))
        .expect("no media is OK");
    assert!(meta.is_none());
}

#[test]
fn chat_media_meta_rejects_orphan_id() {
    let mut e = Encoder::new();
    e.put_chunk(tag::BODY, b"hi");
    e.put_chunk(tag::CHAT_MEDIA_ID, b"orphan-handle");
    let buf = header_padded(e.as_slice());
    let err = extract_chat_media_meta(ChunkIter::over_message(&buf, buf.len()))
        .expect_err("missing TYPE companion rejects");
    assert_eq!(err, MediaMetaError::OnlyOnePresent);
}

#[test]
fn chat_media_meta_rejects_orphan_type() {
    let mut e = Encoder::new();
    e.put_chunk(tag::CHAT_MEDIA_TYPE, b"image/png");
    let buf = header_padded(e.as_slice());
    let err = extract_chat_media_meta(ChunkIter::over_message(&buf, buf.len()))
        .expect_err("missing ID companion rejects");
    assert_eq!(err, MediaMetaError::OnlyOnePresent);
}

#[test]
fn upload_single_builds_payload_plus_final() {
    let mut chunks = empty_chunks_array::<3>();
    let mut scratch = [0u8; 1];
    let req = UploadMediaSingle {
        payload: b"\x89PNG\r\n\x1a\nfake-png-bytes",
        declared_type: None,
    };
    let n = build_upload_media_single_chunks(&req, &mut chunks, &mut scratch);
    assert_eq!(n, 2);
    assert_eq!(chunks[0].tag, tag::CHAT_MEDIA_PAYLOAD);
    assert_eq!(chunks[0].len as usize, req.payload.len());
    assert_eq!(chunks[1].tag, tag::CHAT_MEDIA_PART_FINAL);
    assert_eq!(chunks[1].len, 1);
    assert_eq!(scratch[0], 1);
}

#[test]
fn upload_single_with_declared_type() {
    let mut chunks = empty_chunks_array::<3>();
    let mut scratch = [0u8; 1];
    let req = UploadMediaSingle {
        payload: b"fake-bytes",
        declared_type: Some(b"image/png"),
    };
    let n = build_upload_media_single_chunks(&req, &mut chunks, &mut scratch);
    assert_eq!(n, 3);
    assert_eq!(chunks[0].tag, tag::CHAT_MEDIA_PAYLOAD);
    assert_eq!(chunks[1].tag, tag::CHAT_MEDIA_DECLARED_TYPE);
    assert_eq!(chunks[2].tag, tag::CHAT_MEDIA_PART_FINAL);
}

#[test]
fn upload_single_rejects_empty_payload() {
    let mut chunks = empty_chunks_array::<3>();
    let mut scratch = [0u8; 1];
    let req = UploadMediaSingle {
        payload: b"",
        declared_type: None,
    };
    assert_eq!(
        build_upload_media_single_chunks(&req, &mut chunks, &mut scratch),
        0
    );
}

#[test]
fn upload_single_treats_empty_declared_as_absent() {
    let mut chunks = empty_chunks_array::<3>();
    let mut scratch = [0u8; 1];
    let req = UploadMediaSingle {
        payload: b"fake",
        declared_type: Some(b""),
    };
    let n = build_upload_media_single_chunks(&req, &mut chunks, &mut scratch);
    assert_eq!(n, 2);
    assert_eq!(chunks[1].tag, tag::CHAT_MEDIA_PART_FINAL);
}

#[test]
fn upload_single_rejects_undersized_chunks_slice() {
    let mut chunks = empty_chunks_array::<2>();
    let mut scratch = [0u8; 1];
    let req = UploadMediaSingle {
        payload: b"fake",
        declared_type: None,
    };
    assert_eq!(
        build_upload_media_single_chunks(&req, &mut chunks, &mut scratch),
        0
    );
}

#[test]
fn upload_first_builds_with_count() {
    let mut chunks = empty_chunks_array::<5>();
    let mut scratch = [0u8; 5];
    let req = UploadMediaFirst {
        payload: b"first-chunk-bytes",
        declared_type: None,
        part_count: 4,
    };
    let n = build_upload_media_first_chunks(&req, &mut chunks, &mut scratch);
    assert_eq!(n, 4);
    assert_eq!(chunks[0].tag, tag::CHAT_MEDIA_PAYLOAD);
    assert_eq!(chunks[1].tag, tag::CHAT_MEDIA_PART_INDEX);
    assert_eq!(chunks[2].tag, tag::CHAT_MEDIA_PART_COUNT);
    assert_eq!(chunks[3].tag, tag::CHAT_MEDIA_PART_FINAL);
    assert_eq!(&scratch[0..2], &[0, 0]);
    assert_eq!(&scratch[2..4], &[0, 4]);
    assert_eq!(scratch[4], 0);
}

#[test]
fn upload_first_rejects_part_count_under_two() {
    let mut chunks = empty_chunks_array::<5>();
    let mut scratch = [0u8; 5];
    let req = UploadMediaFirst {
        payload: b"x",
        declared_type: None,
        part_count: 1,
    };
    assert_eq!(
        build_upload_media_first_chunks(&req, &mut chunks, &mut scratch),
        0
    );
}

#[test]
fn upload_followup_final_chunk_sets_final_byte() {
    let mut chunks = empty_chunks_array::<4>();
    let mut scratch = [0u8; 3];
    let req = UploadMediaFollowup {
        upload_token: b"token-bytes",
        payload: b"last-chunk",
        part_index: 3,
        final_chunk: true,
    };
    let n = build_upload_media_followup_chunks(&req, &mut chunks, &mut scratch);
    assert_eq!(n, 4);
    assert_eq!(chunks[0].tag, tag::CHAT_MEDIA_UPLOAD_TOKEN);
    assert_eq!(chunks[1].tag, tag::CHAT_MEDIA_PART_INDEX);
    assert_eq!(chunks[2].tag, tag::CHAT_MEDIA_PAYLOAD);
    assert_eq!(chunks[3].tag, tag::CHAT_MEDIA_PART_FINAL);
    assert_eq!(&scratch[0..2], &[0, 3]);
    assert_eq!(scratch[2], 1);
}

#[test]
fn upload_followup_rejects_part_index_zero() {
    let mut chunks = empty_chunks_array::<4>();
    let mut scratch = [0u8; 3];
    let req = UploadMediaFollowup {
        upload_token: b"tok",
        payload: b"data",
        part_index: 0,
        final_chunk: false,
    };
    assert_eq!(
        build_upload_media_followup_chunks(&req, &mut chunks, &mut scratch),
        0
    );
}

#[test]
fn upload_followup_rejects_empty_token() {
    let mut chunks = empty_chunks_array::<4>();
    let mut scratch = [0u8; 3];
    let req = UploadMediaFollowup {
        upload_token: b"",
        payload: b"data",
        part_index: 1,
        final_chunk: false,
    };
    assert_eq!(
        build_upload_media_followup_chunks(&req, &mut chunks, &mut scratch),
        0
    );
}

#[test]
fn download_first_request_omits_part_index() {
    let mut chunks = empty_chunks_array::<2>();
    let mut scratch = [0u8; 2];
    let req = DownloadMedia {
        media_id: b"handle",
        part_index: None,
    };
    let n = build_download_media_chunks(&req, &mut chunks, &mut scratch);
    assert_eq!(n, 1);
    assert_eq!(chunks[0].tag, tag::CHAT_MEDIA_ID);
}

#[test]
fn download_followup_includes_part_index() {
    let mut chunks = empty_chunks_array::<2>();
    let mut scratch = [0u8; 2];
    let req = DownloadMedia {
        media_id: b"handle",
        part_index: Some(2),
    };
    let n = build_download_media_chunks(&req, &mut chunks, &mut scratch);
    assert_eq!(n, 2);
    assert_eq!(chunks[0].tag, tag::CHAT_MEDIA_ID);
    assert_eq!(chunks[1].tag, tag::CHAT_MEDIA_PART_INDEX);
    assert_eq!(&scratch[0..2], &[0, 2]);
}

#[test]
fn download_rejects_empty_handle() {
    let mut chunks = empty_chunks_array::<2>();
    let mut scratch = [0u8; 2];
    let req = DownloadMedia {
        media_id: b"",
        part_index: None,
    };
    assert_eq!(
        build_download_media_chunks(&req, &mut chunks, &mut scratch),
        0
    );
}

#[test]
fn upload_final_reply_parses_handle_and_metadata() {
    let mut e = Encoder::new();
    e.put_chunk(tag::CHAT_MEDIA_ID, b"opaque-handle");
    e.put_chunk(tag::CHAT_MEDIA_TYPE, b"image/png");
    e.put_chunk(tag::CHAT_MEDIA_WIDTH, &(1024u32).to_be_bytes());
    e.put_chunk(tag::CHAT_MEDIA_HEIGHT, &(768u32).to_be_bytes());
    e.put_chunk(tag::CHAT_MEDIA_BYTES, &(98_765u32).to_be_bytes());
    let buf = header_padded(e.as_slice());
    let reply =
        parse_upload_final_reply(ChunkIter::over_message(&buf, buf.len())).expect("present");
    assert_eq!(reply.media_id, b"opaque-handle");
    assert_eq!(reply.media_type, b"image/png");
    assert_eq!(reply.width, Some(1024));
    assert_eq!(reply.height, Some(768));
    assert_eq!(reply.bytes, Some(98_765));
}

#[test]
fn upload_final_reply_rejects_missing_id() {
    let mut e = Encoder::new();
    e.put_chunk(tag::CHAT_MEDIA_TYPE, b"image/png");
    let buf = header_padded(e.as_slice());
    let reply = parse_upload_final_reply(ChunkIter::over_message(&buf, buf.len()));
    assert!(reply.is_none());
}

#[test]
fn upload_token_reply_extracts_token() {
    let mut e = Encoder::new();
    e.put_chunk(tag::CHAT_MEDIA_UPLOAD_TOKEN, b"token-12345");
    let buf = header_padded(e.as_slice());
    let token =
        parse_upload_token_reply(ChunkIter::over_message(&buf, buf.len())).expect("present");
    assert_eq!(token, b"token-12345");
}

#[test]
fn upload_token_reply_none_when_absent() {
    let buf = header_padded(&[]);
    assert!(parse_upload_token_reply(ChunkIter::over_message(&buf, buf.len())).is_none());
}

#[test]
fn download_reply_parses_single_shot_chunk() {
    let mut e = Encoder::new();
    e.put_chunk(tag::CHAT_MEDIA_PAYLOAD, b"\x89PNG\r\n\x1ametablob");
    e.put_chunk(tag::CHAT_MEDIA_TYPE, b"image/png");
    e.put_chunk(tag::CHAT_MEDIA_PART_COUNT, &(1u16).to_be_bytes());
    e.put_chunk(tag::CHAT_MEDIA_PART_FINAL, &[1u8]);
    let buf = header_padded(e.as_slice());
    let reply =
        parse_download_reply(ChunkIter::over_message(&buf, buf.len())).expect("present");
    assert_eq!(reply.payload, b"\x89PNG\r\n\x1ametablob");
    assert_eq!(reply.media_type, b"image/png");
    assert_eq!(reply.part_count, 1);
    assert!(reply.final_chunk);
}

#[test]
fn download_reply_defaults_part_count_when_absent() {
    let mut e = Encoder::new();
    e.put_chunk(tag::CHAT_MEDIA_PAYLOAD, b"data");
    e.put_chunk(tag::CHAT_MEDIA_TYPE, b"image/jpeg");
    let buf = header_padded(e.as_slice());
    let reply =
        parse_download_reply(ChunkIter::over_message(&buf, buf.len())).expect("present");
    assert_eq!(reply.part_count, 1);
    assert!(!reply.final_chunk);
}

#[test]
fn download_reply_rejects_missing_payload() {
    let mut e = Encoder::new();
    e.put_chunk(tag::CHAT_MEDIA_TYPE, b"image/png");
    let buf = header_padded(e.as_slice());
    assert!(parse_download_reply(ChunkIter::over_message(&buf, buf.len())).is_none());
}

#[test]
fn extract_error_code_picks_up_when_present() {
    let mut e = Encoder::new();
    e.put_chunk(tag::TASK_ERROR, b"Media rejected");
    e.put_chunk(tag::CHAT_MEDIA_ERROR_CODE, &(1u16).to_be_bytes());
    let buf = header_padded(e.as_slice());
    let code = extract_error_code(ChunkIter::over_message(&buf, buf.len()));
    assert_eq!(code, MediaErrorCode::PayloadTooLarge);
}

#[test]
fn extract_error_code_defaults_to_generic_when_absent() {
    let mut e = Encoder::new();
    e.put_chunk(tag::TASK_ERROR, b"Media rejected");
    let buf = header_padded(e.as_slice());
    let code = extract_error_code(ChunkIter::over_message(&buf, buf.len()));
    assert_eq!(code, MediaErrorCode::Generic);
}
