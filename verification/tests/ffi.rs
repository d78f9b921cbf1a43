use hotline::ffi::pack::{
    gtkhx_proto_capabilities_decode, gtkhx_proto_decode_header, gtkhx_proto_header_in_error,
    gtkhx_proto_header_trans, gtkhx_proto_htxf_hdr_pack, gtkhx_proto_pack_header, gtkhx_proto_pack_message,
    gtkhx_proto_pack_message_size,
};
use hotline::ffi::receive::{
    gtkhx_proto_catlist_part_get, gtkhx_proto_catlist_post_count, gtkhx_proto_catlist_post_get,
    gtkhx_proto_parse_account_read, gtkhx_proto_parse_agreement, gtkhx_proto_parse_banner,
    gtkhx_proto_parse_chat, gtkhx_proto_parse_chat_invite, gtkhx_proto_parse_chat_subject,
    gtkhx_proto_parse_file_getinfo, gtkhx_proto_parse_history_entry, gtkhx_proto_parse_msg,
    gtkhx_proto_parse_login, gtkhx_proto_parse_news_file, gtkhx_proto_parse_news_thread_reply,
    gtkhx_proto_parse_selfinfo, gtkhx_proto_parse_task_error,
    gtkhx_proto_parse_user_change, gtkhx_proto_parse_user_info, gtkhx_proto_parse_user_list_record,
    gtkhx_proto_walk_news_post, write_cstr, write_news_dir, CatList, CatListPart,
    CatListPost, NewsDirEntry, NewsDirKind, SelfInfo, HX_AGREEMENT_MISSING_FFI,
    HX_AGREEMENT_NONE_FFI, HX_AGREEMENT_OK_FFI,
};
use hotline::ffi::send::{
    gtkhx_proto_build_broadcast_chunks, gtkhx_proto_build_chat_chunks,
    gtkhx_proto_build_chat_join_chunks, gtkhx_proto_build_msg_chunks,
    hx_get_chat_history_build_chunks,
};
use hotline::ffi::tracker::{
    gtkhx_proto_tracker_normalize_text, gtkhx_proto_tracker_record_is_padding,
    gtkhx_proto_tracker_v3_meta_clamp_listing_category, gtkhx_proto_tracker_v3_meta_clamp_maturity,
    gtkhx_proto_tracker_v3_meta_read_bool, gtkhx_proto_tracker_v3_meta_read_i16,
    gtkhx_proto_tracker_v3_meta_read_u16, gtkhx_proto_tracker_v3_meta_read_u32,
    gtkhx_proto_tracker_v3_meta_read_u8, gtkhx_proto_tracker_v3_pack_handshake,
    gtkhx_proto_tracker_v3_parse_handshake_response, gtkhx_proto_tracker_v3_parse_response_header,
    gtkhx_proto_tracker_v3_parse_tlv_at,
};
use hotline::messages::{tag, NICK_COLOR_NONE};
use hotline::outgoing::HxChunk;
use hotline::wire::{ChunkIter, Encoder};
use hotline::HL_HDR_LEN;

const MAX_CHUNKS: u16 = 64;

#[test]
fn htxf_hdr_pack_ffi_rejects_undersized_buffer_before_slice_build() {
    let mut buf = [0xabu8; 8];
    let copy = buf;
    assert!(!gtkhx_proto_htxf_hdr_pack(&mut buf, 1, 2, 3, 4));
    assert_eq!(buf, copy);
}

#[test]
fn htxf_hdr_pack_ffi_zero_cap_rejected() {
    let mut buf = [0xffu8; 1];
    assert!(!gtkhx_proto_htxf_hdr_pack(&mut buf[..0], 1, 2, 3, 4));
    assert_eq!(buf, [0xffu8; 1]);
}

#[test]
fn htxf_hdr_pack_ffi_exact_size_writes() {
    let mut buf = [0u8; 16];
    assert!(gtkhx_proto_htxf_hdr_pack(&mut buf, 0xdeadbeef, 0x12345678, 0xcafe, 0x0001));
    assert_eq!(&buf[0..4], b"HTXF");
    assert_eq!(&buf[4..8], &0xdeadbeef_u32.to_be_bytes());
    assert_eq!(&buf[8..12], &0x12345678_u32.to_be_bytes());
    assert_eq!(&buf[12..16], &0xcafe0001_u32.to_be_bytes());
}

#[test]
fn pack_message_size_ffi_null_chunks_with_zero_len_returns_header_size() {
    assert_eq!(gtkhx_proto_pack_message_size(&[], MAX_CHUNKS), 22);
}

#[test]
fn pack_message_ffi_null_chunks_with_zero_len_packs_header_only() {
    let mut buf = [0u8; 64];
    let n = gtkhx_proto_pack_message(&mut buf, 0x010d, 42, 0, &[], &[], MAX_CHUNKS);
    assert_eq!(n, 22);
    assert_eq!(&buf[0..4], &0x010d_u32.to_be_bytes());
    assert_eq!(&buf[4..8], &42u32.to_be_bytes());
    assert_eq!(&buf[20..22], &0u16.to_be_bytes());
}

#[test]
fn headers_come_back() {
    let mut buf = [0u8; 22];
    gtkhx_proto_pack_header(&mut buf, 0x69, 7, 1, 3, 100);
    let h = gtkhx_proto_decode_header(&buf, 1000).unwrap();
    assert_eq!((h.type_, h.trans, h.flag, h.hc), (0x69, 7, 1, 3));
    assert_eq!(h.body_len, 100);
    assert_eq!(h.wire_len, 102);
    assert_eq!(gtkhx_proto_decode_header(&buf, 10).unwrap().body_len, 10);
    assert_eq!(gtkhx_proto_header_trans(&buf), Some(7));
    assert!(gtkhx_proto_decode_header(&buf[..21], 1000).is_none());
    assert_eq!(gtkhx_proto_header_trans(&buf[..21]), None);
}

#[test]
fn packed_messages_read_back() {
    let mut chunks = [HxChunk::empty(); 3];
    let mut scratch = [0u8; 6];
    let n = gtkhx_proto_build_chat_chunks(9, 1, b"hello", &mut chunks, &mut scratch);
    assert_eq!(n, 3);
    let mut buf = [0u8; 128];
    let len = gtkhx_proto_pack_message(&mut buf, 0x69, 5, 0, &chunks, &scratch, MAX_CHUNKS);
    assert_eq!(len, gtkhx_proto_pack_message_size(&chunks, MAX_CHUNKS));
    let got = ChunkIter::over_message(&buf, len).collect();
    assert_eq!(got.len(), 3);
    assert_eq!((got[0].tag, got[0].as_uint()), (tag::STYLE, 1));
    assert_eq!((got[1].tag, got[1].data), (tag::BODY, &b"hello"[..]));
    assert_eq!((got[2].tag, got[2].as_uint()), (tag::CHAT_ID, 9));
    assert_eq!(
        gtkhx_proto_pack_message(&mut buf[..10], 0x69, 5, 0, &chunks, &scratch, MAX_CHUNKS),
        0
    );
    assert_eq!(gtkhx_proto_pack_message_size(&chunks, 2), 0);
}

#[test]
fn public_chat_names_no_room() {
    let mut chunks = [HxChunk::empty(); 3];
    let mut scratch = [0u8; 6];
    assert_eq!(gtkhx_proto_build_chat_chunks(0, 0, b"hi", &mut chunks, &mut scratch), 2);
    assert_eq!(chunks[1].bytes(&scratch), b"hi");
    assert_eq!(gtkhx_proto_build_chat_chunks(0, 0, b"hi", &mut chunks[..2], &mut scratch), 0);
    assert_eq!(gtkhx_proto_build_chat_chunks(0, 0, b"hi", &mut chunks, &mut scratch[..5]), 0);
    let long = vec![0u8; 0x1_0000];
    let mut room = [HxChunk::empty(); 3];
    assert_eq!(gtkhx_proto_build_chat_chunks(0, 0, &long, &mut room, &mut scratch), 0);
}

#[test]
fn requests_carry_what_they_ask_for() {
    let mut chunks = [HxChunk::empty(); 4];
    let mut scratch = [0u8; 22];
    assert_eq!(gtkhx_proto_build_msg_chunks(0x1234, b"psst", &mut chunks, &mut scratch), 2);
    assert_eq!(chunks[0].tag, tag::UID);
    assert_eq!(chunks[0].bytes(&scratch), &[0x12, 0x34]);
    assert_eq!(chunks[1].bytes(&scratch), b"psst");
    assert_eq!(gtkhx_proto_build_broadcast_chunks(b"all", &mut chunks), 1);
    assert_eq!(chunks[0].bytes(&scratch), b"all");
    assert_eq!(gtkhx_proto_build_chat_join_chunks(7, &mut chunks, &mut scratch), 1);
    assert_eq!(chunks[0].bytes(&scratch), &[0, 0, 0, 7]);
    assert!(hx_get_chat_history_build_chunks(1, 2, 3, 4, &mut chunks, &mut scratch) > 0);
    assert_eq!(hx_get_chat_history_build_chunks(1, 2, 3, 4, &mut chunks[..3], &mut scratch), 0);
}

#[test]
fn capabilities_have_up_to_eight_bytes() {
    assert_eq!(gtkhx_proto_capabilities_decode(&[]), 0);
    assert_eq!(gtkhx_proto_capabilities_decode(&[0x01, 0x02]), 0x102);
    assert_eq!(gtkhx_proto_capabilities_decode(
        &[1, 2, 3, 4, 5, 6, 7, 8, 9],
    ), 0x0102_0304_0506_0708);
}

#[test]
fn texts_are_cut_and_ended() {
    let mut buf = [0xffu8; 4];
    assert_eq!(write_cstr(&mut buf, b"abcdef"), 3);
    assert_eq!(&buf, b"abc\0");
    let mut buf = [0xffu8; 4];
    assert_eq!(write_cstr(&mut buf, b"a"), 1);
    assert_eq!(buf, [b'a', 0, 0xff, 0xff]);
    assert_eq!(write_cstr(&mut [], b"a"), 0);
}

fn message(fields: &[(u16, &[u8])]) -> Vec<u8> {
    let mut e = Encoder::new();
    e.put_bytes(&[0; HL_HDR_LEN]);
    for (t, d) in fields {
        e.put_chunk(*t, d);
    }
    e.into_vec()
}

#[test]
fn chat_lines_say_where_their_text_starts() {
    let msg = message(&[
        (tag::CHAT_ID, &[0, 0, 0, 3]),
        (tag::UID, &[0, 4]),
        (tag::BODY, b"\rhello"),
    ]);
    let mut buf = [0u8; 16];
    let out = gtkhx_proto_parse_chat(&msg, &mut buf).unwrap();
    assert_eq!((out.cid, out.uid, out.text_off, out.text_len), (3, 4, 1, 5));
    assert_eq!(&buf[..7], b"\nhello\0");
    let mut tiny = [0u8; 1];
    let out = gtkhx_proto_parse_chat(&msg, &mut tiny).unwrap();
    assert_eq!((out.text_off, out.text_len), (0, 0));
    assert!(gtkhx_proto_parse_chat(&msg, &mut []).is_none());
    let subject = message(&[(tag::CHAT_ID, &[0, 7]), (tag::CHAT_SUBJECT, b"tea")]);
    let out = gtkhx_proto_parse_chat_subject(&subject, &mut buf).unwrap();
    assert_eq!((out.cid, out.subject_len), (7, 3));
    assert_eq!(&buf[..4], b"tea\0");
    let invite = message(&[(tag::UID, &[0, 8]), (tag::NAME, b"Al")]);
    let out = gtkhx_proto_parse_chat_invite(&invite, &mut buf).unwrap();
    assert_eq!((out.cid, out.uid, out.name_len), (0, 8, 2));
}

#[test]
fn names_and_texts_go_into_their_buffers() {
    let m = message(&[(tag::UID, &[0, 9]), (tag::NAME, b"B\x1bb"), (tag::BODY, b"hi\rthere")]);
    let mut name = [0u8; 3];
    let mut text = [0u8; 32];
    let out = gtkhx_proto_parse_msg(&m, &mut name, &mut text).unwrap();
    assert_eq!((out.uid, out.name_len, out.msg_len), (9, 2, 8));
    assert_eq!(&name, b"B[\0");
    assert_eq!(&text[..9], b"hi\nthere\0");
    assert!(gtkhx_proto_parse_msg(&m, &mut [], &mut text).is_none());
    let out = gtkhx_proto_parse_user_info(&m, &mut name, &mut text).unwrap();
    assert_eq!((out.name_len, out.info_len), (2, 8));
    let out = gtkhx_proto_parse_user_change(&m, &mut text).unwrap();
    assert_eq!((out.uid, out.got_color, out.got_nick_color), (9, 0, 0));
    assert_eq!(out.nick_color, NICK_COLOR_NONE);
    let m = message(&[(tag::COLOUR, &[0, 2]), (tag::COLOR, &[0, 1, 2, 3])]);
    let out = gtkhx_proto_parse_user_change(&m, &mut text).unwrap();
    assert_eq!((out.color, out.got_color), (2, 1));
    assert_eq!((out.nick_color, out.got_nick_color), (0x0001_0203, 1));
}

#[test]
fn files_tell_what_is_known_of_them() {
    let m = message(&[
        (tag::FILE_ICON, b"fldr"),
        (tag::FILE_DATE_CREATE, &[1; 8]),
        (tag::FILE_DATE_MODIFY, &[2; 7]),
        (tag::FILE_SIZE, &[1, 2, 3]),
        (tag::FILESIZE64, &[0, 0, 0, 0, 0, 0, 0, 6]),
        (tag::FILE_NAME, b"n"),
        (tag::FILE_TYPE, b"ty"),
        (tag::FILE_CREATOR, b"cre"),
        (tag::FILE_COMMENT, b"a\rbc"),
    ]);
    let (mut a, mut b, mut c, mut d) = ([0u8; 8], [0u8; 8], [0u8; 8], [0u8; 8]);
    let out = gtkhx_proto_parse_file_getinfo(&m, &mut a, &mut b, &mut c, &mut d).unwrap();
    assert_eq!((out.name_len, out.type_len, out.creator_len, out.comment_len), (1, 2, 3, 4));
    assert_eq!((out.size, out.size64, out.size64_seen, out.got_icon), (0x10203, 6, 1, 1));
    assert_eq!(&out.icon, b"fldr");
    assert_eq!((out.date_create, out.date_modify), ([1; 8], [0; 8]));
    assert_eq!(&d[..5], b"a\nbc\0");
    assert!(gtkhx_proto_parse_file_getinfo(&m, &mut a, &mut b, &mut [], &mut d).is_none());
    let m = message(&[(tag::FILE_SIZE, &[1, 2, 3, 4, 5]), (tag::FILE_ICON, b"abc")]);
    let out = gtkhx_proto_parse_file_getinfo(&m, &mut a, &mut b, &mut c, &mut d).unwrap();
    assert_eq!((out.size, out.size64_seen, out.got_icon, out.icon), (0, 0, 0, [0; 4]));
}

#[test]
fn posts_carry_a_text_unless_they_fail() {
    let mut buf = [0xffu8; 8];
    let m = message(&[(tag::THREADID, &[0, 5]), (tag::NEWSDATA, b"x\ry")]);
    let out = gtkhx_proto_parse_news_thread_reply(&m, &mut buf).unwrap();
    assert_eq!((out.thread_id, out.text_len, out.has_text, out.has_task_error), (5, 3, 1, 0));
    assert_eq!(&buf[..4], b"x\ny\0");
    let m = message(&[
        (tag::THREADID, &[0, 5]),
        (tag::NEWSDATA, b"x"),
        (tag::TASK_ERROR, b"no"),
        (tag::THREADID, &[0, 6]),
    ]);
    let out = gtkhx_proto_parse_news_thread_reply(&m, &mut buf).unwrap();
    assert_eq!((out.thread_id, out.text_len, out.has_text, out.has_task_error), (5, 0, 0, 1));
    assert_eq!(buf[0], 0);
    let m = message(&[(tag::NEWSDATA, b"")]);
    let out = gtkhx_proto_parse_news_thread_reply(&m, &mut buf).unwrap();
    assert_eq!((out.has_text, out.text_len), (1, 0));
}

#[test]
fn missing_texts_leave_the_buffer_or_empty_it() {
    let empty = vec![0u8; HL_HDR_LEN];
    let mut buf = *b"untouched";
    assert_eq!(gtkhx_proto_parse_task_error(&empty, &mut buf), usize::MAX);
    assert_eq!(gtkhx_proto_parse_news_file(&empty, &mut buf), usize::MAX);
    assert_eq!(&buf, b"untouched");
    assert_eq!(gtkhx_proto_parse_task_error(&empty, &mut []), 0);
    let b = message(&[(tag::BANNER_TYPE, b"URL ")]);
    let out = gtkhx_proto_parse_banner(&b, &mut buf).unwrap();
    assert_eq!((out.got_type, out.has_url, out.url_len), (1, 0, 0));
    assert_eq!(&out.type_code, b"URL ");
    assert_eq!(buf[0], 0);
    let b = message(&[(tag::BANNER_TYPE, b"URL"), (tag::BANNER_URL, b"http")]);
    let out = gtkhx_proto_parse_banner(&b, &mut buf).unwrap();
    assert_eq!((out.got_type, out.has_url, out.url_len), (0, 1, 4));
    assert_eq!(out.type_code, [0; 4]);
    assert_eq!(&buf[..5], b"http\0");
}

#[test]
fn news_are_made_fit_to_be_displayed() {
    let mut e = Encoder::new();
    e.put_bytes(&[0; HL_HDR_LEN]);
    e.put_chunk(tag::NEWS, b"one\rtwo");
    e.put_chunk(tag::TASK_ERROR, b"no\x1b");
    e.put_chunk(tag::NEWS, b"three");
    let msg = e.into_vec();
    assert_eq!(
        gtkhx_proto_walk_news_post(&msg),
        vec![b"one\ntwo\0".to_vec(), b"three\0".to_vec()]
    );
    let mut buf = [0u8; 16];
    assert_eq!(gtkhx_proto_parse_news_file(&msg, &mut buf), 7);
    assert_eq!(&buf[..8], b"one\ntwo\0");
    assert_eq!(gtkhx_proto_parse_task_error(&msg, &mut buf), 3);
    assert_eq!(&buf[..4], b"no[\0");
}

#[test]
fn agreements_are_written_only_if_there_are_any() {
    let mut buf = [0xffu8; 8];
    let none = message(&[(tag::NOAGREEMENT, b"")]);
    assert_eq!(gtkhx_proto_parse_agreement(&none, &mut buf), (HX_AGREEMENT_NONE_FFI, None));
    let missing = message(&[]);
    assert_eq!(gtkhx_proto_parse_agreement(&missing, &mut buf), (HX_AGREEMENT_MISSING_FFI, None));
    assert_eq!(buf, [0xff; 8]);
    let rules = message(&[(tag::BODY, b"be\rnice")]);
    assert_eq!(gtkhx_proto_parse_agreement(&rules, &mut buf), (HX_AGREEMENT_OK_FFI, Some(7)));
    assert_eq!(&buf, b"be\nnice\0");
    assert_eq!(gtkhx_proto_parse_agreement(&rules, &mut []), (HX_AGREEMENT_OK_FFI, None));
}

#[test]
fn accounts_hide_what_they_carry() {
    let login: Vec<u8> = b"al".iter().map(|b| b ^ 0xff).collect();
    let pass: Vec<u8> = b"pw".iter().map(|b| b ^ 0xff).collect();
    let (mut a, mut b, mut c) = ([0u8; 8], [0u8; 8], [0u8; 8]);
    let m = message(&[
        (tag::NAME, b"Al"),
        (tag::LOGIN, &login),
        (tag::PASSWORD, &pass),
        (tag::ACCESS, &[1, 2, 3, 4, 5, 6, 7, 8]),
    ]);
    let out = gtkhx_proto_parse_account_read(&m, &mut a, &mut b, &mut c).unwrap();
    assert_eq!((out.name_len, out.login_len, out.pass_len, out.got_access), (2, 2, 2, 1));
    assert_eq!(out.access, [1, 2, 3, 4, 5, 6, 7, 8]);
    assert_eq!((&a[..3], &b[..3], &c[..3]), (&b"Al\0"[..], &b"al\0"[..], &b"pw\0"[..]));
    let m = message(&[(tag::PASSWORD, &[0]), (tag::ACCESS, &[1, 2])]);
    let out = gtkhx_proto_parse_account_read(&m, &mut a, &mut b, &mut c).unwrap();
    assert_eq!((out.pass_len, out.got_access, out.access), (0, 0, [0; 8]));
    assert!(gtkhx_proto_parse_account_read(&m, &mut a, &mut b, &mut []).is_none());
}

#[test]
fn news_folders_list_folders_and_categories() {
    let mut buf = [0u8; 8];
    let folder = NewsDirEntry { kind: NewsDirKind::Folder, name: b"dir".to_vec() };
    let category = NewsDirEntry { kind: NewsDirKind::Category, name: b"cat".to_vec() };
    assert_eq!(write_news_dir(Some(&folder), &mut buf).unwrap().kind, 1);
    assert_eq!(write_news_dir(Some(&category), &mut buf).unwrap().kind, 2);
    assert_eq!(&buf[..4], b"cat\0");
    assert!(write_news_dir(None, &mut buf).is_none());
    let cl = CatList {
        posts: vec![CatListPost {
            postid: 1,
            parentid: 0,
            date_seconds: 5,
            date_base_year: 1904,
            date_pad: 0,
            partcount: 1,
            size_total: 10,
            subject: b"subject".to_vec(),
            sender: Vec::new(),
            parts: vec![CatListPart { mime_type: b"text/plain".to_vec(), size: 10 }],
        }],
    };
    assert_eq!(gtkhx_proto_catlist_post_count(Some(&cl)), 1);
    assert_eq!(gtkhx_proto_catlist_post_count(None), 0);
    let post = gtkhx_proto_catlist_post_get(Some(&cl), 0).unwrap();
    assert_eq!(post.subject, Some(&b"subject"[..]));
    assert_eq!(post.sender, None);
    assert!(gtkhx_proto_catlist_post_get(Some(&cl), 1).is_none());
    let part = gtkhx_proto_catlist_part_get(Some(&cl), 0, 0).unwrap();
    assert_eq!((part.mime_type, part.size), (Some(&b"text/plain"[..]), 10));
    assert!(gtkhx_proto_catlist_part_get(Some(&cl), 0, 1).is_none());
    assert!(gtkhx_proto_catlist_part_get(None, 0, 0).is_none());
}

#[test]
fn users_without_a_colour_get_the_one_for_none() {
    let mut buf = [0u8; 8];
    let mut rec = vec![0, 1, 0, 2, 0, 3, 0, 2, b'A', b'l'];
    let out = gtkhx_proto_parse_user_list_record(&rec, &mut buf).unwrap();
    assert_eq!((out.uid, out.icon, out.color), (1, 2, 3));
    assert_eq!((out.nick_color, out.got_nick_color, out.name_len), (NICK_COLOR_NONE, 0, 2));
    assert_eq!(&buf[..3], b"Al\0");
    rec.extend_from_slice(&[0, 0, 0, 7]);
    let out = gtkhx_proto_parse_user_list_record(&rec, &mut buf).unwrap();
    assert_eq!((out.nick_color, out.got_nick_color), (7, 1));
    rec[7] = 99;
    let out = gtkhx_proto_parse_user_list_record(&rec, &mut buf).unwrap();
    assert_eq!((out.name_len, out.got_nick_color), (6, 0));
    assert!(gtkhx_proto_parse_user_list_record(&rec[..7], &mut buf).is_none());
    let si = SelfInfo {
        access: 0x0102_0304_0506_0708,
        nick_color: 1,
        uid: 2,
        icon: 3,
        cached_name: b"",
        seen: 5,
    };
    let (out, seen) = gtkhx_proto_parse_selfinfo(&si);
    assert_eq!(out.access, [1, 2, 3, 4, 5, 6, 7, 8]);
    assert_eq!((out.cached_name, seen), (None, 5));
}

#[test]
fn history_entries_give_places() {
    let mut e = Vec::new();
    e.extend_from_slice(&77u64.to_be_bytes());
    e.extend_from_slice(&(-5i64).to_be_bytes());
    e.extend_from_slice(&1u16.to_be_bytes());
    e.extend_from_slice(&412u16.to_be_bytes());
    e.extend_from_slice(&3u16.to_be_bytes());
    e.extend_from_slice(b"Bob");
    e.extend_from_slice(&5u16.to_be_bytes());
    e.extend_from_slice(b"hello");
    let out = gtkhx_proto_parse_history_entry(&e).unwrap();
    assert_eq!((out.message_id, out.timestamp, out.flags, out.icon_id), (77, -5, 1, 412));
    assert_eq!((out.nick_off, out.nick_len, out.msg_off, out.msg_len), (22, 3, 27, 5));
    assert!(gtkhx_proto_parse_history_entry(&e[..e.len() - 1]).is_none());
    assert!(gtkhx_proto_parse_history_entry(&e[..23]).is_none());
}

#[test]
fn tracker_fields_are_walked() {
    let blob = [0x00, 0x05, 0x00, 0x02, 0xaa, 0xbb, 0x00, 0x06, 0x00, 0x09];
    let t = gtkhx_proto_tracker_v3_parse_tlv_at(&blob, 0).unwrap();
    assert_eq!((t.id, t.value_off, t.value_len, t.next_off), (5, 4, 2, 6));
    assert!(gtkhx_proto_tracker_v3_parse_tlv_at(&blob, t.next_off).is_none());
    assert!(gtkhx_proto_tracker_v3_parse_tlv_at(&blob, 7).is_none());
    assert!(gtkhx_proto_tracker_v3_parse_tlv_at(&blob, usize::MAX).is_none());
}

#[test]
fn tracker_values_have_their_widths() {
    assert_eq!(gtkhx_proto_tracker_v3_meta_read_u8(&[7], 1), 7);
    assert_eq!(gtkhx_proto_tracker_v3_meta_read_u8(&[7, 8], 1), 1);
    assert_eq!(gtkhx_proto_tracker_v3_meta_read_u16(&[1, 2], 9), 0x102);
    assert_eq!(gtkhx_proto_tracker_v3_meta_read_u16(&[1], 9), 9);
    assert_eq!(gtkhx_proto_tracker_v3_meta_read_i16(&[0xff, 0xfe], 9), -2);
    assert_eq!(gtkhx_proto_tracker_v3_meta_read_i16(&[], -9), -9);
    assert_eq!(gtkhx_proto_tracker_v3_meta_read_u32(&[0, 0, 1, 2], 9), 0x102);
    assert_eq!(gtkhx_proto_tracker_v3_meta_read_u32(&[0, 0, 1], 9), 9);
    assert!(gtkhx_proto_tracker_v3_meta_read_bool(&[0, 0, 4]));
    assert!(!gtkhx_proto_tracker_v3_meta_read_bool(&[0, 0]));
    assert!(!gtkhx_proto_tracker_v3_meta_read_bool(&[]));
    assert_eq!(gtkhx_proto_tracker_v3_meta_clamp_maturity(3), 3);
    assert_eq!(gtkhx_proto_tracker_v3_meta_clamp_maturity(4), 0);
    assert_eq!(gtkhx_proto_tracker_v3_meta_clamp_listing_category(12), 12);
    assert_eq!(gtkhx_proto_tracker_v3_meta_clamp_listing_category(13), 0);
    assert!(gtkhx_proto_tracker_record_is_padding(&[0, 1]));
    assert!(!gtkhx_proto_tracker_record_is_padding(&[]));
    let mut text = *b"a\rb\x1b";
    gtkhx_proto_tracker_normalize_text(&mut text);
    assert_eq!(&text, b"a\nb[");
}

#[test]
fn headers_say_that_a_task_failed() {
    let mut buf = [0u8; HL_HDR_LEN];
    gtkhx_proto_pack_header(&mut buf, 0x1_0000, 7, 5, 0, 0);
    assert!(gtkhx_proto_header_in_error(&buf, 1));
    assert!(gtkhx_proto_header_in_error(&buf, 4));
    assert!(!gtkhx_proto_header_in_error(&buf, 2));
    assert!(!gtkhx_proto_header_in_error(&buf[..HL_HDR_LEN - 1], 1));
}

#[test]
fn tracker_handshakes_are_read_back() {
    let mut buf = [0xeeu8; 9];
    assert!(gtkhx_proto_tracker_v3_pack_handshake(&mut buf, 0x0102));
    assert_eq!(&buf, b"HTRK\0\x03\x01\x02\xee");
    let r = gtkhx_proto_tracker_v3_parse_handshake_response(&buf[..8]).unwrap();
    assert_eq!((r.version, r.features), (3, 0x0102));
    let r = gtkhx_proto_tracker_v3_parse_handshake_response(b"HTRK\0\x01").unwrap();
    assert_eq!((r.version, r.features), (1, 0));
    assert!(gtkhx_proto_tracker_v3_parse_handshake_response(&buf[..7]).is_none());
    assert!(gtkhx_proto_tracker_v3_parse_handshake_response(b"HTRX\0\x01").is_none());
    let mut small = [0xeeu8; 7];
    assert!(!gtkhx_proto_tracker_v3_pack_handshake(&mut small, 1));
    assert_eq!(small, [0xee; 7]);
}

#[test]
fn tracker_listings_have_a_header() {
    let b = [0, 2, 0, 0, 1, 0, 0, 9, 0, 4];
    let h = gtkhx_proto_tracker_v3_parse_response_header(&b, 2).unwrap();
    assert_eq!((h.response_type, h.total_size, h.total_servers, h.record_count), (2, 256, 9, 4));
    assert!(gtkhx_proto_tracker_v3_parse_response_header(&b, 1).is_none());
    assert!(gtkhx_proto_tracker_v3_parse_response_header(&b[..9], 2).is_none());
}

#[test]
fn login_replies_say_what_was_sent() {
    let mut name = [0xeeu8; 8];
    let m = message(&[
        (tag::VERSION, &[0, 190]),
        (tag::UID, &[0, 7]),
        (tag::SERVERNAME, b"Our\rServer"),
        (tag::CAPABILITIES, &[1, 3]),
        (tag::HISTORY_MAX_DAYS, &[0, 0, 0, 30]),
        (tag::CHAT_MEDIA_MAX_FRAMES, &[0, 0, 0, 9]),
    ]);
    let out = gtkhx_proto_parse_login(&m, &mut name);
    assert_eq!(&name, b"Our\nSer\0");
    assert_eq!((out.version, out.uid, out.caps, out.named), (Some(190), Some(7), Some(0x103), true));
    assert_eq!((out.history_max_msgs, out.history_max_days), (None, Some(30)));
    assert_eq!((out.media_max_bytes, out.media_max_frames), (None, Some(9)));

    let out = gtkhx_proto_parse_login(&message(&[]), &mut name);
    assert_eq!(name[0], 0);
    assert_eq!((out.version, out.uid, out.caps, out.named), (None, None, None, false));
    let out = gtkhx_proto_parse_login(&m, &mut []);
    assert_eq!(out.version, Some(190));
}

#[test]
fn an_empty_chunk_is_packed_wherever_its_payload_is_said_to_stand() {
    let mut out = [0u8; 64];
    let mut plain = [0u8; 64];
    let beyond = [HxChunk::in_scratch(7, 1000, 0), HxChunk::of_bytes(8, b"x")];
    let empty = [HxChunk { tag: 7, ..HxChunk::empty() }, HxChunk::of_bytes(8, b"x")];
    let n = gtkhx_proto_pack_message(&mut out, 1, 2, 3, &beyond, &[], 8);
    assert_eq!(n, HL_HDR_LEN + 9);
    assert_eq!(&out[HL_HDR_LEN..n], &[0, 7, 0, 0, 0, 8, 0, 1, b'x']);
    assert_eq!(gtkhx_proto_pack_message(&mut plain, 1, 2, 3, &empty, &[], 8), n);
    assert_eq!(out, plain);
    assert!(beyond[0].bytes(&[]).is_empty());
    let cut = [HxChunk::in_scratch(7, 1000, 1)];
    assert_eq!(gtkhx_proto_pack_message(&mut out, 1, 2, 3, &cut, &[], 8), 0);
}
