use hotline::messages::tag;
use hotline::outgoing::HxChunk;
use hotline::voice::{
    build_voice_answer_chunks, build_voice_ice_chunks, build_voice_join_chunks,
    build_voice_leave_chunks, build_voice_mute_chunks, ice, parse_voice_join_reply,
    parse_voice_mid_label, parse_voice_participants, parse_voice_reply, sdp, MidLabel, Participant,
};
use hotline::HL_HDR_LEN;

fn frame(payload: &[u8]) -> Vec<u8> {
    let mut v = vec![0u8; HL_HDR_LEN];
    v.extend_from_slice(payload);
    v
}

fn chunk(tag: u16, data: &[u8]) -> Vec<u8> {
    let mut v = Vec::with_capacity(4 + data.len());
    v.extend_from_slice(&tag.to_be_bytes());
    v.extend_from_slice(&(data.len() as u16).to_be_bytes());
    v.extend_from_slice(data);
    v
}

#[test]
fn voice_join_builds_chat_id_only() {
    let mut chunks = [HxChunk::empty(); 2];
    let mut scratch = [0u8; 16];
    let hc = build_voice_join_chunks(42, &mut chunks, &mut scratch);
    assert_eq!(hc, 1);
    assert_eq!(chunks[0].tag, tag::CHAT_ID);
    assert_eq!(chunks[0].len, 4);
    assert_eq!(chunks[0].bytes(&scratch), &42u32.to_be_bytes());
}

#[test]
fn voice_join_rejects_tiny_buffers() {
    let mut chunks: [HxChunk; 0] = [];
    let mut scratch = [0u8; 4];
    assert_eq!(build_voice_join_chunks(1, &mut chunks, &mut scratch), 0);

    let mut chunks = [HxChunk::empty(); 1];
    let mut scratch = [0u8; 3];
    assert_eq!(build_voice_join_chunks(1, &mut chunks, &mut scratch), 0);
}

#[test]
fn voice_leave_builds_chat_id_only() {
    let mut chunks = [HxChunk::empty(); 2];
    let mut scratch = [0u8; 16];
    let hc = build_voice_leave_chunks(0, &mut chunks, &mut scratch);
    assert_eq!(hc, 1);
    assert_eq!(chunks[0].tag, tag::CHAT_ID);
    assert_eq!(chunks[0].len, 4);
}

#[test]
fn voice_answer_builds_two_chunks() {
    let mut chunks = [HxChunk::empty(); 3];
    let mut scratch = [0u8; 16];
    let sdp = b"v=0\r\no=-\r\n";
    let hc = build_voice_answer_chunks(7, sdp, &mut chunks, &mut scratch);
    assert_eq!(hc, 2);
    assert_eq!(chunks[0].tag, tag::CHAT_ID);
    assert_eq!(chunks[1].tag, tag::VOICE_SDP);
    assert_eq!(chunks[1].len as usize, sdp.len());
    assert_eq!(chunks[1].bytes(&scratch), sdp);
}

#[test]
fn voice_answer_rejects_empty_sdp() {
    let mut chunks = [HxChunk::empty(); 3];
    let mut scratch = [0u8; 16];
    assert_eq!(
        build_voice_answer_chunks(7, b"", &mut chunks, &mut scratch),
        0
    );
}

#[test]
fn voice_ice_accepts_empty_end_of_candidates() {
    let mut chunks = [HxChunk::empty(); 3];
    let mut scratch = [0u8; 16];
    let hc = build_voice_ice_chunks(7, b"", &mut chunks, &mut scratch);
    assert_eq!(hc, 2);
    assert_eq!(chunks[1].tag, tag::VOICE_ICE);
    assert_eq!(chunks[1].len, 0);
}

#[test]
fn voice_ice_builds_with_payload() {
    let mut chunks = [HxChunk::empty(); 3];
    let mut scratch = [0u8; 16];
    let ice = br#"{"candidate":"candidate:1 1 UDP 1 192.0.2.1 5004 typ host","sdpMid":"send"}"#;
    let hc = build_voice_ice_chunks(7, ice, &mut chunks, &mut scratch);
    assert_eq!(hc, 2);
    assert_eq!(chunks[1].len as usize, ice.len());
}

#[test]
fn voice_mute_emits_chat_id_then_muted() {
    let mut chunks = [HxChunk::empty(); 3];
    let mut scratch = [0u8; 16];
    let hc = build_voice_mute_chunks(42, 1, &mut chunks, &mut scratch);
    assert_eq!(hc, 2);
    assert_eq!(chunks[0].tag, tag::CHAT_ID);
    assert_eq!(chunks[0].len, 4);
    assert_eq!(chunks[1].tag, tag::VOICE_MUTED);
    assert_eq!(chunks[1].len, 2);
    assert_eq!(chunks[1].bytes(&scratch), &1u16.to_be_bytes());
}

#[test]
fn participants_walker_decodes_packed_entries() {
    let mut blob = Vec::new();
    for (uid, flags, codec) in [(5u16, 1u16, 0u16), (12, 0, 0), (23, 0, 0)] {
        blob.extend_from_slice(&uid.to_be_bytes());
        blob.extend_from_slice(&flags.to_be_bytes());
        blob.extend_from_slice(&codec.to_be_bytes());
    }
    let v: Vec<Participant> = parse_voice_participants(&blob);
    assert_eq!(v.len(), 3);
    assert_eq!(
        v[0],
        Participant {
            user_id: 5,
            flags: 1,
            codec_id: 0
        }
    );
    assert!(v[0].is_muted());
    assert!(!v[1].is_muted());
    assert_eq!(v[2].user_id, 23);
}

#[test]
fn participants_walker_drops_trailing_partial() {
    let mut blob = vec![0u8; 6];
    blob.extend_from_slice(&[0, 5, 0, 0]);
    let v: Vec<Participant> = parse_voice_participants(&blob);
    assert_eq!(v.len(), 1);
}

#[test]
fn participants_walker_empty() {
    let v: Vec<Participant> = parse_voice_participants(&[]);
    assert!(v.is_empty());
}

#[test]
fn mid_label_send_and_user() {
    assert_eq!(parse_voice_mid_label(b"send"), Some(MidLabel::Send));
    assert_eq!(parse_voice_mid_label(b"user-1"), Some(MidLabel::User(1)));
    assert_eq!(
        parse_voice_mid_label(b"user-12345"),
        Some(MidLabel::User(12345))
    );
    assert_eq!(
        parse_voice_mid_label(b"user-65535"),
        Some(MidLabel::User(65535))
    );
}

#[test]
fn mid_label_rejects_spec_violations() {
    assert_eq!(parse_voice_mid_label(b"user-05"), None);
    assert_eq!(parse_voice_mid_label(b"user-0"), None);
    assert_eq!(parse_voice_mid_label(b"user-65536"), None);
    assert_eq!(parse_voice_mid_label(b"user-99999"), None);
    assert_eq!(parse_voice_mid_label(b"send "), None);
    assert_eq!(parse_voice_mid_label(b"user-12 "), None);
    assert_eq!(parse_voice_mid_label(b""), None);
    assert_eq!(parse_voice_mid_label(b"user-"), None);
    assert_eq!(parse_voice_mid_label(b"user-1a"), None);
}

#[test]
fn sdp_summary_extracts_mids_and_bundle() {
    let sdp = "v=0\r\n\
               o=- 1234567890 1 IN IP4 0.0.0.0\r\n\
               a=group:BUNDLE user-12 user-23 send\r\n\
               m=audio 9 UDP/TLS/RTP/SAVPF 0\r\n\
               a=mid:user-12\r\n\
               a=rtpmap:0 PCMU/8000\r\n\
               m=audio 9 UDP/TLS/RTP/SAVPF 0\r\n\
               a=mid:user-23\r\n\
               m=audio 9 UDP/TLS/RTP/SAVPF 0\r\n\
               a=mid:send\r\n";
    let s = sdp::summarize(sdp.as_bytes());
    assert_eq!(
        s.mids,
        vec![MidLabel::User(12), MidLabel::User(23), MidLabel::Send]
    );
    assert!(s.unknown_mids.is_empty());
    assert_eq!(s.bundle, vec!["user-12", "user-23", "send"]);
    assert!(s.has_pcmu);
    assert!(!s.has_disabled_slot);
}

#[test]
fn sdp_summary_detects_disabled_slot() {
    let sdp = "v=0\nm=audio 0 UDP/TLS/RTP/SAVPF 0\na=mid:user-23\n";
    let s = sdp::summarize(sdp.as_bytes());
    assert!(s.has_disabled_slot);
    assert!(!s.has_pcmu);
}

#[test]
fn sdp_summary_collects_unknown_mids() {
    let sdp = "a=mid:foo\na=mid:user-0\na=mid:user-05\n";
    let s = sdp::summarize(sdp.as_bytes());
    assert!(s.mids.is_empty());
    assert_eq!(s.unknown_mids.len(), 3);
}

#[test]
fn ice_build_full_dict() {
    let c = ice::IceCandidate {
        candidate: Some("candidate:1 1 UDP 2130706431 192.0.2.1 5004 typ host".to_string()),
        sdp_mid: Some("0".to_string()),
        sdp_mline_index: Some(0),
        username_fragment: Some("abc123".to_string()),
    };
    let s = ice::build(&c);
    let expected = "{\"candidate\":\"candidate:1 1 UDP 2130706431 192.0.2.1 5004 typ host\",\
                    \"sdpMid\":\"0\",\
                    \"sdpMLineIndex\":0,\
                    \"usernameFragment\":\"abc123\"}";
    assert_eq!(s, expected);
}

#[test]
fn ice_build_end_of_candidates_marker() {
    let c = ice::IceCandidate {
        candidate: Some("".to_string()),
        sdp_mid: Some("send".to_string()),
        sdp_mline_index: Some(0),
        ..Default::default()
    };
    let s = ice::build(&c);
    assert!(s.starts_with("{\"candidate\":\"\","));
    assert!(s.ends_with("\"sdpMLineIndex\":0}"));
}

#[test]
fn ice_parse_roundtrip() {
    let c = ice::IceCandidate {
        candidate: Some("candidate:1 1 UDP 1 1.2.3.4 5004 typ host".to_string()),
        sdp_mid: Some("send".to_string()),
        sdp_mline_index: Some(2),
        username_fragment: Some("xyz".to_string()),
    };
    let s = ice::build(&c);
    let parsed = ice::parse(s.as_bytes()).expect("parse");
    assert_eq!(parsed, c);
}

#[test]
fn ice_parse_partial_dict() {
    let json = br#"{"candidate":"","sdpMid":"send","sdpMLineIndex":0}"#;
    let c = ice::parse(json).expect("parse");
    assert!(c.is_end_of_candidates());
    assert_eq!(c.sdp_mid.as_deref(), Some("send"));
    assert_eq!(c.sdp_mline_index, Some(0));
    assert!(c.username_fragment.is_none());
}

#[test]
fn ice_parse_unknown_fields_skipped() {
    let json = br#"{"candidate":"c","extraKey":"ignore","sdpMid":"send"}"#;
    let c = ice::parse(json).expect("parse");
    assert_eq!(c.candidate.as_deref(), Some("c"));
    assert_eq!(c.sdp_mid.as_deref(), Some("send"));
}

#[test]
fn ice_parse_rejects_garbage() {
    assert!(ice::parse(b"").is_none());
    assert!(ice::parse(b"[]").is_none());
    assert!(ice::parse(b"{").is_none());
    assert!(ice::parse(br#"{"candidate":1}"#).is_none());
    assert!(ice::parse(br#"{"sdpMLineIndex":01}"#).is_none());
    assert!(ice::parse(br#"{"candidate":"c","sdpMid":"send"} junk"#).is_none());
}

#[test]
fn ice_parse_rejects_missing_required_keys() {
    assert!(ice::parse(br#"{}"#).is_none());
    assert!(ice::parse(br#"{"sdpMid":"send"}"#).is_none());
    assert!(ice::parse(br#"{"candidate":"c"}"#).is_none());
    assert!(ice::parse(br#"{"sdpMid":"send","sdpMLineIndex":0}"#).is_none());
    assert!(
        ice::parse(br#"{"candidate":"c","sdpMLineIndex":0,"usernameFragment":"x"}"#).is_none()
    );
    assert!(ice::parse(br#"{ "candidate" : "" , "sdpMid" : "send" }"#).is_some());
    let eoc = ice::parse(br#"{"candidate":"","sdpMid":"send","sdpMLineIndex":0}"#)
        .expect("EOC with sdpMid should parse");
    assert!(eoc.is_end_of_candidates());
    assert_eq!(eoc.sdp_mid.as_deref(), Some("send"));
}

#[test]
fn ice_build_escapes_metacharacters() {
    let c = ice::IceCandidate {
        candidate: Some("with \"quotes\" and \\slashes\\".to_string()),
        sdp_mid: Some("send".to_string()),
        ..Default::default()
    };
    let s = ice::build(&c);
    assert!(s.contains(r#"\"quotes\""#));
    assert!(s.contains(r#"\\slashes\\"#));
    let parsed = ice::parse(s.as_bytes()).expect("parse");
    assert_eq!(
        parsed.candidate.as_deref(),
        Some("with \"quotes\" and \\slashes\\")
    );
    assert_eq!(parsed.sdp_mid.as_deref(), Some("send"));
}

#[test]
fn ice_parse_rejects_malformed_number_in_skipped_field() {
    assert!(ice::parse(br#"{"extra":01,"candidate":"c","sdpMid":"send"}"#).is_none());
    assert!(ice::parse(br#"{"extra":-,"candidate":"c","sdpMid":"send"}"#).is_none());
    assert!(ice::parse(br#"{"extra":-.5,"candidate":"c","sdpMid":"send"}"#).is_none());
    assert!(ice::parse(br#"{"extra":1.,"candidate":"c","sdpMid":"send"}"#).is_none());
    assert!(ice::parse(br#"{"extra":1e,"candidate":"c","sdpMid":"send"}"#).is_none());
    assert!(ice::parse(br#"{"extra":1e+,"candidate":"c","sdpMid":"send"}"#).is_none());
}

#[test]
fn ice_parse_accepts_valid_numbers_in_skipped_field() {
    for body in [
        br#"{"extra":0,"candidate":"c","sdpMid":"send"}"#.as_slice(),
        br#"{"extra":1,"candidate":"c","sdpMid":"send"}"#.as_slice(),
        br#"{"extra":-1,"candidate":"c","sdpMid":"send"}"#.as_slice(),
        br#"{"extra":1.5,"candidate":"c","sdpMid":"send"}"#.as_slice(),
        br#"{"extra":-0.25,"candidate":"c","sdpMid":"send"}"#.as_slice(),
        br#"{"extra":1e10,"candidate":"c","sdpMid":"send"}"#.as_slice(),
        br#"{"extra":1E10,"candidate":"c","sdpMid":"send"}"#.as_slice(),
        br#"{"extra":1.5e-3,"candidate":"c","sdpMid":"send"}"#.as_slice(),
        br#"{"extra":-1.5E+3,"candidate":"c","sdpMid":"send"}"#.as_slice(),
    ] {
        let parsed = ice::parse(body).unwrap_or_else(|| {
            panic!(
                "parse should accept legal JSON: {}",
                String::from_utf8_lossy(body)
            )
        });
        assert_eq!(parsed.candidate.as_deref(), Some("c"));
    }
}

#[test]
fn ice_parse_roundtrips_utf8_strings() {
    for s in &[
        "café",
        "münch",
        "日本語",
        "🦀 Rust",
        "mix: café 日本語 🦀",
        "user-12345",
    ] {
        let c = ice::IceCandidate {
            candidate: Some((*s).to_string()),
            sdp_mid: Some("send".to_string()),
            ..Default::default()
        };
        let json = ice::build(&c);
        let parsed =
            ice::parse(json.as_bytes()).unwrap_or_else(|| panic!("parse failed for: {s:?}"));
        assert_eq!(
            parsed.candidate.as_deref(),
            Some(*s),
            "round-trip mismatch for {s:?}"
        );
    }
}

#[test]
fn ice_parse_rejects_malformed_object_in_skipped_field() {
    assert!(ice::parse(br#"{"extra":{"k" 1},"candidate":"c","sdpMid":"send"}"#).is_none());
    assert!(
        ice::parse(br#"{"extra":{"k":1 garbage},"candidate":"c","sdpMid":"send"}"#).is_none()
    );
    assert!(ice::parse(br#"{"extra":{k:1},"candidate":"c","sdpMid":"send"}"#).is_none());
    assert!(ice::parse(br#"{"extra":{"k":1,},"candidate":"c","sdpMid":"send"}"#).is_none());
    assert!(
        ice::parse(br#"{"extra":{"k":{"inner":01}},"candidate":"c","sdpMid":"send"}"#)
            .is_none()
    );
    assert!(ice::parse(br#"{"extra":{"k":1,"candidate":"c","sdpMid":"send"}"#).is_none());
}

#[test]
fn ice_parse_accepts_valid_objects_in_skipped_field() {
    for body in [
        br#"{"extra":{},"candidate":"c","sdpMid":"send"}"#.as_slice(),
        br#"{"extra":{"k":1},"candidate":"c","sdpMid":"send"}"#.as_slice(),
        br#"{"extra":{"k":1,"j":2},"candidate":"c","sdpMid":"send"}"#.as_slice(),
        br#"{"extra":{ "k" : 1 , "j" : 2 },"candidate":"c","sdpMid":"send"}"#.as_slice(),
        br#"{"extra":{"k":{"nested":true}},"candidate":"c","sdpMid":"send"}"#.as_slice(),
        br#"{"extra":{"k":[1,2,3]},"candidate":"c","sdpMid":"send"}"#.as_slice(),
    ] {
        let parsed = ice::parse(body).unwrap_or_else(|| {
            panic!(
                "parse should accept legal JSON: {}",
                String::from_utf8_lossy(body)
            )
        });
        assert_eq!(parsed.candidate.as_deref(), Some("c"));
    }
}

#[test]
fn ice_parse_rejects_malformed_array_in_skipped_field() {
    assert!(ice::parse(br#"{"extra":[1,2,],"candidate":"c","sdpMid":"send"}"#).is_none());
    assert!(ice::parse(br#"{"extra":[1 2],"candidate":"c","sdpMid":"send"}"#).is_none());
    assert!(ice::parse(br#"{"extra":[,1],"candidate":"c","sdpMid":"send"}"#).is_none());
    assert!(ice::parse(br#"{"extra":[{"k":01}],"candidate":"c","sdpMid":"send"}"#).is_none());
    assert!(ice::parse(br#"{"extra":[1,2,"candidate":"c","sdpMid":"send"}"#).is_none());
}

#[test]
fn ice_parse_accepts_valid_arrays_in_skipped_field() {
    for body in [
        br#"{"extra":[],"candidate":"c","sdpMid":"send"}"#.as_slice(),
        br#"{"extra":[1],"candidate":"c","sdpMid":"send"}"#.as_slice(),
        br#"{"extra":[1,2,3],"candidate":"c","sdpMid":"send"}"#.as_slice(),
        br#"{"extra":[ 1 , 2 , 3 ],"candidate":"c","sdpMid":"send"}"#.as_slice(),
        br#"{"extra":[true,false,null],"candidate":"c","sdpMid":"send"}"#.as_slice(),
        br#"{"extra":["a","b"],"candidate":"c","sdpMid":"send"}"#.as_slice(),
        br#"{"extra":[[1,2],[3,4]],"candidate":"c","sdpMid":"send"}"#.as_slice(),
        br#"{"extra":[{"k":1}],"candidate":"c","sdpMid":"send"}"#.as_slice(),
    ] {
        let parsed = ice::parse(body).unwrap_or_else(|| {
            panic!(
                "parse should accept legal JSON: {}",
                String::from_utf8_lossy(body)
            )
        });
        assert_eq!(parsed.candidate.as_deref(), Some("c"));
    }
}

#[test]
fn ice_parse_accepts_utf16_surrogate_pairs() {
    let json = r#"{"candidate":"crab 🦀 here","sdpMid":"send"}"#;
    let parsed = ice::parse(json.as_bytes()).expect("surrogate pair should decode");
    assert_eq!(parsed.candidate.as_deref(), Some("crab \u{1F980} here"));

    let json2 = r#"{"candidate":"𠮷","sdpMid":"send"}"#;
    let parsed2 = ice::parse(json2.as_bytes()).expect("surrogate pair should decode");
    assert_eq!(parsed2.candidate.as_deref(), Some("\u{20BB7}"));

    let bmp = r#"{"candidate":"café","sdpMid":"send"}"#;
    let parsed_bmp = ice::parse(bmp.as_bytes()).expect("BMP \\u should still decode");
    assert_eq!(parsed_bmp.candidate.as_deref(), Some("café"));

    let ascii = r#"{"candidate":"A","sdpMid":"send"}"#;
    let parsed_ascii = ice::parse(ascii.as_bytes()).expect("ASCII \\u should decode");
    assert_eq!(parsed_ascii.candidate.as_deref(), Some("A"));
}

#[test]
fn ice_parse_rejects_lone_surrogates() {
    assert!(ice::parse(br#"{"candidate":"\uD83E","sdpMid":"send"}"#).is_none());

    assert!(ice::parse(br#"{"candidate":"\uD83Ex","sdpMid":"send"}"#).is_none());

    assert!(ice::parse(br#"{"candidate":"\uD83EA","sdpMid":"send"}"#).is_none());

    assert!(ice::parse(br#"{"candidate":"\uDD80","sdpMid":"send"}"#).is_none());

    assert!(ice::parse(br#"{"candidate":"\uD83E\n","sdpMid":"send"}"#).is_none());
}

#[test]
fn ice_parse_rejects_invalid_utf8_in_string() {
    let bad = b"{\"candidate\":\"abc\x80def\"}";
    assert!(ice::parse(bad).is_none());

    let truncated = b"{\"candidate\":\"abc\xC3\"}";
    assert!(ice::parse(truncated).is_none());
}

#[test]
fn voice_reply_extracts_join_reply_shape() {
    let mut body = Vec::new();
    body.extend(chunk(tag::CHAT_ID, &42u32.to_be_bytes()));
    body.extend(chunk(tag::VOICE_SDP, b"v=0\r\n"));
    body.extend(chunk(tag::VOICE_CODEC, b"PCMU"));
    let mut parts = Vec::new();
    parts.extend_from_slice(&5u16.to_be_bytes());
    parts.extend_from_slice(&0u16.to_be_bytes());
    parts.extend_from_slice(&0u16.to_be_bytes());
    body.extend(chunk(tag::VOICE_PARTICIPANTS, &parts));

    let buf = frame(&body);
    let r = parse_voice_join_reply(&buf, buf.len());
    assert_eq!(r.cid, 42);
    assert_eq!(r.sdp, Some(&b"v=0\r\n"[..]));
    assert_eq!(r.codec, Some(&b"PCMU"[..]));
    assert!(r.participants.is_some());
    let v: Vec<Participant> = parse_voice_participants(r.participants.unwrap());
    assert_eq!(v.len(), 1);
    assert_eq!(v[0].user_id, 5);
}

#[test]
fn voice_reply_extracts_602_offer_shape() {
    let mut body = Vec::new();
    body.extend(chunk(tag::CHAT_ID, &7u32.to_be_bytes()));
    body.extend(chunk(tag::VOICE_SDP, b"sdp body"));
    let buf = frame(&body);
    let r = parse_voice_reply(&buf, buf.len());
    assert_eq!(r.cid, 7);
    assert_eq!(r.sdp, Some(&b"sdp body"[..]));
    assert!(r.codec.is_none());
    assert!(r.participants.is_none());
}

#[test]
fn voice_reply_extracts_604_ice_shape() {
    let mut body = Vec::new();
    body.extend(chunk(tag::CHAT_ID, &7u32.to_be_bytes()));
    body.extend(chunk(tag::VOICE_ICE, b"{\"candidate\":\"\"}"));
    let buf = frame(&body);
    let r = parse_voice_reply(&buf, buf.len());
    assert_eq!(r.cid, 7);
    assert_eq!(r.ice, Some(&b"{\"candidate\":\"\"}"[..]));
}

#[test]
fn voice_reply_extracts_mute_shape() {
    let mut body = Vec::new();
    body.extend(chunk(tag::CHAT_ID, &7u32.to_be_bytes()));
    body.extend(chunk(tag::VOICE_MUTED, &1u16.to_be_bytes()));
    let buf = frame(&body);
    let r = parse_voice_reply(&buf, buf.len());
    assert_eq!(r.muted, Some(1));
}

#[test]
fn voice_reply_empty_body() {
    let buf = frame(&[]);
    let r = parse_voice_reply(&buf, buf.len());
    assert_eq!(r.cid, 0);
    assert!(r.sdp.is_none());
    assert!(r.ice.is_none());
    assert!(r.codec.is_none());
    assert!(r.muted.is_none());
    assert!(r.participants.is_none());
}

#[test]
fn ice_parse_decodes_escapes() {
    let json = br#"{"candidate":"\ud83e\udd80 \u0041\u00e9\n\t\"\\\/","sdpMid":"send"}"#;
    let c = ice::parse(json).expect("escapes");
    assert_eq!(c.candidate.as_deref(), Some("\u{1F980} A\u{e9}\n\t\"\\/"));
}

#[test]
fn ice_build_escapes_control_characters() {
    let c = ice::IceCandidate {
        candidate: Some("\u{1}\u{1f}\u{8}\u{c}\r\n\t".to_string()),
        sdp_mid: Some("m".to_string()),
        ..Default::default()
    };
    let json = ice::build(&c);
    assert!(json.is_ascii());
    assert!(json.contains(r"\u0001"));
    assert_eq!(ice::parse(json.as_bytes()), Some(c));
}

#[test]
fn labels_of_users_tell_them_apart() {
    for uid in [1u16, 9, 10, 99, 100, 65535] {
        let label = format!("user-{uid}");
        assert_eq!(parse_voice_mid_label(label.as_bytes()), Some(MidLabel::User(uid)));
    }
}

#[test]
fn line_ends_make_no_difference_to_a_summary() {
    let lf = "v=0\na=group:BUNDLE send user-7\nm=audio 0 RTP\na=mid:send\na=mid:user-7\na=mid:user-7\n\
              a=mid:what\na=rtpmap:0 PCMU/8000\n";
    let crlf = lf.replace('\n', "\r\n");
    let a = sdp::summarize(lf.as_bytes());
    assert_eq!(sdp::summarize(crlf.as_bytes()), a);
    assert_eq!(a.mids, vec![MidLabel::Send, MidLabel::User(7), MidLabel::User(7)]);
    assert_eq!(a.unknown_mids, vec!["what".to_string()]);
    assert!(a.has_disabled_slot && a.has_pcmu);
}

#[test]
fn a_candidate_is_one_complete_object() {
    let json = br#" {"candidate":"c","sdpMid":"m","x":[1,{"y":null}]} "#;
    assert!(ice::parse(json).is_some());
    for n in 0..json.len() - 1 {
        assert!(ice::parse(&json[..n]).is_none(), "{n}");
    }
    assert!(ice::parse(br#"{"candidate":"c","sdpMid":"m"}{}"#).is_none());
    assert!(ice::parse(br#"{"candidate":"c","sdpMid":"m","sdpMLineIndex":1.5}"#).is_none());
}
