use hotline::messages::{tag, ClientHdr, ServerHdr};

#[test]
fn client_opcode_values_match_header() {
    assert_eq!(ClientHdr::Login.as_u32(), 0x0000_006b);
    assert_eq!(ClientHdr::UserGetList.as_u32(), 0x0000_012c);
    assert_eq!(ClientHdr::Ping.as_u32(), 0x0000_01f4);
}

#[test]
fn voice_opcode_numeric_values_match_spec() {
    assert_eq!(ClientHdr::VoiceJoin.as_u32(), 600);
    assert_eq!(ClientHdr::VoiceLeave.as_u32(), 601);
    assert_eq!(ServerHdr::VoiceSdpOffer.as_u32(), 602);
    assert_eq!(ClientHdr::VoiceSdpAnswer.as_u32(), 603);
    assert_eq!(ClientHdr::VoiceIce.as_u32(), 604);
    assert_eq!(ServerHdr::VoiceIce.as_u32(), 604);
    assert_eq!(ServerHdr::VoiceRoomStatus.as_u32(), 605);
    assert_eq!(ClientHdr::VoiceMute.as_u32(), 606);

    assert_eq!(ServerHdr::from_u32(602), Some(ServerHdr::VoiceSdpOffer));
    assert_eq!(ServerHdr::from_u32(604), Some(ServerHdr::VoiceIce));
    assert_eq!(ServerHdr::from_u32(605), Some(ServerHdr::VoiceRoomStatus));
}

#[test]
fn voice_field_tag_values_match_spec() {
    assert_eq!(tag::VOICE_SDP, 0x01f5);
    assert_eq!(tag::VOICE_ICE, 0x01f6);
    assert_eq!(tag::VOICE_CODEC, 0x01f7);
    assert_eq!(tag::VOICE_MUTED, 0x01f8);
    assert_eq!(tag::VOICE_PARTICIPANTS, 0x01f9);
}

#[test]
fn inline_media_opcode_values_match_spec() {
    assert_eq!(ClientHdr::UploadMedia.as_u32(), 750);
    assert_eq!(ClientHdr::DownloadMedia.as_u32(), 751);
    assert_eq!(ClientHdr::UploadMedia.as_u32(), 0x02ee);
    assert_eq!(ClientHdr::DownloadMedia.as_u32(), 0x02ef);
}

#[test]
fn inline_media_field_tag_values_match_spec() {
    assert_eq!(tag::CHAT_MEDIA_TYPE, 0x0201);
    assert_eq!(tag::CHAT_MEDIA_ID, 0x0202);
    assert_eq!(tag::CHAT_MEDIA_PAYLOAD, 0x0203);
    assert_eq!(tag::CHAT_MEDIA_DECLARED_TYPE, 0x0204);
    assert_eq!(tag::CHAT_MEDIA_WIDTH, 0x0205);
    assert_eq!(tag::CHAT_MEDIA_HEIGHT, 0x0206);
    assert_eq!(tag::CHAT_MEDIA_BYTES, 0x0207);
    assert_eq!(tag::CHAT_MEDIA_UPLOAD_TOKEN, 0x0208);
    assert_eq!(tag::CHAT_MEDIA_PART_INDEX, 0x0209);
    assert_eq!(tag::CHAT_MEDIA_PART_COUNT, 0x020a);
    assert_eq!(tag::CHAT_MEDIA_PART_FINAL, 0x020b);
    assert_eq!(tag::CHAT_MEDIA_MAX_BYTES, 0x020c);
    assert_eq!(tag::CHAT_MEDIA_MAX_DIMENSION, 0x020d);
    assert_eq!(tag::CHAT_MEDIA_MAX_PIXELS, 0x020e);
    assert_eq!(tag::CHAT_MEDIA_CHUNK_SIZE, 0x020f);
    assert_eq!(tag::CHAT_MEDIA_MAX_FRAMES, 0x0210);
    assert_eq!(tag::CHAT_MEDIA_MAX_DURATION_MS, 0x0211);
    assert_eq!(tag::CHAT_MEDIA_ERROR_CODE, 0x0212);
}

#[test]
fn server_opcodes_come_back() {
    for hdr in [ServerHdr::VoiceSdpOffer, ServerHdr::VoiceIce, ServerHdr::VoiceRoomStatus] {
        assert_eq!(ServerHdr::from_u32(hdr.as_u32()), Some(hdr));
    }
    assert_eq!(ServerHdr::from_u32(0xdead_beef), None);
}
