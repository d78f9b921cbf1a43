use hotline::ffi::replies::{
    gtkhx_proto_parse_banner_get_reply, gtkhx_proto_parse_file_get_reply,
    gtkhx_proto_parse_file_put_reply, gtkhx_proto_parse_folder_get_reply,
    gtkhx_proto_parse_folder_put_reply, gtkhx_proto_parse_user_part, gtkhx_proto_parse_xfer_queue,
};
use hotline::ffi::send;
use hotline::messages::tag;
use hotline::outgoing::HxChunk;
use hotline::wire::Encoder;
use hotline::xfer::rflt::{self, Resume};
use hotline::HL_HDR_LEN;

type Sent = Vec<(u16, Vec<u8>)>;

/// What the first `n` chunks send.
fn sent(n: i32, chunks: &[HxChunk], scratch: &[u8]) -> Sent {
    chunks[..n as usize].iter().map(|c| (c.tag, c.bytes(scratch).to_vec())).collect()
}

fn want(fields: &[(u16, &[u8])]) -> Sent {
    fields.iter().map(|(t, d)| (*t, d.to_vec())).collect()
}

#[test]
fn chat_requests() {
    let mut c = [HxChunk::empty(); 4];
    let mut s = [0u8; 22];
    let n = send::gtkhx_proto_build_chat_create_chunks(0x0102, &mut c, &mut s);
    assert_eq!(sent(n, &c, &s), want(&[(tag::UID, &[1, 2])]));
    let n = send::gtkhx_proto_build_chat_invite_chunks(7, 0x0102, &mut c, &mut s);
    assert_eq!(sent(n, &c, &s), want(&[(tag::CHAT_ID, &[0, 0, 0, 7]), (tag::UID, &[1, 2])]));
    let n = send::gtkhx_proto_build_chat_part_chunks(7, &mut c, &mut s);
    assert_eq!(sent(n, &c, &s), want(&[(tag::CHAT_ID, &[0, 0, 0, 7])]));
    let n = send::gtkhx_proto_build_chat_decline_chunks(7, &mut c, &mut s);
    assert_eq!(sent(n, &c, &s), want(&[(tag::CHAT_ID, &[0, 0, 0, 7])]));
    let n = send::gtkhx_proto_build_chat_subject_chunks(7, b"tea", &mut c, &mut s);
    assert_eq!(
        sent(n, &c, &s),
        want(&[(tag::CHAT_ID, &[0, 0, 0, 7]), (tag::CHAT_SUBJECT, b"tea")])
    );
    let n = send::gtkhx_proto_build_agreement_agree_chunks(412, b"Me", 3, &mut c, &mut s);
    assert_eq!(
        sent(n, &c, &s),
        want(&[(tag::ICON, &[1, 156]), (tag::NAME, b"Me"), (tag::OPTIONS, &[0, 3])])
    );
}

#[test]
fn user_requests() {
    let mut c = [HxChunk::empty(); 4];
    let mut s = [0u8; 8];
    let n = send::gtkhx_proto_build_user_change_chunks(1, b"Me", false, 9, &mut c, &mut s);
    assert_eq!(sent(n, &c, &s), want(&[(tag::ICON, &[0, 1]), (tag::NAME, b"Me")]));
    let n = send::gtkhx_proto_build_user_change_chunks(1, b"Me", true, 9, &mut c, &mut s);
    assert_eq!(
        sent(n, &c, &s),
        want(&[(tag::ICON, &[0, 1]), (tag::NAME, b"Me"), (tag::COLOR, &[0, 0, 0, 9])])
    );
    let n = send::gtkhx_proto_build_user_kick_chunks(5, 0, &mut c, &mut s);
    assert_eq!(sent(n, &c, &s), want(&[(tag::UID, &[0, 5])]));
    let n = send::gtkhx_proto_build_user_kick_chunks(5, 1, &mut c, &mut s);
    assert_eq!(sent(n, &c, &s), want(&[(tag::BAN, &[0, 1]), (tag::UID, &[0, 5])]));
    let n = send::gtkhx_proto_build_user_getinfo_chunks(5, &mut c, &mut s);
    assert_eq!(sent(n, &c, &s), want(&[(tag::UID, &[0, 5])]));
    let n = send::gtkhx_proto_build_account_read_chunks(b"al", &mut c);
    assert_eq!(sent(n, &c, &s), want(&[(tag::LOGIN, b"al")]));
    let n = send::gtkhx_proto_build_account_delete_chunks(b"al", &mut c);
    assert_eq!(sent(n, &c, &s), want(&[(tag::LOGIN, b"al")]));
    let access = [1, 2, 3, 4, 5, 6, 7, 8];
    let n =
        send::gtkhx_proto_build_account_modify_chunks(b"al", b"pw", b"Al", &access, &mut c, &mut s);
    assert_eq!(
        sent(n, &c, &s),
        want(&[
            (tag::LOGIN, b"al"),
            (tag::PASSWORD, b"pw"),
            (tag::NAME, b"Al"),
            (tag::ACCESS, &access)
        ])
    );
}

#[test]
fn news_requests() {
    let mut c = [HxChunk::empty(); 6];
    let mut s = [0u8; 8];
    let n = send::gtkhx_proto_build_news_post_chunks(b"hi", &mut c);
    assert_eq!(sent(n, &c, &s), want(&[(tag::NEWS, b"hi")]));
    let n = send::gtkhx_proto_build_news_catlist_chunks(b"p", &mut c);
    assert_eq!(sent(n, &c, &s), want(&[(tag::NEWSPATH, b"p")]));
    let n = send::gtkhx_proto_build_news_dirlist_chunks(b"p", &mut c);
    assert_eq!(sent(n, &c, &s), want(&[(tag::NEWSPATH, b"p")]));
    let n = send::gtkhx_proto_build_news_delete_chunks(b"p", &mut c);
    assert_eq!(sent(n, &c, &s), want(&[(tag::NEWSPATH, b"p")]));
    let n = send::gtkhx_proto_build_news_mkdir_chunks(b"p", &mut c);
    assert_eq!(sent(n, &c, &s), want(&[(tag::NEWSPATH, b"p")]));
    let n = send::gtkhx_proto_build_news_mkcat_chunks(b"p", b"cat", &mut c);
    assert_eq!(sent(n, &c, &s), want(&[(tag::NEWSPATH, b"p"), (tag::CATEGORY, b"cat")]));
    let n = send::gtkhx_proto_build_news_delete_thread_chunks(b"p", 3, &mut c, &mut s);
    assert_eq!(sent(n, &c, &s), want(&[(tag::NEWSPATH, b"p"), (tag::THREADID, &[0, 0, 0, 3])]));
    let n = send::gtkhx_proto_build_news_getthread_chunks(b"p", 3, b"text/plain", &mut c, &mut s);
    assert_eq!(
        sent(n, &c, &s),
        want(&[
            (tag::NEWSPATH, b"p"),
            (tag::THREADID, &[0, 0, 0, 3]),
            (tag::NEWSTYPE, b"text/plain")
        ])
    );
    let n = send::gtkhx_proto_build_news_post_thread_chunks(
        b"p",
        1,
        b"text/plain",
        b"subj",
        b"text",
        2,
        &mut c,
        &mut s,
    );
    assert_eq!(
        sent(n, &c, &s),
        want(&[
            (tag::NEWSPATH, b"p"),
            (tag::PARENTTHREAD, &[0, 0, 0, 1]),
            (tag::NEWSTYPE, b"text/plain"),
            (tag::NEWSSUBJECT, b"subj"),
            (tag::NEWSDATA, b"text"),
            (tag::THREADID, &[0, 0, 0, 2])
        ])
    );
}

#[test]
fn file_requests() {
    let mut c = [HxChunk::empty(); 5];
    let mut s = [0u8; 12];
    let dir: Option<&[u8]> = Some(b"d");
    let n = send::gtkhx_proto_build_file_mkdir_chunks(b"d", &mut c);
    assert_eq!(sent(n, &c, &s), want(&[(tag::DIR, b"d")]));
    let n = send::gtkhx_proto_build_file_list_chunks(b"d", &mut c);
    assert_eq!(sent(n, &c, &s), want(&[(tag::DIR, b"d")]));
    let n = send::gtkhx_proto_build_file_delete_chunks(b"f", None, &mut c);
    assert_eq!(sent(n, &c, &s), want(&[(tag::FILE_NAME, b"f")]));
    let n = send::gtkhx_proto_build_file_getinfo_chunks(b"f", dir, &mut c);
    assert_eq!(sent(n, &c, &s), want(&[(tag::FILE_NAME, b"f"), (tag::DIR, b"d")]));
    let n = send::gtkhx_proto_build_file_getfolder_chunks(b"f", dir, &mut c);
    assert_eq!(sent(n, &c, &s), want(&[(tag::FILE_NAME, b"f"), (tag::DIR, b"d")]));
    let n = send::gtkhx_proto_build_file_setinfo_chunks(b"f", b"g", Some(b"note"), dir, &mut c);
    assert_eq!(
        sent(n, &c, &s),
        want(&[
            (tag::FILE_NAME, b"f"),
            (tag::FILE_RENAME, b"g"),
            (tag::FILE_COMMENT, b"note"),
            (tag::DIR, b"d")
        ])
    );
    let n = send::gtkhx_proto_build_file_setinfo_chunks(b"f", b"g", None, None, &mut c);
    assert_eq!(sent(n, &c, &s), want(&[(tag::FILE_NAME, b"f"), (tag::FILE_RENAME, b"g")]));
    let n = send::gtkhx_proto_build_file_move_chunks(b"f", b"d", b"e", &mut c);
    assert_eq!(
        sent(n, &c, &s),
        want(&[(tag::FILE_NAME, b"f"), (tag::DIR, b"d"), (tag::DIR_RENAME, b"e")])
    );
    let n = send::gtkhx_proto_build_file_symlink_chunks(b"f", b"d", b"e", b"g", &mut c);
    assert_eq!(
        sent(n, &c, &s),
        want(&[
            (tag::FILE_NAME, b"f"),
            (tag::DIR, b"d"),
            (tag::DIR_RENAME, b"e"),
            (tag::FILE_RENAME, b"g")
        ])
    );
    let n = send::gtkhx_proto_build_file_putfolder_chunks(b"f", None, 5, 6, &mut c, &mut s);
    assert_eq!(
        sent(n, &c, &s),
        want(&[
            (tag::FILE_NAME, b"f"),
            (tag::HTXF_SIZE, &[0, 0, 0, 5]),
            (tag::FILE_NFILES, &[0, 0, 0, 6])
        ])
    );
}

#[test]
fn transfer_requests() {
    let mut c = [HxChunk::empty(); 5];
    let mut s = [0u8; 12];
    let record = rflt::encode(Resume { data: 1, resource: 2 });
    let n = send::gtkhx_proto_build_file_get_chunks(b"f", None, Some(&record), &mut c);
    assert_eq!(sent(n, &c, &s), want(&[(tag::FILE_NAME, b"f"), (tag::RFLT, &record)]));
    assert_eq!(send::gtkhx_proto_build_file_get_chunks(b"f", None, Some(b"short"), &mut c), 0);
    let n = send::gtkhx_proto_build_file_put_chunks(
        b"f", Some(b"d"), true, 7, true, 0x1_0000_0007, &mut c, &mut s,
    );
    let got = sent(n, &c, &s);
    assert_eq!(n, 5);
    assert_eq!(got[0], (tag::FILE_NAME, b"f".to_vec()));
    assert_eq!(got[1], (tag::DIR, b"d".to_vec()));
    assert_eq!((got[2].0, got[2].1.len()), (tag::FILE_PREVIEW, 2));
    assert_eq!(got[3], (tag::HTXF_SIZE, vec![0, 0, 0, 7]));
    assert_eq!(got[4], (tag::XFERSIZE64, vec![0, 0, 0, 1, 0, 0, 0, 7]));
    let n = send::gtkhx_proto_build_file_put_chunks(
        b"f", None, false, 7, false, 0, &mut c, &mut s,
    );
    assert_eq!(n, 2);
}

fn message(fields: &[(u16, &[u8])]) -> Vec<u8> {
    let mut e = Encoder::new();
    e.put_bytes(&[0; HL_HDR_LEN]);
    for (t, d) in fields {
        e.put_chunk(*t, d);
    }
    e.into_vec()
}

#[test]
fn transfer_replies() {
    let record = rflt::encode(Resume { data: 11, resource: 22 });
    let msg = message(&[
        (tag::HTXF_REF, &[0, 0, 0, 9]),
        (tag::HTXF_SIZE, &[0, 0, 1, 0]),
        (tag::XFERSIZE64, &[0, 0, 0, 1, 0, 0, 0, 0]),
        (tag::QUEUE, &[0, 2]),
        (tag::FILE_NFILES, &[0, 4]),
        (tag::RFLT, &record),
        (tag::QUEUE, &[0, 3]),
    ]);
    let q = gtkhx_proto_parse_xfer_queue(&msg);
    assert_eq!((q.htxf_ref, q.queueid), (9, 3));
    let f = gtkhx_proto_parse_file_get_reply(&msg);
    assert_eq!((f.ref_, f.size, f.size64, f.queue, f.size64_seen), (9, 256, 1 << 32, 3, 1));
    let f = gtkhx_proto_parse_folder_get_reply(&msg);
    assert_eq!((f.ref_, f.size, f.nfiles, f.size64_seen), (9, 256, 4, 1));
    let p = gtkhx_proto_parse_file_put_reply(&msg);
    assert_eq!((p.ref_, p.queue, p.data_pos, p.rsrc_pos), (9, 3, 11, 22));
    let p = gtkhx_proto_parse_folder_put_reply(&msg);
    assert_eq!((p.ref_, p.queue), (9, 3));
    let b = gtkhx_proto_parse_banner_get_reply(&msg);
    assert_eq!((b.ref_, b.size), (9, 256));
}

#[test]
fn missing_numbers_are_zero() {
    let msg = message(&[(tag::XFERSIZE64, &[1, 2]), (tag::RFLT, &[0xff; 65])]);
    let f = gtkhx_proto_parse_file_get_reply(&msg);
    assert_eq!((f.ref_, f.size, f.size64, f.queue, f.size64_seen), (0, 0, 0, 0, 0));
    let p = gtkhx_proto_parse_file_put_reply(&msg);
    assert_eq!((p.data_pos, p.rsrc_pos), (0, 0));
    let u = gtkhx_proto_parse_user_part(&message(&[(tag::UID, &[0, 1, 0, 2])]));
    assert_eq!((u.cid, u.uid), (0, 2));
}
