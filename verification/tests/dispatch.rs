use hotline::dispatch::HandlerKind::{
    Agreement, Banner, Chat, ChatInvite, ChatSubject, IconChange, Msg, NewsPost, PoliteQuit, Task,
    Unknown, UserChange, UserPart, UserSelfInfo, VoiceIce, VoiceRoomStatus, VoiceSdpOffer,
    XferQueue,
};
use hotline::dispatch::{hx_recv_route, route, HandlerKind};

#[test]
fn every_wire_opcode_routes_to_its_handler() {
    let table: &[(u32, HandlerKind)] = &[
        (0x0000_006a, Chat),
        (0x0000_0068, Msg),
        (0x0000_0163, Msg),
        (0x0000_012d, UserChange),
        (0x0000_0075, UserChange),
        (0x0000_012e, UserPart),
        (0x0000_0076, UserPart),
        (0x0000_0066, NewsPost),
        (0x0001_0000, Task),
        (0x0000_0077, ChatSubject),
        (0x0000_0071, ChatInvite),
        (0x0000_0162, UserSelfInfo),
        (0x0000_006d, Agreement),
        (0x0000_007a, Banner),
        (0x0000_006f, PoliteQuit),
        (0x0000_00d3, XferQueue),
        (0x0000_025a, VoiceSdpOffer),
        (0x0000_025c, VoiceIce),
        (0x0000_025d, VoiceRoomStatus),
        (0x0000_0748, IconChange),
    ];
    for &(opcode, kind) in table {
        assert_eq!(route(opcode), kind, "route(0x{opcode:08x})");
    }
}

#[test]
fn composite_task_replies_fold_to_task() {
    assert_eq!(route(0x0001_0000), Task);
    assert_eq!(route(0x0001_006b), Task);
    assert_eq!(route(0x0001_012c), Task);
    assert_eq!(route(0x0001_ffff), Task);
}

#[test]
fn unrecognised_opcodes_are_unknown() {
    assert_eq!(route(0x0000_0000), Unknown);
    assert_eq!(route(0xdead_beef), Unknown);
    assert_eq!(route(0x0000_01f4), Unknown);
}

#[test]
fn routes_have_numbers_of_their_own() {
    assert_eq!((Chat.code(), Unknown.code()), (0, 17));
    assert_eq!(hx_recv_route(0xdead_beef), Unknown.code());
    assert_eq!(hx_recv_route(0x0000_006a), Chat.code());
    assert_eq!(hx_recv_route(0x0001_006b), Task.code());
    assert_ne!(Chat.code(), Task.code());
}
