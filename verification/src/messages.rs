//! Opcodes and data-field tags.
//!
//! Header opcodes are enums, one per direction: within a direction their values are distinct. The
//! data-field tags in [`tag`] are plain constants, because the wire reuses values: `0x0065` is the
//! body of a chat line, a message, a news post, an agreement or a user's information, as the
//! enclosing opcode has it.
pub mod tag;

use vstd::prelude::*;

verus! {

/// Client to server transaction opcodes.
#[non_exhaustive]
#[derive(Debug, Clone, Copy, PartialEq, Eq, Structural)]
pub enum ClientHdr {
    NewsGetFile,
    NewsPost,
    Chat,
    Login,
    Msg,
    UserKick,
    ChatCreate,
    ChatInvite,
    ChatDecline,
    ChatJoin,
    ChatPart,
    AgreementAgree,
    ChatSubject,
    FileList,
    FileGet,
    FilePut,
    FileDelete,
    FileMkdir,
    FileGetInfo,
    FileSetInfo,
    FileMove,
    FileGetFolder,
    DownloadBanner,
    FilePutFolder,
    KillDownload,
    UserGetList,
    UserGetInfo,
    UserChange,
    AccountRead,
    AccountModify,
    MsgBroadcast,
    GetThread,
    /// Asks for earlier lines of a chat.
    GetChatHistory,
    PostThread,
    Ping,
    /// Asks to join voice in a chat room; the reply carries the server's SDP offer.
    VoiceJoin,
    /// Leaves voice in a chat room.
    VoiceLeave,
    /// The SDP answer to a server-side offer.
    VoiceSdpAnswer,
    /// A trickled ICE candidate; the same opcode is used in both directions.
    VoiceIce,
    /// Toggles mute in a room.
    VoiceMute,
    /// Uploads image bytes, in one chunk or several.
    UploadMedia,
    /// Fetches the bytes behind a media handle.
    DownloadMedia,
}

/// Server to client transaction opcodes.
#[non_exhaustive]
#[derive(Debug, Clone, Copy, PartialEq, Eq, Structural)]
pub enum ServerHdr {
    Msg,
    Chat,
    Queue,
    UserChange,
    UserPart,
    UserSelfInfo,
    MsgBroadcast,
    Ping,
    /// An SDP offer, in a notification.
    VoiceSdpOffer,
    /// A trickled ICE candidate; the same opcode is used in both directions.
    VoiceIce,
    /// The participants of a room and their state, in a notification.
    VoiceRoomStatus,
    Task,
}

impl ClientHdr {
    /// The opcode on the wire.
    pub open spec fn wire(self) -> u32 {
        match self {
            ClientHdr::NewsGetFile => 0x0000_0065,
            ClientHdr::NewsPost => 0x0000_0067,
            ClientHdr::Chat => 0x0000_0069,
            ClientHdr::Login => 0x0000_006b,
            ClientHdr::Msg => 0x0000_006c,
            ClientHdr::UserKick => 0x0000_006e,
            ClientHdr::ChatCreate => 0x0000_0070,
            ClientHdr::ChatInvite => 0x0000_0071,
            ClientHdr::ChatDecline => 0x0000_0072,
            ClientHdr::ChatJoin => 0x0000_0073,
            ClientHdr::ChatPart => 0x0000_0074,
            ClientHdr::AgreementAgree => 0x0000_0079,
            ClientHdr::ChatSubject => 0x0000_0078,
            ClientHdr::FileList => 0x0000_00c8,
            ClientHdr::FileGet => 0x0000_00ca,
            ClientHdr::FilePut => 0x0000_00cb,
            ClientHdr::FileDelete => 0x0000_00cc,
            ClientHdr::FileMkdir => 0x0000_00cd,
            ClientHdr::FileGetInfo => 0x0000_00ce,
            ClientHdr::FileSetInfo => 0x0000_00cf,
            ClientHdr::FileMove => 0x0000_00d0,
            ClientHdr::FileGetFolder => 0x0000_00d2,
            ClientHdr::DownloadBanner => 0x0000_00d4,
            ClientHdr::FilePutFolder => 0x0000_00d5,
            ClientHdr::KillDownload => 0x0000_00d6,
            ClientHdr::UserGetList => 0x0000_012c,
            ClientHdr::UserGetInfo => 0x0000_012f,
            ClientHdr::UserChange => 0x0000_0130,
            ClientHdr::AccountRead => 0x0000_0160,
            ClientHdr::AccountModify => 0x0000_0161,
            ClientHdr::MsgBroadcast => 0x0000_0163,
            ClientHdr::GetThread => 0x0000_0190,
            ClientHdr::GetChatHistory => 0x0000_02bc,
            ClientHdr::PostThread => 0x0000_019a,
            ClientHdr::Ping => 0x0000_01f4,
            ClientHdr::VoiceJoin => 0x0000_0258,
            ClientHdr::VoiceLeave => 0x0000_0259,
            ClientHdr::VoiceSdpAnswer => 0x0000_025b,
            ClientHdr::VoiceIce => 0x0000_025c,
            ClientHdr::VoiceMute => 0x0000_025e,
            ClientHdr::UploadMedia => 0x0000_02ee,
            ClientHdr::DownloadMedia => 0x0000_02ef,
        }
    }

    /// The opcode on the wire.
    pub fn as_u32(self) -> (r: u32)
        ensures
            r == self.wire(),
    {
        match self {
            ClientHdr::NewsGetFile => 0x0000_0065,
            ClientHdr::NewsPost => 0x0000_0067,
            ClientHdr::Chat => 0x0000_0069,
            ClientHdr::Login => 0x0000_006b,
            ClientHdr::Msg => 0x0000_006c,
            ClientHdr::UserKick => 0x0000_006e,
            ClientHdr::ChatCreate => 0x0000_0070,
            ClientHdr::ChatInvite => 0x0000_0071,
            ClientHdr::ChatDecline => 0x0000_0072,
            ClientHdr::ChatJoin => 0x0000_0073,
            ClientHdr::ChatPart => 0x0000_0074,
            ClientHdr::AgreementAgree => 0x0000_0079,
            ClientHdr::ChatSubject => 0x0000_0078,
            ClientHdr::FileList => 0x0000_00c8,
            ClientHdr::FileGet => 0x0000_00ca,
            ClientHdr::FilePut => 0x0000_00cb,
            ClientHdr::FileDelete => 0x0000_00cc,
            ClientHdr::FileMkdir => 0x0000_00cd,
            ClientHdr::FileGetInfo => 0x0000_00ce,
            ClientHdr::FileSetInfo => 0x0000_00cf,
            ClientHdr::FileMove => 0x0000_00d0,
            ClientHdr::FileGetFolder => 0x0000_00d2,
            ClientHdr::DownloadBanner => 0x0000_00d4,
            ClientHdr::FilePutFolder => 0x0000_00d5,
            ClientHdr::KillDownload => 0x0000_00d6,
            ClientHdr::UserGetList => 0x0000_012c,
            ClientHdr::UserGetInfo => 0x0000_012f,
            ClientHdr::UserChange => 0x0000_0130,
            ClientHdr::AccountRead => 0x0000_0160,
            ClientHdr::AccountModify => 0x0000_0161,
            ClientHdr::MsgBroadcast => 0x0000_0163,
            ClientHdr::GetThread => 0x0000_0190,
            ClientHdr::GetChatHistory => 0x0000_02bc,
            ClientHdr::PostThread => 0x0000_019a,
            ClientHdr::Ping => 0x0000_01f4,
            ClientHdr::VoiceJoin => 0x0000_0258,
            ClientHdr::VoiceLeave => 0x0000_0259,
            ClientHdr::VoiceSdpAnswer => 0x0000_025b,
            ClientHdr::VoiceIce => 0x0000_025c,
            ClientHdr::VoiceMute => 0x0000_025e,
            ClientHdr::UploadMedia => 0x0000_02ee,
            ClientHdr::DownloadMedia => 0x0000_02ef,
        }
    }
}

impl ServerHdr {
    /// The opcode on the wire.
    pub open spec fn wire(self) -> u32 {
        match self {
            ServerHdr::Msg => 0x0000_0068,
            ServerHdr::Chat => 0x0000_006a,
            ServerHdr::Queue => 0x0000_00d3,
            ServerHdr::UserChange => 0x0000_012d,
            ServerHdr::UserPart => 0x0000_012e,
            ServerHdr::UserSelfInfo => 0x0000_0162,
            ServerHdr::MsgBroadcast => 0x0000_0163,
            ServerHdr::Ping => 0x0000_01f4,
            ServerHdr::VoiceSdpOffer => 0x0000_025a,
            ServerHdr::VoiceIce => 0x0000_025c,
            ServerHdr::VoiceRoomStatus => 0x0000_025d,
            ServerHdr::Task => 0x0001_0000,
        }
    }

    /// The opcode that `v` stands for, or `None` for one that is not known here.
    pub fn from_u32(v: u32) -> (r: Option<ServerHdr>)
        ensures
            match r {
                Some(h) => h.wire() == v,
                None => forall|h: ServerHdr| #![trigger h.wire()] h.wire() != v,
            },
    {
        if v == 0x0000_0068 {
            Some(ServerHdr::Msg)
        } else if v == 0x0000_006a {
            Some(ServerHdr::Chat)
        } else if v == 0x0000_00d3 {
            Some(ServerHdr::Queue)
        } else if v == 0x0000_012d {
            Some(ServerHdr::UserChange)
        } else if v == 0x0000_012e {
            Some(ServerHdr::UserPart)
        } else if v == 0x0000_0162 {
            Some(ServerHdr::UserSelfInfo)
        } else if v == 0x0000_0163 {
            Some(ServerHdr::MsgBroadcast)
        } else if v == 0x0000_01f4 {
            Some(ServerHdr::Ping)
        } else if v == 0x0000_025a {
            Some(ServerHdr::VoiceSdpOffer)
        } else if v == 0x0000_025c {
            Some(ServerHdr::VoiceIce)
        } else if v == 0x0000_025d {
            Some(ServerHdr::VoiceRoomStatus)
        } else if v == 0x0001_0000 {
            Some(ServerHdr::Task)
        } else {
            None
        }
    }

    /// The opcode on the wire.
    pub fn as_u32(self) -> (r: u32)
        ensures
            r == self.wire(),
    {
        match self {
            ServerHdr::Msg => 0x0000_0068,
            ServerHdr::Chat => 0x0000_006a,
            ServerHdr::Queue => 0x0000_00d3,
            ServerHdr::UserChange => 0x0000_012d,
            ServerHdr::UserPart => 0x0000_012e,
            ServerHdr::UserSelfInfo => 0x0000_0162,
            ServerHdr::MsgBroadcast => 0x0000_0163,
            ServerHdr::Ping => 0x0000_01f4,
            ServerHdr::VoiceSdpOffer => 0x0000_025a,
            ServerHdr::VoiceIce => 0x0000_025c,
            ServerHdr::VoiceRoomStatus => 0x0000_025d,
            ServerHdr::Task => 0x0001_0000,
        }
    }
}

/// Within a direction no two opcodes share a value.
pub proof fn opcodes_are_distinct(a: ClientHdr, b: ClientHdr, c: ServerHdr, d: ServerHdr)
    ensures
        a.wire() == b.wire() ==> a == b,
        c.wire() == d.wire() ==> c == d,
{
}

/// Stands for "no nickname colour".
pub const NICK_COLOR_NONE: u32 = 0xffff_ffff;

/// The numbers of the requests of a client.
pub proof fn requests_have_numbers(h: ClientHdr, v: u32)
    requires
        call_ensures(ClientHdr::as_u32, (h,), v),
    ensures
        h is NewsGetFile ==> v == 0x65,
        h is NewsPost ==> v == 0x67,
        h is Chat ==> v == 0x69,
        h is Login ==> v == 0x6b,
        h is Msg ==> v == 0x6c,
        h is UserKick ==> v == 0x6e,
        h is ChatCreate ==> v == 0x70,
        h is ChatInvite ==> v == 0x71,
        h is ChatDecline ==> v == 0x72,
        h is ChatJoin ==> v == 0x73,
        h is ChatPart ==> v == 0x74,
        h is AgreementAgree ==> v == 0x79,
        h is ChatSubject ==> v == 0x78,
        h is FileList ==> v == 0xc8,
        h is FileGet ==> v == 0xca,
        h is FilePut ==> v == 0xcb,
        h is FileDelete ==> v == 0xcc,
        h is FileMkdir ==> v == 0xcd,
        h is FileGetInfo ==> v == 0xce,
        h is FileSetInfo ==> v == 0xcf,
        h is FileMove ==> v == 0xd0,
        h is FileGetFolder ==> v == 0xd2,
        h is DownloadBanner ==> v == 0xd4,
        h is FilePutFolder ==> v == 0xd5,
        h is KillDownload ==> v == 0xd6,
        h is UserGetList ==> v == 0x12c,
        h is UserGetInfo ==> v == 0x12f,
        h is UserChange ==> v == 0x130,
        h is AccountRead ==> v == 0x160,
        h is AccountModify ==> v == 0x161,
        h is MsgBroadcast ==> v == 0x163,
        h is GetThread ==> v == 0x190,
        h is GetChatHistory ==> v == 0x2bc,
        h is PostThread ==> v == 0x19a,
        h is Ping ==> v == 0x1f4,
        h is VoiceJoin ==> v == 0x258,
        h is VoiceLeave ==> v == 0x259,
        h is VoiceSdpAnswer ==> v == 0x25b,
        h is VoiceIce ==> v == 0x25c,
        h is VoiceMute ==> v == 0x25e,
        h is UploadMedia ==> v == 0x2ee,
        h is DownloadMedia ==> v == 0x2ef,
{
}

/// The numbers of what a server sends. Each is told by its number, and other numbers are none of
/// them.
pub proof fn server_messages_have_numbers(h: ServerHdr, v: u32, w: u32, r: Option<ServerHdr>)
    requires
        call_ensures(ServerHdr::as_u32, (h,), v),
        call_ensures(ServerHdr::from_u32, (w,), r),
    ensures
        h is Msg ==> v == 0x68,
        h is Chat ==> v == 0x6a,
        h is Queue ==> v == 0xd3,
        h is UserChange ==> v == 0x12d,
        h is UserPart ==> v == 0x12e,
        h is UserSelfInfo ==> v == 0x162,
        h is MsgBroadcast ==> v == 0x163,
        h is Ping ==> v == 0x1f4,
        h is VoiceSdpOffer ==> v == 0x25a,
        h is VoiceIce ==> v == 0x25c,
        h is VoiceRoomStatus ==> v == 0x25d,
        h is Task ==> v == 0x10000,
        v == w ==> r == Some(h),
        r matches Some(g) ==> (g == h ==> v == w),
        r is None ==> w != 0x68 && w != 0x6a && w != 0xd3 && w != 0x12d && w != 0x12e
            && w != 0x162 && w != 0x163 && w != 0x1f4 && w != 0x25a && w != 0x25c && w != 0x25d
            && w != 0x10000,
{
    if r is None {
        assert(ServerHdr::Msg.wire() != w);
        assert(ServerHdr::Chat.wire() != w);
        assert(ServerHdr::Queue.wire() != w);
        assert(ServerHdr::UserChange.wire() != w);
        assert(ServerHdr::UserPart.wire() != w);
        assert(ServerHdr::UserSelfInfo.wire() != w);
        assert(ServerHdr::MsgBroadcast.wire() != w);
        assert(ServerHdr::Ping.wire() != w);
        assert(ServerHdr::VoiceSdpOffer.wire() != w);
        assert(ServerHdr::VoiceIce.wire() != w);
        assert(ServerHdr::VoiceRoomStatus.wire() != w);
        assert(ServerHdr::Task.wire() != w);
    }
    if v == w {
        assert(h.wire() == w);
        if let Some(g) = r {
            opcodes_are_distinct(ClientHdr::Ping, ClientHdr::Ping, g, h);
        }
    }
}

} // verus!
