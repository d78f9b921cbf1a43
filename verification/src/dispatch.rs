//! Which handler an incoming message goes to.
use vstd::prelude::*;

verus! {

/// The handlers of incoming messages.
#[derive(Debug, Clone, Copy, PartialEq, Eq, Structural)]
pub enum HandlerKind {
    Chat,
    Msg,
    UserChange,
    UserPart,
    NewsPost,
    Task,
    ChatSubject,
    ChatInvite,
    UserSelfInfo,
    Agreement,
    Banner,
    /// Goes to the handler of messages, with a notice first.
    PoliteQuit,
    XferQueue,
    VoiceSdpOffer,
    VoiceIce,
    VoiceRoomStatus,
    IconChange,
    /// None is known.
    Unknown,
}

impl HandlerKind {
    /// The number of a handler.
    pub open spec fn code_of(self) -> i32 {
        match self {
            HandlerKind::Chat => 0,
            HandlerKind::Msg => 1,
            HandlerKind::UserChange => 2,
            HandlerKind::UserPart => 3,
            HandlerKind::NewsPost => 4,
            HandlerKind::Task => 5,
            HandlerKind::ChatSubject => 6,
            HandlerKind::ChatInvite => 7,
            HandlerKind::UserSelfInfo => 8,
            HandlerKind::Agreement => 9,
            HandlerKind::Banner => 10,
            HandlerKind::PoliteQuit => 11,
            HandlerKind::XferQueue => 12,
            HandlerKind::VoiceSdpOffer => 13,
            HandlerKind::VoiceIce => 14,
            HandlerKind::VoiceRoomStatus => 15,
            HandlerKind::IconChange => 16,
            HandlerKind::Unknown => 17,
        }
    }

    /// The number of a handler.
    pub fn code(self) -> (r: i32)
        ensures
            r == self.code_of(),
    {
        match self {
            HandlerKind::Chat => 0,
            HandlerKind::Msg => 1,
            HandlerKind::UserChange => 2,
            HandlerKind::UserPart => 3,
            HandlerKind::NewsPost => 4,
            HandlerKind::Task => 5,
            HandlerKind::ChatSubject => 6,
            HandlerKind::ChatInvite => 7,
            HandlerKind::UserSelfInfo => 8,
            HandlerKind::Agreement => 9,
            HandlerKind::Banner => 10,
            HandlerKind::PoliteQuit => 11,
            HandlerKind::XferQueue => 12,
            HandlerKind::VoiceSdpOffer => 13,
            HandlerKind::VoiceIce => 14,
            HandlerKind::VoiceRoomStatus => 15,
            HandlerKind::IconChange => 16,
            HandlerKind::Unknown => 17,
        }
    }
}

/// Each handler has a number of its own.
pub proof fn codes_are_distinct(a: HandlerKind, b: HandlerKind)
    ensures
        a.code_of() == b.code_of() ==> a == b,
        0 <= a.code_of() <= 17,
{
}

pub const HTLS_HDR_NEWS_POST: u32 = 0x0000_0066;

pub const HTLS_HDR_MSG: u32 = 0x0000_0068;

pub const HTLS_HDR_CHAT: u32 = 0x0000_006a;

pub const HTLS_HDR_AGREEMENT: u32 = 0x0000_006d;

pub const HTLS_HDR_POLITEQUIT: u32 = 0x0000_006f;

pub const HTLS_HDR_CHAT_INVITE: u32 = 0x0000_0071;

pub const HTLS_HDR_CHAT_USER_CHANGE: u32 = 0x0000_0075;

pub const HTLS_HDR_CHAT_USER_PART: u32 = 0x0000_0076;

pub const HTLS_HDR_CHAT_SUBJECT: u32 = 0x0000_0077;

pub const HTLS_HDR_BANNER: u32 = 0x0000_007a;

pub const HTLS_HDR_QUEUE: u32 = 0x0000_00d3;

pub const HTLS_HDR_USER_CHANGE: u32 = 0x0000_012d;

pub const HTLS_HDR_USER_PART: u32 = 0x0000_012e;

pub const HTLS_HDR_USER_SELFINFO: u32 = 0x0000_0162;

pub const HTLS_HDR_MSG_BROADCAST: u32 = 0x0000_0163;

pub const HTLS_HDR_VOICE_SDP_OFFER: u32 = 0x0000_025a;

pub const HTLS_HDR_VOICE_ICE: u32 = 0x0000_025c;

pub const HTLS_HDR_VOICE_ROOM_STATUS: u32 = 0x0000_025d;

pub const HTLS_HDR_ICON_CHANGE: u32 = 0x0000_0748;

pub const HTLS_HDR_TASK: u32 = 0x0001_0000;

/// The handler of a message. A reply to a task may carry the number of the request in its low half,
/// and is a reply whatever stands there.
pub open spec fn handler_of(opcode: u32) -> HandlerKind {
    if opcode / 0x1_0000 == 1 {
        HandlerKind::Task
    } else {
        if opcode == HTLS_HDR_CHAT {
            HandlerKind::Chat
        } else if opcode == HTLS_HDR_MSG || opcode == HTLS_HDR_MSG_BROADCAST {
            HandlerKind::Msg
        } else if opcode == HTLS_HDR_USER_CHANGE || opcode == HTLS_HDR_CHAT_USER_CHANGE {
            HandlerKind::UserChange
        } else if opcode == HTLS_HDR_USER_PART || opcode == HTLS_HDR_CHAT_USER_PART {
            HandlerKind::UserPart
        } else if opcode == HTLS_HDR_NEWS_POST {
            HandlerKind::NewsPost
        } else if opcode == HTLS_HDR_CHAT_SUBJECT {
            HandlerKind::ChatSubject
        } else if opcode == HTLS_HDR_CHAT_INVITE {
            HandlerKind::ChatInvite
        } else if opcode == HTLS_HDR_USER_SELFINFO {
            HandlerKind::UserSelfInfo
        } else if opcode == HTLS_HDR_AGREEMENT {
            HandlerKind::Agreement
        } else if opcode == HTLS_HDR_BANNER {
            HandlerKind::Banner
        } else if opcode == HTLS_HDR_POLITEQUIT {
            HandlerKind::PoliteQuit
        } else if opcode == HTLS_HDR_QUEUE {
            HandlerKind::XferQueue
        } else if opcode == HTLS_HDR_VOICE_SDP_OFFER {
            HandlerKind::VoiceSdpOffer
        } else if opcode == HTLS_HDR_VOICE_ICE {
            HandlerKind::VoiceIce
        } else if opcode == HTLS_HDR_VOICE_ROOM_STATUS {
            HandlerKind::VoiceRoomStatus
        } else if opcode == HTLS_HDR_ICON_CHANGE {
            HandlerKind::IconChange
        } else {
            HandlerKind::Unknown
        }
    }
}

/// The handler of a message.
pub fn route(opcode: u32) -> (r: HandlerKind)
    ensures
        r == handler_of(opcode),
{
    assert((opcode & 0xffff_0000 == 0x0001_0000) == (opcode / 0x1_0000 == 1)) by (bit_vector);
    if opcode & 0xffff_0000 == HTLS_HDR_TASK {
        return HandlerKind::Task;
    }
    if opcode == HTLS_HDR_CHAT {
        HandlerKind::Chat
    } else if opcode == HTLS_HDR_MSG || opcode == HTLS_HDR_MSG_BROADCAST {
        HandlerKind::Msg
    } else if opcode == HTLS_HDR_USER_CHANGE || opcode == HTLS_HDR_CHAT_USER_CHANGE {
        HandlerKind::UserChange
    } else if opcode == HTLS_HDR_USER_PART || opcode == HTLS_HDR_CHAT_USER_PART {
        HandlerKind::UserPart
    } else if opcode == HTLS_HDR_NEWS_POST {
        HandlerKind::NewsPost
    } else if opcode == HTLS_HDR_CHAT_SUBJECT {
        HandlerKind::ChatSubject
    } else if opcode == HTLS_HDR_CHAT_INVITE {
        HandlerKind::ChatInvite
    } else if opcode == HTLS_HDR_USER_SELFINFO {
        HandlerKind::UserSelfInfo
    } else if opcode == HTLS_HDR_AGREEMENT {
        HandlerKind::Agreement
    } else if opcode == HTLS_HDR_BANNER {
        HandlerKind::Banner
    } else if opcode == HTLS_HDR_POLITEQUIT {
        HandlerKind::PoliteQuit
    } else if opcode == HTLS_HDR_QUEUE {
        HandlerKind::XferQueue
    } else if opcode == HTLS_HDR_VOICE_SDP_OFFER {
        HandlerKind::VoiceSdpOffer
    } else if opcode == HTLS_HDR_VOICE_ICE {
        HandlerKind::VoiceIce
    } else if opcode == HTLS_HDR_VOICE_ROOM_STATUS {
        HandlerKind::VoiceRoomStatus
    } else if opcode == HTLS_HDR_ICON_CHANGE {
        HandlerKind::IconChange
    } else {
        HandlerKind::Unknown
    }
}

/// The number of the handler of a message.
pub fn hx_recv_route(opcode: u32) -> (r: i32)
    ensures
        r == handler_of(opcode).code_of(),
{
    route(opcode).code()
}

/// Whatever the low half says, a reply to a task goes to the handler of tasks, and nothing else
/// does.
pub proof fn tasks_fold(opcode: u32)
    ensures
        handler_of(opcode) == HandlerKind::Task <==> 0x1_0000 <= opcode < 0x2_0000,
{
}

/// Which message goes to which handler, by its number on the wire. Public chat and private rooms
/// share the handlers for users that change or leave; broadcasts are messages.
pub proof fn numbers_have_their_handlers(opcode: u32, r: HandlerKind)
    requires
        call_ensures(route, (opcode,), r),
    ensures
        r == HandlerKind::Chat <==> opcode == 0x6a,
        r == HandlerKind::Msg <==> opcode == 0x68 || opcode == 0x163,
        r == HandlerKind::UserChange <==> opcode == 0x12d || opcode == 0x75,
        r == HandlerKind::UserPart <==> opcode == 0x12e || opcode == 0x76,
        r == HandlerKind::NewsPost <==> opcode == 0x66,
        r == HandlerKind::Task <==> 0x1_0000 <= opcode <= 0x1_ffff,
        r == HandlerKind::ChatSubject <==> opcode == 0x77,
        r == HandlerKind::ChatInvite <==> opcode == 0x71,
        r == HandlerKind::UserSelfInfo <==> opcode == 0x162,
        r == HandlerKind::Agreement <==> opcode == 0x6d,
        r == HandlerKind::Banner <==> opcode == 0x7a,
        r == HandlerKind::PoliteQuit <==> opcode == 0x6f,
        r == HandlerKind::XferQueue <==> opcode == 0xd3,
        r == HandlerKind::VoiceSdpOffer <==> opcode == 0x25a,
        r == HandlerKind::VoiceIce <==> opcode == 0x25c,
        r == HandlerKind::VoiceRoomStatus <==> opcode == 0x25d,
        r == HandlerKind::IconChange <==> opcode == 0x748,
{
}

/// The number of a handler is that of the handler that a message goes to, and tells which it is.
pub proof fn handlers_have_their_numbers(
    opcode: u32,
    k: HandlerKind,
    n: i32,
    m: i32,
    other: u32,
    o: i32,
)
    requires
        call_ensures(route, (opcode,), k),
        call_ensures(HandlerKind::code, (k,), n),
        call_ensures(hx_recv_route, (opcode,), m),
        call_ensures(hx_recv_route, (other,), o),
    ensures
        m == n,
        m == o <==> handler_of(opcode) == handler_of(other),
        k == HandlerKind::Chat ==> n == 0,
        k == HandlerKind::Msg ==> n == 1,
        k == HandlerKind::UserChange ==> n == 2,
        k == HandlerKind::UserPart ==> n == 3,
        k == HandlerKind::NewsPost ==> n == 4,
        k == HandlerKind::Task ==> n == 5,
        k == HandlerKind::ChatSubject ==> n == 6,
        k == HandlerKind::ChatInvite ==> n == 7,
        k == HandlerKind::UserSelfInfo ==> n == 8,
        k == HandlerKind::Agreement ==> n == 9,
        k == HandlerKind::Banner ==> n == 10,
        k == HandlerKind::PoliteQuit ==> n == 11,
        k == HandlerKind::XferQueue ==> n == 12,
        k == HandlerKind::VoiceSdpOffer ==> n == 13,
        k == HandlerKind::VoiceIce ==> n == 14,
        k == HandlerKind::VoiceRoomStatus ==> n == 15,
        k == HandlerKind::IconChange ==> n == 16,
        k == HandlerKind::Unknown ==> n == 17,
{
    codes_are_distinct(handler_of(opcode), handler_of(other));
}

} // verus!
