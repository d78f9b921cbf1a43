//! Data-field tags.
use vstd::prelude::*;

verus! {

/// Task error string, in a task reply.
pub const TASK_ERROR: u16 = 0x0064;

/// Body of a chat line, a message, a news post, an agreement or a user's information.
pub const BODY: u16 = 0x0065;

/// Nickname.
pub const NAME: u16 = 0x0066;

/// User id (16 bits).
pub const UID: u16 = 0x0067;

/// Icon id (16 bits).
pub const ICON: u16 = 0x0068;

/// Login name.
pub const LOGIN: u16 = 0x0069;

/// Password.
pub const PASSWORD: u16 = 0x006a;

/// Transfer reference.
pub const HTXF_REF: u16 = 0x006b;

/// Transfer size.
pub const HTXF_SIZE: u16 = 0x006c;

/// Style of an outgoing chat line.
pub const STYLE: u16 = 0x006d;

/// Access bitmap (64 bits).
pub const ACCESS: u16 = 0x006e;

/// Status colour bitmap (16 bits).
pub const COLOUR: u16 = 0x0070;

/// Options of an agreement reply (16 bits). Some servers cannot do without it.
pub const OPTIONS: u16 = 0x0071;

/// The "and ban" flag of a kick; the same value as [`OPTIONS`].
pub const BAN: u16 = OPTIONS;

/// Chat id (32 bits).
pub const CHAT_ID: u16 = 0x0072;

/// Chat subject.
pub const CHAT_SUBJECT: u16 = 0x0073;

/// Position in the transfer queue (32 bits); zero means that the transfer can start.
pub const QUEUE: u16 = 0x0074;

/// Banner type code (four bytes).
pub const BANNER_TYPE: u16 = 0x0098;

/// File name.
pub const FILE_NAME: u16 = 0x00c9;

/// Directory path.
pub const DIR: u16 = 0x00ca;

/// Resume fork list of a download (74 bytes).
pub const RFLT: u16 = 0x00cb;

/// Preview marker of an upload (two bytes).
pub const FILE_PREVIEW: u16 = 0x00cc;

/// File type code.
pub const FILE_TYPE: u16 = 0x00cd;

/// File creator code.
pub const FILE_CREATOR: u16 = 0x00ce;

/// File size, in one to four bytes.
pub const FILE_SIZE: u16 = 0x00cf;

/// Creation date (eight bytes).
pub const FILE_DATE_CREATE: u16 = 0x00d0;

/// Modification date (eight bytes).
pub const FILE_DATE_MODIFY: u16 = 0x00d1;

/// File comment.
pub const FILE_COMMENT: u16 = 0x00d2;

/// New file name.
pub const FILE_RENAME: u16 = 0x00d3;

/// Destination directory.
pub const DIR_RENAME: u16 = 0x00d4;

/// File icon code (four bytes).
pub const FILE_ICON: u16 = 0x00d5;

/// Number of files in a folder (32 bits).
pub const FILE_NFILES: u16 = 0x00dc;

/// Banner address.
pub const BANNER_URL: u16 = 0x0099;

/// The server has no agreement.
pub const NOAGREEMENT: u16 = 0x009a;

/// Version.
pub const VERSION: u16 = 0x00a0;

/// Server name.
pub const SERVERNAME: u16 = 0x00a2;

/// Negotiated session capabilities.
pub const CAPABILITIES: u16 = 0x01f0;

/// Channel of a chat-history request (32 bits).
pub const CHANNEL_ID: u16 = 0x0f01;

/// Lines older than this message id (64 bits).
pub const HISTORY_BEFORE: u16 = 0x0f02;

/// Lines newer than this message id (64 bits).
pub const HISTORY_AFTER: u16 = 0x0f03;

/// At most this many lines (16 bits).
pub const HISTORY_LIMIT: u16 = 0x0f04;

/// How many lines the server keeps.
pub const HISTORY_MAX_MSGS: u16 = 0x0f07;

/// How many days the server keeps lines.
pub const HISTORY_MAX_DAYS: u16 = 0x0f08;

/// User list record.
pub const USER_LIST: u16 = 0x012c;

/// Entry of a news directory listing.
pub const NEWSFOLDERITEM: u16 = 0x0140;

/// Article listing of a news category.
pub const CATLIST: u16 = 0x0141;

/// Name of a news category.
pub const CATEGORY: u16 = 0x0142;

/// Entry of a news directory listing, with per-category metadata.
pub const CATEGORYITEM: u16 = 0x0143;

/// News path.
pub const NEWSPATH: u16 = 0x0145;

/// News thread id (32 bits).
pub const THREADID: u16 = 0x0146;

/// MIME type of an article.
pub const NEWSTYPE: u16 = 0x0147;

/// Subject of an article.
pub const NEWSSUBJECT: u16 = 0x0148;

/// Body of an article.
pub const NEWSDATA: u16 = 0x014d;

/// Parent of a news thread (32 bits).
pub const PARENTTHREAD: u16 = 0x014e;

/// File size (64 bits).
pub const FILESIZE64: u16 = 0x01f1;

/// Transfer size (64 bits).
pub const XFERSIZE64: u16 = 0x01f3;

/// Session description.
pub const VOICE_SDP: u16 = 0x01f5;

/// ICE candidate in JSON; empty after the last one.
pub const VOICE_ICE: u16 = 0x01f6;

/// Name of the active codec.
pub const VOICE_CODEC: u16 = 0x01f7;

/// Mute state (16 bits).
pub const VOICE_MUTED: u16 = 0x01f8;

/// MIME type of a medium, as the server found it.
pub const CHAT_MEDIA_TYPE: u16 = 0x0201;

/// Media handle (at most 64 bytes).
pub const CHAT_MEDIA_ID: u16 = 0x0202;

/// Media bytes.
pub const CHAT_MEDIA_PAYLOAD: u16 = 0x0203;

/// MIME type that the sender claims.
pub const CHAT_MEDIA_DECLARED_TYPE: u16 = 0x0204;

/// Image width (32 bits).
pub const CHAT_MEDIA_WIDTH: u16 = 0x0205;

/// Image height (32 bits).
pub const CHAT_MEDIA_HEIGHT: u16 = 0x0206;

/// Image size in bytes (32 bits).
pub const CHAT_MEDIA_BYTES: u16 = 0x0207;

/// Token of a chunked upload (at most 64 bytes).
pub const CHAT_MEDIA_UPLOAD_TOKEN: u16 = 0x0208;

/// Chunk index from zero (16 bits).
pub const CHAT_MEDIA_PART_INDEX: u16 = 0x0209;

/// Number of chunks (16 bits).
pub const CHAT_MEDIA_PART_COUNT: u16 = 0x020a;

/// Not zero on the last chunk (8 bits).
pub const CHAT_MEDIA_PART_FINAL: u16 = 0x020b;

/// Largest payload the server takes (32 bits).
pub const CHAT_MEDIA_MAX_BYTES: u16 = 0x020c;

/// Largest width or height the server takes (32 bits).
pub const CHAT_MEDIA_MAX_DIMENSION: u16 = 0x020d;

/// Largest pixel count the server takes (32 bits).
pub const CHAT_MEDIA_MAX_PIXELS: u16 = 0x020e;

/// Chunk size the server asks for (32 bits).
pub const CHAT_MEDIA_CHUNK_SIZE: u16 = 0x020f;

/// Largest frame count the server takes (32 bits).
pub const CHAT_MEDIA_MAX_FRAMES: u16 = 0x0210;

/// Longest animation the server takes, in milliseconds (32 bits).
pub const CHAT_MEDIA_MAX_DURATION_MS: u16 = 0x0211;

/// Why a medium was refused (16 bits).
pub const CHAT_MEDIA_ERROR_CODE: u16 = 0x0212;

/// Packed participant list.
pub const VOICE_PARTICIPANTS: u16 = 0x01f9;

/// Nickname colour (32 bits).
pub const COLOR: u16 = 0x0500;

/// Avatar in GIF format; empty clears it.
pub const ICON_GIF: u16 = 0x0300;

/// One packed avatar of a list.
pub const ICON_LIST: u16 = 0x0301;

/// Body of a flat news post; the same value as [`BODY`].
pub const NEWS: u16 = BODY;

} // verus!
