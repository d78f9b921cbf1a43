//! The Hotline protocol: its wire format, the rules a client applies to what it receives, the file
//! transfer containers and the Macintosh metadata that travels with a file.
pub mod bytes;
pub mod dispatch;
pub mod emoji;
pub mod ffi;
pub mod gif_icons;
pub mod hfs;
pub mod hl_date;
pub mod inline_media;
pub mod login;
pub mod messages;
pub mod outgoing;
pub mod sanitize;
pub mod suffix;
pub mod text;
pub mod user_change;
pub mod video;
pub mod voice;
pub mod wire;
pub mod xfer;

use vstd::prelude::*;

verus! {

/// Size of the transaction header: type, transaction id, flag, two lengths of four bytes each, and
/// a chunk count of two.
pub const HL_HDR_LEN: usize = 22;

/// Size of a data-chunk header: type and length.
pub const HL_DATA_HDR_LEN: usize = 4;

} // verus!
