//! Hotline file-transfer wire primitives.
//!
//! This part owns byte shapes, not sockets or file systems. Callers stream fork bytes between the
//! prefix and the suffix that [`ffo::encode`] returns.
pub mod ffo;
pub mod htxf;
pub mod resume_digest;
pub mod rflt;

use crate::text;
use crate::text::push_decimal;
use vstd::prelude::*;
use vstd::string::*;

verus! {

/// A resume offset outside the fork it addresses.
#[derive(Debug, Clone, Copy, PartialEq, Eq, Structural)]
pub struct RangeError {
    pub total: u64,
    pub offset: u64,
}

impl RangeError {
    /// What [`RangeError::message`] says.
    pub open spec fn message_text(&self) -> Seq<char> {
        "offset "@ + text::decimal_text(self.offset as nat) + " exceeds length "@
            + text::decimal_text(self.total as nat)
    }

    /// The error in words.
    pub fn message(&self) -> (r: String)
        ensures
            r@ == self.message_text(),
    {
        let mut s = "offset ".to_owned();
        push_decimal(&mut s, self.offset);
        s.append(" exceeds length ");
        push_decimal(&mut s, self.total);
        s
    }
}

/// Checked subtraction used for every resumed fork.
pub fn remaining(total: u64, offset: u64) -> (r: Result<u64, RangeError>)
    ensures
        r == (if offset <= total {
            Ok::<u64, RangeError>((total - offset) as u64)
        } else {
            Err::<u64, RangeError>(RangeError { total, offset })
        }),
{
    match total.checked_sub(offset) {
        Some(n) => Ok(n),
        None => Err(RangeError { total, offset }),
    }
}

/// What is left of a fork and what was had make up the fork; an offset behind its end is refused and
/// reported with the length.
pub proof fn what_is_left_makes_it_whole(total: u64, offset: u64, r: Result<u64, RangeError>)
    requires
        call_ensures(remaining, (total, offset), r),
    ensures
        r is Ok <==> offset <= total,
        r matches Ok(n) ==> n + offset == total,
        r matches Err(e) ==> e.total == total && e.offset == offset,
{
}

/// The error names first the offset and then the length.
pub proof fn range_error_in_words(e: RangeError, r: String)
    requires
        call_ensures(RangeError::message, (&e,), r),
    ensures
        r@ == "offset "@ + text::decimal_text(e.offset as nat) + " exceeds length "@
            + text::decimal_text(e.total as nat),
{
}

} // verus!
