//! What to do once a login has been answered.
use vstd::prelude::*;

verus! {

/// What to do once a login has been answered.
#[derive(Debug, Clone, Copy, PartialEq, Eq, Structural)]
pub enum PostLoginAction {
    /// The lists have been fetched: nothing.
    Nothing,
    /// The server is of version 1.0 or 1.2 and knows no agreement: send name and icon, and fetch
    /// the lists now.
    FetchNow,
    /// The server is newer: the lists are fetched after the agreement. Arm a timer, in case that
    /// never comes.
    ArmFallback,
}

pub const HX_POST_LOGIN_NOTHING: i32 = 0;

pub const HX_POST_LOGIN_FETCH_NOW: i32 = 1;

pub const HX_POST_LOGIN_ARM_FALLBACK: i32 = 2;

/// What to do: nothing twice, and without a version, fetch now.
pub open spec fn action_for(version: u16, already_fetched: bool) -> PostLoginAction {
    if already_fetched {
        PostLoginAction::Nothing
    } else if version == 0 {
        PostLoginAction::FetchNow
    } else {
        PostLoginAction::ArmFallback
    }
}

/// What to do, given the version that the server states (zero if it states none) and whether the
/// lists have been fetched.
pub fn post_login_route(version: u16, already_fetched: bool) -> (r: PostLoginAction)
    ensures
        r == action_for(version, already_fetched),
{
    if already_fetched {
        PostLoginAction::Nothing
    } else if version == 0 {
        PostLoginAction::FetchNow
    } else {
        PostLoginAction::ArmFallback
    }
}

/// The same with numbers; any number but zero means that the lists have been fetched.
pub fn hx_post_login_route(version: u16, already_fetched: i32) -> (r: i32)
    ensures
        r == (match action_for(version, already_fetched != 0) {
            PostLoginAction::Nothing => HX_POST_LOGIN_NOTHING,
            PostLoginAction::FetchNow => HX_POST_LOGIN_FETCH_NOW,
            PostLoginAction::ArmFallback => HX_POST_LOGIN_ARM_FALLBACK,
        }),
{
    match post_login_route(version, already_fetched != 0) {
        PostLoginAction::Nothing => HX_POST_LOGIN_NOTHING,
        PostLoginAction::FetchNow => HX_POST_LOGIN_FETCH_NOW,
        PostLoginAction::ArmFallback => HX_POST_LOGIN_ARM_FALLBACK,
    }
}

/// The lists are fetched once. Before that, a server that states no version is asked at once, and
/// one that states any is waited for. The three actions have three numbers.
pub proof fn lists_are_fetched_once(
    version: u16,
    fetched: i32,
    r: PostLoginAction,
    n: i32,
)
    requires
        call_ensures(post_login_route, (version, fetched != 0), r),
        call_ensures(hx_post_login_route, (version, fetched), n),
    ensures
        r == PostLoginAction::Nothing <==> fetched != 0,
        r == PostLoginAction::FetchNow <==> fetched == 0 && version == 0,
        r == PostLoginAction::ArmFallback <==> fetched == 0 && version > 0,
        n == 0 <==> fetched != 0,
        n == 1 <==> fetched == 0 && version == 0,
        n == 2 <==> fetched == 0 && version > 0,
{
}

} // verus!
