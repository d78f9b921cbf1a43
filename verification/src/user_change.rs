//! What to do when a user has changed.
//!
//! A change comes with a user's id, and perhaps a name and colours. What follows from it depends on
//! whether the user is known already, and on whether it is the client itself.
use crate::messages::NICK_COLOR_NONE;
use crate::text::same_bytes;
use crate::wire;
use vstd::prelude::*;
use vstd::slice::slice_subrange;

verus! {

/// A change, and what is known before it.
pub struct ChangeInput<'a> {
    pub uid: u16,
    /// The name; may be empty.
    pub name: &'a [u8],
    /// The change carries a status.
    pub got_color: bool,
    pub color: u16,
    /// The change carries a colour for the name.
    pub got_nick_color: bool,
    pub nick_color: u32,
    /// The user is known already.
    pub old_exists: bool,
    /// The status of a user that is known.
    pub old_status: u16,
    /// The colour of the name of a user that is known.
    pub old_nick_color: u32,
    /// The name of a user that is known.
    pub old_name: Option<&'a [u8]>,
    /// The client's own id; zero if the server has not told it yet.
    pub self_uid: u16,
    /// The client's own name.
    pub self_name: Option<&'a [u8]>,
}

/// What a [`ChangeInput`] holds.
pub struct ChangeView {
    pub uid: u16,
    pub name: Seq<u8>,
    pub got_color: bool,
    pub color: u16,
    pub got_nick_color: bool,
    pub nick_color: u32,
    pub old_exists: bool,
    pub old_status: u16,
    pub old_nick_color: u32,
    pub old_name: Option<Seq<u8>>,
    pub self_uid: u16,
    pub self_name: Option<Seq<u8>>,
}

impl View for ChangeInput<'_> {
    type V = ChangeView;

    open spec fn view(&self) -> ChangeView {
        ChangeView {
            uid: self.uid,
            name: self.name@,
            got_color: self.got_color,
            color: self.color,
            got_nick_color: self.got_nick_color,
            nick_color: self.nick_color,
            old_exists: self.old_exists,
            old_status: self.old_status,
            old_nick_color: self.old_nick_color,
            old_name: wire::opt_view(self.old_name),
            self_uid: self.self_uid,
            self_name: wire::opt_view(self.self_name),
        }
    }
}

/// What to do.
#[derive(Debug, Clone, Copy, PartialEq, Eq, Structural)]
pub struct ChangePlan {
    /// The id of the change is the client's own, which it did not know.
    pub adopt_self_uid: bool,
    /// The change is about the client itself.
    pub is_self: bool,
    /// The user was not known.
    pub is_new: bool,
    /// The client itself is not added to the list.
    pub skip_self_create: bool,
    /// Say that someone has a new name.
    pub do_rename_notice: bool,
    /// The status from now on.
    pub eff_color: u16,
    /// The colour of the name from now on.
    pub eff_nick_color: u32,
}

/// Nothing to do.
pub open spec fn no_plan() -> ChangePlan {
    ChangePlan {
        adopt_self_uid: false,
        is_self: false,
        is_new: false,
        skip_self_create: false,
        do_rename_notice: false,
        eff_color: 0,
        eff_nick_color: 0,
    }
}

impl Default for ChangePlan {
    fn default() -> (r: Self)
        ensures
            r == no_plan(),
    {
        ChangePlan {
            adopt_self_uid: false,
            is_self: false,
            is_new: false,
            skip_self_create: false,
            do_rename_notice: false,
            eff_color: 0,
            eff_nick_color: 0,
        }
    }
}

/// Some servers do not tell the client its id. The first change with the client's own name then
/// tells it.
pub open spec fn adopts(inp: ChangeView) -> bool {
    inp.self_uid == 0 && inp.uid != 0 && inp.name.len() > 0 && inp.self_name == Some(inp.name)
}

/// The client's own id, once the change is taken into account.
pub open spec fn own_uid(inp: ChangeView) -> u16 {
    if adopts(inp) {
        inp.uid
    } else {
        inp.self_uid
    }
}

/// What to do. A status or a colour that the change does not carry stays what it was; a new user
/// has the status in the change, and no colour.
pub open spec fn plan_for(inp: ChangeView) -> ChangePlan {
    let is_self = inp.uid != 0 && inp.uid == own_uid(inp);
    ChangePlan {
        adopt_self_uid: adopts(inp),
        is_self,
        is_new: !inp.old_exists,
        skip_self_create: !inp.old_exists && is_self,
        do_rename_notice: inp.old_exists && inp.uid != own_uid(inp) && inp.name.len() > 0
            && inp.old_name is Some && inp.old_name != Some(inp.name),
        eff_color: if !inp.got_color && inp.old_exists {
            inp.old_status
        } else {
            inp.color
        },
        eff_nick_color: if inp.got_nick_color {
            inp.nick_color
        } else if inp.old_exists {
            inp.old_nick_color
        } else {
            NICK_COLOR_NONE
        },
    }
}

fn is_named(name: Option<&[u8]>, other: &[u8]) -> (r: bool)
    ensures
        r == (wire::opt_view(name) == Some(other@)),
{
    match name {
        Some(n) => same_bytes(n, other),
        None => false,
    }
}

/// Decides what to do.
pub fn resolve(inp: &ChangeInput<'_>) -> (r: ChangePlan)
    ensures
        r == plan_for(inp@),
{
    let mut out = ChangePlan::default();
    let mut own: u16 = inp.self_uid;
    if inp.self_uid == 0 && inp.uid != 0 && !inp.name.is_empty() && is_named(
        inp.self_name,
        inp.name,
    ) {
        out.adopt_self_uid = true;
        own = inp.uid;
    }
    out.is_self = inp.uid != 0 && inp.uid == own;
    out.is_new = !inp.old_exists;
    out.skip_self_create = out.is_new && out.is_self;
    out.eff_color = if inp.got_color {
        inp.color
    } else if inp.old_exists {
        inp.old_status
    } else {
        inp.color
    };
    out.eff_nick_color = if inp.got_nick_color {
        inp.nick_color
    } else if inp.old_exists {
        inp.old_nick_color
    } else {
        NICK_COLOR_NONE
    };
    out.do_rename_notice = inp.old_exists && inp.uid != own && !inp.name.is_empty()
        && inp.old_name.is_some() && !is_named(inp.old_name, inp.name);
    out
}

/// The client never hears of its own new name, is never added to the list by a change, and takes an
/// id only when it has none; a change without colours leaves those of a known user.
pub proof fn plan_is_consistent(inp: ChangeView)
    ensures
        plan_for(inp).is_self ==> !plan_for(inp).do_rename_notice,
        plan_for(inp).do_rename_notice ==> !plan_for(inp).is_new,
        plan_for(inp).is_self && plan_for(inp).is_new <==> plan_for(inp).skip_self_create,
        plan_for(inp).adopt_self_uid ==> inp.self_uid == 0 && inp.uid != 0 && plan_for(inp).is_self,
        inp.old_exists && !inp.got_color ==> plan_for(inp).eff_color == inp.old_status,
        inp.old_exists && !inp.got_nick_color ==> plan_for(inp).eff_nick_color
            == inp.old_nick_color,
        inp.uid == 0 ==> !plan_for(inp).is_self,
{
}

/// A change, with fields of fixed size. Truth values are numbers; any but zero is true.
pub struct HxUserChangeMsg {
    pub uid: u16,
    pub icon: u16,
    pub color: u16,
    pub got_color: i32,
    pub nick_color: u32,
    pub got_nick_color: i32,
    pub cid: u32,
    pub name: [u8; 32],
    pub name_len: u16,
}

impl HxUserChangeMsg {
    /// The name: as much of the field as its length says, or all of it.
    pub open spec fn name_of(&self) -> Seq<u8> {
        self.name@.take(
            if self.name_len < 32 {
                self.name_len as int
            } else {
                32
            },
        )
    }
}

/// What to do, with truth values as numbers.
#[derive(Debug, Clone, Copy, PartialEq, Eq, Structural)]
pub struct HxUserChangePlan {
    pub adopt_self_uid: i32,
    pub is_self: i32,
    pub is_new: i32,
    pub skip_self_create: i32,
    pub do_rename_notice: i32,
    pub eff_color: u16,
    pub eff_nick_color: u32,
}

/// A truth value as a number.
pub open spec fn flag(b: bool) -> i32 {
    if b {
        1
    } else {
        0
    }
}

fn flag_of(b: bool) -> (r: i32)
    ensures
        r == flag(b),
{
    if b {
        1
    } else {
        0
    }
}

/// A plan with numbers for its truth values.
pub open spec fn flat(p: ChangePlan) -> HxUserChangePlan {
    HxUserChangePlan {
        adopt_self_uid: flag(p.adopt_self_uid),
        is_self: flag(p.is_self),
        is_new: flag(p.is_new),
        skip_self_create: flag(p.skip_self_create),
        do_rename_notice: flag(p.do_rename_notice),
        eff_color: p.eff_color,
        eff_nick_color: p.eff_nick_color,
    }
}

/// Decides what to do about a change with fields of fixed size. Without a change, nothing is to be
/// done.
pub fn hx_user_change_plan_resolve(
    uc: Option<&HxUserChangeMsg>,
    old_exists: i32,
    old_status: u16,
    old_nick_color: u32,
    old_name: Option<&[u8]>,
    self_uid: u16,
    self_name: Option<&[u8]>,
) -> (r: HxUserChangePlan)
    ensures
        match uc {
            None => r == flat(no_plan()),
            Some(uc) => r == flat(
                plan_for(
                    ChangeView {
                        uid: uc.uid,
                        name: uc.name_of(),
                        got_color: uc.got_color != 0,
                        color: uc.color,
                        got_nick_color: uc.got_nick_color != 0,
                        nick_color: uc.nick_color,
                        old_exists: old_exists != 0,
                        old_status,
                        old_nick_color,
                        old_name: wire::opt_view(old_name),
                        self_uid,
                        self_name: wire::opt_view(self_name),
                    },
                ),
            ),
        },
{
    let plan = match uc {
        None => ChangePlan::default(),
        Some(uc) => {
            let n: usize = if uc.name_len < 32 {
                uc.name_len as usize
            } else {
                32
            };
            resolve(
                &ChangeInput {
                    uid: uc.uid,
                    name: slice_subrange(&uc.name, 0, n),
                    got_color: uc.got_color != 0,
                    color: uc.color,
                    got_nick_color: uc.got_nick_color != 0,
                    nick_color: uc.nick_color,
                    old_exists: old_exists != 0,
                    old_status,
                    old_nick_color,
                    old_name,
                    self_uid,
                    self_name,
                },
            )
        },
    };
    HxUserChangePlan {
        adopt_self_uid: flag_of(plan.adopt_self_uid),
        is_self: flag_of(plan.is_self),
        is_new: flag_of(plan.is_new),
        skip_self_create: flag_of(plan.skip_self_create),
        do_rename_notice: flag_of(plan.do_rename_notice),
        eff_color: plan.eff_color,
        eff_nick_color: plan.eff_nick_color,
    }
}

// ---------------------------------------------------------------------------------------------
// What every decision comes to.
// ---------------------------------------------------------------------------------------------
/// The notice of a new name is due exactly if someone is known by another name than the one that
/// came, and is not the client: two names differ as soon as one byte does.
pub proof fn notice_is_due_for_a_new_name(inp: ChangeInput<'_>, r: ChangePlan)
    requires
        call_ensures(resolve, (&inp,), r),
    ensures
        inp.old_exists && inp.uid != inp.self_uid && inp.self_uid != 0 && inp.name@.len() > 0
            && inp.old_name is Some ==> (r.do_rename_notice <==> inp.old_name->0@ != inp.name@),
        r.do_rename_notice <==> inp.old_exists && !r.is_self && inp.uid != inp.self_uid
            && inp.name@.len() > 0 && inp.old_name is Some && inp.old_name->0@ != inp.name@,
{
    if let Some(n) = inp.old_name {
        assert(wire::opt_view(inp.old_name) == Some(n@));
    }
}

/// A change is about the client if it has the client's id. A client that knows no id of its own
/// takes that of the first change with its own name, and no other.
pub proof fn client_is_known_by_id_or_name(inp: ChangeInput<'_>, r: ChangePlan)
    requires
        call_ensures(resolve, (&inp,), r),
    ensures
        inp.self_uid != 0 ==> !r.adopt_self_uid && (r.is_self <==> inp.uid == inp.self_uid),
        inp.self_uid == 0 ==> (r.is_self <==> r.adopt_self_uid),
        r.adopt_self_uid <==> inp.self_uid == 0 && inp.uid != 0 && inp.name@.len() > 0
            && inp.self_name is Some && inp.self_name->0@ == inp.name@,
{
    if let Some(n) = inp.self_name {
        assert(wire::opt_view(inp.self_name) == Some(n@));
    }
}

/// A user is new if they were not known, and the client itself is then not added to the list.
/// Status and colour are those that came; where none came, those of a known user stay, and a new
/// user has the status of the message and no colour.
pub proof fn what_did_not_come_stays(inp: ChangeInput<'_>, r: ChangePlan)
    requires
        call_ensures(resolve, (&inp,), r),
    ensures
        r.is_new == !inp.old_exists,
        r.skip_self_create <==> r.is_self && !inp.old_exists,
        inp.got_color || !inp.old_exists ==> r.eff_color == inp.color,
        !inp.got_color && inp.old_exists ==> r.eff_color == inp.old_status,
        inp.got_nick_color ==> r.eff_nick_color == inp.nick_color,
        !inp.got_nick_color && inp.old_exists ==> r.eff_nick_color == inp.old_nick_color,
        !inp.got_nick_color && !inp.old_exists ==> r.eff_nick_color == 0xffff_ffff,
{
}

/// A change with fields of fixed size is decided as the one that it spells: its name is as much of
/// the field as the length says, truth values are numbers that are not zero, and one and zero come
/// back.
pub proof fn fixed_fields_decide_alike(
    uc: HxUserChangeMsg,
    old_exists: i32,
    old_status: u16,
    old_nick_color: u32,
    old_name: Option<&[u8]>,
    self_uid: u16,
    self_name: Option<&[u8]>,
    r: HxUserChangePlan,
    inp: ChangeInput<'_>,
    p: ChangePlan,
)
    requires
        call_ensures(
            hx_user_change_plan_resolve,
            (
                Some(&uc),
                old_exists,
                old_status,
                old_nick_color,
                old_name,
                self_uid,
                self_name,
            ),
            r,
        ),
        inp.uid == uc.uid,
        inp.name@.len() == (if uc.name_len <= 32 {
            uc.name_len as int
        } else {
            32
        }),
        inp.name@ == uc.name@.take(inp.name@.len() as int),
        inp.got_color <==> uc.got_color != 0,
        inp.color == uc.color,
        inp.got_nick_color <==> uc.got_nick_color != 0,
        inp.nick_color == uc.nick_color,
        inp.old_exists <==> old_exists != 0,
        inp.old_status == old_status,
        inp.old_nick_color == old_nick_color,
        inp.old_name == old_name,
        inp.self_uid == self_uid,
        inp.self_name == self_name,
        call_ensures(resolve, (&inp,), p),
    ensures
        r.adopt_self_uid == 1 || r.adopt_self_uid == 0,
        r.adopt_self_uid == 1 <==> p.adopt_self_uid,
        r.is_self == 1 || r.is_self == 0,
        r.is_self == 1 <==> p.is_self,
        r.is_new == 1 || r.is_new == 0,
        r.is_new == 1 <==> p.is_new,
        r.skip_self_create == 1 || r.skip_self_create == 0,
        r.skip_self_create == 1 <==> p.skip_self_create,
        r.do_rename_notice == 1 || r.do_rename_notice == 0,
        r.do_rename_notice == 1 <==> p.do_rename_notice,
        r.eff_color == p.eff_color,
        r.eff_nick_color == p.eff_nick_color,
{
    assert(inp@.name =~= uc.name_of());
}

/// Without a message nothing is to be done.
pub proof fn nothing_comes_of_nothing(
    old_exists: i32,
    old_status: u16,
    old_nick_color: u32,
    old_name: Option<&[u8]>,
    self_uid: u16,
    self_name: Option<&[u8]>,
    r: HxUserChangePlan,
)
    requires
        call_ensures(
            hx_user_change_plan_resolve,
            (None, old_exists, old_status, old_nick_color, old_name, self_uid, self_name),
            r,
        ),
    ensures
        r.adopt_self_uid == 0 && r.is_self == 0 && r.is_new == 0 && r.skip_self_create == 0,
        r.do_rename_notice == 0 && r.eff_color == 0 && r.eff_nick_color == 0,
{
}

} // verus!
