use hotline::messages::NICK_COLOR_NONE as HX_NICK_COLOR_NONE;
use hotline::user_change::{hx_user_change_plan_resolve, resolve, ChangeInput, HxUserChangeMsg};

fn base(uid: u16, name: &[u8]) -> ChangeInput<'_> {
    ChangeInput {
        uid,
        name,
        got_color: true,
        color: 3,
        got_nick_color: false,
        nick_color: 0,
        old_exists: false,
        old_status: 0,
        old_nick_color: HX_NICK_COLOR_NONE,
        old_name: None,
        self_uid: 5,
        self_name: Some(b"Me"),
    }
}

#[test]
fn new_user_is_create() {
    let p = resolve(&base(42, b"Bob"));
    assert!(p.is_new);
    assert!(!p.is_self);
    assert!(!p.skip_self_create);
    assert!(!p.do_rename_notice);
    assert!(!p.adopt_self_uid);
    assert_eq!(p.eff_color, 3);
    assert_eq!(p.eff_nick_color, HX_NICK_COLOR_NONE);
}

#[test]
fn rename_fires_notice() {
    let p = resolve(&ChangeInput {
        old_exists: true,
        old_status: 3,
        old_name: Some(b"Bob"),
        ..base(42, b"Bobby")
    });
    assert!(!p.is_new);
    assert!(p.do_rename_notice);
}

#[test]
fn same_name_no_notice() {
    let p = resolve(&ChangeInput {
        old_exists: true,
        old_status: 3,
        old_name: Some(b"Bob"),
        ..base(42, b"Bob")
    });
    assert!(!p.do_rename_notice);
}

#[test]
fn color_preserved_when_absent() {
    let p = resolve(&ChangeInput {
        got_color: false,
        color: 0,
        old_exists: true,
        old_status: 2,
        old_name: Some(b"Bob"),
        ..base(42, b"Bob")
    });
    assert_eq!(p.eff_color, 2);
}

#[test]
fn color_taken_when_present() {
    let p = resolve(&ChangeInput {
        color: 1,
        old_exists: true,
        old_status: 2,
        old_name: Some(b"Bob"),
        ..base(42, b"Bob")
    });
    assert_eq!(p.eff_color, 1);
}

#[test]
fn nick_color_preserved_when_absent() {
    let p = resolve(&ChangeInput {
        old_exists: true,
        old_status: 3,
        old_nick_color: 0x00ab_cdef,
        old_name: Some(b"Bob"),
        ..base(42, b"Bob")
    });
    assert_eq!(p.eff_nick_color, 0x00ab_cdef);
}

#[test]
fn nick_color_taken_when_present() {
    let p = resolve(&ChangeInput {
        got_nick_color: true,
        nick_color: 0x0011_2233,
        old_exists: true,
        old_status: 3,
        old_nick_color: 0x00ab_cdef,
        old_name: Some(b"Bob"),
        ..base(42, b"Bob")
    });
    assert_eq!(p.eff_nick_color, 0x0011_2233);
}

#[test]
fn self_change_no_rename() {
    let p = resolve(&ChangeInput {
        uid: 5,
        old_exists: true,
        old_status: 3,
        old_name: Some(b"Me"),
        ..base(5, b"MeNew")
    });
    assert!(p.is_self);
    assert!(!p.do_rename_notice);
}

#[test]
fn self_uid_adoption() {
    let p = resolve(&ChangeInput {
        self_uid: 0,
        ..base(77, b"Me")
    });
    assert!(p.adopt_self_uid);
    assert!(p.is_self);
    assert!(p.skip_self_create);
}

#[test]
fn no_self_adoption_on_name_mismatch() {
    let p = resolve(&ChangeInput {
        self_uid: 0,
        ..base(77, b"Stranger")
    });
    assert!(!p.adopt_self_uid);
    assert!(!p.is_self);
    assert!(!p.skip_self_create);
}

fn mk_msg(uid: u16, name: &[u8], color: u16, got_color: bool) -> HxUserChangeMsg {
    let mut buf = [0u8; 32];
    for (i, &b) in name.iter().take(31).enumerate() {
        buf[i] = b;
    }
    HxUserChangeMsg {
        uid,
        icon: 412,
        color,
        got_color: i32::from(got_color),
        nick_color: HX_NICK_COLOR_NONE,
        got_nick_color: 0,
        cid: 0,
        name: buf,
        name_len: name.len().min(31) as u16,
    }
}

#[test]
fn ffi_round_trips_a_rename() {
    let uc = mk_msg(42, b"Bobby", 3, true);
    let out = hx_user_change_plan_resolve(
        Some(&uc),
        1,
        3,
        HX_NICK_COLOR_NONE,
        Some(b"Bob"),
        5,
        Some(b"Me"),
    );
    assert_eq!(out.is_new, 0);
    assert_eq!(out.do_rename_notice, 1);
    assert_eq!(out.eff_color, 3);
}

#[test]
fn ffi_null_args_are_safe() {
    let out = hx_user_change_plan_resolve(None, 1, 0, 0, Some(b"X"), 1, Some(b"X"));
    assert_eq!(out.is_self, 0);
    assert_eq!(out.is_new, 0);
    assert_eq!(out.skip_self_create, 0);
    assert_eq!(out.do_rename_notice, 0);
    assert_eq!(out.adopt_self_uid, 0);
    assert_eq!(out.eff_color, 0);
    assert_eq!(out.eff_nick_color, 0);

    let uc = mk_msg(1, b"X", 0, false);
    let out = hx_user_change_plan_resolve(Some(&uc), 1, 0, 0, Some(b"X"), 1, Some(b"X"));
    assert_eq!(out.is_self, 1);
    assert_eq!(out.do_rename_notice, 0);
}
