//! The permission check that every operation runs before it touches an inode.

use vstd::prelude::*;
use crate::posix::{F_OK, R_OK, W_OK, X_OK};

verus! {

/// Which of the three permission triplets of a mode applies to a caller.
#[derive(Clone, Copy, Debug, PartialEq, Eq, Structural)]
pub enum PermissionClass {
    Owner,
    Group,
    Other,
}

impl PermissionClass {
    /// How far the class's triplet sits above bit 0 of a mode.
    pub open spec fn shift(self) -> u16 {
        match self {
            PermissionClass::Owner => 6,
            PermissionClass::Group => 3,
            PermissionClass::Other => 0,
        }
    }
}

/// The class a caller falls in: owner by uid, else group by gid, else other.
pub open spec fn permission_class(file_uid: u32, file_gid: u32, uid: u32, gid: u32)
    -> PermissionClass {
    if uid == file_uid {
        PermissionClass::Owner
    } else if gid == file_gid {
        PermissionClass::Group
    } else {
        PermissionClass::Other
    }
}

/// The three `rwx` bits that `file_mode` grants to `class`, as a number 0..8.
pub open spec fn permission_triplet(file_mode: u16, class: PermissionClass) -> u16 {
    (file_mode >> class.shift()) & 7
}

/// True when `file_mode` has an execute bit for anybody.
pub open spec fn any_execute_bit(file_mode: u16) -> bool {
    file_mode & 0o111 != 0
}

/// The POSIX rule. An `F_OK` request always passes. Root reads and writes
/// anything and executes what anybody may execute. Everybody else needs each
/// requested bit in the triplet of their class; a bit outside `rwx` is never
/// granted.
pub open spec fn access_allowed(
    file_uid: u32,
    file_gid: u32,
    file_mode: u16,
    uid: u32,
    gid: u32,
    access_mask: i32,
) -> bool {
    if access_mask == F_OK {
        true
    } else if uid == 0 {
        access_mask & X_OK == 0 || any_execute_bit(file_mode)
    } else {
        let granted = permission_triplet(
            file_mode,
            permission_class(file_uid, file_gid, uid, gid),
        );
        access_mask & !(granted as i32) == 0
    }
}

/// Decides whether the caller `uid`/`gid` may do what `access_mask` asks on a
/// file owned by `file_uid`/`file_gid` with permission bits `file_mode`.
pub fn check_access(
    file_uid: u32,
    file_gid: u32,
    file_mode: u16,
    uid: u32,
    gid: u32,
    access_mask: i32,
) -> (allowed: bool)
    ensures
        allowed == access_allowed(file_uid, file_gid, file_mode, uid, gid, access_mask),
{
    if access_mask == F_OK {
        return true;
    }
    if uid == 0 {
        return access_mask & X_OK == 0 || file_mode & 0o111 != 0;
    }
    let granted: u16 = if uid == file_uid {
        (file_mode >> 6u16) & 7
    } else if gid == file_gid {
        (file_mode >> 3u16) & 7
    } else {
        (file_mode >> 0u16) & 7
    };
    access_mask & !(granted as i32) == 0
}

/// The rule table for an unprivileged caller, bit by bit: a request made of
/// `rwx` bits passes exactly when the caller's class has every requested bit
/// in the mode, read at 4, write at 2 and execute at 1 above the class's
/// shift.
pub proof fn lemma_access_rule_table(
    file_uid: u32,
    file_gid: u32,
    file_mode: u16,
    uid: u32,
    gid: u32,
    access_mask: i32,
)
    requires
        uid != 0,
        0 < access_mask <= 7,
    ensures
        ({
            let shift = permission_class(file_uid, file_gid, uid, gid).shift();
            access_allowed(file_uid, file_gid, file_mode, uid, gid, access_mask) <==> {
                &&& access_mask & R_OK != 0 ==> file_mode & (4u16 << shift) != 0
                &&& access_mask & W_OK != 0 ==> file_mode & (2u16 << shift) != 0
                &&& access_mask & X_OK != 0 ==> file_mode & (1u16 << shift) != 0
            }
        }),
{
    let shift = permission_class(file_uid, file_gid, uid, gid).shift();
    let granted = permission_triplet(file_mode, permission_class(file_uid, file_gid, uid, gid));
    assert(granted == (file_mode >> shift) & 7);
    assert((access_mask & !(granted as i32) == 0) <==> {
        &&& access_mask & 4i32 != 0 ==> file_mode & (4u16 << shift) != 0
        &&& access_mask & 2i32 != 0 ==> file_mode & (2u16 << shift) != 0
        &&& access_mask & 1i32 != 0 ==> file_mode & (1u16 << shift) != 0
    }) by (bit_vector)
        requires
            granted == (file_mode >> shift) & 7,
            0 < access_mask <= 7,
            shift == 0 || shift == 3 || shift == 6,
    ;
}

/// The rules for root: a request without the execute bit always passes, and
/// one with it passes exactly when some class may execute the file.
pub proof fn lemma_root_access(file_uid: u32, file_gid: u32, file_mode: u16, gid: u32, access_mask: i32)
    ensures
        access_mask & X_OK == 0 ==> access_allowed(file_uid, file_gid, file_mode, 0, gid, access_mask),
        access_mask & X_OK != 0 ==> (access_allowed(
            file_uid,
            file_gid,
            file_mode,
            0,
            gid,
            access_mask,
        ) <==> (file_mode & 0o100 != 0 || file_mode & 0o010 != 0 || file_mode & 0o001 != 0)),
{
    assert(0i32 & 1i32 == 0) by (bit_vector);
    assert((file_mode & 0o111 != 0) <==> (file_mode & 0o100 != 0 || file_mode & 0o010 != 0
        || file_mode & 0o001 != 0)) by (bit_vector);
}

} // verus!
