//! The capabilities that the scanner needs before it joins the namespaces of
//! a process, and must have lost after it took the identity of the process'
//! owner.

use crate::ScannerError;
use vstd::prelude::*;

verus! {

/// A capability that the checks ask for.
#[derive(Clone, Copy, Debug, PartialEq, Eq, Structural)]
pub enum Privilege {
    /// `CAP_SETUID`: to take another identity.
    SetUid,
    /// `CAP_SYS_ADMIN`: to join namespaces.
    SysAdmin,
}

/// `caps::has_cap` for the effective set of the calling thread: whether the
/// set holds the capability, or nothing where the kernel could not be asked.
/// The answer is the kernel's, so nothing is claimed of it.
#[verifier::external_body]
fn has_effective(privilege: Privilege) -> (r: Option<bool>) {
    let capability = match privilege {
        Privilege::SetUid => caps::Capability::CAP_SETUID,
        Privilege::SysAdmin => caps::Capability::CAP_SYS_ADMIN,
    };
    caps::has_cap(None, caps::CapSet::Effective, capability).ok()
}

/// Whether `e` is the error of the capabilities with the message `message`.
pub open spec fn is_caps_error(e: ScannerError, message: Seq<char>) -> bool {
    match e {
        ScannerError::Caps(m) => m@ == message,
        _ => false,
    }
}

/// Decides, from what the kernel answered for `CAP_SETUID` and for
/// `CAP_SYS_ADMIN`, whether the scanner may scan: it must hold both. An
/// answer that could not be had counts as a capability that is not held.
pub fn privileged(setuid: Option<bool>, sys_admin: Option<bool>) -> (r: Result<(), ScannerError>)
    ensures
        r is Ok <==> setuid == Some(true) && sys_admin == Some(true),
        r matches Err(e) ==> is_caps_error(
            e,
            "Must have CAP_SETUID and CAP_SYS_ADMIN permissions"@,
        ),
{
    let has_setuid = match setuid {
        Some(held) => held,
        None => false,
    };
    let has_sys_admin = match sys_admin {
        Some(held) => held,
        None => false,
    };
    if has_setuid && has_sys_admin {
        Ok(())
    } else {
        Err(ScannerError::Caps("Must have CAP_SETUID and CAP_SYS_ADMIN permissions".to_owned()))
    }
}

/// Decides, from what the kernel answered for `CAP_SETUID` and for
/// `CAP_SYS_ADMIN`, whether the privileges are gone: it must hold neither.
/// An answer that could not be had counts as a capability that may be held.
pub fn unprivileged(setuid: Option<bool>, sys_admin: Option<bool>) -> (r: Result<
    (),
    ScannerError,
>)
    ensures
        r is Ok <==> setuid == Some(false) && sys_admin == Some(false),
        r matches Err(e) ==> is_caps_error(
            e,
            "Must not have CAP_SETUID and CAP_SYS_ADMIN permissions"@,
        ),
{
    let lacks_setuid = match setuid {
        Some(held) => !held,
        None => false,
    };
    let lacks_sys_admin = match sys_admin {
        Some(held) => !held,
        None => false,
    };
    if lacks_setuid && lacks_sys_admin {
        Ok(())
    } else {
        Err(
            ScannerError::Caps(
                "Must not have CAP_SETUID and CAP_SYS_ADMIN permissions".to_owned(),
            ),
        )
    }
}

/// Checks that the calling thread holds the capabilities that scanning
/// needs. What the kernel answers is not known beforehand: the error, where
/// there is one, is that of the capabilities.
pub fn check_privileged_perms() -> (r: Result<(), ScannerError>)
    ensures
        r matches Err(e) ==> is_caps_error(
            e,
            "Must have CAP_SETUID and CAP_SYS_ADMIN permissions"@,
        ),
{
    let setuid = has_effective(Privilege::SetUid);
    let sys_admin = has_effective(Privilege::SysAdmin);
    privileged(setuid, sys_admin)
}

/// Checks that the calling thread no longer holds the capabilities that
/// scanning needs. What the kernel answers is not known beforehand: the
/// error, where there is one, is that of the capabilities.
pub fn check_no_privileged_perms() -> (r: Result<(), ScannerError>)
    ensures
        r matches Err(e) ==> is_caps_error(
            e,
            "Must not have CAP_SETUID and CAP_SYS_ADMIN permissions"@,
        ),
{
    let setuid = has_effective(Privilege::SetUid);
    let sys_admin = has_effective(Privilege::SysAdmin);
    unprivileged(setuid, sys_admin)
}

} // verus!
