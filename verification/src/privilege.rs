//! The privilege drop/restore decision logic.
//!
//! The process's effective identity is mutated only by the surrounding
//! binary, through the platform's identity syscalls; this module decides
//! what that mutation must be.  [`drop_privileges`] classifies the process
//! from its real user id and the recorded pre-escalation identity (the
//! `SUDO_UID` environment value), and names the identity to drop to, if
//! any.  Raising back is unconditional (set the effective identity to the
//! superuser's, fatally on failure) and needs no decision.

use vstd::prelude::*;
use crate::chars::{is_digits, digits_val, str_chars, parse_numeral};

verus! {

/// The outcome of a privilege drop.
#[derive(Clone, Copy, Debug, PartialEq, Eq, Structural)]
pub enum DropPrivilegeResult {
    /// The privileges were dropped successfully.
    Dropped,
    /// The user is not root, hence can't drop privileges.
    NotRoot,
    /// No recorded unprivileged identity: a pure root user, with no lower
    /// level to drop to.
    PureRoot,
}

/// What the caller must do to drop privileges.
#[derive(Clone, Copy, Debug, PartialEq, Eq, Structural)]
pub enum PrivilegeDecision {
    /// No identity change is needed or possible; report this result.
    Finish(DropPrivilegeResult),
    /// Set the effective identity to this user, then report
    /// [`DropPrivilegeResult::Dropped`]; failure to set it is fatal, since
    /// the process would silently keep elevated rights.
    SetIdentity(u32),
    /// The recorded identity is malformed; fatal.
    Fatal,
}

/// The superuser's identity.
pub open spec fn superuser_uid() -> int {
    0
}

/// The decision for a process whose real user id is `real_uid` and whose
/// recorded pre-escalation identity reads `sudo_uid` (`None`: not
/// recorded).
pub open spec fn drop_decision(real_uid: u32, sudo_uid: Option<Seq<char>>) -> PrivilegeDecision {
    if real_uid != superuser_uid() {
        PrivilegeDecision::Finish(DropPrivilegeResult::NotRoot)
    } else if sudo_uid is None {
        PrivilegeDecision::Finish(DropPrivilegeResult::PureRoot)
    } else if sudo_uid->0 == seq!['0'] {
        PrivilegeDecision::Finish(DropPrivilegeResult::PureRoot)
    } else if is_digits(sudo_uid->0) && digits_val(sudo_uid->0) <= u32::MAX {
        PrivilegeDecision::SetIdentity(digits_val(sudo_uid->0) as u32)
    } else {
        PrivilegeDecision::Fatal
    }
}

/// Decides how to drop root privileges.
///
/// A non-root process has nothing to drop; a root process without a
/// recorded unprivileged identity — the value absent, or the superuser's
/// own id — has no lower level to go to; otherwise the recorded identity
/// is the one to assume, and a value that is not a well-formed user id is
/// fatal.
pub fn drop_privileges(real_uid: u32, sudo_uid: Option<&str>) -> (r: PrivilegeDecision)
    ensures
        r == drop_decision(
            real_uid,
            match sudo_uid {
                Some(s) => Some(s@),
                None => None,
            },
        ),
{
    // If the user is not `root`, no need to drop privileges.
    if real_uid != 0 {
        return PrivilegeDecision::Finish(DropPrivilegeResult::NotRoot);
    }
    let s = match sudo_uid {
        Some(s) => s,
        None => {
            return PrivilegeDecision::Finish(DropPrivilegeResult::PureRoot);
        }
    };
    // The user is root but not a sudoer, hence not possible to drop
    // privileges.
    if s.unicode_len() == 1 && s.get_char(0) == '0' {
        proof {
            assert(s@ =~= seq!['0']);
        }
        return PrivilegeDecision::Finish(DropPrivilegeResult::PureRoot);
    }
    proof {
        if s@ == seq!['0'] {
            assert(s@.len() == 1 && s@[0] == '0');
        }
    }
    let w = str_chars(s);
    let n = w.len();
    match parse_numeral(&w, 0, n) {
        Some(v) => {
            proof {
                assert(w@.subrange(0, n as int) =~= s@);
            }
            if v <= u32::MAX as usize {
                PrivilegeDecision::SetIdentity(v as u32)
            } else {
                PrivilegeDecision::Fatal
            }
        }
        None => {
            proof {
                assert(w@.subrange(0, n as int) =~= s@);
            }
            PrivilegeDecision::Fatal
        }
    }
}

} // verus!
