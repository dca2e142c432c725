use cores::privilege::{drop_privileges, DropPrivilegeResult, PrivilegeDecision};

#[test]
fn test_not_root() {
    assert_eq!(
        drop_privileges(1000, None),
        PrivilegeDecision::Finish(DropPrivilegeResult::NotRoot)
    );
    assert_eq!(
        drop_privileges(1000, Some("1000")),
        PrivilegeDecision::Finish(DropPrivilegeResult::NotRoot)
    );
}

#[test]
fn test_pure_root() {
    // No recorded identity, or the superuser's own identity: nothing to
    // drop to.
    assert_eq!(
        drop_privileges(0, None),
        PrivilegeDecision::Finish(DropPrivilegeResult::PureRoot)
    );
    assert_eq!(
        drop_privileges(0, Some("0")),
        PrivilegeDecision::Finish(DropPrivilegeResult::PureRoot)
    );
}

#[test]
fn test_drop_to_recorded_identity() {
    assert_eq!(
        drop_privileges(0, Some("1000")),
        PrivilegeDecision::SetIdentity(1000)
    );
    assert_eq!(
        drop_privileges(0, Some("4294967295")),
        PrivilegeDecision::SetIdentity(u32::MAX)
    );
}

#[test]
fn test_malformed_identity_is_fatal() {
    assert_eq!(drop_privileges(0, Some("")), PrivilegeDecision::Fatal);
    assert_eq!(drop_privileges(0, Some("12ab")), PrivilegeDecision::Fatal);
    assert_eq!(drop_privileges(0, Some("-5")), PrivilegeDecision::Fatal);
    // Too large for a user id.
    assert_eq!(
        drop_privileges(0, Some("4294967296")),
        PrivilegeDecision::Fatal
    );
}
