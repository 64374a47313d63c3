use flax::kernel;
use flax::kernel::{DropError, KernelDropFacts, KernelDropStep};
use flax::privileges::{drop_privileges, dropped_line, Account, DropFacts, DropStep};

const WWW: Account = Account { uid: 33, gid: 34 };

fn failed(user: &str, facts: &DropFacts) -> String {
    match drop_privileges(user, facts) {
        DropStep::Failed(message) => message,
        _ => panic!("expected a failure"),
    }
}

#[test]
fn the_server_drops_group_then_user() {
    let mut facts = DropFacts { euid: None, account: None, group_set: None, user_set: None };
    assert!(matches!(drop_privileges("www", &facts), DropStep::QueryUser));
    facts.euid = Some(0);
    assert!(matches!(drop_privileges("www", &facts), DropStep::FindAccount));
    facts.account = Some(Some(WWW));
    assert!(matches!(drop_privileges("www", &facts), DropStep::SetGroup(34)));
    facts.group_set = Some(true);
    assert!(matches!(drop_privileges("www", &facts), DropStep::SetUser(33)));
    facts.user_set = Some(true);
    match drop_privileges("www", &facts) {
        DropStep::Dropped(account) => assert_eq!(account, WWW),
        _ => panic!("expected the drop to be over"),
    }
    assert_eq!(dropped_line("www", WWW), "dropped privileges to user 'www' (uid=33, gid=34)");
}

#[test]
fn the_server_leaves_ordinary_users_alone() {
    let facts = DropFacts { euid: Some(1000), account: None, group_set: None, user_set: None };
    assert!(matches!(drop_privileges("a\0b", &facts), DropStep::Skipped));
}

#[test]
fn the_server_does_not_go_on_as_root() {
    let mut facts = DropFacts { euid: Some(0), account: None, group_set: None, user_set: None };
    assert_eq!(failed("a\0b", &facts), "user name contains NUL");
    facts.account = Some(None);
    assert_eq!(failed("www", &facts), "user 'www' not found");
    facts.account = Some(Some(WWW));
    facts.group_set = Some(false);
    assert_eq!(failed("www", &facts), "setgid failed");
    facts.group_set = Some(true);
    facts.user_set = Some(false);
    assert_eq!(failed("www", &facts), "setuid failed");
}

fn kernel_facts() -> KernelDropFacts {
    KernelDropFacts {
        uid: Some(0),
        account: Some(Some(WWW)),
        groups_cleared: None,
        group_set: None,
        user_set: None,
        root_regained: None,
    }
}

fn kernel_failure(user: &str, facts: &KernelDropFacts) -> DropError {
    match kernel::drop_privileges(user, facts) {
        KernelDropStep::Failed(error) => error,
        _ => panic!("expected a failure"),
    }
}

#[test]
fn the_kernel_gives_up_everything_in_order() {
    let mut facts = kernel_facts();
    facts.uid = None;
    facts.account = None;
    assert!(matches!(kernel::drop_privileges("nobody", &facts), KernelDropStep::QueryUser));
    facts.uid = Some(0);
    assert!(matches!(kernel::drop_privileges("nobody", &facts), KernelDropStep::FindAccount));
    facts.account = Some(Some(WWW));
    assert!(matches!(kernel::drop_privileges("nobody", &facts), KernelDropStep::ClearGroups));
    facts.groups_cleared = Some(true);
    assert!(matches!(kernel::drop_privileges("nobody", &facts), KernelDropStep::SetGroup(34)));
    facts.group_set = Some(true);
    assert!(matches!(kernel::drop_privileges("nobody", &facts), KernelDropStep::SetUser(33)));
    facts.user_set = Some(true);
    assert!(matches!(kernel::drop_privileges("nobody", &facts), KernelDropStep::RegainRoot));
    facts.root_regained = Some(false);
    match kernel::drop_privileges("nobody", &facts) {
        KernelDropStep::Dropped(account) => assert_eq!(account, WWW),
        _ => panic!("expected the drop to be over"),
    }
    assert_eq!(
        kernel::dropped_line("nobody", Account { uid: 65534, gid: 65534 }),
        "[+] Successfully dropped privileges to user 'nobody' (UID: 65534, GID: 65534)"
    );
}

#[test]
fn the_kernel_leaves_ordinary_users_alone() {
    let mut facts = kernel_facts();
    facts.uid = Some(1);
    assert!(matches!(kernel::drop_privileges("nobody", &facts), KernelDropStep::Skipped));
}

#[test]
fn the_kernel_does_not_go_on_as_root() {
    let mut facts = kernel_facts();
    assert!(matches!(kernel_failure("no\0body", &facts), DropError::InvalidInput));
    facts.groups_cleared = Some(false);
    assert!(matches!(kernel_failure("nobody", &facts), DropError::LastOsError));
    facts.groups_cleared = Some(true);
    facts.group_set = Some(false);
    assert!(matches!(kernel_failure("nobody", &facts), DropError::LastOsError));
    facts.group_set = Some(true);
    facts.user_set = Some(false);
    assert!(matches!(kernel_failure("nobody", &facts), DropError::LastOsError));
    facts.user_set = Some(true);
    facts.root_regained = Some(true);
    match kernel_failure("nobody", &facts) {
        DropError::PermissionDenied(message) => {
            assert_eq!(message, "CRITICAL: Successfully regained root privileges after dropping!")
        }
        _ => panic!("expected root to be the reason"),
    }
    facts.account = Some(None);
    match kernel_failure("nobody", &facts) {
        DropError::NotFound(message) => assert_eq!(message, "User 'nobody' not found on system"),
        _ => panic!("expected the user to be the reason"),
    }
}
