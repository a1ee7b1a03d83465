use task_bot::role::{missing_from, RoleManager};

#[test]
fn role_permissions() {
    let mut man = RoleManager::default();
    man.set_role_permissions(1, vec![10, 11]);
    man.set_role_permissions(2, vec![12]);
    assert!(man.have_role_permission(&vec![2, 1], 11));
    assert!(!man.have_role_permission(&vec![2], 11));
    assert!(!man.have_role_permission(&vec![], 12));
    assert_eq!(man.get_role_permissons(2), Some(&vec![12]));
    assert_eq!(man.get_role_permissons(3), None);
}

#[test]
fn db_permissions() {
    let mut man = RoleManager::default();
    man.set_db_permissions("main".to_string(), vec![1, 2]);
    man.set_db_permissions("archive".to_string(), vec![3]);
    assert!(man.have_db_permission(&vec![2], &"main".to_string()));
    assert!(!man.have_db_permission(&vec![2], &"archive".to_string()));
    assert!(!man.have_db_permission(&vec![2], &"nope".to_string()));
    assert_eq!(man.member_db_permissons(&vec![3, 1]), vec!["main".to_string(), "archive".to_string()]);
    assert_eq!(man.get_dbs(), vec!["main".to_string(), "archive".to_string()]);
    assert_eq!(man.get_db_permissions(&"archive".to_string()), Some(&vec![3]));
    // Two roles of the same database list it once.
    assert_eq!(man.member_db_permissons(&vec![1, 2]), vec!["main".to_string()]);
    assert_eq!(man.member_db_permissons(&vec![]), Vec::<String>::new());
}

#[test]
fn picked_roles_become_changes_the_member_may_make() {
    let mut man = RoleManager::default();
    man.set_role_permissions(1, vec![10, 11, 12]);
    // Holds 10 and 13; picked 11, 12, 14 and keeps 10.
    let (give, take) = man.role_changes(&vec![1], &vec![10, 13], &vec![10, 11, 12, 14]);
    assert_eq!(give, vec![11, 12]);
    assert_eq!(take, Vec::<u64>::new());
    let (give, take) = man.role_changes(&vec![1], &vec![10, 12, 13], &vec![]);
    assert_eq!(give, Vec::<u64>::new());
    assert_eq!(take, vec![10, 12]);
    let (give, take) = man.role_changes(&vec![2], &vec![10], &vec![11]);
    assert!(give.is_empty() && take.is_empty());
    assert_eq!(missing_from(&vec![1, 2, 3, 2], &vec![2]), vec![1, 3]);
}

#[test]
fn permitted_changes_leave_the_picked_roles() {
    let mut man = RoleManager::default();
    man.set_role_permissions(1, vec![10, 11, 12, 13]);
    let current = vec![10, 13];
    let picked = vec![11, 13, 12];
    let (give, take) = man.role_changes(&vec![1], &current, &picked);
    let mut held: Vec<u64> = current.iter().copied().filter(|r| !take.contains(r)).collect();
    held.extend(give);
    held.sort();
    let mut want = picked.clone();
    want.sort();
    assert_eq!(held, want);
}
