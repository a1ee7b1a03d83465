use task_bot::project::{shares_role_exec, Project, ProjectManager};

#[test]
fn new_project_refuses_a_taken_name() {
    let mut man = ProjectManager::new();
    assert!(man.new_project("alpha".to_string(), 2, 100, None, None).is_ok());
    assert_eq!(
        man.new_project("alpha".to_string(), 5, 200, None, None),
        Err("project with name \"alpha\" currently excist".to_string())
    );
    let p = man.get(&"alpha".to_string()).unwrap();
    assert_eq!((p.max_tasks_per_user, p.tasks_forum), (2, 100));
    assert_eq!(man.projects(), vec!["alpha".to_string()]);
}

#[test]
fn projects_by_forum_and_member() {
    let mut man = ProjectManager::new();
    man.new_project("a".to_string(), 1, 10, None, None).unwrap();
    man.new_project("b".to_string(), 1, 20, Some(5), None).unwrap();
    let mut b = man.delete(&"b".to_string()).unwrap();
    assert!(b.add_role(7));
    assert!(!b.add_role(7));
    assert!(b.add_role(8));
    man.put(b);
    assert_eq!(man.get_from_forum(20).unwrap().name(), "b");
    assert!(man.get_from_forum(30).is_none());
    assert_eq!(man.projects_of_member(&vec![8]), vec!["b".to_string()]);
    assert!(man.projects_of_member(&vec![1]).is_empty());
    assert!(man.delete(&"zzz".to_string()).is_none());
}

#[test]
fn project_roles_and_stat_posts() {
    let mut man = ProjectManager::new();
    man.new_project("a".to_string(), 1, 10, None, None).unwrap();
    let mut p: Project = man.delete(&"a".to_string()).unwrap();
    p.add_role(1);
    p.add_role(2);
    p.record_stat_post(1, 1001);
    p.record_stat_post(2, 1002);
    p.record_stat_post(3, 1003);
    assert!(p.remove_role(2));
    assert!(!p.remove_role(2));
    assert_eq!(p.associated_roles, vec![1]);
    let mut removed = p.prune_stat_posts();
    removed.sort();
    assert_eq!(removed, vec![(2, 1002), (3, 1003)]);
    assert_eq!(p.stat_posts.get(&1), Some(&1001));
    assert_eq!(p.set_max_task_per_user(4), 1);
    assert_eq!(p.set_tasks_forum(11), 10);
    assert_eq!(p.set_waiter_role(Some(9)), None);
    assert_eq!(p.set_stat_channel(Some(12)), None);
    assert!(p.member_in_project(&vec![5, 1]));
    assert!(!p.member_in_project(&vec![]));
    assert!(shares_role_exec(&vec![1, 2], &vec![3, 2]));
}

#[test]
fn adding_then_removing_a_role_restores_the_roles() {
    let mut man = ProjectManager::new();
    man.new_project("a".to_string(), 1, 10, None, None).unwrap();
    let mut p = man.delete(&"a".to_string()).unwrap();
    p.add_role(1);
    p.add_role(2);
    let before = p.associated_roles.clone();
    assert!(p.add_role(3));
    assert!(p.remove_role(3));
    assert_eq!(p.associated_roles, before);
    assert!(!p.remove_role(3));
}
