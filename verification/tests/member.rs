use task_bot::member::{normalize_folder_exec, MembersManager, NotesHistory, ProjectMember, TaskHistory};

fn p(s: &str) -> String {
    s.to_string()
}

#[test]
fn new_member_has_an_empty_record() {
    let m = ProjectMember::new(42);
    assert_eq!(m.id, 42);
    assert_eq!(m.score, 0);
    assert_eq!(m.all_time_score, 0);
    assert_eq!(m.task_count(&p("proj")), 0);
    assert!(m.own_folder.is_none());
    assert!(m.notes.is_empty() && m.warns.is_empty());
}

#[test]
fn change_score_counts_only_gains_all_time() {
    let mut m = ProjectMember::new(1);
    m.change_score(10);
    m.change_score(-4);
    assert_eq!(m.score, 6);
    assert_eq!(m.all_time_score, 10);
    m.change_score(0);
    assert_eq!((m.score, m.all_time_score), (6, 10));
}

#[test]
fn join_and_leave_tasks() {
    let mut m = ProjectMember::new(1);
    m.join_task(&p("alpha"), 3);
    m.join_task(&p("alpha"), 5);
    m.join_task(&p("alpha"), 3);
    m.join_task(&p("beta"), 9);
    assert_eq!(m.in_tasks.get(&p("alpha")), Some(&vec![3, 5]));
    assert_eq!(m.task_count(&p("alpha")), 2);
    m.leave_task(&p("alpha"), 3);
    assert_eq!(m.in_tasks.get(&p("alpha")), Some(&vec![5]));
    m.leave_task(&p("alpha"), 5);
    assert!(!m.in_tasks.contains_key(&p("alpha")));
    m.leave_task(&p("alpha"), 7);
    assert_eq!(m.in_tasks.get(&p("beta")), Some(&vec![9]));
}

#[test]
fn done_and_mentor_tasks_are_stamped() {
    let mut m = ProjectMember::new(1);
    m.add_done_task(&p("alpha"), 4, 1000);
    m.add_mentor_task(&p("alpha"), 5, 2000);
    assert_eq!(m.done_tasks.get(&p("alpha")), Some(&vec![TaskHistory::Current(vec![(1000, 4)])]));
    assert_eq!(m.mentor_tasks.get(&p("alpha")), Some(&vec![TaskHistory::Current(vec![(2000, 5)])]));
    assert_eq!(m.last_activity.get(&p("alpha")), Some(&2000));
    m.add_custom_done_task(&p("alpha"), TaskHistory::OldFormat(p("old task")));
    assert_eq!(m.done_tasks.get(&p("alpha")).unwrap().len(), 2);
    m.remove_done_task(&p("alpha"), 0);
    assert_eq!(m.done_tasks.get(&p("alpha")), Some(&vec![TaskHistory::OldFormat(p("old task"))]));
    m.remove_done_task(&p("alpha"), 0);
    assert!(!m.done_tasks.contains_key(&p("alpha")));
    m.remove_done_task(&p("nothing"), 3);
    m.remove_mentor_task(&p("alpha"), 0);
    assert!(!m.mentor_tasks.contains_key(&p("alpha")));
}

#[test]
fn notes_and_warns() {
    let mut m = ProjectMember::new(1);
    m.add_note(7, 100, p("first"));
    m.add_note(8, 200, p("second"));
    m.add_warn(7, 300, p("be nice"));
    assert_eq!(m.remove_note(0), "first");
    assert_eq!(m.notes, vec![NotesHistory::Current(8, 200, p("second"))]);
    assert_eq!(m.remove_warn(0), "be nice");
    assert!(m.warns.is_empty());
}

#[test]
fn folder_is_made_canonical() {
    assert_eq!(normalize_folder_exec("  /team/folder/ "), "team/folder");
    assert_eq!(normalize_folder_exec("//x//"), "/x/");
    assert_eq!(normalize_folder_exec("   "), "");
    let m = ProjectMember::new(1);
    assert_eq!(m.folder_change(None), None);
    assert_eq!(m.folder_change(Some(p(" /a/ "))), Some(Some(p("a"))));
    let mut m2 = ProjectMember::new(2);
    m2.set_folder(Some(p("a")));
    assert_eq!(m2.folder_change(Some(p("a"))), None);
    assert_eq!(m2.folder_change(None), Some(None));
}

#[test]
fn members_manager_keeps_existing_records() {
    let mut man = MembersManager::new();
    let mut rec = ProjectMember::new(5);
    rec.change_score(3);
    man.ensure(5, rec);
    man.ensure(5, ProjectMember::new(5));
    assert_eq!(man.get(5).unwrap().score, 3);
    assert!(man.get(6).is_none());
    let taken = man.take(5).unwrap();
    assert_eq!(taken.score, 3);
    assert!(man.get(5).is_none());
    man.insert_loaded(taken);
    assert!(man.get(5).is_some());
}

#[test]
fn a_linked_folder_has_one_owner() {
    let mut man = MembersManager::new();
    let mut a = ProjectMember::new(1);
    a.set_folder(Some(p("team/a")));
    let mut b = ProjectMember::new(2);
    b.set_folder(Some(p("team/b")));
    man.ensure(1, a);
    man.ensure(2, b);
    man.ensure(3, ProjectMember::new(3));
    assert_eq!(man.folder_owner(&p("team/b")), Some(2));
    assert_eq!(man.folder_owner(&p("team/a")), Some(1));
    assert_eq!(man.folder_owner(&p("team/c")), None);
    assert_eq!(man.folder_owner(&p("")), None);
}

#[test]
fn changing_the_score_keeps_the_rest_of_the_record() {
    let mut m = ProjectMember::new(9);
    m.set_folder(Some(p("f")));
    m.change_score(4);
    m.change_score(-1);
    assert_eq!((m.score, m.all_time_score), (3, 4));
    assert_eq!(m.own_folder, Some(p("f")));
    assert_eq!(m.id, 9);
}
