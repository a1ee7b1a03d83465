use task_bot::localization::{Localization, LocalizationData};
use task_bot::tag::{TagsManager, TaskTag};
use task_bot::task::{
    get_roles_ping, with_tags_exec, without_tags_exec, AddMemberOutcome, MembersNotice, Task, TaskManager,
    TaskOption,
};

fn tags() -> TagsManager {
    let mut man = TagsManager::new();
    let mut a = TaskTag::new(1, 10);
    a.set_max_members(Some(3));
    a.set_score_modifier(Some(5));
    a.set_ping_role(Some(111));
    let mut b = TaskTag::new(2, 10);
    b.set_max_members(Some(2));
    b.set_task_project(Some("beta".to_string()));
    man.register(a);
    man.register(b);
    man.new_tag(3, 10);
    man
}

fn task(applied: Vec<u64>) -> Task {
    Task::new(7, "alpha".to_string(), 500, "Do it".to_string(), Some(1000), &applied, &tags(), 1000)
}

#[test]
fn new_task_takes_settings_from_tags() {
    let t = task(vec![1, 3]);
    assert_eq!((*t.max_members.get(), *t.score.get()), (3, 5));
    assert_eq!(t.project, "alpha");
    let t2 = task(vec![1, 2]);
    assert_eq!((*t2.max_members.get(), *t2.score.get()), (2, 5));
    assert_eq!(t2.project, "beta");
    let t3 = task(vec![]);
    assert_eq!((*t3.max_members.get(), *t3.score.get()), (10000, 0));
    assert!(!t3.finished && t3.members.get().is_empty());
}

#[test]
fn add_member_outcomes() {
    let mut t = task(vec![2]);
    assert!(matches!(t.add_member(1, false, None), AddMemberOutcome::NotInProject));
    assert!(matches!(t.add_member(1, true, Some(false)), AddMemberOutcome::OverTaskLimit));
    assert!(matches!(
        t.add_member(1, true, Some(true)),
        AddMemberOutcome::Joined { record_joined: true, now_full: false }
    ));
    assert!(matches!(t.add_member(1, true, None), AddMemberOutcome::AlreadyMember));
    assert!(matches!(
        t.add_member(2, true, None),
        AddMemberOutcome::Joined { record_joined: false, now_full: true }
    ));
    assert!(matches!(t.add_member(3, true, Some(true)), AddMemberOutcome::Full));
    assert_eq!(t.members.get(), &vec![1, 2]);
    // A full task refuses even a member it already has.
    assert!(!t.add_member(2, true, None).is_success());
}

#[test]
fn closed_task_refuses_new_members() {
    let mut t = task(vec![]);
    t.add_member(4, true, None);
    assert_eq!(t.close(2000), Some((vec![4], None)));
    assert!(matches!(t.add_member(5, true, None), AddMemberOutcome::Closed));
    assert_eq!(t.close(3000), None);
    assert!(t.open(4000));
    assert!(!t.open(5000));
    assert!(t.end_date.get().is_none());
}

#[test]
fn closing_and_opening_keep_the_settings() {
    let mut t = task(vec![1, 3]);
    t.add_member(4, true, None);
    assert_eq!(t.close(2000), Some((vec![4], None)));
    assert_eq!(t.name.get(), &"Do it".to_string());
    assert_eq!((*t.score.get(), *t.max_members.get()), (5, 3));
    assert_eq!(t.start_date, Some(1000));
    assert!(t.open(3000));
    assert_eq!(t.name.get(), &"Do it".to_string());
    assert_eq!((*t.score.get(), *t.max_members.get()), (5, 3));
    // Opening again does not bring the members back.
    assert!(t.members.get().is_empty());
}

#[test]
fn overriding_a_setting_keeps_the_tag_value() {
    let mut t = task(vec![1, 3]);
    assert_eq!(t.set_score(9, 1100), Some(5));
    assert_eq!((*t.score.get(), t.score.base_value), (9, 5));
    assert!(matches!(t.set_max_members(7, 1200), MembersNotice::Unchanged));
    assert_eq!((*t.max_members.get(), t.max_members.base_value), (7, 3));
    assert_eq!(t.name.get(), &"Do it".to_string());
}

#[test]
fn remove_member_clears_mentor_and_reports_room() {
    let mut t = task(vec![2]);
    t.add_member(1, true, None);
    assert_eq!(t.set_mentor(Some(2), 1100, true, None).0, true);
    assert_eq!(t.members.get(), &vec![1, 2]);
    assert_eq!(*t.mentor_id.get(), Some(2));
    assert_eq!(t.remove_member(2, 1200), Some((true, true)));
    assert_eq!(*t.mentor_id.get(), None);
    assert_eq!(t.remove_member(2, 1300), None);
    assert_eq!(t.remove_member(1, 1300), Some((false, false)));
}

#[test]
fn set_mentor_refusals() {
    let mut t = task(vec![]);
    let (changed, attempt) = t.set_mentor(Some(9), 1, false, None);
    assert!(!changed);
    assert!(matches!(attempt, Some(AddMemberOutcome::NotInProject)));
    assert_eq!(*t.mentor_id.get(), None);
    t.close(2);
    assert_eq!(t.set_mentor(None, 3, true, None).0, false);
}

#[test]
fn overrides_win_over_tag_values() {
    let mut t = task(vec![1]);
    assert_eq!(t.set_score(40, 1500), Some(5));
    assert!(matches!(t.set_max_members(1, 1500), MembersNotice::Unchanged));
    t.fetch_tags(&vec![2], &tags(), 1600);
    assert_eq!(*t.score.get(), 40);
    assert_eq!(*t.max_members.get(), 1);
    assert_eq!(t.score.base_value, 0);
    t.add_member(8, true, None);
    assert!(matches!(t.set_max_members(1, 1700), MembersNotice::Filled));
    assert!(matches!(t.set_max_members(2, 1800), MembersNotice::Unfilled));
    assert!(t.set_last_save(Some("save-1".to_string()), 1900) == false);
}

#[test]
fn task_option_history() {
    let mut o = TaskOption::new(1i64, 10);
    o.set_base(2, 20);
    assert_eq!(*o.get(), 2);
    o.set(3, 30);
    o.set_base(4, 40);
    assert_eq!(*o.get(), 3);
    assert_eq!(o.base_value, 4);
    assert_eq!(o.value_history.keys(), vec![10, 20, 30]);
}

#[test]
fn pings() {
    let man = tags();
    assert_eq!(get_roles_ping(&vec![1, 2, 3], Some(9), &man), Some("<@&9> <@&111>".to_string()));
    assert_eq!(get_roles_ping(&vec![1], None, &man), Some(" <@&111>".to_string()));
    assert_eq!(get_roles_ping(&vec![2, 3], None, &man), None);
    let mut loc = Localization::new(LocalizationData { locale_path: String::new(), culture: String::new() });
    loc.collect_locale("task-no-ping: nobody").unwrap();
    let mut t = task(vec![]);
    assert_eq!(t.get_members_ping(&loc), "nobody");
    t.add_member(5, true, None);
    t.add_member(6, true, None);
    assert_eq!(t.get_members_ping(&loc), " <@5> <@6>");
}

#[test]
fn tag_lists() {
    assert_eq!(with_tags_exec(&vec![1, 2], &vec![2, 3, 3]), vec![1, 2, 3]);
    assert_eq!(without_tags_exec(&vec![1, 2, 3, 2], &vec![2]), vec![1, 3]);
}

#[test]
fn task_manager_hands_out_ids() {
    let man_tags = tags();
    let mut man = TaskManager::new();
    assert_eq!(
        man.new_task("alpha".to_string(), 600, "t".to_string(), None, &vec![], &man_tags, 1),
        Err("no found thread metadata, maybe its not a thread".to_string())
    );
    assert_eq!(man.new_task("alpha".to_string(), 600, "t".to_string(), Some(Some(5)), &vec![], &man_tags, 1), Ok(1));
    assert_eq!(man.new_task("beta".to_string(), 601, "u".to_string(), Some(Some(6)), &vec![], &man_tags, 1), Ok(2));
    assert_eq!(man.last_task_id(), 2);
    assert_eq!(man.get(1).unwrap().start_date, Some(5));
    // A thread whose metadata carries no creation time still becomes a task.
    assert_eq!(man.new_task("beta".to_string(), 603, "w".to_string(), Some(None), &vec![], &man_tags, 1), Ok(3));
    assert_eq!(man.get(3).unwrap().start_date, None);
    assert_eq!(man.get(3).unwrap().name.get(), &"w".to_string());
    assert_eq!(man.get_thread(601).unwrap().id, 2);
    assert!(man.get_thread(602).is_none());
    assert_eq!(man.get_by_project(&"alpha".to_string()), vec![1]);
    let t = man.take(1).unwrap();
    assert!(man.get(1).is_none());
    man.put(t);
    assert!(man.get(1).is_some());
}

#[test]
fn order_of_scores_when_closing() {
    let mut t = task(vec![]);
    assert_eq!(t.first_to_rate(), None);
    t.add_member(4, true, None);
    t.add_member(5, true, None);
    t.add_member(6, true, None);
    assert_eq!(t.first_to_rate(), Some(4));
    t.set_mentor(Some(4), 2, true, None);
    assert_eq!(t.first_to_rate(), Some(5));
    assert_eq!(t.next_to_rate(4), Some(5));
    assert_eq!(t.next_to_rate(5), Some(6));
    assert_eq!(t.next_to_rate(6), None);
    assert_eq!(t.next_to_rate(99), None);
    let mut solo = task(vec![]);
    solo.add_member(4, true, None);
    solo.set_mentor(Some(4), 2, true, None);
    assert_eq!(solo.first_to_rate(), None);
}
