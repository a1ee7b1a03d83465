use task_bot::board::{emoji_matches, end_score_of, vec_eq_u64, BecomeMentor, Board, Emoji};
use task_bot::member::{ProjectMember, TaskHistory};
use task_bot::tag::{TagsManager, TaskTag};

const ROLE: u64 = 77;

fn board_with_task(max_tasks_per_user: u32, roles: &[u64]) -> (Board, u32) {
    let mut b = Board::new();
    b.projects.new_project("alpha".to_string(), max_tasks_per_user, 10, None, None).unwrap();
    if !roles.is_empty() {
        let mut p = b.projects.delete(&"alpha".to_string()).unwrap();
        for r in roles {
            p.add_role(*r);
        }
        b.projects.put(p);
    }
    let tags = TagsManager::new();
    let id = b.tasks.new_task("alpha".to_string(), 900, "Task".to_string(), Some(Some(1)), &vec![], &tags, 1).unwrap();
    (b, id)
}

#[test]
fn joining_records_the_task_for_the_member() {
    let (mut b, id) = board_with_task(2, &[ROLE]);
    b.members.ensure(5, ProjectMember::new(5));
    assert!(b.add_member(id, 5, Some(&vec![ROLE]), false));
    assert_eq!(b.tasks.get(id).unwrap().members.get(), &vec![5]);
    assert_eq!(b.members.get(5).unwrap().in_tasks.get(&"alpha".to_string()), Some(&vec![id]));
    assert!(b.add_member(id, 5, Some(&vec![ROLE]), false));
    assert_eq!(b.tasks.get(id).unwrap().members.get(), &vec![5]);
    assert!(!b.add_member(id + 1, 5, None, false));
}

#[test]
fn a_member_without_a_record_gets_one_on_joining() {
    let (mut b, id) = board_with_task(1, &[ROLE]);
    assert!(b.members.get(8).is_none());
    // Refused by the project's roles: no record is made.
    assert!(!b.add_member(id, 8, Some(&vec![]), false));
    assert!(b.members.get(8).is_none());
    assert!(b.add_member(id, 8, Some(&vec![ROLE]), false));
    let rec = b.members.get(8).unwrap();
    assert_eq!(rec.in_tasks.get(&"alpha".to_string()), Some(&vec![id]));
    assert_eq!((rec.score, rec.all_time_score), (0, 0));
}

#[test]
fn a_record_made_at_the_limit_stays_when_the_limit_refuses() {
    let (mut b, id) = board_with_task(0, &[ROLE]);
    assert!(!b.add_member(id, 8, Some(&vec![ROLE]), false));
    assert!(b.tasks.get(id).unwrap().members.get().is_empty());
    assert_eq!(b.members.get(8).unwrap().in_tasks.len(), 0);
}

#[test]
fn project_roles_and_limits_are_checked() {
    let (mut b, id) = board_with_task(1, &[77]);
    b.members.ensure(5, ProjectMember::new(5));
    assert!(!b.add_member(id, 5, Some(&vec![1]), false));
    assert!(!b.add_member(id, 5, None, false));
    let tags = TagsManager::new();
    let id2 = b.tasks.new_task("alpha".to_string(), 901, "T2".to_string(), Some(Some(2)), &vec![], &tags, 2).unwrap();
    assert!(b.add_member(id, 5, Some(&vec![77]), false));
    assert!(!b.add_member(id2, 5, Some(&vec![77]), false));
    assert!(b.add_member(id2, 5, Some(&vec![77]), true));
    assert_eq!(b.members.get(5).unwrap().task_count(&"alpha".to_string()), 2);
    // A member without a record is given one, and the limit is checked
    // against it.
    assert!(b.add_member(id2, 6, Some(&vec![77]), false));
    assert_eq!(b.members.get(6).unwrap().task_count(&"alpha".to_string()), 1);
    assert!(!b.add_member(id, 6, Some(&vec![77]), false));
}

#[test]
fn removing_a_member_updates_both_sides() {
    let (mut b, id) = board_with_task(5, &[ROLE]);
    b.members.ensure(5, ProjectMember::new(5));
    assert!(b.add_member(id, 5, Some(&vec![ROLE]), false));
    assert!(b.set_mentor(id, Some(5), None, false, 3));
    assert_eq!(b.remove_member(id, 5, 4), Some((true, false)));
    assert!(b.tasks.get(id).unwrap().members.get().is_empty());
    assert_eq!(*b.tasks.get(id).unwrap().mentor_id.get(), None);
    assert_eq!(b.members.get(5).unwrap().task_count(&"alpha".to_string()), 0);
    assert_eq!(b.remove_member(id, 5, 5), None);
    assert_eq!(b.remove_member(id + 9, 5, 5), None);
}

#[test]
fn mentor_who_is_not_a_member_joins_first() {
    let (mut b, id) = board_with_task(5, &[ROLE]);
    b.members.ensure(8, ProjectMember::new(8));
    assert!(!b.set_mentor(id, Some(8), None, false, 3));
    assert!(b.tasks.get(id).unwrap().members.get().is_empty());
    assert!(b.set_mentor(id, Some(8), Some(&vec![ROLE]), false, 3));
    assert_eq!(b.tasks.get(id).unwrap().members.get(), &vec![8]);
    assert_eq!(b.members.get(8).unwrap().task_count(&"alpha".to_string()), 1);
    assert!(b.set_mentor(id, None, None, false, 4));
    assert_eq!(*b.tasks.get(id).unwrap().mentor_id.get(), None);
    assert!(!b.set_mentor(id + 1, None, None, false, 4));
}

#[test]
fn closing_credits_members() {
    let (mut b, id) = board_with_task(5, &[]);
    // With no project of that name, anyone may join.
    let alpha = b.projects.delete(&"alpha".to_string()).unwrap();
    for m in [5u64, 6, 7] {
        b.members.ensure(m, ProjectMember::new(m));
        assert!(b.add_member(id, m, None, false));
    }
    assert!(b.add_member(id, 8, None, false));
    b.projects.put(alpha);
    b.set_mentor(id, Some(6), None, false, 2);
    let results = vec![(5u64, 3i64), (7, 0), (5, 100)];
    assert!(b.close_task(id, &results, 50));
    let t = b.tasks.get(id).unwrap();
    assert!(t.finished && t.members.get().is_empty());
    assert_eq!(*t.end_date.get(), Some(50));
    let m5 = b.members.get(5).unwrap();
    assert_eq!((m5.score, m5.all_time_score), (3, 3));
    assert_eq!(m5.done_tasks.get(&"alpha".to_string()), Some(&vec![TaskHistory::Current(vec![(50, id)])]));
    assert_eq!(m5.task_count(&"alpha".to_string()), 0);
    let m6 = b.members.get(6).unwrap();
    assert_eq!(m6.score, 1);
    assert_eq!(m6.mentor_tasks.get(&"alpha".to_string()), Some(&vec![TaskHistory::Current(vec![(50, id)])]));
    assert!(m6.done_tasks.get(&"alpha".to_string()).is_none());
    let m7 = b.members.get(7).unwrap();
    assert_eq!(m7.score, 0);
    assert!(m7.done_tasks.get(&"alpha".to_string()).is_none());
    assert!(!b.close_task(id, &results, 60));
    assert!(b.open_task(id, 70));
    assert!(!b.open_task(id, 80));
    assert!(!b.tasks.get(id).unwrap().finished);
}

#[test]
fn end_score_defaults_to_one() {
    assert_eq!(end_score_of(&vec![(1, 5), (2, -3), (1, 9)], 1), 5);
    assert_eq!(end_score_of(&vec![(1, 5), (2, -3)], 2), -3);
    assert_eq!(end_score_of(&vec![], 2), 1);
}

#[test]
fn syncing_members_with_a_selection() {
    let (mut b, id) = board_with_task(5, &[ROLE]);
    for m in [1u64, 2, 3] {
        b.members.ensure(m, ProjectMember::new(m));
    }
    b.add_member(id, 1, Some(&vec![ROLE]), false);
    b.add_member(id, 2, Some(&vec![ROLE]), false);
    b.sync_members(id, &vec![(2, Some(vec![ROLE])), (3, Some(vec![ROLE])), (4, None)], 9);
    assert_eq!(b.tasks.get(id).unwrap().members.get(), &vec![2, 3]);
    assert_eq!(b.members.get(1).unwrap().task_count(&"alpha".to_string()), 0);
    assert_eq!(b.members.get(3).unwrap().task_count(&"alpha".to_string()), 1);
    b.pick_mentors(id, &vec![(3, Some(vec![ROLE]))], 10);
    assert_eq!(*b.tasks.get(id).unwrap().mentor_id.get(), Some(3));
    b.pick_mentors(id, &vec![], 11);
    assert_eq!(*b.tasks.get(id).unwrap().mentor_id.get(), None);
}

#[test]
fn become_mentor_outcomes() {
    let (mut b, id) = board_with_task(5, &[ROLE]);
    b.members.ensure(4, ProjectMember::new(4));
    assert!(matches!(b.become_mentor(12345, 4, Some(&vec![ROLE]), 1), BecomeMentor::NotInTask));
    assert!(matches!(b.become_mentor(900, 4, Some(&vec![]), 1), BecomeMentor::Refused));
    // A refused candidate changes nothing.
    assert_eq!(*b.tasks.get(id).unwrap().mentor_id.get(), None);
    assert!(b.tasks.get(id).unwrap().members.get().is_empty());
    assert!(b.members.get(4).unwrap().in_tasks.len() == 0);
    assert!(matches!(b.become_mentor(900, 4, Some(&vec![ROLE]), 1), BecomeMentor::Done));
    assert_eq!(*b.tasks.get(id).unwrap().mentor_id.get(), Some(4));
    assert_eq!(b.tasks.get(id).unwrap().members.get(), &vec![4]);
    assert!(matches!(b.become_mentor(900, 5, Some(&vec![ROLE]), 1), BecomeMentor::MentorExists));
}

#[test]
fn nobody_becomes_mentor_of_a_finished_task() {
    let (mut b, id) = board_with_task(5, &[ROLE]);
    b.members.ensure(4, ProjectMember::new(4));
    let mut t = b.tasks.take(id).unwrap();
    t.finished = true;
    b.tasks.put(t);
    assert!(matches!(b.become_mentor(900, 4, Some(&vec![ROLE]), 1), BecomeMentor::Refused));
    assert_eq!(*b.tasks.get(id).unwrap().mentor_id.get(), None);
}

#[test]
fn a_thread_in_a_project_forum_becomes_a_task() {
    let (mut b, id) = board_with_task(5, &[]);
    // Forum 10 is the project's forum; 900 is already a task.
    assert_eq!(b.thread_created(900, Some(10), "Again".to_string(), Some(Some(3)), &vec![], 3), None);
    assert_eq!(b.thread_created(901, Some(11), "Elsewhere".to_string(), Some(Some(3)), &vec![], 3), None);
    assert_eq!(b.thread_created(902, None, "No forum".to_string(), Some(Some(3)), &vec![], 3), None);
    let r = b.thread_created(903, Some(10), "New".to_string(), Some(Some(3)), &vec![], 3);
    let new_id = r.unwrap().unwrap();
    assert_ne!(new_id, id);
    assert_eq!(b.tasks.get(new_id).unwrap().thread_id, 903);
    assert!(b.tasks.get(new_id).unwrap().members.get().is_empty());
    assert!(b.thread_created(904, Some(10), "Not a thread".to_string(), None, &vec![], 3).unwrap().is_err());
    let undated = b.thread_created(905, Some(10), "Undated".to_string(), Some(None), &vec![], 3).unwrap().unwrap();
    assert_eq!(b.tasks.get(undated).unwrap().start_date, None);
    assert_eq!(b.tasks.get(undated).unwrap().thread_id, 905);
}

#[test]
fn a_member_who_left_is_in_no_task() {
    let (mut b, id) = board_with_task(5, &[ROLE]);
    let tags = TagsManager::new();
    let id2 = b.tasks.new_task("alpha".to_string(), 901, "T2".to_string(), Some(Some(2)), &vec![], &tags, 2).unwrap();
    b.members.ensure(5, ProjectMember::new(5));
    b.members.ensure(6, ProjectMember::new(6));
    assert!(b.add_member(id, 5, Some(&vec![ROLE]), false));
    assert!(b.add_member(id2, 5, Some(&vec![ROLE]), false));
    assert!(b.add_member(id2, 6, Some(&vec![ROLE]), false));
    b.member_left(5, 9);
    assert!(b.tasks.get(id).unwrap().members.get().is_empty());
    assert_eq!(b.tasks.get(id2).unwrap().members.get(), &vec![6]);
    assert_eq!(b.members.get(5).unwrap().task_count(&"alpha".to_string()), 0);
    // Someone without a record changes nothing.
    b.member_left(42, 9);
    assert_eq!(b.tasks.get(id2).unwrap().members.get(), &vec![6]);
}

#[test]
fn a_member_who_left_leaves_the_others_as_they_were() {
    let (mut b, id) = board_with_task(5, &[ROLE]);
    let tags = TagsManager::new();
    let id2 = b.tasks.new_task("alpha".to_string(), 901, "T2".to_string(), Some(Some(2)), &vec![], &tags, 2).unwrap();
    for m in [4, 5, 6] {
        b.members.ensure(m, ProjectMember::new(m));
        assert!(b.add_member(id, m, Some(&vec![ROLE]), false));
    }
    assert!(b.add_member(id2, 6, Some(&vec![ROLE]), false));
    b.member_left(5, 9);
    assert_eq!(b.tasks.get(id).unwrap().members.get(), &vec![4, 6]);
    assert_eq!(b.tasks.get(id2).unwrap().members.get(), &vec![6]);
    assert_eq!(b.members.get(4).unwrap().in_tasks.get(&"alpha".to_string()), Some(&vec![id]));
    assert_eq!(b.members.get(6).unwrap().in_tasks.get(&"alpha".to_string()), Some(&vec![id, id2]));
}

#[test]
fn reacting_with_the_forum_emoji_joins_the_task() {
    let (mut b, id) = board_with_task(1, &[ROLE]);
    b.members.ensure(5, ProjectMember::new(5));
    let star = Some(Emoji::Unicode("⭐".to_string()));
    assert!(emoji_matches(&Emoji::Custom(3), &Emoji::Custom(3)));
    assert!(!emoji_matches(&Emoji::Custom(3), &Emoji::Unicode("3".to_string())));
    assert_eq!(b.reaction_added(900, 5, &star, &Emoji::Unicode("👍".to_string()), Some(&vec![ROLE])), None);
    assert_eq!(b.reaction_added(900, 5, &None, &Emoji::Unicode("⭐".to_string()), Some(&vec![ROLE])), None);
    assert_eq!(b.reaction_added(999, 5, &star, &Emoji::Unicode("⭐".to_string()), Some(&vec![ROLE])), None);
    assert!(b.tasks.get(id).unwrap().members.get().is_empty());
    assert_eq!(b.reaction_added(900, 5, &star, &Emoji::Unicode("⭐".to_string()), Some(&vec![1])), Some(false));
    assert!(b.tasks.get(id).unwrap().members.get().is_empty());
    assert!(b.members.get(5).unwrap().in_tasks.len() == 0);
    assert_eq!(b.reaction_added(900, 5, &star, &Emoji::Unicode("⭐".to_string()), Some(&vec![ROLE])), Some(true));
    assert_eq!(b.tasks.get(id).unwrap().members.get(), &vec![5]);
    assert_eq!(b.members.get(5).unwrap().in_tasks.get(&"alpha".to_string()), Some(&vec![id]));
}

#[test]
fn new_thread_tags_update_the_task() {
    let mut b = Board::new();
    b.projects.new_project("alpha".to_string(), 5, 10, None, None).unwrap();
    let mut tag = TaskTag::new(1, 10);
    tag.set_max_members(Some(3));
    tag.set_score_modifier(Some(7));
    b.tags.register(tag);
    let tags = TagsManager::new();
    let id = b.tasks.new_task("alpha".to_string(), 900, "Task".to_string(), Some(Some(1)), &vec![], &tags, 1).unwrap();
    assert!(vec_eq_u64(&vec![1, 2], &vec![1, 2]) && !vec_eq_u64(&vec![1], &vec![1, 2]));
    assert!(!b.thread_tags_changed(900, &vec![], &vec![], 2));
    assert!(!b.thread_tags_changed(901, &vec![], &vec![1], 2));
    assert!(b.thread_tags_changed(900, &vec![], &vec![1], 2));
    let t = b.tasks.get(id).unwrap();
    assert_eq!((*t.max_members.get(), *t.score.get()), (3, 7));
    assert!(b.thread_tags_changed(900, &vec![1], &vec![], 3));
    let t = b.tasks.get(id).unwrap();
    assert_eq!((*t.max_members.get(), *t.score.get()), (10000, 0));
}

#[test]
fn join_then_leave_restores_the_lists() {
    let (mut b, id) = board_with_task(5, &[ROLE]);
    b.members.ensure(5, ProjectMember::new(5));
    b.members.ensure(6, ProjectMember::new(6));
    assert!(b.add_member(id, 6, Some(&vec![ROLE]), false));
    let members_before = b.tasks.get(id).unwrap().members.get().clone();
    let running_before = b.members.get(5).unwrap().task_count(&"alpha".to_string());
    assert!(b.add_member(id, 5, Some(&vec![ROLE]), false));
    assert_eq!(b.remove_member(id, 5, 9), Some((false, false)));
    assert_eq!(b.tasks.get(id).unwrap().members.get(), &members_before);
    assert_eq!(b.members.get(5).unwrap().task_count(&"alpha".to_string()), running_before);
}

#[test]
fn syncing_members_respects_room_and_projects() {
    let (mut b, id) = board_with_task(5, &[ROLE]);
    for m in [1u64, 2, 3, 4] {
        b.members.ensure(m, ProjectMember::new(m));
    }
    let mut t = b.tasks.take(id).unwrap();
    t.set_max_members(2, 1);
    b.tasks.put(t);
    b.add_member(id, 1, Some(&vec![ROLE]), false);
    // 4 does not take part in the project; 2 fills the task; 3 finds it full.
    b.sync_members(id, &vec![(4, Some(vec![5])), (2, Some(vec![ROLE])), (3, Some(vec![ROLE]))], 9);
    assert_eq!(b.tasks.get(id).unwrap().members.get(), &vec![2]);
    assert_eq!(b.members.get(3).unwrap().task_count(&"alpha".to_string()), 0);
}

#[test]
fn mentor_picks_apply_in_turn() {
    let (mut b, id) = board_with_task(5, &[ROLE]);
    for m in [1u64, 2, 3] {
        b.members.ensure(m, ProjectMember::new(m));
    }
    b.add_member(id, 1, Some(&vec![ROLE]), false);
    // 2 is outside the project and is refused; 3 joins and becomes the
    // mentor; 1 is a member already and becomes the mentor last.
    b.pick_mentors(id, &vec![(2, Some(vec![9])), (3, Some(vec![ROLE])), (1, Some(vec![ROLE]))], 10);
    assert_eq!(b.tasks.get(id).unwrap().members.get(), &vec![1, 3]);
    assert_eq!(*b.tasks.get(id).unwrap().mentor_id.get(), Some(1));
}

#[test]
fn a_new_board_holds_nothing() {
    let b = Board::new();
    assert_eq!(b.tasks.last_task_id(), 0);
    assert!(b.tags.get(1).is_none());
    assert!(b.members.get(1).is_none());
    assert!(b.projects.projects().is_empty());
}
