use task_bot::converter::{convert_old_date, convert_old_note, OldProject, OldProjectMember, OldTask, OldTaskTag};
use task_bot::member::{NotesHistory, TaskHistory};
use task_bot::tag::TageTypes;

fn s(x: &str) -> String {
    x.to_string()
}

#[test]
fn old_dates_read_as_midnight_utc() {
    assert_eq!(convert_old_date("2024-01-02"), Some(1704153600));
    assert_eq!(convert_old_date("1970-01-01"), Some(0));
    assert_eq!(convert_old_date("02.01.2024"), None);
}

#[test]
fn old_notes_are_read_back() {
    assert_eq!(
        convert_old_note("<@42> (2024-01-02): **be kind**", "): **"),
        Some(NotesHistory::Current(42, 1704153600, s("be kind")))
    );
    assert_eq!(
        convert_old_note("<@7> (1970-01-01): **П. 1.2 spam**", "): **П."),
        Some(NotesHistory::Current(7, 0, s("П. 1.2 spam")))
    );
    assert_eq!(convert_old_note("<@0> (2024-01-02): **x**", "): **"), None);
    assert_eq!(convert_old_note("@42 (2024-01-02): **x**", "): **"), None);
    assert_eq!(convert_old_note("<@42> (yesterday): **x**", "): **"), None);
    assert_eq!(convert_old_note("<@42> (2024-01-02): **x", "): **"), None);
}

#[test]
fn old_tags_and_projects() {
    let t = OldTaskTag { id: Some(1), forum_id: Some(2), tag_type: s("ended_tag"), max_members: Some(3), score_modifier: None, ping_role: Some(9) }.into();
    assert_eq!((t.id, t.forum_id, t.tag_type, t.max_members, t.ping_role), (1, 2, Some(TageTypes::ClosedTask), Some(3), Some(9)));
    let w = OldTaskTag { id: Some(1), forum_id: Some(2), tag_type: s("in_work_tag"), max_members: None, score_modifier: Some(-1), ping_role: None }.into();
    assert_eq!(w.tag_type, Some(TageTypes::InWork));
    let b = OldTaskTag { id: Some(1), forum_id: Some(2), tag_type: s("whatever"), max_members: None, score_modifier: None, ping_role: None }.into();
    assert_eq!(b.tag_type, Some(TageTypes::Base));
    let p = OldProject {
        name: Some(s("alpha")),
        max_tasks_per_user: 3,
        tasks_forum: 10,
        waiter_role: None,
        stat_posts: vec![(1, 100), (2, 200), (1, 101)],
        stat_channel: Some(5),
        associated_roles: vec![7],
        tags: Vec::new(),
        tasks: Vec::new(),
    }
    .into();
    assert_eq!(p.name, "alpha");
    assert_eq!(p.stat_posts.get(&1), Some(&101));
    assert_eq!(p.stat_posts.len(), 2);
}

#[test]
fn old_tasks() {
    let old = || OldTask {
        id: Some(4),
        project: Some(s("alpha")),
        score: 15,
        name: s("Task"),
        thread_id: 99,
        mentor_id: Some(3),
        members: vec![3, 5],
        start_date: s("2024-01-02"),
        last_save: None,
        max_members: 4,
        _max_members: Some(6),
    };
    let t = old().into(1);
    assert_eq!((t.id, t.thread_id, *t.score.get(), *t.max_members.get()), (4, 99, 15, 6));
    assert_eq!(t.start_date, Some(1704153600));
    assert_eq!(t.members.get(), &vec![3, 5]);
    let mut bad = old();
    bad.start_date = s("soon");
    assert!(bad.try_into(1).is_none());
    assert!(old().try_into(1).is_some());
}

#[test]
fn old_members() {
    let old = || OldProjectMember {
        id: Some(42),
        done_tasks: Some(vec![(s("alpha"), vec![s("t1"), s("t2")]), (s("beta"), vec![])]),
        mentor_tasks: None,
        own_folder: Some(s("folder")),
        score: Some(12),
        all_time_score: None,
        warns: Some(vec![s("<@1> (2024-01-02): **П. 3 flood**")]),
        notes: Some(vec![s("<@2> (1970-01-01): **note one**")]),
        last_activity: Some(vec![(s("alpha"), s("2024-01-02")), (s("beta"), s("bad date"))]),
        ckey: None,
    };
    let m = old().into();
    assert_eq!(m.id, 42);
    assert_eq!(m.done_tasks.get(&s("alpha")), Some(&vec![TaskHistory::OldFormat(s("t1")), TaskHistory::OldFormat(s("t2"))]));
    assert_eq!(m.done_tasks.get(&s("beta")), Some(&vec![]));
    assert!(m.mentor_tasks.keys().is_empty());
    assert_eq!((m.score, m.all_time_score), (12, 0));
    assert_eq!(m.last_activity.get(&s("alpha")), Some(&1704153600));
    assert!(m.last_activity.get(&s("beta")).is_none());
    assert_eq!(m.notes, vec![NotesHistory::Current(2, 0, s("note one"))]);
    assert_eq!(m.warns, vec![NotesHistory::Current(1, 1704153600, s("П. 3 flood"))]);
    let mut bad = old();
    bad.notes = Some(vec![s("just a note")]);
    assert!(bad.try_into().is_none());
    assert!(old().try_into().is_some());
}
