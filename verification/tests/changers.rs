use task_bot::changers::{param_rows, tag_type_from_name, ProjectEditorRow, TagEditorRow, TaskEditorRow};
use task_bot::member::{NotesHistory, ProjectMember, TaskHistory};
use task_bot::member_changer::{note_options, removal_options};
use task_bot::project::ProjectManager;
use task_bot::tag::{TageTypes, TagsManager, TaskTag};
use task_bot::task::TaskManager;

fn s(x: &str) -> String {
    x.to_string()
}

#[test]
fn tag_editor_picks() {
    assert_eq!(tag_type_from_name("inwork"), Some(TageTypes::InWork));
    assert_eq!(tag_type_from_name("other"), None);
    let mut t = TaskTag::new(1, 2);
    t.pick_tag_type(&vec![s("base"), s("closedtask")]);
    assert_eq!(t.tag_type, Some(TageTypes::ClosedTask));
    t.pick_tag_type(&vec![]);
    assert_eq!(t.tag_type, None);
    t.set_max_members_text("12");
    assert_eq!(t.max_members, Some(12));
    t.set_max_members_text("twelve");
    assert_eq!(t.max_members, None);
    t.set_score_modifier_text("-3");
    assert_eq!(t.score_modifier, Some(-3));
}

#[test]
fn project_editor_picks_roles() {
    let mut man = ProjectManager::new();
    man.new_project(s("a"), 1, 1, None, None).unwrap();
    let mut p = man.delete(&s("a")).unwrap();
    p.add_role(1);
    p.add_role(2);
    p.add_role(3);
    p.pick_roles(&vec![3, 4]);
    assert_eq!(p.associated_roles, vec![3, 4]);
    p.pick_roles(&vec![]);
    assert!(p.associated_roles.is_empty());
}

#[test]
fn picked_roles_keep_their_places_and_new_ones_come_last() {
    let mut man = ProjectManager::new();
    man.new_project(s("a"), 1, 1, None, None).unwrap();
    let mut p = man.delete(&s("a")).unwrap();
    p.add_role(5);
    p.add_role(1);
    p.add_role(7);
    p.add_role(2);
    p.pick_roles(&vec![9, 2, 5, 8]);
    assert_eq!(p.associated_roles, vec![5, 2, 9, 8]);
    assert_eq!(p.name, "a");
}

#[test]
fn member_editor_score_and_removals() {
    let mut m = ProjectMember::new(1);
    m.change_score(5);
    assert!(m.set_score_text("20"));
    assert_eq!((m.score, m.all_time_score), (20, 20));
    assert!(m.set_score_text("-4"));
    assert_eq!((m.score, m.all_time_score), (-4, 20));
    assert!(!m.set_score_text("lots"));
    assert_eq!(m.score, -4);

    let mut tasks = TaskManager::new();
    let tags = TagsManager::new();
    let id = tasks.new_task(s("alpha"), 555, s("t"), Some(Some(1)), &vec![], &tags, 1).unwrap();
    let id2 = tasks.new_task(s("alpha"), 556, s("u"), Some(Some(1)), &vec![], &tags, 1).unwrap();
    m.add_custom_done_task(&s("alpha"), TaskHistory::OldFormat(s("old text")));
    // Only old-format texts are taken as custom entries.
    m.add_custom_done_task(&s("alpha"), TaskHistory::Current(vec![(0, 77)]));
    m.add_done_task(&s("alpha"), id, 86400);
    m.add_done_task(&s("alpha"), id2, 172800);
    assert_eq!(m.done_tasks.get(&s("alpha")).unwrap().len(), 3);
    assert_eq!(TaskHistory::Current(vec![(86400, id), (5, 999)]).get(&tasks), "<t:86400:D> <#555>\n");
    assert_eq!(TaskHistory::OldFormat(s("x")).get(&tasks), "x");
    // By id, the index counts only the entries of recorded tasks: with the
    // old text first, it points one entry short, at the entry of `id`.
    m.remove_picked_done_task(&format!("alpha:::{}", id2), &tasks);
    assert_eq!(
        m.done_tasks.get(&s("alpha")),
        Some(&vec![TaskHistory::OldFormat(s("old text")), TaskHistory::Current(vec![(172800, id2)])])
    );
    m.remove_picked_done_task("alpha:::old", &tasks);
    assert_eq!(m.done_tasks.get(&s("alpha")), Some(&vec![TaskHistory::Current(vec![(172800, id2)])]));
    m.remove_picked_done_task("alpha:::nothing matches", &tasks);
    m.remove_picked_done_task("beta:::1", &tasks);
    assert_eq!(m.done_tasks.get(&s("alpha")).unwrap().len(), 1);
    m.remove_picked_done_task("alpha:::#556", &tasks);
    assert!(m.done_tasks.get(&s("alpha")).is_none());
    m.add_mentor_task(&s("alpha"), id, 3);
    m.remove_picked_mentor_task(&format!("alpha:::{}", id), &tasks);
    assert!(m.mentor_tasks.get(&s("alpha")).is_none());
}

#[test]
fn editor_rows_name_their_buttons() {
    let rows = param_rows("task-changer", &vec!["score".to_string(), "max-members".to_string()]);
    assert_eq!(
        rows,
        vec![
            ("task-changer:score-label".to_string(), "task-changer-score-label".to_string(), "task-changer:score".to_string()),
            (
                "task-changer:max-members-label".to_string(),
                "task-changer-max-members-label".to_string(),
                "task-changer:max-members".to_string()
            ),
        ]
    );
    assert!(param_rows("x", &vec![]).is_empty());
}

#[test]
fn task_editor_layout() {
    let tags = TagsManager::new();
    let mut tasks = TaskManager::new();
    let id = tasks.new_task("alpha".to_string(), 900, "T".to_string(), Some(Some(1)), &vec![], &tags, 1).unwrap();
    let mut t = tasks.take(id).unwrap();
    t.add_member(5, true, None);
    t.set_mentor(Some(5), 2, true, None);
    let rows = t.editor_rows();
    assert_eq!(rows.len(), 5);
    // The member limit 10000 does not fit a byte; it is cut (10000 mod 256).
    assert_eq!(rows[0], TaskEditorRow::Members { current: vec![5], max: 16 });
    assert_eq!(rows[1], TaskEditorRow::Mentor { current: Some(5) });
    assert_eq!(
        rows[2],
        TaskEditorRow::Param {
            label_id: s("task-changer:score-label"),
            label_key: s("task-changer-score-label"),
            edit_id: s("task-changer:score")
        }
    );
    assert_eq!(rows[4], TaskEditorRow::Close);
    t.close(3);
    assert_eq!(t.editor_rows(), vec![TaskEditorRow::Open]);
}

#[test]
fn notes_menu_and_removal_by_text() {
    let mut m = ProjectMember::new(1);
    m.add_note(7, 100, s("late"));
    m.notes.push(NotesHistory::OldFormat(s("rude")));
    m.add_note(8, 200, s("helpful"));
    assert_eq!(
        note_options(&m.notes),
        vec![(s("late"), s("0:::late")), (s("rude"), s("1:::rude")), (s("helpful"), s("2:::helpful"))]
    );
    m.remove_picked_note("1:::rude");
    assert_eq!(m.notes, vec![NotesHistory::Current(7, 100, s("late")), NotesHistory::Current(8, 200, s("helpful"))]);
    m.remove_picked_note("5:::nothing");
    assert_eq!(m.notes.len(), 2);
    // Two notes with the same text at the start: the second removal is made
    // at the second position of the shortened list.
    let mut w = ProjectMember::new(2);
    w.add_warn(7, 1, s("spam"));
    w.add_warn(7, 2, s("spam"));
    w.add_warn(7, 3, s("other"));
    w.remove_picked_warn("0:::spam");
    assert_eq!(w.warns, vec![NotesHistory::Current(7, 2, s("spam"))]);
}

#[test]
fn removal_menu_lists_recorded_tasks_then_old_entries() {
    let tags = TagsManager::new();
    let mut tasks = TaskManager::new();
    let a = tasks.new_task(s("alpha"), 1, s("First"), Some(Some(1)), &vec![], &tags, 1).unwrap();
    let b = tasks.new_task(s("alpha"), 2, s("Second"), Some(Some(1)), &vec![], &tags, 1).unwrap();
    let c = tasks.new_task(s("alpha"), 3, s("Third"), Some(Some(1)), &vec![], &tags, 1).unwrap();
    let mut m = ProjectMember::new(1);
    m.add_done_task(&s("alpha"), c, 10);
    m.add_done_task(&s("alpha"), a, 11);
    m.add_custom_done_task(&s("alpha"), TaskHistory::OldFormat(s("legacy work")));
    let history = m.done_tasks.get(&s("alpha")).unwrap().clone();
    let ids = vec![a, b, c, 999];
    let opts = removal_options(&history, &s("alpha"), &ids, &tasks);
    assert_eq!(
        opts,
        vec![
            (s("First"), format!("alpha:::{}", a)),
            (s("Third"), format!("alpha:::{}", c)),
            (s("legacy work"), s("alpha:::legacy work")),
        ]
    );
    assert!(removal_options(&vec![], &s("alpha"), &ids, &tasks).is_empty());
}

#[test]
fn tag_and_project_editor_layouts() {
    let mut tag = TaskTag::new(1, 10);
    tag.set_tag_type(Some(TageTypes::InWork));
    tag.set_ping_role(Some(77));
    tag.set_task_project(Some(s("beta")));
    let rows = tag.editor_rows(&vec![s("alpha"), s("beta")]);
    assert_eq!(rows.len(), 5);
    assert_eq!(
        rows[0],
        TagEditorRow::TagType {
            options: vec![
                (s("tag-types-base"), s("base"), false),
                (s("tag-types-closedtask"), s("closedtask"), false),
                (s("tag-types-inwork"), s("inwork"), true),
            ]
        }
    );
    assert_eq!(rows[1], TagEditorRow::PingRole { current: Some(77) });
    assert_eq!(rows[2], TagEditorRow::Project { options: vec![(s("alpha"), false), (s("beta"), true)] });
    assert_eq!(
        rows[4],
        TagEditorRow::Param {
            label_id: s("tag-changer:score-modifier-label"),
            label_key: s("tag-changer-score-modifier-label"),
            edit_id: s("tag-changer:score-modifier")
        }
    );
    assert_eq!(tag.editor_rows(&vec![]).len(), 4);

    let mut man = ProjectManager::new();
    man.new_project(s("p"), 2, 10, Some(5), None).unwrap();
    let mut p = man.delete(&s("p")).unwrap();
    p.add_role(100);
    let rows = p.editor_rows();
    assert_eq!(rows.len(), 5);
    assert_eq!(
        rows[0],
        ProjectEditorRow::Param {
            label_id: s("project-changer:max-tasks-per-user-label"),
            label_key: s("project-changer-max-tasks-per-user-label"),
            edit_id: s("project-changer:max-tasks-per-user")
        }
    );
    assert_eq!(rows[2], ProjectEditorRow::WaiterRole { current: Some(5) });
    assert_eq!(rows[3], ProjectEditorRow::StatChannel { current: None });
    assert_eq!(rows[4], ProjectEditorRow::AssociatedRoles { current: vec![100] });
}
