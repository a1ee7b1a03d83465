use task_bot::tag::{TageTypes, TagsManager, TaskTag};

#[test]
fn tag_type_names() {
    assert_eq!(TageTypes::Base.to_string(), "base");
    assert_eq!(TageTypes::ClosedTask.to_string(), "closedtask");
    assert_eq!(TageTypes::InWork.to_string(), "inwork");
}

#[test]
fn tag_setters_return_previous_values() {
    let mut t = TaskTag::new(1, 10);
    assert_eq!(t.set_tag_type(Some(TageTypes::InWork)), None);
    assert_eq!(t.set_tag_type(None), Some(TageTypes::InWork));
    assert_eq!(t.set_max_members(Some(3)), None);
    assert_eq!(t.set_max_members(Some(4)), Some(3));
    assert_eq!(t.set_score_modifier(Some(-2)), None);
    assert_eq!(t.set_task_project(Some("p".to_string())), None);
    assert_eq!(t.set_task_project(None), Some("p".to_string()));
    assert_eq!(t.set_ping_role(Some(77)), None);
    let c = t.clone_tag();
    assert_eq!((c.id, c.forum_id, c.max_members, c.score_modifier, c.ping_role), (1, 10, Some(4), Some(-2), Some(77)));
}

#[test]
fn tags_by_forum_and_type() {
    let mut man = TagsManager::new();
    man.new_tag(1, 10);
    man.new_tag(2, 10);
    man.new_tag(3, 20);
    let mut t = man.get(2).unwrap().clone_tag();
    t.set_tag_type(Some(TageTypes::ClosedTask));
    man.put(t);
    let forum: Vec<u64> = man.get_forum_tags(10).unwrap().iter().map(|t| t.id).collect();
    assert_eq!(forum, vec![1, 2]);
    assert!(man.get_forum_tags(99).is_none());
    assert_eq!(man.get_by_type(10, TageTypes::ClosedTask), Some(vec![2]));
    assert_eq!(man.get_by_type(10, TageTypes::InWork), Some(vec![]));
    assert_eq!(man.get_by_type(99, TageTypes::Base), None);
}
