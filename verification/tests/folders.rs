use task_bot::folders::{link_folder_step, picked_link, LinkStep};
use task_bot::member::{MembersManager, ProjectMember};

fn s(x: &str) -> String {
    x.to_string()
}

#[test]
fn linking_needs_a_database() {
    assert_eq!(link_folder_step(&vec![], &None, None, &s("f")), LinkStep::NoDatabases);
}

#[test]
fn several_databases_ask_which_one() {
    assert_eq!(
        link_folder_step(&vec![s("main"), s("archive")], &None, Some(4), &s("f")),
        LinkStep::PickDatabase {
            options: vec![(s("main"), s("main:::f")), (s("archive"), s("archive:::f"))]
        }
    );
    assert_eq!(picked_link("archive:::team/f"), (s("archive"), s("team/f")));
}

#[test]
fn one_database_links_unless_linked_or_taken() {
    let dbs = vec![s("main")];
    assert_eq!(link_folder_step(&dbs, &Some(s("g")), None, &s("f")), LinkStep::AlreadyLinked);
    assert_eq!(link_folder_step(&dbs, &None, Some(7), &s("f")), LinkStep::StrangerFolder { owner: 7 });
    assert_eq!(
        link_folder_step(&dbs, &None, None, &s("f")),
        LinkStep::Link { db: s("main"), folder: s("f") }
    );
}

#[test]
fn a_request_looks_up_the_folder_owner() {
    let mut man = MembersManager::new();
    let mut a = ProjectMember::new(1);
    a.set_folder(Some(s("team/a")));
    man.ensure(1, a);
    man.ensure(2, ProjectMember::new(2));
    let dbs = vec![s("main")];
    assert_eq!(man.link_request(2, &dbs, &s("team/a")), LinkStep::StrangerFolder { owner: 1 });
    assert_eq!(man.link_request(1, &dbs, &s("team/b")), LinkStep::AlreadyLinked);
    assert_eq!(
        man.link_request(3, &dbs, &s("team/b")),
        LinkStep::Link { db: s("main"), folder: s("team/b") }
    );
}
