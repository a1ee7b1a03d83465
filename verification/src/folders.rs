//! Linking a member's own folder on the save server: which database it is
//! linked in, and when the request is refused.
use vstd::prelude::*;
use crate::member::{MembersManager, ProjectMember};
use crate::text::{concat, split, split_str};

verus! {

/// What a request to link a folder comes to, as values.
pub enum LinkModel {
    NoDatabases,
    PickDatabase(Seq<(Seq<char>, Seq<char>)>),
    AlreadyLinked,
    StrangerFolder(u64),
    Link(Seq<char>, Seq<char>),
}

/// What a request to link a folder comes to.
#[derive(Debug, PartialEq)]
pub enum LinkStep {
    /// The member may save in no database: nothing to link.
    NoDatabases,
    /// The member may save in several databases: a menu asks which one,
    /// with one option per database, labelled by it and valued
    /// `<database>:::<folder>`.
    PickDatabase { options: Vec<(String, String)> },
    /// The member has a folder linked already.
    AlreadyLinked,
    /// Another member's folder is this one: the request is refused and
    /// that member named.
    StrangerFolder { owner: u64 },
    /// The folder is linked in the one database.
    Link { db: String, folder: String },
}

impl View for LinkStep {
    type V = LinkModel;

    open spec fn view(&self) -> LinkModel {
        match self {
            LinkStep::NoDatabases => LinkModel::NoDatabases,
            LinkStep::PickDatabase { options } => LinkModel::PickDatabase(
                options@.map_values(|o: (String, String)| (o.0@, o.1@)),
            ),
            LinkStep::AlreadyLinked => LinkModel::AlreadyLinked,
            LinkStep::StrangerFolder { owner } => LinkModel::StrangerFolder(*owner),
            LinkStep::Link { db, folder } => LinkModel::Link(db@, folder@),
        }
    }
}

/// The menu value that picks database `db` for `folder`.
pub open spec fn pick_value(db: Seq<char>, folder: Seq<char>) -> Seq<char> {
    db + ":::"@ + folder
}

/// What a request to link `folder` comes to for a member who may save in
/// the databases `dbs`, whose own folder is `own`, when the member whose
/// folder `folder` already is (if any) is `owner`: with no database nothing
/// is linked; with several a menu asks which one; with one, a member who
/// has a folder is told so, a folder of someone else's is refused, and any
/// other folder is linked.
pub open spec fn link_model(dbs: Seq<Seq<char>>, own: Option<Seq<char>>, owner: Option<u64>, folder: Seq<char>) -> LinkModel {
    if dbs.len() == 0 {
        LinkModel::NoDatabases
    } else if dbs.len() > 1 {
        LinkModel::PickDatabase(dbs.map_values(|d: Seq<char>| (d, pick_value(d, folder))))
    } else if own is Some {
        LinkModel::AlreadyLinked
    } else if owner is Some {
        LinkModel::StrangerFolder(owner->0)
    } else {
        LinkModel::Link(dbs[0], folder)
    }
}

/// What a request to link `folder` comes to (see `link_model`).
pub fn link_folder_step(dbs: &Vec<String>, own_folder: &Option<String>, owner: Option<u64>, folder: &String) -> (r:
    LinkStep)
    ensures
        r@ == link_model(
            dbs@.map_values(|d: String| d@),
            match own_folder {
                Some(f) => Some(f@),
                None => None,
            },
            owner,
            folder@,
        ),
{
    let ghost names = dbs@.map_values(|d: String| d@);
    if dbs.len() == 0 {
        return LinkStep::NoDatabases;
    }
    if dbs.len() > 1 {
        let mut options: Vec<(String, String)> = Vec::new();
        let mut i: usize = 0;
        while i < dbs.len()
            invariant
                i <= dbs@.len(),
                names == dbs@.map_values(|d: String| d@),
                options@.len() == i,
                forall|j: int| 0 <= j < i ==> (#[trigger] options@[j]).0@ == names[j] && options@[j].1@ == pick_value(
                    names[j],
                    folder@,
                ),
            decreases dbs@.len() - i,
        {
            let head = concat(dbs[i].as_str(), ":::");
            let value = concat(head.as_str(), folder.as_str());
            options.push((dbs[i].clone(), value));
            i = i + 1;
        }
        let r = LinkStep::PickDatabase { options };
        proof {
            assert(options@.map_values(|o: (String, String)| (o.0@, o.1@)) =~= names.map_values(
                |d: Seq<char>| (d, pick_value(d, folder@)),
            ));
        }
        return r;
    }
    if own_folder.is_some() {
        return LinkStep::AlreadyLinked;
    }
    match owner {
        Some(id) => LinkStep::StrangerFolder { owner: id },
        None => LinkStep::Link { db: dbs[0].clone(), folder: folder.clone() },
    }
}

/// The names of the databases `dbs`.
pub open spec fn db_names(dbs: Seq<String>) -> Seq<Seq<char>> {
    dbs.map_values(|d: String| d@)
}

/// The own folder that the record of `me` holds; none without a record.
pub open spec fn record_folder(members: Map<u64, ProjectMember>, me: u64) -> Option<Seq<char>> {
    if members.dom().contains(me) {
        match members[me].own_folder {
            Some(f) => Some(f@),
            None => None,
        }
    } else {
        None
    }
}

/// Whether `owner` is what `folder_owner` may find for `folder`: a member
/// whose own folder it is, or `None` when it is nobody's.
pub open spec fn possible_owner(members: Map<u64, ProjectMember>, folder: Seq<char>, owner: Option<u64>) -> bool {
    match owner {
        Some(o) => members.dom().contains(o) && MembersManager::owns_folder(members[o], folder),
        None => forall|x: u64| #[trigger] members.dom().contains(x) ==> !MembersManager::owns_folder(members[x], folder),
    }
}

impl MembersManager {
    /// What the request of member `me` to link `folder` comes to, for the
    /// databases `dbs` that they may save in (see `link_folder_step`): their
    /// own folder is the one their record holds (none without a record),
    /// and the folder is someone else's when `folder_owner` finds it.
    pub fn link_request(&self, me: u64, dbs: &Vec<String>, folder: &String) -> (r: LinkStep)
        ensures
            exists|owner: Option<u64>|
                #![trigger link_model(db_names(dbs@), record_folder(self.members@, me), owner, folder@)]
                possible_owner(self.members@, folder@, owner) && r@ == link_model(
                    db_names(dbs@),
                    record_folder(self.members@, me),
                    owner,
                    folder@,
                ),
    {
        let owner = self.folder_owner(folder);
        let r = match self.members.get(&me) {
            Some(rec) => link_folder_step(dbs, &rec.own_folder, owner, folder),
            None => link_folder_step(dbs, &None, owner, folder),
        };
        assert(possible_owner(self.members@, folder@, owner));
        assert(r@ == link_model(db_names(dbs@), record_folder(self.members@, me), owner, folder@));
        r
    }
}

/// The database and folder that the menu value `value` picks (see
/// `pick_value`): the pieces before and after the first `:::`.
pub fn picked_link(value: &str) -> (r: (String, String))
    requires
        split(value@, ":::"@).len() >= 2,
    ensures
        r.0@ == split(value@, ":::"@)[0],
        r.1@ == split(value@, ":::"@)[1],
{
    proof {
        reveal_strlit(":::");
    }
    let parts = split_str(value, ":::");
    assert(parts@.map_values(|x: String| x@)[0] == parts@[0]@);
    assert(parts@.map_values(|x: String| x@)[1] == parts@[1]@);
    (parts[0].clone(), parts[1].clone())
}

} // verus!
