//! Projects: a forum of task threads, the roles whose holders take part,
//! and the statistics posts kept for each of those roles.
use vstd::prelude::*;
use crate::maps::{IdMap, NameMap};
use crate::shop::vec_contains_u64;
use crate::text::concat;

verus! {

/// A project: its forum of tasks, the roles that take part in it, and
/// its statistics posts.
pub struct Project {
    pub name: String,
    pub max_tasks_per_user: u32,
    pub tasks_forum: u64,
    pub waiter_role: Option<u64>,
    pub stat_posts: IdMap<u64>,
    pub stat_channel: Option<u64>,
    pub associated_roles: Vec<u64>,
}

/// Some role of `member_roles` is one of `roles`.
pub open spec fn shares_role(roles: Seq<u64>, member_roles: Seq<u64>) -> bool {
    exists|i: int| 0 <= i < member_roles.len() && roles.contains(#[trigger] member_roles[i])
}

/// Whether some role of `member_roles` is in `roles`.
pub fn shares_role_exec(roles: &Vec<u64>, member_roles: &Vec<u64>) -> (r: bool)
    ensures
        r == shares_role(roles@, member_roles@),
{
    let mut i: usize = 0;
    while i < member_roles.len()
        invariant
            i <= member_roles@.len(),
            forall|j: int| 0 <= j < i ==> !roles@.contains(#[trigger] member_roles@[j]),
        decreases member_roles@.len() - i,
    {
        if vec_contains_u64(roles, member_roles[i]) {
            return true;
        }
        i = i + 1;
    }
    false
}

impl Project {
    /// The project's name.
    pub fn name(&self) -> (r: &String)
        ensures
            *r == self.name,
    {
        &self.name
    }

    /// Sets how many tasks of the project one member may work on at once,
    /// returning the previous limit.
    pub fn set_max_task_per_user(&mut self, max_tasks: u32) -> (prev: u32)
        ensures
            final(self).max_tasks_per_user == max_tasks,
            prev == old(self).max_tasks_per_user,
            final(self).name == old(self).name,
            final(self).tasks_forum == old(self).tasks_forum,
            final(self).associated_roles == old(self).associated_roles,
    {
        let prev = self.max_tasks_per_user;
        self.max_tasks_per_user = max_tasks;
        prev
    }

    /// Sets the forum whose threads are the project's tasks, returning the
    /// previous one.
    pub fn set_tasks_forum(&mut self, forum: u64) -> (prev: u64)
        ensures
            final(self).tasks_forum == forum,
            prev == old(self).tasks_forum,
            final(self).name == old(self).name,
            final(self).max_tasks_per_user == old(self).max_tasks_per_user,
            final(self).associated_roles == old(self).associated_roles,
    {
        let prev = self.tasks_forum;
        self.tasks_forum = forum;
        prev
    }

    /// Sets the role pinged on new tasks, returning the previous one.
    pub fn set_waiter_role(&mut self, waiter: Option<u64>) -> (prev: Option<u64>)
        ensures
            final(self).waiter_role == waiter,
            prev == old(self).waiter_role,
            final(self).name == old(self).name,
            final(self).tasks_forum == old(self).tasks_forum,
            final(self).associated_roles == old(self).associated_roles,
    {
        let prev = self.waiter_role;
        self.waiter_role = waiter;
        prev
    }

    /// Sets the channel of the statistics posts, returning the previous one.
    pub fn set_stat_channel(&mut self, channel: Option<u64>) -> (prev: Option<u64>)
        ensures
            final(self).stat_channel == channel,
            prev == old(self).stat_channel,
            final(self).name == old(self).name,
            final(self).tasks_forum == old(self).tasks_forum,
            final(self).associated_roles == old(self).associated_roles,
    {
        let prev = self.stat_channel;
        self.stat_channel = channel;
        prev
    }

    /// Whether a member with `member_roles` takes part in the project.
    pub fn member_in_project(&self, member_roles: &Vec<u64>) -> (r: bool)
        ensures
            r == shares_role(self.associated_roles@, member_roles@),
    {
        shares_role_exec(&self.associated_roles, member_roles)
    }

    /// Associates `role` with the project; returns whether it was new.
    pub fn add_role(&mut self, role: u64) -> (added: bool)
        ensures
            added == !old(self).associated_roles@.contains(role),
            final(self).associated_roles@ == if added {
                old(self).associated_roles@.push(role)
            } else {
                old(self).associated_roles@
            },
            final(self).name == old(self).name,
            final(self).tasks_forum == old(self).tasks_forum,
            final(self).max_tasks_per_user == old(self).max_tasks_per_user,
    {
        if vec_contains_u64(&self.associated_roles, role) {
            return false;
        }
        self.associated_roles.push(role);
        true
    }

    /// Removes `role` (its first listing) from the project; returns whether
    /// it was there.
    pub fn remove_role(&mut self, role: u64) -> (removed: bool)
        ensures
            removed == old(self).associated_roles@.contains(role),
            final(self).associated_roles@ == crate::member::remove_first(
                old(self).associated_roles@,
                role,
            ),
            final(self).name == old(self).name,
            final(self).tasks_forum == old(self).tasks_forum,
            final(self).max_tasks_per_user == old(self).max_tasks_per_user,
    {
        let mut i: usize = 0;
        while i < self.associated_roles.len()
            invariant
                i <= self.associated_roles@.len(),
                self.associated_roles@ == old(self).associated_roles@,
                self.name == old(self).name,
                self.tasks_forum == old(self).tasks_forum,
                self.max_tasks_per_user == old(self).max_tasks_per_user,
                forall|j: int| 0 <= j < i ==> self.associated_roles@[j] != role,
            decreases self.associated_roles@.len() - i,
        {
            if self.associated_roles[i] == role {
                proof {
                    crate::member::lemma_remove_first_at(self.associated_roles@, role, i as int);
                }
                self.associated_roles.remove(i);
                return true;
            }
            i = i + 1;
        }
        proof {
            crate::member::lemma_remove_first_absent(self.associated_roles@, role);
        }
        false
    }

    /// Records the statistics message posted for `role`.
    pub fn record_stat_post(&mut self, role: u64, message: u64)
        ensures
            final(self).stat_posts@ == old(self).stat_posts@.insert(role, message),
            final(self).associated_roles == old(self).associated_roles,
            final(self).name == old(self).name,
    {
        self.stat_posts.insert(role, message);
    }

    /// Drops the statistics posts of roles that are no longer associated,
    /// returning them (role, message) so that the messages can be deleted.
    pub fn prune_stat_posts(&mut self) -> (removed: Vec<(u64, u64)>)
        ensures
            forall|r: u64|
                #[trigger] final(self).stat_posts@.dom().contains(r) <==> (old(
                    self,
                ).stat_posts@.dom().contains(r) && old(self).associated_roles@.contains(r)),
            forall|r: u64|
                #[trigger] final(self).stat_posts@.dom().contains(r) ==> final(self).stat_posts@[r]
                    == old(self).stat_posts@[r],
            forall|i: int|
                0 <= i < removed@.len() ==> old(self).stat_posts@.dom().contains(
                    #[trigger] removed@[i].0,
                ) && !old(self).associated_roles@.contains(removed@[i].0) && old(
                    self,
                ).stat_posts@[removed@[i].0] == removed@[i].1,
            forall|r: u64|
                old(self).stat_posts@.dom().contains(r) && !old(self).associated_roles@.contains(r)
                    ==> exists|i: int| 0 <= i < removed@.len() && #[trigger] removed@[i].0 == r,
            final(self).associated_roles == old(self).associated_roles,
            final(self).name == old(self).name,
    {
        self.stat_posts.lemma_seqs();
        let n = self.stat_posts.len();
        let ghost keys = self.stat_posts.key_seq();
        let ghost vals = self.stat_posts.value_seq();
        let ghost old_posts = self.stat_posts@;
        let mut kept: IdMap<u64> = IdMap::new();
        let mut removed: Vec<(u64, u64)> = Vec::new();
        let mut i: usize = 0;
        while i < n
            invariant
                n == keys.len(),
                keys == self.stat_posts.key_seq(),
                vals == self.stat_posts.value_seq(),
                old_posts == self.stat_posts@,
                self.stat_posts == old(self).stat_posts,
                self.associated_roles == old(self).associated_roles,
                self.name == old(self).name,
                keys.no_duplicates(),
                keys.len() == vals.len(),
                forall|j: int|
                    #![trigger keys[j]]
                    0 <= j < keys.len() ==> old_posts.dom().contains(keys[j]) && old_posts[keys[j]]
                        == vals[j],
                i <= n,
                forall|r: u64|
                    #[trigger] kept@.dom().contains(r) <==> (exists|j: int|
                        0 <= j < i && keys[j] == r) && old(self).associated_roles@.contains(r),
                forall|r: u64| #[trigger] kept@.dom().contains(r) ==> kept@[r] == old_posts[r],
                forall|j: int|
                    0 <= j < removed@.len() ==> old_posts.dom().contains(#[trigger] removed@[j].0)
                        && !old(self).associated_roles@.contains(removed@[j].0)
                        && old_posts[removed@[j].0] == removed@[j].1,
                forall|j: int|
                    0 <= j < i && !old(self).associated_roles@.contains(#[trigger] keys[j])
                        ==> exists|l: int| 0 <= l < removed@.len() && removed@[l].0 == keys[j],
            decreases n - i,
        {
            let (k, v) = self.stat_posts.entry_at(i);
            let role = *k;
            let msg = *v;
            if vec_contains_u64(&self.associated_roles, role) {
                kept.insert(role, msg);
                proof {
                    assert forall|r: u64| #[trigger] kept@.dom().contains(r) <==> (exists|j: int|
                        0 <= j < i + 1 && keys[j] == r) && old(self).associated_roles@.contains(r) by {
                        if r == role {
                            assert(keys[i as int] == r);
                        }
                    }
                }
            } else {
                let ghost before = removed@;
                removed.push((role, msg));
                proof {
                    assert forall|j: int|
                        0 <= j < i + 1 && !old(self).associated_roles@.contains(#[trigger] keys[j])
                            implies exists|l: int| 0 <= l < removed@.len() && removed@[l].0 == keys[j] by {
                        if j < i {
                            let l = choose|l: int| 0 <= l < before.len() && before[l].0 == keys[j];
                            assert(removed@[l] == before[l]);
                        } else {
                            assert(removed@[before.len() as int].0 == keys[j]);
                        }
                    }
                    assert(removed@[removed@.len() - 1].0 == keys[i as int]);
                    assert forall|r: u64| #[trigger] kept@.dom().contains(r) <==> (exists|j: int|
                        0 <= j < i + 1 && keys[j] == r) && old(self).associated_roles@.contains(r) by {
                        if (exists|j: int| 0 <= j < i + 1 && keys[j] == r) && old(self).associated_roles@.contains(r) {
                            let j = choose|j: int| 0 <= j < i + 1 && keys[j] == r;
                            assert(j != i);
                        }
                    }
                }
            }
            i = i + 1;
        }
        self.stat_posts = kept;
        proof {
            assert forall|r: u64|
                old(self).stat_posts@.dom().contains(r) && !old(self).associated_roles@.contains(r)
                    implies exists|l: int| 0 <= l < removed@.len() && #[trigger] removed@[l].0 == r by {
                assert(keys.contains(r));
                let j = choose|j: int| 0 <= j < keys.len() && keys[j] == r;
                assert(keys[j] == r);
            }
            assert forall|r: u64|
                #[trigger] self.stat_posts@.dom().contains(r) <==> (old(self).stat_posts@.dom().contains(r)
                    && old(self).associated_roles@.contains(r)) by {
                if old(self).stat_posts@.dom().contains(r) {
                    assert(keys.contains(r));
                    let j = choose|j: int| 0 <= j < keys.len() && keys[j] == r;
                    assert(keys[j] == r);
                }
            }
        }
        removed
    }
}

/// The projects, by name.
pub struct ProjectManager {
    projects: NameMap<Project>,
}

impl ProjectManager {
    #[verifier::type_invariant]
    closed spec fn names_match(self) -> bool {
        forall|k: Seq<char>|
            #[trigger] self.projects@.dom().contains(k) ==> self.projects@[k].name@ == k
    }

    /// The projects, by name.
    pub closed spec fn view(&self) -> Map<Seq<char>, Project> {
        self.projects@
    }

    /// A manager with no projects.
    pub fn new() -> (m: Self)
        ensures
            m@ == Map::<Seq<char>, Project>::empty(),
    {
        ProjectManager { projects: NameMap::new() }
    }

    /// Every stored project is stored under its own name.
    pub fn names_are_keys(&self)
        ensures
            forall|k: Seq<char>| #[trigger] self@.dom().contains(k) ==> self@[k].name@ == k,
    {
        proof {
            use_type_invariant(self);
        }
    }

    /// Stores a project read from the data files, under its name.
    pub fn insert_loaded(&mut self, project: Project)
        ensures
            final(self)@ == old(self)@.insert(project.name@, project),
    {
        proof {
            use_type_invariant(&*self);
        }
        let name = project.name.clone();
        let mut m = NameMap::new();
        std::mem::swap(&mut m, &mut self.projects);
        m.insert(name, project);
        self.projects = m;
    }

    /// Creates project `name`; refused when a project has that name.
    pub fn new_project(
        &mut self,
        name: String,
        max_tasks_per_user: u32,
        tasks_forum: u64,
        waiter_role: Option<u64>,
        stat_channel: Option<u64>,
    ) -> (r: Result<(), String>)
        ensures
            old(self)@.dom().contains(name@) ==> r is Err && final(self)@ == old(self)@
                && r->Err_0@ == project_exists_message(name@),
            !old(self)@.dom().contains(name@) ==> r is Ok && final(self)@.dom() == old(
                self,
            )@.dom().insert(name@) && final(self)@.remove(name@) == old(self)@.remove(name@) && ({
                let p = final(self)@[name@];
                &&& p.name@ == name@
                &&& p.max_tasks_per_user == max_tasks_per_user
                &&& p.tasks_forum == tasks_forum
                &&& p.waiter_role == waiter_role
                &&& p.stat_channel == stat_channel
                &&& p.stat_posts@ == Map::<u64, u64>::empty()
                &&& p.associated_roles@.len() == 0
            }),
    {
        proof {
            use_type_invariant(&*self);
        }
        if self.projects.contains_key(&name) {
            let a = concat("project with name \"", name.as_str());
            let msg = concat(a.as_str(), "\" currently excist");
            return Err(msg);
        }
        let project = Project {
            name: name.clone(),
            max_tasks_per_user,
            tasks_forum,
            waiter_role,
            stat_posts: IdMap::new(),
            stat_channel,
            associated_roles: Vec::new(),
        };
        let mut m = NameMap::new();
        std::mem::swap(&mut m, &mut self.projects);
        m.insert(name, project);
        self.projects = m;
        proof {
            assert(self.projects@.remove(name@) =~= old(self).projects@.remove(name@));
        }
        Ok(())
    }

    /// Removes project `name`, handing it back.
    pub fn delete(&mut self, name: &String) -> (r: Option<Project>)
        ensures
            final(self)@ == old(self)@.remove(name@),
            match r {
                Some(p) => old(self)@.dom().contains(name@) && old(self)@[name@] == p,
                None => !old(self)@.dom().contains(name@),
            },
    {
        proof {
            use_type_invariant(&*self);
        }
        let mut m = NameMap::new();
        std::mem::swap(&mut m, &mut self.projects);
        let r = m.remove(name);
        self.projects = m;
        r
    }

    /// Puts back a project taken out with `delete` (after changing it).
    pub fn put(&mut self, project: Project)
        ensures
            final(self)@ == old(self)@.insert(project.name@, project),
    {
        self.insert_loaded(project);
    }

    /// The project names.
    pub fn projects(&self) -> (r: Vec<String>)
        ensures
            forall|i: int| 0 <= i < r@.len() ==> self@.dom().contains(#[trigger] r@[i]@),
            forall|k: Seq<char>|
                #[trigger] self@.dom().contains(k) ==> exists|i: int| 0 <= i < r@.len() && r@[i]@ == k,
    {
        self.projects.lemma_seqs();
        let r = self.projects.keys();
        proof {
            assert forall|k: Seq<char>| #[trigger] self@.dom().contains(k) implies exists|i: int|
                0 <= i < r@.len() && r@[i]@ == k by {
                let i = choose|i: int| 0 <= i < self.projects.key_seq().len() && self.projects.key_seq()[i] == k;
                assert(r@[i]@ == k);
            }
        }
        r
    }

    /// Project `name`.
    pub fn get(&self, name: &String) -> (r: Option<&Project>)
        ensures
            match r {
                Some(p) => self@.dom().contains(name@) && self@[name@] == *p,
                None => !self@.dom().contains(name@),
            },
    {
        self.projects.get(name)
    }

    /// A project whose tasks live in `forum`, if there is one.
    pub fn get_from_forum(&self, forum: u64) -> (r: Option<&Project>)
        ensures
            match r {
                Some(p) => p.tasks_forum == forum && self@.dom().contains(p.name@) && self@[p.name@]
                    == *p,
                None => forall|k: Seq<char>|
                    #[trigger] self@.dom().contains(k) ==> self@[k].tasks_forum != forum,
            },
    {
        proof {
            use_type_invariant(self);
        }
        self.projects.lemma_seqs();
        let n = self.projects.len();
        let mut i: usize = 0;
        while i < n
            invariant
                n == self.projects.key_seq().len(),
                n == self.projects.value_seq().len(),
                i <= n,
                forall|j: int| 0 <= j < i ==> #[trigger] self.projects.value_seq()[j].tasks_forum != forum,
            decreases n - i,
        {
            let (k, p) = self.projects.entry_at(i);
            if p.tasks_forum == forum {
                self.projects.lemma_seqs();
                proof {
                    use_type_invariant(self);
                    assert(self.projects@[self.projects.key_seq()[i as int]] == *p);
                }
                return Some(p);
            }
            i = i + 1;
        }
        self.projects.lemma_seqs();
        proof {
            assert forall|k: Seq<char>| #[trigger] self@.dom().contains(k) implies self@[k].tasks_forum != forum by {
                let j = choose|j: int| 0 <= j < self.projects.key_seq().len() && self.projects.key_seq()[j] == k;
                assert(self.projects.value_seq()[j].tasks_forum != forum);
            }
        }
        None
    }

    /// The names of the projects that a member with `member_roles` takes
    /// part in.
    pub fn projects_of_member(&self, member_roles: &Vec<u64>) -> (r: Vec<String>)
        ensures
            forall|i: int|
                0 <= i < r@.len() ==> self@.dom().contains(#[trigger] r@[i]@) && shares_role(
                    self@[r@[i]@].associated_roles@,
                    member_roles@,
                ),
            forall|k: Seq<char>|
                #[trigger] self@.dom().contains(k) && shares_role(self@[k].associated_roles@, member_roles@)
                    ==> exists|i: int| 0 <= i < r@.len() && r@[i]@ == k,
    {
        self.projects.lemma_seqs();
        let n = self.projects.len();
        let mut r: Vec<String> = Vec::new();
        let mut i: usize = 0;
        while i < n
            invariant
                n == self.projects.key_seq().len(),
                i <= n,
                forall|j: int|
                    0 <= j < r@.len() ==> self@.dom().contains(#[trigger] r@[j]@) && shares_role(
                        self@[r@[j]@].associated_roles@,
                        member_roles@,
                    ),
                forall|j: int|
                    0 <= j < i && shares_role(self@[self.projects.key_seq()[j]].associated_roles@, member_roles@)
                        ==> exists|l: int| 0 <= l < r@.len() && r@[l]@ == #[trigger] self.projects.key_seq()[j],
            decreases n - i,
        {
            let (k, p) = self.projects.entry_at(i);
            self.projects.lemma_seqs();
            let ghost before = r@;
            if p.member_in_project(member_roles) {
                r.push(k.clone());
                proof {
                    assert(r@[r@.len() - 1]@ == self.projects.key_seq()[i as int]);
                }
            }
            proof {
                assert forall|j: int|
                    0 <= j < i + 1 && shares_role(self@[self.projects.key_seq()[j]].associated_roles@, member_roles@)
                        implies exists|l: int| 0 <= l < r@.len() && r@[l]@ == #[trigger] self.projects.key_seq()[j] by {
                    if j < i {
                        let l = choose|l: int| 0 <= l < before.len() && before[l]@ == self.projects.key_seq()[j];
                        assert(r@[l] == before[l]);
                    } else {
                        assert(self@[self.projects.key_seq()[j]] == self.projects.value_seq()[j]);
                        assert(r@[r@.len() - 1]@ == self.projects.key_seq()[j]);
                    }
                }
            }
            i = i + 1;
        }
        self.projects.lemma_seqs();
        proof {
            assert forall|k: Seq<char>| #[trigger] self@.dom().contains(k) && shares_role(self@[k].associated_roles@, member_roles@)
                implies exists|l: int| 0 <= l < r@.len() && r@[l]@ == k by {
                let j = choose|j: int| 0 <= j < self.projects.key_seq().len() && self.projects.key_seq()[j] == k;
                assert(self.projects.key_seq()[j] == k);
            }
        }
        r
    }
}

/// The refusal text of `new_project` for a name already in use.
pub open spec fn project_exists_message(name: Seq<char>) -> Seq<char> {
    "project with name \""@ + name + "\" currently excist"@
}

/// Associating a new role with a project (see `Project::add_role`) and
/// then removing it (see `Project::remove_role`) leaves the project's roles
/// as they were.
pub proof fn law_add_then_remove_role_restores(roles: Seq<u64>, role: u64)
    requires
        !roles.contains(role),
    ensures
        crate::member::remove_first(roles.push(role), role) == roles,
{
    crate::member::lemma_remove_first_at(roles.push(role), role, roles.len() as int);
    assert(roles.push(role).remove(roles.len() as int) =~= roles);
}

} // verus!
