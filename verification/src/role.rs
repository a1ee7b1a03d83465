//! Permissions: which roles a role may hand out, and which roles give
//! access to which save database.
use vstd::prelude::*;
use crate::maps::{IdMap, NameMap};
use crate::project::{shares_role, shares_role_exec};
use crate::shop::vec_contains_u64;

verus! {

/// The roles each role may hand out, and the roles that open each save
/// database.
pub struct RoleManager {
    pub change_role_permissions: IdMap<Vec<u64>>,
    pub save_db_permissions: NameMap<Vec<u64>>,
}

/// Some role of `member_roles` may hand out `permission`.
pub open spec fn may_give_role(
    perms: Map<u64, Vec<u64>>,
    member_roles: Seq<u64>,
    permission: u64,
) -> bool {
    exists|i: int|
        0 <= i < member_roles.len() && perms.dom().contains(#[trigger] member_roles[i])
            && perms[member_roles[i]]@.contains(permission)
}

/// The roles that open database `db`.
pub open spec fn db_roles(perms: Map<Seq<char>, Vec<u64>>, db: Seq<char>) -> Seq<u64> {
    if perms.dom().contains(db) {
        perms[db]@
    } else {
        Seq::empty()
    }
}

impl RoleManager {
    /// No permissions at all.
    pub fn default() -> (m: Self)
        ensures
            m.change_role_permissions@ == Map::<u64, Vec<u64>>::empty(),
            m.save_db_permissions@ == Map::<Seq<char>, Vec<u64>>::empty(),
    {
        RoleManager { change_role_permissions: IdMap::new(), save_db_permissions: NameMap::new() }
    }

    /// Lets holders of `role` hand out the roles `permissions`.
    pub fn set_role_permissions(&mut self, role: u64, permissions: Vec<u64>)
        ensures
            final(self).change_role_permissions@ == old(self).change_role_permissions@.insert(
                role,
                permissions,
            ),
            final(self).save_db_permissions@ == old(self).save_db_permissions@,
    {
        self.change_role_permissions.insert(role, permissions);
    }

    /// Whether a member with `member_roles` may hand out `permission`.
    pub fn have_role_permission(&self, member_roles: &Vec<u64>, permission: u64) -> (r: bool)
        ensures
            r == may_give_role(self.change_role_permissions@, member_roles@, permission),
    {
        let mut i: usize = 0;
        while i < member_roles.len()
            invariant
                i <= member_roles@.len(),
                forall|j: int|
                    0 <= j < i ==> !(self.change_role_permissions@.dom().contains(
                        #[trigger] member_roles@[j],
                    ) && self.change_role_permissions@[member_roles@[j]]@.contains(permission)),
            decreases member_roles@.len() - i,
        {
            match self.change_role_permissions.get(&member_roles[i]) {
                Some(perms) => {
                    if vec_contains_u64(perms, permission) {
                        return true;
                    }
                },
                None => {},
            }
            i = i + 1;
        }
        false
    }

    /// The roles that a member with `changer_roles` may hand out among
    /// `roles`, in order.
    pub fn permitted(&self, changer_roles: &Vec<u64>, roles: &Vec<u64>) -> (r: Vec<u64>)
        ensures
            r@ == roles@.filter(|x: u64| may_give_role(self.change_role_permissions@, changer_roles@, x)),
    {
        let ghost keep = |x: u64| may_give_role(self.change_role_permissions@, changer_roles@, x);
        let mut out: Vec<u64> = Vec::new();
        let mut i: usize = 0;
        assert(roles@.take(0).filter(keep) =~= Seq::<u64>::empty());
        while i < roles.len()
            invariant
                i <= roles@.len(),
                keep == (|x: u64| may_give_role(self.change_role_permissions@, changer_roles@, x)),
                out@ == roles@.take(i as int).filter(keep),
            decreases roles@.len() - i,
        {
            assert(roles@.take(i + 1) =~= roles@.take(i as int).push(roles@[i as int]));
            proof {
                roles@.take(i as int).lemma_filter_push(roles@[i as int], keep);
            }
            if self.have_role_permission(changer_roles, roles[i]) {
                out.push(roles[i]);
            }
            i = i + 1;
        }
        assert(roles@.take(roles@.len() as int) =~= roles@);
        out
    }

    /// The changes a member with `changer_roles` makes by picking the roles
    /// `picked` for someone who holds `current`: the picked roles not held
    /// yet, to give, and the held roles not picked, to take away; each
    /// list keeps only the roles the member may hand out, in order.
    pub fn role_changes(&self, changer_roles: &Vec<u64>, current: &Vec<u64>, picked: &Vec<u64>) -> (r: (
        Vec<u64>,
        Vec<u64>,
    ))
        ensures
            r.0@ == picked@.filter(|x: u64| !current@.contains(x)).filter(
                |x: u64| may_give_role(self.change_role_permissions@, changer_roles@, x),
            ),
            r.1@ == current@.filter(|x: u64| !picked@.contains(x)).filter(
                |x: u64| may_give_role(self.change_role_permissions@, changer_roles@, x),
            ),
    {
        let added = missing_from(picked, current);
        let removed = missing_from(current, picked);
        (self.permitted(changer_roles, &added), self.permitted(changer_roles, &removed))
    }

    /// The roles that holders of `role` may hand out.
    pub fn get_role_permissons(&self, role: u64) -> (r: Option<&Vec<u64>>)
        ensures
            match r {
                Some(v) => self.change_role_permissions@.dom().contains(role)
                    && self.change_role_permissions@[role] == *v,
                None => !self.change_role_permissions@.dom().contains(role),
            },
    {
        self.change_role_permissions.get(&role)
    }

    /// Lets holders of the roles `permissions` use database `db`.
    pub fn set_db_permissions(&mut self, db: String, permissions: Vec<u64>)
        ensures
            final(self).save_db_permissions@ == old(self).save_db_permissions@.insert(
                db@,
                permissions,
            ),
            final(self).change_role_permissions@ == old(self).change_role_permissions@,
    {
        self.save_db_permissions.insert(db, permissions);
    }

    /// Whether a member with `member_roles` may use database `db`.
    pub fn have_db_permission(&self, member_roles: &Vec<u64>, db: &String) -> (r: bool)
        ensures
            r == shares_role(member_roles@, db_roles(self.save_db_permissions@, db@)),
    {
        match self.save_db_permissions.get(db) {
            Some(roles) => shares_role_exec(member_roles, roles),
            None => {
                let empty: Vec<u64> = Vec::new();
                shares_role_exec(member_roles, &empty)
            },
        }
    }

    /// The databases that a member with `member_roles` may use, in the
    /// order they were configured.
    pub fn member_db_permissons(&self, member_roles: &Vec<u64>) -> (r: Vec<String>)
        ensures
            forall|i: int|
                0 <= i < r@.len() ==> self.save_db_permissions@.dom().contains(#[trigger] r@[i]@)
                    && shares_role(member_roles@, self.save_db_permissions@[r@[i]@]@),
            forall|k: Seq<char>|
                #[trigger] self.save_db_permissions@.dom().contains(k) && shares_role(
                    member_roles@,
                    self.save_db_permissions@[k]@,
                ) ==> exists|i: int| 0 <= i < r@.len() && r@[i]@ == k,
            r@.map_values(|x: String| x@).no_duplicates(),
    {
        let n = self.save_db_permissions.len();
        let mut r: Vec<String> = Vec::new();
        let mut i: usize = 0;
        while i < n
            invariant
                n == self.save_db_permissions.key_seq().len(),
                i <= n,
                forall|j: int|
                    0 <= j < r@.len() ==> self.save_db_permissions@.dom().contains(#[trigger] r@[j]@)
                        && shares_role(member_roles@, self.save_db_permissions@[r@[j]@]@),
                forall|j: int|
                    0 <= j < i && shares_role(
                        member_roles@,
                        self.save_db_permissions@[self.save_db_permissions.key_seq()[j]]@,
                    ) ==> exists|l: int|
                        0 <= l < r@.len() && r@[l]@ == #[trigger] self.save_db_permissions.key_seq()[j],
                forall|l: int| 0 <= l < r@.len() ==> exists|j: int| 0 <= j < i && (#[trigger] r@[l])@ == self.save_db_permissions.key_seq()[j],
                forall|a: int, b: int| 0 <= a < b < r@.len() ==> (#[trigger] r@[a])@ != (#[trigger] r@[b])@,
            decreases n - i,
        {
            self.save_db_permissions.lemma_seqs();
            let (k, roles) = self.save_db_permissions.entry_at(i);
            let ghost before = r@;
            if shares_role_exec(member_roles, roles) {
                r.push(k.clone());
                proof {
                    let ks = self.save_db_permissions.key_seq();
                    assert(r@[r@.len() - 1]@ == ks[i as int]);
                    assert forall|a: int, b: int| 0 <= a < b < r@.len() implies (#[trigger] r@[a])@ != (#[trigger] r@[b])@ by {
                        if b == r@.len() - 1 {
                            assert(r@[a] == before[a]);
                            let j = choose|j: int| 0 <= j < i && before[a]@ == ks[j];
                            assert(ks[j] != ks[i as int]);
                        } else {
                            assert(r@[a] == before[a] && r@[b] == before[b]);
                        }
                    }
                    assert forall|l: int| 0 <= l < r@.len() implies exists|j: int| 0 <= j < i + 1 && (#[trigger] r@[l])@ == ks[j] by {
                        if l < before.len() {
                            assert(r@[l] == before[l]);
                            let j = choose|j: int| 0 <= j < i && before[l]@ == ks[j];
                            assert(0 <= j < i + 1 && r@[l]@ == ks[j]);
                        } else {
                            assert(r@[l]@ == ks[i as int]);
                        }
                    }
                }
            }
            proof {
                let ks = self.save_db_permissions.key_seq();
                assert forall|l: int| 0 <= l < r@.len() implies exists|j: int| 0 <= j < i + 1 && (#[trigger] r@[l])@ == ks[j] by {
                    if l < before.len() {
                        assert(r@[l] == before[l]);
                        let j = choose|j: int| 0 <= j < i && before[l]@ == ks[j];
                        assert(0 <= j < i + 1 && r@[l]@ == ks[j]);
                    } else {
                        assert(r@[l]@ == ks[i as int]);
                    }
                }
                assert forall|j: int|
                    0 <= j < i + 1 && shares_role(
                        member_roles@,
                        self.save_db_permissions@[self.save_db_permissions.key_seq()[j]]@,
                    ) implies exists|l: int|
                        0 <= l < r@.len() && r@[l]@ == #[trigger] self.save_db_permissions.key_seq()[j] by {
                    if j < i {
                        let l = choose|l: int| 0 <= l < before.len() && before[l]@ == self.save_db_permissions.key_seq()[j];
                        assert(r@[l] == before[l]);
                    } else {
                        assert(r@[r@.len() - 1]@ == self.save_db_permissions.key_seq()[j]);
                    }
                }
            }
            i = i + 1;
        }
        self.save_db_permissions.lemma_seqs();
        proof {
            assert forall|k: Seq<char>| #[trigger] self.save_db_permissions@.dom().contains(k) && shares_role(
                member_roles@,
                self.save_db_permissions@[k]@,
            ) implies exists|l: int| 0 <= l < r@.len() && r@[l]@ == k by {
                let j = choose|j: int| 0 <= j < self.save_db_permissions.key_seq().len() && self.save_db_permissions.key_seq()[j] == k;
                assert(self.save_db_permissions.key_seq()[j] == k);
            }
        }
        let ghost rv = r@.map_values(|x: String| x@);
        assert forall|a: int, b: int| 0 <= a < rv.len() && 0 <= b < rv.len() && a != b implies #[trigger] rv[a]
            != #[trigger] rv[b] by {
            if a < b {
                assert(r@[a]@ != r@[b]@);
            } else {
                assert(r@[b]@ != r@[a]@);
            }
        }
        r
    }

    /// The roles that open database `db`.
    pub fn get_db_permissions(&self, db: &String) -> (r: Option<&Vec<u64>>)
        ensures
            match r {
                Some(v) => self.save_db_permissions@.dom().contains(db@)
                    && self.save_db_permissions@[db@] == *v,
                None => !self.save_db_permissions@.dom().contains(db@),
            },
    {
        self.save_db_permissions.get(db)
    }

    /// The configured databases, in the order they were configured.
    pub fn get_dbs(&self) -> (r: Vec<String>)
        ensures
            r@.len() == self.save_db_permissions.key_seq().len(),
            forall|i: int| 0 <= i < r@.len() ==> #[trigger] r@[i]@ == self.save_db_permissions.key_seq()[i],
    {
        self.save_db_permissions.keys()
    }
}

/// The items of `v` that `other` does not hold, in order.
pub fn missing_from(v: &Vec<u64>, other: &Vec<u64>) -> (r: Vec<u64>)
    ensures
        r@ == v@.filter(|x: u64| !other@.contains(x)),
{
    let ghost keep = |x: u64| !other@.contains(x);
    let mut out: Vec<u64> = Vec::new();
    let mut i: usize = 0;
    assert(v@.take(0).filter(keep) =~= Seq::<u64>::empty());
    while i < v.len()
        invariant
            i <= v@.len(),
            keep == (|x: u64| !other@.contains(x)),
            out@ == v@.take(i as int).filter(keep),
        decreases v@.len() - i,
    {
        assert(v@.take(i + 1) =~= v@.take(i as int).push(v@[i as int]));
        proof {
            v@.take(i as int).lemma_filter_push(v@[i as int], keep);
        }
        if !vec_contains_u64(other, v[i]) {
            out.push(v[i]);
        }
        i = i + 1;
    }
    assert(v@.take(v@.len() as int) =~= v@);
    out
}

proof fn lemma_filter_has(s: Seq<u64>, p: spec_fn(u64) -> bool, x: u64)
    ensures
        s.filter(p).contains(x) <==> s.contains(x) && p(x),
{
    if s.filter(p).contains(x) {
        s.lemma_filter_contains_rev(p, x);
        let i = choose|i: int| 0 <= i < s.filter(p).len() && s.filter(p)[i] == x;
        s.lemma_filter_pred(p, i);
    }
    if s.contains(x) && p(x) {
        let i = choose|i: int| 0 <= i < s.len() && s[i] == x;
        s.lemma_filter_contains(p, i);
    }
}

/// When the member may hand out every role involved, making the changes
/// of `RoleManager::role_changes` (keeping the held roles not taken away,
/// and giving the new ones) leaves exactly the picked roles held.
pub proof fn law_role_changes_reach_the_pick(
    perms: Map<u64, Vec<u64>>,
    changer_roles: Seq<u64>,
    current: Seq<u64>,
    picked: Seq<u64>,
    role: u64,
)
    requires
        current.contains(role) || picked.contains(role) ==> may_give_role(perms, changer_roles, role),
    ensures
        ({
            let added = picked.filter(|x: u64| !current.contains(x)).filter(
                |x: u64| may_give_role(perms, changer_roles, x),
            );
            let removed = current.filter(|x: u64| !picked.contains(x)).filter(
                |x: u64| may_give_role(perms, changer_roles, x),
            );
            (current.contains(role) && !removed.contains(role)) || added.contains(role) <==> picked.contains(role)
        }),
{
    let may = |x: u64| may_give_role(perms, changer_roles, x);
    let not_held = |x: u64| !current.contains(x);
    let not_picked = |x: u64| !picked.contains(x);
    lemma_filter_has(picked, not_held, role);
    lemma_filter_has(picked.filter(not_held), may, role);
    lemma_filter_has(current, not_picked, role);
    lemma_filter_has(current.filter(not_picked), may, role);
}

} // verus!
