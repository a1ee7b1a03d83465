//! The bot's records taken together: tasks, members, projects and tags,
//! and the operations that change a task and its members' records at once.
use vstd::prelude::*;
use crate::member::{
    is_new_record, is_stamp, lemma_remove_first_absent, lemma_remove_first_at, lemma_remove_first_keeps, lemma_remove_first_unique, list_of, remove_first,
    same_but_tasks, MembersManager, ProjectMember,
};
use crate::project::{shares_role, Project, ProjectManager};
use crate::tag::{TagsManager, TaskTag};
use crate::task::{
    add_outcome, reaches_limit_check, tags_max_members, tags_project, tags_score_modifier, AddMemberOutcome, Dup, Task, TaskManager,
};
use crate::shop::vec_contains_u64;

verus! {

/// Tasks and members agree: no list holds an entry twice, every member
/// of a task who has a record lists the task among its running tasks of the
/// task's project, and every running task in a record is a task of that
/// project that lists the member.
pub open spec fn consistent(tasks: Map<u32, Task>, members: Map<u64, ProjectMember>) -> bool {
    &&& forall|id: u32| #[trigger] tasks.dom().contains(id) ==> tasks[id].member_seq().no_duplicates()
    &&& forall|m: u64, p: Seq<char>|
        members.dom().contains(m) ==> (#[trigger] members[m].tasks_in(p)).no_duplicates()
    &&& forall|id: u32, m: u64|
        tasks.dom().contains(id) && members.dom().contains(m) && #[trigger] tasks[id].member_seq().contains(m)
            ==> members[m].tasks_in(tasks[id].project@).contains(id)
    &&& forall|m: u64, p: Seq<char>, id: u32|
        members.dom().contains(m) && #[trigger] members[m].tasks_in(p).contains(id)
            ==> tasks.dom().contains(id) && tasks[id].project@ == p && tasks[id].member_seq().contains(m)
    &&& forall|id: u32, m: u64| tasks.dom().contains(id) && #[trigger] tasks[id].member_seq().contains(m)
        ==> members.dom().contains(m)
}

/// Whether `rec` lists task `id` as running, under any project.
pub open spec fn lists_task(rec: ProjectMember, id: u32) -> bool {
    exists|p: Seq<char>| #[trigger] rec.tasks_in(p).contains(id)
}

/// An emoji: a custom one by id, or a Unicode one by its text.
#[derive(Debug, Clone)]
pub enum Emoji {
    Custom(u64),
    Unicode(String),
}

/// `a` and `b` are the same emoji.
pub open spec fn same_emoji(a: Emoji, b: Emoji) -> bool {
    match (a, b) {
        (Emoji::Custom(x), Emoji::Custom(y)) => x == y,
        (Emoji::Unicode(x), Emoji::Unicode(y)) => x@ == y@,
        _ => false,
    }
}

/// Whether `a` and `b` are the same emoji.
pub fn emoji_matches(a: &Emoji, b: &Emoji) -> (r: bool)
    ensures
        r == same_emoji(*a, *b),
{
    match (a, b) {
        (Emoji::Custom(x), Emoji::Custom(y)) => *x == *y,
        (Emoji::Unicode(x), Emoji::Unicode(y)) => *x == *y,
        _ => false,
    }
}

/// Whether `a` and `b` hold the same ids in the same order.
pub fn vec_eq_u64(a: &Vec<u64>, b: &Vec<u64>) -> (r: bool)
    ensures
        r == (a@ == b@),
{
    if a.len() != b.len() {
        return false;
    }
    let mut i: usize = 0;
    while i < a.len()
        invariant
            i <= a@.len(),
            a@.len() == b@.len(),
            forall|j: int| 0 <= j < i ==> a@[j] == b@[j],
        decreases a@.len() - i,
    {
        if a[i] != b[i] {
            return false;
        }
        i = i + 1;
    }
    assert(a@ =~= b@);
    true
}

/// Whether a member with `roles` (`None`: they could not be fetched) may
/// join a task of `project`: yes when the project is unknown, otherwise
/// when the member takes part in it.
pub open spec fn project_allows(
    projects: Map<Seq<char>, Project>,
    project: Seq<char>,
    roles: Option<Seq<u64>>,
) -> bool {
    if projects.dom().contains(project) {
        match roles {
            Some(r) => shares_role(projects[project].associated_roles@, r),
            None => false,
        }
    } else {
        true
    }
}

/// The running tasks of project `project` that the record of `member`
/// lists; none without a record.
pub open spec fn record_tasks(members: Map<u64, ProjectMember>, member: u64, project: Seq<char>) -> Seq<u32> {
    if members.dom().contains(member) {
        members[member].tasks_in(project)
    } else {
        Seq::empty()
    }
}

/// `l` with task `id` added at the end, unless it lists it already.
pub open spec fn with_task(l: Seq<u32>, id: u32) -> Seq<u32> {
    if l.contains(id) {
        l
    } else {
        l.push(id)
    }
}

/// Whether the records `after` are the records `before` once `member` went
/// for task `task_id` of `project`: a member who `reaches` the limit check
/// (see `reaches_limit_check`) without a record gets a new one, and one who
/// `joined` has the task added to its running tasks of the project.
/// Nothing else changes: every other record, and all of the member's
/// record but its running tasks, stay as they were.
pub open spec fn joins_records(
    before: Map<u64, ProjectMember>,
    after: Map<u64, ProjectMember>,
    member: u64,
    project: Seq<char>,
    task_id: u32,
    reaches: bool,
    joined: bool,
) -> bool {
    let created = reaches && !before.dom().contains(member);
    &&& after.dom() == if created {
        before.dom().insert(member)
    } else {
        before.dom()
    }
    &&& after.remove(member) == before.remove(member)
    &&& !created && !joined ==> after == before
    &&& joined ==> after.dom().contains(member)
    &&& after.dom().contains(member) ==> {
        let now = after[member];
        &&& forall|p: Seq<char>| #[trigger]
            now.tasks_in(p) == if joined && p == project {
                with_task(record_tasks(before, member, p), task_id)
            } else {
                record_tasks(before, member, p)
            }
        &&& before.dom().contains(member) ==> same_but_tasks(now, before[member])
        &&& created ==> is_new_record(now, member)
    }
}

/// Whether `member` may take one more task of `project`: limits ignored,
/// an unknown project, or fewer running tasks of it than its limit.  A
/// member without a record has no running task (a record is made for them
/// when they get that far; see `Board::add_member`).
pub open spec fn limit_allows(
    members: Map<u64, ProjectMember>,
    projects: Map<Seq<char>, Project>,
    member: u64,
    project: Seq<char>,
    ignore_limits: bool,
) -> Option<bool> {
    Some(
        ignore_limits || !projects.dom().contains(project) || record_tasks(members, member, project).len()
            < projects[project].max_tasks_per_user,
    )
}

/// The score that closing a task gives `member`: the first result given
/// for the member, or 1 when there is none.
pub open spec fn end_score(results: Seq<(u64, i64)>, member: u64) -> i64
    decreases results.len(),
{
    if results.len() == 0 {
        1
    } else if results[0].0 == member {
        results[0].1
    } else {
        end_score(results.drop_first(), member)
    }
}

/// What `member`'s score gains when every entry of `list` is credited
/// `credit`: `credit` for each time the member occurs in it.
pub open spec fn total_credit(list: Seq<u64>, member: u64, credit: int) -> int
    decreases list.len(),
{
    if list.len() == 0 {
        0
    } else {
        total_credit(list.drop_last(), member, credit) + if list.last() == member {
            credit
        } else {
            0
        }
    }
}

/// `after` is the record `before` once its member has been credited for
/// the closing of task `task` of `project` at `now` with score `s`: the
/// task leaves its running tasks, the score (and, for a gain, the all-time
/// score) grows by `s`, and a gain records the task among the finished or,
/// for the mentor, the mentored tasks of the project.
pub open spec fn credited(
    before: ProjectMember,
    after: ProjectMember,
    project: Seq<char>,
    task: u32,
    s: i64,
    as_mentor: bool,
    now: i64,
) -> bool {
    &&& after.id == before.id
    &&& after.tasks_in(project) == remove_first(before.tasks_in(project), task)
    &&& forall|p: Seq<char>| p != project ==> #[trigger] after.tasks_in(p) == before.tasks_in(p)
    &&& after.score == before.score + s
    &&& after.all_time_score == if s > 0 {
        before.all_time_score + s
    } else {
        before.all_time_score as int
    }
    &&& s > 0 && !as_mentor ==> {
        &&& list_of(after.done_tasks@, project).len() > 0
        &&& list_of(after.done_tasks@, project).drop_last() == list_of(before.done_tasks@, project)
        &&& is_stamp(list_of(after.done_tasks@, project).last(), now, task)
        &&& after.done_tasks@.remove(project) == before.done_tasks@.remove(project)
        &&& after.mentor_tasks@ == before.mentor_tasks@
    }
    &&& s > 0 && as_mentor ==> {
        &&& list_of(after.mentor_tasks@, project).len() > 0
        &&& list_of(after.mentor_tasks@, project).drop_last() == list_of(before.mentor_tasks@, project)
        &&& is_stamp(list_of(after.mentor_tasks@, project).last(), now, task)
        &&& after.mentor_tasks@.remove(project) == before.mentor_tasks@.remove(project)
        &&& after.done_tasks@ == before.done_tasks@
    }
    &&& s <= 0 ==> after.done_tasks@ == before.done_tasks@ && after.mentor_tasks@ == before.mentor_tasks@
}

/// The first result given for `member`, or 1.
pub fn end_score_of(results: &Vec<(u64, i64)>, member: u64) -> (s: i64)
    ensures
        s == end_score(results@, member),
{
    let mut i: usize = 0;
    assert(results@.subrange(0, results@.len() as int) =~= results@);
    while i < results.len()
        invariant
            i <= results@.len(),
            end_score(results@, member) == end_score(results@.subrange(i as int, results@.len() as int), member),
        decreases results@.len() - i,
    {
        let ghost rest = results@.subrange(i as int, results@.len() as int);
        assert(rest.drop_first() =~= results@.subrange(i + 1, results@.len() as int));
        if results[i].0 == member {
            return results[i].1;
        }
        i = i + 1;
    }
    1
}

/// Credits one member record for the closing of a task (see `credited`).
fn credit_member(rec: &mut ProjectMember, project: &String, task: u32, s: i64, as_mentor: bool, now: i64)
    requires
        i64::MIN <= old(rec).score + s <= i64::MAX,
        s > 0 ==> old(rec).all_time_score + s <= i64::MAX,
    ensures
        credited(*old(rec), *final(rec), project@, task, s, as_mentor, now),
{
    rec.leave_task(project, task);
    let ghost left = *rec;
    rec.change_score(s);
    if s > 0 {
        if as_mentor {
            rec.add_mentor_task(project, task, now);
        } else {
            rec.add_done_task(project, task, now);
        }
    }
    assert forall|p: Seq<char>| p != project@ implies #[trigger] rec.tasks_in(p) == old(rec).tasks_in(p) by {
        assert(rec.tasks_in(p) == left.tasks_in(p));
    }
}

/// The partial sums of `total_credit` lie between 0 and the whole.
proof fn lemma_credit_prefix(list: Seq<u64>, member: u64, credit: int, j: int)
    requires
        0 <= j <= list.len(),
    ensures
        credit >= 0 ==> 0 <= total_credit(list.take(j), member, credit) <= total_credit(list, member, credit),
        credit < 0 ==> total_credit(list, member, credit) <= total_credit(list.take(j), member, credit) <= 0,
    decreases list.len(),
{
    if list.len() == 0 {
        assert(list.take(j) =~= list);
    } else if j == list.len() {
        assert(list.take(j) =~= list);
        lemma_credit_prefix(list.drop_last(), member, credit, j - 1);
        assert(list.drop_last().take(j - 1) =~= list.drop_last());
    } else {
        lemma_credit_prefix(list.drop_last(), member, credit, j);
        assert(list.drop_last().take(j) =~= list.take(j));
        lemma_credit_prefix(list.drop_last(), member, credit, list.len() - 1);
        assert(list.drop_last().take(list.len() - 1) =~= list.drop_last());
    }
}

/// Whether member `m` is among the picks `selected`.
pub open spec fn picked(selected: Seq<(u64, Option<Vec<u64>>)>, m: u64) -> bool {
    exists|i: int| 0 <= i < selected.len() && #[trigger] selected[i].0 == m
}

/// Whether a pick `(member, roles)` joins a task `t` whose members are
/// `roster` when limits are ignored (see `add_outcome`): there is room, the
/// member is not in it yet, the task is open and the member takes part in
/// its project.
pub open spec fn admits(t: Task, roster: Seq<u64>, projects: Map<Seq<char>, Project>, pick: (u64, Option<Vec<u64>>)) -> bool {
    &&& roster.len() < t.max_members.value()
    &&& !roster.contains(pick.0)
    &&& !t.finished
    &&& project_allows(
        projects,
        t.project@,
        match pick.1 {
            Some(v) => Some(v@),
            None => None,
        },
    )
}

/// The members of task `t` after the picks `picks` were added in order,
/// each one that `admits` at its turn joining at the end.
pub open spec fn roster_after_picks(t: Task, picks: Seq<(u64, Option<Vec<u64>>)>, projects: Map<Seq<char>, Project>) -> Seq<u64>
    decreases picks.len(),
{
    if picks.len() == 0 {
        t.member_seq()
    } else {
        let prev = roster_after_picks(t, picks.drop_last(), projects);
        if admits(t, prev, projects, picks.last()) {
            prev.push(picks.last().0)
        } else {
            prev
        }
    }
}

/// The members and mentor of task `t` after one mentor pick (see
/// `Board::set_mentor`, limits ignored): on an open task a member becomes
/// the mentor, and so does a pick that `admits` to join, joining first;
/// otherwise nothing changes.
pub open spec fn mentor_step(
    t: Task,
    state: (Seq<u64>, Option<u64>),
    projects: Map<Seq<char>, Project>,
    pick: (u64, Option<Vec<u64>>),
) -> (Seq<u64>, Option<u64>) {
    if t.finished {
        state
    } else if state.0.contains(pick.0) {
        (state.0, Some(pick.0))
    } else if admits(t, state.0, projects, pick) {
        (state.0.push(pick.0), Some(pick.0))
    } else {
        state
    }
}

/// The members and mentor of task `t` after the mentor picks `picks` were
/// applied in turn (see `mentor_step`).
pub open spec fn mentors_after_picks(t: Task, picks: Seq<(u64, Option<Vec<u64>>)>, projects: Map<Seq<char>, Project>) -> (
    Seq<u64>,
    Option<u64>,
)
    decreases picks.len(),
{
    if picks.len() == 0 {
        (t.member_seq(), t.mentor_id.value())
    } else {
        mentor_step(t, mentors_after_picks(t, picks.drop_last(), projects), projects, picks.last())
    }
}

/// Whether member `m` is among the picks `selected` (see `picked`).
pub fn is_picked(selected: &Vec<(u64, Option<Vec<u64>>)>, m: u64) -> (r: bool)
    ensures
        r == picked(selected@, m),
{
    let mut i: usize = 0;
    while i < selected.len()
        invariant
            i <= selected@.len(),
            forall|k: int| 0 <= k < i ==> #[trigger] selected@[k].0 != m,
        decreases selected@.len() - i,
    {
        if selected[i].0 == m {
            assert(selected@[i as int].0 == m);
            return true;
        }
        i = i + 1;
    }
    false
}

/// What the `become_mentor` command came to.
pub enum BecomeMentor {
    /// The thread is not a task.
    NotInTask,
    /// The task has a mentor already.
    MentorExists,
    /// The member could not join the task (it is full, closed, or the
    /// member may not take it).
    Refused,
    /// The member is the task's mentor now.
    Done,
}

/// The bot's records taken together.
pub struct Board {
    pub tasks: TaskManager,
    pub members: MembersManager,
    pub projects: ProjectManager,
    pub tags: TagsManager,
}

impl Board {
    /// Nothing recorded yet.
    pub fn new() -> (b: Self)
        ensures
            b.tasks@ == Map::<u32, Task>::empty(),
            b.members.members@ == Map::<u64, ProjectMember>::empty(),
            b.projects@ == Map::<Seq<char>, Project>::empty(),
            b.tags.tags@ == Map::<u64, TaskTag>::empty(),
            b.tags.tags_by_channel@ == Map::<u64, Vec<u64>>::empty(),
            b.tasks.last_id() == 0,
            consistent(b.tasks@, b.members.members@),
    {
        Board {
            tasks: TaskManager::new(),
            members: MembersManager::new(),
            projects: ProjectManager::new(),
            tags: TagsManager::new(),
        }
    }

    /// Whether `member` (with `member_roles`) may join a task of `project`,
    /// and whether the member may take one more task of it (see
    /// `project_allows` and `limit_allows`).
    fn admission(
        &self,
        project: &String,
        member: u64,
        member_roles: Option<&Vec<u64>>,
        ignore_limits: bool,
    ) -> (r: (bool, Option<bool>))
        ensures
            r.0 == project_allows(
                self.projects@,
                project@,
                match member_roles {
                    Some(v) => Some(v@),
                    None => None,
                },
            ),
            r.1 == limit_allows(self.members.members@, self.projects@, member, project@, ignore_limits),
    {
        let allows = match self.projects.get(project) {
            None => true,
            Some(p) => match member_roles {
                Some(roles) => p.member_in_project(roles),
                None => false,
            },
        };
        let count = match self.members.get(member) {
            Some(rec) => rec.task_count(project),
            None => 0,
        };
        let limit = Some(
            ignore_limits || match self.projects.get(project) {
                Some(p) => count < p.max_tasks_per_user as usize,
                None => true,
            },
        );
        (allows, limit)
    }

    /// Updates the record of `member` for a join into task `task_id` of
    /// `project` (see `joins_records`): a member who `reaches` the limit
    /// check gets a new record when they have none, and one who `joined`
    /// has the task added to it.
    fn record_join(&mut self, member: u64, project: &String, task_id: u32, reaches: bool, joined: bool)
        requires
            joined ==> reaches,
        ensures
            joins_records(old(self).members.members@, final(self).members.members@, member, project@, task_id, reaches, joined),
            final(self).tasks == old(self).tasks,
            final(self).projects == old(self).projects,
            final(self).tags == old(self).tags,
    {
        let ghost before = self.members.members@;
        if reaches {
            self.members.ensure(member, ProjectMember::new(member));
        }
        let ghost mid = self.members.members@;
        if joined {
            match self.members.take(member) {
                Some(mut rec) => {
                    rec.join_task(project, task_id);
                    self.members.members.insert(member, rec);
                },
                None => {},
            }
        }
        proof {
            let after = self.members.members@;
            let created = reaches && !before.dom().contains(member);
            if joined {
                assert(after.dom() =~= mid.dom());
                assert(after.remove(member) =~= mid.remove(member));
            }
            assert(after.dom() =~= if created { before.dom().insert(member) } else { before.dom() });
            assert(after.remove(member) =~= before.remove(member));
            if after.dom().contains(member) {
                let now = after[member];
                assert forall|p: Seq<char>| #[trigger] now.tasks_in(p) == if joined && p == project@ {
                    with_task(record_tasks(before, member, p), task_id)
                } else {
                    record_tasks(before, member, p)
                } by {
                    if created {
                        assert(mid[member].in_tasks@ == Map::<Seq<char>, Vec<u32>>::empty());
                        assert(mid[member].tasks_in(p) =~= Seq::<u32>::empty());
                    }
                }
            }
        }
    }

    /// Adds `member` to task `task_id` (see `Task::add_member`), checking
    /// the project's roles and its limit of tasks per member, and records
    /// the task in the member's record.  A member without a record who gets
    /// as far as the limit (see `reaches_limit_check`) is given a new one
    /// first, which stays even when the limit refuses them.  `member_roles`
    /// is `None` when the member's roles could not be fetched.  Returns
    /// whether the member is in the task afterwards; every other record, and
    /// all of the member's record but its running tasks, stay as they were.
    /// Tasks and members that agreed still agree.
    pub fn add_member(
        &mut self,
        task_id: u32,
        member: u64,
        member_roles: Option<&Vec<u64>>,
        ignore_limits: bool,
    ) -> (r: bool)
        ensures
            !old(self).tasks@.dom().contains(task_id) ==> !r && final(self).tasks@ == old(self).tasks@ && final(self).members.members@ == old(self).members.members@,
            old(self).tasks@.dom().contains(task_id) ==> ({
                let t = old(self).tasks@[task_id];
                let outcome = add_outcome(
                    t,
                    member,
                    project_allows(
                        old(self).projects@,
                        t.project@,
                        match member_roles {
                            Some(v) => Some(v@),
                            None => None,
                        },
                    ),
                    limit_allows(
                        old(self).members.members@,
                        old(self).projects@,
                        member,
                        t.project@,
                        ignore_limits,
                    ),
                );
                &&& r == outcome.succeeded()
                &&& final(self).tasks@.dom() == old(self).tasks@.dom()
                &&& final(self).tasks@.remove(task_id) == old(self).tasks@.remove(task_id)
                &&& outcome is Joined ==> final(self).tasks@[task_id].member_seq() == t.member_seq().push(member)
                &&& !(outcome is Joined) ==> final(self).tasks@ == old(self).tasks@
                &&& final(self).tasks@[task_id].project == t.project
                &&& final(self).tasks@[task_id].finished == t.finished
                &&& final(self).tasks@[task_id].max_members == t.max_members
                &&& joins_records(
                    old(self).members.members@,
                    final(self).members.members@,
                    member,
                    t.project@,
                    task_id,
                    reaches_limit_check(
                        t,
                        member,
                        project_allows(
                            old(self).projects@,
                            t.project@,
                            match member_roles {
                                Some(v) => Some(v@),
                                None => None,
                            },
                        ),
                    ),
                    outcome is Joined,
                )
            }),
            final(self).projects@ == old(self).projects@,
            consistent(old(self).tasks@, old(self).members.members@) ==> consistent(
                final(self).tasks@,
                final(self).members.members@,
            ),
    {
        self.tasks.ids_are_keys();
        let mut task = match self.tasks.take(task_id) {
            Some(t) => t,
            None => {
                return false;
            },
        };
        let (allows, limit) = self.admission(&task.project, member, member_roles, ignore_limits);
        let ghost t0 = task;
        let ghost rest = self.tasks@;
        let reaches = task.reaches_limit_check(member, allows);
        let outcome = task.add_member(member, allows, limit);
        let joined = match outcome {
            AddMemberOutcome::Joined { .. } => true,
            _ => false,
        };
        self.record_join(member, &task.project, task_id, reaches, joined);
        let r = outcome.is_success();
        self.tasks.put(task);
        proof {
            assert(self.tasks@.dom() =~= old(self).tasks@.dom());
            assert(self.tasks@.remove(task_id) =~= old(self).tasks@.remove(task_id));
            if !(outcome is Joined) {
                assert(self.tasks@ =~= old(self).tasks@);
            }
            if consistent(old(self).tasks@, old(self).members.members@) {
                lemma_join_keeps_consistent(
                    old(self).tasks@,
                    old(self).members.members@,
                    self.tasks@,
                    self.members.members@,
                    task_id,
                    member,
                    reaches,
                    outcome is Joined,
                );
            }
        }
        r
    }

    /// Removes `member` from task `task_id` (see `Task::remove_member`) and
    /// the task from the member's record, when it has one.  `None` when
    /// there is no such task or the member is not in it; otherwise whether
    /// the mentor was cleared and whether the task has room again.  Tasks
    /// and members that agreed still agree.
    pub fn remove_member(&mut self, task_id: u32, member: u64, now: i64) -> (r: Option<(bool, bool)>)
        ensures
            !old(self).tasks@.dom().contains(task_id) ==> r is None && final(self).tasks@ == old(self).tasks@
                && final(self).members.members@ == old(self).members.members@,
            old(self).tasks@.dom().contains(task_id) ==> ({
                let t = old(self).tasks@[task_id];
                let t2 = final(self).tasks@[task_id];
                &&& final(self).tasks@.dom() == old(self).tasks@.dom()
                &&& final(self).tasks@.remove(task_id) == old(self).tasks@.remove(task_id)
                &&& (r is None <==> !t.member_seq().contains(member))
                &&& r is None ==> final(self).tasks@ == old(self).tasks@ && final(self).members.members@
                    == old(self).members.members@
                &&& r is Some ==> {
                    &&& t2.member_seq() == remove_first(t.member_seq(), member)
                    &&& (r->0).0 == (t.mentor_id.value() == Some(member) && !t.finished)
                    &&& (r->0).1 == (t2.member_seq().len() + 1 == t.max_members.value())
                    &&& (r->0).0 ==> t2.mentor_id.value() == None::<u64>
                    &&& !(r->0).0 ==> t2.mentor_id == t.mentor_id
                    &&& t2.project == t.project
                    &&& t2.finished == t.finished
                    &&& final(self).members.members@.dom() == old(self).members.members@.dom()
                    &&& final(self).members.members@.remove(member) == old(self).members.members@.remove(member)
                    &&& old(self).members.members@.dom().contains(member) ==> {
                        let rec = old(self).members.members@[member];
                        let now_rec = final(self).members.members@[member];
                        &&& now_rec.tasks_in(t.project@) == remove_first(rec.tasks_in(t.project@), task_id)
                        &&& forall|p: Seq<char>| p != t.project@ ==> #[trigger] now_rec.tasks_in(p) == rec.tasks_in(p)
                        &&& now_rec.score == rec.score
                        &&& same_but_tasks(now_rec, rec)
                    }
                }
            }),
            final(self).projects@ == old(self).projects@,
            consistent(old(self).tasks@, old(self).members.members@) ==> consistent(
                final(self).tasks@,
                final(self).members.members@,
            ),
    {
        self.tasks.ids_are_keys();
        let mut task = match self.tasks.take(task_id) {
            Some(t) => t,
            None => {
                return None;
            },
        };
        let r = task.remove_member(member, now);
        if r.is_some() {
            match self.members.take(member) {
                Some(mut rec) => {
                    rec.leave_task(&task.project, task_id);
                    self.members.members.insert(member, rec);
                },
                None => {},
            }
        }
        self.tasks.put(task);
        proof {
            assert(self.tasks@.dom() =~= old(self).tasks@.dom());
            assert(self.tasks@.remove(task_id) =~= old(self).tasks@.remove(task_id));
            if r is None {
                assert(self.tasks@ =~= old(self).tasks@);
            } else {
                assert(self.members.members@.dom() =~= old(self).members.members@.dom());
                assert(self.members.members@.remove(member) =~= old(self).members.members@.remove(member));
                if consistent(old(self).tasks@, old(self).members.members@) {
                    lemma_remove_keeps_consistent(
                        old(self).tasks@,
                        old(self).members.members@,
                        self.tasks@,
                        self.members.members@,
                        task_id,
                        member,
                    );
                }
            }
        }
        r
    }

    /// Closes task `task_id` at time `now` (see `Task::close`) and credits
    /// each of its members that has a record: the task leaves the member's
    /// running tasks, and the member gets its end score from `results` (1
    /// when none is given), which when positive also records the task among
    /// its finished tasks (its mentored tasks, for the mentor).  Returns
    /// whether the task was closed: false when there is no such task or it
    /// was closed already.  Tasks and members that agreed still agree.
    pub fn close_task(&mut self, task_id: u32, results: &Vec<(u64, i64)>, now: i64) -> (r: bool)
        requires
            old(self).tasks@.dom().contains(task_id) && !old(self).tasks@[task_id].finished ==> forall|m: u64|
                #[trigger] old(self).members.members@.dom().contains(m) && old(self).tasks@[task_id].member_seq().contains(m)
                    ==> {
                    let c = total_credit(old(self).tasks@[task_id].member_seq(), m, end_score(results@, m) as int);
                    &&& i64::MIN <= old(self).members.members@[m].score + c <= i64::MAX
                    &&& end_score(results@, m) > 0 ==> old(self).members.members@[m].all_time_score + c <= i64::MAX
                },
        ensures
            r == (old(self).tasks@.dom().contains(task_id) && !old(self).tasks@[task_id].finished),
            !r ==> final(self).tasks@ == old(self).tasks@ && final(self).members.members@ == old(self).members.members@,
            r ==> ({
                let t = old(self).tasks@[task_id];
                let t2 = final(self).tasks@[task_id];
                let before = old(self).members.members@;
                let after = final(self).members.members@;
                &&& final(self).tasks@.dom() == old(self).tasks@.dom()
                &&& final(self).tasks@.remove(task_id) == old(self).tasks@.remove(task_id)
                &&& t2.finished
                &&& t2.member_seq() == Seq::<u64>::empty()
                &&& t2.mentor_id.value() == None::<u64>
                &&& t2.end_date.value() == Some(now)
                &&& t2.project == t.project
                &&& t2.score == t.score
                &&& after.dom() == before.dom()
                &&& forall|m: u64| #[trigger] before.dom().contains(m) && !t.member_seq().contains(m) ==> after[m] == before[m]
                &&& forall|m: u64| #[trigger] before.dom().contains(m) && t.member_seq().contains(m) ==> after[m].score
                    == before[m].score + total_credit(t.member_seq(), m, end_score(results@, m) as int)
                &&& t.member_seq().no_duplicates() ==> forall|m: u64| #[trigger] before.dom().contains(m) && t.member_seq().contains(m)
                    ==> credited(before[m], after[m], t.project@, task_id, end_score(results@, m), t.mentor_id.value() == Some(m), now)
            }),
            final(self).projects@ == old(self).projects@,
            consistent(old(self).tasks@, old(self).members.members@) ==> consistent(
                final(self).tasks@,
                final(self).members.members@,
            ),
    {
        self.tasks.ids_are_keys();
        let mut task = match self.tasks.take(task_id) {
            Some(t) => t,
            None => {
                return false;
            },
        };
        let ghost t0 = task;
        let (list, mentor) = match task.close(now) {
            Some(x) => x,
            None => {
                self.tasks.put(task);
                proof {
                    assert(self.tasks@ =~= old(self).tasks@);
                }
                return false;
            },
        };
        let ghost t1 = task;
        let ghost before = self.members.members@;
        let ghost tasks_rest = self.tasks@;
        let mut i: usize = 0;
        while i < list.len()
            invariant
                i <= list@.len(),
                list@ == t0.member_seq(),
                mentor == t0.mentor_id.value(),
                task == t1,
                t1.project == t0.project,
                t1.id == task_id,
                task_id <= self.tasks.last_id(),
                self.tasks@ == tasks_rest,
                self.projects@ == old(self).projects@,
                before == old(self).members.members@,
                self.members.members@.dom() == before.dom(),
                forall|m: u64| #[trigger] before.dom().contains(m) && list@.contains(m) ==> {
                    let c = total_credit(list@, m, end_score(results@, m) as int);
                    &&& i64::MIN <= before[m].score + c <= i64::MAX
                    &&& end_score(results@, m) > 0 ==> before[m].all_time_score + c <= i64::MAX
                },
                forall|m: u64| #[trigger] before.dom().contains(m) && !list@.take(i as int).contains(m)
                    ==> self.members.members@[m] == before[m],
                forall|m: u64| #[trigger] before.dom().contains(m) ==> {
                    let c = total_credit(list@.take(i as int), m, end_score(results@, m) as int);
                    &&& self.members.members@[m].score == before[m].score + c
                    &&& self.members.members@[m].all_time_score == before[m].all_time_score + if end_score(results@, m) > 0 {
                        c
                    } else {
                        0
                    }
                },
                list@.no_duplicates() ==> forall|m: u64| #[trigger] before.dom().contains(m) && list@.take(i as int).contains(m)
                    ==> credited(before[m], self.members.members@[m], t0.project@, task_id, end_score(results@, m), mentor == Some(m), now),
            decreases list@.len() - i,
        {
            let m = list[i];
            let s = end_score_of(results, m);
            let ghost pre = self.members.members@;
            let ghost l = list@;
            proof {
                assert(l.take(i + 1).drop_last() =~= l.take(i as int));
                assert(l.take(i + 1).last() == m);
                let a = l.take(i + 1);
                let b = l.take(i as int);
                assert forall|x: u64| a.contains(x) <==> (b.contains(x) || x == m) by {
                    if a.contains(x) && x != m {
                        let k = choose|k: int| 0 <= k < a.len() && a[k] == x;
                        assert(b[k] == x);
                    }
                    if b.contains(x) {
                        let k = choose|k: int| 0 <= k < b.len() && b[k] == x;
                        assert(a[k] == x);
                    }
                    if x == m {
                        assert(a[i as int] == x);
                    }
                }
                assert forall|x: u64| x != m implies total_credit(l.take(i + 1), x, end_score(results@, x) as int)
                    == total_credit(l.take(i as int), x, end_score(results@, x) as int) by {}
            }
            match self.members.take(m) {
                Some(mut rec) => {
                    proof {
                        assert(l.contains(m)) by {
                            assert(l[i as int] == m);
                        }
                        lemma_credit_prefix(l, m, s as int, i + 1);
                        assert(before.dom().contains(m));
                    }
                    credit_member(&mut rec, &task.project, task_id, s, mentor == Some(m), now);
                    self.members.members.insert(m, rec);
                    proof {
                        if l.no_duplicates() {
                            assert(!l.take(i as int).contains(m)) by {
                                if l.take(i as int).contains(m) {
                                    let k = choose|k: int| 0 <= k < i && l.take(i as int)[k] == m;
                                    assert(l[k] == l[i as int]);
                                }
                            }
                        }
                    }
                },
                None => {},
            }
            proof {
                assert(self.members.members@.dom() =~= before.dom());
            }
            i = i + 1;
        }
        proof {
            assert(list@.take(list@.len() as int) =~= list@);
        }
        self.tasks.put(task);
        proof {
            assert(self.tasks@.dom() =~= old(self).tasks@.dom());
            assert(self.tasks@.remove(task_id) =~= old(self).tasks@.remove(task_id));
            if consistent(old(self).tasks@, old(self).members.members@) {
                lemma_close_keeps_consistent(
                    old(self).tasks@,
                    old(self).members.members@,
                    self.tasks@,
                    self.members.members@,
                    task_id,
                );
            }
        }
        true
    }

    /// Reopens task `task_id` at time `now` (see `Task::open`).  Returns
    /// whether it was closed; members are untouched.
    pub fn open_task(&mut self, task_id: u32, now: i64) -> (r: bool)
        ensures
            r == (old(self).tasks@.dom().contains(task_id) && old(self).tasks@[task_id].finished),
            !r ==> final(self).tasks@ == old(self).tasks@,
            r ==> ({
                let t = old(self).tasks@[task_id];
                let t2 = final(self).tasks@[task_id];
                &&& final(self).tasks@.dom() == old(self).tasks@.dom()
                &&& final(self).tasks@.remove(task_id) == old(self).tasks@.remove(task_id)
                &&& !t2.finished
                &&& t2.end_date.value() == None::<i64>
                &&& t2.member_seq() == t.member_seq()
                &&& t2.mentor_id == t.mentor_id
                &&& t2.project == t.project
            }),
            final(self).members.members@ == old(self).members.members@,
            final(self).projects@ == old(self).projects@,
            consistent(old(self).tasks@, old(self).members.members@) ==> consistent(
                final(self).tasks@,
                final(self).members.members@,
            ),
    {
        self.tasks.ids_are_keys();
        let mut task = match self.tasks.take(task_id) {
            Some(t) => t,
            None => {
                return false;
            },
        };
        let r = task.open(now);
        self.tasks.put(task);
        proof {
            assert(self.tasks@.dom() =~= old(self).tasks@.dom());
            assert(self.tasks@.remove(task_id) =~= old(self).tasks@.remove(task_id));
            if !r {
                assert(self.tasks@ =~= old(self).tasks@);
            }
            if consistent(old(self).tasks@, old(self).members.members@) {
                assert forall|i: u32| #[trigger] old(self).tasks@.dom().contains(i) implies self.tasks@[i].member_seq()
                    == old(self).tasks@[i].member_seq() && self.tasks@[i].project == old(self).tasks@[i].project by {
                    if i != task_id {
                        assert(self.tasks@[i] == self.tasks@.remove(task_id)[i]);
                    }
                }
                lemma_same_rosters(old(self).tasks@, old(self).members.members@, self.tasks@);
            }
        }
        r
    }

    /// Sets the mentor of task `task_id` (see `Task::set_mentor`): a new
    /// mentor who is not a member yet is first added as `add_member` does,
    /// with `mentor_roles` and `ignore_limits`, and a refusal there refuses
    /// the change.  Returns whether the mentor changed.  Tasks and members
    /// that agreed still agree.
    pub fn set_mentor(
        &mut self,
        task_id: u32,
        mentor: Option<u64>,
        mentor_roles: Option<&Vec<u64>>,
        ignore_limits: bool,
        now: i64,
    ) -> (r: bool)
        ensures
            !old(self).tasks@.dom().contains(task_id) ==> !r && final(self).tasks@ == old(self).tasks@
                && final(self).members.members@ == old(self).members.members@,
            old(self).tasks@.dom().contains(task_id) ==> ({
                let t = old(self).tasks@[task_id];
                let t2 = final(self).tasks@[task_id];
                let joins = match mentor {
                    Some(id) => !t.finished && !t.member_seq().contains(id),
                    None => false,
                };
                let outcome = add_outcome(
                    t,
                    mentor->0,
                    project_allows(
                        old(self).projects@,
                        t.project@,
                        match mentor_roles {
                            Some(v) => Some(v@),
                            None => None,
                        },
                    ),
                    limit_allows(
                        old(self).members.members@,
                        old(self).projects@,
                        mentor->0,
                        t.project@,
                        ignore_limits,
                    ),
                );
                &&& r == (!t.finished && (joins ==> outcome.succeeded()))
                &&& final(self).tasks@.dom() == old(self).tasks@.dom()
                &&& final(self).tasks@.remove(task_id) == old(self).tasks@.remove(task_id)
                &&& r ==> t2.mentor_id.value() == mentor
                &&& !r ==> t2.mentor_id == t.mentor_id
                &&& !r ==> final(self).tasks@ == old(self).tasks@
                &&& t2.project == t.project
                &&& t2.finished == t.finished
                &&& t2.max_members == t.max_members
                &&& joins && outcome is Joined ==> t2.member_seq() == t.member_seq().push(mentor->0)
                &&& !(joins && outcome is Joined) ==> t2.member_seq() == t.member_seq()
                &&& joins_records(
                    old(self).members.members@,
                    final(self).members.members@,
                    mentor->0,
                    t.project@,
                    task_id,
                    mentor is Some && reaches_limit_check(
                        t,
                        mentor->0,
                        project_allows(
                            old(self).projects@,
                            t.project@,
                            match mentor_roles {
                                Some(v) => Some(v@),
                                None => None,
                            },
                        ),
                    ),
                    joins && outcome is Joined,
                )
            }),
            final(self).projects@ == old(self).projects@,
            consistent(old(self).tasks@, old(self).members.members@) ==> consistent(
                final(self).tasks@,
                final(self).members.members@,
            ),
    {
        self.tasks.ids_are_keys();
        let mut task = match self.tasks.take(task_id) {
            Some(t) => t,
            None => {
                return false;
            },
        };
        let (allows, limit) = match mentor {
            Some(id) => self.admission(&task.project, id, mentor_roles, ignore_limits),
            None => (true, None),
        };
        let reaches = match mentor {
            Some(id) => task.reaches_limit_check(id, allows),
            None => false,
        };
        let ghost t0 = task;
        let (changed, attempt) = task.set_mentor(mentor, now, allows, limit);
        let joined = match attempt {
            Some(AddMemberOutcome::Joined { .. }) => true,
            _ => false,
        };
        let who = match mentor {
            Some(id) => id,
            None => 0,
        };
        proof {
            if mentor is Some {
                assert(who == mentor->0);
            }
        }
        self.record_join(who, &task.project, task_id, reaches, joined);
        self.tasks.put(task);
        proof {
            assert(self.tasks@.dom() =~= old(self).tasks@.dom());
            assert(self.tasks@.remove(task_id) =~= old(self).tasks@.remove(task_id));
            if !changed {
                assert(self.tasks@ =~= old(self).tasks@);
            }
            if consistent(old(self).tasks@, old(self).members.members@) {
                lemma_join_keeps_consistent(
                    old(self).tasks@,
                    old(self).members.members@,
                    self.tasks@,
                    self.members.members@,
                    task_id,
                    who,
                    reaches,
                    joined,
                );
            }
        }
        changed
    }

    /// Makes the members of task `task_id` the ones picked in `selected`
    /// (each with its roles, `None` when they could not be fetched): each
    /// picked member not in the task is added as `add_member` does, limits
    /// ignored; then each member not picked is removed as `remove_member`
    /// does.  Tasks and members that agreed still agree; records are only
    /// made for picked members, and no record changes but in its running
    /// tasks.  When the task's members repeat nobody, they are then, in
    /// order, those of `roster_after_picks` that were picked: every member
    /// left is a picked one and no picked member who was in the task is
    /// removed.
    pub fn sync_members(&mut self, task_id: u32, selected: &Vec<(u64, Option<Vec<u64>>)>, now: i64)
        ensures
            !old(self).tasks@.dom().contains(task_id) ==> final(self).tasks@ == old(self).tasks@
                && final(self).members.members@ == old(self).members.members@,
            old(self).tasks@.dom().contains(task_id) ==> {
                &&& final(self).tasks@.dom() == old(self).tasks@.dom()
                &&& final(self).tasks@.remove(task_id) == old(self).tasks@.remove(task_id)
                &&& final(self).tasks@[task_id].project == old(self).tasks@[task_id].project
            },
            final(self).projects@ == old(self).projects@,
            forall|x: u64| #[trigger] old(self).members.members@.dom().contains(x) ==> final(self).members.members@.dom().contains(x)
                && same_but_tasks(final(self).members.members@[x], old(self).members.members@[x]),
            forall|x: u64| #[trigger] final(self).members.members@.dom().contains(x) ==> old(self).members.members@.dom().contains(x)
                || picked(selected@, x),
            consistent(old(self).tasks@, old(self).members.members@) ==> consistent(
                final(self).tasks@,
                final(self).members.members@,
            ),
            old(self).tasks@.dom().contains(task_id) && old(self).tasks@[task_id].member_seq().no_duplicates() ==> {
                &&& forall|m: u64| #[trigger] final(self).tasks@[task_id].member_seq().contains(m) ==> picked(selected@, m)
                &&& forall|m: u64| picked(selected@, m) && old(self).tasks@[task_id].member_seq().contains(m)
                    ==> #[trigger] final(self).tasks@[task_id].member_seq().contains(m)
                &&& final(self).tasks@[task_id].member_seq() == roster_after_picks(
                    old(self).tasks@[task_id],
                    selected@,
                    old(self).projects@,
                ).filter(|x: u64| picked(selected@, x))
            },
    {
        if self.tasks.get(task_id).is_none() {
            return;
        }
        let ghost t0 = self.tasks@[task_id];
        let ghost cons = consistent(self.tasks@, self.members.members@);
        let ghost nd = t0.member_seq().no_duplicates();
        let mut i: usize = 0;
        assert(selected@.take(0) =~= Seq::<(u64, Option<Vec<u64>>)>::empty());
        while i < selected.len()
            invariant
                i <= selected@.len(),
                old(self).tasks@.dom().contains(task_id),
                t0 == old(self).tasks@[task_id],
                cons == consistent(old(self).tasks@, old(self).members.members@),
                self.tasks@.dom() == old(self).tasks@.dom(),
                self.tasks@.remove(task_id) == old(self).tasks@.remove(task_id),
                self.tasks@[task_id].project == t0.project,
                self.projects@ == old(self).projects@,
                forall|x: u64| #[trigger] old(self).members.members@.dom().contains(x) ==> self.members.members@.dom().contains(x)
                    && same_but_tasks(self.members.members@[x], old(self).members.members@[x]),
                forall|x: u64| #[trigger] self.members.members@.dom().contains(x) ==> old(self).members.members@.dom().contains(x)
                    || picked(selected@, x),
                cons ==> consistent(self.tasks@, self.members.members@),
                nd == t0.member_seq().no_duplicates(),
                nd ==> self.tasks@[task_id].member_seq().no_duplicates(),
                forall|m: u64| #[trigger] self.tasks@[task_id].member_seq().contains(m) ==> t0.member_seq().contains(m)
                    || picked(selected@, m),
                forall|m: u64| t0.member_seq().contains(m) ==> #[trigger] self.tasks@[task_id].member_seq().contains(m),
                self.tasks@[task_id].max_members == t0.max_members,
                self.tasks@[task_id].finished == t0.finished,
                self.tasks@[task_id].member_seq() == roster_after_picks(t0, selected@.take(i as int), old(self).projects@),
            decreases selected@.len() - i,
        {
            proof {
                assert(selected@.take(i + 1).drop_last() =~= selected@.take(i as int));
                assert(selected@.take(i + 1).last() == selected@[i as int]);
            }
            let m = selected[i].0;
            let present = match self.tasks.get(task_id) {
                Some(t) => vec_contains_u64(t.members.get(), m),
                None => true,
            };
            if !present {
                let roles = match &selected[i].1 {
                    Some(v) => Some(v),
                    None => None,
                };
                let ghost before = self.tasks@[task_id].member_seq();
                let ghost mem_before = self.members.members@;
                self.add_member(task_id, m, roles, true);
                proof {
                    assert forall|x: u64| #[trigger] mem_before.dom().contains(x) implies self.members.members@.dom().contains(x)
                        && same_but_tasks(self.members.members@[x], mem_before[x]) by {
                        if x != m {
                            assert(self.members.members@[x] == self.members.members@.remove(m)[x]);
                            assert(mem_before[x] == mem_before.remove(m)[x]);
                        }
                    }
                    assert forall|x: u64| #[trigger] self.members.members@.dom().contains(x) && x != m
                        implies mem_before.dom().contains(x) by {
                        assert(self.members.members@.remove(m).dom().contains(x));
                    }
                    assert(selected@[i as int].0 == m);
                    assert(picked(selected@, m));
                    let now_seq = self.tasks@[task_id].member_seq();
                    if nd && now_seq != before {
                        assert forall|a: int, b: int| 0 <= a < now_seq.len() && 0 <= b < now_seq.len() && a != b
                            implies now_seq[a] != now_seq[b] by {
                            if a == before.len() {
                                assert(before[b] != m);
                            } else if b == before.len() {
                                assert(before[a] != m);
                            }
                        }
                    }
                    assert forall|x: u64| #[trigger] now_seq.contains(x) implies before.contains(x) || x == m by {
                        if now_seq != before {
                            assert(now_seq == before.push(m));
                            let k = choose|k: int| 0 <= k < now_seq.len() && now_seq[k] == x;
                            if k < before.len() {
                                assert(before[k] == x);
                            }
                        }
                    }
                    assert forall|x: u64| before.contains(x) implies #[trigger] now_seq.contains(x) by {
                        if now_seq != before {
                            let k = choose|k: int| 0 <= k < before.len() && before[k] == x;
                            assert(now_seq[k] == x);
                        }
                    }
                }
            }
            i = i + 1;
        }
        let snapshot = match self.tasks.get(task_id) {
            Some(t) => t.members.get().dup(),
            None => Vec::new(),
        };
        let ghost t1 = self.tasks@[task_id];
        let ghost keepf = |x: u64| picked(selected@, x);
        let mut j: usize = 0;
        assert(snapshot@.subrange(0, snapshot@.len() as int) =~= snapshot@);
        assert(selected@.take(selected@.len() as int) =~= selected@);
        proof {
            if nd {
                assert(snapshot@.no_duplicates());
            }
            assert(snapshot@.take(0).filter(keepf) =~= Seq::<u64>::empty());
            assert(snapshot@.take(0).filter(keepf) + snapshot@.skip(0) =~= snapshot@);
        }
        while j < snapshot.len()
            invariant
                j <= snapshot@.len(),
                snapshot@ == t1.member_seq(),
                old(self).tasks@.dom().contains(task_id),
                t0 == old(self).tasks@[task_id],
                cons == consistent(old(self).tasks@, old(self).members.members@),
                self.tasks@.dom() == old(self).tasks@.dom(),
                self.tasks@.remove(task_id) == old(self).tasks@.remove(task_id),
                self.tasks@[task_id].project == t0.project,
                self.projects@ == old(self).projects@,
                forall|x: u64| #[trigger] old(self).members.members@.dom().contains(x) ==> self.members.members@.dom().contains(x)
                    && same_but_tasks(self.members.members@[x], old(self).members.members@[x]),
                forall|x: u64| #[trigger] self.members.members@.dom().contains(x) ==> old(self).members.members@.dom().contains(x)
                    || picked(selected@, x),
                cons ==> consistent(self.tasks@, self.members.members@),
                nd == t0.member_seq().no_duplicates(),
                nd ==> self.tasks@[task_id].member_seq().no_duplicates(),
                nd ==> forall|m: u64| #[trigger] self.tasks@[task_id].member_seq().contains(m) ==> picked(selected@, m)
                    || snapshot@.subrange(j as int, snapshot@.len() as int).contains(m),
                forall|m: u64| picked(selected@, m) && t0.member_seq().contains(m)
                    ==> #[trigger] self.tasks@[task_id].member_seq().contains(m),
                snapshot@ == roster_after_picks(t0, selected@, old(self).projects@),
                keepf == (|x: u64| picked(selected@, x)),
                nd ==> snapshot@.no_duplicates(),
                nd ==> self.tasks@[task_id].member_seq() == snapshot@.take(j as int).filter(keepf) + snapshot@.skip(
                    j as int,
                ),
            decreases snapshot@.len() - j,
        {
            proof {
                assert(snapshot@.take(j + 1) =~= snapshot@.take(j as int).push(snapshot@[j as int]));
                snapshot@.take(j as int).lemma_filter_push(snapshot@[j as int], keepf);
                assert(snapshot@.skip(j as int) =~= seq![snapshot@[j as int]] + snapshot@.skip(j + 1));
            }
            let m = snapshot[j];
            let keep = is_picked(selected, m);
            let ghost before = self.tasks@[task_id].member_seq();
            let ghost rest = snapshot@.subrange(j as int, snapshot@.len() as int);
            proof {
                assert(rest[0] == m);
                assert(rest.drop_first() =~= snapshot@.subrange(j + 1, snapshot@.len() as int));
            }
            let ghost mem_before = self.members.members@;
            if !keep {
                self.remove_member(task_id, m, now);
                proof {
                    assert forall|x: u64| #[trigger] mem_before.dom().contains(x) implies self.members.members@.dom().contains(x)
                        && same_but_tasks(self.members.members@[x], mem_before[x]) by {
                        if x != m && self.members.members@ != mem_before {
                            assert(self.members.members@[x] == self.members.members@.remove(m)[x]);
                            assert(mem_before[x] == mem_before.remove(m)[x]);
                        }
                    }
                    let now_seq = self.tasks@[task_id].member_seq();
                    if before.contains(m) {
                        assert(now_seq == remove_first(before, m));
                    } else {
                        crate::member::lemma_remove_first_absent(before, m);
                        assert(now_seq == remove_first(before, m));
                    }
                    assert forall|x: u64| picked(selected@, x) && t0.member_seq().contains(x)
                        implies #[trigger] now_seq.contains(x) by {
                        assert(x != m);
                        lemma_remove_first_keeps(before, m, x);
                    }
                    if nd {
                        let a = snapshot@.take(j as int).filter(keepf);
                        let b = snapshot@.skip(j + 1);
                        assert(before =~= a + seq![m] + b);
                        assert forall|k: int| 0 <= k < a.len() implies before[k] != m by {
                            snapshot@.take(j as int).lemma_filter_contains_rev(keepf, a[k]);
                            assert(a.contains(a[k]));
                            if a[k] == m {
                                let w = choose|w: int| 0 <= w < j && snapshot@.take(j as int)[w] == m;
                                assert(snapshot@[w] == snapshot@[j as int]);
                            }
                        }
                        lemma_remove_first_at(before, m, a.len() as int);
                        assert(before.remove(a.len() as int) =~= a + b);
                        assert(before.no_duplicates());
                        lemma_remove_first_unique(before, m);
                        assert forall|x: u64| #[trigger] now_seq.contains(x) implies picked(selected@, x)
                            || snapshot@.subrange(j + 1, snapshot@.len() as int).contains(x) by {
                            assert(x != m);
                            lemma_remove_first_keeps(before, m, x);
                            if !picked(selected@, x) {
                                let k = choose|k: int| 0 <= k < rest.len() && rest[k] == x;
                                assert(k != 0);
                                assert(rest.drop_first()[k - 1] == x);
                            }
                        }
                    }
                }
            } else {
                proof {
                    if nd {
                        assert(snapshot@.take(j + 1).filter(keepf) + snapshot@.skip(j + 1) =~= snapshot@.take(j as int).filter(
                            keepf,
                        ) + snapshot@.skip(j as int));
                        assert forall|x: u64| #[trigger] before.contains(x) implies picked(selected@, x)
                            || snapshot@.subrange(j + 1, snapshot@.len() as int).contains(x) by {
                            if !picked(selected@, x) {
                                let k = choose|k: int| 0 <= k < rest.len() && rest[k] == x;
                                assert(k != 0);
                                assert(rest.drop_first()[k - 1] == x);
                            }
                        }
                    }
                }
            }
            j = j + 1;
        }
        proof {
            assert(snapshot@.subrange(snapshot@.len() as int, snapshot@.len() as int).len() == 0);
            assert(snapshot@.take(snapshot@.len() as int) =~= snapshot@);
            assert(snapshot@.skip(snapshot@.len() as int) =~= Seq::<u64>::empty());
            if nd {
                assert(self.tasks@[task_id].member_seq() =~= snapshot@.filter(keepf));
            }
        }
    }

    /// Applies the mentors picked in `picks` to task `task_id` in turn (see
    /// `set_mentor`, limits ignored; the members and mentor afterwards are
    /// those of `mentors_after_picks`); no pick clears the mentor.  Records
    /// are only made for picked members, and no record changes but in its
    /// running tasks.  Tasks and members that agreed still agree.
    pub fn pick_mentors(&mut self, task_id: u32, picks: &Vec<(u64, Option<Vec<u64>>)>, now: i64)
        ensures
            !old(self).tasks@.dom().contains(task_id) ==> final(self).tasks@ == old(self).tasks@
                && final(self).members.members@ == old(self).members.members@,
            old(self).tasks@.dom().contains(task_id) ==> final(self).tasks@.dom() == old(self).tasks@.dom()
                && final(self).tasks@.remove(task_id) == old(self).tasks@.remove(task_id),
            old(self).tasks@.dom().contains(task_id) && !old(self).tasks@[task_id].finished && picks@.len() == 0
                ==> final(self).tasks@[task_id].mentor_id.value() == None::<u64>,
            old(self).tasks@.dom().contains(task_id) && picks@.len() > 0 ==> (
                final(self).tasks@[task_id].member_seq(),
                final(self).tasks@[task_id].mentor_id.value(),
            ) == mentors_after_picks(old(self).tasks@[task_id], picks@, old(self).projects@),
            forall|x: u64| #[trigger] old(self).members.members@.dom().contains(x) ==> final(self).members.members@.dom().contains(x)
                && same_but_tasks(final(self).members.members@[x], old(self).members.members@[x]),
            forall|x: u64| #[trigger] final(self).members.members@.dom().contains(x) ==> old(self).members.members@.dom().contains(x)
                || picked(picks@, x),
            final(self).projects@ == old(self).projects@,
            consistent(old(self).tasks@, old(self).members.members@) ==> consistent(
                final(self).tasks@,
                final(self).members.members@,
            ),
    {
        if picks.len() == 0 {
            self.set_mentor(task_id, None, None, true, now);
            proof {
                assert forall|x: u64| #[trigger] old(self).members.members@.dom().contains(x) implies same_but_tasks(
                    self.members.members@[x],
                    old(self).members.members@[x],
                ) by {}
            }
            return;
        }
        let ghost present = old(self).tasks@.dom().contains(task_id);
        let mut i: usize = 0;
        assert(picks@.take(0) =~= Seq::<(u64, Option<Vec<u64>>)>::empty());
        while i < picks.len()
            invariant
                i <= picks@.len(),
                present == old(self).tasks@.dom().contains(task_id),
                present ==> self.tasks@[task_id].finished == old(self).tasks@[task_id].finished
                    && self.tasks@[task_id].max_members == old(self).tasks@[task_id].max_members
                    && self.tasks@[task_id].project == old(self).tasks@[task_id].project
                    && (self.tasks@[task_id].member_seq(), self.tasks@[task_id].mentor_id.value()) == mentors_after_picks(
                        old(self).tasks@[task_id],
                        picks@.take(i as int),
                        old(self).projects@,
                    ),
                !present ==> self.tasks@ == old(self).tasks@ && self.members.members@ == old(self).members.members@,
                present ==> self.tasks@.dom() == old(self).tasks@.dom() && self.tasks@.remove(task_id) == old(self).tasks@.remove(task_id),
                self.projects@ == old(self).projects@,
                consistent(old(self).tasks@, old(self).members.members@) ==> consistent(
                    self.tasks@,
                    self.members.members@,
                ),
                forall|x: u64| #[trigger] old(self).members.members@.dom().contains(x) ==> self.members.members@.dom().contains(x)
                    && same_but_tasks(self.members.members@[x], old(self).members.members@[x]),
                forall|x: u64| #[trigger] self.members.members@.dom().contains(x) ==> old(self).members.members@.dom().contains(x)
                    || picked(picks@, x),
            decreases picks@.len() - i,
        {
            let roles = match &picks[i].1 {
                Some(v) => Some(v),
                None => None,
            };
            let ghost before = self.tasks@;
            proof {
                assert(picks@.take(i + 1).drop_last() =~= picks@.take(i as int));
                assert(picks@.take(i + 1).last() == picks@[i as int]);
            }
            let ghost mem_before = self.members.members@;
            let who = picks[i].0;
            self.set_mentor(task_id, Some(who), roles, true, now);
            proof {
                assert(picks@[i as int].0 == who);
                assert(picked(picks@, who));
                assert forall|x: u64| #[trigger] mem_before.dom().contains(x) implies self.members.members@.dom().contains(x)
                    && same_but_tasks(self.members.members@[x], mem_before[x]) by {
                    if present && x != who {
                        assert(self.members.members@[x] == self.members.members@.remove(who)[x]);
                        assert(mem_before[x] == mem_before.remove(who)[x]);
                    }
                }
                assert forall|x: u64| #[trigger] self.members.members@.dom().contains(x) && x != who
                    implies mem_before.dom().contains(x) by {
                    if present {
                        assert(self.members.members@.remove(who).dom().contains(x));
                    }
                }
                if present {
                    assert(self.tasks@.remove(task_id) =~= old(self).tasks@.remove(task_id));
                }
            }
            i = i + 1;
        }
        assert(picks@.take(picks@.len() as int) =~= picks@);
    }

    /// The `become_mentor` command in the thread `thread_id`: the member
    /// becomes the mentor of the thread's task when it has none, joining it
    /// first as `set_mentor` does (limits checked).  Tasks and members that
    /// agreed still agree.
    pub fn become_mentor(&mut self, thread_id: u64, member: u64, member_roles: Option<&Vec<u64>>, now: i64) -> (r: BecomeMentor)
        ensures
            r is NotInTask <==> forall|id: u32| #[trigger] old(self).tasks@.dom().contains(id) ==> old(self).tasks@[id].thread_id != thread_id,
            r is NotInTask || r is MentorExists ==> final(self).tasks@ == old(self).tasks@ && final(self).members.members@ == old(self).members.members@,
            r is MentorExists || r is Done || r is Refused ==> exists|id: u32| #[trigger] old(self).tasks@.dom().contains(id)
                && old(self).tasks@[id].thread_id == thread_id && (r is MentorExists <==> old(self).tasks@[id].mentor_id.value() is Some)
                && (r is Done ==> final(self).tasks@[id].mentor_id.value() == Some(member)
                    && final(self).tasks@[id].member_seq().contains(member))
                && (r is Refused ==> final(self).tasks@[id].mentor_id == old(self).tasks@[id].mentor_id),
            r is Done || r is Refused ==> exists|id: u32| #[trigger] old(self).tasks@.dom().contains(id)
                && old(self).tasks@[id].thread_id == thread_id && old(self).tasks@[id].mentor_id.value() is None
                && (r is Done <==> !old(self).tasks@[id].finished && (old(self).tasks@[id].member_seq().contains(member)
                    || add_outcome(
                    old(self).tasks@[id],
                    member,
                    project_allows(
                        old(self).projects@,
                        old(self).tasks@[id].project@,
                        match member_roles {
                            Some(v) => Some(v@),
                            None => None,
                        },
                    ),
                    limit_allows(old(self).members.members@, old(self).projects@, member, old(self).tasks@[id].project@, false),
                ).succeeded())),
            r is Refused ==> final(self).tasks@ == old(self).tasks@ && final(self).members.members@.remove(member)
                == old(self).members.members@.remove(member) && (old(self).members.members@.dom().contains(member)
                ==> final(self).members.members@ == old(self).members.members@),
            r is Refused && final(self).members.members@.dom().contains(member) && !old(self).members.members@.dom().contains(
                member,
            ) ==> is_new_record(final(self).members.members@[member], member) && forall|p: Seq<char>|
                #[trigger] final(self).members.members@[member].tasks_in(p) == Seq::<u32>::empty(),
            final(self).projects@ == old(self).projects@,
            consistent(old(self).tasks@, old(self).members.members@) ==> consistent(
                final(self).tasks@,
                final(self).members.members@,
            ),
    {
        let (id, has_mentor) = match self.tasks.get_thread(thread_id) {
            Some(t) => (t.id, t.mentor_id.get().is_some()),
            None => {
                return BecomeMentor::NotInTask;
            },
        };
        if has_mentor {
            return BecomeMentor::MentorExists;
        }
        let ghost t = self.tasks@[id];
        if self.set_mentor(id, Some(member), member_roles, false, now) {
            proof {
                let s = t.member_seq();
                if !s.contains(member) {
                    assert(s.push(member)[s.len() as int] == member);
                }
            }
            BecomeMentor::Done
        } else {
            BecomeMentor::Refused
        }
    }

    /// A thread was created in forum `parent`: when the forum is a
    /// project's and the thread is not a task yet, a task is made from it
    /// (see `TaskManager::new_task`) and its id, or the refusal, returned;
    /// otherwise `None` and nothing changes.  Tasks and members that agreed
    /// still agree.
    pub fn thread_created(
        &mut self,
        thread_id: u64,
        parent: Option<u64>,
        name: String,
        thread_metadata: Option<Option<i64>>,
        applied_tags: &Vec<u64>,
        now: i64,
    ) -> (r: Option<Result<u32, String>>)
        requires
            old(self).tasks.last_id() < u32::MAX,
        ensures
            ({
                let is_task = exists|id: u32| #[trigger] old(self).tasks@.dom().contains(id) && old(self).tasks@[id].thread_id == thread_id;
                let in_project = match parent {
                    Some(f) => exists|k: Seq<char>| #[trigger] old(self).projects@.dom().contains(k) && old(self).projects@[k].tasks_forum == f,
                    None => false,
                };
                &&& r is Some <==> !is_task && in_project
                &&& r is None ==> final(self).tasks@ == old(self).tasks@
                &&& r matches Some(Ok(id)) ==> !old(self).tasks@.dom().contains(id)
                    && final(self).tasks@.dom() == old(self).tasks@.dom().insert(id)
                    && final(self).tasks@.remove(id) == old(self).tasks@
                    && final(self).tasks@[id].thread_id == thread_id
                    && final(self).tasks@[id].member_seq().len() == 0
                    && final(self).tasks@[id].start_date == thread_metadata->Some_0
                &&& (r matches Some(Err(_))) <==> (r is Some && thread_metadata is None)
                &&& r matches Some(Err(_)) ==> final(self).tasks@ == old(self).tasks@
            }),
            final(self).members.members@ == old(self).members.members@,
            final(self).projects@ == old(self).projects@,
            consistent(old(self).tasks@, old(self).members.members@) ==> consistent(
                final(self).tasks@,
                final(self).members.members@,
            ),
    {
        match self.tasks.get_thread(thread_id) {
            Some(_) => {
                return None;
            },
            None => {},
        }
        let forum = match parent {
            Some(f) => f,
            None => {
                return None;
            },
        };
        let project = match self.projects.get_from_forum(forum) {
            Some(p) => p.name.clone(),
            None => {
                return None;
            },
        };
        let ghost before = self.tasks@;
        let r = self.tasks.new_task(project, thread_id, name, thread_metadata, applied_tags, &self.tags, now);
        proof {
            if r is Ok && consistent(before, self.members.members@) {
                let id = r->Ok_0;
                lemma_new_task_keeps_consistent(before, self.members.members@, self.tasks@, id);
            }
        }
        Some(r)
    }

    /// A reaction `reaction` was added by `user` on thread `thread_id`,
    /// whose forum reacts by default with `forum_default`: when that is the
    /// emoji and the thread is a task's, the user joins the task as
    /// `add_member` does (limits checked) and whether they are in it is
    /// returned; a refused user's reaction is to be taken away.  `None`
    /// when the reaction does not count; nothing changes then.
    pub fn reaction_added(
        &mut self,
        thread_id: u64,
        user: u64,
        forum_default: &Option<Emoji>,
        reaction: &Emoji,
        member_roles: Option<&Vec<u64>>,
    ) -> (r: Option<bool>)
        ensures
            r is Some <==> (match forum_default {
                Some(e) => same_emoji(*e, *reaction),
                None => false,
            }) && exists|id: u32| #[trigger] old(self).tasks@.dom().contains(id) && old(self).tasks@[id].thread_id == thread_id,
            r is None ==> final(self).tasks@ == old(self).tasks@ && final(self).members.members@ == old(self).members.members@,
            r matches Some(joined) ==> exists|id: u32| #[trigger] old(self).tasks@.dom().contains(id)
                && old(self).tasks@[id].thread_id == thread_id && ({
                    let t = old(self).tasks@[id];
                    let outcome = add_outcome(
                        t,
                        user,
                        project_allows(
                            old(self).projects@,
                            t.project@,
                            match member_roles {
                                Some(v) => Some(v@),
                                None => None,
                            },
                        ),
                        limit_allows(old(self).members.members@, old(self).projects@, user, t.project@, false),
                    );
                    &&& joined == outcome.succeeded()
                    &&& final(self).tasks@.dom() == old(self).tasks@.dom()
                    &&& final(self).tasks@.remove(id) == old(self).tasks@.remove(id)
                    &&& joined ==> final(self).tasks@[id].member_seq().contains(user)
                    &&& outcome is Joined ==> final(self).tasks@[id].member_seq() == t.member_seq().push(user)
                    &&& !(outcome is Joined) ==> final(self).tasks@ == old(self).tasks@
                    &&& outcome is Joined ==> final(self).members.members@.dom().contains(user)
                        && final(self).members.members@[user].tasks_in(t.project@).contains(id)
                    &&& joins_records(
                        old(self).members.members@,
                        final(self).members.members@,
                        user,
                        t.project@,
                        id,
                        reaches_limit_check(
                            t,
                            user,
                            project_allows(
                                old(self).projects@,
                                t.project@,
                                match member_roles {
                                    Some(v) => Some(v@),
                                    None => None,
                                },
                            ),
                        ),
                        outcome is Joined,
                    )
                }),
            final(self).projects@ == old(self).projects@,
            consistent(old(self).tasks@, old(self).members.members@) ==> consistent(
                final(self).tasks@,
                final(self).members.members@,
            ),
    {
        let counts = match forum_default {
            Some(e) => emoji_matches(e, reaction),
            None => false,
        };
        if !counts {
            return None;
        }
        let id = match self.tasks.get_thread(thread_id) {
            Some(t) => t.id,
            None => {
                return None;
            },
        };
        let ghost t = self.tasks@[id];
        let ghost mem0 = self.members.members@;
        let joined = self.add_member(id, user, member_roles, false);
        proof {
            if self.members.members@.dom().contains(user) {
                let l0 = record_tasks(mem0, user, t.project@);
                let l1 = self.members.members@[user].tasks_in(t.project@);
                if l1 != l0 && !l0.contains(id) {
                    assert(l1 == l0.push(id));
                    assert(l1[l0.len() as int] == id);
                }
            }
            if joined && !t.member_seq().contains(user) {
                assert(self.tasks@[id].member_seq()[t.member_seq().len() as int] == user);
            }
            if joined && t.member_seq().contains(user) {
                let w = choose|w: int| 0 <= w < t.member_seq().len() && t.member_seq()[w] == user;
                assert(self.tasks@[id].member_seq()[w] == user);
            }
        }
        Some(joined)
    }

    /// The tags applied to thread `thread_id` changed from `old_tags` to
    /// `new_tags`: when the lists differ and the thread is a task's, the
    /// task takes its settings from the new tags (see `Task::fetch_tags`).
    /// Returns whether a task was updated.  Tasks and members that agreed
    /// still agree when no task changed project.
    pub fn thread_tags_changed(&mut self, thread_id: u64, old_tags: &Vec<u64>, new_tags: &Vec<u64>, now: i64) -> (r: bool)
        ensures
            r <==> old_tags@ != new_tags@ && exists|id: u32|
                #[trigger] old(self).tasks@.dom().contains(id) && old(self).tasks@[id].thread_id == thread_id,
            !r ==> final(self).tasks@ == old(self).tasks@,
            r ==> exists|id: u32| #[trigger] old(self).tasks@.dom().contains(id) && old(self).tasks@[id].thread_id == thread_id
                && final(self).tasks@.remove(id) == old(self).tasks@.remove(id) && {
                    let t = old(self).tasks@[id];
                    let t2 = final(self).tasks@[id];
                    &&& t2.max_members.base_value@ == tags_max_members(new_tags@, old(self).tags.tags@)
                    &&& t2.score.base_value@ == tags_score_modifier(new_tags@, old(self).tags.tags@)
                    &&& t2.max_members.modified_value == t.max_members.modified_value
                    &&& t2.score.modified_value == t.score.modified_value
                    &&& t2.project@ == match tags_project(new_tags@, old(self).tags.tags@) {
                        Some(p) => p@,
                        None => t.project@,
                    }
                    &&& t2.thread_id == t.thread_id && t2.finished == t.finished && t2.members == t.members
                        && t2.mentor_id == t.mentor_id
                },
            final(self).tasks@.dom() == old(self).tasks@.dom(),
            final(self).members.members@ == old(self).members.members@,
            final(self).projects@ == old(self).projects@,
            final(self).tags.tags@ == old(self).tags.tags@,
            consistent(old(self).tasks@, old(self).members.members@) && (forall|id: u32|
                #[trigger] final(self).tasks@.dom().contains(id) ==> final(self).tasks@[id].project == old(self).tasks@[id].project)
                ==> consistent(final(self).tasks@, final(self).members.members@),
    {
        if vec_eq_u64(old_tags, new_tags) {
            return false;
        }
        let id = match self.tasks.get_thread(thread_id) {
            Some(t) => t.id,
            None => {
                return false;
            },
        };
        self.tasks.ids_are_keys();
        let ghost before = self.tasks@;
        let mut task = match self.tasks.take(id) {
            Some(t) => t,
            None => {
                return false;
            },
        };
        task.fetch_tags(new_tags, &self.tags, now);
        self.tasks.put(task);
        proof {
            assert(self.tasks@.remove(id) =~= before.remove(id));
            assert(self.tasks@.dom() =~= before.dom());
            let after = self.tasks@;
            if consistent(before, self.members.members@) && (forall|i: u32|
                #[trigger] after.dom().contains(i) ==> after[i].project == before[i].project) {
                assert(after[id].project == before[id].project);
                assert(after[id].member_seq() == before[id].member_seq());
                assert forall|i: u32| #[trigger] after.dom().contains(i) implies after[i].member_seq() == before[i].member_seq()
                    && after[i].project == before[i].project by {
                    if i != id {
                        assert(after[i] == after.remove(id)[i]);
                    }
                }
            }
        }
        true
    }

    /// The member `user` left: it is removed (see `remove_member`) from
    /// each task that its record lists as running, and nothing else
    /// changes: a task its record does not list stays as it was, a listed
    /// task (whose roster repeats nobody) keeps every other member in order,
    /// and every other member's record stays as it was.  Tasks and members
    /// that agreed still agree, and a member that had a record is then in
    /// no task at all.
    pub fn member_left(&mut self, user: u64, now: i64)
        ensures
            final(self).projects@ == old(self).projects@,
            final(self).tasks@.dom() == old(self).tasks@.dom(),
            final(self).members.members@.dom() == old(self).members.members@.dom(),
            forall|m: u64| #[trigger] old(self).members.members@.dom().contains(m) && m != user
                ==> final(self).members.members@[m] == old(self).members.members@[m],
            forall|id: u32| #[trigger] old(self).tasks@.dom().contains(id) ==> final(self).tasks@[id].project
                == old(self).tasks@[id].project && final(self).tasks@[id].finished == old(self).tasks@[id].finished,
            old(self).members.members@.dom().contains(user) ==> forall|id: u32| #[trigger] old(self).tasks@.dom().contains(id)
                && !lists_task(old(self).members.members@[user], id) ==> final(self).tasks@[id] == old(self).tasks@[id],
            old(self).members.members@.dom().contains(user) ==> forall|id: u32| #[trigger] old(self).tasks@.dom().contains(id)
                && lists_task(old(self).members.members@[user], id) && old(self).tasks@[id].member_seq().no_duplicates()
                ==> final(self).tasks@[id].member_seq() == remove_first(old(self).tasks@[id].member_seq(), user),
            !old(self).members.members@.dom().contains(user) ==> final(self).tasks@ == old(self).tasks@
                && final(self).members.members@ == old(self).members.members@,
            consistent(old(self).tasks@, old(self).members.members@) ==> consistent(
                final(self).tasks@,
                final(self).members.members@,
            ),
            consistent(old(self).tasks@, old(self).members.members@) && old(self).members.members@.dom().contains(user)
                ==> forall|id: u32|
                #[trigger] final(self).tasks@.dom().contains(id) ==> !final(self).tasks@[id].member_seq().contains(user),
    {
        let mut ids: Vec<u32> = Vec::new();
        let ghost cons = consistent(self.tasks@, self.members.members@);
        match self.members.get(user) {
            Some(rec) => {
                rec.in_tasks.lemma_seqs();
                let n = rec.in_tasks.len();
                let mut k: usize = 0;
                while k < n
                    invariant
                        k <= n,
                        n == rec.in_tasks.key_seq().len(),
                        n == rec.in_tasks.value_seq().len(),
                        *rec == old(self).members.members@[user],
                        forall|i: int|
                            #![trigger rec.in_tasks.key_seq()[i]]
                            0 <= i < rec.in_tasks.key_seq().len() ==> rec.in_tasks@.dom().contains(rec.in_tasks.key_seq()[i])
                                && rec.in_tasks@[rec.in_tasks.key_seq()[i]] == rec.in_tasks.value_seq()[i],
                        forall|j: int, x: u32| 0 <= j < k && #[trigger] rec.in_tasks.value_seq()[j]@.contains(x) ==> ids@.contains(x),
                        forall|x: u32| #[trigger] ids@.contains(x) ==> lists_task(*rec, x),
                    decreases n - k,
                {
                    let (_, list) = rec.in_tasks.entry_at(k);
                    let ghost before = ids@;
                    let ghost key = rec.in_tasks.key_seq()[k as int];
                    assert(rec.in_tasks@[key] == rec.in_tasks.value_seq()[k as int]);
                    let mut j: usize = 0;
                    while j < list.len()
                        invariant
                            j <= list@.len(),
                            *list == rec.in_tasks.value_seq()[k as int],
                            rec.in_tasks@.dom().contains(key),
                            rec.in_tasks@[key] == *list,
                            forall|x: u32| #[trigger] before.contains(x) ==> ids@.contains(x),
                            forall|a: int| 0 <= a < j ==> ids@.contains(#[trigger] list@[a]),
                            forall|x: u32| #[trigger] ids@.contains(x) ==> lists_task(*rec, x),
                        decreases list@.len() - j,
                    {
                        let ghost b2 = ids@;
                        ids.push(list[j]);
                        proof {
                            assert(ids@[b2.len() as int] == list@[j as int]);
                            assert forall|x: u32| #[trigger] b2.contains(x) implies ids@.contains(x) by {
                                let w = choose|w: int| 0 <= w < b2.len() && b2[w] == x;
                                assert(ids@[w] == x);
                            }
                            assert(rec.tasks_in(key).contains(list@[j as int])) by {
                                assert(rec.tasks_in(key)[j as int] == list@[j as int]);
                            }
                            assert forall|x: u32| #[trigger] ids@.contains(x) implies lists_task(*rec, x) by {
                                if x != list@[j as int] {
                                    let w = choose|w: int| 0 <= w < ids@.len() && ids@[w] == x;
                                    assert(b2[w] == x);
                                    assert(b2.contains(x));
                                }
                            }
                        }
                        j = j + 1;
                    }
                    proof {
                        assert forall|jj: int, x: u32| 0 <= jj < k + 1 && #[trigger] rec.in_tasks.value_seq()[jj]@.contains(x)
                            implies ids@.contains(x) by {
                            if jj == k {
                                let w = choose|w: int| 0 <= w < list@.len() && list@[w] == x;
                                assert(ids@.contains(list@[w]));
                            } else {
                                assert(before.contains(x));
                            }
                        }
                    }
                    k = k + 1;
                }
                proof {
                    assert forall|x: u32| #[trigger] lists_task(*rec, x) implies ids@.contains(x) by {
                        let p = choose|p: Seq<char>| #[trigger] rec.tasks_in(p).contains(x);
                        assert(rec.in_tasks@.dom().contains(p));
                        assert(rec.in_tasks.key_seq().contains(p));
                        let kk = choose|kk: int| 0 <= kk < rec.in_tasks.key_seq().len() && rec.in_tasks.key_seq()[kk] == p;
                        assert(rec.in_tasks@[rec.in_tasks.key_seq()[kk]] == rec.in_tasks.value_seq()[kk]);
                    }
                    if cons {
                        assert forall|id: u32| #[trigger] self.tasks@.dom().contains(id) && self.tasks@[id].member_seq().contains(user)
                            implies ids@.contains(id) by {
                            let p = self.tasks@[id].project@;
                            assert(rec.tasks_in(p).contains(id));
                            assert(rec.in_tasks@.dom().contains(p));
                            assert(rec.in_tasks.key_seq().contains(p));
                            let kk = choose|kk: int| 0 <= kk < rec.in_tasks.key_seq().len() && rec.in_tasks.key_seq()[kk] == p;
                            assert(rec.in_tasks@[rec.in_tasks.key_seq()[kk]] == rec.in_tasks.value_seq()[kk]);
                        }
                    }
                }
            },
            None => {
                return;
            },
        }
        let ghost rec0 = old(self).members.members@[user];
        let mut i: usize = 0;
        assert(ids@.subrange(0, ids@.len() as int) =~= ids@);
        assert(ids@.subrange(0, 0) =~= Seq::<u32>::empty());
        while i < ids.len()
            invariant
                i <= ids@.len(),
                old(self).members.members@.dom().contains(user),
                rec0 == old(self).members.members@[user],
                forall|x: u32| #[trigger] ids@.contains(x) <==> lists_task(rec0, x),
                forall|m: u64| #[trigger] old(self).members.members@.dom().contains(m) && m != user
                    ==> self.members.members@[m] == old(self).members.members@[m],
                forall|id2: u32| #[trigger] old(self).tasks@.dom().contains(id2) ==> self.tasks@[id2].project
                    == old(self).tasks@[id2].project && self.tasks@[id2].finished == old(self).tasks@[id2].finished,
                forall|id2: u32| #[trigger] old(self).tasks@.dom().contains(id2) && !ids@.subrange(0, i as int).contains(id2)
                    ==> self.tasks@[id2] == old(self).tasks@[id2],
                forall|id2: u32| #[trigger] old(self).tasks@.dom().contains(id2) && ids@.subrange(0, i as int).contains(id2)
                    && old(self).tasks@[id2].member_seq().no_duplicates() ==> self.tasks@[id2].member_seq()
                    == remove_first(old(self).tasks@[id2].member_seq(), user),
                cons == consistent(old(self).tasks@, old(self).members.members@),
                self.projects@ == old(self).projects@,
                self.tasks@.dom() == old(self).tasks@.dom(),
                self.members.members@.dom() == old(self).members.members@.dom(),
                cons ==> consistent(self.tasks@, self.members.members@),
                cons ==> forall|id: u32| #[trigger] self.tasks@.dom().contains(id) && self.tasks@[id].member_seq().contains(user)
                    ==> ids@.subrange(i as int, ids@.len() as int).contains(id),
            decreases ids@.len() - i,
        {
            let id = ids[i];
            let ghost before = self.tasks@;
            let ghost rest = ids@.subrange(i as int, ids@.len() as int);
            proof {
                assert(rest[0] == id);
                assert(rest.drop_first() =~= ids@.subrange(i + 1, ids@.len() as int));
            }
            let ghost done_before = ids@.subrange(0, i as int);
            let ghost members_before = self.members.members@;
            self.remove_member(id, user, now);
            proof {
                assert(ids@.subrange(0, i + 1) =~= done_before.push(id));
                assert forall|x: u32| #[trigger] ids@.subrange(0, i + 1).contains(x) <==> (done_before.contains(x) || x == id) by {
                    let d = ids@.subrange(0, i + 1);
                    if d.contains(x) {
                        let w = choose|w: int| 0 <= w < d.len() && d[w] == x;
                        if w < i {
                            assert(done_before[w] == x);
                        }
                    }
                    if done_before.contains(x) {
                        let w = choose|w: int| 0 <= w < done_before.len() && done_before[w] == x;
                        assert(d[w] == x);
                    }
                    if x == id {
                        assert(d[i as int] == x);
                    }
                }
                assert forall|m: u64| #[trigger] old(self).members.members@.dom().contains(m) && m != user
                    implies self.members.members@[m] == old(self).members.members@[m] by {
                    if before.dom().contains(id) && before[id].member_seq().contains(user) {
                        assert(self.members.members@[m] == self.members.members@.remove(user)[m]);
                        assert(members_before[m] == members_before.remove(user)[m]);
                    }
                }
                assert forall|id2: u32| #[trigger] old(self).tasks@.dom().contains(id2) implies self.tasks@[id2].project
                    == old(self).tasks@[id2].project && self.tasks@[id2].finished == old(self).tasks@[id2].finished
                    && (!ids@.subrange(0, i + 1).contains(id2) ==> self.tasks@[id2] == old(self).tasks@[id2])
                    && (ids@.subrange(0, i + 1).contains(id2) && old(self).tasks@[id2].member_seq().no_duplicates()
                        ==> self.tasks@[id2].member_seq() == remove_first(old(self).tasks@[id2].member_seq(), user)) by {
                    if id2 != id {
                        assert(self.tasks@[id2] == self.tasks@.remove(id)[id2]);
                        assert(before[id2] == before.remove(id)[id2]);
                    } else {
                        let s0 = old(self).tasks@[id2].member_seq();
                        if done_before.contains(id2) {
                            if s0.no_duplicates() {
                                lemma_remove_first_unique(s0, user);
                            }
                        } else {
                            if !s0.contains(user) {
                                lemma_remove_first_absent(s0, user);
                            }
                        }
                    }
                }
                if cons {
                    assert forall|id2: u32| #[trigger] self.tasks@.dom().contains(id2) && self.tasks@[id2].member_seq().contains(user)
                        implies ids@.subrange(i + 1, ids@.len() as int).contains(id2) by {
                        if id2 == id {
                            let s0 = before[id].member_seq();
                            if s0.contains(user) {
                                lemma_remove_first_unique(s0, user);
                            }
                        } else {
                            if before.dom().contains(id) {
                                assert(self.tasks@[id2] == self.tasks@.remove(id)[id2]);
                            }
                            assert(rest.contains(id2));
                            let w = choose|w: int| 0 <= w < rest.len() && rest[w] == id2;
                            assert(w != 0);
                            assert(rest.drop_first()[w - 1] == id2);
                        }
                    }
                }
            }
            i = i + 1;
        }
    }
}

/// A join (see `joins_records`) keeps tasks and members in agreement.
proof fn lemma_join_keeps_consistent(
    tasks: Map<u32, Task>,
    members: Map<u64, ProjectMember>,
    tasks2: Map<u32, Task>,
    members2: Map<u64, ProjectMember>,
    id: u32,
    m: u64,
    reaches: bool,
    joined: bool,
)
    requires
        consistent(tasks, members),
        tasks.dom().contains(id),
        tasks2.dom() == tasks.dom(),
        tasks2.remove(id) == tasks.remove(id),
        tasks2[id].project == tasks[id].project,
        joined ==> tasks2[id].member_seq() == tasks[id].member_seq().push(m) && !tasks[id].member_seq().contains(m),
        !joined ==> tasks2[id].member_seq() == tasks[id].member_seq(),
        joins_records(members, members2, m, tasks[id].project@, id, reaches, joined),
    ensures
        consistent(tasks2, members2),
{
    let proj = tasks[id].project@;
    let created = reaches && !members.dom().contains(m);
    assert forall|i: u32| #[trigger] tasks2.dom().contains(i) && i != id implies tasks2[i] == tasks[i] by {
        assert(tasks2[i] == tasks2.remove(id)[i]);
    }
    assert forall|mm: u64| #[trigger] members2.dom().contains(mm) && mm != m implies members.dom().contains(mm)
        && members2[mm] == members[mm] by {
        assert(members2[mm] == members2.remove(m)[mm]);
    }
    assert forall|p: Seq<char>| #[trigger] record_tasks(members, m, p).no_duplicates() by {}
    assert forall|i: u32| #[trigger] tasks2.dom().contains(i) implies tasks2[i].member_seq().no_duplicates() by {
        if i == id && joined {
            let s0 = tasks[id].member_seq();
            assert forall|a: int, b: int| 0 <= a < s0.push(m).len() && 0 <= b < s0.push(m).len() && a != b
                implies s0.push(m)[a] != s0.push(m)[b] by {
                if a == s0.len() {
                    assert(s0[b] != m);
                } else if b == s0.len() {
                    assert(s0[a] != m);
                }
            }
        }
    }
    assert forall|mm: u64, p: Seq<char>| members2.dom().contains(mm) implies (#[trigger] members2[mm].tasks_in(p)).no_duplicates() by {
        if mm == m {
            let bt = record_tasks(members, m, p);
            if joined && p == proj && !bt.contains(id) {
                assert forall|a: int, b: int| 0 <= a < bt.push(id).len() && 0 <= b < bt.push(id).len() && a != b
                    implies bt.push(id)[a] != bt.push(id)[b] by {
                    if a == bt.len() {
                        assert(bt[b] != id);
                    } else if b == bt.len() {
                        assert(bt[a] != id);
                    }
                }
            }
        }
    }
    assert forall|i: u32, mm: u64|
        tasks2.dom().contains(i) && members2.dom().contains(mm) && #[trigger] tasks2[i].member_seq().contains(mm)
            implies members2[mm].tasks_in(tasks2[i].project@).contains(i) by {
        let pi = tasks2[i].project@;
        let in_old = tasks[i].member_seq().contains(mm);
        if !(i == id && mm == m && joined) {
            assert(in_old) by {
                if i == id && joined {
                    let k = choose|k: int| 0 <= k < tasks2[id].member_seq().len() && tasks2[id].member_seq()[k] == mm;
                    assert(k < tasks[id].member_seq().len());
                    assert(tasks[id].member_seq()[k] == mm);
                }
            }
            assert(members.dom().contains(mm));
            assert(members[mm].tasks_in(pi).contains(i));
        }
        if mm == m {
            let bt = record_tasks(members, m, pi);
            if joined && pi == proj {
                if !bt.contains(id) {
                    if i == id {
                        assert(bt.push(id)[bt.len() as int] == id);
                    } else {
                        let k = choose|k: int| 0 <= k < bt.len() && bt[k] == i;
                        assert(bt.push(id)[k] == i);
                    }
                }
            }
        }
    }
    assert forall|mm: u64, p: Seq<char>, i: u32|
        members2.dom().contains(mm) && #[trigger] members2[mm].tasks_in(p).contains(i)
            implies tasks2.dom().contains(i) && tasks2[i].project@ == p && tasks2[i].member_seq().contains(mm) by {
        if mm != m {
            assert(members[mm].tasks_in(p).contains(i));
            if i == id && joined {
                let k = choose|k: int| 0 <= k < tasks[id].member_seq().len() && tasks[id].member_seq()[k] == mm;
                assert(tasks2[id].member_seq()[k] == mm);
            }
        } else {
            let bt = record_tasks(members, m, p);
            if joined && p == proj && i == id {
                assert(tasks2[id].member_seq()[tasks[id].member_seq().len() as int] == m);
            } else {
                assert(bt.contains(i)) by {
                    if joined && p == proj && !bt.contains(id) {
                        let k = choose|k: int| 0 <= k < bt.push(id).len() && bt.push(id)[k] == i;
                        assert(k < bt.len());
                        assert(bt[k] == i);
                    }
                }
                assert(members.dom().contains(m));
                assert(members[m].tasks_in(p).contains(i));
                if i == id && joined {
                    let k = choose|k: int| 0 <= k < tasks[id].member_seq().len() && tasks[id].member_seq()[k] == m;
                    assert(tasks2[id].member_seq()[k] == m);
                }
            }
        }
    }
    assert forall|i: u32, mm: u64| tasks2.dom().contains(i) && #[trigger] tasks2[i].member_seq().contains(mm)
        implies members2.dom().contains(mm) by {
        if !(i == id && mm == m && joined) {
            if i == id && joined {
                let k = choose|k: int| 0 <= k < tasks2[id].member_seq().len() && tasks2[id].member_seq()[k] == mm;
                assert(k < tasks[id].member_seq().len());
                assert(tasks[id].member_seq()[k] == mm);
            }
            assert(tasks[i].member_seq().contains(mm));
            assert(members.dom().contains(mm));
        }
    }
}

proof fn lemma_remove_keeps_consistent(
    tasks: Map<u32, Task>,
    members: Map<u64, ProjectMember>,
    tasks2: Map<u32, Task>,
    members2: Map<u64, ProjectMember>,
    id: u32,
    m: u64,
)
    requires
        consistent(tasks, members),
        tasks.dom().contains(id),
        tasks[id].member_seq().contains(m),
        tasks2.dom() == tasks.dom(),
        tasks2.remove(id) == tasks.remove(id),
        tasks2[id].project == tasks[id].project,
        tasks2[id].member_seq() == remove_first(tasks[id].member_seq(), m),
        members2.dom() == members.dom(),
        members2.remove(m) == members.remove(m),
        members.dom().contains(m) ==> members2[m].tasks_in(tasks[id].project@) == remove_first(
            members[m].tasks_in(tasks[id].project@),
            id,
        ),
        members.dom().contains(m) ==> forall|p: Seq<char>|
            p != tasks[id].project@ ==> #[trigger] members2[m].tasks_in(p) == members[m].tasks_in(p),
    ensures
        consistent(tasks2, members2),
{
    let proj = tasks[id].project@;
    lemma_remove_first_unique(tasks[id].member_seq(), m);
    if members.dom().contains(m) {
        lemma_remove_first_unique(members[m].tasks_in(proj), id);
    }
    assert forall|i: u32| #[trigger] tasks2.dom().contains(i) implies tasks2[i].member_seq().no_duplicates() by {
        if i != id {
            assert(tasks2[i] == tasks2.remove(id)[i]);
        }
    }
    assert forall|mm: u64, p: Seq<char>| members2.dom().contains(mm) implies (#[trigger] members2[mm].tasks_in(p)).no_duplicates() by {
        if mm != m {
            assert(members2[mm] == members2.remove(m)[mm]);
        }
    }
    assert forall|i: u32, mm: u64|
        tasks2.dom().contains(i) && members2.dom().contains(mm) && #[trigger] tasks2[i].member_seq().contains(mm)
            implies members2[mm].tasks_in(tasks2[i].project@).contains(i) by {
        if mm != m {
            assert(members2[mm] == members2.remove(m)[mm]);
        }
        if i == id {
            lemma_remove_first_keeps(tasks[id].member_seq(), m, mm);
            assert(tasks[id].member_seq().contains(mm));
        } else {
            assert(tasks2[i] == tasks2.remove(id)[i]);
            assert(tasks[i].member_seq().contains(mm));
            let pi = tasks[i].project@;
            assert(members[mm].tasks_in(pi).contains(i));
            if mm == m {
                if pi == proj {
                    lemma_remove_first_keeps(members[m].tasks_in(proj), id, i);
                } else {
                    assert(members2[m].tasks_in(pi) == members[m].tasks_in(pi));
                }
            }
        }
    }
    assert forall|mm: u64, p: Seq<char>, i: u32|
        members2.dom().contains(mm) && #[trigger] members2[mm].tasks_in(p).contains(i)
            implies tasks2.dom().contains(i) && tasks2[i].project@ == p && tasks2[i].member_seq().contains(mm) by {
        if mm != m {
            assert(members2[mm] == members2.remove(m)[mm]);
            assert(members[mm].tasks_in(p).contains(i));
            if i == id {
                lemma_remove_first_keeps(tasks[id].member_seq(), m, mm);
            } else {
                assert(tasks2[i] == tasks2.remove(id)[i]);
            }
        } else {
            if p == proj {
                lemma_remove_first_keeps(members[m].tasks_in(proj), id, i);
                assert(members[m].tasks_in(proj).contains(i));
            } else {
                assert(members2[m].tasks_in(p) == members[m].tasks_in(p));
                assert(members[m].tasks_in(p).contains(i));
            }
            assert(tasks[i].project@ == p);
            assert(i != id);
            assert(tasks2[i] == tasks2.remove(id)[i]);
        }
    }
    assert forall|i: u32, mm: u64| tasks2.dom().contains(i) && #[trigger] tasks2[i].member_seq().contains(mm)
        implies members2.dom().contains(mm) by {
        if i == id {
            if mm != m {
                lemma_remove_first_keeps(tasks[id].member_seq(), m, mm);
            }
        } else {
            assert(tasks2[i] == tasks2.remove(id)[i]);
        }
    }
}

proof fn lemma_close_keeps_consistent(
    tasks: Map<u32, Task>,
    members: Map<u64, ProjectMember>,
    tasks2: Map<u32, Task>,
    members2: Map<u64, ProjectMember>,
    id: u32,
)
    requires
        consistent(tasks, members),
        tasks.dom().contains(id),
        tasks2.dom() == tasks.dom(),
        tasks2.remove(id) == tasks.remove(id),
        tasks2[id].project == tasks[id].project,
        tasks2[id].member_seq() == Seq::<u64>::empty(),
        members2.dom() == members.dom(),
        forall|m: u64| #[trigger] members.dom().contains(m) && !tasks[id].member_seq().contains(m) ==> members2[m] == members[m],
        forall|m: u64| #[trigger] members.dom().contains(m) && tasks[id].member_seq().contains(m) ==> {
            &&& members2[m].tasks_in(tasks[id].project@) == remove_first(members[m].tasks_in(tasks[id].project@), id)
            &&& forall|p: Seq<char>| p != tasks[id].project@ ==> #[trigger] members2[m].tasks_in(p) == members[m].tasks_in(p)
        },
    ensures
        consistent(tasks2, members2),
{
    let proj = tasks[id].project@;
    let l = tasks[id].member_seq();
    assert forall|i: u32| #[trigger] tasks2.dom().contains(i) implies tasks2[i].member_seq().no_duplicates() by {
        if i != id {
            assert(tasks2[i] == tasks2.remove(id)[i]);
        }
    }
    assert forall|mm: u64, p: Seq<char>| members2.dom().contains(mm) implies (#[trigger] members2[mm].tasks_in(p)).no_duplicates() by {
        assert(members.dom().contains(mm));
        if l.contains(mm) {
            lemma_remove_first_unique(members[mm].tasks_in(proj), id);
            if p != proj {
                assert(members2[mm].tasks_in(p) == members[mm].tasks_in(p));
            }
        }
    }
    assert forall|i: u32, mm: u64|
        tasks2.dom().contains(i) && members2.dom().contains(mm) && #[trigger] tasks2[i].member_seq().contains(mm)
            implies members2[mm].tasks_in(tasks2[i].project@).contains(i) by {
        assert(members.dom().contains(mm));
        assert(i != id);
        assert(tasks2[i] == tasks2.remove(id)[i]);
        assert(tasks[i].member_seq().contains(mm));
        let pi = tasks[i].project@;
        assert(members[mm].tasks_in(pi).contains(i));
        if l.contains(mm) {
            if pi == proj {
                lemma_remove_first_keeps(members[mm].tasks_in(proj), id, i);
            } else {
                assert(members2[mm].tasks_in(pi) == members[mm].tasks_in(pi));
            }
        }
    }
    assert forall|mm: u64, p: Seq<char>, i: u32|
        members2.dom().contains(mm) && #[trigger] members2[mm].tasks_in(p).contains(i)
            implies tasks2.dom().contains(i) && tasks2[i].project@ == p && tasks2[i].member_seq().contains(mm) by {
        assert(members.dom().contains(mm));
        if l.contains(mm) {
            if p == proj {
                lemma_remove_first_unique(members[mm].tasks_in(proj), id);
                lemma_remove_first_keeps(members[mm].tasks_in(proj), id, i);
                assert(members[mm].tasks_in(proj).contains(i));
            } else {
                assert(members2[mm].tasks_in(p) == members[mm].tasks_in(p));
                assert(members[mm].tasks_in(p).contains(i));
            }
            assert(tasks[i].project@ == p);
        } else {
            assert(members[mm].tasks_in(p).contains(i));
            assert(tasks[i].member_seq().contains(mm));
        }
        assert(i != id);
        assert(tasks2[i] == tasks2.remove(id)[i]);
    }
    assert forall|i: u32, mm: u64| tasks2.dom().contains(i) && #[trigger] tasks2[i].member_seq().contains(mm)
        implies members2.dom().contains(mm) by {
        assert(i != id);
        assert(tasks2[i] == tasks2.remove(id)[i]);
    }
}

/// Consistency depends only on who is in which task of which project.
proof fn lemma_same_rosters(tasks: Map<u32, Task>, members: Map<u64, ProjectMember>, tasks2: Map<u32, Task>)
    requires
        consistent(tasks, members),
        tasks2.dom() == tasks.dom(),
        forall|i: u32| #[trigger] tasks.dom().contains(i) ==> tasks2[i].member_seq() == tasks[i].member_seq()
            && tasks2[i].project == tasks[i].project,
    ensures
        consistent(tasks2, members),
{
    assert forall|i: u32, mm: u64|
        tasks2.dom().contains(i) && members.dom().contains(mm) && #[trigger] tasks2[i].member_seq().contains(mm)
            implies members[mm].tasks_in(tasks2[i].project@).contains(i) by {
        assert(tasks[i].member_seq().contains(mm));
    }
    assert forall|mm: u64, p: Seq<char>, i: u32|
        members.dom().contains(mm) && #[trigger] members[mm].tasks_in(p).contains(i)
            implies tasks2.dom().contains(i) && tasks2[i].project@ == p && tasks2[i].member_seq().contains(mm) by {
        assert(tasks.dom().contains(i));
    }
}

/// A new task without members keeps tasks and members in agreement.
proof fn lemma_new_task_keeps_consistent(
    tasks: Map<u32, Task>,
    members: Map<u64, ProjectMember>,
    tasks2: Map<u32, Task>,
    id: u32,
)
    requires
        consistent(tasks, members),
        !tasks.dom().contains(id),
        tasks2.dom() == tasks.dom().insert(id),
        tasks2.remove(id) == tasks,
        tasks2[id].member_seq().len() == 0,
    ensures
        consistent(tasks2, members),
{
    assert forall|i: u32| #[trigger] tasks2.dom().contains(i) implies tasks2[i].member_seq().no_duplicates() by {
        if i != id {
            assert(tasks2[i] == tasks2.remove(id)[i]);
        }
    }
    assert forall|i: u32, mm: u64|
        tasks2.dom().contains(i) && members.dom().contains(mm) && #[trigger] tasks2[i].member_seq().contains(mm)
            implies members[mm].tasks_in(tasks2[i].project@).contains(i) by {
        if i != id {
            assert(tasks2[i] == tasks2.remove(id)[i]);
        }
    }
    assert forall|mm: u64, p: Seq<char>, i: u32|
        members.dom().contains(mm) && #[trigger] members[mm].tasks_in(p).contains(i)
            implies tasks2.dom().contains(i) && tasks2[i].project@ == p && tasks2[i].member_seq().contains(mm) by {
        assert(tasks.dom().contains(i));
        assert(tasks2[i] == tasks2.remove(id)[i]);
    }
}

/// A member gets into a task of a known project only by holding one of the
/// roles associated with the project: with none of them (in particular
/// when the project has no associated roles, or when the member's roles
/// could not be fetched) a member who is not in the task yet is refused,
/// whatever the room, state or limits.
pub proof fn law_join_needs_a_project_role(
    t: Task,
    projects: Map<Seq<char>, Project>,
    member: u64,
    roles: Option<Seq<u64>>,
    limit: Option<bool>,
)
    requires
        projects.dom().contains(t.project@),
        !t.member_seq().contains(member),
        forall|x: u64| #[trigger] projects[t.project@].associated_roles@.contains(x) ==> match roles {
            Some(r) => !r.contains(x),
            None => true,
        },
    ensures
        !add_outcome(t, member, project_allows(projects, t.project@, roles), limit).succeeded(),
{
    if project_allows(projects, t.project@, roles) {
        let r = roles->0;
        let i = choose|i: int| 0 <= i < r.len() && projects[t.project@].associated_roles@.contains(#[trigger] r[i]);
        assert(r.contains(r[i]));
    }
}

/// A member who holds one of the roles associated with the task's project
/// and may take one more task joins an open task with room that they are
/// not in yet.
pub proof fn law_a_project_role_admits(t: Task, projects: Map<Seq<char>, Project>, member: u64, roles: Seq<u64>, role: u64)
    requires
        projects.dom().contains(t.project@),
        roles.contains(role),
        projects[t.project@].associated_roles@.contains(role),
        t.member_seq().len() < t.max_members.value(),
        !t.member_seq().contains(member),
        !t.finished,
    ensures
        add_outcome(t, member, project_allows(projects, t.project@, Some(roles)), Some(true)) is Joined,
{
    let i = choose|i: int| 0 <= i < roles.len() && roles[i] == role;
    assert(projects[t.project@].associated_roles@.contains(roles[i]));
}

/// A member who joins a task (see `Board::add_member`: its id is added at
/// the end of the task's members, and the task's id at the end of the
/// member's running tasks of the project) and then leaves it (see
/// `Board::remove_member`: the first of each is taken out) leaves both lists
/// as they were; when neither held the other before, which is the case of
/// every join into tasks and members that agree.
pub proof fn law_join_then_leave_restores(members: Seq<u64>, m: u64, running: Seq<u32>, id: u32)
    requires
        !members.contains(m),
        !running.contains(id),
    ensures
        remove_first(members.push(m), m) == members,
        remove_first(running.push(id), id) == running,
{
    lemma_remove_first_at(members.push(m), m, members.len() as int);
    assert(members.push(m).remove(members.len() as int) =~= members);
    lemma_remove_first_at(running.push(id), id, running.len() as int);
    assert(running.push(id).remove(running.len() as int) =~= running);
}

} // verus!
