//! Tasks: forum threads that members join, with settings that moderators
//! may override while the values that the forum tags give stay recorded.
use vstd::prelude::*;
use crate::localization::{localized, Localization};
use crate::maps::{IdMap, KeyMap, MapKey};
use crate::tag::{TaskTag, TagsManager};
use crate::text::{chars_of, decimal, push_all, push_decimal, string_of};
use crate::shop::vec_contains_u64;

verus! {

// ---------------------------------------------------------------------------
// Values with an override and a history
// ---------------------------------------------------------------------------
/// A value that can be copied, the copy having the same view.
pub trait Dup: View + Sized {
    fn dup(&self) -> (r: Self)
        ensures
            r@ == self@,
    ;
}

impl Dup for String {
    fn dup(&self) -> (r: Self) {
        self.clone()
    }
}

impl Dup for i64 {
    fn dup(&self) -> (r: Self) {
        *self
    }
}

impl Dup for u32 {
    fn dup(&self) -> (r: Self) {
        *self
    }
}

impl Dup for Option<u64> {
    fn dup(&self) -> (r: Self) {
        *self
    }
}

impl Dup for Option<i64> {
    fn dup(&self) -> (r: Self) {
        *self
    }
}

impl Dup for Option<String> {
    fn dup(&self) -> (r: Self) {
        match self {
            Some(s) => Some(s.clone()),
            None => None,
        }
    }
}

impl Dup for Vec<u64> {
    fn dup(&self) -> (r: Self) {
        self.clone()
    }
}

/// A task setting: the value that the forum tags give (`base_value`), an
/// optional override set by hand, and every value it took, by time.
pub struct TaskOption<T> {
    pub base_value: T,
    pub modified_value: Option<T>,
    pub value_history: KeyMap<i64, T>,
}

impl<T: Dup> TaskOption<T> {
    /// The value in force: the override if there is one, else the base.
    pub open spec fn value(&self) -> T::V {
        match self.modified_value {
            Some(v) => v@,
            None => self.base_value@,
        }
    }

    /// A setting whose value is `value`, recorded at time `now`.
    pub fn new(value: T, now: i64) -> (o: Self)
        ensures
            o.value() == value@,
            o.base_value@ == value@,
            o.modified_value is None,
            o.value_history@.dom() == set![now],
            o.value_history@[now]@ == value@,
    {
        let mut history = KeyMap::new();
        history.insert(now, value.dup());
        let o = TaskOption { base_value: value, modified_value: None, value_history: history };
        assert(o.value_history@.dom() =~= set![now]);
        o
    }

    /// The value in force.
    pub fn get(&self) -> (r: &T)
        ensures
            r@ == self.value(),
    {
        match &self.modified_value {
            Some(v) => v,
            None => &self.base_value,
        }
    }

    /// Changes the value that the tags give; it is recorded in the history
    /// only when no override hides it.
    pub fn set_base(&mut self, value: T, now: i64)
        ensures
            final(self).base_value@ == value@,
            final(self).modified_value == old(self).modified_value,
            old(self).modified_value is None ==> final(self).value_history@.dom() == old(self).value_history@.dom().insert(now) && final(self).value_history@[now]@ == value@
                && final(self).value_history@.remove(now) == old(self).value_history@.remove(now),
            old(self).modified_value is Some ==> final(self).value_history@ == old(self).value_history@,
            old(self).modified_value is Some ==> final(self).value() == old(self).value(),
            old(self).modified_value is None ==> final(self).value() == value@,
    {
        if self.modified_value.is_none() {
            self.value_history.insert(now, value.dup());
            proof {
                assert(self.value_history@.dom() =~= old(self).value_history@.dom().insert(now));
                assert(self.value_history@.remove(now) =~= old(self).value_history@.remove(now));
            }
        }
        self.base_value = value;
    }

    /// Overrides the value by hand, recording it in the history.
    pub fn set(&mut self, value: T, now: i64)
        ensures
            final(self).value() == value@,
            final(self).base_value == old(self).base_value,
            final(self).value_history@.dom() == old(self).value_history@.dom().insert(now),
            final(self).value_history@[now]@ == value@,
            final(self).value_history@.remove(now) == old(self).value_history@.remove(now),
    {
        self.value_history.insert(now, value.dup());
        self.modified_value = Some(value);
        proof {
            assert(self.value_history@.dom() =~= old(self).value_history@.dom().insert(now));
            assert(self.value_history@.remove(now) =~= old(self).value_history@.remove(now));
        }
    }

    /// Writes the value in force in place (the override if there is one,
    /// else the base), without a history entry.
    pub fn set_current(&mut self, value: T)
        ensures
            final(self).value() == value@,
            final(self).modified_value is Some <==> old(self).modified_value is Some,
            old(self).modified_value is Some ==> final(self).base_value == old(self).base_value,
            final(self).value_history == old(self).value_history,
    {
        if self.modified_value.is_some() {
            self.modified_value = Some(value);
        } else {
            self.base_value = value;
        }
    }
}

// ---------------------------------------------------------------------------
// What the forum tags say about a task
// ---------------------------------------------------------------------------
/// The member limit that the applied tags give: the last registered tag
/// that sets one wins; 10000 when none does.
pub open spec fn tags_max_members(applied: Seq<u64>, tags: Map<u64, TaskTag>) -> u32
    decreases applied.len(),
{
    if applied.len() == 0 {
        10000
    } else if tags.dom().contains(applied.last()) && tags[applied.last()].max_members is Some {
        tags[applied.last()].max_members->0
    } else {
        tags_max_members(applied.drop_last(), tags)
    }
}

/// The score modifier that the applied tags give: the last registered tag
/// that sets one wins; 0 when none does.
pub open spec fn tags_score_modifier(applied: Seq<u64>, tags: Map<u64, TaskTag>) -> i64
    decreases applied.len(),
{
    if applied.len() == 0 {
        0
    } else if tags.dom().contains(applied.last()) && tags[applied.last()].score_modifier is Some {
        tags[applied.last()].score_modifier->0
    } else {
        tags_score_modifier(applied.drop_last(), tags)
    }
}

/// The project that the applied tags move a task to, if any: the last
/// registered tag that names one wins.
pub open spec fn tags_project(applied: Seq<u64>, tags: Map<u64, TaskTag>) -> Option<String>
    decreases applied.len(),
{
    if applied.len() == 0 {
        None
    } else if tags.dom().contains(applied.last()) && tags[applied.last()].task_project is Some {
        tags[applied.last()].task_project
    } else {
        tags_project(applied.drop_last(), tags)
    }
}

/// `<@&role>`, the mention of a role.
pub open spec fn role_mention(role: u64) -> Seq<char> {
    seq!['<', '@', '&'] + decimal(role as nat) + seq!['>']
}

/// `<@user>`, the mention of a user.
pub open spec fn user_mention(user: u64) -> Seq<char> {
    seq!['<', '@'] + decimal(user as nat) + seq!['>']
}

/// The pings of a new task: the waiter role, then, separated by spaces,
/// the ping roles of the registered applied tags.
pub open spec fn roles_ping_text(waiter: Option<u64>, applied: Seq<u64>, tags: Map<u64, TaskTag>) -> Seq<
    char,
>
    decreases applied.len(),
{
    if applied.len() == 0 {
        match waiter {
            Some(r) => role_mention(r),
            None => Seq::empty(),
        }
    } else {
        let rest = roles_ping_text(waiter, applied.drop_last(), tags);
        let id = applied.last();
        if tags.dom().contains(id) && tags[id].ping_role is Some {
            rest + seq![' '] + role_mention(tags[id].ping_role->0)
        } else {
            rest
        }
    }
}

/// The mentions of `members`, each after a space.
pub open spec fn members_ping_text(members: Seq<u64>) -> Seq<char>
    decreases members.len(),
{
    if members.len() == 0 {
        Seq::empty()
    } else {
        members_ping_text(members.drop_last()) + seq![' '] + user_mention(members.last())
    }
}

/// `applied` followed by the tags of `extra` that it lacks (each once).
pub open spec fn with_tags(applied: Seq<u64>, extra: Seq<u64>) -> Seq<u64>
    decreases extra.len(),
{
    if extra.len() == 0 {
        applied
    } else {
        let so_far = with_tags(applied, extra.drop_last());
        if so_far.contains(extra.last()) {
            so_far
        } else {
            so_far.push(extra.last())
        }
    }
}

/// `applied` without the tags of `removed`, in order.
pub open spec fn without_tags(applied: Seq<u64>, removed: Seq<u64>) -> Seq<u64>
    decreases applied.len(),
{
    if applied.len() == 0 {
        applied
    } else {
        let rest = without_tags(applied.drop_last(), removed);
        if removed.contains(applied.last()) {
            rest
        } else {
            rest.push(applied.last())
        }
    }
}

/// The tags of a thread that becomes a task: its tags, then the "in work"
/// tags of its forum that it lacks.
pub fn with_tags_exec(applied: &Vec<u64>, extra: &Vec<u64>) -> (r: Vec<u64>)
    ensures
        r@ == with_tags(applied@, extra@),
{
    let mut r = applied.clone();
    let mut i: usize = 0;
    assert(extra@.subrange(0, 0) =~= Seq::<u64>::empty());
    while i < extra.len()
        invariant
            i <= extra@.len(),
            r@ == with_tags(applied@, extra@.subrange(0, i as int)),
        decreases extra@.len() - i,
    {
        proof {
            assert(extra@.subrange(0, i + 1).drop_last() =~= extra@.subrange(0, i as int));
        }
        if !vec_contains_u64(&r, extra[i]) {
            r.push(extra[i]);
        }
        i = i + 1;
    }
    assert(extra@.subrange(0, extra@.len() as int) =~= extra@);
    r
}

/// The tags of a reopened task: its tags without the "closed" ones.
pub fn without_tags_exec(applied: &Vec<u64>, removed: &Vec<u64>) -> (r: Vec<u64>)
    ensures
        r@ == without_tags(applied@, removed@),
{
    let mut r: Vec<u64> = Vec::new();
    let mut i: usize = 0;
    assert(applied@.subrange(0, 0) =~= Seq::<u64>::empty());
    while i < applied.len()
        invariant
            i <= applied@.len(),
            r@ == without_tags(applied@.subrange(0, i as int), removed@),
        decreases applied@.len() - i,
    {
        proof {
            assert(applied@.subrange(0, i + 1).drop_last() =~= applied@.subrange(0, i as int));
        }
        if !vec_contains_u64(removed, applied[i]) {
            r.push(applied[i]);
        }
        i = i + 1;
    }
    assert(applied@.subrange(0, applied@.len() as int) =~= applied@);
    r
}

fn push_role_mention(out: &mut Vec<char>, role: u64)
    ensures
        final(out)@ == old(out)@ + role_mention(role),
{
    out.push('<');
    out.push('@');
    out.push('&');
    push_decimal(out, role);
    out.push('>');
    assert(out@ =~= old(out)@ + role_mention(role));
}

fn push_user_mention(out: &mut Vec<char>, user: u64)
    ensures
        final(out)@ == old(out)@ + user_mention(user),
{
    out.push('<');
    out.push('@');
    push_decimal(out, user);
    out.push('>');
    assert(out@ =~= old(out)@ + user_mention(user));
}

// ---------------------------------------------------------------------------
// Tasks
// ---------------------------------------------------------------------------
/// What an attempt to add a member to a task came to.
pub enum AddMemberOutcome {
    /// The task has as many members as it takes.
    Full,
    /// The member was in the task already (this counts as success).
    AlreadyMember,
    /// The task is closed.
    Closed,
    /// The member does not take part in the task's project.
    NotInProject,
    /// The member works on as many tasks of the project as allowed.
    OverTaskLimit,
    /// The member was added; `record_joined` tells whether the member's own
    /// record was updated, `now_full` whether the task became full.
    Joined { record_joined: bool, now_full: bool },
}

impl AddMemberOutcome {
    /// Whether the member is in the task afterwards.
    pub open spec fn succeeded(self) -> bool {
        self is AlreadyMember || self is Joined
    }

    /// Whether the member is in the task afterwards.
    pub fn is_success(&self) -> (r: bool)
        ensures
            r == self.succeeded(),
    {
        match self {
            AddMemberOutcome::AlreadyMember => true,
            AddMemberOutcome::Joined { .. } => true,
            _ => false,
        }
    }
}

/// What a change of the member limit should be announced as.
pub enum MembersNotice {
    /// The task is now full.
    Filled,
    /// The task was full and now has room again.
    Unfilled,
    /// Nothing beyond the new limit.
    Unchanged,
}

/// A task: a forum thread that members join, with its settings and the
/// times it changed.
pub struct Task {
    pub id: u32,
    pub project: String,
    pub thread_id: u64,
    pub finished: bool,
    pub name: TaskOption<String>,
    pub score: TaskOption<i64>,
    pub max_members: TaskOption<u32>,
    pub mentor_id: TaskOption<Option<u64>>,
    pub members: TaskOption<Vec<u64>>,
    pub start_date: Option<i64>,
    pub end_date: TaskOption<Option<i64>>,
    pub last_save: TaskOption<Option<String>>,
}

/// What `Task::add_member` comes to (see there).
pub open spec fn add_outcome(
    t: Task,
    member: u64,
    project_allows: bool,
    member_limit_ok: Option<bool>,
) -> AddMemberOutcome {
    if t.member_seq().len() >= t.max_members.value() {
        AddMemberOutcome::Full
    } else if t.member_seq().contains(member) {
        AddMemberOutcome::AlreadyMember
    } else if t.finished {
        AddMemberOutcome::Closed
    } else if !project_allows {
        AddMemberOutcome::NotInProject
    } else if member_limit_ok == Some(false) {
        AddMemberOutcome::OverTaskLimit
    } else {
        AddMemberOutcome::Joined {
            record_joined: member_limit_ok is Some,
            now_full: t.member_seq().len() + 1 == t.max_members.value(),
        }
    }
}

/// Whether adding `member` to `t` gets as far as the member's limit of
/// tasks (see `add_outcome`): the task has room, does not hold the member,
/// is open, and its project admits the member.
pub open spec fn reaches_limit_check(t: Task, member: u64, project_allows: bool) -> bool {
    &&& t.member_seq().len() < t.max_members.value()
    &&& !t.member_seq().contains(member)
    &&& !t.finished
    &&& project_allows
}

impl Task {
    /// The members of the task, in the order they joined.
    pub open spec fn member_seq(&self) -> Seq<u64> {
        self.members.value()
    }

    /// A task made from thread `thread_id` named `name`, opened at
    /// `start_date` where the thread has a creation time; its member limit, score and project are then taken
    /// from the applied tags (see `fetch_tags`).
    pub fn new(
        id: u32,
        project: String,
        thread_id: u64,
        name: String,
        start_date: Option<i64>,
        applied_tags: &Vec<u64>,
        tags: &TagsManager,
        now: i64,
    ) -> (t: Self)
        ensures
            t.id == id,
            t.thread_id == thread_id,
            !t.finished,
            t.name.value() == name@,
            t.score.value() == tags_score_modifier(applied_tags@, tags.tags@),
            t.max_members.value() == tags_max_members(applied_tags@, tags.tags@),
            t.mentor_id.value() == None::<u64>,
            t.member_seq() == Seq::<u64>::empty(),
            t.start_date == start_date,
            t.end_date.value() == None::<i64>,
            t.last_save.value() == None::<String>,
            t.project@ == match tags_project(applied_tags@, tags.tags@) {
                Some(p) => p@,
                None => project@,
            },
    {
        let mut t = Task {
            id,
            project,
            thread_id,
            finished: false,
            name: TaskOption::new(name, now),
            score: TaskOption::new(0, now),
            max_members: TaskOption::new(10000, now),
            mentor_id: TaskOption::new(None, now),
            members: TaskOption::new(Vec::new(), now),
            start_date,
            end_date: TaskOption::new(None, now),
            last_save: TaskOption::new(None, now),
        };
        t.fetch_tags(applied_tags, tags, now);
        t
    }

    /// Takes the member limit, the score and the project from the tags
    /// applied to the task's thread (the last registered tag that sets a
    /// value wins; limit 10000 and score 0 when none does; the project is
    /// kept when no tag names one).  Overrides set by hand stay in force.
    pub fn fetch_tags(&mut self, applied_tags: &Vec<u64>, tags: &TagsManager, now: i64)
        ensures
            final(self).max_members.base_value@ == tags_max_members(applied_tags@, tags.tags@),
            final(self).score.base_value@ == tags_score_modifier(applied_tags@, tags.tags@),
            final(self).max_members.modified_value == old(self).max_members.modified_value,
            final(self).score.modified_value == old(self).score.modified_value,
            old(self).max_members.modified_value is None ==> final(self).max_members.value()
                == tags_max_members(applied_tags@, tags.tags@),
            old(self).score.modified_value is None ==> final(self).score.value()
                == tags_score_modifier(applied_tags@, tags.tags@),
            final(self).project@ == match tags_project(applied_tags@, tags.tags@) {
                Some(p) => p@,
                None => old(self).project@,
            },
            final(self).id == old(self).id,
            final(self).thread_id == old(self).thread_id,
            final(self).finished == old(self).finished,
            final(self).name == old(self).name,
            final(self).mentor_id == old(self).mentor_id,
            final(self).members == old(self).members,
            final(self).start_date == old(self).start_date,
            final(self).end_date == old(self).end_date,
            final(self).last_save == old(self).last_save,
    {
        let mut max_members: u32 = 10000;
        let mut score_modifier: i64 = 0;
        let mut project: Option<String> = None;
        let mut i: usize = 0;
        assert(applied_tags@.subrange(0, 0) =~= Seq::<u64>::empty());
        while i < applied_tags.len()
            invariant
                i <= applied_tags@.len(),
                max_members == tags_max_members(applied_tags@.subrange(0, i as int), tags.tags@),
                score_modifier == tags_score_modifier(
                    applied_tags@.subrange(0, i as int),
                    tags.tags@,
                ),
                project == tags_project(applied_tags@.subrange(0, i as int), tags.tags@),
            decreases applied_tags@.len() - i,
        {
            proof {
                assert(applied_tags@.subrange(0, i + 1).drop_last() =~= applied_tags@.subrange(
                    0,
                    i as int,
                ));
            }
            match tags.get(applied_tags[i]) {
                Some(tag) => {
                    match tag.max_members {
                        Some(n) => {
                            max_members = n;
                        },
                        None => {},
                    }
                    match tag.score_modifier {
                        Some(n) => {
                            score_modifier = n;
                        },
                        None => {},
                    }
                    match &tag.task_project {
                        Some(p) => {
                            project = Some(p.clone());
                        },
                        None => {},
                    }
                },
                None => {},
            }
            i = i + 1;
        }
        proof {
            assert(applied_tags@.subrange(0, applied_tags@.len() as int) =~= applied_tags@);
        }
        match project {
            Some(p) => {
                self.project = p;
            },
            None => {},
        }
        self.max_members.set_base(max_members, now);
        self.score.set_base(score_modifier, now);
    }

    /// Whether adding `member` gets as far as the member's limit of tasks
    /// (see `reaches_limit_check`).
    pub fn reaches_limit_check(&self, member: u64, project_allows: bool) -> (r: bool)
        ensures
            r == reaches_limit_check(*self, member, project_allows),
    {
        let len = self.members.get().len();
        len < *self.max_members.get() as usize && !vec_contains_u64(self.members.get(), member) && !self.finished
            && project_allows
    }

    /// Tries to add `member`.  `project_allows` tells whether the member
    /// takes part in the task's project (true when the project is unknown);
    /// `member_limit_ok` tells whether the member may take one more task of
    /// the project (`None` when the member's record could not be had, in
    /// which case no limit is checked and no record is updated).
    pub fn add_member(&mut self, member: u64, project_allows: bool, member_limit_ok: Option<
        bool,
    >) -> (r: AddMemberOutcome)
        ensures
            r == add_outcome(*old(self), member, project_allows, member_limit_ok),
            r is Joined ==> final(self).member_seq() == old(self).member_seq().push(member),
            !(r is Joined) ==> *final(self) == *old(self),
            final(self).members.value_history == old(self).members.value_history,
            final(self).members.modified_value is Some <==> old(self).members.modified_value is Some,
            final(self).id == old(self).id,
            final(self).project == old(self).project,
            final(self).thread_id == old(self).thread_id,
            final(self).finished == old(self).finished,
            final(self).max_members == old(self).max_members,
            final(self).mentor_id == old(self).mentor_id,
            final(self).score == old(self).score,
            final(self).name == old(self).name,
            final(self).start_date == old(self).start_date,
            final(self).end_date == old(self).end_date,
            final(self).last_save == old(self).last_save,
    {
        let len = self.members.get().len();
        if len as u64 >= *self.max_members.get() as u64 {
            return AddMemberOutcome::Full;
        }
        if vec_contains_u64(self.members.get(), member) {
            return AddMemberOutcome::AlreadyMember;
        }
        if self.finished {
            return AddMemberOutcome::Closed;
        }
        if !project_allows {
            return AddMemberOutcome::NotInProject;
        }
        let record_joined = match member_limit_ok {
            Some(false) => {
                return AddMemberOutcome::OverTaskLimit;
            },
            Some(true) => true,
            None => false,
        };
        let mut list = self.members.get().dup();
        list.push(member);
        self.members.set_current(list);
        let now_full = len as u64 + 1 == *self.max_members.get() as u64;
        AddMemberOutcome::Joined { record_joined, now_full }
    }

    /// Removes `member`; returns `None` when not a member, otherwise
    /// whether the mentor had to be cleared (the member was the mentor of
    /// an open task) and whether the task has room again.
    pub fn remove_member(&mut self, member: u64, now: i64) -> (r: Option<(bool, bool)>)
        ensures
            !old(self).member_seq().contains(member) ==> r is None && *final(self) == *old(self),
            old(self).member_seq().contains(member) ==> r is Some && final(self).member_seq()
                == crate::member::remove_first(old(self).member_seq(), member) && (r->0).0 == (
            old(self).mentor_id.value() == Some(member) && !old(self).finished) && (r->0).1 == (
            final(self).member_seq().len() + 1 == old(self).max_members.value()) && ((r->0).0
                ==> final(self).mentor_id.value() == None::<u64>) && (!(r->0).0
                ==> final(self).mentor_id == old(self).mentor_id),
            final(self).id == old(self).id,
            final(self).project == old(self).project,
            final(self).finished == old(self).finished,
            final(self).max_members == old(self).max_members,
            final(self).score == old(self).score,
    {
        let mut list = self.members.get().dup();
        let i = match crate::member::position_of_u64(&list, member) {
            Some(i) => i,
            None => {
                return None;
            },
        };
        proof {
            crate::member::lemma_remove_first_at(list@, member, i as int);
        }
        let total = list.len();
        list.remove(i);
        self.members.set_current(list);
        let mut cleared = false;
        if *self.mentor_id.get() == Some(member) && !self.finished {
            self.mentor_id.set(None, now);
            cleared = true;
        }
        let unfilled = total as u64 == *self.max_members.get() as u64;
        Some((cleared, unfilled))
    }

    /// Sets the mentor.  A closed task refuses; a new mentor who is not a
    /// member yet is first added (with the same checks as `add_member`),
    /// and a refusal there refuses the change.  Returns whether the mentor
    /// changed, and the outcome of the attempt to add, if one was made.
    pub fn set_mentor(
        &mut self,
        mentor: Option<u64>,
        now: i64,
        project_allows: bool,
        member_limit_ok: Option<bool>,
    ) -> (r: (bool, Option<AddMemberOutcome>))
        ensures
            old(self).finished ==> r == (false, None::<AddMemberOutcome>) && *final(self) == *old(self),
            !old(self).finished ==> match mentor {
                Some(id) if !old(self).member_seq().contains(id) => r.1 is Some && (r.0 <==> (
                r.1->0).succeeded()),
                _ => r.0 && r.1 is None && final(self).member_seq() == old(self).member_seq(),
            },
            r.0 ==> final(self).mentor_id.value() == mentor,
            !r.0 ==> final(self).mentor_id == old(self).mentor_id,
            !r.0 ==> *final(self) == *old(self),
            final(self).id == old(self).id,
            final(self).project == old(self).project,
            final(self).finished == old(self).finished,
            final(self).max_members == old(self).max_members,
            r.1 is Some ==> mentor is Some && r.1->0 == add_outcome(*old(self), mentor->0, project_allows, member_limit_ok),
            r.1 matches Some(AddMemberOutcome::Joined { .. }) ==> final(self).member_seq() == old(self).member_seq().push(mentor->0),
            !(r.1 matches Some(AddMemberOutcome::Joined { .. })) ==> final(self).member_seq() == old(self).member_seq(),
    {
        if self.finished {
            return (false, None);
        }
        let mut attempt: Option<AddMemberOutcome> = None;
        match mentor {
            Some(id) => {
                if !vec_contains_u64(self.members.get(), id) {
                    let outcome = self.add_member(id, project_allows, member_limit_ok);
                    if !outcome.is_success() {
                        return (false, Some(outcome));
                    }
                    attempt = Some(outcome);
                }
            },
            None => {},
        }
        self.mentor_id.set(mentor, now);
        (true, attempt)
    }

    /// Closes the task at time `now`: it is marked finished, loses its
    /// members and mentor, and gets `now` as its end date.  Returns `None`
    /// when it was closed already, otherwise its members and mentor as they
    /// were (whose records the caller credits).
    pub fn close(&mut self, now: i64) -> (r: Option<(Vec<u64>, Option<u64>)>)
        ensures
            old(self).finished ==> r is None && *final(self) == *old(self),
            !old(self).finished ==> r is Some && (r->0).0@ == old(self).member_seq() && (r->0).1
                == old(self).mentor_id.value() && final(self).finished && final(self).member_seq()
                == Seq::<u64>::empty() && final(self).mentor_id.value() == None::<u64>
                && final(self).end_date.value() == Some(now),
            final(self).id == old(self).id,
            final(self).project == old(self).project,
            final(self).max_members == old(self).max_members,
            final(self).score == old(self).score,
            final(self).thread_id == old(self).thread_id,
            final(self).name == old(self).name,
            final(self).start_date == old(self).start_date,
            final(self).last_save == old(self).last_save,
    {
        if self.finished {
            return None;
        }
        let members = self.members.get().dup();
        let mentor = *self.mentor_id.get();
        self.finished = true;
        self.members.set_current(Vec::new());
        self.mentor_id.set(None, now);
        self.end_date.set(Some(now), now);
        Some((members, mentor))
    }

    /// Reopens a closed task: it is no longer finished and has no end date.
    /// Returns whether it was closed.
    pub fn open(&mut self, now: i64) -> (r: bool)
        ensures
            r == old(self).finished,
            !r ==> *final(self) == *old(self),
            r ==> !final(self).finished && final(self).end_date.value() == None::<i64>
                && final(self).member_seq() == old(self).member_seq() && final(self).mentor_id
                == old(self).mentor_id,
            final(self).id == old(self).id,
            final(self).project == old(self).project,
            final(self).thread_id == old(self).thread_id,
            final(self).name == old(self).name,
            final(self).score == old(self).score,
            final(self).max_members == old(self).max_members,
            final(self).members == old(self).members,
            final(self).start_date == old(self).start_date,
            final(self).last_save == old(self).last_save,
    {
        if !self.finished {
            return false;
        }
        self.finished = false;
        self.end_date.set(None, now);
        true
    }

    /// Sets the last save; returns whether it is to be announced (the task
    /// is full).
    pub fn set_last_save(&mut self, last_save: Option<String>, now: i64) -> (announce: bool)
        ensures
            final(self).last_save.value() == last_save,
            announce == (old(self).member_seq().len() >= old(self).max_members.value()),
            final(self).members == old(self).members,
            final(self).finished == old(self).finished,
    {
        self.last_save.set(last_save, now);
        self.members.get().len() as u64 >= *self.max_members.get() as u64
    }

    /// Overrides the member limit; says how the change is to be announced.
    pub fn set_max_members(&mut self, max_members: u32, now: i64) -> (n: MembersNotice)
        ensures
            final(self).max_members.value() == max_members,
            final(self).max_members.base_value == old(self).max_members.base_value,
            final(self).members == old(self).members,
            final(self).id == old(self).id,
            final(self).project == old(self).project,
            final(self).thread_id == old(self).thread_id,
            final(self).finished == old(self).finished,
            final(self).name == old(self).name,
            final(self).score == old(self).score,
            final(self).mentor_id == old(self).mentor_id,
            final(self).start_date == old(self).start_date,
            final(self).end_date == old(self).end_date,
            final(self).last_save == old(self).last_save,
            old(self).member_seq().len() >= max_members ==> n is Filled,
            old(self).member_seq().len() < max_members && old(self).member_seq().len() >= old(self).max_members.value() ==> n is Unfilled,
            old(self).member_seq().len() < max_members && old(self).member_seq().len() < old(self).max_members.value() ==> n is Unchanged,
    {
        let old_max = *self.max_members.get();
        self.max_members.set(max_members, now);
        let len = self.members.get().len() as u64;
        if len >= max_members as u64 {
            MembersNotice::Filled
        } else if len >= old_max as u64 {
            MembersNotice::Unfilled
        } else {
            MembersNotice::Unchanged
        }
    }

    /// Overrides the score; returns the previous score when it changed
    /// (nothing happens when it is the same).
    pub fn set_score(&mut self, score: i64, now: i64) -> (prev: Option<i64>)
        ensures
            old(self).score.value() == score ==> prev is None && *final(self) == *old(self),
            old(self).score.value() != score ==> prev == Some(old(self).score.value()) && final(self).score.value() == score,
            final(self).score.base_value == old(self).score.base_value,
            final(self).members == old(self).members,
            final(self).finished == old(self).finished,
            final(self).id == old(self).id,
            final(self).project == old(self).project,
            final(self).thread_id == old(self).thread_id,
            final(self).name == old(self).name,
            final(self).max_members == old(self).max_members,
            final(self).mentor_id == old(self).mentor_id,
            final(self).start_date == old(self).start_date,
            final(self).end_date == old(self).end_date,
            final(self).last_save == old(self).last_save,
    {
        let old_score = *self.score.get();
        if old_score == score {
            return None;
        }
        self.score.set(score, now);
        Some(old_score)
    }

    /// The member whose score is asked for first when the task is closed
    /// by hand: none when only the mentor's score is due (the members are
    /// just the mentor, or there are none), otherwise the first member who
    /// is not the mentor.
    pub fn first_to_rate(&self) -> (r: Option<u64>)
        ensures
            ({
                let due = if self.mentor_id.value() is Some {
                    1int
                } else {
                    0int
                };
                let ms = self.member_seq();
                &&& due == ms.len() ==> r is None
                &&& due != ms.len() ==> match r {
                    Some(m) => exists|i: int| 0 <= i < ms.len() && ms[i] == m && Some(m) != self.mentor_id.value()
                        && forall|j: int| 0 <= j < i ==> Some(#[trigger] ms[j]) == self.mentor_id.value(),
                    None => forall|i: int| 0 <= i < ms.len() ==> Some(#[trigger] ms[i]) == self.mentor_id.value(),
                }
            }),
    {
        let mentor = *self.mentor_id.get();
        let members = self.members.get();
        let due: usize = if mentor.is_some() {
            1
        } else {
            0
        };
        if due == members.len() {
            return None;
        }
        let mut i: usize = 0;
        while i < members.len()
            invariant
                i <= members@.len(),
                mentor == self.mentor_id.value(),
                members@ == self.member_seq(),
                due == (if mentor is Some { 1usize } else { 0usize }),
                due != members@.len(),
                forall|j: int| 0 <= j < i ==> Some(#[trigger] members@[j]) == mentor,
            decreases members@.len() - i,
        {
            let m = members[i];
            if Some(m) != mentor {
                assert(members@[i as int] == m);
                return Some(m);
            }
            i = i + 1;
        }
        None
    }

    /// The member whose score is asked for after `user`'s was given while
    /// closing the task: the one after the first place of `user` among the
    /// members; none when `user` is the last member or not a member.
    pub fn next_to_rate(&self, user: u64) -> (r: Option<u64>)
        ensures
            ({
                let ms = self.member_seq();
                match r {
                    Some(m) => exists|i: int|
                        0 <= i && i + 1 < ms.len() && #[trigger] ms[i] == user && ms[i + 1] == m
                            && !ms.take(i).contains(user),
                    None => forall|i: int| 0 <= i && i + 1 < ms.len() ==> #[trigger] ms[i] != user,
                }
            }),
    {
        let members = self.members.get();
        let mut i: usize = 0;
        while i < members.len()
            invariant
                i <= members@.len(),
                members@ == self.member_seq(),
                !members@.take(i as int).contains(user),
            decreases members@.len() - i,
        {
            if members[i] == user {
                if i + 1 < members.len() {
                    assert(members@[i as int] == user);
                    return Some(members[i + 1]);
                }
                assert forall|k: int| 0 <= k && k + 1 < members@.len() implies #[trigger] members@[k] != user by {
                    assert(k < i);
                    assert(members@.take(i as int)[k] == members@[k]);
                }
                return None;
            }
            assert(members@.take(i + 1) =~= members@.take(i as int).push(members@[i as int]));
            i = i + 1;
        }
        assert(members@.take(i as int) =~= members@);
        assert forall|k: int| 0 <= k && k + 1 < members@.len() implies #[trigger] members@[k] != user by {
            assert(members@.take(i as int)[k] == members@[k]);
        }
        None
    }

    /// The mentions of the members, each after a space; the text of
    /// `task-no-ping` when there are none.
    pub fn get_members_ping(&self, loc: &Localization) -> (r: String)
        ensures
            self.member_seq().len() == 0 ==> r@ == localized(
                loc.entries(),
                "task-no-ping"@,
                Seq::empty(),
            ),
            self.member_seq().len() > 0 ==> r@ == members_ping_text(self.member_seq()),
    {
        let members = self.members.get();
        if members.len() == 0 {
            return loc.get_string("task-no-ping", None);
        }
        let mut out: Vec<char> = Vec::new();
        let mut i: usize = 0;
        while i < members.len()
            invariant
                i <= members@.len(),
                out@ == members_ping_text(members@.subrange(0, i as int)),
            decreases members@.len() - i,
        {
            proof {
                assert(members@.subrange(0, i + 1).drop_last() =~= members@.subrange(0, i as int));
            }
            out.push(' ');
            push_user_mention(&mut out, members[i]);
            proof {
                assert(out@ =~= members_ping_text(members@.subrange(0, i + 1)));
            }
            i = i + 1;
        }
        assert(members@.subrange(0, members@.len() as int) =~= members@);
        string_of(&out)
    }
}

/// The pings for a new task made from a thread with `applied_tags`: the
/// waiter role, then the ping roles of the applied tags; `None` when there
/// is nobody to ping.
pub fn get_roles_ping(applied_tags: &Vec<u64>, waiter_role: Option<u64>, tags: &TagsManager) -> (r:
    Option<String>)
    ensures
        match r {
            Some(s) => s@ == roles_ping_text(waiter_role, applied_tags@, tags.tags@) && s@.len()
                > 0,
            None => roles_ping_text(waiter_role, applied_tags@, tags.tags@).len() == 0,
        },
{
    let mut out: Vec<char> = Vec::new();
    match waiter_role {
        Some(role) => {
            push_role_mention(&mut out, role);
        },
        None => {},
    }
    let mut i: usize = 0;
    assert(applied_tags@.subrange(0, 0) =~= Seq::<u64>::empty());
    assert(out@ =~= roles_ping_text(waiter_role, Seq::empty(), tags.tags@));
    while i < applied_tags.len()
        invariant
            i <= applied_tags@.len(),
            out@ == roles_ping_text(waiter_role, applied_tags@.subrange(0, i as int), tags.tags@),
        decreases applied_tags@.len() - i,
    {
        proof {
            assert(applied_tags@.subrange(0, i + 1).drop_last() =~= applied_tags@.subrange(
                0,
                i as int,
            ));
        }
        match tags.get(applied_tags[i]) {
            Some(tag) => {
                match tag.ping_role {
                    Some(role) => {
                        out.push(' ');
                        push_role_mention(&mut out, role);
                        proof {
                            assert(out@ =~= roles_ping_text(
                                waiter_role,
                                applied_tags@.subrange(0, i + 1),
                                tags.tags@,
                            ));
                        }
                    },
                    None => {},
                }
            },
            None => {},
        }
        i = i + 1;
    }
    assert(applied_tags@.subrange(0, applied_tags@.len() as int) =~= applied_tags@);
    if out.len() == 0 {
        None
    } else {
        Some(string_of(&out))
    }
}

// ---------------------------------------------------------------------------
// All tasks
// ---------------------------------------------------------------------------
/// The tasks, by id, and the last id handed out.
pub struct TaskManager {
    tasks: IdMap<Task>,
    last_task_id: u32,
}

impl TaskManager {
    #[verifier::type_invariant]
    closed spec fn ids_match(self) -> bool {
        &&& forall|k: u64| #[trigger]
            self.tasks@.dom().contains(k) ==> self.tasks@[k].id as u64 == k
        &&& forall|k: u64| #[trigger] self.tasks@.dom().contains(k) ==> k <= self.last_task_id
    }

    /// The tasks, by id.
    pub closed spec fn view(&self) -> Map<u32, Task> {
        Map::new(
            |id: u32| self.tasks@.dom().contains(id as u64),
            |id: u32| self.tasks@[id as u64],
        )
    }

    /// The last id handed out.
    pub closed spec fn last_id(&self) -> u32 {
        self.last_task_id
    }

    /// The last id handed out.
    pub fn last_task_id(&self) -> (r: u32)
        ensures
            r == self.last_id(),
    {
        self.last_task_id
    }

    /// A manager with no tasks.
    pub fn new() -> (m: Self)
        ensures
            m@ == Map::<u32, Task>::empty(),
            m.last_id() == 0,
    {
        let m = TaskManager { tasks: IdMap::new(), last_task_id: 0 };
        assert(m@ =~= Map::<u32, Task>::empty());
        m
    }

    /// Every stored task is stored under its own id, which is at most the
    /// last id handed out.
    pub fn ids_are_keys(&self)
        ensures
            forall|id: u32| #[trigger] self@.dom().contains(id) ==> self@[id].id == id && id
                <= self.last_id(),
    {
        proof {
            use_type_invariant(self);
        }
    }

    /// Stores a task read from the data files; the last id handed out
    /// grows to cover it.
    pub fn insert_loaded(&mut self, task: Task)
        ensures
            final(self)@ == old(self)@.insert(task.id, task),
            final(self).last_id() == if task.id > old(self).last_id() {
                task.id
            } else {
                old(self).last_id()
            },
    {
        proof {
            use_type_invariant(&*self);
        }
        let id = task.id;
        let last = if id > self.last_task_id {
            id
        } else {
            self.last_task_id
        };
        let mut m = IdMap::new();
        std::mem::swap(&mut m, &mut self.tasks);
        m.insert(id as u64, task);
        self.last_task_id = last;
        self.tasks = m;
        proof {
            assert(self@ =~= old(self)@.insert(id, task));
        }
    }

    /// Makes a task from a thread and stores it under the next id; the
    /// task starts at the thread's creation time, where its metadata has
    /// one.  A channel without thread metadata is not a thread and is
    /// refused.
    pub fn new_task(
        &mut self,
        project: String,
        thread_id: u64,
        thread_name: String,
        thread_metadata: Option<Option<i64>>,
        applied_tags: &Vec<u64>,
        tags: &TagsManager,
        now: i64,
    ) -> (r: Result<u32, String>)
        requires
            old(self).last_id() < u32::MAX,
        ensures
            thread_metadata is None ==> r is Err && final(self)@ == old(self)@ && final(self).last_id() == old(self).last_id() && r->Err_0@ == no_thread_message(),
            thread_metadata is Some ==> r == Ok::<u32, String>((old(self).last_id() + 1) as u32)
                && final(self).last_id() == old(self).last_id() + 1 && !old(self)@.dom().contains(
                r->Ok_0,
            ) && final(self)@.dom() == old(self)@.dom().insert(r->Ok_0) && final(self)@.remove(
                r->Ok_0,
            ) == old(self)@ && final(self)@[r->Ok_0].thread_id == thread_id && final(self)@[r->Ok_0].member_seq().len() == 0 && !final(self)@[r->Ok_0].finished
                && final(self)@[r->Ok_0].start_date == thread_metadata->Some_0 && final(self)@[r->Ok_0].name.value() == thread_name@,
    {
        proof {
            use_type_invariant(&*self);
        }
        let start = match thread_metadata {
            Some(d) => d,
            None => {
                let msg = string_of(&chars_of("no found thread metadata, maybe its not a thread"));
                return Err(msg);
            },
        };
        let id = self.last_task_id + 1;
        let task = Task::new(id, project, thread_id, thread_name, start, applied_tags, tags, now);
        let mut m = IdMap::new();
        std::mem::swap(&mut m, &mut self.tasks);
        m.insert(id as u64, task);
        self.last_task_id = id;
        self.tasks = m;
        proof {
            assert(!old(self)@.dom().contains(id));
            assert(self@.dom() =~= old(self)@.dom().insert(id));
            assert(self@.remove(id) =~= old(self)@);
        }
        Ok(id)
    }

    /// Task `id`.
    pub fn get(&self, id: u32) -> (r: Option<&Task>)
        ensures
            match r {
                Some(t) => self@.dom().contains(id) && self@[id] == *t,
                None => !self@.dom().contains(id),
            },
    {
        self.tasks.get(&(id as u64))
    }

    /// Takes task `id` out (to change it and put it back with `put`).
    pub fn take(&mut self, id: u32) -> (r: Option<Task>)
        ensures
            final(self)@ == old(self)@.remove(id),
            final(self).last_id() == old(self).last_id(),
            match r {
                Some(t) => old(self)@.dom().contains(id) && old(self)@[id] == t,
                None => !old(self)@.dom().contains(id),
            },
    {
        proof {
            use_type_invariant(&*self);
        }
        let mut m = IdMap::new();
        std::mem::swap(&mut m, &mut self.tasks);
        let r = m.remove(&(id as u64));
        self.tasks = m;
        proof {
            assert(self@ =~= old(self)@.remove(id));
        }
        r
    }

    /// Puts back a task taken out with `take`.
    pub fn put(&mut self, task: Task)
        requires
            task.id <= old(self).last_id(),
        ensures
            final(self)@ == old(self)@.insert(task.id, task),
            final(self).last_id() == old(self).last_id(),
    {
        proof {
            use_type_invariant(&*self);
        }
        let id = task.id;
        let mut m = IdMap::new();
        std::mem::swap(&mut m, &mut self.tasks);
        m.insert(id as u64, task);
        self.tasks = m;
        proof {
            assert(self@ =~= old(self)@.insert(id, task));
        }
    }

    /// The task made from thread `thread_id`, if any.
    pub fn get_thread(&self, thread_id: u64) -> (r: Option<&Task>)
        ensures
            match r {
                Some(t) => t.thread_id == thread_id && self@.dom().contains(t.id) && self@[t.id]
                    == *t,
                None => forall|id: u32|
                    #[trigger] self@.dom().contains(id) ==> self@[id].thread_id != thread_id,
            },
    {
        proof {
            use_type_invariant(self);
        }
        self.tasks.lemma_seqs();
        let n = self.tasks.len();
        let mut i: usize = 0;
        while i < n
            invariant
                n == self.tasks.key_seq().len(),
                n == self.tasks.value_seq().len(),
                i <= n,
                forall|j: int| 0 <= j < i ==> #[trigger] self.tasks.value_seq()[j].thread_id != thread_id,
            decreases n - i,
        {
            let (k, t) = self.tasks.entry_at(i);
            if t.thread_id == thread_id {
                self.tasks.lemma_seqs();
                proof {
                    use_type_invariant(self);
                    assert(self.tasks@[self.tasks.key_seq()[i as int]] == *t);
                }
                return Some(t);
            }
            i = i + 1;
        }
        self.tasks.lemma_seqs();
        proof {
            assert forall|id: u32| #[trigger] self@.dom().contains(id) implies self@[id].thread_id != thread_id by {
                let j = choose|j: int| 0 <= j < self.tasks.key_seq().len() && self.tasks.key_seq()[j] == id as u64;
                assert(self.tasks.value_seq()[j].thread_id != thread_id);
            }
        }
        None
    }

    /// The ids of the tasks of `project`.
    pub fn get_by_project(&self, project: &String) -> (r: Vec<u32>)
        ensures
            forall|i: int|
                0 <= i < r@.len() ==> self@.dom().contains(#[trigger] r@[i]) && self@[r@[i]].project@
                    == project@,
            forall|id: u32|
                #[trigger] self@.dom().contains(id) && self@[id].project@ == project@ ==> r@.contains(
                    id,
                ),
    {
        proof {
            use_type_invariant(self);
        }
        self.tasks.lemma_seqs();
        let n = self.tasks.len();
        let mut r: Vec<u32> = Vec::new();
        let mut i: usize = 0;
        while i < n
            invariant
                n == self.tasks.key_seq().len(),
                n == self.tasks.value_seq().len(),
                i <= n,
                forall|j: int|
                    0 <= j < r@.len() ==> self@.dom().contains(#[trigger] r@[j]) && self@[r@[j]].project@
                        == project@,
                forall|j: int|
                    0 <= j < i && (#[trigger] self.tasks.value_seq()[j]).project@ == project@
                        ==> r@.contains(self.tasks.value_seq()[j].id),
            decreases n - i,
        {
            let (k, t) = self.tasks.entry_at(i);
            self.tasks.lemma_seqs();
            proof {
                use_type_invariant(self);
            }
            let ghost before = r@;
            if t.project == *project {
                r.push(t.id);
                proof {
                    assert(self.tasks@[self.tasks.key_seq()[i as int]] == *t);
                    assert(self@.dom().contains(t.id));
                    assert(r@[r@.len() - 1] == t.id);
                }
            }
            proof {
                assert forall|j: int|
                    0 <= j < i + 1 && (#[trigger] self.tasks.value_seq()[j]).project@ == project@
                        implies r@.contains(self.tasks.value_seq()[j].id) by {
                    if j < i {
                        let l = choose|l: int| 0 <= l < before.len() && before[l] == self.tasks.value_seq()[j].id;
                        assert(r@[l] == before[l]);
                    } else {
                        assert(r@[r@.len() - 1] == t.id);
                    }
                }
            }
            i = i + 1;
        }
        self.tasks.lemma_seqs();
        proof {
            use_type_invariant(self);
            assert forall|id: u32| #[trigger] self@.dom().contains(id) && self@[id].project@ == project@
                implies r@.contains(id) by {
                let j = choose|j: int| 0 <= j < self.tasks.key_seq().len() && self.tasks.key_seq()[j] == id as u64;
                assert(self.tasks.value_seq()[j] == self@[id]);
            }
        }
        r
    }
}

/// The refusal text of `new_task` for a channel that is not a thread.
pub open spec fn no_thread_message() -> Seq<char> {
    "no found thread metadata, maybe its not a thread"@
}

} // verus!
