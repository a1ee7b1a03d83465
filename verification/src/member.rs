//! Members of the projects: their score, their tasks (running, done, and
//! mentored), their own save folder, notes and warnings.
use vstd::prelude::*;
use crate::maps::{IdMap, NameMap};
use crate::shop::ShopData;
use crate::text::{chars_of, string_of, sub_chars, trim, trim_chars};

verus! {

/// A finished task in a member's record: either task ids with the time they
/// were recorded, or a free text carried over from the old data format.
#[derive(Clone, Debug, PartialEq)]
pub enum TaskHistory {
    Current(Vec<(i64, u32)>),
    OldFormat(String),
}

/// A note or a warning: who wrote it, when, and what; or an old free text.
#[derive(Clone, Debug, PartialEq)]
pub enum NotesHistory {
    Current(u64, i64, String),
    OldFormat(String),
}

/// What a member has done and holds.
pub struct ProjectMember {
    pub id: u64,
    pub in_tasks: NameMap<Vec<u32>>,
    pub done_tasks: NameMap<Vec<TaskHistory>>,
    pub mentor_tasks: NameMap<Vec<TaskHistory>>,
    pub own_folder: Option<String>,
    pub score: i64,
    pub all_time_score: i64,
    pub last_activity: NameMap<i64>,
    pub warns: Vec<NotesHistory>,
    pub notes: Vec<NotesHistory>,
    pub shop_data: ShopData,
    pub changed_member: Option<u64>,
    pub changed_task: Option<u32>,
    pub changed_project: Option<String>,
    pub changed_tag: Option<u64>,
    pub changed_sub_post: Option<u64>,
}

/// Whether `m` is the record of member `id` as it is made, running tasks
/// aside: nothing done, held or noted, and a score of 0.
pub open spec fn is_new_record(m: ProjectMember, id: u64) -> bool {
    &&& m.id == id
    &&& m.done_tasks@ == Map::<Seq<char>, Vec<TaskHistory>>::empty()
    &&& m.mentor_tasks@ == Map::<Seq<char>, Vec<TaskHistory>>::empty()
    &&& m.own_folder is None
    &&& m.score == 0
    &&& m.all_time_score == 0
    &&& m.last_activity@ == Map::<Seq<char>, i64>::empty()
    &&& m.warns@.len() == 0
    &&& m.notes@.len() == 0
    &&& m.shop_data.current_page == 0
    &&& m.shop_data.pages@.len() == 0
    &&& m.changed_member is None
    &&& m.changed_task is None
    &&& m.changed_project is None
    &&& m.changed_tag is None
    &&& m.changed_sub_post is None
}

/// Whether `a` is `b` with, at most, other running tasks.
pub open spec fn same_but_tasks(a: ProjectMember, b: ProjectMember) -> bool {
    a == (ProjectMember { in_tasks: a.in_tasks, ..b })
}

/// The list stored under `key` in `m`, or the empty list.
pub open spec fn list_of<V>(m: Map<Seq<char>, Vec<V>>, key: Seq<char>) -> Seq<V> {
    if m.dom().contains(key) {
        m[key]@
    } else {
        Seq::empty()
    }
}

/// `s` without its first occurrence of `x` (unchanged when absent).
pub open spec fn remove_first<T>(s: Seq<T>, x: T) -> Seq<T>
    decreases s.len(),
{
    if s.len() == 0 {
        s
    } else if s[0] == x {
        s.subrange(1, s.len() as int)
    } else {
        seq![s[0]] + remove_first(s.subrange(1, s.len() as int), x)
    }
}

/// The first occurrence of `x` at `i` is the one removed.
pub proof fn lemma_remove_first_at<T>(s: Seq<T>, x: T, i: int)
    requires
        0 <= i < s.len(),
        s[i] == x,
        forall|j: int| 0 <= j < i ==> s[j] != x,
    ensures
        remove_first(s, x) == s.remove(i),
    decreases i,
{
    if i == 0 {
        assert(s.remove(0) =~= s.subrange(1, s.len() as int));
    } else {
        let rest = s.subrange(1, s.len() as int);
        lemma_remove_first_at(rest, x, i - 1);
        assert(seq![s[0]] + rest.remove(i - 1) =~= s.remove(i));
    }
}

/// Removing what does not occur leaves the sequence as it is.
pub proof fn lemma_remove_first_absent<T>(s: Seq<T>, x: T)
    requires
        !s.contains(x),
    ensures
        remove_first(s, x) == s,
    decreases s.len(),
{
    if s.len() > 0 {
        let rest = s.subrange(1, s.len() as int);
        assert(s[0] != x);
        assert(!rest.contains(x)) by {
            if rest.contains(x) {
                let k = choose|k: int| 0 <= k < rest.len() && rest[k] == x;
                assert(s[k + 1] == x);
            }
        }
        lemma_remove_first_absent(rest, x);
        assert(seq![s[0]] + rest =~= s);
    }
}

/// Removing the first `x` keeps every other element.
pub proof fn lemma_remove_first_keeps<T>(s: Seq<T>, x: T, y: T)
    requires
        y != x,
    ensures
        remove_first(s, x).contains(y) <==> s.contains(y),
    decreases s.len(),
{
    if s.len() > 0 {
        let rest = s.subrange(1, s.len() as int);
        assert(s.contains(y) <==> (s[0] == y || rest.contains(y))) by {
            if s.contains(y) {
                let k = choose|k: int| 0 <= k < s.len() && s[k] == y;
                if k > 0 {
                    assert(rest[k - 1] == y);
                }
            }
            if rest.contains(y) {
                let k = choose|k: int| 0 <= k < rest.len() && rest[k] == y;
                assert(s[k + 1] == y);
            }
        }
        if s[0] != x {
            lemma_remove_first_keeps(rest, x, y);
            let r = seq![s[0]] + remove_first(rest, x);
            assert(r.contains(y) <==> (s[0] == y || remove_first(rest, x).contains(y))) by {
                if r.contains(y) {
                    let k = choose|k: int| 0 <= k < r.len() && r[k] == y;
                    if k > 0 {
                        assert(remove_first(rest, x)[k - 1] == y);
                    }
                }
                if remove_first(rest, x).contains(y) {
                    let k = choose|k: int| 0 <= k < remove_first(rest, x).len() && remove_first(rest, x)[k] == y;
                    assert(r[k + 1] == y);
                }
                if s[0] == y {
                    assert(r[0] == y);
                }
            }
        }
    }
}

/// In a list without repeats, removing the first `x` removes every `x`
/// and leaves a list without repeats.
pub proof fn lemma_remove_first_unique<T>(s: Seq<T>, x: T)
    requires
        s.no_duplicates(),
    ensures
        remove_first(s, x).no_duplicates(),
        !remove_first(s, x).contains(x),
{
    if s.contains(x) {
        let i = choose|i: int| 0 <= i < s.len() && s[i] == x;
        assert forall|j: int| 0 <= j < i implies s[j] != x by {}
        lemma_remove_first_at(s, x, i);
        let r = s.remove(i);
        assert forall|a: int, b: int| 0 <= a < r.len() && 0 <= b < r.len() && a != b implies r[a] != r[b] by {
            let a2 = if a < i { a } else { a + 1 };
            let b2 = if b < i { b } else { b + 1 };
            assert(r[a] == s[a2] && r[b] == s[b2]);
        }
        if r.contains(x) {
            let k = choose|k: int| 0 <= k < r.len() && r[k] == x;
            let k2 = if k < i { k } else { k + 1 };
            assert(s[k2] == x);
        }
    } else {
        lemma_remove_first_absent(s, x);
    }
}

/// A save folder as the member gives it, made canonical: trimmed, then
/// without one leading and one trailing `/`.
pub open spec fn normalize_folder(s: Seq<char>) -> Seq<char> {
    let t = trim(s);
    let a = if t.len() > 0 && t[0] == '/' {
        t.subrange(1, t.len() as int)
    } else {
        t
    };
    if a.len() > 0 && a.last() == '/' {
        a.drop_last()
    } else {
        a
    }
}

/// `h` records task `task` at time `now` and nothing else.
pub open spec fn is_stamp(h: TaskHistory, now: i64, task: u32) -> bool {
    match h {
        TaskHistory::Current(v) => v@ == seq![(now, task)],
        TaskHistory::OldFormat(_) => false,
    }
}

/// The view of an optional string.
pub open spec fn opt_view(o: Option<String>) -> Option<Seq<char>> {
    match o {
        Some(s) => Some(s@),
        None => None,
    }
}

/// Appends `x` to the list under `key` in `m`, creating the list.
fn push_to_list<V>(m: &mut NameMap<Vec<V>>, key: &String, x: V)
    ensures
        final(m)@.dom().contains(key@),
        final(m)@[key@]@ == list_of(old(m)@, key@).push(x),
        final(m)@.remove(key@) == old(m)@.remove(key@),
{
    let mut l = match m.remove(key) {
        Some(l) => l,
        None => Vec::new(),
    };
    l.push(x);
    m.insert(key.clone(), l);
    proof {
        assert(m@.remove(key@) =~= old(m)@.remove(key@));
    }
}

/// Index of the first `x` in `v`.
fn position_of(v: &Vec<u32>, x: u32) -> (r: Option<usize>)
    ensures
        match r {
            Some(i) => i < v@.len() && v@[i as int] == x && forall|j: int| 0 <= j < i ==> v@[j]
                != x,
            None => !v@.contains(x),
        },
{
    let mut i: usize = 0;
    while i < v.len()
        invariant
            i <= v@.len(),
            forall|j: int| 0 <= j < i ==> v@[j] != x,
        decreases v@.len() - i,
    {
        if v[i] == x {
            return Some(i);
        }
        i = i + 1;
    }
    None
}

/// Index of the first `x` in `v`.
pub fn position_of_u64(v: &Vec<u64>, x: u64) -> (r: Option<usize>)
    ensures
        match r {
            Some(i) => i < v@.len() && v@[i as int] == x && forall|j: int| 0 <= j < i ==> v@[j]
                != x,
            None => !v@.contains(x),
        },
{
    let mut i: usize = 0;
    while i < v.len()
        invariant
            i <= v@.len(),
            forall|j: int| 0 <= j < i ==> v@[j] != x,
        decreases v@.len() - i,
    {
        if v[i] == x {
            return Some(i);
        }
        i = i + 1;
    }
    None
}

impl ProjectMember {
    /// The tasks that the member works on in `project`.
    pub open spec fn tasks_in(&self, project: Seq<char>) -> Seq<u32> {
        list_of(self.in_tasks@, project)
    }

    /// A member with no record yet.
    pub fn new(id: u64) -> (m: Self)
        ensures
            is_new_record(m, id),
            m.in_tasks@ == Map::<Seq<char>, Vec<u32>>::empty(),
            m.id == id,
            m.done_tasks@ == Map::<Seq<char>, Vec<TaskHistory>>::empty(),
            m.mentor_tasks@ == Map::<Seq<char>, Vec<TaskHistory>>::empty(),
            m.own_folder is None,
            m.score == 0,
            m.all_time_score == 0,
            m.last_activity@ == Map::<Seq<char>, i64>::empty(),
            m.warns@.len() == 0,
            m.notes@.len() == 0,
            m.shop_data.current_page == 0,
            m.shop_data.pages@.len() == 0,
            m.changed_member is None,
            m.changed_task is None,
            m.changed_project is None,
            m.changed_tag is None,
            m.changed_sub_post is None,
    {
        ProjectMember {
            id,
            in_tasks: NameMap::new(),
            done_tasks: NameMap::new(),
            mentor_tasks: NameMap::new(),
            own_folder: None,
            score: 0,
            all_time_score: 0,
            last_activity: NameMap::new(),
            warns: Vec::new(),
            notes: Vec::new(),
            shop_data: ShopData::default(),
            changed_member: None,
            changed_task: None,
            changed_project: None,
            changed_tag: None,
            changed_sub_post: None,
        }
    }

    /// Adds `delta` to the score; a gain also counts towards the all-time
    /// score.
    pub fn change_score(&mut self, delta: i64)
        requires
            i64::MIN <= old(self).score + delta <= i64::MAX,
            delta > 0 ==> old(self).all_time_score + delta <= i64::MAX,
        ensures
            final(self).score == old(self).score + delta,
            final(self).all_time_score == if delta > 0 {
                old(self).all_time_score + delta
            } else {
                old(self).all_time_score as int
            },
            final(self).id == old(self).id,
            final(self).in_tasks@ == old(self).in_tasks@,
            final(self).done_tasks@ == old(self).done_tasks@,
            final(self).mentor_tasks@ == old(self).mentor_tasks@,
            final(self).in_tasks == old(self).in_tasks,
            final(self).done_tasks == old(self).done_tasks,
            final(self).mentor_tasks == old(self).mentor_tasks,
            final(self).own_folder == old(self).own_folder,
            final(self).last_activity == old(self).last_activity,
            final(self).warns == old(self).warns,
            final(self).notes == old(self).notes,
            final(self).shop_data == old(self).shop_data,
            final(self).changed_member == old(self).changed_member,
            final(self).changed_task == old(self).changed_task,
            final(self).changed_project == old(self).changed_project,
            final(self).changed_tag == old(self).changed_tag,
            final(self).changed_sub_post == old(self).changed_sub_post,
    {
        self.score = self.score + delta;
        if delta > 0 {
            self.all_time_score = self.all_time_score + delta;
        }
    }

    /// What a requested folder change does: `None` when the folder is the
    /// current one (nothing to do), otherwise the folder to store, made
    /// canonical.  The caller checks that the folder exists before storing
    /// it with `set_folder`.
    pub fn folder_change(&self, folder: Option<String>) -> (r: Option<Option<String>>)
        ensures
            opt_view(folder) == opt_view(self.own_folder) ==> r is None,
            opt_view(folder) != opt_view(self.own_folder) ==> r is Some && opt_view(r->0) == match folder {
                Some(f) => Some(normalize_folder(f@)),
                None => None,
            },
    {
        let same = match (&folder, &self.own_folder) {
            (Some(a), Some(b)) => *a == *b,
            (None, None) => true,
            _ => false,
        };
        if same {
            return None;
        }
        match folder {
            Some(f) => Some(Some(normalize_folder_exec(f.as_str()))),
            None => Some(None),
        }
    }

    /// Stores the member's own folder.
    pub fn set_folder(&mut self, folder: Option<String>)
        ensures
            final(self).own_folder == folder,
            final(self).id == old(self).id,
            final(self).score == old(self).score,
            final(self).in_tasks@ == old(self).in_tasks@,
    {
        self.own_folder = folder;
    }

    /// Leaves task `task` of `project`; a project left with no task is
    /// dropped from the member's running tasks.
    pub fn leave_task(&mut self, project: &String, task: u32)
        ensures
            final(self).tasks_in(project@) == remove_first(old(self).tasks_in(project@), task),
            old(self).tasks_in(project@).contains(task) ==> (final(self).in_tasks@.dom().contains(
                project@,
            ) <==> final(self).tasks_in(project@).len() > 0),
            !old(self).tasks_in(project@).contains(task) ==> final(self).in_tasks@ == old(self).in_tasks@,
            forall|p: Seq<char>|
                p != project@ ==> #[trigger] final(self).tasks_in(p) == old(self).tasks_in(p),
            forall|p: Seq<char>|
                p != project@ ==> (#[trigger] final(self).in_tasks@.dom().contains(p) == old(self).in_tasks@.dom().contains(p)),
            final(self).id == old(self).id,
            final(self).score == old(self).score,
            final(self).all_time_score == old(self).all_time_score,
            final(self).done_tasks@ == old(self).done_tasks@,
            final(self).mentor_tasks@ == old(self).mentor_tasks@,
            same_but_tasks(*final(self), *old(self)),
    {
        let ghost before = self.in_tasks@;
        match self.in_tasks.remove(project) {
            Some(mut l) => {
                match position_of(&l, task) {
                    Some(i) => {
                        proof {
                            lemma_remove_first_at(l@, task, i as int);
                        }
                        l.remove(i);
                        if l.len() > 0 {
                            self.in_tasks.insert(project.clone(), l);
                            proof {
                                assert(self.in_tasks@ =~= before.insert(project@, self.in_tasks@[project@]));
                            }
                        } else {
                            proof {
                                assert(self.in_tasks@ =~= before.remove(project@));
                            }
                        }
                    },
                    None => {
                        proof {
                            lemma_remove_first_absent(l@, task);
                        }
                        self.in_tasks.insert(project.clone(), l);
                        proof {
                            assert(self.in_tasks@ =~= before);
                        }
                    },
                }
            },
            None => {
                proof {
                    assert(self.in_tasks@ =~= before);
                }
            },
        }
    }

    /// Joins task `task` of `project` (no change when already in it).
    pub fn join_task(&mut self, project: &String, task: u32)
        ensures
            final(self).tasks_in(project@) == if old(self).tasks_in(project@).contains(task) {
                old(self).tasks_in(project@)
            } else {
                old(self).tasks_in(project@).push(task)
            },
            final(self).in_tasks@.dom().contains(project@),
            forall|p: Seq<char>|
                p != project@ ==> #[trigger] final(self).tasks_in(p) == old(self).tasks_in(p),
            forall|p: Seq<char>|
                p != project@ ==> (#[trigger] final(self).in_tasks@.dom().contains(p) == old(self).in_tasks@.dom().contains(p)),
            final(self).id == old(self).id,
            final(self).score == old(self).score,
            final(self).all_time_score == old(self).all_time_score,
            final(self).done_tasks@ == old(self).done_tasks@,
            final(self).mentor_tasks@ == old(self).mentor_tasks@,
            same_but_tasks(*final(self), *old(self)),
    {
        let ghost before = self.in_tasks@;
        let mut l = match self.in_tasks.remove(project) {
            Some(l) => l,
            None => Vec::new(),
        };
        if position_of(&l, task).is_none() {
            l.push(task);
        }
        self.in_tasks.insert(project.clone(), l);
        proof {
            assert forall|p: Seq<char>| p != project@ implies #[trigger] self.tasks_in(p)
                == old(self).tasks_in(p) by {
                assert(self.in_tasks@.dom().contains(p) == before.dom().contains(p));
            }
        }
    }

    /// Records a finished task of `project` at time `now`, and `now` as the
    /// member's last activity there.
    pub fn add_done_task(&mut self, project: &String, task: u32, now: i64)
        ensures
            list_of(final(self).done_tasks@, project@).len() > 0,
            list_of(final(self).done_tasks@, project@).drop_last() == list_of(old(self).done_tasks@, project@),
            is_stamp(list_of(final(self).done_tasks@, project@).last(), now, task),
            final(self).done_tasks@.dom().contains(project@),
            final(self).done_tasks@.remove(project@) == old(self).done_tasks@.remove(project@),
            final(self).last_activity@ == old(self).last_activity@.insert(project@, now),
            final(self).mentor_tasks@ == old(self).mentor_tasks@,
            final(self).in_tasks@ == old(self).in_tasks@,
            final(self).score == old(self).score,
            final(self).all_time_score == old(self).all_time_score,
            final(self).id == old(self).id,
    {
        let mut stamp: Vec<(i64, u32)> = Vec::new();
        stamp.push((now, task));
        let entry = TaskHistory::Current(stamp);
        assert(stamp@ =~= seq![(now, task)]);
        assert(is_stamp(entry, now, task));
        push_to_list(&mut self.done_tasks, project, entry);
        self.update_last_activity(project, now);
    }

    /// Records a mentored task of `project` at time `now`, and `now` as the
    /// member's last activity there.
    pub fn add_mentor_task(&mut self, project: &String, task: u32, now: i64)
        ensures
            list_of(final(self).mentor_tasks@, project@).len() > 0,
            list_of(final(self).mentor_tasks@, project@).drop_last() == list_of(old(self).mentor_tasks@, project@),
            is_stamp(list_of(final(self).mentor_tasks@, project@).last(), now, task),
            final(self).mentor_tasks@.dom().contains(project@),
            final(self).mentor_tasks@.remove(project@) == old(self).mentor_tasks@.remove(project@),
            final(self).last_activity@ == old(self).last_activity@.insert(project@, now),
            final(self).done_tasks@ == old(self).done_tasks@,
            final(self).in_tasks@ == old(self).in_tasks@,
            final(self).score == old(self).score,
            final(self).all_time_score == old(self).all_time_score,
            final(self).id == old(self).id,
    {
        let mut stamp: Vec<(i64, u32)> = Vec::new();
        stamp.push((now, task));
        let entry = TaskHistory::Current(stamp);
        assert(stamp@ =~= seq![(now, task)]);
        assert(is_stamp(entry, now, task));
        push_to_list(&mut self.mentor_tasks, project, entry);
        self.update_last_activity(project, now);
    }

    /// Deletes the `index`-th finished task of `project`; a project left
    /// with none is dropped.  Nothing happens when the member has no
    /// finished task there.
    pub fn remove_done_task(&mut self, project: &String, index: usize)
        requires
            old(self).done_tasks@.dom().contains(project@) ==> index < old(self).done_tasks@[project@]@.len(),
        ensures
            old(self).done_tasks@.dom().contains(project@) ==> list_of(final(self).done_tasks@, project@)
                == old(self).done_tasks@[project@]@.remove(index as int),
            old(self).done_tasks@.dom().contains(project@) ==> (final(self).done_tasks@.dom().contains(project@) <==> old(self).done_tasks@[project@]@.len()
                > 1),
            !old(self).done_tasks@.dom().contains(project@) ==> final(self).done_tasks@ == old(self).done_tasks@,
            final(self).done_tasks@.remove(project@) == old(self).done_tasks@.remove(project@),
            final(self).mentor_tasks@ == old(self).mentor_tasks@,
            final(self).in_tasks@ == old(self).in_tasks@,
            final(self).score == old(self).score,
    {
        remove_history(&mut self.done_tasks, project, index);
    }

    /// Deletes the `index`-th mentored task of `project`; a project left
    /// with none is dropped.  Nothing happens when the member mentored no
    /// task there.
    pub fn remove_mentor_task(&mut self, project: &String, index: usize)
        requires
            old(self).mentor_tasks@.dom().contains(project@) ==> index < old(self).mentor_tasks@[project@]@.len(),
        ensures
            old(self).mentor_tasks@.dom().contains(project@) ==> list_of(final(self).mentor_tasks@, project@)
                == old(self).mentor_tasks@[project@]@.remove(index as int),
            old(self).mentor_tasks@.dom().contains(project@) ==> (final(self).mentor_tasks@.dom().contains(project@) <==> old(self).mentor_tasks@[project@]@.len()
                > 1),
            !old(self).mentor_tasks@.dom().contains(project@) ==> final(self).mentor_tasks@ == old(self).mentor_tasks@,
            final(self).mentor_tasks@.remove(project@) == old(self).mentor_tasks@.remove(project@),
            final(self).done_tasks@ == old(self).done_tasks@,
            final(self).in_tasks@ == old(self).in_tasks@,
            final(self).score == old(self).score,
    {
        remove_history(&mut self.mentor_tasks, project, index);
    }

    /// Adds a free-text finished task; only the old text format is taken.
    pub fn add_custom_done_task(&mut self, project: &String, task: TaskHistory)
        ensures
            task is OldFormat ==> final(self).done_tasks@.dom().contains(project@)
                && final(self).done_tasks@[project@]@ == list_of(old(self).done_tasks@, project@).push(task)
                && final(self).done_tasks@.remove(project@) == old(self).done_tasks@.remove(project@),
            task is Current ==> final(self).done_tasks@ == old(self).done_tasks@,
            final(self).mentor_tasks@ == old(self).mentor_tasks@,
            final(self).in_tasks@ == old(self).in_tasks@,
            final(self).last_activity@ == old(self).last_activity@,
    {
        if let TaskHistory::OldFormat(_) = task {
            push_to_list(&mut self.done_tasks, project, task);
        }
    }

    /// Adds a free-text mentored task; only the old text format is taken.
    pub fn add_custom_mentor_task(&mut self, project: &String, task: TaskHistory)
        ensures
            task is OldFormat ==> final(self).mentor_tasks@.dom().contains(project@)
                && final(self).mentor_tasks@[project@]@ == list_of(old(self).mentor_tasks@, project@).push(task)
                && final(self).mentor_tasks@.remove(project@) == old(self).mentor_tasks@.remove(project@),
            task is Current ==> final(self).mentor_tasks@ == old(self).mentor_tasks@,
            final(self).done_tasks@ == old(self).done_tasks@,
            final(self).in_tasks@ == old(self).in_tasks@,
            final(self).last_activity@ == old(self).last_activity@,
    {
        if let TaskHistory::OldFormat(_) = task {
            push_to_list(&mut self.mentor_tasks, project, task);
        }
    }

    /// Adds a note written by `user` at time `now`.
    pub fn add_note(&mut self, user: u64, now: i64, note: String)
        ensures
            final(self).notes@ == old(self).notes@.push(NotesHistory::Current(user, now, note)),
            final(self).warns@ == old(self).warns@,
            final(self).score == old(self).score,
    {
        self.notes.push(NotesHistory::Current(user, now, note));
    }

    /// Deletes the `index`-th note, returning its text.
    pub fn remove_note(&mut self, index: usize) -> (text: String)
        requires
            index < old(self).notes@.len(),
        ensures
            final(self).notes@ == old(self).notes@.remove(index as int),
            text@ == note_text(old(self).notes@[index as int]),
            final(self).warns@ == old(self).warns@,
            final(self).score == old(self).score,
    {
        let n = self.notes.remove(index);
        note_text_exec(&n)
    }

    /// Adds a warning issued by `user` at time `now`.
    pub fn add_warn(&mut self, user: u64, now: i64, warn: String)
        ensures
            final(self).warns@ == old(self).warns@.push(NotesHistory::Current(user, now, warn)),
            final(self).notes@ == old(self).notes@,
            final(self).score == old(self).score,
    {
        self.warns.push(NotesHistory::Current(user, now, warn));
    }

    /// Deletes the `index`-th warning, returning its text.
    pub fn remove_warn(&mut self, index: usize) -> (text: String)
        requires
            index < old(self).warns@.len(),
        ensures
            final(self).warns@ == old(self).warns@.remove(index as int),
            text@ == note_text(old(self).warns@[index as int]),
            final(self).notes@ == old(self).notes@,
            final(self).score == old(self).score,
    {
        let n = self.warns.remove(index);
        note_text_exec(&n)
    }

    /// Records `now` as the member's last activity in `project`.
    pub fn update_last_activity(&mut self, project: &String, now: i64)
        ensures
            final(self).last_activity@ == old(self).last_activity@.insert(project@, now),
            final(self).done_tasks@ == old(self).done_tasks@,
            final(self).mentor_tasks@ == old(self).mentor_tasks@,
            final(self).in_tasks@ == old(self).in_tasks@,
            final(self).score == old(self).score,
            final(self).all_time_score == old(self).all_time_score,
            final(self).id == old(self).id,
    {
        self.last_activity.insert(project.clone(), now);
    }

    /// How many tasks of `project` the member works on.
    pub fn task_count(&self, project: &String) -> (n: usize)
        ensures
            n == self.tasks_in(project@).len(),
    {
        match self.in_tasks.get(project) {
            Some(l) => l.len(),
            None => 0,
        }
    }
}

/// The text of a note or warning.
pub open spec fn note_text(n: NotesHistory) -> Seq<char> {
    match n {
        NotesHistory::Current(_, _, s) => s@,
        NotesHistory::OldFormat(s) => s@,
    }
}

/// The text of a note or warning.
pub fn note_text_exec(n: &NotesHistory) -> (r: String)
    ensures
        r@ == note_text(*n),
{
    match n {
        NotesHistory::Current(_, _, s) => s.clone(),
        NotesHistory::OldFormat(s) => s.clone(),
    }
}

fn remove_history(m: &mut NameMap<Vec<TaskHistory>>, project: &String, index: usize)
    requires
        old(m)@.dom().contains(project@) ==> index < old(m)@[project@]@.len(),
    ensures
        old(m)@.dom().contains(project@) ==> list_of(final(m)@, project@) == old(m)@[project@]@.remove(index as int),
        old(m)@.dom().contains(project@) ==> (final(m)@.dom().contains(project@) <==> old(m)@[project@]@.len() > 1),
        !old(m)@.dom().contains(project@) ==> final(m)@ == old(m)@,
        final(m)@.remove(project@) == old(m)@.remove(project@),
{
    match m.remove(project) {
        Some(mut l) => {
            l.remove(index);
            if l.len() > 0 {
                m.insert(project.clone(), l);
            }
        },
        None => {
            proof {
                assert(old(m)@.remove(project@) =~= old(m)@);
            }
        },
    }
}

/// A save folder made canonical (see `normalize_folder`).
pub fn normalize_folder_exec(s: &str) -> (r: String)
    ensures
        r@ == normalize_folder(s@),
{
    let v = chars_of(s);
    let t = trim_chars(&v);
    let a = if t.len() > 0 && t[0] == '/' {
        sub_chars(&t, 1, t.len())
    } else {
        t
    };
    let b = if a.len() > 0 && a[a.len() - 1] == '/' {
        sub_chars(&a, 0, a.len() - 1)
    } else {
        a
    };
    proof {
        if a@.len() > 0 && a@.last() == '/' {
            assert(b@ =~= a@.drop_last());
        }
    }
    string_of(&b)
}

/// The records of all members, by Discord id.
pub struct MembersManager {
    pub members: IdMap<ProjectMember>,
}

impl MembersManager {
    /// A manager with no member records.
    pub fn new() -> (m: Self)
        ensures
            m.members@ == Map::<u64, ProjectMember>::empty(),
    {
        MembersManager { members: IdMap::new() }
    }

    /// Whether `m`'s own folder is `folder`.
    pub open spec fn owns_folder(m: ProjectMember, folder: Seq<char>) -> bool {
        match m.own_folder {
            Some(f) => f@ == folder,
            None => false,
        }
    }

    /// The member whose own folder is `folder`, if any: the first one in
    /// the order the records were stored.  A folder may be linked by one
    /// member only, so a member asking for a folder that this finds for
    /// someone else is refused.
    pub fn folder_owner(&self, folder: &String) -> (r: Option<u64>)
        ensures
            match r {
                Some(id) => self.members@.dom().contains(id) && Self::owns_folder(self.members@[id], folder@)
                    && exists|i: int| 0 <= i < self.members.key_seq().len() && self.members.key_seq()[i] == id
                        && forall|j: int| 0 <= j < i ==> !Self::owns_folder(#[trigger] self.members.value_seq()[j], folder@),
                None => forall|id: u64| #[trigger] self.members@.dom().contains(id) ==> !Self::owns_folder(self.members@[id], folder@),
            },
    {
        self.members.lemma_seqs();
        let n = self.members.len();
        let mut i: usize = 0;
        while i < n
            invariant
                n == self.members.key_seq().len(),
                n == self.members.value_seq().len(),
                i <= n,
                forall|j: int| 0 <= j < i ==> !Self::owns_folder(#[trigger] self.members.value_seq()[j], folder@),
            decreases n - i,
        {
            let (k, m) = self.members.entry_at(i);
            let owns = match &m.own_folder {
                Some(f) => *f == *folder,
                None => false,
            };
            if owns {
                self.members.lemma_seqs();
                assert(self.members@[self.members.key_seq()[i as int]] == *m);
                return Some(*k);
            }
            i = i + 1;
        }
        self.members.lemma_seqs();
        proof {
            assert forall|id: u64| #[trigger] self.members@.dom().contains(id) implies !Self::owns_folder(self.members@[id], folder@) by {
                let j = choose|j: int| 0 <= j < self.members.key_seq().len() && self.members.key_seq()[j] == id;
                assert(!Self::owns_folder(self.members.value_seq()[j], folder@));
            }
        }
        None
    }

    /// Stores a member record read from the data files (its id is the key).
    pub fn insert_loaded(&mut self, member: ProjectMember)
        ensures
            final(self).members@ == old(self).members@.insert(member.id, member),
    {
        let id = member.id;
        self.members.insert(id, member);
    }

    /// The record of member `id`, if any.
    pub fn get(&self, id: u64) -> (r: Option<&ProjectMember>)
        ensures
            match r {
                Some(m) => self.members@.dom().contains(id) && self.members@[id] == *m,
                None => !self.members@.dom().contains(id),
            },
    {
        self.members.get(&id)
    }

    /// Makes sure member `id` has a record: an existing one is kept,
    /// otherwise `fresh` (the record from its data file, or a new one) is
    /// stored.
    pub fn ensure(&mut self, id: u64, fresh: ProjectMember)
        requires
            fresh.id == id,
        ensures
            old(self).members@.dom().contains(id) ==> final(self).members@ == old(self).members@,
            !old(self).members@.dom().contains(id) ==> final(self).members@ == old(self).members@.insert(id, fresh),
    {
        if !self.members.contains_key(&id) {
            self.members.insert(id, fresh);
        }
    }

    /// Takes member `id`'s record out (to change it and put it back).
    pub fn take(&mut self, id: u64) -> (r: Option<ProjectMember>)
        ensures
            final(self).members@ == old(self).members@.remove(id),
            match r {
                Some(m) => old(self).members@.dom().contains(id) && old(self).members@[id] == m,
                None => !old(self).members@.dom().contains(id),
            },
    {
        self.members.remove(&id)
    }
}

} // verus!
