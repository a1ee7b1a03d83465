//! What the member editor does with what a moderator enters: a new score
//! typed as text, and finished or mentored tasks picked for removal, each
//! picked entry given as `project:::task id` or `project:::text`.
use vstd::prelude::*;
use crate::member::{list_of, note_text, note_text_exec, NotesHistory, ProjectMember, TaskHistory};
use crate::task::{Task, TaskManager};
use crate::text::{
    chars_of, contains, contains_str, decimal, parse_i64, parse_u32, parsed_integer, push_all,
    push_decimal, signed_decimal, split, split_str, string_of,
};

verus! {

// ---------------------------------------------------------------------------
// How a history entry reads
// ---------------------------------------------------------------------------
/// `<t:time:D> <#thread>` and a newline: a finished task as a line.
pub open spec fn stamp_line(time: i64, thread: u64) -> Seq<char> {
    "<t:"@ + signed_decimal(time as int) + ":D> <#"@ + decimal(thread as nat) + ">\n"@
}

/// The lines of recorded tasks, skipping those that no longer exist.
pub open spec fn stamps_text(stamps: Seq<(i64, u32)>, tasks: Map<u32, Task>) -> Seq<char>
    decreases stamps.len(),
{
    if stamps.len() == 0 {
        Seq::empty()
    } else {
        let id = stamps.last().1;
        stamps_text(stamps.drop_last(), tasks) + if tasks.dom().contains(id) {
            stamp_line(stamps.last().0, tasks[id].thread_id)
        } else {
            Seq::empty()
        }
    }
}

/// How a history entry reads: an old text as it is, recorded tasks as
/// their lines.
pub open spec fn history_text(h: TaskHistory, tasks: Map<u32, Task>) -> Seq<char> {
    match h {
        TaskHistory::Current(v) => stamps_text(v@, tasks),
        TaskHistory::OldFormat(s) => s@,
    }
}

fn push_str(out: &mut Vec<char>, s: &str)
    ensures
        final(out)@ == old(out)@ + s@,
{
    let v = chars_of(s);
    push_all(out, &v);
}

fn push_signed(out: &mut Vec<char>, n: i64)
    ensures
        final(out)@ == old(out)@ + signed_decimal(n as int),
{
    if n < 0 {
        out.push('-');
        let m: u64 = if n == i64::MIN {
            9223372036854775808u64
        } else {
            (-n) as u64
        };
        push_decimal(out, m);
        assert(out@ =~= old(out)@ + signed_decimal(n as int));
    } else {
        push_decimal(out, n as u64);
    }
}

impl TaskHistory {
    /// How the entry reads (see `history_text`).
    pub fn get(&self, tasks: &TaskManager) -> (r: String)
        ensures
            r@ == history_text(*self, tasks@),
    {
        match self {
            TaskHistory::OldFormat(s) => s.clone(),
            TaskHistory::Current(v) => {
                let mut out: Vec<char> = Vec::new();
                let mut i: usize = 0;
                assert(v@.subrange(0, 0) =~= Seq::<(i64, u32)>::empty());
                while i < v.len()
                    invariant
                        i <= v@.len(),
                        out@ == stamps_text(v@.subrange(0, i as int), tasks@),
                    decreases v@.len() - i,
                {
                    proof {
                        assert(v@.subrange(0, i + 1).drop_last() =~= v@.subrange(0, i as int));
                        assert(v@.subrange(0, i + 1).last() == v@[i as int]);
                    }
                    let (time, id) = v[i];
                    match tasks.get(id) {
                        Some(t) => {
                            let ghost before = out@;
                            push_str(&mut out, "<t:");
                            push_signed(&mut out, time);
                            push_str(&mut out, ":D> <#");
                            push_decimal(&mut out, t.thread_id);
                            push_str(&mut out, ">\n");
                            assert(out@ =~= before + stamp_line(time, t.thread_id));
                        },
                        None => {
                            assert(out@ =~= out@ + Seq::<char>::empty());
                        },
                    }
                    i = i + 1;
                }
                assert(v@.subrange(0, v@.len() as int) =~= v@);
                string_of(&out)
            },
        }
    }
}

// ---------------------------------------------------------------------------
// Picking an entry
// ---------------------------------------------------------------------------
/// Whether recorded tasks include task `id`.
pub open spec fn records_task(stamps: Seq<(i64, u32)>, id: u32) -> bool {
    exists|j: int| 0 <= j < stamps.len() && #[trigger] stamps[j].1 == id
}

/// The entry removed for task `id`: the number of recorded-task entries
/// before the first one that records `id` (old texts are not counted).
pub open spec fn index_by_id(h: Seq<TaskHistory>, id: u32) -> Option<int>
    decreases h.len(),
{
    if h.len() == 0 {
        None
    } else {
        match h[0] {
            TaskHistory::Current(v) => if records_task(v@, id) {
                Some(0)
            } else {
                match index_by_id(h.drop_first(), id) {
                    Some(i) => Some(i + 1),
                    None => None,
                }
            },
            TaskHistory::OldFormat(_) => index_by_id(h.drop_first(), id),
        }
    }
}

/// The entry removed for a text: the first whose reading contains it.
pub open spec fn index_by_text(h: Seq<TaskHistory>, text: Seq<char>, tasks: Map<u32, Task>) -> Option<int>
    decreases h.len(),
{
    if h.len() == 0 {
        None
    } else if contains(history_text(h[0], tasks), text) {
        Some(0)
    } else {
        match index_by_text(h.drop_first(), text, tasks) {
            Some(i) => Some(i + 1),
            None => None,
        }
    }
}

/// The project of a picked entry: before its first `:::`.
pub open spec fn picked_project(value: Seq<char>) -> Seq<char> {
    split(value, ":::"@)[0]
}

/// The task of a picked entry: after its last `:::`.
pub open spec fn picked_task(value: Seq<char>) -> Seq<char> {
    split(value, ":::"@).last()
}

/// The entry of `h` that a picked task `task` names: by id when it reads
/// as one, otherwise by text.
pub open spec fn picked_index(h: Seq<TaskHistory>, task: Seq<char>, tasks: Map<u32, Task>) -> Option<int> {
    match parsed_integer(task, false) {
        Some(v) if 0 <= v <= u32::MAX => index_by_id(h, v as u32),
        _ => index_by_text(h, task, tasks),
    }
}

proof fn lemma_index_by_id_bound(h: Seq<TaskHistory>, id: u32)
    ensures
        index_by_id(h, id) matches Some(i) ==> 0 <= i < h.len(),
    decreases h.len(),
{
    if h.len() > 0 {
        lemma_index_by_id_bound(h.drop_first(), id);
    }
}

proof fn lemma_index_by_text_bound(h: Seq<TaskHistory>, text: Seq<char>, tasks: Map<u32, Task>)
    ensures
        index_by_text(h, text, tasks) matches Some(i) ==> 0 <= i < h.len(),
    decreases h.len(),
{
    if h.len() > 0 {
        lemma_index_by_text_bound(h.drop_first(), text, tasks);
    }
}

fn find_by_id(h: &Vec<TaskHistory>, id: u32) -> (r: Option<usize>)
    ensures
        match r {
            Some(i) => index_by_id(h@, id) == Some(i as int),
            None => index_by_id(h@, id) is None,
        },
{
    let mut i: usize = 0;
    let mut counted: usize = 0;
    assert(h@.subrange(0, h@.len() as int) =~= h@);
    while i < h.len()
        invariant
            i <= h@.len(),
            counted <= i,
            index_by_id(h@, id) == match index_by_id(h@.subrange(i as int, h@.len() as int), id) {
                Some(k) => Some(k + counted),
                None => None,
            },
        decreases h@.len() - i,
    {
        let ghost rest = h@.subrange(i as int, h@.len() as int);
        proof {
            assert(rest[0] == h@[i as int]);
            assert(rest.drop_first() =~= h@.subrange(i + 1, h@.len() as int));
        }
        match &h[i] {
            TaskHistory::Current(v) => {
                let mut j: usize = 0;
                let mut found = false;
                while j < v.len()
                    invariant
                        j <= v@.len(),
                        !found ==> forall|a: int| 0 <= a < j ==> #[trigger] v@[a].1 != id,
                        found ==> records_task(v@, id),
                    decreases v@.len() - j,
                {
                    if v[j].1 == id {
                        found = true;
                        assert(v@[j as int].1 == id);
                    }
                    j = j + 1;
                }
                if found {
                    return Some(counted);
                }
                counted = counted + 1;
            },
            TaskHistory::OldFormat(_) => {},
        }
        i = i + 1;
    }
    None
}

fn find_by_text(h: &Vec<TaskHistory>, text: &str, tasks: &TaskManager) -> (r: Option<usize>)
    ensures
        match r {
            Some(i) => index_by_text(h@, text@, tasks@) == Some(i as int),
            None => index_by_text(h@, text@, tasks@) is None,
        },
{
    let mut i: usize = 0;
    assert(h@.subrange(0, h@.len() as int) =~= h@);
    while i < h.len()
        invariant
            i <= h@.len(),
            index_by_text(h@, text@, tasks@) == match index_by_text(h@.subrange(i as int, h@.len() as int), text@, tasks@) {
                Some(k) => Some(k + i),
                None => None,
            },
        decreases h@.len() - i,
    {
        let ghost rest = h@.subrange(i as int, h@.len() as int);
        proof {
            assert(rest[0] == h@[i as int]);
            assert(rest.drop_first() =~= h@.subrange(i + 1, h@.len() as int));
        }
        let reading = h[i].get(tasks);
        if contains_str(reading.as_str(), text) {
            return Some(i);
        }
        i = i + 1;
    }
    None
}

fn split_pick(value: &str) -> (r: (String, String))
    ensures
        r.0@ == picked_project(value@),
        r.1@ == picked_task(value@),
{
    proof {
        reveal_strlit(":::");
    }
    let parts = split_str(value, ":::");
    let last = parts.len() - 1;
    proof {
        let pv = parts@.map_values(|x: String| x@);
        assert(pv[0] == parts@[0]@);
        assert(pv[last as int] == parts@[last as int]@);
    }
    (parts[0].clone(), parts[last].clone())
}

fn pick_index(h: &Vec<TaskHistory>, task: &str, tasks: &TaskManager) -> (r: Option<usize>)
    ensures
        match r {
            Some(i) => picked_index(h@, task@, tasks@) == Some(i as int) && i < h@.len(),
            None => picked_index(h@, task@, tasks@) is None,
        },
{
    let r = match parse_u32(task) {
        Some(id) => find_by_id(h, id),
        None => find_by_text(h, task, tasks),
    };
    proof {
        match parsed_integer(task@, false) {
            Some(v) if 0 <= v <= u32::MAX => lemma_index_by_id_bound(h@, v as u32),
            _ => lemma_index_by_text_bound(h@, task@, tasks@),
        }
    }
    r
}

/// Which entry removing the picked `value` from the lists `lists` takes
/// out: its project and index, when the project has entries and one is
/// named.
pub open spec fn picked_entry(
    lists: Map<Seq<char>, Vec<TaskHistory>>,
    value: Seq<char>,
    tasks: Map<u32, Task>,
) -> Option<(Seq<char>, int)> {
    let p = picked_project(value);
    if lists.dom().contains(p) {
        match picked_index(lists[p]@, picked_task(value), tasks) {
            Some(i) => Some((p, i)),
            None => None,
        }
    } else {
        None
    }
}

/// What removing entry `index` of `project` does to a set of lists: the
/// entry leaves the project's list, and a project left with none is
/// dropped.
pub open spec fn without_entry(
    before: Map<Seq<char>, Vec<TaskHistory>>,
    after: Map<Seq<char>, Vec<TaskHistory>>,
    project: Seq<char>,
    index: int,
) -> bool {
    &&& list_of(after, project) == before[project]@.remove(index)
    &&& after.dom().contains(project) <==> before[project]@.len() > 1
    &&& after.remove(project) == before.remove(project)
}

/// The score typed in `text`, when it is a number that fits.
pub open spec fn typed_score(text: Seq<char>) -> Option<i64> {
    match parsed_integer(text, true) {
        Some(v) => if i64::MIN <= v <= i64::MAX {
            Some(v as i64)
        } else {
            None
        },
        None => None,
    }
}

/// Setting the score of `m` to `target` keeps its scores within range.
pub open spec fn score_change_fits(m: ProjectMember, target: i64) -> bool {
    &&& i64::MIN <= target - m.score <= i64::MAX
    &&& target - m.score > 0 ==> m.all_time_score + (target - m.score) <= i64::MAX
}

impl ProjectMember {
    /// Sets the score to the number typed in `text`; `false`, with nothing
    /// changed, when the text is not a number.  A rise of the score also
    /// counts towards the all-time score.
    pub fn set_score_text(&mut self, text: &str) -> (ok: bool)
        requires
            typed_score(text@) matches Some(v) ==> score_change_fits(*old(self), v),
        ensures
            ok == typed_score(text@) is Some,
            ok ==> final(self).score == typed_score(text@)->0,
            ok ==> final(self).all_time_score == if final(self).score > old(self).score {
                old(self).all_time_score + final(self).score - old(self).score
            } else {
                old(self).all_time_score as int
            },
            !ok ==> *final(self) == *old(self),
            final(self).in_tasks@ == old(self).in_tasks@,
            final(self).done_tasks@ == old(self).done_tasks@,
            final(self).mentor_tasks@ == old(self).mentor_tasks@,
    {
        match parse_i64(text) {
            Some(target) => {
                let delta = target - self.score;
                self.change_score(delta);
                true
            },
            None => false,
        }
    }

    /// Removes the finished task picked as `value` (see `picked_entry`);
    /// nothing happens when it names no entry.
    pub fn remove_picked_done_task(&mut self, value: &str, tasks: &TaskManager)
        ensures
            match picked_entry(old(self).done_tasks@, value@, tasks@) {
                Some((p, i)) => without_entry(old(self).done_tasks@, final(self).done_tasks@, p, i),
                None => final(self).done_tasks@ == old(self).done_tasks@,
            },
            final(self).mentor_tasks@ == old(self).mentor_tasks@,
            final(self).in_tasks@ == old(self).in_tasks@,
            final(self).score == old(self).score,
    {
        let (project, task) = split_pick(value);
        let index = match self.done_tasks.get(&project) {
            Some(list) => pick_index(list, task.as_str(), tasks),
            None => None,
        };
        match index {
            Some(i) => {
                self.remove_done_task(&project, i);
            },
            None => {},
        }
    }

    /// Removes the mentored task picked as `value` (see `picked_entry`);
    /// nothing happens when it names no entry.
    pub fn remove_picked_mentor_task(&mut self, value: &str, tasks: &TaskManager)
        ensures
            match picked_entry(old(self).mentor_tasks@, value@, tasks@) {
                Some((p, i)) => without_entry(old(self).mentor_tasks@, final(self).mentor_tasks@, p, i),
                None => final(self).mentor_tasks@ == old(self).mentor_tasks@,
            },
            final(self).done_tasks@ == old(self).done_tasks@,
            final(self).in_tasks@ == old(self).in_tasks@,
            final(self).score == old(self).score,
    {
        let (project, task) = split_pick(value);
        let index = match self.mentor_tasks.get(&project) {
            Some(list) => pick_index(list, task.as_str(), tasks),
            None => None,
        };
        match index {
            Some(i) => {
                self.remove_mentor_task(&project, i);
            },
            None => {},
        }
    }
}

// ---------------------------------------------------------------------------
// Notes and warnings
// ---------------------------------------------------------------------------
/// The option of the `i`-th note in the removal menu: its text, and as
/// value its position and text.
pub open spec fn note_option(i: nat, n: NotesHistory) -> (Seq<char>, Seq<char>) {
    (note_text(n), decimal(i) + ":::"@ + note_text(n))
}

/// The options of the removal menu of `notes`, in order.
pub fn note_options(notes: &Vec<NotesHistory>) -> (r: Vec<(String, String)>)
    ensures
        r@.len() == notes@.len(),
        forall|i: int| 0 <= i < r@.len() ==> ((#[trigger] r@[i]).0@, r@[i].1@) == note_option(i as nat, notes@[i]),
{
    let mut out: Vec<(String, String)> = Vec::new();
    let mut i: usize = 0;
    while i < notes.len()
        invariant
            i <= notes@.len(),
            out@.len() == i,
            forall|j: int| 0 <= j < i ==> ((#[trigger] out@[j]).0@, out@[j].1@) == note_option(j as nat, notes@[j]),
        decreases notes@.len() - i,
    {
        let text = note_text_exec(&notes[i]);
        let mut v: Vec<char> = Vec::new();
        push_decimal(&mut v, i as u64);
        push_all(&mut v, &chars_of(":::"));
        push_all(&mut v, &chars_of(text.as_str()));
        let value = string_of(&v);
        assert(value@ =~= decimal(i as nat) + ":::"@ + note_text(notes@[i as int]));
        out.push((text, value));
        i = i + 1;
    }
    out
}

/// The text a picked menu value names: after its last `:::`.
pub open spec fn picked_text(value: Seq<char>) -> Seq<char> {
    split(value, ":::"@).last()
}

/// Going through `orig` from position `i`, each entry that reads `text`
/// is removed at that same position of the list `cur` as it is by then
/// (earlier removals having shifted it); `None` when such a position is
/// past the end of the shortened list.
pub open spec fn removals(orig: Seq<NotesHistory>, cur: Seq<NotesHistory>, i: int, text: Seq<char>) -> Option<
    Seq<NotesHistory>,
>
    decreases orig.len() - i,
{
    if i < 0 || i >= orig.len() {
        Some(cur)
    } else if note_text(orig[i]) == text {
        if i < cur.len() {
            removals(orig, cur.remove(i), i + 1, text)
        } else {
            None
        }
    } else {
        removals(orig, cur, i + 1, text)
    }
}

/// Removes the entries of `list` that read `text` (see `removals`).
fn remove_reading(list: &mut Vec<NotesHistory>, text: &String)
    requires
        removals(old(list)@, old(list)@, 0, text@) is Some,
    ensures
        removals(old(list)@, old(list)@, 0, text@) == Some(final(list)@),
{
    let ghost orig = list@;
    let mut texts: Vec<String> = Vec::new();
    let mut k: usize = 0;
    while k < list.len()
        invariant
            k <= list@.len(),
            list@ == orig,
            texts@.len() == k,
            forall|j: int| 0 <= j < k ==> (#[trigger] texts@[j])@ == note_text(orig[j]),
        decreases list@.len() - k,
    {
        texts.push(note_text_exec(&list[k]));
        k = k + 1;
    }
    let n = texts.len();
    let mut i: usize = 0;
    while i < n
        invariant
            i <= n,
            n == orig.len(),
            texts@.len() == n,
            forall|j: int| 0 <= j < n ==> (#[trigger] texts@[j])@ == note_text(orig[j]),
            removals(orig, list@, i as int, text@) == removals(orig, orig, 0, text@),
            removals(orig, orig, 0, text@) is Some,
        decreases n - i,
    {
        if texts[i] == *text {
            let ghost cur = list@;
            assert(i < cur.len());
            list.remove(i);
            assert(list@ == cur.remove(i as int));
        }
        i = i + 1;
    }
}

impl ProjectMember {
    /// Removes the notes that read the text of the picked menu value
    /// `value` (see `picked_text` and `removals`).
    pub fn remove_picked_note(&mut self, value: &str)
        requires
            removals(old(self).notes@, old(self).notes@, 0, picked_text(value@)) is Some,
        ensures
            removals(old(self).notes@, old(self).notes@, 0, picked_text(value@)) == Some(final(self).notes@),
            final(self).warns@ == old(self).warns@,
            final(self).score == old(self).score,
            final(self).in_tasks@ == old(self).in_tasks@,
            *final(self) == (ProjectMember { notes: final(self).notes, ..*old(self) }),
    {
        proof {
            reveal_strlit(":::");
        }
        let parts = split_str(value, ":::");
        let n = parts.len();
        assert(parts@.map_values(|x: String| x@).last() == parts@[n - 1]@);
        let text = parts[n - 1].clone();
        remove_reading(&mut self.notes, &text);
    }

    /// Removes the warnings that read the text of the picked menu value
    /// `value` (see `picked_text` and `removals`).
    pub fn remove_picked_warn(&mut self, value: &str)
        requires
            removals(old(self).warns@, old(self).warns@, 0, picked_text(value@)) is Some,
        ensures
            removals(old(self).warns@, old(self).warns@, 0, picked_text(value@)) == Some(final(self).warns@),
            final(self).notes@ == old(self).notes@,
            final(self).score == old(self).score,
            final(self).in_tasks@ == old(self).in_tasks@,
            *final(self) == (ProjectMember { warns: final(self).warns, ..*old(self) }),
    {
        proof {
            reveal_strlit(":::");
        }
        let parts = split_str(value, ":::");
        let n = parts.len();
        assert(parts@.map_values(|x: String| x@).last() == parts@[n - 1]@);
        let text = parts[n - 1].clone();
        remove_reading(&mut self.warns, &text);
    }
}

// ---------------------------------------------------------------------------
// The removal menu of finished or mentored tasks
// ---------------------------------------------------------------------------
/// The option for task `id` of `project`: the task's name, and as value
/// the project and the id.
pub open spec fn id_option(project: Seq<char>, id: u32, tasks: Map<u32, Task>) -> (Seq<char>, Seq<char>) {
    (tasks[id].name.value(), project + ":::"@ + decimal(id as nat))
}

/// The option for an old entry's text: the text, and as value the
/// project and the text.
pub open spec fn text_option(project: Seq<char>, text: Seq<char>) -> (Seq<char>, Seq<char>) {
    (text, project + ":::"@ + text)
}

/// The old entries' texts of `h`, in order.
pub open spec fn old_texts(h: Seq<TaskHistory>) -> Seq<Seq<char>> {
    h.filter(|e: TaskHistory| e is OldFormat).map_values(|e: TaskHistory| e->OldFormat_0@)
}

/// The removal menu for the entries `h` of `project`: one option per task
/// of `ids` (the project's tasks) that an entry records, then one per old
/// entry.
pub open spec fn removal_menu(h: Seq<TaskHistory>, project: Seq<char>, ids: Seq<u32>, tasks: Map<u32, Task>) -> Seq<
    (Seq<char>, Seq<char>),
> {
    ids.filter(|id: u32| tasks.dom().contains(id) && index_by_id(h, id) is Some).map_values(
        |id: u32| id_option(project, id, tasks),
    ) + old_texts(h).map_values(|t: Seq<char>| text_option(project, t))
}

/// The removal menu for the entries `history` of `project` (see
/// `removal_menu`); `ids` are the project's tasks.
pub fn removal_options(history: &Vec<TaskHistory>, project: &String, ids: &Vec<u32>, tasks: &TaskManager) -> (r: Vec<
    (String, String),
>)
    ensures
        r@.map_values(|o: (String, String)| (o.0@, o.1@)) == removal_menu(history@, project@, ids@, tasks@),
{
    let ghost keep = |id: u32| tasks@.dom().contains(id) && index_by_id(history@, id) is Some;
    let ghost conv = |id: u32| id_option(project@, id, tasks@);
    let mut out: Vec<(String, String)> = Vec::new();
    let mut i: usize = 0;
    assert(ids@.take(0).filter(keep) =~= Seq::<u32>::empty());
    while i < ids.len()
        invariant
            i <= ids@.len(),
            keep == (|id: u32| tasks@.dom().contains(id) && index_by_id(history@, id) is Some),
            conv == (|id: u32| id_option(project@, id, tasks@)),
            out@.map_values(|o: (String, String)| (o.0@, o.1@)) == ids@.take(i as int).filter(keep).map_values(conv),
        decreases ids@.len() - i,
    {
        let ghost before = out@;
        let id = ids[i];
        assert(ids@.take(i + 1) =~= ids@.take(i as int).push(id));
        proof {
            ids@.take(i as int).lemma_filter_push(id, keep);
        }
        match tasks.get(id) {
            Some(t) => {
                if find_by_id(history, id).is_some() {
                    let mut v: Vec<char> = chars_of(project.as_str());
                    push_all(&mut v, &chars_of(":::"));
                    push_decimal(&mut v, id as u64);
                    let value = string_of(&v);
                    assert(value@ =~= project@ + ":::"@ + decimal(id as nat));
                    out.push((t.name.get().clone(), value));
                    assert(out@.map_values(|o: (String, String)| (o.0@, o.1@)) =~= before.map_values(
                        |o: (String, String)| (o.0@, o.1@),
                    ).push(conv(id)));
                } else {
                    assert(ids@.take(i + 1).filter(keep) =~= ids@.take(i as int).filter(keep));
                }
            },
            None => {
                assert(ids@.take(i + 1).filter(keep) =~= ids@.take(i as int).filter(keep));
            },
        }
        i = i + 1;
    }
    assert(ids@.take(ids@.len() as int) =~= ids@);
    let ghost first = out@.map_values(|o: (String, String)| (o.0@, o.1@));
    let ghost is_old = |e: TaskHistory| e is OldFormat;
    let ghost text_of = |e: TaskHistory| e->OldFormat_0@;
    let ghost tconv = |t: Seq<char>| text_option(project@, t);
    let mut k: usize = 0;
    assert(history@.take(0).filter(is_old) =~= Seq::<TaskHistory>::empty());
    while k < history.len()
        invariant
            k <= history@.len(),
            is_old == (|e: TaskHistory| e is OldFormat),
            text_of == (|e: TaskHistory| e->OldFormat_0@),
            tconv == (|t: Seq<char>| text_option(project@, t)),
            out@.map_values(|o: (String, String)| (o.0@, o.1@)) == first + history@.take(k as int).filter(is_old).map_values(
                text_of,
            ).map_values(tconv),
        decreases history@.len() - k,
    {
        let ghost before = out@;
        let ghost e = history@[k as int];
        assert(history@.take(k + 1) =~= history@.take(k as int).push(e));
        proof {
            history@.take(k as int).lemma_filter_push(e, is_old);
        }
        match &history[k] {
            TaskHistory::OldFormat(text) => {
                let mut v: Vec<char> = chars_of(project.as_str());
                push_all(&mut v, &chars_of(":::"));
                push_all(&mut v, &chars_of(text.as_str()));
                let value = string_of(&v);
                assert(value@ =~= project@ + ":::"@ + text@);
                out.push((text.clone(), value));
                assert(out@.map_values(|o: (String, String)| (o.0@, o.1@)) =~= before.map_values(
                    |o: (String, String)| (o.0@, o.1@),
                ).push(tconv(text@)));
                assert(history@.take(k + 1).filter(is_old).map_values(text_of).map_values(tconv) =~= history@.take(
                    k as int,
                ).filter(is_old).map_values(text_of).map_values(tconv).push(tconv(text@)));
            },
            TaskHistory::Current(_) => {
                assert(history@.take(k + 1).filter(is_old) =~= history@.take(k as int).filter(is_old));
            },
        }
        k = k + 1;
    }
    assert(history@.take(history@.len() as int) =~= history@);
    assert(old_texts(history@).map_values(tconv) =~= history@.filter(is_old).map_values(text_of).map_values(tconv));
    out
}

} // verus!
