//! The profile card of a member: its title and fields, as texts.  Each
//! list field shows its last 2000 characters; list items are marked `╠︎`,
//! the last one (or any item equal to it) `╚`.
use vstd::prelude::*;
use crate::localization::{localized, Localization};
use crate::member::{NotesHistory, ProjectMember, TaskHistory};
use crate::member_changer::history_text;
use crate::task::{Task, TaskManager};
use crate::text::{chars_of, decimal, push_all, push_decimal, signed_decimal, string_of, tail, tail_chars, u64_to_string};

verus! {

/// One field of a card.
pub struct EmbedField {
    pub name: String,
    pub value: String,
    pub inline: bool,
}

/// The mark of a list item: `╚` for the last, `╠︎` otherwise.
pub open spec fn mark(is_last: bool) -> Seq<char> {
    if is_last {
        "\u{255a}"@
    } else {
        "\u{2560}\u{fe0e}"@
    }
}

/// How many characters of a list field are shown: its last 2000.
pub open spec fn shown(text: Seq<char>) -> Seq<char> {
    tail(text, 2000)
}

// ---------------------------------------------------------------------------
// Running tasks
// ---------------------------------------------------------------------------
/// The lines of the running tasks `ids` that still exist.
pub open spec fn running_lines(ids: Seq<u32>, last: u32, tasks: Map<u32, Task>) -> Seq<char>
    decreases ids.len(),
{
    if ids.len() == 0 {
        Seq::empty()
    } else {
        let id = ids.last();
        running_lines(ids.drop_last(), last, tasks) + if tasks.dom().contains(id) {
            mark(id == last) + " <#"@ + decimal(tasks[id].thread_id as nat) + ">\n"@
        } else {
            Seq::empty()
        }
    }
}

/// The running tasks of one project: a heading and the lines.
pub open spec fn running_section(project: Seq<char>, ids: Seq<u32>, tasks: Map<u32, Task>) -> Seq<char> {
    if ids.len() == 0 {
        Seq::empty()
    } else {
        "**"@ + project + " ("@ + decimal(ids.len()) + "):**\n"@ + running_lines(ids, ids.last(), tasks)
    }
}

/// The running tasks of the first `n` projects.
pub open spec fn running_text(projects: Seq<Seq<char>>, lists: Seq<Vec<u32>>, n: nat, tasks: Map<u32, Task>) -> Seq<char>
    decreases n,
{
    if n == 0 {
        Seq::empty()
    } else {
        running_text(projects, lists, (n - 1) as nat, tasks) + running_section(projects[n - 1], lists[n - 1]@, tasks)
    }
}

// ---------------------------------------------------------------------------
// Finished and mentored tasks
// ---------------------------------------------------------------------------
/// Whether two history entries are the same.
pub open spec fn same_history(a: TaskHistory, b: TaskHistory) -> bool {
    match (a, b) {
        (TaskHistory::Current(x), TaskHistory::Current(y)) => x@ == y@,
        (TaskHistory::OldFormat(x), TaskHistory::OldFormat(y)) => x@ == y@,
        _ => false,
    }
}

/// The lines of history entries.
pub open spec fn history_lines(entries: Seq<TaskHistory>, last: TaskHistory, tasks: Map<u32, Task>) -> Seq<char>
    decreases entries.len(),
{
    if entries.len() == 0 {
        Seq::empty()
    } else {
        let e = entries.last();
        history_lines(entries.drop_last(), last, tasks) + mark(same_history(e, last)) + " "@ + history_text(e, tasks) + "\n"@
    }
}

/// The history of one project: a heading and the lines.
pub open spec fn history_section(project: Seq<char>, entries: Seq<TaskHistory>, tasks: Map<u32, Task>) -> Seq<char> {
    if entries.len() == 0 {
        Seq::empty()
    } else {
        "**"@ + project + " ("@ + decimal(entries.len()) + ")**\n"@ + history_lines(entries, entries.last(), tasks)
    }
}

/// The histories of the first `n` projects.
pub open spec fn history_text_of(projects: Seq<Seq<char>>, lists: Seq<Vec<TaskHistory>>, n: nat, tasks: Map<u32, Task>) -> Seq<char>
    decreases n,
{
    if n == 0 {
        Seq::empty()
    } else {
        history_text_of(projects, lists, (n - 1) as nat, tasks) + history_section(projects[n - 1], lists[n - 1]@, tasks)
    }
}

/// Every task that the histories record still exists (a card of a member
/// whose history names a deleted task cannot be drawn).
pub open spec fn histories_known(lists: Map<Seq<char>, Vec<TaskHistory>>, tasks: Map<u32, Task>) -> bool {
    forall|k: Seq<char>, i: int|
        lists.dom().contains(k) && 0 <= i < lists[k]@.len() ==> entry_known(#[trigger] lists[k]@[i], tasks)
}

/// Every task that a history entry records still exists.
pub open spec fn entry_known(e: TaskHistory, tasks: Map<u32, Task>) -> bool {
    match e {
        TaskHistory::Current(v) => forall|j: int| 0 <= j < v@.len() ==> tasks.dom().contains(#[trigger] v@[j].1),
        TaskHistory::OldFormat(_) => true,
    }
}

// ---------------------------------------------------------------------------
// Last activity, notes and warnings
// ---------------------------------------------------------------------------
/// The lines of the last activity of the first `n` of `total` projects.
pub open spec fn activity_lines(projects: Seq<Seq<char>>, times: Seq<i64>, n: nat, total: nat) -> Seq<char>
    decreases n,
{
    if n == 0 {
        Seq::empty()
    } else {
        activity_lines(projects, times, (n - 1) as nat, total) + mark(n == total) + " **"@ + projects[n - 1] + "**: <t:"@
            + signed_decimal(times[n - 1] as int) + ":R>\n"@
    }
}

/// Whether two notes are the same.
pub open spec fn same_note(a: NotesHistory, b: NotesHistory) -> bool {
    match (a, b) {
        (NotesHistory::Current(u1, t1, s1), NotesHistory::Current(u2, t2, s2)) => u1 == u2 && t1 == t2 && s1@ == s2@,
        (NotesHistory::OldFormat(x), NotesHistory::OldFormat(y)) => x@ == y@,
        _ => false,
    }
}

/// How a note reads: `<@writer> <t:time:D>: text`, or an old text.
pub open spec fn note_line(n: NotesHistory) -> Seq<char> {
    match n {
        NotesHistory::Current(u, t, s) => "<@"@ + decimal(u as nat) + "> <t:"@ + signed_decimal(t as int) + ":D>: "@ + s@,
        NotesHistory::OldFormat(s) => s@,
    }
}

/// The lines of notes or warnings.
pub open spec fn note_lines(notes: Seq<NotesHistory>, last: NotesHistory) -> Seq<char>
    decreases notes.len(),
{
    if notes.len() == 0 {
        Seq::empty()
    } else {
        note_lines(notes.drop_last(), last) + mark(same_note(notes.last(), last)) + " "@ + note_line(notes.last()) + "\n"@
    }
}

// ---------------------------------------------------------------------------
// The card
// ---------------------------------------------------------------------------
/// The name of a list field: the localized `key` with `{num}` the count.
pub open spec fn counted_name(entries: Map<Seq<char>, Seq<char>>, key: Seq<char>, count: nat) -> Seq<char> {
    localized(entries, key, seq![("num"@, decimal(count))])
}

/// The list fields of the card of `m`: running, finished and mentored
/// tasks, each when there are any.
pub open spec fn list_fields(m: ProjectMember, tasks: Map<u32, Task>, entries: Map<Seq<char>, Seq<char>>) -> Seq<(Seq<char>, Seq<char>)> {
    let running = if m.in_tasks@.dom().len() > 0 {
        seq![(
            counted_name(entries, "member-stat-embed-in-tasks-name"@, m.in_tasks@.dom().len()),
            shown(running_text(m.in_tasks.key_seq(), m.in_tasks.value_seq(), m.in_tasks.key_seq().len(), tasks)),
        )]
    } else {
        Seq::empty()
    };
    let done = if m.done_tasks@.dom().len() > 0 {
        seq![(
            counted_name(entries, "member-stat-embed-done-tasks-name"@, m.done_tasks@.dom().len()),
            shown(history_text_of(m.done_tasks.key_seq(), m.done_tasks.value_seq(), m.done_tasks.key_seq().len(), tasks)),
        )]
    } else {
        Seq::empty()
    };
    let mentor = if m.mentor_tasks@.dom().len() > 0 {
        seq![(
            counted_name(entries, "member-stat-embed-mentor-tasks-name"@, m.mentor_tasks@.dom().len()),
            shown(history_text_of(m.mentor_tasks.key_seq(), m.mentor_tasks.value_seq(), m.mentor_tasks.key_seq().len(), tasks)),
        )]
    } else {
        Seq::empty()
    };
    running + done + mentor
}

/// The folder (when set) and the scores of the card of `m`.
pub open spec fn plain_fields(m: ProjectMember, entries: Map<Seq<char>, Seq<char>>) -> Seq<(Seq<char>, Seq<char>)> {
    let folder = match m.own_folder {
        Some(f) => seq![(localized(entries, "member-stat-embed-folder-name"@, Seq::empty()), "`"@ + f@ + "`"@)],
        None => Seq::empty(),
    };
    folder + seq![
        (localized(entries, "member-stat-embed-score-name"@, Seq::empty()), "`"@ + signed_decimal(m.score as int) + "`"@),
        (localized(entries, "member-stat-embed-all-time-score-name"@, Seq::empty()), "`"@ + signed_decimal(m.all_time_score as int) + "`"@),
    ]
}

/// The fields for moderators: last activity, notes and warnings, each when
/// there are any.
pub open spec fn secret_fields(m: ProjectMember, entries: Map<Seq<char>, Seq<char>>) -> Seq<(Seq<char>, Seq<char>)> {
    let activity = if m.last_activity@.dom().len() > 0 {
        seq![(
            localized(entries, "member-stat-embed-last-activity-name"@, Seq::empty()),
            shown(activity_lines(m.last_activity.key_seq(), m.last_activity.value_seq(), m.last_activity.key_seq().len(), m.last_activity.key_seq().len())),
        )]
    } else {
        Seq::empty()
    };
    let notes = if m.notes@.len() > 0 {
        seq![(counted_name(entries, "member-stat-embed-notes-name"@, m.notes@.len()), shown(note_lines(m.notes@, m.notes@.last())))]
    } else {
        Seq::empty()
    };
    let warns = if m.warns@.len() > 0 {
        seq![(counted_name(entries, "member-stat-embed-warns-name"@, m.warns@.len()), shown(note_lines(m.warns@, m.warns@.last())))]
    } else {
        Seq::empty()
    };
    activity + notes + warns
}

/// The fields of the card of `m` (as name and value), in order; the
/// fields for moderators only when `show_secret`.
pub open spec fn member_fields(
    m: ProjectMember,
    tasks: Map<u32, Task>,
    entries: Map<Seq<char>, Seq<char>>,
    show_secret: bool,
) -> Seq<(Seq<char>, Seq<char>)> {
    list_fields(m, tasks, entries) + plain_fields(m, entries) + if show_secret {
        secret_fields(m, entries)
    } else {
        Seq::empty()
    }
}

/// The name and value views of fields.
pub open spec fn fields_view(fields: Seq<EmbedField>) -> Seq<(Seq<char>, Seq<char>)> {
    fields.map_values(|f: EmbedField| (f.name@, f.value@))
}

fn push_str(out: &mut Vec<char>, s: &str)
    ensures
        final(out)@ == old(out)@ + s@,
{
    let v = chars_of(s);
    push_all(out, &v);
}

fn push_signed(out: &mut Vec<char>, n: i64)
    ensures
        final(out)@ == old(out)@ + signed_decimal(n as int),
{
    if n < 0 {
        out.push('-');
        let m: u64 = if n == i64::MIN {
            9223372036854775808u64
        } else {
            (-n) as u64
        };
        push_decimal(out, m);
        assert(out@ =~= old(out)@ + signed_decimal(n as int));
    } else {
        push_decimal(out, n as u64);
    }
}

fn push_mark(out: &mut Vec<char>, is_last: bool)
    ensures
        final(out)@ == old(out)@ + mark(is_last),
{
    if is_last {
        push_str(out, "\u{255a}");
    } else {
        push_str(out, "\u{2560}\u{fe0e}");
    }
}

fn shown_text(v: &Vec<char>) -> (r: String)
    ensures
        r@ == shown(v@),
{
    string_of(&tail_chars(v, 2000))
}

fn same_stamps(x: &Vec<(i64, u32)>, y: &Vec<(i64, u32)>) -> (r: bool)
    ensures
        r == (x@ == y@),
{
    if x.len() != y.len() {
        return false;
    }
    let mut i: usize = 0;
    while i < x.len()
        invariant
            i <= x@.len(),
            x@.len() == y@.len(),
            forall|j: int| 0 <= j < i ==> x@[j] == y@[j],
        decreases x@.len() - i,
    {
        if x[i].0 != y[i].0 || x[i].1 != y[i].1 {
            assert(x@[i as int] != y@[i as int]);
            return false;
        }
        i = i + 1;
    }
    assert(x@ =~= y@);
    true
}

fn same_history_exec(a: &TaskHistory, b: &TaskHistory) -> (r: bool)
    ensures
        r == same_history(*a, *b),
{
    match (a, b) {
        (TaskHistory::Current(x), TaskHistory::Current(y)) => same_stamps(x, y),
        (TaskHistory::OldFormat(x), TaskHistory::OldFormat(y)) => same_chars(x.as_str(), y.as_str()),
        _ => false,
    }
}

fn same_chars(a: &str, b: &str) -> (r: bool)
    ensures
        r == (a@ == b@),
{
    let x = chars_of(a);
    let y = chars_of(b);
    if x.len() != y.len() {
        return false;
    }
    let mut i: usize = 0;
    while i < x.len()
        invariant
            i <= x@.len(),
            x@ == a@,
            y@ == b@,
            x@.len() == y@.len(),
            forall|j: int| 0 <= j < i ==> x@[j] == y@[j],
        decreases x@.len() - i,
    {
        if x[i] != y[i] {
            assert(x@[i as int] != y@[i as int]);
            return false;
        }
        i = i + 1;
    }
    assert(x@ =~= y@);
    true
}

fn same_note_exec(a: &NotesHistory, b: &NotesHistory) -> (r: bool)
    ensures
        r == same_note(*a, *b),
{
    match (a, b) {
        (NotesHistory::Current(u1, t1, s1), NotesHistory::Current(u2, t2, s2)) => *u1 == *u2 && *t1 == *t2
            && same_chars(s1.as_str(), s2.as_str()),
        (NotesHistory::OldFormat(x), NotesHistory::OldFormat(y)) => same_chars(x.as_str(), y.as_str()),
        _ => false,
    }
}

fn running_value(m: &ProjectMember, tasks: &TaskManager) -> (r: Vec<char>)
    ensures
        r@ == running_text(m.in_tasks.key_seq(), m.in_tasks.value_seq(), m.in_tasks.key_seq().len(), tasks@),
{
    m.in_tasks.lemma_seqs();
    let n = m.in_tasks.len();
    let mut out: Vec<char> = Vec::new();
    let mut i: usize = 0;
    while i < n
        invariant
            n == m.in_tasks.key_seq().len(),
            n == m.in_tasks.value_seq().len(),
            i <= n,
            out@ == running_text(m.in_tasks.key_seq(), m.in_tasks.value_seq(), i as nat, tasks@),
        decreases n - i,
    {
        let (project, ids) = m.in_tasks.entry_at(i);
        let ghost before = out@;
        if ids.len() > 0 {
            push_str(&mut out, "**");
            push_all(&mut out, &chars_of(project.as_str()));
            push_str(&mut out, " (");
            push_decimal(&mut out, ids.len() as u64);
            push_str(&mut out, "):**\n");
            let last = ids[ids.len() - 1];
            let ghost head = out@;
            let mut j: usize = 0;
            assert(ids@.subrange(0, 0) =~= Seq::<u32>::empty());
            while j < ids.len()
                invariant
                    j <= ids@.len(),
                    out@ == head + running_lines(ids@.subrange(0, j as int), last, tasks@),
                decreases ids@.len() - j,
            {
                proof {
                    assert(ids@.subrange(0, j + 1).drop_last() =~= ids@.subrange(0, j as int));
                    assert(ids@.subrange(0, j + 1).last() == ids@[j as int]);
                }
                let id = ids[j];
                match tasks.get(id) {
                    Some(t) => {
                        let ghost b = out@;
                        push_mark(&mut out, id == last);
                        push_str(&mut out, " <#");
                        push_decimal(&mut out, t.thread_id);
                        push_str(&mut out, ">\n");
                        assert(out@ =~= b + (mark(id == last) + " <#"@ + decimal(t.thread_id as nat) + ">\n"@));
                        assert(out@ =~= head + running_lines(ids@.subrange(0, j + 1), last, tasks@));
                    },
                    None => {
                        assert(out@ =~= head + running_lines(ids@.subrange(0, j + 1), last, tasks@));
                    },
                }
                j = j + 1;
            }
            assert(ids@.subrange(0, ids@.len() as int) =~= ids@);
            assert(out@ =~= before + running_section(project@, ids@, tasks@));
        } else {
            assert(out@ =~= before + running_section(project@, ids@, tasks@));
        }
        i = i + 1;
    }
    out
}

fn history_value(lists: &crate::maps::NameMap<Vec<TaskHistory>>, tasks: &TaskManager) -> (r: Vec<char>)
    ensures
        r@ == history_text_of(lists.key_seq(), lists.value_seq(), lists.key_seq().len(), tasks@),
{
    lists.lemma_seqs();
    let n = lists.len();
    let mut out: Vec<char> = Vec::new();
    let mut i: usize = 0;
    while i < n
        invariant
            n == lists.key_seq().len(),
            n == lists.value_seq().len(),
            i <= n,
            out@ == history_text_of(lists.key_seq(), lists.value_seq(), i as nat, tasks@),
        decreases n - i,
    {
        let (project, entries) = lists.entry_at(i);
        let ghost before = out@;
        if entries.len() > 0 {
            push_str(&mut out, "**");
            push_all(&mut out, &chars_of(project.as_str()));
            push_str(&mut out, " (");
            push_decimal(&mut out, entries.len() as u64);
            push_str(&mut out, ")**\n");
            let last = &entries[entries.len() - 1];
            let ghost head = out@;
            let mut j: usize = 0;
            assert(entries@.subrange(0, 0) =~= Seq::<TaskHistory>::empty());
            while j < entries.len()
                invariant
                    j <= entries@.len(),
                    *last == entries@.last(),
                    entries@.len() > 0,
                    out@ == head + history_lines(entries@.subrange(0, j as int), *last, tasks@),
                decreases entries@.len() - j,
            {
                proof {
                    assert(entries@.subrange(0, j + 1).drop_last() =~= entries@.subrange(0, j as int));
                    assert(entries@.subrange(0, j + 1).last() == entries@[j as int]);
                }
                let e = &entries[j];
                let ghost b = out@;
                push_mark(&mut out, same_history_exec(e, last));
                push_str(&mut out, " ");
                let text = e.get(tasks);
                push_all(&mut out, &chars_of(text.as_str()));
                push_str(&mut out, "\n");
                assert(out@ =~= head + history_lines(entries@.subrange(0, j + 1), *last, tasks@));
                j = j + 1;
            }
            assert(entries@.subrange(0, entries@.len() as int) =~= entries@);
            assert(out@ =~= before + history_section(project@, entries@, tasks@));
        } else {
            assert(out@ =~= before + history_section(project@, entries@, tasks@));
        }
        i = i + 1;
    }
    out
}

fn activity_value(m: &ProjectMember) -> (r: Vec<char>)
    ensures
        r@ == activity_lines(m.last_activity.key_seq(), m.last_activity.value_seq(), m.last_activity.key_seq().len(), m.last_activity.key_seq().len()),
{
    m.last_activity.lemma_seqs();
    let n = m.last_activity.len();
    let mut out: Vec<char> = Vec::new();
    let mut i: usize = 0;
    while i < n
        invariant
            n == m.last_activity.key_seq().len(),
            n == m.last_activity.value_seq().len(),
            i <= n,
            out@ == activity_lines(m.last_activity.key_seq(), m.last_activity.value_seq(), i as nat, n as nat),
        decreases n - i,
    {
        let (project, time) = m.last_activity.entry_at(i);
        let ghost b = out@;
        push_mark(&mut out, i + 1 == n);
        push_str(&mut out, " **");
        push_all(&mut out, &chars_of(project.as_str()));
        push_str(&mut out, "**: <t:");
        push_signed(&mut out, *time);
        push_str(&mut out, ":R>\n");
        assert(out@ =~= activity_lines(m.last_activity.key_seq(), m.last_activity.value_seq(), (i + 1) as nat, n as nat));
        i = i + 1;
    }
    out
}

fn notes_value(notes: &Vec<NotesHistory>) -> (r: Vec<char>)
    requires
        notes@.len() > 0,
    ensures
        r@ == note_lines(notes@, notes@.last()),
{
    let last = &notes[notes.len() - 1];
    let mut out: Vec<char> = Vec::new();
    let mut i: usize = 0;
    assert(notes@.subrange(0, 0) =~= Seq::<NotesHistory>::empty());
    while i < notes.len()
        invariant
            i <= notes@.len(),
            notes@.len() > 0,
            *last == notes@.last(),
            out@ == note_lines(notes@.subrange(0, i as int), *last),
        decreases notes@.len() - i,
    {
        proof {
            assert(notes@.subrange(0, i + 1).drop_last() =~= notes@.subrange(0, i as int));
            assert(notes@.subrange(0, i + 1).last() == notes@[i as int]);
        }
        let n = &notes[i];
        push_mark(&mut out, same_note_exec(n, last));
        push_str(&mut out, " ");
        match n {
            NotesHistory::Current(u, t, s) => {
                push_str(&mut out, "<@");
                push_decimal(&mut out, *u);
                push_str(&mut out, "> <t:");
                push_signed(&mut out, *t);
                push_str(&mut out, ":D>: ");
                push_all(&mut out, &chars_of(s.as_str()));
            },
            NotesHistory::OldFormat(s) => {
                push_all(&mut out, &chars_of(s.as_str()));
            },
        }
        push_str(&mut out, "\n");
        assert(out@ =~= note_lines(notes@.subrange(0, i + 1), *last));
        i = i + 1;
    }
    assert(notes@.subrange(0, notes@.len() as int) =~= notes@);
    out
}

fn counted(loc: &Localization, key: &str, count: usize) -> (r: String)
    ensures
        r@ == counted_name(loc.entries(), key@, count as nat),
{
    let mut reps: Vec<(String, String)> = Vec::new();
    reps.push((string_of(&chars_of("num")), u64_to_string(count as u64)));
    proof {
        assert(crate::localization::reps_view(reps@) =~= seq![("num"@, decimal(count as nat))]);
    }
    loc.get_string(key, Some(reps))
}

fn quoted_signed(n: i64) -> (r: String)
    ensures
        r@ == "`"@ + signed_decimal(n as int) + "`"@,
{
    let mut out: Vec<char> = Vec::new();
    push_str(&mut out, "`");
    push_signed(&mut out, n);
    push_str(&mut out, "`");
    string_of(&out)
}

impl ProjectMember {
    /// The title of the card of the member shown as `display_name`.
    pub fn embed_title(&self, loc: &Localization, display_name: &str) -> (r: String)
        ensures
            r@ == localized(loc.entries(), "member-stat-embed-title"@, seq![("member"@, display_name@)]),
    {
        let mut reps: Vec<(String, String)> = Vec::new();
        reps.push((string_of(&chars_of("member")), string_of(&chars_of(display_name))));
        proof {
            assert(crate::localization::reps_view(reps@) =~= seq![("member"@, display_name@)]);
        }
        loc.get_string("member-stat-embed-title", Some(reps))
    }

    fn list_fields_exec(&self, tasks: &TaskManager, loc: &Localization) -> (r: Vec<EmbedField>)
        ensures
            fields_view(r@) == list_fields(*self, tasks@, loc.entries()),
            forall|i: int| 0 <= i < r@.len() ==> !(#[trigger] r@[i]).inline,
    {
        let mut fields: Vec<EmbedField> = Vec::new();
        self.in_tasks.lemma_seqs();
        self.done_tasks.lemma_seqs();
        self.mentor_tasks.lemma_seqs();
        let ghost f0 = if self.in_tasks@.dom().len() > 0 {
            seq![(
                counted_name(loc.entries(), "member-stat-embed-in-tasks-name"@, self.in_tasks@.dom().len()),
                shown(running_text(self.in_tasks.key_seq(), self.in_tasks.value_seq(), self.in_tasks.key_seq().len(), tasks@)),
            )]
        } else {
            Seq::empty()
        };
        if self.in_tasks.len() > 0 {
            let v = running_value(self, tasks);
            fields.push(EmbedField {
                name: counted(loc, "member-stat-embed-in-tasks-name", self.in_tasks.len()),
                value: shown_text(&v),
                inline: false,
            });
        }
        assert(fields_view(fields@) =~= f0);
        let ghost f1 = if self.done_tasks@.dom().len() > 0 {
            seq![(
                counted_name(loc.entries(), "member-stat-embed-done-tasks-name"@, self.done_tasks@.dom().len()),
                shown(history_text_of(self.done_tasks.key_seq(), self.done_tasks.value_seq(), self.done_tasks.key_seq().len(), tasks@)),
            )]
        } else {
            Seq::empty()
        };
        if self.done_tasks.len() > 0 {
            let v = history_value(&self.done_tasks, tasks);
            fields.push(EmbedField {
                name: counted(loc, "member-stat-embed-done-tasks-name", self.done_tasks.len()),
                value: shown_text(&v),
                inline: false,
            });
        }
        assert(fields_view(fields@) =~= f0 + f1);
        let ghost f2 = if self.mentor_tasks@.dom().len() > 0 {
            seq![(
                counted_name(loc.entries(), "member-stat-embed-mentor-tasks-name"@, self.mentor_tasks@.dom().len()),
                shown(history_text_of(self.mentor_tasks.key_seq(), self.mentor_tasks.value_seq(), self.mentor_tasks.key_seq().len(), tasks@)),
            )]
        } else {
            Seq::empty()
        };
        if self.mentor_tasks.len() > 0 {
            let v = history_value(&self.mentor_tasks, tasks);
            fields.push(EmbedField {
                name: counted(loc, "member-stat-embed-mentor-tasks-name", self.mentor_tasks.len()),
                value: shown_text(&v),
                inline: false,
            });
        }
        assert(fields_view(fields@) =~= f0 + f1 + f2);
        fields
    }

    fn plain_fields_exec(&self, loc: &Localization) -> (r: Vec<EmbedField>)
        ensures
            fields_view(r@) == plain_fields(*self, loc.entries()),
            forall|i: int| 0 <= i < r@.len() ==> !(#[trigger] r@[i]).inline,
    {
        let mut fields: Vec<EmbedField> = Vec::new();
        match &self.own_folder {
            Some(f) => {
                let mut out: Vec<char> = Vec::new();
                push_str(&mut out, "`");
                push_all(&mut out, &chars_of(f.as_str()));
                push_str(&mut out, "`");
                fields.push(EmbedField {
                    name: loc.get_string("member-stat-embed-folder-name", None),
                    value: string_of(&out),
                    inline: false,
                });
            },
            None => {},
        }
        fields.push(EmbedField {
            name: loc.get_string("member-stat-embed-score-name", None),
            value: quoted_signed(self.score),
            inline: false,
        });
        fields.push(EmbedField {
            name: loc.get_string("member-stat-embed-all-time-score-name", None),
            value: quoted_signed(self.all_time_score),
            inline: false,
        });
        assert(fields_view(fields@) =~= plain_fields(*self, loc.entries()));
        fields
    }

    fn secret_fields_exec(&self, loc: &Localization) -> (r: Vec<EmbedField>)
        ensures
            fields_view(r@) == secret_fields(*self, loc.entries()),
            forall|i: int| 0 <= i < r@.len() ==> !(#[trigger] r@[i]).inline,
    {
        let mut fields: Vec<EmbedField> = Vec::new();
        self.last_activity.lemma_seqs();
        let ghost f0 = if self.last_activity@.dom().len() > 0 {
            seq![(
                localized(loc.entries(), "member-stat-embed-last-activity-name"@, Seq::empty()),
                shown(activity_lines(self.last_activity.key_seq(), self.last_activity.value_seq(), self.last_activity.key_seq().len(), self.last_activity.key_seq().len())),
            )]
        } else {
            Seq::empty()
        };
        if self.last_activity.len() > 0 {
            let v = activity_value(self);
            fields.push(EmbedField {
                name: loc.get_string("member-stat-embed-last-activity-name", None),
                value: shown_text(&v),
                inline: false,
            });
        }
        assert(fields_view(fields@) =~= f0);
        let ghost f1 = if self.notes@.len() > 0 {
            seq![(counted_name(loc.entries(), "member-stat-embed-notes-name"@, self.notes@.len()), shown(note_lines(self.notes@, self.notes@.last())))]
        } else {
            Seq::empty()
        };
        if self.notes.len() > 0 {
            let v = notes_value(&self.notes);
            fields.push(EmbedField {
                name: counted(loc, "member-stat-embed-notes-name", self.notes.len()),
                value: shown_text(&v),
                inline: false,
            });
        }
        assert(fields_view(fields@) =~= f0 + f1);
        let ghost f2 = if self.warns@.len() > 0 {
            seq![(counted_name(loc.entries(), "member-stat-embed-warns-name"@, self.warns@.len()), shown(note_lines(self.warns@, self.warns@.last())))]
        } else {
            Seq::empty()
        };
        if self.warns.len() > 0 {
            let v = notes_value(&self.warns);
            fields.push(EmbedField {
                name: counted(loc, "member-stat-embed-warns-name", self.warns.len()),
                value: shown_text(&v),
                inline: false,
            });
        }
        assert(fields_view(fields@) =~= f0 + f1 + f2);
        fields
    }

    /// The fields of the member's card (see `member_fields`); the last
    /// activity, notes and warnings only when `show_secret`.  Every task
    /// that the finished and mentored tasks record must still exist.
    pub fn embed_fields(&self, tasks: &TaskManager, loc: &Localization, show_secret: bool) -> (r: Vec<EmbedField>)
        requires
            histories_known(self.done_tasks@, tasks@),
            histories_known(self.mentor_tasks@, tasks@),
        ensures
            fields_view(r@) == member_fields(*self, tasks@, loc.entries(), show_secret),
            forall|i: int| 0 <= i < r@.len() ==> !(#[trigger] r@[i]).inline,
    {
        let mut fields = self.list_fields_exec(tasks, loc);
        let plain = self.plain_fields_exec(loc);
        append_fields(&mut fields, plain);
        if show_secret {
            let secret = self.secret_fields_exec(loc);
            append_fields(&mut fields, secret);
        }
        assert(fields_view(fields@) =~= member_fields(*self, tasks@, loc.entries(), show_secret));
        fields
    }
}

fn append_fields(a: &mut Vec<EmbedField>, b: Vec<EmbedField>)
    requires
        forall|i: int| 0 <= i < old(a)@.len() ==> !(#[trigger] old(a)@[i]).inline,
        forall|i: int| 0 <= i < b@.len() ==> !(#[trigger] b@[i]).inline,
    ensures
        fields_view(final(a)@) == fields_view(old(a)@) + fields_view(b@),
        forall|i: int| 0 <= i < final(a)@.len() ==> !(#[trigger] final(a)@[i]).inline,
{
    let mut b = b;
    let ghost start = a@;
    let ghost bv = b@;
    a.append(&mut b);
    proof {
        assert(a@ =~= start + bv);
        assert(fields_view(a@) =~= fields_view(start) + fields_view(bv));
        assert forall|i: int| 0 <= i < a@.len() implies !(#[trigger] a@[i]).inline by {
            if i >= start.len() {
                assert(a@[i] == bv[i - start.len()]);
            }
        }
    }
}

} // verus!
