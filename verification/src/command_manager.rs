//! Which handler answers a slash command, a message component or a modal,
//! by its id, and the log entry written after a call.  The handlers
//! themselves are kept by the caller behind numeric handles.
use vstd::prelude::*;
use crate::logger::LoggingLevels;
use crate::maps::NameMap;
use crate::text::{chars_of, decimal, push_all, push_decimal, string_of};

verus! {

/// The three kinds of interaction that have handlers.
#[derive(PartialEq, Eq, Structural, Clone, Copy, Debug)]
pub enum CallKind {
    Command,
    Component,
    Modal,
}

/// How a handler call went.
pub enum CallOutcome {
    /// The handler succeeded; the member who triggered it, if known, by
    /// display name and id.
    Done { member: Option<(String, u64)> },
    /// The handler failed with this error text.
    Failed(String),
}

/// The word for a kind in log texts.
pub open spec fn kind_word(kind: CallKind) -> Seq<char> {
    match kind {
        CallKind::Command => "command"@,
        CallKind::Component => "component"@,
        CallKind::Modal => "modal"@,
    }
}

/// The author prefix of the entries about a kind's handlers.
pub open spec fn kind_group(kind: CallKind) -> Seq<char> {
    match kind {
        CallKind::Command => "commands."@,
        CallKind::Component => "components."@,
        CallKind::Modal => "modals."@,
    }
}

/// The log entry (level, author, content) after a call of the handler of
/// `name`: `None` when no handler is registered.
pub open spec fn call_report(kind: CallKind, name: Seq<char>, outcome: Option<CallOutcome>) -> (
    LoggingLevels,
    Seq<char>,
    Seq<char>,
) {
    match outcome {
        None => (
            LoggingLevels::Error,
            "com_man.call_"@ + kind_word(kind),
            "command manager cannot find call for "@ + kind_word(kind) + ": "@ + name,
        ),
        Some(CallOutcome::Done { member }) => {
            let (who, id) = match member {
                Some((n, i)) => (n@, i),
                None => ("Unknown"@, 0u64),
            };
            (
                LoggingLevels::Debug,
                kind_group(kind) + name,
                kind_word(kind) + " triggered by "@ + who + " ("@ + decimal(id as nat) + ")"@,
            )
        },
        Some(CallOutcome::Failed(e)) => (
            LoggingLevels::Error,
            kind_group(kind) + name,
            kind_word(kind) + " caused a panic with error: "@ + e@,
        ),
    }
}

/// The handlers, by id, for each kind of interaction.
pub struct CommandManager {
    commands: NameMap<u64>,
    components: NameMap<u64>,
    modals: NameMap<u64>,
}

fn push_str(out: &mut Vec<char>, s: &str)
    ensures
        final(out)@ == old(out)@ + s@,
{
    let v = chars_of(s);
    push_all(out, &v);
}

fn kind_word_exec(kind: CallKind) -> (r: &'static str)
    ensures
        r@ == kind_word(kind),
{
    match kind {
        CallKind::Command => "command",
        CallKind::Component => "component",
        CallKind::Modal => "modal",
    }
}

fn kind_group_exec(kind: CallKind) -> (r: &'static str)
    ensures
        r@ == kind_group(kind),
{
    match kind {
        CallKind::Command => "commands.",
        CallKind::Component => "components.",
        CallKind::Modal => "modals.",
    }
}

/// The log entry after a call (see `call_report`).
pub fn report(kind: CallKind, name: &str, outcome: Option<&CallOutcome>) -> (r: (LoggingLevels, String, String))
    ensures
        ({
            let expected = call_report(
                kind,
                name@,
                match outcome {
                    Some(o) => Some(*o),
                    None => None,
                },
            );
            r.0 == expected.0 && r.1@ == expected.1 && r.2@ == expected.2
        }),
{
    let word = kind_word_exec(kind);
    match outcome {
        None => {
            let mut author: Vec<char> = Vec::new();
            push_str(&mut author, "com_man.call_");
            push_str(&mut author, word);
            let mut content: Vec<char> = Vec::new();
            push_str(&mut content, "command manager cannot find call for ");
            push_str(&mut content, word);
            push_str(&mut content, ": ");
            push_str(&mut content, name);
            (LoggingLevels::Error, string_of(&author), string_of(&content))
        },
        Some(CallOutcome::Done { member }) => {
            let mut author: Vec<char> = Vec::new();
            push_str(&mut author, kind_group_exec(kind));
            push_str(&mut author, name);
            let mut content: Vec<char> = Vec::new();
            push_str(&mut content, word);
            push_str(&mut content, " triggered by ");
            let id = match member {
                Some((n, i)) => {
                    push_str(&mut content, n.as_str());
                    *i
                },
                None => {
                    push_str(&mut content, "Unknown");
                    0
                },
            };
            push_str(&mut content, " (");
            push_decimal(&mut content, id);
            push_str(&mut content, ")");
            (LoggingLevels::Debug, string_of(&author), string_of(&content))
        },
        Some(CallOutcome::Failed(e)) => {
            let mut author: Vec<char> = Vec::new();
            push_str(&mut author, kind_group_exec(kind));
            push_str(&mut author, name);
            let mut content: Vec<char> = Vec::new();
            push_str(&mut content, word);
            push_str(&mut content, " caused a panic with error: ");
            push_str(&mut content, e.as_str());
            (LoggingLevels::Error, string_of(&author), string_of(&content))
        },
    }
}

impl CommandManager {
    /// The handlers of `kind`, by id.
    pub closed spec fn handlers(&self, kind: CallKind) -> Map<Seq<char>, u64> {
        match kind {
            CallKind::Command => self.commands@,
            CallKind::Component => self.components@,
            CallKind::Modal => self.modals@,
        }
    }

    /// A manager with no handlers.
    pub fn new() -> (m: Self)
        ensures
            forall|k: CallKind| #[trigger] m.handlers(k) == Map::<Seq<char>, u64>::empty(),
    {
        CommandManager { commands: NameMap::new(), components: NameMap::new(), modals: NameMap::new() }
    }

    fn add(&mut self, kind: CallKind, id: &str, handle: u64)
        ensures
            final(self).handlers(kind) == old(self).handlers(kind).insert(id@, handle),
            forall|k: CallKind| k != kind ==> #[trigger] final(self).handlers(k) == old(self).handlers(k),
    {
        let key = string_of(&chars_of(id));
        match kind {
            CallKind::Command => self.commands.insert(key, handle),
            CallKind::Component => self.components.insert(key, handle),
            CallKind::Modal => self.modals.insert(key, handle),
        }
    }

    /// Registers the handler of slash command `name` (a later one replaces
    /// an earlier one).
    pub fn add_command(&mut self, name: &str, handle: u64)
        ensures
            final(self).handlers(CallKind::Command) == old(self).handlers(CallKind::Command).insert(name@, handle),
            forall|k: CallKind| k != CallKind::Command ==> #[trigger] final(self).handlers(k) == old(self).handlers(k),
    {
        self.add(CallKind::Command, name, handle);
    }

    /// Registers the handler of modal `modal_id`.
    pub fn add_modal(&mut self, modal_id: &str, handle: u64)
        ensures
            final(self).handlers(CallKind::Modal) == old(self).handlers(CallKind::Modal).insert(modal_id@, handle),
            forall|k: CallKind| k != CallKind::Modal ==> #[trigger] final(self).handlers(k) == old(self).handlers(k),
    {
        self.add(CallKind::Modal, modal_id, handle);
    }

    /// Registers the handler of component `comp_id`.
    pub fn add_component(&mut self, comp_id: &str, handle: u64)
        ensures
            final(self).handlers(CallKind::Component) == old(self).handlers(CallKind::Component).insert(comp_id@, handle),
            forall|k: CallKind| k != CallKind::Component ==> #[trigger] final(self).handlers(k) == old(self).handlers(k),
    {
        self.add(CallKind::Component, comp_id, handle);
    }

    /// The handler to run for interaction `id` of `kind`, if one is
    /// registered.
    pub fn handler(&self, kind: CallKind, id: &str) -> (r: Option<u64>)
        ensures
            r == (if self.handlers(kind).dom().contains(id@) {
                Some(self.handlers(kind)[id@])
            } else {
                None
            }),
    {
        let key = string_of(&chars_of(id));
        let found = match kind {
            CallKind::Command => self.commands.get(&key),
            CallKind::Component => self.components.get(&key),
            CallKind::Modal => self.modals.get(&key),
        };
        match found {
            Some(h) => Some(*h),
            None => None,
        }
    }

    /// The handler of slash command `command_name`, if any.
    pub fn call_command(&self, command_name: &str) -> (r: Option<u64>)
        ensures
            r == (if self.handlers(CallKind::Command).dom().contains(command_name@) {
                Some(self.handlers(CallKind::Command)[command_name@])
            } else {
                None
            }),
    {
        self.handler(CallKind::Command, command_name)
    }

    /// The handler of component `component_id`, if any.
    pub fn call_component(&self, component_id: &str) -> (r: Option<u64>)
        ensures
            r == (if self.handlers(CallKind::Component).dom().contains(component_id@) {
                Some(self.handlers(CallKind::Component)[component_id@])
            } else {
                None
            }),
    {
        self.handler(CallKind::Component, component_id)
    }

    /// The handler of modal `modal_id`, if any.
    pub fn call_modal(&self, modal_id: &str) -> (r: Option<u64>)
        ensures
            r == (if self.handlers(CallKind::Modal).dom().contains(modal_id@) {
                Some(self.handlers(CallKind::Modal)[modal_id@])
            } else {
                None
            }),
    {
        self.handler(CallKind::Modal, modal_id)
    }
}

impl CommandManager {
    /// Whether slash command `name` has a handler.
    pub fn contains_command(&self, name: &str) -> (r: bool)
        ensures
            r == self.handlers(CallKind::Command).dom().contains(name@),
    {
        self.call_command(name).is_some()
    }

    /// The commands of `registered` (the guild's commands) that have no
    /// handler, in order: those to delete.
    pub fn stale_commands(&self, registered: &Vec<String>) -> (r: Vec<String>)
        ensures
            r@.map_values(|x: String| x@) == registered@.map_values(|x: String| x@).filter(
                |n: Seq<char>| !self.handlers(CallKind::Command).dom().contains(n),
            ),
    {
        let ghost names = registered@.map_values(|x: String| x@);
        let ghost keep = |n: Seq<char>| !self.handlers(CallKind::Command).dom().contains(n);
        let mut out: Vec<String> = Vec::new();
        let mut i: usize = 0;
        assert(names.subrange(0, 0).filter(keep) =~= Seq::<Seq<char>>::empty());
        while i < registered.len()
            invariant
                i <= registered@.len(),
                names == registered@.map_values(|x: String| x@),
                keep == (|n: Seq<char>| !self.handlers(CallKind::Command).dom().contains(n)),
                out@.map_values(|x: String| x@) == names.subrange(0, i as int).filter(keep),
            decreases registered@.len() - i,
        {
            let ghost before = out@;
            proof {
                assert(names.subrange(0, i + 1).drop_last() =~= names.subrange(0, i as int));
                assert(names.subrange(0, i + 1).last() == registered@[i as int]@);
            }
            if !self.contains_command(registered[i].as_str()) {
                out.push(registered[i].clone());
                proof {
                    assert(names.subrange(0, i + 1) =~= names.subrange(0, i as int).push(registered@[i as int]@));
                    names.subrange(0, i as int).lemma_filter_push(registered@[i as int]@, keep);
                    assert(out@.map_values(|x: String| x@) =~= before.map_values(|x: String| x@).push(registered@[i as int]@));
                }
            } else {
                proof {
                    assert(names.subrange(0, i + 1) =~= names.subrange(0, i as int).push(registered@[i as int]@));
                    names.subrange(0, i as int).lemma_filter_push(registered@[i as int]@, keep);
                }
            }
            i = i + 1;
        }
        assert(names.subrange(0, registered@.len() as int) =~= names);
        out
    }
}

/// A registered handler is what a later call of its id finds, until the id
/// is registered again; registering leaves every other id, and every other
/// kind of interaction, as it was.
pub proof fn law_registered_handler_is_found(
    before: CommandManager,
    after: CommandManager,
    kind: CallKind,
    id: Seq<char>,
    handle: u64,
    other_id: Seq<char>,
    other_kind: CallKind,
)
    requires
        after.handlers(kind) == before.handlers(kind).insert(id, handle),
        forall|k: CallKind| k != kind ==> #[trigger] after.handlers(k) == before.handlers(k),
        other_id != id,
        other_kind != kind,
    ensures
        after.handlers(kind).dom().contains(id) && after.handlers(kind)[id] == handle,
        after.handlers(kind).dom().contains(other_id) == before.handlers(kind).dom().contains(other_id),
        before.handlers(kind).dom().contains(other_id) ==> after.handlers(kind)[other_id] == before.handlers(kind)[other_id],
        after.handlers(other_kind) == before.handlers(other_kind),
{
}

} // verus!
