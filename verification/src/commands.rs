//! What a slash command declares: the locale keys of its name and
//! description, and one option per parameter of the function that handles
//! it, typed by the parameter's type and required unless it is an `Option`.
use vstd::prelude::*;
use crate::changers::same_text;
use crate::maps::NameMap;
use crate::localization::{localized, Localization};
use crate::text::{chars_of, concat, replace_all, replace_str, string_of, sub_chars};

verus! {

/// The lower-case form of a text, as `str::to_lowercase` gives it.
pub uninterp spec fn lowercase(s: Seq<char>) -> Seq<char>;

/// `str::to_lowercase`: every character replaced by its Unicode lower-case
/// mapping.  The contract names the result `lowercase`, a function of the
/// text alone; the mapping itself is left unstated.
#[verifier::external_body]
fn to_lowercase(s: &str) -> (r: String)
    ensures
        r@ == lowercase(s@),
{
    s.to_lowercase()
}

/// The key form of an identifier: each `_` becomes `-`, then all of it is
/// put in lower case.
pub open spec fn key_form(name: Seq<char>) -> Seq<char> {
    lowercase(replace_all(name, "_"@, "-"@))
}

/// The key form of `name` (see `key_form`).
pub fn key_form_of(name: &str) -> (r: String)
    ensures
        r@ == key_form(name@),
{
    proof {
        reveal_strlit("_");
    }
    let dashed = replace_str(name, "_", "-");
    to_lowercase(dashed.as_str())
}

/// The kind of a command option, by the parameter type it is read into.
#[derive(Clone, Copy, Debug, PartialEq, Eq, Structural)]
pub enum OptionType {
    String,
    Boolean,
    User,
    Channel,
    Role,
    Attachment,
    Number,
    Integer,
}

/// The part of a command's resolved data that an option's value is looked
/// up in (users, channels, roles or attachments).
#[derive(Clone, Copy, Debug, PartialEq, Eq, Structural)]
pub enum ResolvedField {
    Users,
    Channels,
    Roles,
    Attachments,
}

/// A handler parameter's type, by the last segment of its path: written
/// as is, or inside `Option<..>`.
#[derive(Clone, Debug, PartialEq)]
pub enum ParamKind {
    Plain(String),
    Optional(String),
}

/// One option of a command.
#[derive(Clone, Debug, PartialEq)]
pub struct CommandOption {
    /// Locale key of the option's name.
    pub name_key: String,
    /// Locale key of the option's description.
    pub description_key: String,
    /// Locale key of the option's list of choices, where it has one.
    pub choice_key: String,
    pub option_type: OptionType,
    pub required: bool,
    /// Where a value of this option is looked up, for those that are ids.
    pub resolved: Option<ResolvedField>,
    /// The place among the interaction's options that this option's value
    /// is read from; it is handed to the parameter at the same place.
    pub value_index: usize,
}

/// What a command declares.
#[derive(Clone, Debug, PartialEq)]
pub struct CommandSpec {
    /// The command's locale key, `<name>-command`.
    pub locale_key: String,
    pub name_key: String,
    pub description_key: String,
    pub options: Vec<CommandOption>,
}

/// A parameter whose type a command cannot take: its place among the
/// parameters and the type's name.
#[derive(Clone, Debug, PartialEq)]
pub struct UnsupportedParam {
    pub index: usize,
    pub written_type: String,
}

/// The option type that a parameter of type `t` is read as; `None` for a
/// type that a command cannot take.
pub open spec fn option_type_named(t: Seq<char>) -> Option<OptionType> {
    if t == "String"@ {
        Some(OptionType::String)
    } else if t == "bool"@ {
        Some(OptionType::Boolean)
    } else if t == "User"@ {
        Some(OptionType::User)
    } else if t == "PartialChannel"@ {
        Some(OptionType::Channel)
    } else if t == "Role"@ {
        Some(OptionType::Role)
    } else if t == "Attachment"@ {
        Some(OptionType::Attachment)
    } else if t == "f64"@ {
        Some(OptionType::Number)
    } else if t == "i64"@ {
        Some(OptionType::Integer)
    } else {
        None
    }
}

/// Where a value of an option of type `o` is looked up.
pub open spec fn resolved_field(o: OptionType) -> Option<ResolvedField> {
    match o {
        OptionType::User => Some(ResolvedField::Users),
        OptionType::Channel => Some(ResolvedField::Channels),
        OptionType::Role => Some(ResolvedField::Roles),
        OptionType::Attachment => Some(ResolvedField::Attachments),
        _ => None,
    }
}

/// The type name written for a parameter.
pub open spec fn kind_type(k: ParamKind) -> Seq<char> {
    match k {
        ParamKind::Plain(t) => t@,
        ParamKind::Optional(t) => t@,
    }
}

/// Whether a command can take a parameter of kind `k`.
pub open spec fn supported(k: ParamKind) -> bool {
    option_type_named(kind_type(k)) is Some
}

/// The locale key `<command>-param-<param><part>`.
pub open spec fn option_key(locale_key: Seq<char>, param_key: Seq<char>, part: Seq<char>) -> Seq<char> {
    locale_key + "-param-"@ + param_key + part
}

/// Whether `o` is the option of the parameter at place `i`, of kind `k`
/// and whose key form is `param_key`, in the command with locale key
/// `locale_key`.
pub open spec fn describes_option(o: CommandOption, locale_key: Seq<char>, i: int, param_key: Seq<char>, k: ParamKind) -> bool {
    &&& o.value_index == i
    &&& o.name_key@ == option_key(locale_key, param_key, "-name"@)
    &&& o.description_key@ == option_key(locale_key, param_key, "-description"@)
    &&& o.choice_key@ == option_key(locale_key, param_key, "-choice"@)
    &&& Some(o.option_type) == option_type_named(kind_type(k))
    &&& o.required == (k is Plain)
    &&& o.resolved == resolved_field(o.option_type)
}

/// Whether `c` is what the command whose key form is `command_key`
/// declares, for parameters `params` whose key forms are `param_keys`.
pub open spec fn describes(c: CommandSpec, command_key: Seq<char>, params: Seq<(String, ParamKind)>, param_keys: Seq<Seq<char>>) -> bool {
    &&& c.locale_key@ == command_key + "-command"@
    &&& c.name_key@ == command_key + "-command"@ + "-name"@
    &&& c.description_key@ == command_key + "-command"@ + "-description"@
    &&& c.options@.len() == params.len()
    &&& forall|i: int| 0 <= i < params.len() ==> describes_option(
        #[trigger] c.options@[i],
        command_key + "-command"@,
        i,
        param_keys[i],
        params[i].1,
    )
}

/// The option type that a parameter of type `t` is read as (see
/// `option_type_named`).
pub fn option_type_from_name(t: &String) -> (r: Option<OptionType>)
    ensures
        r == option_type_named(t@),
{
    if same_text(t.as_str(), "String") {
        Some(OptionType::String)
    } else if same_text(t.as_str(), "bool") {
        Some(OptionType::Boolean)
    } else if same_text(t.as_str(), "User") {
        Some(OptionType::User)
    } else if same_text(t.as_str(), "PartialChannel") {
        Some(OptionType::Channel)
    } else if same_text(t.as_str(), "Role") {
        Some(OptionType::Role)
    } else if same_text(t.as_str(), "Attachment") {
        Some(OptionType::Attachment)
    } else if same_text(t.as_str(), "f64") {
        Some(OptionType::Number)
    } else if same_text(t.as_str(), "i64") {
        Some(OptionType::Integer)
    } else {
        None
    }
}

/// Where a value of an option of type `o` is looked up (see
/// `resolved_field`).
pub fn resolved_field_of(o: OptionType) -> (r: Option<ResolvedField>)
    ensures
        r == resolved_field(o),
{
    match o {
        OptionType::User => Some(ResolvedField::Users),
        OptionType::Channel => Some(ResolvedField::Channels),
        OptionType::Role => Some(ResolvedField::Roles),
        OptionType::Attachment => Some(ResolvedField::Attachments),
        _ => None,
    }
}

/// The locale key `<command>-param-<param><part>` (see `option_key`).
fn option_key_of(locale_key: &str, param_key: &str, part: &str) -> (r: String)
    ensures
        r@ == option_key(locale_key@, param_key@, part@),
{
    let a = concat(locale_key, "-param-");
    let b = concat(a.as_str(), param_key);
    concat(b.as_str(), part)
}

/// The first parameter of `params` of a type that a command cannot take,
/// with its place; `None` when a command can take them all.
pub fn first_unsupported(params: &Vec<(String, ParamKind)>) -> (r: Option<UnsupportedParam>)
    ensures
        r is None <==> forall|i: int| 0 <= i < params.len() ==> supported(#[trigger] params@[i].1),
        r matches Some(e) ==> e.index < params.len() && !supported(params@[e.index as int].1)
            && e.written_type@ == kind_type(params@[e.index as int].1)
            && forall|j: int| 0 <= j < e.index ==> supported(#[trigger] params@[j].1),
{
    let mut i: usize = 0;
    while i < params.len()
        invariant
            i <= params@.len(),
            forall|j: int| 0 <= j < i ==> supported(#[trigger] params@[j].1),
        decreases params@.len() - i,
    {
        let written_type = match &params[i].1 {
            ParamKind::Plain(t) => t,
            ParamKind::Optional(t) => t,
        };
        if option_type_from_name(written_type).is_none() {
            return Some(UnsupportedParam { index: i, written_type: written_type.clone() });
        }
        i = i + 1;
    }
    None
}

/// What the command whose key form is `command_key` declares, for the
/// parameters `params` (after the context and the interaction) whose key
/// forms are `param_keys`.  Every parameter must be of a type that a
/// command can take (see `first_unsupported`).
pub fn command_spec_with_keys(
    command_key: &str,
    params: &Vec<(String, ParamKind)>,
    param_keys: &Vec<String>,
) -> (c: CommandSpec)
    requires
        param_keys.len() == params.len(),
        forall|i: int| 0 <= i < params.len() ==> supported(#[trigger] params@[i].1),
    ensures
        describes(c, command_key@, params@, param_keys@.map_values(|k: String| k@)),
{
    let locale_key = concat(command_key, "-command");
    let name_key = concat(locale_key.as_str(), "-name");
    let description_key = concat(locale_key.as_str(), "-description");
    let ghost keys = param_keys@.map_values(|k: String| k@);
    let mut options: Vec<CommandOption> = Vec::new();
    let mut i: usize = 0;
    while i < params.len()
        invariant
            i <= params@.len(),
            param_keys@.len() == params@.len(),
            keys == param_keys@.map_values(|k: String| k@),
            locale_key@ == command_key@ + "-command"@,
            options@.len() == i,
            forall|j: int| 0 <= j < params@.len() ==> supported(#[trigger] params@[j].1),
            forall|j: int| 0 <= j < i ==> describes_option(
                #[trigger] options@[j],
                locale_key@,
                j,
                keys[j],
                params@[j].1,
            ),
        decreases params@.len() - i,
    {
        let (written_type, required) = match &params[i].1 {
            ParamKind::Plain(t) => (t, true),
            ParamKind::Optional(t) => (t, false),
        };
        assert(supported(params@[i as int].1));
        let option_type = option_type_from_name(written_type).unwrap();
        let key = param_keys[i].as_str();
        let option = CommandOption {
            name_key: option_key_of(locale_key.as_str(), key, "-name"),
            description_key: option_key_of(locale_key.as_str(), key, "-description"),
            choice_key: option_key_of(locale_key.as_str(), key, "-choice"),
            option_type,
            required,
            resolved: resolved_field_of(option_type),
            value_index: i,
        };
        options.push(option);
        i = i + 1;
    }
    CommandSpec { locale_key, name_key, description_key, options }
}

/// What the command handled by the function `fn_name` declares, for its
/// parameters `params` after the context and the interaction: its locale
/// key is the function's name in key form (see `key_form`) followed by
/// `-command`, and each parameter gives an option whose keys hold the
/// parameter's name in key form; option `i` takes its value from the
/// interaction's option `i` and hands it to parameter `i`.  Every
/// parameter must be of a type that a command can take (see
/// `first_unsupported`): the command is not declared otherwise.
pub fn command_spec(fn_name: &str, params: &Vec<(String, ParamKind)>) -> (c: CommandSpec)
    requires
        forall|i: int| 0 <= i < params.len() ==> supported(#[trigger] params@[i].1),
    ensures
        describes(
            c,
            key_form(fn_name@),
            params@,
            Seq::new(params@.len(), |i: int| key_form(params@[i].0@)),
        ),
{
    let command_key = key_form_of(fn_name);
    let mut keys: Vec<String> = Vec::new();
    let mut i: usize = 0;
    while i < params.len()
        invariant
            i <= params@.len(),
            keys@.len() == i,
            forall|j: int| 0 <= j < i ==> (#[trigger] keys@[j])@ == key_form(params@[j].0@),
        decreases params@.len() - i,
    {
        keys.push(key_form_of(params[i].0.as_str()));
        i = i + 1;
    }
    proof {
        assert(keys@.map_values(|k: String| k@) =~= Seq::new(params@.len(), |i: int| key_form(params@[i].0@)));
    }
    command_spec_with_keys(command_key.as_str(), params, &keys)
}

/// A value that an interaction gives for one of its options: text, a
/// flag, an id (of a user, channel, role or attachment), an integer, or a
/// number, carried by the bits of its `f64`.
#[derive(Debug, PartialEq)]
pub enum OptionValue {
    String(String),
    Boolean(bool),
    User(u64),
    Channel(u64),
    Role(u64),
    Attachment(u64),
    Number(u64),
    Integer(i64),
}

/// The option type that a value is of.
pub open spec fn value_type(v: OptionValue) -> OptionType {
    match v {
        OptionValue::String(_) => OptionType::String,
        OptionValue::Boolean(_) => OptionType::Boolean,
        OptionValue::User(_) => OptionType::User,
        OptionValue::Channel(_) => OptionType::Channel,
        OptionValue::Role(_) => OptionType::Role,
        OptionValue::Attachment(_) => OptionType::Attachment,
        OptionValue::Number(_) => OptionType::Number,
        OptionValue::Integer(_) => OptionType::Integer,
    }
}

/// The ids that an interaction's resolved data hold, per kind.
pub struct ResolvedIds {
    pub users: Vec<u64>,
    pub channels: Vec<u64>,
    pub roles: Vec<u64>,
    pub attachments: Vec<u64>,
}

/// Whether value `v` can be handed over: a value that is an id must be one
/// that the resolved data hold; any other value can.
pub open spec fn resolvable(v: OptionValue, ids: ResolvedIds) -> bool {
    match v {
        OptionValue::User(id) => ids.users@.contains(id),
        OptionValue::Channel(id) => ids.channels@.contains(id),
        OptionValue::Role(id) => ids.roles@.contains(id),
        OptionValue::Attachment(id) => ids.attachments@.contains(id),
        _ => true,
    }
}

/// What parameter `i` gets from value `v` for option `o`: the value when
/// it is of the option's type and can be handed over, otherwise nothing.
pub open spec fn bound_value(o: CommandOption, v: OptionValue, ids: ResolvedIds) -> Option<OptionValue> {
    if value_type(v) == o.option_type && resolvable(v, ids) {
        Some(v)
    } else {
        None
    }
}

impl OptionValue {
    /// A copy of this value.
    pub fn copy_value(&self) -> (r: Self)
        ensures
            r == *self,
    {
        match self {
            OptionValue::String(t) => OptionValue::String(t.clone()),
            OptionValue::Boolean(b) => OptionValue::Boolean(*b),
            OptionValue::User(id) => OptionValue::User(*id),
            OptionValue::Channel(id) => OptionValue::Channel(*id),
            OptionValue::Role(id) => OptionValue::Role(*id),
            OptionValue::Attachment(id) => OptionValue::Attachment(*id),
            OptionValue::Number(bits) => OptionValue::Number(*bits),
            OptionValue::Integer(n) => OptionValue::Integer(*n),
        }
    }

    /// The option type that this value is of (see `value_type`).
    pub fn option_type(&self) -> (r: OptionType)
        ensures
            r == value_type(*self),
    {
        match self {
            OptionValue::String(_) => OptionType::String,
            OptionValue::Boolean(_) => OptionType::Boolean,
            OptionValue::User(_) => OptionType::User,
            OptionValue::Channel(_) => OptionType::Channel,
            OptionValue::Role(_) => OptionType::Role,
            OptionValue::Attachment(_) => OptionType::Attachment,
            OptionValue::Number(_) => OptionType::Number,
            OptionValue::Integer(_) => OptionType::Integer,
        }
    }
}

fn holds_id(v: &Vec<u64>, id: u64) -> (r: bool)
    ensures
        r == v@.contains(id),
{
    let mut i: usize = 0;
    while i < v.len()
        invariant
            i <= v@.len(),
            forall|j: int| 0 <= j < i ==> v@[j] != id,
        decreases v@.len() - i,
    {
        if v[i] == id {
            return true;
        }
        i = i + 1;
    }
    false
}

/// Whether `v` can be handed over (see `resolvable`).
pub fn is_resolvable(v: &OptionValue, ids: &ResolvedIds) -> (r: bool)
    ensures
        r == resolvable(*v, *ids),
{
    match v {
        OptionValue::User(id) => holds_id(&ids.users, *id),
        OptionValue::Channel(id) => holds_id(&ids.channels, *id),
        OptionValue::Role(id) => holds_id(&ids.roles, *id),
        OptionValue::Attachment(id) => holds_id(&ids.attachments, *id),
        _ => true,
    }
}

/// The arguments that the handler of `spec` is called with, one per
/// option and in order: option `i` reads the interaction's value at its
/// `value_index` (see `bound_value`).  A required option's value must be
/// there, of its type and resolved; an optional one that is not gets
/// nothing.
pub fn bind_values(spec: &CommandSpec, values: &Vec<OptionValue>, ids: &ResolvedIds) -> (r: Vec<Option<OptionValue>>)
    requires
        forall|i: int| 0 <= i < spec.options@.len() ==> (#[trigger] spec.options@[i]).value_index < values@.len(),
        forall|i: int| 0 <= i < spec.options@.len() && (#[trigger] spec.options@[i]).required ==> bound_value(
            spec.options@[i],
            values@[spec.options@[i].value_index as int],
            *ids,
        ) is Some,
    ensures
        r@.len() == spec.options@.len(),
        forall|i: int| 0 <= i < spec.options@.len() ==> #[trigger] r@[i] == bound_value(
            spec.options@[i],
            values@[spec.options@[i].value_index as int],
            *ids,
        ),
{
    let mut r: Vec<Option<OptionValue>> = Vec::new();
    let mut i: usize = 0;
    while i < spec.options.len()
        invariant
            i <= spec.options@.len(),
            r@.len() == i,
            forall|j: int| 0 <= j < spec.options@.len() ==> (#[trigger] spec.options@[j]).value_index < values@.len(),
            forall|j: int| 0 <= j < i ==> #[trigger] r@[j] == bound_value(
                spec.options@[j],
                values@[spec.options@[j].value_index as int],
                *ids,
            ),
        decreases spec.options@.len() - i,
    {
        let o = &spec.options[i];
        let v = &values[o.value_index];
        if v.option_type() == o.option_type && is_resolvable(v, ids) {
            r.push(Some(v.copy_value()));
        } else {
            r.push(None);
        }
        i = i + 1;
    }
    r
}

/// Whether the command handled by `fn_name` is switched on: the settings
/// name commands with a flag each, and a command they do not name is on.
pub fn command_enabled(settings: &NameMap<bool>, fn_name: &String) -> (r: bool)
    ensures
        r == if settings@.dom().contains(fn_name@) {
            settings@[fn_name@]
        } else {
            true
        },
{
    match settings.get(fn_name) {
        Some(on) => *on,
        None => true,
    }
}

/// The longest name Discord takes for a command or an option.
pub const NAME_LIMIT: usize = 32;

/// The first `NAME_LIMIT` characters of `text`, or all of it when shorter.
pub open spec fn shown_name(text: Seq<char>) -> Seq<char> {
    if text.len() <= NAME_LIMIT {
        text
    } else {
        text.take(NAME_LIMIT as int)
    }
}

/// The name under which the command of `spec` is declared and registered:
/// the localized text of its name key, cut to `NAME_LIMIT` characters.
pub fn command_name(loc: &Localization, spec: &CommandSpec) -> (r: String)
    ensures
        r@ == shown_name(localized(loc.entries(), spec.name_key@, Seq::empty())),
{
    let text = loc.get_string(spec.name_key.as_str(), None);
    let chars = chars_of(text.as_str());
    if chars.len() <= NAME_LIMIT {
        return text;
    }
    let cut = sub_chars(&chars, 0, NAME_LIMIT);
    string_of(&cut)
}

/// The name under which `option` is declared: the localized text of its
/// name key, cut to `NAME_LIMIT` characters.
pub fn option_name(loc: &Localization, option: &CommandOption) -> (r: String)
    ensures
        r@ == shown_name(localized(loc.entries(), option.name_key@, Seq::empty())),
{
    let text = loc.get_string(option.name_key.as_str(), None);
    let chars = chars_of(text.as_str());
    if chars.len() <= NAME_LIMIT {
        return text;
    }
    let cut = sub_chars(&chars, 0, NAME_LIMIT);
    string_of(&cut)
}

} // verus!
