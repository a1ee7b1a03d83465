//! Localized strings.
//!
//! Locale files are YAML maps from keys to texts.  A text may hold
//! placeholders written `{name}`, which `get_string` fills in.
use vstd::prelude::*;
use dashmap::DashMap;
use crate::text::{chars_of, concat, contains, contains_str, replace_all, replace_str, string_of};

verus! {

// ---------------------------------------------------------------------------
// The outside pieces: a concurrent map and the YAML reader
// ---------------------------------------------------------------------------
/// `dashmap::DashMap`, known to the verifier as an opaque type.
#[verifier::external_type_specification]
#[verifier::external_body]
#[verifier::reject_recursive_types(K)]
#[verifier::reject_recursive_types(V)]
#[verifier::reject_recursive_types(S)]
pub struct ExDashMap<K, V, S>(DashMap<K, V, S>);

/// What a string-to-string `DashMap` holds, keyed by the keys' contents.
pub uninterp spec fn locale_entries(m: DashMap<String, String>) -> Map<Seq<char>, Seq<char>>;

/// The string-to-string map that a YAML document denotes, if it denotes one.
pub uninterp spec fn yaml_string_map(content: Seq<char>) -> Option<Map<Seq<char>, Seq<char>>>;

/// `DashMap::new`: a map with no entries.
#[verifier::external_body]
fn locale_map_new() -> (fresh: DashMap<String, String>)
    ensures
        locale_entries(fresh) =~= Map::empty(),
{
    DashMap::new()
}

/// `DashMap::get`: the value stored under `key`, copied out of the map.
#[verifier::external_body]
fn locale_map_get(m: &DashMap<String, String>, key: &str) -> (r: Option<String>)
    ensures
        match r {
            Some(v) => locale_entries(*m).dom().contains(key@) && locale_entries(*m)[key@] == v@,
            None => !locale_entries(*m).dom().contains(key@),
        },
{
    m.get(key).map(|entry| entry.value().clone())
}

/// `DashMap::insert`: stores `value` under `key`, replacing any old value.
#[verifier::external_body]
fn locale_map_insert(m: &mut DashMap<String, String>, key: String, value: String)
    ensures
        locale_entries(*final(m)) == locale_entries(*old(m)).insert(key@, value@),
{
    m.insert(key, value);
}

/// `serde_yaml::from_str` into a map of strings, handed out as pairs.  The
/// order of the pairs is the map's walking order, which is left unsaid; the
/// keys are distinct and the pairs are exactly the map's entries.
#[verifier::external_body]
fn parse_yaml_string_map(content: &str) -> (r: Option<Vec<(String, String)>>)
    ensures
        match r {
            Some(pairs) => yaml_string_map(content@) is Some && pairs_denote(
                pairs@,
                yaml_string_map(content@)->0,
            ),
            None => yaml_string_map(content@) is None,
        },
{
    match serde_yaml::from_str::<std::collections::HashMap<String, String>>(content) {
        Ok(m) => Some(m.into_iter().collect()),
        Err(_) => None,
    }
}

/// `pairs` lists the entries of `m`, each key once.
pub open spec fn pairs_denote(pairs: Seq<(String, String)>, m: Map<Seq<char>, Seq<char>>) -> bool {
    &&& forall|i: int, j: int| 0 <= i < j < pairs.len() ==> pairs[i].0@ != pairs[j].0@
    &&& forall|i: int|
        0 <= i < pairs.len() ==> m.dom().contains(#[trigger] pairs[i].0@) && m[pairs[i].0@]
            == pairs[i].1@
    &&& forall|k: Seq<char>|
        #[trigger] m.dom().contains(k) ==> exists|i: int| 0 <= i < pairs.len() && pairs[i].0@ == k
}

// ---------------------------------------------------------------------------
// Placeholders
// ---------------------------------------------------------------------------
/// The placeholder `{name}`.
pub open spec fn placeholder(name: Seq<char>) -> Seq<char> {
    seq!['{'] + name + seq!['}']
}

/// Fills the placeholders of `reps`, one after the other, in `text`.
pub open spec fn fill_placeholders(text: Seq<char>, reps: Seq<(Seq<char>, Seq<char>)>) -> Seq<
    char,
>
    decreases reps.len(),
{
    if reps.len() == 0 {
        text
    } else {
        fill_placeholders(
            replace_all(text, placeholder(reps[0].0), reps[0].1),
            reps.subrange(1, reps.len() as int),
        )
    }
}

/// The localized text of `key`: the key itself when no locale has it,
/// otherwise the stored text with the placeholders filled.
pub open spec fn localized(
    entries: Map<Seq<char>, Seq<char>>,
    key: Seq<char>,
    reps: Seq<(Seq<char>, Seq<char>)>,
) -> Seq<char> {
    if entries.dom().contains(key) {
        fill_placeholders(entries[key], reps)
    } else {
        key
    }
}

/// The views of a list of replacement pairs.
pub open spec fn reps_view(reps: Seq<(String, String)>) -> Seq<(Seq<char>, Seq<char>)> {
    reps.map_values(|p: (String, String)| (p.0@, p.1@))
}

/// Where the locale files live.
pub struct LocalizationData {
    pub locale_path: String,
    pub culture: String,
}

/// The locale texts in use.
pub struct Localization {
    pub locale_path: String,
    pub culture: String,
    pub locale_data: DashMap<String, String>,
}

/// A locale file that is not a YAML map of strings.
#[derive(Debug)]
pub struct LocaleParseError {
    pub content: String,
}

impl Localization {
    /// What the localization holds, keyed by text key.
    pub closed spec fn entries(&self) -> Map<Seq<char>, Seq<char>> {
        locale_entries(self.locale_data)
    }

    /// A localization with no texts yet; the files are read in with
    /// `collect_locale` (the bundled locale first, then the configured
    /// culture, so that the latter wins).
    pub fn new(data: LocalizationData) -> (loc: Localization)
        ensures
            loc.entries() == Map::<Seq<char>, Seq<char>>::empty(),
            loc.locale_path@ == data.locale_path@,
            loc.culture@ == data.culture@,
    {
        Localization {
            locale_path: data.locale_path,
            culture: data.culture,
            locale_data: locale_map_new(),
        }
    }

    /// Forgets every text (before the files are read again).
    pub fn collect_all(&mut self)
        ensures
            final(self).entries() == Map::<Seq<char>, Seq<char>>::empty(),
            final(self).locale_path == old(self).locale_path,
            final(self).culture == old(self).culture,
    {
        self.locale_data = locale_map_new();
    }

    /// Adds the texts of one locale file; its keys replace older ones.  A
    /// file that is not a map of strings is refused and nothing changes.
    pub fn collect_locale(&mut self, content: &str) -> (r: Result<(), LocaleParseError>)
        ensures
            match yaml_string_map(content@) {
                Some(m) => r is Ok && final(self).entries() == old(self).entries().union_prefer_right(
                    m,
                ),
                None => r is Err && final(self).entries() == old(self).entries(),
            },
            final(self).locale_path == old(self).locale_path,
            final(self).culture == old(self).culture,
    {
        let pairs = match parse_yaml_string_map(content) {
            Some(p) => p,
            None => {
                return Err(LocaleParseError { content: string_of(&chars_of(content)) });
            },
        };
        let ghost m = yaml_string_map(content@)->0;
        let ghost start = self.entries();
        let mut i: usize = 0;
        while i < pairs.len()
            invariant
                i <= pairs@.len(),
                pairs_denote(pairs@, m),
                forall|k: Seq<char>|
                    #[trigger] self.entries().dom().contains(k) <==> (start.dom().contains(k)
                        || exists|j: int| 0 <= j < i && pairs@[j].0@ == k),
                forall|k: Seq<char>|
                    #[trigger] self.entries().dom().contains(k) ==> (if exists|j: int|
                        0 <= j < i && pairs@[j].0@ == k {
                        self.entries()[k] == m[k]
                    } else {
                        self.entries()[k] == start[k]
                    }),
                self.locale_path == old(self).locale_path,
                self.culture == old(self).culture,
            decreases pairs@.len() - i,
        {
            let ghost before = self.entries();
            let key = pairs[i].0.clone();
            let value = pairs[i].1.clone();
            locale_map_insert(&mut self.locale_data, key, value);
            proof {
                assert(m.dom().contains(pairs@[i as int].0@));
                assert forall|k: Seq<char>| #[trigger]
                    self.entries().dom().contains(k) <==> (start.dom().contains(k) || exists|j: int|
                        0 <= j < i + 1 && pairs@[j].0@ == k) by {
                    if k == pairs@[i as int].0@ {
                        assert(pairs@[i as int].0@ == k);
                    } else if exists|j: int| 0 <= j < i + 1 && pairs@[j].0@ == k {
                        let j = choose|j: int| 0 <= j < i + 1 && pairs@[j].0@ == k;
                        assert(j < i);
                    }
                }
                assert forall|k: Seq<char>| #[trigger]
                    self.entries().dom().contains(k) implies (if exists|j: int|
                        0 <= j < i + 1 && pairs@[j].0@ == k {
                        self.entries()[k] == m[k]
                    } else {
                        self.entries()[k] == start[k]
                    }) by {
                    if k == pairs@[i as int].0@ {
                        assert(pairs@[i as int].0@ == k);
                    } else {
                        if exists|j: int| 0 <= j < i + 1 && pairs@[j].0@ == k {
                            let j = choose|j: int| 0 <= j < i + 1 && pairs@[j].0@ == k;
                            assert(j < i);
                            assert(before.dom().contains(k));
                        } else {
                            assert(!exists|j: int| 0 <= j < i && pairs@[j].0@ == k);
                            assert(before.dom().contains(k));
                        }
                    }
                }
            }
            i = i + 1;
        }
        proof {
            assert forall|k: Seq<char>| m.dom().contains(k) implies exists|j: int|
                0 <= j < pairs@.len() && pairs@[j].0@ == k by {
                assert(m.dom().contains(k));
            }
            assert(self.entries() =~= start.union_prefer_right(m));
        }
        Ok(())
    }

    /// The localized text of `key` (see `localized`): the key itself when no
    /// locale has it, otherwise the stored text with each placeholder
    /// `{name}` of `replacements` replaced by its value, in the given order.
    pub fn get_string(&self, key: &str, replacements: Option<Vec<(String, String)>>) -> (r: String)
        ensures
            r@ == localized(
                self.entries(),
                key@,
                match replacements {
                    Some(v) => reps_view(v@),
                    None => Seq::empty(),
                },
            ),
    {
        let mut text = match locale_map_get(&self.locale_data, key) {
            Some(s) => s,
            None => {
                return string_of(&chars_of(key));
            },
        };
        match replacements {
            Some(reps) => {
                let ghost all = reps_view(reps@);
                let mut i: usize = 0;
                assert(all.subrange(0, all.len() as int) =~= all);
                while i < reps.len()
                    invariant
                        i <= reps@.len(),
                        all == reps_view(reps@),
                        self.entries().dom().contains(key@),
                        fill_placeholders(self.entries()[key@], all) == fill_placeholders(
                            text@,
                            all.subrange(i as int, all.len() as int),
                        ),
                    decreases reps@.len() - i,
                {
                    let open_brace = concat("{", reps[i].0.as_str());
                    let pattern = concat(open_brace.as_str(), "}");
                    proof {
                        reveal_strlit("{");
                        reveal_strlit("}");
                        assert(pattern@ =~= placeholder(reps@[i as int].0@));
                        let rest = all.subrange(i as int, all.len() as int);
                        assert(rest[0] == all[i as int]);
                        assert(rest.subrange(1, rest.len() as int) =~= all.subrange(
                            i + 1,
                            all.len() as int,
                        ));
                    }
                    if contains_str(text.as_str(), pattern.as_str()) {
                        text = replace_str(text.as_str(), pattern.as_str(), reps[i].1.as_str());
                    } else {
                        proof {
                            crate::text::lemma_replace_absent(text@, pattern@, reps@[i as int].1@);
                        }
                    }
                    i = i + 1;
                }
                proof {
                    assert(all.subrange(i as int, all.len() as int) =~= Seq::<
                        (Seq<char>, Seq<char>),
                    >::empty());
                }
            },
            None => {},
        }
        text
    }
}

/// The localized text of `key` in `loc` (see `Localization::get_string`).
pub fn get_string(loc: &Localization, key: &str, replacements: Option<Vec<(String, String)>>) -> (r:
    String)
    ensures
        r@ == localized(
            loc.entries(),
            key@,
            match replacements {
                Some(v) => reps_view(v@),
                None => Seq::empty(),
            },
        ),
{
    loc.get_string(key, replacements)
}

/// A key that no locale holds reads back as the key itself, whatever the
/// replacements.
pub proof fn law_missing_key_is_echoed(
    entries: Map<Seq<char>, Seq<char>>,
    key: Seq<char>,
    reps: Seq<(Seq<char>, Seq<char>)>,
)
    requires
        !entries.dom().contains(key),
    ensures
        localized(entries, key, reps) == key,
{
}

/// After a locale file is read in, each of its keys reads back as the file's
/// text (with no replacements), whatever was there before.
pub proof fn law_collected_text_is_read_back(
    before: Map<Seq<char>, Seq<char>>,
    file: Map<Seq<char>, Seq<char>>,
    key: Seq<char>,
)
    requires
        file.dom().contains(key),
    ensures
        localized(before.union_prefer_right(file), key, Seq::empty()) == file[key],
{
}

/// A replacement whose placeholder does not occur in the text leaves the
/// text as it is.
pub proof fn law_unused_replacement_is_harmless(text: Seq<char>, name: Seq<char>, value: Seq<
    char,
>)
    requires
        !contains(text, placeholder(name)),
    ensures
        fill_placeholders(text, seq![(name, value)]) == text,
{
    crate::text::lemma_replace_absent(text, placeholder(name), value);
    reveal_with_fuel(fill_placeholders, 2);
    assert(seq![(name, value)].subrange(1, 1) =~= Seq::<(Seq<char>, Seq<char>)>::empty());
}

} // verus!
