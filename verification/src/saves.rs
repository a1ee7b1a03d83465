//! Browsing the save server: which database a save request goes to, the
//! entries of a folder menu, what a picked menu entry opens, and the lines
//! that register a new database.
//!
//! Menu values carry their context joined by `:::`, so that a later pick
//! can be answered without any state.
use vstd::prelude::*;
use crate::member::opt_view;
use crate::text::{
    concat, contains, contains_str, decimal, occurs_at, replace_all, replace_str, split, split_str, strip_prefix, strip_suffix, trim, trim_str,
    u64_to_string,
};

verus! {

// ---------------------------------------------------------------------------
// Specifications
// ---------------------------------------------------------------------------
/// `s` ends with `p` (`str::ends_with`).
pub open spec fn ends_with(s: Seq<char>, p: Seq<char>) -> bool {
    strip_suffix(s, p) is Some
}

/// The separator inside menu values.
pub open spec fn sep() -> Seq<char> {
    seq![':', ':', ':']
}

/// The folder path a request names, `/` when it names none.
pub open spec fn path_or_root(path: Option<Seq<char>>) -> Seq<char> {
    match path {
        Some(p) => p,
        None => seq!['/'],
    }
}

/// What a save request leads to, as values.
pub enum StepModel {
    NoDbs,
    ChooseDb(Seq<(Seq<char>, Seq<char>)>),
    Browse { db: Seq<char>, path: Seq<char>, root: Seq<char> },
    Unload { db: Seq<char>, path: Seq<char> },
}

/// A folder (ending in `/`) is browsed, anything else is sent as a file.
pub open spec fn open_path(db: Seq<char>, path: Seq<char>, root: Seq<char>) -> StepModel {
    if ends_with(path, seq!['/']) {
        StepModel::Browse { db, path, root }
    } else {
        StepModel::Unload { db, path }
    }
}

/// One menu option per database: the database, and as value the database
/// followed by `rest`.
pub open spec fn db_options(dbs: Seq<Seq<char>>, rest: Seq<char>) -> Seq<(Seq<char>, Seq<char>)> {
    Seq::new(dbs.len(), |i: int| (dbs[i], dbs[i] + sep() + rest))
}

/// Where a request with unrestricted paths leads: no database, a choice
/// between several, or the path (the root folder when none is named) on
/// the only one.
pub open spec fn save_plus_model(dbs: Seq<Seq<char>>, path: Option<Seq<char>>) -> StepModel {
    if dbs.len() == 0 {
        StepModel::NoDbs
    } else if dbs.len() > 1 {
        StepModel::ChooseDb(db_options(dbs, path_or_root(path)))
    } else {
        match path {
            Some(p) => open_path(dbs[0], p, p),
            None => StepModel::Browse { db: dbs[0], path: Seq::empty(), root: Seq::empty() },
        }
    }
}

/// The databases on which a folder is linked.
pub open spec fn linked_only(linked: Seq<(Seq<char>, Option<Seq<char>>)>) -> Seq<(Seq<char>, Option<Seq<char>>)> {
    linked.filter(|e: (Seq<char>, Option<Seq<char>>)| e.1 is Some)
}

/// `path` inside the linked `folder`.
pub open spec fn in_folder(folder: Seq<char>, path: Seq<char>) -> Seq<char> {
    folder + seq!['/'] + path
}

/// Where a request inside the member's own folders leads: only the
/// databases with a linked folder count; with several the member chooses,
/// with one the path is taken inside its folder.
pub open spec fn save_model(linked: Seq<(Seq<char>, Option<Seq<char>>)>, path: Option<Seq<char>>) -> StepModel {
    let usable = linked_only(linked);
    if usable.len() == 0 {
        StepModel::NoDbs
    } else if usable.len() > 1 {
        StepModel::ChooseDb(
            Seq::new(
                usable.len(),
                |i: int| (usable[i].0, usable[i].0 + sep() + in_folder(usable[i].1->0, path_or_root(path))),
            ),
        )
    } else {
        let db = usable[0].0;
        let folder = usable[0].1->0;
        match path {
            Some(p) => open_path(db, in_folder(folder, p), in_folder(folder, p)),
            None => StepModel::Browse { db, path: folder + seq!['/'], root: folder + seq!['/'] },
        }
    }
}

/// A picked database option `db:::path`: the path is opened on it, with
/// itself as root.
pub open spec fn picked_db_model(value: Seq<char>) -> StepModel {
    let parts = split(value, sep());
    open_path(parts[0], parts[1], parts[1])
}

// ---------------------------------------------------------------------------
// Values
// ---------------------------------------------------------------------------
/// What a save request leads to.
#[derive(Debug, PartialEq)]
pub enum SaveStep {
    /// The member may use no database.
    NoDbs,
    /// The member picks a database: `(label, value)` per option.
    ChooseDb(Vec<(String, String)>),
    /// The menu of folder `path` on `db`; it does not lead above `root`.
    Browse { db: String, path: String, root: String },
    /// The file `path` on `db` is sent.
    Unload { db: String, path: String },
}

impl View for SaveStep {
    type V = StepModel;

    open spec fn view(&self) -> StepModel {
        match self {
            SaveStep::NoDbs => StepModel::NoDbs,
            SaveStep::ChooseDb(v) => StepModel::ChooseDb(v@.map_values(|o: (String, String)| (o.0@, o.1@))),
            SaveStep::Browse { db, path, root } => StepModel::Browse { db: db@, path: path@, root: root@ },
            SaveStep::Unload { db, path } => StepModel::Unload { db: db@, path: path@ },
        }
    }
}

/// The strings' characters.
pub open spec fn names(v: Seq<String>) -> Seq<Seq<char>> {
    v.map_values(|x: String| x@)
}

/// Whether `s` ends with `/`.
fn ends_with_slash(s: &String) -> (r: bool)
    ensures
        r == ends_with(s@, seq!['/']),
{
    let st = s.as_str();
    let n = st.unicode_len();
    if n == 0 {
        return false;
    }
    let c = st.get_char(n - 1);
    proof {
        let sl = seq!['/'];
        assert(s@.subrange(n - 1, n as int) =~= seq![c]);
        assert(sl.len() == 1);
        assert(s@.subrange(s@.len() - sl.len(), s@.len() as int) =~= seq![c]);
        if c == '/' {
            assert(seq![c] =~= sl);
        } else {
            assert(seq![c][0] != sl[0]);
        }
    }
    c == '/'
}

/// `path` opened on `db` (see `open_path`).
pub fn open_at(db: String, path: String, root: String) -> (r: SaveStep)
    ensures
        r@ == open_path(db@, path@, root@),
{
    if ends_with_slash(&path) {
        SaveStep::Browse { db, path, root }
    } else {
        SaveStep::Unload { db, path }
    }
}

/// The separator inside menu values.
fn sep_str() -> (r: String)
    ensures
        r@ == sep(),
{
    let r = String::from_str(":::");
    proof {
        reveal_strlit(":::");
    }
    r
}

/// One option per database (see `db_options`).
pub fn options_for(dbs: &Vec<String>, rest: &str) -> (r: Vec<(String, String)>)
    ensures
        r@.map_values(|o: (String, String)| (o.0@, o.1@)) == db_options(names(dbs@), rest@),
{
    let s = sep_str();
    let mut out: Vec<(String, String)> = Vec::new();
    let mut i: usize = 0;
    while i < dbs.len()
        invariant
            i <= dbs@.len(),
            s@ == sep(),
            out@.len() == i,
            forall|j: int| 0 <= j < i ==> (#[trigger] out@[j]).0@ == dbs@[j]@ && out@[j].1@ == dbs@[j]@ + sep() + rest@,
        decreases dbs@.len() - i,
    {
        let label = dbs[i].clone();
        let value = concat(&concat(dbs[i].as_str(), s.as_str()), rest);
        out.push((label, value));
        i = i + 1;
    }
    let ghost got = out@.map_values(|o: (String, String)| (o.0@, o.1@));
    assert(got =~= db_options(names(dbs@), rest@));
    out
}

/// Where a save request with unrestricted paths leads (see
/// `save_plus_model`): `dbs` are the databases the member may use.
pub fn save_plus_step(dbs: &Vec<String>, path: Option<String>) -> (r: SaveStep)
    ensures
        r@ == save_plus_model(names(dbs@), opt_view(path)),
{
    if dbs.len() == 0 {
        return SaveStep::NoDbs;
    }
    if dbs.len() > 1 {
        let rest = match &path {
            Some(p) => p.clone(),
            None => {
                proof {
                    reveal_strlit("/");
                }
                String::from_str("/")
            },
        };
        assert(rest@ == path_or_root(opt_view(path)));
        return SaveStep::ChooseDb(options_for(dbs, rest.as_str()));
    }
    let db = dbs[0].clone();
    match path {
        Some(p) => {
            let root = p.clone();
            open_at(db, p, root)
        },
        None => SaveStep::Browse { db, path: String::new(), root: String::new() },
    }
}

/// The values of the member's databases, each with its linked folder.
pub open spec fn linked_view(v: Seq<(String, Option<String>)>) -> Seq<(Seq<char>, Option<Seq<char>>)> {
    v.map_values(|e: (String, Option<String>)| (e.0@, opt_view(e.1)))
}

/// The databases of `linked` that have a folder, with it.
fn usable_dbs(linked: &Vec<(String, Option<String>)>) -> (r: Vec<(String, String)>)
    ensures
        usable_view(r@) == linked_only(linked_view(linked@)),
{
    let ghost lv = linked_view(linked@);
    let ghost keep = |e: (Seq<char>, Option<Seq<char>>)| e.1 is Some;
    let mut out: Vec<(String, String)> = Vec::new();
    let mut i: usize = 0;
    assert(lv.subrange(0, 0).filter(keep) =~= Seq::<(Seq<char>, Option<Seq<char>>)>::empty());
    while i < linked.len()
        invariant
            i <= linked@.len(),
            lv == linked_view(linked@),
            keep == (|e: (Seq<char>, Option<Seq<char>>)| e.1 is Some),
            out@.map_values(|e: (String, String)| (e.0@, Some(e.1@))) == lv.subrange(0, i as int).filter(keep),
        decreases linked@.len() - i,
    {
        let ghost before = out@;
        assert(lv.subrange(0, i + 1) =~= lv.subrange(0, i as int).push(lv[i as int]));
        proof {
            lv.subrange(0, i as int).lemma_filter_push(lv[i as int], keep);
        }
        match &linked[i].1 {
            Some(f) => {
                out.push((linked[i].0.clone(), f.clone()));
                assert(out@.map_values(|e: (String, String)| (e.0@, Some(e.1@))) =~= before.map_values(
                    |e: (String, String)| (e.0@, Some(e.1@)),
                ).push(lv[i as int]));
            },
            None => {},
        }
        i = i + 1;
    }
    assert(lv.subrange(0, linked@.len() as int) =~= lv);
    out
}

/// The values of databases with their linked folders.
pub open spec fn usable_view(v: Seq<(String, String)>) -> Seq<(Seq<char>, Option<Seq<char>>)> {
    v.map_values(|e: (String, String)| (e.0@, Some(e.1@)))
}

/// One option per database with a folder: the database, and as value the
/// database followed by `rest` inside its folder.
fn folder_options(usable: &Vec<(String, String)>, rest: &String) -> (r: Vec<(String, String)>)
    ensures
        r@.map_values(|o: (String, String)| (o.0@, o.1@)) == Seq::new(
            usable@.len(),
            |i: int| (usable_view(usable@)[i].0, usable_view(usable@)[i].0 + sep() + in_folder(usable_view(usable@)[i].1->0, rest@)),
        ),
{
    let ghost uv = usable_view(usable@);
    let slash = String::from_str("/");
    proof {
        reveal_strlit("/");
    }
    let s = sep_str();
    let mut out: Vec<(String, String)> = Vec::new();
    let mut i: usize = 0;
    while i < usable.len()
        invariant
            i <= usable@.len(),
            s@ == sep(),
            slash@ == seq!['/'],
            uv == usable_view(usable@),
            out@.len() == i,
            forall|j: int| 0 <= j < i ==> (#[trigger] out@[j]).0@ == uv[j].0
                && out@[j].1@ == uv[j].0 + sep() + in_folder(uv[j].1->0, rest@),
        decreases usable@.len() - i,
    {
        let db = usable[i].0.clone();
        let value = concat(
            &concat(&concat(usable[i].0.as_str(), s.as_str()), &concat(usable[i].1.as_str(), slash.as_str())),
            rest.as_str(),
        );
        proof {
            assert(uv[i as int] == (usable@[i as int].0@, Some(usable@[i as int].1@)));
            assert(value@ =~= uv[i as int].0 + sep() + in_folder(uv[i as int].1->0, rest@));
        }
        out.push((db, value));
        i = i + 1;
    }
    let ghost got = out@.map_values(|o: (String, String)| (o.0@, o.1@));
    assert(got =~= Seq::new(
        usable@.len(),
        |i: int| (uv[i].0, uv[i].0 + sep() + in_folder(uv[i].1->0, rest@)),
    ));
    out
}

/// Where a save request inside the member's own folders leads (see
/// `save_model`): `linked` holds each database the member may use, with
/// the folder the member linked there, if any.
pub fn save_step(linked: &Vec<(String, Option<String>)>, path: Option<String>) -> (r: SaveStep)
    ensures
        r@ == save_model(linked_view(linked@), opt_view(path)),
{
    let usable = usable_dbs(linked);
    let ghost uv = usable_view(usable@);
    let ghost model_usable = linked_only(linked_view(linked@));
    assert(uv == model_usable);
    if usable.len() == 0 {
        return SaveStep::NoDbs;
    }
    let slash = String::from_str("/");
    proof {
        reveal_strlit("/");
    }
    if usable.len() > 1 {
        let rest = match &path {
            Some(p) => p.clone(),
            None => String::from_str("/"),
        };
        assert(rest@ == path_or_root(opt_view(path)));
        let out = folder_options(&usable, &rest);
        return SaveStep::ChooseDb(out);
    }
    let db = usable[0].0.clone();
    let folder = usable[0].1.clone();
    assert(uv[0] == (usable@[0].0@, Some(usable@[0].1@)));
    assert(model_usable[0].0 == db@ && model_usable[0].1->0 == folder@);
    match path {
        Some(p) => {
            let full = concat(&concat(folder.as_str(), slash.as_str()), p.as_str());
            assert(full@ =~= in_folder(folder@, p@));
            let root = full.clone();
            let r = open_at(db, full, root);
            assert(r@ == save_model(linked_view(linked@), opt_view(Some(p))));
            r
        },
        None => {
            let full = concat(folder.as_str(), slash.as_str());
            assert(full@ =~= folder@ + seq!['/']);
            let root = full.clone();
            let r = SaveStep::Browse { db, path: full, root };
            assert(r@ == save_model(linked_view(linked@), opt_view(path)));
            r
        },
    }
}

/// A picked database option `db:::path` (see `picked_db_model`).
pub fn picked_db(value: &str) -> (r: SaveStep)
    requires
        split(value@, sep()).len() >= 2,
    ensures
        r@ == picked_db_model(value@),
{
    let s = sep_str();
    let parts = split_str(value, s.as_str());
    let ghost pv = parts@.map_values(|x: String| x@);
    assert(pv[0] == parts@[0]@ && pv[1] == parts@[1]@);
    let db = parts[0].clone();
    let path = parts[1].clone();
    let root = parts[1].clone();
    open_at(db, path, root)
}

// ---------------------------------------------------------------------------
// Folder menus
// ---------------------------------------------------------------------------
/// The piece that means "one folder up".
pub open spec fn dotdot() -> Seq<char> {
    seq!['.', '.']
}

/// The pieces of `ps` before the first occurrence of `x` (all of them
/// when `x` does not occur).
pub open spec fn before_first(ps: Seq<Seq<char>>, x: Seq<char>) -> Seq<Seq<char>>
    decreases ps.len(),
{
    if ps.len() == 0 {
        ps
    } else if ps[0] == x {
        Seq::empty()
    } else {
        seq![ps[0]] + before_first(ps.drop_first(), x)
    }
}

/// The pieces joined, with `sep` between each two (`[String]::join`).
pub open spec fn join(ps: Seq<Seq<char>>, sep: Seq<char>) -> Seq<char>
    decreases ps.len(),
{
    if ps.len() == 0 {
        Seq::empty()
    } else if ps.len() == 1 {
        ps[0]
    } else {
        join(ps.drop_last(), sep) + sep + ps.last()
    }
}

/// The pieces of a path that going up keeps: those before the first `..`
/// less the last one of them; the whole path when it holds no `..`.
pub open spec fn up_pieces(ps: Seq<Seq<char>>) -> Seq<Seq<char>> {
    if ps.contains(dotdot()) {
        let b = before_first(ps, dotdot());
        if b.len() == 0 {
            b
        } else {
            b.drop_last()
        }
    } else {
        ps
    }
}

/// The folder reached by going up from `path` (which names a `..` entry).
pub open spec fn up_dir(path: Seq<char>) -> Seq<char> {
    join(up_pieces(split(path, seq!['/'])), seq!['/']) + seq!['/']
}

/// A picked menu entry `index:::db:::root:::path`: a `../` entry goes up,
/// a folder is browsed, a file is sent.
pub open spec fn menu_pick_model(value: Seq<char>) -> StepModel {
    let parts = split(value, sep());
    let db = parts[1];
    let root = parts[2];
    let path = parts.last();
    if contains(value, seq!['.', '.', '/']) {
        StepModel::Browse { db, path: up_dir(path), root }
    } else if ends_with(value, seq!['/']) {
        StepModel::Browse { db, path, root }
    } else {
        StepModel::Unload { db, path }
    }
}

proof fn lemma_before_first(ps: Seq<Seq<char>>, x: Seq<char>, i: int)
    requires
        0 <= i <= ps.len(),
        forall|j: int| 0 <= j < i ==> ps[j] != x,
        i < ps.len() ==> ps[i] == x,
    ensures
        before_first(ps, x) == ps.take(i),
    decreases ps.len(),
{
    if ps.len() == 0 {
        assert(ps.take(i) =~= ps);
    } else if ps[0] == x {
        assert(i == 0);
        assert(ps.take(0) =~= Seq::<Seq<char>>::empty());
    } else {
        let rest = ps.drop_first();
        assert forall|j: int| 0 <= j < i - 1 implies rest[j] != x by {
            assert(rest[j] == ps[j + 1]);
        }
        if i - 1 < rest.len() {
            assert(rest[i - 1] == ps[i]);
        }
        lemma_before_first(rest, x, i - 1);
        assert(ps.take(i) =~= seq![ps[0]] + rest.take(i - 1));
    }
}

/// The strings joined with `sep` between each two (see `join`).
pub fn join_str(ps: &Vec<String>, sep: &str) -> (r: String)
    ensures
        r@ == join(names(ps@), sep@),
{
    let ghost pv = names(ps@);
    let mut out = String::new();
    let mut i: usize = 0;
    while i < ps.len()
        invariant
            i <= ps@.len(),
            pv == names(ps@),
            out@ == join(pv.take(i as int), sep@),
        decreases ps@.len() - i,
    {
        assert(pv.take(i + 1).drop_last() =~= pv.take(i as int));
        assert(pv.take(i + 1).last() == ps@[i as int]@);
        if i == 0 {
            out = ps[0].clone();
            assert(pv.take(1) =~= seq![pv[0]]);
        } else {
            out = concat(&concat(out.as_str(), sep), ps[i].as_str());
        }
        i = i + 1;
    }
    assert(pv.take(ps@.len() as int) =~= pv);
    out
}

/// The folder reached by going up from `path` (see `up_dir`).
pub fn up_dir_of(path: &str) -> (r: String)
    ensures
        r@ == up_dir(path@),
{
    let slash = String::from_str("/");
    let dots = String::from_str("..");
    proof {
        reveal_strlit("/");
        reveal_strlit("..");
    }
    let pieces = split_str(path, slash.as_str());
    let ghost pv = names(pieces@);
    let mut kept: Vec<String> = Vec::new();
    let mut i: usize = 0;
    let mut found = false;
    while i < pieces.len()
        invariant
            i <= pieces@.len(),
            pv == names(pieces@),
            dots@ == dotdot(),
            !found ==> forall|j: int| 0 <= j < i ==> pv[j] != dotdot(),
            !found ==> names(kept@) == pv.take(i as int),
            found ==> names(kept@) == up_pieces(pv),
        decreases pieces@.len() - i,
    {
        if found {
            i = pieces.len();
        } else if pieces[i] == dots {
            proof {
                assert(pv[i as int] == pieces@[i as int]@);
                lemma_before_first(pv, dotdot(), i as int);
                assert(pv.contains(dotdot()));
            }
            let ghost before = kept@;
            if kept.len() > 0 {
                kept.pop();
                assert(names(kept@) =~= names(before).drop_last());
            }
            found = true;
            i = pieces.len();
        } else {
            let ghost before = kept@;
            kept.push(pieces[i].clone());
            assert(names(kept@) =~= names(before).push(pv[i as int]));
            assert(pv.take(i + 1) =~= pv.take(i as int).push(pv[i as int]));
            i = i + 1;
        }
    }
    proof {
        if !found {
            assert(pv.take(pv.len() as int) =~= pv);
            if pv.contains(dotdot()) {
                let w = choose|w: int| 0 <= w < pv.len() && pv[w] == dotdot();
                assert(pv[w] != dotdot());
            }
        }
    }
    assert(slash@ == seq!['/']);
    assert(pv == split(path@, seq!['/']));
    let joined = join_str(&kept, slash.as_str());
    concat(joined.as_str(), slash.as_str())
}

/// A picked menu entry (see `menu_pick_model`).
pub fn menu_pick(value: &str) -> (r: SaveStep)
    requires
        split(value@, sep()).len() >= 3,
    ensures
        r@ == menu_pick_model(value@),
{
    let s = sep_str();
    let parts = split_str(value, s.as_str());
    let ghost pv = names(parts@);
    let n = parts.len();
    assert(pv[1] == parts@[1]@ && pv[2] == parts@[2]@ && pv.last() == parts@[n - 1]@);
    assert(pv == split(value@, sep()));
    assert(s@ == sep());
    let db = parts[1].clone();
    let root = parts[2].clone();
    let up = String::from_str("../");
    proof {
        reveal_strlit("../");
    }
    assert(up@ == seq!['.', '.', '/']);
    if contains_str(value, up.as_str()) {
        let path = up_dir_of(parts[n - 1].as_str());
        return SaveStep::Browse { db, path, root };
    }
    let whole = String::from_str(value);
    if ends_with_slash(&whole) {
        SaveStep::Browse { db, path: parts[n - 1].clone(), root }
    } else {
        SaveStep::Unload { db, path: parts[n - 1].clone() }
    }
}

/// The entry that leads one folder up.
pub open spec fn up_entry() -> Seq<char> {
    seq!['.', '.', '/']
}

/// The last piece of a path (empty for a folder, which ends in `/`).
pub open spec fn last_piece(path: Seq<char>) -> Seq<char> {
    split(path, seq!['/']).last()
}

/// `path` with every occurrence of its last piece removed: the folder
/// above a file, or the folder itself when `path` ends in `/`.
pub open spec fn parent_dir(path: Seq<char>) -> Seq<char> {
    replace_all(path, last_piece(path), Seq::empty())
}

/// The `(name, date)` entries of a folder that its menu shows: all of
/// them, but the `../` entry when it would lead above the root.
pub open spec fn shown_entries(
    entries: Seq<(Seq<char>, Seq<char>)>,
    path: Seq<char>,
    root: Seq<char>,
) -> Seq<(Seq<char>, Seq<char>)> {
    if parent_dir(path) == root {
        entries.filter(|e: (Seq<char>, Seq<char>)| e.0 != up_entry())
    } else {
        entries
    }
}

/// The value of the `k`-th option of a folder menu: where it was shown
/// and what it names.
pub open spec fn menu_value(k: nat, db: Seq<char>, root: Seq<char>, path: Seq<char>, name: Seq<char>) -> Seq<char> {
    decimal(k) + sep() + db + sep() + root + sep() + path + name
}

/// One `(label, value, description)` option per shown entry.
pub open spec fn all_options(
    shown: Seq<(Seq<char>, Seq<char>)>,
    db: Seq<char>,
    root: Seq<char>,
    path: Seq<char>,
) -> Seq<(Seq<char>, Seq<char>, Seq<char>)> {
    Seq::new(shown.len(), |k: int| (shown[k].0, menu_value(k as nat, db, root, path, shown[k].0), shown[k].1))
}

/// At most this many options fit in a menu.
pub open spec fn menu_limit() -> nat {
    25
}

/// The first `menu_limit()` options of `opts`.
pub open spec fn limited<A>(opts: Seq<A>) -> Seq<A> {
    if opts.len() <= menu_limit() {
        opts
    } else {
        opts.take(menu_limit() as int)
    }
}

/// The options of the menu of folder `path` on `db` under `root`.
pub open spec fn menu_model(
    db: Seq<char>,
    path: Seq<char>,
    root: Seq<char>,
    entries: Seq<(Seq<char>, Seq<char>)>,
) -> Seq<(Seq<char>, Seq<char>, Seq<char>)> {
    limited(all_options(shown_entries(entries, path, root), db, root, path))
}

/// The values of `(name, date)` entries.
pub open spec fn entries_view(v: Seq<(String, String)>) -> Seq<(Seq<char>, Seq<char>)> {
    v.map_values(|e: (String, String)| (e.0@, e.1@))
}

/// The values of menu options.
pub open spec fn options_view(v: Seq<(String, String, String)>) -> Seq<(Seq<char>, Seq<char>, Seq<char>)> {
    v.map_values(|o: (String, String, String)| (o.0@, o.1@, o.2@))
}

proof fn lemma_replace_nothing(t: Seq<char>)
    ensures
        replace_all(t, Seq::empty(), Seq::empty()) == t,
    decreases t.len(),
{
    if t.len() > 0 {
        lemma_replace_nothing(t.subrange(1, t.len() as int));
        assert(seq![t[0]] + t.subrange(1, t.len() as int) =~= t);
    }
}

/// The folder above `path` (see `parent_dir`).
pub fn parent_of(path: &str) -> (r: String)
    ensures
        r@ == parent_dir(path@),
{
    let slash = String::from_str("/");
    proof {
        reveal_strlit("/");
    }
    let pieces = split_str(path, slash.as_str());
    let n = pieces.len();
    assert(slash@ == seq!['/']);
    assert(names(pieces@).last() == pieces@[n - 1]@);
    assert(names(pieces@) == split(path@, seq!['/']));
    if pieces[n - 1].as_str().unicode_len() == 0 {
        proof {
            lemma_replace_nothing(path@);
            assert(last_piece(path@) =~= Seq::<char>::empty());
        }
        String::from_str(path)
    } else {
        let nothing = String::new();
        let r = replace_str(path, pieces[n - 1].as_str(), nothing.as_str());
        assert(last_piece(path@) == pieces@[n - 1]@);
        assert(nothing@ =~= Seq::<char>::empty());
        r
    }
}

proof fn lemma_limited_push<A>(opts: Seq<A>, x: A)
    ensures
        limited(opts.push(x)) == if opts.len() < menu_limit() {
            limited(opts).push(x)
        } else {
            limited(opts)
        },
{
    if opts.len() >= menu_limit() {
        assert(opts.push(x).take(menu_limit() as int) =~= opts.take(menu_limit() as int));
    }
}

/// The options of the menu of folder `path` on `db` under `root`, from
/// the folder's `(name, date)` entries (see `menu_model`).
pub fn menu_options(db: &str, path: &str, root: &str, entries: &Vec<(String, String)>) -> (r: Vec<(String, String, String)>)
    ensures
        options_view(r@) == menu_model(db@, path@, root@, entries_view(entries@)),
{
    let parent = parent_of(path);
    let root_s = String::from_str(root);
    let skip_up = parent == root_s;
    let up = String::from_str("../");
    proof {
        reveal_strlit("../");
    }
    let s = sep_str();
    let ghost ev = entries_view(entries@);
    let ghost keep = |e: (Seq<char>, Seq<char>)| e.0 != up_entry();
    let ghost sh = |i: int| shown_entries(ev.take(i), path@, root@);
    let mut out: Vec<(String, String, String)> = Vec::new();
    let mut i: usize = 0;
    assert(ev.take(0).filter(keep) =~= Seq::<(Seq<char>, Seq<char>)>::empty());
    assert(options_view(out@) =~= limited(all_options(sh(0), db@, root@, path@)));
    while i < entries.len()
        invariant
            i <= entries@.len(),
            ev == entries_view(entries@),
            up@ == up_entry(),
            s@ == sep(),
            skip_up == (parent_dir(path@) == root@),
            keep == (|e: (Seq<char>, Seq<char>)| e.0 != up_entry()),
            sh == (|i: int| shown_entries(ev.take(i), path@, root@)),
            options_view(out@) == limited(all_options(sh(i as int), db@, root@, path@)),
            out@.len() <= menu_limit(),
            out@.len() == sh(i as int).len() || out@.len() == menu_limit(),
        decreases entries@.len() - i,
    {
        let ghost before = out@;
        let ghost e = ev[i as int];
        assert(e == (entries@[i as int].0@, entries@[i as int].1@));
        assert(ev.take(i + 1) =~= ev.take(i as int).push(e));
        proof {
            ev.take(i as int).lemma_filter_push(e, keep);
        }
        let hidden = skip_up && entries[i].0 == up;
        if !hidden {
            let ghost prev = sh(i as int);
            assert(sh(i + 1) =~= prev.push(e));
            let ghost all_prev = all_options(prev, db@, root@, path@);
            assert(all_options(sh(i + 1), db@, root@, path@) =~= all_prev.push(
                (e.0, menu_value(prev.len(), db@, root@, path@, e.0), e.1),
            ));
            proof {
                lemma_limited_push(all_prev, (e.0, menu_value(prev.len(), db@, root@, path@, e.0), e.1));
            }
            if out.len() < 25 {
                assert(out@.len() == prev.len());
                let index = u64_to_string(out.len() as u64);
                let value = concat(
                    &concat(&concat(&concat(&concat(&concat(index.as_str(), s.as_str()), db), s.as_str()), root), s.as_str()),
                    &concat(path, entries[i].0.as_str()),
                );
                assert(value@ =~= menu_value(prev.len(), db@, root@, path@, e.0));
                out.push((entries[i].0.clone(), value, entries[i].1.clone()));
                assert(options_view(out@) =~= options_view(before).push(
                    (e.0, menu_value(prev.len(), db@, root@, path@, e.0), e.1),
                ));
            }
        } else {
            assert(sh(i + 1) =~= sh(i as int));
        }
        i = i + 1;
    }
    assert(ev.take(entries@.len() as int) =~= ev);
    out
}

// ---------------------------------------------------------------------------
// Registering a database
// ---------------------------------------------------------------------------
/// The name a new database is registered under: trimmed, with each space
/// made a `-`.
pub open spec fn db_name(db: Seq<char>) -> Seq<char> {
    replace_all(trim(db), seq![' '], seq!['-'])
}

/// The lines that say whether the database needs credentials, and which.
pub open spec fn auth_lines(name: Seq<char>, login: Option<Seq<char>>, password: Option<Seq<char>>) -> Seq<char> {
    match (login, password) {
        (Some(l), Some(p)) => "NEEDAUTH = true\n"@ + name + "_LOGIN = "@ + l + "\n"@ + name + "_PASSWORD = "@ + p,
        _ => "NEEDAUTH = false"@,
    }
}

/// The settings text `env` with a database `name` at `url` added.
pub open spec fn env_with_db(
    env: Seq<char>,
    name: Seq<char>,
    url: Seq<char>,
    login: Option<Seq<char>>,
    password: Option<Seq<char>>,
) -> Seq<char> {
    env + "\n"@ + name + " = "@ + url + "\n"@ + auth_lines(name, login, password)
}

/// Registers database `db` at `url` in the settings text `env`: `None`
/// when its name (see `db_name`) already occurs in the text, otherwise the
/// name and the new text (see `env_with_db`).  Credentials are given both
/// or neither.
pub fn register_db(
    env: &str,
    db: &str,
    url: &str,
    login: Option<String>,
    password: Option<String>,
) -> (r: Option<(String, String)>)
    requires
        login is None <==> password is None,
    ensures
        r is None <==> contains(env@, db_name(db@)),
        r matches Some((name, text)) ==> name@ == db_name(db@) && text@ == env_with_db(
            env@,
            db_name(db@),
            url@,
            opt_view(login),
            opt_view(password),
        ),
{
    let space = String::from_str(" ");
    let dash = String::from_str("-");
    proof {
        reveal_strlit(" ");
        reveal_strlit("-");
    }
    assert(space@ =~= seq![' ']);
    assert(dash@ =~= seq!['-']);
    let trimmed = trim_str(db);
    let name = replace_str(trimmed.as_str(), space.as_str(), dash.as_str());
    assert(name@ == db_name(db@));
    if contains_str(env, name.as_str()) {
        return None;
    }
    let auth = match (login, password) {
        (Some(l), Some(p)) => {
            let a = concat(
                &concat(&concat("NEEDAUTH = true\n", name.as_str()), &concat("_LOGIN = ", l.as_str())),
                &concat(&concat("\n", name.as_str()), &concat("_PASSWORD = ", p.as_str())),
            );
            assert(a@ =~= "NEEDAUTH = true\n"@ + name@ + "_LOGIN = "@ + l@ + "\n"@ + name@ + "_PASSWORD = "@ + p@);
            a
        },
        _ => String::from_str("NEEDAUTH = false"),
    };
    let text = concat(
        &concat(&concat(env, "\n"), &concat(name.as_str(), " = ")),
        &concat(&concat(url, "\n"), auth.as_str()),
    );
    assert(text@ =~= env@ + "\n"@ + name@ + " = "@ + url@ + "\n"@ + auth@);
    Some((name, text))
}

// ---------------------------------------------------------------------------
// The configuration folder
// ---------------------------------------------------------------------------
/// A hidden file: its name starts with `.`.
pub open spec fn is_hidden(name: Seq<char>) -> bool {
    strip_prefix(name, seq!['.']) is Some
}

/// The `(label, value)` option of a `(name, path, is folder)` entry of the
/// configuration folder: a folder's label and value end in `/`.
pub open spec fn config_option(e: (Seq<char>, Seq<char>, bool)) -> (Seq<char>, Seq<char>) {
    if e.2 {
        (e.0 + seq!['/'], e.1 + seq!['/'])
    } else {
        (e.0, e.1)
    }
}

/// The menu of a configuration folder: its entries that are not hidden,
/// at most `menu_limit()` of them.
pub open spec fn config_menu_model(entries: Seq<(Seq<char>, Seq<char>, bool)>) -> Seq<(Seq<char>, Seq<char>)> {
    limited(
        entries.filter(|e: (Seq<char>, Seq<char>, bool)| !is_hidden(e.0)).map_values(
            |e: (Seq<char>, Seq<char>, bool)| config_option(e),
        ),
    )
}

/// The values of folder entries.
pub open spec fn files_view(v: Seq<(String, String, bool)>) -> Seq<(Seq<char>, Seq<char>, bool)> {
    v.map_values(|e: (String, String, bool)| (e.0@, e.1@, e.2))
}

/// Whether `s` starts with `.`.
fn starts_with_dot(s: &String) -> (r: bool)
    ensures
        r == is_hidden(s@),
{
    let st = s.as_str();
    if st.unicode_len() == 0 {
        return false;
    }
    let c = st.get_char(0);
    proof {
        assert(s@.subrange(0, 1) =~= seq![c]);
        if c != '.' {
            assert(seq![c][0] != seq!['.'][0]);
        }
    }
    c == '.'
}

/// The menu of a configuration folder (see `config_menu_model`) from its
/// `(name, path, is folder)` entries.
pub fn config_menu(entries: &Vec<(String, String, bool)>) -> (r: Vec<(String, String)>)
    ensures
        r@.map_values(|o: (String, String)| (o.0@, o.1@)) == config_menu_model(files_view(entries@)),
{
    let slash = String::from_str("/");
    proof {
        reveal_strlit("/");
    }
    let ghost fv = files_view(entries@);
    let ghost keep = |e: (Seq<char>, Seq<char>, bool)| !is_hidden(e.0);
    let ghost conv = |e: (Seq<char>, Seq<char>, bool)| config_option(e);
    let mut out: Vec<(String, String)> = Vec::new();
    let mut i: usize = 0;
    assert(fv.take(0).filter(keep) =~= Seq::<(Seq<char>, Seq<char>, bool)>::empty());
    assert(out@.map_values(|o: (String, String)| (o.0@, o.1@)) =~= limited(fv.take(0).filter(keep).map_values(conv)));
    while i < entries.len()
        invariant
            i <= entries@.len(),
            slash@ == seq!['/'],
            fv == files_view(entries@),
            keep == (|e: (Seq<char>, Seq<char>, bool)| !is_hidden(e.0)),
            conv == (|e: (Seq<char>, Seq<char>, bool)| config_option(e)),
            out@.map_values(|o: (String, String)| (o.0@, o.1@)) == limited(fv.take(i as int).filter(keep).map_values(conv)),
            out@.len() <= menu_limit(),
        decreases entries@.len() - i,
    {
        let ghost before = out@;
        let ghost e = fv[i as int];
        assert(e == (entries@[i as int].0@, entries@[i as int].1@, entries@[i as int].2));
        assert(fv.take(i + 1) =~= fv.take(i as int).push(e));
        proof {
            fv.take(i as int).lemma_filter_push(e, keep);
        }
        let ghost prev = fv.take(i as int).filter(keep).map_values(conv);
        if !starts_with_dot(&entries[i].0) {
            assert(fv.take(i + 1).filter(keep).map_values(conv) =~= prev.push(config_option(e)));
            proof {
                lemma_limited_push(prev, config_option(e));
            }
            if out.len() < 25 {
                let (label, value) = if entries[i].2 {
                    (concat(entries[i].0.as_str(), slash.as_str()), concat(entries[i].1.as_str(), slash.as_str()))
                } else {
                    (entries[i].0.clone(), entries[i].1.clone())
                };
                assert((label@, value@) == config_option(e));
                out.push((label, value));
                assert(out@.map_values(|o: (String, String)| (o.0@, o.1@)) =~= before.map_values(
                    |o: (String, String)| (o.0@, o.1@),
                ).push(config_option(e)));
            }
        } else {
            assert(fv.take(i + 1).filter(keep) =~= fv.take(i as int).filter(keep));
        }
        i = i + 1;
    }
    assert(fv.take(entries@.len() as int) =~= fv);
    out
}

// ---------------------------------------------------------------------------
// Round trips
// ---------------------------------------------------------------------------
/// `s` holds no `:`, so the separator of menu values cannot start in it.
pub open spec fn colon_free(s: Seq<char>) -> bool {
    forall|i: int| 0 <= i < s.len() ==> s[i] != ':'
}

proof fn lemma_split_colon_free(a: Seq<char>)
    requires
        colon_free(a),
    ensures
        split(a, sep()) == seq![a],
    decreases a.len(),
{
    if a.len() > 0 {
        let rest = a.subrange(1, a.len() as int);
        assert(!occurs_at(a, sep(), 0)) by {
            if a.len() >= 3 {
                assert(a.subrange(0, 3)[0] == a[0]);
            }
        }
        lemma_split_colon_free(rest);
        assert(seq![a[0]] + rest =~= a);
    } else {
        assert(a =~= Seq::<char>::empty());
    }
}

proof fn lemma_split_after(a: Seq<char>, b: Seq<char>)
    requires
        colon_free(a),
    ensures
        split(a + sep() + b, sep()) == seq![a] + split(b, sep()),
    decreases a.len(),
{
    let s = a + sep() + b;
    if a.len() == 0 {
        assert(s.subrange(0, 3) =~= sep());
        assert(s.subrange(3, s.len() as int) =~= b);
        assert(a =~= Seq::<char>::empty());
    } else {
        let rest = a.subrange(1, a.len() as int);
        assert(!occurs_at(s, sep(), 0)) by {
            assert(s.subrange(0, 3)[0] == a[0]);
        }
        assert(s.subrange(1, s.len() as int) =~= rest + sep() + b);
        lemma_split_after(rest, b);
        assert(seq![a[0]] + rest =~= a);
        assert(split(s, sep()) =~= seq![a] + split(b, sep()));
    }
}

proof fn lemma_decimal_colon_free(n: nat)
    ensures
        colon_free(decimal(n)),
    decreases n,
{
    if n >= 10 {
        lemma_decimal_colon_free(n / 10);
    }
}

proof fn lemma_ends_with_slash(x: Seq<char>, y: Seq<char>)
    requires
        y.len() > 0 || (x.len() > 0 && x.last() == ':'),
    ensures
        ends_with(x + y, seq!['/']) == if y.len() > 0 {
            ends_with(y, seq!['/'])
        } else {
            false
        },
{
    let s = x + y;
    if y.len() > 0 {
        assert(s.subrange(s.len() - 1, s.len() as int) =~= y.subrange(y.len() - 1, y.len() as int));
    } else {
        assert(s =~= x);
        assert(s.subrange(s.len() - 1, s.len() as int) =~= seq![':']);
        assert(seq![':'][0] != seq!['/'][0]);
    }
}

/// Picking an entry that a folder menu offers (see `menu_options`) opens
/// it: the folder path followed by the entry's name, on the menu's
/// database, under the menu's root; when no name holds a `:` and the
/// entry does not lead up.
pub proof fn law_menu_pick_opens_the_offered_entry(
    k: nat,
    db: Seq<char>,
    root: Seq<char>,
    path: Seq<char>,
    name: Seq<char>,
)
    requires
        colon_free(db),
        colon_free(root),
        colon_free(path + name),
        !contains(menu_value(k, db, root, path, name), up_entry()),
    ensures
        menu_pick_model(menu_value(k, db, root, path, name)) == open_path(db, path + name, root),
{
    let p = path + name;
    let v = menu_value(k, db, root, path, name);
    lemma_decimal_colon_free(k);
    lemma_split_colon_free(p);
    lemma_split_after(root, p);
    lemma_split_after(db, root + sep() + p);
    lemma_split_after(decimal(k), db + sep() + (root + sep() + p));
    assert(v =~= decimal(k) + sep() + (db + sep() + (root + sep() + p)));
    let parts = split(v, sep());
    assert(parts =~= seq![decimal(k), db, root, p]);
    assert(v =~= (decimal(k) + sep() + db + sep() + root + sep()) + p);
    lemma_ends_with_slash(decimal(k) + sep() + db + sep() + root + sep(), p);
}

/// Choosing one of several databases for a request with a path leads
/// where the request would lead were that database the only one; when
/// neither the database nor the path holds a `:`.
pub proof fn law_chosen_db_is_opened_like_the_only_one(dbs: Seq<Seq<char>>, path: Seq<char>, i: int)
    requires
        dbs.len() > 1,
        0 <= i < dbs.len(),
        colon_free(dbs[i]),
        colon_free(path),
    ensures
        save_plus_model(dbs, Some(path)) matches StepModel::ChooseDb(options) && options[i].0 == dbs[i]
            && picked_db_model(options[i].1) == save_plus_model(seq![dbs[i]], Some(path)),
{
    lemma_split_colon_free(path);
    lemma_split_after(dbs[i], path);
}

/// Choosing one of several databases for a request inside the linked
/// folders leads where the request would lead were that database, with
/// its folder, the only one; when no name holds a `:`.
pub proof fn law_chosen_folder_db_is_opened_like_the_only_one(
    linked: Seq<(Seq<char>, Option<Seq<char>>)>,
    path: Seq<char>,
    i: int,
)
    requires
        linked_only(linked).len() > 1,
        0 <= i < linked_only(linked).len(),
        colon_free(linked_only(linked)[i].0),
        colon_free(in_folder(linked_only(linked)[i].1->0, path)),
    ensures
        save_model(linked, Some(path)) matches StepModel::ChooseDb(options) && options[i].0 == linked_only(linked)[i].0
            && picked_db_model(options[i].1) == save_model(seq![linked_only(linked)[i]], Some(path)),
{
    let e = linked_only(linked)[i];
    let full = in_folder(e.1->0, path);
    lemma_split_colon_free(full);
    lemma_split_after(e.0, full);
    let single = seq![e];
    assert(e.1 is Some) by {
        linked.lemma_filter_pred(|x: (Seq<char>, Option<Seq<char>>)| x.1 is Some, i);
    }
    assert(linked_only(single) =~= single) by {
        let empty = Seq::<(Seq<char>, Option<Seq<char>>)>::empty();
        empty.lemma_filter_push(e, |x: (Seq<char>, Option<Seq<char>>)| x.1 is Some);
        assert(empty.push(e) =~= single);
        assert(empty.filter(|x: (Seq<char>, Option<Seq<char>>)| x.1 is Some) =~= empty);
    }
}

} // verus!
