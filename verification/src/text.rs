//! Text handling shared by the localization, the shop, the logger and the
//! web connector: substring search, replacement, trimming and splitting,
//! each stated over sequences of characters.
use vstd::prelude::*;
use vstd::string::*;

verus! {

// ---------------------------------------------------------------------------
// Specifications
// ---------------------------------------------------------------------------
/// `p` occurs in `t` at position `i`.
pub open spec fn occurs_at(t: Seq<char>, p: Seq<char>, i: int) -> bool {
    0 <= i && i + p.len() <= t.len() && t.subrange(i, i + p.len()) == p
}

/// `p` occurs somewhere in `t` (the empty pattern occurs everywhere).
pub open spec fn contains(t: Seq<char>, p: Seq<char>) -> bool {
    exists|i: int| occurs_at(t, p, i)
}

/// Every non-overlapping occurrence of `p`, found from left to right, is
/// replaced by `r`.  An empty pattern leaves the text as it is.
pub open spec fn replace_all(t: Seq<char>, p: Seq<char>, r: Seq<char>) -> Seq<char>
    decreases t.len(),
{
    if t.len() == 0 {
        t
    } else if p.len() > 0 && occurs_at(t, p, 0) {
        r + replace_all(t.subrange(p.len() as int, t.len() as int), p, r)
    } else {
        seq![t[0]] + replace_all(t.subrange(1, t.len() as int), p, r)
    }
}

/// The characters that Unicode classes as white space (what `str::trim`
/// removes).
pub open spec fn is_white_space(c: char) -> bool {
    ||| ('\u{9}' <= c && c <= '\u{d}')
    ||| c == ' '
    ||| c == '\u{85}'
    ||| c == '\u{a0}'
    ||| c == '\u{1680}'
    ||| ('\u{2000}' <= c && c <= '\u{200a}')
    ||| c == '\u{2028}'
    ||| c == '\u{2029}'
    ||| c == '\u{202f}'
    ||| c == '\u{205f}'
    ||| c == '\u{3000}'
}

/// `s` without its leading white space.
pub open spec fn trim_start(s: Seq<char>) -> Seq<char>
    decreases s.len(),
{
    if s.len() > 0 && is_white_space(s[0]) {
        trim_start(s.subrange(1, s.len() as int))
    } else {
        s
    }
}

/// `s` without its trailing white space.
pub open spec fn trim_end(s: Seq<char>) -> Seq<char>
    decreases s.len(),
{
    if s.len() > 0 && is_white_space(s.last()) {
        trim_end(s.drop_last())
    } else {
        s
    }
}

/// `s` without leading and trailing white space.
pub open spec fn trim(s: Seq<char>) -> Seq<char> {
    trim_end(trim_start(s))
}

/// The pieces of `s` between the occurrences of `sep`, found from left to
/// right (as `str::split` gives them; there is always at least one piece).
pub open spec fn split(s: Seq<char>, sep: Seq<char>) -> Seq<Seq<char>>
    decreases s.len(),
{
    if s.len() == 0 {
        seq![Seq::<char>::empty()]
    } else if sep.len() > 0 && occurs_at(s, sep, 0) {
        seq![Seq::<char>::empty()] + split(s.subrange(sep.len() as int, s.len() as int), sep)
    } else {
        let rest = split(s.subrange(1, s.len() as int), sep);
        rest.update(0, seq![s[0]] + rest[0])
    }
}

/// The last `n` characters of `s` (all of it when it is shorter).
pub open spec fn tail(s: Seq<char>, n: nat) -> Seq<char> {
    if s.len() <= n {
        s
    } else {
        s.subrange(s.len() - n, s.len() as int)
    }
}

// ---------------------------------------------------------------------------
// Lemmas
// ---------------------------------------------------------------------------
/// Splitting always gives at least one piece.
pub proof fn lemma_split_nonempty(s: Seq<char>, sep: Seq<char>)
    ensures
        split(s, sep).len() >= 1,
    decreases s.len(),
{
    if s.len() > 0 {
        if sep.len() > 0 && occurs_at(s, sep, 0) {
            lemma_split_nonempty(s.subrange(sep.len() as int, s.len() as int), sep);
        } else {
            lemma_split_nonempty(s.subrange(1, s.len() as int), sep);
        }
    }
}

/// Every character of a piece of `split(s, sep)` is a character of `s`.
pub proof fn lemma_split_piece_chars(s: Seq<char>, sep: Seq<char>, k: int, x: char)
    requires
        0 <= k < split(s, sep).len(),
        split(s, sep)[k].contains(x),
    ensures
        s.contains(x),
    decreases s.len(),
{
    let piece = split(s, sep)[k];
    let w = choose|w: int| 0 <= w < piece.len() && piece[w] == x;
    if s.len() == 0 {
        assert(piece.len() == 0);
    } else if sep.len() > 0 && occurs_at(s, sep, 0) {
        let tail = s.subrange(sep.len() as int, s.len() as int);
        if k == 0 {
            assert(piece.len() == 0);
        } else {
            assert(piece == split(tail, sep)[k - 1]);
            lemma_split_piece_chars(tail, sep, k - 1, x);
            let v = choose|v: int| 0 <= v < tail.len() && tail[v] == x;
            assert(s[v + sep.len()] == x);
        }
    } else {
        let tail = s.subrange(1, s.len() as int);
        lemma_split_nonempty(tail, sep);
        let rest = split(tail, sep);
        if k == 0 {
            assert(piece == seq![s[0]] + rest[0]);
            if w == 0 {
                assert(s[0] == x);
            } else {
                assert(rest[0][w - 1] == x);
                lemma_split_piece_chars(tail, sep, 0, x);
                let v = choose|v: int| 0 <= v < tail.len() && tail[v] == x;
                assert(s[v + 1] == x);
            }
        } else {
            assert(piece == rest[k]);
            lemma_split_piece_chars(tail, sep, k, x);
            let v = choose|v: int| 0 <= v < tail.len() && tail[v] == x;
            assert(s[v + 1] == x);
        }
    }
}

/// Removing every `c` from `t` leaves only characters of `t`, and no `c`.
pub proof fn lemma_removed_char_gone(t: Seq<char>, c: char, x: char)
    requires
        replace_all(t, seq![c], Seq::empty()).contains(x),
    ensures
        x != c,
        t.contains(x),
    decreases t.len(),
{
    let p = seq![c];
    let out = replace_all(t, p, Seq::empty());
    let w = choose|w: int| 0 <= w < out.len() && out[w] == x;
    if t.len() == 0 {
        assert(out.len() == 0);
    } else {
        let tail = t.subrange(1, t.len() as int);
        if occurs_at(t, p, 0) {
            assert(out =~= replace_all(tail, p, Seq::empty()));
            lemma_removed_char_gone(tail, c, x);
            let v = choose|v: int| 0 <= v < tail.len() && tail[v] == x;
            assert(t[v + 1] == x);
        } else {
            assert(t[0] != c) by {
                if t[0] == c {
                    assert(t.subrange(0, 1) =~= p);
                }
            }
            assert(out == seq![t[0]] + replace_all(tail, p, Seq::empty()));
            if w == 0 {
                assert(t[0] == x);
            } else {
                assert(replace_all(tail, p, Seq::empty())[w - 1] == x);
                lemma_removed_char_gone(tail, c, x);
                let v = choose|v: int| 0 <= v < tail.len() && tail[v] == x;
                assert(t[v + 1] == x);
            }
        }
    }
}

/// Replacing a pattern that does not occur changes nothing.
pub proof fn lemma_replace_absent(t: Seq<char>, p: Seq<char>, r: Seq<char>)
    requires
        p.len() > 0,
        !contains(t, p),
    ensures
        replace_all(t, p, r) == t,
    decreases t.len(),
{
    if t.len() > 0 {
        let rest = t.subrange(1, t.len() as int);
        assert(!occurs_at(t, p, 0));
        assert forall|i: int| !occurs_at(rest, p, i) by {
            if occurs_at(rest, p, i) {
                assert(t.subrange(i + 1, i + 1 + p.len()) =~= rest.subrange(i, i + p.len()));
                assert(occurs_at(t, p, i + 1));
            }
        }
        lemma_replace_absent(rest, p, r);
        assert(seq![t[0]] + rest =~= t);
    }
}

/// Trimming leaves no white space at either end.
pub proof fn lemma_trim_ends(s: Seq<char>)
    ensures
        trim_start(s).len() > 0 ==> !is_white_space(trim_start(s)[0]),
        trim_end(s).len() > 0 ==> !is_white_space(trim_end(s).last()),
    decreases s.len(),
{
    if s.len() > 0 {
        if is_white_space(s[0]) {
            lemma_trim_ends(s.subrange(1, s.len() as int));
        }
        if is_white_space(s.last()) {
            lemma_trim_ends(s.drop_last());
        }
    }
}

proof fn lemma_trim_start_skip(s: Seq<char>, a: int)
    requires
        0 <= a <= s.len(),
        forall|j: int| 0 <= j < a ==> is_white_space(s[j]),
        a == s.len() || !is_white_space(s[a]),
    ensures
        trim_start(s) == s.subrange(a, s.len() as int),
    decreases a,
{
    if a == 0 {
        assert(s.subrange(0, s.len() as int) =~= s);
    } else {
        let rest = s.subrange(1, s.len() as int);
        lemma_trim_start_skip(rest, a - 1);
        assert(rest.subrange(a - 1, rest.len() as int) =~= s.subrange(a, s.len() as int));
    }
}

proof fn lemma_trim_end_take(s: Seq<char>, b: int)
    requires
        0 <= b <= s.len(),
        forall|j: int| b <= j < s.len() ==> is_white_space(s[j]),
        b == 0 || !is_white_space(s[b - 1]),
    ensures
        trim_end(s) == s.subrange(0, b),
    decreases s.len() - b,
{
    if b == s.len() {
        assert(s.subrange(0, b) =~= s);
    } else {
        let rest = s.drop_last();
        lemma_trim_end_take(rest, b);
        assert(rest.subrange(0, b) =~= s.subrange(0, b));
    }
}

// ---------------------------------------------------------------------------
// Conversions between strings and character vectors
// ---------------------------------------------------------------------------
/// Appends one character to a string (`String::push`).
#[verifier::external_body]
fn push_char(s: &mut String, c: char)
    ensures
        final(s)@ == old(s)@.push(c),
{
    s.push(c);
}

/// The characters of `s`.
pub fn chars_of(s: &str) -> (v: Vec<char>)
    ensures
        v@ == s@,
{
    let n = s.unicode_len();
    let mut v: Vec<char> = Vec::new();
    let mut i: usize = 0;
    while i < n
        invariant
            n == s@.len(),
            i <= n,
            v@ == s@.subrange(0, i as int),
        decreases n - i,
    {
        let c = s.get_char(i);
        v.push(c);
        i = i + 1;
        assert(v@ =~= s@.subrange(0, i as int));
    }
    assert(v@ =~= s@);
    v
}

/// The string made of the characters of `v`.
pub fn string_of(v: &Vec<char>) -> (s: String)
    ensures
        s@ == v@,
{
    let mut s = String::new();
    let mut i: usize = 0;
    while i < v.len()
        invariant
            i <= v@.len(),
            s@ == v@.subrange(0, i as int),
        decreases v@.len() - i,
    {
        push_char(&mut s, v[i]);
        i = i + 1;
        assert(s@ =~= v@.subrange(0, i as int));
    }
    assert(s@ =~= v@);
    s
}

/// Appends the characters of `src` to `out`.
pub fn push_all(out: &mut Vec<char>, src: &Vec<char>)
    ensures
        final(out)@ == old(out)@ + src@,
{
    let ghost start = out@;
    let mut i: usize = 0;
    while i < src.len()
        invariant
            i <= src@.len(),
            out@ == start + src@.subrange(0, i as int),
        decreases src@.len() - i,
    {
        out.push(src[i]);
        i = i + 1;
        assert(out@ =~= start + src@.subrange(0, i as int));
    }
    assert(src@.subrange(0, src@.len() as int) =~= src@);
}

/// The concatenation of two strings.
pub fn concat(a: &str, b: &str) -> (s: String)
    ensures
        s@ == a@ + b@,
{
    let mut v = chars_of(a);
    let w = chars_of(b);
    push_all(&mut v, &w);
    string_of(&v)
}

// ---------------------------------------------------------------------------
// Search and replacement
// ---------------------------------------------------------------------------
/// Whether `p` occurs in `t` at position `i`.
pub fn occurs_at_exec(t: &Vec<char>, p: &Vec<char>, i: usize) -> (r: bool)
    ensures
        r == occurs_at(t@, p@, i as int),
{
    if i > t.len() || p.len() > t.len() - i {
        return false;
    }
    let mut j: usize = 0;
    while j < p.len()
        invariant
            i + p@.len() <= t@.len(),
            t@.len() <= usize::MAX,
            j <= p@.len(),
            forall|k: int| 0 <= k < j ==> t@[i + k] == p@[k],
        decreases p@.len() - j,
    {
        assert(i + j < t@.len());
        if t[i + j] != p[j] {
            assert(t@.subrange(i as int, i + p@.len())[j as int] != p@[j as int]);
            return false;
        }
        j = j + 1;
    }
    assert(t@.subrange(i as int, i + p@.len()) =~= p@);
    true
}

/// Whether `p` occurs anywhere in `t`.
pub fn contains_chars(t: &Vec<char>, p: &Vec<char>) -> (r: bool)
    ensures
        r == contains(t@, p@),
{
    let mut i: usize = 0;
    while i < t.len()
        invariant
            i <= t@.len(),
            forall|k: int| 0 <= k < i ==> !occurs_at(t@, p@, k),
        decreases t@.len() - i,
    {
        if occurs_at_exec(t, p, i) {
            return true;
        }
        i = i + 1;
    }
    if occurs_at_exec(t, p, i) {
        return true;
    }
    assert forall|k: int| !occurs_at(t@, p@, k) by {
        if k > t@.len() {
            assert(!occurs_at(t@, p@, k));
        }
    }
    false
}

/// Whether `p` occurs anywhere in `t` (`str::contains`).
pub fn contains_str(t: &str, p: &str) -> (r: bool)
    ensures
        r == contains(t@, p@),
{
    let tv = chars_of(t);
    let pv = chars_of(p);
    contains_chars(&tv, &pv)
}

/// Replaces every occurrence of `p` in `t` by `r`, scanning left to right.
pub fn replace_chars(t: &Vec<char>, p: &Vec<char>, r: &Vec<char>) -> (out: Vec<char>)
    requires
        p@.len() > 0,
    ensures
        out@ == replace_all(t@, p@, r@),
{
    let mut out: Vec<char> = Vec::new();
    let mut i: usize = 0;
    assert(t@.subrange(0, t@.len() as int) =~= t@);
    assert(out@ + t@ =~= t@);
    while i < t.len()
        invariant
            p@.len() > 0,
            i <= t@.len(),
            out@ + replace_all(t@.subrange(i as int, t@.len() as int), p@, r@) == replace_all(
                t@,
                p@,
                r@,
            ),
        decreases t@.len() - i,
    {
        let ghost rest = t@.subrange(i as int, t@.len() as int);
        if occurs_at_exec(t, p, i) {
            proof {
                assert(rest.subrange(0, p@.len() as int) =~= t@.subrange(
                    i as int,
                    i + p@.len(),
                ));
                assert(rest.subrange(p@.len() as int, rest.len() as int) =~= t@.subrange(
                    i + p@.len(),
                    t@.len() as int,
                ));
            }
            let ghost before = out@;
            push_all(&mut out, r);
            i = i + p.len();
            proof {
                assert(out@ + replace_all(t@.subrange(i as int, t@.len() as int), p@, r@) =~= before
                    + (r@ + replace_all(t@.subrange(i as int, t@.len() as int), p@, r@)));
            }
        } else {
            proof {
                if occurs_at(rest, p@, 0) {
                    assert(rest.subrange(0, p@.len() as int) =~= t@.subrange(
                        i as int,
                        i + p@.len(),
                    ));
                }
                assert(rest.subrange(1, rest.len() as int) =~= t@.subrange(
                    i + 1,
                    t@.len() as int,
                ));
            }
            let ghost before = out@;
            out.push(t[i]);
            i = i + 1;
            proof {
                assert(out@ =~= before + seq![rest[0]]);
            }
        }
    }
    proof {
        assert(t@.subrange(i as int, t@.len() as int) =~= Seq::<char>::empty());
        assert(out@ + Seq::<char>::empty() =~= out@);
    }
    out
}

/// Replaces every occurrence of `p` in `t` by `r` (`str::replace`).
pub fn replace_str(t: &str, p: &str, r: &str) -> (out: String)
    requires
        p@.len() > 0,
    ensures
        out@ == replace_all(t@, p@, r@),
{
    let tv = chars_of(t);
    let pv = chars_of(p);
    let rv = chars_of(r);
    let ov = replace_chars(&tv, &pv, &rv);
    string_of(&ov)
}

// ---------------------------------------------------------------------------
// Trimming, splitting, cutting
// ---------------------------------------------------------------------------
/// Whether `c` is white space.
pub fn is_white_space_exec(c: char) -> (r: bool)
    ensures
        r == is_white_space(c),
{
    ('\u{9}' <= c && c <= '\u{d}') || c == ' ' || c == '\u{85}' || c == '\u{a0}' || c
        == '\u{1680}' || ('\u{2000}' <= c && c <= '\u{200a}') || c == '\u{2028}' || c
        == '\u{2029}' || c == '\u{202f}' || c == '\u{205f}' || c == '\u{3000}'
}

/// The characters `v[from..to]`.
pub fn sub_chars(v: &Vec<char>, from: usize, to: usize) -> (r: Vec<char>)
    requires
        from <= to <= v@.len(),
    ensures
        r@ == v@.subrange(from as int, to as int),
{
    let mut r: Vec<char> = Vec::new();
    let mut i = from;
    while i < to
        invariant
            from <= i <= to <= v@.len(),
            r@ == v@.subrange(from as int, i as int),
        decreases to - i,
    {
        r.push(v[i]);
        i = i + 1;
        assert(r@ =~= v@.subrange(from as int, i as int));
    }
    r
}

/// `s` without leading and trailing white space (`str::trim`).
pub fn trim_chars(s: &Vec<char>) -> (r: Vec<char>)
    ensures
        r@ == trim(s@),
{
    let n = s.len();
    let mut a: usize = 0;
    while a < n && is_white_space_exec(s[a])
        invariant
            n == s@.len(),
            a <= n,
            forall|j: int| 0 <= j < a ==> is_white_space(s@[j]),
        decreases n - a,
    {
        a = a + 1;
    }
    let mut b: usize = n;
    while b > a && is_white_space_exec(s[b - 1])
        invariant
            n == s@.len(),
            a <= b <= n,
            forall|j: int| b <= j < n ==> is_white_space(s@[j]),
        decreases b,
    {
        b = b - 1;
    }
    proof {
        lemma_trim_start_skip(s@, a as int);
        let t = s@.subrange(a as int, n as int);
        lemma_trim_end_take(t, (b - a) as int);
        assert(t.subrange(0, (b - a) as int) =~= s@.subrange(a as int, b as int));
    }
    sub_chars(s, a, b)
}

/// `s` without leading and trailing white space (`str::trim`).
pub fn trim_str(s: &str) -> (r: String)
    ensures
        r@ == trim(s@),
{
    let v = chars_of(s);
    let t = trim_chars(&v);
    string_of(&t)
}

/// The pieces of `s` between the occurrences of `sep` (`str::split`).
pub fn split_chars(s: &Vec<char>, sep: &Vec<char>) -> (r: Vec<Vec<char>>)
    requires
        sep@.len() > 0,
    ensures
        r@.map_values(|x: Vec<char>| x@) == split(s@, sep@),
        r@.len() >= 1,
{
    let n = s.len();
    let mut done: Vec<Vec<char>> = Vec::new();
    let mut cur: Vec<char> = Vec::new();
    let mut i: usize = 0;
    proof {
        assert(s@.subrange(0, n as int) =~= s@);
        lemma_split_nonempty(s@, sep@);
    }
    while i < n
        invariant
            n == s@.len(),
            sep@.len() > 0,
            i <= n,
            split(s@.subrange(i as int, n as int), sep@).len() >= 1,
            split(s@, sep@) == done@.map_values(|x: Vec<char>| x@) + split(
                s@.subrange(i as int, n as int),
                sep@,
            ).update(0, cur@ + split(s@.subrange(i as int, n as int), sep@)[0]),
        decreases n - i,
    {
        let ghost rest = s@.subrange(i as int, n as int);
        let ghost d0 = done@.map_values(|x: Vec<char>| x@);
        let ghost c0 = cur@;
        if occurs_at_exec(s, sep, i) {
            let ghost rest2 = s@.subrange(i + sep@.len(), n as int);
            proof {
                assert(rest.subrange(0, sep@.len() as int) =~= s@.subrange(
                    i as int,
                    i + sep@.len(),
                ));
                assert(occurs_at(rest, sep@, 0));
                assert(rest.subrange(sep@.len() as int, rest.len() as int) =~= rest2);
                lemma_split_nonempty(rest2, sep@);
                assert(split(rest, sep@) == seq![Seq::<char>::empty()] + split(rest2, sep@));
            }
            done.push(cur);
            cur = Vec::new();
            i = i + sep.len();
            proof {
                assert(done@.map_values(|x: Vec<char>| x@) =~= d0.push(c0));
                assert(split(rest, sep@).update(0, c0 + split(rest, sep@)[0]) =~= seq![c0]
                    + split(rest2, sep@));
                assert(split(rest2, sep@).update(0, cur@ + split(rest2, sep@)[0]) =~= split(
                    rest2,
                    sep@,
                ));
                assert(d0 + (seq![c0] + split(rest2, sep@)) =~= d0.push(c0) + split(
                    rest2,
                    sep@,
                ));
            }
        } else {
            let ghost rest2 = s@.subrange(i + 1, n as int);
            proof {
                if occurs_at(rest, sep@, 0) {
                    assert(rest.subrange(0, sep@.len() as int) =~= s@.subrange(
                        i as int,
                        i + sep@.len(),
                    ));
                }
                assert(rest.subrange(1, rest.len() as int) =~= rest2);
                lemma_split_nonempty(rest2, sep@);
            }
            cur.push(s[i]);
            i = i + 1;
            proof {
                let sp = split(rest2, sep@);
                assert(split(rest, sep@) == sp.update(0, seq![rest[0]] + sp[0]));
                assert(cur@ =~= c0.push(rest[0]));
                assert(c0 + (seq![rest[0]] + sp[0]) =~= cur@ + sp[0]);
                assert(sp.update(0, seq![rest[0]] + sp[0]).update(
                    0,
                    c0 + (seq![rest[0]] + sp[0]),
                ) =~= sp.update(0, cur@ + sp[0]));
            }
        }
    }
    proof {
        assert(s@.subrange(n as int, n as int) =~= Seq::<char>::empty());
        assert(cur@ + Seq::<char>::empty() =~= cur@);
    }
    let ghost d0 = done@.map_values(|x: Vec<char>| x@);
    done.push(cur);
    proof {
        assert(done@.map_values(|x: Vec<char>| x@) =~= d0 + seq![Seq::<char>::empty()].update(
            0,
            cur@ + Seq::<char>::empty(),
        ));
    }
    done
}

/// The last `n` characters of `s`.
pub fn tail_chars(s: &Vec<char>, n: usize) -> (r: Vec<char>)
    ensures
        r@ == tail(s@, n as nat),
{
    if s.len() <= n {
        assert(s@.subrange(0, s@.len() as int) =~= s@);
        sub_chars(s, 0, s.len())
    } else {
        sub_chars(s, s.len() - n, s.len())
    }
}

// ---------------------------------------------------------------------------
// Numbers
// ---------------------------------------------------------------------------
/// The character of a decimal digit.
pub open spec fn digit_char(d: nat) -> char {
    if d == 0 {
        '0'
    } else if d == 1 {
        '1'
    } else if d == 2 {
        '2'
    } else if d == 3 {
        '3'
    } else if d == 4 {
        '4'
    } else if d == 5 {
        '5'
    } else if d == 6 {
        '6'
    } else if d == 7 {
        '7'
    } else if d == 8 {
        '8'
    } else {
        '9'
    }
}

/// The decimal writing of `n`, without leading zeros.
pub open spec fn decimal(n: nat) -> Seq<char>
    decreases n,
{
    if n < 10 {
        seq![digit_char(n)]
    } else {
        decimal(n / 10).push(digit_char(n % 10))
    }
}

/// The decimal writing of a signed number (a minus sign before negatives).
pub open spec fn signed_decimal(n: int) -> Seq<char> {
    if n < 0 {
        seq!['-'] + decimal((-n) as nat)
    } else {
        decimal(n as nat)
    }
}

fn digit_char_exec(d: u64) -> (c: char)
    requires
        d < 10,
    ensures
        c == digit_char(d as nat),
{
    if d == 0 {
        '0'
    } else if d == 1 {
        '1'
    } else if d == 2 {
        '2'
    } else if d == 3 {
        '3'
    } else if d == 4 {
        '4'
    } else if d == 5 {
        '5'
    } else if d == 6 {
        '6'
    } else if d == 7 {
        '7'
    } else if d == 8 {
        '8'
    } else {
        '9'
    }
}

/// Appends the decimal writing of `n`.
pub fn push_decimal(out: &mut Vec<char>, n: u64)
    ensures
        final(out)@ == old(out)@ + decimal(n as nat),
    decreases n,
{
    if n >= 10 {
        push_decimal(out, n / 10);
    }
    let ghost before = out@;
    out.push(digit_char_exec(n % 10));
    proof {
        if n >= 10 {
            assert(out@ =~= old(out)@ + decimal(n as nat));
        } else {
            assert(out@ =~= old(out)@ + decimal(n as nat));
        }
    }
}

/// The decimal writing of `n` (`u64::to_string`).
pub fn u64_to_string(n: u64) -> (s: String)
    ensures
        s@ == decimal(n as nat),
{
    let mut v: Vec<char> = Vec::new();
    push_decimal(&mut v, n);
    assert(v@ =~= decimal(n as nat));
    string_of(&v)
}

/// The decimal writing of `n` (`i64::to_string`).
pub fn i64_to_string(n: i64) -> (s: String)
    ensures
        s@ == signed_decimal(n as int),
{
    let mut v: Vec<char> = Vec::new();
    if n < 0 {
        v.push('-');
        let m: u64 = if n == i64::MIN {
            9223372036854775808u64
        } else {
            (-n) as u64
        };
        push_decimal(&mut v, m);
        assert(v@ =~= signed_decimal(n as int));
    } else {
        push_decimal(&mut v, n as u64);
        assert(v@ =~= signed_decimal(n as int));
    }
    string_of(&v)
}

// ---------------------------------------------------------------------------
// Reading numbers
// ---------------------------------------------------------------------------
/// Whether `c` is an ASCII digit.
pub open spec fn is_digit(c: char) -> bool {
    '0' <= c && c <= '9'
}

/// The value of the digit `c`.
pub open spec fn digit_value(c: char) -> int {
    c as int - '0' as int
}

/// Whether every character of `s` is an ASCII digit.
pub open spec fn all_digits(s: Seq<char>) -> bool {
    forall|i: int| 0 <= i < s.len() ==> is_digit(#[trigger] s[i])
}

/// The number that the digits `s` write (0 for none).
pub open spec fn digits_value(s: Seq<char>) -> int
    decreases s.len(),
{
    if s.len() == 0 {
        0
    } else {
        digits_value(s.drop_last()) * 10 + digit_value(s.last())
    }
}

/// The integer that `str::parse` reads from `s`, before its range is
/// checked: an optional `+` (or, when `signed`, `-`) followed by at least
/// one ASCII digit, and nothing else.
pub open spec fn parsed_integer(s: Seq<char>, signed: bool) -> Option<int> {
    if s.len() == 0 {
        None
    } else if (s[0] == '+' || s[0] == '-') && s.len() == 1 {
        None
    } else if s[0] == '+' {
        if all_digits(s.drop_first()) {
            Some(digits_value(s.drop_first()))
        } else {
            None
        }
    } else if s[0] == '-' && signed {
        if all_digits(s.drop_first()) {
            Some(-digits_value(s.drop_first()))
        } else {
            None
        }
    } else if all_digits(s) {
        Some(digits_value(s))
    } else {
        None
    }
}

/// A prefix of digits writes no more than the whole.
pub proof fn lemma_digits_prefix(s: Seq<char>, k: int)
    requires
        all_digits(s),
        0 <= k <= s.len(),
    ensures
        0 <= digits_value(s.take(k)) <= digits_value(s),
    decreases s.len(),
{
    if s.len() == 0 {
        assert(s.take(k) =~= s);
    } else if k == s.len() {
        assert(s.take(k) =~= s);
        lemma_digits_prefix(s.drop_last(), k - 1);
        assert(s.drop_last().take(k - 1) =~= s.drop_last());
    } else {
        lemma_digits_prefix(s.drop_last(), k);
        assert(s.drop_last().take(k) =~= s.take(k));
        lemma_digits_prefix(s.drop_last(), s.len() - 1);
        assert(s.drop_last().take(s.len() - 1) =~= s.drop_last());
    }
}

/// Reads the digits `v[from..]` as a number no larger than `limit`: `None`
/// when one is not a digit or the number is larger.
fn read_digits(v: &Vec<char>, from: usize, limit: u64) -> (r: Option<u64>)
    requires
        from <= v@.len(),
    ensures
        ({
            let d = v@.subrange(from as int, v@.len() as int);
            &&& all_digits(d) ==> 0 <= digits_value(d)
            &&& r matches Some(n) ==> all_digits(d) && n == digits_value(d) && n <= limit
            &&& r is None ==> !all_digits(d) || digits_value(d) > limit
        }),
{
    let ghost d = v@.subrange(from as int, v@.len() as int);
    proof {
        if all_digits(d) {
            lemma_digits_prefix(d, 0);
            assert(d.take(0) =~= Seq::<char>::empty());
        }
    }
    let mut acc: u64 = 0;
    let mut i: usize = from;
    assert(d.take(0) =~= Seq::<char>::empty());
    while i < v.len()
        invariant
            from <= i <= v@.len(),
            d == v@.subrange(from as int, v@.len() as int),
            all_digits(d.take(i - from)),
            acc == digits_value(d.take(i - from)),
            acc <= limit,
        decreases v@.len() - i,
    {
        let c = v[i];
        let k: usize = i - from;
        proof {
            assert(d.take(k + 1).drop_last() =~= d.take(k as int));
            assert(d.take(k + 1).last() == c);
            assert(d[k as int] == c);
        }
        if !('0' <= c && c <= '9') {
            assert(!all_digits(d));
            return None;
        }
        let dv: u64 = (c as u32 - '0' as u32) as u64;
        let next = match acc.checked_mul(10) {
            Some(m) => m.checked_add(dv),
            None => None,
        };
        match next {
            Some(n) if n <= limit => {
                acc = n;
                proof {
                    assert forall|j: int| 0 <= j < k + 1 implies is_digit(#[trigger] d.take(k + 1)[j]) by {
                        if j < k {
                            assert(d.take(k + 1)[j] == d.take(k as int)[j]);
                        }
                    }
                }
            },
            _ => {
                proof {
                    assert(digits_value(d.take(k + 1)) > limit);
                    if all_digits(d) {
                        lemma_digits_prefix(d, k + 1);
                    }
                }
                return None;
            },
        }
        i = i + 1;
    }
    proof {
        assert(d.take(d.len() as int) =~= d);
    }
    Some(acc)
}

/// `str::parse::<i64>`.
pub fn parse_i64(s: &str) -> (r: Option<i64>)
    ensures
        r == match parsed_integer(s@, true) {
            Some(v) => if i64::MIN <= v <= i64::MAX {
                Some(v as i64)
            } else {
                None
            },
            None => None,
        },
{
    let v = chars_of(s);
    if v.len() == 0 {
        return None;
    }
    if (v[0] == '+' || v[0] == '-') && v.len() == 1 {
        return None;
    }
    proof {
        assert(v@.subrange(1, v@.len() as int) =~= s@.drop_first());
        assert(v@.subrange(0, v@.len() as int) =~= s@);
    }
    if v[0] == '-' {
        match read_digits(&v, 1, 9223372036854775808u64) {
            Some(n) => {
                if n == 9223372036854775808u64 {
                    Some(i64::MIN)
                } else {
                    Some(-(n as i64))
                }
            },
            None => None,
        }
    } else {
        let from: usize = if v[0] == '+' {
            1
        } else {
            0
        };
        match read_digits(&v, from, 9223372036854775807u64) {
            Some(n) => Some(n as i64),
            None => None,
        }
    }
}

/// `str::parse::<u64>`.
pub fn parse_u64(s: &str) -> (r: Option<u64>)
    ensures
        r == match parsed_integer(s@, false) {
            Some(v) => if 0 <= v <= u64::MAX {
                Some(v as u64)
            } else {
                None
            },
            None => None,
        },
{
    let v = chars_of(s);
    if v.len() == 0 {
        return None;
    }
    if (v[0] == '+' || v[0] == '-') && v.len() == 1 {
        return None;
    }
    proof {
        assert(v@.subrange(1, v@.len() as int) =~= s@.drop_first());
        assert(v@.subrange(0, v@.len() as int) =~= s@);
    }
    let from: usize = if v[0] == '+' {
        1
    } else {
        0
    };
    proof {
        if v[0] == '-' {
            assert(!is_digit(s@[0]));
            assert(!all_digits(s@));
        }
    }
    read_digits(&v, from, u64::MAX)
}

/// `str::parse::<u32>`.
pub fn parse_u32(s: &str) -> (r: Option<u32>)
    ensures
        r == match parsed_integer(s@, false) {
            Some(v) => if 0 <= v <= u32::MAX {
                Some(v as u32)
            } else {
                None
            },
            None => None,
        },
{
    let v = chars_of(s);
    if v.len() == 0 {
        return None;
    }
    if (v[0] == '+' || v[0] == '-') && v.len() == 1 {
        return None;
    }
    proof {
        assert(v@.subrange(1, v@.len() as int) =~= s@.drop_first());
        assert(v@.subrange(0, v@.len() as int) =~= s@);
    }
    let from: usize = if v[0] == '+' {
        1
    } else {
        0
    };
    proof {
        if v[0] == '-' {
            assert(!is_digit(s@[0]));
            assert(!all_digits(s@));
        }
    }
    match read_digits(&v, from, 4294967295u64) {
        Some(n) => Some(n as u32),
        None => None,
    }
}

// ---------------------------------------------------------------------------
// Prefixes and suffixes
// ---------------------------------------------------------------------------
/// `s` without the prefix `p`, when it starts with it (`str::strip_prefix`).
pub open spec fn strip_prefix(s: Seq<char>, p: Seq<char>) -> Option<Seq<char>> {
    if p.len() <= s.len() && s.subrange(0, p.len() as int) == p {
        Some(s.subrange(p.len() as int, s.len() as int))
    } else {
        None
    }
}

/// `s` without the suffix `p`, when it ends with it (`str::strip_suffix`).
pub open spec fn strip_suffix(s: Seq<char>, p: Seq<char>) -> Option<Seq<char>> {
    if p.len() <= s.len() && s.subrange(s.len() - p.len(), s.len() as int) == p {
        Some(s.subrange(0, s.len() - p.len()))
    } else {
        None
    }
}

/// `s` without the prefix `p` (see `strip_prefix`).
pub fn strip_prefix_chars(s: &Vec<char>, p: &Vec<char>) -> (r: Option<Vec<char>>)
    ensures
        match r {
            Some(v) => strip_prefix(s@, p@) == Some(v@),
            None => strip_prefix(s@, p@) is None,
        },
{
    if p.len() > s.len() {
        return None;
    }
    if occurs_at_exec(s, p, 0) {
        Some(sub_chars(s, p.len(), s.len()))
    } else {
        None
    }
}

/// `s` without the suffix `p` (see `strip_suffix`).
pub fn strip_suffix_chars(s: &Vec<char>, p: &Vec<char>) -> (r: Option<Vec<char>>)
    ensures
        match r {
            Some(v) => strip_suffix(s@, p@) == Some(v@),
            None => strip_suffix(s@, p@) is None,
        },
{
    if p.len() > s.len() {
        return None;
    }
    if occurs_at_exec(s, p, s.len() - p.len()) {
        Some(sub_chars(s, 0, s.len() - p.len()))
    } else {
        None
    }
}

/// The pieces of `s` between the occurrences of `sep`, as strings.
pub fn split_str(s: &str, sep: &str) -> (r: Vec<String>)
    requires
        sep@.len() > 0,
    ensures
        r@.map_values(|x: String| x@) == split(s@, sep@),
        r@.len() >= 1,
{
    let parts = split_chars(&chars_of(s), &chars_of(sep));
    let ghost target = parts@.map_values(|x: Vec<char>| x@);
    let mut out: Vec<String> = Vec::new();
    let mut i: usize = 0;
    while i < parts.len()
        invariant
            i <= parts@.len(),
            target == parts@.map_values(|x: Vec<char>| x@),
            out@.len() == i,
            out@.map_values(|x: String| x@) == target.subrange(0, i as int),
        decreases parts@.len() - i,
    {
        let ghost before = out@;
        let piece = string_of(&parts[i]);
        out.push(piece);
        proof {
            assert(target[i as int] == parts@[i as int]@);
            let mv = out@.map_values(|x: String| x@);
            let bv = before.map_values(|x: String| x@);
            let want = target.subrange(0, i + 1);
            assert forall|j: int| 0 <= j < i + 1 implies #[trigger] mv[j] == want[j] by {
                if j < i {
                    assert(out@[j] == before[j]);
                    assert(bv[j] == target.subrange(0, i as int)[j]);
                }
            }
            assert(mv =~= want);
        }
        i = i + 1;
    }
    assert(target.subrange(0, parts@.len() as int) =~= target);
    out
}

} // verus!
