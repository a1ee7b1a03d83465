//! The save server: which addresses may be fetched, what the user-id service
//! answers, and the file dates of a directory listing.  The requests
//! themselves are made by the caller.
use vstd::prelude::*;
use crate::maps::NameMap;
use crate::text::{
    chars_of, contains, lemma_removed_char_gone, lemma_split_nonempty, lemma_split_piece_chars, contains_chars, contains_str, push_all, replace_all, replace_str, split,
    split_chars, string_of, trim, trim_chars,
};

verus! {

/// Why fetching from the save server failed.
#[derive(Debug)]
pub enum ConnectionError {
    /// The path is refused (it climbs out with `..`).
    NotAllowedUrl(String),
    /// The request failed; the error's text.
    ReqwestError(String),
    /// Something else went wrong (the server address is not configured).
    UnexpetedOtherError(String),
    /// The login or password is not configured.
    AuthError(String),
    /// The server answered with an error for this address.
    StatusCodeError(String, String),
}

/// The refusal text of a path with `..`.
pub open spec fn dots_refusal() -> Seq<char> {
    "\"..\" in path are not allowed"@
}

/// The address of `url` on the server at `base`: joined with `/`, every
/// `//` made `/`, and every space written `%C2%A0`.
pub open spec fn server_address(base: Seq<char>, url: Seq<char>) -> Seq<char> {
    replace_all(replace_all(base + "/"@ + url, "//"@, "/"@), " "@, "%C2%A0"@)
}

/// The address to fetch for `url` on the server at `base`, or the refusal
/// of a path that holds `..`.
pub fn validate_url(base: &str, url: &str) -> (r: Result<String, ConnectionError>)
    ensures
        contains(url@, ".."@) ==> (r matches Err(ConnectionError::NotAllowedUrl(m)) && m@ == dots_refusal()),
        !contains(url@, ".."@) ==> (r matches Ok(a) && a@ == server_address(base@, url@)),
{
    proof {
        reveal_strlit("..");
        reveal_strlit("//");
        reveal_strlit("/");
        reveal_strlit(" ");
        reveal_strlit("%C2%A0");
    }
    if contains_str(url, "..") {
        let m = string_of(&chars_of("\"..\" in path are not allowed"));
        return Err(ConnectionError::NotAllowedUrl(m));
    }
    let mut joined = chars_of(base);
    joined.push('/');
    let u = chars_of(url);
    push_all(&mut joined, &u);
    let j = string_of(&joined);
    assert(j@ =~= base@ + "/"@ + url@);
    let a = replace_str(j.as_str(), "//", "/");
    Ok(replace_str(a.as_str(), " ", "%C2%A0"))
}

/// `temp/` and the last piece of `url` after its last `/`: where a fetched
/// file is kept.
pub open spec fn temp_path(url: Seq<char>) -> Seq<char> {
    "temp/"@ + split(url, "/"@).last()
}

/// Where the file fetched from `url` is kept (see `temp_path`).
pub fn temp_file_path(url: &str) -> (r: String)
    ensures
        r@ == temp_path(url@),
{
    proof {
        reveal_strlit("/");
        reveal_strlit("temp/");
    }
    let pieces = split_chars(&chars_of(url), &chars_of("/"));
    let last = pieces.len() - 1;
    let mut out = chars_of("temp/");
    push_all(&mut out, &pieces[last]);
    proof {
        assert(pieces@.map_values(|x: Vec<char>| x@)[last as int] == pieces@[last as int]@);
    }
    string_of(&out)
}

// ---------------------------------------------------------------------------
// The user-id service
// ---------------------------------------------------------------------------
/// The request for the user id of `name` at the service `api`.
pub open spec fn user_id_request(api: Seq<char>, name: Seq<char>) -> Seq<char> {
    api + "name="@ + name
}

/// The answer when no user id is found.
pub open spec fn not_found() -> Seq<char> {
    "Not Found"@
}

/// The value of the first of `pieces` that mentions `userId`: what follows
/// its last `:`.
pub open spec fn first_user_id(pieces: Seq<Seq<char>>) -> Option<Seq<char>>
    decreases pieces.len(),
{
    if pieces.len() == 0 {
        None
    } else if contains(pieces[0], "userId"@) {
        Some(split(pieces[0], ":"@).last())
    } else {
        first_user_id(pieces.drop_first())
    }
}

/// The user id in the service's answer `body`: its braces and quotes are
/// dropped, it is cut at commas, and the first piece that mentions
/// `userId` gives what follows its last `:`; "Not Found" when none does.
pub open spec fn user_id_in(body: Seq<char>) -> Seq<char> {
    let data = replace_all(replace_all(replace_all(body, "{"@, Seq::empty()), "}"@, Seq::empty()), "\""@, Seq::empty());
    match first_user_id(split(data, ","@)) {
        Some(id) => id,
        None => not_found(),
    }
}

/// The first user id of `pieces` holds no `c` when no piece does.
proof fn lemma_user_id_avoids(pieces: Seq<Seq<char>>, c: char)
    requires
        forall|j: int| 0 <= j < pieces.len() ==> !(#[trigger] pieces[j]).contains(c),
    ensures
        first_user_id(pieces) matches Some(id) ==> !id.contains(c),
    decreases pieces.len(),
{
    if pieces.len() > 0 {
        if contains(pieces[0], "userId"@) {
            let parts = split(pieces[0], ":"@);
            lemma_split_nonempty(pieces[0], ":"@);
            if parts.last().contains(c) {
                lemma_split_piece_chars(pieces[0], ":"@, parts.len() - 1, c);
            }
        } else {
            assert forall|j: int| 0 <= j < pieces.drop_first().len() implies !(
            #[trigger] pieces.drop_first()[j]).contains(c) by {
                assert(pieces.drop_first()[j] == pieces[j + 1]);
            }
            lemma_user_id_avoids(pieces.drop_first(), c);
        }
    }
}

/// Whatever the service answers, the user id read from it holds no quote
/// and no brace: the JSON marks are stripped before the id is cut out.
pub proof fn law_user_id_has_no_json_marks(body: Seq<char>)
    ensures
        !user_id_in(body).contains('"'),
        !user_id_in(body).contains('{'),
        !user_id_in(body).contains('}'),
{
    reveal_strlit("{");
    reveal_strlit("}");
    reveal_strlit("\"");
    reveal_strlit("Not Found");
    assert("{"@ =~= seq!['{']);
    assert("}"@ =~= seq!['}']);
    assert("\""@ =~= seq!['"']);
    let d1 = replace_all(body, "{"@, Seq::empty());
    let d2 = replace_all(d1, "}"@, Seq::empty());
    let data = replace_all(d2, "\""@, Seq::empty());
    assert forall|x: char| data.contains(x) implies x != '"' && x != '{' && x != '}' by {
        lemma_removed_char_gone(d2, '"', x);
        lemma_removed_char_gone(d1, '}', x);
        lemma_removed_char_gone(body, '{', x);
    }
    let pieces = split(data, ","@);
    assert forall|j: int| 0 <= j < pieces.len() implies !(#[trigger] pieces[j]).contains('"')
        && !pieces[j].contains('{') && !pieces[j].contains('}') by {
        if pieces[j].contains('"') {
            lemma_split_piece_chars(data, ","@, j, '"');
        }
        if pieces[j].contains('{') {
            lemma_split_piece_chars(data, ","@, j, '{');
        }
        if pieces[j].contains('}') {
            lemma_split_piece_chars(data, ","@, j, '}');
        }
    }
    lemma_user_id_avoids(pieces, '"');
    lemma_user_id_avoids(pieces, '{');
    lemma_user_id_avoids(pieces, '}');
    let nf = not_found();
    assert(nf.len() == 9);
    assert forall|w: int| 0 <= w < nf.len() implies #[trigger] nf[w] != '"' && nf[w] != '{' && nf[w] != '}' by {}
}

/// The request to send for the user id of `name` (see `user_id_request`).
pub fn user_id_url(api: &str, name: &str) -> (r: String)
    ensures
        r@ == user_id_request(api@, name@),
{
    let mut out = chars_of(api);
    push_all(&mut out, &chars_of("name="));
    push_all(&mut out, &chars_of(name));
    string_of(&out)
}

/// The user id in the service's answer (see `user_id_in`).
pub fn get_user_id(body: &str) -> (r: String)
    ensures
        r@ == user_id_in(body@),
{
    proof {
        reveal_strlit("{");
        reveal_strlit("}");
        reveal_strlit("\"");
        reveal_strlit("");
        reveal_strlit(",");
        reveal_strlit(":");
        reveal_strlit("userId");
        reveal_strlit("Not Found");
        assert(""@ =~= Seq::<char>::empty());
    }
    let a = replace_str(body, "{", "");
    let b = replace_str(a.as_str(), "}", "");
    let data = replace_str(b.as_str(), "\"", "");
    assert(data@ == replace_all(
        replace_all(replace_all(body@, "{"@, Seq::empty()), "}"@, Seq::empty()),
        "\""@,
        Seq::empty(),
    ));
    let pieces = split_chars(&chars_of(data.as_str()), &chars_of(","));
    let key = chars_of("userId");
    let colon = chars_of(":");
    let ghost all = pieces@.map_values(|x: Vec<char>| x@);
    assert(all.subrange(0, all.len() as int) =~= all);
    let mut i: usize = 0;
    while i < pieces.len()
        invariant
            i <= pieces@.len(),
            all == pieces@.map_values(|x: Vec<char>| x@),
            all == split(data@, ","@),
            data@ == replace_all(
                replace_all(replace_all(body@, "{"@, Seq::empty()), "}"@, Seq::empty()),
                "\""@,
                Seq::empty(),
            ),
            key@ == "userId"@,
            colon@ == ":"@,
            colon@.len() == 1,
            first_user_id(all) == first_user_id(all.subrange(i as int, all.len() as int)),
        decreases pieces@.len() - i,
    {
        proof {
            let rest = all.subrange(i as int, all.len() as int);
            assert(rest[0] == pieces@[i as int]@);
            assert(rest.drop_first() =~= all.subrange(i + 1, all.len() as int));
        }
        if contains_chars(&pieces[i], &key) {
            let parts = split_chars(&pieces[i], &colon);
            let last = parts.len() - 1;
            proof {
                let pv = parts@.map_values(|x: Vec<char>| x@);
                assert(pv[last as int] == parts@[last as int]@);
                assert(pv.last() == pv[last as int]);
                let rest = all.subrange(i as int, all.len() as int);
                assert(rest[0] == all[i as int]);
                assert(all[i as int] == pieces@[i as int]@);
                assert(contains(rest[0], "userId"@));
                assert(pv == split(rest[0], ":"@));
                assert(first_user_id(rest) == Some(pv.last()));
                assert(first_user_id(split(data@, ","@)) == Some(pv.last()));
            }
            return string_of(&parts[last]);
        }
        i = i + 1;
    }
    string_of(&chars_of("Not Found"))
}

// ---------------------------------------------------------------------------
// Directory listings
// ---------------------------------------------------------------------------
/// What `scraper` finds in the HTML document `html`: for each `<a>`
/// element, in document order, its first piece of text and the text of the
/// node right after it, when that node is text.
pub uninterp spec fn html_links(html: Seq<char>) -> Seq<(Option<Seq<char>>, Option<Seq<char>>)>;

/// The views of a list of link texts.
pub open spec fn links_view(links: Seq<(Option<String>, Option<String>)>) -> Seq<(Option<Seq<char>>, Option<Seq<char>>)> {
    links.map_values(
        |l: (Option<String>, Option<String>)|
            (
                match l.0 {
                    Some(s) => Some(s@),
                    None => None,
                },
                match l.1 {
                    Some(s) => Some(s@),
                    None => None,
                },
            ),
    )
}

/// `scraper::Html::parse_document`, then `select` with the selector `a`:
/// for each link, `text().next()` and `next_sibling()` read `as_text`.
#[verifier::external_body]
fn scrape_links(html: &str) -> (r: Vec<(Option<String>, Option<String>)>)
    ensures
        links_view(r@) == html_links(html@),
{
    let document = scraper::Html::parse_document(html);
    let selector = scraper::Selector::parse("a").unwrap();
    let mut out = Vec::new();
    for element in document.select(&selector) {
        let text = element.text().next().map(|t| t.to_string());
        let sibling = element.next_sibling().and_then(|n| n.value().as_text()).map(|t| t.to_string());
        out.push((text, sibling));
    }
    out
}

/// The date written after a link: the trimmed text up to its first double
/// space.
pub open spec fn date_part(sibling: Seq<char>) -> Seq<char> {
    split(trim(sibling), "  "@)[0]
}

/// The file dates of a listing with `links`: each link that has a text and
/// is followed by text maps the former to the date in the latter; a later
/// link of the same name wins.
pub open spec fn dates_of(links: Seq<(Option<Seq<char>>, Option<Seq<char>>)>) -> Map<Seq<char>, Seq<char>>
    decreases links.len(),
{
    if links.len() == 0 {
        Map::empty()
    } else {
        let before = dates_of(links.drop_last());
        match links.last() {
            (Some(name), Some(sibling)) => before.insert(name, date_part(sibling)),
            _ => before,
        }
    }
}

/// The file dates of a listing whose links are `links` (see `dates_of`).
pub fn dates_from_links(links: &Vec<(Option<String>, Option<String>)>) -> (r: NameMap<String>)
    ensures
        r@.dom() == dates_of(links_view(links@)).dom(),
        forall|k: Seq<char>| #[trigger] r@.dom().contains(k) ==> r@[k]@ == dates_of(links_view(links@))[k],
{
    proof {
        reveal_strlit("  ");
    }
    let sep = chars_of("  ");
    let mut out: NameMap<String> = NameMap::new();
    let ghost all = links_view(links@);
    let mut i: usize = 0;
    while i < links.len()
        invariant
            i <= links@.len(),
            all == links_view(links@),
            sep@ == "  "@,
            sep@.len() == 2,
            out@.dom() == dates_of(all.subrange(0, i as int)).dom(),
            forall|k: Seq<char>| #[trigger] out@.dom().contains(k) ==> out@[k]@ == dates_of(all.subrange(0, i as int))[k],
        decreases links@.len() - i,
    {
        proof {
            assert(all.subrange(0, i + 1).drop_last() =~= all.subrange(0, i as int));
            assert(all.subrange(0, i + 1).last() == all[i as int]);
        }
        match &links[i] {
            (Some(name), Some(sibling)) => {
                let t = trim_chars(&chars_of(sibling.as_str()));
                let parts = split_chars(&t, &sep);
                proof {
                    assert(parts@.map_values(|x: Vec<char>| x@)[0] == parts@[0]@);
                }
                let date = string_of(&parts[0]);
                out.insert(name.clone(), date);
            },
            _ => {},
        }
        i = i + 1;
    }
    proof {
        assert(all.subrange(0, links@.len() as int) =~= all);
    }
    out
}

/// The file dates of the directory listing `html` (see `dates_of` and
/// `html_links`).
pub fn file_dates(html: &str) -> (r: NameMap<String>)
    ensures
        r@.dom() == dates_of(html_links(html@)).dom(),
        forall|k: Seq<char>| #[trigger] r@.dom().contains(k) ==> r@[k]@ == dates_of(html_links(html@))[k],
{
    let links = scrape_links(html);
    dates_from_links(&links)
}

} // verus!
