use vstd::prelude::*;
use crate::chars::{chars_of, contains_chars, contains_seq, same_chars, string_of};
use crate::markdown::append;
use crate::project::Project;
use crate::textops::{trim, trimmed};

verus! {

/// The read-only MCP server that answers questions about the catalog.
#[derive(Clone, Copy, Debug, PartialEq, Eq, Structural)]
pub struct DevHubMcp;

/// The `Authorization` header value that admits a request to a server with
/// `token`.
pub open spec fn bearer_header(token: Seq<char>) -> Seq<char> {
    "Bearer "@ + token
}

/// Whether a request with this `Authorization` header is admitted: exactly
/// when the header is "Bearer " followed by the token.
pub open spec fn admits(token: Seq<char>, header: Option<Seq<char>>) -> bool {
    header == Some(bearer_header(token))
}

/// The message for a refused empty token.
pub open spec fn empty_token_message() -> Seq<char> {
    "the MCP server requires a non-empty bearer token"@
}

impl DevHubMcp {
    /// The token an HTTP server is started with: an empty token is refused,
    /// since the server always requires one.
    pub fn validate_auth_token(token: String) -> (checked: Result<String, String>)
        ensures
            match checked {
                Ok(t) => token@.len() > 0 && t@ == token@,
                Err(e) => token@.len() == 0 && e@ == empty_token_message(),
            },
    {
        let chars = chars_of(token.as_str());
        if chars.len() == 0 {
            Err(string_of(&chars_of("the MCP server requires a non-empty bearer token")))
        } else {
            Ok(token)
        }
    }

    /// Whether a request with this `Authorization` header is admitted (see
    /// `admits`).
    pub fn is_authorized(token: &str, header: Option<&str>) -> (admitted: bool)
        ensures
            admitted == admits(
                token@,
                match header {
                    Some(h) => Some(h@),
                    None => None,
                },
            ),
    {
        match header {
            Some(h) => {
                let mut expected = chars_of("Bearer ");
                append(&mut expected, &chars_of(token));
                same_chars(&chars_of(h), &expected)
            },
            None => false,
        }
    }

    /// The tree listing's depth and whether hidden entries show: 2 and no
    /// unless the request says otherwise.
    pub fn tree_options(max_depth: Option<usize>, show_hidden: Option<bool>) -> (options: (usize, bool))
        ensures
            options == (
                match max_depth {
                    Some(d) => d,
                    None => 2,
                },
                match show_hidden {
                    Some(h) => h,
                    None => false,
                },
            ),
    {
        (
            match max_depth {
                Some(d) => d,
                None => 2,
            },
            match show_hidden {
                Some(h) => h,
                None => false,
            },
        )
    }

    /// The first line and the number of lines a file read returns: from line
    /// 1 and 400 lines unless the request says otherwise.
    pub fn read_range(start_line: Option<usize>, max_lines: Option<usize>) -> (range: (usize, usize))
        ensures
            range == (
                match start_line {
                    Some(s) => s,
                    None => 1,
                },
                match max_lines {
                    Some(n) => n,
                    None => 400,
                },
            ),
    {
        (
            match start_line {
                Some(s) => s,
                None => 1,
            },
            match max_lines {
                Some(n) => n,
                None => 400,
            },
        )
    }

    /// The most matches a content search returns: 50 unless the request says
    /// otherwise.
    pub fn search_limit(max_hits: Option<usize>) -> (limit: usize)
        ensures
            limit == match max_hits {
                Some(n) => n,
                None => 50,
            },
    {
        match max_hits {
            Some(n) => n,
            None => 50,
        }
    }

    /// The most characters a diff returns: 60000 unless the request says
    /// otherwise.
    pub fn diff_limit(max_chars: Option<usize>) -> (limit: usize)
        ensures
            limit == match max_chars {
                Some(n) => n,
                None => 60000,
            },
    {
        match max_chars {
            Some(n) => n,
            None => 60000,
        }
    }

    /// The commits a log page skips and shows: none skipped and 15 shown
    /// unless the request says otherwise.
    pub fn log_page(skip: Option<usize>, count: Option<usize>) -> (page: (usize, usize))
        ensures
            page == (
                match skip {
                    Some(s) => s,
                    None => 0,
                },
                match count {
                    Some(c) => c,
                    None => 15,
                },
            ),
    {
        (
            match skip {
                Some(s) => s,
                None => 0,
            },
            match count {
                Some(c) => c,
                None => 15,
            },
        )
    }
}

/// An empty bearer token is refused; with a token, a request without an
/// `Authorization` header, or with an empty bearer, is never admitted, and
/// the one header admitted is "Bearer " and the token.
pub proof fn law_server_always_requires_the_token(token: Seq<char>, header: Option<Seq<char>>)
    requires
        token.len() > 0,
    ensures
        !admits(token, None),
        !admits(token, Some("Bearer "@)),
        !admits(token, Some(Seq::empty())),
        admits(token, header) <==> header == Some("Bearer "@ + token),
{
    assert(("Bearer "@ + token).len() > "Bearer "@.len());
}

/// A tool that names a project needs one.
pub fn expect_project(project: Option<&Project>) -> (found: Result<&Project, String>)
    ensures
        match project {
            Some(p) => found == Ok::<&Project, String>(p),
            None => found matches Err(e) && e@ == "missing project"@,
        },
{
    match project {
        Some(p) => Ok(p),
        None => Err(string_of(&chars_of("missing project"))),
    }
}

/// The lower-case form of a text, as `str::to_lowercase` gives it.
pub uninterp spec fn lowercase_of(s: Seq<char>) -> Seq<char>;

/// `str::to_lowercase`: the text with every character in its Unicode
/// lower-case form.
#[verifier::external_body]
pub(crate) fn lowercase(s: &str) -> (lower: String)
    ensures
        lower@ == lowercase_of(s@),
{
    s.to_lowercase()
}

/// The keys of the first five catalog entries, given as (name, key), whose
/// lower-cased name contains the trimmed, lower-cased query.
pub open spec fn suggestions_from(entries: Seq<(Seq<char>, Seq<char>)>, query: Seq<char>) -> Seq<Seq<char>>
    decreases entries.len(),
{
    if entries.len() == 0 {
        Seq::empty()
    } else {
        let earlier = suggestions_from(entries.drop_last(), query);
        if earlier.len() < 5 && contains_seq(lowercase_of(entries.last().0), lowercase_of(trim(query))) {
            earlier.push(entries.last().1)
        } else {
            earlier
        }
    }
}

pub open spec fn entries_view(entries: Seq<(String, String)>) -> Seq<(Seq<char>, Seq<char>)> {
    entries.map_values(|e: (String, String)| (e.0@, e.1@))
}

/// The project keys to suggest for a query that matches no project (see
/// `suggestions_from`).
pub fn project_suggestions(entries: &Vec<(String, String)>, query: &str) -> (keys: Vec<String>)
    ensures
        keys@.map_values(|k: String| k@) == suggestions_from(entries_view(entries@), query@),
{
    let ghost ev = entries_view(entries@);
    let wanted = chars_of(lowercase(string_of(&trimmed(&chars_of(query))).as_str()).as_str());
    let mut keys: Vec<String> = Vec::new();
    let mut i: usize = 0;
    assert(ev.subrange(0, 0) =~= Seq::<(Seq<char>, Seq<char>)>::empty());
    while i < entries.len()
        invariant
            ev == entries_view(entries@),
            wanted@ == lowercase_of(trim(query@)),
            i <= entries@.len(),
            keys@.map_values(|k: String| k@) == suggestions_from(ev.subrange(0, i as int), query@),
        decreases entries@.len() - i,
    {
        let ghost before = keys@.map_values(|k: String| k@);
        proof {
            let next = ev.subrange(0, i + 1);
            assert(next.drop_last() =~= ev.subrange(0, i as int));
            assert(next.last() == (entries@[i as int].0@, entries@[i as int].1@));
        }
        if keys.len() < 5 {
            let name = chars_of(lowercase(entries[i].0.as_str()).as_str());
            if contains_chars(&name, &wanted) {
                let key = entries[i].1.clone();
                keys.push(key);
                assert(keys@.map_values(|k: String| k@) =~= before.push(entries@[i as int].1@));
            }
        }
        i = i + 1;
    }
    assert(ev.subrange(0, ev.len() as int) =~= ev);
    keys
}

/// The suggestions joined by ", ".
pub open spec fn joined_list(items: Seq<Seq<char>>) -> Seq<char>
    decreases items.len(),
{
    if items.len() == 0 {
        Seq::empty()
    } else if items.len() == 1 {
        items[0]
    } else {
        joined_list(items.drop_last()) + ", "@ + items.last()
    }
}

/// The error for a query that resolves to no single project: with
/// suggestions, they are offered; without, the caller is sent to the
/// catalog.
pub open spec fn unmatched_project_text(query: Seq<char>, suggestions: Seq<Seq<char>>) -> Seq<char> {
    if suggestions.len() == 0 {
        "no project matches '"@ + query + "'; call list_projects to see the catalog"@
    } else {
        "no unique project matches '"@ + query + "'; did you mean: "@ + joined_list(suggestions) + "?"@
    }
}

/// The error for a query that resolves to no single project (see
/// `unmatched_project_text`).
pub fn unmatched_project_message(query: &str, suggestions: &Vec<String>) -> (message: String)
    ensures
        message@ == unmatched_project_text(query@, suggestions@.map_values(|s: String| s@)),
{
    let ghost sv = suggestions@.map_values(|s: String| s@);
    if suggestions.len() == 0 {
        let mut out = chars_of("no project matches '");
        append(&mut out, &chars_of(query));
        append(&mut out, &chars_of("'; call list_projects to see the catalog"));
        return string_of(&out);
    }
    let mut list: Vec<char> = Vec::new();
    let mut i: usize = 0;
    assert(sv.subrange(0, 0) =~= Seq::<Seq<char>>::empty());
    while i < suggestions.len()
        invariant
            sv == suggestions@.map_values(|s: String| s@),
            i <= sv.len(),
            list@ == joined_list(sv.subrange(0, i as int)),
        decreases sv.len() - i,
    {
        let ghost next = sv.subrange(0, i + 1);
        assert(next.drop_last() =~= sv.subrange(0, i as int));
        assert(next.last() == suggestions@[i as int]@);
        if i > 0 {
            append(&mut list, &chars_of(", "));
        }
        append(&mut list, &chars_of(suggestions[i].as_str()));
        proof {
            if i == 0 {
                assert(list@ =~= next[0]);
            }
        }
        i = i + 1;
    }
    assert(sv.subrange(0, sv.len() as int) =~= sv);
    let mut out = chars_of("no unique project matches '");
    append(&mut out, &chars_of(query));
    append(&mut out, &chars_of("'; did you mean: "));
    append(&mut out, &list);
    append(&mut out, &chars_of("?"));
    string_of(&out)
}

} // verus!
