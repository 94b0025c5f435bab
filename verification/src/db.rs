use vstd::prelude::*;
use crate::text::{append_chars, append_str, chars_eq, chars_of, is_prefix, push_char, split_chars, split_seq, starts_with_chars, string_of, string_of_range, trim_chars, trim_seq};
use crate::weburl::{parse_url, parsed_url, url_parts_model, UrlParts};
use crate::models::{BookmarkPayload, FolderPayload, IdsPayload, MoveBookmarksPayload, RenameFolderPayload, ReorderBookmarksPayload};

verus! {

broadcast use vstd::string::group_string_axioms;

/// The separator between the levels of a folder path.
pub open spec fn path_sep() -> Seq<char> {
    seq![' ', '/', ' ']
}

/// The character views of a sequence of strings.
pub open spec fn strings_model(v: Seq<String>) -> Seq<Seq<char>> {
    v.map_values(|s: String| s@)
}

/// The trimmed pieces of `pieces` that are not empty, in order.
pub open spec fn clean_parts(pieces: Seq<Seq<char>>) -> Seq<Seq<char>>
    decreases pieces.len(),
{
    if pieces.len() == 0 {
        seq![]
    } else {
        let rest = clean_parts(pieces.drop_last());
        let t = trim_seq(pieces.last());
        if t.len() == 0 {
            rest
        } else {
            rest.push(t)
        }
    }
}

/// The levels of a folder path: the pieces between `/` characters, trimmed, without the
/// empty ones.
pub open spec fn folder_parts(folder: Seq<char>) -> Seq<Seq<char>> {
    clean_parts(split_seq(folder, '/'))
}

/// The parts joined with `sep` between each two.
pub open spec fn join_spec(parts: Seq<Seq<char>>, sep: Seq<char>) -> Seq<char>
    decreases parts.len(),
{
    if parts.len() == 0 {
        seq![]
    } else if parts.len() == 1 {
        parts[0]
    } else {
        join_spec(parts.drop_last(), sep) + sep + parts.last()
    }
}

/// The canonical form of a folder path: its levels joined by ` / `.
pub open spec fn normalized_folder(folder: Seq<char>) -> Seq<char> {
    join_spec(folder_parts(folder), path_sep())
}

/// Pushing a string pushes its characters onto the model.
pub proof fn lemma_strings_model_push(v: Seq<String>, s: String)
    ensures
        strings_model(v.push(s)) == strings_model(v).push(s@),
{
    assert(strings_model(v.push(s)) =~= strings_model(v).push(s@));
}

/// Trims every string and keeps the non-empty ones (see `clean_parts`).
pub fn clean_piece_list(pieces: &Vec<Vec<char>>) -> (r: Vec<String>)
    ensures
        strings_model(r@) == clean_parts(pieces@.map_values(|p: Vec<char>| p@)),
{
    let ghost pm = pieces@.map_values(|p: Vec<char>| p@);
    let mut out: Vec<String> = Vec::new();
    let mut i: usize = 0;
    while i < pieces.len()
        invariant
            i <= pieces@.len(),
            pm == pieces@.map_values(|p: Vec<char>| p@),
            strings_model(out@) == clean_parts(pm.take(i as int)),
        decreases pieces.len() - i,
    {
        let t = trim_chars(&pieces[i]);
        proof {
            assert(pm.take(i + 1).drop_last() =~= pm.take(i as int));
            assert(pm.take(i + 1).last() == pieces@[i as int]@);
        }
        if t.len() > 0 {
            let st = string_of(&t);
            proof {
                lemma_strings_model_push(out@, st);
            }
            out.push(st);
        }
        i += 1;
    }
    proof {
        assert(pm.take(pieces@.len() as int) =~= pm);
    }
    out
}

/// The levels of a folder path (see `folder_parts`).
pub fn split_folder_path(folder: &str) -> (r: Vec<String>)
    ensures
        strings_model(r@) == folder_parts(folder@),
{
    let v = chars_of(folder);
    let pieces = split_chars(&v, '/');
    proof {
        assert(pieces@.map_values(|p: Vec<char>| p@) =~= split_seq(v@, '/'));
    }
    clean_piece_list(&pieces)
}

/// Joins strings with `sep` between each two.
pub fn join_strings(parts: &Vec<String>, sep: &str) -> (r: String)
    ensures
        r@ == join_spec(strings_model(parts@), sep@),
{
    let ghost pm = strings_model(parts@);
    let mut out = String::new();
    let mut i: usize = 0;
    while i < parts.len()
        invariant
            i <= parts@.len(),
            pm == strings_model(parts@),
            out@ == join_spec(pm.take(i as int), sep@),
        decreases parts.len() - i,
    {
        proof {
            assert(pm.take(i + 1).drop_last() =~= pm.take(i as int));
            assert(pm.take(i + 1).last() == parts@[i as int]@);
        }
        if i > 0 {
            append_str(&mut out, sep);
        } else {
            proof {
                assert(out@ =~= Seq::<char>::empty());
            }
        }
        append_str(&mut out, parts[i].as_str());
        i += 1;
    }
    proof {
        assert(pm.take(parts@.len() as int) =~= pm);
    }
    out
}

/// The canonical form of a folder path (see `normalized_folder`).
pub fn normalize_folder_path(folder: &str) -> (r: String)
    ensures
        r@ == normalized_folder(folder@),
{
    let parts = split_folder_path(folder);
    let r = join_strings(&parts, " / ");
    proof {
        reveal_strlit(" / ");
        assert(" / "@ =~= path_sep());
    }
    r
}

/// `parent / name`, or whichever of the two is not empty.
pub open spec fn join_folder_spec(parent: Seq<char>, name: Seq<char>) -> Seq<char> {
    if parent.len() == 0 {
        name
    } else if name.len() == 0 {
        parent
    } else {
        parent + path_sep() + name
    }
}

/// Joins a parent folder path and a child name.
pub fn join_folder_path(parent: &str, name: &str) -> (r: String)
    ensures
        r@ == join_folder_spec(parent@, name@),
{
    let mut out = String::new();
    if parent.is_empty() {
        append_str(&mut out, name);
    } else if name.is_empty() {
        append_str(&mut out, parent);
    } else {
        append_str(&mut out, parent);
        append_str(&mut out, " / ");
        append_str(&mut out, name);
        proof {
            reveal_strlit(" / ");
        }
    }
    proof {
        assert(out@ =~= join_folder_spec(parent@, name@));
    }
    out
}

/// The prefix that paths strictly inside `folder` start with.
pub open spec fn child_prefix_spec(folder: Seq<char>) -> Seq<char> {
    folder + path_sep()
}

/// `folder / `, the prefix of the paths strictly inside `folder`.
pub fn folder_child_prefix(folder: &str) -> (r: String)
    ensures
        r@ == child_prefix_spec(folder@),
{
    let mut out = String::new();
    append_str(&mut out, folder);
    append_str(&mut out, " / ");
    proof {
        reveal_strlit(" / ");
        assert(out@ =~= child_prefix_spec(folder@));
    }
    out
}

/// The SQL `LIKE` pattern for the paths strictly inside `folder`.
pub fn folder_like_pattern(folder: &str) -> (r: String)
    ensures
        r@ == child_prefix_spec(folder@).push('%'),
{
    let mut out = folder_child_prefix(folder);
    push_char(&mut out, '%');
    out
}

/// `path` with the folder `old_prefix` (and everything inside it) renamed to
/// `new_prefix`; other paths are kept.
pub open spec fn replace_path_spec(path: Seq<char>, old_prefix: Seq<char>, new_prefix: Seq<char>) -> Seq<char> {
    if path == old_prefix {
        new_prefix
    } else if is_prefix(child_prefix_spec(old_prefix), path) {
        join_folder_spec(new_prefix, path.skip(child_prefix_spec(old_prefix).len() as int))
    } else {
        path
    }
}

/// Renames the folder `old_prefix` to `new_prefix` inside `folder_path`.
pub fn replace_folder_path(folder_path: &str, old_prefix: &str, new_prefix: &str) -> (r: String)
    ensures
        r@ == replace_path_spec(folder_path@, old_prefix@, new_prefix@),
{
    let path = chars_of(folder_path);
    let old = chars_of(old_prefix);
    if chars_eq(&path, &old) {
        return string_of(&chars_of(new_prefix));
    }
    let prefix = chars_of(folder_child_prefix(old_prefix).as_str());
    if starts_with_chars(&path, &prefix) {
        let suffix = string_of_range(&path, prefix.len(), path.len());
        return join_folder_path(new_prefix, suffix.as_str());
    }
    string_of(&path)
}

/// Where `path` goes when the folder `folder` is dissolved into `parent`: `None` for
/// paths outside `folder`.
pub open spec fn move_up_spec(path: Seq<char>, folder: Seq<char>, parent: Seq<char>) -> Option<Seq<char>> {
    if path == folder {
        Some(parent)
    } else if is_prefix(child_prefix_spec(folder), path) {
        Some(join_folder_spec(parent, path.skip(child_prefix_spec(folder).len() as int)))
    } else {
        None
    }
}

/// The new path of `folder_path` when `folder` is dissolved into `parent_folder`.
pub fn move_folder_path_up(folder_path: &str, folder: &str, parent_folder: &str) -> (r: Option<String>)
    ensures
        match move_up_spec(folder_path@, folder@, parent_folder@) {
            None => r is None,
            Some(p) => r matches Some(x) && x@ == p,
        },
{
    let path = chars_of(folder_path);
    let f = chars_of(folder);
    if chars_eq(&path, &f) {
        return Some(string_of(&chars_of(parent_folder)));
    }
    let prefix = chars_of(folder_child_prefix(folder).as_str());
    if starts_with_chars(&path, &prefix) {
        let suffix = string_of_range(&path, prefix.len(), path.len());
        return Some(join_folder_path(parent_folder, suffix.as_str()));
    }
    None
}

/// `parent / rest` written out: the two joined by ` / `, or whichever is not empty.
pub open spec fn under_parent(parent: Seq<char>, rest: Seq<char>) -> Seq<char> {
    if parent.len() == 0 {
        rest
    } else if rest.len() == 0 {
        parent
    } else {
        parent + seq![' ', '/', ' '] + rest
    }
}

/// Dissolving a folder into its parent keeps everything below it: the folder itself
/// becomes the parent, and a path `folder / rest` inside it (however many levels `rest`
/// has) becomes `parent / rest`. Renaming a folder keeps everything below it the same
/// way: `folder / rest` becomes `new_folder / rest`.
pub proof fn lemma_moved_paths_keep_their_rest(folder: Seq<char>, parent: Seq<char>, rest: Seq<char>)
    ensures
        move_up_spec(folder, folder, parent) == Some(parent),
        move_up_spec(folder + seq![' ', '/', ' '] + rest, folder, parent) == Some(under_parent(parent, rest)),
        replace_path_spec(folder, folder, parent) == parent,
        replace_path_spec(folder + seq![' ', '/', ' '] + rest, folder, parent) == under_parent(parent, rest),
{
    let p = folder + seq![' ', '/', ' '] + rest;
    let pre = child_prefix_spec(folder);
    assert(pre =~= folder + seq![' ', '/', ' ']);
    assert(p.len() > folder.len());
    assert(p != folder);
    assert(p.take(pre.len() as int) =~= pre);
    assert(p.skip(pre.len() as int) =~= rest);
}

/// A path neither equal to `folder` nor starting with `folder / ` is outside the folder:
/// dissolving the folder does not touch it, and renaming the folder leaves it as it is.
pub proof fn lemma_paths_outside_folder_untouched(path: Seq<char>, folder: Seq<char>, parent: Seq<char>)
    requires
        path != folder,
        !(path.len() >= folder.len() + 3 && path.take(folder.len() + 3int) == folder + seq![' ', '/', ' ']),
    ensures
        move_up_spec(path, folder, parent) is None,
        replace_path_spec(path, folder, parent) == path,
{
    assert(child_prefix_spec(folder) =~= folder + seq![' ', '/', ' ']);
}

/// Trims every ID and drops the empty ones.
pub fn clean_ids(ids: Vec<String>) -> (r: Vec<String>)
    ensures
        strings_model(r@) == clean_parts(strings_model(ids@)),
{
    let mut pieces: Vec<Vec<char>> = Vec::new();
    let mut i: usize = 0;
    while i < ids.len()
        invariant
            i <= ids@.len(),
            pieces@.map_values(|p: Vec<char>| p@) == strings_model(ids@).take(i as int),
        decreases ids.len() - i,
    {
        let c = chars_of(ids[i].as_str());
        proof {
            let ghost before = pieces@.map_values(|p: Vec<char>| p@);
            assert(pieces@.push(c).map_values(|p: Vec<char>| p@) =~= before.push(c@));
            assert(strings_model(ids@).take(i + 1) =~= strings_model(ids@).take(i as int).push(ids@[i as int]@));
        }
        pieces.push(c);
        i += 1;
    }
    proof {
        assert(strings_model(ids@).take(ids@.len() as int) =~= strings_model(ids@));
    }
    clean_piece_list(&pieces)
}

/// `s` begins with `p` when upper-case ASCII letters of `s` are read in lower case. For
/// the lower-case ASCII prefixes used here this is what `s.to_lowercase().starts_with(p)`
/// decides, since no other character lower-cases to a text that begins with one of their
/// characters.
pub open spec fn ascii_ci_prefix(p: Seq<char>, s: Seq<char>) -> bool {
    p.len() <= s.len() && forall|i: int| 0 <= i < p.len() ==> crate::text::ascii_lower(#[trigger] s[i]) == p[i]
}

/// `t` occurs in `s`.
pub open spec fn has_substring(s: Seq<char>, t: Seq<char>) -> bool {
    exists|i: int| 0 <= i && i + t.len() <= s.len() && #[trigger] s.subrange(i, i + t.len()) == t
}

/// A parsed URL that is a web address: scheme `http` or `https`, and a host.
pub open spec fn web_parts_spec(parts: Option<(Seq<char>, Option<Seq<char>>, Option<u16>)>) -> bool {
    match parts {
        Some((scheme, host, _)) => (scheme == "http"@ || scheme == "https"@) && host is Some,
        None => false,
    }
}

/// A URL that the `url` crate parses, with scheme `http` or `https` and a host.
pub open spec fn valid_web_url(u: Seq<char>) -> bool {
    web_parts_spec(parsed_url(u))
}

/// The URL to check for a bookmark: the trimmed text, given `https://` in front when it
/// names no scheme; `None` when it is empty or names another scheme.
pub open spec fn url_candidate_spec(url: Seq<char>) -> Option<Seq<char>> {
    let u = trim_seq(url);
    if u.len() == 0 {
        None
    } else if ascii_ci_prefix("http://"@, u) || ascii_ci_prefix("https://"@, u) {
        Some(u)
    } else if has_substring(u, "://"@) {
        None
    } else {
        Some("https://"@ + u)
    }
}

/// The stored form of a bookmark URL: the candidate of `url_candidate_spec` when it is a
/// valid web URL; `None` otherwise.
pub open spec fn normalize_url_spec(url: Seq<char>) -> Option<Seq<char>> {
    match url_candidate_spec(url) {
        None => None,
        Some(c) => if valid_web_url(c) {
            Some(c)
        } else {
            None
        },
    }
}

/// Does `s` begin with `p` up to ASCII case?
pub fn starts_with_ascii_ci(s: &Vec<char>, p: &Vec<char>) -> (r: bool)
    ensures
        r == ascii_ci_prefix(p@, s@),
{
    if p.len() > s.len() {
        return false;
    }
    let ls = crate::text::ascii_lower_chars(s);
    let mut i: usize = 0;
    while i < p.len()
        invariant
            i <= p@.len() <= s@.len(),
            ls@ == crate::text::ascii_lower_seq(s@),
            forall|j: int| 0 <= j < i ==> crate::text::ascii_lower(#[trigger] s@[j]) == p@[j],
        decreases p.len() - i,
    {
        if ls[i] != p[i] {
            return false;
        }
        i += 1;
    }
    true
}

/// Does `t` occur in `s` at position `i`?
fn matches_at(s: &Vec<char>, t: &Vec<char>, i: usize) -> (r: bool)
    requires
        i + t@.len() <= s@.len(),
    ensures
        r == (s@.subrange(i as int, i + t@.len()) == t@),
{
    let slen = s.len();
    let mut j: usize = 0;
    while j < t.len()
        invariant
            j <= t@.len(),
            slen == s@.len(),
            i + t@.len() <= s@.len(),
            forall|m: int| 0 <= m < j ==> s@[i + m] == t@[m],
        decreases t.len() - j,
    {
        if s[i + j] != t[j] {
            proof {
                assert(s@.subrange(i as int, i + t@.len())[j as int] != t@[j as int]);
            }
            return false;
        }
        j += 1;
    }
    proof {
        assert(s@.subrange(i as int, i + t@.len()) =~= t@);
    }
    true
}

/// Does `t` occur in `s`?
pub fn contains_chars(s: &Vec<char>, t: &Vec<char>) -> (r: bool)
    ensures
        r == has_substring(s@, t@),
{
    if t.len() > s.len() {
        return false;
    }
    let last = s.len() - t.len();
    let mut i: usize = 0;
    loop
        invariant
            t@.len() <= s@.len(),
            last == s@.len() - t@.len(),
            i <= last,
            forall|k: int| 0 <= k < i ==> #[trigger] s@.subrange(k, k + t@.len()) != t@,
        decreases last - i,
    {
        if matches_at(s, t, i) {
            return true;
        }
        if i == last {
            return false;
        }
        i += 1;
    }
}

/// Is the parsed URL a web address (scheme `http` or `https`, with a host)?
pub fn is_web_url_parts(parts: &Option<UrlParts>) -> (r: bool)
    ensures
        r == web_parts_spec(url_parts_model(*parts)),
{
    match parts {
        None => false,
        Some(p) => {
            let scheme = chars_of(p.scheme.as_str());
            (chars_eq(&scheme, &chars_of("http")) || chars_eq(&scheme, &chars_of("https"))) && p.host.is_some()
        },
    }
}

/// Does the `url` crate accept `url` as an `http` or `https` URL with a host?
pub fn is_valid_url(url: &str) -> (r: bool)
    ensures
        r == valid_web_url(url@),
{
    let parts = parse_url(url);
    is_web_url_parts(&parts)
}

/// The URL to check for a bookmark (see `url_candidate_spec`).
pub fn url_candidate(url: &str) -> (r: Option<String>)
    ensures
        match url_candidate_spec(url@) {
            None => r is None,
            Some(u) => r matches Some(x) && x@ == u,
        },
{
    let u = crate::text::trim_str(url);
    if u.as_str().is_empty() {
        return None;
    }
    let uc = chars_of(u.as_str());
    if starts_with_ascii_ci(&uc, &chars_of("http://")) || starts_with_ascii_ci(&uc, &chars_of("https://")) {
        Some(u)
    } else if contains_chars(&uc, &chars_of("://")) {
        None
    } else {
        let mut c = String::new();
        append_str(&mut c, "https://");
        append_str(&mut c, u.as_str());
        Some(c)
    }
}

/// The stored form of a bookmark URL (see `normalize_url_spec`).
pub fn normalize_url(url: &str) -> (r: Option<String>)
    ensures
        match normalize_url_spec(url@) {
            None => r is None,
            Some(u) => r matches Some(x) && x@ == u,
        },
{
    match url_candidate(url) {
        None => None,
        Some(candidate) => if is_valid_url(candidate.as_str()) {
            Some(candidate)
        } else {
            None
        },
    }
}

/// `?` placeholders for `count` SQL parameters, separated by commas.
pub open spec fn placeholders_spec(count: nat) -> Seq<char>
    decreases count,
{
    if count == 0 {
        seq![]
    } else if count == 1 {
        seq!['?']
    } else {
        placeholders_spec((count - 1) as nat) + seq![',', '?']
    }
}

/// `?,?,...` with `count` placeholders.
pub fn placeholders(count: usize) -> (r: String)
    ensures
        r@ == placeholders_spec(count as nat),
{
    let mut out = String::new();
    let mut i: usize = 0;
    while i < count
        invariant
            i <= count,
            out@ == placeholders_spec(i as nat),
        decreases count - i,
    {
        if i > 0 {
            push_char(&mut out, ',');
        }
        push_char(&mut out, '?');
        proof {
            if i > 0 {
                assert(out@ =~= placeholders_spec(i as nat) + seq![',', '?']);
            }
        }
        i += 1;
    }
    out
}

/// One row of placeholders: `(?, ?, ...)` with `binds` parameters.
pub open spec fn row_placeholders_spec(binds: nat) -> Seq<char> {
    seq!['('] + join_spec(Seq::new(binds, |i: int| seq!['?']), seq![',', ' ']) + seq![')']
}

/// `row_count` rows of placeholders separated by `, `.
pub open spec fn rows_placeholders_spec(row_count: nat, binds: nat) -> Seq<char> {
    join_spec(Seq::new(row_count, |i: int| row_placeholders_spec(binds)), seq![',', ' '])
}

proof fn lemma_join_push(parts: Seq<Seq<char>>, sep: Seq<char>, p: Seq<char>)
    ensures
        join_spec(parts.push(p), sep) == if parts.len() == 0 { p } else { join_spec(parts, sep) + sep + p },
{
    assert(parts.push(p).drop_last() =~= parts);
}

/// Appends `count` copies of `item` separated by `, `.
fn push_joined_copies(out: &mut String, item: &Vec<char>, count: usize)
    ensures
        final(out)@ == old(out)@ + join_spec(Seq::new(count as nat, |i: int| item@), seq![',', ' ']),
{
    let ghost start = out@;
    let mut i: usize = 0;
    while i < count
        invariant
            i <= count,
            out@ == start + join_spec(Seq::new(i as nat, |k: int| item@), seq![',', ' ']),
        decreases count - i,
    {
        let ghost parts = Seq::new(i as nat, |k: int| item@);
        proof {
            assert(Seq::new((i + 1) as nat, |k: int| item@) =~= parts.push(item@));
            lemma_join_push(parts, seq![',', ' '], item@);
        }
        if i > 0 {
            push_char(out, ',');
            push_char(out, ' ');
        }
        append_chars(out, item);
        proof {
            if i > 0 {
                assert(out@ =~= start + (join_spec(parts, seq![',', ' ']) + seq![',', ' '] + item@));
            } else {
                assert(out@ =~= start + item@);
            }
        }
        i += 1;
    }
}

/// Placeholders for `row_count` rows of `binds_per_row` parameters each.
pub fn repeat_row_placeholders(row_count: usize, binds_per_row: usize) -> (r: String)
    ensures
        r@ == rows_placeholders_spec(row_count as nat, binds_per_row as nat),
{
    let mut row = String::new();
    push_char(&mut row, '(');
    let mut q: Vec<char> = Vec::new();
    q.push('?');
    push_joined_copies(&mut row, &q, binds_per_row);
    push_char(&mut row, ')');
    proof {
        assert(q@ =~= seq!['?']);
        assert(Seq::new(binds_per_row as nat, |k: int| q@) =~= Seq::new(binds_per_row as nat, |k: int| seq!['?']));
        assert(row@ =~= row_placeholders_spec(binds_per_row as nat));
    }
    let row_chars = chars_of(row.as_str());
    let mut out = String::new();
    push_joined_copies(&mut out, &row_chars, row_count);
    proof {
        assert(Seq::new(row_count as nat, |k: int| row_chars@) =~= Seq::new(row_count as nat, |k: int| row_placeholders_spec(binds_per_row as nat)));
        assert(out@ =~= rows_placeholders_spec(row_count as nat, binds_per_row as nat));
    }
    out
}

/// The most parameters that one D1 statement may bind.
pub const D1_MAX_BIND_PARAMS: usize = 100;

/// How many rows of `binds_per_row` parameters fit beside `fixed_bind_count` others in
/// one statement; at least one.
pub fn sql_chunk_size(binds_per_row: usize, fixed_bind_count: usize) -> (r: usize)
    requires
        binds_per_row > 0,
    ensures
        r == if fixed_bind_count >= 100 || (100 - fixed_bind_count) / (binds_per_row as int) == 0 {
            1
        } else {
            (100 - fixed_bind_count) / (binds_per_row as int)
        },
{
    let available = if fixed_bind_count >= D1_MAX_BIND_PARAMS { 0 } else { D1_MAX_BIND_PARAMS - fixed_bind_count };
    let n = available / binds_per_row;
    if n == 0 { 1 } else { n }
}

/// The text of an optional value, empty when it is missing.
pub open spec fn text_or_empty(v: Option<String>) -> Seq<char> {
    match v {
        Some(s) => s@,
        None => seq![],
    }
}

/// The text of an optional value, empty when it is missing.
pub fn string_or_empty(v: &Option<String>) -> (r: String)
    ensures
        r@ == text_or_empty(*v),
{
    match v {
        Some(s) => s.clone(),
        None => String::new(),
    }
}

/// Why a bookmark cannot be saved.
#[derive(Debug, Clone, Copy, PartialEq, Eq, Structural)]
pub enum SaveBookmarkError {
    MissingTitle,
    InvalidUrl,
}

impl SaveBookmarkError {
    /// The error code of the answer (sent with status 400).
    pub fn code(&self) -> (r: &'static str)
        ensures
            r@ == match self {
                SaveBookmarkError::MissingTitle => "missing_title"@,
                SaveBookmarkError::InvalidUrl => "invalid_url"@,
            },
    {
        match self {
            SaveBookmarkError::MissingTitle => "missing_title",
            SaveBookmarkError::InvalidUrl => "invalid_url",
        }
    }

    /// The message of the answer.
    pub fn message(&self) -> (r: &'static str)
        ensures
            r@ == match self {
                SaveBookmarkError::MissingTitle => "标题不能为空"@,
                SaveBookmarkError::InvalidUrl => "URL 无效"@,
            },
    {
        match self {
            SaveBookmarkError::MissingTitle => "标题不能为空",
            SaveBookmarkError::InvalidUrl => "URL 无效",
        }
    }
}

/// A bookmark ready to be stored: all fields in their stored form.
pub struct PreparedBookmark {
    pub id: String,
    pub title: String,
    pub url: String,
    pub folder: String,
}

/// The trimmed ID when it is not empty, otherwise `fallback`.
pub open spec fn id_or(id: Option<String>, fallback: Seq<char>) -> Seq<char> {
    match id {
        Some(s) => if trim_seq(s@).len() > 0 {
            trim_seq(s@)
        } else {
            fallback
        },
        None => fallback,
    }
}

fn trimmed_id_or(id: &Option<String>, fallback: String) -> (r: String)
    ensures
        r@ == id_or(*id, fallback@),
{
    match id {
        Some(s) => {
            let t = crate::text::trim_str(s.as_str());
            if t.as_str().is_empty() {
                fallback
            } else {
                t
            }
        },
        None => fallback,
    }
}

/// Normalizes a submitted bookmark for saving: the trimmed ID (or `generated_id` when it
/// is missing or blank), the trimmed title, the canonical folder path and the stored form
/// of the URL. A blank title fails first, then an invalid URL.
pub fn prepare_bookmark(payload: &BookmarkPayload, generated_id: String) -> (r: Result<PreparedBookmark, SaveBookmarkError>)
    ensures
        trim_seq(text_or_empty(payload.title)).len() == 0 ==> r == Err::<PreparedBookmark, SaveBookmarkError>(SaveBookmarkError::MissingTitle),
        trim_seq(text_or_empty(payload.title)).len() > 0 && normalize_url_spec(text_or_empty(payload.url)) is None ==> r == Err::<PreparedBookmark, SaveBookmarkError>(SaveBookmarkError::InvalidUrl),
        trim_seq(text_or_empty(payload.title)).len() > 0 && normalize_url_spec(text_or_empty(payload.url)) is Some ==> (r matches Ok(b) && b.id@ == id_or(payload.id, generated_id@) && b.title@ == trim_seq(text_or_empty(payload.title)) && b.folder@ == normalized_folder(text_or_empty(payload.folder)) && b.url@ == normalize_url_spec(text_or_empty(payload.url))->0),
{
    let id = trimmed_id_or(&payload.id, generated_id);
    let title = crate::text::trim_str(string_or_empty(&payload.title).as_str());
    let folder = normalize_folder_path(string_or_empty(&payload.folder).as_str());
    let url = normalize_url(string_or_empty(&payload.url).as_str());
    if title.as_str().is_empty() {
        return Err(SaveBookmarkError::MissingTitle);
    }
    match url {
        None => Err(SaveBookmarkError::InvalidUrl),
        Some(url) => Ok(PreparedBookmark { id, title, url, folder }),
    }
}

/// The folder and order of a bookmark that is already stored.
pub struct ExistingBookmarkOrder {
    pub folder: String,
    pub value: i64,
}

/// The order a saved bookmark keeps: its stored order when it stays in the same folder;
/// `None` when it needs the next free order of its folder.
pub fn reuse_sort_order(existing: &Option<ExistingBookmarkOrder>, folder: &str) -> (r: Option<i64>)
    ensures
        r == match existing {
            Some(e) => if e.folder@ == folder@ {
                Some(e.value)
            } else {
                None::<i64>
            },
            None => None::<i64>,
        },
{
    match existing {
        Some(e) => {
            if chars_eq(&chars_of(e.folder.as_str()), &chars_of(folder)) {
                Some(e.value)
            } else {
                None
            }
        },
        None => None,
    }
}

/// `x + 1` as a 64-bit signed machine addition (wrapping at the top).
pub open spec fn wrap_inc(x: i64) -> i64 {
    if x == i64::MAX {
        i64::MIN
    } else {
        (x + 1) as i64
    }
}

/// `x + 1`, wrapping at the top as the release build of the service does.
pub fn next_order(x: i64) -> (r: i64)
    ensures
        r == wrap_inc(x),
{
    if x == i64::MAX {
        i64::MIN
    } else {
        x + 1
    }
}

/// `x + k` as a 64-bit signed machine addition (wrapping): `k` successive increments.
pub open spec fn wrap_add(x: i64, k: nat) -> i64
    decreases k,
{
    if k == 0 {
        x
    } else {
        wrap_inc(wrap_add(x, (k - 1) as nat))
    }
}

/// Why a folder action is refused.
#[derive(Debug, Clone, Copy, PartialEq, Eq, Structural)]
pub enum FolderActionError {
    NoBookmarksToMove,
    NoBookmarksToDelete,
    NoFolderSelected,
    SameFolder,
}

impl FolderActionError {
    /// The message of the answer (sent with status 400).
    pub fn message(&self) -> (r: &'static str)
        ensures
            r@ == match self {
                FolderActionError::NoBookmarksToMove => "请选择要移动的书签"@,
                FolderActionError::NoBookmarksToDelete => "请选择要删除的书签"@,
                FolderActionError::NoFolderSelected => "请选择要操作的目录"@,
                FolderActionError::SameFolder => "新目录和原目录相同"@,
            },
    {
        match self {
            FolderActionError::NoBookmarksToMove => "请选择要移动的书签",
            FolderActionError::NoBookmarksToDelete => "请选择要删除的书签",
            FolderActionError::NoFolderSelected => "请选择要操作的目录",
            FolderActionError::SameFolder => "新目录和原目录相同",
        }
    }
}

/// Bookmarks to move and their target folder.
pub struct MovePlan {
    pub ids: Vec<String>,
    pub folder: String,
}

/// Normalizes a move request: the cleaned IDs and the canonical target folder; fails when
/// no ID is left.
pub fn prepare_move_bookmarks(payload: MoveBookmarksPayload) -> (r: Result<MovePlan, FolderActionError>)
    ensures
        clean_parts(strings_model(payload.ids@)).len() == 0 ==> r == Err::<MovePlan, FolderActionError>(FolderActionError::NoBookmarksToMove),
        clean_parts(strings_model(payload.ids@)).len() > 0 ==> (r matches Ok(p) && strings_model(p.ids@) == clean_parts(strings_model(payload.ids@)) && p.folder@ == normalized_folder(text_or_empty(payload.folder))),
{
    let folder = normalize_folder_path(string_or_empty(&payload.folder).as_str());
    let ids = clean_ids(payload.ids);
    if ids.len() == 0 {
        proof {
            assert(strings_model(ids@).len() == 0);
        }
        return Err(FolderActionError::NoBookmarksToMove);
    }
    Ok(MovePlan { ids, folder })
}

/// The orders given to `count` moved bookmarks: `next_order`, `next_order + 1`, ...
pub fn moved_sort_orders(next_order: i64, count: usize) -> (r: Vec<i64>)
    ensures
        r@.len() == count,
        forall|i: int| 0 <= i < count ==> #[trigger] r@[i] == wrap_add(next_order, i as nat),
{
    let mut out: Vec<i64> = Vec::new();
    let mut cur = next_order;
    let mut i: usize = 0;
    proof {
        assert(wrap_add(next_order, 0) == next_order);
    }
    while i < count
        invariant
            i <= count,
            out@.len() == i,
            cur == wrap_add(next_order, i as nat),
            forall|j: int| 0 <= j < i ==> #[trigger] out@[j] == wrap_add(next_order, j as nat),
        decreases count - i,
    {
        out.push(cur);
        proof {
            assert(wrap_add(next_order, (i + 1) as nat) == wrap_inc(cur));
        }
        cur = crate::db::next_order(cur);
        i += 1;
    }
    out
}

/// Normalizes a delete request: the cleaned IDs; fails when none is left.
pub fn prepare_delete_bookmarks(payload: IdsPayload) -> (r: Result<Vec<String>, FolderActionError>)
    ensures
        clean_parts(strings_model(payload.ids@)).len() == 0 ==> r == Err::<Vec<String>, FolderActionError>(FolderActionError::NoBookmarksToDelete),
        clean_parts(strings_model(payload.ids@)).len() > 0 ==> (r matches Ok(ids) && strings_model(ids@) == clean_parts(strings_model(payload.ids@))),
{
    let ids = clean_ids(payload.ids);
    if ids.len() == 0 {
        proof {
            assert(strings_model(ids@).len() == 0);
        }
        return Err(FolderActionError::NoBookmarksToDelete);
    }
    Ok(ids)
}

/// Does `v` hold a string equal to `x`?
pub fn contains_string(v: &Vec<String>, x: &String) -> (r: bool)
    ensures
        r == strings_model(v@).contains(x@),
{
    let mut i: usize = 0;
    while i < v.len()
        invariant
            i <= v@.len(),
            forall|j: int| 0 <= j < i ==> v@[j]@ != x@,
        decreases v.len() - i,
    {
        if v[i] == *x {
            proof {
                assert(strings_model(v@)[i as int] == x@);
            }
            return true;
        }
        i += 1;
    }
    proof {
        if strings_model(v@).contains(x@) {
            let k = choose|k: int| 0 <= k < strings_model(v@).len() && strings_model(v@)[k] == x@;
            assert(v@[k]@ == x@);
        }
    }
    false
}

/// The requested entries that exist, each once, in the order requested.
pub open spec fn select_requested(requested: Seq<Seq<char>>, existing: Seq<Seq<char>>) -> Seq<Seq<char>>
    decreases requested.len(),
{
    if requested.len() == 0 {
        seq![]
    } else {
        let acc = select_requested(requested.drop_last(), existing);
        let x = requested.last();
        if existing.contains(x) && !acc.contains(x) {
            acc.push(x)
        } else {
            acc
        }
    }
}

/// `acc` followed by the entries of `existing` that it does not hold yet, in their order.
pub open spec fn fill_existing(acc: Seq<Seq<char>>, existing: Seq<Seq<char>>) -> Seq<Seq<char>>
    decreases existing.len(),
{
    if existing.len() == 0 {
        acc
    } else {
        let a = fill_existing(acc, existing.drop_last());
        let x = existing.last();
        if !a.contains(x) {
            a.push(x)
        } else {
            a
        }
    }
}

/// The new order of a folder's entries: first the requested entries that exist (each
/// once, as requested), then the remaining existing entries in their current order.
pub open spec fn merge_order_spec(requested: Seq<Seq<char>>, existing: Seq<Seq<char>>) -> Seq<Seq<char>> {
    fill_existing(select_requested(requested, existing), existing)
}

/// Orders a folder's entries as `merge_order_spec` describes.
pub fn merge_order(requested: &Vec<String>, existing: &Vec<String>) -> (r: Vec<String>)
    ensures
        strings_model(r@) == merge_order_spec(strings_model(requested@), strings_model(existing@)),
{
    let ghost rq = strings_model(requested@);
    let ghost ex = strings_model(existing@);
    let mut out: Vec<String> = Vec::new();
    let mut i: usize = 0;
    while i < requested.len()
        invariant
            i <= requested@.len(),
            rq == strings_model(requested@),
            ex == strings_model(existing@),
            strings_model(out@) == select_requested(rq.take(i as int), ex),
        decreases requested.len() - i,
    {
        proof {
            assert(rq.take(i + 1).drop_last() =~= rq.take(i as int));
            assert(rq.take(i + 1).last() == requested@[i as int]@);
        }
        let id = &requested[i];
        if contains_string(existing, id) && !contains_string(&out, id) {
            proof {
                lemma_strings_model_push(out@, *id);
            }
            out.push(id.clone());
        }
        i += 1;
    }
    proof {
        assert(rq.take(requested@.len() as int) =~= rq);
    }
    let ghost selected = strings_model(out@);
    let mut j: usize = 0;
    while j < existing.len()
        invariant
            j <= existing@.len(),
            ex == strings_model(existing@),
            strings_model(out@) == fill_existing(selected, ex.take(j as int)),
        decreases existing.len() - j,
    {
        proof {
            assert(ex.take(j + 1).drop_last() =~= ex.take(j as int));
            assert(ex.take(j + 1).last() == existing@[j as int]@);
        }
        let id = &existing[j];
        if !contains_string(&out, id) {
            proof {
                lemma_strings_model_push(out@, *id);
            }
            out.push(id.clone());
        }
        j += 1;
    }
    proof {
        assert(ex.take(existing@.len() as int) =~= ex);
    }
    out
}

/// The folder and IDs of a reorder request, after normalizing.
pub struct ReorderRequest {
    pub folder: String,
    pub ids: Vec<String>,
}

/// Normalizes a bookmark reorder request: the canonical folder and the cleaned IDs.
pub fn prepare_reorder_bookmarks(payload: ReorderBookmarksPayload) -> (r: ReorderRequest)
    ensures
        r.folder@ == normalized_folder(text_or_empty(payload.folder)),
        strings_model(r.ids@) == clean_parts(strings_model(payload.ids@)),
{
    let folder = normalize_folder_path(string_or_empty(&payload.folder).as_str());
    let ids = clean_ids(payload.ids);
    ReorderRequest { folder, ids }
}

/// The folder name a reorder request item stands for: its last level, or the trimmed
/// item when it has no level; `None` when it is blank.
pub open spec fn requested_folder_name(item: Seq<char>) -> Option<Seq<char>> {
    let parts = folder_parts(item);
    if parts.len() > 0 {
        Some(parts.last())
    } else if trim_seq(item).len() > 0 {
        Some(trim_seq(item))
    } else {
        None
    }
}

/// The folder names of a reorder request, in order, without blank items.
pub open spec fn requested_folder_names_spec(items: Seq<Seq<char>>) -> Seq<Seq<char>>
    decreases items.len(),
{
    if items.len() == 0 {
        seq![]
    } else {
        let rest = requested_folder_names_spec(items.drop_last());
        match requested_folder_name(items.last()) {
            Some(n) => rest.push(n),
            None => rest,
        }
    }
}

/// The folder names that a folder reorder request lists (see `requested_folder_name`).
pub fn requested_folder_names(folders: &Vec<String>) -> (r: Vec<String>)
    ensures
        strings_model(r@) == requested_folder_names_spec(strings_model(folders@)),
{
    let ghost fm = strings_model(folders@);
    let mut out: Vec<String> = Vec::new();
    let mut i: usize = 0;
    while i < folders.len()
        invariant
            i <= folders@.len(),
            fm == strings_model(folders@),
            strings_model(out@) == requested_folder_names_spec(fm.take(i as int)),
        decreases folders.len() - i,
    {
        proof {
            assert(fm.take(i + 1).drop_last() =~= fm.take(i as int));
            assert(fm.take(i + 1).last() == folders@[i as int]@);
        }
        let item = folders[i].as_str();
        let parts = split_folder_path(item);
        if parts.len() > 0 {
            let name = parts[parts.len() - 1].clone();
            proof {
                assert(strings_model(parts@).last() == name@);
                lemma_strings_model_push(out@, name);
            }
            out.push(name);
        } else {
            let trimmed = crate::text::trim_str(item);
            if !trimmed.as_str().is_empty() {
                proof {
                    lemma_strings_model_push(out@, trimmed);
                }
                out.push(trimmed);
            }
        }
        i += 1;
    }
    proof {
        assert(fm.take(folders@.len() as int) =~= fm);
    }
    out
}

/// The parent folder path and the target of a folder action.
pub struct FolderTarget {
    pub folder: String,
    pub parent_folder: String,
}

/// The path of the first `k` levels.
pub open spec fn prefix_path(parts: Seq<Seq<char>>, k: int) -> Seq<char> {
    join_spec(parts.take(k), path_sep())
}

/// The path of the first `k` levels of `parts`.
pub fn join_prefix(parts: &Vec<String>, k: usize) -> (r: String)
    requires
        k <= parts@.len(),
    ensures
        r@ == prefix_path(strings_model(parts@), k as int),
{
    let mut head: Vec<String> = Vec::new();
    let mut i: usize = 0;
    while i < k
        invariant
            i <= k <= parts@.len(),
            strings_model(head@) == strings_model(parts@).take(i as int),
        decreases k - i,
    {
        proof {
            lemma_strings_model_push(head@, parts@[i as int]);
            assert(strings_model(parts@).take(i + 1) =~= strings_model(parts@).take(i as int).push(parts@[i as int]@));
        }
        head.push(parts[i].clone());
        i += 1;
    }
    let r = join_strings(&head, " / ");
    proof {
        reveal_strlit(" / ");
        assert(" / "@ =~= path_sep());
    }
    r
}

/// The parent path of a folder: its levels but the last, joined.
pub open spec fn parent_path(folder: Seq<char>) -> Seq<char> {
    let parts = folder_parts(folder);
    if parts.len() == 0 {
        seq![]
    } else {
        prefix_path(parts, parts.len() - 1)
    }
}

/// Normalizes the folder of a move-up request and finds its parent; fails for the root.
pub fn prepare_move_folder_up(payload: FolderPayload) -> (r: Result<FolderTarget, FolderActionError>)
    ensures
        normalized_folder(text_or_empty(payload.folder)).len() == 0 ==> r == Err::<FolderTarget, FolderActionError>(FolderActionError::NoFolderSelected),
        normalized_folder(text_or_empty(payload.folder)).len() > 0 ==> (r matches Ok(t) && t.folder@ == normalized_folder(text_or_empty(payload.folder)) && t.parent_folder@ == parent_path(t.folder@)),
{
    let folder = normalize_folder_path(string_or_empty(&payload.folder).as_str());
    if folder.as_str().is_empty() {
        return Err(FolderActionError::NoFolderSelected);
    }
    let parts = split_folder_path(folder.as_str());
    let parent_folder = if parts.len() == 0 {
        proof {
            assert(prefix_path(strings_model(parts@), 0) =~= Seq::<char>::empty()) by {
                assert(strings_model(parts@).take(0) =~= Seq::<Seq<char>>::empty());
            }
        }
        join_prefix(&parts, 0)
    } else {
        join_prefix(&parts, parts.len() - 1)
    };
    Ok(FolderTarget { folder, parent_folder })
}

/// A bookmark's ID and folder.
pub struct BookmarkFolderRow {
    pub id: String,
    pub folder: String,
}

/// The new folders of the bookmarks in `rows` when `folder` is dissolved into
/// `parent_folder`; bookmarks outside it are left out.
pub open spec fn folder_moves_spec(rows: Seq<(Seq<char>, Seq<char>)>, folder: Seq<char>, parent: Seq<char>) -> Seq<(Seq<char>, Seq<char>)>
    decreases rows.len(),
{
    if rows.len() == 0 {
        seq![]
    } else {
        let rest = folder_moves_spec(rows.drop_last(), folder, parent);
        match move_up_spec(rows.last().1, folder, parent) {
            Some(p) => rest.push((rows.last().0, p)),
            None => rest,
        }
    }
}

/// The models of bookmark rows.
pub open spec fn rows_model(rows: Seq<BookmarkFolderRow>) -> Seq<(Seq<char>, Seq<char>)> {
    rows.map_values(|r: BookmarkFolderRow| (r.id@, r.folder@))
}

/// The models of (ID, folder) updates.
pub open spec fn pairs_model(v: Seq<(String, String)>) -> Seq<(Seq<char>, Seq<char>)> {
    v.map_values(|p: (String, String)| (p.0@, p.1@))
}

/// Pushing a pair pushes its characters onto the model.
pub proof fn lemma_pairs_model_push(v: Seq<(String, String)>, p: (String, String))
    ensures
        pairs_model(v.push(p)) == pairs_model(v).push((p.0@, p.1@)),
{
    assert(pairs_model(v.push(p)) =~= pairs_model(v).push((p.0@, p.1@)));
}

/// The folder updates for dissolving `folder` into `parent_folder`.
pub fn plan_folder_moves(rows: &Vec<BookmarkFolderRow>, folder: &str, parent_folder: &str) -> (r: Vec<(String, String)>)
    ensures
        pairs_model(r@) == folder_moves_spec(rows_model(rows@), folder@, parent_folder@),
{
    let ghost rm = rows_model(rows@);
    let mut out: Vec<(String, String)> = Vec::new();
    let mut i: usize = 0;
    while i < rows.len()
        invariant
            i <= rows@.len(),
            rm == rows_model(rows@),
            pairs_model(out@) == folder_moves_spec(rm.take(i as int), folder@, parent_folder@),
        decreases rows.len() - i,
    {
        proof {
            assert(rm.take(i + 1).drop_last() =~= rm.take(i as int));
            assert(rm.take(i + 1).last() == (rows@[i as int].id@, rows@[i as int].folder@));
        }
        let row = &rows[i];
        match move_folder_path_up(row.folder.as_str(), folder, parent_folder) {
            Some(new_folder) => {
                let entry = (row.id.clone(), new_folder);
                proof {
                    lemma_pairs_model_push(out@, entry);
                }
                out.push(entry);
            },
            None => {},
        }
        i += 1;
    }
    proof {
        assert(rm.take(rows@.len() as int) =~= rm);
    }
    out
}

/// Normalizes a rename request; fails for the root and for an unchanged path.
pub fn prepare_rename_folder(payload: RenameFolderPayload) -> (r: Result<(String, String), FolderActionError>)
    ensures
        ({
            let f = normalized_folder(text_or_empty(payload.folder));
            let n = normalized_folder(text_or_empty(payload.new_folder));
            &&& f.len() == 0 ==> r == Err::<(String, String), FolderActionError>(FolderActionError::NoFolderSelected)
            &&& f.len() > 0 && f == n ==> r == Err::<(String, String), FolderActionError>(FolderActionError::SameFolder)
            &&& f.len() > 0 && f != n ==> (r matches Ok(p) && p.0@ == f && p.1@ == n)
        }),
{
    let folder = normalize_folder_path(string_or_empty(&payload.folder).as_str());
    let new_folder = normalize_folder_path(string_or_empty(&payload.new_folder).as_str());
    if folder.as_str().is_empty() {
        return Err(FolderActionError::NoFolderSelected);
    }
    if folder == new_folder {
        return Err(FolderActionError::SameFolder);
    }
    Ok((folder, new_folder))
}

/// The folder updates for renaming `folder` to `new_folder`: each bookmark whose path
/// changes, with its new path.
pub open spec fn folder_renames_spec(rows: Seq<(Seq<char>, Seq<char>)>, folder: Seq<char>, new_folder: Seq<char>) -> Seq<(Seq<char>, Seq<char>)>
    decreases rows.len(),
{
    if rows.len() == 0 {
        seq![]
    } else {
        let rest = folder_renames_spec(rows.drop_last(), folder, new_folder);
        let updated = replace_path_spec(rows.last().1, folder, new_folder);
        if updated == rows.last().1 {
            rest
        } else {
            rest.push((rows.last().0, updated))
        }
    }
}

/// The folder updates for renaming `folder` to `new_folder`.
pub fn plan_folder_renames(rows: &Vec<BookmarkFolderRow>, folder: &str, new_folder: &str) -> (r: Vec<(String, String)>)
    ensures
        pairs_model(r@) == folder_renames_spec(rows_model(rows@), folder@, new_folder@),
{
    let ghost rm = rows_model(rows@);
    let mut out: Vec<(String, String)> = Vec::new();
    let mut i: usize = 0;
    while i < rows.len()
        invariant
            i <= rows@.len(),
            rm == rows_model(rows@),
            pairs_model(out@) == folder_renames_spec(rm.take(i as int), folder@, new_folder@),
        decreases rows.len() - i,
    {
        proof {
            assert(rm.take(i + 1).drop_last() =~= rm.take(i as int));
            assert(rm.take(i + 1).last() == (rows@[i as int].id@, rows@[i as int].folder@));
        }
        let row = &rows[i];
        let updated = replace_folder_path(row.folder.as_str(), folder, new_folder);
        if updated != row.folder {
            let entry = (row.id.clone(), updated);
            proof {
                lemma_pairs_model_push(out@, entry);
            }
            out.push(entry);
        }
        i += 1;
    }
    proof {
        assert(rm.take(rows@.len() as int) =~= rm);
    }
    out
}

/// Normalizes a folder delete request: the folder and the `LIKE` pattern of the paths
/// inside it; fails for the root.
pub fn prepare_delete_folder(payload: FolderPayload) -> (r: Result<(String, String), FolderActionError>)
    ensures
        normalized_folder(text_or_empty(payload.folder)).len() == 0 ==> r == Err::<(String, String), FolderActionError>(FolderActionError::NoFolderSelected),
        normalized_folder(text_or_empty(payload.folder)).len() > 0 ==> (r matches Ok(p) && p.0@ == normalized_folder(text_or_empty(payload.folder)) && p.1@ == child_prefix_spec(p.0@).push('%')),
{
    let folder = normalize_folder_path(string_or_empty(&payload.folder).as_str());
    if folder.as_str().is_empty() {
        return Err(FolderActionError::NoFolderSelected);
    }
    let like = folder_like_pattern(folder.as_str());
    Ok((folder, like))
}

} // verus!
