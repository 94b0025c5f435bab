use vstd::prelude::*;
use crate::models::Bookmark;
use crate::text::{append_str, chars_eq, chars_of, push_char};

verus! {

broadcast use vstd::string::group_string_axioms;

/// The file name of an export, before its date.
pub const DEFAULT_EXPORT_FILENAME_PREFIX: &'static str = "linkwise-bookmarks";

/// The head of an exported bookmark file in the Netscape format.
pub const BOOKMARKS_HTML_HEADER: &'static str = "<!DOCTYPE NETSCAPE-Bookmark-file-1>\n<TITLE>Bookmarks</TITLE>\n<H1>Bookmarks</H1>\n";

/// Opens a list of bookmarks.
pub const BOOKMARK_LIST_OPEN: &'static str = "<DL><p>\n";

/// Closes a list of bookmarks.
pub const BOOKMARK_LIST_CLOSE: &'static str = "</DL><p>\n";

/// Starts the heading of a folder.
pub const FOLDER_HEADING_START: &'static str = "<DT><H3>";

/// Ends the heading of a folder and opens the list of its bookmarks.
pub const FOLDER_HEADING_END: &'static str = "</H3>\n<DL><p>\n";

/// Starts a bookmark entry, up to its address.
pub const ENTRY_START: &'static str = "<DT><A HREF=\"";

/// Between the address of a bookmark entry and its title.
pub const ENTRY_MIDDLE: &'static str = "\">";

/// Ends a bookmark entry.
pub const ENTRY_END: &'static str = "</A>\n";

/// The file name of the export made on `date`: `linkwise-bookmarks-<date>.html`.
pub fn export_filename(date: &str) -> (r: String)
    ensures
        r@ == DEFAULT_EXPORT_FILENAME_PREFIX@ + seq!['-'] + date@ + ".html"@,
{
    let mut out = String::new();
    append_str(&mut out, DEFAULT_EXPORT_FILENAME_PREFIX);
    push_char(&mut out, '-');
    append_str(&mut out, date);
    append_str(&mut out, ".html");
    out
}

/// A character as it is written in HTML text or in a quoted attribute.
pub open spec fn escape_char_spec(c: char) -> Seq<char> {
    if c == '&' {
        "&amp;"@
    } else if c == '<' {
        "&lt;"@
    } else if c == '>' {
        "&gt;"@
    } else if c == '"' {
        "&quot;"@
    } else if c == '\'' {
        "&#39;"@
    } else {
        seq![c]
    }
}

/// Text as it is written in HTML: each character escaped in turn.
pub open spec fn html_escape_spec(s: Seq<char>) -> Seq<char>
    decreases s.len(),
{
    if s.len() == 0 {
        Seq::empty()
    } else {
        html_escape_spec(s.drop_last()) + escape_char_spec(s.last())
    }
}

/// The entry of one bookmark: its escaped address and title in a link.
pub open spec fn bookmark_entry(b: Bookmark) -> Seq<char> {
    ENTRY_START@ + html_escape_spec(b.url@) + ENTRY_MIDDLE@ + html_escape_spec(b.title@) + ENTRY_END@
}

/// What opens the bookmarks of folder `f`: its escaped heading and a list; nothing for
/// the top level (the empty folder).
pub open spec fn folder_open(f: Seq<char>) -> Seq<char> {
    if f.len() == 0 {
        Seq::empty()
    } else {
        FOLDER_HEADING_START@ + html_escape_spec(f) + FOLDER_HEADING_END@
    }
}

/// What closes the bookmarks of folder `f`: the end of its list; nothing for the top level.
pub open spec fn folder_close(f: Seq<char>) -> Seq<char> {
    if f.len() == 0 {
        Seq::empty()
    } else {
        BOOKMARK_LIST_CLOSE@
    }
}

/// Does bookmark `i` start a new group, its folder differing from that of the one before?
pub open spec fn starts_group(bs: Seq<Bookmark>, i: int) -> bool {
    i == 0 || bs[i - 1].folder@ != bs[i].folder@
}

/// What stands before the entry of bookmark `i`: where it starts a group, the close of the
/// previous group and the opening of its own folder; else nothing.
pub open spec fn entry_prefix(bs: Seq<Bookmark>, i: int) -> Seq<char> {
    if !starts_group(bs, i) {
        Seq::empty()
    } else if i == 0 {
        folder_open(bs[0].folder@)
    } else {
        folder_close(bs[i - 1].folder@) + folder_open(bs[i].folder@)
    }
}

/// The bookmarks in order, each entry under the heading of its folder: a heading is written
/// wherever the folder changes from one bookmark to the next.
pub open spec fn bookmark_list_spec(bs: Seq<Bookmark>) -> Seq<char>
    decreases bs.len(),
{
    if bs.len() == 0 {
        Seq::empty()
    } else {
        bookmark_list_spec(bs.drop_last()) + entry_prefix(bs, bs.len() - 1) + bookmark_entry(bs.last())
    }
}

/// What closes the last group of the list.
pub open spec fn last_group_close(bs: Seq<Bookmark>) -> Seq<char> {
    if bs.len() == 0 {
        Seq::empty()
    } else {
        folder_close(bs.last().folder@)
    }
}

/// The exported file: the head, then the bookmarks in one list.
pub open spec fn bookmarks_html_spec(bs: Seq<Bookmark>) -> Seq<char> {
    BOOKMARKS_HTML_HEADER@ + BOOKMARK_LIST_OPEN@ + bookmark_list_spec(bs) + last_group_close(bs)
        + BOOKMARK_LIST_CLOSE@
}

/// Appends one character as HTML writes it.
fn push_escaped_char(out: &mut String, c: char)
    ensures
        final(out)@ == old(out)@ + escape_char_spec(c),
{
    if c == '&' {
        append_str(out, "&amp;");
    } else if c == '<' {
        append_str(out, "&lt;");
    } else if c == '>' {
        append_str(out, "&gt;");
    } else if c == '"' {
        append_str(out, "&quot;");
    } else if c == '\'' {
        append_str(out, "&#39;");
    } else {
        push_char(out, c);
        proof {
            assert(old(out)@.push(c) =~= old(out)@ + seq![c]);
        }
    }
}

/// Appends text as HTML writes it.
pub fn push_html_escaped(out: &mut String, s: &str)
    ensures
        final(out)@ == old(out)@ + html_escape_spec(s@),
{
    let v = chars_of(s);
    let mut i: usize = 0;
    while i < v.len()
        invariant
            i <= v@.len(),
            v@ == s@,
            out@ == old(out)@ + html_escape_spec(v@.take(i as int)),
        decreases v.len() - i,
    {
        push_escaped_char(out, v[i]);
        proof {
            let t = v@.take(i + 1);
            assert(t.drop_last() =~= v@.take(i as int));
            assert(t.last() == v@[i as int]);
        }
        i += 1;
    }
    proof {
        assert(v@.take(v@.len() as int) =~= v@);
    }
}

/// Appends the opening of the bookmarks of a folder.
fn push_folder_open(out: &mut String, folder: &str)
    ensures
        final(out)@ == old(out)@ + folder_open(folder@),
{
    if folder.unicode_len() > 0 {
        append_str(out, FOLDER_HEADING_START);
        push_html_escaped(out, folder);
        append_str(out, FOLDER_HEADING_END);
    } else {
        proof {
            assert(old(out)@ + Seq::<char>::empty() =~= old(out)@);
        }
    }
}

/// Appends the close of the bookmarks of a folder.
fn push_folder_close(out: &mut String, folder: &str)
    ensures
        final(out)@ == old(out)@ + folder_close(folder@),
{
    if folder.unicode_len() > 0 {
        append_str(out, BOOKMARK_LIST_CLOSE);
    } else {
        proof {
            assert(old(out)@ + Seq::<char>::empty() =~= old(out)@);
        }
    }
}

/// Appends the entry of one bookmark.
fn push_bookmark_entry(out: &mut String, b: &Bookmark)
    ensures
        final(out)@ == old(out)@ + bookmark_entry(*b),
{
    append_str(out, ENTRY_START);
    push_html_escaped(out, b.url.as_str());
    append_str(out, ENTRY_MIDDLE);
    push_html_escaped(out, b.title.as_str());
    append_str(out, ENTRY_END);
}

/// The list text of a prefix grows by the prefix and entry of the next bookmark.
proof fn lemma_bookmark_list_step(bs: Seq<Bookmark>, i: int)
    requires
        0 <= i < bs.len(),
    ensures
        bookmark_list_spec(bs.take(i + 1)) == bookmark_list_spec(bs.take(i)) + entry_prefix(bs, i)
            + bookmark_entry(bs[i]),
{
    let t = bs.take(i + 1);
    assert(t.drop_last() =~= bs.take(i));
    assert(entry_prefix(t, i) == entry_prefix(bs, i));
}

/// The entries of the bookmarks, one after the other.
pub open spec fn entries_text(bs: Seq<Bookmark>) -> Seq<char>
    decreases bs.len(),
{
    if bs.len() == 0 {
        Seq::empty()
    } else {
        entries_text(bs.drop_last()) + bookmark_entry(bs.last())
    }
}

/// Where the group of bookmark `i` starts: the nearest bookmark at or before it that starts
/// a group.
pub open spec fn group_start(bs: Seq<Bookmark>, i: int) -> int
    decreases i,
{
    if i <= 0 || starts_group(bs, i) {
        i
    } else {
        group_start(bs, i - 1)
    }
}

/// Does `t` occur in `s` as a contiguous piece?
pub open spec fn has_infix(s: Seq<char>, t: Seq<char>) -> bool {
    exists|p: int| 0 <= p && p + t.len() <= s.len() && #[trigger] s.subrange(p, p + t.len()) == t
}

/// The list text of a shorter prefix of the bookmarks begins the list text of a longer one.
proof fn lemma_bookmark_list_prefix(bs: Seq<Bookmark>, m: int, n: int)
    requires
        0 <= m <= n <= bs.len(),
    ensures
        bookmark_list_spec(bs.take(m)).is_prefix_of(bookmark_list_spec(bs.take(n))),
    decreases n - m,
{
    if m < n {
        lemma_bookmark_list_prefix(bs, m, n - 1);
        lemma_bookmark_list_step(bs, n - 1);
    }
}

/// The list text of the first `i + 1` bookmarks ends with the opening of the folder of
/// bookmark `i` and the entries of its group up to it.
proof fn lemma_group_suffix(bs: Seq<Bookmark>, i: int)
    requires
        0 <= i < bs.len(),
    ensures
        0 <= group_start(bs, i) <= i,
        starts_group(bs, group_start(bs, i)),
        forall|k: int| group_start(bs, i) <= k <= i ==> #[trigger] bs[k].folder@ == bs[i].folder@,
        bookmark_list_spec(bs.take(i + 1)) == bookmark_list_spec(bs.take(group_start(bs, i)))
            + (if group_start(bs, i) == 0 { Seq::empty() } else { folder_close(bs[group_start(bs, i) - 1].folder@) })
            + folder_open(bs[i].folder@) + entries_text(bs.subrange(group_start(bs, i), i + 1)),
    decreases i,
{
    lemma_bookmark_list_step(bs, i);
    let j = group_start(bs, i);
    if starts_group(bs, i) {
        let one = bs.subrange(i, i + 1);
        assert(one.drop_last() =~= Seq::<Bookmark>::empty());
        assert(entries_text(one.drop_last()) =~= Seq::<char>::empty());
        assert(one.last() == bs[i]);
        assert(entries_text(one) =~= bookmark_entry(bs[i]));
        if i == 0 {
            assert(bookmark_list_spec(bs.take(0)) =~= Seq::<char>::empty());
        }
        assert(bookmark_list_spec(bs.take(i + 1)) =~= bookmark_list_spec(bs.take(j))
            + (if j == 0 { Seq::empty() } else { folder_close(bs[j - 1].folder@) })
            + folder_open(bs[i].folder@) + entries_text(one));
    } else {
        lemma_group_suffix(bs, i - 1);
        assert(j == group_start(bs, i - 1));
        let run = bs.subrange(j, i + 1);
        assert(run.drop_last() =~= bs.subrange(j, i));
        assert(run.last() == bs[i]);
        assert(bookmark_list_spec(bs.take(i + 1)) =~= bookmark_list_spec(bs.take(j))
            + (if j == 0 { Seq::empty() } else { folder_close(bs[j - 1].folder@) })
            + folder_open(bs[i].folder@) + entries_text(run));
    }
}

/// Every bookmark is in the export, under the heading of its folder: the file holds, in one
/// piece, the opening of the folder of bookmark `i` followed by the entries of its group up
/// to and including its own, and every bookmark of that group has the folder of bookmark
/// `i`.
pub proof fn lemma_export_lists_every_bookmark(bs: Seq<Bookmark>, i: int)
    requires
        0 <= i < bs.len(),
    ensures
        0 <= group_start(bs, i) <= i,
        starts_group(bs, group_start(bs, i)),
        forall|k: int| group_start(bs, i) <= k <= i ==> #[trigger] bs[k].folder@ == bs[i].folder@,
        has_infix(
            bookmarks_html_spec(bs),
            folder_open(bs[i].folder@) + entries_text(bs.subrange(group_start(bs, i), i + 1)),
        ),
{
    lemma_group_suffix(bs, i);
    lemma_bookmark_list_prefix(bs, i + 1, bs.len() as int);
    assert(bs.take(bs.len() as int) =~= bs);
    let j = group_start(bs, i);
    let t = folder_open(bs[i].folder@) + entries_text(bs.subrange(j, i + 1));
    let before = bookmark_list_spec(bs.take(j)) + (if j == 0 { Seq::empty() } else { folder_close(bs[j - 1].folder@) });
    let part = bookmark_list_spec(bs.take(i + 1));
    let whole = bookmark_list_spec(bs);
    assert(part =~= before + t);
    let head = BOOKMARKS_HTML_HEADER@ + BOOKMARK_LIST_OPEN@;
    let html = bookmarks_html_spec(bs);
    let p: int = (head.len() + before.len()) as int;
    assert(html =~= head + whole + (last_group_close(bs) + BOOKMARK_LIST_CLOSE@));
    assert forall|k: int| 0 <= k < t.len() implies html.subrange(p, p + t.len() as int)[k] == t[k] by {
        assert(whole[before.len() + k] == part[before.len() + k]);
        assert(part[before.len() + k] == t[k]);
        assert(html[p + k] == whole[before.len() + k]);
    }
    assert(html.subrange(p, p + t.len() as int) =~= t);
}

/// How many links `s` opens: the places where `<` is directly followed by `A`.
pub open spec fn link_count(s: Seq<char>) -> nat
    decreases s.len(),
{
    if s.len() < 2 {
        0
    } else {
        link_count(s.drop_last()) + if s[s.len() - 2] == '<' && s.last() == 'A' { 1nat } else { 0nat }
    }
}

/// Does `s` not end with `<` (so that nothing put after it can open a link across the seam)?
pub open spec fn ends_clear(s: Seq<char>) -> bool {
    s.len() == 0 || s.last() != '<'
}

/// Does `s` hold no `<` at all?
pub open spec fn has_no_lt(s: Seq<char>) -> bool {
    forall|k: int| 0 <= k < s.len() ==> #[trigger] s[k] != '<'
}

/// Links are counted piece by piece where the first piece does not end with `<`.
proof fn lemma_link_count_concat(a: Seq<char>, b: Seq<char>)
    requires
        ends_clear(a),
    ensures
        link_count(a + b) == link_count(a) + link_count(b),
        ends_clear(b) ==> ends_clear(a + b),
    decreases b.len(),
{
    if b.len() == 0 {
        assert(a + b =~= a);
    } else if b.len() == 1 {
        assert((a + b).drop_last() =~= a);
    } else {
        lemma_link_count_concat(a, b.drop_last());
        assert((a + b).drop_last() =~= a + b.drop_last());
    }
}

/// Text without `<` opens no link.
proof fn lemma_no_lt_no_link(s: Seq<char>)
    requires
        has_no_lt(s),
    ensures
        link_count(s) == 0,
        ends_clear(s),
    decreases s.len(),
{
    if s.len() >= 2 {
        assert(has_no_lt(s.drop_last()));
        lemma_no_lt_no_link(s.drop_last());
    }
}

/// Escaped text holds no `<`.
proof fn lemma_escape_has_no_lt(s: Seq<char>)
    ensures
        has_no_lt(html_escape_spec(s)),
    decreases s.len(),
{
    if s.len() > 0 {
        lemma_escape_has_no_lt(s.drop_last());
        reveal_strlit("&amp;");
        reveal_strlit("&lt;");
        reveal_strlit("&gt;");
        reveal_strlit("&quot;");
        reveal_strlit("&#39;");
        let l = html_escape_spec(s.drop_last());
        let r = escape_char_spec(s.last());
        assert(has_no_lt(r));
        assert forall|k: int| 0 <= k < (l + r).len() implies #[trigger] (l + r)[k] != '<' by {
            if k < l.len() {
                assert((l + r)[k] == l[k]);
            } else {
                assert((l + r)[k] == r[k - l.len()]);
            }
        }
    }
}

/// The head of the file opens no link.
proof fn lemma_header_has_no_link()
    ensures
        link_count(BOOKMARKS_HTML_HEADER@) == 0,
        ends_clear(BOOKMARKS_HTML_HEADER@),
{
    reveal_strlit("<!DOCTYPE NETSCAPE-Bookmark-file-1>\n<TITLE>Bookmarks</TITLE>\n<H1>Bookmarks</H1>\n");
    reveal_strlit("<!DOCTYPE NETSCAPE-Bookmark-file-1>\n");
    reveal_strlit("<TITLE>Bookmarks</TITLE>\n");
    reveal_strlit("<H1>Bookmarks</H1>\n");
    let a = "<!DOCTYPE NETSCAPE-Bookmark-file-1>\n"@;
    let b = "<TITLE>Bookmarks</TITLE>\n"@;
    let c = "<H1>Bookmarks</H1>\n"@;
    assert(BOOKMARKS_HTML_HEADER@ =~= a + b + c);
    assert(link_count(a) == 0) by {
        reveal_with_fuel(link_count, 40);
    }
    assert(link_count(b) == 0) by {
        reveal_with_fuel(link_count, 30);
    }
    assert(link_count(c) == 0) by {
        reveal_with_fuel(link_count, 30);
    }
    lemma_link_count_concat(a, b);
    lemma_link_count_concat(a + b, c);
}

/// The fixed pieces of the file open no link, but for the start of an entry, which opens one.
proof fn lemma_fixed_pieces()
    ensures
        link_count(BOOKMARKS_HTML_HEADER@) == 0,
        ends_clear(BOOKMARKS_HTML_HEADER@),
        link_count(BOOKMARK_LIST_OPEN@) == 0,
        ends_clear(BOOKMARK_LIST_OPEN@),
        link_count(BOOKMARK_LIST_CLOSE@) == 0,
        ends_clear(BOOKMARK_LIST_CLOSE@),
        link_count(FOLDER_HEADING_START@) == 0,
        ends_clear(FOLDER_HEADING_START@),
        link_count(FOLDER_HEADING_END@) == 0,
        ends_clear(FOLDER_HEADING_END@),
        link_count(ENTRY_START@) == 1,
        ends_clear(ENTRY_START@),
        link_count(ENTRY_MIDDLE@) == 0,
        ends_clear(ENTRY_MIDDLE@),
        link_count(ENTRY_END@) == 0,
        ends_clear(ENTRY_END@),
{
    lemma_header_has_no_link();
    reveal_strlit("<DL><p>\n");
    reveal_strlit("</DL><p>\n");
    reveal_strlit("<DT><H3>");
    reveal_strlit("</H3>\n<DL><p>\n");
    reveal_strlit("<DT><A HREF=\"");
    reveal_strlit("\">");
    reveal_strlit("</A>\n");
    reveal_with_fuel(link_count, 20);
}

/// An entry opens exactly one link.
proof fn lemma_entry_link_count(b: Bookmark)
    ensures
        link_count(bookmark_entry(b)) == 1,
        ends_clear(bookmark_entry(b)),
{
    lemma_fixed_pieces();
    let u = html_escape_spec(b.url@);
    let t = html_escape_spec(b.title@);
    lemma_escape_has_no_lt(b.url@);
    lemma_escape_has_no_lt(b.title@);
    lemma_no_lt_no_link(u);
    lemma_no_lt_no_link(t);
    lemma_link_count_concat(ENTRY_START@, u);
    lemma_link_count_concat(ENTRY_START@ + u, ENTRY_MIDDLE@);
    lemma_link_count_concat(ENTRY_START@ + u + ENTRY_MIDDLE@, t);
    lemma_link_count_concat(ENTRY_START@ + u + ENTRY_MIDDLE@ + t, ENTRY_END@);
}

/// What opens or closes a folder, and so what stands before an entry, opens no link.
proof fn lemma_entry_prefix_link_count(bs: Seq<Bookmark>, i: int)
    requires
        0 <= i < bs.len(),
    ensures
        link_count(entry_prefix(bs, i)) == 0,
        ends_clear(entry_prefix(bs, i)),
{
    lemma_fixed_pieces();
    assert forall|f: Seq<char>| link_count(#[trigger] folder_open(f)) == 0 && ends_clear(folder_open(f)) by {
        if f.len() > 0 {
            lemma_escape_has_no_lt(f);
            lemma_no_lt_no_link(html_escape_spec(f));
            lemma_link_count_concat(FOLDER_HEADING_START@, html_escape_spec(f));
            lemma_link_count_concat(FOLDER_HEADING_START@ + html_escape_spec(f), FOLDER_HEADING_END@);
        }
    }
    if starts_group(bs, i) && i > 0 {
        lemma_link_count_concat(folder_close(bs[i - 1].folder@), folder_open(bs[i].folder@));
    }
}

/// The list opens one link per bookmark.
proof fn lemma_bookmark_list_link_count(bs: Seq<Bookmark>)
    ensures
        link_count(bookmark_list_spec(bs)) == bs.len(),
        ends_clear(bookmark_list_spec(bs)),
    decreases bs.len(),
{
    if bs.len() > 0 {
        let n = bs.len() - 1;
        lemma_bookmark_list_link_count(bs.drop_last());
        lemma_entry_prefix_link_count(bs, n);
        lemma_entry_link_count(bs.last());
        lemma_link_count_concat(bookmark_list_spec(bs.drop_last()), entry_prefix(bs, n));
        lemma_link_count_concat(bookmark_list_spec(bs.drop_last()) + entry_prefix(bs, n), bookmark_entry(bs.last()));
    }
}

/// The export holds as many links as there are bookmarks: each bookmark is one `<A` entry,
/// and nothing else in the file (head, headings, escaped text) opens a link.
pub proof fn lemma_export_link_count(bs: Seq<Bookmark>)
    ensures
        link_count(bookmarks_html_spec(bs)) == bs.len(),
{
    lemma_fixed_pieces();
    lemma_bookmark_list_link_count(bs);
    let l = bookmark_list_spec(bs);
    let c = last_group_close(bs);
    lemma_link_count_concat(BOOKMARKS_HTML_HEADER@, BOOKMARK_LIST_OPEN@);
    lemma_link_count_concat(BOOKMARKS_HTML_HEADER@ + BOOKMARK_LIST_OPEN@, l);
    lemma_link_count_concat(BOOKMARKS_HTML_HEADER@ + BOOKMARK_LIST_OPEN@ + l, c);
    lemma_link_count_concat(BOOKMARKS_HTML_HEADER@ + BOOKMARK_LIST_OPEN@ + l + c, BOOKMARK_LIST_CLOSE@);
}

/// The exported bookmark file in the Netscape format: the head, then one list in which each
/// bookmark, in the given order, is a link to its escaped address with its escaped title,
/// written under the heading of its folder (bookmarks of the empty folder stand at the top
/// level).
pub fn build_bookmarks_html(bookmarks: &[Bookmark]) -> (r: String)
    ensures
        r@ == bookmarks_html_spec(bookmarks@),
{
    let mut out = String::new();
    append_str(&mut out, BOOKMARKS_HTML_HEADER);
    append_str(&mut out, BOOKMARK_LIST_OPEN);
    let ghost bs = bookmarks@;
    let mut i: usize = 0;
    while i < bookmarks.len()
        invariant
            i <= bs.len(),
            bs == bookmarks@,
            out@ == BOOKMARKS_HTML_HEADER@ + BOOKMARK_LIST_OPEN@ + bookmark_list_spec(bs.take(i as int)),
        decreases bookmarks.len() - i,
    {
        let b = &bookmarks[i];
        let ghost before = out@;
        if i == 0 {
            push_folder_open(&mut out, b.folder.as_str());
        } else {
            let prev = &bookmarks[i - 1];
            let a = chars_of(prev.folder.as_str());
            let c = chars_of(b.folder.as_str());
            if !chars_eq(&a, &c) {
                push_folder_close(&mut out, prev.folder.as_str());
                push_folder_open(&mut out, b.folder.as_str());
            } else {
                proof {
                    assert(before + Seq::<char>::empty() =~= before);
                }
            }
        }
        proof {
            assert(out@ == before + entry_prefix(bs, i as int)) by {
                if i > 0 {
                    assert(before + folder_close(bs[i - 1].folder@) + folder_open(bs[i as int].folder@)
                        =~= before + (folder_close(bs[i - 1].folder@) + folder_open(bs[i as int].folder@)));
                }
            }
        }
        push_bookmark_entry(&mut out, b);
        proof {
            lemma_bookmark_list_step(bs, i as int);
            assert(out@ =~= BOOKMARKS_HTML_HEADER@ + BOOKMARK_LIST_OPEN@ + bookmark_list_spec(bs.take(i + 1)));
        }
        i += 1;
    }
    proof {
        assert(bs.take(bs.len() as int) =~= bs);
    }
    if bookmarks.len() > 0 {
        push_folder_close(&mut out, bookmarks[bookmarks.len() - 1].folder.as_str());
    }
    append_str(&mut out, BOOKMARK_LIST_CLOSE);
    proof {
        assert(out@ =~= bookmarks_html_spec(bs));
    }
    out
}

} // verus!
