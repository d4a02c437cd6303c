//! The settings page's data formats: the CSV and Netscape-HTML exports of the
//! bookmark list, and the anchors that an HTML bookmark file imports.

use vstd::prelude::*;
use crate::db::Bookmark;
use crate::text::{chars_of, decimal, decimal_string, join, join_with, string_of, views};

verus! {

/// The settings page; it shows no data.
pub struct SettingsTemplate {}

// ---------------------------------------------------------------- CSV

/// Whether the `csv` writer quotes a field: when it holds a comma, a double
/// quote, a carriage return or a line feed.
pub open spec fn needs_quotes(f: Seq<char>) -> bool {
    f.contains(',') || f.contains('"') || f.contains('\r') || f.contains('\n')
}

/// `f` with every double quote doubled.
pub open spec fn double_quotes(f: Seq<char>) -> Seq<char>
    decreases f.len(),
{
    if f.len() == 0 {
        Seq::<char>::empty()
    } else if f.last() == '"' {
        double_quotes(f.drop_last()) + seq!['"', '"']
    } else {
        double_quotes(f.drop_last()).push(f.last())
    }
}

/// One field as the `csv` writer writes it.
pub open spec fn csv_field(f: Seq<char>) -> Seq<char> {
    if needs_quotes(f) {
        seq!['"'] + double_quotes(f) + seq!['"']
    } else {
        f
    }
}

/// One record as the `csv` writer writes it with its default settings: the
/// fields separated by commas and ended by a line feed; a record that would
/// otherwise be empty is written as a quoted empty field.
pub open spec fn csv_line(fields: Seq<Seq<char>>) -> Seq<char> {
    if fields.len() == 0 || (fields.len() == 1 && fields[0].len() == 0) {
        seq!['"', '"', '\n']
    } else {
        join(fields.map_values(|f: Seq<char>| csv_field(f)), seq![',']) + seq!['\n']
    }
}

/// Calls `csv::Writer::write_record` on a writer made by
/// `csv::Writer::from_writer` over an empty `Vec<u8>`, and returns what
/// `into_inner` hands back, as text. The contract states the writer's default
/// output format (`QuoteStyle::Necessary`, `,` delimiter, `"` quote doubled,
/// `\n` terminator), as its source shows it. Writing into a `Vec` cannot fail,
/// and the writer adds only ASCII bytes around valid UTF-8, so the error
/// branches are never taken.
#[verifier::external_body]
fn csv_record(fields: &Vec<String>) -> (r: String)
    ensures
        r@ == csv_line(views(fields@)),
{
    let mut writer = csv::Writer::from_writer(Vec::new());
    if writer.write_record(fields).is_err() {
        return String::new();
    }
    match writer.into_inner() {
        Ok(bytes) => String::from_utf8(bytes).unwrap_or_default(),
        Err(_) => String::new(),
    }
}

/// The notes of a bookmark, or the empty string.
pub open spec fn notes_or_empty(notes: Option<String>) -> Seq<char> {
    match notes {
        Some(n) => n@,
        None => Seq::<char>::empty(),
    }
}

/// The header record of the CSV export.
pub open spec fn csv_header() -> Seq<Seq<char>> {
    seq!["id"@, "url"@, "title"@, "tags"@, "notes"@, "created_at"@]
}

/// The CSV record of one bookmark: id, url, title, comma-joined tags, notes
/// (empty when none), creation time.
pub open spec fn csv_row(b: Bookmark) -> Seq<Seq<char>> {
    seq![
        decimal(b.id as int),
        b.url@,
        b.title@,
        join(views(b.tags@), seq![',']),
        notes_or_empty(b.notes),
        decimal(b.created_at as int),
    ]
}

/// The CSV records of the given bookmarks, in order.
pub open spec fn csv_rows(bs: Seq<Bookmark>) -> Seq<char>
    decreases bs.len(),
{
    if bs.len() == 0 {
        Seq::<char>::empty()
    } else {
        csv_rows(bs.drop_last()) + csv_line(csv_row(bs.last()))
    }
}

/// The whole CSV export: the header record, then one record per bookmark.
pub open spec fn csv_document(bs: Seq<Bookmark>) -> Seq<char> {
    csv_line(csv_header()) + csv_rows(bs)
}

fn text(s: &str) -> (r: String)
    ensures
        r@ == s@,
{
    string_of(&chars_of(s))
}

/// The fields of one bookmark's CSV record.
pub fn csv_fields(b: &Bookmark) -> (r: Vec<String>)
    ensures
        views(r@) == csv_row(*b),
{
    let mut r: Vec<String> = Vec::new();
    r.push(decimal_string(b.id));
    r.push(b.url.clone());
    r.push(b.title.clone());
    r.push(join_with(&b.tags, ","));
    match &b.notes {
        Some(n) => r.push(n.clone()),
        None => r.push(String::new()),
    }
    r.push(decimal_string(b.created_at));
    proof {
        reveal_strlit(",");
    }
    assert(","@ =~= seq![',']);
    assert(views(r@) =~= csv_row(*b));
    r
}

/// The CSV export of the bookmark list.
pub fn export_csv(bookmarks: &Vec<Bookmark>) -> (r: String)
    ensures
        r@ == csv_document(bookmarks@),
{
    let mut header: Vec<String> = Vec::new();
    header.push(text("id"));
    header.push(text("url"));
    header.push(text("title"));
    header.push(text("tags"));
    header.push(text("notes"));
    header.push(text("created_at"));
    assert(views(header@) =~= csv_header());
    let mut out = csv_record(&header);
    let ghost bs = bookmarks@;
    assert(bs.take(0) =~= Seq::<Bookmark>::empty());
    for i in 0..bookmarks.len()
        invariant
            bs == bookmarks@,
            out@ == csv_line(csv_header()) + csv_rows(bs.take(i as int)),
    {
        assert(bs.take(i + 1).drop_last() =~= bs.take(i as int));
        let line = csv_record(&csv_fields(&bookmarks[i]));
        out.append(line.as_str());
        assert(out@ =~= csv_line(csv_header()) + csv_rows(bs.take(i + 1)));
    }
    assert(bs.take(bookmarks.len() as int) =~= bs);
    out
}

// ---------------------------------------------------------------- HTML

/// The opening of the Netscape bookmark file.
pub open spec fn html_head() -> Seq<char> {
    "<!DOCTYPE NETSCAPE-Bookmark-file-1>\n<META HTTP-EQUIV=\"Content-Type\" CONTENT=\"text/html; charset=UTF-8\">\n<TITLE>Bookmarks</TITLE>\n<H1>Bookmarks</H1>\n<DL><p>\n"@
}

/// The close of the Netscape bookmark file.
pub open spec fn html_foot() -> Seq<char> {
    "</DL><p>\n"@
}

/// The `TAGS` attribute of an entry: absent when the joined tags are empty.
pub open spec fn tags_attr(b: Bookmark) -> Seq<char> {
    let tags = join(views(b.tags@), seq![',']);
    if tags.len() == 0 {
        Seq::<char>::empty()
    } else {
        " TAGS=\""@ + tags + "\""@
    }
}

/// The `<DD>` line of an entry, present only when the bookmark has notes.
pub open spec fn notes_line(b: Bookmark) -> Seq<char> {
    match b.notes {
        Some(n) => "    <DD>"@ + n@ + "\n"@,
        None => Seq::<char>::empty(),
    }
}

/// One bookmark's entry: its anchor line, then its notes line if any. Text is
/// written as stored, without escaping.
pub open spec fn html_entry(b: Bookmark) -> Seq<char> {
    "    <DT><A HREF=\""@ + b.url@ + "\" ADD_DATE=\""@ + decimal(b.created_at as int) + "\""@
        + tags_attr(b) + ">"@ + b.title@ + "</A>\n"@ + notes_line(b)
}

/// The entries of the given bookmarks, in order.
pub open spec fn html_entries(bs: Seq<Bookmark>) -> Seq<char>
    decreases bs.len(),
{
    if bs.len() == 0 {
        Seq::<char>::empty()
    } else {
        html_entries(bs.drop_last()) + html_entry(bs.last())
    }
}

/// The whole HTML export.
pub open spec fn html_document(bs: Seq<Bookmark>) -> Seq<char> {
    html_head() + html_entries(bs) + html_foot()
}

fn append_entry(out: &mut String, b: &Bookmark)
    ensures
        final(out)@ == old(out)@ + html_entry(*b),
{
    let tags = join_with(&b.tags, ",");
    proof {
        reveal_strlit(",");
    }
    assert(","@ =~= seq![',']);
    out.append("    <DT><A HREF=\"");
    out.append(b.url.as_str());
    out.append("\" ADD_DATE=\"");
    out.append(decimal_string(b.created_at).as_str());
    out.append("\"");
    if !tags.as_str().is_empty() {
        out.append(" TAGS=\"");
        out.append(tags.as_str());
        out.append("\"");
    }
    out.append(">");
    out.append(b.title.as_str());
    out.append("</A>\n");
    match &b.notes {
        Some(n) => {
            out.append("    <DD>");
            out.append(n.as_str());
            out.append("\n");
        },
        None => {},
    }
    assert(final(out)@ =~= old(out)@ + html_entry(*b));
}

/// The Netscape-HTML export of the bookmark list.
pub fn export_html(bookmarks: &Vec<Bookmark>) -> (r: String)
    ensures
        r@ == html_document(bookmarks@),
{
    let mut out = text(
        "<!DOCTYPE NETSCAPE-Bookmark-file-1>\n<META HTTP-EQUIV=\"Content-Type\" CONTENT=\"text/html; charset=UTF-8\">\n<TITLE>Bookmarks</TITLE>\n<H1>Bookmarks</H1>\n<DL><p>\n",
    );
    let ghost bs = bookmarks@;
    assert(bs.take(0) =~= Seq::<Bookmark>::empty());
    for i in 0..bookmarks.len()
        invariant
            bs == bookmarks@,
            out@ == html_head() + html_entries(bs.take(i as int)),
    {
        assert(bs.take(i + 1).drop_last() =~= bs.take(i as int));
        append_entry(&mut out, &bookmarks[i]);
        assert(out@ =~= html_head() + html_entries(bs.take(i + 1)));
    }
    assert(bs.take(bookmarks.len() as int) =~= bs);
    out.append("</DL><p>\n");
    out
}

// ---------------------------------------------------------------- import

/// The pattern that finds `<A ... HREF="url" ...>title</A>` anchors,
/// case-insensitively; group 1 is the URL, group 2 the title.
pub const ANCHOR_PATTERN: &'static str = r#"(?i)<A\s+[^>]*HREF="([^"]+)"[^>]*>([^<]*)</A>"#;

/// The successive non-overlapping matches of the regular expression `pattern`
/// in `haystack` as the `regex` crate finds them, each given as its capture
/// groups (group 0 first; `None` for a group that took no part in the match);
/// `None` when `pattern` does not compile.
pub uninterp spec fn regex_captures(pattern: Seq<char>, haystack: Seq<char>) -> Option<
    Seq<Seq<Option<Seq<char>>>>,
>;

/// The text views of one match's capture groups.
pub open spec fn group_views(m: Seq<Option<String>>) -> Seq<Option<Seq<char>>> {
    m.map_values(
        |g: Option<String>|
            match g {
                Some(s) => Some(s@),
                None => None,
            },
    )
}

/// The text views of a list of matches.
pub open spec fn match_views(ms: Seq<Vec<Option<String>>>) -> Seq<Seq<Option<Seq<char>>>> {
    ms.map_values(|m: Vec<Option<String>>| group_views(m@))
}

/// Calls `regex::Regex::new(pattern)` and, when it compiles,
/// `Regex::captures_iter(haystack)`, turning every capture group of every match
/// into an owned string. The result is named `regex_captures`; nothing else is
/// stated of it.
#[verifier::external_body]
fn captures_all(pattern: &str, haystack: &str) -> (r: Option<Vec<Vec<Option<String>>>>)
    ensures
        match r {
            Some(ms) => regex_captures(pattern@, haystack@) == Some(match_views(ms@)),
            None => regex_captures(pattern@, haystack@) is None,
        },
{
    match regex::Regex::new(pattern) {
        Ok(re) => Some(
            re.captures_iter(haystack).map(
                |caps| caps.iter().map(|g| g.map(|m| m.as_str().to_string())).collect(),
            ).collect(),
        ),
        Err(_) => None,
    }
}

/// The (url, title) pairs that a list of anchor matches yields, in order: one
/// per match whose groups 1 and 2 both took part.
pub open spec fn anchors_of(ms: Seq<Seq<Option<Seq<char>>>>) -> Seq<(Seq<char>, Seq<char>)>
    decreases ms.len(),
{
    if ms.len() == 0 {
        Seq::<(Seq<char>, Seq<char>)>::empty()
    } else {
        let r = anchors_of(ms.drop_last());
        let m = ms.last();
        if m.len() >= 3 && m[1] is Some && m[2] is Some {
            r.push((m[1]->0, m[2]->0))
        } else {
            r
        }
    }
}

/// The text views of (url, title) pairs.
pub open spec fn pair_views(v: Seq<(String, String)>) -> Seq<(Seq<char>, Seq<char>)> {
    v.map_values(|p: (String, String)| (p.0@, p.1@))
}

/// The (url, title) pairs named by anchor matches.
pub fn anchors_from_captures(matches: &Vec<Vec<Option<String>>>) -> (r: Vec<(String, String)>)
    ensures
        pair_views(r@) == anchors_of(match_views(matches@)),
{
    let ghost ms = match_views(matches@);
    let mut r: Vec<(String, String)> = Vec::new();
    assert(ms.take(0) =~= Seq::<Seq<Option<Seq<char>>>>::empty());
    for i in 0..matches.len()
        invariant
            ms == match_views(matches@),
            pair_views(r@) == anchors_of(ms.take(i as int)),
    {
        assert(ms.take(i + 1).drop_last() =~= ms.take(i as int));
        let m = &matches[i];
        assert(ms.take(i + 1).last() == group_views(m@));
        let ghost r0 = r@;
        if m.len() >= 3 {
            match (&m[1], &m[2]) {
                (Some(url), Some(title)) => {
                    r.push((url.clone(), title.clone()));
                    assert(pair_views(r@) =~= pair_views(r0).push((url@, title@)));
                },
                _ => {},
            }
        }
    }
    assert(ms.take(matches.len() as int) =~= ms);
    r
}

/// The (url, title) pairs of the anchors in an HTML bookmark file, in the
/// order they appear.
pub fn import_html(text: &str) -> (r: Vec<(String, String)>)
    ensures
        pair_views(r@) == match regex_captures(ANCHOR_PATTERN@, text@) {
            Some(ms) => anchors_of(ms),
            None => Seq::<(Seq<char>, Seq<char>)>::empty(),
        },
{
    match captures_all(ANCHOR_PATTERN, text) {
        Some(ms) => anchors_from_captures(&ms),
        None => {
            let r: Vec<(String, String)> = Vec::new();
            assert(pair_views(r@) =~= Seq::<(Seq<char>, Seq<char>)>::empty());
            r
        },
    }
}

} // verus!
