//! The stored records (bookmarks, pinned URLs) and the decisions taken around
//! the database: how a row becomes a bookmark, how tags are normalised before
//! they are linked, and when the `untagged` tag is attached.

use vstd::prelude::*;
use crate::text::{
    chars_of, is_ws, join, join_with, lowercase, split, split_by, string_of, to_lowercase, trim,
    trim_end, trim_end_str, trim_str, views, lemma_join_split, lemma_split_join,
    lemma_split_pieces_free_of_sep, lemma_trim_end_shape,
};

verus! {

/// A saved link with its metadata and tags.
pub struct Bookmark {
    pub id: i64,
    pub folder_id: Option<i64>,
    pub url: String,
    pub title: String,
    pub notes: Option<String>,
    pub created_at: i64,
    pub updated_at: i64,
    pub tags: Vec<String>,
}

/// A URL pinned to the start page.
pub struct PinnedUrl {
    pub id: i64,
    pub url: String,
    pub title: String,
    pub created_at: i64,
}

/// One row of the bookmark listing query: the bookmark's columns and its tag
/// names as the database concatenates them (`GROUP_CONCAT(name, ',')`).
pub struct BookmarkRow {
    pub id: i64,
    pub folder_id: Option<i64>,
    pub url: String,
    pub title: String,
    pub notes: Option<String>,
    pub created_at: i64,
    pub updated_at: i64,
    pub tags_string: Option<String>,
}

/// `b` is the bookmark that `row` describes: the same columns, and the tags
/// of the row's concatenated tag string.
pub open spec fn describes(row: BookmarkRow, b: Bookmark) -> bool {
    &&& b.id == row.id
    &&& b.folder_id == row.folder_id
    &&& b.url == row.url
    &&& b.title == row.title
    &&& b.notes == row.notes
    &&& b.created_at == row.created_at
    &&& b.updated_at == row.updated_at
    &&& views(b.tags@) == row_tags(row.tags_string)
}

/// The host that the `url` crate finds in `url` when it parses it as an
/// absolute URL; `None` when parsing fails or the URL has no host.
pub uninterp spec fn url_host(url: Seq<char>) -> Option<Seq<char>>;

/// What a bookmark shows as its domain: the URL's host, or the whole URL when
/// there is none.
pub open spec fn domain_of(url: Seq<char>) -> Seq<char> {
    match url_host(url) {
        Some(h) => h,
        None => url,
    }
}

/// Calls `url::Url::parse` and then `Url::host_str` on the parsed URL. The
/// result is named `url_host`; nothing else is stated of it.
#[verifier::external_body]
fn host_of(url: &str) -> (r: Option<String>)
    ensures
        match r {
            Some(h) => url_host(url@) == Some(h@),
            None => url_host(url@) is None,
        },
{
    match url::Url::parse(url) {
        Ok(parsed) => parsed.host_str().map(|h| h.to_string()),
        Err(_) => None,
    }
}

/// The domain to display for `url`, given the host found in it (if any).
pub fn domain_or_url(url: &str, host: Option<String>) -> (r: String)
    ensures
        r@ == match host {
            Some(h) => h@,
            None => url@,
        },
{
    match host {
        Some(h) => h,
        None => string_of(&chars_of(url)),
    }
}

/// The lines of a note that survive condensing: each line loses its trailing
/// whitespace, and lines left empty are dropped.
pub open spec fn kept_lines(lines: Seq<Seq<char>>) -> Seq<Seq<char>>
    decreases lines.len(),
{
    if lines.len() == 0 {
        Seq::<Seq<char>>::empty()
    } else {
        let r = kept_lines(lines.drop_last());
        let t = trim_end(lines.last());
        if t.len() > 0 {
            r.push(t)
        } else {
            r
        }
    }
}

/// A note condensed for display: blank lines removed, trailing whitespace cut.
pub open spec fn condense(notes: Seq<char>) -> Seq<char> {
    join(kept_lines(split(notes, '\n')), seq!['\n'])
}

/// The tags of a row: its concatenated tag string split at commas, or none.
pub open spec fn row_tags(tags_string: Option<String>) -> Seq<Seq<char>> {
    match tags_string {
        Some(s) => split(s@, ','),
        None => Seq::<Seq<char>>::empty(),
    }
}

/// The tags that get linked to a bookmark: each given tag trimmed and
/// lowercased, in order, leaving out those that end up empty.
pub open spec fn normalized_tags(tags: Seq<Seq<char>>) -> Seq<Seq<char>>
    decreases tags.len(),
{
    if tags.len() == 0 {
        Seq::<Seq<char>>::empty()
    } else {
        let r = normalized_tags(tags.drop_last());
        let t = lowercase(trim(tags.last()));
        if t.len() > 0 {
            r.push(t)
        } else {
            r
        }
    }
}

/// How many of the given tags are not blank once trimmed.
pub open spec fn count_nonblank(tags: Seq<Seq<char>>) -> nat
    decreases tags.len(),
{
    if tags.len() == 0 {
        0
    } else if trim(tags.last()).len() > 0 {
        count_nonblank(tags.drop_last()) + 1
    } else {
        count_nonblank(tags.drop_last())
    }
}

proof fn lemma_normalized_len(tags: Seq<Seq<char>>, r: Seq<Seq<char>>, t: Seq<char>)
    requires
        r == normalized_tags(tags.drop_last()),
        t == lowercase(trim(tags.last())),
        r.len() == count_nonblank(tags.drop_last()),
        tags.len() > 0,
        t.len() == 0 <==> trim(tags.last()).len() == 0,
    ensures
        normalized_tags(tags).len() == count_nonblank(tags),
{
}

fn condense_text(n: &str) -> (r: String)
    ensures
        r@ == condense(n@),
{
    let lines = split_by(n, '\n');
    let mut kept: Vec<String> = Vec::new();
    let ghost ls = views(lines@);
    assert(ls.take(0) =~= Seq::<Seq<char>>::empty());
    for i in 0..lines.len()
        invariant
            ls == views(lines@),
            views(kept@) == kept_lines(ls.take(i as int)),
    {
        assert(ls.take(i + 1).drop_last() =~= ls.take(i as int));
        let t = trim_end_str(lines[i].as_str());
        let ghost k0 = kept@;
        if !t.as_str().is_empty() {
            kept.push(t);
            assert(views(kept@) =~= views(k0).push(kept@.last()@));
        }
    }
    assert(ls.take(lines.len() as int) =~= ls);
    proof {
        reveal_strlit("\n");
    }
    assert("\n"@ =~= seq!['\n']);
    join_with(&kept, "\n")
}

impl Bookmark {
    /// The host of the bookmark's URL, or the URL itself when it has none.
    pub fn domain(&self) -> (r: String)
        ensures
            r@ == domain_of(self.url@),
    {
        domain_or_url(self.url.as_str(), host_of(self.url.as_str()))
    }

    /// The notes without blank lines and without trailing whitespace on any
    /// line; `None` when there are no notes.
    pub fn condensed_notes(&self) -> (r: Option<String>)
        ensures
            match self.notes {
                Some(n) => r matches Some(c) && c@ == condense(n@),
                None => r is None,
            },
    {
        match &self.notes {
            Some(n) => Some(condense_text(n.as_str())),
            None => None,
        }
    }

    /// The bookmark that a listing row describes.
    pub fn from_row(row: BookmarkRow) -> (b: Bookmark)
        ensures
            describes(row, b),
    {
        let tags = match &row.tags_string {
            Some(s) => split_by(s.as_str(), ','),
            None => Vec::new(),
        };
        proof {
            if row.tags_string is None {
                assert(views(tags@) =~= Seq::<Seq<char>>::empty());
            }
        }
        Bookmark {
            id: row.id,
            folder_id: row.folder_id,
            url: row.url,
            title: row.title,
            notes: row.notes,
            created_at: row.created_at,
            updated_at: row.updated_at,
            tags,
        }
    }
}

/// The bookmarks that the rows of a listing describe, in the same order.
pub fn bookmarks_from_rows(rows: Vec<BookmarkRow>) -> (r: Vec<Bookmark>)
    ensures
        r@.len() == rows@.len(),
        forall|i: int| 0 <= i < rows@.len() ==> describes(rows@[i], #[trigger] r@[i]),
{
    let ghost rs = rows@;
    let mut r: Vec<Bookmark> = Vec::new();
    for row in it: rows
        invariant
            it.seq() == rs,
            r@.len() == it.index(),
            forall|i: int| 0 <= i < r@.len() ==> describes(rs[i], #[trigger] r@[i]),
    {
        r.push(Bookmark::from_row(row));
    }
    r
}

/// The tags to link when a bookmark's tags are replaced: every tag trimmed and
/// lowercased, in order, without those left empty.
pub fn normalize_tags(tags: &Vec<String>) -> (r: Vec<String>)
    ensures
        views(r@) == normalized_tags(views(tags@)),
        r@.len() == count_nonblank(views(tags@)),
{
    let mut r: Vec<String> = Vec::new();
    let ghost ts = views(tags@);
    assert(ts.take(0) =~= Seq::<Seq<char>>::empty());
    for i in 0..tags.len()
        invariant
            ts == views(tags@),
            views(r@) == normalized_tags(ts.take(i as int)),
            r@.len() == count_nonblank(ts.take(i as int)),
    {
        assert(ts.take(i + 1).drop_last() =~= ts.take(i as int));
        let trimmed = trim_str(tags[i].as_str());
        let t = to_lowercase(trimmed.as_str());
        let ghost r0 = r@;
        proof {
            lemma_normalized_len(ts.take(i + 1), views(r0), t@);
        }
        if !t.as_str().is_empty() {
            r.push(t);
            assert(views(r@) =~= views(r0).push(r@.last()@));
        }
    }
    assert(ts.take(tags.len() as int) =~= ts);
    r
}

/// Whether a bookmark that has `link_count` tag links must be given the
/// `untagged` tag: exactly when it has none.
pub fn needs_untagged(link_count: i64) -> (b: bool)
    ensures
        b == (link_count == 0),
{
    link_count == 0
}

proof fn lemma_kept_lines_shape(lines: Seq<Seq<char>>)
    requires
        forall|i: int| 0 <= i < lines.len() ==> !(#[trigger] lines[i]).contains('\n'),
    ensures
        forall|i: int|
            0 <= i < kept_lines(lines).len() ==> {
                &&& (#[trigger] kept_lines(lines)[i]).len() > 0
                &&& !kept_lines(lines)[i].contains('\n')
                &&& !is_ws(kept_lines(lines)[i].last())
            },
    decreases lines.len(),
{
    if lines.len() > 0 {
        let init = lines.drop_last();
        assert forall|i: int| 0 <= i < init.len() implies !(#[trigger] init[i]).contains('\n') by {
            assert(init[i] == lines[i]);
        }
        lemma_kept_lines_shape(init);
        let l = lines.last();
        let t = trim_end(l);
        lemma_trim_end_shape(l);
        assert(!l.contains('\n')) by {
            assert(l == lines[lines.len() - 1]);
        }
        assert(!t.contains('\n')) by {
            if t.contains('\n') {
                let k = choose|k: int| 0 <= k < t.len() && t[k] == '\n';
                assert(l[k] == '\n');
            }
        }
        let prev = kept_lines(init);
        let kl = kept_lines(lines);
        assert forall|i: int| 0 <= i < kl.len() implies {
            &&& (#[trigger] kl[i]).len() > 0
            &&& !kl[i].contains('\n')
            &&& !is_ws(kl[i].last())
        } by {
            if i < prev.len() {
                assert(kl[i] == prev[i]);
            } else {
                assert(kl[i] == t);
            }
        }
    }
}

proof fn lemma_kept_lines_fixed(lines: Seq<Seq<char>>)
    requires
        forall|i: int|
            0 <= i < lines.len() ==> (#[trigger] lines[i]).len() > 0 && !is_ws(lines[i].last()),
    ensures
        kept_lines(lines) == lines,
    decreases lines.len(),
{
    if lines.len() > 0 {
        let init = lines.drop_last();
        assert forall|i: int|
            0 <= i < init.len() implies (#[trigger] init[i]).len() > 0 && !is_ws(init[i].last()) by {
            assert(init[i] == lines[i]);
        }
        lemma_kept_lines_fixed(init);
        let l = lines.last();
        assert(l == lines[lines.len() - 1]);
        assert(trim_end(l) == l);
        assert(init.push(l) =~= lines);
    }
}

/// Condensing a note that is already condensed changes nothing.
pub proof fn lemma_condense_idempotent(notes: Seq<char>)
    ensures
        condense(condense(notes)) == condense(notes),
{
    let pieces = split(notes, '\n');
    lemma_split_pieces_free_of_sep(notes, '\n');
    lemma_kept_lines_shape(pieces);
    let kept = kept_lines(pieces);
    if kept.len() == 0 {
        let e = Seq::<char>::empty();
        assert(condense(notes) == e);
        assert(split(e, '\n') =~= seq![e]);
        assert(seq![e].drop_last() =~= Seq::<Seq<char>>::empty());
        assert(trim_end(e) == e);
        assert(seq![e].last() == e);
        assert(kept_lines(Seq::<Seq<char>>::empty()) == Seq::<Seq<char>>::empty());
        assert(kept_lines(seq![e]) =~= Seq::<Seq<char>>::empty());
    } else {
        lemma_split_join(kept, '\n');
        lemma_kept_lines_fixed(kept);
    }
}

/// The tags read from a row, joined again with commas (as both exports write
/// them), give back the concatenated tag string the row held.
pub proof fn lemma_row_tags_rejoin(tags_string: String)
    ensures
        join(row_tags(Some(tags_string)), seq![',']) == tags_string@,
{
    lemma_join_split(tags_string@, ',');
}

} // verus!
