use qutemarks::db::{
    bookmarks_from_rows, domain_or_url, needs_untagged, normalize_tags, Bookmark, BookmarkRow,
};

fn bookmark(url: &str, notes: Option<&str>) -> Bookmark {
    Bookmark {
        id: 1,
        folder_id: None,
        url: url.to_string(),
        title: "A title".to_string(),
        notes: notes.map(String::from),
        created_at: 100,
        updated_at: 200,
        tags: vec!["rust".to_string()],
    }
}

fn row(tags: Option<&str>) -> BookmarkRow {
    BookmarkRow {
        id: 7,
        folder_id: Some(3),
        url: "https://doc.rust-lang.org/book/".to_string(),
        title: "The Rust Programming Language".to_string(),
        notes: Some("Official Rust Book".to_string()),
        created_at: 10,
        updated_at: 20,
        tags_string: tags.map(String::from),
    }
}

fn strings(v: &[&str]) -> Vec<String> {
    v.iter().map(|s| s.to_string()).collect()
}

#[test]
fn domain_is_the_host_of_the_url() {
    assert_eq!(bookmark("https://github.com/qutebrowser/qutebrowser", None).domain(), "github.com");
    assert_eq!(bookmark("ftp://rms@example.com/pub", None).domain(), "example.com");
    assert_eq!(bookmark("https://127.0.0.1/index.html", None).domain(), "127.0.0.1");
}

#[test]
fn domain_falls_back_to_the_url_when_it_does_not_parse() {
    assert_eq!(bookmark("not a url", None).domain(), "not a url");
    assert_eq!(bookmark("", None).domain(), "");
}

#[test]
fn domain_falls_back_to_the_url_when_there_is_no_host() {
    assert_eq!(bookmark("mailto:someone@example.com", None).domain(), "mailto:someone@example.com");
}

#[test]
fn domain_or_url_prefers_the_host() {
    assert_eq!(domain_or_url("https://a.org/x", Some("a.org".to_string())), "a.org");
    assert_eq!(domain_or_url("https://a.org/x", None), "https://a.org/x");
}

#[test]
fn condensed_notes_drops_blank_lines_and_trailing_space() {
    let b = bookmark("https://x.org", Some("first line   \n\n   \n  second\t\n"));
    assert_eq!(b.condensed_notes(), Some("first line\n  second".to_string()));
}

#[test]
fn condensed_notes_of_no_notes_is_none() {
    assert_eq!(bookmark("https://x.org", None).condensed_notes(), None);
}

#[test]
fn condensed_notes_of_blank_notes_is_empty() {
    assert_eq!(bookmark("https://x.org", Some("")).condensed_notes(), Some(String::new()));
    assert_eq!(bookmark("https://x.org", Some(" \n \n")).condensed_notes(), Some(String::new()));
}

#[test]
fn condensing_twice_is_condensing_once() {
    for notes in ["a \n\n b  \n", "", "\n\n", "x", "  lead\n\ttab\t\n"] {
        let once = bookmark("u", Some(notes)).condensed_notes().unwrap();
        let twice = bookmark("u", Some(&once)).condensed_notes().unwrap();
        assert_eq!(once, twice);
    }
}

#[test]
fn from_row_splits_the_tag_string() {
    let b = Bookmark::from_row(row(Some("rust,browser")));
    assert_eq!(b.tags, strings(&["rust", "browser"]));
    assert_eq!(b.id, 7);
    assert_eq!(b.folder_id, Some(3));
    assert_eq!(b.url, "https://doc.rust-lang.org/book/");
    assert_eq!(b.title, "The Rust Programming Language");
    assert_eq!(b.notes.as_deref(), Some("Official Rust Book"));
    assert_eq!((b.created_at, b.updated_at), (10, 20));
}

#[test]
fn from_row_without_tags_has_no_tags() {
    assert!(Bookmark::from_row(row(None)).tags.is_empty());
}

#[test]
fn from_row_with_empty_tag_string_has_one_empty_tag() {
    assert_eq!(Bookmark::from_row(row(Some(""))).tags, strings(&[""]));
}

#[test]
fn bookmarks_from_rows_keeps_order() {
    let mut second = row(Some("web"));
    second.id = 8;
    let bs = bookmarks_from_rows(vec![row(None), second]);
    assert_eq!(bs.len(), 2);
    assert_eq!(bs[0].id, 7);
    assert_eq!(bs[1].id, 8);
    assert_eq!(bs[1].tags, strings(&["web"]));
}

#[test]
fn normalize_tags_trims_lowercases_and_drops_blanks() {
    let tags = strings(&[" Rust ", "", "   ", "BROWSER", "École"]);
    assert_eq!(normalize_tags(&tags), strings(&["rust", "browser", "école"]));
}

#[test]
fn normalize_tags_of_blanks_is_empty() {
    assert!(normalize_tags(&strings(&[" ", "\t"])).is_empty());
    assert!(normalize_tags(&Vec::new()).is_empty());
}

#[test]
fn untagged_is_needed_only_without_links() {
    assert!(needs_untagged(0));
    assert!(!needs_untagged(1));
    assert!(!needs_untagged(3));
}
