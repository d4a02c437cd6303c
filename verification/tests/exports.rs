use qutemarks::db::{Bookmark, BookmarkRow};
use qutemarks::settings::{anchors_from_captures, csv_fields, export_csv, export_html, import_html};

fn bookmark(id: i64, url: &str, title: &str, tags: &[&str], notes: Option<&str>, created: i64) -> Bookmark {
    Bookmark {
        id,
        folder_id: None,
        url: url.to_string(),
        title: title.to_string(),
        notes: notes.map(String::from),
        created_at: created,
        updated_at: created,
        tags: tags.iter().map(|s| s.to_string()).collect(),
    }
}

#[test]
fn csv_of_no_bookmarks_is_the_header() {
    assert_eq!(export_csv(&Vec::new()), "id,url,title,tags,notes,created_at\n");
}

#[test]
fn csv_quotes_only_where_needed() {
    let bs = vec![
        bookmark(1, "https://x.org", "Title, with comma", &["rust", "web"], Some("say \"hi\""), 100),
        bookmark(2, "https://y.org", "Plain", &[], None, -5),
    ];
    assert_eq!(
        export_csv(&bs),
        "id,url,title,tags,notes,created_at\n\
         1,https://x.org,\"Title, with comma\",\"rust,web\",\"say \"\"hi\"\"\",100\n\
         2,https://y.org,Plain,,,-5\n"
    );
}

#[test]
fn csv_quotes_line_breaks() {
    let bs = vec![bookmark(3, "u", "t", &["a"], Some("l1\nl2\r"), 0)];
    assert_eq!(export_csv(&bs), "id,url,title,tags,notes,created_at\n3,u,t,a,\"l1\nl2\r\",0\n");
}

#[test]
fn csv_fields_of_a_bookmark() {
    let b = bookmark(9, "u", "t", &["a", "b"], None, 42);
    assert_eq!(csv_fields(&b), vec!["9", "u", "t", "a,b", "", "42"]);
}

#[test]
fn html_export_lists_every_bookmark() {
    let bs = vec![
        bookmark(1, "https://x.org", "X", &["rust", "web"], Some("note"), 100),
        bookmark(2, "https://y.org", "Y", &[], None, 5),
    ];
    let expected = "<!DOCTYPE NETSCAPE-Bookmark-file-1>\n\
        <META HTTP-EQUIV=\"Content-Type\" CONTENT=\"text/html; charset=UTF-8\">\n\
        <TITLE>Bookmarks</TITLE>\n\
        <H1>Bookmarks</H1>\n\
        <DL><p>\n    <DT><A HREF=\"https://x.org\" ADD_DATE=\"100\" TAGS=\"rust,web\">X</A>\n    <DD>note\n    <DT><A HREF=\"https://y.org\" ADD_DATE=\"5\">Y</A>\n</DL><p>\n";
    assert_eq!(export_html(&bs), expected);
}

#[test]
fn html_export_omits_empty_tag_attribute() {
    let bs = vec![bookmark(1, "u", "t", &[""], None, 1)];
    assert!(!export_html(&bs).contains("TAGS"));
}

#[test]
fn stored_tag_string_survives_row_and_export() {
    let row = BookmarkRow {
        id: 1,
        folder_id: None,
        url: "u".to_string(),
        title: "t".to_string(),
        notes: None,
        created_at: 0,
        updated_at: 0,
        tags_string: Some("a,,b".to_string()),
    };
    let b = Bookmark::from_row(row);
    assert_eq!(csv_fields(&b)[3], "a,,b");
    assert!(export_html(&vec![b]).contains(" TAGS=\"a,,b\">"));
}

#[test]
fn import_finds_anchors_in_order() {
    let text = "<DL><p>\n<DT><A HREF=\"https://a.com\" ADD_DATE=\"1\">First</A>\n\
                <dt><a   href=\"https://b.com\">second one</a>\n<A HREF=\"\">empty</A>";
    assert_eq!(
        import_html(text),
        vec![
            ("https://a.com".to_string(), "First".to_string()),
            ("https://b.com".to_string(), "second one".to_string()),
        ]
    );
}

#[test]
fn import_of_plain_text_finds_nothing() {
    assert!(import_html("no anchors here").is_empty());
}

#[test]
fn import_reads_an_export() {
    let bs = vec![bookmark(1, "https://x.org/p?q=1", "X site", &["t"], Some("n"), 3)];
    assert_eq!(import_html(&export_html(&bs)), vec![("https://x.org/p?q=1".to_string(), "X site".to_string())]);
}

#[test]
fn anchors_need_both_groups() {
    let ms = vec![
        vec![Some("whole".to_string()), Some("u1".to_string()), Some("t1".to_string())],
        vec![Some("whole".to_string()), None, Some("t2".to_string())],
        vec![Some("whole".to_string())],
        vec![Some("whole".to_string()), Some("u3".to_string()), Some("".to_string())],
    ];
    assert_eq!(
        anchors_from_captures(&ms),
        vec![("u1".to_string(), "t1".to_string()), ("u3".to_string(), "".to_string())]
    );
}
