use qutemarks::db::normalize_tags;
use qutemarks::web::{notes_field, parse_tag_field, tag_pane};

fn strings(v: &[&str]) -> Vec<String> {
    v.iter().map(|s| s.to_string()).collect()
}

#[test]
fn tag_field_is_split_trimmed_and_cleaned() {
    assert_eq!(parse_tag_field(" rust, ,web ,"), strings(&["rust", "web"]));
    assert_eq!(parse_tag_field(""), Vec::<String>::new());
    assert_eq!(parse_tag_field("Read Later"), strings(&["Read Later"]));
}

#[test]
fn every_form_tag_is_linked() {
    let field = " Rust ,Web, ,@Private";
    let parsed = parse_tag_field(field);
    let linked = normalize_tags(&parsed);
    assert_eq!(linked.len(), parsed.len());
    assert_eq!(linked, strings(&["rust", "web", "@private"]));
}

#[test]
fn blank_notes_are_none() {
    assert_eq!(notes_field(""), None);
    assert_eq!(notes_field("  \n\t "), None);
}

#[test]
fn notes_are_kept_as_typed() {
    assert_eq!(notes_field("  keep me \n"), Some("  keep me \n".to_string()));
}

#[test]
fn tag_pane_separates_untagged() {
    let (has, normal) = tag_pane(&strings(&["browser", "rust", "untagged"]));
    assert!(has);
    assert_eq!(normal, strings(&["browser", "rust"]));
}

#[test]
fn tag_pane_without_untagged() {
    let (has, normal) = tag_pane(&strings(&["browser", "Untagged"]));
    assert!(!has);
    assert_eq!(normal, strings(&["browser", "Untagged"]));
}
