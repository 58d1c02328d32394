use notes::frontmatter::{delimiter_line, fetch, frame, split_lines};
use notes::markdown::{File, Metadata, NotesFrontMatter};

#[test]
fn fetch_returns_header_and_body() {
    let note = "---\ntitle: a\ndate: d\n---\n\nbody\nmore\n";
    let (fm, body) = fetch(note).unwrap();
    assert_eq!(fm, "title: a\ndate: d\n");
    assert_eq!(body, vec!["".to_string(), "body".to_string(), "more".to_string()]);
}

#[test]
fn fetch_without_delimiter_is_none() {
    assert!(fetch("title: a\n").is_none());
    assert!(fetch("").is_none());
}

#[test]
fn fetch_skips_lines_before_the_opening_delimiter() {
    let (fm, body) = fetch("junk\n  ---  \nk: v\n").unwrap();
    assert_eq!(fm, "k: v\n");
    assert!(body.is_empty());
}

#[test]
fn fetch_handles_crlf_lines() {
    let (fm, body) = fetch("---\r\nk: v\r\n---\r\nb\r\n").unwrap();
    assert_eq!(fm, "k: v\n");
    assert_eq!(body, vec!["b".to_string()]);
}

#[test]
fn delimiter_allows_surrounding_white_space() {
    assert!(delimiter_line("---"));
    assert!(delimiter_line("\t--- \u{3000}"));
    assert!(!delimiter_line("----"));
    assert!(!delimiter_line("- --"));
}

#[test]
fn lines_split_like_bufread() {
    assert_eq!(split_lines("a\nb"), vec!["a".to_string(), "b".to_string()]);
    assert_eq!(split_lines("a\r\n\nb\r"), vec!["a".to_string(), "".to_string(), "b\r".to_string()]);
    assert!(split_lines("").is_empty());
}

#[test]
fn framed_note_decodes_to_its_header() {
    let yaml = "title: my note\ndate: 2024-01-01T00:00:00Z\ntags:\n- x\n";
    let text = frame(yaml, "body\n");
    assert_eq!(text, format!("---\n{yaml}---\n\nbody\n"));
    let (fm, body) = fetch(&text).unwrap();
    assert_eq!(fm, yaml);
    assert_eq!(body, vec!["".to_string(), "body".to_string()]);
}

#[test]
fn category_argument_splits_into_segments() {
    let m = Metadata::new(Some("work/a//b/"));
    assert_eq!(m.category, Some("work".to_string()));
    assert_eq!(m.subcategories, Some(vec!["a".to_string(), "b".to_string()]));
    assert!(!m.hidden);
    let m = Metadata::new(Some("solo"));
    assert_eq!(m.category, Some("solo".to_string()));
    assert_eq!(m.subcategories, Some(vec![]));
    let m = Metadata::new(None);
    assert_eq!(m.category, None);
    assert_eq!(m.subcategories, None);
}

#[test]
fn front_matter_keeps_its_fields() {
    let h = NotesFrontMatter::new("T".to_string(), Some("a/b"), Some(vec!["x".to_string()]), "D".to_string());
    assert_eq!(h.title, "T");
    assert_eq!(h.date, "D");
    assert_eq!(h.tags, Some(vec!["x".to_string()]));
    assert_eq!(h.notes_metadata.category, Some("a".to_string()));
    assert_eq!(h.notes_metadata.subcategories, Some(vec!["b".to_string()]));
}

#[test]
fn title_reads_dashes_as_spaces_unless_a_timestamp() {
    let f = File::new("my-first-note".to_string(), "/p".to_string(), None, None);
    assert_eq!(f.title(), "my first note");
    let f = File::new("2024-01-01T00:00:00Z".to_string(), "/p".to_string(), None, None);
    assert_eq!(f.title(), "2024-01-01T00:00:00Z");
    let h = f.frontmatter("now".to_string());
    assert_eq!(h.date, "now");
    assert_eq!(h.notes_metadata.category, None);
}
