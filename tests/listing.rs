use notes::cli::Commands;
use notes::error::NotesError;
use notes::index::OrderedIndex;
use notes::list::{compute_name_and_tag_widths, path_name_width, tags_width, ListCommand, ListEntry, Listing};
use notes::markdown::{Metadata, NotesFrontMatter};
use notes::render::{categories, full, short, show_path};
use notes::system::{Configuration, Options, Settings};
use notes::walker::{is_note, keep_note, without_extension, Child, Walker};

const ROOT: &str = "/home/u/.local/share/notes/stacks/main";

fn header(date: &str, category: Option<&str>, tags: Option<Vec<&str>>, hidden: bool) -> NotesFrontMatter {
    NotesFrontMatter {
        title: "t".to_string(),
        date: date.to_string(),
        tags: tags.map(|t| t.into_iter().map(|s| s.to_string()).collect()),
        notes_metadata: Metadata {
            category: category.map(|s| s.to_string()),
            subcategories: None,
            hidden,
        },
    }
}

fn entry(path: &str, date: &str, category: Option<&str>, tags: Option<Vec<&str>>, hidden: bool) -> ListEntry {
    ListEntry {
        path: path.to_string(),
        frontmatter: header(date, category, tags, hidden),
        contents: vec!["body line".to_string()],
    }
}

fn conf(hide_root: Option<&str>) -> Configuration {
    Configuration {
        settings: Settings { path: ROOT.to_string(), editor: None },
        options: Some(Options { hide_root: hide_root.map(|s| s.to_string()) }),
    }
}

fn list_args(root: bool, categories: bool, full: bool, short: bool, category: Option<&str>) -> Commands {
    Commands::List {
        root,
        categories,
        notebooks: false,
        full,
        short,
        category: category.map(|s| s.to_string()),
    }
}

fn lines(l: Listing) -> Vec<String> {
    match l {
        Listing::Lines(v) => v,
        _ => panic!("expected plain lines"),
    }
}

#[test]
fn default_mode_lists_newest_first() {
    let c = conf(None);
    let mut cmd = ListCommand::new(list_args(false, false, false, false, None), &c);
    let a = format!("{ROOT}/work/a.md");
    let b = format!("{ROOT}/personal/b.md");
    cmd.add_entry(entry(&a, "2024-01-01T00:00:00Z", Some("work"), Some(vec!["x"]), false));
    cmd.add_entry(entry(&b, "2024-06-01T00:00:00Z", Some("personal"), None, false));
    let out = lines(cmd.render("/home/u/.local/share/notes", false).ok().unwrap());
    assert_eq!(out, vec![b, a]);
}

#[test]
fn hidden_note_matching_filter_prints_nothing() {
    let c = conf(None);
    let cmd = ListCommand::new(list_args(false, false, false, false, Some("secret")), &c);
    let mut w = cmd.walker().unwrap();
    let dir = w.next_dir().unwrap();
    assert_eq!(dir, ROOT);
    let path = format!("{ROOT}/secret.md");
    w.visit(&vec![Child { path: path.clone(), is_dir: false }]);
    assert!(w.next_dir().is_none());
    let found = w.into_notes();
    assert_eq!(found, vec![path.clone()]);
    let mut cmd = cmd;
    cmd.add_entry(entry(&path, "2024-01-01T00:00:00Z", Some("x"), Some(vec!["tag"]), true));
    let out = lines(cmd.render("/home/u/.local/share/notes", false).ok().unwrap());
    assert!(out.is_empty());
}

#[test]
fn categories_mode_prints_each_category_once() {
    let c = conf(None);
    let mut cmd = ListCommand::new(list_args(false, true, false, false, None), &c);
    cmd.add_entry(entry("/n/notes/work/a.md", "2024-01-01T00:00:00Z", Some("work"), None, false));
    cmd.add_entry(entry("/n/notes/work/b.md", "2024-01-02T00:00:00Z", Some("work"), None, false));
    cmd.add_entry(entry("/n/notes/personal/c.md", "2024-01-03T00:00:00Z", Some("personal"), None, false));
    let mut out = lines(cmd.render("/n", false).ok().unwrap());
    out.sort();
    assert_eq!(out, vec!["personal".to_string(), "work".to_string()]);
}

#[test]
fn categories_skip_hidden_and_uncategorised() {
    let es = vec![
        entry("/a.md", "1", Some("work"), None, true),
        entry("/b.md", "2", None, None, false),
        entry("/c.md", "3", Some("home"), None, false),
    ];
    assert_eq!(categories(&es), vec!["home".to_string()]);
}

#[test]
fn categories_mode_ignores_the_filter() {
    let c = conf(None);
    let cmd = ListCommand::new(list_args(false, true, false, false, Some("zzz")), &c);
    let mut w = cmd.walker().unwrap();
    w.next_dir();
    w.visit(&vec![Child { path: format!("{ROOT}/a.md"), is_dir: false }]);
    assert_eq!(w.into_notes().len(), 1);
}

#[test]
fn root_mode_prints_the_root_without_walking() {
    let c = conf(None);
    let cmd = ListCommand::new(list_args(true, false, false, false, None), &c);
    assert!(cmd.walker().is_none());
    assert_eq!(lines(cmd.render("/x", false).ok().unwrap()), vec![ROOT.to_string()]);
}

#[test]
fn index_drains_in_non_increasing_order() {
    let mut q = OrderedIndex::new();
    q.push(entry("/a.md", "2024-01-01", Some("b"), None, false));
    q.push(entry("/b.md", "2024-03-01", None, None, false));
    q.push(entry("/c.md", "2024-01-01", None, None, false));
    q.push(entry("/d.md", "2024-01-01", Some("a"), None, false));
    q.push(entry("/e.md", "2024-02-01", Some("z"), None, false));
    assert_eq!(q.len(), 5);
    let mut order = Vec::new();
    while let Some(e) = q.pop() {
        order.push(e.path);
    }
    assert_eq!(order, vec!["/b.md", "/e.md", "/a.md", "/d.md", "/c.md"]);
}

#[test]
fn index_pop_on_empty_is_none() {
    let mut q = OrderedIndex::new();
    assert!(q.pop().is_none());
}

#[test]
fn name_width_counts_segments_after_marker() {
    let p = "/home/u/.local/share/notes/stacks/main/work/a.md";
    assert_eq!(path_name_width(p), "stacks/main/work/a.md/".chars().count());
    assert_eq!(path_name_width("/no/marker/here.md"), 0);
    assert_eq!(path_name_width("/notes/é.md"), 5);
}

#[test]
fn tag_width_pads_each_tag_less_one() {
    assert_eq!(tags_width(&None), 0);
    assert_eq!(tags_width(&Some(vec![])), 0);
    assert_eq!(tags_width(&Some(vec!["x".to_string(), "yy".to_string()])), 6);
}

#[test]
fn hidden_note_leaves_widths_unchanged() {
    let h = header("d", None, Some(vec!["a-very-long-tag"]), true);
    assert_eq!(compute_name_and_tag_widths("/notes/long/path/name.md", &h, 3, 4), (3, 4));
    let v = header("d", None, Some(vec!["ab"]), false);
    assert_eq!(compute_name_and_tag_widths("/notes/x.md", &v, 3, 0), (5, 3));
}

#[test]
fn widths_do_not_depend_on_order() {
    let c = conf(None);
    let es = vec![
        ("/r/notes/a/bb.md", Some(vec!["one", "two"])),
        ("/r/notes/ccc/d.md", None),
        ("/r/notes/e.md", Some(vec!["three"])),
    ];
    let mut forward = ListCommand::new(list_args(false, false, false, true, None), &c);
    let mut backward = ListCommand::new(list_args(false, false, false, true, None), &c);
    for (p, t) in es.iter() {
        forward.add_entry(entry(p, "2024-06-15T12:00:00Z", Some("a"), t.clone(), false));
    }
    for (p, t) in es.iter().rev() {
        backward.add_entry(entry(p, "2024-06-15T12:00:00Z", Some("a"), t.clone(), false));
    }
    let f = match forward.render("/r", false).ok().unwrap() {
        Listing::Short(ls) => ls,
        _ => panic!("expected short lines"),
    };
    let b = match backward.render("/r", false).ok().unwrap() {
        Listing::Short(ls) => ls,
        _ => panic!("expected short lines"),
    };
    let fw: Vec<(usize, usize)> = f.iter().map(|l| (l.name.chars().count(), l.tags.chars().count())).collect();
    let bw: Vec<(usize, usize)> = b.iter().map(|l| (l.name.chars().count(), l.tags.chars().count())).collect();
    assert_eq!(fw, vec![(8, 12); 3]);
    assert_eq!(bw, fw);
}

#[test]
fn short_line_columns() {
    let e = ListEntry {
        path: "/r/notes/work/sub/a.md".to_string(),
        frontmatter: NotesFrontMatter {
            title: "t".to_string(),
            date: "2024-06-15T12:00:00Z".to_string(),
            tags: Some(vec!["x".to_string(), "yy".to_string()]),
            notes_metadata: Metadata {
                category: Some("work".to_string()),
                subcategories: Some(vec!["sub".to_string()]),
                hidden: false,
            },
        },
        contents: vec![],
    };
    let ls = short(&vec![e], 20, 6).ok().unwrap();
    assert_eq!(ls.len(), 1);
    assert_eq!(ls[0].location, "/work/sub/");
    assert_eq!(ls[0].name, format!("a.md{}", " ".repeat(8)));
    assert_eq!(ls[0].tags, " x,yy    ");
    assert!(ls[0].date.starts_with("15-Jun-2024 "));
}

#[test]
fn short_line_without_category() {
    let e = entry("/r/notes/a.md", "2024-06-15T12:00:00Z", None, None, false);
    let ls = short(&vec![e], 5, 0).ok().unwrap();
    assert_eq!(ls[0].location, "/");
    assert_eq!(ls[0].name, "a.md  ");
    assert_eq!(ls[0].tags, "   ");
}

#[test]
fn unreadable_date_is_malformed_front_matter() {
    let e = entry("/r/notes/a.md", "not a date", None, None, false);
    assert!(matches!(short(&vec![e], 5, 0), Err(NotesError::MalformedFrontMatter(_))));
    let e = entry("/r/notes/a.md", "not a date", None, None, false);
    assert!(matches!(full(&vec![e], &None), Err(NotesError::MalformedFrontMatter(_))));
    let hidden = entry("/r/notes/a.md", "not a date", None, None, true);
    assert!(short(&vec![hidden], 5, 0).is_ok());
}

#[test]
fn full_block_fields() {
    let e = entry("/r/notes/a.md", "2024-06-15T12:00:00Z", Some("work"), Some(vec!["x", "y"]), false);
    let ns = full(&vec![e], &None).ok().unwrap();
    assert_eq!(ns[0].path, "/r/notes/a.md");
    assert_eq!(ns[0].category, " work");
    assert_eq!(ns[0].tags, "     x,y");
    assert!(ns[0].date.starts_with("     15-Jun-2024 "));
    assert_eq!(ns[0].body, vec!["body line".to_string()]);
    let bare = entry("/r/notes/b.md", "2024-06-15T12:00:00Z", None, None, false);
    let ns = full(&vec![bare], &None).ok().unwrap();
    assert_eq!(ns[0].category, "");
    assert_eq!(ns[0].tags, "");
}

#[test]
fn root_shortening_abbreviates_each_directory() {
    let root = Some("/home/user/.local/share/notes".to_string());
    let p = "/home/user/.local/share/notes/stacks/main/a.md";
    assert_eq!(show_path(p, &root), "/h/u/./s/n/stacks/main/a.md");
    assert_eq!(show_path("/elsewhere/a.md", &root), "/h/u/./s/n/elsewhere/a.md");
    assert_eq!(show_path(p, &None), p);
}

#[test]
fn hide_root_applies_on_a_terminal_only() {
    let c = conf(Some("true"));
    let mut cmd = ListCommand::new(list_args(false, false, false, false, None), &c);
    cmd.add_entry(entry(&format!("{ROOT}/a.md"), "1", None, None, false));
    let out = lines(cmd.render("/home/u/.local/share/notes", true).ok().unwrap());
    assert_eq!(out, vec!["/h/u/./s/n/stacks/main/a.md".to_string()]);
    let mut cmd = ListCommand::new(list_args(false, false, false, false, None), &c);
    cmd.add_entry(entry(&format!("{ROOT}/a.md"), "1", None, None, false));
    let out = lines(cmd.render("/home/u/.local/share/notes", false).ok().unwrap());
    assert_eq!(out, vec![format!("{ROOT}/a.md")]);
}

#[test]
fn note_suffix_is_the_last_two_characters() {
    assert!(is_note("/a/b.md"));
    assert!(is_note("/a/abcmd"));
    assert!(!is_note("/a/b.txt"));
    assert!(!is_note("d"));
}

#[test]
fn filter_matches_path_without_extension() {
    assert_eq!(without_extension("/a/b.c/note.md"), "/a/b.c/note");
    assert_eq!(without_extension("/a/.hidden"), "/a/.hidden");
    assert!(keep_note("/n/work/a.md", &Some("work".to_string())));
    assert!(!keep_note("/n/work/a.md", &Some("a.md".to_string())));
    assert!(keep_note("/n/work/a.md", &None));
    assert!(keep_note("/n/work/a.md", &Some(String::new())));
}

#[test]
fn walker_queues_directories_breadth_first() {
    let mut w = Walker::new("/r".to_string(), None);
    assert_eq!(w.next_dir().unwrap(), "/r");
    w.visit(&vec![
        Child { path: "/r/x".to_string(), is_dir: true },
        Child { path: "/r/a.md".to_string(), is_dir: false },
        Child { path: "/r/b.txt".to_string(), is_dir: false },
        Child { path: "/r/y".to_string(), is_dir: true },
    ]);
    assert_eq!(w.next_dir().unwrap(), "/r/x");
    w.visit(&vec![Child { path: "/r/x/c.md".to_string(), is_dir: false }]);
    assert_eq!(w.next_dir().unwrap(), "/r/y");
    w.visit(&vec![]);
    assert!(w.next_dir().is_none());
    assert_eq!(w.into_notes(), vec!["/r/a.md".to_string(), "/r/x/c.md".to_string()]);
}

#[test]
fn add_entries_matches_adding_one_by_one() {
    let c = conf(None);
    let es = || {
        vec![
            entry("/r/notes/a.md", "2024-01-01", Some("w"), Some(vec!["t1"]), false),
            entry("/r/notes/sub/b.md", "2024-02-01", None, None, true),
            entry("/r/notes/c.md", "2024-03-01", Some("p"), None, false),
        ]
    };
    let mut all = ListCommand::new(list_args(false, false, false, false, None), &c);
    all.add_entries(es());
    let mut each = ListCommand::new(list_args(false, false, false, false, None), &c);
    for e in es() {
        each.add_entry(e);
    }
    let a = lines(all.render("/r", false).ok().unwrap());
    let b = lines(each.render("/r", false).ok().unwrap());
    assert_eq!(a, vec!["/r/notes/c.md".to_string(), "/r/notes/a.md".to_string()]);
    assert_eq!(a, b);
}
