use notes::cli::Commands;
use notes::create::{choose_editor, push_component, validate_name, validate_path, CreateCommand};
use notes::error::NotesError;
use notes::save::SaveCommand;
use notes::switch::{SwitchCommand, SwitchOutcome};
use notes::system::{resolve_workspace, Configuration, ConfigurationCommand, Settings};
use notes::{notebook, stack};

fn conf(path: &str, editor: Option<&str>) -> Configuration {
    Configuration {
        settings: Settings { path: path.to_string(), editor: editor.map(|s| s.to_string()) },
        options: None,
    }
}

#[test]
fn name_must_be_ascii() {
    assert_eq!(validate_name("abc-def".to_string()).ok(), Some("abc-def".to_string()));
    match validate_name("héllo".to_string()) {
        Err(NotesError::Invalid(m)) => assert_eq!(m, "invalid character 'é' found in filename at position 1"),
        _ => panic!("expected an invalid name"),
    }
    assert!(validate_path("work/sub").is_ok());
    assert!(matches!(validate_path("wörk"), Err(NotesError::Invalid(_))));
}

#[test]
fn create_places_the_note_under_its_category() {
    let c = conf("/s", None);
    let args = Commands::Create {
        quiet: true,
        category: Some("work/sub".to_string()),
        name: "idea".to_string(),
        tags: None,
    };
    let cmd = CreateCommand::new(args, &c, &None, false).ok().unwrap();
    assert_eq!(cmd.path(), "/s/work/sub/idea.md");
    assert!(cmd.editor().is_none());
    assert!(cmd.has_category());
    let args = Commands::Create { quiet: false, category: None, name: "n".to_string(), tags: None };
    let cmd = CreateCommand::new(args, &c, &None, false).ok().unwrap();
    assert_eq!(cmd.path(), "/s/n.md");
    assert_eq!(cmd.editor(), Some("vim".to_string()));
    let args = Commands::Create { quiet: false, category: Some("ü".to_string()), name: "n".to_string(), tags: None };
    assert!(CreateCommand::new(args, &c, &None, false).is_err());
}

#[test]
fn editor_choice_order() {
    assert_eq!(choose_editor(false, &Some("ed".to_string()), &Some("nvim".to_string()), true), Some("ed".to_string()));
    assert_eq!(choose_editor(false, &None, &Some("nvim".to_string()), false), Some("nvim".to_string()));
    assert_eq!(choose_editor(false, &None, &Some("glow".to_string()), false), Some("vim".to_string()));
    assert_eq!(choose_editor(false, &None, &Some("glow".to_string()), true), Some("glow".to_string()));
    assert_eq!(choose_editor(true, &None, &None, true), None);
}

#[test]
fn push_component_follows_pathbuf() {
    assert_eq!(push_component("/a", "b"), "/a/b");
    assert_eq!(push_component("/a/", "b"), "/a/b");
    assert_eq!(push_component("/a", "/b"), "/b");
}

#[test]
fn notebook_checks() {
    assert!(notebook::disallow_reserved_names("/s/main".to_string()).is_err());
    assert!(notebook::disallow_reserved_names("/s/work".to_string()).is_ok());
    assert!(notebook::disallow_files_with_extensions("/s/x.md".to_string()).is_err());
    assert!(notebook::disallow_files_with_extensions("/s/.x".to_string()).is_ok());
    assert!(notebook::check_dir_exists("/s/x".to_string(), false).is_err());
    assert!(notebook::check_dir_exists("/s/x".to_string(), true).is_ok());
    assert!(notebook::disallow_operation_on_active_notebook("/s/x".to_string(), "notebook: x\n").is_err());
    assert!(notebook::disallow_operation_on_active_notebook("/s/y".to_string(), "notebook: x\n").is_ok());
}

#[test]
fn stack_create_and_remove() {
    let p = stack::target("/n/stacks/main", "work").unwrap();
    assert_eq!(p, "/n/stacks/work");
    assert!(stack::CreateCommand::new(p.clone(), "stack: main", false).is_ok());
    assert!(stack::CreateCommand::new(p.clone(), "stack: main", true).is_err());
    assert!(stack::CreateCommand::new(p.clone(), "stack: work", false).is_err());
    assert!(stack::RemoveCommand::new(p.clone(), "stack: main", true).is_ok());
    assert!(stack::RemoveCommand::new(p.clone(), "stack: main", false).is_err());
    assert!(stack::RemoveCommand::new("/n/stacks/main".to_string(), "stack: x", true).is_err());
    assert!(stack::disallow_operation_on_active_note_stack(p, "nothing").is_err());
}

#[test]
fn workspace_resolves_the_active_stack() {
    let c = resolve_workspace(conf("/n", None), &None).ok().unwrap();
    assert_eq!(c.settings.path, "/n/stacks/main");
    let c = resolve_workspace(conf("/n", None), &Some("stack: work\n".to_string())).ok().unwrap();
    assert_eq!(c.settings.path, "/n/stacks/work");
    assert!(resolve_workspace(conf("/n", None), &Some("  \n".to_string())).is_err());
    assert!(resolve_workspace(conf("/n", None), &Some("stacks: main".to_string())).is_err());
}

#[test]
fn config_text_lists_path_and_editor() {
    let c = conf("/n", None);
    let cmd = ConfigurationCommand::new(Commands::Config { path: false }, &c);
    assert_eq!(cmd.text("/cfg"), "notes.toml\n    path=/n\n    editor=none");
    let cmd = ConfigurationCommand::new(Commands::Config { path: true }, &c);
    assert_eq!(cmd.text("/cfg"), "/cfg");
}

#[test]
fn switch_decides_from_notes_file() {
    let c = conf("/n/stacks/main", None);
    let s = SwitchCommand::new(Commands::Switch { create: false, notebook: "work".to_string() }, &c);
    assert_eq!(s.stack_dir(), Some("/n/stacks/work".to_string()));
    assert_eq!(s.notes_file(), Some("/n/.notes".to_string()));
    assert!(s.check_target(false).is_err());
    assert!(s.check_target(true).is_ok());
    assert!(matches!(s.outcome("stack: work"), Ok(SwitchOutcome::Already)));
    match s.outcome("stack: main") {
        Ok(SwitchOutcome::Switch(t)) => assert_eq!(t, "stack: work"),
        _ => panic!("expected a switch"),
    }
    assert!(s.outcome("nothing").is_err());
}

#[test]
fn save_commit_message() {
    let c = conf("/n", None);
    let s = SaveCommand::new(Commands::Save { remote: false }, &c);
    assert_eq!(s.path(), "/n");
    assert_eq!(s.commit_message("2024"), "update notes: 2024");
}
