//! The credential map's add/edit/remove semantics and the command layer.

use vikeypass::commands::{execute, Action, App, Command, CommandError, InputMode};
use vikeypass::credmap::CredentialMap;

#[test]
fn add_inserts_and_overwrites() {
    let mut m = CredentialMap::new();
    m.add(String::from("github"), String::from("old"));
    assert_eq!(m.len(), 1);
    m.add(String::from("github"), String::from("new"));
    assert_eq!(m.len(), 1);
    assert_eq!(m.get("github"), Some(String::from("new")));
    assert!(m.contains("github"));
    assert!(!m.contains("gitlab"));
}

#[test]
fn edit_overwrites_existing_account() {
    let mut m = CredentialMap::new();
    m.add(String::from("github"), String::from("old"));
    assert!(m.edit("github", String::from("new")));
    assert_eq!(m.get("github"), Some(String::from("new")));
}

#[test]
fn edit_missing_account_changes_nothing() {
    let mut m = CredentialMap::new();
    m.add(String::from("github"), String::from("p@ss"));
    assert!(!m.edit("gitlab", String::from("other")));
    assert_eq!(m.len(), 1);
    assert_eq!(m.get("gitlab"), None);
    assert_eq!(m.get("github"), Some(String::from("p@ss")));
}

#[test]
fn remove_deletes_entry() {
    let mut m = CredentialMap::new();
    m.add(String::from("a"), String::from("1"));
    m.add(String::from("b"), String::from("2"));
    assert_eq!(m.remove("a"), Some(String::from("1")));
    assert_eq!(m.remove("a"), None);
    assert_eq!(m.len(), 1);
    assert_eq!(m.get("b"), Some(String::from("2")));
}

#[test]
fn keys_list_entries_in_order() {
    let mut m = CredentialMap::new();
    m.add(String::from("a"), String::from("1"));
    m.add(String::from("b"), String::from("2"));
    let keys = m.keys();
    assert_eq!(keys, vec![String::from("a"), String::from("b")]);
    assert_eq!(m.key_at(0), String::from("a"));
    assert_eq!(m.key_at(1), String::from("b"));
}

#[test]
fn from_entries_rejects_duplicate_keys() {
    let dup = vec![
        (String::from("a"), String::from("1")),
        (String::from("a"), String::from("2")),
    ];
    assert!(CredentialMap::from_entries(dup).is_none());
    let ok = vec![
        (String::from("a"), String::from("1")),
        (String::from("b"), String::from("2")),
    ];
    assert!(CredentialMap::from_entries(ok).is_some());
}

#[test]
fn decode_command_add() {
    let mut app = App::default();
    assert!(matches!(app.input_mode, InputMode::Navigation));
    app.add_to_input(&String::from("add github p@ss"));
    let c = app.decode_command().expect("add decodes");
    assert!(matches!(c.action, Action::AddPassword));
    assert_eq!(c.params, vec![String::from("github"), String::from("p@ss")]);
}

#[test]
fn decode_command_edit_with_extra_spaces() {
    let mut app = App::default();
    app.add_to_input(&String::from("  edit \t mail   hunter2  "));
    let c = app.decode_command().expect("edit decodes");
    assert!(matches!(c.action, Action::EditPassword));
    assert_eq!(c.params, vec![String::from("mail"), String::from("hunter2")]);
}

#[test]
fn decode_command_unknown() {
    let mut app = App::default();
    app.add_to_input(&String::from("frobnicate a b"));
    assert_eq!(app.decode_command().unwrap_err(), CommandError::Unknown);
}

#[test]
fn decode_command_empty() {
    let app = App::default();
    assert_eq!(app.decode_command().unwrap_err(), CommandError::Empty);
    let mut blank = App::default();
    blank.add_to_input(&String::from("   "));
    assert_eq!(blank.decode_command().unwrap_err(), CommandError::Empty);
}

#[test]
fn add_to_input_appends() {
    let mut app = App::default();
    app.add_to_input(&String::from("ad"));
    app.add_to_input(&String::from("d x y"));
    let c = app.decode_command().expect("appended text decodes");
    assert!(matches!(c.action, Action::AddPassword));
    assert_eq!(c.params, vec![String::from("x"), String::from("y")]);
}

#[test]
fn execute_add_inserts() {
    let mut m = CredentialMap::new();
    let cmd = Command {
        action: Action::AddPassword,
        params: vec![String::from("github"), String::from("p@ss")],
    };
    let msg = execute(&cmd, &mut m).expect("add executes");
    assert_eq!(msg, "New password has been added");
    assert_eq!(m.get("github"), Some(String::from("p@ss")));
}

#[test]
fn execute_edit_updates_existing_account() {
    let mut m = CredentialMap::new();
    m.add(String::from("github"), String::from("old"));
    let cmd = Command {
        action: Action::EditPassword,
        params: vec![String::from("github"), String::from("new")],
    };
    let msg = execute(&cmd, &mut m).expect("edit executes");
    assert_eq!(msg, "Updated successfully");
    assert_eq!(m.get("github"), Some(String::from("new")));
    assert_eq!(m.len(), 1);
}

#[test]
fn execute_edit_missing_account_is_a_no_op() {
    let mut m = CredentialMap::new();
    m.add(String::from("github"), String::from("p@ss"));
    let cmd = Command {
        action: Action::EditPassword,
        params: vec![String::from("absent"), String::from("x")],
    };
    let msg = execute(&cmd, &mut m).expect("edit executes");
    assert_eq!(msg, "Updated successfully");
    assert_eq!(m.len(), 1);
    assert_eq!(m.get("absent"), None);
}

#[test]
fn execute_missing_params_changes_nothing() {
    let mut m = CredentialMap::new();
    let cmd = Command { action: Action::AddPassword, params: vec![String::from("only-name")] };
    assert_eq!(execute(&cmd, &mut m).unwrap_err(), CommandError::MissingParams);
    assert_eq!(m.len(), 0);
}
