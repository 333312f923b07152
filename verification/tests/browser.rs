use pifile::browser::{
    prompt_label, rename_error_message, theme_check_due, Browser, ClipboardOp, EnterAction, OpenStep,
    PromptKind, PromptStep,
};
use pifile::fs::entry::{DirEntry, FileKind};
use pifile::fs::ops::{NameError, RenameError};
use pifile::fs::SortKey;

fn entry(dir: &str, name: &str, kind: FileKind) -> DirEntry {
    DirEntry {
        path: format!("{dir}/{name}"),
        name: name.to_string(),
        kind,
        size: if kind == FileKind::File { Some(10) } else { None },
        modified: None,
        hidden: name.starts_with('.'),
    }
}

fn listing() -> Vec<DirEntry> {
    vec![
        entry("/home/u", "notes.txt", FileKind::File),
        entry("/home/u", ".config", FileKind::Directory),
        entry("/home/u", "Music", FileKind::Directory),
    ]
}

#[test]
fn a_new_browser_lists_and_selects_the_first_row() {
    let b = Browser::new("/home/u".to_string(), listing());
    assert_eq!(b.entries.len(), 2);
    assert_eq!(b.entries[0].name, "Music");
    assert_eq!(b.selected, Some(0));
    assert_eq!(b.status, "/home/u  ·  2 items");
    assert_eq!(b.title(), "Pifile — /home/u");
    assert_eq!(b.sort, SortKey::Name);
    assert!(!b.show_hidden);
    let empty = Browser::new("/e".to_string(), Vec::new());
    assert_eq!(empty.selected, None);
    assert!(empty.selected_entry().is_none());
    assert_eq!(empty.status, "/e  ·  0 items");
}

#[test]
fn reload_and_hidden_toggle() {
    let mut b = Browser::new("/home/u".to_string(), listing());
    b.toggle_hidden();
    assert_eq!(b.hidden_label(), "Hide dotfiles");
    b.reload(Ok(listing()));
    assert_eq!(b.entries.len(), 3);
    assert_eq!(b.entries[0].name, ".config");
    assert_eq!(b.status, "/home/u  ·  3 items");
    b.select(2);
    b.reload(Err("permission denied".to_string()));
    assert_eq!(b.status, "error: permission denied");
    assert_eq!(b.selected, Some(2));
    assert_eq!(b.entries.len(), 3);
}

#[test]
fn going_up_and_entering_directories() {
    let mut b = Browser::new("/home/u".to_string(), listing());
    assert_eq!(b.go_parent(), Some("/home".to_string()));
    let root = Browser::new("/".to_string(), Vec::new());
    assert_eq!(root.go_parent(), None);
    match b.open_selected() {
        OpenStep::EnterDir(p) => assert_eq!(p, "/home/u/Music"),
        _ => panic!("expected a directory"),
    }
    b.select(1);
    match b.open_selected() {
        OpenStep::Launch { path, name } => {
            assert_eq!(path, "/home/u/notes.txt");
            assert_eq!(name, "notes.txt");
        }
        _ => panic!("expected a launch"),
    }
    assert_eq!(b.status, "opening /home/u/notes.txt…");
    b.launched("notes.txt", Ok(()));
    assert_eq!(b.status, "opened notes.txt");
    b.launched("notes.txt", Err("no launcher available".to_string()));
    assert_eq!(b.status, "open notes.txt: no launcher available");
    b.select(9);
    b.clipboard = Some(ClipboardOp::Copy("/home/u/a".to_string()));
    let before_status = b.status.clone();
    assert!(matches!(b.open_selected(), OpenStep::Nothing));
    assert_eq!(b.status, before_status);
    assert!(b.prompt.is_none());
    assert!(matches!(&b.clipboard, Some(ClipboardOp::Copy(p)) if p == "/home/u/a"));
    b.set_cwd("/home/u/Music".to_string());
    assert_eq!(b.cwd, "/home/u/Music");
    assert!(b.is_current("/home/u/Music/"));
    assert!(!b.is_current("/home/u"));
}

#[test]
fn cut_paste_uses_up_the_clipboard_but_copy_does_not() {
    let mut b = Browser::new("/home/u".to_string(), listing());
    b.select(1);
    b.copy_selected(false);
    assert_eq!(b.status, "copied");
    assert!(matches!(&b.clipboard, Some(ClipboardOp::Copy(p)) if p == "/home/u/notes.txt"));
    let mut grown = listing();
    grown.push(entry("/home/u", "notes (1).txt", FileKind::File));
    b.pasted(Ok(("/home/u/notes (1).txt".to_string(), Ok(grown))));
    assert_eq!(b.status, "pasted /home/u/notes (1).txt");
    assert_eq!(b.entries.len(), 3);
    assert_eq!(b.entries[1].name, "notes (1).txt");
    assert_eq!(b.selected, Some(0));
    assert!(matches!(&b.clipboard, Some(ClipboardOp::Copy(_))));
    b.copy_selected(true);
    assert_eq!(b.status, "cut");
    b.pasted(Err("copy failed".to_string()));
    assert_eq!(b.status, "copy failed");
    assert!(matches!(&b.clipboard, Some(ClipboardOp::Cut(_))));
    b.select(2);
    b.pasted(Ok(("/other/notes.txt".to_string(), Err("gone".to_string()))));
    assert!(b.clipboard.is_none());
    assert_eq!(b.status, "pasted /other/notes.txt");
    assert_eq!(b.entries.len(), 3);
    assert_eq!(b.selected, Some(2));
}

#[test]
fn trash_and_delete_reports() {
    let mut b = Browser::new("/home/u".to_string(), listing());
    b.removed("trashed", "notes.txt", Ok(Ok(vec![entry("/home/u", "Music", FileKind::Directory)])));
    assert_eq!(b.status, "trashed notes.txt");
    assert_eq!(b.entries.len(), 1);
    b.removed("deleted", "Music", Err("rm -r /home/u/Music: busy".to_string()));
    assert_eq!(b.status, "rm -r /home/u/Music: busy");
    assert_eq!(b.entries.len(), 1);
}

#[test]
fn prompts() {
    let mut b = Browser::new("/home/u".to_string(), listing());
    assert_eq!(b.enter_action(), EnterAction::OpenSelected);
    let before_status = b.status.clone();
    assert!(matches!(b.confirm_prompt("x"), PromptStep::Nothing));
    assert_eq!(b.status, before_status);
    assert_eq!(b.begin_prompt(PromptKind::NewFolder), Some(String::new()));
    assert_eq!(b.prompt, Some(PromptKind::NewFolder));
    assert_eq!(b.enter_action(), EnterAction::ConfirmPrompt);
    match b.confirm_prompt(" Projects ") {
        PromptStep::CreateDir { dest, done } => {
            assert_eq!(dest, "/home/u/Projects");
            assert_eq!(done, "created  Projects ");
        }
        _ => panic!("expected a folder"),
    }
    assert!(b.prompt.is_none());
    b.begin_prompt(PromptKind::NewFolder);
    match b.confirm_prompt("..") {
        PromptStep::Refused(msg) => assert_eq!(msg, "invalid name"),
        _ => panic!("expected a refusal"),
    }
    b.select(1);
    assert_eq!(b.begin_prompt(PromptKind::Rename), Some("notes.txt".to_string()));
    match b.confirm_prompt("todo.txt") {
        PromptStep::Rename { from, dest, done } => {
            assert_eq!(from, "/home/u/notes.txt");
            assert_eq!(dest, "/home/u/todo.txt");
            assert_eq!(done, "renamed todo.txt");
        }
        _ => panic!("expected a rename"),
    }
    b.begin_prompt(PromptKind::Rename);
    match b.confirm_prompt("notes.txt") {
        PromptStep::Done(msg) => assert_eq!(msg, "renamed notes.txt"),
        _ => panic!("expected nothing to do"),
    }
    b.select(7);
    assert_eq!(b.begin_prompt(PromptKind::Rename), None);
    assert!(b.prompt.is_none());
    b.prompt_finished("created x".to_string(), Ok(Ok(vec![entry("/home/u", "x", FileKind::Directory)])));
    assert_eq!(b.status, "created x");
    assert_eq!(b.entries.len(), 1);
    assert_eq!(b.entries[0].name, "x");
    assert_eq!(b.selected, Some(0));
    b.prompt_finished("created x".to_string(), Err("mkdir /home/u/x: exists".to_string()));
    assert_eq!(b.status, "mkdir /home/u/x: exists");
    b.begin_prompt(PromptKind::NewFolder);
    b.cancel_prompt();
    assert!(b.prompt.is_none());
}

#[test]
fn labels_and_timing() {
    assert_eq!(prompt_label(PromptKind::NewFolder), "New folder");
    assert_eq!(prompt_label(PromptKind::Rename), "Rename");
    assert_eq!(rename_error_message(RenameError::NoParent, "/"), "no parent for /");
    assert_eq!(rename_error_message(RenameError::BadName(NameError::Empty), "/a"), "name is empty");
    assert!(!theme_check_due(400_000_000));
    assert!(theme_check_due(400_000_001));
}
