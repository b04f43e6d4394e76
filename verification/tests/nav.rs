use file_browser::listing::{EntryKind, IoAccessError, RawEntry};
use file_browser::nav::{Action, App, Key};

fn entry(name: &str, kind: EntryKind) -> RawEntry {
    RawEntry { name: name.to_string(), kind }
}

fn two_folders_one_file() -> Vec<RawEntry> {
    vec![
        entry("b", EntryKind::Folder),
        entry("a", EntryKind::Folder),
        entry("z.txt", EntryKind::File),
    ]
}

#[test]
fn new_builds_sorted_panes_with_cursors_at_zero() {
    let app = App::new("start", two_folders_one_file());
    assert_eq!(app.current_dir, "start".to_string());
    assert_eq!(app.folders, vec!["start/a".to_string(), "start/b".to_string()]);
    assert_eq!(app.files, vec!["start/z.txt".to_string()]);
    assert_eq!(app.selected_folder, 0);
    assert_eq!(app.selected_file, 0);
}

#[test]
fn folder_selection_moves_and_stops_at_the_end() {
    let mut app = App::new("start", two_folders_one_file());
    app.move_folder_selection(1);
    assert_eq!(app.selected_folder, 1);
    app.move_folder_selection(1);
    assert_eq!(app.selected_folder, 1);
    app.move_folder_selection(-1);
    assert_eq!(app.selected_folder, 0);
    app.move_folder_selection(-1);
    assert_eq!(app.selected_folder, 0);
}

#[test]
fn large_moves_clamp_to_the_pane() {
    let entries = vec![
        entry("a", EntryKind::File),
        entry("b", EntryKind::File),
        entry("c", EntryKind::File),
    ];
    let mut app = App::new("d", entries);
    app.move_file_selection(100);
    assert_eq!(app.selected_file, 2);
    app.move_file_selection(-100);
    assert_eq!(app.selected_file, 0);
}

#[test]
fn empty_file_pane_moves_and_open_are_noops() {
    let entries = vec![entry("sub", EntryKind::Folder)];
    let mut app = App::new("d", entries);
    app.move_file_selection(1);
    assert_eq!(app.selected_file, 0);
    app.move_file_selection(-1);
    assert_eq!(app.selected_file, 0);
    assert_eq!(app.open_selected_file(), None);
    assert_eq!(app.handle_key(Key::Enter), Action::Idle);
    assert_eq!(app.selected_file, 0);
}

#[test]
fn descend_on_empty_folder_pane_is_a_noop() {
    let entries = vec![entry("z.txt", EntryKind::File)];
    let mut app = App::new("d", entries);
    assert_eq!(app.descend_target(), None);
    assert_eq!(app.handle_key(Key::Tab), Action::Idle);
    assert_eq!(app.current_dir, "d".to_string());
    assert_eq!(app.files, vec!["d/z.txt".to_string()]);
    assert_eq!(app.selected_file, 0);
}

#[test]
fn top_level_path_has_no_parent() {
    let mut app = App::new("/root", Vec::new());
    assert_eq!(app.ascend_target(), None);
    assert_eq!(app.handle_key(Key::Backspace), Action::Idle);
    assert_eq!(app.current_dir, "/root".to_string());
    assert_eq!(app.selected_folder, 0);
    assert_eq!(app.selected_file, 0);
    assert!(app.folders.is_empty());
    assert!(app.files.is_empty());
}

#[test]
fn descend_then_ascend_returns_to_the_original_directory() {
    let mut app = App::new("home", two_folders_one_file());
    app.move_folder_selection(1);

    let action = app.handle_key(Key::Tab);
    assert_eq!(action, Action::Load("home/b".to_string()));
    let inner = vec![entry("inner.txt", EntryKind::File)];
    assert!(app.apply_load("home/b".to_string(), Ok(inner)).is_ok());
    assert_eq!(app.current_dir, "home/b".to_string());
    assert_eq!(app.files, vec!["home/b/inner.txt".to_string()]);

    let action = app.handle_key(Key::Backspace);
    assert_eq!(action, Action::Load("home".to_string()));
    assert!(app
        .apply_load("home".to_string(), Ok(two_folders_one_file()))
        .is_ok());
    assert_eq!(app.current_dir, "home".to_string());
    // The cursors reset to zero rather than being restored.
    assert_eq!(app.selected_folder, 0);
    assert_eq!(app.selected_file, 0);
}

#[test]
fn failed_load_leaves_the_state_untouched() {
    let mut app = App::new("home", two_folders_one_file());
    app.move_folder_selection(1);

    let err = IoAccessError {
        path: "home/a".to_string(),
        cause: "permission denied".to_string(),
    };
    let r = app.apply_load("home/a".to_string(), Err(err));
    match r {
        Err(e) => {
            assert_eq!(e.path, "home/a".to_string());
            assert_eq!(e.cause, "permission denied".to_string());
        }
        Ok(()) => panic!("a failed listing must hand the error back"),
    }
    assert_eq!(app.current_dir, "home".to_string());
    assert_eq!(app.folders, vec!["home/a".to_string(), "home/b".to_string()]);
    assert_eq!(app.files, vec!["home/z.txt".to_string()]);
    assert_eq!(app.selected_folder, 1);
    assert_eq!(app.selected_file, 0);
}

#[test]
fn arrow_keys_move_the_cursors() {
    let entries = vec![
        entry("f1", EntryKind::File),
        entry("f2", EntryKind::File),
        entry("d1", EntryKind::Folder),
        entry("d2", EntryKind::Folder),
    ];
    let mut app = App::new("d", entries);
    assert_eq!(app.handle_key(Key::Down), Action::Idle);
    assert_eq!(app.selected_file, 1);
    assert_eq!(app.handle_key(Key::Up), Action::Idle);
    assert_eq!(app.selected_file, 0);
    assert_eq!(app.handle_key(Key::Right), Action::Idle);
    assert_eq!(app.selected_folder, 1);
    assert_eq!(app.handle_key(Key::Left), Action::Idle);
    assert_eq!(app.selected_folder, 0);
}

#[test]
fn enter_asks_to_open_the_selected_file() {
    let mut app = App::new("start", two_folders_one_file());
    let action = app.handle_key(Key::Enter);
    assert_eq!(action, Action::Open("start/z.txt".to_string()));
    // An open request does not change the navigation state.
    assert_eq!(app.current_dir, "start".to_string());
    assert_eq!(app.selected_file, 0);
}

#[test]
fn quit_key_and_unknown_keys() {
    let mut app = App::new("d", Vec::new());
    assert_eq!(app.handle_key(Key::Char('q')), Action::Quit);
    assert_eq!(app.handle_key(Key::Char('x')), Action::Idle);
    assert_eq!(app.handle_key(Key::Other), Action::Idle);
}

#[test]
fn ascend_target_gives_the_prefix_before_the_last_separator() {
    let app = App::new("a/b/c", Vec::new());
    assert_eq!(app.ascend_target(), Some("a/b".to_string()));
    let app = App::new("rel", Vec::new());
    assert_eq!(app.ascend_target(), None);
    let app = App::new("/a/b", Vec::new());
    assert_eq!(app.ascend_target(), Some("/a".to_string()));
}

#[test]
fn change_dir_rebuilds_panes_and_resets_cursors() {
    let mut app = App::new("start", two_folders_one_file());
    app.move_folder_selection(1);
    let inner = vec![entry("x", EntryKind::Folder), entry("y.txt", EntryKind::File)];
    app.change_dir("start/b".to_string(), inner);
    assert_eq!(app.current_dir, "start/b".to_string());
    assert_eq!(app.folders, vec!["start/b/x".to_string()]);
    assert_eq!(app.files, vec!["start/b/y.txt".to_string()]);
    assert_eq!(app.selected_folder, 0);
    assert_eq!(app.selected_file, 0);
}
