use worktree_explorer::app::{
    get_help_content, Action, App, FocusedPane, InputEvent, Key, Mouse, PAGE_SIZE,
};
use worktree_explorer::entry::FileEntry;
use worktree_explorer::error::{AppError, ErrorKind, Operation};
use worktree_explorer::status::{FileStatus, WT_NEW};
use worktree_explorer::scan::Scan;
use worktree_explorer::tree::{get_file_list, ScanRecord, StatusRecord};

fn file(name: &str, depth: usize) -> FileEntry {
    FileEntry { name: name.to_string(), status: FileStatus::Modified, is_dir: false, parent: None, depth }
}

fn dir(name: &str, depth: usize) -> FileEntry {
    FileEntry { name: name.to_string(), status: FileStatus::New, is_dir: true, parent: None, depth }
}

fn child(name: &str, parent: &str, is_dir: bool, depth: usize) -> FileEntry {
    FileEntry {
        name: name.to_string(),
        status: FileStatus::New,
        is_dir,
        parent: Some(parent.to_string()),
        depth,
    }
}

fn rows(app: &App) -> Vec<(String, usize)> {
    app.files.iter().map(|f| (f.path(), f.depth)).collect()
}

fn sample() -> App {
    App::new("/repo".to_string(), vec![dir("docs", 0), dir("src", 0), file("a.txt", 0), file("b.txt", 0)])
}

#[test]
fn new_session_starts_on_the_first_row() {
    let app = sample();
    assert_eq!(app.selected_index, 0);
    assert_eq!(app.files.len(), 4);
    assert_eq!(app.expanded_dirs.len(), 0);
    assert_eq!(app.right_pane_content, "");
    assert_eq!(app.debug_content, "");
    assert!(!app.commit_modal.is_visible);
    assert_eq!(app.commit_modal.content, "");
    assert!(!app.help_modal.is_visible);
    assert_eq!(app.help_modal.content, get_help_content());
    assert_eq!(app.root_dir, "/repo");
    assert!(!app.debug_mode);
    assert_eq!(app.focused_pane, FocusedPane::FileList);
    assert_eq!(app.details_scroll, 0);
}

#[test]
fn help_content_lists_the_key_bindings() {
    let help = get_help_content();
    assert!(help.starts_with("Key Bindings:\n"));
    assert!(help.ends_with("Esc: Cancel commit"));
    assert!(help.contains("\n    c: Stage all modified files and open commit dialog\n"));
    assert_eq!(help.lines().count(), 10);
}

#[test]
fn selection_stays_within_the_list() {
    let mut app = sample();
    app.move_selection_up();
    assert_eq!(app.selected_index, 0);
    for _ in 0..10 {
        app.move_selection_down();
    }
    assert_eq!(app.selected_index, 3);
    app.move_selection(true, usize::MAX);
    assert_eq!(app.selected_index, 3);
    app.move_selection(false, 1000);
    assert_eq!(app.selected_index, 0);
    app.move_selection(true, 2);
    assert_eq!(app.selected_index, 2);
    app.move_selection(false, 1);
    assert_eq!(app.selected_index, 1);
    app.move_selection(true, 3);
    assert_eq!(app.selected_index, 3);
    app.move_selection(false, 3);
    assert_eq!(app.selected_index, 0);
}

#[test]
fn page_keys_move_by_a_page_and_stop_at_the_ends() {
    let files: Vec<FileEntry> = (0..25).map(|i| file(&format!("f{:02}", i), 0)).collect();
    let mut app = App::new("/repo".to_string(), files);
    assert_eq!(PAGE_SIZE, 10);
    assert_eq!(app.handle_key_event(Key::PageDown), Action::Idle);
    assert_eq!(app.selected_index, 10);
    app.handle_key_event(Key::PageDown);
    assert_eq!(app.selected_index, 20);
    app.handle_key_event(Key::PageDown);
    assert_eq!(app.selected_index, 24);
    app.handle_key_event(Key::PageUp);
    assert_eq!(app.selected_index, 14);
    app.handle_key_event(Key::PageUp);
    app.handle_key_event(Key::PageUp);
    assert_eq!(app.selected_index, 0);
}

#[test]
fn moving_in_an_empty_list_does_nothing() {
    let mut app = App::new("/repo".to_string(), Vec::new());
    app.move_selection_down();
    app.move_selection_up();
    app.move_selection(true, 7);
    assert_eq!(app.selected_index, 0);
    assert_eq!(app.handle_key_event(Key::Enter), Action::Idle);
    assert_eq!(app.files.len(), 0);
    assert!(!app.insert_children(vec![file("x", 0)]));
    assert_eq!(app.files.len(), 0);
}

#[test]
fn selection_outside_the_list_comes_back_to_the_nearest_row() {
    let mut app = sample();
    app.selected_index = 40;
    app.move_selection_up();
    assert_eq!(app.selected_index, 2);
    app.selected_index = 40;
    app.move_selection_down();
    assert_eq!(app.selected_index, 3);
}

#[test]
fn details_scroll_stops_at_both_ends() {
    let mut app = sample();
    app.scroll_details_up();
    assert_eq!(app.details_scroll, 0);
    app.scroll_details_down();
    app.scroll_details_down();
    assert_eq!(app.details_scroll, 2);
    app.scroll_details_up();
    assert_eq!(app.details_scroll, 1);
    app.scroll_details(true, usize::MAX);
    assert_eq!(app.details_scroll, usize::MAX);
    app.scroll_details_down();
    assert_eq!(app.details_scroll, usize::MAX);
    app.scroll_details(false, 5);
    assert_eq!(app.details_scroll, usize::MAX - 5);
    app.scroll_details(false, usize::MAX);
    assert_eq!(app.details_scroll, 0);
}

#[test]
fn vertical_keys_go_to_the_focused_pane() {
    let mut app = sample();
    app.handle_key_event(Key::Down);
    assert_eq!((app.selected_index, app.details_scroll), (1, 0));
    app.handle_key_event(Key::Right);
    assert_eq!(app.focused_pane, FocusedPane::Details);
    app.handle_key_event(Key::Down);
    app.handle_key_event(Key::PageDown);
    assert_eq!((app.selected_index, app.details_scroll), (1, 11));
    app.handle_key_event(Key::Up);
    assert_eq!((app.selected_index, app.details_scroll), (1, 10));
    app.handle_key_event(Key::Left);
    assert_eq!(app.focused_pane, FocusedPane::FileList);
    app.handle_key_event(Key::Up);
    assert_eq!((app.selected_index, app.details_scroll), (0, 10));
    app.set_focused_pane(FocusedPane::Debug);
    app.handle_key_event(Key::Down);
    app.handle_key_event(Key::PageUp);
    assert_eq!((app.selected_index, app.details_scroll), (0, 10));
}

#[test]
fn click_focuses_the_pane_under_it() {
    let mut app = sample();
    for (column, pane) in [
        (0, FocusedPane::FileList),
        (30, FocusedPane::FileList),
        (31, FocusedPane::Details),
        (65, FocusedPane::Details),
        (66, FocusedPane::Debug),
        (u16::MAX, FocusedPane::Debug),
    ] {
        assert_eq!(app.handle_event(InputEvent::Mouse(Mouse::LeftDown { column })), Action::Idle);
        assert_eq!(app.focused_pane, pane);
    }
    app.handle_event(InputEvent::Mouse(Mouse::Other));
    assert_eq!(app.focused_pane, FocusedPane::Debug);
    app.handle_event(InputEvent::Other);
    assert_eq!(app.focused_pane, FocusedPane::Debug);
    assert_eq!(app.handle_event(InputEvent::Key(Key::Left)), Action::Idle);
    assert_eq!(app.focused_pane, FocusedPane::FileList);
}

#[test]
fn toggling_a_file_asks_for_its_diff() {
    let mut app = sample();
    app.selected_index = 2;
    let before = rows(&app);
    assert_eq!(app.handle_key_event(Key::Enter), Action::ShowDiff { path: "a.txt".to_string() });
    assert_eq!(rows(&app), before);
    assert_eq!(app.expanded_dirs.len(), 0);
}

#[test]
fn toggling_a_nested_file_asks_with_its_full_path() {
    let mut app = App::new("/repo".to_string(), vec![child("x.rs", "src/app", false, 2)]);
    assert_eq!(app.toggle_directory(), Action::ShowDiff { path: "src/app/x.rs".to_string() });
}

#[test]
fn expanding_splices_the_listing_behind_the_directory() {
    let mut app = sample();
    app.selected_index = 1;
    assert_eq!(app.handle_key_event(Key::Enter), Action::ListDirectory { path: "src".to_string() });
    assert_eq!(app.expanded_dirs.get("/repo/src"), Some(&true));
    assert_eq!(app.files.len(), 4);
    let listing = vec![child("app", "src", true, 0), child("lib.rs", "src", false, 0), child("app/x.rs", "src", false, 1)];
    assert!(app.insert_children(listing));
    assert_eq!(
        rows(&app),
        vec![
            ("docs".to_string(), 0),
            ("src".to_string(), 0),
            ("src/app".to_string(), 1),
            ("src/lib.rs".to_string(), 1),
            ("src/app/x.rs".to_string(), 2),
            ("a.txt".to_string(), 0),
            ("b.txt".to_string(), 0),
        ]
    );
    assert_eq!(app.selected_index, 1);
}

#[test]
fn expand_then_collapse_gives_the_rows_back() {
    let mut app = sample();
    app.selected_index = 1;
    let before = rows(&app);
    app.toggle_directory();
    assert!(app.insert_children(vec![child("app", "src", true, 0), child("lib.rs", "src", false, 0)]));
    assert_eq!(app.files.len(), 6);
    assert_eq!(app.toggle_directory(), Action::Idle);
    assert_eq!(rows(&app), before);
    assert_eq!(app.expanded_dirs.get("/repo/src"), Some(&false));
    assert_eq!(app.selected_index, 1);
}

#[test]
fn collapsing_a_parent_removes_nested_expansions() {
    let mut app = sample();
    app.selected_index = 1;
    let before = rows(&app);
    app.toggle_directory();
    app.insert_children(vec![child("app", "src", true, 0), child("lib.rs", "src", false, 0)]);
    app.selected_index = 2;
    assert_eq!(app.toggle_directory(), Action::ListDirectory { path: "src/app".to_string() });
    assert!(app.insert_children(vec![child("ui", "src/app", true, 0), child("x.rs", "src/app", false, 0)]));
    app.selected_index = 3;
    assert_eq!(app.toggle_directory(), Action::ListDirectory { path: "src/app/ui".to_string() });
    assert!(app.insert_children(vec![child("draw.rs", "src/app/ui", false, 0)]));
    assert_eq!(
        rows(&app),
        vec![
            ("docs".to_string(), 0),
            ("src".to_string(), 0),
            ("src/app".to_string(), 1),
            ("src/app/ui".to_string(), 2),
            ("src/app/ui/draw.rs".to_string(), 3),
            ("src/app/x.rs".to_string(), 2),
            ("src/lib.rs".to_string(), 1),
            ("a.txt".to_string(), 0),
            ("b.txt".to_string(), 0),
        ]
    );
    app.selected_index = 1;
    assert_eq!(app.toggle_directory(), Action::Idle);
    assert_eq!(rows(&app), before);
}

#[test]
fn collapsing_the_last_directory_removes_to_the_end() {
    let mut app = App::new("/repo".to_string(), vec![file("a.txt", 0), dir("src", 0)]);
    app.selected_index = 1;
    app.toggle_directory();
    app.insert_children(vec![child("lib.rs", "src", false, 0), child("deep/x", "src", false, 1)]);
    assert_eq!(app.files.len(), 4);
    app.collapse_directory(1);
    assert_eq!(rows(&app), vec![("a.txt".to_string(), 0), ("src".to_string(), 0)]);
    app.collapse_directory(1);
    assert_eq!(app.files.len(), 2);
    app.collapse_directory(9);
    assert_eq!(app.files.len(), 2);
}

#[test]
fn children_are_not_inserted_behind_a_file() {
    let mut app = sample();
    app.selected_index = 2;
    assert!(!app.insert_children(vec![file("x", 0)]));
    assert_eq!(app.files.len(), 4);
}

#[test]
fn children_whose_depth_does_not_fit_are_refused() {
    let mut app = App::new("/repo".to_string(), vec![dir("src", 5)]);
    assert!(!app.insert_children(vec![file("ok", 0), file("far", usize::MAX - 5)]));
    assert_eq!(app.files.len(), 1);
    assert!(app.insert_children(vec![file("ok", 0), file("far", usize::MAX - 6)]));
    assert_eq!(app.files[2].depth, usize::MAX);
    let mut edge = App::new("/repo".to_string(), vec![dir("src", usize::MAX)]);
    assert!(!edge.insert_children(Vec::new()));
}

#[test]
fn commit_key_asks_for_staging_and_the_dialog_opens_after_it() {
    let mut app = sample();
    assert_eq!(app.handle_key_event(Key::Char('c')), Action::StageAll);
    assert!(!app.commit_modal.is_visible);
    assert!(app.finish_staging(Ok(())).is_ok());
    assert!(app.commit_modal.is_visible);
}

#[test]
fn failed_staging_leaves_the_dialog_closed() {
    let mut app = sample();
    app.handle_key_event(Key::Char('c'));
    let error = app.finish_staging(Err("index is locked".to_string())).unwrap_err();
    assert_eq!(error.kind, ErrorKind::StagingFailed);
    assert_eq!(error.message, "index is locked");
    assert!(!app.commit_modal.is_visible);
    assert_eq!(app.files.len(), 4);
}

#[test]
fn typing_edits_the_message_only_while_the_dialog_is_open() {
    let mut app = sample();
    app.handle_key_event(Key::Char('x'));
    app.handle_key_event(Key::Backspace);
    assert_eq!(app.commit_modal.content, "");
    app.finish_staging(Ok(())).unwrap();
    for c in "fix: d?c".chars() {
        assert_eq!(app.handle_key_event(Key::Char(c)), Action::Idle);
    }
    assert_eq!(app.commit_modal.content, "fix: d?c");
    app.handle_key_event(Key::Backspace);
    app.handle_key_event(Key::Backspace);
    assert_eq!(app.commit_modal.content, "fix: d");
    assert!(!app.help_modal.is_visible);
    assert!(!app.debug_mode);
    for _ in 0..10 {
        app.handle_key_event(Key::Backspace);
    }
    assert_eq!(app.commit_modal.content, "");
    assert!(app.commit_modal.is_visible);
}

#[test]
fn navigation_keys_are_inert_while_the_dialog_is_open() {
    let mut app = sample();
    app.selected_index = 1;
    app.finish_staging(Ok(())).unwrap();
    for key in [Key::Up, Key::Down, Key::PageUp, Key::PageDown, Key::Left, Key::Right, Key::Other] {
        assert_eq!(app.handle_key_event(key), Action::Idle);
    }
    assert_eq!(app.selected_index, 1);
    assert_eq!(app.details_scroll, 0);
    assert_eq!(app.focused_pane, FocusedPane::FileList);
    assert_eq!(app.files.len(), 4);
    assert!(app.commit_modal.is_visible);
}

#[test]
fn canceling_the_dialog_discards_the_message() {
    let mut app = sample();
    assert_eq!(app.handle_key_event(Key::Char('c')), Action::StageAll);
    app.finish_staging(Ok(())).unwrap();
    for c in "wip".chars() {
        app.handle_key_event(Key::Char(c));
    }
    assert_eq!(app.commit_modal.content, "wip");
    assert_eq!(app.handle_key_event(Key::Esc), Action::Idle);
    assert!(!app.commit_modal.is_visible);
    assert_eq!(app.commit_modal.content, "");
    assert_eq!(app.files.len(), 4);
    app.handle_key_event(Key::Char('c'));
    app.finish_staging(Ok(())).unwrap();
    assert!(app.commit_modal.is_visible);
    assert_eq!(app.commit_modal.content, "");
}

#[test]
fn confirming_asks_for_a_commit_with_the_message() {
    let mut app = sample();
    app.finish_staging(Ok(())).unwrap();
    for c in "test".chars() {
        app.handle_key_event(Key::Char(c));
    }
    assert_eq!(app.handle_key_event(Key::Enter), Action::Commit { message: "test".to_string() });
    assert!(app.commit_modal.is_visible);
    assert_eq!(app.commit_modal.content, "test");
}

#[test]
fn commit_that_went_through_resets_the_tree() {
    let mut app = sample();
    app.selected_index = 1;
    app.toggle_directory();
    app.insert_children(vec![child("lib.rs", "src", false, 0)]);
    app.selected_index = 4;
    app.right_pane_content = "old diff".to_string();
    app.finish_staging(Ok(())).unwrap();
    app.handle_key_event(Key::Char('m'));
    assert!(app.finish_commit(Ok(Ok(vec![file("left.txt", 0), file("over.txt", 0)]))).is_ok());
    assert!(!app.commit_modal.is_visible);
    assert_eq!(app.commit_modal.content, "");
    assert_eq!(rows(&app), vec![("left.txt".to_string(), 0), ("over.txt".to_string(), 0)]);
    assert_eq!(app.expanded_dirs.len(), 0);
    assert_eq!(app.right_pane_content, "");
    assert_eq!(app.selected_index, 1);
}

#[test]
fn commit_of_the_last_change_leaves_an_empty_tree() {
    let reported = vec![StatusRecord { path: "u.txt".to_string(), flags: WT_NEW, is_dir: false }];
    let on_disk = |flags: u32| {
        vec![
            ScanRecord { path: "src".to_string(), flags: None, is_dir: true },
            ScanRecord { path: "src/lib.rs".to_string(), flags: Some(0), is_dir: false },
            ScanRecord { path: "u.txt".to_string(), flags: Some(flags), is_dir: false },
        ]
    };
    let settle = |found: Vec<ScanRecord>| {
        Scan { pending: Vec::new(), found, skipped: ".git".to_string() }.finish()
    };
    let mut app =
        App::new("/repo".to_string(), get_file_list("", &reported, &settle(on_disk(WT_NEW))));
    assert_eq!(rows(&app), vec![("u.txt".to_string(), 0)]);
    assert_eq!(app.handle_key_event(Key::Char('c')), Action::StageAll);
    app.finish_staging(Ok(())).unwrap();
    for c in "test".chars() {
        app.handle_key_event(Key::Char(c));
    }
    assert_eq!(app.handle_key_event(Key::Enter), Action::Commit { message: "test".to_string() });
    // The committed file is still on disk, and current.
    let rebuilt = get_file_list("", &Vec::new(), &settle(on_disk(0)));
    assert!(rebuilt.is_empty());
    assert!(app.finish_commit(Ok(Ok(rebuilt))).is_ok());
    assert!(app.files.is_empty());
    assert!(!app.files.iter().any(|f| f.name == "u.txt"));
    assert_eq!(app.selected_index, 0);
    assert!(!app.commit_modal.is_visible);
}

#[test]
fn collapsing_a_parent_contracts_nested_expansions() {
    let mut app = sample();
    app.selected_index = 1;
    app.toggle_directory();
    app.insert_children(vec![child("app", "src", true, 0), child("lib.rs", "src", false, 0)]);
    app.selected_index = 2;
    assert_eq!(app.toggle_directory(), Action::ListDirectory { path: "src/app".to_string() });
    app.insert_children(vec![child("x.rs", "src/app", false, 0)]);
    assert_eq!(app.expanded_dirs.get("/repo/src/app"), Some(&true));
    app.selected_index = 1;
    assert_eq!(app.toggle_directory(), Action::Idle);
    assert_eq!(app.files.len(), 4);
    assert_eq!(app.expanded_dirs.get("/repo/src"), Some(&false));
    assert_eq!(app.expanded_dirs.get("/repo/src/app"), Some(&false));
    assert_eq!(app.expanded_dirs.get("/repo/docs"), None);
    assert_eq!(app.expanded_dirs.len(), 2);
    // Expanded again, the child is collapsed: Enter on it expands it.
    assert_eq!(app.toggle_directory(), Action::ListDirectory { path: "src".to_string() });
    app.insert_children(vec![child("app", "src", true, 0), child("lib.rs", "src", false, 0)]);
    app.selected_index = 2;
    assert_eq!(app.toggle_directory(), Action::ListDirectory { path: "src/app".to_string() });
    assert!(app.insert_children(vec![child("x.rs", "src/app", false, 0)]));
    assert_eq!(app.files.len(), 7);
    assert_eq!(app.files[3].path(), "src/app/x.rs");
}

#[test]
fn collapse_leaves_other_flags_alone() {
    let mut app = sample();
    app.selected_index = 0;
    app.toggle_directory();
    app.insert_children(vec![child("guide", "docs", true, 0)]);
    app.selected_index = 2;
    app.toggle_directory();
    app.insert_children(vec![child("lib.rs", "src", false, 0), child("never", "src", true, 0)]);
    assert_eq!(app.expanded_dirs.get("/repo/docs"), Some(&true));
    assert_eq!(app.expanded_dirs.get("/repo/src"), Some(&true));
    app.collapse_directory(2);
    assert_eq!(app.files.len(), 5);
    assert_eq!(app.expanded_dirs.get("/repo/docs"), Some(&true));
    assert_eq!(app.expanded_dirs.get("/repo/src"), Some(&true));
    assert_eq!(app.expanded_dirs.get("/repo/src/never"), None);
    app.collapse_directory(0);
    assert_eq!(app.expanded_dirs.get("/repo/docs"), Some(&true));
    assert_eq!(app.files.len(), 4);
}

#[test]
fn failed_commit_keeps_the_dialog_and_the_message() {
    let mut app = sample();
    app.finish_staging(Ok(())).unwrap();
    for c in "first".chars() {
        app.handle_key_event(Key::Char(c));
    }
    app.handle_key_event(Key::Enter);
    let error = app.finish_commit(Err("reference 'HEAD' not found".to_string())).unwrap_err();
    assert_eq!(error.kind, ErrorKind::CommitFailed);
    assert_eq!(error.message, "reference 'HEAD' not found");
    assert!(app.commit_modal.is_visible);
    assert_eq!(app.commit_modal.content, "first");
    assert_eq!(app.files.len(), 4);
}

#[test]
fn help_and_debug_keys_toggle() {
    let mut app = sample();
    app.handle_key_event(Key::Char('?'));
    assert!(app.help_modal.is_visible);
    app.handle_key_event(Key::Char('?'));
    assert!(!app.help_modal.is_visible);
    app.handle_key_event(Key::Char('?'));
    app.handle_key_event(Key::Esc);
    assert!(!app.help_modal.is_visible);
    assert_eq!(app.help_modal.content, get_help_content());
    app.handle_key_event(Key::Char('d'));
    assert!(app.debug_mode);
    app.handle_key_event(Key::Char('d'));
    assert!(!app.debug_mode);
    assert_eq!(app.handle_key_event(Key::Char('z')), Action::Idle);
    assert_eq!(app.handle_key_event(Key::Other), Action::Idle);
    assert_eq!(app.handle_key_event(Key::Backspace), Action::Idle);
}

#[test]
fn debug_log_appends_lines() {
    let mut app = sample();
    app.debug_log("one");
    app.debug_log("");
    app.debug_log("two");
    assert_eq!(app.debug_content, "one\n\ntwo\n");
}

#[test]
fn every_operation_has_its_kind_of_failure() {
    let cases = [
        (Operation::OpenRepository, ErrorKind::RepositoryUnavailable, "repository unavailable: gone", false),
        (Operation::QueryStatus, ErrorKind::StatusQueryFailed, "status query failed: gone", false),
        (Operation::ComputeDiff, ErrorKind::DiffComputationFailed, "diff computation failed: gone", true),
        (Operation::Stage, ErrorKind::StagingFailed, "staging failed: gone", true),
        (Operation::Commit, ErrorKind::CommitFailed, "commit failed: gone", true),
    ];
    for (operation, kind, text, recoverable) in cases {
        let error = AppError::new(operation, "gone");
        assert_eq!(error.kind, kind);
        assert_eq!(ErrorKind::of(operation), kind);
        assert_eq!(error.message, "gone");
        assert_eq!(error.describe(), text);
        assert_eq!(kind.is_recoverable(), recoverable);
    }
}

#[test]
fn failure_is_shown_in_the_details_pane() {
    let mut app = sample();
    app.show_error(&AppError::new(Operation::ComputeDiff, "object not found"));
    assert_eq!(app.right_pane_content, "diff computation failed: object not found");
    assert_eq!(app.files.len(), 4);
    assert_eq!(app.selected_index, 0);
}

#[test]
fn quit_key_ends_the_session_only_while_browsing() {
    let mut app = sample();
    assert_eq!(app.handle_key_event(Key::Char('q')), Action::Quit);
    app.handle_key_event(Key::Char('?'));
    assert_eq!(app.handle_key_event(Key::Char('q')), Action::Idle);
    app.handle_key_event(Key::Esc);
    app.finish_staging(Ok(())).unwrap();
    assert_eq!(app.handle_key_event(Key::Char('q')), Action::Idle);
    assert_eq!(app.commit_modal.content, "q");
}

#[test]
fn failed_listing_stands_as_a_row() {
    let error = AppError::new(Operation::QueryStatus, "index is corrupt");
    let row = FileEntry::error_row(&error);
    assert_eq!(row.name, "status query failed: index is corrupt");
    assert_eq!(row.status, FileStatus::Current);
    assert!(!row.is_dir);
    assert_eq!(row.parent, None);
    assert_eq!(row.depth, 0);
    let mut app = sample();
    app.selected_index = 1;
    app.toggle_directory();
    assert!(app.insert_children(vec![row]));
    assert_eq!(app.files.len(), 5);
    assert_eq!(app.files[2].name, "status query failed: index is corrupt");
    assert_eq!(app.files[2].depth, 1);
}

#[test]
fn listing_that_was_built_is_spliced_in() {
    let mut app = sample();
    app.selected_index = 1;
    app.toggle_directory();
    let rows = vec![child("lib.rs", "src", false, 0)];
    assert!(app.finish_listing(Ok(rows)).is_ok());
    assert_eq!(app.files.len(), 5);
    assert_eq!(app.files[2].path(), "src/lib.rs");
    assert_eq!(app.files[2].depth, 1);
    app.selected_index = 3;
    assert!(app.finish_listing(Ok(vec![file("x", 0)])).is_ok());
    assert_eq!(app.files.len(), 5);
}

#[test]
fn listing_that_failed_is_spliced_in_as_one_row() {
    let mut app = sample();
    app.selected_index = 1;
    app.toggle_directory();
    let error = app.finish_listing(Err("index is corrupt".to_string())).unwrap_err();
    assert_eq!(error.kind, ErrorKind::StatusQueryFailed);
    assert_eq!(error.message, "index is corrupt");
    assert_eq!(app.files.len(), 5);
    assert_eq!(app.files[2].name, "status query failed: index is corrupt");
    assert_eq!(app.files[2].depth, 1);
    assert!(!app.files[2].is_dir);
    assert_eq!(app.files[3].name, "a.txt");
}

#[test]
fn rebuild_that_failed_after_a_commit_leaves_one_row() {
    let mut app = sample();
    app.selected_index = 3;
    app.right_pane_content = "old diff".to_string();
    app.finish_staging(Ok(())).unwrap();
    app.handle_key_event(Key::Char('m'));
    let error = app.finish_commit(Ok(Err("index is corrupt".to_string()))).unwrap_err();
    assert_eq!(error.kind, ErrorKind::StatusQueryFailed);
    assert_eq!(error.message, "index is corrupt");
    assert!(!app.commit_modal.is_visible);
    assert_eq!(app.commit_modal.content, "");
    assert_eq!(app.files.len(), 1);
    assert_eq!(app.files[0].name, "status query failed: index is corrupt");
    assert_eq!(app.selected_index, 0);
    assert_eq!(app.right_pane_content, "");
    assert_eq!(app.expanded_dirs.len(), 0);
}
