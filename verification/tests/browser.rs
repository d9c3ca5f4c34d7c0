use filenav::app_state::AppState;
use filenav::clipboard::{deconflict_name, delete_cursor, paste, yank};
use filenav::command::{Command, CommandError, CommandName, execute_command, split_line};
use filenav::fs_path::{FsPath, is_hidden_name, prefix_underscore, str_eq};
use filenav::listing::visible_children;
use filenav::navigation::{
    NavError, cursor_down, cursor_up, enter_directory, exit_directory, toggle_hidden,
    toggle_select,
};

fn path(parts: &[&str]) -> FsPath {
    FsPath { parts: parts.iter().map(|s| s.to_string()).collect() }
}

fn names(xs: &[&str]) -> Vec<String> {
    xs.iter().map(|s| s.to_string()).collect()
}

#[test]
fn hidden_names_start_with_a_dot() {
    assert!(is_hidden_name(&".config".to_string()));
    assert!(!is_hidden_name(&"config".to_string()));
    assert!(!is_hidden_name(&"".to_string()));
}

#[test]
fn lister_filters_hidden_entries() {
    let raw = names(&[".hidden", "visible", ".git", "src"]);
    assert_eq!(visible_children(&raw, false), names(&["visible", "src"]));
    assert_eq!(visible_children(&raw, true), raw);
}

#[test]
fn path_operations() {
    let p = path(&["a", "b"]);
    assert!(p.eq_path(&path(&["a", "b"])));
    assert!(!p.eq_path(&path(&["a"])));
    assert_eq!(p.file_name(), Some("b".to_string()));
    assert!(p.parent().unwrap().eq_path(&path(&["a"])));
    assert!(FsPath::root().parent().is_none());
    assert!(FsPath::root().file_name().is_none());
    assert!(p.join(&"c".to_string()).eq_path(&path(&["a", "b", "c"])));
    assert_eq!(prefix_underscore(&"x".to_string()), "_x".to_string());
    assert!(str_eq(&"same".to_string(), &"same".to_string()));
    assert!(!str_eq(&"same".to_string(), &"other".to_string()));
}

#[test]
fn new_state_starts_at_the_top() {
    let st = AppState::new(path(&["a"]), names(&["x", ".h", "y"]));
    assert_eq!(st.cursor, 0);
    assert!(!st.show_hidden);
    assert_eq!(st.child_files, names(&["x", "y"]));
    assert!(st.clipboard.is_empty());
    assert!(st.selected_paths().is_empty());
}

#[test]
fn cursor_moves_clamp_at_both_ends() {
    let mut st = AppState::new(path(&["a"]), names(&["x", "y"]));
    cursor_up(&mut st);
    assert_eq!(st.cursor, 0);
    cursor_down(&mut st);
    assert_eq!(st.cursor, 1);
    cursor_down(&mut st);
    cursor_down(&mut st);
    cursor_down(&mut st);
    assert_eq!(st.cursor, 1);
    cursor_up(&mut st);
    assert_eq!(st.cursor, 0);
}

#[test]
fn cursor_moves_do_nothing_in_an_empty_directory() {
    let mut st = AppState::new(path(&["a"]), names(&[]));
    assert_eq!(st.cursor, 0);
    cursor_down(&mut st);
    assert_eq!(st.cursor, 0);
    cursor_up(&mut st);
    assert_eq!(st.cursor, 0);
}

#[test]
fn enter_then_exit_restores_the_cursor() {
    // Directory /a holds x and the subdirectory y; the cursor walks into y
    // and back out, landing on y again.
    let mut st = AppState::new(path(&["a"]), names(&["x", "y"]));
    cursor_down(&mut st);
    assert_eq!(st.cursor, 1);
    enter_directory(&mut st, names(&["inner1", "inner2"]));
    assert!(st.current_path.eq_path(&path(&["a", "y"])));
    assert_eq!(st.cursor, 0);
    assert_eq!(st.child_files, names(&["inner1", "inner2"]));
    let r = exit_directory(&mut st, names(&["x", "y"]));
    assert!(r.is_ok());
    assert!(st.current_path.eq_path(&path(&["a"])));
    assert_eq!(st.cursor, 1);
}

#[test]
fn cursor_memory_survives_a_revisit() {
    let mut st = AppState::new(path(&["a"]), names(&["x", "y"]));
    cursor_down(&mut st);
    enter_directory(&mut st, names(&["c1", "c2", "c3"]));
    cursor_down(&mut st);
    assert_eq!(st.cursor, 1);
    let r = exit_directory(&mut st, names(&["x", "y"]));
    assert!(r.is_ok());
    enter_directory(&mut st, names(&["c1", "c2", "c3"]));
    assert_eq!(st.cursor, 1);
}

#[test]
fn exit_fails_when_the_directory_vanished() {
    let mut st = AppState::new(path(&["a"]), names(&["x", "y"]));
    cursor_down(&mut st);
    enter_directory(&mut st, names(&["c1"]));
    let r = exit_directory(&mut st, names(&["x"]));
    assert_eq!(r, Err(NavError::EntryVanished));
    assert!(st.current_path.eq_path(&path(&["a", "y"])));
    assert_eq!(st.child_files, names(&["c1"]));
}

#[test]
fn toggling_selection_twice_leaves_no_selection_behind() {
    let mut st = AppState::new(path(&["a"]), names(&["x", "y"]));
    toggle_select(&mut st);
    assert_eq!(st.cursor, 1);
    let sel = st.selected_paths();
    assert_eq!(sel.len(), 1);
    assert!(sel[0].eq_path(&path(&["a", "x"])));
    cursor_up(&mut st);
    toggle_select(&mut st);
    assert!(st.selected_paths().is_empty());
    assert!(st.selected_map.entries.is_empty());
}

#[test]
fn selection_advances_and_accumulates() {
    let mut st = AppState::new(path(&["a"]), names(&["x", "y", "z"]));
    toggle_select(&mut st);
    toggle_select(&mut st);
    assert_eq!(st.cursor, 2);
    let sel = st.selected_paths();
    assert_eq!(sel.len(), 2);
    assert!(sel[0].eq_path(&path(&["a", "x"])));
    assert!(sel[1].eq_path(&path(&["a", "y"])));
}

#[test]
fn toggle_hidden_refilters_and_back() {
    let raw = names(&[".h", "x"]);
    let mut st = AppState::new(path(&["a"]), raw.clone());
    assert_eq!(st.child_files, names(&["x"]));
    toggle_hidden(&mut st, raw.clone());
    assert!(st.show_hidden);
    assert_eq!(st.child_files, names(&[".h", "x"]));
    toggle_hidden(&mut st, raw);
    assert!(!st.show_hidden);
    assert_eq!(st.child_files, names(&["x"]));
}

#[test]
fn yank_takes_the_cursor_entry_when_nothing_is_selected() {
    let mut st = AppState::new(path(&["d"]), names(&["report", "notes"]));
    yank(&mut st, false);
    assert_eq!(st.clipboard.len(), 1);
    assert!(st.clipboard[0].path.eq_path(&path(&["d", "report"])));
    assert!(!st.clipboard[0].cut);
}

#[test]
fn yank_takes_the_selection_when_there_is_one() {
    let mut st = AppState::new(path(&["d"]), names(&["a", "b", "c"]));
    toggle_select(&mut st);
    toggle_select(&mut st);
    yank(&mut st, true);
    assert_eq!(st.clipboard.len(), 2);
    assert!(st.clipboard[0].path.eq_path(&path(&["d", "a"])));
    assert!(st.clipboard[1].path.eq_path(&path(&["d", "b"])));
    assert!(st.clipboard[0].cut && st.clipboard[1].cut);
}

#[test]
fn yank_in_an_empty_directory_changes_nothing() {
    let mut st = AppState::new(path(&["d"]), names(&[]));
    yank(&mut st, false);
    assert!(st.clipboard.is_empty());
}

#[test]
fn paste_prepends_one_underscore_on_a_collision() {
    // Yank with no selection, then paste where a same-named entry exists:
    // the copy arrives as _report and the original name is left alone.
    let mut st = AppState::new(path(&["d"]), names(&["report", "notes"]));
    yank(&mut st, false);
    let ops = paste(&mut st, &names(&["report", "notes"]));
    assert_eq!(ops.len(), 1);
    assert!(ops[0].src.eq_path(&path(&["d", "report"])));
    assert!(ops[0].dest.eq_path(&path(&["d", "_report"])));
    assert!(!ops[0].remove_source);
}

#[test]
fn paste_keeps_prepending_until_the_name_is_free() {
    let existing = names(&["report", "_report", "notes"]);
    assert_eq!(deconflict_name(&"report".to_string(), &existing), "__report".to_string());
    assert_eq!(deconflict_name(&"notes2".to_string(), &existing), "notes2".to_string());
}

#[test]
fn paste_of_a_cut_clipboard_moves_the_entry() {
    let mut st = AppState::new(path(&["d"]), names(&["report", "notes"]));
    yank(&mut st, true);
    let ops = paste(&mut st, &names(&["notes"]));
    assert_eq!(ops.len(), 1);
    assert!(ops[0].src.eq_path(&path(&["d", "report"])));
    assert!(ops[0].dest.eq_path(&path(&["d", "report"])));
    assert!(ops[0].remove_source);
}

#[test]
fn paste_remembers_the_cursor_for_the_refresh() {
    let mut st = AppState::new(path(&["d"]), names(&["a", "b"]));
    cursor_down(&mut st);
    yank(&mut st, false);
    let _ops = paste(&mut st, &names(&["a", "b"]));
    st.refresh(names(&["a", "_a", "b"]));
    assert_eq!(st.cursor, 1);
}

#[test]
fn delete_targets_selection_or_cursor() {
    let mut st = AppState::new(path(&["d"]), names(&["a", "b"]));
    let plain = delete_cursor(&st);
    assert_eq!(plain.len(), 1);
    assert!(plain[0].eq_path(&path(&["d", "a"])));
    toggle_select(&mut st);
    toggle_select(&mut st);
    let selected = delete_cursor(&st);
    assert_eq!(selected.len(), 2);
    assert!(selected[0].eq_path(&path(&["d", "a"])));
    assert!(selected[1].eq_path(&path(&["d", "b"])));
}

#[test]
fn delete_in_an_empty_directory_plans_nothing() {
    let st = AppState::new(path(&["d"]), names(&[]));
    assert!(delete_cursor(&st).is_empty());
}

#[test]
fn command_lines_split_on_single_spaces() {
    assert_eq!(split_line("mkdir a b"), names(&["mkdir", "a", "b"]));
    assert_eq!(split_line(""), names(&[""]));
    assert_eq!(split_line("a  b"), names(&["a", "", "b"]));
}

#[test]
fn only_mkdir_is_a_command() {
    assert!(matches!(CommandName::try_from("mkdir"), Ok(CommandName::MkDir)));
    assert_eq!(CommandName::try_from("rmdir").err(), Some(CommandError::NotACommand));
    let cmd = match Command::try_from("mkdir one two") {
        Ok(c) => c,
        Err(_) => panic!("mkdir line must parse"),
    };
    assert_eq!(cmd.arguments, names(&["one", "two"]));
    assert_eq!(execute_command(cmd), names(&["one", "two"]));
    assert!(Command::try_from("touch file").is_err());
    assert!(Command::try_from("").is_err());
}
