use lib::model::{ConfirmAction, InputAction, Modal, Row, SavedPane, SavedSession, SavedWindow, Session, Window};
use lib::rows::{
    add_modal_for, clamp_selected, default_path_for_row, default_path_modal_for, delete_modal_for,
    first_selectable, is_selectable, kill_session_modal_for, last_selectable, load_rows,
    nearest_parent_name, reload_rows_clamped, rename_modal_for, row_key, row_target,
    selectable_after, selectable_before, selected_index_for_current_window, selected_index_for_key,
    session_from_row, session_is_hidden,
};
use lib::store::{ExpandedState, LabelMap, StrSet};

fn saved(name: &str, label: &str, default_path: &str) -> SavedSession {
    SavedSession {
        name: name.to_string(),
        default_path: default_path.to_string(),
        saved_label: label.to_string(),
        windows: vec![SavedWindow {
            index: "0".to_string(),
            name: "main".to_string(),
            active: true,
            layout: String::new(),
            panes: vec![SavedPane {
                index: "0".to_string(),
                active: true,
                cwd: "/tmp".to_string(),
                command: String::new(),
            }],
        }],
    }
}

fn window(sid: &str, sname: &str, depth: usize, id: &str, index: &str, name: &str, active: bool, labels: &[&str]) -> Window {
    Window {
        session_id: sid.to_string(),
        session_name: sname.to_string(),
        depth,
        id: id.to_string(),
        index: index.to_string(),
        name: name.to_string(),
        active,
        pane_labels: labels.iter().map(|s| s.to_string()).collect(),
    }
}

fn session(id: &str, name: &str, display: &str, depth: usize, current: bool, label: Option<&str>, path: &str) -> Session {
    Session {
        id: id.to_string(),
        name: name.to_string(),
        display_name: display.to_string(),
        depth,
        current,
        saved_label: label.map(|s| s.to_string()),
        default_path: path.to_string(),
    }
}

const SESSIONS: &str = "$1\twork\t\n$2\twork/sub\t /tmp \n$3\t_popup_x\t\n$4\tzeta\n";
const WINDOWS: &str = "$1\twork\t@1\t0\tmain\t1\n$2\twork/sub\t@2\t1\tedit\t0\n$2\twork/sub\t@3\t0\tlogs\t1\n$3\t_popup_x\t@4\t0\tp\t1\n";

fn fixture(expanded: &ExpandedState, show_hidden: bool) -> Vec<Row> {
    let mut watch = StrSet::new();
    watch.insert("@3".to_string());
    let mut labels = LabelMap::new();
    labels.add("@1".to_string(), vec!["vim".to_string()]);
    let saved_sessions = vec![saved("old", "10:00", "/srv"), saved("work", "yesterday", "")];
    load_rows("$2\n", SESSIONS, WINDOWS, expanded, &watch, &labels, &saved_sessions, show_hidden)
}

fn expected_rows() -> Vec<Row> {
    vec![
        Row::WatchHeader,
        Row::WatchWindow(window("$2", "work/sub", 0, "@3", "0", "logs", true, &[])),
        Row::Session(session("$1", "work", "work", 0, false, Some("yesterday"), "")),
        Row::Window(window("$1", "work", 0, "@1", "0", "main", true, &["vim"])),
        Row::Session(session("$2", "work/sub", "sub", 1, true, None, "/tmp")),
        Row::Window(window("$2", "work/sub", 1, "@2", "1", "edit", false, &[])),
        Row::Window(window("$2", "work/sub", 1, "@3", "0", "logs", true, &[])),
        Row::Session(session("$4", "zeta", "zeta", 0, false, None, "")),
        Row::SavedSession(saved("old", "10:00", "/srv")),
    ]
}

#[test]
fn hidden_session_names() {
    assert!(session_is_hidden("_popup_x"));
    assert!(session_is_hidden("work/__float"));
    assert!(session_is_hidden("▣ box"));
    assert!(session_is_hidden("a/🤖bot"));
    assert!(!session_is_hidden("work"));
    assert!(!session_is_hidden("work/_single"));
}

#[test]
fn nearest_parent_skips_missing_levels() {
    let mut live = StrSet::new();
    live.insert("a".to_string());
    assert_eq!(nearest_parent_name("a/b/c", &live), Some("a".to_string()));
    assert_eq!(nearest_parent_name("a", &live), None);
    assert_eq!(nearest_parent_name("x/y", &live), None);
    live.insert("a/b".to_string());
    assert_eq!(nearest_parent_name("a/b/c", &live), Some("a/b".to_string()));
}

#[test]
fn rows_form_a_tree() {
    let rows = fixture(&ExpandedState::new(), false);
    assert_eq!(rows, expected_rows());
}

#[test]
fn collapsed_session_hides_its_windows_and_children() {
    let mut ex = ExpandedState::new();
    ex.insert("work".to_string(), false);
    let rows = fixture(&ex, false);
    let all = expected_rows();
    assert_eq!(rows, vec![all[0].clone(), all[1].clone(), all[2].clone(), all[7].clone(), all[8].clone()]);
}

#[test]
fn hidden_sessions_shown_on_request() {
    let rows = fixture(&ExpandedState::new(), true);
    assert_eq!(rows.len(), 11);
    assert_eq!(rows[2], Row::Session(session("$3", "_popup_x", "_popup_x", 0, false, None, "")));
    assert_eq!(rows[3], Row::Window(window("$3", "_popup_x", 0, "@4", "0", "p", true, &[])));
}

#[test]
fn no_hidden_rows_by_default() {
    let rows = fixture(&ExpandedState::new(), false);
    for r in &rows {
        match r {
            Row::Session(s) => assert!(!session_is_hidden(&s.name)),
            Row::Window(w) | Row::WatchWindow(w) => assert!(!session_is_hidden(&w.session_name)),
            Row::SavedSession(s) => assert!(!session_is_hidden(&s.name)),
            Row::WatchHeader => {}
        }
    }
}

#[test]
fn watched_windows_sorted_by_session_then_index() {
    let mut watch = StrSet::new();
    watch.insert("@3".to_string());
    watch.insert("@2".to_string());
    watch.insert("@1".to_string());
    let rows = load_rows("", SESSIONS, WINDOWS, &ExpandedState::new(), &watch, &LabelMap::new(), &[], false);
    let ids: Vec<String> = rows
        .iter()
        .filter_map(|r| match r {
            Row::WatchWindow(w) => Some(w.id.clone()),
            _ => None,
        })
        .collect();
    assert_eq!(ids, vec!["@1".to_string(), "@3".to_string(), "@2".to_string()]);
}

#[test]
fn empty_listing_gives_no_rows() {
    let rows = load_rows("", "", "", &ExpandedState::new(), &StrSet::new(), &LabelMap::new(), &[], false);
    assert!(rows.is_empty());
}

#[test]
fn selection_skips_watch_header() {
    let rows = expected_rows();
    assert!(!is_selectable(&rows[0]));
    let mut sel = 0usize;
    clamp_selected(&mut sel, &rows);
    assert_eq!(sel, 1);
    let mut sel = 100usize;
    clamp_selected(&mut sel, &rows);
    assert_eq!(sel, 8);
    let mut sel = 5usize;
    clamp_selected(&mut sel, &[]);
    assert_eq!(sel, 0);
    let mut sel = 3usize;
    clamp_selected(&mut sel, &[Row::WatchHeader]);
    assert_eq!(sel, 0);
}

#[test]
fn clamp_is_idempotent() {
    let rows = expected_rows();
    for start in 0..12usize {
        let mut a = start;
        clamp_selected(&mut a, &rows);
        let mut b = a;
        clamp_selected(&mut b, &rows);
        assert_eq!(a, b);
        assert!(is_selectable(&rows[a]));
    }
}

#[test]
fn moving_between_selectable_rows() {
    let rows = expected_rows();
    assert_eq!(selectable_after(&rows, 1), 2);
    assert_eq!(selectable_after(&rows, 8), 8);
    assert_eq!(selectable_before(&rows, 1), 1);
    assert_eq!(selectable_before(&rows, 3), 2);
    assert_eq!(first_selectable(&rows), 1);
    assert_eq!(last_selectable(&rows), 8);
    assert_eq!(first_selectable(&[]), 0);
}

#[test]
fn row_keys_and_targets() {
    let rows = expected_rows();
    assert_eq!(row_key(&rows[0]), "watch-header");
    assert_eq!(row_key(&rows[1]), "window\t@3");
    assert_eq!(row_key(&rows[2]), "session\t$1");
    assert_eq!(row_key(&rows[8]), "saved\told");
    assert_eq!(row_target(&rows[0]), "");
    assert_eq!(row_target(&rows[3]), "@1");
    assert_eq!(row_target(&rows[8]), "old");
    assert_eq!(selected_index_for_key(&rows, "window\t@3"), Some(1));
    assert_eq!(selected_index_for_key(&rows, "watch-header"), None);
    assert_eq!(selected_index_for_key(&rows, "session\t$9"), None);
}

#[test]
fn rows_belong_to_sessions() {
    let rows = expected_rows();
    assert_eq!(session_from_row(&rows[1]), Some(("$2".to_string(), "work/sub".to_string())));
    assert_eq!(session_from_row(&rows[2]), Some(("$1".to_string(), "work".to_string())));
    assert_eq!(session_from_row(&rows[8]), None);
    assert_eq!(session_from_row(&rows[0]), None);
}

#[test]
fn cursor_starts_on_current_window() {
    let rows = expected_rows();
    assert_eq!(selected_index_for_current_window(&rows, "@2\n"), 5);
    assert_eq!(selected_index_for_current_window(&rows, "@3"), 1);
    assert_eq!(selected_index_for_current_window(&rows, ""), 1);
    assert_eq!(selected_index_for_current_window(&rows, "@9"), 1);
}

#[test]
fn default_paths() {
    let rows = expected_rows();
    assert_eq!(default_path_for_row(&rows[2], " /srv \n", "/x"), "/srv");
    assert_eq!(default_path_for_row(&rows[2], "\n", " /x\n"), "/x");
    assert_eq!(default_path_for_row(&rows[8], "/srv", "/x"), "");
}

#[test]
fn modals_of_rows() {
    let rows = expected_rows();
    assert_eq!(
        rename_modal_for(&rows[2]),
        Modal::Input {
            title: "rename session work".to_string(),
            value: "work".to_string(),
            action: InputAction::RenameSession { target: "$1".to_string(), old_name: "work".to_string() },
        }
    );
    assert_eq!(
        rename_modal_for(&rows[3]),
        Modal::Input {
            title: "rename window 0:main".to_string(),
            value: "main".to_string(),
            action: InputAction::RenameWindow { target: "@1".to_string(), old_name: "main".to_string() },
        }
    );
    assert_eq!(
        rename_modal_for(&rows[8]),
        Modal::Input {
            title: "rename saved session old".to_string(),
            value: "old".to_string(),
            action: InputAction::RenameSavedSession { old_name: "old".to_string() },
        }
    );
    assert_eq!(rename_modal_for(&rows[0]), Modal::Closed);
    assert_eq!(
        kill_session_modal_for(&rows[3]),
        Some(Modal::Confirm {
            title: "kill session work?".to_string(),
            action: ConfirmAction::KillSession { target: "$1".to_string(), name: "work".to_string() },
        })
    );
    assert_eq!(kill_session_modal_for(&rows[8]), None);
    assert_eq!(
        delete_modal_for(&rows[3]),
        Modal::Confirm {
            title: "delete window 0:main?".to_string(),
            action: ConfirmAction::KillWindow { target: "@1".to_string(), name: "0:main".to_string() },
        }
    );
    assert_eq!(
        delete_modal_for(&rows[8]),
        Modal::Confirm {
            title: "delete saved session old?".to_string(),
            action: ConfirmAction::DeleteSaved { name: "old".to_string() },
        }
    );
    assert_eq!(
        delete_modal_for(&rows[2]),
        Modal::Confirm {
            title: "delete/kill session work?".to_string(),
            action: ConfirmAction::KillSession { target: "$1".to_string(), name: "work".to_string() },
        }
    );
    assert_eq!(delete_modal_for(&rows[0]), Modal::Closed);
}

#[test]
fn default_path_modal() {
    let rows = expected_rows();
    assert_eq!(
        default_path_modal_for(&rows[2], "/srv\n", "/x"),
        Ok(Modal::Input {
            title: "default path for work".to_string(),
            value: "/srv".to_string(),
            action: InputAction::SetDefaultPath { target: "$1".to_string(), name: "work".to_string() },
        })
    );
    assert_eq!(
        default_path_modal_for(&rows[8], "", ""),
        Err("restore saved session before changing path".to_string())
    );
}

#[test]
fn add_modal() {
    let rows = expected_rows();
    assert_eq!(
        add_modal_for(&rows[0], "", " /cwd \n"),
        Modal::Input {
            title: "add: s:name for session".to_string(),
            value: String::new(),
            action: InputAction::AddTarget { session_target: None, session_name: None, cwd: "/cwd".to_string() },
        }
    );
    assert_eq!(
        add_modal_for(&rows[8], "", "/ignored"),
        Modal::Input {
            title: "add: s:name for session".to_string(),
            value: String::new(),
            action: InputAction::AddTarget { session_target: None, session_name: None, cwd: "/srv".to_string() },
        }
    );
    assert_eq!(
        add_modal_for(&rows[3], "", "/home"),
        Modal::Input {
            title: "add in work: window name, or s:name".to_string(),
            value: String::new(),
            action: InputAction::AddTarget {
                session_target: Some("$1".to_string()),
                session_name: Some("work".to_string()),
                cwd: "/home".to_string(),
            },
        }
    );
}

#[test]
fn reload_keeps_selected_row() {
    let mut watch = StrSet::new();
    watch.insert("@3".to_string());
    let mut labels = LabelMap::new();
    labels.add("@1".to_string(), vec!["vim".to_string()]);
    let saved_sessions = vec![saved("old", "10:00", "/srv"), saved("work", "yesterday", "")];
    let mut rows = expected_rows();
    let mut selected = 7usize;
    let mut ex = ExpandedState::new();
    ex.insert("work".to_string(), false);
    reload_rows_clamped(&mut rows, &mut selected, "$2", SESSIONS, WINDOWS, &ex, &watch, &labels, &saved_sessions, false);
    assert_eq!(rows.len(), 5);
    assert_eq!(selected, 3);
    assert_eq!(row_key(&rows[selected]), "session\t$4");
    let mut selected = 4usize;
    let mut rows = expected_rows();
    reload_rows_clamped(&mut rows, &mut selected, "$2", SESSIONS, WINDOWS, &ex, &watch, &labels, &saved_sessions, false);
    assert_eq!(selected, 4);
}
