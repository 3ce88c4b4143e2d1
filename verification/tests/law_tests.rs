use lib::actions::{handle_modal_key, ModalKeyResult};
use lib::model::{ConfirmAction, InputAction, Modal, Row, SavedPane, SavedSession, SavedWindow, Session};
use lib::overview::{overview_key, KeyEffect, ViewState};
use lib::preview::{ansi_fit, pane_preview, pane_regions, window_layout_preview, PaneGeom};
use lib::render::{frame_layout, pane_columns, render, StatCells};
use lib::restore::{restore_saved_session, RestorePhase, RestoreReply, RestoreStep};
use lib::rows::{load_rows, nearest_parent_name};
use lib::store::{ExpandedState, LabelMap, StrSet};
use lib::text::{plain_truncate, strip_ansi, text_width, visible_truncate_ansi};

fn session_row(id: &str, name: &str) -> Row {
    Row::Session(Session {
        id: id.to_string(),
        name: name.to_string(),
        display_name: name.to_string(),
        depth: 0,
        current: false,
        saved_label: None,
        default_path: String::new(),
    })
}

fn view(selected: usize) -> ViewState {
    ViewState { selected, preview_percent: 65, show_preview: true, message: String::new(), modal: Modal::Closed }
}

#[test]
fn strip_keeps_width() {
    for s in ["\x1b[1;31mred\x1b[0m", "a\tb", "漢字\x1b[2Jx", "plain"] {
        assert_eq!(text_width(&strip_ansi(s)), text_width(s));
    }
}

#[test]
fn cuts_fit_their_cells() {
    for (s, max) in [("hello world", 5), ("漢字漢字", 3), ("\x1b[31mred text\x1b[0m", 4), ("a\tb\tc", 2), ("", 0)] {
        assert!(text_width(&plain_truncate(s, max)) <= max);
        assert!(text_width(&visible_truncate_ansi(s, max)) <= max);
        assert_eq!(text_width(&ansi_fit(s, max)), max);
    }
}

#[test]
fn parent_is_a_live_ancestor() {
    let mut live = StrSet::new();
    live.insert("a".to_string());
    live.insert("a/b/c".to_string());
    assert_eq!(nearest_parent_name("a/b/c/d", &live), Some("a/b/c".to_string()));
    assert_eq!(nearest_parent_name("a/x/y", &live), Some("a".to_string()));
    assert_eq!(nearest_parent_name("ab/c", &live), None);
    assert_eq!(nearest_parent_name("a", &live), None);
}

#[test]
fn keys_keep_a_row_selected() {
    let rows = vec![session_row("$1", "a"), session_row("$2", "b")];
    let mut ex = ExpandedState::new();
    for key in [&b"j"[..], b"j", b"G", b"k", b"k", b"g", b"G"] {
        let mut st = view(1);
        overview_key(&mut st, &rows, &mut ex, key);
        assert!(st.selected < rows.len());
    }
}

#[test]
fn down_then_up_returns() {
    let rows = vec![session_row("$1", "a"), session_row("$2", "b"), session_row("$3", "c")];
    let mut ex = ExpandedState::new();
    let mut st = view(1);
    overview_key(&mut st, &rows, &mut ex, b"j");
    overview_key(&mut st, &rows, &mut ex, b"k");
    assert_eq!(st.selected, 1);
}

#[test]
fn preview_percent_stays_in_range() {
    let mut ex = ExpandedState::new();
    let mut st = view(0);
    for _ in 0..20 {
        overview_key(&mut st, &[], &mut ex, b"+");
        assert!((20..=85).contains(&st.preview_percent));
    }
    assert_eq!(st.preview_percent, 85);
    for _ in 0..20 {
        overview_key(&mut st, &[], &mut ex, b"-");
        assert!((20..=85).contains(&st.preview_percent));
    }
    assert_eq!(st.preview_percent, 20);
}

#[test]
fn fold_toggle_twice_restores() {
    let rows = vec![session_row("$1", "a")];
    let mut ex = ExpandedState::new();
    let mut st = view(0);
    assert_eq!(overview_key(&mut st, &rows, &mut ex, b" "), KeyEffect::FoldChanged { collapsed: None });
    assert!(!ex.is_expanded("a"));
    overview_key(&mut st, &rows, &mut ex, b" ");
    assert!(ex.is_expanded("a"));
}

#[test]
fn escape_closes_every_modal() {
    let modals = vec![
        Modal::Info { title: "t".to_string(), lines: vec![] },
        Modal::Confirm {
            title: "t".to_string(),
            action: ConfirmAction::DeleteSaved { name: "x".to_string() },
        },
        Modal::Input {
            title: "t".to_string(),
            value: "v".to_string(),
            action: InputAction::RenameSavedSession { old_name: "x".to_string() },
        },
    ];
    for m in modals {
        for key in [[0x1bu8], [3u8]] {
            let mut modal = m.clone();
            assert_eq!(handle_modal_key(&mut modal, &key), ModalKeyResult::Redraw);
            assert_eq!(modal, Modal::Closed);
        }
    }
    let mut closed = Modal::Closed;
    assert_eq!(handle_modal_key(&mut closed, &[0x1b]), ModalKeyResult::Ignored);
}

#[test]
fn frame_fills_the_screen() {
    for (h, w, p, show) in [(30, 100, 65, true), (5, 30, 85, true), (40, 60, 20, false), (12, 200, 50, true)] {
        let f = frame_layout(h, w, p, show);
        assert_eq!(f.body_h, if h >= 10 { h - 1 } else { 8 });
        assert_eq!(f.list_h + f.preview_h + usize::from(show), f.body_h);
        assert!(f.list_h >= 3);
        assert_eq!(f.side_w + usize::from(f.side_w > 0) + f.left_w, w);
    }
}

#[test]
fn selected_row_is_on_screen() {
    let ex = ExpandedState::new();
    let rows: Vec<Row> = (0..30).map(|i| session_row(&format!("${}", i), &format!("s{:02}", i))).collect();
    let cells: Vec<StatCells> = rows
        .iter()
        .map(|_| StatCells { cpu: String::new(), mem: String::new(), cpu_high: false, mem_high: false })
        .collect();
    let screen = render(&rows, 27, &ex, 65, true, 3, "", &Modal::Closed, 20, 60, &cells, "", &[]);
    assert!(screen.contains("\x1b[48;2;255;100;150m\x1b[38;2;0;0;0m ▾  s27"));
}

#[test]
fn regions_stay_inside_preview() {
    let panes = vec![
        PaneGeom { id: "%1".to_string(), left: 0, top: 0, width: 50, height: 40 },
        PaneGeom { id: "%2".to_string(), left: 51, top: 0, width: 49, height: 20 },
        PaneGeom { id: "%3".to_string(), left: 51, top: 21, width: 49, height: 19 },
    ];
    let regions = pane_regions(&panes, 33, 7).unwrap();
    assert_eq!(regions.len(), 3);
    for r in regions {
        assert!(r.x1 < r.x2 && r.x2 <= 33);
        assert!(r.y1 < r.y2 && r.y2 <= 7);
    }
}

#[test]
fn restore_finishes_within_bound() {
    let windows: Vec<SavedWindow> = (0..3)
        .map(|i| SavedWindow {
            index: i.to_string(),
            name: format!("w{}", i),
            active: i == 1,
            layout: String::new(),
            panes: vec![SavedPane { index: "0".to_string(), active: true, cwd: String::new(), command: String::new() }],
        })
        .collect();
    let saved = SavedSession { name: "s".to_string(), default_path: String::new(), saved_label: String::new(), windows };
    let mut phase = RestorePhase::Start;
    let mut reply = RestoreReply::Start;
    let mut steps = 0;
    loop {
        steps += 1;
        assert!(steps <= 3 * 3 + 5);
        match restore_saved_session(&saved, &mut phase, &reply) {
            RestoreStep::Check(_) => reply = RestoreReply::Status(steps > 1),
            RestoreStep::Query(_) => reply = RestoreReply::Output(String::new()),
            RestoreStep::Run(_) => reply = RestoreReply::Ran,
            RestoreStep::Finish(r) => {
                assert_eq!(r, Ok(()));
                assert_eq!(phase, RestorePhase::Done);
                break;
            }
        }
    }
}

#[test]
fn pane_columns_line_up() {
    let labels: Vec<String> = ["vim", "a very long pane title here", "漢字", "\x1b[31mred\x1b[0m"]
        .iter()
        .map(|s| s.to_string())
        .collect();
    for n in 0..=labels.len() {
        let expected = if n == 0 { 0 } else { 21 * n - 3 };
        assert_eq!(text_width(&pane_columns(&labels[..n])), expected);
    }
}

#[test]
fn layout_lines_are_full_width() {
    let panes = vec![
        PaneGeom { id: "%1".to_string(), left: 0, top: 0, width: 50, height: 40 },
        PaneGeom { id: "%2".to_string(), left: 51, top: 0, width: 49, height: 20 },
        PaneGeom { id: "%3".to_string(), left: 51, top: 21, width: 49, height: 19 },
    ];
    let regions = pane_regions(&panes, 33, 7).unwrap();
    let contents = [vec!["left pane text that is long".to_string()], vec!["漢字漢字漢字漢字漢字".to_string()], vec![]];
    let previews = regions.iter().zip(contents.iter()).map(|(r, c)| pane_preview(r, c.clone())).collect();
    let lines = window_layout_preview(previews, 33, 7);
    assert_eq!(lines.len(), 7);
    for l in &lines {
        assert_eq!(text_width(l), 33);
    }
}

#[test]
fn folded_sessions_show_no_windows() {
    let sessions = "$1\tproj\t\n$2\tother\t\n";
    let windows = "$1\tproj\t@1\t0\tedit\t1\n$2\tother\t@2\t0\tsh\t1\n";
    let mut ex = ExpandedState::new();
    ex.insert("proj".to_string(), false);
    let rows = load_rows("$2", sessions, windows, &ex, &StrSet::new(), &LabelMap::new(), &[], false);
    let mut windows_shown = Vec::new();
    for r in &rows {
        if let Row::Window(w) = r {
            windows_shown.push(w.id.clone());
            assert_eq!(w.session_id, "$2");
        }
    }
    assert_eq!(windows_shown, vec!["@2".to_string()]);
}
