use lib::model::{InputAction, Modal, Row, SavedPane, SavedSession, SavedWindow, Session, Window};
use lib::render::{
    compute_item_width, draw_modal, frame_layout, help_modal, modal_lines, pane_columns, render,
    row_parts, row_text, session_expanded, try_pane_columns, try_render, FrameLayout, StatCells,
};
use lib::store::ExpandedState;

fn strings(v: &[&str]) -> Vec<String> {
    v.iter().map(|s| s.to_string()).collect()
}

fn session(name: &str, current: bool, label: Option<&str>) -> Row {
    Row::Session(Session {
        id: "$1".to_string(),
        name: name.to_string(),
        display_name: name.to_string(),
        depth: 0,
        current,
        saved_label: label.map(|s| s.to_string()),
        default_path: String::new(),
    })
}

fn window(labels: &[&str]) -> Row {
    Row::Window(Window {
        session_id: "$1".to_string(),
        session_name: "work".to_string(),
        depth: 0,
        id: "@1".to_string(),
        index: "2".to_string(),
        name: "edit".to_string(),
        active: true,
        pane_labels: strings(labels),
    })
}

fn saved_row() -> Row {
    Row::SavedSession(SavedSession {
        name: "old".to_string(),
        default_path: String::new(),
        saved_label: "10:00".to_string(),
        windows: vec![SavedWindow {
            index: "0".to_string(),
            name: "w".to_string(),
            active: true,
            layout: String::new(),
            panes: vec![SavedPane { index: "0".to_string(), active: true, cwd: String::new(), command: String::new() }],
        }],
    })
}

fn cells(cpu: &str, mem: &str, cpu_high: bool, mem_high: bool) -> StatCells {
    StatCells { cpu: cpu.to_string(), mem: mem.to_string(), cpu_high, mem_high }
}

#[test]
fn row_parts_by_kind() {
    let ex = ExpandedState::new();
    assert_eq!(row_parts(&session("work", false, None), &ex), ("▾  work".to_string(), vec![], false));
    let mut collapsed = ExpandedState::new();
    collapsed.insert("work".to_string(), false);
    assert!(!session_expanded(&session("work", false, None), &collapsed));
    assert!(!session_expanded(&window(&[]), &ex));
    assert_eq!(
        row_parts(&session("work", true, Some("9:00")), &collapsed),
        (
            "▸  \x1b[38;2;255;100;150mwork\x1b[1;38;5;252m\x1b[38;5;240m 󰆓 9:00\x1b[1;38;5;252m".to_string(),
            vec![],
            false
        )
    );
    assert_eq!(row_parts(&window(&["vim"]), &ex), ("   ●  2: edit".to_string(), strings(&["vim"]), true));
    assert_eq!(row_parts(&saved_row(), &ex), ("󰆓  old".to_string(), strings(&["10:00 · 1 windows"]), false));
}

#[test]
fn item_width_is_bounded() {
    let ex = ExpandedState::new();
    assert_eq!(compute_item_width(&[], &ex, 100), 24);
    assert_eq!(compute_item_width(&[session("w", false, None)], &ex, 100), 20);
    let long = session(&"x".repeat(70), false, None);
    assert_eq!(compute_item_width(&[long.clone()], &ex, 100), 73);
    assert_eq!(compute_item_width(&[long], &ex, 40), 20);
}

#[test]
fn pane_label_columns() {
    assert_eq!(pane_columns(&strings(&["vim"])), format!("vim\x1b[0m{}", " ".repeat(15)));
    assert_eq!(pane_columns(&[]), "");
    let two = pane_columns(&strings(&["a", "b"]));
    assert_eq!(two, format!("a\x1b[0m{} \x1b[38;5;238m│\x1b[38;5;244m b\x1b[0m{}", " ".repeat(17), " ".repeat(17)));
    assert_eq!(try_pane_columns(&strings(&["\x1bé"])), None);
}

#[test]
fn row_text_layout() {
    let ex = ExpandedState::new();
    let t = row_text(&session("work", false, None), &ex, 10, &cells("1.5%", "20M", false, false));
    assert_eq!(t, "▾  work\x1b[0m     \x1b[38;5;240m   1.5% \x1b[38;5;240m   20M");
    let t = row_text(&window(&[]), &ex, 10, &cells("150.0%", "600M", true, true));
    assert_eq!(t, "   ●  2: e\x1b[0m  \x1b[38;2;255;100;150m 150.0% \x1b[38;2;255;100;150m  600M");
    let t = row_text(&saved_row(), &ex, 8, &cells("9%", "9M", true, true));
    assert_eq!(
        t,
        format!(
            "󰆓  old\x1b[0m    \x1b[38;5;240m{} \x1b[38;5;240m{}\x1b[38;5;244m   10:00 · 1 windows\x1b[0m{}",
            " ".repeat(7),
            " ".repeat(6),
            " ".repeat(1)
        )
    );
}

#[test]
fn help_and_modal_lines() {
    let h = help_modal();
    match &h {
        Modal::Info { title, lines } => {
            assert_eq!(title, "tmux overview help");
            assert_eq!(lines.len(), 12);
            assert_eq!(lines[0], "enter switch/restore");
            assert_eq!(lines[11], "q quit");
        }
        _ => panic!("help is an info modal"),
    }
    assert_eq!(modal_lines(&Modal::Closed), None);
    let input = Modal::Input {
        title: "t".to_string(),
        value: "v".to_string(),
        action: InputAction::RenameSavedSession { old_name: "o".to_string() },
    };
    assert_eq!(modal_lines(&input), Some(strings(&["t", "", "> v█", "", "enter apply    esc cancel"])));
    let info = Modal::Info { title: "t".to_string(), lines: strings(&["a"]) };
    assert_eq!(modal_lines(&info), Some(strings(&["t", "", "a", "", "enter/space/q/esc close"])));
}

#[test]
fn modal_box_is_centred() {
    let mut out = String::new();
    draw_modal(&mut out, &Modal::Closed, 30, 100);
    assert_eq!(out, "");
    let info = Modal::Info { title: "T".to_string(), lines: vec![] };
    draw_modal(&mut out, &info, 30, 100);
    assert!(out.starts_with("\x1b[0m\x1b[13;33H\x1b[49m\x1b[38;5;244m┌"));
    assert!(out.contains(&"─".repeat(34)));
    assert!(out.contains("\x1b[14;33H\x1b[49m\x1b[38;5;244m│ \x1b[38;2;255;100;150mT"));
    assert!(out.contains("\x1b[18;33H\x1b[49m\x1b[38;5;244m└"));
}

#[test]
fn screen_layout() {
    assert_eq!(
        frame_layout(30, 100, 65, true),
        FrameLayout { body_h: 29, preview_h: 18, list_h: 10, side_w: 20, left_w: 79 }
    );
    assert_eq!(
        frame_layout(30, 60, 65, false),
        FrameLayout { body_h: 29, preview_h: 0, list_h: 29, side_w: 0, left_w: 60 }
    );
    assert_eq!(frame_layout(5, 10, 20, true).body_h, 8);
    assert_eq!(frame_layout(5, 10, 20, true).preview_h, 3);
    assert_eq!(frame_layout(5, 10, 20, true).list_h, 4);
}

#[test]
fn screen_with_no_rows() {
    let ex = ExpandedState::new();
    let s = render(&[], 0, &ex, 65, false, 3, "hi", &Modal::Closed, 10, 40, &[], "0.0% 0K", &[]);
    assert!(s.starts_with("\x1b[H\x1b[2J no sessions"));
    assert_eq!(s.matches("\x1b[K\r\n").count(), 9);
}

#[test]
fn screen_marks_selection() {
    let ex = ExpandedState::new();
    let rows = vec![session("work", false, None), window(&[])];
    let c = vec![cells("1%", "1M", false, false), cells("2%", "2M", false, false)];
    let s = render(&rows, 1, &ex, 65, true, 3, "msg", &Modal::Closed, 20, 100, &c, "3% 3M", &strings(&["p1", "p2"]));
    assert!(s.contains("\x1b[48;2;255;100;150m\x1b[38;2;0;0;0m    ●  2: edit"));
    assert!(s.contains("\x1b[1;38;5;252m ▾  work"));
    assert!(s.contains(" preview 65% "));
    assert!(s.contains("total 3% 3M"));
    assert!(s.contains("stats 3s"));
    assert!(s.contains("p1\x1b[0m\x1b[K\r\np2\x1b[0m\x1b[K\r\n"));
    assert_eq!(
        try_render(&rows, 1, &ex, 65, true, 3, "msg", &Modal::Closed, 20, 100, &c, "", &strings(&["\x1bé"])),
        None
    );
}
