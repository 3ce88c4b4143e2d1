use lib::model::{SavedPane, SavedSession, SavedWindow};
use lib::preview::{
    active_window_for_session, ansi_fit, capture_preview, pane_preview, pane_regions, preview_source,
    saved_session_preview, tail_nonempty_lines, try_window_layout_preview, window_layout_preview,
    window_panes, PaneGeom, PanePreview, PaneRegion, PreviewSource,
};
use lib::model::{Row, Session, Window};

fn strings(v: &[&str]) -> Vec<String> {
    v.iter().map(|s| s.to_string()).collect()
}

fn geom(id: &str, left: usize, top: usize, width: usize, height: usize) -> PaneGeom {
    PaneGeom { id: id.to_string(), left, top, width, height }
}

fn region(id: &str, x1: usize, y1: usize, x2: usize, y2: usize) -> PaneRegion {
    PaneRegion { id: id.to_string(), x1, y1, x2, y2 }
}

#[test]
fn tail_drops_blank_bottom_lines() {
    assert_eq!(tail_nonempty_lines("a\nb\n\n  \n", 5), strings(&["a", "b"]));
    assert_eq!(tail_nonempty_lines("a\nb\n\n  \n", 1), strings(&["b"]));
    assert_eq!(tail_nonempty_lines("a\n\nb\nc", 2), strings(&["b", "c"]));
    assert_eq!(tail_nonempty_lines("", 3), Vec::<String>::new());
    assert_eq!(tail_nonempty_lines("x\ny", 0), Vec::<String>::new());
}

#[test]
fn capture_arguments() {
    assert_eq!(capture_preview("%1", 10), strings(&["capture-pane", "-ep", "-S", "-20", "-t", "%1"]));
    assert_eq!(capture_preview("@2", 0), strings(&["capture-pane", "-ep", "-S", "-0", "-t", "@2"]));
    let big = capture_preview("%1", usize::MAX);
    assert_eq!(big[3], format!("-{}", usize::MAX));
}

#[test]
fn panes_from_listing() {
    let raw = "%1\t0\t0\t40\t20\n%2\t41\t0\t39\t20\nbad\n%3\tx\t0\t1\t1\n";
    assert_eq!(window_panes(raw), vec![geom("%1", 0, 0, 40, 20), geom("%2", 41, 0, 39, 20)]);
    assert_eq!(window_panes(""), vec![]);
}

#[test]
fn active_window_is_first_marked() {
    assert_eq!(active_window_for_session("@1\t0\n@2\t1\n@3\t1"), Some("@2".to_string()));
    assert_eq!(active_window_for_session("@1\t0\n@2"), None);
    assert_eq!(active_window_for_session(""), None);
}

#[test]
fn preview_source_by_row() {
    let s = Row::Session(Session {
        id: "$3".to_string(),
        name: "work".to_string(),
        display_name: "work".to_string(),
        depth: 0,
        current: false,
        saved_label: None,
        default_path: String::new(),
    });
    let w = Window {
        session_id: "$3".to_string(),
        session_name: "work".to_string(),
        depth: 0,
        id: "@4".to_string(),
        index: "1".to_string(),
        name: "ed".to_string(),
        active: false,
        pane_labels: vec![],
    };
    assert_eq!(preview_source(&s), PreviewSource::Session("$3".to_string()));
    assert_eq!(preview_source(&Row::Window(w.clone())), PreviewSource::Window("@4".to_string()));
    assert_eq!(preview_source(&Row::WatchWindow(w)), PreviewSource::Window("@4".to_string()));
    assert_eq!(preview_source(&Row::WatchHeader), PreviewSource::Nothing);
}

#[test]
fn saved_layout_preview_lines() {
    let s = SavedSession {
        name: "proj".to_string(),
        default_path: "/src".to_string(),
        saved_label: "10:00".to_string(),
        windows: vec![SavedWindow {
            index: "1".to_string(),
            name: "ed".to_string(),
            active: true,
            layout: String::new(),
            panes: vec![
                SavedPane { index: "0".to_string(), active: true, cwd: "/a".to_string(), command: "vim".to_string() },
                SavedPane { index: "1".to_string(), active: false, cwd: "/b".to_string(), command: String::new() },
            ],
        }],
    };
    let g = "\x1b[38;5;244m";
    assert_eq!(
        saved_session_preview(&s, 100, 20),
        vec![
            format!("{g}󰆓 saved layout: proj"),
            format!("{g}last saved: 10:00"),
            format!("{g}1 windows"),
            format!("{g}default path: /src"),
            g.to_string(),
            format!("{g}1: ed"),
            format!("{g}  pane 0  vim  /a"),
            format!("{g}  pane 1  shell  /b"),
        ]
    );
    assert_eq!(saved_session_preview(&s, 4, 2), vec![format!("{g}󰆓 sa"), format!("{g}last")]);
    assert_eq!(saved_session_preview(&s, 10, 0), Vec::<String>::new());
}

#[test]
fn regions_scale_to_preview() {
    let panes = vec![geom("%1", 0, 0, 40, 20), geom("%2", 41, 0, 39, 20)];
    assert_eq!(pane_regions(&panes, 80, 10), Some(vec![region("%1", 0, 0, 40, 10), region("%2", 41, 0, 80, 10)]));
    assert_eq!(pane_regions(&panes, 11, 10), None);
    assert_eq!(pane_regions(&panes, 80, 2), None);
    assert_eq!(pane_regions(&panes[..1].to_vec(), 80, 10), None);
    // a pane narrower than a cell still gets one
    let thin = vec![geom("%1", 0, 0, 100, 10), geom("%2", 0, 10, 100, 1)];
    assert_eq!(pane_regions(&thin, 20, 11), Some(vec![region("%1", 0, 0, 20, 10), region("%2", 0, 10, 20, 11)]));
}

#[test]
fn pane_preview_pads_on_top() {
    let p = pane_preview(&region("%1", 0, 2, 10, 6), strings(&["x"]));
    assert_eq!(p, PanePreview { x1: 0, y1: 2, x2: 10, y2: 6, top_pad: 3, content: strings(&["x"]) });
    let q = pane_preview(&region("%1", 0, 0, 10, 1), strings(&["x", "y"]));
    assert_eq!(q.top_pad, 0);
}

#[test]
fn fit_cuts_and_pads() {
    assert_eq!(ansi_fit("abc", 0), "");
    assert_eq!(ansi_fit("abc", 5), "abc\x1b[0m  ");
    assert_eq!(ansi_fit("abcdef", 3), "abc\x1b[0m");
    assert_eq!(ansi_fit("\x1b[31mab", 3), "\x1b[31mab\x1b[0m ");
}

#[test]
fn layout_preview_side_by_side() {
    let left = PanePreview { x1: 0, y1: 0, x2: 10, y2: 2, top_pad: 1, content: strings(&["a"]) };
    let right = PanePreview { x1: 11, y1: 0, x2: 20, y2: 2, top_pad: 0, content: strings(&["b", "c"]) };
    let div = "\x1b[38;5;238m│\x1b[0m";
    let expected = vec![
        format!("\x1b[0m{} {div}b\x1b[0m{}", " ".repeat(10), " ".repeat(7)),
        format!("a\x1b[0m{} {div}c\x1b[0m{}", " ".repeat(9), " ".repeat(7)),
    ];
    assert_eq!(window_layout_preview(vec![right.clone(), left.clone()], 20, 2), expected);
    assert_eq!(try_window_layout_preview(vec![left, right], 20, 2), Some(expected));
    assert_eq!(window_layout_preview(vec![], 4, 1), vec!["    ".to_string()]);
}

#[test]
fn layout_preview_stacked() {
    let top = PanePreview { x1: 0, y1: 0, x2: 5, y2: 1, top_pad: 0, content: strings(&["t"]) };
    let bottom = PanePreview { x1: 0, y1: 1, x2: 5, y2: 2, top_pad: 0, content: strings(&["u"]) };
    assert_eq!(
        window_layout_preview(vec![bottom, top], 6, 3),
        vec!["t\x1b[0m     ".to_string(), "u\x1b[0m     ".to_string(), "      ".to_string()]
    );
}
