use lib::model::{SavedPane, SavedSession, SavedWindow};
use lib::restore::{is_shell_command, restore_saved_session, RestorePhase, RestoreReply, RestoreStep};
use lib::saved::{
    check_saved_rename, collect_saved_sessions, is_saved_layout_file, layout_contents,
    parse_saved_session, renamed_layout_contents, saved_session_path, saved_sessions_dir,
    session_snapshot_contents, snapshot_session, snapshot_window_ids,
};

fn strings(v: &[&str]) -> Vec<String> {
    v.iter().map(|s| s.to_string()).collect()
}

fn pane(index: &str, active: bool, cwd: &str, command: &str) -> SavedPane {
    SavedPane { index: index.to_string(), active, cwd: cwd.to_string(), command: command.to_string() }
}

fn layout() -> SavedSession {
    SavedSession {
        name: "work".to_string(),
        default_path: "/srv".to_string(),
        saved_label: String::new(),
        windows: vec![
            SavedWindow {
                index: "0".to_string(),
                name: "edit".to_string(),
                active: false,
                layout: "abcd,80x24,0,0".to_string(),
                panes: vec![pane("0", false, "/src", "vim"), pane("1", true, "", "zsh")],
            },
            SavedWindow {
                index: "1".to_string(),
                name: "logs".to_string(),
                active: true,
                layout: String::new(),
                panes: vec![],
            },
        ],
    }
}

#[test]
fn saved_paths() {
    assert_eq!(saved_sessions_dir(Some("/st"), None), Some("/st/tmux-overview/sessions".to_string()));
    assert_eq!(
        saved_sessions_dir(None, Some("/home/u")),
        Some("/home/u/.local/state/tmux-overview/sessions".to_string())
    );
    assert_eq!(saved_sessions_dir(None, None), None);
    assert_eq!(
        saved_session_path(Some("/st"), None, "ab"),
        Some("/st/tmux-overview/sessions/6162.tsv".to_string())
    );
    assert!(is_saved_layout_file("6162.tsv"));
    assert!(!is_saved_layout_file("6162.txt"));
    assert!(!is_saved_layout_file(".tsv"));
}

#[test]
fn layout_file_text() {
    let text = layout_contents(&layout());
    assert_eq!(
        text,
        "v1\nsession\t776f726b\ndefault_path\t2f737276\nwindow\t30\t65646974\t0\t616263642c38307832342c302c30\n\
pane\t30\t0\t2f737263\t76696d\npane\t31\t1\t\t7a7368\nwindow\t31\t6c6f6773\t1\t\n"
    );
}

#[test]
fn layout_round_trip() {
    let s = layout();
    let back = parse_saved_session(&layout_contents(&s), "12:00").unwrap();
    let mut expected = s.clone();
    expected.saved_label = "12:00".to_string();
    assert_eq!(back, expected);
}

#[test]
fn unreadable_layouts_are_skipped() {
    assert_eq!(parse_saved_session("", "x"), None);
    assert_eq!(parse_saved_session("v1\nsession\t61\n", "x"), None);
    let files = vec![
        ("v1\nsession\t62\nwindow\t30\t77\t1\t\n".to_string(), "l1".to_string()),
        ("garbage".to_string(), "l2".to_string()),
        ("v1\nsession\t61\nwindow\t30\t77\t1\t\n".to_string(), "l3".to_string()),
    ];
    let all = collect_saved_sessions(files);
    assert_eq!(all.len(), 2);
    assert_eq!(all[0].name, "a");
    assert_eq!(all[0].saved_label, "l3");
    assert_eq!(all[1].name, "b");
}

#[test]
fn renamed_layout_reads_back_under_new_name() {
    let text = layout_contents(&layout());
    let renamed = renamed_layout_contents(&text, "job");
    let back = parse_saved_session(&renamed, "now").unwrap();
    let mut expected = layout();
    expected.name = "job".to_string();
    expected.saved_label = "now".to_string();
    assert_eq!(back, expected);
}

#[test]
fn saved_rename_checks() {
    assert_eq!(check_saved_rename("a", "  "), Err("empty session name".to_string()));
    assert_eq!(check_saved_rename("a", "a"), Ok(false));
    assert_eq!(check_saved_rename("a", "b"), Ok(true));
}

#[test]
fn snapshot_of_live_session() {
    let windows_raw = "@1\t0\tedit\t1\tlay\n@2\t1\tlogs\t0\t\nshort\n";
    assert_eq!(snapshot_window_ids(windows_raw), strings(&["@1", "@2"]));
    let panes = strings(&["0\t1\t/src\tvim\n1\t0\t/tmp\tzsh\n", "0\t1\t/\tbash\n"]);
    let s = snapshot_session("work", " /srv\n", windows_raw, &panes);
    assert_eq!(s.name, "work");
    assert_eq!(s.default_path, "/srv");
    assert_eq!(s.windows.len(), 2);
    assert_eq!(s.windows[0].panes, vec![pane("0", true, "/src", "vim"), pane("1", false, "/tmp", "zsh")]);
    assert!(!s.windows[1].active);
    let text = session_snapshot_contents("work", " /srv\n", windows_raw, &panes);
    assert_eq!(text, layout_contents(&s));
}

#[test]
fn shell_commands() {
    for c in ["", "sh", "bash", "zsh", "fish", "nu", "dash", "ash", "elvish"] {
        assert!(is_shell_command(c));
    }
    assert!(!is_shell_command("vim"));
    assert!(!is_shell_command("bash2"));
}

fn run(saved: &SavedSession, replies: Vec<RestoreReply>) -> Vec<RestoreStep> {
    let mut phase = RestorePhase::Start;
    let mut steps = vec![restore_saved_session(saved, &mut phase, &RestoreReply::Start)];
    for r in replies {
        steps.push(restore_saved_session(saved, &mut phase, &r));
    }
    steps
}

#[test]
fn restore_without_windows_fails() {
    let mut s = layout();
    s.windows.clear();
    let steps = run(&s, vec![]);
    assert_eq!(steps, vec![RestoreStep::Finish(Err("saved session has no windows".to_string()))]);
}

#[test]
fn restore_of_live_session_switches() {
    let steps = run(&layout(), vec![RestoreReply::Status(true), RestoreReply::Ran]);
    assert_eq!(
        steps,
        vec![
            RestoreStep::Check(strings(&["has-session", "-t", "work"])),
            RestoreStep::Run(vec![strings(&["switch-client", "-t", "work"])]),
            RestoreStep::Finish(Ok(())),
        ]
    );
}

#[test]
fn restore_failing_to_create() {
    let steps = run(&layout(), vec![RestoreReply::Status(false), RestoreReply::Status(false)]);
    assert_eq!(steps[1], RestoreStep::Check(strings(&["new-session", "-d", "-s", "work", "-n", "__restore_dummy__", "-c", "/src"])));
    assert_eq!(steps[2], RestoreStep::Finish(Err("failed to create session".to_string())));
}

#[test]
fn restore_rebuilds_windows() {
    let steps = run(
        &layout(),
        vec![
            RestoreReply::Status(false),
            RestoreReply::Status(true),
            RestoreReply::Ran,
            RestoreReply::Output("@7\n".to_string()),
            RestoreReply::Ran,
            RestoreReply::Output("".to_string()),
            RestoreReply::Output(" ".to_string()),
            RestoreReply::Ran,
            RestoreReply::Ran,
        ],
    );
    assert_eq!(
        steps,
        vec![
            RestoreStep::Check(strings(&["has-session", "-t", "work"])),
            RestoreStep::Check(strings(&["new-session", "-d", "-s", "work", "-n", "__restore_dummy__", "-c", "/src"])),
            RestoreStep::Run(vec![
                strings(&["move-window", "-s", "work:__restore_dummy__", "-t", "work:9999"]),
                strings(&["set-option", "-t", "work", "@overview_default_path", "/srv"]),
            ]),
            RestoreStep::Query(strings(&["new-window", "-d", "-P", "-F", "#{window_id}", "-t", "work:0", "-n", "edit", "-c", "/src"])),
            RestoreStep::Run(vec![
                strings(&["split-window", "-d", "-t", "@7", "-c", "/src"]),
                strings(&["select-layout", "-t", "@7", "abcd,80x24,0,0"]),
                strings(&["send-keys", "-t", "@7.0", "-l", "vim"]),
                strings(&["select-pane", "-t", "@7.1"]),
            ]),
            RestoreStep::Query(strings(&["new-window", "-d", "-P", "-F", "#{window_id}", "-t", "work:1", "-n", "logs", "-c", "/src"])),
            RestoreStep::Query(strings(&["new-window", "-d", "-P", "-F", "#{window_id}", "-t", "work", "-n", "logs", "-c", "/src"])),
            RestoreStep::Run(vec![strings(&["select-pane", "-t", "work:1.0"])]),
            RestoreStep::Run(vec![
                strings(&["kill-window", "-t", "work:9999"]),
                strings(&["select-window", "-t", "work:1"]),
                strings(&["switch-client", "-t", "work"]),
            ]),
            RestoreStep::Finish(Ok(())),
        ]
    );
}
