use lib::model::{ConfirmAction, Modal, Row, SavedPane, SavedSession, SavedWindow, Session, Window};
use lib::overview::{
    clamp_to_rows, key_command, overview_key, restore_failed_message, save_message, selection_after_fold,
    KeyCommand, KeyEffect, ViewState,
};
use lib::render::help_modal;
use lib::restore::{is_shell_command, restore_saved_session, RestorePhase, RestoreReply, RestoreStep};
use lib::stats::collect_window_labels;
use lib::store::ExpandedState;

fn strings(v: &[&str]) -> Vec<String> {
    v.iter().map(|s| s.to_string()).collect()
}

fn session_row(id: &str, name: &str) -> Row {
    Row::Session(Session {
        id: id.to_string(),
        name: name.to_string(),
        display_name: name.to_string(),
        depth: 0,
        current: false,
        saved_label: None,
        default_path: String::new(),
    })
}

fn window_row() -> Row {
    Row::Window(Window {
        session_id: "$1".to_string(),
        session_name: "work".to_string(),
        depth: 0,
        id: "@7".to_string(),
        index: "2".to_string(),
        name: "ed".to_string(),
        active: true,
        pane_labels: vec![],
    })
}

fn saved(windows: Vec<SavedWindow>) -> SavedSession {
    SavedSession { name: "work".to_string(), default_path: String::new(), saved_label: String::new(), windows }
}

fn view() -> ViewState {
    ViewState { selected: 0, preview_percent: 65, show_preview: true, message: String::new(), modal: Modal::Closed }
}

#[test]
fn keys_to_commands() {
    assert_eq!(key_command(b"q"), KeyCommand::Quit);
    assert_eq!(key_command(b"\x03"), KeyCommand::Quit);
    assert_eq!(key_command(b"\x1bf"), KeyCommand::Quit);
    assert_eq!(key_command(b"j"), KeyCommand::Down);
    assert_eq!(key_command(b"\x1b[B"), KeyCommand::Down);
    assert_eq!(key_command(b"\x1b[A"), KeyCommand::Up);
    assert_eq!(key_command(b"\x1b[C"), KeyCommand::Unfold);
    assert_eq!(key_command(b"\x1b[D"), KeyCommand::Fold);
    assert_eq!(key_command(b" "), KeyCommand::ToggleFold);
    assert_eq!(key_command(b"="), KeyCommand::Grow);
    assert_eq!(key_command(b"_"), KeyCommand::Shrink);
    assert_eq!(key_command(b"D"), KeyCommand::Delete);
    assert_eq!(key_command(b"\r"), KeyCommand::Activate);
    assert_eq!(key_command(b"\n"), KeyCommand::Activate);
    assert_eq!(key_command(b"x"), KeyCommand::Nothing);
    assert_eq!(key_command(b"qq"), KeyCommand::Nothing);
}

#[test]
fn moving_the_selection() {
    let rows = vec![session_row("$1", "work"), window_row()];
    let mut ex = ExpandedState::new();
    let mut st = view();
    assert_eq!(overview_key(&mut st, &rows, &mut ex, b"j"), KeyEffect::Redraw);
    assert_eq!(st.selected, 1);
    assert_eq!(overview_key(&mut st, &rows, &mut ex, b"j"), KeyEffect::Ignored);
    assert_eq!(st.selected, 1);
    assert_eq!(overview_key(&mut st, &rows, &mut ex, b"g"), KeyEffect::Redraw);
    assert_eq!(st.selected, 0);
    assert_eq!(overview_key(&mut st, &rows, &mut ex, b"k"), KeyEffect::Redraw);
    assert_eq!(st.selected, 0);
    assert_eq!(overview_key(&mut st, &rows, &mut ex, b"G"), KeyEffect::Redraw);
    assert_eq!(st.selected, 1);
    assert_eq!(overview_key(&mut st, &[], &mut ex, b"G"), KeyEffect::Redraw);
    assert_eq!(st.selected, 0);
}

#[test]
fn folding_sessions() {
    let rows = vec![session_row("$1", "work"), window_row()];
    let mut ex = ExpandedState::new();
    let mut st = view();
    assert_eq!(overview_key(&mut st, &rows, &mut ex, b" "), KeyEffect::FoldChanged { collapsed: None });
    assert_eq!(ex.get("work"), Some(false));
    assert_eq!(overview_key(&mut st, &rows, &mut ex, b"l"), KeyEffect::FoldChanged { collapsed: None });
    assert_eq!(ex.get("work"), Some(true));
    st.selected = 1;
    assert_eq!(overview_key(&mut st, &rows, &mut ex, b" "), KeyEffect::Ignored);
    assert_eq!(
        overview_key(&mut st, &rows, &mut ex, b"h"),
        KeyEffect::FoldChanged { collapsed: Some("work".to_string()) }
    );
    assert_eq!(ex.get("work"), Some(false));
    assert_eq!(selection_after_fold(&rows, "work", 1), 0);
    assert_eq!(selection_after_fold(&rows, "other", 1), 1);
    assert_eq!(selection_after_fold(&rows, "other", 5), 1);
    assert_eq!(selection_after_fold(&[], "other", 5), 0);
}

#[test]
fn preview_size_keys() {
    let mut ex = ExpandedState::new();
    let mut st = view();
    st.preview_percent = 80;
    assert_eq!(overview_key(&mut st, &[], &mut ex, b"+"), KeyEffect::Redraw);
    assert_eq!(st.preview_percent, 85);
    overview_key(&mut st, &[], &mut ex, b"+");
    assert_eq!(st.preview_percent, 85);
    st.preview_percent = 30;
    overview_key(&mut st, &[], &mut ex, b"-");
    assert_eq!(st.preview_percent, 25);
    st.preview_percent = 20;
    overview_key(&mut st, &[], &mut ex, b"-");
    assert_eq!(st.preview_percent, 20);
    assert_eq!(overview_key(&mut st, &[], &mut ex, b"v"), KeyEffect::Redraw);
    assert!(!st.show_preview);
}

#[test]
fn actions_on_rows() {
    let rows = vec![session_row("$1", "work"), window_row(), Row::SavedSession(saved(vec![]))];
    let mut ex = ExpandedState::new();
    let mut st = view();
    st.selected = 1;
    assert_eq!(
        overview_key(&mut st, &rows, &mut ex, b"S"),
        KeyEffect::SaveLayout { id: "$1".to_string(), name: "work".to_string() }
    );
    assert_eq!(overview_key(&mut st, &rows, &mut ex, b"\r"), KeyEffect::Switch("@7".to_string()));
    assert_eq!(overview_key(&mut st, &rows, &mut ex, b"c"), KeyEffect::DefaultPath);
    assert_eq!(overview_key(&mut st, &rows, &mut ex, b"R"), KeyEffect::Refresh);
    assert_eq!(overview_key(&mut st, &rows, &mut ex, b"q"), KeyEffect::Quit);
    st.selected = 2;
    assert_eq!(overview_key(&mut st, &rows, &mut ex, b"\r"), KeyEffect::Restore(2));
    assert_eq!(overview_key(&mut st, &rows, &mut ex, b"S"), KeyEffect::Ignored);
    assert_eq!(overview_key(&mut st, &rows, &mut ex, b"K"), KeyEffect::Ignored);
    st.selected = 0;
    assert_eq!(overview_key(&mut st, &rows, &mut ex, b"K"), KeyEffect::Redraw);
    assert_eq!(
        st.modal,
        Modal::Confirm {
            title: "kill session work?".to_string(),
            action: ConfirmAction::KillSession { target: "$1".to_string(), name: "work".to_string() },
        }
    );
    assert_eq!(overview_key(&mut st, &rows, &mut ex, b"?"), KeyEffect::Redraw);
    assert_eq!(st.modal, help_modal());
    st.selected = 9;
    assert_eq!(overview_key(&mut st, &rows, &mut ex, b"\r"), KeyEffect::Ignored);
    assert_eq!(overview_key(&mut st, &rows, &mut ex, b"x"), KeyEffect::Ignored);
}

#[test]
fn messages_and_clamping() {
    assert_eq!(clamp_to_rows(3, 2), 1);
    assert_eq!(clamp_to_rows(1, 2), 1);
    assert_eq!(clamp_to_rows(3, 0), 0);
    assert_eq!(save_message("work", Ok(())), "saved layout work");
    assert_eq!(save_message("work", Err("disk".to_string())), "save failed: disk");
    assert_eq!(restore_failed_message("boom"), "restore failed: boom");
}

#[test]
fn window_labels_by_pane_index() {
    let raw = "@1\t1\tvim\thost\thost\n@1\t0\tzsh\tbuild\thost\n@2\tx\tbash\t \thost\nshort\n";
    let labels = collect_window_labels(raw);
    assert_eq!(labels.labels_for("@1"), strings(&["build", "vim"]));
    assert_eq!(labels.labels_for("@2"), strings(&["bash"]));
    assert_eq!(labels.labels_for("@3"), Vec::<String>::new());
}

#[test]
fn shells_are_not_restarted() {
    assert!(is_shell_command(""));
    assert!(is_shell_command("zsh"));
    assert!(is_shell_command("elvish"));
    assert!(!is_shell_command("vim"));
    assert!(!is_shell_command("bash -l"));
}

fn layout() -> SavedSession {
    saved(vec![SavedWindow {
        index: "1".to_string(),
        name: "ed".to_string(),
        active: true,
        layout: "L".to_string(),
        panes: vec![
            SavedPane { index: "0".to_string(), active: true, cwd: "/a".to_string(), command: "vim".to_string() },
            SavedPane { index: "1".to_string(), active: false, cwd: String::new(), command: "bash".to_string() },
        ],
    }])
}

#[test]
fn restore_creates_missing_session() {
    let s = layout();
    let mut phase = RestorePhase::Start;
    assert_eq!(
        restore_saved_session(&s, &mut phase, &RestoreReply::Start),
        RestoreStep::Check(strings(&["has-session", "-t", "work"]))
    );
    assert_eq!(
        restore_saved_session(&s, &mut phase, &RestoreReply::Status(false)),
        RestoreStep::Check(strings(&["new-session", "-d", "-s", "work", "-n", "__restore_dummy__", "-c", "/a"]))
    );
    assert_eq!(
        restore_saved_session(&s, &mut phase, &RestoreReply::Status(true)),
        RestoreStep::Run(vec![strings(&["move-window", "-s", "work:__restore_dummy__", "-t", "work:9999"])])
    );
    assert_eq!(
        restore_saved_session(&s, &mut phase, &RestoreReply::Ran),
        RestoreStep::Query(strings(&["new-window", "-d", "-P", "-F", "#{window_id}", "-t", "work:1", "-n", "ed", "-c", "/a"]))
    );
    assert_eq!(
        restore_saved_session(&s, &mut phase, &RestoreReply::Output("@5\n".to_string())),
        RestoreStep::Run(vec![
            strings(&["split-window", "-d", "-t", "@5", "-c", "/a"]),
            strings(&["select-layout", "-t", "@5", "L"]),
            strings(&["send-keys", "-t", "@5.0", "-l", "vim"]),
            strings(&["select-pane", "-t", "@5.0"]),
        ])
    );
    assert_eq!(
        restore_saved_session(&s, &mut phase, &RestoreReply::Ran),
        RestoreStep::Run(vec![
            strings(&["kill-window", "-t", "work:9999"]),
            strings(&["select-window", "-t", "work:1"]),
            strings(&["switch-client", "-t", "work"]),
        ])
    );
    assert_eq!(restore_saved_session(&s, &mut phase, &RestoreReply::Ran), RestoreStep::Finish(Ok(())));
    assert_eq!(phase, RestorePhase::Done);
}

#[test]
fn restore_switches_to_live_session() {
    let s = layout();
    let mut phase = RestorePhase::Exists;
    assert_eq!(
        restore_saved_session(&s, &mut phase, &RestoreReply::Status(true)),
        RestoreStep::Run(vec![strings(&["switch-client", "-t", "work"])])
    );
    assert_eq!(restore_saved_session(&s, &mut phase, &RestoreReply::Ran), RestoreStep::Finish(Ok(())));
}

#[test]
fn restore_failures() {
    let mut phase = RestorePhase::Start;
    assert_eq!(
        restore_saved_session(&saved(vec![]), &mut phase, &RestoreReply::Start),
        RestoreStep::Finish(Err("saved session has no windows".to_string()))
    );
    let s = layout();
    let mut phase = RestorePhase::Create;
    assert_eq!(
        restore_saved_session(&s, &mut phase, &RestoreReply::Status(false)),
        RestoreStep::Finish(Err("failed to create session".to_string()))
    );
}

#[test]
fn restore_falls_back_to_next_index() {
    let s = layout();
    let mut phase = RestorePhase::Created(0);
    assert_eq!(
        restore_saved_session(&s, &mut phase, &RestoreReply::Output("  ".to_string())),
        RestoreStep::Query(strings(&["new-window", "-d", "-P", "-F", "#{window_id}", "-t", "work", "-n", "ed", "-c", "/a"]))
    );
    assert_eq!(phase, RestorePhase::Fallback(0));
    match restore_saved_session(&s, &mut phase, &RestoreReply::Output(String::new())) {
        RestoreStep::Run(cmds) => assert_eq!(cmds[0], strings(&["split-window", "-d", "-t", "work:1", "-c", "/a"])),
        other => panic!("unexpected step {:?}", other),
    }
    assert_eq!(phase, RestorePhase::Next(1));
}
