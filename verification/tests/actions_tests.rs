use lib::actions::{
    apply_completion, common_prefix, complete_path_value, completion_target, expand_home, finish_effect,
    handle_modal_key, parse_add_value, path_with_trailing_slash, perform_confirm_action,
    perform_input_action, rename_args, rename_outcome, rename_session_tree, Effect, ModalKeyResult,
    SessionRename,
};
use lib::model::{ConfirmAction, InputAction, Modal};

fn strings(v: &[&str]) -> Vec<String> {
    v.iter().map(|s| s.to_string()).collect()
}

#[test]
fn home_is_expanded() {
    assert_eq!(expand_home("~/src", Some("/home/u")), "/home/u/src");
    assert_eq!(expand_home("~", Some("/home/u")), "/home/u/~");
    assert_eq!(expand_home("~/~/x", Some("/home/u")), "/home/u/x");
    assert_eq!(expand_home("~/src", None), "~/src");
    assert_eq!(expand_home("/abs", Some("/home/u")), "/abs");
    assert_eq!(expand_home("~x", Some("/home/u")), "~x");
}

#[test]
fn trailing_slash_added_once() {
    assert_eq!(path_with_trailing_slash("/a"), "/a/");
    assert_eq!(path_with_trailing_slash("/a/"), "/a/");
    assert_eq!(path_with_trailing_slash(""), "/");
}

#[test]
fn common_prefix_of_names() {
    assert_eq!(common_prefix(&strings(&["project", "progress", "prompt"])), "pro");
    assert_eq!(common_prefix(&strings(&["abc"])), "abc");
    assert_eq!(common_prefix(&strings(&["abc", "xyz"])), "");
    assert_eq!(common_prefix(&[]), "");
    assert_eq!(common_prefix(&strings(&["中文", "中国"])), "中");
}

#[test]
fn add_value_kinds() {
    assert_eq!(parse_add_value("  S:dev "), ("session".to_string(), "dev".to_string()));
    assert_eq!(parse_add_value("session logs"), ("session".to_string(), "logs".to_string()));
    assert_eq!(parse_add_value("w: edit"), ("window".to_string(), "edit".to_string()));
    assert_eq!(parse_add_value("Window:  x "), ("window".to_string(), "x".to_string()));
    assert_eq!(parse_add_value("editor"), ("window".to_string(), "editor".to_string()));
    assert_eq!(parse_add_value("s:"), ("session".to_string(), "".to_string()));
}

#[test]
fn confirm_effects() {
    let e = perform_confirm_action(&ConfirmAction::KillSession { target: "$1".to_string(), name: "work".to_string() });
    assert_eq!(
        e,
        Effect::Tmux {
            args: strings(&["kill-session", "-t", "$1"]),
            ok: "killed session work".to_string(),
            err: "failed to kill session work".to_string(),
        }
    );
    assert_eq!(finish_effect(&e, Ok(0)), Ok("killed session work".to_string()));
    assert_eq!(finish_effect(&e, Err("x".to_string())), Err("failed to kill session work".to_string()));
    let e = perform_confirm_action(&ConfirmAction::KillWindow { target: "@1".to_string(), name: "0:main".to_string() });
    assert_eq!(finish_effect(&e, Ok(0)), Ok("deleted window 0:main".to_string()));
    let e = perform_confirm_action(&ConfirmAction::DeleteSaved { name: "old".to_string() });
    assert_eq!(e, Effect::DeleteSaved { name: "old".to_string() });
    assert_eq!(finish_effect(&e, Ok(0)), Ok("deleted saved old".to_string()));
    assert_eq!(finish_effect(&e, Err("no state directory".to_string())), Err("no state directory".to_string()));
}

#[test]
fn input_validation_errors() {
    let rs = InputAction::RenameSession { target: "$1".to_string(), old_name: "work".to_string() };
    assert_eq!(perform_input_action(&rs, "  "), Effect::Fail("invalid session name".to_string()));
    assert_eq!(perform_input_action(&rs, "a:b"), Effect::Fail("invalid session name".to_string()));
    let rw = InputAction::RenameWindow { target: "@1".to_string(), old_name: "main".to_string() };
    assert_eq!(perform_input_action(&rw, ""), Effect::Fail("invalid window name".to_string()));
    let rsv = InputAction::RenameSavedSession { old_name: "old".to_string() };
    assert_eq!(perform_input_action(&rsv, "x\ny"), Effect::Fail("invalid session name".to_string()));
    let add = InputAction::AddTarget { session_target: None, session_name: None, cwd: String::new() };
    assert_eq!(perform_input_action(&add, "s:"), Effect::Fail("invalid name".to_string()));
    assert_eq!(perform_input_action(&add, "s:a:b"), Effect::Fail("invalid session name".to_string()));
    assert_eq!(
        perform_input_action(&add, "editor"),
        Effect::Fail("select a live session/window, or use s:name".to_string())
    );
}

#[test]
fn input_effects() {
    let rs = InputAction::RenameSession { target: "$1".to_string(), old_name: "work".to_string() };
    assert_eq!(perform_input_action(&rs, " work "), Effect::Done("renamed work → work".to_string()));
    let e = perform_input_action(&rs, " job ");
    assert_eq!(
        e,
        Effect::RenameTree { target: "$1".to_string(), old_name: "work".to_string(), new_name: "job".to_string() }
    );
    assert_eq!(finish_effect(&e, Ok(0)), Ok("renamed work → job".to_string()));
    assert_eq!(finish_effect(&e, Ok(1)), Ok("renamed work → job with 1 child session".to_string()));
    assert_eq!(finish_effect(&e, Ok(3)), Ok("renamed work → job with 3 child sessions".to_string()));
    let rw = InputAction::RenameWindow { target: "@1".to_string(), old_name: "main".to_string() };
    let e = perform_input_action(&rw, "edit");
    assert_eq!(
        e,
        Effect::Tmux {
            args: strings(&["rename-window", "-t", "@1", "edit"]),
            ok: "renamed window main → edit".to_string(),
            err: "failed to rename window main".to_string(),
        }
    );
    let rsv = InputAction::RenameSavedSession { old_name: "old".to_string() };
    let e = perform_input_action(&rsv, "new");
    assert_eq!(e, Effect::RenameSaved { old_name: "old".to_string(), new_name: "new".to_string() });
    assert_eq!(finish_effect(&e, Ok(0)), Ok("renamed saved old → new".to_string()));
    let sp = InputAction::SetDefaultPath { target: "$1".to_string(), name: "work".to_string() };
    assert_eq!(
        perform_input_action(&sp, ""),
        Effect::Tmux {
            args: strings(&["set-option", "-u", "-t", "$1", "@overview_default_path"]),
            ok: "cleared default path for work".to_string(),
            err: "failed to clear path for work".to_string(),
        }
    );
    assert_eq!(
        perform_input_action(&sp, " /srv "),
        Effect::Tmux {
            args: strings(&["set-option", "-t", "$1", "@overview_default_path", "/srv"]),
            ok: "default path for work: /srv".to_string(),
            err: "failed to set path for work".to_string(),
        }
    );
    let add = InputAction::AddTarget {
        session_target: Some("$1".to_string()),
        session_name: Some("work".to_string()),
        cwd: "/srv".to_string(),
    };
    assert_eq!(
        perform_input_action(&add, "logs"),
        Effect::Tmux {
            args: strings(&["new-window", "-d", "-t", "$1", "-n", "logs", "-c", "/srv"]),
            ok: "created window logs in work".to_string(),
            err: "failed to create window logs".to_string(),
        }
    );
    let add = InputAction::AddTarget { session_target: None, session_name: None, cwd: String::new() };
    assert_eq!(
        perform_input_action(&add, "s:dev"),
        Effect::Tmux {
            args: strings(&["new-session", "-d", "-s", "dev"]),
            ok: "created session dev".to_string(),
            err: "failed to create session dev".to_string(),
        }
    );
    assert_eq!(finish_effect(&Effect::Fail("bad".to_string()), Ok(0)), Err("bad".to_string()));
}

const LISTING: &str = "$1\twork\n$2\twork/a\n$3\twork/a/b\n$4\tworkshop\n$5\tother\n";

fn plan(v: &[(&str, &str, &str)]) -> Vec<SessionRename> {
    v.iter()
        .map(|(i, s, d)| SessionRename { id: i.to_string(), source: s.to_string(), destination: d.to_string() })
        .collect()
}

#[test]
fn rename_tree_moves_children_deepest_first() {
    assert_eq!(
        rename_session_tree("$1", "work", "job", LISTING),
        Ok(plan(&[("$3", "work/a/b", "job/a/b"), ("$2", "work/a", "job/a"), ("$1", "work", "job")]))
    );
    assert_eq!(rename_session_tree("$1", "work", "work", LISTING), Ok(vec![]));
}

#[test]
fn rename_tree_refusals() {
    assert_eq!(
        rename_session_tree("$9", "work", "job", LISTING),
        Err("session work no longer exists".to_string())
    );
    assert_eq!(
        rename_session_tree("$1", "work", "other", LISTING),
        Err("session other already exists".to_string())
    );
    assert_eq!(
        rename_session_tree("$2", "work/a", "work", LISTING),
        Err("session work already exists".to_string())
    );
    assert_eq!(
        rename_session_tree("$1", "x", "y", "$1\tx\n$2\tx/y\n$3\tx\n"),
        Err("duplicate destination session y".to_string())
    );
}

#[test]
fn rename_into_own_tree_is_allowed() {
    assert_eq!(
        rename_session_tree("$1", "a", "a/b", "$1\ta\n$2\ta/b\n"),
        Ok(plan(&[("$2", "a/b", "a/b/b"), ("$1", "a", "a/b")]))
    );
}

#[test]
fn rename_outcomes() {
    let p = plan(&[("$3", "work/a/b", "job/a/b"), ("$2", "work/a", "job/a"), ("$1", "work", "job")]);
    assert_eq!(rename_args(&p[0]), strings(&["rename-session", "-t", "$3", "job/a/b"]));
    assert_eq!(rename_outcome(&p, None), (vec![], Ok(2)));
    assert_eq!(
        rename_outcome(&p, Some(2)),
        (
            vec![strings(&["rename-session", "-t", "$2", "work/a"]), strings(&["rename-session", "-t", "$3", "work/a/b"])],
            Err("failed to rename session work".to_string())
        )
    );
    assert_eq!(rename_outcome(&p, Some(0)), (vec![], Err("failed to rename session work/a/b".to_string())));
    assert_eq!(rename_outcome(&[], None), (vec![], Ok(0)));
}

fn input_modal(value: &str, action: InputAction) -> Modal {
    Modal::Input { title: "t".to_string(), value: value.to_string(), action }
}

#[test]
fn modal_keys_edit_input() {
    let action = InputAction::RenameWindow { target: "@1".to_string(), old_name: "main".to_string() };
    let mut m = input_modal("ab", action.clone());
    assert_eq!(handle_modal_key(&mut m, b"c"), ModalKeyResult::Redraw);
    assert_eq!(m, input_modal("abc", action.clone()));
    assert_eq!(handle_modal_key(&mut m, &[127]), ModalKeyResult::Redraw);
    assert_eq!(handle_modal_key(&mut m, &[8]), ModalKeyResult::Redraw);
    assert_eq!(m, input_modal("a", action.clone()));
    assert_eq!(handle_modal_key(&mut m, &[0x1b, b'[', b'A']), ModalKeyResult::Ignored);
    assert_eq!(handle_modal_key(&mut m, &[9]), ModalKeyResult::Ignored);
    assert_eq!(handle_modal_key(&mut m, b"\r"), ModalKeyResult::Submitted(action.clone(), "a".to_string()));
    assert_eq!(m, Modal::Closed);
    assert_eq!(handle_modal_key(&mut m, b"x"), ModalKeyResult::Ignored);
}

#[test]
fn typing_then_backspace_restores_value() {
    let action = InputAction::RenameSavedSession { old_name: "old".to_string() };
    for b in [b' ', b'a', b'~', b'0'] {
        let before = input_modal("xy", action.clone());
        let mut m = before.clone();
        handle_modal_key(&mut m, &[b]);
        handle_modal_key(&mut m, &[8]);
        assert_eq!(m, before);
    }
}

#[test]
fn modal_keys_confirm_and_info() {
    let action = ConfirmAction::DeleteSaved { name: "old".to_string() };
    let mut m = Modal::Confirm { title: "t".to_string(), action: action.clone() };
    assert_eq!(handle_modal_key(&mut m, b"x"), ModalKeyResult::Ignored);
    assert_eq!(handle_modal_key(&mut m, b"Y"), ModalKeyResult::Confirmed(action.clone()));
    assert_eq!(m, Modal::Closed);
    let mut m = Modal::Confirm { title: "t".to_string(), action };
    assert_eq!(handle_modal_key(&mut m, &[0x1b]), ModalKeyResult::Redraw);
    assert_eq!(m, Modal::Closed);
    let mut m = Modal::Info { title: "t".to_string(), lines: vec![] };
    assert_eq!(handle_modal_key(&mut m, b"j"), ModalKeyResult::Ignored);
    assert_eq!(handle_modal_key(&mut m, b" "), ModalKeyResult::Redraw);
    assert_eq!(m, Modal::Closed);
}

#[test]
fn tab_completes_default_path_only() {
    let action = InputAction::SetDefaultPath { target: "$1".to_string(), name: "work".to_string() };
    let mut m = input_modal("/ho", action.clone());
    assert_eq!(handle_modal_key(&mut m, &[9]), ModalKeyResult::CompletePath("/ho".to_string()));
    assert_eq!(apply_completion(&mut m, None), ModalKeyResult::Ignored);
    assert_eq!(m, input_modal("/ho", action.clone()));
    assert_eq!(apply_completion(&mut m, Some("/home/".to_string())), ModalKeyResult::Redraw);
    assert_eq!(m, input_modal("/home/", action));
}

#[test]
fn completion_targets() {
    assert_eq!(completion_target("/usr/lo", None), ("/usr".to_string(), "lo".to_string()));
    assert_eq!(completion_target(" /usr/ ", None), ("/usr/".to_string(), "".to_string()));
    assert_eq!(completion_target("~/sr", Some("/home/u")), ("/home/u".to_string(), "sr".to_string()));
    assert_eq!(completion_target("/", None), ("/".to_string(), "".to_string()));
    assert_eq!(completion_target("name", None), ("".to_string(), "name".to_string()));
}

#[test]
fn completion_picks_common_start() {
    assert_eq!(
        complete_path_value("/usr", "lo", strings(&["local", "lib", "locale"])),
        Some("/usr/local/".to_string())
    );
    assert_eq!(
        complete_path_value("/p", "", strings(&["src", "spec"])),
        Some("/p/s/".to_string())
    );
    assert_eq!(
        complete_path_value("/p", "s", strings(&["spec", "src"])),
        Some("/p/spec/".to_string())
    );
    assert_eq!(complete_path_value("/p", "x", strings(&["a"])), None);
    assert_eq!(complete_path_value("/p/", "", strings(&["a"])), Some("/p/a/".to_string()));
}
