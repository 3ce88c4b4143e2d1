use vstd::prelude::*;
use crate::model::{opt_view, ConfirmAction, ConfirmActionV, InputAction, InputActionV, Modal, ModalV};
use crate::order::{str_less, str_lt};
use crate::sort::{order_of, sorted_stably, stable_sort, Sortable};
use crate::state::{join_path, opt_string, path_join};
use crate::store::StrSet;
use crate::strs::{
    chars_of, concat, copy_string, eq_str, has_prefix, is_empty_str, lit, push_char, push_str,
    split_lines, starts_with, string_of_range, trim, trimmed, views,
};

verus! {

// ---------------------------------------------------------------------------
// paths typed into the default-path input
/// `s` with every leading `~/` removed (`trim_start_matches("~/")`).
pub open spec fn strip_home_marks(s: Seq<char>) -> Seq<char>
    decreases s.len(),
{
    if starts_with(s, "~/"@) {
        proof {
            reveal_strlit("~/");
        }
        strip_home_marks(s.skip(2))
    } else {
        s
    }
}

/// `~` and `~/...` resolved against the home directory, when it is known.
pub open spec fn spec_expand_home(value: Seq<char>, home: Option<Seq<char>>) -> Seq<char> {
    if value == "~"@ || starts_with(value, "~/"@) {
        match home {
            Some(h) => path_join(h, strip_home_marks(value)),
            None => value,
        }
    } else {
        value
    }
}

pub fn expand_home(value: &str, home: Option<&str>) -> (r: String)
    ensures
        r@ == spec_expand_home(value@, crate::state::opt_str(home)),
{
    if eq_str(value, "~") || has_prefix(value, "~/") {
        if let Some(h) = home {
            let v = chars_of(value);
            let mut i: usize = 0;
            proof {
                reveal_strlit("~/");
                assert(v@.skip(0) =~= v@);
            }
            while v.len() - i > 1 && v[i] == '~' && v[i + 1] == '/'
                invariant
                    i <= v@.len(),
                    v@ == value@,
                    strip_home_marks(value@) == strip_home_marks(v@.skip(i as int)),
                decreases v.len() - i,
            {
                assert(starts_with(v@.skip(i as int), "~/"@)) by {
                    reveal_strlit("~/");
                    assert(v@.skip(i as int).subrange(0, 2) =~= "~/"@);
                }
                assert(v@.skip(i as int).skip(2) =~= v@.skip(i + 2));
                i += 2;
            }
            proof {
                reveal_strlit("~/");
                if starts_with(v@.skip(i as int), "~/"@) {
                    assert(v@.skip(i as int).subrange(0, 2)[0] == '~');
                    assert(v@.skip(i as int).subrange(0, 2)[1] == '/');
                }
            }
            let rest = string_of_range(&v, i, v.len());
            assert(rest@ =~= v@.skip(i as int));
            return join_path(h, rest.as_str());
        }
    }
    lit(value)
}

pub open spec fn spec_with_trailing_slash(path: Seq<char>) -> Seq<char> {
    if path.len() > 0 && path.last() == '/' {
        path
    } else {
        path.push('/')
    }
}

/// The path with a `/` at its end.
pub fn path_with_trailing_slash(path: &str) -> (r: String)
    ensures
        r@ == spec_with_trailing_slash(path@),
{
    let v = chars_of(path);
    let mut s = lit(path);
    if !(v.len() > 0 && v[v.len() - 1] == '/') {
        push_char(&mut s, '/');
    }
    s
}

/// `p` shortened, one character at a time, until `v` starts with it.
pub open spec fn shrink_to_prefix(p: Seq<char>, v: Seq<char>) -> Seq<char>
    decreases p.len(),
{
    if starts_with(v, p) || p.len() == 0 {
        p
    } else {
        shrink_to_prefix(p.drop_last(), v)
    }
}

pub open spec fn prefix_fold(p: Seq<char>, rest: Seq<Seq<char>>) -> Seq<char>
    decreases rest.len(),
{
    if rest.len() == 0 {
        p
    } else {
        prefix_fold(shrink_to_prefix(p, rest[0]), rest.drop_first())
    }
}

/// The longest text that every value starts with.
pub open spec fn spec_common_prefix(values: Seq<Seq<char>>) -> Seq<char> {
    if values.len() == 0 {
        Seq::empty()
    } else {
        prefix_fold(values[0], values.drop_first())
    }
}

fn shrink_exec(p: String, v: &str) -> (r: String)
    ensures
        r@ == shrink_to_prefix(p@, v@),
{
    let pc = chars_of(p.as_str());
    let mut n = pc.len();
    assert(pc@.take(n as int) =~= pc@);
    loop
        invariant
            n <= pc@.len(),
            pc@ == p@,
            shrink_to_prefix(p@, v@) == shrink_to_prefix(pc@.take(n as int), v@),
        decreases n,
    {
        let cur = string_of_range(&pc, 0, n);
        assert(cur@ =~= pc@.take(n as int));
        if has_prefix(v, cur.as_str()) || n == 0 {
            return cur;
        }
        assert(pc@.take(n as int).drop_last() =~= pc@.take(n - 1));
        n -= 1;
    }
}

/// The longest common prefix of the values; empty when there are none.
pub fn common_prefix(values: &[String]) -> (r: String)
    ensures
        r@ == spec_common_prefix(views(values@)),
{
    if values.len() == 0 {
        return String::new();
    }
    let ghost vs = views(values@);
    let mut prefix = copy_string(&values[0]);
    let mut i: usize = 1;
    assert(vs.drop_first().skip(0) =~= vs.drop_first());
    while i < values.len()
        invariant
            1 <= i <= values@.len(),
            vs == views(values@),
            spec_common_prefix(vs) == prefix_fold(prefix@, vs.skip(i as int)),
        decreases values.len() - i,
    {
        assert(vs.skip(i as int)[0] == values@[i as int]@);
        assert(vs.skip(i as int).drop_first() =~= vs.skip(i + 1));
        prefix = shrink_exec(prefix, values[i].as_str());
        i += 1;
    }
    assert(vs.skip(i as int).len() == 0);
    prefix
}

proof fn lemma_shrink(p: Seq<char>, v: Seq<char>)
    ensures
        starts_with(v, shrink_to_prefix(p, v)),
        starts_with(p, shrink_to_prefix(p, v)),
        forall|k: int|
            shrink_to_prefix(p, v).len() < k <= p.len() ==> !starts_with(v, #[trigger] p.take(k)),
    decreases p.len(),
{
    if starts_with(v, p) || p.len() == 0 {
        assert(p.subrange(0, p.len() as int) =~= p);
        if p.len() == 0 {
            assert(v.subrange(0, 0) =~= p);
        }
    } else {
        lemma_shrink(p.drop_last(), v);
        let r = shrink_to_prefix(p.drop_last(), v);
        assert(p.subrange(0, r.len() as int) =~= p.drop_last().subrange(0, r.len() as int));
        assert forall|k: int| r.len() < k <= p.len() implies !starts_with(v, #[trigger] p.take(k)) by {
            if k < p.len() {
                assert(p.take(k) =~= p.drop_last().take(k));
            } else {
                assert(p.take(k) =~= p);
            }
        }
    }
}

proof fn lemma_prefix_fold(p: Seq<char>, rest: Seq<Seq<char>>)
    ensures
        starts_with(p, prefix_fold(p, rest)),
        forall|j: int| 0 <= j < rest.len() ==> starts_with(rest[j], prefix_fold(p, rest)),
        forall|k: int|
            prefix_fold(p, rest).len() < k <= p.len() ==> exists|j: int|
                0 <= j < rest.len() && !starts_with(rest[j], #[trigger] p.take(k)),
    decreases rest.len(),
{
    if rest.len() > 0 {
        let q = shrink_to_prefix(p, rest[0]);
        lemma_shrink(p, rest[0]);
        lemma_prefix_fold(q, rest.drop_first());
        let r = prefix_fold(q, rest.drop_first());
        assert(q =~= p.take(q.len() as int));
        assert(r =~= p.take(r.len() as int)) by {
            assert(r =~= q.take(r.len() as int));
        }
        assert forall|j: int| 0 <= j < rest.len() implies starts_with(rest[j], r) by {
            if j == 0 {
                assert(rest[0].subrange(0, r.len() as int) =~= rest[0].subrange(0, q.len() as int).subrange(
                    0,
                    r.len() as int,
                ));
            } else {
                assert(rest.drop_first()[j - 1] == rest[j]);
            }
        }
        assert forall|k: int| r.len() < k <= p.len() implies exists|j: int|
            0 <= j < rest.len() && !starts_with(rest[j], #[trigger] p.take(k)) by {
            if k <= q.len() {
                assert(p.take(k) =~= q.take(k));
                let j = choose|j: int|
                    0 <= j < rest.drop_first().len() && !starts_with(
                        rest.drop_first()[j],
                        #[trigger] q.take(k),
                    );
                assert(rest.drop_first()[j] == rest[j + 1]);
            } else {
                assert(!starts_with(rest[0], p.take(k)));
            }
        }
    } else {
        assert(p.subrange(0, p.len() as int) =~= p);
    }
}

/// Some value does not start with `p`.
pub open spec fn some_value_lacks(values: Seq<Seq<char>>, p: Seq<char>) -> bool {
    exists|j: int| 0 <= j < values.len() && !starts_with(values[j], p)
}

/// The common prefix is a prefix of every value, and no longer start of
/// the first value is.
pub proof fn law_common_prefix_is_longest(values: Seq<Seq<char>>)
    requires
        values.len() > 0,
    ensures
        forall|j: int| 0 <= j < values.len() ==> starts_with(values[j], spec_common_prefix(values)),
        forall|k: int|
            spec_common_prefix(values).len() < k <= values[0].len() ==> #[trigger] some_value_lacks(
                values,
                values[0].take(k),
            ),
{
    lemma_prefix_fold(values[0], values.drop_first());
    let r = spec_common_prefix(values);
    assert forall|j: int| 0 <= j < values.len() implies starts_with(values[j], r) by {
        if j > 0 {
            assert(values.drop_first()[j - 1] == values[j]);
        }
    }
    assert forall|k: int| r.len() < k <= values[0].len() implies #[trigger] some_value_lacks(
        values,
        values[0].take(k),
    ) by {
        let j = choose|j: int|
            0 <= j < values.drop_first().len() && !starts_with(
                values.drop_first()[j],
                #[trigger] values[0].take(k),
            );
        assert(values.drop_first()[j] == values[j + 1]);
        assert(0 <= j + 1 < values.len() && !starts_with(values[j + 1], values[0].take(k)));
    }
}

// ---------------------------------------------------------------------------
// the add input: `s:name` (or `session name`, ...) adds a session, anything
// else a window
pub open spec fn ascii_lower(c: char) -> char {
    if 'A' <= c && c <= 'Z' {
        ((c as u32) + 32) as char
    } else {
        c
    }
}

/// The case-blind prefixes of the add input and what each adds.
pub open spec fn add_prefix(i: int) -> Seq<char> {
    if i == 0 {
        "session:"@
    } else if i == 1 {
        "s:"@
    } else if i == 2 {
        "session "@
    } else if i == 3 {
        "s "@
    } else if i == 4 {
        "window:"@
    } else if i == 5 {
        "w:"@
    } else if i == 6 {
        "window "@
    } else {
        "w "@
    }
}

pub open spec fn add_kind(i: int) -> Seq<char> {
    if i < 4 {
        "session"@
    } else {
        "window"@
    }
}

/// Whether `t` starts with `p` when its ASCII letters are lowered.
pub open spec fn starts_with_lowered(t: Seq<char>, p: Seq<char>) -> bool {
    p.len() <= t.len() && forall|k: int| 0 <= k < p.len() ==> ascii_lower(#[trigger] t[k]) == p[k]
}

pub open spec fn add_rule(t: Seq<char>, i: int) -> (Seq<char>, Seq<char>)
    decreases 8 - i,
{
    if i < 0 || i >= 8 {
        ("window"@, t)
    } else if starts_with_lowered(t, add_prefix(i)) {
        (add_kind(i), trim(t.skip(add_prefix(i).len() as int)))
    } else {
        add_rule(t, i + 1)
    }
}

/// What the add input asks for: the kind (`session` or `window`) and the
/// name, read from the trimmed value.
pub open spec fn spec_parse_add(value: Seq<char>) -> (Seq<char>, Seq<char>) {
    add_rule(trim(value), 0)
}

fn lower_char(c: char) -> (r: char)
    ensures
        r == ascii_lower(c),
{
    if 'A' <= c && c <= 'Z' {
        let n: u8 = (c as u8) + 32;
        n as char
    } else {
        c
    }
}

fn starts_with_lowered_exec(t: &Vec<char>, p: &str) -> (r: bool)
    ensures
        r == starts_with_lowered(t@, p@),
{
    let pc = chars_of(p);
    if pc.len() > t.len() {
        return false;
    }
    let mut k: usize = 0;
    while k < pc.len()
        invariant
            k <= pc@.len() <= t@.len(),
            pc@ == p@,
            forall|j: int| 0 <= j < k ==> ascii_lower(#[trigger] t@[j]) == pc@[j],
        decreases pc.len() - k,
    {
        if lower_char(t[k]) != pc[k] {
            return false;
        }
        k += 1;
    }
    true
}

pub fn parse_add_value(value: &str) -> (r: (String, String))
    ensures
        (r.0@, r.1@) == spec_parse_add(value@),
{
    let t = trimmed(value);
    let tc = chars_of(t.as_str());
    let mut i: usize = 0;
    while i < 8
        invariant
            i <= 8,
            tc@ == t@,
            t@ == trim(value@),
            add_rule(t@, 0) == add_rule(t@, i as int),
        decreases 8 - i,
    {
        let (prefix, kind) = if i == 0 {
            ("session:", "session")
        } else if i == 1 {
            ("s:", "session")
        } else if i == 2 {
            ("session ", "session")
        } else if i == 3 {
            ("s ", "session")
        } else if i == 4 {
            ("window:", "window")
        } else if i == 5 {
            ("w:", "window")
        } else if i == 6 {
            ("window ", "window")
        } else {
            ("w ", "window")
        };
        assert(prefix@ == add_prefix(i as int) && kind@ == add_kind(i as int));
        if starts_with_lowered_exec(&tc, prefix) {
            let n = chars_of(prefix).len();
            let rest = string_of_range(&tc, n, tc.len());
            assert(rest@ =~= t@.skip(n as int));
            return (lit(kind), trimmed(rest.as_str()));
        }
        i += 1;
    }
    (lit("window"), t)
}

// ---------------------------------------------------------------------------
// what confirming or applying a modal asks for
/// The work behind a confirmed or applied modal, for the caller to carry
/// out; `finish_effect` turns its outcome into the message shown.
#[derive(Clone, Debug, PartialEq, Eq)]
pub enum Effect {
    /// Nothing to run: the action fails with this message.
    Fail(String),
    /// Nothing to run: the action succeeded with this message.
    Done(String),
    /// Run tmux with `args`; `ok` is the message when it succeeds, `err`
    /// when it fails.
    Tmux { args: Vec<String>, ok: String, err: String },
    /// Delete the saved layout `name`.
    DeleteSaved { name: String },
    /// Move the saved layout `old_name` to `new_name`.
    RenameSaved { old_name: String, new_name: String },
    /// Rename session `target` and the sessions below it (see
    /// `rename_session_tree`).
    RenameTree { target: String, old_name: String, new_name: String },
}

pub enum EffectV {
    Fail(Seq<char>),
    Done(Seq<char>),
    Tmux { args: Seq<Seq<char>>, ok: Seq<char>, err: Seq<char> },
    DeleteSaved { name: Seq<char> },
    RenameSaved { old_name: Seq<char>, new_name: Seq<char> },
    RenameTree { target: Seq<char>, old_name: Seq<char>, new_name: Seq<char> },
}

impl View for Effect {
    type V = EffectV;

    open spec fn view(&self) -> EffectV {
        match self {
            Effect::Fail(m) => EffectV::Fail(m@),
            Effect::Done(m) => EffectV::Done(m@),
            Effect::Tmux { args, ok, err } => EffectV::Tmux { args: views(args@), ok: ok@, err: err@ },
            Effect::DeleteSaved { name } => EffectV::DeleteSaved { name: name@ },
            Effect::RenameSaved { old_name, new_name } => EffectV::RenameSaved {
                old_name: old_name@,
                new_name: new_name@,
            },
            Effect::RenameTree { target, old_name, new_name } => EffectV::RenameTree {
                target: target@,
                old_name: old_name@,
                new_name: new_name@,
            },
        }
    }
}

fn strings2(a: &str, b: &str) -> (r: Vec<String>)
    ensures
        views(r@) == seq![a@, b@],
{
    let mut v: Vec<String> = Vec::new();
    v.push(lit(a));
    v.push(lit(b));
    assert(views(v@) =~= seq![a@, b@]);
    v
}

fn push_arg(v: &mut Vec<String>, a: &str)
    ensures
        views(final(v)@) == views(old(v)@).push(a@),
{
    v.push(lit(a));
    assert(views(v@) =~= views(old(v)@).push(a@));
}

fn msg2(a: &str, b: &str) -> (r: String)
    ensures
        r@ == a@ + b@,
{
    concat(a, b)
}

fn msg3(a: &str, b: &str, c: &str) -> (r: String)
    ensures
        r@ == a@ + b@ + c@,
{
    let mut s = lit(a);
    push_str(&mut s, b);
    push_str(&mut s, c);
    s
}

fn msg4(a: &str, b: &str, c: &str, d: &str) -> (r: String)
    ensures
        r@ == a@ + b@ + c@ + d@,
{
    let mut s = msg3(a, b, c);
    push_str(&mut s, d);
    s
}

/// What confirming a modal does: kill a session or a window, or delete a
/// saved layout.
pub open spec fn spec_confirm_effect(a: ConfirmActionV) -> EffectV {
    match a {
        ConfirmActionV::KillSession { target, name } => EffectV::Tmux {
            args: seq!["kill-session"@, "-t"@, target],
            ok: "killed session "@ + name,
            err: "failed to kill session "@ + name,
        },
        ConfirmActionV::KillWindow { target, name } => EffectV::Tmux {
            args: seq!["kill-window"@, "-t"@, target],
            ok: "deleted window "@ + name,
            err: "failed to delete window "@ + name,
        },
        ConfirmActionV::DeleteSaved { name } => EffectV::DeleteSaved { name },
    }
}

pub fn perform_confirm_action(action: &ConfirmAction) -> (r: Effect)
    ensures
        r@ == spec_confirm_effect(action@),
{
    match action {
        ConfirmAction::KillSession { target, name } => {
            let mut args = strings2("kill-session", "-t");
            push_arg(&mut args, target.as_str());
            assert(views(args@) =~= seq!["kill-session"@, "-t"@, target@]);
            Effect::Tmux {
                args,
                ok: msg2("killed session ", name.as_str()),
                err: msg2("failed to kill session ", name.as_str()),
            }
        },
        ConfirmAction::KillWindow { target, name } => {
            let mut args = strings2("kill-window", "-t");
            push_arg(&mut args, target.as_str());
            assert(views(args@) =~= seq!["kill-window"@, "-t"@, target@]);
            Effect::Tmux {
                args,
                ok: msg2("deleted window ", name.as_str()),
                err: msg2("failed to delete window ", name.as_str()),
            }
        },
        ConfirmAction::DeleteSaved { name } => Effect::DeleteSaved { name: copy_string(name) },
    }
}

/// Whether a name may be given to a session: not empty, no `:` or newline.
pub open spec fn valid_session_name(v: Seq<char>) -> bool {
    v.len() > 0 && !v.contains(':') && !v.contains('\n')
}

/// `-c cwd` when a directory is known.
pub open spec fn cwd_args(cwd: Seq<char>) -> Seq<Seq<char>> {
    if cwd.len() == 0 {
        Seq::empty()
    } else {
        seq!["-c"@, cwd]
    }
}

pub open spec fn spec_add_effect(
    session_target: Option<Seq<char>>,
    session_name: Option<Seq<char>>,
    cwd: Seq<char>,
    v: Seq<char>,
) -> EffectV {
    let (kind, name) = spec_parse_add(v);
    if name.len() == 0 || name.contains('\n') {
        EffectV::Fail("invalid name"@)
    } else if kind == "session"@ {
        if name.contains(':') {
            EffectV::Fail("invalid session name"@)
        } else {
            EffectV::Tmux {
                args: seq!["new-session"@, "-d"@, "-s"@, name] + cwd_args(cwd),
                ok: "created session "@ + name,
                err: "failed to create session "@ + name,
            }
        }
    } else {
        match session_target {
            None => EffectV::Fail("select a live session/window, or use s:name"@),
            Some(t) => EffectV::Tmux {
                args: seq!["new-window"@, "-d"@, "-t"@, t, "-n"@, name] + cwd_args(cwd),
                ok: "created window "@ + name + " in "@ + (match session_name {
                    Some(n) => n,
                    None => t,
                }),
                err: "failed to create window "@ + name,
            },
        }
    }
}

/// What applying an input modal with `raw` typed does, the value trimmed
/// first.
pub open spec fn spec_input_effect(a: InputActionV, raw: Seq<char>) -> EffectV {
    let v = trim(raw);
    match a {
        InputActionV::RenameSession { target, old_name } => if !valid_session_name(v) {
            EffectV::Fail("invalid session name"@)
        } else if old_name == v {
            EffectV::Done("renamed "@ + old_name + " → "@ + v)
        } else {
            EffectV::RenameTree { target, old_name, new_name: v }
        },
        InputActionV::RenameWindow { target, old_name } => if v.len() == 0 || v.contains('\n') {
            EffectV::Fail("invalid window name"@)
        } else {
            EffectV::Tmux {
                args: seq!["rename-window"@, "-t"@, target, v],
                ok: "renamed window "@ + old_name + " → "@ + v,
                err: "failed to rename window "@ + old_name,
            }
        },
        InputActionV::RenameSavedSession { old_name } => if !valid_session_name(v) {
            EffectV::Fail("invalid session name"@)
        } else {
            EffectV::RenameSaved { old_name, new_name: v }
        },
        InputActionV::SetDefaultPath { target, name } => if v.len() == 0 {
            EffectV::Tmux {
                args: seq!["set-option"@, "-u"@, "-t"@, target, "@overview_default_path"@],
                ok: "cleared default path for "@ + name,
                err: "failed to clear path for "@ + name,
            }
        } else {
            EffectV::Tmux {
                args: seq!["set-option"@, "-t"@, target, "@overview_default_path"@, v],
                ok: "default path for "@ + name + ": "@ + v,
                err: "failed to set path for "@ + name,
            }
        },
        InputActionV::AddTarget { session_target, session_name, cwd } => spec_add_effect(
            session_target,
            session_name,
            cwd,
            v,
        ),
    }
}

fn valid_session_name_exec(v: &str) -> (r: bool)
    ensures
        r == valid_session_name(v@),
{
    !is_empty_str(v) && !crate::strs::contains_char(v, ':') && !crate::strs::contains_char(v, '\n')
}

fn push_cwd_args(args: &mut Vec<String>, cwd: &str)
    ensures
        views(final(args)@) == views(old(args)@) + cwd_args(cwd@),
{
    if !is_empty_str(cwd) {
        push_arg(args, "-c");
        push_arg(args, cwd);
    } else {
        assert(views(args@) =~= views(args@) + cwd_args(cwd@));
    }
}

fn add_effect(
    session_target: &Option<String>,
    session_name: &Option<String>,
    cwd: &str,
    v: &str,
) -> (r: Effect)
    ensures
        r@ == spec_add_effect(opt_string(*session_target), opt_string(*session_name), cwd@, v@),
{
    let (kind, name) = parse_add_value(v);
    if is_empty_str(name.as_str()) || crate::strs::contains_char(name.as_str(), '\n') {
        return Effect::Fail(lit("invalid name"));
    }
    if eq_str(kind.as_str(), "session") {
        if crate::strs::contains_char(name.as_str(), ':') {
            return Effect::Fail(lit("invalid session name"));
        }
        let mut args = strings2("new-session", "-d");
        push_arg(&mut args, "-s");
        push_arg(&mut args, name.as_str());
        push_cwd_args(&mut args, cwd);
        assert(views(args@) =~= seq!["new-session"@, "-d"@, "-s"@, name@] + cwd_args(cwd@));
        Effect::Tmux {
            args,
            ok: msg2("created session ", name.as_str()),
            err: msg2("failed to create session ", name.as_str()),
        }
    } else {
        match session_target {
            None => Effect::Fail(lit("select a live session/window, or use s:name")),
            Some(t) => {
                let display = match session_name {
                    Some(n) => n.as_str(),
                    None => t.as_str(),
                };
                let mut args = strings2("new-window", "-d");
                push_arg(&mut args, "-t");
                push_arg(&mut args, t.as_str());
                push_arg(&mut args, "-n");
                push_arg(&mut args, name.as_str());
                push_cwd_args(&mut args, cwd);
                assert(views(args@) =~= seq!["new-window"@, "-d"@, "-t"@, t@, "-n"@, name@] + cwd_args(
                    cwd@,
                ));
                Effect::Tmux {
                    args,
                    ok: msg4("created window ", name.as_str(), " in ", display),
                    err: msg2("failed to create window ", name.as_str()),
                }
            },
        }
    }
}

pub fn perform_input_action(action: &InputAction, value: &str) -> (r: Effect)
    ensures
        r@ == spec_input_effect(action@, value@),
{
    let v = trimmed(value);
    let vs = v.as_str();
    match action {
        InputAction::RenameSession { target, old_name } => {
            if !valid_session_name_exec(vs) {
                return Effect::Fail(lit("invalid session name"));
            }
            if eq_str(old_name.as_str(), vs) {
                return Effect::Done(msg4("renamed ", old_name.as_str(), " → ", vs));
            }
            Effect::RenameTree {
                target: copy_string(target),
                old_name: copy_string(old_name),
                new_name: v,
            }
        },
        InputAction::RenameWindow { target, old_name } => {
            if is_empty_str(vs) || crate::strs::contains_char(vs, '\n') {
                return Effect::Fail(lit("invalid window name"));
            }
            let mut args = strings2("rename-window", "-t");
            push_arg(&mut args, target.as_str());
            push_arg(&mut args, vs);
            assert(views(args@) =~= seq!["rename-window"@, "-t"@, target@, v@]);
            Effect::Tmux {
                args,
                ok: msg4("renamed window ", old_name.as_str(), " → ", vs),
                err: msg2("failed to rename window ", old_name.as_str()),
            }
        },
        InputAction::RenameSavedSession { old_name } => {
            if !valid_session_name_exec(vs) {
                return Effect::Fail(lit("invalid session name"));
            }
            Effect::RenameSaved { old_name: copy_string(old_name), new_name: v }
        },
        InputAction::SetDefaultPath { target, name } => {
            if is_empty_str(vs) {
                let mut args = strings2("set-option", "-u");
                push_arg(&mut args, "-t");
                push_arg(&mut args, target.as_str());
                push_arg(&mut args, "@overview_default_path");
                assert(views(args@) =~= seq![
                    "set-option"@,
                    "-u"@,
                    "-t"@,
                    target@,
                    "@overview_default_path"@,
                ]);
                Effect::Tmux {
                    args,
                    ok: msg2("cleared default path for ", name.as_str()),
                    err: msg2("failed to clear path for ", name.as_str()),
                }
            } else {
                let mut args = strings2("set-option", "-t");
                push_arg(&mut args, target.as_str());
                push_arg(&mut args, "@overview_default_path");
                push_arg(&mut args, vs);
                assert(views(args@) =~= seq![
                    "set-option"@,
                    "-t"@,
                    target@,
                    "@overview_default_path"@,
                    v@,
                ]);
                Effect::Tmux {
                    args,
                    ok: msg4("default path for ", name.as_str(), ": ", vs),
                    err: msg2("failed to set path for ", name.as_str()),
                }
            }
        },
        InputAction::AddTarget { session_target, session_name, cwd } => add_effect(
            session_target,
            session_name,
            cwd.as_str(),
            vs,
        ),
    }
}

pub open spec fn result_view(r: Result<String, String>) -> Result<Seq<char>, Seq<char>> {
    match r {
        Ok(m) => Ok(m@),
        Err(e) => Err(e@),
    }
}

pub open spec fn outcome_view(r: Result<usize, String>) -> Result<nat, Seq<char>> {
    match r {
        Ok(n) => Ok(n as nat),
        Err(e) => Err(e@),
    }
}

/// The message of a session rename that moved `count` sessions below it too.
pub open spec fn rename_message(old_name: Seq<char>, new_name: Seq<char>, count: nat) -> Seq<char> {
    if count == 0 {
        "renamed "@ + old_name + " → "@ + new_name
    } else {
        "renamed "@ + old_name + " → "@ + new_name + " with "@ + crate::num::decimal(count)
            + " child session"@ + (if count == 1 {
            Seq::empty()
        } else {
            "s"@
        })
    }
}

/// The message for an effect once the caller has carried it out: `outcome`
/// is `Ok` when the work succeeded (for a session rename, with the number
/// of sessions moved below it) or the error it gave.
pub open spec fn spec_finish_effect(e: EffectV, outcome: Result<nat, Seq<char>>) -> Result<
    Seq<char>,
    Seq<char>,
> {
    match e {
        EffectV::Fail(m) => Err(m),
        EffectV::Done(m) => Ok(m),
        EffectV::Tmux { ok, err, .. } => match outcome {
            Ok(_) => Ok(ok),
            Err(_) => Err(err),
        },
        EffectV::DeleteSaved { name } => match outcome {
            Ok(_) => Ok("deleted saved "@ + name),
            Err(x) => Err(x),
        },
        EffectV::RenameSaved { old_name, new_name } => match outcome {
            Ok(_) => Ok("renamed saved "@ + old_name + " → "@ + new_name),
            Err(x) => Err(x),
        },
        EffectV::RenameTree { old_name, new_name, .. } => match outcome {
            Ok(n) => Ok(rename_message(old_name, new_name, n)),
            Err(x) => Err(x),
        },
    }
}

pub fn finish_effect(effect: &Effect, outcome: Result<usize, String>) -> (r: Result<String, String>)
    ensures
        result_view(r) == spec_finish_effect(effect@, outcome_view(outcome)),
{
    match effect {
        Effect::Fail(m) => Err(copy_string(m)),
        Effect::Done(m) => Ok(copy_string(m)),
        Effect::Tmux { ok, err, .. } => match outcome {
            Ok(_) => Ok(copy_string(ok)),
            Err(_) => Err(copy_string(err)),
        },
        Effect::DeleteSaved { name } => match outcome {
            Ok(_) => Ok(msg2("deleted saved ", name.as_str())),
            Err(x) => Err(x),
        },
        Effect::RenameSaved { old_name, new_name } => match outcome {
            Ok(_) => Ok(msg4("renamed saved ", old_name.as_str(), " → ", new_name.as_str())),
            Err(x) => Err(x),
        },
        Effect::RenameTree { old_name, new_name, .. } => match outcome {
            Ok(n) => {
                let mut m = msg4("renamed ", old_name.as_str(), " → ", new_name.as_str());
                if n > 0 {
                    push_str(&mut m, " with ");
                    let count = crate::num::usize_text(n);
                    push_str(&mut m, count.as_str());
                    push_str(&mut m, " child session");
                    if n != 1 {
                        push_str(&mut m, "s");
                    } else {
                        assert(m@ + Seq::<char>::empty() =~= m@);
                    }
                }
                Ok(m)
            },
            Err(x) => Err(x),
        },
    }
}

// ---------------------------------------------------------------------------
// renaming a session together with the sessions below it
/// One session to rename: its id, current name and new name.
#[derive(Clone, Debug, PartialEq, Eq)]
pub struct SessionRename {
    pub id: String,
    pub source: String,
    pub destination: String,
}

pub struct SessionRenameV {
    pub id: Seq<char>,
    pub source: Seq<char>,
    pub destination: Seq<char>,
}

impl View for SessionRename {
    type V = SessionRenameV;

    open spec fn view(&self) -> SessionRenameV {
        SessionRenameV { id: self.id@, source: self.source@, destination: self.destination@ }
    }
}

/// The number of `/` in a name: its depth in the session tree.
pub open spec fn slash_count(s: Seq<char>) -> nat
    decreases s.len(),
{
    if s.len() == 0 {
        0
    } else {
        slash_count(s.drop_last()) + if s.last() == '/' {
            1nat
        } else {
            0nat
        }
    }
}

fn slash_count_exec(s: &str) -> (r: usize)
    ensures
        r == slash_count(s@),
{
    let v = chars_of(s);
    let mut n: usize = 0;
    let mut i: usize = 0;
    while i < v.len()
        invariant
            i <= v@.len(),
            v@ == s@,
            n == slash_count(v@.take(i as int)),
            n <= i,
        decreases v.len() - i,
    {
        assert(v@.take(i + 1).drop_last() =~= v@.take(i as int));
        if v[i] == '/' {
            n += 1;
        }
        i += 1;
    }
    assert(v@.take(i as int) =~= v@);
    n
}

impl Sortable for SessionRename {
    /// Deeper sessions first.
    open spec fn precedes(a: SessionRenameV, b: SessionRenameV) -> bool {
        slash_count(b.source) < slash_count(a.source)
    }

    fn sorts_before(&self, other: &Self) -> (r: bool) {
        slash_count_exec(other.source.as_str()) < slash_count_exec(self.source.as_str())
    }
}

/// The renames the listed sessions call for: each session named `old_name`
/// or below it (`old_name/...`) gets `new_name` in place of `old_name`.
pub open spec fn renames_of(ls: Seq<Seq<char>>, old_name: Seq<char>, new_name: Seq<char>) -> Seq<
    SessionRenameV,
>
    decreases ls.len(),
{
    if ls.len() == 0 {
        Seq::empty()
    } else {
        let rest = renames_of(ls.drop_last(), old_name, new_name);
        match crate::strs::split_once(ls.last(), '\t') {
            Some((id, name)) => if name == old_name || starts_with(name, old_name.push('/')) {
                rest.push(
                    SessionRenameV {
                        id,
                        source: name,
                        destination: new_name + name.skip(old_name.len() as int),
                    },
                )
            } else {
                rest
            },
            None => rest,
        }
    }
}

/// The names of the listed sessions.
pub open spec fn listed_names(ls: Seq<Seq<char>>) -> Set<Seq<char>>
    decreases ls.len(),
{
    if ls.len() == 0 {
        Set::empty()
    } else {
        let rest = listed_names(ls.drop_last());
        match crate::strs::split_once(ls.last(), '\t') {
            Some((_, name)) => rest.insert(name),
            None => rest,
        }
    }
}

pub open spec fn sources_of(rs: Seq<SessionRenameV>) -> Set<Seq<char>> {
    Set::new(|n: Seq<char>| exists|j: int| 0 <= j < rs.len() && (#[trigger] rs[j]).source == n)
}

/// The first problem with the destinations, in order: one used twice, or
/// one naming a session that exists and is not itself renamed.
pub open spec fn destination_error(
    rs: Seq<SessionRenameV>,
    seen: Set<Seq<char>>,
    existing: Set<Seq<char>>,
    sources: Set<Seq<char>>,
) -> Option<Seq<char>>
    decreases rs.len(),
{
    if rs.len() == 0 {
        None
    } else {
        let d = rs[0].destination;
        if seen.contains(d) {
            Some("duplicate destination session "@ + d)
        } else if existing.contains(d) && !sources.contains(d) {
            Some("session "@ + d + " already exists"@)
        } else {
            destination_error(rs.drop_first(), seen.insert(d), existing, sources)
        }
    }
}

pub open spec fn renames_view(rs: Seq<SessionRename>) -> Seq<SessionRenameV> {
    rs.map_values(|r: SessionRename| r@)
}

/// The renames for moving session `target` from `old_name` to `new_name`,
/// given tmux's session listing (id and name per line, tab separated):
/// deepest sessions first, so that no rename collides with a session that
/// is about to move. Nothing when the name does not change; an error when
/// `target` is no longer listed under `old_name` or a destination is taken.
pub open spec fn spec_rename_tree(
    target: Seq<char>,
    old_name: Seq<char>,
    new_name: Seq<char>,
    sessions_raw: Seq<char>,
) -> Result<Seq<SessionRenameV>, Seq<char>> {
    if old_name == new_name {
        Ok(Seq::empty())
    } else {
        let ls = crate::strs::lines(sessions_raw);
        let rs = renames_of(ls, old_name, new_name);
        if !(exists|j: int| 0 <= j < rs.len() && (#[trigger] rs[j]).id == target && rs[j].source == old_name) {
            Err("session "@ + old_name + " no longer exists"@)
        } else {
            match destination_error(rs, Set::empty(), listed_names(ls), sources_of(rs)) {
                Some(e) => Err(e),
                None => Ok(sorted_stably(rs, order_of::<SessionRename>())),
            }
        }
    }
}

pub open spec fn plan_view(r: Result<Vec<SessionRename>, String>) -> Result<Seq<SessionRenameV>, Seq<char>> {
    match r {
        Ok(v) => Ok(renames_view(v@)),
        Err(e) => Err(e@),
    }
}

fn collect_renames(ls: &Vec<String>, old_name: &str, new_name: &str) -> (r: (Vec<SessionRename>, StrSet))
    ensures
        renames_view(r.0@) == renames_of(views(ls@), old_name@, new_name@),
        r.1@ == listed_names(views(ls@)),
{
    let ghost lv = views(ls@);
    let prefix = concat(old_name, "/");
    proof {
        reveal_strlit("/");
        assert(prefix@ =~= old_name@.push('/'));
    }
    let old_chars = chars_of(old_name);
    let old_len = old_chars.len();
    let mut out: Vec<SessionRename> = Vec::new();
    let mut existing = StrSet::new();
    let mut k: usize = 0;
    while k < ls.len()
        invariant
            k <= ls@.len(),
            lv == views(ls@),
            prefix@ == old_name@.push('/'),
            old_len == old_name@.len(),
            renames_view(out@) == renames_of(lv.take(k as int), old_name@, new_name@),
            existing@ == listed_names(lv.take(k as int)),
        decreases ls.len() - k,
    {
        assert(lv.take(k + 1).drop_last() =~= lv.take(k as int));
        assert(lv.take(k + 1).last() == ls@[k as int]@);
        match crate::strs::split_once_char(ls[k].as_str(), '\t') {
            Some((id, name)) => {
                existing.insert(copy_string(&name));
                if eq_str(name.as_str(), old_name) || has_prefix(name.as_str(), prefix.as_str()) {
                    let nc = chars_of(name.as_str());
                    let tail = string_of_range(&nc, old_len, nc.len());
                    assert(tail@ =~= name@.skip(old_len as int));
                    let r = SessionRename { id, source: name, destination: concat(new_name, tail.as_str()) };
                    let ghost before = out@;
                    out.push(r);
                    assert(renames_view(out@) =~= renames_view(before).push(r@));
                }
            },
            None => {},
        }
        k += 1;
    }
    assert(lv.take(k as int) =~= lv);
    (out, existing)
}

pub fn rename_session_tree(target: &str, old_name: &str, new_name: &str, sessions_raw: &str) -> (r:
    Result<Vec<SessionRename>, String>)
    ensures
        plan_view(r) == spec_rename_tree(target@, old_name@, new_name@, sessions_raw@),
{
    if eq_str(old_name, new_name) {
        let v: Vec<SessionRename> = Vec::new();
        assert(renames_view(v@) =~= Seq::<SessionRenameV>::empty());
        return Ok(v);
    }
    let ls = split_lines(sessions_raw);
    let (renames, existing) = collect_renames(&ls, old_name, new_name);
    let ghost rs = renames_view(renames@);
    let mut found = false;
    let mut j: usize = 0;
    while j < renames.len()
        invariant
            j <= renames@.len(),
            rs == renames_view(renames@),
            found == exists|i: int| 0 <= i < j && (#[trigger] rs[i]).id == target@ && rs[i].source == old_name@,
        decreases renames.len() - j,
    {
        assert(rs[j as int] == renames@[j as int]@);
        if eq_str(renames[j].id.as_str(), target) && eq_str(renames[j].source.as_str(), old_name) {
            found = true;
        }
        j += 1;
    }
    if !found {
        return Err(msg3("session ", old_name, " no longer exists"));
    }
    let mut sources = StrSet::new();
    let mut j: usize = 0;
    while j < renames.len()
        invariant
            j <= renames@.len(),
            rs == renames_view(renames@),
            sources@ == sources_of(rs.take(j as int)),
        decreases renames.len() - j,
    {
        let ghost before = sources@;
        sources.insert(copy_string(&renames[j].source));
        proof {
            let t = rs.take(j + 1);
            assert(rs[j as int] == renames@[j as int]@);
            assert forall|n: Seq<char>| sources@.contains(n) == sources_of(t).contains(n) by {
                if sources@.contains(n) {
                    if n == rs[j as int].source {
                        assert(t[j as int] == rs[j as int]);
                    } else {
                        let i = choose|i: int| 0 <= i < j && (#[trigger] rs.take(j as int)[i]).source == n;
                        assert(t[i] == rs.take(j as int)[i]);
                    }
                }
                if sources_of(t).contains(n) {
                    let i = choose|i: int| 0 <= i < j + 1 && (#[trigger] t[i]).source == n;
                    if i < j {
                        assert(rs.take(j as int)[i] == t[i]);
                    }
                }
            }
            assert(sources@ =~= sources_of(t));
        }
        j += 1;
    }
    assert(rs.take(j as int) =~= rs);
    let mut seen = StrSet::new();
    let mut j: usize = 0;
    assert(rs.skip(0) =~= rs);
    while j < renames.len()
        invariant
            j <= renames@.len(),
            rs == renames_view(renames@),
            destination_error(rs, Set::empty(), existing@, sources@) == destination_error(
                rs.skip(j as int),
                seen@,
                existing@,
                sources@,
            ),
            existing@ == listed_names(crate::strs::lines(sessions_raw@)),
            sources@ == sources_of(rs),
            rs == renames_of(crate::strs::lines(sessions_raw@), old_name@, new_name@),
            old_name@ != new_name@,
            exists|i: int| 0 <= i < rs.len() && (#[trigger] rs[i]).id == target@ && rs[i].source == old_name@,
        decreases renames.len() - j,
    {
        assert(rs.skip(j as int)[0] == renames@[j as int]@);
        assert(rs.skip(j as int).drop_first() =~= rs.skip(j + 1));
        let d = renames[j].destination.as_str();
        if seen.contains(d) {
            return Err(msg2("duplicate destination session ", d));
        }
        if existing.contains(d) && !sources.contains(d) {
            return Err(msg3("session ", d, " already exists"));
        }
        seen.insert(copy_string(&renames[j].destination));
        j += 1;
    }
    assert(rs.skip(j as int).len() == 0);
    let sorted = stable_sort(renames);
    assert(renames_view(sorted@) =~= crate::sort::seq_views(sorted@));
    assert(rs =~= crate::sort::seq_views(renames@));
    Ok(sorted)
}

/// The command that applies one rename.
pub open spec fn rename_command(r: SessionRenameV) -> Seq<Seq<char>> {
    seq!["rename-session"@, "-t"@, r.id, r.destination]
}

pub fn rename_args(r: &SessionRename) -> (a: Vec<String>)
    ensures
        views(a@) == rename_command(r@),
{
    let mut args = strings2("rename-session", "-t");
    push_arg(&mut args, r.id.as_str());
    push_arg(&mut args, r.destination.as_str());
    assert(views(args@) =~= rename_command(r@));
    args
}

/// The commands that undo the renames before `failed`, latest first.
pub open spec fn rollback_commands(plan: Seq<SessionRenameV>, failed: int) -> Seq<Seq<Seq<char>>>
    decreases failed,
{
    if failed <= 0 {
        Seq::empty()
    } else {
        seq![seq!["rename-session"@, "-t"@, plan[failed - 1].id, plan[failed - 1].source]]
            + rollback_commands(plan, failed - 1)
    }
}

/// What running the renames came to: when rename `failed` did not go
/// through, the commands that put the earlier ones back and the error;
/// otherwise the number of sessions renamed below the first.
pub open spec fn spec_rename_outcome(plan: Seq<SessionRenameV>, failed: Option<nat>) -> (Seq<
    Seq<Seq<char>>,
>, Result<nat, Seq<char>>) {
    match failed {
        Some(k) => (
            rollback_commands(plan, k as int),
            Err("failed to rename session "@ + plan[k as int].source),
        ),
        None => (Seq::empty(), Ok(if plan.len() == 0 {
            0
        } else {
            (plan.len() - 1) as nat
        })),
    }
}

pub open spec fn commands_view(v: Seq<Vec<String>>) -> Seq<Seq<Seq<char>>> {
    v.map_values(|a: Vec<String>| views(a@))
}

pub fn rename_outcome(plan: &[SessionRename], failed: Option<usize>) -> (r: (
    Vec<Vec<String>>,
    Result<usize, String>,
))
    requires
        failed matches Some(k) ==> k < plan@.len(),
    ensures
        (commands_view(r.0@), outcome_view(r.1)) == spec_rename_outcome(
            renames_view(plan@),
            match failed {
                Some(k) => Some(k as nat),
                None => None,
            },
        ),
{
    let ghost pv = renames_view(plan@);
    match failed {
        Some(k) => {
            let mut cmds: Vec<Vec<String>> = Vec::new();
            let mut i = k;
            assert(commands_view(cmds@) + rollback_commands(pv, k as int) =~= rollback_commands(
                pv,
                k as int,
            ));
            while i > 0
                invariant
                    i <= k < plan@.len(),
                    pv == renames_view(plan@),
                    commands_view(cmds@) + rollback_commands(pv, i as int) == rollback_commands(
                        pv,
                        k as int,
                    ),
                decreases i,
            {
                let mut args = strings2("rename-session", "-t");
                push_arg(&mut args, plan[i - 1].id.as_str());
                push_arg(&mut args, plan[i - 1].source.as_str());
                assert(pv[i - 1] == plan@[i - 1]@);
                let ghost before = commands_view(cmds@);
                let ghost a = views(args@);
                assert(a =~= seq!["rename-session"@, "-t"@, pv[i - 1].id, pv[i - 1].source]);
                cmds.push(args);
                assert(commands_view(cmds@) =~= before.push(a));
                assert(before + (seq![a] + rollback_commands(pv, i - 1)) =~= commands_view(cmds@)
                    + rollback_commands(pv, i - 1));
                i -= 1;
            }
            assert(commands_view(cmds@) + Seq::<Seq<Seq<char>>>::empty() =~= commands_view(cmds@));
            assert(pv[k as int] == plan@[k as int]@);
            (cmds, Err(msg2("failed to rename session ", plan[k].source.as_str())))
        },
        None => {
            let cmds: Vec<Vec<String>> = Vec::new();
            assert(commands_view(cmds@) =~= Seq::<Seq<Seq<char>>>::empty());
            (cmds, Ok(if plan.len() == 0 {
                0
            } else {
                plan.len() - 1
            }))
        },
    }
}

// ---------------------------------------------------------------------------
// keys pressed while a modal is open
/// What a key pressed in a modal calls for.
#[derive(Clone, Debug, PartialEq, Eq)]
pub enum ModalKeyResult {
    /// Nothing changed.
    Ignored,
    /// The modal changed or closed; draw again.
    Redraw,
    /// The confirmation was accepted: carry out the action.
    Confirmed(ConfirmAction),
    /// The input was applied with this (untrimmed) value.
    Submitted(InputAction, String),
    /// Complete this path value (tab in the default-path input).
    CompletePath(String),
}

pub enum ModalKeyResultV {
    Ignored,
    Redraw,
    Confirmed(ConfirmActionV),
    Submitted(InputActionV, Seq<char>),
    CompletePath(Seq<char>),
}

impl View for ModalKeyResult {
    type V = ModalKeyResultV;

    open spec fn view(&self) -> ModalKeyResultV {
        match self {
            ModalKeyResult::Ignored => ModalKeyResultV::Ignored,
            ModalKeyResult::Redraw => ModalKeyResultV::Redraw,
            ModalKeyResult::Confirmed(a) => ModalKeyResultV::Confirmed(a@),
            ModalKeyResult::Submitted(a, v) => ModalKeyResultV::Submitted(a@, v@),
            ModalKeyResult::CompletePath(v) => ModalKeyResultV::CompletePath(v@),
        }
    }
}

pub open spec fn key_is(key: Seq<u8>, b: u8) -> bool {
    key.len() == 1 && key[0] == b
}

/// A printable ASCII character or a space.
pub open spec fn typed_byte(b: u8) -> bool {
    0x20 <= b && b <= 0x7e
}

/// `String::pop`: the value without its last character.
pub open spec fn without_last(v: Seq<char>) -> Seq<char> {
    if v.len() == 0 {
        v
    } else {
        v.drop_last()
    }
}

/// The modal after the key, and what the key calls for.
pub open spec fn spec_modal_key(m: ModalV, key: Seq<u8>) -> (ModalV, ModalKeyResultV) {
    match m {
        ModalV::Closed => (m, ModalKeyResultV::Ignored),
        ModalV::Confirm { action, .. } => if key_is(key, 0x79) || key_is(key, 0x59) || key_is(key, 0x0d)
            || key_is(key, 0x0a) {
            (ModalV::Closed, ModalKeyResultV::Confirmed(action))
        } else if key_is(key, 0x6e) || key_is(key, 0x4e) || key_is(key, 0x71) || key_is(key, 0x1b)
            || key_is(key, 3) {
            (ModalV::Closed, ModalKeyResultV::Redraw)
        } else {
            (m, ModalKeyResultV::Ignored)
        },
        ModalV::Info { .. } => if key_is(key, 0x71) || key_is(key, 0x0d) || key_is(key, 0x0a) || key_is(
            key,
            0x20,
        ) || key_is(key, 0x1b) || key_is(key, 3) {
            (ModalV::Closed, ModalKeyResultV::Redraw)
        } else {
            (m, ModalKeyResultV::Ignored)
        },
        ModalV::Input { title, value, action } => if key_is(key, 9) {
            if action is SetDefaultPath {
                (m, ModalKeyResultV::CompletePath(value))
            } else {
                (m, ModalKeyResultV::Ignored)
            }
        } else if key_is(key, 0x0d) || key_is(key, 0x0a) {
            (ModalV::Closed, ModalKeyResultV::Submitted(action, value))
        } else if key_is(key, 0x1b) || key_is(key, 3) {
            (ModalV::Closed, ModalKeyResultV::Redraw)
        } else if key_is(key, 8) || key_is(key, 127) {
            (ModalV::Input { title, value: without_last(value), action }, ModalKeyResultV::Redraw)
        } else if key.len() == 1 && typed_byte(key[0]) {
            (
                ModalV::Input { title, value: value.push((key[0] as u32) as char), action },
                ModalKeyResultV::Redraw,
            )
        } else {
            (m, ModalKeyResultV::Ignored)
        },
    }
}

fn is_key(key: &[u8], b: u8) -> (r: bool)
    ensures
        r == key_is(key@, b),
{
    key.len() == 1 && key[0] == b
}

fn pop_char(v: &String) -> (r: String)
    ensures
        r@ == without_last(v@),
{
    let cs = chars_of(v.as_str());
    if cs.len() == 0 {
        return copy_string(v);
    }
    let r = string_of_range(&cs, 0, cs.len() - 1);
    assert(r@ =~= v@.drop_last());
    r
}

pub fn handle_modal_key(modal: &mut Modal, key: &[u8]) -> (r: ModalKeyResult)
    ensures
        (final(modal)@, r@) == spec_modal_key(old(modal)@, key@),
{
    match modal {
        Modal::Closed => ModalKeyResult::Ignored,
        Modal::Confirm { action, .. } => {
            if is_key(key, 0x79) || is_key(key, 0x59) || is_key(key, 0x0d) || is_key(key, 0x0a) {
                let a = action.copy();
                *modal = Modal::Closed;
                ModalKeyResult::Confirmed(a)
            } else if is_key(key, 0x6e) || is_key(key, 0x4e) || is_key(key, 0x71) || is_key(key, 0x1b)
                || is_key(key, 3) {
                *modal = Modal::Closed;
                ModalKeyResult::Redraw
            } else {
                ModalKeyResult::Ignored
            }
        },
        Modal::Info { .. } => {
            if is_key(key, 0x71) || is_key(key, 0x0d) || is_key(key, 0x0a) || is_key(key, 0x20)
                || is_key(key, 0x1b) || is_key(key, 3) {
                *modal = Modal::Closed;
                ModalKeyResult::Redraw
            } else {
                ModalKeyResult::Ignored
            }
        },
        Modal::Input { title, value, action } => {
            if is_key(key, 9) {
                if matches!(action, InputAction::SetDefaultPath { .. }) {
                    ModalKeyResult::CompletePath(copy_string(value))
                } else {
                    ModalKeyResult::Ignored
                }
            } else if is_key(key, 0x0d) || is_key(key, 0x0a) {
                let a = action.copy();
                let v = copy_string(value);
                *modal = Modal::Closed;
                ModalKeyResult::Submitted(a, v)
            } else if is_key(key, 0x1b) || is_key(key, 3) {
                *modal = Modal::Closed;
                ModalKeyResult::Redraw
            } else if is_key(key, 8) || is_key(key, 127) {
                let v = pop_char(value);
                *value = v;
                ModalKeyResult::Redraw
            } else if key.len() == 1 && 0x20 <= key[0] && key[0] <= 0x7e {
                let c = key[0] as char;
                push_char(value, c);
                ModalKeyResult::Redraw
            } else {
                ModalKeyResult::Ignored
            }
        },
    }
}

// ---------------------------------------------------------------------------
// completing a directory in the default-path input
/// What `std::path::Path::parent` gives for a path written as text.
pub uninterp spec fn path_parent(p: Seq<char>) -> Option<Seq<char>>;

/// What `std::path::Path::file_name` gives for a path written as text.
pub uninterp spec fn path_file_name(p: Seq<char>) -> Option<Seq<char>>;

/// `Path::parent` of the path `p`, as text. The contract claims only that
/// the result depends on `p` alone (it is named `path_parent`); std's
/// rules for roots, `.` and `..` components are not restated here.
#[verifier::external_body]
fn parent_of(p: &str) -> (r: Option<String>)
    ensures
        opt_string(r) == path_parent(p@),
{
    match std::path::Path::new(p).parent() {
        Some(q) => Some(q.to_string_lossy().to_string()),
        None => None,
    }
}

/// `Path::file_name` of the path `p`, as text; like `parent_of`, only named.
#[verifier::external_body]
fn file_name_of(p: &str) -> (r: Option<String>)
    ensures
        opt_string(r) == path_file_name(p@),
{
    match std::path::Path::new(p).file_name() {
        Some(f) => Some(f.to_string_lossy().to_string()),
        None => None,
    }
}

/// The directory to list and the start of the name to complete: the whole
/// value when it ends with `/`, else its parent and its last component.
/// An empty value stands for `.`; `~` is resolved against `home`.
pub open spec fn spec_completion_target(value: Seq<char>, home: Option<Seq<char>>) -> (Seq<char>, Seq<char>) {
    let raw = trim(value);
    let expanded = spec_expand_home(
        if raw.len() == 0 {
            "."@
        } else {
            raw
        },
        home,
    );
    if expanded.len() > 0 && expanded.last() == '/' {
        (expanded, Seq::empty())
    } else {
        (
            match path_parent(expanded) {
                Some(p) => p,
                None => "."@,
            },
            match path_file_name(expanded) {
                Some(f) => f,
                None => Seq::empty(),
            },
        )
    }
}

pub fn completion_target(value: &str, home: Option<&str>) -> (r: (String, String))
    ensures
        (r.0@, r.1@) == spec_completion_target(value@, crate::state::opt_str(home)),
{
    let raw = trimmed(value);
    let expanded = if is_empty_str(raw.as_str()) {
        expand_home(".", home)
    } else {
        expand_home(raw.as_str(), home)
    };
    let ec = chars_of(expanded.as_str());
    if ec.len() > 0 && ec[ec.len() - 1] == '/' {
        return (expanded, String::new());
    }
    let dir = match parent_of(expanded.as_str()) {
        Some(p) => p,
        None => lit("."),
    };
    let prefix = match file_name_of(expanded.as_str()) {
        Some(f) => f,
        None => String::new(),
    };
    (dir, prefix)
}

impl Sortable for String {
    open spec fn precedes(a: Seq<char>, b: Seq<char>) -> bool {
        str_lt(a, b)
    }

    fn sorts_before(&self, other: &Self) -> (r: bool) {
        str_less(self.as_str(), other.as_str())
    }
}

/// The directory names that complete `prefix` (the empty name never does).
pub open spec fn completing_names(names: Seq<Seq<char>>, prefix: Seq<char>) -> Seq<Seq<char>>
    decreases names.len(),
{
    if names.len() == 0 {
        Seq::empty()
    } else {
        let rest = completing_names(names.drop_last(), prefix);
        if starts_with(names.last(), prefix) && names.last().len() > 0 {
            rest.push(names.last())
        } else {
            rest
        }
    }
}

/// The completed path: the common start of the matching names when it goes
/// beyond what was typed, else the first of them in order, joined to the
/// directory and ended with `/`; none when no name matches.
pub open spec fn spec_complete_path(dir: Seq<char>, prefix: Seq<char>, names: Seq<Seq<char>>) -> Option<
    Seq<char>,
> {
    let cand = sorted_stably(completing_names(names, prefix), order_of::<String>());
    if cand.len() == 0 {
        None
    } else {
        let common = spec_common_prefix(cand);
        let selected = if common.len() > prefix.len() {
            common
        } else {
            cand[0]
        };
        Some(spec_with_trailing_slash(path_join(dir, selected)))
    }
}

/// Completes a directory name from the names of the directories in `dir`.
pub fn complete_path_value(dir: &str, prefix: &str, names: Vec<String>) -> (r: Option<String>)
    ensures
        opt_string(r) == spec_complete_path(dir@, prefix@, views(names@)),
{
    let ghost nv = views(names@);
    let mut cand: Vec<String> = Vec::new();
    let mut k: usize = 0;
    while k < names.len()
        invariant
            k <= names@.len(),
            nv == views(names@),
            views(cand@) == completing_names(nv.take(k as int), prefix@),
        decreases names.len() - k,
    {
        assert(nv.take(k + 1).drop_last() =~= nv.take(k as int));
        assert(nv.take(k + 1).last() == names@[k as int]@);
        if has_prefix(names[k].as_str(), prefix) && !is_empty_str(names[k].as_str()) {
            let ghost before = views(cand@);
            cand.push(copy_string(&names[k]));
            assert(views(cand@) =~= before.push(names@[k as int]@));
        }
        k += 1;
    }
    assert(nv.take(k as int) =~= nv);
    assert(views(cand@) =~= crate::sort::seq_views(cand@));
    let sorted = stable_sort(cand);
    assert(views(sorted@) =~= crate::sort::seq_views(sorted@));
    if sorted.len() == 0 {
        return None;
    }
    let common = common_prefix(sorted.as_slice());
    let common_len = chars_of(common.as_str()).len();
    let prefix_len = chars_of(prefix).len();
    let selected = if common_len > prefix_len {
        common
    } else {
        assert(views(sorted@)[0] == sorted@[0]@);
        copy_string(&sorted[0])
    };
    let joined = join_path(dir, selected.as_str());
    Some(path_with_trailing_slash(joined.as_str()))
}

/// Puts a completed value into the input; nothing changes without one.
pub fn apply_completion(modal: &mut Modal, completed: Option<String>) -> (r: ModalKeyResult)
    ensures
        match (old(modal)@, completed) {
            (ModalV::Input { title, action, .. }, Some(c)) => final(modal)@ == (ModalV::Input {
                title,
                value: c@,
                action,
            }) && r@ == ModalKeyResultV::Redraw,
            _ => final(modal)@ == old(modal)@ && r@ == ModalKeyResultV::Ignored,
        },
{
    match (modal, completed) {
        (Modal::Input { value, .. }, Some(c)) => {
            *value = c;
            ModalKeyResult::Redraw
        },
        _ => ModalKeyResult::Ignored,
    }
}

/// Typing a character into an input and deleting it again gives back the
/// input as it was.
pub proof fn law_type_then_backspace(title: Seq<char>, value: Seq<char>, action: InputActionV, b: u8)
    requires
        typed_byte(b),
    ensures
        ({
            let m = ModalV::Input { title, value, action };
            let typed = spec_modal_key(m, seq![b]).0;
            spec_modal_key(typed, seq![8u8]).0 == m
        }),
{
    let m = ModalV::Input { title, value, action };
    let typed = spec_modal_key(m, seq![b]).0;
    assert(!key_is(seq![b], 9) && !key_is(seq![b], 0x0d) && !key_is(seq![b], 0x0a));
    assert(!key_is(seq![b], 0x1b) && !key_is(seq![b], 3) && !key_is(seq![b], 8) && !key_is(seq![b], 127));
    let c = (b as u32) as char;
    assert(typed == ModalV::Input { title, value: value.push(c), action });
    assert(key_is(seq![8u8], 8));
    assert(value.push(c).drop_last() =~= value);
}

/// Escape or ctrl-c closes any modal, and nothing is carried out.
pub proof fn law_escape_closes_modal(m: ModalV, key: u8)
    requires
        key == 0x1b || key == 3,
    ensures
        spec_modal_key(m, seq![key]) == (ModalV::Closed, if m is Closed {
            ModalKeyResultV::Ignored
        } else {
            ModalKeyResultV::Redraw
        }),
{
    assert(key_is(seq![key], key));
    assert(!key_is(seq![key], 9) && !key_is(seq![key], 0x0d) && !key_is(seq![key], 0x0a));
    assert(!key_is(seq![key], 0x79) && !key_is(seq![key], 0x59) && !key_is(seq![key], 0x6e));
    assert(!key_is(seq![key], 0x4e) && !key_is(seq![key], 0x71) && !key_is(seq![key], 0x20));
}

/// In a text input, a printable ASCII key (space to `~`) adds exactly that
/// character at the end of the value, as typed, and nothing else changes.
pub proof fn law_typed_key_appends(title: Seq<char>, value: Seq<char>, action: InputActionV, b: u8)
    requires
        0x20 <= b <= 0x7e,
    ensures
        spec_modal_key(ModalV::Input { title, value, action }, seq![b]).1 == ModalKeyResultV::Redraw,
        spec_modal_key(ModalV::Input { title, value, action }, seq![b]).0 matches ModalV::Input {
            title: t,
            value: v,
            action: a,
        } && t == title && a == action && v.len() == value.len() + 1 && v.take(value.len() as int)
            == value && v[value.len() as int] as u32 == b as u32,
{
    let m = ModalV::Input { title, value, action };
    assert(!key_is(seq![b], 9) && !key_is(seq![b], 0x0d) && !key_is(seq![b], 0x0a));
    assert(!key_is(seq![b], 0x1b) && !key_is(seq![b], 3) && !key_is(seq![b], 8) && !key_is(seq![b], 127));
    assert(typed_byte(seq![b][0]));
    let c = (b as u32) as char;
    assert(c as u32 == b as u32);
    let v = value.push(c);
    assert(v.take(value.len() as int) =~= value);
}

/// Adding a session or a window in a directory starts it there: adding
/// runs `new-session` (4 arguments) or `new-window` (6 arguments), followed by
/// `-c` and the directory when the directory is not empty.
pub proof fn law_add_uses_cwd(
    session_target: Option<Seq<char>>,
    session_name: Option<Seq<char>>,
    cwd: Seq<char>,
    raw: Seq<char>,
)
    ensures
        spec_input_effect(InputActionV::AddTarget { session_target, session_name, cwd }, raw) matches EffectV::Tmux {
            args,
            ..
        } ==> {
            let base: int = if args[0] == "new-session"@ {
                4
            } else {
                6
            };
            &&& (args[0] == "new-session"@ || args[0] == "new-window"@)
            &&& args.len() == (if cwd.len() > 0 {
                base + 2
            } else {
                base
            })
            &&& (cwd.len() > 0 ==> args[base] == "-c"@ && args[base + 1] == cwd)
        },
{
    reveal_strlit("new-session");
    reveal_strlit("new-window");
    let e = spec_input_effect(InputActionV::AddTarget { session_target, session_name, cwd }, raw);
    if let EffectV::Tmux { args, .. } = e {
        assert("new-session"@ != "new-window"@) by {
            assert("new-session"@[4] != "new-window"@[4]);
        }
        if cwd.len() == 0 {
            assert(cwd_args(cwd) =~= Seq::<Seq<char>>::empty());
        }
    }
}

proof fn lemma_renames_shape(ls: Seq<Seq<char>>, old_name: Seq<char>, new_name: Seq<char>)
    ensures
        forall|i: int|
            0 <= i < renames_of(ls, old_name, new_name).len() ==> {
                let r = #[trigger] renames_of(ls, old_name, new_name)[i];
                &&& (r.source == old_name || starts_with(r.source, old_name.push('/')))
                &&& r.destination == new_name + r.source.skip(old_name.len() as int)
            },
    decreases ls.len(),
{
    if ls.len() > 0 {
        lemma_renames_shape(ls.drop_last(), old_name, new_name);
        let rest = renames_of(ls.drop_last(), old_name, new_name);
        let all = renames_of(ls, old_name, new_name);
        assert forall|i: int| 0 <= i < all.len() implies {
            let r = #[trigger] all[i];
            &&& (r.source == old_name || starts_with(r.source, old_name.push('/')))
            &&& r.destination == new_name + r.source.skip(old_name.len() as int)
        } by {
            if i < rest.len() {
                assert(all[i] == rest[i]);
            }
        }
    }
}

proof fn lemma_no_destination_error(
    rs: Seq<SessionRenameV>,
    seen: Set<Seq<char>>,
    existing: Set<Seq<char>>,
    sources: Set<Seq<char>>,
)
    requires
        destination_error(rs, seen, existing, sources) is None,
    ensures
        forall|i: int| 0 <= i < rs.len() ==> !seen.contains((#[trigger] rs[i]).destination),
        forall|i: int|
            0 <= i < rs.len() ==> (existing.contains((#[trigger] rs[i]).destination) ==> sources.contains(
                rs[i].destination,
            )),
        forall|i: int, j: int|
            0 <= i < j < rs.len() ==> (#[trigger] rs[i]).destination != (#[trigger] rs[j]).destination,
    decreases rs.len(),
{
    if rs.len() > 0 {
        let d = rs[0].destination;
        let t = rs.drop_first();
        lemma_no_destination_error(t, seen.insert(d), existing, sources);
        assert forall|i: int| 0 <= i < rs.len() implies !seen.contains((#[trigger] rs[i]).destination) by {
            if i > 0 {
                assert(rs[i] == t[i - 1]);
            }
        }
        assert forall|i: int|
            0 <= i < rs.len() implies (existing.contains((#[trigger] rs[i]).destination) ==> sources.contains(
                rs[i].destination,
            )) by {
            if i > 0 {
                assert(rs[i] == t[i - 1]);
            }
        }
        assert forall|i: int, j: int| 0 <= i < j < rs.len() implies (#[trigger] rs[i]).destination
            != (#[trigger] rs[j]).destination by {
            assert(rs[j] == t[j - 1]);
            if i > 0 {
                assert(rs[i] == t[i - 1]);
            } else {
                assert(!seen.insert(d).contains(t[j - 1].destination));
            }
        }
    }
}

/// A session rename that is allowed renames the session itself and the
/// sessions below it, each to the new name followed by what came after the
/// old one; deeper sessions go first; no two get the same name, and none
/// gets the name of a session that keeps its name.
pub proof fn law_rename_plan_safe(
    target: Seq<char>,
    old_name: Seq<char>,
    new_name: Seq<char>,
    sessions_raw: Seq<char>,
)
    requires
        old_name != new_name,
        spec_rename_tree(target, old_name, new_name, sessions_raw) is Ok,
    ensures
        ({
            let plan = spec_rename_tree(target, old_name, new_name, sessions_raw)->Ok_0;
            &&& exists|j: int| 0 <= j < plan.len() && (#[trigger] plan[j]).id == target && plan[j].source
                == old_name
            &&& forall|i: int|
                0 <= i < plan.len() ==> ((#[trigger] plan[i]).source == old_name || starts_with(
                    plan[i].source,
                    old_name.push('/'),
                )) && plan[i].destination == new_name + plan[i].source.skip(old_name.len() as int)
            &&& forall|i: int, j: int|
                0 <= i < j < plan.len() ==> slash_count((#[trigger] plan[j]).source) <= slash_count(
                    (#[trigger] plan[i]).source,
                )
            &&& forall|i: int, j: int|
                0 <= i < j < plan.len() ==> (#[trigger] plan[i]).destination != (#[trigger] plan[j]).destination
            &&& forall|i: int|
                0 <= i < plan.len() && listed_names(crate::strs::lines(sessions_raw)).contains(
                    (#[trigger] plan[i]).destination,
                ) ==> exists|j: int| 0 <= j < plan.len() && (#[trigger] plan[j]).source == plan[i].destination
        }),
{
    let ls = crate::strs::lines(sessions_raw);
    let rs = renames_of(ls, old_name, new_name);
    let lt = order_of::<SessionRename>();
    let plan = sorted_stably(rs, lt);
    assert(spec_rename_tree(target, old_name, new_name, sessions_raw) == Ok::<Seq<SessionRenameV>, Seq<char>>(plan));
    lemma_renames_shape(ls, old_name, new_name);
    lemma_no_destination_error(rs, Set::empty(), listed_names(ls), sources_of(rs));
    crate::sort::lemma_sorted_contains(rs, lt);
    crate::sort::lemma_sorted_keeps(rs, lt);
    // the target is renamed
    let jt = choose|j: int| 0 <= j < rs.len() && (#[trigger] rs[j]).id == target && rs[j].source == old_name;
    assert(rs.contains(rs[jt]));
    assert(plan.contains(rs[jt]));
    let kt = choose|k: int| 0 <= k < plan.len() && plan[k] == rs[jt];
    assert(plan[kt].id == target && plan[kt].source == old_name);
    // every rename has the shape of one of the list
    assert forall|i: int| 0 <= i < plan.len() implies ((#[trigger] plan[i]).source == old_name || starts_with(
        plan[i].source,
        old_name.push('/'),
    )) && plan[i].destination == new_name + plan[i].source.skip(old_name.len() as int) by {
        assert(plan.contains(plan[i]));
        let m = choose|m: int| 0 <= m < rs.len() && rs[m] == plan[i];
    }
    // deepest first
    assert(crate::sort::strict_order(lt));
    crate::sort::lemma_sorted_stably_sorted(rs, lt);
    assert forall|i: int, j: int| 0 <= i < j < plan.len() implies slash_count((#[trigger] plan[j]).source)
        <= slash_count((#[trigger] plan[i]).source) by {
        assert(!lt(plan[j], plan[i]));
    }
    // destinations stay apart
    let f = |r: SessionRenameV| r.destination;
    assert forall|i: int, j: int| 0 <= i < j < rs.len() implies f(#[trigger] rs[i]) != f(#[trigger] rs[j]) by {}
    crate::sort::lemma_sorted_stably_distinct(rs, lt, f);
    assert forall|i: int, j: int| 0 <= i < j < plan.len() implies (#[trigger] plan[i]).destination
        != (#[trigger] plan[j]).destination by {
        assert(f(plan[i]) != f(plan[j]));
    }
    // a taken name belongs to a session that moves
    assert forall|i: int|
        0 <= i < plan.len() && listed_names(ls).contains((#[trigger] plan[i]).destination) implies exists|j: int|
        0 <= j < plan.len() && (#[trigger] plan[j]).source == plan[i].destination by {
        assert(plan.contains(plan[i]));
        let m = choose|m: int| 0 <= m < rs.len() && rs[m] == plan[i];
        assert(sources_of(rs).contains(rs[m].destination));
        let q = choose|q: int| 0 <= q < rs.len() && (#[trigger] rs[q]).source == rs[m].destination;
        assert(rs.contains(rs[q]));
        assert(plan.contains(rs[q]));
        let k = choose|k: int| 0 <= k < plan.len() && plan[k] == rs[q];
        assert(plan[k].source == plan[i].destination);
    }
    assert(plan == spec_rename_tree(target, old_name, new_name, sessions_raw)->Ok_0);
    assert(exists|j: int| 0 <= j < plan.len() && (#[trigger] plan[j]).id == target && plan[j].source == old_name);
}

} // verus!
