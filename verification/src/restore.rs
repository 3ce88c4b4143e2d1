use vstd::prelude::*;
use crate::model::{
    copy_panes, pane_views, window_views, SavedPane, SavedPaneV, SavedSession, SavedSessionV,
    SavedWindow, SavedWindowV,
};
use crate::strs::{concat, copy_string, eq_str, is_empty_str, lit, push_str, str_views, to_strings, trim, trimmed, views};

verus! {

// ---------------------------------------------------------------------------
// commands whose program is a shell
pub open spec fn spec_is_shell_command(command: Seq<char>) -> bool {
    ||| command.len() == 0
    ||| command == "sh"@
    ||| command == "bash"@
    ||| command == "zsh"@
    ||| command == "fish"@
    ||| command == "nu"@
    ||| command == "dash"@
    ||| command == "ash"@
    ||| command == "elvish"@
}

/// Whether a pane's command is a shell (or nothing), which restoring does
/// not start again.
pub fn is_shell_command(command: &str) -> (r: bool)
    ensures
        r == spec_is_shell_command(command@),
{
    is_empty_str(command) || eq_str(command, "sh") || eq_str(command, "bash") || eq_str(command, "zsh")
        || eq_str(command, "fish") || eq_str(command, "nu") || eq_str(command, "dash") || eq_str(
        command,
        "ash",
    ) || eq_str(command, "elvish")
}

// ---------------------------------------------------------------------------
// what restoring a saved layout runs
/// The working directory of the first pane that has one.
pub open spec fn first_pane_cwd(ps: Seq<SavedPaneV>) -> Option<Seq<char>>
    decreases ps.len(),
{
    if ps.len() == 0 {
        None
    } else if ps[0].cwd.len() > 0 {
        Some(ps[0].cwd)
    } else {
        first_pane_cwd(ps.drop_first())
    }
}

pub open spec fn first_window_cwd(ws: Seq<SavedWindowV>) -> Option<Seq<char>>
    decreases ws.len(),
{
    if ws.len() == 0 {
        None
    } else {
        match first_pane_cwd(ws[0].panes) {
            Some(c) => Some(c),
            None => first_window_cwd(ws.drop_first()),
        }
    }
}

/// Where the session starts: the first pane directory of the layout, else `.`.
pub open spec fn restore_first_cwd(s: SavedSessionV) -> Seq<char> {
    match first_window_cwd(s.windows) {
        Some(c) => c,
        None => "."@,
    }
}

/// The panes a window is rebuilt with: its own, or one active shell pane in
/// the first directory when none was saved.
pub open spec fn restore_panes(w: SavedWindowV, first_cwd: Seq<char>) -> Seq<SavedPaneV> {
    if w.panes.len() == 0 {
        seq![SavedPaneV { index: "0"@, active: true, cwd: first_cwd, command: Seq::empty() }]
    } else {
        w.panes
    }
}

/// The directory a window starts in.
pub open spec fn restore_window_cwd(panes: Seq<SavedPaneV>, first_cwd: Seq<char>) -> Seq<char> {
    match first_pane_cwd(panes) {
        Some(c) => c,
        None => first_cwd,
    }
}

pub open spec fn colon_join(a: Seq<char>, b: Seq<char>) -> Seq<char> {
    a + ":"@ + b
}

pub open spec fn dot_join(a: Seq<char>, b: Seq<char>) -> Seq<char> {
    a + "."@ + b
}

pub open spec fn create_args(s: SavedSessionV) -> Seq<Seq<char>> {
    seq![
        "new-session"@,
        "-d"@,
        "-s"@,
        s.name,
        "-n"@,
        "__restore_dummy__"@,
        "-c"@,
        restore_first_cwd(s),
    ]
}

/// The placeholder window moves out of the way; the default path is set.
pub open spec fn setup_commands(s: SavedSessionV) -> Seq<Seq<Seq<char>>> {
    let mv = seq![
        "move-window"@,
        "-s"@,
        colon_join(s.name, "__restore_dummy__"@),
        "-t"@,
        colon_join(s.name, "9999"@),
    ];
    if s.default_path.len() > 0 {
        seq![mv, seq!["set-option"@, "-t"@, s.name, "@overview_default_path"@, s.default_path]]
    } else {
        seq![mv]
    }
}

pub open spec fn new_window_args(target: Seq<char>, name: Seq<char>, cwd: Seq<char>) -> Seq<Seq<char>> {
    seq![
        "new-window"@,
        "-d"@,
        "-P"@,
        "-F"@,
        "#{window_id}"@,
        "-t"@,
        target,
        "-n"@,
        name,
        "-c"@,
        cwd,
    ]
}

pub open spec fn split_command(p: SavedPaneV, cwd: Seq<char>, wref: Seq<char>) -> Seq<Seq<char>> {
    seq![
        "split-window"@,
        "-d"@,
        "-t"@,
        wref,
        "-c"@,
        if p.cwd.len() > 0 {
            p.cwd
        } else {
            cwd
        },
    ]
}

/// A split for every pane after the first.
pub open spec fn split_commands(panes: Seq<SavedPaneV>, cwd: Seq<char>, wref: Seq<char>) -> Seq<
    Seq<Seq<char>>,
>
    decreases panes.len(),
{
    if panes.len() <= 1 {
        Seq::empty()
    } else {
        split_commands(panes.drop_last(), cwd, wref).push(split_command(panes.last(), cwd, wref))
    }
}

/// The panes whose command is started again: those with a command that
/// is not a shell.
pub open spec fn send_commands(panes: Seq<SavedPaneV>, wref: Seq<char>) -> Seq<Seq<Seq<char>>>
    decreases panes.len(),
{
    if panes.len() == 0 {
        Seq::empty()
    } else {
        let rest = send_commands(panes.drop_last(), wref);
        let p = panes.last();
        if p.command.len() > 0 && !spec_is_shell_command(p.command) {
            rest.push(seq!["send-keys"@, "-t"@, dot_join(wref, p.index), "-l"@, p.command])
        } else {
            rest
        }
    }
}

pub open spec fn first_active_pane(panes: Seq<SavedPaneV>) -> Option<SavedPaneV>
    decreases panes.len(),
{
    if panes.len() == 0 {
        None
    } else if panes[0].active {
        Some(panes[0])
    } else {
        first_active_pane(panes.drop_first())
    }
}

/// What rebuilds a window once it exists as `wref`: a split for every pane
/// after the first, the saved layout, the panes' commands, the active pane.
pub open spec fn window_commands(w: SavedWindowV, panes: Seq<SavedPaneV>, cwd: Seq<char>, wref: Seq<char>) -> Seq<
    Seq<Seq<char>>,
> {
    split_commands(panes, cwd, wref) + (if w.layout.len() > 0 {
        seq![seq!["select-layout"@, "-t"@, wref, w.layout]]
    } else {
        Seq::empty()
    }) + send_commands(panes, wref) + match first_active_pane(panes) {
        Some(p) => seq![seq!["select-pane"@, "-t"@, dot_join(wref, p.index)]],
        None => Seq::empty(),
    }
}

pub open spec fn first_active_window(ws: Seq<SavedWindowV>) -> Option<SavedWindowV>
    decreases ws.len(),
{
    if ws.len() == 0 {
        None
    } else if ws[0].active {
        Some(ws[0])
    } else {
        first_active_window(ws.drop_first())
    }
}

/// The placeholder window goes, the active window (else the first) is
/// selected, and the client switches to the session.
pub open spec fn finish_commands(s: SavedSessionV) -> Seq<Seq<Seq<char>>> {
    let kill = seq!["kill-window"@, "-t"@, colon_join(s.name, "9999"@)];
    let select = match first_active_window(s.windows) {
        Some(w) => seq![seq!["select-window"@, "-t"@, colon_join(s.name, w.index)]],
        None => if s.windows.len() > 0 {
            seq![seq!["select-window"@, "-t"@, colon_join(s.name, s.windows[0].index)]]
        } else {
            Seq::empty()
        },
    };
    seq![kill] + select + seq![seq!["switch-client"@, "-t"@, s.name]]
}

/// Where restoring stands.
#[derive(Clone, Copy, Debug, PartialEq, Eq)]
pub enum RestorePhase {
    /// Nothing done yet.
    Start,
    /// Asked whether the session is already live.
    Exists,
    /// Asked tmux to create the session.
    Create,
    /// Ran the commands before window `i` is created.
    Next(usize),
    /// Asked tmux to create window `i`.
    Created(usize),
    /// Asked tmux to create window `i` at the session's next index.
    Fallback(usize),
    /// Ran the closing commands.
    Switched,
    /// Finished.
    Done,
}

/// What the caller learnt from the last step.
#[derive(Clone, Debug, PartialEq, Eq)]
pub enum RestoreReply {
    Start,
    /// Whether the command of a `Check` succeeded.
    Status(bool),
    /// What the command of a `Query` printed.
    Output(String),
    /// The commands of a `Run` were run.
    Ran,
}

pub enum RestoreReplyV {
    Start,
    Status(bool),
    Output(Seq<char>),
    Ran,
}

impl View for RestoreReply {
    type V = RestoreReplyV;

    open spec fn view(&self) -> RestoreReplyV {
        match self {
            RestoreReply::Start => RestoreReplyV::Start,
            RestoreReply::Status(b) => RestoreReplyV::Status(*b),
            RestoreReply::Output(t) => RestoreReplyV::Output(t@),
            RestoreReply::Ran => RestoreReplyV::Ran,
        }
    }
}

/// What to do next.
#[derive(Debug, PartialEq, Eq)]
pub enum RestoreStep {
    /// Run tmux with these arguments and reply with whether it succeeded.
    Check(Vec<String>),
    /// Run tmux with these arguments and reply with what it printed.
    Query(Vec<String>),
    /// Run these tmux commands, whatever they give, and reply `Ran`.
    Run(Vec<Vec<String>>),
    /// Restoring is over.
    Finish(Result<(), String>),
}

pub enum RestoreStepV {
    Check(Seq<Seq<char>>),
    Query(Seq<Seq<char>>),
    Run(Seq<Seq<Seq<char>>>),
    Finish(Result<(), Seq<char>>),
}

pub open spec fn commands_view(v: Seq<Vec<String>>) -> Seq<Seq<Seq<char>>> {
    v.map_values(|a: Vec<String>| views(a@))
}

impl View for RestoreStep {
    type V = RestoreStepV;

    open spec fn view(&self) -> RestoreStepV {
        match self {
            RestoreStep::Check(a) => RestoreStepV::Check(views(a@)),
            RestoreStep::Query(a) => RestoreStepV::Query(views(a@)),
            RestoreStep::Run(c) => RestoreStepV::Run(commands_view(c@)),
            RestoreStep::Finish(Ok(())) => RestoreStepV::Finish(Ok(())),
            RestoreStep::Finish(Err(e)) => RestoreStepV::Finish(Err(e@)),
        }
    }
}

/// The trimmed text of an `Output` reply; empty for any other reply.
pub open spec fn reply_text(r: RestoreReplyV) -> Seq<char> {
    match r {
        RestoreReplyV::Output(t) => trim(t),
        _ => Seq::empty(),
    }
}

pub open spec fn window_step(s: SavedSessionV, i: int, wref: Seq<char>) -> (RestorePhase, RestoreStepV) {
    let w = s.windows[i];
    let first = restore_first_cwd(s);
    let panes = restore_panes(w, first);
    (
        RestorePhase::Next((i + 1) as usize),
        RestoreStepV::Run(window_commands(w, panes, restore_window_cwd(panes, first), wref)),
    )
}

/// One step of restoring layout `s`: the phase after it and what to do.
/// The session is switched to if it is live; otherwise it is created with a
/// placeholder window, each window is created at its index (or, when that
/// fails, at the next free one) and rebuilt, and the placeholder is removed.
pub open spec fn spec_restore_step(s: SavedSessionV, phase: RestorePhase, reply: RestoreReplyV) -> (
    RestorePhase,
    RestoreStepV,
) {
    match phase {
        RestorePhase::Start => if s.windows.len() == 0 {
            (RestorePhase::Done, RestoreStepV::Finish(Err("saved session has no windows"@)))
        } else {
            (RestorePhase::Exists, RestoreStepV::Check(seq!["has-session"@, "-t"@, s.name]))
        },
        RestorePhase::Exists => if reply == RestoreReplyV::Status(true) {
            (RestorePhase::Switched, RestoreStepV::Run(seq![seq!["switch-client"@, "-t"@, s.name]]))
        } else {
            (RestorePhase::Create, RestoreStepV::Check(create_args(s)))
        },
        RestorePhase::Create => if reply == RestoreReplyV::Status(true) {
            (RestorePhase::Next(0), RestoreStepV::Run(setup_commands(s)))
        } else {
            (RestorePhase::Done, RestoreStepV::Finish(Err("failed to create session"@)))
        },
        RestorePhase::Next(i) => if i < s.windows.len() {
            let w = s.windows[i as int];
            let first = restore_first_cwd(s);
            (
                RestorePhase::Created(i),
                RestoreStepV::Query(
                    new_window_args(
                        colon_join(s.name, w.index),
                        w.name,
                        restore_window_cwd(restore_panes(w, first), first),
                    ),
                ),
            )
        } else {
            (RestorePhase::Switched, RestoreStepV::Run(finish_commands(s)))
        },
        RestorePhase::Created(i) => if i >= s.windows.len() {
            (RestorePhase::Switched, RestoreStepV::Run(finish_commands(s)))
        } else if reply_text(reply).len() == 0 {
            let w = s.windows[i as int];
            let first = restore_first_cwd(s);
            (
                RestorePhase::Fallback(i),
                RestoreStepV::Query(
                    new_window_args(s.name, w.name, restore_window_cwd(restore_panes(w, first), first)),
                ),
            )
        } else {
            window_step(s, i as int, reply_text(reply))
        },
        RestorePhase::Fallback(i) => if i >= s.windows.len() {
            (RestorePhase::Switched, RestoreStepV::Run(finish_commands(s)))
        } else if reply_text(reply).len() == 0 {
            window_step(s, i as int, colon_join(s.name, s.windows[i as int].index))
        } else {
            window_step(s, i as int, reply_text(reply))
        },
        RestorePhase::Switched => (RestorePhase::Done, RestoreStepV::Finish(Ok(()))),
        RestorePhase::Done => (RestorePhase::Done, RestoreStepV::Finish(Ok(()))),
    }
}

fn first_pane_cwd_exec(panes: &Vec<SavedPane>) -> (r: Option<String>)
    ensures
        crate::state::opt_string(r) == first_pane_cwd(pane_views(panes@)),
{
    let ghost pv = pane_views(panes@);
    let mut i: usize = 0;
    assert(pv.skip(0) =~= pv);
    while i < panes.len()
        invariant
            i <= panes@.len(),
            pv == pane_views(panes@),
            first_pane_cwd(pv) == first_pane_cwd(pv.skip(i as int)),
        decreases panes.len() - i,
    {
        assert(pv.skip(i as int)[0] == panes@[i as int]@);
        assert(pv.skip(i as int).drop_first() =~= pv.skip(i + 1));
        if !is_empty_str(panes[i].cwd.as_str()) {
            return Some(copy_string(&panes[i].cwd));
        }
        i += 1;
    }
    None
}

fn restore_first_cwd_exec(s: &SavedSession) -> (r: String)
    ensures
        r@ == restore_first_cwd(s@),
{
    let ghost wv = window_views(s.windows@);
    let mut i: usize = 0;
    assert(wv.skip(0) =~= wv);
    while i < s.windows.len()
        invariant
            i <= s.windows@.len(),
            wv == window_views(s.windows@),
            first_window_cwd(wv) == first_window_cwd(wv.skip(i as int)),
        decreases s.windows.len() - i,
    {
        assert(wv.skip(i as int)[0] == s.windows@[i as int]@);
        assert(wv.skip(i as int).drop_first() =~= wv.skip(i + 1));
        if let Some(c) = first_pane_cwd_exec(&s.windows[i].panes) {
            return c;
        }
        i += 1;
    }
    lit(".")
}

fn restore_panes_exec(w: &SavedWindow, first: &str) -> (r: Vec<SavedPane>)
    ensures
        pane_views(r@) == restore_panes(w@, first@),
{
    if w.panes.len() == 0 {
        let mut v: Vec<SavedPane> = Vec::new();
        v.push(SavedPane { index: lit("0"), active: true, cwd: lit(first), command: String::new() });
        assert(pane_views(v@) =~= restore_panes(w@, first@));
        v
    } else {
        copy_panes(&w.panes)
    }
}

fn window_cwd_exec(panes: &Vec<SavedPane>, first: &str) -> (r: String)
    ensures
        r@ == restore_window_cwd(pane_views(panes@), first@),
{
    match first_pane_cwd_exec(panes) {
        Some(c) => c,
        None => lit(first),
    }
}

fn colon_join_exec(a: &str, b: &str) -> (r: String)
    ensures
        r@ == colon_join(a@, b@),
{
    let mut s = concat(a, ":");
    push_str(&mut s, b);
    s
}

fn dot_join_exec(a: &str, b: &str) -> (r: String)
    ensures
        r@ == dot_join(a@, b@),
{
    let mut s = concat(a, ".");
    push_str(&mut s, b);
    s
}

fn push_command(cmds: &mut Vec<Vec<String>>, args: Vec<String>)
    ensures
        commands_view(final(cmds)@) == commands_view(old(cmds)@).push(views(args@)),
{
    let ghost a = views(args@);
    cmds.push(args);
    assert(commands_view(cmds@) =~= commands_view(old(cmds)@).push(a));
}

fn split_commands_exec(panes: &Vec<SavedPane>, cwd: &str, wref: &str) -> (r: Vec<Vec<String>>)
    ensures
        commands_view(r@) == split_commands(pane_views(panes@), cwd@, wref@),
{
    let ghost pv = pane_views(panes@);
    let mut cmds: Vec<Vec<String>> = Vec::new();
    let mut i: usize = if panes.len() > 0 {
        1
    } else {
        0
    };
    assert(commands_view(cmds@) =~= split_commands(pv.take(i as int), cwd@, wref@));
    while i < panes.len()
        invariant
            i <= panes@.len(),
            panes@.len() > 0 ==> i >= 1,
            pv == pane_views(panes@),
            commands_view(cmds@) == split_commands(pv.take(i as int), cwd@, wref@),
        decreases panes.len() - i,
    {
        let pc = if is_empty_str(panes[i].cwd.as_str()) {
            cwd
        } else {
            panes[i].cwd.as_str()
        };
        let args = to_strings(&["split-window", "-d", "-t", wref, "-c", pc]);
        let ghost before = commands_view(cmds@);
        push_command(&mut cmds, args);
        assert(pv[i as int] == panes@[i as int]@);
        assert(pv.take(i + 1).drop_last() =~= pv.take(i as int));
        assert(pv.take(i + 1).last() == pv[i as int]);
        assert(views(args@) =~= split_command(pv[i as int], cwd@, wref@));
        i += 1;
    }
    assert(pv.take(i as int) =~= pv);
    cmds
}

fn send_commands_exec(panes: &Vec<SavedPane>, wref: &str) -> (r: Vec<Vec<String>>)
    ensures
        commands_view(r@) == send_commands(pane_views(panes@), wref@),
{
    let ghost pv = pane_views(panes@);
    let mut cmds: Vec<Vec<String>> = Vec::new();
    let mut k: usize = 0;
    assert(commands_view(cmds@) =~= send_commands(pv.take(0), wref@));
    while k < panes.len()
        invariant
            k <= panes@.len(),
            pv == pane_views(panes@),
            commands_view(cmds@) == send_commands(pv.take(k as int), wref@),
        decreases panes.len() - k,
    {
        assert(pv.take(k + 1).drop_last() =~= pv.take(k as int));
        assert(pv.take(k + 1).last() == panes@[k as int]@);
        let p = &panes[k];
        if !is_empty_str(p.command.as_str()) && !is_shell_command(p.command.as_str()) {
            let target = dot_join_exec(wref, p.index.as_str());
            let args = to_strings(&["send-keys", "-t", target.as_str(), "-l", p.command.as_str()]);
            assert(views(args@) =~= seq!["send-keys"@, "-t"@, dot_join(wref@, p.index@), "-l"@, p.command@]);
            push_command(&mut cmds, args);
        }
        k += 1;
    }
    assert(pv.take(k as int) =~= pv);
    cmds
}

fn first_active_pane_index(panes: &Vec<SavedPane>) -> (r: Option<usize>)
    ensures
        match r {
            Some(j) => j < panes@.len() && first_active_pane(pane_views(panes@)) == Some(panes@[j as int]@),
            None => first_active_pane(pane_views(panes@)) is None,
        },
{
    let ghost pv = pane_views(panes@);
    let mut j: usize = 0;
    assert(pv.skip(0) =~= pv);
    while j < panes.len()
        invariant
            j <= panes@.len(),
            pv == pane_views(panes@),
            first_active_pane(pv) == first_active_pane(pv.skip(j as int)),
        decreases panes.len() - j,
    {
        assert(pv.skip(j as int)[0] == panes@[j as int]@);
        assert(pv.skip(j as int).drop_first() =~= pv.skip(j + 1));
        if panes[j].active {
            return Some(j);
        }
        j += 1;
    }
    None
}

fn append_commands(cmds: &mut Vec<Vec<String>>, more: Vec<Vec<String>>)
    ensures
        commands_view(final(cmds)@) == commands_view(old(cmds)@) + commands_view(more@),
{
    let ghost a = commands_view(cmds@);
    let ghost b = commands_view(more@);
    let mut more = more;
    cmds.append(&mut more);
    assert(commands_view(cmds@) =~= a + b);
}

fn window_commands_exec(w: &SavedWindow, panes: &Vec<SavedPane>, cwd: &str, wref: &str) -> (r: Vec<
    Vec<String>,
>)
    ensures
        commands_view(r@) == window_commands(w@, pane_views(panes@), cwd@, wref@),
{
    let ghost pv = pane_views(panes@);
    let mut cmds = split_commands_exec(panes, cwd, wref);
    let mut layout: Vec<Vec<String>> = Vec::new();
    if !is_empty_str(w.layout.as_str()) {
        let args = to_strings(&["select-layout", "-t", wref, w.layout.as_str()]);
        assert(views(args@) =~= seq!["select-layout"@, "-t"@, wref@, w@.layout]);
        push_command(&mut layout, args);
    }
    assert(commands_view(layout@) =~= (if w@.layout.len() > 0 {
        seq![seq!["select-layout"@, "-t"@, wref@, w@.layout]]
    } else {
        Seq::empty()
    }));
    append_commands(&mut cmds, layout);
    append_commands(&mut cmds, send_commands_exec(panes, wref));
    let mut select: Vec<Vec<String>> = Vec::new();
    match first_active_pane_index(panes) {
        Some(j) => {
            let target = dot_join_exec(wref, panes[j].index.as_str());
            let args = to_strings(&["select-pane", "-t", target.as_str()]);
            assert(views(args@) =~= seq!["select-pane"@, "-t"@, dot_join(wref@, panes@[j as int]@.index)]);
            push_command(&mut select, args);
        },
        None => {},
    }
    assert(commands_view(select@) =~= match first_active_pane(pv) {
        Some(p) => seq![seq!["select-pane"@, "-t"@, dot_join(wref@, p.index)]],
        None => Seq::<Seq<Seq<char>>>::empty(),
    });
    append_commands(&mut cmds, select);
    cmds
}

fn first_active_window_index(ws: &Vec<SavedWindow>) -> (r: Option<usize>)
    ensures
        match r {
            Some(j) => j < ws@.len() && first_active_window(window_views(ws@)) == Some(ws@[j as int]@),
            None => first_active_window(window_views(ws@)) is None,
        },
{
    let ghost wv = window_views(ws@);
    let mut j: usize = 0;
    assert(wv.skip(0) =~= wv);
    while j < ws.len()
        invariant
            j <= ws@.len(),
            wv == window_views(ws@),
            first_active_window(wv) == first_active_window(wv.skip(j as int)),
        decreases ws.len() - j,
    {
        assert(wv.skip(j as int)[0] == ws@[j as int]@);
        assert(wv.skip(j as int).drop_first() =~= wv.skip(j + 1));
        if ws[j].active {
            return Some(j);
        }
        j += 1;
    }
    None
}

fn finish_commands_exec(s: &SavedSession) -> (r: Vec<Vec<String>>)
    ensures
        commands_view(r@) == finish_commands(s@),
{
    let ghost wv = window_views(s.windows@);
    let mut cmds: Vec<Vec<String>> = Vec::new();
    let nine = colon_join_exec(s.name.as_str(), "9999");
    let kill = to_strings(&["kill-window", "-t", nine.as_str()]);
    assert(views(kill@) =~= seq!["kill-window"@, "-t"@, colon_join(s.name@, "9999"@)]);
    push_command(&mut cmds, kill);
    let chosen: Option<usize> = match first_active_window_index(&s.windows) {
        Some(a) => Some(a),
        None => if s.windows.len() > 0 {
            Some(0)
        } else {
            None
        },
    };
    let mut select: Vec<Vec<String>> = Vec::new();
    if let Some(a) = chosen {
        let t = colon_join_exec(s.name.as_str(), s.windows[a].index.as_str());
        let args = to_strings(&["select-window", "-t", t.as_str()]);
        assert(views(args@) =~= seq!["select-window"@, "-t"@, colon_join(s.name@, s.windows@[a as int]@.index)]);
        push_command(&mut select, args);
    }
    proof {
        if s.windows@.len() > 0 {
            assert(wv[0] == s.windows@[0]@);
        }
    }
    assert(commands_view(select@) =~= match first_active_window(wv) {
        Some(w) => seq![seq!["select-window"@, "-t"@, colon_join(s.name@, w.index)]],
        None => if wv.len() > 0 {
            seq![seq!["select-window"@, "-t"@, colon_join(s.name@, wv[0].index)]]
        } else {
            Seq::<Seq<Seq<char>>>::empty()
        },
    });
    append_commands(&mut cmds, select);
    let switch = to_strings(&["switch-client", "-t", s.name.as_str()]);
    assert(views(switch@) =~= seq!["switch-client"@, "-t"@, s.name@]);
    push_command(&mut cmds, switch);
    assert(commands_view(cmds@) =~= finish_commands(s@));
    cmds
}

fn setup_commands_exec(s: &SavedSession) -> (r: Vec<Vec<String>>)
    ensures
        commands_view(r@) == setup_commands(s@),
{
    let mut cmds: Vec<Vec<String>> = Vec::new();
    let dummy = colon_join_exec(s.name.as_str(), "__restore_dummy__");
    let nine = colon_join_exec(s.name.as_str(), "9999");
    let mv = to_strings(&["move-window", "-s", dummy.as_str(), "-t", nine.as_str()]);
    assert(views(mv@) =~= seq![
        "move-window"@,
        "-s"@,
        colon_join(s.name@, "__restore_dummy__"@),
        "-t"@,
        colon_join(s.name@, "9999"@),
    ]);
    push_command(&mut cmds, mv);
    if !is_empty_str(s.default_path.as_str()) {
        let set = to_strings(
            &["set-option", "-t", s.name.as_str(), "@overview_default_path", s.default_path.as_str()],
        );
        assert(views(set@) =~= seq!["set-option"@, "-t"@, s.name@, "@overview_default_path"@, s.default_path@]);
        push_command(&mut cmds, set);
    }
    assert(commands_view(cmds@) =~= setup_commands(s@));
    cmds
}

fn new_window_args_exec(target: &str, name: &str, cwd: &str) -> (r: Vec<String>)
    ensures
        views(r@) == new_window_args(target@, name@, cwd@),
{
    let r = to_strings(
        &["new-window", "-d", "-P", "-F", "#{window_id}", "-t", target, "-n", name, "-c", cwd],
    );
    assert(views(r@) =~= new_window_args(target@, name@, cwd@));
    r
}

fn window_step_exec(s: &SavedSession, i: usize, wref: &str) -> (r: (RestorePhase, RestoreStep))
    requires
        i < s.windows@.len(),
    ensures
        (r.0, r.1@) == window_step(s@, i as int, wref@),
{
    let w = &s.windows[i];
    assert(window_views(s.windows@)[i as int] == w@);
    let first = restore_first_cwd_exec(s);
    let panes = restore_panes_exec(w, first.as_str());
    let cwd = window_cwd_exec(&panes, first.as_str());
    let cmds = window_commands_exec(w, &panes, cwd.as_str(), wref);
    let n = s.windows.len();
    assert(i < n);
    (RestorePhase::Next(i + 1), RestoreStep::Run(cmds))
}

fn new_window_query(s: &SavedSession, i: usize, target: &str) -> (r: RestoreStep)
    requires
        i < s.windows@.len(),
    ensures
        r@ == RestoreStepV::Query(
            new_window_args(
                target@,
                s@.windows[i as int].name,
                restore_window_cwd(
                    restore_panes(s@.windows[i as int], restore_first_cwd(s@)),
                    restore_first_cwd(s@),
                ),
            ),
        ),
{
    let w = &s.windows[i];
    assert(window_views(s.windows@)[i as int] == w@);
    let first = restore_first_cwd_exec(s);
    let panes = restore_panes_exec(w, first.as_str());
    let cwd = window_cwd_exec(&panes, first.as_str());
    RestoreStep::Query(new_window_args_exec(target, w.name.as_str(), cwd.as_str()))
}

fn reply_text_exec(reply: &RestoreReply) -> (r: String)
    ensures
        r@ == reply_text(reply@),
{
    match reply {
        RestoreReply::Output(t) => trimmed(t.as_str()),
        _ => String::new(),
    }
}

/// Takes one step of restoring `saved`: reads the reply to the last step,
/// moves `phase` on and says what to do next. Start with
/// `RestorePhase::Start` and `RestoreReply::Start`; stop at `Finish`.
pub fn restore_saved_session(saved: &SavedSession, phase: &mut RestorePhase, reply: &RestoreReply) -> (r:
    RestoreStep)
    ensures
        (*final(phase), r@) == spec_restore_step(saved@, *old(phase), reply@),
{
    let n = saved.windows.len();
    let (next, step) = match *phase {
        RestorePhase::Start => if n == 0 {
            (RestorePhase::Done, RestoreStep::Finish(Err(lit("saved session has no windows"))))
        } else {
            let args = to_strings(&["has-session", "-t", saved.name.as_str()]);
            assert(views(args@) =~= seq!["has-session"@, "-t"@, saved@.name]);
            (RestorePhase::Exists, RestoreStep::Check(args))
        },
        RestorePhase::Exists => if matches!(reply, RestoreReply::Status(true)) {
            let mut cmds: Vec<Vec<String>> = Vec::new();
            let args = to_strings(&["switch-client", "-t", saved.name.as_str()]);
            assert(views(args@) =~= seq!["switch-client"@, "-t"@, saved@.name]);
            push_command(&mut cmds, args);
            assert(commands_view(cmds@) =~= seq![seq!["switch-client"@, "-t"@, saved@.name]]);
            (RestorePhase::Switched, RestoreStep::Run(cmds))
        } else {
            let first = restore_first_cwd_exec(saved);
            let args = to_strings(
                &[
                    "new-session",
                    "-d",
                    "-s",
                    saved.name.as_str(),
                    "-n",
                    "__restore_dummy__",
                    "-c",
                    first.as_str(),
                ],
            );
            assert(views(args@) =~= create_args(saved@));
            (RestorePhase::Create, RestoreStep::Check(args))
        },
        RestorePhase::Create => if matches!(reply, RestoreReply::Status(true)) {
            (RestorePhase::Next(0), RestoreStep::Run(setup_commands_exec(saved)))
        } else {
            (RestorePhase::Done, RestoreStep::Finish(Err(lit("failed to create session"))))
        },
        RestorePhase::Next(i) => if i < n {
            let target = colon_join_exec(saved.name.as_str(), saved.windows[i].index.as_str());
            assert(window_views(saved.windows@)[i as int] == saved.windows@[i as int]@);
            (RestorePhase::Created(i), new_window_query(saved, i, target.as_str()))
        } else {
            (RestorePhase::Switched, RestoreStep::Run(finish_commands_exec(saved)))
        },
        RestorePhase::Created(i) => if i >= n {
            (RestorePhase::Switched, RestoreStep::Run(finish_commands_exec(saved)))
        } else {
            let text = reply_text_exec(reply);
            if is_empty_str(text.as_str()) {
                (RestorePhase::Fallback(i), new_window_query(saved, i, saved.name.as_str()))
            } else {
                window_step_exec(saved, i, text.as_str())
            }
        },
        RestorePhase::Fallback(i) => if i >= n {
            (RestorePhase::Switched, RestoreStep::Run(finish_commands_exec(saved)))
        } else {
            let text = reply_text_exec(reply);
            if is_empty_str(text.as_str()) {
                let target = colon_join_exec(saved.name.as_str(), saved.windows[i].index.as_str());
                assert(window_views(saved.windows@)[i as int] == saved.windows@[i as int]@);
                window_step_exec(saved, i, target.as_str())
            } else {
                window_step_exec(saved, i, text.as_str())
            }
        },
        RestorePhase::Switched => (RestorePhase::Done, RestoreStep::Finish(Ok(()))),
        RestorePhase::Done => (RestorePhase::Done, RestoreStep::Finish(Ok(()))),
    };
    *phase = next;
    step
}

// ---------------------------------------------------------------------------
// restoring ends
/// How many steps restoring can still take at most from `phase`.
pub open spec fn steps_left(s: SavedSessionV, phase: RestorePhase) -> nat {
    let n = s.windows.len();
    match phase {
        RestorePhase::Start => 3 * n + 5,
        RestorePhase::Exists => 3 * n + 4,
        RestorePhase::Create => 3 * n + 3,
        RestorePhase::Next(i) => if i < n {
            (3 * (n - i) + 2) as nat
        } else {
            2
        },
        RestorePhase::Created(i) => if i < n {
            (3 * (n - i) + 1) as nat
        } else {
            2
        },
        RestorePhase::Fallback(i) => if i < n {
            (3 * (n - i)) as nat
        } else {
            2
        },
        RestorePhase::Switched => 1,
        RestorePhase::Done => 0,
    }
}

/// Restoring always ends: every step before the end brings it closer,
/// whatever tmux replied, and a step finishes exactly when restoring is done
/// (at most `3 * windows + 5` steps in all).
pub proof fn law_restore_ends(s: SavedSessionV, phase: RestorePhase, reply: RestoreReplyV)
    requires
        s.windows.len() <= usize::MAX,
    ensures
        ({
            let (next, step) = spec_restore_step(s, phase, reply);
            &&& (phase != RestorePhase::Done ==> steps_left(s, next) < steps_left(s, phase))
            &&& (step is Finish <==> next == RestorePhase::Done)
        }),
{
}

// ---------------------------------------------------------------------------
// panes open where they were
proof fn lemma_split_commands_at(panes: Seq<SavedPaneV>, cwd: Seq<char>, wref: Seq<char>, k: int)
    requires
        1 <= k < panes.len(),
    ensures
        split_commands(panes, cwd, wref).len() == panes.len() - 1,
        split_commands(panes, cwd, wref)[k - 1] == split_command(panes[k], cwd, wref),
    decreases panes.len(),
{
    let rest = split_commands(panes.drop_last(), cwd, wref);
    if panes.len() == 2 {
        assert(rest =~= Seq::<Seq<Seq<char>>>::empty());
    } else {
        lemma_split_commands_at(panes.drop_last(), cwd, wref, if k < panes.len() - 1 {
            k
        } else {
            1
        });
        if k < panes.len() - 1 {
            assert(panes.drop_last()[k] == panes[k]);
            assert(rest.push(split_command(panes.last(), cwd, wref))[k - 1] == rest[k - 1]);
        }
    }
}

/// Once a window with saved panes has been created as `out` (the id tmux
/// printed), every pane after its first is split off in that window and
/// opened in its own saved directory; only a pane saved without one opens
/// where the window was created.
pub proof fn law_panes_reopen_in_their_directories(
    s: SavedSessionV,
    i: usize,
    out: Seq<char>,
    created: RestoreReplyV,
    k: int,
)
    requires
        i < s.windows.len() <= usize::MAX,
        trim(out).len() > 0,
        1 <= k < s.windows[i as int].panes.len(),
    ensures
        ({
            let p = s.windows[i as int].panes[k];
            let window_dir = spec_restore_step(s, RestorePhase::Next(i), created).1->Query_0[10];
            spec_restore_step(s, RestorePhase::Created(i), RestoreReplyV::Output(out)).1 matches RestoreStepV::Run(
                cmds,
            ) && k - 1 < cmds.len() && cmds[k - 1] == seq![
                "split-window"@,
                "-d"@,
                "-t"@,
                trim(out),
                "-c"@,
                if p.cwd.len() > 0 {
                    p.cwd
                } else {
                    window_dir
                },
            ]
        }),
{
    let w = s.windows[i as int];
    let first = restore_first_cwd(s);
    let panes = restore_panes(w, first);
    assert(panes == w.panes);
    let cwd = restore_window_cwd(panes, first);
    assert(reply_text(RestoreReplyV::Output(out)) == trim(out));
    lemma_split_commands_at(panes, cwd, trim(out), k);
    let cmds = window_commands(w, panes, cwd, trim(out));
    let sc = split_commands(panes, cwd, trim(out));
    assert(cmds[k - 1] == sc[k - 1]);
}

} // verus!
