use vstd::prelude::*;
use crate::model::{
    SavedPane, SavedPaneV, SavedSession, SavedSessionV, SavedWindow, SavedWindowV, pane_views,
    saved_views, window_views,
};
use crate::num::{parse_usize, parse_usize_exec};
use crate::order::{str_less, str_lt};
use crate::sort::{Sortable, order_of, seq_views, sorted_stably, stable_sort};
use crate::state::{join_path, opt_str, opt_string, path_join};
use crate::strs::{
    chars_of, eq_str, is_empty_str, lines, lit, push_char, push_str, split, split_char,
    split_lines, trim, trimmed, views,
};
use crate::util::{hex_decode, hex_encode, spec_hex_decode, spec_hex_encode};

verus! {

// ---------------------------------------------------------------------------
// where layouts are saved
/// `$XDG_STATE_HOME`, else `$HOME/.local/state`, with `tmux-overview/sessions`
/// below it; none when neither variable is set.
pub open spec fn spec_saved_sessions_dir(xdg_state_home: Option<Seq<char>>, home: Option<Seq<char>>) -> Option<
    Seq<char>,
> {
    let base = match xdg_state_home {
        Some(x) => Some(x),
        None => match home {
            Some(h) => Some(path_join(h, ".local/state"@)),
            None => None,
        },
    };
    match base {
        Some(b) => Some(path_join(path_join(b, "tmux-overview"@), "sessions"@)),
        None => None,
    }
}

/// The directory of saved layouts, from `XDG_STATE_HOME` and `HOME`.
pub fn saved_sessions_dir(xdg_state_home: Option<&str>, home: Option<&str>) -> (r: Option<String>)
    ensures
        opt_string(r) == spec_saved_sessions_dir(opt_str(xdg_state_home), opt_str(home)),
{
    let base = match xdg_state_home {
        Some(x) => lit(x),
        None => match home {
            Some(h) => join_path(h, ".local/state"),
            None => {
                return None;
            },
        },
    };
    let app = join_path(base.as_str(), "tmux-overview");
    Some(join_path(app.as_str(), "sessions"))
}

pub open spec fn spec_saved_session_path(
    xdg_state_home: Option<Seq<char>>,
    home: Option<Seq<char>>,
    name: Seq<char>,
) -> Option<Seq<char>> {
    match spec_saved_sessions_dir(xdg_state_home, home) {
        Some(d) => Some(path_join(d, spec_hex_encode(name) + ".tsv"@)),
        None => None,
    }
}

/// The file of the layout saved for session `name`: its name in hex, with
/// the extension `.tsv`.
pub fn saved_session_path(xdg_state_home: Option<&str>, home: Option<&str>, name: &str) -> (r:
    Option<String>)
    ensures
        opt_string(r) == spec_saved_session_path(opt_str(xdg_state_home), opt_str(home), name@),
{
    match saved_sessions_dir(xdg_state_home, home) {
        Some(d) => {
            let mut file = hex_encode(name);
            push_str(&mut file, ".tsv");
            Some(join_path(d.as_str(), file.as_str()))
        },
        None => None,
    }
}

/// `Path::extension` of a file name: the text after its last `.`, unless the
/// name is `..`, has no `.`, or its only `.` comes first.
pub open spec fn file_extension(name: Seq<char>) -> Option<Seq<char>> {
    if name == ".."@ {
        None
    } else {
        match crate::strs::rsplit_once(name, '.') {
            Some((before, after)) => if before.len() == 0 {
                None
            } else {
                Some(after)
            },
            None => None,
        }
    }
}

/// Whether a directory entry named `file_name` is a saved layout (extension
/// `tsv`).
pub fn is_saved_layout_file(file_name: &str) -> (r: bool)
    ensures
        r == (file_extension(file_name@) == Some("tsv"@)),
{
    if eq_str(file_name, "..") {
        return false;
    }
    match crate::strs::rsplit_once_char(file_name, '.') {
        Some((before, after)) => {
            if is_empty_str(before.as_str()) {
                false
            } else {
                eq_str(after.as_str(), "tsv")
            }
        },
        None => false,
    }
}

// ---------------------------------------------------------------------------
// reading a layout file
/// The order of saved windows and panes: by their index read as a number, an
/// index that is not a number going last.
pub open spec fn index_key(index: Seq<char>) -> nat {
    match parse_usize(index) {
        Some(n) => n,
        None => usize::MAX as nat,
    }
}

fn index_key_exec(index: &str) -> (r: usize)
    ensures
        r == index_key(index@),
{
    match parse_usize_exec(index) {
        Some(n) => n,
        None => usize::MAX,
    }
}

impl Sortable for SavedWindow {
    open spec fn precedes(a: SavedWindowV, b: SavedWindowV) -> bool {
        index_key(a.index) < index_key(b.index)
    }

    fn sorts_before(&self, other: &Self) -> (r: bool) {
        index_key_exec(self.index.as_str()) < index_key_exec(other.index.as_str())
    }
}

impl Sortable for SavedPane {
    open spec fn precedes(a: SavedPaneV, b: SavedPaneV) -> bool {
        index_key(a.index) < index_key(b.index)
    }

    fn sorts_before(&self, other: &Self) -> (r: bool) {
        index_key_exec(self.index.as_str()) < index_key_exec(other.index.as_str())
    }
}

impl Sortable for SavedSession {
    open spec fn precedes(a: SavedSessionV, b: SavedSessionV) -> bool {
        str_lt(a.name, b.name)
    }

    fn sorts_before(&self, other: &Self) -> (r: bool) {
        str_less(self.name.as_str(), other.name.as_str())
    }
}

/// What has been read of a layout file: the session and the window being
/// filled.
pub struct LayoutReading {
    pub session: Option<SavedSessionV>,
    pub window: Option<SavedWindowV>,
}

/// The session with the window being filled added to it.
pub open spec fn flush_window(session: Option<SavedSessionV>, window: Option<SavedWindowV>) -> Option<
    SavedSessionV,
> {
    match (session, window) {
        (Some(s), Some(w)) => Some(SavedSessionV { windows: s.windows.push(w), ..s }),
        _ => session,
    }
}

/// One line of a layout file, split at tabs. `session` starts the session
/// (with no windows), `default_path` sets its default path, `window` closes
/// the window being filled and starts the next, `pane` adds a pane to the
/// window being filled; anything else changes nothing.
pub open spec fn layout_step(st: LayoutReading, parts: Seq<Seq<char>>, label: Seq<char>) -> LayoutReading {
    if parts.len() == 2 && parts[0] == "session"@ {
        LayoutReading {
            session: Some(
                SavedSessionV {
                    name: spec_hex_decode(parts[1]),
                    default_path: Seq::empty(),
                    saved_label: label,
                    windows: Seq::empty(),
                },
            ),
            window: st.window,
        }
    } else if parts.len() == 2 && parts[0] == "default_path"@ {
        LayoutReading {
            session: match st.session {
                Some(s) => Some(SavedSessionV { default_path: spec_hex_decode(parts[1]), ..s }),
                None => None,
            },
            window: st.window,
        }
    } else if parts.len() == 5 && parts[0] == "window"@ {
        LayoutReading {
            session: flush_window(st.session, st.window),
            window: Some(
                SavedWindowV {
                    index: spec_hex_decode(parts[1]),
                    name: spec_hex_decode(parts[2]),
                    active: parts[3] == "1"@,
                    layout: spec_hex_decode(parts[4]),
                    panes: Seq::empty(),
                },
            ),
        }
    } else if parts.len() == 5 && parts[0] == "pane"@ {
        LayoutReading {
            session: st.session,
            window: match st.window {
                Some(w) => Some(
                    SavedWindowV {
                        panes: w.panes.push(
                            SavedPaneV {
                                index: spec_hex_decode(parts[1]),
                                active: parts[2] == "1"@,
                                cwd: spec_hex_decode(parts[3]),
                                command: spec_hex_decode(parts[4]),
                            },
                        ),
                        ..w
                    },
                ),
                None => None,
            },
        }
    } else {
        st
    }
}

/// What reading the lines `ls` makes of `st`.
pub open spec fn layout_fold_from(st: LayoutReading, ls: Seq<Seq<char>>, label: Seq<char>) -> LayoutReading
    decreases ls.len(),
{
    if ls.len() == 0 {
        st
    } else {
        layout_step(layout_fold_from(st, ls.drop_last(), label), split(ls.last(), '\t'), label)
    }
}

pub open spec fn layout_fold(ls: Seq<Seq<char>>, label: Seq<char>) -> LayoutReading {
    layout_fold_from(LayoutReading { session: None, window: None }, ls, label)
}

pub open spec fn with_sorted_panes(w: SavedWindowV) -> SavedWindowV {
    SavedWindowV { panes: sorted_stably(w.panes, order_of::<SavedPane>()), ..w }
}

/// The session as kept: panes and windows in index order.
pub open spec fn normalized_layout(s: SavedSessionV) -> SavedSessionV {
    SavedSessionV {
        windows: sorted_stably(
            s.windows.map_values(|w: SavedWindowV| with_sorted_panes(w)),
            order_of::<SavedWindow>(),
        ),
        ..s
    }
}

/// The layout a file holds, labelled `label`: none unless it names a session
/// and gives it a window.
pub open spec fn spec_parse_layout(contents: Seq<char>, label: Seq<char>) -> Option<SavedSessionV> {
    let st = layout_fold(lines(contents), label);
    match flush_window(st.session, st.window) {
        Some(s) => if s.name.len() > 0 && s.windows.len() > 0 {
            Some(normalized_layout(s))
        } else {
            None
        },
        None => None,
    }
}

pub open spec fn opt_saved_view(o: Option<SavedSession>) -> Option<SavedSessionV> {
    match o {
        Some(s) => Some(s@),
        None => None,
    }
}

pub open spec fn opt_window_view(o: Option<SavedWindow>) -> Option<SavedWindowV> {
    match o {
        Some(w) => Some(w@),
        None => None,
    }
}

fn flush_window_exec(session: Option<SavedSession>, window: Option<SavedWindow>) -> (r: Option<
    SavedSession,
>)
    ensures
        opt_saved_view(r) == flush_window(opt_saved_view(session), opt_window_view(window)),
{
    match (session, window) {
        (Some(mut s), Some(w)) => {
            let ghost before = s@;
            let ghost wv = w@;
            s.windows.push(w);
            assert(window_views(s.windows@) =~= before.windows.push(wv));
            Some(s)
        },
        (s, _) => s,
    }
}

fn flag_is_one(s: &str) -> (r: bool)
    ensures
        r == (s@ == "1"@),
{
    eq_str(s, "1")
}

/// Reads one saved layout file; `saved_label` says when it was saved.
pub fn parse_saved_session(contents: &str, saved_label: &str) -> (r: Option<SavedSession>)
    ensures
        opt_saved_view(r) == spec_parse_layout(contents@, saved_label@),
{
    let ls = split_lines(contents);
    let mut session: Option<SavedSession> = None;
    let mut window: Option<SavedWindow> = None;
    let mut i: usize = 0;
    while i < ls.len()
        invariant
            i <= ls@.len(),
            views(ls@) == lines(contents@),
            layout_fold(views(ls@).take(i as int), saved_label@) == (LayoutReading {
                session: opt_saved_view(session),
                window: opt_window_view(window),
            }),
        decreases ls.len() - i,
    {
        assert(views(ls@).take(i + 1).drop_last() =~= views(ls@).take(i as int));
        let parts = split_char(ls[i].as_str(), '\t');
        let ghost pv = views(parts@);
        assert(pv == split(views(ls@).take(i + 1).last(), '\t'));
        if parts.len() == 2 && eq_str(parts[0].as_str(), "session") {
            session = Some(
                SavedSession {
                    name: hex_decode(parts[1].as_str()),
                    default_path: String::new(),
                    saved_label: lit(saved_label),
                    windows: Vec::new(),
                },
            );
            proof {
                let s = session.unwrap();
                assert(window_views(s.windows@) =~= Seq::<SavedWindowV>::empty());
            }
        } else if parts.len() == 2 && eq_str(parts[0].as_str(), "default_path") {
            session = match session {
                Some(mut s) => {
                    s.default_path = hex_decode(parts[1].as_str());
                    Some(s)
                },
                None => None,
            };
        } else if parts.len() == 5 && eq_str(parts[0].as_str(), "window") {
            let taken = window;
            session = flush_window_exec(session, taken);
            let w = SavedWindow {
                index: hex_decode(parts[1].as_str()),
                name: hex_decode(parts[2].as_str()),
                active: flag_is_one(parts[3].as_str()),
                layout: hex_decode(parts[4].as_str()),
                panes: Vec::new(),
            };
            assert(pane_views(w.panes@) =~= Seq::<SavedPaneV>::empty());
            window = Some(w);
        } else if parts.len() == 5 && eq_str(parts[0].as_str(), "pane") {
            window = match window {
                Some(mut w) => {
                    let ghost before = w@;
                    let p = SavedPane {
                        index: hex_decode(parts[1].as_str()),
                        active: flag_is_one(parts[2].as_str()),
                        cwd: hex_decode(parts[3].as_str()),
                        command: hex_decode(parts[4].as_str()),
                    };
                    let ghost pvv = p@;
                    w.panes.push(p);
                    assert(pane_views(w.panes@) =~= before.panes.push(pvv));
                    Some(w)
                },
                None => None,
            };
        }
        i += 1;
    }
    assert(views(ls@).take(ls@.len() as int) =~= views(ls@));
    let taken = window;
    match flush_window_exec(session, taken) {
        Some(s) => {
            let SavedSession { name, default_path, saved_label, windows } = s;
            let ghost wv = window_views(windows@);
            let mut prepared: Vec<SavedWindow> = Vec::new();
            let mut rest = windows;
            let mut k: usize = 0;
            let n = rest.len();
            assert(window_views(rest@) =~= wv.skip(0));
            while rest.len() > 0
                invariant
                    k + rest@.len() == n,
                    n == wv.len(),
                    window_views(rest@) == wv.skip(k as int),
                    window_views(prepared@) == wv.take(k as int).map_values(
                        |w: SavedWindowV| with_sorted_panes(w),
                    ),
                decreases rest.len(),
            {
                let ghost before = rest@;
                let w = rest.remove(0);
                assert(w@ == window_views(before)[0]);
                assert(window_views(rest@) =~= wv.skip(k + 1)) by {
                    assert forall|j: int| 0 <= j < rest@.len() implies window_views(rest@)[j]
                        == wv.skip(k + 1)[j] by {
                        assert(rest@[j] == before[j + 1]);
                        assert(window_views(before)[j + 1] == wv.skip(k as int)[j + 1]);
                    }
                }
                let SavedWindow { index, name: wname, active, layout, panes } = w;
                let ghost pv = pane_views(panes@);
                assert(seq_views(panes@) =~= pv);
                let sorted = stable_sort(panes);
                assert(seq_views(sorted@) =~= pane_views(sorted@));
                let ghost prev = prepared@;
                prepared.push(SavedWindow { index, name: wname, active, layout, panes: sorted });
                assert(window_views(prepared@) =~= wv.take(k + 1).map_values(
                    |w: SavedWindowV| with_sorted_panes(w),
                )) by {
                    assert(window_views(prepared@) =~= window_views(prev).push(
                        with_sorted_panes(wv[k as int]),
                    ));
                }
                k += 1;
            }
            assert(wv.take(n as int) =~= wv);
            assert(seq_views(prepared@) =~= window_views(prepared@));
            let sorted_windows = stable_sort(prepared);
            assert(seq_views(sorted_windows@) =~= window_views(sorted_windows@));
            if is_empty_str(name.as_str()) || n == 0 {
                None
            } else {
                Some(SavedSession { name, default_path, saved_label, windows: sorted_windows })
            }
        },
        None => None,
    }
}

/// The saved layouts are listed by session name.
pub proof fn law_saved_layouts_by_name(files: Seq<(Seq<char>, Seq<char>)>)
    ensures
        ({
            let listed = sorted_stably(parsed_layouts(files), order_of::<SavedSession>());
            forall|i: int, j: int|
                0 <= i < j < listed.len() ==> (#[trigger] listed[i]).name == (#[trigger] listed[j]).name
                    || str_lt(listed[i].name, listed[j].name)
        }),
{
    let lt = order_of::<SavedSession>();
    assert forall|a: SavedSessionV| !#[trigger] lt(a, a) by {
        crate::order::lemma_str_lt_irreflexive(a.name);
    }
    assert forall|a: SavedSessionV, b: SavedSessionV, c: SavedSessionV|
        #[trigger] lt(a, b) && #[trigger] lt(b, c) implies lt(a, c) by {
        crate::order::lemma_str_lt_transitive(a.name, b.name, c.name);
    }
    crate::sort::lemma_sorted_stably_sorted(parsed_layouts(files), lt);
    let listed = sorted_stably(parsed_layouts(files), lt);
    assert forall|i: int, j: int| 0 <= i < j < listed.len() implies (#[trigger] listed[i]).name == (
    #[trigger] listed[j]).name || str_lt(listed[i].name, listed[j].name) by {
        assert(!lt(listed[j], listed[i]));
        crate::order::lemma_str_lt_total(listed[i].name, listed[j].name);
    }
}

/// The layouts read from the saved files, each given as its text and the
/// label of when it was saved: the files that hold a layout, by session name.
pub fn collect_saved_sessions(files: Vec<(String, String)>) -> (r: Vec<SavedSession>)
    ensures
        saved_views(r@) == sorted_stably(
            parsed_layouts(files@.map_values(|f: (String, String)| (f.0@, f.1@))),
            order_of::<SavedSession>(),
        ),
{
    let ghost fv = files@.map_values(|f: (String, String)| (f.0@, f.1@));
    let mut out: Vec<SavedSession> = Vec::new();
    let mut i: usize = 0;
    while i < files.len()
        invariant
            i <= files@.len(),
            fv == files@.map_values(|f: (String, String)| (f.0@, f.1@)),
            saved_views(out@) == parsed_layouts(fv.take(i as int)),
        decreases files.len() - i,
    {
        assert(fv.take(i + 1).drop_last() =~= fv.take(i as int));
        match parse_saved_session(files[i].0.as_str(), files[i].1.as_str()) {
            Some(s) => {
                let ghost before = saved_views(out@);
                let ghost sv = s@;
                out.push(s);
                assert(saved_views(out@) =~= before.push(sv));
            },
            None => {},
        }
        i += 1;
    }
    assert(fv.take(files@.len() as int) =~= fv);
    assert(seq_views(out@) =~= saved_views(out@));
    let r = stable_sort(out);
    assert(seq_views(r@) =~= saved_views(r@));
    r
}

/// The layouts among `files` (text, label), in their order.
pub open spec fn parsed_layouts(files: Seq<(Seq<char>, Seq<char>)>) -> Seq<SavedSessionV>
    decreases files.len(),
{
    if files.len() == 0 {
        Seq::empty()
    } else {
        let rest = parsed_layouts(files.drop_last());
        match spec_parse_layout(files.last().0, files.last().1) {
            Some(s) => rest.push(s),
            None => rest,
        }
    }
}


// ---------------------------------------------------------------------------
// writing a layout file
/// Text made of `ls`, each line ended by `\n`.
pub open spec fn text_of_lines(ls: Seq<Seq<char>>) -> Seq<char>
    decreases ls.len(),
{
    if ls.len() == 0 {
        Seq::empty()
    } else {
        text_of_lines(ls.drop_last()) + ls.last() + seq!['\n']
    }
}

pub open spec fn flag(b: bool) -> Seq<char> {
    if b {
        "1"@
    } else {
        "0"@
    }
}

pub open spec fn tab() -> Seq<char> {
    seq!['\t']
}

pub open spec fn pane_line(p: SavedPaneV) -> Seq<char> {
    "pane"@ + tab() + spec_hex_encode(p.index) + tab() + flag(p.active) + tab() + spec_hex_encode(
        p.cwd,
    ) + tab() + spec_hex_encode(p.command)
}

pub open spec fn window_line(w: SavedWindowV) -> Seq<char> {
    "window"@ + tab() + spec_hex_encode(w.index) + tab() + spec_hex_encode(w.name) + tab() + flag(
        w.active,
    ) + tab() + spec_hex_encode(w.layout)
}

pub open spec fn pane_lines(ps: Seq<SavedPaneV>) -> Seq<Seq<char>> {
    ps.map_values(|p: SavedPaneV| pane_line(p))
}

pub open spec fn window_lines(w: SavedWindowV) -> Seq<Seq<char>> {
    seq![window_line(w)] + pane_lines(w.panes)
}

pub open spec fn windows_lines(ws: Seq<SavedWindowV>) -> Seq<Seq<char>>
    decreases ws.len(),
{
    if ws.len() == 0 {
        Seq::empty()
    } else {
        windows_lines(ws.drop_last()) + window_lines(ws.last())
    }
}

pub open spec fn head_lines(s: SavedSessionV) -> Seq<Seq<char>> {
    let first = seq!["v1"@, "session"@ + tab() + spec_hex_encode(s.name)];
    if s.default_path.len() > 0 {
        first.push("default_path"@ + tab() + spec_hex_encode(s.default_path))
    } else {
        first
    }
}

/// The lines of the layout file for `s`: a version line, the session, its
/// default path when it has one, then each window followed by its panes;
/// every string is written in hex.
pub open spec fn layout_lines(s: SavedSessionV) -> Seq<Seq<char>> {
    head_lines(s) + windows_lines(s.windows)
}

pub open spec fn layout_text(s: SavedSessionV) -> Seq<char> {
    text_of_lines(layout_lines(s))
}

fn push_line(out: &mut String, line: &str, Ghost(ls): Ghost<Seq<Seq<char>>>)
    requires
        old(out)@ == text_of_lines(ls),
    ensures
        final(out)@ == text_of_lines(ls.push(line@)),
{
    push_str(out, line);
    push_char(out, '\n');
    assert(ls.push(line@).drop_last() =~= ls);
}

fn flag_text_exec(b: bool) -> (r: &'static str)
    ensures
        r@ == flag(b),
{
    if b {
        "1"
    } else {
        "0"
    }
}

fn pane_line_exec(p: &SavedPane) -> (r: String)
    ensures
        r@ == pane_line(p@),
{
    let mut l = lit("pane");
    push_char(&mut l, '\t');
    push_str(&mut l, hex_encode(p.index.as_str()).as_str());
    push_char(&mut l, '\t');
    push_str(&mut l, flag_text_exec(p.active));
    push_char(&mut l, '\t');
    push_str(&mut l, hex_encode(p.cwd.as_str()).as_str());
    push_char(&mut l, '\t');
    push_str(&mut l, hex_encode(p.command.as_str()).as_str());
    l
}

fn window_line_exec(w: &SavedWindow) -> (r: String)
    ensures
        r@ == window_line(w@),
{
    let mut l = lit("window");
    push_char(&mut l, '\t');
    push_str(&mut l, hex_encode(w.index.as_str()).as_str());
    push_char(&mut l, '\t');
    push_str(&mut l, hex_encode(w.name.as_str()).as_str());
    push_char(&mut l, '\t');
    push_str(&mut l, flag_text_exec(w.active));
    push_char(&mut l, '\t');
    push_str(&mut l, hex_encode(w.layout.as_str()).as_str());
    l
}

/// The layout file for `s` (its label is not written).
pub fn layout_contents(s: &SavedSession) -> (r: String)
    ensures
        r@ == layout_text(s@),
{
    let ghost sv = s@;
    let mut out = String::new();
    let ghost mut ls: Seq<Seq<char>> = Seq::empty();
    push_line(&mut out, "v1", Ghost(ls));
    proof {
        ls = ls.push("v1"@);
    }
    let mut session_line = lit("session");
    push_char(&mut session_line, '\t');
    push_str(&mut session_line, hex_encode(s.name.as_str()).as_str());
    assert(session_line@ =~= "session"@ + tab() + spec_hex_encode(sv.name));
    push_line(&mut out, session_line.as_str(), Ghost(ls));
    proof {
        ls = ls.push(session_line@);
    }
    if !is_empty_str(s.default_path.as_str()) {
        let mut dp = lit("default_path");
        push_char(&mut dp, '\t');
        push_str(&mut dp, hex_encode(s.default_path.as_str()).as_str());
        assert(dp@ =~= "default_path"@ + tab() + spec_hex_encode(sv.default_path));
        push_line(&mut out, dp.as_str(), Ghost(ls));
        proof {
            ls = ls.push(dp@);
        }
    }
    assert(ls =~= head_lines(sv));
    let ghost ws = sv.windows;
    let mut k: usize = 0;
    assert(windows_lines(ws.take(0)) =~= Seq::<Seq<char>>::empty());
    assert(ls + Seq::<Seq<char>>::empty() =~= ls);
    while k < s.windows.len()
        invariant
            k <= s.windows@.len(),
            sv == s@,
            ws == sv.windows,
            out@ == text_of_lines(head_lines(sv) + windows_lines(ws.take(k as int))),
        decreases s.windows.len() - k,
    {
        let w = &s.windows[k];
        assert(w@ == ws[k as int]);
        let ghost base = head_lines(sv) + windows_lines(ws.take(k as int));
        let wl = window_line_exec(w);
        push_line(&mut out, wl.as_str(), Ghost(base));
        let mut j: usize = 0;
        let ghost ps = w@.panes;
        assert(pane_lines(ps.take(0)) =~= Seq::<Seq<char>>::empty());
        assert(base.push(wl@) =~= base + (seq![wl@] + pane_lines(ps.take(0))));
        while j < w.panes.len()
            invariant
                j <= w.panes@.len(),
                ps == w@.panes,
                out@ == text_of_lines(base + (seq![window_line(w@)] + pane_lines(ps.take(j as int)))),
            decreases w.panes.len() - j,
        {
            let pl = pane_line_exec(&w.panes[j]);
            assert(w.panes@[j as int]@ == ps[j as int]);
            push_line(
                &mut out,
                pl.as_str(),
                Ghost(base + (seq![window_line(w@)] + pane_lines(ps.take(j as int)))),
            );
            assert((base + (seq![window_line(w@)] + pane_lines(ps.take(j as int)))).push(pl@)
                =~= base + (seq![window_line(w@)] + pane_lines(ps.take(j + 1))));
            j += 1;
        }
        assert(ps.take(j as int) =~= ps);
        assert(ws.take(k + 1).drop_last() =~= ws.take(k as int));
        assert(base + (seq![window_line(w@)] + pane_lines(ps)) =~= head_lines(sv) + windows_lines(
            ws.take(k + 1),
        ));
        k += 1;
    }
    assert(ws.take(k as int) =~= ws);
    out
}

// ---------------------------------------------------------------------------
// taking a snapshot of a live session
/// The fields of the window lines that `list-windows` printed with at least
/// five fields.
pub open spec fn window_fields(ls: Seq<Seq<char>>) -> Seq<Seq<Seq<char>>>
    decreases ls.len(),
{
    if ls.len() == 0 {
        Seq::empty()
    } else {
        let rest = window_fields(ls.drop_last());
        let parts = split(ls.last(), '\t');
        if parts.len() >= 5 {
            rest.push(parts)
        } else {
            rest
        }
    }
}

/// The panes `list-panes` printed, from its lines with at least four fields
/// (index, active flag, working directory, command).
pub open spec fn snapshot_panes(ls: Seq<Seq<char>>) -> Seq<SavedPaneV>
    decreases ls.len(),
{
    if ls.len() == 0 {
        Seq::empty()
    } else {
        let rest = snapshot_panes(ls.drop_last());
        let q = split(ls.last(), '\t');
        if q.len() >= 4 {
            rest.push(
                SavedPaneV { index: q[0], active: q[1] == "1"@, cwd: q[2], command: q[3] },
            )
        } else {
            rest
        }
    }
}

pub open spec fn snapshot_window(fields: Seq<Seq<char>>, panes_raw: Seq<char>) -> SavedWindowV {
    SavedWindowV {
        index: fields[1],
        name: fields[2],
        active: fields[3] == "1"@,
        layout: fields[4],
        panes: snapshot_panes(lines(panes_raw)),
    }
}

/// The layout of a live session: its name, its default path (trimmed), and
/// the windows `list-windows` printed with the panes `list-panes` printed for
/// each of them.
pub open spec fn snapshot_view(
    name: Seq<char>,
    default_path_raw: Seq<char>,
    windows_raw: Seq<char>,
    panes_raw: Seq<Seq<char>>,
) -> SavedSessionV {
    let fields = window_fields(lines(windows_raw));
    SavedSessionV {
        name,
        default_path: trim(default_path_raw),
        saved_label: Seq::empty(),
        windows: Seq::new(fields.len(), |k: int| snapshot_window(fields[k], panes_raw[k])),
    }
}

fn window_fields_exec(windows_raw: &str) -> (r: Vec<Vec<String>>)
    ensures
        r@.len() == window_fields(lines(windows_raw@)).len(),
        forall|k: int|
            0 <= k < r@.len() ==> views(#[trigger] r@[k]@) == window_fields(lines(windows_raw@))[k],
{
    let ls = split_lines(windows_raw);
    let ghost lv = views(ls@);
    let mut out: Vec<Vec<String>> = Vec::new();
    let mut i: usize = 0;
    while i < ls.len()
        invariant
            i <= ls@.len(),
            lv == views(ls@),
            lv == lines(windows_raw@),
            out@.len() == window_fields(lv.take(i as int)).len(),
            forall|k: int|
                0 <= k < out@.len() ==> views(#[trigger] out@[k]@) == window_fields(
                    lv.take(i as int),
                )[k],
        decreases ls.len() - i,
    {
        assert(lv.take(i + 1).drop_last() =~= lv.take(i as int));
        let parts = split_char(ls[i].as_str(), '\t');
        if parts.len() >= 5 {
            out.push(parts);
        }
        i += 1;
    }
    assert(lv.take(ls@.len() as int) =~= lv);
    out
}

/// The ids of the windows whose panes a snapshot needs, in order.
pub fn snapshot_window_ids(windows_raw: &str) -> (r: Vec<String>)
    ensures
        views(r@) == window_fields(lines(windows_raw@)).map_values(|f: Seq<Seq<char>>| f[0]),
{
    let fields = window_fields_exec(windows_raw);
    let ghost fv = window_fields(lines(windows_raw@));
    let mut out: Vec<String> = Vec::new();
    let mut k: usize = 0;
    while k < fields.len()
        invariant
            k <= fields@.len(),
            fields@.len() == fv.len(),
            fv == window_fields(lines(windows_raw@)),
            forall|j: int| 0 <= j < fields@.len() ==> views(#[trigger] fields@[j]@) == fv[j],
            views(out@) == fv.take(k as int).map_values(|f: Seq<Seq<char>>| f[0]),
        decreases fields.len() - k,
    {
        assert(views(fields@[k as int]@) == fv[k as int]);
        assert(fields@[k as int]@.len() >= 5) by {
            assert(fv[k as int].len() >= 5) by {
                lemma_window_fields_wide(lines(windows_raw@), k as int);
            }
        }
        let ghost before = views(out@);
        assert(views(fields@[k as int]@)[0] == fields@[k as int]@[0]@);
        let id = crate::strs::copy_string(&fields[k][0]);
        out.push(id);
        assert(views(out@) =~= before.push(fv[k as int][0]));
        assert(views(out@) =~= fv.take(k + 1).map_values(|f: Seq<Seq<char>>| f[0]));
        k += 1;
    }
    assert(fv.take(k as int) =~= fv);
    out
}

proof fn lemma_window_fields_wide(ls: Seq<Seq<char>>, k: int)
    requires
        0 <= k < window_fields(ls).len(),
    ensures
        window_fields(ls)[k].len() >= 5,
    decreases ls.len(),
{
    if ls.len() > 0 {
        let rest = window_fields(ls.drop_last());
        if k < rest.len() {
            lemma_window_fields_wide(ls.drop_last(), k);
        }
    }
}

fn snapshot_panes_exec(panes_raw: &str) -> (r: Vec<SavedPane>)
    ensures
        pane_views(r@) == snapshot_panes(lines(panes_raw@)),
{
    let ls = split_lines(panes_raw);
    let ghost lv = views(ls@);
    let mut out: Vec<SavedPane> = Vec::new();
    let mut i: usize = 0;
    while i < ls.len()
        invariant
            i <= ls@.len(),
            lv == views(ls@),
            lv == lines(panes_raw@),
            pane_views(out@) == snapshot_panes(lv.take(i as int)),
        decreases ls.len() - i,
    {
        assert(lv.take(i + 1).drop_last() =~= lv.take(i as int));
        let q = split_char(ls[i].as_str(), '\t');
        if q.len() >= 4 {
            let p = SavedPane {
                index: crate::strs::copy_string(&q[0]),
                active: flag_is_one(q[1].as_str()),
                cwd: crate::strs::copy_string(&q[2]),
                command: crate::strs::copy_string(&q[3]),
            };
            let ghost before = pane_views(out@);
            let ghost pv = p@;
            out.push(p);
            assert(pane_views(out@) =~= before.push(pv));
        }
        i += 1;
    }
    assert(lv.take(ls@.len() as int) =~= lv);
    out
}

/// The layout of a live session from what tmux printed: `default_path_raw`
/// from `show-option @overview_default_path`, `windows_raw` from
/// `list-windows`, and `panes_raw[k]` from `list-panes` on the `k`-th id of
/// `snapshot_window_ids(windows_raw)`.
pub fn snapshot_session(
    name: &str,
    default_path_raw: &str,
    windows_raw: &str,
    panes_raw: &Vec<String>,
) -> (r: SavedSession)
    requires
        panes_raw@.len() == window_fields(lines(windows_raw@)).len(),
    ensures
        r@ == snapshot_view(name@, default_path_raw@, windows_raw@, views(panes_raw@)),
{
    let fields = window_fields_exec(windows_raw);
    let ghost fv = window_fields(lines(windows_raw@));
    let ghost target = snapshot_view(name@, default_path_raw@, windows_raw@, views(panes_raw@));
    let mut windows: Vec<SavedWindow> = Vec::new();
    let mut k: usize = 0;
    while k < fields.len()
        invariant
            k <= fields@.len(),
            fields@.len() == fv.len(),
            fv == window_fields(lines(windows_raw@)),
            panes_raw@.len() == fv.len(),
            target == snapshot_view(name@, default_path_raw@, windows_raw@, views(panes_raw@)),
            forall|j: int| 0 <= j < fields@.len() ==> views(#[trigger] fields@[j]@) == fv[j],
            window_views(windows@) == target.windows.take(k as int),
        decreases fields.len() - k,
    {
        let f = &fields[k];
        assert(views(f@) == fv[k as int]);
        proof {
            lemma_window_fields_wide(lines(windows_raw@), k as int);
        }
        let w = SavedWindow {
            index: crate::strs::copy_string(&f[1]),
            name: crate::strs::copy_string(&f[2]),
            active: flag_is_one(f[3].as_str()),
            layout: crate::strs::copy_string(&f[4]),
            panes: snapshot_panes_exec(panes_raw[k].as_str()),
        };
        assert(w@ == target.windows[k as int]);
        let ghost before = window_views(windows@);
        let ghost wv = w@;
        windows.push(w);
        assert(window_views(windows@) =~= before.push(wv));
        assert(window_views(windows@) =~= target.windows.take(k + 1));
        k += 1;
    }
    assert(target.windows.take(k as int) =~= target.windows);
    SavedSession {
        name: lit(name),
        default_path: trimmed(default_path_raw),
        saved_label: String::new(),
        windows,
    }
}

/// The layout file saving a live session (see `snapshot_session`).
pub fn session_snapshot_contents(
    name: &str,
    default_path_raw: &str,
    windows_raw: &str,
    panes_raw: &Vec<String>,
) -> (r: String)
    requires
        panes_raw@.len() == window_fields(lines(windows_raw@)).len(),
    ensures
        r@ == layout_text(snapshot_view(name@, default_path_raw@, windows_raw@, views(panes_raw@))),
{
    let s = snapshot_session(name, default_path_raw, windows_raw, panes_raw);
    layout_contents(&s)
}


// ---------------------------------------------------------------------------
// reading back a written layout
proof fn lemma_text_of_lines(ls: Seq<Seq<char>>)
    requires
        forall|i: int|
            0 <= i < ls.len() ==> !(#[trigger] ls[i]).contains('\n') && (ls[i].len() == 0
                || ls[i].last() != '\r'),
    ensures
        lines(text_of_lines(ls)) == ls,
        ls.len() > 0 ==> text_of_lines(ls).len() > 0 && text_of_lines(ls).last() == '\n',
    decreases ls.len(),
{
    if ls.len() > 0 {
        let prev = ls.drop_last();
        let l = ls.last();
        assert(!ls[ls.len() - 1].contains('\n'));
        assert forall|i: int| 0 <= i < prev.len() implies !(#[trigger] prev[i]).contains('\n')
            && (prev[i].len() == 0 || prev[i].last() != '\r') by {
            assert(prev[i] == ls[i]);
        }
        lemma_text_of_lines(prev);
        assert forall|i: int| 0 <= i < l.len() implies l[i] != '\n' by {
            if l[i] == '\n' {
                assert(l.contains('\n'));
            }
        }
        crate::state::lemma_single_line(l, Seq::empty());
        assert(Seq::<char>::empty() + l =~= l);
        assert(crate::strs::strip_cr(l) == l);
        if prev.len() > 0 {
            crate::state::lemma_lines_from_concat(text_of_lines(prev), l + seq!['\n'], Seq::empty());
            assert(text_of_lines(ls) =~= text_of_lines(prev) + (l + seq!['\n']));
        } else {
            assert(text_of_lines(ls) =~= l + seq!['\n']);
        }
        assert(ls =~= prev.push(l));
    }
}

proof fn lemma_fold_concat(st: LayoutReading, a: Seq<Seq<char>>, b: Seq<Seq<char>>, label: Seq<char>)
    ensures
        layout_fold_from(st, a + b, label) == layout_fold_from(
            layout_fold_from(st, a, label),
            b,
            label,
        ),
    decreases b.len(),
{
    if b.len() == 0 {
        assert(a + b =~= a);
    } else {
        assert((a + b).drop_last() =~= a + b.drop_last());
        assert((a + b).last() == b.last());
        lemma_fold_concat(st, a, b.drop_last(), label);
    }
}

/// Characters that can appear in a line of a layout file.
pub open spec fn plain_field(x: Seq<char>) -> bool {
    forall|i: int| 0 <= i < x.len() ==> x[i] != '\t' && x[i] != '\n' && x[i] != '\r'
}

proof fn lemma_hex_plain(b: Seq<u8>)
    ensures
        plain_field(crate::util::hex_of_bytes(b)),
    decreases b.len(),
{
    if b.len() > 0 {
        lemma_hex_plain(b.drop_first());
        let x = b[0];
        assert(x >> 4 < 16) by (bit_vector);
        assert(x & 15 < 16) by (bit_vector);
        let h = crate::util::hex_of_bytes(b);
        let r = crate::util::hex_of_bytes(b.drop_first());
        assert(h =~= seq![crate::util::hex_digit(x >> 4), crate::util::hex_digit(x & 15)] + r);
        assert forall|i: int| 0 <= i < h.len() implies h[i] != '\t' && h[i] != '\n' && h[i] != '\r' by {
            if i >= 2 {
                assert(h[i] == r[i - 2]);
            }
        }
    }
}

proof fn lemma_split_field(x: Seq<char>, rest: Seq<char>, cur: Seq<char>)
    requires
        plain_field(x),
    ensures
        crate::strs::split_from(x + seq!['\t'] + rest, '\t', cur) == seq![cur + x]
            + crate::strs::split(rest, '\t'),
    decreases x.len(),
{
    let t = x + seq!['\t'] + rest;
    if x.len() == 0 {
        assert(t.drop_first() =~= rest);
        assert(cur + x =~= cur);
    } else {
        assert(t.drop_first() =~= x.drop_first() + seq!['\t'] + rest);
        lemma_split_field(x.drop_first(), rest, cur.push(x[0]));
        assert(cur.push(x[0]) + x.drop_first() =~= cur + x);
    }
}

proof fn lemma_split_last(x: Seq<char>, cur: Seq<char>)
    requires
        plain_field(x),
    ensures
        crate::strs::split_from(x, '\t', cur) == seq![cur + x],
    decreases x.len(),
{
    if x.len() == 0 {
        assert(cur + x =~= cur);
    } else {
        lemma_split_last(x.drop_first(), cur.push(x[0]));
        assert(cur.push(x[0]) + x.drop_first() =~= cur + x);
    }
}

/// The fields of `a<TAB>b` when neither holds a tab.
proof fn lemma_split2(a: Seq<char>, b: Seq<char>)
    requires
        plain_field(a),
        plain_field(b),
    ensures
        crate::strs::split(a + tab() + b, '\t') == seq![a, b],
{
    lemma_split_field(a, b, Seq::empty());
    lemma_split_last(b, Seq::empty());
    assert(Seq::<char>::empty() + a =~= a);
    assert(Seq::<char>::empty() + b =~= b);
}

proof fn lemma_split5(a: Seq<char>, b: Seq<char>, c: Seq<char>, d: Seq<char>, e: Seq<char>)
    requires
        plain_field(a),
        plain_field(b),
        plain_field(c),
        plain_field(d),
        plain_field(e),
    ensures
        crate::strs::split(a + tab() + b + tab() + c + tab() + d + tab() + e, '\t') == seq![a, b, c, d, e],
{
    let de = d + tab() + e;
    let cde = c + tab() + de;
    let bcde = b + tab() + cde;
    assert(a + tab() + b + tab() + c + tab() + d + tab() + e =~= a + tab() + bcde);
    lemma_split_field(a, bcde, Seq::empty());
    lemma_split_field(b, cde, Seq::empty());
    lemma_split_field(c, de, Seq::empty());
    lemma_split2(d, e);
    assert(Seq::<char>::empty() + a =~= a);
    assert(Seq::<char>::empty() + b =~= b);
    assert(Seq::<char>::empty() + c =~= c);
    assert(seq![a] + (seq![b] + (seq![c] + seq![d, e])) =~= seq![a, b, c, d, e]);
}

proof fn lemma_words()
    ensures
        plain_field("session"@),
        plain_field("default_path"@),
        plain_field("window"@),
        plain_field("pane"@),
        plain_field("1"@),
        plain_field("0"@),
        "session"@ != "default_path"@,
        "session"@ != "window"@,
        "session"@ != "pane"@,
        "window"@ != "pane"@,
        "default_path"@ != "window"@,
        "default_path"@ != "pane"@,
        "0"@ != "1"@,
        "v1"@.len() == 2,
        !"v1"@.contains('\t'),
        !"v1"@.contains('\n'),
        "v1"@.last() != '\r',
{
    reveal_strlit("session");
    reveal_strlit("default_path");
    reveal_strlit("window");
    reveal_strlit("pane");
    reveal_strlit("1");
    reveal_strlit("0");
    reveal_strlit("v1");
    assert("session"@.len() != "default_path"@.len());
    assert("session"@.len() != "window"@.len());
    assert("session"@.len() != "pane"@.len());
    assert("window"@.len() != "pane"@.len());
    assert("default_path"@.len() != "window"@.len());
    assert("default_path"@.len() != "pane"@.len());
    assert("0"@[0] != "1"@[0]);
}

proof fn lemma_hex_field(x: Seq<char>)
    ensures
        plain_field(spec_hex_encode(x)),
        spec_hex_decode(spec_hex_encode(x)) == x,
{
    lemma_hex_plain(vstd::utf8::encode_utf8(x));
    crate::util::law_hex_round_trip(x);
}

proof fn lemma_flag(b: bool)
    ensures
        plain_field(flag(b)),
        (flag(b) == "1"@) == b,
{
    lemma_words();
}

pub open spec fn plain_line(l: Seq<char>) -> bool {
    !l.contains('\n') && (l.len() == 0 || l.last() != '\r')
}

proof fn lemma_plain_line(l: Seq<char>)
    requires
        forall|i: int| 0 <= i < l.len() ==> l[i] != '\n' && l[i] != '\r',
    ensures
        plain_line(l),
{
    if l.contains('\n') {
        let i = choose|i: int| 0 <= i < l.len() && l[i] == '\n';
    }
    if l.len() > 0 {
        assert(l[l.len() - 1] != '\r');
    }
}

/// Text without a line break (tabs allowed).
pub open spec fn no_break(x: Seq<char>) -> bool {
    forall|i: int| 0 <= i < x.len() ==> x[i] != '\n' && x[i] != '\r'
}

proof fn lemma_no_break_join(a: Seq<char>, b: Seq<char>)
    requires
        no_break(a),
        no_break(b),
    ensures
        no_break(a + tab() + b),
{
    assert forall|i: int| 0 <= i < (a + tab() + b).len() implies (a + tab() + b)[i] != '\n' && (a
        + tab() + b)[i] != '\r' by {
        if i < a.len() {
        } else if i == a.len() {
        } else {
            assert((a + tab() + b)[i] == b[i - a.len() - 1]);
        }
    }
}

proof fn lemma_pane_line(p: SavedPaneV)
    ensures
        plain_line(pane_line(p)),
        crate::strs::split(pane_line(p), '\t') == seq![
            "pane"@,
            spec_hex_encode(p.index),
            flag(p.active),
            spec_hex_encode(p.cwd),
            spec_hex_encode(p.command),
        ],
{
    lemma_words();
    lemma_hex_field(p.index);
    lemma_hex_field(p.cwd);
    lemma_hex_field(p.command);
    lemma_flag(p.active);
    let a = "pane"@;
    let b = spec_hex_encode(p.index);
    let c = flag(p.active);
    let d = spec_hex_encode(p.cwd);
    let e = spec_hex_encode(p.command);
    lemma_split5(a, b, c, d, e);
    lemma_no_break_join(a, b);
    lemma_no_break_join(a + tab() + b, c);
    lemma_no_break_join(a + tab() + b + tab() + c, d);
    lemma_no_break_join(a + tab() + b + tab() + c + tab() + d, e);
    lemma_plain_line(pane_line(p));
}

proof fn lemma_window_line(w: SavedWindowV)
    ensures
        plain_line(window_line(w)),
        crate::strs::split(window_line(w), '\t') == seq![
            "window"@,
            spec_hex_encode(w.index),
            spec_hex_encode(w.name),
            flag(w.active),
            spec_hex_encode(w.layout),
        ],
{
    lemma_words();
    lemma_hex_field(w.index);
    lemma_hex_field(w.name);
    lemma_hex_field(w.layout);
    lemma_flag(w.active);
    let a = "window"@;
    let b = spec_hex_encode(w.index);
    let c = spec_hex_encode(w.name);
    let d = flag(w.active);
    let e = spec_hex_encode(w.layout);
    lemma_split5(a, b, c, d, e);
    lemma_no_break_join(a, b);
    lemma_no_break_join(a + tab() + b, c);
    lemma_no_break_join(a + tab() + b + tab() + c, d);
    lemma_no_break_join(a + tab() + b + tab() + c + tab() + d, e);
    lemma_plain_line(window_line(w));
}

/// Reading the pane lines of `ps` adds `ps` to the window being filled.
proof fn lemma_fold_panes(st: LayoutReading, w: SavedWindowV, ps: Seq<SavedPaneV>, label: Seq<char>)
    requires
        st.window == Some(w),
    ensures
        layout_fold_from(st, pane_lines(ps), label) == (LayoutReading {
            session: st.session,
            window: Some(SavedWindowV { panes: w.panes + ps, ..w }),
        }),
    decreases ps.len(),
{
    if ps.len() == 0 {
        assert(w.panes + ps =~= w.panes);
        assert(pane_lines(ps) =~= Seq::<Seq<char>>::empty());
    } else {
        let prev = ps.drop_last();
        let p = ps.last();
        assert(pane_lines(ps).drop_last() =~= pane_lines(prev));
        assert(pane_lines(ps).last() == pane_line(p));
        lemma_fold_panes(st, w, prev, label);
        lemma_pane_line(p);
        lemma_words();
        lemma_hex_field(p.index);
        lemma_hex_field(p.cwd);
        lemma_hex_field(p.command);
        lemma_flag(p.active);
        assert(w.panes + prev.push(p) =~= (w.panes + prev).push(p));
        assert(ps =~= prev.push(p));
    }
}

pub open spec fn base_session(s: SavedSessionV, label: Seq<char>) -> SavedSessionV {
    SavedSessionV { saved_label: label, windows: Seq::empty(), ..s }
}

proof fn lemma_fold_window_line(st: LayoutReading, w: SavedWindowV, label: Seq<char>)
    ensures
        layout_fold_from(st, seq![window_line(w)], label) == (LayoutReading {
            session: flush_window(st.session, st.window),
            window: Some(SavedWindowV { panes: Seq::empty(), ..w }),
        }),
{
    lemma_window_line(w);
    lemma_words();
    lemma_hex_field(w.index);
    lemma_hex_field(w.name);
    lemma_hex_field(w.layout);
    lemma_flag(w.active);
    let one = seq![window_line(w)];
    assert(one.drop_last() =~= Seq::<Seq<char>>::empty());
    assert(layout_fold_from(st, one.drop_last(), label) == st);
    assert(one.last() == window_line(w));
    let parts = crate::strs::split(window_line(w), '\t');
    assert(parts.len() == 5 && parts[0] == "window"@);
    assert(parts[0] != "session"@ && parts[0] != "default_path"@);
    assert(layout_step(st, parts, label) == (LayoutReading {
        session: flush_window(st.session, st.window),
        window: Some(SavedWindowV { panes: Seq::empty(), ..w }),
    }));
}

proof fn lemma_fold_one_window(st: LayoutReading, w: SavedWindowV, label: Seq<char>)
    ensures
        layout_fold_from(st, window_lines(w), label) == (LayoutReading {
            session: flush_window(st.session, st.window),
            window: Some(w),
        }),
{
    lemma_fold_concat(st, seq![window_line(w)], pane_lines(w.panes), label);
    lemma_fold_window_line(st, w, label);
    let w0 = SavedWindowV { panes: Seq::empty(), ..w };
    let after = layout_fold_from(st, seq![window_line(w)], label);
    lemma_fold_panes(after, w0, w.panes, label);
    assert(Seq::<SavedPaneV>::empty() + w.panes =~= w.panes);
}

/// Reading the window lines of `ws` from a session with no window open.
#[verifier::rlimit(40)]
proof fn lemma_fold_windows(s: SavedSessionV, ws: Seq<SavedWindowV>, label: Seq<char>)
    ensures
        layout_fold_from(
            LayoutReading { session: Some(base_session(s, label)), window: None },
            windows_lines(ws),
            label,
        ) == (if ws.len() == 0 {
            LayoutReading { session: Some(base_session(s, label)), window: None }
        } else {
            LayoutReading {
                session: Some(SavedSessionV { windows: ws.drop_last(), ..base_session(s, label) }),
                window: Some(ws.last()),
            }
        }),
    decreases ws.len(),
{
    let init = LayoutReading { session: Some(base_session(s, label)), window: None };
    if ws.len() > 0 {
        let prev = ws.drop_last();
        let w = ws.last();
        lemma_fold_windows(s, prev, label);
        let mid = layout_fold_from(init, windows_lines(prev), label);
        lemma_fold_concat(init, windows_lines(prev), window_lines(w), label);
        lemma_fold_one_window(mid, w, label);
        if prev.len() == 0 {
            assert(mid == init);
            assert(Seq::<SavedWindowV>::empty() =~= ws.drop_last());
        } else {
            assert(mid.window == Some(prev.last()));
            assert(prev.drop_last().push(prev.last()) =~= ws.drop_last());
        }
    } else {
        assert(windows_lines(ws) =~= Seq::<Seq<char>>::empty());
    }
}

/// Reading the layout file written for a session gives back its layout,
/// labelled with `label`, windows and panes in index order; a session with no
/// name or no window reads as nothing.
pub proof fn law_layout_round_trip(s: SavedSessionV, label: Seq<char>)
    ensures
        spec_parse_layout(layout_text(s), label) == (if s.name.len() > 0 && s.windows.len() > 0 {
            Some(normalized_layout(SavedSessionV { saved_label: label, ..s }))
        } else {
            None
        }),
{
    lemma_words();
    lemma_hex_field(s.name);
    lemma_hex_field(s.default_path);
    let hl = head_lines(s);
    let sl = "session"@ + tab() + spec_hex_encode(s.name);
    let dl = "default_path"@ + tab() + spec_hex_encode(s.default_path);
    lemma_split2("session"@, spec_hex_encode(s.name));
    lemma_split2("default_path"@, spec_hex_encode(s.default_path));
    lemma_no_break_join("session"@, spec_hex_encode(s.name));
    lemma_no_break_join("default_path"@, spec_hex_encode(s.default_path));
    lemma_plain_line(sl);
    lemma_plain_line(dl);
    // every line of the file is one line when read back
    let ls = layout_lines(s);
    assert forall|i: int| 0 <= i < ls.len() implies !(#[trigger] ls[i]).contains('\n') && (
    ls[i].len() == 0 || ls[i].last() != '\r') by {
        lemma_layout_lines_plain(s, i);
    }
    lemma_text_of_lines(ls);
    // the head starts the session
    let init = LayoutReading { session: None, window: None };
    assert(crate::strs::split("v1"@, '\t') == seq!["v1"@]) by {
        reveal_strlit("v1");
        lemma_split_last("v1"@, Seq::empty());
        assert(Seq::<char>::empty() + "v1"@ =~= "v1"@);
    }
    let start = LayoutReading { session: Some(base_session(s, label)), window: None };
    assert(layout_fold_from(init, hl, label) == start) by {
        let h1 = seq!["v1"@];
        let h2 = seq!["v1"@, sl];
        assert(h1.drop_last() =~= Seq::<Seq<char>>::empty());
        assert(layout_fold_from(init, h1.drop_last(), label) == init);
        assert(layout_step(init, seq!["v1"@], label) == init);
        assert(layout_fold_from(init, h1, label) == init);
        assert(h2.drop_last() =~= h1);
        assert(h2.last() == sl);
        let after_session = LayoutReading {
            session: Some(
                SavedSessionV {
                    name: s.name,
                    default_path: Seq::empty(),
                    saved_label: label,
                    windows: Seq::empty(),
                },
            ),
            window: None,
        };
        assert(layout_step(init, seq!["session"@, spec_hex_encode(s.name)], label)
            == after_session);
        assert(layout_fold_from(init, h2, label) == after_session);
        if s.default_path.len() > 0 {
            assert(hl.drop_last() =~= h2);
            assert(hl.last() == dl);
            assert(layout_step(after_session, seq!["default_path"@, spec_hex_encode(s.default_path)], label)
                == start);
        } else {
            assert(hl =~= h2);
            assert(s.default_path =~= Seq::<char>::empty());
        }
    }
    lemma_fold_concat(init, hl, windows_lines(s.windows), label);
    lemma_fold_windows(s, s.windows, label);
    if s.windows.len() > 0 {
        assert(s.windows.drop_last().push(s.windows.last()) =~= s.windows);
    }
}

proof fn lemma_layout_lines_plain(s: SavedSessionV, i: int)
    requires
        0 <= i < layout_lines(s).len(),
    ensures
        plain_line(layout_lines(s)[i]),
{
    lemma_words();
    lemma_hex_field(s.name);
    lemma_hex_field(s.default_path);
    let hl = head_lines(s);
    if i < hl.len() {
        if i == 0 {
            reveal_strlit("v1");
            lemma_plain_line("v1"@);
        } else if i == 1 {
            lemma_no_break_join("session"@, spec_hex_encode(s.name));
            lemma_plain_line("session"@ + tab() + spec_hex_encode(s.name));
        } else {
            lemma_no_break_join("default_path"@, spec_hex_encode(s.default_path));
            lemma_plain_line("default_path"@ + tab() + spec_hex_encode(s.default_path));
        }
    } else {
        lemma_windows_lines_plain(s.windows, i - hl.len());
    }
}

proof fn lemma_windows_lines_plain(ws: Seq<SavedWindowV>, i: int)
    requires
        0 <= i < windows_lines(ws).len(),
    ensures
        plain_line(windows_lines(ws)[i]),
    decreases ws.len(),
{
    if ws.len() > 0 {
        let prev = windows_lines(ws.drop_last());
        if i < prev.len() {
            lemma_windows_lines_plain(ws.drop_last(), i);
        } else {
            let w = ws.last();
            let j = i - prev.len();
            if j == 0 {
                lemma_window_line(w);
            } else {
                lemma_pane_line(w.panes[j - 1]);
            }
        }
    }
}

// ---------------------------------------------------------------------------
// renaming a saved layout
/// Whether renaming saved layout `old_name` to `new_name` moves its file:
/// an error for an empty new name, nothing to do when the name is the same.
pub open spec fn spec_check_saved_rename(old_name: Seq<char>, new_name: Seq<char>) -> Result<bool, Seq<char>> {
    if trim(new_name).len() == 0 {
        Err("empty session name"@)
    } else {
        Ok(old_name != new_name)
    }
}

pub fn check_saved_rename(old_name: &str, new_name: &str) -> (r: Result<bool, String>)
    ensures
        match r {
            Ok(b) => spec_check_saved_rename(old_name@, new_name@) == Ok::<bool, Seq<char>>(b),
            Err(e) => spec_check_saved_rename(old_name@, new_name@) == Err::<bool, Seq<char>>(e@),
        },
{
    if is_empty_str(trimmed(new_name).as_str()) {
        return Err(lit("empty session name"));
    }
    Ok(!eq_str(old_name, new_name))
}

/// A line of a layout file once the layout is renamed: the session line
/// carries the new name.
pub open spec fn renamed_line(line: Seq<char>, new_name: Seq<char>) -> Seq<char> {
    if crate::strs::starts_with(line, "session\t"@) {
        "session\t"@ + spec_hex_encode(new_name)
    } else {
        line
    }
}

pub open spec fn renamed_lines(ls: Seq<Seq<char>>, new_name: Seq<char>) -> Seq<Seq<char>> {
    ls.map_values(|l: Seq<char>| renamed_line(l, new_name))
}

/// The layout file `contents` renamed to `new_name`, line by line.
pub fn renamed_layout_contents(contents: &str, new_name: &str) -> (r: String)
    ensures
        r@ == text_of_lines(renamed_lines(lines(contents@), new_name@)),
{
    let ls = split_lines(contents);
    let ghost lv = views(ls@);
    let encoded = hex_encode(new_name);
    let mut out = String::new();
    let mut k: usize = 0;
    assert(renamed_lines(lv.take(0), new_name@) =~= Seq::<Seq<char>>::empty());
    while k < ls.len()
        invariant
            k <= ls@.len(),
            lv == views(ls@),
            lv == lines(contents@),
            encoded@ == spec_hex_encode(new_name@),
            out@ == text_of_lines(renamed_lines(lv.take(k as int), new_name@)),
        decreases ls.len() - k,
    {
        let ghost done = renamed_lines(lv.take(k as int), new_name@);
        assert(renamed_lines(lv.take(k + 1), new_name@) =~= done.push(
            renamed_line(ls@[k as int]@, new_name@),
        ));
        if crate::strs::has_prefix(ls[k].as_str(), "session\t") {
            let mut line = lit("session\t");
            push_str(&mut line, encoded.as_str());
            push_line(&mut out, line.as_str(), Ghost(done));
        } else {
            push_line(&mut out, ls[k].as_str(), Ghost(done));
        }
        k += 1;
    }
    assert(lv.take(k as int) =~= lv);
    out
}

proof fn lemma_not_session_line(l: Seq<char>)
    requires
        l.len() > 0,
        l[0] != 's',
    ensures
        !crate::strs::starts_with(l, "session\t"@),
{
    reveal_strlit("session\t");
    if crate::strs::starts_with(l, "session\t"@) {
        assert(l.subrange(0, 8)[0] == l[0]);
    }
}

proof fn lemma_windows_lines_start(ws: Seq<SavedWindowV>, i: int)
    requires
        0 <= i < windows_lines(ws).len(),
    ensures
        windows_lines(ws)[i].len() > 0,
        windows_lines(ws)[i][0] == 'w' || windows_lines(ws)[i][0] == 'p',
    decreases ws.len(),
{
    reveal_strlit("window");
    reveal_strlit("pane");
    if ws.len() > 0 {
        let prev = windows_lines(ws.drop_last());
        if i < prev.len() {
            lemma_windows_lines_start(ws.drop_last(), i);
        } else {
            let w = ws.last();
            let j = i - prev.len();
            if j == 0 {
                assert(window_line(w)[0] == 'w');
            } else {
                assert(pane_lines(w.panes)[j - 1] == pane_line(w.panes[j - 1]));
                assert(pane_line(w.panes[j - 1])[0] == 'p');
            }
        }
    }
}

/// Renaming a saved layout file gives the file of the same layout under the
/// new name: it reads back as that layout.
pub proof fn law_renamed_layout(s: SavedSessionV, new_name: Seq<char>, label: Seq<char>)
    ensures
        text_of_lines(renamed_lines(lines(layout_text(s)), new_name)) == layout_text(
            SavedSessionV { name: new_name, ..s },
        ),
        spec_parse_layout(text_of_lines(renamed_lines(lines(layout_text(s)), new_name)), label) == (if new_name.len()
            > 0 && s.windows.len() > 0 {
            Some(normalized_layout(SavedSessionV { name: new_name, saved_label: label, ..s }))
        } else {
            None
        }),
{
    let ls = layout_lines(s);
    let s2 = SavedSessionV { name: new_name, ..s };
    assert forall|i: int| 0 <= i < ls.len() implies !(#[trigger] ls[i]).contains('\n') && (ls[i].len()
        == 0 || ls[i].last() != '\r') by {
        lemma_layout_lines_plain(s, i);
    }
    lemma_text_of_lines(ls);
    let hl = head_lines(s);
    reveal_strlit("session\t");
    reveal_strlit("session");
    reveal_strlit("v1");
    reveal_strlit("default_path");
    assert("session\t"@ =~= "session"@ + tab());
    let r = renamed_lines(ls, new_name);
    let target = layout_lines(s2);
    assert(r.len() == target.len());
    assert forall|i: int| 0 <= i < r.len() implies r[i] == target[i] by {
        if i < hl.len() {
            if i == 0 {
                lemma_not_session_line("v1"@);
            } else if i == 1 {
                let l = "session"@ + tab() + spec_hex_encode(s.name);
                assert(l.subrange(0, 8) =~= "session\t"@);
            } else {
                lemma_not_session_line("default_path"@ + tab() + spec_hex_encode(s.default_path));
            }
        } else {
            lemma_windows_lines_start(s.windows, i - hl.len());
            lemma_not_session_line(windows_lines(s.windows)[i - hl.len()]);
        }
    }
    assert(r =~= target);
    law_layout_round_trip(s2, label);
}

} // verus!
