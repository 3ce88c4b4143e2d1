use vstd::prelude::*;
use crate::model::{
    opt_view, row_views, saved_views, ConfirmAction, ConfirmActionV, InputAction, InputActionV,
    Modal, ModalV, Row, RowV, SavedSession, SavedSessionV, Session, SessionV, Window, WindowV,
};
use crate::order::{str_less, str_lt};
use crate::sort::{order_of, seq_views, sorted_stably, stable_sort, Sortable};
use crate::store::{ExpandedState, LabelMap, StrSet};
use crate::strs::{
    chars_of, concat, copy_string, eq_str, has_prefix, last_index, lemma_last_index, lines, lit,
    pair_views, push_str,
    rsplit_once, rsplit_once_char, split, split_char, split_lines, starts_with, string_of_range,
    trim, trimmed, views,
};
use crate::util::{session_display_name, spec_session_display_name};

verus! {

// ---------------------------------------------------------------------------
// hidden sessions and the session tree
/// A name component that marks a session as hidden: it starts with `__` or
/// with one of the icons of floating or agent sessions.
pub open spec fn hidden_part(p: Seq<char>) -> bool {
    ||| starts_with(p, "__"@)
    ||| (p.len() > 0 && (p[0] == '▣' || p[0] == '◫' || p[0] == '󰚩' || p[0] == '🤖'))
}

/// A session is hidden when its name starts with `_popup_` or one of its
/// `/`-separated components is a hidden part.
pub open spec fn spec_session_is_hidden(name: Seq<char>) -> bool {
    ||| starts_with(name, "_popup_"@)
    ||| exists|i: int| 0 <= i < split(name, '/').len() && hidden_part(#[trigger] split(name, '/')[i])
}

fn part_is_hidden(p: &str) -> (r: bool)
    ensures
        r == hidden_part(p@),
{
    if has_prefix(p, "__") {
        return true;
    }
    let cs = chars_of(p);
    cs.len() > 0 && (cs[0] == '▣' || cs[0] == '◫' || cs[0] == '󰚩' || cs[0] == '🤖')
}

pub fn session_is_hidden(name: &str) -> (r: bool)
    ensures
        r == spec_session_is_hidden(name@),
{
    if has_prefix(name, "_popup_") {
        return true;
    }
    let parts = split_char(name, '/');
    let mut i: usize = 0;
    while i < parts.len()
        invariant
            i <= parts@.len(),
            views(parts@) == split(name@, '/'),
            forall|j: int| 0 <= j < i ==> !hidden_part(#[trigger] split(name@, '/')[j]),
        decreases parts.len() - i,
    {
        if part_is_hidden(parts[i].as_str()) {
            assert(split(name@, '/')[i as int] == parts@[i as int]@);
            return true;
        }
        assert(split(name@, '/')[i as int] == parts@[i as int]@);
        i += 1;
    }
    false
}

/// The first of `cand` and its `/`-prefixes, longest first, that is live.
pub open spec fn nearest_from(cand: Seq<char>, live: Set<Seq<char>>) -> Option<Seq<char>>
    decreases cand.len(),
{
    if live.contains(cand) {
        Some(cand)
    } else {
        match last_index(cand, '/') {
            Some(i) => {
                proof {
                    lemma_last_index(cand, '/');
                }
                nearest_from(cand.subrange(0, i), live)
            },
            None => None,
        }
    }
}

/// The nearest live session whose name is a `/`-prefix of `name`.
pub open spec fn spec_nearest_parent(name: Seq<char>, live: Set<Seq<char>>) -> Option<Seq<char>> {
    match rsplit_once(name, '/') {
        Some((p, _)) => nearest_from(p, live),
        None => None,
    }
}

proof fn lemma_nearest_from_shorter(cand: Seq<char>, live: Set<Seq<char>>)
    ensures
        nearest_from(cand, live) matches Some(p) ==> p.len() <= cand.len(),
    decreases cand.len(),
{
    if !live.contains(cand) {
        lemma_last_index(cand, '/');
        if let Some(i) = last_index(cand, '/') {
            lemma_nearest_from_shorter(cand.subrange(0, i), live);
        }
    }
}

/// A parent is strictly shorter than its child.
pub proof fn lemma_parent_shorter(name: Seq<char>, live: Set<Seq<char>>)
    ensures
        spec_nearest_parent(name, live) matches Some(p) ==> p.len() < name.len(),
{
    lemma_last_index(name, '/');
    if let Some(i) = last_index(name, '/') {
        lemma_nearest_from_shorter(name.subrange(0, i), live);
    }
}

proof fn lemma_nearest_from_prefix(cand: Seq<char>, live: Set<Seq<char>>)
    ensures
        nearest_from(cand, live) matches Some(p) ==> {
            &&& live.contains(p)
            &&& p.len() <= cand.len()
            &&& cand.subrange(0, p.len() as int) == p
            &&& (p.len() == cand.len() || cand[p.len() as int] == '/')
        },
    decreases cand.len(),
{
    if !live.contains(cand) {
        lemma_last_index(cand, '/');
        if let Some(i) = last_index(cand, '/') {
            let shorter = cand.subrange(0, i);
            lemma_nearest_from_prefix(shorter, live);
            if let Some(p) = nearest_from(shorter, live) {
                assert(cand.subrange(0, p.len() as int) =~= shorter.subrange(0, p.len() as int));
                if p.len() < shorter.len() {
                    assert(cand[p.len() as int] == shorter[p.len() as int]);
                }
            }
        }
    } else {
        assert(cand.subrange(0, cand.len() as int) =~= cand);
    }
}

/// A session's parent in the tree is a live session whose name, followed by
/// `/`, starts the session's name.
pub proof fn law_parent_is_live_ancestor(name: Seq<char>, live: Set<Seq<char>>)
    ensures
        spec_nearest_parent(name, live) matches Some(p) ==> {
            &&& live.contains(p)
            &&& p.len() < name.len()
            &&& name.subrange(0, p.len() as int) == p
            &&& name[p.len() as int] == '/'
        },
{
    lemma_last_index(name, '/');
    if let Some(i) = last_index(name, '/') {
        let cand = name.subrange(0, i);
        lemma_nearest_from_prefix(cand, live);
        if let Some(p) = nearest_from(cand, live) {
            assert(name.subrange(0, p.len() as int) =~= cand.subrange(0, p.len() as int));
            if p.len() < cand.len() {
                assert(name[p.len() as int] == cand[p.len() as int]);
            }
        }
    }
}

pub fn nearest_parent_name(name: &str, live_names: &StrSet) -> (r: Option<String>)
    ensures
        opt_view(r) == spec_nearest_parent(name@, live_names@),
{
    let mut candidate = match rsplit_once_char(name, '/') {
        Some((p, _)) => p,
        None => return None,
    };
    loop
        invariant
            spec_nearest_parent(name@, live_names@) == nearest_from(candidate@, live_names@),
        decreases candidate@.len(),
    {
        if live_names.contains(candidate.as_str()) {
            return Some(candidate);
        }
        proof {
            lemma_last_index(candidate@, '/');
        }
        match rsplit_once_char(candidate.as_str(), '/') {
            Some((p, _)) => {
                candidate = p;
            },
            None => return None,
        }
    }
}

// ---------------------------------------------------------------------------
// reading the window and session listings
/// The labels recorded for window `id`, none when it has no entry.
pub open spec fn labels_or_empty(labels: Map<Seq<char>, Seq<Seq<char>>>, id: Seq<char>) -> Seq<
    Seq<char>,
> {
    if labels.contains_key(id) {
        labels[id]
    } else {
        Seq::empty()
    }
}

/// Whether a line of the window listing yields a window: it has six fields
/// and, unless hidden sessions are shown, its session is not hidden.
pub open spec fn window_line_kept(line: Seq<char>, show_hidden: bool) -> bool {
    let p = split(line, '\t');
    p.len() >= 6 && (show_hidden || !spec_session_is_hidden(p[1]))
}

/// The window a line of the listing describes: session id, session name,
/// window id, index, name, and `1` when active.
pub open spec fn window_of_line(line: Seq<char>, labels: Map<Seq<char>, Seq<Seq<char>>>) -> WindowV {
    let p = split(line, '\t');
    WindowV {
        session_id: p[0],
        session_name: p[1],
        depth: 0,
        id: p[2],
        index: p[3],
        name: p[4],
        active: p[5] == "1"@,
        pane_labels: labels_or_empty(labels, p[2]),
    }
}

/// The windows of the listing's lines, in line order.
pub open spec fn parsed_windows(
    ls: Seq<Seq<char>>,
    show_hidden: bool,
    labels: Map<Seq<char>, Seq<Seq<char>>>,
) -> Seq<WindowV>
    decreases ls.len(),
{
    if ls.len() == 0 {
        Seq::empty()
    } else {
        let rest = parsed_windows(ls.drop_last(), show_hidden, labels);
        if window_line_kept(ls.last(), show_hidden) {
            rest.push(window_of_line(ls.last(), labels))
        } else {
            rest
        }
    }
}

fn parse_windows(windows_raw: &str, show_hidden: bool, labels: &LabelMap) -> (r: Vec<Window>)
    ensures
        seq_views(r@) == parsed_windows(lines(windows_raw@), show_hidden, labels@),
{
    let ls = split_lines(windows_raw);
    let ghost lv = views(ls@);
    let mut out: Vec<Window> = Vec::new();
    let mut k: usize = 0;
    while k < ls.len()
        invariant
            k <= ls@.len(),
            lv == views(ls@),
            lv == lines(windows_raw@),
            seq_views(out@) == parsed_windows(lv.take(k as int), show_hidden, labels@),
        decreases ls.len() - k,
    {
        assert(lv.take(k + 1).drop_last() =~= lv.take(k as int));
        assert(lv.take(k + 1).last() == ls@[k as int]@);
        let parts = split_char(ls[k].as_str(), '\t');
        assert(views(parts@) == split(ls@[k as int]@, '\t'));
        if parts.len() >= 6 && (show_hidden || !session_is_hidden(parts[1].as_str())) {
            assert(parts@[1]@ == split(ls@[k as int]@, '\t')[1]);
            let pane_labels = labels.labels_for(parts[2].as_str());
            let w = Window {
                session_id: copy_string(&parts[0]),
                session_name: copy_string(&parts[1]),
                depth: 0,
                id: copy_string(&parts[2]),
                index: copy_string(&parts[3]),
                name: copy_string(&parts[4]),
                active: eq_str(parts[5].as_str(), "1"),
                pane_labels,
            };
            let ghost before = out@;
            out.push(w);
            proof {
                let sp = split(ls@[k as int]@, '\t');
                assert(sp[0] == parts@[0]@ && sp[2] == parts@[2]@ && sp[3] == parts@[3]@);
                assert(sp[4] == parts@[4]@ && sp[5] == parts@[5]@);
                assert(w@ == window_of_line(ls@[k as int]@, labels@));
                assert(seq_views(out@) =~= seq_views(before).push(w@));
            }
        } else {
            proof {
                if parts.len() >= 6 {
                    assert(parts@[1]@ == split(ls@[k as int]@, '\t')[1]);
                }
            }
        }
        k += 1;
    }
    assert(lv.take(k as int) =~= lv);
    out
}

/// The label of the first saved layout named `name`.
pub open spec fn saved_label_for(saved: Seq<SavedSessionV>, name: Seq<char>) -> Option<Seq<char>>
    decreases saved.len(),
{
    if saved.len() == 0 {
        None
    } else if saved[0].name == name {
        Some(saved[0].saved_label)
    } else {
        saved_label_for(saved.drop_first(), name)
    }
}

fn find_saved_label(saved_sessions: &[SavedSession], name: &str) -> (r: Option<String>)
    ensures
        opt_view(r) == saved_label_for(saved_views(saved_sessions@), name@),
{
    let ghost sv = saved_views(saved_sessions@);
    let mut i: usize = 0;
    assert(sv.skip(0) =~= sv);
    while i < saved_sessions.len()
        invariant
            i <= saved_sessions@.len(),
            sv == saved_views(saved_sessions@),
            saved_label_for(sv, name@) == saved_label_for(sv.skip(i as int), name@),
        decreases saved_sessions.len() - i,
    {
        assert(sv.skip(i as int).drop_first() =~= sv.skip(i + 1));
        assert(sv.skip(i as int)[0] == saved_sessions@[i as int]@);
        if eq_str(saved_sessions[i].name.as_str(), name) {
            return Some(copy_string(&saved_sessions[i].saved_label));
        }
        i += 1;
    }
    None
}

/// Whether a line of the session listing yields a session: it has a name
/// and, unless hidden sessions are shown, the name is not hidden.
pub open spec fn session_line_kept(line: Seq<char>, show_hidden: bool) -> bool {
    let p = split(line, '\t');
    p.len() >= 2 && (show_hidden || !spec_session_is_hidden(p[1]))
}

/// The session a line of the listing describes: id, name and, when given,
/// its default path (trimmed).
pub open spec fn session_of_line(line: Seq<char>, current: Seq<char>, saved: Seq<SavedSessionV>) -> SessionV {
    let p = split(line, '\t');
    SessionV {
        id: p[0],
        name: p[1],
        display_name: p[1],
        depth: 0,
        current: p[0] == current,
        saved_label: saved_label_for(saved, p[1]),
        default_path: trim(
            if p.len() > 2 {
                p[2]
            } else {
                Seq::empty()
            },
        ),
    }
}

pub open spec fn parsed_sessions(
    ls: Seq<Seq<char>>,
    current: Seq<char>,
    saved: Seq<SavedSessionV>,
    show_hidden: bool,
) -> Seq<SessionV>
    decreases ls.len(),
{
    if ls.len() == 0 {
        Seq::empty()
    } else {
        let rest = parsed_sessions(ls.drop_last(), current, saved, show_hidden);
        if session_line_kept(ls.last(), show_hidden) {
            rest.push(session_of_line(ls.last(), current, saved))
        } else {
            rest
        }
    }
}

/// The names of all sessions of the listing, hidden ones included.
pub open spec fn live_names(ls: Seq<Seq<char>>) -> Set<Seq<char>>
    decreases ls.len(),
{
    if ls.len() == 0 {
        Set::empty()
    } else {
        let rest = live_names(ls.drop_last());
        if split(ls.last(), '\t').len() >= 2 {
            rest.insert(split(ls.last(), '\t')[1])
        } else {
            rest
        }
    }
}

fn parse_sessions(
    sessions_raw: &str,
    current: &str,
    saved_sessions: &[SavedSession],
    show_hidden: bool,
) -> (r: (Vec<Session>, StrSet))
    ensures
        seq_views(r.0@) == parsed_sessions(
            lines(sessions_raw@),
            current@,
            saved_views(saved_sessions@),
            show_hidden,
        ),
        r.1@ == live_names(lines(sessions_raw@)),
{
    let ls = split_lines(sessions_raw);
    let ghost lv = views(ls@);
    let ghost sv = saved_views(saved_sessions@);
    let mut out: Vec<Session> = Vec::new();
    let mut live = StrSet::new();
    let mut k: usize = 0;
    while k < ls.len()
        invariant
            k <= ls@.len(),
            lv == views(ls@),
            lv == lines(sessions_raw@),
            sv == saved_views(saved_sessions@),
            seq_views(out@) == parsed_sessions(lv.take(k as int), current@, sv, show_hidden),
            live@ == live_names(lv.take(k as int)),
        decreases ls.len() - k,
    {
        assert(lv.take(k + 1).drop_last() =~= lv.take(k as int));
        assert(lv.take(k + 1).last() == ls@[k as int]@);
        let parts = split_char(ls[k].as_str(), '\t');
        let ghost sp = split(ls@[k as int]@, '\t');
        assert(views(parts@) == sp);
        if parts.len() >= 2 {
            assert(parts@[1]@ == sp[1]);
            live.insert(copy_string(&parts[1]));
            if show_hidden || !session_is_hidden(parts[1].as_str()) {
                let default_path = if parts.len() > 2 {
                    assert(parts@[2]@ == sp[2]);
                    trimmed(parts[2].as_str())
                } else {
                    trimmed("")
                };
                proof {
                    if parts.len() <= 2 {
                        reveal_strlit("");
                        assert(""@ =~= Seq::<char>::empty());
                    }
                    assert(default_path@ == trim(
                        if sp.len() > 2 {
                            sp[2]
                        } else {
                            Seq::empty()
                        },
                    ));
                }
                let s = Session {
                    id: copy_string(&parts[0]),
                    name: copy_string(&parts[1]),
                    display_name: copy_string(&parts[1]),
                    depth: 0,
                    current: eq_str(parts[0].as_str(), current),
                    saved_label: find_saved_label(saved_sessions, parts[1].as_str()),
                    default_path,
                };
                let ghost before = out@;
                out.push(s);
                proof {
                    assert(sp[0] == parts@[0]@);
                    assert(s@ == session_of_line(ls@[k as int]@, current@, sv));
                    assert(seq_views(out@) =~= seq_views(before).push(s@));
                }
            }
        }
        k += 1;
    }
    assert(lv.take(k as int) =~= lv);
    (out, live)
}

// ---------------------------------------------------------------------------
// the rows of the overview
impl Sortable for Session {
    open spec fn precedes(a: SessionV, b: SessionV) -> bool {
        str_lt(a.name, b.name)
    }

    fn sorts_before(&self, other: &Self) -> (r: bool) {
        str_less(self.name.as_str(), other.name.as_str())
    }
}

impl Sortable for Window {
    /// By session name, then by window index, both compared as strings.
    open spec fn precedes(a: WindowV, b: WindowV) -> bool {
        str_lt(a.session_name, b.session_name) || (a.session_name == b.session_name && str_lt(
            a.index,
            b.index,
        ))
    }

    fn sorts_before(&self, other: &Self) -> (r: bool) {
        str_less(self.session_name.as_str(), other.session_name.as_str()) || (eq_str(
            self.session_name.as_str(),
            other.session_name.as_str(),
        ) && str_less(self.index.as_str(), other.index.as_str()))
    }
}

/// The windows whose id is on the watchlist, in their order.
pub open spec fn watched_of(ws: Seq<WindowV>, watch: Set<Seq<char>>) -> Seq<WindowV>
    decreases ws.len(),
{
    if ws.len() == 0 {
        Seq::empty()
    } else {
        let rest = watched_of(ws.drop_last(), watch);
        if watch.contains(ws.last().id) {
            rest.push(ws.last())
        } else {
            rest
        }
    }
}

/// The watched windows as listed at the top: by session name, then index.
pub open spec fn watched_windows(ws: Seq<WindowV>, watch: Set<Seq<char>>) -> Seq<WindowV> {
    sorted_stably(watched_of(ws, watch), order_of::<Window>())
}

/// The watch section: a header and one row per watched window, or nothing.
pub open spec fn watch_rows(watched: Seq<WindowV>) -> Seq<RowV> {
    if watched.len() == 0 {
        Seq::empty()
    } else {
        seq![RowV::WatchHeader] + watch_window_rows(watched)
    }
}

pub open spec fn watch_window_rows(ws: Seq<WindowV>) -> Seq<RowV> {
    ws.map_values(|w: WindowV| RowV::WatchWindow(w))
}

/// The names of the sessions.
pub open spec fn names_of(ss: Seq<SessionV>) -> Set<Seq<char>> {
    Set::new(|n: Seq<char>| exists|j: int| 0 <= j < ss.len() && (#[trigger] ss[j]).name == n)
}

/// The positions below `n` of the sessions whose nearest parent is `parent`.
pub open spec fn kid_indices(
    ss: Seq<SessionV>,
    visible: Set<Seq<char>>,
    parent: Option<Seq<char>>,
    n: int,
) -> Seq<int>
    decreases n,
{
    if n <= 0 {
        Seq::empty()
    } else {
        let rest = kid_indices(ss, visible, parent, n - 1);
        if spec_nearest_parent(ss[n - 1].name, visible) == parent {
            rest.push(n - 1)
        } else {
            rest
        }
    }
}

/// The rows of the windows of session `sid`, in their order, at `depth`.
pub open spec fn window_rows(ws: Seq<WindowV>, sid: Seq<char>, depth: nat) -> Seq<RowV>
    decreases ws.len(),
{
    if ws.len() == 0 {
        Seq::empty()
    } else {
        let rest = window_rows(ws.drop_last(), sid, depth);
        if ws.last().session_id == sid {
            rest.push(RowV::Window(WindowV { depth, ..ws.last() }))
        } else {
            rest
        }
    }
}

/// The name shown for a session below `parent`: its part after `parent/`.
pub open spec fn raw_display(name: Seq<char>, parent: Option<Seq<char>>) -> Seq<char> {
    match parent {
        Some(p) => if starts_with(name, p + seq!['/']) {
            name.skip(p.len() as int + 1)
        } else {
            name
        },
        None => name,
    }
}

/// Whether a session's windows and children are listed (the default).
pub open spec fn expanded_flag(m: Map<Seq<char>, bool>, name: Seq<char>) -> bool {
    if m.contains_key(name) {
        m[name]
    } else {
        true
    }
}

/// The row of a session placed at `depth` of the tree.
pub open spec fn node_row(s: SessionV, visible: Set<Seq<char>>, depth: nat) -> RowV {
    RowV::Session(
        SessionV {
            depth,
            display_name: spec_session_display_name(
                raw_display(s.name, spec_nearest_parent(s.name, visible)),
            ),
            ..s
        },
    )
}

/// One more than the longest session name: no tree is deeper.
pub open spec fn name_bound(ss: Seq<SessionV>) -> nat
    decreases ss.len(),
{
    if ss.len() == 0 {
        1
    } else {
        let rest = name_bound(ss.drop_last());
        if ss.last().name.len() + 1 > rest {
            ss.last().name.len() + 1
        } else {
            rest
        }
    }
}

/// The rows of the subtrees rooted at `kids`, depth first: each session,
/// then, when it is expanded, its windows and its children one level deeper.
pub open spec fn forest_rows(
    ss: Seq<SessionV>,
    visible: Set<Seq<char>>,
    ws: Seq<WindowV>,
    ex: Map<Seq<char>, bool>,
    kids: Seq<int>,
    depth: nat,
    limit: nat,
) -> Seq<RowV>
    decreases limit - depth, kids.len(),
{
    if kids.len() == 0 || depth >= limit {
        Seq::empty()
    } else {
        let s = ss[kids[0]];
        let below = if expanded_flag(ex, s.name) {
            window_rows(ws, s.id, depth) + forest_rows(
                ss,
                visible,
                ws,
                ex,
                kid_indices(ss, visible, Some(s.name), ss.len() as int),
                depth + 1,
                limit,
            )
        } else {
            Seq::empty()
        };
        seq![node_row(s, visible, depth)] + below + forest_rows(
            ss,
            visible,
            ws,
            ex,
            kids.drop_first(),
            depth,
            limit,
        )
    }
}

/// The saved layouts that have no live session (and are not hidden, unless
/// hidden sessions are shown).
pub open spec fn saved_rows(saved: Seq<SavedSessionV>, live: Set<Seq<char>>, show_hidden: bool) -> Seq<
    RowV,
>
    decreases saved.len(),
{
    if saved.len() == 0 {
        Seq::empty()
    } else {
        let rest = saved_rows(saved.drop_last(), live, show_hidden);
        let s = saved.last();
        if !live.contains(s.name) && (show_hidden || !spec_session_is_hidden(s.name)) {
            rest.push(RowV::SavedSession(s))
        } else {
            rest
        }
    }
}

/// The sessions as listed, sorted by name.
pub open spec fn sorted_sessions(
    sessions_raw: Seq<char>,
    current: Seq<char>,
    saved: Seq<SavedSessionV>,
    show_hidden: bool,
) -> Seq<SessionV> {
    sorted_stably(
        parsed_sessions(lines(sessions_raw), trim(current), saved, show_hidden),
        order_of::<Session>(),
    )
}

/// The overview's rows: the watch section, the session tree (roots are the
/// sessions with no live parent), then the saved layouts with no live session.
pub open spec fn spec_load_rows(
    current: Seq<char>,
    sessions_raw: Seq<char>,
    windows_raw: Seq<char>,
    ex: Map<Seq<char>, bool>,
    watch: Set<Seq<char>>,
    labels: Map<Seq<char>, Seq<Seq<char>>>,
    saved: Seq<SavedSessionV>,
    show_hidden: bool,
) -> Seq<RowV> {
    let ws = parsed_windows(lines(windows_raw), show_hidden, labels);
    let ss = sorted_sessions(sessions_raw, current, saved, show_hidden);
    let visible = names_of(ss);
    watch_rows(watched_windows(ws, watch)) + forest_rows(
        ss,
        visible,
        ws,
        ex,
        kid_indices(ss, visible, None, ss.len() as int),
        0,
        name_bound(ss),
    ) + saved_rows(saved, live_names(lines(sessions_raw)), show_hidden)
}

proof fn lemma_forest_append(
    ss: Seq<SessionV>,
    visible: Set<Seq<char>>,
    ws: Seq<WindowV>,
    ex: Map<Seq<char>, bool>,
    a: Seq<int>,
    b: Seq<int>,
    depth: nat,
    limit: nat,
)
    ensures
        forest_rows(ss, visible, ws, ex, a + b, depth, limit) == forest_rows(
            ss,
            visible,
            ws,
            ex,
            a,
            depth,
            limit,
        ) + forest_rows(ss, visible, ws, ex, b, depth, limit),
    decreases a.len(),
{
    if a.len() == 0 {
        assert(a + b =~= b);
    } else if depth >= limit {
    } else {
        assert((a + b)[0] == a[0]);
        assert((a + b).drop_first() =~= a.drop_first() + b);
        lemma_forest_append(ss, visible, ws, ex, a.drop_first(), b, depth, limit);
    }
}

proof fn lemma_name_bound(ss: Seq<SessionV>, i: int)
    requires
        0 <= i < ss.len(),
    ensures
        ss[i].name.len() < name_bound(ss),
    decreases ss.len(),
{
    if i < ss.len() - 1 {
        lemma_name_bound(ss.drop_last(), i);
    }
}

fn strip_parent(name: &str, parent: &Option<String>) -> (r: String)
    ensures
        r@ == raw_display(name@, opt_view(*parent)),
{
    match parent {
        Some(p) => {
            let pre = concat(p.as_str(), "/");
            proof {
                reveal_strlit("/");
                assert(pre@ =~= p@ + seq!['/']);
            }
            if has_prefix(name, pre.as_str()) {
                let v = chars_of(name);
                let n = chars_of(pre.as_str()).len();
                let r = string_of_range(&v, n, v.len());
                assert(r@ =~= name@.skip(p@.len() as int + 1));
                r
            } else {
                name.to_string()
            }
        },
        None => name.to_string(),
    }
}

/// The parents of the sessions, as given by their names.
pub open spec fn parents_match(ss: Seq<SessionV>, parents: Seq<Option<String>>) -> bool {
    &&& parents.len() == ss.len()
    &&& forall|j: int|
        0 <= j < ss.len() ==> opt_view(#[trigger] parents[j]) == spec_nearest_parent(
            ss[j].name,
            names_of(ss),
        )
}

fn append_window_rows(rows: &mut Vec<Row>, windows: &Vec<Window>, sid: &str, depth: usize)
    ensures
        row_views(final(rows)@) == row_views(old(rows)@) + window_rows(
            seq_views(windows@),
            sid@,
            depth as nat,
        ),
{
    let ghost base = row_views(rows@);
    let ghost wv = seq_views(windows@);
    let mut k: usize = 0;
    assert(wv.take(0) =~= Seq::<WindowV>::empty());
    assert(base + Seq::<RowV>::empty() =~= base);
    while k < windows.len()
        invariant
            k <= windows@.len(),
            wv == seq_views(windows@),
            row_views(rows@) == base + window_rows(wv.take(k as int), sid@, depth as nat),
        decreases windows.len() - k,
    {
        assert(wv.take(k + 1).drop_last() =~= wv.take(k as int));
        assert(wv.take(k + 1).last() == windows@[k as int]@);
        if eq_str(windows[k].session_id.as_str(), sid) {
            let mut w = windows[k].copy();
            w.depth = depth;
            let ghost before = row_views(rows@);
            rows.push(Row::Window(w));
            assert(row_views(rows@) =~= before.push(RowV::Window(w@)));
        }
        k += 1;
    }
    assert(wv.take(k as int) =~= wv);
}

/// Appends the rows of the subtree of session `i` at `depth`.
fn append_session_tree(
    rows: &mut Vec<Row>,
    ss: &Vec<Session>,
    parents: &Vec<Option<String>>,
    i: usize,
    depth: usize,
    windows: &Vec<Window>,
    expanded: &ExpandedState,
)
    requires
        i < ss@.len(),
        parents_match(seq_views(ss@), parents@),
        depth <= ss@[i as int].name@.len(),
    ensures
        row_views(final(rows)@) == row_views(old(rows)@) + forest_rows(
            seq_views(ss@),
            names_of(seq_views(ss@)),
            seq_views(windows@),
            expanded@,
            seq![i as int],
            depth as nat,
            name_bound(seq_views(ss@)),
        ),
    decreases name_bound(seq_views(ss@)) - depth,
{
    let ghost sv = seq_views(ss@);
    let ghost vis = names_of(sv);
    let ghost wv = seq_views(windows@);
    let ghost lim = name_bound(sv);
    let ghost base = row_views(rows@);
    proof {
        lemma_name_bound(sv, i as int);
        assert(sv[i as int] == ss@[i as int]@);
        assert(opt_view(parents@[i as int]) == spec_nearest_parent(sv[i as int].name, vis));
    }
    let raw = strip_parent(ss[i].name.as_str(), &parents[i]);
    let mut node = ss[i].copy();
    node.depth = depth;
    node.display_name = session_display_name(raw.as_str());
    assert(Row::Session(node)@ == node_row(sv[i as int], vis, depth as nat));
    rows.push(Row::Session(node));
    let ghost head = row_views(rows@);
    assert(head =~= base + seq![node_row(sv[i as int], vis, depth as nat)]);
    let ghost kids = seq![i as int];
    assert(kids.drop_first() =~= Seq::<int>::empty());
    assert(kids[0] == i as int);
    assert(forest_rows(sv, vis, wv, expanded@, kids.drop_first(), depth as nat, lim)
        == Seq::<RowV>::empty());
    if !expanded.is_expanded(ss[i].name.as_str()) {
        assert(forest_rows(sv, vis, wv, expanded@, kids, depth as nat, lim) =~= seq![
            node_row(sv[i as int], vis, depth as nat),
        ]);
        assert(head =~= base + forest_rows(sv, vis, wv, expanded@, kids, depth as nat, lim));
        return;
    }
    append_window_rows(rows, windows, ss[i].id.as_str(), depth);
    let ghost mid = row_views(rows@);
    let ghost name = sv[i as int].name;
    let mut j: usize = 0;
    assert(mid + Seq::<RowV>::empty() =~= mid);
    while j < ss.len()
        invariant
            j <= ss@.len(),
            i < ss@.len(),
            sv == seq_views(ss@),
            vis == names_of(sv),
            wv == seq_views(windows@),
            lim == name_bound(sv),
            name == sv[i as int].name,
            name == ss@[i as int].name@,
            depth <= name.len(),
            depth < lim,
            parents_match(sv, parents@),
            row_views(rows@) == mid + forest_rows(
                sv,
                vis,
                wv,
                expanded@,
                kid_indices(sv, vis, Some(name), j as int),
                depth as nat + 1,
                lim,
            ),
        decreases ss.len() - j,
    {
        assert(opt_view(parents@[j as int]) == spec_nearest_parent(sv[j as int].name, vis));
        assert(sv[j as int] == ss@[j as int]@);
        let is_child = match &parents[j] {
            Some(p) => {
                assert(opt_view(parents@[j as int]) == Some(p@));
                eq_str(p.as_str(), ss[i].name.as_str())
            },
            None => false,
        };
        assert(is_child == (spec_nearest_parent(sv[j as int].name, vis) == Some(name)));
        if is_child {
            proof {
                lemma_parent_shorter(sv[j as int].name, vis);
            }
            let child_len = chars_of(ss[j].name.as_str()).len();
            assert(child_len == sv[j as int].name.len());
            assert(depth < child_len);
            let ghost before = row_views(rows@);
            append_session_tree(rows, ss, parents, j, depth + 1, windows, expanded);
            proof {
                lemma_forest_append(
                    sv,
                    vis,
                    wv,
                    expanded@,
                    kid_indices(sv, vis, Some(name), j as int),
                    seq![j as int],
                    depth as nat + 1,
                    lim,
                );
                assert(kid_indices(sv, vis, Some(name), j + 1) == kid_indices(
                    sv,
                    vis,
                    Some(name),
                    j as int,
                ).push(j as int));
                assert(kid_indices(sv, vis, Some(name), j as int).push(j as int) =~= kid_indices(
                    sv,
                    vis,
                    Some(name),
                    j as int,
                ) + seq![j as int]);
            }
        } else {
            assert(kid_indices(sv, vis, Some(name), j + 1) == kid_indices(
                sv,
                vis,
                Some(name),
                j as int,
            ));
        }
        j += 1;
    }
    assert(kid_indices(sv, vis, Some(name), j as int) == kid_indices(
        sv,
        vis,
        Some(name),
        sv.len() as int,
    ));
    assert(forest_rows(sv, vis, wv, expanded@, kids, depth as nat, lim) =~= seq![
        node_row(sv[i as int], vis, depth as nat),
    ] + (window_rows(wv, name_id(sv, i as int), depth as nat) + forest_rows(
        sv,
        vis,
        wv,
        expanded@,
        kid_indices(sv, vis, Some(name), sv.len() as int),
        depth as nat + 1,
        lim,
    )));
    assert(row_views(rows@) =~= base + forest_rows(sv, vis, wv, expanded@, kids, depth as nat, lim));
}

spec fn name_id(ss: Seq<SessionV>, i: int) -> Seq<char> {
    ss[i].id
}

fn collect_watched(windows: &Vec<Window>, watchlist: &StrSet) -> (r: Vec<Window>)
    ensures
        seq_views(r@) == watched_of(seq_views(windows@), watchlist@),
{
    let ghost wv = seq_views(windows@);
    let mut out: Vec<Window> = Vec::new();
    let mut k: usize = 0;
    while k < windows.len()
        invariant
            k <= windows@.len(),
            wv == seq_views(windows@),
            seq_views(out@) == watched_of(wv.take(k as int), watchlist@),
        decreases windows.len() - k,
    {
        assert(wv.take(k + 1).drop_last() =~= wv.take(k as int));
        assert(wv.take(k + 1).last() == windows@[k as int]@);
        if watchlist.contains(windows[k].id.as_str()) {
            let w = windows[k].copy();
            let ghost before = out@;
            out.push(w);
            assert(seq_views(out@) =~= seq_views(before).push(w@));
        }
        k += 1;
    }
    assert(wv.take(k as int) =~= wv);
    out
}

fn session_names(ss: &Vec<Session>) -> (r: StrSet)
    ensures
        r@ == names_of(seq_views(ss@)),
{
    let ghost sv = seq_views(ss@);
    let mut out = StrSet::new();
    let mut k: usize = 0;
    while k < ss.len()
        invariant
            k <= ss@.len(),
            sv == seq_views(ss@),
            out@ == names_of(sv.take(k as int)),
        decreases ss.len() - k,
    {
        let ghost before = out@;
        out.insert(copy_string(&ss[k].name));
        proof {
            let t = sv.take(k + 1);
            assert(sv[k as int] == ss@[k as int]@);
            assert forall|n: Seq<char>| out@.contains(n) == names_of(t).contains(n) by {
                if out@.contains(n) {
                    if n == sv[k as int].name {
                        assert(t[k as int] == sv[k as int]);
                    } else {
                        let j = choose|j: int| 0 <= j < k && (#[trigger] sv.take(k as int)[j]).name == n;
                        assert(t[j] == sv.take(k as int)[j]);
                    }
                }
                if names_of(t).contains(n) {
                    let j = choose|j: int| 0 <= j < k + 1 && (#[trigger] t[j]).name == n;
                    if j < k {
                        assert(sv.take(k as int)[j] == t[j]);
                    }
                }
            }
            assert(out@ =~= names_of(t));
        }
        k += 1;
    }
    assert(sv.take(k as int) =~= sv);
    out
}

fn session_parents(ss: &Vec<Session>, visible: &StrSet) -> (r: Vec<Option<String>>)
    requires
        visible@ == names_of(seq_views(ss@)),
    ensures
        parents_match(seq_views(ss@), r@),
{
    let ghost sv = seq_views(ss@);
    let mut out: Vec<Option<String>> = Vec::new();
    let mut k: usize = 0;
    while k < ss.len()
        invariant
            k <= ss@.len(),
            sv == seq_views(ss@),
            visible@ == names_of(sv),
            out@.len() == k,
            forall|j: int|
                0 <= j < k ==> opt_view(#[trigger] out@[j]) == spec_nearest_parent(
                    sv[j].name,
                    names_of(sv),
                ),
        decreases ss.len() - k,
    {
        assert(sv[k as int] == ss@[k as int]@);
        out.push(nearest_parent_name(ss[k].name.as_str(), visible));
        k += 1;
    }
    out
}

fn append_saved_rows(
    rows: &mut Vec<Row>,
    saved_sessions: &[SavedSession],
    live: &StrSet,
    show_hidden: bool,
)
    ensures
        row_views(final(rows)@) == row_views(old(rows)@) + saved_rows(
            saved_views(saved_sessions@),
            live@,
            show_hidden,
        ),
{
    let ghost base = row_views(rows@);
    let ghost sv = saved_views(saved_sessions@);
    let mut k: usize = 0;
    assert(sv.take(0) =~= Seq::<SavedSessionV>::empty());
    assert(base + Seq::<RowV>::empty() =~= base);
    while k < saved_sessions.len()
        invariant
            k <= saved_sessions@.len(),
            sv == saved_views(saved_sessions@),
            row_views(rows@) == base + saved_rows(sv.take(k as int), live@, show_hidden),
        decreases saved_sessions.len() - k,
    {
        assert(sv.take(k + 1).drop_last() =~= sv.take(k as int));
        assert(sv.take(k + 1).last() == saved_sessions@[k as int]@);
        let name = saved_sessions[k].name.as_str();
        if !live.contains(name) && (show_hidden || !session_is_hidden(name)) {
            let s = saved_sessions[k].copy();
            let ghost before = row_views(rows@);
            rows.push(Row::SavedSession(s));
            assert(row_views(rows@) =~= before.push(RowV::SavedSession(s@)));
        }
        k += 1;
    }
    assert(sv.take(k as int) =~= sv);
}

/// The rows of the overview, from tmux's answers to `display-message` for the
/// current session, `list-sessions` (id, name, default path) and
/// `list-windows -a` (session id, session name, window id, index, name,
/// active flag), each line's fields separated by tabs.
pub fn load_rows(
    current_session: &str,
    sessions_raw: &str,
    windows_raw: &str,
    expanded: &ExpandedState,
    watchlist: &StrSet,
    window_labels: &LabelMap,
    saved_sessions: &[SavedSession],
    show_hidden: bool,
) -> (rows: Vec<Row>)
    ensures
        row_views(rows@) == spec_load_rows(
            current_session@,
            sessions_raw@,
            windows_raw@,
            expanded@,
            watchlist@,
            window_labels@,
            saved_views(saved_sessions@),
            show_hidden,
        ),
{
    let windows = parse_windows(windows_raw, show_hidden, window_labels);
    let ghost wv = seq_views(windows@);
    let watched = stable_sort(collect_watched(&windows, watchlist));
    let ghost wd = seq_views(watched@);
    let mut rows: Vec<Row> = Vec::new();
    if watched.len() > 0 {
        rows.push(Row::WatchHeader);
        let mut k: usize = 0;
        while k < watched.len()
            invariant
                k <= watched@.len(),
                wd == seq_views(watched@),
                row_views(rows@) == seq![RowV::WatchHeader] + watch_window_rows(wd.take(k as int)),
            decreases watched.len() - k,
        {
            let w = watched[k].copy();
            let ghost before = row_views(rows@);
            rows.push(Row::WatchWindow(w));
            assert(wd[k as int] == watched@[k as int]@);
            assert(row_views(rows@) =~= before.push(RowV::WatchWindow(wd[k as int])));
            assert(watch_window_rows(wd.take(k + 1)) =~= watch_window_rows(wd.take(k as int)).push(
                RowV::WatchWindow(wd[k as int]),
            ));
            assert(row_views(rows@) =~= seq![RowV::WatchHeader] + watch_window_rows(wd.take(k + 1)));
            k += 1;
        }
        assert(wd.take(k as int) =~= wd);
    } else {
        assert(row_views(rows@) =~= watch_rows(wd));
    }
    let ghost head = row_views(rows@);
    assert(head == watch_rows(watched_windows(wv, watchlist@)));
    let current = trimmed(current_session);
    let (parsed, live) = parse_sessions(sessions_raw, current.as_str(), saved_sessions, show_hidden);
    let sessions = stable_sort(parsed);
    let ghost sv = seq_views(sessions@);
    let visible = session_names(&sessions);
    let ghost vis = visible@;
    let parents = session_parents(&sessions, &visible);
    let ghost lim = name_bound(sv);
    let mut j: usize = 0;
    assert(head + Seq::<RowV>::empty() =~= head);
    while j < sessions.len()
        invariant
            j <= sessions@.len(),
            sv == seq_views(sessions@),
            vis == names_of(sv),
            wv == seq_views(windows@),
            lim == name_bound(sv),
            parents_match(sv, parents@),
            row_views(rows@) == head + forest_rows(
                sv,
                vis,
                wv,
                expanded@,
                kid_indices(sv, vis, None, j as int),
                0,
                lim,
            ),
        decreases sessions.len() - j,
    {
        assert(opt_view(parents@[j as int]) == spec_nearest_parent(sv[j as int].name, vis));
        if parents[j].is_none() {
            append_session_tree(&mut rows, &sessions, &parents, j, 0, &windows, expanded);
            proof {
                lemma_forest_append(
                    sv,
                    vis,
                    wv,
                    expanded@,
                    kid_indices(sv, vis, None, j as int),
                    seq![j as int],
                    0,
                    lim,
                );
                assert(kid_indices(sv, vis, None, j as int).push(j as int) =~= kid_indices(
                    sv,
                    vis,
                    None,
                    j as int,
                ) + seq![j as int]);
            }
        }
        j += 1;
    }
    append_saved_rows(&mut rows, saved_sessions, &live, show_hidden);
    rows
}

// ---------------------------------------------------------------------------
// selection
pub open spec fn row_selectable(r: RowV) -> bool {
    !(r is WatchHeader)
}

/// Every row but the watch header can be selected.
pub fn is_selectable(row: &Row) -> (r: bool)
    ensures
        r == row_selectable(row@),
{
    !matches!(row, Row::WatchHeader)
}

/// The first selectable position at or after `from`.
pub open spec fn next_selectable(rows: Seq<RowV>, from: int) -> Option<int>
    decreases rows.len() - from,
{
    if from < 0 || from >= rows.len() {
        None
    } else if row_selectable(rows[from]) {
        Some(from)
    } else {
        next_selectable(rows, from + 1)
    }
}

/// The last selectable position before `before`.
pub open spec fn prev_selectable(rows: Seq<RowV>, before: int) -> Option<int>
    decreases before,
{
    if before <= 0 || before > rows.len() {
        None
    } else if row_selectable(rows[before - 1]) {
        Some(before - 1)
    } else {
        prev_selectable(rows, before - 1)
    }
}

pub proof fn lemma_next_selectable(rows: Seq<RowV>, from: int)
    requires
        0 <= from,
    ensures
        match next_selectable(rows, from) {
            Some(i) => from <= i < rows.len() && row_selectable(rows[i]) && forall|j: int|
                from <= j < i ==> !row_selectable(#[trigger] rows[j]),
            None => forall|j: int| from <= j < rows.len() ==> !row_selectable(#[trigger] rows[j]),
        },
    decreases rows.len() - from,
{
    if from < rows.len() && !row_selectable(rows[from]) {
        lemma_next_selectable(rows, from + 1);
    }
}

pub proof fn lemma_prev_selectable(rows: Seq<RowV>, before: int)
    requires
        before <= rows.len(),
    ensures
        match prev_selectable(rows, before) {
            Some(i) => 0 <= i < before && row_selectable(rows[i]) && forall|j: int|
                i < j < before ==> !row_selectable(#[trigger] rows[j]),
            None => forall|j: int| 0 <= j < before ==> !row_selectable(#[trigger] rows[j]),
        },
    decreases before,
{
    if before > 0 && !row_selectable(rows[before - 1]) {
        lemma_prev_selectable(rows, before - 1);
    }
}

fn find_next_selectable(rows: &[Row], from: usize) -> (r: Option<usize>)
    ensures
        match r {
            Some(i) => next_selectable(row_views(rows@), from as int) == Some(i as int),
            None => next_selectable(row_views(rows@), from as int) is None,
        },
{
    let ghost rv = row_views(rows@);
    let mut i = from;
    while i < rows.len()
        invariant
            from <= i,
            rv == row_views(rows@),
            next_selectable(rv, from as int) == next_selectable(rv, i as int),
        decreases rows.len() - i,
    {
        assert(rv[i as int] == rows@[i as int]@);
        if is_selectable(&rows[i]) {
            return Some(i);
        }
        i += 1;
    }
    None
}

fn find_prev_selectable(rows: &[Row], before: usize) -> (r: Option<usize>)
    requires
        before <= rows@.len(),
    ensures
        match r {
            Some(i) => prev_selectable(row_views(rows@), before as int) == Some(i as int),
            None => prev_selectable(row_views(rows@), before as int) is None,
        },
{
    let ghost rv = row_views(rows@);
    let mut i = before;
    while i > 0
        invariant
            i <= before <= rows@.len(),
            rv == row_views(rows@),
            prev_selectable(rv, before as int) == prev_selectable(rv, i as int),
        decreases i,
    {
        assert(rv[i - 1] == rows@[i - 1]@);
        if is_selectable(&rows[i - 1]) {
            return Some(i - 1);
        }
        i -= 1;
    }
    None
}

/// Where the selection lands: the position kept within the rows, moved
/// to the next selectable row below, else to the nearest above.
pub open spec fn spec_clamp(selected: nat, rows: Seq<RowV>) -> nat {
    if rows.len() == 0 {
        0
    } else {
        let s: nat = if selected < rows.len() {
            selected
        } else {
            (rows.len() - 1) as nat
        };
        if row_selectable(rows[s as int]) {
            s
        } else {
            match next_selectable(rows, s as int + 1) {
                Some(i) => i as nat,
                None => match prev_selectable(rows, s as int) {
                    Some(i) => i as nat,
                    None => s,
                },
            }
        }
    }
}

pub fn clamp_selected(selected: &mut usize, rows: &[Row])
    ensures
        *final(selected) == spec_clamp(*old(selected) as nat, row_views(rows@)),
{
    let ghost rv = row_views(rows@);
    if rows.len() == 0 {
        *selected = 0;
        return;
    }
    if *selected > rows.len() - 1 {
        *selected = rows.len() - 1;
    }
    assert(rv[*selected as int] == rows@[*selected as int]@);
    if is_selectable(&rows[*selected]) {
        return;
    }
    if let Some(idx) = find_next_selectable(rows, *selected + 1) {
        *selected = idx;
    } else if let Some(idx) = find_prev_selectable(rows, *selected) {
        *selected = idx;
    }
}

/// The next selectable row below `selected`, or `selected` itself.
pub fn selectable_after(rows: &[Row], selected: usize) -> (r: usize)
    ensures
        r == (match next_selectable(row_views(rows@), selected + 1) {
            Some(i) => i,
            None => selected as int,
        }),
{
    if selected >= rows.len() {
        return selected;
    }
    match find_next_selectable(rows, selected + 1) {
        Some(i) => i,
        None => selected,
    }
}

/// The nearest selectable row above `selected`, or `selected` itself.
pub fn selectable_before(rows: &[Row], selected: usize) -> (r: usize)
    ensures
        r == (match prev_selectable(
            row_views(rows@),
            if selected <= rows@.len() {
                selected as int
            } else {
                rows@.len() as int
            },
        ) {
            Some(i) => i,
            None => selected as int,
        }),
{
    let before = if selected <= rows.len() {
        selected
    } else {
        rows.len()
    };
    match find_prev_selectable(rows, before) {
        Some(i) => i,
        None => selected,
    }
}

pub fn first_selectable(rows: &[Row]) -> (r: usize)
    ensures
        r == (match next_selectable(row_views(rows@), 0) {
            Some(i) => i,
            None => 0,
        }),
{
    match find_next_selectable(rows, 0) {
        Some(i) => i,
        None => 0,
    }
}

pub fn last_selectable(rows: &[Row]) -> (r: usize)
    ensures
        r == (match prev_selectable(row_views(rows@), rows@.len() as int) {
            Some(i) => i,
            None => 0,
        }),
{
    match find_prev_selectable(rows, rows.len()) {
        Some(i) => i,
        None => 0,
    }
}

/// The clamped selection is a row when there is one, and a selectable row
/// when there is one of those.
pub proof fn law_clamp_selects(selected: nat, rows: Seq<RowV>)
    ensures
        rows.len() == 0 ==> spec_clamp(selected, rows) == 0,
        rows.len() > 0 ==> spec_clamp(selected, rows) < rows.len(),
        (exists|j: int| 0 <= j < rows.len() && row_selectable(#[trigger] rows[j])) ==> row_selectable(
            rows[spec_clamp(selected, rows) as int],
        ),
{
    if rows.len() > 0 {
        let s: nat = if selected < rows.len() {
            selected
        } else {
            (rows.len() - 1) as nat
        };
        lemma_next_selectable(rows, s as int + 1);
        lemma_prev_selectable(rows, s as int);
    }
}

/// Clamping a clamped selection changes nothing.
pub proof fn law_clamp_idempotent(selected: nat, rows: Seq<RowV>)
    ensures
        spec_clamp(spec_clamp(selected, rows), rows) == spec_clamp(selected, rows),
{
    law_clamp_selects(selected, rows);
    let c = spec_clamp(selected, rows);
    if rows.len() > 0 && !row_selectable(rows[c as int]) {
        // no row is selectable, so the clamp kept its position
        let s: nat = if selected < rows.len() {
            selected
        } else {
            (rows.len() - 1) as nat
        };
        lemma_next_selectable(rows, s as int + 1);
        lemma_prev_selectable(rows, s as int);
        lemma_next_selectable(rows, c as int + 1);
        lemma_prev_selectable(rows, c as int);
    }
}

// ---------------------------------------------------------------------------
// keys, targets and the modals of a row
/// The key by which a row is found again after a reload.
pub open spec fn spec_row_key(r: RowV) -> Seq<char> {
    match r {
        RowV::WatchHeader => "watch-header"@,
        RowV::WatchWindow(w) => "window\t"@ + w.id,
        RowV::Window(w) => "window\t"@ + w.id,
        RowV::Session(s) => "session\t"@ + s.id,
        RowV::SavedSession(s) => "saved\t"@ + s.name,
    }
}

pub fn row_key(row: &Row) -> (r: String)
    ensures
        r@ == spec_row_key(row@),
{
    match row {
        Row::WatchHeader => lit("watch-header"),
        Row::WatchWindow(w) => concat("window\t", w.id.as_str()),
        Row::Window(w) => concat("window\t", w.id.as_str()),
        Row::Session(s) => concat("session\t", s.id.as_str()),
        Row::SavedSession(s) => concat("saved\t", s.name.as_str()),
    }
}

/// The first selectable position at or after `from` whose row has `key`.
pub open spec fn index_for_key(rows: Seq<RowV>, key: Seq<char>, from: int) -> Option<int>
    decreases rows.len() - from,
{
    if from < 0 || from >= rows.len() {
        None
    } else if row_selectable(rows[from]) && spec_row_key(rows[from]) == key {
        Some(from)
    } else {
        index_for_key(rows, key, from + 1)
    }
}

pub fn selected_index_for_key(rows: &[Row], key: &str) -> (r: Option<usize>)
    ensures
        match r {
            Some(i) => index_for_key(row_views(rows@), key@, 0) == Some(i as int),
            None => index_for_key(row_views(rows@), key@, 0) is None,
        },
{
    let ghost rv = row_views(rows@);
    let mut i: usize = 0;
    while i < rows.len()
        invariant
            i <= rows@.len(),
            rv == row_views(rows@),
            index_for_key(rv, key@, 0) == index_for_key(rv, key@, i as int),
        decreases rows.len() - i,
    {
        assert(rv[i as int] == rows@[i as int]@);
        if is_selectable(&rows[i]) {
            let k = row_key(&rows[i]);
            if eq_str(k.as_str(), key) {
                return Some(i);
            }
        }
        i += 1;
    }
    None
}

/// What tmux commands on a row address: the session or window id, or the
/// saved layout's name.
pub open spec fn spec_row_target(r: RowV) -> Seq<char> {
    match r {
        RowV::WatchHeader => Seq::empty(),
        RowV::Session(s) => s.id,
        RowV::WatchWindow(w) => w.id,
        RowV::Window(w) => w.id,
        RowV::SavedSession(s) => s.name,
    }
}

pub fn row_target(row: &Row) -> (r: &str)
    ensures
        r@ == spec_row_target(row@),
{
    match row {
        Row::WatchHeader => {
            proof {
                reveal_strlit("");
            }
            assert(""@ =~= Seq::<char>::empty());
            ""
        },
        Row::Session(s) => s.id.as_str(),
        Row::WatchWindow(w) => w.id.as_str(),
        Row::Window(w) => w.id.as_str(),
        Row::SavedSession(s) => s.name.as_str(),
    }
}

/// The live session a row belongs to, as id and name.
pub open spec fn spec_session_from_row(r: RowV) -> Option<(Seq<char>, Seq<char>)> {
    match r {
        RowV::Session(s) => Some((s.id, s.name)),
        RowV::WatchWindow(w) => Some((w.session_id, w.session_name)),
        RowV::Window(w) => Some((w.session_id, w.session_name)),
        _ => None,
    }
}

pub fn session_from_row(row: &Row) -> (r: Option<(String, String)>)
    ensures
        pair_views(r) == spec_session_from_row(row@),
{
    match row {
        Row::Session(s) => Some((copy_string(&s.id), copy_string(&s.name))),
        Row::WatchWindow(w) => Some((copy_string(&w.session_id), copy_string(&w.session_name))),
        Row::Window(w) => Some((copy_string(&w.session_id), copy_string(&w.session_name))),
        Row::WatchHeader => None,
        Row::SavedSession(_) => None,
    }
}

/// The default path of a row's session: the session's
/// `@overview_default_path` option when set, else the current path of the
/// row's pane (both as tmux printed them, trimmed); nothing for rows
/// without a live session.
pub open spec fn spec_default_path(r: RowV, saved_option: Seq<char>, pane_path: Seq<char>) -> Seq<
    char,
> {
    if spec_session_from_row(r) is None {
        Seq::empty()
    } else if trim(saved_option).len() > 0 {
        trim(saved_option)
    } else {
        trim(pane_path)
    }
}

pub fn default_path_for_row(row: &Row, saved_option: &str, pane_path: &str) -> (r: String)
    ensures
        r@ == spec_default_path(row@, saved_option@, pane_path@),
{
    if session_from_row(row).is_none() {
        return String::new();
    }
    let saved = trimmed(saved_option);
    if !saved.as_str().is_empty() {
        return saved;
    }
    trimmed(pane_path)
}

/// The modal that renames what a row shows.
pub open spec fn spec_rename_modal(r: RowV) -> ModalV {
    match r {
        RowV::WatchHeader => ModalV::Closed,
        RowV::Session(s) => ModalV::Input {
            title: "rename session "@ + s.name,
            value: s.name,
            action: InputActionV::RenameSession { target: s.id, old_name: s.name },
        },
        RowV::WatchWindow(w) => window_rename_modal(w),
        RowV::Window(w) => window_rename_modal(w),
        RowV::SavedSession(s) => ModalV::Input {
            title: "rename saved session "@ + s.name,
            value: s.name,
            action: InputActionV::RenameSavedSession { old_name: s.name },
        },
    }
}

pub open spec fn window_rename_modal(w: WindowV) -> ModalV {
    ModalV::Input {
        title: "rename window "@ + w.index + ":"@ + w.name,
        value: w.name,
        action: InputActionV::RenameWindow { target: w.id, old_name: w.name },
    }
}

fn window_rename_modal_exec(w: &Window) -> (r: Modal)
    ensures
        r@ == window_rename_modal(w@),
{
    let mut title = lit("rename window ");
    push_str(&mut title, w.index.as_str());
    push_str(&mut title, ":");
    push_str(&mut title, w.name.as_str());
    Modal::Input {
        title,
        value: copy_string(&w.name),
        action: InputAction::RenameWindow { target: copy_string(&w.id), old_name: copy_string(&w.name) },
    }
}

pub fn rename_modal_for(row: &Row) -> (r: Modal)
    ensures
        r@ == spec_rename_modal(row@),
{
    match row {
        Row::WatchHeader => Modal::Closed,
        Row::Session(s) => Modal::Input {
            title: concat("rename session ", s.name.as_str()),
            value: copy_string(&s.name),
            action: InputAction::RenameSession {
                target: copy_string(&s.id),
                old_name: copy_string(&s.name),
            },
        },
        Row::WatchWindow(w) => window_rename_modal_exec(w),
        Row::Window(w) => window_rename_modal_exec(w),
        Row::SavedSession(s) => Modal::Input {
            title: concat("rename saved session ", s.name.as_str()),
            value: copy_string(&s.name),
            action: InputAction::RenameSavedSession { old_name: copy_string(&s.name) },
        },
    }
}

/// The confirmation for killing the session of a row that has one.
pub open spec fn spec_kill_session_modal(r: RowV) -> Option<ModalV> {
    match spec_session_from_row(r) {
        Some((target, name)) => Some(
            ModalV::Confirm {
                title: "kill session "@ + name + "?"@,
                action: ConfirmActionV::KillSession { target, name },
            },
        ),
        None => None,
    }
}

pub open spec fn opt_modal_view(m: Option<Modal>) -> Option<ModalV> {
    match m {
        Some(m) => Some(m@),
        None => None,
    }
}

pub fn kill_session_modal_for(row: &Row) -> (r: Option<Modal>)
    ensures
        opt_modal_view(r) == spec_kill_session_modal(row@),
{
    let (target, name) = match session_from_row(row) {
        Some(p) => p,
        None => return None,
    };
    let mut title = lit("kill session ");
    push_str(&mut title, name.as_str());
    push_str(&mut title, "?");
    Some(Modal::Confirm { title, action: ConfirmAction::KillSession { target, name } })
}

/// The input for a session's default path, filled with its current one; an
/// error for rows without a live session.
pub open spec fn spec_default_path_modal(r: RowV, saved_option: Seq<char>, pane_path: Seq<char>) -> Result<
    ModalV,
    Seq<char>,
> {
    match spec_session_from_row(r) {
        Some((target, name)) => Ok(
            ModalV::Input {
                title: "default path for "@ + name,
                value: spec_default_path(r, saved_option, pane_path),
                action: InputActionV::SetDefaultPath { target, name },
            },
        ),
        None => Err("restore saved session before changing path"@),
    }
}

pub open spec fn modal_result_view(m: Result<Modal, String>) -> Result<ModalV, Seq<char>> {
    match m {
        Ok(m) => Ok(m@),
        Err(e) => Err(e@),
    }
}

pub fn default_path_modal_for(row: &Row, saved_option: &str, pane_path: &str) -> (r: Result<
    Modal,
    String,
>)
    ensures
        modal_result_view(r) == spec_default_path_modal(row@, saved_option@, pane_path@),
{
    let (target, name) = match session_from_row(row) {
        Some(p) => p,
        None => return Err(lit("restore saved session before changing path")),
    };
    Ok(
        Modal::Input {
            title: concat("default path for ", name.as_str()),
            value: default_path_for_row(row, saved_option, pane_path),
            action: InputAction::SetDefaultPath { target, name },
        },
    )
}

/// The input that adds a window to a row's session (or a session, with
/// `s:name`). The directory it starts in is the saved layout's default path,
/// the current path of the active pane for the watch header (`pane_path`),
/// and the row's default path otherwise.
pub open spec fn spec_add_modal(r: RowV, saved_option: Seq<char>, pane_path: Seq<char>) -> ModalV {
    let session = spec_session_from_row(r);
    let cwd = match r {
        RowV::SavedSession(s) => s.default_path,
        RowV::WatchHeader => trim(pane_path),
        _ => spec_default_path(r, saved_option, pane_path),
    };
    ModalV::Input {
        title: match session {
            Some((_, name)) => "add in "@ + name + ": window name, or s:name"@,
            None => "add: s:name for session"@,
        },
        value: Seq::empty(),
        action: InputActionV::AddTarget {
            session_target: match session {
                Some((t, _)) => Some(t),
                None => None,
            },
            session_name: match session {
                Some((_, n)) => Some(n),
                None => None,
            },
            cwd,
        },
    }
}

pub fn add_modal_for(row: &Row, saved_option: &str, pane_path: &str) -> (r: Modal)
    ensures
        r@ == spec_add_modal(row@, saved_option@, pane_path@),
{
    let session = session_from_row(row);
    let cwd = match row {
        Row::SavedSession(s) => copy_string(&s.default_path),
        Row::WatchHeader => trimmed(pane_path),
        _ => default_path_for_row(row, saved_option, pane_path),
    };
    let title = match &session {
        Some((_, name)) => {
            let mut t = lit("add in ");
            push_str(&mut t, name.as_str());
            push_str(&mut t, ": window name, or s:name");
            t
        },
        None => lit("add: s:name for session"),
    };
    let (session_target, session_name) = match session {
        Some((t, n)) => (Some(t), Some(n)),
        None => (None, None),
    };
    Modal::Input {
        title,
        value: String::new(),
        action: InputAction::AddTarget { session_target, session_name, cwd },
    }
}

/// The confirmation for deleting what a row shows.
pub open spec fn spec_delete_modal(r: RowV) -> ModalV {
    match r {
        RowV::WatchHeader => ModalV::Closed,
        RowV::SavedSession(s) => ModalV::Confirm {
            title: "delete saved session "@ + s.name + "?"@,
            action: ConfirmActionV::DeleteSaved { name: s.name },
        },
        RowV::WatchWindow(w) => window_delete_modal(w),
        RowV::Window(w) => window_delete_modal(w),
        RowV::Session(s) => ModalV::Confirm {
            title: "delete/kill session "@ + s.name + "?"@,
            action: ConfirmActionV::KillSession { target: s.id, name: s.name },
        },
    }
}

pub open spec fn window_delete_modal(w: WindowV) -> ModalV {
    ModalV::Confirm {
        title: "delete window "@ + w.index + ":"@ + w.name + "?"@,
        action: ConfirmActionV::KillWindow { target: w.id, name: w.index + ":"@ + w.name },
    }
}

fn window_delete_modal_exec(w: &Window) -> (r: Modal)
    ensures
        r@ == window_delete_modal(w@),
{
    let mut label = copy_string(&w.index);
    push_str(&mut label, ":");
    push_str(&mut label, w.name.as_str());
    let mut title = lit("delete window ");
    push_str(&mut title, label.as_str());
    push_str(&mut title, "?");
    assert(title@ =~= "delete window "@ + w.index@ + ":"@ + w.name@ + "?"@);
    Modal::Confirm { title, action: ConfirmAction::KillWindow { target: copy_string(&w.id), name: label } }
}

pub fn delete_modal_for(row: &Row) -> (r: Modal)
    ensures
        r@ == spec_delete_modal(row@),
{
    match row {
        Row::WatchHeader => Modal::Closed,
        Row::SavedSession(s) => {
            let mut title = lit("delete saved session ");
            push_str(&mut title, s.name.as_str());
            push_str(&mut title, "?");
            Modal::Confirm { title, action: ConfirmAction::DeleteSaved { name: copy_string(&s.name) } }
        },
        Row::WatchWindow(w) => window_delete_modal_exec(w),
        Row::Window(w) => window_delete_modal_exec(w),
        Row::Session(s) => {
            let mut title = lit("delete/kill session ");
            push_str(&mut title, s.name.as_str());
            push_str(&mut title, "?");
            Modal::Confirm {
                title,
                action: ConfirmAction::KillSession {
                    target: copy_string(&s.id),
                    name: copy_string(&s.name),
                },
            }
        },
    }
}

/// The position of the first (watched or listed) row of window `id`.
pub open spec fn window_position(rows: Seq<RowV>, id: Seq<char>, from: int) -> Option<int>
    decreases rows.len() - from,
{
    if from < 0 || from >= rows.len() {
        None
    } else if (rows[from] matches RowV::Window(w) && w.id == id) || (rows[from] matches RowV::WatchWindow(
        w,
    ) && w.id == id) {
        Some(from)
    } else {
        window_position(rows, id, from + 1)
    }
}

/// Where the cursor starts: on the row of the current window (tmux's
/// `#{window_id}`, trimmed), else on the first selectable row.
pub open spec fn spec_index_for_current_window(rows: Seq<RowV>, current_window: Seq<char>) -> int {
    let first = match next_selectable(rows, 0) {
        Some(i) => i,
        None => 0,
    };
    if trim(current_window).len() == 0 {
        first
    } else {
        match window_position(rows, trim(current_window), 0) {
            Some(i) => i,
            None => first,
        }
    }
}

pub fn selected_index_for_current_window(rows: &[Row], current_window: &str) -> (r: usize)
    ensures
        r == spec_index_for_current_window(row_views(rows@), current_window@),
{
    let cw = trimmed(current_window);
    if cw.as_str().is_empty() {
        return first_selectable(rows);
    }
    let ghost rv = row_views(rows@);
    let mut i: usize = 0;
    while i < rows.len()
        invariant
            i <= rows@.len(),
            rv == row_views(rows@),
            cw@ == trim(current_window@),
            cw@.len() > 0,
            window_position(rv, cw@, 0) == window_position(rv, cw@, i as int),
        decreases rows.len() - i,
    {
        assert(rv[i as int] == rows@[i as int]@);
        let hit = match &rows[i] {
            Row::Window(w) => eq_str(w.id.as_str(), cw.as_str()),
            Row::WatchWindow(w) => eq_str(w.id.as_str(), cw.as_str()),
            _ => false,
        };
        if hit {
            assert(window_position(rv, cw@, i as int) == Some(i as int));
            return i;
        }
        i += 1;
    }
    first_selectable(rows)
}

// ---------------------------------------------------------------------------
// reloading
/// Where the selection goes after a reload: back to the row that had the
/// key of the previously selected row, then clamped.
pub open spec fn spec_reselect(previous_key: Option<Seq<char>>, selected: nat, rows: Seq<RowV>) -> nat {
    let moved: nat = match previous_key {
        Some(k) => match index_for_key(rows, k, 0) {
            Some(i) => i as nat,
            None => selected,
        },
        None => selected,
    };
    spec_clamp(moved, rows)
}

pub fn reload_rows_into(
    rows: &mut Vec<Row>,
    current_session: &str,
    sessions_raw: &str,
    windows_raw: &str,
    expanded: &ExpandedState,
    watchlist: &StrSet,
    window_labels: &LabelMap,
    saved_sessions: &[SavedSession],
    show_hidden: bool,
)
    ensures
        row_views(final(rows)@) == spec_load_rows(
            current_session@,
            sessions_raw@,
            windows_raw@,
            expanded@,
            watchlist@,
            window_labels@,
            saved_views(saved_sessions@),
            show_hidden,
        ),
{
    *rows = load_rows(
        current_session,
        sessions_raw,
        windows_raw,
        expanded,
        watchlist,
        window_labels,
        saved_sessions,
        show_hidden,
    );
}

/// Reloads the rows and keeps the selection on the same row where it still
/// exists.
pub fn reload_rows_clamped(
    rows: &mut Vec<Row>,
    selected: &mut usize,
    current_session: &str,
    sessions_raw: &str,
    windows_raw: &str,
    expanded: &ExpandedState,
    watchlist: &StrSet,
    window_labels: &LabelMap,
    saved_sessions: &[SavedSession],
    show_hidden: bool,
)
    ensures
        row_views(final(rows)@) == spec_load_rows(
            current_session@,
            sessions_raw@,
            windows_raw@,
            expanded@,
            watchlist@,
            window_labels@,
            saved_views(saved_sessions@),
            show_hidden,
        ),
        *final(selected) == spec_reselect(
            if *old(selected) < old(rows)@.len() {
                Some(spec_row_key(old(rows)@[*old(selected) as int]@))
            } else {
                None
            },
            *old(selected) as nat,
            row_views(final(rows)@),
        ),
{
    let key = if *selected < rows.len() {
        Some(row_key(&rows[*selected]))
    } else {
        None
    };
    reload_rows_into(
        rows,
        current_session,
        sessions_raw,
        windows_raw,
        expanded,
        watchlist,
        window_labels,
        saved_sessions,
        show_hidden,
    );
    if let Some(key) = key {
        if let Some(idx) = selected_index_for_key(rows.as_slice(), key.as_str()) {
            *selected = idx;
        }
    }
    clamp_selected(selected, rows.as_slice());
}

proof fn lemma_index_for_key(rows: Seq<RowV>, key: Seq<char>, from: int)
    requires
        0 <= from,
    ensures
        index_for_key(rows, key, from) matches Some(i) ==> from <= i < rows.len() && row_selectable(rows[i])
            && spec_row_key(rows[i]) == key,
    decreases rows.len() - from,
{
    if from < rows.len() && !(row_selectable(rows[from]) && spec_row_key(rows[from]) == key) {
        lemma_index_for_key(rows, key, from + 1);
    }
}

/// After a reload the selection is back on the row that was selected, when
/// that row (by its key) is still there.
pub proof fn law_reselect_keeps_row(key: Seq<char>, selected: nat, rows: Seq<RowV>)
    requires
        index_for_key(rows, key, 0) is Some,
    ensures
        spec_reselect(Some(key), selected, rows) == index_for_key(rows, key, 0).unwrap(),
        spec_row_key(rows[spec_reselect(Some(key), selected, rows) as int]) == key,
{
    lemma_index_for_key(rows, key, 0);
}

// ---------------------------------------------------------------------------
// hidden sessions stay hidden
/// A row that shows nothing of a hidden session.
pub open spec fn row_not_hidden(r: RowV) -> bool {
    match r {
        RowV::Session(s) => !spec_session_is_hidden(s.name),
        RowV::Window(w) => !spec_session_is_hidden(w.session_name),
        RowV::WatchWindow(w) => !spec_session_is_hidden(w.session_name),
        RowV::SavedSession(s) => !spec_session_is_hidden(s.name),
        RowV::WatchHeader => true,
    }
}

pub open spec fn all_rows_not_hidden(rs: Seq<RowV>) -> bool {
    forall|j: int| 0 <= j < rs.len() ==> row_not_hidden(#[trigger] rs[j])
}

proof fn lemma_concat_not_hidden(a: Seq<RowV>, b: Seq<RowV>)
    requires
        all_rows_not_hidden(a),
        all_rows_not_hidden(b),
    ensures
        all_rows_not_hidden(a + b),
{
    assert forall|j: int| 0 <= j < (a + b).len() implies row_not_hidden(#[trigger] (a + b)[j]) by {
        if j < a.len() {
            assert((a + b)[j] == a[j]);
        } else {
            assert((a + b)[j] == b[j - a.len()]);
        }
    }
}

proof fn lemma_parsed_windows_shown(ls: Seq<Seq<char>>, labels: Map<Seq<char>, Seq<Seq<char>>>)
    ensures
        forall|i: int|
            0 <= i < parsed_windows(ls, false, labels).len() ==> !spec_session_is_hidden(
                (#[trigger] parsed_windows(ls, false, labels)[i]).session_name,
            ),
    decreases ls.len(),
{
    if ls.len() > 0 {
        lemma_parsed_windows_shown(ls.drop_last(), labels);
        let rest = parsed_windows(ls.drop_last(), false, labels);
        let all = parsed_windows(ls, false, labels);
        assert forall|i: int| 0 <= i < all.len() implies !spec_session_is_hidden(
            (#[trigger] all[i]).session_name,
        ) by {
            if i < rest.len() {
                assert(all[i] == rest[i]);
            }
        }
    }
}

proof fn lemma_parsed_sessions_shown(ls: Seq<Seq<char>>, current: Seq<char>, saved: Seq<SavedSessionV>)
    ensures
        forall|i: int|
            0 <= i < parsed_sessions(ls, current, saved, false).len() ==> !spec_session_is_hidden(
                (#[trigger] parsed_sessions(ls, current, saved, false)[i]).name,
            ),
    decreases ls.len(),
{
    if ls.len() > 0 {
        lemma_parsed_sessions_shown(ls.drop_last(), current, saved);
    }
}

proof fn lemma_watched_members(ws: Seq<WindowV>, watch: Set<Seq<char>>)
    ensures
        forall|v: WindowV| #[trigger] watched_of(ws, watch).contains(v) ==> ws.contains(v),
    decreases ws.len(),
{
    if ws.len() > 0 {
        lemma_watched_members(ws.drop_last(), watch);
        assert forall|v: WindowV| #[trigger] watched_of(ws, watch).contains(v) implies ws.contains(v) by {
            if v == ws.last() {
                assert(ws[ws.len() - 1] == v);
            } else {
                assert(watched_of(ws.drop_last(), watch).contains(v));
                let m = choose|m: int| 0 <= m < ws.drop_last().len() && ws.drop_last()[m] == v;
                assert(ws[m] == v);
            }
        }
    }
}

proof fn lemma_window_rows_shown(ws: Seq<WindowV>, sid: Seq<char>, depth: nat)
    requires
        forall|i: int| 0 <= i < ws.len() ==> !spec_session_is_hidden((#[trigger] ws[i]).session_name),
    ensures
        all_rows_not_hidden(window_rows(ws, sid, depth)),
    decreases ws.len(),
{
    if ws.len() > 0 {
        lemma_window_rows_shown(ws.drop_last(), sid, depth);
        assert(ws.last() == ws[ws.len() - 1]);
    }
}

proof fn lemma_kid_range(ss: Seq<SessionV>, visible: Set<Seq<char>>, parent: Option<Seq<char>>, n: int)
    ensures
        forall|j: int|
            0 <= j < kid_indices(ss, visible, parent, n).len() ==> 0 <= #[trigger] kid_indices(
                ss,
                visible,
                parent,
                n,
            )[j] < n,
    decreases n,
{
    if n > 0 {
        lemma_kid_range(ss, visible, parent, n - 1);
        let rest = kid_indices(ss, visible, parent, n - 1);
        let all = kid_indices(ss, visible, parent, n);
        assert forall|j: int| 0 <= j < all.len() implies 0 <= #[trigger] all[j] < n by {
            if j < rest.len() {
                assert(all[j] == rest[j]);
            }
        }
    }
}

proof fn lemma_forest_shown(
    ss: Seq<SessionV>,
    visible: Set<Seq<char>>,
    ws: Seq<WindowV>,
    ex: Map<Seq<char>, bool>,
    kids: Seq<int>,
    depth: nat,
    limit: nat,
)
    requires
        forall|j: int| 0 <= j < kids.len() ==> 0 <= #[trigger] kids[j] < ss.len(),
        forall|i: int| 0 <= i < ss.len() ==> !spec_session_is_hidden((#[trigger] ss[i]).name),
        forall|i: int| 0 <= i < ws.len() ==> !spec_session_is_hidden((#[trigger] ws[i]).session_name),
    ensures
        all_rows_not_hidden(forest_rows(ss, visible, ws, ex, kids, depth, limit)),
    decreases limit - depth, kids.len(),
{
    if kids.len() > 0 && depth < limit {
        let s = ss[kids[0]];
        let children = kid_indices(ss, visible, Some(s.name), ss.len() as int);
        lemma_kid_range(ss, visible, Some(s.name), ss.len() as int);
        lemma_forest_shown(ss, visible, ws, ex, children, depth + 1, limit);
        lemma_window_rows_shown(ws, s.id, depth);
        lemma_concat_not_hidden(
            window_rows(ws, s.id, depth),
            forest_rows(ss, visible, ws, ex, children, depth + 1, limit),
        );
        assert forall|j: int| 0 <= j < kids.drop_first().len() implies 0 <= #[trigger] kids.drop_first()[j]
            < ss.len() by {
            assert(kids.drop_first()[j] == kids[j + 1]);
        }
        lemma_forest_shown(ss, visible, ws, ex, kids.drop_first(), depth, limit);
        let node = seq![node_row(s, visible, depth)];
        assert(all_rows_not_hidden(node)) by {
            assert(node[0] == node_row(s, visible, depth));
        }
        let below = if expanded_flag(ex, s.name) {
            window_rows(ws, s.id, depth) + forest_rows(ss, visible, ws, ex, children, depth + 1, limit)
        } else {
            Seq::empty()
        };
        lemma_concat_not_hidden(node, below);
        lemma_concat_not_hidden(node + below, forest_rows(ss, visible, ws, ex, kids.drop_first(), depth, limit));
    }
}

proof fn lemma_saved_rows_shown(saved: Seq<SavedSessionV>, live: Set<Seq<char>>)
    ensures
        all_rows_not_hidden(saved_rows(saved, live, false)),
    decreases saved.len(),
{
    if saved.len() > 0 {
        lemma_saved_rows_shown(saved.drop_last(), live);
    }
}

/// Unless hidden sessions are asked for, no row shows a hidden session, its
/// windows, or a saved layout with a hidden name.
pub proof fn law_hidden_sessions_unlisted(
    current: Seq<char>,
    sessions_raw: Seq<char>,
    windows_raw: Seq<char>,
    ex: Map<Seq<char>, bool>,
    watch: Set<Seq<char>>,
    labels: Map<Seq<char>, Seq<Seq<char>>>,
    saved: Seq<SavedSessionV>,
)
    ensures
        all_rows_not_hidden(
            spec_load_rows(current, sessions_raw, windows_raw, ex, watch, labels, saved, false),
        ),
{
    let ws = parsed_windows(lines(windows_raw), false, labels);
    lemma_parsed_windows_shown(lines(windows_raw), labels);
    let wd = watched_windows(ws, watch);
    lemma_watched_members(ws, watch);
    crate::sort::lemma_sorted_contains(watched_of(ws, watch), order_of::<Window>());
    assert(all_rows_not_hidden(watch_rows(wd))) by {
        if wd.len() > 0 {
            let tail = watch_window_rows(wd);
            assert forall|j: int| 0 <= j < tail.len() implies row_not_hidden(#[trigger] tail[j]) by {
                assert(wd.contains(wd[j]));
                assert(watched_of(ws, watch).contains(wd[j]));
                let m = choose|m: int| 0 <= m < ws.len() && ws[m] == wd[j];
            }
            let head = seq![RowV::WatchHeader];
            assert(all_rows_not_hidden(head)) by {
                assert(head[0] == RowV::WatchHeader);
            }
            lemma_concat_not_hidden(head, tail);
        }
    }
    let ps = parsed_sessions(lines(sessions_raw), trim(current), saved, false);
    lemma_parsed_sessions_shown(lines(sessions_raw), trim(current), saved);
    let ss = sorted_sessions(sessions_raw, current, saved, false);
    crate::sort::lemma_sorted_contains(ps, order_of::<Session>());
    assert forall|i: int| 0 <= i < ss.len() implies !spec_session_is_hidden((#[trigger] ss[i]).name) by {
        assert(ss.contains(ss[i]));
        let m = choose|m: int| 0 <= m < ps.len() && ps[m] == ss[i];
    }
    let visible = names_of(ss);
    lemma_kid_range(ss, visible, None, ss.len() as int);
    lemma_forest_shown(ss, visible, ws, ex, kid_indices(ss, visible, None, ss.len() as int), 0, name_bound(ss));
    lemma_saved_rows_shown(saved, live_names(lines(sessions_raw)));
    lemma_concat_not_hidden(
        watch_rows(wd),
        forest_rows(ss, visible, ws, ex, kid_indices(ss, visible, None, ss.len() as int), 0, name_bound(ss)),
    );
    lemma_concat_not_hidden(
        watch_rows(wd) + forest_rows(
            ss,
            visible,
            ws,
            ex,
            kid_indices(ss, visible, None, ss.len() as int),
            0,
            name_bound(ss),
        ),
        saved_rows(saved, live_names(lines(sessions_raw)), false),
    );
}

// ---------------------------------------------------------------------------
// folding
/// A window row belongs to a session of `ss` that is unfolded.
pub open spec fn under_unfolded(r: RowV, ss: Seq<SessionV>, ex: Map<Seq<char>, bool>) -> bool {
    r matches RowV::Window(w) ==> exists|j: int|
        0 <= j < ss.len() && (#[trigger] ss[j]).id == w.session_id && expanded_flag(ex, ss[j].name)
}

pub open spec fn all_under_unfolded(rs: Seq<RowV>, ss: Seq<SessionV>, ex: Map<Seq<char>, bool>) -> bool {
    forall|j: int| 0 <= j < rs.len() ==> under_unfolded(#[trigger] rs[j], ss, ex)
}

proof fn lemma_concat_unfolded(a: Seq<RowV>, b: Seq<RowV>, ss: Seq<SessionV>, ex: Map<Seq<char>, bool>)
    requires
        all_under_unfolded(a, ss, ex),
        all_under_unfolded(b, ss, ex),
    ensures
        all_under_unfolded(a + b, ss, ex),
{
    assert forall|j: int| 0 <= j < (a + b).len() implies under_unfolded(#[trigger] (a + b)[j], ss, ex) by {
        if j < a.len() {
            assert((a + b)[j] == a[j]);
        } else {
            assert((a + b)[j] == b[j - a.len()]);
        }
    }
}

proof fn lemma_window_rows_of(ws: Seq<WindowV>, sid: Seq<char>, depth: nat)
    ensures
        forall|i: int|
            0 <= i < window_rows(ws, sid, depth).len() ==> ((#[trigger] window_rows(ws, sid, depth)[i]) matches RowV::Window(
                w,
            ) && w.session_id == sid),
    decreases ws.len(),
{
    if ws.len() > 0 {
        lemma_window_rows_of(ws.drop_last(), sid, depth);
        let rest = window_rows(ws.drop_last(), sid, depth);
        let all = window_rows(ws, sid, depth);
        assert forall|i: int| 0 <= i < all.len() implies ((#[trigger] all[i]) matches RowV::Window(w)
            && w.session_id == sid) by {
            if i < rest.len() {
                assert(all[i] == rest[i]);
            }
        }
    }
}

proof fn lemma_forest_unfolded(
    ss: Seq<SessionV>,
    visible: Set<Seq<char>>,
    ws: Seq<WindowV>,
    ex: Map<Seq<char>, bool>,
    kids: Seq<int>,
    depth: nat,
    limit: nat,
)
    requires
        forall|j: int| 0 <= j < kids.len() ==> 0 <= #[trigger] kids[j] < ss.len(),
    ensures
        all_under_unfolded(forest_rows(ss, visible, ws, ex, kids, depth, limit), ss, ex),
    decreases limit - depth, kids.len(),
{
    if kids.len() > 0 && depth < limit {
        let k = kids[0];
        let s = ss[k];
        let children = kid_indices(ss, visible, Some(s.name), ss.len() as int);
        lemma_kid_range(ss, visible, Some(s.name), ss.len() as int);
        lemma_forest_unfolded(ss, visible, ws, ex, children, depth + 1, limit);
        assert forall|j: int| 0 <= j < kids.drop_first().len() implies 0 <= #[trigger] kids.drop_first()[j]
            < ss.len() by {
            assert(kids.drop_first()[j] == kids[j + 1]);
        }
        lemma_forest_unfolded(ss, visible, ws, ex, kids.drop_first(), depth, limit);
        let node = seq![node_row(s, visible, depth)];
        assert(all_under_unfolded(node, ss, ex)) by {
            assert(node[0] == node_row(s, visible, depth));
        }
        if expanded_flag(ex, s.name) {
            let wr = window_rows(ws, s.id, depth);
            lemma_window_rows_of(ws, s.id, depth);
            assert forall|j: int| 0 <= j < wr.len() implies under_unfolded(#[trigger] wr[j], ss, ex) by {
                assert(0 <= k < ss.len() && ss[k].id == s.id && expanded_flag(ex, ss[k].name));
            }
            lemma_concat_unfolded(wr, forest_rows(ss, visible, ws, ex, children, depth + 1, limit), ss, ex);
            lemma_concat_unfolded(node, wr + forest_rows(ss, visible, ws, ex, children, depth + 1, limit), ss, ex);
        } else {
            assert(node + Seq::<RowV>::empty() =~= node);
        }
        let below = if expanded_flag(ex, s.name) {
            window_rows(ws, s.id, depth) + forest_rows(ss, visible, ws, ex, children, depth + 1, limit)
        } else {
            Seq::empty()
        };
        lemma_concat_unfolded(node + below, forest_rows(ss, visible, ws, ex, kids.drop_first(), depth, limit), ss, ex);
    }
}

proof fn lemma_saved_rows_unfolded(saved: Seq<SavedSessionV>, live: Set<Seq<char>>, show_hidden: bool, ss: Seq<SessionV>, ex: Map<Seq<char>, bool>)
    ensures
        all_under_unfolded(saved_rows(saved, live, show_hidden), ss, ex),
    decreases saved.len(),
{
    if saved.len() > 0 {
        lemma_saved_rows_unfolded(saved.drop_last(), live, show_hidden, ss, ex);
        let rest = saved_rows(saved.drop_last(), live, show_hidden);
        let all = saved_rows(saved, live, show_hidden);
        assert forall|j: int| 0 <= j < all.len() implies under_unfolded(#[trigger] all[j], ss, ex) by {
            if j < rest.len() {
                assert(all[j] == rest[j]);
            }
        }
    }
}

/// Folding a session hides its windows: every window row of the list
/// belongs to a listed session that is unfolded.
pub proof fn law_folded_windows_unlisted(
    current: Seq<char>,
    sessions_raw: Seq<char>,
    windows_raw: Seq<char>,
    ex: Map<Seq<char>, bool>,
    watch: Set<Seq<char>>,
    labels: Map<Seq<char>, Seq<Seq<char>>>,
    saved: Seq<SavedSessionV>,
    show_hidden: bool,
)
    ensures
        all_under_unfolded(
            spec_load_rows(current, sessions_raw, windows_raw, ex, watch, labels, saved, show_hidden),
            sorted_sessions(sessions_raw, current, saved, show_hidden),
            ex,
        ),
{
    let ws = parsed_windows(lines(windows_raw), show_hidden, labels);
    let ss = sorted_sessions(sessions_raw, current, saved, show_hidden);
    let visible = names_of(ss);
    let wd = watched_windows(ws, watch);
    assert(all_under_unfolded(watch_rows(wd), ss, ex)) by {
        if wd.len() > 0 {
            let tail = watch_window_rows(wd);
            assert forall|j: int| 0 <= j < tail.len() implies under_unfolded(#[trigger] tail[j], ss, ex) by {}
            let head = seq![RowV::WatchHeader];
            assert(all_under_unfolded(head, ss, ex)) by {
                assert(head[0] == RowV::WatchHeader);
            }
            lemma_concat_unfolded(head, tail, ss, ex);
        }
    }
    let forest = forest_rows(ss, visible, ws, ex, kid_indices(ss, visible, None, ss.len() as int), 0, name_bound(ss));
    lemma_kid_range(ss, visible, None, ss.len() as int);
    lemma_forest_unfolded(ss, visible, ws, ex, kid_indices(ss, visible, None, ss.len() as int), 0, name_bound(ss));
    lemma_saved_rows_unfolded(saved, live_names(lines(sessions_raw)), show_hidden, ss, ex);
    lemma_concat_unfolded(watch_rows(wd), forest, ss, ex);
    lemma_concat_unfolded(watch_rows(wd) + forest, saved_rows(saved, live_names(lines(sessions_raw)), show_hidden), ss, ex);
}

// ---------------------------------------------------------------------------
// the watch section's order
pub open spec fn no_watched_row(rs: Seq<RowV>) -> bool {
    forall|j: int| 0 <= j < rs.len() ==> !(#[trigger] rs[j] is WatchWindow)
}

proof fn lemma_concat_no_watched(a: Seq<RowV>, b: Seq<RowV>)
    requires
        no_watched_row(a),
        no_watched_row(b),
    ensures
        no_watched_row(a + b),
{
    assert forall|j: int| 0 <= j < (a + b).len() implies !(#[trigger] (a + b)[j] is WatchWindow) by {
        if j < a.len() {
            assert((a + b)[j] == a[j]);
        } else {
            assert((a + b)[j] == b[j - a.len()]);
        }
    }
}

proof fn lemma_forest_no_watched(
    ss: Seq<SessionV>,
    visible: Set<Seq<char>>,
    ws: Seq<WindowV>,
    ex: Map<Seq<char>, bool>,
    kids: Seq<int>,
    depth: nat,
    limit: nat,
)
    ensures
        no_watched_row(forest_rows(ss, visible, ws, ex, kids, depth, limit)),
    decreases limit - depth, kids.len(),
{
    if kids.len() > 0 && depth < limit {
        let s = ss[kids[0]];
        let children = kid_indices(ss, visible, Some(s.name), ss.len() as int);
        lemma_forest_no_watched(ss, visible, ws, ex, children, depth + 1, limit);
        lemma_forest_no_watched(ss, visible, ws, ex, kids.drop_first(), depth, limit);
        lemma_window_rows_of(ws, s.id, depth);
        let wr = window_rows(ws, s.id, depth);
        assert(no_watched_row(wr)) by {
            assert forall|j: int| 0 <= j < wr.len() implies !(#[trigger] wr[j] is WatchWindow) by {
                assert(wr[j] matches RowV::Window(w) && w.session_id == s.id);
            }
        }
        let node = seq![node_row(s, visible, depth)];
        assert(no_watched_row(node)) by {
            assert(node[0] == node_row(s, visible, depth));
        }
        lemma_concat_no_watched(wr, forest_rows(ss, visible, ws, ex, children, depth + 1, limit));
        let below = if expanded_flag(ex, s.name) {
            wr + forest_rows(ss, visible, ws, ex, children, depth + 1, limit)
        } else {
            Seq::empty()
        };
        assert(no_watched_row(below));
        lemma_concat_no_watched(node, below);
        lemma_concat_no_watched(node + below, forest_rows(ss, visible, ws, ex, kids.drop_first(), depth, limit));
    }
}

proof fn lemma_saved_no_watched(saved: Seq<SavedSessionV>, live: Set<Seq<char>>, show_hidden: bool)
    ensures
        no_watched_row(saved_rows(saved, live, show_hidden)),
    decreases saved.len(),
{
    if saved.len() > 0 {
        lemma_saved_no_watched(saved.drop_last(), live, show_hidden);
        let rest = saved_rows(saved.drop_last(), live, show_hidden);
        let all = saved_rows(saved, live, show_hidden);
        assert forall|j: int| 0 <= j < all.len() implies !(#[trigger] all[j] is WatchWindow) by {
            if j < rest.len() {
                assert(all[j] == rest[j]);
            }
        }
    }
}

/// The watched windows are listed by session name, and by window index
/// within a session (both compared as strings): of two watched rows, the
/// first never has a later session name, nor, under the same session name,
/// a later index.
pub proof fn law_watched_windows_ordered(
    current: Seq<char>,
    sessions_raw: Seq<char>,
    windows_raw: Seq<char>,
    ex: Map<Seq<char>, bool>,
    watch: Set<Seq<char>>,
    labels: Map<Seq<char>, Seq<Seq<char>>>,
    saved: Seq<SavedSessionV>,
    show_hidden: bool,
    i: int,
    j: int,
)
    requires
        0 <= i < j < spec_load_rows(current, sessions_raw, windows_raw, ex, watch, labels, saved, show_hidden).len(),
        spec_load_rows(current, sessions_raw, windows_raw, ex, watch, labels, saved, show_hidden)[i] is WatchWindow,
        spec_load_rows(current, sessions_raw, windows_raw, ex, watch, labels, saved, show_hidden)[j] is WatchWindow,
    ensures
        ({
            let rows = spec_load_rows(current, sessions_raw, windows_raw, ex, watch, labels, saved, show_hidden);
            let a = rows[i]->WatchWindow_0;
            let b = rows[j]->WatchWindow_0;
            ||| str_lt(a.session_name, b.session_name)
            ||| (a.session_name == b.session_name && (a.index == b.index || str_lt(a.index, b.index)))
        }),
{
    let rows = spec_load_rows(current, sessions_raw, windows_raw, ex, watch, labels, saved, show_hidden);
    let ws = parsed_windows(lines(windows_raw), show_hidden, labels);
    let ss = sorted_sessions(sessions_raw, current, saved, show_hidden);
    let visible = names_of(ss);
    let wd = watched_windows(ws, watch);
    let head = watch_rows(wd);
    let forest = forest_rows(ss, visible, ws, ex, kid_indices(ss, visible, None, ss.len() as int), 0, name_bound(ss));
    let tail = saved_rows(saved, live_names(lines(sessions_raw)), show_hidden);
    lemma_forest_no_watched(ss, visible, ws, ex, kid_indices(ss, visible, None, ss.len() as int), 0, name_bound(ss));
    lemma_saved_no_watched(saved, live_names(lines(sessions_raw)), show_hidden);
    lemma_concat_no_watched(forest, tail);
    assert(rows == head + (forest + tail));
    // both rows lie in the watch section
    if i >= head.len() {
        assert(rows[i] == (forest + tail)[i - head.len()]);
    }
    if j >= head.len() {
        assert(rows[j] == (forest + tail)[j - head.len()]);
    }
    assert(wd.len() > 0);
    assert(head[0] == RowV::WatchHeader);
    assert(i >= 1);
    assert(rows[i] == head[i] && rows[j] == head[j]);
    assert(head[i] == RowV::WatchWindow(wd[i - 1]));
    assert(head[j] == RowV::WatchWindow(wd[j - 1]));
    // the section is sorted
    let lt = order_of::<Window>();
    assert forall|x: WindowV| !#[trigger] lt(x, x) by {
        crate::order::lemma_str_lt_irreflexive(x.session_name);
        crate::order::lemma_str_lt_irreflexive(x.index);
    }
    assert forall|x: WindowV, y: WindowV, z: WindowV| #[trigger] lt(x, y) && #[trigger] lt(y, z) implies lt(x, z) by {
        if str_lt(x.session_name, y.session_name) && str_lt(y.session_name, z.session_name) {
            crate::order::lemma_str_lt_transitive(x.session_name, y.session_name, z.session_name);
        }
        if str_lt(x.index, y.index) && str_lt(y.index, z.index) {
            crate::order::lemma_str_lt_transitive(x.index, y.index, z.index);
        }
    }
    crate::sort::lemma_sorted_stably_sorted(watched_of(ws, watch), lt);
    let a = wd[i - 1];
    let b = wd[j - 1];
    assert(!lt(b, a));
    crate::order::lemma_str_lt_total(a.session_name, b.session_name);
    crate::order::lemma_str_lt_total(a.index, b.index);
}

} // verus!
