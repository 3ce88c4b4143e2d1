use vstd::prelude::*;
use crate::model::{Row, RowV, SavedSession, SavedSessionV};
use crate::num::{decimal, parse_usize, parse_usize_exec, usize_text};
use crate::strs::{
    concat, copy_string, eq_str, is_empty_str, lines, lit, push_spaces, push_str, spaces, split,
    split_char, split_lines, str_views, to_strings, trim, trimmed, views,
};
use crate::text::{
    plain_truncate, spec_plain_truncate, spec_text_width, spec_visible_truncate, text_width,
    truncates_cleanly, visible_truncate_ansi,
};
use crate::sort::{order_of, seq_views, sorted_stably, stable_sort, Sortable};
use crate::util::{session_display_name, spec_session_display_name};

verus! {

// ---------------------------------------------------------------------------
// pane captures
pub open spec fn blank_line(l: Seq<char>) -> bool {
    trim(l).len() == 0
}

/// The lines without the blank ones at the end.
pub open spec fn drop_blank_tail(ls: Seq<Seq<char>>) -> Seq<Seq<char>>
    decreases ls.len(),
{
    if ls.len() > 0 && blank_line(ls.last()) {
        drop_blank_tail(ls.drop_last())
    } else {
        ls
    }
}

/// The last `n` lines of `text` once the blank lines at its end are gone.
pub open spec fn spec_tail_nonempty(text: Seq<char>, n: nat) -> Seq<Seq<char>> {
    let v = drop_blank_tail(lines(text));
    if v.len() > n {
        v.skip(v.len() - n)
    } else {
        v
    }
}

pub fn tail_nonempty_lines(text: &str, lines: usize) -> (r: Vec<String>)
    ensures
        views(r@) == spec_tail_nonempty(text@, lines as nat),
{
    let mut v = split_lines(text);
    while v.len() > 0 && is_empty_str(trimmed(v[v.len() - 1].as_str()).as_str())
        invariant
            drop_blank_tail(crate::strs::lines(text@)) == drop_blank_tail(views(v@)),
        decreases v.len(),
    {
        let ghost before = views(v@);
        v.pop();
        assert(views(v@) =~= before.drop_last());
    }
    assert(drop_blank_tail(views(v@)) == views(v@));
    if v.len() > lines {
        let mut out: Vec<String> = Vec::new();
        let start = v.len() - lines;
        let mut i = start;
        while i < v.len()
            invariant
                start <= i <= v@.len(),
                views(out@) == views(v@).subrange(start as int, i as int),
            decreases v.len() - i,
        {
            push_text(&mut out, copy_string(&v[i]));
            assert(views(out@) =~= views(v@).subrange(start as int, i + 1));
            i += 1;
        }
        assert(views(v@).skip(start as int) =~= views(v@).subrange(start as int, v@.len() as int));
        out
    } else {
        v
    }
}

/// How many lines back a capture starts: twice the lines shown (at most
/// `usize::MAX`), so that blank lines at the bottom can be dropped.
pub open spec fn capture_start(lines: nat) -> nat {
    if 2 * lines > usize::MAX {
        usize::MAX as nat
    } else {
        2 * lines
    }
}

/// The tmux arguments that capture a pane with its colours, for showing its
/// last `lines` lines (`tail_nonempty_lines` keeps those).
pub fn capture_preview(target: &str, lines: usize) -> (r: Vec<String>)
    ensures
        views(r@) == seq![
            "capture-pane"@,
            "-ep"@,
            "-S"@,
            "-"@ + decimal(capture_start(lines as nat)),
            "-t"@,
            target@,
        ],
{
    let start = if lines > usize::MAX / 2 {
        usize::MAX
    } else {
        lines * 2
    };
    assert(start == capture_start(lines as nat));
    let n = usize_text(start);
    let s = concat("-", n.as_str());
    let r = to_strings(&["capture-pane", "-ep", "-S", s.as_str(), "-t", target]);
    assert(views(r@) =~= seq!["capture-pane"@, "-ep"@, "-S"@, s@, "-t"@, target@]);
    r
}

// ---------------------------------------------------------------------------
// pane geometry
/// Where a pane lies in its window, in cells.
#[derive(Clone, Debug, PartialEq, Eq)]
pub struct PaneGeom {
    pub id: String,
    pub left: usize,
    pub top: usize,
    pub width: usize,
    pub height: usize,
}

pub struct PaneGeomV {
    pub id: Seq<char>,
    pub left: usize,
    pub top: usize,
    pub width: usize,
    pub height: usize,
}

impl View for PaneGeom {
    type V = PaneGeomV;

    open spec fn view(&self) -> PaneGeomV {
        PaneGeomV { id: self.id@, left: self.left, top: self.top, width: self.width, height: self.height }
    }
}

pub open spec fn geom_views(v: Seq<PaneGeom>) -> Seq<PaneGeomV> {
    v.map_values(|g: PaneGeom| g@)
}

/// The pane a line of `list-panes` (id, left, top, width, height) gives,
/// when it has five fields and the four numbers read.
pub open spec fn pane_of_line(line: Seq<char>) -> Option<PaneGeomV> {
    let p = split(line, '\t');
    if p.len() < 5 {
        None
    } else {
        match (parse_usize(p[1]), parse_usize(p[2]), parse_usize(p[3]), parse_usize(p[4])) {
            (Some(l), Some(t), Some(w), Some(h)) => Some(
                PaneGeomV { id: p[0], left: l as usize, top: t as usize, width: w as usize, height: h as usize },
            ),
            _ => None,
        }
    }
}

pub open spec fn parsed_panes(ls: Seq<Seq<char>>) -> Seq<PaneGeomV>
    decreases ls.len(),
{
    if ls.len() == 0 {
        Seq::empty()
    } else {
        let rest = parsed_panes(ls.drop_last());
        match pane_of_line(ls.last()) {
            Some(g) => rest.push(g),
            None => rest,
        }
    }
}

/// The panes of a window, from tmux's `list-panes` lines.
pub fn window_panes(panes_raw: &str) -> (r: Vec<PaneGeom>)
    ensures
        geom_views(r@) == parsed_panes(lines(panes_raw@)),
{
    let ls = split_lines(panes_raw);
    let ghost lv = views(ls@);
    let mut out: Vec<PaneGeom> = Vec::new();
    let mut k: usize = 0;
    while k < ls.len()
        invariant
            k <= ls@.len(),
            lv == views(ls@),
            lv == lines(panes_raw@),
            geom_views(out@) == parsed_panes(lv.take(k as int)),
        decreases ls.len() - k,
    {
        assert(lv.take(k + 1).drop_last() =~= lv.take(k as int));
        assert(lv.take(k + 1).last() == ls@[k as int]@);
        let parts = split_char(ls[k].as_str(), '\t');
        let ghost sp = split(ls@[k as int]@, '\t');
        assert(views(parts@) == sp);
        if parts.len() >= 5 {
            assert(parts@[1]@ == sp[1] && parts@[2]@ == sp[2] && parts@[3]@ == sp[3]);
            assert(parts@[4]@ == sp[4] && parts@[0]@ == sp[0]);
            let l = parse_usize_exec(parts[1].as_str());
            let t = parse_usize_exec(parts[2].as_str());
            let w = parse_usize_exec(parts[3].as_str());
            let h = parse_usize_exec(parts[4].as_str());
            match (l, t, w, h) {
                (Some(l), Some(t), Some(w), Some(h)) => {
                    let g = PaneGeom { id: copy_string(&parts[0]), left: l, top: t, width: w, height: h };
                    let ghost before = geom_views(out@);
                    out.push(g);
                    assert(geom_views(out@) =~= before.push(g@));
                },
                _ => {},
            }
        }
        k += 1;
    }
    assert(lv.take(k as int) =~= lv);
    out
}

/// The active window of a session, from the `list-windows` lines (window
/// id, active flag): the first marked `1`.
pub open spec fn active_window_in(ls: Seq<Seq<char>>) -> Option<Seq<char>>
    decreases ls.len(),
{
    if ls.len() == 0 {
        None
    } else {
        let p = split(ls[0], '\t');
        if p.len() >= 2 && p[1] == "1"@ {
            Some(p[0])
        } else {
            active_window_in(ls.drop_first())
        }
    }
}

pub fn active_window_for_session(windows_raw: &str) -> (r: Option<String>)
    ensures
        crate::state::opt_string(r) == active_window_in(lines(windows_raw@)),
{
    let ls = split_lines(windows_raw);
    let ghost lv = views(ls@);
    let mut k: usize = 0;
    assert(lv.skip(0) =~= lv);
    while k < ls.len()
        invariant
            k <= ls@.len(),
            lv == views(ls@),
            active_window_in(lines(windows_raw@)) == active_window_in(lv.skip(k as int)),
        decreases ls.len() - k,
    {
        assert(lv.skip(k as int)[0] == ls@[k as int]@);
        assert(lv.skip(k as int).drop_first() =~= lv.skip(k + 1));
        let parts = split_char(ls[k].as_str(), '\t');
        assert(views(parts@) == split(ls@[k as int]@, '\t'));
        if parts.len() >= 2 && eq_str(parts[1].as_str(), "1") {
            assert(parts@[1]@ == split(ls@[k as int]@, '\t')[1]);
            assert(parts@[0]@ == split(ls@[k as int]@, '\t')[0]);
            return Some(copy_string(&parts[0]));
        }
        proof {
            if parts.len() >= 2 {
                assert(parts@[1]@ == split(ls@[k as int]@, '\t')[1]);
            }
        }
        k += 1;
    }
    None
}

// ---------------------------------------------------------------------------
// what the preview shows
/// What to show below the list for a row: nothing for the watch header, the
/// layout of a window, the active window of a session, a saved layout.
#[derive(Clone, Debug, PartialEq, Eq)]
pub enum PreviewSource {
    Nothing,
    /// The window with this id: its pane layout when it has several panes,
    /// else a capture of it.
    Window(String),
    /// The session with this id: its active window as for `Window`, or a
    /// capture of the session when no window is active.
    Session(String),
    /// The saved layout of the row.
    Saved,
}

pub enum PreviewSourceV {
    Nothing,
    Window(Seq<char>),
    Session(Seq<char>),
    Saved,
}

impl View for PreviewSource {
    type V = PreviewSourceV;

    open spec fn view(&self) -> PreviewSourceV {
        match self {
            PreviewSource::Nothing => PreviewSourceV::Nothing,
            PreviewSource::Window(id) => PreviewSourceV::Window(id@),
            PreviewSource::Session(id) => PreviewSourceV::Session(id@),
            PreviewSource::Saved => PreviewSourceV::Saved,
        }
    }
}

pub open spec fn spec_preview_source(r: RowV) -> PreviewSourceV {
    match r {
        RowV::WatchHeader => PreviewSourceV::Nothing,
        RowV::WatchWindow(w) => PreviewSourceV::Window(w.id),
        RowV::Window(w) => PreviewSourceV::Window(w.id),
        RowV::Session(s) => PreviewSourceV::Session(s.id),
        RowV::SavedSession(_) => PreviewSourceV::Saved,
    }
}

pub fn preview_source(row: &Row) -> (r: PreviewSource)
    ensures
        r@ == spec_preview_source(row@),
{
    match row {
        Row::WatchHeader => PreviewSource::Nothing,
        Row::WatchWindow(w) => PreviewSource::Window(copy_string(&w.id)),
        Row::Window(w) => PreviewSource::Window(copy_string(&w.id)),
        Row::Session(s) => PreviewSource::Session(copy_string(&s.id)),
        Row::SavedSession(_) => PreviewSource::Saved,
    }
}

/// The lines describing a saved layout: its name, when it was saved, the
/// number of windows, its default path when set, then every window with its
/// panes (a pane without a command runs a shell).
pub open spec fn saved_preview_lines(s: SavedSessionV) -> Seq<Seq<char>> {
    let head = seq![
        "󰆓 saved layout: "@ + spec_session_display_name(s.name),
        "last saved: "@ + s.saved_label,
        decimal(s.windows.len()) + " windows"@,
    ];
    let with_path = if s.default_path.len() > 0 {
        head.push("default path: "@ + s.default_path)
    } else {
        head
    };
    with_path.push(Seq::empty()) + saved_window_lines(s.windows)
}

pub open spec fn saved_pane_line(p: crate::model::SavedPaneV) -> Seq<char> {
    "  pane "@ + p.index + "  "@ + (if p.command.len() == 0 {
        "shell"@
    } else {
        p.command
    }) + "  "@ + p.cwd
}

pub open spec fn saved_window_lines(ws: Seq<crate::model::SavedWindowV>) -> Seq<Seq<char>>
    decreases ws.len(),
{
    if ws.len() == 0 {
        Seq::empty()
    } else {
        let w = ws.last();
        saved_window_lines(ws.drop_last()) + seq![w.index + ": "@ + w.name] + w.panes.map_values(
            |p: crate::model::SavedPaneV| saved_pane_line(p),
        )
    }
}

/// The preview of a saved layout: its first `height` lines, each cut to
/// `width` cells, in grey.
pub open spec fn spec_saved_preview(s: SavedSessionV, width: nat, height: nat) -> Seq<Seq<char>> {
    let ls = saved_preview_lines(s);
    let shown = if ls.len() > height {
        ls.take(height as int)
    } else {
        ls
    };
    shown.map_values(|l: Seq<char>| "\x1b[38;5;244m"@ + spec_plain_truncate(l, width))
}

fn push_text(v: &mut Vec<String>, t: String)
    ensures
        views(final(v)@) == views(old(v)@).push(t@),
{
    let ghost tv = t@;
    v.push(t);
    assert(views(v@) =~= views(old(v)@).push(tv));
}

fn saved_preview_lines_exec(s: &SavedSession) -> (r: Vec<String>)
    ensures
        views(r@) == saved_preview_lines(s@),
{
    let mut out: Vec<String> = Vec::new();
    let name = session_display_name(s.name.as_str());
    push_text(&mut out, concat("󰆓 saved layout: ", name.as_str()));
    push_text(&mut out, concat("last saved: ", s.saved_label.as_str()));
    let count = usize_text(s.windows.len());
    push_text(&mut out, concat(count.as_str(), " windows"));
    if !is_empty_str(s.default_path.as_str()) {
        push_text(&mut out, concat("default path: ", s.default_path.as_str()));
    }
    push_text(&mut out, String::new());
    let ghost head = views(out@);
    let ghost wv = crate::model::window_views(s.windows@);
    let mut i: usize = 0;
    assert(head + saved_window_lines(wv.take(0)) =~= head);
    while i < s.windows.len()
        invariant
            i <= s.windows@.len(),
            wv == crate::model::window_views(s.windows@),
            views(out@) == head + saved_window_lines(wv.take(i as int)),
        decreases s.windows.len() - i,
    {
        let w = &s.windows[i];
        assert(wv[i as int] == w@);
        assert(wv.take(i + 1).drop_last() =~= wv.take(i as int));
        let ghost before = views(out@);
        let mut line = concat(w.index.as_str(), ": ");
        push_str(&mut line, w.name.as_str());
        push_text(&mut out, line);
        let ghost mid = views(out@);
        let ghost pv = crate::model::pane_views(w.panes@);
        let mut j: usize = 0;
        assert(mid + pv.take(0).map_values(|p: crate::model::SavedPaneV| saved_pane_line(p)) =~= mid);
        while j < w.panes.len()
            invariant
                j <= w.panes@.len(),
                pv == crate::model::pane_views(w.panes@),
                views(out@) == mid + pv.take(j as int).map_values(
                    |p: crate::model::SavedPaneV| saved_pane_line(p),
                ),
            decreases w.panes.len() - j,
        {
            let p = &w.panes[j];
            assert(pv[j as int] == p@);
            let cmd = if is_empty_str(p.command.as_str()) {
                "shell"
            } else {
                p.command.as_str()
            };
            let mut l = concat("  pane ", p.index.as_str());
            push_str(&mut l, "  ");
            push_str(&mut l, cmd);
            push_str(&mut l, "  ");
            push_str(&mut l, p.cwd.as_str());
            assert(l@ == saved_pane_line(p@));
            push_text(&mut out, l);
            assert(pv.take(j + 1).map_values(|p: crate::model::SavedPaneV| saved_pane_line(p))
                =~= pv.take(j as int).map_values(|p: crate::model::SavedPaneV| saved_pane_line(p)).push(
                saved_pane_line(pv[j as int]),
            ));
            j += 1;
        }
        assert(pv.take(j as int) =~= pv);
        assert(views(out@) =~= head + saved_window_lines(wv.take(i + 1)));
        i += 1;
    }
    assert(wv.take(i as int) =~= wv);
    out
}

pub fn saved_session_preview(session: &SavedSession, width: usize, height: usize) -> (r: Vec<String>)
    ensures
        views(r@) == spec_saved_preview(session@, width as nat, height as nat),
{
    let ls = saved_preview_lines_exec(session);
    let ghost lv = views(ls@);
    let n = if ls.len() > height {
        height
    } else {
        ls.len()
    };
    let ghost shown = if lv.len() > height {
        lv.take(height as int)
    } else {
        lv
    };
    assert(shown =~= lv.take(n as int));
    let mut out: Vec<String> = Vec::new();
    let mut i: usize = 0;
    while i < n
        invariant
            i <= n <= ls@.len(),
            lv == views(ls@),
            views(out@) == lv.take(i as int).map_values(
                |l: Seq<char>| "\x1b[38;5;244m"@ + spec_plain_truncate(l, width as nat),
            ),
        decreases n - i,
    {
        let cut = plain_truncate(ls[i].as_str(), width);
        let line = concat("\x1b[38;5;244m", cut.as_str());
        assert(lv[i as int] == ls@[i as int]@);
        push_text(&mut out, line);
        assert(lv.take(i + 1).map_values(
            |l: Seq<char>| "\x1b[38;5;244m"@ + spec_plain_truncate(l, width as nat),
        ) =~= lv.take(i as int).map_values(
            |l: Seq<char>| "\x1b[38;5;244m"@ + spec_plain_truncate(l, width as nat),
        ).push("\x1b[38;5;244m"@ + spec_plain_truncate(lv[i as int], width as nat)));
        i += 1;
    }
    out
}

// ---------------------------------------------------------------------------
// the layout preview of a window with several panes
/// Where a pane is drawn in the preview: columns `x1..x2`, lines `y1..y2`.
#[derive(Clone, Debug, PartialEq, Eq)]
pub struct PaneRegion {
    pub id: String,
    pub x1: usize,
    pub y1: usize,
    pub x2: usize,
    pub y2: usize,
}

pub struct PaneRegionV {
    pub id: Seq<char>,
    pub x1: usize,
    pub y1: usize,
    pub x2: usize,
    pub y2: usize,
}

impl View for PaneRegion {
    type V = PaneRegionV;

    open spec fn view(&self) -> PaneRegionV {
        PaneRegionV { id: self.id@, x1: self.x1, y1: self.y1, x2: self.x2, y2: self.y2 }
    }
}

pub open spec fn region_views(v: Seq<PaneRegion>) -> Seq<PaneRegionV> {
    v.map_values(|r: PaneRegion| r@)
}

/// The width the panes span (at least one cell).
pub open spec fn span_width(ps: Seq<PaneGeomV>) -> nat
    decreases ps.len(),
{
    if ps.len() == 0 {
        1
    } else {
        let rest = span_width(ps.drop_last());
        let e = ps.last().left + ps.last().width;
        if e > rest {
            e as nat
        } else {
            rest
        }
    }
}

/// The height the panes span (at least one line).
pub open spec fn span_height(ps: Seq<PaneGeomV>) -> nat
    decreases ps.len(),
{
    if ps.len() == 0 {
        1
    } else {
        let rest = span_height(ps.drop_last());
        let e = ps.last().top + ps.last().height;
        if e > rest {
            e as nat
        } else {
            rest
        }
    }
}

/// The pane scaled from the window's `sw` by `sh` cells to the preview's
/// `width` by `height`: at least one cell wide and high, clipped to the
/// preview; none when nothing of it is left.
pub open spec fn region_of(p: PaneGeomV, width: nat, height: nat, sw: nat, sh: nat) -> Option<PaneRegionV> {
    let x1 = p.left * width / (sw as int);
    let y1 = p.top * height / (sh as int);
    let ex = (p.left + p.width) * width / (sw as int);
    let ey = (p.top + p.height) * height / (sh as int);
    let x2 = if ex > x1 + 1 {
        ex
    } else {
        x1 + 1
    };
    let x2 = if x2 < width {
        x2
    } else {
        width as int
    };
    let y2 = if ey > y1 + 1 {
        ey
    } else {
        y1 + 1
    };
    let y2 = if y2 < height {
        y2
    } else {
        height as int
    };
    if x1 >= width || y1 >= height || x2 <= x1 || y2 <= y1 {
        None
    } else {
        Some(PaneRegionV { id: p.id, x1: x1 as usize, y1: y1 as usize, x2: x2 as usize, y2: y2 as usize })
    }
}

pub open spec fn regions_of(ps: Seq<PaneGeomV>, width: nat, height: nat, sw: nat, sh: nat) -> Seq<
    PaneRegionV,
>
    decreases ps.len(),
{
    if ps.len() == 0 {
        Seq::empty()
    } else {
        let rest = regions_of(ps.drop_last(), width, height, sw, sh);
        match region_of(ps.last(), width, height, sw, sh) {
            Some(r) => rest.push(r),
            None => rest,
        }
    }
}

/// Where the panes of a window go in a `width` by `height` preview; none
/// for a window of one pane or a preview too small to be useful.
pub open spec fn spec_pane_regions(ps: Seq<PaneGeomV>, width: nat, height: nat) -> Option<
    Seq<PaneRegionV>,
> {
    if ps.len() <= 1 || width < 12 || height < 3 {
        None
    } else {
        Some(regions_of(ps, width, height, span_width(ps), span_height(ps)))
    }
}

proof fn lemma_regions_inside(ps: Seq<PaneGeomV>, width: nat, height: nat, sw: nat, sh: nat)
    requires
        width <= usize::MAX,
        height <= usize::MAX,
        sw > 0,
        sh > 0,
    ensures
        forall|i: int|
            0 <= i < regions_of(ps, width, height, sw, sh).len() ==> {
                let r = #[trigger] regions_of(ps, width, height, sw, sh)[i];
                &&& r.x1 < r.x2 <= width
                &&& r.y1 < r.y2 <= height
            },
    decreases ps.len(),
{
    if ps.len() > 0 {
        lemma_regions_inside(ps.drop_last(), width, height, sw, sh);
        let rest = regions_of(ps.drop_last(), width, height, sw, sh);
        let p = ps.last();
        assert(p.left * width / (sw as int) >= 0) by (nonlinear_arith)
            requires
                p.left >= 0,
                width >= 0,
                sw > 0,
        ;
        assert(p.top * height / (sh as int) >= 0) by (nonlinear_arith)
            requires
                p.top >= 0,
                height >= 0,
                sh > 0,
        ;
        if let Some(r) = region_of(p, width, height, sw, sh) {
            assert(r.x1 < r.x2 <= width && r.y1 < r.y2 <= height);
            assert forall|i: int| 0 <= i < rest.len() + 1 implies #[trigger] rest.push(r)[i].x1 < rest.push(
                r,
            )[i].x2 <= width && rest.push(r)[i].y1 < rest.push(r)[i].y2 <= height by {
                if i < rest.len() {
                    assert(rest.push(r)[i] == rest[i]);
                }
            }
        }
    }
}

/// Every pane of the layout preview is drawn inside the preview and covers
/// at least one cell.
pub proof fn law_regions_inside(ps: Seq<PaneGeomV>, width: nat, height: nat)
    requires
        width <= usize::MAX,
        height <= usize::MAX,
    ensures
        spec_pane_regions(ps, width, height) matches Some(rs) ==> forall|i: int|
            0 <= i < rs.len() ==> {
                &&& (#[trigger] rs[i]).x1 < rs[i].x2 <= width
                &&& rs[i].y1 < rs[i].y2 <= height
            },
{
    if ps.len() > 0 {
        lemma_span_width(ps, 0);
        lemma_span_height(ps, 0);
    }
    lemma_regions_inside(ps, width, height, span_width(ps), span_height(ps));
}

/// The pane sizes can be scaled in `usize` without overflow (the scaling
/// overflows, and panics, otherwise).
pub open spec fn scales_in_range(ps: Seq<PaneGeomV>, width: nat, height: nat) -> bool {
    forall|i: int|
        0 <= i < ps.len() ==> {
            let p = #[trigger] ps[i];
            &&& p.left + p.width <= usize::MAX
            &&& p.top + p.height <= usize::MAX
            &&& (p.left + p.width) * width <= usize::MAX
            &&& (p.top + p.height) * height <= usize::MAX
            &&& p.left * width / (span_width(ps) as int) < usize::MAX
            &&& p.top * height / (span_height(ps) as int) < usize::MAX
        }
}

proof fn lemma_span_width(ps: Seq<PaneGeomV>, i: int)
    requires
        0 <= i < ps.len(),
    ensures
        ps[i].left + ps[i].width <= span_width(ps),
        span_width(ps) >= 1,
    decreases ps.len(),
{
    if i < ps.len() - 1 {
        lemma_span_width(ps.drop_last(), i);
    } else if ps.len() > 1 {
        lemma_span_width(ps.drop_last(), 0);
    } else {
        assert(span_width(ps.drop_last()) == 1);
    }
}

proof fn lemma_span_height(ps: Seq<PaneGeomV>, i: int)
    requires
        0 <= i < ps.len(),
    ensures
        ps[i].top + ps[i].height <= span_height(ps),
        span_height(ps) >= 1,
    decreases ps.len(),
{
    if i < ps.len() - 1 {
        lemma_span_height(ps.drop_last(), i);
    } else if ps.len() > 1 {
        lemma_span_height(ps.drop_last(), 0);
    } else {
        assert(span_height(ps.drop_last()) == 1);
    }
}

proof fn lemma_scaled_le(a: nat, b: nat, c: nat, d: nat)
    requires
        a <= b,
        0 < d,
    ensures
        a * c / d <= b * c / d,
{
    assert(a * c <= b * c) by (nonlinear_arith)
        requires
            a <= b,
    ;
    vstd::arithmetic::div_mod::lemma_div_is_ordered((a * c) as int, (b * c) as int, d as int);
}

fn span_width_exec(ps: &Vec<PaneGeom>) -> (r: usize)
    requires
        forall|i: int| 0 <= i < ps@.len() ==> (#[trigger] ps@[i]).left + ps@[i].width <= usize::MAX,
    ensures
        r == span_width(geom_views(ps@)),
{
    let ghost gv = geom_views(ps@);
    let mut m: usize = 1;
    let mut i: usize = 0;
    while i < ps.len()
        invariant
            i <= ps@.len(),
            gv == geom_views(ps@),
            forall|j: int| 0 <= j < ps@.len() ==> (#[trigger] ps@[j]).left + ps@[j].width <= usize::MAX,
            m == span_width(gv.take(i as int)),
        decreases ps.len() - i,
    {
        assert(gv.take(i + 1).drop_last() =~= gv.take(i as int));
        assert(gv.take(i + 1).last() == ps@[i as int]@);
        let e = ps[i].left + ps[i].width;
        if e > m {
            m = e;
        }
        i += 1;
    }
    assert(gv.take(i as int) =~= gv);
    m
}

fn span_height_exec(ps: &Vec<PaneGeom>) -> (r: usize)
    requires
        forall|i: int| 0 <= i < ps@.len() ==> (#[trigger] ps@[i]).top + ps@[i].height <= usize::MAX,
    ensures
        r == span_height(geom_views(ps@)),
{
    let ghost gv = geom_views(ps@);
    let mut m: usize = 1;
    let mut i: usize = 0;
    while i < ps.len()
        invariant
            i <= ps@.len(),
            gv == geom_views(ps@),
            forall|j: int| 0 <= j < ps@.len() ==> (#[trigger] ps@[j]).top + ps@[j].height <= usize::MAX,
            m == span_height(gv.take(i as int)),
        decreases ps.len() - i,
    {
        assert(gv.take(i + 1).drop_last() =~= gv.take(i as int));
        assert(gv.take(i + 1).last() == ps@[i as int]@);
        let e = ps[i].top + ps[i].height;
        if e > m {
            m = e;
        }
        i += 1;
    }
    assert(gv.take(i as int) =~= gv);
    m
}

pub fn pane_regions(panes: &Vec<PaneGeom>, width: usize, height: usize) -> (r: Option<Vec<PaneRegion>>)
    requires
        scales_in_range(geom_views(panes@), width as nat, height as nat),
    ensures
        match r {
            Some(v) => spec_pane_regions(geom_views(panes@), width as nat, height as nat) == Some(
                region_views(v@),
            ),
            None => spec_pane_regions(geom_views(panes@), width as nat, height as nat) is None,
        },
{
    let ghost gv = geom_views(panes@);
    if panes.len() <= 1 || width < 12 || height < 3 {
        return None;
    }
    assert forall|i: int| 0 <= i < panes@.len() implies (#[trigger] panes@[i]).left + panes@[i].width
        <= usize::MAX && panes@[i].top + panes@[i].height <= usize::MAX by {
        assert(gv[i] == panes@[i]@);
    }
    let sw = span_width_exec(panes);
    let sh = span_height_exec(panes);
    let mut out: Vec<PaneRegion> = Vec::new();
    let mut i: usize = 0;
    while i < panes.len()
        invariant
            i <= panes@.len(),
            gv == geom_views(panes@),
            sw == span_width(gv),
            sh == span_height(gv),
            scales_in_range(gv, width as nat, height as nat),
            region_views(out@) == regions_of(gv.take(i as int), width as nat, height as nat, sw as nat, sh as nat),
        decreases panes.len() - i,
    {
        assert(gv.take(i + 1).drop_last() =~= gv.take(i as int));
        assert(gv.take(i + 1).last() == panes@[i as int]@);
        let p = &panes[i];
        proof {
            assert(gv[i as int] == p@);
            lemma_span_width(gv, i as int);
            lemma_span_height(gv, i as int);
            lemma_scaled_le(p.left as nat, (p.left + p.width) as nat, width as nat, sw as nat);
            lemma_scaled_le(p.top as nat, (p.top + p.height) as nat, height as nat, sh as nat);
            lemma_scaled_le((p.left + p.width) as nat, sw as nat, width as nat, sw as nat);
            lemma_scaled_le((p.top + p.height) as nat, sh as nat, height as nat, sh as nat);
            assert(sw as nat * width as nat / sw as nat == width) by {
                vstd::arithmetic::div_mod::lemma_div_by_multiple(width as int, sw as int);
                vstd::arithmetic::mul::lemma_mul_is_commutative(width as int, sw as int);
            }
            assert(sh as nat * height as nat / sh as nat == height) by {
                vstd::arithmetic::div_mod::lemma_div_by_multiple(height as int, sh as int);
                vstd::arithmetic::mul::lemma_mul_is_commutative(height as int, sh as int);
            }
            assert(p.left * width <= (p.left + p.width) * width) by (nonlinear_arith)
                requires
                    p.left <= p.left + p.width,
            ;
            assert(p.top * height <= (p.top + p.height) * height) by (nonlinear_arith)
                requires
                    p.top <= p.top + p.height,
            ;
        }
        let x1 = p.left * width / sw;
        let y1 = p.top * height / sh;
        let ex = (p.left + p.width) * width / sw;
        let ey = (p.top + p.height) * height / sh;
        let mut x2 = if ex > x1 + 1 {
            ex
        } else {
            x1 + 1
        };
        if x2 > width {
            x2 = width;
        }
        let mut y2 = if ey > y1 + 1 {
            ey
        } else {
            y1 + 1
        };
        if y2 > height {
            y2 = height;
        }
        if !(x1 >= width || y1 >= height || x2 <= x1 || y2 <= y1) {
            let r = PaneRegion { id: copy_string(&p.id), x1, y1, x2, y2 };
            let ghost before = region_views(out@);
            out.push(r);
            assert(region_views(out@) =~= before.push(r@));
        }
        i += 1;
    }
    assert(gv.take(i as int) =~= gv);
    Some(out)
}

/// A pane of the layout preview with the lines captured from it, shown at
/// the bottom of its region (`top_pad` blank lines above them).
#[derive(Clone, Debug, PartialEq, Eq)]
pub struct PanePreview {
    pub x1: usize,
    pub y1: usize,
    pub x2: usize,
    pub y2: usize,
    pub top_pad: usize,
    pub content: Vec<String>,
}

pub struct PanePreviewV {
    pub x1: usize,
    pub y1: usize,
    pub x2: usize,
    pub y2: usize,
    pub top_pad: usize,
    pub content: Seq<Seq<char>>,
}

impl View for PanePreview {
    type V = PanePreviewV;

    open spec fn view(&self) -> PanePreviewV {
        PanePreviewV {
            x1: self.x1,
            y1: self.y1,
            x2: self.x2,
            y2: self.y2,
            top_pad: self.top_pad,
            content: views(self.content@),
        }
    }
}

impl PanePreview {
    pub fn copy(&self) -> (r: PanePreview)
        ensures
            r@ == self@,
    {
        PanePreview {
            x1: self.x1,
            y1: self.y1,
            x2: self.x2,
            y2: self.y2,
            top_pad: self.top_pad,
            content: crate::strs::copy_strings(&self.content),
        }
    }
}

pub open spec fn preview_views(v: Seq<PanePreview>) -> Seq<PanePreviewV> {
    v.map_values(|p: PanePreview| p@)
}

/// A region with what was captured from its pane (`capture_preview` for
/// `y2 - y1` lines).
pub fn pane_preview(region: &PaneRegion, content: Vec<String>) -> (r: PanePreview)
    requires
        region.y1 <= region.y2,
    ensures
        r@ == (PanePreviewV {
            x1: region.x1,
            y1: region.y1,
            x2: region.x2,
            y2: region.y2,
            top_pad: if content@.len() < region.y2 - region.y1 {
                (region.y2 - region.y1 - content@.len()) as usize
            } else {
                0
            },
            content: views(content@),
        }),
{
    let h = region.y2 - region.y1;
    let top_pad = if content.len() < h {
        h - content.len()
    } else {
        0
    };
    PanePreview { x1: region.x1, y1: region.y1, x2: region.x2, y2: region.y2, top_pad, content }
}

impl Sortable for PanePreview {
    /// Top to bottom, then left to right.
    open spec fn precedes(a: PanePreviewV, b: PanePreviewV) -> bool {
        a.y1 < b.y1 || (a.y1 == b.y1 && a.x1 < b.x1)
    }

    fn sorts_before(&self, other: &Self) -> (r: bool) {
        self.y1 < other.y1 || (self.y1 == other.y1 && self.x1 < other.x1)
    }
}

/// A pane of one line of the preview, ordered by its left edge.
pub struct ByLeft(pub PanePreview);

impl View for ByLeft {
    type V = PanePreviewV;

    open spec fn view(&self) -> PanePreviewV {
        self.0@
    }
}

impl Sortable for ByLeft {
    open spec fn precedes(a: PanePreviewV, b: PanePreviewV) -> bool {
        a.x1 < b.x1
    }

    fn sorts_before(&self, other: &Self) -> (r: bool) {
        self.0.x1 < other.0.x1
    }
}

/// `ansi_fit`: `s` cut to `width` cells and padded with spaces to them;
/// none where the cut would panic.
pub open spec fn spec_ansi_fit(s: Seq<char>, width: nat) -> Option<Seq<char>> {
    if width == 0 {
        Some(Seq::empty())
    } else {
        match spec_visible_truncate(s, width) {
            Some(c) => {
                let w = spec_text_width(c);
                Some(
                    c + spaces(
                        if w < width {
                            (width - w) as nat
                        } else {
                            0
                        },
                    ),
                )
            },
            None => None,
        }
    }
}

/// `s` cut to `width` cells (colours kept) and padded to exactly `width`.
pub fn ansi_fit(s: &str, width: usize) -> (r: String)
    requires
        width == 0 || truncates_cleanly(s@, width as nat),
    ensures
        spec_ansi_fit(s@, width as nat) == Some(r@),
{
    if width == 0 {
        return String::new();
    }
    let mut clipped = visible_truncate_ansi(s, width);
    let w = text_width(clipped.as_str());
    let visible = if w < width {
        w
    } else {
        width
    };
    push_spaces(&mut clipped, width - visible);
    clipped
}

/// `ansi_fit` gives exactly `width` cells: the cut is at most that wide and
/// the spaces make up the rest.
pub proof fn law_ansi_fit_exact(s: Seq<char>, width: nat)
    ensures
        spec_ansi_fit(s, width) matches Some(r) ==> spec_text_width(r) == width,
{
    crate::text::lemma_padded_cut(s, width);
}

fn try_ansi_fit(s: &str, width: usize) -> (r: Option<String>)
    ensures
        crate::text::opt_text(r) == spec_ansi_fit(s@, width as nat),
{
    if width == 0 || crate::text::truncates_cleanly_exec(s, width) {
        Some(ansi_fit(s, width))
    } else {
        None
    }
}

pub open spec fn divider() -> Seq<char> {
    "\x1b[38;5;238m│\x1b[0m"@
}

/// The captured line a pane shows on preview line `y`.
pub open spec fn pane_text(p: PanePreviewV, y: nat) -> Seq<char> {
    let local = y - p.y1;
    if local >= p.top_pad && local - p.top_pad < p.content.len() {
        p.content[local - p.top_pad]
    } else {
        Seq::empty()
    }
}

/// Line `y` of the preview from column `x` on, the panes crossing it being
/// `active` (left to right): gaps are spaces, a divider goes between panes
/// drawn side by side, each pane shows its text cut to its columns.
pub open spec fn compose_line(active: Seq<PanePreviewV>, y: nat, width: nat, x: nat, drew: bool) -> Option<
    Seq<char>,
>
    decreases active.len(),
{
    if active.len() == 0 {
        Some(
            if x < width {
                spaces((width - x) as nat)
            } else {
                Seq::empty()
            },
        )
    } else {
        let p = active[0];
        let gap = if p.x1 > x {
            spaces((p.x1 - x) as nat)
        } else {
            Seq::empty()
        };
        let xa: nat = if p.x1 > x {
            p.x1 as nat
        } else {
            x
        };
        let sep = if drew && xa < width {
            divider()
        } else {
            Seq::empty()
        };
        let xb: nat = if drew && xa < width {
            xa + 1
        } else {
            xa
        };
        if p.x2 <= xb {
            crate::text::prepend(gap + sep, compose_line(active.drop_first(), y, width, xb, drew))
        } else {
            match spec_ansi_fit(pane_text(p, y), (p.x2 - xb) as nat) {
                Some(f) => crate::text::prepend(
                    gap + sep + f,
                    compose_line(active.drop_first(), y, width, p.x2 as nat, true),
                ),
                None => None,
            }
        }
    }
}

/// The panes crossing line `y`, in order.
pub open spec fn crossing(ps: Seq<PanePreviewV>, y: nat) -> Seq<PanePreviewV>
    decreases ps.len(),
{
    if ps.len() == 0 {
        Seq::empty()
    } else {
        let rest = crossing(ps.drop_last(), y);
        if ps.last().y1 <= y && y < ps.last().y2 {
            rest.push(ps.last())
        } else {
            rest
        }
    }
}

/// The panes of line `y`, left to right (ties in the order given).
pub open spec fn line_panes(ps: Seq<PanePreviewV>, y: nat) -> Seq<PanePreviewV> {
    sorted_stably(crossing(ps, y), order_of::<ByLeft>())
}

pub open spec fn layout_lines_from(ps: Seq<PanePreviewV>, width: nat, n: nat) -> Option<Seq<Seq<char>>>
    decreases n,
{
    if n == 0 {
        Some(Seq::empty())
    } else {
        match (layout_lines_from(ps, width, (n - 1) as nat), compose_line(
            line_panes(ps, (n - 1) as nat),
            (n - 1) as nat,
            width,
            0,
            false,
        )) {
            (Some(ls), Some(l)) => Some(ls.push(l)),
            _ => None,
        }
    }
}

/// The preview of a window's panes side by side, `height` lines of `width`
/// cells, the panes taken top to bottom, left to right; none where cutting a
/// captured line would panic.
pub open spec fn spec_layout_preview(ps: Seq<PanePreviewV>, width: nat, height: nat) -> Option<
    Seq<Seq<char>>,
> {
    layout_lines_from(sorted_stably(ps, order_of::<PanePreview>()), width, height)
}

fn pane_text_exec(p: &PanePreview, y: usize) -> (r: &str)
    requires
        p.y1 <= y,
    ensures
        r@ == pane_text(p@, y as nat),
{
    let local = y - p.y1;
    if local >= p.top_pad && local - p.top_pad < p.content.len() {
        p.content[local - p.top_pad].as_str()
    } else {
        proof {
            reveal_strlit("");
        }
        assert(""@ =~= Seq::<char>::empty());
        ""
    }
}

pub open spec fn left_views(v: Seq<ByLeft>) -> Seq<PanePreviewV> {
    v.map_values(|b: ByLeft| b@)
}

/// What one pane adds to a preview line from column `x` on: the gap, the
/// divider and its cut text, with the column and divider flag after it.
pub open spec fn step_piece(p: PanePreviewV, y: nat, width: nat, x: nat, drew: bool) -> Option<
    (Seq<char>, nat, bool),
> {
    let gap = if p.x1 > x {
        spaces((p.x1 - x) as nat)
    } else {
        Seq::empty()
    };
    let xa: nat = if p.x1 > x {
        p.x1 as nat
    } else {
        x
    };
    let sep = if drew && xa < width {
        divider()
    } else {
        Seq::empty()
    };
    let xb: nat = if drew && xa < width {
        xa + 1
    } else {
        xa
    };
    if p.x2 <= xb {
        Some((gap + sep, xb, drew))
    } else {
        match spec_ansi_fit(pane_text(p, y), (p.x2 - xb) as nat) {
            Some(f) => Some((gap + sep + f, p.x2 as nat, true)),
            None => None,
        }
    }
}

proof fn lemma_compose_unfold(ps: Seq<PanePreviewV>, y: nat, width: nat, x: nat, drew: bool)
    requires
        ps.len() > 0,
    ensures
        compose_line(ps, y, width, x, drew) == (match step_piece(ps[0], y, width, x, drew) {
            Some((piece, x2, d2)) => crate::text::prepend(
                piece,
                compose_line(ps.drop_first(), y, width, x2, d2),
            ),
            None => None,
        }),
{
}

fn compose_piece(p: &PanePreview, y: usize, width: usize, x: usize, drew: bool) -> (r: Option<
    (String, usize, bool),
>)
    requires
        p.y1 <= y,
    ensures
        match r {
            Some((piece, x2, d2)) => step_piece(p@, y as nat, width as nat, x as nat, drew) == Some(
                (piece@, x2 as nat, d2),
            ),
            None => step_piece(p@, y as nat, width as nat, x as nat, drew) is None,
        },
{
    let mut piece = String::new();
    let mut x = x;
    if p.x1 > x {
        push_spaces(&mut piece, p.x1 - x);
        x = p.x1;
    }
    if drew && x < width {
        push_str(&mut piece, "\x1b[38;5;238m│\x1b[0m");
        x += 1;
    }
    if p.x2 <= x {
        return Some((piece, x, drew));
    }
    let text = pane_text_exec(p, y);
    match try_ansi_fit(text, p.x2 - x) {
        Some(f) => {
            push_str(&mut piece, f.as_str());
            Some((piece, p.x2, true))
        },
        None => None,
    }
}

fn compose_line_exec(active: &Vec<ByLeft>, y: usize, width: usize) -> (r: Option<String>)
    requires
        forall|i: int| 0 <= i < active@.len() ==> (#[trigger] active@[i]).0.y1 <= y,
    ensures
        crate::text::opt_text(r) == compose_line(left_views(active@), y as nat, width as nat, 0, false),
{
    let ghost av = left_views(active@);
    let mut line = String::new();
    let mut x: usize = 0;
    let mut drew = false;
    let mut i: usize = 0;
    assert(av.skip(0) =~= av);
    assert(crate::text::prepend(line@, compose_line(av, y as nat, width as nat, 0, false)) == compose_line(
        av,
        y as nat,
        width as nat,
        0,
        false,
    )) by {
        if compose_line(av, y as nat, width as nat, 0, false) is Some {
            assert(line@ + compose_line(av, y as nat, width as nat, 0, false).unwrap()
                =~= compose_line(av, y as nat, width as nat, 0, false).unwrap());
        }
    }
    while i < active.len()
        invariant
            i <= active@.len(),
            av == left_views(active@),
            forall|j: int| 0 <= j < active@.len() ==> (#[trigger] active@[j]).0.y1 <= y,
            compose_line(av, y as nat, width as nat, 0, false) == crate::text::prepend(
                line@,
                compose_line(av.skip(i as int), y as nat, width as nat, x as nat, drew),
            ),
        decreases active.len() - i,
    {
        let p = &active[i].0;
        proof {
            assert(av.skip(i as int)[0] == p@);
            assert(av.skip(i as int).drop_first() =~= av.skip(i + 1));
            lemma_compose_unfold(av.skip(i as int), y as nat, width as nat, x as nat, drew);
        }
        match compose_piece(p, y, width, x, drew) {
            Some((piece, x2, d2)) => {
                let ghost before = line@;
                push_str(&mut line, piece.as_str());
                proof {
                    let rest = compose_line(av.skip(i + 1), y as nat, width as nat, x2 as nat, d2);
                    if rest is Some {
                        assert(before + (piece@ + rest.unwrap()) =~= line@ + rest.unwrap());
                    }
                }
                x = x2;
                drew = d2;
            },
            None => {
                return None;
            },
        }
        i += 1;
    }
    assert(av.skip(i as int).len() == 0);
    if x < width {
        let ghost before = line@;
        push_spaces(&mut line, width - x);
        assert(line@ =~= before + spaces((width - x) as nat));
    } else {
        assert(line@ + Seq::<char>::empty() =~= line@);
    }
    Some(line)
}

proof fn lemma_layout_none(ps: Seq<PanePreviewV>, width: nat, k: nat, n: nat)
    requires
        k <= n,
        layout_lines_from(ps, width, k) is None,
    ensures
        layout_lines_from(ps, width, n) is None,
    decreases n - k,
{
    if k < n {
        lemma_layout_none(ps, width, k, (n - 1) as nat);
    }
}

fn crossing_exec(ps: &Vec<PanePreview>, y: usize) -> (r: Vec<ByLeft>)
    ensures
        left_views(r@) == crossing(preview_views(ps@), y as nat),
        forall|i: int| 0 <= i < r@.len() ==> (#[trigger] r@[i]).0.y1 <= y,
{
    let ghost pv = preview_views(ps@);
    let mut out: Vec<ByLeft> = Vec::new();
    let mut k: usize = 0;
    while k < ps.len()
        invariant
            k <= ps@.len(),
            pv == preview_views(ps@),
            left_views(out@) == crossing(pv.take(k as int), y as nat),
            forall|i: int| 0 <= i < out@.len() ==> (#[trigger] out@[i]).0.y1 <= y,
        decreases ps.len() - k,
    {
        assert(pv.take(k + 1).drop_last() =~= pv.take(k as int));
        assert(pv.take(k + 1).last() == ps@[k as int]@);
        if ps[k].y1 <= y && y < ps[k].y2 {
            let b = ByLeft(ps[k].copy());
            let ghost before = left_views(out@);
            out.push(b);
            assert(left_views(out@) =~= before.push(b@));
        }
        k += 1;
    }
    assert(pv.take(k as int) =~= pv);
    out
}

/// The layout preview, or nothing where cutting a captured line would
/// panic.
pub fn try_window_layout_preview(previews: Vec<PanePreview>, width: usize, height: usize) -> (r: Option<
    Vec<String>,
>)
    ensures
        match r {
            Some(v) => spec_layout_preview(preview_views(previews@), width as nat, height as nat) == Some(
                views(v@),
            ),
            None => spec_layout_preview(preview_views(previews@), width as nat, height as nat) is None,
        },
{
    let ghost orig = preview_views(previews@);
    let sorted = stable_sort(previews);
    assert(preview_views(sorted@) =~= seq_views(sorted@));
    assert(orig =~= seq_views(previews@));
    let ghost sv = preview_views(sorted@);
    let mut out: Vec<String> = Vec::new();
    let mut y: usize = 0;
    while y < height
        invariant
            y <= height,
            sv == preview_views(sorted@),
            sv == sorted_stably(preview_views(previews@), order_of::<PanePreview>()),
            layout_lines_from(sv, width as nat, y as nat) == Some(views(out@)),
        decreases height - y,
    {
        let crossing_panes = crossing_exec(&sorted, y);
        let ghost cv = left_views(crossing_panes@);
        assert(cv =~= seq_views(crossing_panes@));
        let active = stable_sort(crossing_panes);
        assert(left_views(active@) =~= seq_views(active@));
        proof {
            // sorting keeps every pane of the line
            crate::sort::lemma_sorted_contains(cv, order_of::<ByLeft>());
            assert forall|i: int| 0 <= i < active@.len() implies (#[trigger] active@[i]).0.y1 <= y by {
                let srt = sorted_stably(cv, order_of::<ByLeft>());
                assert(seq_views(active@)[i] == active@[i]@);
                assert(srt[i] == active@[i]@);
                assert(srt.contains(active@[i]@));
                let j = choose|j: int| 0 <= j < cv.len() && cv[j] == active@[i]@;
                assert(cv[j] == crossing_panes@[j]@);
            }
        }
        match compose_line_exec(&active, y, width) {
            Some(l) => {
                let ghost before = views(out@);
                push_text(&mut out, l);
            },
            None => {
                proof {
                    lemma_layout_none(sv, width as nat, (y + 1) as nat, height as nat);
                }
                return None;
            },
        }
        y += 1;
    }
    Some(out)
}

/// The preview of a window's panes side by side (see `spec_layout_preview`).
pub fn window_layout_preview(previews: Vec<PanePreview>, width: usize, height: usize) -> (r: Vec<String>)
    requires
        spec_layout_preview(preview_views(previews@), width as nat, height as nat) is Some,
    ensures
        spec_layout_preview(preview_views(previews@), width as nat, height as nat) == Some(views(r@)),
{
    match try_window_layout_preview(previews, width, height) {
        Some(v) => v,
        None => Vec::new(),
    }
}

proof fn lemma_drop_blank_tail(ls: Seq<Seq<char>>)
    ensures
        drop_blank_tail(ls).len() <= ls.len(),
        drop_blank_tail(ls).len() > 0 ==> !blank_line(drop_blank_tail(ls).last()),
        drop_blank_tail(ls) == ls.take(drop_blank_tail(ls).len() as int),
    decreases ls.len(),
{
    if ls.len() > 0 && blank_line(ls.last()) {
        lemma_drop_blank_tail(ls.drop_last());
        let d = drop_blank_tail(ls.drop_last());
        assert(ls.drop_last().take(d.len() as int) =~= ls.take(d.len() as int));
    } else {
        assert(ls.take(ls.len() as int) =~= ls);
    }
}

/// The captured lines shown are at most `n`, the last of the capture that
/// is not blank, and the lines before it in order.
pub proof fn law_tail_nonempty(text: Seq<char>, n: nat)
    ensures
        spec_tail_nonempty(text, n).len() <= n,
        spec_tail_nonempty(text, n).len() > 0 ==> !blank_line(spec_tail_nonempty(text, n).last()),
        spec_tail_nonempty(text, n).len() > 0 ==> exists|k: int|
            0 <= k <= lines(text).len() - spec_tail_nonempty(text, n).len() && spec_tail_nonempty(text, n)
                == #[trigger] lines(text).subrange(k, k + spec_tail_nonempty(text, n).len()),
{
    let ls = lines(text);
    lemma_drop_blank_tail(ls);
    let v = drop_blank_tail(ls);
    let t = spec_tail_nonempty(text, n);
    if v.len() > n {
        if n > 0 {
            assert(t.last() == v.last());
            let k = v.len() - n;
            assert(t =~= ls.subrange(k, k + t.len()));
            assert(0 <= k <= ls.len() - t.len() && t == lines(text).subrange(k, k + t.len()));
        }
    } else if v.len() > 0 {
        assert(t =~= ls.subrange(0, t.len() as int));
        assert(0 <= 0 <= ls.len() - t.len() && t == lines(text).subrange(0int, 0int + t.len()));
    }
}

// ---------------------------------------------------------------------------
// the layout preview lines up
/// The pane covers columns within `0..width`.
pub open spec fn within_columns(p: PanePreviewV, width: nat) -> bool {
    p.x1 < p.x2 <= width
}

proof fn lemma_divider()
    ensures
        crate::text::width_from(divider(), false) == 1,
        !crate::text::escape_open_after(divider(), false),
{
    reveal_strlit("\x1b[38;5;238m│\x1b[0m");
    let p1 = seq!['[', '3', '8', ';', '5', ';', '2', '3', '8'];
    let p2 = seq!['[', '0'];
    let bar = seq!['│'];
    assert(divider() =~= crate::text::sgr(p1) + (bar + crate::text::sgr(p2)));
    crate::text::lemma_sgr(p1);
    crate::text::lemma_sgr(p2);
    assert(bar.drop_first() =~= Seq::<char>::empty());
    assert(!crate::text::escape_open_after(Seq::<char>::empty(), false));
    assert(crate::text::width_from(Seq::<char>::empty(), false) == 0);
    assert(bar[0] == '│');
    assert(!crate::text::escape_open_after(bar, false));
    assert(crate::text::width_from(bar, false) == 1);
    crate::text::lemma_closed_concat(bar, crate::text::sgr(p2));
    crate::text::lemma_closed_concat(crate::text::sgr(p1), bar + crate::text::sgr(p2));
}

proof fn lemma_compose_width(active: Seq<PanePreviewV>, y: nat, width: nat, x: nat, drew: bool)
    requires
        x <= width,
        forall|i: int| 0 <= i < active.len() ==> within_columns(#[trigger] active[i], width),
    ensures
        compose_line(active, y, width, x, drew) matches Some(l) ==> {
            &&& crate::text::width_from(l, false) == width - x
            &&& !crate::text::escape_open_after(l, false)
        },
    decreases active.len(),
{
    if active.len() == 0 {
        let n: nat = if x < width {
            (width - x) as nat
        } else {
            0
        };
        assert(compose_line(active, y, width, x, drew) == Some(spaces(n))) by {
            if x >= width {
                assert(spaces(0) =~= Seq::<char>::empty());
            }
        }
        crate::text::lemma_spaces_width(n);
        crate::text::lemma_spaces_closed(n);
    } else {
        let p = active[0];
        assert(within_columns(active[0], width));
        let rest = active.drop_first();
        assert forall|i: int| 0 <= i < rest.len() implies within_columns(#[trigger] rest[i], width) by {
            assert(rest[i] == active[i + 1]);
        }
        let g: nat = if p.x1 > x {
            (p.x1 - x) as nat
        } else {
            0
        };
        let gap = if p.x1 > x {
            spaces((p.x1 - x) as nat)
        } else {
            Seq::empty()
        };
        assert(gap =~= spaces(g));
        let xa: nat = if p.x1 > x {
            p.x1 as nat
        } else {
            x
        };
        let sep = if drew && xa < width {
            divider()
        } else {
            Seq::empty()
        };
        let xb: nat = if drew && xa < width {
            xa + 1
        } else {
            xa
        };
        crate::text::lemma_spaces_width(g);
        crate::text::lemma_spaces_closed(g);
        lemma_divider();
        assert(!crate::text::escape_open_after(Seq::<char>::empty(), false));
        assert(crate::text::width_from(Seq::<char>::empty(), false) == 0);
        assert(crate::text::width_from(sep, false) == xb - xa);
        assert(!crate::text::escape_open_after(sep, false));
        crate::text::lemma_closed_concat(gap, sep);
        if p.x2 <= xb {
            lemma_compose_width(rest, y, width, xb, drew);
            if let Some(r) = compose_line(rest, y, width, xb, drew) {
                crate::text::lemma_closed_concat(gap + sep, r);
            }
        } else {
            lemma_compose_width(rest, y, width, p.x2 as nat, true);
            crate::text::lemma_padded_cut(pane_text(p, y), (p.x2 - xb) as nat);
            if let Some(f) = spec_ansi_fit(pane_text(p, y), (p.x2 - xb) as nat) {
                crate::text::lemma_closed_concat(gap + sep, f);
                if let Some(r) = compose_line(rest, y, width, p.x2 as nat, true) {
                    crate::text::lemma_closed_concat(gap + sep + f, r);
                }
            }
        }
    }
}

proof fn lemma_crossing_within(ps: Seq<PanePreviewV>, y: nat, width: nat)
    requires
        forall|i: int| 0 <= i < ps.len() ==> within_columns(#[trigger] ps[i], width),
    ensures
        forall|i: int| 0 <= i < crossing(ps, y).len() ==> within_columns(#[trigger] crossing(ps, y)[i], width),
    decreases ps.len(),
{
    if ps.len() > 0 {
        let d = ps.drop_last();
        assert forall|i: int| 0 <= i < d.len() implies within_columns(#[trigger] d[i], width) by {
            assert(d[i] == ps[i]);
        }
        lemma_crossing_within(d, y, width);
        let last = ps[ps.len() - 1];
        assert(within_columns(last, width));
        let rest = crossing(d, y);
        assert forall|i: int| 0 <= i < rest.push(last).len() implies within_columns(
            #[trigger] rest.push(last)[i],
            width,
        ) by {
            if i < rest.len() {
                assert(rest.push(last)[i] == rest[i]);
            }
        }
    }
}

proof fn lemma_sorted_within<T: Sortable>(ps: Seq<PanePreviewV>, width: nat, lt: spec_fn(PanePreviewV, PanePreviewV) -> bool)
    requires
        forall|i: int| 0 <= i < ps.len() ==> within_columns(#[trigger] ps[i], width),
    ensures
        forall|i: int|
            0 <= i < sorted_stably(ps, lt).len() ==> within_columns(#[trigger] sorted_stably(ps, lt)[i], width),
{
    crate::sort::lemma_sorted_contains(ps, lt);
    let srt = sorted_stably(ps, lt);
    assert forall|i: int| 0 <= i < srt.len() implies within_columns(#[trigger] srt[i], width) by {
        assert(srt.contains(srt[i]));
        let j = choose|j: int| 0 <= j < ps.len() && ps[j] == srt[i];
        assert(within_columns(ps[j], width));
    }
}

proof fn lemma_layout_lines_width(ps: Seq<PanePreviewV>, width: nat, n: nat)
    requires
        forall|i: int| 0 <= i < ps.len() ==> within_columns(#[trigger] ps[i], width),
    ensures
        layout_lines_from(ps, width, n) matches Some(ls) ==> ls.len() == n && forall|k: int|
            0 <= k < ls.len() ==> spec_text_width(#[trigger] ls[k]) == width,
    decreases n,
{
    if n > 0 {
        lemma_layout_lines_width(ps, width, (n - 1) as nat);
        let y = (n - 1) as nat;
        lemma_crossing_within(ps, y, width);
        lemma_sorted_within::<ByLeft>(crossing(ps, y), width, order_of::<ByLeft>());
        lemma_compose_width(line_panes(ps, y), y, width, 0, false);
        if let (Some(ls), Some(l)) = (layout_lines_from(ps, width, y), compose_line(
            line_panes(ps, y),
            y,
            width,
            0,
            false,
        )) {
            assert forall|k: int| 0 <= k < ls.push(l).len() implies spec_text_width(#[trigger] ls.push(l)[k])
                == width by {
                if k < ls.len() {
                    assert(ls.push(l)[k] == ls[k]);
                }
            }
        }
    }
}

/// The layout preview has `height` lines of exactly `width` cells each, when
/// every pane lies within the preview's columns (as the regions of
/// `pane_regions` do).
pub proof fn law_layout_lines_width(ps: Seq<PanePreviewV>, width: nat, height: nat)
    requires
        forall|i: int| 0 <= i < ps.len() ==> within_columns(#[trigger] ps[i], width),
    ensures
        spec_layout_preview(ps, width, height) matches Some(ls) ==> ls.len() == height && forall|k: int|
            0 <= k < ls.len() ==> spec_text_width(#[trigger] ls[k]) == width,
{
    lemma_sorted_within::<PanePreview>(ps, width, order_of::<PanePreview>());
    lemma_layout_lines_width(sorted_stably(ps, order_of::<PanePreview>()), width, height);
}

} // verus!
